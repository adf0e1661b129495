use lib::debundler::{_transform_constant_length_bundles, do_direct_debundle, run, run_on_block};
use lib::rudder::{
    Block, CastOperationKind, ConstantValue, Function, PrimitiveTypeClass, Statement,
    StatementKind, StatementUseAnalysis, Type,
};

fn uint(width: usize) -> Type {
    Type::new_primitive(PrimitiveTypeClass::UnsignedInteger, width)
}

fn stmt(kind: StatementKind, typ: Type) -> Statement {
    Statement { kind, typ }
}

fn other(operands: Vec<usize>, typ: Type) -> Statement {
    stmt(StatementKind::Other { operands }, typ)
}

fn constant(n: usize) -> Statement {
    stmt(StatementKind::Constant { value: ConstantValue::UnsignedInteger(n) }, uint(64))
}

/// 0: a value, 1: its length, 2: bundle, 3: value part, 4: length part, 5: a user of both.
fn bundle_block() -> Block {
    Block {
        statements: vec![
            other(vec![], uint(64)),
            constant(64),
            stmt(StatementKind::Bundle { value: 0, length: 1 }, uint(128)),
            stmt(StatementKind::UnbundleValue { bundle: 2 }, uint(64)),
            stmt(StatementKind::UnbundleLength { bundle: 2 }, uint(64)),
            other(vec![3, 4, 3], uint(64)),
        ],
    }
}

#[test]
fn unbundled_parts_are_replaced_by_the_bundled_statements() {
    let mut block = bundle_block();
    let changed = run_on_block(&mut block);
    assert!(!changed);
    assert_eq!(block.statements[5], other(vec![0, 1, 0], uint(64)));
    // Everything else is as it was.
    let before = bundle_block();
    for i in 0..5 {
        assert_eq!(block.statements[i], before.statements[i]);
    }
}

#[test]
fn unbundle_of_a_statement_that_is_not_a_bundle_is_kept() {
    let mut block = Block {
        statements: vec![
            other(vec![], uint(8)),
            stmt(StatementKind::UnbundleValue { bundle: 0 }, uint(8)),
            other(vec![1], uint(8)),
        ],
    };
    let expected = block.clone();
    assert!(!do_direct_debundle(&mut block));
    assert_eq!(block, expected);
}

#[test]
fn unbundle_before_its_bundle_is_kept() {
    let mut block = Block {
        statements: vec![
            other(vec![], uint(8)),
            constant(8),
            stmt(StatementKind::UnbundleLength { bundle: 3 }, uint(64)),
            stmt(StatementKind::Bundle { value: 0, length: 1 }, uint(16)),
            other(vec![2], uint(64)),
        ],
    };
    let expected = block.clone();
    assert!(!do_direct_debundle(&mut block));
    assert_eq!(block, expected);
}

#[test]
fn casts_and_bundles_reading_an_unbundle_are_rewritten() {
    let mut block = Block {
        statements: vec![
            other(vec![], uint(32)),
            constant(32),
            stmt(StatementKind::Bundle { value: 0, length: 1 }, uint(64)),
            stmt(StatementKind::UnbundleValue { bundle: 2 }, uint(32)),
            stmt(StatementKind::Cast { kind: CastOperationKind::SignExtend, value: 3 }, uint(64)),
            stmt(StatementKind::Bundle { value: 3, length: 1 }, uint(64)),
            stmt(StatementKind::UnbundleValue { bundle: 5 }, uint(32)),
            other(vec![6], uint(32)),
        ],
    };
    assert!(!do_direct_debundle(&mut block));
    assert_eq!(
        block.statements[4],
        stmt(StatementKind::Cast { kind: CastOperationKind::SignExtend, value: 0 }, uint(64))
    );
    assert_eq!(block.statements[5], stmt(StatementKind::Bundle { value: 0, length: 1 }, uint(64)));
    // The second bundle now bundles statement 0, so its value part is 0 too.
    assert_eq!(block.statements[7], other(vec![0], uint(32)));
}

#[test]
fn run_debundles_every_block_and_reports_no_change() {
    let mut f = Function {
        name: "decode".to_string(),
        blocks: vec![bundle_block(), Block { statements: vec![constant(1)] }, bundle_block()],
    };
    assert!(!run(&mut f));
    assert_eq!(f.name, "decode");
    assert_eq!(f.blocks.len(), 3);
    assert_eq!(f.blocks[0].statements[5], other(vec![0, 1, 0], uint(64)));
    assert_eq!(f.blocks[1].statements, vec![constant(1)]);
    assert_eq!(f.blocks[2].statements[5], other(vec![0, 1, 0], uint(64)));
}

#[test]
fn use_analysis_lists_each_user_once_in_order() {
    let block = bundle_block();
    let sua = StatementUseAnalysis::new(&block);
    assert_eq!(sua.get_uses(0), &vec![2]);
    assert_eq!(sua.get_uses(1), &vec![2]);
    assert_eq!(sua.get_uses(2), &vec![3, 4]);
    assert_eq!(sua.get_uses(3), &vec![5]);
    assert_eq!(sua.get_uses(4), &vec![5]);
    assert!(!sua.is_used(5));
    assert!(sua.is_used(3));
}

#[test]
fn replace_use_rewrites_every_read() {
    let mut s = other(vec![3, 1, 3], uint(8));
    s.replace_use(3, 9);
    assert_eq!(s, other(vec![9, 1, 9], uint(8)));
    let mut b = stmt(StatementKind::Bundle { value: 4, length: 4 }, uint(8));
    b.replace_use(4, 0);
    assert_eq!(b, stmt(StatementKind::Bundle { value: 0, length: 0 }, uint(8)));
}

fn bundle_with_constant_length(value_width: usize, length: usize) -> Block {
    Block {
        statements: vec![
            other(vec![], uint(value_width)),
            constant(length),
            stmt(StatementKind::Bundle { value: 0, length: 1 }, uint(128)),
        ],
    }
}

#[test]
fn constant_length_bundle_becomes_truncation() {
    let mut block = bundle_with_constant_length(64, 32);
    assert!(_transform_constant_length_bundles(&mut block));
    assert_eq!(
        block.statements[2],
        stmt(StatementKind::Cast { kind: CastOperationKind::Truncate, value: 0 }, uint(32))
    );
}

#[test]
fn constant_length_bundle_becomes_zero_extension() {
    let mut block = bundle_with_constant_length(8, 32);
    assert!(_transform_constant_length_bundles(&mut block));
    assert_eq!(
        block.statements[2],
        stmt(StatementKind::Cast { kind: CastOperationKind::ZeroExtend, value: 0 }, uint(32))
    );
}

#[test]
fn constant_length_bundle_becomes_reinterpretation() {
    let mut block = bundle_with_constant_length(16, 16);
    assert!(_transform_constant_length_bundles(&mut block));
    assert_eq!(
        block.statements[2],
        stmt(StatementKind::Cast { kind: CastOperationKind::Reinterpret, value: 0 }, uint(16))
    );
}

#[test]
fn bundle_with_computed_length_is_kept() {
    let mut block = Block {
        statements: vec![
            other(vec![], uint(64)),
            other(vec![], uint(64)),
            stmt(StatementKind::Bundle { value: 0, length: 1 }, uint(128)),
            stmt(
                StatementKind::Constant { value: ConstantValue::SignedInteger(8) },
                Type::new_primitive(PrimitiveTypeClass::SignedInteger, 64),
            ),
            stmt(StatementKind::Bundle { value: 0, length: 3 }, uint(128)),
        ],
    };
    let expected = block.clone();
    assert!(!_transform_constant_length_bundles(&mut block));
    assert_eq!(block, expected);
}

#[test]
fn width_of_a_rewritten_bundle_is_read_by_later_bundles() {
    // Statement 3 bundles statement 2, which becomes a 32-bit cast first.
    let mut block = Block {
        statements: vec![
            other(vec![], uint(64)),
            constant(32),
            stmt(StatementKind::Bundle { value: 0, length: 1 }, uint(128)),
            stmt(StatementKind::Bundle { value: 2, length: 1 }, uint(128)),
        ],
    };
    assert!(_transform_constant_length_bundles(&mut block));
    assert_eq!(
        block.statements[3],
        stmt(StatementKind::Cast { kind: CastOperationKind::Reinterpret, value: 2 }, uint(32))
    );
}

#[test]
fn type_widths() {
    let t = Type::new_primitive(PrimitiveTypeClass::SignedInteger, 12);
    assert_eq!(t.width_bits(), 12);
    assert_eq!(t.tc, PrimitiveTypeClass::SignedInteger);
}

#[test]
fn debundled_block_reads_only_its_own_statements() {
    let mut block = bundle_block();
    run_on_block(&mut block);
    let n = block.statements.len();
    assert_eq!(n, 6);
    for s in &block.statements {
        let ops: Vec<usize> = s.kind.operand_list();
        assert!(ops.iter().all(|&o| o < n));
    }
}
