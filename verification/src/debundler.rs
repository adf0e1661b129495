//! Debundling: a read of the value or length part of a bundle is turned into a
//! read of the statement that was bundled.
use std::collections::HashMap;
use vstd::prelude::*;

use crate::rudder::{
    Block, CastOperationKind, ConstantValue, Function, PrimitiveTypeClass, SpecStatement,
    SpecStatementKind, Statement, StatementId, StatementKind, StatementUseAnalysis, Type,
    increasing, operands, statement_replacing, uses, well_formed,
};

verus! {

broadcast use {vstd::std_specs::hash::group_hash_axioms, vstd::seq_lib::lemma_seq_contains_after_push};

/// The bundles seen so far: each bundle statement with its value and length.
pub type Bundles = Map<StatementId, (StatementId, StatementId)>;

/// Every statement that read `of` in the block as it was before the pass
/// (`orig`) now reads `with` in place of `of`; the others stay.
pub open spec fn replace_uses(
    orig: Seq<SpecStatement>,
    cur: Seq<SpecStatement>,
    of: StatementId,
    with: StatementId,
) -> Seq<SpecStatement> {
    Seq::new(
        cur.len(),
        |j: int|
            if j < orig.len() && uses(orig[j], of as int) {
                statement_replacing(cur[j], of, with)
            } else {
                cur[j]
            },
    )
}

/// What the pass does at statement `i`, given the statements and the bundles
/// seen before it. The users of a statement are those of the block before the pass.
pub open spec fn debundle_step(
    orig: Seq<SpecStatement>,
    cur: Seq<SpecStatement>,
    bundles: Bundles,
    i: int,
) -> (Seq<SpecStatement>, Bundles) {
    match cur[i].kind {
        SpecStatementKind::Bundle { value, length } => (
            cur,
            bundles.insert(i as StatementId, (value, length)),
        ),
        SpecStatementKind::UnbundleValue { bundle } => if bundles.contains_key(bundle) {
            (replace_uses(orig, cur, i as StatementId, bundles[bundle].0), bundles)
        } else {
            (cur, bundles)
        },
        SpecStatementKind::UnbundleLength { bundle } => if bundles.contains_key(bundle) {
            (replace_uses(orig, cur, i as StatementId, bundles[bundle].1), bundles)
        } else {
            (cur, bundles)
        },
        _ => (cur, bundles),
    }
}

/// The statements and the bundles after the pass has gone over the first `k`
/// statements of `orig`.
pub open spec fn debundle_prefix(orig: Seq<SpecStatement>, k: nat) -> (Seq<SpecStatement>, Bundles)
    decreases k,
{
    if k == 0 {
        (orig, Map::empty())
    } else {
        let p = debundle_prefix(orig, (k - 1) as nat);
        debundle_step(orig, p.0, p.1, k - 1)
    }
}

/// The block after debundling.
pub open spec fn debundled(orig: Seq<SpecStatement>) -> Seq<SpecStatement> {
    debundle_prefix(orig, orig.len()).0
}

/// Statement `i` reads the value part of a bundle seen before it, and nothing
/// reads statement `i`: the pass stops there.
pub open spec fn dead_unbundle_at(orig: Seq<SpecStatement>, i: int) -> bool {
    let p = debundle_prefix(orig, i as nat);
    &&& 0 <= i < orig.len()
    &&& p.0[i].kind matches SpecStatementKind::UnbundleValue { bundle } && p.1.contains_key(bundle)
    &&& forall|j: int| 0 <= j < orig.len() ==> !uses(#[trigger] orig[j], i)
}

/// The pass stops on some statement of the block.
pub open spec fn debundle_stops(orig: Seq<SpecStatement>) -> bool {
    exists|i: int| dead_unbundle_at(orig, i)
}

pub proof fn lemma_debundle_prefix_len(orig: Seq<SpecStatement>, k: nat)
    ensures
        debundle_prefix(orig, k).0.len() == orig.len(),
    decreases k,
{
    if k > 0 {
        lemma_debundle_prefix_len(orig, (k - 1) as nat);
    }
}

fn replace_uses_in(
    block: &mut Block,
    users: &Vec<StatementId>,
    of: StatementId,
    with: StatementId,
)
    requires
        increasing(users@),
        forall|x: int| 0 <= x < users@.len() ==> #[trigger] users@[x] < old(block)@.len(),
    ensures
        final(block)@ == Seq::new(
            old(block)@.len(),
            |j: int|
                if users@.contains(j as StatementId) {
                    statement_replacing(old(block)@[j], of, with)
                } else {
                    old(block)@[j]
                },
        ),
{
    let ghost before = block@;
    let _ = block.statements.len();
    let mut k: usize = 0;
    while k < users.len()
        invariant
            increasing(users@),
            forall|x: int| 0 <= x < users@.len() ==> #[trigger] users@[x] < before.len(),
            0 <= k <= users.len(),
            block@.len() == before.len(),
            block.statements@.len() == before.len(),
            before.len() <= usize::MAX,
            forall|j: int|
                0 <= j < before.len() ==> #[trigger] block@[j] == if users@.take(k as int).contains(
                    j as StatementId,
                ) {
                    statement_replacing(before[j], of, with)
                } else {
                    before[j]
                },
        decreases users.len() - k,
    {
        let u = users[k];
        let ghost prev = block@;
        block.statements[u].replace_use(of, with);
        proof {
            assert(users@.take(k + 1) =~= users@.take(k as int).push(u));
            assert forall|j: int| 0 <= j < before.len() implies #[trigger] block@[j] == if users@.take(
                k + 1,
            ).contains(j as StatementId) {
                statement_replacing(before[j], of, with)
            } else {
                before[j]
            } by {
                assert(prev[j] == if users@.take(k as int).contains(j as StatementId) {
                    statement_replacing(before[j], of, with)
                } else {
                    before[j]
                });
                if j == u as int {
                    assert(!users@.take(k as int).contains(u)) by {
                        if users@.take(k as int).contains(u) {
                            let x = choose|x: int| 0 <= x < k && users@.take(k as int)[x] == u;
                            assert(users@[x] < users@[k as int]);
                        }
                    }
                    assert(block@[j] == block.statements@[j]@);
                    assert(block@[j] == statement_replacing(prev[j], of, with));
                    assert(users@.take(k + 1).contains(j as StatementId));
                } else {
                    assert(block@[j] == block.statements@[j]@);
                    assert(prev[j] == block@[j]);
                    assert(users@.take(k + 1).contains(j as StatementId) == users@.take(k as int).contains(j as StatementId));
                }
            }
        }
        k = k + 1;
    }
    proof {
        assert(users@.take(users@.len() as int) =~= users@);
        assert(block@ =~= Seq::new(
            before.len(),
            |j: int|
                if users@.contains(j as StatementId) {
                    statement_replacing(before[j], of, with)
                } else {
                    before[j]
                },
        ));
    }
}

/// Debundles every block of `f` (the blocks reachable from its entry block).
/// Reports no change, whatever was rewritten.
pub fn run(f: &mut Function) -> (changed: bool)
    requires
        forall|b: int| 0 <= b < old(f).blocks@.len() ==> !debundle_stops(#[trigger] old(f).blocks@[b]@),
    ensures
        !changed,
        final(f).name == old(f).name,
        final(f).blocks@.len() == old(f).blocks@.len(),
        forall|b: int|
            0 <= b < old(f).blocks@.len() ==> #[trigger] final(f).blocks@[b]@ == debundled(
                old(f).blocks@[b]@,
            ),
{
    let mut changed = false;
    let n = f.blocks.len();
    let mut b: usize = 0;
    while b < n
        invariant
            n == old(f).blocks@.len(),
            f.blocks@.len() == n,
            f.name == old(f).name,
            0 <= b <= n,
            !changed,
            forall|c: int| 0 <= c < n ==> !debundle_stops(#[trigger] old(f).blocks@[c]@),
            forall|c: int| 0 <= c < b ==> #[trigger] f.blocks@[c]@ == debundled(old(f).blocks@[c]@),
            forall|c: int| b <= c < n ==> #[trigger] f.blocks@[c] == old(f).blocks@[c],
        decreases n - b,
    {
        let r = run_on_block(&mut f.blocks[b]);
        changed = changed || r;
        b = b + 1;
    }
    changed
}

/// Debundles one block. Reports no change, whatever was rewritten.
pub fn run_on_block(block: &mut Block) -> (changed: bool)
    requires
        !debundle_stops(old(block)@),
    ensures
        !changed,
        final(block)@ == debundled(old(block)@),
{
    let mut changed = false;
    changed = changed || do_direct_debundle(block);
    changed
}

/// Goes over the statements in order, remembering each bundle. At a read of the
/// value (or length) part of a remembered bundle, every statement that read
/// that statement before the pass reads the bundled value (or length) instead.
/// The result is always `false`.
pub fn do_direct_debundle(block: &mut Block) -> (changed: bool)
    requires
        !debundle_stops(old(block)@),
    ensures
        !changed,
        final(block)@ == debundled(old(block)@),
{
    let ghost orig = block@;
    let sua = StatementUseAnalysis::new(block);
    let mut changed = false;
    let mut bundles: HashMap<StatementId, (StatementId, StatementId)> = HashMap::new();
    let n = block.statements.len();
    let mut i: usize = 0;
    while i < n
        invariant
            orig.len() == n,
            block.statements@.len() == n,
            sua.describes(orig),
            !debundle_stops(orig),
            0 <= i <= n,
            !changed,
            block@ == debundle_prefix(orig, i as nat).0,
            bundles@ == debundle_prefix(orig, i as nat).1,
        decreases n - i,
    {
        proof {
            lemma_debundle_prefix_len(orig, i as nat);
            lemma_debundle_prefix_len(orig, (i + 1) as nat);
            assert(block@[i as int] == block.statements@[i as int]@);
        }
        let ghost cur = block@;
        let step = match &block.statements[i].kind {
            StatementKind::Bundle { value, length } => {
                bundles.insert(i, (*value, *length));
                false
            },
            StatementKind::UnbundleValue { bundle } => {
                let bundle = *bundle;
                match bundles.get(&bundle) {
                    Some(pair) => {
                        let live_value = pair.0;
                        proof {
                            if sua.users@[i as int]@.len() == 0 {
                                assert forall|j: int| 0 <= j < orig.len() implies !uses(
                                    #[trigger] orig[j],
                                    i as int,
                                ) by {
                                    if uses(orig[j], i as int) {
                                        assert(sua.users@[i as int]@.contains(j as StatementId));
                                    }
                                }
                                assert(dead_unbundle_at(orig, i as int));
                            }
                        }
                        replace_uses_in(block, sua.get_uses(i), i, live_value);
                        proof {
                            assert(block@ =~= replace_uses(orig, cur, i, live_value));
                        }
                        false
                    },
                    None => false,
                }
            },
            StatementKind::UnbundleLength { bundle } => {
                let bundle = *bundle;
                match bundles.get(&bundle) {
                    Some(pair) => {
                        let live_length = pair.1;
                        replace_uses_in(block, sua.get_uses(i), i, live_length);
                        proof {
                            assert(block@ =~= replace_uses(orig, cur, i, live_length));
                        }
                        false
                    },
                    None => false,
                }
            },
            _ => false,
        };
        changed = changed || step;
        i = i + 1;
    }
    proof {
        lemma_debundle_prefix_len(orig, n as nat);
    }
    changed
}

/// The cast that brings a value of `current` bits to `target` bits.
pub open spec fn length_cast_kind(target: usize, current: usize) -> CastOperationKind {
    if target < current {
        CastOperationKind::Truncate
    } else if target > current {
        CastOperationKind::ZeroExtend
    } else {
        CastOperationKind::Reinterpret
    }
}

/// When statement `i` bundles a value with a length that is an unsigned
/// constant, the cast of the value to an unsigned integer of that many bits
/// that takes its place.
pub open spec fn constant_length_cast(cur: Seq<SpecStatement>, i: int) -> Option<SpecStatement> {
    match cur[i].kind {
        SpecStatementKind::Bundle { value, length } => match cur[length as int].kind {
            SpecStatementKind::Constant { value: ConstantValue::UnsignedInteger(target) } => Some(
                SpecStatement {
                    kind: SpecStatementKind::Cast {
                        kind: length_cast_kind(target, cur[value as int].typ.element_width_in_bits),
                        value,
                    },
                    typ: Type { tc: PrimitiveTypeClass::UnsignedInteger, element_width_in_bits: target },
                },
            ),
            _ => None,
        },
        _ => None,
    }
}

/// The statements after the first `k` have been looked at.
pub open spec fn transform_prefix(orig: Seq<SpecStatement>, k: nat) -> Seq<SpecStatement>
    decreases k,
{
    if k == 0 {
        orig
    } else {
        let p = transform_prefix(orig, (k - 1) as nat);
        match constant_length_cast(p, k - 1) {
            Some(s) => p.update(k - 1, s),
            None => p,
        }
    }
}

/// Some bundle of the block was replaced by a cast.
pub open spec fn transform_changes(orig: Seq<SpecStatement>) -> bool {
    exists|i: int| 0 <= i < orig.len() && #[trigger] constant_length_cast(transform_prefix(orig, i as nat), i) is Some
}

/// Replaces every bundle whose length is an unsigned constant by a cast of its
/// value to an unsigned integer of that width (truncating, zero-extending or
/// reinterpreting). Returns whether a bundle was replaced.
pub fn _transform_constant_length_bundles(block: &mut Block) -> (changed: bool)
    requires
        well_formed(old(block)@),
    ensures
        final(block)@ == transform_prefix(old(block)@, old(block)@.len()),
        well_formed(final(block)@),
        changed == transform_changes(old(block)@),
{
    let ghost orig = block@;
    let mut changed = false;
    let n = block.statements.len();
    let mut i: usize = 0;
    while i < n
        invariant
            orig.len() == n,
            block.statements@.len() == n,
            0 <= i <= n,
            block@ == transform_prefix(orig, i as nat),
            well_formed(block@),
            changed == exists|k: int|
                0 <= k < i && #[trigger] constant_length_cast(transform_prefix(orig, k as nat), k) is Some,
        decreases n - i,
    {
        let ghost cur = block@;
        proof {
            assert(cur[i as int] == block.statements@[i as int]@);
        }
        let step = match &block.statements[i].kind {
            StatementKind::Bundle { value, length } => {
                let value = *value;
                let length = *length;
                proof {
                    assert(operands(cur[i as int].kind)[0] == value);
                    assert(operands(cur[i as int].kind)[1] == length);
                    assert(cur[length as int] == block.statements@[length as int]@);
                    assert(cur[value as int] == block.statements@[value as int]@);
                }
                match &block.statements[length].kind {
                    StatementKind::Constant { value: ConstantValue::UnsignedInteger(target_length) } => {
                        let target_length = *target_length;
                        let value_length = block.statements[value].typ.width_bits();
                        let target_type = Type::new_primitive(
                            PrimitiveTypeClass::UnsignedInteger,
                            target_length,
                        );
                        let kind = if target_length < value_length {
                            CastOperationKind::Truncate
                        } else if target_length > value_length {
                            CastOperationKind::ZeroExtend
                        } else {
                            CastOperationKind::Reinterpret
                        };
                        block.statements.set(
                            i,
                            Statement { kind: StatementKind::Cast { kind, value }, typ: target_type },
                        );
                        proof {
                            assert(block@ =~= cur.update(
                                i as int,
                                constant_length_cast(cur, i as int).unwrap(),
                            ));
                            assert forall|j: int, k: int|
                                0 <= j < block@.len() && 0 <= k < operands(block@[j].kind).len()
                                    implies #[trigger] operands(block@[j].kind)[k] < block@.len() by {
                                if j != i {
                                    assert(operands(cur[j].kind)[k] < cur.len());
                                }
                            }
                        }
                        true
                    },
                    _ => false,
                }
            },
            _ => false,
        };
        proof {
            if !step {
                assert(constant_length_cast(cur, i as int) is None);
            }
            assert forall|k: int| 0 <= k < i + 1 implies (#[trigger] constant_length_cast(
                transform_prefix(orig, k as nat),
                k,
            ) is Some) == (if k < i {
                constant_length_cast(transform_prefix(orig, k as nat), k) is Some
            } else {
                step
            }) by {}
        }
        changed = changed || step;
        i = i + 1;
    }
    changed
}

/// `b` computes what `a` computes, with a result of the same type; only the
/// statements it reads may differ.
pub open spec fn same_computation(a: SpecStatement, b: SpecStatement) -> bool {
    &&& a.typ == b.typ
    &&& match (a.kind, b.kind) {
        (SpecStatementKind::Constant { value: x }, SpecStatementKind::Constant { value: y }) => x
            == y,
        (SpecStatementKind::Bundle { .. }, SpecStatementKind::Bundle { .. }) => true,
        (SpecStatementKind::UnbundleValue { .. }, SpecStatementKind::UnbundleValue { .. }) => true,
        (SpecStatementKind::UnbundleLength { .. }, SpecStatementKind::UnbundleLength { .. }) => true,
        (SpecStatementKind::Cast { kind: x, .. }, SpecStatementKind::Cast { kind: y, .. }) => x == y,
        (SpecStatementKind::Other { operands: x }, SpecStatementKind::Other { operands: y }) => x.len()
            == y.len(),
        _ => false,
    }
}

proof fn lemma_replacing_keeps_computation(s: SpecStatement, of: StatementId, with: StatementId)
    ensures
        same_computation(s, statement_replacing(s, of, with)),
        operands(statement_replacing(s, of, with).kind) =~= operands(s.kind).map_values(
            |o: StatementId| crate::rudder::replaced(o, of, with),
        ),
{
}

proof fn lemma_debundle_prefix_invariants(orig: Seq<SpecStatement>, k: nat)
    requires
        k <= orig.len(),
    ensures
        debundle_prefix(orig, k).0.len() == orig.len(),
        forall|j: int|
            0 <= j < orig.len() ==> same_computation(orig[j], #[trigger] debundle_prefix(orig, k).0[j]),
        well_formed(orig) ==> {
            &&& well_formed(debundle_prefix(orig, k).0)
            &&& forall|b: StatementId|
                #[trigger] debundle_prefix(orig, k).1.contains_key(b) ==> debundle_prefix(
                    orig,
                    k,
                ).1[b].0 < orig.len() && debundle_prefix(orig, k).1[b].1 < orig.len()
        },
    decreases k,
{
    if k > 0 {
        let kk = (k - 1) as nat;
        lemma_debundle_prefix_invariants(orig, kk);
        let p = debundle_prefix(orig, kk);
        let i = k - 1;
        let q = debundle_prefix(orig, k);
        assert(q == debundle_step(orig, p.0, p.1, i));
        match p.0[i].kind {
            SpecStatementKind::Bundle { value, length } => {
                if well_formed(orig) {
                    assert(operands(p.0[i].kind)[0] == value);
                    assert(operands(p.0[i].kind)[1] == length);
                }
            },
            SpecStatementKind::UnbundleValue { bundle } | SpecStatementKind::UnbundleLength {
                bundle,
            } => {
                if p.1.contains_key(bundle) {
                    let with = if p.0[i].kind is UnbundleValue {
                        p.1[bundle].0
                    } else {
                        p.1[bundle].1
                    };
                    assert(q.0 == replace_uses(orig, p.0, i as StatementId, with));
                    assert forall|j: int| 0 <= j < orig.len() implies same_computation(
                        orig[j],
                        #[trigger] q.0[j],
                    ) by {
                        lemma_replacing_keeps_computation(p.0[j], i as StatementId, with);
                    }
                    if well_formed(orig) {
                        assert forall|j: int, m: int|
                            0 <= j < q.0.len() && 0 <= m < operands(q.0[j].kind).len()
                                implies #[trigger] operands(q.0[j].kind)[m] < q.0.len() by {
                            lemma_replacing_keeps_computation(p.0[j], i as StatementId, with);
                            if j < orig.len() && uses(orig[j], i) {
                                assert(operands(p.0[j].kind)[m] < p.0.len());
                            } else {
                                assert(operands(p.0[j].kind)[m] < p.0.len());
                            }
                        }
                    }
                }
            },
            _ => {},
        }
    }
}

/// Debundling keeps the number of statements, and what each statement computes
/// and the type of its result: only the statements that it reads change.
pub proof fn law_debundle_keeps_computations(orig: Seq<SpecStatement>)
    ensures
        debundled(orig).len() == orig.len(),
        forall|j: int| 0 <= j < orig.len() ==> same_computation(orig[j], #[trigger] debundled(orig)[j]),
{
    lemma_debundle_prefix_invariants(orig, orig.len());
}

/// Debundling a well-formed block gives a well-formed block: every statement
/// still reads statements of the block.
pub proof fn law_debundle_keeps_well_formed(orig: Seq<SpecStatement>)
    requires
        well_formed(orig),
    ensures
        well_formed(debundled(orig)),
{
    lemma_debundle_prefix_invariants(orig, orig.len());
}

/// A block without bundles is left as it is.
pub proof fn law_debundle_without_bundles(orig: Seq<SpecStatement>)
    requires
        forall|j: int| 0 <= j < orig.len() ==> !(#[trigger] orig[j].kind is Bundle),
    ensures
        debundled(orig) == orig,
{
    assert forall|k: nat| k <= orig.len() implies #[trigger] debundle_prefix(orig, k) == (
    orig,
    Map::<StatementId, (StatementId, StatementId)>::empty()) by {
        lemma_no_bundles_prefix(orig, k);
    }
}

proof fn lemma_no_bundles_prefix(orig: Seq<SpecStatement>, k: nat)
    requires
        k <= orig.len(),
        forall|j: int| 0 <= j < orig.len() ==> !(#[trigger] orig[j].kind is Bundle),
    ensures
        debundle_prefix(orig, k) == (orig, Map::<StatementId, (StatementId, StatementId)>::empty()),
    decreases k,
{
    if k > 0 {
        lemma_no_bundles_prefix(orig, (k - 1) as nat);
        assert(!(orig[k - 1].kind is Bundle));
    }
}

/// When statement `j` of `orig` bundles a value with a length that is an
/// unsigned constant: that value and that constant.
pub open spec fn constant_length_bundle(orig: Seq<SpecStatement>, j: int) -> Option<
    (StatementId, usize),
> {
    match orig[j].kind {
        SpecStatementKind::Bundle { value, length } => match orig[length as int].kind {
            SpecStatementKind::Constant { value: ConstantValue::UnsignedInteger(target) } => Some(
                (value, target),
            ),
            _ => None,
        },
        _ => None,
    }
}

proof fn lemma_transform_prefix(orig: Seq<SpecStatement>, k: nat)
    requires
        well_formed(orig),
        k <= orig.len(),
    ensures
        transform_prefix(orig, k).len() == orig.len(),
        forall|j: int| k <= j < orig.len() ==> #[trigger] transform_prefix(orig, k)[j] == orig[j],
        forall|j: int|
            0 <= j < k ==> match constant_length_bundle(orig, j) {
                Some((value, target)) => {
                    &&& #[trigger] transform_prefix(orig, k)[j].kind matches SpecStatementKind::Cast {
                        value: v,
                        ..
                    } && v == value
                    &&& transform_prefix(orig, k)[j].typ == Type {
                        tc: PrimitiveTypeClass::UnsignedInteger,
                        element_width_in_bits: target,
                    }
                },
                None => transform_prefix(orig, k)[j] == orig[j],
            },
        forall|j: int|
            0 <= j < k ==> (#[trigger] constant_length_cast(transform_prefix(orig, j as nat), j) is Some
                <==> constant_length_bundle(orig, j) is Some),
    decreases k,
{
    if k > 0 {
        let i = k - 1;
        lemma_transform_prefix(orig, i as nat);
        let p = transform_prefix(orig, i as nat);
        assert(p[i] == orig[i]);
        match orig[i].kind {
            SpecStatementKind::Bundle { value, length } => {
                assert(operands(orig[i].kind)[1] == length);
                assert(length < orig.len());
                if length >= i {
                    assert(p[length as int] == orig[length as int]);
                } else {
                    match constant_length_bundle(orig, length as int) {
                        Some(_) => {
                            assert(p[length as int].kind is Cast);
                        },
                        None => {
                            assert(p[length as int] == orig[length as int]);
                        },
                    }
                }
            },
            _ => {},
        }
    }
}

/// A bundle is replaced by a cast exactly when, in the block before the pass,
/// its length is an unsigned constant; the cast reads the bundled value and
/// gives an unsigned integer of that many bits. Every other statement stays,
/// and the pass reports a change exactly when there is such a bundle.
pub proof fn law_transform_targets(orig: Seq<SpecStatement>)
    requires
        well_formed(orig),
    ensures
        transform_prefix(orig, orig.len()).len() == orig.len(),
        forall|j: int|
            0 <= j < orig.len() ==> match constant_length_bundle(orig, j) {
                Some((value, target)) => {
                    &&& #[trigger] transform_prefix(orig, orig.len())[j].kind matches SpecStatementKind::Cast {
                        value: v,
                        ..
                    } && v == value
                    &&& transform_prefix(orig, orig.len())[j].typ == Type {
                        tc: PrimitiveTypeClass::UnsignedInteger,
                        element_width_in_bits: target,
                    }
                },
                None => transform_prefix(orig, orig.len())[j] == orig[j],
            },
        transform_changes(orig) <==> exists|j: int|
            0 <= j < orig.len() && #[trigger] constant_length_bundle(orig, j) is Some,
{
    lemma_transform_prefix(orig, orig.len());
    if transform_changes(orig) {
        let j = choose|j: int|
            0 <= j < orig.len() && #[trigger] constant_length_cast(transform_prefix(orig, j as nat), j) is Some;
        assert(constant_length_bundle(orig, j) is Some);
    }
    if exists|j: int| 0 <= j < orig.len() && #[trigger] constant_length_bundle(orig, j) is Some {
        let j = choose|j: int| 0 <= j < orig.len() && #[trigger] constant_length_bundle(orig, j) is Some;
        assert(constant_length_cast(transform_prefix(orig, j as nat), j) is Some);
    }
}

/// The cast that replaces a bundle with an unsigned constant length `t`
/// truncates when the bundled value is wider than `t` bits, zero-extends when
/// it is narrower, and reinterprets when it has exactly `t` bits (where the
/// bundled value is not itself such a bundle, so its width is its own).
pub proof fn law_transform_cast_kind(orig: Seq<SpecStatement>, j: int, v: StatementId, t: usize)
    requires
        well_formed(orig),
        0 <= j < orig.len(),
        constant_length_bundle(orig, j) == Some((v, t)),
        constant_length_bundle(orig, v as int) is None,
    ensures
        transform_prefix(orig, orig.len())[j].kind matches SpecStatementKind::Cast { kind, value } && {
            let w = orig[v as int].typ.element_width_in_bits;
            &&& value == v
            &&& (kind == CastOperationKind::Truncate <==> t < w)
            &&& (kind == CastOperationKind::ZeroExtend <==> t > w)
            &&& (kind == CastOperationKind::Reinterpret <==> t == w)
        },
{
    lemma_transform_prefix(orig, orig.len());
    lemma_transform_prefix(orig, j as nat);
    lemma_transform_prefix(orig, (j + 1) as nat);
    assert(operands(orig[j].kind)[0] == v);
    assert(v < orig.len());
    let p = transform_prefix(orig, j as nat);
    assert(p[j] == orig[j]);
    lemma_transform_keeps_unrewritten(orig, v as int, j as nat);
    assert(p[v as int] == orig[v as int]);
    assert(transform_prefix(orig, (j + 1) as nat)[j] == constant_length_cast(p, j).unwrap());
    lemma_transform_later_steps_keep(orig, j, (j + 1) as nat, orig.len());
}

proof fn lemma_transform_keeps_unrewritten(orig: Seq<SpecStatement>, x: int, k: nat)
    requires
        well_formed(orig),
        0 <= x < orig.len(),
        k <= orig.len(),
        constant_length_bundle(orig, x) is None,
    ensures
        transform_prefix(orig, k)[x] == orig[x],
    decreases k,
{
    if k > 0 {
        lemma_transform_keeps_unrewritten(orig, x, (k - 1) as nat);
        lemma_transform_prefix(orig, (k - 1) as nat);
        lemma_transform_prefix(orig, k);
        if x == k - 1 {
            assert(transform_prefix(orig, (k - 1) as nat)[x] == orig[x]);
            assert(constant_length_cast(transform_prefix(orig, (k - 1) as nat), x) is Some
                <==> constant_length_bundle(orig, x) is Some);
        }
    }
}

proof fn lemma_transform_later_steps_keep(orig: Seq<SpecStatement>, j: int, from: nat, k: nat)
    requires
        well_formed(orig),
        0 <= j < from <= k <= orig.len(),
    ensures
        transform_prefix(orig, k)[j] == transform_prefix(orig, from)[j],
    decreases k - from,
{
    if k > from {
        lemma_transform_later_steps_keep(orig, j, from, (k - 1) as nat);
        lemma_transform_prefix(orig, (k - 1) as nat);
    }
}

/// Statement `o` of `orig` reads the value or the length part of a bundle.
pub open spec fn is_unbundle(orig: Seq<SpecStatement>, o: StatementId) -> bool {
    &&& o < orig.len()
    &&& (orig[o as int].kind is UnbundleValue || orig[o as int].kind is UnbundleLength)
}

/// One step of the pass changes an operand only where it reads the statement
/// of that step, and only when that statement is an unbundle.
proof fn lemma_debundle_step_operands(orig: Seq<SpecStatement>, k: nat, j: int, m: int)
    requires
        orig.len() <= usize::MAX,
        k < orig.len(),
        0 <= j < orig.len(),
        0 <= m < operands(debundle_prefix(orig, k).0[j].kind).len(),
    ensures
        operands(debundle_prefix(orig, k + 1).0[j].kind).len() == operands(
            debundle_prefix(orig, k).0[j].kind,
        ).len(),
        operands(debundle_prefix(orig, k + 1).0[j].kind)[m] == operands(
            debundle_prefix(orig, k).0[j].kind,
        )[m] || (operands(debundle_prefix(orig, k).0[j].kind)[m] == k && is_unbundle(
            orig,
            k as StatementId,
        )),
{
    lemma_debundle_prefix_invariants(orig, k);
    lemma_debundle_prefix_invariants(orig, k + 1);
    let p = debundle_prefix(orig, k);
    let q = debundle_prefix(orig, k + 1);
    assert(q == debundle_step(orig, p.0, p.1, k as int));
    assert(same_computation(orig[k as int], p.0[k as int]));
    match p.0[k as int].kind {
        SpecStatementKind::UnbundleValue { bundle } | SpecStatementKind::UnbundleLength { bundle } => {
            if p.1.contains_key(bundle) {
                let with = if p.0[k as int].kind is UnbundleValue {
                    p.1[bundle].0
                } else {
                    p.1[bundle].1
                };
                assert(q.0 == replace_uses(orig, p.0, k as StatementId, with));
                lemma_replacing_keeps_computation(p.0[j], k as StatementId, with);
                if j < orig.len() && uses(orig[j], k as StatementId as int) {
                    assert(q.0[j] == statement_replacing(p.0[j], k as StatementId, with));
                    assert(is_unbundle(orig, k as StatementId));
                } else {
                    assert(q.0[j] == p.0[j]);
                }
            } else {
                assert(q.0 == p.0);
            }
        },
        _ => {
            assert(q.0 == p.0);
        },
    }
}

/// An operand that no step of the pass from `from` to `k` may replace stays.
proof fn lemma_operand_stays(
    orig: Seq<SpecStatement>,
    j: int,
    m: int,
    o: StatementId,
    from: nat,
    k: nat,
)
    requires
        orig.len() <= usize::MAX,
        from <= k <= orig.len(),
        0 <= j < orig.len(),
        0 <= m < operands(debundle_prefix(orig, from).0[j].kind).len(),
        operands(debundle_prefix(orig, from).0[j].kind)[m] == o,
        forall|u: nat| from <= u < k ==> !(o == u && #[trigger] is_unbundle(orig, u as StatementId)),
    ensures
        operands(debundle_prefix(orig, k).0[j].kind).len() == operands(
            debundle_prefix(orig, from).0[j].kind,
        ).len(),
        operands(debundle_prefix(orig, k).0[j].kind)[m] == o,
    decreases k - from,
{
    if k > from {
        let kk = (k - 1) as nat;
        lemma_operand_stays(orig, j, m, o, from, kk);
        lemma_debundle_step_operands(orig, kk, j, m);
        assert(!(o == kk && is_unbundle(orig, kk as StatementId)));
    }
}

/// After `k` statements the pass remembers exactly the bundles among them,
/// each with the value and length it read when the pass reached it.
proof fn lemma_bundles_remembered(orig: Seq<SpecStatement>, k: nat)
    requires
        orig.len() <= usize::MAX,
        k <= orig.len(),
    ensures
        forall|q: StatementId|
            #[trigger] debundle_prefix(orig, k).1.contains_key(q) <==> (q < k && orig[q as int].kind is Bundle),
        forall|q: StatementId|
            #[trigger] debundle_prefix(orig, k).1.contains_key(q) ==> debundle_prefix(orig, k).1[q] == (
                operands(debundle_prefix(orig, q as nat).0[q as int].kind)[0],
                operands(debundle_prefix(orig, q as nat).0[q as int].kind)[1],
            ),
    decreases k,
{
    if k > 0 {
        let i = (k - 1) as nat;
        lemma_bundles_remembered(orig, i);
        lemma_debundle_prefix_invariants(orig, i);
        let p = debundle_prefix(orig, i);
        let r = debundle_prefix(orig, k);
        assert(r == debundle_step(orig, p.0, p.1, i as int));
        assert(same_computation(orig[i as int], p.0[i as int]));
        match p.0[i as int].kind {
            SpecStatementKind::Bundle { value, length } => {
                assert(r.1 == p.1.insert(i as StatementId, (value, length)));
                assert forall|q: StatementId| #[trigger] r.1.contains_key(q) <==> (q < k
                    && orig[q as int].kind is Bundle) by {
                    if q == i as StatementId {
                        assert(q as int == i);
                    }
                }
                assert forall|q: StatementId| #[trigger] r.1.contains_key(q) implies r.1[q] == (
                    operands(debundle_prefix(orig, q as nat).0[q as int].kind)[0],
                    operands(debundle_prefix(orig, q as nat).0[q as int].kind)[1],
                ) by {
                    if q == i as StatementId {
                        assert(q as nat == i);
                    } else {
                        assert(p.1.contains_key(q));
                    }
                }
            },
            _ => {
                assert(r.1 == p.1);
                assert(!(orig[i as int].kind is Bundle));
                assert forall|q: StatementId| #[trigger] r.1.contains_key(q) <==> (q < k
                    && orig[q as int].kind is Bundle) by {
                    if q == i as StatementId {
                        assert(q as int == i);
                    }
                }
            },
        }
    }
}

proof fn lemma_debundle_reads_part(
    orig: Seq<SpecStatement>,
    p: int,
    i: int,
    j: int,
    m: int,
    part: StatementId,
)
    requires
        orig.len() <= usize::MAX,
        0 <= p < i < orig.len(),
        orig[p].kind is Bundle,
        orig[i].kind == (SpecStatementKind::UnbundleValue { bundle: p as StatementId })
            || orig[i].kind == (SpecStatementKind::UnbundleLength { bundle: p as StatementId }),
        part == if orig[i].kind is UnbundleValue {
            operands(orig[p].kind)[0]
        } else {
            operands(orig[p].kind)[1]
        },
        !is_unbundle(orig, part),
        0 <= j < orig.len(),
        0 <= m < operands(orig[j].kind).len(),
        operands(orig[j].kind)[m] == i,
    ensures
        operands(debundled(orig)[j].kind).len() == operands(orig[j].kind).len(),
        operands(debundled(orig)[j].kind)[m] == part,
{
    let n = orig.len();
    let idx = if orig[i].kind is UnbundleValue {
        0int
    } else {
        1int
    };
    // Up to statement i, the read of i stays.
    lemma_operand_stays(orig, j, m, i as StatementId, 0, i as nat);
    // Statement i still reads bundle p, and p still reads the bundled part.
    assert(operands(orig[i].kind)[0] == p as StatementId);
    lemma_operand_stays(orig, i, 0, p as StatementId, 0, i as nat);
    assert(operands(orig[p].kind).len() == 2);
    lemma_operand_stays(orig, p, idx, part, 0, p as nat);
    lemma_bundles_remembered(orig, i as nat);
    lemma_debundle_prefix_invariants(orig, i as nat);
    let pre = debundle_prefix(orig, i as nat);
    assert(same_computation(orig[i], pre.0[i]));
    assert(pre.1.contains_key(p as StatementId));
    let live = if orig[i].kind is UnbundleValue {
        pre.1[p as StatementId].0
    } else {
        pre.1[p as StatementId].1
    };
    assert(live == part);
    // Step i turns the read of i into a read of the bundled part.
    let post = debundle_prefix(orig, (i + 1) as nat);
    assert(post == debundle_step(orig, pre.0, pre.1, i));
    assert(post.0 == replace_uses(orig, pre.0, i as StatementId, part));
    assert(uses(orig[j], i)) by {
        assert(operands(orig[j].kind)[m] == i as StatementId);
    }
    lemma_replacing_keeps_computation(pre.0[j], i as StatementId, part);
    assert(post.0[j] == statement_replacing(pre.0[j], i as StatementId, part));
    // No later step replaces a read of a statement that is no unbundle.
    lemma_operand_stays(orig, j, m, part, (i + 1) as nat, n);
}

/// Where a statement `i` reads the value part of a bundle `p` before it (that
/// bundles a value `v` which is no unbundle), every read of `i`, in a
/// statement that read `i` before the pass, reads `v` after it, whatever other
/// bundles lie between `p` and `i`.
pub proof fn law_debundle_reads_bundled_value(
    orig: Seq<SpecStatement>,
    p: int,
    i: int,
    v: StatementId,
    l: StatementId,
    j: int,
    m: int,
)
    requires
        orig.len() <= usize::MAX,
        0 <= p < i < orig.len(),
        orig[p].kind == (SpecStatementKind::Bundle { value: v, length: l }),
        orig[i].kind == (SpecStatementKind::UnbundleValue { bundle: p as StatementId }),
        !is_unbundle(orig, v),
        0 <= j < orig.len(),
        0 <= m < operands(orig[j].kind).len(),
        operands(orig[j].kind)[m] == i,
    ensures
        operands(debundled(orig)[j].kind).len() == operands(orig[j].kind).len(),
        operands(debundled(orig)[j].kind)[m] == v,
{
    lemma_debundle_reads_part(orig, p, i, j, m, v);
}

/// Where a statement `i` reads the length part of a bundle `p` before it (that
/// bundles a length `l` which is no unbundle), every read of `i`, in a
/// statement that read `i` before the pass, reads `l` after it, whatever other
/// bundles lie between `p` and `i`.
pub proof fn law_debundle_reads_bundled_length(
    orig: Seq<SpecStatement>,
    p: int,
    i: int,
    v: StatementId,
    l: StatementId,
    j: int,
    m: int,
)
    requires
        orig.len() <= usize::MAX,
        0 <= p < i < orig.len(),
        orig[p].kind == (SpecStatementKind::Bundle { value: v, length: l }),
        orig[i].kind == (SpecStatementKind::UnbundleLength { bundle: p as StatementId }),
        !is_unbundle(orig, l),
        0 <= j < orig.len(),
        0 <= m < operands(orig[j].kind).len(),
        operands(orig[j].kind)[m] == i,
    ensures
        operands(debundled(orig)[j].kind).len() == operands(orig[j].kind).len(),
        operands(debundled(orig)[j].kind)[m] == l,
{
    lemma_debundle_reads_part(orig, p, i, j, m, l);
}

} // verus!
