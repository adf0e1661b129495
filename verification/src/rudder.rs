//! The rudder intermediate representation, as the optimisation passes read it.
//!
//! A block holds its statements in order; a statement names the statements it
//! reads by their position in the block.
use vstd::prelude::*;

verus! {

broadcast use vstd::seq_lib::lemma_seq_contains_after_push;

/// Position of a statement within its block.
pub type StatementId = usize;

/// Class of a primitive type.
#[derive(Debug, Clone, Copy, PartialEq, Eq)]
pub enum PrimitiveTypeClass {
    Void,
    Unit,
    UnsignedInteger,
    SignedInteger,
    FloatingPoint,
}

/// The type of the value a statement produces.
#[derive(Debug, Clone, Copy, PartialEq, Eq)]
pub struct Type {
    pub tc: PrimitiveTypeClass,
    pub element_width_in_bits: usize,
}

impl Type {
    /// A primitive type of the given class and width.
    pub fn new_primitive(tc: PrimitiveTypeClass, element_width_in_bits: usize) -> (t: Type)
        ensures
            t == (Type { tc, element_width_in_bits }),
    {
        Type { tc, element_width_in_bits }
    }

    /// Width of a value of this type, in bits.
    pub fn width_bits(&self) -> (w: usize)
        ensures
            w == self.element_width_in_bits,
    {
        self.element_width_in_bits
    }
}

/// A constant that a statement produces. Floating-point constants are not
/// represented.
#[derive(Debug, Clone, PartialEq, Eq)]
pub enum ConstantValue {
    UnsignedInteger(usize),
    SignedInteger(i64),
    Unit,
    String(String),
}

/// How a cast changes the bits of its operand.
#[derive(Debug, Clone, Copy, PartialEq, Eq)]
pub enum CastOperationKind {
    ZeroExtend,
    SignExtend,
    Truncate,
    Reinterpret,
    Convert,
    Broadcast,
}

/// What a statement computes, with the statements it reads.
#[derive(Debug, Clone, PartialEq, Eq)]
pub enum StatementKind {
    Constant { value: ConstantValue },
    /// Pairs a value with its length in bits.
    Bundle { value: StatementId, length: StatementId },
    /// The value part of a bundle.
    UnbundleValue { bundle: StatementId },
    /// The length part of a bundle.
    UnbundleLength { bundle: StatementId },
    /// The operand converted to the statement's type.
    Cast { kind: CastOperationKind, value: StatementId },
    /// Any other statement, by the statements it reads.
    Other { operands: Vec<StatementId> },
}

/// A statement: what it computes and the type of its result.
#[derive(Debug, Clone, PartialEq, Eq)]
pub struct Statement {
    pub kind: StatementKind,
    pub typ: Type,
}

/// A basic block: its statements in order.
#[derive(Debug, Clone, PartialEq, Eq)]
pub struct Block {
    pub statements: Vec<Statement>,
}

/// A function: its name and the blocks reachable from its entry block, in
/// the order the entry block's iterator yields them.
#[derive(Debug, Clone, PartialEq, Eq)]
pub struct Function {
    pub name: String,
    pub blocks: Vec<Block>,
}

/// What a statement computes, as the contracts see it: the operands of an
/// `Other` statement as a sequence.
pub enum SpecStatementKind {
    Constant { value: ConstantValue },
    Bundle { value: StatementId, length: StatementId },
    UnbundleValue { bundle: StatementId },
    UnbundleLength { bundle: StatementId },
    Cast { kind: CastOperationKind, value: StatementId },
    Other { operands: Seq<StatementId> },
}

/// A statement as the contracts see it.
pub struct SpecStatement {
    pub kind: SpecStatementKind,
    pub typ: Type,
}

impl View for StatementKind {
    type V = SpecStatementKind;

    open spec fn view(&self) -> SpecStatementKind {
        match *self {
            StatementKind::Constant { value } => SpecStatementKind::Constant { value },
            StatementKind::Bundle { value, length } => SpecStatementKind::Bundle { value, length },
            StatementKind::UnbundleValue { bundle } => SpecStatementKind::UnbundleValue { bundle },
            StatementKind::UnbundleLength { bundle } => SpecStatementKind::UnbundleLength { bundle },
            StatementKind::Cast { kind, value } => SpecStatementKind::Cast { kind, value },
            StatementKind::Other { operands } => SpecStatementKind::Other { operands: operands@ },
        }
    }
}

impl View for Statement {
    type V = SpecStatement;

    open spec fn view(&self) -> SpecStatement {
        SpecStatement { kind: self.kind@, typ: self.typ }
    }
}

impl View for Block {
    type V = Seq<SpecStatement>;

    open spec fn view(&self) -> Seq<SpecStatement> {
        self.statements@.map_values(|s: Statement| s@)
    }
}

/// The statements that a statement of this kind reads, in order.
pub open spec fn operands(kind: SpecStatementKind) -> Seq<StatementId> {
    match kind {
        SpecStatementKind::Constant { .. } => seq![],
        SpecStatementKind::Bundle { value, length } => seq![value, length],
        SpecStatementKind::UnbundleValue { bundle } => seq![bundle],
        SpecStatementKind::UnbundleLength { bundle } => seq![bundle],
        SpecStatementKind::Cast { value, .. } => seq![value],
        SpecStatementKind::Other { operands } => operands,
    }
}

/// Whether statement `s` reads the statement at position `id`.
pub open spec fn uses(s: SpecStatement, id: int) -> bool {
    0 <= id && operands(s.kind).contains(id as StatementId)
}

/// Every statement reads only statements of its own block.
pub open spec fn well_formed(stmts: Seq<SpecStatement>) -> bool {
    forall|j: int, k: int|
        0 <= j < stmts.len() && 0 <= k < operands(stmts[j].kind).len() ==> #[trigger] operands(
            stmts[j].kind,
        )[k] < stmts.len()
}

/// One operand after the statement `of` has been replaced by `with`.
pub open spec fn replaced(o: StatementId, of: StatementId, with: StatementId) -> StatementId {
    if o == of { with } else { o }
}

/// The kind with every operand `of` replaced by `with`.
pub open spec fn kind_replacing(
    kind: SpecStatementKind,
    of: StatementId,
    with: StatementId,
) -> SpecStatementKind {
    match kind {
        SpecStatementKind::Constant { value } => SpecStatementKind::Constant { value },
        SpecStatementKind::Bundle { value, length } => SpecStatementKind::Bundle {
            value: replaced(value, of, with),
            length: replaced(length, of, with),
        },
        SpecStatementKind::UnbundleValue { bundle } => SpecStatementKind::UnbundleValue {
            bundle: replaced(bundle, of, with),
        },
        SpecStatementKind::UnbundleLength { bundle } => SpecStatementKind::UnbundleLength {
            bundle: replaced(bundle, of, with),
        },
        SpecStatementKind::Cast { kind, value } => SpecStatementKind::Cast {
            kind,
            value: replaced(value, of, with),
        },
        SpecStatementKind::Other { operands } => SpecStatementKind::Other {
            operands: operands.map_values(|o: StatementId| replaced(o, of, with)),
        },
    }
}

/// The statement with every read of `of` turned into a read of `with`;
/// what it computes and its type stay.
pub open spec fn statement_replacing(
    s: SpecStatement,
    of: StatementId,
    with: StatementId,
) -> SpecStatement {
    SpecStatement { kind: kind_replacing(s.kind, of, with), typ: s.typ }
}

fn replace_operand(o: &mut StatementId, of: StatementId, with: StatementId)
    ensures
        *final(o) == replaced(*old(o), of, with),
{
    if *o == of {
        *o = with;
    }
}

impl Statement {
    /// Turns every read of the statement `of` into a read of `with`.
    pub fn replace_use(&mut self, of: StatementId, with: StatementId)
        ensures
            final(self)@ == statement_replacing(old(self)@, of, with),
    {
        match &mut self.kind {
            StatementKind::Constant { .. } => {},
            StatementKind::Bundle { value, length } => {
                replace_operand(value, of, with);
                replace_operand(length, of, with);
            },
            StatementKind::UnbundleValue { bundle } => replace_operand(bundle, of, with),
            StatementKind::UnbundleLength { bundle } => replace_operand(bundle, of, with),
            StatementKind::Cast { value, .. } => replace_operand(value, of, with),
            StatementKind::Other { operands } => {
                let n = operands.len();
                let ghost before = operands@;
                let mut i: usize = 0;
                while i < n
                    invariant
                        n == before.len(),
                        operands@.len() == n,
                        0 <= i <= n,
                        forall|k: int| 0 <= k < i ==> operands@[k] == replaced(before[k], of, with),
                        forall|k: int| i <= k < n ==> operands@[k] == before[k],
                    decreases n - i,
                {
                    if operands[i] == of {
                        operands.set(i, with);
                    }
                    i = i + 1;
                }
                assert(operands@ =~= before.map_values(|o: StatementId| replaced(o, of, with)));
            },
        }
    }
}

impl StatementKind {
    /// The statements this statement reads, in order.
    pub fn operand_list(&self) -> (ops: Vec<StatementId>)
        ensures
            ops@ == operands(self@),
    {
        match self {
            StatementKind::Constant { .. } => Vec::new(),
            StatementKind::Bundle { value, length } => {
                let mut ops = Vec::new();
                ops.push(*value);
                ops.push(*length);
                assert(ops@ =~= seq![*value, *length]);
                ops
            },
            StatementKind::UnbundleValue { bundle } | StatementKind::UnbundleLength { bundle } => {
                let mut ops = Vec::new();
                ops.push(*bundle);
                assert(ops@ =~= seq![*bundle]);
                ops
            },
            StatementKind::Cast { value, .. } => {
                let mut ops = Vec::new();
                ops.push(*value);
                assert(ops@ =~= seq![*value]);
                ops
            },
            StatementKind::Other { operands } => {
                let mut ops = Vec::new();
                let mut k: usize = 0;
                while k < operands.len()
                    invariant
                        0 <= k <= operands.len(),
                        ops@ == operands@.take(k as int),
                    decreases operands.len() - k,
                {
                    ops.push(operands[k]);
                    assert(operands@.take(k + 1) =~= operands@.take(k as int).push(operands@[k as int]));
                    k = k + 1;
                }
                assert(operands@.take(operands.len() as int) =~= operands@);
                ops
            },
        }
    }
}

/// Which statements of a block read each statement.
pub struct StatementUseAnalysis {
    /// For each statement, the positions of the statements that read it, in
    /// increasing order.
    pub users: Vec<Vec<StatementId>>,
}

/// `s` is strictly increasing.
pub open spec fn increasing(s: Seq<StatementId>) -> bool {
    forall|a: int, b: int| 0 <= a < b < s.len() ==> s[a] < s[b]
}

impl StatementUseAnalysis {
    /// The analysis lists, for each statement of `block`, exactly the
    /// statements that read it, each once and in order.
    pub open spec fn describes(&self, block: Seq<SpecStatement>) -> bool {
        &&& self.users@.len() == block.len()
        &&& forall|i: int| 0 <= i < block.len() ==> increasing(#[trigger] self.users@[i]@)
        &&& forall|i: int, x: int|
            0 <= i < block.len() && 0 <= x < self.users@[i]@.len() ==> #[trigger] self.users@[i]@[x]
                < block.len()
        &&& forall|i: int, j: StatementId|
            0 <= i < block.len() ==> (#[trigger] self.users@[i]@.contains(j) <==> (j < block.len()
                && uses(block[j as int], i)))
    }

    /// Computes the users of every statement of `block`.
    pub fn new(block: &Block) -> (sua: StatementUseAnalysis)
        ensures
            sua.describes(block@),
    {
        let n = block.statements.len();
        let ghost b = block@;
        let mut users: Vec<Vec<StatementId>> = Vec::new();
        let mut i: usize = 0;
        while i < n
            invariant
                0 <= i <= n,
                users@.len() == i,
                forall|k: int| 0 <= k < i ==> (#[trigger] users@[k])@.len() == 0,
            decreases n - i,
        {
            users.push(Vec::new());
            i = i + 1;
        }
        let mut j: usize = 0;
        while j < n
            invariant
                n == block.statements@.len(),
                b == block@,
                b.len() == n,
                0 <= j <= n,
                users@.len() == n,
                forall|k: int| 0 <= k < n ==> increasing(#[trigger] users@[k]@),
                forall|k: int, x: int|
                    0 <= k < n && 0 <= x < users@[k]@.len() ==> #[trigger] users@[k]@[x] < j,
                forall|k: int, x: StatementId|
                    0 <= k < n ==> (#[trigger] users@[k]@.contains(x) <==> (x < j && uses(
                        b[x as int],
                        k,
                    ))),
            decreases n - j,
        {
            let ops = block.statements[j].kind.operand_list();
            assert(ops@ == operands(b[j as int].kind));
            let mut k: usize = 0;
            while k < ops.len()
                invariant
                    n == block.statements@.len(),
                    b == block@,
                    b.len() == n,
                    0 <= j < n,
                    ops@ == operands(b[j as int].kind),
                    0 <= k <= ops.len(),
                    users@.len() == n,
                    forall|m: int| 0 <= m < n ==> increasing(#[trigger] users@[m]@),
                    forall|m: int, x: int|
                        0 <= m < n && 0 <= x < users@[m]@.len() ==> #[trigger] users@[m]@[x] <= j,
                    forall|m: int, x: StatementId|
                        0 <= m < n ==> (#[trigger] users@[m]@.contains(x) <==> ((x < j && uses(
                            b[x as int],
                            m,
                        )) || (x == j && ops@.take(k as int).contains(m as StatementId)))),
                decreases ops.len() - k,
            {
                let o = ops[k];
                if o < n {
                    let len = users[o].len();
                    let fresh = len == 0 || users[o][len - 1] != j;
                    if fresh {
                        let ghost prev = users@;
                        let mut list = Vec::new();
                        std::mem::swap(&mut list, &mut users[o]);
                        list.push(j);
                        users.set(o, list);
                        assert forall|m: int, x: StatementId| 0 <= m < n implies (#[trigger] users@[m]@.contains(
                            x) <==> ((x < j && uses(b[x as int], m)) || (x == j
                            && ops@.take(k + 1).contains(m as StatementId)))) by {
                            assert(ops@.take(k + 1) =~= ops@.take(k as int).push(o));
                            if m == o {
                                assert(users@[m]@ =~= prev[m]@.push(j));
                            } else {
                                assert(users@[m] == prev[m]);
                            }
                        }
                        assert forall|m: int| 0 <= m < n implies increasing(#[trigger] users@[m]@) by {
                            if m == o {
                                assert(users@[m]@ =~= prev[m]@.push(j));
                                assert forall|a: int| 0 <= a < prev[m]@.len() implies prev[m]@[a] < j by {
                                    if prev[m]@[a] == j {
                                        assert(a < prev[m]@.len() - 1 ==> prev[m]@[a] < prev[m]@[prev[m]@.len() - 1]);
                                    }
                                }
                            } else {
                                assert(users@[m] == prev[m]);
                            }
                        }
                    } else {
                        assert forall|m: int, x: StatementId| 0 <= m < n implies (#[trigger] users@[m]@.contains(
                            x) <==> ((x < j && uses(b[x as int], m)) || (x == j
                            && ops@.take(k + 1).contains(m as StatementId)))) by {
                            assert(ops@.take(k + 1) =~= ops@.take(k as int).push(o));
                            if m == o && x == j {
                                assert(users@[m]@[len - 1] == j);
                            }
                        }
                    }
                } else {
                    assert forall|m: int, x: StatementId| 0 <= m < n implies (#[trigger] users@[m]@.contains(
                        x) <==> ((x < j && uses(b[x as int], m)) || (x == j
                        && ops@.take(k + 1).contains(m as StatementId)))) by {
                        assert(ops@.take(k + 1) =~= ops@.take(k as int).push(o));
                    }
                }
                k = k + 1;
            }
            assert(ops@.take(ops@.len() as int) =~= ops@);
            j = j + 1;
        }
        StatementUseAnalysis { users }
    }

    /// The statements that read statement `id`, in increasing order.
    pub fn get_uses(&self, id: StatementId) -> (r: &Vec<StatementId>)
        requires
            id < self.users@.len(),
        ensures
            r@ == self.users@[id as int]@,
    {
        &self.users[id]
    }

    /// Whether some statement reads statement `id`.
    pub fn is_used(&self, id: StatementId) -> (r: bool)
        requires
            id < self.users@.len(),
        ensures
            r == (self.users@[id as int]@.len() > 0),
    {
        self.users[id].len() > 0
    }
}

} // verus!
