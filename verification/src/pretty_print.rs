//! JIB AST pretty printing.
//!
//! The printer writes its text into a `String`; the text is given here by
//! spec functions, one per kind of node. A node is printed at an indentation,
//! the padding text that opens each of its lines; a nested block is printed
//! with two more spaces.
use vstd::prelude::*;

use crate::jib_ast::{
    Definition, Expression, FieldType, FieldValue, Instruction, Name, Type, TypeDefinition, Value,
};
use crate::text::{int_decimal, push_signed};

verus! {

/// The padding of one more level of indentation.
pub open spec fn deeper(pad: Seq<char>) -> Seq<char> {
    pad + "  "@
}

/// Texts joined with ", ".
pub open spec fn comma_join(parts: Seq<Seq<char>>) -> Seq<char>
    decreases parts.len(),
{
    if parts.len() == 0 {
        Seq::empty()
    } else if parts.len() == 1 {
        parts[0]
    } else {
        comma_join(parts.drop_last()) + ", "@ + parts.last()
    }
}

/// The texts of a list of strings.
pub open spec fn texts(s: Seq<String>) -> Seq<Seq<char>> {
    s.map_values(|x: String| x@)
}

pub open spec fn name_text(n: Name) -> Seq<char> {
    match n {
        Name::Global(id) => id@,
        Name::Name(id) => id@,
        Name::HaveException => "exception"@,
        Name::CurrentException => "exception"@,
        Name::ThrowLocation => "throw"@,
        Name::Return => "return"@,
    }
}

pub open spec fn type_text(t: Type) -> Seq<char>
    decreases t,
{
    match t {
        Type::Lint => "%i"@,
        Type::Fint(n) => "%i"@ + int_decimal(n as int),
        Type::Constant(n) => int_decimal(n.value()),
        Type::Lbits => "%bv"@,
        Type::Sbits(n) => "%sbv"@ + int_decimal(n as int),
        Type::Fbits(n) => "%bv"@ + int_decimal(n as int),
        Type::Unit => "%unit"@,
        Type::Bool => "%bool"@,
        Type::Bit => "%bit"@,
        Type::String => "%string"@,
        Type::Real => "%real"@,
        Type::Float(n) => "%f"@ + int_decimal(n as int),
        Type::RoundingMode => "%rounding_mode"@,
        Type::Tup(typs) => "("@ + types_text(typs@) + ")"@,
        Type::Enum(id) => "enum "@ + id@,
        Type::Struct(id) => "struct "@ + id@,
        Type::Variant(id) => "union "@ + id@,
        Type::Vector(inner) => "%vec<"@ + type_text(*inner) + ">"@,
        Type::Fvector(n, inner) => "%fvec<"@ + int_decimal(n as int) + ", "@ + type_text(*inner)
            + ">"@,
        Type::List(inner) => "list<"@ + type_text(*inner) + ">"@,
        Type::Ref(inner) => "&"@ + type_text(*inner),
        Type::Poly(kid) => kid@,
    }
}

/// Types separated by ", ".
pub open spec fn types_text(typs: Seq<Type>) -> Seq<char>
    decreases typs,
{
    if typs.len() == 0 {
        Seq::empty()
    } else if typs.len() == 1 {
        type_text(typs[0])
    } else {
        types_text(typs.drop_last()) + ", "@ + type_text(typs.last())
    }
}

/// A constructor with its type unifiers in angle brackets, if it has any.
pub open spec fn uid_text(id: Seq<char>, typs: Seq<Type>) -> Seq<char> {
    if typs.len() == 0 {
        id
    } else {
        id + "<"@ + types_text(typs) + ">"@
    }
}

pub open spec fn expression_text(e: Expression) -> Seq<char>
    decreases e,
{
    match e {
        Expression::Id(n) => name_text(n),
        Expression::Field(inner, id) => expression_text(*inner) + "."@ + id@,
        Expression::Addr(inner) => "*"@ + expression_text(*inner),
        _ => Seq::empty(),
    }
}

/// The printer handles this expression (it stops on the others).
pub open spec fn expression_printable(e: Expression) -> bool
    decreases e,
{
    match e {
        Expression::Id(_) => true,
        Expression::Field(inner, _) => expression_printable(*inner),
        Expression::Addr(inner) => expression_printable(*inner),
        _ => false,
    }
}

/// A value printed at indentation `pad`: only a struct literal spans lines.
pub open spec fn value_text(v: Value, pad: Seq<char>) -> Seq<char>
    decreases v,
{
    match v {
        Value::Id(n) => name_text(n),
        Value::Lit(lit) => lit@,
        Value::Call(op, args) => op@ + "("@ + values_text(args@, pad) + ")"@,
        Value::Struct(fields, Type::Struct(id)) => pad + "struct "@ + id@ + " {"@ + "\n"@
            + field_values_text(fields@, deeper(pad)) + pad + "}"@ + "\n"@,
        Value::CtorKind(inner, ctor, unifiers) => value_text(*inner, pad) + " is "@ + uid_text(
            ctor@,
            unifiers@,
        ),
        Value::CtorUnwrap(inner, ctor, unifiers) => value_text(*inner, pad) + " as "@ + uid_text(
            ctor@,
            unifiers@,
        ),
        Value::Field(inner, id) => value_text(*inner, pad) + "."@ + id@,
        _ => Seq::empty(),
    }
}

/// Values one after the other, with nothing between them.
pub open spec fn values_text(vals: Seq<Value>, pad: Seq<char>) -> Seq<char>
    decreases vals,
{
    if vals.len() == 0 {
        Seq::empty()
    } else {
        values_text(vals.drop_last(), pad) + value_text(vals.last(), pad)
    }
}

/// Values separated by ", ".
pub open spec fn values_comma_text(vals: Seq<Value>, pad: Seq<char>) -> Seq<char>
    decreases vals,
{
    if vals.len() == 0 {
        Seq::empty()
    } else if vals.len() == 1 {
        value_text(vals[0], pad)
    } else {
        values_comma_text(vals.drop_last(), pad) + ", "@ + value_text(vals.last(), pad)
    }
}

/// The fields of a struct literal, one per line.
pub open spec fn field_values_text(fields: Seq<FieldValue>, pad: Seq<char>) -> Seq<char>
    decreases fields,
{
    if fields.len() == 0 {
        Seq::empty()
    } else {
        field_values_text(fields.drop_last(), pad) + pad + fields.last().name@ + ": "@
            + value_text(fields.last().value, pad) + ","@ + "\n"@
    }
}

/// The printer handles this value (it stops on the others).
pub open spec fn value_printable(v: Value) -> bool
    decreases v,
{
    match v {
        Value::Id(_) => true,
        Value::Lit(_) => true,
        Value::Call(_, args) => values_printable(args@),
        Value::Struct(fields, typ) => typ is Struct && field_values_printable(fields@),
        Value::CtorKind(inner, _, _) => value_printable(*inner),
        Value::CtorUnwrap(inner, _, _) => value_printable(*inner),
        Value::Field(inner, _) => value_printable(*inner),
        _ => false,
    }
}

pub open spec fn values_printable(vals: Seq<Value>) -> bool
    decreases vals,
{
    vals.len() == 0 || (values_printable(vals.drop_last()) && value_printable(vals.last()))
}

pub open spec fn field_values_printable(fields: Seq<FieldValue>) -> bool
    decreases fields,
{
    fields.len() == 0 || (field_values_printable(fields.drop_last()) && value_printable(
        fields.last().value,
    ))
}

/// An instruction printed at indentation `pad`.
pub open spec fn instruction_text(i: Instruction, pad: Seq<char>) -> Seq<char>
    decreases i,
{
    match i {
        Instruction::Block(body) => pad + "block {"@ + "\n"@ + instructions_text(body@, deeper(pad))
            + pad + "}"@ + "\n"@,
        Instruction::Decl(typ, name) => pad + name_text(name) + ": "@ + type_text(typ) + "\n"@,
        Instruction::Copy(exp, val) => pad + expression_text(exp) + " = "@ + value_text(val, pad)
            + "\n"@,
        Instruction::Clear(name) => pad + "clear("@ + name_text(name) + ")"@ + "\n"@,
        Instruction::Funcall(exp, function, args) => pad + expression_text(exp) + " = "@
            + function@ + "("@ + values_comma_text(args@, pad) + ")"@ + "\n"@,
        Instruction::Goto(label) => pad + "goto \""@ + label@ + "\""@ + "\n"@,
        Instruction::Label(label) => pad + "label \""@ + label@ + "\""@ + "\n"@,
        Instruction::If(cond, then_body, else_body) => pad + "if ("@ + value_text(cond, pad)
            + ") {"@ + "\n"@ + instructions_text(then_body@, deeper(pad)) + pad + "} else {"@
            + "\n"@ + instructions_text(else_body@, deeper(pad)) + pad + "}"@ + "\n"@,
        Instruction::Jump(val, s) => pad + "jump "@ + s@ + " "@ + value_text(val, pad) + "\n"@,
        Instruction::Undefined => pad + "undefined"@ + "\n"@,
        Instruction::Exit(s) => pad + "exit("@ + s@ + ")"@ + "\n"@,
        Instruction::End(name) => pad + "end("@ + name_text(name) + ")"@ + "\n"@,
        Instruction::TryBlock(body) => pad + "try {"@ + "\n"@ + instructions_text(
            body@,
            deeper(pad),
        ) + pad + "}"@ + "\n"@,
        Instruction::Comment(s) => pad + "// "@ + s@ + "\n"@,
        _ => Seq::empty(),
    }
}

/// Instructions one after the other.
pub open spec fn instructions_text(body: Seq<Instruction>, pad: Seq<char>) -> Seq<char>
    decreases body,
{
    if body.len() == 0 {
        Seq::empty()
    } else {
        instructions_text(body.drop_last(), pad) + instruction_text(body.last(), pad)
    }
}

/// The printer handles this instruction (it stops on the others).
pub open spec fn instruction_printable(i: Instruction) -> bool
    decreases i,
{
    match i {
        Instruction::Block(body) => instructions_printable(body@),
        Instruction::Decl(_, _) => true,
        Instruction::Copy(exp, val) => expression_printable(exp) && value_printable(val),
        Instruction::Clear(_) => true,
        Instruction::Funcall(exp, _, args) => expression_printable(exp) && values_printable(args@),
        Instruction::Goto(_) => true,
        Instruction::Label(_) => true,
        Instruction::If(cond, then_body, else_body) => value_printable(cond)
            && instructions_printable(then_body@) && instructions_printable(else_body@),
        Instruction::Jump(val, _) => value_printable(val),
        Instruction::Undefined => true,
        Instruction::Exit(_) => true,
        Instruction::End(_) => true,
        Instruction::TryBlock(body) => instructions_printable(body@),
        Instruction::Comment(_) => true,
        _ => false,
    }
}

pub open spec fn instructions_printable(body: Seq<Instruction>) -> bool
    decreases body,
{
    body.len() == 0 || (instructions_printable(body.drop_last()) && instruction_printable(
        body.last(),
    ))
}

/// The members of an enum, one per line.
pub open spec fn enum_members_text(ids: Seq<String>, pad: Seq<char>) -> Seq<char>
    decreases ids.len(),
{
    if ids.len() == 0 {
        Seq::empty()
    } else {
        enum_members_text(ids.drop_last(), pad) + pad + ids.last()@ + ","@ + "\n"@
    }
}

/// The fields of a struct or union type, one per line.
pub open spec fn field_types_text(fields: Seq<FieldType>, pad: Seq<char>) -> Seq<char>
    decreases fields.len(),
{
    if fields.len() == 0 {
        Seq::empty()
    } else {
        field_types_text(fields.drop_last(), pad) + pad + fields.last().name@ + ": "@ + type_text(
            fields.last().typ,
        ) + ","@ + "\n"@
    }
}

/// The key of the pragma that declares a function abstract.
pub open spec fn abstract_key() -> Seq<char> {
    "abstract"@
}

/// The keyword of a function declaration: `abstract` when its external name
/// has been declared abstract, `val` otherwise.
pub open spec fn spec_keyword(ext: Option<String>, abstract_functions: Set<Seq<char>>) -> Seq<
    char,
> {
    match ext {
        Some(e) => if abstract_functions.contains(e@) {
            "abstract"@
        } else {
            "val"@
        },
        None => "val"@,
    }
}

/// A definition printed at indentation `pad`, with the functions declared
/// abstract so far.
pub open spec fn definition_text(
    d: Definition,
    pad: Seq<char>,
    abstract_functions: Set<Seq<char>>,
) -> Seq<char> {
    match d {
        Definition::RegDec(id, typ) => pad + "register "@ + id@ + " : "@ + type_text(typ),
        Definition::Type(TypeDefinition::Enum(id, ids)) => pad + "enum "@ + id@ + " {"@ + "\n"@
            + enum_members_text(ids@, deeper(pad)) + pad + "}"@ + "\n"@,
        Definition::Type(TypeDefinition::Struct(id, fields)) => pad + "struct "@ + id@ + " {"@
            + "\n"@ + field_types_text(fields@, deeper(pad)) + pad + "}"@ + "\n"@,
        Definition::Type(TypeDefinition::Variant(id, fields)) => pad + "union "@ + id@ + " {"@
            + "\n"@ + field_types_text(fields@, deeper(pad)) + pad + "}"@ + "\n"@,
        Definition::Let(bindings, body) => pad + "let ("@ + comma_join(texts(bindings@))
            + ") {"@ + "\n"@ + instructions_text(body@, deeper(pad)) + "}"@ + "\n"@,
        Definition::Spec(id, ext, typs, typ) => pad + spec_keyword(ext, abstract_functions) + " "@
            + id@ + " : ("@ + types_text(typs@) + ") -> "@ + type_text(typ) + "\n"@,
        Definition::Fundef(name, args, body) => pad + "fn "@ + name@ + "("@ + comma_join(
            texts(args@),
        ) + ") {"@ + "\n"@ + instructions_text(body@, deeper(pad)) + pad + "}\n"@ + "\n"@,
        Definition::Pragma(key, value) => if key@ == abstract_key() {
            Seq::empty()
        } else {
            pad + "#"@ + key@ + " "@ + value@ + "\n"@
        },
        _ => Seq::empty(),
    }
}

/// The functions declared abstract after a definition.
pub open spec fn abstract_after(d: Definition, abstract_functions: Set<Seq<char>>) -> Set<
    Seq<char>,
> {
    match d {
        Definition::Pragma(key, value) => if key@ == abstract_key() {
            abstract_functions.insert(value@)
        } else {
            abstract_functions
        },
        _ => abstract_functions,
    }
}

/// The printer handles this definition (it stops on the others).
pub open spec fn definition_printable(d: Definition) -> bool {
    match d {
        Definition::Let(_, body) => instructions_printable(body@),
        Definition::Fundef(_, _, body) => instructions_printable(body@),
        Definition::Startup => false,
        Definition::Finish => false,
        _ => true,
    }
}

/// The functions declared abstract after a sequence of definitions.
pub open spec fn abstract_after_all(ds: Seq<Definition>, abstract_functions: Set<Seq<char>>) -> Set<
    Seq<char>,
>
    decreases ds.len(),
{
    if ds.len() == 0 {
        abstract_functions
    } else {
        abstract_after(ds.last(), abstract_after_all(ds.drop_last(), abstract_functions))
    }
}

/// A sequence of top-level definitions printed one after the other, each
/// with the functions declared abstract before it.
pub open spec fn definitions_text(ds: Seq<Definition>, abstract_functions: Set<Seq<char>>) -> Seq<
    char,
>
    decreases ds.len(),
{
    if ds.len() == 0 {
        Seq::empty()
    } else {
        definitions_text(ds.drop_last(), abstract_functions) + definition_text(
            ds.last(),
            Seq::empty(),
            abstract_after_all(ds.drop_last(), abstract_functions),
        )
    }
}

/// Pretty-prints JIB definitions into a string.
pub struct JibPrettyPrinter {
    /// The padding of the current indentation level.
    pub indent: String,
    /// The external names declared abstract so far.
    pub abstract_functions: Vec<String>,
    /// The text printed so far.
    pub out: String,
}

/// `after` differs from `before` at most in the text printed.
pub open spec fn same_state(before: JibPrettyPrinter, after: JibPrettyPrinter) -> bool {
    &&& after.indent@ == before.indent@
    &&& after.abstract_functions@ == before.abstract_functions@
}

impl JibPrettyPrinter {
    /// The external names declared abstract so far.
    pub open spec fn abstract_set(&self) -> Set<Seq<char>> {
        Set::new(
            |s: Seq<char>|
                exists|i: int|
                    0 <= i < self.abstract_functions@.len() && #[trigger] self.abstract_functions@[i]@
                        == s,
        )
    }

    /// A printer at indentation level zero that has printed nothing and knows
    /// of no abstract function.
    pub fn new() -> (p: JibPrettyPrinter)
        ensures
            p.indent@ == Seq::<char>::empty(),
            p.out@ == Seq::<char>::empty(),
            p.abstract_functions@.len() == 0,
            p.abstract_set() == Set::<Seq<char>>::empty(),
    {
        let p = JibPrettyPrinter { indent: String::new(), abstract_functions: Vec::new(), out: String::new() };
        assert(p.abstract_set() =~= Set::<Seq<char>>::empty());
        p
    }

    fn print(&mut self, s: &str)
        ensures
            final(self).out@ == old(self).out@ + s@,
            same_state(*old(self), *final(self)),
    {
        self.out.append(s);
    }

    fn print_string(&mut self, s: &String)
        ensures
            final(self).out@ == old(self).out@ + s@,
            same_state(*old(self), *final(self)),
    {
        self.out.append(s.as_str());
    }

    fn newline(&mut self)
        ensures
            final(self).out@ == old(self).out@ + "\n"@,
            same_state(*old(self), *final(self)),
    {
        self.out.append("\n");
    }

    fn print_padding(&mut self)
        ensures
            final(self).out@ == old(self).out@ + old(self).indent@,
            same_state(*old(self), *final(self)),
    {
        self.out.append(self.indent.as_str());
    }

    /// Prints `s` at the current indentation.
    fn prindent(&mut self, s: &str)
        ensures
            final(self).out@ == old(self).out@ + old(self).indent@ + s@,
            same_state(*old(self), *final(self)),
    {
        self.print_padding();
        self.out.append(s);
    }

    /// Prints `s` as a line at the current indentation.
    fn prindentln(&mut self, s: &str)
        ensures
            final(self).out@ == old(self).out@ + old(self).indent@ + s@ + "\n"@,
            same_state(*old(self), *final(self)),
    {
        self.prindent(s);
        self.newline();
    }

    /// Goes one level deeper; returns the padding to restore.
    pub fn indent(&mut self) -> (saved: String)
        ensures
            saved@ == old(self).indent@,
            final(self).indent@ == deeper(old(self).indent@),
            final(self).out@ == old(self).out@,
            final(self).abstract_functions@ == old(self).abstract_functions@,
    {
        let saved = self.indent.clone();
        self.indent.append("  ");
        saved
    }

    /// Comes back to the indentation that `indent` saved.
    pub fn dedent(&mut self, saved: String)
        ensures
            final(self).indent@ == saved@,
            final(self).out@ == old(self).out@,
            final(self).abstract_functions@ == old(self).abstract_functions@,
    {
        self.indent = saved;
    }

    /// Whether `name` has been declared abstract.
    fn is_abstract(&self, name: &String) -> (r: bool)
        ensures
            r == self.abstract_set().contains(name@),
    {
        let mut i: usize = 0;
        while i < self.abstract_functions.len()
            invariant
                0 <= i <= self.abstract_functions@.len(),
                forall|k: int| 0 <= k < i ==> self.abstract_functions@[k]@ != name@,
            decreases self.abstract_functions.len() - i,
        {
            if self.abstract_functions[i] == *name {
                assert(self.abstract_set().contains(name@)) by {
                    assert(self.abstract_functions@[i as int]@ == name@);
                }
                return true;
            }
            i = i + 1;
        }
        false
    }

    /// Records `name` as an abstract function.
    fn declare_abstract(&mut self, name: &String)
        ensures
            final(self).abstract_set() == old(self).abstract_set().insert(name@),
            final(self).indent@ == old(self).indent@,
            final(self).out@ == old(self).out@,
    {
        let ghost before = self.abstract_functions@;
        self.abstract_functions.push(name.clone());
        assert forall|s: Seq<char>| #[trigger] self.abstract_set().contains(s) <==> old(
            self,
        ).abstract_set().insert(name@).contains(s) by {
            if old(self).abstract_set().contains(s) {
                let i = choose|i: int| 0 <= i < before.len() && #[trigger] before[i]@ == s;
                assert(self.abstract_functions@[i]@ == s);
            }
            if s == name@ {
                assert(self.abstract_functions@[before.len() as int]@ == s);
            }
            if self.abstract_set().contains(s) {
                let i = choose|i: int|
                    0 <= i < self.abstract_functions@.len() && #[trigger] self.abstract_functions@[i]@
                        == s;
                if i < before.len() {
                    assert(before[i]@ == s);
                }
            }
        }
        assert(self.abstract_set() =~= old(self).abstract_set().insert(name@));
    }

    /// Prints names separated by ", ".
    fn print_comma_names(&mut self, names: &Vec<String>)
        ensures
            final(self).out@ == old(self).out@ + comma_join(texts(names@)),
            same_state(*old(self), *final(self)),
    {
        let ghost start = self.out@;
        let mut k: usize = 0;
        while k < names.len()
            invariant
                0 <= k <= names@.len(),
                self.out@ == start + comma_join(texts(names@.take(k as int))),
                same_state(*old(self), *self),
            decreases names.len() - k,
        {
            if k > 0 {
                self.print(", ");
            }
            self.print_string(&names[k]);
            proof {
                let t = texts(names@.take(k + 1));
                assert(t.drop_last() =~= texts(names@.take(k as int)));
                assert(t.len() == k + 1);
                if k == 0 {
                    assert(comma_join(texts(names@.take(0))) =~= Seq::<char>::empty());
                }
            }
            k = k + 1;
        }
        assert(names@.take(names@.len() as int) =~= names@);
    }

    /// Prints a name.
    pub fn visit_name(&mut self, node: &Name)
        ensures
            final(self).out@ == old(self).out@ + name_text(*node),
            same_state(*old(self), *final(self)),
    {
        match node {
            Name::Global(ident) | Name::Name(ident) => self.print_string(ident),
            Name::HaveException | Name::CurrentException => self.print("exception"),
            Name::ThrowLocation => self.print("throw"),
            Name::Return => self.print("return"),
        }
    }

    fn print_number(&mut self, n: i64)
        ensures
            final(self).out@ == old(self).out@ + int_decimal(n as int),
            same_state(*old(self), *final(self)),
    {
        push_signed(&mut self.out, n as i128);
    }

    /// Prints a type.
    pub fn visit_type(&mut self, node: &Type)
        ensures
            final(self).out@ == old(self).out@ + type_text(*node),
            same_state(*old(self), *final(self)),
        decreases node,
    {
        match node {
            Type::Lint => self.print("%i"),
            Type::Fint(n) => {
                self.print("%i");
                self.print_number(*n);
            },
            Type::Constant(bi) => bi.push_decimal(&mut self.out),
            Type::Lbits => self.print("%bv"),
            Type::Sbits(n) => {
                self.print("%sbv");
                self.print_number(*n);
            },
            Type::Fbits(n) => {
                self.print("%bv");
                self.print_number(*n);
            },
            Type::Unit => self.print("%unit"),
            Type::Bool => self.print("%bool"),
            Type::Bit => self.print("%bit"),
            Type::String => self.print("%string"),
            Type::Real => self.print("%real"),
            Type::Float(n) => {
                self.print("%f");
                self.print_number(*n);
            },
            Type::RoundingMode => self.print("%rounding_mode"),
            Type::Tup(typs) => {
                self.print("(");
                proof {
                    assert(decreases_to!(*node => (*node)->Tup_0));
                }
                self.visit_types(typs);
                self.print(")");
            },
            Type::Enum(ident) => {
                self.print("enum ");
                self.print_string(ident);
            },
            Type::Struct(ident) => {
                self.print("struct ");
                self.print_string(ident);
            },
            Type::Variant(ident) => {
                self.print("union ");
                self.print_string(ident);
            },
            Type::Vector(typ) => {
                self.print("%vec<");
                self.visit_type(typ);
                self.print(">");
            },
            Type::Fvector(n, typ) => {
                self.print("%fvec<");
                self.print_number(*n);
                self.print(", ");
                self.visit_type(typ);
                self.print(">");
            },
            Type::List(inner) => {
                self.print("list<");
                self.visit_type(inner);
                self.print(">");
            },
            Type::Ref(inner) => {
                self.print("&");
                self.visit_type(inner);
            },
            Type::Poly(kid) => self.print_string(kid),
        }
    }

    /// Prints types separated by ", ".
    pub fn visit_types(&mut self, typs: &Vec<Type>)
        ensures
            final(self).out@ == old(self).out@ + types_text(typs@),
            same_state(*old(self), *final(self)),
        decreases typs,
    {
        let ghost start = self.out@;
        let mut k: usize = 0;
        while k < typs.len()
            invariant
                0 <= k <= typs@.len(),
                self.out@ == start + types_text(typs@.take(k as int)),
                same_state(*old(self), *self),
            decreases typs.len() - k,
        {
            if k > 0 {
                self.print(", ");
            }
            proof {
                assert(decreases_to!(*typs => typs[k as int]));
            }
            self.visit_type(&typs[k]);
            proof {
                let t = typs@.take(k + 1);
                assert(t.drop_last() =~= typs@.take(k as int));
                if k == 0 {
                    assert(types_text(typs@.take(0)) =~= Seq::<char>::empty());
                }
            }
            k = k + 1;
        }
        assert(typs@.take(typs@.len() as int) =~= typs@);
    }

    /// Prints a constructor with its type unifiers.
    pub fn print_uid(&mut self, id: &String, typs: &Vec<Type>)
        ensures
            final(self).out@ == old(self).out@ + uid_text(id@, typs@),
            same_state(*old(self), *final(self)),
    {
        self.print_string(id);
        if typs.len() > 0 {
            self.print("<");
            self.visit_types(typs);
            self.print(">");
        }
    }

    /// Prints a place expression.
    pub fn visit_expression(&mut self, node: &Expression)
        requires
            expression_printable(*node),
        ensures
            final(self).out@ == old(self).out@ + expression_text(*node),
            same_state(*old(self), *final(self)),
        decreases node,
    {
        match node {
            Expression::Id(name) => self.visit_name(name),
            Expression::Field(expression, ident) => {
                self.visit_expression(expression);
                self.print(".");
                self.print_string(ident);
            },
            Expression::Addr(inner) => {
                self.print("*");
                self.visit_expression(inner);
            },
            _ => {},
        }
    }

    /// Prints a value at the current indentation.
    pub fn visit_value(&mut self, node: &Value)
        requires
            value_printable(*node),
        ensures
            final(self).out@ == old(self).out@ + value_text(*node, old(self).indent@),
            same_state(*old(self), *final(self)),
        decreases node,
    {
        match node {
            Value::Id(name) => self.visit_name(name),
            Value::Lit(val) => self.print_string(val),
            Value::Call(op, vals) => {
                self.print_string(op);
                self.print("(");
                proof {
                    assert(decreases_to!(*node => (*node)->Call_1));
                }
                self.visit_values(vals);
                self.print(")");
            },
            Value::Struct(fields, Type::Struct(ident)) => {
                self.prindent("struct ");
                self.print_string(ident);
                self.print(" {");
                self.newline();
                let saved = self.indent();
                proof {
                    assert(decreases_to!(*node => (*node)->Struct_0));
                }
                self.visit_field_values(fields);
                self.dedent(saved);
                self.prindentln("}");
            },
            Value::CtorKind(f, ctor, unifiers) => {
                self.visit_value(f);
                self.print(" is ");
                self.print_uid(ctor, unifiers);
            },
            Value::CtorUnwrap(f, ctor, unifiers) => {
                self.visit_value(f);
                self.print(" as ");
                self.print_uid(ctor, unifiers);
            },
            Value::Field(value, ident) => {
                self.visit_value(value);
                self.print(".");
                self.print_string(ident);
            },
            _ => {},
        }
    }

    /// Prints values one after the other.
    pub fn visit_values(&mut self, vals: &Vec<Value>)
        requires
            values_printable(vals@),
        ensures
            final(self).out@ == old(self).out@ + values_text(vals@, old(self).indent@),
            same_state(*old(self), *final(self)),
        decreases vals,
    {
        let ghost start = self.out@;
        let ghost pad = self.indent@;
        let mut k: usize = 0;
        while k < vals.len()
            invariant
                0 <= k <= vals@.len(),
                values_printable(vals@),
                self.indent@ == pad,
                self.out@ == start + values_text(vals@.take(k as int), pad),
                same_state(*old(self), *self),
            decreases vals.len() - k,
        {
            proof {
                assert(decreases_to!(*vals => vals[k as int]));
                lemma_values_printable(vals@, k as int);
            }
            self.visit_value(&vals[k]);
            proof {
                assert(vals@.take(k + 1).drop_last() =~= vals@.take(k as int));
            }
            k = k + 1;
        }
        assert(vals@.take(vals@.len() as int) =~= vals@);
    }

    /// Prints values separated by ", ".
    pub fn visit_values_comma(&mut self, vals: &Vec<Value>)
        requires
            values_printable(vals@),
        ensures
            final(self).out@ == old(self).out@ + values_comma_text(vals@, old(self).indent@),
            same_state(*old(self), *final(self)),
    {
        let ghost start = self.out@;
        let ghost pad = self.indent@;
        let mut k: usize = 0;
        while k < vals.len()
            invariant
                0 <= k <= vals@.len(),
                values_printable(vals@),
                self.indent@ == pad,
                self.out@ == start + values_comma_text(vals@.take(k as int), pad),
                same_state(*old(self), *self),
            decreases vals.len() - k,
        {
            if k > 0 {
                self.print(", ");
            }
            proof {
                lemma_values_printable(vals@, k as int);
            }
            self.visit_value(&vals[k]);
            proof {
                assert(vals@.take(k + 1).drop_last() =~= vals@.take(k as int));
                if k == 0 {
                    assert(values_comma_text(vals@.take(0), pad) =~= Seq::<char>::empty());
                }
            }
            k = k + 1;
        }
        assert(vals@.take(vals@.len() as int) =~= vals@);
    }

    /// Prints the fields of a struct literal, one per line.
    pub fn visit_field_values(&mut self, fields: &Vec<FieldValue>)
        requires
            field_values_printable(fields@),
        ensures
            final(self).out@ == old(self).out@ + field_values_text(fields@, old(self).indent@),
            same_state(*old(self), *final(self)),
        decreases fields,
    {
        let ghost start = self.out@;
        let ghost pad = self.indent@;
        let mut k: usize = 0;
        while k < fields.len()
            invariant
                0 <= k <= fields@.len(),
                field_values_printable(fields@),
                self.indent@ == pad,
                self.out@ == start + field_values_text(fields@.take(k as int), pad),
                same_state(*old(self), *self),
            decreases fields.len() - k,
        {
            proof {
                assert(decreases_to!(*fields => fields[k as int]));
                assert(decreases_to!(fields[k as int] => fields[k as int].value));
                lemma_field_values_printable(fields@, k as int);
            }
            let field = &fields[k];
            self.prindent("");
            self.print_string(&field.name);
            self.print(": ");
            self.visit_value(&field.value);
            self.print(",");
            self.newline();
            proof {
                assert(fields@.take(k + 1).drop_last() =~= fields@.take(k as int));
                reveal_strlit("");
                assert(pad + ""@ =~= pad);
            }
            k = k + 1;
        }
        assert(fields@.take(fields@.len() as int) =~= fields@);
    }

    /// Prints an instruction at the current indentation.
    #[verifier::spinoff_prover]
    #[verifier::rlimit(60)]
    pub fn visit_instruction(&mut self, node: &Instruction)
        requires
            instruction_printable(*node),
        ensures
            final(self).out@ == old(self).out@ + instruction_text(*node, old(self).indent@),
            same_state(*old(self), *final(self)),
        decreases node,
    {
        proof {
            reveal_strlit("");
        }
        match node {
            Instruction::Block(instructions) => {
                self.prindentln("block {");
                let saved = self.indent();
                proof {
                    assert(decreases_to!(*node => (*node)->Block_0));
                }
                self.visit_instructions(instructions);
                self.dedent(saved);
                self.prindentln("}");
            },
            Instruction::Decl(typ, name) => {
                self.print_padding();
                self.visit_name(name);
                self.print(": ");
                self.visit_type(typ);
                self.newline();
            },
            Instruction::Copy(exp, val) => {
                self.print_padding();
                self.visit_expression(exp);
                self.print(" = ");
                self.visit_value(val);
                self.newline();
            },
            Instruction::Clear(name) => {
                self.prindent("clear(");
                self.visit_name(name);
                self.print(")");
                self.newline();
            },
            Instruction::Funcall(exp, function, args) => {
                self.print_padding();
                self.visit_expression(exp);
                self.print(" = ");
                self.print_string(function);
                self.print("(");
                self.visit_values_comma(args);
                self.print(")");
                self.newline();
            },
            Instruction::Goto(label) => {
                self.prindent("goto \"");
                self.print_string(label);
                self.print("\"");
                self.newline();
            },
            Instruction::Label(label) => {
                self.prindent("label \"");
                self.print_string(label);
                self.print("\"");
                self.newline();
            },
            Instruction::If(condition, if_body, else_body) => {
                self.prindent("if (");
                self.visit_value(condition);
                self.print(") {");
                self.newline();
                let saved = self.indent();
                proof {
                    assert(decreases_to!(*node => (*node)->If_1));
                }
                self.visit_instructions(if_body);
                self.dedent(saved);
                self.prindentln("} else {");
                let saved = self.indent();
                proof {
                    assert(decreases_to!(*node => (*node)->If_2));
                }
                self.visit_instructions(else_body);
                self.dedent(saved);
                self.prindentln("}");
            },
            Instruction::Jump(value, s) => {
                self.prindent("jump ");
                self.print_string(s);
                self.print(" ");
                self.visit_value(value);
                self.newline();
            },
            Instruction::Undefined => self.prindentln("undefined"),
            Instruction::Exit(s) => {
                self.prindent("exit(");
                self.print_string(s);
                self.print(")");
                self.newline();
            },
            Instruction::End(name) => {
                self.prindent("end(");
                self.visit_name(name);
                self.print(")");
                self.newline();
            },
            Instruction::TryBlock(body) => {
                self.prindentln("try {");
                let saved = self.indent();
                proof {
                    assert(decreases_to!(*node => (*node)->TryBlock_0));
                }
                self.visit_instructions(body);
                self.dedent(saved);
                self.prindentln("}");
            },
            Instruction::Comment(s) => {
                self.prindent("// ");
                self.print_string(s);
                self.newline();
            },
            _ => {},
        }
    }

    /// Prints instructions one after the other at the current indentation.
    pub fn visit_instructions(&mut self, body: &Vec<Instruction>)
        requires
            instructions_printable(body@),
        ensures
            final(self).out@ == old(self).out@ + instructions_text(body@, old(self).indent@),
            same_state(*old(self), *final(self)),
        decreases body,
    {
        let ghost start = self.out@;
        let ghost pad = self.indent@;
        let mut k: usize = 0;
        while k < body.len()
            invariant
                0 <= k <= body@.len(),
                instructions_printable(body@),
                self.indent@ == pad,
                self.out@ == start + instructions_text(body@.take(k as int), pad),
                same_state(*old(self), *self),
            decreases body.len() - k,
        {
            proof {
                assert(decreases_to!(*body => body[k as int]));
                lemma_instructions_printable(body@, k as int);
            }
            self.visit_instruction(&body[k]);
            proof {
                assert(body@.take(k + 1).drop_last() =~= body@.take(k as int));
            }
            k = k + 1;
        }
        assert(body@.take(body@.len() as int) =~= body@);
    }

    /// Prints the members of an enum, one per line.
    fn print_enum_members(&mut self, ids: &Vec<String>)
        ensures
            final(self).out@ == old(self).out@ + enum_members_text(ids@, old(self).indent@),
            same_state(*old(self), *final(self)),
    {
        let ghost start = self.out@;
        let ghost pad = self.indent@;
        let mut k: usize = 0;
        while k < ids.len()
            invariant
                0 <= k <= ids@.len(),
                self.indent@ == pad,
                self.out@ == start + enum_members_text(ids@.take(k as int), pad),
                same_state(*old(self), *self),
            decreases ids.len() - k,
        {
            proof {
                reveal_strlit("");
            }
            self.prindent("");
            self.print_string(&ids[k]);
            self.print(",");
            self.newline();
            proof {
                assert(ids@.take(k + 1).drop_last() =~= ids@.take(k as int));
                assert(pad + ""@ =~= pad);
            }
            k = k + 1;
        }
        assert(ids@.take(ids@.len() as int) =~= ids@);
    }

    /// Prints the fields of a struct or union type, one per line.
    fn print_field_types(&mut self, fields: &Vec<FieldType>)
        ensures
            final(self).out@ == old(self).out@ + field_types_text(fields@, old(self).indent@),
            same_state(*old(self), *final(self)),
    {
        let ghost start = self.out@;
        let ghost pad = self.indent@;
        let mut k: usize = 0;
        while k < fields.len()
            invariant
                0 <= k <= fields@.len(),
                self.indent@ == pad,
                self.out@ == start + field_types_text(fields@.take(k as int), pad),
                same_state(*old(self), *self),
            decreases fields.len() - k,
        {
            proof {
                reveal_strlit("");
            }
            let field = &fields[k];
            self.prindent("");
            self.print_string(&field.name);
            self.print(": ");
            self.visit_type(&field.typ);
            self.print(",");
            self.newline();
            proof {
                assert(fields@.take(k + 1).drop_last() =~= fields@.take(k as int));
                assert(pad + ""@ =~= pad);
            }
            k = k + 1;
        }
        assert(fields@.take(fields@.len() as int) =~= fields@);
    }

    /// Prints a top-level definition at the current indentation. A pragma
    /// `abstract` prints nothing and declares its value an abstract function.
    #[verifier::spinoff_prover]
    #[verifier::rlimit(60)]
    pub fn visit_definition(&mut self, node: &Definition)
        requires
            definition_printable(*node),
        ensures
            final(self).out@ == old(self).out@ + definition_text(
                *node,
                old(self).indent@,
                old(self).abstract_set(),
            ),
            final(self).indent@ == old(self).indent@,
            final(self).abstract_set() == abstract_after(*node, old(self).abstract_set()),
    {
        match node {
            Definition::RegDec(id, typ) => {
                self.prindent("register ");
                self.print_string(id);
                self.print(" : ");
                self.visit_type(typ);
            },
            Definition::Type(TypeDefinition::Enum(id, ids)) => {
                self.prindent("enum ");
                self.print_string(id);
                self.print(" {");
                self.newline();
                let saved = self.indent();
                self.print_enum_members(ids);
                self.dedent(saved);
                self.prindentln("}");
            },
            Definition::Type(TypeDefinition::Struct(id, fields)) => {
                self.prindent("struct ");
                self.print_string(id);
                self.print(" {");
                self.newline();
                let saved = self.indent();
                self.print_field_types(fields);
                self.dedent(saved);
                self.prindentln("}");
            },
            Definition::Type(TypeDefinition::Variant(id, fields)) => {
                self.prindent("union ");
                self.print_string(id);
                self.print(" {");
                self.newline();
                let saved = self.indent();
                self.print_field_types(fields);
                self.dedent(saved);
                self.prindentln("}");
            },
            Definition::Let(bindings, instructions) => {
                self.prindent("let (");
                self.print_comma_names(bindings);
                self.print(") {");
                self.newline();
                let saved = self.indent();
                self.visit_instructions(instructions);
                self.dedent(saved);
                self.print("}");
                self.newline();
            },
            Definition::Spec(id, ext, typs, typ) => {
                let is_abstract = match ext {
                    Some(ext) => self.is_abstract(ext),
                    None => false,
                };
                if is_abstract {
                    self.prindent("abstract");
                } else {
                    self.prindent("val");
                }
                self.print(" ");
                self.print_string(id);
                self.print(" : (");
                self.visit_types(typs);
                self.print(") -> ");
                self.visit_type(typ);
                self.newline();
            },
            Definition::Fundef(name, args, body) => {
                self.prindent("fn ");
                self.print_string(name);
                self.print("(");
                self.print_comma_names(args);
                self.print(") {");
                self.newline();
                let saved = self.indent();
                self.visit_instructions(body);
                self.dedent(saved);
                self.prindentln("}\n");
            },
            Definition::Pragma(key, value) => {
                let abstract_key = String::from_str("abstract");
                if *key == abstract_key {
                    self.declare_abstract(value);
                } else {
                    self.prindent("#");
                    self.print_string(key);
                    self.print(" ");
                    self.print_string(value);
                    self.newline();
                }
            },
            _ => {},
        }
    }
}

/// Every value of a printable list is printable.
pub proof fn lemma_values_printable(vals: Seq<Value>, k: int)
    requires
        values_printable(vals),
        0 <= k < vals.len(),
    ensures
        value_printable(vals[k]),
    decreases vals.len(),
{
    if k < vals.len() - 1 {
        lemma_values_printable(vals.drop_last(), k);
    }
}

/// Every field of a printable list of struct fields is printable.
pub proof fn lemma_field_values_printable(fields: Seq<FieldValue>, k: int)
    requires
        field_values_printable(fields),
        0 <= k < fields.len(),
    ensures
        value_printable(fields[k].value),
    decreases fields.len(),
{
    if k < fields.len() - 1 {
        lemma_field_values_printable(fields.drop_last(), k);
    }
}

/// Every instruction of a printable list is printable.
pub proof fn lemma_instructions_printable(body: Seq<Instruction>, k: int)
    requires
        instructions_printable(body),
        0 <= k < body.len(),
    ensures
        instruction_printable(body[k]),
    decreases body.len(),
{
    if k < body.len() - 1 {
        lemma_instructions_printable(body.drop_last(), k);
    }
}

/// Pretty-prints a sequence of JIB definitions: the text that the printer
/// writes, starting at indentation level zero and knowing of no abstract
/// function.
pub fn print_ast(definitions: &[Definition]) -> (text: String)
    requires
        forall|i: int| 0 <= i < definitions@.len() ==> definition_printable(#[trigger] definitions@[i]),
    ensures
        text@ == definitions_text(definitions@, Set::empty()),
{
    let mut visitor = JibPrettyPrinter::new();
    let mut i: usize = 0;
    while i < definitions.len()
        invariant
            0 <= i <= definitions@.len(),
            forall|j: int| 0 <= j < definitions@.len() ==> definition_printable(#[trigger] definitions@[j]),
            visitor.indent@ == Seq::<char>::empty(),
            visitor.out@ == definitions_text(definitions@.take(i as int), Set::empty()),
            visitor.abstract_set() == abstract_after_all(definitions@.take(i as int), Set::empty()),
        decreases definitions.len() - i,
    {
        visitor.visit_definition(&definitions[i]);
        proof {
            assert(definitions@.take(i + 1).drop_last() =~= definitions@.take(i as int));
        }
        i = i + 1;
    }
    assert(definitions@.take(definitions@.len() as int) =~= definitions@);
    visitor.out
}

/// Whether the printer handles `node`.
pub fn expression_is_printable(node: &Expression) -> (r: bool)
    ensures
        r == expression_printable(*node),
    decreases node,
{
    match node {
        Expression::Id(_) => true,
        Expression::Field(inner, _) => expression_is_printable(inner),
        Expression::Addr(inner) => expression_is_printable(inner),
        _ => false,
    }
}

/// Whether the printer handles `node`.
pub fn value_is_printable(node: &Value) -> (r: bool)
    ensures
        r == value_printable(*node),
    decreases node,
{
    match node {
        Value::Id(_) => true,
        Value::Lit(_) => true,
        Value::Call(_, args) => {
            proof {
                assert(decreases_to!(*node => (*node)->Call_1));
            }
            values_are_printable(args)
        },
        Value::Struct(fields, typ) => {
            let is_struct = match typ {
                Type::Struct(_) => true,
                _ => false,
            };
            if !is_struct {
                return false;
            }
            let ghost fs = fields@;
            let mut k: usize = 0;
            while k < fields.len()
                invariant
                    *node == Value::Struct(*fields, *typ),
                    fs == fields@,
                    0 <= k <= fields@.len(),
                    field_values_printable(fields@.take(k as int)),
                decreases fields.len() - k,
            {
                proof {
                    assert(decreases_to!(*node => (*node)->Struct_0));
                    assert(decreases_to!(*fields => fields[k as int]));
                    assert(decreases_to!(fields[k as int] => fields[k as int].value));
                }
                let ok = value_is_printable(&fields[k].value);
                proof {
                    assert(fields@.take(k + 1).drop_last() =~= fields@.take(k as int));
                }
                if !ok {
                    proof {
                        lemma_field_values_printable_prefix(fields@, k + 1);
                    }
                    return false;
                }
                k = k + 1;
            }
            assert(fields@.take(fields@.len() as int) =~= fields@);
            true
        },
        Value::CtorKind(inner, _, _) => value_is_printable(inner),
        Value::CtorUnwrap(inner, _, _) => value_is_printable(inner),
        Value::Field(inner, _) => value_is_printable(inner),
        _ => false,
    }
}

/// Whether the printer handles every value of `vals`.
pub fn values_are_printable(vals: &Vec<Value>) -> (r: bool)
    ensures
        r == values_printable(vals@),
    decreases vals,
{
    let mut k: usize = 0;
    while k < vals.len()
        invariant
            0 <= k <= vals@.len(),
            values_printable(vals@.take(k as int)),
        decreases vals.len() - k,
    {
        proof {
            assert(decreases_to!(*vals => vals[k as int]));
        }
        let ok = value_is_printable(&vals[k]);
        proof {
            assert(vals@.take(k + 1).drop_last() =~= vals@.take(k as int));
        }
        if !ok {
            proof {
                lemma_values_printable_prefix(vals@, k + 1);
            }
            return false;
        }
        k = k + 1;
    }
    assert(vals@.take(vals@.len() as int) =~= vals@);
    true
}

/// Whether the printer handles `node`.
pub fn instruction_is_printable(node: &Instruction) -> (r: bool)
    ensures
        r == instruction_printable(*node),
    decreases node,
{
    match node {
        Instruction::Block(body) => {
            proof {
                assert(decreases_to!(*node => (*node)->Block_0));
            }
            instructions_are_printable(body)
        },
        Instruction::Decl(_, _) => true,
        Instruction::Copy(exp, val) => expression_is_printable(exp) && value_is_printable(val),
        Instruction::Clear(_) => true,
        Instruction::Funcall(exp, _, args) => expression_is_printable(exp) && values_are_printable(
            args,
        ),
        Instruction::Goto(_) => true,
        Instruction::Label(_) => true,
        Instruction::If(cond, then_body, else_body) => {
            proof {
                assert(decreases_to!(*node => (*node)->If_1));
                assert(decreases_to!(*node => (*node)->If_2));
            }
            value_is_printable(cond) && instructions_are_printable(then_body)
                && instructions_are_printable(else_body)
        },
        Instruction::Jump(val, _) => value_is_printable(val),
        Instruction::Undefined => true,
        Instruction::Exit(_) => true,
        Instruction::End(_) => true,
        Instruction::TryBlock(body) => {
            proof {
                assert(decreases_to!(*node => (*node)->TryBlock_0));
            }
            instructions_are_printable(body)
        },
        Instruction::Comment(_) => true,
        _ => false,
    }
}

/// Whether the printer handles every instruction of `body`.
pub fn instructions_are_printable(body: &Vec<Instruction>) -> (r: bool)
    ensures
        r == instructions_printable(body@),
    decreases body,
{
    let mut k: usize = 0;
    while k < body.len()
        invariant
            0 <= k <= body@.len(),
            instructions_printable(body@.take(k as int)),
        decreases body.len() - k,
    {
        proof {
            assert(decreases_to!(*body => body[k as int]));
        }
        let ok = instruction_is_printable(&body[k]);
        proof {
            assert(body@.take(k + 1).drop_last() =~= body@.take(k as int));
        }
        if !ok {
            proof {
                lemma_instructions_printable_prefix(body@, k + 1);
            }
            return false;
        }
        k = k + 1;
    }
    assert(body@.take(body@.len() as int) =~= body@);
    true
}

/// Whether the printer handles `node`.
pub fn definition_is_printable(node: &Definition) -> (r: bool)
    ensures
        r == definition_printable(*node),
{
    match node {
        Definition::Let(_, body) => instructions_are_printable(body),
        Definition::Fundef(_, _, body) => instructions_are_printable(body),
        Definition::Startup => false,
        Definition::Finish => false,
        _ => true,
    }
}

proof fn lemma_values_printable_prefix(vals: Seq<Value>, k: int)
    requires
        0 <= k <= vals.len(),
        !values_printable(vals.take(k)),
    ensures
        !values_printable(vals),
    decreases vals.len() - k,
{
    if k < vals.len() {
        assert(vals.take(k + 1).drop_last() =~= vals.take(k));
        lemma_values_printable_prefix(vals, k + 1);
    } else {
        assert(vals.take(k) =~= vals);
    }
}

proof fn lemma_field_values_printable_prefix(fields: Seq<FieldValue>, k: int)
    requires
        0 <= k <= fields.len(),
        !field_values_printable(fields.take(k)),
    ensures
        !field_values_printable(fields),
    decreases fields.len() - k,
{
    if k < fields.len() {
        assert(fields.take(k + 1).drop_last() =~= fields.take(k));
        lemma_field_values_printable_prefix(fields, k + 1);
    } else {
        assert(fields.take(k) =~= fields);
    }
}

proof fn lemma_instructions_printable_prefix(body: Seq<Instruction>, k: int)
    requires
        0 <= k <= body.len(),
        !instructions_printable(body.take(k)),
    ensures
        !instructions_printable(body),
    decreases body.len() - k,
{
    if k < body.len() {
        assert(body.take(k + 1).drop_last() =~= body.take(k));
        lemma_instructions_printable_prefix(body, k + 1);
    } else {
        assert(body.take(k) =~= body);
    }
}

/// A single text is joined to itself.
pub proof fn law_comma_join_single(x: Seq<char>)
    ensures
        comma_join(seq![x]) == x,
{
}

/// Joining two non-empty lists of texts gives their joins with one ", "
/// between them: every text after the first is preceded by exactly one ", ".
pub proof fn law_comma_join_split(a: Seq<Seq<char>>, b: Seq<Seq<char>>)
    requires
        a.len() >= 1,
        b.len() >= 1,
    ensures
        comma_join(a + b) == comma_join(a) + ", "@ + comma_join(b),
    decreases b.len(),
{
    if b.len() == 1 {
        assert((a + b).drop_last() =~= a);
        assert((a + b).last() == b[0]);
    } else {
        law_comma_join_split(a, b.drop_last());
        assert((a + b).drop_last() =~= a + b.drop_last());
        assert((a + b).last() == b.last());
        assert(comma_join(a + b) =~= comma_join(a) + ", "@ + comma_join(b));
    }
}

/// The arguments of a call are the texts of its values joined by ", ".
pub proof fn law_values_comma_text(vals: Seq<Value>, pad: Seq<char>)
    ensures
        values_comma_text(vals, pad) == comma_join(vals.map_values(|v: Value| value_text(v, pad))),
    decreases vals.len(),
{
    let parts = vals.map_values(|v: Value| value_text(v, pad));
    if vals.len() > 1 {
        law_values_comma_text(vals.drop_last(), pad);
        assert(parts.drop_last() =~= vals.drop_last().map_values(|v: Value| value_text(v, pad)));
    } else if vals.len() == 1 {
        assert(parts =~= seq![value_text(vals[0], pad)]);
    } else {
        assert(parts.len() == 0);
    }
}

/// A list of types is the texts of its types joined by ", ".
pub proof fn law_types_text(typs: Seq<Type>)
    ensures
        types_text(typs) == comma_join(typs.map_values(|t: Type| type_text(t))),
    decreases typs.len(),
{
    let parts = typs.map_values(|t: Type| type_text(t));
    if typs.len() > 1 {
        law_types_text(typs.drop_last());
        assert(parts.drop_last() =~= typs.drop_last().map_values(|t: Type| type_text(t)));
    } else if typs.len() == 1 {
        assert(parts =~= seq![type_text(typs[0])]);
    } else {
        assert(parts.len() == 0);
    }
}

/// Call arguments printed back to back: the text of two lists is the text of
/// the first followed by that of the second; one value gives its own text.
pub proof fn law_values_text_concat(a: Seq<Value>, b: Seq<Value>, pad: Seq<char>)
    ensures
        values_text(a + b, pad) == values_text(a, pad) + values_text(b, pad),
        b.len() == 1 ==> values_text(b, pad) == value_text(b[0], pad),
    decreases b.len(),
{
    if b.len() == 1 {
        assert(b.drop_last() =~= Seq::<Value>::empty());
    }
    if b.len() == 0 {
        assert(a + b =~= a);
    } else {
        law_values_text_concat(a, b.drop_last(), pad);
        assert((a + b).drop_last() =~= a + b.drop_last());
        assert((a + b).last() == b.last());
    }
}

/// The members of an enum: the text of two lists is the text of the first
/// followed by that of the second, and each member is one line
/// `pad + member + ","`.
pub proof fn law_enum_members_concat(a: Seq<String>, b: Seq<String>, pad: Seq<char>)
    ensures
        enum_members_text(a + b, pad) == enum_members_text(a, pad) + enum_members_text(b, pad),
        b.len() == 1 ==> enum_members_text(b, pad) == pad + b[0]@ + ","@ + "\n"@,
    decreases b.len(),
{
    if b.len() == 1 {
        assert(b.drop_last() =~= Seq::<String>::empty());
    }
    if b.len() == 0 {
        assert(a + b =~= a);
    } else {
        law_enum_members_concat(a, b.drop_last(), pad);
        assert((a + b).drop_last() =~= a + b.drop_last());
        assert((a + b).last() == b.last());
        if b.len() == 1 {
            assert(b.drop_last() =~= Seq::<String>::empty());
        }
    }
}

/// The fields of a struct literal: the text of two lists is the text of the
/// first followed by that of the second, and each field is one line
/// `pad + name + ": " + value + ","`.
pub proof fn law_field_values_concat(a: Seq<FieldValue>, b: Seq<FieldValue>, pad: Seq<char>)
    ensures
        field_values_text(a + b, pad) == field_values_text(a, pad) + field_values_text(b, pad),
        b.len() == 1 ==> field_values_text(b, pad) == pad + b[0].name@ + ": "@ + value_text(
            b[0].value,
            pad,
        ) + ","@ + "\n"@,
    decreases b.len(),
{
    if b.len() == 1 {
        assert(b.drop_last() =~= Seq::<FieldValue>::empty());
    }
    if b.len() == 0 {
        assert(a + b =~= a);
    } else {
        law_field_values_concat(a, b.drop_last(), pad);
        assert((a + b).drop_last() =~= a + b.drop_last());
        assert((a + b).last() == b.last());
    }
}

/// The fields of a struct or union type: the text of two lists is the text of
/// the first followed by that of the second, and each field is one line
/// `pad + name + ": " + type + ","`.
pub proof fn law_field_types_concat(a: Seq<FieldType>, b: Seq<FieldType>, pad: Seq<char>)
    ensures
        field_types_text(a + b, pad) == field_types_text(a, pad) + field_types_text(b, pad),
        b.len() == 1 ==> field_types_text(b, pad) == pad + b[0].name@ + ": "@ + type_text(b[0].typ)
            + ","@ + "\n"@,
    decreases b.len(),
{
    if b.len() == 1 {
        assert(b.drop_last() =~= Seq::<FieldType>::empty());
    }
    if b.len() == 0 {
        assert(a + b =~= a);
    } else {
        law_field_types_concat(a, b.drop_last(), pad);
        assert((a + b).drop_last() =~= a + b.drop_last());
        assert((a + b).last() == b.last());
    }
}

/// A body of instructions: the text of two lists is the text of the first
/// followed by that of the second, and one instruction gives its own text.
pub proof fn law_instructions_concat(a: Seq<Instruction>, b: Seq<Instruction>, pad: Seq<char>)
    ensures
        instructions_text(a + b, pad) == instructions_text(a, pad) + instructions_text(b, pad),
        b.len() == 1 ==> instructions_text(b, pad) == instruction_text(b[0], pad),
    decreases b.len(),
{
    if b.len() == 1 {
        assert(b.drop_last() =~= Seq::<Instruction>::empty());
    }
    if b.len() == 0 {
        assert(a + b =~= a);
    } else {
        law_instructions_concat(a, b.drop_last(), pad);
        assert((a + b).drop_last() =~= a + b.drop_last());
        assert((a + b).last() == b.last());
    }
}

/// `d` is a pragma `abstract` that names function `f`.
pub open spec fn declares_abstract(d: Definition, f: Seq<char>) -> bool {
    match d {
        Definition::Pragma(key, value) => key@ == abstract_key() && value@ == f,
        _ => false,
    }
}

/// Printing two sequences of definitions one after the other gives the text
/// of their concatenation: the second is printed knowing the functions that
/// the first declared abstract.
pub proof fn law_print_concatenation(
    a: Seq<Definition>,
    b: Seq<Definition>,
    abstract_functions: Set<Seq<char>>,
)
    ensures
        definitions_text(a + b, abstract_functions) == definitions_text(a, abstract_functions)
            + definitions_text(b, abstract_after_all(a, abstract_functions)),
        abstract_after_all(a + b, abstract_functions) == abstract_after_all(
            b,
            abstract_after_all(a, abstract_functions),
        ),
    decreases b.len(),
{
    if b.len() == 0 {
        assert(a + b =~= a);
    } else {
        law_print_concatenation(a, b.drop_last(), abstract_functions);
        assert((a + b).drop_last() =~= a + b.drop_last());
        assert((a + b).last() == b.last());
    }
}

/// Printing one more definition appends its text, printed at indentation
/// level zero with the functions that the definitions before it declared
/// abstract.
pub proof fn law_print_one_more(ds: Seq<Definition>, d: Definition, abstract_functions: Set<Seq<char>>)
    ensures
        definitions_text(ds.push(d), abstract_functions) == definitions_text(ds, abstract_functions)
            + definition_text(d, Seq::empty(), abstract_after_all(ds, abstract_functions)),
        abstract_after_all(ds.push(d), abstract_functions) == abstract_after(
            d,
            abstract_after_all(ds, abstract_functions),
        ),
{
    assert(ds.push(d).drop_last() =~= ds);
}

/// A function is known to be abstract after a sequence of definitions exactly
/// when it was known before, or some definition is a pragma `abstract` that
/// names it.
pub proof fn law_abstract_functions(ds: Seq<Definition>, abstract_functions: Set<Seq<char>>, f: Seq<char>)
    ensures
        abstract_after_all(ds, abstract_functions).contains(f) <==> (abstract_functions.contains(f)
            || exists|j: int|
            0 <= j < ds.len() && #[trigger] declares_abstract(ds[j], f)),
    decreases ds.len(),
{
    if ds.len() > 0 {
        let init = ds.drop_last();
        law_abstract_functions(init, abstract_functions, f);
        let before = abstract_after_all(init, abstract_functions);
        assert(abstract_after_all(ds, abstract_functions) == abstract_after(ds.last(), before));
        assert(abstract_after(ds.last(), before).contains(f) <==> (before.contains(f)
            || declares_abstract(ds[ds.len() - 1], f)));
        if exists|j: int|
            0 <= j < init.len() && #[trigger] declares_abstract(init[j], f) {
            let j = choose|j: int|
                0 <= j < init.len() && #[trigger] declares_abstract(init[j], f);
            assert(ds[j] == init[j]);
        }
        if exists|j: int|
            0 <= j < ds.len() && #[trigger] declares_abstract(ds[j], f) {
            let j = choose|j: int|
                0 <= j < ds.len() && #[trigger] declares_abstract(ds[j], f);
            if j < init.len() {
                assert(init[j] == ds[j]);
            }
        }
    }
}

/// Every printable instruction is printed as whole lines: its text starts
/// with the padding of its indentation and ends with a line break.
pub proof fn law_instruction_lines(i: Instruction, pad: Seq<char>)
    requires
        instruction_printable(i),
    ensures
        instruction_text(i, pad).len() > pad.len(),
        instruction_text(i, pad).subrange(0, pad.len() as int) == pad,
        instruction_text(i, pad).last() == '\n',
{
    reveal_strlit("\n");
    let t = instruction_text(i, pad);
    let rest = t.subrange(pad.len() as int, t.len() as int);
    assert(t =~= pad + rest);
    assert(t.subrange(0, pad.len() as int) =~= pad);
}

} // verus!
