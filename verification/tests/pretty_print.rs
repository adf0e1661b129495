use lib::jib_ast::{
    Definition, Expression, FieldType, FieldValue, Instruction, Name, Type, TypeDefinition, Value,
};
use lib::pretty_print::{definition_is_printable, print_ast};
use lib::text::BigInt;

fn big(text: &str) -> BigInt {
    let negative = text.starts_with('-');
    let digits: Vec<u8> = text.trim_start_matches('-').bytes().map(|b| b - b'0').collect();
    BigInt::new(negative, digits).unwrap()
}

fn s(x: &str) -> String {
    x.to_string()
}

fn local(x: &str) -> Name {
    Name::Name(s(x))
}

#[test]
fn enum_definition_lists_members_one_per_line() {
    let defs = vec![Definition::Type(TypeDefinition::Enum(
        s("Color"),
        vec![s("Red"), s("Green")],
    ))];
    assert_eq!(print_ast(&defs), "enum Color {\n  Red,\n  Green,\n}\n");
}

#[test]
fn struct_and_union_definitions() {
    let fields = || {
        vec![
            FieldType { name: s("a"), typ: Type::Fbits(8) },
            FieldType { name: s("b"), typ: Type::Bool },
        ]
    };
    let defs = vec![
        Definition::Type(TypeDefinition::Struct(s("S"), fields())),
        Definition::Type(TypeDefinition::Variant(s("U"), fields())),
    ];
    assert_eq!(
        print_ast(&defs),
        "struct S {\n  a: %bv8,\n  b: %bool,\n}\nunion U {\n  a: %bv8,\n  b: %bool,\n}\n"
    );
}

#[test]
fn register_declaration_has_no_line_break() {
    let defs = vec![
        Definition::RegDec(s("PC"), Type::Fbits(64)),
        Definition::RegDec(s("SP"), Type::Lint),
    ];
    assert_eq!(print_ast(&defs), "register PC : %bv64register SP : %i");
}

#[test]
fn abstract_pragma_marks_later_declarations() {
    let spec = |ext: Option<&str>| {
        Definition::Spec(
            s("f"),
            ext.map(s),
            vec![Type::Lint, Type::Bool],
            Type::Unit,
        )
    };
    let defs = vec![
        spec(Some("ext_f")),
        Definition::Pragma(s("abstract"), s("ext_f")),
        spec(Some("ext_f")),
        spec(Some("other")),
        spec(None),
    ];
    assert_eq!(
        print_ast(&defs),
        "val f : (%i, %bool) -> %unit\nabstract f : (%i, %bool) -> %unit\nval f : (%i, %bool) -> %unit\nval f : (%i, %bool) -> %unit\n"
    );
}

#[test]
fn other_pragma_is_printed() {
    let defs = vec![Definition::Pragma(s("filename"), s("model.sail"))];
    assert_eq!(print_ast(&defs), "#filename model.sail\n");
}

#[test]
fn spec_without_arguments() {
    let defs = vec![Definition::Spec(s("g"), None, vec![], Type::Bit)];
    assert_eq!(print_ast(&defs), "val g : () -> %bit\n");
}

#[test]
fn types_are_printed_in_jib_notation() {
    let typs = vec![
        Type::Fint(-5),
        Type::Constant(big("-170141183460469231731687303715884105728")),
        Type::Sbits(32),
        Type::Lbits,
        Type::String,
        Type::Real,
        Type::Float(64),
        Type::RoundingMode,
        Type::Tup(vec![Type::Bit, Type::Unit]),
        Type::Enum(s("E")),
        Type::Struct(s("S")),
        Type::Variant(s("V")),
        Type::Vector(Box::new(Type::Bool)),
        Type::Fvector(16, Box::new(Type::Fbits(8))),
        Type::List(Box::new(Type::Lint)),
        Type::Ref(Box::new(Type::Fint(64))),
        Type::Poly(s("'a")),
        Type::Constant(big("1234567890123")),
        Type::Constant(big("987654321098765432109876543210987654321098765432109876543210")),
        Type::Constant(big("0")),
    ];
    let defs = vec![Definition::Spec(s("t"), None, typs, Type::Unit)];
    assert_eq!(
        print_ast(&defs),
        "val t : (%i-5, -170141183460469231731687303715884105728, %sbv32, %bv, %string, %real, %f64, %rounding_mode, (%bit, %unit), enum E, struct S, union V, %vec<%bool>, %fvec<16, %bv8>, list<%i>, &%i64, 'a, 1234567890123, 987654321098765432109876543210987654321098765432109876543210, 0) -> %unit\n"
    );
}

#[test]
fn function_definition_with_nested_blocks() {
    let body = vec![
        Instruction::Decl(Type::Fbits(32), local("x")),
        Instruction::Copy(Expression::Id(local("x")), Value::Lit(s("0x00000001"))),
        Instruction::If(
            Value::Call(s("Eq"), vec![Value::Id(local("x")), Value::Lit(s("1"))]),
            vec![Instruction::Goto(s("end"))],
            vec![Instruction::Block(vec![Instruction::Comment(s("nothing"))])],
        ),
        Instruction::Label(s("end")),
        Instruction::Funcall(
            Expression::Id(Name::Return),
            s("add"),
            vec![Value::Id(local("x")), Value::Id(Name::Global(s("y")))],
        ),
        Instruction::End(Name::Return),
    ];
    let defs = vec![Definition::Fundef(s("f"), vec![s("a"), s("b")], body)];
    let expected = "fn f(a, b) {\n  x: %bv32\n  x = 0x00000001\n  if (Eq(x1)) {\n    goto \"end\"\n  } else {\n    block {\n      // nothing\n    }\n  }\n  label \"end\"\n  return = add(x, y)\n  end(return)\n}\n\n";
    assert_eq!(print_ast(&defs), expected);
}

#[test]
fn let_definition_closes_without_indentation() {
    let defs = vec![Definition::Let(
        vec![s("x"), s("y")],
        vec![Instruction::Undefined, Instruction::Exit(s("match"))],
    )];
    assert_eq!(print_ast(&defs), "let (x, y) {\n  undefined\n  exit(match)\n}\n");
}

#[test]
fn places_values_and_special_names() {
    let body = vec![
        Instruction::Copy(
            Expression::Addr(Box::new(Expression::Field(
                Box::new(Expression::Id(local("r"))),
                s("f"),
            ))),
            Value::Field(Box::new(Value::Id(Name::CurrentException)), s("g")),
        ),
        Instruction::Copy(
            Expression::Id(Name::HaveException),
            Value::CtorKind(Box::new(Value::Id(Name::ThrowLocation)), s("Some"), vec![Type::Lint]),
        ),
        Instruction::Copy(
            Expression::Id(local("z")),
            Value::CtorUnwrap(Box::new(Value::Id(local("o"))), s("None"), vec![]),
        ),
        Instruction::Clear(local("z")),
        Instruction::Jump(Value::Lit(s("true")), s("l1")),
        Instruction::TryBlock(vec![Instruction::Undefined]),
    ];
    let defs = vec![Definition::Fundef(s("h"), vec![], body)];
    let expected = "fn h() {\n  *r.f = exception.g\n  exception = throw is Some<%i>\n  z = o as None\n  clear(z)\n  jump l1 true\n  try {\n    undefined\n  }\n}\n\n";
    assert_eq!(print_ast(&defs), expected);
}

#[test]
fn struct_literal_opens_its_own_lines() {
    let value = Value::Struct(
        vec![
            FieldValue { name: s("a"), value: Value::Lit(s("1")) },
            FieldValue { name: s("b"), value: Value::Lit(s("2")) },
        ],
        Type::Struct(s("P")),
    );
    let defs = vec![Definition::Fundef(
        s("k"),
        vec![],
        vec![Instruction::Copy(Expression::Id(local("p")), value)],
    )];
    let expected = "fn k() {\n  p =   struct P {\n    a: 1,\n    b: 2,\n  }\n\n}\n\n";
    assert_eq!(print_ast(&defs), expected);
}

#[test]
fn empty_input_prints_nothing() {
    let defs: Vec<Definition> = vec![];
    assert_eq!(print_ast(&defs), "");
}

#[test]
fn printing_in_two_parts_gives_the_whole() {
    let first = vec![
        Definition::Pragma(s("abstract"), s("e")),
        Definition::RegDec(s("R"), Type::Bit),
    ];
    let second = vec![Definition::Spec(s("f"), Some(s("e")), vec![], Type::Unit)];
    let mut both = vec![
        Definition::Pragma(s("abstract"), s("e")),
        Definition::RegDec(s("R"), Type::Bit),
    ];
    both.push(Definition::Spec(s("f"), Some(s("e")), vec![], Type::Unit));
    let whole = print_ast(&both);
    assert_eq!(whole, format!("{}{}", print_ast(&first), "abstract f : () -> %unit\n"));
    // Printed alone, the second part does not know of the pragma.
    assert_eq!(print_ast(&second), "val f : () -> %unit\n");
}

#[test]
fn unsupported_nodes_are_not_printable() {
    assert!(!definition_is_printable(&Definition::Startup));
    assert!(!definition_is_printable(&Definition::Finish));
    let bad_struct = Value::Struct(vec![], Type::Lint);
    let f = |i: Instruction| Definition::Fundef(s("f"), vec![], vec![Instruction::Block(vec![i])]);
    assert!(!definition_is_printable(&f(Instruction::Copy(Expression::Id(local("x")), bad_struct))));
    assert!(!definition_is_printable(&f(Instruction::Throw)));
    assert!(!definition_is_printable(&f(Instruction::Copy(Expression::Void, Value::Lit(s("1"))))));
    assert!(!definition_is_printable(&f(Instruction::Jump(Value::Tuple, s("l")))));
    assert!(definition_is_printable(&f(Instruction::Jump(Value::Lit(s("1")), s("l")))));
}

#[test]
fn instructions_are_printed_as_whole_indented_lines() {
    let body = vec![
        Instruction::Block(vec![Instruction::Undefined, Instruction::Comment(s("c"))]),
        Instruction::Exit(s("e")),
    ];
    let text = print_ast(&[Definition::Let(vec![], body)]);
    let lines: Vec<&str> = text.lines().collect();
    assert_eq!(lines, vec!["let () {", "  block {", "    undefined", "    // c", "  }", "  exit(e)", "}"]);
    assert!(text.ends_with('\n'));
}

#[test]
fn big_integers_must_be_written_as_display_writes_them() {
    assert!(BigInt::new(false, vec![]).is_none());
    assert!(BigInt::new(false, vec![0, 1]).is_none());
    assert!(BigInt::new(false, vec![1, 10]).is_none());
    assert!(BigInt::new(true, vec![0]).is_none());
    assert!(BigInt::new(false, vec![0]).is_some());
    let mut out = String::from("n=");
    BigInt::new(true, vec![4, 0, 2]).unwrap().push_decimal(&mut out);
    assert_eq!(out, "n=-402");
}
