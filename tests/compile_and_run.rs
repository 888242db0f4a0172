use vrl_compiler::ast::Node;
use vrl_compiler::compiler::{compile_node, CompileConfig};
use vrl_compiler::diagnostic::{Diagnostic, DiagnosticKind, Severity, Span};
use vrl_compiler::function::{Builtin, Function, Parameter};
use vrl_compiler::program::{compile, compile_with_external, compile_with_state, Context, Target};
use vrl_compiler::state::{ExternalEnv, Scope, TypeState};
use vrl_compiler::type_def::TypeDef;
use vrl_compiler::value::{ExpressionError, Value};

fn name(s: &str) -> Vec<u8> {
    s.as_bytes().to_vec()
}

fn at(start: usize, end: usize) -> Span {
    Span { start, end }
}

fn var(s: &str) -> Node {
    Node::Variable(name(s), at(0, s.len()))
}

fn add(l: Box<Node>, r: Box<Node>) -> Node {
    Node::Add(l, r, at(0, 0))
}

fn integer(n: i64) -> Node {
    Node::Literal(Value::Integer(n))
}

fn string(s: &str) -> Node {
    Node::Literal(Value::Bytes(name(s)))
}

fn call(f: &str, args: Vec<Node>, handled: bool) -> Node {
    Node::Call { name: name(f), args, handled, span: at(0, f.len()) }
}

fn registry() -> Vec<Function> {
    vec![Function::parse_int(), Function::to_int(), Function::upcase()]
}

fn errors(d: &[Diagnostic]) -> usize {
    d.iter().filter(|x| x.severity == Severity::Error).count()
}

fn run(ast: &Vec<Node>) -> Result<Value, ExpressionError> {
    let result = compile(ast, &registry()).expect("compiles");
    let mut context = Context::new();
    let mut target = Target::new();
    result.program.evaluate(&mut context, &mut target)
}

#[test]
fn one_plus_one_is_an_infallible_integer() {
    let ast = vec![add(Box::new(integer(1)), Box::new(integer(1)))];
    let result = compile(&ast, &registry()).expect("compiles");
    assert_eq!(result.program.type_def, TypeDef::integer());
    assert!(!result.program.type_def.fallible);
    assert!(result.warnings.is_empty());
    assert_eq!(run(&ast), Ok(Value::Integer(2)));
}

#[test]
fn undefined_variable_is_one_error() {
    let ast = vec![var("foo")];
    let d = compile(&ast, &registry()).err().expect("fails");
    assert_eq!(d.len(), 1);
    assert_eq!(d[0].severity, Severity::Error);
    assert_eq!(d[0].message(), name("undefined variable: foo"));
}

#[test]
fn unhandled_fallible_call_is_rejected() {
    let ast = vec![call("parse_int", vec![string("abc")], false)];
    let d = compile(&ast, &registry()).err().expect("fails");
    assert_eq!(d.len(), 1);
    assert_eq!(d[0].severity, Severity::Error);
    assert_eq!(d[0].message(), name("unhandled fallible operation"));
}

#[test]
fn handled_fallible_call_fails_at_runtime() {
    let ast = vec![call("parse_int", vec![string("abc")], true)];
    let result = compile(&ast, &registry()).expect("compiles");
    assert_eq!(result.program.type_def, TypeDef::integer());
    assert_eq!(run(&ast), Err(ExpressionError::InvalidInteger));
}

#[test]
fn handled_parse_int_reads_a_number() {
    let ast = vec![call("parse_int", vec![string("-42")], true)];
    assert_eq!(run(&ast), Ok(Value::Integer(-42)));
}

fn branch_assigning_string_and_integer() -> Node {
    Node::If {
        span: at(0, 0),
        condition: Box::new(Node::Literal(Value::Boolean(true))),
        consequent: vec![Node::Assign { name: name("x"), value: Box::new(string("a")) }],
        alternative: vec![Node::Assign { name: name("x"), value: Box::new(integer(1)) }],
    }
}

#[test]
fn branches_merge_to_a_union() {
    let fns = registry();
    let mut state = TypeState { local: Scope::new(), external: ExternalEnv::new() };
    let mut diags: Vec<Diagnostic> = Vec::new();
    let _ = compile_node(
        &branch_assigning_string_and_integer(),
        &fns,
        CompileConfig::default(),
        &mut state,
        &mut diags,
    );
    assert!(diags.is_empty());
    let t = *state.local.get(&name("x")).expect("x is set");
    assert_eq!(t, TypeDef::bytes().merge(&TypeDef::integer()));
    assert!(t.bytes && t.integer && !t.null && !t.fallible);
}

#[test]
fn union_fails_an_integer_operation() {
    let ast = vec![
        branch_assigning_string_and_integer(),
        add(Box::new(var("x")), Box::new(integer(1))),
    ];
    let d = compile(&ast, &registry()).err().expect("fails");
    assert_eq!(errors(&d), 1);
    assert!(matches!(d[0].kind, DiagnosticKind::OperandMismatch { .. }));
    assert_eq!(d[0].message(), name("type mismatch"));
}

#[test]
fn compiling_twice_gives_the_same_findings() {
    let ast = vec![
        var("a"),
        call("nope", vec![], false),
        call("upcase", vec![integer(3)], false),
        call("parse_int", vec![string("1")], false),
    ];
    let first = compile(&ast, &registry()).err().expect("fails");
    let second = compile(&ast, &registry()).err().expect("fails");
    assert_eq!(first.len(), 4);
    assert_eq!(first.len(), second.len());
    for (a, b) in first.iter().zip(second.iter()) {
        assert_eq!(a.severity, b.severity);
        assert_eq!(a.message(), b.message());
    }
    let ok = vec![add(Box::new(string("a")), Box::new(string("b")))];
    let p = compile(&ok, &registry()).expect("compiles");
    let q = compile(&ok, &registry()).expect("compiles");
    assert_eq!(p.program.type_def, q.program.type_def);
    assert_eq!(p.program.statements.len(), q.program.statements.len());
}

#[test]
fn fallibility_flows_into_enclosing_expressions() {
    let inner = call("parse_int", vec![string("1")], false);
    let ast = vec![call("to_int", vec![inner], false)];
    let d = compile(&ast, &registry()).err().expect("fails");
    // only the inner call is reported; the outer one is fallible through it
    assert_eq!(d.len(), 1);
    assert!(matches!(d[0].kind, DiagnosticKind::UnhandledFallible));
    let fns = registry();
    let mut state = TypeState { local: Scope::new(), external: ExternalEnv::new() };
    let mut diags: Vec<Diagnostic> = Vec::new();
    let e = compile_node(
        &add(
            Box::new(call("parse_int", vec![string("1")], false)),
            Box::new(integer(2)),
        ),
        &fns,
        CompileConfig::default(),
        &mut state,
        &mut diags,
    );
    assert!(e.type_def().fallible);
}

#[test]
fn unhandled_fallible_inside_a_branch_is_one_error() {
    let ast = vec![Node::If {
        span: at(0, 0),
        condition: Box::new(Node::Literal(Value::Boolean(false))),
        consequent: vec![call("parse_int", vec![string("7")], false)],
        alternative: vec![],
    }];
    let d = compile(&ast, &registry()).err().expect("fails");
    assert_eq!(d.len(), 1);
    assert!(matches!(d[0].kind, DiagnosticKind::UnhandledFallible));
}

#[test]
fn to_int_narrows_fallibility_away() {
    let ast = vec![call("to_int", vec![Node::Literal(Value::Boolean(true))], false)];
    let result = compile(&ast, &registry()).expect("compiles");
    assert_eq!(result.program.type_def, TypeDef::integer());
    assert_eq!(run(&ast), Ok(Value::Integer(1)));
    let ast = vec![call("to_int", vec![string("5")], false)];
    let d = compile(&ast, &registry()).err().expect("fails");
    assert!(matches!(d[0].kind, DiagnosticKind::UnhandledFallible));
}

#[test]
fn undefined_function_is_reported() {
    let ast = vec![call("nope", vec![integer(1)], false)];
    let d = compile(&ast, &registry()).err().expect("fails");
    assert_eq!(d.len(), 1);
    assert_eq!(d[0].message(), name("undefined function: nope"));
}

#[test]
fn arity_mismatch_is_reported() {
    let ast = vec![call("upcase", vec![string("a"), string("b")], false)];
    let d = compile(&ast, &registry()).err().expect("fails");
    assert_eq!(d.len(), 1);
    assert!(matches!(d[0].kind, DiagnosticKind::ArityMismatch { expected: 1, given: 2 }));
    let ast = vec![call("upcase", vec![], false)];
    let d = compile(&ast, &registry()).err().expect("fails");
    assert!(matches!(d[0].kind, DiagnosticKind::ArityMismatch { expected: 1, given: 0 }));
}

#[test]
fn argument_type_mismatch_names_the_parameter() {
    let ast = vec![call("upcase", vec![integer(1)], false)];
    let d = compile(&ast, &registry()).err().expect("fails");
    assert_eq!(d.len(), 1);
    match &d[0].kind {
        DiagnosticKind::ArgumentType { parameter, given, accepts } => {
            assert_eq!(*parameter, 0);
            assert_eq!(*given, TypeDef::integer());
            assert_eq!(*accepts, TypeDef::bytes());
        },
        other => panic!("unexpected {:?}", other),
    }
}

#[test]
fn deprecated_function_warns_and_compiles() {
    let fns = vec![Function::upcase().deprecate()];
    let ast = vec![call("upcase", vec![string("abc")], false)];
    let result = compile(&ast, &fns).expect("compiles");
    assert_eq!(result.warnings.len(), 1);
    assert_eq!(result.warnings[0].severity, Severity::Warning);
    assert!(matches!(result.warnings[0].kind, DiagnosticKind::Deprecated { function: 0 }));
    let mut context = Context::new();
    let mut target = Target::new();
    assert_eq!(
        result.program.evaluate(&mut context, &mut target),
        Ok(Value::Bytes(name("ABC")))
    );
    let config = CompileConfig { deprecation_is_error: true };
    let d = compile_with_external(&ast, &fns, &ExternalEnv::new(), config).err().expect("fails");
    assert_eq!(d[0].severity, Severity::Error);
}

#[test]
fn condition_must_be_boolean() {
    let ast = vec![Node::If {
        span: at(0, 0),
        condition: Box::new(integer(1)),
        consequent: vec![integer(2)],
        alternative: vec![integer(3)],
    }];
    let d = compile(&ast, &registry()).err().expect("fails");
    assert_eq!(d.len(), 1);
    assert!(matches!(d[0].kind, DiagnosticKind::ConditionNotBoolean { .. }));
}

#[test]
fn findings_are_all_collected() {
    let ast = vec![
        var("a"),
        var("b"),
        call("parse_int", vec![string("1")], false),
    ];
    let d = compile(&ast, &registry()).err().expect("fails");
    assert_eq!(d.len(), 3);
    assert_eq!(d[0].message(), name("undefined variable: a"));
    assert_eq!(d[1].message(), name("undefined variable: b"));
    assert_eq!(d[2].message(), name("unhandled fallible operation"));
}

#[test]
fn external_schema_types_fields() {
    let mut external = ExternalEnv::new();
    external.target.insert(name("status"), TypeDef::integer());
    let ast = vec![add(Box::new(Node::Field(name("status"))), Box::new(integer(1)))];
    let result =
        compile_with_external(&ast, &registry(), &external, CompileConfig::default()).expect("compiles");
    assert_eq!(result.program.type_def, TypeDef::integer());
    let mut context = Context::new();
    let mut target = Target::new();
    target.fields.insert(name("status"), Value::Integer(200));
    assert_eq!(result.program.evaluate(&mut context, &mut target), Ok(Value::Integer(201)));
    // an undeclared field may be anything
    let ast = vec![add(Box::new(Node::Field(name("other"))), Box::new(integer(1)))];
    assert!(compile_with_external(&ast, &registry(), &external, CompileConfig::default()).is_err());
}

#[test]
fn state_carries_earlier_variables() {
    let mut state = TypeState { local: Scope::new(), external: ExternalEnv::new() };
    state.local.insert(name("n"), TypeDef::integer());
    let ast = vec![add(Box::new(var("n")), Box::new(integer(1)))];
    let result = compile_with_state(&ast, &registry(), &state, CompileConfig::default()).expect("compiles");
    assert_eq!(result.program.type_def, TypeDef::integer());
}

#[test]
fn assignments_write_variables_and_fields() {
    let ast = vec![
        Node::Assign { name: name("x"), value: Box::new(string("ab")) },
        Node::AssignField {
            name: name("out"),
            value: Box::new(add(
                Box::new(var("x")),
                Box::new(string("c")),
            )),
        },
    ];
    let result = compile(&ast, &registry()).expect("compiles");
    assert_eq!(result.program.type_def, TypeDef::bytes());
    let mut context = Context::new();
    let mut target = Target::new();
    let v = result.program.evaluate(&mut context, &mut target);
    assert_eq!(v, Ok(Value::Bytes(name("abc"))));
    assert_eq!(target.fields.get(&name("out")), Some(&Value::Bytes(name("abc"))));
    assert_eq!(context.variables.get(&name("x")), Some(&Value::Bytes(name("ab"))));
}

#[test]
fn branch_unset_in_one_arm_may_be_null() {
    let ast = vec![Node::If {
        span: at(0, 0),
        condition: Box::new(Node::Literal(Value::Boolean(false))),
        consequent: vec![Node::Assign { name: name("y"), value: Box::new(integer(1)) }],
        alternative: vec![],
    }];
    let fns = registry();
    let mut state = TypeState { local: Scope::new(), external: ExternalEnv::new() };
    let mut diags: Vec<Diagnostic> = Vec::new();
    let _ = compile_node(&ast[0], &fns, CompileConfig::default(), &mut state, &mut diags);
    let t = *state.local.get(&name("y")).expect("y is known");
    assert!(t.integer && t.null && !t.bytes);
    assert_eq!(run(&ast), Ok(Value::Null));
}

#[test]
fn empty_program_yields_null() {
    let ast: Vec<Node> = vec![];
    let result = compile(&ast, &registry()).expect("compiles");
    assert_eq!(result.program.type_def, TypeDef::null());
    assert_eq!(run(&ast), Ok(Value::Null));
}

#[test]
fn integer_addition_wraps() {
    let ast = vec![add(Box::new(integer(i64::MAX)), Box::new(integer(1)))];
    assert_eq!(run(&ast), Ok(Value::Integer(i64::MIN)));
}

#[test]
fn field_declared_without_kinds_reads_as_any() {
    let mut external = ExternalEnv::new();
    external.target.insert(name("f"), TypeDef::never());
    let ast = vec![Node::Field(name("f"))];
    let result =
        compile_with_external(&ast, &registry(), &external, CompileConfig::default()).expect("compiles");
    assert_eq!(result.program.type_def, TypeDef::any());
}

#[test]
fn union_fails_an_integer_parameter() {
    let strict = Function {
        name: name("needs_int"),
        parameters: vec![Parameter::new(name("value"), TypeDef::integer(), true)],
        deprecated: false,
        builtin: Builtin::ToInt,
    };
    let ast = vec![
        branch_assigning_string_and_integer(),
        call("needs_int", vec![var("x")], false),
    ];
    let d = compile(&ast, &vec![strict]).err().expect("fails");
    assert_eq!(d.len(), 1);
    assert_eq!(d[0].severity, Severity::Error);
    match &d[0].kind {
        DiagnosticKind::ArgumentType { parameter, given, accepts } => {
            assert_eq!(*parameter, 0);
            assert_eq!(*given, TypeDef::bytes().merge(&TypeDef::integer()));
            assert_eq!(*accepts, TypeDef::integer());
        },
        other => panic!("unexpected {:?}", other),
    }
}

#[test]
fn swapped_arms_give_the_same_types() {
    let fns = registry();
    let arm = |s: &str| vec![Node::Assign { name: name("x"), value: Box::new(string(s)) }];
    let one = Node::If {
        span: at(0, 0),
        condition: Box::new(Node::Literal(Value::Boolean(true))),
        consequent: arm("a"),
        alternative: vec![Node::Assign { name: name("y"), value: Box::new(integer(1)) }],
    };
    let two = Node::If {
        span: at(0, 0),
        condition: Box::new(Node::Literal(Value::Boolean(true))),
        consequent: vec![Node::Assign { name: name("y"), value: Box::new(integer(1)) }],
        alternative: arm("a"),
    };
    let mut s1 = TypeState { local: Scope::new(), external: ExternalEnv::new() };
    let mut s2 = TypeState { local: Scope::new(), external: ExternalEnv::new() };
    let mut d: Vec<Diagnostic> = Vec::new();
    let e1 = compile_node(&one, &fns, CompileConfig::default(), &mut s1, &mut d);
    let e2 = compile_node(&two, &fns, CompileConfig::default(), &mut s2, &mut d);
    assert_eq!(e1.type_def(), e2.type_def());
    for k in ["x", "y"] {
        assert_eq!(s1.local.get(&name(k)), s2.local.get(&name(k)));
    }
    assert!(s1.local.get(&name("x")).unwrap().null);
}

#[test]
fn findings_carry_the_span_of_their_node() {
    let ast = vec![
        Node::Variable(name("foo"), at(4, 7)),
        Node::Call { name: name("parse_int"), args: vec![string("1")], handled: false, span: at(9, 23) },
        Node::Add(Box::new(string("a")), Box::new(integer(1)), at(25, 32)),
    ];
    let d = compile(&ast, &registry()).err().expect("fails");
    assert_eq!(d.len(), 3);
    assert_eq!(d[0].span, at(4, 7));
    assert_eq!(d[1].span, at(9, 23));
    assert!(matches!(d[1].kind, DiagnosticKind::UnhandledFallible));
    assert_eq!(d[2].span, at(25, 32));
}

#[test]
fn missing_field_is_a_runtime_error() {
    let ast = vec![Node::Field(name("status"))];
    let result = compile(&ast, &registry()).expect("compiles");
    let mut context = Context::new();
    let mut target = Target::new();
    assert_eq!(
        result.program.evaluate(&mut context, &mut target),
        Err(ExpressionError::MissingField)
    );
}

#[test]
fn fallible_schema_type_is_read_as_infallible() {
    let mut external = ExternalEnv::new();
    external.target.insert(name("n"), TypeDef::integer().with_fallibility(true));
    let ast = vec![Node::Field(name("n"))];
    let result =
        compile_with_external(&ast, &registry(), &external, CompileConfig::default()).expect("compiles");
    assert_eq!(result.program.type_def, TypeDef::integer());
}
