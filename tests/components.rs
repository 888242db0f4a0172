use vrl_compiler::ast::ParseError;
use vrl_compiler::compiler::CompileConfig;
use vrl_compiler::diagnostic::Span;
use vrl_compiler::state::{ExternalEnv, TypeState};
use vrl_compiler::function::{call_builtin, check_call, resolve_type, Builtin, Function};
use vrl_compiler::runtime::VrlRuntime;
use vrl_compiler::state::{LocalEnv, Scope};
use vrl_compiler::type_def::TypeDef;
use vrl_compiler::value::{parse_decimal, ExpressionError, Value};

fn name(s: &str) -> Vec<u8> {
    s.as_bytes().to_vec()
}

#[test]
fn merge_is_commutative_and_associative() {
    let mut a: LocalEnv = Scope::new();
    a.insert(name("x"), TypeDef::bytes());
    a.insert(name("y"), TypeDef::integer());
    let mut b: LocalEnv = Scope::new();
    b.insert(name("x"), TypeDef::integer());
    b.insert(name("z"), TypeDef::boolean().with_fallibility(true));
    let mut c: LocalEnv = Scope::new();
    c.insert(name("y"), TypeDef::bytes());
    let ab = a.merge(&b);
    let ba = b.merge(&a);
    for k in ["x", "y", "z"] {
        assert_eq!(ab.get(&name(k)), ba.get(&name(k)));
    }
    assert_eq!(*ab.get(&name("x")).unwrap(), TypeDef::bytes().merge(&TypeDef::integer()));
    assert_eq!(*ab.get(&name("y")).unwrap(), TypeDef::integer().merge(&TypeDef::null()));
    assert!(ab.get(&name("z")).unwrap().fallible);
    let left = ab.merge(&c);
    let right = a.merge(&b.merge(&c));
    for k in ["x", "y", "z"] {
        assert_eq!(left.get(&name(k)), right.get(&name(k)));
    }
    assert_eq!(left.bindings.len(), 3);
}

#[test]
fn join_unites_kinds_and_fallibility() {
    let t = TypeDef::bytes().merge(&TypeDef::integer().with_fallibility(true));
    assert!(t.bytes && t.integer && t.fallible && !t.null);
    assert!(TypeDef::integer().is_subset_of(&t));
    assert!(!t.is_subset_of(&TypeDef::integer()));
    assert_eq!(TypeDef::never().merge(&t), t);
    assert!(TypeDef::any().is_subset_of(&TypeDef::any()));
}

#[test]
fn parse_decimal_edges() {
    assert_eq!(parse_decimal(&name("0")), Ok(0));
    assert_eq!(parse_decimal(&name("9223372036854775807")), Ok(i64::MAX));
    assert_eq!(parse_decimal(&name("-9223372036854775808")), Ok(i64::MIN));
    assert_eq!(parse_decimal(&name("9223372036854775808")), Err(ExpressionError::InvalidInteger));
    assert_eq!(parse_decimal(&name("")), Err(ExpressionError::InvalidInteger));
    assert_eq!(parse_decimal(&name("-")), Err(ExpressionError::InvalidInteger));
    assert_eq!(parse_decimal(&name("12a")), Err(ExpressionError::InvalidInteger));
    assert_eq!(parse_decimal(&name("0123")), Ok(123));
}

#[test]
fn builtins_run() {
    assert_eq!(call_builtin(Builtin::Upcase, &vec![Value::Bytes(name("aZ1"))]), Ok(Value::Bytes(name("AZ1"))));
    assert_eq!(call_builtin(Builtin::Upcase, &vec![Value::Null]), Err(ExpressionError::WrongKind));
    assert_eq!(call_builtin(Builtin::ToInt, &vec![Value::Null]), Ok(Value::Integer(0)));
    assert_eq!(call_builtin(Builtin::ToInt, &vec![Value::Bytes(name("x"))]), Err(ExpressionError::InvalidInteger));
    assert_eq!(call_builtin(Builtin::ParseInt, &vec![Value::Integer(3)]), Err(ExpressionError::WrongKind));
    assert_eq!(call_builtin(Builtin::ParseInt, &vec![]), Err(ExpressionError::WrongKind));
}

#[test]
fn resolver_results() {
    assert!(resolve_type(Builtin::ParseInt, &vec![TypeDef::bytes()]).fallible);
    assert!(!resolve_type(Builtin::ToInt, &vec![TypeDef::integer()]).fallible);
    assert!(resolve_type(Builtin::ToInt, &vec![TypeDef::any()]).fallible);
    assert_eq!(resolve_type(Builtin::Upcase, &vec![TypeDef::bytes()]), TypeDef::bytes());
}

#[test]
fn check_call_handled_clears_fallibility() {
    let f = Function::parse_int();
    let (d, t) = check_call(&f, 0, &vec![TypeDef::bytes()], true, false, Span { start: 0, end: 9 });
    assert!(d.is_empty());
    assert!(!t.fallible && t.integer);
    let (d, t) = check_call(&f, 0, &vec![TypeDef::bytes()], false, false, Span { start: 0, end: 9 });
    assert_eq!(d.len(), 1);
    assert!(t.fallible);
}

#[test]
fn runtime_selection() {
    assert_eq!("ast".parse::<VrlRuntime>(), Ok(VrlRuntime::Ast));
    assert_eq!("bytecode".parse::<VrlRuntime>(), Err("runtime must be ast."));
    assert_eq!(VrlRuntime::parse("AST"), Err("runtime must be ast."));
    assert_eq!(VrlRuntime::default(), VrlRuntime::Ast);
    assert_eq!(VrlRuntime::Ast.as_str(), "ast");
}

#[test]
fn malformed_source_is_one_finding() {
    let state = TypeState { local: Scope::new(), external: ExternalEnv::new() };
    let fns = vec![Function::upcase()];
    let refused = ParseError { message: name("unexpected end of input"), span: Span { start: 3, end: 3 } };
    let d = vrl_compiler::compile_parsed(Err(refused), &fns, &state, CompileConfig::default())
        .err()
        .expect("fails");
    assert_eq!(d.len(), 1);
    assert_eq!(d[0].message(), name("malformed source: unexpected end of input"));
    assert_eq!(d[0].span, Span { start: 3, end: 3 });
    let ok = vrl_compiler::compile_parsed(Ok(vec![]), &fns, &state, CompileConfig::default());
    assert!(ok.is_ok());
}

#[test]
fn from_str_is_exact() {
    assert_eq!("".parse::<VrlRuntime>(), Err("runtime must be ast."));
    assert_eq!("ast ".parse::<VrlRuntime>(), Err("runtime must be ast."));
    let f = Function::parse_int();
    assert_eq!(f.parameters[0].keyword, name("value"));
}
