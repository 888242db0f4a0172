use vstd::prelude::*;
use crate::diagnostic::{Diagnostic, DiagnosticKind, Severity, Span};
use crate::type_def::{
    kinds_within, spec_any, spec_bytes, spec_integer, with_fallible, TypeDef,
};
use crate::value::{decimal_of, parse_decimal, ExpressionError, Val, Value};

verus! {

/// The built-in functions that this library carries.
#[derive(Clone, Copy, Debug, PartialEq, Eq, Structural)]
pub enum Builtin {
    /// Reads a string as a decimal integer; always fallible.
    ParseInt,
    /// Turns a value into an integer; fallible only where a string may come in.
    ToInt,
    /// ASCII upper case of a string; never fails.
    Upcase,
}

/// One parameter of a function: its name, the kinds it accepts, and whether
/// a call must pass it.
#[derive(Clone, Debug)]
pub struct Parameter {
    pub keyword: Vec<u8>,
    pub accepts: TypeDef,
    pub required: bool,
}

/// A registered function.
#[derive(Clone, Debug)]
pub struct Function {
    pub name: Vec<u8>,
    pub parameters: Vec<Parameter>,
    pub deprecated: bool,
    pub builtin: Builtin,
}

/// The kinds that `to_int` turns into an integer without a chance of failure.
pub open spec fn safe_for_int() -> TypeDef {
    TypeDef { integer: true, boolean: true, null: true, ..spec_integer() }
}

/// What the function's resolver gives for arguments of the given types,
/// before the arguments' own fallibility is added.
pub open spec fn resolve(b: Builtin, args: Seq<TypeDef>) -> TypeDef {
    match b {
        Builtin::ParseInt => with_fallible(spec_integer(), true),
        Builtin::ToInt => with_fallible(
            spec_integer(),
            !(args.len() > 0 && kinds_within(args[0], safe_for_int())),
        ),
        Builtin::Upcase => spec_bytes(),
    }
}

/// Some argument type is fallible.
pub open spec fn any_fallible(args: Seq<TypeDef>) -> bool {
    exists|i: int| 0 <= i < args.len() && (#[trigger] args[i]).fallible
}

/// The number of required parameters.
pub open spec fn required_count(p: Seq<Parameter>) -> nat
    decreases p.len(),
{
    if p.len() == 0 {
        0
    } else {
        required_count(p.drop_last()) + if p.last().required { 1nat } else { 0nat }
    }
}

pub open spec fn arity_ok(f: Function, given: int) -> bool {
    required_count(f.parameters@) <= given <= f.parameters@.len()
}

/// One error for each argument among the first `n` whose kinds its parameter
/// does not all accept, in argument order.
pub open spec fn argument_errors(
    p: Seq<Parameter>,
    args: Seq<TypeDef>,
    n: int,
    span: Span,
) -> Seq<Diagnostic>
    decreases n,
{
    if n <= 0 {
        Seq::empty()
    } else {
        let before = argument_errors(p, args, n - 1, span);
        if kinds_within(args[n - 1], p[n - 1].accepts) {
            before
        } else {
            before.push(
                Diagnostic {
                    severity: Severity::Error,
                    kind: DiagnosticKind::ArgumentType {
                        parameter: (n - 1) as usize,
                        given: args[n - 1],
                        accepts: p[n - 1].accepts,
                    },
                    span,
                },
            )
        }
    }
}

/// Each of the first `n` arguments has only kinds that its parameter accepts.
pub open spec fn arguments_accepted(p: Seq<Parameter>, args: Seq<TypeDef>, n: int) -> bool
    decreases n,
{
    n <= 0 || (arguments_accepted(p, args, n - 1) && kinds_within(args[n - 1], p[n - 1].accepts))
}

/// An argument error is reported exactly when some argument is not accepted.
pub proof fn lemma_argument_errors_empty(p: Seq<Parameter>, args: Seq<TypeDef>, n: int, span: Span)
    ensures
        (argument_errors(p, args, n, span).len() == 0) == arguments_accepted(p, args, n),
    decreases n,
{
    if n > 0 {
        lemma_argument_errors_empty(p, args, n - 1, span);
    }
}

/// The findings of a call of the function at place `index` of the registry,
/// with arguments of the given types; `handled` says whether the call stands in
/// a handling form; `deprecation_is_error` is the compile option.
pub open spec fn call_diagnostics(
    f: Function,
    index: usize,
    args: Seq<TypeDef>,
    handled: bool,
    deprecation_is_error: bool,
    span: Span,
) -> Seq<Diagnostic> {
    if !arity_ok(f, args.len() as int) {
        seq![
            Diagnostic {
                severity: Severity::Error,
                kind: DiagnosticKind::ArityMismatch {
                    expected: f.parameters@.len() as usize,
                    given: args.len() as usize,
                },
                span,
            },
        ]
    } else if !arguments_accepted(f.parameters@, args, args.len() as int) {
        argument_errors(f.parameters@, args, args.len() as int, span)
    } else {
        let d: Seq<Diagnostic> = if f.deprecated {
            seq![
                Diagnostic {
                    severity: if deprecation_is_error { Severity::Error } else { Severity::Warning },
                    kind: DiagnosticKind::Deprecated { function: index },
                    span,
                },
            ]
        } else {
            Seq::empty()
        };
        if resolve(f.builtin, args).fallible && !handled {
            d.push(Diagnostic { severity: Severity::Error, kind: DiagnosticKind::UnhandledFallible, span })
        } else {
            d
        }
    }
}

/// The type of the call: what the resolver gives, fallible also where an
/// argument is; a handling form clears fallibility. A call that cannot be
/// resolved may be anything.
pub open spec fn call_type(f: Function, args: Seq<TypeDef>, handled: bool) -> TypeDef {
    if !arity_ok(f, args.len() as int) || !arguments_accepted(f.parameters@, args, args.len() as int) {
        with_fallible(spec_any(), !handled)
    } else {
        with_fallible(
            resolve(f.builtin, args),
            !handled && (resolve(f.builtin, args).fallible || any_fallible(args)),
        )
    }
}

pub open spec fn ascii_upper(c: u8) -> u8 {
    if 97 <= c <= 122 {
        (c - 32) as u8
    } else {
        c
    }
}

impl Parameter {
    pub fn new(keyword: Vec<u8>, accepts: TypeDef, required: bool) -> (r: Parameter)
        ensures
            r.keyword@ == keyword@,
            r.accepts == accepts,
            r.required == required,
    {
        Parameter { keyword, accepts, required }
    }
}

fn one_parameter(keyword: &str, accepts: TypeDef) -> (r: Vec<Parameter>)
    ensures
        r@.len() == 1,
        r@[0].keyword@ == vstd::string::StringSliceAdditionalSpecFns::spec_bytes(keyword),
        r@[0].accepts == accepts,
        r@[0].required,
{
    let mut k: Vec<u8> = Vec::new();
    crate::diagnostic::append_str(&mut k, keyword);
    let mut v: Vec<Parameter> = Vec::new();
    v.push(Parameter { keyword: k, accepts, required: true });
    v
}

fn name_of(s: &str) -> (r: Vec<u8>)
    ensures
        r@ == vstd::string::StringSliceAdditionalSpecFns::spec_bytes(s),
{
    let mut k: Vec<u8> = Vec::new();
    crate::diagnostic::append_str(&mut k, s);
    k
}

impl Function {
    /// `parse_int(value: string)`: integer, fallible.
    pub fn parse_int() -> (r: Function)
        ensures
            r.name@ == vstd::string::StringSliceAdditionalSpecFns::spec_bytes("parse_int"),
            r.builtin == Builtin::ParseInt,
            r.parameters@.len() == 1,
            r.parameters@[0].accepts == spec_bytes(),
            r.parameters@[0].required,
            r.parameters@[0].keyword@ == vstd::string::StringSliceAdditionalSpecFns::spec_bytes("value"),
            !r.deprecated,
    {
        Function {
            name: name_of("parse_int"),
            parameters: one_parameter("value", TypeDef::bytes()),
            deprecated: false,
            builtin: Builtin::ParseInt,
        }
    }

    /// `to_int(value: any)`: integer, fallible unless the value cannot be a string.
    pub fn to_int() -> (r: Function)
        ensures
            r.name@ == vstd::string::StringSliceAdditionalSpecFns::spec_bytes("to_int"),
            r.builtin == Builtin::ToInt,
            r.parameters@.len() == 1,
            r.parameters@[0].accepts == spec_any(),
            r.parameters@[0].required,
            r.parameters@[0].keyword@ == vstd::string::StringSliceAdditionalSpecFns::spec_bytes("value"),
            !r.deprecated,
    {
        Function {
            name: name_of("to_int"),
            parameters: one_parameter("value", TypeDef::any()),
            deprecated: false,
            builtin: Builtin::ToInt,
        }
    }

    /// `upcase(value: string)`: string, infallible.
    pub fn upcase() -> (r: Function)
        ensures
            r.name@ == vstd::string::StringSliceAdditionalSpecFns::spec_bytes("upcase"),
            r.builtin == Builtin::Upcase,
            r.parameters@.len() == 1,
            r.parameters@[0].accepts == spec_bytes(),
            r.parameters@[0].required,
            r.parameters@[0].keyword@ == vstd::string::StringSliceAdditionalSpecFns::spec_bytes("value"),
            !r.deprecated,
    {
        Function {
            name: name_of("upcase"),
            parameters: one_parameter("value", TypeDef::bytes()),
            deprecated: false,
            builtin: Builtin::Upcase,
        }
    }

    /// The same function, marked deprecated.
    pub fn deprecate(self) -> (r: Function)
        ensures
            r.deprecated,
            r.name == self.name,
            r.parameters == self.parameters,
            r.builtin == self.builtin,
    {
        Function { deprecated: true, ..self }
    }
}

/// The resolver: the call's type from the argument types, before the
/// arguments' own fallibility is added.
pub fn resolve_type(b: Builtin, args: &Vec<TypeDef>) -> (r: TypeDef)
    ensures
        r == resolve(b, args@),
{
    match b {
        Builtin::ParseInt => TypeDef::integer().with_fallibility(true),
        Builtin::ToInt => {
            let safe = TypeDef { integer: true, boolean: true, null: true, ..TypeDef::integer() };
            let ok = args.len() > 0 && args[0].is_subset_of(&safe);
            TypeDef::integer().with_fallibility(!ok)
        },
        Builtin::Upcase => TypeDef::bytes(),
    }
}

fn count_required(p: &Vec<Parameter>) -> (r: usize)
    ensures
        r == required_count(p@),
{
    let mut n: usize = 0;
    let mut i: usize = 0;
    while i < p.len()
        invariant
            i <= p@.len(),
            n == required_count(p@.subrange(0, i as int)),
            n <= i,
        decreases p@.len() - i,
    {
        assert(p@.subrange(0, i + 1).drop_last() == p@.subrange(0, i as int));
        if p[i].required {
            n += 1;
        }
        i += 1;
    }
    assert(p@.subrange(0, p@.len() as int) == p@);
    n
}

/// Checks a call of the function at place `index` of the registry against
/// the types of its arguments: the findings, and the call's type.
pub fn check_call(
    f: &Function,
    index: usize,
    args: &Vec<TypeDef>,
    handled: bool,
    deprecation_is_error: bool,
    span: Span,
) -> (r: (Vec<Diagnostic>, TypeDef))
    ensures
        r.0@ == call_diagnostics(*f, index, args@, handled, deprecation_is_error, span),
        r.1 == call_type(*f, args@, handled),
{
    let mut d: Vec<Diagnostic> = Vec::new();
    let required = count_required(&f.parameters);
    if args.len() < required || args.len() > f.parameters.len() {
        d.push(
            Diagnostic::error(
                DiagnosticKind::ArityMismatch { expected: f.parameters.len(), given: args.len() },
                span,
            ),
        );
        return (d, TypeDef::any().with_fallibility(!handled));
    }
    let mut i: usize = 0;
    let mut fallible_arg = false;
    while i < args.len()
        invariant
            i <= args@.len(),
            args@.len() <= f.parameters@.len(),
            d@ == argument_errors(f.parameters@, args@, i as int, span),
            fallible_arg == any_fallible(args@.subrange(0, i as int)),
        decreases args@.len() - i,
    {
        if !args[i].is_subset_of(&f.parameters[i].accepts) {
            d.push(
                Diagnostic::error(
                    DiagnosticKind::ArgumentType {
                        parameter: i,
                        given: args[i],
                        accepts: f.parameters[i].accepts,
                    },
                    span,
                ),
            );
        }
        proof {
            let s = args@.subrange(0, i + 1);
            if any_fallible(s) {
                let j = choose|j: int| 0 <= j < s.len() && (#[trigger] s[j]).fallible;
                if j < i {
                    assert(args@.subrange(0, i as int)[j].fallible);
                }
            }
            if fallible_arg {
                let j = choose|j: int| 0 <= j < i && (#[trigger] args@.subrange(0, i as int)[j]).fallible;
                assert(s[j].fallible);
            }
            if args[i as int].fallible {
                assert(s[i as int].fallible);
            }
        }
        fallible_arg = fallible_arg || args[i].fallible;
        i += 1;
    }
    assert(args@.subrange(0, args@.len() as int) == args@);
    proof {
        lemma_argument_errors_empty(f.parameters@, args@, args@.len() as int, span);
    }
    if d.len() > 0 {
        return (d, TypeDef::any().with_fallibility(!handled));
    }
    if f.deprecated {
        let severity = if deprecation_is_error { Severity::Error } else { Severity::Warning };
        d.push(Diagnostic { severity, kind: DiagnosticKind::Deprecated { function: index }, span });
    }
    let resolved = resolve_type(f.builtin, args);
    if resolved.fallible && !handled {
        d.push(Diagnostic::error(DiagnosticKind::UnhandledFallible, span));
    }
    proof {
        if !f.deprecated {
            assert(d@ =~= call_diagnostics(*f, index, args@, handled, deprecation_is_error, span));
        }
    }
    (d, resolved.with_fallibility(!handled && (resolved.fallible || fallible_arg)))
}

/// What reading a string as a decimal integer gives.
pub open spec fn read_int(s: Seq<u8>) -> Result<Val, ExpressionError> {
    match decimal_of(s) {
        Some(n) => if i64::MIN <= n <= i64::MAX {
            Ok(Val::Integer(n as i64))
        } else {
            Err(ExpressionError::InvalidInteger)
        },
        None => Err(ExpressionError::InvalidInteger),
    }
}

/// What a built-in returns on argument values; it reads the first argument.
pub open spec fn builtin_result(b: Builtin, args: Seq<Val>) -> Result<Val, ExpressionError> {
    if args.len() == 0 {
        Err(ExpressionError::WrongKind)
    } else {
        match (b, args[0]) {
            (Builtin::ParseInt, Val::Bytes(s)) => read_int(s),
            (Builtin::ToInt, Val::Integer(n)) => Ok(Val::Integer(n)),
            (Builtin::ToInt, Val::Boolean(t)) => Ok(Val::Integer(if t { 1 } else { 0 })),
            (Builtin::ToInt, Val::Null) => Ok(Val::Integer(0)),
            (Builtin::ToInt, Val::Bytes(s)) => read_int(s),
            (Builtin::Upcase, Val::Bytes(s)) => Ok(Val::Bytes(s.map_values(|c: u8| ascii_upper(c)))),
            _ => Err(ExpressionError::WrongKind),
        }
    }
}

/// The content of a runtime result.
pub open spec fn result_view(r: Result<Value, ExpressionError>) -> Result<Val, ExpressionError> {
    match r {
        Ok(v) => Ok(v@),
        Err(e) => Err(e),
    }
}

/// The contents of a sequence of values.
pub open spec fn values_view(s: Seq<Value>) -> Seq<Val> {
    s.map_values(|v: Value| v@)
}

/// Runs a built-in on argument values.
pub fn call_builtin(b: Builtin, args: &Vec<Value>) -> (r: Result<Value, ExpressionError>)
    ensures
        result_view(r) == builtin_result(b, values_view(args@)),
{
    if args.len() == 0 {
        return Err(ExpressionError::WrongKind);
    }
    match (b, &args[0]) {
        (Builtin::ParseInt, Value::Bytes(s)) => match parse_decimal(s) {
            Ok(n) => Ok(Value::Integer(n)),
            Err(e) => Err(e),
        },
        (Builtin::ParseInt, _) => Err(ExpressionError::WrongKind),
        (Builtin::ToInt, Value::Integer(n)) => Ok(Value::Integer(*n)),
        (Builtin::ToInt, Value::Boolean(t)) => Ok(Value::Integer(if *t { 1 } else { 0 })),
        (Builtin::ToInt, Value::Null) => Ok(Value::Integer(0)),
        (Builtin::ToInt, Value::Bytes(s)) => match parse_decimal(s) {
            Ok(n) => Ok(Value::Integer(n)),
            Err(e) => Err(e),
        },
        (Builtin::Upcase, Value::Bytes(s)) => {
            let mut u: Vec<u8> = Vec::new();
            let mut i: usize = 0;
            while i < s.len()
                invariant
                    i <= s@.len(),
                    u@.len() == i,
                    forall|j: int| 0 <= j < i ==> #[trigger] u@[j] == ascii_upper(s@[j]),
                decreases s@.len() - i,
            {
                let c = s[i];
                u.push(if 97 <= c && c <= 122 { c - 32 } else { c });
                i += 1;
            }
            assert(u@ == s@.map_values(|c: u8| ascii_upper(c)));
            Ok(Value::Bytes(u))
        },
        (Builtin::Upcase, _) => Err(ExpressionError::WrongKind),
    }
}

/// A call of a function whose resolver reports it fallible, outside a
/// handling form, gives exactly one "unhandled fallible operation" error,
/// and it is the call's last finding; in a handling form it gives none.
pub proof fn lemma_unhandled_fallible_rejected(
    f: Function,
    index: usize,
    args: Seq<TypeDef>,
    deprecation_is_error: bool,
    span: Span,
)
    requires
        arity_ok(f, args.len() as int),
        arguments_accepted(f.parameters@, args, args.len() as int),
        resolve(f.builtin, args).fallible,
    ensures
        ({
            let d = call_diagnostics(f, index, args, false, deprecation_is_error, span);
            &&& d.len() > 0
            &&& d.last().severity == Severity::Error
            &&& d.last().kind is UnhandledFallible
            &&& forall|i: int| 0 <= i < d.len() - 1 ==> !((#[trigger] d[i]).kind is UnhandledFallible)
        }),
        ({
            let d = call_diagnostics(f, index, args, true, deprecation_is_error, span);
            forall|i: int| 0 <= i < d.len() ==> !((#[trigger] d[i]).kind is UnhandledFallible)
        }),
{
}

} // verus!
