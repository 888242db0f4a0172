use vstd::prelude::*;
use crate::ast::{Node, ParseError};
use crate::compiler::{
    block_type_of, check_block, compile_block, error_since, has_invalid, mirrors, typed_as, types_of,
    CompileConfig,
};
use crate::diagnostic::{views, Diagnostic, DiagnosticKind, DiagnosticView, Severity};
use crate::expression::{block_type, flows, Expr};
use crate::function::{builtin_result, call_builtin, result_view, values_view, Function};
use crate::state::{ExternalEnv, Scope, TypeState};
use crate::type_def::{has_kind, TypeDef};
use crate::value::{ExpressionError, Val, Value};

verus! {

/// A type-checked program: its statements and the type of its result.
#[derive(Debug)]
pub struct Program {
    pub statements: Vec<Expr>,
    pub type_def: TypeDef,
}

/// A program together with the warnings that its compilation gave.
#[derive(Debug)]
pub struct CompilationResult {
    pub program: Program,
    pub warnings: Vec<Diagnostic>,
    pub config: CompileConfig,
}

/// A program as compilation hands it out.
pub open spec fn well_typed(p: Program) -> bool {
    &&& p.type_def == block_type(p.statements@)
    &&& forall|i: int| 0 <= i < p.statements@.len() ==> flows(#[trigger] p.statements@[i])
}

/// Per-evaluation state: the values of local variables.
#[derive(Debug)]
pub struct Context {
    pub variables: Scope<Value>,
}

/// The event that a program reads and changes: its top-level fields.
#[derive(Debug)]
pub struct Target {
    pub fields: Scope<Value>,
}

impl Context {
    pub fn new() -> (r: Context)
        ensures
            r.variables.wf(),
            r.variables.view() == Map::<Seq<u8>, Value>::empty(),
    {
        Context { variables: Scope::new() }
    }
}

impl Target {
    pub fn new() -> (r: Target)
        ensures
            r.fields.wf(),
            r.fields.view() == Map::<Seq<u8>, Value>::empty(),
    {
        Target { fields: Scope::new() }
    }
}

/// Some finding is an error.
pub open spec fn any_error(d: Seq<DiagnosticView>) -> bool {
    exists|i: int| 0 <= i < d.len() && (#[trigger] d[i]).severity == Severity::Error
}

/// What compiling `ast` from variable types `local` and event schema `ext`
/// gives: success exactly when the findings hold no error; the findings
/// are handed back either way, and on success the statements have the
/// types that checking gives, each compiled from its node with no
/// placeholder left in it and every part typed as checking types it at
/// its point, and the result type admits at least one kind.
pub open spec fn compile_outcome(
    r: Result<CompilationResult, Vec<Diagnostic>>,
    ast: Vec<Node>,
    fns: Seq<Function>,
    local: Map<Seq<u8>, TypeDef>,
    ext: Map<Seq<u8>, TypeDef>,
    config: CompileConfig,
) -> bool {
    let (d, l, ts) = check_block(ast, ast@.len() as nat, fns, config, local, ext);
    match r {
        Ok(c) => {
            &&& !any_error(d)
            &&& views(c.warnings@) == d
            &&& types_of(c.program.statements@) == ts
            &&& c.program.statements@.len() == ast@.len()
            &&& forall|i: int|
                0 <= i < ast@.len() ==> mirrors(#[trigger] ast@[i], c.program.statements@[i], fns)
            &&& forall|i: int| 0 <= i < ast@.len() ==> !has_invalid(#[trigger] c.program.statements@[i])
            &&& forall|i: int|
                0 <= i < ast@.len() ==> typed_as(
                    #[trigger] ast@[i],
                    c.program.statements@[i],
                    fns,
                    config,
                    check_block(ast, i as nat, fns, config, local, ext).1,
                    ext,
                )
            &&& well_typed(c.program)
            &&& has_kind(c.program.type_def)
            &&& c.config == config
        },
        Err(e) => any_error(d) && views(e@) == d,
    }
}

/// Compiling is a function of its inputs: two compilations of the same tree
/// with the same functions, starting types and options both succeed or both
/// fail, with the same findings, and on success with the same number of
/// statements, each compiled from the same node with every part of the
/// same type, and
/// the same result type.
pub proof fn lemma_compile_idempotent(
    r1: Result<CompilationResult, Vec<Diagnostic>>,
    r2: Result<CompilationResult, Vec<Diagnostic>>,
    ast: Vec<Node>,
    fns: Seq<Function>,
    local: Map<Seq<u8>, TypeDef>,
    ext: Map<Seq<u8>, TypeDef>,
    config: CompileConfig,
)
    requires
        compile_outcome(r1, ast, fns, local, ext, config),
        compile_outcome(r2, ast, fns, local, ext, config),
    ensures
        r1 is Ok <==> r2 is Ok,
        r1 is Ok ==> views(r1->Ok_0.warnings@) == views(r2->Ok_0.warnings@)
            && types_of(r1->Ok_0.program.statements@) == types_of(r2->Ok_0.program.statements@)
            && r1->Ok_0.program.type_def == r2->Ok_0.program.type_def
            && r1->Ok_0.program.statements@.len() == r2->Ok_0.program.statements@.len()
            && forall|i: int| 0 <= i < r1->Ok_0.program.statements@.len() ==> {
                &&& mirrors(ast@[i], #[trigger] r1->Ok_0.program.statements@[i], fns)
                &&& mirrors(ast@[i], r2->Ok_0.program.statements@[i], fns)
                &&& !has_invalid(r1->Ok_0.program.statements@[i])
                &&& !has_invalid(r2->Ok_0.program.statements@[i])
                &&& typed_as(ast@[i], r1->Ok_0.program.statements@[i], fns, config, check_block(ast, i as nat, fns, config, local, ext).1, ext)
                &&& typed_as(ast@[i], r2->Ok_0.program.statements@[i], fns, config, check_block(ast, i as nat, fns, config, local, ext).1, ext)
            },
        r1 is Err ==> views(r1->Err_0@) == views(r2->Err_0@),
{
    if r1 is Ok {
        crate::compiler::lemma_block_type_of_types(r1->Ok_0.program.statements@);
        crate::compiler::lemma_block_type_of_types(r2->Ok_0.program.statements@);
    }
}

/// Compiles a syntax tree against a full type state.
pub fn compile_with_state(
    ast: &Vec<Node>,
    fns: &Vec<Function>,
    state: &TypeState,
    config: CompileConfig,
) -> (r: Result<CompilationResult, Vec<Diagnostic>>)
    requires
        state.wf(),
    ensures
        compile_outcome(r, *ast, fns@, state.local.view(), state.external.target.view(), config),
{
    let mut s = TypeState {
        local: state.local.clone_env(),
        external: ExternalEnv { target: state.external.target.clone_env() },
    };
    let mut diags: Vec<Diagnostic> = Vec::new();
    let statements = compile_block(ast, fns, config, &mut s, &mut diags);
    let ghost d = check_block(*ast, ast@.len() as nat, fns@, config, state.local.view(), state.external.target.view()).0;
    assert(views(diags@) == d) by {
        assert(views(Seq::<Diagnostic>::empty()) + d =~= d);
    }
    let mut i: usize = 0;
    while i < diags.len()
        invariant
            i <= diags@.len(),
            views(diags@) == d,
            d == check_block(*ast, ast@.len() as nat, fns@, config, state.local.view(), state.external.target.view()).0,
            forall|j: int| 0 <= j < i ==> !(#[trigger] diags@[j]).is_error_spec(),
        decreases diags@.len() - i,
    {
        if diags[i].is_error() {
            assert(d[i as int].severity == Severity::Error);
            return Err(diags);
        }
        i += 1;
    }
    assert(!error_since(diags@, 0)) by {
        if error_since(diags@, 0) {
            let j = choose|j: int| 0 <= j < diags@.len() && (#[trigger] diags@[j]).severity == Severity::Error;
            assert(diags@[j].is_error_spec());
        }
    }
    assert(!any_error(d)) by {
        if any_error(d) {
            let j = choose|j: int| 0 <= j < d.len() && (#[trigger] d[j]).severity == Severity::Error;
            assert(diags@[j].is_error_spec());
        }
    }
    let type_def = block_type_of(&statements);
    proof {
        crate::compiler::lemma_check_block_has_kind(*ast, ast@.len() as nat, fns@, config, state.local.view(), state.external.target.view());
        crate::compiler::lemma_block_type_of_types(statements@);
        let ts = types_of(statements@);
        if ts.len() > 0 {
            assert(has_kind(ts[ts.len() - 1]));
        }
    }
    Ok(CompilationResult { program: Program { statements, type_def }, warnings: diags, config })
}

/// Compiles what the parser handed over: a syntax tree, or the parser's
/// error, which becomes the one finding, at the parser's span, and stops
/// compilation there.
pub fn compile_parsed(
    parsed: Result<Vec<Node>, ParseError>,
    fns: &Vec<Function>,
    state: &TypeState,
    config: CompileConfig,
) -> (r: Result<CompilationResult, Vec<Diagnostic>>)
    requires
        state.wf(),
    ensures
        parsed matches Err(p) ==> (r matches Err(d) && d@.len() == 1 && d@[0].severity
            == Severity::Error && d@[0].span == p.span && (d@[0].kind matches DiagnosticKind::Malformed(
            n,
        ) && n@ == p.message@)),
        parsed matches Ok(ast) ==> compile_outcome(
            r,
            ast,
            fns@,
            state.local.view(),
            state.external.target.view(),
            config,
        ),
{
    match parsed {
        Ok(ast) => compile_with_state(&ast, fns, state, config),
        Err(p) => {
            let mut d: Vec<Diagnostic> = Vec::new();
            d.push(Diagnostic::error(DiagnosticKind::Malformed(p.message), p.span));
            Err(d)
        },
    }
}

/// Compiles a syntax tree against the assumed schema of the event.
pub fn compile_with_external(
    ast: &Vec<Node>,
    fns: &Vec<Function>,
    external: &ExternalEnv,
    config: CompileConfig,
) -> (r: Result<CompilationResult, Vec<Diagnostic>>)
    requires
        external.target.wf(),
    ensures
        compile_outcome(r, *ast, fns@, Map::empty(), external.target.view(), config),
{
    let state = TypeState {
        local: Scope::new(),
        external: ExternalEnv { target: external.target.clone_env() },
    };
    compile_with_state(ast, fns, &state, config)
}

/// Compiles a syntax tree with no assumed schema and the default options.
pub fn compile(ast: &Vec<Node>, fns: &Vec<Function>) -> (r: Result<
    CompilationResult,
    Vec<Diagnostic>,
>)
    ensures
        compile_outcome(
            r,
            *ast,
            fns@,
            Map::empty(),
            Map::empty(),
            CompileConfig { deprecation_is_error: false },
        ),
{
    let external = ExternalEnv::new();
    compile_with_external(ast, fns, &external, CompileConfig { deprecation_is_error: false })
}

/// What `a + b` gives: integers add with wrap-around, strings concatenate.
pub open spec fn add_result(a: Val, b: Val) -> Result<Val, ExpressionError> {
    match (a, b) {
        (Val::Integer(x), Val::Integer(y)) => Ok(Val::Integer(x.wrapping_add(y))),
        (Val::Bytes(x), Val::Bytes(y)) => Ok(Val::Bytes(x + y)),
        _ => Err(ExpressionError::WrongKind),
    }
}

/// What evaluation reads and writes: local variables and the event's fields.
pub type Store = (Map<Seq<u8>, Val>, Map<Seq<u8>, Val>);

/// The contents of the runtime variables and the event.
pub open spec fn store_of(vars: Scope<Value>, target: Scope<Value>) -> Store {
    (vars.view().map_values(|v: Value| v@), target.view().map_values(|v: Value| v@))
}

/// A name's value, null where it is unset.
pub open spec fn lookup(m: Map<Seq<u8>, Val>, k: Seq<u8>) -> Val {
    if m.contains_key(k) {
        m[k]
    } else {
        Val::Null
    }
}

/// What evaluating an expression gives, and the store after it.
pub open spec fn eval(e: Expr, st: Store) -> (Result<Val, ExpressionError>, Store)
    decreases e, 0nat,
{
    match e {
        Expr::Literal { value } => (Ok(value@), st),
        Expr::Variable { name, .. } => (Ok(lookup(st.0, name@)), st),
        Expr::Field { name, .. } => if st.1.contains_key(name@) {
            (Ok(st.1[name@]), st)
        } else {
            (Err(ExpressionError::MissingField), st)
        },
        Expr::Add { lhs, rhs, .. } => {
            let (a, s1) = eval(*lhs, st);
            match a {
                Err(x) => (Err(x), s1),
                Ok(av) => {
                    let (b, s2) = eval(*rhs, s1);
                    match b {
                        Err(x) => (Err(x), s2),
                        Ok(bv) => (add_result(av, bv), s2),
                    }
                },
            }
        },
        Expr::Call { builtin, args, .. } => {
            let (vs, s1) = eval_list(args, args@.len() as nat, st);
            match vs {
                Err(x) => (Err(x), s1),
                Ok(v) => (builtin_result(builtin, v), s1),
            }
        },
        Expr::Assign { name, value, .. } => {
            let (v, s1) = eval(*value, st);
            match v {
                Err(x) => (Err(x), s1),
                Ok(x) => (Ok(x), (s1.0.insert(name@, x), s1.1)),
            }
        },
        Expr::AssignField { name, value, .. } => {
            let (v, s1) = eval(*value, st);
            match v {
                Err(x) => (Err(x), s1),
                Ok(x) => (Ok(x), (s1.0, s1.1.insert(name@, x))),
            }
        },
        Expr::If { condition, consequent, alternative, .. } => {
            let (c, s1) = eval(*condition, st);
            match c {
                Err(x) => (Err(x), s1),
                Ok(Val::Boolean(true)) => eval_block(consequent, consequent@.len() as nat, s1),
                Ok(Val::Boolean(false)) => eval_block(alternative, alternative@.len() as nat, s1),
                Ok(_) => (Err(ExpressionError::WrongKind), s1),
            }
        },
        Expr::Invalid { .. } => (Err(ExpressionError::WrongKind), st),
    }
}

/// The values of the first `n` expressions, evaluated in order; the first
/// error stops it.
pub open spec fn eval_list(s: Vec<Expr>, n: nat, st: Store) -> (
    Result<Seq<Val>, ExpressionError>,
    Store,
)
    decreases s, n,
{
    if n == 0 || n > s@.len() {
        (Ok(Seq::empty()), st)
    } else {
        let (r, s1) = eval_list(s, (n - 1) as nat, st);
        match r {
            Err(x) => (Err(x), s1),
            Ok(vs) => {
                proof {
                    vstd::std_specs::vec::axiom_vec_index_decreases(s, n - 1);
                }
                let (v, s2) = eval(s@[n - 1], s1);
                match v {
                    Err(x) => (Err(x), s2),
                    Ok(x) => (Ok(vs.push(x)), s2),
                }
            },
        }
    }
}

/// The value of a block of `n` statements: the last one's, null when empty.
pub open spec fn eval_block(s: Vec<Expr>, n: nat, st: Store) -> (Result<Val, ExpressionError>, Store)
    decreases s, n,
{
    if n == 0 || n > s@.len() {
        (Ok(Val::Null), st)
    } else {
        let (r, s1) = eval_block(s, (n - 1) as nat, st);
        match r {
            Err(x) => (Err(x), s1),
            Ok(_) => {
                proof {
                    vstd::std_specs::vec::axiom_vec_index_decreases(s, n - 1);
                }
                eval(s@[n - 1], s1)
            },
        }
    }
}

/// `a + b` on values.
pub fn add_values(a: &Value, b: &Value) -> (r: Result<Value, ExpressionError>)
    ensures
        result_view(r) == add_result(a@, b@),
{
    match (a, b) {
        (Value::Integer(x), Value::Integer(y)) => Ok(Value::Integer(x.wrapping_add(*y))),
        (Value::Bytes(x), Value::Bytes(y)) => {
            let mut z: Vec<u8> = Vec::new();
            crate::diagnostic::append_bytes(&mut z, x);
            crate::diagnostic::append_bytes(&mut z, y);
            assert(z@ == x@ + y@);
            Ok(Value::Bytes(z))
        },
        _ => Err(ExpressionError::WrongKind),
    }
}

fn copy_name(v: &Vec<u8>) -> (r: Vec<u8>)
    ensures
        r@ == v@,
{
    let mut r: Vec<u8> = Vec::new();
    crate::diagnostic::append_bytes(&mut r, v);
    r
}

proof fn lemma_store_insert(m: Map<Seq<u8>, Value>, k: Seq<u8>, v: Value)
    ensures
        m.insert(k, v).map_values(|x: Value| x@) == m.map_values(|x: Value| x@).insert(k, v@),
{
    assert(m.insert(k, v).map_values(|x: Value| x@) =~= m.map_values(|x: Value| x@).insert(k, v@));
}

proof fn lemma_store_lookup(m: Map<Seq<u8>, Value>, k: Seq<u8>)
    ensures
        lookup(m.map_values(|x: Value| x@), k) == if m.contains_key(k) { m[k]@ } else { Val::Null },
{
}

proof fn lemma_list_error_stays(s: Vec<Expr>, k: nat, n: nat, st: Store)
    requires
        k <= n <= s@.len(),
        eval_list(s, k, st).0 is Err,
    ensures
        eval_list(s, n, st) == eval_list(s, k, st),
    decreases n - k,
{
    if k < n {
        lemma_list_error_stays(s, k, (n - 1) as nat, st);
    }
}

proof fn lemma_block_error_stays(s: Vec<Expr>, k: nat, n: nat, st: Store)
    requires
        k <= n <= s@.len(),
        eval_block(s, k, st).0 is Err,
    ensures
        eval_block(s, n, st) == eval_block(s, k, st),
    decreases n - k,
{
    if k < n {
        lemma_block_error_stays(s, k, (n - 1) as nat, st);
    }
}

/// Evaluates one expression.
pub fn evaluate_expr(e: &Expr, vars: &mut Scope<Value>, target: &mut Scope<Value>) -> (r: Result<
    Value,
    ExpressionError,
>)
    requires
        old(vars).wf(),
        old(target).wf(),
    ensures
        final(vars).wf(),
        final(target).wf(),
        (result_view(r), store_of(*final(vars), *final(target))) == eval(*e, store_of(*old(vars), *old(target))),
    decreases e,
{
    match e {
        Expr::Literal { value } => Ok(value.copy()),
        Expr::Variable { name, .. } => {
            proof {
                lemma_store_lookup(vars.view(), name@);
            }
            match vars.get(name) {
                Some(v) => Ok(v.copy()),
                None => Ok(Value::Null),
            }
        },
        Expr::Field { name, .. } => {
            proof {
                lemma_store_lookup(target.view(), name@);
            }
            match target.get(name) {
                Some(v) => Ok(v.copy()),
                None => Err(ExpressionError::MissingField),
            }
        },
        Expr::Add { lhs, rhs, .. } => {
            let a = evaluate_expr(lhs, vars, target)?;
            let b = evaluate_expr(rhs, vars, target)?;
            add_values(&a, &b)
        },
        Expr::Call { builtin, args, .. } => {
            let values = evaluate_list(args, vars, target)?;
            call_builtin(*builtin, &values)
        },
        Expr::Assign { name, value, .. } => {
            let v = evaluate_expr(value, vars, target)?;
            let c = v.copy();
            proof {
                lemma_store_insert(vars.view(), name@, c);
            }
            vars.insert(copy_name(name), c);
            Ok(v)
        },
        Expr::AssignField { name, value, .. } => {
            let v = evaluate_expr(value, vars, target)?;
            let c = v.copy();
            proof {
                lemma_store_insert(target.view(), name@, c);
            }
            target.insert(copy_name(name), c);
            Ok(v)
        },
        Expr::If { condition, consequent, alternative, .. } => {
            let c = evaluate_expr(condition, vars, target)?;
            match c {
                Value::Boolean(true) => evaluate_block(consequent, vars, target),
                Value::Boolean(false) => evaluate_block(alternative, vars, target),
                _ => Err(ExpressionError::WrongKind),
            }
        },
        Expr::Invalid { .. } => Err(ExpressionError::WrongKind),
    }
}

/// Evaluates expressions in order and keeps every value; the first error stops it.
pub fn evaluate_list(s: &Vec<Expr>, vars: &mut Scope<Value>, target: &mut Scope<Value>) -> (r: Result<
    Vec<Value>,
    ExpressionError,
>)
    requires
        old(vars).wf(),
        old(target).wf(),
    ensures
        final(vars).wf(),
        final(target).wf(),
        ({
            let (spec_r, spec_st) = eval_list(*s, s@.len() as nat, store_of(*old(vars), *old(target)));
            &&& spec_st == store_of(*final(vars), *final(target))
            &&& match r {
                Ok(v) => spec_r == Ok::<Seq<Val>, ExpressionError>(values_view(v@)),
                Err(x) => spec_r == Err::<Seq<Val>, ExpressionError>(x),
            }
        }),
    decreases s,
{
    let ghost st0 = store_of(*vars, *target);
    let mut out: Vec<Value> = Vec::new();
    assert(values_view(out@) =~= Seq::<Val>::empty());
    let mut i: usize = 0;
    while i < s.len()
        invariant
            vars.wf(),
            target.wf(),
            i <= s@.len(),
            st0 == store_of(*old(vars), *old(target)),
            eval_list(*s, i as nat, st0) == (Ok::<Seq<Val>, ExpressionError>(values_view(out@)), store_of(*vars, *target)),
        decreases s@.len() - i,
    {
        proof {
            vstd::std_specs::vec::axiom_vec_index_decreases(*s, i as int);
        }
        let ghost before = out@;
        let v = match evaluate_expr(&s[i], vars, target) {
            Ok(v) => v,
            Err(x) => {
                proof {
                    assert(eval_list(*s, (i + 1) as nat, st0) == (Err::<Seq<Val>, ExpressionError>(x), store_of(*vars, *target)));
                    lemma_list_error_stays(*s, (i + 1) as nat, s@.len() as nat, st0);
                }
                return Err(x);
            },
        };
        out.push(v);
        proof {
            assert(values_view(out@) =~= values_view(before).push(v@));
        }
        i += 1;
    }
    Ok(out)
}

/// Evaluates a block: each statement in order, yielding the last one's
/// value, or null for an empty block.
pub fn evaluate_block(s: &Vec<Expr>, vars: &mut Scope<Value>, target: &mut Scope<Value>) -> (r: Result<
    Value,
    ExpressionError,
>)
    requires
        old(vars).wf(),
        old(target).wf(),
    ensures
        final(vars).wf(),
        final(target).wf(),
        (result_view(r), store_of(*final(vars), *final(target))) == eval_block(*s, s@.len() as nat, store_of(*old(vars), *old(target))),
    decreases s,
{
    let ghost st0 = store_of(*vars, *target);
    let mut last = Value::Null;
    let mut i: usize = 0;
    while i < s.len()
        invariant
            vars.wf(),
            target.wf(),
            i <= s@.len(),
            st0 == store_of(*old(vars), *old(target)),
            eval_block(*s, i as nat, st0) == (Ok::<Val, ExpressionError>(last@), store_of(*vars, *target)),
        decreases s@.len() - i,
    {
        proof {
            vstd::std_specs::vec::axiom_vec_index_decreases(*s, i as int);
        }
        last = match evaluate_expr(&s[i], vars, target) {
            Ok(v) => v,
            Err(x) => {
                proof {
                    assert(eval_block(*s, (i + 1) as nat, st0) == (Err::<Val, ExpressionError>(x), store_of(*vars, *target)));
                    lemma_block_error_stays(*s, (i + 1) as nat, s@.len() as nat, st0);
                }
                return Err(x);
            },
        };
        i += 1;
    }
    Ok(last)
}

impl Program {
    /// Runs the program against an event, with the given context.
    pub fn evaluate(&self, context: &mut Context, target: &mut Target) -> (r: Result<
        Value,
        ExpressionError,
    >)
        requires
            old(context).variables.wf(),
            old(target).fields.wf(),
        ensures
            final(context).variables.wf(),
            final(target).fields.wf(),
            (result_view(r), store_of(final(context).variables, final(target).fields)) == eval_block(
                self.statements,
                self.statements@.len() as nat,
                store_of(old(context).variables, old(target).fields),
            ),
    {
        evaluate_block(&self.statements, &mut context.variables, &mut target.fields)
    }
}

} // verus!
