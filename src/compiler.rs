use vstd::prelude::*;
use crate::ast::Node;
use crate::diagnostic::{
    lemma_views_add, lemma_views_push, views, Diagnostic, DiagnosticKind, DiagnosticView, KindView,
    Severity, Span,
};
use crate::expression::{block_type, flows, some_fallible, type_of, Expr};
use crate::function::{
    arguments_accepted, arity_ok, call_diagnostics, call_type, check_call, lemma_unhandled_fallible_rejected,
    resolve, Function,
};
use crate::state::{bytes_eq, lemma_merge_commutative, merge_maps, ExternalEnv, TypeState};
use crate::type_def::{
    finished, has_kind, join, kinds_within, lemma_join_commutative, spec_any, spec_boolean, spec_bytes, spec_integer, spec_null,
    with_fallible, TypeDef,
};
use crate::value::value_type;

verus! {

/// Options read once when compilation starts.
#[derive(Clone, Copy, Debug, PartialEq, Eq, Structural)]
pub struct CompileConfig {
    /// Report a call of a deprecated function as an error instead of a warning.
    pub deprecation_is_error: bool,
}

impl Default for CompileConfig {
    fn default() -> (r: CompileConfig)
        ensures
            !r.deprecation_is_error,
    {
        CompileConfig { deprecation_is_error: false }
    }
}

/// `new` is `old` with findings appended.
pub open spec fn extends(new: Seq<Diagnostic>, old: Seq<Diagnostic>) -> bool {
    new.len() >= old.len() && new.subrange(0, old.len() as int) == old
}

proof fn lemma_extends_refl(a: Seq<Diagnostic>)
    ensures
        extends(a, a),
{
    assert(a.subrange(0, a.len() as int) == a);
}

proof fn lemma_extends_trans(a: Seq<Diagnostic>, b: Seq<Diagnostic>, c: Seq<Diagnostic>)
    requires
        extends(b, a),
        extends(c, b),
    ensures
        extends(c, a),
{
    assert(c.subrange(0, a.len() as int) == c.subrange(0, b.len() as int).subrange(0, a.len() as int));
}

/// The type of `lhs + rhs`: integers add to an integer, strings concatenate.
pub open spec fn add_type(l: TypeDef, r: TypeDef) -> TypeDef {
    if kinds_within(l, spec_integer()) && kinds_within(r, spec_integer()) {
        with_fallible(spec_integer(), l.fallible || r.fallible)
    } else if kinds_within(l, spec_bytes()) && kinds_within(r, spec_bytes()) {
        with_fallible(spec_bytes(), l.fallible || r.fallible)
    } else {
        with_fallible(spec_any(), l.fallible || r.fallible)
    }
}

pub open spec fn add_ok(l: TypeDef, r: TypeDef) -> bool {
    (kinds_within(l, spec_integer()) && kinds_within(r, spec_integer())) || (kinds_within(
        l,
        spec_bytes(),
    ) && kinds_within(r, spec_bytes()))
}

/// The types of a sequence of expressions.
pub open spec fn types_of(s: Seq<Expr>) -> Seq<TypeDef> {
    s.map_values(|e: Expr| type_of(e))
}

/// The index of the first function of the registry with that name.
pub open spec fn first_named(fns: Seq<Function>, name: Seq<u8>, i: int) -> bool {
    0 <= i < fns.len() && fns[i].name@ == name && forall|j: int|
        0 <= j < i ==> (#[trigger] fns[j]).name@ != name
}

fn find_function(fns: &Vec<Function>, name: &Vec<u8>) -> (r: Option<usize>)
    ensures
        match r {
            Some(i) => first_named(fns@, name@, i as int),
            None => forall|j: int| 0 <= j < fns@.len() ==> (#[trigger] fns@[j]).name@ != name@,
        },
{
    let mut i: usize = 0;
    while i < fns.len()
        invariant
            i <= fns@.len(),
            forall|j: int| 0 <= j < i ==> (#[trigger] fns@[j]).name@ != name@,
        decreases fns@.len() - i,
    {
        if bytes_eq(&fns[i].name, name) {
            return Some(i);
        }
        i += 1;
    }
    None
}

fn copy_bytes(v: &Vec<u8>) -> (r: Vec<u8>)
    ensures
        r@ == v@,
{
    let mut r: Vec<u8> = Vec::new();
    crate::diagnostic::append_bytes(&mut r, v);
    r
}

/// The type of a block from its statements' types: the last one's, fallible
/// where any is; null when empty.
pub open spec fn types_block(ts: Seq<TypeDef>) -> TypeDef {
    if ts.len() == 0 {
        spec_null()
    } else {
        with_fallible(ts.last(), exists|i: int| 0 <= i < ts.len() && (#[trigger] ts[i]).fallible)
    }
}

/// The type of a block is the block type of its statements' types.
pub proof fn lemma_block_type_of_types(s: Seq<Expr>)
    ensures
        block_type(s) == types_block(types_of(s)),
{
    let ts = types_of(s);
    if s.len() > 0 {
        if some_fallible(s) {
            let j = choose|j: int| 0 <= j < s.len() && type_of(#[trigger] s[j]).fallible;
            assert(ts[j].fallible);
        }
        if exists|i: int| 0 <= i < ts.len() && (#[trigger] ts[i]).fallible {
            let j = choose|j: int| 0 <= j < ts.len() && (#[trigger] ts[j]).fallible;
            assert(type_of(s[j]).fallible);
        }
    }
}

/// The registry index that a call of `name` resolves to.
pub open spec fn resolved_index(fns: Seq<Function>, name: Seq<u8>) -> Option<int> {
    if exists|i: int| first_named(fns, name, i) {
        Some(choose|i: int| first_named(fns, name, i))
    } else {
        None
    }
}

proof fn lemma_first_named_unique(fns: Seq<Function>, name: Seq<u8>, i: int)
    requires
        first_named(fns, name, i),
    ensures
        resolved_index(fns, name) == Some(i),
{
    let j = choose|j: int| first_named(fns, name, j);
    if j < i {
        assert(fns[j].name@ != name);
    } else if i < j {
        assert(fns[i].name@ != name);
    }
}

pub open spec fn one_error(kind: KindView, span: Span) -> Seq<DiagnosticView> {
    seq![DiagnosticView { severity: Severity::Error, kind, span }]
}

/// What checking a node against variable types `local` and event schema `ext`
/// gives: the findings, the variable types after it, and the node's type.
pub open spec fn check(
    n: Node,
    fns: Seq<Function>,
    cfg: CompileConfig,
    local: Map<Seq<u8>, TypeDef>,
    ext: Map<Seq<u8>, TypeDef>,
) -> (Seq<DiagnosticView>, Map<Seq<u8>, TypeDef>, TypeDef)
    decreases n, 0nat,
{
    match n {
        Node::Literal(v) => (Seq::empty(), local, value_type(v)),
        Node::Variable(name, span) => if local.contains_key(name@) {
            (Seq::empty(), local, finished(local[name@]))
        } else {
            (one_error(KindView::UndefinedVariable(name@), span), local, spec_any())
        },
        Node::Field(name) => (
            Seq::empty(),
            local,
            if ext.contains_key(name@) {
                finished(ext[name@])
            } else {
                spec_any()
            },
        ),
        Node::Add(l, r, span) => {
            let (d1, l1, t1) = check(*l, fns, cfg, local, ext);
            let (d2, l2, t2) = check(*r, fns, cfg, l1, ext);
            let d3 = if add_ok(t1, t2) {
                Seq::empty()
            } else {
                one_error(KindView::OperandMismatch { lhs: t1, rhs: t2 }, span)
            };
            (d1 + d2 + d3, l2, add_type(t1, t2))
        },
        Node::Call { name, args, handled, span } => {
            let (d1, l1, ts) = check_block(args, args@.len() as nat, fns, cfg, local, ext);
            match resolved_index(fns, name@) {
                Some(i) => (
                    d1 + views(
                        call_diagnostics(fns[i], i as usize, ts, handled, cfg.deprecation_is_error, span),
                    ),
                    l1,
                    call_type(fns[i], ts, handled),
                ),
                None => (
                    d1 + one_error(KindView::UndefinedFunction(name@), span),
                    l1,
                    with_fallible(spec_any(), !handled),
                ),
            }
        },
        Node::Assign { name, value } => {
            let (d, l1, t) = check(*value, fns, cfg, local, ext);
            (d, l1.insert(name@, with_fallible(t, false)), t)
        },
        Node::AssignField { value, .. } => check(*value, fns, cfg, local, ext),
        Node::If { condition, consequent, alternative, span } => {
            let (d1, l1, ct) = check(*condition, fns, cfg, local, ext);
            let dc = if kinds_within(ct, spec_boolean()) {
                Seq::empty()
            } else {
                one_error(KindView::ConditionNotBoolean { given: ct }, span)
            };
            let (d2, lc, tc) = check_block(consequent, consequent@.len() as nat, fns, cfg, l1, ext);
            let (d3, la, ta) = check_block(alternative, alternative@.len() as nat, fns, cfg, l1, ext);
            let bc = types_block(tc);
            let ba = types_block(ta);
            (
                d1 + dc + d2 + d3,
                merge_maps(lc, la),
                with_fallible(join(bc, ba), ct.fallible || bc.fallible || ba.fallible),
            )
        },
    }
}

/// What checking the first `n` statements in order gives: the findings, the
/// variable types after them, and their types.
pub open spec fn check_block(
    nodes: Vec<Node>,
    n: nat,
    fns: Seq<Function>,
    cfg: CompileConfig,
    local: Map<Seq<u8>, TypeDef>,
    ext: Map<Seq<u8>, TypeDef>,
) -> (Seq<DiagnosticView>, Map<Seq<u8>, TypeDef>, Seq<TypeDef>)
    decreases nodes, n,
{
    if n == 0 || n > nodes@.len() {
        (Seq::empty(), local, Seq::empty())
    } else {
        let (d1, l1, ts) = check_block(nodes, (n - 1) as nat, fns, cfg, local, ext);
        proof {
            vstd::std_specs::vec::axiom_vec_index_decreases(nodes, n - 1);
        }
        let (d2, l2, t) = check(nodes@[n - 1], fns, cfg, l1, ext);
        (d1 + d2, l2, ts.push(t))
    }
}

/// Some finding at index `k` or later is an error.
pub open spec fn error_since(d: Seq<Diagnostic>, k: int) -> bool {
    exists|j: int| k <= j < d.len() && (#[trigger] d[j]).severity == Severity::Error
}

proof fn lemma_error_since_extends(d1: Seq<Diagnostic>, d2: Seq<Diagnostic>, k: int, k0: int)
    requires
        error_since(d1, k),
        extends(d2, d1),
        0 <= k0 <= k,
    ensures
        error_since(d2, k0),
{
    let j = choose|j: int| k <= j < d1.len() && (#[trigger] d1[j]).severity == Severity::Error;
    assert(d2.subrange(0, d1.len() as int) == d1);
    assert(d1[j] == d2.subrange(0, d1.len() as int)[j]);
    assert(d2[j].severity == Severity::Error);
}

/// The expression holds a placeholder for a node that did not check.
pub open spec fn has_invalid(e: Expr) -> bool
    decreases e,
{
    match e {
        Expr::Invalid { .. } => true,
        Expr::Add { lhs, rhs, .. } => has_invalid(*lhs) || has_invalid(*rhs),
        Expr::Call { args, .. } => exists|i: int| 0 <= i < args@.len() && has_invalid(#[trigger] args@[i]),
        Expr::Assign { value, .. } => has_invalid(*value),
        Expr::AssignField { value, .. } => has_invalid(*value),
        Expr::If { condition, consequent, alternative, .. } => has_invalid(*condition)
            || (exists|i: int| 0 <= i < consequent@.len() && has_invalid(#[trigger] consequent@[i]))
            || (exists|i: int| 0 <= i < alternative@.len() && has_invalid(#[trigger] alternative@[i])),
        _ => false,
    }
}

/// The compiled expression has the node's shape: the same variant, names,
/// literal values and handling form, a call bound to the first registered
/// function of its name and that function's built-in, and its parts
/// compiled from the node's parts in order. A placeholder may stand for
/// any node.
pub open spec fn mirrors(n: Node, e: Expr, fns: Seq<Function>) -> bool
    decreases n,
{
    if e is Invalid {
        true
    } else {
        match n {
            Node::Literal(v) => match e {
                Expr::Literal { value } => value@ == v@,
                _ => false,
            },
            Node::Variable(name, span) => match e {
                Expr::Variable { name: m, .. } => m@ == name@,
                _ => false,
            },
            Node::Field(name) => match e {
                Expr::Field { name: m, .. } => m@ == name@,
                _ => false,
            },
            Node::Add(l, r, span) => match e {
                Expr::Add { lhs, rhs, .. } => mirrors(*l, *lhs, fns) && mirrors(*r, *rhs, fns),
                _ => false,
            },
            Node::Call { name, args, handled, span } => match e {
                Expr::Call { function, builtin, args: a, handled: h, .. } => {
                    &&& h == handled
                    &&& first_named(fns, name@, function as int)
                    &&& builtin == fns[function as int].builtin
                    &&& a@.len() == args@.len()
                    &&& forall|i: int| 0 <= i < args@.len() ==> mirrors(#[trigger] args@[i], a@[i], fns)
                },
                _ => false,
            },
            Node::Assign { name, value } => match e {
                Expr::Assign { name: m, value: v, .. } => m@ == name@ && mirrors(*value, *v, fns),
                _ => false,
            },
            Node::AssignField { name, value } => match e {
                Expr::AssignField { name: m, value: v, .. } => m@ == name@ && mirrors(*value, *v, fns),
                _ => false,
            },
            Node::If { condition, consequent, alternative, span } => match e {
                Expr::If { condition: c, consequent: ce, alternative: ae, .. } => {
                    &&& mirrors(*condition, *c, fns)
                    &&& ce@.len() == consequent@.len()
                    &&& ae@.len() == alternative@.len()
                    &&& forall|i: int| 0 <= i < consequent@.len() ==> mirrors(#[trigger] consequent@[i], ce@[i], fns)
                    &&& forall|i: int| 0 <= i < alternative@.len() ==> mirrors(#[trigger] alternative@[i], ae@[i], fns)
                },
                _ => false,
            },
        }
    }
}

/// The findings hold exactly one "unhandled fallible operation", and it is an error.
pub open spec fn one_unhandled(d: Seq<DiagnosticView>) -> bool {
    exists|j: int|
        0 <= j < d.len() && (#[trigger] d[j]).kind is UnhandledFallible && d[j].severity
            == Severity::Error && forall|k: int|
            0 <= k < d.len() && k != j ==> !((#[trigger] d[k]).kind is UnhandledFallible)
}

/// A call outside a handling form of a function that resolves as fallible,
/// whose arguments check without an unhandled fallible operation of their
/// own, gives exactly one "unhandled fallible operation" error, whatever
/// variable types and schema it is checked against.
pub proof fn lemma_unhandled_call_checked(
    n: Node,
    fns: Seq<Function>,
    cfg: CompileConfig,
    local: Map<Seq<u8>, TypeDef>,
    ext: Map<Seq<u8>, TypeDef>,
)
    requires
        n matches Node::Call { name, args, handled, span } && !handled && ({
            let (d1, l1, ts) = check_block(args, args@.len() as nat, fns, cfg, local, ext);
            &&& no_unhandled(d1)
            &&& resolved_index(fns, name@) matches Some(i) && arity_ok(fns[i], ts.len() as int)
                && arguments_accepted(fns[i].parameters@, ts, ts.len() as int)
                && resolve(fns[i].builtin, ts).fallible
        }),
    ensures
        one_unhandled(check(n, fns, cfg, local, ext).0),
{
    match n {
        Node::Call { name, args, handled, span } => {
            let (d1, l1, ts) = check_block(args, args@.len() as nat, fns, cfg, local, ext);
            let i = resolved_index(fns, name@)->0;
            let c = call_diagnostics(fns[i], i as usize, ts, false, cfg.deprecation_is_error, span);
            lemma_unhandled_fallible_rejected(fns[i], i as usize, ts, cfg.deprecation_is_error, span);
            let d = d1 + views(c);
            assert(d == check(n, fns, cfg, local, ext).0);
            let j = d1.len() + c.len() - 1;
            assert(d[j] == c[c.len() - 1]@);
            assert forall|k: int| 0 <= k < d.len() && k != j implies !((#[trigger] d[k]).kind is UnhandledFallible) by {
                if k >= d1.len() {
                    assert(d[k] == c[k - d1.len()]@);
                    assert(!(c[k - d1.len()].kind is UnhandledFallible));
                }
            }
            assert(d[j].kind is UnhandledFallible);
        },
        _ => {},
    }
}

/// The findings hold no "unhandled fallible operation".
pub open spec fn no_unhandled(d: Seq<DiagnosticView>) -> bool {
    forall|k: int| 0 <= k < d.len() ==> !((#[trigger] d[k]).kind is UnhandledFallible)
}

proof fn lemma_one_unhandled_concat(a: Seq<DiagnosticView>, b: Seq<DiagnosticView>)
    requires
        (one_unhandled(a) && no_unhandled(b)) || (no_unhandled(a) && one_unhandled(b)),
    ensures
        one_unhandled(a + b),
{
    let d = a + b;
    if one_unhandled(a) {
        let j = choose|j: int|
            0 <= j < a.len() && (#[trigger] a[j]).kind is UnhandledFallible && a[j].severity
                == Severity::Error && forall|k: int|
                0 <= k < a.len() && k != j ==> !((#[trigger] a[k]).kind is UnhandledFallible);
        assert(d[j] == a[j]);
        assert forall|k: int| 0 <= k < d.len() && k != j implies !((#[trigger] d[k]).kind is UnhandledFallible) by {
            if k < a.len() {
                assert(d[k] == a[k]);
            } else {
                assert(d[k] == b[k - a.len()]);
            }
        }
    } else {
        let j = choose|j: int|
            0 <= j < b.len() && (#[trigger] b[j]).kind is UnhandledFallible && b[j].severity
                == Severity::Error && forall|k: int|
                0 <= k < b.len() && k != j ==> !((#[trigger] b[k]).kind is UnhandledFallible);
        assert(d[a.len() + j] == b[j]);
        assert forall|k: int| 0 <= k < d.len() && k != a.len() + j implies !((#[trigger] d[k]).kind is UnhandledFallible) by {
            if k < a.len() {
                assert(d[k] == a[k]);
            } else {
                assert(d[k] == b[k - a.len()]);
            }
        }
    }
}

/// The count of "unhandled fallible operation" errors does not change when
/// a node with exactly one is placed as an operand of `+` beside an operand
/// with none, or as the value of an assignment.
pub proof fn lemma_unhandled_in_context(
    n: Node,
    fns: Seq<Function>,
    cfg: CompileConfig,
    local: Map<Seq<u8>, TypeDef>,
    ext: Map<Seq<u8>, TypeDef>,
)
    requires
        match n {
            Node::Add(l, r, span) => {
                let (d1, l1, t1) = check(*l, fns, cfg, local, ext);
                let d2 = check(*r, fns, cfg, l1, ext).0;
                (one_unhandled(d1) && no_unhandled(d2)) || (no_unhandled(d1) && one_unhandled(d2))
            },
            Node::Assign { value, .. } => one_unhandled(check(*value, fns, cfg, local, ext).0),
            Node::AssignField { value, .. } => one_unhandled(check(*value, fns, cfg, local, ext).0),
            _ => false,
        },
    ensures
        one_unhandled(check(n, fns, cfg, local, ext).0),
{
    match n {
        Node::Add(l, r, span) => {
            let (d1, l1, t1) = check(*l, fns, cfg, local, ext);
            let (d2, l2, t2) = check(*r, fns, cfg, l1, ext);
            let d3 = if add_ok(t1, t2) {
                Seq::empty()
            } else {
                one_error(KindView::OperandMismatch { lhs: t1, rhs: t2 }, span)
            };
            lemma_one_unhandled_concat(d1, d2);
            assert(no_unhandled(d3));
            lemma_one_unhandled_concat(d1 + d2, d3);
        },
        _ => {},
    }
}

proof fn lemma_no_unhandled_concat(a: Seq<DiagnosticView>, b: Seq<DiagnosticView>)
    requires
        no_unhandled(a),
        no_unhandled(b),
    ensures
        no_unhandled(a + b),
{
    assert forall|k: int| 0 <= k < (a + b).len() implies !((#[trigger] (a + b)[k]).kind is UnhandledFallible) by {
        if k < a.len() {
            assert((a + b)[k] == a[k]);
        } else {
            assert((a + b)[k] == b[k - a.len()]);
        }
    }
}

/// The findings of statement `i` of a block, checked where it stands.
pub open spec fn statement_findings(
    nodes: Vec<Node>,
    i: int,
    fns: Seq<Function>,
    cfg: CompileConfig,
    local: Map<Seq<u8>, TypeDef>,
    ext: Map<Seq<u8>, TypeDef>,
) -> Seq<DiagnosticView> {
    check(nodes@[i], fns, cfg, check_block(nodes, i as nat, fns, cfg, local, ext).1, ext).0
}

proof fn lemma_block_none(
    nodes: Vec<Node>,
    n: nat,
    fns: Seq<Function>,
    cfg: CompileConfig,
    local: Map<Seq<u8>, TypeDef>,
    ext: Map<Seq<u8>, TypeDef>,
)
    requires
        n <= nodes@.len(),
        forall|j: int| 0 <= j < n ==> no_unhandled(#[trigger] statement_findings(nodes, j, fns, cfg, local, ext)),
    ensures
        no_unhandled(check_block(nodes, n, fns, cfg, local, ext).0),
    decreases n,
{
    if n > 0 {
        lemma_block_none(nodes, (n - 1) as nat, fns, cfg, local, ext);
        assert(no_unhandled(statement_findings(nodes, n - 1, fns, cfg, local, ext)));
        lemma_no_unhandled_concat(
            check_block(nodes, (n - 1) as nat, fns, cfg, local, ext).0,
            statement_findings(nodes, n - 1, fns, cfg, local, ext),
        );
    }
}

/// A block in which exactly one statement gives one "unhandled fallible
/// operation" error and the others give none gives exactly one.
pub proof fn lemma_block_one_unhandled(
    nodes: Vec<Node>,
    n: nat,
    k: int,
    fns: Seq<Function>,
    cfg: CompileConfig,
    local: Map<Seq<u8>, TypeDef>,
    ext: Map<Seq<u8>, TypeDef>,
)
    requires
        0 <= k < n <= nodes@.len(),
        one_unhandled(statement_findings(nodes, k, fns, cfg, local, ext)),
        forall|j: int|
            0 <= j < n && j != k ==> no_unhandled(#[trigger] statement_findings(nodes, j, fns, cfg, local, ext)),
    ensures
        one_unhandled(check_block(nodes, n, fns, cfg, local, ext).0),
    decreases n,
{
    let prev = check_block(nodes, (n - 1) as nat, fns, cfg, local, ext).0;
    let last = statement_findings(nodes, n - 1, fns, cfg, local, ext);
    if k == n - 1 {
        lemma_block_none(nodes, (n - 1) as nat, fns, cfg, local, ext);
    } else {
        lemma_block_one_unhandled(nodes, (n - 1) as nat, k, fns, cfg, local, ext);
        assert(no_unhandled(statement_findings(nodes, n - 1, fns, cfg, local, ext)));
    }
    lemma_one_unhandled_concat(prev, last);
}

/// The count of "unhandled fallible operation" errors stays one when the
/// part that has it stands in a conditional (as its condition or in one of
/// its arms) whose other parts have none, or among the arguments of a call
/// that itself reports none.
pub proof fn lemma_unhandled_in_branch_or_call(
    n: Node,
    fns: Seq<Function>,
    cfg: CompileConfig,
    local: Map<Seq<u8>, TypeDef>,
    ext: Map<Seq<u8>, TypeDef>,
)
    requires
        match n {
            Node::If { condition, consequent, alternative, .. } => {
                let (d1, l1, ct) = check(*condition, fns, cfg, local, ext);
                let d2 = check_block(consequent, consequent@.len() as nat, fns, cfg, l1, ext).0;
                let d3 = check_block(alternative, alternative@.len() as nat, fns, cfg, l1, ext).0;
                ||| one_unhandled(d1) && no_unhandled(d2) && no_unhandled(d3)
                ||| no_unhandled(d1) && one_unhandled(d2) && no_unhandled(d3)
                ||| no_unhandled(d1) && no_unhandled(d2) && one_unhandled(d3)
            },
            Node::Call { name, args, handled, span } => {
                let (d1, l1, ts) = check_block(args, args@.len() as nat, fns, cfg, local, ext);
                &&& one_unhandled(d1)
                &&& resolved_index(fns, name@) matches Some(i) && no_unhandled(
                    views(call_diagnostics(fns[i], i as usize, ts, handled, cfg.deprecation_is_error, span)),
                )
            },
            _ => false,
        },
    ensures
        one_unhandled(check(n, fns, cfg, local, ext).0),
{
    match n {
        Node::If { condition, consequent, alternative, span } => {
            let (d1, l1, ct) = check(*condition, fns, cfg, local, ext);
            let dc = if kinds_within(ct, spec_boolean()) {
                Seq::empty()
            } else {
                one_error(KindView::ConditionNotBoolean { given: ct }, span)
            };
            let d2 = check_block(consequent, consequent@.len() as nat, fns, cfg, l1, ext).0;
            let d3 = check_block(alternative, alternative@.len() as nat, fns, cfg, l1, ext).0;
            assert(no_unhandled(dc));
            if one_unhandled(d1) && no_unhandled(d2) && no_unhandled(d3) {
                lemma_one_unhandled_concat(d1, dc);
                lemma_one_unhandled_concat(d1 + dc, d2);
                lemma_one_unhandled_concat(d1 + dc + d2, d3);
            } else if no_unhandled(d1) && one_unhandled(d2) && no_unhandled(d3) {
                lemma_no_unhandled_concat(d1, dc);
                lemma_one_unhandled_concat(d1 + dc, d2);
                lemma_one_unhandled_concat(d1 + dc + d2, d3);
            } else {
                lemma_no_unhandled_concat(d1, dc);
                lemma_no_unhandled_concat(d1 + dc, d2);
                lemma_one_unhandled_concat(d1 + dc + d2, d3);
            }
        },
        Node::Call { name, args, handled, span } => {
            let (d1, l1, ts) = check_block(args, args@.len() as nat, fns, cfg, local, ext);
            let i = resolved_index(fns, name@)->0;
            lemma_one_unhandled_concat(
                d1,
                views(call_diagnostics(fns[i], i as usize, ts, handled, cfg.deprecation_is_error, span)),
            );
        },
        _ => {},
    }
}

/// Swapping the arms of a conditional leaves the variable types after it
/// and its type unchanged: the merge of the arms does not depend on their order.
pub proof fn lemma_if_arms_swap(
    n1: Node,
    n2: Node,
    fns: Seq<Function>,
    cfg: CompileConfig,
    local: Map<Seq<u8>, TypeDef>,
    ext: Map<Seq<u8>, TypeDef>,
)
    requires
        n1 matches Node::If { condition: c1, consequent: k1, alternative: a1, .. } && n2 matches Node::If {
            condition: c2,
            consequent: k2,
            alternative: a2,
            ..
        } && *c1 == *c2 && k1 == a2 && a1 == k2,
    ensures
        check(n1, fns, cfg, local, ext).1 == check(n2, fns, cfg, local, ext).1,
        check(n1, fns, cfg, local, ext).2 == check(n2, fns, cfg, local, ext).2,
{
    match (n1, n2) {
        (
            Node::If { condition: c1, consequent: k1, alternative: a1, .. },
            Node::If { condition: c2, consequent: k2, alternative: a2, .. },
        ) => {
            let (d1, l1, ct) = check(*c1, fns, cfg, local, ext);
            let (dc, lc, tc) = check_block(k1, k1@.len() as nat, fns, cfg, l1, ext);
            let (da, la, ta) = check_block(a1, a1@.len() as nat, fns, cfg, l1, ext);
            lemma_merge_commutative(lc, la);
            lemma_join_commutative(types_block(tc), types_block(ta));
        },
        _ => {},
    }
}

/// Every type that checking gives admits at least one kind.
pub proof fn lemma_check_has_kind(
    n: Node,
    fns: Seq<Function>,
    cfg: CompileConfig,
    local: Map<Seq<u8>, TypeDef>,
    ext: Map<Seq<u8>, TypeDef>,
)
    ensures
        has_kind(check(n, fns, cfg, local, ext).2),
    decreases n, 0nat,
{
    match n {
        Node::Assign { value, .. } => {
            lemma_check_has_kind(*value, fns, cfg, local, ext);
        },
        Node::AssignField { value, .. } => {
            lemma_check_has_kind(*value, fns, cfg, local, ext);
        },
        Node::If { condition, consequent, alternative, span } => {
            let (d1, l1, ct) = check(*condition, fns, cfg, local, ext);
            lemma_check_block_has_kind(consequent, consequent@.len() as nat, fns, cfg, l1, ext);
            let (d2, lc, tc) = check_block(consequent, consequent@.len() as nat, fns, cfg, l1, ext);
            if tc.len() > 0 {
                assert(has_kind(tc[tc.len() - 1]));
            }
        },
        _ => {},
    }
}

/// Every statement type that checking a block gives admits at least one kind.
pub proof fn lemma_check_block_has_kind(
    nodes: Vec<Node>,
    n: nat,
    fns: Seq<Function>,
    cfg: CompileConfig,
    local: Map<Seq<u8>, TypeDef>,
    ext: Map<Seq<u8>, TypeDef>,
)
    ensures
        ({
            let ts = check_block(nodes, n, fns, cfg, local, ext).2;
            forall|i: int| 0 <= i < ts.len() ==> has_kind(#[trigger] ts[i])
        }),
    decreases nodes, n,
{
    if n > 0 && n <= nodes@.len() {
        lemma_check_block_has_kind(nodes, (n - 1) as nat, fns, cfg, local, ext);
        let (d1, l1, ts) = check_block(nodes, (n - 1) as nat, fns, cfg, local, ext);
        vstd::std_specs::vec::axiom_vec_index_decreases(nodes, n - 1);
        lemma_check_has_kind(nodes@[n - 1], fns, cfg, l1, ext);
        let t = check(nodes@[n - 1], fns, cfg, l1, ext).2;
        assert(check_block(nodes, n, fns, cfg, local, ext).2 == ts.push(t));
    }
}

/// Every part of the compiled expression has the type that checking gives
/// at its point: each part is checked against the variable types left by
/// the parts before it.
pub open spec fn typed_as(
    n: Node,
    e: Expr,
    fns: Seq<Function>,
    cfg: CompileConfig,
    local: Map<Seq<u8>, TypeDef>,
    ext: Map<Seq<u8>, TypeDef>,
) -> bool
    decreases n,
{
    &&& type_of(e) == check(n, fns, cfg, local, ext).2
    &&& match n {
        Node::Add(l, r, _) => match e {
            Expr::Add { lhs, rhs, .. } => typed_as(*l, *lhs, fns, cfg, local, ext) && typed_as(
                *r,
                *rhs,
                fns,
                cfg,
                check(*l, fns, cfg, local, ext).1,
                ext,
            ),
            _ => true,
        },
        Node::Call { args, .. } => match e {
            Expr::Call { args: a, .. } => a@.len() == args@.len() && forall|i: int|
                0 <= i < args@.len() ==> typed_as(
                    #[trigger] args@[i],
                    a@[i],
                    fns,
                    cfg,
                    check_block(args, i as nat, fns, cfg, local, ext).1,
                    ext,
                ),
            _ => true,
        },
        Node::Assign { value, .. } => match e {
            Expr::Assign { value: v, .. } => typed_as(*value, *v, fns, cfg, local, ext),
            _ => true,
        },
        Node::AssignField { value, .. } => match e {
            Expr::AssignField { value: v, .. } => typed_as(*value, *v, fns, cfg, local, ext),
            _ => true,
        },
        Node::If { condition, consequent, alternative, .. } => match e {
            Expr::If { condition: c, consequent: ce, alternative: ae, .. } => {
                let l1 = check(*condition, fns, cfg, local, ext).1;
                &&& typed_as(*condition, *c, fns, cfg, local, ext)
                &&& ce@.len() == consequent@.len()
                &&& ae@.len() == alternative@.len()
                &&& forall|i: int|
                    0 <= i < consequent@.len() ==> typed_as(
                        #[trigger] consequent@[i],
                        ce@[i],
                        fns,
                        cfg,
                        check_block(consequent, i as nat, fns, cfg, l1, ext).1,
                        ext,
                    )
                &&& forall|i: int|
                    0 <= i < alternative@.len() ==> typed_as(
                        #[trigger] alternative@[i],
                        ae@[i],
                        fns,
                        cfg,
                        check_block(alternative, i as nat, fns, cfg, l1, ext).1,
                        ext,
                    )
            },
            _ => true,
        },
        _ => true,
    }
}

/// Compiling `node` from state `before` and findings `od` led to state `after`,
/// findings `nd` and expression `e`, as `check` says.
pub open spec fn compiled(
    node: Node,
    fns: Seq<Function>,
    cfg: CompileConfig,
    before: TypeState,
    after: TypeState,
    od: Seq<Diagnostic>,
    nd: Seq<Diagnostic>,
    e: Expr,
) -> bool {
    let (d, l, t) = check(node, fns, cfg, before.local.view(), before.external.target.view());
    &&& after.wf()
    &&& after.external.target.view() == before.external.target.view()
    &&& extends(nd, od)
    &&& flows(e)
    &&& views(nd) == views(od) + d
    &&& after.local.view() == l
    &&& type_of(e) == t
    &&& mirrors(node, e, fns)
    &&& typed_as(node, e, fns, cfg, before.local.view(), before.external.target.view())
    &&& (has_invalid(e) ==> error_since(nd, od.len() as int))
}

/// Type-checks one node against the threaded state, appending findings.
/// A node that does not check is replaced by an `Invalid` placeholder and
/// checking goes on.
pub fn compile_node(
    node: &Node,
    fns: &Vec<Function>,
    config: CompileConfig,
    state: &mut TypeState,
    diags: &mut Vec<Diagnostic>,
) -> (e: Expr)
    requires
        old(state).wf(),
    ensures
        compiled(*node, fns@, config, *old(state), *final(state), old(diags)@, final(diags)@, e),
    decreases node, 1nat,
{
    proof {
        lemma_extends_refl(old(diags)@);
        assert(views(old(diags)@) + Seq::<DiagnosticView>::empty() =~= views(old(diags)@));
    }
    match node {
        Node::Literal(v) => {
            let e = Expr::Literal { value: v.copy() };
            proof {
                assert(mirrors(*node, e, fns@));
                assert(!has_invalid(e));
            }
            e
        },
        Node::Variable(n, span) => {
            match state.local.get(n) {
                Some(t) => Expr::Variable { name: copy_bytes(n), type_def: t.finish() },
                None => {
                    let ghost d0 = diags@;
                    let x = Diagnostic::error(DiagnosticKind::UndefinedVariable(copy_bytes(n)), *span);
                    diags.push(x);
                    proof {
                        assert(diags@.subrange(0, d0.len() as int) == d0);
                        lemma_views_push(d0, x);
                        assert(views(d0).push(x@) =~= views(d0) + one_error(KindView::UndefinedVariable(n@), *span));
                        assert(diags@[d0.len() as int].severity == Severity::Error);
                    }
                    Expr::Invalid { type_def: TypeDef::any() }
                },
            }
        },
        Node::Field(n) => {
            let t = match state.external.target.get(n) {
                Some(t) => t.finish(),
                None => TypeDef::any(),
            };
            Expr::Field { name: copy_bytes(n), type_def: t }
        },
        Node::Add(..) => compile_add(node, fns, config, state, diags),
        Node::Call { .. } => compile_call(node, fns, config, state, diags),
        Node::Assign { name, value } => {
            let v = compile_node(value, fns, config, state, diags);
            let t = v.type_def();
            state.local.insert(copy_bytes(name), t.with_fallibility(false));
            Expr::Assign { name: copy_bytes(name), value: Box::new(v), type_def: t }
        },
        Node::AssignField { name, value } => {
            let v = compile_node(value, fns, config, state, diags);
            let t = v.type_def();
            Expr::AssignField { name: copy_bytes(name), value: Box::new(v), type_def: t }
        },
        Node::If { .. } => compile_if(node, fns, config, state, diags),
    }
}

/// Type-checks `lhs + rhs`.
fn compile_add(
    node: &Node,
    fns: &Vec<Function>,
    config: CompileConfig,
    state: &mut TypeState,
    diags: &mut Vec<Diagnostic>,
) -> (e: Expr)
    requires
        old(state).wf(),
        *node is Add,
    ensures
        compiled(*node, fns@, config, *old(state), *final(state), old(diags)@, final(diags)@, e),
    decreases node, 0nat,
{
    let ghost l0 = state.local.view();
    let ghost x0 = state.external.target.view();
    match node {
        Node::Add(l, r, span) => {
            let ghost d0 = diags@;
            let lhs = compile_node(l, fns, config, state, diags);
            let ghost d1 = diags@;
            let rhs = compile_node(r, fns, config, state, diags);
            let ghost d2 = diags@;
            proof {
                lemma_extends_trans(d0, d1, d2);
            }
            let lt = lhs.type_def();
            let rt = rhs.type_def();
            let fallible = lt.fallible || rt.fallible;
            let int_int = lt.is_subset_of(&TypeDef::integer()) && rt.is_subset_of(&TypeDef::integer());
            let str_str = lt.is_subset_of(&TypeDef::bytes()) && rt.is_subset_of(&TypeDef::bytes());
            let t = if int_int {
                TypeDef::integer().with_fallibility(fallible)
            } else if str_str {
                TypeDef::bytes().with_fallibility(fallible)
            } else {
                let x = Diagnostic::error(DiagnosticKind::OperandMismatch { lhs: lt, rhs: rt }, *span);
                diags.push(x);
                proof {
                    assert(diags@.subrange(0, d2.len() as int) == d2);
                    lemma_extends_trans(d0, d2, diags@);
                    lemma_views_push(d2, x);
                }
                TypeDef::any().with_fallibility(fallible)
            };
            proof {
                let (a1, b1, t1) = check(**l, fns@, config, l0, x0);
                let (a2, b2, t2) = check(**r, fns@, config, b1, x0);
                if add_ok(t1, t2) {
                    assert(views(diags@) =~= views(d0) + (a1 + a2 + Seq::<DiagnosticView>::empty()));
                } else {
                    assert(views(diags@) =~= views(d0) + (a1 + a2 + one_error(KindView::OperandMismatch { lhs: t1, rhs: t2 }, *span)));
                }
                lemma_extends_refl(d2);
                assert(extends(diags@, d2));
                lemma_extends_trans(d1, d2, diags@);
                if has_invalid(lhs) {
                    lemma_error_since_extends(d1, diags@, d0.len() as int, d0.len() as int);
                }
                if has_invalid(rhs) {
                    lemma_error_since_extends(d2, diags@, d1.len() as int, d0.len() as int);
                }
            }
            Expr::Add { lhs: Box::new(lhs), rhs: Box::new(rhs), type_def: t }
        },
        _ => {
            proof {
                assert(false);
            }
            Expr::Invalid { type_def: TypeDef::any() }
        },
    }
}

/// Type-checks a function call: its arguments in order, then the call.
fn compile_call(
    node: &Node,
    fns: &Vec<Function>,
    config: CompileConfig,
    state: &mut TypeState,
    diags: &mut Vec<Diagnostic>,
) -> (e: Expr)
    requires
        old(state).wf(),
        *node is Call,
    ensures
        compiled(*node, fns@, config, *old(state), *final(state), old(diags)@, final(diags)@, e),
    decreases node, 0nat,
{
    let ghost l0 = state.local.view();
    let ghost x0 = state.external.target.view();
    match node {
        Node::Call { name, args, handled, span } => {
            let ghost d0 = diags@;
            let arg_exprs = compile_block(args, fns, config, state, diags);
            let mut types: Vec<TypeDef> = Vec::new();
            let mut i: usize = 0;
            while i < arg_exprs.len()
                invariant
                    i <= arg_exprs@.len(),
                    types@ == types_of(arg_exprs@.subrange(0, i as int)),
                decreases arg_exprs@.len() - i,
            {
                types.push(arg_exprs[i].type_def());
                proof {
                    assert(types@ =~= types_of(arg_exprs@.subrange(0, i + 1)));
                }
                i += 1;
            }
            assert(arg_exprs@.subrange(0, arg_exprs@.len() as int) == arg_exprs@);
            let ghost d2 = diags@;
            match find_function(fns, name) {
                Some(index) => {
                    let (mut found, t) = check_call(&fns[index], index, &types, *handled, config.deprecation_is_error, *span);
                    let ghost f = found@;
                    diags.append(&mut found);
                    proof {
                        assert(diags@ == d2 + f);
                        assert(diags@.subrange(0, d2.len() as int) == d2);
                        lemma_extends_trans(d0, d2, diags@);
                        lemma_views_add(d2, f);
                        lemma_first_named_unique(fns@, name@, index as int);
                        let (a1, b1, ts) = check_block(*args, args@.len() as nat, fns@, config, l0, x0);
                        assert(views(diags@) =~= views(d0) + (a1 + views(f)));
                        if has_invalid(Expr::Call { function: index, builtin: fns@[index as int].builtin, args: arg_exprs, handled: *handled, type_def: t }) {
                            let k = choose|k: int| 0 <= k < arg_exprs@.len() && has_invalid(#[trigger] arg_exprs@[k]);
                            assert(has_invalid(arg_exprs@[k]));
                            lemma_error_since_extends(d2, diags@, d0.len() as int, d0.len() as int);
                        }
                        assert forall|j: int| 0 <= j < arg_exprs@.len() implies types@[j].fallible == type_of(#[trigger] arg_exprs@[j]).fallible by {}
                        if !*handled && some_fallible(arg_exprs@) {
                            let j = choose|j: int| 0 <= j < arg_exprs@.len() && type_of(#[trigger] arg_exprs@[j]).fallible;
                            assert(types@[j].fallible);
                        }
                    }
                    Expr::Call {
                        function: index,
                        builtin: fns[index].builtin,
                        args: arg_exprs,
                        handled: *handled,
                        type_def: t,
                    }
                },
                None => {
                    let x = Diagnostic::error(DiagnosticKind::UndefinedFunction(copy_bytes(name)), *span);
                    diags.push(x);
                    proof {
                        assert(diags@.subrange(0, d2.len() as int) == d2);
                        lemma_extends_trans(d0, d2, diags@);
                        lemma_views_push(d2, x);
                        assert(!exists|i: int| first_named(fns@, name@, i));
                        let (a1, b1, ts) = check_block(*args, args@.len() as nat, fns@, config, l0, x0);
                        assert(views(diags@) =~= views(d0) + (a1 + one_error(KindView::UndefinedFunction(name@), *span)));
                        assert(diags@[d2.len() as int].severity == Severity::Error);
                    }
                    Expr::Invalid { type_def: TypeDef::any().with_fallibility(!*handled) }
                },
            }
        },
        _ => {
            proof {
                assert(false);
            }
            Expr::Invalid { type_def: TypeDef::any() }
        },
    }
}

/// Type-checks a conditional: the condition, then each arm from a copy of
/// the state, then the merge of the two arms' states.
#[verifier::rlimit(60)]
#[verifier::spinoff_prover]
fn compile_if(
    node: &Node,
    fns: &Vec<Function>,
    config: CompileConfig,
    state: &mut TypeState,
    diags: &mut Vec<Diagnostic>,
) -> (e: Expr)
    requires
        old(state).wf(),
        *node is If,
    ensures
        compiled(*node, fns@, config, *old(state), *final(state), old(diags)@, final(diags)@, e),
    decreases node, 0nat,
{
    let ghost l0 = state.local.view();
    let ghost x0 = state.external.target.view();
    match node {
        Node::If { condition, consequent, alternative, span } => {
            let ghost d0 = diags@;
            let c = compile_node(condition, fns, config, state, diags);
            let ct = c.type_def();
            let ghost d1 = diags@;
            let ghost l1 = state.local.view();
            proof {
                lemma_extends_refl(d1);
                assert(views(d1) + Seq::<DiagnosticView>::empty() =~= views(d1));
            }
            if !ct.is_subset_of(&TypeDef::boolean()) {
                let x = Diagnostic::error(DiagnosticKind::ConditionNotBoolean { given: ct }, *span);
                diags.push(x);
                proof {
                    assert(diags@.subrange(0, d1.len() as int) == d1);
                    lemma_views_push(d1, x);
                    assert(views(d1).push(x@) =~= views(d1) + one_error(KindView::ConditionNotBoolean { given: ct }, *span));
                }
            }
            let ghost d2 = diags@;
            proof {
                lemma_extends_trans(d0, d1, d2);
            }
            let mut then_state = TypeState {
                local: state.local.clone_env(),
                external: ExternalEnv { target: state.external.target.clone_env() },
            };
            let cons = compile_block(consequent, fns, config, &mut then_state, diags);
            let ghost d3 = diags@;
            let mut else_state = TypeState {
                local: state.local.clone_env(),
                external: ExternalEnv { target: state.external.target.clone_env() },
            };
            let alt = compile_block(alternative, fns, config, &mut else_state, diags);
            proof {
                lemma_extends_trans(d0, d2, d3);
                lemma_extends_trans(d0, d3, diags@);
            }
            let merged = then_state.local.merge(&else_state.local);
            state.local = merged;
            let ct_block = block_type_of(&cons);
            let at_block = block_type_of(&alt);
            let t = ct_block.merge(&at_block).with_fallibility(ct.fallible || ct_block.fallible || at_block.fallible);
            proof {
                lemma_block_type_of_types(cons@);
                lemma_block_type_of_types(alt@);
                let (a1, b1, t1) = check(**condition, fns@, config, l0, x0);
                let dc = if kinds_within(t1, spec_boolean()) {
                    Seq::<DiagnosticView>::empty()
                } else {
                    one_error(KindView::ConditionNotBoolean { given: t1 }, *span)
                };
                let (a2, lc, tc) = check_block(*consequent, consequent@.len() as nat, fns@, config, b1, x0);
                let (a3, la, ta) = check_block(*alternative, alternative@.len() as nat, fns@, config, b1, x0);
                assert(views(d2) == views(d0) + a1 + dc);
                assert(views(diags@) =~= views(d0) + (a1 + dc + a2 + a3));
                lemma_extends_trans(d2, d3, diags@);
                lemma_extends_trans(d1, d2, diags@);
                lemma_extends_refl(diags@);
                if has_invalid(c) {
                    lemma_error_since_extends(d1, diags@, d0.len() as int, d0.len() as int);
                }
                if exists|i: int| 0 <= i < cons@.len() && has_invalid(#[trigger] cons@[i]) {
                    let k = choose|k: int| 0 <= k < cons@.len() && has_invalid(#[trigger] cons@[k]);
                    assert(has_invalid(cons@[k]));
                    lemma_error_since_extends(d3, diags@, d2.len() as int, d0.len() as int);
                }
                if exists|i: int| 0 <= i < alt@.len() && has_invalid(#[trigger] alt@[i]) {
                    let k = choose|k: int| 0 <= k < alt@.len() && has_invalid(#[trigger] alt@[k]);
                    assert(has_invalid(alt@[k]));
                    lemma_error_since_extends(diags@, diags@, d3.len() as int, d0.len() as int);
                }
            }
            Expr::If { condition: Box::new(c), consequent: cons, alternative: alt, type_def: t }
        },
        _ => {
            proof {
                assert(false);
            }
            Expr::Invalid { type_def: TypeDef::any() }
        },
    }
}

/// The type of a compiled block.
pub fn block_type_of(s: &Vec<Expr>) -> (r: TypeDef)
    ensures
        r == block_type(s@),
{
    if s.len() == 0 {
        return TypeDef::null();
    }
    let mut fallible = false;
    let mut i: usize = 0;
    while i < s.len()
        invariant
            i <= s@.len(),
            fallible == some_fallible(s@.subrange(0, i as int)),
        decreases s@.len() - i,
    {
        proof {
            let p = s@.subrange(0, i + 1);
            if some_fallible(p) {
                let j = choose|j: int| 0 <= j < p.len() && type_of(#[trigger] p[j]).fallible;
                if j < i {
                    assert(s@.subrange(0, i as int)[j] == p[j]);
                }
            }
            if fallible {
                let j = choose|j: int| 0 <= j < i && type_of(#[trigger] s@.subrange(0, i as int)[j]).fallible;
                assert(p[j] == s@.subrange(0, i as int)[j]);
            }
            assert(p[i as int] == s@[i as int]);
        }
        fallible = fallible || s[i].type_def().fallible;
        i += 1;
    }
    assert(s@.subrange(0, s@.len() as int) == s@);
    s[s.len() - 1].type_def().with_fallibility(fallible)
}

/// Type-checks a sequence of statements in order, threading the state.
pub fn compile_block(
    nodes: &Vec<Node>,
    fns: &Vec<Function>,
    config: CompileConfig,
    state: &mut TypeState,
    diags: &mut Vec<Diagnostic>,
) -> (r: Vec<Expr>)
    requires
        old(state).wf(),
    ensures
        final(state).wf(),
        final(state).external.target.view() == old(state).external.target.view(),
        extends(final(diags)@, old(diags)@),
        r@.len() == nodes@.len(),
        forall|i: int| 0 <= i < r@.len() ==> flows(#[trigger] r@[i]),
        ({
            let (d, l, ts) = check_block(
                *nodes,
                nodes@.len() as nat,
                fns@,
                config,
                old(state).local.view(),
                old(state).external.target.view(),
            );
            &&& views(final(diags)@) == views(old(diags)@) + d
            &&& final(state).local.view() == l
            &&& types_of(r@) == ts
        }),
        forall|i: int| 0 <= i < r@.len() ==> mirrors(#[trigger] nodes@[i], r@[i], fns@),
        forall|i: int|
            0 <= i < r@.len() ==> typed_as(
                #[trigger] nodes@[i],
                r@[i],
                fns@,
                config,
                check_block(*nodes, i as nat, fns@, config, old(state).local.view(), old(state).external.target.view()).1,
                old(state).external.target.view(),
            ),
        forall|i: int| 0 <= i < r@.len() ==> has_invalid(#[trigger] r@[i]) ==> error_since(final(diags)@, old(diags)@.len() as int),
    decreases nodes, 0nat,
{
    let ghost d0 = diags@;
    proof {
        lemma_extends_refl(d0);
    }
    let ghost l0 = state.local.view();
    let ghost x0 = state.external.target.view();
    let mut out: Vec<Expr> = Vec::new();
    let mut i: usize = 0;
    proof {
        assert(views(d0) + Seq::<DiagnosticView>::empty() =~= views(d0));
        assert(types_of(out@) =~= Seq::<TypeDef>::empty());
    }
    while i < nodes.len()
        invariant
            l0 == old(state).local.view(),
            x0 == old(state).external.target.view(),
            forall|j: int| 0 <= j < i ==> mirrors(#[trigger] nodes@[j], out@[j], fns@),
            forall|j: int|
                0 <= j < i ==> typed_as(#[trigger] nodes@[j], out@[j], fns@, config, check_block(*nodes, j as nat, fns@, config, l0, x0).1, x0),
            forall|j: int| 0 <= j < i ==> has_invalid(#[trigger] out@[j]) ==> error_since(diags@, d0.len() as int),
            ({
                let (d, l, ts) = check_block(*nodes, i as nat, fns@, config, l0, x0);
                &&& views(diags@) == views(d0) + d
                &&& state.local.view() == l
                &&& types_of(out@) == ts
            }),
            state.wf(),
            state.external.target.view() == old(state).external.target.view(),
            extends(diags@, d0),
            d0 == old(diags)@,
            i <= nodes@.len(),
            out@.len() == i,
            forall|j: int| 0 <= j < i ==> flows(#[trigger] out@[j]),
        decreases nodes@.len() - i,
    {
        let ghost d1 = diags@;
        proof {
            vstd::std_specs::vec::axiom_vec_index_decreases(*nodes, i as int);
        }
        let ghost before = out@;
        let e = compile_node(&nodes[i], fns, config, state, diags);
        proof {
            lemma_extends_trans(d0, d1, diags@);
            let (d, l, ts) = check_block(*nodes, i as nat, fns@, config, l0, x0);
            let (d2, l2, t) = check(nodes@[i as int], fns@, config, l, x0);
            assert(views(d0) + d + d2 =~= views(d0) + (d + d2));
        }
        out.push(e);
        proof {
            assert(types_of(out@) =~= types_of(before).push(type_of(e)));
            assert forall|j: int| 0 <= j < i + 1 implies has_invalid(#[trigger] out@[j]) ==> error_since(diags@, d0.len() as int) by {
                if j < i && has_invalid(out@[j]) {
                    assert(out@[j] == before[j]);
                    lemma_error_since_extends(d1, diags@, d0.len() as int, d0.len() as int);
                }
                if j == i && has_invalid(out@[j]) {
                    lemma_extends_refl(diags@);
                    lemma_error_since_extends(diags@, diags@, d1.len() as int, d0.len() as int);
                }
            }
            assert forall|j: int| 0 <= j < i + 1 implies mirrors(#[trigger] nodes@[j], out@[j], fns@) by {
                if j < i {
                    assert(out@[j] == before[j]);
                }
            }
            assert forall|j: int| 0 <= j < i + 1 implies typed_as(#[trigger] nodes@[j], out@[j], fns@, config, check_block(*nodes, j as nat, fns@, config, l0, x0).1, x0) by {
                if j < i {
                    assert(out@[j] == before[j]);
                }
            }
        }
        i += 1;
    }
    out
}

} // verus!
