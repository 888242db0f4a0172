use vstd::prelude::*;
use crate::type_def::TypeDef;
use vstd::string::StringSliceAdditionalSpecFns;

verus! {

#[derive(Clone, Copy, Debug, PartialEq, Eq, Structural)]
pub enum Severity {
    Error,
    Warning,
    Note,
}

/// What a compile-time finding is about.
#[derive(Clone, Debug)]
pub enum DiagnosticKind {
    /// A variable read before any assignment.
    UndefinedVariable(Vec<u8>),
    /// A call of a name that no registered function has.
    UndefinedFunction(Vec<u8>),
    /// A call with a number of arguments that the function does not take.
    ArityMismatch { expected: usize, given: usize },
    /// An argument whose kinds are not all accepted by its parameter.
    ArgumentType { parameter: usize, given: TypeDef, accepts: TypeDef },
    /// A fallible call that no handling form acknowledges.
    UnhandledFallible,
    /// A call of a deprecated function; the index is its place in the registry.
    Deprecated { function: usize },
    /// Operands of `+` that are neither both integers nor both strings.
    OperandMismatch { lhs: TypeDef, rhs: TypeDef },
    /// A condition that may be something other than a boolean.
    ConditionNotBoolean { given: TypeDef },
    /// Source text that the parser refused, with the parser's own message.
    Malformed(Vec<u8>),
}

/// A stretch of source text, as byte offsets: `start` inclusive, `end` exclusive.
#[derive(Clone, Copy, Debug, PartialEq, Eq, Structural)]
pub struct Span {
    pub start: usize,
    pub end: usize,
}

/// A compile-time finding, with the span of the source it is about.
#[derive(Clone, Debug)]
pub struct Diagnostic {
    pub severity: Severity,
    pub kind: DiagnosticKind,
    pub span: Span,
}

/// Appends the bytes of `s`.
pub fn append_str(v: &mut Vec<u8>, s: &str)
    ensures
        final(v)@ == old(v)@ + s.spec_bytes(),
{
    let b = s.as_bytes();
    let mut i: usize = 0;
    let ghost start = v@;
    while i < b.len()
        invariant
            i <= b@.len(),
            b@ == s.spec_bytes(),
            v@ == start + b@.subrange(0, i as int),
        decreases b@.len() - i,
    {
        v.push(b[i]);
        assert(b@.subrange(0, i + 1) == b@.subrange(0, i as int).push(b@[i as int]));
        i += 1;
    }
    assert(b@.subrange(0, b@.len() as int) == b@);
}

/// Appends the bytes of `s`.
pub fn append_bytes(v: &mut Vec<u8>, s: &Vec<u8>)
    ensures
        final(v)@ == old(v)@ + s@,
{
    let mut i: usize = 0;
    let ghost start = v@;
    while i < s.len()
        invariant
            i <= s@.len(),
            v@ == start + s@.subrange(0, i as int),
        decreases s@.len() - i,
    {
        v.push(s[i]);
        assert(s@.subrange(0, i + 1) == s@.subrange(0, i as int).push(s@[i as int]));
        i += 1;
    }
    assert(s@.subrange(0, s@.len() as int) == s@);
}

/// The content of a finding's kind, names as byte sequences.
pub enum KindView {
    UndefinedVariable(Seq<u8>),
    UndefinedFunction(Seq<u8>),
    ArityMismatch { expected: usize, given: usize },
    ArgumentType { parameter: usize, given: TypeDef, accepts: TypeDef },
    UnhandledFallible,
    Deprecated { function: usize },
    OperandMismatch { lhs: TypeDef, rhs: TypeDef },
    ConditionNotBoolean { given: TypeDef },
    Malformed(Seq<u8>),
}

/// The content of a finding.
pub struct DiagnosticView {
    pub severity: Severity,
    pub kind: KindView,
    pub span: Span,
}

/// The contents of a list of findings.
pub open spec fn views(d: Seq<Diagnostic>) -> Seq<DiagnosticView> {
    d.map_values(|x: Diagnostic| x@)
}

pub proof fn lemma_views_push(a: Seq<Diagnostic>, x: Diagnostic)
    ensures
        views(a.push(x)) == views(a).push(x@),
{
    assert(views(a.push(x)) =~= views(a).push(x@));
}

pub proof fn lemma_views_add(a: Seq<Diagnostic>, b: Seq<Diagnostic>)
    ensures
        views(a + b) == views(a) + views(b),
{
    assert(views(a + b) =~= views(a) + views(b));
}

impl Diagnostic {
    pub open spec fn view(&self) -> DiagnosticView {
        DiagnosticView {
            severity: self.severity,
            kind: match self.kind {
                DiagnosticKind::UndefinedVariable(n) => KindView::UndefinedVariable(n@),
                DiagnosticKind::UndefinedFunction(n) => KindView::UndefinedFunction(n@),
                DiagnosticKind::ArityMismatch { expected, given } => KindView::ArityMismatch {
                    expected,
                    given,
                },
                DiagnosticKind::ArgumentType { parameter, given, accepts } =>
                    KindView::ArgumentType { parameter, given, accepts },
                DiagnosticKind::UnhandledFallible => KindView::UnhandledFallible,
                DiagnosticKind::Deprecated { function } => KindView::Deprecated { function },
                DiagnosticKind::OperandMismatch { lhs, rhs } => KindView::OperandMismatch {
                    lhs,
                    rhs,
                },
                DiagnosticKind::ConditionNotBoolean { given } => KindView::ConditionNotBoolean {
                    given,
                },
                DiagnosticKind::Malformed(m) => KindView::Malformed(m@),
            },
            span: self.span,
        }
    }
    pub fn error(kind: DiagnosticKind, span: Span) -> (r: Diagnostic)
        ensures
            r.severity == Severity::Error,
            r.kind == kind,
            r.span == span,
    {
        Diagnostic { severity: Severity::Error, kind, span }
    }

    pub open spec fn is_error_spec(&self) -> bool {
        self.severity == Severity::Error
    }

    pub fn is_error(&self) -> (r: bool)
        ensures
            r == self.is_error_spec(),
    {
        match self.severity {
            Severity::Error => true,
            _ => false,
        }
    }

    /// The finding's text, as bytes.
    pub fn message(&self) -> (r: Vec<u8>)
        ensures
            self.kind matches DiagnosticKind::UndefinedVariable(n) ==> r@
                == "undefined variable: ".spec_bytes() + n@,
            self.kind matches DiagnosticKind::UndefinedFunction(n) ==> r@
                == "undefined function: ".spec_bytes() + n@,
            self.kind is UnhandledFallible ==> r@ == "unhandled fallible operation".spec_bytes(),
            self.kind is ArityMismatch ==> r@ == "wrong number of arguments".spec_bytes(),
            self.kind is ArgumentType ==> r@ == "argument type mismatch".spec_bytes(),
            self.kind is Deprecated ==> r@ == "deprecated function".spec_bytes(),
            self.kind is OperandMismatch ==> r@ == "type mismatch".spec_bytes(),
            self.kind is ConditionNotBoolean ==> r@ == "condition is not a boolean".spec_bytes(),
            self.kind matches DiagnosticKind::Malformed(m) ==> r@ == "malformed source: ".spec_bytes()
                + m@,
    {
        let mut r: Vec<u8> = Vec::new();
        match &self.kind {
            DiagnosticKind::UndefinedVariable(n) => {
                append_str(&mut r, "undefined variable: ");
                append_bytes(&mut r, n);
            },
            DiagnosticKind::UndefinedFunction(n) => {
                append_str(&mut r, "undefined function: ");
                append_bytes(&mut r, n);
            },
            DiagnosticKind::ArityMismatch { .. } => append_str(&mut r, "wrong number of arguments"),
            DiagnosticKind::ArgumentType { .. } => append_str(&mut r, "argument type mismatch"),
            DiagnosticKind::UnhandledFallible => append_str(&mut r, "unhandled fallible operation"),
            DiagnosticKind::Deprecated { .. } => append_str(&mut r, "deprecated function"),
            DiagnosticKind::OperandMismatch { .. } => append_str(&mut r, "type mismatch"),
            DiagnosticKind::ConditionNotBoolean { .. } => append_str(
                &mut r,
                "condition is not a boolean",
            ),
            DiagnosticKind::Malformed(m) => {
                append_str(&mut r, "malformed source: ");
                append_bytes(&mut r, m);
            },
        }
        proof {
            assert(Seq::<u8>::empty() + "unhandled fallible operation".spec_bytes() == "unhandled fallible operation".spec_bytes());
        }
        r
    }
}

} // verus!
