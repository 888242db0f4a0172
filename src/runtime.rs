use vstd::prelude::*;
use vstd::string::StringSliceAdditionalSpecFns;

verus! {

/// Available evaluation strategies.
#[derive(Clone, Copy, Debug, PartialEq, Eq, Structural)]
pub enum VrlRuntime {
    /// Tree-walking runtime: the only one, and the default.
    Ast,
}

/// Whether two strings hold the same bytes.
pub fn str_eq(a: &str, b: &str) -> (r: bool)
    ensures
        r == (a.spec_bytes() == b.spec_bytes()),
{
    let x = a.as_bytes();
    let y = b.as_bytes();
    if x.len() != y.len() {
        return false;
    }
    let mut i: usize = 0;
    while i < x.len()
        invariant
            x@ == a.spec_bytes(),
            y@ == b.spec_bytes(),
            x@.len() == y@.len(),
            i <= x@.len(),
            x@.subrange(0, i as int) == y@.subrange(0, i as int),
        decreases x@.len() - i,
    {
        if x[i] != y[i] {
            assert(x@[i as int] != y@[i as int]);
            return false;
        }
        assert(x@.subrange(0, i + 1) == x@.subrange(0, i as int).push(x@[i as int]));
        assert(y@.subrange(0, i + 1) == y@.subrange(0, i as int).push(y@[i as int]));
        i += 1;
    }
    assert(x@ == x@.subrange(0, x@.len() as int));
    assert(y@ == y@.subrange(0, y@.len() as int));
    true
}

impl VrlRuntime {
    /// The runtime that a name selects; "ast" is the only valid name.
    pub fn parse(s: &str) -> (r: Result<VrlRuntime, &'static str>)
        ensures
            r is Ok <==> s.spec_bytes() == "ast".spec_bytes(),
            r matches Ok(v) ==> v == VrlRuntime::Ast,
            r matches Err(m) ==> m.spec_bytes() == "runtime must be ast.".spec_bytes(),
    {
        if str_eq(s, "ast") {
            Ok(VrlRuntime::Ast)
        } else {
            Err("runtime must be ast.")
        }
    }

    /// The runtime's name.
    pub fn as_str(&self) -> (r: &'static str)
        ensures
            *self == VrlRuntime::Ast ==> r.spec_bytes() == "ast".spec_bytes(),
    {
        match self {
            VrlRuntime::Ast => "ast",
        }
    }
}

impl Default for VrlRuntime {
    fn default() -> (r: VrlRuntime)
        ensures
            r == VrlRuntime::Ast,
    {
        VrlRuntime::Ast
    }
}

impl std::str::FromStr for VrlRuntime {
    type Err = &'static str;

    fn from_str(s: &str) -> (r: Result<VrlRuntime, &'static str>)
        ensures
            r is Ok <==> s.spec_bytes() == "ast".spec_bytes(),
            r matches Ok(v) ==> v == VrlRuntime::Ast,
            r matches Err(m) ==> m.spec_bytes() == "runtime must be ast.".spec_bytes(),
    {
        VrlRuntime::parse(s)
    }
}

} // verus!
