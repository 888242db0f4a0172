use vstd::prelude::*;

verus! {

/// Compile-time description of the shapes a value may take, plus whether
/// producing it may fail. Each flag says that the value may be of that kind.
#[derive(Clone, Copy, Debug, PartialEq, Eq, Structural)]
pub struct TypeDef {
    pub bytes: bool,
    pub integer: bool,
    pub float: bool,
    pub boolean: bool,
    pub timestamp: bool,
    pub null: bool,
    pub array: bool,
    pub object: bool,
    pub regex: bool,
    pub fallible: bool,
}

/// The lattice join: kinds are united and fallibility is or-ed.
pub open spec fn join(a: TypeDef, b: TypeDef) -> TypeDef {
    TypeDef {
        bytes: a.bytes || b.bytes,
        integer: a.integer || b.integer,
        float: a.float || b.float,
        boolean: a.boolean || b.boolean,
        timestamp: a.timestamp || b.timestamp,
        null: a.null || b.null,
        array: a.array || b.array,
        object: a.object || b.object,
        regex: a.regex || b.regex,
        fallible: a.fallible || b.fallible,
    }
}

/// Every kind that `a` admits is admitted by `b` (fallibility is not a kind).
pub open spec fn kinds_within(a: TypeDef, b: TypeDef) -> bool {
    &&& a.bytes ==> b.bytes
    &&& a.integer ==> b.integer
    &&& a.float ==> b.float
    &&& a.boolean ==> b.boolean
    &&& a.timestamp ==> b.timestamp
    &&& a.null ==> b.null
    &&& a.array ==> b.array
    &&& a.object ==> b.object
    &&& a.regex ==> b.regex
}

/// The type admits at least one kind.
pub open spec fn has_kind(a: TypeDef) -> bool {
    !kinds_within(a, spec_never())
}

/// The type of a stored value as a program reads it: reading cannot fail,
/// and a type that admits no kind is read as admitting every kind.
pub open spec fn finished(a: TypeDef) -> TypeDef {
    if has_kind(a) {
        with_fallible(a, false)
    } else {
        spec_any()
    }
}

/// Same kinds, with the fallibility flag set to `f`.
pub open spec fn with_fallible(a: TypeDef, f: bool) -> TypeDef {
    TypeDef { fallible: f, ..a }
}

pub open spec fn spec_never() -> TypeDef {
    TypeDef {
        bytes: false,
        integer: false,
        float: false,
        boolean: false,
        timestamp: false,
        null: false,
        array: false,
        object: false,
        regex: false,
        fallible: false,
    }
}

pub open spec fn spec_any() -> TypeDef {
    TypeDef {
        bytes: true,
        integer: true,
        float: true,
        boolean: true,
        timestamp: true,
        null: true,
        array: true,
        object: true,
        regex: true,
        fallible: false,
    }
}

pub open spec fn spec_bytes() -> TypeDef {
    TypeDef { bytes: true, ..spec_never() }
}

pub open spec fn spec_integer() -> TypeDef {
    TypeDef { integer: true, ..spec_never() }
}

pub open spec fn spec_boolean() -> TypeDef {
    TypeDef { boolean: true, ..spec_never() }
}

pub open spec fn spec_null() -> TypeDef {
    TypeDef { null: true, ..spec_never() }
}

impl TypeDef {
    /// No kind, infallible: the neutral element of the join.
    pub fn never() -> (r: TypeDef)
        ensures
            r == spec_never(),
    {
        TypeDef {
            bytes: false,
            integer: false,
            float: false,
            boolean: false,
            timestamp: false,
            null: false,
            array: false,
            object: false,
            regex: false,
            fallible: false,
        }
    }

    /// Every kind, infallible.
    pub fn any() -> (r: TypeDef)
        ensures
            r == spec_any(),
    {
        TypeDef {
            bytes: true,
            integer: true,
            float: true,
            boolean: true,
            timestamp: true,
            null: true,
            array: true,
            object: true,
            regex: true,
            fallible: false,
        }
    }

    pub fn bytes() -> (r: TypeDef)
        ensures
            r == spec_bytes(),
    {
        TypeDef { bytes: true, ..TypeDef::never() }
    }

    pub fn integer() -> (r: TypeDef)
        ensures
            r == spec_integer(),
    {
        TypeDef { integer: true, ..TypeDef::never() }
    }

    pub fn boolean() -> (r: TypeDef)
        ensures
            r == spec_boolean(),
    {
        TypeDef { boolean: true, ..TypeDef::never() }
    }

    pub fn null() -> (r: TypeDef)
        ensures
            r == spec_null(),
    {
        TypeDef { null: true, ..TypeDef::never() }
    }

    /// The lattice join of two types.
    pub fn merge(&self, other: &TypeDef) -> (r: TypeDef)
        ensures
            r == join(*self, *other),
    {
        TypeDef {
            bytes: self.bytes || other.bytes,
            integer: self.integer || other.integer,
            float: self.float || other.float,
            boolean: self.boolean || other.boolean,
            timestamp: self.timestamp || other.timestamp,
            null: self.null || other.null,
            array: self.array || other.array,
            object: self.object || other.object,
            regex: self.regex || other.regex,
            fallible: self.fallible || other.fallible,
        }
    }

    /// The same kinds, with the given fallibility.
    pub fn with_fallibility(&self, fallible: bool) -> (r: TypeDef)
        ensures
            r == with_fallible(*self, fallible),
    {
        TypeDef { fallible, ..*self }
    }

    /// Whether every kind of `self` is a kind of `other`.
    pub fn is_subset_of(&self, other: &TypeDef) -> (r: bool)
        ensures
            r == kinds_within(*self, *other),
    {
        (!self.bytes || other.bytes) && (!self.integer || other.integer) && (!self.float
            || other.float) && (!self.boolean || other.boolean) && (!self.timestamp
            || other.timestamp) && (!self.null || other.null) && (!self.array || other.array)
            && (!self.object || other.object) && (!self.regex || other.regex)
    }

    /// The type as a read of a stored value has it: infallible, with an
    /// empty kind-set replaced by every kind.
    pub fn finish(&self) -> (r: TypeDef)
        ensures
            r == finished(*self),
            has_kind(r),
    {
        if self.is_subset_of(&TypeDef::never()) {
            TypeDef::any()
        } else {
            self.with_fallibility(false)
        }
    }

    pub fn is_fallible(&self) -> (r: bool)
        ensures
            r == self.fallible,
    {
        self.fallible
    }
}

/// The join is commutative.
pub proof fn lemma_join_commutative(a: TypeDef, b: TypeDef)
    ensures
        join(a, b) == join(b, a),
{
}

/// The join is associative.
pub proof fn lemma_join_associative(a: TypeDef, b: TypeDef, c: TypeDef)
    ensures
        join(join(a, b), c) == join(a, join(b, c)),
{
}

/// Joining a type with itself leaves it unchanged.
pub proof fn lemma_join_idempotent(a: TypeDef)
    ensures
        join(a, a) == a,
{
}

/// A join is fallible exactly when one of its operands is.
pub proof fn lemma_join_fallible(a: TypeDef, b: TypeDef)
    ensures
        join(a, b).fallible <==> (a.fallible || b.fallible),
        kinds_within(a, join(a, b)),
        kinds_within(b, join(a, b)),
{
}

} // verus!
