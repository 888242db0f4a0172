use vstd::prelude::*;
use crate::type_def::{join, lemma_join_associative, lemma_join_commutative, spec_null, TypeDef};

verus! {

/// Whether two byte strings are equal.
pub fn bytes_eq(a: &Vec<u8>, b: &Vec<u8>) -> (r: bool)
    ensures
        r == (a@ == b@),
{
    if a.len() != b.len() {
        return false;
    }
    let mut i: usize = 0;
    while i < a.len()
        invariant
            a@.len() == b@.len(),
            i <= a@.len(),
            a@.subrange(0, i as int) == b@.subrange(0, i as int),
        decreases a@.len() - i,
    {
        if a[i] != b[i] {
            assert(a@[i as int] != b@[i as int]);
            return false;
        }
        assert(a@.subrange(0, i + 1) == a@.subrange(0, i as int).push(a@[i as int]));
        assert(b@.subrange(0, i + 1) == b@.subrange(0, i as int).push(b@[i as int]));
        i += 1;
    }
    assert(a@ == a@.subrange(0, a@.len() as int));
    assert(b@ == b@.subrange(0, b@.len() as int));
    true
}

/// One name and what it is bound to.
#[derive(Clone, Debug)]
pub struct Binding<V> {
    pub name: Vec<u8>,
    pub value: V,
}

/// What an absent side of a merge counts as: a variable that is unset.
pub open spec fn or_null(m: Map<Seq<u8>, TypeDef>, k: Seq<u8>) -> TypeDef {
    if m.contains_key(k) {
        m[k]
    } else {
        spec_null()
    }
}

/// The merge of two branches' variables: every variable of either branch,
/// with the join of its types, an unset side counting as null.
pub open spec fn merge_maps(a: Map<Seq<u8>, TypeDef>, b: Map<Seq<u8>, TypeDef>) -> Map<
    Seq<u8>,
    TypeDef,
> {
    Map::new(
        |k: Seq<u8>| a.contains_key(k) || b.contains_key(k),
        |k: Seq<u8>| join(or_null(a, k), or_null(b, k)),
    )
}

/// Names bound to values of `V`, each name at most once.
#[derive(Clone, Debug)]
pub struct Scope<V> {
    pub bindings: Vec<Binding<V>>,
}

/// Variable types at one point of a compiled unit.
pub type LocalEnv = Scope<TypeDef>;

impl<V> Scope<V> {
    /// No two bindings share a name.
    pub open spec fn wf(&self) -> bool {
        forall|i: int, j: int|
            0 <= i < j < self.bindings@.len() ==> #[trigger] self.bindings@[i].name@
                != #[trigger] self.bindings@[j].name@
    }

    pub open spec fn has(&self, k: Seq<u8>) -> bool {
        exists|i: int| 0 <= i < self.bindings@.len() && #[trigger] self.bindings@[i].name@ == k
    }

    pub open spec fn index_of(&self, k: Seq<u8>) -> int {
        choose|i: int| 0 <= i < self.bindings@.len() && #[trigger] self.bindings@[i].name@ == k
    }

    /// The variables as a map from name to type.
    pub open spec fn view(&self) -> Map<Seq<u8>, V> {
        Map::new(|k: Seq<u8>| self.has(k), |k: Seq<u8>| self.bindings@[self.index_of(k)].value)
    }

    pub proof fn lemma_index(&self, i: int)
        requires
            self.wf(),
            0 <= i < self.bindings@.len(),
        ensures
            self.view().contains_key(self.bindings@[i].name@),
            self.view()[self.bindings@[i].name@] == self.bindings@[i].value,
    {
        let k = self.bindings@[i].name@;
        assert(self.has(k));
        let j = self.index_of(k);
        assert(self.bindings@[j].name@ == k);
        if j < i {
            assert(self.bindings@[j].name@ != self.bindings@[i].name@);
        } else if i < j {
            assert(self.bindings@[i].name@ != self.bindings@[j].name@);
        }
    }

    /// An empty environment.
    pub fn new() -> (r: Scope<V>)
        ensures
            r.wf(),
            r.view() == Map::<Seq<u8>, V>::empty(),
    {
        let r = Scope { bindings: Vec::new() };
        assert(r.view() =~= Map::<Seq<u8>, V>::empty());
        r
    }

    fn find(&self, name: &Vec<u8>) -> (r: Option<usize>)
        ensures
            match r {
                Some(i) => i < self.bindings@.len() && self.bindings@[i as int].name@ == name@,
                None => !self.has(name@),
            },
    {
        let mut i: usize = 0;
        while i < self.bindings.len()
            invariant
                i <= self.bindings@.len(),
                forall|j: int| 0 <= j < i ==> #[trigger] self.bindings@[j].name@ != name@,
            decreases self.bindings@.len() - i,
        {
            if bytes_eq(&self.bindings[i].name, name) {
                return Some(i);
            }
            i += 1;
        }
        None
    }

    /// What a name is bound to, if it is bound.
    pub fn get(&self, name: &Vec<u8>) -> (r: Option<&V>)
        requires
            self.wf(),
        ensures
            r == (if self.view().contains_key(name@) {
                Some(&self.view()[name@])
            } else {
                None::<&V>
            }),
    {
        match self.find(name) {
            Some(i) => {
                proof {
                    self.lemma_index(i as int);
                }
                Some(&self.bindings[i].value)
            },
            None => None,
        }
    }

    /// Whether a name is bound.
    pub fn contains(&self, name: &Vec<u8>) -> (r: bool)
        requires
            self.wf(),
        ensures
            r == self.view().contains_key(name@),
    {
        self.find(name).is_some()
    }

    /// Binds a name, replacing what it was bound to.
    pub fn insert(&mut self, name: Vec<u8>, value: V)
        requires
            old(self).wf(),
        ensures
            final(self).wf(),
            final(self).view() == old(self).view().insert(name@, value),
    {
        let ghost old_env = *self;
        match self.find(&name) {
            Some(i) => {
                let b = Binding { name, value };
                self.bindings.set(i, b);
                assert(self.bindings@ == old_env.bindings@.update(i as int, b));
                assert forall|k: Seq<u8>| #[trigger]
                    self.view().contains_key(k) == old_env.view().insert(
                        name@,
                        value,
                    ).contains_key(k) && (self.view().contains_key(k) ==> self.view()[k]
                        == old_env.view().insert(name@, value)[k]) by {
                    if self.has(k) {
                        let j = self.index_of(k);
                        self.lemma_index(j);
                        if j != i {
                            old_env.lemma_index(j);
                        }
                    }
                    if old_env.has(k) {
                        let j = old_env.index_of(k);
                        old_env.lemma_index(j);
                        assert(self.bindings@[j].name@ == k);
                    }
                }
            },
            None => {
                let ghost b = Binding { name: name, value };
                self.bindings.push(Binding { name, value });
                assert(self.bindings@ == old_env.bindings@.push(b));
                assert(self.wf()) by {
                    assert forall|j: int| 0 <= j < old_env.bindings@.len() implies #[trigger] old_env.bindings@[j].name@ != b.name@ by {
                        if old_env.bindings@[j].name@ == b.name@ {
                            assert(old_env.has(b.name@));
                        }
                    }
                }
                let ghost last = old_env.bindings@.len() as int;
                assert forall|k: Seq<u8>| #[trigger]
                    self.view().contains_key(k) == old_env.view().insert(
                        b.name@,
                        value,
                    ).contains_key(k) && (self.view().contains_key(k) ==> self.view()[k]
                        == old_env.view().insert(b.name@, value)[k]) by {
                    if k == b.name@ {
                        self.lemma_index(last);
                    }
                    if self.has(k) {
                        let j = self.index_of(k);
                        self.lemma_index(j);
                        if j < old_env.bindings@.len() {
                            old_env.lemma_index(j);
                        }
                    }
                    if old_env.has(k) {
                        let j = old_env.index_of(k);
                        old_env.lemma_index(j);
                        assert(self.bindings@[j].name@ == k);
                        self.lemma_index(j);
                    }
                }
            },
        }
        assert(self.view() =~= old_env.view().insert(name@, value));
    }
}

impl Scope<TypeDef> {
    /// A copy of the environment.
    pub fn clone_env(&self) -> (r: Scope<TypeDef>)
        ensures
            r.bindings@.len() == self.bindings@.len(),
            forall|i: int| 0 <= i < self.bindings@.len() ==> (#[trigger] r.bindings@[i]).name@ == self.bindings@[i].name@ && r.bindings@[i].value == self.bindings@[i].value,
            self.wf() ==> r.wf(),
            self.wf() ==> r.view() == self.view(),
    {
        let mut v: Vec<Binding<TypeDef>> = Vec::new();
        let mut i: usize = 0;
        while i < self.bindings.len()
            invariant
                i <= self.bindings@.len(),
                v@.len() == i,
                forall|j: int| 0 <= j < i ==> (#[trigger] v@[j]).name@ == self.bindings@[j].name@ && v@[j].value == self.bindings@[j].value,
            decreases self.bindings@.len() - i,
        {
            v.push(Binding { name: self.bindings[i].name.clone(), value: self.bindings[i].value });
            i += 1;
        }
        let r = Scope { bindings: v };
        proof {
            if self.wf() {
                assert(r.wf());
                assert forall|k: Seq<u8>| true implies (r.has(k) == self.has(k)) by {
                    if r.has(k) {
                        let j = r.index_of(k);
                        assert(self.bindings@[j].name@ == k);
                    }
                    if self.has(k) {
                        let j = self.index_of(k);
                        assert(r.bindings@[j].name@ == k);
                    }
                }
                assert forall|k: Seq<u8>| #[trigger] r.view().contains_key(k) implies r.view()[k] == self.view()[k] by {
                    let j = r.index_of(k);
                    r.lemma_index(j);
                    self.lemma_index(j);
                }
                assert(r.view() =~= self.view());
            }
        }
        r
    }

    /// Whether `k` is the name of one of the first `n` bindings.
    pub open spec fn among_first(&self, n: int, k: Seq<u8>) -> bool {
        exists|j: int| 0 <= j < n && #[trigger] self.bindings@[j].name@ == k
    }

    /// The variables after two branches: every variable of either, with the
    /// join of its types, a branch that left it unset counting as null.
    pub fn merge(&self, other: &LocalEnv) -> (r: LocalEnv)
        requires
            self.wf(),
            other.wf(),
        ensures
            r.wf(),
            r.view() == merge_maps(self.view(), other.view()),
    {
        let mut r: LocalEnv = Scope::new();
        let mut i: usize = 0;
        while i < self.bindings.len()
            invariant
                self.wf(),
                other.wf(),
                r.wf(),
                i <= self.bindings@.len(),
                r.view() == Map::new(
                    |k: Seq<u8>| self.among_first(i as int, k),
                    |k: Seq<u8>| join(or_null(self.view(), k), or_null(other.view(), k)),
                ),
            decreases self.bindings@.len() - i,
        {
            let name = self.bindings[i].name.clone();
            let theirs = match other.get(&name) {
                Some(t) => *t,
                None => TypeDef::null(),
            };
            let t = self.bindings[i].value.merge(&theirs);
            proof {
                self.lemma_index(i as int);
                assert(name@ == self.bindings@[i as int].name@);
            }
            let ghost before = r.view();
            r.insert(name, t);
            proof {
                assert forall|k: Seq<u8>| #[trigger] self.among_first(i + 1, k) == (self.among_first(i as int, k) || k == self.bindings@[i as int].name@) by {
                    if self.among_first(i + 1, k) {
                        let j = choose|j: int| 0 <= j < i + 1 && #[trigger] self.bindings@[j].name@ == k;
                        if j < i {
                            assert(self.among_first(i as int, k));
                        }
                    }
                    if k == self.bindings@[i as int].name@ {
                        assert(self.bindings@[i as int].name@ == k);
                    }
                    if self.among_first(i as int, k) {
                        let j = choose|j: int| 0 <= j < i && #[trigger] self.bindings@[j].name@ == k;
                        assert(self.bindings@[j].name@ == k);
                    }
                }
                assert(r.view() =~= Map::new(
                    |k: Seq<u8>| self.among_first(i + 1, k),
                    |k: Seq<u8>| join(or_null(self.view(), k), or_null(other.view(), k)),
                ));
            }
            i += 1;
        }
        proof {
            assert forall|k: Seq<u8>| #[trigger] self.among_first(self.bindings@.len() as int, k) == self.view().contains_key(k) by {
                if self.has(k) {
                    let j = self.index_of(k);
                    assert(self.bindings@[j].name@ == k);
                }
            }
        }
        let mut i: usize = 0;
        while i < other.bindings.len()
            invariant
                self.wf(),
                other.wf(),
                r.wf(),
                i <= other.bindings@.len(),
                r.view() == Map::new(
                    |k: Seq<u8>| self.view().contains_key(k) || other.among_first(i as int, k),
                    |k: Seq<u8>| join(or_null(self.view(), k), or_null(other.view(), k)),
                ),
            decreases other.bindings@.len() - i,
        {
            proof {
                other.lemma_index(i as int);
            }
            if !self.contains(&other.bindings[i].name) {
                let name = other.bindings[i].name.clone();
                let t = TypeDef::null().merge(&other.bindings[i].value);
                r.insert(name, t);
            }
            proof {
                assert forall|k: Seq<u8>| #[trigger] other.among_first(i + 1, k) == (other.among_first(i as int, k) || k == other.bindings@[i as int].name@) by {
                    if other.among_first(i + 1, k) {
                        let j = choose|j: int| 0 <= j < i + 1 && #[trigger] other.bindings@[j].name@ == k;
                        if j < i {
                            assert(other.among_first(i as int, k));
                        }
                    }
                    if k == other.bindings@[i as int].name@ {
                        assert(other.bindings@[i as int].name@ == k);
                    }
                    if other.among_first(i as int, k) {
                        let j = choose|j: int| 0 <= j < i && #[trigger] other.bindings@[j].name@ == k;
                        assert(other.bindings@[j].name@ == k);
                    }
                }
                assert(r.view() =~= Map::new(
                    |k: Seq<u8>| self.view().contains_key(k) || other.among_first(i + 1, k),
                    |k: Seq<u8>| join(or_null(self.view(), k), or_null(other.view(), k)),
                ));
            }
            i += 1;
        }
        proof {
            assert forall|k: Seq<u8>| #[trigger] other.among_first(other.bindings@.len() as int, k) == other.view().contains_key(k) by {
                if other.has(k) {
                    let j = other.index_of(k);
                    assert(other.bindings@[j].name@ == k);
                }
            }
            assert(r.view() =~= merge_maps(self.view(), other.view()));
        }
        r
    }
}

/// The assumed schema of the event before compilation: the type of each
/// top-level field that the host declares.
#[derive(Clone, Debug)]
pub struct ExternalEnv {
    pub target: LocalEnv,
}

impl ExternalEnv {
    /// A schema that declares no field.
    pub fn new() -> (r: ExternalEnv)
        ensures
            r.target.wf(),
            r.target.view() == Map::<Seq<u8>, TypeDef>::empty(),
    {
        ExternalEnv { target: Scope::new() }
    }
}

/// Full compile-time knowledge at one point: local variables and the event's schema.
#[derive(Clone, Debug)]
pub struct TypeState {
    pub local: LocalEnv,
    pub external: ExternalEnv,
}

impl TypeState {
    pub open spec fn wf(&self) -> bool {
        self.local.wf() && self.external.target.wf()
    }

    /// The state after two branches that started from one state: the local
    /// variables are merged, the schema, which no branch changes, is kept.
    pub fn merge(&self, other: &TypeState) -> (r: TypeState)
        requires
            self.wf(),
            other.wf(),
        ensures
            r.wf(),
            r.local.view() == merge_maps(self.local.view(), other.local.view()),
            r.external.target.view() == self.external.target.view(),
    {
        TypeState { local: self.local.merge(&other.local), external: ExternalEnv { target: self.external.target.clone_env() } }
    }
}

/// Merging two branches does not depend on their order.
pub proof fn lemma_merge_commutative(a: Map<Seq<u8>, TypeDef>, b: Map<Seq<u8>, TypeDef>)
    ensures
        merge_maps(a, b) == merge_maps(b, a),
{
    assert forall|k: Seq<u8>| true implies join(or_null(a, k), or_null(b, k)) == join(or_null(b, k), or_null(a, k)) by {
        lemma_join_commutative(or_null(a, k), or_null(b, k));
    }
    assert(merge_maps(a, b) =~= merge_maps(b, a));
}

/// A merge of three or more branches does not depend on how it is grouped.
pub proof fn lemma_merge_associative(
    a: Map<Seq<u8>, TypeDef>,
    b: Map<Seq<u8>, TypeDef>,
    c: Map<Seq<u8>, TypeDef>,
)
    ensures
        merge_maps(merge_maps(a, b), c) == merge_maps(a, merge_maps(b, c)),
{
    let l = merge_maps(merge_maps(a, b), c);
    let r = merge_maps(a, merge_maps(b, c));
    assert forall|k: Seq<u8>| l.contains_key(k) implies l[k] == r[k] by {
        lemma_join_associative(or_null(a, k), or_null(b, k), or_null(c, k));
        assert(join(spec_null(), spec_null()) == spec_null());
        if !a.contains_key(k) && !b.contains_key(k) {
            assert(or_null(merge_maps(a, b), k) == join(or_null(a, k), or_null(b, k)));
        }
        if !b.contains_key(k) && !c.contains_key(k) {
            assert(or_null(merge_maps(b, c), k) == join(or_null(b, k), or_null(c, k)));
        }
    }
    assert(l =~= r);
}

} // verus!
