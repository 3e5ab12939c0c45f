//! Global bookkeeping in two parts: `GlobalRegistry` interns source names
//! to stable `GlobalId`s, and `GlobalStore` holds the current runtime
//! value of each id, telling "not yet defined" apart from "defined".
use vstd::prelude::*;
use crate::ids::GlobalId;
use crate::text::str_eq;
use crate::value::Value;
use crate::expand::ForConstantSource;

verus! {

broadcast use vstd::std_specs::vec::group_vec_axioms;

/// Interns global names to stable ids in first-seen order: the id of a
/// name is its position in `names`, and no name occurs twice.
#[derive(Debug)]
pub struct GlobalRegistry {
    names: Vec<String>,
}

/// No name occurs twice in `names`.
pub open spec fn distinct_names(names: Seq<Seq<char>>) -> bool {
    forall|i: int, j: int| 0 <= i < j < names.len() ==> names[i] != names[j]
}

impl GlobalRegistry {
    /// The interned names, indexed by id.
    pub closed spec fn view(&self) -> Seq<Seq<char>> {
        self.names@.map_values(|s: String| s@)
    }

    #[verifier::type_invariant]
    closed spec fn wf(&self) -> bool {
        &&& self.names@.len() <= u32::MAX + 1
        &&& forall|i: int, j: int| 0 <= i < j < self.names@.len() ==> self.names@[i]@ != self.names@[j]@
    }

    pub fn new() -> (r: Self)
        ensures
            r@ == Seq::<Seq<char>>::empty(),
    {
        GlobalRegistry { names: Vec::new() }
    }

    /// The id of `name`, if it has been interned.
    pub fn lookup(&self, name: &str) -> (r: Option<GlobalId>)
        ensures
            distinct_names(self@),
            match r {
                Some(id) => (id.0 as int) < self@.len() && self@[id.0 as int] == name@ && id.0 == self@.index_of(name@),
                None => !self@.contains(name@),
            },
    {
        proof {
            use_type_invariant(self);
            assert forall|a: int, b: int| 0 <= a < b < self@.len() implies self@[a] != self@[b] by {
                assert(self@[a] == self.names@[a]@);
                assert(self@[b] == self.names@[b]@);
            }
        }
        let mut i: usize = 0;
        while i < self.names.len()
            invariant
                self.wf(),
                i <= self.names@.len(),
                forall|k: int| 0 <= k < i ==> self.names@[k]@ != name@,
            decreases self.names@.len() - i,
        {
            if str_eq(self.names[i].as_str(), name) {
                assert(self@[i as int] == name@);
                proof {
                    let k = self@.index_of(name@);
                    assert(0 <= k < self@.len() && self@[k] == name@);
                    if k != i {
                        if k < i {
                            assert(self.names@[k]@ != name@);
                        }
                    }
                }
                return Some(GlobalId(i as u32));
            }
            i += 1;
        }
        proof {
            if self@.contains(name@) {
                let k = choose|k: int| 0 <= k < self@.len() && self@[k] == name@;
                assert(self.names@[k]@ == name@);
            }
        }
        None
    }

    /// The existing id of `name`, or a new one at the end. The same name
    /// always maps to the same id, so redefining a global reuses its slot.
    pub fn intern(&mut self, name: &str) -> (id: GlobalId)
        requires
            old(self)@.contains(name@) || old(self)@.len() <= u32::MAX,
        ensures
            (id.0 as int) < final(self)@.len(),
            final(self)@[id.0 as int] == name@,
            id.0 == final(self)@.index_of(name@),
            old(self)@.contains(name@) ==> id.0 == old(self)@.index_of(name@),
            distinct_names(final(self)@),
            old(self)@.contains(name@) ==> final(self)@ == old(self)@,
            !old(self)@.contains(name@) ==> final(self)@ == old(self)@.push(name@),
    {
        proof {
            use_type_invariant(&*self);
        }
        if let Some(id) = self.lookup(name) {
            return id;
        }
        let id = GlobalId(self.names.len() as u32);
        proof {
            assert forall|k: int| 0 <= k < self.names@.len() implies self.names@[k]@ != name@ by {
                assert(self@[k] == self.names@[k]@);
            }
        }
        let mut names: Vec<String> = Vec::new();
        std::mem::swap(&mut names, &mut self.names);
        names.push(name.to_owned());
        self.names = names;
        proof {
            assert(self@ =~= old(self)@.push(name@));
            let k = self@.index_of(name@);
            assert(self@[id.0 as int] == name@);
            assert(0 <= k < self@.len() && self@[k] == name@);
            if k != id.0 {
                assert(old(self)@[k] == name@);
            }
        }
        id
    }

    /// The name interned under `id`.
    pub fn name(&self, id: GlobalId) -> (r: Option<&str>)
        ensures
            (id.0 as int) < self@.len() ==> (r matches Some(s) && s@ == self@[id.0 as int]),
            (id.0 as int) >= self@.len() ==> r.is_none(),
    {
        let i = id.index();
        if i < self.names.len() {
            Some(self.names[i].as_str())
        } else {
            None
        }
    }

    pub fn len(&self) -> (r: usize)
        ensures
            r == self@.len(),
    {
        self.names.len()
    }

    pub fn is_empty(&self) -> (r: bool)
        ensures
            r == (self@.len() == 0),
    {
        self.names.len() == 0
    }
}

impl Default for GlobalRegistry {
    fn default() -> (r: Self)
        ensures
            r@ == Seq::<Seq<char>>::empty(),
    {
        GlobalRegistry::new()
    }
}

/// Interning a name that is already interned changes nothing and gives
/// back its id; interning a new name appends it, so earlier ids keep
/// their names.
pub proof fn law_intern_is_stable(before: Seq<Seq<char>>, after: Seq<Seq<char>>, name: Seq<char>, id: GlobalId, other: int)
    requires
        (id.0 as int) < after.len(),
        after[id.0 as int] == name,
        before.contains(name) ==> after == before,
        !before.contains(name) ==> after == before.push(name),
        0 <= other < before.len(),
    ensures
        after[other] == before[other],
        !before.contains(name) ==> id.0 == before.len(),
{
}

/// Runtime storage for global values, indexed by `GlobalId`. `None` marks
/// a slot that exists but has not been bound yet.
#[derive(Debug)]
pub struct GlobalStore {
    values: Vec<Option<Value>>,
}

impl GlobalStore {
    /// The slots, indexed by id.
    pub closed spec fn view(&self) -> Seq<Option<Value>> {
        self.values@
    }

    pub fn new() -> (r: Self)
        ensures
            r@ == Seq::<Option<Value>>::empty(),
    {
        GlobalStore { values: Vec::new() }
    }

    /// Grows the store so slot `id` exists; new slots are unbound.
    pub fn ensure(&mut self, id: GlobalId)
        ensures
            final(self)@.len() == if (id.0 as int) < old(self)@.len() { old(self)@.len() as int } else { id.0 as int + 1 },
            forall|i: int| 0 <= i < old(self)@.len() ==> #[trigger] final(self)@[i] == old(self)@[i],
            forall|i: int| old(self)@.len() <= i < final(self)@.len() ==> #[trigger] final(self)@[i].is_none(),
    {
        let target = id.index();
        while self.values.len() <= target
            invariant
                target == id.0,
                old(self)@.len() <= self.values@.len(),
                self.values@.len() <= if (id.0 as int) < old(self)@.len() { old(self)@.len() as int } else { id.0 as int + 1 },
                forall|i: int| 0 <= i < old(self)@.len() ==> #[trigger] self.values@[i] == old(self)@[i],
                forall|i: int| old(self)@.len() <= i < self.values@.len() ==> #[trigger] self.values@[i].is_none(),
            decreases target + 1 - self.values@.len(),
        {
            self.values.push(None);
        }
    }

    /// Binds `id` to `value`.
    pub fn define(&mut self, id: GlobalId, value: Value)
        ensures
            final(self)@.len() == if (id.0 as int) < old(self)@.len() { old(self)@.len() as int } else { id.0 as int + 1 },
            final(self)@[id.0 as int] == Some(value),
            forall|i: int| 0 <= i < final(self)@.len() && i != id.0 ==> #[trigger] final(self)@[i]
                == if i < old(self)@.len() { old(self)@[i] } else { None },
    {
        self.ensure(id);
        self.values.set(id.index(), Some(value));
    }

    /// The current value of `id`, or `None` if it has never been bound.
    pub fn get(&self, id: GlobalId) -> (r: Option<Value>)
        ensures
            r == self.spec_get(id),
    {
        let i = id.index();
        if i < self.values.len() {
            match &self.values[i] {
                Some(v) => Some(v.copy()),
                None => None,
            }
        } else {
            None
        }
    }

    pub open spec fn spec_get(&self, id: GlobalId) -> Option<Value> {
        if (id.0 as int) < self@.len() {
            self@[id.0 as int]
        } else {
            None
        }
    }
}

impl Default for GlobalStore {
    fn default() -> (r: Self)
        ensures
            r@ == Seq::<Option<Value>>::empty(),
    {
        GlobalStore::new()
    }
}

/// A read after a `define` gives back the defined value, and every other
/// id reads as before.
pub proof fn law_define_then_get(before: GlobalStore, after: GlobalStore, id: GlobalId, value: Value, other: GlobalId)
    requires
        after@.len() == if (id.0 as int) < before@.len() { before@.len() as int } else { id.0 as int + 1 },
        after@[id.0 as int] == Some(value),
        forall|i: int| 0 <= i < after@.len() && i != id.0 ==> #[trigger] after@[i]
            == if i < before@.len() { before@[i] } else { None },
    ensures
        after.spec_get(id) == Some(value),
        other != id ==> after.spec_get(other) == before.spec_get(other),
{
    if other != id && (other.0 as int) < after@.len() {
        assert(after@[other.0 as int] == if (other.0 as int) < before@.len() { before@[other.0 as int] } else { None });
    }
}

/// Resolves a global name to its current integer value, for `for` ranges
/// during normal execution.
pub struct RuntimeConstants<'a> {
    pub registry: &'a GlobalRegistry,
    pub store: &'a GlobalStore,
}

impl<'a> ForConstantSource for RuntimeConstants<'a> {
    /// The integer currently bound to the global called `name`, if any.
    open spec fn constant_of(&self, name: Seq<char>) -> Option<i64> {
        if self.registry@.contains(name) {
            let id = self.registry@.index_of(name);
            match self.store.spec_get(GlobalId(id as u32)) {
                Some(Value::Int(n)) => Some(n),
                _ => None,
            }
        } else {
            None
        }
    }

    fn integer_constant(&self, name: &str) -> (r: Option<i64>) {
        proof {
            use_type_invariant(self.registry);
        }
        let id = match self.registry.lookup(name) {
            Some(id) => id,
            None => {
                return None;
            },
        };
        proof {
            let k = self.registry@.index_of(name@);
            assert(self.registry@[k] == self.registry.names@[k]@);
            assert(self.registry@[id.0 as int] == self.registry.names@[id.0 as int]@);
        }
        match self.store.get(id) {
            Some(Value::Int(n)) => Some(n),
            _ => None,
        }
    }
}

} // verus!
