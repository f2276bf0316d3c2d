//! Stable small identifiers for types.
//!
//! A registry hands out identifiers `0, 1, 2, ...` to type keys in the order in
//! which they are first asked for, and the same identifier on every later
//! request. Each domain (components, systems, states, events) owns its own
//! registry, so identifiers of different domains never collide with each
//! other's bookkeeping.

use vstd::prelude::*;

verus! {

/// A key that stands for one type (for instance a digest of its `TypeId`, or
/// a constant chosen by hand).
pub type TypeKey = u64;

/// Registry of type keys; the identifier of a key is its position.
pub struct TypeRegistry {
    keys: Vec<TypeKey>,
    capacity: usize,
}

/// The registry after a request for `key`: unchanged when the key is known,
/// else with the key appended.
pub open spec fn registered_after(keys: Seq<TypeKey>, key: TypeKey) -> Seq<TypeKey> {
    if keys.contains(key) {
        keys
    } else {
        keys.push(key)
    }
}

impl View for TypeRegistry {
    type V = Seq<TypeKey>;

    closed spec fn view(&self) -> Seq<TypeKey> {
        self.keys@
    }
}

impl TypeRegistry {
    pub open spec fn wf(&self) -> bool {
        &&& self@.no_duplicates()
        &&& self@.len() <= self.capacity_spec()
    }

    pub closed spec fn capacity_spec(&self) -> nat {
        self.capacity as nat
    }

    /// An empty registry that can hold `capacity` types.
    pub fn new(capacity: usize) -> (r: Self)
        ensures
            r.wf(),
            r@ == Seq::<TypeKey>::empty(),
            r.capacity_spec() == capacity as nat,
    {
        TypeRegistry { keys: Vec::new(), capacity }
    }

    pub fn capacity(&self) -> (r: usize)
        ensures
            r as nat == self.capacity_spec(),
    {
        self.capacity
    }

    /// Number of types registered so far.
    pub fn len(&self) -> (r: usize)
        ensures
            r == self@.len(),
    {
        self.keys.len()
    }

    /// The identifier of `key`, if it has one.
    pub fn lookup(&self, key: TypeKey) -> (r: Option<usize>)
        ensures
            r is None <==> !self@.contains(key),
            r matches Some(id) ==> id < self@.len() && self@[id as int] == key,
    {
        let mut i: usize = 0;
        while i < self.keys.len()
            invariant
                i <= self.keys@.len(),
                forall|j: int| 0 <= j < i ==> self.keys@[j] != key,
            decreases self.keys@.len() - i,
        {
            if self.keys[i] == key {
                return Some(i);
            }
            i = i + 1;
        }
        None
    }

    /// The identifier of `key`: the one it already has, or the next free one.
    /// A registry that is full accepts no new key.
    pub fn id_of(&mut self, key: TypeKey) -> (id: usize)
        requires
            old(self).wf(),
            old(self)@.contains(key) || old(self)@.len() < old(self).capacity_spec(),
        ensures
            final(self).wf(),
            final(self).capacity_spec() == old(self).capacity_spec(),
            final(self)@ == registered_after(old(self)@, key),
            id < final(self)@.len(),
            final(self)@[id as int] == key,
            !old(self)@.contains(key) ==> id == old(self)@.len(),
    {
        match self.lookup(key) {
            Some(id) => id,
            None => {
                let id = self.keys.len();
                self.keys.push(key);
                proof {
                    assert(self@ == old(self)@.push(key));
                    assert forall|i: int, j: int|
                        0 <= i < self@.len() && 0 <= j < self@.len() && i != j implies self@[i]
                        != self@[j] by {
                        if i < id && j < id {
                        } else if i == id {
                            assert(old(self)@[j] == self@[j]);
                        } else {
                            assert(old(self)@[i] == self@[i]);
                        }
                    }
                }
                id
            },
        }
    }
}

/// Type identifiers are stable: a second request for a key gives the
/// identifier of the first and leaves the registry as it was, and two
/// distinct keys never share an identifier.
pub proof fn lemma_type_id_stable(
    keys0: Seq<TypeKey>,
    key: TypeKey,
    other: TypeKey,
    first: int,
    second: int,
    other_id: int,
)
    requires
        keys0.no_duplicates(),
        0 <= first < registered_after(keys0, key).len(),
        registered_after(keys0, key)[first] == key,
        0 <= second < registered_after(registered_after(keys0, key), key).len(),
        registered_after(registered_after(keys0, key), key)[second] == key,
        0 <= other_id < registered_after(keys0, key).len(),
        registered_after(keys0, key)[other_id] == other,
    ensures
        registered_after(registered_after(keys0, key), key) == registered_after(keys0, key),
        first == second,
        key != other ==> first != other_id,
{
    let keys1 = registered_after(keys0, key);
    assert(keys1.contains(key)) by {
        assert(keys1[first] == key);
    }
    if !keys0.contains(key) {
        assert forall|i: int, j: int|
            0 <= i < keys1.len() && 0 <= j < keys1.len() && i != j implies keys1[i]
            != keys1[j] by {
            if i < keys0.len() && j < keys0.len() {
                assert(keys1[i] == keys0[i] && keys1[j] == keys0[j]);
            } else if i == keys0.len() {
                assert(keys1[j] == keys0[j]);
            } else {
                assert(keys1[i] == keys0[i]);
            }
        }
    }
    assert(keys1.no_duplicates());
}

} // verus!
