//! The registry that gives every distinct material one index.

use vstd::prelude::*;

verus! {

/// A registry holds at most this many materials: an index has 32 bits.
pub const MAX_MATERIALS: usize = 0xffff_ffff;

/// The keys after `key` has been registered: as before where it was known,
/// with `key` at the end where it was not.
pub open spec fn registered(keys: Seq<u64>, key: u64) -> Seq<u64> {
    if keys.contains(key) {
        keys
    } else {
        keys.push(key)
    }
}

/// Materials in the order in which they were first met. A material is
/// known by its key; its index is its position and never changes.
pub struct Materials {
    keys: Vec<u64>,
}

impl View for Materials {
    type V = Seq<u64>;

    closed spec fn view(&self) -> Seq<u64> {
        self.keys@
    }
}

impl Materials {
    #[verifier::type_invariant]
    spec fn distinct(self) -> bool {
        self.keys@.no_duplicates() && self.keys@.len() <= MAX_MATERIALS
    }

    /// A registry without materials.
    pub fn new() -> (materials: Materials)
        ensures
            materials@ == Seq::<u64>::empty(),
    {
        Materials { keys: Vec::new() }
    }

    /// The index of the material `key`, which is registered now if it was
    /// not before. `None` where the material is new and the registry full.
    pub fn add(&mut self, key: u64) -> (index: Option<u32>)
        ensures
            index is Some <==> old(self)@.contains(key) || old(self)@.len() < MAX_MATERIALS,
            index is Some ==> final(self)@ == registered(old(self)@, key),
            index is None ==> final(self)@ == old(self)@,
            index matches Some(i) ==> i < final(self)@.len() && final(self)@[i as int] == key && i
                == final(self)@.index_of(key),
            final(self)@.no_duplicates(),
            final(self)@.len() <= MAX_MATERIALS,
    {
        proof {
            use_type_invariant(&*self);
        }
        let mut i: usize = 0;
        while i < self.keys.len()
            invariant
                i <= self.keys@.len(),
                *self == *old(self),
                self.keys@.no_duplicates(),
                self.keys@.len() <= MAX_MATERIALS,
                forall|k: int| 0 <= k < i ==> self.keys@[k] != key,
            decreases self.keys@.len() - i,
        {
            if self.keys[i] == key {
                proof {
                    lemma_index_of_distinct(self.keys@, key, i as int);
                }
                return Some(i as u32);
            }
            i += 1;
        }
        if self.keys.len() >= MAX_MATERIALS {
            return None;
        }
        let index = self.keys.len() as u32;
        proof {
            lemma_push_keeps_distinct(self.keys@, key);
            lemma_index_of_distinct(self.keys@.push(key), key, index as int);
        }
        // The list grows outside the registry, whose keys cannot be borrowed
        // for writing while they belong to it.
        let mut taken = Materials::new();
        core::mem::swap(self, &mut taken);
        let Materials { mut keys } = taken;
        keys.push(key);
        *self = Materials { keys };
        Some(index)
    }

    /// The number of materials.
    pub fn len(&self) -> (len: usize)
        ensures
            len == self@.len(),
            len <= MAX_MATERIALS,
    {
        proof {
            use_type_invariant(self);
        }
        self.keys.len()
    }

    /// The key of the material with this index.
    pub fn get(&self, index: u32) -> (key: Option<u64>)
        ensures
            key == if index < self@.len() {
                Some(self@[index as int])
            } else {
                None
            },
    {
        if (index as usize) < self.keys.len() {
            Some(self.keys[index as usize])
        } else {
            None
        }
    }
}

/// In a sequence without duplicates, a key is found where it stands.
pub proof fn lemma_index_of_distinct(keys: Seq<u64>, key: u64, i: int)
    requires
        keys.no_duplicates(),
        0 <= i < keys.len(),
        keys[i] == key,
    ensures
        keys.contains(key),
        keys.index_of(key) == i,
{
    assert(keys.contains(key));
    let j = keys.index_of(key);
    assert(0 <= j < keys.len() && keys[j] == key);
}

/// A key that is not among distinct keys can join them.
pub proof fn lemma_push_keeps_distinct(keys: Seq<u64>, key: u64)
    requires
        keys.no_duplicates(),
        !keys.contains(key),
    ensures
        keys.push(key).no_duplicates(),
{
    assert forall|i: int, j: int|
        0 <= i < keys.len() + 1 && 0 <= j < keys.len() + 1 && i != j implies keys.push(key)[i]
        != keys.push(key)[j] by {
        if i < keys.len() && j < keys.len() {
        } else if i < keys.len() {
            assert(keys.contains(keys[i]));
        } else {
            assert(keys.contains(keys[j]));
        }
    }
}

/// Registering keeps what was registered, and where: the old keys are the
/// first of the new ones. Registering a key again changes nothing.
pub proof fn lemma_registered_is_stable(keys: Seq<u64>, key: u64)
    ensures
        keys.is_prefix_of(registered(keys, key)),
        registered(keys, key).contains(key),
        registered(registered(keys, key), key) == registered(keys, key),
{
    let after = registered(keys, key);
    if !keys.contains(key) {
        assert(after[keys.len() as int] == key);
    }
}

} // verus!
