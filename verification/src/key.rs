//! Keys of a keyboard, and sets of them.
use vstd::prelude::*;

verus! {

/// A key of a keyboard.
#[derive(Debug, Clone, Copy, PartialEq, Eq, Hash, Structural)]
pub enum Key {
    /// The key that makes letters upper case.
    Shift,
    /// The key that switches between a window and the full screen.
    F11,
    /// Any other key, by its code.
    Other(u32),
}

/// The keys after one has been added.
proof fn lemma_push_contains(keys: Seq<Key>, key: Key)
    ensures
        forall|k: Key| #[trigger] keys.push(key).contains(k) <==> (keys.contains(k) || k == key),
{
    assert forall|k: Key| #[trigger] keys.push(key).contains(k) <==> (keys.contains(k) || k
        == key) by {
        if keys.contains(k) {
            let i = choose|i: int| 0 <= i < keys.len() && keys[i] == k;
            assert(keys.push(key)[i] == k);
        }
        if k == key {
            assert(keys.push(key)[keys.len() as int] == k);
        }
    }
}

/// A set of keys.
#[derive(Debug)]
pub struct KeySet {
    keys: Vec<Key>,
}

impl View for KeySet {
    type V = Set<Key>;

    closed spec fn view(&self) -> Set<Key> {
        self.keys@.to_set()
    }
}

impl KeySet {
    #[verifier::type_invariant]
    closed spec fn distinct(self) -> bool {
        self.keys@.no_duplicates()
    }

    /// No keys.
    pub fn new() -> (set: KeySet)
        ensures
            set@ == Set::<Key>::empty(),
    {
        let set = KeySet { keys: Vec::new() };
        assert(set@ =~= Set::<Key>::empty());
        set
    }

    /// The keys of the set, each of them once.
    pub fn keys(&self) -> (keys: &[Key])
        ensures
            keys@.no_duplicates(),
            keys@.to_set() == self@,
    {
        proof {
            use_type_invariant(&*self);
        }
        self.keys.as_slice()
    }

    /// The position of the key.
    fn position(&self, key: Key) -> (at: Option<usize>)
        ensures
            at is Some <==> self@.contains(key),
            at matches Some(i) ==> i < self.keys@.len() && self.keys@[i as int] == key,
    {
        let mut i: usize = 0;
        while i < self.keys.len()
            invariant
                i <= self.keys@.len(),
                forall|j: int| 0 <= j < i ==> self.keys@[j] != key,
            decreases self.keys@.len() - i,
        {
            if self.keys[i] == key {
                assert(self.keys@.contains(key));
                return Some(i);
            }
            i = i + 1;
        }
        None
    }

    /// Whether the key is in the set.
    pub fn contains(&self, key: Key) -> (r: bool)
        ensures
            r == self@.contains(key),
    {
        self.position(key).is_some()
    }

    /// Adds a key, and says whether it was not there before.
    pub fn insert(&mut self, key: Key) -> (added: bool)
        ensures
            final(self)@ == old(self)@.insert(key),
            added == !old(self)@.contains(key),
    {
        if self.contains(key) {
            assert(self@.insert(key) =~= self@);
            false
        } else {
            proof {
                use_type_invariant(&*self);
            }
            let ghost before = self.keys@;
            let mut keys: Vec<Key> = Vec::new();
            std::mem::swap(&mut keys, &mut self.keys);
            keys.push(key);
            proof {
                lemma_push_contains(before, key);
                assert(before.push(key).to_set() =~= before.to_set().insert(key));
            }
            self.keys = keys;
            true
        }
    }

    /// Takes a key out, and says whether it was there.
    pub fn remove(&mut self, key: Key) -> (removed: bool)
        ensures
            final(self)@ == old(self)@.remove(key),
            removed == old(self)@.contains(key),
    {
        match self.position(key) {
            None => {
                assert(self@.remove(key) =~= self@);
                false
            },
            Some(i) => {
                proof {
                    use_type_invariant(&*self);
                }
                let ghost before = self.keys@;
                let mut keys: Vec<Key> = Vec::new();
                std::mem::swap(&mut keys, &mut self.keys);
                let _key = keys.remove(i);
                proof {
                    let after = before.remove(i as int);
                    assert forall|k: Key| after.to_set().contains(k) <==> (before.to_set().contains(k)
                        && k != key) by {
                        if before.contains(k) && k != key {
                            let j = choose|j: int| 0 <= j < before.len() && before[j] == k;
                            let j0 = if j < i { j } else { j - 1 };
                            assert(after[j0] == k);
                        }
                        if after.contains(k) {
                            let j = choose|j: int| 0 <= j < after.len() && after[j] == k;
                            let j0 = if j < i { j } else { j + 1 };
                            assert(before[j0] == k);
                        }
                    }
                    assert(after.to_set() =~= before.to_set().remove(key));
                }
                self.keys = keys;
                true
            },
        }
    }

    /// The keys of the set that are not in `other`, each of them once.
    pub fn difference(&self, other: &KeySet) -> (keys: Vec<Key>)
        ensures
            keys@.no_duplicates(),
            keys@.to_set() == self@.difference(other@),
    {
        proof {
            use_type_invariant(&*self);
        }
        let mut keys: Vec<Key> = Vec::new();
        let mut i: usize = 0;
        while i < self.keys.len()
            invariant
                i <= self.keys@.len(),
                self.keys@.no_duplicates(),
                keys@.no_duplicates(),
                forall|k: Key|
                    keys@.contains(k) <==> (self.keys@.take(i as int).contains(k) && !other@.contains(
                        k,
                    )),
            decreases self.keys@.len() - i,
        {
            let key = self.keys[i];
            let ghost seen = self.keys@.take(i as int);
            let ghost before = keys@;
            proof {
                assert(self.keys@.take(i + 1) =~= seen.push(key));
                lemma_push_contains(seen, key);
                lemma_push_contains(before, key);
            }
            if !other.contains(key) {
                keys.push(key);
            }
            i = i + 1;
        }
        proof {
            assert(self.keys@.take(i as int) =~= self.keys@);
            assert(keys@.to_set() =~= self@.difference(other@));
        }
        keys
    }
}

} // verus!
