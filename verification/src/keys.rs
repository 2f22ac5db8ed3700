//! Public keys and sets of them.

use vstd::prelude::*;

verus! {

/// A public key in compressed form.
pub type Key = [u8; 32];

/// Whether two keys are equal.
pub fn same_key(a: &Key, b: &Key) -> (r: bool)
    ensures
        r == (*a == *b),
{
    let mut i: usize = 0;
    while i < 32
        invariant
            i <= 32,
            forall|j: int| 0 <= j < i ==> a@[j] == b@[j],
        decreases 32 - i,
    {
        if a[i] != b[i] {
            assert(a@[i as int] != b@[i as int]);
            return false;
        }
        i = i + 1;
    }
    assert(*a =~= *b);
    true
}

/// The bytes of a key.
pub fn key_bytes(key: &Key) -> (r: Vec<u8>)
    ensures
        r@ == key@,
{
    let mut out: Vec<u8> = Vec::new();
    let mut i: usize = 0;
    while i < 32
        invariant
            i <= 32,
            out@ == key@.subrange(0, i as int),
        decreases 32 - i,
    {
        out.push(key[i]);
        assert(out@ =~= key@.subrange(0, i + 1));
        i = i + 1;
    }
    assert(out@ =~= key@);
    out
}

/// A set of keys. No key is held twice.
pub struct KeySet {
    items: Vec<Key>,
}

impl View for KeySet {
    type V = Set<Key>;

    closed spec fn view(&self) -> Set<Key> {
        self.items@.to_set()
    }
}

impl KeySet {
    #[verifier::type_invariant]
    spec fn distinct(&self) -> bool {
        self.items@.no_duplicates()
    }

    /// The empty set.
    pub fn new() -> (r: KeySet)
        ensures
            r@ == Set::<Key>::empty(),
    {
        let r: KeySet = KeySet { items: Vec::new() };
        assert(r@ =~= Set::<Key>::empty());
        r
    }

    /// Whether `key` is in the set.
    pub fn contains(&self, key: &Key) -> (r: bool)
        ensures
            r == self@.contains(*key),
    {
        let mut i: usize = 0;
        while i < self.items.len()
            invariant
                i <= self.items@.len(),
                forall|j: int| 0 <= j < i ==> self.items@[j] != *key,
            decreases self.items@.len() - i,
        {
            if same_key(&self.items[i], key) {
                assert(self.items@[i as int] == *key);
                return true;
            }
            i = i + 1;
        }
        false
    }

    /// Adds `key`.
    pub fn insert(&mut self, key: Key)
        ensures
            final(self)@ == old(self)@.insert(key),
    {
        proof {
            use_type_invariant(&*self);
        }
        if self.contains(&key) {
            assert(self@ =~= old(self)@.insert(key));
            return;
        }
        let mut items: Vec<Key> = self.to_vec();
        let ghost before = items@;
        items.push(key);
        proof {
            assert(!before.contains(key));
            assert(items@ =~= before.push(key));
            assert forall|k: Key| items@.contains(k) <==> before.contains(k) || k == key by {
                if before.contains(k) {
                    let i = choose|i: int| 0 <= i < before.len() && before[i] == k;
                    assert(items@[i] == k);
                }
                if k == key {
                    assert(items@[before.len() as int] == k);
                }
            }
            assert(items@.to_set() =~= before.to_set().insert(key));
        }
        *self = KeySet { items };
    }

    /// Takes `key` out, if it is there.
    pub fn remove(&mut self, key: &Key)
        ensures
            final(self)@ == old(self)@.remove(*key),
    {
        proof {
            use_type_invariant(&*self);
        }
        let mut kept: Vec<Key> = Vec::new();
        let mut i: usize = 0;
        while i < self.items.len()
            invariant
                i <= self.items@.len(),
                *self == *old(self),
                self.items@.no_duplicates(),
                kept@.no_duplicates(),
                forall|j: int|
                    0 <= j < kept@.len() ==> kept@[j] != *key && exists|k: int|
                        0 <= k < i && self.items@[k] == #[trigger] kept@[j],
                forall|k: int|
                    0 <= k < i && self.items@[k] != *key ==> kept@.contains(
                        #[trigger] self.items@[k],
                    ),
            decreases self.items@.len() - i,
        {
            let here: Key = self.items[i];
            if !same_key(&here, key) {
                let ghost before = kept@;
                kept.push(here);
                proof {
                    assert(!before.contains(here));
                    assert forall|k: int|
                        0 <= k < i + 1 && self.items@[k] != *key implies kept@.contains(
                        #[trigger] self.items@[k],
                    ) by {
                        if k < i {
                            let j = choose|j: int|
                                0 <= j < before.len() && before[j] == self.items@[k];
                            assert(kept@[j] == self.items@[k]);
                        } else {
                            assert(kept@[before.len() as int] == self.items@[k]);
                        }
                    }
                }
            }
            i = i + 1;
        }
        proof {
            assert forall|k: Key| kept@.contains(k) <==> self.items@.contains(k) && k != *key by {
                if self.items@.contains(k) && k != *key {
                    let j = choose|j: int| 0 <= j < self.items@.len() && self.items@[j] == k;
                    assert(kept@.contains(self.items@[j]));
                }
            }
            assert(kept@.to_set() =~= self.items@.to_set().remove(*key));
        }
        *self = KeySet { items: kept };
    }

    /// The keys, each once.
    pub fn to_vec(&self) -> (r: Vec<Key>)
        ensures
            r@.no_duplicates(),
            r@.to_set() == self@,
    {
        proof {
            use_type_invariant(&*self);
        }
        let mut out: Vec<Key> = Vec::new();
        let mut i: usize = 0;
        while i < self.items.len()
            invariant
                i <= self.items@.len(),
                out@ == self.items@.subrange(0, i as int),
            decreases self.items@.len() - i,
        {
            out.push(self.items[i]);
            assert(out@ =~= self.items@.subrange(0, i + 1));
            i = i + 1;
        }
        assert(out@ =~= self.items@);
        out
    }

    /// The set of the keys in `keys`.
    pub fn from_vec(keys: &Vec<Key>) -> (r: KeySet)
        ensures
            r@ == keys@.to_set(),
    {
        let mut out: KeySet = KeySet::new();
        let mut i: usize = 0;
        proof {
            assert(keys@.subrange(0, 0).to_set() =~= Set::<Key>::empty());
        }
        while i < keys.len()
            invariant
                i <= keys@.len(),
                out@ == keys@.subrange(0, i as int).to_set(),
            decreases keys@.len() - i,
        {
            out.insert(keys[i]);
            proof {
                lemma_push_to_set(keys@.subrange(0, i as int), keys@[i as int]);
                assert(keys@.subrange(0, i + 1) =~= keys@.subrange(0, i as int).push(
                    keys@[i as int],
                ));
            }
            i = i + 1;
        }
        assert(keys@.subrange(0, i as int) =~= keys@);
        out
    }
}

proof fn lemma_push_to_set<T>(s: Seq<T>, x: T)
    ensures
        s.push(x).to_set() == s.to_set().insert(x),
{
    assert forall|k: T|
        #[trigger] s.push(x).to_set().contains(k) <==> s.to_set().insert(x).contains(k) by {
        assert(s.push(x).to_set().contains(k) == s.push(x).contains(k));
        assert(s.to_set().contains(k) == s.contains(k));
        if s.contains(k) {
            let i = choose|i: int| 0 <= i < s.len() && s[i] == k;
            assert(s.push(x)[i] == k);
        }
        if k == x {
            assert(s.push(x)[s.len() as int] == k);
        }
    }
    assert(s.push(x).to_set() =~= s.to_set().insert(x));
}

} // verus!
