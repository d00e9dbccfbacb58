//! A raw byte store, the hashed adapter over it, and the typed views
//! (value, map, list) that lay typed data out on it.
use vstd::prelude::*;
use vstd::array::array_as_slice;
use vstd::slice::slice_to_vec;
use crate::codec::Codec;
use crate::hashing::{blake2b_128_of, twox_128_of, Blake2, StorageHasher, Twox};

verus! {

/// Why a typed read did not produce a value.
#[derive(Debug, Clone, Copy, PartialEq, Eq, Structural)]
pub enum StorageError {
    /// Bytes are stored under the key, but they are no encoding of the type.
    Malformed,
    /// The value is required, and nothing is stored under the key.
    Missing,
    /// A stored count would pass its maximum.
    Overflow,
}

/// What a typed read of hashed key `h` in `m` gives: absent, a value, or an
/// error when the stored bytes do not decode.
pub open spec fn read<T: Codec>(m: Map<Seq<u8>, Seq<u8>>, h: Seq<u8>) -> Result<Option<T>, StorageError> {
    if m.contains_key(h) {
        match T::spec_decode(m[h]) {
            Some(v) => Ok(Some(v)),
            None => Err(StorageError::Malformed),
        }
    } else {
        Ok(None)
    }
}

/// A typed read where absence reads as `d`.
pub open spec fn read_or<T: Codec>(m: Map<Seq<u8>, Seq<u8>>, h: Seq<u8>, d: T) -> Result<T, StorageError> {
    match read::<T>(m, h) {
        Ok(Some(v)) => Ok(v),
        Ok(None) => Ok(d),
        Err(e) => Err(e),
    }
}

/// A typed read where absence is an error.
pub open spec fn read_required<T: Codec>(m: Map<Seq<u8>, Seq<u8>>, h: Seq<u8>) -> Result<T, StorageError> {
    match read::<T>(m, h) {
        Ok(Some(v)) => Ok(v),
        Ok(None) => Err(StorageError::Missing),
        Err(e) => Err(e),
    }
}

/// `m` with `v` written under `slot`, or `slot` cleared when `v` is absent.
pub open spec fn put_opt<T: Codec>(m: Map<Seq<u8>, Seq<u8>>, slot: Seq<u8>, v: Option<T>) -> Map<Seq<u8>, Seq<u8>> {
    match v {
        Some(x) => m.insert(slot, T::spec_encode(x)),
        None => m.remove(slot),
    }
}

/// `a` followed by `b`.
pub fn concat_bytes(a: &[u8], b: &[u8]) -> (r: Vec<u8>)
    ensures
        r@ == a@ + b@,
{
    let mut out = slice_to_vec(a);
    let mut i: usize = 0;
    while i < b.len()
        invariant
            i <= b@.len(),
            out@ == a@ + b@.subrange(0, i as int),
        decreases b@.len() - i,
    {
        proof {
            assert(a@ + b@.subrange(0, i + 1) =~= (a@ + b@.subrange(0, i as int)).push(b@[i as int]));
        }
        out.push(b[i]);
        i = i + 1;
    }
    assert(b@.subrange(0, b@.len() as int) =~= b@);
    out
}

/// The bytes that the last entry for `k` in `s` holds, if that entry holds any.
pub open spec fn lookup(s: Seq<(Seq<u8>, Option<Seq<u8>>)>, k: Seq<u8>) -> Option<Seq<u8>>
    decreases s.len(),
{
    if s.len() == 0 {
        None
    } else if s.last().0 == k {
        s.last().1
    } else {
        lookup(s.drop_last(), k)
    }
}

proof fn lemma_lookup_update(s: Seq<(Seq<u8>, Option<Seq<u8>>)>, i: int, v: Option<Seq<u8>>, k: Seq<u8>)
    requires
        0 <= i < s.len(),
        forall|j: int| i < j < s.len() ==> s[j].0 != s[i].0,
    ensures
        lookup(s.update(i, (s[i].0, v)), k) == if k == s[i].0 {
            v
        } else {
            lookup(s, k)
        },
    decreases s.len(),
{
    let t = s.update(i, (s[i].0, v));
    if i < s.len() - 1 {
        assert(t.drop_last() =~= s.drop_last().update(i, (s[i].0, v)));
        lemma_lookup_update(s.drop_last(), i, v, k);
        assert(t.last() == s.last());
    } else {
        assert(t.drop_last() =~= s.drop_last());
        assert(t.last() == (s[i].0, v));
    }
}

/// The bytes that an optional byte string holds.
pub open spec fn opt_view(o: Option<Vec<u8>>) -> Option<Seq<u8>> {
    match o {
        Some(v) => Some(v@),
        None => None,
    }
}

/// A process-local key-value store of raw bytes.
pub struct Overlay {
    entries: Vec<(Vec<u8>, Option<Vec<u8>>)>,
}

impl Overlay {
    spec fn log(&self) -> Seq<(Seq<u8>, Option<Seq<u8>>)> {
        self.entries@.map_values(|e: (Vec<u8>, Option<Vec<u8>>)| (e.0@, opt_view(e.1)))
    }

    /// The stored bytes by key.
    pub closed spec fn view(&self) -> Map<Seq<u8>, Seq<u8>> {
        Map::new(|k: Seq<u8>| lookup(self.log(), k) is Some, |k: Seq<u8>| lookup(self.log(), k)->0)
    }

    /// An empty store.
    pub fn new() -> (r: Overlay)
        ensures
            r@ == Map::<Seq<u8>, Seq<u8>>::empty(),
    {
        let r = Overlay { entries: Vec::new() };
        assert(r@ =~= Map::<Seq<u8>, Seq<u8>>::empty());
        r
    }

    /// The index of the last entry for `key`.
    fn find(&self, key: &[u8]) -> (r: Option<usize>)
        ensures
            match r {
                Some(i) => {
                    &&& i < self.entries@.len()
                    &&& self.log()[i as int].0 == key@
                    &&& forall|j: int| i < j < self.entries@.len() ==> self.log()[j].0 != key@
                    &&& lookup(self.log(), key@) == self.log()[i as int].1
                },
                None => lookup(self.log(), key@) is None,
            },
    {
        let ghost s = self.log();
        let mut i: usize = self.entries.len();
        assert(s.subrange(0, i as int) =~= s);
        while i > 0
            invariant
                i <= self.entries@.len(),
                s == self.log(),
                s.len() == self.entries@.len(),
                forall|j: int| i <= j < s.len() ==> s[j].0 != key@,
                lookup(s, key@) == lookup(s.subrange(0, i as int), key@),
            decreases i,
        {
            if bytes_eq(self.entries[i - 1].0.as_slice(), key) {
                return Some(i - 1);
            }
            assert(s.subrange(0, i as int).drop_last() =~= s.subrange(0, i - 1));
            i = i - 1;
        }
        None
    }

    /// Whether anything is stored under `key`.
    pub fn raw_exists(&self, key: &[u8]) -> (r: bool)
        ensures
            r == self@.contains_key(key@),
    {
        match self.find(key) {
            Some(i) => self.entries[i].1.is_some(),
            None => false,
        }
    }

    /// The bytes stored under `key`.
    pub fn raw_get(&self, key: &[u8]) -> (r: Option<Vec<u8>>)
        ensures
            match r {
                Some(v) => self@.contains_key(key@) && v@ == self@[key@],
                None => !self@.contains_key(key@),
            },
    {
        match self.find(key) {
            Some(i) => match &self.entries[i].1 {
                Some(v) => Some(slice_to_vec(v.as_slice())),
                None => None,
            },
            None => None,
        }
    }

    fn write(&mut self, key: &[u8], value: Option<Vec<u8>>)
        ensures
            final(self)@ == match opt_view(value) {
                Some(v) => old(self)@.insert(key@, v),
                None => old(self)@.remove(key@),
            },
    {
        let ghost s = self.log();
        let ghost gv = opt_view(value);
        let found = self.find(key);
        let entry = (slice_to_vec(key), value);
        match found {
            Some(i) => {
                self.entries.set(i, entry);
                proof {
                    assert(self.log() =~= s.update(i as int, (key@, gv)));
                    assert forall|k: Seq<u8>| #![auto] lookup(self.log(), k) == if k == key@ { gv } else { lookup(s, k) } by {
                        lemma_lookup_update(s, i as int, gv, k);
                    }
                }
            },
            None => {
                self.entries.push(entry);
                proof {
                    assert(self.log() =~= s.push((key@, gv)));
                    assert(self.log().drop_last() =~= s);
                }
            },
        }
        proof {
            match gv {
                Some(v) => assert(self@ =~= old(self)@.insert(key@, v)),
                None => assert(self@ =~= old(self)@.remove(key@)),
            }
        }
    }

    /// Stores `value` under `key`, replacing what was there.
    pub fn raw_put(&mut self, key: &[u8], value: &[u8])
        ensures
            final(self)@ == old(self)@.insert(key@, value@),
    {
        self.write(key, Some(slice_to_vec(value)));
    }

    /// Removes what is stored under `key`.
    pub fn raw_kill(&mut self, key: &[u8])
        ensures
            final(self)@ == old(self)@.remove(key@),
    {
        self.write(key, None);
    }
}

/// Whether two byte strings are equal.
pub fn bytes_eq(a: &[u8], b: &[u8]) -> (r: bool)
    ensures
        r == (a@ == b@),
{
    if a.len() != b.len() {
        return false;
    }
    let mut i: usize = 0;
    while i < a.len()
        invariant
            a@.len() == b@.len(),
            i <= a@.len(),
            forall|j: int| 0 <= j < i ==> a@[j] == b@[j],
        decreases a@.len() - i,
    {
        if a[i] != b[i] {
            return false;
        }
        i = i + 1;
    }
    assert(a@ =~= b@);
    true
}

/// A store whose keys are hashed with `H` before they reach the bytes, and
/// whose values go through the codec.
pub trait HashedStorage<H: StorageHasher> {
    /// The stored bytes, by hashed key.
    spec fn raw(&self) -> Map<Seq<u8>, Seq<u8>>;

    /// true if the key exists in storage.
    fn contains_key(&self, key: &[u8]) -> (r: bool)
        ensures
            r == self.raw().contains_key(H::spec_hash(key@)),
    ;

    /// Load and decode the value under a key.
    fn get<T: Codec>(&self, key: &[u8]) -> (r: Result<Option<T>, StorageError>)
        ensures
            r == read::<T>(self.raw(), H::spec_hash(key@)),
    ;

    /// Load the value under a key, which must be there.
    fn require<T: Codec>(&self, key: &[u8]) -> (r: Result<T, StorageError>)
        ensures
            r == read_required::<T>(self.raw(), H::spec_hash(key@)),
    {
        match self.get(key) {
            Ok(Some(v)) => Ok(v),
            Ok(None) => Err(StorageError::Missing),
            Err(e) => Err(e),
        }
    }

    /// Load the value under a key, or the type's default if it is not there.
    fn get_or_default<T: Codec>(&self, key: &[u8]) -> (r: Result<T, StorageError>)
        ensures
            r == read_or::<T>(self.raw(), H::spec_hash(key@), T::spec_default()),
    {
        match self.get(key) {
            Ok(Some(v)) => Ok(v),
            Ok(None) => Ok(T::default_value()),
            Err(e) => Err(e),
        }
    }

    /// Put a value in under a key.
    fn put<T: Codec>(&mut self, key: &[u8], val: &T)
        ensures
            final(self).raw() == old(self).raw().insert(H::spec_hash(key@), T::spec_encode(*val)),
    ;

    /// Remove the bytes of a key from storage.
    fn kill(&mut self, key: &[u8])
        ensures
            final(self).raw() == old(self).raw().remove(H::spec_hash(key@)),
    ;

    /// Take a value from storage, deleting it after reading. Bytes that do
    /// not decode are left in place.
    fn take<T: Codec>(&mut self, key: &[u8]) -> (r: Result<Option<T>, StorageError>)
        ensures
            r == read::<T>(old(self).raw(), H::spec_hash(key@)),
            final(self).raw() == if r is Ok {
                old(self).raw().remove(H::spec_hash(key@))
            } else {
                old(self).raw()
            },
    {
        let value = self.get(key);
        if value.is_ok() {
            self.kill(key);
        }
        value
    }

    /// Take a value that must be there from storage, deleting it after reading.
    fn take_or_panic<T: Codec>(&mut self, key: &[u8]) -> (r: Result<T, StorageError>)
        ensures
            r == read_required::<T>(old(self).raw(), H::spec_hash(key@)),
            final(self).raw() == if r is Ok {
                old(self).raw().remove(H::spec_hash(key@))
            } else {
                old(self).raw()
            },
    {
        let value = self.require(key);
        if value.is_ok() {
            self.kill(key);
        }
        value
    }

    /// Take a value from storage, or the type's default if it is not there.
    fn take_or_default<T: Codec>(&mut self, key: &[u8]) -> (r: Result<T, StorageError>)
        ensures
            r == read_or::<T>(old(self).raw(), H::spec_hash(key@), T::spec_default()),
            final(self).raw() == if r is Ok {
                old(self).raw().remove(H::spec_hash(key@))
            } else {
                old(self).raw()
            },
    {
        let value = self.get_or_default(key);
        if value.is_ok() {
            self.kill(key);
        }
        value
    }
}

impl<H: StorageHasher> HashedStorage<H> for Overlay {
    open spec fn raw(&self) -> Map<Seq<u8>, Seq<u8>> {
        self@
    }

    fn contains_key(&self, key: &[u8]) -> (r: bool) {
        let h = H::hash(key);
        self.raw_exists(array_as_slice(&h))
    }

    fn get<T: Codec>(&self, key: &[u8]) -> (r: Result<Option<T>, StorageError>) {
        let h = H::hash(key);
        match self.raw_get(array_as_slice(&h)) {
            Some(bytes) => match T::decode(bytes.as_slice()) {
                Some(v) => Ok(Some(v)),
                None => Err(StorageError::Malformed),
            },
            None => Ok(None),
        }
    }

    fn put<T: Codec>(&mut self, key: &[u8], val: &T) {
        let h = H::hash(key);
        let bytes = val.encode();
        self.raw_put(array_as_slice(&h), bytes.as_slice());
    }

    fn kill(&mut self, key: &[u8]) {
        let h = H::hash(key);
        self.raw_kill(array_as_slice(&h));
    }
}

} // verus!
