//! Typed storage items laid out on a hashed store: a single value, a map
//! and a list.
use vstd::prelude::*;
use vstd::array::array_as_slice;
use crate::codec::Codec;
use crate::hashing::{blake2b_128_of, twox_128_of, Blake2, StorageHasher, Twox};
use crate::storage::{concat_bytes, put_opt, read, read_or, read_required, HashedStorage, StorageError};

verus! {

/// A strongly-typed value kept in storage under a fixed key.
pub trait StorageValue<T: Codec> {
    /// The storage key.
    spec fn spec_key() -> Seq<u8>;

    /// Get the storage key.
    fn key() -> (r: Vec<u8>)
        ensures
            r@ == Self::spec_key(),
    ;

    /// true if the value is defined in storage.
    fn contains_key<S: HashedStorage<Twox>>(storage: &S) -> (r: bool)
        ensures
            r == storage.raw().contains_key(twox_128_of(Self::spec_key())),
    {
        let k = Self::key();
        storage.contains_key(k.as_slice())
    }

    /// Load the value, absent if it is not there.
    fn get<S: HashedStorage<Twox>>(storage: &S) -> (r: Result<Option<T>, StorageError>)
        ensures
            r == read::<T>(storage.raw(), twox_128_of(Self::spec_key())),
    {
        let k = Self::key();
        storage.get(k.as_slice())
    }

    /// Load the value, or the type's default if it is not there.
    fn get_or_default<S: HashedStorage<Twox>>(storage: &S) -> (r: Result<T, StorageError>)
        ensures
            r == read_or::<T>(storage.raw(), twox_128_of(Self::spec_key()), T::spec_default()),
    {
        let k = Self::key();
        storage.get_or_default(k.as_slice())
    }

    /// Take the value from storage, removing it afterwards.
    fn take<S: HashedStorage<Twox>>(storage: &mut S) -> (r: Result<Option<T>, StorageError>)
        ensures
            r == read::<T>(old(storage).raw(), twox_128_of(Self::spec_key())),
            final(storage).raw() == if r is Ok {
                old(storage).raw().remove(twox_128_of(Self::spec_key()))
            } else {
                old(storage).raw()
            },
    {
        let k = Self::key();
        storage.take(k.as_slice())
    }

    /// Store a value under this key.
    fn put<S: HashedStorage<Twox>>(val: &T, storage: &mut S)
        ensures
            final(storage).raw() == old(storage).raw().insert(
                twox_128_of(Self::spec_key()),
                T::spec_encode(*val),
            ),
    {
        let k = Self::key();
        storage.put(k.as_slice(), val)
    }

    /// Clear the storage value.
    fn kill<S: HashedStorage<Twox>>(storage: &mut S)
        ensures
            final(storage).raw() == old(storage).raw().remove(twox_128_of(Self::spec_key())),
    {
        let k = Self::key();
        storage.kill(k.as_slice())
    }

    /// Applies `f` once to the current value and writes back what it returns
    /// (clearing the value when it returns none); gives the new value.
    fn mutate<S: HashedStorage<Twox>, F: FnOnce(Option<T>) -> Option<T>>(f: F, storage: &mut S) -> (r: Result<Option<T>, StorageError>)
        requires
            forall|x: Option<T>| f.requires((x,)),
        ensures
            match read::<T>(old(storage).raw(), twox_128_of(Self::spec_key())) {
                Err(e) => r == Err::<Option<T>, StorageError>(e) && final(storage).raw() == old(storage).raw(),
                Ok(cur) => r matches Ok(new) && f.ensures((cur,), new)
                    && final(storage).raw() == put_opt::<T>(old(storage).raw(), twox_128_of(Self::spec_key()), new),
            },
    {
        let k = Self::key();
        let cur = storage.get(k.as_slice())?;
        let new = f(cur);
        match &new {
            Some(v) => storage.put(k.as_slice(), v),
            None => storage.kill(k.as_slice()),
        }
        Ok(new)
    }
}

/// The key, before the store hashes it, of the map entry for `k`: the prefix
/// followed by the blake2 digest of the encoded key.
pub open spec fn map_entry_key<K: Codec>(prefix: Seq<u8>, k: K) -> Seq<u8> {
    prefix + blake2b_128_of(K::spec_encode(k))
}

/// Where the store keeps the map entry for `k`.
pub open spec fn map_slot<K: Codec>(prefix: Seq<u8>, k: K) -> Seq<u8> {
    blake2b_128_of(map_entry_key(prefix, k))
}

/// A strongly-typed map in storage.
pub trait StorageMap<K: Codec, V: Codec> {
    /// The prefix of every entry's key.
    spec fn spec_prefix() -> Seq<u8>;

    /// Get the prefix key in storage.
    fn prefix() -> (r: Vec<u8>)
        ensures
            r@ == Self::spec_prefix(),
    ;

    /// Get the storage key used to fetch a value corresponding to a specific key.
    fn key_for(x: &K) -> (r: Vec<u8>)
        ensures
            r@ == map_entry_key(Self::spec_prefix(), *x),
    {
        let p = Self::prefix();
        let e = x.encode();
        let h = Blake2::hash(e.as_slice());
        concat_bytes(p.as_slice(), array_as_slice(&h))
    }

    /// true if a value is stored for the key.
    fn contains_key<S: HashedStorage<Blake2>>(key: &K, storage: &S) -> (r: bool)
        ensures
            r == storage.raw().contains_key(map_slot(Self::spec_prefix(), *key)),
    {
        let k = Self::key_for(key);
        storage.contains_key(k.as_slice())
    }

    /// Load the value associated with the given key, absent if there is none.
    fn get<S: HashedStorage<Blake2>>(key: &K, storage: &S) -> (r: Result<Option<V>, StorageError>)
        ensures
            r == read::<V>(storage.raw(), map_slot(Self::spec_prefix(), *key)),
    {
        let k = Self::key_for(key);
        storage.get(k.as_slice())
    }

    /// Load the value associated with the given key, or the default if there is none.
    fn get_or_default<S: HashedStorage<Blake2>>(key: &K, storage: &S) -> (r: Result<V, StorageError>)
        ensures
            r == read_or::<V>(storage.raw(), map_slot(Self::spec_prefix(), *key), V::spec_default()),
    {
        let k = Self::key_for(key);
        storage.get_or_default(k.as_slice())
    }

    /// Take the value under a key.
    fn take<S: HashedStorage<Blake2>>(key: &K, storage: &mut S) -> (r: Result<Option<V>, StorageError>)
        ensures
            r == read::<V>(old(storage).raw(), map_slot(Self::spec_prefix(), *key)),
            final(storage).raw() == if r is Ok {
                old(storage).raw().remove(map_slot(Self::spec_prefix(), *key))
            } else {
                old(storage).raw()
            },
    {
        let k = Self::key_for(key);
        storage.take(k.as_slice())
    }

    /// Store a value to be associated with the given key.
    fn insert<S: HashedStorage<Blake2>>(key: &K, val: &V, storage: &mut S)
        ensures
            final(storage).raw() == old(storage).raw().insert(
                map_slot(Self::spec_prefix(), *key),
                V::spec_encode(*val),
            ),
    {
        let k = Self::key_for(key);
        storage.put(k.as_slice(), val)
    }

    /// Remove the value under a key.
    fn remove<S: HashedStorage<Blake2>>(key: &K, storage: &mut S)
        ensures
            final(storage).raw() == old(storage).raw().remove(map_slot(Self::spec_prefix(), *key)),
    {
        let k = Self::key_for(key);
        storage.kill(k.as_slice())
    }

    /// Applies `f` once to the value under `key` and writes back what it
    /// returns (removing the entry when it returns none); gives the new value.
    fn mutate<S: HashedStorage<Blake2>, F: FnOnce(Option<V>) -> Option<V>>(key: &K, f: F, storage: &mut S) -> (r: Result<Option<V>, StorageError>)
        requires
            forall|x: Option<V>| f.requires((x,)),
        ensures
            match read::<V>(old(storage).raw(), map_slot(Self::spec_prefix(), *key)) {
                Err(e) => r == Err::<Option<V>, StorageError>(e) && final(storage).raw() == old(storage).raw(),
                Ok(cur) => r matches Ok(new) && f.ensures((cur,), new)
                    && final(storage).raw() == put_opt::<V>(old(storage).raw(), map_slot(Self::spec_prefix(), *key), new),
            },
    {
        let k = Self::key_for(key);
        let cur = storage.get(k.as_slice())?;
        let new = f(cur);
        match &new {
            Some(v) => storage.put(k.as_slice(), v),
            None => storage.kill(k.as_slice()),
        }
        Ok(new)
    }
}

/// A map entry read right after it was inserted gives the inserted value,
/// whatever else the store holds.
pub proof fn lemma_map_get_after_insert<K: Codec, V: Codec>(
    m: Map<Seq<u8>, Seq<u8>>,
    prefix: Seq<u8>,
    k: K,
    v: V,
)
    ensures
        read::<V>(m.insert(map_slot(prefix, k), V::spec_encode(v)), map_slot(prefix, k)) == Ok::<
            Option<V>,
            StorageError,
        >(Some(v)),
{
    V::lemma_round_trip(v);
}

/// The key, before hashing, under which a list keeps its length.
pub open spec fn list_len_key(prefix: Seq<u8>) -> Seq<u8> {
    prefix + seq![108u8, 101u8, 110u8]
}

/// The key, before hashing, under which a list keeps its item at `index`.
pub open spec fn list_item_key(prefix: Seq<u8>, index: u32) -> Seq<u8> {
    prefix + <u32 as Codec>::spec_encode(index)
}

/// Where the store keeps a list's length.
pub open spec fn list_len_slot(prefix: Seq<u8>) -> Seq<u8> {
    twox_128_of(list_len_key(prefix))
}

/// Where the store keeps a list's item at `index`.
pub open spec fn list_item_slot(prefix: Seq<u8>, index: u32) -> Seq<u8> {
    twox_128_of(list_item_key(prefix, index))
}

/// The length of the list: zero when none is stored.
pub open spec fn list_len(m: Map<Seq<u8>, Seq<u8>>, prefix: Seq<u8>) -> Result<u32, StorageError> {
    read_or::<u32>(m, list_len_slot(prefix), 0)
}

/// The item at `index`: absent when `index` is not below the length.
pub open spec fn list_get<T: Codec>(m: Map<Seq<u8>, Seq<u8>>, prefix: Seq<u8>, index: u32) -> Result<Option<T>, StorageError> {
    match list_len(m, prefix) {
        Err(e) => Err(e),
        Ok(n) => if index < n {
            read::<T>(m, list_item_slot(prefix, index))
        } else {
            Ok(None)
        },
    }
}

/// `m` with the first `n` items of `s` written at their indexes.
pub open spec fn write_items<T: Codec>(m: Map<Seq<u8>, Seq<u8>>, prefix: Seq<u8>, s: Seq<T>, n: nat) -> Map<Seq<u8>, Seq<u8>>
    decreases n,
{
    if n == 0 {
        m
    } else {
        write_items(m, prefix, s, (n - 1) as nat).insert(
            list_item_slot(prefix, (n - 1) as u32),
            T::spec_encode(s[n - 1]),
        )
    }
}

/// `m` after the list is set to `s`: the length first, then each item.
pub open spec fn list_written<T: Codec>(m: Map<Seq<u8>, Seq<u8>>, prefix: Seq<u8>, s: Seq<T>) -> Map<Seq<u8>, Seq<u8>> {
    write_items(m.insert(list_len_slot(prefix), <u32 as Codec>::spec_encode(s.len() as u32)), prefix, s, s.len())
}

/// A strongly-typed list in storage.
pub trait StorageList<T: Codec> {
    /// The prefix of the list's keys.
    spec fn spec_prefix() -> Seq<u8>;

    /// Get the prefix key in storage.
    fn prefix() -> (r: Vec<u8>)
        ensures
            r@ == Self::spec_prefix(),
    ;

    /// Get the key used to put the length field.
    fn len_key() -> (r: Vec<u8>)
        ensures
            r@ == list_len_key(Self::spec_prefix()),
    {
        let p = Self::prefix();
        let suffix: [u8; 3] = [108u8, 101u8, 110u8];
        assert(suffix@ =~= seq![108u8, 101u8, 110u8]);
        concat_bytes(p.as_slice(), array_as_slice(&suffix))
    }

    /// Get the storage key used to fetch a value at a given index.
    fn key_for(index: u32) -> (r: Vec<u8>)
        ensures
            r@ == list_item_key(Self::spec_prefix(), index),
    {
        let p = Self::prefix();
        let e = index.encode();
        concat_bytes(p.as_slice(), e.as_slice())
    }

    /// Load the length of the list.
    fn len<S: HashedStorage<Twox>>(storage: &S) -> (r: Result<u32, StorageError>)
        ensures
            r == list_len(storage.raw(), Self::spec_prefix()),
    {
        let k = Self::len_key();
        storage.get_or_default(k.as_slice())
    }

    /// Load the value at given index: absent if the index is out of bounds.
    fn get<S: HashedStorage<Twox>>(index: u32, storage: &S) -> (r: Result<Option<T>, StorageError>)
        ensures
            r == list_get::<T>(storage.raw(), Self::spec_prefix(), index),
    {
        let n = Self::len(storage)?;
        if index < n {
            let k = Self::key_for(index);
            storage.get(k.as_slice())
        } else {
            Ok(None)
        }
    }

    /// Set the item at the given index, if it is within the list.
    fn set_item<S: HashedStorage<Twox>>(index: u32, item: &T, storage: &mut S) -> (r: Result<(), StorageError>)
        ensures
            match list_len(old(storage).raw(), Self::spec_prefix()) {
                Err(e) => r == Err::<(), StorageError>(e) && final(storage).raw() == old(storage).raw(),
                Ok(n) => r is Ok && final(storage).raw() == if index < n {
                    old(storage).raw().insert(list_item_slot(Self::spec_prefix(), index), T::spec_encode(*item))
                } else {
                    old(storage).raw()
                },
            },
    {
        let n = Self::len(&*storage)?;
        if index < n {
            let k = Self::key_for(index);
            storage.put(k.as_slice(), item);
        }
        Ok(())
    }

    /// Set the current set of items.
    fn set_items<S: HashedStorage<Twox>>(items: &[T], storage: &mut S)
        requires
            items@.len() <= u32::MAX,
        ensures
            final(storage).raw() == list_written(old(storage).raw(), Self::spec_prefix(), items@),
    {
        let lk = Self::len_key();
        let n = items.len() as u32;
        storage.put(lk.as_slice(), &n);
        let ghost start = storage.raw();
        let mut i: usize = 0;
        while i < items.len()
            invariant
                i <= items@.len(),
                items@.len() <= u32::MAX,
                start == old(storage).raw().insert(
                    list_len_slot(Self::spec_prefix()),
                    <u32 as Codec>::spec_encode(items@.len() as u32),
                ),
                storage.raw() == write_items(start, Self::spec_prefix(), items@, i as nat),
            decreases items@.len() - i,
        {
            let k = Self::key_for(i as u32);
            storage.put(k.as_slice(), &items[i]);
            i = i + 1;
        }
    }

    /// Read out all the items.
    fn items<S: HashedStorage<Twox>>(storage: &S) -> (r: Result<Vec<T>, StorageError>)
        ensures
            match list_len(storage.raw(), Self::spec_prefix()) {
                Err(e) => r == Err::<Vec<T>, StorageError>(e),
                Ok(n) => {
                    &&& r is Ok <==> forall|i: u32|
                        i < n ==> (#[trigger] read_required::<T>(storage.raw(), list_item_slot(Self::spec_prefix(), i))) is Ok
                    &&& r matches Ok(v) ==> v@.len() == n && forall|i: u32|
                        i < n ==> read_required::<T>(storage.raw(), #[trigger] list_item_slot(Self::spec_prefix(), i))
                            == Ok::<T, StorageError>(v@[i as int])
                    &&& r matches Err(e) ==> exists|i: u32|
                        i < n && #[trigger] read_required::<T>(storage.raw(), list_item_slot(Self::spec_prefix(), i))
                            == Err::<T, StorageError>(e)
                },
            },
    {
        let n = Self::len(storage)?;
        let mut out: Vec<T> = Vec::new();
        let mut i: u32 = 0;
        while i < n
            invariant
                i <= n,
                list_len(storage.raw(), Self::spec_prefix()) == Ok::<u32, StorageError>(n),
                out@.len() == i,
                forall|j: u32|
                    j < i ==> read_required::<T>(storage.raw(), #[trigger] list_item_slot(Self::spec_prefix(), j))
                        == Ok::<T, StorageError>(out@[j as int]),
            decreases n - i,
        {
            let k = Self::key_for(i);
            match storage.require(k.as_slice()) {
                Ok(v) => {
                    out.push(v);
                },
                Err(e) => {
                    assert(read_required::<T>(storage.raw(), list_item_slot(Self::spec_prefix(), i))
                        == Err::<T, StorageError>(e));
                    return Err(e);
                },
            }
            i = i + 1;
        }
        Ok(out)
    }

    /// Clear the list: its length and every item below the recorded length.
    fn clear<S: HashedStorage<Twox>>(storage: &mut S) -> (r: Result<(), StorageError>)
        ensures
            match list_len(old(storage).raw(), Self::spec_prefix()) {
                Err(e) => r == Err::<(), StorageError>(e) && final(storage).raw() == old(storage).raw(),
                Ok(n) => {
                    &&& r is Ok
                    &&& !final(storage).raw().contains_key(list_len_slot(Self::spec_prefix()))
                    &&& forall|i: u32| i < n ==> !final(storage).raw().contains_key(#[trigger] list_item_slot(Self::spec_prefix(), i))
                    &&& forall|k: Seq<u8>| #[trigger] final(storage).raw().contains_key(k) ==>
                        old(storage).raw().contains_key(k) && final(storage).raw()[k] == old(storage).raw()[k]
                    &&& forall|k: Seq<u8>|
                        #[trigger] old(storage).raw().contains_key(k) && k != list_len_slot(Self::spec_prefix())
                            && (forall|i: u32| i < n ==> k != #[trigger] list_item_slot(Self::spec_prefix(), i))
                            ==> final(storage).raw().contains_key(k)
                    &&& list_len(final(storage).raw(), Self::spec_prefix()) == Ok::<u32, StorageError>(0)
                    &&& forall|i: u32| #[trigger] list_get::<T>(final(storage).raw(), Self::spec_prefix(), i) == Ok::<Option<T>, StorageError>(None)
                },
            },
    {
        let n = Self::len(&*storage)?;
        let ghost before = storage.raw();
        let ghost p = Self::spec_prefix();
        let mut i: u32 = 0;
        while i < n
            invariant
                i <= n,
                p == Self::spec_prefix(),
                forall|j: u32| j < i ==> !storage.raw().contains_key(#[trigger] list_item_slot(p, j)),
                forall|k: Seq<u8>| #[trigger] storage.raw().contains_key(k) ==>
                    before.contains_key(k) && storage.raw()[k] == before[k],
                forall|k: Seq<u8>|
                    #[trigger] before.contains_key(k) && k != list_len_slot(p)
                        && (forall|j: u32| j < n ==> k != #[trigger] list_item_slot(p, j))
                        ==> storage.raw().contains_key(k),
            decreases n - i,
        {
            let k = Self::key_for(i);
            let ghost mid = storage.raw();
            storage.kill(k.as_slice());
            proof {
                assert forall|k: Seq<u8>|
                    #[trigger] before.contains_key(k) && k != list_len_slot(p)
                        && (forall|j: u32| j < n ==> k != #[trigger] list_item_slot(p, j))
                        implies storage.raw().contains_key(k) by {
                    assert(k != list_item_slot(p, i));
                    assert(mid.contains_key(k));
                }
            }
            i = i + 1;
        }
        let lk = Self::len_key();
        storage.kill(lk.as_slice());
        Ok(())
    }
}

/// Where an enumerable map keeps its first key.
pub open spec fn enum_head_slot(prefix: Seq<u8>) -> Seq<u8> {
    blake2b_128_of(prefix + seq![104u8, 101u8, 97u8, 100u8])
}

/// Where an enumerable map keeps its number of entries.
pub open spec fn enum_count_slot(prefix: Seq<u8>) -> Seq<u8> {
    blake2b_128_of(prefix + seq![99u8, 111u8, 117u8, 110u8, 116u8])
}

/// Where an enumerable map keeps the key that follows `k`.
pub open spec fn enum_next_slot<K: Codec>(prefix: Seq<u8>, k: K) -> Seq<u8> {
    blake2b_128_of(prefix + seq![110u8, 101u8, 120u8, 116u8] + blake2b_128_of(K::spec_encode(k)))
}

/// Where an enumerable map keeps the key that precedes `k`.
pub open spec fn enum_prev_slot<K: Codec>(prefix: Seq<u8>, k: K) -> Seq<u8> {
    blake2b_128_of(prefix + seq![112u8, 114u8, 101u8, 118u8] + blake2b_128_of(K::spec_encode(k)))
}

/// `r` with `acc` in front of its entries.
pub open spec fn prepend<K, V>(acc: Seq<(K, V)>, r: Result<Seq<(K, V)>, StorageError>) -> Result<Seq<(K, V)>, StorageError> {
    match r {
        Ok(rest) => Ok(acc + rest),
        Err(e) => Err(e),
    }
}

/// The entries met when following the links from `cur`, at most `fuel` of them.
pub open spec fn walk<K: Codec, V: Codec>(m: Map<Seq<u8>, Seq<u8>>, prefix: Seq<u8>, cur: Option<K>, fuel: nat) -> Result<Seq<(K, V)>, StorageError>
    decreases fuel,
{
    match cur {
        None => Ok(Seq::empty()),
        Some(k) => if fuel == 0 {
            Ok(Seq::empty())
        } else {
            match read_required::<V>(m, map_slot(prefix, k)) {
                Err(e) => Err(e),
                Ok(v) => match read::<K>(m, enum_next_slot(prefix, k)) {
                    Err(e) => Err(e),
                    Ok(next) => prepend(seq![(k, v)], walk::<K, V>(m, prefix, next, (fuel - 1) as nat)),
                },
            }
        },
    }
}

/// The entries of an enumerable map: from its head, following the links, at
/// most as many as its count.
pub open spec fn enumerated<K: Codec, V: Codec>(m: Map<Seq<u8>, Seq<u8>>, prefix: Seq<u8>) -> Result<Seq<(K, V)>, StorageError> {
    match read::<K>(m, enum_head_slot(prefix)) {
        Err(e) => Err(e),
        Ok(head) => match read_or::<u32>(m, enum_count_slot(prefix), 0) {
            Err(e) => Err(e),
            Ok(n) => walk::<K, V>(m, prefix, head, n as nat),
        },
    }
}

/// `m` after a new key `k` is put in front of the map whose head was `head`
/// and count `n`.
pub open spec fn linked_inserted<K: Codec, V: Codec>(
    m: Map<Seq<u8>, Seq<u8>>,
    prefix: Seq<u8>,
    k: K,
    v: V,
    head: Option<K>,
    n: u32,
) -> Map<Seq<u8>, Seq<u8>> {
    let m1 = put_opt::<K>(m, enum_next_slot(prefix, k), head);
    let m2 = m1.remove(enum_prev_slot(prefix, k));
    let m3 = match head {
        Some(h) => m2.insert(enum_prev_slot(prefix, h), K::spec_encode(k)),
        None => m2,
    };
    let m4 = m3.insert(enum_head_slot(prefix), K::spec_encode(k));
    let m5 = m4.insert(enum_count_slot(prefix), <u32 as Codec>::spec_encode((n + 1) as u32));
    m5.insert(map_slot(prefix, k), V::spec_encode(v))
}

/// `m` after key `k`, between `prev` and `next`, is unlinked from a map of
/// count `n` and its entry removed.
pub open spec fn linked_removed<K: Codec>(
    m: Map<Seq<u8>, Seq<u8>>,
    prefix: Seq<u8>,
    k: K,
    prev: Option<K>,
    next: Option<K>,
    n: u32,
) -> Map<Seq<u8>, Seq<u8>> {
    let m1 = match prev {
        Some(p) => put_opt::<K>(m, enum_next_slot(prefix, p), next),
        None => put_opt::<K>(m, enum_head_slot(prefix), next),
    };
    let m2 = match next {
        Some(q) => put_opt::<K>(m1, enum_prev_slot(prefix, q), prev),
        None => m1,
    };
    let m3 = m2.remove(enum_prev_slot(prefix, k)).remove(enum_next_slot(prefix, k)).remove(map_slot(prefix, k));
    m3.insert(enum_count_slot(prefix), <u32 as Codec>::spec_encode(if n > 0 { (n - 1) as u32 } else { 0u32 }))
}

/// Writes `v` under `key`, or clears `key` when `v` is absent.
fn put_or_kill<T: Codec, S: HashedStorage<Blake2>>(storage: &mut S, key: &[u8], v: &Option<T>)
    ensures
        final(storage).raw() == put_opt::<T>(old(storage).raw(), blake2b_128_of(key@), *v),
{
    match v {
        Some(x) => storage.put(key, x),
        None => storage.kill(key),
    }
}

/// A `StorageMap` whose entries can be enumerated: each entry is linked to
/// its neighbours, and the map keeps its first key and its count.
pub trait EnumerableStorageMap<K: Codec, V: Codec>: StorageMap<K, V> {
    /// The key under which the first key is kept.
    fn head_key() -> (r: Vec<u8>)
        ensures
            r@ == Self::spec_prefix() + seq![104u8, 101u8, 97u8, 100u8],
    {
        let p = Self::prefix();
        let suffix: [u8; 4] = [104u8, 101u8, 97u8, 100u8];
        assert(suffix@ =~= seq![104u8, 101u8, 97u8, 100u8]);
        concat_bytes(p.as_slice(), array_as_slice(&suffix))
    }

    /// The key under which the count is kept.
    fn count_key() -> (r: Vec<u8>)
        ensures
            r@ == Self::spec_prefix() + seq![99u8, 111u8, 117u8, 110u8, 116u8],
    {
        let p = Self::prefix();
        let suffix: [u8; 5] = [99u8, 111u8, 117u8, 110u8, 116u8];
        assert(suffix@ =~= seq![99u8, 111u8, 117u8, 110u8, 116u8]);
        concat_bytes(p.as_slice(), array_as_slice(&suffix))
    }

    /// The key under which the key after `k` is kept.
    fn next_key_for(k: &K) -> (r: Vec<u8>)
        ensures
            r@ == Self::spec_prefix() + seq![110u8, 101u8, 120u8, 116u8] + blake2b_128_of(K::spec_encode(*k)),
    {
        let p = Self::prefix();
        let suffix: [u8; 4] = [110u8, 101u8, 120u8, 116u8];
        assert(suffix@ =~= seq![110u8, 101u8, 120u8, 116u8]);
        let q = concat_bytes(p.as_slice(), array_as_slice(&suffix));
        let e = k.encode();
        let h = Blake2::hash(e.as_slice());
        concat_bytes(q.as_slice(), array_as_slice(&h))
    }

    /// The key under which the key before `k` is kept.
    fn prev_key_for(k: &K) -> (r: Vec<u8>)
        ensures
            r@ == Self::spec_prefix() + seq![112u8, 114u8, 101u8, 118u8] + blake2b_128_of(K::spec_encode(*k)),
    {
        let p = Self::prefix();
        let suffix: [u8; 4] = [112u8, 114u8, 101u8, 118u8];
        assert(suffix@ =~= seq![112u8, 114u8, 101u8, 118u8]);
        let q = concat_bytes(p.as_slice(), array_as_slice(&suffix));
        let e = k.encode();
        let h = Blake2::hash(e.as_slice());
        concat_bytes(q.as_slice(), array_as_slice(&h))
    }

    /// Return current head element.
    fn head<S: HashedStorage<Blake2>>(storage: &S) -> (r: Result<Option<K>, StorageError>)
        ensures
            r == read::<K>(storage.raw(), enum_head_slot(Self::spec_prefix())),
    {
        let k = Self::head_key();
        storage.get(k.as_slice())
    }

    /// Enumerate all elements in the map, from the head along the links.
    fn enumerate<S: HashedStorage<Blake2>>(storage: &S) -> (r: Result<Vec<(K, V)>, StorageError>)
        ensures
            match r {
                Ok(v) => enumerated::<K, V>(storage.raw(), Self::spec_prefix()) == Ok::<Seq<(K, V)>, StorageError>(v@),
                Err(e) => enumerated::<K, V>(storage.raw(), Self::spec_prefix()) == Err::<Seq<(K, V)>, StorageError>(e),
            },
    {
        let ghost p = Self::spec_prefix();
        let ghost m = storage.raw();
        let head = Self::head(storage)?;
        let ck = Self::count_key();
        let n: u32 = storage.get_or_default(ck.as_slice())?;
        let ghost head_g = head;
        let mut cur = head;
        let mut left: u32 = n;
        let mut out: Vec<(K, V)> = Vec::new();
        while left > 0 && cur.is_some()
            invariant
                m == storage.raw(),
                p == Self::spec_prefix(),
                enumerated::<K, V>(m, p) == walk::<K, V>(m, p, head_g, n as nat),
                walk::<K, V>(m, p, head_g, n as nat) == prepend(out@, walk::<K, V>(m, p, cur, left as nat)),
            decreases left,
        {
            let k = cur.unwrap();
            let ghost here = walk::<K, V>(m, p, Some(k), left as nat);
            let vk = Self::key_for(&k);
            let nk = Self::next_key_for(&k);
            let v: V = match storage.require(vk.as_slice()) {
                Ok(v) => v,
                Err(e) => {
                    assert(here == Err::<Seq<(K, V)>, StorageError>(e));
                    return Err(e);
                },
            };
            let next: Option<K> = match storage.get(nk.as_slice()) {
                Ok(next) => next,
                Err(e) => {
                    assert(here == Err::<Seq<(K, V)>, StorageError>(e));
                    return Err(e);
                },
            };
            proof {
                let w = walk::<K, V>(m, p, next, (left - 1) as nat);
                assert(here == prepend(seq![(k, v)], w));
                match w {
                    Ok(rest) => assert(out@ + (seq![(k, v)] + rest) =~= out@.push((k, v)) + rest),
                    Err(_) => {},
                }
            }
            out.push((k, v));
            cur = next;
            left = left - 1;
        }
        proof {
            assert(walk::<K, V>(m, p, cur, left as nat) == Ok::<Seq<(K, V)>, StorageError>(Seq::empty()));
            assert(out@ + Seq::<(K, V)>::empty() =~= out@);
        }
        Ok(out)
    }

    /// Stores `val` under `key`; a new key goes in front of the others.
    fn insert_linked<S: HashedStorage<Blake2>>(key: &K, val: &V, storage: &mut S) -> (r: Result<(), StorageError>)
        ensures
            if old(storage).raw().contains_key(map_slot(Self::spec_prefix(), *key)) {
                r is Ok && final(storage).raw() == old(storage).raw().insert(
                    map_slot(Self::spec_prefix(), *key),
                    V::spec_encode(*val),
                )
            } else {
                match read::<K>(old(storage).raw(), enum_head_slot(Self::spec_prefix())) {
                    Err(e) => r == Err::<(), StorageError>(e) && final(storage).raw() == old(storage).raw(),
                    Ok(head) => match read_or::<u32>(old(storage).raw(), enum_count_slot(Self::spec_prefix()), 0) {
                        Err(e) => r == Err::<(), StorageError>(e) && final(storage).raw() == old(storage).raw(),
                        Ok(n) => if n == u32::MAX {
                            r == Err::<(), StorageError>(StorageError::Overflow) && final(storage).raw() == old(storage).raw()
                        } else {
                            r is Ok && final(storage).raw() == linked_inserted(old(storage).raw(), Self::spec_prefix(), *key, *val, head, n)
                        },
                    },
                }
            },
    {
        if Self::contains_key(key, &*storage) {
            Self::insert(key, val, storage);
            return Ok(());
        }
        let hk = Self::head_key();
        let ck = Self::count_key();
        let head: Option<K> = storage.get(hk.as_slice())?;
        let n: u32 = storage.get_or_default(ck.as_slice())?;
        if n == u32::MAX {
            return Err(StorageError::Overflow);
        }
        let nk = Self::next_key_for(key);
        let pk = Self::prev_key_for(key);
        put_or_kill(storage, nk.as_slice(), &head);
        storage.kill(pk.as_slice());
        match &head {
            Some(h) => {
                let hp = Self::prev_key_for(h);
                storage.put(hp.as_slice(), key);
            },
            None => {},
        }
        storage.put(hk.as_slice(), key);
        let count: u32 = n + 1;
        storage.put(ck.as_slice(), &count);
        Self::insert(key, val, storage);
        Ok(())
    }

    /// Removes the entry under `key` and links its neighbours to each other.
    fn remove_linked<S: HashedStorage<Blake2>>(key: &K, storage: &mut S) -> (r: Result<(), StorageError>)
        ensures
            if !old(storage).raw().contains_key(map_slot(Self::spec_prefix(), *key)) {
                r is Ok && final(storage).raw() == old(storage).raw()
            } else {
                match read::<K>(old(storage).raw(), enum_prev_slot(Self::spec_prefix(), *key)) {
                    Err(e) => r == Err::<(), StorageError>(e) && final(storage).raw() == old(storage).raw(),
                    Ok(prev) => match read::<K>(old(storage).raw(), enum_next_slot(Self::spec_prefix(), *key)) {
                        Err(e) => r == Err::<(), StorageError>(e) && final(storage).raw() == old(storage).raw(),
                        Ok(next) => match read_or::<u32>(old(storage).raw(), enum_count_slot(Self::spec_prefix()), 0) {
                            Err(e) => r == Err::<(), StorageError>(e) && final(storage).raw() == old(storage).raw(),
                            Ok(n) => r is Ok && final(storage).raw() == linked_removed(old(storage).raw(), Self::spec_prefix(), *key, prev, next, n),
                        },
                    },
                }
            },
    {
        if !Self::contains_key(key, &*storage) {
            return Ok(());
        }
        let pk = Self::prev_key_for(key);
        let nk = Self::next_key_for(key);
        let ck = Self::count_key();
        let prev: Option<K> = storage.get(pk.as_slice())?;
        let next: Option<K> = storage.get(nk.as_slice())?;
        let n: u32 = storage.get_or_default(ck.as_slice())?;
        match &prev {
            Some(p) => {
                let link = Self::next_key_for(p);
                put_or_kill(storage, link.as_slice(), &next);
            },
            None => {
                let hk = Self::head_key();
                put_or_kill(storage, hk.as_slice(), &next);
            },
        }
        match &next {
            Some(q) => {
                let link = Self::prev_key_for(q);
                put_or_kill(storage, link.as_slice(), &prev);
            },
            None => {},
        }
        storage.kill(pk.as_slice());
        storage.kill(nk.as_slice());
        Self::remove(key, storage);
        let count: u32 = if n > 0 {
            n - 1
        } else {
            0
        };
        storage.put(ck.as_slice(), &count);
        Ok(())
    }
}

} // verus!
