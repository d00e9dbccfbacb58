use srml_session::codec::{decode_le, encode_le, Codec};
use srml_session::hashing::{Blake2, StorageHasher, Twox};
use srml_session::session::{
    AccountAsSessionKey, CurrentIndex, ForcingNewSession, GenesisConfig, LastLengthChange, Module, NextKeyFor,
    SessionLength, Validators,
};
use srml_session::storage::{bytes_eq, concat_bytes, HashedStorage, Overlay, StorageError};
use srml_session::views::{StorageList, StorageMap, StorageValue};

fn from_hex(s: &str) -> Vec<u8> {
    (0..s.len()).step_by(2).map(|i| u8::from_str_radix(&s[i..i + 2], 16).unwrap()).collect()
}

#[test]
fn codec_round_trips() {
    for v in [0u64, 1, 255, 256, 0x0102_0304_0506_0708, u64::MAX] {
        assert_eq!(u64::decode(&v.encode()), Some(v));
    }
    for v in [0u32, 7, u32::MAX] {
        assert_eq!(u32::decode(&v.encode()), Some(v));
    }
    assert_eq!(bool::decode(&true.encode()), Some(true));
    assert_eq!(bool::decode(&false.encode()), Some(false));
}

#[test]
fn codec_is_little_endian() {
    assert_eq!(0x0102_0304u32.encode(), vec![4, 3, 2, 1]);
    assert_eq!(258u64.encode(), vec![2, 1, 0, 0, 0, 0, 0, 0]);
    assert_eq!(encode_le(0x0a0b, 2), vec![0x0b, 0x0a]);
    assert_eq!(decode_le(&[0x0b, 0x0a]), 0x0a0b);
    assert_eq!(true.encode(), vec![1]);
}

#[test]
fn codec_rejects_malformed() {
    assert_eq!(u64::decode(&[1, 2, 3]), None);
    assert_eq!(u32::decode(&[1, 2, 3, 4, 5]), None);
    assert_eq!(bool::decode(&[2]), None);
    assert_eq!(bool::decode(&[]), None);
}

#[test]
fn hashers_give_known_digests() {
    assert_eq!(Twox::hash(b"").to_vec(), from_hex("99e9d85137db46ef4bbea33613baafd5"));
    assert_eq!(Blake2::hash(b"").to_vec(), from_hex("cae66941d9efbd404e4d88758ea67670"));
}

#[test]
fn hashers_differ_by_input() {
    assert_ne!(Twox::hash(b"a"), Twox::hash(b"b"));
    assert_ne!(Blake2::hash(b"a"), Blake2::hash(b"b"));
    assert_ne!(Twox::hash(b"a"), Blake2::hash(b"a"));
    assert_eq!(Twox::hash(b"abc"), Twox::hash(b"abc"));
}

#[test]
fn byte_helpers() {
    assert_eq!(concat_bytes(&[1, 2], &[3]), vec![1, 2, 3]);
    assert_eq!(concat_bytes(&[], &[]), Vec::<u8>::new());
    assert!(bytes_eq(&[1, 2], &[1, 2]));
    assert!(!bytes_eq(&[1, 2], &[1, 3]));
    assert!(!bytes_eq(&[1], &[1, 2]));
}

#[test]
fn overlay_raw_operations() {
    let mut o = Overlay::new();
    assert!(!o.raw_exists(b"k"));
    o.raw_put(b"k", b"v1");
    o.raw_put(b"j", b"w");
    o.raw_put(b"k", b"v2");
    assert_eq!(o.raw_get(b"k"), Some(b"v2".to_vec()));
    assert_eq!(o.raw_get(b"j"), Some(b"w".to_vec()));
    o.raw_kill(b"k");
    assert!(!o.raw_exists(b"k"));
    assert_eq!(o.raw_get(b"k"), None);
    assert!(o.raw_exists(b"j"));
    o.raw_put(b"k", b"v3");
    assert_eq!(o.raw_get(b"k"), Some(b"v3".to_vec()));
}

#[test]
fn hashed_storage_stores_under_digest() {
    let mut o = Overlay::new();
    HashedStorage::<Twox>::put::<u64>(&mut o, b"key", &42);
    assert!(o.raw_exists(&Twox::hash(b"key")));
    assert!(!o.raw_exists(b"key"));
    assert!(HashedStorage::<Twox>::contains_key(&o, b"key"));
    assert!(!HashedStorage::<Blake2>::contains_key(&o, b"key"));
    assert_eq!(HashedStorage::<Twox>::get::<u64>(&o, b"key"), Ok(Some(42)));
    assert_eq!(HashedStorage::<Twox>::get::<u64>(&o, b"other"), Ok(None));
}

#[test]
fn hashed_storage_policies() {
    let mut o = Overlay::new();
    assert_eq!(HashedStorage::<Twox>::get_or_default::<u64>(&o, b"n"), Ok(0));
    assert_eq!(HashedStorage::<Twox>::require::<u64>(&o, b"n"), Err(StorageError::Missing));
    HashedStorage::<Twox>::put::<u64>(&mut o, b"n", &9);
    assert_eq!(HashedStorage::<Twox>::require::<u64>(&o, b"n"), Ok(9));
    assert_eq!(HashedStorage::<Twox>::take::<u64>(&mut o, b"n"), Ok(Some(9)));
    assert_eq!(HashedStorage::<Twox>::take::<u64>(&mut o, b"n"), Ok(None));
    assert_eq!(HashedStorage::<Twox>::take_or_default::<u64>(&mut o, b"n"), Ok(0));
    assert_eq!(HashedStorage::<Twox>::take_or_panic::<u64>(&mut o, b"n"), Err(StorageError::Missing));
    HashedStorage::<Twox>::put::<u64>(&mut o, b"n", &3);
    assert_eq!(HashedStorage::<Twox>::take_or_panic::<u64>(&mut o, b"n"), Ok(3));
    HashedStorage::<Twox>::put::<u64>(&mut o, b"n", &4);
    HashedStorage::<Twox>::kill(&mut o, b"n");
    assert_eq!(HashedStorage::<Twox>::get::<u64>(&o, b"n"), Ok(None));
}

#[test]
fn malformed_bytes_are_an_error() {
    let mut o = Overlay::new();
    HashedStorage::<Twox>::put::<bool>(&mut o, b"x", &true);
    assert_eq!(HashedStorage::<Twox>::get::<u64>(&o, b"x"), Err(StorageError::Malformed));
    assert_eq!(HashedStorage::<Twox>::get_or_default::<u64>(&o, b"x"), Err(StorageError::Malformed));
    assert_eq!(HashedStorage::<Twox>::take::<u64>(&mut o, b"x"), Err(StorageError::Malformed));
    // A failed take leaves the bytes in place.
    assert_eq!(HashedStorage::<Twox>::get::<bool>(&o, b"x"), Ok(Some(true)));
}

#[test]
fn value_item_operations() {
    let mut o = Overlay::new();
    assert!(!SessionLength::contains_key(&o));
    assert_eq!(SessionLength::get(&o), Ok(None));
    assert_eq!(SessionLength::get_or_default(&o), Ok(0));
    SessionLength::put(&5, &mut o);
    assert!(SessionLength::contains_key(&o));
    assert_eq!(SessionLength::get(&o), Ok(Some(5)));
    assert_eq!(CurrentIndex::get(&o), Ok(None));
    assert_eq!(SessionLength::take(&mut o), Ok(Some(5)));
    assert_eq!(SessionLength::get(&o), Ok(None));
    ForcingNewSession::put(&false, &mut o);
    assert_eq!(ForcingNewSession::get(&o), Ok(Some(false)));
    ForcingNewSession::kill(&mut o);
    assert_eq!(ForcingNewSession::get(&o), Ok(None));
    assert_eq!(SessionLength::key(), b"Session SessionLength".to_vec());
}

#[test]
fn map_get_after_insert() {
    let mut o = Overlay::new();
    assert_eq!(NextKeyFor::get(&3, &o), Ok(None));
    NextKeyFor::insert(&3, &30, &mut o);
    NextKeyFor::insert(&4, &40, &mut o);
    assert_eq!(NextKeyFor::get(&3, &o), Ok(Some(30)));
    assert_eq!(NextKeyFor::get(&4, &o), Ok(Some(40)));
    assert!(NextKeyFor::contains_key(&3, &o));
    NextKeyFor::insert(&3, &31, &mut o);
    assert_eq!(NextKeyFor::get_or_default(&3, &o), Ok(31));
    assert_eq!(NextKeyFor::take(&3, &mut o), Ok(Some(31)));
    assert!(!NextKeyFor::contains_key(&3, &o));
    NextKeyFor::remove(&4, &mut o);
    assert_eq!(NextKeyFor::get_or_default(&4, &o), Ok(0));
}

#[test]
fn map_key_is_prefix_and_digest() {
    let key = NextKeyFor::key_for(&7);
    let mut expected = b"Session NextKeyFor".to_vec();
    expected.extend_from_slice(&Blake2::hash(&7u64.encode()));
    assert_eq!(key, expected);
    assert_eq!(key.len(), 18 + 16);
}

#[test]
fn list_set_get_and_clear() {
    let mut o = Overlay::new();
    assert_eq!(Validators::len(&o), Ok(0));
    assert_eq!(Validators::get(0, &o), Ok(None));
    Validators::set_items(&[10, 20, 30], &mut o);
    assert_eq!(Validators::len(&o), Ok(3));
    assert_eq!(Validators::get(1, &o), Ok(Some(20)));
    assert_eq!(Validators::get(3, &o), Ok(None));
    assert_eq!(Validators::items(&o), Ok(vec![10, 20, 30]));
    assert_eq!(Validators::set_item(2, &33, &mut o), Ok(()));
    assert_eq!(Validators::set_item(3, &44, &mut o), Ok(()));
    assert_eq!(Validators::items(&o), Ok(vec![10, 20, 33]));
    assert_eq!(Validators::clear(&mut o), Ok(()));
    assert_eq!(Validators::len(&o), Ok(0));
    for i in 0..3u32 {
        assert_eq!(Validators::get(i, &o), Ok(None));
        assert!(!HashedStorage::<Twox>::contains_key(&o, &Validators::key_for(i)));
    }
    assert!(!HashedStorage::<Twox>::contains_key(&o, &Validators::len_key()));
    assert_eq!(Validators::items(&o), Ok(vec![]));
}

#[test]
fn list_shorter_rewrite_then_clear_leaves_nothing() {
    let mut o = Overlay::new();
    Validators::set_items(&[1, 2, 3, 4], &mut o);
    Validators::set_items(&[5], &mut o);
    assert_eq!(Validators::items(&o), Ok(vec![5]));
    assert_eq!(Validators::clear(&mut o), Ok(()));
    assert!(!HashedStorage::<Twox>::contains_key(&o, &Validators::key_for(0)));
    assert_eq!(Validators::len(&o), Ok(0));
}

#[test]
fn list_missing_item_is_an_error() {
    let mut o = Overlay::new();
    Validators::set_items(&[1, 2], &mut o);
    HashedStorage::<Twox>::kill(&mut o, &Validators::key_for(1));
    assert_eq!(Validators::items(&o), Err(StorageError::Missing));
    HashedStorage::<Twox>::put::<bool>(&mut o, &Validators::len_key(), &true);
    assert_eq!(Validators::len(&o), Err(StorageError::Malformed));
    assert_eq!(Validators::clear(&mut o), Err(StorageError::Malformed));
}

#[test]
fn session_store_and_reload() {
    let mut session = Module::new(GenesisConfig { session_length: 4, validators: vec![1, 2], keys: vec![(2, 20)] }).unwrap();
    assert!(session.set_length(6).is_ok());
    assert!(session.force_new_session(true).is_ok());
    assert!(session.check_rotate_session::<AccountAsSessionKey>(1, 11).is_some());
    assert!(session.force_new_session(false).is_ok());
    let mut o = Overlay::new();
    session.store(&mut o);
    assert_eq!(Validators::items(&o), Ok(vec![1, 2]));
    assert_eq!(LastLengthChange::get(&o), Ok(Some(1)));
    let fresh = Module::new(GenesisConfig { session_length: 1, validators: vec![], keys: vec![(2, 20)] }).unwrap();
    let back = fresh.reload(&o).unwrap();
    assert_eq!(back.validators(), vec![1, 2]);
    assert_eq!(back.length(), 6);
    assert_eq!(back.current_index(), 1);
    assert_eq!(back.current_start(), 11);
    assert_eq!(back.forcing_new_session(), Some(false));
    assert_eq!(back.last_length_change(), 1);
    assert_eq!(back.next_key_for(2), Some(20));
}

#[test]
fn reload_rejects_bad_state() {
    let o = Overlay::new();
    let fresh = Module::new(GenesisConfig { session_length: 1, validators: vec![], keys: vec![] }).unwrap();
    assert!(matches!(fresh.reload(&o), Err(StorageError::Missing)));
    let mut o = Overlay::new();
    SessionLength::put(&0, &mut o);
    let fresh = Module::new(GenesisConfig { session_length: 1, validators: vec![], keys: vec![] }).unwrap();
    assert!(matches!(fresh.reload(&o), Err(StorageError::Malformed)));
}

#[test]
fn value_mutate_reads_applies_and_writes() {
    let mut o = Overlay::new();
    assert_eq!(CurrentIndex::mutate(|v: Option<u64>| Some(v.unwrap_or(0) + 1), &mut o), Ok(Some(1)));
    assert_eq!(CurrentIndex::mutate(|v: Option<u64>| Some(v.unwrap_or(0) + 1), &mut o), Ok(Some(2)));
    assert_eq!(CurrentIndex::get(&o), Ok(Some(2)));
    assert_eq!(CurrentIndex::mutate(|_v: Option<u64>| None, &mut o), Ok(None));
    assert_eq!(CurrentIndex::get(&o), Ok(None));
}

#[test]
fn value_mutate_on_malformed_fails_without_change() {
    let mut o = Overlay::new();
    HashedStorage::<Twox>::put::<bool>(&mut o, &CurrentIndex::key(), &true);
    assert_eq!(CurrentIndex::mutate(|_v: Option<u64>| Some(5), &mut o), Err(StorageError::Malformed));
    assert_eq!(HashedStorage::<Twox>::get::<bool>(&o, &CurrentIndex::key()), Ok(Some(true)));
}

#[test]
fn map_mutate_updates_one_entry() {
    let mut o = Overlay::new();
    NextKeyFor::insert(&1, &10, &mut o);
    assert_eq!(NextKeyFor::mutate(&1, |v: Option<u64>| v.map(|k| k * 2), &mut o), Ok(Some(20)));
    assert_eq!(NextKeyFor::mutate(&2, |v: Option<u64>| v.map(|k| k * 2), &mut o), Ok(None));
    assert_eq!(NextKeyFor::get(&1, &o), Ok(Some(20)));
    assert_eq!(NextKeyFor::get(&2, &o), Ok(None));
}
