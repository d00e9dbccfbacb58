//! The session manager: pending session keys, scheduled length changes and
//! the rotation of the authority set.
use vstd::prelude::*;
use vstd::slice::slice_to_vec;
use crate::codec::{lemma_le_bytes_len, Codec};
use crate::hashing::twox_128_of;
use crate::storage::{put_opt, read, read_or, read_required, Overlay, StorageError};
use crate::views::{list_len, list_item_slot, list_written, map_slot, EnumerableStorageMap, StorageList, StorageMap, StorageValue};

verus! {

broadcast use vstd::std_specs::hash::group_hash_axioms;

/// Who sent a call.
#[derive(Debug, Clone, Copy, PartialEq, Eq, Structural)]
pub enum Origin {
    /// The system itself.
    Root,
    /// A signed account.
    Signed(u64),
    /// Nobody in particular.
    Unsigned,
}

/// The pending session key of each account that registered one.
///
/// Kept under the prefix `Session NextKeyFor`.
pub struct NextKeyFor;

impl StorageMap<u64, u64> for NextKeyFor {
    open spec fn spec_prefix() -> Seq<u8> {
        seq![83u8, 101u8, 115u8, 115u8, 105u8, 111u8, 110u8, 32u8, 78u8, 101u8, 120u8, 116u8, 75u8, 101u8, 121u8, 70u8, 111u8, 114u8]
    }

    fn prefix() -> (r: Vec<u8>) {
        let r = vec![83u8, 101u8, 115u8, 115u8, 105u8, 111u8, 110u8, 32u8, 78u8, 101u8, 120u8, 116u8, 75u8, 101u8, 121u8, 70u8, 111u8, 114u8];
        assert(r@ =~= Self::spec_prefix());
        r
    }
}

/// The pending keys can also be laid out with links, so that they can be
/// listed.
impl EnumerableStorageMap<u64, u64> for NextKeyFor {}

/// The current set of validators.
///
/// Kept under the prefix `Session Validators`.
pub struct Validators;

impl StorageList<u64> for Validators {
    open spec fn spec_prefix() -> Seq<u8> {
        seq![83u8, 101u8, 115u8, 115u8, 105u8, 111u8, 110u8, 32u8, 86u8, 97u8, 108u8, 105u8, 100u8, 97u8, 116u8, 111u8, 114u8, 115u8]
    }

    fn prefix() -> (r: Vec<u8>) {
        let r = vec![83u8, 101u8, 115u8, 115u8, 105u8, 111u8, 110u8, 32u8, 86u8, 97u8, 108u8, 105u8, 100u8, 97u8, 116u8, 111u8, 114u8, 115u8];
        assert(r@ =~= Self::spec_prefix());
        r
    }
}

/// Current length of the session.
///
/// Kept under the key `Session SessionLength`.
pub struct SessionLength;

impl StorageValue<u64> for SessionLength {
    open spec fn spec_key() -> Seq<u8> {
        seq![83u8, 101u8, 115u8, 115u8, 105u8, 111u8, 110u8, 32u8, 83u8, 101u8, 115u8, 115u8, 105u8, 111u8, 110u8, 76u8, 101u8, 110u8, 103u8, 116u8, 104u8]
    }

    fn key() -> (r: Vec<u8>) {
        let r = vec![83u8, 101u8, 115u8, 115u8, 105u8, 111u8, 110u8, 32u8, 83u8, 101u8, 115u8, 115u8, 105u8, 111u8, 110u8, 76u8, 101u8, 110u8, 103u8, 116u8, 104u8];
        assert(r@ =~= Self::spec_key());
        r
    }
}

/// Current index of the session.
///
/// Kept under the key `Session CurrentIndex`.
pub struct CurrentIndex;

impl StorageValue<u64> for CurrentIndex {
    open spec fn spec_key() -> Seq<u8> {
        seq![83u8, 101u8, 115u8, 115u8, 105u8, 111u8, 110u8, 32u8, 67u8, 117u8, 114u8, 114u8, 101u8, 110u8, 116u8, 73u8, 110u8, 100u8, 101u8, 120u8]
    }

    fn key() -> (r: Vec<u8>) {
        let r = vec![83u8, 101u8, 115u8, 115u8, 105u8, 111u8, 110u8, 32u8, 67u8, 117u8, 114u8, 114u8, 101u8, 110u8, 116u8, 73u8, 110u8, 100u8, 101u8, 120u8];
        assert(r@ =~= Self::spec_key());
        r
    }
}

/// Timestamp when the current session started.
///
/// Kept under the key `Session CurrentStart`.
pub struct CurrentStart;

impl StorageValue<u64> for CurrentStart {
    open spec fn spec_key() -> Seq<u8> {
        seq![83u8, 101u8, 115u8, 115u8, 105u8, 111u8, 110u8, 32u8, 67u8, 117u8, 114u8, 114u8, 101u8, 110u8, 116u8, 83u8, 116u8, 97u8, 114u8, 116u8]
    }

    fn key() -> (r: Vec<u8>) {
        let r = vec![83u8, 101u8, 115u8, 115u8, 105u8, 111u8, 110u8, 32u8, 67u8, 117u8, 114u8, 114u8, 101u8, 110u8, 116u8, 83u8, 116u8, 97u8, 114u8, 116u8];
        assert(r@ =~= Self::spec_key());
        r
    }
}

/// Whether a new session is forced, and if so whether it is rewardable.
///
/// Kept under the key `Session ForcingNewSession`.
pub struct ForcingNewSession;

impl StorageValue<bool> for ForcingNewSession {
    open spec fn spec_key() -> Seq<u8> {
        seq![83u8, 101u8, 115u8, 115u8, 105u8, 111u8, 110u8, 32u8, 70u8, 111u8, 114u8, 99u8, 105u8, 110u8, 103u8, 78u8, 101u8, 119u8, 83u8, 101u8, 115u8, 115u8, 105u8, 111u8, 110u8]
    }

    fn key() -> (r: Vec<u8>) {
        let r = vec![83u8, 101u8, 115u8, 115u8, 105u8, 111u8, 110u8, 32u8, 70u8, 111u8, 114u8, 99u8, 105u8, 110u8, 103u8, 78u8, 101u8, 119u8, 83u8, 101u8, 115u8, 115u8, 105u8, 111u8, 110u8];
        assert(r@ =~= Self::spec_key());
        r
    }
}

/// Block at which the schedule was last realigned.
///
/// Kept under the key `Session LastLengthChange`.
pub struct LastLengthChange;

impl StorageValue<u64> for LastLengthChange {
    open spec fn spec_key() -> Seq<u8> {
        seq![83u8, 101u8, 115u8, 115u8, 105u8, 111u8, 110u8, 32u8, 76u8, 97u8, 115u8, 116u8, 76u8, 101u8, 110u8, 103u8, 116u8, 104u8, 67u8, 104u8, 97u8, 110u8, 103u8, 101u8]
    }

    fn key() -> (r: Vec<u8>) {
        let r = vec![83u8, 101u8, 115u8, 115u8, 105u8, 111u8, 110u8, 32u8, 76u8, 97u8, 115u8, 116u8, 76u8, 101u8, 110u8, 103u8, 116u8, 104u8, 67u8, 104u8, 97u8, 110u8, 103u8, 101u8];
        assert(r@ =~= Self::spec_key());
        r
    }
}

/// The session length that the next rotation enacts.
///
/// Kept under the key `Session NextSessionLength`.
pub struct NextSessionLength;

impl StorageValue<u64> for NextSessionLength {
    open spec fn spec_key() -> Seq<u8> {
        seq![83u8, 101u8, 115u8, 115u8, 105u8, 111u8, 110u8, 32u8, 78u8, 101u8, 120u8, 116u8, 83u8, 101u8, 115u8, 115u8, 105u8, 111u8, 110u8, 76u8, 101u8, 110u8, 103u8, 116u8, 104u8]
    }

    fn key() -> (r: Vec<u8>) {
        let r = vec![83u8, 101u8, 115u8, 115u8, 105u8, 111u8, 110u8, 32u8, 78u8, 101u8, 120u8, 116u8, 83u8, 101u8, 115u8, 115u8, 105u8, 111u8, 110u8, 76u8, 101u8, 110u8, 103u8, 116u8, 104u8];
        assert(r@ =~= Self::spec_key());
        r
    }
}

/// Derives a session key from an account when the account registered none.
pub trait ConvertAccountIdToSessionKey {
    /// The key derived from `who`, if any.
    spec fn spec_convert(who: u64) -> Option<u64>;

    fn convert(who: u64) -> (r: Option<u64>)
        ensures
            r == Self::spec_convert(who),
    ;
}

/// Uses the account number itself as its session key.
pub struct AccountAsSessionKey;

impl ConvertAccountIdToSessionKey for AccountAsSessionKey {
    open spec fn spec_convert(who: u64) -> Option<u64> {
        Some(who)
    }

    fn convert(who: u64) -> (r: Option<u64>) {
        Some(who)
    }
}

/// Derives no key: accounts without a registered key get the zero key.
pub struct NoSessionKey;

impl ConvertAccountIdToSessionKey for NoSessionKey {
    open spec fn spec_convert(who: u64) -> Option<u64> {
        None
    }

    fn convert(who: u64) -> (r: Option<u64>) {
        None
    }
}

/// The persisted entities of the session manager.
pub struct SessionState {
    /// The current set of validators.
    pub validators: Seq<u64>,
    /// Current length of the session, in blocks.
    pub length: u64,
    /// Current index of the session.
    pub current_index: u64,
    /// Timestamp when the current session started.
    pub current_start: u64,
    /// Present when a new session is forced; whether it is rewardable.
    pub forcing: Option<bool>,
    /// Block at which the schedule was last realigned.
    pub last_length_change: Option<u64>,
    /// The session length that the next rotation enacts.
    pub next_length: Option<u64>,
    /// The store that holds the pending session keys.
    pub next_keys: Map<Seq<u8>, Seq<u8>>,
}

/// The block from which the rotation schedule counts.
pub open spec fn anchor(s: SessionState) -> u64 {
    match s.last_length_change {
        Some(b) => b,
        None => 0,
    }
}

/// What every reachable state satisfies.
pub open spec fn valid_state(s: SessionState) -> bool {
    &&& s.length > 0
    &&& s.next_length matches Some(l) ==> l > 0
    &&& forall|k: Seq<u8>| #[trigger] s.next_keys.contains_key(k) ==> s.next_keys[k].len() == 8
}

/// The key that `who` registered for the next session, if any.
pub open spec fn pending_key(s: SessionState, who: u64) -> Option<u64> {
    match read::<u64>(s.next_keys, map_slot(NextKeyFor::spec_prefix(), who)) {
        Ok(Some(k)) => Some(k),
        _ => None,
    }
}

/// The key that validator `who` gets at a rotation: its pending key, else
/// the derived one, else zero.
pub open spec fn session_key<C: ConvertAccountIdToSessionKey>(s: SessionState, who: u64) -> u64 {
    match pending_key(s, who) {
        Some(k) => k,
        None => match C::spec_convert(who) {
            Some(k) => k,
            None => 0,
        },
    }
}

/// The authority keys of the validators, by index.
pub open spec fn authority_keys<C: ConvertAccountIdToSessionKey>(s: SessionState) -> Seq<u64> {
    s.validators.map_values(|v: u64| session_key::<C>(s, v))
}

/// Whether `block` ends a session on the natural schedule.
pub open spec fn is_final_block(s: SessionState, block: u64) -> bool {
    (block - anchor(s)) % (s.length as int) == 0
}

/// Whether the check at `block` rotates, and whether that rotation is rewardable.
pub open spec fn rotation_decision(s: SessionState, block: u64) -> (bool, bool) {
    match s.forcing {
        Some(apply_rewards) => (true, apply_rewards),
        None => (is_final_block(s, block), is_final_block(s, block)),
    }
}

/// The state after a rotation at `block`, at time `now`.
pub open spec fn rotated(s: SessionState, is_final: bool, block: u64, now: u64) -> SessionState {
    SessionState {
        current_index: (s.current_index + 1) as u64,
        current_start: now,
        length: match s.next_length {
            Some(l) => l,
            None => s.length,
        },
        next_length: None,
        last_length_change: if s.next_length is Some || !is_final {
            Some(block)
        } else {
            s.last_length_change
        },
        ..s
    }
}

/// The state after the end-of-block check at `block`, at time `now`.
pub open spec fn checked(s: SessionState, block: u64, now: u64) -> SessionState {
    let cleared = SessionState { forcing: None, ..s };
    if rotation_decision(s, block).0 {
        rotated(cleared, is_final_block(s, block), block, now)
    } else {
        cleared
    }
}

/// `(length - 1) - ((block - anchor + length - 1) mod length)`.
pub open spec fn remaining(length: u64, anchor: u64, block: u64) -> int {
    (length - 1) - ((block - anchor + length - 1) % (length as int))
}

/// Where the store keeps the value item `V`.
pub open spec fn value_slot<T: Codec, V: StorageValue<T>>() -> Seq<u8> {
    twox_128_of(V::spec_key())
}

/// `m` after the session entities of `s`, but the pending keys, are written
/// to it in turn.
pub open spec fn stored(m: Map<Seq<u8>, Seq<u8>>, s: SessionState) -> Map<Seq<u8>, Seq<u8>> {
    let m1 = list_written::<u64>(m, Validators::spec_prefix(), s.validators);
    let m2 = m1.insert(value_slot::<u64, SessionLength>(), <u64 as Codec>::spec_encode(s.length));
    let m3 = m2.insert(value_slot::<u64, CurrentIndex>(), <u64 as Codec>::spec_encode(s.current_index));
    let m4 = m3.insert(value_slot::<u64, CurrentStart>(), <u64 as Codec>::spec_encode(s.current_start));
    let m5 = put_opt::<bool>(m4, value_slot::<bool, ForcingNewSession>(), s.forcing);
    let m6 = put_opt::<u64>(m5, value_slot::<u64, LastLengthChange>(), s.last_length_change);
    put_opt::<u64>(m6, value_slot::<u64, NextSessionLength>(), s.next_length)
}

/// Whether `m` holds a session state that can be read back: every entity
/// decodes, the validators' items are all there, and the lengths are positive.
pub open spec fn loadable(m: Map<Seq<u8>, Seq<u8>>) -> bool {
    &&& list_len(m, Validators::spec_prefix()) matches Ok(n) && forall|i: u32|
        i < n ==> (#[trigger] read_required::<u64>(m, list_item_slot(Validators::spec_prefix(), i))) is Ok
    &&& read_required::<u64>(m, value_slot::<u64, SessionLength>()) matches Ok(l) && l > 0
    &&& read_or::<u64>(m, value_slot::<u64, CurrentIndex>(), 0) is Ok
    &&& read_or::<u64>(m, value_slot::<u64, CurrentStart>(), 0) is Ok
    &&& read::<bool>(m, value_slot::<bool, ForcingNewSession>()) is Ok
    &&& read::<u64>(m, value_slot::<u64, LastLengthChange>()) is Ok
    &&& read::<u64>(m, value_slot::<u64, NextSessionLength>()) matches Ok(o) && (o matches Some(l) ==> l > 0)
}

/// What a rotation hands to the rest of the runtime.
pub struct SessionChange {
    /// The index of the new session.
    pub session_index: u64,
    /// Time that the session that ended lasted.
    pub time_elapsed: u64,
    /// Whether the session that ended is rewardable (else slashable).
    pub apply_rewards: bool,
    /// The authority key of each validator, by index.
    pub authorities: Vec<u64>,
}

/// What the chain starts with.
pub struct GenesisConfig {
    pub session_length: u64,
    pub validators: Vec<u64>,
    pub keys: Vec<(u64, u64)>,
}

/// The pending-key store after the first `n` of `keys` are registered in order.
pub open spec fn keys_registered(m: Map<Seq<u8>, Seq<u8>>, keys: Seq<(u64, u64)>, n: nat) -> Map<Seq<u8>, Seq<u8>>
    decreases n,
{
    if n == 0 {
        m
    } else {
        keys_registered(m, keys, (n - 1) as nat).insert(
            map_slot(NextKeyFor::spec_prefix(), keys[n - 1].0),
            <u64 as Codec>::spec_encode(keys[n - 1].1),
        )
    }
}

/// The session manager's state.
pub struct Module {
    validators: Vec<u64>,
    session_length: u64,
    current_index: u64,
    current_start: u64,
    forcing_new_session: Option<bool>,
    last_length_change: Option<u64>,
    next_session_length: Option<u64>,
    next_key_for: Overlay,
}

/// An encoded `u64` is 8 bytes long.
proof fn lemma_u64_encoding_len(v: u64)
    ensures
        <u64 as Codec>::spec_encode(v).len() == 8,
{
    lemma_le_bytes_len(v as nat, 8);
}

impl Module {
    /// The persisted entities.
    pub closed spec fn view(&self) -> SessionState {
        SessionState {
            validators: self.validators@,
            length: self.session_length,
            current_index: self.current_index,
            current_start: self.current_start,
            forcing: self.forcing_new_session,
            last_length_change: self.last_length_change,
            next_length: self.next_session_length,
            next_keys: self.next_key_for@,
        }
    }

    /// The state holds together: a positive length, and only encoded keys.
    pub open spec fn wf(&self) -> bool {
        valid_state(self@)
    }

    /// Builds the state at genesis; none when the session length is zero.
    pub fn new(config: GenesisConfig) -> (r: Option<Module>)
        ensures
            r is Some <==> config.session_length > 0,
            r matches Some(m) ==> {
                &&& m.wf()
                &&& m@.validators == config.validators@
                &&& m@.length == config.session_length
                &&& m@.current_index == 0
                &&& m@.current_start == 0
                &&& m@.forcing is None
                &&& m@.last_length_change is None
                &&& m@.next_length is None
                &&& m@.next_keys == keys_registered(Map::empty(), config.keys@, config.keys@.len())
            },
    {
        if config.session_length == 0 {
            return None;
        }
        let mut store = Overlay::new();
        let keys = config.keys;
        let mut i: usize = 0;
        while i < keys.len()
            invariant
                i <= keys@.len(),
                store@ == keys_registered(Map::empty(), keys@, i as nat),
                forall|k: Seq<u8>| #[trigger] store@.contains_key(k) ==> store@[k].len() == 8,
            decreases keys@.len() - i,
        {
            let (who, key) = keys[i];
            NextKeyFor::insert(&who, &key, &mut store);
            proof {
                lemma_u64_encoding_len(key);
            }
            i = i + 1;
        }
        Some(Module {
            validators: config.validators,
            session_length: config.session_length,
            current_index: 0,
            current_start: 0,
            forcing_new_session: None,
            last_length_change: None,
            next_session_length: None,
            next_key_for: store,
        })
    }

    /// The current set of validators.
    pub fn validators(&self) -> (r: Vec<u64>)
        ensures
            r@ == self@.validators,
    {
        slice_to_vec(self.validators.as_slice())
    }

    /// Current length of the session.
    pub fn length(&self) -> (r: u64)
        ensures
            r == self@.length,
    {
        self.session_length
    }

    /// Current index of the session.
    pub fn current_index(&self) -> (r: u64)
        ensures
            r == self@.current_index,
    {
        self.current_index
    }

    /// Timestamp when the current session started.
    pub fn current_start(&self) -> (r: u64)
        ensures
            r == self@.current_start,
    {
        self.current_start
    }

    /// Whether a new session is being forced, and if so whether it is rewardable.
    pub fn forcing_new_session(&self) -> (r: Option<bool>)
        ensures
            r == self@.forcing,
    {
        self.forcing_new_session
    }

    /// The key that `who` registered for the next session, if any.
    pub fn next_key_for(&self, who: u64) -> (r: Option<u64>)
        requires
            self.wf(),
        ensures
            r == pending_key(self@, who),
    {
        match NextKeyFor::get(&who, &self.next_key_for) {
            Ok(k) => k,
            Err(_) => None,
        }
    }

    /// The current number of validators.
    pub fn validator_count(&self) -> (r: u32)
        ensures
            r == self@.validators.len() as u32,
    {
        self.validators.len() as u32
    }

    /// The last length change if there was one, zero if not.
    pub fn last_length_change(&self) -> (r: u64)
        ensures
            r == anchor(self@),
    {
        match self.last_length_change {
            Some(b) => b,
            None => 0,
        }
    }

    /// Forces a new session at the next check; the flag says whether the
    /// session that ends is rewardable.
    pub fn apply_force_new_session(&mut self, apply_rewards: bool) -> (r: Result<(), &'static str>)
        ensures
            r is Ok,
            final(self)@ == (SessionState { forcing: Some(apply_rewards), ..old(self)@ }),
    {
        self.forcing_new_session = Some(apply_rewards);
        Ok(())
    }

    /// Set the current set of validators. The new set takes its session keys
    /// at the next rotation.
    pub fn set_validators(&mut self, new: &[u64])
        ensures
            final(self)@ == (SessionState { validators: new@, ..old(self)@ }),
    {
        self.validators = slice_to_vec(new);
    }

    /// Sets the session key of the signed sender for the next session.
    pub fn set_key(&mut self, origin: Origin, key: u64) -> (r: Result<(), &'static str>)
        requires
            old(self).wf(),
        ensures
            final(self).wf(),
            match origin {
                Origin::Signed(who) => r is Ok && final(self)@ == (SessionState {
                    next_keys: old(self)@.next_keys.insert(
                        map_slot(NextKeyFor::spec_prefix(), who),
                        <u64 as Codec>::spec_encode(key),
                    ),
                    ..old(self)@
                }),
                _ => r is Err && final(self)@ == old(self)@,
            },
    {
        match origin {
            Origin::Signed(who) => {
                NextKeyFor::insert(&who, &key, &mut self.next_key_for);
                proof {
                    lemma_u64_encoding_len(key);
                }
                Ok(())
            },
            _ => Err("bad origin: expected to be a signed origin"),
        }
    }

    /// Sets a new session length, enacted at the next rotation. A zero
    /// length is refused.
    pub fn set_length(&mut self, new: u64) -> (r: Result<(), &'static str>)
        requires
            old(self).wf(),
        ensures
            final(self).wf(),
            r is Ok <==> new > 0,
            final(self)@ == if new > 0 {
                SessionState { next_length: Some(new), ..old(self)@ }
            } else {
                old(self)@
            },
    {
        if new == 0 {
            return Err("session length must be positive");
        }
        self.next_session_length = Some(new);
        Ok(())
    }

    /// Forces a new session.
    pub fn force_new_session(&mut self, apply_rewards: bool) -> (r: Result<(), &'static str>)
        ensures
            r is Ok,
            final(self)@ == (SessionState { forcing: Some(apply_rewards), ..old(self)@ }),
    {
        self.apply_force_new_session(apply_rewards)
    }

    /// Drops the pending key of an account whose balance reached zero.
    pub fn on_free_balance_zero(&mut self, who: u64)
        requires
            old(self).wf(),
        ensures
            final(self).wf(),
            final(self)@ == (SessionState {
                next_keys: old(self)@.next_keys.remove(map_slot(NextKeyFor::spec_prefix(), who)),
                ..old(self)@
            }),
    {
        NextKeyFor::remove(&who, &mut self.next_key_for);
    }
    /// Writes the session entities, but the pending keys, to `storage`
    /// through their typed items.
    pub fn store(&self, storage: &mut Overlay)
        requires
            self@.validators.len() <= u32::MAX,
        ensures
            final(storage)@ == stored(old(storage)@, self@),
    {
        Validators::set_items(self.validators.as_slice(), storage);
        SessionLength::put(&self.session_length, storage);
        CurrentIndex::put(&self.current_index, storage);
        CurrentStart::put(&self.current_start, storage);
        match self.forcing_new_session {
            Some(f) => ForcingNewSession::put(&f, storage),
            None => ForcingNewSession::kill(storage),
        }
        match self.last_length_change {
            Some(b) => LastLengthChange::put(&b, storage),
            None => LastLengthChange::kill(storage),
        }
        match self.next_session_length {
            Some(l) => NextSessionLength::put(&l, storage),
            None => NextSessionLength::kill(storage),
        }
    }

    /// Reads the session entities back from `storage`, keeping the pending
    /// keys; an error when an entity does not decode, a validator is missing,
    /// or a stored length is zero.
    pub fn reload(self, storage: &Overlay) -> (r: Result<Module, StorageError>)
        requires
            self.wf(),
        ensures
            r is Ok <==> loadable(storage@),
            r matches Ok(m) ==> {
                &&& m.wf()
                &&& m@.next_keys == self@.next_keys
                &&& list_len(storage@, Validators::spec_prefix()) == Ok::<u32, StorageError>(m@.validators.len() as u32)
                &&& forall|i: u32|
                    i < m@.validators.len() ==> read_required::<u64>(storage@, #[trigger] list_item_slot(Validators::spec_prefix(), i))
                        == Ok::<u64, StorageError>(m@.validators[i as int])
                &&& read_required::<u64>(storage@, value_slot::<u64, SessionLength>()) == Ok::<u64, StorageError>(m@.length)
                &&& read_or::<u64>(storage@, value_slot::<u64, CurrentIndex>(), 0) == Ok::<u64, StorageError>(m@.current_index)
                &&& read_or::<u64>(storage@, value_slot::<u64, CurrentStart>(), 0) == Ok::<u64, StorageError>(m@.current_start)
                &&& read::<bool>(storage@, value_slot::<bool, ForcingNewSession>()) == Ok::<Option<bool>, StorageError>(m@.forcing)
                &&& read::<u64>(storage@, value_slot::<u64, LastLengthChange>()) == Ok::<Option<u64>, StorageError>(m@.last_length_change)
                &&& read::<u64>(storage@, value_slot::<u64, NextSessionLength>()) == Ok::<Option<u64>, StorageError>(m@.next_length)
            },
    {
        let validators = Validators::items(storage);
        let session_length = SessionLength::get(storage);
        let current_index = CurrentIndex::get_or_default(storage);
        let current_start = CurrentStart::get_or_default(storage);
        let forcing = ForcingNewSession::get(storage);
        let last_change = LastLengthChange::get(storage);
        let next_length = NextSessionLength::get(storage);
        let validators = validators?;
        let session_length = match session_length? {
            Some(l) => l,
            None => {
                return Err(StorageError::Missing);
            },
        };
        if session_length == 0 {
            return Err(StorageError::Malformed);
        }
        let current_index = current_index?;
        let current_start = current_start?;
        let forcing = forcing?;
        let last_change = last_change?;
        let next_length = next_length?;
        if let Some(l) = next_length {
            if l == 0 {
                return Err(StorageError::Malformed);
            }
        }
        assert(list_len(storage@, Validators::spec_prefix()) == Ok::<u32, StorageError>(validators@.len() as u32));
        assert(forall|i: u32|
            i < validators@.len() ==> read_required::<u64>(storage@, #[trigger] list_item_slot(Validators::spec_prefix(), i))
                == Ok::<u64, StorageError>(validators@[i as int]));
        let m = Module {
            validators,
            session_length,
            current_index,
            current_start,
            forcing_new_session: forcing,
            last_length_change: last_change,
            next_session_length: next_length,
            next_key_for: self.next_key_for,
        };
        assert(m@.next_keys == self@.next_keys);
        assert(m@.length > 0);
        assert(m@.next_length matches Some(l) ==> l > 0);
        Ok(m)
    }

    /// The key that validator `who` gets at a rotation.
    fn resolve_key<C: ConvertAccountIdToSessionKey>(&self, who: u64) -> (r: u64)
        requires
            self.wf(),
        ensures
            r == session_key::<C>(self@, who),
    {
        match self.next_key_for(who) {
            Some(k) => k,
            None => match C::convert(who) {
                Some(k) => k,
                None => 0,
            },
        }
    }

    /// Move on to the next session at block `block_number`, time `now`:
    /// enact a scheduled length, realign the schedule when the rotation is
    /// off the natural boundary, and derive the validators' authority keys.
    pub fn rotate_session<C: ConvertAccountIdToSessionKey>(
        &mut self,
        is_final_block: bool,
        apply_rewards: bool,
        block_number: u64,
        now: u64,
    ) -> (r: SessionChange)
        requires
            old(self).wf(),
            old(self)@.current_index < u64::MAX,
            old(self)@.current_start <= now,
        ensures
            final(self).wf(),
            final(self)@ == rotated(old(self)@, is_final_block, block_number, now),
            r.session_index == old(self)@.current_index + 1,
            r.time_elapsed == now - old(self)@.current_start,
            r.apply_rewards == apply_rewards,
            r.authorities@ == authority_keys::<C>(old(self)@),
    {
        let time_elapsed = now - self.current_start;
        let session_index = self.current_index + 1;
        self.current_index = session_index;
        self.current_start = now;
        let len_changed = match self.next_session_length {
            Some(next_len) => {
                self.session_length = next_len;
                true
            },
            None => false,
        };
        self.next_session_length = None;
        if len_changed || !is_final_block {
            self.last_length_change = Some(block_number);
        }
        let mut authorities: Vec<u64> = Vec::new();
        let mut i: usize = 0;
        while i < self.validators.len()
            invariant
                self.wf(),
                i <= self@.validators.len(),
                self@.validators == old(self)@.validators,
                self@.next_keys == old(self)@.next_keys,
                authorities@ == authority_keys::<C>(old(self)@).subrange(0, i as int),
            decreases self@.validators.len() - i,
        {
            let key = self.resolve_key::<C>(self.validators[i]);
            proof {
                assert(session_key::<C>(self@, self@.validators[i as int]) == session_key::<C>(old(self)@, old(self)@.validators[i as int]));
            }
            authorities.push(key);
            proof {
                assert(authority_keys::<C>(old(self)@).subrange(0, i + 1) =~= authority_keys::<C>(old(self)@).subrange(0, i as int).push(key));
            }
            i = i + 1;
        }
        proof {
            assert(authority_keys::<C>(old(self)@).subrange(0, i as int) =~= authority_keys::<C>(old(self)@));
            assert(self@ =~= rotated(old(self)@, is_final_block, block_number, now));
        }
        SessionChange { session_index, time_elapsed, apply_rewards, authorities }
    }

    /// The end-of-block check at block `block_number`, time `now`: rotate
    /// when a new session is forced (consuming the request) or when the
    /// block ends a session on the natural schedule.
    pub fn check_rotate_session<C: ConvertAccountIdToSessionKey>(&mut self, block_number: u64, now: u64) -> (r: Option<SessionChange>)
        requires
            old(self).wf(),
            anchor(old(self)@) <= block_number,
            old(self)@.current_index < u64::MAX,
            old(self)@.current_start <= now,
        ensures
            final(self).wf(),
            final(self)@ == checked(old(self)@, block_number, now),
            r is Some <==> rotation_decision(old(self)@, block_number).0,
            r matches Some(c) ==> {
                &&& c.session_index == old(self)@.current_index + 1
                &&& c.time_elapsed == now - old(self)@.current_start
                &&& c.apply_rewards == rotation_decision(old(self)@, block_number).1
                &&& c.authorities@ == authority_keys::<C>(old(self)@)
            },
    {
        let is_final_block = (block_number - self.last_length_change()) % self.session_length == 0;
        let forced = self.forcing_new_session;
        self.forcing_new_session = None;
        let (should_end_session, apply_rewards) = match forced {
            Some(apply_rewards) => (true, apply_rewards),
            None => (is_final_block, is_final_block),
        };
        if should_end_session {
            let ghost cleared = self@;
            let change = self.rotate_session::<C>(is_final_block, apply_rewards, block_number, now);
            proof {
                assert(authority_keys::<C>(cleared) =~= authority_keys::<C>(old(self)@));
            }
            Some(change)
        } else {
            None
        }
    }

    /// Hook run at the end of each block.
    pub fn on_finalize<C: ConvertAccountIdToSessionKey>(&mut self, block_number: u64, now: u64) -> (r: Option<SessionChange>)
        requires
            old(self).wf(),
            anchor(old(self)@) <= block_number,
            old(self)@.current_index < u64::MAX,
            old(self)@.current_start <= now,
        ensures
            final(self).wf(),
            final(self)@ == checked(old(self)@, block_number, now),
            r is Some <==> rotation_decision(old(self)@, block_number).0,
            r matches Some(c) ==> {
                &&& c.session_index == old(self)@.current_index + 1
                &&& c.time_elapsed == now - old(self)@.current_start
                &&& c.apply_rewards == rotation_decision(old(self)@, block_number).1
                &&& c.authorities@ == authority_keys::<C>(old(self)@)
            },
    {
        self.check_rotate_session::<C>(block_number, now)
    }

    /// The time that a session should take if every block came at the
    /// minimum period.
    pub fn ideal_session_duration(&self, minimum_period: u64) -> (r: u64)
        requires
            minimum_period * self@.length <= u64::MAX,
        ensures
            r == minimum_period * self@.length,
    {
        minimum_period * self.session_length
    }

    /// Number of blocks remaining in this session at block `block_number`,
    /// not counting that block: 0 when the session rotates at its end,
    /// `length - 1` when the session just began.
    pub fn blocks_remaining(&self, block_number: u64) -> (r: u64)
        requires
            self.wf(),
            anchor(self@) <= block_number,
        ensures
            r == remaining(self@.length, anchor(self@), block_number),
    {
        let length = self.session_length;
        let d = (block_number - self.last_length_change()) % length;
        proof {
            lemma_remaining(length, anchor(self@), block_number);
        }
        if d == 0 {
            0
        } else {
            length - d
        }
    }
}

/// `remaining` is 0 where the distance from the anchor is a multiple of the
/// length, and the length minus that distance's remainder elsewhere.
proof fn lemma_remaining(length: u64, anchor: u64, block: u64)
    requires
        length > 0,
        anchor <= block,
    ensures
        remaining(length, anchor, block) == if (block - anchor) % (length as int) == 0 {
            0
        } else {
            length - (block - anchor) % (length as int)
        },
{
    let l = length as int;
    let x = block - anchor;
    let d = x % l;
    assert((x + l - 1) % l == (d + l - 1) % l) by {
        vstd::arithmetic::div_mod::lemma_add_mod_noop(x, l - 1, l);
        vstd::arithmetic::div_mod::lemma_mod_twice(x, l);
        vstd::arithmetic::div_mod::lemma_small_mod((l - 1) as nat, l as nat);
        vstd::arithmetic::div_mod::lemma_add_mod_noop(d, l - 1, l);
    }
    if d == 0 {
        vstd::arithmetic::div_mod::lemma_small_mod((l - 1) as nat, l as nat);
    } else {
        assert(0 <= d - 1 < l);
        vstd::arithmetic::div_mod::lemma_mod_add_multiples_vanish(d - 1, l);
        vstd::arithmetic::div_mod::lemma_small_mod((d - 1) as nat, l as nat);
    }
}

/// At the last block of a session no blocks remain; at the first block of a
/// session `length - 1` remain.
pub proof fn lemma_blocks_remaining_at_session_bounds(length: u64, anchor: u64, block: u64)
    requires
        length > 0,
        anchor <= block,
    ensures
        (block - anchor) % (length as int) == 0 ==> remaining(length, anchor, block) == 0,
        (block - anchor) % (length as int) == 1int % (length as int) ==> remaining(length, anchor, block) == length - 1,
{
    lemma_remaining(length, anchor, block);
    if length == 1 {
        assert(1int % 1int == 0);
    } else {
        vstd::arithmetic::div_mod::lemma_small_mod(1, length as nat);
    }
}

/// A forced rotation off the natural boundary makes its own block the new
/// anchor: from then on a session ends where the distance from that block is
/// a multiple of the (possibly new) length.
pub proof fn lemma_forced_rotation_realigns(s: SessionState, block: u64, now: u64, later: u64)
    requires
        valid_state(s),
        s.forcing is Some,
        anchor(s) <= block,
        !is_final_block(s, block),
        block <= later,
    ensures
        checked(s, block, now).last_length_change == Some(block),
        checked(s, block, now).forcing is None,
        is_final_block(checked(s, block, now), later) <==> (later - block) % (checked(s, block, now).length as int) == 0,
{
}

/// A length scheduled with `set_length` does not change whether the current
/// block ends the session, nor the length of the session under way; the next
/// rotation enacts it and realigns the schedule on its own block.
pub proof fn lemma_length_change_waits_for_rotation(s: SessionState, new_length: u64, block: u64, now: u64)
    requires
        valid_state(s),
        new_length > 0,
        anchor(s) <= block,
    ensures
        ({
            let t = SessionState { next_length: Some(new_length), ..s };
            let u = checked(t, block, now);
            &&& rotation_decision(t, block) == rotation_decision(s, block)
            &&& !rotation_decision(t, block).0 ==> u.length == s.length && u.next_length == Some(new_length)
            &&& rotation_decision(t, block).0 ==> u.length == new_length && u.next_length is None
                && u.last_length_change == Some(block)
        }),
{
}

/// A key that a validator registers is its authority key at the next
/// rotation; once the account is reaped the rotation falls back to the
/// derived key, or to zero.
pub proof fn lemma_registered_key_used_at_rotation<C: ConvertAccountIdToSessionKey>(
    s: SessionState,
    who: u64,
    key: u64,
    i: int,
)
    requires
        0 <= i < s.validators.len(),
        s.validators[i] == who,
    ensures
        ({
            let slot = map_slot(NextKeyFor::spec_prefix(), who);
            let registered = SessionState { next_keys: s.next_keys.insert(slot, <u64 as Codec>::spec_encode(key)), ..s };
            let reaped = SessionState { next_keys: registered.next_keys.remove(slot), ..registered };
            &&& authority_keys::<C>(registered)[i] == key
            &&& authority_keys::<C>(reaped)[i] == match C::spec_convert(who) {
                Some(k) => k,
                None => 0,
            }
        }),
{
    <u64 as Codec>::lemma_round_trip(key);
}

} // verus!
