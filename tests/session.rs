use srml_session::session::{AccountAsSessionKey, GenesisConfig, Module, NoSessionKey, Origin};

/// A chain with session length 2 and validators 1, 2 and 3, whose authority
/// registry starts with the same accounts as keys.
struct TestExt {
    session: Module,
    authorities: Vec<u64>,
    next_validators: Vec<u64>,
    block_number: u64,
}

impl TestExt {
    fn new() -> TestExt {
        let validators = vec![1, 2, 3];
        let session = Module::new(GenesisConfig {
            session_length: 2,
            validators: validators.clone(),
            keys: vec![],
        })
        .unwrap();
        TestExt { session, authorities: validators.clone(), next_validators: validators, block_number: 0 }
    }

    fn set_block_number(&mut self, n: u64) {
        self.block_number = n;
    }

    fn blocks_remaining(&self) -> u64 {
        self.session.blocks_remaining(self.block_number)
    }

    /// The end-of-block check; the validator set for the next session is in
    /// place before it runs, and a rotation's keys go to the registry.
    fn check_rotate_session(&mut self, n: u64) {
        let next = self.next_validators.clone();
        self.session.set_validators(&next);
        if let Some(change) = self.session.check_rotate_session::<AccountAsSessionKey>(n, 0) {
            self.authorities = change.authorities;
        }
    }
}

#[test]
fn simple_setup_should_work() {
    let t = TestExt::new();
    assert_eq!(t.authorities, vec![1, 2, 3]);
    assert_eq!(t.session.length(), 2);
    assert_eq!(t.session.validators(), vec![1, 2, 3]);
}

#[test]
fn authorities_should_track_validators() {
    let mut t = TestExt::new();
    t.next_validators = vec![1, 2];
    assert!(t.session.force_new_session(false).is_ok());
    t.check_rotate_session(1);
    assert_eq!(t.session.validators(), vec![1, 2]);
    assert_eq!(t.authorities, vec![1, 2]);

    t.next_validators = vec![1, 2, 4];
    assert!(t.session.force_new_session(false).is_ok());
    t.check_rotate_session(2);
    assert_eq!(t.session.validators(), vec![1, 2, 4]);
    assert_eq!(t.authorities, vec![1, 2, 4]);

    t.next_validators = vec![1, 2, 3];
    assert!(t.session.force_new_session(false).is_ok());
    t.check_rotate_session(3);
    assert_eq!(t.session.validators(), vec![1, 2, 3]);
    assert_eq!(t.authorities, vec![1, 2, 3]);
}

#[test]
fn should_work_with_early_exit() {
    let mut t = TestExt::new();
    t.set_block_number(1);
    assert!(t.session.set_length(10).is_ok());
    assert_eq!(t.blocks_remaining(), 1);
    t.check_rotate_session(1);

    t.set_block_number(2);
    assert_eq!(t.blocks_remaining(), 0);
    t.check_rotate_session(2);
    assert_eq!(t.session.length(), 10);

    t.set_block_number(7);
    assert_eq!(t.session.current_index(), 1);
    assert_eq!(t.blocks_remaining(), 5);
    assert!(t.session.force_new_session(false).is_ok());
    t.check_rotate_session(7);

    t.set_block_number(8);
    assert_eq!(t.session.current_index(), 2);
    assert_eq!(t.blocks_remaining(), 9);
    t.check_rotate_session(8);

    t.set_block_number(17);
    assert_eq!(t.session.current_index(), 2);
    assert_eq!(t.blocks_remaining(), 0);
    t.check_rotate_session(17);

    t.set_block_number(18);
    assert_eq!(t.session.current_index(), 3);
}

#[test]
fn session_length_change_should_work() {
    let mut t = TestExt::new();
    // Block 1: Change to length 3; no visible change.
    t.set_block_number(1);
    assert!(t.session.set_length(3).is_ok());
    t.check_rotate_session(1);
    assert_eq!(t.session.length(), 2);
    assert_eq!(t.session.current_index(), 0);

    // Block 2: Length now changed to 3. Index incremented.
    t.set_block_number(2);
    assert!(t.session.set_length(3).is_ok());
    t.check_rotate_session(2);
    assert_eq!(t.session.length(), 3);
    assert_eq!(t.session.current_index(), 1);

    // Block 3: Length now changed to 3. Index incremented.
    t.set_block_number(3);
    t.check_rotate_session(3);
    assert_eq!(t.session.length(), 3);
    assert_eq!(t.session.current_index(), 1);

    // Block 4: Change to length 2; no visible change.
    t.set_block_number(4);
    assert!(t.session.set_length(2).is_ok());
    t.check_rotate_session(4);
    assert_eq!(t.session.length(), 3);
    assert_eq!(t.session.current_index(), 1);

    // Block 5: Length now changed to 2. Index incremented.
    t.set_block_number(5);
    t.check_rotate_session(5);
    assert_eq!(t.session.length(), 2);
    assert_eq!(t.session.current_index(), 2);

    // Block 6: No change.
    t.set_block_number(6);
    t.check_rotate_session(6);
    assert_eq!(t.session.length(), 2);
    assert_eq!(t.session.current_index(), 2);

    // Block 7: Next index.
    t.set_block_number(7);
    t.check_rotate_session(7);
    assert_eq!(t.session.length(), 2);
    assert_eq!(t.session.current_index(), 3);
}

#[test]
fn session_change_should_work() {
    let mut t = TestExt::new();
    // Block 1: No change
    t.set_block_number(1);
    t.check_rotate_session(1);
    assert_eq!(t.authorities, vec![1, 2, 3]);

    // Block 2: Session rollover, but no change.
    t.set_block_number(2);
    t.check_rotate_session(2);
    assert_eq!(t.authorities, vec![1, 2, 3]);

    // Block 3: Set new key for validator 2; no visible change.
    t.set_block_number(3);
    assert!(t.session.set_key(Origin::Signed(2), 5).is_ok());
    assert_eq!(t.authorities, vec![1, 2, 3]);

    t.check_rotate_session(3);
    assert_eq!(t.authorities, vec![1, 2, 3]);

    // Block 4: Session rollover, authority 2 changes.
    t.set_block_number(4);
    t.check_rotate_session(4);
    assert_eq!(t.authorities, vec![1, 5, 3]);
}

#[test]
fn natural_rotation_index_transitions() {
    let mut t = TestExt::new();
    t.check_rotate_session(1);
    assert_eq!(t.session.current_index(), 0);
    t.check_rotate_session(2);
    assert_eq!(t.session.current_index(), 1);
    t.check_rotate_session(3);
    assert_eq!(t.session.current_index(), 1);
    t.check_rotate_session(4);
    assert_eq!(t.session.current_index(), 2);
}

#[test]
fn forced_rotation_realigns_schedule() {
    let mut t = TestExt::new();
    assert_eq!(t.session.last_length_change(), 0);
    assert!(t.session.force_new_session(true).is_ok());
    assert_eq!(t.session.forcing_new_session(), Some(true));
    let change = t.session.check_rotate_session::<AccountAsSessionKey>(1, 0).unwrap();
    assert!(change.apply_rewards);
    assert_eq!(change.session_index, 1);
    assert_eq!(t.session.forcing_new_session(), None);
    assert_eq!(t.session.last_length_change(), 1);
    // The boundary moved from block 2 to block 3.
    assert!(t.session.check_rotate_session::<AccountAsSessionKey>(2, 0).is_none());
    assert_eq!(t.session.current_index(), 1);
    assert!(t.session.check_rotate_session::<AccountAsSessionKey>(3, 0).is_some());
    assert_eq!(t.session.current_index(), 2);
}

#[test]
fn forced_rotation_can_be_slashable() {
    let mut t = TestExt::new();
    assert!(t.session.apply_force_new_session(false).is_ok());
    let change = t.session.check_rotate_session::<AccountAsSessionKey>(1, 0).unwrap();
    assert!(!change.apply_rewards);
}

#[test]
fn natural_rotation_is_rewardable() {
    let mut t = TestExt::new();
    let change = t.session.check_rotate_session::<AccountAsSessionKey>(2, 0).unwrap();
    assert!(change.apply_rewards);
    // A forced rotation on the natural boundary keeps the anchor.
    assert!(t.session.force_new_session(false).is_ok());
    assert!(t.session.check_rotate_session::<AccountAsSessionKey>(4, 0).is_some());
    assert_eq!(t.session.last_length_change(), 0);
}

#[test]
fn blocks_remaining_at_boundaries() {
    let t = TestExt::new();
    // Length 2, anchor 0: block 1 starts a session, block 2 ends it.
    assert_eq!(t.session.blocks_remaining(1), 1);
    assert_eq!(t.session.blocks_remaining(2), 0);
    assert_eq!(t.session.blocks_remaining(0), 0);
    let mut long = Module::new(GenesisConfig { session_length: 5, validators: vec![1], keys: vec![] }).unwrap();
    assert_eq!(long.blocks_remaining(1), 4);
    assert_eq!(long.blocks_remaining(3), 2);
    assert_eq!(long.blocks_remaining(5), 0);
    assert!(long.check_rotate_session::<AccountAsSessionKey>(5, 0).is_some());
    assert_eq!(long.blocks_remaining(6), 4);
}

#[test]
fn registered_key_then_reaped_falls_back() {
    let mut t = TestExt::new();
    assert!(t.session.set_key(Origin::Signed(2), 9).is_ok());
    assert_eq!(t.session.next_key_for(2), Some(9));
    t.session.on_free_balance_zero(2);
    assert_eq!(t.session.next_key_for(2), None);
    t.check_rotate_session(2);
    assert_eq!(t.authorities, vec![1, 2, 3]);
}

#[test]
fn registered_key_with_no_conversion() {
    let mut session = Module::new(GenesisConfig { session_length: 1, validators: vec![7, 8], keys: vec![(8, 80)] }).unwrap();
    assert_eq!(session.next_key_for(8), Some(80));
    let change = session.check_rotate_session::<NoSessionKey>(1, 0).unwrap();
    assert_eq!(change.authorities, vec![0, 80]);
}

#[test]
fn unsigned_set_key_is_rejected() {
    let mut t = TestExt::new();
    assert!(t.session.set_key(Origin::Unsigned, 5).is_err());
    assert!(t.session.set_key(Origin::Root, 5).is_err());
    assert_eq!(t.session.next_key_for(0), None);
}

#[test]
fn zero_length_is_rejected() {
    let mut t = TestExt::new();
    assert!(t.session.set_length(0).is_err());
    assert!(Module::new(GenesisConfig { session_length: 0, validators: vec![], keys: vec![] }).is_none());
    t.check_rotate_session(2);
    assert_eq!(t.session.length(), 2);
}

#[test]
fn rotation_reports_elapsed_time_and_index() {
    let mut t = TestExt::new();
    let first = t.session.check_rotate_session::<AccountAsSessionKey>(2, 30).unwrap();
    assert_eq!(first.time_elapsed, 30);
    assert_eq!(t.session.current_start(), 30);
    let second = t.session.on_finalize::<AccountAsSessionKey>(4, 45).unwrap();
    assert_eq!(second.time_elapsed, 15);
    assert_eq!(second.session_index, 2);
}

#[test]
fn ideal_duration_and_count() {
    let t = TestExt::new();
    assert_eq!(t.session.ideal_session_duration(5), 10);
    assert_eq!(t.session.validator_count(), 3);
}
