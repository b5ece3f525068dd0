use backend::state::{Store, StoreError};
use backend::user::User;

fn sample_user(id: &str) -> User {
    let mut emotion: Vec<i64> = vec![0; 21];
    emotion[1] = 3;
    emotion[4] = 9;
    let spiral: Vec<i64> = vec![1, 2, 3, 4, 5, 6, 7, 8];
    User::new(
        id.to_string(),
        format!("{}@nomodia.com", id),
        "Nomodiac".to_string(),
        "@nomodiac".to_string(),
        "@nomodiac".to_string(),
        "@nomodiac".to_string(),
        emotion,
        spiral,
    )
}

#[test]
fn operations_before_startup_fail_fast() {
    let mut store = Store::new();
    assert_eq!(store.get_counter(), Err(StoreError::StateNotReady));
    assert_eq!(store.increment_counter(), Err(StoreError::StateNotReady));
    assert_eq!(store.set_counter(7), Err(StoreError::StateNotReady));
    assert_eq!(
        store.serialize_for_shutdown(),
        Err(StoreError::StateNotReady)
    );
}

#[test]
fn counter_counts_increments() {
    let mut store = Store::new();
    store.startup();
    assert_eq!(store.get_counter(), Ok(0));
    let n = 5;
    for _ in 0..n {
        assert_eq!(store.increment_counter(), Ok(()));
    }
    assert_eq!(store.get_counter(), Ok(n));
}

#[test]
fn counter_overflow_is_reported_and_leaves_maximum() {
    let mut store = Store::new();
    store.startup();
    assert_eq!(store.set_counter(u32::MAX), Ok(()));
    assert_eq!(store.increment_counter(), Err(StoreError::Overflow));
    assert_eq!(store.get_counter(), Ok(u32::MAX));
}

#[test]
fn set_counter_overwrites() {
    let mut store = Store::new();
    store.startup();
    assert_eq!(store.set_counter(41), Ok(()));
    assert_eq!(store.increment_counter(), Ok(()));
    assert_eq!(store.get_counter(), Ok(42));
}

#[test]
fn add_user_rejects_duplicate_id() {
    let mut store = Store::new();
    store.startup();
    assert_eq!(store.add_user(sample_user("user_123")), Ok(true));
    assert_eq!(store.add_user(sample_user("user_456")), Ok(true));
    assert_eq!(store.add_user(sample_user("user_123")), Ok(false));
    let found = store.get_user(&"user_456".to_string()).unwrap();
    assert_eq!(found.unwrap().id, "user_456");
    let missing = store.get_user(&"user_789".to_string()).unwrap();
    assert!(missing.is_none());
}

#[test]
fn round_trip_preserves_every_field() {
    let mut store = Store::new();
    store.startup();
    assert_eq!(store.set_counter(1234), Ok(()));

    let mut u = sample_user("user_αβ1");
    u.update_emotion(vec![2; 21]);
    u.update_emotion(vec![-7; 21]);
    u.update_spiral(vec![0, 0, 1, 0, 0, 0, 0, 0]);
    let expected = u.clone();
    assert_eq!(store.add_user(u), Ok(true));
    assert_eq!(store.add_user(sample_user("user_2")), Ok(true));

    let blob = store.serialize_for_shutdown().unwrap();
    // The slot is absent after the take: no stale state can be read.
    assert_eq!(store.get_counter(), Err(StoreError::StateNotReady));

    let mut restored = Store::new();
    assert_eq!(restored.restore_from_blob(&blob), Ok(()));
    assert_eq!(restored.get_counter(), Ok(1234));

    let got = restored.get_user(&"user_αβ1".to_string()).unwrap().unwrap();
    assert_eq!(got.id, expected.id);
    assert_eq!(got.email, expected.email);
    assert_eq!(got.name, expected.name);
    assert_eq!(got.telegram, expected.telegram);
    assert_eq!(got.instegram, expected.instegram);
    assert_eq!(got.x_account, expected.x_account);
    assert_eq!(got.current_emotion, expected.current_emotion);
    assert_eq!(got.current_spiral, expected.current_spiral);
    assert_eq!(got.emotion_history, expected.emotion_history);
    assert_eq!(got.spiral_history, expected.spiral_history);
    assert_eq!(got.current_emotion_hybrid, expected.current_emotion_hybrid);
    assert_eq!(got.current_spiral_hybrid, expected.current_spiral_hybrid);

    let got2 = restored.get_user(&"user_2".to_string()).unwrap();
    assert!(got2.is_some());
}

#[test]
fn empty_state_round_trip() {
    let mut store = Store::new();
    store.startup();
    let blob = store.serialize_for_shutdown().unwrap();
    let mut restored = Store::new();
    assert_eq!(restored.restore_from_blob(&blob), Ok(()));
    assert_eq!(restored.get_counter(), Ok(0));
}

#[test]
fn empty_strings_are_legal() {
    let u = User::new(
        "".to_string(),
        "".to_string(),
        "".to_string(),
        "".to_string(),
        "".to_string(),
        "".to_string(),
        vec![0; 21],
        vec![0; 8],
    );
    assert_eq!(u.current_emotion_hybrid.num, 0);
    assert_eq!(u.current_emotion_hybrid.den, 0);

    let mut store = Store::new();
    store.startup();
    assert_eq!(store.add_user(u), Ok(true));
    let blob = store.serialize_for_shutdown().unwrap();
    let mut restored = Store::new();
    assert_eq!(restored.restore_from_blob(&blob), Ok(()));
    let got = restored.get_user(&"".to_string()).unwrap().unwrap();
    assert_eq!(got.email, "");
    assert_eq!(got.emotion_history.len(), 0);
}

#[test]
fn corrupt_blob_is_rejected_loudly() {
    let mut store = Store::new();

    // Not a multiple of the word size.
    assert_eq!(
        store.restore_from_blob(&vec![1, 2, 3]),
        Err(StoreError::CorruptState)
    );
    // A whole word, but a version tag that does not exist.
    assert_eq!(
        store.restore_from_blob(&vec![0; 8]),
        Err(StoreError::CorruptState)
    );
    // The failed restore did not fall back to a default state.
    assert_eq!(store.get_counter(), Err(StoreError::StateNotReady));
}

#[test]
fn truncated_blob_is_rejected() {
    let mut store = Store::new();
    store.startup();
    assert_eq!(store.set_counter(9), Ok(()));
    assert_eq!(store.add_user(sample_user("user_1")), Ok(true));
    let blob = store.serialize_for_shutdown().unwrap();

    let mut truncated = blob.clone();
    truncated.truncate(blob.len() - 8);
    let mut restored = Store::new();
    assert_eq!(
        restored.restore_from_blob(&truncated),
        Err(StoreError::CorruptState)
    );

    let mut padded = blob.clone();
    padded.extend_from_slice(&[0; 8]);
    assert_eq!(
        restored.restore_from_blob(&padded),
        Err(StoreError::CorruptState)
    );

    // The untampered blob still restores.
    assert_eq!(restored.restore_from_blob(&blob), Ok(()));
    assert_eq!(restored.get_counter(), Ok(9));
}

#[test]
fn duplicate_ids_in_blob_are_corrupt() {
    // Two records under one id cannot come from this store; a blob that
    // claims them is rejected rather than decoded into an invalid state.
    let mut store = Store::new();
    store.startup();
    assert_eq!(store.add_user(sample_user("user_1")), Ok(true));
    let blob_one = store.serialize_for_shutdown().unwrap();

    // Splice the single user record in twice and fix up the user count.
    let words_start = 3 * 8;
    let user_bytes = blob_one[words_start..].to_vec();
    let mut forged = blob_one[..words_start].to_vec();
    forged.extend_from_slice(&user_bytes);
    forged.extend_from_slice(&user_bytes);
    forged[16] = 2;

    let mut restored = Store::new();
    assert_eq!(
        restored.restore_from_blob(&forged),
        Err(StoreError::CorruptState)
    );
}
