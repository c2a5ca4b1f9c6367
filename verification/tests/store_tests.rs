use qsl_server::AppState;
use qsl_server::Limits;
use qsl_server::PushError;

fn store(max_body_bytes: usize, max_queue_depth: usize) -> AppState {
    AppState::new(Limits { max_body_bytes, max_queue_depth })
}

#[test]
fn push_then_pull_roundtrip() {
    let mut st = store(1024 * 1024, 8);
    let channel = "test".to_string();
    let payload = b"opaque-bytes".to_vec();
    let id = st.push(&channel, payload.clone()).expect("push accepted");
    let msg = st.pull(&channel).expect("message resident");
    assert_eq!(msg.payload, payload);
    assert_eq!(msg.id, id);
    assert!(st.pull(&channel).is_none());
}

#[test]
fn pull_empty_returns_204() {
    let mut st = store(1024 * 1024, 8);
    let channel = "empty".to_string();
    assert!(st.pull(&channel).is_none());
}

#[test]
fn oversize_returns_413() {
    let mut st = store(4, 8);
    let channel = "oversize".to_string();
    let err = st.push(&channel, vec![0u8; 5]).expect_err("payload over the limit");
    assert_eq!(err, PushError::TooLarge);
    assert_eq!(err.status_code(), 413);
    assert_eq!(err.body_text(), "ERR_TOO_LARGE");
    assert!(st.pull(&channel).is_none());
}

#[test]
fn queue_full_returns_429() {
    let mut st = store(1024 * 1024, 1);
    let channel = "qfull".to_string();
    st.push(&channel, b"a".to_vec()).expect("first push accepted");
    let err = st.push(&channel, b"b".to_vec()).expect_err("queue already full");
    assert_eq!(err, PushError::QueueFull);
    assert_eq!(err.status_code(), 429);
    assert_eq!(err.body_text(), "ERR_QUEUE_FULL");
    let msg = st.pull(&channel).expect("first payload still resident");
    assert_eq!(msg.payload, b"a".to_vec());
    assert!(st.pull(&channel).is_none());
}

#[test]
fn empty_body_rejected() {
    let mut st = store(1024, 8);
    let channel = "blank".to_string();
    let err = st.push(&channel, Vec::new()).expect_err("empty payload rejected");
    assert_eq!(err, PushError::EmptyBody);
    assert_eq!(err.status_code(), 400);
    assert_eq!(err.body_text(), "ERR_EMPTY_BODY");
    assert!(st.pull(&channel).is_none());
}

#[test]
fn fifo_order_preserved() {
    let mut st = store(1024, 8);
    let channel = "fifo".to_string();
    let payloads = [b"one".to_vec(), b"two".to_vec(), b"three".to_vec()];
    for p in &payloads {
        st.push(&channel, p.clone()).expect("push accepted");
    }
    for p in &payloads {
        let msg = st.pull(&channel).expect("message resident");
        assert_eq!(&msg.payload, p);
    }
    assert!(st.pull(&channel).is_none());
}

#[test]
fn pulled_ids_are_distinct() {
    let mut st = store(1024, 16);
    let channel = "ids".to_string();
    for _ in 0..5 {
        st.push(&channel, b"x".to_vec()).expect("push accepted");
    }
    let mut ids: Vec<String> = Vec::new();
    while let Some(msg) = st.pull(&channel) {
        ids.push(msg.id);
    }
    assert_eq!(ids.len(), 5);
    for i in 0..ids.len() {
        for j in 0..i {
            assert_ne!(ids[i], ids[j]);
        }
    }
}

#[test]
fn capacity_frees_up_after_pull() {
    let mut st = store(1024, 2);
    let channel = "cap".to_string();
    st.push(&channel, b"a".to_vec()).expect("push accepted");
    st.push(&channel, b"b".to_vec()).expect("push accepted");
    let err = st.push(&channel, b"c".to_vec()).expect_err("at capacity");
    assert_eq!(err, PushError::QueueFull);
    assert_eq!(st.pull(&channel).expect("head resident").payload, b"a".to_vec());
    st.push(&channel, b"d".to_vec()).expect("room again after a pull");
    assert_eq!(st.pull(&channel).expect("head resident").payload, b"b".to_vec());
    assert_eq!(st.pull(&channel).expect("head resident").payload, b"d".to_vec());
    assert!(st.pull(&channel).is_none());
}

#[test]
fn empty_pull_is_idempotent() {
    let mut st = store(1024, 4);
    let never = "never-pushed".to_string();
    for _ in 0..3 {
        assert!(st.pull(&never).is_none());
    }
    let drained = "drained".to_string();
    st.push(&drained, b"only".to_vec()).expect("push accepted");
    assert!(st.pull(&drained).is_some());
    for _ in 0..3 {
        assert!(st.pull(&drained).is_none());
    }
}

#[test]
fn message_id_is_hyphenated_uuid_text() {
    let mut st = store(1024, 4);
    let channel = "idlen".to_string();
    let id = st.push(&channel, b"payload".to_vec()).expect("push accepted");
    assert_eq!(id.len(), 36);
    assert!(id.is_ascii());
    assert_eq!(id.matches('-').count(), 4);
}

#[test]
fn channels_are_independent() {
    let mut st = store(1024, 4);
    let left = "left".to_string();
    let right = "right".to_string();
    st.push(&left, b"l1".to_vec()).expect("push accepted");
    st.push(&right, b"r1".to_vec()).expect("push accepted");
    st.push(&left, b"l2".to_vec()).expect("push accepted");
    assert_eq!(st.pull(&right).expect("resident").payload, b"r1".to_vec());
    assert!(st.pull(&right).is_none());
    assert_eq!(st.pull(&left).expect("resident").payload, b"l1".to_vec());
    assert_eq!(st.pull(&left).expect("resident").payload, b"l2".to_vec());
    assert!(st.pull(&left).is_none());
}

#[test]
fn boundary_sizes_admitted() {
    let mut st = store(4, 8);
    let channel = "edge".to_string();
    st.push(&channel, vec![9u8; 4]).expect("payload at the limit accepted");
    st.push(&channel, vec![9u8; 1]).expect("one-byte payload accepted");
    assert_eq!(st.pull(&channel).expect("resident").payload, vec![9u8; 4]);
    assert_eq!(st.pull(&channel).expect("resident").payload, vec![9u8; 1]);
}
