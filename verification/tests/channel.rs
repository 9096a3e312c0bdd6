use redis_lite::server::{ServerMetadata, BROADCAST_SLOTS};
use std::sync::Arc;
use tokio::sync::broadcast::error::TryRecvError;

#[test]
fn record_starts_with_a_channel_without_subscribers() {
    let record = ServerMetadata::new("127.0.0.1", 6379, &None);
    assert_eq!(record.broadcast.receiver_count(), 0);
    assert!(record.broadcast.send(Arc::new(b"lost".to_vec())).is_err());
}

#[test]
fn subscribers_receive_what_is_published_after_they_subscribed_in_order() {
    let record = ServerMetadata::new("127.0.0.1", 6379, &None);
    let mut early = record.broadcast.subscribe();
    record.broadcast.send(Arc::new(b"first".to_vec())).unwrap();
    let mut late = record.broadcast.subscribe();
    record.broadcast.send(Arc::new(b"second".to_vec())).unwrap();
    record.broadcast.send(Arc::new(b"third".to_vec())).unwrap();
    assert_eq!(*early.try_recv().unwrap(), b"first".to_vec());
    assert_eq!(*early.try_recv().unwrap(), b"second".to_vec());
    assert_eq!(*early.try_recv().unwrap(), b"third".to_vec());
    assert!(matches!(early.try_recv(), Err(TryRecvError::Empty)));
    assert_eq!(*late.try_recv().unwrap(), b"second".to_vec());
    assert_eq!(*late.try_recv().unwrap(), b"third".to_vec());
    assert!(matches!(late.try_recv(), Err(TryRecvError::Empty)));
}

#[test]
fn subscriber_that_falls_behind_by_more_than_the_slots_is_told_so() {
    assert_eq!(BROADCAST_SLOTS, 16);
    let record = ServerMetadata::new("127.0.0.1", 6379, &None);
    let mut slow = record.broadcast.subscribe();
    for i in 0..16u8 {
        record.broadcast.send(Arc::new(vec![i])).unwrap();
    }
    assert_eq!(*slow.try_recv().unwrap(), vec![0u8]);
    for i in 16..33u8 {
        record.broadcast.send(Arc::new(vec![i])).unwrap();
    }
    assert!(matches!(slow.try_recv(), Err(TryRecvError::Lagged(16))));
    assert_eq!(*slow.try_recv().unwrap(), vec![17u8]);
}

#[test]
fn subscriber_that_is_behind_by_no_more_than_the_slots_misses_nothing() {
    let record = ServerMetadata::new("127.0.0.1", 6379, &None);
    let mut slow = record.broadcast.subscribe();
    for i in 0..16u8 {
        record.broadcast.send(Arc::new(vec![i])).unwrap();
    }
    for i in 0..16u8 {
        assert_eq!(*slow.try_recv().unwrap(), vec![i]);
    }
    assert!(matches!(slow.try_recv(), Err(TryRecvError::Empty)));
}
