use truce::snapshot::SnapshotSlot;

#[test]
fn read_is_none_until_first_publish() {
    let mut slot = SnapshotSlot::new();
    assert!(slot.read().is_none());
    slot.publish(|buf: &mut Vec<u8>| {
        buf.clear();
        buf.extend_from_slice(&[1, 2, 3]);
        true
    });
    assert_eq!(slot.read(), Some(vec![1, 2, 3]));
}

#[test]
fn unsupported_publish_never_marks_supported() {
    let mut slot = SnapshotSlot::new();
    slot.publish(|_: &mut Vec<u8>| false);
    assert!(slot.read().is_none());
}

#[test]
fn is_supported_latches_on_first_true_publish() {
    let mut slot = SnapshotSlot::new();
    assert!(!slot.is_supported());
    slot.publish(|_: &mut Vec<u8>| false);
    assert!(!slot.is_supported());
    slot.publish(|buf: &mut Vec<u8>| {
        buf.clear();
        buf.push(1);
        true
    });
    assert!(slot.is_supported());
    slot.publish(|buf: &mut Vec<u8>| {
        buf.clear();
        true
    });
    assert!(slot.is_supported());
    assert_eq!(slot.read(), Some(vec![]));
}

#[test]
fn publish_overwrites_and_reuses_capacity() {
    let mut slot = SnapshotSlot::new();
    slot.publish(|buf: &mut Vec<u8>| {
        buf.clear();
        buf.extend_from_slice(&[9; 64]);
        true
    });
    slot.publish(|buf: &mut Vec<u8>| {
        buf.clear();
        buf.extend_from_slice(&[7, 7]);
        true
    });
    assert_eq!(slot.read(), Some(vec![7, 7]));
}

#[test]
fn a_contended_publish_is_skipped() {
    let mut slot = SnapshotSlot::new();
    slot.try_publish(true, |buf: &mut Vec<u8>| {
        buf.push(4);
        true
    });
    assert_eq!(slot.read(), Some(vec![4]));
    slot.try_publish(false, |_: &mut Vec<u8>| panic!("nobody writes to a slot that is held"));
    assert_eq!(slot.read(), Some(vec![4]));
    let mut unused = SnapshotSlot::new();
    unused.try_publish(false, |buf: &mut Vec<u8>| {
        buf.push(9);
        true
    });
    assert!(!unused.is_supported());
    assert!(unused.bytes.is_empty());
}

#[test]
fn a_slot_is_supported_once_a_publish_wrote() {
    let mut slot = SnapshotSlot::new();
    let mut written = false;
    for (free, wrote, byte) in
        [(true, false, 1), (false, true, 2), (true, true, 3), (false, false, 4), (true, false, 5)]
    {
        slot.try_publish(free, |buf: &mut Vec<u8>| {
            buf.clear();
            buf.push(byte);
            wrote
        });
        written = written || (free && wrote);
        assert_eq!(slot.is_supported(), written);
        assert_eq!(slot.read().is_some(), written);
    }
    assert_eq!(slot.read(), Some(vec![5]));
}
