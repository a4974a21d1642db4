use truce::events::{
    Event, EventBody, EventList, PushError, TransportInfo, EVENT_LIST_PREALLOC, SYSEX_POOL_PREALLOC,
};

fn note(sample_offset: u32, note: u8) -> Event {
    Event::new(sample_offset, EventBody::NoteOn { group: 0, channel: 0, note, velocity: 1 })
}

fn notes(list: &EventList) -> Vec<(u32, u8)> {
    list.iter()
        .iter()
        .map(|e| match e.body {
            EventBody::NoteOn { note, .. } => (e.sample_offset, note),
            _ => panic!("no note"),
        })
        .collect()
}

#[test]
fn sorting_keeps_events_at_the_same_sample_in_order() {
    let mut list = EventList::with_capacity(EVENT_LIST_PREALLOC);
    list.push(note(5, 1));
    list.push(note(1, 2));
    list.push(note(5, 3));
    list.push(note(1, 4));
    list.sort();
    assert_eq!(notes(&list), vec![(1, 2), (1, 4), (5, 1), (5, 3)]);
}

#[test]
fn payloads_read_back_as_they_were_pushed() {
    let mut list = EventList::with_capacity(4);
    assert!(list.is_empty());
    list.push_sysex(3, &[1, 2, 3]).unwrap();
    list.push_sysex_on_port(4, 2, &[9]).unwrap();
    assert_eq!(list.len(), 2);
    assert_eq!(list.sysex_bytes(&list.get(0).unwrap().body), &[1, 2, 3]);
    assert_eq!(list.sysex_bytes(&list.get(1).unwrap().body), &[9]);
    assert_eq!(list.get(1).unwrap().port, 2);
    assert_eq!(list.sysex_bytes(&note(0, 1).body), &[] as &[u8]);
    assert!(list.get(2).is_none());
    list.clear();
    assert!(list.is_empty());
}

#[test]
fn a_full_pool_refuses_a_payload_whole() {
    let mut list = EventList::with_capacity(4);
    let big = vec![7u8; SYSEX_POOL_PREALLOC];
    list.push_sysex(0, &big).unwrap();
    assert_eq!(list.push_sysex(1, &[1]), Err(PushError::PoolFull));
    assert_eq!(list.len(), 1);
    list.clear();
    assert_eq!(list.push_sysex(1, &[1]), Ok(()));
}

#[test]
fn transports_that_are_made_up() {
    let stopped = TransportInfo::default();
    assert!(!stopped.playing && !stopped.recording);
    assert_eq!(stopped.tempo, 0.0f64.to_bits());
    let shot = TransportInfo::for_screenshot();
    assert!(shot.playing);
    assert_eq!(f64::from_bits(shot.tempo), 120.0);
    assert_eq!((shot.time_sig_num, shot.time_sig_den), (4, 4));
    assert_eq!(f64::from_bits(shot.position_beats), 4.0);
}
