use truce::chunked_process::{
    find_next_split, process_chunked, rebase_events_into, rebase_output_events,
};
use truce::events::{Event, EventBody, EventList, TransportInfo, EVENT_LIST_PREALLOC};
use truce::params::{ParamFlags, ParamInfo, ParamRange};
use truce::process::{sync_params, PluginRuntime, ProcessStatus};
use truce::state::StateLoadError;

fn info(id: u32, chunked: bool) -> ParamInfo {
    ParamInfo {
        id,
        name: "p",
        short_name: "p",
        group: "",
        unit: "",
        range: ParamRange::Linear,
        min: 0,
        max: 1.0f64.to_bits(),
        default_plain: 0,
        step_count: 0,
        flags: ParamFlags {
            automatable: true,
            hidden: false,
            readonly: false,
            is_bypass: false,
            chunked,
        },
        midi_map: None,
        midi_channel: None,
    }
}

fn change(sample_offset: u32, id: u32, value: f64) -> Event {
    Event::new(sample_offset, EventBody::ParamChange { id, value: value.to_bits() })
}

#[test]
fn split_only_on_chunked_params() {
    let infos = vec![info(0, true), info(1, false)];
    let mut events = EventList::with_capacity(EVENT_LIST_PREALLOC);
    events.push(change(100, 1, 0.5));
    events.push(change(200, 0, 0.5));
    assert_eq!(find_next_split(&events, &infos, 0, 0), Some((200, 1)));
}

#[test]
fn min_offset_skips_close_events() {
    let infos = vec![info(0, true)];
    let mut events = EventList::with_capacity(EVENT_LIST_PREALLOC);
    events.push(change(5, 0, 0.5));
    events.push(change(50, 0, 0.6));
    assert_eq!(find_next_split(&events, &infos, 0, 32), Some((50, 1)));
}

#[test]
fn poly_mod_never_splits() {
    let infos = vec![info(0, true)];
    let mut events = EventList::with_capacity(EVENT_LIST_PREALLOC);
    events.push(Event::new(
        100,
        EventBody::ParamMod { id: 0, note_id: 7, value: 0.1f64.to_bits() },
    ));
    assert_eq!(find_next_split(&events, &infos, 0, 0), None);
}

#[test]
fn rebase_drops_out_of_window() {
    let mut events = EventList::with_capacity(EVENT_LIST_PREALLOC);
    events.push(change(10, 0, 0.1));
    events.push(change(50, 0, 0.2));
    events.push(change(90, 0, 0.3));
    let mut scratch = EventList::with_capacity(EVENT_LIST_PREALLOC);
    rebase_events_into(&events, &mut scratch, 40, 80);
    let collected: Vec<u32> = scratch.iter().iter().map(|e| e.sample_offset).collect();
    assert_eq!(collected, vec![10]);
}

#[test]
fn transport_always_splits() {
    let infos: Vec<ParamInfo> = vec![];
    let mut events = EventList::with_capacity(EVENT_LIST_PREALLOC);
    events.push(Event::new(100, EventBody::Transport(TransportInfo::default())));
    assert_eq!(find_next_split(&events, &infos, 0, 0), Some((100, 0)));
}

#[test]
fn rebase_copies_sysex_payload_into_scratch() {
    let mut events = EventList::with_capacity(EVENT_LIST_PREALLOC);
    events.push_sysex(50, &[0x11, 0x22, 0x33, 0x44]).unwrap();
    let mut scratch = EventList::with_capacity(EVENT_LIST_PREALLOC);
    rebase_events_into(&events, &mut scratch, 40, 80);

    let ev = scratch.iter().iter().next().expect("sysex rebased into scratch");
    assert_eq!(ev.sample_offset, 10);
    assert_eq!(scratch.sysex_bytes(&ev.body), &[0x11, 0x22, 0x33, 0x44]);
}

#[test]
fn rebasing_forth_and_back_keeps_offsets() {
    let mut events = EventList::with_capacity(EVENT_LIST_PREALLOC);
    events.push(change(40, 0, 0.1));
    events.push(change(79, 0, 0.2));
    let mut scratch = EventList::with_capacity(EVENT_LIST_PREALLOC);
    rebase_events_into(&events, &mut scratch, 40, 80);
    rebase_output_events(&mut scratch, 0, 40);
    let offsets: Vec<u32> = scratch.iter().iter().map(|e| e.sample_offset).collect();
    assert_eq!(offsets, vec![40, 79]);
    // Events in front of the given index stay as they are.
    rebase_output_events(&mut scratch, 1, 5);
    assert_eq!(scratch.get(0).unwrap().sample_offset, 40);
    assert_eq!(scratch.get(1).unwrap().sample_offset, 84);
}

/// A plugin that writes down what is done to it.
#[derive(Default)]
struct Recorder {
    calls: Vec<String>,
    stretches: Vec<(usize, usize)>,
    heard: Vec<u32>,
}

impl PluginRuntime for Recorder {
    fn set_plain(&mut self, id: u32, value: u64) {
        self.calls.push(format!("set {id} {}", f64::from_bits(value)));
    }
    fn restore_values(&mut self, params: &Vec<(u32, u64)>) {
        self.calls.push(format!("restore {}", params.len()));
    }
    fn snap_smoothers(&mut self) {
        self.calls.push("snap".to_string());
    }
    fn load_state(&mut self, bytes: &Vec<u8>) -> Result<(), StateLoadError> {
        self.calls.push(format!("load {}", bytes.len()));
        Ok(())
    }
    fn process(
        &mut self,
        block_start: usize,
        num_samples: usize,
        events: &EventList,
        _transport: &TransportInfo,
        output_events: &mut EventList,
    ) -> ProcessStatus {
        self.calls.push(format!("process {block_start}+{num_samples}"));
        self.stretches.push((block_start, num_samples));
        for e in events.iter() {
            self.heard.push(block_start as u32 + e.sample_offset);
        }
        output_events.push(Event::new(1, EventBody::NoteOff { group: 0, channel: 0, note: 1, velocity: 0 }));
        ProcessStatus::Tail(num_samples as u32)
    }
    fn latency(&self) -> u32 {
        3
    }
    fn tail(&self) -> u32 {
        4
    }
}

#[test]
fn a_walk_covers_the_block_and_hands_over_every_event() {
    let infos = vec![info(0, true), info(1, false)];
    let mut events = EventList::with_capacity(EVENT_LIST_PREALLOC);
    events.push(change(0, 1, 0.25));
    events.push(change(100, 0, 0.5));
    events.push(change(110, 0, 0.75));
    events.push(change(300, 0, 1.0));
    let mut scratch = EventList::default();
    let mut out = EventList::default();
    let mut transport = TransportInfo::default();
    let mut plugin = Recorder::default();
    let status = process_chunked(
        &mut plugin, &events, &mut scratch, &mut transport, &mut out, &infos, 512, 32,
    );
    let mut at = 0;
    for (start, len) in &plugin.stretches {
        assert_eq!(*start, at);
        assert!(*len > 0);
        at += len;
    }
    assert_eq!(at, 512);
    assert!(plugin.stretches.len() > 1);
    // The change at 110 comes too soon after the split at 100.
    assert_eq!(plugin.stretches, [(0, 100), (100, 200), (300, 212)]);
    assert_eq!(plugin.heard, vec![0, 100, 110, 300]);
    let sets: Vec<&String> = plugin.calls.iter().filter(|c| c.starts_with("set")).collect();
    assert_eq!(sets, ["set 1 0.25", "set 0 0.5", "set 0 0.75", "set 0 1"]);
    // Output offsets count from the start of the block.
    let offsets: Vec<u32> = out.iter().iter().map(|e| e.sample_offset).collect();
    let expected: Vec<u32> = plugin.stretches.iter().map(|(s, _)| *s as u32 + 1).collect();
    assert_eq!(offsets, expected);
    let last = plugin.stretches.last().unwrap().1 as u32;
    assert_eq!(status, ProcessStatus::Tail(last));
}

#[test]
fn changes_are_read_in_order() {
    let mut events = EventList::with_capacity(4);
    events.push(change(0, 1, 0.25));
    events.push(Event::new(1, EventBody::Transport(TransportInfo::default())));
    events.push(change(2, 1, 0.5));
    assert_eq!(sync_params(&events), vec![(1, 0.25f64.to_bits()), (1, 0.5f64.to_bits())]);
}
