//! CLAP wrapper: host events in, plugin events out, and the process callback.
//!
//! Host structures arrive as plain values: a pointer that may be null is an
//! option, a fixed-point position or a velocity the number it was converted to.
use crate::chunked_process::{
    block_of, can_walk, lemma_sorting_keeps_walkable, process_chunked, start_of, walks, Progress,
};
use crate::events::{
    at_offset, payload, push_payload, stably_sorted, Event, EventBody, EventList, TransportInfo,
    EVENT_LIST_PREALLOC, TEMPO_120_BITS,
};
use crate::midi::{
    decode_short_message, decoded, law_bytes_name_their_message, law_encode_parse,
    law_short_message_is_a_stream, midi1_bytes, midi1_group, midi1_in_range, midi1_message, parsed,
    pitch_bend_to_bytes,
};
use crate::params::ParamInfo;
use crate::process::{PluginRuntime, ProcessStatus, RuntimeCall};
use crate::queue::{queue_capacity, queue_new, queue_pop, queue_push, queued, Item};
use crate::state::{
    apply_calls, apply_state, DeserializedState, StateLoadError, StateLoadQueue,
};
use crossbeam_queue::ArrayQueue;
use vstd::prelude::*;

verus! {

pub const CLAP_PROCESS_ERROR: i32 = 0;

pub const CLAP_PROCESS_CONTINUE: i32 = 1;

pub const CLAP_PROCESS_CONTINUE_IF_NOT_QUIET: i32 = 2;

pub const CLAP_PROCESS_TAIL: i32 = 3;

pub const CLAP_PROCESS_SLEEP: i32 = 4;

pub const CLAP_CORE_EVENT_SPACE_ID: u16 = 0;

pub const CLAP_EVENT_IS_LIVE: u32 = 1;

pub const CLAP_EVENT_NOTE_ON: u16 = 0;

pub const CLAP_EVENT_NOTE_OFF: u16 = 1;

pub const CLAP_EVENT_PARAM_VALUE: u16 = 5;

pub const CLAP_EVENT_PARAM_GESTURE_BEGIN: u16 = 7;

pub const CLAP_EVENT_PARAM_GESTURE_END: u16 = 8;

pub const CLAP_EVENT_MIDI: u16 = 10;

pub const CLAP_EVENT_MIDI_SYSEX: u16 = 11;

pub const CLAP_TRANSPORT_HAS_TEMPO: u32 = 1;

pub const CLAP_TRANSPORT_HAS_BEATS_TIMELINE: u32 = 2;

pub const CLAP_TRANSPORT_HAS_SECONDS_TIMELINE: u32 = 4;

pub const CLAP_TRANSPORT_HAS_TIME_SIGNATURE: u32 = 8;

pub const CLAP_TRANSPORT_IS_PLAYING: u32 = 16;

pub const CLAP_TRANSPORT_IS_RECORDING: u32 = 32;

pub const CLAP_TRANSPORT_IS_LOOP_ACTIVE: u32 = 64;

/// Addresses every note of a parameter event.
pub const ANY_NOTE: i32 = -1;

/// Addresses every port, channel or key of a parameter event.
pub const ANY: i16 = -1;

/// How many editor-made changes wait for the audio thread at most.
pub const GUI_QUEUE_CAPACITY: usize = 1024;

/// A host's transport. The positions are doubles, converted from fixed point.
#[derive(Clone, Copy, Debug, PartialEq, Eq)]
pub struct ClapTransport {
    pub flags: u32,
    pub tempo: u64,
    pub tsig_num: i16,
    pub tsig_denom: i16,
    pub song_pos_seconds: u64,
    pub song_pos_beats: u64,
    pub bar_start: u64,
    pub loop_start_beats: u64,
    pub loop_end_beats: u64,
}

/// A flag is set.
pub open spec fn has(flags: u32, flag: u32) -> bool {
    flags & flag != 0
}

/// The low eight bits of a number.
pub open spec fn low_byte(n: i16) -> u8 {
    n as u8
}

/// The transport that a host reports. A field whose flag is clear takes its
/// default: 120 BPM, 4/4, position zero.
pub open spec fn transport_of(t: ClapTransport) -> TransportInfo {
    let beats = has(t.flags, CLAP_TRANSPORT_HAS_BEATS_TIMELINE);
    let signature = has(t.flags, CLAP_TRANSPORT_HAS_TIME_SIGNATURE);
    TransportInfo {
        playing: has(t.flags, CLAP_TRANSPORT_IS_PLAYING),
        recording: has(t.flags, CLAP_TRANSPORT_IS_RECORDING),
        tempo: if has(t.flags, CLAP_TRANSPORT_HAS_TEMPO) {
            t.tempo
        } else {
            TEMPO_120_BITS
        },
        time_sig_num: if signature {
            low_byte(t.tsig_num)
        } else {
            4
        },
        time_sig_den: if signature {
            low_byte(t.tsig_denom)
        } else {
            4
        },
        position_samples: 0,
        position_seconds: if has(t.flags, CLAP_TRANSPORT_HAS_SECONDS_TIMELINE) {
            t.song_pos_seconds
        } else {
            0
        },
        position_beats: if beats {
            t.song_pos_beats
        } else {
            0
        },
        bar_start_beats: if beats {
            t.bar_start
        } else {
            0
        },
        loop_active: has(t.flags, CLAP_TRANSPORT_IS_LOOP_ACTIVE),
        loop_start_beats: if beats {
            t.loop_start_beats
        } else {
            0
        },
        loop_end_beats: if beats {
            t.loop_end_beats
        } else {
            0
        },
    }
}

pub fn build_transport_info(t: &ClapTransport) -> (r: TransportInfo)
    ensures
        r == transport_of(*t),
{
    let flags: u32 = t.flags;
    let beats: bool = flags & CLAP_TRANSPORT_HAS_BEATS_TIMELINE != 0;
    let signature: bool = flags & CLAP_TRANSPORT_HAS_TIME_SIGNATURE != 0;
    TransportInfo {
        playing: flags & CLAP_TRANSPORT_IS_PLAYING != 0,
        recording: flags & CLAP_TRANSPORT_IS_RECORDING != 0,
        tempo: if flags & CLAP_TRANSPORT_HAS_TEMPO != 0 {
            t.tempo
        } else {
            TEMPO_120_BITS
        },
        time_sig_num: if signature {
            truncate_byte(t.tsig_num)
        } else {
            4
        },
        time_sig_den: if signature {
            truncate_byte(t.tsig_denom)
        } else {
            4
        },
        position_samples: 0,
        position_seconds: if flags & CLAP_TRANSPORT_HAS_SECONDS_TIMELINE != 0 {
            t.song_pos_seconds
        } else {
            0
        },
        position_beats: if beats {
            t.song_pos_beats
        } else {
            0
        },
        bar_start_beats: if beats {
            t.bar_start
        } else {
            0
        },
        loop_active: flags & CLAP_TRANSPORT_IS_LOOP_ACTIVE != 0,
        loop_start_beats: if beats {
            t.loop_start_beats
        } else {
            0
        },
        loop_end_beats: if beats {
            t.loop_end_beats
        } else {
            0
        },
    }
}

fn truncate_byte(n: i16) -> (r: u8)
    ensures
        r == low_byte(n),
{
    #[verifier::truncate] (n as u8)
}

/// What a host event says.
#[derive(Debug)]
pub enum ClapEventKind {
    /// A note, with its velocity in seven bits.
    NoteOn { channel: i16, key: i16, velocity: u8 },
    NoteOff { channel: i16, key: i16, velocity: u8 },
    ParamValue { param_id: u32, value: u64 },
    ParamMod { param_id: u32, note_id: i32, value: u64 },
    Transport(ClapTransport),
    Midi { status: u8, data1: u8, data2: u8 },
    /// A system-exclusive message; no bytes where the host sent none.
    SysEx { bytes: Vec<u8> },
    /// Every other type of event.
    Other,
}

/// One host event.
#[derive(Debug)]
pub struct ClapInputEvent {
    pub space_id: u16,
    pub time: u32,
    pub kind: ClapEventKind,
}

/// What a list comes to once one host event was converted behind it. Events of a
/// foreign space and unsupported ones are skipped; parameter values and
/// modulations are dropped where a state was just loaded, since they predate it.
pub open spec fn converted_behind(
    list: (Seq<Event>, Seq<u8>),
    input: Option<ClapInputEvent>,
    state_loaded: bool,
) -> (Seq<Event>, Seq<u8>) {
    match input {
        None => list,
        Some(event) => if event.space_id != CLAP_CORE_EVENT_SPACE_ID {
            list
        } else {
            match event.kind {
                ClapEventKind::SysEx { bytes } => push_payload(
                    list.0,
                    list.1,
                    event.time,
                    0,
                    bytes@,
                ),
                kind => match converted_body(kind, state_loaded) {
                    Some(body) => (
                        list.0.push(Event { sample_offset: event.time, port: 0, body }),
                        list.1,
                    ),
                    None => list,
                },
            }
        },
    }
}

/// The body that a host event other than a system-exclusive one converts to.
pub open spec fn converted_body(kind: ClapEventKind, state_loaded: bool) -> Option<EventBody> {
    match kind {
        ClapEventKind::NoteOn { channel, key, velocity } => Some(
            EventBody::NoteOn {
                group: 0,
                channel: low_byte(channel),
                note: low_byte(key),
                velocity,
            },
        ),
        ClapEventKind::NoteOff { channel, key, velocity } => Some(
            EventBody::NoteOff {
                group: 0,
                channel: low_byte(channel),
                note: low_byte(key),
                velocity,
            },
        ),
        ClapEventKind::ParamValue { param_id, value } => if state_loaded {
            None
        } else {
            Some(EventBody::ParamChange { id: param_id, value })
        },
        ClapEventKind::ParamMod { param_id, note_id, value } => if state_loaded {
            None
        } else {
            Some(EventBody::ParamMod { id: param_id, note_id, value })
        },
        ClapEventKind::Transport(t) => Some(EventBody::Transport(transport_of(t))),
        ClapEventKind::Midi { status, data1, data2 } => decoded(status, data1, data2),
        _ => None,
    }
}

/// What the first `n` host events convert to, in the order they came in.
pub open spec fn converted(inputs: Seq<Option<ClapInputEvent>>, state_loaded: bool, n: int) -> (
    Seq<Event>,
    Seq<u8>,
)
    decreases n,
{
    if n <= 0 {
        (Seq::empty(), Seq::empty())
    } else {
        converted_behind(converted(inputs, state_loaded, n - 1), inputs[n - 1], state_loaded)
    }
}

/// What a host's input list, or the lack of one, converts to.
pub open spec fn converted_inputs(
    in_events: Option<Seq<Option<ClapInputEvent>>>,
    state_loaded: bool,
) -> (Seq<Event>, Seq<u8>) {
    match in_events {
        Some(inputs) => converted(inputs, state_loaded, inputs.len() as int),
        None => (Seq::empty(), Seq::empty()),
    }
}

/// The input list of a block as a sequence.
pub open spec fn inputs_view(in_events: Option<&Vec<Option<ClapInputEvent>>>) -> Option<
    Seq<Option<ClapInputEvent>>,
> {
    match in_events {
        Some(inputs) => Some(inputs@),
        None => None,
    }
}

fn convert_one(list: &mut EventList, event: &ClapInputEvent, state_loaded: bool)
    requires
        old(list).wf(),
    ensures
        final(list).wf(),
        (final(list).events@, final(list).pool@) == converted_behind(
            (old(list).events@, old(list).pool@),
            Some(*event),
            state_loaded,
        ),
{
    if event.space_id != CLAP_CORE_EVENT_SPACE_ID {
        return ;
    }
    let sample_offset: u32 = event.time;
    match &event.kind {
        ClapEventKind::NoteOn { channel, key, velocity } => {
            list.push(
                Event::new(
                    sample_offset,
                    EventBody::NoteOn {
                        group: 0,
                        channel: truncate_byte(*channel),
                        note: truncate_byte(*key),
                        velocity: *velocity,
                    },
                ),
            );
        },
        ClapEventKind::NoteOff { channel, key, velocity } => {
            list.push(
                Event::new(
                    sample_offset,
                    EventBody::NoteOff {
                        group: 0,
                        channel: truncate_byte(*channel),
                        note: truncate_byte(*key),
                        velocity: *velocity,
                    },
                ),
            );
        },
        ClapEventKind::ParamValue { param_id, value } => {
            if !state_loaded {
                list.push(
                    Event::new(
                        sample_offset,
                        EventBody::ParamChange { id: *param_id, value: *value },
                    ),
                );
            }
        },
        ClapEventKind::ParamMod { param_id, note_id, value } => {
            if !state_loaded {
                list.push(
                    Event::new(
                        sample_offset,
                        EventBody::ParamMod { id: *param_id, note_id: *note_id, value: *value },
                    ),
                );
            }
        },
        ClapEventKind::Transport(t) => {
            list.push(Event::new(sample_offset, EventBody::Transport(build_transport_info(t))));
        },
        ClapEventKind::Midi { status, data1, data2 } => {
            if let Some(body) = decode_short_message(*status, *data1, *data2) {
                list.push(Event::new(sample_offset, body));
            }
        },
        ClapEventKind::SysEx { bytes } => {
            let _ = list.push_sysex(sample_offset, bytes.as_slice());
        },
        ClapEventKind::Other => {},
    }
}

/// Fills `list` with what the host sent. A stable sort by sample offset follows
/// where `sort` asks for it: the process callback walks the events in time order,
/// a parameter flush does not.
pub fn convert_input_events(
    list: &mut EventList,
    in_events: Option<&Vec<Option<ClapInputEvent>>>,
    sort: bool,
    state_loaded: bool,
)
    ensures
        final(list).wf(),
        final(list).pool@ == converted_inputs(inputs_view(in_events), state_loaded).1,
        sort ==> stably_sorted(
            converted_inputs(inputs_view(in_events), state_loaded).0,
            final(list).events@,
        ),
        !sort ==> final(list).events@ == converted_inputs(
            inputs_view(in_events),
            state_loaded,
        ).0,
{
    list.clear();
    match in_events {
        None => {},
        Some(inputs) => {
            let mut i: usize = 0;
            while i < inputs.len()
                invariant
                    i <= inputs@.len(),
                    list.wf(),
                    (list.events@, list.pool@) == converted(inputs@, state_loaded, i as int),
                decreases inputs@.len() - i,
            {
                if let Some(event) = &inputs[i] {
                    convert_one(list, event, state_loaded);
                }
                i = i + 1;
            }
            if sort {
                list.sort();
            }
        },
    }
    proof {
        if in_events is None {
            assert forall|k: u32| #[trigger]
                at_offset(list.events@, k) == at_offset(Seq::empty(), k) by {
                assert(list.events@ =~= Seq::<Event>::empty());
            }
        }
    }
}

/// A change that an editor made, on its way to the host.
#[derive(Clone, Copy, Debug, PartialEq, Eq, Structural)]
pub enum GuiParamChange {
    GestureBegin(u32),
    /// A parameter and its new plain value.
    Value(u32, u64),
    GestureEnd(u32),
}

impl GuiParamChange {
    /// The change as an item of a queue.
    pub open spec fn item(self) -> Item {
        match self {
            GuiParamChange::GestureBegin(id) => (0, id, 0),
            GuiParamChange::Value(id, plain) => (1, id, plain),
            GuiParamChange::GestureEnd(id) => (2, id, 0),
        }
    }

    /// The change that an item of a queue stands for.
    pub open spec fn of_item(item: Item) -> GuiParamChange {
        if item.0 == 0 {
            GuiParamChange::GestureBegin(item.1)
        } else if item.0 == 1 {
            GuiParamChange::Value(item.1, item.2)
        } else {
            GuiParamChange::GestureEnd(item.1)
        }
    }
}

/// The changes that editors made and the audio thread has not sent on yet. A
/// change that finds the queue full is dropped: the host reads the parameter's
/// value anew anyway.
pub struct GuiChangeQueue {
    pub queue: ArrayQueue<(u8, u32, u64)>,
}

impl GuiChangeQueue {
    /// The waiting changes, the oldest first.
    pub open spec fn changes(&self) -> Seq<GuiParamChange> {
        queued(self.queue).map_values(|item: Item| GuiParamChange::of_item(item))
    }

    pub open spec fn capacity(&self) -> nat {
        queue_capacity(self.queue)
    }

    pub fn new() -> (r: Self)
        ensures
            r.changes() == Seq::<GuiParamChange>::empty(),
            r.capacity() == GUI_QUEUE_CAPACITY,
    {
        let r = GuiChangeQueue { queue: queue_new(GUI_QUEUE_CAPACITY) };
        proof {
            assert(r.changes() =~= Seq::<GuiParamChange>::empty());
        }
        r
    }

    /// Appends a change, unless the queue is full.
    pub fn push(&mut self, change: GuiParamChange) -> (r: bool)
        ensures
            r == (old(self).changes().len() < old(self).capacity()),
            final(self).capacity() == old(self).capacity(),
            final(self).changes() == if r {
                old(self).changes().push(change)
            } else {
                old(self).changes()
            },
    {
        let item: (u8, u32, u64) = match change {
            GuiParamChange::GestureBegin(id) => (0, id, 0),
            GuiParamChange::Value(id, plain) => (1, id, plain),
            GuiParamChange::GestureEnd(id) => (2, id, 0),
        };
        let ghost before = self.changes();
        let r: bool = queue_push(&mut self.queue, item).is_ok();
        proof {
            assert(GuiParamChange::of_item(item) == change);
            if r {
                assert(self.changes() =~= before.push(change));
            }
        }
        r
    }

    /// Takes the oldest change.
    pub fn pop(&mut self) -> (r: Option<GuiParamChange>)
        ensures
            final(self).capacity() == old(self).capacity(),
            match r {
                Some(change) => old(self).changes().len() > 0 && change == old(self).changes()[0]
                    && final(self).changes() == old(self).changes().skip(1),
                None => old(self).changes().len() == 0 && final(self).changes() == old(
                    self,
                ).changes(),
            },
    {
        let ghost before = self.changes();
        match queue_pop(&mut self.queue) {
            Some(item) => {
                proof {
                    assert(self.changes() =~= before.skip(1));
                }
                Some(
                    if item.0 == 0 {
                        GuiParamChange::GestureBegin(item.1)
                    } else if item.0 == 1 {
                        GuiParamChange::Value(item.1, item.2)
                    } else {
                        GuiParamChange::GestureEnd(item.1)
                    },
                )
            },
            None => {
                proof {
                    assert(self.changes() =~= before);
                }
                None
            },
        }
    }
}

/// What an event for the host carries behind its header.
#[derive(Clone, Copy, Debug, PartialEq, Eq)]
pub enum ClapOutputKind {
    Gesture { param_id: u32 },
    ParamValue { param_id: u32, note_id: i32, port_index: i16, channel: i16, key: i16, value: u64 },
    /// A note, with its velocity in seven bits.
    Note { note_id: i32, port_index: i16, channel: i16, key: i16, velocity: u8 },
    Midi { port_index: u16, status: u8, data1: u8, data2: u8 },
    /// A system-exclusive message; its bytes stand in the output list's pool.
    SysEx { port_index: u16, pool_offset: u32, len: u32 },
}

/// One event for the host, in the core event space.
#[derive(Clone, Copy, Debug, PartialEq, Eq)]
pub struct ClapOutputEvent {
    pub time: u32,
    pub type_: u16,
    pub flags: u32,
    pub kind: ClapOutputKind,
}

/// The host event for a change that an editor made: live, at the head of the
/// block.
pub open spec fn gui_event(change: GuiParamChange) -> ClapOutputEvent {
    match change {
        GuiParamChange::GestureBegin(id) => ClapOutputEvent {
            time: 0,
            type_: CLAP_EVENT_PARAM_GESTURE_BEGIN,
            flags: CLAP_EVENT_IS_LIVE,
            kind: ClapOutputKind::Gesture { param_id: id },
        },
        GuiParamChange::Value(id, plain) => ClapOutputEvent {
            time: 0,
            type_: CLAP_EVENT_PARAM_VALUE,
            flags: CLAP_EVENT_IS_LIVE,
            kind: ClapOutputKind::ParamValue {
                param_id: id,
                note_id: ANY_NOTE,
                port_index: ANY,
                channel: ANY,
                key: ANY,
                value: plain,
            },
        },
        GuiParamChange::GestureEnd(id) => ClapOutputEvent {
            time: 0,
            type_: CLAP_EVENT_PARAM_GESTURE_END,
            flags: CLAP_EVENT_IS_LIVE,
            kind: ClapOutputKind::Gesture { param_id: id },
        },
    }
}

fn encode_gui_change(change: &GuiParamChange) -> (r: ClapOutputEvent)
    ensures
        r == gui_event(*change),
{
    match *change {
        GuiParamChange::GestureBegin(id) => ClapOutputEvent {
            time: 0,
            type_: CLAP_EVENT_PARAM_GESTURE_BEGIN,
            flags: CLAP_EVENT_IS_LIVE,
            kind: ClapOutputKind::Gesture { param_id: id },
        },
        GuiParamChange::Value(id, plain) => ClapOutputEvent {
            time: 0,
            type_: CLAP_EVENT_PARAM_VALUE,
            flags: CLAP_EVENT_IS_LIVE,
            kind: ClapOutputKind::ParamValue {
                param_id: id,
                note_id: ANY_NOTE,
                port_index: ANY,
                channel: ANY,
                key: ANY,
                value: plain,
            },
        },
        GuiParamChange::GestureEnd(id) => ClapOutputEvent {
            time: 0,
            type_: CLAP_EVENT_PARAM_GESTURE_END,
            flags: CLAP_EVENT_IS_LIVE,
            kind: ClapOutputKind::Gesture { param_id: id },
        },
    }
}

pub open spec fn gui_events(changes: Seq<GuiParamChange>) -> Seq<ClapOutputEvent> {
    changes.map_values(|change: GuiParamChange| gui_event(change))
}

/// Sends every waiting editor change to the host, the oldest first. Where the
/// host takes no events, the changes keep waiting.
pub fn flush_gui_changes(
    gui_changes: &mut GuiChangeQueue,
    can_push: bool,
    sent: &mut Vec<ClapOutputEvent>,
)
    ensures
        final(gui_changes).capacity() == old(gui_changes).capacity(),
        final(gui_changes).changes() == if can_push {
            Seq::<GuiParamChange>::empty()
        } else {
            old(gui_changes).changes()
        },
        final(sent)@ == if can_push {
            old(sent)@ + gui_events(old(gui_changes).changes())
        } else {
            old(sent)@
        },
{
    if !can_push {
        return ;
    }
    let ghost all = gui_changes.changes();
    let ghost start = sent@;
    let ghost mut n: int = 0;
    proof {
        assert(all.skip(0) =~= all);
        assert(start + gui_events(all.take(0)) =~= start);
    }
    loop
        invariant
            0 <= n <= all.len(),
            gui_changes.changes() == all.skip(n),
            gui_changes.capacity() == old(gui_changes).capacity(),
            sent@ == start + gui_events(all.take(n)),
        ensures
            gui_changes.changes() == Seq::<GuiParamChange>::empty(),
            gui_changes.capacity() == old(gui_changes).capacity(),
            sent@ == start + gui_events(all),
        decreases all.len() - n,
    {
        match gui_changes.pop() {
            Some(change) => {
                sent.push(encode_gui_change(&change));
                proof {
                    assert(all.skip(n).skip(1) =~= all.skip(n + 1));
                    assert(sent@ =~= start + gui_events(all.take(n + 1)));
                    n = n + 1;
                }
            },
            None => {
                proof {
                    assert(all.take(n) =~= all);
                    assert(gui_changes.changes() =~= Seq::<GuiParamChange>::empty());
                }
                break ;
            },
        }
    }
}

/// The host event for one event of the plugin. MIDI 2.0, modulation, transport
/// and per-note events have none.
pub open spec fn output_event(event: Event) -> Option<ClapOutputEvent> {
    match event.body {
        EventBody::NoteOn { channel, note, velocity, .. } => Some(
            ClapOutputEvent {
                time: event.sample_offset,
                type_: CLAP_EVENT_NOTE_ON,
                flags: 0,
                kind: ClapOutputKind::Note {
                    note_id: ANY_NOTE,
                    port_index: 0,
                    channel: channel as i16,
                    key: note as i16,
                    velocity,
                },
            },
        ),
        EventBody::NoteOff { channel, note, velocity, .. } => Some(
            ClapOutputEvent {
                time: event.sample_offset,
                type_: CLAP_EVENT_NOTE_OFF,
                flags: 0,
                kind: ClapOutputKind::Note {
                    note_id: ANY_NOTE,
                    port_index: 0,
                    channel: channel as i16,
                    key: note as i16,
                    velocity,
                },
            },
        ),
        EventBody::ParamChange { id, value } => Some(
            ClapOutputEvent {
                time: event.sample_offset,
                type_: CLAP_EVENT_PARAM_VALUE,
                flags: 0,
                kind: ClapOutputKind::ParamValue {
                    param_id: id,
                    note_id: ANY_NOTE,
                    port_index: ANY,
                    channel: ANY,
                    key: ANY,
                    value,
                },
            },
        ),
        EventBody::SysEx { pool_offset, len } => Some(
            ClapOutputEvent {
                time: event.sample_offset,
                type_: CLAP_EVENT_MIDI_SYSEX,
                flags: 0,
                kind: ClapOutputKind::SysEx { port_index: 0, pool_offset, len },
            },
        ),
        body => match midi1_bytes(body) {
            Some((_, status, data1, data2)) => Some(
                ClapOutputEvent {
                    time: event.sample_offset,
                    type_: CLAP_EVENT_MIDI,
                    flags: 0,
                    kind: ClapOutputKind::Midi { port_index: 0, status, data1, data2 },
                },
            ),
            None => None,
        },
    }
}

fn midi_output(time: u32, status: u8, data1: u8, data2: u8) -> (r: ClapOutputEvent)
    ensures
        r == (ClapOutputEvent {
            time,
            type_: CLAP_EVENT_MIDI,
            flags: 0,
            kind: ClapOutputKind::Midi { port_index: 0, status, data1, data2 },
        }),
{
    ClapOutputEvent {
        time,
        type_: CLAP_EVENT_MIDI,
        flags: 0,
        kind: ClapOutputKind::Midi { port_index: 0, status, data1, data2 },
    }
}

/// Encodes one event of the plugin for the host.
pub fn encode_output_event(event: &Event) -> (r: Option<ClapOutputEvent>)
    ensures
        r == output_event(*event),
{
    let time: u32 = event.sample_offset;
    match event.body {
        EventBody::NoteOn { channel, note, velocity, .. } => Some(
            ClapOutputEvent {
                time,
                type_: CLAP_EVENT_NOTE_ON,
                flags: 0,
                kind: ClapOutputKind::Note {
                    note_id: ANY_NOTE,
                    port_index: 0,
                    channel: channel as i16,
                    key: note as i16,
                    velocity,
                },
            },
        ),
        EventBody::NoteOff { channel, note, velocity, .. } => Some(
            ClapOutputEvent {
                time,
                type_: CLAP_EVENT_NOTE_OFF,
                flags: 0,
                kind: ClapOutputKind::Note {
                    note_id: ANY_NOTE,
                    port_index: 0,
                    channel: channel as i16,
                    key: note as i16,
                    velocity,
                },
            },
        ),
        EventBody::ControlChange { channel, cc, value, .. } => Some(
            midi_output(time, 0xB0 + channel % 16, cc, value),
        ),
        EventBody::Aftertouch { channel, note, pressure, .. } => Some(
            midi_output(time, 0xA0 + channel % 16, note, pressure),
        ),
        EventBody::ChannelPressure { channel, pressure, .. } => Some(
            midi_output(time, 0xD0 + channel % 16, pressure, 0),
        ),
        EventBody::PitchBend { channel, value, .. } => {
            let (lsb, msb): (u8, u8) = pitch_bend_to_bytes(value);
            Some(midi_output(time, 0xE0 + channel % 16, lsb, msb))
        },
        EventBody::ProgramChange { channel, program, .. } => Some(
            midi_output(time, 0xC0 + channel % 16, program, 0),
        ),
        EventBody::ParamChange { id, value } => Some(
            ClapOutputEvent {
                time,
                type_: CLAP_EVENT_PARAM_VALUE,
                flags: 0,
                kind: ClapOutputKind::ParamValue {
                    param_id: id,
                    note_id: ANY_NOTE,
                    port_index: ANY,
                    channel: ANY,
                    key: ANY,
                    value,
                },
            },
        ),
        EventBody::SysEx { pool_offset, len } => Some(
            ClapOutputEvent {
                time,
                type_: CLAP_EVENT_MIDI_SYSEX,
                flags: 0,
                kind: ClapOutputKind::SysEx { port_index: 0, pool_offset, len },
            },
        ),
        _ => None,
    }
}

/// The host events for the plugin's output, in its order.
pub open spec fn output_events_of(events: Seq<Event>) -> Seq<ClapOutputEvent>
    decreases events.len(),
{
    if events.len() == 0 {
        Seq::empty()
    } else {
        match output_event(events.last()) {
            Some(out) => output_events_of(events.drop_last()).push(out),
            None => output_events_of(events.drop_last()),
        }
    }
}

/// Sends the plugin's output to the host.
pub fn forward_output_events(list: &EventList, sent: &mut Vec<ClapOutputEvent>)
    ensures
        final(sent)@ == old(sent)@ + output_events_of(list.events@),
{
    let ghost start = sent@;
    let mut i: usize = 0;
    proof {
        assert(start + output_events_of(list.events@.take(0)) =~= start);
    }
    while i < list.events.len()
        invariant
            i <= list.events@.len(),
            sent@ == start + output_events_of(list.events@.take(i as int)),
        decreases list.events@.len() - i,
    {
        let event: Event = list.events[i];
        proof {
            let longer = list.events@.take(i + 1);
            assert(longer.drop_last() =~= list.events@.take(i as int));
            assert(longer.last() == event);
        }
        if let Some(out) = encode_output_event(&event) {
            sent.push(out);
            proof {
                assert(sent@ =~= start + output_events_of(list.events@.take(i + 1)));
            }
        }
        i = i + 1;
    }
    proof {
        assert(list.events@.take(i as int) =~= list.events@);
    }
}

/// The code that a host is answered for a plugin's status.
pub open spec fn status_code(status: ProcessStatus) -> i32 {
    match status {
        ProcessStatus::Normal => CLAP_PROCESS_CONTINUE,
        ProcessStatus::Tail(n) => if n == 0 {
            CLAP_PROCESS_SLEEP
        } else {
            CLAP_PROCESS_TAIL
        },
        ProcessStatus::KeepAlive => CLAP_PROCESS_CONTINUE_IF_NOT_QUIET,
    }
}

fn process_code(status: &ProcessStatus) -> (r: i32)
    ensures
        r == status_code(*status),
{
    match *status {
        ProcessStatus::Normal => CLAP_PROCESS_CONTINUE,
        ProcessStatus::Tail(n) => if n == 0 {
            CLAP_PROCESS_SLEEP
        } else {
            CLAP_PROCESS_TAIL
        },
        ProcessStatus::KeepAlive => CLAP_PROCESS_CONTINUE_IF_NOT_QUIET,
    }
}

/// What the wrapper keeps of one plugin instance from block to block.
pub struct ClapInstance {
    pub event_list: EventList,
    pub output_events: EventList,
    pub sub_event_scratch: EventList,
    pub param_infos: Vec<ParamInfo>,
    pub min_subblock_samples: u32,
    pub gui_changes: GuiChangeQueue,
    pub pending_state: StateLoadQueue,
    /// What the plugin reported last, for the host to read at any time.
    pub latency_cache: u32,
    pub tail_cache: u32,
    /// An editor changed parameters that the host has not read anew yet.
    pub needs_rescan: bool,
    /// The editor was created.
    pub gui_created: bool,
}

impl ClapInstance {
    /// A fresh instance of a plugin that reports this latency and tail.
    pub fn new(
        param_infos: Vec<ParamInfo>,
        min_subblock_samples: u32,
        latency: u32,
        tail: u32,
    ) -> (r: Self)
        ensures
            r.event_list.events@.len() == 0,
            r.output_events.events@.len() == 0,
            r.sub_event_scratch.events@.len() == 0,
            r.event_list.pool@.len() == 0,
            r.output_events.pool@.len() == 0,
            r.sub_event_scratch.pool@.len() == 0,
            r.event_list.wf(),
            r.output_events.wf(),
            r.sub_event_scratch.wf(),
            r.param_infos == param_infos,
            r.min_subblock_samples == min_subblock_samples,
            r.gui_changes.changes().len() == 0,
            r.gui_changes.capacity() == GUI_QUEUE_CAPACITY,
            r.pending_state.pending is None,
            r.latency_cache == latency,
            r.tail_cache == tail,
            !r.needs_rescan,
            !r.gui_created,
    {
        ClapInstance {
            event_list: EventList::with_capacity(EVENT_LIST_PREALLOC),
            output_events: EventList::with_capacity(EVENT_LIST_PREALLOC),
            sub_event_scratch: EventList::with_capacity(EVENT_LIST_PREALLOC),
            param_infos,
            min_subblock_samples,
            gui_changes: GuiChangeQueue::new(),
            pending_state: StateLoadQueue::new(),
            latency_cache: latency,
            tail_cache: tail,
            needs_rescan: false,
            gui_created: false,
        }
    }
}

/// One process call of the host. `out_events` is whether the host's output list
/// takes events, where there is such a list.
pub struct ClapBlock<'a> {
    pub frames_count: u32,
    pub in_events: Option<&'a Vec<Option<ClapInputEvent>>>,
    pub transport: Option<ClapTransport>,
    pub out_events: Option<bool>,
}

/// What a process call came to: the code for the host, the events sent to it in
/// order, the transport that the editor is shown, and the error with which the
/// plugin answered a state that was loaded.
pub struct ClapBlockResult {
    pub code: i32,
    pub sent: Vec<ClapOutputEvent>,
    pub transport: Option<TransportInfo>,
    pub load_error: Option<StateLoadError>,
}

/// A plugin refuses only bytes that it was handed.
pub open spec fn can_fail(
    pending: Option<DeserializedState>,
    failure: Option<StateLoadError>,
) -> bool {
    failure is Some ==> (pending matches Some(state) && state.extra is Some)
}

/// The calls that a pending state comes to, where the plugin answers its own bytes
/// with `failure`.
pub open spec fn pending_calls(
    pending: Option<DeserializedState>,
    failure: Option<StateLoadError>,
) -> Seq<RuntimeCall> {
    match pending {
        Some(state) => apply_calls(state, failure),
        None => Seq::empty(),
    }
}

/// The transport of a block: the host's, or the default where it reports none.
pub open spec fn block_transport(transport: Option<ClapTransport>) -> TransportInfo {
    match transport {
        Some(t) => transport_of(t),
        None => TransportInfo::stopped(),
    }
}

/// The process callback.
///
/// A missing block is an error, and one without frames changes nothing. Otherwise
/// a pending state is applied first, so that the whole block runs with it, and
/// parameter events that predate it are dropped. The block then runs in
/// sub-blocks; afterwards the editor's changes and the plugin's output go to the
/// host.
pub fn clap_plugin_process<P: PluginRuntime>(
    instance: &mut ClapInstance,
    plugin: &mut P,
    block: Option<&ClapBlock>,
) -> (r: ClapBlockResult)
    requires
        block matches Some(b) ==> can_walk(
            converted_inputs(
                inputs_view(b.in_events),
                old(instance).pending_state.pending is Some,
            ).0,
            old(instance).param_infos@,
            b.frames_count as int,
            old(instance).min_subblock_samples as int,
        ),
    ensures
        block is None ==> r.code == CLAP_PROCESS_ERROR && r.sent@.len() == 0 && r.transport is None
            && r.load_error is None && final(plugin).trace() == old(plugin).trace()
            && *final(instance) == *old(instance),
        block matches Some(b) ==> b.frames_count == 0 ==> r.code == CLAP_PROCESS_CONTINUE
            && r.sent@.len() == 0 && r.transport is None && r.load_error is None
            && final(plugin).trace() == old(plugin).trace() && *final(instance) == *old(instance),
        block matches Some(b) ==> b.frames_count > 0 ==> {
            let inputs = converted_inputs(
                inputs_view(b.in_events),
                old(instance).pending_state.pending is Some,
            );
            let applied = pending_calls(old(instance).pending_state.pending, r.load_error);
            let calls = final(plugin).trace().skip(
                (old(plugin).trace() + applied).len() as int,
            );
            let output = final(instance).output_events.events@;
            &&& can_fail(old(instance).pending_state.pending, r.load_error)
            &&& final(instance).pending_state.pending is None
            &&& stably_sorted(inputs.0, final(instance).event_list.events@)
            &&& final(instance).event_list.pool@ == inputs.1
            &&& final(plugin).trace() == old(plugin).trace() + applied + calls
            &&& exists|end: Progress|
                {
                    &&& #[trigger] walks(
                        block_of(
                            final(instance).event_list,
                            old(instance).param_infos@,
                            b.frames_count as int,
                            old(instance).min_subblock_samples as int,
                        ),
                        start_of(block_transport(b.transport), (Seq::empty(), Seq::empty())),
                        calls,
                        end,
                    )
                    &&& end.out == (output, final(instance).output_events.pool@)
                    &&& r.code == block_code(b.out_events, output, end.status)
                }
            &&& r.sent@ == block_sent(
                b.out_events,
                old(instance).gui_changes.changes(),
                output,
            )
            &&& final(instance).gui_changes.changes() == changes_left(
                b.out_events,
                old(instance).gui_changes.changes(),
            )
            &&& final(instance).gui_changes.capacity() == old(instance).gui_changes.capacity()
            &&& r.transport == Some(block_transport(b.transport))
            &&& final(instance).latency_cache == final(plugin).reported_latency()
            &&& final(instance).tail_cache == final(plugin).reported_tail()
            &&& final(instance).param_infos == old(instance).param_infos
            &&& final(instance).min_subblock_samples == old(instance).min_subblock_samples
            &&& final(instance).needs_rescan == old(instance).needs_rescan
            &&& final(instance).gui_created == old(instance).gui_created
            &&& final(instance).output_events.wf()
        },
{
    let b: &ClapBlock = match block {
        None => {
            return ClapBlockResult {
                code: CLAP_PROCESS_ERROR,
                sent: Vec::new(),
                transport: None,
                load_error: None,
            };
        },
        Some(b) => b,
    };
    if b.frames_count == 0 {
        return ClapBlockResult {
            code: CLAP_PROCESS_CONTINUE,
            sent: Vec::new(),
            transport: None,
            load_error: None,
        };
    }
    let ghost trace0 = plugin.trace();
    let mut load_error: Option<StateLoadError> = None;
    let mut state_loaded: bool = false;
    if let Some(state) = instance.pending_state.pop() {
        load_error = apply_state(plugin, &state);
        state_loaded = true;
    }
    let ghost applied = pending_calls(old(instance).pending_state.pending, load_error);
    let ghost trace1 = plugin.trace();
    proof {
        assert(trace1 =~= trace0 + applied);
    }
    convert_input_events(&mut instance.event_list, b.in_events, true, state_loaded);
    let transport: TransportInfo = match &b.transport {
        Some(t) => build_transport_info(t),
        None => TransportInfo::default(),
    };
    instance.output_events.clear();
    let mut transport_snap: TransportInfo = transport;
    proof {
        lemma_sorting_keeps_walkable(
            converted_inputs(inputs_view(b.in_events), state_loaded).0,
            instance.event_list.events@,
            instance.param_infos@,
            b.frames_count as int,
            instance.min_subblock_samples as int,
        );
    }
    let ghost none: (Seq<Event>, Seq<u8>) = (Seq::empty(), Seq::empty());
    let ghost the_block = block_of(
        instance.event_list,
        instance.param_infos@,
        b.frames_count as int,
        instance.min_subblock_samples as int,
    );
    proof {
        assert((instance.output_events.events@, instance.output_events.pool@) == none);
        assert(transport == block_transport(b.transport));
    }
    let status: ProcessStatus = process_chunked(
        plugin,
        &instance.event_list,
        &mut instance.sub_event_scratch,
        &mut transport_snap,
        &mut instance.output_events,
        &instance.param_infos,
        b.frames_count as usize,
        instance.min_subblock_samples,
    );
    let ghost calls = plugin.trace().skip(trace1.len() as int);
    let ghost end = choose|end: Progress|
        {
            &&& #[trigger] walks(the_block, start_of(transport, none), calls, end)
            &&& end.out == (instance.output_events.events@, instance.output_events.pool@)
            &&& end.status == status
        };
    proof {
        assert(walks(the_block, start_of(transport, none), calls, end));
    }
    proof {
        assert(plugin.trace() =~= trace1 + calls);
    }
    instance.latency_cache = plugin.latency();
    instance.tail_cache = plugin.tail();
    let mut sent: Vec<ClapOutputEvent> = Vec::new();
    let can_push: bool = match b.out_events {
        Some(can) => can,
        None => false,
    };
    flush_gui_changes(&mut instance.gui_changes, can_push, &mut sent);
    let mut code: i32 = process_code(&status);
    if b.out_events.is_some() && instance.output_events.len() > 0 {
        if can_push {
            forward_output_events(&instance.output_events, &mut sent);
        } else {
            code = CLAP_PROCESS_CONTINUE;
        }
    }
    proof {
        if can_push {
            assert(sent@ =~= gui_events(old(instance).gui_changes.changes())
                + output_events_of(instance.output_events.events@));
        } else {
            assert(sent@ =~= Seq::<ClapOutputEvent>::empty());
        }
    }
    proof {
        assert(trace1.len() == (old(plugin).trace() + applied).len());
        assert(plugin.trace() == old(plugin).trace() + applied + calls);
        assert(block_of(
            instance.event_list,
            old(instance).param_infos@,
            b.frames_count as int,
            old(instance).min_subblock_samples as int,
        ) == the_block);
    }
    ClapBlockResult { code, sent, transport: Some(transport), load_error }
}

proof fn lemma_low_byte(n: i16)
    ensures
        low_byte(n) == n as int % 256,
{
    assert(n as u8 == ((n as i32 + 65536i32) as u32) % 256u32) by (bit_vector);
    assert((n as i32 + 65536i32) as u32 == n as int + 65536);
}

proof fn lemma_bits(flags: u32)
    ensures
        has(flags, 1) == (flags % 2 == 1),
        has(flags, 2) == (flags / 2 % 2 == 1),
        has(flags, 4) == (flags / 4 % 2 == 1),
        has(flags, 8) == (flags / 8 % 2 == 1),
        has(flags, 16) == (flags / 16 % 2 == 1),
        has(flags, 32) == (flags / 32 % 2 == 1),
        has(flags, 64) == (flags / 64 % 2 == 1),
{
    assert((flags & 1 != 0) == (flags % 2 == 1)) by (bit_vector);
    assert((flags & 2 != 0) == (flags / 2 % 2 == 1)) by (bit_vector);
    assert((flags & 4 != 0) == (flags / 4 % 2 == 1)) by (bit_vector);
    assert((flags & 8 != 0) == (flags / 8 % 2 == 1)) by (bit_vector);
    assert((flags & 16 != 0) == (flags / 16 % 2 == 1)) by (bit_vector);
    assert((flags & 32 != 0) == (flags / 32 % 2 == 1)) by (bit_vector);
    assert((flags & 64 != 0) == (flags / 64 % 2 == 1)) by (bit_vector);
}

/// Each field of the transport is the host's own where the host's flag for it is set, and
/// does not change with what the host leaves open: the seven flags, from the lowest bit on,
/// are tempo, beats, seconds, signature, playing, recording and loop. The tempo is then
/// 120, the signature 4/4, a position zero.
pub proof fn law_transport_takes_what_the_flags_vouch_for(t: ClapTransport)
    ensures
        ({
            let r = transport_of(t);
            let bit = |n: int| t.flags as int / n % 2 == 1;
            &&& r.tempo == if bit(1) {
                t.tempo
            } else {
                0x405E_0000_0000_0000
            }
            &&& bit(2) ==> r.position_beats == t.song_pos_beats && r.bar_start_beats == t.bar_start
                && r.loop_start_beats == t.loop_start_beats && r.loop_end_beats == t.loop_end_beats
            &&& !bit(2) ==> r.position_beats == 0 && r.bar_start_beats == 0 && r.loop_start_beats
                == 0 && r.loop_end_beats == 0
            &&& r.position_seconds == if bit(4) {
                t.song_pos_seconds
            } else {
                0
            }
            &&& bit(8) ==> r.time_sig_num == t.tsig_num as int % 256 && r.time_sig_den
                == t.tsig_denom as int % 256
            &&& !bit(8) ==> r.time_sig_num == 4 && r.time_sig_den == 4
            &&& r.playing == bit(16)
            &&& r.recording == bit(32)
            &&& r.loop_active == bit(64)
            &&& r.position_samples == 0
        }),
{
    lemma_bits(t.flags);
    lemma_low_byte(t.tsig_num);
    lemma_low_byte(t.tsig_denom);
}

/// Whether a body says what a host event says, in group zero: a note of its own kind, a
/// change of its own parameter, the host's transport, or what the bytes of a short message
/// say.
pub open spec fn says_the_same(kind: ClapEventKind, body: EventBody) -> bool {
    match (kind, body) {
        (
            ClapEventKind::NoteOn { channel, key, velocity },
            EventBody::NoteOn { group, channel: c, note, velocity: v },
        ) => group == 0 && c == channel as int % 256 && note == key as int % 256 && v == velocity,
        (
            ClapEventKind::NoteOff { channel, key, velocity },
            EventBody::NoteOff { group, channel: c, note, velocity: v },
        ) => group == 0 && c == channel as int % 256 && note == key as int % 256 && v == velocity,
        (
            ClapEventKind::ParamValue { param_id, value },
            EventBody::ParamChange { id, value: v },
        ) => id == param_id && v == value,
        (
            ClapEventKind::ParamMod { param_id, note_id, value },
            EventBody::ParamMod { id, note_id: n, value: v },
        ) => id == param_id && n == note_id && v == value,
        (ClapEventKind::Transport(t), EventBody::Transport(r)) => r == transport_of(t),
        (ClapEventKind::Midi { status, data1, data2 }, said) => parsed(
            0,
            seq![status, data1, data2],
        ) == Some(said),
        _ => false,
    }
}

/// Each host event adds one event of its own kind, at its own sample and on the first
/// port, behind those that were there, or none. One of the core space adds none only where
/// it is of no kind that is known, a short message with no channel voice, a payload for
/// which the pool has no room, or a parameter event where a state was just loaded. One of
/// a foreign space always adds none.
pub proof fn law_host_events_keep_their_kind(
    list: (Seq<Event>, Seq<u8>),
    event: ClapInputEvent,
    state_loaded: bool,
)
    ensures
        ({
            let after = converted_behind(list, Some(event), state_loaded);
            let added = after.0.len() == list.0.len() + 1;
            let last = after.0.last();
            &&& !added ==> after == list
            &&& added ==> after.0 == list.0.push(last) && last.sample_offset == event.time
                && last.port == 0
            &&& event.space_id != 0 ==> !added
            &&& event.space_id == 0 ==> match event.kind {
                ClapEventKind::NoteOn { .. } => added,
                ClapEventKind::NoteOff { .. } => added,
                ClapEventKind::Transport(_) => added,
                ClapEventKind::ParamValue { .. } => added == !state_loaded,
                ClapEventKind::ParamMod { .. } => added == !state_loaded,
                ClapEventKind::Midi { status, .. } => added == (0x80 <= status < 0xf0),
                ClapEventKind::SysEx { bytes } => added == (list.1.len() + bytes@.len() <= 131072),
                ClapEventKind::Other => !added,
            }
            &&& added ==> match event.kind {
                ClapEventKind::SysEx { bytes } => last.body is SysEx && payload(last.body, after.1)
                    == bytes@ && after.1.take(list.1.len() as int) == list.1,
                kind => says_the_same(kind, last.body) && after.1 == list.1,
            }
        }),
{
    match event.kind {
        ClapEventKind::NoteOn { channel, key, .. } => {
            lemma_low_byte(channel);
            lemma_low_byte(key);
        },
        ClapEventKind::NoteOff { channel, key, .. } => {
            lemma_low_byte(channel);
            lemma_low_byte(key);
        },
        ClapEventKind::Midi { status, data1, data2 } => {
            law_short_message_is_a_stream(status, data1, data2);
        },
        ClapEventKind::SysEx { bytes } => {
            let after = converted_behind(list, Some(event), state_loaded);
            if event.space_id == 0 && list.1.len() + bytes@.len() <= 131072 {
                assert(payload(after.0.last().body, after.1) =~= bytes@);
                assert(after.1.take(list.1.len() as int) =~= list.1);
            }
        },
        _ => {},
    }
    let after = converted_behind(list, Some(event), state_loaded);
    if after.0.len() == list.0.len() + 1 {
        assert(after.0 =~= list.0.push(after.0.last()));
    }
}

/// Host events are converted in the order in which they came in: a list that goes on
/// converts to what its front does, and what the next event adds.
pub proof fn law_host_events_convert_in_turn(
    inputs: Seq<Option<ClapInputEvent>>,
    next: Option<ClapInputEvent>,
    state_loaded: bool,
)
    ensures
        converted_inputs(Some(inputs.push(next)), state_loaded) == match next {
            Some(_) => converted_behind(
                converted_inputs(Some(inputs), state_loaded),
                next,
                state_loaded,
            ),
            None => converted_inputs(Some(inputs), state_loaded),
        },
        converted_inputs(Some(Seq::empty()), state_loaded) == (
            Seq::<Event>::empty(),
            Seq::<u8>::empty(),
        ),
        converted_inputs(None, state_loaded) == (Seq::<Event>::empty(), Seq::<u8>::empty()),
{
    lemma_converted_front(inputs, inputs.push(next), state_loaded, inputs.len() as int);
}

proof fn lemma_converted_front(
    a: Seq<Option<ClapInputEvent>>,
    b: Seq<Option<ClapInputEvent>>,
    state_loaded: bool,
    n: int,
)
    requires
        0 <= n <= a.len() <= b.len(),
        forall|i: int| 0 <= i < a.len() ==> #[trigger] a[i] == b[i],
    ensures
        converted(a, state_loaded, n) == converted(b, state_loaded, n),
    decreases n,
{
    if n > 0 {
        lemma_converted_front(a, b, state_loaded, n - 1);
        assert(a[n - 1] == b[n - 1]);
    }
}

/// A note that a host sends, and the plugin sends on, comes back to the host as it was: of
/// its own type, on its own channel and key, with its own velocity, at its own sample.
pub proof fn law_notes_come_back_as_they_were(
    channel: i16,
    key: i16,
    velocity: u8,
    time: u32,
    on: bool,
    state_loaded: bool,
)
    requires
        0 <= channel < 256,
        0 <= key < 256,
    ensures
        ({
            let kind = if on {
                ClapEventKind::NoteOn { channel, key, velocity }
            } else {
                ClapEventKind::NoteOff { channel, key, velocity }
            };
            let input = ClapInputEvent { space_id: 0, time, kind };
            let list = converted_inputs(Some(seq![Some(input)]), state_loaded).0;
            &&& list.len() == 1
            &&& output_event(list[0]) == Some(
                ClapOutputEvent {
                    time,
                    type_: if on {
                        0
                    } else {
                        1
                    },
                    flags: 0,
                    kind: ClapOutputKind::Note {
                        note_id: -1i32,
                        port_index: 0,
                        channel,
                        key,
                        velocity,
                    },
                },
            )
        }),
{
    lemma_low_byte(channel);
    lemma_low_byte(key);
    let kind = if on {
        ClapEventKind::NoteOn { channel, key, velocity }
    } else {
        ClapEventKind::NoteOff { channel, key, velocity }
    };
    let input = ClapInputEvent { space_id: 0, time, kind };
    let inputs = seq![Some(input)];
    assert(inputs[0] == Some(input));
    assert(converted(inputs, state_loaded, 0) == (Seq::<Event>::empty(), Seq::<u8>::empty()));
    assert(converted(inputs, state_loaded, 1) == converted_behind(
        (Seq::<Event>::empty(), Seq::<u8>::empty()),
        Some(input),
        state_loaded,
    ));
}

/// What the plugin sends is of its own type at the host, at its own sample: 0 and 1 are
/// the notes, 5 the parameters, 10 the short messages with the body's own bytes, 11 the
/// system-exclusive ones. A short message that comes back in says the same again, in
/// group zero.
pub proof fn law_output_events_keep_their_kind(event: Event)
    ensures
        output_event(event) matches Some(out) ==> out.time == event.sample_offset && out.flags == 0,
        match event.body {
            EventBody::NoteOn { channel, note, velocity, .. } => output_event(event) matches Some(
                out,
            ) && out.type_ == 0 && (out.kind matches ClapOutputKind::Note {
                note_id,
                port_index,
                channel: c,
                key,
                velocity: v,
            } && note_id == -1 && port_index == 0 && c == channel && key == note && v == velocity),
            EventBody::NoteOff { channel, note, velocity, .. } => output_event(event) matches Some(
                out,
            ) && out.type_ == 1 && (out.kind matches ClapOutputKind::Note {
                note_id,
                port_index,
                channel: c,
                key,
                velocity: v,
            } && note_id == -1 && port_index == 0 && c == channel && key == note && v == velocity),
            EventBody::ParamChange { id, value } => output_event(event) matches Some(out)
                && out.type_ == 5 && (out.kind matches ClapOutputKind::ParamValue {
                param_id,
                note_id,
                port_index,
                channel,
                key,
                value: v,
            } && param_id == id && v == value && note_id == -1 && port_index == -1 && channel == -1
                && key == -1),
            EventBody::SysEx { pool_offset, len } => output_event(event) matches Some(out)
                && out.type_ == 11 && (out.kind matches ClapOutputKind::SysEx {
                port_index,
                pool_offset: p,
                len: n,
            } && port_index == 0 && p == pool_offset && n == len),
            body => match output_event(event) {
                Some(out) => out.type_ == 10 && (out.kind matches ClapOutputKind::Midi {
                    port_index,
                    status,
                    data1,
                    data2,
                } && port_index == 0 && midi1_message(body).len() >= 2 && midi1_message(body)
                    == seq![status, data1, data2].take(midi1_message(body).len() as int) && (
                midi1_in_range(body) ==> parsed(midi1_group(body), seq![status, data1, data2])
                    == Some(body))),
                None => midi1_message(body).len() == 0,
            },
        },
{
    let body = event.body;
    if body is Aftertouch || body is ControlChange || body is ChannelPressure || body is PitchBend
        || body is ProgramChange {
        let (len, status, data1, data2) = midi1_bytes(body)->0;
        let bytes = seq![status, data1, data2];
        assert(bytes.take(len as int).len() == len);
        if midi1_in_range(body) {
            law_encode_parse(body);
            let message = midi1_message(body);
            assert(message[0] == bytes[0] && message[1] == bytes[1]);
            if len == 3 {
                assert(message[2] == bytes[2]);
            }
            law_bytes_name_their_message(midi1_group(body), message);
            law_bytes_name_their_message(midi1_group(body), bytes);
        }
    }
}

/// What the plugin sends reaches the host in its order, each event once: those that have
/// a host event at all.
pub proof fn law_output_keeps_its_order(events: Seq<Event>)
    ensures
        output_events_of(events) == events.filter(
            |e: Event| output_event(e) is Some,
        ).map_values(|e: Event| output_event(e)->0),
    decreases events.len(),
{
    reveal(Seq::filter);
    let has_one = |e: Event| output_event(e) is Some;
    let it = |e: Event| output_event(e)->0;
    if events.len() == 0 {
        assert(output_events_of(events) =~= events.filter(has_one).map_values(it));
    } else {
        let front = events.drop_last();
        let last = events.last();
        law_output_keeps_its_order(front);
        if has_one(last) {
            assert(events.filter(has_one) == front.filter(has_one).push(last));
            assert(front.filter(has_one).push(last).map_values(it) =~= front.filter(
                has_one,
            ).map_values(it).push(it(last)));
        } else {
            assert(events.filter(has_one) == front.filter(has_one));
        }
    }
}

/// What an editor did reaches the host as it was done: 7 begins a gesture, 5 gives the
/// value, 8 ends the gesture, each for the editor's own parameter, live and at the head of
/// the block.
pub proof fn law_editor_changes_reach_the_host(changes: Seq<GuiParamChange>, i: int)
    requires
        0 <= i < changes.len(),
    ensures
        gui_events(changes).len() == changes.len(),
        gui_events(changes)[i].time == 0 && gui_events(changes)[i].flags == 1,
        match changes[i] {
            GuiParamChange::GestureBegin(id) => gui_events(changes)[i].type_ == 7 && (gui_events(
                changes,
            )[i].kind matches ClapOutputKind::Gesture { param_id } && param_id == id),
            GuiParamChange::GestureEnd(id) => gui_events(changes)[i].type_ == 8 && (gui_events(
                changes,
            )[i].kind matches ClapOutputKind::Gesture { param_id } && param_id == id),
            GuiParamChange::Value(id, plain) => gui_events(changes)[i].type_ == 5 && (gui_events(
                changes,
            )[i].kind matches ClapOutputKind::ParamValue {
                param_id,
                note_id,
                port_index,
                channel,
                key,
                value,
            } && param_id == id && value == plain && note_id == -1 && port_index == -1 && channel
                == -1 && key == -1),
        },
{
}

/// The codes that a host is answered: 1 to go on, 3 for a tail that still sounds, 4 for one
/// that has run out, 2 to be kept alive while it is not quiet; 0, an error, is none of
/// them.
pub proof fn law_status_codes(status: ProcessStatus)
    ensures
        status is Normal <==> status_code(status) == 1,
        status is KeepAlive <==> status_code(status) == 2,
        (status matches ProcessStatus::Tail(n) && n > 0) <==> status_code(status) == 3,
        (status matches ProcessStatus::Tail(n) && n == 0) <==> status_code(status) == 4,
        CLAP_PROCESS_ERROR == 0,
{
}

/// A state that is pending is applied as a whole, and without one nothing is done. Only
/// bytes of its own can be refused by a plugin. A block's transport is the host's, or a
/// stopped one; its input list is the host's own.
pub proof fn law_pending_states_are_applied_whole(
    state: DeserializedState,
    failure: Option<StateLoadError>,
    transport: ClapTransport,
    inputs: &Vec<Option<ClapInputEvent>>,
)
    ensures
        pending_calls(Some(state), failure) == apply_calls(state, failure),
        pending_calls(None, failure).len() == 0,
        can_fail(Some(state), failure) <==> failure is None || state.extra is Some,
        can_fail(None, failure) <==> failure is None,
        block_transport(Some(transport)) == transport_of(transport),
        block_transport(None) == TransportInfo::stopped(),
        inputs_view(Some(inputs)) == Some(inputs@),
        inputs_view(None) is None,
{
}

/// A change that an editor made comes out of a queue as it went in, and no two changes are
/// the same item.
pub proof fn law_changes_come_out_as_they_went_in(a: GuiParamChange, b: GuiParamChange)
    ensures
        GuiParamChange::of_item(a.item()) == a,
        a.item() == b.item() ==> a == b,
{
}

/// The waiting changes are those of the queue's items, in their order.
pub proof fn law_waiting_changes_are_the_queues(queue: GuiChangeQueue, i: int)
    requires
        0 <= i < queued(queue.queue).len(),
    ensures
        queue.changes().len() == queued(queue.queue).len(),
        queue.changes()[i] == GuiParamChange::of_item(queued(queue.queue)[i]),
{
}

/// What a block sends to its host, where the host takes events: the editor's changes,
/// and behind them what the plugin put out.
pub open spec fn block_sent(
    out_events: Option<bool>,
    changes: Seq<GuiParamChange>,
    output: Seq<Event>,
) -> Seq<ClapOutputEvent> {
    if out_events == Some(true) {
        gui_events(changes) + output_events_of(output)
    } else {
        Seq::<ClapOutputEvent>::empty()
    }
}

/// The editor's changes that still wait behind a block.
pub open spec fn changes_left(
    out_events: Option<bool>,
    changes: Seq<GuiParamChange>,
) -> Seq<GuiParamChange> {
    if out_events == Some(true) {
        Seq::<GuiParamChange>::empty()
    } else {
        changes
    }
}

/// What a block returns to its host. Where events are lost, because the host's list
/// takes none, the plugin is to be called again.
pub open spec fn block_code(
    out_events: Option<bool>,
    output: Seq<Event>,
    status: ProcessStatus,
) -> i32 {
    if out_events == Some(false) && output.len() > 0 {
        CLAP_PROCESS_CONTINUE
    } else {
        status_code(status)
    }
}

/// A host that takes events gets all of the editor's changes, then all that the plugin
/// put out, and no change is left. From one that does not, nothing is taken: every
/// change still waits. The plugin's own status is reported, unless the host has a list
/// that takes nothing and the plugin put something out; a host without a list of its
/// own hears the status in any case.
pub proof fn law_blocks_answer_their_host(
    out_events: Option<bool>,
    changes: Seq<GuiParamChange>,
    output: Seq<Event>,
    status: ProcessStatus,
)
    ensures
        out_events == Some(true) ==> {
            let sent = block_sent(out_events, changes, output);
            &&& sent.len() == gui_events(changes).len() + output_events_of(output).len()
            &&& sent.take(gui_events(changes).len() as int) == gui_events(changes)
            &&& sent.skip(gui_events(changes).len() as int) == output_events_of(output)
            &&& changes_left(out_events, changes).len() == 0
        },
        out_events != Some(true) ==> block_sent(out_events, changes, output).len() == 0
            && changes_left(out_events, changes) == changes,
        out_events != Some(false) || output.len() == 0 ==> block_code(out_events, output, status)
            == status_code(status),
        out_events == Some(false) && output.len() > 0 ==> block_code(out_events, output, status)
            == 1,
{
    let sent = block_sent(out_events, changes, output);
    if out_events == Some(true) {
        let n = gui_events(changes).len() as int;
        assert(sent.take(n) =~= gui_events(changes));
        assert(sent.skip(n) =~= output_events_of(output));
    }
}

} // verus!
