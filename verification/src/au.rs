//! Audio Unit wrapper: registration data, host events in, plugin events out, and
//! the render callback.
//!
//! Universal MIDI packets are encoded and decoded outside; what belongs to an
//! event arrives beside it.
use crate::bus::{sum_channels, total_channels, BusConfig, BusLayout};
use crate::clap::{can_fail, pending_calls};
use crate::chunked_process::{
    block_of, can_walk, changes_among, lemma_sorting_keeps_walkable, process_chunked, start_of,
    walks, Progress,
};
use crate::events::{
    push_payload, stably_sorted, Event, EventBody, EventList, TransportInfo,
    EVENT_LIST_PREALLOC,
};
use crate::info::{resolve_name_override, spec_name_override, MidiDialect, PluginInfo};
use crate::midi::{
    decode_short_message, decoded, downconvert_to_midi1, downconverted,
    law_short_message_is_a_stream, midi1_message, parsed,
};
use crate::params::{bypass_id, find_bypass_id, MidiSource, ParamInfo};
use crate::process::PluginRuntime;
use crate::queue::{queue_capacity, queue_new, queue_push, queued, take_all, Item};
use crate::state::{apply_state, StateLoadError, StateLoadQueue};
use crate::text::{c_text, to_c_text};
use crate::wrapper::{
    encode_short_message, host_transport, law_short_messages_are_messages, read_transport,
    short_message, HostTransport,
};
use crossbeam_queue::ArrayQueue;
use vstd::prelude::*;

verus! {

/// Version of the callback table.
pub const TRUCE_AU_ABI_VERSION: u32 = 0x5441_7505;

/// Version of the plugin that a component reports: 1.0.0.
pub const COMPONENT_VERSION: u32 = 0x0001_0000;

/// A short MIDI message at a sample of a block.
#[derive(Copy, Clone, Debug, PartialEq, Eq)]
pub struct AuMidiEvent {
    pub sample_offset: u32,
    pub status: u8,
    pub data1: u8,
    pub data2: u8,
    pub port: u8,
}

/// A universal MIDI packet that a host sent.
#[derive(Copy, Clone, Debug)]
pub struct AuMidi2Event {
    pub sample_offset: u32,
    pub words: [u32; 4],
}

/// A universal MIDI packet on its way to a host.
#[derive(Copy, Clone, Debug)]
pub struct AuUmpEvent {
    pub sample_offset: u32,
    pub cable: u8,
    pub word_count: u8,
    pub reserved: [u8; 2],
    pub words: [u32; 4],
}

/// A parameter that a host automates, with its plain value as a double.
#[derive(Copy, Clone, Debug, PartialEq, Eq)]
pub struct AuParamEvent {
    pub sample_offset: u32,
    pub param_id: u32,
    pub value: u64,
}

/// A packet of a host together with what it decodes to: the body of a channel
/// voice packet, and the payload that a packet of a system-exclusive stream
/// completes.
pub struct AuPacketIn {
    pub event: AuMidi2Event,
    pub voice: Option<EventBody>,
    pub payload: Option<Vec<u8>>,
}

/// The message type of a packet: the high four bits of its first word.
pub open spec fn message_type(words: [u32; 4]) -> int {
    words@[0] as int / 0x1000_0000
}

/// What a list comes to once a packet was taken in behind it: channel voice of
/// the second kind, and complete system-exclusive messages; nothing else.
pub open spec fn packet_behind(list: (Seq<Event>, Seq<u8>), packet: AuPacketIn) -> (
    Seq<Event>,
    Seq<u8>,
) {
    let kind = message_type(packet.event.words);
    if kind == 4 {
        match packet.voice {
            Some(body) => (
                list.0.push(
                    Event { sample_offset: packet.event.sample_offset, port: 0, body },
                ),
                list.1,
            ),
            None => list,
        }
    } else if kind == 3 || kind == 5 {
        match packet.payload {
            Some(bytes) => push_payload(
                list.0,
                list.1,
                packet.event.sample_offset,
                0,
                bytes@,
            ),
            None => list,
        }
    } else {
        list
    }
}

/// The list with the first `n` short messages behind it.
pub open spec fn with_messages(
    list: (Seq<Event>, Seq<u8>),
    messages: Seq<AuMidiEvent>,
    n: int,
) -> (Seq<Event>, Seq<u8>)
    decreases n,
{
    if n <= 0 {
        list
    } else {
        let before = with_messages(list, messages, n - 1);
        let ev = messages[n - 1];
        match decoded(ev.status, ev.data1, ev.data2) {
            Some(body) => (
                before.0.push(Event { sample_offset: ev.sample_offset, port: 0, body }),
                before.1,
            ),
            None => before,
        }
    }
}

/// The list with the first `n` packets behind it.
pub open spec fn with_packets(
    list: (Seq<Event>, Seq<u8>),
    packets: Seq<AuPacketIn>,
    n: int,
) -> (Seq<Event>, Seq<u8>)
    decreases n,
{
    if n <= 0 {
        list
    } else {
        packet_behind(with_packets(list, packets, n - 1), packets[n - 1])
    }
}

pub open spec fn param_event(pe: AuParamEvent) -> Event {
    Event {
        sample_offset: pe.sample_offset,
        port: 0,
        body: EventBody::ParamChange { id: pe.param_id, value: pe.value },
    }
}

/// Everything that a host sent for one block, behind what the list holds: short
/// messages, packets, then automation.
pub open spec fn collected(
    list: (Seq<Event>, Seq<u8>),
    messages: Seq<AuMidiEvent>,
    packets: Seq<AuPacketIn>,
    automation: Seq<AuParamEvent>,
) -> (Seq<Event>, Seq<u8>) {
    let noted = with_packets(
        with_messages(list, messages, messages.len() as int),
        packets,
        packets.len() as int,
    );
    (noted.0 + automation.map_values(|pe: AuParamEvent| param_event(pe)), noted.1)
}

fn push_messages(list: &mut EventList, messages: &Vec<AuMidiEvent>)
    requires
        old(list).wf(),
    ensures
        final(list).wf(),
        (final(list).events@, final(list).pool@) == with_messages(
            (old(list).events@, old(list).pool@),
            messages@,
            messages@.len() as int,
        ),
{
    let ghost start = (list.events@, list.pool@);
    let mut i: usize = 0;
    while i < messages.len()
        invariant
            i <= messages@.len(),
            list.wf(),
            (list.events@, list.pool@) == with_messages(start, messages@, i as int),
        decreases messages@.len() - i,
    {
        let ev: AuMidiEvent = messages[i];
        if let Some(body) = decode_short_message(ev.status, ev.data1, ev.data2) {
            list.push(Event::new(ev.sample_offset, body));
        }
        i = i + 1;
    }
}

fn push_packets(list: &mut EventList, packets: &Vec<AuPacketIn>)
    requires
        old(list).wf(),
        forall|i: int|
            0 <= i < packets@.len() ==> !((#[trigger] packets@[i]).voice matches Some(b)
                && b is SysEx),
    ensures
        final(list).wf(),
        (final(list).events@, final(list).pool@) == with_packets(
            (old(list).events@, old(list).pool@),
            packets@,
            packets@.len() as int,
        ),
{
    let ghost start = (list.events@, list.pool@);
    let mut i: usize = 0;
    while i < packets.len()
        invariant
            i <= packets@.len(),
            list.wf(),
            forall|k: int|
                0 <= k < packets@.len() ==> !((#[trigger] packets@[k]).voice matches Some(b)
                    && b is SysEx),
            (list.events@, list.pool@) == with_packets(start, packets@, i as int),
        decreases packets@.len() - i,
    {
        let packet: &AuPacketIn = &packets[i];
        let kind: u32 = packet.event.words[0] / 0x1000_0000;
        if kind == 4 {
            if let Some(body) = packet.voice {
                list.push(Event::new(packet.event.sample_offset, body));
            }
        } else if kind == 3 || kind == 5 {
            if let Some(bytes) = &packet.payload {
                let _ = list.push_sysex(packet.event.sample_offset, bytes.as_slice());
            }
        }
        i = i + 1;
    }
}

fn push_automation(list: &mut EventList, automation: &Vec<AuParamEvent>)
    requires
        old(list).wf(),
    ensures
        final(list).wf(),
        final(list).events@ == old(list).events@ + automation@.map_values(
            |pe: AuParamEvent| param_event(pe),
        ),
        final(list).pool == old(list).pool,
{
    let ghost start = list.events@;
    let ghost all = automation@.map_values(|pe: AuParamEvent| param_event(pe));
    let mut i: usize = 0;
    proof {
        assert(start + all.take(0) =~= start);
    }
    while i < automation.len()
        invariant
            i <= automation@.len(),
            list.wf(),
            list.pool == old(list).pool,
            all == automation@.map_values(|pe: AuParamEvent| param_event(pe)),
            list.events@ == start + all.take(i as int),
        decreases automation@.len() - i,
    {
        let pe: AuParamEvent = automation[i];
        list.push(
            Event::new(
                pe.sample_offset,
                EventBody::ParamChange { id: pe.param_id, value: pe.value },
            ),
        );
        i = i + 1;
        proof {
            assert(list.events@ =~= start + all.take(i as int));
        }
    }
    proof {
        assert(all.take(i as int) =~= all);
    }
}

/// Parameter changes that a plugin made while processing, on their way to the
/// thread that tells the host.
pub struct ParamNotifier {
    pub queue: ArrayQueue<(u8, u32, u64)>,
    /// The host has still to hear of a change of latency.
    pub latency_dirty: bool,
}

pub open spec fn notice(id: u32, value: u64) -> Item {
    (0, id, value)
}

/// The waiting notices with those of some events behind them, as far as the
/// queue takes them.
pub open spec fn noticed(waiting: Seq<Item>, capacity: nat, events: Seq<Event>) -> Seq<Item>
    decreases events.len(),
{
    if events.len() == 0 {
        waiting
    } else {
        let before = noticed(waiting, capacity, events.drop_last());
        match events.last().body {
            EventBody::ParamChange { id, value } => if before.len() < capacity {
                before.push(notice(id, value))
            } else {
                before
            },
            _ => before,
        }
    }
}

impl ParamNotifier {
    pub open spec fn waiting(&self) -> Seq<Item> {
        queued(self.queue)
    }

    pub open spec fn capacity(&self) -> nat {
        queue_capacity(self.queue)
    }

    pub fn new() -> (r: Self)
        ensures
            r.waiting().len() == 0,
            r.capacity() == EVENT_LIST_PREALLOC,
            !r.latency_dirty,
    {
        ParamNotifier { queue: queue_new(EVENT_LIST_PREALLOC), latency_dirty: false }
    }

    /// Notes a change of latency. Whether the notifying thread has to wake comes
    /// back: it does not where it has to hear of a change already.
    pub fn notify_latency(&mut self) -> (wake: bool)
        ensures
            final(self).latency_dirty,
            wake == !old(self).latency_dirty,
            final(self).queue == old(self).queue,
    {
        let wake: bool = !self.latency_dirty;
        self.latency_dirty = true;
        wake
    }

    /// Takes out all that the host has to be told: whether the latency changed, and
    /// the changes of parameters, the oldest first.
    pub fn drain(&mut self) -> (r: (bool, Vec<(u8, u32, u64)>))
        ensures
            r.0 == old(self).latency_dirty,
            r.1@ == old(self).waiting(),
            !final(self).latency_dirty,
            final(self).waiting().len() == 0,
            final(self).capacity() == old(self).capacity(),
    {
        let latency: bool = self.latency_dirty;
        self.latency_dirty = false;
        (latency, take_all(&mut self.queue))
    }

    /// Queues the parameter changes of a block's output; one that finds the
    /// queue full is dropped. Whether any was queued, and the notifying thread
    /// has to wake, comes back.
    pub fn push_changes(&mut self, output: &EventList) -> (wake: bool)
        ensures
            final(self).capacity() == old(self).capacity(),
            final(self).latency_dirty == old(self).latency_dirty,
            final(self).waiting() == noticed(
                old(self).waiting(),
                old(self).capacity(),
                output.events@,
            ),
            wake == (final(self).waiting().len() > old(self).waiting().len()),
    {
        let ghost start = self.waiting();
        let ghost capacity = self.capacity();
        let mut pushed: bool = false;
        let mut i: usize = 0;
        while i < output.events.len()
            invariant
                i <= output.events@.len(),
                self.capacity() == capacity,
                self.latency_dirty == old(self).latency_dirty,
                self.waiting() == noticed(start, capacity, output.events@.take(i as int)),
                self.waiting().len() >= start.len(),
                pushed == (self.waiting().len() > start.len()),
            decreases output.events@.len() - i,
        {
            proof {
                assert(output.events@.take(i + 1).drop_last() =~= output.events@.take(i as int));
            }
            if let EventBody::ParamChange { id, value } = output.events[i].body {
                if queue_push(&mut self.queue, (0, id, value)).is_ok() {
                    pushed = true;
                }
            }
            i = i + 1;
        }
        proof {
            assert(output.events@.take(i as int) =~= output.events@);
        }
        pushed
    }
}

/// What the wrapper keeps of one plugin instance from block to block.
pub struct AuInstance {
    pub event_list: EventList,
    pub output_events: EventList,
    pub sub_event_scratch: EventList,
    pub ump_drain_cursor: UmpDrainCursor,
    /// System-exclusive input was queued ahead of the next block.
    pub sysex_inputs_pending: bool,
    pub param_infos: Vec<ParamInfo>,
    pub min_subblock_samples: u32,
    pub pending_state: StateLoadQueue,
    pub latency_cache: u32,
    pub tail_cache: u32,
    /// The host has prepared the plugin for rendering.
    pub prepared: bool,
    pub param_notify: Option<ParamNotifier>,
}

impl AuInstance {
    pub fn new(
        param_infos: Vec<ParamInfo>,
        min_subblock_samples: u32,
        latency: u32,
        tail: u32,
    ) -> (r: Self)
        ensures
            r.wf(),
            r.event_list.events@.len() == 0,
            r.output_events.events@.len() == 0,
            r.sub_event_scratch.events@.len() == 0,
            r.event_list.pool@.len() == 0,
            r.output_events.pool@.len() == 0,
            r.sub_event_scratch.pool@.len() == 0,
            r.ump_drain_cursor == UmpDrainCursor::head(),
            !r.sysex_inputs_pending,
            r.param_infos == param_infos,
            r.min_subblock_samples == min_subblock_samples,
            r.pending_state.pending is None,
            r.latency_cache == latency,
            r.tail_cache == tail,
            !r.prepared,
            r.param_notify is None,
    {
        AuInstance {
            event_list: EventList::with_capacity(EVENT_LIST_PREALLOC),
            output_events: EventList::with_capacity(EVENT_LIST_PREALLOC),
            sub_event_scratch: EventList::with_capacity(EVENT_LIST_PREALLOC),
            ump_drain_cursor: UmpDrainCursor::at_head(),
            sysex_inputs_pending: false,
            param_infos,
            min_subblock_samples,
            pending_state: StateLoadQueue::new(),
            latency_cache: latency,
            tail_cache: tail,
            prepared: false,
            param_notify: None,
        }
    }

    pub open spec fn wf(&self) -> bool {
        &&& self.event_list.wf()
        &&& self.output_events.wf()
    }

    /// The events that a block starts with: input queued ahead of it, or none.
    pub open spec fn carried(&self) -> (Seq<Event>, Seq<u8>) {
        if self.sysex_inputs_pending {
            (self.event_list.events@, self.event_list.pool@)
        } else {
            (Seq::empty(), Seq::empty())
        }
    }
}

/// Queues system-exclusive input ahead of the next block. The first message
/// clears the events of the block before it; one without bytes is ignored.
pub fn push_sysex_input(instance: &mut AuInstance, sample_offset: u32, bytes: &[u8])
    requires
        old(instance).wf(),
    ensures
        final(instance).wf(),
        bytes@.len() == 0 ==> *final(instance) == *old(instance),
        bytes@.len() > 0 ==> final(instance).sysex_inputs_pending && (
            final(instance).event_list.events@,
            final(instance).event_list.pool@,
        ) == push_payload(
            old(instance).carried().0,
            old(instance).carried().1,
            sample_offset,
            0,
            bytes@,
        ),
        *final(instance) == (AuInstance {
            event_list: final(instance).event_list,
            sysex_inputs_pending: final(instance).sysex_inputs_pending,
            ..*old(instance)
        }),
{
    if bytes.len() == 0 {
        return ;
    }
    if !instance.sysex_inputs_pending {
        instance.event_list.clear();
        instance.sysex_inputs_pending = true;
    }
    let _ = instance.event_list.push_sysex(sample_offset, bytes);
}

/// One render call of the host.
pub struct AuBlock {
    pub num_frames: u32,
    pub events: Vec<AuMidiEvent>,
    pub events2: Vec<AuPacketIn>,
    pub param_events: Vec<AuParamEvent>,
    pub transport: Option<HostTransport>,
}

/// What a render call came to.
pub struct AuBlockResult {
    /// The plugin did not run: the host's buffers are to be silenced.
    pub silenced: bool,
    /// The transport that the editor is shown.
    pub transport: Option<TransportInfo>,
    /// The thread that tells the host of changes has to wake.
    pub wake_notifier: bool,
    /// The host has to be told of another latency.
    pub latency_changed: bool,
    pub load_error: Option<StateLoadError>,
}

/// The events of a render call, unsorted.
pub open spec fn block_events(instance: AuInstance, block: AuBlock) -> (Seq<Event>, Seq<u8>) {
    collected(instance.carried(), block.events@, block.events2@, block.param_events@)
}

/// The render callback.
///
/// Before the host prepared the plugin, its buffers are silenced and its events
/// dropped. Otherwise a pending state is applied first; the block then runs in
/// sub-blocks with everything that the host sent, sorted by sample. Parameter
/// changes that the plugin made are queued for the host.
pub fn cb_process<P: PluginRuntime>(
    instance: &mut AuInstance,
    plugin: &mut P,
    block: &AuBlock,
) -> (r: AuBlockResult)
    requires
        old(instance).wf(),
        forall|i: int|
            0 <= i < block.events2@.len() ==> !((#[trigger] block.events2@[i]).voice matches Some(b)
                && b is SysEx),
        old(instance).prepared ==> can_walk(
            block_events(*old(instance), *block).0,
            old(instance).param_infos@,
            block.num_frames as int,
            old(instance).min_subblock_samples as int,
        ),
    ensures
        final(instance).wf(),
        r.silenced == !old(instance).prepared,
        !final(instance).sysex_inputs_pending,
        final(instance).prepared == old(instance).prepared,
        final(instance).param_infos == old(instance).param_infos,
        final(instance).min_subblock_samples == old(instance).min_subblock_samples,
        !old(instance).prepared ==> {
            &&& final(plugin).trace() == old(plugin).trace()
            &&& final(instance).event_list.events@.len() == 0
            &&& final(instance).event_list.pool@.len() == 0
            &&& *final(instance) == (AuInstance {
                event_list: final(instance).event_list,
                sysex_inputs_pending: false,
                ..*old(instance)
            })
            &&& r.transport is None
            &&& !r.wake_notifier
            &&& !r.latency_changed
            &&& r.load_error is None
        },
        old(instance).prepared ==> {
            let inputs = block_events(*old(instance), *block);
            let applied = pending_calls(old(instance).pending_state.pending, r.load_error);
            let calls = final(plugin).trace().skip(
                (old(plugin).trace() + applied).len() as int,
            );
            let output = final(instance).output_events;
            &&& can_fail(old(instance).pending_state.pending, r.load_error)
            &&& final(instance).pending_state.pending is None
            &&& stably_sorted(inputs.0, final(instance).event_list.events@)
            &&& final(instance).event_list.pool@ == inputs.1
            &&& final(plugin).trace() == old(plugin).trace() + applied + calls
            &&& exists|end: Progress|
                {
                    &&& #[trigger] walks(
                        block_of(
                            final(instance).event_list,
                            old(instance).param_infos@,
                            block.num_frames as int,
                            old(instance).min_subblock_samples as int,
                        ),
                        start_of(host_transport(block.transport), (Seq::empty(), Seq::empty())),
                        calls,
                        end,
                    )
                    &&& end.out == (output.events@, output.pool@)
                }
            &&& final(instance).ump_drain_cursor == UmpDrainCursor::head()
            &&& r.transport == Some(host_transport(block.transport))
            &&& final(instance).latency_cache == final(plugin).reported_latency()
            &&& final(instance).tail_cache == final(plugin).reported_tail()
            &&& r.latency_changed == (final(instance).latency_cache != old(
                instance,
            ).latency_cache && old(instance).param_notify is Some)
            &&& match old(instance).param_notify {
                None => final(instance).param_notify is None && !r.wake_notifier,
                Some(notifier) => final(instance).param_notify matches Some(after)
                    && after.waiting() == noticed(
                    notifier.waiting(),
                    notifier.capacity(),
                    output.events@,
                ) && after.capacity() == notifier.capacity() && after.latency_dirty == (
                notifier.latency_dirty || r.latency_changed) && r.wake_notifier == (
                after.waiting().len() > notifier.waiting().len() || (r.latency_changed
                    && !notifier.latency_dirty)),
            }
        },
{
    if !instance.prepared {
        instance.event_list.clear();
        instance.sysex_inputs_pending = false;
        return AuBlockResult {
            silenced: true,
            transport: None,
            wake_notifier: false,
            latency_changed: false,
            load_error: None,
        };
    }
    let ghost trace0 = plugin.trace();
    let mut load_error: Option<StateLoadError> = None;
    if let Some(state) = instance.pending_state.pop() {
        load_error = apply_state(plugin, &state);
    }
    let ghost applied = pending_calls(old(instance).pending_state.pending, load_error);
    let ghost trace1 = plugin.trace();
    proof {
        assert(trace1 =~= trace0 + applied);
    }
    if instance.sysex_inputs_pending {
        instance.sysex_inputs_pending = false;
    } else {
        instance.event_list.clear();
    }
    proof {
        assert((instance.event_list.events@, instance.event_list.pool@) == old(
            instance,
        ).carried());
    }
    push_messages(&mut instance.event_list, &block.events);
    push_packets(&mut instance.event_list, &block.events2);
    push_automation(&mut instance.event_list, &block.param_events);
    let ghost unsorted = (instance.event_list.events@, instance.event_list.pool@);
    proof {
        assert(unsorted == block_events(*old(instance), *block));
    }
    instance.event_list.sort();
    let transport: TransportInfo = read_transport(&block.transport);
    instance.output_events.clear();
    instance.ump_drain_cursor = UmpDrainCursor::at_head();
    let mut transport_snap: TransportInfo = transport;
    proof {
        lemma_sorting_keeps_walkable(
            unsorted.0,
            instance.event_list.events@,
            instance.param_infos@,
            block.num_frames as int,
            instance.min_subblock_samples as int,
        );
    }
    let ghost none: (Seq<Event>, Seq<u8>) = (Seq::empty(), Seq::empty());
    let ghost the_block = block_of(
        instance.event_list,
        instance.param_infos@,
        block.num_frames as int,
        instance.min_subblock_samples as int,
    );
    proof {
        assert((instance.output_events.events@, instance.output_events.pool@) == none);
    }
    let _ = process_chunked(
        plugin,
        &instance.event_list,
        &mut instance.sub_event_scratch,
        &mut transport_snap,
        &mut instance.output_events,
        &instance.param_infos,
        block.num_frames as usize,
        instance.min_subblock_samples,
    );
    let ghost calls = plugin.trace().skip(trace1.len() as int);
    let ghost end = choose|end: Progress|
        {
            &&& #[trigger] walks(the_block, start_of(transport, none), calls, end)
            &&& end.out == (instance.output_events.events@, instance.output_events.pool@)
        };
    proof {
        assert(walks(the_block, start_of(transport, none), calls, end));
        assert(plugin.trace() =~= trace1 + calls);
    }
    let prev_latency: u32 = instance.latency_cache;
    instance.latency_cache = plugin.latency();
    instance.tail_cache = plugin.tail();
    let mut wake_notifier: bool = false;
    let mut latency_changed: bool = false;
    if let Some(mut notifier) = instance.param_notify.take() {
        wake_notifier = notifier.push_changes(&instance.output_events);
        if prev_latency != instance.latency_cache {
            latency_changed = true;
            if notifier.notify_latency() {
                wake_notifier = true;
            }
        }
        instance.param_notify = Some(notifier);
    }
    proof {
        assert(trace1.len() == (old(plugin).trace() + applied).len());
        assert(plugin.trace() == old(plugin).trace() + applied + calls);
        assert(block_of(
            instance.event_list,
            old(instance).param_infos@,
            block.num_frames as int,
            old(instance).min_subblock_samples as int,
        ) == the_block);
    }
    AuBlockResult {
        silenced: false,
        transport: Some(transport),
        wake_notifier,
        latency_changed,
        load_error,
    }
}

/// The three-byte packet for an event; what only MIDI 2.0 has is converted down
/// first. Events that no such packet can carry have none.
pub open spec fn au_packet(event: Event) -> Option<AuMidiEvent> {
    let body = match downconverted(event.body) {
        Some(low) => low,
        None => event.body,
    };
    match short_message(body) {
        Some((status, data1, data2)) => Some(
            AuMidiEvent {
                sample_offset: event.sample_offset,
                status,
                data1,
                data2,
                port: event.port,
            },
        ),
        None => None,
    }
}

pub fn try_encode_au_midi(event: &Event) -> (r: Option<AuMidiEvent>)
    ensures
        r == au_packet(*event),
{
    let body: EventBody = match downconvert_to_midi1(&event.body) {
        Some(low) => low,
        None => event.body,
    };
    match encode_short_message(&body) {
        Some((status, data1, data2)) => Some(
            AuMidiEvent {
                sample_offset: event.sample_offset,
                status,
                data1,
                data2,
                port: event.port,
            },
        ),
        None => None,
    }
}

/// The packets for some events, in their order.
pub open spec fn au_packets(events: Seq<Event>) -> Seq<AuMidiEvent>
    decreases events.len(),
{
    if events.len() == 0 {
        Seq::empty()
    } else {
        match au_packet(events.last()) {
            Some(packet) => au_packets(events.drop_last()).push(packet),
            None => au_packets(events.drop_last()),
        }
    }
}

proof fn lemma_au_packets_prefix(events: Seq<Event>, n: int)
    requires
        0 <= n <= events.len(),
    ensures
        au_packets(events.take(n)).len() <= n,
        au_packets(events.take(n)).len() <= au_packets(events).len(),
        forall|k: int|
            0 <= k < au_packets(events.take(n)).len() ==> au_packets(events.take(n))[k]
                == #[trigger] au_packets(events)[k],
    decreases events.len(),
{
    if n == events.len() {
        assert(events.take(n) =~= events);
        if n > 0 {
            lemma_au_packets_prefix(events.drop_last(), n - 1);
            assert(events.drop_last().take(n - 1) =~= events.drop_last());
        }
    } else {
        lemma_au_packets_prefix(events.drop_last(), n);
        assert(events.drop_last().take(n) =~= events.take(n));
    }
}

/// How many packets a host can drain.
pub fn output_event_count(list: &EventList) -> (r: u32)
    requires
        list.events@.len() <= u32::MAX,
    ensures
        r == au_packets(list.events@).len(),
{
    let mut n: u32 = 0;
    let mut i: usize = 0;
    while i < list.events.len()
        invariant
            i <= list.events@.len() <= u32::MAX,
            n <= i,
            n == au_packets(list.events@.take(i as int)).len(),
        decreases list.events@.len() - i,
    {
        proof {
            assert(list.events@.take(i + 1).drop_last() =~= list.events@.take(i as int));
        }
        if try_encode_au_midi(&list.events[i]).is_some() {
            n = n + 1;
        }
        i = i + 1;
    }
    proof {
        assert(list.events@.take(i as int) =~= list.events@);
    }
    n
}

/// The output port of an event: its own, or the first where the plugin has no
/// such port.
pub open spec fn routed(port: u8, ports: u8) -> u8 {
    if port < ports {
        port
    } else {
        0
    }
}

pub fn route_midi_port(port: u8, ports: u8) -> (r: u8)
    ensures
        r == routed(port, ports),
{
    if port < ports {
        port
    } else {
        0
    }
}

/// The packet at an index, on the port that it goes out on.
pub fn output_event_at(list: &EventList, index: u32, output_ports: u8) -> (r: Option<AuMidiEvent>)
    ensures
        r == if index < au_packets(list.events@).len() {
            let packet = au_packets(list.events@)[index as int];
            Some(AuMidiEvent { port: routed(packet.port, output_ports), ..packet })
        } else {
            None
        },
{
    let mut n: u64 = 0;
    let mut i: usize = 0;
    while i < list.events.len()
        invariant
            i <= list.events@.len(),
            n <= index,
            n == au_packets(list.events@.take(i as int)).len(),
        decreases list.events@.len() - i,
    {
        proof {
            assert(list.events@.take(i + 1).drop_last() =~= list.events@.take(i as int));
            lemma_au_packets_prefix(list.events@, i + 1);
        }
        if let Some(packet) = try_encode_au_midi(&list.events[i]) {
            if n == index as u64 {
                proof {
                    assert(au_packets(list.events@.take(i + 1))[n as int] == packet);
                    assert(au_packets(list.events@)[n as int] == packet);
                }
                return Some(
                    AuMidiEvent {
                        sample_offset: packet.sample_offset,
                        status: packet.status,
                        data1: packet.data1,
                        data2: packet.data2,
                        port: route_midi_port(packet.port, output_ports),
                    },
                );
            }
            n = n + 1;
        }
        i = i + 1;
    }
    proof {
        assert(list.events@.take(i as int) =~= list.events@);
    }
    None
}

/// The protocol that a packet stream is declared in.
#[derive(Clone, Copy, Debug, PartialEq, Eq, Structural)]
pub enum UmpProtocol {
    Midi1,
    Midi2,
}

impl UmpProtocol {
    /// Reads the number that stands for a protocol; an unknown one is MIDI 2.0.
    pub fn from_wire(protocol: u32) -> (r: Self)
        ensures
            r == if protocol == 1 {
                UmpProtocol::Midi1
            } else {
                UmpProtocol::Midi2
            },
    {
        if protocol == 1 {
            UmpProtocol::Midi1
        } else {
            UmpProtocol::Midi2
        }
    }
}

/// The packets that an event encodes to: as channel voice of either protocol,
/// natively or once converted, and as the packets of its payload.
pub struct UmpForms {
    pub native1: Option<[u32; 4]>,
    pub converted1: Option<[u32; 4]>,
    pub native2: Option<[u32; 4]>,
    pub converted2: Option<[u32; 4]>,
    pub sysex7: Vec<[u32; 2]>,
}

/// The words of an event's channel voice in a protocol: its native form, or the
/// converted one. A stream never mixes the two protocols.
pub open spec fn voice_words(forms: UmpForms, protocol: UmpProtocol) -> Option<[u32; 4]> {
    match protocol {
        UmpProtocol::Midi2 => match forms.native2 {
            Some(words) => Some(words),
            None => forms.converted2,
        },
        UmpProtocol::Midi1 => match forms.native1 {
            Some(words) => Some(words),
            None => forms.converted1,
        },
    }
}

pub open spec fn voice_len(protocol: UmpProtocol) -> u8 {
    match protocol {
        UmpProtocol::Midi2 => 2,
        UmpProtocol::Midi1 => 1,
    }
}

pub open spec fn no_reserve() -> [u8; 2] {
    [0u8, 0u8]
}

/// The channel voice packet of an event, where it has one in the protocol.
pub open spec fn ump_voice(event: Event, forms: UmpForms, protocol: UmpProtocol) -> Option<
    AuUmpEvent,
> {
    match voice_words(forms, protocol) {
        Some(words) => Some(
            AuUmpEvent {
                sample_offset: event.sample_offset,
                cable: event.port,
                word_count: voice_len(protocol),
                reserved: no_reserve(),
                words,
            },
        ),
        None => None,
    }
}

pub fn try_encode_au_ump(event: &Event, forms: &UmpForms, protocol: UmpProtocol) -> (r: Option<
    AuUmpEvent,
>)
    ensures
        r == ump_voice(*event, *forms, protocol),
{
    let (word_count, words): (u8, Option<[u32; 4]>) = match protocol {
        UmpProtocol::Midi2 => (
            2,
            match forms.native2 {
                Some(words) => Some(words),
                None => forms.converted2,
            },
        ),
        UmpProtocol::Midi1 => (
            1,
            match forms.native1 {
                Some(words) => Some(words),
                None => forms.converted1,
            },
        ),
    };
    match words {
        Some(words) => Some(
            AuUmpEvent {
                sample_offset: event.sample_offset,
                cable: event.port,
                word_count,
                reserved: [0u8, 0u8],
                words,
            },
        ),
        None => None,
    }
}

/// The packet for two words of an event's payload.
pub open spec fn sysex_packet(event: Event, words: [u32; 2]) -> AuUmpEvent {
    AuUmpEvent {
        sample_offset: event.sample_offset,
        cable: event.port,
        word_count: 2,
        reserved: no_reserve(),
        words: [words@[0], words@[1], 0u32, 0u32],
    }
}

/// The packets that one event adds to the stream.
pub open spec fn ump_packets_of(event: Event, forms: UmpForms, protocol: UmpProtocol) -> Seq<
    AuUmpEvent,
> {
    if event.body is SysEx {
        forms.sysex7@.map_values(|words: [u32; 2]| sysex_packet(event, words))
    } else {
        match ump_voice(event, forms, protocol) {
            Some(packet) => seq![packet],
            None => Seq::empty(),
        }
    }
}

pub fn au_ump_packet_count(event: &Event, forms: &UmpForms, protocol: UmpProtocol) -> (r: usize)
    ensures
        r == ump_packets_of(*event, *forms, protocol).len(),
{
    if let EventBody::SysEx { .. } = event.body {
        forms.sysex7.len()
    } else if try_encode_au_ump(event, forms, protocol).is_some() {
        1
    } else {
        0
    }
}

/// The packet stream of the first `n` events.
pub open spec fn ump_stream(
    events: Seq<Event>,
    forms: Seq<UmpForms>,
    protocol: UmpProtocol,
    n: int,
) -> Seq<AuUmpEvent>
    decreases n,
{
    if n <= 0 {
        Seq::empty()
    } else {
        ump_stream(events, forms, protocol, n - 1) + ump_packets_of(
            events[n - 1],
            forms[n - 1],
            protocol,
        )
    }
}

/// Where a sequential drain of the packet stream resumes: the packets of the
/// events before a position, for one protocol.
#[derive(Clone, Copy, Debug, PartialEq, Eq)]
pub struct UmpDrainCursor {
    pub packets_before: usize,
    pub event_pos: usize,
    pub protocol: UmpProtocol,
}

impl UmpDrainCursor {
    pub open spec fn head() -> UmpDrainCursor {
        UmpDrainCursor { packets_before: 0, event_pos: 0, protocol: UmpProtocol::Midi2 }
    }

    /// The head of the stream.
    pub fn at_head() -> (r: Self)
        ensures
            r == UmpDrainCursor::head(),
    {
        UmpDrainCursor { packets_before: 0, event_pos: 0, protocol: UmpProtocol::Midi2 }
    }

    /// The cursor belongs to this stream.
    pub open spec fn fits(&self, events: Seq<Event>, forms: Seq<UmpForms>) -> bool {
        &&& self.event_pos <= events.len()
        &&& self.packets_before == ump_stream(
            events,
            forms,
            self.protocol,
            self.event_pos as int,
        ).len()
    }
}

proof fn lemma_stream_prefix(
    events: Seq<Event>,
    forms: Seq<UmpForms>,
    protocol: UmpProtocol,
    m: int,
    n: int,
)
    requires
        0 <= m <= n,
    ensures
        ump_stream(events, forms, protocol, m).len() <= ump_stream(
            events,
            forms,
            protocol,
            n,
        ).len(),
        forall|k: int|
            0 <= k < ump_stream(events, forms, protocol, m).len() ==> ump_stream(
                events,
                forms,
                protocol,
                m,
            )[k] == #[trigger] ump_stream(events, forms, protocol, n)[k],
    decreases n - m,
{
    if m < n {
        lemma_stream_prefix(events, forms, protocol, m, n - 1);
    }
}

/// The packet at an index of the stream. The walk resumes at the cursor where
/// the query goes forward in the same protocol, and restarts at the head
/// otherwise; what comes back does not depend on it.
pub fn au_ump_packet_at(
    list: &EventList,
    forms: &Vec<UmpForms>,
    index: usize,
    protocol: UmpProtocol,
    cursor: &mut UmpDrainCursor,
) -> (r: Option<AuUmpEvent>)
    requires
        forms@.len() == list.events@.len(),
        old(cursor).fits(list.events@, forms@),
    ensures
        final(cursor).fits(list.events@, forms@),
        ({
            let stream = ump_stream(
                list.events@,
                forms@,
                protocol,
                list.events@.len() as int,
            );
            r == if index < stream.len() {
                Some(stream[index as int])
            } else {
                None
            }
        }),
{
    if protocol != cursor.protocol || index < cursor.packets_before {
        *cursor = UmpDrainCursor { packets_before: 0, event_pos: 0, protocol };
    }
    let ghost events = list.events@;
    let mut remaining: usize = index - cursor.packets_before;
    let mut pos: usize = cursor.event_pos;
    while pos < list.events.len()
        invariant
            pos <= events.len(),
            events == list.events@,
            forms@.len() == events.len(),
            remaining <= index,
            index - remaining == ump_stream(events, forms@, protocol, pos as int).len(),
            cursor.fits(events, forms@),
        decreases events.len() - pos,
    {
        let event: Event = list.events[pos];
        let n: usize = au_ump_packet_count(&event, &forms[pos], protocol);
        proof {
            lemma_stream_prefix(events, forms@, protocol, pos + 1, events.len() as int);
        }
        if remaining < n {
            cursor.event_pos = pos;
            cursor.packets_before = index - remaining;
            cursor.protocol = protocol;
            let ghost packet = ump_packets_of(event, forms@[pos as int], protocol)[remaining as int];
            proof {
                assert(ump_stream(events, forms@, protocol, pos + 1)[index as int] == packet);
                assert(ump_stream(events, forms@, protocol, events.len() as int)[index as int]
                    == packet);
            }
            if let EventBody::SysEx { .. } = event.body {
                let words: [u32; 2] = forms[pos].sysex7[remaining];
                return Some(
                    AuUmpEvent {
                        sample_offset: event.sample_offset,
                        cable: event.port,
                        word_count: 2,
                        reserved: [0u8, 0u8],
                        words: [words[0], words[1], 0u32, 0u32],
                    },
                );
            }
            return try_encode_au_ump(&event, &forms[pos], protocol);
        }
        remaining = remaining - n;
        pos = pos + 1;
    }
    None
}

/// How many packets the stream of a protocol holds.
pub fn output_ump_count(list: &EventList, forms: &Vec<UmpForms>, protocol: u32) -> (r: u32)
    requires
        forms@.len() == list.events@.len(),
        ump_stream(
            list.events@,
            forms@,
            if protocol == 1 {
                UmpProtocol::Midi1
            } else {
                UmpProtocol::Midi2
            },
            list.events@.len() as int,
        ).len() <= u32::MAX,
    ensures
        r == ump_stream(
            list.events@,
            forms@,
            if protocol == 1 {
                UmpProtocol::Midi1
            } else {
                UmpProtocol::Midi2
            },
            list.events@.len() as int,
        ).len(),
{
    let protocol: UmpProtocol = UmpProtocol::from_wire(protocol);
    let ghost events = list.events@;
    let mut n: u32 = 0;
    let mut i: usize = 0;
    while i < list.events.len()
        invariant
            i <= events.len(),
            events == list.events@,
            forms@.len() == events.len(),
            ump_stream(events, forms@, protocol, events.len() as int).len() <= u32::MAX,
            n == ump_stream(events, forms@, protocol, i as int).len(),
        decreases events.len() - i,
    {
        proof {
            lemma_stream_prefix(events, forms@, protocol, i + 1, events.len() as int);
        }
        n = n + au_ump_packet_count(&list.events[i], &forms[i], protocol) as u32;
        i = i + 1;
    }
    n
}

/// The packet at an index of a protocol's stream, on the cable that it goes out
/// on.
pub fn output_ump_at(
    list: &EventList,
    forms: &Vec<UmpForms>,
    protocol: u32,
    index: u32,
    cursor: &mut UmpDrainCursor,
    output_ports: u8,
) -> (r: Option<AuUmpEvent>)
    requires
        forms@.len() == list.events@.len(),
        old(cursor).fits(list.events@, forms@),
    ensures
        final(cursor).fits(list.events@, forms@),
        ({
            let stream = ump_stream(
                list.events@,
                forms@,
                if protocol == 1 {
                    UmpProtocol::Midi1
                } else {
                    UmpProtocol::Midi2
                },
                list.events@.len() as int,
            );
            r == if index < stream.len() {
                let packet = stream[index as int];
                Some(AuUmpEvent { cable: routed(packet.cable, output_ports), ..packet })
            } else {
                None
            }
        }),
{
    match au_ump_packet_at(list, forms, index as usize, UmpProtocol::from_wire(protocol), cursor) {
        Some(packet) => Some(
            AuUmpEvent {
                sample_offset: packet.sample_offset,
                cable: route_midi_port(packet.cable, output_ports),
                word_count: packet.word_count,
                reserved: packet.reserved,
                words: packet.words,
            },
        ),
        None => None,
    }
}

/// A packet stream stays in its protocol: each channel voice packet has the
/// length of that protocol's, and an event without a form in it is left out.
pub proof fn law_stream_keeps_its_protocol(
    events: Seq<Event>,
    forms: Seq<UmpForms>,
    protocol: UmpProtocol,
    n: int,
    k: int,
)
    requires
        0 <= n <= events.len(),
        forms.len() == events.len(),
        0 <= k < ump_stream(events, forms, protocol, n).len(),
    ensures
        exists|i: int|
            0 <= i < n && ((#[trigger] events[i]).body is SysEx || ump_voice(
                events[i],
                forms[i],
                protocol,
            ) == Some(ump_stream(events, forms, protocol, n)[k])) && ump_packets_of(
                events[i],
                forms[i],
                protocol,
            ).contains(ump_stream(events, forms, protocol, n)[k]),
    decreases n,
{
    let before = ump_stream(events, forms, protocol, n - 1);
    if n > 0 {
        let own = ump_packets_of(events[n - 1], forms[n - 1], protocol);
        if k < before.len() {
            law_stream_keeps_its_protocol(events, forms, protocol, n - 1, k);
        } else {
            assert(own[k - before.len()] == ump_stream(events, forms, protocol, n)[k]);
            assert(own.contains(ump_stream(events, forms, protocol, n)[k]));
            let _ = events[n - 1];
        }
    }
}

/// What a host is told of a parameter.
pub struct AuParamDescriptor {
    pub id: u32,
    pub name: String,
    pub min: u64,
    pub max: u64,
    pub default_value: u64,
    pub step_count: u32,
    pub unit: String,
    pub group: String,
    pub midi_status: u8,
    pub midi_data1: u8,
    pub midi_channel: i16,
}

/// The status byte, without a channel, of the message that drives a parameter.
pub open spec fn source_status(source: MidiSource) -> u8 {
    match source {
        MidiSource::Cc(_) => 0xB0,
        MidiSource::PitchBend => 0xE0,
        MidiSource::ChannelPressure => 0xD0,
        MidiSource::ProgramChange => 0xC0,
    }
}

pub fn midi_status_byte(source: MidiSource) -> (r: u8)
    ensures
        r == source_status(source),
{
    match source {
        MidiSource::Cc(_) => 0xB0,
        MidiSource::PitchBend => 0xE0,
        MidiSource::ChannelPressure => 0xD0,
        MidiSource::ProgramChange => 0xC0,
    }
}

/// A descriptor says what a parameter's metadata says. Without a mapping the
/// MIDI status and number are zero, without a channel the channel is `-1`.
pub open spec fn describes(out: AuParamDescriptor, pi: ParamInfo) -> bool {
    &&& out.id == pi.id
    &&& out.name@ == c_text(pi.name@)
    &&& out.min == pi.min
    &&& out.max == pi.max
    &&& out.default_value == pi.default_plain
    &&& out.step_count == pi.step_count
    &&& out.unit@ == c_text(pi.unit@)
    &&& out.group@ == c_text(pi.group@)
    &&& out.midi_status == match pi.midi_map {
        Some(source) => source_status(source),
        None => 0,
    }
    &&& out.midi_data1 == match pi.midi_map {
        Some(MidiSource::Cc(n)) => n,
        _ => 0,
    }
    &&& out.midi_channel == match pi.midi_channel {
        Some(channel) => channel as int,
        None => -1,
    }
}

fn describe_param(pi: &ParamInfo) -> (r: AuParamDescriptor)
    ensures
        describes(r, *pi),
{
    AuParamDescriptor {
        id: pi.id,
        name: to_c_text(pi.name),
        min: pi.min,
        max: pi.max,
        default_value: pi.default_plain,
        step_count: pi.step_count,
        unit: to_c_text(pi.unit),
        group: to_c_text(pi.group),
        midi_status: match pi.midi_map {
            Some(source) => midi_status_byte(source),
            None => 0,
        },
        midi_data1: match pi.midi_map {
            Some(MidiSource::Cc(n)) => n,
            _ => 0,
        },
        midi_channel: match pi.midi_channel {
            Some(channel) => channel as i16,
            None => -1,
        },
    }
}

/// What a host is told of a plugin.
pub struct AuPluginDescriptor {
    pub component_type: [u8; 4],
    pub component_subtype: [u8; 4],
    pub component_manufacturer: [u8; 4],
    pub name: String,
    pub vendor: String,
    pub version: u32,
    pub num_inputs: u32,
    pub num_outputs: u32,
    pub bypass_param_id: u32,
    pub has_midi_output: i32,
    pub accepts_midi_in: i32,
    pub midi_input_ports: u32,
    pub midi_output_ports: u32,
    pub midi2_input: i32,
    pub midi2_output: i32,
    /// Channels in and out of each layout, where there is more than one.
    pub layout_in_channels: Vec<i16>,
    pub layout_out_channels: Vec<i16>,
    pub num_layouts: u32,
    pub sidechain_in_channels: u32,
}

/// The channels of a layout's first input bus, its main one.
pub open spec fn main_in(layout: BusLayout) -> nat {
    if layout.inputs@.len() == 0 {
        0
    } else {
        layout.inputs@[0].channels.count()
    }
}

/// A channel count as the host takes it: zero where it does not fit.
pub open spec fn short_count(n: nat) -> int {
    if n <= 32767 {
        n as int
    } else {
        0
    }
}

fn main_in_of(layout: &BusLayout) -> (r: u32)
    ensures
        r == main_in(*layout),
{
    if layout.inputs.len() == 0 {
        0
    } else {
        layout.inputs[0].channels.channel_count()
    }
}

fn short_of(n: u32) -> (r: i16)
    ensures
        r == short_count(n as nat),
{
    if n <= 32767 {
        n as i16
    } else {
        0
    }
}

/// A bool as the number that a C interface takes.
pub open spec fn c_bool(b: bool) -> i32 {
    if b {
        1
    } else {
        0
    }
}

fn to_c_bool(b: bool) -> (r: i32)
    ensures
        r == c_bool(b),
{
    if b {
        1
    } else {
        0
    }
}

/// The plugin's name in a host: its own, unless it has one for this format.
pub fn resolved_plugin_name(info: &PluginInfo) -> (r: &'static str)
    ensures
        r == spec_name_override(info.au_name, info.name),
{
    resolve_name_override(info.au_name, info.name)
}

/// Every channel sum of the layouts fits its field.
pub open spec fn layouts_fit(layouts: Seq<BusLayout>) -> bool {
    &&& layouts.len() <= u32::MAX
    &&& forall|i: int|
        0 <= i < layouts.len() ==> total_channels(#[trigger] layouts[i].inputs@) <= u32::MAX
            && total_channels(layouts[i].outputs@) <= u32::MAX
}

proof fn lemma_tail_channels(buses: Seq<BusConfig>)
    requires
        buses.len() > 0,
    ensures
        total_channels(buses.skip(1)) <= total_channels(buses),
    decreases buses.len(),
{
    if buses.len() > 1 {
        lemma_tail_channels(buses.drop_last());
        assert(buses.drop_last().skip(1) =~= buses.skip(1).drop_last());
        assert(buses.skip(1).last() == buses.last());
    } else {
        assert(buses.skip(1) =~= Seq::empty());
    }
}

/// Builds what a host is told of a plugin and its parameters.
///
/// The input width is that of the first layout's main bus; the buses behind it
/// are a side chain. The widths of all layouts are listed where there is more
/// than one.
pub fn register_au_inner(
    info: &PluginInfo,
    param_infos: &Vec<ParamInfo>,
    layouts: &Vec<BusLayout>,
    num_inputs: u32,
    num_outputs: u32,
) -> (r: (AuPluginDescriptor, Vec<AuParamDescriptor>))
    requires
        layouts_fit(layouts@),
    ensures
        r.1@.len() == param_infos@.len(),
        forall|i: int|
            0 <= i < param_infos@.len() ==> describes(#[trigger] r.1@[i], param_infos@[i]),
        ({
            let d = r.0;
            &&& d.component_type == info.au_type
            &&& d.component_subtype == info.fourcc
            &&& d.component_manufacturer == info.au_manufacturer
            &&& d.name@ == c_text(spec_name_override(info.au_name, info.name)@)
            &&& d.vendor@ == c_text(info.vendor@)
            &&& d.version == COMPONENT_VERSION
            &&& d.num_inputs == if layouts@.len() > 0 {
                main_in(layouts@[0])
            } else {
                num_inputs as nat
            }
            &&& d.num_outputs == num_outputs
            &&& d.bypass_param_id == bypass_id(param_infos@)
            &&& d.has_midi_output == c_bool(info.emits_midi)
            &&& d.accepts_midi_in == c_bool(info.accepts_midi_in)
            &&& d.midi_input_ports == info.midi_input_ports
            &&& d.midi_output_ports == info.midi_output_ports
            &&& d.midi2_input == c_bool(info.midi_input_dialect == MidiDialect::Midi2)
            &&& d.midi2_output == c_bool(info.midi_output_dialect == MidiDialect::Midi2)
            &&& d.num_layouts == if layouts@.len() > 1 {
                layouts@.len()
            } else {
                0
            }
            &&& d.layout_in_channels@.len() == d.num_layouts
            &&& d.layout_out_channels@.len() == d.num_layouts
            &&& forall|i: int|
                0 <= i < d.num_layouts ==> (#[trigger] d.layout_in_channels@[i]) == short_count(
                    main_in(layouts@[i]),
                )
            &&& forall|i: int|
                0 <= i < d.num_layouts ==> (#[trigger] d.layout_out_channels@[i]) == short_count(
                    total_channels(layouts@[i].outputs@),
                )
            &&& d.sidechain_in_channels == if layouts@.len() > 0 && layouts@[0].inputs@.len() > 0 {
                total_channels(layouts@[0].inputs@.skip(1))
            } else {
                0
            }
        }),
{
    let mut params: Vec<AuParamDescriptor> = Vec::new();
    let mut i: usize = 0;
    while i < param_infos.len()
        invariant
            i <= param_infos@.len(),
            params@.len() == i,
            forall|k: int| 0 <= k < i ==> describes(#[trigger] params@[k], param_infos@[k]),
        decreases param_infos@.len() - i,
    {
        params.push(describe_param(&param_infos[i]));
        i = i + 1;
    }
    let mut ins: Vec<i16> = Vec::new();
    let mut outs: Vec<i16> = Vec::new();
    let mut num_layouts: u32 = 0;
    if layouts.len() > 1 {
        let mut l: usize = 0;
        while l < layouts.len()
            invariant
                l <= layouts@.len(),
                layouts_fit(layouts@),
                ins@.len() == l,
                outs@.len() == l,
                forall|k: int|
                    0 <= k < l ==> (#[trigger] ins@[k]) == short_count(main_in(layouts@[k])),
                forall|k: int|
                    0 <= k < l ==> (#[trigger] outs@[k]) == short_count(
                        total_channels(layouts@[k].outputs@),
                    ),
            decreases layouts@.len() - l,
        {
            proof {
                assert(total_channels(layouts@[l as int].inputs@) <= u32::MAX);
            }
            ins.push(short_of(main_in_of(&layouts[l])));
            outs.push(short_of(layouts[l].total_output_channels()));
            l = l + 1;
        }
        num_layouts = layouts.len() as u32;
    }
    let mut main_inputs: u32 = num_inputs;
    let mut sidechain: u32 = 0;
    if layouts.len() > 0 {
        main_inputs = main_in_of(&layouts[0]);
        if layouts[0].inputs.len() > 0 {
            proof {
                assert(total_channels(layouts@[0].inputs@) <= u32::MAX);
                lemma_tail_channels(layouts@[0].inputs@);
            }
            sidechain = sum_channels(&layouts[0].inputs, 1);
        }
    }
    let midi2_in: bool = match info.midi_input_dialect {
        MidiDialect::Midi2 => true,
        MidiDialect::Midi1 => false,
    };
    let midi2_out: bool = match info.midi_output_dialect {
        MidiDialect::Midi2 => true,
        MidiDialect::Midi1 => false,
    };
    (
        AuPluginDescriptor {
            component_type: info.au_type,
            component_subtype: info.fourcc,
            component_manufacturer: info.au_manufacturer,
            name: to_c_text(resolved_plugin_name(info)),
            vendor: to_c_text(info.vendor),
            version: COMPONENT_VERSION,
            num_inputs: main_inputs,
            num_outputs,
            bypass_param_id: find_bypass_id(param_infos),
            has_midi_output: to_c_bool(info.emits_midi),
            accepts_midi_in: to_c_bool(info.accepts_midi_in),
            midi_input_ports: info.midi_input_ports as u32,
            midi_output_ports: info.midi_output_ports as u32,
            midi2_input: to_c_bool(midi2_in),
            midi2_output: to_c_bool(midi2_out),
            layout_in_channels: ins,
            layout_out_channels: outs,
            num_layouts,
            sidechain_in_channels: sidechain,
        },
        params,
    )
}

/// A short message that a host sends says what the three bytes say, at its own sample and
/// on the first port, behind what came before it; one that says nothing is left out.
pub proof fn law_short_messages_say_what_their_bytes_say(
    list: (Seq<Event>, Seq<u8>),
    messages: Seq<AuMidiEvent>,
    n: int,
)
    requires
        0 < n <= messages.len(),
    ensures
        ({
            let before = with_messages(list, messages, n - 1);
            let ev = messages[n - 1];
            with_messages(list, messages, n) == match parsed(
                0,
                seq![ev.status, ev.data1, ev.data2],
            ) {
                Some(body) => (
                    before.0.push(Event { sample_offset: ev.sample_offset, port: 0, body }),
                    before.1,
                ),
                None => before,
            }
        }),
        with_messages(list, messages, 0) == list,
{
    let ev = messages[n - 1];
    law_short_message_is_a_stream(ev.status, ev.data1, ev.data2);
}

/// A packet that a host sends adds one event at its own sample, on the first port, or none:
/// those from 0x4000_0000 on add the voice that they decode to, those from 0x3000_0000 and
/// from 0x5000_0000 on the payload that they complete, and all others nothing.
pub proof fn law_packets_go_by_their_kind(list: (Seq<Event>, Seq<u8>), packet: AuPacketIn)
    ensures
        ({
            let first = packet.event.words@[0];
            let after = packet_behind(list, packet);
            let last = after.0.last();
            &&& 0x4000_0000 <= first <= 0x4fff_ffff ==> match packet.voice {
                Some(body) => after.0.len() == list.0.len() + 1 && after.0.take(
                    list.0.len() as int,
                ) == list.0 && last.body == body && last.sample_offset
                    == packet.event.sample_offset && last.port == 0 && after.1 == list.1,
                None => after == list,
            }
            &&& (0x3000_0000 <= first <= 0x3fff_ffff || 0x5000_0000 <= first <= 0x5fff_ffff) ==> (
            match packet.payload {
                Some(bytes) => after == push_payload(
                    list.0,
                    list.1,
                    packet.event.sample_offset,
                    0,
                    bytes@,
                ),
                None => after == list,
            })
            &&& first < 0x3000_0000 || first >= 0x6000_0000 ==> after == list
        }),
{
    let after = packet_behind(list, packet);
    if after.0.len() == list.0.len() + 1 {
        assert(after.0.take(list.0.len() as int) =~= list.0);
    }
}

/// All that a host sends for a block is collected, nothing twice: behind what was there
/// come the short messages, then the packets, then the automation, one change for each of
/// its points.
pub proof fn law_a_block_collects_everything(
    list: (Seq<Event>, Seq<u8>),
    messages: Seq<AuMidiEvent>,
    packets: Seq<AuPacketIn>,
    automation: Seq<AuParamEvent>,
)
    ensures
        ({
            let noted = with_packets(
                with_messages(list, messages, messages.len() as int),
                packets,
                packets.len() as int,
            );
            let all = collected(list, messages, packets, automation);
            &&& all.1 == noted.1
            &&& all.0.len() == noted.0.len() + automation.len()
            &&& all.0.take(noted.0.len() as int) == noted.0
            &&& forall|i: int|
                0 <= i < automation.len() ==> {
                    let e = all.0[noted.0.len() + i];
                    &&& e.sample_offset == (#[trigger] automation[i]).sample_offset
                    &&& e.port == 0
                    &&& e.body == (EventBody::ParamChange {
                        id: automation[i].param_id,
                        value: automation[i].value,
                    })
                }
        }),
        forall|n: int|
            0 < n <= packets.len() ==> #[trigger] with_packets(list, packets, n) == packet_behind(
                with_packets(list, packets, n - 1),
                packets[n - 1],
            ),
        with_packets(list, packets, 0) == list,
{
    let noted = with_packets(
        with_messages(list, messages, messages.len() as int),
        packets,
        packets.len() as int,
    );
    assert(collected(list, messages, packets, automation).0.take(noted.0.len() as int) =~= noted.0);
}

/// The changes that a plugin makes wait for the host in their order, as far as there is
/// room: those that find the queue full are lost, and none is lost before.
pub proof fn law_changes_wait_in_order(waiting: Seq<Item>, capacity: nat, events: Seq<Event>)
    requires
        waiting.len() <= capacity,
    ensures
        ({
            let all = waiting + changes_among(events).map_values(
                |change: (u32, u64)| (0u8, change.0, change.1),
            );
            noticed(waiting, capacity, events) == if all.len() <= capacity {
                all
            } else {
                all.take(capacity as int)
            }
        }),
    decreases events.len(),
{
    reveal(Seq::filter);
    let is_change = |e: Event| e.body is ParamChange;
    let change = |e: Event| (e.body->ParamChange_id, e.body->ParamChange_value);
    let item = |change: (u32, u64)| (0u8, change.0, change.1);
    let all = waiting + changes_among(events).map_values(item);
    if events.len() == 0 {
        assert(all =~= waiting);
    } else {
        let front = events.drop_last();
        let last = events.last();
        law_changes_wait_in_order(waiting, capacity, front);
        let before = waiting + changes_among(front).map_values(item);
        if last.body is ParamChange {
            assert(events.filter(is_change) == front.filter(is_change).push(last));
            assert(changes_among(events) =~= changes_among(front).push(change(last)));
            assert(all =~= before.push(item(change(last))));
            if before.len() < capacity {
                assert(noticed(waiting, capacity, events) =~= all);
            } else if before.len() == capacity {
                assert(noticed(waiting, capacity, events) =~= all.take(capacity as int));
            } else {
                assert(all.take(capacity as int) =~= before.take(capacity as int));
            }
        } else {
            assert(events.filter(is_change) == front.filter(is_change));
            assert(changes_among(events) =~= changes_among(front));
        }
    }
}

/// A packet for the host carries the bytes of its event's message, at its sample and on its
/// port; an event that only MIDI 2.0 has goes out as what it comes down to.
pub proof fn law_packets_carry_the_message(event: Event)
    ensures
        ({
            let body = match downconverted(event.body) {
                Some(low) => low,
                None => event.body,
            };
            let message = midi1_message(body);
            match au_packet(event) {
                Some(p) => p.sample_offset == event.sample_offset && p.port == event.port
                    && message.len() >= 2 && message == seq![p.status, p.data1, p.data2].take(
                    message.len() as int,
                ) && (message.len() == 2 ==> p.data2 == 0),
                None => message.len() == 0,
            }
        }),
{
    let body = match downconverted(event.body) {
        Some(low) => low,
        None => event.body,
    };
    law_short_messages_are_messages(body);
}

/// The host drains the packets in the order of the events, those that have one.
pub proof fn law_packets_keep_their_order(events: Seq<Event>)
    ensures
        au_packets(events) == events.filter(|e: Event| au_packet(e) is Some).map_values(
            |e: Event| au_packet(e)->0,
        ),
    decreases events.len(),
{
    reveal(Seq::filter);
    let has_one = |e: Event| au_packet(e) is Some;
    let it = |e: Event| au_packet(e)->0;
    if events.len() == 0 {
        assert(au_packets(events) =~= events.filter(has_one).map_values(it));
    } else {
        let front = events.drop_last();
        let last = events.last();
        law_packets_keep_their_order(front);
        if has_one(last) {
            assert(events.filter(has_one) == front.filter(has_one).push(last));
            assert(front.filter(has_one).push(last).map_values(it) =~= front.filter(
                has_one,
            ).map_values(it).push(it(last)));
        } else {
            assert(events.filter(has_one) == front.filter(has_one));
        }
    }
}

/// An event goes out on its own port where the plugin has one of that number, and on the
/// first otherwise.
pub proof fn law_events_go_out_on_their_port(port: u8, ports: u8)
    ensures
        port < ports ==> routed(port, ports) == port,
        port >= ports ==> routed(port, ports) == 0,
{
}

/// A packet stream in a protocol takes an event's native form in that protocol, and its
/// converted form only where it has no native one: two words in MIDI 2.0, one in MIDI 1.0.
/// System-exclusive bytes go out two words a packet, in their order, in either. Each packet
/// has its event's sample and port.
pub proof fn law_streams_take_the_native_form(event: Event, forms: UmpForms, i: int)
    ensures
        ({
            let in2 = ump_packets_of(event, forms, UmpProtocol::Midi2);
            let in1 = ump_packets_of(event, forms, UmpProtocol::Midi1);
            &&& event.body is SysEx ==> in1 == in2 && in1.len() == forms.sysex7@.len() && (0 <= i
                < in1.len() ==> in1[i].word_count == 2 && in1[i].words@[0]
                == forms.sysex7@[i]@[0] && in1[i].words@[1] == forms.sysex7@[i]@[1]
                && in1[i].words@[2] == 0 && in1[i].words@[3] == 0 && in1[i].sample_offset
                == event.sample_offset && in1[i].cable == event.port)
            &&& !(event.body is SysEx) ==> {
                &&& in2.len() == if forms.native2 is Some || forms.converted2 is Some {
                    1int
                } else {
                    0
                }
                &&& in1.len() == if forms.native1 is Some || forms.converted1 is Some {
                    1int
                } else {
                    0
                }
                &&& in2.len() == 1 ==> in2[0].word_count == 2 && in2[0].sample_offset
                    == event.sample_offset && in2[0].cable == event.port && (
                forms.native2 matches Some(words) ==> in2[0].words == words) && (
                forms.native2 is None ==> in2[0].words == forms.converted2->0)
                &&& in1.len() == 1 ==> in1[0].word_count == 1 && in1[0].sample_offset
                    == event.sample_offset && in1[0].cable == event.port && (
                forms.native1 matches Some(words) ==> in1[0].words == words) && (
                forms.native1 is None ==> in1[0].words == forms.converted1->0)
            }
        }),
{
}

/// The stream of some events is that of the first, and behind it that of the next one.
pub proof fn law_streams_go_event_by_event(
    events: Seq<Event>,
    forms: Seq<UmpForms>,
    protocol: UmpProtocol,
    n: int,
    k: int,
)
    requires
        0 <= n,
    ensures
        ump_stream(events, forms, protocol, 0).len() == 0,
        ({
            let front = ump_stream(events, forms, protocol, n);
            let own = ump_packets_of(events[n], forms[n], protocol);
            let both = ump_stream(events, forms, protocol, n + 1);
            &&& both.len() == front.len() + own.len()
            &&& 0 <= k < front.len() ==> both[k] == front[k]
            &&& 0 <= k < own.len() ==> both[front.len() + k] == own[k]
        }),
{
}

/// What a host is told of a parameter is the parameter's own: its number, ends, default and
/// steps, its texts as far as they can end with a zero, and the message that drives it, by
/// the number that MIDI 1.0 gives its kind.
pub proof fn law_descriptors_say_what_parameters_are(out: AuParamDescriptor, pi: ParamInfo)
    requires
        describes(out, pi),
    ensures
        out.id == pi.id && out.min == pi.min && out.max == pi.max,
        out.default_value == pi.default_plain && out.step_count == pi.step_count,
        !pi.name@.contains('\0') ==> out.name@ == pi.name@,
        !pi.unit@.contains('\0') ==> out.unit@ == pi.unit@,
        !pi.group@.contains('\0') ==> out.group@ == pi.group@,
        match pi.midi_map {
            Some(MidiSource::Cc(n)) => out.midi_status == 176 && out.midi_data1 == n,
            Some(MidiSource::PitchBend) => out.midi_status == 224 && out.midi_data1 == 0,
            Some(MidiSource::ChannelPressure) => out.midi_status == 208 && out.midi_data1 == 0,
            Some(MidiSource::ProgramChange) => out.midi_status == 192 && out.midi_data1 == 0,
            None => out.midi_status == 0 && out.midi_data1 == 0,
        },
        match pi.midi_channel {
            Some(channel) => out.midi_channel == channel,
            None => out.midi_channel == -1,
        },
{
}

/// A channel count reaches the host as it is, or as zero where it does not fit; the main
/// bus is the first, and a plugin without one has no channels there.
pub proof fn law_counts_reach_the_host(n: nat, layout: BusLayout)
    ensures
        n <= 32767 ==> short_count(n) == n,
        n > 32767 ==> short_count(n) == 0,
        layout.inputs@.len() == 0 ==> main_in(layout) == 0,
        layout.inputs@.len() > 0 ==> main_in(layout) == total_channels(layout.inputs@.take(1)),
        c_bool(true) == 1 && c_bool(false) == 0,
{
    if layout.inputs@.len() > 0 {
        let main = layout.inputs@.take(1);
        assert(main.drop_last() =~= Seq::empty());
        assert(total_channels(main) == total_channels(main.drop_last())
            + main.last().channels.count());
    }
}

/// A block starts with the input that was queued ahead of it, and with nothing where none
/// was; what the host sends for the block goes behind that.
pub proof fn law_queued_input_comes_first(instance: AuInstance, block: AuBlock)
    ensures
        instance.sysex_inputs_pending ==> instance.carried() == (
            instance.event_list.events@,
            instance.event_list.pool@,
        ),
        !instance.sysex_inputs_pending ==> instance.carried().0.len() == 0
            && instance.carried().1.len() == 0,
        block_events(instance, block) == collected(
            instance.carried(),
            block.events@,
            block.events2@,
            block.param_events@,
        ),
{
}

/// A drain starts at the head of the stream; a cursor that fits a stream stands behind as
/// many packets as the events in front of it have.
pub proof fn law_cursors_count_the_packets_in_front(
    cursor: UmpDrainCursor,
    events: Seq<Event>,
    forms: Seq<UmpForms>,
)
    ensures
        UmpDrainCursor::head().fits(events, forms),
        UmpDrainCursor::head().packets_before == 0 && UmpDrainCursor::head().event_pos == 0,
        cursor.fits(events, forms) ==> cursor.event_pos <= events.len() && cursor.packets_before
            == ump_stream(events, forms, cursor.protocol, cursor.event_pos as int).len(),
{
}

} // verus!
