//! AAX wrapper: registration data, the process callback, output packets and the
//! cached save of a plugin's state.
use crate::bus::{total_channels, BusLayout};
use crate::clap::{can_fail, pending_calls};
use crate::editor::EditorGeometry;
use crate::events::{
    push_payload, stably_sorted, Event, EventList, TransportInfo, EVENT_LIST_PREALLOC,
};
use crate::info::{resolve_name_override, spec_name_override, PluginCategory, PluginInfo};
use crate::midi::{
    decode_short_message, decoded, law_short_message_is_a_stream, midi1_message, parsed,
};
use crate::params::{bypass_id, find_bypass_id, ParamInfo, ParamRange};
use crate::process::{PluginRuntime, ProcessStatus, RuntimeCall};
use crate::state::{
    apply_state, param_calls, receive_extra, receive_state, DeserializedState, StateLoadError,
    StateLoadQueue,
};
use crate::text::{
    bytes_eq, c_text, decimal, is_white, is_whitespace, law_written_numbers_read_back, parse_u32,
    parsed_u32, starts_with, str_eq, to_c_text, to_chars, with_text,
};
use crate::wrapper::{
    encode_short_message, host_transport, law_short_messages_are_messages, read_transport,
    short_message, write_value_text, HostTransport,
};
use vstd::prelude::*;
use vstd::string::*;

verus! {

pub const TRUCE_AAX_RANGE_LINEAR: u8 = 0;

pub const TRUCE_AAX_RANGE_LOG: u8 = 1;

pub const TRUCE_AAX_RANGE_DISCRETE: u8 = 2;

pub const AAX_CAT_EQ: u32 = 0x0000_0001;

pub const AAX_CAT_DYNAMICS: u32 = 0x0000_0002;

pub const AAX_CAT_PITCH_SHIFT: u32 = 0x0000_0004;

pub const AAX_CAT_REVERB: u32 = 0x0000_0008;

pub const AAX_CAT_DELAY: u32 = 0x0000_0010;

pub const AAX_CAT_MODULATION: u32 = 0x0000_0020;

pub const AAX_CAT_HARMONIC: u32 = 0x0000_0040;

pub const AAX_CAT_NOISE_REDUCTION: u32 = 0x0000_0080;

pub const AAX_CAT_DITHER: u32 = 0x0000_0100;

pub const AAX_CAT_SOUND_FIELD: u32 = 0x0000_0200;

pub const AAX_CAT_SW_GENERATORS: u32 = 0x0000_0800;

pub const AAX_CAT_EFFECT: u32 = 0x0000_2000;

pub const AAX_CAT_MIDI_EFFECT: u32 = 0x0001_0000;

/// How often a save is taken again when the state changes under it.
pub const SNAPSHOT_RETRIES: u32 = 3;

/// What makes a plugin's id differ from its product's.
pub const PLUGIN_ID_SALT: i32 = 0x0101_0101;

/// What a host is told of an editor.
#[derive(Clone, Copy, Debug, PartialEq, Eq)]
pub struct TruceAaxEditorInfo {
    pub has_editor: i32,
    pub width: u32,
    pub height: u32,
}

/// A short MIDI message at a sample of a block.
#[derive(Copy, Clone, Debug, PartialEq, Eq)]
pub struct TruceAaxMidiEvent {
    pub delta_frames: u32,
    pub status: u8,
    pub data1: u8,
    pub data2: u8,
    pub pad: u8,
}

/// What a host is told of a plugin.
#[derive(Debug)]
pub struct TruceAaxDescriptor {
    pub name: String,
    pub vendor: String,
    pub version: u32,
    pub num_inputs: u32,
    pub num_outputs: u32,
    pub num_params: u32,
    pub manufacturer_id: i32,
    pub product_id: i32,
    pub plugin_id: i32,
    pub wants_input_midi: i32,
    pub category: u32,
    pub has_editor: i32,
    pub bypass_param_id: u32,
}

/// What a host is told of a parameter.
#[derive(Debug)]
pub struct TruceAaxParamInfo {
    pub id: u32,
    pub name: String,
    pub min: u64,
    pub max: u64,
    pub default_value: u64,
    pub step_count: u32,
    pub unit: String,
    pub range_type: u8,
}

/// Four bytes as one number, the first the most significant.
pub open spec fn four_bytes(b: Seq<u8>) -> int {
    ((b[0] * 256 + b[1]) * 256 + b[2]) * 256 + b[3]
}

/// A number of 32 bits read as a signed one.
pub open spec fn as_signed(n: int) -> int {
    if n < 0x8000_0000 {
        n
    } else {
        n - 0x1_0000_0000
    }
}

/// A four-character code as the signed number that the host identifies it by.
pub fn fourcc(bytes: [u8; 4]) -> (r: i32)
    ensures
        r == as_signed(four_bytes(bytes@)),
{
    let n: u64 = ((bytes[0] as u64 * 256 + bytes[1] as u64) * 256 + bytes[2] as u64) * 256
        + bytes[3] as u64;
    if n < 0x8000_0000 {
        n as i32
    } else {
        (n as i64 - 0x1_0000_0000) as i32
    }
}

/// A plugin's id is never its product's.
pub proof fn law_plugin_id_differs(product_id: i32)
    ensures
        product_id ^ PLUGIN_ID_SALT != product_id,
{
    assert(product_id ^ 0x0101_0101 != product_id) by (bit_vector);
}

/// The category that a plugin is listed under. An effect goes by its category
/// string; an unknown one is listed with the equalisers, which a host always
/// shows.
pub open spec fn aax_category(category: PluginCategory, name: Option<&'static str>) -> u32 {
    if category == PluginCategory::Instrument {
        AAX_CAT_SW_GENERATORS
    } else if category == PluginCategory::NoteEffect {
        AAX_CAT_MIDI_EFFECT
    } else {
        match name {
            Some(s) => if s@ == "Dynamics"@ {
                AAX_CAT_DYNAMICS
            } else if s@ == "PitchShift"@ {
                AAX_CAT_PITCH_SHIFT
            } else if s@ == "Reverb"@ {
                AAX_CAT_REVERB
            } else if s@ == "Delay"@ {
                AAX_CAT_DELAY
            } else if s@ == "Modulation"@ {
                AAX_CAT_MODULATION
            } else if s@ == "Harmonic"@ {
                AAX_CAT_HARMONIC
            } else if s@ == "NoiseReduction"@ {
                AAX_CAT_NOISE_REDUCTION
            } else if s@ == "Dither"@ {
                AAX_CAT_DITHER
            } else if s@ == "SoundField"@ {
                AAX_CAT_SOUND_FIELD
            } else if s@ == "Effect"@ {
                AAX_CAT_EFFECT
            } else {
                AAX_CAT_EQ
            },
            None => AAX_CAT_EQ,
        }
    }
}

fn category_code(category: PluginCategory, name: Option<&'static str>) -> (r: u32)
    ensures
        r == aax_category(category, name),
{
    match category {
        PluginCategory::Instrument => {
            return AAX_CAT_SW_GENERATORS;
        },
        PluginCategory::NoteEffect => {
            return AAX_CAT_MIDI_EFFECT;
        },
        _ => {},
    }
    match name {
        Some(s) => if str_eq(s, "Dynamics") {
            AAX_CAT_DYNAMICS
        } else if str_eq(s, "PitchShift") {
            AAX_CAT_PITCH_SHIFT
        } else if str_eq(s, "Reverb") {
            AAX_CAT_REVERB
        } else if str_eq(s, "Delay") {
            AAX_CAT_DELAY
        } else if str_eq(s, "Modulation") {
            AAX_CAT_MODULATION
        } else if str_eq(s, "Harmonic") {
            AAX_CAT_HARMONIC
        } else if str_eq(s, "NoiseReduction") {
            AAX_CAT_NOISE_REDUCTION
        } else if str_eq(s, "Dither") {
            AAX_CAT_DITHER
        } else if str_eq(s, "SoundField") {
            AAX_CAT_SOUND_FIELD
        } else if str_eq(s, "Effect") {
            AAX_CAT_EFFECT
        } else {
            AAX_CAT_EQ
        },
        None => AAX_CAT_EQ,
    }
}

/// The channels that a plugin is registered with. The host takes no plugin
/// without audio, so a pure MIDI effect gets a stereo pair each way, and one
/// without inputs as many as it has outputs, at least two.
pub open spec fn aax_io(inputs: nat, outputs: nat) -> (nat, nat) {
    if inputs == 0 && outputs == 0 {
        (2, 2)
    } else if inputs == 0 {
        (
            if outputs < 2 {
                2
            } else {
                outputs
            },
            outputs,
        )
    } else {
        (inputs, outputs)
    }
}

/// Every plugin is registered with audio inputs.
pub proof fn law_every_plugin_has_inputs(inputs: nat, outputs: nat)
    ensures
        aax_io(inputs, outputs).0 > 0,
        inputs > 0 ==> aax_io(inputs, outputs) == (inputs, outputs),
        outputs > 0 ==> aax_io(inputs, outputs).1 == outputs,
{
}

pub open spec fn range_code(range: ParamRange) -> u8 {
    match range {
        ParamRange::Linear => TRUCE_AAX_RANGE_LINEAR,
        ParamRange::Logarithmic => TRUCE_AAX_RANGE_LOG,
        _ => TRUCE_AAX_RANGE_DISCRETE,
    }
}

pub open spec fn describes(out: TruceAaxParamInfo, pi: ParamInfo) -> bool {
    &&& out.id == pi.id
    &&& out.name@ == c_text(pi.name@)
    &&& out.min == pi.min
    &&& out.max == pi.max
    &&& out.default_value == pi.default_plain
    &&& out.step_count == pi.step_count
    &&& out.unit@ == c_text(pi.unit@)
    &&& out.range_type == range_code(pi.range)
}

/// The plugin's name in the host's menus.
pub fn resolved_plugin_name(info: &PluginInfo) -> (r: &'static str)
    ensures
        r == spec_name_override(info.aax_name, info.name),
{
    resolve_name_override(info.aax_name, info.name)
}

/// Builds what a host is told of a plugin and its parameters.
pub fn register_aax_inner(
    info: &PluginInfo,
    layout: &BusLayout,
    param_infos: &Vec<ParamInfo>,
    has_editor: bool,
) -> (r: (TruceAaxDescriptor, Vec<TruceAaxParamInfo>))
    requires
        total_channels(layout.inputs@) <= u32::MAX,
        total_channels(layout.outputs@) <= u32::MAX,
        param_infos@.len() <= u32::MAX,
    ensures
        ({
            let d = r.0;
            let io = aax_io(total_channels(layout.inputs@), total_channels(layout.outputs@));
            &&& d.name@ == c_text(spec_name_override(info.aax_name, info.name)@)
            &&& d.vendor@ == c_text(info.vendor@)
            &&& d.version == 1
            &&& d.num_inputs == io.0
            &&& d.num_outputs == io.1
            &&& d.num_params == param_infos@.len()
            &&& d.manufacturer_id == as_signed(four_bytes(info.au_manufacturer@))
            &&& d.product_id == as_signed(four_bytes(info.fourcc@))
            &&& d.plugin_id == d.product_id ^ PLUGIN_ID_SALT
            &&& d.wants_input_midi == if info.au_type@ == seq![97u8, 117u8, 109u8, 117u8]
                || info.category == PluginCategory::NoteEffect {
                1i32
            } else {
                0i32
            }
            &&& d.category == aax_category(info.category, info.aax_category)
            &&& d.has_editor == if has_editor {
                1i32
            } else {
                0i32
            }
            &&& d.bypass_param_id == bypass_id(param_infos@)
        }),
        r.1@.len() == param_infos@.len(),
        forall|i: int|
            0 <= i < param_infos@.len() ==> describes(#[trigger] r.1@[i], param_infos@[i]),
{
    let aumu: [u8; 4] = [97u8, 117u8, 109u8, 117u8];
    let is_instrument: bool = bytes_eq(info.au_type.as_slice(), aumu.as_slice());
    proof {
        assert(aumu@ =~= seq![97u8, 117u8, 109u8, 117u8]);
    }
    let is_note_effect: bool = match info.category {
        PluginCategory::NoteEffect => true,
        _ => false,
    };
    let inputs: u32 = layout.total_input_channels();
    let outputs: u32 = layout.total_output_channels();
    let (aax_inputs, aax_outputs): (u32, u32) = if inputs == 0 && outputs == 0 {
        (2, 2)
    } else if inputs == 0 {
        (
            if outputs < 2 {
                2
            } else {
                outputs
            },
            outputs,
        )
    } else {
        (inputs, outputs)
    };
    let mut params: Vec<TruceAaxParamInfo> = Vec::new();
    let mut i: usize = 0;
    while i < param_infos.len()
        invariant
            i <= param_infos@.len(),
            params@.len() == i,
            forall|k: int| 0 <= k < i ==> describes(#[trigger] params@[k], param_infos@[k]),
        decreases param_infos@.len() - i,
    {
        let pi: &ParamInfo = &param_infos[i];
        params.push(
            TruceAaxParamInfo {
                id: pi.id,
                name: to_c_text(pi.name),
                min: pi.min,
                max: pi.max,
                default_value: pi.default_plain,
                step_count: pi.step_count,
                unit: to_c_text(pi.unit),
                range_type: match pi.range {
                    ParamRange::Linear => TRUCE_AAX_RANGE_LINEAR,
                    ParamRange::Logarithmic => TRUCE_AAX_RANGE_LOG,
                    _ => TRUCE_AAX_RANGE_DISCRETE,
                },
            },
        );
        i = i + 1;
    }
    let product_id: i32 = fourcc(info.fourcc);
    (
        TruceAaxDescriptor {
            name: to_c_text(resolved_plugin_name(info)),
            vendor: to_c_text(info.vendor),
            version: 1,
            num_inputs: aax_inputs,
            num_outputs: aax_outputs,
            num_params: param_infos.len() as u32,
            manufacturer_id: fourcc(info.au_manufacturer),
            product_id,
            plugin_id: product_id ^ PLUGIN_ID_SALT,
            wants_input_midi: if is_instrument || is_note_effect {
                1
            } else {
                0
            },
            category: category_code(info.category, info.aax_category),
            has_editor: if has_editor {
                1
            } else {
                0
            },
            bypass_param_id: find_bypass_id(param_infos),
        },
        params,
    )
}

/// The state that was saved last, with the revision that it was taken at.
pub struct SaveCache {
    pub entry: Option<(u64, Vec<u8>)>,
}

/// What the wrapper keeps of one plugin instance from block to block.
pub struct AaxInstance {
    pub event_list: EventList,
    pub output_events: EventList,
    pub pending_state: StateLoadQueue,
    pub latency_cache: u32,
    pub tail_cache: u32,
    pub prepared: bool,
    /// Counts the changes of the state that a save would see.
    pub state_revision: u64,
    pub state_cache: SaveCache,
}

impl AaxInstance {
    pub fn new(latency: u32, tail: u32) -> (r: Self)
        ensures
            r.event_list.events@.len() == 0,
            r.output_events.events@.len() == 0,
            r.event_list.pool@.len() == 0,
            r.output_events.pool@.len() == 0,
            r.event_list.wf(),
            r.output_events.wf(),
            r.pending_state.pending is None,
            r.latency_cache == latency,
            r.tail_cache == tail,
            !r.prepared,
            r.state_revision == 1,
            r.state_cache.entry is None,
    {
        AaxInstance {
            event_list: EventList::with_capacity(EVENT_LIST_PREALLOC),
            output_events: EventList::with_capacity(EVENT_LIST_PREALLOC),
            pending_state: StateLoadQueue::new(),
            latency_cache: latency,
            tail_cache: tail,
            prepared: false,
            state_revision: 1,
            state_cache: SaveCache { entry: None },
        }
    }
}

/// The events of the first `n` short messages.
pub open spec fn decoded_messages(messages: Seq<TruceAaxMidiEvent>, n: int) -> Seq<Event>
    decreases n,
{
    if n <= 0 {
        Seq::empty()
    } else {
        let before = decoded_messages(messages, n - 1);
        let ev = messages[n - 1];
        match decoded(ev.status, ev.data1, ev.data2) {
            Some(body) => before.push(Event { sample_offset: ev.delta_frames, port: 0, body }),
            None => before,
        }
    }
}

/// What a process call came to.
pub struct AaxBlockResult {
    /// The plugin did not run: the host's buffers are to be silenced.
    pub silenced: bool,
    /// The transport that the editor is shown.
    pub transport: Option<TransportInfo>,
    pub load_error: Option<StateLoadError>,
}

/// The revision behind one more change of the state.
pub open spec fn next_revision(revision: u64) -> int {
    (revision + 1) % 0x1_0000_0000_0000_0000
}

fn bump(revision: u64) -> (r: u64)
    ensures
        r == next_revision(revision),
{
    if revision == u64::MAX {
        0
    } else {
        revision + 1
    }
}

/// The transport of a block. This format reports no position in seconds.
pub open spec fn aax_transport(snapshot: Option<HostTransport>) -> TransportInfo {
    TransportInfo { position_seconds: 0, ..host_transport(snapshot) }
}

/// The process callback.
///
/// Before the host prepared the plugin nothing runs. Otherwise a pending state is
/// applied first, and counts as a change of the state; the whole block is then
/// processed in one call, with the decoded messages sorted by sample.
pub fn process<P: PluginRuntime>(
    instance: &mut AaxInstance,
    plugin: &mut P,
    num_frames: u32,
    events: &Vec<TruceAaxMidiEvent>,
    transport: &Option<HostTransport>,
) -> (r: AaxBlockResult)
    requires
        old(instance).output_events.wf(),
    ensures
        r.silenced == !old(instance).prepared,
        final(instance).prepared == old(instance).prepared,
        final(instance).state_cache == old(instance).state_cache,
        !old(instance).prepared ==> *final(instance) == *old(instance) && final(plugin).trace()
            == old(plugin).trace() && r.transport is None && r.load_error is None,
        old(instance).prepared ==> {
            let applied = pending_calls(old(instance).pending_state.pending, r.load_error);
            let output = final(instance).output_events;
            &&& can_fail(old(instance).pending_state.pending, r.load_error)
            &&& final(instance).pending_state.pending is None
            &&& final(instance).state_revision == if old(instance).pending_state.pending is Some {
                next_revision(old(instance).state_revision)
            } else {
                old(instance).state_revision as int
            }
            &&& stably_sorted(
                decoded_messages(events@, events@.len() as int),
                final(instance).event_list.events@,
            )
            &&& final(instance).event_list.pool@ == Seq::<u8>::empty()
            &&& output.wf()
            &&& exists|status: ProcessStatus|
                final(plugin).trace() == #[trigger] (old(plugin).trace() + applied).push(
                    RuntimeCall::Process {
                        start: 0,
                        len: num_frames as int,
                        events: final(instance).event_list.events@,
                        pool: final(instance).event_list.pool@,
                        transport: aax_transport(*transport),
                        out_before: (Seq::empty(), Seq::empty()),
                        out_after: (output.events@, output.pool@),
                        status,
                    },
                )
            &&& r.transport == Some(aax_transport(*transport))
            &&& final(instance).latency_cache == final(plugin).reported_latency()
            &&& final(instance).tail_cache == final(plugin).reported_tail()
        },
{
    if !instance.prepared {
        return AaxBlockResult { silenced: true, transport: None, load_error: None };
    }
    let ghost trace0 = plugin.trace();
    let mut load_error: Option<StateLoadError> = None;
    if let Some(state) = instance.pending_state.pop() {
        load_error = apply_state(plugin, &state);
        instance.state_revision = bump(instance.state_revision);
    }
    let ghost applied = pending_calls(old(instance).pending_state.pending, load_error);
    proof {
        assert(plugin.trace() =~= trace0 + applied);
    }
    instance.event_list.clear();
    let mut i: usize = 0;
    let ghost revision = instance.state_revision;
    while i < events.len()
        invariant
            i <= events@.len(),
            instance.event_list.wf(),
            instance.event_list.events@ == decoded_messages(events@, i as int),
            instance.event_list.pool@ == Seq::<u8>::empty(),
            instance.pending_state.pending is None,
            instance.state_revision == revision,
            instance.prepared,
            instance.state_cache == old(instance).state_cache,
        decreases events@.len() - i,
    {
        let ev: TruceAaxMidiEvent = events[i];
        if let Some(body) = decode_short_message(ev.status, ev.data1, ev.data2) {
            instance.event_list.push(Event::new(ev.delta_frames, body));
        }
        i = i + 1;
    }
    instance.event_list.sort();
    let mut current: TransportInfo = read_transport(transport);
    current.position_seconds = 0;
    instance.output_events.clear();
    proof {
        assert((instance.output_events.events@, instance.output_events.pool@) == (
            Seq::<Event>::empty(),
            Seq::<u8>::empty(),
        ));
    }
    let status: ProcessStatus = plugin.process(
        0,
        num_frames as usize,
        &instance.event_list,
        &current,
        &mut instance.output_events,
    );
    instance.latency_cache = plugin.latency();
    instance.tail_cache = plugin.tail();
    proof {
        let call = RuntimeCall::Process {
            start: 0,
            len: num_frames as int,
            events: instance.event_list.events@,
            pool: instance.event_list.pool@,
            transport: aax_transport(*transport),
            out_before: (Seq::empty(), Seq::empty()),
            out_after: (instance.output_events.events@, instance.output_events.pool@),
            status,
        };
        assert(plugin.trace() == (old(plugin).trace() + applied).push(call));
    }
    AaxBlockResult { silenced: false, transport: Some(current), load_error }
}

/// Finishes the reset of a plugin: its smoothers jump to their targets, what it now
/// reports of latency and tail is taken over, and it can render.
pub fn reset<P: PluginRuntime>(instance: &mut AaxInstance, plugin: &mut P)
    ensures
        final(plugin).trace() == old(plugin).trace().push(RuntimeCall::SnapSmoothers),
        *final(instance) == (AaxInstance {
            prepared: true,
            latency_cache: final(plugin).reported_latency(),
            tail_cache: final(plugin).reported_tail(),
            ..*old(instance)
        }),
{
    plugin.snap_smoothers();
    instance.latency_cache = plugin.latency();
    instance.tail_cache = plugin.tail();
    instance.prepared = true;
}

/// Takes system-exclusive input in behind the events that are there; a message
/// without bytes is ignored, one that does not fit is dropped.
pub fn push_sysex_input(instance: &mut AaxInstance, delta_frames: u32, bytes: &[u8])
    requires
        old(instance).event_list.wf(),
    ensures
        final(instance).event_list.wf(),
        (final(instance).event_list.events@, final(instance).event_list.pool@) == if bytes@.len()
            == 0 {
            (old(instance).event_list.events@, old(instance).event_list.pool@)
        } else {
            push_payload(
                old(instance).event_list.events@,
                old(instance).event_list.pool@,
                delta_frames,
                0,
                bytes@,
            )
        },
        *final(instance) == (AaxInstance {
            event_list: final(instance).event_list,
            ..*old(instance)
        }),
{
    if bytes.len() == 0 {
        return ;
    }
    let _ = instance.event_list.push_sysex(delta_frames, bytes);
}

/// The three-byte packet for an event; only MIDI 1.0 channel voice has one.
pub open spec fn aax_packet(event: Event) -> Option<TruceAaxMidiEvent> {
    match short_message(event.body) {
        Some((status, data1, data2)) => Some(
            TruceAaxMidiEvent {
                delta_frames: event.sample_offset,
                status,
                data1,
                data2,
                pad: 0,
            },
        ),
        None => None,
    }
}

pub fn try_encode_aax_midi(event: &Event) -> (r: Option<TruceAaxMidiEvent>)
    ensures
        r == aax_packet(*event),
{
    match encode_short_message(&event.body) {
        Some((status, data1, data2)) => Some(
            TruceAaxMidiEvent {
                delta_frames: event.sample_offset,
                status,
                data1,
                data2,
                pad: 0,
            },
        ),
        None => None,
    }
}

/// The packets for some events, in their order.
pub open spec fn aax_packets(events: Seq<Event>) -> Seq<TruceAaxMidiEvent>
    decreases events.len(),
{
    if events.len() == 0 {
        Seq::empty()
    } else {
        match aax_packet(events.last()) {
            Some(packet) => aax_packets(events.drop_last()).push(packet),
            None => aax_packets(events.drop_last()),
        }
    }
}

proof fn lemma_aax_packets_prefix(events: Seq<Event>, n: int)
    requires
        0 <= n <= events.len(),
    ensures
        aax_packets(events.take(n)).len() <= n,
        aax_packets(events.take(n)).len() <= aax_packets(events).len(),
        forall|k: int|
            0 <= k < aax_packets(events.take(n)).len() ==> aax_packets(events.take(n))[k]
                == #[trigger] aax_packets(events)[k],
    decreases events.len(),
{
    if n == events.len() {
        assert(events.take(n) =~= events);
        if n > 0 {
            lemma_aax_packets_prefix(events.drop_last(), n - 1);
            assert(events.drop_last().take(n - 1) =~= events.drop_last());
        }
    } else {
        lemma_aax_packets_prefix(events.drop_last(), n);
        assert(events.drop_last().take(n) =~= events.take(n));
    }
}

/// How many packets a host can drain from a block.
pub fn output_event_count(list: &EventList) -> (r: u32)
    requires
        list.events@.len() <= u32::MAX,
    ensures
        r == aax_packets(list.events@).len(),
{
    let mut n: u32 = 0;
    let mut i: usize = 0;
    while i < list.events.len()
        invariant
            i <= list.events@.len() <= u32::MAX,
            n <= i,
            n == aax_packets(list.events@.take(i as int)).len(),
        decreases list.events@.len() - i,
    {
        proof {
            assert(list.events@.take(i + 1).drop_last() =~= list.events@.take(i as int));
        }
        if try_encode_aax_midi(&list.events[i]).is_some() {
            n = n + 1;
        }
        i = i + 1;
    }
    proof {
        assert(list.events@.take(i as int) =~= list.events@);
    }
    n
}

/// The packet at an index; the indices below the count all have one.
pub fn output_event_at(list: &EventList, index: u32) -> (r: Option<TruceAaxMidiEvent>)
    ensures
        r == if index < aax_packets(list.events@).len() {
            Some(aax_packets(list.events@)[index as int])
        } else {
            None
        },
{
    let mut n: u64 = 0;
    let mut i: usize = 0;
    while i < list.events.len()
        invariant
            i <= list.events@.len(),
            n <= index,
            n == aax_packets(list.events@.take(i as int)).len(),
        decreases list.events@.len() - i,
    {
        proof {
            assert(list.events@.take(i + 1).drop_last() =~= list.events@.take(i as int));
            lemma_aax_packets_prefix(list.events@, i + 1);
        }
        if let Some(packet) = try_encode_aax_midi(&list.events[i]) {
            if n == index as u64 {
                proof {
                    assert(aax_packets(list.events@.take(i + 1))[n as int] == packet);
                    assert(aax_packets(list.events@)[n as int] == packet);
                }
                return Some(packet);
            }
            n = n + 1;
        }
        i = i + 1;
    }
    proof {
        assert(list.events@.take(i as int) =~= list.events@);
    }
    None
}

/// Sets a parameter, and counts it as a change of the state.
pub fn set_param<P: PluginRuntime>(
    instance: &mut AaxInstance,
    plugin: &mut P,
    id: u32,
    value: u64,
)
    ensures
        final(plugin).trace() == old(plugin).trace().push(RuntimeCall::SetPlain { id, value }),
        final(instance).state_revision == next_revision(old(instance).state_revision),
        *final(instance) == (AaxInstance {
            state_revision: final(instance).state_revision,
            ..*old(instance)
        }),
{
    plugin.set_plain(id, value);
    instance.state_revision = bump(instance.state_revision);
}

/// Writes a parameter's formatted value into the host's buffer. A parameter that
/// does not exist has none.
pub fn format_param(text: Option<&str>, buffer: &mut Vec<u8>)
    ensures
        final(buffer)@ == if text is Some && old(buffer)@.len() > 0 {
            with_text(old(buffer)@, (text->0).spec_bytes())
        } else {
            old(buffer)@
        },
{
    let _ = write_value_text(text, buffer);
}

/// Takes a saved state in: the state has another revision, and the cached save is
/// dropped. Nothing happens where the host sent no bytes or they did not parse.
pub fn load_state<P: PluginRuntime>(
    instance: &mut AaxInstance,
    plugin: &mut P,
    parsed: Option<DeserializedState>,
) -> (r: bool)
    ensures
        r == (parsed is Some),
        match parsed {
            Some(state) => final(instance).pending_state.pending == Some(state)
                && final(plugin).trace() == old(plugin).trace() + param_calls(state)
                && final(instance).state_revision == next_revision(old(instance).state_revision)
                && final(instance).state_cache.entry is None,
            None => *final(instance) == *old(instance) && final(plugin).trace() == old(
                plugin,
            ).trace(),
        },
        *final(instance) == (AaxInstance {
            pending_state: final(instance).pending_state,
            state_revision: final(instance).state_revision,
            state_cache: final(instance).state_cache,
            ..*old(instance)
        }),
{
    let taken: bool = receive_state(&mut instance.pending_state, plugin, parsed);
    if taken {
        instance.state_revision = bump(instance.state_revision);
        instance.state_cache.entry = None;
    }
    taken
}

/// What a save does next.
#[derive(Debug)]
pub enum SaveStep {
    /// Hand these bytes out: the state has not changed since they were taken.
    Cached(Vec<u8>),
    /// Take the state anew.
    Serialize,
}

/// A save under way: the revision that the state was last taken at, and how
/// often it may still be compared.
#[derive(Clone, Copy, Debug, PartialEq, Eq)]
pub struct SaveAttempt {
    pub revision: u64,
    pub checks_left: u32,
}

/// What a comparison of revisions says of the bytes just taken.
#[derive(Clone, Copy, Debug, PartialEq, Eq, Structural)]
pub enum SaveCheck {
    /// They are the state at the attempt's revision: hand them out and keep them.
    Consistent,
    /// The state changed meanwhile: take it again and compare once more.
    Again,
    /// It changed too often: take it again, and hand that out without keeping it.
    Last,
}

fn copy_bytes(bytes: &Vec<u8>) -> (r: Vec<u8>)
    ensures
        r@ == bytes@,
{
    let mut r: Vec<u8> = Vec::with_capacity(bytes.len());
    let mut i: usize = 0;
    while i < bytes.len()
        invariant
            i <= bytes@.len(),
            r@ == bytes@.take(i as int),
        decreases bytes@.len() - i,
    {
        r.push(bytes[i]);
        i = i + 1;
        proof {
            assert(r@ =~= bytes@.take(i as int));
        }
    }
    proof {
        assert(bytes@.take(i as int) =~= bytes@);
    }
    r
}

impl SaveCache {
    /// The cached bytes, where they were taken at this revision.
    pub open spec fn hit(&self, revision: u64) -> Option<Seq<u8>> {
        match self.entry {
            Some((at, bytes)) => if at == revision {
                Some(bytes@)
            } else {
                None
            },
            None => None,
        }
    }

    /// Starts a save at the revision that the state has now.
    pub fn begin(&self, revision: u64) -> (r: (SaveStep, SaveAttempt))
        ensures
            r.1.revision == revision,
            r.1.checks_left == SNAPSHOT_RETRIES,
            match self.hit(revision) {
                Some(bytes) => r.0 matches SaveStep::Cached(out) && out@ == bytes,
                None => r.0 is Serialize,
            },
    {
        let attempt = SaveAttempt { revision, checks_left: SNAPSHOT_RETRIES };
        if let Some((at, bytes)) = &self.entry {
            if *at == revision {
                return (SaveStep::Cached(copy_bytes(bytes)), attempt);
            }
        }
        (SaveStep::Serialize, attempt)
    }

    /// Keeps bytes that were taken consistently.
    pub fn keep(&mut self, attempt: &SaveAttempt, bytes: &Vec<u8>)
        ensures
            final(self).hit(attempt.revision) == Some(bytes@),
            forall|revision: u64|
                revision != attempt.revision ==> #[trigger] final(self).hit(revision) is None,
    {
        self.entry = Some((attempt.revision, copy_bytes(bytes)));
    }
}

impl SaveAttempt {
    /// Compares the revision after the state was taken with the one before.
    pub fn check(&mut self, revision_now: u64) -> (r: SaveCheck)
        requires
            old(self).checks_left > 0,
        ensures
            r == if revision_now == old(self).revision {
                SaveCheck::Consistent
            } else if old(self).checks_left > 1 {
                SaveCheck::Again
            } else {
                SaveCheck::Last
            },
            final(self).revision == revision_now,
            final(self).checks_left == old(self).checks_left - 1,
    {
        let consistent: bool = revision_now == self.revision;
        self.revision = revision_now;
        self.checks_left = self.checks_left - 1;
        if consistent {
            SaveCheck::Consistent
        } else if self.checks_left > 0 {
            SaveCheck::Again
        } else {
            SaveCheck::Last
        }
    }
}

/// Where the comparisons of a save end, given the revision seen at each of them:
/// the revision under which the bytes are kept, if they are.
pub open spec fn kept_at(revision: u64, seen: Seq<u64>, checks: nat) -> Option<u64>
    decreases checks,
{
    if checks == 0 || seen.len() == 0 {
        None
    } else if seen[0] == revision {
        Some(revision)
    } else {
        kept_at(seen[0], seen.skip(1), (checks - 1) as nat)
    }
}

/// Bytes that were cached at a revision are not handed out once the state changed.
pub proof fn law_a_change_outdates_the_cache(cache: SaveCache, revision: u64)
    requires
        cache.hit(revision) is Some,
    ensures
        cache.hit(next_revision(revision) as u64) is None,
{
}

/// A save keeps its bytes only under a revision that was seen twice in a row,
/// right before and right after they were taken: they are the state at one moment.
pub proof fn law_kept_bytes_are_consistent(revision: u64, seen: Seq<u64>, checks: nat)
    requires
        kept_at(revision, seen, checks) is Some,
    ensures
        exists|i: int|
            0 <= i < seen.len() && i < checks && kept_at(revision, seen, checks) == Some(
                #[trigger] seen[i],
            ) && seen[i] == if i == 0 {
                revision
            } else {
                seen[i - 1]
            },
    decreases checks,
{
    if seen[0] == revision {
        assert(kept_at(revision, seen, checks) == Some(seen[0]));
    } else {
        let rest = seen.skip(1);
        law_kept_bytes_are_consistent(seen[0], rest, (checks - 1) as nat);
        let i = choose|i: int|
            0 <= i < rest.len() && i < checks - 1 && kept_at(
                seen[0],
                rest,
                (checks - 1) as nat,
            ) == Some(#[trigger] rest[i]) && rest[i] == if i == 0 {
                seen[0]
            } else {
                rest[i - 1]
            };
        assert(seen[i + 1] == rest[i]);
        assert(i > 0 ==> seen[i] == rest[i - 1]);
    }
}

/// What a host is told of the editor, if there is one.
pub fn editor_info(editor: Option<&EditorGeometry>) -> (r: TruceAaxEditorInfo)
    ensures
        r == match editor {
            Some(e) => TruceAaxEditorInfo { has_editor: 1, width: e.size.0, height: e.size.1 },
            None => TruceAaxEditorInfo { has_editor: 0, width: 0, height: 0 },
        },
{
    match editor {
        Some(e) => TruceAaxEditorInfo { has_editor: 1, width: e.size.0, height: e.size.1 },
        None => TruceAaxEditorInfo { has_editor: 0, width: 0, height: 0 },
    }
}

/// The window that an editor opens in.
#[derive(Clone, Copy, Debug, PartialEq, Eq, Structural)]
pub enum EditorWindow {
    AppKit,
    Win32,
}

/// Whether an editor opens, and in which kind of window: all of the instance, the
/// parent, the callbacks and the editor have to be there, on a platform that the
/// host runs on.
pub fn editor_open(
    has_context: bool,
    has_parent: bool,
    has_callbacks: bool,
    has_editor: bool,
    platform: i32,
) -> (r: Option<EditorWindow>)
    ensures
        r == if !(has_context && has_parent && has_callbacks && has_editor) {
            None
        } else if platform == 1 {
            Some(EditorWindow::AppKit)
        } else if platform == 3 {
            Some(EditorWindow::Win32)
        } else {
            None
        },
{
    if !has_context || !has_callbacks || !has_parent || !has_editor {
        return None;
    }
    if platform == 1 {
        Some(EditorWindow::AppKit)
    } else if platform == 3 {
        Some(EditorWindow::Win32)
    } else {
        None
    }
}

/// An editor hands the plugin bytes of its own: they take the way of a loaded state,
/// without parameter values, and replace one that still waits.
pub fn editor_set_state(instance: &mut AaxInstance, bytes: Vec<u8>)
    ensures
        final(instance).pending_state.pending matches Some(state) && state.params@.len() == 0
            && state.extra == Some(bytes),
        *final(instance) == (AaxInstance {
            pending_state: final(instance).pending_state,
            ..*old(instance)
        }),
{
    receive_extra(&mut instance.pending_state, bytes);
}

/// The size of the editor, if there is one.
pub fn editor_get_size(editor: Option<&EditorGeometry>) -> (r: Option<(u32, u32)>)
    ensures
        r == match editor {
            Some(e) => Some(e.size),
            None => None,
        },
{
    match editor {
        Some(e) => Some(e.size),
        None => None,
    }
}

/// A text without the white space at its front.
pub open spec fn trimmed(s: Seq<char>) -> Seq<char>
    decreases s.len(),
{
    if s.len() > 0 && is_white(s[0]) {
        trimmed(s.skip(1))
    } else {
        s
    }
}

/// The digits at the front of a text.
pub open spec fn leading_digits(s: Seq<char>) -> Seq<char>
    decreases s.len(),
{
    if s.len() > 0 && '0' <= s[0] <= '9' {
        seq![s[0]] + leading_digits(s.skip(1))
    } else {
        Seq::empty()
    }
}

/// What stands behind a word at the front of a text, white space before and behind
/// the word left out.
pub open spec fn behind_word(s: Seq<char>, word: Seq<char>) -> Option<Seq<char>> {
    if starts_with(trimmed(s), word) {
        Some(trimmed(trimmed(s).skip(word.len() as int)))
    } else {
        None
    }
}

/// Where a comment that is open at `from` ends, if it does.
pub open spec fn comment_end(s: Seq<char>, from: int) -> Option<int>
    decreases s.len() - from,
{
    if from < 0 || from + 2 > s.len() {
        None
    } else if s[from] == '*' && s[from + 1] == '/' {
        Some(from + 2)
    } else {
        comment_end(s, from + 1)
    }
}

proof fn lemma_comment_end(s: Seq<char>, from: int)
    ensures
        comment_end(s, from) matches Some(end) ==> 0 <= from && from + 2 <= end <= s.len(),
    decreases s.len() - from,
{
    if !(from < 0 || from + 2 > s.len()) {
        lemma_comment_end(s, from + 1);
    }
}

/// A line without the comments and the white space at its front.
pub open spec fn behind_comments(line: Seq<char>) -> Seq<char>
    decreases line.len(),
    via behind_comments_shrinks
{
    let s = trimmed(line);
    if s.len() >= 2 && s[0] == '/' && s[1] == '*' {
        match comment_end(s, 2) {
            Some(end) => behind_comments(s.skip(end)),
            None => s,
        }
    } else {
        s
    }
}

#[via_fn]
proof fn behind_comments_shrinks(line: Seq<char>) {
    lemma_trimmed_len(line);
    lemma_comment_end(trimmed(line), 2);
}

proof fn lemma_trimmed_len(s: Seq<char>)
    ensures
        trimmed(s).len() <= s.len(),
    decreases s.len(),
{
    if s.len() > 0 && is_white(s[0]) {
        lemma_trimmed_len(s.skip(1));
    }
}

/// The digits of the version that a line of the header defines, if it does.
pub open spec fn defined_version(line: Seq<char>) -> Option<Seq<char>> {
    match behind_word(behind_comments(line), "#define"@) {
        Some(rest) => match behind_word(rest, "TRUCE_AAX_ABI_VERSION"@) {
            Some(rest) => if leading_digits(rest).len() > 0 {
                Some(leading_digits(rest))
            } else {
                None
            },
            None => None,
        },
        None => None,
    }
}

/// Where the first line of a text ends.
pub open spec fn line_end(s: Seq<char>) -> int
    decreases s.len(),
{
    if s.len() == 0 || s[0] == '\n' {
        0
    } else {
        1 + line_end(s.skip(1))
    }
}

/// The version that the first line defines which defines one.
pub open spec fn abi_version(contents: Seq<char>) -> Option<u32>
    decreases contents.len(),
{
    let n = line_end(contents);
    match defined_version(contents.take(n)) {
        Some(digits) => parsed_u32(digits),
        None => if 0 <= n < contents.len() {
            abi_version(contents.skip(n + 1))
        } else {
            None
        },
    }
}

fn skip_white(chars: &Vec<char>, from: usize, end: usize) -> (r: usize)
    requires
        from <= end <= chars@.len(),
    ensures
        from <= r <= end,
        chars@.subrange(r as int, end as int) == trimmed(chars@.subrange(from as int, end as int)),
{
    let mut i: usize = from;
    while i < end && is_whitespace(chars[i])
        invariant
            from <= i <= end <= chars@.len(),
            trimmed(chars@.subrange(i as int, end as int)) == trimmed(
                chars@.subrange(from as int, end as int),
            ),
        ensures
            from <= i <= end <= chars@.len(),
            trimmed(chars@.subrange(i as int, end as int)) == trimmed(
                chars@.subrange(from as int, end as int),
            ),
            i == end || !is_white(chars@[i as int]),
        decreases end - i,
    {
        proof {
            let rest = chars@.subrange(i as int, end as int);
            assert(rest.skip(1) =~= chars@.subrange(i + 1, end as int));
            assert(rest[0] == chars@[i as int]);
        }
        i = i + 1;
    }
    proof {
        let rest = chars@.subrange(i as int, end as int);
        if i < end {
            assert(rest[0] == chars@[i as int]);
        }
    }
    i
}

fn skip_comments(chars: &Vec<char>, from: usize, end: usize) -> (r: usize)
    requires
        from <= end <= chars@.len(),
    ensures
        from <= r <= end,
        chars@.subrange(r as int, end as int) == behind_comments(
            chars@.subrange(from as int, end as int),
        ),
    decreases end - from,
{
    let start: usize = skip_white(chars, from, end);
    let ghost s = chars@.subrange(start as int, end as int);
    if end - start < 2 || chars[start] != '/' || chars[start + 1] != '*' {
        return start;
    }
    let mut i: usize = start + 2;
    while end - i >= 2 && !(chars[i] == '*' && chars[i + 1] == '/')
        invariant
            start + 2 <= i <= end <= chars@.len(),
            s == chars@.subrange(start as int, end as int),
            comment_end(s, 2) == comment_end(s, i - start),
        decreases end - i,
    {
        i = i + 1;
    }
    if end - i < 2 {
        return start;
    }
    proof {
        assert(s.skip(i + 2 - start) =~= chars@.subrange(i + 2, end as int));
    }
    skip_comments(chars, i + 2, end)
}

fn skip_word(chars: &Vec<char>, from: usize, end: usize, word: &str) -> (r: Option<usize>)
    requires
        from <= end <= chars@.len(),
    ensures
        match r {
            Some(at) => from <= at <= end && behind_word(
                chars@.subrange(from as int, end as int),
                word@,
            ) == Some(chars@.subrange(at as int, end as int)),
            None => behind_word(chars@.subrange(from as int, end as int), word@) is None,
        },
{
    let start: usize = skip_white(chars, from, end);
    let wanted: Vec<char> = to_chars(word);
    let n: usize = wanted.len();
    let ghost rest = chars@.subrange(start as int, end as int);
    if n > end - start {
        return None;
    }
    let mut i: usize = 0;
    while i < n
        invariant
            i <= n == wanted@.len(),
            wanted@ == word@,
            start <= end <= chars@.len(),
            n <= end - start,
            rest == chars@.subrange(start as int, end as int),
            rest == trimmed(chars@.subrange(from as int, end as int)),
            forall|k: int| 0 <= k < i ==> rest[k] == wanted@[k],
        decreases n - i,
    {
        if chars[start + i] != wanted[i] {
            proof {
                assert(rest.take(n as int)[i as int] != word@[i as int]);
            }
            return None;
        }
        i = i + 1;
    }
    proof {
        assert(rest.take(n as int) =~= word@);
        assert(rest.skip(n as int) =~= chars@.subrange(start + n, end as int));
    }
    Some(skip_white(chars, start + n, end))
}

fn read_digits(chars: &Vec<char>, from: usize, end: usize) -> (r: String)
    requires
        from <= end <= chars@.len(),
    ensures
        r@ == leading_digits(chars@.subrange(from as int, end as int)),
{
    let mut r: String = String::new();
    let mut i: usize = from;
    let ghost all = leading_digits(chars@.subrange(from as int, end as int));
    proof {
        assert(r@ + all =~= all);
    }
    while i < end && '0' <= chars[i] && chars[i] <= '9'
        invariant
            from <= i <= end <= chars@.len(),
            all == r@ + leading_digits(chars@.subrange(i as int, end as int)),
        ensures
            from <= i <= end <= chars@.len(),
            all == r@ + leading_digits(chars@.subrange(i as int, end as int)),
            i == end || !('0' <= chars@[i as int] <= '9'),
        decreases end - i,
    {
        let ghost rest = chars@.subrange(i as int, end as int);
        let ghost before = r@;
        r.push(chars[i]);
        proof {
            assert(rest[0] == chars@[i as int]);
            assert(rest.skip(1) =~= chars@.subrange(i + 1, end as int));
            assert(before + (seq![rest[0]] + leading_digits(rest.skip(1))) =~= r@ + leading_digits(
                rest.skip(1),
            ));
        }
        i = i + 1;
    }
    proof {
        let rest = chars@.subrange(i as int, end as int);
        if i < end {
            assert(rest[0] == chars@[i as int]);
        }
        assert(leading_digits(rest) =~= Seq::empty());
        assert(r@ + leading_digits(rest) =~= r@);
    }
    r
}

/// Reads the version of the bridge's interface from its header: the first line that
/// defines it counts.
pub fn parse_abi_version(contents: &str) -> (r: Option<u32>)
    ensures
        r == abi_version(contents@),
{
    let chars: Vec<char> = to_chars(contents);
    let len: usize = chars.len();
    let mut start: usize = 0;
    proof {
        assert(chars@.skip(0) =~= contents@);
    }
    loop
        invariant
            start <= len == chars@.len(),
            abi_version(chars@.skip(start as int)) == abi_version(contents@),
        decreases len - start,
    {
        let ghost rest = chars@.skip(start as int);
        let mut end: usize = start;
        proof {
            assert(chars@.skip(end as int) =~= rest);
        }
        while end < len && chars[end] != '\n'
            invariant
                start <= end <= len == chars@.len(),
                line_end(rest) == (end - start) + line_end(chars@.skip(end as int)),
            ensures
                start <= end <= len == chars@.len(),
                line_end(rest) == (end - start) + line_end(chars@.skip(end as int)),
                end == len || chars@[end as int] == '\n',
            decreases len - end,
        {
            proof {
                assert(chars@.skip(end as int).skip(1) =~= chars@.skip(end + 1));
            }
            end = end + 1;
        }
        proof {
            assert(line_end(chars@.skip(end as int)) == 0);
            assert(rest.take(end - start) =~= chars@.subrange(start as int, end as int));
            assert(end < len ==> rest.skip(end - start + 1) =~= chars@.skip(end + 1));
        }
        let define: usize = skip_comments(&chars, start, end);
        if let Some(name) = skip_word(&chars, define, end, "#define") {
            if let Some(value) = skip_word(&chars, name, end, "TRUCE_AAX_ABI_VERSION") {
                let digits: String = read_digits(&chars, value, end);
                if !digits.as_str().is_empty() {
                    return parse_u32(digits.as_str());
                }
            }
        }
        if end >= len {
            return None;
        }
        start = end + 1;
    }
}

/// A four-character code is the number that its bytes spell, the first the highest, taken
/// as a signed one.
pub proof fn law_codes_are_spelled_from_the_front(b: Seq<u8>)
    requires
        b.len() == 4,
    ensures
        (as_signed(four_bytes(b)) - (b[0] * 16777216 + b[1] * 65536 + b[2] * 256 + b[3]))
            % 4294967296 == 0,
        -2147483648 <= as_signed(four_bytes(b)) <= 2147483647,
        b[0] < 128 ==> as_signed(four_bytes(b)) == b[0] * 16777216 + b[1] * 65536 + b[2] * 256
            + b[3],
        b[0] >= 128 ==> as_signed(four_bytes(b)) < 0,
{
}

/// Instruments and note effects are listed as such, whatever they are called; every other
/// plugin by its name for the format, or with the equalisers.
pub proof fn law_plugins_are_listed_by_kind(
    category: PluginCategory,
    name: Option<&'static str>,
)
    ensures
        category is Instrument ==> aax_category(category, name) == 0x800,
        category is NoteEffect ==> aax_category(category, name) == 0x10000,
        !(category is Instrument) && !(category is NoteEffect) ==> ({
            let code = aax_category(category, name);
            &&& code == 0x2 ==> (name matches Some(s) && s@ == "Dynamics"@)
            &&& code == 0x4 ==> (name matches Some(s) && s@ == "PitchShift"@)
            &&& code == 0x8 ==> (name matches Some(s) && s@ == "Reverb"@)
            &&& code == 0x10 ==> (name matches Some(s) && s@ == "Delay"@)
            &&& code == 0x20 ==> (name matches Some(s) && s@ == "Modulation"@)
            &&& code == 0x40 ==> (name matches Some(s) && s@ == "Harmonic"@)
            &&& code == 0x80 ==> (name matches Some(s) && s@ == "NoiseReduction"@)
            &&& code == 0x100 ==> (name matches Some(s) && s@ == "Dither"@)
            &&& code == 0x200 ==> (name matches Some(s) && s@ == "SoundField"@)
            &&& code == 0x2000 ==> (name matches Some(s) && s@ == "Effect"@)
            &&& code == 0x1 || code == 0x2 || code == 0x4 || code == 0x8 || code == 0x10 || code
                == 0x20 || code == 0x40 || code == 0x80 || code == 0x100 || code == 0x200 || code
                == 0x2000
            &&& code == 0x1 ==> (name matches Some(s) ==> s@ != "Dynamics"@ && s@ != "PitchShift"@
                && s@ != "Reverb"@ && s@ != "Delay"@ && s@ != "Modulation"@ && s@ != "Harmonic"@
                && s@ != "NoiseReduction"@ && s@ != "Dither"@ && s@ != "SoundField"@ && s@
                != "Effect"@)
        }),
{
}

/// What a host is told of a parameter is the parameter's own; its range goes by 0 where it
/// is linear, 1 where it is logarithmic and 2 where it is stepped.
pub proof fn law_descriptors_say_what_parameters_are(out: TruceAaxParamInfo, pi: ParamInfo)
    requires
        describes(out, pi),
    ensures
        out.id == pi.id && out.min == pi.min && out.max == pi.max,
        out.default_value == pi.default_plain && out.step_count == pi.step_count,
        !pi.name@.contains('\0') ==> out.name@ == pi.name@,
        !pi.unit@.contains('\0') ==> out.unit@ == pi.unit@,
        pi.range is Linear <==> out.range_type == 0,
        pi.range is Logarithmic <==> out.range_type == 1,
        pi.range is Discrete || pi.range is Enum <==> out.range_type == 2,
{
}

/// A plugin is registered with the channels that it has; one without inputs with as many
/// as it has outputs, but at least two, and one without any audio with two each way.
pub proof fn law_registered_channels(inputs: nat, outputs: nat)
    ensures
        inputs > 0 ==> aax_io(inputs, outputs) == (inputs, outputs),
        inputs == 0 && outputs >= 2 ==> aax_io(inputs, outputs) == (outputs, outputs),
        inputs == 0 && outputs == 1 ==> aax_io(inputs, outputs) == (2nat, 1nat),
        inputs == 0 && outputs == 0 ==> aax_io(inputs, outputs) == (2nat, 2nat),
{
}

/// A short message that a host sends says what its three bytes say, at its own sample and
/// on the first port, behind what came before it; one that says nothing is left out.
pub proof fn law_short_messages_say_what_their_bytes_say(messages: Seq<TruceAaxMidiEvent>, n: int)
    requires
        0 < n <= messages.len(),
    ensures
        ({
            let before = decoded_messages(messages, n - 1);
            let ev = messages[n - 1];
            decoded_messages(messages, n) == match parsed(
                0,
                seq![ev.status, ev.data1, ev.data2],
            ) {
                Some(body) => before.push(
                    Event { sample_offset: ev.delta_frames, port: 0, body },
                ),
                None => before,
            }
        }),
        decoded_messages(messages, 0).len() == 0,
{
    let ev = messages[n - 1];
    law_short_message_is_a_stream(ev.status, ev.data1, ev.data2);
}

/// A packet for the host carries the bytes of its event's message, at its sample; only
/// MIDI 1.0 channel voice has one.
pub proof fn law_packets_carry_the_message(event: Event)
    ensures
        match aax_packet(event) {
            Some(p) => p.delta_frames == event.sample_offset && p.pad == 0 && midi1_message(
                event.body,
            ).len() >= 2 && midi1_message(event.body) == seq![p.status, p.data1, p.data2].take(
                midi1_message(event.body).len() as int,
            ) && (midi1_message(event.body).len() == 2 ==> p.data2 == 0),
            None => midi1_message(event.body).len() == 0,
        },
{
    law_short_messages_are_messages(event.body);
}

/// The host drains the packets in the order of the events, those that have one.
pub proof fn law_packets_keep_their_order(events: Seq<Event>)
    ensures
        aax_packets(events) == events.filter(|e: Event| aax_packet(e) is Some).map_values(
            |e: Event| aax_packet(e)->0,
        ),
    decreases events.len(),
{
    reveal(Seq::filter);
    let has_one = |e: Event| aax_packet(e) is Some;
    let it = |e: Event| aax_packet(e)->0;
    if events.len() == 0 {
        assert(aax_packets(events) =~= events.filter(has_one).map_values(it));
    } else {
        let front = events.drop_last();
        let last = events.last();
        law_packets_keep_their_order(front);
        if has_one(last) {
            assert(events.filter(has_one) == front.filter(has_one).push(last));
            assert(front.filter(has_one).push(last).map_values(it) =~= front.filter(
                has_one,
            ).map_values(it).push(it(last)));
        } else {
            assert(events.filter(has_one) == front.filter(has_one));
        }
    }
}

/// The transport is the host's, but for a position in seconds, which is always zero.
pub proof fn law_transport_has_no_seconds(snapshot: Option<HostTransport>)
    ensures
        ({
            let r = aax_transport(snapshot);
            let h = host_transport(snapshot);
            &&& r.position_seconds == 0
            &&& r.playing == h.playing && r.recording == h.recording && r.tempo == h.tempo
            &&& r.time_sig_num == h.time_sig_num && r.time_sig_den == h.time_sig_den
            &&& r.position_samples == h.position_samples && r.position_beats == h.position_beats
            &&& r.bar_start_beats == h.bar_start_beats && r.loop_active == h.loop_active
            &&& r.loop_start_beats == h.loop_start_beats && r.loop_end_beats == h.loop_end_beats
        }),
{
}

/// Each change of the state has a revision of its own: the next number, and zero behind the
/// largest.
pub proof fn law_revisions_count_up(revision: u64)
    ensures
        revision < u64::MAX ==> next_revision(revision) == revision + 1,
        revision == u64::MAX ==> next_revision(revision) == 0,
{
}

/// A save cache gives back the bytes that it keeps at their own revision, and nothing at
/// any other.
pub proof fn law_cache_answers_at_its_revision(cache: SaveCache, at: u64, revision: u64)
    ensures
        match cache.entry {
            Some((kept, bytes)) => (cache.hit(revision) is Some <==> revision == kept) && (revision
                == kept ==> cache.hit(revision) == Some(bytes@)),
            None => cache.hit(revision) is None,
        },
{
}

/// The first line of a header that defines a version is the one that counts: lines in front
/// of it that define none are passed over.
pub proof fn law_first_defining_line_counts(line: Seq<char>, rest: Seq<char>)
    requires
        !line.contains('\n'),
    ensures
        abi_version(line + seq!['\n'] + rest) == match defined_version(line) {
            Some(digits) => parsed_u32(digits),
            None => abi_version(rest),
        },
{
    let all = line + seq!['\n'] + rest;
    lemma_line_end(line, rest);
    assert(all.take(line.len() as int) =~= line);
    assert(all.skip(line.len() as int + 1) =~= rest);
}

proof fn lemma_line_end(line: Seq<char>, rest: Seq<char>)
    requires
        !line.contains('\n'),
    ensures
        line_end(line + seq!['\n'] + rest) == line.len(),
    decreases line.len(),
{
    let all = line + seq!['\n'] + rest;
    if line.len() > 0 {
        assert(line.contains(line[0]));
        assert(all.skip(1) =~= line.skip(1) + seq!['\n'] + rest);
        assert forall|c: char| line.skip(1).contains(c) implies line.contains(c) by {
            let i = choose|i: int| 0 <= i < line.skip(1).len() && line.skip(1)[i] == c;
            assert(line[i + 1] == c);
        }
        lemma_line_end(line.skip(1), rest);
    }
}

/// A line that defines the version defines the number that stands behind the name, up to
/// what is no digit any more.
pub proof fn law_defining_line_gives_its_number(n: nat, tail: Seq<char>)
    requires
        tail.len() > 0 ==> !('0' <= tail[0] <= '9'),
    ensures
        defined_version("#define TRUCE_AAX_ABI_VERSION "@ + decimal(n) + tail) == Some(decimal(n)),
        n <= u32::MAX ==> parsed_u32(decimal(n)) == Some(n as u32),
{
    reveal_strlit("#define TRUCE_AAX_ABI_VERSION ");
    reveal_strlit("#define");
    reveal_strlit("TRUCE_AAX_ABI_VERSION");
    law_written_numbers_read_back(n);
    lemma_digits_at_front(decimal(n), tail);
    lemma_decimal_starts_with_a_digit(n);
    let number = decimal(n) + tail;
    let line = "#define TRUCE_AAX_ABI_VERSION "@ + decimal(n) + tail;
    assert(line[0] == '#' && line[1] == 'd');
    assert(trimmed(line) == line);
    assert(behind_comments(line) == line);
    assert(line.take(7) =~= "#define"@);
    let behind = line.skip(7);
    assert(behind[0] == ' ' && behind[1] == 'T');
    let name = line.skip(8);
    assert(behind.skip(1) =~= name);
    assert(name[0] == 'T');
    assert(trimmed(name) == name);
    assert(trimmed(behind) == trimmed(behind.skip(1)));
    assert(name.take(21) =~= "TRUCE_AAX_ABI_VERSION"@);
    let last = name.skip(21);
    assert(last[0] == ' ');
    assert(last.skip(1) =~= number);
    assert(number[0] == decimal(n)[0]);
    assert(trimmed(number) == number);
    assert(trimmed(last) == trimmed(last.skip(1)));
}

proof fn lemma_decimal_starts_with_a_digit(n: nat)
    ensures
        decimal(n).len() > 0,
        forall|i: int| 0 <= i < decimal(n).len() ==> '0' <= #[trigger] decimal(n)[i] <= '9',
    decreases n,
{
    if n >= 10 {
        lemma_decimal_starts_with_a_digit(n / 10);
    }
}

proof fn lemma_digits_at_front(digits: Seq<char>, tail: Seq<char>)
    ensures
        (forall|i: int| 0 <= i < digits.len() ==> '0' <= #[trigger] digits[i] <= '9') && (tail.len()
            > 0 ==> !('0' <= tail[0] <= '9')) ==> leading_digits(digits + tail) == digits,
    decreases digits.len(),
{
    let all = digits + tail;
    if digits.len() == 0 {
        assert(all =~= tail);
        assert(leading_digits(all) =~= digits || (tail.len() > 0 && '0' <= tail[0] <= '9'));
    } else {
        lemma_digits_at_front(digits.skip(1), tail);
        assert(all.skip(1) =~= digits.skip(1) + tail);
        assert(seq![digits[0]] + digits.skip(1) =~= digits);
    }
}

} // verus!
