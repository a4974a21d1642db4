//! CLAP wrapper: what a host asks of a plugin outside the process callback, and
//! how its audio buffers map to channels.
use crate::bus::{total_channels, BusConfig, BusLayout, ChannelConfig};
use crate::clap::{
    convert_input_events, converted_inputs, flush_gui_changes, gui_events, inputs_view,
    ClapInputEvent, ClapInstance, ClapOutputEvent, GuiParamChange,
};
use crate::chunked_process::writes;
use crate::events::{Event, EventBody};
use crate::info::{resolve_name_override, spec_name_override, PluginCategory, PluginInfo};
use crate::params::{ParamFlags, ParamInfo, ParamRange};
use crate::process::{PluginRuntime, RuntimeCall};
use crate::state::{param_calls, receive_state, DeserializedState};
use crate::text::{c_text, copy_str_to_buf, str_eq, to_c_text, with_text, zero_buffer};
use crate::wrapper::write_value_text;
use vstd::prelude::*;
use vstd::string::*;

verus! {

pub const CLAP_NAME_SIZE: usize = 256;

pub const CLAP_PATH_SIZE: usize = 1024;

pub const CLAP_INVALID_ID: u32 = 0xFFFF_FFFF;

pub const CLAP_PARAM_IS_STEPPED: u32 = 1;

pub const CLAP_PARAM_IS_HIDDEN: u32 = 4;

pub const CLAP_PARAM_IS_READONLY: u32 = 8;

pub const CLAP_PARAM_IS_BYPASS: u32 = 16;

pub const CLAP_PARAM_IS_AUTOMATABLE: u32 = 32;

pub const CLAP_PARAM_IS_ENUM: u32 = 65536;

pub const CLAP_AUDIO_PORT_IS_MAIN: u32 = 1;

pub const CLAP_NOTE_DIALECT_CLAP: u32 = 1;

pub const CLAP_PRESET_DISCOVERY_LOCATION_FILE: u32 = 0;

/// A bus of a host's audio buffers: whether it has any, and for each of its
/// channels whether there is a buffer.
pub struct ClapBus {
    pub has_data: bool,
    pub channels: Vec<bool>,
}

/// Where the samples of one channel are: nowhere, in the host's own buffer, or
/// in a scratch buffer of the plugin's precision.
#[derive(Clone, Copy, Debug, PartialEq, Eq, Structural)]
pub enum ChannelSlice {
    Empty,
    Host,
    Scratch,
}

pub open spec fn bus_slices(bus: ClapBus, same_precision: bool) -> Seq<ChannelSlice> {
    Seq::new(
        bus.channels@.len(),
        |ch: int|
            if !(bus.has_data && bus.channels@[ch]) {
                ChannelSlice::Empty
            } else if same_precision {
                ChannelSlice::Host
            } else {
                ChannelSlice::Scratch
            },
    )
}

/// The channels of all buses in one row. A missing buffer leaves an empty
/// channel at its place, so that no later channel moves.
pub open spec fn flat_slices(buses: Seq<ClapBus>, same_precision: bool) -> Seq<ChannelSlice>
    decreases buses.len(),
{
    if buses.len() == 0 {
        Seq::empty()
    } else {
        flat_slices(buses.drop_last(), same_precision) + bus_slices(buses.last(), same_precision)
    }
}

/// The channels of the buses in front of index `n`.
pub open spec fn channels_before(buses: Seq<ClapBus>, n: int) -> int
    decreases n,
{
    if n <= 0 {
        0
    } else {
        channels_before(buses, n - 1) + buses[n - 1].channels@.len()
    }
}

/// Lays the channels of a host's buses out in one row.
pub fn plan_channels(buses: &Vec<ClapBus>, same_precision: bool) -> (r: Vec<ChannelSlice>)
    ensures
        r@ == flat_slices(buses@, same_precision),
{
    let mut r: Vec<ChannelSlice> = Vec::new();
    let mut i: usize = 0;
    while i < buses.len()
        invariant
            i <= buses@.len(),
            r@ == flat_slices(buses@.take(i as int), same_precision),
        decreases buses@.len() - i,
    {
        let bus: &ClapBus = &buses[i];
        let ghost before = r@;
        let ghost all = bus_slices(*bus, same_precision);
        let mut ch: usize = 0;
        while ch < bus.channels.len()
            invariant
                ch <= bus.channels@.len(),
                all == bus_slices(*bus, same_precision),
                r@ == before + all.take(ch as int),
            decreases bus.channels@.len() - ch,
        {
            let slice: ChannelSlice = if !(bus.has_data && bus.channels[ch]) {
                ChannelSlice::Empty
            } else if same_precision {
                ChannelSlice::Host
            } else {
                ChannelSlice::Scratch
            };
            r.push(slice);
            ch = ch + 1;
            proof {
                assert(r@ =~= before + all.take(ch as int));
            }
        }
        proof {
            assert(all.take(ch as int) =~= all);
            assert(buses@.take(i + 1).drop_last() =~= buses@.take(i as int));
        }
        i = i + 1;
    }
    proof {
        assert(buses@.take(i as int) =~= buses@);
    }
    r
}

/// Every channel keeps its place: channel `ch` of bus `b` stands behind all the
/// channels of the buses before it, whatever buffers are missing there.
pub proof fn law_channels_keep_their_index(
    buses: Seq<ClapBus>,
    same_precision: bool,
    b: int,
    ch: int,
)
    requires
        0 <= b < buses.len(),
        0 <= ch < buses[b].channels@.len(),
    ensures
        flat_slices(buses, same_precision).len() == channels_before(buses, buses.len() as int),
        channels_before(buses, b) + ch < flat_slices(buses, same_precision).len(),
        flat_slices(buses, same_precision)[channels_before(buses, b) + ch] == bus_slices(
            buses[b],
            same_precision,
        )[ch],
    decreases buses.len(),
{
    let front = buses.drop_last();
    lemma_flat_len(buses, same_precision);
    lemma_flat_len(front, same_precision);
    lemma_channels_before_prefix(buses, b);
    if b < buses.len() - 1 {
        law_channels_keep_their_index(front, same_precision, b, ch);
        assert(front[b] == buses[b]);
    } else {
        lemma_channels_before_prefix(buses, buses.len() - 1);
    }
}

proof fn lemma_channels_before_prefix(buses: Seq<ClapBus>, n: int)
    requires
        0 <= n < buses.len(),
    ensures
        channels_before(buses.drop_last(), n) == channels_before(buses, n),
        channels_before(buses, n) >= 0,
    decreases n,
{
    if n > 0 {
        lemma_channels_before_prefix(buses, n - 1);
        assert(buses.drop_last()[n - 1] == buses[n - 1]);
    }
}

proof fn lemma_flat_len(buses: Seq<ClapBus>, same_precision: bool)
    ensures
        flat_slices(buses, same_precision).len() == channels_before(buses, buses.len() as int),
    decreases buses.len(),
{
    if buses.len() > 0 {
        lemma_flat_len(buses.drop_last(), same_precision);
        lemma_channels_before_prefix(buses, buses.len() - 1);
    }
}

/// A buffer of `len` zero bytes with a text at its front.
pub open spec fn name_buffer(len: nat, text: &str) -> Seq<u8> {
    with_text(Seq::new(len, |i: int| 0u8), text.spec_bytes())
}

fn fill_buffer(len: usize, text: &str) -> (r: Vec<u8>)
    requires
        len > 0,
    ensures
        r@ == name_buffer(len as nat, text),
{
    let mut r: Vec<u8> = zero_buffer(len);
    copy_str_to_buf(&mut r, text);
    r
}

/// What a host is told of a parameter.
pub struct ClapParamInfo {
    pub id: u32,
    pub flags: u32,
    pub min_value: u64,
    pub max_value: u64,
    pub default_value: u64,
    pub name: Vec<u8>,
    pub module: Vec<u8>,
}

pub open spec fn flag_value(set: bool, flag: u32) -> int {
    if set {
        flag as int
    } else {
        0
    }
}

/// The flags of a parameter in the host's numbering.
pub open spec fn clap_flags(flags: ParamFlags, range: ParamRange) -> int {
    flag_value(flags.automatable, CLAP_PARAM_IS_AUTOMATABLE) + flag_value(
        flags.hidden,
        CLAP_PARAM_IS_HIDDEN,
    ) + flag_value(flags.readonly, CLAP_PARAM_IS_READONLY) + flag_value(
        flags.is_bypass,
        CLAP_PARAM_IS_BYPASS,
    ) + flag_value(range is Enum || range is Discrete, CLAP_PARAM_IS_STEPPED) + flag_value(
        range is Enum,
        CLAP_PARAM_IS_ENUM,
    )
}

/// Describes the parameter at an index, if there is one. The module path is the
/// parameter's group.
pub fn params_get_info(infos: &Vec<ParamInfo>, param_index: u32) -> (r: Option<ClapParamInfo>)
    ensures
        match r {
            None => param_index >= infos@.len(),
            Some(out) => {
                let info = infos@[param_index as int];
                &&& param_index < infos@.len()
                &&& out.id == info.id
                &&& out.flags == clap_flags(info.flags, info.range)
                &&& out.min_value == info.min
                &&& out.max_value == info.max
                &&& out.default_value == info.default_plain
                &&& out.name@ == name_buffer(CLAP_NAME_SIZE as nat, info.name)
                &&& out.module@ == name_buffer(CLAP_PATH_SIZE as nat, info.group)
            },
        },
{
    if param_index as usize >= infos.len() {
        return None;
    }
    let info: &ParamInfo = &infos[param_index as usize];
    let mut flags: u32 = 0;
    if info.flags.automatable {
        flags = flags + CLAP_PARAM_IS_AUTOMATABLE;
    }
    if info.flags.hidden {
        flags = flags + CLAP_PARAM_IS_HIDDEN;
    }
    if info.flags.readonly {
        flags = flags + CLAP_PARAM_IS_READONLY;
    }
    if info.flags.is_bypass {
        flags = flags + CLAP_PARAM_IS_BYPASS;
    }
    match info.range {
        ParamRange::Enum => {
            flags = flags + CLAP_PARAM_IS_STEPPED + CLAP_PARAM_IS_ENUM;
        },
        ParamRange::Discrete => {
            flags = flags + CLAP_PARAM_IS_STEPPED;
        },
        _ => {},
    }
    Some(
        ClapParamInfo {
            id: info.id,
            flags,
            min_value: info.min,
            max_value: info.max,
            default_value: info.default_plain,
            name: fill_buffer(CLAP_NAME_SIZE, info.name),
            module: fill_buffer(CLAP_PATH_SIZE, info.group),
        },
    )
}

/// Writes a parameter's formatted value into the host's buffer. A parameter that
/// does not exist has none.
pub fn params_value_to_text(text: Option<&str>, buffer: &mut Vec<u8>) -> (r: bool)
    ensures
        r == (text is Some && old(buffer)@.len() > 0),
        final(buffer)@ == if r {
            with_text(old(buffer)@, (text->0).spec_bytes())
        } else {
            old(buffer)@
        },
{
    write_value_text(text, buffer)
}

/// What a host is told of an audio port. The port type is `mono` or `stereo`,
/// or left open.
pub struct ClapAudioPort {
    pub id: u32,
    pub name: Vec<u8>,
    pub flags: u32,
    pub channel_count: u32,
    pub port_type: Option<&'static str>,
    pub in_place_pair: u32,
}

/// The buses of the first layout, on one side.
pub open spec fn port_buses(layouts: Seq<BusLayout>, is_input: bool) -> Seq<BusConfig> {
    if layouts.len() == 0 {
        Seq::empty()
    } else if is_input {
        layouts[0].inputs@
    } else {
        layouts[0].outputs@
    }
}

/// How many audio ports there are: the buses of the first layout.
pub fn audio_ports_count(layouts: &Vec<BusLayout>, is_input: bool) -> (r: u32)
    requires
        port_buses(layouts@, is_input).len() <= u32::MAX,
    ensures
        r == port_buses(layouts@, is_input).len(),
{
    if layouts.len() == 0 {
        return 0;
    }
    if is_input {
        layouts[0].inputs.len() as u32
    } else {
        layouts[0].outputs.len() as u32
    }
}

pub open spec fn port_type_of(channels: ChannelConfig) -> Option<&'static str> {
    match channels {
        ChannelConfig::Mono => Some("mono"),
        ChannelConfig::Stereo => Some("stereo"),
        ChannelConfig::Custom(_) => None,
    }
}

/// Describes an audio port, if there is one at the index. The first is the main
/// port.
pub fn audio_ports_get(layouts: &Vec<BusLayout>, index: u32, is_input: bool) -> (r: Option<
    ClapAudioPort,
>)
    ensures
        match r {
            None => index >= port_buses(layouts@, is_input).len(),
            Some(out) => {
                let bus = port_buses(layouts@, is_input)[index as int];
                &&& index < port_buses(layouts@, is_input).len()
                &&& out.id == index
                &&& out.name@ == name_buffer(CLAP_NAME_SIZE as nat, bus.name)
                &&& out.channel_count == bus.channels.count()
                &&& out.flags == if index == 0 {
                    CLAP_AUDIO_PORT_IS_MAIN
                } else {
                    0
                }
                &&& out.port_type == port_type_of(bus.channels)
                &&& out.in_place_pair == CLAP_INVALID_ID
            },
        },
{
    if layouts.len() == 0 {
        return None;
    }
    let buses: &Vec<BusConfig> = if is_input {
        &layouts[0].inputs
    } else {
        &layouts[0].outputs
    };
    if index as usize >= buses.len() {
        return None;
    }
    let bus: &BusConfig = &buses[index as usize];
    Some(
        ClapAudioPort {
            id: index,
            name: fill_buffer(CLAP_NAME_SIZE, bus.name),
            flags: if index == 0 {
                CLAP_AUDIO_PORT_IS_MAIN
            } else {
                0
            },
            channel_count: bus.channels.channel_count(),
            port_type: match bus.channels {
                ChannelConfig::Mono => Some("mono"),
                ChannelConfig::Stereo => Some("stereo"),
                ChannelConfig::Custom(_) => None,
            },
            in_place_pair: CLAP_INVALID_ID,
        },
    )
}

/// What a host is told of a note port.
pub struct ClapNotePort {
    pub id: u32,
    pub supported_dialects: u32,
    pub preferred_dialect: u32,
    pub name: Vec<u8>,
}

/// Every plugin declares one note port on each side.
pub fn note_ports_count(is_input: bool) -> (r: u32)
    ensures
        r == 1,
{
    1
}

/// Describes the note port of one side; there is none but the first.
pub fn note_ports_get(index: u32, is_input: bool) -> (r: Option<ClapNotePort>)
    ensures
        match r {
            None => index != 0,
            Some(out) => {
                &&& index == 0
                &&& out.id == if is_input {
                    0u32
                } else {
                    1u32
                }
                &&& out.supported_dialects == CLAP_NOTE_DIALECT_CLAP
                &&& out.preferred_dialect == CLAP_NOTE_DIALECT_CLAP
                &&& out.name@ == name_buffer(
                    CLAP_NAME_SIZE as nat,
                    if is_input {
                        "Note Input"
                    } else {
                        "Note Output"
                    },
                )
            },
        },
{
    if index != 0 {
        return None;
    }
    Some(
        ClapNotePort {
            id: if is_input {
                0
            } else {
                1
            },
            supported_dialects: CLAP_NOTE_DIALECT_CLAP,
            preferred_dialect: CLAP_NOTE_DIALECT_CLAP,
            name: fill_buffer(
                CLAP_NAME_SIZE,
                if is_input {
                    "Note Input"
                } else {
                    "Note Output"
                },
            ),
        },
    )
}

/// The interfaces that a plugin offers beside the core one.
#[derive(Clone, Copy, Debug, PartialEq, Eq, Structural)]
pub enum ClapExtension {
    Params,
    State,
    PresetLoad,
    AudioPorts,
    NotePorts,
    Gui,
    Latency,
    Tail,
}

/// The interface that an identifier names.
pub open spec fn extension_of(id: Seq<char>) -> Option<ClapExtension> {
    if id == "clap.params"@ {
        Some(ClapExtension::Params)
    } else if id == "clap.state"@ {
        Some(ClapExtension::State)
    } else if id == "clap.preset-load/2"@ || id == "clap.preset-load.draft/2"@ {
        Some(ClapExtension::PresetLoad)
    } else if id == "clap.audio-ports"@ {
        Some(ClapExtension::AudioPorts)
    } else if id == "clap.note-ports"@ {
        Some(ClapExtension::NotePorts)
    } else if id == "clap.gui"@ {
        Some(ClapExtension::Gui)
    } else if id == "clap.latency"@ {
        Some(ClapExtension::Latency)
    } else if id == "clap.tail"@ {
        Some(ClapExtension::Tail)
    } else {
        None
    }
}

/// Looks an interface up. A host that names none gets none.
pub fn clap_plugin_get_extension(id: Option<&str>) -> (r: Option<ClapExtension>)
    ensures
        r == match id {
            Some(text) => extension_of(text@),
            None => None,
        },
{
    match id {
        None => None,
        Some(text) => {
            if str_eq(text, "clap.params") {
                return Some(ClapExtension::Params);
            }
            if str_eq(text, "clap.state") {
                return Some(ClapExtension::State);
            }
            if str_eq(text, "clap.preset-load/2") || str_eq(text, "clap.preset-load.draft/2") {
                return Some(ClapExtension::PresetLoad);
            }
            if str_eq(text, "clap.audio-ports") {
                return Some(ClapExtension::AudioPorts);
            }
            if str_eq(text, "clap.note-ports") {
                return Some(ClapExtension::NotePorts);
            }
            if str_eq(text, "clap.gui") {
                return Some(ClapExtension::Gui);
            }
            if str_eq(text, "clap.latency") {
                return Some(ClapExtension::Latency);
            }
            if str_eq(text, "clap.tail") {
                return Some(ClapExtension::Tail);
            }
            None
        },
    }
}

/// The strings of a plugin's descriptor. A string that holds a zero character is
/// left empty.
pub struct DescriptorHolder {
    pub id: String,
    pub name: String,
    pub vendor: String,
    pub url: String,
    pub support_url: String,
    pub version: String,
    pub features: Vec<&'static str>,
}

/// The feature words of a category.
pub open spec fn features_of(category: PluginCategory) -> Seq<&'static str> {
    match category {
        PluginCategory::Instrument => seq!["instrument", "synthesizer"],
        PluginCategory::NoteEffect => seq!["note-effect"],
        _ => seq!["audio-effect"],
    }
}

impl DescriptorHolder {
    #[must_use]
    pub fn new(info: &PluginInfo) -> (r: Self)
        ensures
            r.id@ == c_text(info.clap_id@),
            r.name@ == c_text(spec_name_override(info.clap_name, info.name)@),
            r.vendor@ == c_text(info.vendor@),
            r.url@ == c_text(info.url@),
            r.support_url@ == c_text(info.url@),
            r.version@ == c_text(info.version@),
            r.features@ == features_of(info.category),
    {
        let mut features: Vec<&'static str> = Vec::new();
        match info.category {
            PluginCategory::Instrument => {
                features.push("instrument");
                features.push("synthesizer");
            },
            PluginCategory::NoteEffect => {
                features.push("note-effect");
            },
            _ => {
                features.push("audio-effect");
            },
        }
        proof {
            assert(features@ =~= features_of(info.category));
        }
        DescriptorHolder {
            id: to_c_text(info.clap_id),
            name: to_c_text(resolved_name(info)),
            vendor: to_c_text(info.vendor),
            url: to_c_text(info.url),
            support_url: to_c_text(info.url),
            version: to_c_text(info.version),
            features,
        }
    }
}

/// The plugin's name in host browsers.
pub fn resolved_name(info: &PluginInfo) -> (r: &'static str)
    ensures
        r == spec_name_override(info.clap_name, info.name),
{
    resolve_name_override(info.clap_name, info.name)
}

/// How far a write of a saved state has come.
#[derive(Clone, Copy, Debug, PartialEq, Eq, Structural)]
pub enum SaveStep {
    /// The next write starts at this byte.
    Write(usize),
    Done,
    Failed,
}

/// What follows a write that started at byte `offset` of a state of `len` bytes
/// and reported `written`: a stream that takes nothing fails the save.
pub fn state_save_step(offset: usize, len: usize, written: i64) -> (r: SaveStep)
    requires
        offset < len,
        written > 0 ==> offset + written <= usize::MAX,
    ensures
        r == save_step(offset, len, written),
{
    if written <= 0 {
        return SaveStep::Failed;
    }
    let next: usize = offset + written as usize;
    if next < len {
        SaveStep::Write(next)
    } else {
        SaveStep::Done
    }
}

/// Takes one read of a saved state in: `read` bytes of `buffer` go behind the
/// blob. Whether to read on comes back; a stream at its end reports none.
pub fn state_load_chunk(blob: &mut Vec<u8>, buffer: &[u8], read: i64) -> (more: bool)
    requires
        read <= buffer@.len(),
    ensures
        more == (read > 0),
        final(blob)@ == blob_with(old(blob)@, buffer@, read),
{
    if read <= 0 {
        return false;
    }
    let len: usize = buffer.len();
    assert(read <= len);
    let n: usize = read as usize;
    let ghost start = blob@;
    let mut i: usize = 0;
    proof {
        assert(start + buffer@.take(0) =~= start);
    }
    while i < n
        invariant
            i <= n <= buffer@.len(),
            blob@ == start + buffer@.take(i as int),
        decreases n - i,
    {
        blob.push(buffer[i]);
        i = i + 1;
        proof {
            assert(blob@ =~= start + buffer@.take(i as int));
        }
    }
    true
}

/// Takes a state in that was read back: its parameter values apply at once, so
/// that the host reads them, and the whole state is handed to the audio thread,
/// where it replaces an older one that still waits. Nothing happens to a state
/// that did not parse. Whether it was taken comes back; the editor then has to
/// hear of it.
pub fn state_load<P: PluginRuntime>(
    instance: &mut ClapInstance,
    plugin: &mut P,
    parsed: Option<DeserializedState>,
) -> (r: bool)
    ensures
        r == (parsed is Some),
        match parsed {
            Some(state) => final(instance).pending_state.pending == Some(state)
                && final(plugin).trace() == old(plugin).trace() + param_calls(state),
            None => final(instance).pending_state.pending == old(instance).pending_state.pending
                && final(plugin).trace() == old(plugin).trace(),
        },
        *final(instance) == (ClapInstance {
            pending_state: final(instance).pending_state,
            ..*old(instance)
        }),
{
    receive_state(&mut instance.pending_state, plugin, parsed)
}

/// Loads a preset that a host names by its location, where that is a file whose
/// path could be read and whose state parsed.
pub fn preset_load_from_location<P: PluginRuntime>(
    instance: &mut ClapInstance,
    plugin: &mut P,
    location_kind: u32,
    has_path: bool,
    parsed: Option<DeserializedState>,
) -> (r: bool)
    ensures
        r == (location_kind == CLAP_PRESET_DISCOVERY_LOCATION_FILE && has_path && parsed is Some),
        r ==> final(instance).pending_state.pending == parsed && final(plugin).trace() == old(
            plugin,
        ).trace() + param_calls(parsed->0),
        !r ==> final(instance).pending_state.pending == old(instance).pending_state.pending
            && final(plugin).trace() == old(plugin).trace(),
        *final(instance) == (ClapInstance {
            pending_state: final(instance).pending_state,
            ..*old(instance)
        }),
{
    if location_kind != CLAP_PRESET_DISCOVERY_LOCATION_FILE || !has_path {
        return false;
    }
    state_load(instance, plugin, parsed)
}

/// Forwards parameter values while no block runs: every value of the host is set
/// at once, in the order of its events, and the editor's changes go out.
pub fn params_flush<P: PluginRuntime>(
    instance: &mut ClapInstance,
    plugin: &mut P,
    in_events: Option<&Vec<Option<ClapInputEvent>>>,
    can_push: bool,
) -> (sent: Vec<ClapOutputEvent>)
    ensures
        final(plugin).trace() == old(plugin).trace() + writes(
            converted_inputs(inputs_view(in_events), false).0,
        ),
        sent@ == if can_push {
            gui_events(old(instance).gui_changes.changes())
        } else {
            Seq::<ClapOutputEvent>::empty()
        },
        final(instance).gui_changes.changes() == if can_push {
            Seq::<GuiParamChange>::empty()
        } else {
            old(instance).gui_changes.changes()
        },
        final(instance).gui_changes.capacity() == old(instance).gui_changes.capacity(),
        (final(instance).event_list.events@, final(instance).event_list.pool@)
            == converted_inputs(inputs_view(in_events), false),
        *final(instance) == (ClapInstance {
            gui_changes: final(instance).gui_changes,
            event_list: final(instance).event_list,
            ..*old(instance)
        }),
{
    convert_input_events(&mut instance.event_list, in_events, false, false);
    let ghost events = instance.event_list.events@;
    let ghost trace0 = plugin.trace();
    let mut i: usize = 0;
    proof {
        assert(trace0 + writes(events.take(0)) =~= trace0);
    }
    while i < instance.event_list.events.len()
        invariant
            i <= events.len(),
            instance.event_list.events@ == events,
            instance.gui_changes == old(instance).gui_changes,
            instance.pending_state == old(instance).pending_state,
            plugin.trace() == trace0 + writes(events.take(i as int)),
        decreases events.len() - i,
    {
        let event: Event = instance.event_list.events[i];
        proof {
            assert(events.take(i + 1).drop_last() =~= events.take(i as int));
            assert(events.take(i + 1).last() == event);
        }
        if let EventBody::ParamChange { id, value } = event.body {
            plugin.set_plain(id, value);
            proof {
                assert(plugin.trace() =~= trace0 + writes(events.take(i + 1)));
            }
        }
        i = i + 1;
    }
    proof {
        assert(events.take(i as int) =~= events);
    }
    let mut sent: Vec<ClapOutputEvent> = Vec::new();
    flush_gui_changes(&mut instance.gui_changes, can_push, &mut sent);
    proof {
        if can_push {
            assert(sent@ =~= gui_events(old(instance).gui_changes.changes()));
        }
    }
    sent
}

/// Takes over what a plugin reports of itself once it is set up: its parameters, its
/// latency and its tail.
pub fn clap_plugin_init<P: PluginRuntime>(
    instance: &mut ClapInstance,
    plugin: &P,
    param_infos: Vec<ParamInfo>,
)
    ensures
        *final(instance) == (ClapInstance {
            param_infos,
            latency_cache: plugin.reported_latency(),
            tail_cache: plugin.reported_tail(),
            ..*old(instance)
        }),
{
    instance.param_infos = param_infos;
    instance.latency_cache = plugin.latency();
    instance.tail_cache = plugin.tail();
}

/// Finishes the reset of a plugin: its smoothers jump to their targets, and what it
/// now reports of latency and tail is taken over.
pub fn clap_plugin_reset<P: PluginRuntime>(instance: &mut ClapInstance, plugin: &mut P)
    ensures
        final(plugin).trace() == old(plugin).trace().push(RuntimeCall::SnapSmoothers),
        *final(instance) == (ClapInstance {
            latency_cache: final(plugin).reported_latency(),
            tail_cache: final(plugin).reported_tail(),
            ..*old(instance)
        }),
{
    plugin.snap_smoothers();
    instance.latency_cache = plugin.latency();
    instance.tail_cache = plugin.tail();
}

/// Whether the host has to read the parameters anew; asked once per change.
pub fn clap_plugin_on_main_thread(instance: &mut ClapInstance, can_rescan: bool) -> (r: bool)
    ensures
        r == (old(instance).needs_rescan && can_rescan),
        *final(instance) == (ClapInstance { needs_rescan: false, ..*old(instance) }),
{
    let needed: bool = instance.needs_rescan;
    instance.needs_rescan = false;
    needed && can_rescan
}

/// The most channels that any layout has on one side, zero without layouts.
pub open spec fn most_channels(layouts: Seq<BusLayout>, is_input: bool) -> nat
    decreases layouts.len(),
{
    if layouts.len() == 0 {
        0
    } else {
        let rest = most_channels(layouts.drop_last(), is_input);
        let own = total_channels(
            if is_input {
                layouts.last().inputs@
            } else {
                layouts.last().outputs@
            },
        );
        if own > rest {
            own
        } else {
            rest
        }
    }
}

/// The channel scratch that a new instance reserves: enough for its widest
/// layout.
pub fn scratch_channels(layouts: &Vec<BusLayout>, is_input: bool) -> (r: u32)
    requires
        forall|i: int|
            0 <= i < layouts@.len() ==> total_channels(#[trigger] layouts@[i].inputs@) <= u32::MAX
                && total_channels(layouts@[i].outputs@) <= u32::MAX,
    ensures
        r == most_channels(layouts@, is_input),
{
    let mut most: u32 = 0;
    let mut i: usize = 0;
    while i < layouts.len()
        invariant
            i <= layouts@.len(),
            most == most_channels(layouts@.take(i as int), is_input),
            forall|k: int|
                0 <= k < layouts@.len() ==> total_channels(#[trigger] layouts@[k].inputs@)
                    <= u32::MAX && total_channels(layouts@[k].outputs@) <= u32::MAX,
        decreases layouts@.len() - i,
    {
        proof {
            assert(layouts@.take(i + 1).drop_last() =~= layouts@.take(i as int));
            assert(total_channels(layouts@[i as int].inputs@) <= u32::MAX);
        }
        let own: u32 = if is_input {
            layouts[i].total_input_channels()
        } else {
            layouts[i].total_output_channels()
        };
        if own > most {
            most = own;
        }
        i = i + 1;
    }
    proof {
        assert(layouts@.take(i as int) =~= layouts@);
    }
    most
}

/// A channel without a buffer is an empty one; every other is in the host's buffer where the
/// host counts as the plugin does, and in a scratch buffer where it does not.
pub proof fn law_channels_are_where_their_samples_are(
    bus: ClapBus,
    same_precision: bool,
    ch: int,
)
    requires
        0 <= ch < bus.channels@.len(),
    ensures
        bus_slices(bus, same_precision).len() == bus.channels@.len(),
        bus_slices(bus, same_precision)[ch] is Empty <==> !bus.has_data || !bus.channels@[ch],
        bus_slices(bus, same_precision)[ch] is Host <==> bus.has_data && bus.channels@[ch]
            && same_precision,
        bus_slices(bus, same_precision)[ch] is Scratch <==> bus.has_data && bus.channels@[ch]
            && !same_precision,
{
}

/// A parameter's flags in the host's numbering: 32 where it can be automated, 4 where it is
/// hidden, 8 where it cannot be written, 16 where it is the bypass, 1 where it has steps and
/// 65536 where the steps have names.
pub proof fn law_flags_in_the_hosts_numbering(flags: ParamFlags, range: ParamRange)
    ensures
        ({
            let n = clap_flags(flags, range);
            &&& n / 32 % 2 == 1 <==> flags.automatable
            &&& n / 4 % 2 == 1 <==> flags.hidden
            &&& n / 8 % 2 == 1 <==> flags.readonly
            &&& n / 16 % 2 == 1 <==> flags.is_bypass
            &&& n % 2 == 1 <==> range is Discrete || range is Enum
            &&& n / 65536 % 2 == 1 <==> range is Enum
            &&& 0 <= n <= 65536 + 32 + 16 + 8 + 4 + 1 && n / 2 % 2 == 0 && n / 64 % 1024 == 0
        }),
{
}

/// The ports of one side are the buses of the first layout on that side, in their order.
pub proof fn law_ports_are_the_first_layouts_buses(layouts: Seq<BusLayout>)
    ensures
        layouts.len() == 0 ==> port_buses(layouts, true).len() == 0 && port_buses(
            layouts,
            false,
        ).len() == 0,
        layouts.len() > 0 ==> port_buses(layouts, true) == layouts[0].inputs@ && port_buses(
            layouts,
            false,
        ) == layouts[0].outputs@,
{
}

/// A port of one channel is a mono port, one of a stereo pair a stereo port, and any other
/// is of no type that has a name.
pub proof fn law_port_types_go_by_their_channels(channels: ChannelConfig)
    ensures
        channels is Mono ==> (port_type_of(channels) matches Some(t) && t@ == "mono"@),
        channels is Stereo ==> (port_type_of(channels) matches Some(t) && t@ == "stereo"@),
        channels is Custom ==> port_type_of(channels) is None,
{
}

/// Each interface goes by its own identifier, and by no other; only the one that loads
/// presets has two.
pub proof fn law_interfaces_go_by_their_identifiers(id: Seq<char>)
    ensures
        extension_of("clap.params"@) == Some(ClapExtension::Params),
        extension_of("clap.state"@) == Some(ClapExtension::State),
        extension_of("clap.preset-load/2"@) == Some(ClapExtension::PresetLoad),
        extension_of("clap.preset-load.draft/2"@) == Some(ClapExtension::PresetLoad),
        extension_of("clap.audio-ports"@) == Some(ClapExtension::AudioPorts),
        extension_of("clap.note-ports"@) == Some(ClapExtension::NotePorts),
        extension_of("clap.gui"@) == Some(ClapExtension::Gui),
        extension_of("clap.latency"@) == Some(ClapExtension::Latency),
        extension_of("clap.tail"@) == Some(ClapExtension::Tail),
        extension_of(id) is Some ==> id == "clap.params"@ || id == "clap.state"@ || id
            == "clap.preset-load/2"@ || id == "clap.preset-load.draft/2"@ || id
            == "clap.audio-ports"@ || id == "clap.note-ports"@ || id == "clap.gui"@ || id
            == "clap.latency"@ || id == "clap.tail"@,
{
    reveal_strlit("clap.params");
    reveal_strlit("clap.state");
    reveal_strlit("clap.preset-load/2");
    reveal_strlit("clap.preset-load.draft/2");
    reveal_strlit("clap.audio-ports");
    reveal_strlit("clap.note-ports");
    reveal_strlit("clap.gui");
    reveal_strlit("clap.latency");
    reveal_strlit("clap.tail");
    assert("clap.params"@.len() == 11 && "clap.state"@.len() == 10 && "clap.gui"@.len() == 8);
    assert("clap.preset-load/2"@.len() == 18 && "clap.preset-load.draft/2"@.len() == 24);
    assert("clap.audio-ports"@.len() == 16 && "clap.note-ports"@.len() == 15);
    assert("clap.latency"@.len() == 12 && "clap.tail"@.len() == 9);
}

/// A plugin's features tell hosts what it is: an instrument is a synthesizer too, a note
/// effect is one, and everything else is an audio effect.
pub proof fn law_features_tell_the_category(category: PluginCategory)
    ensures
        category is Instrument ==> features_of(category).len() == 2 && features_of(category)[0]@
            == "instrument"@ && features_of(category)[1]@ == "synthesizer"@,
        category is NoteEffect ==> features_of(category).len() == 1 && features_of(category)[0]@
            == "note-effect"@,
        !(category is Instrument) && !(category is NoteEffect) ==> features_of(category).len() == 1
            && features_of(category)[0]@ == "audio-effect"@,
{
}

/// The scratch is as wide as the widest layout: no layout has more channels, and one has as
/// many.
pub proof fn law_scratch_fits_the_widest_layout(layouts: Seq<BusLayout>, is_input: bool)
    ensures
        forall|i: int|
            0 <= i < layouts.len() ==> most_channels(layouts, is_input) >= total_channels(
                if is_input {
                    (#[trigger] layouts[i]).inputs@
                } else {
                    layouts[i].outputs@
                },
            ),
        most_channels(layouts, is_input) > 0 ==> exists|i: int|
            0 <= i < layouts.len() && most_channels(layouts, is_input) == total_channels(
                if is_input {
                    (#[trigger] layouts[i]).inputs@
                } else {
                    layouts[i].outputs@
                },
            ),
    decreases layouts.len(),
{
    if layouts.len() > 0 {
        let front = layouts.drop_last();
        law_scratch_fits_the_widest_layout(front, is_input);
        assert forall|i: int| 0 <= i < layouts.len() implies most_channels(layouts, is_input)
            >= total_channels(
            if is_input {
                (#[trigger] layouts[i]).inputs@
            } else {
                layouts[i].outputs@
            },
        ) by {
            if i < front.len() {
                assert(front[i] == layouts[i]);
            }
        }
        if most_channels(layouts, is_input) > 0 {
            if most_channels(layouts, is_input) == most_channels(front, is_input) {
                let i = choose|i: int|
                    0 <= i < front.len() && most_channels(front, is_input) == total_channels(
                        if is_input {
                            (#[trigger] front[i]).inputs@
                        } else {
                            front[i].outputs@
                        },
                    );
                assert(layouts[i] == front[i]);
            } else {
                assert(layouts[layouts.len() - 1] == layouts.last());
            }
        }
    }
}

/// A name stands at the front of its buffer, as far as it fits, with zeros behind it.
pub proof fn law_names_are_filled_up_with_zeros(len: nat, text: &str, i: int)
    requires
        0 <= i < len,
    ensures
        name_buffer(len, text).len() == len,
        name_buffer(len, text)[i] == if i < text.spec_bytes().len() && i < len - 1 {
            text.spec_bytes()[i]
        } else {
            0
        },
{
}

/// What follows a write of a state.
pub open spec fn save_step(offset: usize, len: usize, written: i64) -> SaveStep {
    if written <= 0 {
        SaveStep::Failed
    } else if offset + written < len {
        SaveStep::Write((offset + written) as usize)
    } else {
        SaveStep::Done
    }
}

/// A blob with what was read behind it.
pub open spec fn blob_with(blob: Seq<u8>, buffer: Seq<u8>, read: i64) -> Seq<u8> {
    if read > 0 {
        blob + buffer.take(read as int)
    } else {
        blob
    }
}

/// A save goes on exactly behind the bytes that were written, moves forward with every
/// write, and is done only once every byte was. It fails only on a stream that takes
/// nothing. A load keeps what it has and puts behind it the bytes that were read, no
/// more and no fewer.
pub proof fn law_streams_lose_no_bytes(
    offset: usize,
    len: usize,
    written: i64,
    blob: Seq<u8>,
    buffer: Seq<u8>,
    read: i64,
)
    requires
        offset < len,
        written > 0 ==> offset + written <= usize::MAX,
        read <= buffer.len(),
    ensures
        save_step(offset, len, written) is Failed <==> written <= 0,
        save_step(offset, len, written) matches SaveStep::Write(next) ==> next - offset == written
            && offset < next < len,
        save_step(offset, len, written) is Done ==> len - offset <= written,
        written > 0 && written < len - offset ==> save_step(offset, len, written) is Write,
        blob.is_prefix_of(blob_with(blob, buffer, read)),
        read <= 0 ==> blob_with(blob, buffer, read).len() == blob.len(),
        read > 0 ==> blob_with(blob, buffer, read).len() == blob.len() + read,
        forall|i: int|
            0 <= i < read ==> #[trigger] blob_with(blob, buffer, read)[blob.len() + i]
                == buffer[i],
{
    let all = blob_with(blob, buffer, read);
    assert(all.subrange(0, blob.len() as int) =~= blob);
    assert forall|i: int| 0 <= i < read implies #[trigger] all[blob.len() + i] == buffer[i] by {}
}

} // verus!
