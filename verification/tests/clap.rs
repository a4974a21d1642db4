use clap_sys::events as ev;
use clap_sys::process as pr;
use truce::bus::{BusLayout, ChannelConfig};
use truce::clap::{
    build_transport_info, clap_plugin_process, convert_input_events, encode_output_event,
    flush_gui_changes, forward_output_events, ClapBlock, ClapEventKind, ClapInputEvent,
    ClapInstance, ClapOutputEvent, ClapOutputKind, ClapTransport, GuiChangeQueue, GuiParamChange,
    CLAP_CORE_EVENT_SPACE_ID, CLAP_EVENT_IS_LIVE, CLAP_EVENT_MIDI, CLAP_EVENT_MIDI_SYSEX,
    CLAP_EVENT_NOTE_OFF, CLAP_EVENT_NOTE_ON, CLAP_EVENT_PARAM_GESTURE_BEGIN,
    CLAP_EVENT_PARAM_GESTURE_END, CLAP_EVENT_PARAM_VALUE, CLAP_PROCESS_CONTINUE,
    CLAP_PROCESS_CONTINUE_IF_NOT_QUIET, CLAP_PROCESS_ERROR, CLAP_PROCESS_SLEEP, CLAP_PROCESS_TAIL,
    CLAP_TRANSPORT_HAS_BEATS_TIMELINE, CLAP_TRANSPORT_HAS_SECONDS_TIMELINE,
    CLAP_TRANSPORT_HAS_TEMPO, CLAP_TRANSPORT_HAS_TIME_SIGNATURE, CLAP_TRANSPORT_IS_LOOP_ACTIVE,
    CLAP_TRANSPORT_IS_PLAYING, CLAP_TRANSPORT_IS_RECORDING, GUI_QUEUE_CAPACITY,
};
use truce::clap_gui::{
    editor_begin_edit, editor_end_edit, editor_set_param, editor_set_state, gui_adjust_size,
    gui_create, gui_destroy, gui_get_preferred_api, gui_get_resize_hints, gui_is_api_supported,
    gui_set_parent, gui_set_size, NearestSize, SizeRequest, WindowSystem,
};
use truce::clap_host::{
    audio_ports_count, audio_ports_get, clap_plugin_get_extension, clap_plugin_on_main_thread,
    note_ports_count, note_ports_get, params_flush, params_get_info, params_value_to_text,
    plan_channels, preset_load_from_location, resolved_name, scratch_channels, state_load,
    state_load_chunk, state_save_step, ChannelSlice, ClapBus, ClapExtension, DescriptorHolder,
    SaveStep,
};
use truce::editor::EditorGeometry;
use truce::events::{Event, EventBody, EventList, TransportInfo};
use truce::info::{MidiDialect, PluginCategory, PluginInfo};
use truce::params::{ParamFlags, ParamInfo, ParamRange};
use truce::process::{PluginRuntime, ProcessStatus};
use truce::state::{DeserializedState, StateLoadError};

#[test]
fn constants_are_those_of_the_interface() {
    assert_eq!(CLAP_CORE_EVENT_SPACE_ID, ev::CLAP_CORE_EVENT_SPACE_ID);
    assert_eq!(CLAP_EVENT_NOTE_ON, ev::CLAP_EVENT_NOTE_ON);
    assert_eq!(CLAP_EVENT_NOTE_OFF, ev::CLAP_EVENT_NOTE_OFF);
    assert_eq!(CLAP_EVENT_PARAM_VALUE, ev::CLAP_EVENT_PARAM_VALUE);
    assert_eq!(CLAP_EVENT_PARAM_GESTURE_BEGIN, ev::CLAP_EVENT_PARAM_GESTURE_BEGIN);
    assert_eq!(CLAP_EVENT_PARAM_GESTURE_END, ev::CLAP_EVENT_PARAM_GESTURE_END);
    assert_eq!(CLAP_EVENT_MIDI, ev::CLAP_EVENT_MIDI);
    assert_eq!(CLAP_EVENT_MIDI_SYSEX, ev::CLAP_EVENT_MIDI_SYSEX);
    assert_eq!(CLAP_EVENT_IS_LIVE, ev::CLAP_EVENT_IS_LIVE);
    assert_eq!(CLAP_TRANSPORT_HAS_TEMPO, ev::CLAP_TRANSPORT_HAS_TEMPO);
    assert_eq!(CLAP_TRANSPORT_HAS_BEATS_TIMELINE, ev::CLAP_TRANSPORT_HAS_BEATS_TIMELINE);
    assert_eq!(CLAP_TRANSPORT_HAS_SECONDS_TIMELINE, ev::CLAP_TRANSPORT_HAS_SECONDS_TIMELINE);
    assert_eq!(CLAP_TRANSPORT_HAS_TIME_SIGNATURE, ev::CLAP_TRANSPORT_HAS_TIME_SIGNATURE);
    assert_eq!(CLAP_TRANSPORT_IS_PLAYING, ev::CLAP_TRANSPORT_IS_PLAYING);
    assert_eq!(CLAP_TRANSPORT_IS_RECORDING, ev::CLAP_TRANSPORT_IS_RECORDING);
    assert_eq!(CLAP_TRANSPORT_IS_LOOP_ACTIVE, ev::CLAP_TRANSPORT_IS_LOOP_ACTIVE);
    assert_eq!(CLAP_PROCESS_ERROR, pr::CLAP_PROCESS_ERROR);
    assert_eq!(CLAP_PROCESS_CONTINUE, pr::CLAP_PROCESS_CONTINUE);
    assert_eq!(CLAP_PROCESS_CONTINUE_IF_NOT_QUIET, pr::CLAP_PROCESS_CONTINUE_IF_NOT_QUIET);
    assert_eq!(CLAP_PROCESS_TAIL, pr::CLAP_PROCESS_TAIL);
    assert_eq!(CLAP_PROCESS_SLEEP, pr::CLAP_PROCESS_SLEEP);
}

/// A plugin that writes down what is done to it, and answers with a status.
struct Recorder {
    calls: Vec<String>,
    status: ProcessStatus,
    loads: bool,
}

fn recorder(status: ProcessStatus) -> Recorder {
    Recorder { calls: Vec::new(), status, loads: true }
}

impl PluginRuntime for Recorder {
    fn set_plain(&mut self, id: u32, value: u64) {
        self.calls.push(format!("set {id} {}", f64::from_bits(value)));
    }
    fn restore_values(&mut self, params: &Vec<(u32, u64)>) {
        self.calls.push(format!("restore {}", params.len()));
    }
    fn snap_smoothers(&mut self) {
        self.calls.push("snap".to_string());
    }
    fn load_state(&mut self, bytes: &Vec<u8>) -> Result<(), StateLoadError> {
        self.calls.push(format!("load {}", bytes.len()));
        if self.loads {
            Ok(())
        } else {
            Err(StateLoadError::Malformed("short"))
        }
    }
    fn process(
        &mut self,
        block_start: usize,
        num_samples: usize,
        events: &EventList,
        _transport: &TransportInfo,
        output_events: &mut EventList,
    ) -> ProcessStatus {
        self.calls.push(format!("process {block_start}+{num_samples} with {}", events.len()));
        output_events.push(Event::new(
            0,
            EventBody::NoteOn { group: 0, channel: 1, note: 64, velocity: 9 },
        ));
        self.status
    }
    fn latency(&self) -> u32 {
        7
    }
    fn tail(&self) -> u32 {
        8
    }
}

fn event(time: u32, kind: ClapEventKind) -> Option<ClapInputEvent> {
    Some(ClapInputEvent { space_id: CLAP_CORE_EVENT_SPACE_ID, time, kind })
}

fn value(time: u32, id: u32, v: f64) -> Option<ClapInputEvent> {
    event(time, ClapEventKind::ParamValue { param_id: id, value: v.to_bits() })
}

#[test]
fn host_events_are_converted_and_sorted() {
    let mut list = EventList::default();
    let inputs = vec![
        value(9, 1, 0.5),
        event(3, ClapEventKind::Midi { status: 0xB2, data1: 7, data2: 100 }),
        None,
        event(3, ClapEventKind::NoteOn { channel: 1, key: 60, velocity: 99 }),
        event(4, ClapEventKind::SysEx { bytes: vec![1, 2] }),
        event(5, ClapEventKind::Other),
        Some(ClapInputEvent { space_id: 7, time: 0, kind: ClapEventKind::Other }),
    ];
    convert_input_events(&mut list, Some(&inputs), true, false);
    let offsets: Vec<u32> = list.iter().iter().map(|e| e.sample_offset).collect();
    assert_eq!(offsets, vec![3, 3, 4, 9]);
    assert_eq!(
        list.get(0).unwrap().body,
        EventBody::ControlChange { group: 0, channel: 2, cc: 7, value: 100 }
    );
    assert_eq!(list.sysex_bytes(&list.get(2).unwrap().body), &[1, 2]);
    // After a state was loaded, parameter events are stale.
    convert_input_events(&mut list, Some(&vec![value(9, 1, 0.5)]), false, true);
    assert!(list.is_empty());
    convert_input_events(&mut list, None, true, false);
    assert!(list.is_empty());
}

#[test]
fn transports_fall_back_field_by_field() {
    let t = ClapTransport {
        flags: CLAP_TRANSPORT_IS_PLAYING | CLAP_TRANSPORT_HAS_TIME_SIGNATURE,
        tempo: 90.0f64.to_bits(),
        tsig_num: 3,
        tsig_denom: 8,
        song_pos_seconds: 1,
        song_pos_beats: 2,
        bar_start: 3,
        loop_start_beats: 4,
        loop_end_beats: 5,
    };
    let info = build_transport_info(&t);
    assert!(info.playing && !info.recording && !info.loop_active);
    assert_eq!(f64::from_bits(info.tempo), 120.0);
    assert_eq!((info.time_sig_num, info.time_sig_den), (3, 8));
    assert_eq!((info.position_seconds, info.position_beats, info.loop_end_beats), (0, 0, 0));
    let all = ClapTransport { flags: 127, ..t };
    let info = build_transport_info(&all);
    assert_eq!(f64::from_bits(info.tempo), 90.0);
    assert!(info.recording && info.loop_active);
    assert_eq!(
        (info.position_seconds, info.position_beats, info.bar_start_beats, info.loop_start_beats, info.loop_end_beats),
        (1, 2, 3, 4, 5)
    );
}

#[test]
fn editor_changes_go_out_in_order_and_wait_where_they_must() {
    let mut queue = GuiChangeQueue::new();
    assert!(queue.push(GuiParamChange::GestureBegin(1)));
    assert!(queue.push(GuiParamChange::Value(1, 0.5f64.to_bits())));
    assert!(queue.push(GuiParamChange::GestureEnd(1)));
    let mut sent: Vec<ClapOutputEvent> = Vec::new();
    flush_gui_changes(&mut queue, false, &mut sent);
    assert!(sent.is_empty());
    flush_gui_changes(&mut queue, true, &mut sent);
    let types: Vec<u16> = sent.iter().map(|e| e.type_).collect();
    assert_eq!(
        types,
        vec![CLAP_EVENT_PARAM_GESTURE_BEGIN, CLAP_EVENT_PARAM_VALUE, CLAP_EVENT_PARAM_GESTURE_END]
    );
    assert!(sent.iter().all(|e| e.flags == CLAP_EVENT_IS_LIVE && e.time == 0));
    assert!(matches!(sent[1].kind, ClapOutputKind::ParamValue { param_id: 1, note_id: -1, key: -1, .. }));
    assert_eq!(queue.pop(), None);
    for i in 0..GUI_QUEUE_CAPACITY {
        assert!(queue.push(GuiParamChange::GestureBegin(i as u32)));
    }
    assert!(!queue.push(GuiParamChange::GestureEnd(0)));
    assert_eq!(queue.pop(), Some(GuiParamChange::GestureBegin(0)));
}

#[test]
fn output_events_have_host_forms() {
    let out = |body| encode_output_event(&Event::new(5, body));
    let note = out(EventBody::NoteOn { group: 0, channel: 2, note: 60, velocity: 100 }).unwrap();
    assert_eq!((note.time, note.type_), (5, CLAP_EVENT_NOTE_ON));
    assert!(matches!(note.kind, ClapOutputKind::Note { channel: 2, key: 60, velocity: 100, note_id: -1, .. }));
    let cc = out(EventBody::ControlChange { group: 0, channel: 1, cc: 7, value: 8 }).unwrap();
    assert!(matches!(cc.kind, ClapOutputKind::Midi { status: 0xB1, data1: 7, data2: 8, .. }));
    assert!(out(EventBody::Transport(TransportInfo::default())).is_none());
    assert!(out(EventBody::PitchBend2 { group: 0, channel: 0, value: 1 }).is_none());
    let mut list = EventList::default();
    list.push(Event::new(1, EventBody::Transport(TransportInfo::default())));
    list.push_sysex(2, &[1, 2, 3]).unwrap();
    let mut sent = Vec::new();
    forward_output_events(&list, &mut sent);
    assert_eq!(sent.len(), 1);
    assert!(matches!(sent[0].kind, ClapOutputKind::SysEx { pool_offset: 0, len: 3, .. }));
}

fn info(id: u32, chunked: bool, range: ParamRange) -> ParamInfo {
    ParamInfo {
        id,
        name: "Cutoff",
        short_name: "Cut",
        group: "Filter",
        unit: "Hz",
        range,
        min: 0,
        max: 1.0f64.to_bits(),
        default_plain: 0,
        step_count: 0,
        flags: ParamFlags { automatable: true, hidden: false, readonly: false, is_bypass: id == 9, chunked },
        midi_map: None,
        midi_channel: None,
    }
}

fn instance() -> ClapInstance {
    ClapInstance::new(vec![info(1, true, ParamRange::Linear)], 32, 0, 0)
}

#[test]
fn a_block_runs_with_the_state_that_waited_for_it() {
    let mut inst = instance();
    let mut plugin = recorder(ProcessStatus::Normal);
    assert!(state_load(
        &mut inst,
        &mut plugin,
        Some(DeserializedState { params: vec![(1, 0)], extra: Some(vec![1, 2, 3]) })
    ));
    assert_eq!(plugin.calls, ["restore 1", "snap"]);
    plugin.calls.clear();
    let _ = editor_begin_edit(&mut inst, 1, true);
    let inputs = vec![value(100, 1, 0.5)];
    let block = ClapBlock {
        frames_count: 256,
        in_events: Some(&inputs),
        transport: None,
        out_events: Some(true),
    };
    let result = clap_plugin_process(&mut inst, &mut plugin, Some(&block));
    // The stale change neither splits the block nor is set.
    assert_eq!(plugin.calls, ["restore 1", "snap", "load 3", "process 0+256 with 0"]);
    assert_eq!(result.code, CLAP_PROCESS_CONTINUE);
    assert!(result.load_error.is_none());
    assert_eq!(result.sent.len(), 2);
    assert_eq!(result.sent[0].type_, CLAP_EVENT_PARAM_GESTURE_BEGIN);
    assert_eq!(result.sent[1].type_, CLAP_EVENT_NOTE_ON);
    assert_eq!((inst.latency_cache, inst.tail_cache), (7, 8));
    plugin.calls.clear();
    let result = clap_plugin_process(&mut inst, &mut plugin, Some(&block));
    assert_eq!(plugin.calls, ["process 0+100 with 0", "set 1 0.5", "process 100+156 with 1"]);
    assert_eq!(result.sent.len(), 2);
}

#[test]
fn blocks_without_frames_do_nothing() {
    let mut inst = instance();
    let mut plugin = recorder(ProcessStatus::Normal);
    assert_eq!(clap_plugin_process(&mut inst, &mut plugin, None).code, CLAP_PROCESS_ERROR);
    let empty = ClapBlock { frames_count: 0, in_events: None, transport: None, out_events: None };
    assert_eq!(clap_plugin_process(&mut inst, &mut plugin, Some(&empty)).code, CLAP_PROCESS_CONTINUE);
    assert!(plugin.calls.is_empty());
}

#[test]
fn statuses_have_host_codes() {
    for (status, code) in [
        (ProcessStatus::Normal, CLAP_PROCESS_CONTINUE),
        (ProcessStatus::Tail(3), CLAP_PROCESS_TAIL),
        (ProcessStatus::Tail(0), CLAP_PROCESS_SLEEP),
        (ProcessStatus::KeepAlive, CLAP_PROCESS_CONTINUE_IF_NOT_QUIET),
    ] {
        let mut inst = instance();
        let mut plugin = recorder(status);
        let block = ClapBlock { frames_count: 8, in_events: None, transport: None, out_events: None };
        let result = clap_plugin_process(&mut inst, &mut plugin, Some(&block));
        assert_eq!(result.code, code);
        assert!(result.sent.is_empty());
        // A list that takes no events ends the block early.
        let block = ClapBlock { frames_count: 8, in_events: None, transport: None, out_events: Some(false) };
        let result = clap_plugin_process(&mut inst, &mut plugin, Some(&block));
        assert_eq!(result.code, CLAP_PROCESS_CONTINUE);
    }
}

#[test]
fn a_plugin_that_cannot_read_its_state_is_reported() {
    let mut inst = instance();
    let mut plugin = recorder(ProcessStatus::Normal);
    plugin.loads = false;
    editor_set_state(&mut inst, vec![9]);
    let block = ClapBlock { frames_count: 8, in_events: None, transport: None, out_events: None };
    let result = clap_plugin_process(&mut inst, &mut plugin, Some(&block));
    assert_eq!(result.load_error.map(|e| e.message()), Some("malformed state: short".to_string()));
}

#[test]
fn flushed_parameters_are_set_at_once() {
    let mut inst = instance();
    let mut plugin = recorder(ProcessStatus::Normal);
    let _ = editor_end_edit(&mut inst, 4, true);
    let sent = params_flush(&mut inst, &mut plugin, Some(&vec![value(5, 1, 0.5), value(2, 1, 0.25)]), true);
    assert_eq!(plugin.calls, ["set 1 0.5", "set 1 0.25"]);
    assert_eq!(sent.len(), 1);
}

#[test]
fn the_host_is_asked_to_read_anew_once() {
    let mut inst = instance();
    let first = editor_set_param(&mut inst, 1, 0, true, true);
    assert!(first.flush && first.callback);
    assert!(!editor_set_param(&mut inst, 1, 0, true, true).callback);
    assert!(clap_plugin_on_main_thread(&mut inst, true));
    assert!(!clap_plugin_on_main_thread(&mut inst, true));
    assert!(editor_set_param(&mut inst, 1, 0, false, true).callback);
}

#[test]
fn presets_load_from_files_alone() {
    let state = || Some(DeserializedState { params: vec![], extra: None });
    let mut inst = instance();
    let mut plugin = recorder(ProcessStatus::Normal);
    assert!(!preset_load_from_location(&mut inst, &mut plugin, 1, true, state()));
    assert!(!preset_load_from_location(&mut inst, &mut plugin, 0, false, state()));
    assert!(!preset_load_from_location(&mut inst, &mut plugin, 0, true, None));
    assert!(plugin.calls.is_empty());
    assert!(preset_load_from_location(&mut inst, &mut plugin, 0, true, state()));
}

#[test]
fn channels_of_all_buses_are_laid_end_to_end() {
    let buses = vec![
        ClapBus { has_data: true, channels: vec![true, false] },
        ClapBus { has_data: false, channels: vec![true] },
        ClapBus { has_data: true, channels: vec![true] },
    ];
    let plan = plan_channels(&buses, true);
    assert!(plan.contains(&ChannelSlice::Host) && !plan.contains(&ChannelSlice::Scratch));
    let plan = plan_channels(&buses, false);
    assert!(plan.contains(&ChannelSlice::Scratch) && !plan.contains(&ChannelSlice::Host));
    assert_eq!(plan[0], ChannelSlice::Scratch);
    assert_eq!(plan[1], ChannelSlice::Empty);
}

#[test]
fn parameters_are_described() {
    let infos = vec![info(1, false, ParamRange::Enum), info(9, false, ParamRange::Linear)];
    let first = params_get_info(&infos, 0).unwrap();
    assert_eq!(
        first.flags,
        clap_sys::ext::params::CLAP_PARAM_IS_AUTOMATABLE
            | clap_sys::ext::params::CLAP_PARAM_IS_STEPPED
            | clap_sys::ext::params::CLAP_PARAM_IS_ENUM
    );
    assert!(first.name.starts_with(b"Cutoff\0"));
    assert!(first.module.starts_with(b"Filter\0"));
    let second = params_get_info(&infos, 1).unwrap();
    assert_eq!(
        second.flags,
        clap_sys::ext::params::CLAP_PARAM_IS_AUTOMATABLE | clap_sys::ext::params::CLAP_PARAM_IS_BYPASS
    );
    assert!(params_get_info(&infos, 2).is_none());
}

#[test]
fn value_texts_are_cut_to_the_buffer() {
    let mut buffer = vec![9u8; 4];
    assert!(params_value_to_text(Some("12.5"), &mut buffer));
    assert_eq!(buffer, [b'1', b'2', b'.', 0]);
    assert!(!params_value_to_text(None, &mut buffer));
    assert!(!params_value_to_text(Some("1"), &mut Vec::new()));
}

#[test]
fn ports_follow_the_first_layout() {
    let layouts = vec![
        BusLayout::new().with_input("In", ChannelConfig::Mono).with_output("Out", ChannelConfig::Stereo)
            .with_output("Aux", ChannelConfig::Custom(6)),
        BusLayout::stereo(),
    ];
    assert_eq!(audio_ports_count(&layouts, true), 1);
    assert_eq!(audio_ports_count(&layouts, false), 2);
    let main = audio_ports_get(&layouts, 0, false).unwrap();
    assert_eq!((main.channel_count, main.port_type, main.flags), (2, Some("stereo"), 1));
    let aux = audio_ports_get(&layouts, 1, false).unwrap();
    assert_eq!((aux.channel_count, aux.port_type, aux.flags), (6, None, 0));
    assert!(audio_ports_get(&layouts, 1, true).is_none());
    assert_eq!(scratch_channels(&layouts, true), 2);
    assert_eq!(scratch_channels(&layouts, false), 8);
    assert_eq!(note_ports_count(true), 1);
    assert!(note_ports_get(0, true).unwrap().name.starts_with(b"Note Input\0"));
    assert!(note_ports_get(1, true).is_none());
}

#[test]
fn extensions_are_found_by_name() {
    let found = |id: Option<&'static str>| clap_plugin_get_extension(id);
    assert_eq!(found(clap_sys::ext::params::CLAP_EXT_PARAMS.to_str().ok()), Some(ClapExtension::Params));
    assert_eq!(found(clap_sys::ext::state::CLAP_EXT_STATE.to_str().ok()), Some(ClapExtension::State));
    assert_eq!(found(clap_sys::ext::preset_load::CLAP_EXT_PRESET_LOAD.to_str().ok()), Some(ClapExtension::PresetLoad));
    assert_eq!(found(clap_sys::ext::audio_ports::CLAP_EXT_AUDIO_PORTS.to_str().ok()), Some(ClapExtension::AudioPorts));
    assert_eq!(found(clap_sys::ext::note_ports::CLAP_EXT_NOTE_PORTS.to_str().ok()), Some(ClapExtension::NotePorts));
    assert_eq!(found(clap_sys::ext::gui::CLAP_EXT_GUI.to_str().ok()), Some(ClapExtension::Gui));
    assert_eq!(found(clap_sys::ext::latency::CLAP_EXT_LATENCY.to_str().ok()), Some(ClapExtension::Latency));
    assert_eq!(found(clap_sys::ext::tail::CLAP_EXT_TAIL.to_str().ok()), Some(ClapExtension::Tail));
    assert_eq!(clap_plugin_get_extension(Some("clap.other")), None);
    assert_eq!(clap_plugin_get_extension(None), None);
}

fn plugin_info(category: PluginCategory) -> PluginInfo {
    PluginInfo {
        name: "Gain",
        vendor: "Acme",
        url: "https://acme",
        version: "1.0\0",
        category,
        bundle_id: "gain",
        vst3_id: "",
        clap_id: "com.acme.gain",
        fourcc: *b"Gain",
        au_type: *b"aufx",
        au_manufacturer: *b"Acme",
        aax_id: None,
        aax_category: None,
        vst3_name: None,
        clap_name: Some("Gain CLAP"),
        vst2_name: None,
        au_name: None,
        au3_name: None,
        aax_name: Some(""),
        lv2_name: None,
        mute_preview_output: false,
        accepts_midi_in: false,
        emits_midi: false,
        midi_input_ports: 1,
        midi_output_ports: 1,
        midi_input_dialect: MidiDialect::Midi1,
        midi_output_dialect: MidiDialect::Midi1,
        min_subblock_samples: 32,
    }
}

#[test]
fn descriptors_carry_names_and_features() {
    let d = DescriptorHolder::new(&plugin_info(PluginCategory::Instrument));
    assert_eq!((d.id.as_str(), d.name.as_str(), d.version.as_str()), ("com.acme.gain", "Gain CLAP", ""));
    assert_eq!(d.features, ["instrument", "synthesizer"]);
    assert_eq!(DescriptorHolder::new(&plugin_info(PluginCategory::NoteEffect)).features, ["note-effect"]);
    assert_eq!(DescriptorHolder::new(&plugin_info(PluginCategory::Tool)).features, ["audio-effect"]);
    assert_eq!(resolved_name(&plugin_info(PluginCategory::Tool)), "Gain CLAP");
}

#[test]
fn states_are_written_and_read_in_pieces() {
    assert_eq!(state_save_step(0, 10, 4), SaveStep::Write(4));
    assert_eq!(state_save_step(4, 10, 6), SaveStep::Done);
    assert_eq!(state_save_step(4, 10, 0), SaveStep::Failed);
    assert_eq!(state_save_step(4, 10, -1), SaveStep::Failed);
    let mut blob = vec![1];
    assert!(state_load_chunk(&mut blob, &[2, 3, 4], 2));
    assert_eq!(blob, [1, 2, 3]);
    assert!(!state_load_chunk(&mut blob, &[2, 3, 4], 0));
    assert_eq!(blob, [1, 2, 3]);
}

#[test]
fn editors_are_embedded_and_resized_within_bounds() {
    assert_eq!(gui_get_preferred_api(WindowSystem::X11), ("x11", false));
    assert!(gui_is_api_supported(WindowSystem::Cocoa, "cocoa", false));
    assert!(!gui_is_api_supported(WindowSystem::Cocoa, "cocoa", true));
    assert!(!gui_is_api_supported(WindowSystem::Win32, "x11", false));
    let fixed = EditorGeometry {
        size: (400, 300),
        min_size: (100, 100),
        max_size: (1000, 1000),
        aspect_ratio: Some((4, 3)),
        can_resize: false,
    };
    let free = EditorGeometry { can_resize: true, ..fixed };
    assert_eq!(gui_set_size(Some(&fixed), (400, 300), (400, 300), (400, 300)), SizeRequest::Accepted);
    assert_eq!(gui_set_size(Some(&fixed), (500, 300), (500, 300), (400, 300)), SizeRequest::Refused);
    assert_eq!(gui_set_size(Some(&free), (800, 300), (800, 300), (400, 300)), SizeRequest::Resize(800, 600));
    assert_eq!(gui_set_size(None, (1, 1), (1, 1), (1, 1)), SizeRequest::Refused);
    assert_eq!(gui_adjust_size(Some(&fixed), (1, 1), (400, 300)), NearestSize::Fixed(400, 300));
    assert_eq!(gui_adjust_size(Some(&free), (800, 300), (400, 300)), NearestSize::Logical(800, 600));
    assert_eq!(gui_adjust_size(None, (1, 1), (1, 1)), NearestSize::Unknown);
    let hints = gui_get_resize_hints(Some(&free), true).unwrap();
    assert!(hints.preserve_aspect_ratio);
    assert_eq!((hints.aspect_ratio_width, hints.aspect_ratio_height), (4, 3));
    assert!(gui_get_resize_hints(Some(&fixed), true).is_none());
    assert!(gui_set_parent(true, true) && !gui_set_parent(true, false));
    let mut inst = instance();
    assert!(!gui_create(&mut inst, false));
    assert!(gui_create(&mut inst, true));
    gui_destroy(&mut inst);
    assert!(!inst.gui_created);
}

#[test]
fn what_a_plugin_reports_is_taken_over() {
    let mut inst = instance();
    let mut plugin = recorder(ProcessStatus::Normal);
    let infos = vec![info(8, false, ParamRange::Linear), info(9, false, ParamRange::Linear)];
    truce::clap_host::clap_plugin_init(&mut inst, &plugin, infos);
    assert_eq!(inst.param_infos.len(), 2);
    assert_eq!((inst.latency_cache, inst.tail_cache), (7, 8));
    inst.latency_cache = 0;
    truce::clap_host::clap_plugin_reset(&mut inst, &mut plugin);
    assert_eq!(plugin.calls, ["snap"]);
    assert_eq!((inst.latency_cache, inst.tail_cache), (7, 8));
}
