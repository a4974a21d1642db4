use truce::au::{
    au_ump_packet_at, au_ump_packet_count, cb_process, midi_status_byte, output_event_at,
    output_event_count, output_ump_at, output_ump_count, push_sysex_input, register_au_inner,
    resolved_plugin_name, route_midi_port, try_encode_au_midi, AuBlock, AuInstance, AuMidi2Event,
    AuMidiEvent, AuPacketIn, AuParamEvent, ParamNotifier, UmpDrainCursor, UmpForms, UmpProtocol,
};
use truce::au_host::{
    compiled_class_names, factory_preset_load, gui_can_resize, gui_set_size, legacy_state_key_at,
    legacy_state_keys, param_format_value, reset, sanitize_suffix, set_render_mode, state_load,
    state_load_foreign, ui_view_for_audio_unit, view_class_name,
};
use truce::bus::{BusLayout, ChannelConfig};
use truce::editor::EditorGeometry;
use truce::events::{Event, EventBody, EventList, TransportInfo};
use truce::info::{MidiDialect, PluginCategory, PluginInfo};
use truce::params::{find_bypass_id, param_infos_static, MidiSource, ParamFlags, ParamInfo, ParamRange};
use truce::presets::FactoryPresetEntry;
use truce::process::{PluginRuntime, ProcessStatus};
use truce::state::{DeserializedState, StateLoadError};
use truce::wrapper::{
    encode_short_message, fitting_text_len, output_sysex_at, output_sysex_count, prepared_frames,
    read_transport, HostTransport,
};

const NOTE: EventBody = EventBody::NoteOn { group: 0, channel: 0, note: 60, velocity: 100 };

fn voice1(word: u32) -> UmpForms {
    UmpForms {
        native1: Some([word, 0, 0, 0]),
        converted1: None,
        native2: None,
        converted2: Some([0x4090_3C00, 0, 0, 0]),
        sysex7: vec![],
    }
}

#[test]
fn ump_output_flattens_sysex_into_packet_chain() {
    let mut list = EventList::with_capacity(8);
    list.push(Event::on_port(10, 1, NOTE));
    list.push_sysex_on_port(20, 1, &[1, 2, 3, 4, 5, 6, 7]).unwrap();
    list.push(Event::new(
        30,
        EventBody::ControlChange { group: 0, channel: 0, cc: 1, value: 64 },
    ));
    let chain = UmpForms {
        native1: None,
        converted1: None,
        native2: None,
        converted2: None,
        sysex7: vec![[0x3016_0102, 0x0304_0506], [0x3031_0700, 0]],
    };
    let forms = vec![voice1(0x2090_3C64), chain, voice1(0x20B0_0140)];

    let proto = UmpProtocol::Midi1;
    let total: usize = list
        .iter()
        .iter()
        .zip(&forms)
        .map(|(e, f)| au_ump_packet_count(e, f, proto))
        .sum();
    assert_eq!(total, 4);
    assert_eq!(output_ump_count(&list, &forms, 1), 4);

    let mut cur = UmpDrainCursor::at_head();
    let note = au_ump_packet_at(&list, &forms, 0, proto, &mut cur).unwrap();
    assert_eq!(note.word_count, 1);
    assert_eq!(note.sample_offset, 10);
    assert_eq!(note.cable, 1);

    let start = au_ump_packet_at(&list, &forms, 1, proto, &mut cur).unwrap();
    let end = au_ump_packet_at(&list, &forms, 2, proto, &mut cur).unwrap();
    for p in [&start, &end] {
        assert_eq!((p.words[0] >> 28) & 0xF, 0x3);
        assert_eq!(p.word_count, 2);
        assert_eq!(p.sample_offset, 20);
        assert_eq!(p.cable, 1);
    }
    assert_eq!((start.words[0] >> 20) & 0xF, 0x1, "Start status");
    assert_eq!((end.words[0] >> 20) & 0xF, 0x3, "End status");

    let cc = au_ump_packet_at(&list, &forms, 3, proto, &mut cur).unwrap();
    assert_eq!(cc.sample_offset, 30);
    assert!(au_ump_packet_at(&list, &forms, 4, proto, &mut cur).is_none());

    let back = au_ump_packet_at(&list, &forms, 1, proto, &mut cur).unwrap();
    assert_eq!(back.sample_offset, 20);
    assert_eq!((back.words[0] >> 20) & 0xF, 0x1, "Start status");
    // With one cable, everything goes out on it.
    let routed = output_ump_at(&list, &forms, 1, 1, &mut cur, 1).unwrap();
    assert_eq!(routed.cable, route_midi_port(1, 1));
}

#[test]
fn ump_output_streams_are_protocol_pure() {
    let mut list = EventList::with_capacity(4);
    list.push(Event::new(0, NOTE));
    list.push(Event::new(
        1,
        EventBody::NoteOn2 {
            group: 0,
            channel: 1,
            note: 61,
            velocity: 0x8000,
            attribute_type: 0,
            attribute: 0,
        },
    ));
    let second = UmpForms {
        native1: None,
        converted1: Some([0x2091_3D40, 0, 0, 0]),
        native2: Some([0x4091_3D00, 0x8000_0000, 0, 0]),
        converted2: None,
        sysex7: vec![],
    };
    let forms = vec![voice1(0x2090_3C64), second];

    let mut cur = UmpDrainCursor::at_head();
    for (proto, mt, words) in [(UmpProtocol::Midi1, 0x2u32, 1u8), (UmpProtocol::Midi2, 0x4, 2)] {
        for i in 0..2 {
            let p = au_ump_packet_at(&list, &forms, i, proto, &mut cur).unwrap();
            assert_eq!((p.words[0] >> 28) & 0xF, mt);
            assert_eq!(p.word_count, words);
        }
        assert!(au_ump_packet_at(&list, &forms, 2, proto, &mut cur).is_none());
    }

    let mut pnm = EventList::with_capacity(2);
    pnm.push(Event::new(
        0,
        EventBody::PerNoteManagement { group: 0, channel: 0, note: 60, flags: 0 },
    ));
    let only2 = vec![UmpForms {
        native1: None,
        converted1: None,
        native2: Some([0x40F0_3C00, 0, 0, 0]),
        converted2: None,
        sysex7: vec![],
    }];
    let mut cur = UmpDrainCursor::at_head();
    assert!(au_ump_packet_at(&pnm, &only2, 0, UmpProtocol::Midi1, &mut cur).is_none());
    assert!(au_ump_packet_at(&pnm, &only2, 0, UmpProtocol::Midi2, &mut cur).is_some());
    assert_eq!(UmpProtocol::from_wire(1), UmpProtocol::Midi1);
    assert_eq!(UmpProtocol::from_wire(9), UmpProtocol::Midi2);
}

struct Recorder {
    calls: Vec<String>,
}

impl PluginRuntime for Recorder {
    fn set_plain(&mut self, id: u32, value: u64) {
        self.calls.push(format!("set {id} {}", f64::from_bits(value)));
    }
    fn restore_values(&mut self, params: &Vec<(u32, u64)>) {
        self.calls.push(format!("restore {}", params.len()));
    }
    fn snap_smoothers(&mut self) {
        self.calls.push("snap".to_string());
    }
    fn load_state(&mut self, bytes: &Vec<u8>) -> Result<(), StateLoadError> {
        self.calls.push(format!("load {}", bytes.len()));
        Ok(())
    }
    fn process(
        &mut self,
        block_start: usize,
        num_samples: usize,
        events: &EventList,
        _transport: &TransportInfo,
        output_events: &mut EventList,
    ) -> ProcessStatus {
        self.calls.push(format!("process {block_start}+{num_samples} with {}", events.len()));
        output_events.push(Event::new(0, EventBody::ParamChange { id: 5, value: 1 }));
        output_events.push(Event::new(0, NOTE));
        ProcessStatus::Normal
    }
    fn latency(&self) -> u32 {
        11
    }
    fn tail(&self) -> u32 {
        12
    }
}

fn param(id: u32, chunked: bool) -> ParamInfo {
    ParamInfo {
        id,
        name: "Cutoff",
        short_name: "Cut",
        group: "Filter",
        unit: "Hz",
        range: ParamRange::Linear,
        min: 0,
        max: 1,
        default_plain: 0,
        step_count: 3,
        flags: ParamFlags { automatable: true, hidden: false, readonly: false, is_bypass: id == 9, chunked },
        midi_map: Some(MidiSource::Cc(74)),
        midi_channel: None,
    }
}

fn block(num_frames: u32) -> AuBlock {
    AuBlock {
        num_frames,
        events: vec![AuMidiEvent { sample_offset: 8, status: 0x90, data1: 60, data2: 1, port: 0 }],
        events2: vec![
            AuPacketIn {
                event: AuMidi2Event { sample_offset: 4, words: [0x4090_3C00, 0, 0, 0] },
                voice: Some(NOTE),
                payload: None,
            },
            AuPacketIn {
                event: AuMidi2Event { sample_offset: 6, words: [0x3001_0100, 0, 0, 0] },
                voice: None,
                payload: Some(vec![1]),
            },
        ],
        param_events: vec![AuParamEvent { sample_offset: 64, param_id: 1, value: 0.5f64.to_bits() }],
        transport: None,
    }
}

#[test]
fn a_render_call_runs_once_the_plugin_is_prepared() {
    let mut inst = AuInstance::new(vec![param(1, true)], 32, 0, 0);
    let mut plugin = Recorder { calls: vec![] };
    push_sysex_input(&mut inst, 2, &[7, 7]);
    let result = cb_process(&mut inst, &mut plugin, &block(128));
    assert!(result.silenced && plugin.calls.is_empty());

    reset(&mut inst, &plugin);
    assert!(inst.prepared);
    assert_eq!((inst.latency_cache, inst.tail_cache), (11, 12));
    inst.param_notify = Some(ParamNotifier::new());
    push_sysex_input(&mut inst, 2, &[7, 7]);
    push_sysex_input(&mut inst, 3, &[]);
    assert!(state_load(
        &mut inst,
        &mut plugin,
        5,
        Some(DeserializedState { params: vec![], extra: None })
    ));
    plugin.calls.clear();
    let result = cb_process(&mut inst, &mut plugin, &block(128));
    assert!(!result.silenced && result.wake_notifier && result.load_error.is_none());
    assert_eq!(
        plugin.calls,
        ["restore 0", "snap", "process 0+64 with 4", "set 1 0.5", "process 64+64 with 1"]
    );
    let offsets: Vec<u32> = inst.event_list.iter().iter().map(|e| e.sample_offset).collect();
    assert_eq!(offsets, vec![2, 4, 6, 8, 64]);
    let (latency, changes) = inst.param_notify.as_mut().unwrap().drain();
    assert!(!latency);
    assert_eq!(changes.len(), 2);
}

#[test]
fn a_change_of_latency_wakes_the_notifier_once() {
    let mut notifier = ParamNotifier::new();
    assert!(notifier.notify_latency());
    assert!(!notifier.notify_latency());
    assert!(notifier.drain().0);
    assert!(!notifier.drain().0);
    assert!(notifier.notify_latency());
}

#[test]
fn output_is_counted_and_read_by_index() {
    let mut list = EventList::default();
    list.push(Event::on_port(1, 2, NOTE));
    list.push(Event::new(2, EventBody::ParamChange { id: 1, value: 0 }));
    list.push(Event::new(3, EventBody::PitchBend2 { group: 0, channel: 1, value: 0x8000_0000 }));
    list.push_sysex(4, &[1, 2]).unwrap();
    assert_eq!(output_event_count(&list), 2);
    assert_eq!(output_event_at(&list, 0, 4).unwrap().port, 2);
    let bend = output_event_at(&list, 1, 1).unwrap();
    assert_eq!((bend.status, bend.data1, bend.data2), (0xE1, 0, 0x40));
    assert!(output_event_at(&list, 2, 1).is_none());
    assert!(try_encode_au_midi(&Event::new(0, EventBody::ParamChange { id: 1, value: 0 })).is_none());
    assert_eq!(output_sysex_count(&list), 1);
    let sysex = output_sysex_at(&list, 0).unwrap();
    assert_eq!((sysex.sample_offset, sysex.len), (4, 2));
    assert!(output_sysex_at(&list, 1).is_none());
    assert_eq!(encode_short_message(&NOTE), Some((0x90, 60, 100)));
}

#[test]
fn host_transports_count_where_they_are_valid() {
    let t = HostTransport {
        valid: 1,
        playing: 1,
        recording: 0,
        loop_active: 1,
        time_sig_num: 300,
        time_sig_den: -4,
        tempo: 7,
        position_samples: 9,
        position_seconds: 1,
        position_beats: 2,
        bar_start_beats: 3,
        loop_start_beats: 4,
        loop_end_beats: 5,
    };
    let info = read_transport(&Some(t));
    assert!(info.playing && info.loop_active);
    assert_eq!((info.time_sig_num, info.time_sig_den), (255, 0));
    assert_eq!(read_transport(&Some(HostTransport { valid: 0, ..t })), TransportInfo::default());
    assert_eq!(read_transport(&None), TransportInfo::default());
    assert_eq!((prepared_frames(64), prepared_frames(4096)), (1024, 4096));
}

fn plugin_info() -> PluginInfo {
    PluginInfo {
        name: "Gain",
        vendor: "Acme",
        url: "",
        version: "1",
        category: PluginCategory::Effect,
        bundle_id: "gain",
        vst3_id: "",
        clap_id: "",
        fourcc: *b"Gain",
        au_type: *b"aufx",
        au_manufacturer: *b"Ac-e",
        aax_id: None,
        aax_category: None,
        vst3_name: None,
        clap_name: None,
        vst2_name: None,
        au_name: Some("Gain AU"),
        au3_name: None,
        aax_name: None,
        lv2_name: None,
        mute_preview_output: false,
        accepts_midi_in: true,
        emits_midi: false,
        midi_input_ports: 2,
        midi_output_ports: 1,
        midi_input_dialect: MidiDialect::Midi2,
        midi_output_dialect: MidiDialect::Midi1,
        min_subblock_samples: 32,
    }
}

#[test]
fn plugins_are_described_to_the_host() {
    let layouts = vec![
        BusLayout::stereo().with_input("Side", ChannelConfig::Mono),
        BusLayout::new().with_input("In", ChannelConfig::Mono).with_output("Out", ChannelConfig::Mono),
    ];
    let params = vec![param(1, false), param(9, false)];
    let (d, p) = register_au_inner(&plugin_info(), &params, &layouts, 3, 2);
    assert_eq!(d.name, "Gain AU");
    assert_eq!((d.num_inputs, d.num_outputs), (2, 2));
    assert_eq!(d.bypass_param_id, 9);
    assert_eq!((d.accepts_midi_in, d.has_midi_output, d.midi2_input, d.midi2_output), (1, 0, 1, 0));
    assert_eq!(d.num_layouts, 2);
    assert_eq!(d.layout_in_channels, [2, 1]);
    assert_eq!(d.layout_out_channels, [2, 1]);
    assert_eq!(d.sidechain_in_channels, 1);
    assert_eq!((p[0].midi_status, p[0].midi_data1, p[0].midi_channel), (0xB0, 74, -1));
    assert_eq!(p[0].step_count, 3);
    assert_eq!(resolved_plugin_name(&plugin_info()), "Gain AU");
    assert_eq!(midi_status_byte(MidiSource::PitchBend), 0xE0);
    assert_eq!(midi_status_byte(MidiSource::ChannelPressure), 0xD0);
    assert_eq!(midi_status_byte(MidiSource::ProgramChange), 0xC0);
    assert_eq!(find_bypass_id(&vec![param(1, false)]), u32::MAX);
    assert_eq!(param_infos_static(params).unwrap().len(), 2);
    assert!(param_infos_static(vec![]).is_none());
}

#[test]
fn values_are_cut_where_a_character_ends() {
    let mut buffer = vec![9u8; 4];
    assert_eq!(param_format_value(Some("90\u{b0}"), &mut buffer), 2);
    assert_eq!(buffer, [b'9', b'0', 0, 9]);
    let mut buffer = vec![9u8; 8];
    assert_eq!(param_format_value(Some("90\u{b0}"), &mut buffer), 4);
    assert_eq!(&buffer[..5], "90\u{b0}\0".as_bytes());
    assert_eq!(param_format_value(None, &mut buffer), 0);
    assert_eq!(param_format_value(Some("1"), &mut Vec::new()), 0);
    assert_eq!(fitting_text_len("abc", 2), 1);
}

#[test]
fn states_of_other_builds_are_taken_where_they_translate() {
    let state = || Some(DeserializedState { params: vec![(1, 2)], extra: None });
    let mut inst = AuInstance::new(vec![], 32, 0, 0);
    let mut plugin = Recorder { calls: vec![] };
    assert!(!state_load(&mut inst, &mut plugin, 0, state()));
    assert!(!state_load(&mut inst, &mut plugin, 3, None));
    assert_eq!(state_load_foreign(&mut inst, &mut plugin, None, 3, state()), 0);
    assert_eq!(state_load_foreign(&mut inst, &mut plugin, Some("k"), 0, state()), 0);
    assert!(plugin.calls.is_empty());
    assert_eq!(state_load_foreign(&mut inst, &mut plugin, Some("k"), 3, state()), 1);
    let entries = vec![FactoryPresetEntry { name: "A".into(), path: "a".into() }];
    assert_eq!(factory_preset_load(&mut inst, &mut plugin, &entries, 1, state()), 0);
    assert_eq!(factory_preset_load(&mut inst, &mut plugin, &entries, 0, None), 0);
    assert_eq!(factory_preset_load(&mut inst, &mut plugin, &entries, 0, state()), 1);
    assert_eq!(plugin.calls, ["restore 1", "snap", "restore 1", "snap"]);
    let keys = legacy_state_keys(&vec!["old", "b\0d", "older"]);
    assert_eq!(keys, ["old", "older"]);
    assert_eq!(legacy_state_key_at(&keys, 1), Some("older"));
    assert_eq!(legacy_state_key_at(&keys, 2), None);
    assert_eq!((set_render_mode(1), set_render_mode(256)), (1, 0));
    assert_eq!((set_render_mode(0), set_render_mode(2)), (0, 2));
    assert_eq!((set_render_mode(3), set_render_mode(7), set_render_mode(255)), (0, 0, 0));
}

#[test]
fn views_have_classes_of_their_own() {
    assert_eq!(sanitize_suffix(*b"Ac-e", *b"Gain"), "Ac_eGain");
    assert_eq!(view_class_name(*b"Acme", *b"Gain"), "TruceAUView_AcmeGain");
    assert_ne!(view_class_name(*b"Acme", *b"Gain"), view_class_name(*b"Acme", *b"Verb"));
    assert_eq!(
        compiled_class_names("com.acme.gain-2"),
        (
            "TruceAUCocoaViewProxy_com_acme_gain_2".to_string(),
            "TruceAuFixedContainer_com_acme_gain_2".to_string()
        )
    );
    assert_eq!(compiled_class_names("").0, "TruceAUCocoaViewProxy_default");
}

#[test]
fn views_are_made_and_resized_where_there_is_an_editor() {
    let editor = EditorGeometry {
        size: (400, 300),
        min_size: (100, 100),
        max_size: (1000, 1000),
        aspect_ratio: None,
        can_resize: true,
    };
    let fixed = EditorGeometry { can_resize: false, ..editor };
    assert_eq!((gui_can_resize(Some(&editor)), gui_can_resize(Some(&fixed)), gui_can_resize(None)), (1, 0, 0));
    assert_eq!(gui_set_size(Some(&editor), 50, 2000), Some((100, 1000)));
    assert_eq!(gui_set_size(Some(&editor), 0, 2000), None);
    assert_eq!(gui_set_size(Some(&fixed), 50, 50), None);
    assert_eq!(ui_view_for_audio_unit(0, true, true, Some(&editor)), Some((400, 300)));
    assert_eq!(ui_view_for_audio_unit(-1, true, true, Some(&editor)), None);
    assert_eq!(ui_view_for_audio_unit(0, false, true, Some(&editor)), None);
    assert_eq!(ui_view_for_audio_unit(0, true, false, Some(&editor)), None);
    assert_eq!(ui_view_for_audio_unit(0, true, true, None), None);
    let empty = EditorGeometry { size: (0, 300), ..editor };
    assert_eq!(ui_view_for_audio_unit(0, true, true, Some(&empty)), None);
}

#[test]
fn a_changed_latency_wakes_the_notifier_once() {
    let mut inst = AuInstance::new(vec![], 32, 11, 12);
    let mut plugin = Recorder { calls: vec![] };
    reset(&mut inst, &plugin);
    inst.param_notify = Some(ParamNotifier::new());
    inst.latency_cache = 3;
    let first = cb_process(&mut inst, &mut plugin, &block(16));
    assert!(first.latency_changed && first.wake_notifier);
    let second = cb_process(&mut inst, &mut plugin, &block(16));
    assert!(!second.latency_changed);
    let (latency, _) = inst.param_notify.as_mut().unwrap().drain();
    assert!(latency);
    // Nobody is told where nobody listens.
    inst.param_notify = None;
    inst.latency_cache = 3;
    assert!(!cb_process(&mut inst, &mut plugin, &block(16)).latency_changed);
}
