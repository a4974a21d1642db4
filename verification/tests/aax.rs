use truce::aax::{
    editor_get_size, editor_info, editor_open, format_param, fourcc, load_state, output_event_at,
    output_event_count, parse_abi_version, process, push_sysex_input, register_aax_inner, reset,
    set_param, try_encode_aax_midi, AaxInstance, EditorWindow, SaveCache, SaveCheck, SaveStep,
    TruceAaxMidiEvent, AAX_CAT_EQ, PLUGIN_ID_SALT, SNAPSHOT_RETRIES,
};
use truce::bus::{BusLayout, ChannelConfig};
use truce::editor::EditorGeometry;
use truce::events::{Event, EventBody, EventList, TransportInfo};
use truce::info::{
    category_from_str, fourcc as code, resolve_name_override, MidiDialect, PluginCategory, PluginInfo,
};
use truce::preset::FactoryPresetInfo;
use truce::process::{PluginRuntime, ProcessStatus};
use truce::state::{
    apply_state, restore_plugin, DeserializedState, RestoreError, StateLoadError, StateLoadQueue,
};

struct Recorder {
    calls: Vec<String>,
    loads: bool,
}

impl PluginRuntime for Recorder {
    fn set_plain(&mut self, id: u32, value: u64) {
        self.calls.push(format!("set {id} {}", f64::from_bits(value)));
    }
    fn restore_values(&mut self, params: &Vec<(u32, u64)>) {
        self.calls.push(format!("restore {}", params.len()));
    }
    fn snap_smoothers(&mut self) {
        self.calls.push("snap".to_string());
    }
    fn load_state(&mut self, bytes: &Vec<u8>) -> Result<(), StateLoadError> {
        self.calls.push(format!("load {}", bytes.len()));
        if self.loads {
            Ok(())
        } else {
            Err(StateLoadError::Other("no".to_string()))
        }
    }
    fn process(
        &mut self,
        block_start: usize,
        num_samples: usize,
        events: &EventList,
        _transport: &TransportInfo,
        output_events: &mut EventList,
    ) -> ProcessStatus {
        self.calls.push(format!("process {block_start}+{num_samples} with {}", events.len()));
        output_events.push(Event::new(
            3,
            EventBody::NoteOff { group: 0, channel: 1, note: 60, velocity: 2 },
        ));
        ProcessStatus::Normal
    }
    fn latency(&self) -> u32 {
        5
    }
    fn tail(&self) -> u32 {
        6
    }
}

fn recorder() -> Recorder {
    Recorder { calls: vec![], loads: true }
}

fn state() -> DeserializedState {
    DeserializedState { params: vec![(1, 2)], extra: Some(vec![3]) }
}

#[test]
fn states_apply_values_first_and_own_bytes_last() {
    let mut plugin = recorder();
    assert!(apply_state(&mut plugin, &state()).is_none());
    assert_eq!(plugin.calls, ["restore 1", "snap", "load 1"]);
    assert!(restore_plugin(&mut plugin, Some(state())).is_ok());
    assert!(matches!(restore_plugin(&mut plugin, None), Err(RestoreError::Invalid)));
    plugin.loads = false;
    let error = restore_plugin(&mut plugin, Some(state())).unwrap_err();
    assert_eq!(error.message(), "plugin load_state failed: no");
    assert_eq!(RestoreError::Invalid.message(), "state envelope is invalid");
    assert_eq!(StateLoadError::Malformed("x").message(), "malformed state: x");
}

#[test]
fn the_newest_waiting_state_counts() {
    let mut queue = StateLoadQueue::new();
    assert!(queue.pop().is_none());
    assert!(queue.force_push(state()).is_none());
    let older = queue.force_push(DeserializedState { params: vec![], extra: None });
    assert_eq!(older.map(|s| s.params), Some(vec![(1, 2)]));
    assert!(queue.pop().unwrap().params.is_empty());
}

#[test]
fn a_block_runs_in_one_call_once_prepared() {
    let mut inst = AaxInstance::new(0, 0);
    let mut plugin = recorder();
    let message = |at: u32| TruceAaxMidiEvent { delta_frames: at, status: 0x90, data1: 60, data2: 9, pad: 0 };
    let messages = vec![message(9), message(1)];
    assert!(process(&mut inst, &mut plugin, 64, &messages, &None).silenced);
    assert!(plugin.calls.is_empty());
    reset(&mut inst, &mut plugin);
    assert_eq!(plugin.calls, ["snap"]);
    assert_eq!((inst.latency_cache, inst.tail_cache), (5, 6));
    assert!(load_state(&mut inst, &mut plugin, Some(state())));
    assert_eq!(inst.state_revision, 2);
    let revision = inst.state_revision;
    plugin.calls.clear();
    let result = process(&mut inst, &mut plugin, 64, &messages, &None);
    assert!(!result.silenced);
    assert_eq!(plugin.calls, ["restore 1", "snap", "load 1", "process 0+64 with 2"]);
    assert_eq!(inst.state_revision, revision + 1);
    let offsets: Vec<u32> = inst.event_list.iter().iter().map(|e| e.sample_offset).collect();
    assert_eq!(offsets, vec![1, 9]);
    assert_eq!(output_event_count(&inst.output_events), 1);
    let out = output_event_at(&inst.output_events, 0).unwrap();
    assert_eq!((out.delta_frames, out.status, out.data1, out.data2), (3, 0x81, 60, 2));
    assert!(output_event_at(&inst.output_events, 1).is_none());
    assert!(try_encode_aax_midi(&Event::new(0, EventBody::ParamChange { id: 0, value: 0 })).is_none());
    push_sysex_input(&mut inst, 2, &[1, 2]);
    push_sysex_input(&mut inst, 2, &[]);
    assert_eq!(inst.event_list.len(), 3);
}

#[test]
fn a_save_is_kept_only_where_nothing_changed_meanwhile() {
    let mut cache = SaveCache { entry: None };
    let (step, mut attempt) = cache.begin(4);
    assert!(matches!(step, SaveStep::Serialize));
    assert_eq!(attempt.checks_left, SNAPSHOT_RETRIES);
    assert_eq!(attempt.check(5), SaveCheck::Again);
    assert_eq!(attempt.check(5), SaveCheck::Consistent);
    cache.keep(&attempt, &vec![1, 2]);
    assert!(matches!(cache.begin(5).0, SaveStep::Cached(bytes) if bytes == [1, 2]));
    let (step, mut attempt) = cache.begin(6);
    assert!(matches!(step, SaveStep::Serialize));
    assert_eq!(attempt.check(7), SaveCheck::Again);
    assert_eq!(attempt.check(8), SaveCheck::Again);
    assert_eq!(attempt.check(9), SaveCheck::Last);
    let mut inst = AaxInstance::new(0, 0);
    let mut plugin = recorder();
    set_param(&mut inst, &mut plugin, 1, 0.5f64.to_bits());
    assert_eq!(plugin.calls, ["set 1 0.5"]);
    assert_eq!(inst.state_revision, 2);
}

fn plugin_info(category: PluginCategory) -> PluginInfo {
    PluginInfo {
        name: "Gain",
        vendor: "Acme",
        url: "",
        version: "1",
        category,
        bundle_id: "gain",
        vst3_id: "",
        clap_id: "",
        fourcc: *b"Gain",
        au_type: *b"aufx",
        au_manufacturer: *b"Acme",
        aax_id: None,
        aax_category: Some("EQ"),
        vst3_name: None,
        clap_name: None,
        vst2_name: None,
        au_name: None,
        au3_name: None,
        aax_name: Some(""),
        lv2_name: None,
        mute_preview_output: false,
        accepts_midi_in: false,
        emits_midi: false,
        midi_input_ports: 1,
        midi_output_ports: 1,
        midi_input_dialect: MidiDialect::Midi1,
        midi_output_dialect: MidiDialect::Midi1,
        min_subblock_samples: 32,
    }
}

#[test]
fn plugins_are_described_with_ids_of_their_own() {
    let layout = BusLayout::new().with_output("Main", ChannelConfig::Stereo);
    let (d, p) = register_aax_inner(&plugin_info(PluginCategory::Effect), &layout, &vec![], true);
    assert_eq!(d.name, "Gain");
    assert_eq!(d.product_id, fourcc(*b"Gain"));
    assert_eq!(d.plugin_id, d.product_id ^ PLUGIN_ID_SALT);
    assert_ne!(d.plugin_id, d.product_id);
    assert_eq!(d.category, AAX_CAT_EQ);
    assert!(d.num_inputs > 0);
    assert_eq!((d.num_outputs, d.has_editor), (2, 1));
    assert!(p.is_empty());
    assert_eq!(fourcc([0, 0, 1, 2]), 258);
    assert_eq!(fourcc([0xFF, 0xFF, 0xFF, 0xFF]), -1);
}

#[test]
fn names_codes_and_categories() {
    assert_eq!(resolve_name_override(Some("X"), "Y"), "X");
    assert_eq!(resolve_name_override(Some(""), "Y"), "Y");
    assert_eq!(resolve_name_override(None, "Y"), "Y");
    assert_eq!(code(b"Gain"), *b"Gain");
    assert_eq!(category_from_str("Instrument"), PluginCategory::Instrument);
    assert_eq!(category_from_str("NoteEffect"), PluginCategory::NoteEffect);
    assert_eq!(category_from_str("Analyzer"), PluginCategory::Analyzer);
    assert_eq!(category_from_str("Tool"), PluginCategory::Tool);
    assert_eq!(category_from_str("anything"), PluginCategory::Effect);
    let preset = FactoryPresetInfo::new(3, "Init");
    assert_eq!((preset.number, preset.name), (3, "Init"));
    let layout = BusLayout::stereo().with_input("Side", ChannelConfig::Custom(4));
    assert_eq!((layout.total_input_channels(), layout.total_output_channels()), (6, 2));
    assert_eq!(ChannelConfig::Mono.channel_count(), 1);
}

#[test]
fn editors_open_in_the_windows_of_their_platform() {
    let editor = EditorGeometry {
        size: (400, 300),
        min_size: (1, 1),
        max_size: (1000, 1000),
        aspect_ratio: None,
        can_resize: false,
    };
    let info = editor_info(Some(&editor));
    assert_eq!((info.has_editor, info.width, info.height), (1, 400, 300));
    assert_eq!(editor_info(None).has_editor, 0);
    assert_eq!(editor_get_size(Some(&editor)), Some((400, 300)));
    assert_eq!(editor_get_size(None), None);
    assert_eq!(editor_open(true, true, true, true, 1), Some(EditorWindow::AppKit));
    assert_eq!(editor_open(true, true, true, true, 3), Some(EditorWindow::Win32));
    assert_eq!(editor_open(true, true, true, true, 2), None);
    assert_eq!(editor_open(true, false, true, true, 1), None);
    assert_eq!(editor_open(true, true, true, false, 1), None);
}

#[test]
fn value_texts_fit_the_buffer() {
    let mut buffer = vec![9u8; 3];
    format_param(Some("12.5"), &mut buffer);
    assert_eq!(buffer, [b'1', b'2', 0]);
    format_param(None, &mut buffer);
    assert_eq!(buffer, [b'1', b'2', 0]);
}

#[test]
fn the_interface_version_is_read_from_its_header() {
    assert_eq!(parse_abi_version("// x\n#define TRUCE_AAX_ABI_VERSION 12u /* y */\n"), Some(12));
    assert_eq!(parse_abi_version("  #define\tTRUCE_AAX_ABI_VERSION   7U\r\n"), Some(7));
    assert_eq!(parse_abi_version("#define TRUCE_AAX_ABI_VERSION x\n#define TRUCE_AAX_ABI_VERSION 3"), Some(3));
    assert_eq!(parse_abi_version("#define TRUCE_AAX_ABI_VERSION 99999999999u\n"), None);
    assert_eq!(parse_abi_version("/* a */ /**/ #define TRUCE_AAX_ABI_VERSION 4u // b\n"), Some(4));
    assert_eq!(parse_abi_version("/* #define TRUCE_AAX_ABI_VERSION 4u\n"), None);
    assert_eq!(parse_abi_version("// #define TRUCE_AAX_ABI_VERSION 4u\n"), None);
    assert_eq!(parse_abi_version("#define OTHER 3\n"), None);
    assert_eq!(parse_abi_version(""), None);
}
