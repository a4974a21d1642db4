use truce::lv2::{
    category_as_lv2, escape_turtle, lv2_unit, param_symbol_candidate, plugin_uri, preset_uri,
    resolve_param_symbols, resolved_param_symbols, ui_uri, Layout, Lv2Bundle, Lv2Category, Lv2Flags,
    Lv2Param, Lv2Range, Lv2UiKind, Lv2Unit,
};
use truce::lv2_ttl::{
    render_preset_manifest_entry, render_preset_ttl, render_preset_ttl_from, render_ttls,
};

#[test]
fn plugin_uri_empty_url_falls_back_to_urn() {
    assert_eq!(plugin_uri("", "my-gain"), "urn:truce:my-gain");
}

#[test]
fn plugin_uri_uses_vendor_url() {
    assert_eq!(
        plugin_uri("https://example.com", "my-gain"),
        "https://example.com/lv2/my-gain"
    );
}

#[test]
fn plugin_uri_strips_trailing_slash() {
    assert_eq!(
        plugin_uri("https://example.com/", "my-gain"),
        "https://example.com/lv2/my-gain"
    );
    assert_eq!(
        plugin_uri("https://example.com///", "my-gain"),
        "https://example.com/lv2/my-gain"
    );
}

#[test]
fn ui_uri_appends_ui_fragment() {
    assert_eq!(
        ui_uri("https://example.com", "my-gain"),
        "https://example.com/lv2/my-gain#ui"
    );
    assert_eq!(ui_uri("", "my-gain"), "urn:truce:my-gain#ui");
}

fn bundle(category: Lv2Category, accepts_midi_in: bool, params: Vec<Lv2Param>) -> Lv2Bundle {
    let (audio_in, audio_out) = match category {
        Lv2Category::Instrument | Lv2Category::NoteEffect => (0, 2),
        _ => (2, 2),
    };
    Lv2Bundle {
        plugin_name: "Test".into(),
        vendor: "Vendor".into(),
        url: "https://example.com".into(),
        uri: plugin_uri("https://example.com", "test"),
        ui_uri: ui_uri("https://example.com", "test"),
        category,
        audio_in,
        audio_out,
        accepts_midi_in,
        has_midi_out: false,
        params,
        meter_ids: vec![],
        has_ui: false,
        ui_kind: Lv2UiKind::X11,
    }
}

fn enum_param() -> Lv2Param {
    Lv2Param {
        id: 0,
        name: "Waveform".into(),
        default_text: "1".into(),
        range: Lv2Range::Enum { count: 4 },
        unit: Lv2Unit::NoUnit,
        flags: Lv2Flags::default(),
    }
}

#[test]
fn instrument_midi_input_is_designated_control() {
    let (_manifest, ttl) = render_ttls(&bundle(Lv2Category::Instrument, true, vec![]), "x.so");
    let block = ttl
        .split("lv2:symbol \"midi_in\"")
        .next()
        .and_then(|head| head.rsplit("a lv2:InputPort, atom:AtomPort").next())
        .expect("midi_in input port present");
    assert!(block.contains("lv2:designation lv2:control"));
}

#[test]
fn effect_midi_input_is_designated_control() {
    let (_manifest, ttl) = render_ttls(&bundle(Lv2Category::Effect, false, vec![]), "x.so");
    assert!(ttl.contains("lv2:designation lv2:control"));
}

#[test]
fn enum_port_default_within_range() {
    let (_m, ttl) = render_ttls(&bundle(Lv2Category::Effect, false, vec![enum_param()]), "x.so");
    assert!(ttl.contains("lv2:maximum 3"));
    assert!(ttl.contains("lv2:default 1"));
}

fn named(id: u32, name: &str) -> Lv2Param {
    Lv2Param { id, name: name.into(), ..enum_param() }
}

#[test]
fn parameter_symbols_are_valid_and_distinct() {
    let symbols = resolve_param_symbols(&vec![
        named(0, "Cut off!"),
        named(1, "Cut off?"),
        named(2, "3rd"),
        named(3, ""),
    ]);
    assert_eq!(symbols.len(), 4);
    for (i, symbol) in symbols.iter().enumerate() {
        assert!(!symbol.is_empty());
        assert!(symbol.chars().all(|c| c.is_ascii_alphanumeric() || c == '_'));
        assert!(!symbol.starts_with(|c: char| c.is_ascii_digit()));
        assert!(!symbols[..i].contains(symbol));
    }
}

#[test]
fn manifest_names_the_plugin_and_its_binary() {
    let (manifest, ttl) = render_ttls(&bundle(Lv2Category::Effect, false, vec![]), "x.so");
    assert!(manifest.contains("<https://example.com/lv2/test>"));
    assert!(manifest.contains("<x.so>"));
    assert!(ttl.contains("doap:name \"Test\""));
}

#[test]
fn preset_uri_hangs_on_the_plugin() {
    assert_eq!(preset_uri("urn:truce:g", "u-1"), "urn:truce:g#preset-u-1");
    let entry = render_preset_manifest_entry("urn:truce:g", "u-1", "presets/a.ttl");
    assert!(entry.contains("<urn:truce:g#preset-u-1>"));
    assert!(entry.contains("<presets/a.ttl>"));
}

#[test]
fn preset_ttl_carries_the_state_in_base64() {
    let values = vec![("gain".to_string(), "0.5".to_string())];
    let whole = render_preset_ttl("urn:truce:g", "u-1", "Lead \"1\"", b"hi!", &values);
    assert!(whole.contains("aGkh"));
    assert!(whole.contains("Lead \\\"1\\\""));
    assert!(whole.contains("\"gain\""));
    assert_eq!(
        whole,
        render_preset_ttl_from("urn:truce:g", "u-1", "Lead \"1\"", "aGkh", &values)
    );
}

#[test]
fn ports_follow_each_other_without_gaps() {
    let layout = Layout { audio_in: 2, audio_out: 3, num_params: 4, num_meters: 1, has_midi_out: true };
    assert_eq!(Layout::audio_in_start(), 0);
    assert_eq!(layout.audio_out_start(), 2);
    assert_eq!(layout.control_start(), 5);
    assert_eq!(layout.meter_start(), 9);
    assert_eq!(layout.atom_in_port(), 10);
    assert_eq!(layout.midi_out_port(), Some(11));
    assert_eq!(layout.notify_out_port(), 12);
    assert_eq!(layout.total(), 13);
    let quiet = Layout { has_midi_out: false, ..layout };
    assert_eq!(quiet.midi_out_port(), None);
    assert_eq!(quiet.notify_out_port(), 11);
}

#[test]
fn names_become_symbols() {
    assert_eq!(param_symbol_candidate(7, ""), "p_7");
    assert_eq!(param_symbol_candidate(7, "Cut off!"), "Cut_off");
    assert_eq!(param_symbol_candidate(7, "3rd"), "p3rd");
    let symbols = resolved_param_symbols(&vec![named(4, "Gain"), named(9, "Gain")]);
    assert_eq!(symbols, vec![(4, "Gain".to_string()), (9, "p_9".to_string())]);
}

#[test]
fn kinds_and_units_have_lv2_names() {
    assert_eq!(category_as_lv2(Lv2Category::Instrument), "lv2:InstrumentPlugin");
    assert_eq!(lv2_unit(Lv2Unit::NoUnit), None);
    assert_eq!(lv2_unit(Lv2Unit::Db), Some("db"));
    assert_eq!(escape_turtle("a\"b\\c"), "a\\\"b\\\\c");
}
