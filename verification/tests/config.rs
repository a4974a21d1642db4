use truce::config::{
    default_presets_dir, extract_json_string, find_truce_toml, load_config_error, midi_capabilities,
    non_empty_dir, plugin_id, plugin_id_from, read_cargo_config_target_dir, target_dir,
    AutomationConfig, Candidate, LoadFailure, NamedDir, TargetDir,
};

#[test]
fn midi_caps_category_defaults() {
    assert_eq!(midi_capabilities("note_effect", None, None), (true, true));
    assert_eq!(midi_capabilities("midi", None, None), (true, true));
    assert_eq!(midi_capabilities("instrument", None, None), (true, false));
    assert_eq!(midi_capabilities("effect", None, None), (false, false));
    assert_eq!(midi_capabilities("analyzer", None, None), (false, false));
}

#[test]
fn midi_caps_overrides() {
    assert_eq!(midi_capabilities("effect", None, Some(true)), (false, true));
    assert_eq!(midi_capabilities("instrument", Some(false), None), (false, false));
    assert_eq!(midi_capabilities("effect", Some(true), Some(true)), (true, true));
}

#[test]
fn extracts_unix_target_directory() {
    let json = r#"{"packages":[],"target_directory":"/work/ws/target","version":1}"#;
    assert_eq!(extract_json_string(json, "target_directory").as_deref(), Some("/work/ws/target"));
}

#[test]
fn unescapes_windows_backslashes() {
    let json = r#"{"target_directory":"C:\\work\\ws\\target","version":1}"#;
    assert_eq!(
        extract_json_string(json, "target_directory").as_deref(),
        Some(r"C:\work\ws\target")
    );
}

#[test]
fn missing_field_is_none() {
    assert_eq!(extract_json_string(r#"{"version":1}"#, "target_directory"), None);
}

#[test]
fn unterminated_field_is_none() {
    assert_eq!(extract_json_string(r#"{"target_directory":"/work"#, "target_directory"), None);
    assert_eq!(extract_json_string(r#"{"a":""}"#, "a").as_deref(), Some(""));
}

#[test]
fn plugin_id_is_lowered_and_without_spaces() {
    assert_eq!(plugin_id("com.acme", "Big Reverb 2"), "com.acme.bigreverb2");
    assert_eq!(plugin_id_from("com.acme", "big reverb"), "com.acme.bigreverb");
    // Lower-casing goes beyond ASCII.
    assert_eq!(plugin_id("v", "\u{c4}X"), "v.\u{e4}x");
}

#[test]
fn cargo_config_names_a_target_directory() {
    assert_eq!(
        read_cargo_config_target_dir("[build]\ntarget-dir = \"out\"\n").as_deref(),
        Some("out")
    );
    assert_eq!(read_cargo_config_target_dir("[build]\ntarget-dir = \"\"\n"), None);
    assert_eq!(read_cargo_config_target_dir("[build]\njobs = 2\n"), None);
    assert_eq!(read_cargo_config_target_dir("[build\n"), None);
    assert_eq!(non_empty_dir(Some(String::new())), None);
    assert_eq!(non_empty_dir(Some("a".to_string())), Some("a".to_string()));
}

#[test]
fn target_directory_is_looked_for_in_order() {
    let named = |path: &str, absolute: bool| Some(NamedDir { path: path.to_string(), absolute });
    assert!(matches!(
        target_dir(Some("/m".to_string()), named("/e", true), named("/c", true)),
        TargetDir::AsIs(p) if p == "/m"
    ));
    assert!(matches!(
        target_dir(None, named("e", false), named("/c", true)),
        TargetDir::UnderRoot(p) if p == "e"
    ));
    assert!(matches!(
        target_dir(None, named("", false), named("/c", true)),
        TargetDir::AsIs(p) if p == "/c"
    ));
    assert!(matches!(target_dir(None, None, None), TargetDir::UnderRoot(p) if p == "target"));
}

#[test]
fn configuration_file_is_the_nearest_one() {
    let at = |path: &str, exists: bool| Candidate { path: path.to_string(), exists };
    let candidates = vec![at("/a/b/truce.toml", false), at("/a/truce.toml", true), at("/truce.toml", true)];
    assert_eq!(find_truce_toml(Some("/a/b"), &candidates), Ok("/a/truce.toml".to_string()));
    assert_eq!(
        find_truce_toml(Some("/a/b"), &vec![at("/a/b/truce.toml", false)]),
        Err("truce.toml not found in any ancestor of /a/b. Copy truce.toml.example to your workspace root to get started.".to_string())
    );
    assert_eq!(
        find_truce_toml(None, &candidates),
        Err("CARGO_MANIFEST_DIR not set".to_string())
    );
}

#[test]
fn configuration_errors_name_the_file() {
    assert_eq!(
        load_config_error("t.toml", &LoadFailure::Unreadable("gone".to_string())),
        "Failed to read t.toml: gone"
    );
    assert_eq!(
        load_config_error("t.toml", &LoadFailure::Unparsed("bad".to_string())),
        "Failed to parse t.toml: bad"
    );
}

#[test]
fn configuration_defaults() {
    assert_eq!(default_presets_dir(), "presets");
    assert_eq!(AutomationConfig::default().min_subblock_samples, 32);
}
