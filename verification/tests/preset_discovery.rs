use truce::preset_discovery::{
    build_runtime_info, factory_count, factory_create, factory_get_descriptor, is_described,
    provider_get_metadata, provider_init, sidecar_dir_for, ClapPresetFile, Indexer, MetadataCall,
    MetadataReceiver, CLAP_PRESET_DISCOVERY_IS_FACTORY_CONTENT,
    CLAP_PRESET_DISCOVERY_LOCATION_FILE,
};

const ALL: MetadataReceiver = MetadataReceiver {
    begins_presets: true,
    takes_plugin_ids: true,
    takes_flags: true,
    takes_creators: true,
    takes_descriptions: true,
    takes_features: true,
};

#[test]
fn discovery_constants_are_those_of_the_interface() {
    assert_eq!(
        CLAP_PRESET_DISCOVERY_LOCATION_FILE,
        clap_sys::factory::preset_discovery::CLAP_PRESET_DISCOVERY_LOCATION_FILE
    );
    assert_eq!(
        CLAP_PRESET_DISCOVERY_IS_FACTORY_CONTENT,
        clap_sys::factory::preset_discovery::CLAP_PRESET_DISCOVERY_IS_FACTORY_CONTENT
    );
}

#[test]
fn presets_lie_beside_the_plugin() {
    assert_eq!(
        sidecar_dir_for("/p/Gain.clap", Some("Gain"), Some("/p")),
        Some(("/p".to_string(), "Gain.presets".to_string()))
    );
    assert_eq!(sidecar_dir_for("", Some("Gain"), Some("/p")), None);
    assert_eq!(sidecar_dir_for("/", None, Some("/p")), None);
    assert_eq!(sidecar_dir_for("/", Some("Gain"), None), None);
}

#[test]
fn the_provider_is_made_for_its_own_identity() {
    let rt = build_runtime_info("com.acme.gain", "Gain", "Ac\0me", "/p/Gain.presets");
    assert_eq!(rt.vendor, "");
    assert_eq!((factory_count(None), factory_count(Some(&rt))), (0, 1));
    let d = factory_get_descriptor(Some(&rt), 0).unwrap();
    assert_eq!((d.id.as_str(), d.name.as_str()), ("com.acme.gain.presets", "Gain presets"));
    assert!(factory_get_descriptor(Some(&rt), 1).is_none());
    assert!(factory_get_descriptor(None, 0).is_none());
    assert!(factory_create(Some(&rt), Some("com.acme.gain.presets")));
    assert!(!factory_create(Some(&rt), Some("com.acme.gain")));
    assert!(!factory_create(Some(&rt), None));
    assert!(!factory_create(None, Some("com.acme.gain.presets")));
}

#[test]
fn the_indexer_hears_of_files_and_their_place() {
    let rt = build_runtime_info("id", "Gain", "Acme", "/p/Gain.presets");
    let told = provider_init(Some(&rt), Some(Indexer { takes_filetypes: true, takes_locations: true })).unwrap();
    assert_eq!(told.filetype.unwrap().2, "clap-preset");
    assert_eq!(
        told.location.unwrap(),
        (1, "Factory".to_string(), 0, "/p/Gain.presets".to_string())
    );
    let told = provider_init(Some(&rt), Some(Indexer { takes_filetypes: false, takes_locations: false })).unwrap();
    assert!(told.filetype.is_none() && told.location.is_none());
    assert!(provider_init(Some(&rt), None).is_none());
    assert!(provider_init(None, None).is_none());
    let nowhere = build_runtime_info("id", "Gain", "Acme", "");
    assert!(provider_init(Some(&nowhere), None).is_some());
}

#[test]
fn a_preset_is_described_call_by_call() {
    let rt = build_runtime_info("id", "Gain", "Acme", "/p");
    let file = ClapPresetFile {
        name: "Lead".to_string(),
        author: Some("JK".to_string()),
        comment: Some("bad\0".to_string()),
        category: Some("Synth".to_string()),
        tags: vec!["warm".to_string(), "\0".to_string(), "wide".to_string()],
    };
    let plan = provider_get_metadata(Some(&rt), 0, true, Some(&file), Some(ALL)).unwrap();
    assert_eq!(plan.begin.as_deref(), Some("Lead"));
    let calls: Vec<String> = plan.calls.iter().map(|c| format!("{c:?}")).collect();
    assert_eq!(
        calls,
        [
            "PluginId(\"clap\", \"id\")",
            "Flags(1)",
            "Creator(\"JK\")",
            "Feature(\"Synth\")",
            "Feature(\"warm\")",
            "Feature(\"wide\")",
        ]
    );
    assert!(is_described(Some(&plan), true));
    assert!(!is_described(Some(&plan), false));
    assert!(!is_described(None, true));
    let deaf = MetadataReceiver {
        begins_presets: false,
        takes_features: false,
        takes_plugin_ids: false,
        ..ALL
    };
    let plan = provider_get_metadata(Some(&rt), 0, true, Some(&file), Some(deaf)).unwrap();
    assert!(plan.begin.is_none());
    assert!(is_described(Some(&plan), false));
    assert!(matches!(plan.calls[0], MetadataCall::Flags(1)));
    assert_eq!(plan.calls.len(), 2);
}

#[test]
fn presets_that_cannot_be_read_are_not_described() {
    let rt = build_runtime_info("id", "Gain", "Acme", "/p");
    let file = ClapPresetFile {
        name: String::new(),
        author: None,
        comment: None,
        category: None,
        tags: vec![],
    };
    assert!(provider_get_metadata(Some(&rt), 1, true, Some(&file), Some(ALL)).is_none());
    assert!(provider_get_metadata(Some(&rt), 0, false, Some(&file), Some(ALL)).is_none());
    assert!(provider_get_metadata(Some(&rt), 0, true, None, Some(ALL)).is_none());
    assert!(provider_get_metadata(Some(&rt), 0, true, Some(&file), None).is_none());
    assert!(provider_get_metadata(None, 0, true, Some(&file), Some(ALL)).is_none());
}
