use truce::au_host::factory_preset_name;
use truce::name_order::{comes_before, sort_names};
use truce::preset_library::PresetMeta;
use truce::presets::{
    collect_preset_files, component_presets_root, enumerate_scope, factory_presets, preset_uri,
    read_preset_ref, user_preset_root, FoundDir, FoundEntry, FoundFile, HostSystem, PresetScope,
    PresetsPlace, UserDirs, MAX_WALK_DEPTH,
};

fn meta(uuid: &str, name: &str, category: &str) -> PresetMeta {
    PresetMeta {
        uuid: uuid.into(),
        name: name.into(),
        category: category.into(),
        author: String::new(),
        comment: String::new(),
        tags: vec![],
        default: false,
    }
}

fn file(path: &str, meta: Option<PresetMeta>) -> FoundFile {
    FoundFile {
        file_name: path.rsplit('/').next().unwrap().as_bytes().to_vec(),
        path: path.into(),
        extension: path.rsplit_once('.').map(|(_, e)| e.to_string()),
        meta,
    }
}

fn dir(name: &str, entries: Vec<FoundEntry>) -> FoundDir {
    FoundDir { file_name: name.as_bytes().to_vec(), name: Some(name.into()), entries }
}

#[test]
fn enumerates_with_directory_category_fallback() {
    let root = dir(
        "root",
        vec![
            FoundEntry::File(file("c.trucepreset", Some(meta("u3", "C", "")))),
            FoundEntry::Dir(dir(
                "pad",
                vec![
                    FoundEntry::File(file("pad/a.trucepreset", Some(meta("u1", "A", "Lead")))),
                    FoundEntry::File(file("pad/b.trucepreset", Some(meta("u2", "B", "")))),
                    FoundEntry::File(file("pad/readme.txt", None)),
                ],
            )),
        ],
    );
    let refs = enumerate_scope(Some(&root), PresetScope::Factory, "Acme", "Synth");
    assert_eq!(refs.len(), 3);
    let by_uuid = |u: &str| refs.iter().find(|r| r.uuid == u).unwrap();
    assert_eq!(by_uuid("u1").category.as_deref(), Some("Lead"));
    assert_eq!(by_uuid("u2").category.as_deref(), Some("pad"));
    assert_eq!(by_uuid("u3").category, None);
    assert_eq!(by_uuid("u1").uri, "truce-preset://Acme/Synth/u1");
    assert_eq!(by_uuid("u1").scope, PresetScope::Factory);
}

#[test]
fn missing_root_is_empty() {
    assert!(enumerate_scope(None, PresetScope::User, "V", "P").is_empty());
}

#[test]
fn walks_end_at_a_depth() {
    let mut tree = dir("d", vec![FoundEntry::File(file("deep.trucepreset", Some(meta("u", "N", ""))))]);
    for _ in 0..MAX_WALK_DEPTH {
        tree = dir("d", vec![FoundEntry::Dir(tree)]);
    }
    assert_eq!(enumerate_scope(Some(&tree), PresetScope::User, "V", "P").len(), 1);
    let mut paths = vec!["first".to_string()];
    collect_preset_files(&tree, "trucepreset", 0, &mut paths);
    assert_eq!(paths, ["first", "deep.trucepreset"]);
    let deeper = dir("d", vec![FoundEntry::Dir(tree)]);
    assert!(enumerate_scope(Some(&deeper), PresetScope::User, "V", "P").is_empty());
    let mut paths = Vec::new();
    collect_preset_files(&deeper, "trucepreset", 0, &mut paths);
    assert!(paths.is_empty());
}

#[test]
fn a_file_on_its_own_has_no_directory_category() {
    let mut full = meta("u", "N", "");
    full.author = "A".into();
    full.tags = vec!["t".into()];
    let found = file("x/n.trucepreset", Some(full));
    let preset = read_preset_ref(None, &found, PresetScope::Pack, "V", "P").unwrap();
    assert_eq!(preset.category, None);
    assert_eq!(preset.author.as_deref(), Some("A"));
    assert_eq!(preset.comment, None);
    assert_eq!(preset.tags, ["t"]);
    assert_eq!(preset.path, "x/n.trucepreset");
    assert!(read_preset_ref(None, &file("x", None), PresetScope::Pack, "V", "P").is_none());
    assert_eq!(preset_uri("V", "P", "u"), "truce-preset://V/P/u");
}

#[test]
fn user_presets_lie_where_the_system_keeps_them() {
    let dirs = |home: Option<&str>, app_data: Option<&str>, data_home: Option<&str>| UserDirs {
        home: home.map(String::from),
        app_data: app_data.map(String::from),
        data_home: data_home.map(String::from),
    };
    let parts = |system, d| user_preset_root(system, d, "V", "P").map(|p| p.join("|"));
    assert_eq!(
        parts(HostSystem::MacOs, dirs(Some("h"), None, None)).as_deref(),
        Some("h|Library/Audio/Presets/truce|V|P")
    );
    assert_eq!(
        parts(HostSystem::Windows, dirs(Some("h"), Some("a"), None)).as_deref(),
        Some("a|truce|V|P|presets")
    );
    assert_eq!(
        parts(HostSystem::Unix, dirs(Some("h"), None, Some("x"))).as_deref(),
        Some("x|truce|V|P|presets")
    );
    assert_eq!(
        parts(HostSystem::Unix, dirs(Some("h"), None, None)).as_deref(),
        Some("h|.local/share|truce|V|P|presets")
    );
    assert_eq!(parts(HostSystem::Windows, dirs(Some("h"), None, None)), None);
    assert_eq!(parts(HostSystem::MacOs, dirs(None, Some("a"), Some("x"))), None);
    assert_eq!(parts(HostSystem::Unix, dirs(None, Some("a"), None)), None);
}

#[test]
fn the_default_leads_the_factory_list() {
    let mut init = meta("u2", "Init", "");
    init.default = true;
    let root = dir(
        "root",
        vec![
            FoundEntry::Dir(dir("pad", vec![FoundEntry::File(file("a.trucepreset", Some(meta("u1", "A", ""))))])),
            FoundEntry::File(file("b.trucepreset", Some(meta("u3", "bad\0name", "")))),
            FoundEntry::File(file("i.trucepreset", Some(init))),
        ],
    );
    let refs = enumerate_scope(Some(&root), PresetScope::Factory, "V", "P");
    assert_eq!(refs.len(), 3);
    let list = factory_presets(&refs);
    let names: Vec<&str> = list.iter().map(|e| e.name.as_str()).collect();
    assert_eq!(names, ["Init", "pad/A"]);
    assert_eq!(list[0].path, "i.trucepreset");
    assert_eq!(factory_preset_name(&list, 1), Some("pad/A"));
    assert_eq!(factory_preset_name(&list, 2), None);
}

#[test]
fn bundles_are_searched_in_order() {
    assert_eq!(component_presets_root(Some(true), true, true), Some(PresetsPlace::AboveResources));
    assert_eq!(component_presets_root(Some(false), true, true), Some(PresetsPlace::Resources));
    assert_eq!(component_presets_root(None, false, true), Some(PresetsPlace::Flat));
    assert_eq!(component_presets_root(None, false, false), None);
    assert_eq!(PresetsPlace::Flat.subdirectory(), "Presets");
    assert_eq!(PresetsPlace::Resources.subdirectory(), "Resources/Presets");
}

#[test]
fn entries_are_visited_in_name_order() {
    let preset = |path: &str| FoundEntry::File(file(path, Some(meta(path, "N", ""))));
    let root = dir(
        "root",
        vec![
            preset("b.trucepreset"),
            FoundEntry::Dir(dir("pad", vec![preset("pad/z.trucepreset"), preset("pad/a.trucepreset")])),
            preset("pad-two.trucepreset"),
            preset("B.trucepreset"),
            FoundEntry::Dir(dir("a", vec![preset("a/x.trucepreset")])),
            preset("a.trucepreset"),
        ],
    );
    let expected = [
        "B.trucepreset",
        "a/x.trucepreset",
        "a.trucepreset",
        "b.trucepreset",
        "pad/a.trucepreset",
        "pad/z.trucepreset",
        "pad-two.trucepreset",
    ];
    let refs = enumerate_scope(Some(&root), PresetScope::User, "V", "P");
    let listed: Vec<&str> = refs.iter().map(|r| r.path.as_str()).collect();
    assert_eq!(listed, expected);
    let mut paths = Vec::new();
    collect_preset_files(&root, "trucepreset", 0, &mut paths);
    assert_eq!(paths, expected);
    // That is the order of the paths as such.
    let mut sorted: Vec<std::path::PathBuf> = paths.iter().map(std::path::PathBuf::from).collect();
    sorted.sort();
    assert_eq!(sorted, expected.map(std::path::PathBuf::from));
}

#[test]
fn names_are_ordered_byte_by_byte() {
    let before = |a: &str, b: &str| comes_before(&a.as_bytes().to_vec(), &b.as_bytes().to_vec());
    assert!(before("", "a"));
    assert!(before("a", "ab"));
    assert!(before("ab", "b"));
    assert!(before("Z", "a"));
    assert!(!before("a", "a"));
    assert!(!before("b", "ab"));
    let names: Vec<Vec<u8>> = ["b", "a", "b", ""].iter().map(|n| n.as_bytes().to_vec()).collect();
    assert_eq!(sort_names(&names.iter().collect()), [3, 1, 0, 2]);
    assert_eq!(sort_names(&vec![]), []);
}
