use truce::manifest::{host_triple, save_error, BundleEntry, BundleManifest, LoadOutcome};

fn entry(plugin: &str, format: &str, filename: &str) -> BundleEntry {
    BundleEntry {
        plugin_crate: plugin.into(),
        plugin_name: plugin.into(),
        plugin_bundle_id: format!("com.example.{plugin}"),
        format: format.into(),
        filename: filename.into(),
    }
}

fn manifest(triple: &str, profile: &str) -> BundleManifest {
    BundleManifest::new(triple.to_string(), profile.to_string())
}

#[test]
fn merge_replaces_matching_plugin_format_keys() {
    let mut m = manifest("x86_64-unknown-linux-gnu", "release");
    m.bundles.push(entry("a", "clap", "A.clap"));
    m.bundles.push(entry("b", "vst3", "B.vst3"));

    let mut incoming = manifest("x86_64-unknown-linux-gnu", "release");
    incoming.bundles.push(entry("a", "clap", "A-new.clap"));
    incoming.bundles.push(entry("a", "vst3", "A.vst3"));

    m.merge(incoming);

    assert_eq!(m.bundles.len(), 3);
    assert!(m.bundles.iter().any(|e| e.filename == "A-new.clap"));
    assert!(m.bundles.iter().any(|e| e.filename == "A.vst3"));
    assert!(m.bundles.iter().any(|e| e.filename == "B.vst3"));
}

#[test]
fn merge_wipes_when_target_or_profile_differs() {
    let mut m = manifest("x86_64-apple-darwin", "release");
    m.bundles.push(entry("a", "clap", "A.clap"));

    let mut incoming = manifest("x86_64-unknown-linux-gnu", "release");
    incoming.bundles.push(entry("b", "vst3", "B.vst3"));

    m.merge(incoming);

    assert_eq!(m.target_triple, "x86_64-unknown-linux-gnu");
    assert_eq!(m.bundles.len(), 1);
    assert_eq!(m.bundles[0].filename, "B.vst3");
}

#[test]
fn merge_wipes_when_profile_differs() {
    let mut m = manifest("x86_64-unknown-linux-gnu", "release");
    m.bundles.push(entry("a", "clap", "A.clap"));

    let mut incoming = manifest("x86_64-unknown-linux-gnu", "debug");
    incoming.bundles.push(entry("a", "clap", "A-debug.clap"));

    m.merge(incoming);

    assert_eq!(m.profile, "debug");
    assert_eq!(m.bundles.len(), 1);
    assert_eq!(m.bundles[0].filename, "A-debug.clap");
}

#[test]
fn merging_twice_lists_each_bundle_once() {
    let mut m = manifest("t", "release");
    for _ in 0..2 {
        let mut incoming = manifest("t", "release");
        incoming.bundles.push(entry("a", "clap", "A.clap"));
        incoming.bundles.push(entry("b", "clap", "B.clap"));
        m.merge(incoming);
    }
    assert_eq!(m.bundles, vec![entry("a", "clap", "A.clap"), entry("b", "clap", "B.clap")]);
}

#[test]
fn bundles_of_one_plugin_keep_their_order() {
    let mut m = manifest("t", "release");
    m.bundles.push(entry("a", "clap", "1"));
    m.bundles.push(entry("b", "clap", "2"));
    m.bundles.push(entry("a", "vst3", "3"));
    let names: Vec<&str> = m.bundles_for_plugin("a").iter().map(|e| e.filename.as_str()).collect();
    assert_eq!(names, ["1", "3"]);
    assert!(m.bundles_for_plugin("c").is_empty());
}

#[test]
fn manifest_file_lies_in_the_bundles_directory() {
    assert_eq!(BundleManifest::manifest_path("out", '/'), "out/manifest.toml");
    assert_eq!(BundleManifest::manifest_path("out/", '/'), "out/manifest.toml");
    assert_eq!(BundleManifest::manifest_path("", '/'), "manifest.toml");
}

#[test]
fn unusable_manifests_are_refused() {
    let read = |outcome| BundleManifest::load("out", '/', outcome).map(|m| m.profile);
    assert_eq!(
        read(LoadOutcome::Unreadable("gone".to_string())),
        Err("no build manifest at out/manifest.toml: gone\nRun `cargo truce build` first to produce bundles.".to_string())
    );
    assert_eq!(
        read(LoadOutcome::Unparsed("bad".to_string())),
        Err("failed to parse build manifest at out/manifest.toml: bad".to_string())
    );
    let mut old = manifest("t", "release");
    old.schema_version = 1;
    assert_eq!(
        read(LoadOutcome::Parsed(old)),
        Err("build manifest at out/manifest.toml has schema_version 1 (expected 2). Re-run `cargo truce build`.".to_string())
    );
    assert_eq!(read(LoadOutcome::Parsed(manifest("t", "release"))), Ok("release".to_string()));
    assert!(matches!(BundleManifest::load_if_present("out", '/', None), Ok(None)));
}

#[test]
fn manifest_write_errors() {
    assert_eq!(save_error(None, "x"), "failed to serialize build manifest: x");
    assert_eq!(save_error(Some("m"), "x"), "failed to write build manifest at m: x");
}

#[test]
fn host_triples() {
    assert_eq!(host_triple("linux", "x86_64"), "x86_64-unknown-linux-gnu");
    assert_eq!(host_triple("linux", "aarch64"), "aarch64-unknown-linux-gnu");
    assert_eq!(host_triple("macos", "aarch64"), "aarch64-apple-darwin");
    assert_eq!(host_triple("macos", "x86_64"), "x86_64-apple-darwin");
    assert_eq!(host_triple("windows", "x86_64"), "x86_64-pc-windows-msvc");
    assert_eq!(host_triple("windows", "aarch64"), "aarch64-pc-windows-msvc");
    assert_eq!(host_triple("linux", "riscv64"), "unknown");
}
