use truce::preset_library::{
    checked_extra, find_annotation, library_of, preset_identity, read_extra,
    read_param_annotations, read_preset_file, read_presets_dir, read_single_preset,
    render_preset_toml, toml_escape, validate_library, AuthoredPreset, Identity, PresetFile,
    PresetMeta, PresetValue,
};
use truce::presets::{FoundDir, FoundEntry, FoundFile};

fn number(v: f64) -> PresetValue {
    PresetValue::Number(v.to_bits())
}

fn text(value: Option<&toml::Value>) -> String {
    value.and_then(toml::Value::as_str).unwrap_or_default().to_string()
}

/// A preset file's text, parsed.
fn parse(content: &str) -> PresetFile {
    let doc: toml::Table = content.parse().unwrap();
    let mut params = Vec::new();
    if let Some(table) = doc.get("params").and_then(toml::Value::as_table) {
        for (key, value) in table {
            let value = match value {
                toml::Value::Float(f) => number(*f),
                toml::Value::Integer(i) => number(*i as f64),
                toml::Value::Boolean(b) => PresetValue::Boolean(*b),
                other => PresetValue::Other(other.to_string()),
            };
            params.push((key.clone(), value));
        }
    }
    PresetFile {
        name: text(doc.get("name")),
        uuid: text(doc.get("uuid")),
        category: doc.get("category").and_then(toml::Value::as_str).map(String::from),
        author: text(doc.get("author")),
        comment: text(doc.get("comment")),
        tags: doc
            .get("tags")
            .and_then(toml::Value::as_array)
            .map(|tags| tags.iter().map(|t| text(Some(t))).collect())
            .unwrap_or_default(),
        default: doc.get("default").and_then(toml::Value::as_bool).unwrap_or(false),
        extra: text(doc.get("extra")),
        params,
    }
}

/// The tree of a library's files: directory and stem of each.
fn tree(files: &[(Option<&str>, &str, &str)]) -> FoundDir {
    let found = |name: &str| FoundDir {
        file_name: name.as_bytes().to_vec(),
        name: Some(name.to_string()),
        entries: vec![],
    };
    let mut root = found("presets");
    for (dir, stem, _) in files {
        let file = FoundEntry::File(FoundFile {
            file_name: format!("{stem}.preset").into_bytes(),
            path: format!("{stem}.preset"),
            extension: Some("preset".to_string()),
            meta: None,
        });
        let Some(dir) = dir else {
            root.entries.push(file);
            continue;
        };
        let at = root
            .entries
            .iter()
            .position(|e| matches!(e, FoundEntry::Dir(d) if d.name.as_deref() == Some(*dir)));
        let at = at.unwrap_or_else(|| {
            root.entries.push(FoundEntry::Dir(found(dir)));
            root.entries.len() - 1
        });
        if let FoundEntry::Dir(below) = &mut root.entries[at] {
            below.entries.push(file);
        }
    }
    root
}

/// Reads a library of files: directory, stem and content of each.
fn library(files: &[(Option<&str>, &str, &str)], minted: Option<&str>) -> Result<Vec<AuthoredPreset>, String> {
    read_presets_dir(&tree(files), |path: &str| {
        let (dir, stem, content) = files.iter().find(|f| format!("{}.preset", f.1) == path).unwrap();
        read_preset_file(parse(content), path, content, stem, *dir, minted).preset
    })
}

#[test]
fn parses_and_canonicalises() {
    let content = r#"
name = "Bright Saw"
uuid = "u-1"
author = "JK"
tags = ["analog", "lead"]
default = true
extra = "aGk="

[params]
0 = 0.75
2 = 1
5 = true
"#;
    let presets = library(&[(Some("lead"), "bright-saw", content)], None).unwrap();
    assert_eq!(presets.len(), 1);
    let p = &presets[0];
    assert_eq!(p.meta.name, "Bright Saw");
    assert_eq!(p.meta.category, "lead");
    let params: Vec<(u32, f64)> = p.params.iter().map(|(id, v)| (*id, f64::from_bits(*v))).collect();
    assert_eq!(params, vec![(0, 0.75), (2, 1.0), (5, 1.0)]);
    assert_eq!(p.extra, b"hi");
    assert!(p.meta.default);
    assert_eq!(p.stem, "bright-saw");
}

#[test]
fn stamps_missing_uuid_once() {
    let content = "name = \"Init\"\n";
    assert!(library(&[(None, "init", content)], None).is_err());

    let uuid = "9a2f6c1e-3b44-4f1d-9b7a-1de0c4a51b22";
    let first = read_preset_file(parse(content), "init.preset", content, "init", None, Some(uuid));
    let rewritten = first.rewrite.unwrap();
    assert_eq!(first.preset.unwrap().meta.uuid, uuid);

    let second = read_preset_file(parse(&rewritten), "init.preset", &rewritten, "init", None, Some("other"));
    assert!(second.rewrite.is_none());
    let preset = second.preset.unwrap();
    assert_eq!(preset.meta.uuid, uuid);
    assert_eq!(preset.meta.name, "Init");
}

#[test]
fn rejects_multiple_defaults_and_duplicate_uuids() {
    let a = "name = \"A\"\nuuid = \"u\"\ndefault = true\n";
    let same = "name = \"B\"\nuuid = \"u\"\ndefault = true\n";
    let err = library(&[(None, "a", a), (None, "b", same)], None).unwrap_err();
    assert!(err.contains("duplicate preset uuid"));
    assert_eq!(err, "duplicate preset uuid \"u\" in a.preset and b.preset");

    let other = "name = \"B\"\nuuid = \"v\"\ndefault = true\n";
    let err = library(&[(None, "a", a), (None, "b", other)], None).unwrap_err();
    assert!(err.contains("default = true"));
    assert_eq!(err, "multiple presets set `default = true`: a.preset and b.preset");
}

#[test]
fn rejects_the_same_name_in_one_category() {
    let a = "name = \"A\"\nuuid = \"u\"\n";
    let b = "name = \"A\"\nuuid = \"v\"\n";
    assert!(library(&[(Some("x"), "a", a), (Some("y"), "b", b)], None).is_ok());
    let presets = library(&[(Some("x"), "a", a), (Some("y"), "b", b)], None).unwrap();
    assert!(validate_library(&presets).is_ok());
    assert_eq!(
        library(&[(Some("x"), "a", a), (Some("x"), "b", b)], None).unwrap_err(),
        "duplicate preset name \"A\" in category \"x\": a.preset and b.preset"
    );
}

#[test]
fn render_round_trips_through_parser() {
    let meta = PresetMeta {
        uuid: "u-render".into(),
        name: "Pulled \"Lead\"".into(),
        category: String::new(),
        author: "DAW".into(),
        comment: String::new(),
        tags: vec!["pulled".into()],
        default: false,
    };
    let sidecar = "[[param]]\nid = 1\nname = \"Cutoff\"\nunit = \"Hz\"\n".to_string();
    let annotations = read_param_annotations(&vec![sidecar]);
    let params = vec![(0, "1".to_string()), (1, "8200".to_string())];
    let toml = render_preset_toml(&meta, &params, b"xs", &annotations);
    assert!(toml.contains("# Cutoff (Hz)"));

    let presets = library(&[(Some("lead"), "pulled", &toml)], None).unwrap();
    let p = &presets[0];
    assert_eq!(p.meta.uuid, "u-render");
    assert_eq!(p.meta.name, "Pulled \"Lead\"");
    assert_eq!(p.meta.category, "lead");
    let params: Vec<(u32, f64)> = p.params.iter().map(|(id, v)| (*id, f64::from_bits(*v))).collect();
    assert_eq!(params, vec![(0, 1.0), (1, 8200.0)]);
    assert_eq!(p.extra, b"xs");
}

#[test]
fn rejects_bad_params() {
    let content = "name = \"A\"\nuuid = \"u\"\n[params]\ncutoff = 1.0\n";
    let err = library(&[(None, "a", content)], None).unwrap_err();
    assert!(err.contains("not a numeric param id"));
    assert_eq!(err, "a.preset: param key \"cutoff\" is not a numeric param id");
    let content = "name = \"A\"\nuuid = \"u\"\n[params]\n3 = \"loud\"\n";
    assert_eq!(
        library(&[(None, "a", content)], None).unwrap_err(),
        "a.preset: param 3 has non-numeric value \"loud\""
    );
    let content = "name = \"A\"\nuuid = \"u\"\n[params]\n4294967296 = 1\n";
    assert!(library(&[(None, "a", content)], None).is_err());
}

#[test]
fn extra_may_be_wrapped_but_must_be_base64() {
    let wrapped = "name = \"A\"\nuuid = \"u\"\nextra = \"\"\"aG\n k=\"\"\"\n";
    assert_eq!(library(&[(None, "a", wrapped)], None).unwrap()[0].extra, b"hi");
    let bad = "name = \"A\"\nuuid = \"u\"\nextra = \"?\"\n";
    let err = library(&[(None, "a", bad)], None).unwrap_err();
    assert_eq!(err, "a.preset: `extra` is not valid base64: Invalid symbol 63, offset 0.");
    assert_eq!(
        checked_extra("p", Err("odd".to_string())),
        Err("p: `extra` is not valid base64: odd".to_string())
    );
}

#[test]
fn a_single_preset_is_never_stamped() {
    let content = "name = \"A\"\n";
    assert_eq!(
        read_single_preset(parse(content), "x/a.preset", content, "a", Some("x")).unwrap_err(),
        "x/a.preset: missing `uuid` field (run `cargo truce install` once to stamp one)"
    );
    let content = "name = \"A\"\nuuid = \"u\"\n";
    let preset = read_single_preset(parse(content), "x/a.preset", content, "a", Some("x")).unwrap();
    assert_eq!(preset.meta.category, "x");
    let own = "name = \"A\"\nuuid = \"u\"\ncategory = \"Pad\"\n";
    let preset = read_single_preset(parse(own), "x/a.preset", own, "a", Some("x")).unwrap();
    assert_eq!(preset.meta.category, "Pad");
}

#[test]
fn identities_are_kept_or_stamped() {
    assert!(matches!(preset_identity("p", "u", "c", Some("n")), Identity::Own));
    assert!(matches!(
        preset_identity("p", "", "c", Some("n")),
        Identity::Stamped(t) if t == "uuid = \"n\"\nc"
    ));
    assert!(matches!(preset_identity("p", "", "c", None), Identity::Missing(_)));
}

#[test]
fn the_newest_annotation_of_a_parameter_counts() {
    let files = vec![
        "[[param]]\nid = 1\nname = \"Old\"\n[[param]]\nname = \"No id\"\n".to_string(),
        "not toml [".to_string(),
        "param = 3\n".to_string(),
        "[[param]]\nid = 1\nname = \"New\"\nunit = \"dB\"\n[[param]]\nid = -1\nname = \"Odd\"\n".to_string(),
    ];
    let rows = read_param_annotations(&files);
    assert_eq!(rows.len(), 4);
    let found = find_annotation(&rows, 1).unwrap();
    assert_eq!((found.name.as_str(), found.unit.as_str()), ("New", "dB"));
    assert!(find_annotation(&rows, 2).is_none());
}

#[test]
fn rendered_presets_leave_out_what_says_nothing() {
    let meta = PresetMeta {
        uuid: "u".into(),
        name: "N".into(),
        category: "C".into(),
        author: String::new(),
        comment: "a\\b".into(),
        tags: vec!["x".into(), "y".into()],
        default: true,
    };
    let annotations = read_param_annotations(&vec!["[[param]]\nid = 7\nname = \"Mix\"\n".to_string()]);
    assert_eq!(
        render_preset_toml(&meta, &vec![(7, "0.5".to_string())], b"", &annotations),
        "uuid = \"u\"\nname = \"N\"\ncategory = \"C\"\ncomment = \"a\\\\b\"\ntags = [\"x\", \"y\"]\ndefault = true\n\n[params]\n7 = 0.5   # Mix\n"
    );
    assert_eq!(toml_escape("\"\\"), "\\\"\\\\");
}

#[test]
fn side_cars_are_known_by_their_names() {
    assert!(truce::preset_library::is_param_sidecar("GainParams.params.toml"));
    assert!(truce::preset_library::is_param_sidecar(".params.toml"));
    assert!(!truce::preset_library::is_param_sidecar("symbols.toml"));
    assert!(!truce::preset_library::is_param_sidecar("params.toml"));
    assert!(!truce::preset_library::is_param_sidecar("x.params.toml.bak"));
}

#[test]
fn a_preset_splits_into_ids_and_values() {
    let content = "name = \"A\"\nuuid = \"u\"\n[params]\n7 = 0.5\n12 = 2\n3 = true\n";
    let preset = &library(&[(None, "a", content)], None).unwrap()[0];
    let (ids, values) = preset.state_values();
    assert_eq!(ids, preset.params.iter().map(|(id, _)| *id).collect::<Vec<u32>>());
    assert_eq!(values.len(), 3);
    for (id, value) in [(7, 0.5f64), (12, 2.0), (3, 1.0)] {
        let at = ids.iter().position(|i| *i == id).unwrap();
        assert_eq!(values[at], value.to_bits());
    }
}

#[test]
fn a_library_is_read_in_path_order_up_to_a_failure() {
    let good = |n: &str| format!("name = \"{n}\"\nuuid = \"u-{n}\"\n");
    let (a, b, c, d) = (good("a"), good("b"), good("c"), good("d"));
    let files = [
        (Some("pad"), "d", d.as_str()),
        (None, "q", c.as_str()),
        (Some("lead"), "z", b.as_str()),
        (None, "a", a.as_str()),
    ];
    let stems: Vec<String> = library(&files, None).unwrap().into_iter().map(|p| p.stem).collect();
    assert_eq!(stems, ["a", "z", "d", "q"]);

    let read = std::cell::RefCell::new(Vec::new());
    let result = read_presets_dir(&tree(&files), |path: &str| {
        read.borrow_mut().push(path.to_string());
        if path == "z.preset" {
            return Err("z.preset: broken".to_string());
        }
        read_preset_file(parse(&a), path, &a, "s", None, None).preset
    });
    assert_eq!(result.unwrap_err(), "z.preset: broken");
    assert_eq!(read.into_inner(), ["a.preset", "z.preset"]);
    assert!(library_of(vec![]).unwrap().is_empty());
}

#[test]
fn white_space_is_that_of_unicode() {
    let listed = |c: char| {
        matches!(
            c as u32,
            0x09..=0x0d | 0x20 | 0x85 | 0xa0 | 0x1680 | 0x2000..=0x200a | 0x2028 | 0x2029 | 0x202f | 0x205f | 0x3000
        )
    };
    for c in '\0'..=char::MAX {
        assert_eq!(c.is_whitespace(), listed(c), "{c:?}");
        let skipped = read_extra("p", &format!("aG{c}k=")) == Ok(b"hi".to_vec());
        assert_eq!(skipped, listed(c), "{c:?}");
    }
}
