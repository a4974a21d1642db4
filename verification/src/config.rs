//! Build configuration: what `truce.toml` says, and where a build puts its
//! output.
use crate::encoding::{escaped, lemma_escaped_front};
use crate::text::{str_eq, to_chars};
use vstd::prelude::*;
use vstd::string::*;

verus! {

/// The whole of a configuration file.
#[derive(Debug)]
pub struct Config {
    pub vendor: VendorConfig,
    pub plugin: Vec<PluginDef>,
    pub automation: AutomationConfig,
}

/// How automation splits blocks.
#[derive(Debug, Clone, Copy)]
pub struct AutomationConfig {
    pub min_subblock_samples: u32,
}

impl Default for AutomationConfig {
    fn default() -> (r: Self)
        ensures
            r.min_subblock_samples == 32,
    {
        AutomationConfig { min_subblock_samples: 32 }
    }
}

#[derive(Debug)]
pub struct VendorConfig {
    pub name: String,
    pub id: String,
    pub url: String,
    pub au_manufacturer: String,
}

/// One plugin of a configuration file.
#[derive(Debug)]
pub struct PluginDef {
    pub name: String,
    pub bundle_id: String,
    pub crate_name: String,
    pub version: Option<String>,
    pub description: Option<String>,
    pub fourcc: Option<String>,
    pub category: String,
    pub au_type: Option<String>,
    pub au_subtype: Option<String>,
    pub aax_category: Option<String>,
    pub vst3_subcategory: Option<String>,
    pub vst3_name: Option<String>,
    pub clap_name: Option<String>,
    pub vst2_name: Option<String>,
    pub au_name: Option<String>,
    pub au3_name: Option<String>,
    pub aax_name: Option<String>,
    pub lv2_name: Option<String>,
    pub mute_preview_output: bool,
    pub midi_input: Option<bool>,
    pub midi_output: Option<bool>,
    pub presets: Option<PresetsConfig>,
}

/// Where a plugin's presets are.
#[derive(Debug)]
pub struct PresetsConfig {
    pub factory_dir: String,
    pub user_dir: Option<String>,
}

/// The presets directory of a configuration that names none.
pub fn default_presets_dir() -> (r: String)
    ensures
        r@ == "presets"@,
{
    "presets".to_owned()
}

/// What lower-casing makes of a text.
pub uninterp spec fn lowercased(s: Seq<char>) -> Seq<char>;

/// The lower-case letter of an ASCII letter; any other character as it is.
pub open spec fn ascii_lower(c: char) -> char {
    if 'A' <= c <= 'Z' {
        ((c as u32 + 32) as u32) as char
    } else {
        c
    }
}

/// `str::to_lowercase`: the text in lower case, by the rules of Unicode. An ASCII
/// text has its ASCII letters in lower case and nothing else changed.
#[verifier::external_body]
fn to_lowercase(s: &str) -> (r: String)
    ensures
        r@ == lowercased(s@),
        s.is_ascii() ==> r@ == s@.map_values(|c: char| ascii_lower(c)),
{
    s.to_lowercase()
}

/// A text without its spaces.
pub open spec fn without_spaces(s: Seq<char>) -> Seq<char> {
    s.filter(|c: char| c != ' ')
}

/// The identifier of a plugin whose lower-cased name is given: the vendor's, a
/// dot, and the name without spaces.
pub fn plugin_id_from(vendor_id: &str, lowered_name: &str) -> (r: String)
    ensures
        r@ == vendor_id@ + seq!['.'] + without_spaces(lowered_name@),
{
    let chars: Vec<char> = to_chars(lowered_name);
    let mut r: String = vendor_id.to_owned();
    r.push('.');
    let ghost start = vendor_id@.push('.');
    let ghost keep = |c: char| c != ' ';
    let mut i: usize = 0;
    proof {
        reveal(Seq::filter);
        assert(start + chars@.take(0).filter(keep) =~= start);
    }
    while i < chars.len()
        invariant
            i <= chars@.len(),
            keep == (|c: char| c != ' '),
            r@ == start + chars@.take(i as int).filter(keep),
        decreases chars@.len() - i,
    {
        proof {
            reveal(Seq::filter);
            assert(chars@.take(i + 1).drop_last() =~= chars@.take(i as int));
        }
        if chars[i] != ' ' {
            r.push(chars[i]);
            proof {
                assert(r@ =~= start + chars@.take(i + 1).filter(keep));
            }
        }
        i = i + 1;
    }
    proof {
        assert(chars@.take(i as int) =~= chars@);
        assert(start =~= vendor_id@ + seq!['.']);
    }
    r
}

/// The identifier of a plugin: the vendor's, a dot, and the plugin's name in
/// lower case without spaces.
#[must_use]
pub fn plugin_id(vendor_id: &str, plugin_name: &str) -> (r: String)
    ensures
        r@ == vendor_id@ + seq!['.'] + without_spaces(lowercased(plugin_name@)),
        plugin_name.is_ascii() ==> r@ == vendor_id@ + seq!['.'] + without_spaces(
            plugin_name@.map_values(|c: char| ascii_lower(c)),
        ),
{
    plugin_id_from(vendor_id, to_lowercase(plugin_name).as_str())
}

/// Whether a category is that of a note effect.
pub open spec fn is_note_effect(category: Seq<char>) -> bool {
    category == "midi"@ || category == "note_effect"@
}

/// Whether a plugin takes MIDI in and sends MIDI out: as the configuration says,
/// else instruments and note effects take it, and note effects send it.
#[must_use]
pub fn midi_capabilities(
    category: &str,
    midi_input: Option<bool>,
    midi_output: Option<bool>,
) -> (r: (bool, bool))
    ensures
        r.0 == hears_notes(category@, midi_input),
        r.1 == plays_notes(category@, midi_output),
{
    let note_effect: bool = str_eq(category, "midi") || str_eq(category, "note_effect");
    let instrument: bool = str_eq(category, "instrument");
    (
        match midi_input {
            Some(on) => on,
            None => instrument || note_effect,
        },
        match midi_output {
            Some(on) => on,
            None => note_effect,
        },
    )
}

/// `needle` stands in `hay` at index `i`.
pub open spec fn stands_at(hay: Seq<char>, needle: Seq<char>, i: int) -> bool {
    0 <= i && i + needle.len() <= hay.len() && hay.subrange(i, i + needle.len()) == needle
}

/// The first place from index `i` on where `needle` stands in `hay`.
pub open spec fn first_place(hay: Seq<char>, needle: Seq<char>, i: int) -> Option<int>
    decreases hay.len() - i + 1,
{
    if i < 0 || i + needle.len() > hay.len() {
        None
    } else if stands_at(hay, needle, i) {
        Some(i)
    } else {
        first_place(hay, needle, i + 1)
    }
}

fn is_at(hay: &Vec<char>, needle: &Vec<char>, i: usize) -> (r: bool)
    requires
        i + needle@.len() <= hay@.len(),
    ensures
        r == stands_at(hay@, needle@, i as int),
{
    let len: usize = hay.len();
    let mut k: usize = 0;
    while k < needle.len()
        invariant
            k <= needle@.len(),
            len == hay@.len(),
            i + needle@.len() <= hay@.len(),
            forall|j: int| 0 <= j < k ==> hay@[i + j] == needle@[j],
        decreases needle@.len() - k,
    {
        if hay[i + k] != needle[k] {
            proof {
                assert(hay@.subrange(i as int, i + needle@.len())[k as int] != needle@[k as int]);
            }
            return false;
        }
        k = k + 1;
    }
    proof {
        assert(hay@.subrange(i as int, i + needle@.len()) =~= needle@);
    }
    true
}

/// Finds the first place of `needle` in `hay`.
pub fn find_text(hay: &Vec<char>, needle: &Vec<char>) -> (r: Option<usize>)
    ensures
        match r {
            Some(i) => first_place(hay@, needle@, 0) == Some(i as int) && i + needle@.len()
                <= hay@.len(),
            None => first_place(hay@, needle@, 0) is None,
        },
{
    if needle.len() > hay.len() {
        return None;
    }
    let last: usize = hay.len() - needle.len();
    let mut i: usize = 0;
    while i <= last
        invariant
            i <= last + 1,
            last + needle@.len() == hay@.len(),
            first_place(hay@, needle@, i as int) == first_place(hay@, needle@, 0),
        decreases last + 1 - i,
    {
        if is_at(hay, needle, i) {
            return Some(i);
        }
        if i == last {
            proof {
                assert(first_place(hay@, needle@, i + 1) is None);
            }
            return None;
        }
        i = i + 1;
    }
    None
}

/// The character that an escape in a JSON string stands for, as far as paths use
/// escapes: a line feed, a tab, or the escaped character itself.
pub open spec fn unescaped(c: char) -> char {
    if c == 'n' {
        '\n'
    } else if c == 't' {
        '\t'
    } else {
        c
    }
}

/// The text of a JSON string whose characters start at `at`, up to its closing
/// quote; nothing where there is none.
pub open spec fn string_text(json: Seq<char>, at: int) -> Option<Seq<char>>
    decreases json.len() - at,
{
    if at < 0 || at >= json.len() {
        None
    } else if json[at] == '"' {
        Some(Seq::empty())
    } else if json[at] == '\\' {
        if at + 1 >= json.len() {
            None
        } else {
            match string_text(json, at + 2) {
                Some(rest) => Some(seq![unescaped(json[at + 1])] + rest),
                None => None,
            }
        }
    } else {
        match string_text(json, at + 1) {
            Some(rest) => Some(seq![json[at]] + rest),
            None => None,
        }
    }
}

/// The opening of a string field: its quoted name, a colon and a quote.
pub open spec fn field_opening(field: Seq<char>) -> Seq<char> {
    seq!['"'] + field + seq!['"', ':', '"']
}

/// The value of the first string field with this name.
pub open spec fn json_string(json: Seq<char>, field: Seq<char>) -> Option<Seq<char>> {
    match first_place(json, field_opening(field), 0) {
        Some(i) => string_text(json, i + field_opening(field).len()),
        None => None,
    }
}

/// Reads a string field out of JSON text.
pub fn extract_json_string(json: &str, field: &str) -> (r: Option<String>)
    ensures
        match r {
            Some(text) => json_string(json@, field@) == Some(text@),
            None => json_string(json@, field@) is None,
        },
{
    let hay: Vec<char> = to_chars(json);
    let mut opening: String = String::new();
    opening.push('"');
    opening.append(field);
    opening.append("\":\"");
    proof {
        reveal_strlit("\":\"");
        assert(opening@ =~= field_opening(field@));
    }
    let needle: Vec<char> = to_chars(opening.as_str());
    let len: usize = hay.len();
    let start: usize = match find_text(&hay, &needle) {
        Some(i) => {
            assert(i + needle@.len() <= len);
            i + needle.len()
        },
        None => {
            return None;
        },
    };
    let mut out: String = String::new();
    let mut at: usize = start;
    proof {
        assert(forall|rest: Seq<char>| #[trigger] (out@ + rest) =~= rest);
    }
    while at < hay.len()
        invariant
            start <= at <= hay@.len(),
            match string_text(hay@, at as int) {
                Some(rest) => string_text(hay@, start as int) == Some(out@ + rest),
                None => string_text(hay@, start as int) is None,
            },
            hay@ == json@,
            first_place(json@, field_opening(field@), 0) == Some(
                start - field_opening(field@).len(),
            ),
        decreases hay@.len() - at,
    {
        let c: char = hay[at];
        let ghost before = out@;
        if c == '"' {
            proof {
                assert(out@ + Seq::<char>::empty() =~= out@);
            }
            return Some(out);
        }
        if c == '\\' {
            if at + 1 >= hay.len() {
                return None;
            }
            let escaped: char = hay[at + 1];
            out.push(
                if escaped == 'n' {
                    '\n'
                } else if escaped == 't' {
                    '\t'
                } else {
                    escaped
                },
            );
            proof {
                if let Some(rest) = string_text(hay@, at + 2) {
                    assert(before + (seq![unescaped(escaped)] + rest) =~= out@ + rest);
                }
            }
            at = at + 2;
        } else {
            out.push(c);
            proof {
                if let Some(rest) = string_text(hay@, at + 1) {
                    assert(before + (seq![c] + rest) =~= out@ + rest);
                }
            }
            at = at + 1;
        }
    }
    None
}

/// The string that a TOML text holds under a key of a table.
pub uninterp spec fn toml_string(text: Seq<char>, table: Seq<char>, key: Seq<char>) -> Option<
    Seq<char>,
>;

/// `toml::Table`'s `FromStr`: the string that the text, parsed as a TOML document,
/// holds under `key` of `table`; nothing where the text does not parse, or holds
/// no string there.
#[verifier::external_body]
fn toml_string_at(text: &str, table: &str, key: &str) -> (r: Option<String>)
    ensures
        match r {
            Some(s) => toml_string(text@, table@, key@) == Some(s@),
            None => toml_string(text@, table@, key@) is None,
        },
{
    let document: toml::Table = text.parse().ok()?;
    let value = document.get(table)?.get(key)?.as_str()?;
    Some(value.to_string())
}

/// The output directory that a text names, where it names one.
pub open spec fn named_dir(dir: Option<Seq<char>>) -> Option<Seq<char>> {
    match dir {
        Some(d) => if d.len() > 0 {
            Some(d)
        } else {
            None
        },
        None => None,
    }
}

/// Drops an output directory that is named by the empty text.
pub fn non_empty_dir(dir: Option<String>) -> (r: Option<String>)
    ensures
        match (r, dir) {
            (Some(out), Some(d)) => out == d && d@.len() > 0,
            (None, Some(d)) => d@.len() == 0,
            (None, None) => true,
            (Some(_), None) => false,
        },
{
    match dir {
        Some(d) => if d.as_str().is_empty() {
            None
        } else {
            Some(d)
        },
        None => None,
    }
}

/// The output directory that a cargo configuration names: `target-dir` under
/// `build`, unless it is empty.
pub fn read_cargo_config_target_dir(contents: &str) -> (r: Option<String>)
    ensures
        match r {
            Some(d) => named_dir(toml_string(contents@, "build"@, "target-dir"@)) == Some(d@),
            None => named_dir(toml_string(contents@, "build"@, "target-dir"@)) is None,
        },
{
    non_empty_dir(toml_string_at(contents, "build", "target-dir"))
}

/// An output directory: as it is, or below the workspace root.
#[derive(Debug)]
pub enum TargetDir {
    AsIs(String),
    UnderRoot(String),
}

/// A directory that somebody named, and whether its path is absolute.
#[derive(Debug)]
pub struct NamedDir {
    pub path: String,
    pub absolute: bool,
}

/// Where a build puts its output: where cargo says, else where the environment
/// names a directory, else where the configuration does, else in `target`. A
/// relative path counts from the root.
pub fn target_dir(
    from_metadata: Option<String>,
    from_env: Option<NamedDir>,
    from_config: Option<NamedDir>,
) -> (r: TargetDir)
    ensures
        is_target_dir(from_metadata, from_env, from_config, r),
{
    if let Some(dir) = from_metadata {
        return TargetDir::AsIs(dir);
    }
    if let Some(named) = from_env {
        if !named.path.as_str().is_empty() {
            return if named.absolute {
                TargetDir::AsIs(named.path)
            } else {
                TargetDir::UnderRoot(named.path)
            };
        }
    }
    if let Some(named) = from_config {
        return if named.absolute {
            TargetDir::AsIs(named.path)
        } else {
            TargetDir::UnderRoot(named.path)
        };
    }
    TargetDir::UnderRoot("target".to_owned())
}

/// A place where a configuration file may be, and whether it is there.
#[derive(Debug)]
pub struct Candidate {
    pub path: String,
    pub exists: bool,
}

/// The first candidate that exists.
pub open spec fn first_existing(candidates: Seq<Candidate>) -> Option<Seq<char>>
    decreases candidates.len(),
{
    if candidates.len() == 0 {
        None
    } else if candidates[0].exists {
        Some(candidates[0].path@)
    } else {
        first_existing(candidates.skip(1))
    }
}

/// Why no configuration file was found.
pub open spec fn not_found_text(manifest_dir: Seq<char>) -> Seq<char> {
    "truce.toml not found in any ancestor of "@ + manifest_dir
        + ". Copy truce.toml.example to your workspace root to get started."@
}

/// Finds the configuration file: the first that exists, from the crate's own
/// directory up to the root.
pub fn find_truce_toml(manifest_dir: Option<&str>, candidates: &Vec<Candidate>) -> (r: Result<
    String,
    String,
>)
    ensures
        match manifest_dir {
            None => r matches Err(e) && e@ == "CARGO_MANIFEST_DIR not set"@,
            Some(dir) => match first_existing(candidates@) {
                Some(path) => r matches Ok(found) && found@ == path,
                None => r matches Err(e) && e@ == not_found_text(dir@),
            },
        },
{
    let dir: &str = match manifest_dir {
        None => {
            return Err("CARGO_MANIFEST_DIR not set".to_owned());
        },
        Some(dir) => dir,
    };
    let mut i: usize = 0;
    proof {
        assert(candidates@.skip(0) =~= candidates@);
    }
    while i < candidates.len()
        invariant
            i <= candidates@.len(),
            manifest_dir is Some,
            first_existing(candidates@.skip(i as int)) == first_existing(candidates@),
        decreases candidates@.len() - i,
    {
        proof {
            assert(candidates@.skip(i as int).skip(1) =~= candidates@.skip(i + 1));
        }
        if candidates[i].exists {
            return Ok(candidates[i].path.clone());
        }
        i = i + 1;
    }
    let mut message: String = "truce.toml not found in any ancestor of ".to_owned();
    message.append(dir);
    message.append(". Copy truce.toml.example to your workspace root to get started.");
    Err(message)
}

/// Why a configuration file could not be loaded.
#[derive(Debug)]
pub enum LoadFailure {
    Unreadable(String),
    Unparsed(String),
}

/// Says in words why the file at a path could not be loaded.
pub fn load_config_error(path: &str, failure: &LoadFailure) -> (r: String)
    ensures
        r@ == match failure {
            LoadFailure::Unreadable(e) => "Failed to read "@ + path@ + ": "@ + e@,
            LoadFailure::Unparsed(e) => "Failed to parse "@ + path@ + ": "@ + e@,
        },
{
    match failure {
        LoadFailure::Unreadable(e) => {
            let mut r: String = "Failed to read ".to_owned();
            r.append(path);
            r.append(": ");
            r.append(e.as_str());
            r
        },
        LoadFailure::Unparsed(e) => {
            let mut r: String = "Failed to parse ".to_owned();
            r.append(path);
            r.append(": ");
            r.append(e.as_str());
            r
        },
    }
}

/// The first place of a text in another is a place of it, and there is none before it; there
/// is none at all exactly where the text does not stand anywhere.
pub proof fn law_first_place_is_the_first(hay: Seq<char>, needle: Seq<char>, i: int)
    requires
        i >= 0,
    ensures
        match first_place(hay, needle, i) {
            Some(at) => {
                &&& i <= at && at + needle.len() <= hay.len()
                &&& hay.subrange(at, at + needle.len()) == needle
                &&& forall|k: int|
                    i <= k < at ==> #[trigger] hay.subrange(k, k + needle.len()) != needle
            },
            None => forall|k: int|
                i <= k && k + needle.len() <= hay.len() ==> #[trigger] hay.subrange(
                    k,
                    k + needle.len(),
                ) != needle,
        },
    decreases hay.len() - i + 1,
{
    if i + needle.len() <= hay.len() && !stands_at(hay, needle, i) {
        law_first_place_is_the_first(hay, needle, i + 1);
    }
}

/// An escape stands for a line feed or a tab, or for the character itself.
pub proof fn law_escapes_in_strings(c: char)
    ensures
        unescaped('n') == '\n',
        unescaped('t') == '\t',
        c != 'n' && c != 't' ==> unescaped(c) == c,
{
}

/// A string that was written into JSON under a field's name, with its quotes and
/// backslashes escaped, is read back as it was.
pub proof fn law_json_strings_read_back(field: Seq<char>, value: Seq<char>, rest: Seq<char>)
    ensures
        json_string(
            seq!['"'] + field + seq!['"', ':', '"'] + escaped(value) + seq!['"'] + rest,
            field,
        ) == Some(value),
{
    let opening = seq!['"'] + field + seq!['"', ':', '"'];
    let json = opening + escaped(value) + seq!['"'] + rest;
    assert(json.subrange(0, opening.len() as int) =~= opening);
    assert(stands_at(json, field_opening(field), 0));
    assert(json.skip(opening.len() as int) =~= escaped(value) + seq!['"'] + rest);
    lemma_string_reads_back(json, opening.len() as int, value, rest);
}

proof fn lemma_string_reads_back(json: Seq<char>, at: int, value: Seq<char>, rest: Seq<char>)
    requires
        0 <= at <= json.len(),
        json.skip(at) == escaped(value) + seq!['"'] + rest,
    ensures
        string_text(json, at) == Some(value),
    decreases value.len(),
{
    let tail = json.skip(at);
    assert(tail.len() > 0 && tail[0] == json[at]);
    if value.len() == 0 {
        assert(tail[0] == '"');
        assert(value =~= Seq::empty());
    } else {
        lemma_escaped_front(value);
        let c = value[0];
        let behind = value.skip(1);
        if c == '\\' || c == '"' {
            assert(tail[0] == '\\' && tail[1] == c);
            assert(json[at + 1] == tail[1]);
            assert(json.skip(at + 2) =~= escaped(behind) + seq!['"'] + rest) by {
                assert(json.skip(at + 2) =~= tail.skip(2));
            }
            lemma_string_reads_back(json, at + 2, behind, rest);
        } else {
            assert(tail[0] == c);
            assert(json.skip(at + 1) =~= escaped(behind) + seq!['"'] + rest) by {
                assert(json.skip(at + 1) =~= tail.skip(1));
            }
            lemma_string_reads_back(json, at + 1, behind, rest);
        }
        assert(seq![c] + behind =~= value);
    }
}

/// The configuration file is the first candidate that is there; none where none is.
pub proof fn law_first_candidate_that_exists(candidates: Seq<Candidate>, i: int)
    requires
        0 <= i <= candidates.len(),
        forall|k: int| 0 <= k < i ==> !(#[trigger] candidates[k]).exists,
    ensures
        i < candidates.len() && candidates[i].exists ==> first_existing(candidates) == Some(
            candidates[i].path@,
        ),
        i == candidates.len() ==> first_existing(candidates) is None,
    decreases candidates.len(),
{
    if i > 0 {
        let rest = candidates.skip(1);
        assert(!candidates[0].exists);
        assert forall|k: int| 0 <= k < i - 1 implies !(#[trigger] rest[k]).exists by {
            assert(rest[k] == candidates[k + 1]);
        }
        law_first_candidate_that_exists(rest, i - 1);
        if i < candidates.len() {
            assert(rest[i - 1] == candidates[i]);
        }
    }
}

/// A name without its spaces has all its other characters, in their order, and no space;
/// lower-casing moves the letters from A to Z, and nothing else.
pub proof fn law_names_lose_their_spaces(name: Seq<char>, c: char)
    ensures
        without_spaces(Seq::empty()).len() == 0,
        without_spaces(name.push(' ')) == without_spaces(name),
        c != ' ' ==> without_spaces(name.push(c)) == without_spaces(name).push(c),
        'A' <= c <= 'Z' ==> ascii_lower(c) as u32 == c as u32 + 32,
        !('A' <= c <= 'Z') ==> ascii_lower(c) == c,
{
    reveal(Seq::filter);
    assert(name.push(c).drop_last() =~= name);
    assert(name.push(' ').drop_last() =~= name);
    if 'A' <= c <= 'Z' {
        let n = c as u32;
        assert(65 <= n <= 90);
    }
}

/// Note effects are those of the two categories that stand for them; a directory counts as
/// named where its name is not empty.
pub proof fn law_note_effects_and_named_directories(category: Seq<char>, dir: Seq<char>)
    ensures
        is_note_effect(category) <==> category == "midi"@ || category == "note_effect"@,
        dir.len() > 0 ==> named_dir(Some(dir)) == Some(dir),
        dir.len() == 0 ==> named_dir(Some(dir)) is None,
        named_dir(None) is None,
        not_found_text(dir) == "truce.toml not found in any ancestor of "@ + dir
            + ". Copy truce.toml.example to your workspace root to get started."@,
{
}

/// Whether a plugin gets notes: as it says, else by its category.
pub open spec fn hears_notes(category: Seq<char>, midi_input: Option<bool>) -> bool {
    match midi_input {
        Some(on) => on,
        None => category == "instrument"@ || is_note_effect(category),
    }
}

/// Whether a plugin puts notes out: as it says, else by its category.
pub open spec fn plays_notes(category: Seq<char>, midi_output: Option<bool>) -> bool {
    match midi_output {
        Some(on) => on,
        None => is_note_effect(category),
    }
}

/// `r` is where a build puts its output.
pub open spec fn is_target_dir(
    from_metadata: Option<String>,
    from_env: Option<NamedDir>,
    from_config: Option<NamedDir>,
    r: TargetDir,
) -> bool {
    match from_metadata {
        Some(dir) => r == TargetDir::AsIs(dir),
        None => match from_env {
            Some(named) if named.path@.len() > 0 => r == if named.absolute {
                TargetDir::AsIs(named.path)
            } else {
                TargetDir::UnderRoot(named.path)
            },
            _ => match from_config {
                Some(named) => r == if named.absolute {
                    TargetDir::AsIs(named.path)
                } else {
                    TargetDir::UnderRoot(named.path)
                },
                None => r matches TargetDir::UnderRoot(dir) && dir@ == "target"@,
            },
        },
    }
}

/// What a plugin says of its notes holds, both ways, whatever its category. Where it says
/// nothing, an instrument only hears them and a note effect does both; one that plays
/// them hears them.
pub proof fn law_notes_go_by_word_then_category(category: Seq<char>, on: bool)
    ensures
        hears_notes(category, Some(on)) == on,
        plays_notes(category, Some(on)) == on,
        hears_notes("instrument"@, None) && !plays_notes("instrument"@, None),
        plays_notes(category, None) <==> category == "midi"@ || category == "note_effect"@,
        plays_notes(category, None) ==> hears_notes(category, None),
        hears_notes(category, None) && !plays_notes(category, None) ==> category
            == "instrument"@,
{
    reveal_strlit("instrument");
    reveal_strlit("midi");
    reveal_strlit("note_effect");
    assert("instrument"@.len() == 10 && "midi"@.len() == 4 && "note_effect"@.len() == 11);
}

/// What cargo says comes before what the environment names, and that before what the
/// configuration names; an empty name counts as none. A directory counts from the root
/// exactly where its path is relative.
pub proof fn law_target_directories_by_rank(
    dir: String,
    env: NamedDir,
    config: NamedDir,
    other: Option<NamedDir>,
    others: Option<NamedDir>,
    r: TargetDir,
)
    ensures
        is_target_dir(Some(dir), other, others, r) ==> r == TargetDir::AsIs(dir),
        is_target_dir(None, Some(env), others, r) && env.path@.len() > 0 ==> match r {
            TargetDir::AsIs(d) => env.absolute && d == env.path,
            TargetDir::UnderRoot(d) => !env.absolute && d == env.path,
        },
        is_target_dir(None, Some(env), others, r) && env.path@.len() == 0 ==> is_target_dir(
            None,
            None,
            others,
            r,
        ),
        is_target_dir(None, None, Some(config), r) ==> match r {
            TargetDir::AsIs(d) => config.absolute && d == config.path,
            TargetDir::UnderRoot(d) => !config.absolute && d == config.path,
        },
        is_target_dir(None, None, None, r) ==> (r matches TargetDir::UnderRoot(d) && d@
            == "target"@),
{
}

} // verus!
