//! The authored preset library of a plugin: what a `.preset` file says, whether a
//! library holds together, and how a preset is written out again.
//!
//! Parameter values are the bit patterns of IEEE doubles; where one is written
//! out, its text is given.
use crate::encoding::{
    base64_decode, base64_decoded, base64_encode, base64_text, encodable, escape_quoted, escaped,
};
use crate::lv2::views;
use crate::presets::{collect_preset_files, files_below, paths_of, FoundDir};
use crate::text::{
    decimal, is_white, is_whitespace, joined, law_written_numbers_read_back, parse_u32, parsed_u32,
    push_decimal, str_eq, to_chars,
};
use vstd::prelude::*;
use vstd::string::*;

verus! {

/// Bit pattern of the double `1.0`.
pub const ONE_BITS: u64 = 0x3FF0_0000_0000_0000;

/// What a preset says of itself.
#[derive(Debug)]
pub struct PresetMeta {
    pub uuid: String,
    pub name: String,
    pub category: String,
    pub author: String,
    pub comment: String,
    pub tags: Vec<String>,
    pub default: bool,
}

/// A value in the parameter table of a preset file.
#[derive(Debug)]
pub enum PresetValue {
    /// A number, as a double.
    Number(u64),
    Boolean(bool),
    /// Anything else, written out.
    Other(String),
}

/// A preset file as it was parsed. Parameters stand in file order.
#[derive(Debug)]
pub struct PresetFile {
    pub name: String,
    pub uuid: String,
    pub category: Option<String>,
    pub author: String,
    pub comment: String,
    pub tags: Vec<String>,
    pub default: bool,
    pub extra: String,
    pub params: Vec<(String, PresetValue)>,
}

/// The extension of an authored preset file.
pub const AUTHORED_PRESET_EXT: &'static str = "preset";

/// A preset of a library.
#[derive(Debug)]
pub struct AuthoredPreset {
    pub meta: PresetMeta,
    pub params: Vec<(u32, u64)>,
    pub extra: Vec<u8>,
    pub stem: String,
    pub path: String,
}

impl AuthoredPreset {
    /// The ids of the parameters and beside them their values, in the order of the
    /// preset's file: with its own data, what a saved state is made of.
    #[must_use]
    pub fn state_values(&self) -> (r: (Vec<u32>, Vec<u64>))
        ensures
            r.0@ == self.params@.map_values(|p: (u32, u64)| p.0),
            r.1@ == self.params@.map_values(|p: (u32, u64)| p.1),
    {
        let mut ids: Vec<u32> = Vec::with_capacity(self.params.len());
        let mut values: Vec<u64> = Vec::with_capacity(self.params.len());
        let ghost all_ids = self.params@.map_values(|p: (u32, u64)| p.0);
        let ghost all_values = self.params@.map_values(|p: (u32, u64)| p.1);
        let mut i: usize = 0;
        while i < self.params.len()
            invariant
                i <= self.params@.len(),
                all_ids == self.params@.map_values(|p: (u32, u64)| p.0),
                all_values == self.params@.map_values(|p: (u32, u64)| p.1),
                ids@ == all_ids.take(i as int),
                values@ == all_values.take(i as int),
            decreases self.params@.len() - i,
        {
            ids.push(self.params[i].0);
            values.push(self.params[i].1);
            proof {
                assert(ids@ =~= all_ids.take(i + 1));
                assert(values@ =~= all_values.take(i + 1));
            }
            i = i + 1;
        }
        proof {
            assert(all_ids.take(i as int) =~= all_ids);
            assert(all_values.take(i as int) =~= all_values);
        }
        (ids, values)
    }
}

/// A text without its white space.
pub open spec fn compact(s: Seq<char>) -> Seq<char> {
    s.filter(|c: char| !is_white(c))
}

fn without_white_space(s: &str) -> (r: String)
    ensures
        r@ == compact(s@),
{
    let chars: Vec<char> = to_chars(s);
    let mut r: String = String::new();
    let ghost keep = |c: char| !is_white(c);
    let mut i: usize = 0;
    proof {
        reveal(Seq::filter);
        assert(chars@.take(0).filter(keep) =~= Seq::empty());
    }
    while i < chars.len()
        invariant
            i <= chars@.len(),
            keep == (|c: char| !is_white(c)),
            r@ == chars@.take(i as int).filter(keep),
        decreases chars@.len() - i,
    {
        proof {
            reveal(Seq::filter);
            assert(chars@.take(i + 1).drop_last() =~= chars@.take(i as int));
        }
        if !is_whitespace(chars[i]) {
            r.push(chars[i]);
        }
        i = i + 1;
    }
    proof {
        assert(chars@.take(i as int) =~= chars@);
    }
    r
}

/// The identity of a preset file: its own, a new one that is stamped into it, or
/// an error where it has none and none may be stamped.
#[derive(Debug)]
pub enum Identity {
    Own,
    /// The file's new contents.
    Stamped(String),
    Missing(String),
}

/// Decides on the identity of a file that says `uuid`; `minted` is a new one, where
/// one may be stamped. A stamped file has it in front of what it held.
pub fn preset_identity(path: &str, uuid: &str, content: &str, minted: Option<&str>) -> (r: Identity)
    ensures
        if uuid@.len() > 0 {
            r == Identity::Own
        } else {
            match minted {
                Some(new) => r matches Identity::Stamped(text) && text@ == "uuid = \""@ + new@
                    + "\"\n"@ + content@,
                None => r matches Identity::Missing(e) && e@ == path@
                    + ": missing `uuid` field (run `cargo truce install` once to stamp one)"@,
            }
        },
{
    if !uuid.is_empty() {
        return Identity::Own;
    }
    match minted {
        Some(new) => {
            let mut text: String = "uuid = \"".to_owned();
            text.append(new);
            text.append("\"\n");
            text.append(content);
            Identity::Stamped(text)
        },
        None => {
            let mut e: String = path.to_owned();
            e.append(": missing `uuid` field (run `cargo truce install` once to stamp one)");
            Identity::Missing(e)
        },
    }
}

/// A plain value of a parameter: a number as it is, a truth value as one or zero.
pub open spec fn plain_value(value: PresetValue) -> Option<u64> {
    match value {
        PresetValue::Number(bits) => Some(bits),
        PresetValue::Boolean(b) => Some(
            if b {
                ONE_BITS
            } else {
                0
            },
        ),
        PresetValue::Other(_) => None,
    }
}

/// The first thing that is wrong with the first `n` parameters, in words.
pub open spec fn params_error(path: Seq<char>, params: Seq<(String, PresetValue)>, n: int) -> Option<
    Seq<char>,
>
    decreases n,
{
    if n <= 0 {
        None
    } else {
        match params_error(path, params, n - 1) {
            Some(e) => Some(e),
            None => {
                let (key, value) = params[n - 1];
                if parsed_u32(key@) is None {
                    Some(path + ": param key \""@ + key@ + "\" is not a numeric param id"@)
                } else {
                    match value {
                        PresetValue::Other(text) => Some(
                            path + ": param "@ + key@ + " has non-numeric value "@ + text@,
                        ),
                        _ => None,
                    }
                }
            },
        }
    }
}

/// The parameters of a table in which nothing is wrong.
pub open spec fn params_read(params: Seq<(String, PresetValue)>) -> Seq<(u32, u64)> {
    params.map_values(
        |p: (String, PresetValue)| (parsed_u32(p.0@)->0, plain_value(p.1)->0),
    )
}

proof fn lemma_error_stays(
    path: Seq<char>,
    params: Seq<(String, PresetValue)>,
    m: int,
    n: int,
)
    requires
        m <= n,
        params_error(path, params, m) is Some,
    ensures
        params_error(path, params, n) == params_error(path, params, m),
    decreases n,
{
    if m < n && n > 0 {
        lemma_error_stays(path, params, m, n - 1);
    }
}

/// Reads the parameter table of a preset file.
pub fn read_params(path: &str, params: &Vec<(String, PresetValue)>) -> (r: Result<
    Vec<(u32, u64)>,
    String,
>)
    ensures
        match params_error(path@, params@, params@.len() as int) {
            Some(text) => r matches Err(e) && e@ == text,
            None => r matches Ok(out) && out@ == params_read(params@),
        },
{
    let mut out: Vec<(u32, u64)> = Vec::new();
    let ghost all = params_read(params@);
    let mut i: usize = 0;
    proof {
        assert(all.take(0) =~= Seq::empty());
    }
    while i < params.len()
        invariant
            i <= params@.len(),
            all == params_read(params@),
            params_error(path@, params@, i as int) is None,
            out@ == all.take(i as int),
        decreases params@.len() - i,
    {
        let key: &String = &params[i].0;
        let id: u32 = match parse_u32(key.as_str()) {
            Some(id) => id,
            None => {
                let mut e: String = path.to_owned();
                e.append(": param key \"");
                e.append(key.as_str());
                e.append("\" is not a numeric param id");
                proof {
                    lemma_error_stays(path@, params@, i + 1, params@.len() as int);
                }
                return Err(e);
            },
        };
        let plain: u64 = match &params[i].1 {
            PresetValue::Number(bits) => *bits,
            PresetValue::Boolean(b) => if *b {
                ONE_BITS
            } else {
                0
            },
            PresetValue::Other(text) => {
                let mut e: String = path.to_owned();
                e.append(": param ");
                e.append(key.as_str());
                e.append(" has non-numeric value ");
                e.append(text.as_str());
                proof {
                    lemma_error_stays(path@, params@, i + 1, params@.len() as int);
                }
                return Err(e);
            },
        };
        out.push((id, plain));
        proof {
            assert(all[i as int] == (id, plain));
            assert(out@ =~= all.take(i + 1));
        }
        i = i + 1;
    }
    proof {
        assert(all.take(i as int) =~= all);
    }
    Ok(out)
}

/// What is said of a preset's own data that is not valid, for a reason.
pub open spec fn extra_error(path: Seq<char>, reason: Seq<char>) -> Seq<char> {
    path + ": `extra` is not valid base64: "@ + reason
}

/// Takes the decoded bytes of a preset's own data, or says in words that they are
/// not valid.
pub fn checked_extra(path: &str, decoded: Result<Vec<u8>, String>) -> (r: Result<Vec<u8>, String>)
    ensures
        match decoded {
            Ok(bytes) => r == Ok::<Vec<u8>, String>(bytes),
            Err(reason) => r matches Err(e) && e@ == extra_error(path@, reason@),
        },
{
    match decoded {
        Ok(bytes) => Ok(bytes),
        Err(reason) => {
            let mut e: String = path.to_owned();
            e.append(": `extra` is not valid base64: ");
            e.append(reason.as_str());
            Err(e)
        },
    }
}

/// The bytes of a preset's own data, or what is said of it where it is not valid.
/// White space in its text does not count; an empty text stands for no bytes.
pub open spec fn extra_of(path: Seq<char>, text: Seq<char>) -> Result<Seq<u8>, Seq<char>> {
    if text.len() == 0 {
        Ok(Seq::empty())
    } else {
        match base64_decoded(compact(text)) {
            Ok(bytes) => Ok(bytes),
            Err(reason) => Err(extra_error(path, reason)),
        }
    }
}

/// Reads a preset's own data.
pub fn read_extra(path: &str, extra: &str) -> (r: Result<Vec<u8>, String>)
    ensures
        match extra_of(path@, extra@) {
            Ok(bytes) => r matches Ok(out) && out@ == bytes,
            Err(text) => r matches Err(e) && e@ == text,
        },
{
    if extra.is_empty() {
        return Ok(Vec::new());
    }
    let text: String = without_white_space(extra);
    checked_extra(path, base64_decode(text.as_str()))
}

/// The category of a preset: its own, or that of its directory.
pub open spec fn category_of(own: Option<String>, directory: Option<&str>) -> Seq<char> {
    match own {
        Some(c) if c@.len() > 0 => c@,
        _ => match directory {
            Some(d) => d@,
            None => Seq::empty(),
        },
    }
}

fn resolve_category(own: Option<String>, directory: Option<&str>) -> (r: String)
    ensures
        r@ == category_of(own, directory),
{
    if let Some(c) = own {
        if !c.as_str().is_empty() {
            return c;
        }
    }
    match directory {
        Some(d) => d.to_owned(),
        None => String::new(),
    }
}

/// What reading a preset file comes to.
pub struct PresetRead {
    /// The contents that the file is to be given, where an identity is stamped
    /// into it; that happens before anything else of it is held against the rules.
    pub rewrite: Option<String>,
    pub preset: Result<AuthoredPreset, String>,
}

/// Reads a preset file that parsed. `directory` is the directory that it lies in,
/// unless that is the library's root; `minted` a new identity, where one may be
/// stamped.
pub fn read_preset_file(
    file: PresetFile,
    path: &str,
    content: &str,
    stem: &str,
    directory: Option<&str>,
    minted: Option<&str>,
) -> (r: PresetRead)
    ensures
        read_of(file, path, content, stem, directory, minted, r),
{
    let mut rewrite: Option<String> = None;
    let uuid: String = match preset_identity(path, file.uuid.as_str(), content, minted) {
        Identity::Own => file.uuid,
        Identity::Stamped(text) => {
            rewrite = Some(text);
            match minted {
                Some(new) => new.to_owned(),
                None => String::new(),
            }
        },
        Identity::Missing(e) => {
            return PresetRead { rewrite: None, preset: Err(e) };
        },
    };
    let params: Vec<(u32, u64)> = match read_params(path, &file.params) {
        Ok(params) => params,
        Err(e) => {
            return PresetRead { rewrite, preset: Err(e) };
        },
    };
    let extra: Vec<u8> = match read_extra(path, file.extra.as_str()) {
        Ok(extra) => extra,
        Err(e) => {
            return PresetRead { rewrite, preset: Err(e) };
        },
    };
    let category: String = resolve_category(file.category, directory);
    PresetRead {
        rewrite,
        preset: Ok(
            AuthoredPreset {
                meta: PresetMeta {
                    uuid,
                    name: file.name,
                    category,
                    author: file.author,
                    comment: file.comment,
                    tags: file.tags,
                    default: file.default,
                },
                params,
                extra,
                stem: stem.to_owned(),
                path: path.to_owned(),
            },
        ),
    }
}

/// Reads a preset file outside of a library. Its category falls back to the name
/// of its directory, and no identity is ever stamped into it.
pub fn read_single_preset(
    file: PresetFile,
    path: &str,
    content: &str,
    stem: &str,
    directory: Option<&str>,
) -> (r: Result<AuthoredPreset, String>)
    ensures
        file.uuid@.len() == 0 ==> (r matches Err(e) && e@ == path@
            + ": missing `uuid` field (run `cargo truce install` once to stamp one)"@),
        file.uuid@.len() > 0 ==> match params_error(
            path@,
            file.params@,
            file.params@.len() as int,
        ) {
            Some(text) => r matches Err(e) && e@ == text,
            None => match extra_of(path@, file.extra@) {
                Err(text) => r matches Err(e) && e@ == text,
                Ok(bytes) => r matches Ok(p) && {
                    &&& p.meta.uuid@ == file.uuid@
                    &&& p.meta.name == file.name
                    &&& p.meta.category@ == category_of(file.category, directory)
                    &&& p.meta.author == file.author
                    &&& p.meta.comment == file.comment
                    &&& p.meta.tags == file.tags
                    &&& p.meta.default == file.default
                    &&& p.params@ == params_read(file.params@)
                    &&& p.extra@ == bytes
                    &&& p.stem@ == stem@
                    &&& p.path@ == path@
                },
            },
        },
{
    read_preset_file(file, path, content, stem, directory, None).preset
}

/// The first of the first `n` presets with this identity.
pub open spec fn with_uuid(presets: Seq<AuthoredPreset>, n: int, uuid: Seq<char>) -> Option<int>
    decreases n,
{
    if n <= 0 {
        None
    } else {
        match with_uuid(presets, n - 1, uuid) {
            Some(i) => Some(i),
            None => if presets[n - 1].meta.uuid@ == uuid {
                Some(n - 1)
            } else {
                None
            },
        }
    }
}

/// The first of the first `n` presets with this name in this category.
pub open spec fn with_name(
    presets: Seq<AuthoredPreset>,
    n: int,
    category: Seq<char>,
    name: Seq<char>,
) -> Option<int>
    decreases n,
{
    if n <= 0 {
        None
    } else {
        match with_name(presets, n - 1, category, name) {
            Some(i) => Some(i),
            None => if presets[n - 1].meta.category@ == category && presets[n - 1].meta.name@
                == name {
                Some(n - 1)
            } else {
                None
            },
        }
    }
}

/// The first of the first `n` presets that is marked as the default.
pub open spec fn first_default(presets: Seq<AuthoredPreset>, n: int) -> Option<int>
    decreases n,
{
    if n <= 0 {
        None
    } else {
        match first_default(presets, n - 1) {
            Some(i) => Some(i),
            None => if presets[n - 1].meta.default {
                Some(n - 1)
            } else {
                None
            },
        }
    }
}

/// What is wrong with the preset at `n`, held against those before it.
pub open spec fn clash(presets: Seq<AuthoredPreset>, n: int) -> Option<Seq<char>> {
    let p = presets[n];
    match with_uuid(presets, n, p.meta.uuid@) {
        Some(i) => Some(
            "duplicate preset uuid \""@ + p.meta.uuid@ + "\" in "@ + presets[i].path@ + " and "@
                + p.path@,
        ),
        None => match with_name(presets, n, p.meta.category@, p.meta.name@) {
            Some(i) => Some(
                "duplicate preset name \""@ + p.meta.name@ + "\" in category \""@
                    + p.meta.category@ + "\": "@ + presets[i].path@ + " and "@ + p.path@,
            ),
            None => if p.meta.default {
                match first_default(presets, n) {
                    Some(i) => Some(
                        "multiple presets set `default = true`: "@ + presets[i].path@ + " and "@
                            + p.path@,
                    ),
                    None => None,
                }
            } else {
                None
            },
        },
    }
}

/// The first clash among the first `n` presets.
pub open spec fn first_clash(presets: Seq<AuthoredPreset>, n: int) -> Option<Seq<char>>
    decreases n,
{
    if n <= 0 {
        None
    } else {
        match first_clash(presets, n - 1) {
            Some(e) => Some(e),
            None => clash(presets, n - 1),
        }
    }
}

proof fn lemma_clash_stays(presets: Seq<AuthoredPreset>, m: int, n: int)
    requires
        m <= n,
        first_clash(presets, m) is Some,
    ensures
        first_clash(presets, n) == first_clash(presets, m),
    decreases n,
{
    if m < n && n > 0 {
        lemma_clash_stays(presets, m, n - 1);
    }
}

fn find_uuid(presets: &Vec<AuthoredPreset>, n: usize, uuid: &str) -> (r: Option<usize>)
    requires
        n <= presets@.len(),
    ensures
        match r {
            Some(i) => with_uuid(presets@, n as int, uuid@) == Some(i as int) && i < n,
            None => with_uuid(presets@, n as int, uuid@) is None,
        },
{
    let mut i: usize = 0;
    while i < n
        invariant
            i <= n <= presets@.len(),
            with_uuid(presets@, i as int, uuid@) is None,
        decreases n - i,
    {
        if str_eq(presets[i].meta.uuid.as_str(), uuid) {
            proof {
                lemma_uuid_stays(presets@, i + 1, n as int, uuid@);
            }
            return Some(i);
        }
        i = i + 1;
    }
    None
}

proof fn lemma_uuid_stays(presets: Seq<AuthoredPreset>, m: int, n: int, uuid: Seq<char>)
    requires
        m <= n,
        with_uuid(presets, m, uuid) is Some,
    ensures
        with_uuid(presets, n, uuid) == with_uuid(presets, m, uuid),
    decreases n,
{
    if m < n && n > 0 {
        lemma_uuid_stays(presets, m, n - 1, uuid);
    }
}

fn find_name(presets: &Vec<AuthoredPreset>, n: usize, category: &str, name: &str) -> (r: Option<
    usize,
>)
    requires
        n <= presets@.len(),
    ensures
        match r {
            Some(i) => with_name(presets@, n as int, category@, name@) == Some(i as int) && i < n,
            None => with_name(presets@, n as int, category@, name@) is None,
        },
{
    let mut i: usize = 0;
    while i < n
        invariant
            i <= n <= presets@.len(),
            with_name(presets@, i as int, category@, name@) is None,
        decreases n - i,
    {
        if str_eq(presets[i].meta.category.as_str(), category) && str_eq(
            presets[i].meta.name.as_str(),
            name,
        ) {
            proof {
                lemma_name_stays(presets@, i + 1, n as int, category@, name@);
            }
            return Some(i);
        }
        i = i + 1;
    }
    None
}

proof fn lemma_name_stays(
    presets: Seq<AuthoredPreset>,
    m: int,
    n: int,
    category: Seq<char>,
    name: Seq<char>,
)
    requires
        m <= n,
        with_name(presets, m, category, name) is Some,
    ensures
        with_name(presets, n, category, name) == with_name(presets, m, category, name),
    decreases n,
{
    if m < n && n > 0 {
        lemma_name_stays(presets, m, n - 1, category, name);
    }
}

/// Holds a library against its rules: identities are unique, display names are
/// unique within their category, and one preset at most is the default. The first
/// preset that breaks one is reported.
pub fn validate_library(presets: &Vec<AuthoredPreset>) -> (r: Result<(), String>)
    ensures
        match first_clash(presets@, presets@.len() as int) {
            Some(text) => r matches Err(e) && e@ == text,
            None => r is Ok,
        },
{
    let mut default_at: Option<usize> = None;
    let mut n: usize = 0;
    while n < presets.len()
        invariant
            n <= presets@.len(),
            first_clash(presets@, n as int) is None,
            match default_at {
                Some(i) => first_default(presets@, n as int) == Some(i as int) && i < n,
                None => first_default(presets@, n as int) is None,
            },
        decreases presets@.len() - n,
    {
        let p: &AuthoredPreset = &presets[n];
        if let Some(i) = find_uuid(presets, n, p.meta.uuid.as_str()) {
            let mut e: String = "duplicate preset uuid \"".to_owned();
            e.append(p.meta.uuid.as_str());
            e.append("\" in ");
            e.append(presets[i].path.as_str());
            e.append(" and ");
            e.append(p.path.as_str());
            proof {
                lemma_clash_stays(presets@, n + 1, presets@.len() as int);
            }
            return Err(e);
        }
        if let Some(i) = find_name(presets, n, p.meta.category.as_str(), p.meta.name.as_str()) {
            let mut e: String = "duplicate preset name \"".to_owned();
            e.append(p.meta.name.as_str());
            e.append("\" in category \"");
            e.append(p.meta.category.as_str());
            e.append("\": ");
            e.append(presets[i].path.as_str());
            e.append(" and ");
            e.append(p.path.as_str());
            proof {
                lemma_clash_stays(presets@, n + 1, presets@.len() as int);
            }
            return Err(e);
        }
        if p.meta.default {
            match default_at {
                Some(i) => {
                    let mut e: String = "multiple presets set `default = true`: ".to_owned();
                    e.append(presets[i].path.as_str());
                    e.append(" and ");
                    e.append(p.path.as_str());
                    proof {
                        lemma_clash_stays(presets@, n + 1, presets@.len() as int);
                    }
                    return Err(e);
                },
                None => {
                    default_at = Some(n);
                },
            }
        }
        n = n + 1;
    }
    Ok(())
}

/// The first of the first `n` files that could not be read.
pub open spec fn first_failed(reads: Seq<Result<AuthoredPreset, String>>, n: int) -> Option<int>
    decreases n,
{
    if n <= 0 {
        None
    } else {
        match first_failed(reads, n - 1) {
            Some(i) => Some(i),
            None => if reads[n - 1] is Err {
                Some(n - 1)
            } else {
                None
            },
        }
    }
}

/// The presets of files that could all be read.
pub open spec fn presets_read(reads: Seq<Result<AuthoredPreset, String>>) -> Seq<AuthoredPreset> {
    reads.map_values(|read: Result<AuthoredPreset, String>| read->Ok_0)
}

proof fn lemma_failure_stays(reads: Seq<Result<AuthoredPreset, String>>, m: int, n: int)
    requires
        m <= n,
        first_failed(reads, m) is Some,
    ensures
        first_failed(reads, n) == first_failed(reads, m),
    decreases n,
{
    if m < n && n > 0 {
        lemma_failure_stays(reads, m, n - 1);
    }
}

/// Makes a library of its files, as they were read: the first that could not be read is
/// reported, and after that the first clash.
pub fn library_of(reads: Vec<Result<AuthoredPreset, String>>) -> (r: Result<
    Vec<AuthoredPreset>,
    String,
>)
    ensures
        match first_failed(reads@, reads@.len() as int) {
            Some(i) => r matches Err(e) && reads@[i] == Err::<AuthoredPreset, String>(e),
            None => match first_clash(presets_read(reads@), reads@.len() as int) {
                Some(text) => r matches Err(e) && e@ == text,
                None => r matches Ok(presets) && presets@ == presets_read(reads@),
            },
        },
{
    let ghost all = reads@;
    let ghost n = reads@.len() as int;
    let mut rest: Vec<Result<AuthoredPreset, String>> = reads;
    let mut presets: Vec<AuthoredPreset> = Vec::new();
    while rest.len() > 0
        invariant
            all == reads@,
            n == all.len(),
            presets@.len() + rest@.len() == n,
            rest@ =~= all.skip(presets@.len() as int),
            first_failed(all, presets@.len() as int) is None,
            presets@ =~= presets_read(all).take(presets@.len() as int),
        decreases rest@.len(),
    {
        let ghost done = presets@.len() as int;
        match rest.remove(0) {
            Ok(preset) => {
                presets.push(preset);
                proof {
                    assert(all[done] == Ok::<AuthoredPreset, String>(preset));
                    assert(presets_read(all)[done] == preset);
                }
            },
            Err(e) => {
                proof {
                    assert(all[done] == Err::<AuthoredPreset, String>(e));
                    assert(first_failed(all, done + 1) == Some(done));
                    lemma_failure_stays(all, done + 1, n);
                }
                return Err(e);
            },
        }
    }
    proof {
        assert(presets@ =~= presets_read(all));
    }
    match validate_library(&presets) {
        Ok(()) => Ok(presets),
        Err(e) => Err(e),
    }
}

/// Whether reading the file at a path can come to this.
pub open spec fn read_as<F: Fn(&str) -> Result<AuthoredPreset, String>>(
    read: F,
    path: Seq<char>,
    result: Result<AuthoredPreset, String>,
) -> bool {
    exists|p: &str| p@ == path && #[trigger] call_ensures(read, (p,), result)
}

/// Whether files were read one after the other, up to the first that could not be.
pub open spec fn read_in_turn<F: Fn(&str) -> Result<AuthoredPreset, String>>(
    read: F,
    paths: Seq<Seq<char>>,
    reads: Seq<Result<AuthoredPreset, String>>,
) -> bool {
    &&& reads.len() <= paths.len()
    &&& forall|i: int| 0 <= i < reads.len() ==> read_as(read, paths[i], #[trigger] reads[i])
    &&& forall|i: int| 0 <= i < reads.len() - 1 ==> (#[trigger] reads[i]) is Ok
    &&& reads.len() < paths.len() ==> reads.len() > 0 && reads.last() is Err
}

/// Reads the library in a directory: the preset files in it and below, in the order of
/// their paths, each by `read`. The first that cannot be read is reported, and none is
/// read after it; if all can be, the first clash is.
pub fn read_presets_dir(
    dir: &FoundDir,
    read: impl Fn(&str) -> Result<AuthoredPreset, String>,
) -> (r: Result<Vec<AuthoredPreset>, String>)
    requires
        forall|path: &str| #[trigger] call_requires(read, (path,)),
    ensures
        exists|reads: Seq<Result<AuthoredPreset, String>>|
            {
                &&& #[trigger] read_in_turn(
                    read,
                    paths_of(files_below(*dir, AUTHORED_PRESET_EXT@, 0)),
                    reads,
                )
                &&& match first_failed(reads, reads.len() as int) {
                    Some(i) => r matches Err(e) && reads[i] == Err::<AuthoredPreset, String>(e),
                    None => match first_clash(presets_read(reads), reads.len() as int) {
                        Some(text) => r matches Err(e) && e@ == text,
                        None => r matches Ok(presets) && presets@ == presets_read(reads),
                    },
                }
            },
{
    let mut files: Vec<String> = Vec::new();
    collect_preset_files(dir, AUTHORED_PRESET_EXT, 0, &mut files);
    let ghost paths = paths_of(files_below(*dir, AUTHORED_PRESET_EXT@, 0));
    proof {
        assert(views(files@) =~= paths);
    }
    let mut reads: Vec<Result<AuthoredPreset, String>> = Vec::new();
    let mut i: usize = 0;
    let mut failed: bool = false;
    while i < files.len() && !failed
        invariant
            i <= files@.len(),
            views(files@) == paths,
            reads@.len() == i,
            forall|path: &str| #[trigger] call_requires(read, (path,)),
            forall|k: int| 0 <= k < i ==> read_as(read, paths[k], #[trigger] reads@[k]),
            forall|k: int| 0 <= k < i - 1 ==> (#[trigger] reads@[k]) is Ok,
            failed == (i > 0 && reads@[i - 1] is Err),
        decreases files@.len() - i,
    {
        let path: &str = files[i].as_str();
        let result: Result<AuthoredPreset, String> = read(path);
        failed = result.is_err();
        proof {
            assert(path@ == paths[i as int]);
            assert(read_as(read, paths[i as int], result));
        }
        reads.push(result);
        i = i + 1;
    }
    let ghost all = reads@;
    proof {
        assert(read_in_turn(read, paths, all));
    }
    library_of(reads)
}

proof fn lemma_found_by_uuid(presets: Seq<AuthoredPreset>, n: int, i: int)
    requires
        0 <= i < n <= presets.len(),
    ensures
        with_uuid(presets, n, presets[i].meta.uuid@) is Some,
    decreases n,
{
    if i < n - 1 {
        lemma_found_by_uuid(presets, n - 1, i);
    }
}

proof fn lemma_found_by_name(presets: Seq<AuthoredPreset>, n: int, i: int)
    requires
        0 <= i < n <= presets.len(),
    ensures
        with_name(presets, n, presets[i].meta.category@, presets[i].meta.name@) is Some,
    decreases n,
{
    if i < n - 1 {
        lemma_found_by_name(presets, n - 1, i);
    }
}

proof fn lemma_found_default(presets: Seq<AuthoredPreset>, n: int, i: int)
    requires
        0 <= i < n <= presets.len(),
        presets[i].meta.default,
    ensures
        first_default(presets, n) is Some,
    decreases n,
{
    if i < n - 1 {
        lemma_found_default(presets, n - 1, i);
    }
}

proof fn lemma_no_clash_before(presets: Seq<AuthoredPreset>, n: int, k: int)
    requires
        first_clash(presets, n) is None,
        0 <= k < n,
    ensures
        clash(presets, k) is None,
    decreases n,
{
    if k < n - 1 {
        lemma_no_clash_before(presets, n - 1, k);
    }
}

/// In a library without a clash no two presets share an identity, no two share a
/// name within a category, and no two are the default.
pub proof fn law_valid_library_has_no_duplicates(presets: Seq<AuthoredPreset>, i: int, j: int)
    requires
        first_clash(presets, presets.len() as int) is None,
        0 <= i < j < presets.len(),
    ensures
        presets[i].meta.uuid@ != presets[j].meta.uuid@,
        presets[i].meta.category@ != presets[j].meta.category@ || presets[i].meta.name@
            != presets[j].meta.name@,
        !(presets[i].meta.default && presets[j].meta.default),
{
    lemma_no_clash_before(presets, presets.len() as int, j);
    lemma_found_by_uuid(presets, j, i);
    lemma_found_by_name(presets, j, i);
    if presets[i].meta.default {
        lemma_found_default(presets, j, i);
    }
}

/// What is known of a parameter beside its number: its name and its unit.
#[derive(Debug)]
pub struct ParamAnnotation {
    pub name: String,
    pub unit: String,
}

/// An entry of a side-car file's parameter list, as far as it holds what is
/// looked for.
#[derive(Debug)]
pub struct RawAnnotation {
    pub id: Option<i64>,
    pub name: Option<String>,
    pub unit: Option<String>,
}

/// The view of such an entry: its number, its name and its unit.
pub type RawView = (Option<i64>, Option<Seq<char>>, Option<Seq<char>>);

/// The view of a text that may be missing.
pub open spec fn text_view(s: Option<String>) -> Option<Seq<char>> {
    match s {
        Some(t) => Some(t@),
        None => None,
    }
}

/// The view of some entries.
pub open spec fn raw_views(raws: Seq<RawAnnotation>) -> Seq<RawView> {
    raws.map_values(|raw: RawAnnotation| (raw.id, text_view(raw.name), text_view(raw.unit)))
}

/// The entries of a list of tables in a TOML text: of each what it holds under
/// three keys, an integer and two strings.
pub uninterp spec fn toml_rows(
    content: Seq<char>,
    list: Seq<char>,
    number: Seq<char>,
    first: Seq<char>,
    second: Seq<char>,
) -> Option<Seq<(Option<i64>, Option<Seq<char>>, Option<Seq<char>>)>>;

/// `toml::Table`'s `FromStr`: the entries of the array that the text, parsed as a
/// TOML document, holds under `list`; of each the integer under `number` and the
/// strings under `first` and `second`, where they are such. Nothing where the text
/// does not parse, or holds no array there.
#[verifier::external_body]
fn toml_rows_at(content: &str, list: &str, number: &str, first: &str, second: &str) -> (r: Option<
    Vec<RawAnnotation>,
>)
    ensures
        match r {
            Some(rows) => toml_rows(content@, list@, number@, first@, second@) == Some(
                raw_views(rows@),
            ),
            None => toml_rows(content@, list@, number@, first@, second@) is None,
        },
{
    let document: toml::Table = content.parse().ok()?;
    let rows = document.get(list)?.as_array()?;
    let text =
        |p: &toml::Value, key: &str| p.get(key).and_then(toml::Value::as_str).map(String::from);
    let row = |p: &toml::Value| RawAnnotation {
        id: p.get(number).and_then(toml::Value::as_integer),
        name: text(p, first),
        unit: text(p, second),
    };
    Some(rows.iter().map(row).collect())
}

/// Whether a text ends with another.
pub open spec fn ends_with(s: Seq<char>, suffix: Seq<char>) -> bool {
    suffix.len() <= s.len() && s.skip(s.len() - suffix.len()) == suffix
}

/// Whether a file is a side-car that lists parameters, by its name.
pub fn is_param_sidecar(file_name: &str) -> (r: bool)
    ensures
        r == ends_with(file_name@, ".params.toml"@),
{
    let chars: Vec<char> = to_chars(file_name);
    let wanted: Vec<char> = to_chars(".params.toml");
    if wanted.len() > chars.len() {
        return false;
    }
    let start: usize = chars.len() - wanted.len();
    let mut i: usize = 0;
    while i < wanted.len()
        invariant
            i <= wanted@.len() <= chars@.len() <= usize::MAX,
            start == chars@.len() - wanted@.len(),
            chars@ == file_name@,
            wanted@ == ".params.toml"@,
            forall|k: int| 0 <= k < i ==> chars@[start + k] == wanted@[k],
        decreases wanted@.len() - i,
    {
        if chars[start + i] != wanted[i] {
            proof {
                assert(file_name@.skip(start as int)[i as int] != wanted@[i as int]);
            }
            return false;
        }
        i = i + 1;
    }
    proof {
        assert(file_name@.skip(start as int) =~= wanted@);
    }
    true
}

/// The entries of the side-car files' parameter lists, in the order of the files;
/// a file without such a list gives none.
pub open spec fn sidecar_rows(contents: Seq<String>, n: int) -> Seq<RawView>
    decreases n,
{
    if n <= 0 {
        Seq::empty()
    } else {
        sidecar_rows(contents, n - 1) + match toml_rows(
            contents[n - 1]@,
            "param"@,
            "id"@,
            "name"@,
            "unit"@,
        ) {
            Some(rows) => rows,
            None => Seq::empty(),
        }
    }
}

/// Reads the parameter lists of side-car files.
pub fn read_param_annotations(contents: &Vec<String>) -> (r: Vec<RawAnnotation>)
    ensures
        raw_views(r@) == sidecar_rows(contents@, contents@.len() as int),
{
    let mut out: Vec<RawAnnotation> = Vec::new();
    let mut i: usize = 0;
    proof {
        assert(raw_views(out@) =~= sidecar_rows(contents@, 0));
    }
    while i < contents.len()
        invariant
            i <= contents@.len(),
            raw_views(out@) == sidecar_rows(contents@, i as int),
        decreases contents@.len() - i,
    {
        let ghost before = out@;
        match toml_rows_at(contents[i].as_str(), "param", "id", "name", "unit") {
            Some(mut rows) => {
                let ghost read = rows@;
                out.append(&mut rows);
                proof {
                    assert(raw_views(out@) =~= raw_views(before) + raw_views(read));
                }
            },
            None => {
                proof {
                    assert(raw_views(before) + Seq::<RawView>::empty() =~= raw_views(before));
                }
            },
        }
        i = i + 1;
    }
    out
}

/// The annotation that the newest usable entry of the first `n` gives a parameter.
/// An entry without a number, or with one that is no parameter number, is skipped;
/// a missing text is empty.
pub open spec fn annotation_of(raws: Seq<RawAnnotation>, n: int, id: u32) -> Option<
    (Seq<char>, Seq<char>),
>
    decreases n,
{
    if n <= 0 {
        None
    } else if raws[n - 1].id == Some(id as i64) {
        Some(
            (
                match raws[n - 1].name {
                    Some(t) => t@,
                    None => Seq::empty(),
                },
                match raws[n - 1].unit {
                    Some(t) => t@,
                    None => Seq::empty(),
                },
            ),
        )
    } else {
        annotation_of(raws, n - 1, id)
    }
}

/// Looks a parameter's annotation up among the entries of side-car files, in the
/// order in which they were read.
pub fn find_annotation(raws: &Vec<RawAnnotation>, id: u32) -> (r: Option<ParamAnnotation>)
    ensures
        match r {
            Some(a) => annotation_of(raws@, raws@.len() as int, id) == Some((a.name@, a.unit@)),
            None => annotation_of(raws@, raws@.len() as int, id) is None,
        },
{
    let mut i: usize = raws.len();
    while i > 0
        invariant
            i <= raws@.len(),
            annotation_of(raws@, i as int, id) == annotation_of(raws@, raws@.len() as int, id),
        decreases i,
    {
        i = i - 1;
        if let Some(n) = raws[i].id {
            if n == id as i64 {
                return Some(
                    ParamAnnotation {
                        name: match &raws[i].name {
                            Some(t) => t.clone(),
                            None => String::new(),
                        },
                        unit: match &raws[i].unit {
                            Some(t) => t.clone(),
                            None => String::new(),
                        },
                    },
                );
            }
        }
    }
    None
}

/// A text as it stands inside a quoted TOML string.
pub fn toml_escape(s: &str) -> (r: String)
    ensures
        r@ == escaped(s@),
{
    escape_quoted(s)
}

/// A line that gives a key a text, unless the text is empty.
pub open spec fn with_field(f: Seq<char>, key: Seq<char>, value: Seq<char>) -> Seq<char> {
    if value.len() > 0 {
        f + key + " = \""@ + escaped(value) + "\"\n"@
    } else {
        f
    }
}

fn push_field(f: &mut String, key: &str, value: &str)
    ensures
        final(f)@ == with_field(old(f)@, key@, value@),
{
    if !value.is_empty() {
        f.append(key);
        f.append(" = \"");
        f.append(toml_escape(value).as_str());
        f.append("\"\n");
    }
}

/// The first `n` tags, quoted, with commas between them.
pub open spec fn with_tags(f: Seq<char>, tags: Seq<String>, n: int) -> Seq<char>
    decreases n,
{
    if n <= 0 {
        f
    } else {
        let f = with_tags(f, tags, n - 1);
        let f = if n > 1 {
            f + ", "@
        } else {
            f
        };
        f + "\""@ + escaped(tags[n - 1]@) + "\""@
    }
}

/// The first `n` parameters, one a line, with a note of their name and unit where
/// one is known.
pub open spec fn with_params(
    f: Seq<char>,
    params: Seq<(u32, String)>,
    raws: Seq<RawAnnotation>,
    n: int,
) -> Seq<char>
    decreases n,
{
    if n <= 0 {
        f
    } else {
        let f = with_params(f, params, raws, n - 1);
        let f = f + decimal(params[n - 1].0 as nat) + " = "@ + params[n - 1].1@;
        let f = match annotation_of(raws, raws.len() as int, params[n - 1].0) {
            Some((name, unit)) => if unit.len() == 0 {
                f + "   # "@ + name
            } else {
                f + "   # "@ + name + " ("@ + unit + ")"@
            },
            None => f,
        };
        f.push('\n')
    }
}

/// A whole preset file, with the base64 text of the preset's own data.
pub open spec fn preset_toml_text(
    meta: PresetMeta,
    params: Seq<(u32, String)>,
    extra_text: Option<Seq<char>>,
    raws: Seq<RawAnnotation>,
) -> Seq<char> {
    let f = with_field(Seq::empty(), "uuid"@, meta.uuid@);
    let f = with_field(f, "name"@, meta.name@);
    let f = with_field(f, "category"@, meta.category@);
    let f = with_field(f, "author"@, meta.author@);
    let f = with_field(f, "comment"@, meta.comment@);
    let f = if meta.tags@.len() > 0 {
        with_tags(f + "tags = ["@, meta.tags@, meta.tags@.len() as int) + "]\n"@
    } else {
        f
    };
    let f = if meta.default {
        f + "default = true\n"@
    } else {
        f
    };
    let f = match extra_text {
        Some(text) => f + "extra = \""@ + text + "\"\n"@,
        None => f,
    };
    if params.len() > 0 {
        with_params(f + "\n[params]\n"@, params, raws, params.len() as int)
    } else {
        f
    }
}

/// Writes a preset file, with the base64 text of the preset's own data.
pub fn render_preset_toml_from(
    meta: &PresetMeta,
    params: &Vec<(u32, String)>,
    extra_text: Option<&str>,
    annotations: &Vec<RawAnnotation>,
) -> (r: String)
    ensures
        r@ == preset_toml_text(
            *meta,
            params@,
            match extra_text {
                Some(t) => Some(t@),
                None => None,
            },
            annotations@,
        ),
{
    let mut f: String = String::new();
    push_field(&mut f, "uuid", meta.uuid.as_str());
    push_field(&mut f, "name", meta.name.as_str());
    push_field(&mut f, "category", meta.category.as_str());
    push_field(&mut f, "author", meta.author.as_str());
    push_field(&mut f, "comment", meta.comment.as_str());
    if meta.tags.len() > 0 {
        f.append("tags = [");
        let ghost start = f@;
        let mut t: usize = 0;
        while t < meta.tags.len()
            invariant
                t <= meta.tags@.len(),
                f@ == with_tags(start, meta.tags@, t as int),
            decreases meta.tags@.len() - t,
        {
            if t > 0 {
                f.append(", ");
            }
            f.append("\"");
            f.append(toml_escape(meta.tags[t].as_str()).as_str());
            f.append("\"");
            t = t + 1;
        }
        f.append("]\n");
    }
    if meta.default {
        f.append("default = true\n");
    }
    if let Some(text) = extra_text {
        f.append("extra = \"");
        f.append(text);
        f.append("\"\n");
    }
    if params.len() > 0 {
        f.append("\n[params]\n");
        let ghost start = f@;
        let mut i: usize = 0;
        while i < params.len()
            invariant
                i <= params@.len(),
                f@ == with_params(start, params@, annotations@, i as int),
            decreases params@.len() - i,
        {
            push_decimal(&mut f, params[i].0 as u64);
            f.append(" = ");
            f.append(params[i].1.as_str());
            if let Some(a) = find_annotation(annotations, params[i].0) {
                f.append("   # ");
                f.append(a.name.as_str());
                if !a.unit.as_str().is_empty() {
                    f.append(" (");
                    f.append(a.unit.as_str());
                    f.append(")");
                }
            }
            f.push('\n');
            i = i + 1;
        }
    }
    f
}

/// Writes a preset file: fields that say nothing are left out, and each parameter
/// is given by its number and its value written out.
#[must_use]
pub fn render_preset_toml(
    meta: &PresetMeta,
    params: &Vec<(u32, String)>,
    extra: &[u8],
    annotations: &Vec<RawAnnotation>,
) -> (r: String)
    requires
        encodable(extra@.len()),
    ensures
        r@ == preset_toml_text(
            *meta,
            params@,
            if extra@.len() > 0 {
                Some(base64_text(extra@))
            } else {
                None
            },
            annotations@,
        ),
{
    if extra.len() == 0 {
        return render_preset_toml_from(meta, params, None, annotations);
    }
    let text: String = base64_encode(extra);
    render_preset_toml_from(meta, params, Some(text.as_str()), annotations)
}

/// Each parameter of a preset reads as what the file says: the number behind its key, and
/// beside it the bits of its number, or those of 1.0 for what is true and of 0.0 for what is
/// false. None is left out, and none changes its place.
pub proof fn law_parameters_read_as_they_say(
    path: Seq<char>,
    params: Seq<(String, PresetValue)>,
    i: int,
)
    requires
        params_error(path, params, params.len() as int) is None,
        0 <= i < params.len(),
    ensures
        params_read(params).len() == params.len(),
        match params[i].1 {
            PresetValue::Number(bits) => params_read(params)[i].1 == bits,
            PresetValue::Boolean(true) => params_read(params)[i].1 == 0x3FF0_0000_0000_0000,
            PresetValue::Boolean(false) => params_read(params)[i].1 == 0,
            PresetValue::Other(_) => false,
        },
        parsed_u32(params[i].0@) == Some(params_read(params)[i].0),
        forall|id: u32|
            params[i].0@ == #[trigger] decimal(id as nat) ==> params_read(params)[i].0 == id,
{
    lemma_no_error_at(path, params, params.len() as int, i);
    assert forall|id: u32| params[i].0@ == #[trigger] decimal(id as nat) implies params_read(
        params,
    )[i].0 == id by {
        law_written_numbers_read_back(id as nat);
    }
}

proof fn lemma_no_error_at(path: Seq<char>, params: Seq<(String, PresetValue)>, n: int, i: int)
    requires
        params_error(path, params, n) is None,
        0 <= i < n,
    ensures
        parsed_u32(params[i].0@) is Some,
        !(params[i].1 is Other),
    decreases n,
{
    if i < n - 1 {
        lemma_no_error_at(path, params, n - 1, i);
    }
}

/// A preset's parameters are refused exactly where a key is no number or a value is none,
/// and then for the first that is wrong, in words that name the file and the key.
pub proof fn law_first_wrong_parameter_is_named(
    path: Seq<char>,
    params: Seq<(String, PresetValue)>,
    i: int,
)
    requires
        0 <= i <= params.len(),
        forall|k: int|
            0 <= k < i ==> parsed_u32((#[trigger] params[k]).0@) is Some && !(params[k].1 is Other),
    ensures
        i == params.len() ==> params_error(path, params, params.len() as int) is None,
        i < params.len() && parsed_u32(params[i].0@) is None ==> params_error(
            path,
            params,
            params.len() as int,
        ) == Some(path + ": param key \""@ + params[i].0@ + "\" is not a numeric param id"@),
        i < params.len() && parsed_u32(params[i].0@) is Some ==> (params[i].1 matches
            PresetValue::Other(text) ==> params_error(path, params, params.len() as int) == Some(
            path + ": param "@ + params[i].0@ + " has non-numeric value "@ + text@,
        )),
{
    lemma_no_error_up_to(path, params, i);
    if i < params.len() && params_error(path, params, i + 1) is Some {
        lemma_error_stays(path, params, i + 1, params.len() as int);
    }
}

proof fn lemma_no_error_up_to(path: Seq<char>, params: Seq<(String, PresetValue)>, n: int)
    requires
        0 <= n <= params.len(),
        forall|k: int|
            0 <= k < n ==> parsed_u32((#[trigger] params[k]).0@) is Some && !(params[k].1 is Other),
    ensures
        params_error(path, params, n) is None,
    decreases n,
{
    if n > 0 {
        lemma_no_error_up_to(path, params, n - 1);
        assert(parsed_u32(params[n - 1].0@) is Some);
    }
}

/// What white space is left out of a preset's own data, and nothing else: character by
/// character a text stays as it is but for white space.
pub proof fn law_only_white_space_is_left_out(text: Seq<char>, c: char)
    ensures
        compact(Seq::empty()) == Seq::<char>::empty(),
        c == ' ' || c == '\n' || c == '\r' || c == '\t' ==> compact(text.push(c)) == compact(text),
        ('a' <= c <= 'z' || 'A' <= c <= 'Z' || '0' <= c <= '9' || c == '+' || c == '/' || c == '=')
            ==> compact(text.push(c)) == compact(text).push(c),
{
    reveal(Seq::filter);
    assert(text.push(c).drop_last() =~= text);
}

/// A preset's category is its own, where it has one; else its directory's name; else none.
pub proof fn law_own_category_wins(own: String, directory: &str)
    ensures
        own@.len() > 0 ==> category_of(Some(own), Some(directory)) == own@ && category_of(
            Some(own),
            None,
        ) == own@,
        own@.len() == 0 ==> category_of(Some(own), Some(directory)) == directory@ && category_of(
            Some(own),
            None,
        ).len() == 0,
        category_of(None, Some(directory)) == directory@,
        category_of(None, None).len() == 0,
{
}

/// Two presets can stand in one library: they have identities and names of their own, and
/// not both are the default.
pub open spec fn get_along(a: AuthoredPreset, b: AuthoredPreset) -> bool {
    &&& a.meta.uuid@ != b.meta.uuid@
    &&& a.meta.category@ != b.meta.category@ || a.meta.name@ != b.meta.name@
    &&& !(a.meta.default && b.meta.default)
}

/// A library is refused only where two of its presets do not get along, and then for the
/// first that does not with one in front of it: for the identity, else the name, else the
/// mark, in words that name both files.
pub proof fn law_first_clash_is_named(presets: Seq<AuthoredPreset>, n: int, i: int)
    requires
        0 <= n <= presets.len(),
        forall|a: int, b: int|
            0 <= a < b < n ==> get_along(#[trigger] presets[a], #[trigger] presets[b]),
    ensures
        n == presets.len() ==> first_clash(presets, presets.len() as int) is None,
        n < presets.len() && 0 <= i < n ==> {
            let (p, q) = (presets[i], presets[n]);
            let said = first_clash(presets, presets.len() as int);
            &&& p.meta.uuid@ == q.meta.uuid@ ==> said == Some(
                "duplicate preset uuid \""@ + q.meta.uuid@ + "\" in "@ + p.path@ + " and "@
                    + q.path@,
            )
            &&& (forall|k: int| 0 <= k < n ==> (#[trigger] presets[k]).meta.uuid@ != q.meta.uuid@)
                && p.meta.category@ == q.meta.category@ && p.meta.name@ == q.meta.name@ ==> said
                == Some(
                "duplicate preset name \""@ + q.meta.name@ + "\" in category \""@
                    + q.meta.category@ + "\": "@ + p.path@ + " and "@ + q.path@,
            )
            &&& (forall|k: int|
                0 <= k < n ==> (#[trigger] presets[k]).meta.uuid@ != q.meta.uuid@ && (
                presets[k].meta.category@ != q.meta.category@ || presets[k].meta.name@
                    != q.meta.name@)) && p.meta.default && q.meta.default ==> said == Some(
                "multiple presets set `default = true`: "@ + p.path@ + " and "@ + q.path@,
            )
        },
{
    lemma_no_clash_up_to(presets, n);
    if n < presets.len() && 0 <= i < n {
        let q = presets[n];
        lemma_found_uuid(presets, n, q.meta.uuid@);
        lemma_found_name(presets, n, q.meta.category@, q.meta.name@);
        lemma_found_first_default(presets, n);
        if presets[i].meta.uuid@ == q.meta.uuid@ {
            lemma_found_by_uuid(presets, n, i);
            let k = with_uuid(presets, n, q.meta.uuid@)->0;
            assert(k == i) by {
                if k < i {
                    assert(get_along(presets[k], presets[i]));
                }
                if i < k {
                    assert(get_along(presets[i], presets[k]));
                }
            }
        }
        if presets[i].meta.category@ == q.meta.category@ && presets[i].meta.name@ == q.meta.name@ {
            lemma_found_by_name(presets, n, i);
            let k = with_name(presets, n, q.meta.category@, q.meta.name@)->0;
            assert(k == i) by {
                if k < i {
                    assert(get_along(presets[k], presets[i]));
                }
                if i < k {
                    assert(get_along(presets[i], presets[k]));
                }
            }
        }
        if presets[i].meta.default {
            lemma_found_default(presets, n, i);
            let k = first_default(presets, n)->0;
            assert(k == i) by {
                if k < i {
                    assert(get_along(presets[k], presets[i]));
                }
                if i < k {
                    assert(get_along(presets[i], presets[k]));
                }
            }
        }
        if first_clash(presets, n + 1) is Some {
            lemma_clash_stays(presets, n + 1, presets.len() as int);
        }
    }
}

proof fn lemma_found_uuid(presets: Seq<AuthoredPreset>, n: int, uuid: Seq<char>)
    ensures
        with_uuid(presets, n, uuid) matches Some(i) ==> 0 <= i < n && presets[i].meta.uuid@ == uuid,
    decreases n,
{
    if n > 0 {
        lemma_found_uuid(presets, n - 1, uuid);
    }
}

proof fn lemma_found_name(
    presets: Seq<AuthoredPreset>,
    n: int,
    category: Seq<char>,
    name: Seq<char>,
)
    ensures
        with_name(presets, n, category, name) matches Some(i) ==> 0 <= i < n
            && presets[i].meta.category@ == category && presets[i].meta.name@ == name,
    decreases n,
{
    if n > 0 {
        lemma_found_name(presets, n - 1, category, name);
    }
}

proof fn lemma_found_first_default(presets: Seq<AuthoredPreset>, n: int)
    ensures
        first_default(presets, n) matches Some(i) ==> 0 <= i < n && presets[i].meta.default,
    decreases n,
{
    if n > 0 {
        lemma_found_first_default(presets, n - 1);
    }
}

proof fn lemma_no_clash_up_to(presets: Seq<AuthoredPreset>, n: int)
    requires
        0 <= n <= presets.len(),
        forall|a: int, b: int|
            0 <= a < b < n ==> get_along(#[trigger] presets[a], #[trigger] presets[b]),
    ensures
        first_clash(presets, n) is None,
    decreases n,
{
    if n > 0 {
        let m = n - 1;
        lemma_no_clash_up_to(presets, m);
        let q = presets[m];
        lemma_found_uuid(presets, m, q.meta.uuid@);
        lemma_found_name(presets, m, q.meta.category@, q.meta.name@);
        lemma_found_first_default(presets, m);
        if with_uuid(presets, m, q.meta.uuid@) is Some {
            assert(get_along(presets[with_uuid(presets, m, q.meta.uuid@)->0], q));
        }
        if with_name(presets, m, q.meta.category@, q.meta.name@) is Some {
            assert(get_along(
                presets[with_name(presets, m, q.meta.category@, q.meta.name@)->0],
                q,
            ));
        }
        if first_default(presets, m) is Some {
            assert(get_along(presets[first_default(presets, m)->0], q));
        }
    }
}

/// The first file of a library that cannot be read is the one that is reported.
pub proof fn law_first_failure_is_reported(
    reads: Seq<Result<AuthoredPreset, String>>,
    i: int,
)
    requires
        0 <= i <= reads.len(),
        forall|k: int| 0 <= k < i ==> (#[trigger] reads[k]) is Ok,
    ensures
        i == reads.len() ==> first_failed(reads, reads.len() as int) is None && presets_read(
            reads,
        ).len() == reads.len() && forall|k: int|
            0 <= k < reads.len() ==> reads[k] == Ok::<AuthoredPreset, String>(
                #[trigger] presets_read(reads)[k],
            ),
        i < reads.len() && reads[i] is Err ==> first_failed(reads, reads.len() as int) == Some(i),
{
    lemma_no_failure_up_to(reads, i);
    if i < reads.len() && reads[i] is Err {
        lemma_failure_stays(reads, i + 1, reads.len() as int);
    }
}

proof fn lemma_no_failure_up_to(reads: Seq<Result<AuthoredPreset, String>>, n: int)
    requires
        0 <= n <= reads.len(),
        forall|k: int| 0 <= k < n ==> (#[trigger] reads[k]) is Ok,
    ensures
        first_failed(reads, n) is None,
    decreases n,
{
    if n > 0 {
        lemma_no_failure_up_to(reads, n - 1);
        assert(reads[n - 1] is Ok);
    }
}

/// A parameter's note is the newest that is for its number: its own name and unit, and an
/// empty text where one is missing. Where none is for its number, it has no note.
pub proof fn law_newest_note_counts(raws: Seq<RawAnnotation>, id: u32, i: int)
    requires
        -1 <= i < raws.len(),
        forall|k: int| i < k < raws.len() ==> (#[trigger] raws[k]).id != Some(id as i64),
    ensures
        i < 0 ==> annotation_of(raws, raws.len() as int, id) is None,
        i >= 0 && raws[i].id == Some(id as i64) ==> (annotation_of(
            raws,
            raws.len() as int,
            id,
        ) matches Some((name, unit)) && (match raws[i].name {
            Some(text) => name == text@,
            None => name.len() == 0,
        }) && (match raws[i].unit {
            Some(text) => unit == text@,
            None => unit.len() == 0,
        })),
{
    lemma_note_from(raws, raws.len() as int, id, i);
}

proof fn lemma_note_from(raws: Seq<RawAnnotation>, n: int, id: u32, i: int)
    requires
        -1 <= i < n <= raws.len() || (i == -1 && n == 0),
        forall|k: int| i < k < n ==> (#[trigger] raws[k]).id != Some(id as i64),
    ensures
        annotation_of(raws, n, id) == annotation_of(raws, i + 1, id),
    decreases n,
{
    if i < n - 1 {
        assert(raws[n - 1].id != Some(id as i64));
        lemma_note_from(raws, n - 1, id, i);
    }
}

/// The line of a preset file that gives a key a text; an empty text has none.
pub open spec fn field_line(key: Seq<char>, value: Seq<char>) -> Seq<char> {
    if value.len() == 0 {
        Seq::empty()
    } else {
        key + " = \""@ + escaped(value) + "\"\n"@
    }
}

/// A quoted list: the texts, escaped, in their order.
pub open spec fn quoted_list(texts: Seq<String>) -> Seq<char>
    decreases texts.len(),
{
    if texts.len() == 0 {
        Seq::empty()
    } else if texts.len() == 1 {
        "\""@ + escaped(texts[0]@) + "\""@
    } else {
        quoted_list(texts.drop_last()) + ", "@ + "\""@ + escaped(texts.last()@) + "\""@
    }
}

/// The line of a parameter: its number, its value, and the note on it where there is one.
pub open spec fn param_line(id: u32, value: Seq<char>, note: Option<(Seq<char>, Seq<char>)>) -> Seq<
    char,
> {
    decimal(id as nat) + " = "@ + value + match note {
        Some((name, unit)) => "   # "@ + name + if unit.len() > 0 {
            " ("@ + unit + ")"@
        } else {
            Seq::empty()
        },
        None => Seq::empty(),
    }
}

/// A preset file holds the fields of a preset, each under its own key: its texts and tags,
/// the mark where it is the default, its own data where it has any, and under `[params]` a
/// line for each parameter.
pub proof fn law_preset_file_holds_the_preset(
    meta: PresetMeta,
    params: Seq<(u32, String)>,
    extra_text: Option<Seq<char>>,
    raws: Seq<RawAnnotation>,
)
    ensures
        preset_toml_text(meta, params, extra_text, raws) == field_line("uuid"@, meta.uuid@)
            + field_line("name"@, meta.name@) + field_line("category"@, meta.category@)
            + field_line("author"@, meta.author@) + field_line("comment"@, meta.comment@) + (
        if meta.tags@.len() > 0 {
            "tags = ["@ + quoted_list(meta.tags@) + "]\n"@
        } else {
            Seq::empty()
        }) + (if meta.default {
            "default = true\n"@
        } else {
            Seq::empty()
        }) + (match extra_text {
            Some(text) => "extra = \""@ + text + "\"\n"@,
            None => Seq::empty(),
        }) + (if params.len() > 0 {
            "\n[params]\n"@ + joined(
                Seq::new(
                    params.len(),
                    |i: int|
                        param_line(
                            params[i].0,
                            params[i].1@,
                            annotation_of(raws, raws.len() as int, params[i].0),
                        ),
                ),
            )
        } else {
            Seq::empty()
        }),
{
    let f0 = Seq::<char>::empty();
    let f1 = with_field(f0, "uuid"@, meta.uuid@);
    lemma_field(f0, "uuid"@, meta.uuid@);
    assert(f0 + field_line("uuid"@, meta.uuid@) =~= field_line("uuid"@, meta.uuid@));
    let f2 = with_field(f1, "name"@, meta.name@);
    lemma_field(f1, "name"@, meta.name@);
    let f3 = with_field(f2, "category"@, meta.category@);
    lemma_field(f2, "category"@, meta.category@);
    let f4 = with_field(f3, "author"@, meta.author@);
    lemma_field(f3, "author"@, meta.author@);
    let f5 = with_field(f4, "comment"@, meta.comment@);
    lemma_field(f4, "comment"@, meta.comment@);
    let f6 = if meta.tags@.len() > 0 {
        with_tags(f5 + "tags = ["@, meta.tags@, meta.tags@.len() as int) + "]\n"@
    } else {
        f5
    };
    if meta.tags@.len() > 0 {
        lemma_tags_are_a_list(f5 + "tags = ["@, meta.tags@, meta.tags@.len() as int);
        assert(meta.tags@.take(meta.tags@.len() as int) =~= meta.tags@);
        lemma_behind(f5, "tags = ["@, quoted_list(meta.tags@), "]\n"@);
    } else {
        lemma_nothing(f5);
    }
    let f7 = if meta.default {
        f6 + "default = true\n"@
    } else {
        f6
    };
    if !meta.default {
        lemma_nothing(f6);
    }
    let f8 = match extra_text {
        Some(text) => f7 + "extra = \""@ + text + "\"\n"@,
        None => f7,
    };
    match extra_text {
        Some(text) => lemma_behind(f7, "extra = \""@, text, "\"\n"@),
        None => lemma_nothing(f7),
    }
    let lines = param_lines(params, raws);
    if params.len() > 0 {
        lemma_params_are_lines(f8 + "\n[params]\n"@, params, raws, params.len() as int);
        assert(lines.take(params.len() as int) =~= lines);
        lemma_nothing(joined(lines));
        lemma_behind(f8, "\n[params]\n"@, joined(lines), Seq::empty());
        lemma_nothing(f8 + "\n[params]\n"@ + joined(lines));
        lemma_nothing("\n[params]\n"@ + joined(lines));
    } else {
        lemma_nothing(f8);
    }
    assert(lines =~= Seq::new(
        params.len(),
        |i: int|
            param_line(
                params[i].0,
                params[i].1@,
                annotation_of(raws, raws.len() as int, params[i].0),
            ),
    ));
}

proof fn lemma_nothing(f: Seq<char>)
    ensures
        f + Seq::<char>::empty() == f,
{
    assert(f + Seq::<char>::empty() =~= f);
}

proof fn lemma_behind(f: Seq<char>, a: Seq<char>, b: Seq<char>, c: Seq<char>)
    ensures
        f + a + b + c == f + (a + b + c),
{
    assert(f + a + b + c =~= f + (a + b + c));
}

proof fn lemma_field(f: Seq<char>, key: Seq<char>, value: Seq<char>)
    ensures
        with_field(f, key, value) == f + field_line(key, value),
{
    if value.len() > 0 {
        lemma_behind(f, key, " = \""@, escaped(value));
        lemma_behind(f, key + " = \""@, escaped(value), "\"\n"@);
        lemma_behind(f, key, " = \""@, Seq::empty());
        lemma_nothing(f + key + " = \""@);
        lemma_nothing(key + " = \""@);
    } else {
        lemma_nothing(f);
    }
}

spec fn param_lines(params: Seq<(u32, String)>, raws: Seq<RawAnnotation>) -> Seq<Seq<char>> {
    Seq::new(
        params.len(),
        |i: int|
            param_line(
                params[i].0,
                params[i].1@,
                annotation_of(raws, raws.len() as int, params[i].0),
            ),
    )
}

proof fn lemma_tags_are_a_list(f: Seq<char>, tags: Seq<String>, n: int)
    requires
        0 <= n <= tags.len(),
    ensures
        with_tags(f, tags, n) == f + quoted_list(tags.take(n)),
    decreases n,
{
    if n == 0 {
        assert(with_tags(f, tags, n) =~= f + quoted_list(tags.take(n)));
    } else {
        lemma_tags_are_a_list(f, tags, n - 1);
        let some = tags.take(n);
        assert(some.drop_last() =~= tags.take(n - 1));
        assert(some.last() == tags[n - 1]);
        assert(with_tags(f, tags, n) =~= f + quoted_list(some));
    }
}

proof fn lemma_line_behind(f: Seq<char>, front: Seq<char>, line: Seq<char>)
    ensures
        (f + front + line).push('\n') == f + (front + line + seq!['\n']),
{
    assert((f + front + line).push('\n') =~= f + (front + line + seq!['\n']));
}

proof fn lemma_param_line(
    f: Seq<char>,
    id: u32,
    value: Seq<char>,
    note: Option<(Seq<char>, Seq<char>)>,
)
    ensures
        ({
            let start = f + decimal(id as nat) + " = "@ + value;
            f + param_line(id, value, note) == match note {
                Some((name, unit)) => if unit.len() == 0 {
                    start + "   # "@ + name
                } else {
                    start + "   # "@ + name + " ("@ + unit + ")"@
                },
                None => start,
            }
        }),
{
    let d = decimal(id as nat);
    let head = d + " = "@ + value;
    lemma_behind(f, d, " = "@, value);
    match note {
        None => {
            lemma_nothing(head);
        },
        Some((name, unit)) => {
            let mark = "   # "@ + name;
            lemma_behind(f + head, "   # "@, name, Seq::empty());
            lemma_nothing(f + head + "   # "@ + name);
            lemma_nothing(mark);
            if unit.len() == 0 {
                lemma_behind(f, head, mark, Seq::empty());
                lemma_nothing(f + head + mark);
                lemma_nothing(head + mark);
            } else {
                let of = " ("@ + unit + ")"@;
                lemma_behind(f + head + mark, " ("@, unit, ")"@);
                lemma_behind(f, head, mark, of);
                assert(head + mark + of =~= head + (mark + of));
            }
        },
    }
}

proof fn lemma_params_are_lines(
    f: Seq<char>,
    params: Seq<(u32, String)>,
    raws: Seq<RawAnnotation>,
    n: int,
)
    requires
        0 <= n <= params.len(),
    ensures
        with_params(f, params, raws, n) == f + joined(param_lines(params, raws).take(n)),
    decreases n,
{
    let lines = param_lines(params, raws);
    if n == 0 {
        assert(with_params(f, params, raws, n) =~= f + joined(lines.take(n)));
    } else {
        lemma_params_are_lines(f, params, raws, n - 1);
        assert(lines.take(n).drop_last() =~= lines.take(n - 1));
        assert(lines.take(n).last() == lines[n - 1]);
        let (id, value) = (params[n - 1].0, params[n - 1].1@);
        let note = annotation_of(raws, raws.len() as int, id);
        lemma_param_line(with_params(f, params, raws, n - 1), id, value, note);
        lemma_line_behind(f, joined(lines.take(n - 1)), param_line(id, value, note));
    }
}

/// A preset's own data is what its text decodes to, without its white space; an empty text
/// is no data. Where it does not decode, the words name the file and the reason.
pub proof fn law_own_data_is_decoded(path: Seq<char>, text: Seq<char>)
    ensures
        text.len() == 0 ==> (extra_of(path, text) matches Ok(bytes) && bytes.len() == 0),
        text.len() > 0 ==> match base64_decoded(compact(text)) {
            Ok(bytes) => extra_of(path, text) == Ok::<Seq<u8>, Seq<char>>(bytes),
            Err(reason) => extra_of(path, text) == Err::<Seq<u8>, Seq<char>>(
                path + ": `extra` is not valid base64: "@ + reason,
            ),
        },
{
}

/// A text ends with another where that one is its end.
pub proof fn law_endings_stand_at_the_end(front: Seq<char>, end: Seq<char>, s: Seq<char>)
    ensures
        ends_with(front + end, end),
        ends_with(s, end) ==> s == s.take(s.len() - end.len()) + end,
{
    assert((front + end).skip(front.len() as int) =~= end);
    if ends_with(s, end) {
        let n = s.len() - end.len();
        assert(s =~= s.take(n) + s.skip(n));
    }
}

/// The notes of side-car files are those of each file's list of parameters, file by file:
/// of each entry its number, its name and its unit. A file without such a list has none.
pub proof fn law_notes_come_file_by_file(contents: Seq<String>, n: int)
    requires
        0 < n <= contents.len(),
    ensures
        sidecar_rows(contents, 0).len() == 0,
        match toml_rows(contents[n - 1]@, "param"@, "id"@, "name"@, "unit"@) {
            Some(rows) => sidecar_rows(contents, n) == sidecar_rows(contents, n - 1) + rows,
            None => sidecar_rows(contents, n) == sidecar_rows(contents, n - 1),
        },
{
    assert(sidecar_rows(contents, n - 1) + Seq::<RawView>::empty() =~= sidecar_rows(
        contents,
        n - 1,
    ));
}

/// Files are read one after the other, each by its own path, until one cannot be read: all
/// of them where all can be.
pub proof fn law_files_are_read_in_turn<F: Fn(&str) -> Result<AuthoredPreset, String>>(
    read: F,
    paths: Seq<Seq<char>>,
    reads: Seq<Result<AuthoredPreset, String>>,
    i: int,
)
    requires
        read_in_turn(read, paths, reads),
        0 <= i < reads.len(),
    ensures
        reads.len() <= paths.len(),
        exists|p: &str| p@ == paths[i] && #[trigger] call_ensures(read, (p,), reads[i]),
        reads[i] is Err ==> i == reads.len() - 1,
        (forall|k: int| 0 <= k < reads.len() ==> (#[trigger] reads[k]) is Ok) ==> reads.len()
            == paths.len(),
{
    assert(read_as(read, paths[i], reads[i]));
}

/// `r` is what reading a preset file gives.
pub open spec fn read_of(
    file: PresetFile,
    path: &str,
    content: &str,
    stem: &str,
    directory: Option<&str>,
    minted: Option<&str>,
    r: PresetRead,
) -> bool {
    &&& file.uuid@.len() == 0 && minted is None ==> r.rewrite is None && (r.preset matches Err(e)
        && e@ == path@ + ": missing `uuid` field (run `cargo truce install` once to stamp one)"@)
    &&& file.uuid@.len() > 0 || minted is Some ==> {
        &&& match r.rewrite {
            Some(text) => file.uuid@.len() == 0 && text@ == "uuid = \""@ + (minted->0)@ + "\"\n"@
                + content@,
            None => file.uuid@.len() > 0,
        }
        &&& match params_error(path@, file.params@, file.params@.len() as int) {
            Some(text) => r.preset matches Err(e) && e@ == text,
            None => match extra_of(path@, file.extra@) {
                Err(text) => r.preset matches Err(e) && e@ == text,
                Ok(bytes) => r.preset matches Ok(p) && {
                    &&& p.meta.uuid@ == if file.uuid@.len() > 0 {
                        file.uuid@
                    } else {
                        (minted->0)@
                    }
                    &&& p.meta.name == file.name
                    &&& p.meta.category@ == category_of(file.category, directory)
                    &&& p.meta.author == file.author
                    &&& p.meta.comment == file.comment
                    &&& p.meta.tags == file.tags
                    &&& p.meta.default == file.default
                    &&& p.params@ == params_read(file.params@)
                    &&& p.extra@ == bytes
                    &&& p.stem@ == stem@
                    &&& p.path@ == path@
                },
            },
        }
    }
}

/// A file with an identity of its own keeps it and is never rewritten, whatever was
/// minted for it. One without is stamped, in front of all that it held, with what the
/// preset then goes by; and where nothing was minted, it is refused and left alone. What
/// the file says of its preset is what the preset holds.
pub proof fn law_presets_keep_what_their_files_say(
    file: PresetFile,
    path: &str,
    content: &str,
    stem: &str,
    directory: Option<&str>,
    minted: Option<&str>,
    r: PresetRead,
)
    requires
        read_of(file, path, content, stem, directory, minted, r),
    ensures
        file.uuid@.len() > 0 ==> r.rewrite is None,
        file.uuid@.len() == 0 && minted is Some ==> r.rewrite is Some,
        file.uuid@.len() == 0 && minted is None ==> r.rewrite is None && r.preset is Err,
        r.rewrite matches Some(text) ==> {
            &&& minted is Some
            &&& content@.len() <= text@.len()
            &&& text@.skip(text@.len() - content@.len()) == content@
            &&& text@.take(text@.len() - content@.len()) == "uuid = \""@ + (minted->0)@ + "\"\n"@
        },
        r.preset matches Ok(p) ==> {
            &&& file.uuid@.len() > 0 ==> p.meta.uuid@ == file.uuid@
            &&& file.uuid@.len() == 0 ==> minted is Some && p.meta.uuid@ == (minted->0)@
            &&& p.meta.name == file.name && p.meta.author == file.author
            &&& p.meta.comment == file.comment && p.meta.tags == file.tags
            &&& p.meta.default == file.default
            &&& p.stem@ == stem@ && p.path@ == path@
            &&& p.params@.len() == file.params@.len()
        },
{
    if let Some(text) = r.rewrite {
        let head = "uuid = \""@ + (minted->0)@ + "\"\n"@;
        assert(text@ == head + content@);
        assert(text@.skip(head.len() as int) =~= content@);
        assert(text@.take(head.len() as int) =~= head);
    }
}

} // verus!
