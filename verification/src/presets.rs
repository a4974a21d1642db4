//! Presets at run time: where they lie, how a scope is listed, and the list of
//! factory presets that a host is shown.
//!
//! A directory is a tree of entries, as it was read; each directory's entries are
//! visited in the order of their names. The names of vendor and plugin that are called
//! safe stand as they are in paths and addresses: what a file name cannot hold was
//! taken out of them before. Both come from the same safe names, so that a plugin's
//! paths and addresses agree.
use crate::lv2::views;
use crate::name_order::{
    in_name_order, law_name_order, law_one_name_comes_first, name_before, name_order, places,
    sort_names, texts,
};
use crate::preset_library::PresetMeta;
use crate::text::{has_nul, str_eq};
use vstd::prelude::*;
use vstd::string::*;

verus! {

/// The extension of a preset file.
pub const PRESET_FILE_EXT: &'static str = "trucepreset";

/// How many directories deep a scope is walked.
pub const MAX_WALK_DEPTH: usize = 6;

/// Where a preset lives: in the plugin's bundle, in the user's directory, or in a
/// pack below that.
#[derive(Debug, Clone, Copy, PartialEq, Eq, Structural)]
pub enum PresetScope {
    Factory,
    User,
    Pack,
}

/// A preset that was found.
#[derive(Debug)]
pub struct PresetRef {
    pub uuid: String,
    pub uri: String,
    pub name: String,
    pub category: Option<String>,
    pub author: Option<String>,
    pub comment: Option<String>,
    pub tags: Vec<String>,
    pub default: bool,
    pub scope: PresetScope,
    pub path: String,
}

/// A file as it was found: `meta` is what it says of itself, where it could be read
/// and is a preset.
#[derive(Debug)]
pub struct FoundFile {
    /// Its name in its directory, as the system has it.
    pub file_name: Vec<u8>,
    pub path: String,
    pub extension: Option<String>,
    pub meta: Option<PresetMeta>,
}

/// A directory as it was found.
#[derive(Debug)]
pub struct FoundDir {
    /// Its name in the directory above, as the system has it.
    pub file_name: Vec<u8>,
    /// Its name as a text, where it is one.
    pub name: Option<String>,
    pub entries: Vec<FoundEntry>,
}

/// An entry of a directory.
#[derive(Debug)]
pub enum FoundEntry {
    File(FoundFile),
    Dir(FoundDir),
}

/// The kinds of system that keep presets in different places.
#[derive(Debug, Clone, Copy, PartialEq, Eq, Structural)]
pub enum HostSystem {
    MacOs,
    Windows,
    Unix,
}

/// The directories that the environment names.
#[derive(Debug)]
pub struct UserDirs {
    pub home: Option<String>,
    pub app_data: Option<String>,
    pub data_home: Option<String>,
}

/// The parts of the path to a plugin's presets of the user.
pub open spec fn preset_root(
    system: HostSystem,
    dirs: UserDirs,
    safe_vendor: Seq<char>,
    safe_plugin: Seq<char>,
) -> Option<Seq<Seq<char>>> {
    match system {
        HostSystem::MacOs => match dirs.home {
            Some(home) => Some(
                seq![home@, "Library/Audio/Presets/truce"@, safe_vendor, safe_plugin],
            ),
            None => None,
        },
        HostSystem::Windows => match dirs.app_data {
            Some(app_data) => Some(
                seq![app_data@, "truce"@, safe_vendor, safe_plugin, "presets"@],
            ),
            None => None,
        },
        HostSystem::Unix => match dirs.data_home {
            Some(data_home) => Some(
                seq![data_home@, "truce"@, safe_vendor, safe_plugin, "presets"@],
            ),
            None => match dirs.home {
                Some(home) => Some(
                    seq![home@, ".local/share"@, "truce"@, safe_vendor, safe_plugin, "presets"@],
                ),
                None => None,
            },
        },
    }
}

/// The parts of the path to a plugin's presets of the user, one directory for every
/// format; nothing where the environment does not name the directory above it. Both
/// names are safe ones: they were made safe as file names before.
pub fn user_preset_root(
    system: HostSystem,
    dirs: UserDirs,
    safe_vendor: &str,
    safe_plugin: &str,
) -> (r: Option<Vec<String>>)
    ensures
        match r {
            Some(parts) => preset_root(system, dirs, safe_vendor@, safe_plugin@) == Some(
                views(parts@),
            ),
            None => preset_root(system, dirs, safe_vendor@, safe_plugin@) is None,
        },
{
    let ghost expected = preset_root(system, dirs, safe_vendor@, safe_plugin@);
    let mut parts: Vec<String> = Vec::new();
    match system {
        HostSystem::MacOs => {
            match dirs.home {
                Some(home) => parts.push(home),
                None => return None,
            }
            parts.push("Library/Audio/Presets/truce".to_owned());
            parts.push(safe_vendor.to_owned());
            parts.push(safe_plugin.to_owned());
        },
        HostSystem::Windows => {
            match dirs.app_data {
                Some(app_data) => parts.push(app_data),
                None => return None,
            }
            parts.push("truce".to_owned());
            parts.push(safe_vendor.to_owned());
            parts.push(safe_plugin.to_owned());
            parts.push("presets".to_owned());
        },
        HostSystem::Unix => {
            match dirs.data_home {
                Some(data_home) => parts.push(data_home),
                None => match dirs.home {
                    Some(home) => {
                        parts.push(home);
                        parts.push(".local/share".to_owned());
                    },
                    None => return None,
                },
            }
            parts.push("truce".to_owned());
            parts.push(safe_vendor.to_owned());
            parts.push(safe_plugin.to_owned());
            parts.push("presets".to_owned());
        },
    }
    proof {
        assert(views(parts@) =~= expected->0);
    }
    Some(parts)
}

/// The stable address of a preset.
pub open spec fn preset_uri_text(
    safe_vendor: Seq<char>,
    safe_plugin: Seq<char>,
    uuid: Seq<char>,
) -> Seq<char> {
    "truce-preset://"@ + safe_vendor + "/"@ + safe_plugin + "/"@ + uuid
}

/// The stable address of a preset, made of its identity: moving or renaming its
/// file does not change it. Both names are safe ones, the same as in
/// [`user_preset_root`]: they were made safe as file names before.
#[must_use]
pub fn preset_uri(safe_vendor: &str, safe_plugin: &str, uuid: &str) -> (r: String)
    ensures
        r@ == preset_uri_text(safe_vendor@, safe_plugin@, uuid@),
{
    let mut uri: String = "truce-preset://".to_owned();
    uri.append(safe_vendor);
    uri.append("/");
    uri.append(safe_plugin);
    uri.append("/");
    uri.append(uuid);
    uri
}

/// A text that may be missing.
pub open spec fn optional(s: Option<String>) -> Option<Seq<char>> {
    match s {
        Some(t) => Some(t@),
        None => None,
    }
}

/// A text that counts as missing where it is empty.
pub open spec fn unless_empty(s: Seq<char>) -> Option<Seq<char>> {
    if s.len() > 0 {
        Some(s)
    } else {
        None
    }
}

/// Whether a reference says of a preset what its file says.
pub open spec fn refers_to(
    preset: PresetRef,
    meta: PresetMeta,
    path: Seq<char>,
    directory: Option<Seq<char>>,
    scope: PresetScope,
    safe_vendor: Seq<char>,
    safe_plugin: Seq<char>,
) -> bool {
    &&& preset.uuid@ == meta.uuid@
    &&& preset.uri@ == preset_uri_text(safe_vendor, safe_plugin, meta.uuid@)
    &&& preset.name@ == meta.name@
    &&& optional(preset.category) == if meta.category@.len() > 0 {
        Some(meta.category@)
    } else {
        directory
    }
    &&& optional(preset.author) == unless_empty(meta.author@)
    &&& optional(preset.comment) == unless_empty(meta.comment@)
    &&& views(preset.tags@) == views(meta.tags@)
    &&& preset.default == meta.default
    &&& preset.scope == scope
    &&& preset.path@ == path
}

fn none_if_empty(s: &String) -> (r: Option<String>)
    ensures
        optional(r) == unless_empty(s@),
{
    if s.as_str().is_empty() {
        None
    } else {
        Some(s.clone())
    }
}

fn copy_texts(texts: &Vec<String>) -> (r: Vec<String>)
    ensures
        views(r@) == views(texts@),
{
    let mut r: Vec<String> = Vec::new();
    let mut i: usize = 0;
    while i < texts.len()
        invariant
            i <= texts@.len(),
            r@.len() == i,
            forall|k: int| 0 <= k < i ==> (#[trigger] r@[k])@ == texts@[k]@,
        decreases texts@.len() - i,
    {
        r.push(texts[i].clone());
        i = i + 1;
    }
    proof {
        assert(views(r@) =~= views(texts@));
    }
    r
}

/// Refers to a preset file. `directory` is the name of the directory that it lies
/// in, where that is below the root of a scope; a file that is read on its own, or
/// lies in the root itself, gets none. Nothing where the file is no preset. Both names
/// are safe ones, as in [`preset_uri`].
#[must_use]
pub fn read_preset_ref(
    directory: Option<&str>,
    file: &FoundFile,
    scope: PresetScope,
    safe_vendor: &str,
    safe_plugin: &str,
) -> (r: Option<PresetRef>)
    ensures
        match (r, file.meta) {
            (Some(preset), Some(meta)) => refers_to(
                preset,
                meta,
                file.path@,
                match directory {
                    Some(d) => Some(d@),
                    None => None,
                },
                scope,
                safe_vendor@,
                safe_plugin@,
            ),
            (None, None) => true,
            _ => false,
        },
{
    let meta: &PresetMeta = match &file.meta {
        Some(meta) => meta,
        None => return None,
    };
    let category: Option<String> = if meta.category.as_str().is_empty() {
        match directory {
            Some(d) => Some(d.to_owned()),
            None => None,
        }
    } else {
        Some(meta.category.clone())
    };
    Some(
        PresetRef {
            uuid: meta.uuid.clone(),
            uri: preset_uri(safe_vendor, safe_plugin, meta.uuid.as_str()),
            name: meta.name.clone(),
            category,
            author: none_if_empty(&meta.author),
            comment: none_if_empty(&meta.comment),
            tags: copy_texts(&meta.tags),
            default: meta.default,
            scope,
            path: file.path.clone(),
        },
    )
}

/// Whether a file is listed: it has the extension of a preset, and is one.
pub open spec fn is_listed(file: FoundFile) -> bool {
    (file.extension matches Some(e) && e@ == PRESET_FILE_EXT@) && file.meta is Some
}

/// The name of an entry in its directory.
pub open spec fn entry_name(entry: FoundEntry) -> Seq<u8> {
    match entry {
        FoundEntry::File(file) => file.file_name@,
        FoundEntry::Dir(below) => below.file_name@,
    }
}

/// The names of a directory's entries, as they were read.
pub open spec fn names_in(dir: FoundDir) -> Seq<Seq<u8>> {
    dir.entries@.map_values(|entry: FoundEntry| entry_name(entry))
}

/// The entry of a directory that is visited after `n` others: the order is that of the
/// names.
pub open spec fn visited(dir: FoundDir, n: int) -> FoundEntry {
    dir.entries@[name_order(names_in(dir))[n]]
}

/// The places of a directory's entries in the order in which they are visited.
fn visiting_order(dir: &FoundDir) -> (r: Vec<usize>)
    ensures
        r@.len() == dir.entries@.len(),
        forall|n: int|
            0 <= n < r@.len() ==> (#[trigger] r@[n]) < dir.entries@.len()
                && dir.entries@[r@[n] as int] == visited(*dir, n),
{
    let mut names: Vec<&Vec<u8>> = Vec::with_capacity(dir.entries.len());
    let mut i: usize = 0;
    while i < dir.entries.len()
        invariant
            i <= dir.entries@.len(),
            texts(names@) == names_in(*dir).take(i as int),
        decreases dir.entries@.len() - i,
    {
        let ghost before = texts(names@);
        let name: &Vec<u8> = match &dir.entries[i] {
            FoundEntry::File(file) => &file.file_name,
            FoundEntry::Dir(below) => &below.file_name,
        };
        names.push(name);
        proof {
            assert(texts(names@) =~= before.push(name@));
            assert(names_in(*dir).take(i + 1) =~= names_in(*dir).take(i as int).push(
                entry_name(dir.entries@[i as int]),
            ));
        }
        i = i + 1;
    }
    let r: Vec<usize> = sort_names(&names);
    proof {
        assert(names_in(*dir).take(i as int) =~= names_in(*dir));
        let order = places(r@);
        assert forall|n: int| 0 <= n < r@.len() implies (#[trigger] r@[n]) < dir.entries@.len()
            && dir.entries@[r@[n] as int] == visited(*dir, n) by {
            assert(order[n] == r@[n]);
        }
    }
    r
}

/// Each directory's entries are visited in the order of their names: each of them once,
/// and none before one whose name comes first.
pub proof fn law_entries_are_visited_in_name_order(dir: FoundDir)
    ensures
        in_name_order(names_in(dir), name_order(names_in(dir))),
        forall|k: int|
            0 <= k < dir.entries@.len() ==> exists|n: int|
                0 <= n < dir.entries@.len() && #[trigger] visited(dir, n)
                    == #[trigger] dir.entries@[k],
        forall|m: int, n: int|
            0 <= m < n < dir.entries@.len() ==> !name_before(
                entry_name(#[trigger] visited(dir, n)),
                entry_name(#[trigger] visited(dir, m)),
            ),
{
    let names = names_in(dir);
    let order = name_order(names);
    law_name_order(names);
    assert forall|k: int| 0 <= k < dir.entries@.len() implies exists|n: int|
        0 <= n < dir.entries@.len() && #[trigger] visited(dir, n) == #[trigger] dir.entries@[k] by {
        assert(order.contains(k));
        let n = choose|n: int| 0 <= n < order.len() && order[n] == k;
        assert(visited(dir, n) == dir.entries@[k]);
    }
    assert forall|m: int, n: int| 0 <= m < n < dir.entries@.len() implies !name_before(
        entry_name(#[trigger] visited(dir, n)),
        entry_name(#[trigger] visited(dir, m)),
    ) by {
        assert(0 <= order[m] < names.len() && 0 <= order[n] < names.len());
        assert(names[order[m]] == entry_name(visited(dir, m)));
        assert(names[order[n]] == entry_name(visited(dir, n)));
        law_one_name_comes_first(names[order[m]], names[order[n]]);
    }
}

/// A listed file and the name of its directory, where that counts as a category.
pub type Listed = (FoundFile, Option<Seq<char>>);

/// The files that a walk through a directory lists, in order.
pub open spec fn listed(dir: FoundDir, depth: nat) -> Seq<Listed>
    decreases 8 - depth, dir.entries@.len() + 1,
{
    if depth > MAX_WALK_DEPTH {
        Seq::empty()
    } else {
        listed_entries(dir, dir.entries@.len() as int, depth)
    }
}

/// Those among the first `n` entries of a directory that are visited, and below them.
/// A directory below the root gives its files a category.
pub open spec fn listed_entries(dir: FoundDir, n: int, depth: nat) -> Seq<Listed>
    decreases 8 - depth, n,
{
    if n <= 0 || depth > MAX_WALK_DEPTH {
        Seq::empty()
    } else {
        listed_entries(dir, n - 1, depth) + match visited(dir, n - 1) {
            FoundEntry::File(file) => if is_listed(file) {
                seq![
                    (
                        file,
                        if depth > 0 {
                            optional(dir.name)
                        } else {
                            None
                        },
                    ),
                ]
            } else {
                Seq::empty()
            },
            FoundEntry::Dir(below) => listed(below, depth + 1),
        }
    }
}

/// Whether references say of some files what they say of themselves.
pub open spec fn refer_to_all(
    refs: Seq<PresetRef>,
    files: Seq<Listed>,
    scope: PresetScope,
    safe_vendor: Seq<char>,
    safe_plugin: Seq<char>,
) -> bool {
    &&& refs.len() == files.len()
    &&& forall|i: int|
        0 <= i < refs.len() ==> refers_to(
            #[trigger] refs[i],
            files[i].0.meta->0,
            files[i].0.path@,
            files[i].1,
            scope,
            safe_vendor,
            safe_plugin,
        )
}

fn walk(
    dir: &FoundDir,
    depth: usize,
    scope: PresetScope,
    safe_vendor: &str,
    safe_plugin: &str,
    out: &mut Vec<PresetRef>,
    Ghost(before): Ghost<Seq<Listed>>,
)
    requires
        depth <= MAX_WALK_DEPTH + 1,
        refer_to_all(old(out)@, before, scope, safe_vendor@, safe_plugin@),
    ensures
        refer_to_all(
            final(out)@,
            before + listed(*dir, depth as nat),
            scope,
            safe_vendor@,
            safe_plugin@,
        ),
    decreases MAX_WALK_DEPTH + 1 - depth,
{
    if depth > MAX_WALK_DEPTH {
        proof {
            assert(before + listed(*dir, depth as nat) =~= before);
        }
        return ;
    }
    let order: Vec<usize> = visiting_order(dir);
    let mut i: usize = 0;
    proof {
        assert(before + listed_entries(*dir, 0, depth as nat) =~= before);
    }
    while i < order.len()
        invariant
            i <= order@.len(),
            order@.len() == dir.entries@.len(),
            forall|n: int|
                0 <= n < order@.len() ==> (#[trigger] order@[n]) < dir.entries@.len()
                    && dir.entries@[order@[n] as int] == visited(*dir, n),
            depth <= MAX_WALK_DEPTH,
            refer_to_all(
                out@,
                before + listed_entries(*dir, i as int, depth as nat),
                scope,
                safe_vendor@,
                safe_plugin@,
            ),
        decreases order@.len() - i,
    {
        let ghost so_far = before + listed_entries(*dir, i as int, depth as nat);
        match &dir.entries[order[i]] {
            FoundEntry::File(file) => {
                let is_preset: bool = match &file.extension {
                    Some(e) => str_eq(e.as_str(), PRESET_FILE_EXT),
                    None => false,
                };
                let directory: Option<&str> = if depth > 0 {
                    match &dir.name {
                        Some(name) => Some(name.as_str()),
                        None => None,
                    }
                } else {
                    None
                };
                if is_preset {
                    if let Some(preset) = read_preset_ref(
                        directory,
                        file,
                        scope,
                        safe_vendor,
                        safe_plugin,
                    ) {
                        out.push(preset);
                    }
                }
                proof {
                    let next = before + listed_entries(*dir, i + 1, depth as nat);
                    if is_listed(*file) {
                        let d: Option<Seq<char>> = if depth > 0 {
                            optional(dir.name)
                        } else {
                            None
                        };
                        assert(next =~= so_far.push((*file, d)));
                    } else {
                        assert(next =~= so_far);
                    }
                }
            },
            FoundEntry::Dir(below) => {
                walk(below, depth + 1, scope, safe_vendor, safe_plugin, out, Ghost(so_far));
                proof {
                    assert(so_far + listed(*below, depth as nat + 1) =~= before + listed_entries(
                        *dir,
                        i + 1,
                        depth as nat,
                    ));
                }
            },
        }
        i = i + 1;
    }
}

/// Lists the presets below the root of a scope; each directory's entries are visited in
/// the order of their names. Files that are no presets are passed over, and a root that
/// does not exist has none. Both names are safe ones, as in [`preset_uri`].
#[must_use]
pub fn enumerate_scope(
    root: Option<&FoundDir>,
    scope: PresetScope,
    safe_vendor: &str,
    safe_plugin: &str,
) -> (r: Vec<PresetRef>)
    ensures
        match root {
            Some(dir) => refer_to_all(r@, listed(*dir, 0), scope, safe_vendor@, safe_plugin@),
            None => r@.len() == 0,
        },
{
    let mut out: Vec<PresetRef> = Vec::new();
    if let Some(dir) = root {
        walk(dir, 0, scope, safe_vendor, safe_plugin, &mut out, Ghost(Seq::empty()));
        proof {
            assert(Seq::<Listed>::empty() + listed(*dir, 0) =~= listed(*dir, 0));
        }
    }
    out
}

/// A file that was found: the names on the way to it from the directory that is
/// walked, its own last, and its path.
pub type FoundPath = (Seq<Seq<u8>>, Seq<char>);

/// Files below a directory with this name, seen from the directory above it.
pub open spec fn under(name: Seq<u8>, files: Seq<FoundPath>) -> Seq<FoundPath> {
    files.map_values(|file: FoundPath| (seq![name] + file.0, file.1))
}

/// The paths of some files.
pub open spec fn paths_of(files: Seq<FoundPath>) -> Seq<Seq<char>> {
    files.map_values(|file: FoundPath| file.1)
}

/// The files with an extension that a walk through a directory finds, in order.
pub open spec fn files_below(dir: FoundDir, extension: Seq<char>, depth: nat) -> Seq<FoundPath>
    decreases 8 - depth, dir.entries@.len() + 1,
{
    if depth > MAX_WALK_DEPTH {
        Seq::empty()
    } else {
        files_among(dir, dir.entries@.len() as int, extension, depth)
    }
}

/// Those among the first `n` entries of a directory that are visited, and below them.
pub open spec fn files_among(dir: FoundDir, n: int, extension: Seq<char>, depth: nat) -> Seq<
    FoundPath,
>
    decreases 8 - depth, n,
{
    if n <= 0 || depth > MAX_WALK_DEPTH {
        Seq::empty()
    } else {
        files_among(dir, n - 1, extension, depth) + files_at(visited(dir, n - 1), extension, depth)
    }
}

/// Those that one entry comes to.
pub open spec fn files_at(entry: FoundEntry, extension: Seq<char>, depth: nat) -> Seq<FoundPath>
    decreases 8 - depth, 0int,
{
    if depth > MAX_WALK_DEPTH {
        Seq::empty()
    } else {
        match entry {
            FoundEntry::File(file) => if file.extension matches Some(e) && e@ == extension {
                seq![(seq![file.file_name@], file.path@)]
            } else {
                Seq::empty()
            },
            FoundEntry::Dir(below) => under(
                below.file_name@,
                files_below(below, extension, depth + 1),
            ),
        }
    }
}

/// Collects the paths of the files with an extension, in the order of their paths, down
/// to the depth at which walks end.
pub fn collect_preset_files(dir: &FoundDir, extension: &str, depth: usize, out: &mut Vec<String>)
    ensures
        views(final(out)@) == views(old(out)@) + paths_of(
            files_below(*dir, extension@, depth as nat),
        ),
    decreases MAX_WALK_DEPTH + 1 - depth,
{
    if depth > MAX_WALK_DEPTH {
        proof {
            assert(views(out@) + paths_of(Seq::<FoundPath>::empty()) =~= views(out@));
        }
        return ;
    }
    let ghost start = views(out@);
    let order: Vec<usize> = visiting_order(dir);
    let mut i: usize = 0;
    proof {
        assert(start + paths_of(files_among(*dir, 0, extension@, depth as nat)) =~= start);
    }
    while i < order.len()
        invariant
            i <= order@.len(),
            order@.len() == dir.entries@.len(),
            forall|n: int|
                0 <= n < order@.len() ==> (#[trigger] order@[n]) < dir.entries@.len()
                    && dir.entries@[order@[n] as int] == visited(*dir, n),
            depth <= MAX_WALK_DEPTH,
            views(out@) == start + paths_of(
                files_among(*dir, i as int, extension@, depth as nat),
            ),
        decreases order@.len() - i,
    {
        let ghost so_far = views(out@);
        let ghost found = files_at(visited(*dir, i as int), extension@, depth as nat);
        proof {
            assert(start + paths_of(files_among(*dir, i + 1, extension@, depth as nat)) =~= so_far
                + paths_of(found));
        }
        match &dir.entries[order[i]] {
            FoundEntry::File(file) => {
                let wanted: bool = match &file.extension {
                    Some(e) => str_eq(e.as_str(), extension),
                    None => false,
                };
                if wanted {
                    out.push(file.path.clone());
                    proof {
                        assert(views(out@) =~= so_far.push(file.path@));
                        assert(so_far + paths_of(found) =~= so_far.push(file.path@));
                    }
                } else {
                    proof {
                        assert(so_far + paths_of(found) =~= so_far);
                    }
                }
            },
            FoundEntry::Dir(below) => {
                collect_preset_files(below, extension, depth + 1, out);
                proof {
                    assert(paths_of(found) =~= paths_of(
                        files_below(*below, extension@, depth as nat + 1),
                    ));
                }
            },
        }
        i = i + 1;
    }
}

/// Whether a path comes before another, name by name; a path comes before those that go
/// on from it.
pub open spec fn path_before(a: Seq<Seq<u8>>, b: Seq<Seq<u8>>) -> bool
    decreases a.len(),
{
    if b.len() == 0 {
        false
    } else if a.len() == 0 {
        true
    } else if a[0] != b[0] {
        name_before(a[0], b[0])
    } else {
        path_before(a.skip(1), b.skip(1))
    }
}

/// No directory has two entries of one name, as far down as walks go.
pub open spec fn names_distinct(dir: FoundDir, depth: nat) -> bool
    decreases 8 - depth,
{
    depth <= MAX_WALK_DEPTH ==> {
        &&& forall|i: int, j: int|
            0 <= i < j < dir.entries@.len() ==> entry_name(#[trigger] dir.entries@[i])
                != entry_name(#[trigger] dir.entries@[j])
        &&& forall|i: int|
            0 <= i < dir.entries@.len() ==> ((#[trigger] dir.entries@[i]) matches FoundEntry::Dir(
                below,
            ) ==> names_distinct(below, depth + 1))
    }
}

/// Files in ascending order of their paths.
pub open spec fn ascending(files: Seq<FoundPath>) -> bool {
    forall|i: int, j: int|
        0 <= i < j < files.len() ==> path_before((#[trigger] files[i]).0, (#[trigger] files[j]).0)
}

/// What a walk finds comes in ascending order of the paths.
pub proof fn law_files_come_in_path_order(dir: FoundDir, extension: Seq<char>, depth: nat)
    requires
        names_distinct(dir, depth),
    ensures
        ascending(files_below(dir, extension, depth)),
    decreases 8 - depth, dir.entries@.len() + 1,
{
    if depth <= MAX_WALK_DEPTH {
        lemma_ascending_among(dir, dir.entries@.len() as int, extension, depth);
    }
}

/// The paths of what one entry comes to start with its name, and ascend.
proof fn lemma_files_at(dir: FoundDir, n: int, extension: Seq<char>, depth: nat)
    requires
        names_distinct(dir, depth),
        depth <= MAX_WALK_DEPTH,
        0 <= n < dir.entries@.len(),
    ensures
        ({
            let files = files_at(visited(dir, n), extension, depth);
            &&& ascending(files)
            &&& forall|i: int|
                0 <= i < files.len() ==> (#[trigger] files[i]).0.len() > 0 && files[i].0[0]
                    == entry_name(visited(dir, n))
        }),
    decreases 8 - depth, 0int,
{
    law_name_order(names_in(dir));
    let k = name_order(names_in(dir))[n];
    let entry = dir.entries@[k];
    assert(entry == visited(dir, n));
    let files = files_at(entry, extension, depth);
    match entry {
        FoundEntry::File(_) => {},
        FoundEntry::Dir(below) => {
            let name = below.file_name@;
            let inner = files_below(below, extension, depth + 1);
            law_files_come_in_path_order(below, extension, depth + 1);
            assert forall|i: int, j: int| 0 <= i < j < files.len() implies path_before(
                (#[trigger] files[i]).0,
                (#[trigger] files[j]).0,
            ) by {
                assert(path_before(inner[i].0, inner[j].0));
                assert(files[i].0.skip(1) =~= inner[i].0);
                assert(files[j].0.skip(1) =~= inner[j].0);
                assert(files[i].0[0] == name && files[j].0[0] == name);
            }
        },
    }
}

proof fn lemma_ascending_among(dir: FoundDir, n: int, extension: Seq<char>, depth: nat)
    requires
        names_distinct(dir, depth),
        depth <= MAX_WALK_DEPTH,
        0 <= n <= dir.entries@.len(),
    ensures
        ({
            let files = files_among(dir, n, extension, depth);
            &&& ascending(files)
            &&& forall|i: int|
                0 <= i < files.len() ==> (#[trigger] files[i]).0.len() > 0 && exists|m: int|
                    0 <= m < n && files[i].0[0] == entry_name(#[trigger] visited(dir, m))
        }),
    decreases 8 - depth, n,
{
    if n > 0 {
        let front = files_among(dir, n - 1, extension, depth);
        let back = files_at(visited(dir, n - 1), extension, depth);
        let files = files_among(dir, n, extension, depth);
        lemma_ascending_among(dir, n - 1, extension, depth);
        lemma_files_at(dir, n - 1, extension, depth);
        assert forall|i: int| 0 <= i < files.len() implies (#[trigger] files[i]).0.len() > 0
            && exists|m: int|
            0 <= m < n && files[i].0[0] == entry_name(#[trigger] visited(dir, m)) by {
            if i < front.len() {
                assert(files[i] == front[i]);
            } else {
                assert(files[i] == back[i - front.len()]);
                assert(files[i].0[0] == entry_name(visited(dir, n - 1)));
            }
        }
        assert forall|i: int, j: int| 0 <= i < j < files.len() implies path_before(
            (#[trigger] files[i]).0,
            (#[trigger] files[j]).0,
        ) by {
            if j < front.len() {
                assert(files[i] == front[i] && files[j] == front[j]);
            } else if i >= front.len() {
                assert(files[i] == back[i - front.len()] && files[j] == back[j - front.len()]);
            } else {
                assert(files[i] == front[i] && files[j] == back[j - front.len()]);
                let m = choose|m: int|
                    0 <= m < n - 1 && front[i].0[0] == entry_name(#[trigger] visited(dir, m));
                lemma_visited_ascend(dir, m, n - 1, depth);
            }
        }
    }
}

/// Where names are distinct, an entry that is visited later has a name that comes later.
proof fn lemma_visited_ascend(dir: FoundDir, m: int, n: int, depth: nat)
    requires
        names_distinct(dir, depth),
        depth <= MAX_WALK_DEPTH,
        0 <= m < n < dir.entries@.len(),
    ensures
        name_before(entry_name(visited(dir, m)), entry_name(visited(dir, n))),
        entry_name(visited(dir, m)) != entry_name(visited(dir, n)),
{
    let names = names_in(dir);
    let order = name_order(names);
    law_name_order(names);
    assert(0 <= order[m] < names.len() && 0 <= order[n] < names.len());
    assert(names[order[m]] == entry_name(dir.entries@[order[m]]));
    assert(names[order[n]] == entry_name(dir.entries@[order[n]]));
    law_one_name_comes_first(names[order[m]], names[order[n]]);
}

/// An entry of the list of factory presets that a host is shown.
#[derive(Debug)]
pub struct FactoryPresetEntry {
    pub name: String,
    pub path: String,
}

/// The name under which a preset is shown in a flat list.
pub open spec fn display_name(preset: PresetRef) -> Seq<char> {
    match preset.category {
        Some(category) => category@ + "/"@ + preset.name@,
        None => preset.name@,
    }
}

/// The entries of the first `n` presets that are the default, or that are not. A
/// preset whose name cannot be handed to a host has none.
pub open spec fn shown(presets: Seq<PresetRef>, n: int, default: bool) -> Seq<
    (Seq<char>, Seq<char>),
>
    decreases n,
{
    if n <= 0 {
        Seq::empty()
    } else {
        let before = shown(presets, n - 1, default);
        let preset = presets[n - 1];
        if preset.default == default && !display_name(preset).contains('\0') {
            before.push((display_name(preset), preset.path@))
        } else {
            before
        }
    }
}

/// The name and the path of each entry.
pub open spec fn entry_views(entries: Seq<FactoryPresetEntry>) -> Seq<(Seq<char>, Seq<char>)> {
    entries.map_values(|e: FactoryPresetEntry| (e.name@, e.path@))
}

fn push_shown(presets: &Vec<PresetRef>, default: bool, out: &mut Vec<FactoryPresetEntry>)
    ensures
        entry_views(final(out)@) == entry_views(old(out)@) + shown(
            presets@,
            presets@.len() as int,
            default,
        ),
{
    let ghost start = entry_views(out@);
    let mut i: usize = 0;
    proof {
        assert(start + shown(presets@, 0, default) =~= start);
    }
    while i < presets.len()
        invariant
            i <= presets@.len(),
            entry_views(out@) == start + shown(presets@, i as int, default),
        decreases presets@.len() - i,
    {
        let preset: &PresetRef = &presets[i];
        let ghost so_far = entry_views(out@);
        let ghost next = start + shown(presets@, i + 1, default);
        if preset.default == default {
            let mut name: String = String::new();
            if let Some(category) = &preset.category {
                name.append(category.as_str());
                name.append("/");
            }
            name.append(preset.name.as_str());
            proof {
                assert(name@ =~= display_name(*preset));
            }
            if !has_nul(name.as_str()) {
                let entry = FactoryPresetEntry { name, path: preset.path.clone() };
                out.push(entry);
                proof {
                    assert(entry_views(out@) =~= so_far.push((entry.name@, entry.path@)));
                    assert(next =~= so_far.push((display_name(*preset), preset.path@)));
                }
            }
        }
        i = i + 1;
    }
}

/// The list of factory presets that a host is shown: the default leads, because
/// hosts start with the first one, and the others keep their order.
pub fn factory_presets(presets: &Vec<PresetRef>) -> (r: Vec<FactoryPresetEntry>)
    ensures
        entry_views(r@) == shown(presets@, presets@.len() as int, true) + shown(
            presets@,
            presets@.len() as int,
            false,
        ),
{
    let mut out: Vec<FactoryPresetEntry> = Vec::new();
    proof {
        assert(entry_views(out@) =~= Seq::empty());
    }
    push_shown(presets, true, &mut out);
    proof {
        assert(entry_views(out@) =~= shown(presets@, presets@.len() as int, true));
    }
    push_shown(presets, false, &mut out);
    out
}

/// The places in which a bundle may keep its factory presets.
#[derive(Debug, Clone, Copy, PartialEq, Eq, Structural)]
pub enum PresetsPlace {
    /// `Resources/Presets` beside the directory that the library lies in.
    AboveResources,
    /// `Resources/Presets` in the directory that the library lies in.
    Resources,
    /// `Presets` in the directory that the library lies in.
    Flat,
}

impl PresetsPlace {
    /// The path of the place, seen from the directory that it is given against.
    pub fn subdirectory(self) -> (r: &'static str)
        ensures
            r@ == match self {
                PresetsPlace::Flat => "Presets"@,
                _ => "Resources/Presets"@,
            },
    {
        match self {
            PresetsPlace::AboveResources => "Resources/Presets",
            PresetsPlace::Resources => "Resources/Presets",
            PresetsPlace::Flat => "Presets",
        }
    }
}

/// Picks the place of a bundle's factory presets: the first, in the order of the
/// places, that is a directory. The first place exists only where there is a
/// directory above the library's.
pub fn component_presets_root(above: Option<bool>, resources: bool, flat: bool) -> (r: Option<
    PresetsPlace,
>)
    ensures
        r == if above == Some(true) {
            Some(PresetsPlace::AboveResources)
        } else if resources {
            Some(PresetsPlace::Resources)
        } else if flat {
            Some(PresetsPlace::Flat)
        } else {
            None
        },
{
    if let Some(is_dir) = above {
        if is_dir {
            return Some(PresetsPlace::AboveResources);
        }
    }
    if resources {
        Some(PresetsPlace::Resources)
    } else if flat {
        Some(PresetsPlace::Flat)
    } else {
        None
    }
}

proof fn lemma_shown_is_default(presets: Seq<PresetRef>, n: int, default: bool, k: int)
    requires
        0 <= n <= presets.len(),
        0 <= k < shown(presets, n, default).len(),
    ensures
        exists|i: int|
            0 <= i < n && (#[trigger] presets[i]).default == default && shown(presets, n, default)[k]
                == (display_name(presets[i]), presets[i].path@),
    decreases n,
{
    if n > 0 {
        let before = shown(presets, n - 1, default);
        if k < before.len() {
            lemma_shown_is_default(presets, n - 1, default, k);
            let i = choose|i: int|
                0 <= i < n - 1 && (#[trigger] presets[i]).default == default && before[k] == (
                    display_name(presets[i]),
                    presets[i].path@,
                );
            assert(presets[i].default == default);
        } else {
            assert(presets[n - 1].default == default);
        }
    }
}

/// Where a library has a default preset that can be shown, a host's first factory
/// preset is a default one.
pub proof fn law_default_leads(presets: Seq<PresetRef>)
    requires
        exists|i: int|
            0 <= i < presets.len() && (#[trigger] presets[i]).default && !display_name(
                presets[i],
            ).contains('\0'),
    ensures
        ({
            let list = shown(presets, presets.len() as int, true) + shown(
                presets,
                presets.len() as int,
                false,
            );
            list.len() > 0 && exists|i: int|
                0 <= i < presets.len() && (#[trigger] presets[i]).default && list[0] == (
                    display_name(presets[i]),
                    presets[i].path@,
                )
        }),
{
    let i = choose|i: int|
        0 <= i < presets.len() && (#[trigger] presets[i]).default && !display_name(
            presets[i],
        ).contains('\0');
    lemma_shown_grows(presets, presets.len() as int, i);
    lemma_shown_is_default(presets, presets.len() as int, true, 0);
}

proof fn lemma_shown_grows(presets: Seq<PresetRef>, n: int, i: int)
    requires
        0 <= i < n <= presets.len(),
        presets[i].default,
        !display_name(presets[i]).contains('\0'),
    ensures
        shown(presets, n, true).len() > 0,
    decreases n,
{
    if i < n - 1 {
        lemma_shown_grows(presets, n - 1, i);
    }
}

/// A user's presets lie where the system keeps such files, below the vendor's and the
/// plugin's name; without the directory that the system names, nowhere.
pub proof fn law_user_presets_lie_below_the_names(
    dirs: UserDirs,
    safe_vendor: Seq<char>,
    safe_plugin: Seq<char>,
)
    ensures
        match dirs.home {
            Some(home) => preset_root(HostSystem::MacOs, dirs, safe_vendor, safe_plugin) == Some(
                seq![home@, "Library/Audio/Presets/truce"@, safe_vendor, safe_plugin],
            ),
            None => preset_root(HostSystem::MacOs, dirs, safe_vendor, safe_plugin) is None,
        },
        match dirs.app_data {
            Some(data) => preset_root(HostSystem::Windows, dirs, safe_vendor, safe_plugin) == Some(
                seq![data@, "truce"@, safe_vendor, safe_plugin, "presets"@],
            ),
            None => preset_root(HostSystem::Windows, dirs, safe_vendor, safe_plugin) is None,
        },
        match (dirs.data_home, dirs.home) {
            (Some(data), _) => preset_root(HostSystem::Unix, dirs, safe_vendor, safe_plugin)
                == Some(seq![data@, "truce"@, safe_vendor, safe_plugin, "presets"@]),
            (None, Some(home)) => preset_root(HostSystem::Unix, dirs, safe_vendor, safe_plugin)
                == Some(
                seq![home@, ".local/share"@, "truce"@, safe_vendor, safe_plugin, "presets"@],
            ),
            (None, None) => preset_root(HostSystem::Unix, dirs, safe_vendor, safe_plugin) is None,
        },
{
}

/// A reference says of a preset what the preset says of itself, and where it was found: its
/// own category wins over its directory, and texts that are empty count as missing.
pub proof fn law_references_say_what_presets_say(
    preset: PresetRef,
    meta: PresetMeta,
    path: Seq<char>,
    directory: Option<Seq<char>>,
    scope: PresetScope,
    safe_vendor: Seq<char>,
    safe_plugin: Seq<char>,
)
    requires
        refers_to(preset, meta, path, directory, scope, safe_vendor, safe_plugin),
    ensures
        preset.uuid@ == meta.uuid@ && preset.name@ == meta.name@ && preset.path@ == path,
        preset.default == meta.default && preset.scope == scope,
        preset.uri@ == "truce-preset://"@ + safe_vendor + "/"@ + safe_plugin + "/"@ + meta.uuid@,
        meta.category@.len() > 0 ==> (preset.category matches Some(c) && c@ == meta.category@),
        meta.category@.len() == 0 ==> match directory {
            Some(d) => preset.category matches Some(c) && c@ == d,
            None => preset.category is None,
        },
        meta.author@.len() > 0 ==> (preset.author matches Some(a) && a@ == meta.author@),
        meta.author@.len() == 0 ==> preset.author is None,
        meta.comment@.len() > 0 ==> (preset.comment matches Some(c) && c@ == meta.comment@),
        meta.comment@.len() == 0 ==> preset.comment is None,
        preset.tags@.len() == meta.tags@.len(),
        forall|i: int| 0 <= i < meta.tags@.len() ==> (#[trigger] preset.tags@[i])@ == meta.tags@[i]@,
{
    assert(views(preset.tags@).len() == views(meta.tags@).len());
    assert forall|i: int| 0 <= i < meta.tags@.len() implies (#[trigger] preset.tags@[i])@
        == meta.tags@[i]@ by {
        assert(views(preset.tags@)[i] == views(meta.tags@)[i]);
    }
}

/// Every preset of a scope is listed, down to the sixth directory below its root: one that
/// lies in a directory, and all that are listed below it. A file is a preset by its
/// extension and by what it holds.
pub proof fn law_every_preset_is_listed(dir: FoundDir, depth: nat, k: int)
    requires
        depth <= 6,
        0 <= k < dir.entries@.len(),
    ensures
        dir.entries@[k] matches FoundEntry::File(file) ==> ((file.extension matches Some(e) && e@
            == "trucepreset"@) && file.meta is Some ==> listed(dir, depth).contains(
            (
                file,
                if depth > 0 {
                    optional(dir.name)
                } else {
                    None
                },
            ),
        )),
        dir.entries@[k] matches FoundEntry::Dir(below) ==> forall|x: Listed|
            listed(below, depth + 1).contains(x) ==> #[trigger] listed(dir, depth).contains(x),
        listed(dir, 7).len() == 0,
{
    law_entries_are_visited_in_name_order(dir);
    let n = choose|n: int|
        0 <= n < dir.entries@.len() && #[trigger] visited(dir, n) == dir.entries@[k];
    assert(visited(dir, n) == dir.entries@[k]);
    let count = dir.entries@.len() as int;
    assert(listed(dir, depth) == listed_entries(dir, count, depth));
    match dir.entries@[k] {
        FoundEntry::File(file) => {
            if is_listed(file) {
                let d: Option<Seq<char>> = if depth > 0 {
                    optional(dir.name)
                } else {
                    None
                };
                let own = seq![(file, d)];
                assert(own[0] == (file, d));
                lemma_listed_among(dir, n, count, depth, (file, d));
            }
        },
        FoundEntry::Dir(below) => {
            assert forall|x: Listed| listed(below, depth + 1).contains(x) implies #[trigger] listed(
                dir,
                depth,
            ).contains(x) by {
                lemma_listed_among(dir, n, count, depth, x);
            }
        },
    }
}

proof fn lemma_listed_among(dir: FoundDir, m: int, n: int, depth: nat, x: Listed)
    requires
        0 <= m < n <= dir.entries@.len(),
        depth <= MAX_WALK_DEPTH,
        match visited(dir, m) {
            FoundEntry::File(file) => is_listed(file) && x == (
                file,
                if depth > 0 {
                    optional(dir.name)
                } else {
                    None
                },
            ),
            FoundEntry::Dir(below) => listed(below, depth + 1).contains(x),
        },
    ensures
        listed_entries(dir, n, depth).contains(x),
    decreases n,
{
    let front = listed_entries(dir, n - 1, depth);
    let all = listed_entries(dir, n, depth);
    if m < n - 1 {
        lemma_listed_among(dir, m, n - 1, depth, x);
        let i = choose|i: int| 0 <= i < front.len() && front[i] == x;
        assert(all[i] == x);
    } else {
        match visited(dir, m) {
            FoundEntry::File(_) => {
                assert(all[front.len() as int] == x);
            },
            FoundEntry::Dir(below) => {
                let own = listed(below, depth + 1);
                let i = choose|i: int| 0 <= i < own.len() && own[i] == x;
                assert(all[front.len() + i] == x);
            },
        }
    }
}

/// Every file with an extension is found, down to the sixth directory below the one that is
/// walked: one that lies in a directory, by its name, and all that are found below it, by
/// the names on the way.
pub proof fn law_every_file_is_found(dir: FoundDir, extension: Seq<char>, depth: nat, k: int)
    requires
        depth <= 6,
        0 <= k < dir.entries@.len(),
    ensures
        dir.entries@[k] matches FoundEntry::File(file) ==> ((file.extension matches Some(e) && e@
            == extension) ==> files_below(dir, extension, depth).contains(
            (seq![file.file_name@], file.path@),
        )),
        dir.entries@[k] matches FoundEntry::Dir(below) ==> forall|x: FoundPath|
            #[trigger]
            files_below(below, extension, depth + 1).contains(x) ==> files_below(
                dir,
                extension,
                depth,
            ).contains((seq![below.file_name@] + x.0, x.1)),
        files_below(dir, extension, 7).len() == 0,
{
    law_entries_are_visited_in_name_order(dir);
    let n = choose|n: int|
        0 <= n < dir.entries@.len() && #[trigger] visited(dir, n) == dir.entries@[k];
    assert(visited(dir, n) == dir.entries@[k]);
    let count = dir.entries@.len() as int;
    let own = files_at(dir.entries@[k], extension, depth);
    match dir.entries@[k] {
        FoundEntry::File(file) => {
            if file.extension matches Some(e) && e@ == extension {
                assert(own[0] == (seq![file.file_name@], file.path@));
                lemma_found_among(
                    dir,
                    n,
                    count,
                    extension,
                    depth,
                    (seq![file.file_name@], file.path@),
                );
            }
        },
        FoundEntry::Dir(below) => {
            let inner = files_below(below, extension, depth + 1);
            assert forall|x: FoundPath| #[trigger] inner.contains(x) implies files_below(
                dir,
                extension,
                depth,
            ).contains((seq![below.file_name@] + x.0, x.1)) by {
                let i = choose|i: int| 0 <= i < inner.len() && inner[i] == x;
                assert(own[i] == (seq![below.file_name@] + x.0, x.1));
                lemma_found_among(
                    dir,
                    n,
                    count,
                    extension,
                    depth,
                    (seq![below.file_name@] + x.0, x.1),
                );
            }
        },
    }
}

proof fn lemma_found_among(
    dir: FoundDir,
    m: int,
    n: int,
    extension: Seq<char>,
    depth: nat,
    x: FoundPath,
)
    requires
        0 <= m < n <= dir.entries@.len(),
        depth <= MAX_WALK_DEPTH,
        files_at(visited(dir, m), extension, depth).contains(x),
    ensures
        files_among(dir, n, extension, depth).contains(x),
    decreases n,
{
    let front = files_among(dir, n - 1, extension, depth);
    let all = files_among(dir, n, extension, depth);
    if m < n - 1 {
        lemma_found_among(dir, m, n - 1, extension, depth, x);
        let i = choose|i: int| 0 <= i < front.len() && front[i] == x;
        assert(all[i] == x);
    } else {
        let own = files_at(visited(dir, m), extension, depth);
        let i = choose|i: int| 0 <= i < own.len() && own[i] == x;
        assert(all[front.len() + i] == x);
    }
}

/// In a flat list a preset goes by its category and its name, and is shown with its own
/// path; the presets of one kind keep their order, and those that a host cannot be shown
/// are left out.
pub proof fn law_presets_are_shown_by_name(presets: Seq<PresetRef>, n: int, default: bool)
    requires
        0 <= n <= presets.len(),
    ensures
        shown(presets, n, default) == presets.take(n).filter(
            |p: PresetRef| p.default == default && !display_name(p).contains('\0'),
        ).map_values(|p: PresetRef| (display_name(p), p.path@)),
        forall|p: PresetRef|
            #[trigger] display_name(p) == match p.category {
                Some(category) => category@ + "/"@ + p.name@,
                None => p.name@,
            },
    decreases n,
{
    reveal(Seq::filter);
    let keep = |p: PresetRef| p.default == default && !display_name(p).contains('\0');
    let entry = |p: PresetRef| (display_name(p), p.path@);
    let some = presets.take(n);
    if n == 0 {
        assert(shown(presets, n, default) =~= some.filter(keep).map_values(entry));
    } else {
        law_presets_are_shown_by_name(presets, n - 1, default);
        let front = presets.take(n - 1);
        assert(some.drop_last() =~= front);
        assert(some.last() == presets[n - 1]);
        if keep(some.last()) {
            assert(some.filter(keep) == front.filter(keep).push(some.last()));
            assert(front.filter(keep).push(some.last()).map_values(entry) =~= front.filter(
                keep,
            ).map_values(entry).push(entry(some.last())));
        } else {
            assert(some.filter(keep) == front.filter(keep));
        }
    }
}

/// A scope's list has one reference for each file that is listed, in the same order, each of
/// its own file.
pub proof fn law_references_are_of_their_files(
    refs: Seq<PresetRef>,
    files: Seq<Listed>,
    scope: PresetScope,
    safe_vendor: Seq<char>,
    safe_plugin: Seq<char>,
    i: int,
)
    requires
        refer_to_all(refs, files, scope, safe_vendor, safe_plugin),
        0 <= i < files.len(),
    ensures
        refs.len() == files.len(),
        refs[i].path@ == files[i].0.path@,
        refs[i].uuid@ == (files[i].0.meta->0).uuid@,
        refs[i].name@ == (files[i].0.meta->0).name@,
        refs[i].default == (files[i].0.meta->0).default,
        refs[i].scope == scope,
{
    assert(refers_to(
        refs[i],
        files[i].0.meta->0,
        files[i].0.path@,
        files[i].1,
        scope,
        safe_vendor,
        safe_plugin,
    ));
}

/// Entries of a list are known by their own names and paths, in their order; so are files
/// by their paths.
pub proof fn law_entries_keep_their_names(
    entries: Seq<FactoryPresetEntry>,
    files: Seq<FoundPath>,
    i: int,
)
    ensures
        entry_views(entries).len() == entries.len(),
        0 <= i < entries.len() ==> entry_views(entries)[i] == (entries[i].name@, entries[i].path@),
        paths_of(files).len() == files.len(),
        0 <= i < files.len() ==> paths_of(files)[i] == files[i].1,
{
}

} // verus!
