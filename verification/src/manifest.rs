//! The build manifest: which bundles a build produced, for which target and
//! profile.
use crate::text::{push_decimal, decimal, str_eq};
use vstd::prelude::*;
use vstd::string::*;

verus! {

/// Version of the manifest's layout.
pub const SCHEMA_VERSION: u32 = 2;

/// What a build produced.
#[derive(Debug)]
pub struct BundleManifest {
    pub schema_version: u32,
    pub target_triple: String,
    pub profile: String,
    pub bundles: Vec<BundleEntry>,
}

/// One bundle: a plugin in one format.
#[derive(Debug, PartialEq, Eq)]
pub struct BundleEntry {
    pub plugin_crate: String,
    pub plugin_name: String,
    pub plugin_bundle_id: String,
    pub format: String,
    pub filename: String,
}

/// What identifies a bundle: its plugin's crate and its format.
pub open spec fn key(entry: BundleEntry) -> (Seq<char>, Seq<char>) {
    (entry.plugin_crate@, entry.format@)
}

/// The entries that are not the bundle `k`, in their order.
pub open spec fn without(entries: Seq<BundleEntry>, k: (Seq<char>, Seq<char>)) -> Seq<
    BundleEntry,
> {
    entries.filter(|e: BundleEntry| key(e) != k)
}

/// The entries with others merged in, one after the other: each replaces the
/// entry of its bundle, and goes to the end.
pub open spec fn merged(entries: Seq<BundleEntry>, incoming: Seq<BundleEntry>) -> Seq<BundleEntry>
    decreases incoming.len(),
{
    if incoming.len() == 0 {
        entries
    } else {
        without(merged(entries, incoming.drop_last()), key(incoming.last())).push(incoming.last())
    }
}

/// A manifest is what merging `incoming` into `before` comes to.
pub open spec fn merges_to(
    before: BundleManifest,
    incoming: BundleManifest,
    after: BundleManifest,
) -> bool {
    if before.target_triple@ == incoming.target_triple@ && before.profile@ == incoming.profile@ {
        &&& after.bundles@ == merged(before.bundles@, incoming.bundles@)
        &&& after.target_triple == before.target_triple
        &&& after.profile == before.profile
        &&& after.schema_version == before.schema_version
    } else {
        after == incoming
    }
}

/// No bundle is listed twice.
pub open spec fn keys_distinct(entries: Seq<BundleEntry>) -> bool {
    forall|i: int, j: int|
        0 <= i < j < entries.len() ==> key(#[trigger] entries[i]) != key(#[trigger] entries[j])
}

/// Some entry lists the bundle `k`.
pub open spec fn lists(entries: Seq<BundleEntry>, k: (Seq<char>, Seq<char>)) -> bool {
    exists|i: int| 0 <= i < entries.len() && key(#[trigger] entries[i]) == k
}

/// The entries of one plugin, in their order.
pub open spec fn of_plugin(entries: Seq<BundleEntry>, plugin_crate: Seq<char>) -> Seq<
    BundleEntry,
> {
    entries.filter(|e: BundleEntry| e.plugin_crate@ == plugin_crate)
}

/// A manifest that was looked for in a directory.
#[derive(Debug)]
pub enum LoadOutcome {
    /// It could not be read, for this reason.
    Unreadable(String),
    /// It did not parse, for this reason.
    Unparsed(String),
    Parsed(BundleManifest),
}

/// The manifest's path in a directory, with the platform's separator.
pub open spec fn path_in(bundles_dir: Seq<char>, separator: char) -> Seq<char> {
    if bundles_dir.len() == 0 {
        "manifest.toml"@
    } else if bundles_dir.last() == separator {
        bundles_dir + "manifest.toml"@
    } else {
        bundles_dir.push(separator) + "manifest.toml"@
    }
}

/// Why a manifest was refused.
pub open spec fn refusal(path: Seq<char>, outcome: LoadOutcome) -> Option<Seq<char>> {
    match outcome {
        LoadOutcome::Unreadable(e) => Some(
            "no build manifest at "@ + path + ": "@ + e@
                + "\nRun `cargo truce build` first to produce bundles."@,
        ),
        LoadOutcome::Unparsed(e) => Some(
            "failed to parse build manifest at "@ + path + ": "@ + e@,
        ),
        LoadOutcome::Parsed(m) => if m.schema_version != SCHEMA_VERSION {
            Some(
                "build manifest at "@ + path + " has schema_version "@ + decimal(
                    m.schema_version as nat,
                ) + " (expected "@ + decimal(SCHEMA_VERSION as nat)
                    + "). Re-run `cargo truce build`."@,
            )
        } else {
            None
        },
    }
}

fn same_key(a: &BundleEntry, b: &BundleEntry) -> (r: bool)
    ensures
        r == (key(*a) == key(*b)),
{
    str_eq(a.plugin_crate.as_str(), b.plugin_crate.as_str()) && str_eq(
        a.format.as_str(),
        b.format.as_str(),
    )
}

impl BundleManifest {
    /// A manifest without bundles.
    #[must_use]
    pub fn new(target_triple: String, profile: String) -> (r: Self)
        ensures
            r.schema_version == SCHEMA_VERSION,
            r.target_triple == target_triple,
            r.profile == profile,
            r.bundles@ == Seq::<BundleEntry>::empty(),
    {
        BundleManifest {
            schema_version: SCHEMA_VERSION,
            target_triple,
            profile,
            bundles: Vec::new(),
        }
    }

    #[must_use]
    pub fn manifest_path(bundles_dir: &str, separator: char) -> (r: String)
        ensures
            r@ == path_in(bundles_dir@, separator),
    {
        let mut r: String = bundles_dir.to_owned();
        let n: usize = bundles_dir.unicode_len();
        if n > 0 {
            if bundles_dir.get_char(n - 1) != separator {
                r.push(separator);
            }
        }
        r.append("manifest.toml");
        proof {
            if n == 0 {
                assert(bundles_dir@ + "manifest.toml"@ =~= "manifest.toml"@);
            }
        }
        r
    }

    /// Takes what was found at the manifest's place: the manifest, or in words why
    /// it is none that can be used.
    pub fn load(bundles_dir: &str, separator: char, outcome: LoadOutcome) -> (r: Result<
        BundleManifest,
        String,
    >)
        ensures
            match refusal(path_in(bundles_dir@, separator), outcome) {
                Some(text) => r matches Err(e) && e@ == text,
                None => r matches Ok(m) && outcome == LoadOutcome::Parsed(m),
            },
    {
        let path: String = BundleManifest::manifest_path(bundles_dir, separator);
        match outcome {
            LoadOutcome::Unreadable(e) => {
                let mut text: String = "no build manifest at ".to_owned();
                text.append(path.as_str());
                text.append(": ");
                text.append(e.as_str());
                text.append("\nRun `cargo truce build` first to produce bundles.");
                Err(text)
            },
            LoadOutcome::Unparsed(e) => {
                let mut text: String = "failed to parse build manifest at ".to_owned();
                text.append(path.as_str());
                text.append(": ");
                text.append(e.as_str());
                Err(text)
            },
            LoadOutcome::Parsed(m) => {
                if m.schema_version != SCHEMA_VERSION {
                    let mut text: String = "build manifest at ".to_owned();
                    text.append(path.as_str());
                    text.append(" has schema_version ");
                    push_decimal(&mut text, m.schema_version as u64);
                    text.append(" (expected ");
                    push_decimal(&mut text, SCHEMA_VERSION as u64);
                    text.append("). Re-run `cargo truce build`.");
                    return Err(text);
                }
                Ok(m)
            },
        }
    }

    /// As [`BundleManifest::load`], but a manifest that is not there is no error.
    pub fn load_if_present(
        bundles_dir: &str,
        separator: char,
        found: Option<LoadOutcome>,
    ) -> (r: Result<Option<BundleManifest>, String>)
        ensures
            match found {
                None => r == Ok::<Option<BundleManifest>, String>(None),
                Some(outcome) => match refusal(path_in(bundles_dir@, separator), outcome) {
                    Some(text) => r matches Err(e) && e@ == text,
                    None => r matches Ok(Some(m)) && outcome == LoadOutcome::Parsed(m),
                },
            },
    {
        match found {
            None => Ok(None),
            Some(outcome) => match BundleManifest::load(bundles_dir, separator, outcome) {
                Ok(m) => Ok(Some(m)),
                Err(e) => Err(e),
            },
        }
    }

    /// Merges another build's manifest in. One for another target or profile
    /// replaces this one whole; otherwise each of its bundles replaces the entry
    /// of that bundle.
    pub fn merge(&mut self, incoming: BundleManifest)
        ensures
            merges_to(*old(self), incoming, *final(self)),
    {
        if !str_eq(self.target_triple.as_str(), incoming.target_triple.as_str()) || !str_eq(
            self.profile.as_str(),
            incoming.profile.as_str(),
        ) {
            *self = incoming;
            return ;
        }
        let ghost start = self.bundles@;
        let ghost all = incoming.bundles@;
        let mut rest: Vec<BundleEntry> = incoming.bundles;
        let ghost mut done: int = 0;
        proof {
            assert(all.skip(0) =~= all);
            assert(all.take(0) =~= Seq::empty());
        }
        while rest.len() > 0
            invariant
                0 <= done <= all.len(),
                rest@ == all.skip(done),
                self.bundles@ == merged(start, all.take(done)),
                self.target_triple == old(self).target_triple,
                self.profile == old(self).profile,
                self.schema_version == old(self).schema_version,
            decreases all.len() - done,
        {
            let entry: BundleEntry = rest.remove(0);
            proof {
                assert(rest@ =~= all.skip(done + 1));
                assert(all.take(done + 1).drop_last() =~= all.take(done));
                assert(all.take(done + 1).last() == entry);
            }
            self.remove_bundle(&entry);
            self.bundles.push(entry);
            proof {
                done = done + 1;
            }
        }
        proof {
            assert(all.take(done) =~= all);
        }
    }

    /// Takes out every entry of the bundle that `entry` is of.
    fn remove_bundle(&mut self, entry: &BundleEntry)
        ensures
            final(self).bundles@ == without(old(self).bundles@, key(*entry)),
            final(self).target_triple == old(self).target_triple,
            final(self).profile == old(self).profile,
            final(self).schema_version == old(self).schema_version,
    {
        let ghost start = self.bundles@;
        let ghost keep = |e: BundleEntry| key(e) != key(*entry);
        let mut i: usize = 0;
        let ghost mut seen: int = 0;
        proof {
            reveal(Seq::filter);
            assert(start.take(0).filter(keep) =~= Seq::empty());
            assert(start.skip(0) =~= start);
            assert(self.bundles@.take(0) =~= Seq::empty());
        }
        while i < self.bundles.len()
            invariant
                keep == (|e: BundleEntry| key(e) != key(*entry)),
                0 <= seen <= start.len(),
                i <= self.bundles@.len(),
                self.bundles@.skip(i as int) == start.skip(seen),
                self.bundles@.take(i as int) == start.take(seen).filter(keep),
                self.target_triple == old(self).target_triple,
                self.profile == old(self).profile,
                self.schema_version == old(self).schema_version,
            decreases start.len() - seen,
        {
            let ghost before = self.bundles@;
            proof {
                reveal(Seq::filter);
                assert(before.skip(i as int).len() == before.len() - i);
                assert(start.skip(seen).len() == start.len() - seen);
                assert(before.skip(i as int)[0] == start.skip(seen)[0]);
                assert(before[i as int] == start[seen]);
                assert(start.take(seen + 1).drop_last() =~= start.take(seen));
                assert(before.skip(i as int).skip(1) =~= start.skip(seen + 1));
            }
            if same_key(&self.bundles[i], entry) {
                let _ = self.bundles.remove(i);
                proof {
                    assert(self.bundles@.take(i as int) =~= before.take(i as int));
                    assert(self.bundles@.skip(i as int) =~= before.skip(i as int).skip(1));
                }
            } else {
                i = i + 1;
                proof {
                    assert(before.take(i as int) =~= before.take(i - 1).push(before[i - 1]));
                    assert(before.skip(i as int) =~= before.skip(i - 1).skip(1));
                }
            }
            proof {
                seen = seen + 1;
            }
        }
        proof {
            assert(self.bundles@.skip(i as int).len() == 0);
            assert(start.skip(seen).len() == start.len() - seen);
            assert(start.take(seen) =~= start);
            assert(self.bundles@.take(i as int) =~= self.bundles@);
        }
    }

    /// The bundles of a plugin, in their order.
    pub fn bundles_for_plugin<'a>(&'a self, plugin_crate: &str) -> (r: Vec<&'a BundleEntry>)
        ensures
            r@.len() == of_plugin(self.bundles@, plugin_crate@).len(),
            forall|i: int|
                0 <= i < r@.len() ==> *(#[trigger] r@[i]) == of_plugin(
                    self.bundles@,
                    plugin_crate@,
                )[i],
    {
        let mut r: Vec<&'a BundleEntry> = Vec::new();
        let ghost mine = |e: BundleEntry| e.plugin_crate@ == plugin_crate@;
        let mut i: usize = 0;
        proof {
            reveal(Seq::filter);
            assert(self.bundles@.take(0).filter(mine) =~= Seq::empty());
        }
        while i < self.bundles.len()
            invariant
                i <= self.bundles@.len(),
                mine == (|e: BundleEntry| e.plugin_crate@ == plugin_crate@),
                r@.len() == self.bundles@.take(i as int).filter(mine).len(),
                forall|k: int|
                    0 <= k < r@.len() ==> *(#[trigger] r@[k]) == self.bundles@.take(
                        i as int,
                    ).filter(mine)[k],
            decreases self.bundles@.len() - i,
        {
            proof {
                reveal(Seq::filter);
                assert(self.bundles@.take(i + 1).drop_last() =~= self.bundles@.take(i as int));
            }
            if str_eq(self.bundles[i].plugin_crate.as_str(), plugin_crate) {
                r.push(&self.bundles[i]);
            }
            i = i + 1;
        }
        proof {
            assert(self.bundles@.take(i as int) =~= self.bundles@);
        }
        r
    }
}

/// Says in words why a manifest could not be written; the path is missing where
/// it could not even be serialised.
pub fn save_error(path: Option<&str>, reason: &str) -> (r: String)
    ensures
        r@ == match path {
            None => "failed to serialize build manifest: "@ + reason@,
            Some(p) => "failed to write build manifest at "@ + p@ + ": "@ + reason@,
        },
{
    match path {
        None => {
            let mut r: String = "failed to serialize build manifest: ".to_owned();
            r.append(reason);
            r
        },
        Some(p) => {
            let mut r: String = "failed to write build manifest at ".to_owned();
            r.append(p);
            r.append(": ");
            r.append(reason);
            r
        },
    }
}

proof fn lemma_without_distinct(entries: Seq<BundleEntry>, k: (Seq<char>, Seq<char>))
    requires
        keys_distinct(entries),
    ensures
        keys_distinct(without(entries, k)),
        !lists(without(entries, k), k),
        forall|other: (Seq<char>, Seq<char>)|
            other != k && lists(entries, other) ==> #[trigger] lists(without(entries, k), other),
        forall|other: (Seq<char>, Seq<char>)| #[trigger]
            lists(without(entries, k), other) ==> lists(entries, other),
    decreases entries.len(),
{
    reveal(Seq::filter);
    let keep = |e: BundleEntry| key(e) != k;
    let out = without(entries, k);
    if entries.len() > 0 {
        let front = entries.drop_last();
        let last = entries.last();
        assert(keys_distinct(front)) by {
            assert forall|i: int, j: int| 0 <= i < j < front.len() implies key(
                #[trigger] front[i],
            ) != key(#[trigger] front[j]) by {
                assert(front[i] == entries[i] && front[j] == entries[j]);
            }
        }
        lemma_without_distinct(front, k);
        let before = without(front, k);
        assert forall|other: (Seq<char>, Seq<char>)| #[trigger] lists(out, other) implies lists(
            entries,
            other,
        ) by {
            let i = choose|i: int| 0 <= i < out.len() && key(#[trigger] out[i]) == other;
            if i < before.len() {
                assert(before[i] == out[i]);
                assert(lists(before, other));
                let m = choose|m: int| 0 <= m < front.len() && key(#[trigger] front[m]) == other;
                assert(entries[m] == front[m]);
            } else {
                assert(entries[entries.len() - 1] == last);
            }
        }
        assert forall|other: (Seq<char>, Seq<char>)| other != k && lists(entries, other) implies
            #[trigger] lists(out, other) by {
            let m = choose|m: int| 0 <= m < entries.len() && key(#[trigger] entries[m]) == other;
            if m < front.len() {
                assert(front[m] == entries[m]);
                assert(lists(front, other));
                assert(lists(before, other));
                let i = choose|i: int| 0 <= i < before.len() && key(#[trigger] before[i]) == other;
                assert(out[i] == before[i]);
            } else {
                assert(out[out.len() - 1] == last);
            }
        }
        assert(!lists(out, k)) by {
            if lists(out, k) {
                let i = choose|i: int| 0 <= i < out.len() && key(#[trigger] out[i]) == k;
                if i < before.len() {
                    assert(before[i] == out[i]);
                    assert(lists(before, k));
                }
            }
        }
        assert forall|i: int, j: int| 0 <= i < j < out.len() implies key(#[trigger] out[i]) != key(
            #[trigger] out[j],
        ) by {
            assert(out[i] == before[i]);
            if j < before.len() {
                assert(out[j] == before[j]);
            } else {
                assert(lists(before, key(before[i])));
                assert(lists(front, key(before[i])));
                let m = choose|m: int|
                    0 <= m < front.len() && key(#[trigger] front[m]) == key(before[i]);
                assert(entries[m] == front[m] && entries[entries.len() - 1] == last);
            }
        }
    }
}

/// Merging keeps every bundle listed at most once; what it lists is what either
/// manifest listed.
pub proof fn law_merge_keeps_bundles_distinct(
    entries: Seq<BundleEntry>,
    incoming: Seq<BundleEntry>,
)
    requires
        keys_distinct(entries),
    ensures
        keys_distinct(merged(entries, incoming)),
        forall|k: (Seq<char>, Seq<char>)| #[trigger]
            lists(merged(entries, incoming), k) <==> lists(entries, k) || lists(incoming, k),
    decreases incoming.len(),
{
    if incoming.len() > 0 {
        let front = incoming.drop_last();
        let last = incoming.last();
        law_merge_keeps_bundles_distinct(entries, front);
        let before = merged(entries, front);
        let kept = without(before, key(last));
        let out = merged(entries, incoming);
        lemma_without_distinct(before, key(last));
        assert(out == kept.push(last));
        assert forall|i: int, j: int| 0 <= i < j < out.len() implies key(#[trigger] out[i]) != key(
            #[trigger] out[j],
        ) by {
            assert(out[i] == kept[i]);
            if j < kept.len() {
                assert(out[j] == kept[j]);
            } else if key(kept[i]) == key(last) {
                assert(lists(kept, key(last)));
            }
        }
        assert forall|k: (Seq<char>, Seq<char>)| #[trigger] lists(out, k) <==> lists(entries, k)
            || lists(incoming, k) by {
            if lists(out, k) {
                let i = choose|i: int| 0 <= i < out.len() && key(#[trigger] out[i]) == k;
                if i < kept.len() {
                    assert(kept[i] == out[i]);
                    assert(lists(kept, k));
                    assert(lists(before, k));
                    if lists(front, k) {
                        let m = choose|m: int|
                            0 <= m < front.len() && key(#[trigger] front[m]) == k;
                        assert(incoming[m] == front[m]);
                    }
                } else {
                    assert(incoming[incoming.len() - 1] == last);
                }
            }
            if lists(entries, k) || lists(incoming, k) {
                if k == key(last) {
                    assert(out[out.len() - 1] == last);
                } else {
                    if lists(incoming, k) {
                        let m = choose|m: int|
                            0 <= m < incoming.len() && key(#[trigger] incoming[m]) == k;
                        assert(front[m] == incoming[m]);
                        assert(lists(front, k));
                    }
                    assert(lists(before, k));
                    assert(lists(kept, k));
                    let i = choose|i: int| 0 <= i < kept.len() && key(#[trigger] kept[i]) == k;
                    assert(out[i] == kept[i]);
                }
            }
        }
    } else {
        assert forall|k: (Seq<char>, Seq<char>)| #[trigger] lists(
            merged(entries, incoming),
            k,
        ) <==> lists(entries, k) || lists(incoming, k) by {}
    }
}

/// The entries of bundles that `others` does not list, in their order.
pub open spec fn unlisted(entries: Seq<BundleEntry>, others: Seq<BundleEntry>) -> Seq<
    BundleEntry,
> {
    entries.filter(|e: BundleEntry| !lists(others, key(e)))
}

proof fn lemma_filter_twice(
    entries: Seq<BundleEntry>,
    first: spec_fn(BundleEntry) -> bool,
    second: spec_fn(BundleEntry) -> bool,
    both: spec_fn(BundleEntry) -> bool,
)
    requires
        forall|e: BundleEntry| #[trigger] both(e) == (first(e) && second(e)),
    ensures
        entries.filter(first).filter(second) == entries.filter(both),
    decreases entries.len(),
{
    reveal(Seq::filter);
    if entries.len() > 0 {
        let front = entries.drop_last();
        let last = entries.last();
        lemma_filter_twice(front, first, second, both);
        assert(both(last) == (first(last) && second(last)));
        if first(last) {
            assert(entries.filter(first) == front.filter(first).push(last));
            assert(front.filter(first).push(last).drop_last() =~= front.filter(first));
        }
    }
}

proof fn lemma_filter_whole(entries: Seq<BundleEntry>, keep: spec_fn(BundleEntry) -> bool)
    ensures
        (forall|i: int| 0 <= i < entries.len() ==> keep(#[trigger] entries[i])) ==> entries.filter(
            keep,
        ) == entries,
        (forall|i: int| 0 <= i < entries.len() ==> !keep(#[trigger] entries[i])) ==> entries.filter(
            keep,
        ) == Seq::<BundleEntry>::empty(),
    decreases entries.len(),
{
    reveal(Seq::filter);
    if entries.len() > 0 {
        let front = entries.drop_last();
        lemma_filter_whole(front, keep);
        assert(forall|i: int| 0 <= i < front.len() ==> #[trigger] front[i] == entries[i]);
        assert(entries[entries.len() - 1] == entries.last());
        assert(front.push(entries.last()) =~= entries);
    } else {
        assert(entries =~= Seq::empty());
    }
}

/// Where no bundle comes in twice, a merge keeps what is not replaced, and what came
/// in follows it.
pub proof fn law_merge_appends_the_incoming(
    entries: Seq<BundleEntry>,
    incoming: Seq<BundleEntry>,
)
    requires
        keys_distinct(incoming),
    ensures
        merged(entries, incoming) == unlisted(entries, incoming) + incoming,
    decreases incoming.len(),
{
    let keep = |e: BundleEntry| !lists(incoming, key(e));
    if incoming.len() == 0 {
        lemma_filter_whole(entries, keep);
        assert(entries + incoming =~= entries);
    } else {
        let front = incoming.drop_last();
        let last = incoming.last();
        let k = key(last);
        let spared = |e: BundleEntry| !lists(front, key(e));
        let other = |e: BundleEntry| key(e) != k;
        assert forall|i: int, j: int| 0 <= i < j < front.len() implies key(#[trigger] front[i])
            != key(#[trigger] front[j]) by {
            assert(front[i] == incoming[i] && front[j] == incoming[j]);
        }
        law_merge_appends_the_incoming(entries, front);
        assert forall|e: BundleEntry| #[trigger] keep(e) == (spared(e) && other(e)) by {
            if lists(incoming, key(e)) && key(e) != k {
                let m = choose|m: int|
                    0 <= m < incoming.len() && key(#[trigger] incoming[m]) == key(e);
                assert(front[m] == incoming[m]);
            }
            if lists(front, key(e)) {
                let m = choose|m: int| 0 <= m < front.len() && key(#[trigger] front[m]) == key(e);
                assert(incoming[m] == front[m]);
            }
            assert(incoming[incoming.len() - 1] == last);
        }
        Seq::filter_distributes_over_add(unlisted(entries, front), front, other);
        lemma_filter_twice(entries, spared, other, keep);
        assert forall|i: int| 0 <= i < front.len() implies other(#[trigger] front[i]) by {
            assert(front[i] == incoming[i] && incoming[incoming.len() - 1] == last);
        }
        lemma_filter_whole(front, other);
        assert((unlisted(entries, incoming) + front).push(last) =~= unlisted(entries, incoming)
            + incoming);
    }
}

/// Merging the same entries in once more changes nothing, where they list no bundle
/// twice; neither does merging entries into themselves.
pub proof fn law_repeated_entries_change_nothing(
    entries: Seq<BundleEntry>,
    incoming: Seq<BundleEntry>,
)
    requires
        keys_distinct(incoming),
    ensures
        merged(merged(entries, incoming), incoming) == merged(entries, incoming),
        merged(incoming, incoming) == incoming,
{
    let keep = |e: BundleEntry| !lists(incoming, key(e));
    let kept = unlisted(entries, incoming);
    law_merge_appends_the_incoming(entries, incoming);
    law_merge_appends_the_incoming(kept + incoming, incoming);
    law_merge_appends_the_incoming(incoming, incoming);
    Seq::filter_distributes_over_add(kept, incoming, keep);
    lemma_filter_twice(entries, keep, keep, keep);
    assert forall|i: int| 0 <= i < incoming.len() implies !keep(#[trigger] incoming[i]) by {
        assert(lists(incoming, key(incoming[i])));
    }
    lemma_filter_whole(incoming, keep);
    assert(kept + Seq::<BundleEntry>::empty() =~= kept);
    assert(Seq::<BundleEntry>::empty() + incoming =~= incoming);
}

/// Merging a manifest in once more changes nothing, where it lists no bundle twice. What
/// listed no bundle twice before lists none twice afterwards.
pub proof fn law_repeated_merge_changes_nothing(
    before: BundleManifest,
    incoming: BundleManifest,
    once: BundleManifest,
    twice: BundleManifest,
)
    requires
        keys_distinct(incoming.bundles@),
        merges_to(before, incoming, once),
        merges_to(once, incoming, twice),
    ensures
        twice.bundles@ == once.bundles@,
        twice.target_triple == once.target_triple,
        twice.profile == once.profile,
        twice.schema_version == once.schema_version,
        keys_distinct(before.bundles@) ==> keys_distinct(once.bundles@),
{
    law_repeated_entries_change_nothing(before.bundles@, incoming.bundles@);
    if keys_distinct(before.bundles@) {
        law_merge_keeps_bundles_distinct(before.bundles@, incoming.bundles@);
    }
}

/// The newest entry of a bundle wins: the last one merged in is in the result.
pub proof fn law_newest_entry_wins(entries: Seq<BundleEntry>, incoming: Seq<BundleEntry>)
    requires
        incoming.len() > 0,
    ensures
        merged(entries, incoming).last() == incoming.last(),
        merged(entries, incoming).len() > 0,
{
}

/// The target that a bundle is built for on the machine that builds it.
pub open spec fn triple_of(os: Seq<char>, arch: Seq<char>) -> Seq<char> {
    let x86 = arch == "x86_64"@;
    let arm = arch == "aarch64"@;
    if os == "linux"@ && x86 {
        "x86_64-unknown-linux-gnu"@
    } else if os == "linux"@ && arm {
        "aarch64-unknown-linux-gnu"@
    } else if os == "macos"@ && x86 {
        "x86_64-apple-darwin"@
    } else if os == "macos"@ && arm {
        "aarch64-apple-darwin"@
    } else if os == "windows"@ && x86 {
        "x86_64-pc-windows-msvc"@
    } else if os == "windows"@ && arm {
        "aarch64-pc-windows-msvc"@
    } else {
        "unknown"@
    }
}

/// Names the target of the machine with this system and processor.
#[must_use]
pub fn host_triple(os: &str, arch: &str) -> (r: &'static str)
    ensures
        r@ == triple_of(os@, arch@),
{
    let x86: bool = str_eq(arch, "x86_64");
    let arm: bool = str_eq(arch, "aarch64");
    if str_eq(os, "linux") && x86 {
        "x86_64-unknown-linux-gnu"
    } else if str_eq(os, "linux") && arm {
        "aarch64-unknown-linux-gnu"
    } else if str_eq(os, "macos") && x86 {
        "x86_64-apple-darwin"
    } else if str_eq(os, "macos") && arm {
        "aarch64-apple-darwin"
    } else if str_eq(os, "windows") && x86 {
        "x86_64-pc-windows-msvc"
    } else if str_eq(os, "windows") && arm {
        "aarch64-pc-windows-msvc"
    } else {
        "unknown"
    }
}

/// A bundle is a plugin's crate in a format: two entries are of one bundle exactly where
/// both are the same. What is left without a bundle are the entries of the others, and a
/// plugin's bundles are the entries of its crate, in their order.
pub proof fn law_bundles_are_crates_in_formats(
    entries: Seq<BundleEntry>,
    a: BundleEntry,
    b: BundleEntry,
)
    ensures
        key(a) == key(b) <==> a.plugin_crate@ == b.plugin_crate@ && a.format@ == b.format@,
        without(entries.push(a), key(b)) == if a.plugin_crate@ == b.plugin_crate@ && a.format@
            == b.format@ {
            without(entries, key(b))
        } else {
            without(entries, key(b)).push(a)
        },
        without(Seq::empty(), key(b)).len() == 0,
        of_plugin(entries.push(a), b.plugin_crate@) == if a.plugin_crate@ == b.plugin_crate@ {
            of_plugin(entries, b.plugin_crate@).push(a)
        } else {
            of_plugin(entries, b.plugin_crate@)
        },
        of_plugin(Seq::empty(), b.plugin_crate@).len() == 0,
{
    reveal(Seq::filter);
    assert(entries.push(a).drop_last() =~= entries);
}

/// A manifest lies in its directory under its own name, behind one separator.
pub proof fn law_manifest_lies_in_its_directory(dir: Seq<char>, separator: char)
    ensures
        dir.len() == 0 ==> path_in(dir, separator) == "manifest.toml"@,
        dir.len() > 0 && dir.last() != separator ==> path_in(dir, separator) == dir + seq![
            separator,
        ] + "manifest.toml"@,
        dir.len() > 0 && dir.last() == separator ==> path_in(dir, separator) == dir
            + "manifest.toml"@,
{
    assert(dir.push(separator) =~= dir + seq![separator]);
}

/// A manifest is taken exactly where it parsed and is of version two; every refusal names
/// its path and the reason.
pub proof fn law_only_manifests_of_this_version_are_taken(
    path: Seq<char>,
    m: BundleManifest,
    reason: String,
)
    ensures
        m.schema_version == 2 ==> refusal(path, LoadOutcome::Parsed(m)) is None,
        m.schema_version != 2 ==> refusal(path, LoadOutcome::Parsed(m)) == Some(
            "build manifest at "@ + path + " has schema_version "@ + decimal(
                m.schema_version as nat,
            ) + " (expected "@ + decimal(2) + "). Re-run `cargo truce build`."@,
        ),
        refusal(path, LoadOutcome::Unreadable(reason)) == Some(
            "no build manifest at "@ + path + ": "@ + reason@
                + "\nRun `cargo truce build` first to produce bundles."@,
        ),
        refusal(path, LoadOutcome::Unparsed(reason)) == Some(
            "failed to parse build manifest at "@ + path + ": "@ + reason@,
        ),
{
}

/// A machine's target is that of its system and its processor; of one that is not known it
/// has no name.
pub proof fn law_targets_go_by_system_and_processor(os: Seq<char>, arch: Seq<char>)
    ensures
        triple_of("linux"@, "x86_64"@) == "x86_64-unknown-linux-gnu"@,
        triple_of("linux"@, "aarch64"@) == "aarch64-unknown-linux-gnu"@,
        triple_of("macos"@, "x86_64"@) == "x86_64-apple-darwin"@,
        triple_of("macos"@, "aarch64"@) == "aarch64-apple-darwin"@,
        triple_of("windows"@, "x86_64"@) == "x86_64-pc-windows-msvc"@,
        triple_of("windows"@, "aarch64"@) == "aarch64-pc-windows-msvc"@,
        !(os == "linux"@ || os == "macos"@ || os == "windows"@) || !(arch == "x86_64"@ || arch
            == "aarch64"@) ==> triple_of(os, arch) == "unknown"@,
{
    reveal_strlit("linux");
    reveal_strlit("macos");
    reveal_strlit("windows");
    reveal_strlit("x86_64");
    reveal_strlit("aarch64");
    assert("linux"@[0] == 'l' && "macos"@[0] == 'm' && "windows"@[0] == 'w');
    assert("x86_64"@[0] == 'x' && "aarch64"@[0] == 'a');
}

} // verus!
