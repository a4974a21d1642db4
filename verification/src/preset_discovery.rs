//! Preset discovery in a CLAP host: what the provider tells the host's indexer of
//! where presets lie, and of each preset file.
use crate::text::{c_text, has_nul, str_eq, to_c_text};
use vstd::prelude::*;
use vstd::string::*;

verus! {

/// The kind of location that is a file.
pub const CLAP_PRESET_DISCOVERY_LOCATION_FILE: u32 = 0;

/// The flag of presets that come with the plugin.
pub const CLAP_PRESET_DISCOVERY_IS_FACTORY_CONTENT: u32 = 1;

/// What the provider knows of its plugin, in texts that a host can be handed.
#[derive(Debug)]
pub struct RuntimeInfo {
    pub plugin_id: String,
    pub plugin_name: String,
    pub vendor: String,
    pub provider_id: String,
    pub provider_name: String,
    pub location_name: String,
    pub filetype_name: String,
    pub filetype_description: String,
    pub filetype_extension: String,
    pub sidecar_dir: String,
}

/// Names the directory beside a plugin that holds its presets, where the path to
/// the plugin has a file stem and a directory: that directory and the name in it.
pub fn sidecar_dir_for(plugin_path: &str, stem: Option<&str>, parent: Option<&str>) -> (r: Option<
    (String, String),
>)
    ensures
        match (stem, parent) {
            (Some(s), Some(p)) if plugin_path@.len() > 0 => r matches Some((dir, name)) && dir@
                == p@ && name@ == s@ + ".presets"@,
            _ => r is None,
        },
{
    if plugin_path.is_empty() {
        return None;
    }
    match (stem, parent) {
        (Some(s), Some(p)) => {
            let mut name: String = s.to_owned();
            name.append(".presets");
            Some((p.to_owned(), name))
        },
        _ => None,
    }
}

/// Gathers what the provider knows. A text that cannot be handed to a host is
/// replaced by the empty text.
pub fn build_runtime_info(plugin_id: &str, plugin_name: &str, vendor: &str, sidecar: &str) -> (r:
    RuntimeInfo)
    ensures
        r.plugin_id@ == c_text(plugin_id@),
        r.plugin_name@ == c_text(plugin_name@),
        r.vendor@ == c_text(vendor@),
        r.provider_id@ == c_text(plugin_id@ + ".presets"@),
        r.provider_name@ == c_text(plugin_name@ + " presets"@),
        r.location_name@ == "Factory"@,
        r.filetype_name@ == "CLAP preset"@,
        r.filetype_description@ == "Truce CLAP preset file"@,
        r.filetype_extension@ == "clap-preset"@,
        r.sidecar_dir@ == c_text(sidecar@),
{
    let mut provider_id: String = plugin_id.to_owned();
    provider_id.append(".presets");
    let mut provider_name: String = plugin_name.to_owned();
    provider_name.append(" presets");
    RuntimeInfo {
        plugin_id: to_c_text(plugin_id),
        plugin_name: to_c_text(plugin_name),
        vendor: to_c_text(vendor),
        provider_id: to_c_text(provider_id.as_str()),
        provider_name: to_c_text(provider_name.as_str()),
        location_name: "Factory".to_owned(),
        filetype_name: "CLAP preset".to_owned(),
        filetype_description: "Truce CLAP preset file".to_owned(),
        filetype_extension: "clap-preset".to_owned(),
        sidecar_dir: to_c_text(sidecar),
    }
}

/// The provider's descriptor.
#[derive(Debug)]
pub struct ProviderDescriptor {
    pub id: String,
    pub name: String,
    pub vendor: String,
}

/// How many providers there are: one, once something is known of the plugin.
pub fn factory_count(runtime: Option<&RuntimeInfo>) -> (r: u32)
    ensures
        r == if runtime is Some {
            1u32
        } else {
            0
        },
{
    match runtime {
        Some(_) => 1,
        None => 0,
    }
}

/// Describes the provider at an index.
pub fn factory_get_descriptor(runtime: Option<&RuntimeInfo>, index: u32) -> (r: Option<
    ProviderDescriptor,
>)
    ensures
        match runtime {
            Some(rt) if index == 0 => r matches Some(d) && d.id@ == rt.provider_id@ && d.name@
                == rt.provider_name@ && d.vendor@ == rt.vendor@,
            _ => r is None,
        },
{
    if index != 0 {
        return None;
    }
    match runtime {
        Some(rt) => Some(
            ProviderDescriptor {
                id: rt.provider_id.clone(),
                name: rt.provider_name.clone(),
                vendor: rt.vendor.clone(),
            },
        ),
        None => None,
    }
}

/// Whether a provider is made for a requested identity.
pub fn factory_create(runtime: Option<&RuntimeInfo>, provider_id: Option<&str>) -> (r: bool)
    ensures
        r == match (runtime, provider_id) {
            (Some(rt), Some(id)) => id@ == rt.provider_id@,
            _ => false,
        },
{
    match (runtime, provider_id) {
        (Some(rt), Some(id)) => str_eq(id, rt.provider_id.as_str()),
        _ => false,
    }
}

/// What the host's indexer offers to be told.
#[derive(Debug, Clone, Copy, PartialEq, Eq, Structural)]
pub struct Indexer {
    pub takes_filetypes: bool,
    pub takes_locations: bool,
}

/// What the host's indexer is told.
#[derive(Debug)]
pub struct Declarations {
    /// The name, the description and the extension of the preset files.
    pub filetype: Option<(String, String, String)>,
    /// The flags, the name, the kind and the path of the place with the presets.
    pub location: Option<(u32, String, u32, String)>,
}

/// Starts the provider: tells the host's indexer what preset files look like and
/// where they lie. Without a directory of presets there is nothing to tell, which
/// is no failure.
pub fn provider_init(runtime: Option<&RuntimeInfo>, indexer: Option<Indexer>) -> (r: Option<
    Declarations,
>)
    ensures
        match runtime {
            None => r is None,
            Some(rt) => if rt.sidecar_dir@.len() == 0 {
                r matches Some(d) && d.filetype is None && d.location is None
            } else {
                match indexer {
                    None => r is None,
                    Some(idx) => r matches Some(d) && {
                        &&& match d.filetype {
                            Some((name, description, extension)) => idx.takes_filetypes && name@
                                == rt.filetype_name@ && description@ == rt.filetype_description@
                                && extension@ == rt.filetype_extension@,
                            None => !idx.takes_filetypes,
                        }
                        &&& match d.location {
                            Some((flags, name, kind, path)) => idx.takes_locations && flags
                                == CLAP_PRESET_DISCOVERY_IS_FACTORY_CONTENT && name@
                                == rt.location_name@ && kind == CLAP_PRESET_DISCOVERY_LOCATION_FILE
                                && path@ == rt.sidecar_dir@,
                            None => !idx.takes_locations,
                        }
                    },
                }
            },
        },
{
    let rt: &RuntimeInfo = match runtime {
        Some(rt) => rt,
        None => return None,
    };
    if rt.sidecar_dir.as_str().is_empty() {
        return Some(Declarations { filetype: None, location: None });
    }
    let idx: Indexer = match indexer {
        Some(idx) => idx,
        None => return None,
    };
    let filetype: Option<(String, String, String)> = if idx.takes_filetypes {
        Some(
            (
                rt.filetype_name.clone(),
                rt.filetype_description.clone(),
                rt.filetype_extension.clone(),
            ),
        )
    } else {
        None
    };
    let location: Option<(u32, String, u32, String)> = if idx.takes_locations {
        Some(
            (
                CLAP_PRESET_DISCOVERY_IS_FACTORY_CONTENT,
                rt.location_name.clone(),
                CLAP_PRESET_DISCOVERY_LOCATION_FILE,
                rt.sidecar_dir.clone(),
            ),
        )
    } else {
        None
    };
    Some(Declarations { filetype, location })
}

/// A preset file as it was parsed.
#[derive(Debug)]
pub struct ClapPresetFile {
    pub name: String,
    pub author: Option<String>,
    pub comment: Option<String>,
    pub category: Option<String>,
    pub tags: Vec<String>,
}

/// What the host's receiver of a preset's description offers to be told.
#[derive(Debug, Clone, Copy, PartialEq, Eq, Structural)]
pub struct MetadataReceiver {
    pub begins_presets: bool,
    pub takes_plugin_ids: bool,
    pub takes_flags: bool,
    pub takes_creators: bool,
    pub takes_descriptions: bool,
    pub takes_features: bool,
}

/// Something that the host's receiver is told of a preset.
#[derive(Debug)]
pub enum MetadataCall {
    /// The format and the identity of the plugin that the preset is for.
    PluginId(String, String),
    Flags(u32),
    Creator(String),
    Description(String),
    Feature(String),
}

/// What a receiver is told, by its view.
pub enum MetadataView {
    PluginId(Seq<char>, Seq<char>),
    Flags(u32),
    Creator(Seq<char>),
    Description(Seq<char>),
    Feature(Seq<char>),
}

pub open spec fn call_view(call: MetadataCall) -> MetadataView {
    match call {
        MetadataCall::PluginId(format, id) => MetadataView::PluginId(format@, id@),
        MetadataCall::Flags(flags) => MetadataView::Flags(flags),
        MetadataCall::Creator(text) => MetadataView::Creator(text@),
        MetadataCall::Description(text) => MetadataView::Description(text@),
        MetadataCall::Feature(text) => MetadataView::Feature(text@),
    }
}

/// Some calls, by their views.
pub open spec fn call_views(calls: Seq<MetadataCall>) -> Seq<MetadataView> {
    calls.map_values(|call: MetadataCall| call_view(call))
}

/// One more call, where the receiver takes it.
pub open spec fn told(calls: Seq<MetadataView>, takes: bool, call: MetadataView) -> Seq<
    MetadataView,
> {
    if takes {
        calls.push(call)
    } else {
        calls
    }
}

/// Whether a receiver is told a text: it takes such texts, and the text is there
/// and can be handed to a host.
pub open spec fn is_told(takes: bool, text: Option<String>) -> bool {
    takes && (text matches Some(t) && !t@.contains('\0'))
}

/// The calls for the first `n` tags.
pub open spec fn tag_calls(calls: Seq<MetadataView>, takes: bool, tags: Seq<String>, n: int) -> Seq<
    MetadataView,
>
    decreases n,
{
    if n <= 0 {
        calls
    } else {
        told(
            tag_calls(calls, takes, tags, n - 1),
            is_told(takes, Some(tags[n - 1])),
            MetadataView::Feature(tags[n - 1]@),
        )
    }
}

/// All that a receiver is told of a preset, in order: the plugin that it is for,
/// that it comes with the plugin, its author, what it is like, and as features its
/// category and its tags.
pub open spec fn metadata_calls(
    plugin_id: Seq<char>,
    file: ClapPresetFile,
    receiver: MetadataReceiver,
) -> Seq<MetadataView> {
    let calls = told(
        Seq::empty(),
        receiver.takes_plugin_ids,
        MetadataView::PluginId("clap"@, plugin_id),
    );
    let calls = told(
        calls,
        receiver.takes_flags,
        MetadataView::Flags(CLAP_PRESET_DISCOVERY_IS_FACTORY_CONTENT),
    );
    let calls = told(
        calls,
        is_told(receiver.takes_creators, file.author),
        MetadataView::Creator((file.author->0)@),
    );
    let calls = told(
        calls,
        is_told(receiver.takes_descriptions, file.comment),
        MetadataView::Description((file.comment->0)@),
    );
    let calls = told(
        calls,
        is_told(receiver.takes_features, file.category),
        MetadataView::Feature((file.category->0)@),
    );
    tag_calls(calls, receiver.takes_features, file.tags@, file.tags@.len() as int)
}

/// What is done to describe a preset to a receiver: it is begun under its name,
/// where the receiver begins presets. If it refuses, nothing more is said and the
/// preset counts as not described; else the calls follow.
#[derive(Debug)]
pub struct MetadataPlan {
    pub begin: Option<String>,
    pub calls: Vec<MetadataCall>,
}

fn push_call(calls: &mut Vec<MetadataCall>, call: MetadataCall)
    ensures
        call_views(final(calls)@) == call_views(old(calls)@).push(call_view(call)),
{
    calls.push(call);
    proof {
        assert(call_views(calls@) =~= call_views(old(calls)@).push(call_view(call)));
    }
}

fn sendable(takes: bool, text: &Option<String>) -> (r: Option<String>)
    ensures
        match r {
            Some(t) => is_told(takes, *text) && t@ == (text->0)@,
            None => !is_told(takes, *text),
        },
{
    match text {
        Some(t) => if takes && !has_nul(t.as_str()) {
            Some(t.clone())
        } else {
            None
        },
        None => None,
    }
}

/// Plans how a preset file is described to the host's receiver. Nothing is planned,
/// and the preset counts as not described, where there is no receiver or location,
/// the location is no file, nothing is known of the plugin, or the file could not
/// be read.
pub fn provider_get_metadata(
    runtime: Option<&RuntimeInfo>,
    kind: u32,
    has_location: bool,
    file: Option<&ClapPresetFile>,
    receiver: Option<MetadataReceiver>,
) -> (r: Option<MetadataPlan>)
    ensures
        match (runtime, file, receiver) {
            (Some(rt), Some(f), Some(recv)) if has_location && kind
                == CLAP_PRESET_DISCOVERY_LOCATION_FILE => r matches Some(plan) && {
                &&& match plan.begin {
                    Some(name) => recv.begins_presets && name@ == c_text(f.name@),
                    None => !recv.begins_presets,
                }
                &&& call_views(plan.calls@) == metadata_calls(rt.plugin_id@, *f, recv)
            },
            _ => r is None,
        },
{
    let recv: MetadataReceiver = match receiver {
        Some(recv) if has_location => recv,
        _ => return None,
    };
    if kind != CLAP_PRESET_DISCOVERY_LOCATION_FILE {
        return None;
    }
    let rt: &RuntimeInfo = match runtime {
        Some(rt) => rt,
        None => return None,
    };
    let f: &ClapPresetFile = match file {
        Some(f) => f,
        None => return None,
    };
    let begin: Option<String> = if recv.begins_presets {
        Some(to_c_text(f.name.as_str()))
    } else {
        None
    };
    let mut calls: Vec<MetadataCall> = Vec::new();
    proof {
        assert(call_views(calls@) =~= Seq::empty());
    }
    if recv.takes_plugin_ids {
        push_call(&mut calls, MetadataCall::PluginId("clap".to_owned(), rt.plugin_id.clone()));
    }
    if recv.takes_flags {
        push_call(&mut calls, MetadataCall::Flags(CLAP_PRESET_DISCOVERY_IS_FACTORY_CONTENT));
    }
    if let Some(creator) = sendable(recv.takes_creators, &f.author) {
        push_call(&mut calls, MetadataCall::Creator(creator));
    }
    if let Some(description) = sendable(recv.takes_descriptions, &f.comment) {
        push_call(&mut calls, MetadataCall::Description(description));
    }
    if let Some(category) = sendable(recv.takes_features, &f.category) {
        push_call(&mut calls, MetadataCall::Feature(category));
    }
    let ghost start = call_views(calls@);
    let mut i: usize = 0;
    while i < f.tags.len()
        invariant
            i <= f.tags@.len(),
            call_views(calls@) == tag_calls(start, recv.takes_features, f.tags@, i as int),
        decreases f.tags@.len() - i,
    {
        if recv.takes_features && !has_nul(f.tags[i].as_str()) {
            push_call(&mut calls, MetadataCall::Feature(f.tags[i].clone()));
        }
        i = i + 1;
    }
    Some(MetadataPlan { begin, calls })
}

/// Whether a preset counts as described: something was planned, and it was not
/// refused.
pub fn is_described(plan: Option<&MetadataPlan>, begun: bool) -> (r: bool)
    ensures
        r == match plan {
            Some(p) => p.begin is None || begun,
            None => false,
        },
{
    match plan {
        Some(p) => match &p.begin {
            Some(_) => begun,
            None => true,
        },
        None => false,
    }
}

/// One call, or none.
pub open spec fn one_if(told: bool, call: MetadataView) -> Seq<MetadataView> {
    if told {
        seq![call]
    } else {
        Seq::empty()
    }
}

/// A text can be handed to a host.
pub open spec fn sayable(text: Option<String>) -> bool {
    text matches Some(t) && !t@.contains('\0')
}

/// A receiver is told of a preset what it takes, each thing once and in this order: the
/// plugin by its identity for this format, that the preset comes with it, its author, its
/// comment as the description, its category and then each tag as features. A text that is
/// missing or holds a zero is left out.
pub proof fn law_receivers_are_told_in_order(
    plugin_id: Seq<char>,
    file: ClapPresetFile,
    receiver: MetadataReceiver,
)
    ensures
        metadata_calls(plugin_id, file, receiver) == one_if(
            receiver.takes_plugin_ids,
            MetadataView::PluginId("clap"@, plugin_id),
        ) + one_if(receiver.takes_flags, MetadataView::Flags(1)) + one_if(
            receiver.takes_creators && sayable(file.author),
            MetadataView::Creator((file.author->0)@),
        ) + one_if(
            receiver.takes_descriptions && sayable(file.comment),
            MetadataView::Description((file.comment->0)@),
        ) + one_if(
            receiver.takes_features && sayable(file.category),
            MetadataView::Feature((file.category->0)@),
        ) + (if receiver.takes_features {
            file.tags@.filter(|tag: String| !tag@.contains('\0')).map_values(
                |tag: String| MetadataView::Feature(tag@),
            )
        } else {
            Seq::empty()
        }),
{
    let c0 = Seq::<MetadataView>::empty();
    let p1 = one_if(receiver.takes_plugin_ids, MetadataView::PluginId("clap"@, plugin_id));
    lemma_told(c0, receiver.takes_plugin_ids, MetadataView::PluginId("clap"@, plugin_id));
    assert(c0 + p1 =~= p1);
    lemma_told(p1, receiver.takes_flags, MetadataView::Flags(1));
    let c2 = p1 + one_if(receiver.takes_flags, MetadataView::Flags(1));
    let author = receiver.takes_creators && sayable(file.author);
    lemma_told(c2, author, MetadataView::Creator((file.author->0)@));
    let c3 = c2 + one_if(author, MetadataView::Creator((file.author->0)@));
    let comment = receiver.takes_descriptions && sayable(file.comment);
    lemma_told(c3, comment, MetadataView::Description((file.comment->0)@));
    let c4 = c3 + one_if(comment, MetadataView::Description((file.comment->0)@));
    let category = receiver.takes_features && sayable(file.category);
    lemma_told(c4, category, MetadataView::Feature((file.category->0)@));
    let c5 = c4 + one_if(category, MetadataView::Feature((file.category->0)@));
    lemma_tags_told(c5, receiver.takes_features, file.tags@, file.tags@.len() as int);
    assert(file.tags@.take(file.tags@.len() as int) =~= file.tags@);
    assert(c5 + Seq::<MetadataView>::empty() =~= c5);
}

proof fn lemma_told(calls: Seq<MetadataView>, takes: bool, call: MetadataView)
    ensures
        told(calls, takes, call) == calls + one_if(takes, call),
{
    assert(told(calls, takes, call) =~= calls + one_if(takes, call));
}

proof fn lemma_tags_told(calls: Seq<MetadataView>, takes: bool, tags: Seq<String>, n: int)
    requires
        0 <= n <= tags.len(),
    ensures
        !takes ==> tag_calls(calls, takes, tags, n) == calls,
        takes ==> tag_calls(calls, takes, tags, n) == calls + tags.take(n).filter(
            |tag: String| !tag@.contains('\0'),
        ).map_values(|tag: String| MetadataView::Feature(tag@)),
    decreases n,
{
    reveal(Seq::filter);
    let keep = |tag: String| !tag@.contains('\0');
    let feature = |tag: String| MetadataView::Feature(tag@);
    let some = tags.take(n);
    if n == 0 {
        assert(calls + some.filter(keep).map_values(feature) =~= calls);
    } else {
        lemma_tags_told(calls, takes, tags, n - 1);
        let front = tags.take(n - 1);
        assert(some.drop_last() =~= front);
        assert(some.last() == tags[n - 1]);
        if takes {
            if keep(some.last()) {
                assert(some.filter(keep) == front.filter(keep).push(some.last()));
                assert(calls + some.filter(keep).map_values(feature) =~= (calls + front.filter(
                    keep,
                ).map_values(feature)).push(feature(some.last())));
            } else {
                assert(some.filter(keep) == front.filter(keep));
            }
        }
    }
}

/// What a receiver is told is told as it is: each kind of call with its own texts.
pub proof fn law_calls_keep_their_texts(calls: Seq<MetadataCall>, i: int)
    requires
        0 <= i < calls.len(),
    ensures
        call_views(calls).len() == calls.len(),
        match calls[i] {
            MetadataCall::PluginId(format, id) => call_views(calls)[i] == MetadataView::PluginId(
                format@,
                id@,
            ),
            MetadataCall::Flags(flags) => call_views(calls)[i] == MetadataView::Flags(flags),
            MetadataCall::Creator(text) => call_views(calls)[i] == MetadataView::Creator(text@),
            MetadataCall::Description(text) => call_views(calls)[i] == MetadataView::Description(
                text@,
            ),
            MetadataCall::Feature(text) => call_views(calls)[i] == MetadataView::Feature(text@),
        },
{
}

} // verus!
