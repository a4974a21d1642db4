//! What an Audio Unit host asks of a plugin outside of rendering: state, presets,
//! formatted values, and its view.
use crate::au::AuInstance;
use crate::editor::{clamp_logical_size, fitted, EditorGeometry};
use crate::presets::FactoryPresetEntry;
use crate::process::PluginRuntime;
use crate::state::{param_calls, receive_extra, receive_state, DeserializedState};
use crate::text::{copy_bytes_to_buf, has_nul, to_chars, with_text};
use crate::wrapper::fitting_text_len;
use vstd::prelude::*;
use vstd::slice::slice_subrange;
use vstd::string::*;

verus! {

/// The host prepares the plugin for rendering. What the plugin reports of itself is
/// read anew.
pub fn reset<P: PluginRuntime>(instance: &mut AuInstance, plugin: &P)
    ensures
        *final(instance) == (AuInstance {
            prepared: true,
            latency_cache: plugin.reported_latency(),
            tail_cache: plugin.reported_tail(),
            ..*old(instance)
        }),
{
    instance.latency_cache = plugin.latency();
    instance.tail_cache = plugin.tail();
    instance.prepared = true;
}

/// How a plugin is rendered: in real time, ahead of time into a buffer, or offline.
pub const RENDER_REALTIME: u8 = 0;

pub const RENDER_BUFFERED: u8 = 1;

pub const RENDER_OFFLINE: u8 = 2;

/// The mode that a host asks to render in; one that is not known counts as real
/// time.
pub fn set_render_mode(mode: u32) -> (r: u8)
    ensures
        r as int == if mode <= 2 {
            mode as int
        } else {
            0
        },
        mode == RENDER_BUFFERED || mode == RENDER_OFFLINE ==> r == mode,
        mode != RENDER_BUFFERED && mode != RENDER_OFFLINE ==> r == RENDER_REALTIME,
{
    if mode <= 2 {
        mode as u8
    } else {
        0
    }
}

/// Writes a parameter's formatted value into the host's buffer, cut where a
/// character ends, with a zero behind it; gives the number of bytes in front of the
/// zero. Nothing is written where there is no value or no room.
pub fn param_format_value(text: Option<&str>, buffer: &mut Vec<u8>) -> (r: u32)
    requires
        old(buffer)@.len() <= u32::MAX,
    ensures
        match text {
            Some(t) if old(buffer)@.len() > 0 => {
                &&& r < old(buffer)@.len()
                &&& r <= t.spec_bytes().len()
                &&& vstd::utf8::is_char_boundary(t.spec_bytes(), r as int)
                &&& forall|n: int|
                    r < n < old(buffer)@.len() && n <= t.spec_bytes().len()
                        ==> !#[trigger] vstd::utf8::is_char_boundary(t.spec_bytes(), n)
                &&& final(buffer)@ == with_text(old(buffer)@, t.spec_bytes().take(r as int))
            },
            _ => r == 0 && final(buffer)@ == old(buffer)@,
        },
{
    let capacity: usize = buffer.len();
    if capacity == 0 {
        return 0;
    }
    match text {
        Some(t) => {
            let len: u32 = fitting_text_len(t, capacity as u32);
            let bytes: &[u8] = t.as_bytes();
            let front: &[u8] = slice_subrange(bytes, 0, len as usize);
            proof {
                assert(front@ =~= t.spec_bytes().take(len as int));
            }
            copy_bytes_to_buf(buffer, front);
            len
        },
        None => 0,
    }
}

/// Takes a saved state in: parameter values apply at once, and the rest is handed to
/// the audio thread. Nothing happens where the host sent no bytes or they did not
/// parse. Whether it was taken comes back; the editor then has to hear of it.
pub fn state_load<P: PluginRuntime>(
    instance: &mut AuInstance,
    plugin: &mut P,
    len: u32,
    parsed: Option<DeserializedState>,
) -> (r: bool)
    ensures
        r == (len > 0 && parsed is Some),
        r ==> final(instance).pending_state.pending == parsed && final(plugin).trace() == old(
            plugin,
        ).trace() + param_calls(parsed->0),
        *final(instance) == (AuInstance {
            pending_state: final(instance).pending_state,
            ..*old(instance)
        }),
        !r ==> *final(instance) == *old(instance) && final(plugin).trace() == old(plugin).trace(),
{
    if len == 0 {
        return false;
    }
    receive_state(&mut instance.pending_state, plugin, parsed)
}

/// Takes bytes in that another build of the plugin left under a key of its own, where
/// the plugin translated them; says with one or zero whether it did.
pub fn state_load_foreign<P: PluginRuntime>(
    instance: &mut AuInstance,
    plugin: &mut P,
    key: Option<&str>,
    len: u32,
    migrated: Option<DeserializedState>,
) -> (r: i32)
    ensures
        r == if key is Some && len > 0 && migrated is Some {
            1i32
        } else {
            0
        },
        r == 1 ==> final(instance).pending_state.pending == migrated && final(plugin).trace()
            == old(plugin).trace() + param_calls(migrated->0),
        *final(instance) == (AuInstance {
            pending_state: final(instance).pending_state,
            ..*old(instance)
        }),
        r == 0 ==> *final(instance) == *old(instance) && final(plugin).trace() == old(
            plugin,
        ).trace(),
{
    if key.is_none() {
        return 0;
    }
    if state_load(instance, plugin, len, migrated) {
        1
    } else {
        0
    }
}

/// Loads a factory preset, where there is one at the index and its file could be
/// read; says with one or zero whether it did.
pub fn factory_preset_load<P: PluginRuntime>(
    instance: &mut AuInstance,
    plugin: &mut P,
    entries: &Vec<FactoryPresetEntry>,
    index: u32,
    loaded: Option<DeserializedState>,
) -> (r: i32)
    ensures
        r == if index < entries@.len() && loaded is Some {
            1i32
        } else {
            0
        },
        r == 1 ==> final(instance).pending_state.pending == loaded && final(plugin).trace() == old(
            plugin,
        ).trace() + param_calls(loaded->0),
        *final(instance) == (AuInstance {
            pending_state: final(instance).pending_state,
            ..*old(instance)
        }),
        r == 0 ==> *final(instance) == *old(instance) && final(plugin).trace() == old(
            plugin,
        ).trace(),
{
    if index as usize >= entries.len() {
        return 0;
    }
    if receive_state(&mut instance.pending_state, plugin, loaded) {
        1
    } else {
        0
    }
}

/// The name of a factory preset.
pub fn factory_preset_name(entries: &Vec<FactoryPresetEntry>, index: u32) -> (r: Option<&str>)
    ensures
        match r {
            Some(name) => index < entries@.len() && name@ == entries@[index as int].name@,
            None => index >= entries@.len(),
        },
{
    if (index as usize) < entries.len() {
        Some(entries[index as usize].name.as_str())
    } else {
        None
    }
}

/// The keys of earlier builds that a host can be handed: those without a zero
/// character, in order.
pub open spec fn legacy_keys(keys: Seq<&'static str>, n: int) -> Seq<&'static str>
    decreases n,
{
    if n <= 0 {
        Seq::empty()
    } else if keys[n - 1]@.contains('\0') {
        legacy_keys(keys, n - 1)
    } else {
        legacy_keys(keys, n - 1).push(keys[n - 1])
    }
}

/// Gathers the keys of earlier builds that a host can be handed.
pub fn legacy_state_keys(keys: &Vec<&'static str>) -> (r: Vec<&'static str>)
    ensures
        r@ == legacy_keys(keys@, keys@.len() as int),
{
    let mut r: Vec<&'static str> = Vec::new();
    let mut i: usize = 0;
    while i < keys.len()
        invariant
            i <= keys@.len(),
            r@ == legacy_keys(keys@, i as int),
        decreases keys@.len() - i,
    {
        if !has_nul(keys[i]) {
            r.push(keys[i]);
        }
        i = i + 1;
    }
    r
}

/// The key at an index.
pub fn legacy_state_key_at(keys: &Vec<&'static str>, index: u32) -> (r: Option<&'static str>)
    ensures
        r == if index < keys@.len() {
            Some(keys@[index as int])
        } else {
            None
        },
{
    if (index as usize) < keys.len() {
        Some(keys[index as usize])
    } else {
        None
    }
}

/// Whether the editor can be resized, as one or zero.
pub fn gui_can_resize(editor: Option<&EditorGeometry>) -> (r: i32)
    ensures
        r == if editor matches Some(e) && e.can_resize {
            1i32
        } else {
            0
        },
{
    match editor {
        Some(e) => if e.can_resize {
            1
        } else {
            0
        },
        None => 0,
    }
}

/// The size that an editor is asked to take when the host resizes its container:
/// the host's, fitted to the editor's bounds. A host's empty size is ignored, and an
/// editor that cannot be resized is asked nothing.
pub fn gui_set_size(editor: Option<&EditorGeometry>, w: u32, h: u32) -> (r: Option<(u32, u32)>)
    requires
        editor matches Some(e) ==> e.can_resize ==> e.wf(),
    ensures
        match r {
            Some(size) => {
                &&& editor matches Some(e) && e.can_resize && (size.0 as int, size.1 as int)
                    == fitted(w as int, h as int, *e)
                &&& w > 0
                &&& h > 0
            },
            None => w == 0 || h == 0 || !(editor matches Some(e) && e.can_resize),
        },
{
    if w == 0 || h == 0 {
        return None;
    }
    match editor {
        Some(e) => if e.can_resize {
            Some(clamp_logical_size(w, h, e))
        } else {
            None
        },
        None => None,
    }
}

/// Whether an editor that asks for another size is given it to take: an empty size
/// is refused, and there has to be an editor.
pub fn editor_request_resize(has_editor: bool, w: u32, h: u32) -> (r: bool)
    ensures
        r == (has_editor && w > 0 && h > 0),
{
    has_editor && w > 0 && h > 0
}

/// An editor hands the plugin bytes of its own: they take the way of a loaded state,
/// without parameter values, and replace one that still waits.
pub fn editor_set_state(instance: &mut AuInstance, bytes: Vec<u8>)
    ensures
        final(instance).pending_state.pending matches Some(state) && state.params@.len() == 0
            && state.extra == Some(bytes),
        *final(instance) == (AuInstance {
            pending_state: final(instance).pending_state,
            ..*old(instance)
        }),
{
    receive_extra(&mut instance.pending_state, bytes);
}

/// Decides on the view that a host asks for, of the editor's size: the plugin has to
/// be found, and to have an editor whose size is not empty.
pub fn ui_view_for_audio_unit(
    error: i32,
    has_context: bool,
    has_callbacks: bool,
    editor: Option<&EditorGeometry>,
) -> (r: Option<(u32, u32)>)
    ensures
        r == match editor {
            Some(e) if error == 0 && has_context && has_callbacks && e.size.0 > 0 && e.size.1
                > 0 => Some(e.size),
            _ => None,
        },
{
    if error != 0 || !has_context || !has_callbacks {
        return None;
    }
    match editor {
        Some(e) => if e.size.0 == 0 || e.size.1 == 0 {
            None
        } else {
            Some(e.size)
        },
        None => None,
    }
}

/// Whether a character may stand in the name of a class.
pub open spec fn is_name_char(c: char) -> bool {
    ('0' <= c <= '9') || ('A' <= c <= 'Z') || ('a' <= c <= 'z')
}

/// A byte of a code, as it stands in the name of a class.
pub open spec fn suffix_char(b: u8) -> char {
    if is_name_char(b as char) {
        b as char
    } else {
        '_'
    }
}

/// The name of a plugin's view class ends in its manufacturer's and its own code.
pub open spec fn suffix(manufacturer: Seq<u8>, subtype: Seq<u8>) -> Seq<char> {
    (manufacturer + subtype).map_values(|b: u8| suffix_char(b))
}

fn push_suffix(text: &mut String, code: [u8; 4])
    ensures
        final(text)@ == old(text)@ + code@.map_values(|b: u8| suffix_char(b)),
{
    let ghost before = text@;
    let mut i: usize = 0;
    while i < 4
        invariant
            i <= 4,
            code@.len() == 4,
            text@ =~= before + code@.take(i as int).map_values(|b: u8| suffix_char(b)),
        decreases 4 - i,
    {
        let c: char = code[i] as char;
        if ('0' <= c && c <= '9') || ('A' <= c && c <= 'Z') || ('a' <= c && c <= 'z') {
            text.push(c);
        } else {
            text.push('_');
        }
        i = i + 1;
    }
    proof {
        assert(code@.take(4) =~= code@);
    }
}

/// Makes the end of a view class's name of the plugin's codes.
pub fn sanitize_suffix(manufacturer: [u8; 4], subtype: [u8; 4]) -> (r: String)
    ensures
        r@ == suffix(manufacturer@, subtype@),
{
    let mut text: String = String::new();
    push_suffix(&mut text, manufacturer);
    push_suffix(&mut text, subtype);
    proof {
        assert(text@ =~= suffix(manufacturer@, subtype@));
    }
    text
}

/// The name of the class that makes a plugin's view.
pub fn view_class_name(manufacturer: [u8; 4], subtype: [u8; 4]) -> (r: String)
    ensures
        r@ == "TruceAUView_"@ + suffix(manufacturer@, subtype@),
{
    let mut name: String = "TruceAUView_".to_owned();
    name.append(sanitize_suffix(manufacturer, subtype).as_str());
    name
}

/// Plugins whose codes are made of letters and digits have view classes of different
/// names, unless both of their codes are the same.
pub proof fn law_class_names_differ(m1: Seq<u8>, s1: Seq<u8>, m2: Seq<u8>, s2: Seq<u8>)
    requires
        m1.len() == 4,
        s1.len() == 4,
        m2.len() == 4,
        s2.len() == 4,
        forall|i: int| 0 <= i < 4 ==> is_name_char(#[trigger] m1[i] as char),
        forall|i: int| 0 <= i < 4 ==> is_name_char(#[trigger] s1[i] as char),
        forall|i: int| 0 <= i < 4 ==> is_name_char(#[trigger] m2[i] as char),
        forall|i: int| 0 <= i < 4 ==> is_name_char(#[trigger] s2[i] as char),
        suffix(m1, s1) == suffix(m2, s2),
    ensures
        m1 == m2,
        s1 == s2,
{
    assert forall|i: int| 0 <= i < 4 implies m1[i] == m2[i] by {
        assert(suffix(m1, s1)[i] == m1[i] as char);
        assert(suffix(m2, s2)[i] == m2[i] as char);
    }
    assert forall|i: int| 0 <= i < 4 implies s1[i] == s2[i] by {
        assert(suffix(m1, s1)[i + 4] == s1[i] as char);
        assert(suffix(m2, s2)[i + 4] == s2[i] as char);
    }
    assert(m1 =~= m2);
    assert(s1 =~= s2);
}

/// A plugin's identity, as it stands in the names of compiled classes.
pub open spec fn plain_id(id: Seq<char>) -> Seq<char> {
    if id.len() == 0 {
        "default"@
    } else {
        id.map_values(
            |c: char|
                if is_name_char(c) {
                    c
                } else {
                    '_'
                },
        )
    }
}

fn push_plain_id(text: &mut String, id: &str)
    ensures
        final(text)@ == old(text)@ + plain_id(id@),
{
    if id.is_empty() {
        text.append("default");
        return ;
    }
    let ghost before = text@;
    let ghost all = plain_id(id@);
    let chars: Vec<char> = to_chars(id);
    let mut i: usize = 0;
    proof {
        assert(before + all.take(0) =~= before);
    }
    while i < chars.len()
        invariant
            i <= chars@.len() == all.len(),
            chars@ == id@,
            id@.len() > 0,
            all == plain_id(id@),
            text@ =~= before + all.take(i as int),
        decreases chars@.len() - i,
    {
        let c: char = chars[i];
        if ('0' <= c && c <= '9') || ('A' <= c && c <= 'Z') || ('a' <= c && c <= 'z') {
            text.push(c);
        } else {
            text.push('_');
        }
        i = i + 1;
    }
    proof {
        assert(all.take(i as int) =~= all);
    }
}

/// The names of the two classes that are compiled into a plugin: the factory of its
/// view, and the container that the view lies in. They carry the plugin's identity,
/// because a host loads all plugins into one process.
pub fn compiled_class_names(plugin_id: &str) -> (r: (String, String))
    ensures
        r.0@ == "TruceAUCocoaViewProxy_"@ + plain_id(plugin_id@),
        r.1@ == "TruceAuFixedContainer_"@ + plain_id(plugin_id@),
{
    let mut factory: String = "TruceAUCocoaViewProxy_".to_owned();
    push_plain_id(&mut factory, plugin_id);
    let mut container: String = "TruceAuFixedContainer_".to_owned();
    push_plain_id(&mut container, plugin_id);
    (factory, container)
}

/// The keys that a host can be handed are those without a zero character, in their order.
pub proof fn law_keys_without_zeros_are_kept(keys: Seq<&'static str>, n: int)
    requires
        0 <= n <= keys.len(),
    ensures
        legacy_keys(keys, n) == keys.take(n).filter(|key: &'static str| !key@.contains('\0')),
    decreases n,
{
    reveal(Seq::filter);
    let keep = |key: &'static str| !key@.contains('\0');
    let some = keys.take(n);
    if n > 0 {
        law_keys_without_zeros_are_kept(keys, n - 1);
        assert(some.drop_last() =~= keys.take(n - 1));
        assert(some.last() == keys[n - 1]);
    } else {
        assert(legacy_keys(keys, n) =~= some.filter(keep));
    }
}

/// In the name of a class each character of a code or an identity stands at its own place:
/// letters and digits as they are, all others as an underscore. No identity at all goes by
/// a word of its own.
pub proof fn law_names_keep_letters_and_digits(
    manufacturer: Seq<u8>,
    subtype: Seq<u8>,
    id: Seq<char>,
    i: int,
)
    ensures
        suffix(manufacturer, subtype).len() == manufacturer.len() + subtype.len(),
        0 <= i < manufacturer.len() ==> suffix(manufacturer, subtype)[i] == ({
            let c = manufacturer[i] as char;
            if ('0' <= c <= '9') || ('A' <= c <= 'Z') || ('a' <= c <= 'z') {
                c
            } else {
                '_'
            }
        }),
        0 <= i < subtype.len() ==> suffix(manufacturer, subtype)[manufacturer.len() + i] == ({
            let c = subtype[i] as char;
            if ('0' <= c <= '9') || ('A' <= c <= 'Z') || ('a' <= c <= 'z') {
                c
            } else {
                '_'
            }
        }),
        id.len() == 0 ==> plain_id(id) == "default"@,
        id.len() > 0 ==> plain_id(id).len() == id.len() && (0 <= i < id.len() ==> plain_id(id)[i]
            == if ('0' <= id[i] <= '9') || ('A' <= id[i] <= 'Z') || ('a' <= id[i] <= 'z') {
            id[i]
        } else {
            '_'
        }),
{
}

} // verus!
