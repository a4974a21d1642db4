//! CLAP wrapper: the editor window and what an editor does to its host.
use crate::clap::{ClapInstance, GuiParamChange};
use crate::editor::{clamp_logical_size, fitted, EditorGeometry};
use crate::state::receive_extra;
use crate::text::str_eq;
use vstd::prelude::*;

verus! {

/// The window system that an editor is embedded in.
#[derive(Clone, Copy, Debug, PartialEq, Eq, Structural)]
pub enum WindowSystem {
    Cocoa,
    Win32,
    X11,
}

/// The host's name for a window system.
pub open spec fn window_api(system: WindowSystem) -> &'static str {
    match system {
        WindowSystem::Cocoa => "cocoa",
        WindowSystem::Win32 => "win32",
        WindowSystem::X11 => "x11",
    }
}

/// The window system that an editor asks for: the platform's own, embedded.
pub fn gui_get_preferred_api(system: WindowSystem) -> (r: (&'static str, bool))
    ensures
        r.0 == window_api(system),
        !r.1,
{
    (
        match system {
            WindowSystem::Cocoa => "cocoa",
            WindowSystem::Win32 => "win32",
            WindowSystem::X11 => "x11",
        },
        false,
    )
}

/// Whether an editor can be shown this way: embedded, in the platform's own
/// window system.
pub fn gui_is_api_supported(system: WindowSystem, api: &str, is_floating: bool) -> (r: bool)
    ensures
        r == (!is_floating && api@ == window_api(system)@),
{
    !is_floating && str_eq(api, gui_get_preferred_api(system).0)
}

/// Creates the editor, once. Whether there is one now comes back.
pub fn gui_create(instance: &mut ClapInstance, has_editor: bool) -> (r: bool)
    ensures
        r == (old(instance).gui_created || has_editor),
        *final(instance) == (ClapInstance { gui_created: r, ..*old(instance) }),
{
    if instance.gui_created {
        return true;
    }
    instance.gui_created = has_editor;
    has_editor
}

pub fn gui_destroy(instance: &mut ClapInstance)
    ensures
        *final(instance) == (ClapInstance { gui_created: false, ..*old(instance) }),
{
    instance.gui_created = false;
}

/// The constraints that a host is told of a resizable editor.
#[derive(Clone, Copy, Debug, PartialEq, Eq, Structural)]
pub struct ResizeHints {
    pub can_resize_horizontally: bool,
    pub can_resize_vertically: bool,
    pub preserve_aspect_ratio: bool,
    pub aspect_ratio_width: u32,
    pub aspect_ratio_height: u32,
}

/// Reports the constraints of a resizable editor; nothing for any other, or
/// where the host has no place for them.
pub fn gui_get_resize_hints(editor: Option<&EditorGeometry>, wanted: bool) -> (r: Option<
    ResizeHints,
>)
    ensures
        r == match editor {
            Some(e) => hints_of(*e, wanted),
            None => None,
        },
{
    match editor {
        None => None,
        Some(e) => {
            if !e.can_resize || !wanted {
                return None;
            }
            let (w, h): (u32, u32) = match e.aspect_ratio {
                Some(ratio) => ratio,
                None => (0, 0),
            };
            Some(
                ResizeHints {
                    can_resize_horizontally: true,
                    can_resize_vertically: true,
                    preserve_aspect_ratio: e.aspect_ratio.is_some(),
                    aspect_ratio_width: w,
                    aspect_ratio_height: h,
                },
            )
        },
    }
}

/// What a size that a host commits comes to.
#[derive(Clone, Copy, Debug, PartialEq, Eq, Structural)]
pub enum SizeRequest {
    Refused,
    /// The editor has exactly this size.
    Accepted,
    /// The editor is asked to take this logical size, and answers.
    Resize(u32, u32),
}

/// Takes a size that a host commits: `requested` physical points, which are
/// `logical` points of the editor. A fixed-size editor accepts nothing but its
/// own size, `current` physical points; a resizable one is handed the size
/// fitted to its bounds.
pub fn gui_set_size(
    editor: Option<&EditorGeometry>,
    requested: (u32, u32),
    logical: (u32, u32),
    current: (u32, u32),
) -> (r: SizeRequest)
    requires
        editor matches Some(e) ==> e.can_resize ==> e.wf(),
    ensures
        match editor {
            None => r == SizeRequest::Refused,
            Some(e) => answers_size(*e, requested, logical, current, r),
        },
{
    match editor {
        None => SizeRequest::Refused,
        Some(e) => {
            if e.can_resize {
                let (w, h): (u32, u32) = clamp_logical_size(logical.0, logical.1, e);
                SizeRequest::Resize(w, h)
            } else if requested.0 == current.0 && requested.1 == current.1 {
                SizeRequest::Accepted
            } else {
                SizeRequest::Refused
            }
        },
    }
}

/// The size nearest to what a host asks for.
#[derive(Clone, Copy, Debug, PartialEq, Eq, Structural)]
pub enum NearestSize {
    Unknown,
    /// The editor's own size, in physical points.
    Fixed(u32, u32),
    /// A size in logical points, to be scaled for the host.
    Logical(u32, u32),
}

/// The nearest size that an editor can be shown at.
pub fn gui_adjust_size(
    editor: Option<&EditorGeometry>,
    logical: (u32, u32),
    current: (u32, u32),
) -> (r: NearestSize)
    requires
        editor matches Some(e) ==> e.can_resize ==> e.wf(),
    ensures
        match editor {
            None => r == NearestSize::Unknown,
            Some(e) => is_nearest(*e, logical, current, r),
        },
{
    match editor {
        None => NearestSize::Unknown,
        Some(e) => {
            if e.can_resize {
                let (w, h): (u32, u32) = clamp_logical_size(logical.0, logical.1, e);
                NearestSize::Logical(w, h)
            } else {
                NearestSize::Fixed(current.0, current.1)
            }
        },
    }
}

/// Whether an editor can open: there has to be one, and a parent window.
pub fn gui_set_parent(has_editor: bool, has_parent: bool) -> (r: bool)
    ensures
        r == (has_editor && has_parent),
{
    has_editor && has_parent
}

/// The changes with one more behind them, unless they fill the queue.
pub open spec fn appended(changes: Seq<GuiParamChange>, capacity: nat, change: GuiParamChange) -> Seq<
    GuiParamChange,
> {
    if changes.len() < capacity {
        changes.push(change)
    } else {
        changes
    }
}

/// An editor starts to move a parameter. Whether the host is asked to collect
/// the change comes back: always, where it can be asked.
pub fn editor_begin_edit(instance: &mut ClapInstance, id: u32, can_flush: bool) -> (flush: bool)
    ensures
        flush == can_flush,
        final(instance).gui_changes.changes() == appended(
            old(instance).gui_changes.changes(),
            old(instance).gui_changes.capacity(),
            GuiParamChange::GestureBegin(id),
        ),
        final(instance).gui_changes.capacity() == old(instance).gui_changes.capacity(),
        *final(instance) == (ClapInstance {
            gui_changes: final(instance).gui_changes,
            ..*old(instance)
        }),
{
    let _ = instance.gui_changes.push(GuiParamChange::GestureBegin(id));
    can_flush
}

/// What a host is asked for after an editor set a parameter.
#[derive(Clone, Copy, Debug, PartialEq, Eq, Structural)]
pub struct HostRequests {
    /// Collect the change.
    pub flush: bool,
    /// Call back on the main thread, to read the parameters anew.
    pub callback: bool,
}

/// An editor set a parameter, which came to this plain value. The host is asked
/// to call back once until it did.
pub fn editor_set_param(
    instance: &mut ClapInstance,
    id: u32,
    plain: u64,
    can_flush: bool,
    can_call_back: bool,
) -> (r: HostRequests)
    ensures
        r.flush == can_flush,
        r.callback == (!old(instance).needs_rescan && can_call_back),
        final(instance).gui_changes.changes() == appended(
            old(instance).gui_changes.changes(),
            old(instance).gui_changes.capacity(),
            GuiParamChange::Value(id, plain),
        ),
        final(instance).gui_changes.capacity() == old(instance).gui_changes.capacity(),
        *final(instance) == (ClapInstance {
            gui_changes: final(instance).gui_changes,
            needs_rescan: true,
            ..*old(instance)
        }),
{
    let _ = instance.gui_changes.push(GuiParamChange::Value(id, plain));
    let asked: bool = instance.needs_rescan;
    instance.needs_rescan = true;
    HostRequests { flush: can_flush, callback: !asked && can_call_back }
}

/// An editor let go of a parameter.
pub fn editor_end_edit(instance: &mut ClapInstance, id: u32, can_flush: bool) -> (flush: bool)
    ensures
        flush == can_flush,
        final(instance).gui_changes.changes() == appended(
            old(instance).gui_changes.changes(),
            old(instance).gui_changes.capacity(),
            GuiParamChange::GestureEnd(id),
        ),
        final(instance).gui_changes.capacity() == old(instance).gui_changes.capacity(),
        *final(instance) == (ClapInstance {
            gui_changes: final(instance).gui_changes,
            ..*old(instance)
        }),
{
    let _ = instance.gui_changes.push(GuiParamChange::GestureEnd(id));
    can_flush
}

/// An editor hands the plugin bytes of its own: they take the way of a loaded
/// state, without parameter values, and replace one that still waits.
pub fn editor_set_state(instance: &mut ClapInstance, bytes: Vec<u8>)
    ensures
        final(instance).pending_state.pending matches Some(state) && state.params@.len() == 0
            && state.extra == Some(bytes),
        *final(instance) == (ClapInstance {
            pending_state: final(instance).pending_state,
            ..*old(instance)
        }),
{
    receive_extra(&mut instance.pending_state, bytes);
}

/// An editor moves a parameter in one go: it is taken hold of, set and let go of.
pub fn editor_automate(
    instance: &mut ClapInstance,
    id: u32,
    plain: u64,
    can_flush: bool,
    can_call_back: bool,
) -> (r: HostRequests)
    ensures
        r.flush == can_flush,
        r.callback == (!old(instance).needs_rescan && can_call_back),
        ({
            let capacity = old(instance).gui_changes.capacity();
            let held = appended(
                old(instance).gui_changes.changes(),
                capacity,
                GuiParamChange::GestureBegin(id),
            );
            let set = appended(held, capacity, GuiParamChange::Value(id, plain));
            final(instance).gui_changes.changes() == appended(
                set,
                capacity,
                GuiParamChange::GestureEnd(id),
            )
        }),
        final(instance).gui_changes.capacity() == old(instance).gui_changes.capacity(),
        *final(instance) == (ClapInstance {
            gui_changes: final(instance).gui_changes,
            needs_rescan: true,
            ..*old(instance)
        }),
{
    let _ = editor_begin_edit(instance, id, can_flush);
    let requests: HostRequests = editor_set_param(instance, id, plain, can_flush, can_call_back);
    let _ = editor_end_edit(instance, id, can_flush);
    requests
}

/// Whether a host can be asked to resize the window of an editor: there is a host,
/// it tells of its extensions, and the one for windows takes such requests.
pub fn can_request_resize(has_host: bool, has_extensions: bool, takes_requests: Option<bool>) -> (r:
    bool)
    ensures
        r == (has_host && has_extensions && takes_requests == Some(true)),
{
    match takes_requests {
        Some(takes) => has_host && has_extensions && takes,
        None => false,
    }
}

/// Where there is room for them, the three changes of a gesture wait for the host in
/// the order in which an editor makes them, behind all that waited before.
pub proof fn law_gesture_brackets_its_value(
    before: Seq<GuiParamChange>,
    capacity: nat,
    id: u32,
    plain: u64,
)
    requires
        before.len() + 3 <= capacity,
    ensures
        appended(
            appended(
                appended(before, capacity, GuiParamChange::GestureBegin(id)),
                capacity,
                GuiParamChange::Value(id, plain),
            ),
            capacity,
            GuiParamChange::GestureEnd(id),
        ) == before + seq![
            GuiParamChange::GestureBegin(id),
            GuiParamChange::Value(id, plain),
            GuiParamChange::GestureEnd(id),
        ],
{
}

/// Each window system goes by the host's name for it.
pub proof fn law_window_systems_go_by_their_names(system: WindowSystem)
    ensures
        system is Cocoa ==> window_api(system)@ == "cocoa"@,
        system is Win32 ==> window_api(system)@ == "win32"@,
        system is X11 ==> window_api(system)@ == "x11"@,
{
}

/// A change goes behind those that wait, as long as there is room; one that finds none is
/// dropped, and those that wait stay.
pub proof fn law_changes_wait_in_order(
    changes: Seq<GuiParamChange>,
    capacity: nat,
    change: GuiParamChange,
)
    ensures
        changes.len() < capacity ==> appended(changes, capacity, change).len() == changes.len() + 1
            && appended(changes, capacity, change).last() == change && appended(
            changes,
            capacity,
            change,
        ).take(changes.len() as int) == changes,
        changes.len() >= capacity ==> appended(changes, capacity, change) == changes,
{
    if changes.len() < capacity {
        assert(appended(changes, capacity, change).take(changes.len() as int) =~= changes);
    }
}

/// How an editor can be resized, where the host wants to know.
pub open spec fn hints_of(e: EditorGeometry, wanted: bool) -> Option<ResizeHints> {
    if e.can_resize && wanted {
        Some(
            ResizeHints {
                can_resize_horizontally: true,
                can_resize_vertically: true,
                preserve_aspect_ratio: e.aspect_ratio is Some,
                aspect_ratio_width: match e.aspect_ratio {
                    Some((w, _)) => w,
                    None => 0,
                },
                aspect_ratio_height: match e.aspect_ratio {
                    Some((_, h)) => h,
                    None => 0,
                },
            },
        )
    } else {
        None
    }
}

/// The answer to a host that sets an editor's size.
pub open spec fn answers_size(
    e: EditorGeometry,
    requested: (u32, u32),
    logical: (u32, u32),
    current: (u32, u32),
    r: SizeRequest,
) -> bool {
    if e.can_resize {
        r matches SizeRequest::Resize(w, h) && (w as int, h as int) == fitted(
            logical.0 as int,
            logical.1 as int,
            e,
        )
    } else if requested == current {
        r == SizeRequest::Accepted
    } else {
        r == SizeRequest::Refused
    }
}

/// The answer to a host that asks for the nearest size.
pub open spec fn is_nearest(
    e: EditorGeometry,
    logical: (u32, u32),
    current: (u32, u32),
    r: NearestSize,
) -> bool {
    if e.can_resize {
        r matches NearestSize::Logical(w, h) && (w as int, h as int) == fitted(
            logical.0 as int,
            logical.1 as int,
            e,
        )
    } else {
        r == NearestSize::Fixed(current.0, current.1)
    }
}

/// An editor of a fixed size takes the size that it has and no other, names it as the
/// nearest, and gives no hints. One that can be resized never refuses: it takes just the
/// size that it names as the nearest. Its hints keep its own ratio, the width first, and
/// only where it has one.
pub proof fn law_editors_keep_to_their_sizes(
    e: EditorGeometry,
    requested: (u32, u32),
    logical: (u32, u32),
    current: (u32, u32),
    set: SizeRequest,
    near: NearestSize,
)
    requires
        answers_size(e, requested, logical, current, set),
        is_nearest(e, logical, current, near),
    ensures
        !e.can_resize ==> {
            &&& set !is Resize
            &&& set is Accepted <==> requested.0 == current.0 && requested.1 == current.1
            &&& near matches NearestSize::Fixed(w, h) && w == current.0 && h == current.1
            &&& hints_of(e, true) is None
        },
        e.can_resize ==> {
            &&& set matches SizeRequest::Resize(w, h) && near == NearestSize::Logical(w, h)
            &&& hints_of(e, true) matches Some(hints) && {
                &&& hints.can_resize_horizontally && hints.can_resize_vertically
                &&& hints.preserve_aspect_ratio ==> e.aspect_ratio == Some(
                    (hints.aspect_ratio_width, hints.aspect_ratio_height),
                )
                &&& !hints.preserve_aspect_ratio ==> e.aspect_ratio is None
            }
        },
        hints_of(e, false) is None,
{
}

} // verus!
