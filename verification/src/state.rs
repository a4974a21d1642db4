//! Plugin-state restore: the parsed state, how it is applied, and the slot that
//! hands it from the host's thread to the audio thread.
use crate::process::{PluginRuntime, RuntimeCall};
use vstd::prelude::*;
use vstd::string::*;

verus! {

/// A state that was read back from its saved form: parameter values by id, and
/// the plugin's own bytes where it saved any.
#[derive(Debug)]
pub struct DeserializedState {
    pub params: Vec<(u32, u64)>,
    pub extra: Option<Vec<u8>>,
}

/// Why a plugin could not interpret the bytes of its own saved state.
#[derive(Debug)]
#[non_exhaustive]
pub enum StateLoadError {
    /// The bytes are too short, mis-framed, or otherwise unparseable.
    Malformed(&'static str),
    /// Plugin-specific failure with a free-form message.
    Other(String),
}

impl StateLoadError {
    pub open spec fn text(&self) -> Seq<char> {
        match self {
            StateLoadError::Malformed(s) => "malformed state: "@ + s@,
            StateLoadError::Other(s) => s@,
        }
    }

    /// The error in words.
    pub fn message(&self) -> (r: String)
        ensures
            r@ == self.text(),
    {
        match self {
            StateLoadError::Malformed(s) => {
                let mut r = "malformed state: ".to_owned();
                r.append(s);
                r
            },
            StateLoadError::Other(s) => s.clone(),
        }
    }
}

/// Why a saved state could not be restored.
#[derive(Debug)]
pub enum RestoreError {
    /// The bytes do not parse as a state of this plugin.
    Invalid,
    /// They parsed, but the plugin could not interpret its own part.
    LoadState(StateLoadError),
}

impl RestoreError {
    pub open spec fn text(&self) -> Seq<char> {
        match self {
            RestoreError::Invalid => "state envelope is invalid"@,
            RestoreError::LoadState(e) => "plugin load_state failed: "@ + e.text(),
        }
    }

    /// The error in words.
    pub fn message(&self) -> (r: String)
        ensures
            r@ == self.text(),
    {
        match self {
            RestoreError::Invalid => "state envelope is invalid".to_owned(),
            RestoreError::LoadState(e) => {
                let mut r = "plugin load_state failed: ".to_owned();
                r.append(e.message().as_str());
                r
            },
        }
    }
}

/// What a plugin refused its own bytes with, if it did.
pub open spec fn failure_of(r: Result<(), StateLoadError>) -> Option<StateLoadError> {
    match r {
        Ok(()) => None,
        Err(e) => Some(e),
    }
}

/// The calls that applying a state comes to, where the plugin answers its own bytes
/// with `failure`: the parameter values, the smoothers, then those bytes.
pub open spec fn apply_calls(state: DeserializedState, failure: Option<StateLoadError>) -> Seq<
    RuntimeCall,
> {
    let params = seq![
        RuntimeCall::RestoreValues { params: state.params@ },
        RuntimeCall::SnapSmoothers,
    ];
    match state.extra {
        Some(extra) => params.push(RuntimeCall::LoadState { bytes: extra@, failure }),
        None => params,
    }
}

/// Applies a state to a plugin: writes the parameter values, snaps the
/// smoothers, then hands the plugin its own bytes where there are any. The error
/// that the plugin answers those with is handed back for the caller to report;
/// the state counts as applied all the same.
pub fn apply_state<P: PluginRuntime>(plugin: &mut P, state: &DeserializedState) -> (r: Option<
    StateLoadError,
>)
    ensures
        r is Some ==> state.extra is Some,
        final(plugin).trace() == old(plugin).trace() + apply_calls(*state, r),
{
    let ghost before = plugin.trace();
    plugin.restore_values(&state.params);
    plugin.snap_smoothers();
    let mut failure: Option<StateLoadError> = None;
    if let Some(extra) = &state.extra {
        match plugin.load_state(extra) {
            Ok(()) => {},
            Err(e) => {
                failure = Some(e);
            },
        }
    }
    proof {
        assert(plugin.trace() =~= before + apply_calls(*state, failure));
    }
    failure
}

/// Applies just the parameter values of a state: the part that is safe on the
/// host's thread.
pub fn apply_params<P: PluginRuntime>(plugin: &mut P, state: &DeserializedState)
    ensures
        final(plugin).trace() == old(plugin).trace() + param_calls(*state),
{
    let ghost before = plugin.trace();
    plugin.restore_values(&state.params);
    plugin.snap_smoothers();
    proof {
        assert(plugin.trace() =~= before + param_calls(*state));
    }
}

/// Restores what was parsed of a saved state. A state that did not parse is
/// refused with nothing called on the plugin; otherwise the values are restored,
/// and the plugin's answer to its own bytes decides.
pub fn restore_plugin<P: PluginRuntime>(
    plugin: &mut P,
    parsed: Option<DeserializedState>,
) -> (r: Result<(), RestoreError>)
    ensures
        restored(parsed, r, old(plugin).trace(), final(plugin).trace()),
{
    match parsed {
        None => Err(RestoreError::Invalid),
        Some(state) => {
            plugin.restore_values(&state.params);
            match &state.extra {
                None => Ok(()),
                Some(extra) => match plugin.load_state(extra) {
                    Ok(()) => Ok(()),
                    Err(e) => Err(RestoreError::LoadState(e)),
                },
            }
        },
    }
}

/// Handoff slot for state loads between the host's thread and the audio thread.
/// It holds one state: a second one before the first was taken replaces it, so
/// that a rapid double recall never applies the stale state.
#[derive(Debug)]
pub struct StateLoadQueue {
    pub pending: Option<DeserializedState>,
}

impl StateLoadQueue {
    pub fn new() -> (r: Self)
        ensures
            r.pending is None,
    {
        StateLoadQueue { pending: None }
    }

    /// Hands a state over; the one that it displaced comes back.
    pub fn force_push(&mut self, state: DeserializedState) -> (r: Option<DeserializedState>)
        ensures
            r == old(self).pending,
            final(self).pending == Some(state),
    {
        let displaced = self.pending.take();
        self.pending = Some(state);
        displaced
    }

    /// Takes the state that is pending.
    pub fn pop(&mut self) -> (r: Option<DeserializedState>)
        ensures
            r == old(self).pending,
            final(self).pending is None,
    {
        self.pending.take()
    }
}

/// The calls that restore a state's parameter values.
pub open spec fn param_calls(state: DeserializedState) -> Seq<RuntimeCall> {
    seq![RuntimeCall::RestoreValues { params: state.params@ }, RuntimeCall::SnapSmoothers]
}

/// Takes a state in that was read back: its parameter values apply at once, so
/// that the host reads them, and the whole state is handed to the audio thread,
/// where it replaces an older one that still waits. Nothing happens to a state
/// that did not parse. Whether it was taken comes back; the editor then has to
/// hear of it.
pub fn receive_state<P: PluginRuntime>(
    pending: &mut StateLoadQueue,
    plugin: &mut P,
    parsed: Option<DeserializedState>,
) -> (r: bool)
    ensures
        r == (parsed is Some),
        match parsed {
            Some(state) => final(pending).pending == Some(state) && final(plugin).trace() == old(
                plugin,
            ).trace() + param_calls(state),
            None => *final(pending) == *old(pending) && final(plugin).trace() == old(
                plugin,
            ).trace(),
        },
{
    match parsed {
        None => false,
        Some(state) => {
            apply_params(plugin, &state);
            let _ = pending.force_push(state);
            true
        },
    }
}

/// Takes bytes of the plugin's own in, from its editor: they go the way of a
/// loaded state, without parameter values, and replace one that still waits.
pub fn receive_extra(pending: &mut StateLoadQueue, bytes: Vec<u8>)
    ensures
        final(pending).pending matches Some(state) && state.params@.len() == 0 && state.extra
            == Some(bytes),
{
    let _ = pending.force_push(DeserializedState { params: Vec::new(), extra: Some(bytes) });
}

/// Applying a state does two things always, and a third where it has bytes of the plugin's
/// own: all of its values are restored, then the smoothers jump, then the plugin gets its
/// bytes, as they are. Its values alone come to the first two.
pub proof fn law_states_are_applied_in_order(
    state: DeserializedState,
    failure: Option<StateLoadError>,
)
    ensures
        ({
            let calls = apply_calls(state, failure);
            let values = param_calls(state);
            &&& calls.len() >= 2
            &&& calls[0] matches RuntimeCall::RestoreValues { params } && params == state.params@
            &&& calls[1] is SnapSmoothers
            &&& match state.extra {
                Some(extra) => calls.len() == 3 && (calls[2] matches RuntimeCall::LoadState {
                    bytes,
                    failure: answer,
                } && bytes == extra@ && answer == failure),
                None => calls.len() == 2,
            }
            &&& values == calls.take(2)
        }),
{
    assert(param_calls(state) =~= apply_calls(state, failure).take(2));
}

/// Errors say what went wrong in the plugin's own words, behind what it was.
pub proof fn law_errors_keep_the_reason(reason: &'static str, words: String)
    ensures
        StateLoadError::Malformed(reason).text() == "malformed state: "@ + reason@,
        StateLoadError::Other(words).text() == words@,
        RestoreError::Invalid.text() == "state envelope is invalid"@,
        RestoreError::LoadState(StateLoadError::Other(words)).text()
            == "plugin load_state failed: "@ + words@,
{
}

/// Restoring what was parsed ends in `r`, with the calls `after` where there were the
/// calls `before`.
pub open spec fn restored(
    parsed: Option<DeserializedState>,
    r: Result<(), RestoreError>,
    before: Seq<RuntimeCall>,
    after: Seq<RuntimeCall>,
) -> bool {
    match parsed {
        None => r == Err::<(), RestoreError>(RestoreError::Invalid) && after == before,
        Some(state) => match state.extra {
            None => r is Ok && after == before.push(
                RuntimeCall::RestoreValues { params: state.params@ },
            ),
            Some(extra) => r != Err::<(), RestoreError>(RestoreError::Invalid) && after
                == before.push(RuntimeCall::RestoreValues { params: state.params@ }).push(
                RuntimeCall::LoadState {
                    bytes: extra@,
                    failure: match r {
                        Err(RestoreError::LoadState(e)) => Some(e),
                        _ => None,
                    },
                },
            ),
        },
    }
}

/// Only what did not parse is invalid, and then nothing is called. A state's values are
/// restored before its own bytes, each once; without bytes of its own nothing can fail.
/// The error is the plugin's.
pub proof fn law_values_are_restored_first(
    parsed: Option<DeserializedState>,
    r: Result<(), RestoreError>,
    before: Seq<RuntimeCall>,
    after: Seq<RuntimeCall>,
)
    requires
        restored(parsed, r, before, after),
    ensures
        before.is_prefix_of(after),
        parsed is None <==> r == Err::<(), RestoreError>(RestoreError::Invalid),
        parsed is None ==> after.len() == before.len(),
        parsed matches Some(state) ==> {
            let n = before.len() as int;
            &&& after[n] == (RuntimeCall::RestoreValues { params: state.params@ })
            &&& state.extra is None ==> after.len() == n + 1 && r is Ok
            &&& state.extra matches Some(extra) ==> {
                &&& after.len() == n + 2
                &&& after[n + 1] matches RuntimeCall::LoadState { bytes, failure } && {
                    &&& bytes == extra@
                    &&& r is Ok <==> failure is None
                    &&& r matches Err(RestoreError::LoadState(e)) ==> failure == Some(e)
                }
            }
        },
{
    assert(after.subrange(0, before.len() as int) =~= before);
}

} // verus!
