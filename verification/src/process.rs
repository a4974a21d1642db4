//! What a plugin's processing reports back, and the interface that the wrappers
//! drive a plugin through.
use crate::events::{Event, EventBody, EventList, TransportInfo};
use crate::state::{failure_of, StateLoadError};
use vstd::prelude::*;

verus! {

/// What one call of a plugin's processing came to.
#[derive(Clone, Copy, Debug, PartialEq, Eq, Structural)]
pub enum ProcessStatus {
    /// The plugin produced meaningful output.
    Normal,
    /// The plugin is producing its tail: the samples that remain of it.
    Tail(u32),
    /// Keep the plugin alive even if its input is silent.
    KeepAlive,
}

/// One call that a wrapper made on a plugin, with all that went in and came out.
pub enum RuntimeCall {
    /// A parameter took a new plain value.
    SetPlain { id: u32, value: u64 },
    /// The parameter values of a saved state were restored.
    RestoreValues { params: Seq<(u32, u64)> },
    /// The smoothers jumped to their targets.
    SnapSmoothers,
    /// The plugin's own bytes of a saved state were handed to it.
    LoadState { bytes: Seq<u8>, failure: Option<StateLoadError> },
    /// A stretch of samples was processed.
    Process {
        start: int,
        len: int,
        events: Seq<Event>,
        pool: Seq<u8>,
        transport: TransportInfo,
        out_before: (Seq<Event>, Seq<u8>),
        out_after: (Seq<Event>, Seq<u8>),
        status: ProcessStatus,
    },
}

/// A plugin, as a format wrapper drives it.
///
/// An implementation keeps the history of the calls that were made on it, and
/// appends system-exclusive output only through [`EventList::push_sysex`] and
/// [`EventList::push_sysex_on_port`].
pub trait PluginRuntime {
    /// Every call made on this plugin so far, oldest first.
    closed spec fn trace(&self) -> Seq<RuntimeCall> {
        Seq::empty()
    }

    /// The latency and the tail that the plugin reports, in samples.
    closed spec fn reported_latency(&self) -> u32 {
        0
    }

    closed spec fn reported_tail(&self) -> u32 {
        0
    }

    /// Sets the plain value of a parameter.
    fn set_plain(&mut self, id: u32, value: u64)
        ensures
            final(self).trace() == old(self).trace().push(RuntimeCall::SetPlain { id, value }),
    ;

    /// Restores the plain values of parameters, by id.
    fn restore_values(&mut self, params: &Vec<(u32, u64)>)
        ensures
            final(self).trace() == old(self).trace().push(
                RuntimeCall::RestoreValues { params: params@ },
            ),
    ;

    /// Lets every smoother jump to its target.
    fn snap_smoothers(&mut self)
        ensures
            final(self).trace() == old(self).trace().push(RuntimeCall::SnapSmoothers),
    ;

    /// Hands the plugin its own bytes of a saved state.
    fn load_state(&mut self, bytes: &Vec<u8>) -> (r: Result<(), StateLoadError>)
        ensures
            final(self).trace() == old(self).trace().push(
                RuntimeCall::LoadState { bytes: bytes@, failure: failure_of(r) },
            ),
    ;

    /// Processes `num_samples` samples of the block, from `block_start` on. The
    /// offsets of `events`, and of what is appended to `output_events`, count
    /// from there.
    fn process(
        &mut self,
        block_start: usize,
        num_samples: usize,
        events: &EventList,
        transport: &TransportInfo,
        output_events: &mut EventList,
    ) -> (status: ProcessStatus)
        requires
            events.wf(),
            old(output_events).wf(),
        ensures
            final(output_events).wf(),
            final(self).trace() == old(self).trace().push(
                RuntimeCall::Process {
                    start: block_start as int,
                    len: num_samples as int,
                    events: events.events@,
                    pool: events.pool@,
                    transport: *transport,
                    out_before: (old(output_events).events@, old(output_events).pool@),
                    out_after: (final(output_events).events@, final(output_events).pool@),
                    status,
                },
            ),
    ;

    fn latency(&self) -> (r: u32)
        ensures
            r == self.reported_latency(),
    ;

    fn tail(&self) -> (r: u32)
        ensures
            r == self.reported_tail(),
    ;
}

/// The parameter changes among the first `n` events, in order.
pub open spec fn param_changes(events: Seq<Event>, n: int) -> Seq<(u32, u64)>
    decreases n,
{
    if n <= 0 {
        Seq::empty()
    } else {
        match events[n - 1].body {
            EventBody::ParamChange { id, value } => param_changes(events, n - 1).push((id, value)),
            _ => param_changes(events, n - 1),
        }
    }
}

/// The values that a block's events set parameters to, in order. They are targets:
/// a parameter that is smoothed goes on moving towards its own.
pub fn sync_params(events: &EventList) -> (r: Vec<(u32, u64)>)
    ensures
        r@ == param_changes(events.events@, events.events@.len() as int),
{
    let mut r: Vec<(u32, u64)> = Vec::new();
    let mut i: usize = 0;
    while i < events.events.len()
        invariant
            i <= events.events@.len(),
            r@ == param_changes(events.events@, i as int),
        decreases events.events@.len() - i,
    {
        if let EventBody::ParamChange { id, value } = events.events[i].body {
            r.push((id, value));
        }
        i = i + 1;
    }
    r
}

/// The changes among some events are those of the events that are changes, each with its
/// own parameter and value, in their order.
pub proof fn law_changes_are_those_of_the_events(events: Seq<Event>, n: int)
    requires
        0 <= n <= events.len(),
    ensures
        param_changes(events, n) == events.take(n).filter(
            |e: Event| e.body is ParamChange,
        ).map_values(|e: Event| (e.body->ParamChange_id, e.body->ParamChange_value)),
    decreases n,
{
    reveal(Seq::filter);
    let is_change = |e: Event| e.body is ParamChange;
    let change = |e: Event| (e.body->ParamChange_id, e.body->ParamChange_value);
    let some = events.take(n);
    if n == 0 {
        assert(param_changes(events, n) =~= some.filter(is_change).map_values(change));
    } else {
        law_changes_are_those_of_the_events(events, n - 1);
        let front = events.take(n - 1);
        assert(some.drop_last() =~= front);
        assert(some.last() == events[n - 1]);
        if some.last().body is ParamChange {
            assert(some.filter(is_change) == front.filter(is_change).push(some.last()));
            assert(front.filter(is_change).push(some.last()).map_values(change) =~= front.filter(
                is_change,
            ).map_values(change).push(change(some.last())));
        } else {
            assert(some.filter(is_change) == front.filter(is_change));
        }
    }
}

} // verus!
