//! Sample-accurate parameter-dependent chunking.
//!
//! A host block is split into sub-blocks at the sample offset of every change of
//! a chunkable parameter and of every transport event. A parameter's new value
//! is set at the sub-block boundary where its event sits, so smoothers see their
//! target at the right sample.
use crate::events::{
    at_offset, is_sysex, payload, payload_in_range, payloads_in_range, push_payload,
    sorted_by_offset, stably_sorted, Event, EventBody, EventList, TransportInfo,
    SYSEX_POOL_PREALLOC,
};
use crate::params::ParamInfo;
use crate::process::{PluginRuntime, ProcessStatus, RuntimeCall};
use vstd::prelude::*;

verus! {

/// The first parameter with this id is one whose changes split a block.
pub open spec fn chunked(id: u32, infos: Seq<ParamInfo>) -> bool
    decreases infos.len(),
{
    if infos.len() == 0 {
        false
    } else if infos[0].id == id {
        infos[0].flags.chunked
    } else {
        chunked(id, infos.skip(1))
    }
}

pub fn is_chunked(id: u32, param_infos: &Vec<ParamInfo>) -> (r: bool)
    ensures
        r == chunked(id, param_infos@),
{
    let mut i: usize = 0;
    proof {
        assert(param_infos@.skip(0) =~= param_infos@);
    }
    while i < param_infos.len()
        invariant
            i <= param_infos@.len(),
            chunked(id, param_infos@.skip(i as int)) == chunked(id, param_infos@),
        decreases param_infos@.len() - i,
    {
        proof {
            assert(param_infos@.skip(i as int).skip(1) =~= param_infos@.skip(i + 1));
        }
        if param_infos[i].id == id {
            return param_infos[i].flags.chunked;
        }
        i = i + 1;
    }
    false
}

/// Events that a block is split at: a change or a monophonic modulation of a
/// chunked parameter, and every transport event.
pub open spec fn splits(body: EventBody, infos: Seq<ParamInfo>) -> bool {
    match body {
        EventBody::ParamChange { id, .. } => chunked(id, infos),
        EventBody::ParamMod { id, note_id, .. } => note_id == -1 && chunked(id, infos),
        EventBody::Transport(_) => true,
        _ => false,
    }
}

pub fn is_split_event(body: &EventBody, param_infos: &Vec<ParamInfo>) -> (r: bool)
    ensures
        r == splits(*body, param_infos@),
{
    match *body {
        EventBody::ParamChange { id, .. } => is_chunked(id, param_infos),
        EventBody::ParamMod { id, note_id, .. } => note_id == -1 && is_chunked(id, param_infos),
        EventBody::Transport(_) => true,
        _ => false,
    }
}

/// The first event from index `from` on, at sample `min_offset` or later, that a
/// block is split at: its offset and its index.
pub open spec fn next_split(
    events: Seq<Event>,
    infos: Seq<ParamInfo>,
    from: int,
    min_offset: int,
) -> Option<(int, int)>
    decreases events.len() - from,
{
    if from >= events.len() || from < 0 {
        None
    } else if events[from].sample_offset >= min_offset && splits(events[from].body, infos) {
        Some((events[from].sample_offset as int, from))
    } else {
        next_split(events, infos, from + 1, min_offset)
    }
}

pub fn find_next_split(
    events: &EventList,
    param_infos: &Vec<ParamInfo>,
    from: usize,
    min_offset: usize,
) -> (r: Option<(usize, usize)>)
    ensures
        match r {
            Some((offset, index)) => next_split(
                events.events@,
                param_infos@,
                from as int,
                min_offset as int,
            ) == Some((offset as int, index as int)),
            None => next_split(events.events@, param_infos@, from as int, min_offset as int)
                is None,
        },
{
    let mut i: usize = from;
    while i < events.events.len()
        invariant
            from <= i,
            next_split(events.events@, param_infos@, i as int, min_offset as int) == next_split(
                events.events@,
                param_infos@,
                from as int,
                min_offset as int,
            ),
        decreases events.events@.len() - i,
    {
        let event: Event = events.events[i];
        let offset: usize = event.sample_offset as usize;
        if offset >= min_offset && is_split_event(&event.body, param_infos) {
            return Some((offset, i));
        }
        i = i + 1;
    }
    None
}

/// Index of the first event from `from` on that lies at `end` or later.
pub open spec fn pending_end(events: Seq<Event>, from: int, end: int) -> int
    decreases events.len() - from,
{
    if from >= events.len() || from < 0 || events[from].sample_offset >= end {
        from
    } else {
        pending_end(events, from + 1, end)
    }
}

/// The parameter writes that a stretch of events asks for, in order.
pub open spec fn writes(events: Seq<Event>) -> Seq<RuntimeCall>
    decreases events.len(),
{
    if events.len() == 0 {
        Seq::empty()
    } else {
        match events.last().body {
            EventBody::ParamChange { id, value } => writes(events.drop_last()).push(
                RuntimeCall::SetPlain { id, value },
            ),
            _ => writes(events.drop_last()),
        }
    }
}

/// The transport after a stretch of events: the last transport event's, if any.
pub open spec fn transport_after(transport: TransportInfo, events: Seq<Event>) -> TransportInfo
    decreases events.len(),
{
    if events.len() == 0 {
        transport
    } else {
        match events.last().body {
            EventBody::Transport(t) => t,
            _ => transport_after(transport, events.drop_last()),
        }
    }
}

/// The events of an index range, empty where the range is.
pub open spec fn stretch(events: Seq<Event>, from: int, to: int) -> Seq<Event> {
    if 0 <= from <= to <= events.len() {
        events.subrange(from, to)
    } else {
        Seq::empty()
    }
}

proof fn lemma_pending_end_range(events: Seq<Event>, from: int, end: int)
    requires
        0 <= from <= events.len(),
    ensures
        from <= pending_end(events, from, end) <= events.len(),
        forall|i: int|
            from <= i < pending_end(events, from, end) ==> events[i].sample_offset < end,
        pending_end(events, from, end) < events.len() ==> events[pending_end(
            events,
            from,
            end,
        )].sample_offset >= end,
    decreases events.len() - from,
{
    if from < events.len() && events[from].sample_offset < end {
        lemma_pending_end_range(events, from + 1, end);
    }
}

/// Walks `events` from `*event_idx` forward past every event before `block_end`,
/// setting the parameters and the transport that they change.
pub fn apply_pending_events<P: PluginRuntime>(
    events: &EventList,
    plugin: &mut P,
    transport: &mut TransportInfo,
    event_idx: &mut usize,
    block_end: usize,
)
    requires
        *old(event_idx) <= events.events@.len(),
    ensures
        *final(event_idx) == pending_end(events.events@, *old(event_idx) as int, block_end as int),
        *final(event_idx) <= events.events@.len(),
        final(plugin).trace() == old(plugin).trace() + writes(
            stretch(events.events@, *old(event_idx) as int, *final(event_idx) as int),
        ),
        *final(transport) == transport_after(
            *old(transport),
            stretch(events.events@, *old(event_idx) as int, *final(event_idx) as int),
        ),
{
    let from: usize = *event_idx;
    let mut i: usize = from;
    let ghost all = events.events@;
    let ghost trace0 = plugin.trace();
    let ghost transport0 = *transport;
    proof {
        assert(stretch(all, from as int, from as int) =~= Seq::empty());
        assert(trace0 + Seq::<RuntimeCall>::empty() =~= trace0);
    }
    while i < events.events.len() && (events.events[i].sample_offset as usize) < block_end
        invariant
            from <= i <= all.len(),
            all == events.events@,
            pending_end(all, i as int, block_end as int) == pending_end(
                all,
                from as int,
                block_end as int,
            ),
            plugin.trace() == trace0 + writes(stretch(all, from as int, i as int)),
            *transport == transport_after(transport0, stretch(all, from as int, i as int)),
        decreases all.len() - i,
    {
        let event: Event = events.events[i];
        proof {
            let longer = stretch(all, from as int, i + 1);
            assert(longer.drop_last() =~= stretch(all, from as int, i as int));
            assert(longer.last() == event);
        }
        let ghost before = plugin.trace();
        match event.body {
            EventBody::ParamChange { id, value } => {
                plugin.set_plain(id, value);
                proof {
                    assert(plugin.trace() =~= trace0 + writes(stretch(all, from as int, i + 1)));
                }
            },
            EventBody::Transport(t) => {
                *transport = t;
            },
            _ => {},
        }
        i = i + 1;
    }
    *event_idx = i;
}

/// The events of the window from `start` to `end` among the first `n`, with
/// offsets that count from `start`, and the pool that holds their payloads.
pub open spec fn rebased(
    events: Seq<Event>,
    pool: Seq<u8>,
    start: int,
    n: int,
) -> (Seq<Event>, Seq<u8>)
    decreases n,
{
    if n <= 0 {
        (Seq::empty(), Seq::empty())
    } else {
        let (before, before_pool) = rebased(events, pool, start, n - 1);
        let event = events[n - 1];
        if event.sample_offset < start {
            (before, before_pool)
        } else {
            let offset = (event.sample_offset - start) as u32;
            if is_sysex(event.body) {
                push_payload(before, before_pool, offset, event.port, payload(event.body, pool))
            } else {
                (before.push(Event { sample_offset: offset, ..event }), before_pool)
            }
        }
    }
}

/// Copies the events of the window from `block_start` to `block_end` into
/// `scratch`, with offsets that count from `block_start`. The walk ends at the
/// first event at `block_end` or later. Payloads are copied into the scratch's
/// own pool; one that does not fit there is dropped.
pub fn rebase_events_into(
    events: &EventList,
    scratch: &mut EventList,
    block_start: usize,
    block_end: usize,
)
    requires
        events.wf(),
    ensures
        (final(scratch).events@, final(scratch).pool@) == rebased(
            events.events@,
            events.pool@,
            block_start as int,
            pending_end(events.events@, 0, block_end as int),
        ),
        final(scratch).wf(),
{
    scratch.clear();
    let ghost all = events.events@;
    let mut i: usize = 0;
    while i < events.events.len() && (events.events[i].sample_offset as usize) < block_end
        invariant
            i <= all.len(),
            all == events.events@,
            events.wf(),
            scratch.wf(),
            pending_end(all, i as int, block_end as int) == pending_end(all, 0, block_end as int),
            (scratch.events@, scratch.pool@) == rebased(
                all,
                events.pool@,
                block_start as int,
                i as int,
            ),
        decreases all.len() - i,
    {
        let event: Event = events.events[i];
        let off: usize = event.sample_offset as usize;
        if off >= block_start {
            let rebased_offset: u32 = (off - block_start) as u32;
            match event.body {
                EventBody::SysEx { .. } => {
                    let bytes = events.sysex_bytes(&event.body);
                    let _ = scratch.push_sysex_on_port(rebased_offset, event.port, bytes);
                },
                body => {
                    scratch.push(Event { sample_offset: rebased_offset, port: event.port, body });
                },
            }
        }
        i = i + 1;
    }
}

/// An offset moved later by `shift`, held at the largest offset.
pub open spec fn shifted_offset(offset: u32, shift: int) -> u32 {
    if offset + shift > u32::MAX {
        u32::MAX
    } else {
        (offset + shift) as u32
    }
}

/// `events` with those from index `from` on moved later by `shift`.
pub open spec fn shifted(events: Seq<Event>, from: int, shift: int) -> Seq<Event> {
    Seq::new(
        events.len(),
        |i: int|
            if i < from {
                events[i]
            } else {
                Event {
                    sample_offset: shifted_offset(events[i].sample_offset, shift),
                    ..events[i]
                }
            },
    )
}

/// Moves every output event that the plugin pushed during a sub-block, those
/// from index `from` on, back to offsets that count from the start of the block.
pub fn rebase_output_events(output_events: &mut EventList, from: usize, sub_block_start: usize)
    ensures
        final(output_events).events@ == shifted(
            old(output_events).events@,
            from as int,
            sub_block_start as int % 0x1_0000_0000,
        ),
        final(output_events).pool == old(output_events).pool,
        old(output_events).wf() ==> final(output_events).wf(),
{
    let shift: u32 = (sub_block_start as u64 % 0x1_0000_0000) as u32;
    let ghost start = output_events.events@;
    let mut i: usize = from;
    while i < output_events.events.len()
        invariant
            from <= i,
            shift == sub_block_start as int % 0x1_0000_0000,
            output_events.pool == old(output_events).pool,
            output_events.events@.len() == start.len(),
            forall|k: int|
                0 <= k < start.len() && k < i ==> #[trigger] output_events.events@[k] == shifted(
                    start,
                    from as int,
                    shift as int,
                )[k],
            forall|k: int|
                i <= k < start.len() ==> #[trigger] output_events.events@[k] == start[k],
        decreases start.len() - i,
    {
        let event: Event = output_events.events[i];
        let moved: u32 = event.sample_offset.saturating_add(shift);
        output_events.events.set(
            i,
            Event { sample_offset: moved, port: event.port, body: event.body },
        );
        i = i + 1;
    }
    proof {
        assert(output_events.events@ =~= shifted(start, from as int, shift as int));
        if old(output_events).wf() {
            assert forall|k: int| 0 <= k < start.len() implies payload_in_range(
                #[trigger] output_events.events@[k].body,
                output_events.pool@.len(),
            ) by {
                assert(output_events.events@[k].body == start[k].body);
            }
        }
    }
}

/// Where the sub-block that starts at `start` ends, with the events before index
/// `idx` behind it: at the next split that leaves it `min_sub` samples, or with
/// the block.
pub open spec fn sub_block_end(
    events: Seq<Event>,
    infos: Seq<ParamInfo>,
    start: int,
    idx: int,
    total: int,
    min_sub: int,
) -> int {
    let coalesce_until = if start + min_sub < total {
        start + min_sub
    } else {
        total
    };
    match next_split(events, infos, idx, coalesce_until) {
        Some((offset, _)) => if offset < total {
            offset
        } else {
            total
        },
        None => total,
    }
}

/// What stays the same over one block: the events with their pool, the
/// parameters, the samples of the block, the smallest sub-block.
pub struct Block {
    pub events: Seq<Event>,
    pub pool: Seq<u8>,
    pub infos: Seq<ParamInfo>,
    pub total: int,
    pub min_sub: int,
}

/// How far a walk over the block has come: the sample and the event that it is
/// at, the transport there, the output so far, and what the plugin said last.
pub struct Progress {
    pub start: int,
    pub idx: int,
    pub transport: TransportInfo,
    pub out: (Seq<Event>, Seq<u8>),
    pub status: ProcessStatus,
}

/// The block with the events of a list.
pub open spec fn block_of(
    list: EventList,
    infos: Seq<ParamInfo>,
    total: int,
    min_sub: int,
) -> Block {
    Block { events: list.events@, pool: list.pool@, infos, total, min_sub }
}

/// The start of a block, with this transport and this output.
pub open spec fn start_of(transport: TransportInfo, out: (Seq<Event>, Seq<u8>)) -> Progress {
    Progress { start: 0, idx: 0, transport, out, status: ProcessStatus::Normal }
}

/// `calls` are the calls of a walk over the rest of the block from `at`, which
/// ends at `end`. Each sub-block sets the parameters of the events before its
/// end, then processes the samples up to there with the events of that window,
/// rebased; what the plugin put out is rebased back.
pub open spec fn walks(block: Block, at: Progress, calls: Seq<RuntimeCall>, end: Progress) -> bool
    decreases block.total - at.start,
{
    if at.start >= block.total {
        calls.len() == 0 && end == at
    } else {
        let stop = sub_block_end(
            block.events,
            block.infos,
            at.start,
            at.idx,
            block.total,
            block.min_sub,
        );
        let next_idx = pending_end(block.events, at.idx, stop);
        let passed = stretch(block.events, at.idx, next_idx);
        let sets = writes(passed);
        let transport = transport_after(at.transport, passed);
        let (window, window_pool) = rebased(
            block.events,
            block.pool,
            at.start,
            pending_end(block.events, 0, stop),
        );
        &&& stop > at.start
        &&& calls.len() > sets.len()
        &&& calls.take(sets.len() as int) == sets
        &&& match calls[sets.len() as int] {
            RuntimeCall::Process {
                start,
                len,
                events,
                pool,
                transport: t,
                out_before,
                out_after,
                status,
            } => {
                &&& start == at.start
                &&& len == stop - at.start
                &&& events == window
                &&& pool == window_pool
                &&& t == transport
                &&& out_before == at.out
                &&& walks(
                    block,
                    Progress {
                        start: stop,
                        idx: next_idx,
                        transport,
                        out: (
                            shifted(out_after.0, at.out.0.len() as int, at.start % 0x1_0000_0000),
                            out_after.1,
                        ),
                        status,
                    },
                    calls.skip(sets.len() as int + 1),
                    end,
                )
            },
            _ => false,
        }
    }
}

/// Every walk over a block ends: a sub-block has at least one sample, or no
/// event of the block splits it.
pub open spec fn can_walk(events: Seq<Event>, infos: Seq<ParamInfo>, total: int, min_sub: int) -> bool {
    min_sub >= 1 || forall|i: int|
        0 <= i < events.len() && splits(#[trigger] events[i].body, infos)
            ==> events[i].sample_offset >= total
}

/// Sorting a list keeps it walkable.
pub proof fn lemma_sorting_keeps_walkable(
    before: Seq<Event>,
    after: Seq<Event>,
    infos: Seq<ParamInfo>,
    total: int,
    min_sub: int,
)
    requires
        stably_sorted(before, after),
        can_walk(before, infos, total, min_sub),
    ensures
        can_walk(after, infos, total, min_sub),
{
    if min_sub < 1 {
        assert forall|i: int|
            0 <= i < after.len() && splits(
                #[trigger] after[i].body,
                infos,
            ) implies after[i].sample_offset >= total by {
            let k = after[i].sample_offset;
            let p = |e: Event| e.sample_offset == k;
            after.lemma_filter_contains(p, i);
            assert(at_offset(after, k).contains(after[i]));
            assert(at_offset(before, k).contains(after[i]));
            before.lemma_filter_contains_rev(p, after[i]);
            let j = choose|j: int| 0 <= j < before.len() && before[j] == after[i];
            assert(before[j].body == after[i].body);
        }
    }
}

proof fn lemma_next_split(events: Seq<Event>, infos: Seq<ParamInfo>, from: int, min_offset: int)
    requires
        from >= 0,
    ensures
        match next_split(events, infos, from, min_offset) {
            Some((offset, index)) => {
                &&& from <= index < events.len()
                &&& offset == events[index].sample_offset
                &&& offset >= min_offset
                &&& splits(events[index].body, infos)
            },
            None => true,
        },
    decreases events.len() - from,
{
    if from < events.len() && !(events[from].sample_offset >= min_offset && splits(
        events[from].body,
        infos,
    )) {
        lemma_next_split(events, infos, from + 1, min_offset);
    }
}

/// Walks the audio block in sub-blocks, processing each with the events that
/// land in it. The status of the last sub-block comes back.
pub fn process_chunked<P: PluginRuntime>(
    plugin: &mut P,
    events: &EventList,
    scratch: &mut EventList,
    transport: &mut TransportInfo,
    output_events: &mut EventList,
    param_infos: &Vec<ParamInfo>,
    total: usize,
    min_subblock_samples: u32,
) -> (status: ProcessStatus)
    requires
        events.wf(),
        old(output_events).wf(),
        can_walk(events.events@, param_infos@, total as int, min_subblock_samples as int),
    ensures
        final(output_events).wf(),
        old(plugin).trace().len() <= final(plugin).trace().len(),
        final(plugin).trace().take(old(plugin).trace().len() as int) == old(plugin).trace(),
        exists|end: Progress|
            {
                &&& #[trigger] walks(
                    block_of(*events, param_infos@, total as int, min_subblock_samples as int),
                    start_of(
                        *old(transport),
                        (old(output_events).events@, old(output_events).pool@),
                    ),
                    final(plugin).trace().skip(old(plugin).trace().len() as int),
                    end,
                )
                &&& end.start == total
                &&& end.transport == *final(transport)
                &&& end.out == (final(output_events).events@, final(output_events).pool@)
                &&& end.status == status
            },
{
    let ghost block = block_of(
        *events,
        param_infos@,
        total as int,
        min_subblock_samples as int,
    );
    let ghost trace0 = plugin.trace();
    let ghost first = start_of(*transport, (output_events.events@, output_events.pool@));
    let mut block_start: usize = 0;
    let mut event_idx: usize = 0;
    let mut last_status: ProcessStatus = ProcessStatus::Normal;
    let min_sub: usize = min_subblock_samples as usize;
    let ghost mut done: Seq<RuntimeCall> = Seq::empty();
    proof {
        assert(plugin.trace() =~= trace0 + done);
        assert forall|rest: Seq<RuntimeCall>, end: Progress| #[trigger]
            walks(block, first, rest, end) implies walks(block, first, done + rest, end) by {
            assert(done + rest =~= rest);
        }
    }
    while block_start < total
        invariant
            block_start <= total,
            event_idx <= events.events@.len(),
            min_sub == min_subblock_samples,
            events.wf(),
            output_events.wf(),
            block == block_of(
                *events,
                param_infos@,
                total as int,
                min_subblock_samples as int,
            ),
            can_walk(events.events@, param_infos@, total as int, min_subblock_samples as int),
            plugin.trace() == trace0 + done,
            forall|rest: Seq<RuntimeCall>, end: Progress|
                #![trigger walks(block, first, done + rest, end)]
                walks(
                    block,
                    Progress {
                        start: block_start as int,
                        idx: event_idx as int,
                        transport: *transport,
                        out: (output_events.events@, output_events.pool@),
                        status: last_status,
                    },
                    rest,
                    end,
                ) ==> walks(block, first, done + rest, end),
        decreases total - block_start,
    {
        let ghost at = Progress {
            start: block_start as int,
            idx: event_idx as int,
            transport: *transport,
            out: (output_events.events@, output_events.pool@),
            status: last_status,
        };
        let coalesce_until: usize = if min_sub < total - block_start {
            block_start + min_sub
        } else {
            total
        };
        let next: Option<(usize, usize)> = find_next_split(
            events,
            param_infos,
            event_idx,
            coalesce_until,
        );
        let block_end: usize = match next {
            Some((offset, _)) => if offset < total {
                offset
            } else {
                total
            },
            None => total,
        };
        proof {
            lemma_next_split(
                events.events@,
                param_infos@,
                event_idx as int,
                coalesce_until as int,
            );
            assert(block_end == sub_block_end(
                block.events,
                block.infos,
                at.start,
                at.idx,
                block.total,
                block.min_sub,
            ));
            assert(block_end > block_start);
        }
        apply_pending_events(events, plugin, transport, &mut event_idx, block_end);
        rebase_events_into(events, scratch, block_start, block_end);
        let sub_output_start: usize = output_events.len();
        let ghost before_process = plugin.trace();
        let ghost sets = writes(stretch(block.events, at.idx, event_idx as int));
        last_status =
        plugin.process(block_start, block_end - block_start, scratch, transport, output_events);
        let ghost call = plugin.trace().last();
        rebase_output_events(output_events, sub_output_start, block_start);
        let ghost done0 = done;
        proof {
            done = done0 + sets.push(call);
            assert(plugin.trace() =~= trace0 + done);
            let next_at = Progress {
                start: block_end as int,
                idx: event_idx as int,
                transport: *transport,
                out: (output_events.events@, output_events.pool@),
                status: last_status,
            };
            assert forall|rest: Seq<RuntimeCall>, end: Progress|
                #![trigger walks(block, first, done + rest, end)]
                walks(block, next_at, rest, end) implies walks(block, first, done + rest, end) by {
                let calls = sets.push(call) + rest;
                assert(calls.take(sets.len() as int) =~= sets);
                assert(calls[sets.len() as int] == call);
                assert(calls.skip(sets.len() as int + 1) =~= rest);
                assert(walks(block, at, calls, end));
                assert(done0 + calls =~= done + rest);
            }
        }
        block_start = block_end;
    }
    proof {
        let end = Progress {
            start: total as int,
            idx: event_idx as int,
            transport: *transport,
            out: (output_events.events@, output_events.pool@),
            status: last_status,
        };
        let none = Seq::<RuntimeCall>::empty();
        assert(walks(block, end, none, end));
        assert(done + none =~= done);
        assert(walks(block, first, done + none, end));
        assert(plugin.trace().skip(trace0.len() as int) =~= done);
        assert(plugin.trace().take(trace0.len() as int) =~= trace0);
    }
    last_status
}

/// The samples that some calls processed.
pub open spec fn samples_processed(calls: Seq<RuntimeCall>) -> int
    decreases calls.len(),
{
    if calls.len() == 0 {
        0
    } else {
        samples_processed(calls.skip(1)) + match calls[0] {
            RuntimeCall::Process { len, .. } => len,
            _ => 0,
        }
    }
}

/// The parameter writes among some calls.
pub open spec fn sets_among(calls: Seq<RuntimeCall>) -> Seq<RuntimeCall>
    decreases calls.len(),
{
    if calls.len() == 0 {
        Seq::empty()
    } else if calls[0] is SetPlain {
        seq![calls[0]] + sets_among(calls.skip(1))
    } else {
        sets_among(calls.skip(1))
    }
}

/// What an event says, wherever its payload is kept: the sample, the port, the
/// body or the payload.
pub struct Heard {
    pub sample: int,
    pub port: u8,
    pub body: Option<EventBody>,
    pub bytes: Seq<u8>,
}

/// What an event of a list with this pool says, where the list's offsets count
/// from sample `base`.
pub open spec fn heard_event(event: Event, pool: Seq<u8>, base: int) -> Heard {
    Heard {
        sample: event.sample_offset + base,
        port: event.port,
        body: if is_sysex(event.body) {
            None
        } else {
            Some(event.body)
        },
        bytes: payload(event.body, pool),
    }
}

pub open spec fn heard(events: Seq<Event>, pool: Seq<u8>, base: int) -> Seq<Heard> {
    Seq::new(events.len(), |i: int| heard_event(events[i], pool, base))
}

/// What the plugin was told over some calls, in samples of the block.
pub open spec fn heard_among(calls: Seq<RuntimeCall>) -> Seq<Heard>
    decreases calls.len(),
{
    if calls.len() == 0 {
        Seq::empty()
    } else {
        match calls[0] {
            RuntimeCall::Process { start, events, pool, .. } => heard(events, pool, start)
                + heard_among(calls.skip(1)),
            _ => heard_among(calls.skip(1)),
        }
    }
}

/// The bytes of all payloads of the first `n` events together.
pub open spec fn payload_total(events: Seq<Event>, n: int) -> int
    decreases n,
{
    if n <= 0 {
        0
    } else {
        payload_total(events, n - 1) + match events[n - 1].body {
            EventBody::SysEx { len, .. } => len as int,
            _ => 0,
        }
    }
}

proof fn lemma_payload_total_grows(events: Seq<Event>, m: int, n: int)
    requires
        m <= n,
    ensures
        payload_total(events, m) <= payload_total(events, n),
        payload_total(events, m) >= 0,
    decreases n, m,
{
    if m > 0 {
        lemma_payload_total_grows(events, m - 1, m - 1);
    }
    if m < n && n > 0 {
        lemma_payload_total_grows(events, m, n - 1);
    }
}

proof fn lemma_writes_are_sets(events: Seq<Event>)
    ensures
        forall|i: int| 0 <= i < writes(events).len() ==> (#[trigger] writes(events)[i]) is SetPlain,
    decreases events.len(),
{
    if events.len() > 0 {
        lemma_writes_are_sets(events.drop_last());
    }
}

/// A run of parameter writes in front of other calls.
proof fn lemma_behind_sets(sets: Seq<RuntimeCall>, rest: Seq<RuntimeCall>)
    requires
        forall|i: int| 0 <= i < sets.len() ==> (#[trigger] sets[i]) is SetPlain,
    ensures
        samples_processed(sets + rest) == samples_processed(rest),
        sets_among(sets + rest) == sets + sets_among(rest),
        heard_among(sets + rest) == heard_among(rest),
    decreases sets.len(),
{
    if sets.len() == 0 {
        assert(sets + rest =~= rest);
        assert(sets + sets_among(rest) =~= sets_among(rest));
    } else {
        let calls = sets + rest;
        assert(calls[0] == sets[0] && sets[0] is SetPlain);
        assert(calls.skip(1) =~= sets.skip(1) + rest);
        lemma_behind_sets(sets.skip(1), rest);
        assert(sets + sets_among(rest) =~= seq![sets[0]] + (sets.skip(1) + sets_among(rest)));
    }
}

proof fn lemma_writes_join(a: Seq<Event>, b: Seq<Event>)
    ensures
        writes(a + b) == writes(a) + writes(b),
    decreases b.len(),
{
    if b.len() == 0 {
        assert(a + b =~= a);
        assert(writes(a) + writes(b) =~= writes(a));
    } else {
        assert((a + b).drop_last() =~= a + b.drop_last());
        assert((a + b).last() == b.last());
        lemma_writes_join(a, b.drop_last());
        assert(writes(a + b) =~= writes(a) + writes(b));
    }
}

/// Events that were passed on the way to an earlier end are passed on the way to
/// a later one.
proof fn lemma_pending_end_continues(events: Seq<Event>, from: int, mid: int, end: int)
    requires
        0 <= from <= mid <= events.len(),
        forall|i: int| from <= i < mid ==> events[i].sample_offset < end,
    ensures
        pending_end(events, from, end) == pending_end(events, mid, end),
    decreases mid - from,
{
    if from < mid {
        assert(events[from].sample_offset < end);
        lemma_pending_end_continues(events, from + 1, mid, end);
    }
}

/// The parts of one sub-block of a walk.
proof fn lemma_walk_step(block: Block, at: Progress, calls: Seq<RuntimeCall>, end: Progress) -> (r: (
    Seq<RuntimeCall>,
    Progress,
))
    requires
        walks(block, at, calls, end),
        at.start < block.total,
        0 <= at.idx <= block.events.len(),
    ensures
        ({
            let stop = sub_block_end(
                block.events,
                block.infos,
                at.start,
                at.idx,
                block.total,
                block.min_sub,
            );
            let sets = writes(
                stretch(block.events, at.idx, pending_end(block.events, at.idx, stop)),
            );
            let (rest, next) = r;
            let window = rebased(
                block.events,
                block.pool,
                at.start,
                pending_end(block.events, 0, stop),
            );
            &&& at.start < stop <= block.total
            &&& calls.len() > sets.len()
            &&& calls.take(sets.len() as int) == sets
            &&& rest == calls.skip(sets.len() as int + 1)
            &&& calls[sets.len() as int] matches RuntimeCall::Process { start, len, .. } && start
                == at.start && len == stop - at.start
            &&& next.start == stop
            &&& next.idx == pending_end(block.events, at.idx, stop)
            &&& at.idx <= next.idx <= block.events.len()
            &&& walks(block, next, rest, end)
            &&& samples_processed(calls) == stop - at.start + samples_processed(rest)
            &&& sets_among(calls) == sets + sets_among(rest)
            &&& heard_among(calls) == heard(window.0, window.1, at.start) + heard_among(rest)
        }),
{
    let stop = sub_block_end(
        block.events,
        block.infos,
        at.start,
        at.idx,
        block.total,
        block.min_sub,
    );
    let next_idx = pending_end(block.events, at.idx, stop);
    let passed = stretch(block.events, at.idx, next_idx);
    let sets = writes(passed);
    let n = sets.len() as int;
    let behind = calls.skip(n);
    let rest = calls.skip(n + 1);
    assert(calls =~= sets + behind) by {
        assert(calls.take(n) + calls.skip(n) =~= calls);
    }
    assert(behind[0] == calls[n]);
    assert(behind.skip(1) =~= rest);
    lemma_writes_are_sets(passed);
    lemma_behind_sets(sets, behind);
    lemma_pending_end_range(block.events, at.idx, stop);
    match calls[n] {
        RuntimeCall::Process { out_after, status, .. } => (
            rest,
            Progress {
                start: stop,
                idx: next_idx,
                transport: transport_after(at.transport, passed),
                out: (
                    shifted(out_after.0, at.out.0.len() as int, at.start % 0x1_0000_0000),
                    out_after.1,
                ),
                status,
            },
        ),
        _ => (rest, at),
    }
}

/// The sub-blocks of a walk cover the block exactly: together they process
/// every sample of it.
pub proof fn law_walk_covers_block(block: Block, at: Progress, calls: Seq<RuntimeCall>, end: Progress)
    requires
        walks(block, at, calls, end),
        0 <= at.start <= block.total,
        0 <= at.idx <= block.events.len(),
    ensures
        samples_processed(calls) == block.total - at.start,
        end.start == block.total,
    decreases block.total - at.start,
{
    if at.start < block.total {
        let (rest, next) = lemma_walk_step(block, at, calls, end);
        law_walk_covers_block(block, next, rest, end);
    }
}

/// An event that a block is split at lies at this sample.
pub open spec fn split_at(block: Block, sample: int) -> bool {
    exists|k: int|
        0 <= k < block.events.len() && (#[trigger] block.events[k]).sample_offset == sample
            && splits(block.events[k].body, block.infos)
}

/// Every sub-block of a walk but the last has at least the smallest number of samples,
/// and every one but the first starts at an event that the block is split at.
pub proof fn law_sub_blocks_start_at_splits(
    block: Block,
    at: Progress,
    calls: Seq<RuntimeCall>,
    end: Progress,
)
    requires
        walks(block, at, calls, end),
        0 <= at.start <= block.total,
        0 <= at.idx <= block.events.len(),
    ensures
        forall|i: int|
            0 <= i < calls.len() ==> ((#[trigger] calls[i]) matches RuntimeCall::Process {
                start,
                len,
                ..
            } ==> {
                &&& start + len == block.total || len >= block.min_sub
                &&& start == at.start || split_at(block, start as int)
            }),
    decreases block.total - at.start,
{
    if at.start < block.total {
        let (rest, next) = lemma_walk_step(block, at, calls, end);
        let stop = next.start;
        let until = if at.start + block.min_sub < block.total {
            at.start + block.min_sub
        } else {
            block.total
        };
        lemma_next_split(block.events, block.infos, at.idx, until);
        if stop < block.total {
            let (offset, k) = next_split(block.events, block.infos, at.idx, until)->0;
            assert(block.events[k].sample_offset == stop);
            assert(split_at(block, stop));
            assert(stop - at.start >= block.min_sub);
        }
        law_sub_blocks_start_at_splits(block, next, rest, end);
        let passed = stretch(block.events, at.idx, pending_end(block.events, at.idx, stop));
        let n = writes(passed).len() as int;
        lemma_writes_are_sets(passed);
        assert forall|i: int| 0 <= i < calls.len() implies ((
        #[trigger] calls[i]) matches RuntimeCall::Process { start, len, .. } ==> {
            &&& start + len == block.total || len >= block.min_sub
            &&& start == at.start || split_at(block, start as int)
        }) by {
            if i < n {
                assert(calls.take(n)[i] == calls[i]);
                assert(writes(passed)[i] is SetPlain);
            } else if i > n {
                assert(rest[i - n - 1] == calls[i]);
                if stop == block.total {
                    assert(rest.len() == 0);
                }
            }
        }
    }
}

/// A walk sets every parameter change of the block's samples, once, in order.
pub proof fn law_walk_sets_every_change(
    block: Block,
    at: Progress,
    calls: Seq<RuntimeCall>,
    end: Progress,
)
    requires
        walks(block, at, calls, end),
        0 <= at.start <= block.total,
        0 <= at.idx <= block.events.len(),
        at.start == block.total ==> pending_end(block.events, at.idx, block.total) == at.idx,
    ensures
        sets_among(calls) == writes(
            stretch(block.events, at.idx, pending_end(block.events, at.idx, block.total)),
        ),
    decreases block.total - at.start,
{
    let events = block.events;
    lemma_pending_end_range(events, at.idx, block.total);
    if at.start < block.total {
        let (rest, next) = lemma_walk_step(block, at, calls, end);
        lemma_pending_end_range(events, at.idx, next.start);
        lemma_pending_end_continues(events, at.idx, next.idx, block.total);
        lemma_pending_end_range(events, next.idx, block.total);
        law_walk_sets_every_change(block, next, rest, end);
        let last = pending_end(events, at.idx, block.total);
        lemma_writes_join(stretch(events, at.idx, next.idx), stretch(events, next.idx, last));
        assert(stretch(events, at.idx, next.idx) + stretch(events, next.idx, last) =~= stretch(
            events,
            at.idx,
            last,
        ));
    } else {
        assert(stretch(events, at.idx, at.idx) =~= Seq::empty());
    }
}

/// What a window of sorted events says after rebasing is what its events say.
proof fn lemma_rebased_says_the_same(
    events: Seq<Event>,
    pool: Seq<u8>,
    start: int,
    lo: int,
    n: int,
)
    requires
        0 <= lo <= n <= events.len(),
        start >= 0,
        forall|i: int| 0 <= i < lo ==> events[i].sample_offset < start,
        forall|i: int| lo <= i < n ==> events[i].sample_offset >= start,
        forall|i: int|
            0 <= i < events.len() ==> payload_in_range(#[trigger] events[i].body, pool.len()),
        payload_total(events, n) <= SYSEX_POOL_PREALLOC,
    ensures
        ({
            let (window, window_pool) = rebased(events, pool, start, n);
            &&& heard(window, window_pool, start) == heard(events.subrange(lo, n), pool, 0)
            &&& window_pool.len() <= payload_total(events, n)
            &&& forall|i: int|
                0 <= i < window.len() ==> payload_in_range(
                    #[trigger] window[i].body,
                    window_pool.len(),
                )
        }),
    decreases n,
{
    let (window, window_pool) = rebased(events, pool, start, n);
    lemma_payload_total_grows(events, n - 1, n);
    lemma_payload_total_grows(events, n, n);
    if n == 0 {
        assert(heard(window, window_pool, start) =~= heard(events.subrange(lo, n), pool, 0));
    } else if n == lo {
        lemma_rebased_says_the_same(events, pool, start, lo - 1, n - 1);
        assert(events.subrange(lo, n) =~= events.subrange(lo - 1, n - 1));
    } else {
        lemma_rebased_says_the_same(events, pool, start, lo, n - 1);
        let (before, before_pool) = rebased(events, pool, start, n - 1);
        let event = events[n - 1];
        assert(payload_in_range(event.body, pool.len()));
        assert(window.drop_last() =~= before);
        let theirs = heard(events.subrange(lo, n), pool, 0);
        let ours = heard(window, window_pool, start);
        assert(ours.len() == theirs.len()) by {
            assert(heard(before, before_pool, start).len() == heard(
                events.subrange(lo, n - 1),
                pool,
                0,
            ).len());
        }
        assert forall|i: int| 0 <= i < ours.len() implies ours[i] == theirs[i] by {
            if i < ours.len() - 1 {
                assert(window[i] == before[i]);
                assert(payload_in_range(before[i].body, before_pool.len()));
                assert(payload(before[i].body, window_pool) =~= payload(
                    before[i].body,
                    before_pool,
                ));
                assert(heard(before, before_pool, start)[i] == heard(
                    events.subrange(lo, n - 1),
                    pool,
                    0,
                )[i]);
            } else {
                assert(payload(window[i].body, window_pool) =~= payload(event.body, pool));
            }
        }
        assert(ours =~= theirs);
        assert forall|i: int| 0 <= i < window.len() implies payload_in_range(
            #[trigger] window[i].body,
            window_pool.len(),
        ) by {
            if i < window.len() - 1 {
                assert(window[i] == before[i]);
                assert(payload_in_range(before[i].body, before_pool.len()));
            }
        }
    }
}

/// A walk over sorted events tells the plugin every event of the block's
/// samples, once, in order, at its own sample, with its own payload.
pub proof fn law_walk_hands_over_every_event(
    block: Block,
    at: Progress,
    calls: Seq<RuntimeCall>,
    end: Progress,
)
    requires
        walks(block, at, calls, end),
        0 <= at.start <= block.total,
        at.idx == pending_end(block.events, 0, at.start),
        sorted_by_offset(block.events),
        payloads_in_range(block.events, block.pool.len()),
        payload_total(block.events, block.events.len() as int) <= SYSEX_POOL_PREALLOC,
    ensures
        heard_among(calls) == heard(
            stretch(block.events, at.idx, pending_end(block.events, 0, block.total)),
            block.pool,
            0,
        ),
    decreases block.total - at.start,
{
    let events = block.events;
    let last = pending_end(events, 0, block.total);
    lemma_pending_end_range(events, 0, at.start);
    lemma_pending_end_range(events, 0, block.total);
    if at.start < block.total {
        let (rest, next) = lemma_walk_step(block, at, calls, end);
        let stop = next.start;
        lemma_pending_end_continues(events, 0, at.idx, stop);
        lemma_pending_end_range(events, 0, stop);
        lemma_pending_end_continues(events, 0, next.idx, block.total);
        lemma_pending_end_range(events, next.idx, block.total);
        law_walk_hands_over_every_event(block, next, rest, end);
        assert forall|i: int| at.idx <= i < next.idx implies events[i].sample_offset >= at.start by {
            assert(events[at.idx].sample_offset <= events[i].sample_offset);
        }
        lemma_payload_total_grows(events, next.idx, events.len() as int);
        lemma_rebased_says_the_same(events, block.pool, at.start, at.idx, next.idx);
        assert(heard(events.subrange(at.idx, next.idx), block.pool, 0) + heard(
            stretch(events, next.idx, last),
            block.pool,
            0,
        ) =~= heard(stretch(events, at.idx, last), block.pool, 0));
    } else {
        assert(heard_among(calls) =~= heard(stretch(events, at.idx, last), block.pool, 0));
    }
}

/// Output offsets that a plugin counts from the start of its sub-block come back
/// as offsets of the block: moving an event into the window that starts at
/// `start` and back leaves it where it was.
pub proof fn law_rebase_round_trip(event: Event, pool: Seq<u8>, start: int)
    requires
        0 <= start <= event.sample_offset,
        !is_sysex(event.body),
    ensures
        shifted(rebased(seq![event], pool, start, 1).0, 0, start % 0x1_0000_0000) == seq![event],
{
    reveal_with_fuel(rebased, 2);
    assert(rebased(seq![event], pool, start, 1).0 =~= seq![
        Event { sample_offset: (event.sample_offset - start) as u32, ..event },
    ]);
    assert(shifted(rebased(seq![event], pool, start, 1).0, 0, start % 0x1_0000_0000) =~= seq![
        event,
    ]);
}

/// Whether a change splits a block is the flag of its own parameter, wherever that
/// stands in the list: of several with one id, the first counts. A modulation does so
/// where it is of no single note. Changes of unknown parameters do not split, transport
/// events always do, and nothing else does.
pub proof fn law_changes_split_by_their_parameter(infos: Seq<ParamInfo>, body: EventBody)
    ensures
        forall|i: int, value: u64|
            0 <= i < infos.len() && (forall|j: int| 0 <= j < i ==> (#[trigger] infos[j]).id != infos[i].id)
                ==> #[trigger] splits(EventBody::ParamChange { id: infos[i].id, value }, infos)
                == infos[i].flags.chunked,
        forall|i: int, note_id: i32, value: u64|
            0 <= i < infos.len() && (forall|j: int| 0 <= j < i ==> (#[trigger] infos[j]).id != infos[i].id)
                ==> #[trigger] splits(
                EventBody::ParamMod { id: infos[i].id, note_id, value },
                infos,
            ) == (note_id == -1 && infos[i].flags.chunked),
        splits(body, infos) ==> match body {
            EventBody::ParamChange { id, .. } => exists|i: int|
                0 <= i < infos.len() && (#[trigger] infos[i]).id == id && infos[i].flags.chunked,
            EventBody::ParamMod { id, note_id, .. } => note_id == -1 && exists|i: int|
                0 <= i < infos.len() && (#[trigger] infos[i]).id == id && infos[i].flags.chunked,
            EventBody::Transport(_) => true,
            _ => false,
        },
        body is Transport ==> splits(body, infos),
{
    assert forall|i: int|
        0 <= i < infos.len() && (forall|j: int| 0 <= j < i ==> (#[trigger] infos[j]).id != infos[i].id) implies (
    #[trigger] chunked(infos[i].id, infos)) == infos[i].flags.chunked by {
        lemma_first_with_id(infos, i);
    }
    match body {
        EventBody::ParamChange { id, .. } => lemma_chunked_is_listed(infos, id),
        EventBody::ParamMod { id, .. } => lemma_chunked_is_listed(infos, id),
        _ => {},
    }
}

proof fn lemma_first_with_id(infos: Seq<ParamInfo>, i: int)
    requires
        0 <= i < infos.len(),
        forall|j: int| 0 <= j < i ==> (#[trigger] infos[j]).id != infos[i].id,
    ensures
        chunked(infos[i].id, infos) == infos[i].flags.chunked,
    decreases i,
{
    if i > 0 {
        let rest = infos.skip(1);
        assert(infos[0].id != infos[i].id);
        assert forall|j: int| 0 <= j < i - 1 implies (#[trigger] rest[j]).id
            != rest[i - 1].id by {
            assert(rest[j] == infos[j + 1]);
        }
        lemma_first_with_id(rest, i - 1);
    }
}

proof fn lemma_chunked_is_listed(infos: Seq<ParamInfo>, id: u32)
    ensures
        chunked(id, infos) ==> exists|i: int|
            0 <= i < infos.len() && (#[trigger] infos[i]).id == id && infos[i].flags.chunked,
    decreases infos.len(),
{
    if chunked(id, infos) && infos[0].id != id {
        let rest = infos.skip(1);
        lemma_chunked_is_listed(rest, id);
        let i = choose|i: int|
            0 <= i < rest.len() && (#[trigger] rest[i]).id == id && rest[i].flags.chunked;
        assert(infos[i + 1] == rest[i]);
    }
}

/// Where a walk stands at one of its sub-blocks, and behind it.
proof fn lemma_at_process(
    block: Block,
    at: Progress,
    calls: Seq<RuntimeCall>,
    end: Progress,
    i: int,
) -> (r: (Progress, Progress))
    requires
        walks(block, at, calls, end),
        0 <= at.start <= block.total,
        at.idx == pending_end(block.events, 0, at.start),
        sorted_by_offset(block.events),
        0 <= i < calls.len(),
        calls[i] is Process,
    ensures
        ({
            let (p, next) = r;
            let stop = sub_block_end(
                block.events,
                block.infos,
                p.start,
                p.idx,
                block.total,
                block.min_sub,
            );
            let passed = stretch(block.events, at.idx, pending_end(block.events, 0, stop));
            &&& at.start <= p.start < stop <= block.total
            &&& p.idx == pending_end(block.events, 0, p.start)
            &&& match calls[i] {
                RuntimeCall::Process {
                    start,
                    len,
                    events,
                    pool,
                    transport,
                    out_before,
                    out_after,
                    status,
                } => {
                    &&& start == p.start
                    &&& len == stop - p.start
                    &&& (events, pool) == rebased(
                        block.events,
                        block.pool,
                        p.start,
                        pending_end(block.events, 0, stop),
                    )
                    &&& transport == transport_after(at.transport, passed)
                    &&& out_before == p.out
                    &&& next.start == stop
                    &&& next.transport == transport
                    &&& next.status == status
                    &&& next.out == (
                        shifted(out_after.0, p.out.0.len() as int, p.start % 0x1_0000_0000),
                        out_after.1,
                    )
                },
                _ => false,
            }
            &&& sets_among(calls.take(i)) == writes(passed)
            &&& next.idx == pending_end(block.events, 0, stop)
            &&& walks(block, next, calls.skip(i + 1), end)
            &&& (forall|j: int| 0 <= j < i ==> !(#[trigger] calls[j] is Process)) ==> p.out
                == at.out && p.start == at.start
        }),
    decreases block.total - at.start,
{
    let events = block.events;
    let stop = sub_block_end(events, block.infos, at.start, at.idx, block.total, block.min_sub);
    lemma_pending_end_range(events, 0, at.start);
    lemma_pending_end_range(events, at.idx, stop);
    lemma_pending_end_continues(events, 0, at.idx, stop);
    let next_idx = pending_end(events, at.idx, stop);
    let passed = stretch(events, at.idx, next_idx);
    let sets = writes(passed);
    let n = sets.len() as int;
    lemma_writes_are_sets(passed);
    assert(calls.take(n) == sets);
    let next = match calls[n] {
        RuntimeCall::Process { out_after, status, .. } => Progress {
            start: stop,
            idx: next_idx,
            transport: transport_after(at.transport, passed),
            out: (
                shifted(out_after.0, at.out.0.len() as int, at.start % 0x1_0000_0000),
                out_after.1,
            ),
            status,
        },
        _ => at,
    };
    if i < n {
        assert(calls.take(n)[i] == calls[i]);
        assert(sets[i] is SetPlain);
        (at, at)
    } else if i == n {
        assert(calls.take(i) =~= sets + Seq::<RuntimeCall>::empty());
        lemma_behind_sets(sets, Seq::empty());
        assert(sets_among(calls.take(i)) =~= sets);
        (at, next)
    } else {
        let rest = calls.skip(n + 1);
        assert(rest[i - n - 1] == calls[i]);
        let r = lemma_at_process(block, next, rest, end, i - n - 1);
        let last = r.1.idx;
        lemma_pending_end_range(events, 0, r.1.start);
        assert(rest.skip(i - n) =~= calls.skip(i + 1));
        let behind = calls.take(i).skip(n);
        assert(calls.take(i) =~= sets + behind) by {
            assert(calls.take(i).take(n) =~= calls.take(n));
        }
        assert(behind.skip(1) =~= rest.take(i - n - 1));
        assert(behind[0] == calls[n]);
        lemma_behind_sets(sets, behind);
        assert(next_idx <= last) by {
            lemma_pending_end_grows(events, 0, stop, r.1.start);
        }
        lemma_writes_join(passed, stretch(events, next_idx, last));
        assert(passed + stretch(events, next_idx, last) =~= stretch(events, at.idx, last));
        lemma_transport_joins(at.transport, passed, stretch(events, next_idx, last));
        assert(calls[n] is Process);
        r
    }
}

proof fn lemma_pending_end_grows(events: Seq<Event>, from: int, a: int, b: int)
    requires
        0 <= from <= events.len(),
        a <= b,
    ensures
        pending_end(events, from, a) <= pending_end(events, from, b),
    decreases events.len() - from,
{
    lemma_pending_end_range(events, from, b);
    if from < events.len() && events[from].sample_offset < a {
        lemma_pending_end_grows(events, from + 1, a, b);
    }
}

proof fn lemma_transport_joins(transport: TransportInfo, a: Seq<Event>, b: Seq<Event>)
    ensures
        transport_after(transport_after(transport, a), b) == transport_after(transport, a + b),
    decreases b.len(),
{
    if b.len() == 0 {
        assert(a + b =~= a);
    } else {
        assert((a + b).drop_last() =~= a + b.drop_last());
        assert((a + b).last() == b.last());
        lemma_transport_joins(transport, a, b.drop_last());
    }
}

/// Whether the events are walked from the start of the block.
pub open spec fn at_the_start(block: Block, at: Progress) -> bool {
    at.start == 0 && at.idx == 0 && block.total >= 0 && sorted_by_offset(block.events)
}

/// No split is passed over: no sub-block holds, behind the smallest number of samples, a
/// sample at which an event splits the block. Such an event starts the next sub-block.
pub proof fn law_no_split_is_passed_over(
    block: Block,
    at: Progress,
    calls: Seq<RuntimeCall>,
    end: Progress,
)
    requires
        walks(block, at, calls, end),
        at_the_start(block, at),
    ensures
        forall|i: int, k: int|
            0 <= i < calls.len() && 0 <= k < block.events.len() && splits(
                block.events[k].body,
                block.infos,
            ) ==> ((#[trigger] calls[i]) matches RuntimeCall::Process { start, len, .. } ==> !(start
                + block.min_sub <= (#[trigger] block.events[k]).sample_offset < start + len && start
                < block.events[k].sample_offset)),
        forall|i: int, k: int|
            0 <= i < calls.len() && 0 <= k < block.events.len() && splits(
                block.events[k].body,
                block.infos,
            ) ==> ((#[trigger] calls[i]) matches RuntimeCall::Process { start, len, .. } ==> ((
            #[trigger] block.events[k]).sample_offset == start + len && start + len < block.total
                ==> exists|j: int|
                i < j < calls.len() && (#[trigger] calls[j] matches RuntimeCall::Process {
                    start: next,
                    ..
                } && next == start + len))),
{
    let events = block.events;
    lemma_pending_end_at_zero(events);
    assert forall|i: int, k: int|
        0 <= i < calls.len() && 0 <= k < block.events.len() && splits(
            block.events[k].body,
            block.infos,
        ) implies ((#[trigger] calls[i]) matches RuntimeCall::Process { start, len, .. } ==> !(start
        + block.min_sub <= (#[trigger] block.events[k]).sample_offset < start + len && start
        < block.events[k].sample_offset)) by {
        if calls[i] is Process {
            let (p, next) = lemma_at_process(block, at, calls, end, i);
            let off = events[k].sample_offset as int;
            if p.start + block.min_sub <= off < next.start && p.start < off {
                lemma_pending_end_range(events, 0, p.start);
                assert(p.idx <= k);
                let until = p.start + block.min_sub;
                lemma_first_split(events, block.infos, p.idx, until, k);
                lemma_next_split(events, block.infos, p.idx, until);
                let (offset, m) = next_split(events, block.infos, p.idx, until)->0;
                assert(events[m].sample_offset <= events[k].sample_offset);
            }
        }
    }
    assert forall|i: int, k: int|
        0 <= i < calls.len() && 0 <= k < block.events.len() && splits(
            block.events[k].body,
            block.infos,
        ) implies ((#[trigger] calls[i]) matches RuntimeCall::Process { start, len, .. } ==> ((
    #[trigger] block.events[k]).sample_offset == start + len && start + len < block.total
        ==> exists|j: int|
        i < j < calls.len() && (#[trigger] calls[j] matches RuntimeCall::Process {
            start: next,
            ..
        } && next == start + len))) by {
        if calls[i] is Process {
            let (p, next) = lemma_at_process(block, at, calls, end, i);
            if next.start < block.total {
                let rest = calls.skip(i + 1);
                let stop = sub_block_end(
                    events,
                    block.infos,
                    next.start,
                    next.idx,
                    block.total,
                    block.min_sub,
                );
                let n = writes(
                    stretch(events, next.idx, pending_end(events, next.idx, stop)),
                ).len() as int;
                assert(rest[n] == calls[i + 1 + n]);
                assert(calls[i + 1 + n] is Process);
            }
        }
    }
}

/// Every sample of the block is processed in one sub-block.
proof fn lemma_sample_is_processed(
    block: Block,
    at: Progress,
    calls: Seq<RuntimeCall>,
    end: Progress,
    sample: int,
) -> (i: int)
    requires
        walks(block, at, calls, end),
        at.start <= sample < block.total,
        0 <= at.idx <= block.events.len(),
    ensures
        0 <= i < calls.len(),
        calls[i] matches RuntimeCall::Process { start, len, .. } && start <= sample < start + len,
    decreases block.total - at.start,
{
    let (rest, next) = lemma_walk_step(block, at, calls, end);
    let stop = next.start;
    let n = writes(
        stretch(block.events, at.idx, pending_end(block.events, at.idx, stop)),
    ).len() as int;
    if sample < stop {
        n
    } else {
        let i = lemma_sample_is_processed(block, next, rest, end, sample);
        assert(rest[i] == calls[n + 1 + i]);
        n + 1 + i
    }
}

/// An event that splits the block starts a sub-block, unless it comes within the smallest
/// number of samples behind the start of one.
pub proof fn law_a_split_starts_a_sub_block(
    block: Block,
    at: Progress,
    calls: Seq<RuntimeCall>,
    end: Progress,
    k: int,
)
    requires
        walks(block, at, calls, end),
        at_the_start(block, at),
        0 <= k < block.events.len(),
        splits(block.events[k].body, block.infos),
        block.events[k].sample_offset < block.total,
    ensures
        exists|i: int|
            0 <= i < calls.len() && (#[trigger] calls[i] matches RuntimeCall::Process {
                start,
                len,
                ..
            } && start <= block.events[k].sample_offset < start + len && (start
                == block.events[k].sample_offset || block.events[k].sample_offset < start
                + block.min_sub)),
{
    let i = lemma_sample_is_processed(
        block,
        at,
        calls,
        end,
        block.events[k].sample_offset as int,
    );
    law_no_split_is_passed_over(block, at, calls, end);
    assert(calls[i] is Process);
    assert(splits(block.events[k].body, block.infos));
}

proof fn lemma_pending_end_at_zero(events: Seq<Event>)
    ensures
        pending_end(events, 0, 0) == 0,
{
}

proof fn lemma_first_split(
    events: Seq<Event>,
    infos: Seq<ParamInfo>,
    from: int,
    min_offset: int,
    k: int,
)
    requires
        0 <= from <= k < events.len(),
        events[k].sample_offset >= min_offset,
        splits(events[k].body, infos),
    ensures
        next_split(events, infos, from, min_offset) matches Some((_, m)) && m <= k,
    decreases k - from,
{
    if from < k {
        lemma_first_split(events, infos, from + 1, min_offset, k);
    }
}

/// The events of a stretch of samples, in their order.
pub open spec fn within(events: Seq<Event>, from: int, to: int) -> Seq<Event> {
    events.filter(|e: Event| from <= e.sample_offset < to)
}

proof fn lemma_within_is_stretch(events: Seq<Event>, from: int, to: int)
    requires
        sorted_by_offset(events),
        from <= to,
    ensures
        within(events, from, to) == stretch(
            events,
            pending_end(events, 0, from),
            pending_end(events, 0, to),
        ),
        0 <= pending_end(events, 0, from) <= pending_end(events, 0, to) <= events.len(),
{
    let keep = |e: Event| from <= e.sample_offset < to;
    let a = pending_end(events, 0, from);
    let b = pending_end(events, 0, to);
    lemma_pending_end_range(events, 0, from);
    lemma_pending_end_range(events, 0, to);
    lemma_pending_end_grows(events, 0, from, to);
    let front = events.take(a);
    let mid = events.subrange(a, b);
    let back = events.skip(b);
    assert(events =~= front + mid + back);
    Seq::filter_distributes_over_add(front + mid, back, keep);
    Seq::filter_distributes_over_add(front, mid, keep);
    assert forall|i: int| 0 <= i < front.len() implies !keep(#[trigger] front[i]) by {
        assert(front[i] == events[i]);
    }
    assert forall|i: int| 0 <= i < back.len() implies !keep(#[trigger] back[i]) by {
        assert(back[i] == events[b + i]);
        assert(events[b].sample_offset <= events[b + i].sample_offset);
    }
    assert forall|i: int| 0 <= i < mid.len() implies keep(#[trigger] mid[i]) by {
        assert(mid[i] == events[a + i]);
        assert(events[a].sample_offset <= events[a + i].sample_offset);
    }
    lemma_filter_all_or_none(front, keep);
    lemma_filter_all_or_none(mid, keep);
    lemma_filter_all_or_none(back, keep);
    assert(Seq::<Event>::empty() + mid + Seq::<Event>::empty() =~= mid);
}

proof fn lemma_filter_all_or_none(events: Seq<Event>, keep: spec_fn(Event) -> bool)
    ensures
        (forall|i: int| 0 <= i < events.len() ==> keep(#[trigger] events[i])) ==> events.filter(
            keep,
        ) == events,
        (forall|i: int| 0 <= i < events.len() ==> !keep(#[trigger] events[i])) ==> events.filter(
            keep,
        ) == Seq::<Event>::empty(),
    decreases events.len(),
{
    reveal(Seq::filter);
    if events.len() > 0 {
        let front = events.drop_last();
        lemma_filter_all_or_none(front, keep);
        assert(forall|i: int| 0 <= i < front.len() ==> #[trigger] front[i] == events[i]);
        assert(events[events.len() - 1] == events.last());
        assert(front.push(events.last()) =~= events);
    } else {
        assert(events =~= Seq::empty());
    }
}

/// The parameter changes among some events, in their order: each parameter and its new
/// value.
pub open spec fn changes_among(events: Seq<Event>) -> Seq<(u32, u64)> {
    events.filter(|e: Event| e.body is ParamChange).map_values(
        |e: Event| (e.body->ParamChange_id, e.body->ParamChange_value),
    )
}

/// The parameters that calls set, in their order: each parameter and its new value.
pub open spec fn set_by(calls: Seq<RuntimeCall>) -> Seq<(u32, u64)> {
    sets_among(calls).map_values(
        |call: RuntimeCall| (call->SetPlain_id, call->SetPlain_value),
    )
}

proof fn lemma_writes_are_changes(events: Seq<Event>)
    ensures
        writes(events).map_values(
            |call: RuntimeCall| (call->SetPlain_id, call->SetPlain_value),
        ) == changes_among(events),
    decreases events.len(),
{
    reveal(Seq::filter);
    let pair = |call: RuntimeCall| (call->SetPlain_id, call->SetPlain_value);
    if events.len() == 0 {
        assert(writes(events).map_values(pair) =~= changes_among(events));
    } else {
        let front = events.drop_last();
        let last = events.last();
        let is_change = |e: Event| e.body is ParamChange;
        let change = |e: Event| (e.body->ParamChange_id, e.body->ParamChange_value);
        lemma_writes_are_changes(front);
        if last.body is ParamChange {
            assert(events.filter(is_change) == front.filter(is_change).push(last));
            assert(front.filter(is_change).push(last).map_values(change) =~= changes_among(
                front,
            ).push(change(last)));
            let set = RuntimeCall::SetPlain {
                id: last.body->ParamChange_id,
                value: last.body->ParamChange_value,
            };
            assert(writes(events) == writes(front).push(set));
            assert(writes(front).push(set).map_values(pair) =~= writes(front).map_values(
                pair,
            ).push(pair(set)));
        } else {
            assert(events.filter(is_change) == front.filter(is_change));
        }
        assert(writes(events).map_values(pair) =~= changes_among(events));
    }
}

/// Each change is set in time, and not before: when a sub-block is processed, what was set
/// are the changes at the samples in front of its end, in their order, each once.
pub proof fn law_changes_are_set_in_time(
    block: Block,
    at: Progress,
    calls: Seq<RuntimeCall>,
    end: Progress,
)
    requires
        walks(block, at, calls, end),
        at_the_start(block, at),
    ensures
        forall|i: int|
            0 <= i < calls.len() ==> ((#[trigger] calls[i]) matches RuntimeCall::Process {
                start,
                len,
                ..
            } ==> set_by(calls.take(i)) == changes_among(within(block.events, 0, start + len))),
{
    lemma_pending_end_at_zero(block.events);
    assert forall|i: int| 0 <= i < calls.len() implies ((
    #[trigger] calls[i]) matches RuntimeCall::Process { start, len, .. } ==> set_by(calls.take(i))
        == changes_among(within(block.events, 0, start + len))) by {
        if calls[i] is Process {
            let (p, next) = lemma_at_process(block, at, calls, end, i);
            lemma_within_is_stretch(block.events, 0, next.start);
            lemma_writes_are_changes(within(block.events, 0, next.start));
        }
    }
}

/// Among the events in front of a sample, `k` is the last that says where the transport
/// is; below zero, none does.
pub open spec fn last_transport(events: Seq<Event>, sample: int, k: int) -> bool {
    &&& k < events.len()
    &&& k >= 0 ==> events[k].body is Transport && events[k].sample_offset < sample
    &&& forall|m: int|
        0 <= m < events.len() && k < m && (#[trigger] events[m]).sample_offset < sample
            ==> !(events[m].body is Transport)
}

/// A sub-block hears the transport of the last transport event in front of its end, and
/// the block's own where there is none.
pub proof fn law_sub_blocks_hear_the_latest_transport(
    block: Block,
    at: Progress,
    calls: Seq<RuntimeCall>,
    end: Progress,
    i: int,
    k: int,
)
    requires
        walks(block, at, calls, end),
        at_the_start(block, at),
        0 <= i < calls.len(),
        calls[i] is Process,
        last_transport(block.events, calls[i]->Process_start + calls[i]->len, k),
    ensures
        calls[i]->Process_transport == if k >= 0 {
            block.events[k].body->Transport_0
        } else {
            at.transport
        },
{
    let events = block.events;
    lemma_pending_end_at_zero(events);
    let (p, next) = lemma_at_process(block, at, calls, end, i);
    lemma_pending_end_range(events, 0, next.start);
    let b = pending_end(events, 0, next.start);
    let passed = stretch(events, 0, b);
    if k >= b {
        assert(events[b].sample_offset <= events[k].sample_offset);
    }
    assert forall|m: int| k < m < passed.len() && 0 <= m implies !((
    #[trigger] passed[m]).body is Transport) by {
        assert(passed[m] == events[m]);
    }
    if k >= 0 {
        assert(passed[k] == events[k]);
        lemma_last_transport(at.transport, passed, k);
    } else {
        lemma_last_transport(at.transport, passed, -1);
    }
}

proof fn lemma_last_transport(transport: TransportInfo, events: Seq<Event>, k: int)
    requires
        -1 <= k < events.len(),
        k >= 0 ==> events[k].body is Transport,
        forall|m: int| k < m < events.len() ==> !((#[trigger] events[m]).body is Transport),
    ensures
        k < 0 ==> transport_after(transport, events) == transport,
        k >= 0 ==> transport_after(transport, events) == events[k].body->Transport_0,
    decreases events.len(),
{
    if events.len() > 0 {
        let front = events.drop_last();
        if k < events.len() - 1 {
            assert(!(events[events.len() - 1].body is Transport));
            assert forall|m: int| k < m < front.len() implies !((
            #[trigger] front[m]).body is Transport) by {
                assert(front[m] == events[m]);
            }
            lemma_last_transport(transport, front, k);
        }
    }
}

/// A sub-block is told exactly the events at its own samples, in their order, at offsets
/// that count from its start, with their own ports, bodies and payloads.
pub proof fn law_sub_blocks_hear_their_own_events(
    block: Block,
    at: Progress,
    calls: Seq<RuntimeCall>,
    end: Progress,
)
    requires
        walks(block, at, calls, end),
        at_the_start(block, at),
        payloads_in_range(block.events, block.pool.len()),
        payload_total(block.events, block.events.len() as int) <= SYSEX_POOL_PREALLOC,
    ensures
        forall|i: int|
            0 <= i < calls.len() ==> ((#[trigger] calls[i]) matches RuntimeCall::Process {
                start,
                len,
                events,
                pool,
                ..
            } ==> heard(events, pool, start) == heard(
                within(block.events, start, start + len),
                block.pool,
                0,
            )),
{
    let events = block.events;
    lemma_pending_end_at_zero(events);
    assert forall|i: int| 0 <= i < calls.len() implies ((
    #[trigger] calls[i]) matches RuntimeCall::Process { start, len, events: window, pool, .. }
        ==> heard(window, pool, start) == heard(
        within(block.events, start, start + len),
        block.pool,
        0,
    )) by {
        if calls[i] is Process {
            let (p, next) = lemma_at_process(block, at, calls, end, i);
            lemma_within_is_stretch(events, p.start, next.start);
            let a = pending_end(events, 0, p.start);
            let b = pending_end(events, 0, next.start);
            lemma_pending_end_range(events, 0, p.start);
            lemma_pending_end_range(events, 0, next.start);
            assert forall|k: int| a <= k < b implies events[k].sample_offset >= p.start by {
                assert(events[a].sample_offset <= events[k].sample_offset);
            }
            lemma_payload_total_grows(events, b, events.len() as int);
            lemma_rebased_says_the_same(events, block.pool, p.start, a, b);
        }
    }
}

/// What the plugin puts out keeps its order, and counts from the start of the block: what
/// a sub-block adds comes out later by the sub-block's start, what was there before and
/// the payloads stay, and the next sub-block finds all of it.
pub proof fn law_output_counts_from_the_block(
    block: Block,
    at: Progress,
    calls: Seq<RuntimeCall>,
    end: Progress,
    i: int,
    j: int,
)
    requires
        walks(block, at, calls, end),
        at_the_start(block, at),
        block.total <= u32::MAX,
        0 <= i < j <= calls.len(),
        calls[i] is Process,
        j < calls.len() ==> calls[j] is Process,
        forall|m: int| i < m < j ==> !(#[trigger] calls[m] is Process),
    ensures
        ({
            let (out, pool) = if j < calls.len() {
                calls[j]->out_before
            } else {
                end.out
            };
            let before = calls[i]->out_before.0;
            let after = calls[i]->out_after.0;
            &&& out.len() == after.len()
            &&& pool == calls[i]->out_after.1
            &&& forall|k: int|
                0 <= k < out.len() ==> {
                    let moved = after[k].sample_offset + (calls[i]->Process_start);
                    &&& (#[trigger] out[k]).body == after[k].body
                    &&& out[k].port == after[k].port
                    &&& out[k].sample_offset == if k < before.len() {
                        after[k].sample_offset as int
                    } else if moved > u32::MAX {
                        u32::MAX as int
                    } else {
                        moved
                    }
                }
        }),
        j == calls.len() ==> end.status == calls[i]->status,
{
    lemma_pending_end_at_zero(block.events);
    let (p, next) = lemma_at_process(block, at, calls, end, i);
    let rest = calls.skip(i + 1);
    if j < calls.len() {
        assert(rest[j - i - 1] == calls[j]);
        assert forall|m: int| 0 <= m < j - i - 1 implies !(#[trigger] rest[m] is Process) by {
            assert(rest[m] == calls[m + i + 1]);
        }
        let (q, _) = lemma_at_process(block, next, rest, end, j - i - 1);
    } else if next.start < block.total {
        let stop = sub_block_end(
            block.events,
            block.infos,
            next.start,
            next.idx,
            block.total,
            block.min_sub,
        );
        let n = writes(
            stretch(block.events, next.idx, pending_end(block.events, next.idx, stop)),
        ).len() as int;
        assert(rest[n] == calls[i + 1 + n]);
        assert(calls[i + 1 + n] is Process);
    }
}

/// A walk starts at the first sample and the first event of a block, with the transport and
/// the output that it is given; the block has the list's own events and payloads.
pub proof fn law_walks_start_at_the_first_sample(
    list: EventList,
    infos: Seq<ParamInfo>,
    total: int,
    min_sub: int,
    transport: TransportInfo,
    out: (Seq<Event>, Seq<u8>),
)
    ensures
        ({
            let block = block_of(list, infos, total, min_sub);
            let at = start_of(transport, out);
            &&& block.events == list.events@ && block.pool == list.pool@
            &&& block.infos == infos && block.total == total && block.min_sub == min_sub
            &&& at.start == 0 && at.idx == 0 && at.transport == transport && at.out == out
            &&& at.status is Normal
            &&& total >= 0 && sorted_by_offset(list.events@) ==> at_the_start(block, at)
        }),
{
}

/// A block can be walked where its sub-blocks have a smallest size, and where nothing splits
/// it.
pub proof fn law_blocks_that_can_be_walked(
    events: Seq<Event>,
    infos: Seq<ParamInfo>,
    total: int,
    min_sub: int,
)
    ensures
        min_sub >= 1 ==> can_walk(events, infos, total, min_sub),
        (forall|i: int| 0 <= i < events.len() ==> !splits((#[trigger] events[i]).body, infos))
            ==> can_walk(events, infos, total, min_sub),
{
}

} // verus!
