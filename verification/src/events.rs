//! Event types that cross the boundary between host and plugin.
//!
//! [`EventBody`] carries MIDI 1.0 and MIDI 2.0 channel-voice messages in their
//! wire-native integer shapes. Parameter values and transport positions are
//! carried as the bit patterns of IEEE doubles: nothing here computes with
//! them. Every MIDI variant has the `group` that packet hosts address one of
//! sixteen groups with.
use vstd::prelude::*;

verus! {

/// Bit pattern of the double `120.0`.
pub const TEMPO_120_BITS: u64 = 0x405E_0000_0000_0000;

/// Bit pattern of the double `4.0`.
pub const FOUR_BITS: u64 = 0x4010_0000_0000_0000;

/// Default reserved capacity of the event lists that format wrappers hold.
pub const EVENT_LIST_PREALLOC: usize = 256;

/// Size in bytes of the payload pool of an event list.
pub const SYSEX_POOL_PREALLOC: usize = 131_072;

/// Host transport state at one point of a block.
#[derive(Clone, Copy, Debug, PartialEq, Eq, Structural)]
pub struct TransportInfo {
    pub playing: bool,
    pub recording: bool,
    pub tempo: u64,
    pub time_sig_num: u8,
    pub time_sig_den: u8,
    pub position_samples: i64,
    pub position_seconds: u64,
    pub position_beats: u64,
    pub bar_start_beats: u64,
    pub loop_active: bool,
    pub loop_start_beats: u64,
    pub loop_end_beats: u64,
}

impl TransportInfo {
    /// Stopped, at position zero, with every number zero.
    pub open spec fn stopped() -> TransportInfo {
        TransportInfo {
            playing: false,
            recording: false,
            tempo: 0,
            time_sig_num: 0,
            time_sig_den: 0,
            position_samples: 0,
            position_seconds: 0,
            position_beats: 0,
            bar_start_beats: 0,
            loop_active: false,
            loop_start_beats: 0,
            loop_end_beats: 0,
        }
    }

    /// Synthetic transport for snapshot tests: playing at 120 BPM in 4/4, at
    /// beat 4.
    #[must_use]
    pub fn for_screenshot() -> (r: Self)
        ensures
            r == (TransportInfo {
                playing: true,
                tempo: TEMPO_120_BITS,
                time_sig_num: 4,
                time_sig_den: 4,
                position_beats: FOUR_BITS,
                ..TransportInfo::stopped()
            }),
    {
        TransportInfo {
            playing: true,
            tempo: TEMPO_120_BITS,
            time_sig_num: 4,
            time_sig_den: 4,
            position_beats: FOUR_BITS,
            ..TransportInfo::default()
        }
    }
}

impl Default for TransportInfo {
    fn default() -> (r: Self)
        ensures
            r == TransportInfo::stopped(),
    {
        TransportInfo {
            playing: false,
            recording: false,
            tempo: 0,
            time_sig_num: 0,
            time_sig_den: 0,
            position_samples: 0,
            position_seconds: 0,
            position_beats: 0,
            bar_start_beats: 0,
            loop_active: false,
            loop_start_beats: 0,
            loop_end_beats: 0,
        }
    }
}

/// What an event says.
#[allow(inconsistent_fields)]
#[derive(Clone, Copy, Debug, PartialEq, Eq)]
pub enum EventBody {
    /// Note on. A MIDI 1.0 note-on with velocity zero is a [`EventBody::NoteOff`];
    /// parsers normalise it.
    NoteOn { group: u8, channel: u8, note: u8, velocity: u8 },
    NoteOff { group: u8, channel: u8, note: u8, velocity: u8 },
    /// Polyphonic key pressure.
    Aftertouch { group: u8, channel: u8, note: u8, pressure: u8 },
    ChannelPressure { group: u8, channel: u8, pressure: u8 },
    ControlChange { group: u8, channel: u8, cc: u8, value: u8 },
    /// 14-bit pitch bend, `0..=16383` with `8192` at the centre.
    PitchBend { group: u8, channel: u8, value: u16 },
    ProgramChange { group: u8, channel: u8, program: u8 },
    /// MIDI 2.0 note on: a velocity of zero is a genuine zero.
    NoteOn2 {
        group: u8,
        channel: u8,
        note: u8,
        velocity: u16,
        attribute_type: u8,
        attribute: u16,
    },
    NoteOff2 {
        group: u8,
        channel: u8,
        note: u8,
        velocity: u16,
        attribute_type: u8,
        attribute: u16,
    },
    PolyPressure2 { group: u8, channel: u8, note: u8, pressure: u32 },
    /// MIDI 2.0 per-note controller, registered or assignable.
    PerNoteCC { group: u8, channel: u8, note: u8, cc: u8, value: u32, registered: bool },
    PerNotePitchBend { group: u8, channel: u8, note: u8, value: u32 },
    PerNoteManagement { group: u8, channel: u8, note: u8, flags: u8 },
    ControlChange2 { group: u8, channel: u8, cc: u8, value: u32 },
    ChannelPressure2 { group: u8, channel: u8, pressure: u32 },
    PitchBend2 { group: u8, channel: u8, value: u32 },
    /// MIDI 2.0 program change, with the bank pair where one is selected.
    ProgramChange2 { group: u8, channel: u8, program: u8, bank: Option<(u8, u8)> },
    RegisteredController { group: u8, channel: u8, bank: u8, index: u8, value: u32 },
    AssignableController { group: u8, channel: u8, bank: u8, index: u8, value: u32 },
    /// A parameter takes a new plain value.
    ParamChange { id: u32, value: u64 },
    /// A modulation offset on a parameter; `note_id` is `-1` for a monophonic one.
    ParamMod { id: u32, note_id: i32, value: u64 },
    Transport(TransportInfo),
    /// A system-exclusive message; its bytes stand in the list's pool.
    SysEx { pool_offset: u32, len: u32 },
}

/// A timestamped event within a process block.
#[derive(Clone, Copy, Debug, PartialEq, Eq)]
pub struct Event {
    /// Sample offset within the block.
    pub sample_offset: u32,
    /// MIDI port (cable) that the event came in on or goes out on.
    pub port: u8,
    pub body: EventBody,
}

impl Event {
    /// An event on the first port.
    pub fn new(sample_offset: u32, body: EventBody) -> (r: Self)
        ensures
            r == (Event { sample_offset, port: 0, body }),
    {
        Event { sample_offset, port: 0, body }
    }

    pub fn on_port(sample_offset: u32, port: u8, body: EventBody) -> (r: Self)
        ensures
            r == (Event { sample_offset, port, body }),
    {
        Event { sample_offset, port, body }
    }
}

/// Why an event could not be appended.
#[derive(Clone, Copy, Debug, PartialEq, Eq, Structural)]
pub enum PushError {
    /// The payload does not fit into what is left of the pool.
    PoolFull,
}

/// Ordered list of events within a process block, with the pool that holds the
/// payloads of its system-exclusive messages.
#[derive(Debug)]
pub struct EventList {
    pub events: Vec<Event>,
    pub pool: Vec<u8>,
}

/// The events that lie at sample `k`, in their order.
pub open spec fn at_offset(events: Seq<Event>, k: u32) -> Seq<Event> {
    events.filter(|e: Event| e.sample_offset == k)
}

/// Sample offsets never go down.
pub open spec fn sorted_by_offset(events: Seq<Event>) -> bool {
    forall|i: int, j: int|
        0 <= i <= j < events.len() ==> events[i].sample_offset <= events[j].sample_offset
}

/// `after` is `before`, sorted by sample offset; events at one offset keep the
/// order that they had. There is exactly one such sequence.
pub open spec fn stably_sorted(before: Seq<Event>, after: Seq<Event>) -> bool {
    &&& sorted_by_offset(after)
    &&& after.len() == before.len()
    &&& forall|k: u32| #[trigger] at_offset(after, k) == at_offset(before, k)
}

/// What appending a system-exclusive message comes to: the new events and the
/// new pool. A payload that does not fit is dropped whole.
pub open spec fn push_payload(
    events: Seq<Event>,
    pool: Seq<u8>,
    sample_offset: u32,
    port: u8,
    bytes: Seq<u8>,
) -> (Seq<Event>, Seq<u8>) {
    if pool.len() + bytes.len() <= SYSEX_POOL_PREALLOC {
        (
            events.push(
                Event {
                    sample_offset,
                    port,
                    body: EventBody::SysEx {
                        pool_offset: pool.len() as u32,
                        len: bytes.len() as u32,
                    },
                },
            ),
            pool + bytes,
        )
    } else {
        (events, pool)
    }
}

/// Whether `body` is a system-exclusive message.
pub open spec fn is_sysex(body: EventBody) -> bool {
    body is SysEx
}

/// The payload of `body` lies inside a pool of `pool_len` bytes.
pub open spec fn payload_in_range(body: EventBody, pool_len: nat) -> bool {
    match body {
        EventBody::SysEx { pool_offset, len } => pool_offset + len <= pool_len,
        _ => true,
    }
}

/// The bytes of a system-exclusive message; nothing for any other body.
pub open spec fn payload(body: EventBody, pool: Seq<u8>) -> Seq<u8> {
    match body {
        EventBody::SysEx { pool_offset, len } => pool.subrange(
            pool_offset as int,
            pool_offset + len,
        ),
        _ => Seq::empty(),
    }
}

/// Every payload of `events` lies inside the pool.
pub open spec fn payloads_in_range(events: Seq<Event>, pool_len: nat) -> bool {
    forall|i: int|
        0 <= i < events.len() ==> payload_in_range(#[trigger] events[i].body, pool_len)
}

impl EventList {
    /// The pool stays within its size, and every payload lies inside it.
    pub open spec fn wf(&self) -> bool {
        &&& self.pool@.len() <= SYSEX_POOL_PREALLOC
        &&& payloads_in_range(self.events@, self.pool@.len())
    }

    /// An empty list with room for `capacity` events.
    #[must_use]
    pub fn with_capacity(capacity: usize) -> (r: Self)
        ensures
            r.events@ == Seq::<Event>::empty(),
            r.pool@ == Seq::<u8>::empty(),
            r.wf(),
    {
        EventList {
            events: Vec::with_capacity(capacity),
            pool: Vec::with_capacity(SYSEX_POOL_PREALLOC),
        }
    }

    /// Appends an event. The sample offset is not held against any block size.
    pub fn push(&mut self, event: Event)
        ensures
            final(self).events@ == old(self).events@.push(event),
            final(self).pool == old(self).pool,
            old(self).wf() && !is_sysex(event.body) ==> final(self).wf(),
    {
        self.events.push(event);
    }

    /// Appends a system-exclusive message on the first port, copying its bytes.
    pub fn push_sysex(&mut self, sample_offset: u32, bytes: &[u8]) -> (r: Result<(), PushError>)
        requires
            old(self).pool@.len() <= SYSEX_POOL_PREALLOC,
        ensures
            r is Ok <==> old(self).pool@.len() + bytes@.len() <= SYSEX_POOL_PREALLOC,
            (final(self).events@, final(self).pool@) == push_payload(
                old(self).events@,
                old(self).pool@,
                sample_offset,
                0,
                bytes@,
            ),
            old(self).wf() ==> final(self).wf(),
    {
        self.push_sysex_on_port(sample_offset, 0, bytes)
    }

    /// Appends a system-exclusive message, copying its bytes into the pool.
    /// Fails, and leaves the list as it is, where they do not fit.
    pub fn push_sysex_on_port(&mut self, sample_offset: u32, port: u8, bytes: &[u8]) -> (r: Result<
        (),
        PushError,
    >)
        requires
            old(self).pool@.len() <= SYSEX_POOL_PREALLOC,
        ensures
            r is Ok <==> old(self).pool@.len() + bytes@.len() <= SYSEX_POOL_PREALLOC,
            (final(self).events@, final(self).pool@) == push_payload(
                old(self).events@,
                old(self).pool@,
                sample_offset,
                port,
                bytes@,
            ),
            old(self).wf() ==> final(self).wf(),
    {
        let start: usize = self.pool.len();
        if bytes.len() > SYSEX_POOL_PREALLOC - start {
            return Err(PushError::PoolFull);
        }
        let ghost before = self.pool@;
        let mut i: usize = 0;
        while i < bytes.len()
            invariant
                i <= bytes@.len(),
                self.pool@ == before + bytes@.take(i as int),
                self.events == old(self).events,
            decreases bytes@.len() - i,
        {
            self.pool.push(bytes[i]);
            i = i + 1;
            proof {
                assert(before + bytes@.take(i as int) =~= (before + bytes@.take(i - 1)).push(
                    bytes@[i - 1],
                ));
            }
        }
        proof {
            assert(bytes@.take(i as int) =~= bytes@);
        }
        self.events.push(
            Event {
                sample_offset,
                port,
                body: EventBody::SysEx { pool_offset: start as u32, len: bytes.len() as u32 },
            },
        );
        Ok(())
    }

    /// The bytes of a system-exclusive message of this list.
    #[must_use]
    pub fn sysex_bytes(&self, body: &EventBody) -> (r: &[u8])
        requires
            payload_in_range(*body, self.pool@.len()),
        ensures
            r@ == payload(*body, self.pool@),
    {
        let pool_len: usize = self.pool.len();
        match body {
            EventBody::SysEx { pool_offset, len } => {
                assert(*pool_offset + *len <= pool_len);
                let from: usize = *pool_offset as usize;
                vstd::slice::slice_subrange(self.pool.as_slice(), from, from + *len as usize)
            },
            _ => {
                let r = vstd::slice::slice_subrange(self.pool.as_slice(), 0, 0);
                proof {
                    assert(r@ =~= Seq::<u8>::empty());
                }
                r
            },
        }
    }

    /// Empties the list and its pool; what they have reserved stays.
    pub fn clear(&mut self)
        ensures
            final(self).events@ == Seq::<Event>::empty(),
            final(self).pool@ == Seq::<u8>::empty(),
            final(self).wf(),
    {
        self.events.clear();
        self.pool.clear();
    }

    /// Stable sort by sample offset: events at one offset stay in the order in
    /// which they were pushed.
    pub fn sort(&mut self)
        ensures
            stably_sorted(old(self).events@, final(self).events@),
            final(self).pool == old(self).pool,
            old(self).wf() ==> final(self).wf(),
    {
        let ghost start = self.events@;
        let mut i: usize = 0;
        while i < self.events.len()
            invariant
                i <= self.events@.len(),
                self.events@.len() == start.len(),
                self.pool == old(self).pool,
                sorted_by_offset(self.events@.take(i as int)),
                forall|k: u32| #[trigger] at_offset(self.events@, k) == at_offset(start, k),
                payloads_in_range(start, self.pool@.len()) ==> payloads_in_range(
                    self.events@,
                    self.pool@.len(),
                ),
            decreases self.events@.len() - i,
        {
            self.sink(i);
            i = i + 1;
        }
        proof {
            assert(self.events@.take(i as int) =~= self.events@);
        }
    }

    /// Moves the event at `at` down behind the last one that is not later.
    fn sink(&mut self, at: usize)
        requires
            at < old(self).events@.len(),
            sorted_by_offset(old(self).events@.take(at as int)),
        ensures
            final(self).pool == old(self).pool,
            final(self).events@.len() == old(self).events@.len(),
            sorted_by_offset(final(self).events@.take(at + 1)),
            forall|k: u32| #[trigger]
                at_offset(final(self).events@, k) == at_offset(old(self).events@, k),
            payloads_in_range(old(self).events@, old(self).pool@.len()) ==> payloads_in_range(
                final(self).events@,
                final(self).pool@.len(),
            ),
    {
        let ghost start = self.events@;
        let mut j: usize = at;
        proof {
            assert forall|a: int, b: int| 0 <= a <= b <= at && a != at && b != at implies start[a].sample_offset
                <= start[b].sample_offset by {
                assert(start.take(at as int)[a] == start[a]);
                assert(start.take(at as int)[b] == start[b]);
            }
        }
        while j > 0 && self.events[j].sample_offset < self.events[j - 1].sample_offset
            invariant
                j <= at < self.events@.len(),
                self.events@.len() == start.len(),
                self.pool == old(self).pool,
                forall|a: int, b: int|
                    0 <= a <= b <= at && a != j && b != j ==> self.events@[a].sample_offset
                        <= self.events@[b].sample_offset,
                forall|b: int|
                    j < b <= at ==> self.events@[j as int].sample_offset
                        <= self.events@[b].sample_offset,
                forall|k: u32| #[trigger] at_offset(self.events@, k) == at_offset(start, k),
                payloads_in_range(start, self.pool@.len()) ==> payloads_in_range(
                    self.events@,
                    self.pool@.len(),
                ),
            decreases j,
        {
            let ghost before = self.events@;
            let lower: Event = self.events[j - 1];
            let upper: Event = self.events[j];
            self.events.set(j - 1, upper);
            self.events.set(j, lower);
            proof {
                lemma_swap_keeps_offsets(before, j - 1);
                assert(self.events@ =~= swap_adjacent(before, j - 1));
                assert forall|k: u32| #[trigger]
                    at_offset(self.events@, k) == at_offset(start, k) by {
                    assert(at_offset(before, k) == at_offset(start, k));
                }
            }
            j = j - 1;
        }
        proof {
            let sunk = self.events@.take(at + 1);
            assert forall|a: int, b: int| 0 <= a <= b < at + 1 implies (#[trigger]
            sunk[a]).sample_offset <= (#[trigger] sunk[b]).sample_offset by {
                if b == j && a < j {
                    assert(self.events@[a].sample_offset <= self.events@[j - 1].sample_offset);
                }
            }
        }
    }

    #[must_use]
    pub fn get(&self, index: usize) -> (r: Option<&Event>)
        ensures
            match r {
                Some(e) => index < self.events@.len() && *e == self.events@[index as int],
                None => index >= self.events@.len(),
            },
    {
        if index < self.events.len() {
            Some(&self.events[index])
        } else {
            None
        }
    }

    /// The events, in the order of the list.
    #[must_use]
    pub fn iter(&self) -> (r: &[Event])
        ensures
            r@ == self.events@,
    {
        self.events.as_slice()
    }

    #[must_use]
    pub fn len(&self) -> (r: usize)
        ensures
            r == self.events@.len(),
    {
        self.events.len()
    }

    #[must_use]
    pub fn is_empty(&self) -> (r: bool)
        ensures
            r == (self.events@.len() == 0),
    {
        self.events.len() == 0
    }
}

impl Default for EventList {
    fn default() -> (r: Self)
        ensures
            r.events@ == Seq::<Event>::empty(),
            r.pool@ == Seq::<u8>::empty(),
            r.wf(),
    {
        EventList { events: Vec::new(), pool: Vec::new() }
    }
}

/// `events` with the one at `i` and the one behind it exchanged.
spec fn swap_adjacent(events: Seq<Event>, i: int) -> Seq<Event> {
    events.update(i, events[i + 1]).update(i + 1, events[i])
}

/// Exchanging two neighbours at different offsets leaves the order at every
/// single offset as it was.
proof fn lemma_swap_keeps_offsets(events: Seq<Event>, i: int)
    requires
        0 <= i < events.len() - 1,
        events[i].sample_offset != events[i + 1].sample_offset,
    ensures
        forall|k: u32| #[trigger]
            at_offset(swap_adjacent(events, i), k) == at_offset(events, k),
{
    let swapped = swap_adjacent(events, i);
    assert forall|k: u32| #[trigger] at_offset(swapped, k) == at_offset(events, k) by {
        let p = |e: Event| e.sample_offset == k;
        let head = events.take(i);
        let tail = events.skip(i + 2);
        let x = events[i];
        let y = events[i + 1];
        assert(events =~= head + (seq![x, y] + tail));
        assert(swapped =~= head + (seq![y, x] + tail));
        Seq::filter_distributes_over_add(head, seq![x, y] + tail, p);
        Seq::filter_distributes_over_add(head, seq![y, x] + tail, p);
        Seq::filter_distributes_over_add(seq![x, y], tail, p);
        Seq::filter_distributes_over_add(seq![y, x], tail, p);
        assert(seq![x, y].filter(p) =~= seq![y, x].filter(p)) by {
            reveal_with_fuel(Seq::filter, 3);
            assert(seq![x, y].drop_last() =~= seq![x]);
            assert(seq![y, x].drop_last() =~= seq![y]);
            assert(seq![x].drop_last() =~= Seq::<Event>::empty());
            assert(seq![y].drop_last() =~= Seq::<Event>::empty());
        }
    }
}

/// A system-exclusive message that is appended can be read back byte for byte, at its own
/// sample and port, and those in front of it keep their bytes. It is refused only where the
/// pool would grow above 131072 bytes; then nothing changes.
pub proof fn law_payloads_read_back(
    events: Seq<Event>,
    pool: Seq<u8>,
    sample_offset: u32,
    port: u8,
    bytes: Seq<u8>,
    earlier: EventBody,
)
    requires
        payload_in_range(earlier, pool.len()),
    ensures
        ({
            let (after, after_pool) = push_payload(events, pool, sample_offset, port, bytes);
            let last = after.last();
            &&& pool.len() + bytes.len() <= 131072 ==> {
                &&& after.len() == events.len() + 1
                &&& after.take(events.len() as int) == events
                &&& last.sample_offset == sample_offset && last.port == port
                &&& last.body is SysEx && payload(last.body, after_pool) == bytes
                &&& payload_in_range(last.body, after_pool.len())
                &&& payload(earlier, after_pool) == payload(earlier, pool)
            }
            &&& pool.len() + bytes.len() > 131072 ==> after == events && after_pool == pool
        }),
{
    let (after, after_pool) = push_payload(events, pool, sample_offset, port, bytes);
    if pool.len() + bytes.len() <= 131072 {
        assert(after.take(events.len() as int) =~= events);
        assert(payload(after.last().body, after_pool) =~= bytes);
        assert(payload(earlier, after_pool) =~= payload(earlier, pool));
    }
}

/// Sorting puts events in the order of their samples and keeps all of them: at each sample
/// are the same events as before, in the order that they had.
pub proof fn law_sorting_orders_and_keeps(before: Seq<Event>, after: Seq<Event>, k: u32)
    requires
        stably_sorted(before, after),
    ensures
        forall|i: int, j: int|
            0 <= i < j < after.len() ==> (#[trigger] after[i]).sample_offset <= (
            #[trigger] after[j]).sample_offset,
        after.filter(|e: Event| e.sample_offset == k) == before.filter(
            |e: Event| e.sample_offset == k,
        ),
        after.len() == before.len(),
        before.len() > 0 ==> after.len() > 0,
{
    assert(at_offset(after, k) == at_offset(before, k));
}

} // verus!
