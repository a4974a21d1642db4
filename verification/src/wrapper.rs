//! What the Audio Unit and AAX wrappers have in common.
use crate::events::{Event, EventBody, EventList, TransportInfo};
use crate::midi::{event_to_midi1, midi1_bytes, midi1_message};
use crate::text::{copy_str_to_buf, with_text};
use vstd::prelude::*;
use vstd::string::*;

verus! {

/// The transport that a host filled in. The positions are doubles, the sample
/// position the nearest whole sample.
#[derive(Clone, Copy, Debug, PartialEq, Eq)]
pub struct HostTransport {
    pub valid: i32,
    pub playing: i32,
    pub recording: i32,
    pub loop_active: i32,
    pub time_sig_num: i32,
    pub time_sig_den: i32,
    pub tempo: u64,
    pub position_samples: i64,
    pub position_seconds: u64,
    pub position_beats: u64,
    pub bar_start_beats: u64,
    pub loop_start_beats: u64,
    pub loop_end_beats: u64,
}

/// A number held to what a byte takes.
pub open spec fn held_byte(n: i32) -> u8 {
    if n < 0 {
        0
    } else if n > 255 {
        255
    } else {
        n as u8
    }
}

/// The transport of a block: the host's where it is valid, else the default.
pub open spec fn host_transport(snapshot: Option<HostTransport>) -> TransportInfo {
    match snapshot {
        Some(t) => if t.valid != 0 {
            TransportInfo {
                playing: t.playing != 0,
                recording: t.recording != 0,
                tempo: t.tempo,
                time_sig_num: held_byte(t.time_sig_num),
                time_sig_den: held_byte(t.time_sig_den),
                position_samples: t.position_samples,
                position_seconds: t.position_seconds,
                position_beats: t.position_beats,
                bar_start_beats: t.bar_start_beats,
                loop_active: t.loop_active != 0,
                loop_start_beats: t.loop_start_beats,
                loop_end_beats: t.loop_end_beats,
            }
        } else {
            TransportInfo::stopped()
        },
        None => TransportInfo::stopped(),
    }
}

fn hold_byte(n: i32) -> (r: u8)
    ensures
        r == held_byte(n),
{
    if n < 0 {
        0
    } else if n > 255 {
        255
    } else {
        n as u8
    }
}

/// Reads a host's transport.
pub fn read_transport(snapshot: &Option<HostTransport>) -> (r: TransportInfo)
    ensures
        r == host_transport(*snapshot),
{
    match snapshot {
        Some(t) => if t.valid != 0 {
            TransportInfo {
                playing: t.playing != 0,
                recording: t.recording != 0,
                tempo: t.tempo,
                time_sig_num: hold_byte(t.time_sig_num),
                time_sig_den: hold_byte(t.time_sig_den),
                position_samples: t.position_samples,
                position_seconds: t.position_seconds,
                position_beats: t.position_beats,
                bar_start_beats: t.bar_start_beats,
                loop_active: t.loop_active != 0,
                loop_start_beats: t.loop_start_beats,
                loop_end_beats: t.loop_end_beats,
            }
        } else {
            TransportInfo::default()
        },
        None => TransportInfo::default(),
    }
}

/// The status byte and the data bytes of a body that MIDI 1.0 can carry.
pub open spec fn short_message(body: EventBody) -> Option<(u8, u8, u8)> {
    match midi1_bytes(body) {
        Some((_, status, data1, data2)) => Some((status, data1, data2)),
        None => None,
    }
}

pub fn encode_short_message(body: &EventBody) -> (r: Option<(u8, u8, u8)>)
    ensures
        r == short_message(*body),
{
    match event_to_midi1(body) {
        Some((_, bytes)) => Some((bytes[0], bytes[1], bytes[2])),
        None => None,
    }
}

/// The system-exclusive messages among some events.
pub open spec fn sysex_among(events: Seq<Event>) -> Seq<Event> {
    events.filter(|e: Event| e.body is SysEx)
}

/// How many system-exclusive messages a list holds.
pub fn output_sysex_count(list: &EventList) -> (r: u32)
    requires
        list.events@.len() <= u32::MAX,
    ensures
        r == sysex_among(list.events@).len(),
{
    let mut n: u32 = 0;
    let mut i: usize = 0;
    let ghost is_one = |e: Event| e.body is SysEx;
    proof {
        assert(list.events@.take(0).filter(is_one).len() == 0) by {
            reveal(Seq::filter);
        }
    }
    while i < list.events.len()
        invariant
            i <= list.events@.len() <= u32::MAX,
            n <= i,
            is_one == (|e: Event| e.body is SysEx),
            n == list.events@.take(i as int).filter(is_one).len(),
        decreases list.events@.len() - i,
    {
        proof {
            reveal(Seq::filter);
            assert(list.events@.take(i + 1).drop_last() =~= list.events@.take(i as int));
        }
        if let EventBody::SysEx { .. } = list.events[i].body {
            n = n + 1;
        }
        i = i + 1;
    }
    proof {
        assert(list.events@.take(i as int) =~= list.events@);
    }
    n
}

/// A system-exclusive message on its way out: its sample and where its bytes
/// stand in the list's pool.
#[derive(Clone, Copy, Debug, PartialEq, Eq)]
pub struct SysExOut {
    pub sample_offset: u32,
    pub pool_offset: u32,
    pub len: u32,
}

/// The system-exclusive message at an index, counting only such messages.
pub fn output_sysex_at(list: &EventList, index: u32) -> (r: Option<SysExOut>)
    ensures
        match r {
            Some(out) => {
                &&& index < sysex_among(list.events@).len()
                &&& out.sample_offset == sysex_among(list.events@)[index as int].sample_offset
                &&& sysex_among(list.events@)[index as int].body == (EventBody::SysEx {
                    pool_offset: out.pool_offset,
                    len: out.len,
                })
            },
            None => index >= sysex_among(list.events@).len(),
        },
{
    let mut n: u64 = 0;
    let mut i: usize = 0;
    let ghost is_one = |e: Event| e.body is SysEx;
    proof {
        assert(list.events@.take(0).filter(is_one).len() == 0) by {
            reveal(Seq::filter);
        }
    }
    while i < list.events.len()
        invariant
            i <= list.events@.len(),
            n <= index,
            is_one == (|e: Event| e.body is SysEx),
            n == list.events@.take(i as int).filter(is_one).len(),
        decreases list.events@.len() - i,
    {
        proof {
            reveal(Seq::filter);
            assert(list.events@.take(i + 1).drop_last() =~= list.events@.take(i as int));
        }
        let event: Event = list.events[i];
        if let EventBody::SysEx { pool_offset, len } = event.body {
            if n == index as u64 {
                proof {
                    let all = list.events@;
                    let head = all.take(i + 1);
                    let tail = all.skip(i + 1);
                    assert(head + tail =~= all);
                    Seq::filter_distributes_over_add(head, tail, is_one);
                    assert(head.filter(is_one).last() == event);
                }
                return Some(SysExOut { sample_offset: event.sample_offset, pool_offset, len });
            }
            n = n + 1;
        }
        i = i + 1;
    }
    proof {
        assert(list.events@.take(i as int) =~= list.events@);
    }
    None
}

/// The block size that a host declared, with a floor for hosts that declare too
/// little.
pub open spec fn held_frames(max_frames: u32) -> int {
    if max_frames < 1024 {
        1024
    } else {
        max_frames as int
    }
}

pub fn prepared_frames(max_frames: u32) -> (r: usize)
    ensures
        r == held_frames(max_frames),
{
    if max_frames < 1024 {
        1024
    } else {
        max_frames as usize
    }
}

/// How many bytes of a formatted value a host's buffer takes, in front of the
/// terminating zero and cut where a character ends.
pub fn fitting_text_len(text: &str, capacity: u32) -> (r: u32)
    requires
        capacity > 0,
    ensures
        r < capacity,
        r <= text.spec_bytes().len(),
        vstd::utf8::is_char_boundary(text.spec_bytes(), r as int),
        forall|n: int|
            r < n < capacity && n <= text.spec_bytes().len()
                ==> !#[trigger] vstd::utf8::is_char_boundary(text.spec_bytes(), n),
{
    let bytes: usize = text.as_bytes().len();
    let mut len: u32 = if bytes < (capacity - 1) as usize {
        bytes as u32
    } else {
        capacity - 1
    };
    let ghost full = text.spec_bytes();
    proof {
        vstd::utf8::encode_utf8_valid_utf8(text@);
        vstd::utf8::is_char_boundary_start_end_of_seq(full);
    }
    while len > 0 && !text.is_char_boundary(len as usize)
        invariant
            full == text.spec_bytes(),
            len < capacity,
            len <= full.len(),
            vstd::utf8::is_char_boundary(full, 0),
            forall|n: int|
                len < n < capacity && n <= full.len() ==> !#[trigger] vstd::utf8::is_char_boundary(
                    full,
                    n,
                ),
        decreases len,
    {
        len = len - 1;
    }
    len
}

/// Writes a formatted value into a host's buffer, cut to what fits in front of the
/// terminating zero. Nothing is written where there is no value or no room; whether
/// something was comes back.
pub fn write_value_text(text: Option<&str>, buffer: &mut Vec<u8>) -> (r: bool)
    ensures
        r == (text is Some && old(buffer)@.len() > 0),
        final(buffer)@ == if r {
            with_text(old(buffer)@, (text->0).spec_bytes())
        } else {
            old(buffer)@
        },
{
    if buffer.len() == 0 {
        return false;
    }
    match text {
        Some(t) => {
            copy_str_to_buf(buffer, t);
            true
        },
        None => false,
    }
}

/// A valid transport of a host is read field by field, its signature held to a byte; one
/// that is not valid, or none, is a stopped transport with every number zero.
pub proof fn law_host_transport_is_read_as_it_is(t: HostTransport)
    ensures
        ({
            let r = host_transport(Some(t));
            let bare = host_transport(None);
            &&& t.valid != 0 ==> {
                &&& r.playing == (t.playing != 0)
                &&& r.recording == (t.recording != 0)
                &&& r.loop_active == (t.loop_active != 0)
                &&& r.tempo == t.tempo
                &&& r.position_samples == t.position_samples
                &&& r.position_seconds == t.position_seconds
                &&& r.position_beats == t.position_beats
                &&& r.bar_start_beats == t.bar_start_beats
                &&& r.loop_start_beats == t.loop_start_beats
                &&& r.loop_end_beats == t.loop_end_beats
                &&& 0 <= t.time_sig_num <= 255 ==> r.time_sig_num == t.time_sig_num
                &&& 0 <= t.time_sig_den <= 255 ==> r.time_sig_den == t.time_sig_den
                &&& t.time_sig_num < 0 ==> r.time_sig_num == 0
                &&& t.time_sig_num > 255 ==> r.time_sig_num == 255
                &&& t.time_sig_den < 0 ==> r.time_sig_den == 0
                &&& t.time_sig_den > 255 ==> r.time_sig_den == 255
            }
            &&& t.valid == 0 ==> r == bare
            &&& !bare.playing && !bare.recording && !bare.loop_active
            &&& bare.tempo == 0 && bare.time_sig_num == 0 && bare.time_sig_den == 0
            &&& bare.position_samples == 0 && bare.position_seconds == 0 && bare.position_beats == 0
            &&& bare.bar_start_beats == 0 && bare.loop_start_beats == 0 && bare.loop_end_beats == 0
        }),
{
}

/// The three bytes of a body are its message, with zeros behind a shorter one; a body has
/// none exactly where it has no message.
pub proof fn law_short_messages_are_messages(body: EventBody)
    ensures
        match short_message(body) {
            Some((status, data1, data2)) => midi1_message(body).len() >= 2 && midi1_message(body)
                == seq![status, data1, data2].take(midi1_message(body).len() as int) && (
            midi1_message(body).len() == 2 ==> data2 == 0),
            None => midi1_message(body).len() == 0,
        },
{
    match midi1_bytes(body) {
        Some((len, status, data1, data2)) => {
            assert(midi1_message(body).len() == len);
        },
        None => {},
    }
}

/// A host's block size is taken as it is, but for ones below 1024.
pub proof fn law_block_sizes_have_a_floor(frames: u32)
    ensures
        held_frames(frames) >= 1024,
        held_frames(frames) >= frames,
        frames >= 1024 ==> held_frames(frames) == frames,
        frames < 1024 ==> held_frames(frames) == 1024,
{
}

/// The system-exclusive messages of a list are all that it has, in their order.
pub proof fn law_all_sysex_goes_out(events: Seq<Event>, event: Event)
    ensures
        sysex_among(Seq::empty()).len() == 0,
        sysex_among(events.push(event)) == if event.body is SysEx {
            sysex_among(events).push(event)
        } else {
            sysex_among(events)
        },
{
    reveal(Seq::filter);
    assert(events.push(event).drop_last() =~= events);
}

} // verus!
