//! MIDI 1.0 byte-stream codec and conversion down from MIDI 2.0.
//!
//! Status bytes outside `0x80..=0xEF` (system common, system real-time and the
//! start of a system-exclusive message) have no [`EventBody`] here and decode to
//! nothing.
use crate::events::EventBody;
use vstd::prelude::*;

verus! {

/// The 14-bit code that the two data bytes of a pitch-bend message stand for.
pub open spec fn bend_code(lsb: u8, msb: u8) -> int {
    (lsb % 128) + 128 * (msb % 128)
}

pub fn pitch_bend_from_bytes(lsb: u8, msb: u8) -> (r: u16)
    ensures
        r == bend_code(lsb, msb),
{
    (lsb % 128) as u16 + 128 * ((msb % 128) as u16)
}

/// The two data bytes of a pitch-bend message, least significant first.
pub fn pitch_bend_to_bytes(value: u16) -> (r: (u8, u8))
    ensures
        r.0 == value % 128,
        r.1 == (value / 128) % 128,
{
    ((value % 128) as u8, ((value / 128) % 128) as u8)
}

/// Pitch-bend codes survive the way through their two bytes and back.
pub proof fn lemma_pitch_bend_round_trip(value: u16)
    requires
        value < 16384,
    ensures
        bend_code((value % 128) as u8, ((value / 128) % 128) as u8) == value,
{
}

/// What three bytes of a channel-voice message say. The kind is the high half
/// of the status byte, the channel its low half; the high bit of a data byte is
/// ignored, and a note-on with velocity zero is a note-off.
pub open spec fn decoded(status: u8, data1: u8, data2: u8) -> Option<EventBody> {
    let kind = status / 16;
    let channel = (status % 16) as u8;
    let d1 = (data1 % 128) as u8;
    let d2 = (data2 % 128) as u8;
    if kind == 0x9 && d2 > 0 {
        Some(EventBody::NoteOn { group: 0, channel, note: d1, velocity: d2 })
    } else if kind == 0x9 {
        Some(EventBody::NoteOff { group: 0, channel, note: d1, velocity: 0 })
    } else if kind == 0x8 {
        Some(EventBody::NoteOff { group: 0, channel, note: d1, velocity: d2 })
    } else if kind == 0xA {
        Some(EventBody::Aftertouch { group: 0, channel, note: d1, pressure: d2 })
    } else if kind == 0xB {
        Some(EventBody::ControlChange { group: 0, channel, cc: d1, value: d2 })
    } else if kind == 0xC {
        Some(EventBody::ProgramChange { group: 0, channel, program: d1 })
    } else if kind == 0xD {
        Some(EventBody::ChannelPressure { group: 0, channel, pressure: d1 })
    } else if kind == 0xE {
        Some(EventBody::PitchBend { group: 0, channel, value: bend_code(d1, d2) as u16 })
    } else {
        None
    }
}

/// Decodes one MIDI 1.0 channel-voice short message, in group zero.
#[must_use]
pub fn decode_short_message(status: u8, data1: u8, data2: u8) -> (r: Option<EventBody>)
    ensures
        r == decoded(status, data1, data2),
{
    let kind: u8 = status / 16;
    let channel: u8 = status % 16;
    let d1: u8 = data1 % 128;
    let d2: u8 = data2 % 128;
    if kind == 0x9 {
        if d2 > 0 {
            Some(EventBody::NoteOn { group: 0, channel, note: d1, velocity: d2 })
        } else {
            Some(EventBody::NoteOff { group: 0, channel, note: d1, velocity: 0 })
        }
    } else if kind == 0x8 {
        Some(EventBody::NoteOff { group: 0, channel, note: d1, velocity: d2 })
    } else if kind == 0xA {
        Some(EventBody::Aftertouch { group: 0, channel, note: d1, pressure: d2 })
    } else if kind == 0xB {
        Some(EventBody::ControlChange { group: 0, channel, cc: d1, value: d2 })
    } else if kind == 0xC {
        Some(EventBody::ProgramChange { group: 0, channel, program: d1 })
    } else if kind == 0xD {
        Some(EventBody::ChannelPressure { group: 0, channel, pressure: d1 })
    } else if kind == 0xE {
        Some(EventBody::PitchBend { group: 0, channel, value: pitch_bend_from_bytes(d1, d2) })
    } else {
        None
    }
}

/// How many bytes the message with this status byte takes; zero where it is no
/// channel-voice message.
pub open spec fn message_len(status: u8) -> nat {
    let kind = status / 16;
    if kind == 0xC || kind == 0xD {
        2
    } else if 0x8 <= kind <= 0xE {
        3
    } else {
        0
    }
}

/// The MIDI 1.0 body with another group; any other body as it is.
pub open spec fn with_group(body: EventBody, group: u8) -> EventBody {
    match body {
        EventBody::NoteOn { channel, note, velocity, .. } => EventBody::NoteOn {
            group,
            channel,
            note,
            velocity,
        },
        EventBody::NoteOff { channel, note, velocity, .. } => EventBody::NoteOff {
            group,
            channel,
            note,
            velocity,
        },
        EventBody::Aftertouch { channel, note, pressure, .. } => EventBody::Aftertouch {
            group,
            channel,
            note,
            pressure,
        },
        EventBody::ChannelPressure { channel, pressure, .. } => EventBody::ChannelPressure {
            group,
            channel,
            pressure,
        },
        EventBody::ControlChange { channel, cc, value, .. } => EventBody::ControlChange {
            group,
            channel,
            cc,
            value,
        },
        EventBody::PitchBend { channel, value, .. } => EventBody::PitchBend {
            group,
            channel,
            value,
        },
        EventBody::ProgramChange { channel, program, .. } => EventBody::ProgramChange {
            group,
            channel,
            program,
        },
        other => other,
    }
}

/// What a MIDI 1.0 byte stream starts with, in the group that it came in.
pub open spec fn parsed(group: u8, bytes: Seq<u8>) -> Option<EventBody> {
    if bytes.len() == 0 || message_len(bytes[0]) == 0 || bytes.len() < message_len(bytes[0]) {
        None
    } else {
        let data2 = if message_len(bytes[0]) == 3 {
            bytes[2]
        } else {
            0
        };
        match decoded(bytes[0], bytes[1], data2) {
            Some(body) => Some(with_group(body, group)),
            None => None,
        }
    }
}

/// Decodes a MIDI 1.0 channel-voice byte stream that a host delivered under
/// `group`. Nothing comes back for another status byte or a truncated message.
#[must_use]
pub fn parse_midi1(group: u8, bytes: &[u8]) -> (r: Option<EventBody>)
    ensures
        r == parsed(group, bytes@),
{
    if bytes.len() == 0 {
        return None;
    }
    let status: u8 = bytes[0];
    let kind: u8 = status / 16;
    let (data1, data2): (u8, u8) = if kind == 0xC || kind == 0xD {
        if bytes.len() < 2 {
            return None;
        }
        (bytes[1], 0)
    } else if 0x8 <= kind && kind <= 0xE {
        if bytes.len() < 3 {
            return None;
        }
        (bytes[1], bytes[2])
    } else {
        return None;
    };
    match decode_short_message(status, data1, data2) {
        Some(body) => {
            let mut event: EventBody = body;
            rewrite_group(&mut event, group);
            Some(event)
        },
        None => None,
    }
}

fn rewrite_group(event: &mut EventBody, new_group: u8)
    ensures
        *final(event) == with_group(*old(event), new_group),
{
    let group: u8 = new_group;
    *event = match *event {
        EventBody::NoteOn { channel, note, velocity, .. } => EventBody::NoteOn {
            group,
            channel,
            note,
            velocity,
        },
        EventBody::NoteOff { channel, note, velocity, .. } => EventBody::NoteOff {
            group,
            channel,
            note,
            velocity,
        },
        EventBody::Aftertouch { channel, note, pressure, .. } => EventBody::Aftertouch {
            group,
            channel,
            note,
            pressure,
        },
        EventBody::ChannelPressure { channel, pressure, .. } => EventBody::ChannelPressure {
            group,
            channel,
            pressure,
        },
        EventBody::ControlChange { channel, cc, value, .. } => EventBody::ControlChange {
            group,
            channel,
            cc,
            value,
        },
        EventBody::PitchBend { channel, value, .. } => EventBody::PitchBend {
            group,
            channel,
            value,
        },
        EventBody::ProgramChange { channel, program, .. } => EventBody::ProgramChange {
            group,
            channel,
            program,
        },
        other => other,
    };
}

/// The three bytes that a MIDI 1.0 body is written as, and how many of them
/// belong to the message. The channel is masked to its four bits.
pub open spec fn midi1_bytes(body: EventBody) -> Option<(nat, u8, u8, u8)> {
    match body {
        EventBody::NoteOn { channel, note, velocity, .. } => Some(
            (3, (0x90 + channel % 16) as u8, note, velocity),
        ),
        EventBody::NoteOff { channel, note, velocity, .. } => Some(
            (3, (0x80 + channel % 16) as u8, note, velocity),
        ),
        EventBody::Aftertouch { channel, note, pressure, .. } => Some(
            (3, (0xA0 + channel % 16) as u8, note, pressure),
        ),
        EventBody::ControlChange { channel, cc, value, .. } => Some(
            (3, (0xB0 + channel % 16) as u8, cc, value),
        ),
        EventBody::PitchBend { channel, value, .. } => Some(
            (
                3,
                (0xE0 + channel % 16) as u8,
                (value % 128) as u8,
                ((value / 128) % 128) as u8,
            ),
        ),
        EventBody::ChannelPressure { channel, pressure, .. } => Some(
            (2, (0xD0 + channel % 16) as u8, pressure, 0),
        ),
        EventBody::ProgramChange { channel, program, .. } => Some(
            (2, (0xC0 + channel % 16) as u8, program, 0),
        ),
        _ => None,
    }
}

/// Encodes a body into a MIDI 1.0 byte stream: the length of the message and
/// three bytes, of which a sink sends that many. Nothing comes back for a body
/// that does not fit MIDI 1.0.
#[must_use]
pub fn event_to_midi1(event: &EventBody) -> (r: Option<(usize, [u8; 3])>)
    ensures
        match (r, midi1_bytes(*event)) {
            (Some((n, bytes)), Some((len, status, data1, data2))) => n == len && bytes@ == seq![
                status,
                data1,
                data2,
            ],
            (None, None) => true,
            _ => false,
        },
{
    match *event {
        EventBody::NoteOn { channel, note, velocity, .. } => Some(
            (3, [0x90 + channel % 16, note, velocity]),
        ),
        EventBody::NoteOff { channel, note, velocity, .. } => Some(
            (3, [0x80 + channel % 16, note, velocity]),
        ),
        EventBody::Aftertouch { channel, note, pressure, .. } => Some(
            (3, [0xA0 + channel % 16, note, pressure]),
        ),
        EventBody::ControlChange { channel, cc, value, .. } => Some(
            (3, [0xB0 + channel % 16, cc, value]),
        ),
        EventBody::PitchBend { channel, value, .. } => {
            let (lsb, msb): (u8, u8) = pitch_bend_to_bytes(value);
            Some((3, [0xE0 + channel % 16, lsb, msb]))
        },
        EventBody::ChannelPressure { channel, pressure, .. } => Some(
            (2, [0xD0 + channel % 16, pressure, 0]),
        ),
        EventBody::ProgramChange { channel, program, .. } => Some(
            (2, [0xC0 + channel % 16, program, 0]),
        ),
        _ => None,
    }
}

/// Every field of a MIDI 1.0 body lies in its wire range, and a note-on sounds.
pub open spec fn midi1_in_range(body: EventBody) -> bool {
    match body {
        EventBody::NoteOn { channel, note, velocity, .. } => channel < 16 && note < 128 && 0
            < velocity < 128,
        EventBody::NoteOff { channel, note, velocity, .. } => channel < 16 && note < 128
            && velocity < 128,
        EventBody::Aftertouch { channel, note, pressure, .. } => channel < 16 && note < 128
            && pressure < 128,
        EventBody::ChannelPressure { channel, pressure, .. } => channel < 16 && pressure < 128,
        EventBody::ControlChange { channel, cc, value, .. } => channel < 16 && cc < 128 && value
            < 128,
        EventBody::PitchBend { channel, value, .. } => channel < 16 && value < 16384,
        EventBody::ProgramChange { channel, program, .. } => channel < 16 && program < 128,
        _ => false,
    }
}

/// The group that a MIDI 1.0 body is in.
pub open spec fn midi1_group(body: EventBody) -> u8 {
    match body {
        EventBody::NoteOn { group, .. } => group,
        EventBody::NoteOff { group, .. } => group,
        EventBody::Aftertouch { group, .. } => group,
        EventBody::ChannelPressure { group, .. } => group,
        EventBody::ControlChange { group, .. } => group,
        EventBody::PitchBend { group, .. } => group,
        EventBody::ProgramChange { group, .. } => group,
        _ => 0,
    }
}

/// The message bytes of a MIDI 1.0 body, cut to the length of the message.
pub open spec fn midi1_message(body: EventBody) -> Seq<u8> {
    match midi1_bytes(body) {
        Some((len, status, data1, data2)) => seq![status, data1, data2].take(len as int),
        None => Seq::empty(),
    }
}

/// Parsing what was encoded gives the body back, for every MIDI 1.0 body whose
/// fields lie in their wire ranges.
#[verifier::spinoff_prover]
pub proof fn law_encode_parse(body: EventBody)
    requires
        midi1_in_range(body),
    ensures
        parsed(midi1_group(body), midi1_message(body)) == Some(body),
{
    let (len, status, data1, data2) = midi1_bytes(body)->0;
    let message = midi1_message(body);
    assert(message.len() == len && message[0] == status && message[1] == data1);
    assert(len == 3 ==> message[2] == data2);
    assert(data1 < 128 && data2 < 128);
    assert(data1 % 128 == data1 && data2 % 128 == data2);
    let (kind, channel) = match body {
        EventBody::NoteOn { channel, .. } => (0x9int, channel),
        EventBody::NoteOff { channel, .. } => (0x8int, channel),
        EventBody::Aftertouch { channel, .. } => (0xAint, channel),
        EventBody::ControlChange { channel, .. } => (0xBint, channel),
        EventBody::ProgramChange { channel, .. } => (0xCint, channel),
        EventBody::ChannelPressure { channel, .. } => (0xDint, channel),
        EventBody::PitchBend { channel, .. } => (0xEint, channel),
        _ => (0, 0),
    };
    assert(status == 16 * kind + channel);
    assert(status / 16 == kind && status % 16 == channel);
    if let EventBody::PitchBend { value, .. } = body {
        lemma_pitch_bend_round_trip(value);
    }
    assert(message_len(status) == len);
    assert(decoded(status, data1, data2) == Some(with_group(body, 0)));
    assert(with_group(with_group(body, 0), midi1_group(body)) == body);
}

/// What parsing yields lies in its wire ranges, in the group that it came in:
/// in particular no parsed note-on has velocity zero.
pub proof fn law_parsed_in_range(group: u8, bytes: Seq<u8>)
    ensures
        match parsed(group, bytes) {
            Some(body) => midi1_in_range(body) && midi1_group(body) == group,
            None => true,
        },
{
}

/// Encoding what was parsed gives the message's bytes back, where the data bytes
/// keep their high bits clear and the message is no note-on with velocity zero.
#[verifier::spinoff_prover]
pub proof fn law_parse_encode(group: u8, bytes: Seq<u8>)
    requires
        bytes.len() > 0,
        message_len(bytes[0]) == bytes.len(),
        forall|i: int| 1 <= i < bytes.len() ==> bytes[i] < 128,
        bytes[0] / 16 == 0x9 ==> bytes[2] > 0,
    ensures
        parsed(group, bytes) is Some,
        midi1_message(parsed(group, bytes)->0) == bytes,
{
    let body = parsed(group, bytes)->0;
    let status = bytes[0];
    let channel = (status % 16) as u8;
    let kind = status / 16;
    assert(status == 16 * kind + channel);
    assert(bytes.len() == 2 || bytes.len() == 3);
    let (len, out_status, data1, data2) = midi1_bytes(body)->0;
    if kind == 0xE {
        assert(bend_code(bytes[1], bytes[2]) % 128 == bytes[1]);
        assert(bend_code(bytes[1], bytes[2]) / 128 == bytes[2]);
    }
    assert(len == bytes.len() && out_status == status && data1 == bytes[1]);
    assert(len == 3 ==> data2 == bytes[2]);
    assert(midi1_message(body) =~= bytes);
}

/// The nearest MIDI 1.0 form of a MIDI 2.0 body: values keep their high seven
/// or fourteen bits, a sounding note-on keeps a velocity above zero, and
/// per-note controllers land on the note's channel.
pub open spec fn downconverted(body: EventBody) -> Option<EventBody> {
    match body {
        EventBody::NoteOn2 { group, channel, note, velocity, .. } => Some(
            EventBody::NoteOn {
                group,
                channel,
                note,
                velocity: if velocity > 0 && velocity / 512 == 0 {
                    1
                } else {
                    (velocity / 512) as u8
                },
            },
        ),
        EventBody::NoteOff2 { group, channel, note, velocity, .. } => Some(
            EventBody::NoteOff { group, channel, note, velocity: (velocity / 512) as u8 },
        ),
        EventBody::PolyPressure2 { group, channel, note, pressure } => Some(
            EventBody::Aftertouch {
                group,
                channel,
                note,
                pressure: (pressure / 0x200_0000) as u8,
            },
        ),
        EventBody::ControlChange2 { group, channel, cc, value } => Some(
            EventBody::ControlChange { group, channel, cc, value: (value / 0x200_0000) as u8 },
        ),
        EventBody::PerNoteCC { group, channel, cc, value, .. } => Some(
            EventBody::ControlChange { group, channel, cc, value: (value / 0x200_0000) as u8 },
        ),
        EventBody::ChannelPressure2 { group, channel, pressure } => Some(
            EventBody::ChannelPressure {
                group,
                channel,
                pressure: (pressure / 0x200_0000) as u8,
            },
        ),
        EventBody::PitchBend2 { group, channel, value } => Some(
            EventBody::PitchBend { group, channel, value: (value / 0x4_0000) as u16 },
        ),
        EventBody::PerNotePitchBend { group, channel, value, .. } => Some(
            EventBody::PitchBend { group, channel, value: (value / 0x4_0000) as u16 },
        ),
        EventBody::ProgramChange2 { group, channel, program, .. } => Some(
            EventBody::ProgramChange { group, channel, program },
        ),
        _ => None,
    }
}

/// Converts a MIDI 2.0 channel-voice body down to its nearest MIDI 1.0 form.
/// Nothing comes back for a body that is MIDI 1.0 already, is no channel voice,
/// or has no 1.0 form.
#[must_use]
pub fn downconvert_to_midi1(body: &EventBody) -> (r: Option<EventBody>)
    ensures
        r == downconverted(*body),
{
    match *body {
        EventBody::NoteOn2 { group, channel, note, velocity, .. } => {
            let high: u8 = (velocity / 512) as u8;
            Some(
                EventBody::NoteOn {
                    group,
                    channel,
                    note,
                    velocity: if velocity > 0 && high == 0 {
                        1
                    } else {
                        high
                    },
                },
            )
        },
        EventBody::NoteOff2 { group, channel, note, velocity, .. } => Some(
            EventBody::NoteOff { group, channel, note, velocity: (velocity / 512) as u8 },
        ),
        EventBody::PolyPressure2 { group, channel, note, pressure } => Some(
            EventBody::Aftertouch {
                group,
                channel,
                note,
                pressure: (pressure / 0x200_0000) as u8,
            },
        ),
        EventBody::ControlChange2 { group, channel, cc, value } => Some(
            EventBody::ControlChange { group, channel, cc, value: (value / 0x200_0000) as u8 },
        ),
        EventBody::PerNoteCC { group, channel, cc, value, .. } => Some(
            EventBody::ControlChange { group, channel, cc, value: (value / 0x200_0000) as u8 },
        ),
        EventBody::ChannelPressure2 { group, channel, pressure } => Some(
            EventBody::ChannelPressure {
                group,
                channel,
                pressure: (pressure / 0x200_0000) as u8,
            },
        ),
        EventBody::PitchBend2 { group, channel, value } => Some(
            EventBody::PitchBend { group, channel, value: (value / 0x4_0000) as u16 },
        ),
        EventBody::PerNotePitchBend { group, channel, value, .. } => Some(
            EventBody::PitchBend { group, channel, value: (value / 0x4_0000) as u16 },
        ),
        EventBody::ProgramChange2 { group, channel, program, .. } => Some(
            EventBody::ProgramChange { group, channel, program },
        ),
        _ => None,
    }
}

/// A sounding MIDI 2.0 note-on never collapses into a note-off on its way down:
/// the 1.0 velocity is above zero exactly where the 2.0 velocity is.
pub proof fn law_downconvert_keeps_notes_sounding(body: EventBody)
    requires
        body is NoteOn2,
    ensures
        match (body, downconverted(body)) {
            (
                EventBody::NoteOn2 { velocity, .. },
                Some(EventBody::NoteOn { velocity: low, .. }),
            ) => (low > 0 <==> velocity > 0) && low < 128,
            _ => false,
        },
{
}

/// What a MIDI 2.0 body comes down to always has a MIDI 1.0 byte form, and does
/// not come down any further.
pub proof fn law_downconverted_is_midi1(body: EventBody)
    ensures
        match downconverted(body) {
            Some(low) => midi1_bytes(low) is Some && downconverted(low) is None && midi1_bytes(
                body,
            ) is None,
            None => true,
        },
{
}

/// Whether a value of some bits comes down to `low` by its high bits: `low` is the
/// number of whole steps of size `step` in it.
pub open spec fn scales_to(value: int, step: int, low: int) -> bool {
    low * step <= value < (low + 1) * step
}

/// Conversion down keeps the scale of every value, the address of the message, and its
/// kind. A velocity goes down by steps of 2^9, except that the softest note-on keeps
/// sounding; pressures and controllers go down by steps of 2^25, bends by steps of 2^18.
/// Nothing but these MIDI 2.0 messages has a form to come down to.
pub proof fn law_downconvert_keeps_scale_and_address(body: EventBody)
    ensures
        match body {
            EventBody::NoteOn2 { group, channel, note, velocity, .. } => downconverted(
                body,
            ) matches Some(EventBody::NoteOn { group: g, channel: c, note: n, velocity: w }) && g
                == group && c == channel && n == note && (scales_to(
                velocity as int,
                512,
                w as int,
            ) || (0 < velocity < 512 && w == 1)) && (velocity == 0 ==> w == 0),
            EventBody::NoteOff2 { group, channel, note, velocity, .. } => downconverted(
                body,
            ) matches Some(EventBody::NoteOff { group: g, channel: c, note: n, velocity: w }) && g
                == group && c == channel && n == note && scales_to(velocity as int, 512, w as int),
            EventBody::PolyPressure2 { group, channel, note, pressure } => downconverted(
                body,
            ) matches Some(EventBody::Aftertouch { group: g, channel: c, note: n, pressure: w })
                && g == group && c == channel && n == note && scales_to(
                pressure as int,
                33554432,
                w as int,
            ),
            EventBody::ControlChange2 { group, channel, cc, value } => downconverted(
                body,
            ) matches Some(EventBody::ControlChange { group: g, channel: c, cc: n, value: w }) && g
                == group && c == channel && n == cc && scales_to(value as int, 33554432, w as int),
            EventBody::PerNoteCC { group, channel, cc, value, .. } => downconverted(
                body,
            ) matches Some(EventBody::ControlChange { group: g, channel: c, cc: n, value: w }) && g
                == group && c == channel && n == cc && scales_to(value as int, 33554432, w as int),
            EventBody::ChannelPressure2 { group, channel, pressure } => downconverted(
                body,
            ) matches Some(EventBody::ChannelPressure { group: g, channel: c, pressure: w }) && g
                == group && c == channel && scales_to(pressure as int, 33554432, w as int),
            EventBody::PitchBend2 { group, channel, value } => downconverted(body) matches Some(
                EventBody::PitchBend { group: g, channel: c, value: w },
            ) && g == group && c == channel && scales_to(value as int, 262144, w as int),
            EventBody::PerNotePitchBend { group, channel, value, .. } => downconverted(
                body,
            ) matches Some(EventBody::PitchBend { group: g, channel: c, value: w }) && g == group
                && c == channel && scales_to(value as int, 262144, w as int),
            EventBody::ProgramChange2 { group, channel, program, .. } => downconverted(
                body,
            ) matches Some(EventBody::ProgramChange { group: g, channel: c, program: w }) && g
                == group && c == channel && w == program,
            _ => downconverted(body) is None,
        },
{
}

/// A value that grows does not come down to a smaller one: a louder MIDI 2.0 note is at
/// least as loud in MIDI 1.0, and loud and soft span the whole range of seven bits.
pub proof fn law_downconvert_keeps_order(soft: u16, loud: u16, group: u8, channel: u8, note: u8)
    requires
        soft <= loud,
    ensures
        ({
            let down = |velocity: u16|
                downconverted(
                    EventBody::NoteOn2 {
                        group,
                        channel,
                        note,
                        velocity,
                        attribute_type: 0,
                        attribute: 0,
                    },
                );
            match (down(soft), down(loud)) {
                (
                    Some(EventBody::NoteOn { velocity: low, .. }),
                    Some(EventBody::NoteOn { velocity: high, .. }),
                ) => low <= high < 128 && (loud >= 0xFE00 ==> high == 127),
                _ => false,
            }
        }),
{
}

/// What kind of message the bytes of a stream start is told by the high half of the first
/// one, as MIDI 1.0 numbers the kinds; its low half is the channel, and the bytes behind
/// it carry seven bits each, in the order in which the kind's fields are named. A message
/// that is cut short, and one of another kind, says nothing.
pub proof fn law_bytes_name_their_message(group: u8, bytes: Seq<u8>)
    ensures
        ({
            let said = parsed(group, bytes);
            let first = bytes[0] as int;
            let a = bytes[1] as int % 128;
            let b = bytes[2] as int % 128;
            let two = bytes.len() >= 2;
            let three = bytes.len() >= 3;
            &&& bytes.len() == 0 ==> said is None
            &&& bytes.len() > 0 ==> {
                &&& 0x80 <= first <= 0x8f && three ==> (said matches Some(
                    EventBody::NoteOff { group: g, channel, note, velocity },
                ) && g == group && channel == first - 0x80 && note == a && velocity == b)
                &&& 0x90 <= first <= 0x9f && three && b > 0 ==> (said matches Some(
                    EventBody::NoteOn { group: g, channel, note, velocity },
                ) && g == group && channel == first - 0x90 && note == a && velocity == b)
                &&& 0x90 <= first <= 0x9f && three && b == 0 ==> (said matches Some(
                    EventBody::NoteOff { group: g, channel, note, velocity },
                ) && g == group && channel == first - 0x90 && note == a && velocity == 0)
                &&& 0xa0 <= first <= 0xaf && three ==> (said matches Some(
                    EventBody::Aftertouch { group: g, channel, note, pressure },
                ) && g == group && channel == first - 0xa0 && note == a && pressure == b)
                &&& 0xb0 <= first <= 0xbf && three ==> (said matches Some(
                    EventBody::ControlChange { group: g, channel, cc, value },
                ) && g == group && channel == first - 0xb0 && cc == a && value == b)
                &&& 0xc0 <= first <= 0xcf && two ==> (said matches Some(
                    EventBody::ProgramChange { group: g, channel, program },
                ) && g == group && channel == first - 0xc0 && program == a)
                &&& 0xd0 <= first <= 0xdf && two ==> (said matches Some(
                    EventBody::ChannelPressure { group: g, channel, pressure },
                ) && g == group && channel == first - 0xd0 && pressure == a)
                &&& 0xe0 <= first <= 0xef && three ==> (said matches Some(
                    EventBody::PitchBend { group: g, channel, value },
                ) && g == group && channel == first - 0xe0 && value == a + 128 * b)
                &&& first < 0x80 || first >= 0xf0 ==> said is None
                &&& 0x80 <= first <= 0xbf && !three ==> said is None
                &&& 0xc0 <= first <= 0xdf && !two ==> said is None
                &&& 0xe0 <= first <= 0xef && !three ==> said is None
            }
        }),
{
    if bytes.len() > 0 {
        let status = bytes[0];
        assert(status == 16 * (status / 16) + status % 16);
    }
}

/// A short message says what a stream of its three bytes says, in group zero.
pub proof fn law_short_message_is_a_stream(status: u8, data1: u8, data2: u8)
    ensures
        decoded(status, data1, data2) == parsed(0, seq![status, data1, data2]),
{
    let bytes = seq![status, data1, data2];
    assert(bytes[0] == status && bytes[1] == data1 && bytes[2] == data2);
}

/// The bytes of a body that fits MIDI 1.0 hold its channel and its fields where the
/// format has them, whatever lies above their bits in the body.
pub proof fn law_message_holds_the_fields(body: EventBody)
    ensures
        ({
            let message = midi1_message(body);
            match body {
                EventBody::NoteOn { channel, note, velocity, .. } => message == seq![
                    (144 + channel % 16) as u8,
                    note,
                    velocity,
                ],
                EventBody::NoteOff { channel, note, velocity, .. } => message == seq![
                    (128 + channel % 16) as u8,
                    note,
                    velocity,
                ],
                EventBody::Aftertouch { channel, note, pressure, .. } => message == seq![
                    (160 + channel % 16) as u8,
                    note,
                    pressure,
                ],
                EventBody::ControlChange { channel, cc, value, .. } => message == seq![
                    (176 + channel % 16) as u8,
                    cc,
                    value,
                ],
                EventBody::ProgramChange { channel, program, .. } => message == seq![
                    (192 + channel % 16) as u8,
                    program,
                ],
                EventBody::ChannelPressure { channel, pressure, .. } => message == seq![
                    (208 + channel % 16) as u8,
                    pressure,
                ],
                EventBody::PitchBend { channel, value, .. } => message.len() == 3 && message[0]
                    == 224 + channel % 16 && message[1] < 128 && message[2] < 128 && (message[1]
                    + 128 * message[2]) % 16384 == value as int % 16384,
                _ => message.len() == 0 && midi1_bytes(body) is None,
            }
        }),
{
    let message = midi1_message(body);
    match body {
        EventBody::NoteOn { channel, note, velocity, .. } => {
            assert(message =~= seq![(144 + channel % 16) as u8, note, velocity]);
        },
        EventBody::NoteOff { channel, note, velocity, .. } => {
            assert(message =~= seq![(128 + channel % 16) as u8, note, velocity]);
        },
        EventBody::Aftertouch { channel, note, pressure, .. } => {
            assert(message =~= seq![(160 + channel % 16) as u8, note, pressure]);
        },
        EventBody::ControlChange { channel, cc, value, .. } => {
            assert(message =~= seq![(176 + channel % 16) as u8, cc, value]);
        },
        EventBody::ProgramChange { channel, program, .. } => {
            assert(message =~= seq![(192 + channel % 16) as u8, program]);
        },
        EventBody::ChannelPressure { channel, pressure, .. } => {
            assert(message =~= seq![(208 + channel % 16) as u8, pressure]);
        },
        EventBody::PitchBend { channel, value, .. } => {
            assert(value == value % 128 + 128 * ((value / 128) % 128) + 16384 * (value / 16384));
        },
        _ => {},
    }
}

} // verus!
