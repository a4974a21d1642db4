use truce::events::EventBody;
use truce::midi::{
    decode_short_message, downconvert_to_midi1, event_to_midi1, parse_midi1, pitch_bend_from_bytes,
    pitch_bend_to_bytes,
};

#[test]
fn round_trip_note_on() {
    let bytes = [0x90, 60, 100];
    let event = parse_midi1(0, &bytes).unwrap();
    let (len, back) = event_to_midi1(&event).unwrap();
    assert_eq!(len, 3);
    assert_eq!(back, [0x90, 60, 100]);
}

#[test]
fn downconvert_note_on_2_keeps_high_bits() {
    let out = downconvert_to_midi1(&EventBody::NoteOn2 {
        group: 2,
        channel: 3,
        note: 60,
        velocity: 0xFFFF,
        attribute_type: 0,
        attribute: 0,
    });
    assert!(matches!(
        out,
        Some(EventBody::NoteOn { group: 2, channel: 3, note: 60, velocity: 127 })
    ));
}

#[test]
fn downconvert_keeps_live_note_off_the_note_off_boundary() {
    let Some(EventBody::NoteOn { velocity, .. }) = downconvert_to_midi1(&EventBody::NoteOn2 {
        group: 0,
        channel: 0,
        note: 60,
        velocity: 1,
        attribute_type: 0,
        attribute: 0,
    }) else {
        panic!("expected NoteOn");
    };
    assert_eq!(velocity, 1);
}

#[test]
fn downconvert_per_note_collapses_to_channel_cc() {
    let out = downconvert_to_midi1(&EventBody::PerNoteCC {
        group: 0,
        channel: 4,
        note: 60,
        cc: 74,
        value: u32::MAX,
        registered: true,
    });
    assert!(matches!(
        out,
        Some(EventBody::ControlChange { channel: 4, cc: 74, value: 127, .. })
    ));
}

#[test]
fn downconvert_returns_none_for_1_0_and_non_cv() {
    assert!(downconvert_to_midi1(&EventBody::NoteOn {
        group: 0,
        channel: 0,
        note: 60,
        velocity: 100,
    })
    .is_none());
    assert!(downconvert_to_midi1(&EventBody::ParamChange { id: 0, value: 0.0f64.to_bits() }).is_none());
}

#[test]
fn round_trip_pitch_bend_center() {
    let bytes = [0xE0, 0x00, 0x40];
    let event = parse_midi1(0, &bytes).unwrap();
    if let EventBody::PitchBend { value, .. } = event {
        assert_eq!(value, 8192);
    } else {
        panic!("expected PitchBend");
    }
}

#[test]
fn note_on_zero_velocity_is_note_off() {
    let bytes = [0x90, 60, 0];
    let event = parse_midi1(0, &bytes).unwrap();
    assert!(matches!(event, EventBody::NoteOff { .. }));
}

#[test]
fn channel_masked_on_encode() {
    let event = EventBody::NoteOn { group: 0, channel: 64, note: 60, velocity: 100 };
    let (_len, bytes) = event_to_midi1(&event).unwrap();
    assert_eq!(bytes[0], 0x90);
}

#[test]
fn group_propagated_through_parse() {
    let event = parse_midi1(7, &[0x90, 60, 100]).unwrap();
    if let EventBody::NoteOn { group, .. } = event {
        assert_eq!(group, 7);
    } else {
        panic!("expected NoteOn");
    }
}

#[test]
fn decode_program_change() {
    let event = decode_short_message(0xC3, 42, 0).unwrap();
    if let EventBody::ProgramChange { channel, program, .. } = event {
        assert_eq!(channel, 3);
        assert_eq!(program, 42);
    } else {
        panic!("expected ProgramChange, got {event:?}");
    }
}

#[test]
fn decode_channel_pressure() {
    let event = decode_short_message(0xD5, 96, 0).unwrap();
    if let EventBody::ChannelPressure { channel, pressure, .. } = event {
        assert_eq!(channel, 5);
        assert_eq!(pressure, 96);
    } else {
        panic!("expected ChannelPressure, got {event:?}");
    }
}

#[test]
fn decode_short_message_unknown_status_returns_none() {
    assert!(decode_short_message(0xF0, 0, 0).is_none());
    assert!(decode_short_message(0xF8, 0, 0).is_none());
}

#[test]
fn decode_short_message_strips_data_high_bit() {
    let event = decode_short_message(0xB0, 0xFF, 0xFF).unwrap();
    if let EventBody::ControlChange { cc, value, .. } = event {
        assert_eq!(cc, 0x7F);
        assert_eq!(value, 0x7F);
    } else {
        panic!("expected ControlChange, got {event:?}");
    }
}

#[test]
fn pitch_bend_splits_and_joins() {
    for value in [0u16, 1, 127, 128, 8192, 16383] {
        let (lsb, msb) = pitch_bend_to_bytes(value);
        assert!(lsb < 128 && msb < 128);
        assert_eq!(pitch_bend_from_bytes(lsb, msb), value);
    }
}

#[test]
fn every_channel_voice_message_reads_back() {
    for status in (0x80u8..0xF0).step_by(8) {
        let len = if (0xC0..0xE0).contains(&status) { 2 } else { 3 };
        let bytes = [status, 5, 6];
        let event = parse_midi1(1, &bytes[..len]).unwrap();
        let (n, back) = event_to_midi1(&event).unwrap();
        assert_eq!(n, len);
        assert_eq!(&back[..n], &bytes[..n]);
    }
    assert!(parse_midi1(0, &[]).is_none());
    assert!(parse_midi1(0, &[0x90, 60]).is_none());
}

#[test]
fn down_converted_messages_are_midi_1() {
    let out = downconvert_to_midi1(&EventBody::PitchBend2 { group: 0, channel: 1, value: 0x8000_0000 });
    assert_eq!(out, Some(EventBody::PitchBend { group: 0, channel: 1, value: 8192 }));
    let out = downconvert_to_midi1(&EventBody::ControlChange2 { group: 0, channel: 1, cc: 7, value: u32::MAX });
    assert_eq!(out, Some(EventBody::ControlChange { group: 0, channel: 1, cc: 7, value: 127 }));
    assert!(event_to_midi1(&out.unwrap()).is_some());
}
