use truce::bus::{sum_channels, BusLayout, ChannelConfig};
use truce::encoding::escape_quoted;
use truce::text::{
    bytes_eq, copy_bytes_to_buf, copy_str_to_buf, decimal_string, from_chars, has_nul, has_prefix,
    parse_u32, push_decimal, str_eq, to_c_text, to_chars, zero_buffer,
};

#[test]
fn numbers_are_written_and_read_in_decimals() {
    assert_eq!(decimal_string(0), "0");
    assert_eq!(decimal_string(u64::MAX), "18446744073709551615");
    let mut text = "n=".to_string();
    push_decimal(&mut text, 120);
    assert_eq!(text, "n=120");
    assert_eq!(parse_u32("4294967295"), Some(u32::MAX));
    assert_eq!(parse_u32("4294967296"), None);
    assert_eq!(parse_u32("+7"), "+7".parse().ok());
    assert_eq!(parse_u32("007"), Some(7));
    for bad in ["", "+", "-1", "1 ", "x", "1.0"] {
        assert_eq!(parse_u32(bad), None, "{bad:?}");
        assert!(bad.parse::<u32>().is_err());
    }
}

#[test]
fn texts_are_compared_and_taken_apart() {
    assert!(str_eq("ä", "ä") && !str_eq("a", "b") && !str_eq("a", "ab"));
    assert!(bytes_eq(b"ab", b"ab") && !bytes_eq(b"ab", b"ac"));
    assert_eq!(from_chars(&to_chars("aßc")), "aßc");
    assert!(has_prefix("truce::rt", "truce") && !has_prefix("tru", "truce"));
    assert!(has_nul("a\0b") && !has_nul("ab"));
    assert_eq!(to_c_text("a\0b"), "");
    assert_eq!(to_c_text("ab"), "ab");
    assert_eq!(escape_quoted("a\"b\\c\nd"), "a\\\"b\\\\c\nd");
}

#[test]
fn buffers_are_filled_and_closed() {
    let mut buffer = zero_buffer(4);
    assert_eq!(buffer, [0, 0, 0, 0]);
    copy_str_to_buf(&mut buffer, "abcdef");
    assert_eq!(buffer, b"abc\0");
    copy_bytes_to_buf(&mut buffer, b"x");
    assert_eq!(buffer, b"x\0c\0");
}

#[test]
fn channels_behind_the_main_bus_add_up() {
    let layout = BusLayout::new()
        .with_input("Main", ChannelConfig::Stereo)
        .with_input("Key", ChannelConfig::Mono)
        .with_input("Surround", ChannelConfig::Custom(6));
    assert_eq!(sum_channels(&layout.inputs, 0), 9);
    assert_eq!(sum_channels(&layout.inputs, 1), 7);
    assert_eq!(sum_channels(&layout.inputs, 3), 0);
}
