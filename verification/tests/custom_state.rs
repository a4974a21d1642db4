use truce::custom_state::{State, StateBinding, StateCursor, StateField};

#[test]
fn primitives_round_trip() {
    let mut buf = Vec::new();
    42u32.write_field(&mut buf);
    3.14f64.to_bits().write_field(&mut buf);
    true.write_field(&mut buf);

    let mut cursor = StateCursor::new(&buf);
    assert_eq!(u32::read_field(&mut cursor), Some(42));
    assert_eq!(u64::read_field(&mut cursor).map(f64::from_bits), Some(3.14));
    assert_eq!(bool::read_field(&mut cursor), Some(true));
}

#[test]
fn string_round_trip() {
    let mut buf = Vec::new();
    "hello world".to_string().write_field(&mut buf);

    let mut cursor = StateCursor::new(&buf);
    assert_eq!(String::read_field(&mut cursor), Some("hello world".to_string()));
}

#[test]
fn vec_round_trip() {
    let mut buf = Vec::new();
    vec![1u32, 2, 3].write_field(&mut buf);

    let mut cursor = StateCursor::new(&buf);
    assert_eq!(Vec::<u32>::read_field(&mut cursor), Some(vec![1, 2, 3]));
}

#[test]
fn option_round_trip() {
    let mut buf = Vec::new();
    Some(42u32).write_field(&mut buf);
    None::<u32>.write_field(&mut buf);

    let mut cursor = StateCursor::new(&buf);
    assert_eq!(Option::<u32>::read_field(&mut cursor), Some(Some(42)));
    assert_eq!(Option::<u32>::read_field(&mut cursor), Some(None));
}

#[test]
fn nested_vec_string() {
    let mut buf = Vec::new();
    let v = vec!["foo".to_string(), "bar".to_string()];
    v.write_field(&mut buf);

    let mut cursor = StateCursor::new(&buf);
    assert_eq!(Vec::<String>::read_field(&mut cursor), Some(v));
}

#[test]
fn whole_numbers_are_written_little_end_first() {
    let mut buf = Vec::new();
    0x0102u16.write_field(&mut buf);
    0x0102_0304u32.write_field(&mut buf);
    (-2i16).write_field(&mut buf);
    assert_eq!(&buf[buf.len() - 2..], &[0xFE, 0xFF]);

    let mut cursor = StateCursor::new(&buf);
    assert_eq!(u16::read_field(&mut cursor), Some(0x0102));
    assert_eq!(u32::read_field(&mut cursor), Some(0x0102_0304));
    assert_eq!(i16::read_field(&mut cursor), Some(-2));
    assert_eq!(cursor.remaining(), 0);
}

#[test]
fn every_whole_number_reads_back() {
    let mut buf = Vec::new();
    u8::MAX.write_field(&mut buf);
    u64::MAX.write_field(&mut buf);
    i8::MIN.write_field(&mut buf);
    i32::MIN.write_field(&mut buf);
    i64::MIN.write_field(&mut buf);
    false.write_field(&mut buf);
    let mut cursor = StateCursor::new(&buf);
    assert_eq!(u8::read_field(&mut cursor), Some(u8::MAX));
    assert_eq!(u64::read_field(&mut cursor), Some(u64::MAX));
    assert_eq!(i8::read_field(&mut cursor), Some(i8::MIN));
    assert_eq!(i32::read_field(&mut cursor), Some(i32::MIN));
    assert_eq!(i64::read_field(&mut cursor), Some(i64::MIN));
    assert_eq!(bool::read_field(&mut cursor), Some(false));
}

#[test]
fn cut_off_data_reads_as_nothing() {
    let mut buf = Vec::new();
    "hello".to_string().write_field(&mut buf);
    buf.pop();
    assert_eq!(String::read_field(&mut StateCursor::new(&buf)), None);
    assert_eq!(u32::read_field(&mut StateCursor::new(&[1, 2])), None);
    // Bytes that are no text are none either.
    let mut bad = Vec::new();
    "ab".to_string().write_field(&mut bad);
    let last = bad.len() - 1;
    bad[last] = 0xFF;
    assert_eq!(String::read_field(&mut StateCursor::new(&bad)), None);
}

#[test]
fn unread_bytes_are_taken_piecewise() {
    let data = [1u8, 2, 3];
    let mut cursor = StateCursor::new(&data);
    assert_eq!(cursor.read_bytes(2), Some(&data[..2]));
    assert_eq!(cursor.remaining(), 1);
    assert_eq!(cursor.read_bytes(2), None);
    assert_eq!(cursor.read_bytes(1), Some(&data[2..]));
}

#[derive(Default, Debug, PartialEq)]
struct Knobs {
    name: String,
}

impl State for Knobs {
    fn serialize(&self) -> Vec<u8> {
        let mut out = Vec::new();
        self.name.write_field(&mut out);
        out
    }
    fn deserialize(data: &[u8]) -> Option<Self> {
        String::read_field(&mut StateCursor::new(data)).map(|name| Knobs { name })
    }
}

#[test]
fn a_binding_follows_its_plugin() {
    let saved = Knobs { name: "a".to_string() }.serialize();
    let mut binding = StateBinding::<Knobs>::new(&saved);
    assert_eq!(binding.get().name, "a");
    // Bytes that do not parse, and no bytes, change nothing.
    binding.sync(&vec![9, 9]);
    binding.sync(&Vec::new());
    assert_eq!(binding.get().name, "a");
    let bytes = binding.update(|k: &mut Knobs| k.name.push('b'));
    assert_eq!(binding.get().name, "ab");
    assert_eq!(bytes, Knobs { name: "ab".to_string() }.serialize());
    assert_eq!(StateBinding::<Knobs>::default().get(), &Knobs::default());
}

#[test]
fn fields_of_a_later_version_are_skipped() {
    let data = [3u8, 0, 0, 0, 9, 9, 9, 5];
    let mut cursor = StateCursor::new(&data);
    assert!(cursor.skip_field());
    assert_eq!(cursor.remaining(), 1);
    assert!(!cursor.skip_field());
    assert_eq!(cursor.remaining(), 1);
    let mut short = StateCursor::new(&data[..6]);
    assert!(!short.skip_field());
    assert_eq!(short.remaining(), 2);
}
