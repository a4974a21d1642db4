use truce::dsp_state::{fingerprint, layout_fingerprint, may_preserve, NO_PRESERVE};

#[test]
fn no_preserve_never_matches_itself() {
    assert!(!may_preserve(NO_PRESERVE, NO_PRESERVE));
}

#[test]
fn no_preserve_never_matches_a_real_fingerprint() {
    assert!(!may_preserve(NO_PRESERVE, 0x1234));
    assert!(!may_preserve(0x1234, NO_PRESERVE));
}

#[test]
fn equal_real_fingerprints_preserve() {
    assert!(may_preserve(0xdead_beef, 0xdead_beef));
}

#[test]
fn zero_sized_state_never_preserves() {
    assert_eq!(layout_fingerprint::<()>("()"), NO_PRESERVE);
}

#[test]
fn distinct_types_get_distinct_fingerprints() {
    assert_ne!(layout_fingerprint::<u32>("u32"), layout_fingerprint::<u64>("u64"));
    assert_ne!(
        layout_fingerprint::<[u8; 4]>("[u8; 4]"),
        layout_fingerprint::<[u8; 8]>("[u8; 8]")
    );
    assert_ne!(layout_fingerprint::<f64>("f64"), layout_fingerprint::<i64>("i64"));
    assert_ne!(layout_fingerprint::<u32>("u32"), NO_PRESERVE);
}

#[test]
fn same_type_is_stable() {
    assert_eq!(layout_fingerprint::<u64>("u64"), layout_fingerprint::<u64>("u64"));
}

#[test]
fn fingerprints_follow_path_size_and_alignment() {
    let base = fingerprint(b"a::B", 8, 8);
    assert_ne!(base, fingerprint(b"a::C", 8, 8));
    assert_ne!(base, fingerprint(b"a::B", 16, 8));
    assert_ne!(base, fingerprint(b"a::B", 8, 4));
    assert_eq!(fingerprint(b"a::B", 0, 1), NO_PRESERVE);
}
