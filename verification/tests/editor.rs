use truce::cast::{len_u32, size_of_u32};
use truce::editor::{clamp_logical_size, EditorGeometry};

fn stub(size: (u32, u32), aspect: Option<(u32, u32)>) -> EditorGeometry {
    EditorGeometry {
        size,
        min_size: (320, 240),
        max_size: (u32::MAX, u32::MAX),
        aspect_ratio: aspect,
        can_resize: true,
    }
}

#[test]
fn no_aspect_clamps_each_axis_to_bounds() {
    let e = stub((640, 480), None);
    assert_eq!(clamp_logical_size(800, 600, &e), (800, 600));
    assert_eq!(clamp_logical_size(100, 100, &e), (320, 240));
}

#[test]
fn vertical_edge_drag_derives_width_from_height() {
    let e = stub((640, 480), Some((4, 3)));
    assert_eq!(clamp_logical_size(640, 600, &e), (800, 600));
}

#[test]
fn horizontal_edge_drag_derives_height_from_width() {
    let e = stub((640, 480), Some((4, 3)));
    assert_eq!(clamp_logical_size(800, 480, &e), (800, 600));
}

#[test]
fn corner_drag_follows_the_larger_delta() {
    let e = stub((640, 480), Some((4, 3)));
    assert_eq!(clamp_logical_size(800, 600, &e), (800, 600));
}

#[test]
fn result_stays_on_ratio_and_within_bounds() {
    let e = stub((640, 480), Some((16, 9)));
    let (w, h) = clamp_logical_size(640, 800, &e);
    assert!((i64::from(w) * 9 - i64::from(h) * 16).abs() <= 16);
    assert!(w >= 320 && h >= 240);
}

#[test]
fn an_allowed_size_on_the_ratio_is_kept() {
    let e = stub((640, 480), Some((4, 3)));
    assert_eq!(clamp_logical_size(1024, 768, &e), (1024, 768));
    assert_eq!(clamp_logical_size(640, 480, &e), (640, 480));
}

#[test]
fn len_u32_basic() {
    assert_eq!(len_u32(0), 0);
    assert_eq!(len_u32(127), 127);
    assert_eq!(len_u32(u32::MAX as usize), u32::MAX);
}

struct AbiStruct {
    _a: u32,
    _b: u64,
}

#[test]
fn size_of_u32_basic() {
    assert_eq!(size_of_u32::<u8>(), 1);
    assert_eq!(size_of_u32::<u32>(), 4);
    assert_eq!(size_of_u32::<u64>(), 8);
    assert_eq!(size_of_u32::<AbiStruct>(), 16);
}

#[test]
fn without_bounds_any_request_lands_next_to_the_ratio() {
    let sizes = [0, 1, 2, 3, 640, 1_000_003, u32::MAX - 1, u32::MAX];
    for (num, denom) in [(4u32, 3u32), (3, 4), (1, 1), (1, u32::MAX), (u32::MAX, 1), (7, 1000)] {
        let e = EditorGeometry {
            size: (640, 480),
            min_size: (1, 1),
            max_size: (u32::MAX, u32::MAX),
            aspect_ratio: Some((num, denom)),
            can_resize: true,
        };
        for w in sizes {
            for h in sizes {
                let (fw, fh) = clamp_logical_size(w, h, &e);
                let off = i128::from(fw) * i128::from(denom) - i128::from(fh) * i128::from(num);
                assert!(off.abs() < i128::from(num.max(denom)), "{w}x{h} at {num}:{denom}");
            }
        }
    }
}
