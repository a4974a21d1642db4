use truce::screenshot::{
    picture_file_name, save_png, workspace_screenshot_dir, DEFAULT_SCREENSHOT_DIR, PIXELS_PER_METRE,
};

#[test]
fn pictures_read_back_as_their_pixels() {
    let pixels: Vec<u8> = (0..24).collect();
    let bytes = save_png(&pixels, 3, 2).unwrap();
    assert_eq!(&bytes[..8], &[137, 80, 78, 71, 13, 10, 26, 10]);
    let decoder = png::Decoder::new(bytes.as_slice());
    let mut reader = decoder.read_info().unwrap();
    assert_eq!(reader.info().size(), (3, 2));
    let dims = reader.info().pixel_dims.unwrap();
    assert_eq!((dims.xppu, dims.yppu), (PIXELS_PER_METRE, PIXELS_PER_METRE));
    let mut back = vec![0; reader.output_buffer_size()];
    reader.next_frame(&mut back).unwrap();
    assert_eq!(back, pixels);
}

#[test]
fn a_picture_without_pixels_is_refused() {
    assert!(save_png(&[], 0, 5).is_err());
    assert!(save_png(&[], 5, 0).is_err());
}

#[test]
fn pictures_go_below_the_root_of_the_project() {
    let package = || Some("[package]\nname = \"a\"\n".to_string());
    let workspace = || Some("[workspace]\nmembers = []\n".to_string());
    // The working directory comes first, the root of the file system last.
    assert_eq!(workspace_screenshot_dir(&vec![package(), None, workspace(), package()]), 2);
    assert_eq!(workspace_screenshot_dir(&vec![package(), None, package(), None]), 2);
    assert_eq!(workspace_screenshot_dir(&vec![None, None]), 0);
    assert_eq!(workspace_screenshot_dir(&vec![]), 0);
    assert_eq!(picture_file_name("gain"), "gain.png");
    assert_eq!(DEFAULT_SCREENSHOT_DIR, "target/screenshots");
}
