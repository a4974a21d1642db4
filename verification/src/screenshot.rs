//! Pictures of a plugin's editor: the file that one is written to, and its contents.
use crate::config::{find_text, first_place};
use crate::text::to_chars;
use vstd::prelude::*;
use vstd::string::*;

verus! {

/// Where pictures go, below the root of a project.
pub const DEFAULT_SCREENSHOT_DIR: &'static str = "target/screenshots";

/// Pixels a metre at 144 dots an inch, at which a picture shows at half its size.
pub const PIXELS_PER_METRE: u32 = 5669;

/// The contents of a PNG file with these pixels, of four bytes each, and this many
/// pixels a metre; where there is no such file, in words, why.
pub uninterp spec fn png_file(pixels: Seq<u8>, w: u32, h: u32, per_metre: u32) -> Result<
    Seq<u8>,
    Seq<char>,
>;

/// `png::Encoder` with eight-bit red, green, blue and alpha: the file of the pixels,
/// or in words why there is none. One without any pixel is refused. Pixels that are
/// not as many as the sizes say are left out.
#[verifier::external_body]
fn encode_png(pixels: &[u8], w: u32, h: u32, per_metre: u32) -> (r: Result<Vec<u8>, String>)
    requires
        pixels@.len() == 4 * w * h,
    ensures
        match r {
            Ok(bytes) => png_file(pixels@, w, h, per_metre) == Ok::<Seq<u8>, Seq<char>>(bytes@),
            Err(reason) => png_file(pixels@, w, h, per_metre) == Err::<Seq<u8>, Seq<char>>(
                reason@,
            ),
        },
        w == 0 || h == 0 ==> r is Err,
{
    let mut file: Vec<u8> = Vec::new();
    let mut encoder = png::Encoder::new(&mut file, w, h);
    encoder.set_color(png::ColorType::Rgba);
    encoder.set_depth(png::BitDepth::Eight);
    let unit = png::Unit::Meter;
    encoder.set_pixel_dims(Some(png::PixelDimensions { xppu: per_metre, yppu: per_metre, unit }));
    let mut writer = encoder.write_header().map_err(|e| e.to_string())?;
    writer.write_image_data(pixels).map_err(|e| e.to_string())?;
    drop(writer);
    Ok(file)
}

/// The contents of the picture file for some pixels.
pub fn save_png(pixels: &[u8], w: u32, h: u32) -> (r: Result<Vec<u8>, String>)
    requires
        pixels@.len() == 4 * w * h,
    ensures
        match r {
            Ok(bytes) => png_file(pixels@, w, h, PIXELS_PER_METRE) == Ok::<Seq<u8>, Seq<char>>(bytes@),
            Err(reason) => png_file(pixels@, w, h, PIXELS_PER_METRE) == Err::<Seq<u8>, Seq<char>>(
                reason@,
            ),
        },
        w == 0 || h == 0 ==> r is Err,
{
    encode_png(pixels, w, h, PIXELS_PER_METRE)
}

/// The name of a picture's file.
pub fn picture_file_name(name: &str) -> (r: String)
    ensures
        r@ == name@ + ".png"@,
{
    let mut file: String = name.to_owned();
    file.append(".png");
    file
}

/// Whether a manifest is that of a workspace.
pub open spec fn is_workspace(manifest: Option<String>) -> bool {
    manifest matches Some(text) && first_place(text@, "[workspace]"@, 0) is Some
}

/// Which of the first `n` directories, from the working directory upwards, is the
/// root of the project: the first whose manifest is that of a workspace, else the
/// topmost that has a manifest, else the working directory.
pub open spec fn project_root(manifests: Seq<Option<String>>, n: int) -> int
    decreases n,
{
    if n <= 0 {
        0
    } else if exists|i: int| 0 <= i < n - 1 && is_workspace(#[trigger] manifests[i]) {
        project_root(manifests, n - 1)
    } else if manifests[n - 1] is Some {
        n - 1
    } else {
        project_root(manifests, n - 1)
    }
}

/// Finds the root of the project that pictures go below. The manifests are those of
/// the working directory and the directories above it, as far as they have one that
/// can be read.
pub fn workspace_screenshot_dir(manifests: &Vec<Option<String>>) -> (r: usize)
    ensures
        r == project_root(manifests@, manifests@.len() as int),
{
    let wanted: Vec<char> = to_chars("[workspace]");
    let mut topmost: usize = 0;
    let mut i: usize = 0;
    while i < manifests.len()
        invariant
            i <= manifests@.len(),
            wanted@ == "[workspace]"@,
            forall|k: int| 0 <= k < i ==> !is_workspace(#[trigger] manifests@[k]),
            topmost == project_root(manifests@, i as int),
        decreases manifests@.len() - i,
    {
        if let Some(text) = &manifests[i] {
            topmost = i;
            let chars: Vec<char> = to_chars(text.as_str());
            if find_text(&chars, &wanted).is_some() {
                proof {
                    assert(is_workspace(manifests@[i as int]));
                    lemma_root_stays(manifests@, i as int, manifests@.len() as int);
                }
                return i;
            }
        }
        i = i + 1;
    }
    topmost
}

proof fn lemma_root_stays(manifests: Seq<Option<String>>, i: int, n: int)
    requires
        0 <= i < n <= manifests.len(),
        is_workspace(manifests[i]),
        forall|k: int| 0 <= k < i ==> !is_workspace(#[trigger] manifests[k]),
    ensures
        project_root(manifests, n) == i,
    decreases n,
{
    if i < n - 1 {
        lemma_root_stays(manifests, i, n - 1);
    }
}

/// The root of a project is the nearest directory whose manifest is a workspace's; without
/// one the topmost directory that has a manifest, and without any manifest the working
/// directory itself.
pub proof fn law_root_is_the_nearest_workspace(manifests: Seq<Option<String>>, i: int)
    requires
        0 <= i < manifests.len(),
    ensures
        is_workspace(manifests[i]) && (forall|k: int|
            0 <= k < i ==> !is_workspace(#[trigger] manifests[k])) ==> project_root(
            manifests,
            manifests.len() as int,
        ) == i,
        (forall|k: int| 0 <= k < manifests.len() ==> !is_workspace(#[trigger] manifests[k]))
            && manifests[i] is Some && (forall|k: int|
            i < k < manifests.len() ==> (#[trigger] manifests[k]) is None) ==> project_root(
            manifests,
            manifests.len() as int,
        ) == i,
        (forall|k: int| 0 <= k < manifests.len() ==> (#[trigger] manifests[k]) is None)
            ==> project_root(manifests, manifests.len() as int) == 0,
{
    let n = manifests.len() as int;
    if is_workspace(manifests[i]) && (forall|k: int|
        0 <= k < i ==> !is_workspace(#[trigger] manifests[k])) {
        lemma_root_stays(manifests, i, n);
    }
    if (forall|k: int| 0 <= k < manifests.len() ==> !is_workspace(#[trigger] manifests[k]))
        && manifests[i] is Some && (forall|k: int|
        i < k < manifests.len() ==> (#[trigger] manifests[k]) is None) {
        lemma_topmost(manifests, n, i);
    }
    if forall|k: int| 0 <= k < manifests.len() ==> (#[trigger] manifests[k]) is None {
        lemma_topmost(manifests, n, -1);
    }
}

proof fn lemma_topmost(manifests: Seq<Option<String>>, n: int, i: int)
    requires
        0 <= n <= manifests.len(),
        -1 <= i < n || n == 0,
        forall|k: int| 0 <= k < n ==> !is_workspace(#[trigger] manifests[k]),
        0 <= i < n ==> manifests[i] is Some,
        forall|k: int| i < k < n && 0 <= k ==> (#[trigger] manifests[k]) is None,
    ensures
        0 <= i < n ==> project_root(manifests, n) == i,
        i < 0 ==> project_root(manifests, n) == 0,
    decreases n,
{
    if n > 0 && i < n - 1 {
        assert(manifests[n - 1] is None);
        lemma_topmost(manifests, n - 1, i);
    }
}

/// A manifest is a workspace's where it says so somewhere.
pub proof fn law_workspaces_say_so(before: Seq<char>, after: Seq<char>, text: String)
    requires
        text@ == before + "[workspace]"@ + after,
    ensures
        is_workspace(Some(text)),
        !is_workspace(None),
{
    crate::config::law_first_place_is_the_first(text@, "[workspace]"@, 0);
    let at = before.len() as int;
    assert(text@.subrange(at, at + "[workspace]"@.len()) =~= "[workspace]"@);
}

} // verus!
