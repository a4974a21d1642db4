//! Editor geometry: how a requested size is fitted to what an editor allows.
use vstd::prelude::*;

verus! {

/// The sizes, in logical points, that an editor has and allows.
#[derive(Clone, Copy, Debug, PartialEq, Eq)]
pub struct EditorGeometry {
    pub size: (u32, u32),
    pub min_size: (u32, u32),
    pub max_size: (u32, u32),
    /// Width and height of the ratio that the editor keeps, if it keeps one.
    pub aspect_ratio: Option<(u32, u32)>,
    pub can_resize: bool,
}

/// `n`, held between `lo` and `hi`.
pub open spec fn held(n: int, lo: int, hi: int) -> int {
    if n < lo {
        lo
    } else if n > hi {
        hi
    } else {
        n
    }
}

pub open spec fn at_least_one(n: u32) -> int {
    if n < 1 {
        1
    } else {
        n as int
    }
}

pub open spec fn distance(a: int, b: int) -> int {
    if a < b {
        b - a
    } else {
        a - b
    }
}

impl EditorGeometry {
    /// There is a size that the editor allows.
    pub open spec fn wf(&self) -> bool {
        &&& at_least_one(self.min_size.0) <= self.max_size.0
        &&& at_least_one(self.min_size.1) <= self.max_size.1
    }

    pub open spec fn held_width(&self, w: int) -> int {
        held(w, at_least_one(self.min_size.0), self.max_size.0 as int)
    }

    pub open spec fn held_height(&self, h: int) -> int {
        held(h, at_least_one(self.min_size.1), self.max_size.1 as int)
    }

    /// The ratio that the editor keeps, where both of its parts say something.
    pub open spec fn ratio(&self) -> Option<(int, int)> {
        match self.aspect_ratio {
            Some((num, denom)) => if num > 0 && denom > 0 {
                Some((num as int, denom as int))
            } else {
                None
            },
            None => None,
        }
    }
}

/// The size that a request comes to. Each axis is held to its bounds. Where the
/// editor keeps a ratio, the axis that moved further from the current size
/// drives the other one, and is then derived back from it.
pub open spec fn fitted(w: int, h: int, editor: EditorGeometry) -> (int, int) {
    let w0 = editor.held_width(w);
    let h0 = editor.held_height(h);
    match editor.ratio() {
        None => (w0, h0),
        Some((num, denom)) => if distance(h0, editor.size.1 as int) > distance(
            w0,
            editor.size.0 as int,
        ) {
            let w1 = editor.held_width(held(h0 * num / denom, 1, u32::MAX as int));
            (w1, editor.held_height(held(w1 * denom / num, 1, u32::MAX as int)))
        } else {
            let h1 = editor.held_height(held(w0 * denom / num, 1, u32::MAX as int));
            (editor.held_width(held(h1 * num / denom, 1, u32::MAX as int)), h1)
        },
    }
}

fn hold(n: u32, lo: u32, hi: u32) -> (r: u32)
    requires
        at_least_one(lo) <= hi,
    ensures
        r == held(n as int, at_least_one(lo), hi as int),
{
    let floor: u32 = if lo < 1 {
        1
    } else {
        lo
    };
    if n < floor {
        floor
    } else if n > hi {
        hi
    } else {
        n
    }
}

fn gap(a: u32, b: u32) -> (r: u32)
    ensures
        r == distance(a as int, b as int),
{
    if a < b {
        b - a
    } else {
        a - b
    }
}

/// `n * num / denom`, held to the sizes there are.
fn scale_axis(n: u32, num: u32, denom: u32) -> (r: u32)
    requires
        denom > 0,
    ensures
        r == held(n * num / denom as int, 1, u32::MAX as int),
{
    assert(n * num <= 0xFFFF_FFFF * 0xFFFF_FFFF) by (nonlinear_arith);
    let scaled: u64 = (n as u64) * (num as u64) / (denom as u64);
    if scaled < 1 {
        1
    } else if scaled > 0xFFFF_FFFF {
        0xFFFF_FFFF
    } else {
        scaled as u32
    }
}

/// Applies an editor's bounds and its ratio to a requested logical size.
pub fn clamp_logical_size(w: u32, h: u32, editor: &EditorGeometry) -> (r: (u32, u32))
    requires
        editor.wf(),
    ensures
        r.0 == fitted(w as int, h as int, *editor).0,
        r.1 == fitted(w as int, h as int, *editor).1,
{
    let w0: u32 = hold(w, editor.min_size.0, editor.max_size.0);
    let h0: u32 = hold(h, editor.min_size.1, editor.max_size.1);
    match editor.aspect_ratio {
        Some((num, denom)) => {
            if num == 0 || denom == 0 {
                return (w0, h0);
            }
            if gap(h0, editor.size.1) > gap(w0, editor.size.0) {
                let w1: u32 = hold(
                    scale_axis(h0, num, denom),
                    editor.min_size.0,
                    editor.max_size.0,
                );
                (w1, hold(scale_axis(w1, denom, num), editor.min_size.1, editor.max_size.1))
            } else {
                let h1: u32 = hold(
                    scale_axis(w0, denom, num),
                    editor.min_size.1,
                    editor.max_size.1,
                );
                (hold(scale_axis(h1, num, denom), editor.min_size.0, editor.max_size.0), h1)
            }
        },
        None => (w0, h0),
    }
}

/// A fitted size lies within the editor's bounds on both axes, and is never zero.
pub proof fn law_fitted_within_bounds(w: int, h: int, editor: EditorGeometry)
    requires
        editor.wf(),
    ensures
        at_least_one(editor.min_size.0) <= fitted(w, h, editor).0 <= editor.max_size.0,
        at_least_one(editor.min_size.1) <= fitted(w, h, editor).1 <= editor.max_size.1,
{
}

/// Without a ratio, a size within the bounds is kept as it was asked for.
pub proof fn law_allowed_size_is_kept(w: int, h: int, editor: EditorGeometry)
    requires
        editor.wf(),
        editor.ratio() is None,
        at_least_one(editor.min_size.0) <= w <= editor.max_size.0,
        at_least_one(editor.min_size.1) <= h <= editor.max_size.1,
    ensures
        fitted(w, h, editor) == (w, h),
{
}

/// With a ratio, the axis derived last is the other axis times the ratio, rounded
/// down, wherever no bound holds it: the size is off the ratio by less than one
/// step.
pub proof fn law_fitted_keeps_the_ratio(w: int, h: int, editor: EditorGeometry)
    requires
        editor.wf(),
        editor.ratio() is Some,
        at_least_one(editor.min_size.0) < fitted(w, h, editor).0 < editor.max_size.0,
        at_least_one(editor.min_size.1) < fitted(w, h, editor).1 < editor.max_size.1,
    ensures
        ({
            let (num, denom) = editor.ratio()->0;
            let (fw, fh) = fitted(w, h, editor);
            fw == fh * num / denom || fh == fw * denom / num
        }),
{
}

/// Where an editor has no bounds, whatever is asked for comes to a size that is off
/// the editor's ratio by less than one step, also where a size cannot be smaller or
/// larger.
pub proof fn law_unbounded_size_keeps_the_ratio(w: int, h: int, editor: EditorGeometry)
    requires
        editor.ratio() is Some,
        editor.min_size.0 <= 1,
        editor.min_size.1 <= 1,
        editor.max_size.0 == u32::MAX,
        editor.max_size.1 == u32::MAX,
    ensures
        ({
            let (num, denom) = editor.ratio()->0;
            let (fw, fh) = fitted(w, h, editor);
            let step = if num < denom {
                denom
            } else {
                num
            };
            -step < fw * denom - fh * num < step
        }),
{
    let (num, denom) = editor.ratio()->0;
    let w0 = editor.held_width(w);
    let h0 = editor.held_height(h);
    lemma_driven_axis(w0, denom, num);
    lemma_driven_axis(h0, num, denom);
}

/// An axis `n` that drives the other, at `num` to `denom` of it, and is derived back.
proof fn lemma_driven_axis(n: int, num: int, denom: int)
    requires
        1 <= n <= u32::MAX,
        0 < num <= u32::MAX,
        0 < denom <= u32::MAX,
    ensures
        ({
            let other = held(n * num / denom, 1, u32::MAX as int);
            let back = held(other * denom / num, 1, u32::MAX as int);
            -num < back * num - other * denom < num
        }),
{
    let max = u32::MAX as int;
    let scaled = n * num / denom;
    let other = held(scaled, 1, max);
    let derived = other * denom / num;
    let back = held(derived, 1, max);
    assert(other * denom == num * derived + (other * denom) % num && 0 <= (other * denom) % num
        < num) by (nonlinear_arith)
        requires
            num > 0,
            derived == other * denom / num,
    ;
    assert(n * num == denom * scaled + (n * num) % denom && 0 <= (n * num) % denom < denom)
        by (nonlinear_arith)
        requires
            denom > 0,
            scaled == n * num / denom,
    ;
    assert(n * num > 0) by (nonlinear_arith)
        requires
            n >= 1,
            num > 0,
    ;
    assert(other * denom > 0) by (nonlinear_arith)
        requires
            other >= 1,
            denom > 0,
    ;
    assert(derived <= max) by {
        if other == 1 && scaled < 1 {
            assert(other * denom == denom) by (nonlinear_arith)
                requires
                    other == 1,
            ;
            assert(derived <= denom) by (nonlinear_arith)
                requires
                    num * derived <= denom,
                    num >= 1,
                    denom > 0,
            ;
        } else {
            assert(other * denom <= n * num) by (nonlinear_arith)
                requires
                    other <= scaled,
                    denom > 0,
                    denom * scaled <= n * num,
            ;
            assert(derived <= n) by (nonlinear_arith)
                requires
                    num * derived <= n * num,
                    num > 0,
            ;
        }
    }
    if derived < 1 {
        assert(num * derived <= 0) by (nonlinear_arith)
            requires
                derived <= 0,
                num > 0,
        ;
        assert(back * num == num) by (nonlinear_arith)
            requires
                back == 1,
        ;
    } else {
        assert(back * num == num * derived) by (nonlinear_arith)
            requires
                back == derived,
        ;
    }
}

/// A size within the bounds that has the editor's ratio already is kept as it was asked
/// for; so is the axis that moved further, where the other can follow it exactly.
pub proof fn law_sizes_on_the_ratio_are_kept(w: int, h: int, editor: EditorGeometry)
    requires
        editor.wf(),
        editor.ratio() is Some,
        at_least_one(editor.min_size.0) <= w <= editor.max_size.0,
        at_least_one(editor.min_size.1) <= h <= editor.max_size.1,
    ensures
        ({
            let (num, denom) = editor.ratio()->0;
            let dw = if w < editor.size.0 {
                editor.size.0 - w
            } else {
                w - editor.size.0
            };
            let dh = if h < editor.size.1 {
                editor.size.1 - h
            } else {
                h - editor.size.1
            };
            &&& w * denom == h * num ==> fitted(w, h, editor) == (w, h)
            &&& dh > dw ==> forall|other: int|
                at_least_one(editor.min_size.0) <= other <= editor.max_size.0 && #[trigger] (other
                    * denom) == h * num ==> fitted(w, h, editor) == (other, h)
            &&& dh <= dw ==> forall|other: int|
                at_least_one(editor.min_size.1) <= other <= editor.max_size.1 && #[trigger] (other
                    * num) == w * denom ==> fitted(w, h, editor) == (w, other)
        }),
{
    let (num, denom) = editor.ratio()->0;
    assert(editor.held_width(w) == w && editor.held_height(h) == h);
    if w * denom == h * num {
        lemma_exact(w, h, num, denom);
    }
    assert forall|other: int|
        at_least_one(editor.min_size.0) <= other <= editor.max_size.0 && #[trigger] (other * denom)
            == h * num && distance(h, editor.size.1 as int) > distance(
            w,
            editor.size.0 as int,
        ) implies fitted(w, h, editor) == (other, h) by {
        lemma_exact(other, h, num, denom);
    }
    assert forall|other: int|
        at_least_one(editor.min_size.1) <= other <= editor.max_size.1 && #[trigger] (other * num)
            == w * denom && distance(h, editor.size.1 as int) <= distance(
            w,
            editor.size.0 as int,
        ) implies fitted(w, h, editor) == (w, other) by {
        lemma_exact(w, other, num, denom);
    }
}

proof fn lemma_exact(w: int, h: int, num: int, denom: int)
    requires
        w * denom == h * num,
        num > 0,
        denom > 0,
    ensures
        h * num / denom == w,
        w * denom / num == h,
{
    assert(h * num / denom == w) by (nonlinear_arith)
        requires
            w * denom == h * num,
            denom > 0,
    ;
    assert(w * denom / num == h) by (nonlinear_arith)
        requires
            w * denom == h * num,
            num > 0,
    ;
}

} // verus!
