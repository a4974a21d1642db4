//! Checking that the audio thread does not allocate.
//!
//! The allocator hook of a thread keeps a [`RtCheckAlloc`]. Between the start and the
//! end of a section, which stands around the rendering of a block, each allocation
//! is counted; when the outermost section ends, the count is reported. A hook that
//! is not active checks nothing: no section is entered, and no count is made.
use crate::text::{decimal, has_prefix, push_decimal, starts_with, str_eq};
use vstd::prelude::*;
use vstd::string::*;

verus! {

/// How many places of a call stack are kept.
pub const MAX_FRAMES: usize = 32;

/// What is done about an allocation in a section.
#[derive(Debug, Clone, Copy, PartialEq, Eq, Structural)]
pub enum Mode {
    /// It is reported after the block.
    Count,
    /// The block fails.
    Panic,
    /// The process ends at once.
    Trap,
}

/// Reads the mode from its setting; counting is what is done without one.
pub fn mode(setting: Option<&str>) -> (r: Mode)
    ensures
        r == match setting {
            Some(s) => mode_named(s@),
            None => Mode::Count,
        },
{
    match setting {
        Some(s) => if str_eq(s, "panic") {
            Mode::Panic
        } else if str_eq(s, "trap") || str_eq(s, "abort") {
            Mode::Trap
        } else {
            Mode::Count
        },
        None => Mode::Count,
    }
}

/// What the allocator hook of a thread knows.
#[derive(Debug, Clone, Copy, PartialEq, Eq, Structural)]
pub struct RtCheckAlloc {
    /// Whether allocations are checked at all.
    pub active: bool,
    /// How many sections the thread is in.
    pub depth: u32,
    /// Whether an allocation is being recorded, which may itself allocate.
    pub recording: bool,
    /// How many allocations were counted since the outermost section started.
    pub violations: u32,
    /// The allocations of an audit, while there is one.
    pub audit: Option<u32>,
}

/// What became of an allocation.
#[derive(Debug, Clone, Copy, PartialEq, Eq, Structural)]
pub enum Noted {
    /// It is none of the hook's business.
    Ignored,
    /// It was counted. The call stack of the first one is kept, and in the trapping
    /// mode the process ends.
    Counted { first: bool, trap: bool },
}

/// One more, or one less, as counters that wrap around have it.
pub open spec fn one_more(n: u32) -> u32 {
    if n == u32::MAX {
        0
    } else {
        (n + 1) as u32
    }
}

pub open spec fn one_less(n: u32) -> u32 {
    if n == 0 {
        u32::MAX
    } else {
        (n - 1) as u32
    }
}

fn next(n: u32) -> (r: u32)
    ensures
        r == one_more(n),
{
    if n == u32::MAX {
        0
    } else {
        n + 1
    }
}

fn previous(n: u32) -> (r: u32)
    ensures
        r == one_less(n),
{
    if n == 0 {
        u32::MAX
    } else {
        n - 1
    }
}

impl RtCheckAlloc {
    /// A hook that has seen nothing, outside of any section.
    pub open spec fn fresh(active: bool) -> Self {
        RtCheckAlloc { active, depth: 0, recording: false, violations: 0, audit: None }
    }

    /// A hook that checks, and has seen nothing yet.
    #[must_use]
    pub fn new() -> (r: Self)
        ensures
            r == RtCheckAlloc::fresh(true),
    {
        RtCheckAlloc { active: true, depth: 0, recording: false, violations: 0, audit: None }
    }

    /// A hook that checks nothing.
    #[must_use]
    pub fn inert() -> (r: Self)
        ensures
            r == RtCheckAlloc::fresh(false),
    {
        RtCheckAlloc { active: false, depth: 0, recording: false, violations: 0, audit: None }
    }

    /// Whether an allocation counts now: inside of a section, and unless it comes
    /// from noting another one.
    pub open spec fn counts(self) -> bool {
        self.active && self.depth != 0 && !self.recording
    }

    /// Notes an allocation, if it counts. One that was counted is being recorded
    /// until `finish_note`.
    pub fn note_alloc(&mut self, mode: Mode) -> (r: Noted)
        ensures
            !old(self).counts() ==> r == Noted::Ignored && *final(self) == *old(self),
            old(self).counts() ==> r == (Noted::Counted {
                first: one_more(old(self).violations) == 1,
                trap: mode == Mode::Trap,
            }) && *final(self) == (RtCheckAlloc {
                recording: true,
                violations: one_more(old(self).violations),
                ..*old(self)
            }),
    {
        if !self.active || self.depth == 0 || self.recording {
            return Noted::Ignored;
        }
        self.recording = true;
        self.violations = next(self.violations);
        Noted::Counted { first: self.violations == 1, trap: mode == Mode::Trap }
    }

    /// Ends the recording of an allocation.
    pub fn finish_note(&mut self)
        ensures
            *final(self) == (RtCheckAlloc { recording: false, ..*old(self) }),
    {
        self.recording = false;
    }
}

impl Default for RtCheckAlloc {
    fn default() -> (r: Self)
        ensures
            r == RtCheckAlloc::fresh(true),
    {
        RtCheckAlloc::new()
    }
}

/// A section of a thread, around the rendering of a block.
#[derive(Debug)]
pub struct RtSection {}

/// A hook after a section was entered; one that is not active stays as it is.
pub open spec fn entered(hook: RtCheckAlloc) -> RtCheckAlloc {
    if hook.active {
        RtCheckAlloc { depth: one_more(hook.depth), ..hook }
    } else {
        hook
    }
}

/// A hook after a section was left, and the count that is to be reported, if any.
/// Only the outermost section settles the count: in an audit it is added up, and
/// otherwise it is reported. A hook that is not active stays as it is.
pub open spec fn left(hook: RtCheckAlloc) -> (RtCheckAlloc, Option<u32>) {
    let depth = one_less(hook.depth);
    if !hook.active {
        (hook, None)
    } else if depth != 0 {
        (RtCheckAlloc { depth, ..hook }, None)
    } else {
        let hook_after = RtCheckAlloc {
            depth,
            violations: 0,
            audit: match hook.audit {
                Some(n) => Some(
                    if n + hook.violations > u32::MAX {
                        u32::MAX
                    } else {
                        (n + hook.violations) as u32
                    },
                ),
                None => None,
            },
            ..hook
        };
        if hook.violations > 0 && hook.audit is None {
            (hook_after, Some(hook.violations))
        } else {
            (hook_after, None)
        }
    }
}

impl RtSection {
    /// Enters a section.
    #[must_use]
    pub fn enter(hook: &mut RtCheckAlloc) -> (r: Self)
        ensures
            *final(hook) == entered(*old(hook)),
    {
        if hook.active {
            hook.depth = next(hook.depth);
        }
        RtSection {  }
    }

    /// Leaves a section; gives the count that is to be reported, if any.
    pub fn leave(self, hook: &mut RtCheckAlloc) -> (r: Option<u32>)
        ensures
            (*final(hook), r) == left(*old(hook)),
    {
        if !hook.active {
            return None;
        }
        hook.depth = previous(hook.depth);
        if hook.depth != 0 {
            return None;
        }
        let count: u32 = hook.violations;
        hook.violations = 0;
        match hook.audit {
            Some(n) => {
                hook.audit = Some(n.saturating_add(count));
                None
            },
            None => if count > 0 {
                Some(count)
            } else {
                None
            },
        }
    }
}

/// Leaving the section that was entered last gives back the hook as it was, with
/// nothing to report, where it was inside of another section.
pub proof fn law_inner_section_changes_nothing(hook: RtCheckAlloc)
    requires
        hook.depth != 0,
    ensures
        left(entered(hook)) == (hook, None::<u32>),
{
}

/// Nothing is reported of a section in which nothing was counted.
pub proof fn law_clean_section_reports_nothing(hook: RtCheckAlloc)
    requires
        hook.violations == 0,
    ensures
        left(entered(hook)) == (hook, None::<u32>),
{
}

/// A hook that is not active counts nothing and reports nothing, in a section or out
/// of it.
pub proof fn law_inert_hook_checks_nothing(hook: RtCheckAlloc)
    requires
        !hook.active,
    ensures
        entered(hook) == hook,
        !entered(hook).counts(),
        left(entered(hook)) == (hook, None::<u32>),
{
}

/// A hook with another state of its audit.
pub open spec fn with_audit(hook: RtCheckAlloc, audit: Option<u32>) -> RtCheckAlloc {
    RtCheckAlloc { audit, ..hook }
}

/// The allocations of a hook's audit.
pub open spec fn audited(hook: RtCheckAlloc) -> u32 {
    match hook.audit {
        Some(n) => n,
        None => 0,
    }
}

/// Runs `f` as an audit: what it counts in sections is not reported, but given back
/// beside its result. An audit around this one goes on afterwards. Where the hook is
/// not active `f` just runs, and the count is zero.
pub fn audit<R>(hook: &mut RtCheckAlloc, f: impl FnOnce(&mut RtCheckAlloc) -> R) -> (r: (R, u32))
    requires
        forall|h: &mut RtCheckAlloc| #[trigger] call_requires(f, (h,)),
    ensures
        !old(hook).active ==> r.1 == 0,
        exists|h: &mut RtCheckAlloc, result: R|
            {
                &&& #[trigger] call_ensures(f, (h,), result)
                &&& r.0 == result
                &&& old(hook).active ==> {
                    &&& *h == with_audit(*old(hook), Some(0))
                    &&& r.1 == audited(*final(h))
                    &&& *final(hook) == with_audit(*final(h), old(hook).audit)
                }
                &&& !old(hook).active ==> *h == *old(hook) && *final(hook) == *final(h)
            },
{
    if !hook.active {
        return (f(hook), 0);
    }
    let around: Option<u32> = hook.audit;
    hook.audit = Some(0);
    let result: R = f(hook);
    let counted: Option<u32> = hook.audit;
    hook.audit = around;
    match counted {
        Some(n) => (result, n),
        None => (result, 0),
    }
}

/// Whether allocations are checked at all.
#[must_use]
pub fn is_active(hook: &RtCheckAlloc) -> (r: bool)
    ensures
        r == hook.active,
{
    hook.active
}

/// Runs `f` in a section of its own, of a hook that checks; gives the number of
/// allocations that it made, without reporting them.
pub fn count_allocs<R>(hook: &mut RtCheckAlloc, f: impl FnOnce(&mut RtCheckAlloc) -> R) -> (r: u32)
    requires
        old(hook).active,
        forall|h: &mut RtCheckAlloc| #[trigger] call_requires(f, (h,)),
    ensures
        exists|h: &mut RtCheckAlloc, result: R|
            {
                &&& #[trigger] call_ensures(f, (h,), result)
                &&& *h == (RtCheckAlloc { violations: 0, ..entered(*old(hook)) })
                &&& r == final(h).violations
                &&& *final(hook) == (RtCheckAlloc {
                    violations: 0,
                    depth: one_less(final(h).depth),
                    ..*final(h)
                })
            },
{
    hook.depth = next(hook.depth);
    hook.violations = 0;
    let result: R = f(hook);
    let count: u32 = hook.violations;
    hook.violations = 0;
    hook.depth = previous(hook.depth);
    count
}

/// Runs `f` outside of any section, where it may allocate; the thread is in its
/// sections again afterwards. Where the hook is not active `f` just runs.
pub fn allow_alloc<R>(hook: &mut RtCheckAlloc, f: impl FnOnce(&mut RtCheckAlloc) -> R) -> (r: R)
    requires
        forall|h: &mut RtCheckAlloc| #[trigger] call_requires(f, (h,)),
    ensures
        exists|h: &mut RtCheckAlloc|
            {
                &&& #[trigger] call_ensures(f, (h,), r)
                &&& old(hook).active ==> {
                    &&& *h == (RtCheckAlloc { depth: 0, ..*old(hook) })
                    &&& *final(hook) == (RtCheckAlloc { depth: old(hook).depth, ..*final(h) })
                }
                &&& !old(hook).active ==> *h == *old(hook) && *final(hook) == *final(h)
            },
{
    if !hook.active {
        return f(hook);
    }
    let depth: u32 = hook.depth;
    hook.depth = 0;
    let result: R = f(hook);
    hook.depth = depth;
    result
}

/// The call stack of an allocation, as far as it is kept.
#[derive(Debug)]
pub struct FrameBuf {
    pub ips: Vec<usize>,
}

impl FrameBuf {
    /// At most so many places are kept.
    pub open spec fn wf(&self) -> bool {
        self.ips@.len() <= MAX_FRAMES
    }

    /// An empty call stack.
    pub fn new() -> (r: Self)
        ensures
            r.wf(),
            r.ips@.len() == 0,
    {
        FrameBuf { ips: Vec::with_capacity(MAX_FRAMES) }
    }

    /// Keeps a place of the call stack while there is room; says whether there was.
    pub fn capture(&mut self, ip: usize) -> (r: bool)
        requires
            old(self).wf(),
        ensures
            final(self).wf(),
            r == (old(self).ips@.len() < MAX_FRAMES),
            final(self).ips@ == if r {
                old(self).ips@.push(ip)
            } else {
                old(self).ips@
            },
    {
        if self.ips.len() < MAX_FRAMES {
            self.ips.push(ip);
            true
        } else {
            false
        }
    }
}

/// A place of a call stack with what is known of it.
#[derive(Debug)]
pub struct ResolvedFrame {
    pub name: String,
    /// The file and the line.
    pub place: Option<(String, u32)>,
}

/// A line for a place of a call stack. The places of the check itself have none, and
/// neither have places of which nothing is known.
pub open spec fn frame_line(frame: ResolvedFrame) -> Seq<char> {
    if starts_with(frame.name@, "truce_core::rt"@) || starts_with(frame.name@, "backtrace"@) {
        Seq::empty()
    } else {
        match frame.place {
            Some((file, line)) => "\n    "@ + frame.name@ + " ("@ + file@ + ":"@ + decimal(
                line as nat,
            ) + ")"@,
            None => if frame.name@.len() > 0 {
                "\n    "@ + frame.name@
            } else {
                Seq::empty()
            },
        }
    }
}

/// The lines for the first `n` places.
pub open spec fn frame_lines(frames: Seq<ResolvedFrame>, n: int) -> Seq<char>
    decreases n,
{
    if n <= 0 {
        Seq::empty()
    } else {
        frame_lines(frames, n - 1) + frame_line(frames[n - 1])
    }
}

/// The report of so many allocations, with the call stack of the first one where
/// anything is known of it.
pub open spec fn report_text(count: u32, frames: Seq<ResolvedFrame>) -> Seq<char> {
    let lines = frame_lines(frames, frames.len() as int);
    let message = "truce rt-paranoid: "@ + decimal(count as nat)
        + " allocation(s) on the audio thread in process()"@;
    if lines.len() > 0 {
        message + "\n  first allocation:"@ + lines
    } else {
        message
    }
}

/// What is done with a report.
#[derive(Debug)]
pub enum Report {
    /// The block fails with it.
    Panic(String),
    /// It is printed.
    Print(String),
}

fn push_frame_line(text: &mut String, frame: &ResolvedFrame)
    ensures
        final(text)@ == old(text)@ + frame_line(*frame),
{
    let ghost before = text@;
    if has_prefix(frame.name.as_str(), "truce_core::rt") || has_prefix(
        frame.name.as_str(),
        "backtrace",
    ) {
        proof {
            assert(text@ =~= before + frame_line(*frame));
        }
        return ;
    }
    match &frame.place {
        Some((file, line)) => {
            text.append("\n    ");
            text.append(frame.name.as_str());
            text.append(" (");
            text.append(file.as_str());
            text.append(":");
            push_decimal(text, *line as u64);
            text.append(")");
        },
        None => {
            if !frame.name.as_str().is_empty() {
                text.append("\n    ");
                text.append(frame.name.as_str());
            }
        },
    }
    proof {
        assert(text@ =~= before + frame_line(*frame));
    }
}

/// Makes the report of so many allocations. It lets the block fail in the panicking
/// mode, but not while the thread fails already.
pub fn report(count: u32, frames: &Vec<ResolvedFrame>, mode: Mode, panicking: bool) -> (r: Report)
    ensures
        if mode == Mode::Panic && !panicking {
            r matches Report::Panic(text) && text@ == report_text(count, frames@)
        } else {
            r matches Report::Print(text) && text@ == report_text(count, frames@)
        },
{
    let mut lines: String = String::new();
    let mut i: usize = 0;
    while i < frames.len()
        invariant
            i <= frames@.len(),
            lines@ == frame_lines(frames@, i as int),
        decreases frames@.len() - i,
    {
        push_frame_line(&mut lines, &frames[i]);
        i = i + 1;
    }
    let mut text: String = "truce rt-paranoid: ".to_owned();
    push_decimal(&mut text, count as u64);
    text.append(" allocation(s) on the audio thread in process()");
    if !lines.as_str().is_empty() {
        text.append("\n  first allocation:");
        text.append(lines.as_str());
    }
    match mode {
        Mode::Panic if !panicking => Report::Panic(text),
        _ => Report::Print(text),
    }
}

/// Only the section that is left last settles what was counted in it: it reports the exact
/// count, unless that is zero or an audit is on, which then adds it up and stops at the
/// largest number; the count starts again. Leaving any other section reports nothing and
/// keeps the count.
pub proof fn law_the_outermost_section_settles_the_count(hook: RtCheckAlloc)
    requires
        hook.active,
        hook.depth > 0,
    ensures
        left(hook).0.depth == hook.depth - 1,
        left(hook).0.active && left(hook).0.recording == hook.recording,
        hook.depth > 1 ==> left(hook).1 is None && left(hook).0.violations == hook.violations
            && left(hook).0.audit == hook.audit,
        hook.depth == 1 ==> left(hook).0.violations == 0,
        hook.depth == 1 && hook.audit is None ==> left(hook).0.audit is None && left(hook).1 == if (
        hook.violations > 0) {
            Some(hook.violations)
        } else {
            None
        },
        hook.depth == 1 ==> (hook.audit matches Some(n) ==> left(hook).1 is None && left(
            hook,
        ).0.audit == Some(
            if n + hook.violations <= 0xFFFF_FFFF {
                (n + hook.violations) as u32
            } else {
                0xFFFF_FFFF
            },
        )),
{
}

/// Entering a section is one more to leave, and changes nothing else; an allocation counts
/// inside of one, and not while another is being recorded.
pub proof fn law_sections_nest(hook: RtCheckAlloc)
    ensures
        hook.active && hook.depth < 0xFFFF_FFFF ==> entered(hook) == (RtCheckAlloc {
            depth: (hook.depth + 1) as u32,
            ..hook
        }),
        hook.counts() <==> hook.active && hook.depth > 0 && !hook.recording,
        hook.violations < 0xFFFF_FFFF ==> one_more(hook.violations) == hook.violations + 1,
        RtCheckAlloc::fresh(true).depth == 0 && RtCheckAlloc::fresh(true).violations == 0,
        !RtCheckAlloc::fresh(true).counts() && RtCheckAlloc::fresh(true).active,
{
}

/// An audit starts from zero and gives back what its hook holds; it touches nothing but
/// the audit.
pub proof fn law_audits_hold_their_own_count(hook: RtCheckAlloc, n: u32)
    ensures
        audited(with_audit(hook, Some(n))) == n,
        audited(with_audit(hook, None)) == 0,
        with_audit(hook, Some(n)).depth == hook.depth && with_audit(hook, Some(n)).violations
            == hook.violations && with_audit(hook, Some(n)).active == hook.active && with_audit(
            hook,
            Some(n),
        ).recording == hook.recording,
{
}

/// A report says how many allocations there were, and where the first one came from as far
/// as that is known: place by place, without those of the check itself.
pub proof fn law_reports_say_how_many_and_where(
    count: u32,
    frames: Seq<ResolvedFrame>,
    frame: ResolvedFrame,
)
    ensures
        ({
            let said = "truce rt-paranoid: "@ + decimal(count as nat)
                + " allocation(s) on the audio thread in process()"@;
            let lines = frame_lines(frames, frames.len() as int);
            &&& lines.len() == 0 ==> report_text(count, frames) == said
            &&& lines.len() > 0 ==> report_text(count, frames) == said
                + "\n  first allocation:"@ + lines
        }),
        frame_lines(frames.push(frame), frames.len() as int + 1) == frame_lines(
            frames,
            frames.len() as int,
        ) + frame_line(frame),
        frame_lines(Seq::empty(), 0).len() == 0,
        ({
            let own = starts_with(frame.name@, "truce_core::rt"@) || starts_with(
                frame.name@,
                "backtrace"@,
            );
            &&& own ==> frame_line(frame).len() == 0
            &&& !own ==> match frame.place {
                Some((file, line)) => frame_line(frame) == "\n    "@ + frame.name@ + " ("@ + file@
                    + ":"@ + decimal(line as nat) + ")"@,
                None => frame.name@.len() > 0 ==> frame_line(frame) == "\n    "@ + frame.name@,
            }
        }),
{
    lemma_frame_lines_front(frames, frames.push(frame), frames.len() as int);
}

proof fn lemma_frame_lines_front(a: Seq<ResolvedFrame>, b: Seq<ResolvedFrame>, n: int)
    requires
        0 <= n <= a.len() <= b.len(),
        forall|i: int| 0 <= i < a.len() ==> #[trigger] a[i] == b[i],
    ensures
        frame_lines(a, n) == frame_lines(b, n),
    decreases n,
{
    if n > 0 {
        lemma_frame_lines_front(a, b, n - 1);
        assert(a[n - 1] == b[n - 1]);
    }
}

/// The mode that a setting names.
pub open spec fn mode_named(s: Seq<char>) -> Mode {
    if s == "panic"@ {
        Mode::Panic
    } else if s == "trap"@ || s == "abort"@ {
        Mode::Trap
    } else {
        Mode::Count
    }
}

/// Only the word for it makes a check panic, only two words make it trap, and every
/// other setting counts.
pub proof fn law_modes_go_by_their_names(s: Seq<char>)
    ensures
        mode_named(s) is Panic <==> s == "panic"@,
        mode_named(s) is Trap <==> s == "trap"@ || s == "abort"@,
        mode_named(s) is Count <==> s != "panic"@ && s != "trap"@ && s != "abort"@,
{
    reveal_strlit("panic");
    reveal_strlit("trap");
    reveal_strlit("abort");
    assert("panic"@.len() == 5 && "trap"@.len() == 4 && "abort"@.len() == 5);
    assert("panic"@[0] == 'p' && "abort"@[0] == 'a');
}

} // verus!
