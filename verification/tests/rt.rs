use truce::rt::{
    allow_alloc, audit, count_allocs, is_active, mode, report, FrameBuf, Mode, Noted, Report,
    ResolvedFrame, RtCheckAlloc, RtSection, MAX_FRAMES,
};

/// An allocation, as the allocator hook sees it.
fn allocate(hook: &mut RtCheckAlloc) -> Noted {
    let noted = hook.note_alloc(Mode::Count);
    if noted != Noted::Ignored {
        // Recording may allocate too; that does not count.
        assert_eq!(hook.note_alloc(Mode::Count), Noted::Ignored);
        hook.finish_note();
    }
    noted
}

#[test]
fn alloc_in_section_is_flagged() {
    let mut hook = RtCheckAlloc::new();
    let n = count_allocs(&mut hook, |h: &mut RtCheckAlloc| {
        allocate(h);
    });
    assert!(n >= 1, "expected the in-section allocation to be flagged");
}

#[test]
fn no_alloc_in_section_is_clean() {
    let mut hook = RtCheckAlloc::new();
    let n = count_allocs(&mut hook, |_: &mut RtCheckAlloc| 2 + 3);
    assert_eq!(n, 0);
}

#[test]
fn allow_alloc_suppresses_flagging() {
    let mut hook = RtCheckAlloc::new();
    let n = count_allocs(&mut hook, |h: &mut RtCheckAlloc| {
        allow_alloc(h, |h: &mut RtCheckAlloc| {
            allocate(h);
        });
    });
    assert_eq!(n, 0, "allow_alloc should suspend checking for its scope");
    assert_eq!(hook, RtCheckAlloc::default());
}

#[test]
fn only_the_outermost_section_reports() {
    let mut hook = RtCheckAlloc::new();
    assert_eq!(allocate(&mut hook), Noted::Ignored);
    let outer = RtSection::enter(&mut hook);
    let inner = RtSection::enter(&mut hook);
    assert_eq!(allocate(&mut hook), Noted::Counted { first: true, trap: false });
    assert_eq!(inner.leave(&mut hook), None);
    assert_eq!(allocate(&mut hook), Noted::Counted { first: false, trap: false });
    assert_eq!(outer.leave(&mut hook), Some(2));
    assert_eq!(hook, RtCheckAlloc::new());
    // A clean section has nothing to report.
    let section = RtSection::enter(&mut hook);
    assert_eq!(section.leave(&mut hook), None);
}

#[test]
fn an_audit_adds_up_quietly() {
    let mut hook = RtCheckAlloc::new();
    let (result, n) = audit(&mut hook, |h: &mut RtCheckAlloc| {
        for _ in 0..2 {
            let section = RtSection::enter(h);
            allocate(h);
            assert_eq!(section.leave(h), None);
        }
        "done"
    });
    assert_eq!((result, n), ("done", 2));
    assert_eq!(hook.audit, None);
    assert!(is_active(&hook));
}

#[test]
fn an_inert_hook_checks_nothing() {
    let mut hook = RtCheckAlloc::inert();
    assert!(!is_active(&hook));
    let section = RtSection::enter(&mut hook);
    assert_eq!(hook, RtCheckAlloc::inert());
    assert_eq!(allocate(&mut hook), Noted::Ignored);
    assert_eq!(section.leave(&mut hook), None);
    let (result, n) = audit(&mut hook, |h: &mut RtCheckAlloc| {
        let section = RtSection::enter(h);
        allocate(h);
        assert_eq!(section.leave(h), None);
        "done"
    });
    assert_eq!((result, n), ("done", 0));
    assert_eq!(allow_alloc(&mut hook, |_: &mut RtCheckAlloc| 5), 5);
    assert_eq!(hook, RtCheckAlloc::inert());
}

#[test]
fn modes_are_read_from_their_setting() {
    assert_eq!(mode(Some("panic")), Mode::Panic);
    assert_eq!(mode(Some("trap")), Mode::Trap);
    assert_eq!(mode(Some("abort")), Mode::Trap);
    assert_eq!(mode(Some("other")), Mode::Count);
    assert_eq!(mode(None), Mode::Count);
    let mut hook = RtCheckAlloc::new();
    let _section = RtSection::enter(&mut hook);
    assert_eq!(hook.note_alloc(Mode::Trap), Noted::Counted { first: true, trap: true });
}

#[test]
fn reports_name_the_first_call_stack() {
    let frame = |name: &str, place: Option<(&str, u32)>| ResolvedFrame {
        name: name.to_string(),
        place: place.map(|(f, l)| (f.to_string(), l)),
    };
    let frames = vec![
        frame("truce_core::rt::imp::note_alloc", Some(("rt.rs", 9))),
        frame("backtrace::trace", None),
        frame("plugin::process", Some(("lib.rs", 12))),
        frame("host::render", None),
        frame("", None),
    ];
    let text = "truce rt-paranoid: 3 allocation(s) on the audio thread in process()\n  first allocation:\n    plugin::process (lib.rs:12)\n    host::render";
    assert!(matches!(report(3, &frames, Mode::Count, false), Report::Print(t) if t == text));
    assert!(matches!(report(3, &frames, Mode::Panic, false), Report::Panic(t) if t == text));
    assert!(matches!(report(3, &frames, Mode::Panic, true), Report::Print(t) if t == text));
    let bare = "truce rt-paranoid: 1 allocation(s) on the audio thread in process()";
    assert!(matches!(report(1, &vec![frame("", None)], Mode::Count, false), Report::Print(t) if t == bare));
}

#[test]
fn call_stacks_are_kept_up_to_a_length() {
    let mut frames = FrameBuf::new();
    for ip in 0..MAX_FRAMES {
        assert!(frames.capture(ip));
    }
    assert!(!frames.capture(99));
    assert_eq!(frames.ips.len(), MAX_FRAMES);
    assert_eq!(frames.ips[31], 31);
}
