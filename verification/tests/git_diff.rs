use blue_ide::git::diff::{
    group_events, hunks_of_lines, line_events_of, splice, try_splice, DiffEvent, HunkKind, LineOrigin,
};

#[test]
fn group_events_empty() {
    assert!(group_events(Vec::new()).is_empty());
}

#[test]
fn group_events_added_run() {
    let events = vec![
        DiffEvent { kind: HunkKind::Added, old_start: 4, old_count: 0, new_start: 4, new_count: 1 },
        DiffEvent { kind: HunkKind::Added, old_start: 4, old_count: 0, new_start: 5, new_count: 1 },
        DiffEvent { kind: HunkKind::Added, old_start: 4, old_count: 0, new_start: 6, new_count: 1 },
    ];
    let hunks = group_events(events);
    assert_eq!(hunks.len(), 1);
    assert_eq!(hunks[0].kind, HunkKind::Added);
    assert_eq!(hunks[0].line_start, 4);
    assert_eq!(hunks[0].line_count, 3);
    assert_eq!(hunks[0].old_line_start, 4);
    assert_eq!(hunks[0].new_line_start, 4);
    assert_eq!(hunks[0].new_line_count, 3);
}

#[test]
fn group_events_removed_run() {
    let events = vec![
        DiffEvent { kind: HunkKind::Removed, old_start: 1, old_count: 1, new_start: 1, new_count: 0 },
        DiffEvent { kind: HunkKind::Removed, old_start: 2, old_count: 1, new_start: 1, new_count: 0 },
    ];
    let hunks = group_events(events);
    assert_eq!(hunks.len(), 1);
    assert_eq!(hunks[0].kind, HunkKind::Removed);
    assert_eq!(hunks[0].line_start, 1);
    assert_eq!(hunks[0].line_count, 2);
    assert_eq!(hunks[0].old_line_count, 2);
    assert_eq!(hunks[0].new_line_count, 0);
}

#[test]
fn group_events_mixed_becomes_modified() {
    let events = vec![
        DiffEvent { kind: HunkKind::Removed, old_start: 2, old_count: 1, new_start: 2, new_count: 0 },
        DiffEvent { kind: HunkKind::Added, old_start: 2, old_count: 0, new_start: 2, new_count: 1 },
        DiffEvent { kind: HunkKind::Added, old_start: 2, old_count: 0, new_start: 3, new_count: 1 },
    ];
    let hunks = group_events(events);
    assert_eq!(hunks.len(), 1);
    assert_eq!(hunks[0].kind, HunkKind::Modified);
    assert_eq!(hunks[0].old_line_start, 2);
    assert_eq!(hunks[0].old_line_count, 1);
    assert_eq!(hunks[0].new_line_start, 2);
    assert_eq!(hunks[0].new_line_count, 2);
    assert_eq!(hunks[0].line_start, 2);
    assert_eq!(hunks[0].line_count, 2);
}

#[test]
fn group_events_splits_on_gap() {
    let events = vec![
        DiffEvent { kind: HunkKind::Added, old_start: 0, old_count: 0, new_start: 0, new_count: 1 },
        DiffEvent { kind: HunkKind::Added, old_start: 0, old_count: 0, new_start: 1, new_count: 1 },
        DiffEvent { kind: HunkKind::Added, old_start: 0, old_count: 0, new_start: 4, new_count: 1 },
        DiffEvent { kind: HunkKind::Added, old_start: 0, old_count: 0, new_start: 5, new_count: 1 },
    ];
    let hunks = group_events(events);
    assert_eq!(hunks.len(), 2);
    assert_eq!(hunks[0].line_start, 0);
    assert_eq!(hunks[1].line_start, 4);
}

#[test]
fn splice_replaces_middle_range() {
    let base = "one\ntwo\nthree\n";
    let source = "one\nTWO changed\nthree\nfour new\n";
    let result = splice(base, 1, 1, source, 1, 1);
    assert_eq!(result, "one\nTWO changed\nthree\n");
}

#[test]
fn splice_inserts_and_deletes_without_touching_other_lines() {
    let base = "one\ntwo\nthree\n";
    let source = "one\ntwo\ninserted\nthree\n";
    let inserted = splice(base, 2, 0, source, 2, 1);
    assert_eq!(inserted, "one\ntwo\ninserted\nthree\n");

    let deleted = splice(base, 1, 1, source, 1, 0);
    assert_eq!(deleted, "one\nthree\n");
}

#[test]
fn splice_clamps_out_of_range_bounds() {
    let base = "a\nb";
    let source = "x\ny";
    assert_eq!(splice(base, 10, 5, source, 1, 10), "a\nb\ny");
    assert_eq!(splice(base, 0, 0, source, 9, 9), "a\nb");
}

#[test]
fn splice_then_reverse_splice_restores_base() {
    let head = "one\ntwo\nthree\n";
    let work = "one\nTWO\nTWO-b\nthree\n";
    let staged = splice(head, 1, 1, work, 1, 2);
    assert_eq!(staged, "one\nTWO\nTWO-b\nthree\n");
    let unstaged = splice(&staged, 1, 2, head, 1, 1);
    assert_eq!(unstaged, head);
}

#[test]
fn line_events_track_old_and_new_positions() {
    let origins = [
        LineOrigin::Context,
        LineOrigin::Deletion,
        LineOrigin::Addition,
        LineOrigin::Addition,
        LineOrigin::Context,
        LineOrigin::Other,
        LineOrigin::Addition,
    ];
    let events = line_events_of(&origins);
    assert_eq!(events.len(), 4);
    assert_eq!(
        events[0],
        DiffEvent { kind: HunkKind::Removed, old_start: 1, old_count: 1, new_start: 1, new_count: 0 }
    );
    assert_eq!(
        events[1],
        DiffEvent { kind: HunkKind::Added, old_start: 2, old_count: 0, new_start: 1, new_count: 1 }
    );
    assert_eq!(
        events[3],
        DiffEvent { kind: HunkKind::Added, old_start: 3, old_count: 0, new_start: 4, new_count: 1 }
    );
    let hunks = hunks_of_lines(&origins);
    assert_eq!(hunks.len(), 2);
    assert_eq!(hunks[0].kind, HunkKind::Modified);
    assert_eq!((hunks[0].line_start, hunks[0].line_count), (1, 2));
    assert_eq!(hunks[1].kind, HunkKind::Added);
    assert_eq!(hunks[1].line_start, 4);
}

#[test]
fn checked_splice_refuses_overflowing_ranges() {
    let base = "a\nb\nc";
    let source = "a\nx\nc";
    assert_eq!(try_splice(base, 1, 1, source, 1, 1), Some("a\nx\nc".to_owned()));
    assert_eq!(try_splice(base, 1, usize::MAX, source, 1, 1), None);
    assert_eq!(try_splice(base, 0, 1, source, 2, usize::MAX), None);
    assert_eq!(try_splice(base, 0, usize::MAX, source, 0, 0), Some(String::new()));
}
