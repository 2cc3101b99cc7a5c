use chronox_tui::model::{ChangeDetail, ChangeEvent, ChangeSource, ChangeTool};
use chronox_tui::render::{edit_line, header_line, list_lines, Line};
use chronox_tui::timeline::{
    build_groups, build_visible, counts_total, group_of_event, session_totals, VisibleRow,
};

fn ev(ts: i64, file: &str, line_index: usize) -> ChangeEvent {
    ChangeEvent {
        timestamp_ms: ts,
        tool: ChangeTool::Edit,
        file_path: file.to_string(),
        summary: "tweak the thing".to_string(),
        detail: ChangeDetail::Edit {
            old: "old".into(),
            new: "new".into(),
        },
        source: ChangeSource {
            session_file: "s.jsonl".to_string(),
            line_index,
            index_in_line: 0,
        },
    }
}

fn write_ev(ts: i64, file: &str, line_index: usize) -> ChangeEvent {
    ChangeEvent {
        tool: ChangeTool::Write,
        detail: ChangeDetail::Write { head: "x".into() },
        ..ev(ts, file, line_index)
    }
}

#[test]
fn build_groups_orders_by_first_seen_and_rolls_up() {
    // newest-first input: a, a, b, write-c
    let events = vec![
        ev(4, "/wt/a.rs", 1),
        ev(3, "/wt/a.rs", 2),
        ev(2, "/wt/b.rs", 3),
        write_ev(1, "/wt/c.rs", 4),
    ];
    // per-event (add, del)
    let counts = vec![(10, 1), (4, 0), (2, 2), (58, 0)];
    let groups = build_groups(&events, &counts);

    assert_eq!(groups.len(), 3);
    assert_eq!(groups[0].file, "/wt/a.rs");
    assert_eq!(groups[0].event_idxs, vec![0, 1]);
    assert_eq!((groups[0].add, groups[0].del), (14, 1));
    assert!(!groups[0].is_new);

    assert_eq!(groups[1].file, "/wt/b.rs");
    assert_eq!((groups[1].add, groups[1].del), (2, 2));

    assert_eq!(groups[2].file, "/wt/c.rs");
    assert!(groups[2].is_new, "single Write -> new file");
}

#[test]
fn interleaved_files_keep_first_seen_order() {
    let events = vec![
        ev(5, "/wt/b.rs", 1),
        ev(4, "/wt/a.rs", 2),
        ev(3, "/wt/b.rs", 3),
        write_ev(2, "/wt/a.rs", 4),
    ];
    let groups = build_groups(&events, &[(1, 0), (2, 0), (3, 1)]);
    assert_eq!(groups.len(), 2);
    assert_eq!(groups[0].file, "/wt/b.rs");
    assert_eq!(groups[0].event_idxs, vec![0, 2]);
    assert_eq!((groups[0].add, groups[0].del), (4, 1));
    assert_eq!(groups[1].event_idxs, vec![1, 3]);
    // the fourth event has no count entry: it counts as none
    assert_eq!((groups[1].add, groups[1].del), (2, 0));
    // a Write among several changes is not a new file
    assert!(!groups[1].is_new);
}

#[test]
fn build_groups_of_nothing_is_empty() {
    assert!(build_groups(&[], &[]).is_empty());
}

#[test]
fn build_visible_expands_only_active_group() {
    let events = vec![ev(3, "/wt/a.rs", 1), ev(2, "/wt/a.rs", 2), ev(1, "/wt/b.rs", 3)];
    let counts = vec![(1, 0), (1, 0), (1, 0)];
    let groups = build_groups(&events, &counts);

    // active = group 1 (b.rs): headers for both files, b's single edit nested.
    let vis = build_visible(&groups, 1);
    assert_eq!(
        vis,
        vec![
            VisibleRow::Header { group: 0 },
            VisibleRow::Header { group: 1 },
            VisibleRow::Edit { event: 2 },
        ]
    );

    // active = group 0 (a.rs): a's two edits nested, b folded.
    let vis = build_visible(&groups, 0);
    assert_eq!(
        vis,
        vec![
            VisibleRow::Header { group: 0 },
            VisibleRow::Edit { event: 0 },
            VisibleRow::Edit { event: 1 },
            VisibleRow::Header { group: 1 },
        ]
    );

    // no active group: headers only
    assert_eq!(build_visible(&groups, 7).len(), 2);
}

#[test]
fn totals_sum_over_groups_and_events() {
    let events = vec![
        ev(4, "/wt/a.rs", 1),
        ev(3, "/wt/a.rs", 2),
        ev(2, "/wt/b.rs", 3),
        write_ev(1, "/wt/c.rs", 4),
    ];
    let counts = vec![(10, 1), (4, 0), (2, 2), (58, 0)];
    let groups = build_groups(&events, &counts);
    assert_eq!(session_totals(&groups), (74, 3));
    assert_eq!(counts_total(&counts), (74, 3));
    assert_eq!(counts_total(&[(u32::MAX, 0), (1, 2)]), (1 << 32, 2));
}

#[test]
fn group_of_event_finds_the_owner() {
    let events = vec![ev(3, "/wt/a.rs", 1), ev(2, "/wt/b.rs", 2), ev(1, "/wt/a.rs", 3)];
    let groups = build_groups(&events, &[]);
    assert_eq!(group_of_event(&groups, 0), Some(0));
    assert_eq!(group_of_event(&groups, 1), Some(1));
    assert_eq!(group_of_event(&groups, 2), Some(0));
    assert_eq!(group_of_event(&groups, 3), None);
}

#[test]
fn list_shows_file_header_and_nested_edit() {
    let events = vec![ev(0, "/wt/src/app.rs", 1), ev(0, "/wt/src/ui.rs", 2)];
    let counts = vec![(1, 1), (1, 1)];
    let groups = build_groups(&events, &counts);
    let active = group_of_event(&groups, 0).unwrap();
    let visible = build_visible(&groups, active);
    let width = 48u16; // a 50-column list pane less its borders
    let mut text = String::new();
    for row in &visible {
        let line = match *row {
            VisibleRow::Header { group } => {
                let g = &groups[group];
                let rel = chronox_tui::paths::relative_display(&g.file, "/wt");
                header_line(&rel, g.add, g.del, g.event_idxs.len(), g.is_new, group == active, group == active, width, false)
            }
            VisibleRow::Edit { event } => {
                let g = &groups[active];
                let last = g.event_idxs.last() == Some(&event);
                let (add, del) = counts[event];
                edit_line(events[event].timestamp_ms, add, del, &events[event].summary, last, false, width)
            }
        };
        text.extend(line.spans.iter().map(|s| s.content.as_str()));
    }
    assert!(text.contains("src/app.rs"), "file header rendered");
    assert!(text.contains("▾"), "active file expanded");
    assert!(text.contains("▸"), "other file folded");
    assert!(text.contains("tweak the thing"), "active file's edit summary shown");
}

#[test]
fn row_of_event_finds_the_edit_row() {
    let events = vec![ev(3, "/wt/a.rs", 1), ev(2, "/wt/a.rs", 2), ev(1, "/wt/b.rs", 3)];
    let groups = build_groups(&events, &[]);
    let visible = build_visible(&groups, 0);
    assert_eq!(chronox_tui::timeline::row_of_event(&visible, 1), Some(2));
    assert_eq!(chronox_tui::timeline::row_of_event(&visible, 2), None, "folded");
}

fn same_line(a: &Line, b: &Line) -> bool {
    a.spans.len() == b.spans.len()
        && a
            .spans
            .iter()
            .zip(b.spans.iter())
            .all(|(x, y)| x.content == y.content && x.style == y.style)
}

fn line_text(line: &Line) -> String {
    line.spans.iter().map(|s| s.content.as_str()).collect()
}

#[test]
fn list_lines_draws_headers_and_the_active_files_edits() {
    let events = vec![
        ev(0, "/wt/src/a.rs", 1),
        ev(60_000, "/wt/src/a.rs", 2),
        ev(120_000, "/wt/b.rs", 3),
    ];
    let counts = vec![(3, 1), (2, 0), (5, 0)];
    let groups = build_groups(&events, &counts);
    let visible = build_visible(&groups, 0);
    // header a, edit 0, edit 1, header b
    assert_eq!(visible.len(), 4);
    let lines = list_lines(&groups, &events, &counts, "/wt", &visible, 0, 1, 0, 10, 40);
    assert_eq!(lines.len(), 4);
    let expect_header = header_line("src/a.rs", 5, 1, 2, false, true, true, 40, false);
    assert!(same_line(&lines[0], &expect_header));
    let expect_first = edit_line(0, 3, 1, "tweak the thing", false, true, 40);
    assert!(same_line(&lines[1], &expect_first));
    let expect_last = edit_line(60_000, 2, 0, "tweak the thing", true, false, 40);
    assert!(same_line(&lines[2], &expect_last));
    assert!(line_text(&lines[3]).starts_with("▸ b.rs"));
    // every row is exactly the width
    for l in &lines {
        assert_eq!(line_text(l).chars().count(), 40);
    }
}

#[test]
fn list_lines_windows_and_clips() {
    let events = vec![ev(0, "/wt/a.rs", 1), ev(1, "/wt/b.rs", 2), ev(2, "/wt/c.rs", 3)];
    let counts = vec![(1, 0), (1, 0), (1, 0)];
    let groups = build_groups(&events, &counts);
    let visible = build_visible(&groups, 2);
    // header a, header b, header c, edit 2
    assert_eq!(visible.len(), 4);
    let lines = list_lines(&groups, &events, &counts, "/wt", &visible, 2, 3, 1, 2, 30);
    assert_eq!(lines.len(), 2);
    assert!(line_text(&lines[0]).starts_with("▸ b.rs"));
    assert!(line_text(&lines[1]).starts_with("▾ c.rs"));
    let empty = list_lines(&groups, &events, &counts, "/wt", &visible, 2, 3, 4, 2, 30);
    assert!(empty.is_empty());
}
