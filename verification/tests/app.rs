use chronox_tui::app::{
    repin, App, AppAction, DiffView, Effect, Focus, NavKey, NavOutcome, Rect, MIN_LIST,
};
use chronox_tui::model::{ChangeDetail, ChangeEvent, ChangeSource, ChangeTool};

fn ev(ts: i64, file: &str, line_index: usize) -> ChangeEvent {
    ChangeEvent {
        timestamp_ms: ts,
        tool: ChangeTool::Edit,
        file_path: file.to_string(),
        summary: String::new(),
        detail: ChangeDetail::Edit {
            old: "a".into(),
            new: "b".into(),
        },
        source: ChangeSource {
            session_file: "s.jsonl".to_string(),
            line_index,
            index_in_line: 0,
        },
    }
}

#[test]
fn repin_keeps_same_event_when_new_events_prepended() {
    let old_events = [ev(2, "/wt/a.rs", 1), ev(1, "/wt/b.rs", 2)];
    let pinned = old_events[1].source.clone(); // selected b.rs at index 1
    let new_events = vec![
        ev(3, "/wt/new.rs", 9),
        ev(2, "/wt/a.rs", 1),
        ev(1, "/wt/b.rs", 2),
    ];
    assert_eq!(repin(&new_events, Some(&pinned), 1), 2);
}

#[test]
fn repin_clamps_when_event_gone() {
    let new_events = vec![ev(3, "/wt/new.rs", 9)];
    let gone = ChangeSource {
        session_file: "x.jsonl".to_string(),
        line_index: 99,
        index_in_line: 0,
    };
    assert_eq!(repin(&new_events, Some(&gone), 5), 0);
}

#[test]
fn repin_empty_is_zero() {
    assert_eq!(repin(&[], None, 3), 0);
}

#[test]
fn repin_without_pin_clamps_to_last() {
    let events = vec![ev(3, "/wt/a.rs", 1), ev(2, "/wt/b.rs", 2)];
    assert_eq!(repin(&events, None, 7), 1);
    assert_eq!(repin(&events, None, 0), 0);
}

#[test]
fn repin_takes_the_first_match() {
    let events = vec![ev(3, "/wt/a.rs", 4), ev(2, "/wt/b.rs", 4)];
    let pinned = events[1].source.clone();
    assert_eq!(repin(&events, Some(&pinned), 1), 0);
}

#[test]
fn list_focus_moves_selection() {
    let mut app = App::bare("/wt".to_string());
    app.set_events_for_test_pub(vec![
        ev(3, "/wt/a.rs", 1),
        ev(2, "/wt/b.rs", 2),
        ev(1, "/wt/c.rs", 3),
    ]);
    app.focus = Focus::List;
    // In the list, navigation keys are handed to the timeline navigation,
    // whose answer (a list row) comes back through `finish_nav`. The rows
    // are: a.rs header, its edit, b.rs header, c.rs header.
    assert_eq!(app.visible.len(), 4);
    assert_eq!(app.apply(AppAction::Nav(NavKey::Down)), Effect::Navigate(NavKey::Down));
    app.finish_nav(1, NavOutcome::Nothing);
    assert_eq!(app.selected, 1);
    // Bottom lands on the c.rs header (row 3), which expands c.rs and folds
    // a.rs: the header now sits at row 2.
    assert_eq!(app.apply(AppAction::Nav(NavKey::Bottom)), Effect::Navigate(NavKey::Bottom));
    app.finish_nav(3, NavOutcome::Nothing);
    assert_eq!(app.selected, 2);
    assert_eq!(app.active_group, 2);
    assert_eq!(app.apply(AppAction::Nav(NavKey::Top)), Effect::Navigate(NavKey::Top));
    app.finish_nav(0, NavOutcome::Nothing);
    assert_eq!(app.selected, 0);
}

#[test]
fn moving_selection_resets_diff_scroll() {
    let mut app = App::bare("/wt".to_string());
    app.set_events_for_test_pub(vec![ev(2, "/wt/a.rs", 1), ev(1, "/wt/b.rs", 2)]);
    app.focus = Focus::List;
    app.diff_scroll = 7;
    assert_eq!(app.apply(AppAction::Nav(NavKey::Down)), Effect::Navigate(NavKey::Down));
    app.finish_nav(1, NavOutcome::Nothing);
    assert_eq!(app.diff_scroll, 0);
}

#[test]
fn staying_put_keeps_diff_scroll() {
    let mut app = App::bare("/wt".to_string());
    app.diff_scroll = 7;
    app.finish_nav(0, NavOutcome::Nothing);
    assert_eq!(app.diff_scroll, 7);
}

#[test]
fn open_outcome_focuses_the_diff() {
    let mut app = App::bare("/wt".to_string());
    app.set_events_for_test_pub(vec![ev(1, "/wt/a.rs", 1)]);
    assert_eq!(app.apply(AppAction::Nav(NavKey::Enter)), Effect::Navigate(NavKey::Enter));
    app.finish_nav(0, NavOutcome::Open);
    assert_eq!(app.focus, Focus::Diff);
    assert!(!app.should_quit);
}

#[test]
fn diff_focus_routes_arrows_to_scroll() {
    let mut app = App::bare("/wt".to_string());
    app.set_events_for_test_pub(vec![ev(1, "/wt/a.rs", 1)]);
    app.focus = Focus::Diff;
    app.diff_scroll = 3;
    app.apply(AppAction::Nav(NavKey::Up));
    assert_eq!(app.diff_scroll, 2);
    assert_eq!(app.selected, 0, "diff focus must not move the list");
    app.apply(AppAction::Nav(NavKey::Down));
    assert_eq!(app.diff_scroll, 3);
}

#[test]
fn diff_focus_hands_other_keys_to_the_list() {
    let mut app = App::bare("/wt".to_string());
    app.focus = Focus::Diff;
    assert_eq!(app.apply(AppAction::Nav(NavKey::Up)), Effect::Nothing);
    assert_eq!(app.apply(AppAction::Nav(NavKey::Top)), Effect::Navigate(NavKey::Top));
    assert_eq!(app.apply(AppAction::Nav(NavKey::Enter)), Effect::Navigate(NavKey::Enter));
}

#[test]
fn scroll_diff_floors_at_zero() {
    let mut app = App::bare("/wt".to_string());
    app.diff_scroll = 0;
    app.apply(AppAction::ScrollDiff(-5));
    assert_eq!(app.diff_scroll, 0);
    app.apply(AppAction::ScrollDiff(4));
    assert_eq!(app.diff_scroll, 4);
}

#[test]
fn toggle_focus_flips() {
    let mut app = App::bare("/wt".to_string());
    assert_eq!(app.focus, Focus::List);
    app.apply(AppAction::ToggleFocus);
    assert_eq!(app.focus, Focus::Diff);
    app.apply(AppAction::ToggleFocus);
    assert_eq!(app.focus, Focus::List);
}

#[test]
fn esc_and_quit_set_should_quit() {
    let mut app = App::bare("/wt".to_string());
    // In the list, esc goes to the timeline navigation, which answers "exit".
    assert_eq!(app.apply(AppAction::Nav(NavKey::Esc)), Effect::Navigate(NavKey::Esc));
    app.finish_nav(0, NavOutcome::Exit);
    assert!(app.should_quit);
    let mut app2 = App::bare("/wt".to_string());
    app2.apply(AppAction::Quit);
    assert!(app2.should_quit);
}

#[test]
fn esc_in_diff_focus_quits_directly() {
    let mut app = App::bare("/wt".to_string());
    app.focus = Focus::Diff;
    assert_eq!(app.apply(AppAction::Nav(NavKey::Esc)), Effect::Nothing);
    assert!(app.should_quit);
}

#[test]
fn resize_clamps_to_bounds() {
    let mut app = App::bare("/wt".to_string());
    app.last_area = Rect::new(0, 0, 100, 30); // max = 100 - MIN_DIFF(24) - 1 = 75
    app.apply(AppAction::Resize(5)); // below MIN_LIST
    assert_eq!(app.list_width, MIN_LIST);
    app.apply(AppAction::Resize(90)); // above max
    assert_eq!(app.list_width, 75);
    app.apply(AppAction::Resize(40));
    assert_eq!(app.list_width, 40);
}

#[test]
fn resize_is_relative_to_the_area_origin() {
    let mut app = App::bare("/wt".to_string());
    app.last_area = Rect::new(10, 0, 100, 30);
    app.apply(AppAction::Resize(50));
    assert_eq!(app.list_width, 40);
    app.apply(AppAction::Resize(3)); // left of the area: saturates to 0, clamps up
    assert_eq!(app.list_width, MIN_LIST);
}

#[test]
fn nudge_split_respects_bounds() {
    let mut app = App::bare("/wt".to_string());
    app.last_area = Rect::new(0, 0, 100, 30);
    app.list_width = MIN_LIST;
    app.apply(AppAction::NudgeSplit(-1));
    assert_eq!(app.list_width, MIN_LIST, "cannot go below MIN_LIST");
    app.apply(AppAction::NudgeSplit(1));
    assert_eq!(app.list_width, MIN_LIST + 1);
}

#[test]
fn nudge_split_stops_at_the_diff_minimum() {
    let mut app = App::bare("/wt".to_string());
    app.last_area = Rect::new(0, 0, 100, 30);
    app.list_width = 75;
    app.apply(AppAction::NudgeSplit(1));
    assert_eq!(app.list_width, 75);
    app.apply(AppAction::NudgeSplit(-100));
    assert_eq!(app.list_width, MIN_LIST);
}

#[test]
fn resize_flag_transitions() {
    let mut app = App::bare("/wt".to_string());
    assert!(!app.resizing);
    app.apply(AppAction::StartResize);
    assert!(app.resizing);
    app.apply(AppAction::EndResize);
    assert!(!app.resizing);
}

#[test]
fn tick_asks_for_a_rescan_and_changes_nothing() {
    let mut app = App::bare("/wt".to_string());
    app.diff_scroll = 2;
    assert_eq!(app.apply(AppAction::Tick), Effect::Rescan);
    assert_eq!(app.diff_scroll, 2);
    assert_eq!(app.apply(AppAction::OpenInEditor), Effect::Nothing);
    assert_eq!(app.apply(AppAction::Nothing), Effect::Nothing);
}

#[test]
fn refresh_with_repins_the_selection() {
    let mut app = App::bare("/wt".to_string());
    app.set_events_for_test_pub(vec![ev(2, "/wt/a.rs", 1), ev(1, "/wt/b.rs", 2)]);
    // rows: a.rs header, a's edit, b.rs header; the cursor on a's edit
    app.finish_nav(1, NavOutcome::Nothing);
    assert_eq!(app.selected_event_index(), Some(0));
    app.refresh_with(
        vec![ev(3, "/wt/new.rs", 9), ev(2, "/wt/a.rs", 1), ev(1, "/wt/b.rs", 2)],
        vec![(1, 0), (2, 0), (3, 0)],
    );
    // rows: new.rs header, a.rs header, a's edit, b.rs header
    assert_eq!(app.selected, 2);
    assert_eq!(app.active_group, 1);
    assert_eq!(app.selected_event_index(), Some(1));
    assert_eq!(app.events().len(), 3);
    assert_eq!((app.groups[1].add, app.groups[1].del), (2, 0));
    app.refresh_with(Vec::new(), Vec::new());
    assert_eq!(app.selected, 0);
    assert!(app.events().is_empty());
    assert!(app.visible.is_empty());
}

#[test]
fn refresh_keeps_a_selected_file_header() {
    let mut app = App::bare("/wt".to_string());
    app.set_events_for_test_pub(vec![ev(2, "/wt/a.rs", 1), ev(1, "/wt/b.rs", 2)]);
    // onto the b.rs header: b.rs expands, the cursor on its header at row 1
    app.finish_nav(2, NavOutcome::Nothing);
    assert_eq!((app.active_group, app.selected), (1, 1));
    // a newer change to b.rs moves it to the top; the cursor follows the file
    app.refresh_with(
        vec![ev(3, "/wt/b.rs", 5), ev(2, "/wt/a.rs", 1), ev(1, "/wt/b.rs", 2)],
        vec![(0, 0); 3],
    );
    assert_eq!((app.active_group, app.selected), (0, 0));
    assert_eq!(app.groups[0].file, "/wt/b.rs");
    // a header shows its file's newest change
    assert_eq!(app.selected_event_index(), Some(0));
}

#[test]
fn refresh_clamps_when_the_target_is_gone() {
    let mut app = App::bare("/wt".to_string());
    app.set_events_for_test_pub(vec![ev(2, "/wt/a.rs", 1), ev(1, "/wt/b.rs", 2)]);
    app.finish_nav(1, NavOutcome::Nothing); // a's edit
    app.refresh_with(vec![ev(5, "/wt/z.rs", 7)], vec![(0, 0)]);
    // one file, expanded: header and edit; the old row 1 is the edit
    assert_eq!(app.visible.len(), 2);
    assert_eq!(app.selected, 1);
    assert_eq!(app.selected_event_index(), Some(0));
}

#[test]
fn selected_event_follows_the_selection() {
    let mut app = App::bare("/wt".to_string());
    assert!(app.selected_event().is_none());
    app.set_events_for_test_pub(vec![ev(2, "/wt/a.rs", 1), ev(1, "/wt/b.rs", 2)]);
    // landing on the b.rs header shows b's newest change
    app.finish_nav(2, NavOutcome::Nothing);
    assert_eq!(app.selected_event().unwrap().file_path, "/wt/b.rs");
    app.selected = 5;
    assert!(app.selected_event().is_none());
}

#[test]
fn status_sets_and_clears() {
    let mut app = App::bare("/wt".to_string());
    assert_eq!(app.status(), None);
    app.set_status("nope".into());
    assert_eq!(app.status(), Some("nope"));
    app.clear_status();
    assert_eq!(app.status(), None);
}

#[test]
fn default_diff_view_is_side_by_side() {
    let app = App::bare("/wt".to_string());
    assert_eq!(app.diff_view, DiffView::SideBySide);
}

#[test]
fn toggle_diff_view_flips_and_resets_scroll() {
    let mut app = App::bare("/wt".to_string());
    app.diff_scroll = 9;
    app.apply(AppAction::ToggleDiffView);
    assert_eq!(app.diff_view, DiffView::Block);
    assert_eq!(app.diff_scroll, 0, "toggling resets the diff scroll");
    app.apply(AppAction::ToggleDiffView);
    assert_eq!(app.diff_view, DiffView::SideBySide);
}

#[test]
fn reclamp_split_shrinks_to_fit_small_area() {
    let mut app = App::bare("/wt".to_string());
    app.list_width = 32; // the default
    app.last_area = Rect::new(0, 0, 40, 10); // max = 40 - MIN_DIFF(24) - 1 = 15 -> floored to MIN_LIST
    app.reclamp_split();
    assert_eq!(app.list_width, MIN_LIST);
    // A comfortably wide area leaves the width untouched.
    app.list_width = 32;
    app.last_area = Rect::new(0, 0, 120, 10);
    app.reclamp_split();
    assert_eq!(app.list_width, 32);
}

#[test]
fn bare_state_defaults() {
    let app = App::bare("/wt".to_string());
    assert_eq!(app.list_width, 32);
    assert_eq!(app.selected, 0);
    assert!(!app.should_quit);
    assert_eq!(app.last_area, Rect::new(0, 0, 0, 0));
    assert_eq!(app.worktree, "/wt");
}

#[test]
fn change_source_equality_compares_all_fields() {
    let a = ev(1, "/wt/a.rs", 1).source;
    let mut b = a.clone();
    assert!(a == b);
    b.index_in_line = 1;
    assert!(a != b);
    assert!(ChangeSource::default() == ChangeSource::default());
}

#[test]
fn can_apply_rejects_overflowing_arithmetic() {
    let mut app = App::bare("/wt".to_string());
    assert!(app.can_apply(AppAction::ScrollDiff(i32::MAX)));
    assert!(app.can_apply(AppAction::NudgeSplit(i32::MAX - 32)));
    assert!(!app.can_apply(AppAction::NudgeSplit(i32::MAX)));
    app.diff_scroll = i64::MAX as usize;
    assert!(!app.can_apply(AppAction::ScrollDiff(1)));
    assert!(app.can_apply(AppAction::ScrollDiff(-1)));
    // with the list focused a navigation key leaves the scroll alone
    assert!(app.can_apply(AppAction::Nav(NavKey::Down)));
    app.focus = Focus::Diff;
    assert!(!app.can_apply(AppAction::Nav(NavKey::Down)));
    assert!(app.can_apply(AppAction::Quit));
}

#[test]
fn a_scroll_past_the_signed_range_wraps_like_a_cast() {
    let mut app = App::bare("/wt".to_string());
    // usize::MAX reads as -1 in 64 bits; ten down from there is 9
    app.diff_scroll = usize::MAX;
    assert!(app.can_apply(AppAction::ScrollDiff(10)));
    app.apply(AppAction::ScrollDiff(10));
    assert_eq!(app.diff_scroll, 9);
    // a scroll just past i64::MAX reads as a large negative: floored to 0
    app.diff_scroll = (i64::MAX as usize) + 5;
    assert!(app.can_apply(AppAction::ScrollDiff(10)));
    assert!(!app.can_apply(AppAction::ScrollDiff(-10)));
    app.apply(AppAction::ScrollDiff(10));
    assert_eq!(app.diff_scroll, 0);
    // list keys never touch the scroll, so they are always accepted
    app.diff_scroll = i64::MAX as usize;
    assert!(app.can_apply(AppAction::Nav(NavKey::Down)));
    app.focus = Focus::Diff;
    assert!(!app.can_apply(AppAction::Nav(NavKey::Down)));
    assert!(app.can_apply(AppAction::Nav(NavKey::Up)));
}

#[test]
fn resize_to_clamps_the_target() {
    let mut app = App::bare("/wt".to_string());
    app.last_area = Rect::new(0, 0, 100, 10);
    app.resize_to(3);
    assert_eq!(app.list_width, MIN_LIST);
    app.resize_to(90);
    assert_eq!(app.list_width, 100 - 24 - 1);
    app.resize_to(40);
    assert_eq!(app.list_width, 40);
}
