//! App state and its transitions. Every state change goes through
//! `App::apply`; the work that needs the filesystem or the timeline parser
//! (re-scanning session logs, moving over the timeline with the parser's
//! navigation) is handed back to the caller as an `Effect`, whose result
//! comes back through `App::refresh_with` or `App::finish_nav`. The list
//! cursor is a row of the grouped list; where it lands is decided in
//! `selection`.

use vstd::prelude::*;
use crate::model::{ChangeEvent, ChangeSource};
use crate::timeline::{build_groups, build_visible, all_indices, sum_added, sum_removed, FileGroup, VisibleRow};
use crate::selection::{grouping_of, law_same_events_keep_cursor, place, placed, rows_of, settle, settled};

verus! {

/// Default columns for the left (list) pane.
pub const DEFAULT_LIST_WIDTH: u16 = 32;
/// Minimum columns the list pane may shrink to.
pub const MIN_LIST: u16 = 16;
/// Minimum columns the diff pane must keep.
pub const MIN_DIFF: u16 = 24;

/// Which pane currently receives up/down.
#[derive(Debug, Clone, Copy, PartialEq, Eq, Structural)]
pub enum Focus {
    List,
    Diff,
}

/// Which rendering the diff pane uses. Side-by-side is the default.
#[derive(Debug, Clone, Copy, PartialEq, Eq, Structural)]
pub enum DiffView {
    SideBySide,
    Block,
}

/// A navigation key of the timeline list.
#[derive(Debug, Clone, Copy, PartialEq, Eq, Structural)]
pub enum NavKey {
    Up,
    Down,
    Top,
    Bottom,
    Enter,
    Esc,
}

/// What the timeline navigation asked for besides a new selection.
#[derive(Debug, Clone, Copy, PartialEq, Eq, Structural)]
pub enum NavOutcome {
    Exit,
    /// Open the selected change: focus the diff.
    Open,
    Nothing,
}

/// Every state change is expressed as one of these and applied via `App::apply`.
#[derive(Debug, Clone, Copy, PartialEq, Eq, Structural)]
pub enum AppAction {
    Quit,
    Nav(NavKey),
    ToggleFocus,
    ScrollDiff(i32),
    /// Flip the diff pane between side-by-side and block rendering.
    ToggleDiffView,
    NudgeSplit(i32),
    StartResize,
    Resize(u16),
    EndResize,
    /// Open the selected change's file in the editor. Handled by the run
    /// loop, which owns the terminal; no state change here.
    OpenInEditor,
    Tick,
    Nothing,
}

/// Work that `apply` leaves to the caller.
#[derive(Debug, Clone, Copy, PartialEq, Eq, Structural)]
pub enum Effect {
    /// Nothing to do.
    Nothing,
    /// Re-scan the session logs and hand the merged events to `refresh_with`.
    Rescan,
    /// Run the timeline navigation for this key over `selected` and the
    /// number of list rows, and hand its result to `finish_nav`.
    Navigate(NavKey),
}

/// A screen rectangle.
#[derive(Debug, Clone, Copy, PartialEq, Eq, Structural)]
pub struct Rect {
    pub x: u16,
    pub y: u16,
    pub width: u16,
    pub height: u16,
}

impl Rect {
    pub fn new(x: u16, y: u16, width: u16, height: u16) -> (r: Rect)
        ensures
            r == (Rect { x, y, width, height }),
    {
        Rect { x, y, width, height }
    }

    /// The empty rectangle at the origin.
    pub fn zero() -> (r: Rect)
        ensures
            r == (Rect { x: 0, y: 0, width: 0, height: 0 }),
    {
        Rect { x: 0, y: 0, width: 0, height: 0 }
    }
}

pub struct App {
    pub worktree: String,
    pub events: Vec<ChangeEvent>,
    /// `(added, removed)` line counts of each event.
    pub counts: Vec<(u32, u32)>,
    /// The events grouped by file, most recently touched first.
    pub groups: Vec<FileGroup>,
    /// The list rows: every file header, the active file's edits under it.
    pub visible: Vec<VisibleRow>,
    /// The expanded file: the one that owns the cursor's row.
    pub active_group: usize,
    /// The cursor: an index into `visible`.
    pub selected: usize,
    pub focus: Focus,
    pub diff_scroll: usize,
    pub list_scroll: usize,
    pub list_width: u16,
    pub resizing: bool,
    pub last_area: Rect,
    pub last_visible_rows: usize,
    pub diff_view: DiffView,
    /// Transient one-line message for the footer (e.g. an editor-launch
    /// error), dismissed on the next keypress.
    pub status: Option<String>,
    pub should_quit: bool,
}

/// Whether `evs[i]` was recorded at `src`.
pub open spec fn source_at(evs: Seq<ChangeEvent>, i: int, src: (Seq<char>, usize, usize)) -> bool {
    evs[i].source@ == src
}

/// The selection index after the events were replaced by `evs`: the first
/// position of the pinned change if it is still there, else `old` clamped to
/// the last index (0 when there are no events).
pub open spec fn repinned(
    evs: Seq<ChangeEvent>,
    pinned: Option<(Seq<char>, usize, usize)>,
    old: usize,
    res: usize,
) -> bool {
    if pinned is Some && exists|i: int| 0 <= i < evs.len() && source_at(evs, i, pinned->0) {
        &&& 0 <= res < evs.len()
        &&& source_at(evs, res as int, pinned->0)
        &&& forall|j: int| 0 <= j < res ==> !source_at(evs, j, pinned->0)
    } else {
        res == if evs.len() == 0 { 0 } else if old < evs.len() - 1 { old as int } else { evs.len() - 1 }
    }
}

/// Selection re-pin: given the freshly merged `events`, the source of the
/// previously selected change and the old index, the index to select. Keeps
/// the cursor on the same change when new changes are prepended; clamps when
/// that change is gone.
pub fn repin(events: &[ChangeEvent], pinned: Option<&ChangeSource>, old: usize) -> (res: usize)
    ensures
        repinned(events@, match pinned { Some(p) => Some(p@), None => None }, old, res),
{
    if let Some(src) = pinned {
        let mut i: usize = 0;
        while i < events.len()
            invariant
                i <= events@.len(),
                pinned == Some(src),
                forall|j: int| 0 <= j < i ==> !source_at(events@, j, src@),
            decreases events@.len() - i,
        {
            if events[i].source.same_as(src) {
                let ghost pv: Option<(Seq<char>, usize, usize)> = match pinned {
                    Some(p) => Some(p@),
                    None => None,
                };
                assert(pv->0 == src@);
                assert(source_at(events@, i as int, pv->0));
                return i;
            }
            i = i + 1;
        }
    }
    let n = events.len();
    if n == 0 {
        0
    } else if old < n - 1 {
        old
    } else {
        n - 1
    }
}

/// The diff scroll read as a signed 64-bit number, the way a cast to `i64`
/// reads it: a scroll past `i64::MAX` wraps round to a negative number.
pub open spec fn signed_scroll(scroll: usize) -> int {
    if scroll <= i64::MAX { scroll as int } else { scroll - 0x1_0000_0000_0000_0000int }
}

/// The diff scroll after moving it by `delta`: the signed reading of the
/// scroll plus `delta`, floored at zero and taken back as a `usize`.
pub open spec fn scrolled(scroll: usize, delta: int) -> usize {
    let v = signed_scroll(scroll) + delta;
    if v <= 0 { 0 } else { v as usize }
}

/// Moving the scroll by `delta` stays within the signed 64-bit range.
pub open spec fn scroll_fits(scroll: usize, delta: int) -> bool {
    i64::MIN <= signed_scroll(scroll) + delta <= i64::MAX
}

/// The widest the list pane may be in an area `area_width` wide: whatever
/// leaves `MIN_DIFF` columns and the divider for the diff, but never less
/// than `MIN_LIST`.
pub open spec fn max_list_width(area_width: u16) -> u16 {
    let room: u16 = if area_width > MIN_DIFF + 1 { (area_width - (MIN_DIFF + 1)) as u16 } else { 0 };
    if room > MIN_LIST { room } else { MIN_LIST }
}

/// `target` clamped into `[MIN_LIST, max_list_width(area_width)]`.
pub open spec fn clamped_split(target: u16, area_width: u16) -> u16 {
    if target < MIN_LIST {
        MIN_LIST
    } else if target > max_list_width(area_width) {
        max_list_width(area_width)
    } else {
        target
    }
}

/// The nudge target: `width + delta` floored at zero, taken as `u16`.
pub open spec fn nudge_target(width: u16, delta: i32) -> u16 {
    let v = width + delta;
    (if v < 0 { 0 } else { v }) as u16
}

pub open spec fn flipped_focus(f: Focus) -> Focus {
    match f {
        Focus::List => Focus::Diff,
        Focus::Diff => Focus::List,
    }
}

pub open spec fn flipped_view(v: DiffView) -> DiffView {
    match v {
        DiffView::SideBySide => DiffView::Block,
        DiffView::Block => DiffView::SideBySide,
    }
}

/// Whether `apply` handles this key itself: up/down/esc while the diff has
/// the focus.
pub open spec fn diff_handles(s: App, key: NavKey) -> bool {
    s.focus == Focus::Diff && (key == NavKey::Up || key == NavKey::Down || key == NavKey::Esc)
}

/// The state after `apply(a)` from `s`.
pub open spec fn applied(s: App, a: AppAction) -> App {
    match a {
        AppAction::Quit => App { should_quit: true, ..s },
        AppAction::Tick => s,
        AppAction::ToggleFocus => App { focus: flipped_focus(s.focus), ..s },
        AppAction::Nav(key) => if s.focus == Focus::Diff {
            match key {
                NavKey::Up => App { diff_scroll: scrolled(s.diff_scroll, -1), ..s },
                NavKey::Down => App { diff_scroll: scrolled(s.diff_scroll, 1), ..s },
                NavKey::Esc => App { should_quit: true, ..s },
                _ => s,
            }
        } else {
            s
        },
        AppAction::ScrollDiff(d) => App { diff_scroll: scrolled(s.diff_scroll, d as int), ..s },
        AppAction::ToggleDiffView => App { diff_view: flipped_view(s.diff_view), diff_scroll: 0, ..s },
        AppAction::NudgeSplit(d) => App {
            list_width: clamped_split(nudge_target(s.list_width, d), s.last_area.width),
            ..s
        },
        AppAction::StartResize => App { resizing: true, ..s },
        AppAction::Resize(col) => App {
            list_width: clamped_split(
                (if col > s.last_area.x { col - s.last_area.x } else { 0 }) as u16,
                s.last_area.width,
            ),
            ..s
        },
        AppAction::EndResize => App { resizing: false, ..s },
        AppAction::OpenInEditor => s,
        AppAction::Nothing => s,
    }
}

/// The work `apply(a)` from `s` leaves to the caller.
pub open spec fn effect_of(s: App, a: AppAction) -> Effect {
    match a {
        AppAction::Tick => Effect::Rescan,
        AppAction::Nav(key) => if diff_handles(s, key) { Effect::Nothing } else { Effect::Navigate(key) },
        _ => Effect::Nothing,
    }
}

/// The state after the timeline navigation answered and the cursor settled
/// on row `row` with group `active` expanded (the list then being
/// `visible`): exit quits, open focuses the diff, and a cursor that moved
/// resets the diff scroll.
pub open spec fn navigated(s: App, outcome: NavOutcome, active: usize, row: usize, visible: Vec<VisibleRow>) -> App {
    let t = match outcome {
        NavOutcome::Exit => App { should_quit: true, ..s },
        NavOutcome::Open => App { focus: Focus::Diff, ..s },
        NavOutcome::Nothing => s,
    };
    let moved = active != s.active_group || row != s.selected;
    App {
        active_group: active,
        selected: row,
        visible,
        diff_scroll: if moved { 0 } else { s.diff_scroll },
        ..t
    }
}

/// The event the cursor's row shows: an edit row's own event, or a file
/// header's newest event.
pub open spec fn row_event(s: App) -> Option<usize> {
    if s.selected < s.visible@.len() {
        match s.visible@[s.selected as int] {
            VisibleRow::Edit { event } => if event < s.events@.len() { Some(event) } else { None },
            VisibleRow::Header { group } => if group < s.groups@.len() && s.groups@[group as int].event_idxs@.len() > 0
                && s.groups@[group as int].event_idxs@[0] < s.events@.len() {
                Some(s.groups@[group as int].event_idxs@[0])
            } else {
                None
            },
        }
    } else {
        None
    }
}

/// The source of the change under the cursor, when it is on an edit row.
pub open spec fn pinned_source(s: App) -> Option<(Seq<char>, usize, usize)> {
    if s.selected < s.visible@.len() {
        match s.visible@[s.selected as int] {
            VisibleRow::Edit { event } => if event < s.events@.len() { Some(s.events@[event as int].source@) } else { None },
            VisibleRow::Header { .. } => None,
        }
    } else {
        None
    }
}

/// The file under the cursor, when it is on a file header.
pub open spec fn pinned_file(s: App) -> Option<Seq<char>> {
    if s.selected < s.visible@.len() {
        match s.visible@[s.selected as int] {
            VisibleRow::Header { group } => if group < s.groups@.len() { Some(s.groups@[group as int].file@) } else { None },
            VisibleRow::Edit { .. } => None,
        }
    } else {
        None
    }
}

/// What `apply` needs of the state to avoid integer overflow.
pub open spec fn apply_ok(s: App, a: AppAction) -> bool {
    match a {
        AppAction::ScrollDiff(d) => scroll_fits(s.diff_scroll, d as int),
        AppAction::Nav(key) => s.focus == Focus::Diff ==> match key {
            NavKey::Up => scroll_fits(s.diff_scroll, -1),
            NavKey::Down => scroll_fits(s.diff_scroll, 1),
            _ => true,
        },
        AppAction::NudgeSplit(d) => s.list_width + d <= i32::MAX,
        _ => true,
    }
}

/// Flipping the focus twice gives back the state it started from.
pub proof fn law_toggle_focus_twice(s: App)
    ensures
        applied(applied(s, AppAction::ToggleFocus), AppAction::ToggleFocus) == s,
{
    assert(flipped_focus(flipped_focus(s.focus)) == s.focus);
}

/// Flipping the diff view twice restores the view, and each flip resets the
/// diff scroll.
pub proof fn law_toggle_view_twice(s: App)
    ensures
        applied(applied(s, AppAction::ToggleDiffView), AppAction::ToggleDiffView).diff_view == s.diff_view,
        applied(s, AppAction::ToggleDiffView).diff_scroll == 0,
        applied(applied(s, AppAction::ToggleDiffView), AppAction::ToggleDiffView)
            == (App { diff_scroll: 0, ..s }),
{
}

/// The split never leaves its bounds: at least `MIN_LIST` columns, and, when
/// the area is wide enough for both minimums and the divider, never so wide
/// that the diff pane gets fewer than `MIN_DIFF` columns. Re-clamping a
/// clamped width changes nothing.
pub proof fn law_split_bounds(target: u16, area_width: u16)
    ensures
        MIN_LIST <= clamped_split(target, area_width) <= max_list_width(area_width),
        area_width >= MIN_LIST + MIN_DIFF + 1 ==> clamped_split(target, area_width) + MIN_DIFF + 1
            <= area_width,
        clamped_split(clamped_split(target, area_width), area_width) == clamped_split(target, area_width),
        MIN_LIST <= target <= max_list_width(area_width) ==> clamped_split(target, area_width) == target,
{
}

/// Every action that sets the split width (nudge, drag, re-clamp) leaves it
/// within the bounds for the current area.
pub proof fn law_split_stays_in_bounds(s: App, a: AppAction)
    requires
        a is NudgeSplit || a is Resize,
    ensures
        MIN_LIST <= applied(s, a).list_width <= max_list_width(s.last_area.width),
{
}

/// The largest width the split may take in an area `area_width` wide:
/// `area_width - (MIN_DIFF + 1)`, saturating at zero, but never below
/// `MIN_LIST`.
pub open spec fn split_ceiling(area_width: u16) -> int {
    let room: int = if area_width >= MIN_DIFF + 1 { area_width - (MIN_DIFF + 1) } else { 0 };
    if room > MIN_LIST { room } else { MIN_LIST as int }
}

/// The split clamp: a nudge by `d` asks for `list_width + d` (floored at
/// zero), a drag to column `col` asks for `col - last_area.x` (saturating),
/// and a re-clamp asks for the current width; each sets the width to that
/// target clamped into `[MIN_LIST, split_ceiling]` and changes nothing else.
pub proof fn law_split_clamp(s: App, a: AppAction)
    ensures
        a is NudgeSplit || a is Resize ==> {
            let target: int = match a {
                AppAction::NudgeSplit(d) => nudge_target(s.list_width, d) as int,
                AppAction::Resize(col) => if col > s.last_area.x { col - s.last_area.x } else { 0 },
                _ => 0,
            };
            let hi = split_ceiling(s.last_area.width);
            let lo = if target < MIN_LIST { MIN_LIST as int } else { target };
            &&& applied(s, a).list_width == if lo > hi { hi } else { lo }
            &&& applied(s, a) == (App { list_width: applied(s, a).list_width, ..s })
        },
        forall|t: u16, w: u16|
            #[trigger] clamped_split(t, w) == if t < MIN_LIST {
                MIN_LIST as int
            } else if t > split_ceiling(w) {
                split_ceiling(w)
            } else {
                t as int
            },
        MIN_LIST <= split_ceiling(s.last_area.width) <= u16::MAX,
{
}

/// The diff scroll floors at zero, and a scroll is undone by the opposite
/// scroll when it did not hit the floor (for scrolls that stay within the
/// signed 64-bit range, where the signed reading is the scroll itself).
pub proof fn law_scroll_floor_and_undo(scroll: usize, d: i32)
    requires
        scroll + d <= usize::MAX,
        scroll <= i64::MAX,
        scroll + d <= i64::MAX,
    ensures
        scrolled(scroll, d as int) as int >= 0,
        scroll + d >= 0 ==> scrolled(scrolled(scroll, d as int), -(d as int)) == scroll,
        scroll + d < 0 ==> scrolled(scroll, d as int) == 0,
{
}

/// With the diff focused, up and down scroll the diff and never move the
/// list selection.
pub proof fn law_diff_focus_keeps_selection(s: App, key: NavKey)
    requires
        s.focus == Focus::Diff,
        key == NavKey::Up || key == NavKey::Down,
    ensures
        applied(s, AppAction::Nav(key)).selected == s.selected,
        applied(s, AppAction::Nav(key)).events == s.events,
        effect_of(s, AppAction::Nav(key)) == Effect::Nothing,
{
}

/// Moving the cursor resets the diff scroll; a navigation that leaves the
/// cursor where it was leaves the scroll alone.
pub proof fn law_moving_selection_resets_scroll(
    s: App,
    outcome: NavOutcome,
    active: usize,
    row: usize,
    visible: Vec<VisibleRow>,
)
    ensures
        (active != s.active_group || row != s.selected) ==> navigated(s, outcome, active, row, visible).selected == row
            && navigated(s, outcome, active, row, visible).diff_scroll == 0,
        (active == s.active_group && row == s.selected) ==> navigated(s, outcome, active, row, visible).diff_scroll
            == s.diff_scroll,
{
}

/// Once quitting, always quitting: no action clears the quit flag.
pub proof fn law_quit_is_final(
    s: App,
    a: AppAction,
    outcome: NavOutcome,
    active: usize,
    row: usize,
    visible: Vec<VisibleRow>,
)
    requires
        s.should_quit,
    ensures
        applied(s, a).should_quit,
        navigated(s, outcome, active, row, visible).should_quit,
{
}

/// Only a tick asks for a re-scan, and only a navigation key the diff pane
/// does not take itself asks for the timeline navigation.
pub proof fn law_effects(s: App, a: AppAction)
    ensures
        effect_of(s, a) == Effect::Rescan <==> a == AppAction::Tick,
        effect_of(s, a) is Navigate ==> a is Nav && !diff_handles(s, a->Nav_0),
{
}

/// Every navigation key the diff pane does not take itself goes to the
/// timeline navigation, and only those do; such a key changes nothing until
/// the navigation answers. With the list focused that is every key; with
/// the diff focused, top, bottom and enter still go to the list.
pub proof fn law_nav_keys_reach_navigation(s: App, key: NavKey)
    ensures
        effect_of(s, AppAction::Nav(key)) == Effect::Navigate(key) <==> !diff_handles(s, key),
        !diff_handles(s, key) ==> applied(s, AppAction::Nav(key)) == s,
        s.focus == Focus::List ==> effect_of(s, AppAction::Nav(key)) == Effect::Navigate(key)
            && applied(s, AppAction::Nav(key)) == s,
        s.focus == Focus::Diff && (key == NavKey::Top || key == NavKey::Bottom || key == NavKey::Enter)
            ==> effect_of(s, AppAction::Nav(key)) == Effect::Navigate(key),
        s.focus == Focus::Diff && (key == NavKey::Up || key == NavKey::Down || key == NavKey::Esc)
            ==> effect_of(s, AppAction::Nav(key)) == Effect::Nothing,
{
}

/// What a refresh pins is what is under the cursor: on an edit row, the
/// source of that row's own change; on a file header, that header's file
/// (and no change); off the list, nothing.
pub proof fn law_pin_is_the_row_under_the_cursor(s: App)
    ensures
        s.selected < s.visible@.len() ==> match s.visible@[s.selected as int] {
            VisibleRow::Edit { event } => event < s.events@.len() ==> pinned_source(s) == Some(s.events@[event as int].source@)
                && pinned_file(s) is None,
            VisibleRow::Header { group } => pinned_source(s) is None && (group < s.groups@.len() ==> pinned_file(s)
                == Some(s.groups@[group as int].file@)),
        },
        s.selected >= s.visible@.len() ==> pinned_source(s) is None && pinned_file(s) is None,
{
}

/// A refresh that brings back the same changes leaves the cursor where it
/// was: on the same row, with the same file expanded, whatever the new line
/// counts. This holds for a settled cursor (on an edit row or on the
/// expanded file's header, as `finish_nav` and `refresh_with` leave it) when
/// every source names one change. `t` is the state `refresh_with(events,
/// counts)` leaves, as its contract gives it.
pub proof fn law_refresh_unchanged_keeps_cursor(s: App, t: App, counts: Seq<(u32, u32)>)
    requires
        grouping_of(s.groups@, s.events@, s.counts@),
        s.active_group < s.groups@.len(),
        s.visible@ == rows_of(s.groups@, s.active_group),
        s.selected < s.visible@.len(),
        s.visible@[s.selected as int] is Header ==> s.visible@[s.selected as int] == (VisibleRow::Header {
            group: s.active_group,
        }),
        forall|i: int, j: int| #![trigger s.events@[i], s.events@[j]]
            0 <= i < j < s.events@.len() ==> s.events@[i].source@ != s.events@[j].source@,
        grouping_of(t.groups@, s.events@, counts),
        t.visible@ == rows_of(t.groups@, t.active_group),
        placed(
            s.events@,
            t.groups@,
            pinned_source(s),
            pinned_file(s),
            s.active_group,
            s.selected,
            t.active_group,
            t.selected,
        ),
    ensures
        t.active_group == s.active_group,
        t.selected == s.selected,
        t.visible@ == s.visible@,
{
    assert(s.events.len() == s.events@.len());
    law_same_events_keep_cursor(
        s.events@,
        s.counts@,
        s.groups@,
        s.active_group,
        s.selected,
        counts,
        t.groups@,
        pinned_source(s),
        pinned_file(s),
        t.active_group,
        t.selected,
    );
}

/// When new changes are prepended to the timeline, the cursor stays on the
/// change it was on: the pinned change's index shifts by the number of new
/// changes (provided the pinned source names one change).
pub proof fn law_repin_follows_prepended(
    fresh: Seq<ChangeEvent>,
    old: Seq<ChangeEvent>,
    sel: usize,
    res: usize,
)
    requires
        sel < old.len(),
        fresh.len() + old.len() <= usize::MAX,
        forall|j: int| 0 <= j < fresh.len() ==> !source_at(fresh, j, old[sel as int].source@),
        forall|j: int| 0 <= j < sel ==> !source_at(old, j, old[sel as int].source@),
        repinned(fresh + old, Some(old[sel as int].source@), sel, res),
    ensures
        res == fresh.len() + sel,
{
    let all = fresh + old;
    let p = old[sel as int].source@;
    let w = fresh.len() + sel;
    assert(all[w] == old[sel as int]);
    assert(source_at(all, w, p));
    assert(exists|i: int| 0 <= i < all.len() && source_at(all, i, p));
    assert(source_at(all, res as int, p));
    if res < w {
        if res < fresh.len() {
            assert(all[res as int] == fresh[res as int]);
            assert(source_at(fresh, res as int, p));
        } else {
            assert(all[res as int] == old[res - fresh.len()]);
            assert(source_at(old, res - fresh.len(), p));
        }
    }
    if res > w {
        assert(!source_at(all, w, p));
    }
}

/// When the selected change is gone after a refresh, the cursor is clamped
/// to the last index (or zero when nothing is left).
pub proof fn law_repin_clamps_when_gone(
    events: Seq<ChangeEvent>,
    pinned: (Seq<char>, usize, usize),
    old: usize,
    res: usize,
)
    requires
        forall|j: int| 0 <= j < events.len() ==> !source_at(events, j, pinned),
        repinned(events, Some(pinned), old, res),
    ensures
        res == if events.len() == 0 { 0 } else if old < events.len() - 1 { old as int } else { events.len() - 1 },
        events.len() > 0 ==> res < events.len(),
{
}

/// Whether `v` is within the signed 64-bit range.
fn fits_i64(v: i128) -> (res: bool)
    ensures
        res == (i64::MIN <= v <= i64::MAX),
{
    -0x8000_0000_0000_0000i128 <= v && v <= 0x7fff_ffff_ffff_ffffi128
}

impl App {
    /// A fresh state for `worktree`, with no events and nothing read from disk.
    pub fn bare(worktree: String) -> (res: App)
        ensures
            res.worktree == worktree,
            res.events@ == Seq::<ChangeEvent>::empty(),
            res.counts@ == Seq::<(u32, u32)>::empty(),
            res.groups@ == Seq::<FileGroup>::empty(),
            res.visible@ == Seq::<VisibleRow>::empty(),
            res.active_group == 0,
            res.selected == 0,
            res.focus == Focus::List,
            res.diff_scroll == 0,
            res.list_scroll == 0,
            res.list_width == DEFAULT_LIST_WIDTH,
            !res.resizing,
            res.last_area == (Rect { x: 0, y: 0, width: 0, height: 0 }),
            res.last_visible_rows == 0,
            res.diff_view == DiffView::SideBySide,
            res.status is None,
            !res.should_quit,
    {
        App {
            worktree,
            events: Vec::new(),
            counts: Vec::new(),
            groups: Vec::new(),
            visible: Vec::new(),
            active_group: 0,
            selected: 0,
            focus: Focus::List,
            diff_scroll: 0,
            list_scroll: 0,
            list_width: DEFAULT_LIST_WIDTH,
            resizing: false,
            last_area: Rect::zero(),
            last_visible_rows: 0,
            diff_view: DiffView::SideBySide,
            status: None,
            should_quit: false,
        }
    }

    pub fn events(&self) -> (res: &[ChangeEvent])
        ensures
            res@ == self.events@,
    {
        self.events.as_slice()
    }

    /// The index of the change the cursor's row shows: an edit row's own
    /// change, a file header's newest change.
    pub fn selected_event_index(&self) -> (res: Option<usize>)
        ensures
            res == row_event(*self),
    {
        if self.selected < self.visible.len() {
            match self.visible[self.selected] {
                VisibleRow::Edit { event } => if event < self.events.len() { Some(event) } else { None },
                VisibleRow::Header { group } => {
                    if group < self.groups.len() {
                        let idxs = &self.groups[group].event_idxs;
                        if idxs.len() > 0 && idxs[0] < self.events.len() {
                            Some(idxs[0])
                        } else {
                            None
                        }
                    } else {
                        None
                    }
                },
            }
        } else {
            None
        }
    }

    /// The change the cursor's row shows, if any.
    pub fn selected_event(&self) -> (res: Option<&ChangeEvent>)
        ensures
            res == match row_event(*self) {
                Some(i) => Some(&self.events@[i as int]),
                None => None,
            },
    {
        match self.selected_event_index() {
            Some(i) => Some(&self.events[i]),
            None => None,
        }
    }

    /// The transient footer message, if any.
    pub fn status(&self) -> (res: Option<&str>)
        ensures
            match self.status {
                Some(s) => res is Some && res->0@ == s@,
                None => res is None,
            },
    {
        match &self.status {
            Some(s) => Some(s.as_str()),
            None => None,
        }
    }

    /// Sets the transient footer message (shown until the next keypress).
    pub fn set_status(&mut self, msg: String)
        ensures
            *final(self) == (App { status: Some(msg), ..*old(self) }),
    {
        self.status = Some(msg);
    }

    /// Clears the transient footer message.
    pub fn clear_status(&mut self)
        ensures
            *final(self) == (App { status: None, ..*old(self) }),
    {
        self.status = None;
    }

    /// Replaces the events outright, with no line counts, and settles the
    /// cursor where it was.
    pub fn set_events_for_test_pub(&mut self, events: Vec<ChangeEvent>)
        ensures
            final(self).events == events,
            final(self).counts@ == Seq::<(u32, u32)>::empty(),
            grouping_of(final(self).groups@, events@, Seq::<(u32, u32)>::empty()),
            final(self).visible@ == rows_of(final(self).groups@, final(self).active_group),
            settled(final(self).groups@, old(self).active_group, old(self).selected, final(self).active_group, final(self).selected),
            *final(self) == (App {
                events,
                counts: final(self).counts,
                groups: final(self).groups,
                visible: final(self).visible,
                active_group: final(self).active_group,
                selected: final(self).selected,
                ..*old(self)
            }),
    {
        let counts: Vec<(u32, u32)> = Vec::new();
        proof {
            lemma_no_counts(all_indices(events@.len()));
        }
        let groups = build_groups(events.as_slice(), counts.as_slice());
        let (a, r) = settle(groups.as_slice(), self.active_group, self.selected);
        let visible = build_visible(groups.as_slice(), a);
        self.events = events;
        self.counts = counts;
        self.groups = groups;
        self.visible = visible;
        self.active_group = a;
        self.selected = r;
    }

    /// Single entry point for all state changes.
    pub fn apply(&mut self, action: AppAction) -> (eff: Effect)
        requires
            apply_ok(*old(self), action),
        ensures
            *final(self) == applied(*old(self), action),
            eff == effect_of(*old(self), action),
    {
        match action {
            AppAction::Quit => {
                self.should_quit = true;
                Effect::Nothing
            },
            AppAction::Tick => Effect::Rescan,
            AppAction::ToggleFocus => {
                self.focus = match self.focus {
                    Focus::List => Focus::Diff,
                    Focus::Diff => Focus::List,
                };
                Effect::Nothing
            },
            AppAction::Nav(key) => self.on_nav(key),
            AppAction::ScrollDiff(delta) => {
                self.scroll_diff(delta);
                Effect::Nothing
            },
            AppAction::ToggleDiffView => {
                self.diff_view = match self.diff_view {
                    DiffView::SideBySide => DiffView::Block,
                    DiffView::Block => DiffView::SideBySide,
                };
                self.diff_scroll = 0;
                Effect::Nothing
            },
            AppAction::NudgeSplit(delta) => {
                let v: i32 = self.list_width as i32 + delta;
                let floored: i32 = if v < 0 { 0 } else { v };
                self.resize_to(floored as u16);
                Effect::Nothing
            },
            AppAction::StartResize => {
                self.resizing = true;
                Effect::Nothing
            },
            AppAction::Resize(col) => {
                let target = col.saturating_sub(self.last_area.x);
                self.resize_to(target);
                Effect::Nothing
            },
            AppAction::EndResize => {
                self.resizing = false;
                Effect::Nothing
            },
            AppAction::OpenInEditor => Effect::Nothing,
            AppAction::Nothing => Effect::Nothing,
        }
    }

    fn on_nav(&mut self, key: NavKey) -> (eff: Effect)
        requires
            apply_ok(*old(self), AppAction::Nav(key)),
        ensures
            *final(self) == applied(*old(self), AppAction::Nav(key)),
            eff == effect_of(*old(self), AppAction::Nav(key)),
    {
        // With the diff focused, up/down scroll the diff instead of moving the list.
        if self.focus == Focus::Diff {
            match key {
                NavKey::Up => {
                    self.scroll_diff(-1);
                    return Effect::Nothing;
                },
                NavKey::Down => {
                    self.scroll_diff(1);
                    return Effect::Nothing;
                },
                NavKey::Esc => {
                    self.should_quit = true;
                    return Effect::Nothing;
                },
                _ => {},
            }
        }
        Effect::Navigate(key)
    }

    /// Whether `apply(action)` can be taken from this state without integer
    /// overflow (the scroll and split arithmetic).
    pub fn can_apply(&self, action: AppAction) -> (res: bool)
        ensures
            res == apply_ok(*self, action),
    {
        match action {
            AppAction::ScrollDiff(d) => fits_i64(self.signed_diff_scroll() + d as i128),
            AppAction::Nav(key) => match self.focus {
                Focus::List => true,
                Focus::Diff => match key {
                    NavKey::Up => fits_i64(self.signed_diff_scroll() - 1),
                    NavKey::Down => fits_i64(self.signed_diff_scroll() + 1),
                    _ => true,
                },
            },
            AppAction::NudgeSplit(d) => (self.list_width as i64) + (d as i64) <= 0x7fff_ffffi64,
            _ => true,
        }
    }

    /// Takes the timeline navigation's answer for the key that `apply` handed
    /// out: `new_sel` is the list row it moved to, `outcome` what else it
    /// asked for. Landing on a file header expands that file.
    pub fn finish_nav(&mut self, new_sel: usize, outcome: NavOutcome)
        ensures
            settled(old(self).groups@, old(self).active_group, new_sel, final(self).active_group, final(self).selected),
            final(self).visible@ == rows_of(old(self).groups@, final(self).active_group),
            *final(self) == navigated(*old(self), outcome, final(self).active_group, final(self).selected, final(self).visible),
    {
        match outcome {
            NavOutcome::Exit => self.should_quit = true,
            NavOutcome::Open => self.focus = Focus::Diff,
            NavOutcome::Nothing => {},
        }
        let (a, r) = settle(self.groups.as_slice(), self.active_group, new_sel);
        if a != self.active_group || r != self.selected {
            self.diff_scroll = 0;
        }
        self.visible = build_visible(self.groups.as_slice(), a);
        self.active_group = a;
        self.selected = r;
    }

    /// The diff scroll's signed 64-bit reading.
    fn signed_diff_scroll(&self) -> (res: i128)
        ensures
            res == signed_scroll(self.diff_scroll),
    {
        let cur: i128 = self.diff_scroll as i128;
        if cur <= 0x7fff_ffff_ffff_ffff {
            cur
        } else {
            cur - 0x1_0000_0000_0000_0000
        }
    }

    fn scroll_diff(&mut self, delta: i32)
        requires
            scroll_fits(old(self).diff_scroll, delta as int),
        ensures
            *final(self) == (App { diff_scroll: scrolled(old(self).diff_scroll, delta as int), ..*old(self) }),
    {
        let cur: u64 = self.diff_scroll as u64;
        let w: i64 = if cur <= 0x7fff_ffff_ffff_ffff {
            cur as i64
        } else {
            (cur - 0x8000_0000_0000_0000u64) as i64 + i64::MIN
        };
        let next: i64 = w + delta as i64;
        self.diff_scroll = if next < 0 { 0 } else { next as usize };
        // The upper bound is clamped against the rendered diff length at draw time.
    }

    /// Sets the split width to `target` clamped into its bounds for the
    /// current area.
    pub fn resize_to(&mut self, target: u16)
        ensures
            *final(self) == (App { list_width: clamped_split(target, old(self).last_area.width), ..*old(self) }),
    {
        let room = self.last_area.width.saturating_sub(MIN_DIFF + 1);
        let max = if room > MIN_LIST { room } else { MIN_LIST };
        self.list_width = if target < MIN_LIST {
            MIN_LIST
        } else if target > max {
            max
        } else {
            target
        };
    }

    /// Re-clamps the split width to the current `last_area`, so a terminal
    /// resize (or an oversized default on first draw) can neither push the
    /// divider off-screen nor squeeze the diff pane below its minimum.
    pub fn reclamp_split(&mut self)
        ensures
            *final(self) == (App { list_width: clamped_split(old(self).list_width, old(self).last_area.width), ..*old(self) }),
    {
        self.resize_to(self.list_width);
    }

    /// Installs the freshly merged events of a re-scan, with their line
    /// counts, regroups them, and re-pins the cursor to what it was on: the
    /// change under it by its source, or the file under it by its path.
    pub fn refresh_with(&mut self, events: Vec<ChangeEvent>, counts: Vec<(u32, u32)>)
        requires
            sum_added(counts@, all_indices(events@.len())) <= u32::MAX,
            sum_removed(counts@, all_indices(events@.len())) <= u32::MAX,
        ensures
            final(self).events == events,
            final(self).counts == counts,
            grouping_of(final(self).groups@, events@, counts@),
            final(self).visible@ == rows_of(final(self).groups@, final(self).active_group),
            placed(
                events@,
                final(self).groups@,
                pinned_source(*old(self)),
                pinned_file(*old(self)),
                old(self).active_group,
                old(self).selected,
                final(self).active_group,
                final(self).selected,
            ),
            *final(self) == (App {
                events,
                counts,
                groups: final(self).groups,
                visible: final(self).visible,
                active_group: final(self).active_group,
                selected: final(self).selected,
                ..*old(self)
            }),
    {
        let mut pin_src: Option<ChangeSource> = None;
        let mut pin_file: Option<String> = None;
        if self.selected < self.visible.len() {
            match self.visible[self.selected] {
                VisibleRow::Edit { event } => {
                    if event < self.events.len() {
                        pin_src = Some(self.events[event].source.duplicate());
                    }
                },
                VisibleRow::Header { group } => {
                    if group < self.groups.len() {
                        pin_file = Some(self.groups[group].file.clone());
                    }
                },
            }
        }
        let groups = build_groups(events.as_slice(), counts.as_slice());
        let (a, r) = place(
            events.as_slice(),
            groups.as_slice(),
            counts.as_slice(),
            pin_src.as_ref(),
            pin_file.as_ref(),
            self.active_group,
            self.selected,
        );
        let visible = build_visible(groups.as_slice(), a);
        self.events = events;
        self.counts = counts;
        self.groups = groups;
        self.visible = visible;
        self.active_group = a;
        self.selected = r;
    }
}

proof fn lemma_no_counts(idxs: Seq<usize>)
    ensures
        sum_added(Seq::<(u32, u32)>::empty(), idxs) == 0,
        sum_removed(Seq::<(u32, u32)>::empty(), idxs) == 0,
    decreases idxs.len(),
{
    if idxs.len() > 0 {
        lemma_no_counts(idxs.drop_last());
    }
}

} // verus!
