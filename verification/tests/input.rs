use chronox_tui::app::{App, AppAction, NavKey, Rect};
use chronox_tui::input;
use chronox_tui::input::{
    Event, KeyCode, KeyEvent, KeyEventKind, KeyModifiers, MouseButton, MouseEvent,
    MouseEventKind,
};

fn key(code: KeyCode) -> Event {
    Event::Key(KeyEvent::new(code, KeyModifiers::none()))
}

fn mouse(kind: MouseEventKind, column: u16) -> Event {
    Event::Mouse(MouseEvent {
        kind,
        column,
        row: 5,
        modifiers: KeyModifiers::none(),
    })
}

#[test]
fn q_quits() {
    let app = App::bare("/wt".to_string());
    assert_eq!(input::map(key(KeyCode::Char('q')), &app), AppAction::Quit);
}

#[test]
fn ctrl_c_quits() {
    let app = App::bare("/wt".to_string());
    let ev = Event::Key(KeyEvent::new(KeyCode::Char('c'), KeyModifiers::control()));
    assert_eq!(input::map(ev, &app), AppAction::Quit);
}

#[test]
fn plain_c_does_nothing() {
    let app = App::bare("/wt".to_string());
    assert_eq!(input::map(key(KeyCode::Char('c')), &app), AppAction::Nothing);
}

#[test]
fn arrows_and_vim_keys_map_to_nav() {
    let app = App::bare("/wt".to_string());
    assert_eq!(input::map(key(KeyCode::Down), &app), AppAction::Nav(NavKey::Down));
    assert_eq!(
        input::map(key(KeyCode::Char('j')), &app),
        AppAction::Nav(NavKey::Down)
    );
    assert_eq!(input::map(key(KeyCode::Up), &app), AppAction::Nav(NavKey::Up));
    assert_eq!(input::map(key(KeyCode::Tab), &app), AppAction::ToggleFocus);
    assert_eq!(
        input::map(key(KeyCode::Char('[')), &app),
        AppAction::NudgeSplit(-1)
    );
    assert_eq!(input::map(key(KeyCode::Char(']')), &app), AppAction::NudgeSplit(1));
}

#[test]
fn remaining_keys_map_as_documented() {
    let app = App::bare("/wt".to_string());
    assert_eq!(input::map(key(KeyCode::Char('k')), &app), AppAction::Nav(NavKey::Up));
    assert_eq!(input::map(key(KeyCode::Char('g')), &app), AppAction::Nav(NavKey::Top));
    assert_eq!(input::map(key(KeyCode::Home), &app), AppAction::Nav(NavKey::Top));
    assert_eq!(input::map(key(KeyCode::Char('G')), &app), AppAction::Nav(NavKey::Bottom));
    assert_eq!(input::map(key(KeyCode::End), &app), AppAction::Nav(NavKey::Bottom));
    assert_eq!(input::map(key(KeyCode::Enter), &app), AppAction::Nav(NavKey::Enter));
    assert_eq!(input::map(key(KeyCode::Esc), &app), AppAction::Nav(NavKey::Esc));
    assert_eq!(input::map(key(KeyCode::PageUp), &app), AppAction::ScrollDiff(-10));
    assert_eq!(input::map(key(KeyCode::PageDown), &app), AppAction::ScrollDiff(10));
    assert_eq!(input::map(key(KeyCode::Left), &app), AppAction::Nothing);
    assert_eq!(input::map(key(KeyCode::F(1)), &app), AppAction::Nothing);
    assert_eq!(input::map(Event::Other, &app), AppAction::Nothing);
}

#[test]
fn d_toggles_the_diff_view_and_e_opens_the_editor() {
    let mut app = App::bare("/wt".to_string());
    assert_eq!(input::map(key(KeyCode::Char('d')), &app), AppAction::ToggleDiffView);
    assert_eq!(input::map(key(KeyCode::Char('e')), &app), AppAction::OpenInEditor);
    // active in both panes
    app.focus = chronox_tui::app::Focus::Diff;
    assert_eq!(input::map(key(KeyCode::Char('d')), &app), AppAction::ToggleDiffView);
    assert_eq!(input::map(key(KeyCode::Char('e')), &app), AppAction::OpenInEditor);
}

#[test]
fn key_release_is_ignored() {
    let app = App::bare("/wt".to_string());
    let mut ke = KeyEvent::new(KeyCode::Char('q'), KeyModifiers::none());
    ke.kind = KeyEventKind::Release;
    assert_eq!(input::map(Event::Key(ke), &app), AppAction::Nothing);
    ke.kind = KeyEventKind::Repeat;
    assert_eq!(input::map(Event::Key(ke), &app), AppAction::Nothing);
}

#[test]
fn mouse_down_on_divider_starts_resize() {
    let mut app = App::bare("/wt".to_string());
    app.last_area = Rect::new(0, 0, 100, 30);
    app.list_width = 30; // divider at column 30
    let ev = mouse(MouseEventKind::Down(MouseButton::Left), 30);
    assert_eq!(input::map(ev, &app), AppAction::StartResize);
}

#[test]
fn mouse_down_next_to_divider_starts_resize() {
    let mut app = App::bare("/wt".to_string());
    app.last_area = Rect::new(0, 0, 100, 30);
    app.list_width = 30;
    assert_eq!(input::map(mouse(MouseEventKind::Down(MouseButton::Left), 29), &app), AppAction::StartResize);
    assert_eq!(input::map(mouse(MouseEventKind::Down(MouseButton::Left), 31), &app), AppAction::StartResize);
    assert_eq!(input::map(mouse(MouseEventKind::Down(MouseButton::Left), 32), &app), AppAction::Nothing);
    assert_eq!(input::map(mouse(MouseEventKind::Down(MouseButton::Right), 30), &app), AppAction::Nothing);
}

#[test]
fn mouse_down_away_from_divider_is_none() {
    let mut app = App::bare("/wt".to_string());
    app.last_area = Rect::new(0, 0, 100, 30);
    app.list_width = 30;
    let ev = mouse(MouseEventKind::Down(MouseButton::Left), 50);
    assert_eq!(input::map(ev, &app), AppAction::Nothing);
}

#[test]
fn drag_resizes_only_while_resizing() {
    let mut app = App::bare("/wt".to_string());
    app.last_area = Rect::new(0, 0, 100, 30);
    app.list_width = 30;
    let drag = mouse(MouseEventKind::Drag(MouseButton::Left), 45);
    assert_eq!(input::map(drag, &app), AppAction::Nothing, "not dragging yet");
    app.resizing = true;
    assert_eq!(input::map(drag, &app), AppAction::Resize(45));
}

#[test]
fn release_ends_resize() {
    let app = App::bare("/wt".to_string());
    assert_eq!(input::map(mouse(MouseEventKind::Up(MouseButton::Left), 3), &app), AppAction::EndResize);
}

#[test]
fn wheel_over_diff_scrolls() {
    let mut app = App::bare("/wt".to_string());
    app.last_area = Rect::new(0, 0, 100, 30);
    app.list_width = 30; // diff starts right of column 30
    assert_eq!(
        input::map(mouse(MouseEventKind::ScrollDown, 60), &app),
        AppAction::ScrollDiff(3)
    );
    assert_eq!(
        input::map(mouse(MouseEventKind::ScrollUp, 60), &app),
        AppAction::ScrollDiff(-3)
    );
    assert_eq!(
        input::map(mouse(MouseEventKind::ScrollDown, 10), &app),
        AppAction::Nothing
    );
}

#[test]
fn divider_column_saturates() {
    let mut app = App::bare("/wt".to_string());
    app.last_area = Rect::new(65_000, 0, 100, 30);
    app.list_width = 1_000; // 66_000 saturates at u16::MAX
    assert_eq!(input::map(mouse(MouseEventKind::Down(MouseButton::Left), u16::MAX), &app), AppAction::StartResize);
    assert_eq!(input::map(mouse(MouseEventKind::ScrollDown, u16::MAX), &app), AppAction::Nothing);
}

#[test]
fn only_key_presses_dismiss_the_status() {
    let mut ke = KeyEvent::new(KeyCode::Char('x'), KeyModifiers::none());
    assert!(input::dismisses_status(&Event::Key(ke)));
    ke.kind = KeyEventKind::Release;
    assert!(!input::dismisses_status(&Event::Key(ke)));
    assert!(!input::dismisses_status(&mouse(MouseEventKind::Moved, 3)));
    assert!(!input::dismisses_status(&Event::Other));
}
