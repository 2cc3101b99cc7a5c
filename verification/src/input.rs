//! Translating terminal input into an `AppAction`. No state changes; the
//! mouse hit-test reads `App::last_area` and `App::list_width` to locate the
//! draggable divider.

use vstd::prelude::*;
use crate::app::{App, AppAction, NavKey};

verus! {

/// A key on the keyboard.
#[derive(Debug, Clone, Copy, PartialEq, Eq, Structural)]
pub enum KeyCode {
    Char(char),
    Esc,
    Up,
    Down,
    Left,
    Right,
    Home,
    End,
    PageUp,
    PageDown,
    Enter,
    Tab,
    BackTab,
    Backspace,
    Delete,
    Insert,
    F(u8),
    /// Any key not listed above.
    Other,
}

/// The modifier keys held with a key.
#[derive(Debug, Clone, Copy, PartialEq, Eq, Structural)]
pub struct KeyModifiers {
    pub shift: bool,
    pub control: bool,
    pub alt: bool,
}

impl KeyModifiers {
    /// No modifier held.
    pub fn none() -> (m: KeyModifiers)
        ensures
            m == (KeyModifiers { shift: false, control: false, alt: false }),
    {
        KeyModifiers { shift: false, control: false, alt: false }
    }

    /// Control alone held.
    pub fn control() -> (m: KeyModifiers)
        ensures
            m == (KeyModifiers { shift: false, control: true, alt: false }),
    {
        KeyModifiers { shift: false, control: true, alt: false }
    }
}

/// Whether a key event is a press, a repeat or a release.
#[derive(Debug, Clone, Copy, PartialEq, Eq, Structural)]
pub enum KeyEventKind {
    Press,
    Repeat,
    Release,
}

#[derive(Debug, Clone, Copy, PartialEq, Eq, Structural)]
pub struct KeyEvent {
    pub code: KeyCode,
    pub modifiers: KeyModifiers,
    pub kind: KeyEventKind,
}

impl KeyEvent {
    /// A key press of `code` with `modifiers`.
    pub fn new(code: KeyCode, modifiers: KeyModifiers) -> (k: KeyEvent)
        ensures
            k == (KeyEvent { code, modifiers, kind: KeyEventKind::Press }),
    {
        KeyEvent { code, modifiers, kind: KeyEventKind::Press }
    }
}

#[derive(Debug, Clone, Copy, PartialEq, Eq, Structural)]
pub enum MouseButton {
    Left,
    Right,
    Middle,
}

#[derive(Debug, Clone, Copy, PartialEq, Eq, Structural)]
pub enum MouseEventKind {
    Down(MouseButton),
    Up(MouseButton),
    Drag(MouseButton),
    Moved,
    ScrollDown,
    ScrollUp,
    ScrollLeft,
    ScrollRight,
}

#[derive(Debug, Clone, Copy, PartialEq, Eq, Structural)]
pub struct MouseEvent {
    pub kind: MouseEventKind,
    pub column: u16,
    pub row: u16,
    pub modifiers: KeyModifiers,
}

/// A terminal input event.
#[derive(Debug, Clone, Copy, PartialEq, Eq, Structural)]
pub enum Event {
    Key(KeyEvent),
    Mouse(MouseEvent),
    /// Focus changes, pastes, terminal resizes: nothing to act on.
    Other,
}

/// The action a key event asks for: only presses count; ctrl-c and `q`
/// quit; arrows, vim keys, home/end, enter and esc navigate; tab flips the
/// focus; page up/down scroll the diff by ten; `[`/`]` nudge the split;
/// `d` flips the diff view; `e` opens the selected file in the editor.
pub open spec fn key_action(k: KeyEvent) -> AppAction {
    if k.kind != KeyEventKind::Press {
        AppAction::Nothing
    } else if k.modifiers.control && k.code == KeyCode::Char('c') {
        AppAction::Quit
    } else {
        match k.code {
            KeyCode::Char('q') => AppAction::Quit,
            KeyCode::Esc => AppAction::Nav(NavKey::Esc),
            KeyCode::Up | KeyCode::Char('k') => AppAction::Nav(NavKey::Up),
            KeyCode::Down | KeyCode::Char('j') => AppAction::Nav(NavKey::Down),
            KeyCode::Char('g') | KeyCode::Home => AppAction::Nav(NavKey::Top),
            KeyCode::Char('G') | KeyCode::End => AppAction::Nav(NavKey::Bottom),
            KeyCode::Enter => AppAction::Nav(NavKey::Enter),
            KeyCode::Tab => AppAction::ToggleFocus,
            KeyCode::PageUp => AppAction::ScrollDiff(-10i32),
            KeyCode::PageDown => AppAction::ScrollDiff(10i32),
            KeyCode::Char('[') => AppAction::NudgeSplit(-1i32),
            KeyCode::Char(']') => AppAction::NudgeSplit(1i32),
            KeyCode::Char('d') => AppAction::ToggleDiffView,
            KeyCode::Char('e') => AppAction::OpenInEditor,
            _ => AppAction::Nothing,
        }
    }
}

/// The column of the divider between the panes.
pub open spec fn divider_column(app: App) -> u16 {
    if app.last_area.x + app.list_width > u16::MAX {
        u16::MAX
    } else {
        (app.last_area.x + app.list_width) as u16
    }
}

/// The action a mouse event asks for: a left press within one column of the
/// divider starts a resize; a left drag resizes while resizing; a left
/// release ends it; the wheel right of the divider scrolls the diff by three.
pub open spec fn mouse_action(m: MouseEvent, app: App) -> AppAction {
    let divider = divider_column(app);
    match m.kind {
        MouseEventKind::Down(MouseButton::Left) => {
            if m.column - divider <= 1 && divider - m.column <= 1 {
                AppAction::StartResize
            } else {
                AppAction::Nothing
            }
        },
        MouseEventKind::Drag(MouseButton::Left) => {
            if app.resizing { AppAction::Resize(m.column) } else { AppAction::Nothing }
        },
        MouseEventKind::Up(MouseButton::Left) => AppAction::EndResize,
        MouseEventKind::ScrollDown => {
            if m.column > divider { AppAction::ScrollDiff(3i32) } else { AppAction::Nothing }
        },
        MouseEventKind::ScrollUp => {
            if m.column > divider { AppAction::ScrollDiff(-3i32) } else { AppAction::Nothing }
        },
        _ => AppAction::Nothing,
    }
}

/// The action any event asks for.
pub open spec fn event_action(event: Event, app: App) -> AppAction {
    match event {
        Event::Key(k) => key_action(k),
        Event::Mouse(m) => mouse_action(m, app),
        Event::Other => AppAction::Nothing,
    }
}

/// Whether an event dismisses the transient status: a real key press does;
/// mouse motion, scrolling, key releases and repeats leave it on screen.
pub open spec fn is_key_press(event: Event) -> bool {
    event matches Event::Key(k) && k.kind == KeyEventKind::Press
}

/// Whether `event` dismisses a transient status message.
pub fn dismisses_status(event: &Event) -> (res: bool)
    ensures
        res == is_key_press(*event),
{
    match event {
        Event::Key(k) => k.kind == KeyEventKind::Press,
        _ => false,
    }
}

/// Key releases and repeats never act; ctrl-c always quits.
pub proof fn law_only_presses_act(k: KeyEvent)
    ensures
        k.kind != KeyEventKind::Press ==> key_action(k) == AppAction::Nothing,
        k.kind == KeyEventKind::Press && k.modifiers.control && k.code == KeyCode::Char('c')
            ==> key_action(k) == AppAction::Quit,
{
}

/// A left drag resizes only while a resize is in progress; the wheel scrolls
/// the diff only right of the divider; mouse input never navigates the list.
pub proof fn law_mouse_routing(m: MouseEvent, app: App)
    ensures
        m.kind == MouseEventKind::Drag(MouseButton::Left) ==> (mouse_action(m, app) is Resize <==> app.resizing),
        (m.kind == MouseEventKind::ScrollDown || m.kind == MouseEventKind::ScrollUp) ==> (mouse_action(m, app) is ScrollDiff
            <==> m.column > divider_column(app)),
        !(mouse_action(m, app) is Nav),
{
}

pub fn map(event: Event, app: &App) -> (res: AppAction)
    ensures
        res == event_action(event, *app),
{
    match event {
        Event::Key(k) => map_key(k),
        Event::Mouse(m) => map_mouse(m, app),
        Event::Other => AppAction::Nothing,
    }
}

fn map_key(k: KeyEvent) -> (res: AppAction)
    ensures
        res == key_action(k),
{
    // Ignore key-release / key-repeat events (some terminals deliver them).
    if k.kind != KeyEventKind::Press {
        return AppAction::Nothing;
    }
    if k.modifiers.control && k.code == KeyCode::Char('c') {
        return AppAction::Quit;
    }
    match k.code {
        KeyCode::Char('q') => AppAction::Quit,
        KeyCode::Esc => AppAction::Nav(NavKey::Esc),
        KeyCode::Up | KeyCode::Char('k') => AppAction::Nav(NavKey::Up),
        KeyCode::Down | KeyCode::Char('j') => AppAction::Nav(NavKey::Down),
        KeyCode::Char('g') | KeyCode::Home => AppAction::Nav(NavKey::Top),
        KeyCode::Char('G') | KeyCode::End => AppAction::Nav(NavKey::Bottom),
        KeyCode::Enter => AppAction::Nav(NavKey::Enter),
        KeyCode::Tab => AppAction::ToggleFocus,
        KeyCode::PageUp => AppAction::ScrollDiff(-10i32),
        KeyCode::PageDown => AppAction::ScrollDiff(10i32),
        KeyCode::Char('[') => AppAction::NudgeSplit(-1i32),
        KeyCode::Char(']') => AppAction::NudgeSplit(1i32),
        KeyCode::Char('d') => AppAction::ToggleDiffView,
        KeyCode::Char('e') => AppAction::OpenInEditor,
        _ => AppAction::Nothing,
    }
}

fn map_mouse(m: MouseEvent, app: &App) -> (res: AppAction)
    ensures
        res == mouse_action(m, *app),
{
    let divider_col = app.last_area.x.saturating_add(app.list_width);
    match m.kind {
        MouseEventKind::Down(MouseButton::Left) => {
            let dist = if m.column > divider_col { m.column - divider_col } else { divider_col - m.column };
            if dist <= 1 {
                AppAction::StartResize
            } else {
                AppAction::Nothing
            }
        },
        MouseEventKind::Drag(MouseButton::Left) => {
            if app.resizing { AppAction::Resize(m.column) } else { AppAction::Nothing }
        },
        MouseEventKind::Up(MouseButton::Left) => AppAction::EndResize,
        MouseEventKind::ScrollDown => {
            if m.column > divider_col { AppAction::ScrollDiff(3i32) } else { AppAction::Nothing }
        },
        MouseEventKind::ScrollUp => {
            if m.column > divider_col { AppAction::ScrollDiff(-3i32) } else { AppAction::Nothing }
        },
        _ => AppAction::Nothing,
    }
}

} // verus!
