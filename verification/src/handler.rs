//! What each key does to the session.

use crate::app::{App, AppError, AppView, Step};
use vstd::prelude::*;

verus! {

/// The keys the session tells apart.
#[derive(Clone, Copy, Debug, PartialEq, Eq, Structural)]
pub enum KeyCode {
    Char(char),
    Up,
    Down,
    Esc,
    Other,
}

/// A key, and whether Control, and nothing else, was held with it.
#[derive(Clone, Copy, Debug, PartialEq, Eq, Structural)]
pub struct KeyEvent {
    pub control: bool,
    pub code: KeyCode,
}

/// What is left to do outside the session after a key.
#[derive(Clone, Copy, Debug, PartialEq, Eq, Structural)]
pub enum Action {
    /// Nothing.
    Nothing,
    /// Store the keystroke and, where there is one, the attempt.
    Store(Step),
    /// Switch between the narrow and the full text width, and wrap anew.
    ToggleWidth,
}

/// The number of lines that Control with an arrow key scrolls.
pub const PAGE: usize = 10;

/// The session after a key that is not typed into the sample.
pub open spec fn after_command(v: AppView, key_event: KeyEvent) -> AppView {
    match (key_event.control, key_event.code) {
        (true, KeyCode::Char('c')) => AppView { running: false, ..v },
        (control, KeyCode::Up) => AppView {
            following_typing: false,
            display_line: if v.display_line >= lines_scrolled(control) {
                (v.display_line - lines_scrolled(control)) as usize
            } else {
                0
            },
            ..v
        },
        (control, KeyCode::Down) => AppView {
            following_typing: false,
            display_line: if v.display_line + lines_scrolled(control) <= usize::MAX {
                (v.display_line + lines_scrolled(control)) as usize
            } else {
                usize::MAX
            },
            ..v
        },
        (_, KeyCode::Esc) => AppView { following_typing: true, ..v },
        _ => v,
    }
}

/// An arrow key scrolls one line, and a page with Control.
pub open spec fn lines_scrolled(control: bool) -> usize {
    if control {
        PAGE
    } else {
        1
    }
}

/// Whether the key is typed into the sample: a character, but for Control-c
/// and Control-f.
pub open spec fn is_typed(key_event: KeyEvent) -> bool {
    match key_event.code {
        KeyCode::Char(c) => !(key_event.control && (c == 'c' || c == 'f')),
        _ => false,
    }
}

/// Applies the key to the session. Control-c ends it, Control-f asks for the
/// other text width, the arrow keys scroll, Escape follows the cursor again;
/// any other character is typed into the sample.
pub fn handle_key_events(key_event: KeyEvent, app: &mut App) -> (out: Result<Action, AppError>)
    requires
        old(app).wf(),
    ensures
        final(app).wf(),
        !is_typed(key_event) ==> final(app)@ == after_command(old(app)@, key_event) && out == Ok::<
            Action,
            AppError,
        >(
            if key_event.control && key_event.code == KeyCode::Char('f') {
                Action::ToggleWidth
            } else {
                Action::Nothing
            },
        ),
        is_typed(key_event) ==> match (key_event.code, out) {
            (KeyCode::Char(c), Ok(Action::Store(step))) => {
                &&& old(app)@.running
                &&& step == old(app)@.step(c, step.keypress.time)
                &&& final(app)@ == old(app)@.typed(c, step.keypress.time)
            },
            (_, Err(AppError::Finished)) => !old(app)@.running && final(app)@ == old(app)@,
            (_, Err(AppError::ClockOutOfRange)) => old(app)@.running && final(app)@ == old(
                app,
            )@,
            _ => false,
        },
{
    match key_event.code {
        KeyCode::Char(c) => {
            if key_event.control && c == 'c' {
                app.quit();
                Ok(Action::Nothing)
            } else if key_event.control && c == 'f' {
                Ok(Action::ToggleWidth)
            } else {
                match app.handle_char(c) {
                    Ok(step) => Ok(Action::Store(step)),
                    Err(e) => Err(e),
                }
            }
        },
        KeyCode::Up => {
            app.scroll_up(
                if key_event.control {
                    PAGE
                } else {
                    1
                },
            );
            Ok(Action::Nothing)
        },
        KeyCode::Down => {
            app.scroll_down(
                if key_event.control {
                    PAGE
                } else {
                    1
                },
            );
            Ok(Action::Nothing)
        },
        KeyCode::Esc => {
            app.follow();
            Ok(Action::Nothing)
        },
        KeyCode::Other => Ok(Action::Nothing),
    }
}

} // verus!
