use vstd::prelude::*;

use crate::key::{KeyCode, KeyEvent, KeyEventKind};

verus! {

/// The actions of the template list of the new interface.
#[derive(Clone, Copy, Debug, PartialEq, Eq, Structural)]
pub enum Key {
    Generate,
    Delete,
    Preview,
    MoveUp,
    MoveDown,
}

/// The action a key event stands for, if any; only presses count.
pub open spec fn key_of_event(ev: KeyEvent) -> Option<Key> {
    if ev.kind != KeyEventKind::Press {
        None
    } else {
        match ev.code {
            KeyCode::Enter => Some(Key::Generate),
            KeyCode::Char('d') => Some(Key::Delete),
            KeyCode::Char('p') => Some(Key::Preview),
            KeyCode::Down => Some(Key::MoveDown),
            KeyCode::Up => Some(Key::MoveUp),
            _ => None,
        }
    }
}

impl Key {
    /// The action a key event stands for; `Err` for any other event.
    pub fn try_from_event(ev: &KeyEvent) -> (r: Result<Key, ()>)
        ensures
            match key_of_event(*ev) {
                Some(k) => r == Ok::<Key, ()>(k),
                None => r is Err,
            },
    {
        match ev.kind {
            KeyEventKind::Press => {},
            _ => {
                return Err(());
            },
        }
        match ev.code {
            KeyCode::Enter => Ok(Key::Generate),
            KeyCode::Char(c) => {
                if c == 'd' {
                    Ok(Key::Delete)
                } else if c == 'p' {
                    Ok(Key::Preview)
                } else {
                    Err(())
                }
            },
            KeyCode::Down => Ok(Key::MoveDown),
            KeyCode::Up => Ok(Key::MoveUp),
            _ => Err(()),
        }
    }
}

/// The template list of the new interface.
pub struct Template {
    pub templates: Vec<String>,
    pub filter: Option<String>,
    pub is_focused: bool,
}

impl Template {
    pub fn new() -> (r: Template)
        ensures
            r.templates@.len() == 0,
            r.filter is None,
            !r.is_focused,
    {
        Template { templates: Vec::new(), filter: None, is_focused: false }
    }
}

} // verus!
