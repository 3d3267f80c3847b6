use vstd::prelude::*;

use crate::key::{KeyCode, KeyEvent, KeyEventKind};

verus! {

/// The actions of the profile list of the new interface.
#[derive(Clone, Copy, Debug, PartialEq, Eq, Structural)]
pub enum Key {
    Select,
    Delete,
    Preview,
    Update,
    MoveUp,
    MoveDown,
}

/// The action a key event stands for, if any; only presses count.
pub open spec fn key_of_event(ev: KeyEvent) -> Option<Key> {
    if ev.kind != KeyEventKind::Press {
        None
    } else {
        match ev.code {
            KeyCode::Enter => Some(Key::Select),
            KeyCode::Char('d') => Some(Key::Delete),
            KeyCode::Char('p') => Some(Key::Preview),
            KeyCode::Char('u') => Some(Key::Update),
            KeyCode::Down => Some(Key::MoveDown),
            KeyCode::Up => Some(Key::MoveUp),
            _ => None,
        }
    }
}

impl Key {
    /// The action a key event stands for; `Err` for any other event.
    pub fn try_from_event(ev: &KeyEvent) -> (r: Result<Key, ()>)
        ensures
            match key_of_event(*ev) {
                Some(k) => r == Ok::<Key, ()>(k),
                None => r is Err,
            },
    {
        match ev.kind {
            KeyEventKind::Press => {},
            _ => {
                return Err(());
            },
        }
        match ev.code {
            KeyCode::Enter => Ok(Key::Select),
            KeyCode::Char(c) => {
                if c == 'd' {
                    Ok(Key::Delete)
                } else if c == 'p' {
                    Ok(Key::Preview)
                } else if c == 'u' {
                    Ok(Key::Update)
                } else {
                    Err(())
                }
            },
            KeyCode::Down => Ok(Key::MoveDown),
            KeyCode::Up => Ok(Key::MoveUp),
            _ => Err(()),
        }
    }
}

/// The profile list of the new interface: names, the age of each (seconds and
/// nanoseconds, when known), the filter, and whether it has the focus.
pub struct Profile {
    pub profiles: Vec<String>,
    pub atime: Vec<Option<(u64, u32)>>,
    pub filter: Option<String>,
    pub is_focused: bool,
}

impl Profile {
    pub fn new() -> (r: Profile)
        ensures
            r.profiles@.len() == 0,
            r.atime@.len() == 0,
            r.filter is None,
            !r.is_focused,
    {
        Profile { profiles: Vec::new(), atime: Vec::new(), filter: None, is_focused: false }
    }
}

} // verus!
