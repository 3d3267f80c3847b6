use vstd::prelude::*;

use crate::key::{KeyCode, KeyEvent, KeyEventKind};
use crate::selection::{next_selection, prev_selection, select_next, select_previous};
use crate::sort::strings_view;
use crate::text::{has_sub, text_contains, text_to_string};

verus! {

/// The actions of the template list.
#[derive(Clone, Copy, Debug, PartialEq, Eq, Structural)]
pub enum Key {
    Generate,
    Delete,
    Preview,
    Switch,
    MoveUp,
    MoveDown,
}

/// The action a key event stands for in the template list, if any; only presses count.
pub open spec fn key_of_event(ev: KeyEvent) -> Option<Key> {
    if ev.kind != KeyEventKind::Press {
        None
    } else {
        match ev.code {
            KeyCode::Enter => Some(Key::Generate),
            KeyCode::Char('d') => Some(Key::Delete),
            KeyCode::Char('p') => Some(Key::Preview),
            KeyCode::Right | KeyCode::Left => Some(Key::Switch),
            KeyCode::Down => Some(Key::MoveDown),
            KeyCode::Up => Some(Key::MoveUp),
            _ => None,
        }
    }
}

impl Key {
    /// The action a key event stands for; `Err` for any other event.
    pub fn try_from_event(ev: &KeyEvent) -> (r: Result<Key, ()>)
        ensures
            match key_of_event(*ev) {
                Some(k) => r == Ok::<Key, ()>(k),
                None => r is Err,
            },
    {
        match ev.kind {
            KeyEventKind::Press => {},
            _ => {
                return Err(());
            },
        }
        match ev.code {
            KeyCode::Enter => Ok(Key::Generate),
            KeyCode::Char(c) => {
                if c == 'd' {
                    Ok(Key::Delete)
                } else if c == 'p' {
                    Ok(Key::Preview)
                } else {
                    Err(())
                }
            },
            KeyCode::Right => Ok(Key::Switch),
            KeyCode::Left => Ok(Key::Switch),
            KeyCode::Down => Ok(Key::MoveDown),
            KeyCode::Up => Ok(Key::MoveUp),
            _ => Err(()),
        }
    }
}

/// What the template list asks to be done after a key.
#[derive(Debug, PartialEq, Eq)]
pub enum TemplateAction {
    Nothing,
    /// Generate a profile from the template.
    Generate(String),
    /// Give the focus to the profile list.
    Switch,
}

/// The list of templates.
pub struct Template {
    pub items: Vec<String>,
    pub filter: Option<String>,
}

impl Template {
    pub fn new() -> (r: Template)
        ensures
            r.items@.len() == 0,
            r.filter is None,
    {
        Template { items: Vec::new(), filter: None }
    }

    /// Decides what a key does. Deleting and previewing templates are not
    /// offered.
    pub fn handle_key_event(&self, key: Key, state: &mut Option<usize>) -> (r: TemplateAction)
        requires
            key != Key::Delete,
            key != Key::Preview,
            key == Key::Generate ==> match *old(state) {
                Some(i) => i < self.items@.len(),
                None => true,
            },
        ensures
            match key {
                Key::MoveUp => *final(state) == prev_selection(*old(state)) && r == TemplateAction::Nothing,
                Key::MoveDown => *final(state) == next_selection(*old(state)) && r == TemplateAction::Nothing,
                Key::Switch => *final(state) == *old(state) && r == TemplateAction::Switch,
                _ => *final(state) == *old(state) && match *old(state) {
                    None => r == TemplateAction::Nothing,
                    Some(i) => r matches TemplateAction::Generate(n) && n@ == self.items@[i as int]@,
                },
            },
    {
        match key {
            Key::MoveUp => {
                select_previous(state);
                TemplateAction::Nothing
            },
            Key::MoveDown => {
                select_next(state);
                TemplateAction::Nothing
            },
            Key::Switch => TemplateAction::Switch,
            _ => match *state {
                Some(i) => TemplateAction::Generate(text_to_string(self.items[i].as_str())),
                None => TemplateAction::Nothing,
            },
        }
    }

    /// The names to show: those that hold the filter.
    pub fn visible(&self) -> (r: Vec<String>)
        ensures
            strings_view(r@) == strings_view(self.items@).filter(
                |s: Seq<char>|
                    match self.filter {
                        None => true,
                        Some(f) => has_sub(s, f@),
                    },
            ),
    {
        let ghost all = strings_view(self.items@);
        let ghost f = |s: Seq<char>|
            match self.filter {
                None => true,
                Some(ft) => has_sub(s, ft@),
            };
        let mut out: Vec<String> = Vec::new();
        let mut i: usize = 0;
        proof {
            assert(all.take(0) =~= seq![]);
            assert(strings_view(out@) =~= seq![]);
        }
        while i < self.items.len()
            invariant
                i <= self.items@.len(),
                all == strings_view(self.items@),
                f == (|s: Seq<char>|
                    match self.filter {
                        None => true,
                        Some(ft) => has_sub(s, ft@),
                    }),
                strings_view(out@) == all.take(i as int).filter(f),
            decreases self.items@.len() - i,
        {
            let ghost prev = out@;
            let keep = match &self.filter {
                None => true,
                Some(ft) => text_contains(self.items[i].as_str(), ft.as_str()),
            };
            proof {
                reveal_with_fuel(Seq::filter, 1);
                assert(all.take(i as int + 1).drop_last() =~= all.take(i as int));
            }
            if keep {
                out.push(text_to_string(self.items[i].as_str()));
                proof {
                    assert(strings_view(out@) =~= strings_view(prev).push(all[i as int]));
                }
            }
            i = i + 1;
        }
        proof {
            assert(all.take(self.items@.len() as int) =~= all);
        }
        out
    }
}

} // verus!
