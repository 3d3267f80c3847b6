use vstd::prelude::*;

use crate::key::{Key, KeyCode};
use crate::text::text_to_string;

verus! {

/// The actions of the settings tab.
#[derive(Clone, Copy, Debug, PartialEq, Eq, Structural)]
pub enum SettingsKey {
    Execute,
    MoveUp,
    MoveDown,
    Esc,
}

/// The built-in meaning of a key in the settings tab (modifiers are ignored).
pub open spec fn default_settings_key(k: Key) -> Option<SettingsKey> {
    match k.code {
        KeyCode::Enter => Some(SettingsKey::Execute),
        KeyCode::Esc => Some(SettingsKey::Esc),
        KeyCode::Up | KeyCode::Char('k') => Some(SettingsKey::MoveUp),
        KeyCode::Down | KeyCode::Char('j') => Some(SettingsKey::MoveDown),
        _ => None,
    }
}

/// The action bound to `k` by a user keymap: the first binding of that key.
pub open spec fn keymap_lookup(m: Seq<(Key, SettingsKey)>, k: Key) -> Option<SettingsKey>
    decreases m.len(),
{
    if m.len() == 0 {
        None
    } else if m[0].0 == k {
        Some(m[0].1)
    } else {
        keymap_lookup(m.drop_first(), k)
    }
}

/// The action a key stands for: by the user's keymap when there is one,
/// by the built-in bindings otherwise.
pub open spec fn settings_key_of(k: Key, keymap: Seq<(Key, SettingsKey)>) -> Option<SettingsKey> {
    if keymap.len() > 0 {
        keymap_lookup(keymap, k)
    } else {
        default_settings_key(k)
    }
}

impl SettingsKey {
    /// The action a key stands for, given the user's keymap (empty when the
    /// user has none); `Err` when it stands for none.
    pub fn try_from_key(ev: &Key, keymap: &Vec<(Key, SettingsKey)>) -> (r: Result<SettingsKey, ()>)
        ensures
            match settings_key_of(*ev, keymap@) {
                Some(k) => r == Ok::<SettingsKey, ()>(k),
                None => r is Err,
            },
    {
        if keymap.len() > 0 {
            let mut i: usize = 0;
            proof {
                assert(keymap@.skip(0) =~= keymap@);
            }
            while i < keymap.len()
                invariant
                    i <= keymap@.len(),
                    keymap_lookup(keymap@, *ev) == keymap_lookup(keymap@.skip(i as int), *ev),
                decreases keymap@.len() - i,
            {
                proof {
                    assert(keymap@.skip(i as int).drop_first() =~= keymap@.skip(i as int + 1));
                }
                if keymap[i].0 == *ev {
                    return Ok(keymap[i].1);
                }
                i = i + 1;
            }
            proof {
                assert(keymap@.skip(i as int) =~= Seq::<(Key, SettingsKey)>::empty());
            }
            return Err(());
        }
        match ev.code {
            KeyCode::Enter => Ok(SettingsKey::Execute),
            KeyCode::Esc => Ok(SettingsKey::Esc),
            KeyCode::Up => Ok(SettingsKey::MoveUp),
            KeyCode::Down => Ok(SettingsKey::MoveDown),
            KeyCode::Char(c) => {
                if c == 'k' {
                    Ok(SettingsKey::MoveUp)
                } else if c == 'j' {
                    Ok(SettingsKey::MoveDown)
                } else {
                    Err(())
                }
            },
            _ => Err(()),
        }
    }
}

/// The built-in bindings of the settings tab, with their descriptions.
pub fn default_shortcuts() -> (r: Vec<(KeyCode, SettingsKey, &'static str)>)
    ensures
        r@.len() == 6,
        forall|i: int| 0 <= i < r@.len() ==> default_settings_key(Key {
            code: #[trigger] r@[i].0,
            shift: false,
            ctrl: false,
            alt: false,
            super_: false,
        }) == Some(r@[i].1),
        forall|i: int, j: int| 0 <= i < j < r@.len() ==> r@[i].0 != r@[j].0,
{
    let mut v: Vec<(KeyCode, SettingsKey, &'static str)> = Vec::new();
    v.push((KeyCode::Enter, SettingsKey::Execute, "Apply"));
    v.push((KeyCode::Esc, SettingsKey::Esc, "Back"));
    v.push((KeyCode::Up, SettingsKey::MoveUp, "Move up"));
    v.push((KeyCode::Down, SettingsKey::MoveDown, "Move down"));
    v.push((KeyCode::Char('k'), SettingsKey::MoveUp, "Move up"));
    v.push((KeyCode::Char('j'), SettingsKey::MoveDown, "Move down"));
    v
}

/// The modes of the proxy core.
#[derive(Clone, Copy, Debug, PartialEq, Eq, Structural)]
pub enum Mode {
    Rule,
    Global,
    Direct,
}

impl Mode {
    /// The name of the mode as the core's API spells it.
    pub fn as_str(&self) -> (r: &'static str)
        ensures
            r@ == match self {
                Mode::Rule => "rule"@,
                Mode::Global => "global"@,
                Mode::Direct => "direct"@,
            },
    {
        match self {
            Mode::Rule => "rule",
            Mode::Global => "global",
            Mode::Direct => "direct",
        }
    }
}

/// The entries of the settings list.
#[derive(Clone, Copy, Debug, PartialEq, Eq, Structural)]
pub enum SettingsOp {
    SwitchMode,
}

impl SettingsOp {
    /// Every entry, in the order shown.
    pub fn all() -> (r: Vec<SettingsOp>)
        ensures
            r@ == seq![SettingsOp::SwitchMode],
    {
        let mut v: Vec<SettingsOp> = Vec::new();
        v.push(SettingsOp::SwitchMode);
        proof {
            assert(v@ =~= seq![SettingsOp::SwitchMode]);
        }
        v
    }
}

/// The settings tab: its entries, the mode shown, and the mode picker.
pub struct SettingsContent {
    pub ops: Vec<SettingsOp>,
    pub current_mode: String,
    pub mode_selector_state: Option<usize>,
    pub mode_selector_visible: bool,
    pub modes: Vec<Mode>,
}

/// The index an `Option` selection stands for, first when there is none.
pub open spec fn sel_or_first(s: Option<usize>) -> int {
    match s {
        Some(i) => i as int,
        None => 0,
    }
}

/// The selection after moving up: one step back, stopping at the first item.
pub open spec fn move_up(s: Option<usize>) -> Option<usize> {
    Some(if sel_or_first(s) == 0 { 0 } else { (sel_or_first(s) - 1) as usize })
}

/// The selection after moving down in a list of `n` items: one step on,
/// stopping at the last item.
pub open spec fn move_down(s: Option<usize>, n: int) -> Option<usize> {
    if sel_or_first(s) + 1 < n {
        Some((sel_or_first(s) + 1) as usize)
    } else {
        s
    }
}

impl SettingsContent {
    pub fn new() -> (r: SettingsContent)
        ensures
            r.ops@.len() == 0,
            r.current_mode@.len() == 0,
            r.mode_selector_state is None,
            !r.mode_selector_visible,
            r.modes@.len() == 0,
    {
        SettingsContent {
            ops: Vec::new(),
            current_mode: String::new(),
            mode_selector_state: None,
            mode_selector_visible: false,
            modes: Vec::new(),
        }
    }

    /// Fills the tab. Returns whether the current mode must be fetched from
    /// the core; it is not when the configured core does not match the API.
    pub fn init(&mut self, state: &mut Option<usize>, core_mismatch: bool) -> (fetch: bool)
        ensures
            final(self).ops@ == seq![SettingsOp::SwitchMode],
            final(self).modes@ == seq![Mode::Rule, Mode::Global, Mode::Direct],
            final(self).mode_selector_state == Some(0usize),
            final(self).mode_selector_visible == old(self).mode_selector_visible,
            *final(state) == Some(0usize),
            fetch == !core_mismatch,
            core_mismatch ==> final(self).current_mode@ == "core mismatch"@,
            !core_mismatch ==> final(self).current_mode == old(self).current_mode,
    {
        self.ops = SettingsOp::all();
        let mut modes: Vec<Mode> = Vec::new();
        modes.push(Mode::Rule);
        modes.push(Mode::Global);
        modes.push(Mode::Direct);
        proof {
            assert(modes@ =~= seq![Mode::Rule, Mode::Global, Mode::Direct]);
        }
        self.modes = modes;
        self.mode_selector_state = Some(0);
        if self.ops.len() > 0 {
            *state = Some(0);
        }
        if core_mismatch {
            self.current_mode = text_to_string("core mismatch");
            return false;
        }
        true
    }

    /// On entering the tab: tells when the configured core does not match the API.
    pub fn on_enter(&mut self, core_mismatch: bool)
        ensures
            final(self).ops == old(self).ops,
            final(self).modes == old(self).modes,
            final(self).mode_selector_state == old(self).mode_selector_state,
            final(self).mode_selector_visible == old(self).mode_selector_visible,
            core_mismatch ==> final(self).current_mode@ == "core mismatch"@,
            !core_mismatch ==> final(self).current_mode == old(self).current_mode,
    {
        if core_mismatch {
            self.current_mode = text_to_string("core mismatch");
        }
    }

    /// Shows the mode that the core reported or accepted.
    pub fn set_mode(&mut self, mode: String)
        ensures
            final(self).current_mode == mode,
            final(self).ops == old(self).ops,
            final(self).modes == old(self).modes,
            final(self).mode_selector_state == old(self).mode_selector_state,
            final(self).mode_selector_visible == old(self).mode_selector_visible,
    {
        self.current_mode = mode;
    }

    /// Handles a key: moves in the list or in the mode picker, opens or closes
    /// the picker. Returns the mode to apply when one was picked.
    pub fn handle_key_event(&mut self, key: SettingsKey, state: &mut Option<usize>) -> (r: Option<Mode>)
        ensures
            final(self).ops == old(self).ops,
            final(self).modes == old(self).modes,
            final(self).current_mode == old(self).current_mode,
            old(self).mode_selector_visible ==> *final(state) == *old(state) && match key {
                SettingsKey::MoveUp => final(self).mode_selector_state == move_up(old(self).mode_selector_state)
                    && final(self).mode_selector_visible && r is None,
                SettingsKey::MoveDown => final(self).mode_selector_state == move_down(
                    old(self).mode_selector_state,
                    old(self).modes@.len() as int,
                ) && final(self).mode_selector_visible && r is None,
                SettingsKey::Esc => final(self).mode_selector_state == old(self).mode_selector_state
                    && !final(self).mode_selector_visible && r is None,
                SettingsKey::Execute => final(self).mode_selector_state == old(self).mode_selector_state && {
                    let idx = sel_or_first(old(self).mode_selector_state);
                    if idx < old(self).modes@.len() {
                        !final(self).mode_selector_visible && r == Some(old(self).modes@[idx])
                    } else {
                        final(self).mode_selector_visible && r is None
                    }
                },
            },
            !old(self).mode_selector_visible ==> r is None && final(self).mode_selector_state == old(
                self,
            ).mode_selector_state && match key {
                SettingsKey::MoveUp => *final(state) == move_up(*old(state)) && !final(self).mode_selector_visible,
                SettingsKey::MoveDown => *final(state) == move_down(*old(state), old(self).ops@.len() as int)
                    && !final(self).mode_selector_visible,
                SettingsKey::Esc => *final(state) == *old(state) && !final(self).mode_selector_visible,
                SettingsKey::Execute => *final(state) == *old(state) && final(self).mode_selector_visible == (
                match *old(state) {
                    Some(i) => i < old(self).ops@.len(),
                    None => false,
                }),
            },
    {
        if self.mode_selector_visible {
            match key {
                SettingsKey::MoveUp => {
                    let i = match self.mode_selector_state {
                        Some(i) => i,
                        None => 0,
                    };
                    self.mode_selector_state = Some(i.saturating_sub(1));
                },
                SettingsKey::MoveDown => {
                    let i = match self.mode_selector_state {
                        Some(i) => i,
                        None => 0,
                    };
                    let n = self.modes.len();
                    if n > 0 && i < n - 1 {
                        self.mode_selector_state = Some(i + 1);
                    }
                },
                SettingsKey::Esc => {
                    self.mode_selector_visible = false;
                },
                SettingsKey::Execute => {
                    let idx = match self.mode_selector_state {
                        Some(i) => i,
                        None => 0,
                    };
                    if idx < self.modes.len() {
                        let mode = self.modes[idx];
                        self.mode_selector_visible = false;
                        return Some(mode);
                    }
                },
            }
            return None;
        }
        match key {
            SettingsKey::MoveUp => {
                let i = match *state {
                    Some(i) => i,
                    None => 0,
                };
                *state = Some(i.saturating_sub(1));
            },
            SettingsKey::MoveDown => {
                let i = match *state {
                    Some(i) => i,
                    None => 0,
                };
                let n = self.ops.len();
                if n > 0 && i < n - 1 {
                    *state = Some(i + 1);
                }
            },
            SettingsKey::Execute => {
                match *state {
                    Some(idx) => {
                        if idx < self.ops.len() {
                            match self.ops[idx] {
                                SettingsOp::SwitchMode => {
                                    self.mode_selector_visible = true;
                                },
                            }
                        }
                    },
                    None => {},
                }
            },
            SettingsKey::Esc => {},
        }
        None
    }
}

} // verus!
