use vstd::prelude::*;

use crate::key::{Key, KeyCode, KeyEvent, KeyEventKind};
use crate::text::text_to_string;

verus! {

/// A key sequence bound to an action, with a description for the help screen.
pub struct Chord {
    pub on: Vec<Key>,
    pub desc: Option<String>,
}

/// A key without modifiers.
pub fn generate_key(code: KeyCode) -> (k: Key)
    ensures
        k == (Key { code, shift: false, ctrl: false, alt: false, super_: false }),
{
    Key { code, shift: false, ctrl: false, alt: false, super_: false }
}

impl Chord {
    /// A chord of one unmodified key.
    pub fn new(keycode: KeyCode, desc: Option<String>) -> (c: Chord)
        ensures
            c.on@ == seq![Key { code: keycode, shift: false, ctrl: false, alt: false, super_: false }],
            c.desc == desc,
    {
        let mut on: Vec<Key> = Vec::new();
        on.push(generate_key(keycode));
        proof {
            assert(on@ =~= seq![Key { code: keycode, shift: false, ctrl: false, alt: false, super_: false }]);
        }
        Chord { on, desc }
    }
}

/// The chords of one part of the interface.
pub struct KeymapRules {
    pub keymap: Vec<Chord>,
}

impl KeymapRules {
    /// The chords, in order.
    pub fn chords(&self) -> (r: &Vec<Chord>)
        ensures
            r == &self.keymap,
    {
        &self.keymap
    }
}

/// The keymaps of the interface.
pub struct Keymap {
    pub profile: KeymapRules,
}

pub open spec fn opt_text(o: Option<String>) -> Option<Seq<char>> {
    match o {
        Some(s) => Some(s@),
        None => None,
    }
}

/// Whether a chord is one unmodified key with the given description.
pub open spec fn is_simple_chord(c: Chord, code: KeyCode, desc: Seq<char>) -> bool {
    &&& c.on@ == seq![Key { code, shift: false, ctrl: false, alt: false, super_: false }]
    &&& opt_text(c.desc) == Some(desc)
}

impl Keymap {
    /// The default keymaps.
    pub fn new() -> (k: Keymap)
        ensures
            k.profile.keymap@.len() == 4,
            is_simple_chord(k.profile.keymap@[0], KeyCode::Char('j'), "next"@),
            is_simple_chord(k.profile.keymap@[1], KeyCode::Char('k'), "previous"@),
            is_simple_chord(k.profile.keymap@[2], KeyCode::Char('u'), "update profile"@),
            is_simple_chord(k.profile.keymap@[3], KeyCode::Enter, "select profile"@),
    {
        let profile = Keymap::make_profile_km_rules();
        Keymap { profile }
    }

    /// The default chords of the profile list.
    pub fn make_profile_km_rules() -> (r: KeymapRules)
        ensures
            r.keymap@.len() == 4,
            is_simple_chord(r.keymap@[0], KeyCode::Char('j'), "next"@),
            is_simple_chord(r.keymap@[1], KeyCode::Char('k'), "previous"@),
            is_simple_chord(r.keymap@[2], KeyCode::Char('u'), "update profile"@),
            is_simple_chord(r.keymap@[3], KeyCode::Enter, "select profile"@),
    {
        let mut keymap: Vec<Chord> = Vec::new();
        keymap.push(Chord::new(KeyCode::Char('j'), Some(text_to_string("next"))));
        keymap.push(Chord::new(KeyCode::Char('k'), Some(text_to_string("previous"))));
        keymap.push(Chord::new(KeyCode::Char('u'), Some(text_to_string("update profile"))));
        keymap.push(Chord::new(KeyCode::Enter, Some(text_to_string("select profile"))));
        KeymapRules { keymap }
    }
}

/// The part of the application that serves requests of the interface.
pub struct BackEnd {}

impl BackEnd {
    pub fn new() -> (r: BackEnd) {
        BackEnd {  }
    }
}

/// A request to leave the application, with its exit code.
#[derive(Debug)]
pub struct EventQuit {
    pub code: i32,
}

impl Default for EventQuit {
    fn default() -> (r: EventQuit)
        ensures
            r.code == 0,
    {
        EventQuit { code: 0 }
    }
}

/// The operands of an addition request.
pub struct AddActOpt {
    pub a: i64,
    pub b: i64,
}

/// The back-end action that adds two numbers.
pub struct AddAct;

impl AddAct {
    /// The sum of the operands.
    pub fn act(opt: AddActOpt) -> (r: i64)
        requires
            i64::MIN <= opt.a + opt.b <= i64::MAX,
        ensures
            r == opt.a + opt.b,
    {
        opt.a + opt.b
    }
}

/// The front-end action that answers with a fixed message.
pub struct InfoAct;

impl InfoAct {
    /// The message it answers with.
    pub fn act() -> (r: &'static str)
        ensures
            r@ == "Msg from FrontEndActor"@,
    {
        "Msg from FrontEndActor"
    }
}

/// The layer of the interface that receives keys.
#[derive(Clone, Copy, Debug, PartialEq, Eq, Structural)]
pub enum Layer {
    Main,
    Which,
    Help,
    Popup,
    Confirm,
    Input,
}

/// Which overlays are on screen.
pub struct Visibility {
    pub which: bool,
    pub help: bool,
    pub popup: bool,
    pub confirm: bool,
    pub input: bool,
}

impl Visibility {
    /// The topmost visible layer: the key hints, then help, the pop-up, the
    /// confirmation, the input box; the main view when none is shown.
    pub fn layer(&self) -> (r: Layer)
        ensures
            r == (if self.which {
                Layer::Which
            } else if self.help {
                Layer::Help
            } else if self.popup {
                Layer::Popup
            } else if self.confirm {
                Layer::Confirm
            } else if self.input {
                Layer::Input
            } else {
                Layer::Main
            }),
    {
        if self.which {
            Layer::Which
        } else if self.help {
            Layer::Help
        } else if self.popup {
            Layer::Popup
        } else if self.confirm {
            Layer::Confirm
        } else if self.input {
            Layer::Input
        } else {
            Layer::Main
        }
    }
}

/// Number of tabs of the application.
pub const TAB_COUNT: u8 = 2;

/// The tab shown after a key that the whole application handles, and whether
/// the key was one: a digit `1`-`9` picks that tab (the last one for larger
/// digits), `Tab` moves to the next tab, cyclically.
pub open spec fn global_key(tab_index: u8, kv: KeyEvent) -> Option<u8> {
    if kv.kind != KeyEventKind::Press {
        None
    } else {
        match kv.code {
            KeyCode::Char(c) => if '1' <= c && c <= '9' {
                let d = (c as u32) - ('0' as u32);
                Some((if d < TAB_COUNT { d } else { TAB_COUNT as int } - 1) as u8)
            } else {
                None
            },
            KeyCode::Tab => Some(if tab_index == TAB_COUNT - 1 { 0 } else { (tab_index + 1) as u8 }),
            _ => None,
        }
    }
}

/// Handles the keys of the whole application; returns whether the key was one.
pub fn handle_global_kv(tab_index: &mut u8, kv: &KeyEvent) -> (r: bool)
    requires
        *old(tab_index) < TAB_COUNT,
    ensures
        match global_key(*old(tab_index), *kv) {
            Some(t) => r && *final(tab_index) == t,
            None => !r && *final(tab_index) == *old(tab_index),
        },
        *final(tab_index) < TAB_COUNT,
{
    match kv.kind {
        KeyEventKind::Press => {},
        _ => {
            return false;
        },
    }
    match kv.code {
        KeyCode::Char(c) => {
            if '1' <= c && c <= '9' {
                let d = ((c as u32) - ('0' as u32)) as u8;
                let m = if d < TAB_COUNT {
                    d
                } else {
                    TAB_COUNT
                };
                *tab_index = m - 1;
                true
            } else {
                false
            }
        },
        KeyCode::Tab => {
            if *tab_index == TAB_COUNT - 1 {
                *tab_index = 0;
            } else {
                *tab_index = *tab_index + 1;
            }
            true
        },
        _ => false,
    }
}

/// Whether a key continues the hidden sequence at step `n`
/// (up, up, down, down, left, right, left, right, b, a, b, a).
pub open spec fn egg_expects(n: u8, key: KeyCode) -> bool {
    if n == 0 || n == 1 {
        key == KeyCode::Up
    } else if n == 2 || n == 3 {
        key == KeyCode::Down
    } else if n == 4 || n == 6 {
        key == KeyCode::Left
    } else if n == 5 || n == 7 {
        key == KeyCode::Right
    } else if n == 8 || n == 10 {
        key == KeyCode::Char('b') || key == KeyCode::Char('B')
    } else if n == 9 || n == 11 {
        key == KeyCode::Char('a') || key == KeyCode::Char('A')
    } else {
        false
    }
}

/// One key of the hidden sequence: the next step, and whether the sequence
/// has just been completed.
pub fn egg_step(current: u8, key: KeyCode) -> (r: (u8, bool))
    ensures
        egg_expects(current, key) ==> r == ((current + 1) as u8, current + 1 == 12),
        !egg_expects(current, key) ==> r == (0u8, false),
{
    let ok = if current == 0 || current == 1 {
        key == KeyCode::Up
    } else if current == 2 || current == 3 {
        key == KeyCode::Down
    } else if current == 4 || current == 6 {
        key == KeyCode::Left
    } else if current == 5 || current == 7 {
        key == KeyCode::Right
    } else if current == 8 || current == 10 {
        key == KeyCode::Char('b') || key == KeyCode::Char('B')
    } else if current == 9 || current == 11 {
        key == KeyCode::Char('a') || key == KeyCode::Char('A')
    } else {
        false
    };
    if !ok {
        return (0, false);
    }
    let next = current + 1;
    (next, next == 12)
}

/// What the terminal reports.
#[derive(Clone, Copy, Debug, PartialEq, Eq, Structural)]
pub enum TermEvent {
    Key(KeyEvent),
    Resize(u16, u16),
    /// Focus, mouse and paste events.
    Other,
}

/// What the interface is told of a terminal event.
#[derive(Clone, Copy, Debug, PartialEq, Eq, Structural)]
pub enum FrontSignal {
    Key(KeyEvent),
    Resize,
}

/// Key presses and resizes reach the interface; releases, repeats and other
/// events are dropped.
pub fn handle_term(ev: TermEvent) -> (r: Option<FrontSignal>)
    ensures
        r == match ev {
            TermEvent::Key(k) => if k.kind == KeyEventKind::Press {
                Some(FrontSignal::Key(k))
            } else {
                None
            },
            TermEvent::Resize(_, _) => Some(FrontSignal::Resize),
            TermEvent::Other => None,
        },
{
    match ev {
        TermEvent::Key(k) => match k.kind {
            KeyEventKind::Press => Some(FrontSignal::Key(k)),
            _ => None,
        },
        TermEvent::Resize(_, _) => Some(FrontSignal::Resize),
        TermEvent::Other => None,
    }
}

/// The request the interface sends to the back end for a key: `a` asks it
/// to add 1 and 2.
pub fn dispatch_key(code: KeyCode) -> (r: Option<AddActOpt>)
    ensures
        code == KeyCode::Char('a') ==> (r matches Some(o) && o.a == 1 && o.b == 2),
        code != KeyCode::Char('a') ==> r is None,
{
    if code == KeyCode::Char('a') {
        Some(AddActOpt { a: 1, b: 2 })
    } else {
        None
    }
}

/// A sequence of operations is run one per turn, last first: the last one is
/// run now and the others are sent again when there are any.
pub fn dispatch_seq<T>(ops: Vec<T>) -> (r: (Option<T>, Option<Vec<T>>))
    ensures
        ops@.len() == 0 ==> r.0 is None && r.1 is None,
        ops@.len() > 0 ==> r.0 == Some(ops@.last()) && (if ops@.len() > 1 {
            (r.1 matches Some(rest) && rest@ == ops@.drop_last())
        } else {
            r.1 is None
        }),
{
    let mut ops = ops;
    let last = ops.pop();
    if ops.len() > 0 {
        (last, Some(ops))
    } else {
        (last, None)
    }
}

} // verus!
