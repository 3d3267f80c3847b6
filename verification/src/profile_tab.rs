use vstd::prelude::*;

use crate::key::{KeyCode, KeyEvent, KeyEventKind};
use crate::selection::{next_selection, prev_selection, select_next, select_previous};
use crate::sort::{stable_sort, strings_view};
use crate::text::{decimal, has_sub, lex_le, text_contains, text_eq, text_le, text_to_string, u64_to_decimal};
use vstd::string::{StrSliceExecFns, StringExecFns};

verus! {

/// The actions of the profile list.
#[derive(Clone, Copy, Debug, PartialEq, Eq, Structural)]
pub enum Key {
    Add,
    Select,
    Delete,
    Edit,
    Preview,
    Update,
    Search,
    Test,
    MoveUp,
    MoveDown,
}

/// The action a key event stands for in the profile list, if any; only presses count.
pub open spec fn key_of_event(ev: KeyEvent) -> Option<Key> {
    if ev.kind != KeyEventKind::Press {
        None
    } else {
        match ev.code {
            KeyCode::Char('i') => Some(Key::Add),
            KeyCode::Char('e') => Some(Key::Edit),
            KeyCode::Enter => Some(Key::Select),
            KeyCode::Char('d') => Some(Key::Delete),
            KeyCode::Char('p') => Some(Key::Preview),
            KeyCode::Char('u') => Some(Key::Update),
            KeyCode::Char('/') => Some(Key::Search),
            KeyCode::Char('t') => Some(Key::Test),
            KeyCode::Down => Some(Key::MoveDown),
            KeyCode::Up => Some(Key::MoveUp),
            _ => None,
        }
    }
}

impl Key {
    /// The action a key event stands for; `Err` for any other event.
    pub fn try_from_event(ev: &KeyEvent) -> (r: Result<Key, ()>)
        ensures
            match key_of_event(*ev) {
                Some(k) => r == Ok::<Key, ()>(k),
                None => r is Err,
            },
    {
        match ev.kind {
            KeyEventKind::Press => {},
            _ => {
                return Err(());
            },
        }
        match ev.code {
            KeyCode::Char(c) => {
                if c == 'i' {
                    Ok(Key::Add)
                } else if c == 'e' {
                    Ok(Key::Edit)
                } else if c == 'd' {
                    Ok(Key::Delete)
                } else if c == 'p' {
                    Ok(Key::Preview)
                } else if c == 'u' {
                    Ok(Key::Update)
                } else if c == '/' {
                    Ok(Key::Search)
                } else if c == 't' {
                    Ok(Key::Test)
                } else {
                    Err(())
                }
            },
            KeyCode::Enter => Ok(Key::Select),
            KeyCode::Down => Ok(Key::MoveDown),
            KeyCode::Up => Ok(Key::MoveUp),
            _ => Err(()),
        }
    }
}

/// What the profile list asks to be done after a key.
#[derive(Debug, PartialEq, Eq)]
pub enum ProfileAction {
    Nothing,
    /// Ask for a name and a URL, create the profile and download it.
    Add,
    /// Open the profile in an editor.
    Edit(String),
    /// Make the profile the active one.
    Select(String),
    /// Remove the profile.
    Delete(String),
    /// Show the profile's content.
    Preview(String),
    /// Download the profile again.
    Update(String),
    /// Ask for a filter for the list.
    Search,
    /// Let the core check the profile.
    Test(String),
}

/// The list of profiles, with the time since each was last updated.
pub struct Profile {
    pub profiles: Vec<String>,
    pub atime: Vec<String>,
    pub filter: Option<String>,
}

/// Whether the key acts on the profile under the cursor.
pub open spec fn needs_name(key: Key) -> bool {
    match key {
        Key::Edit | Key::Select | Key::Delete | Key::Preview | Key::Update | Key::Test => true,
        _ => false,
    }
}

pub open spec fn opt_text(o: Option<String>) -> Option<Seq<char>> {
    match o {
        Some(s) => Some(s@),
        None => None,
    }
}

/// The rows shown: each profile with its update time, those whose name holds
/// the filter.
pub open spec fn visible_rows(
    profiles: Seq<Seq<char>>,
    atime: Seq<Seq<char>>,
    filter: Option<Seq<char>>,
) -> Seq<(Seq<char>, Seq<char>)> {
    let n = if profiles.len() <= atime.len() {
        profiles.len()
    } else {
        atime.len()
    };
    Seq::new(n, |i: int| (profiles[i], atime[i])).filter(
        |r: (Seq<char>, Seq<char>)|
            match filter {
                None => true,
                Some(f) => has_sub(r.0, f),
            },
    )
}

impl Profile {
    pub fn new() -> (r: Profile)
        ensures
            r.profiles@.len() == 0,
            r.atime@.len() == 0,
            r.filter is None,
    {
        Profile { profiles: Vec::new(), atime: Vec::new(), filter: None }
    }

    /// Decides what a key does: moves the cursor, or names the action to run
    /// on the profile under it (nothing when no profile is selected).
    pub fn handle_key_event(&self, key: Key, state: &mut Option<usize>) -> (r: ProfileAction)
        requires
            needs_name(key) ==> match *old(state) {
                Some(i) => i < self.profiles@.len(),
                None => true,
            },
        ensures
            match key {
                Key::MoveUp => *final(state) == prev_selection(*old(state)) && r == ProfileAction::Nothing,
                Key::MoveDown => *final(state) == next_selection(*old(state)) && r == ProfileAction::Nothing,
                Key::Add => *final(state) == *old(state) && r == ProfileAction::Add,
                Key::Search => *final(state) == *old(state) && r == ProfileAction::Search,
                _ => *final(state) == *old(state) && match *old(state) {
                    None => r == ProfileAction::Nothing,
                    Some(i) => {
                        let name = self.profiles@[i as int]@;
                        match key {
                            Key::Edit => r matches ProfileAction::Edit(n) && n@ == name,
                            Key::Select => r matches ProfileAction::Select(n) && n@ == name,
                            Key::Delete => r matches ProfileAction::Delete(n) && n@ == name,
                            Key::Preview => r matches ProfileAction::Preview(n) && n@ == name,
                            Key::Update => r matches ProfileAction::Update(n) && n@ == name,
                            _ => r matches ProfileAction::Test(n) && n@ == name,
                        }
                    },
                },
            },
    {
        match key {
            Key::MoveUp => {
                select_previous(state);
                return ProfileAction::Nothing;
            },
            Key::MoveDown => {
                select_next(state);
                return ProfileAction::Nothing;
            },
            Key::Add => {
                return ProfileAction::Add;
            },
            Key::Search => {
                return ProfileAction::Search;
            },
            _ => {},
        }
        let idx = match *state {
            Some(i) => i,
            None => {
                return ProfileAction::Nothing;
            },
        };
        let name = text_to_string(self.profiles[idx].as_str());
        match key {
            Key::Edit => ProfileAction::Edit(name),
            Key::Select => ProfileAction::Select(name),
            Key::Delete => ProfileAction::Delete(name),
            Key::Preview => ProfileAction::Preview(name),
            Key::Update => ProfileAction::Update(name),
            _ => ProfileAction::Test(name),
        }
    }

    /// Keeps the filter typed by the user.
    pub fn set_filter(&mut self, filter: String)
        ensures
            final(self).profiles == old(self).profiles,
            final(self).atime == old(self).atime,
            opt_text(final(self).filter) == Some(filter@),
    {
        self.filter = Some(filter);
    }

    /// The rows to show, filtered.
    pub fn visible(&self) -> (r: Vec<(String, String)>)
        ensures
            r@.map_values(|p: (String, String)| (p.0@, p.1@)) == visible_rows(
                strings_view(self.profiles@),
                strings_view(self.atime@),
                opt_text(self.filter),
            ),
    {
        let n = if self.profiles.len() <= self.atime.len() {
            self.profiles.len()
        } else {
            self.atime.len()
        };
        let ghost f = |r: (Seq<char>, Seq<char>)|
            match opt_text(self.filter) {
                None => true,
                Some(ft) => has_sub(r.0, ft),
            };
        let ghost all = Seq::new(
            n as nat,
            |i: int| (strings_view(self.profiles@)[i], strings_view(self.atime@)[i]),
        );
        let mut out: Vec<(String, String)> = Vec::new();
        let mut i: usize = 0;
        proof {
            assert(all.take(0) =~= seq![]);
            assert(out@.map_values(|p: (String, String)| (p.0@, p.1@)) =~= seq![]);
        }
        while i < n
            invariant
                i <= n,
                n <= self.profiles@.len(),
                n <= self.atime@.len(),
                all == Seq::new(
                    n as nat,
                    |i: int| (strings_view(self.profiles@)[i], strings_view(self.atime@)[i]),
                ),
                f == (|r: (Seq<char>, Seq<char>)|
                    match opt_text(self.filter) {
                        None => true,
                        Some(ft) => has_sub(r.0, ft),
                    }),
                out@.map_values(|p: (String, String)| (p.0@, p.1@)) == all.take(i as int).filter(f),
            decreases n - i,
        {
            let ghost prev = out@;
            let keep = match &self.filter {
                None => true,
                Some(ft) => text_contains(self.profiles[i].as_str(), ft.as_str()),
            };
            proof {
                reveal_with_fuel(Seq::filter, 1);
                assert(all.take(i as int + 1).drop_last() =~= all.take(i as int));
                assert(all[i as int] == (self.profiles@[i as int]@, self.atime@[i as int]@));
                assert(keep == f(all[i as int]));
            }
            if keep {
                out.push((text_to_string(self.profiles[i].as_str()), text_to_string(self.atime[i].as_str())));
                proof {
                    assert(out@.map_values(|p: (String, String)| (p.0@, p.1@)) =~= prev.map_values(
                        |p: (String, String)| (p.0@, p.1@),
                    ).push(all[i as int]));
                }
            }
            i = i + 1;
        }
        proof {
            assert(all.take(n as int) =~= all);
            let vr = visible_rows(strings_view(self.profiles@), strings_view(self.atime@), opt_text(self.filter));
            let filt = opt_text(self.filter);
            let g = |r: (Seq<char>, Seq<char>)|
                match filt {
                    None => true,
                    Some(ft) => has_sub(r.0, ft),
                };
            assert(g =~= f);
            assert(Seq::new(
                n as nat,
                |i: int| (strings_view(self.profiles@)[i], strings_view(self.atime@)[i]),
            ) =~= all);
        }
        out
    }
}

/// Replaces the list with freshly read names and update times.
pub fn sync_helper(content: &mut Profile, name: Vec<String>, atime: Vec<String>)
    ensures
        final(content).profiles == name,
        final(content).atime == atime,
        final(content).filter == old(content).filter,
{
    content.atime = atime;
    content.profiles = name;
}

/// How long ago a profile was updated, as shown in the list.
pub open spec fn duration_text(secs: nat, nanos: nat) -> Seq<char> {
    if secs == 0 && nanos == 0 {
        "Just Now"@
    } else if secs < 3540 {
        "In "@ + decimal(secs / 60 + 1) + " mins"@
    } else if secs < 86400 {
        "In "@ + decimal(secs / 3600) + " hours"@
    } else {
        "In about "@ + decimal(secs / 86400) + " days"@
    }
}

/// Shows the duration `secs` seconds and `nanos` nanoseconds.
pub fn display_duration(secs: u64, nanos: u32) -> (r: String)
    ensures
        r@ == duration_text(secs as nat, nanos as nat),
{
    if secs == 0 && nanos == 0 {
        text_to_string("Just Now")
    } else if secs < 3540 {
        let mut r = text_to_string("In ");
        r.append(u64_to_decimal(secs / 60 + 1).as_str());
        r.append(" mins");
        r
    } else if secs < 86400 {
        let mut r = text_to_string("In ");
        r.append(u64_to_decimal(secs / 3600).as_str());
        r.append(" hours");
        r
    } else {
        let mut r = text_to_string("In about ");
        r.append(u64_to_decimal(secs / 86400).as_str());
        r.append(" days");
        r
    }
}

/// The update time shown for a profile: its age when known, `Unknown` otherwise.
pub fn readable_atime(age: Option<(u64, u32)>) -> (r: String)
    ensures
        r@ == match age {
            Some((s, n)) => duration_text(s as nat, n as nat),
            None => "Unknown"@,
        },
{
    match age {
        Some((s, n)) => display_duration(s, n),
        None => text_to_string("Unknown"),
    }
}

/// Order on (name, time) pairs: by name, then by time.
pub open spec fn pair_le(a: (Seq<char>, Seq<char>), b: (Seq<char>, Seq<char>)) -> bool {
    if a.0 != b.0 {
        lex_le(a.0, b.0)
    } else {
        lex_le(a.1, b.1)
    }
}

pub open spec fn pairs_view(v: Seq<(String, String)>) -> Seq<(Seq<char>, Seq<char>)> {
    v.map_values(|p: (String, String)| (p.0@, p.1@))
}

fn pair_le_exec(a: &(String, String), b: &(String, String)) -> (r: bool)
    ensures
        r == pair_le((a.0@, a.1@), (b.0@, b.1@)),
{
    if !text_eq(a.0.as_str(), b.0.as_str()) {
        text_le(a.0.as_str(), b.0.as_str())
    } else {
        text_le(a.1.as_str(), b.1.as_str())
    }
}

/// Sorts (name, time) pairs and splits them into the names and the times.
pub fn sort_profiles(composed: Vec<(String, String)>) -> (r: (Vec<String>, Vec<String>))
    ensures
        r.0@.len() == r.1@.len(),
        Seq::new(r.0@.len(), |i: int| (r.0@[i]@, r.1@[i]@)) == stable_sort(
            pairs_view(composed@),
            |a: (Seq<char>, Seq<char>), b: (Seq<char>, Seq<char>)| pair_le(a, b),
        ),
{
    let ghost le = |a: (Seq<char>, Seq<char>), b: (Seq<char>, Seq<char>)| pair_le(a, b);
    let ghost input = pairs_view(composed@);
    let mut res: Vec<(String, String)> = Vec::new();
    let n = composed.len();
    let mut i: usize = 0;
    proof {
        assert(pairs_view(res@) =~= stable_sort(input.take(0), le));
    }
    while i < n
        invariant
            n == composed@.len(),
            input == pairs_view(composed@),
            0 <= i <= n,
            le == (|a: (Seq<char>, Seq<char>), b: (Seq<char>, Seq<char>)| pair_le(a, b)),
            pairs_view(res@) == stable_sort(input.take(i as int), le),
        decreases n - i,
    {
        let x = (text_to_string(composed[i].0.as_str()), text_to_string(composed[i].1.as_str()));
        let ghost s = pairs_view(res@);
        let mut j: usize = 0;
        while j < res.len() && pair_le_exec(&res[j], &x)
            invariant
                s == pairs_view(res@),
                0 <= j <= res@.len(),
                le == (|a: (Seq<char>, Seq<char>), b: (Seq<char>, Seq<char>)| pair_le(a, b)),
                crate::sort::insert_pos(s, (x.0@, x.1@), le, 0) == crate::sort::insert_pos(
                    s,
                    (x.0@, x.1@),
                    le,
                    j as int,
                ),
            decreases res@.len() - j,
        {
            j = j + 1;
        }
        assert(crate::sort::insert_pos(s, (x.0@, x.1@), le, j as int) == j);
        assert(input.take(i + 1).drop_last() =~= input.take(i as int));
        assert(input.take(i + 1).last() == (x.0@, x.1@));
        let ghost xv = (x.0@, x.1@);
        res.insert(j, x);
        assert(pairs_view(res@) =~= s.insert(j as int, xv));
        i = i + 1;
    }
    assert(input.take(n as int) =~= input);
    let mut names: Vec<String> = Vec::new();
    let mut times: Vec<String> = Vec::new();
    let mut k: usize = 0;
    while k < res.len()
        invariant
            k <= res@.len(),
            names@.len() == k,
            times@.len() == k,
            forall|x: int| 0 <= x < k ==> #[trigger] names@[x]@ == res@[x].0@ && times@[x]@ == res@[x].1@,
        decreases res@.len() - k,
    {
        names.push(text_to_string(res[k].0.as_str()));
        times.push(text_to_string(res[k].1.as_str()));
        k = k + 1;
    }
    assert(Seq::new(names@.len(), |i: int| (names@[i]@, times@[i]@)) =~= pairs_view(res@));
    (names, times)
}

} // verus!
