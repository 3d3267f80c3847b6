use vstd::prelude::*;
use vstd::utf8::encode_utf8;
use vstd::string::StringSliceAdditionalSpecFns;
use vstd::utf8::is_char_boundary;

use crate::fuzzy::{fuzzy_spec, FzfItem};
use crate::key::{Key, KeyCode};
use crate::text::string_push;

verus! {

/// What a pop-up message asks its owner to do after a key press.
#[derive(Clone, Copy, Debug, PartialEq, Eq, Structural)]
pub enum Route {
    /// Stay open.
    Keep,
    /// Close and deliver the result.
    Send,
    /// Close without a result.
    Drop,
}

/// A pop-up message under construction: its content, title and optional prompt.
pub struct MsgBuilder<C> {
    pub content: C,
    pub title: String,
    pub prompt: Option<String>,
}

impl<C> MsgBuilder<C> {
    pub fn new(content: C, title: String) -> (r: Self)
        ensures
            r.content == content,
            r.title@ == title@,
            r.prompt is None,
    {
        MsgBuilder { content, title, prompt: None }
    }

    pub fn with_prompt(self, prompt: String) -> (r: Self)
        ensures
            r.content == self.content,
            r.title@ == self.title@,
            r.prompt matches Some(p) && p@ == prompt@,
    {
        MsgBuilder { content: self.content, title: self.title, prompt: Some(prompt) }
    }
}

/// Removes the last character of a string (`String::pop`).
#[verifier::external_body]
fn string_pop(s: &mut String) -> (r: Option<char>)
    ensures
        old(s)@.len() == 0 ==> r is None && final(s)@ == old(s)@,
        old(s)@.len() > 0 ==> r == Some(old(s)@.last()) && final(s)@ == old(s)@.drop_last(),
{
    s.pop()
}

/// Indices `i < n` of the items whose text matches `q`, in increasing order.
pub open spec fn matching_indices(views: Seq<Seq<char>>, q: Seq<char>, n: int) -> Seq<usize>
    decreases n,
{
    if n <= 0 {
        seq![]
    } else if fuzzy_spec(views[n - 1], q) is Some {
        matching_indices(views, q, n - 1).push((n - 1) as usize)
    } else {
        matching_indices(views, q, n - 1)
    }
}

/// The selection kept inside a list of `len` entries after the list changed.
pub open spec fn clamp_selection(sel: int, len: int) -> int {
    if len == 0 {
        0
    } else if sel >= len {
        len - 1
    } else {
        sel
    }
}

/// The query after a key press.
pub open spec fn next_query(q: Seq<char>, key: Key) -> Seq<char> {
    match key.code {
        KeyCode::Char(c) => if key.ctrl && c == 'u' {
            seq![]
        } else {
            q.push(c)
        },
        KeyCode::Backspace => if q.len() > 0 {
            q.drop_last()
        } else {
            q
        },
        _ => q,
    }
}

/// The larger of two integers.
pub open spec fn max_nat(a: int, b: int) -> int {
    if a >= b {
        a
    } else {
        b
    }
}

/// The smaller of two integers.
pub open spec fn min_nat(a: int, b: int) -> int {
    if a <= b {
        a
    } else {
        b
    }
}

/// The largest UTF-8 byte length among the first `n` texts (0 when there are none).
pub open spec fn max_width(views: Seq<Seq<char>>, n: int) -> int
    decreases n,
{
    if n <= 0 {
        0
    } else {
        max_nat(max_width(views, n - 1), encode_utf8(views[n - 1]).len() as int)
    }
}

/// Whether a key edits the query (and so refilters the list).
pub open spec fn edits_query(key: Key) -> bool {
    key.code is Char || key.code is Backspace
}

/// The display width in terminal columns that unicode-width gives for a text
/// (`UnicodeWidthStr::width`).
pub uninterp spec fn str_width(s: Seq<char>) -> usize;

/// Calls `unicode_width::UnicodeWidthStr::width`. Claimed: the result is the
/// width named by `str_width`, a function of the text alone.
#[verifier::external_body]
fn text_width(s: &str) -> (r: usize)
    ensures
        r == str_width(s@),
{
    unicode_width::UnicodeWidthStr::width(s)
}

/// How far the query line scrolls: the width of the prompt (`> ` and the
/// query, the query's width cut to 16 bits, at most `u16::MAX` in all) past
/// the room the line leaves, which is its width less 4, or 0 when it fits.
pub open spec fn query_scroll_spec(query: Seq<char>, line_width: u16) -> u16 {
    let w = (str_width(query) as u16) as int;
    let prefix = if w + 2 > u16::MAX { u16::MAX as int } else { w + 2 };
    let room = if line_width >= 4 { line_width - 4 } else { 0 };
    if prefix > room { (prefix - room) as u16 } else { 0 }
}

/// A searchable list: typing narrows the list to the items that fuzzily match the query.
pub struct FzfFind<I> {
    items: Vec<I>,
    filtered: Vec<usize>,
    query: String,
    selected: usize,
}

impl<I: FzfItem> FzfFind<I> {
    pub closed spec fn item_views(&self) -> Seq<Seq<char>> {
        self.items@.map_values(|it: I| it.display_view())
    }

    pub closed spec fn query_view(&self) -> Seq<char> {
        self.query@
    }

    pub closed spec fn filtered_view(&self) -> Seq<usize> {
        self.filtered@
    }

    pub closed spec fn selected_view(&self) -> int {
        self.selected as int
    }

    /// The list shows exactly the matching items, and the selection points
    /// into it (or is 0 when it is empty).
    pub open spec fn wf(&self) -> bool {
        &&& self.filtered_view() == matching_indices(
            self.item_views(),
            self.query_view(),
            self.item_views().len() as int,
        )
        &&& self.selected_view() >= 0
        &&& self.item_views().len() <= usize::MAX
        &&& self.selected_view() == clamp_selection(
            self.selected_view(),
            self.filtered_view().len() as int,
        )
    }

    pub fn new(items: Vec<I>) -> (r: Self)
        ensures
            r.wf(),
            r.item_views() == items@.map_values(|it: I| it.display_view()),
            r.query_view() == Seq::<char>::empty(),
            r.filtered_view() == Seq::new(items@.len(), |i: int| i as usize),
            r.selected_view() == 0,
    {
        let mut filtered: Vec<usize> = Vec::new();
        let n = items.len();
        let ghost views = items@.map_values(|it: I| it.display_view());
        let mut i: usize = 0;
        while i < n
            invariant
                n == items@.len(),
                views == items@.map_values(|it: I| it.display_view()),
                0 <= i <= n,
                filtered@ == Seq::new(i as nat, |k: int| k as usize),
                filtered@ == matching_indices(views, Seq::<char>::empty(), i as int),
            decreases n - i,
        {
            assert(fuzzy_spec(views[i as int], Seq::<char>::empty()) is Some);
            filtered.push(i);
            assert(filtered@ =~= Seq::new((i + 1) as nat, |k: int| k as usize));
            i = i + 1;
        }
        FzfFind { items, filtered, query: String::new(), selected: 0 }
    }

    pub fn with_title(self, title: String) -> (r: MsgBuilder<Self>)
        ensures
            r.content == self,
            r.title@ == title@,
            r.prompt is None,
    {
        MsgBuilder::new(self, title)
    }

    /// Refilters the list for the current query and keeps the selection inside it.
    fn recompute_filter(&mut self)
        ensures
            final(self).wf(),
            final(self).item_views() == old(self).item_views(),
            final(self).query_view() == old(self).query_view(),
            final(self).selected_view() == clamp_selection(
                old(self).selected_view(),
                final(self).filtered_view().len() as int,
            ),
    {
        let mut filtered: Vec<usize> = Vec::new();
        let n = self.items.len();
        let ghost views = self.item_views();
        let mut i: usize = 0;
        while i < n
            invariant
                n == self.items@.len(),
                views == self.item_views(),
                0 <= i <= n,
                filtered@ == matching_indices(views, self.query@, i as int),
            decreases n - i,
        {
            let m = self.items[i].fuzzy_match(self.query.as_str());
            assert(views[i as int] == self.items@[i as int].display_view());
            if m.is_some() {
                filtered.push(i);
            }
            i = i + 1;
        }
        self.filtered = filtered;
        if self.selected >= self.filtered.len() && self.filtered.len() > 0 {
            self.selected = self.filtered.len() - 1;
        } else if self.filtered.len() == 0 {
            self.selected = 0;
        }
    }

    /// Handles a key: `Esc` closes, `Enter` delivers when something is listed,
    /// characters and `Backspace` edit the query (`Ctrl-u` clears it), and
    /// `Up`/`Down` move the selection within the list.
    pub fn match_key_event(&mut self, kv: &Key) -> (r: Route)
        requires
            old(self).wf(),
        ensures
            final(self).wf(),
            final(self).item_views() == old(self).item_views(),
            final(self).query_view() == next_query(old(self).query_view(), *kv),
            r == (match kv.code {
                KeyCode::Esc => Route::Drop,
                KeyCode::Enter => if old(self).filtered_view().len() == 0 {
                    Route::Keep
                } else {
                    Route::Send
                },
                _ => Route::Keep,
            }),
            final(self).selected_view() == (if edits_query(*kv) {
                clamp_selection(old(self).selected_view(), final(self).filtered_view().len() as int)
            } else if kv.code is Up && old(self).selected_view() > 0 {
                old(self).selected_view() - 1
            } else if kv.code is Down && old(self).selected_view() + 1
                < old(self).filtered_view().len() {
                old(self).selected_view() + 1
            } else {
                old(self).selected_view()
            }),
    {
        match kv.code {
            KeyCode::Esc => {
                return Route::Drop;
            },
            KeyCode::Enter => {
                if self.filtered.len() == 0 {
                    return Route::Keep;
                }
                return Route::Send;
            },
            KeyCode::Char(c) => {
                if kv.ctrl && c == 'u' {
                    self.query = String::new();
                } else {
                    string_push(&mut self.query, c);
                }
                self.recompute_filter();
            },
            KeyCode::Backspace => {
                let _ = string_pop(&mut self.query);
                self.recompute_filter();
            },
            KeyCode::Up => {
                let sel = self.selected;
                if sel > 0 {
                    self.selected = sel - 1;
                }
            },
            KeyCode::Down => {
                let sel = self.selected;
                if sel < self.filtered.len() && sel + 1 < self.filtered.len() {
                    self.selected = sel + 1;
                }
            },
            _ => {},
        }
        Route::Keep
    }

    /// The (width, height) the finder asks for: the widest item text in bytes
    /// (at least 10), and one line per listed entry (at least one) plus the
    /// query line, at most 20 (however many entries are listed).
    pub fn size(&self) -> (r: (u16, u16))
        ensures
            r.0 == (max_nat(max_width(self.item_views(), self.item_views().len() as int), 10) as u16),
            r.1 == min_nat(max_nat(self.filtered_view().len() as int, 1) + 1, 20),
    {
        let n = self.items.len();
        let ghost views = self.item_views();
        let mut w: usize = 0;
        let mut i: usize = 0;
        while i < n
            invariant
                n == self.items@.len(),
                views == self.item_views(),
                0 <= i <= n,
                w as int == max_width(views, i as int),
            decreases n - i,
        {
            let len = self.items[i].display().as_bytes().len();
            assert(views[i as int] == self.items@[i as int].display_view());
            if len > w {
                w = len;
            }
            i = i + 1;
        }
        let width: usize = if w > 10 {
            w
        } else {
            10
        };
        let flen = self.filtered.len();
        let rows: usize = if flen > 1 {
            flen
        } else {
            1
        };
        let h: u16 = if rows < 19 {
            (rows + 1) as u16
        } else {
            20
        };
        (width as u16, h)
    }

    /// The text of item `i`.
    pub fn item_text(&self, i: usize) -> (r: &str)
        requires
            i < self.item_views().len(),
        ensures
            r@ == self.item_views()[i as int],
    {
        self.items[i].display()
    }

    /// The positions of the items that match the query, in list order.
    pub fn filtered(&self) -> (r: &Vec<usize>)
        ensures
            r@ == self.filtered_view(),
    {
        &self.filtered
    }

    /// The position, among the matching items, of the selected one.
    pub fn selected(&self) -> (r: usize)
        ensures
            r == self.selected_view(),
    {
        self.selected
    }

    /// The horizontal scroll of the query line, drawn in a line `line_width`
    /// columns wide, so that the end of the query stays in view.
    pub fn query_scroll(&self, line_width: u16) -> (r: u16)
        ensures
            r == query_scroll_spec(self.query_view(), line_width),
    {
        let w = text_width(self.query.as_str()) as u16;
        let prefix = w.saturating_add(2);
        let room = line_width.saturating_sub(4);
        prefix.saturating_sub(room)
    }

    /// The query typed so far.
    pub fn query(&self) -> (r: &str)
        ensures
            r@ == self.query_view(),
    {
        self.query.as_str()
    }

    /// The index (into the full list of items) of the selected entry, which is what
    /// the finder delivers when it is closed with `Enter`.
    pub fn result(&self) -> (r: Option<usize>)
        ensures
            r == (if 0 <= self.selected_view() < self.filtered_view().len() {
                Some(self.filtered_view()[self.selected_view()])
            } else {
                None::<usize>
            }),
    {
        if self.selected < self.filtered.len() {
            Some(self.filtered[self.selected])
        } else {
            None
        }
    }
}

/// A text input pop-up: the text typed so far and the cursor.
pub struct Input {
    pub buffer: String,
    pub cursor: usize,
}

/// What the input pop-up does on a key: Enter delivers, Esc cancels,
/// anything else keeps it open.
pub open spec fn input_route(code: KeyCode) -> Route {
    match code {
        KeyCode::Enter => Route::Send,
        KeyCode::Esc => Route::Drop,
        _ => Route::Keep,
    }
}

impl Input {
    pub fn new() -> (r: Input)
        ensures
            r.buffer@.len() == 0,
            r.cursor == 0,
    {
        Input { buffer: String::new(), cursor: 0 }
    }

    /// The input pop-up with a title.
    pub fn with_title(self, title: String) -> (r: MsgBuilder<Input>)
        ensures
            r.content == self,
            r.title@ == title@,
            r.prompt is None,
    {
        MsgBuilder::new(self, title)
    }

    /// Decides what a key does to the pop-up; the text itself is not edited.
    pub fn match_key_event(&mut self, code: KeyCode) -> (r: Route)
        ensures
            r == input_route(code),
            *final(self) == *old(self),
    {
        match code {
            KeyCode::Enter => Route::Send,
            KeyCode::Esc => Route::Drop,
            _ => Route::Keep,
        }
    }
}

/// Where a key goes in a pop-up: nowhere while its prompt has the focus,
/// otherwise to its content.
pub fn popup_route(has_prompt: bool, prompt_focused: bool, content_route: Route) -> (r: Route)
    ensures
        r == (if has_prompt && prompt_focused {
            Route::Keep
        } else {
            content_route
        }),
{
    if has_prompt && prompt_focused {
        Route::Keep
    } else {
        content_route
    }
}

/// The open pop-ups, the last one on top; keys go to the top one.
pub struct PopUp<W> {
    pub content: Vec<W>,
}

impl<W> PopUp<W> {
    pub fn new() -> (r: PopUp<W>)
        ensures
            r.content@.len() == 0,
    {
        PopUp { content: Vec::new() }
    }

    /// Whether a pop-up is open.
    pub fn check(&self) -> (r: bool)
        ensures
            r == (self.content@.len() > 0),
    {
        self.content.len() > 0
    }

    /// Opens a pop-up on top of the others.
    pub fn push(&mut self, w: W)
        ensures
            final(self).content@ == old(self).content@.push(w),
    {
        self.content.push(w);
    }

    /// Applies what the top pop-up answered to a key: `Send` closes it and
    /// hands it back so that its result is delivered, `Drop` closes it,
    /// `Keep` leaves it open.
    pub fn apply_route(&mut self, route: Route) -> (r: Option<W>)
        ensures
            old(self).content@.len() == 0 ==> final(self).content@ == old(self).content@ && r is None,
            old(self).content@.len() > 0 ==> match route {
                Route::Keep => final(self).content@ == old(self).content@ && r is None,
                Route::Send => final(self).content@ == old(self).content@.drop_last() && r == Some(
                    old(self).content@.last(),
                ),
                Route::Drop => final(self).content@ == old(self).content@.drop_last() && r is None,
            },
    {
        if self.content.len() == 0 {
            return None;
        }
        match route {
            Route::Keep => None,
            Route::Send => self.content.pop(),
            Route::Drop => {
                self.content.pop();
                None
            },
        }
    }
}

proof fn lemma_matching_indices(views: Seq<Seq<char>>, q: Seq<char>, n: int)
    requires
        0 <= n <= views.len(),
        views.len() <= usize::MAX,
    ensures
        ({
            let m = matching_indices(views, q, n);
            &&& forall|i: int, j: int| 0 <= i < j < m.len() ==> m[i] < m[j]
            &&& forall|i: int|
                0 <= i < m.len() ==> m[i] < n && fuzzy_spec(views[m[i] as int], q) is Some
            &&& forall|k: int|
                0 <= k < n && (fuzzy_spec(views[k], q) is Some) ==> m.contains(k as usize)
        }),
    decreases n,
{
    if n > 0 {
        lemma_matching_indices(views, q, n - 1);
        let prev = matching_indices(views, q, n - 1);
        let m = matching_indices(views, q, n);
        if fuzzy_spec(views[n - 1], q) is Some {
            assert(m == prev.push((n - 1) as usize));
            assert(m[m.len() - 1] == (n - 1) as usize);
            assert forall|k: int|
                0 <= k < n && (fuzzy_spec(views[k], q) is Some) implies m.contains(k as usize) by {
                if k < n - 1 {
                    let w = choose|w: int| 0 <= w < prev.len() && prev[w] == k as usize;
                    assert(m[w] == prev[w]);
                } else {
                    assert(m[m.len() - 1] == k as usize);
                }
            }
        }
    }
}

/// What the finder lists is always valid: the positions of exactly the items
/// that match the query, in increasing order, each naming an item; and the
/// selection names a listed entry when there is one (it is 0 otherwise).
pub proof fn law_fzf_listing<I: FzfItem>(f: FzfFind<I>)
    requires
        f.wf(),
    ensures
        forall|i: int, j: int|
            0 <= i < j < f.filtered_view().len() ==> f.filtered_view()[i] < f.filtered_view()[j],
        forall|i: int|
            0 <= i < f.filtered_view().len() ==> f.filtered_view()[i] < f.item_views().len()
                && fuzzy_spec(f.item_views()[f.filtered_view()[i] as int], f.query_view()) is Some,
        forall|k: int|
            0 <= k < f.item_views().len() && (fuzzy_spec(f.item_views()[k], f.query_view()) is Some)
                ==> f.filtered_view().contains(k as usize),
        f.filtered_view().len() == 0 ==> f.selected_view() == 0,
        f.filtered_view().len() > 0 ==> 0 <= f.selected_view() < f.filtered_view().len(),
{
    lemma_matching_indices(f.item_views(), f.query_view(), f.item_views().len() as int);
}

/// Width in bytes of the UTF-8 character that begins with this byte.
pub open spec fn lead_width(b: u8) -> int {
    if b < 0x80 {
        1
    } else if b >= 0xf0 {
        4
    } else if b >= 0xe0 {
        3
    } else {
        2
    }
}

/// The pieces of a listed text, as byte ranges marked as matched or not, for
/// the first `n` matched positions, and where the last piece ends.
pub open spec fn highlight_pieces(bytes: Seq<u8>, pos: Seq<usize>, n: int) -> (Seq<(int, int, bool)>, int)
    decreases n,
{
    if n <= 0 {
        (seq![], 0)
    } else {
        let prev = highlight_pieces(bytes, pos, n - 1);
        let p = pos[n - 1] as int;
        let end = p + lead_width(bytes[p]);
        let r = if p > prev.1 {
            prev.0.push((prev.1, p, false))
        } else {
            prev.0
        };
        (r.push((p, end, true)), end)
    }
}

/// The pieces of a listed text: the text between matches plain, each matched
/// character highlighted, and the rest of the text plain.
pub open spec fn highlight_spec(bytes: Seq<u8>, pos: Seq<usize>) -> Seq<(int, int, bool)> {
    let (r, last) = highlight_pieces(bytes, pos, pos.len() as int);
    if last < bytes.len() {
        r.push((last, bytes.len() as int, false))
    } else {
        r
    }
}

pub open spec fn ranges_view(v: Seq<(usize, usize, bool)>) -> Seq<(int, int, bool)> {
    v.map_values(|t: (usize, usize, bool)| (t.0 as int, t.1 as int, t.2))
}

/// Splits a listed text into the byte ranges to draw plain and highlighted,
/// given the byte positions of its matched characters.
pub fn highlight_ranges(display: &str, pos: &Vec<usize>) -> (r: Vec<(usize, usize, bool)>)
    requires
        display.spec_bytes().len() + 4 <= usize::MAX,
        forall|i: int|
            0 <= i < pos@.len() ==> pos@[i] < display.spec_bytes().len() && is_char_boundary(
                display.spec_bytes(),
                #[trigger] pos@[i] as int,
            ),
    ensures
        ranges_view(r@) == highlight_spec(display.spec_bytes(), pos@),
{
    let bytes = display.as_bytes();
    let n = bytes.len();
    let mut out: Vec<(usize, usize, bool)> = Vec::new();
    let mut last: usize = 0;
    let mut k: usize = 0;
    proof {
        assert(ranges_view(out@) =~= Seq::<(int, int, bool)>::empty());
    }
    while k < pos.len()
        invariant
            k <= pos@.len(),
            n == bytes@.len(),
            bytes@ == display.spec_bytes(),
            forall|i: int| 0 <= i < pos@.len() ==> #[trigger] pos@[i] < n,
            (ranges_view(out@), last as int) == highlight_pieces(bytes@, pos@, k as int),
            last <= n + 3,
            n + 4 <= usize::MAX,
        decreases pos@.len() - k,
    {
        let p = pos[k];
        assert(pos@[k as int] < n);
        let b = bytes[p];
        let w: usize = if b < 0x80 {
            1
        } else if b >= 0xf0 {
            4
        } else if b >= 0xe0 {
            3
        } else {
            2
        };
        let ghost before = out@;
        if p > last {
            out.push((last, p, false));
            proof {
                assert(ranges_view(out@) =~= ranges_view(before).push((last as int, p as int, false)));
            }
        }
        let ghost mid = out@;
        out.push((p, p + w, true));
        proof {
            assert(ranges_view(out@) =~= ranges_view(mid).push((p as int, p + w, true)));
        }
        last = p + w;
        k = k + 1;
    }
    if last < n {
        let ghost before = out@;
        out.push((last, n, false));
        proof {
            assert(ranges_view(out@) =~= ranges_view(before).push((last as int, n as int, false)));
        }
    }
    out
}

} // verus!
