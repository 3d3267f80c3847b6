use vstd::prelude::*;
use vstd::utf8::*;
use vstd::string::*;

verus! {

broadcast use vstd::utf8::char_is_scalar;

/// The lower-case form of a text, as Unicode defines it (`str::to_lowercase`).
pub uninterp spec fn lowercase(s: Seq<char>) -> Seq<char>;

/// Calls `str::to_lowercase`. Trusted: the result is the lower-case form of
/// the argument, a function of the argument's characters alone.
#[verifier::external_body]
fn to_lowercase(s: &str) -> (r: String)
    ensures
        r@ == lowercase(s@),
{
    s.to_lowercase()
}

/// Number of bytes of the UTF-8 encoding of `c`.
pub open spec fn utf8_width(c: char) -> nat {
    if (c as u32) <= 0x7f {
        1
    } else if (c as u32) <= 0x7ff {
        2
    } else if (c as u32) <= 0xffff {
        3
    } else {
        4
    }
}

/// Byte offset, in the UTF-8 encoding of `s`, of the character at index `i`.
pub open spec fn byte_offset(s: Seq<char>, i: int) -> int {
    encode_utf8(s.take(i)).len() as int
}

/// The first index `j >= from` with `d[j] == c`.
pub open spec fn first_from(d: Seq<char>, c: char, from: int) -> Option<int>
    decreases d.len() - from,
{
    if from < 0 || from >= d.len() {
        None
    } else if d[from] == c {
        Some(from)
    } else {
        first_from(d, c, from + 1)
    }
}

/// Puts `acc` in front of the sequence inside `o`, if there is one.
pub open spec fn prefix_opt(acc: Seq<int>, o: Option<Seq<int>>) -> Option<Seq<int>> {
    match o {
        Some(r) => Some(acc + r),
        None => None,
    }
}

/// Greedy left-to-right embedding of `q[k..]` into `d[from..]`: the character
/// indices at which each query character is found, each search starting just
/// after the previous find; `None` when some character is not found.
pub open spec fn greedy_from(d: Seq<char>, q: Seq<char>, k: int, from: int) -> Option<Seq<int>>
    decreases q.len() - k,
{
    if k < 0 || k >= q.len() {
        Some(seq![])
    } else {
        match first_from(d, q[k], from) {
            None => None,
            Some(j) => prefix_opt(seq![j], greedy_from(d, q, k + 1, j + 1)),
        }
    }
}

/// Maps character indices of `d` to their byte offsets.
pub open spec fn to_byte_offsets(d: Seq<char>, idx: Seq<int>) -> Seq<int> {
    idx.map_values(|j: int| byte_offset(d, j))
}

/// What a fuzzy match of `query` against `display` gives: for an empty query an
/// empty list; otherwise, after lower-casing both, the byte offsets (in the
/// lower-cased display) of the greedy subsequence embedding of the query, or
/// `None` when the query is not a subsequence.
pub open spec fn fuzzy_spec(display: Seq<char>, query: Seq<char>) -> Option<Seq<int>> {
    if query.len() == 0 {
        Some(seq![])
    } else {
        let d = lowercase(display);
        match greedy_from(d, lowercase(query), 0, 0) {
            Some(idx) => Some(to_byte_offsets(d, idx)),
            None => None,
        }
    }
}

/// The view of a list of byte positions as integers.
pub open spec fn positions_view(r: Option<Vec<usize>>) -> Option<Seq<int>> {
    match r {
        Some(v) => Some(v@.map_values(|x: usize| x as int)),
        None => None,
    }
}

proof fn lemma_encode_scalar_len(c: char)
    ensures
        encode_scalar(c as u32).len() == utf8_width(c),
{
    assert(is_scalar(c as u32));
}

proof fn lemma_encode_utf8_append(a: Seq<char>, b: Seq<char>)
    ensures
        encode_utf8(a + b) == encode_utf8(a) + encode_utf8(b),
    decreases a.len(),
{
    if a.len() == 0 {
        assert(a + b =~= b);
        assert(encode_utf8(a) =~= Seq::<u8>::empty());
        assert(encode_utf8(a) + encode_utf8(b) =~= encode_utf8(b));
    } else {
        assert((a + b).drop_first() =~= a.drop_first() + b);
        lemma_encode_utf8_append(a.drop_first(), b);
        assert((a + b)[0] == a[0]);
        assert(encode_utf8(a + b) == encode_scalar(a[0] as u32) + encode_utf8(a.drop_first() + b));
        assert(encode_utf8(a) == encode_scalar(a[0] as u32) + encode_utf8(a.drop_first()));
        assert(encode_utf8(a + b) =~= encode_utf8(a) + encode_utf8(b));
    }
}

/// The byte offset of the next character is that of the current one plus its width,
/// and every offset is bounded by the encoding's length.
pub proof fn lemma_byte_offset_step(s: Seq<char>, i: int)
    requires
        0 <= i < s.len(),
    ensures
        byte_offset(s, i + 1) == byte_offset(s, i) + utf8_width(s[i]),
        byte_offset(s, i + 1) <= encode_utf8(s).len(),
{
    assert(s.take(i + 1) =~= s.take(i) + seq![s[i]]);
    lemma_encode_utf8_append(s.take(i), seq![s[i]]);
    assert(seq![s[i]].drop_first() =~= Seq::<char>::empty());
    assert(encode_utf8(Seq::<char>::empty()) =~= Seq::<u8>::empty());
    assert(encode_utf8(seq![s[i]]) =~= encode_scalar(s[i] as u32));
    lemma_encode_scalar_len(s[i]);
    assert(s =~= s.take(i + 1) + s.skip(i + 1));
    lemma_encode_utf8_append(s.take(i + 1), s.skip(i + 1));
}

/// Items that a fuzzy finder can list and search.
pub trait FzfItem {
    /// The text under which the item is listed.
    spec fn display_view(&self) -> Seq<char>;

    fn display(&self) -> (r: &str)
        ensures
            r@ == self.display_view(),
    ;

    /// Matches `query` against the item's text, ignoring case: each query
    /// character must be found after the previous one. Returns the byte
    /// offsets of the matched characters in the lower-cased text.
    fn fuzzy_match(&self, query: &str) -> (r: Option<Vec<usize>>)
        ensures
            positions_view(r) == fuzzy_spec(self.display_view(), query@),
    {
        if query.unicode_len() == 0 {
            return Some(Vec::new());
        }
        let lower_display = to_lowercase(self.display());
        let lower_query = to_lowercase(query);
        let ghost d = lower_display@;
        let ghost q = lower_query@;
        let dstr = lower_display.as_str();
        let qstr = lower_query.as_str();
        let bytes_len = dstr.as_bytes().len();
        let n = dstr.unicode_len();
        let m = qstr.unicode_len();
        let mut cur: usize = 0;
        let mut cur_off: usize = 0;
        let mut positions: Vec<usize> = Vec::new();
        let ghost mut acc: Seq<int> = seq![];
        let mut k: usize = 0;
        assert(byte_offset(d, 0) == 0) by {
            assert(d.take(0) =~= Seq::<char>::empty());
            assert(encode_utf8(Seq::<char>::empty()) =~= Seq::<u8>::empty());
        }
        while k < m
            invariant
                n == d.len(),
                m == q.len(),
                bytes_len == encode_utf8(d).len(),
                d == lowercase(self.display_view()),
                q == lowercase(query@),
                query@.len() > 0,
                dstr@ == d,
                qstr@ == q,
                0 <= k <= m,
                0 <= cur <= n,
                cur_off == byte_offset(d, cur as int),
                positions@.len() == acc.len(),
                forall|i: int|
                    0 <= i < acc.len() ==> #[trigger] positions@[i] as int == byte_offset(d, acc[i]),
                greedy_from(d, q, 0, 0) == prefix_opt(acc, greedy_from(d, q, k as int, cur as int)),
            decreases m - k,
        {
            let qc = qstr.get_char(k);
            let mut j = cur;
            let mut j_off = cur_off;
            while j < n && dstr.get_char(j) != qc
                invariant
                    n == d.len(),
                    bytes_len == encode_utf8(d).len(),
                    dstr@ == d,
                    cur <= j <= n,
                    j_off == byte_offset(d, j as int),
                    first_from(d, qc, cur as int) == first_from(d, qc, j as int),
                decreases n - j,
            {
                proof {
                    lemma_byte_offset_step(d, j as int);
                }
                j_off = j_off + if (dstr.get_char(j) as u32) <= 0x7f {
                    1
                } else if (dstr.get_char(j) as u32) <= 0x7ff {
                    2
                } else if (dstr.get_char(j) as u32) <= 0xffff {
                    3
                } else {
                    4
                };
                j = j + 1;
            }
            if j == n {
                assert(first_from(d, qc, j as int) == None::<int>);
                assert(greedy_from(d, q, k as int, cur as int) == None::<Seq<int>>);
                return None;
            }
            assert(first_from(d, qc, j as int) == Some(j as int));
            proof {
                lemma_byte_offset_step(d, j as int);
                assert(prefix_opt(acc, prefix_opt(seq![j as int], greedy_from(d, q, k + 1, j + 1)))
                    == prefix_opt(acc.push(j as int), greedy_from(d, q, k + 1, j + 1))) by {
                    match greedy_from(d, q, k + 1, j + 1) {
                        Some(r) => {
                            assert(acc + (seq![j as int] + r) =~= acc.push(j as int) + r);
                        },
                        None => {},
                    }
                }
                acc = acc.push(j as int);
            }
            positions.push(j_off);
            let w: usize = if (qc as u32) <= 0x7f {
                1
            } else if (qc as u32) <= 0x7ff {
                2
            } else if (qc as u32) <= 0xffff {
                3
            } else {
                4
            };
            cur_off = j_off + w;
            cur = j + 1;
            k = k + 1;
        }
        proof {
            assert(greedy_from(d, q, k as int, cur as int) == Some(Seq::<int>::empty()));
            assert(acc + Seq::<int>::empty() =~= acc);
            assert(positions@.map_values(|x: usize| x as int) =~= to_byte_offsets(d, acc));
        }
        Some(positions)
    }
}

impl FzfItem for String {
    open spec fn display_view(&self) -> Seq<char> {
        self@
    }

    fn display(&self) -> (r: &str) {
        self.as_str()
    }
}

impl<'a> FzfItem for &'a str {
    open spec fn display_view(&self) -> Seq<char> {
        (*self)@
    }

    fn display(&self) -> (r: &str) {
        *self
    }
}

} // verus!
