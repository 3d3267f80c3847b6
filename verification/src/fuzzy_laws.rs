use vstd::prelude::*;

use crate::fuzzy::{
    byte_offset, first_from, fuzzy_spec, greedy_from, lemma_byte_offset_step, lowercase,
    to_byte_offsets, utf8_width,
};

verus! {

/// `e` places `q[k..]` into `d` at or after position `from`: one position per
/// character, strictly increasing, each holding that character.
pub open spec fn embeds(d: Seq<char>, q: Seq<char>, k: int, from: int, e: Seq<int>) -> bool {
    &&& e.len() == q.len() - k
    &&& forall|t: int| 0 <= t < e.len() ==> from <= #[trigger] e[t] < d.len() && d[e[t]] == q[k + t]
    &&& forall|a: int, b: int| 0 <= a < b < e.len() ==> #[trigger] e[a] < #[trigger] e[b]
}

/// `q` is a subsequence of `d`: its characters occur in `d` in order.
pub open spec fn is_subsequence(q: Seq<char>, d: Seq<char>) -> bool {
    exists|e: Seq<int>| embeds(d, q, 0, 0, e)
}

proof fn lemma_first_from(d: Seq<char>, c: char, from: int)
    requires
        0 <= from,
    ensures
        first_from(d, c, from) matches Some(j) ==> from <= j < d.len() && d[j] == c && forall|i: int|
            from <= i < j ==> d[i] != c,
        first_from(d, c, from) is None ==> forall|i: int| from <= i < d.len() ==> d[i] != c,
    decreases d.len() - from,
{
    if from < d.len() && d[from] != c {
        lemma_first_from(d, c, from + 1);
    }
}

proof fn lemma_greedy_sound(d: Seq<char>, q: Seq<char>, k: int, from: int)
    requires
        0 <= k <= q.len(),
        0 <= from,
    ensures
        greedy_from(d, q, k, from) matches Some(e) ==> embeds(d, q, k, from, e),
    decreases q.len() - k,
{
    if k < q.len() {
        lemma_first_from(d, q[k], from);
        match first_from(d, q[k], from) {
            None => {},
            Some(j) => {
                lemma_greedy_sound(d, q, k + 1, j + 1);
                match greedy_from(d, q, k + 1, j + 1) {
                    None => {},
                    Some(rest) => {
                        let e = seq![j] + rest;
                        assert(greedy_from(d, q, k, from) == Some(e));
                        assert forall|t: int| 0 <= t < e.len() implies from <= #[trigger] e[t] < d.len()
                            && d[e[t]] == q[k + t] by {
                            if t > 0 {
                                assert(e[t] == rest[t - 1]);
                            }
                        }
                        assert forall|a: int, b: int| 0 <= a < b < e.len() implies #[trigger] e[a]
                            < #[trigger] e[b] by {
                            assert(e[b] == rest[b - 1]);
                            if a > 0 {
                                assert(e[a] == rest[a - 1]);
                            }
                        }
                    },
                }
            },
        }
    } else {
        assert(greedy_from(d, q, k, from) == Some(Seq::<int>::empty()));
    }
}

proof fn lemma_greedy_complete(d: Seq<char>, q: Seq<char>, k: int, from: int, e: Seq<int>)
    requires
        0 <= k <= q.len(),
        0 <= from,
        embeds(d, q, k, from, e),
    ensures
        greedy_from(d, q, k, from) is Some,
    decreases q.len() - k,
{
    if k < q.len() {
        assert(from <= e[0] < d.len() && d[e[0]] == q[k + 0]);
        lemma_first_from(d, q[k], from);
        let j = first_from(d, q[k], from)->0;
        assert(j <= e[0]);
        let rest = e.drop_first();
        assert forall|t: int| 0 <= t < rest.len() implies j + 1 <= #[trigger] rest[t] < d.len() && d[rest[t]]
            == q[k + 1 + t] by {
            assert(rest[t] == e[t + 1]);
            assert(e[0] < e[t + 1]);
        }
        assert forall|a: int, b: int| 0 <= a < b < rest.len() implies #[trigger] rest[a] < #[trigger] rest[b] by {
            assert(rest[a] == e[a + 1]);
            assert(rest[b] == e[b + 1]);
        }
        lemma_greedy_complete(d, q, k + 1, j + 1, rest);
    }
}

proof fn lemma_byte_offset_increasing(s: Seq<char>, i: int, j: int)
    requires
        0 <= i < j <= s.len(),
    ensures
        byte_offset(s, i) < byte_offset(s, j),
    decreases j - i,
{
    lemma_byte_offset_step(s, j - 1);
    assert(utf8_width(s[j - 1]) >= 1);
    if i < j - 1 {
        lemma_byte_offset_increasing(s, i, j - 1);
    }
}

/// A query matches an item exactly when, ignoring case, its characters occur
/// in the item's text in order; an empty query matches every item. The
/// positions given back are those of such an occurrence (the earliest one,
/// found character by character), as byte offsets into the lower-cased text,
/// so they strictly increase and stay inside it.
pub proof fn law_fuzzy_match_is_subsequence(display: Seq<char>, query: Seq<char>)
    ensures
        fuzzy_spec(display, query) is Some <==> (query.len() == 0 || is_subsequence(
            lowercase(query),
            lowercase(display),
        )),
        query.len() == 0 ==> fuzzy_spec(display, query) == Some(Seq::<int>::empty()),
        query.len() > 0 ==> (fuzzy_spec(display, query) matches Some(p) ==> exists|e: Seq<int>|
            embeds(lowercase(display), lowercase(query), 0, 0, e) && p == to_byte_offsets(
                lowercase(display),
                e,
            )),
        fuzzy_spec(display, query) matches Some(p) ==> (forall|a: int, b: int|
            0 <= a < b < p.len() ==> #[trigger] p[a] < #[trigger] p[b]),
{
    let d = lowercase(display);
    let q = lowercase(query);
    if query.len() > 0 {
        lemma_greedy_sound(d, q, 0, 0);
        match greedy_from(d, q, 0, 0) {
            Some(e) => {
                assert(embeds(d, q, 0, 0, e));
                let p = to_byte_offsets(d, e);
                assert forall|a: int, b: int| 0 <= a < b < p.len() implies #[trigger] p[a] < #[trigger] p[b] by {
                    assert(e[a] < e[b]);
                    lemma_byte_offset_increasing(d, e[a], e[b]);
                }
            },
            None => {
                if is_subsequence(q, d) {
                    let e = choose|e: Seq<int>| embeds(d, q, 0, 0, e);
                    lemma_greedy_complete(d, q, 0, 0, e);
                }
            },
        }
    }
}

} // verus!
