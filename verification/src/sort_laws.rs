use vstd::prelude::*;

use crate::sort::{insert_pos, lemma_insert_pos_bound, lemma_stable_sort_len, stable_sort};
use crate::profile_tab::pair_le;
use crate::text::lex_le;

verus! {

/// `le` is a total preorder: any two elements compare, and it chains.
pub open spec fn total_preorder<A>(le: spec_fn(A, A) -> bool) -> bool {
    &&& forall|a: A, b: A| #[trigger] le(a, b) || #[trigger] le(b, a)
    &&& forall|a: A, b: A, c: A| #[trigger] le(a, b) && #[trigger] le(b, c) ==> le(a, c)
}

/// Every element is placed before all the elements that follow it.
pub open spec fn sorted_by<A>(s: Seq<A>, le: spec_fn(A, A) -> bool) -> bool {
    forall|i: int, j: int| 0 <= i < j < s.len() ==> le(#[trigger] s[i], #[trigger] s[j])
}

proof fn lemma_insert_pos_facts<A>(s: Seq<A>, x: A, le: spec_fn(A, A) -> bool, i: int)
    requires
        0 <= i <= s.len(),
    ensures
        forall|j: int| i <= j < insert_pos(s, x, le, i) ==> le(s[j], x),
        insert_pos(s, x, le, i) < s.len() ==> !le(s[insert_pos(s, x, le, i)], x),
    decreases s.len() - i,
{
    if i < s.len() && le(s[i], x) {
        lemma_insert_pos_facts(s, x, le, i + 1);
    }
}

/// A stable insertion sort under a total preorder yields a sorted sequence.
pub proof fn law_stable_sort_sorted<A>(s: Seq<A>, le: spec_fn(A, A) -> bool)
    requires
        total_preorder(le),
    ensures
        sorted_by(stable_sort(s, le), le),
    decreases s.len(),
{
    if s.len() > 0 {
        let t = stable_sort(s.drop_last(), le);
        law_stable_sort_sorted(s.drop_last(), le);
        lemma_stable_sort_len(s.drop_last(), le);
        let x = s.last();
        lemma_insert_pos_bound(t, x, le, 0);
        lemma_insert_pos_facts(t, x, le, 0);
        let p = insert_pos(t, x, le, 0);
        let r = t.insert(p, x);
        assert(r == stable_sort(s, le));
        assert forall|i: int, j: int| 0 <= i < j < r.len() implies le(#[trigger] r[i], #[trigger] r[j]) by {
            if j < p {
                assert(r[i] == t[i] && r[j] == t[j]);
            } else if j == p {
                assert(r[i] == t[i] && r[j] == x);
            } else if i < p {
                assert(r[i] == t[i] && r[j] == t[j - 1]);
            } else if i == p {
                assert(r[i] == x && r[j] == t[j - 1]);
                assert(!le(t[p], x));
                assert(le(t[p], x) || le(x, t[p]));
                if j - 1 > p {
                    assert(le(t[p], t[j - 1]));
                    assert(le(x, t[p]) && le(t[p], t[j - 1]) ==> le(x, t[j - 1]));
                }
            } else {
                assert(r[i] == t[i - 1] && r[j] == t[j - 1]);
            }
        }
    }
}

proof fn lemma_lex_total(a: Seq<char>, b: Seq<char>)
    ensures
        lex_le(a, b) || lex_le(b, a),
    decreases a.len(),
{
    if a.len() > 0 && b.len() > 0 {
        if a[0] == b[0] {
            lemma_lex_total(a.drop_first(), b.drop_first());
        } else {
            vstd::utf8::char_u32_cast(a[0], a[0] as u32);
            vstd::utf8::char_u32_cast(b[0], b[0] as u32);
            assert((a[0] as u32) != (b[0] as u32));
        }
    }
}

proof fn lemma_lex_trans(a: Seq<char>, b: Seq<char>, c: Seq<char>)
    requires
        lex_le(a, b),
        lex_le(b, c),
    ensures
        lex_le(a, c),
    decreases a.len(),
{
    if a.len() > 0 && b.len() > 0 && c.len() > 0 && a[0] == b[0] && b[0] == c[0] {
        lemma_lex_trans(a.drop_first(), b.drop_first(), c.drop_first());
    }
}

/// Code-point order on texts is a total preorder, so sorting texts by it
/// yields them in order.
pub proof fn law_lex_order_sorts(s: Seq<Seq<char>>)
    ensures
        total_preorder(|a: Seq<char>, b: Seq<char>| lex_le(a, b)),
        sorted_by(
            stable_sort(s, |a: Seq<char>, b: Seq<char>| lex_le(a, b)),
            |a: Seq<char>, b: Seq<char>| lex_le(a, b),
        ),
{
    let le = |a: Seq<char>, b: Seq<char>| lex_le(a, b);
    assert forall|a: Seq<char>, b: Seq<char>| #[trigger] le(a, b) || #[trigger] le(b, a) by {
        lemma_lex_total(a, b);
    }
    assert forall|a: Seq<char>, b: Seq<char>, c: Seq<char>| #[trigger] le(a, b) && #[trigger] le(b, c) implies le(a, c) by {
        lemma_lex_trans(a, b, c);
    }
    law_stable_sort_sorted(s, le);
}

proof fn lemma_lex_antisym(a: Seq<char>, b: Seq<char>)
    requires
        lex_le(a, b),
        lex_le(b, a),
    ensures
        a == b,
    decreases a.len(),
{
    if a.len() > 0 && b.len() > 0 {
        if a[0] == b[0] {
            lemma_lex_antisym(a.drop_first(), b.drop_first());
            assert(a =~= seq![a[0]] + a.drop_first());
            assert(b =~= seq![b[0]] + b.drop_first());
        } else {
            vstd::utf8::char_u32_cast(a[0], a[0] as u32);
            vstd::utf8::char_u32_cast(b[0], b[0] as u32);
        }
    }
}

/// The order of the profile list (by name, then by update time) is a total
/// preorder, so the sorted list is in that order.
pub proof fn law_profile_order_sorts(s: Seq<(Seq<char>, Seq<char>)>)
    ensures
        total_preorder(|a: (Seq<char>, Seq<char>), b: (Seq<char>, Seq<char>)| pair_le(a, b)),
        sorted_by(
            stable_sort(s, |a: (Seq<char>, Seq<char>), b: (Seq<char>, Seq<char>)| pair_le(a, b)),
            |a: (Seq<char>, Seq<char>), b: (Seq<char>, Seq<char>)| pair_le(a, b),
        ),
{
    let le = |a: (Seq<char>, Seq<char>), b: (Seq<char>, Seq<char>)| pair_le(a, b);
    assert forall|a: (Seq<char>, Seq<char>), b: (Seq<char>, Seq<char>)| #[trigger] le(a, b) || #[trigger] le(b, a) by {
        lemma_lex_total(a.0, b.0);
        lemma_lex_total(a.1, b.1);
    }
    assert forall|a: (Seq<char>, Seq<char>), b: (Seq<char>, Seq<char>), c: (Seq<char>, Seq<char>)|
        #[trigger] le(a, b) && #[trigger] le(b, c) implies le(a, c) by {
        if a.0 != b.0 && b.0 != c.0 {
            lemma_lex_trans(a.0, b.0, c.0);
            if a.0 == c.0 {
                lemma_lex_antisym(a.0, b.0);
            }
        } else if a.0 != b.0 {
            assert(b.0 == c.0);
        } else if b.0 != c.0 {
            assert(a.0 == b.0);
        } else {
            lemma_lex_trans(a.1, b.1, c.1);
        }
    }
    law_stable_sort_sorted(s, le);
}

} // verus!
