use vstd::prelude::*;

use crate::text::{lex_le, text_le};

verus! {

/// The first index `j >= i` at which `x` must be inserted into `s` so that it
/// comes after every element that is not greater than it.
pub open spec fn insert_pos<A>(s: Seq<A>, x: A, le: spec_fn(A, A) -> bool, i: int) -> int
    decreases s.len() - i,
{
    if i < 0 || i >= s.len() {
        s.len() as int
    } else if !le(s[i], x) {
        i
    } else {
        insert_pos(s, x, le, i + 1)
    }
}

/// Stable insertion sort of `s` under the order `le`: each element, in turn,
/// goes after the elements already placed that are not greater than it, so
/// equal elements keep their relative order.
pub open spec fn stable_sort<A>(s: Seq<A>, le: spec_fn(A, A) -> bool) -> Seq<A>
    decreases s.len(),
{
    if s.len() == 0 {
        s
    } else {
        let sorted = stable_sort(s.drop_last(), le);
        sorted.insert(insert_pos(sorted, s.last(), le, 0), s.last())
    }
}

/// Order on (key, value) pairs by key alone.
pub open spec fn key_le<T>() -> spec_fn((int, T), (int, T)) -> bool {
    |a: (int, T), b: (int, T)| a.0 <= b.0
}

/// Pairs each key with the value at the same position.
pub open spec fn zip_keys(keys: Seq<u64>, vals: Seq<Seq<char>>) -> Seq<(int, Seq<char>)> {
    Seq::new(vals.len(), |i: int| (keys[i] as int, vals[i]))
}

/// The values of pairs, in order.
pub open spec fn values_of(s: Seq<(int, Seq<char>)>) -> Seq<Seq<char>> {
    s.map_values(|p: (int, Seq<char>)| p.1)
}

/// The views of a list of strings.
pub open spec fn strings_view(v: Seq<String>) -> Seq<Seq<char>> {
    v.map_values(|s: String| s@)
}

pub proof fn lemma_insert_pos_bound<A>(s: Seq<A>, x: A, le: spec_fn(A, A) -> bool, i: int)
    requires
        0 <= i <= s.len(),
    ensures
        i <= insert_pos(s, x, le, i) <= s.len(),
    decreases s.len() - i,
{
    if i < s.len() && le(s[i], x) {
        lemma_insert_pos_bound(s, x, le, i + 1);
    }
}

/// Sorting keeps the length.
pub proof fn lemma_stable_sort_len<A>(s: Seq<A>, le: spec_fn(A, A) -> bool)
    ensures
        stable_sort(s, le).len() == s.len(),
    decreases s.len(),
{
    if s.len() > 0 {
        lemma_stable_sort_len(s.drop_last(), le);
        lemma_insert_pos_bound(stable_sort(s.drop_last(), le), s.last(), le, 0);
    }
}

/// Sorting only rearranges: the result holds the same elements, as many times each.
pub proof fn lemma_stable_sort_permutes<A>(s: Seq<A>, le: spec_fn(A, A) -> bool)
    ensures
        stable_sort(s, le).to_multiset() == s.to_multiset(),
    decreases s.len(),
{
    broadcast use vstd::seq_lib::group_to_multiset_ensures;
    if s.len() > 0 {
        let t = stable_sort(s.drop_last(), le);
        lemma_stable_sort_permutes(s.drop_last(), le);
        lemma_stable_sort_len(s.drop_last(), le);
        lemma_insert_pos_bound(t, s.last(), le, 0);
        let p = insert_pos(t, s.last(), le, 0);
        t.insert_ensures(p, s.last());
        vstd::seq_lib::lemma_multiset_commutative(t.take(p), t.skip(p));
        assert(t =~= t.take(p) + t.skip(p));
        assert(t.insert(p, s.last()) =~= t.take(p) + (seq![s.last()] + t.skip(p)));
        vstd::seq_lib::lemma_multiset_commutative(t.take(p), seq![s.last()] + t.skip(p));
        vstd::seq_lib::lemma_multiset_commutative(seq![s.last()], t.skip(p));
        assert(s =~= s.drop_last().push(s.last()));
    }
}

/// Sorts texts in lexicographic order (stable).
pub fn sort_texts(v: Vec<String>) -> (r: Vec<String>)
    ensures
        strings_view(r@) == stable_sort(strings_view(v@), |a: Seq<char>, b: Seq<char>| lex_le(a, b)),
{
    let ghost le = |a: Seq<char>, b: Seq<char>| lex_le(a, b);
    let ghost input = strings_view(v@);
    let mut res: Vec<String> = Vec::new();
    let n = v.len();
    let mut i: usize = 0;
    while i < n
        invariant
            n == v@.len(),
            input == strings_view(v@),
            0 <= i <= n,
            le == (|a: Seq<char>, b: Seq<char>| lex_le(a, b)),
            strings_view(res@) == stable_sort(input.take(i as int), le),
        decreases n - i,
    {
        let x = v[i].clone();
        let ghost s = strings_view(res@);
        let mut j: usize = 0;
        while j < res.len() && text_le(res[j].as_str(), x.as_str())
            invariant
                s == strings_view(res@),
                0 <= j <= res@.len(),
                le == (|a: Seq<char>, b: Seq<char>| lex_le(a, b)),
                insert_pos(s, x@, le, 0) == insert_pos(s, x@, le, j as int),
            decreases res@.len() - j,
        {
            j = j + 1;
        }
        assert(insert_pos(s, x@, le, j as int) == j);
        assert(input.take(i + 1).drop_last() =~= input.take(i as int));
        assert(input.take(i + 1).last() == x@);
        res.insert(j, x);
        assert(strings_view(res@) =~= s.insert(j as int, x@));
        i = i + 1;
    }
    assert(input.take(n as int) =~= input);
    res
}

/// Sorts values by the key at the same position (stable: equal keys keep their order).
pub fn sort_by_keys(vals: Vec<String>, keys: Vec<u64>) -> (r: Vec<String>)
    requires
        keys@.len() == vals@.len(),
    ensures
        strings_view(r@) == values_of(
            stable_sort(zip_keys(keys@, strings_view(vals@)), key_le::<Seq<char>>()),
        ),
{
    let ghost le = key_le::<Seq<char>>();
    let ghost input = zip_keys(keys@, strings_view(vals@));
    let mut res: Vec<(u64, String)> = Vec::new();
    let n = vals.len();
    let mut i: usize = 0;
    while i < n
        invariant
            n == vals@.len(),
            keys@.len() == n,
            input == zip_keys(keys@, strings_view(vals@)),
            0 <= i <= n,
            le == key_le::<Seq<char>>(),
            res@.map_values(|p: (u64, String)| (p.0 as int, p.1@)) == stable_sort(
                input.take(i as int),
                le,
            ),
        decreases n - i,
    {
        let x = (keys[i], vals[i].clone());
        let ghost xv = (x.0 as int, x.1@);
        let ghost s = res@.map_values(|p: (u64, String)| (p.0 as int, p.1@));
        let mut j: usize = 0;
        while j < res.len() && res[j].0 <= x.0
            invariant
                s == res@.map_values(|p: (u64, String)| (p.0 as int, p.1@)),
                0 <= j <= res@.len(),
                le == key_le::<Seq<char>>(),
                xv == (x.0 as int, x.1@),
                insert_pos(s, xv, le, 0) == insert_pos(s, xv, le, j as int),
            decreases res@.len() - j,
        {
            j = j + 1;
        }
        assert(insert_pos(s, xv, le, j as int) == j);
        assert(input.take(i + 1).drop_last() =~= input.take(i as int));
        assert(input.take(i + 1).last() == xv);
        res.insert(j, x);
        assert(res@.map_values(|p: (u64, String)| (p.0 as int, p.1@)) =~= s.insert(j as int, xv));
        i = i + 1;
    }
    assert(input.take(n as int) =~= input);
    let ghost sorted = res@.map_values(|p: (u64, String)| (p.0 as int, p.1@));
    let mut out: Vec<String> = Vec::new();
    let mut k: usize = 0;
    while k < res.len()
        invariant
            0 <= k <= res@.len(),
            sorted == res@.map_values(|p: (u64, String)| (p.0 as int, p.1@)),
            strings_view(out@) == values_of(sorted).take(k as int),
        decreases res@.len() - k,
    {
        let c = res[k].1.clone();
        assert(sorted[k as int] == (res@[k as int].0 as int, res@[k as int].1@));
        assert(values_of(sorted)[k as int] == c@);
        let ghost before = out@;
        out.push(c);
        assert(out@ =~= before.push(c));
        assert(strings_view(out@) =~= strings_view(before).push(c@));
        assert(values_of(sorted).take(k + 1) =~= values_of(sorted).take(k as int).push(c@));
        k = k + 1;
    }
    assert(values_of(sorted).take(res@.len() as int) =~= values_of(sorted));
    out
}

} // verus!
