use vstd::prelude::*;

use crate::sort::{key_le, lemma_stable_sort_permutes, stable_sort, values_of, zip_keys};
use crate::text::lex_le;
use crate::tree::{
    collapse_lines, entry_lines, expanded_map, has_kids, is_marked, last_index_map, lookup, lookup_from,
    ordered_top, rebuilt, top_lines, top_names, unique_keys, with_expanded, NodeType, NodeView, ProxyView,
};

verus! {

broadcast use vstd::seq_lib::to_multiset_contains;

/// The proxy stored under `x` is a visible group.
pub open spec fn visible_group(e: Seq<(Seq<char>, ProxyView)>, x: Seq<char>) -> bool {
    lookup(e, x) matches Some(p) && !p.hidden && has_kids(p)
}

proof fn lemma_lookup_at(e: Seq<(Seq<char>, ProxyView)>, j: int, i: int)
    requires
        unique_keys(e),
        0 <= i <= j < e.len(),
    ensures
        lookup_from(e, e[j].0, i) == Some(e[j].1),
    decreases j - i,
{
    if i < j {
        assert(e[i].0 != e[j].0);
        lemma_lookup_at(e, j, i + 1);
    }
}

pub proof fn lemma_top_names_visible(e: Seq<(Seq<char>, ProxyView)>, n: int)
    requires
        unique_keys(e),
        0 <= n <= e.len(),
    ensures
        forall|x: Seq<char>| #[trigger] top_names(e, n).contains(x) ==> visible_group(e, x),
    decreases n,
{
    if n > 0 {
        lemma_top_names_visible(e, n - 1);
        lemma_lookup_at(e, n - 1, 0);
        let t = top_names(e, n - 1);
        assert forall|x: Seq<char>| #[trigger] top_names(e, n).contains(x) implies visible_group(
            e,
            x,
        ) by {
            if !e[n - 1].1.hidden && has_kids(e[n - 1].1) {
                let tp = t.push(e[n - 1].0);
                let i = choose|i: int| 0 <= i < tp.len() && #[trigger] tp[i] == x;
                if i < t.len() {
                    assert(t[i] == x);
                    assert(t.contains(x));
                }
            }
        }
    }
}

pub proof fn lemma_ordered_top_members(e: Seq<(Seq<char>, ProxyView)>, sorted: bool)
    ensures
        forall|x: Seq<char>| #[trigger] ordered_top(e, sorted).contains(x) ==> top_names(e, e.len() as int).contains(x),
{
    let t = top_names(e, e.len() as int);
    if sorted {
        let le = |a: Seq<char>, b: Seq<char>| lex_le(a, b);
        lemma_stable_sort_permutes(t, le);
        assert forall|x: Seq<char>| #[trigger] ordered_top(e, sorted).contains(x) implies t.contains(x) by {
            assert(stable_sort(t, le).to_multiset().count(x) > 0);
        }
    } else {
        match lookup(e, "GLOBAL"@) {
            Some(g) => match g.all {
                Some(all) => {
                    let z = zip_keys(Seq::new(t.len(), |i: int| crate::tree::global_rank(all, t[i])), t);
                    let srt = stable_sort(z, key_le::<Seq<char>>());
                    lemma_stable_sort_permutes(z, key_le::<Seq<char>>());
                    assert forall|x: Seq<char>| #[trigger] ordered_top(e, sorted).contains(x) implies t.contains(x) by {
                        let vals = values_of(srt);
                        let i = choose|i: int| 0 <= i < vals.len() && #[trigger] vals[i] == x;
                        assert(srt.contains(srt[i]));
                        assert(srt.to_multiset().count(srt[i]) > 0);
                        assert(z.contains(srt[i]));
                        let j = choose|j: int| 0 <= j < z.len() && #[trigger] z[j] == srt[i];
                        assert(t[j] == x);
                    }
                },
                None => {},
            },
            None => {},
        }
    }
}

/// Every group line shows as expanded exactly when the map marks its name.
pub proof fn lemma_folder_lines(
    e: Seq<(Seq<char>, ProxyView)>,
    names: Seq<Seq<char>>,
    exp: Map<Seq<char>, bool>,
    d: bool,
    n: int,
)
    requires
        0 <= n <= names.len(),
    ensures
        forall|i: int|
            0 <= i < top_lines(e, names, exp, d, n).len() && (#[trigger] top_lines(
                e,
                names,
                exp,
                d,
                n,
            )[i]).node_type == NodeType::Folder ==> top_lines(e, names, exp, d, n)[i].expanded
                == is_marked(exp, top_lines(e, names, exp, d, n)[i].name),
    decreases n,
{
    if n > 0 {
        lemma_folder_lines(e, names, exp, d, n - 1);
        let a = top_lines(e, names, exp, d, n - 1);
        let b = entry_lines(e, names[n - 1], None, None, 0, exp, d);
        let l = top_lines(e, names, exp, d, n);
        assert(l == a + b);
        assert forall|i: int| 0 <= i < l.len() && (#[trigger] l[i]).node_type == NodeType::Folder implies l[i].expanded
            == is_marked(exp, l[i].name) by {
            if i < a.len() {
                assert(l[i] == a[i]);
            } else {
                assert(l[i] == b[i - a.len()]);
            }
        }
    }
}

/// The lines of the first `m` names stay in place when more names follow.
proof fn lemma_top_lines_prefix(
    e: Seq<(Seq<char>, ProxyView)>,
    names: Seq<Seq<char>>,
    exp: Map<Seq<char>, bool>,
    d: bool,
    m: int,
    n: int,
)
    requires
        0 <= m <= n <= names.len(),
    ensures
        top_lines(e, names, exp, d, m).len() <= top_lines(e, names, exp, d, n).len(),
        forall|i: int|
            0 <= i < top_lines(e, names, exp, d, m).len() ==> #[trigger] top_lines(
                e,
                names,
                exp,
                d,
                n,
            )[i] == top_lines(e, names, exp, d, m)[i],
    decreases n - m,
{
    if m < n {
        lemma_top_lines_prefix(e, names, exp, d, m, n - 1);
    }
}

/// Rebuilding depends on the marks of the top-level names only.
pub proof fn lemma_top_lines_congruent(
    e: Seq<(Seq<char>, ProxyView)>,
    names: Seq<Seq<char>>,
    exp1: Map<Seq<char>, bool>,
    exp2: Map<Seq<char>, bool>,
    d: bool,
    n: int,
)
    requires
        0 <= n <= names.len(),
        forall|k: int| 0 <= k < n ==> is_marked(exp1, #[trigger] names[k]) == is_marked(exp2, names[k]),
    ensures
        top_lines(e, names, exp1, d, n) == top_lines(e, names, exp2, d, n),
    decreases n,
{
    if n > 0 {
        lemma_top_lines_congruent(e, names, exp1, exp2, d, n - 1);
        assert(is_marked(exp1, names[n - 1]) == is_marked(exp2, names[n - 1]));
        assert(entry_lines(e, names[n - 1], None, None, 0, exp1, d) == entry_lines(
            e,
            names[n - 1],
            None,
            None,
            0,
            exp2,
            d,
        ));
    }
}

/// Rebuilding a tree that was just rebuilt from the same proxies changes nothing:
/// the groups left expanded by the first rebuild are exactly those it kept expanded.
pub proof fn law_rebuild_idempotent(
    old_nodes: Seq<NodeView>,
    e: Seq<(Seq<char>, ProxyView)>,
    sorted: bool,
    by_delay: bool,
)
    requires
        unique_keys(e),
    ensures
        rebuilt(rebuilt(old_nodes, e, sorted, by_delay), e, sorted, by_delay) == rebuilt(
            old_nodes,
            e,
            sorted,
            by_delay,
        ),
{
    let names = ordered_top(e, sorted);
    let n = names.len() as int;
    let exp1 = expanded_map(old_nodes);
    let lines = top_lines(e, names, exp1, by_delay, n);
    let exp2 = expanded_map(lines);
    lemma_ordered_top_members(e, sorted);
    lemma_top_names_visible(e, e.len() as int);
    lemma_folder_lines(e, names, exp1, by_delay, n);
    assert forall|k: int| 0 <= k < n implies is_marked(exp1, #[trigger] names[k]) == is_marked(
        exp2,
        names[k],
    ) by {
        let x = names[k];
        assert(names.contains(x));
        assert(visible_group(e, x));
        if is_marked(exp1, x) {
            lemma_top_lines_prefix(e, names, exp1, by_delay, k, n);
            lemma_top_lines_prefix(e, names, exp1, by_delay, k + 1, n);
            let p = top_lines(e, names, exp1, by_delay, k).len() as int;
            let b = entry_lines(e, x, None, None, 0, exp1, by_delay);
            assert(top_lines(e, names, exp1, by_delay, k + 1) == top_lines(e, names, exp1, by_delay, k) + b);
            assert(top_lines(e, names, exp1, by_delay, k + 1)[p] == b[0]);
            assert(lines[p] == b[0]);
            assert(lines[p].name == x && lines[p].expanded && lines[p].node_type == NodeType::Folder);
            assert(exp2.contains_key(x));
        }
        if is_marked(exp2, x) {
            let w = choose|w: int|
                0 <= w < lines.len() && #[trigger] lines[w].name == x && lines[w].expanded
                    && lines[w].node_type == NodeType::Folder;
            assert(lines[w].expanded == is_marked(exp1, lines[w].name));
        }
    }
    lemma_top_lines_congruent(e, names, exp1, exp2, by_delay, n);
}

/// After collapsing every line and rebuilding, only top-level lines remain and none is expanded.
pub proof fn law_collapse_all_flat(
    old_nodes: Seq<NodeView>,
    e: Seq<(Seq<char>, ProxyView)>,
    sorted: bool,
    by_delay: bool,
)
    ensures
        forall|i: int|
            0 <= i < rebuilt(
                collapse_lines(old_nodes),
                e,
                sorted,
                by_delay,
            ).len() ==> (#[trigger] rebuilt(
                collapse_lines(old_nodes),
                e,
                sorted,
                by_delay,
            )[i]).depth == 0 && !rebuilt(
                collapse_lines(old_nodes),
                e,
                sorted,
                by_delay,
            )[i].expanded,
{
    let collapsed = collapse_lines(old_nodes);
    let exp = expanded_map(collapsed);
    assert(exp =~= Map::<Seq<char>, bool>::empty()) by {
        assert forall|k: Seq<char>| !exp.contains_key(k) by {
            if exp.contains_key(k) {
                let w = choose|w: int|
                    0 <= w < collapsed.len() && #[trigger] collapsed[w].name == k && collapsed[w].expanded
                        && collapsed[w].node_type == NodeType::Folder;
                assert(collapsed[w] == with_expanded(old_nodes[w], false));
            }
        }
    }
    let names = ordered_top(e, sorted);
    lemma_flat_lines(e, names, exp, by_delay, names.len() as int);
}

proof fn lemma_flat_lines(
    e: Seq<(Seq<char>, ProxyView)>,
    names: Seq<Seq<char>>,
    exp: Map<Seq<char>, bool>,
    d: bool,
    n: int,
)
    requires
        0 <= n <= names.len(),
        exp == Map::<Seq<char>, bool>::empty(),
    ensures
        forall|i: int|
            0 <= i < top_lines(e, names, exp, d, n).len() ==> (#[trigger] top_lines(
                e,
                names,
                exp,
                d,
                n,
            )[i]).depth == 0 && !top_lines(e, names, exp, d, n)[i].expanded,
    decreases n,
{
    if n > 0 {
        lemma_flat_lines(e, names, exp, d, n - 1);
        let a = top_lines(e, names, exp, d, n - 1);
        let b = entry_lines(e, names[n - 1], None, None, 0, exp, d);
        let l = top_lines(e, names, exp, d, n);
        assert(!is_marked(exp, names[n - 1]));
        assert(l == a + b);
        assert forall|i: int| 0 <= i < l.len() implies (#[trigger] l[i]).depth == 0 && !l[i].expanded by {
            if i < a.len() {
                assert(l[i] == a[i]);
            } else {
                assert(l[i] == b[i - a.len()]);
            }
        }
    }
}

/// The name index points every name at the last line that carries it.
pub proof fn law_name_index_last(nodes: Seq<NodeView>, n: int, k: Seq<char>)
    requires
        0 <= n <= nodes.len(),
        nodes.len() <= usize::MAX,
    ensures
        last_index_map(nodes, n).contains_key(k) <==> exists|i: int| 0 <= i < n && #[trigger] nodes[i].name == k,
        last_index_map(nodes, n).contains_key(k) ==> {
            let i = last_index_map(nodes, n)[k] as int;
            &&& 0 <= i < n
            &&& nodes[i].name == k
            &&& forall|j: int| i < j < n ==> #[trigger] nodes[j].name != k
        },
    decreases n,
{
    if n > 0 {
        law_name_index_last(nodes, n - 1, k);
        if last_index_map(nodes, n).contains_key(k) && nodes[n - 1].name != k {
            assert(last_index_map(nodes, n)[k] == last_index_map(nodes, n - 1)[k]);
            let i = last_index_map(nodes, n)[k] as int;
            assert forall|j: int| i < j < n implies #[trigger] nodes[j].name != k by {
                if j < n - 1 {
                    assert(nodes[j].name != k);
                }
            }
        }
        if exists|i: int| 0 <= i < n && #[trigger] nodes[i].name == k {
            let i = choose|i: int| 0 <= i < n && #[trigger] nodes[i].name == k;
            if i < n - 1 {
                assert(exists|i: int| 0 <= i < n - 1 && #[trigger] nodes[i].name == k);
            }
        }
    }
}

} // verus!
