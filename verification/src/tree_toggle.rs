use vstd::prelude::*;

use crate::sort::{key_le, lemma_stable_sort_permutes, stable_sort, values_of, zip_keys};
use crate::text::lex_le;
use crate::tree::{
    after_set_expanded, entry_lines, expanded_map, folder_index_from, global_rank, has_kids, is_marked,
    lookup, ordered_top, rebuilt, top_lines, top_names, with_expanded, NodeType, NodeView, ProxyView,
};
use crate::tree_laws::{
    lemma_folder_lines, lemma_ordered_top_members, lemma_top_lines_congruent, lemma_top_names_visible,
    visible_group,
};
use crate::tree::{index_of, last_index_map, unique_keys};
use crate::sort_laws::{law_stable_sort_sorted, total_preorder};
use crate::tree_laws::law_name_index_last;

verus! {

proof fn lemma_top_names_keys(e: Seq<(Seq<char>, ProxyView)>, n: int)
    requires
        0 <= n <= e.len(),
    ensures
        forall|i: int|
            0 <= i < top_names(e, n).len() ==> exists|j: int| 0 <= j < n && e[j].0 == #[trigger] top_names(e, n)[i],
    decreases n,
{
    if n > 0 {
        lemma_top_names_keys(e, n - 1);
        let t = top_names(e, n - 1);
        let tn = top_names(e, n);
        assert forall|i: int| 0 <= i < tn.len() implies exists|j: int| 0 <= j < n && e[j].0 == #[trigger] tn[i] by {
            if i < t.len() {
                assert(tn[i] == t[i]);
                let j = choose|j: int| 0 <= j < n - 1 && e[j].0 == t[i];
                assert(e[j].0 == tn[i]);
            } else {
                assert(e[n - 1].0 == tn[i]);
            }
        }
    }
}

proof fn lemma_top_names_unique(e: Seq<(Seq<char>, ProxyView)>, n: int)
    requires
        unique_keys(e),
        0 <= n <= e.len(),
    ensures
        top_names(e, n).no_duplicates(),
    decreases n,
{
    if n > 0 {
        lemma_top_names_unique(e, n - 1);
        lemma_top_names_keys(e, n - 1);
        let t = top_names(e, n - 1);
        if !e[n - 1].1.hidden && has_kids(e[n - 1].1) {
            let tn = t.push(e[n - 1].0);
            assert forall|a: int, b: int| 0 <= a < tn.len() && 0 <= b < tn.len() && a != b implies tn[a] != tn[b] by {
                if a < t.len() && b < t.len() {
                    assert(tn[a] == t[a] && tn[b] == t[b]);
                } else if a < t.len() {
                    let j = choose|j: int| 0 <= j < n - 1 && e[j].0 == #[trigger] t[a];
                    assert(e[j].0 != e[n - 1].0);
                } else {
                    let j = choose|j: int| 0 <= j < n - 1 && e[j].0 == #[trigger] t[b];
                    assert(e[j].0 != e[n - 1].0);
                }
            }
        }
    }
}

/// The top-level names of a tree are distinct.
proof fn lemma_ordered_top_unique(e: Seq<(Seq<char>, ProxyView)>, sorted: bool)
    requires
        unique_keys(e),
    ensures
        ordered_top(e, sorted).no_duplicates(),
{
    broadcast use vstd::seq_lib::group_to_multiset_ensures;

    let t = top_names(e, e.len() as int);
    lemma_top_names_unique(e, e.len() as int);
    if sorted {
        let le = |a: Seq<char>, b: Seq<char>| lex_le(a, b);
        lemma_stable_sort_permutes(t, le);
        t.lemma_multiset_has_no_duplicates();
        stable_sort(t, le).lemma_multiset_has_no_duplicates_conv();
    } else {
        match lookup(e, "GLOBAL"@) {
            Some(g) => match g.all {
                Some(all) => {
                    let z = zip_keys(Seq::new(t.len(), |i: int| global_rank(all, t[i])), t);
                    let srt = stable_sort(z, key_le::<Seq<char>>());
                    lemma_stable_sort_permutes(z, key_le::<Seq<char>>());
                    assert(z.no_duplicates()) by {
                        assert forall|a: int, b: int| 0 <= a < z.len() && 0 <= b < z.len() && a != b implies z[a]
                            != z[b] by {
                            assert(z[a].1 == t[a] && z[b].1 == t[b]);
                        }
                    }
                    z.lemma_multiset_has_no_duplicates();
                    srt.lemma_multiset_has_no_duplicates_conv();
                    let vals = values_of(srt);
                    assert forall|a: int, b: int| 0 <= a < vals.len() && 0 <= b < vals.len() && a != b implies vals[a]
                        != vals[b] by {
                        if vals[a] == vals[b] {
                            assert(srt.contains(srt[a]));
                            assert(srt.to_multiset().count(srt[a]) > 0);
                            assert(z.contains(srt[a]));
                            let ia = choose|i: int| 0 <= i < z.len() && z[i] == srt[a];
                            assert(srt.contains(srt[b]));
                            assert(srt.to_multiset().count(srt[b]) > 0);
                            assert(z.contains(srt[b]));
                            let ib = choose|i: int| 0 <= i < z.len() && z[i] == srt[b];
                            assert(t[ia] == t[ib]);
                            assert(ia == ib);
                            assert(srt[a] == srt[b]);
                        }
                    }
                },
                None => {},
            },
            None => {},
        }
    }
}

/// Facts about the group lines of the first `n` names: each names one of
/// those names, no two share a name when the names are distinct, and every
/// name that is a visible group has one.
proof fn lemma_folder_facts(
    e: Seq<(Seq<char>, ProxyView)>,
    names: Seq<Seq<char>>,
    exp: Map<Seq<char>, bool>,
    d: bool,
    n: int,
)
    requires
        unique_keys(e),
        names.no_duplicates(),
        0 <= n <= names.len(),
    ensures
        forall|i: int|
            0 <= i < top_lines(e, names, exp, d, n).len() && (#[trigger] top_lines(e, names, exp, d, n)[i]).node_type
                == NodeType::Folder ==> exists|k: int| 0 <= k < n && names[k] == top_lines(e, names, exp, d, n)[i].name,
        forall|i: int, j: int|
            0 <= i < top_lines(e, names, exp, d, n).len() && 0 <= j < top_lines(e, names, exp, d, n).len() && (
            #[trigger] top_lines(e, names, exp, d, n)[i]).node_type == NodeType::Folder && (#[trigger] top_lines(
                e,
                names,
                exp,
                d,
                n,
            )[j]).node_type == NodeType::Folder && top_lines(e, names, exp, d, n)[i].name == top_lines(
                e,
                names,
                exp,
                d,
                n,
            )[j].name ==> i == j,
        forall|k: int|
            0 <= k < n && visible_group(e, #[trigger] names[k]) ==> exists|i: int|
                0 <= i < top_lines(e, names, exp, d, n).len() && top_lines(e, names, exp, d, n)[i].node_type
                    == NodeType::Folder && top_lines(e, names, exp, d, n)[i].name == names[k],
    decreases n,
{
    if n > 0 {
        lemma_folder_facts(e, names, exp, d, n - 1);
        let a = top_lines(e, names, exp, d, n - 1);
        let b = entry_lines(e, names[n - 1], None, None, 0, exp, d);
        let l = top_lines(e, names, exp, d, n);
        assert(l == a + b);
        assert forall|i: int| 0 <= i < b.len() && #[trigger] b[i].node_type == NodeType::Folder implies i == 0
            && b[i].name == names[n - 1] by {
            if i > 0 {
                let p = lookup(e, names[n - 1])->0;
                let kids = crate::tree::ordered_kids(e, p, d);
                assert(b[i] == crate::tree::kid_node(e, p, names[n - 1], 0, kids[i - 1]));
            }
        }
        assert forall|i: int|
            0 <= i < l.len() && (#[trigger] l[i]).node_type == NodeType::Folder implies exists|k: int|
                0 <= k < n && names[k] == l[i].name by {
            if i < a.len() {
                assert(l[i] == a[i]);
                let k = choose|k: int| 0 <= k < n - 1 && names[k] == a[i].name;
            } else {
                assert(l[i] == b[i - a.len()]);
            }
        }
        assert forall|i: int, j: int|
            0 <= i < l.len() && 0 <= j < l.len() && (#[trigger] l[i]).node_type == NodeType::Folder && (
            #[trigger] l[j]).node_type == NodeType::Folder && l[i].name == l[j].name implies i == j by {
            if i < a.len() && j < a.len() {
                assert(l[i] == a[i] && l[j] == a[j]);
            } else if i < a.len() {
                assert(l[i] == a[i]);
                assert(l[j] == b[j - a.len()]);
                let k = choose|k: int| 0 <= k < n - 1 && names[k] == a[i].name;
                assert(names[k] != names[n - 1]);
            } else if j < a.len() {
                assert(l[j] == a[j]);
                assert(l[i] == b[i - a.len()]);
                let k = choose|k: int| 0 <= k < n - 1 && names[k] == a[j].name;
                assert(names[k] != names[n - 1]);
            } else {
                assert(l[i] == b[i - a.len()]);
                assert(l[j] == b[j - a.len()]);
            }
        }
        assert forall|k: int| 0 <= k < n && visible_group(e, #[trigger] names[k]) implies exists|i: int|
            0 <= i < l.len() && l[i].node_type == NodeType::Folder && l[i].name == names[k] by {
            if k < n - 1 {
                let i = choose|i: int| 0 <= i < a.len() && a[i].node_type == NodeType::Folder && a[i].name == names[k];
                assert(l[i] == a[i]);
            } else {
                assert(b.len() > 0);
                assert(b[0].node_type == NodeType::Folder);
                assert(l[a.len() as int] == b[0]);
            }
        }
    }
}

proof fn lemma_folder_index_from(nodes: Seq<NodeView>, name: Seq<char>, i: int)
    requires
        0 <= i,
    ensures
        folder_index_from(nodes, name, i) matches Some(j) ==> i <= j < nodes.len() && nodes[j].node_type
            == NodeType::Folder && nodes[j].name == name,
        folder_index_from(nodes, name, i) is None ==> forall|j: int|
            i <= j < nodes.len() ==> !(nodes[j].node_type == NodeType::Folder && nodes[j].name == name),
    decreases nodes.len() - i,
{
    if i < nodes.len() && !(nodes[i].node_type == NodeType::Folder && nodes[i].name == name) {
        lemma_folder_index_from(nodes, name, i + 1);
    }
}

/// Flipping the group line `idx` (named `x`) of freshly built lines flips the
/// mark of `x` and keeps the marks of the other top-level names.
proof fn lemma_flip_marks(
    e: Seq<(Seq<char>, ProxyView)>,
    names: Seq<Seq<char>>,
    exp: Map<Seq<char>, bool>,
    d: bool,
    idx: int,
)
    requires
        unique_keys(e),
        names.no_duplicates(),
        forall|k: int| 0 <= k < names.len() ==> visible_group(e, #[trigger] names[k]),
        0 <= idx < top_lines(e, names, exp, d, names.len() as int).len(),
        top_lines(e, names, exp, d, names.len() as int)[idx].node_type == NodeType::Folder,
    ensures
        ({
            let lines = top_lines(e, names, exp, d, names.len() as int);
            let x = lines[idx].name;
            let flipped = expanded_map(lines.update(idx, with_expanded(lines[idx], !lines[idx].expanded)));
            &&& forall|k: int|
                0 <= k < names.len() && #[trigger] names[k] != x ==> is_marked(flipped, names[k]) == is_marked(
                    exp,
                    names[k],
                )
            &&& is_marked(flipped, x) == !is_marked(exp, x)
        }),
{
    let n = names.len() as int;
    let lines = top_lines(e, names, exp, d, n);
    let x = lines[idx].name;
    let l2 = lines.update(idx, with_expanded(lines[idx], !lines[idx].expanded));
    let flipped = expanded_map(l2);
    lemma_folder_facts(e, names, exp, d, n);
    lemma_folder_lines(e, names, exp, d, n);
    assert forall|k: int| 0 <= k < names.len() && #[trigger] names[k] != x implies is_marked(flipped, names[k])
        == is_marked(exp, names[k]) by {
        let y = names[k];
        let w = choose|i: int| 0 <= i < lines.len() && lines[i].node_type == NodeType::Folder && lines[i].name == y;
        assert(w != idx);
        assert(l2[w] == lines[w]);
        if is_marked(exp, y) {
            assert(l2[w].name == y && l2[w].expanded && l2[w].node_type == NodeType::Folder);
            assert(flipped.contains_key(y));
        }
        if is_marked(flipped, y) {
            let v = choose|v: int|
                0 <= v < l2.len() && #[trigger] l2[v].name == y && l2[v].expanded && l2[v].node_type == NodeType::Folder;
            assert(v != idx);
            assert(l2[v] == lines[v]);
            assert(v == w);
        }
    }
    if is_marked(flipped, x) {
        let v = choose|v: int|
            0 <= v < l2.len() && #[trigger] l2[v].name == x && l2[v].expanded && l2[v].node_type == NodeType::Folder;
        if v != idx {
            assert(l2[v] == lines[v]);
            assert(v == idx);
        }
    } else {
        assert(l2[idx].name == x && l2[idx].node_type == NodeType::Folder);
    }
}

/// Expanding or collapsing a group twice in a row gives back the tree as it
/// was: the second toggle undoes the first.
pub proof fn law_toggle_twice(
    old_nodes: Seq<NodeView>,
    e: Seq<(Seq<char>, ProxyView)>,
    sorted: bool,
    by_delay: bool,
    x: Seq<char>,
)
    requires
        unique_keys(e),
    ensures
        ({
            let t = rebuilt(old_nodes, e, sorted, by_delay);
            after_set_expanded(after_set_expanded(t, x, None, e, sorted, by_delay), x, None, e, sorted, by_delay)
                == t
        }),
{
    let names = ordered_top(e, sorted);
    let n = names.len() as int;
    let exp0 = expanded_map(old_nodes);
    let t = top_lines(e, names, exp0, by_delay, n);
    assert(t == rebuilt(old_nodes, e, sorted, by_delay));
    lemma_ordered_top_unique(e, sorted);
    lemma_ordered_top_members(e, sorted);
    lemma_top_names_visible(e, e.len() as int);
    assert forall|k: int| 0 <= k < names.len() implies visible_group(e, #[trigger] names[k]) by {
        assert(names.contains(names[k]));
    }
    lemma_folder_index_from(t, x, 0);
    match folder_index_from(t, x, 0) {
        None => {},
        Some(idx) => {
            lemma_flip_marks(e, names, exp0, by_delay, idx);
            let exp1 = expanded_map(t.update(idx, with_expanded(t[idx], !t[idx].expanded)));
            let t1 = top_lines(e, names, exp1, by_delay, n);
            assert(after_set_expanded(t, x, None, e, sorted, by_delay) == t1);
            lemma_folder_facts(e, names, exp0, by_delay, n);
            let k = choose|k: int| 0 <= k < n && names[k] == t[idx].name;
            lemma_folder_facts(e, names, exp1, by_delay, n);
            lemma_folder_index_from(t1, x, 0);
            let idx2 = folder_index_from(t1, x, 0)->0;
            assert(names[k] == x);
            assert(visible_group(e, names[k]));
            lemma_flip_marks(e, names, exp1, by_delay, idx2);
            let exp2 = expanded_map(t1.update(idx2, with_expanded(t1[idx2], !t1[idx2].expanded)));
            assert forall|j: int| 0 <= j < n implies is_marked(exp2, #[trigger] names[j]) == is_marked(exp0, names[j]) by {
            }
            lemma_top_lines_congruent(e, names, exp2, exp0, by_delay, n);
        },
    }
}

/// Expanding a collapsed group and then collapsing it gives back the tree as
/// it was; when no group line carries the name, both leave the tree unchanged.
pub proof fn law_expand_then_collapse(
    old_nodes: Seq<NodeView>,
    e: Seq<(Seq<char>, ProxyView)>,
    sorted: bool,
    by_delay: bool,
    x: Seq<char>,
)
    requires
        unique_keys(e),
    ensures
        ({
            let t = rebuilt(old_nodes, e, sorted, by_delay);
            (folder_index_from(t, x, 0) matches Some(i) ==> !t[i].expanded) ==> after_set_expanded(
                after_set_expanded(t, x, Some(true), e, sorted, by_delay),
                x,
                Some(false),
                e,
                sorted,
                by_delay,
            ) == t
        }),
{
    let names = ordered_top(e, sorted);
    let n = names.len() as int;
    let exp0 = expanded_map(old_nodes);
    let t = top_lines(e, names, exp0, by_delay, n);
    assert(t == rebuilt(old_nodes, e, sorted, by_delay));
    lemma_ordered_top_unique(e, sorted);
    lemma_ordered_top_members(e, sorted);
    lemma_top_names_visible(e, e.len() as int);
    assert forall|k: int| 0 <= k < names.len() implies visible_group(e, #[trigger] names[k]) by {
        assert(names.contains(names[k]));
    }
    lemma_folder_index_from(t, x, 0);
    match folder_index_from(t, x, 0) {
        None => {},
        Some(idx) => {
            if !t[idx].expanded {
                lemma_flip_marks(e, names, exp0, by_delay, idx);
                let exp1 = expanded_map(t.update(idx, with_expanded(t[idx], !t[idx].expanded)));
                let t1 = top_lines(e, names, exp1, by_delay, n);
                assert(after_set_expanded(t, x, Some(true), e, sorted, by_delay) == t1);
                lemma_folder_facts(e, names, exp0, by_delay, n);
                let k = choose|k: int| 0 <= k < n && names[k] == t[idx].name;
                lemma_folder_facts(e, names, exp1, by_delay, n);
                lemma_folder_lines(e, names, exp0, by_delay, n);
                lemma_folder_lines(e, names, exp1, by_delay, n);
                lemma_folder_index_from(t1, x, 0);
                let idx2 = folder_index_from(t1, x, 0)->0;
                assert(names[k] == x);
                assert(visible_group(e, names[k]));
                assert(t1[idx2].expanded);
                lemma_flip_marks(e, names, exp1, by_delay, idx2);
                let exp2 = expanded_map(t1.update(idx2, with_expanded(t1[idx2], !t1[idx2].expanded)));
                assert(after_set_expanded(t1, x, Some(false), e, sorted, by_delay) == top_lines(
                    e,
                    names,
                    exp2,
                    by_delay,
                    n,
                ));
                assert forall|j: int| 0 <= j < n implies is_marked(exp2, #[trigger] names[j]) == is_marked(
                    exp0,
                    names[j],
                ) by {}
                lemma_top_lines_congruent(e, names, exp2, exp0, by_delay, n);
            }
        },
    }
}

/// Each group of the map has exactly one group line in a rebuilt tree, and
/// every group line is one of those groups.
pub proof fn law_rebuilt_groups_once(
    old_nodes: Seq<NodeView>,
    e: Seq<(Seq<char>, ProxyView)>,
    sorted: bool,
    by_delay: bool,
)
    requires
        unique_keys(e),
    ensures
        ({
            let t = rebuilt(old_nodes, e, sorted, by_delay);
            let names = ordered_top(e, sorted);
            &&& forall|i: int, j: int|
                0 <= i < t.len() && 0 <= j < t.len() && (#[trigger] t[i]).node_type == NodeType::Folder
                    && (#[trigger] t[j]).node_type == NodeType::Folder && t[i].name == t[j].name ==> i == j
            &&& forall|i: int|
                0 <= i < t.len() && (#[trigger] t[i]).node_type == NodeType::Folder ==> names.contains(t[i].name)
            &&& forall|k: int|
                0 <= k < names.len() ==> exists|i: int|
                    0 <= i < t.len() && t[i].node_type == NodeType::Folder && t[i].name == #[trigger] names[k]
        }),
{
    let names = ordered_top(e, sorted);
    let n = names.len() as int;
    let exp0 = expanded_map(old_nodes);
    let t = top_lines(e, names, exp0, by_delay, n);
    assert(t == rebuilt(old_nodes, e, sorted, by_delay));
    lemma_ordered_top_unique(e, sorted);
    lemma_ordered_top_members(e, sorted);
    lemma_top_names_visible(e, e.len() as int);
    assert forall|k: int| 0 <= k < names.len() implies visible_group(e, #[trigger] names[k]) by {
        assert(names.contains(names[k]));
    }
    lemma_folder_facts(e, names, exp0, by_delay, n);
    assert forall|i: int| 0 <= i < t.len() && (#[trigger] t[i]).node_type == NodeType::Folder implies names.contains(
        t[i].name,
    ) by {
        let k = choose|k: int| 0 <= k < n && names[k] == t[i].name;
        assert(names[k] == t[i].name);
    }
}

proof fn lemma_fresh_lines(
    e: Seq<(Seq<char>, ProxyView)>,
    names: Seq<Seq<char>>,
    exp: Map<Seq<char>, bool>,
    d: bool,
    n: int,
)
    requires
        0 <= n <= names.len(),
        exp == Map::<Seq<char>, bool>::empty(),
        forall|k: int| 0 <= k < names.len() ==> visible_group(e, #[trigger] names[k]),
    ensures
        top_lines(e, names, exp, d, n).len() == n,
        forall|i: int|
            0 <= i < n ==> (#[trigger] top_lines(e, names, exp, d, n)[i]).node_type == NodeType::Folder
                && top_lines(e, names, exp, d, n)[i].name == names[i] && top_lines(e, names, exp, d, n)[i].depth
                == 0 && !top_lines(e, names, exp, d, n)[i].expanded,
    decreases n,
{
    if n > 0 {
        lemma_fresh_lines(e, names, exp, d, n - 1);
        let a = top_lines(e, names, exp, d, n - 1);
        let b = entry_lines(e, names[n - 1], None, None, 0, exp, d);
        let l = top_lines(e, names, exp, d, n);
        assert(visible_group(e, names[n - 1]));
        assert(!is_marked(exp, names[n - 1]));
        assert(b.len() == 1);
        assert(l == a + b);
        assert forall|i: int| 0 <= i < n implies (#[trigger] l[i]).node_type == NodeType::Folder && l[i].name
            == names[i] && l[i].depth == 0 && !l[i].expanded by {
            if i < n - 1 {
                assert(l[i] == a[i]);
            } else {
                assert(l[i] == b[0]);
            }
        }
    }
}

/// A tree built afresh from a map has one top-level, collapsed group line per
/// visible group, in display order, and its name index points each line's
/// name at that line.
pub proof fn law_build_index(e: Seq<(Seq<char>, ProxyView)>)
    requires
        unique_keys(e),
    ensures
        ({
            let t = rebuilt(Seq::empty(), e, false, false);
            let names = ordered_top(e, false);
            &&& t.len() == names.len()
            &&& forall|i: int|
                0 <= i < t.len() ==> (#[trigger] t[i]).name == names[i] && t[i].node_type == NodeType::Folder
                    && t[i].depth == 0 && !t[i].expanded
            &&& t.len() <= usize::MAX ==> forall|i: int|
                0 <= i < t.len() ==> last_index_map(t, t.len() as int)[#[trigger] t[i].name] == i
        }),
{
    let names = ordered_top(e, false);
    let n = names.len() as int;
    let exp0 = expanded_map(Seq::<NodeView>::empty());
    assert(exp0 =~= Map::<Seq<char>, bool>::empty());
    let t = top_lines(e, names, exp0, false, n);
    assert(t == rebuilt(Seq::empty(), e, false, false));
    lemma_ordered_top_unique(e, false);
    lemma_ordered_top_members(e, false);
    lemma_top_names_visible(e, e.len() as int);
    assert forall|k: int| 0 <= k < names.len() implies visible_group(e, #[trigger] names[k]) by {
        assert(names.contains(names[k]));
    }
    lemma_fresh_lines(e, names, exp0, false, n);
    if t.len() <= usize::MAX {
        assert forall|i: int| 0 <= i < t.len() implies last_index_map(t, t.len() as int)[#[trigger] t[i].name]
            == i by {
            let k = t[i].name;
            law_name_index_last(t, t.len() as int, k);
            let w = last_index_map(t, t.len() as int)[k] as int;
            assert(t[w].name == k);
            assert(names[w] == names[i]);
        }
    }
}

/// The top-level groups are shown in an order that lists each visible group
/// of the map exactly once: the display order is a permutation of the map's
/// visible groups.
pub proof fn law_ordered_top_permutes(e: Seq<(Seq<char>, ProxyView)>, sorted: bool)
    requires
        unique_keys(e),
    ensures
        ({
            let o = ordered_top(e, sorted);
            let t = top_names(e, e.len() as int);
            &&& o.no_duplicates()
            &&& o.len() == t.len()
            &&& forall|x: Seq<char>| o.contains(x) <==> t.contains(x)
        }),
{
    broadcast use vstd::seq_lib::group_to_multiset_ensures;

    let o = ordered_top(e, sorted);
    let t = top_names(e, e.len() as int);
    lemma_ordered_top_unique(e, sorted);
    lemma_top_names_unique(e, e.len() as int);
    lemma_ordered_top_members(e, sorted);
    if sorted {
        let le = |a: Seq<char>, b: Seq<char>| lex_le(a, b);
        lemma_stable_sort_permutes(t, le);
        assert(o.to_multiset().len() == t.to_multiset().len());
    } else {
        match lookup(e, "GLOBAL"@) {
            Some(g) => match g.all {
                Some(all) => {
                    let z = zip_keys(Seq::new(t.len(), |i: int| global_rank(all, t[i])), t);
                    lemma_stable_sort_permutes(z, key_le::<Seq<char>>());
                    let srt = stable_sort(z, key_le::<Seq<char>>());
                    assert(srt.to_multiset().len() == z.to_multiset().len());
                    assert(o.len() == srt.len());
                },
                None => {},
            },
            None => {},
        }
    }
    o.unique_seq_to_set();
    t.unique_seq_to_set();
    assert(o.to_set().subset_of(t.to_set())) by {
        assert forall|x: Seq<char>| o.to_set().contains(x) implies t.to_set().contains(x) by {
            assert(o.contains(x));
        }
    }
    vstd::set_lib::lemma_subset_equality(o.to_set(), t.to_set());
    assert forall|x: Seq<char>| o.contains(x) <==> t.contains(x) by {
        assert(o.to_set().contains(x) == o.contains(x));
        assert(t.to_set().contains(x) == t.contains(x));
    }
}

proof fn lemma_index_of_bound(s: Seq<Seq<char>>, x: Seq<char>, i: int)
    requires
        0 <= i,
    ensures
        index_of(s, x, i) matches Some(j) ==> i <= j < s.len(),
    decreases s.len() - i,
{
    if i < s.len() && s[i] != x {
        lemma_index_of_bound(s, x, i + 1);
    }
}

/// Without sorting by name, when the `GLOBAL` group lists its members, the
/// `GLOBAL` group itself is shown last among the top-level groups.
pub proof fn law_global_last(e: Seq<(Seq<char>, ProxyView)>)
    requires
        unique_keys(e),
        lookup(e, "GLOBAL"@) matches Some(g) && g.all matches Some(all) && all.len() <= usize::MAX,
    ensures
        forall|p: int|
            0 <= p < ordered_top(e, false).len() && #[trigger] ordered_top(e, false)[p] == "GLOBAL"@ ==> p
                == ordered_top(e, false).len() - 1,
{
    broadcast use vstd::seq_lib::group_to_multiset_ensures;

    let g = lookup(e, "GLOBAL"@)->0;
    let all = g.all->0;
    let t = top_names(e, e.len() as int);
    let z = zip_keys(Seq::new(t.len(), |i: int| global_rank(all, t[i])), t);
    let le = key_le::<Seq<char>>();
    let srt = stable_sort(z, le);
    let o = ordered_top(e, false);
    assert(o == values_of(srt));
    lemma_stable_sort_permutes(z, le);
    assert(total_preorder(le));
    law_stable_sort_sorted(z, le);
    lemma_ordered_top_unique(e, false);
    assert forall|p: int| 0 <= p < o.len() && #[trigger] o[p] == "GLOBAL"@ implies p == o.len() - 1 by {
        if p < o.len() - 1 {
            let q = p + 1;
            assert(le(srt[p], srt[q]));
            assert(srt.contains(srt[p]));
            assert(srt.to_multiset().count(srt[p]) > 0);
            assert(z.contains(srt[p]));
            let ip = choose|i: int| 0 <= i < z.len() && z[i] == srt[p];
            assert(srt.contains(srt[q]));
            assert(srt.to_multiset().count(srt[q]) > 0);
            assert(z.contains(srt[q]));
            let iq = choose|i: int| 0 <= i < z.len() && z[i] == srt[q];
            assert(o[p] == srt[p].1 && o[q] == srt[q].1);
            assert(o[q] != o[p]);
            assert(srt[p].0 == global_rank(all, t[ip]) as int);
            assert(srt[q].0 == global_rank(all, t[iq]) as int);
            lemma_index_of_bound(all, t[iq], 0);
            assert(global_rank(all, t[iq]) < usize::MAX as u64);
            assert(false);
        }
    }
}

} // verus!
