use vstd::prelude::*;

use crate::laws::keys_unique;
use crate::template::{
    expand_groups, expand_providers, expand_spec, fix_group, fix_groups, is_placeholder, local_urls,
    provider_step, resolve_list, str_list, yget, yset, NameTable, TemplateError, PROXY_GROUPS,
    PROXY_PROVIDERS,
};
use crate::yaml::{lemma_map_find_bound, map_find, map_get, map_insert, map_remove, YamlV};

verus! {

proof fn lemma_find_unique(m: Seq<(YamlV, YamlV)>, k: YamlV, j: int)
    requires
        keys_unique(m),
        0 <= j < m.len(),
        m[j].0 == k,
    ensures
        map_find(m, k, 0) == Some(j),
{
    lemma_find_from(m, k, 0, j);
}

proof fn lemma_find_from(m: Seq<(YamlV, YamlV)>, k: YamlV, i: int, j: int)
    requires
        keys_unique(m),
        0 <= i <= j < m.len(),
        m[j].0 == k,
    ensures
        map_find(m, k, i) == Some(j),
    decreases j - i,
{
    if i < j {
        assert(m[i].0 != m[j].0);
        lemma_find_from(m, k, i + 1, j);
    }
}

proof fn lemma_find_absent(m: Seq<(YamlV, YamlV)>, k: YamlV, i: int)
    requires
        0 <= i,
        forall|x: int| i <= x < m.len() ==> m[x].0 != k,
    ensures
        map_find(m, k, i) is None,
    decreases m.len() - i,
{
    if i < m.len() {
        lemma_find_absent(m, k, i + 1);
    }
}

/// Setting a key to the value it already has changes nothing.
proof fn lemma_insert_same(m: Seq<(YamlV, YamlV)>, k: YamlV, v: YamlV)
    requires
        map_get(m, k) == Some(v),
    ensures
        map_insert(m, k, v) == m,
{
    lemma_map_find_bound(m, k, 0);
    let i = map_find(m, k, 0)->0;
    assert(m.update(i, (m[i].0, v)) =~= m);
}

/// Removing one key keeps the others, and their values, in a mapping without repeats.
proof fn lemma_remove_keeps(m: Seq<(YamlV, YamlV)>, k: YamlV, k2: YamlV)
    requires
        keys_unique(m),
        k2 != k,
    ensures
        map_get(map_remove(m, k), k2) == map_get(m, k2),
{
    lemma_map_find_bound(m, k, 0);
    lemma_map_find_bound(m, k2, 0);
    match map_find(m, k, 0) {
        None => {},
        Some(i) => {
            let r = m.update(i, m.last()).drop_last();
            assert(keys_unique(r)) by {
                assert forall|a: int, b: int| 0 <= a < b < r.len() implies r[a].0 != r[b].0 by {
                    if a == i {
                        assert(r[a] == m[m.len() - 1]);
                        assert(r[b] == m[b]);
                    } else if b == i {
                        assert(r[b] == m[m.len() - 1]);
                        assert(r[a] == m[a]);
                    } else {
                        assert(r[a] == m[a]);
                        assert(r[b] == m[b]);
                    }
                }
            }
            match map_find(m, k2, 0) {
                None => {
                    assert forall|x: int| 0 <= x < r.len() implies r[x].0 != k2 by {
                        if x == i {
                            assert(r[x] == m[m.len() - 1]);
                            if m[m.len() - 1].0 == k2 {
                                lemma_find_unique(m, k2, m.len() - 1);
                            }
                        } else {
                            assert(r[x] == m[x]);
                            if m[x].0 == k2 {
                                lemma_find_unique(m, k2, x);
                            }
                        }
                    }
                    lemma_find_absent(r, k2, 0);
                },
                Some(j) => {
                    assert(j != i);
                    if j == m.len() - 1 {
                        assert(r[i] == m[j]);
                        lemma_find_unique(r, k2, i);
                    } else {
                        assert(r[j] == m[j]);
                        lemma_find_unique(r, k2, j);
                    }
                },
            }
        },
    }
}

/// No provider entry is templated.
pub open spec fn no_templated(pp: Seq<(YamlV, YamlV)>) -> bool {
    forall|i: int| 0 <= i < pp.len() ==> (#[trigger] yget(pp[i].1, "tpl_param"@)) is None
}

proof fn lemma_providers_passthrough(pp: Seq<(YamlV, YamlV)>, urls: Seq<Seq<char>>, stem: Seq<char>, n: int)
    requires
        keys_unique(pp),
        no_templated(pp),
        0 <= n <= pp.len(),
    ensures
        expand_providers(pp, urls, stem, n) == Ok::<(Seq<(YamlV, YamlV)>, NameTable), TemplateError>(
            (pp.take(n), Seq::empty()),
        ),
    decreases n,
{
    if n > 0 {
        lemma_providers_passthrough(pp, urls, stem, n - 1);
        let t = pp.take(n - 1);
        assert(yget(pp[n - 1].1, "tpl_param"@) is None);
        assert forall|x: int| 0 <= x < t.len() implies t[x].0 != pp[n - 1].0 by {
            assert(t[x] == pp[x]);
        }
        lemma_find_absent(t, pp[n - 1].0, 0);
        assert(map_insert(t, pp[n - 1].0, pp[n - 1].1) =~= pp.take(n));
    } else {
        assert(pp.take(0) =~= Seq::<(YamlV, YamlV)>::empty());
    }
}

/// A group that is not templated and whose `use` and `proxies` lists hold
/// plain names only (no placeholders).
pub open spec fn plain_group(g: YamlV) -> bool {
    &&& yget(g, "tpl_param"@) is None
    &&& match yget(g, "use"@) {
        None => true,
        Some(YamlV::List(items)) => plain_names(items),
        Some(_) => false,
    }
    &&& match yget(g, "proxies"@) {
        Some(YamlV::List(items)) => plain_names(items),
        _ => true,
    }
}

/// Every entry is a text that is not a placeholder.
pub open spec fn plain_names(items: Seq<YamlV>) -> bool {
    forall|i: int| 0 <= i < items.len() ==> (#[trigger] items[i] matches YamlV::Str(s) && !is_placeholder(s))
}

proof fn lemma_resolve_plain(
    items: Seq<YamlV>,
    names: NameTable,
    e1: TemplateError,
    e2: TemplateError,
    n: int,
)
    requires
        plain_names(items),
        0 <= n <= items.len(),
    ensures
        resolve_list(items, names, e1, e2, n) == Ok::<Seq<Seq<char>>, TemplateError>(
            items.take(n).map_values(|y: YamlV| y->Str_0),
        ),
    decreases n,
{
    if n > 0 {
        lemma_resolve_plain(items, names, e1, e2, n - 1);
        assert(items[n - 1] is Str);
        assert(items.take(n - 1).map_values(|y: YamlV| y->Str_0).push(items[n - 1]->Str_0) =~= items.take(
            n,
        ).map_values(|y: YamlV| y->Str_0));
    } else {
        assert(items.take(0).map_values(|y: YamlV| y->Str_0) =~= Seq::<Seq<char>>::empty());
    }
}

proof fn lemma_str_list_plain(items: Seq<YamlV>)
    requires
        plain_names(items),
    ensures
        str_list(items.map_values(|y: YamlV| y->Str_0)) == YamlV::List(items),
{
    assert(items.map_values(|y: YamlV| y->Str_0).map_values(|t: Seq<char>| YamlV::Str(t)) =~= items);
}

proof fn lemma_yset_same(g: YamlV, k: Seq<char>)
    requires
        yget(g, k) is Some,
    ensures
        yset(g, k, yget(g, k)->0) == g,
{
    match g {
        YamlV::Dict(m) => {
            lemma_insert_same(m, YamlV::Str(k), yget(g, k)->0);
        },
        _ => {},
    }
}

proof fn lemma_fix_plain(g: YamlV, pp_names: NameTable, pg_names: NameTable)
    requires
        plain_group(g),
    ensures
        fix_group(g, pp_names, pg_names) == Ok::<YamlV, TemplateError>(g),
{
    match yget(g, "use"@) {
        Some(YamlV::List(items)) => {
            lemma_resolve_plain(
                items,
                pp_names,
                TemplateError::UseNotString,
                TemplateError::UnknownProvider,
                items.len() as int,
            );
            assert(items.take(items.len() as int) =~= items);
            lemma_str_list_plain(items);
            lemma_yset_same(g, "use"@);
        },
        _ => {},
    }
    match yget(g, "proxies"@) {
        Some(YamlV::List(items)) => {
            lemma_resolve_plain(
                items,
                pg_names,
                TemplateError::ProxiesNotString,
                TemplateError::UnknownGroup,
                items.len() as int,
            );
            assert(items.take(items.len() as int) =~= items);
            lemma_str_list_plain(items);
            lemma_yset_same(g, "proxies"@);
        },
        _ => {},
    }
}

proof fn lemma_groups_plain(pg: Seq<YamlV>, pp_names: NameTable, n: int)
    requires
        forall|i: int| 0 <= i < pg.len() ==> plain_group(#[trigger] pg[i]),
        0 <= n <= pg.len(),
    ensures
        expand_groups(pg, pp_names, n) == Ok::<(Seq<YamlV>, NameTable), TemplateError>(
            (pg.take(n), Seq::empty()),
        ),
        fix_groups(pg, pp_names, Seq::empty(), n) == Ok::<Seq<YamlV>, TemplateError>(pg.take(n)),
    decreases n,
{
    if n > 0 {
        lemma_groups_plain(pg, pp_names, n - 1);
        assert(plain_group(pg[n - 1]));
        assert(pg.take(n - 1).push(pg[n - 1]) =~= pg.take(n));
        lemma_fix_plain(pg[n - 1], pp_names, Seq::empty());
    } else {
        assert(pg.take(0) =~= Seq::<YamlV>::empty());
    }
}

/// A template whose proxy-providers and proxy-groups use no template
/// parameters and no placeholders comes back as it is, with the `clashtui`
/// marker set to null.
pub proof fn law_template_passthrough(
    tpl: Seq<(YamlV, YamlV)>,
    stem: Seq<char>,
    pairs: Seq<(Seq<char>, Seq<char>)>,
    pp: Seq<(YamlV, YamlV)>,
    pg: Seq<YamlV>,
)
    requires
        keys_unique(tpl),
        local_urls(tpl, pairs) is Ok,
        map_get(tpl, YamlV::Str(PROXY_PROVIDERS@)) == Some(YamlV::Dict(pp)),
        keys_unique(pp),
        no_templated(pp),
        map_get(tpl, YamlV::Str(PROXY_GROUPS@)) == Some(YamlV::List(pg)),
        forall|i: int| 0 <= i < pg.len() ==> plain_group(#[trigger] pg[i]),
    ensures
        expand_spec(tpl, stem, pairs) == Ok::<Seq<(YamlV, YamlV)>, TemplateError>(
            map_insert(tpl, YamlV::Str("clashtui"@), YamlV::Null),
        ),
{
    reveal_strlit("clashtui");
    reveal_strlit("proxy-providers");
    reveal_strlit("proxy-groups");
    assert(PROXY_PROVIDERS@ == "proxy-providers"@);
    assert(PROXY_GROUPS@ == "proxy-groups"@);
    assert(PROXY_PROVIDERS@ != "clashtui"@);
    assert(PROXY_GROUPS@ != "clashtui"@);
    let urls = local_urls(tpl, pairs)->Ok_0;
    let rest = map_remove(tpl, YamlV::Str("clashtui"@));
    lemma_remove_keeps(tpl, YamlV::Str("clashtui"@), YamlV::Str(PROXY_PROVIDERS@));
    lemma_remove_keeps(tpl, YamlV::Str("clashtui"@), YamlV::Str(PROXY_GROUPS@));
    lemma_providers_passthrough(pp, urls, stem, pp.len() as int);
    assert(pp.take(pp.len() as int) =~= pp);
    lemma_insert_same(tpl, YamlV::Str(PROXY_PROVIDERS@), YamlV::Dict(pp));
    lemma_groups_plain(pg, Seq::empty(), pg.len() as int);
    assert(pg.take(pg.len() as int) =~= pg);
    lemma_insert_same(tpl, YamlV::Str(PROXY_GROUPS@), YamlV::List(pg));
}

} // verus!
