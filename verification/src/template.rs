use vstd::prelude::*;

use crate::sort::strings_view;
use crate::bridge::yaml_map_of;
use crate::subscription::opt_ymap;
use crate::text::{concat3, decimal, text_eq, text_to_string, u64_to_decimal};
use crate::yaml::{
    entries_view, lemma_entries_view, lemma_seq_view, lemma_seq_view_push, map_get, map_insert, map_remove, seq_view,
    value_get, yaml_view, Yaml, YamlMap, YamlV,
};
use vstd::string::{StrSliceExecFns, StringExecFns};

verus! {

/// Key of the proxy-provider section of a profile.
pub const PROXY_PROVIDERS: &'static str = "proxy-providers";

/// Key of the proxy-group section of a profile.
pub const PROXY_GROUPS: &'static str = "proxy-groups";

/// Why a template could not be expanded.
#[derive(Clone, Copy, Debug, PartialEq, Eq, Structural)]
pub enum TemplateError {
    /// The `clashtui` section is not a mapping with a `uses` list of names.
    BadConfig,
    /// There is no `proxy-providers` mapping.
    ProxyProviders,
    /// A templated proxy-provider is not a mapping.
    ProviderValue,
    /// A templated proxy-provider has a key that is not a string.
    ProviderKey,
    /// There is no `proxy-groups` sequence.
    ProxyGroups,
    /// A templated proxy-group is not a mapping.
    GroupValue,
    /// The `providers` of a `tpl_param` is not a sequence.
    Providers,
    /// An entry of `providers` is not a string.
    ProviderName,
    /// A templated proxy-group has no string `name`.
    GroupName,
    /// A `use` field is not a sequence.
    UseNotSequence,
    /// A `use` list holds something other than a string.
    UseNotString,
    /// A `<...>` in a `use` list names no templated provider.
    UnknownProvider,
    /// A `proxies` list holds something other than a string.
    ProxiesNotString,
    /// A `<...>` in a `proxies` list names no templated group.
    UnknownGroup,
}

impl TemplateError {
    /// The message shown for the error.
    pub fn message(&self) -> (r: &'static str)
        ensures
            r@ == match self {
                TemplateError::BadConfig => "Failed to parse the `clashtui` section"@,
                TemplateError::ProxyProviders => "Failed to parse `proxy-providers`"@,
                TemplateError::ProviderValue => "Failed to parse `proxy-providers` value"@,
                TemplateError::ProviderKey => "Proxy-provider key is not a string"@,
                TemplateError::ProxyGroups => "Failed to parse `proxy-groups`."@,
                TemplateError::GroupValue => "Failed to parse `proxy-groups` value"@,
                TemplateError::Providers => "Failed to parse `providers` in `tpl_param`"@,
                TemplateError::ProviderName => "Failed to parse string in `providers`"@,
                TemplateError::GroupName => "Failed to parse `name` in `proxy-groups`"@,
                TemplateError::UseNotSequence => "`use` field is not a sequence"@,
                TemplateError::UseNotString => "Non-string value in `use` list"@,
                TemplateError::UnknownProvider => "Can't find the proxy-provider name."@,
                TemplateError::ProxiesNotString => "Non-string value in `proxies` list"@,
                TemplateError::UnknownGroup => "Can't find the proxy-group name."@,
            },
    {
        match self {
            TemplateError::BadConfig => "Failed to parse the `clashtui` section",
            TemplateError::ProxyProviders => "Failed to parse `proxy-providers`",
            TemplateError::ProviderValue => "Failed to parse `proxy-providers` value",
            TemplateError::ProviderKey => "Proxy-provider key is not a string",
            TemplateError::ProxyGroups => "Failed to parse `proxy-groups`.",
            TemplateError::GroupValue => "Failed to parse `proxy-groups` value",
            TemplateError::Providers => "Failed to parse `providers` in `tpl_param`",
            TemplateError::ProviderName => "Failed to parse string in `providers`",
            TemplateError::GroupName => "Failed to parse `name` in `proxy-groups`",
            TemplateError::UseNotSequence => "`use` field is not a sequence",
            TemplateError::UseNotString => "Non-string value in `use` list",
            TemplateError::UnknownProvider => "Can't find the proxy-provider name.",
            TemplateError::ProxiesNotString => "Non-string value in `proxies` list",
            TemplateError::UnknownGroup => "Can't find the proxy-group name.",
        }
    }
}

/// Names generated for each provider or group name, in order of generation.
pub type NameTable = Seq<(Seq<char>, Seq<Seq<char>>)>;

pub open spec fn table_find(m: NameTable, k: Seq<char>, i: int) -> Option<int>
    decreases m.len() - i,
{
    if i < 0 || i >= m.len() {
        None
    } else if m[i].0 == k {
        Some(i)
    } else {
        table_find(m, k, i + 1)
    }
}

/// The names generated for `k`.
pub open spec fn table_get(m: NameTable, k: Seq<char>) -> Option<Seq<Seq<char>>> {
    match table_find(m, k, 0) {
        Some(i) => Some(m[i].1),
        None => None,
    }
}

/// Records `v` as one more name generated for `k`.
pub open spec fn table_push(m: NameTable, k: Seq<char>, v: Seq<char>) -> NameTable {
    match table_find(m, k, 0) {
        Some(i) => m.update(i, (m[i].0, m[i].1.push(v))),
        None => m.push((k, seq![v])),
    }
}

/// The table with an entry for `k`, empty when `k` had none yet: a template
/// provider or group that generated nothing still has a name to resolve.
pub open spec fn table_touch(m: NameTable, k: Seq<char>) -> NameTable {
    match table_find(m, k, 0) {
        Some(_) => m,
        None => m.push((k, seq![])),
    }
}

/// `table_touch` for a key that is a string; other keys leave the table as it is.
pub open spec fn table_touch_key(m: NameTable, k: YamlV) -> NameTable {
    match k {
        YamlV::Str(ks) => table_touch(m, ks),
        _ => m,
    }
}

/// `table_touch` for the name of a templated group, when it has a string name.
pub open spec fn table_touch_group(m: NameTable, g: YamlV) -> NameTable {
    match yget(g, "name"@) {
        Some(YamlV::Str(n)) => table_touch(m, n),
        _ => m,
    }
}

/// The value under text key `k` of a tree that is a mapping, looking through tags.
pub open spec fn yget(y: YamlV, k: Seq<char>) -> Option<YamlV> {
    value_get(y, k)
}

/// The `uses` list of the `clashtui` section: a mapping whose `uses` is a sequence of strings.
pub open spec fn uses_of(cfg: YamlV) -> Option<Seq<Seq<char>>> {
    match yget(cfg, "uses"@) {
        Some(YamlV::List(items)) => if forall|i: int| 0 <= i < items.len() ==> #[trigger] items[i] is Str {
            Some(items.map_values(|y: YamlV| y->Str_0))
        } else {
            None
        },
        _ => None,
    }
}

/// The URLs of the subscriptions whose names the template uses, in the given order.
pub open spec fn used_urls(pairs: Seq<(Seq<char>, Seq<char>)>, uses: Seq<Seq<char>>) -> Seq<Seq<char>> {
    pairs.filter(|p: (Seq<char>, Seq<char>)| uses.contains(p.0)).map_values(
        |p: (Seq<char>, Seq<char>)| p.1,
    )
}

/// The subscription URLs to expand the template with.
pub open spec fn local_urls(tpl: Seq<(YamlV, YamlV)>, pairs: Seq<(Seq<char>, Seq<char>)>) -> Result<Seq<Seq<char>>, TemplateError> {
    match map_get(tpl, YamlV::Str("clashtui"@)) {
        None => Ok(seq![]),
        Some(cfg) => match uses_of(cfg) {
            Some(uses) => Ok(used_urls(pairs, uses)),
            None => Err(TemplateError::BadConfig),
        },
    }
}

/// State of the provider expansion: the new providers and the names generated so far.
pub type PState = (Seq<(YamlV, YamlV)>, NameTable);

/// One templated provider `k` (body `m`) instantiated for the first `j` URLs.
pub open spec fn provider_urls(
    st: PState,
    k: YamlV,
    m: Seq<(YamlV, YamlV)>,
    urls: Seq<Seq<char>>,
    stem: Seq<char>,
    j: int,
) -> Result<PState, TemplateError>
    decreases j,
{
    if j <= 0 {
        Ok(st)
    } else {
        match provider_urls(st, k, m, urls, stem, j - 1) {
            Err(e) => Err(e),
            Ok(s2) => match k {
                YamlV::Str(ks) => {
                    let name = ks + decimal((j - 1) as nat);
                    let body = map_insert(
                        map_insert(
                            map_remove(m, YamlV::Str("tpl_param"@)),
                            YamlV::Str("url"@),
                            YamlV::Str(urls[j - 1]),
                        ),
                        YamlV::Str("path"@),
                        YamlV::Str("proxy-providers/tpl/"@ + stem + "/"@ + name + ".yaml"@),
                    );
                    Ok((map_insert(s2.0, YamlV::Str(name), YamlV::Dict(body)), table_push(s2.1, ks, name)))
                },
                _ => Err(TemplateError::ProviderKey),
            },
        }
    }
}

/// One provider entry: kept as it is, or instantiated once per URL when it has a `tpl_param`.
pub open spec fn provider_step(
    st: PState,
    k: YamlV,
    v: YamlV,
    urls: Seq<Seq<char>>,
    stem: Seq<char>,
) -> Result<PState, TemplateError> {
    if yget(v, "tpl_param"@) is None {
        Ok((map_insert(st.0, k, v), st.1))
    } else {
        match v {
            YamlV::Dict(m) => provider_urls((st.0, table_touch_key(st.1, k)), k, m, urls, stem, urls.len() as int),
            _ => Err(TemplateError::ProviderValue),
        }
    }
}

/// The first `n` provider entries expanded.
pub open spec fn expand_providers(
    pp: Seq<(YamlV, YamlV)>,
    urls: Seq<Seq<char>>,
    stem: Seq<char>,
    n: int,
) -> Result<PState, TemplateError>
    decreases n,
{
    if n <= 0 {
        Ok((seq![], seq![]))
    } else {
        match expand_providers(pp, urls, stem, n - 1) {
            Err(e) => Err(e),
            Ok(st) => provider_step(st, pp[n - 1].0, pp[n - 1].1, urls, stem),
        }
    }
}

/// State of the group expansion: the new groups, the group names generated, and
/// the group body being instantiated.
pub type GState = (Seq<YamlV>, NameTable, Seq<(YamlV, YamlV)>);

/// Instances of group `gname` for the first `j` provider names.
pub open spec fn group_names_step(st: GState, gname: Seq<char>, names: Seq<Seq<char>>, j: int) -> GState
    decreases j,
{
    if j <= 0 {
        st
    } else {
        let s2 = group_names_step(st, gname, names, j - 1);
        let n = names[j - 1];
        let new_name = gname + "-"@ + n;
        let body = map_insert(
            map_insert(s2.2, YamlV::Str("name"@), YamlV::Str(new_name)),
            YamlV::Str("use"@),
            YamlV::List(seq![YamlV::Str(n)]),
        );
        (s2.0.push(YamlV::Dict(body)), table_push(s2.1, gname, new_name), body)
    }
}

/// The first `j` entries of a group's `providers` list.
pub open spec fn group_keys_step(
    st: GState,
    g: YamlV,
    keys: Seq<YamlV>,
    pp_names: NameTable,
    j: int,
) -> Result<GState, TemplateError>
    decreases j,
{
    if j <= 0 {
        Ok(st)
    } else {
        match group_keys_step(st, g, keys, pp_names, j - 1) {
            Err(e) => Err(e),
            Ok(s2) => match keys[j - 1] {
                YamlV::Str(pk) => match table_get(pp_names, pk) {
                    None => Ok(s2),
                    Some(names) => if names.len() == 0 {
                        match yget(g, "name"@) {
                            Some(YamlV::Str(gname)) => Ok((s2.0, table_touch(s2.1, gname), s2.2)),
                            _ => Ok(s2),
                        }
                    } else {
                        match yget(g, "name"@) {
                            Some(YamlV::Str(gname)) => Ok(group_names_step(s2, gname, names, names.len() as int)),
                            _ => Err(TemplateError::GroupName),
                        }
                    },
                },
                _ => Err(TemplateError::ProviderName),
            },
        }
    }
}

/// One group entry: kept, or instantiated once per generated provider it names.
pub open spec fn group_step(
    groups: Seq<YamlV>,
    pg_names: NameTable,
    g: YamlV,
    pp_names: NameTable,
) -> Result<(Seq<YamlV>, NameTable), TemplateError> {
    if yget(g, "tpl_param"@) is None {
        Ok((groups.push(g), pg_names))
    } else {
        match g {
            YamlV::Dict(m) => match yget(map_get(m, YamlV::Str("tpl_param"@))->0, "providers"@) {
                Some(YamlV::List(keys)) => match group_keys_step(
                    (groups, table_touch_group(pg_names, g), map_remove(m, YamlV::Str("tpl_param"@))),
                    g,
                    keys,
                    pp_names,
                    keys.len() as int,
                ) {
                    Ok(s) => Ok((s.0, s.1)),
                    Err(e) => Err(e),
                },
                _ => Err(TemplateError::Providers),
            },
            _ => Err(TemplateError::GroupValue),
        }
    }
}

/// The first `n` group entries expanded.
pub open spec fn expand_groups(pg: Seq<YamlV>, pp_names: NameTable, n: int) -> Result<(Seq<YamlV>, NameTable), TemplateError>
    decreases n,
{
    if n <= 0 {
        Ok((seq![], seq![]))
    } else {
        match expand_groups(pg, pp_names, n - 1) {
            Err(e) => Err(e),
            Ok(st) => group_step(st.0, st.1, pg[n - 1], pp_names),
        }
    }
}

pub open spec fn is_angle(c: char) -> bool {
    c == '<' || c == '>'
}

/// A reference to generated names: text between `<` and `>`.
pub open spec fn is_placeholder(s: Seq<char>) -> bool {
    s.len() > 0 && s[0] == '<' && s.last() == '>'
}

/// Number of leading angle brackets.
pub open spec fn leading_angles(s: Seq<char>, i: int) -> int
    decreases s.len() - i,
{
    if i < 0 || i >= s.len() || !is_angle(s[i]) {
        i
    } else {
        leading_angles(s, i + 1)
    }
}

/// Position just after the last character that is not an angle bracket.
pub open spec fn trailing_end(s: Seq<char>, j: int) -> int
    decreases j,
{
    if j <= 0 || !is_angle(s[j - 1]) {
        j
    } else {
        trailing_end(s, j - 1)
    }
}

/// The text with all angle brackets at both ends removed.
pub open spec fn trim_angles(s: Seq<char>) -> Seq<char> {
    let a = leading_angles(s, 0);
    if a >= s.len() {
        seq![]
    } else {
        s.subrange(a, trailing_end(s, s.len() as int))
    }
}

/// The first `j` entries of a `use` or `proxies` list, with each placeholder
/// replaced by the names generated for it.
pub open spec fn resolve_list(
    items: Seq<YamlV>,
    names: NameTable,
    not_string: TemplateError,
    unknown: TemplateError,
    j: int,
) -> Result<Seq<Seq<char>>, TemplateError>
    decreases j,
{
    if j <= 0 {
        Ok(seq![])
    } else {
        match resolve_list(items, names, not_string, unknown, j - 1) {
            Err(e) => Err(e),
            Ok(out) => match items[j - 1] {
                YamlV::Str(s) => if is_placeholder(s) {
                    match table_get(names, trim_angles(s)) {
                        Some(ns) => Ok(out + ns),
                        None => Err(unknown),
                    }
                } else {
                    Ok(out.push(s))
                },
                _ => Err(not_string),
            },
        }
    }
}

/// A list of texts as a YAML sequence.
pub open spec fn str_list(s: Seq<Seq<char>>) -> YamlV {
    YamlV::List(s.map_values(|t: Seq<char>| YamlV::Str(t)))
}

/// Sets text key `k` of a mapping tree.
pub open spec fn yset(y: YamlV, k: Seq<char>, v: YamlV) -> YamlV {
    match y {
        YamlV::Dict(m) => YamlV::Dict(map_insert(m, YamlV::Str(k), v)),
        _ => y,
    }
}

/// A group with the placeholders of its `use` and `proxies` lists resolved.
pub open spec fn fix_group(g: YamlV, pp_names: NameTable, pg_names: NameTable) -> Result<YamlV, TemplateError> {
    let g1 = match yget(g, "use"@) {
        None => Ok(g),
        Some(YamlV::List(items)) => match resolve_list(
            items,
            pp_names,
            TemplateError::UseNotString,
            TemplateError::UnknownProvider,
            items.len() as int,
        ) {
            Ok(out) => Ok(yset(g, "use"@, str_list(out))),
            Err(e) => Err(e),
        },
        Some(_) => Err(TemplateError::UseNotSequence),
    };
    match g1 {
        Err(e) => Err(e),
        Ok(g1) => match yget(g1, "proxies"@) {
            Some(YamlV::List(items)) => match resolve_list(
                items,
                pg_names,
                TemplateError::ProxiesNotString,
                TemplateError::UnknownGroup,
                items.len() as int,
            ) {
                Ok(out) => Ok(yset(g1, "proxies"@, str_list(out))),
                Err(e) => Err(e),
            },
            _ => Ok(g1),
        },
    }
}

/// The first `n` groups with their placeholders resolved.
pub open spec fn fix_groups(gs: Seq<YamlV>, pp_names: NameTable, pg_names: NameTable, n: int) -> Result<Seq<YamlV>, TemplateError>
    decreases n,
{
    if n <= 0 {
        Ok(seq![])
    } else {
        match fix_groups(gs, pp_names, pg_names, n - 1) {
            Err(e) => Err(e),
            Ok(out) => match fix_group(gs[n - 1], pp_names, pg_names) {
                Ok(g) => Ok(out.push(g)),
                Err(e) => Err(e),
            },
        }
    }
}

/// A template expanded for the subscriptions it uses: each templated
/// proxy-provider is instantiated once per subscription URL (named by its key
/// and the URL's index, stored under `proxy-providers/tpl/<stem>/`), each
/// templated proxy-group once per provider instance it names, `<...>`
/// placeholders in `use` and `proxies` lists are replaced by the generated
/// names, and a `clashtui` marker is set; everything else keeps its place.
pub open spec fn expand_spec(
    tpl: Seq<(YamlV, YamlV)>,
    stem: Seq<char>,
    pairs: Seq<(Seq<char>, Seq<char>)>,
) -> Result<Seq<(YamlV, YamlV)>, TemplateError> {
    match local_urls(tpl, pairs) {
        Err(e) => Err(e),
        Ok(urls) => {
            let rest = map_remove(tpl, YamlV::Str("clashtui"@));
            match map_get(rest, YamlV::Str(PROXY_PROVIDERS@)) {
                Some(YamlV::Dict(pp)) => match expand_providers(pp, urls, stem, pp.len() as int) {
                    Err(e) => Err(e),
                    Ok(ps) => {
                        let out1 = map_insert(tpl, YamlV::Str(PROXY_PROVIDERS@), YamlV::Dict(ps.0));
                        match map_get(rest, YamlV::Str(PROXY_GROUPS@)) {
                            Some(YamlV::List(pg)) => match expand_groups(pg, ps.1, pg.len() as int) {
                                Err(e) => Err(e),
                                Ok(gs) => match fix_groups(gs.0, ps.1, gs.1, gs.0.len() as int) {
                                    Err(e) => Err(e),
                                    Ok(fixed) => Ok(
                                        map_insert(
                                            map_insert(out1, YamlV::Str(PROXY_GROUPS@), YamlV::List(fixed)),
                                            YamlV::Str("clashtui"@),
                                            YamlV::Null,
                                        ),
                                    ),
                                },
                            },
                            _ => Err(TemplateError::ProxyGroups),
                        }
                    },
                },
                _ => Err(TemplateError::ProxyProviders),
            }
        },
    }
}


// ---------------------------------------------------------------------------
// Executable expansion.

/// The generated names, as stored while expanding.
pub open spec fn names_view(rows: Seq<(String, Vec<String>)>) -> NameTable {
    rows.map_values(|r: (String, Vec<String>)| (r.0@, strings_view(r.1@)))
}

/// Name and URL pairs as texts.
pub open spec fn pairs_view(pairs: Seq<(String, String)>) -> Seq<(Seq<char>, Seq<char>)> {
    pairs.map_values(|p: (String, String)| (p.0@, p.1@))
}

proof fn lemma_table_find_bound(m: NameTable, k: Seq<char>, i: int)
    ensures
        table_find(m, k, i) matches Some(j) ==> i <= j < m.len() && m[j].0 == k,
    decreases m.len() - i,
{
    if 0 <= i < m.len() && m[i].0 != k {
        lemma_table_find_bound(m, k, i + 1);
    }
}

pub(crate) fn copy_strings(v: &Vec<String>) -> (r: Vec<String>)
    ensures
        strings_view(r@) == strings_view(v@),
{
    let mut out: Vec<String> = Vec::new();
    let mut i: usize = 0;
    while i < v.len()
        invariant
            i <= v.len(),
            out@.len() == i,
            forall|j: int| 0 <= j < i ==> #[trigger] out@[j]@ == v@[j]@,
        decreases v.len() - i,
    {
        out.push(text_to_string(v[i].as_str()));
        i = i + 1;
    }
    proof {
        assert(strings_view(out@) =~= strings_view(v@));
    }
    out
}

/// The row of the table whose key is `k`.
pub(crate) fn names_find(rows: &Vec<(String, Vec<String>)>, k: &str) -> (r: Option<usize>)
    ensures
        match r {
            Some(i) => i < rows@.len() && table_find(names_view(rows@), k@, 0) == Some(i as int),
            None => table_find(names_view(rows@), k@, 0) is None,
        },
{
    let mut i: usize = 0;
    while i < rows.len()
        invariant
            i <= rows@.len(),
            table_find(names_view(rows@), k@, 0) == table_find(names_view(rows@), k@, i as int),
        decreases rows@.len() - i,
    {
        if text_eq(rows[i].0.as_str(), k) {
            return Some(i);
        }
        i = i + 1;
    }
    None
}

/// Records `v` as one more name generated for `k`.
pub(crate) fn names_push(rows: &mut Vec<(String, Vec<String>)>, k: &str, v: String)
    ensures
        names_view(final(rows)@) == table_push(names_view(old(rows)@), k@, v@),
{
    let ghost before = rows@;
    match names_find(rows, k) {
        Some(i) => {
            let mut names = copy_strings(&rows[i].1);
            let key = text_to_string(rows[i].0.as_str());
            let ghost vv = v@;
            names.push(v);
            rows.set(i, (key, names));
            proof {
                assert(strings_view(names@) == strings_view(before[i as int].1@).push(vv));
                assert(names_view(rows@) =~= table_push(names_view(before), k@, vv));
            }
        },
        None => {
            let ghost vv = v@;
            let mut names: Vec<String> = Vec::new();
            names.push(v);
            rows.push((text_to_string(k), names));
            proof {
                assert(strings_view(names@) =~= seq![vv]);
                assert(names_view(rows@) =~= table_push(names_view(before), k@, vv));
            }
        },
    }
}

/// Adds an empty row for `k` when the table has none.
pub(crate) fn names_touch(rows: &mut Vec<(String, Vec<String>)>, k: &str)
    ensures
        names_view(final(rows)@) == table_touch(names_view(old(rows)@), k@),
{
    let ghost before = rows@;
    match names_find(rows, k) {
        Some(_) => {},
        None => {
            let names: Vec<String> = Vec::new();
            rows.push((text_to_string(k), names));
            proof {
                assert(strings_view(names@) =~= seq![]);
                assert(names_view(rows@) =~= names_view(before).push((k@, seq![])));
            }
        },
    }
}

/// Whether `s` is one of the texts of `v`.
fn contains_text(v: &Vec<String>, s: &str) -> (r: bool)
    ensures
        r == strings_view(v@).contains(s@),
{
    let mut i: usize = 0;
    while i < v.len()
        invariant
            i <= v.len(),
            forall|j: int| 0 <= j < i ==> v@[j]@ != s@,
        decreases v.len() - i,
    {
        if text_eq(v[i].as_str(), s) {
            proof {
                assert(strings_view(v@)[i as int] == s@);
            }
            return true;
        }
        i = i + 1;
    }
    proof {
        if strings_view(v@).contains(s@) {
            let j = choose|j: int| 0 <= j < strings_view(v@).len() && strings_view(v@)[j] == s@;
            assert(v@[j]@ == s@);
        }
    }
    false
}

/// The `uses` list of a `clashtui` section.
fn uses_exec(cfg: &Yaml) -> (r: Option<Vec<String>>)
    ensures
        match r {
            Some(v) => uses_of(cfg@) == Some(strings_view(v@)),
            None => uses_of(cfg@) is None,
        },
{
    match cfg.get("uses") {
        Some(Yaml::Sequence(items)) => {
            proof {
                lemma_seq_view(items@);
                assert(yget(cfg@, "uses"@) == Some(YamlV::List(seq_view(items@))));
            }
            let mut out: Vec<String> = Vec::new();
            let mut i: usize = 0;
            while i < items.len()
                invariant
                    i <= items@.len(),
                    out@.len() == i,
                    yget(cfg@, "uses"@) == Some(YamlV::List(seq_view(items@))),
                    seq_view(items@).len() == items@.len(),
                    forall|j: int| 0 <= j < items@.len() ==> #[trigger] seq_view(items@)[j] == yaml_view(items@[j]),
                    forall|j: int| 0 <= j < i ==> yaml_view(#[trigger] items@[j]) == YamlV::Str(out@[j]@),
                decreases items@.len() - i,
            {
                match items[i].as_str() {
                    Some(t) => {
                        out.push(text_to_string(t));
                    },
                    None => {
                        proof {
                            assert(!(seq_view(items@)[i as int] is Str));
                        }
                        return None;
                    },
                }
                i = i + 1;
            }
            proof {
                let sv = seq_view(items@);
                assert forall|j: int| 0 <= j < sv.len() implies #[trigger] sv[j] is Str by {
                    assert(yaml_view(items@[j]) == YamlV::Str(out@[j]@));
                }
                assert(sv.map_values(|y: YamlV| y->Str_0) =~= strings_view(out@));
            }
            Some(out)
        },
        _ => None,
    }
}

/// The URLs of the pairs whose names are in `uses`, in the order of the pairs.
fn used_urls_exec(pairs: &Vec<(String, String)>, uses: &Vec<String>) -> (r: Vec<String>)
    ensures
        strings_view(r@) == used_urls(pairs_view(pairs@), strings_view(uses@)),
{
    let ghost u = strings_view(uses@);
    let ghost f = |p: (Seq<char>, Seq<char>)| u.contains(p.0);
    let mut out: Vec<String> = Vec::new();
    let mut i: usize = 0;
    while i < pairs.len()
        invariant
            i <= pairs@.len(),
            u == strings_view(uses@),
            f == (|p: (Seq<char>, Seq<char>)| u.contains(p.0)),
            strings_view(out@) == used_urls(pairs_view(pairs@.take(i as int)), u),
        decreases pairs@.len() - i,
    {
        let ghost prev = out@;
        let ghost pv = pairs_view(pairs@.take(i as int));
        let ghost p = (pairs@[i as int].0@, pairs@[i as int].1@);
        proof {
            assert(pairs_view(pairs@.take(i as int + 1)) =~= pv.push(p));
            reveal_with_fuel(Seq::filter, 1);
            assert(pv.push(p).drop_last() =~= pv);
        }
        if contains_text(uses, pairs[i].0.as_str()) {
            out.push(text_to_string(pairs[i].1.as_str()));
            proof {
                assert(pv.push(p).filter(f) == pv.filter(f).push(p));
                assert(strings_view(out@) =~= strings_view(prev).push(p.1));
            }
        } else {
            proof {
                assert(pv.push(p).filter(f) == pv.filter(f));
            }
        }
        i = i + 1;
    }
    proof {
        assert(pairs@.take(pairs@.len() as int) =~= pairs@);
    }
    out
}

/// The subscription URLs that the template asks for.
fn local_urls_exec(tpl: &YamlMap, pairs: &Vec<(String, String)>) -> (r: Result<Vec<String>, TemplateError>)
    ensures
        match r {
            Ok(v) => local_urls(tpl@, pairs_view(pairs@)) == Ok::<Seq<Seq<char>>, TemplateError>(strings_view(v@)),
            Err(e) => local_urls(tpl@, pairs_view(pairs@)) == Err::<Seq<Seq<char>>, TemplateError>(e),
        },
{
    match tpl.get("clashtui") {
        None => {
            let v: Vec<String> = Vec::new();
            proof {
                assert(strings_view(v@) =~= seq![]);
            }
            Ok(v)
        },
        Some(cfg) => match uses_exec(cfg) {
            Some(uses) => Ok(used_urls_exec(pairs, &uses)),
            None => Err(TemplateError::BadConfig),
        },
    }
}

proof fn lemma_provider_urls_err(
    st: PState,
    k: YamlV,
    m: Seq<(YamlV, YamlV)>,
    urls: Seq<Seq<char>>,
    stem: Seq<char>,
    j: int,
    n: int,
)
    requires
        0 <= j <= n,
        provider_urls(st, k, m, urls, stem, j) is Err,
    ensures
        provider_urls(st, k, m, urls, stem, n) == provider_urls(st, k, m, urls, stem, j),
    decreases n - j,
{
    if j < n {
        lemma_provider_urls_err(st, k, m, urls, stem, j, n - 1);
    }
}

proof fn lemma_expand_providers_err(pp: Seq<(YamlV, YamlV)>, urls: Seq<Seq<char>>, stem: Seq<char>, j: int, n: int)
    requires
        0 <= j <= n,
        expand_providers(pp, urls, stem, j) is Err,
    ensures
        expand_providers(pp, urls, stem, n) == expand_providers(pp, urls, stem, j),
    decreases n - j,
{
    if j < n {
        lemma_expand_providers_err(pp, urls, stem, j, n - 1);
    }
}

/// Instantiates the templated provider `k` (body `m`) once per URL, adding the
/// instances to `out` and their names to `rows`.
fn provider_urls_exec(
    out: &mut YamlMap,
    rows: &mut Vec<(String, Vec<String>)>,
    k: &Yaml,
    m: &YamlMap,
    urls: &Vec<String>,
    stem: &str,
) -> (r: Result<(), TemplateError>)
    ensures
        match r {
            Ok(_) => provider_urls(
                (old(out)@, names_view(old(rows)@)),
                k@,
                m@,
                strings_view(urls@),
                stem@,
                urls@.len() as int,
            ) == Ok::<PState, TemplateError>((final(out)@, names_view(final(rows)@))),
            Err(e) => provider_urls(
                (old(out)@, names_view(old(rows)@)),
                k@,
                m@,
                strings_view(urls@),
                stem@,
                urls@.len() as int,
            ) == Err::<PState, TemplateError>(e),
        },
{
    let ghost st0: PState = (out@, names_view(rows@));
    let ghost u = strings_view(urls@);
    let mut j: usize = 0;
    while j < urls.len()
        invariant
            j <= urls@.len(),
            u == strings_view(urls@),
            st0 == (old(out)@, names_view(old(rows)@)),
            provider_urls(st0, k@, m@, u, stem@, j as int) == Ok::<PState, TemplateError>((out@, names_view(rows@))),
        decreases urls@.len() - j,
    {
        let ks = match k.as_str() {
            Some(t) => t,
            None => {
                proof {
                    assert(!(k@ is Str));
                    assert(provider_urls(st0, k@, m@, u, stem@, j as int + 1) == Err::<PState, TemplateError>(
                        TemplateError::ProviderKey,
                    ));
                    lemma_provider_urls_err(st0, k@, m@, u, stem@, j as int + 1, urls@.len() as int);
                }
                return Err(TemplateError::ProviderKey);
            },
        };
        let idx = u64_to_decimal(j as u64);
        let mut name = text_to_string(ks);
        name.append(idx.as_str());
        let mut body = m.dup();
        body.remove("tpl_param");
        body.insert(Yaml::String(text_to_string("url")), Yaml::String(text_to_string(urls[j].as_str())));
        let mut path = text_to_string("proxy-providers/tpl/");
        path.append(stem);
        path.append("/");
        path.append(name.as_str());
        path.append(".yaml");
        body.insert(Yaml::String(text_to_string("path")), Yaml::String(path));
        out.insert(Yaml::String(text_to_string(name.as_str())), Yaml::Mapping(body));
        names_push(rows, ks, name);
        j = j + 1;
    }
    Ok(())
}

/// Expands the proxy-provider section.
fn expand_providers_exec(pp: &YamlMap, urls: &Vec<String>, stem: &str) -> (r: Result<
    (YamlMap, Vec<(String, Vec<String>)>),
    TemplateError,
>)
    ensures
        match r {
            Ok((m, rows)) => expand_providers(pp@, strings_view(urls@), stem@, pp@.len() as int) == Ok::<
                PState,
                TemplateError,
            >((m@, names_view(rows@))),
            Err(e) => expand_providers(pp@, strings_view(urls@), stem@, pp@.len() as int) == Err::<
                PState,
                TemplateError,
            >(e),
        },
{
    proof {
        lemma_entries_view(pp.entries@);
    }
    let ghost u = strings_view(urls@);
    let mut out = YamlMap::new();
    let mut rows: Vec<(String, Vec<String>)> = Vec::new();
    proof {
        assert(names_view(rows@) =~= seq![]);
    }
    let mut i: usize = 0;
    while i < pp.entries.len()
        invariant
            i <= pp.entries@.len(),
            u == strings_view(urls@),
            entries_view(pp.entries@).len() == pp.entries@.len(),
            forall|j: int|
                0 <= j < pp.entries@.len() ==> #[trigger] entries_view(pp.entries@)[j] == (
                    yaml_view(pp.entries@[j].0),
                    yaml_view(pp.entries@[j].1),
                ),
            expand_providers(pp@, u, stem@, i as int) == Ok::<PState, TemplateError>((out@, names_view(rows@))),
        decreases pp.entries@.len() - i,
    {
        let k = &pp.entries[i].0;
        let v = &pp.entries[i].1;
        assert(pp@[i as int] == (k@, v@));
        match v.get("tpl_param") {
            None => {
                out.insert(k.dup(), v.dup());
            },
            Some(_) => match v {
                Yaml::Mapping(m) => {
                    match k.as_str() {
                        Some(ks) => names_touch(&mut rows, ks),
                        None => {},
                    }
                    let res = provider_urls_exec(&mut out, &mut rows, k, m, urls, stem);
                    match res {
                        Ok(_) => {},
                        Err(e) => {
                            proof {
                                lemma_expand_providers_err(pp@, u, stem@, i as int + 1, pp@.len() as int);
                            }
                            return Err(e);
                        },
                    }
                },
                _ => {
                    proof {
                        lemma_expand_providers_err(pp@, u, stem@, i as int + 1, pp@.len() as int);
                    }
                    return Err(TemplateError::ProviderValue);
                },
            },
        }
        i = i + 1;
    }
    Ok((out, rows))
}

proof fn lemma_group_keys_err(
    st: GState,
    g: YamlV,
    keys: Seq<YamlV>,
    pp_names: NameTable,
    j: int,
    n: int,
)
    requires
        0 <= j <= n,
        group_keys_step(st, g, keys, pp_names, j) is Err,
    ensures
        group_keys_step(st, g, keys, pp_names, n) == group_keys_step(st, g, keys, pp_names, j),
    decreases n - j,
{
    if j < n {
        lemma_group_keys_err(st, g, keys, pp_names, j, n - 1);
    }
}

proof fn lemma_expand_groups_err(pg: Seq<YamlV>, pp_names: NameTable, j: int, n: int)
    requires
        0 <= j <= n,
        expand_groups(pg, pp_names, j) is Err,
    ensures
        expand_groups(pg, pp_names, n) == expand_groups(pg, pp_names, j),
    decreases n - j,
{
    if j < n {
        lemma_expand_groups_err(pg, pp_names, j, n - 1);
    }
}

/// Instantiates the group named `gname` (current body `body`) once per provider name.
fn group_names_exec(
    groups: &mut Vec<Yaml>,
    pg_rows: &mut Vec<(String, Vec<String>)>,
    body: &mut YamlMap,
    gname: &str,
    names: &Vec<String>,
)
    ensures
        group_names_step(
            (seq_view(old(groups)@), names_view(old(pg_rows)@), old(body)@),
            gname@,
            strings_view(names@),
            names@.len() as int,
        ) == (seq_view(final(groups)@), names_view(final(pg_rows)@), final(body)@),
{
    let ghost st0: GState = (seq_view(groups@), names_view(pg_rows@), body@);
    let ghost nv = strings_view(names@);
    let mut j: usize = 0;
    while j < names.len()
        invariant
            j <= names@.len(),
            nv == strings_view(names@),
            st0 == (seq_view(old(groups)@), names_view(old(pg_rows)@), old(body)@),
            group_names_step(st0, gname@, nv, j as int) == (seq_view(groups@), names_view(pg_rows@), body@),
        decreases names@.len() - j,
    {
        let n = names[j].as_str();
        let new_name = concat3(gname, "-", n);
        body.insert(Yaml::String(text_to_string("name")), Yaml::String(text_to_string(new_name.as_str())));
        let mut one: Vec<Yaml> = Vec::new();
        one.push(Yaml::String(text_to_string(n)));
        proof {
            lemma_seq_view(one@);
            assert(seq_view(one@) =~= seq![YamlV::Str(n@)]);
        }
        body.insert(Yaml::String(text_to_string("use")), Yaml::Sequence(one));
        let ghost prev = groups@;
        let copy = Yaml::Mapping(body.dup());
        groups.push(copy);
        proof {
            lemma_seq_view_push(prev, copy);
        }
        names_push(pg_rows, gname, new_name);
        j = j + 1;
    }
}

/// Instantiates the templated group `g` for each entry of its `providers` list.
fn group_keys_exec(
    groups: &mut Vec<Yaml>,
    pg_rows: &mut Vec<(String, Vec<String>)>,
    body: &mut YamlMap,
    g: &Yaml,
    keys: &Vec<Yaml>,
    pp_rows: &Vec<(String, Vec<String>)>,
) -> (r: Result<(), TemplateError>)
    ensures
        match r {
            Ok(_) => group_keys_step(
                (seq_view(old(groups)@), names_view(old(pg_rows)@), old(body)@),
                g@,
                seq_view(keys@),
                names_view(pp_rows@),
                keys@.len() as int,
            ) == Ok::<GState, TemplateError>((seq_view(final(groups)@), names_view(final(pg_rows)@), final(body)@)),
            Err(e) => group_keys_step(
                (seq_view(old(groups)@), names_view(old(pg_rows)@), old(body)@),
                g@,
                seq_view(keys@),
                names_view(pp_rows@),
                keys@.len() as int,
            ) == Err::<GState, TemplateError>(e),
        },
{
    proof {
        lemma_seq_view(keys@);
    }
    let ghost st0: GState = (seq_view(groups@), names_view(pg_rows@), body@);
    let ghost kv = seq_view(keys@);
    let ghost pv = names_view(pp_rows@);
    let mut j: usize = 0;
    while j < keys.len()
        invariant
            j <= keys@.len(),
            kv == seq_view(keys@),
            pv == names_view(pp_rows@),
            kv.len() == keys@.len(),
            forall|i: int| 0 <= i < keys@.len() ==> #[trigger] kv[i] == yaml_view(keys@[i]),
            st0 == (seq_view(old(groups)@), names_view(old(pg_rows)@), old(body)@),
            group_keys_step(st0, g@, kv, pv, j as int) == Ok::<GState, TemplateError>(
                (seq_view(groups@), names_view(pg_rows@), body@),
            ),
        decreases keys@.len() - j,
    {
        assert(kv[j as int] == keys@[j as int]@);
        match keys[j].as_str() {
            None => {
                proof {
                    lemma_group_keys_err(st0, g@, kv, pv, j as int + 1, keys@.len() as int);
                }
                return Err(TemplateError::ProviderName);
            },
            Some(pk) => match names_find(pp_rows, pk) {
                None => {},
                Some(idx) => match g.get("name") {
                    Some(Yaml::String(gname)) => {
                        proof {
                            assert(pv[idx as int].1 == strings_view(pp_rows@[idx as int].1@));
                        }
                        if pp_rows[idx].1.len() == 0 {
                            names_touch(pg_rows, gname.as_str());
                        } else {
                            group_names_exec(groups, pg_rows, body, gname.as_str(), &pp_rows[idx].1);
                        }
                    },
                    _ if pp_rows[idx].1.len() == 0 => {
                        proof {
                            assert(pv[idx as int].1 == strings_view(pp_rows@[idx as int].1@));
                        }
                    },
                    _ => {
                        proof {
                            lemma_group_keys_err(st0, g@, kv, pv, j as int + 1, keys@.len() as int);
                        }
                        return Err(TemplateError::GroupName);
                    },
                },
            },
        }
        j = j + 1;
    }
    Ok(())
}

/// Expands the proxy-group section against the generated provider names.
fn expand_groups_exec(pg: &Vec<Yaml>, pp_rows: &Vec<(String, Vec<String>)>) -> (r: Result<
    (Vec<Yaml>, Vec<(String, Vec<String>)>),
    TemplateError,
>)
    ensures
        match r {
            Ok((gs, rows)) => expand_groups(seq_view(pg@), names_view(pp_rows@), pg@.len() as int) == Ok::<
                (Seq<YamlV>, NameTable),
                TemplateError,
            >((seq_view(gs@), names_view(rows@))),
            Err(e) => expand_groups(seq_view(pg@), names_view(pp_rows@), pg@.len() as int) == Err::<
                (Seq<YamlV>, NameTable),
                TemplateError,
            >(e),
        },
{
    proof {
        lemma_seq_view(pg@);
    }
    let ghost gv = seq_view(pg@);
    let ghost pv = names_view(pp_rows@);
    let mut groups: Vec<Yaml> = Vec::new();
    let mut rows: Vec<(String, Vec<String>)> = Vec::new();
    proof {
        assert(names_view(rows@) =~= seq![]);
        assert(seq_view(groups@) =~= seq![]);
    }
    let mut i: usize = 0;
    while i < pg.len()
        invariant
            i <= pg@.len(),
            gv == seq_view(pg@),
            pv == names_view(pp_rows@),
            gv.len() == pg@.len(),
            forall|j: int| 0 <= j < pg@.len() ==> #[trigger] gv[j] == yaml_view(pg@[j]),
            expand_groups(gv, pv, i as int) == Ok::<(Seq<YamlV>, NameTable), TemplateError>(
                (seq_view(groups@), names_view(rows@)),
            ),
        decreases pg@.len() - i,
    {
        let g = &pg[i];
        assert(gv[i as int] == g@);
        match g.get("tpl_param") {
            None => {
                let ghost prev = groups@;
                let copy = g.dup();
                groups.push(copy);
                proof {
                    lemma_seq_view_push(prev, copy);
                }
            },
            Some(tp) => match g {
                Yaml::Mapping(m) => match tp.get("providers") {
                    Some(Yaml::Sequence(keys)) => {
                        let mut body = m.dup();
                        body.remove("tpl_param");
                        let ghost rows0 = names_view(rows@);
                        match g.get("name") {
                            Some(Yaml::String(gname)) => names_touch(&mut rows, gname.as_str()),
                            _ => {},
                        }
                        proof {
                            assert(names_view(rows@) == table_touch_group(rows0, g@));
                        }
                        let ghost st = (seq_view(groups@), names_view(rows@), body@);
                        proof {
                            assert(expand_groups(gv, pv, i as int + 1) == group_step(st.0, rows0, g@, pv));
                            assert(yget(g@, "tpl_param"@) is Some);
                            lemma_seq_view(keys@);
                            assert(g@ == YamlV::Dict(m@));
                            assert(yget(map_get(m@, YamlV::Str("tpl_param"@))->0, "providers"@) == Some(
                                YamlV::List(seq_view(keys@)),
                            ));
                            assert(body@ == map_remove(m@, YamlV::Str("tpl_param"@)));
                        }
                        let res = group_keys_exec(&mut groups, &mut rows, &mut body, g, keys, pp_rows);
                        match res {
                            Ok(_) => {},
                            Err(e) => {
                                proof {
                                    assert(group_keys_step(st, g@, seq_view(keys@), pv, keys@.len() as int) == Err::<GState, TemplateError>(e));
                                    assert(group_step(st.0, rows0, g@, pv) == Err::<(Seq<YamlV>, NameTable), TemplateError>(e));
                                    assert(expand_groups(gv, pv, i as int + 1) == Err::<(Seq<YamlV>, NameTable), TemplateError>(e));
                                    lemma_expand_groups_err(gv, pv, i as int + 1, pg@.len() as int);
                                }
                                return Err(e);
                            },
                        }
                    },
                    _ => {
                        proof {
                            lemma_expand_groups_err(gv, pv, i as int + 1, pg@.len() as int);
                        }
                        return Err(TemplateError::Providers);
                    },
                },
                _ => {
                    proof {
                        lemma_expand_groups_err(gv, pv, i as int + 1, pg@.len() as int);
                    }
                    return Err(TemplateError::GroupValue);
                },
            },
        }
        i = i + 1;
    }
    Ok((groups, rows))
}

proof fn lemma_resolve_list_err(
    items: Seq<YamlV>,
    names: NameTable,
    not_string: TemplateError,
    unknown: TemplateError,
    j: int,
    n: int,
)
    requires
        0 <= j <= n,
        resolve_list(items, names, not_string, unknown, j) is Err,
    ensures
        resolve_list(items, names, not_string, unknown, n) == resolve_list(items, names, not_string, unknown, j),
    decreases n - j,
{
    if j < n {
        lemma_resolve_list_err(items, names, not_string, unknown, j, n - 1);
    }
}

proof fn lemma_fix_groups_err(gs: Seq<YamlV>, pp_names: NameTable, pg_names: NameTable, j: int, n: int)
    requires
        0 <= j <= n,
        fix_groups(gs, pp_names, pg_names, j) is Err,
    ensures
        fix_groups(gs, pp_names, pg_names, n) == fix_groups(gs, pp_names, pg_names, j),
    decreases n - j,
{
    if j < n {
        lemma_fix_groups_err(gs, pp_names, pg_names, j, n - 1);
    }
}

fn is_angle_exec(c: char) -> (r: bool)
    ensures
        r == is_angle(c),
{
    c == '<' || c == '>'
}

/// Whether the text is a `<...>` placeholder.
pub(crate) fn is_placeholder_exec(s: &str) -> (r: bool)
    ensures
        r == is_placeholder(s@),
{
    let n = s.unicode_len();
    n > 0 && s.get_char(0) == '<' && s.get_char(n - 1) == '>'
}

/// The text with the angle brackets at both of its ends removed.
pub(crate) fn trim_angles_exec(s: &str) -> (r: &str)
    ensures
        r@ == trim_angles(s@),
{
    let n = s.unicode_len();
    let mut a: usize = 0;
    loop
        invariant
            a <= n,
            n == s@.len(),
            leading_angles(s@, 0) == leading_angles(s@, a as int),
        ensures
            a <= n,
            leading_angles(s@, 0) == a,
            a < n ==> !is_angle(s@[a as int]),
        decreases n - a,
    {
        if a >= n {
            break;
        }
        if !is_angle_exec(s.get_char(a)) {
            break;
        }
        a = a + 1;
    }
    if a >= n {
        return s.substring_char(n, n);
    }
    let mut b: usize = n;
    loop
        invariant
            a < b <= n,
            n == s@.len(),
            !is_angle(s@[a as int]),
            trailing_end(s@, n as int) == trailing_end(s@, b as int),
        ensures
            a < b <= n,
            trailing_end(s@, n as int) == b,
        decreases b,
    {
        if !is_angle_exec(s.get_char(b - 1)) {
            break;
        }
        b = b - 1;
    }
    s.substring_char(a, b)
}

/// The texts of a list, with each placeholder replaced by the names generated for it.
fn resolve_list_exec(
    items: &Vec<Yaml>,
    rows: &Vec<(String, Vec<String>)>,
    not_string: TemplateError,
    unknown: TemplateError,
) -> (r: Result<Vec<String>, TemplateError>)
    ensures
        match r {
            Ok(v) => resolve_list(seq_view(items@), names_view(rows@), not_string, unknown, items@.len() as int)
                == Ok::<Seq<Seq<char>>, TemplateError>(strings_view(v@)),
            Err(e) => resolve_list(seq_view(items@), names_view(rows@), not_string, unknown, items@.len() as int)
                == Err::<Seq<Seq<char>>, TemplateError>(e),
        },
{
    proof {
        lemma_seq_view(items@);
    }
    let ghost iv = seq_view(items@);
    let ghost nv = names_view(rows@);
    let mut out: Vec<String> = Vec::new();
    proof {
        assert(strings_view(out@) =~= seq![]);
    }
    let mut j: usize = 0;
    while j < items.len()
        invariant
            j <= items@.len(),
            iv == seq_view(items@),
            nv == names_view(rows@),
            iv.len() == items@.len(),
            forall|i: int| 0 <= i < items@.len() ==> #[trigger] iv[i] == yaml_view(items@[i]),
            resolve_list(iv, nv, not_string, unknown, j as int) == Ok::<Seq<Seq<char>>, TemplateError>(
                strings_view(out@),
            ),
        decreases items@.len() - j,
    {
        assert(iv[j as int] == items@[j as int]@);
        let ghost prev = out@;
        match items[j].as_str() {
            None => {
                proof {
                    lemma_resolve_list_err(iv, nv, not_string, unknown, j as int + 1, items@.len() as int);
                }
                return Err(not_string);
            },
            Some(t) => {
                if is_placeholder_exec(t) {
                    let key = trim_angles_exec(t);
                    match names_find(rows, key) {
                        None => {
                            proof {
                                lemma_resolve_list_err(iv, nv, not_string, unknown, j as int + 1, items@.len() as int);
                            }
                            return Err(unknown);
                        },
                        Some(idx) => {
                            let names = &rows[idx].1;
                            let mut q: usize = 0;
                            while q < names.len()
                                invariant
                                    q <= names@.len(),
                                    out@.len() == prev.len() + q,
                                    forall|x: int| 0 <= x < prev.len() ==> #[trigger] out@[x] == prev[x],
                                    forall|x: int|
                                        prev.len() <= x < prev.len() + q ==> #[trigger] out@[x]@ == names@[x - prev.len()]@,
                                decreases names@.len() - q,
                            {
                                out.push(text_to_string(names[q].as_str()));
                                q = q + 1;
                            }
                            proof {
                                assert(nv[idx as int].1 == strings_view(names@));
                                assert(strings_view(out@) =~= strings_view(prev) + strings_view(names@));
                            }
                        },
                    }
                } else {
                    out.push(text_to_string(t));
                    proof {
                        assert(strings_view(out@) =~= strings_view(prev).push(t@));
                    }
                }
            },
        }
        j = j + 1;
    }
    Ok(out)
}

/// A list of texts as a YAML sequence.
fn str_list_exec(v: &Vec<String>) -> (r: Yaml)
    ensures
        r@ == str_list(strings_view(v@)),
{
    let mut items: Vec<Yaml> = Vec::new();
    let mut i: usize = 0;
    while i < v.len()
        invariant
            i <= v@.len(),
            items@.len() == i,
            forall|j: int| 0 <= j < i ==> yaml_view(#[trigger] items@[j]) == YamlV::Str(v@[j]@),
        decreases v@.len() - i,
    {
        items.push(Yaml::String(text_to_string(v[i].as_str())));
        i = i + 1;
    }
    proof {
        lemma_seq_view(items@);
        assert(seq_view(items@) =~= strings_view(v@).map_values(|t: Seq<char>| YamlV::Str(t)));
    }
    Yaml::Sequence(items)
}

/// Sets text key `k` of a mapping tree; any other tree is copied unchanged.
fn yset_exec(y: &Yaml, k: &str, v: Yaml) -> (r: Yaml)
    ensures
        r@ == yset(y@, k@, v@),
{
    match y {
        Yaml::Mapping(m) => {
            let mut m2 = m.dup();
            m2.insert(Yaml::String(text_to_string(k)), v);
            Yaml::Mapping(m2)
        },
        _ => y.dup(),
    }
}

/// A group with the placeholders of its `use` and `proxies` lists resolved.
fn fix_group_exec(g: &Yaml, pp_rows: &Vec<(String, Vec<String>)>, pg_rows: &Vec<(String, Vec<String>)>) -> (r: Result<
    Yaml,
    TemplateError,
>)
    ensures
        match r {
            Ok(y) => fix_group(g@, names_view(pp_rows@), names_view(pg_rows@)) == Ok::<YamlV, TemplateError>(y@),
            Err(e) => fix_group(g@, names_view(pp_rows@), names_view(pg_rows@)) == Err::<YamlV, TemplateError>(e),
        },
{
    let g1 = match g.get("use") {
        None => g.dup(),
        Some(Yaml::Sequence(items)) => {
            proof {
                lemma_seq_view(items@);
            }
            match resolve_list_exec(items, pp_rows, TemplateError::UseNotString, TemplateError::UnknownProvider) {
                Ok(out) => yset_exec(g, "use", str_list_exec(&out)),
                Err(e) => {
                    return Err(e);
                },
            }
        },
        Some(_) => {
            return Err(TemplateError::UseNotSequence);
        },
    };
    match g1.get("proxies") {
        Some(Yaml::Sequence(items)) => {
            proof {
                lemma_seq_view(items@);
            }
            match resolve_list_exec(items, pg_rows, TemplateError::ProxiesNotString, TemplateError::UnknownGroup) {
                Ok(out) => Ok(yset_exec(&g1, "proxies", str_list_exec(&out))),
                Err(e) => Err(e),
            }
        },
        _ => Ok(g1),
    }
}

/// All groups with their placeholders resolved.
fn fix_groups_exec(gs: &Vec<Yaml>, pp_rows: &Vec<(String, Vec<String>)>, pg_rows: &Vec<(String, Vec<String>)>) -> (r: Result<
    Vec<Yaml>,
    TemplateError,
>)
    ensures
        match r {
            Ok(v) => fix_groups(seq_view(gs@), names_view(pp_rows@), names_view(pg_rows@), gs@.len() as int) == Ok::<
                Seq<YamlV>,
                TemplateError,
            >(seq_view(v@)),
            Err(e) => fix_groups(seq_view(gs@), names_view(pp_rows@), names_view(pg_rows@), gs@.len() as int)
                == Err::<Seq<YamlV>, TemplateError>(e),
        },
{
    proof {
        lemma_seq_view(gs@);
    }
    let ghost gv = seq_view(gs@);
    let ghost ppv = names_view(pp_rows@);
    let ghost pgv = names_view(pg_rows@);
    let mut out: Vec<Yaml> = Vec::new();
    proof {
        assert(seq_view(out@) =~= seq![]);
    }
    let mut i: usize = 0;
    while i < gs.len()
        invariant
            i <= gs@.len(),
            gv == seq_view(gs@),
            ppv == names_view(pp_rows@),
            pgv == names_view(pg_rows@),
            gv.len() == gs@.len(),
            forall|j: int| 0 <= j < gs@.len() ==> #[trigger] gv[j] == yaml_view(gs@[j]),
            fix_groups(gv, ppv, pgv, i as int) == Ok::<Seq<YamlV>, TemplateError>(seq_view(out@)),
        decreases gs@.len() - i,
    {
        assert(gv[i as int] == gs@[i as int]@);
        match fix_group_exec(&gs[i], pp_rows, pg_rows) {
            Ok(y) => {
                let ghost prev = out@;
                let ghost yv = y@;
                out.push(y);
                proof {
                    lemma_seq_view_push(prev, y);
                }
            },
            Err(e) => {
                proof {
                    lemma_fix_groups_err(gv, ppv, pgv, i as int + 1, gs@.len() as int);
                }
                return Err(e);
            },
        }
        i = i + 1;
    }
    Ok(out)
}

/// Expands the template `tpl` for the subscriptions `name_urls` (name and URL
/// pairs), with generated provider files stored under
/// `proxy-providers/tpl/<stem>/`.
pub fn expand_template(tpl: &YamlMap, stem: &str, name_urls: &Vec<(String, String)>) -> (r: Result<
    YamlMap,
    TemplateError,
>)
    ensures
        match r {
            Ok(m) => expand_spec(tpl@, stem@, pairs_view(name_urls@)) == Ok::<Seq<(YamlV, YamlV)>, TemplateError>(m@),
            Err(e) => expand_spec(tpl@, stem@, pairs_view(name_urls@)) == Err::<Seq<(YamlV, YamlV)>, TemplateError>(e),
        },
{
    let urls = match local_urls_exec(tpl, name_urls) {
        Ok(u) => u,
        Err(e) => {
            return Err(e);
        },
    };
    let mut rest = tpl.dup();
    rest.remove("clashtui");
    let pp = match rest.get(PROXY_PROVIDERS) {
        Some(Yaml::Mapping(pp)) => pp,
        _ => {
            return Err(TemplateError::ProxyProviders);
        },
    };
    proof {
        lemma_entries_view(pp.entries@);
    }
    let (new_pp, pp_rows) = match expand_providers_exec(pp, &urls, stem) {
        Ok(res) => res,
        Err(e) => {
            return Err(e);
        },
    };
    let mut out = tpl.dup();
    out.insert(Yaml::String(text_to_string(PROXY_PROVIDERS)), Yaml::Mapping(new_pp));
    let pg = match rest.get(PROXY_GROUPS) {
        Some(Yaml::Sequence(pg)) => pg,
        _ => {
            return Err(TemplateError::ProxyGroups);
        },
    };
    proof {
        lemma_seq_view(pg@);
    }
    let (gs, pg_rows) = match expand_groups_exec(pg, &pp_rows) {
        Ok(res) => res,
        Err(e) => {
            return Err(e);
        },
    };
    proof {
        lemma_seq_view(gs@);
    }
    let fixed = match fix_groups_exec(&gs, &pp_rows, &pg_rows) {
        Ok(f) => f,
        Err(e) => {
            return Err(e);
        },
    };
    out.insert(Yaml::String(text_to_string(PROXY_GROUPS)), Yaml::Sequence(fixed));
    out.insert(Yaml::String(text_to_string("clashtui")), Yaml::Null);
    Ok(out)
}

/// What `std::path::Path::file_name` gives for a path: its final component,
/// if it has one.
pub uninterp spec fn file_name_of(path: Seq<char>) -> Option<Seq<char>>;

/// The position of the last `.` among the first `k` characters of `n`, or -1.
pub open spec fn last_dot(n: Seq<char>, k: int) -> int
    decreases k,
{
    if k <= 0 {
        -1
    } else if n[k - 1] == '.' {
        k - 1
    } else {
        last_dot(n, k - 1)
    }
}

/// The stem of a file name: the part before its last `.`, or the whole name
/// when it has no `.` or only a leading one.
pub open spec fn stem_of_name(n: Seq<char>) -> Seq<char> {
    let i = last_dot(n, n.len() as int);
    if i <= 0 {
        n
    } else {
        n.take(i)
    }
}

/// Calls `std::path::Path::file_stem` on `path` and converts the stem to a
/// `String`. Claimed, as the documentation of `file_stem` describes it: there
/// is a stem exactly when the path has a final component (named by
/// `file_name_of`, as `Path::file_name` gives it), and the stem is that
/// component cut at its last `.` (`stem_of_name`). How a path splits into
/// components is not stated. A stem taken from a `&str` is valid UTF-8, so the
/// conversion keeps every stem.
#[verifier::external_body]
pub(crate) fn file_stem(path: &str) -> (r: Option<String>)
    ensures
        match r {
            Some(t) => file_name_of(path@) matches Some(n) && t@ == stem_of_name(n),
            None => file_name_of(path@) is None,
        },
{
    std::path::Path::new(path).file_stem().and_then(|s| s.to_str()).map(|s| s.to_string())
}

/// The stem under which the files of template `tpl_name` are stored: the
/// file name without its extension, or the name itself when it has none.
pub open spec fn template_stem(tpl_name: Seq<char>) -> Seq<char> {
    match file_name_of(tpl_name) {
        Some(n) => stem_of_name(n),
        None => tpl_name,
    }
}

/// Expands template `tpl`, read from the file `tpl_name`, for the
/// subscriptions `name_urls`.
pub fn gen_template(tpl: &YamlMap, tpl_name: &str, name_urls: &Vec<(String, String)>) -> (r: Result<
    YamlMap,
    TemplateError,
>)
    ensures
        match r {
            Ok(m) => expand_spec(tpl@, template_stem(tpl_name@), pairs_view(name_urls@)) == Ok::<
                Seq<(YamlV, YamlV)>,
                TemplateError,
            >(m@),
            Err(e) => expand_spec(tpl@, template_stem(tpl_name@), pairs_view(name_urls@)) == Err::<
                Seq<(YamlV, YamlV)>,
                TemplateError,
            >(e),
        },
{
    match file_stem(tpl_name) {
        Some(stem) => expand_template(tpl, stem.as_str(), name_urls),
        None => expand_template(tpl, tpl_name, name_urls),
    }
}

/// What serde_yml reads from a text as a YAML mapping, if it reads one.
pub uninterp spec fn yaml_text_mapping_of(t: Seq<char>) -> Option<Seq<(YamlV, YamlV)>>;

/// Calls `serde_yml::from_str::<serde_yml::Mapping>` and converts the mapping.
/// Claimed: the result is the reading named by `yaml_text_mapping_of`, a
/// function of the text alone; `None` when serde_yml refuses it.
#[verifier::external_body]
fn parse_yaml_mapping(text: &str) -> (r: Option<YamlMap>)
    ensures
        opt_ymap(r) == yaml_text_mapping_of(text@),
{
    serde_yml::from_str::<serde_yml::Mapping>(text).ok().map(|m| yaml_map_of(&m))
}

/// Reads a template from its text: the YAML mapping it holds, if any.
pub fn load_template(text: &str) -> (r: Option<YamlMap>)
    ensures
        opt_ymap(r) == yaml_text_mapping_of(text@),
{
    parse_yaml_mapping(text)
}

/// Reads a template file's text and expands it: `None` when the text is not
/// a YAML mapping, else what `gen_template` gives for that mapping.
pub fn gen_template_from_text(text: &str, tpl_name: &str, name_urls: &Vec<(String, String)>) -> (r: Option<
    Result<YamlMap, TemplateError>,
>)
    ensures
        match yaml_text_mapping_of(text@) {
            None => r is None,
            Some(tpl) => match r {
                Some(Ok(m)) => expand_spec(tpl, template_stem(tpl_name@), pairs_view(name_urls@)) == Ok::<
                    Seq<(YamlV, YamlV)>,
                    TemplateError,
                >(m@),
                Some(Err(e)) => expand_spec(tpl, template_stem(tpl_name@), pairs_view(name_urls@)) == Err::<
                    Seq<(YamlV, YamlV)>,
                    TemplateError,
                >(e),
                None => false,
            },
        },
{
    match load_template(text) {
        None => None,
        Some(tpl) => Some(gen_template(&tpl, tpl_name, name_urls)),
    }
}

} // verus!
