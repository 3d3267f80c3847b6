use vstd::prelude::*;

use crate::json::{
    jget, jseq_view, json_view, lemma_jseq_view, lemma_jseq_view_push, lemma_members_view,
    member_get, member_set, members_set, members_view, Json, JsonV,
};
use crate::sort::strings_view;
use crate::template::{
    file_stem, is_placeholder, is_placeholder_exec, names_find, names_push, names_view, table_get,
    table_push, template_stem, trim_angles, trim_angles_exec, yget, NameTable, PROXY_GROUPS,
};
use crate::text::{
    concat3, decimal, split_comma, split_comma_exec, starts_with, string_push, text_eq,
    text_starts_with, text_to_string, trim, trim_ws, u64_to_decimal,
};
use crate::yaml::{
    lemma_entries_view, lemma_seq_view, map_get, seq_view, yaml_view, Yaml, YamlMap, YamlV,
};
use vstd::string::{StrSliceExecFns, StringExecFns};

verus! {

/// Why a template could not be turned into a sing-box configuration.
#[derive(Clone, Copy, Debug, PartialEq, Eq, Structural)]
pub enum SingboxError {
    /// The template has no `proxy-groups` entry.
    MissingGroups,
    /// `proxy-groups` is not a sequence.
    GroupsNotSequence,
    /// A templated proxy-group is not a mapping.
    GroupNotMapping,
    /// `tpl_param.providers` is not a sequence.
    ProvidersNotSequence,
    /// A templated proxy-group has no string `name`.
    GroupNoName,
    /// An entry of `tpl_param.providers` is not a string.
    ProviderKeyNotString,
}

impl SingboxError {
    /// The message shown for the error.
    pub fn message(&self) -> (r: &'static str)
        ensures
            r@ == match self {
                SingboxError::MissingGroups => "Missing proxy-groups section in template"@,
                SingboxError::GroupsNotSequence => "proxy-groups must be a sequence"@,
                SingboxError::GroupNotMapping => "proxy-group must be a mapping"@,
                SingboxError::ProvidersNotSequence => "tpl_param.providers must be a sequence"@,
                SingboxError::GroupNoName => "proxy-group must have a name"@,
                SingboxError::ProviderKeyNotString => "provider key in tpl_param.providers must be a string"@,
            },
    {
        match self {
            SingboxError::MissingGroups => "Missing proxy-groups section in template",
            SingboxError::GroupsNotSequence => "proxy-groups must be a sequence",
            SingboxError::GroupNotMapping => "proxy-group must be a mapping",
            SingboxError::ProvidersNotSequence => "tpl_param.providers must be a sequence",
            SingboxError::GroupNoName => "proxy-group must have a name",
            SingboxError::ProviderKeyNotString => "provider key in tpl_param.providers must be a string",
        }
    }
}

/// A duration in seconds as sing-box writes it: whole hours as `<n>h`, whole
/// minutes as `<n>m`, anything else as `<n>s`.
pub open spec fn duration_text(seconds: nat) -> Seq<char> {
    if seconds >= 3600 && seconds % 3600 == 0 {
        decimal(seconds / 3600).push('h')
    } else if seconds >= 60 && seconds % 60 == 0 {
        decimal(seconds / 60).push('m')
    } else {
        decimal(seconds).push('s')
    }
}

/// Converts an interval in seconds to a sing-box duration.
pub fn interval_to_duration(seconds: u64) -> (r: String)
    ensures
        r@ == duration_text(seconds as nat),
{
    if seconds >= 3600 && seconds % 3600 == 0 {
        let mut r = u64_to_decimal(seconds / 3600);
        string_push(&mut r, 'h');
        r
    } else if seconds >= 60 && seconds % 60 == 0 {
        let mut r = u64_to_decimal(seconds / 60);
        string_push(&mut r, 'm');
        r
    } else {
        let mut r = u64_to_decimal(seconds);
        string_push(&mut r, 's');
        r
    }
}

/// A rule object with one member `key` holding `value`, and an `outbound`.
pub open spec fn rule_obj(key: Seq<char>, value: JsonV, target: Seq<char>) -> JsonV {
    JsonV::Object(seq![(key, value), ("outbound"@, JsonV::Str(target))])
}

/// A one-element array holding a text.
pub open spec fn one_str(v: Seq<char>) -> JsonV {
    JsonV::Array(seq![JsonV::Str(v)])
}

/// The matcher, value and target of a rule `MATCHER,value[,target]`.
pub open spec fn rule_parts(s: Seq<char>) -> Option<(Seq<char>, Seq<char>, Seq<char>)> {
    match split_comma(s) {
        None => None,
        Some((p0, rest)) => match split_comma(rest) {
            Some((p1, p2)) => Some((trim(p0), trim(p1), trim(p2))),
            None => Some((trim(p0), trim(rest), seq![])),
        },
    }
}

/// The sing-box route rule for a rule, if its matcher is one sing-box has.
pub open spec fn rule_spec(s: Seq<char>) -> Option<JsonV> {
    match rule_parts(s) {
        None => None,
        Some((m, v, t)) => if m == "DOMAIN-SUFFIX"@ {
            Some(rule_obj("domain_suffix"@, one_str(v), t))
        } else if m == "DOMAIN-KEYWORD"@ {
            Some(rule_obj("domain_keyword"@, one_str(v), t))
        } else if m == "DOMAIN"@ {
            Some(rule_obj("domain"@, one_str(v), t))
        } else if m == "IP-CIDR"@ || m == "IP-CIDR6"@ {
            Some(rule_obj("ip_cidr"@, one_str(v), t))
        } else if m == "PROCESS-NAME"@ {
            Some(rule_obj("process_name"@, one_str(v), t))
        } else if m == "GEOSITE"@ {
            Some(rule_obj("rule_set"@, JsonV::Str("geosite-"@ + v), t))
        } else if m == "GEOIP"@ {
            Some(rule_obj("rule_set"@, JsonV::Str("geoip-"@ + v), t))
        } else {
            None
        },
    }
}

fn rule_json(key: &str, value: Json, target: &str) -> (r: Json)
    ensures
        r@ == rule_obj(key@, value@, target@),
{
    let mut m: Vec<(String, Json)> = Vec::new();
    m.push((text_to_string(key), value));
    m.push((text_to_string("outbound"), Json::Str(text_to_string(target))));
    proof {
        lemma_members_view(m@);
        assert(members_view(m@) =~= seq![(key@, value@), ("outbound"@, JsonV::Str(target@))]);
    }
    Json::Object(m)
}

fn one_str_json(v: &str) -> (r: Json)
    ensures
        r@ == one_str(v@),
{
    let mut a: Vec<Json> = Vec::new();
    a.push(Json::Str(text_to_string(v)));
    proof {
        lemma_jseq_view(a@);
        assert(jseq_view(a@) =~= seq![JsonV::Str(v@)]);
    }
    Json::Array(a)
}

/// Translates a rule such as `DOMAIN-SUFFIX,google.com,Proxy` to a sing-box
/// route rule.
pub fn translate_rule(rule_str: &str) -> (r: Option<Json>)
    ensures
        match r {
            Some(j) => rule_spec(rule_str@) == Some(j@),
            None => rule_spec(rule_str@) is None,
        },
{
    let (p0, rest) = match split_comma_exec(rule_str) {
        Some(parts) => parts,
        None => {
            return None;
        },
    };
    let (m, v, t) = match split_comma_exec(rest) {
        Some((p1, p2)) => (trim_ws(p0), trim_ws(p1), trim_ws(p2)),
        None => (trim_ws(p0), trim_ws(rest), rest.substring_char(0, 0)),
    };
    proof {
        assert(rest@.subrange(0, 0) =~= Seq::<char>::empty());
    }
    if text_eq(m, "DOMAIN-SUFFIX") {
        Some(rule_json("domain_suffix", one_str_json(v), t))
    } else if text_eq(m, "DOMAIN-KEYWORD") {
        Some(rule_json("domain_keyword", one_str_json(v), t))
    } else if text_eq(m, "DOMAIN") {
        Some(rule_json("domain", one_str_json(v), t))
    } else if text_eq(m, "IP-CIDR") || text_eq(m, "IP-CIDR6") {
        Some(rule_json("ip_cidr", one_str_json(v), t))
    } else if text_eq(m, "PROCESS-NAME") {
        Some(rule_json("process_name", one_str_json(v), t))
    } else if text_eq(m, "GEOSITE") {
        let mut s = text_to_string("geosite-");
        s.append(v);
        Some(rule_json("rule_set", Json::Str(s), t))
    } else if text_eq(m, "GEOIP") {
        let mut s = text_to_string("geoip-");
        s.append(v);
        Some(rule_json("rule_set", Json::Str(s), t))
    } else {
        None
    }
}

/// Members of a JSON object.
pub type Members = Seq<(Seq<char>, JsonV)>;

/// The text of a tree that is a string, or `d`.
pub open spec fn str_or(y: Option<YamlV>, d: Seq<char>) -> Seq<char> {
    match y {
        Some(YamlV::Str(s)) => s,
        _ => d,
    }
}

/// The `server` of a proxy object, or `node`.
pub open spec fn server_or_node(m: Members) -> Seq<char> {
    match member_get(m, "server"@) {
        Some(JsonV::Str(s)) => s,
        _ => "node"@,
    }
}

/// A downloaded proxy of provider `pp`: an object without a `tag` gets the tag
/// `<pp>-<server>`.
pub open spec fn tag_proxy(pp: Seq<char>, p: JsonV) -> JsonV {
    match p {
        JsonV::Object(m) => if member_get(m, "tag"@) is None {
            JsonV::Object(member_set(m, "tag"@, JsonV::Str(pp + "-"@ + server_or_node(m))))
        } else {
            p
        },
        _ => p,
    }
}

/// The string tags of the proxies, in order.
pub open spec fn tags_of(ps: Seq<JsonV>) -> Seq<Seq<char>>
    decreases ps.len(),
{
    if ps.len() == 0 {
        seq![]
    } else {
        tags_of(ps.drop_last()) + match jget(ps.last(), "tag"@) {
            Some(JsonV::Str(t)) => seq![t],
            _ => seq![],
        }
    }
}

/// The proxies of provider `pp`, tagged.
pub open spec fn tagged(pp: Seq<char>, ps: Seq<JsonV>) -> Seq<JsonV> {
    ps.map_values(|p: JsonV| tag_proxy(pp, p))
}

/// Providers by name, with their proxies when they could be downloaded.
pub type ProviderInput = Seq<(Seq<char>, Option<Seq<JsonV>>)>;

/// The tagged proxies of all downloaded providers, provider by provider.
pub open spec fn all_proxies(ps: ProviderInput) -> Seq<JsonV>
    decreases ps.len(),
{
    if ps.len() == 0 {
        seq![]
    } else {
        all_proxies(ps.drop_last()) + match ps.last().1 {
            Some(v) => tagged(ps.last().0, v),
            None => seq![],
        }
    }
}

/// The proxy tags of each downloaded provider.
pub open spec fn provider_tags(ps: ProviderInput) -> NameTable
    decreases ps.len(),
{
    if ps.len() == 0 {
        seq![]
    } else {
        match ps.last().1 {
            Some(v) => provider_tags(ps.drop_last()).push((ps.last().0, tags_of(tagged(ps.last().0, v)))),
            None => provider_tags(ps.drop_last()),
        }
    }
}

/// Whether a group's `type` (default `select`) becomes a sing-box `urltest`.
pub open spec fn urltest_type(g: YamlV) -> bool {
    let t = str_or(yget(g, "type"@), "select"@);
    t == "url-test"@ || t == "fallback"@
}

/// The sing-box outbound type of a group.
pub open spec fn sb_type_of(g: YamlV) -> Seq<char> {
    if urltest_type(g) {
        "urltest"@
    } else {
        "selector"@
    }
}

pub open spec fn is_digit(c: char) -> bool {
    '0' <= c && c <= '9'
}

/// The value of a text of decimal digits.
pub open spec fn digits_value(s: Seq<char>) -> nat
    decreases s.len(),
{
    if s.len() == 0 {
        0
    } else {
        digits_value(s.drop_last()) * 10 + ((s.last() as u32) - ('0' as u32)) as nat
    }
}

/// A number tree as an unsigned 64-bit integer, when it is one.
pub open spec fn yaml_u64(y: YamlV) -> Option<nat> {
    match y {
        YamlV::Number(s) => if s.len() > 0 && (forall|i: int| 0 <= i < s.len() ==> #[trigger] is_digit(s[i]))
            && digits_value(s) <= u64::MAX {
            Some(digits_value(s))
        } else {
            None
        },
        _ => None,
    }
}

/// The `url` and `interval` of a url-test group, added to its object.
pub open spec fn urltest_extra(g: YamlV, m: Members) -> Members {
    if urltest_type(g) {
        let m1 = match yget(g, "url"@) {
            Some(YamlV::Str(u)) => member_set(m, "url"@, JsonV::Str(u)),
            _ => m,
        };
        match yget(g, "interval"@) {
            Some(y) => match yaml_u64(y) {
                Some(n) => member_set(m1, "interval"@, JsonV::Str(duration_text(n))),
                None => m1,
            },
            None => m1,
        }
    } else {
        m
    }
}

/// A list of texts as a JSON array.
pub open spec fn str_array(s: Seq<Seq<char>>) -> JsonV {
    JsonV::Array(s.map_values(|t: Seq<char>| JsonV::Str(t)))
}

/// The first `n` entries of a list, each placeholder replaced by the names
/// found for it (none when there are none); a non-string entry counts as empty text.
pub open spec fn resolve_soft(items: Seq<YamlV>, table: NameTable, n: int) -> Seq<Seq<char>>
    decreases n,
{
    if n <= 0 {
        seq![]
    } else {
        let out = resolve_soft(items, table, n - 1);
        let s = match items[n - 1] {
            YamlV::Str(t) => t,
            _ => seq![],
        };
        if is_placeholder(s) {
            match table_get(table, trim_angles(s)) {
                Some(ns) => out + ns,
                None => out,
            }
        } else {
            out.push(s)
        }
    }
}

/// A group without `tpl_param`, as a sing-box outbound.
pub open spec fn passthrough(g: YamlV, pp_tags: NameTable, pg_names: NameTable) -> JsonV {
    let m0 = seq![("type"@, JsonV::Str(sb_type_of(g))), ("tag"@, JsonV::Str(str_or(yget(g, "name"@), "unknown"@)))];
    let m1 = match yget(g, "use"@) {
        Some(YamlV::List(items)) => member_set(m0, "outbounds"@, str_array(resolve_soft(items, pp_tags, items.len() as int))),
        _ => m0,
    };
    let m2 = match yget(g, "proxies"@) {
        Some(YamlV::List(items)) => {
            let r = resolve_soft(items, pg_names, items.len() as int);
            if r.len() > 0 {
                member_set(m1, "outbounds"@, str_array(r))
            } else {
                m1
            }
        },
        _ => m1,
    };
    JsonV::Object(urltest_extra(g, m2))
}

/// Outbounds generated from the groups so far, and the group names generated.
pub type SbState = (Seq<JsonV>, NameTable);

/// Instances of templated group `gname` for the first `q` providers whose
/// names begin with `pk`.
pub open spec fn prov_instances(
    st: SbState,
    g: YamlV,
    gname: Seq<char>,
    pk: Seq<char>,
    pp_tags: NameTable,
    q: int,
) -> SbState
    decreases q,
{
    if q <= 0 {
        st
    } else {
        let s2 = prov_instances(st, g, gname, pk, pp_tags, q - 1);
        let pn = pp_tags[q - 1].0;
        if starts_with(pn, pk) {
            let new_name = gname + "-"@ + pn;
            let obj = JsonV::Object(
                urltest_extra(
                    g,
                    seq![
                        ("type"@, JsonV::Str(sb_type_of(g))),
                        ("tag"@, JsonV::Str(new_name)),
                        ("outbounds"@, str_array(pp_tags[q - 1].1)),
                    ],
                ),
            );
            (s2.0.push(obj), table_push(s2.1, gname, new_name))
        } else {
            s2
        }
    }
}

/// The first `j` entries of a templated group's `providers` list.
pub open spec fn keys_instances(
    st: SbState,
    g: YamlV,
    gname: Seq<char>,
    keys: Seq<YamlV>,
    pp_tags: NameTable,
    j: int,
) -> Result<SbState, SingboxError>
    decreases j,
{
    if j <= 0 {
        Ok(st)
    } else {
        match keys_instances(st, g, gname, keys, pp_tags, j - 1) {
            Err(e) => Err(e),
            Ok(s2) => match keys[j - 1] {
                YamlV::Str(pk) => Ok(prov_instances(s2, g, gname, pk, pp_tags, pp_tags.len() as int)),
                _ => Err(SingboxError::ProviderKeyNotString),
            },
        }
    }
}

/// One group: converted as it is, or instantiated per matching provider.
pub open spec fn sb_group_step(st: SbState, g: YamlV, pp_tags: NameTable) -> Result<SbState, SingboxError> {
    if yget(g, "tpl_param"@) is None {
        Ok((st.0.push(passthrough(g, pp_tags, st.1)), st.1))
    } else {
        match g {
            YamlV::Dict(m) => match yget(map_get(m, YamlV::Str("tpl_param"@))->0, "providers"@) {
                Some(YamlV::List(keys)) => match yget(g, "name"@) {
                    Some(YamlV::Str(gname)) => keys_instances(st, g, gname, keys, pp_tags, keys.len() as int),
                    _ => Err(SingboxError::GroupNoName),
                },
                _ => Err(SingboxError::ProvidersNotSequence),
            },
            _ => Err(SingboxError::GroupNotMapping),
        }
    }
}

/// The first `n` groups converted.
pub open spec fn sb_groups(pg: Seq<YamlV>, pp_tags: NameTable, n: int) -> Result<SbState, SingboxError>
    decreases n,
{
    if n <= 0 {
        Ok((seq![], seq![]))
    } else {
        match sb_groups(pg, pp_tags, n - 1) {
            Err(e) => Err(e),
            Ok(st) => sb_group_step(st, pg[n - 1], pp_tags),
        }
    }
}

/// The text of a tree that is a string, or empty text.
pub open spec fn item_text(y: YamlV) -> Seq<char> {
    match y {
        YamlV::Str(s) => s,
        _ => seq![],
    }
}

/// The outbound named by a `MATCH,<target>` rule (`Proxy` when none is named).
pub open spec fn match_target(s: Seq<char>) -> Seq<char> {
    match split_comma(s) {
        Some((_, rest)) => trim(rest),
        None => "Proxy"@,
    }
}

/// Route rules from the first `n` inline rules, and the final outbound.
pub open spec fn inline_rules(items: Seq<YamlV>, n: int) -> (Seq<JsonV>, Option<Seq<char>>)
    decreases n,
{
    if n <= 0 {
        (seq![], None)
    } else {
        let st = inline_rules(items, n - 1);
        let s = item_text(items[n - 1]);
        if starts_with(s, "MATCH"@) {
            (st.0, Some(match_target(s)))
        } else {
            match rule_spec(s) {
                Some(j) => (st.0.push(j), st.1),
                None => st,
            }
        }
    }
}

/// The `url` of a rule provider.
pub open spec fn rp_url(v: YamlV) -> Option<Seq<char>> {
    match v {
        YamlV::Dict(m) => match map_get(m, YamlV::Str("url"@)) {
            Some(YamlV::Str(u)) => Some(u),
            _ => None,
        },
        _ => None,
    }
}

pub open spec fn rule_set_entry(name: Seq<char>, url: Seq<char>) -> JsonV {
    JsonV::Object(
        seq![
            ("tag"@, JsonV::Str(name)),
            ("type"@, JsonV::Str("remote"@)),
            ("format"@, JsonV::Str("binary"@)),
            ("url"@, JsonV::Str(url)),
        ],
    )
}

pub open spec fn rule_set_rule(name: Seq<char>) -> JsonV {
    JsonV::Object(seq![("rule_set"@, JsonV::Str(name)), ("outbound"@, JsonV::Str("Proxy"@))])
}

/// Rule sets and their route rules from the first `n` rule providers that have a `url`.
pub open spec fn rule_sets(rps: Seq<(YamlV, YamlV)>, n: int) -> (Seq<JsonV>, Seq<JsonV>)
    decreases n,
{
    if n <= 0 {
        (seq![], seq![])
    } else {
        let st = rule_sets(rps, n - 1);
        match rp_url(rps[n - 1].1) {
            Some(u) => {
                let name = str_or(Some(rps[n - 1].0), "unknown"@);
                (st.0.push(rule_set_entry(name, u)), st.1.push(rule_set_rule(name)))
            },
            None => st,
        }
    }
}

/// The `route` section built from the template's `rules` and `rule-providers`, if any.
pub open spec fn route_of(tpl: Seq<(YamlV, YamlV)>) -> Option<JsonV> {
    let inl = match map_get(tpl, YamlV::Str("rules"@)) {
        Some(YamlV::List(items)) => inline_rules(items, items.len() as int),
        _ => (seq![], None),
    };
    let rs = match map_get(tpl, YamlV::Str("rule-providers"@)) {
        Some(YamlV::Dict(rps)) => rule_sets(rps, rps.len() as int),
        _ => (seq![], seq![]),
    };
    let rules = inl.0 + rs.1;
    if rules.len() > 0 || inl.1 is Some || rs.0.len() > 0 {
        let r1: Members = if rules.len() > 0 {
            seq![("rules"@, JsonV::Array(rules))]
        } else {
            seq![]
        };
        let r2 = if rs.0.len() > 0 {
            r1.push(("rule_set"@, JsonV::Array(rs.0)))
        } else {
            r1
        };
        let r3 = match inl.1 {
            Some(f) => r2.push(("final"@, JsonV::Str(f))),
            None => r2,
        };
        Some(JsonV::Object(r3))
    } else {
        None
    }
}

/// The sing-box configuration for a template: the downloaded proxies, then the
/// groups as outbounds, the route built from the rules, and the template's stem.
pub open spec fn singbox_spec(tpl: Seq<(YamlV, YamlV)>, stem: Seq<char>, providers: ProviderInput) -> Result<
    JsonV,
    SingboxError,
> {
    match map_get(tpl, YamlV::Str(PROXY_GROUPS@)) {
        None => Err(SingboxError::MissingGroups),
        Some(YamlV::List(pg)) => match sb_groups(pg, provider_tags(providers), pg.len() as int) {
            Err(e) => Err(e),
            Ok(st) => {
                let m: Members = seq![("outbounds"@, JsonV::Array(all_proxies(providers) + st.0))];
                let m2 = match route_of(tpl) {
                    Some(r) => m.push(("route"@, r)),
                    None => m,
                };
                Ok(JsonV::Object(m2.push(("clashtui_template_name"@, JsonV::Str(stem)))))
            },
        },
        Some(_) => Err(SingboxError::GroupsNotSequence),
    }
}

/// Providers as texts and trees.
pub open spec fn prov_view(ps: Seq<(String, Option<Vec<Json>>)>) -> ProviderInput {
    ps.map_values(
        |p: (String, Option<Vec<Json>>)|
            (
                p.0@,
                match p.1 {
                    Some(v) => Some(jseq_view(v@)),
                    None => None,
                },
            ),
    )
}

fn server_or_node_exec(m: &Vec<(String, Json)>) -> (r: &str)
    ensures
        r@ == server_or_node(members_view(m@)),
{
    proof {
        lemma_members_view(m@);
        crate::json::lemma_member_find_bound(members_view(m@), "server"@, 0);
    }
    match crate::json::members_find(m, "server") {
        Some(i) => match m[i].1.as_str() {
            Some(t) => t,
            None => "node",
        },
        None => "node",
    }
}

/// Tags a downloaded proxy of provider `pp` that has no tag.
fn tag_proxy_exec(pp: &str, p: Json) -> (r: Json)
    ensures
        r@ == tag_proxy(pp@, p@),
{
    match p {
        Json::Object(m) => {
            let mut m = m;
            proof {
                lemma_members_view(m@);
            }
            if crate::json::members_find(&m, "tag").is_none() {
                let tag = concat3(pp, "-", server_or_node_exec(&m));
                members_set(&mut m, "tag", Json::Str(tag));
            }
            Json::Object(m)
        },
        other => other,
    }
}

proof fn lemma_tags_of_push(s: Seq<JsonV>, x: JsonV)
    ensures
        tags_of(s.push(x)) == tags_of(s) + match jget(x, "tag"@) {
            Some(JsonV::Str(t)) => seq![t],
            _ => seq![],
        },
{
    assert(s.push(x).drop_last() =~= s);
}

/// Appends the tagged proxies of provider `pp` to `out`; returns their tags.
fn tag_provider(pp: &str, v: &Vec<Json>, out: &mut Vec<Json>) -> (tags: Vec<String>)
    ensures
        jseq_view(final(out)@) == jseq_view(old(out)@) + tagged(pp@, jseq_view(v@)),
        strings_view(tags@) == tags_of(tagged(pp@, jseq_view(v@))),
{
    proof {
        lemma_jseq_view(v@);
    }
    let ghost t = tagged(pp@, jseq_view(v@));
    let ghost start = jseq_view(out@);
    let mut tags: Vec<String> = Vec::new();
    let mut k: usize = 0;
    proof {
        assert(t.take(0) =~= seq![]);
        assert(start + t.take(0) =~= start);
        assert(strings_view(tags@) =~= seq![]);
    }
    while k < v.len()
        invariant
            k <= v@.len(),
            t == tagged(pp@, jseq_view(v@)),
            jseq_view(v@).len() == v@.len(),
            forall|i: int| 0 <= i < v@.len() ==> #[trigger] jseq_view(v@)[i] == json_view(v@[i]),
            start == jseq_view(old(out)@),
            jseq_view(out@) == start + t.take(k as int),
            strings_view(tags@) == tags_of(t.take(k as int)),
        decreases v@.len() - k,
    {
        let q = tag_proxy_exec(pp, v[k].dup());
        proof {
            assert(t.take(k as int + 1) =~= t.take(k as int).push(q@));
            lemma_tags_of_push(t.take(k as int), q@);
        }
        match q.get("tag") {
            Some(tj) => match tj.as_str() {
                Some(tg) => {
                    let ghost before = tags@;
                    tags.push(text_to_string(tg));
                    proof {
                        assert(strings_view(tags@) =~= strings_view(before) + seq![tg@]);
                    }
                },
                None => {
                    proof {
                        assert(strings_view(tags@) =~= strings_view(tags@) + Seq::<Seq<char>>::empty());
                    }
                },
            },
            None => {
                proof {
                    assert(strings_view(tags@) =~= strings_view(tags@) + Seq::<Seq<char>>::empty());
                }
            },
        }
        let ghost before_out = out@;
        let ghost qv = q@;
        out.push(q);
        proof {
            lemma_jseq_view_push(before_out, q);
            assert(jseq_view(out@) =~= start + t.take(k as int + 1));
        }
        k = k + 1;
    }
    proof {
        assert(t.take(v@.len() as int) =~= t);
    }
    tags
}

/// The tagged proxies of all downloaded providers, and the tags of each.
fn prepare_providers(providers: &Vec<(String, Option<Vec<Json>>)>) -> (r: (Vec<Json>, Vec<(String, Vec<String>)>))
    ensures
        jseq_view(r.0@) == all_proxies(prov_view(providers@)),
        names_view(r.1@) == provider_tags(prov_view(providers@)),
{
    let ghost pv = prov_view(providers@);
    let mut out: Vec<Json> = Vec::new();
    let mut rows: Vec<(String, Vec<String>)> = Vec::new();
    proof {
        assert(pv.take(0) =~= seq![]);
        assert(jseq_view(out@) =~= seq![]);
        assert(names_view(rows@) =~= seq![]);
    }
    let mut i: usize = 0;
    while i < providers.len()
        invariant
            i <= providers@.len(),
            pv == prov_view(providers@),
            jseq_view(out@) == all_proxies(pv.take(i as int)),
            names_view(rows@) == provider_tags(pv.take(i as int)),
        decreases providers@.len() - i,
    {
        proof {
            assert(pv.take(i as int + 1).drop_last() =~= pv.take(i as int));
        }
        match &providers[i].1 {
            Some(v) => {
                let tags = tag_provider(providers[i].0.as_str(), v, &mut out);
                let ghost before = rows@;
                let row = (text_to_string(providers[i].0.as_str()), tags);
                rows.push(row);
                proof {
                    assert(names_view(rows@) =~= names_view(before).push((providers@[i as int].0@, strings_view(row.1@))));
                }
            },
            None => {
                proof {
                    assert(all_proxies(pv.take(i as int)) + Seq::<JsonV>::empty() =~= all_proxies(pv.take(i as int)));
                }
            },
        }
        i = i + 1;
    }
    proof {
        assert(pv.take(providers@.len() as int) =~= pv);
    }
    (out, rows)
}

proof fn lemma_digits_mono(s: Seq<char>, j: int)
    requires
        0 <= j <= s.len(),
        forall|i: int| 0 <= i < s.len() ==> #[trigger] is_digit(s[i]),
    ensures
        digits_value(s.take(j)) <= digits_value(s),
    decreases s.len(),
{
    if j < s.len() {
        assert(s.drop_last().take(j) =~= s.take(j));
        assert forall|i: int| 0 <= i < s.drop_last().len() implies #[trigger] is_digit(s.drop_last()[i]) by {
            assert(s.drop_last()[i] == s[i]);
        }
        lemma_digits_mono(s.drop_last(), j);
    } else {
        assert(s.take(j) =~= s);
    }
}

/// A number tree as an unsigned 64-bit integer, when it is one.
fn yaml_u64_exec(y: &Yaml) -> (r: Option<u64>)
    ensures
        match r {
            Some(n) => yaml_u64(y@) == Some(n as nat),
            None => yaml_u64(y@) is None,
        },
{
    match y {
        Yaml::Number(s) => {
            let t = s.as_str();
            let n = t.unicode_len();
            if n == 0 {
                return None;
            }
            let mut value: u64 = 0;
            let mut i: usize = 0;
            while i < n
                invariant
                    i <= n,
                    n == t@.len(),
                    t@ == s@,
                    y@ == YamlV::Number(t@),
                    forall|k: int| 0 <= k < i ==> #[trigger] is_digit(t@[k]),
                    value as nat == digits_value(t@.take(i as int)),
                decreases n - i,
            {
                let c = t.get_char(i);
                if !('0' <= c && c <= '9') {
                    proof {
                        assert(!is_digit(t@[i as int]));
                    }
                    return None;
                }
                proof {
                    assert(t@.take(i as int + 1).drop_last() =~= t@.take(i as int));
                }
                let d = ((c as u32) - ('0' as u32)) as u64;
                let next = match value.checked_mul(10) {
                    Some(x) => x.checked_add(d),
                    None => None,
                };
                match next {
                    Some(x) => {
                        value = x;
                    },
                    None => {
                        proof {
                            assert(digits_value(t@.take(i as int + 1)) > u64::MAX);
                            if forall|k: int| 0 <= k < t@.len() ==> #[trigger] is_digit(t@[k]) {
                                lemma_digits_mono(t@, i as int + 1);
                            }
                        }
                        return None;
                    },
                }
                i = i + 1;
            }
            proof {
                assert(t@.take(n as int) =~= t@);
            }
            Some(value)
        },
        _ => None,
    }
}

/// Whether a group becomes a sing-box `urltest`.
fn urltest_exec(g: &Yaml) -> (r: bool)
    ensures
        r == urltest_type(g@),
{
    let t = match g.get("type") {
        Some(y) => match y.as_str() {
            Some(t) => t,
            None => "select",
        },
        None => "select",
    };
    text_eq(t, "url-test") || text_eq(t, "fallback")
}

/// Adds the `url` and `interval` of a url-test group to its object.
fn urltest_extra_exec(g: &Yaml, urltest: bool, m: &mut Vec<(String, Json)>)
    requires
        urltest == urltest_type(g@),
    ensures
        members_view(final(m)@) == urltest_extra(g@, members_view(old(m)@)),
{
    if urltest {
        match g.get("url") {
            Some(y) => match y.as_str() {
                Some(u) => {
                    members_set(m, "url", Json::Str(text_to_string(u)));
                },
                None => {},
            },
            None => {},
        }
        match g.get("interval") {
            Some(y) => match yaml_u64_exec(y) {
                Some(n) => {
                    members_set(m, "interval", Json::Str(interval_to_duration(n)));
                },
                None => {},
            },
            None => {},
        }
    }
}

/// The entries of a list with placeholders replaced by the names found for them.
fn resolve_soft_exec(items: &Vec<Yaml>, rows: &Vec<(String, Vec<String>)>) -> (r: Vec<String>)
    ensures
        strings_view(r@) == resolve_soft(seq_view(items@), names_view(rows@), items@.len() as int),
{
    proof {
        lemma_seq_view(items@);
    }
    let ghost iv = seq_view(items@);
    let ghost nv = names_view(rows@);
    let mut out: Vec<String> = Vec::new();
    proof {
        assert(strings_view(out@) =~= seq![]);
    }
    let mut j: usize = 0;
    while j < items.len()
        invariant
            j <= items@.len(),
            iv == seq_view(items@),
            nv == names_view(rows@),
            iv.len() == items@.len(),
            forall|i: int| 0 <= i < items@.len() ==> #[trigger] iv[i] == yaml_view(items@[i]),
            strings_view(out@) == resolve_soft(iv, nv, j as int),
        decreases items@.len() - j,
    {
        assert(iv[j as int] == items@[j as int]@);
        let ghost prev = out@;
        let t: &str = match items[j].as_str() {
            Some(t) => t,
            None => {
                proof {
                    reveal_strlit("");
                }
                ""
            },
        };
        assert(t@ == match iv[j as int] {
            YamlV::Str(u) => u,
            _ => Seq::<char>::empty(),
        });
        if is_placeholder_exec(t) {
            match names_find(rows, trim_angles_exec(t)) {
                None => {},
                Some(idx) => {
                    let names = &rows[idx].1;
                    let mut q: usize = 0;
                    while q < names.len()
                        invariant
                            q <= names@.len(),
                            out@.len() == prev.len() + q,
                            forall|x: int| 0 <= x < prev.len() ==> #[trigger] out@[x] == prev[x],
                            forall|x: int|
                                prev.len() <= x < prev.len() + q ==> #[trigger] out@[x]@ == names@[x - prev.len()]@,
                        decreases names@.len() - q,
                    {
                        out.push(text_to_string(names[q].as_str()));
                        q = q + 1;
                    }
                    proof {
                        assert(nv[idx as int].1 == strings_view(names@));
                        assert(strings_view(out@) =~= strings_view(prev) + strings_view(names@));
                    }
                },
            }
        } else {
            out.push(text_to_string(t));
            proof {
                assert(strings_view(out@) =~= strings_view(prev).push(t@));
            }
        }
        j = j + 1;
    }
    out
}

/// A list of texts as a JSON array.
fn str_array_exec(v: &Vec<String>) -> (r: Json)
    ensures
        r@ == str_array(strings_view(v@)),
{
    let mut items: Vec<Json> = Vec::new();
    let mut i: usize = 0;
    while i < v.len()
        invariant
            i <= v@.len(),
            items@.len() == i,
            forall|j: int| 0 <= j < i ==> json_view(#[trigger] items@[j]) == JsonV::Str(v@[j]@),
        decreases v@.len() - i,
    {
        items.push(Json::Str(text_to_string(v[i].as_str())));
        i = i + 1;
    }
    proof {
        lemma_jseq_view(items@);
        assert(jseq_view(items@) =~= strings_view(v@).map_values(|t: Seq<char>| JsonV::Str(t)));
    }
    Json::Array(items)
}

/// The type and tag members that open a group object.
fn group_head(urltest: bool, tag: String) -> (r: Vec<(String, Json)>)
    ensures
        members_view(r@) == seq![
            ("type"@, JsonV::Str(if urltest { "urltest"@ } else { "selector"@ })),
            ("tag"@, JsonV::Str(tag@)),
        ],
{
    let t = if urltest {
        "urltest"
    } else {
        "selector"
    };
    let ghost tv = tag@;
    let mut m: Vec<(String, Json)> = Vec::new();
    m.push((text_to_string("type"), Json::Str(text_to_string(t))));
    m.push((text_to_string("tag"), Json::Str(tag)));
    proof {
        lemma_members_view(m@);
        assert(members_view(m@) =~= seq![
            ("type"@, JsonV::Str(if urltest { "urltest"@ } else { "selector"@ })),
            ("tag"@, JsonV::Str(tv)),
        ]);
    }
    m
}

/// A group without `tpl_param`, as a sing-box outbound.
fn passthrough_exec(g: &Yaml, pp_rows: &Vec<(String, Vec<String>)>, pg_rows: &Vec<(String, Vec<String>)>) -> (r: Json)
    ensures
        r@ == passthrough(g@, names_view(pp_rows@), names_view(pg_rows@)),
{
    let urltest = urltest_exec(g);
    let name = match g.get("name") {
        Some(y) => match y.as_str() {
            Some(t) => t,
            None => "unknown",
        },
        None => "unknown",
    };
    let mut m = group_head(urltest, text_to_string(name));
    match g.get("use") {
        Some(Yaml::Sequence(items)) => {
            proof {
                lemma_seq_view(items@);
            }
            let r = resolve_soft_exec(items, pp_rows);
            members_set(&mut m, "outbounds", str_array_exec(&r));
        },
        _ => {},
    }
    match g.get("proxies") {
        Some(Yaml::Sequence(items)) => {
            proof {
                lemma_seq_view(items@);
            }
            let r = resolve_soft_exec(items, pg_rows);
            if r.len() > 0 {
                members_set(&mut m, "outbounds", str_array_exec(&r));
            }
        },
        _ => {},
    }
    urltest_extra_exec(g, urltest, &mut m);
    Json::Object(m)
}

/// Instances of templated group `gname` for each provider whose name begins with `pk`.
fn prov_instances_exec(
    out: &mut Vec<Json>,
    pg_rows: &mut Vec<(String, Vec<String>)>,
    g: &Yaml,
    urltest: bool,
    gname: &str,
    pk: &str,
    pp_rows: &Vec<(String, Vec<String>)>,
)
    requires
        urltest == urltest_type(g@),
    ensures
        prov_instances(
            (jseq_view(old(out)@), names_view(old(pg_rows)@)),
            g@,
            gname@,
            pk@,
            names_view(pp_rows@),
            pp_rows@.len() as int,
        ) == (jseq_view(final(out)@), names_view(final(pg_rows)@)),
{
    let ghost st0: SbState = (jseq_view(out@), names_view(pg_rows@));
    let ghost pv = names_view(pp_rows@);
    let mut q: usize = 0;
    while q < pp_rows.len()
        invariant
            q <= pp_rows@.len(),
            pv == names_view(pp_rows@),
            urltest == urltest_type(g@),
            st0 == (jseq_view(old(out)@), names_view(old(pg_rows)@)),
            prov_instances(st0, g@, gname@, pk@, pv, q as int) == (jseq_view(out@), names_view(pg_rows@)),
        decreases pp_rows@.len() - q,
    {
        assert(pv[q as int] == (pp_rows@[q as int].0@, strings_view(pp_rows@[q as int].1@)));
        let pn = pp_rows[q].0.as_str();
        if text_starts_with(pn, pk) {
            let new_name = concat3(gname, "-", pn);
            let mut m = group_head(urltest, text_to_string(new_name.as_str()));
            let ghost m0 = m@;
            let arr = str_array_exec(&pp_rows[q].1);
            let entry = (text_to_string("outbounds"), arr);
            m.push(entry);
            proof {
                crate::json::lemma_members_view_push(m0, entry);
                assert(members_view(m@) =~= seq![
                    ("type"@, JsonV::Str(sb_type_of(g@))),
                    ("tag"@, JsonV::Str(gname@ + "-"@ + pn@)),
                    ("outbounds"@, str_array(pv[q as int].1)),
                ]);
            }
            urltest_extra_exec(g, urltest, &mut m);
            let ghost before = out@;
            let obj = Json::Object(m);
            out.push(obj);
            proof {
                lemma_jseq_view_push(before, obj);
            }
            names_push(pg_rows, gname, new_name);
        }
        q = q + 1;
    }
}

proof fn lemma_keys_instances_err(
    st: SbState,
    g: YamlV,
    gname: Seq<char>,
    keys: Seq<YamlV>,
    pp_tags: NameTable,
    j: int,
    n: int,
)
    requires
        0 <= j <= n,
        keys_instances(st, g, gname, keys, pp_tags, j) is Err,
    ensures
        keys_instances(st, g, gname, keys, pp_tags, n) == keys_instances(st, g, gname, keys, pp_tags, j),
    decreases n - j,
{
    if j < n {
        lemma_keys_instances_err(st, g, gname, keys, pp_tags, j, n - 1);
    }
}

proof fn lemma_sb_groups_err(pg: Seq<YamlV>, pp_tags: NameTable, j: int, n: int)
    requires
        0 <= j <= n,
        sb_groups(pg, pp_tags, j) is Err,
    ensures
        sb_groups(pg, pp_tags, n) == sb_groups(pg, pp_tags, j),
    decreases n - j,
{
    if j < n {
        lemma_sb_groups_err(pg, pp_tags, j, n - 1);
    }
}

/// Instances of templated group `gname` for each entry of its `providers` list.
fn keys_instances_exec(
    out: &mut Vec<Json>,
    pg_rows: &mut Vec<(String, Vec<String>)>,
    g: &Yaml,
    gname: &str,
    keys: &Vec<Yaml>,
    pp_rows: &Vec<(String, Vec<String>)>,
) -> (r: Result<(), SingboxError>)
    ensures
        match r {
            Ok(_) => keys_instances(
                (jseq_view(old(out)@), names_view(old(pg_rows)@)),
                g@,
                gname@,
                seq_view(keys@),
                names_view(pp_rows@),
                keys@.len() as int,
            ) == Ok::<SbState, SingboxError>((jseq_view(final(out)@), names_view(final(pg_rows)@))),
            Err(e) => keys_instances(
                (jseq_view(old(out)@), names_view(old(pg_rows)@)),
                g@,
                gname@,
                seq_view(keys@),
                names_view(pp_rows@),
                keys@.len() as int,
            ) == Err::<SbState, SingboxError>(e),
        },
{
    proof {
        lemma_seq_view(keys@);
    }
    let urltest = urltest_exec(g);
    let ghost st0: SbState = (jseq_view(out@), names_view(pg_rows@));
    let ghost kv = seq_view(keys@);
    let ghost pv = names_view(pp_rows@);
    let mut j: usize = 0;
    while j < keys.len()
        invariant
            j <= keys@.len(),
            kv == seq_view(keys@),
            pv == names_view(pp_rows@),
            urltest == urltest_type(g@),
            kv.len() == keys@.len(),
            forall|i: int| 0 <= i < keys@.len() ==> #[trigger] kv[i] == yaml_view(keys@[i]),
            st0 == (jseq_view(old(out)@), names_view(old(pg_rows)@)),
            keys_instances(st0, g@, gname@, kv, pv, j as int) == Ok::<SbState, SingboxError>(
                (jseq_view(out@), names_view(pg_rows@)),
            ),
        decreases keys@.len() - j,
    {
        assert(kv[j as int] == keys@[j as int]@);
        match keys[j].as_str() {
            None => {
                proof {
                    lemma_keys_instances_err(st0, g@, gname@, kv, pv, j as int + 1, keys@.len() as int);
                }
                return Err(SingboxError::ProviderKeyNotString);
            },
            Some(pk) => {
                prov_instances_exec(out, pg_rows, g, urltest, gname, pk, pp_rows);
            },
        }
        j = j + 1;
    }
    Ok(())
}

/// Converts the groups of the template.
fn sb_groups_exec(pg: &Vec<Yaml>, pp_rows: &Vec<(String, Vec<String>)>) -> (r: Result<Vec<Json>, SingboxError>)
    ensures
        match r {
            Ok(v) => sb_groups(seq_view(pg@), names_view(pp_rows@), pg@.len() as int) matches Ok(st) && st.0
                == jseq_view(v@),
            Err(e) => sb_groups(seq_view(pg@), names_view(pp_rows@), pg@.len() as int) == Err::<
                SbState,
                SingboxError,
            >(e),
        },
{
    proof {
        lemma_seq_view(pg@);
    }
    let ghost gv = seq_view(pg@);
    let ghost pv = names_view(pp_rows@);
    let mut out: Vec<Json> = Vec::new();
    let mut rows: Vec<(String, Vec<String>)> = Vec::new();
    proof {
        assert(jseq_view(out@) =~= seq![]);
        assert(names_view(rows@) =~= seq![]);
    }
    let mut i: usize = 0;
    while i < pg.len()
        invariant
            i <= pg@.len(),
            gv == seq_view(pg@),
            pv == names_view(pp_rows@),
            gv.len() == pg@.len(),
            forall|j: int| 0 <= j < pg@.len() ==> #[trigger] gv[j] == yaml_view(pg@[j]),
            sb_groups(gv, pv, i as int) == Ok::<SbState, SingboxError>((jseq_view(out@), names_view(rows@))),
        decreases pg@.len() - i,
    {
        let g = &pg[i];
        assert(gv[i as int] == g@);
        let ghost st = (jseq_view(out@), names_view(rows@));
        proof {
            assert(sb_groups(gv, pv, i as int + 1) == sb_group_step(st, g@, pv));
        }
        match g.get("tpl_param") {
            None => {
                let obj = passthrough_exec(g, pp_rows, &rows);
                let ghost before = out@;
                out.push(obj);
                proof {
                    lemma_jseq_view_push(before, obj);
                }
            },
            Some(tp) => match g {
                Yaml::Mapping(m) => match tp.get("providers") {
                    Some(Yaml::Sequence(keys)) => {
                        proof {
                            lemma_seq_view(keys@);
                            assert(g@ == YamlV::Dict(m@));
                            assert(yget(map_get(m@, YamlV::Str("tpl_param"@))->0, "providers"@) == Some(
                                YamlV::List(seq_view(keys@)),
                            ));
                        }
                        match g.get("name") {
                            Some(Yaml::String(gname)) => {
                                let res = keys_instances_exec(&mut out, &mut rows, g, gname.as_str(), keys, pp_rows);
                                match res {
                                    Ok(_) => {},
                                    Err(e) => {
                                        proof {
                                            lemma_sb_groups_err(gv, pv, i as int + 1, pg@.len() as int);
                                        }
                                        return Err(e);
                                    },
                                }
                            },
                            _ => {
                                proof {
                                    lemma_sb_groups_err(gv, pv, i as int + 1, pg@.len() as int);
                                }
                                return Err(SingboxError::GroupNoName);
                            },
                        }
                    },
                    _ => {
                        proof {
                            lemma_sb_groups_err(gv, pv, i as int + 1, pg@.len() as int);
                        }
                        return Err(SingboxError::ProvidersNotSequence);
                    },
                },
                _ => {
                    proof {
                        lemma_sb_groups_err(gv, pv, i as int + 1, pg@.len() as int);
                    }
                    return Err(SingboxError::GroupNotMapping);
                },
            },
        }
        i = i + 1;
    }
    Ok(out)
}

pub open spec fn opt_text(o: Option<String>) -> Option<Seq<char>> {
    match o {
        Some(s) => Some(s@),
        None => None,
    }
}

/// The outbound named by a `MATCH` rule.
fn match_target_exec(s: &str) -> (r: &str)
    ensures
        r@ == match_target(s@),
{
    match split_comma_exec(s) {
        Some((_, rest)) => trim_ws(rest),
        None => "Proxy",
    }
}

/// Route rules from the inline rules, and the final outbound.
fn inline_rules_exec(items: &Vec<Yaml>) -> (r: (Vec<Json>, Option<String>))
    ensures
        (jseq_view(r.0@), opt_text(r.1)) == inline_rules(seq_view(items@), items@.len() as int),
{
    proof {
        lemma_seq_view(items@);
    }
    let ghost iv = seq_view(items@);
    let mut rules: Vec<Json> = Vec::new();
    let mut fin: Option<String> = None;
    proof {
        assert(jseq_view(rules@) =~= seq![]);
    }
    let mut j: usize = 0;
    while j < items.len()
        invariant
            j <= items@.len(),
            iv == seq_view(items@),
            iv.len() == items@.len(),
            forall|i: int| 0 <= i < items@.len() ==> #[trigger] iv[i] == yaml_view(items@[i]),
            (jseq_view(rules@), opt_text(fin)) == inline_rules(iv, j as int),
        decreases items@.len() - j,
    {
        assert(iv[j as int] == items@[j as int]@);
        let t: &str = match items[j].as_str() {
            Some(t) => t,
            None => {
                proof {
                    reveal_strlit("");
                }
                ""
            },
        };
        assert(t@ == item_text(iv[j as int]));
        if text_starts_with(t, "MATCH") {
            fin = Some(text_to_string(match_target_exec(t)));
        } else {
            match translate_rule(t) {
                Some(rj) => {
                    let ghost before = rules@;
                    rules.push(rj);
                    proof {
                        lemma_jseq_view_push(before, rj);
                    }
                },
                None => {},
            }
        }
        j = j + 1;
    }
    (rules, fin)
}

fn rule_set_entry_exec(name: &str, url: &str) -> (r: Json)
    ensures
        r@ == rule_set_entry(name@, url@),
{
    let mut m: Vec<(String, Json)> = Vec::new();
    m.push((text_to_string("tag"), Json::Str(text_to_string(name))));
    m.push((text_to_string("type"), Json::Str(text_to_string("remote"))));
    m.push((text_to_string("format"), Json::Str(text_to_string("binary"))));
    m.push((text_to_string("url"), Json::Str(text_to_string(url))));
    proof {
        lemma_members_view(m@);
        assert(members_view(m@) =~= seq![
            ("tag"@, JsonV::Str(name@)),
            ("type"@, JsonV::Str("remote"@)),
            ("format"@, JsonV::Str("binary"@)),
            ("url"@, JsonV::Str(url@)),
        ]);
    }
    Json::Object(m)
}

fn rule_set_rule_exec(name: &str) -> (r: Json)
    ensures
        r@ == rule_set_rule(name@),
{
    rule_json("rule_set", Json::Str(text_to_string(name)), "Proxy")
}

/// Rule sets and their route rules from the rule providers that have a `url`.
fn rule_sets_exec(rps: &YamlMap) -> (r: (Vec<Json>, Vec<Json>))
    ensures
        (jseq_view(r.0@), jseq_view(r.1@)) == rule_sets(rps@, rps@.len() as int),
{
    proof {
        lemma_entries_view(rps.entries@);
    }
    let mut sets: Vec<Json> = Vec::new();
    let mut rules: Vec<Json> = Vec::new();
    proof {
        assert(jseq_view(sets@) =~= seq![]);
        assert(jseq_view(rules@) =~= seq![]);
    }
    let mut i: usize = 0;
    while i < rps.entries.len()
        invariant
            i <= rps.entries@.len(),
            crate::yaml::entries_view(rps.entries@).len() == rps.entries@.len(),
            forall|j: int|
                0 <= j < rps.entries@.len() ==> #[trigger] crate::yaml::entries_view(rps.entries@)[j] == (
                    yaml_view(rps.entries@[j].0),
                    yaml_view(rps.entries@[j].1),
                ),
            (jseq_view(sets@), jseq_view(rules@)) == rule_sets(rps@, i as int),
        decreases rps.entries@.len() - i,
    {
        let k = &rps.entries[i].0;
        let v = &rps.entries[i].1;
        assert(rps@[i as int] == (k@, v@));
        let url: Option<&str> = match v {
            Yaml::Mapping(m) => match m.get("url") {
                Some(u) => u.as_str(),
                None => None,
            },
            _ => None,
        };
        match url {
            Some(u) => {
                let name: &str = match k.as_str() {
                    Some(t) => t,
                    None => "unknown",
                };
                let e = rule_set_entry_exec(name, u);
                let r = rule_set_rule_exec(name);
                let ghost s0 = sets@;
                let ghost r0 = rules@;
                sets.push(e);
                rules.push(r);
                proof {
                    lemma_jseq_view_push(s0, e);
                    lemma_jseq_view_push(r0, r);
                }
            },
            None => {},
        }
        i = i + 1;
    }
    (sets, rules)
}

/// The `route` section of the configuration, if the template has any rules.
fn route_exec(tpl: &YamlMap) -> (r: Option<Json>)
    ensures
        match r {
            Some(j) => route_of(tpl@) == Some(j@),
            None => route_of(tpl@) is None,
        },
{
    let (inl_rules, fin) = match tpl.get("rules") {
        Some(Yaml::Sequence(items)) => {
            proof {
                lemma_seq_view(items@);
            }
            inline_rules_exec(items)
        },
        _ => {
            let v: Vec<Json> = Vec::new();
            proof {
                assert(jseq_view(v@) =~= seq![]);
            }
            (v, None)
        },
    };
    let (sets, rp_rules) = match tpl.get("rule-providers") {
        Some(Yaml::Mapping(rps)) => rule_sets_exec(rps),
        _ => {
            let a: Vec<Json> = Vec::new();
            let b: Vec<Json> = Vec::new();
            proof {
                assert(jseq_view(a@) =~= seq![]);
                assert(jseq_view(b@) =~= seq![]);
            }
            (a, b)
        },
    };
    let mut rules = inl_rules;
    let ghost r0 = rules@;
    let mut k: usize = 0;
    proof {
        lemma_jseq_view(r0);
        lemma_jseq_view(rp_rules@);
    }
    while k < rp_rules.len()
        invariant
            k <= rp_rules@.len(),
            rules@.len() == r0.len() + k,
            jseq_view(r0).len() == r0.len(),
            jseq_view(rp_rules@).len() == rp_rules@.len(),
            forall|x: int| 0 <= x < r0.len() ==> #[trigger] json_view(rules@[x]) == jseq_view(r0)[x],
            forall|x: int| 0 <= x < rp_rules@.len() ==> #[trigger] jseq_view(rp_rules@)[x] == json_view(rp_rules@[x]),
            forall|x: int|
                r0.len() <= x < r0.len() + k ==> #[trigger] json_view(rules@[x]) == json_view(rp_rules@[x - r0.len()]),
        decreases rp_rules@.len() - k,
    {
        rules.push(rp_rules[k].dup());
        k = k + 1;
    }
    proof {
        lemma_jseq_view(rules@);
        assert(jseq_view(rules@) =~= jseq_view(r0) + jseq_view(rp_rules@));
    }
    if rules.len() > 0 || fin.is_some() || sets.len() > 0 {
        let mut m: Vec<(String, Json)> = Vec::new();
        proof {
            lemma_members_view(m@);
        }
        let ghost rv = jseq_view(rules@);
        let ghost sv = jseq_view(sets@);
        proof {
            lemma_jseq_view(sets@);
        }
        if rules.len() > 0 {
            let e = (text_to_string("rules"), Json::Array(rules));
            m.push(e);
            proof {
                crate::json::lemma_members_view_push(Seq::empty(), e);
                assert(Seq::<(String, Json)>::empty().push(e) =~= m@);
            }
        }
        if sets.len() > 0 {
            let ghost m0 = m@;
            let e = (text_to_string("rule_set"), Json::Array(sets));
            m.push(e);
            proof {
                crate::json::lemma_members_view_push(m0, e);
            }
        }
        match fin {
            Some(f) => {
                let ghost m0 = m@;
                let ghost fv = f@;
                let e = (text_to_string("final"), Json::Str(f));
                m.push(e);
                proof {
                    crate::json::lemma_members_view_push(m0, e);
                }
            },
            None => {},
        }
        proof {
            assert(members_view(Seq::<(String, Json)>::empty()) =~= seq![]);
        }
        Some(Json::Object(m))
    } else {
        proof {
            lemma_jseq_view(sets@);
        }
        None
    }
}

/// Builds the sing-box configuration for template `tpl` stored under `stem`,
/// from the proxies downloaded for each provider (`None` where the download failed).
pub fn build_singbox(tpl: &YamlMap, stem: &str, providers: &Vec<(String, Option<Vec<Json>>)>) -> (r: Result<
    Json,
    SingboxError,
>)
    ensures
        match r {
            Ok(j) => singbox_spec(tpl@, stem@, prov_view(providers@)) == Ok::<JsonV, SingboxError>(j@),
            Err(e) => singbox_spec(tpl@, stem@, prov_view(providers@)) == Err::<JsonV, SingboxError>(e),
        },
{
    let pg = match tpl.get(PROXY_GROUPS) {
        None => {
            return Err(SingboxError::MissingGroups);
        },
        Some(Yaml::Sequence(pg)) => pg,
        Some(_) => {
            return Err(SingboxError::GroupsNotSequence);
        },
    };
    proof {
        lemma_seq_view(pg@);
    }
    let (proxies, pp_rows) = prepare_providers(providers);
    let groups = match sb_groups_exec(pg, &pp_rows) {
        Ok(gs) => gs,
        Err(e) => {
            return Err(e);
        },
    };
    let mut outbounds = proxies;
    let ghost o0 = outbounds@;
    proof {
        lemma_jseq_view(o0);
        lemma_jseq_view(groups@);
    }
    let mut k: usize = 0;
    while k < groups.len()
        invariant
            k <= groups@.len(),
            outbounds@.len() == o0.len() + k,
            jseq_view(o0).len() == o0.len(),
            jseq_view(groups@).len() == groups@.len(),
            forall|x: int| 0 <= x < o0.len() ==> #[trigger] json_view(outbounds@[x]) == jseq_view(o0)[x],
            forall|x: int| 0 <= x < groups@.len() ==> #[trigger] jseq_view(groups@)[x] == json_view(groups@[x]),
            forall|x: int|
                o0.len() <= x < o0.len() + k ==> #[trigger] json_view(outbounds@[x]) == json_view(groups@[x - o0.len()]),
        decreases groups@.len() - k,
    {
        outbounds.push(groups[k].dup());
        k = k + 1;
    }
    proof {
        lemma_jseq_view(outbounds@);
        assert(jseq_view(outbounds@) =~= jseq_view(o0) + jseq_view(groups@));
    }
    let mut m: Vec<(String, Json)> = Vec::new();
    let e = (text_to_string("outbounds"), Json::Array(outbounds));
    m.push(e);
    proof {
        crate::json::lemma_members_view_push(Seq::empty(), e);
        assert(Seq::<(String, Json)>::empty().push(e) =~= m@);
        assert(members_view(Seq::<(String, Json)>::empty()) =~= seq![]);
    }
    match route_exec(tpl) {
        Some(r) => {
            let ghost m0 = m@;
            let e = (text_to_string("route"), r);
            m.push(e);
            proof {
                crate::json::lemma_members_view_push(m0, e);
            }
        },
        None => {},
    }
    let ghost m1 = m@;
    let e = (text_to_string("clashtui_template_name"), Json::Str(text_to_string(stem)));
    m.push(e);
    proof {
        crate::json::lemma_members_view_push(m1, e);
    }
    Ok(Json::Object(m))
}

/// The sing-box configuration for template `tpl`, read from the file
/// `template_name`, from the proxies downloaded for each provider.
pub fn gen_template_singbox(
    tpl: &YamlMap,
    template_name: &str,
    providers: &Vec<(String, Option<Vec<Json>>)>,
) -> (r: Result<Json, SingboxError>)
    ensures
        match r {
            Ok(j) => singbox_spec(tpl@, template_stem(template_name@), prov_view(providers@)) == Ok::<
                JsonV,
                SingboxError,
            >(j@),
            Err(e) => singbox_spec(tpl@, template_stem(template_name@), prov_view(providers@)) == Err::<
                JsonV,
                SingboxError,
            >(e),
        },
{
    match file_stem(template_name) {
        Some(stem) => build_singbox(tpl, stem.as_str(), providers),
        None => build_singbox(tpl, template_name, providers),
    }
}

/// The name of the `i`-th subscription's provider: `pvd<i>`.
pub fn provider_name(i: u64) -> (r: String)
    ensures
        r@ == "pvd"@ + decimal(i as nat),
{
    let mut r = text_to_string("pvd");
    r.append(u64_to_decimal(i).as_str());
    r
}

} // verus!
