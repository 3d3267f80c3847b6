use vstd::prelude::*;

use crate::json::{jget, member_find, member_get, member_set, JsonV};
use crate::proxies::{test_url_for, timeout_ms, wait_secs, ProxySettings};
use crate::singbox::{passthrough, rule_parts, rule_spec};
use crate::sort::{key_le, lemma_stable_sort_permutes, stable_sort, values_of, zip_keys};
use crate::sort_laws::{law_stable_sort_sorted, total_preorder};
use crate::template::NameTable;
use crate::tree::{lookup, opt_string_view, ordered_kids, ProxyView};
use crate::yaml::YamlV;

verus! {

/// Each rule matcher becomes the sing-box field it names. A translated rule
/// is an object of two members: first the field, holding the rule's value in
/// a one-element list (or, for `GEOSITE` and `GEOIP`, the name of the rule set
/// `geosite-<value>` or `geoip-<value>`), then `outbound`, the rule's target.
/// The plain matchers go to distinct fields; a matcher sing-box does not have
/// gives no rule.
pub proof fn law_rule_fields(s: Seq<char>)
    ensures
        rule_parts(s) is None ==> rule_spec(s) is None,
        rule_parts(s) matches Some((m, v, t)) ==> {
            let list = JsonV::Array(seq![JsonV::Str(v)]);
            let target = ("outbound"@, JsonV::Str(t));
            &&& m == "DOMAIN-SUFFIX"@ ==> rule_spec(s) == Some(JsonV::Object(seq![("domain_suffix"@, list), target]))
            &&& m == "DOMAIN-KEYWORD"@ ==> rule_spec(s) == Some(JsonV::Object(seq![("domain_keyword"@, list), target]))
            &&& m == "DOMAIN"@ ==> rule_spec(s) == Some(JsonV::Object(seq![("domain"@, list), target]))
            &&& m == "IP-CIDR"@ ==> rule_spec(s) == Some(JsonV::Object(seq![("ip_cidr"@, list), target]))
            &&& m == "IP-CIDR6"@ ==> rule_spec(s) == Some(JsonV::Object(seq![("ip_cidr"@, list), target]))
            &&& m == "PROCESS-NAME"@ ==> rule_spec(s) == Some(JsonV::Object(seq![("process_name"@, list), target]))
            &&& m == "GEOSITE"@ ==> rule_spec(s) == Some(
                JsonV::Object(seq![("rule_set"@, JsonV::Str("geosite-"@ + v)), target]),
            )
            &&& m == "GEOIP"@ ==> rule_spec(s) == Some(
                JsonV::Object(seq![("rule_set"@, JsonV::Str("geoip-"@ + v)), target]),
            )
            &&& !(m == "DOMAIN-SUFFIX"@ || m == "DOMAIN-KEYWORD"@ || m == "DOMAIN"@ || m == "IP-CIDR"@ || m
                == "IP-CIDR6"@ || m == "PROCESS-NAME"@ || m == "GEOSITE"@ || m == "GEOIP"@) ==> rule_spec(s) is None
        },
{
    reveal_matchers();
}

/// The matcher names are distinct texts.
proof fn reveal_matchers()
    ensures
        distinct_texts(
            seq![
                "DOMAIN-SUFFIX"@,
                "DOMAIN-KEYWORD"@,
                "DOMAIN"@,
                "IP-CIDR"@,
                "IP-CIDR6"@,
                "PROCESS-NAME"@,
                "GEOSITE"@,
                "GEOIP"@,
            ],
        ),
        distinct_texts(
            seq!["domain_suffix"@, "domain_keyword"@, "domain"@, "ip_cidr"@, "process_name"@, "rule_set"@],
        ),
{
    reveal_strlit("DOMAIN-SUFFIX");
    reveal_strlit("DOMAIN-KEYWORD");
    reveal_strlit("DOMAIN");
    reveal_strlit("IP-CIDR");
    reveal_strlit("IP-CIDR6");
    reveal_strlit("PROCESS-NAME");
    reveal_strlit("GEOSITE");
    reveal_strlit("GEOIP");
    reveal_strlit("domain_suffix");
    reveal_strlit("domain_keyword");
    reveal_strlit("domain");
    reveal_strlit("ip_cidr");
    reveal_strlit("process_name");
    reveal_strlit("rule_set");
    let a = seq![
        "DOMAIN-SUFFIX"@,
        "DOMAIN-KEYWORD"@,
        "DOMAIN"@,
        "IP-CIDR"@,
        "IP-CIDR6"@,
        "PROCESS-NAME"@,
        "GEOSITE"@,
        "GEOIP"@,
    ];
    assert forall|i: int, j: int| 0 <= i < j < a.len() implies a[i] != a[j] by {
        if a[i].len() == a[j].len() {
            assert(a[i][0] != a[j][0] || a[i][a[i].len() - 1] != a[j][a[j].len() - 1]);
        }
    }
    let b = seq!["domain_suffix"@, "domain_keyword"@, "domain"@, "ip_cidr"@, "process_name"@, "rule_set"@];
    assert forall|i: int, j: int| 0 <= i < j < b.len() implies b[i] != b[j] by {
        if b[i].len() == b[j].len() {
            assert(b[i][0] != b[j][0]);
        }
    }
}

/// No text occurs twice.
pub open spec fn distinct_texts(a: Seq<Seq<char>>) -> bool {
    forall|i: int, j: int| 0 <= i < j < a.len() ==> a[i] != a[j]
}

/// The first field of a translated rule, if it is an object with members.
pub open spec fn first_field(j: Option<JsonV>) -> Option<Seq<char>> {
    match j {
        Some(JsonV::Object(o)) => if o.len() > 0 {
            Some(o[0].0)
        } else {
            None
        },
        _ => None,
    }
}

/// The matcher of a rule, if it has the form `MATCHER,value[,target]`.
pub open spec fn matcher_of(s: Seq<char>) -> Option<Seq<char>> {
    match rule_parts(s) {
        Some((m, _, _)) => Some(m),
        None => None,
    }
}

pub open spec fn ip_matcher(m: Seq<char>) -> bool {
    m == "IP-CIDR"@ || m == "IP-CIDR6"@
}

pub open spec fn geo_matcher(m: Seq<char>) -> bool {
    m == "GEOSITE"@ || m == "GEOIP"@
}

/// Two rules with different matchers (other than the two spellings of an IP
/// range, or the two rule-set matchers) that both translate give objects
/// whose first fields differ: no matcher is taken for another.
pub proof fn law_rule_fields_distinct(s1: Seq<char>, s2: Seq<char>)
    requires
        matcher_of(s1) matches Some(m1) && matcher_of(s2) matches Some(m2) && m1 != m2 && !(ip_matcher(m1)
            && ip_matcher(m2)) && !(geo_matcher(m1) && geo_matcher(m2)),
    ensures
        rule_spec(s1) is Some && rule_spec(s2) is Some ==> first_field(rule_spec(s1)) is Some && first_field(
            rule_spec(s1),
        ) != first_field(rule_spec(s2)),
{
    law_rule_fields(s1);
    law_rule_fields(s2);
    reveal_matchers();
    let a = seq![
        "DOMAIN-SUFFIX"@,
        "DOMAIN-KEYWORD"@,
        "DOMAIN"@,
        "IP-CIDR"@,
        "IP-CIDR6"@,
        "PROCESS-NAME"@,
        "GEOSITE"@,
        "GEOIP"@,
    ];
    let b = seq!["domain_suffix"@, "domain_keyword"@, "domain"@, "ip_cidr"@, "process_name"@, "rule_set"@];
    assert(a[0] != a[1] && a[0] != a[2] && a[1] != a[2] && a[3] != a[4] && a[6] != a[7]);
    assert(b[0] != b[1] && b[0] != b[2] && b[0] != b[3] && b[0] != b[4] && b[0] != b[5]);
    assert(b[1] != b[2] && b[1] != b[3] && b[1] != b[4] && b[1] != b[5]);
    assert(b[2] != b[3] && b[2] != b[4] && b[2] != b[5] && b[3] != b[4] && b[3] != b[5] && b[4] != b[5]);
}

/// A member whose own last delay test failed (a recorded delay of 0).
pub open spec fn failed_member(e: Seq<(Seq<char>, ProxyView)>, k: Seq<char>) -> bool {
    lookup(e, k) matches Some(q) && q.history.len() > 0 && q.history.last() == 0
}

/// A member whose own last delay test gave `d` milliseconds.
pub open spec fn measured_member(e: Seq<(Seq<char>, ProxyView)>, k: Seq<char>, d: u64) -> bool {
    lookup(e, k) matches Some(q) && q.history.len() > 0 && q.history.last() == d
}

/// Sorting a group's members by delay puts members that answered, fastest
/// first, before members whose test failed: a member whose last delay is 0
/// never comes before one with a positive (finite) delay, and of two members
/// with measured delays the faster never comes after the slower.
pub proof fn law_failed_members_last(e: Seq<(Seq<char>, ProxyView)>, p: ProxyView)
    requires
        p.all is Some,
    ensures
        ({
            let ks = ordered_kids(e, p, true);
            &&& forall|i: int, j: int, d: u64|
                0 <= i < j < ks.len() && #[trigger] failed_member(e, ks[i]) && 0 < d < u64::MAX
                    ==> !#[trigger] measured_member(e, ks[j], d)
            &&& forall|i: int, j: int, di: u64, dj: u64|
                0 <= i < j < ks.len() && 0 < di && 0 < dj && #[trigger] measured_member(e, ks[i], di)
                    && #[trigger] measured_member(e, ks[j], dj) ==> di <= dj
        }),
{
    broadcast use vstd::seq_lib::group_to_multiset_ensures;

    let all = p.all->0;
    let z = zip_keys(Seq::new(all.len(), |i: int| crate::tree::delay_key(e, p, all[i])), all);
    let le = key_le::<Seq<char>>();
    let srt = stable_sort(z, le);
    let ks = ordered_kids(e, p, true);
    assert(ks == values_of(srt));
    lemma_stable_sort_permutes(z, le);
    assert(total_preorder(le));
    law_stable_sort_sorted(z, le);
    assert forall|i: int| 0 <= i < srt.len() implies #[trigger] srt[i].0 == crate::tree::delay_key(
        e,
        p,
        srt[i].1,
    ) by {
        assert(srt.contains(srt[i]));
        assert(srt.to_multiset().count(srt[i]) > 0);
        assert(z.contains(srt[i]));
        let w = choose|w: int| 0 <= w < z.len() && z[w] == srt[i];
        assert(z[w].1 == all[w]);
    }
    assert forall|i: int, j: int, d: u64|
        0 <= i < j < ks.len() && #[trigger] failed_member(e, ks[i]) && 0 < d < u64::MAX implies !#[trigger] measured_member(
        e,
        ks[j],
        d,
    ) by {
        assert(le(srt[i], srt[j]));
        assert(ks[i] == srt[i].1 && ks[j] == srt[j].1);
        assert(srt[i].0 == crate::tree::delay_key(e, p, ks[i]));
        assert(srt[j].0 == crate::tree::delay_key(e, p, ks[j]));
    }
    assert forall|i: int, j: int, di: u64, dj: u64|
        0 <= i < j < ks.len() && 0 < di && 0 < dj && #[trigger] measured_member(e, ks[i], di)
            && #[trigger] measured_member(e, ks[j], dj) implies di <= dj by {
        assert(le(srt[i], srt[j]));
        assert(ks[i] == srt[i].1 && ks[j] == srt[j].1);
        assert(srt[i].0 == crate::tree::delay_key(e, p, ks[i]));
        assert(srt[j].0 == crate::tree::delay_key(e, p, ks[j]));
    }
}

proof fn lemma_find_same_keys(a: Seq<(Seq<char>, JsonV)>, b: Seq<(Seq<char>, JsonV)>, k: Seq<char>, i: int)
    requires
        a.len() == b.len(),
        forall|j: int| 0 <= j < a.len() ==> #[trigger] a[j].0 == b[j].0,
    ensures
        member_find(a, k, i) == member_find(b, k, i),
    decreases a.len() - i,
{
    if 0 <= i < a.len() && a[i].0 != k {
        lemma_find_same_keys(a, b, k, i + 1);
    }
}

proof fn lemma_find_push(m: Seq<(Seq<char>, JsonV)>, x: (Seq<char>, JsonV), k: Seq<char>, i: int)
    requires
        x.0 != k,
    ensures
        member_find(m.push(x), k, i) == member_find(m, k, i),
    decreases m.len() + 1 - i,
{
    let r = m.push(x);
    if 0 <= i < r.len() && r[i].0 != k {
        if i < m.len() {
            lemma_find_push(m, x, k, i + 1);
        }
    }
}

proof fn lemma_member_set_other(m: Seq<(Seq<char>, JsonV)>, k: Seq<char>, v: JsonV, k2: Seq<char>, i: int)
    requires
        k != k2,
    ensures
        member_find(member_set(m, k, v), k2, i) == member_find(m, k2, i),
{
    crate::json::lemma_member_find_bound(m, k, 0);
    match member_find(m, k, 0) {
        Some(idx) => {
            let r = m.update(idx, (k, v));
            assert forall|j: int| 0 <= j < r.len() implies #[trigger] r[j].0 == m[j].0 by {}
            lemma_find_same_keys(r, m, k2, i);
        },
        None => {
            lemma_find_push(m, (k, v), k2, i);
        },
    }
}

proof fn lemma_get_other(m: Seq<(Seq<char>, JsonV)>, k: Seq<char>, v: JsonV, k2: Seq<char>)
    requires
        k != k2,
    ensures
        member_get(member_set(m, k, v), k2) == member_get(m, k2),
{
    lemma_member_set_other(m, k, v, k2, 0);
    crate::json::lemma_member_find_bound(m, k2, 0);
    crate::json::lemma_member_find_bound(m, k, 0);
}

proof fn lemma_get_same(m: Seq<(Seq<char>, JsonV)>, k: Seq<char>, v: JsonV)
    ensures
        member_get(member_set(m, k, v), k) == Some(v),
{
    crate::json::lemma_member_find_bound(m, k, 0);
    match member_find(m, k, 0) {
        Some(i) => {
            let r = m.update(i, (k, v));
            assert forall|j: int| 0 <= j < r.len() implies #[trigger] r[j].0 == m[j].0 by {}
            lemma_find_same_keys(r, m, k, 0);
        },
        None => {
            lemma_absent_then_last(m, k, v);
        },
    }
}

/// How a group's `type` decides its sing-box outbound: `url-test` and
/// `fallback` groups both become `urltest` outbounds, which carry the group's
/// `url` when it has one; every other group becomes a `selector`, which
/// carries neither `url` nor `interval`.
pub proof fn law_group_outbound_type(g: YamlV, pp_tags: NameTable, pg_names: NameTable)
    ensures
        ({
            let o = passthrough(g, pp_tags, pg_names);
            let ty = crate::template::yget(g, "type"@);
            let urltest = ty == Some(YamlV::Str("url-test"@)) || ty == Some(YamlV::Str("fallback"@));
            &&& urltest ==> jget(o, "type"@) == Some(JsonV::Str("urltest"@))
            &&& urltest ==> (crate::template::yget(g, "url"@) matches Some(YamlV::Str(u)) ==> jget(o, "url"@)
                == Some(JsonV::Str(u)))
            &&& !urltest ==> jget(o, "type"@) == Some(JsonV::Str("selector"@)) && jget(o, "url"@) is None
                && jget(o, "interval"@) is None
        }),
{
    reveal_strlit("type");
    reveal_strlit("tag");
    reveal_strlit("url");
    reveal_strlit("interval");
    reveal_strlit("outbounds");
    reveal_strlit("url-test");
    reveal_strlit("fallback");
    reveal_strlit("select");
    assert("tag"@[0] == 't' && "type"@[1] == 'y' && "tag"@[1] == 'a' && "url"@[0] == 'u' && "interval"@[0] == 'i');
    assert("tag"@ != "type"@ && "tag"@ != "url"@ && "type"@ != "url"@ && "tag"@ != "interval"@ && "type"@ != "interval"@);
    assert("outbounds"@[0] == 'o');
    assert("outbounds"@ != "type"@ && "outbounds"@ != "url"@ && "outbounds"@ != "interval"@ && "url"@ != "interval"@);
    let ty = crate::template::yget(g, "type"@);
    assert(crate::singbox::urltest_type(g) == (ty == Some(YamlV::Str("url-test"@)) || ty == Some(YamlV::Str("fallback"@)))) by {
        assert("select"@ != "url-test"@ && "select"@ != "fallback"@) by {
            assert("select"@.len() != "url-test"@.len());
            assert("select"@[0] != "fallback"@[0]);
        }
    }
    let name = crate::singbox::str_or(crate::template::yget(g, "name"@), "unknown"@);
    let m0 = seq![("type"@, JsonV::Str(crate::singbox::sb_type_of(g))), ("tag"@, JsonV::Str(name))];
    assert(member_get(m0, "type"@) == Some(JsonV::Str(crate::singbox::sb_type_of(g))));
    assert(member_find(m0, "url"@, 2) is None);
    assert(member_find(m0, "url"@, 1) is None);
    assert(member_find(m0, "interval"@, 2) is None);
    assert(member_find(m0, "interval"@, 1) is None);
    assert(member_get(m0, "url"@) is None);
    assert(member_get(m0, "interval"@) is None);
    let m1 = match crate::template::yget(g, "use"@) {
        Some(YamlV::List(items)) => member_set(
            m0,
            "outbounds"@,
            crate::singbox::str_array(crate::singbox::resolve_soft(items, pp_tags, items.len() as int)),
        ),
        _ => m0,
    };
    if let Some(YamlV::List(items)) = crate::template::yget(g, "use"@) {
        let x = crate::singbox::str_array(crate::singbox::resolve_soft(items, pp_tags, items.len() as int));
        lemma_get_other(m0, "outbounds"@, x, "type"@);
        lemma_get_other(m0, "outbounds"@, x, "url"@);
        lemma_get_other(m0, "outbounds"@, x, "interval"@);
    }
    let m2 = match crate::template::yget(g, "proxies"@) {
        Some(YamlV::List(items)) => {
            let r = crate::singbox::resolve_soft(items, pg_names, items.len() as int);
            if r.len() > 0 {
                member_set(m1, "outbounds"@, crate::singbox::str_array(r))
            } else {
                m1
            }
        },
        _ => m1,
    };
    if let Some(YamlV::List(items)) = crate::template::yget(g, "proxies"@) {
        let x = crate::singbox::str_array(crate::singbox::resolve_soft(items, pg_names, items.len() as int));
        lemma_get_other(m1, "outbounds"@, x, "type"@);
        lemma_get_other(m1, "outbounds"@, x, "url"@);
        lemma_get_other(m1, "outbounds"@, x, "interval"@);
    }
    assert(member_get(m2, "type"@) == Some(JsonV::Str(crate::singbox::sb_type_of(g))));
    assert(member_get(m2, "url"@) is None);
    assert(member_get(m2, "interval"@) is None);
    assert(passthrough(g, pp_tags, pg_names) == JsonV::Object(crate::singbox::urltest_extra(g, m2)));
    if crate::singbox::urltest_type(g) {
        let m3 = match crate::template::yget(g, "url"@) {
            Some(YamlV::Str(u)) => member_set(m2, "url"@, JsonV::Str(u)),
            _ => m2,
        };
        if let Some(YamlV::Str(u)) = crate::template::yget(g, "url"@) {
            lemma_get_other(m2, "url"@, JsonV::Str(u), "type"@);
            lemma_get_same(m2, "url"@, JsonV::Str(u));
        }
        match crate::template::yget(g, "interval"@) {
            Some(y) => match crate::singbox::yaml_u64(y) {
                Some(n) => {
                    let d = JsonV::Str(crate::singbox::duration_text(n));
                    lemma_get_other(m3, "interval"@, d, "type"@);
                    lemma_get_other(m3, "interval"@, d, "url"@);
                },
                None => {},
            },
            None => {},
        }
    }
}

proof fn lemma_first_find(r: Seq<(Seq<char>, JsonV)>, k: Seq<char>, i: int)
    requires
        0 <= i < r.len(),
        r[i].0 == k,
        forall|j: int| 0 <= j < i ==> r[j].0 != k,
    ensures
        member_find(r, k, 0) == Some(i),
{
    lemma_find_from(r, k, 0, i);
}

proof fn lemma_find_from(r: Seq<(Seq<char>, JsonV)>, k: Seq<char>, a: int, i: int)
    requires
        0 <= a <= i < r.len(),
        r[i].0 == k,
        forall|j: int| a <= j < i ==> r[j].0 != k,
    ensures
        member_find(r, k, a) == Some(i),
    decreases i - a,
{
    if a < i {
        lemma_find_from(r, k, a + 1, i);
    }
}

proof fn lemma_absent_then_last(m: Seq<(Seq<char>, JsonV)>, k: Seq<char>, v: JsonV)
    requires
        member_find(m, k, 0) is None,
    ensures
        member_get(member_set(m, k, v), k) == Some(v),
{
    let r = m.push((k, v));
    assert forall|j: int| 0 <= j < m.len() implies r[j].0 != k by {
        lemma_none_from(m, k, 0, j);
    }
    lemma_first_find(r, k, m.len() as int);
}

proof fn lemma_none_from(m: Seq<(Seq<char>, JsonV)>, k: Seq<char>, a: int, j: int)
    requires
        0 <= a <= j < m.len(),
        member_find(m, k, a) is None,
    ensures
        m[j].0 != k,
    decreases j - a,
{
    if a < j {
        lemma_none_from(m, k, a + 1, j);
    }
}

/// The URL a delay test of a proxy uses: the proxy's own `test_url` when it
/// has one, whatever URL is configured; the configured one only when the
/// proxy has none (or is not known).
pub proof fn law_test_url_own_first(
    e: Seq<(Seq<char>, ProxyView)>,
    name: Seq<char>,
    s1: ProxySettings,
    s2: ProxySettings,
)
    ensures
        match lookup(e, name) {
            Some(p) => match p.test_url {
                Some(u) => test_url_for(e, name, s1) == Some(u) && test_url_for(e, name, s2) == Some(u),
                None => test_url_for(e, name, s1) == opt_string_view(s1.test_url),
            },
            None => test_url_for(e, name, s1) == opt_string_view(s1.test_url),
        },
{
}

/// The timing of a delay test: the configured timeout (5 seconds when none
/// is configured) in milliseconds, and a wait of that many seconds (at least
/// one) plus three before the test is given up.
pub proof fn law_test_timing(s: ProxySettings)
    requires
        s.timeout matches Some(t) ==> t <= u64::MAX / 1000,
    ensures
        s.timeout is None ==> timeout_ms(s) == 5000 && wait_secs(s) == 8,
        s.timeout matches Some(t) ==> timeout_ms(s) == t * 1000 && wait_secs(s) == (if t == 0 {
            1
        } else {
            t
        }) + 3,
{
}

} // verus!
