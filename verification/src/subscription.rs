use vstd::prelude::*;

use crate::json::{jget, jseq_view, json_view, lemma_jseq_view, lemma_jseq_view_push, Json, JsonV};
use crate::bridge::{json_of, yaml_map_of, yaml_value_of};
use crate::yaml::{lemma_seq_view, map_get, seq_view, yaml_view, Yaml, YamlMap, YamlV};

verus! {

pub open spec fn opt_jseq(o: Option<Vec<Json>>) -> Option<Seq<JsonV>> {
    match o {
        Some(v) => Some(jseq_view(v@)),
        None => None,
    }
}

pub open spec fn opt_json(o: Option<Json>) -> Option<JsonV> {
    match o {
        Some(j) => Some(j@),
        None => None,
    }
}

/// The proxies of a subscription read as JSON: the whole document when it is
/// a list, else its `proxies` list, else the document itself when it is one
/// object; `None` when JSON gives no proxies (the YAML reading is tried next).
/// `as_list` is the document read as a list, `as_value` read as any JSON value.
pub open spec fn json_proxies(as_list: Option<Seq<JsonV>>, as_value: Option<JsonV>) -> Option<Seq<JsonV>> {
    match as_list {
        Some(l) => Some(l),
        None => match as_value {
            None => None,
            Some(v) => match jget(v, "proxies"@) {
                Some(JsonV::Array(a)) => Some(a),
                _ => match v {
                    JsonV::Array(a) => Some(a),
                    JsonV::Object(_) => Some(seq![v]),
                    _ => None,
                },
            },
        },
    }
}

fn dup_all(v: &Vec<Json>) -> (r: Vec<Json>)
    ensures
        jseq_view(r@) == jseq_view(v@),
{
    let mut out: Vec<Json> = Vec::new();
    let mut i: usize = 0;
    while i < v.len()
        invariant
            i <= v@.len(),
            out@.len() == i,
            forall|j: int| 0 <= j < i ==> json_view(#[trigger] out@[j]) == json_view(v@[j]),
        decreases v@.len() - i,
    {
        out.push(v[i].dup());
        i = i + 1;
    }
    proof {
        lemma_jseq_view(out@);
        lemma_jseq_view(v@);
        assert(jseq_view(out@) =~= jseq_view(v@));
    }
    out
}

/// Picks the proxies of a subscription from its JSON readings.
pub fn pick_json_proxies(as_list: Option<Vec<Json>>, as_value: Option<Json>) -> (r: Option<Vec<Json>>)
    ensures
        opt_jseq(r) == json_proxies(opt_jseq(as_list), opt_json(as_value)),
{
    match as_list {
        Some(l) => Some(l),
        None => match as_value {
            None => None,
            Some(v) => {
                match v.get("proxies") {
                    Some(Json::Array(a)) => {
                        return Some(dup_all(a));
                    },
                    _ => {},
                }
                match v {
                    Json::Array(a) => Some(a),
                    Json::Object(m) => {
                        let mut one: Vec<Json> = Vec::new();
                        let obj = Json::Object(m);
                        one.push(obj);
                        proof {
                            lemma_jseq_view_push(Seq::empty(), obj);
                            assert(Seq::<Json>::empty().push(obj) =~= one@);
                            assert(jseq_view(Seq::<Json>::empty()) =~= Seq::<JsonV>::empty());
                        }
                        Some(one)
                    },
                    _ => None,
                }
            },
        },
    }
}

/// The entries of the `proxies` list of a subscription read as YAML (none
/// when there is no such list).
pub fn yaml_proxy_items(doc: &YamlMap) -> (r: Vec<Yaml>)
    ensures
        seq_view(r@) == match map_get(doc@, YamlV::Str("proxies"@)) {
            Some(YamlV::List(items)) => items,
            _ => Seq::empty(),
        },
{
    match doc.get("proxies") {
        Some(Yaml::Sequence(items)) => {
            let mut out: Vec<Yaml> = Vec::new();
            let mut i: usize = 0;
            while i < items.len()
                invariant
                    i <= items@.len(),
                    out@.len() == i,
                    forall|j: int| 0 <= j < i ==> yaml_view(#[trigger] out@[j]) == yaml_view(items@[j]),
                decreases items@.len() - i,
            {
                out.push(items[i].dup());
                i = i + 1;
            }
            proof {
                lemma_seq_view(out@);
                lemma_seq_view(items@);
                assert(seq_view(out@) =~= seq_view(items@));
            }
            out
        },
        _ => {
            let out: Vec<Yaml> = Vec::new();
            proof {
                assert(seq_view(out@) =~= Seq::<YamlV>::empty());
            }
            out
        },
    }
}

/// The proxies that are not null, in order.
pub fn drop_nulls(v: Vec<Json>) -> (r: Vec<Json>)
    ensures
        jseq_view(r@) == jseq_view(v@).filter(|j: JsonV| !(j is Null)),
{
    let ghost all = jseq_view(v@);
    let ghost f = |j: JsonV| !(j is Null);
    proof {
        lemma_jseq_view(v@);
    }
    let mut out: Vec<Json> = Vec::new();
    let mut i: usize = 0;
    proof {
        assert(all.take(0) =~= Seq::<JsonV>::empty());
        assert(jseq_view(out@) =~= Seq::<JsonV>::empty());
    }
    while i < v.len()
        invariant
            i <= v@.len(),
            all == jseq_view(v@),
            all.len() == v@.len(),
            forall|j: int| 0 <= j < v@.len() ==> #[trigger] all[j] == json_view(v@[j]),
            f == (|j: JsonV| !(j is Null)),
            jseq_view(out@) == all.take(i as int).filter(f),
        decreases v@.len() - i,
    {
        proof {
            reveal_with_fuel(Seq::filter, 1);
            assert(all.take(i as int + 1).drop_last() =~= all.take(i as int));
        }
        let keep = match &v[i] {
            Json::Null => false,
            _ => true,
        };
        if keep {
            let ghost prev = out@;
            let c = v[i].dup();
            out.push(c);
            proof {
                lemma_jseq_view_push(prev, c);
            }
        }
        i = i + 1;
    }
    proof {
        assert(all.take(v@.len() as int) =~= all);
    }
    out
}

/// A mapping, or none, by its view.
pub open spec fn opt_ymap(o: Option<YamlMap>) -> Option<Seq<(YamlV, YamlV)>> {
    match o {
        Some(m) => Some(m@),
        None => None,
    }
}

/// What serde_json reads from the bytes as a list of JSON values, if it reads one.
pub uninterp spec fn json_list_of(b: Seq<u8>) -> Option<Seq<JsonV>>;

/// What serde_json reads from the bytes as one JSON value, if it reads one.
pub uninterp spec fn json_value_of(b: Seq<u8>) -> Option<JsonV>;

/// What serde_yml reads from the bytes as a YAML mapping, if it reads one.
pub uninterp spec fn yaml_doc_of(b: Seq<u8>) -> Option<Seq<(YamlV, YamlV)>>;

/// What `serde_json::to_value` makes of a YAML tree (after it is turned back
/// into a serde_yml value), if it succeeds.
pub uninterp spec fn json_of_yaml(y: YamlV) -> Option<JsonV>;

/// Calls `serde_json::from_slice::<Vec<serde_json::Value>>` and converts each
/// value. Claimed: the result is the reading named by `json_list_of`, a
/// function of the bytes alone; `None` when serde_json refuses them.
#[verifier::external_body]
fn parse_json_list(buf: &[u8]) -> (r: Option<Vec<Json>>)
    ensures
        opt_jseq(r) == json_list_of(buf@),
{
    serde_json::from_slice::<Vec<serde_json::Value>>(buf).ok().map(|vs| vs.iter().map(json_of).collect())
}

/// Calls `serde_json::from_slice::<serde_json::Value>` and converts the value.
/// Claimed: the result is the reading named by `json_value_of`.
#[verifier::external_body]
fn parse_json_value(buf: &[u8]) -> (r: Option<Json>)
    ensures
        opt_json(r) == json_value_of(buf@),
{
    serde_json::from_slice::<serde_json::Value>(buf).ok().map(|v| json_of(&v))
}

/// Calls `serde_yml::from_slice::<serde_yml::Mapping>` and converts the
/// mapping. Claimed: the result is the reading named by `yaml_doc_of`.
#[verifier::external_body]
fn parse_yaml_doc(buf: &[u8]) -> (r: Option<YamlMap>)
    ensures
        opt_ymap(r) == yaml_doc_of(buf@),
{
    serde_yml::from_slice::<serde_yml::Mapping>(buf).ok().map(|m| yaml_map_of(&m))
}

/// Turns a YAML tree back into a serde_yml value and calls
/// `serde_json::to_value` on it. Claimed: the result is the one named by
/// `json_of_yaml`, a function of the tree alone; `None` when either step fails.
#[verifier::external_body]
fn yaml_to_json(y: &Yaml) -> (r: Option<Json>)
    ensures
        opt_json(r) == json_of_yaml(y@),
{
    yaml_value_of(y).and_then(|v| serde_json::to_value(v).ok()).map(|j| json_of(&j))
}

/// Why a subscription gave no proxies.
#[derive(Debug, PartialEq, Eq)]
pub enum SubscriptionError {
    /// The bytes are neither JSON with proxies nor a YAML mapping.
    Unreadable,
}

impl SubscriptionError {
    /// The message shown for the error.
    pub fn message(&self) -> (r: &'static str)
        ensures
            r@ == "Failed to parse subscription as JSON or YAML"@,
    {
        "Failed to parse subscription as JSON or YAML"
    }
}

/// The entries of the `proxies` list of a YAML mapping (none when there is no such list).
pub open spec fn yaml_proxy_list(m: Seq<(YamlV, YamlV)>) -> Seq<YamlV> {
    match map_get(m, YamlV::Str("proxies"@)) {
        Some(YamlV::List(items)) => items,
        _ => Seq::empty(),
    }
}

/// A YAML proxy as JSON, null when it does not convert.
pub open spec fn json_or_null(y: YamlV) -> JsonV {
    match json_of_yaml(y) {
        Some(j) => j,
        None => JsonV::Null,
    }
}

/// The proxies a downloaded subscription gives: its JSON proxies when JSON
/// gives some; else, when it is a YAML mapping, its `proxies` converted to
/// JSON with the null ones dropped; else an error.
pub open spec fn subscription_spec(b: Seq<u8>) -> Result<Seq<JsonV>, SubscriptionError> {
    match json_proxies(json_list_of(b), json_value_of(b)) {
        Some(p) => Ok(p),
        None => match yaml_doc_of(b) {
            Some(m) => Ok(
                yaml_proxy_list(m).map_values(|y: YamlV| json_or_null(y)).filter(|j: JsonV| !(j is Null)),
            ),
            None => Err(SubscriptionError::Unreadable),
        },
    }
}

/// Reads the proxies of a downloaded subscription: JSON first, then YAML.
pub fn subscription_proxies(buf: &[u8]) -> (r: Result<Vec<Json>, SubscriptionError>)
    ensures
        match r {
            Ok(v) => subscription_spec(buf@) == Ok::<Seq<JsonV>, SubscriptionError>(jseq_view(v@)),
            Err(e) => subscription_spec(buf@) == Err::<Seq<JsonV>, SubscriptionError>(e),
        },
{
    let as_list = parse_json_list(buf);
    let as_value = parse_json_value(buf);
    match pick_json_proxies(as_list, as_value) {
        Some(p) => {
            return Ok(p);
        },
        None => {},
    }
    match parse_yaml_doc(buf) {
        None => Err(SubscriptionError::Unreadable),
        Some(doc) => {
            let items = yaml_proxy_items(&doc);
            let ghost iv = seq_view(items@);
            let ghost f = |y: YamlV| json_or_null(y);
            proof {
                lemma_seq_view(items@);
                lemma_jseq_view(Seq::<Json>::empty());
                assert(jseq_view(Seq::<Json>::empty()) =~= iv.take(0).map_values(f));
            }
            let mut conv: Vec<Json> = Vec::new();
            let mut i: usize = 0;
            while i < items.len()
                invariant
                    i <= items@.len(),
                    iv == seq_view(items@),
                    iv.len() == items@.len(),
                    forall|j: int| 0 <= j < items@.len() ==> #[trigger] iv[j] == yaml_view(items@[j]),
                    f == (|y: YamlV| json_or_null(y)),
                    jseq_view(conv@) == iv.take(i as int).map_values(f),
                decreases items@.len() - i,
            {
                let ghost prev = conv@;
                let c = match yaml_to_json(&items[i]) {
                    Some(j) => j,
                    None => Json::Null,
                };
                conv.push(c);
                proof {
                    lemma_jseq_view_push(prev, c);
                    assert(iv[i as int] == items@[i as int]@);
                    assert(iv.take(i as int + 1).map_values(f) =~= iv.take(i as int).map_values(f).push(
                        f(iv[i as int]),
                    ));
                }
                i = i + 1;
            }
            proof {
                assert(iv.take(items@.len() as int) =~= iv);
            }
            Ok(drop_nulls(conv))
        },
    }
}

} // verus!
