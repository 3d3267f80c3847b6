use clashtui::subscription::{subscription_proxies, SubscriptionError};
use clashtui::template::{gen_template_from_text, load_template};
use clashtui::subscription::pick_json_proxies;
use clashtui::subscription::{drop_nulls, yaml_proxy_items};
use clashtui::json::Json;
use clashtui::singbox::{build_singbox, gen_template_singbox, interval_to_duration, provider_name, translate_rule, SingboxError};
use clashtui::yaml::{Yaml, YamlMap};

fn s(x: &str) -> Yaml {
    Yaml::String(x.to_string())
}

fn ymap(entries: Vec<(&str, Yaml)>) -> YamlMap {
    YamlMap { entries: entries.into_iter().map(|(k, v)| (s(k), v)).collect() }
}

fn map(entries: Vec<(&str, Yaml)>) -> Yaml {
    Yaml::Mapping(ymap(entries))
}

fn strs(items: &[&str]) -> Yaml {
    Yaml::Sequence(items.iter().map(|x| s(x)).collect())
}

fn js(x: &str) -> Json {
    Json::Str(x.to_string())
}

fn obj(members: Vec<(&str, Json)>) -> Json {
    Json::Object(members.into_iter().map(|(k, v)| (k.to_string(), v)).collect())
}

fn arr(items: &[&str]) -> Json {
    Json::Array(items.iter().map(|x| js(x)).collect())
}

fn json_eq(a: &Json, b: &Json) -> bool {
    match (a, b) {
        (Json::Null, Json::Null) => true,
        (Json::Bool(x), Json::Bool(y)) => x == y,
        (Json::Number(x), Json::Number(y)) => x == y,
        (Json::Str(x), Json::Str(y)) => x == y,
        (Json::Array(x), Json::Array(y)) => x.len() == y.len() && x.iter().zip(y.iter()).all(|(p, q)| json_eq(p, q)),
        (Json::Object(x), Json::Object(y)) => {
            x.len() == y.len() && x.iter().zip(y.iter()).all(|(p, q)| p.0 == q.0 && json_eq(&p.1, &q.1))
        }
        _ => false,
    }
}

#[test]
fn singbox_interval_to_duration() {
    assert_eq!(interval_to_duration(3600), "1h");
    assert_eq!(interval_to_duration(7200), "2h");
    assert_eq!(interval_to_duration(120), "2m");
    assert_eq!(interval_to_duration(300), "5m");
    assert_eq!(interval_to_duration(90), "90s");
    assert_eq!(interval_to_duration(30), "30s");
    assert_eq!(interval_to_duration(0), "0s");
    assert_eq!(interval_to_duration(3660), "61m");
}

#[test]
fn singbox_translate_rule_domain_suffix() {
    let r = translate_rule("DOMAIN-SUFFIX,google.com,Proxy").unwrap();
    assert!(json_eq(&r, &obj(vec![("domain_suffix", arr(&["google.com"])), ("outbound", js("Proxy"))])));
}

#[test]
fn singbox_translate_rule_trims_and_keeps_rest() {
    let r = translate_rule(" IP-CIDR , 10.0.0.0/8 , DIRECT,no-resolve ").unwrap();
    assert!(json_eq(&r, &obj(vec![("ip_cidr", arr(&["10.0.0.0/8"])), ("outbound", js("DIRECT,no-resolve"))])));
}

#[test]
fn singbox_translate_rule_geo() {
    let r = translate_rule("GEOIP,CN,DIRECT").unwrap();
    assert!(json_eq(&r, &obj(vec![("rule_set", js("geoip-CN")), ("outbound", js("DIRECT"))])));
    let r = translate_rule("GEOSITE,google").unwrap();
    assert!(json_eq(&r, &obj(vec![("rule_set", js("geosite-google")), ("outbound", js(""))])));
}

#[test]
fn singbox_translate_rule_unsupported() {
    assert!(translate_rule("MATCH,Proxy").is_none());
    assert!(translate_rule("DOMAIN").is_none());
    assert!(translate_rule("SRC-PORT,80,DIRECT").is_none());
}

#[test]
fn singbox_provider_name() {
    assert_eq!(provider_name(0), "pvd0");
    assert_eq!(provider_name(12), "pvd12");
}

fn template() -> YamlMap {
    ymap(vec![
        (
            "proxy-groups",
            Yaml::Sequence(vec![
                map(vec![
                    ("name", s("Auto")),
                    ("type", s("url-test")),
                    ("url", s("http://t")),
                    ("interval", Yaml::Number("300".to_string())),
                    ("tpl_param", map(vec![("providers", strs(&["pvd"]))])),
                ]),
                map(vec![("name", s("Select")), ("type", s("select")), ("proxies", strs(&["<Auto>", "DIRECT"]))]),
            ]),
        ),
        ("rules", strs(&["DOMAIN,a.com,Select", "MATCH,Select"])),
    ])
}

fn providers() -> Vec<(String, Option<Vec<Json>>)> {
    vec![
        ("pvd0".to_string(), Some(vec![obj(vec![("server", js("1.2.3.4"))]), obj(vec![("tag", js("named"))])])),
        ("pvd1".to_string(), None),
    ]
}

#[test]
fn singbox_build_config() {
    let out = build_singbox(&template(), "tpl", &providers()).unwrap();
    let expected = obj(vec![
        (
            "outbounds",
            Json::Array(vec![
                obj(vec![("server", js("1.2.3.4")), ("tag", js("pvd0-1.2.3.4"))]),
                obj(vec![("tag", js("named"))]),
                obj(vec![
                    ("type", js("urltest")),
                    ("tag", js("Auto-pvd0")),
                    ("outbounds", arr(&["pvd0-1.2.3.4", "named"])),
                    ("url", js("http://t")),
                    ("interval", js("5m")),
                ]),
                obj(vec![("type", js("selector")), ("tag", js("Select")), ("outbounds", arr(&["Auto-pvd0", "DIRECT"]))]),
            ]),
        ),
        (
            "route",
            obj(vec![
                ("rules", Json::Array(vec![obj(vec![("domain", arr(&["a.com"])), ("outbound", js("Select"))])])),
                ("final", js("Select")),
            ]),
        ),
        ("clashtui_template_name", js("tpl")),
    ]);
    assert!(json_eq(&out, &expected));
}

#[test]
fn singbox_template_name_is_stem() {
    let out = gen_template_singbox(&template(), "dir/mytpl.yaml", &providers()).unwrap();
    assert!(json_eq(out.get("clashtui_template_name").unwrap(), &js("mytpl")));
}

#[test]
fn singbox_rule_providers() {
    let tpl = ymap(vec![
        ("proxy-groups", Yaml::Sequence(vec![])),
        (
            "rule-providers",
            map(vec![("ads", map(vec![("url", s("https://r/ads.srs"))])), ("local", map(vec![("path", s("x"))]))]),
        ),
    ]);
    let out = build_singbox(&tpl, "t", &vec![]).unwrap();
    let route = out.get("route").unwrap();
    let expected = obj(vec![
        ("rules", Json::Array(vec![obj(vec![("rule_set", js("ads")), ("outbound", js("Proxy"))])])),
        (
            "rule_set",
            Json::Array(vec![obj(vec![
                ("tag", js("ads")),
                ("type", js("remote")),
                ("format", js("binary")),
                ("url", js("https://r/ads.srs")),
            ])]),
        ),
    ]);
    assert!(json_eq(route, &expected));
}

#[test]
fn singbox_no_route_without_rules() {
    let tpl = ymap(vec![("proxy-groups", Yaml::Sequence(vec![]))]);
    let out = build_singbox(&tpl, "t", &vec![]).unwrap();
    assert!(out.get("route").is_none());
    assert!(json_eq(out.get("outbounds").unwrap(), &Json::Array(vec![])));
}

#[test]
fn singbox_error_missing_groups() {
    let tpl = ymap(vec![]);
    assert_eq!(build_singbox(&tpl, "t", &vec![]).err(), Some(SingboxError::MissingGroups));
}

#[test]
fn singbox_error_groups_not_sequence() {
    let tpl = ymap(vec![("proxy-groups", s("x"))]);
    assert_eq!(build_singbox(&tpl, "t", &vec![]).err(), Some(SingboxError::GroupsNotSequence));
}

#[test]
fn singbox_error_group_not_mapping() {
    let g = Yaml::Tagged("!t".to_string(), Box::new(map(vec![("tpl_param", Yaml::Null)])));
    let tpl = ymap(vec![("proxy-groups", Yaml::Sequence(vec![g]))]);
    assert_eq!(build_singbox(&tpl, "t", &vec![]).err(), Some(SingboxError::GroupNotMapping));
}

#[test]
fn singbox_error_providers_not_sequence() {
    let g = map(vec![("name", s("A")), ("tpl_param", Yaml::Null)]);
    let tpl = ymap(vec![("proxy-groups", Yaml::Sequence(vec![g]))]);
    assert_eq!(build_singbox(&tpl, "t", &vec![]).err(), Some(SingboxError::ProvidersNotSequence));
}

#[test]
fn singbox_error_group_no_name() {
    let g = map(vec![("tpl_param", map(vec![("providers", strs(&["pvd"]))]))]);
    let tpl = ymap(vec![("proxy-groups", Yaml::Sequence(vec![g]))]);
    assert_eq!(build_singbox(&tpl, "t", &vec![]).err(), Some(SingboxError::GroupNoName));
}

#[test]
fn singbox_error_provider_key_not_string() {
    let g = map(vec![("name", s("A")), ("tpl_param", map(vec![("providers", Yaml::Sequence(vec![Yaml::Null]))]))]);
    let tpl = ymap(vec![("proxy-groups", Yaml::Sequence(vec![g]))]);
    assert_eq!(build_singbox(&tpl, "t", &vec![]).err(), Some(SingboxError::ProviderKeyNotString));
}

#[test]
fn singbox_error_messages() {
    assert_eq!(SingboxError::MissingGroups.message(), "Missing proxy-groups section in template");
}

#[test]
fn subscription_json_readings() {
    let p = obj(vec![("server", js("a"))]);
    let list = pick_json_proxies(Some(vec![p.dup()]), Some(Json::Array(vec![p.dup()]))).unwrap();
    assert_eq!(list.len(), 1);
    let doc = obj(vec![("proxies", Json::Array(vec![p.dup(), p.dup()]))]);
    assert_eq!(pick_json_proxies(None, Some(doc)).unwrap().len(), 2);
    let single = pick_json_proxies(None, Some(p.dup())).unwrap();
    assert!(json_eq(&single[0], &p));
    assert!(pick_json_proxies(None, Some(js("x"))).is_none());
    assert!(pick_json_proxies(None, None).is_none());
}

#[test]
fn subscription_yaml_readings() {
    let doc = ymap(vec![("proxies", Yaml::Sequence(vec![s("a"), Yaml::Null]))]);
    assert_eq!(yaml_proxy_items(&doc).len(), 2);
    assert_eq!(yaml_proxy_items(&ymap(vec![("proxies", s("x"))])).len(), 0);
    let kept = drop_nulls(vec![Json::Null, js("a"), Json::Null, js("b")]);
    assert_eq!(kept.len(), 2);
    assert!(json_eq(&kept[1], &js("b")));
}

#[test]
fn subscription_bytes_as_json_list() {
    let r = subscription_proxies(br#"[{"type":"ss","tag":"a"},{"type":"vmess","tag":"b"}]"#).unwrap();
    assert_eq!(r.len(), 2);
    assert_eq!(r[1].get("tag").and_then(|t| t.as_str()), Some("b"));
}

#[test]
fn subscription_bytes_as_json_object() {
    let r = subscription_proxies(br#"{"proxies":[{"tag":"x"}]}"#).unwrap();
    assert_eq!(r.len(), 1);
    let r = subscription_proxies(br#"{"tag":"solo"}"#).unwrap();
    assert_eq!(r.len(), 1);
    assert_eq!(r[0].get("tag").and_then(|t| t.as_str()), Some("solo"));
}

#[test]
fn subscription_bytes_as_yaml() {
    let r = subscription_proxies(b"proxies:\n  - name: a\n    type: ss\n    port: 8388\n  - null\n").unwrap();
    assert_eq!(r.len(), 1);
    assert_eq!(r[0].get("name").and_then(|t| t.as_str()), Some("a"));
    assert!(matches!(r[0].get("port"), Some(Json::Number(n)) if n == "8388"));
    let r = subscription_proxies(b"other: 1\n").unwrap();
    assert!(r.is_empty());
}

#[test]
fn subscription_bytes_unreadable() {
    assert!(matches!(subscription_proxies(b"- a\n- b\n"), Err(SubscriptionError::Unreadable)));
    assert!(matches!(subscription_proxies(b"1"), Err(SubscriptionError::Unreadable)));
    assert_eq!(SubscriptionError::Unreadable.message(), "Failed to parse subscription as JSON or YAML");
}

#[test]
fn template_text_is_read_as_a_mapping() {
    let m = load_template("proxy-providers: {}\nproxy-groups: []\n").unwrap();
    assert_eq!(m.entries.len(), 2);
    assert!(load_template("- a\n").is_none());
    let out = gen_template_from_text("proxy-providers: {}\nproxy-groups: []\n", "t.yaml", &vec![]).unwrap().unwrap();
    assert!(out.get("clashtui").unwrap().equals(&Yaml::Null));
    assert!(gen_template_from_text("- a\n", "t.yaml", &vec![]).is_none());
}
