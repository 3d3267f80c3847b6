use clashtui::template::{expand_template, gen_template, TemplateError};
use clashtui::yaml::{Yaml, YamlMap};

fn s(x: &str) -> Yaml {
    Yaml::String(x.to_string())
}

fn map(entries: Vec<(&str, Yaml)>) -> Yaml {
    Yaml::Mapping(ymap(entries))
}

fn ymap(entries: Vec<(&str, Yaml)>) -> YamlMap {
    YamlMap { entries: entries.into_iter().map(|(k, v)| (s(k), v)).collect() }
}

fn list(items: Vec<Yaml>) -> Yaml {
    Yaml::Sequence(items)
}

fn strs(items: &[&str]) -> Yaml {
    list(items.iter().map(|x| s(x)).collect())
}

fn subs() -> Vec<(String, String)> {
    vec![
        ("sub1".to_string(), "https://example.com/sub1.yaml".to_string()),
        ("sub2".to_string(), "https://example.com/sub2.yaml".to_string()),
    ]
}

fn simple_template() -> YamlMap {
    ymap(vec![
        ("clashtui", map(vec![("uses", strs(&["sub1", "sub2"]))])),
        (
            "proxy-providers",
            map(vec![
                ("pvd", map(vec![("tpl_param", Yaml::Null), ("type", s("http"))])),
                ("static", map(vec![("type", s("file")), ("path", s("./static.yaml"))])),
            ]),
        ),
        (
            "proxy-groups",
            list(vec![
                map(vec![
                    ("name", s("Auto")),
                    ("type", s("url-test")),
                    ("tpl_param", map(vec![("providers", strs(&["pvd"]))])),
                ]),
                map(vec![("name", s("Select")), ("type", s("select")), ("proxies", strs(&["<Auto>", "DIRECT"]))]),
                map(vec![("name", s("All")), ("type", s("select")), ("use", strs(&["<pvd>", "static"]))]),
            ]),
        ),
    ])
}

fn expected_output() -> YamlMap {
    ymap(vec![
        ("clashtui", Yaml::Null),
        (
            "proxy-providers",
            map(vec![
                (
                    "pvd0",
                    map(vec![
                        ("type", s("http")),
                        ("url", s("https://example.com/sub1.yaml")),
                        ("path", s("proxy-providers/tpl/simple_tpl/pvd0.yaml")),
                    ]),
                ),
                (
                    "pvd1",
                    map(vec![
                        ("type", s("http")),
                        ("url", s("https://example.com/sub2.yaml")),
                        ("path", s("proxy-providers/tpl/simple_tpl/pvd1.yaml")),
                    ]),
                ),
                ("static", map(vec![("type", s("file")), ("path", s("./static.yaml"))])),
            ]),
        ),
        (
            "proxy-groups",
            list(vec![
                map(vec![("name", s("Auto-pvd0")), ("type", s("url-test")), ("use", strs(&["pvd0"]))]),
                map(vec![("name", s("Auto-pvd1")), ("type", s("url-test")), ("use", strs(&["pvd1"]))]),
                map(vec![
                    ("name", s("Select")),
                    ("type", s("select")),
                    ("proxies", strs(&["Auto-pvd0", "Auto-pvd1", "DIRECT"])),
                ]),
                map(vec![("name", s("All")), ("type", s("select")), ("use", strs(&["pvd0", "pvd1", "static"]))]),
            ]),
        ),
    ])
}

#[test]
fn template_simple_expansion() {
    let out = gen_template(&simple_template(), "simple_tpl.yaml", &subs()).unwrap();
    assert!(out.equals(&expected_output()));
}

#[test]
fn template_stem_from_path() {
    let out = gen_template(&simple_template(), "dir/simple_tpl.yaml", &subs()).unwrap();
    assert!(out.equals(&expected_output()));
}

#[test]
fn template_path_generation_format() {
    let out = gen_template(&simple_template(), "simple_tpl.yaml", &subs()).unwrap();
    let pp = out.get("proxy-providers").unwrap();
    let pvd0 = pp.get("pvd0").unwrap();
    assert_eq!(pvd0.get("path").unwrap().as_str(), Some("proxy-providers/tpl/simple_tpl/pvd0.yaml"));
}

#[test]
fn template_clashtui_marker_added() {
    let mut tpl = simple_template();
    tpl.remove("clashtui");
    tpl.insert(s("proxy-groups"), list(vec![map(vec![("name", s("G")), ("use", strs(&["static"]))])]));
    let out = expand_template(&tpl, "t", &subs()).unwrap();
    assert!(out.get("clashtui").unwrap().equals(&Yaml::Null));
    assert_eq!(out.entries.len(), 3);
}

#[test]
fn template_only_used_subscriptions() {
    let mut tpl = simple_template();
    tpl.insert(s("clashtui"), map(vec![("uses", strs(&["sub2", "other"]))]));
    let out = expand_template(&tpl, "t", &subs()).unwrap();
    let pp = out.get("proxy-providers").unwrap();
    assert_eq!(pp.get("pvd0").unwrap().get("url").unwrap().as_str(), Some("https://example.com/sub2.yaml"));
    assert!(pp.get("pvd1").is_none());
}

#[test]
fn template_without_clashtui_uses_no_subscription() {
    let mut tpl = simple_template();
    tpl.remove("clashtui");
    tpl.insert(s("proxy-groups"), list(vec![]));
    let out = expand_template(&tpl, "t", &subs()).unwrap();
    let pp = out.get("proxy-providers").unwrap();
    assert!(pp.get("pvd0").is_none());
    assert!(pp.get("static").is_some());
}

#[test]
fn template_no_tpl_param_passthrough() {
    let tpl = ymap(vec![
        ("proxy-providers", map(vec![("a", map(vec![("type", s("file"))]))])),
        ("proxy-groups", list(vec![map(vec![("name", s("G")), ("proxies", strs(&["DIRECT"]))])])),
    ]);
    let out = expand_template(&tpl, "t", &subs()).unwrap();
    let mut expected = tpl.dup();
    expected.insert(s("clashtui"), Yaml::Null);
    assert!(out.equals(&expected));
}

#[test]
fn template_placeholder_without_instances_expands_to_nothing() {
    // No profile is used: no instance is generated, and the placeholders
    // of template providers and groups expand to nothing.
    for uses in [None, Some(strs(&[])), Some(strs(&["unknown"]))] {
        let mut tpl = simple_template();
        match uses {
            None => {
                tpl.remove("clashtui");
            }
            Some(u) => tpl.insert(s("clashtui"), map(vec![("uses", u)])),
        }
        let out = expand_template(&tpl, "t", &subs()).unwrap();
        let mut expected = tpl.dup();
        expected.insert(s("clashtui"), Yaml::Null);
        expected.insert(
            s("proxy-providers"),
            map(vec![("static", map(vec![("type", s("file")), ("path", s("./static.yaml"))]))]),
        );
        expected.insert(
            s("proxy-groups"),
            list(vec![
                map(vec![("name", s("Select")), ("type", s("select")), ("proxies", strs(&["DIRECT"]))]),
                map(vec![("name", s("All")), ("type", s("select")), ("use", strs(&["static"]))]),
            ]),
        );
        assert!(out.equals(&expected));
    }
}

#[test]
fn template_error_bad_config() {
    let mut tpl = simple_template();
    tpl.insert(s("clashtui"), s("oops"));
    assert!(matches!(expand_template(&tpl, "t", &subs()), Err(TemplateError::BadConfig)));
}

#[test]
fn template_error_missing_providers() {
    let mut tpl = simple_template();
    tpl.remove("proxy-providers");
    assert!(matches!(expand_template(&tpl, "t", &subs()), Err(TemplateError::ProxyProviders)));
}

#[test]
fn template_error_missing_groups() {
    let mut tpl = simple_template();
    tpl.remove("proxy-groups");
    assert!(matches!(expand_template(&tpl, "t", &subs()), Err(TemplateError::ProxyGroups)));
}

#[test]
fn template_error_provider_value() {
    let mut tpl = simple_template();
    let tagged = Yaml::Tagged("!x".to_string(), Box::new(map(vec![("tpl_param", Yaml::Null)])));
    tpl.insert(s("proxy-providers"), map(vec![("pvd", tagged)]));
    assert!(matches!(expand_template(&tpl, "t", &subs()), Err(TemplateError::ProviderValue)));
}

#[test]
fn template_error_provider_key() {
    let mut tpl = simple_template();
    let pp = Yaml::Mapping(YamlMap { entries: vec![(Yaml::Bool(true), map(vec![("tpl_param", Yaml::Null)]))] });
    tpl.insert(s("proxy-providers"), pp);
    assert!(matches!(expand_template(&tpl, "t", &subs()), Err(TemplateError::ProviderKey)));
}

#[test]
fn template_error_group_value() {
    let mut tpl = simple_template();
    let tagged = Yaml::Tagged("!x".to_string(), Box::new(map(vec![("tpl_param", Yaml::Null)])));
    tpl.insert(s("proxy-groups"), list(vec![tagged]));
    assert!(matches!(expand_template(&tpl, "t", &subs()), Err(TemplateError::GroupValue)));
}

#[test]
fn template_error_providers_not_sequence() {
    let mut tpl = simple_template();
    let g = map(vec![("name", s("A")), ("tpl_param", map(vec![("providers", s("pvd"))]))]);
    tpl.insert(s("proxy-groups"), list(vec![g]));
    assert!(matches!(expand_template(&tpl, "t", &subs()), Err(TemplateError::Providers)));
}

#[test]
fn template_error_provider_name() {
    let mut tpl = simple_template();
    let g = map(vec![("name", s("A")), ("tpl_param", map(vec![("providers", list(vec![Yaml::Null]))]))]);
    tpl.insert(s("proxy-groups"), list(vec![g]));
    assert!(matches!(expand_template(&tpl, "t", &subs()), Err(TemplateError::ProviderName)));
}

#[test]
fn template_error_group_name() {
    let mut tpl = simple_template();
    let g = map(vec![("tpl_param", map(vec![("providers", strs(&["pvd"]))]))]);
    tpl.insert(s("proxy-groups"), list(vec![g]));
    assert!(matches!(expand_template(&tpl, "t", &subs()), Err(TemplateError::GroupName)));
}

#[test]
fn template_error_use_not_sequence() {
    let mut tpl = simple_template();
    tpl.insert(s("proxy-groups"), list(vec![map(vec![("name", s("A")), ("use", s("x"))])]));
    assert!(matches!(expand_template(&tpl, "t", &subs()), Err(TemplateError::UseNotSequence)));
}

#[test]
fn template_error_use_not_string() {
    let mut tpl = simple_template();
    tpl.insert(s("proxy-groups"), list(vec![map(vec![("name", s("A")), ("use", list(vec![Yaml::Null]))])]));
    assert!(matches!(expand_template(&tpl, "t", &subs()), Err(TemplateError::UseNotString)));
}

#[test]
fn template_error_unknown_provider() {
    let mut tpl = simple_template();
    tpl.insert(s("proxy-groups"), list(vec![map(vec![("name", s("A")), ("use", strs(&["<nope>"]))])]));
    assert!(matches!(expand_template(&tpl, "t", &subs()), Err(TemplateError::UnknownProvider)));
}

#[test]
fn template_error_proxies_not_string() {
    let mut tpl = simple_template();
    tpl.insert(s("proxy-groups"), list(vec![map(vec![("name", s("A")), ("proxies", list(vec![Yaml::Null]))])]));
    assert!(matches!(expand_template(&tpl, "t", &subs()), Err(TemplateError::ProxiesNotString)));
}

#[test]
fn template_error_unknown_group() {
    let mut tpl = simple_template();
    tpl.insert(s("proxy-groups"), list(vec![map(vec![("name", s("A")), ("proxies", strs(&["<nope>"]))])]));
    assert!(matches!(expand_template(&tpl, "t", &subs()), Err(TemplateError::UnknownGroup)));
}

#[test]
fn template_error_messages() {
    assert_eq!(TemplateError::ProxyProviders.message(), "Failed to parse `proxy-providers`");
    assert_eq!(TemplateError::UnknownGroup.message(), "Can't find the proxy-group name.");
}

#[test]
fn template_stem_cuts_at_last_dot_only() {
    let out = gen_template(&simple_template(), "dir/a.b.yaml", &subs()).unwrap();
    let pvd0 = out.get("proxy-providers").unwrap().get("pvd0").unwrap();
    assert_eq!(pvd0.get("path").unwrap().as_str(), Some("proxy-providers/tpl/a.b/pvd0.yaml"));
    let out = gen_template(&simple_template(), ".hidden", &subs()).unwrap();
    let pvd0 = out.get("proxy-providers").unwrap().get("pvd0").unwrap();
    assert_eq!(pvd0.get("path").unwrap().as_str(), Some("proxy-providers/tpl/.hidden/pvd0.yaml"));
}

#[test]
fn template_group_without_instances_expands_to_nothing() {
    // A templated group whose providers generated nothing still resolves:
    // its placeholder expands to nothing, even when profiles are used.
    let mut tpl = simple_template();
    tpl.insert(
        s("proxy-groups"),
        list(vec![
            map(vec![
                ("name", s("Lonely")),
                ("type", s("url-test")),
                ("tpl_param", map(vec![("providers", strs(&["absent"]))])),
            ]),
            map(vec![("name", s("Select")), ("type", s("select")), ("proxies", strs(&["<Lonely>", "DIRECT"]))]),
        ]),
    );
    let out = expand_template(&tpl, "t", &subs()).unwrap();
    let groups = out.get("proxy-groups").unwrap();
    let expected = list(vec![map(vec![("name", s("Select")), ("type", s("select")), ("proxies", strs(&["DIRECT"]))])]);
    assert!(groups.equals(&expected));
}
