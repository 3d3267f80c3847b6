use clashtui::agent::get;
use clashtui::template::gen_template;
use clashtui::yaml::{Yaml, YamlMap};

fn s(x: &str) -> Yaml {
    Yaml::String(x.to_string())
}

fn ymap(entries: Vec<(&str, Yaml)>) -> YamlMap {
    YamlMap { entries: entries.into_iter().map(|(k, v)| (s(k), v)).collect() }
}

fn map(entries: Vec<(&str, Yaml)>) -> Yaml {
    Yaml::Mapping(ymap(entries))
}

fn strs(items: &[&str]) -> Yaml {
    Yaml::Sequence(items.iter().map(|x| s(x)).collect())
}

fn two_urls() -> Vec<(String, String)> {
    vec![
        ("sub1".to_string(), "https://example.com/sub1.yaml".to_string()),
        ("sub2".to_string(), "https://example.com/sub2.yaml".to_string()),
    ]
}

fn one_url() -> Vec<(String, String)> {
    vec![("sub1".to_string(), "https://example.com/sub1.yaml".to_string())]
}

fn tpl_group(name: &str, ty: &str, providers: &[&str]) -> Yaml {
    map(vec![("name", s(name)), ("type", s(ty)), ("tpl_param", map(vec![("providers", strs(providers))]))])
}

/// A template with one templated provider and one templated group between two plain groups.
fn simple_tpl() -> YamlMap {
    ymap(vec![
        ("mixed-port", Yaml::Number("7890".to_string())),
        ("clashtui", map(vec![("uses", strs(&["sub1", "sub2"]))])),
        (
            "proxy-providers",
            map(vec![
                ("pvd", map(vec![("type", s("http")), ("interval", Yaml::Number("3600".to_string())), ("tpl_param", Yaml::Null)])),
                ("static", map(vec![("type", s("file")), ("path", s("./static.yaml"))])),
            ]),
        ),
        (
            "proxy-groups",
            Yaml::Sequence(vec![
                map(vec![("name", s("Select")), ("type", s("select")), ("proxies", strs(&["<Auto>", "DIRECT"]))]),
                tpl_group("Auto", "url-test", &["pvd"]),
                map(vec![("name", s("Direct")), ("type", s("select")), ("proxies", strs(&["DIRECT"]))]),
            ]),
        ),
        ("rules", strs(&["MATCH,Select"])),
    ])
}

fn pvd_instance(name: &str, stem: &str, url: &str) -> Yaml {
    map(vec![
        ("type", s("http")),
        ("interval", Yaml::Number("3600".to_string())),
        ("url", s(url)),
        ("path", s(&format!("proxy-providers/tpl/{stem}/{name}.yaml"))),
    ])
}

fn auto_instance(name: &str, pvd: &str) -> Yaml {
    map(vec![("name", s(name)), ("type", s("url-test")), ("use", strs(&[pvd]))])
}

fn simple_tpl_output() -> YamlMap {
    ymap(vec![
        ("mixed-port", Yaml::Number("7890".to_string())),
        ("clashtui", Yaml::Null),
        (
            "proxy-providers",
            map(vec![
                ("pvd0", pvd_instance("pvd0", "simple_tpl", "https://example.com/sub1.yaml")),
                ("pvd1", pvd_instance("pvd1", "simple_tpl", "https://example.com/sub2.yaml")),
                ("static", map(vec![("type", s("file")), ("path", s("./static.yaml"))])),
            ]),
        ),
        (
            "proxy-groups",
            Yaml::Sequence(vec![
                map(vec![("name", s("Select")), ("type", s("select")), ("proxies", strs(&["Auto-pvd0", "Auto-pvd1", "DIRECT"]))]),
                auto_instance("Auto-pvd0", "pvd0"),
                auto_instance("Auto-pvd1", "pvd1"),
                map(vec![("name", s("Direct")), ("type", s("select")), ("proxies", strs(&["DIRECT"]))]),
            ]),
        ),
        ("rules", strs(&["MATCH,Select"])),
    ])
}

/// A template with two templated providers and groups that name them by placeholder.
fn multi_provider_tpl() -> YamlMap {
    ymap(vec![
        ("clashtui", map(vec![("uses", strs(&["sub1", "sub2"]))])),
        (
            "proxy-providers",
            map(vec![
                ("pvd", map(vec![("type", s("http")), ("tpl_param", Yaml::Null)])),
                ("pvd2", map(vec![("type", s("http")), ("tpl_param", Yaml::Null)])),
            ]),
        ),
        (
            "proxy-groups",
            Yaml::Sequence(vec![
                map(vec![("name", s("Select")), ("type", s("select")), ("proxies", strs(&["DIRECT", "<Auto>", "<Fallback>"]))]),
                tpl_group("Auto", "url-test", &["pvd"]),
                tpl_group("Fallback", "fallback", &["pvd2"]),
                map(vec![("name", s("AllInOne")), ("type", s("select")), ("use", strs(&["<pvd>", "<pvd2>"]))]),
            ]),
        ),
    ])
}

fn multi_provider_tpl_output() -> YamlMap {
    let inst = |name: &str, url: &str| {
        map(vec![
            ("type", s("http")),
            ("url", s(url)),
            ("path", s(&format!("proxy-providers/tpl/multi_provider_tpl/{name}.yaml"))),
        ])
    };
    let grp = |name: &str, ty: &str, pvd: &str| map(vec![("name", s(name)), ("type", s(ty)), ("use", strs(&[pvd]))]);
    ymap(vec![
        ("clashtui", Yaml::Null),
        (
            "proxy-providers",
            map(vec![
                ("pvd0", inst("pvd0", "https://example.com/sub1.yaml")),
                ("pvd1", inst("pvd1", "https://example.com/sub2.yaml")),
                ("pvd20", inst("pvd20", "https://example.com/sub1.yaml")),
                ("pvd21", inst("pvd21", "https://example.com/sub2.yaml")),
            ]),
        ),
        (
            "proxy-groups",
            Yaml::Sequence(vec![
                map(vec![
                    ("name", s("Select")),
                    ("type", s("select")),
                    ("proxies", strs(&["DIRECT", "Auto-pvd0", "Auto-pvd1", "Fallback-pvd20", "Fallback-pvd21"])),
                ]),
                grp("Auto-pvd0", "url-test", "pvd0"),
                grp("Auto-pvd1", "url-test", "pvd1"),
                grp("Fallback-pvd20", "fallback", "pvd20"),
                grp("Fallback-pvd21", "fallback", "pvd21"),
                map(vec![("name", s("AllInOne")), ("type", s("select")), ("use", strs(&["pvd0", "pvd1", "pvd20", "pvd21"]))]),
            ]),
        ),
    ])
}

fn group_names(out: &YamlMap) -> Vec<String> {
    match out.get("proxy-groups") {
        Some(Yaml::Sequence(gs)) => gs
            .iter()
            .filter_map(|g| g.get("name").and_then(|n| n.as_str()).map(|n| n.to_string()))
            .collect(),
        _ => panic!("no proxy-groups"),
    }
}

fn find_group<'a>(out: &'a YamlMap, name: &str) -> &'a Yaml {
    match out.get("proxy-groups") {
        Some(Yaml::Sequence(gs)) => gs.iter().find(|g| g.get("name").and_then(|n| n.as_str()) == Some(name)).unwrap(),
        _ => panic!("no proxy-groups"),
    }
}

fn texts(y: &Yaml) -> Vec<String> {
    match y {
        Yaml::Sequence(items) => items.iter().filter_map(|v| v.as_str()).map(|t| t.to_string()).collect(),
        _ => panic!("not a sequence"),
    }
}

#[test]
fn test_simple_expansion() {
    let result = gen_template(&simple_tpl(), "simple_tpl.yaml", &two_urls()).unwrap();
    assert!(result.equals(&simple_tpl_output()));
}

#[test]
fn test_multi_provider_expansion() {
    let result = gen_template(&multi_provider_tpl(), "multi_provider_tpl.yaml", &two_urls()).unwrap();
    assert!(result.equals(&multi_provider_tpl_output()));
}

#[test]
fn test_no_tpl_param_passthrough() {
    let tpl = ymap(vec![
        ("proxy-providers", map(vec![("static", map(vec![("type", s("file")), ("path", s("./static.yaml"))]))])),
        (
            "proxy-groups",
            Yaml::Sequence(vec![map(vec![("name", s("Select")), ("type", s("select")), ("use", strs(&["static"]))])]),
        ),
    ]);
    let result = gen_template(&tpl, "no_tpl_param_tpl.yaml", &two_urls()).unwrap();
    let mut expected = tpl.dup();
    expected.insert(s("clashtui"), Yaml::Null);
    assert!(result.equals(&expected));
}

#[test]
fn test_empty_uses() {
    let mut tpl = simple_tpl();
    tpl.insert(s("clashtui"), map(vec![("uses", strs(&[]))]));
    tpl.insert(
        s("proxy-groups"),
        Yaml::Sequence(vec![tpl_group("Auto", "url-test", &["pvd"]), map(vec![("name", s("Direct")), ("type", s("select")), ("proxies", strs(&["DIRECT"]))])]),
    );
    let result = gen_template(&tpl, "empty_uses_tpl.yaml", &vec![]).unwrap();
    let pp = result.get("proxy-providers").unwrap();
    assert!(pp.get("pvd0").is_none());
    assert!(pp.get("static").is_some());
    assert_eq!(group_names(&result), vec!["Direct"]);
}

#[test]
fn test_ordering_preserved_proxy_groups() {
    let result = gen_template(&simple_tpl(), "simple_tpl.yaml", &one_url()).unwrap();
    assert_eq!(group_names(&result), vec!["Select", "Auto-pvd0", "Direct"]);
}

#[test]
fn test_ordering_preserved_proxy_providers() {
    let result = gen_template(&simple_tpl(), "simple_tpl.yaml", &one_url()).unwrap();
    let keys: Vec<String> = match result.get("proxy-providers") {
        Some(Yaml::Mapping(m)) => m.entries.iter().filter_map(|(k, _)| k.as_str()).map(|k| k.to_string()).collect(),
        _ => panic!("no proxy-providers"),
    };
    assert_eq!(keys, vec!["pvd0", "static"]);
}

#[test]
fn test_angle_bracket_provider_placeholder() {
    let result = gen_template(&multi_provider_tpl(), "multi_provider_tpl.yaml", &two_urls()).unwrap();
    let all_in_one = find_group(&result, "AllInOne");
    assert_eq!(texts(all_in_one.get("use").unwrap()), vec!["pvd0", "pvd1", "pvd20", "pvd21"]);
}

#[test]
fn test_angle_bracket_group_placeholder() {
    let result = gen_template(&multi_provider_tpl(), "multi_provider_tpl.yaml", &two_urls()).unwrap();
    let select = find_group(&result, "Select");
    assert_eq!(
        texts(select.get("proxies").unwrap()),
        vec!["DIRECT", "Auto-pvd0", "Auto-pvd1", "Fallback-pvd20", "Fallback-pvd21"]
    );
}

#[test]
fn test_missing_proxy_providers_section() {
    let mut tpl = simple_tpl();
    tpl.remove("proxy-providers");
    assert!(gen_template(&tpl, "missing_pp_tpl.yaml", &one_url()).is_err());
}

#[test]
fn test_missing_proxy_groups_section() {
    let mut tpl = simple_tpl();
    tpl.remove("proxy-groups");
    assert!(gen_template(&tpl, "missing_pg_tpl.yaml", &one_url()).is_err());
}

#[test]
fn test_missing_tpl_param_providers_key() {
    let mut tpl = simple_tpl();
    tpl.insert(
        s("proxy-groups"),
        Yaml::Sequence(vec![map(vec![("name", s("Auto")), ("type", s("url-test")), ("tpl_param", map(vec![]))])]),
    );
    assert!(gen_template(&tpl, "missing_providers_key_tpl.yaml", &one_url()).is_err());
}

#[test]
fn test_placeholder_to_nonexistent_target() {
    let mut tpl = simple_tpl();
    tpl.insert(
        s("proxy-groups"),
        Yaml::Sequence(vec![map(vec![("name", s("Select")), ("type", s("select")), ("proxies", strs(&["<Nope>"]))])]),
    );
    assert!(gen_template(&tpl, "bad_placeholder_tpl.yaml", &one_url()).is_err());
}

#[test]
fn test_clashtui_marker_added() {
    let result = gen_template(&simple_tpl(), "simple_tpl.yaml", &one_url()).unwrap();
    assert!(result.contains_key("clashtui"));
    assert!(result.get("clashtui").unwrap().equals(&Yaml::Null));
}

#[test]
fn test_path_generation_format() {
    let result = gen_template(&simple_tpl(), "simple_tpl.yaml", &one_url()).unwrap();
    let pvd0 = result.get("proxy-providers").unwrap().get("pvd0").unwrap();
    assert_eq!(pvd0.get("path").unwrap().as_str(), Some("proxy-providers/tpl/simple_tpl/pvd0.yaml"));
}

#[test]
fn test_no_keymap_wrapper_needed() {
    let value = ymap(vec![("connections", map(vec![]))]);
    assert!(value.contains_key("connections"));
    assert!(!value.contains_key("keymap"));
}

#[test]
fn test_empty_keymap_skips_all_sections() {
    let value = ymap(vec![]);
    assert!(get(&mut value.dup(), "connections").is_err());
    assert!(get(&mut value.dup(), "srvctl").is_err());
    assert!(get(&mut value.dup(), "settings").is_err());
    assert!(get(&mut value.dup(), "logs").is_err());
    assert!(get(&mut value.dup(), "file").is_err());
}
