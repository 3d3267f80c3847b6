use clashtui::command::stringify_output;
use clashtui::agent::{duplicate_keys, get, merge_mappings, split_sections, take_mapping, CoreType, SectionError};
use clashtui::key::{Key, KeyCode};
use clashtui::sort::sort_texts;
use clashtui::text::{split_comma_exec, text_contains, text_starts_with, trim_ws, u64_to_decimal};
use clashtui::yaml::{Yaml, YamlMap};

fn s(x: &str) -> Yaml {
    Yaml::String(x.to_string())
}

fn ymap(entries: Vec<(&str, Yaml)>) -> YamlMap {
    YamlMap { entries: entries.into_iter().map(|(k, v)| (s(k), v)).collect() }
}

#[test]
fn text_helpers() {
    assert_eq!(u64_to_decimal(0), "0");
    assert_eq!(u64_to_decimal(18446744073709551615), "18446744073709551615");
    assert!(text_contains("profile", "fil"));
    assert!(text_contains("profile", ""));
    assert!(!text_contains("pro", "prof"));
    assert_eq!(trim_ws("  a b \t\n"), "a b");
    assert_eq!(trim_ws("\u{3000}x\u{a0}"), "x");
    assert_eq!(trim_ws("   "), "");
    assert_eq!(split_comma_exec("a,b,c"), Some(("a", "b,c")));
    assert_eq!(split_comma_exec("abc"), None);
    assert!(text_starts_with("MATCH,x", "MATCH"));
    assert!(!text_starts_with("MAT", "MATCH"));
}

#[test]
fn sort_texts_orders_by_code_point() {
    let v = vec!["b".to_string(), "B".to_string(), "a".to_string(), "ab".to_string()];
    assert_eq!(sort_texts(v), vec!["B", "a", "ab", "b"]);
}

#[test]
fn test_take_mapping_removes_key() {
    let mut value = ymap(vec![
        ("mihomo", Yaml::Mapping(ymap(vec![("foo", s("bar"))]))),
        ("common", Yaml::Mapping(ymap(vec![("baz", s("qux"))]))),
    ]);
    let mihomo = take_mapping(&mut value, "mihomo");
    assert!(mihomo.is_some());
    assert!(!value.contains_key("mihomo"), "mihomo should be removed");
    assert!(value.contains_key("common"), "common should remain");
}

fn key_entry(c: char) -> Yaml {
    Yaml::Mapping(ymap(vec![
        ("code", s(&format!("Char('{c}')"))),
        ("shift", Yaml::Bool(false)),
        ("ctrl", Yaml::Bool(false)),
        ("alt", Yaml::Bool(false)),
        ("super_", Yaml::Bool(false)),
    ]))
}

#[test]
fn test_section_merge_core_overrides_common() {
    let common_conn = YamlMap { entries: vec![(key_entry('j'), s("MoveDown"))] };
    let core_conn = YamlMap { entries: vec![(key_entry('k'), s("MoveUp"))] };
    let value = ymap(vec![
        ("connections", Yaml::Mapping(common_conn)),
        ("mihomo", Yaml::Mapping(ymap(vec![("connections", Yaml::Mapping(core_conn))]))),
    ]);
    let mut common = value.dup();
    let mihomo_section = take_mapping(&mut common, "mihomo");
    common.remove("sing-box");
    assert!(mihomo_section.is_some(), "mihomo section should be extracted");
    if let Some(core_specific) = mihomo_section {
        merge_mappings(&mut common, &core_specific);
    }
    let connections = common.get("connections").expect("connections should exist");
    assert!(matches!(connections, Yaml::Mapping(_)), "connections should be a mapping");
    if let Yaml::Mapping(m) = connections {
        assert_eq!(m.len(), 2);
    }
}

#[test]
fn agent_split_sections_picks_core() {
    let mut value = ymap(vec![
        ("settings", Yaml::Mapping(ymap(vec![]))),
        ("mihomo", Yaml::Mapping(ymap(vec![("a", s("1"))]))),
        ("sing-box", Yaml::Mapping(ymap(vec![("b", s("2"))]))),
    ]);
    let (common, core) = split_sections(&mut value, CoreType::Singbox);
    assert_eq!(common.len(), 1);
    assert!(core.unwrap().contains_key("b"));
}

#[test]
fn agent_get_errors() {
    let mut value = ymap(vec![("logs", s("x"))]);
    assert_eq!(get(&mut value.dup(), "connections").err(), Some(SectionError::Missing("connections".to_string())));
    assert_eq!(get(&mut value, "logs").err(), Some(SectionError::NotMapping("logs".to_string())));
}

#[test]
fn agent_merge_replaces_scalars() {
    let mut base = ymap(vec![("a", s("1")), ("b", Yaml::Mapping(ymap(vec![("x", s("1"))])))]);
    let over = ymap(vec![("a", s("2")), ("b", Yaml::Mapping(ymap(vec![("y", s("2"))]))), ("c", s("3"))]);
    merge_mappings(&mut base, &over);
    let expected = ymap(vec![
        ("a", s("2")),
        ("b", Yaml::Mapping(ymap(vec![("x", s("1")), ("y", s("2"))]))),
        ("c", s("3")),
    ]);
    assert!(base.equals(&expected));
}

#[test]
fn agent_duplicate_keys() {
    let k = |c| Key { code: KeyCode::Char(c), shift: false, ctrl: false, alt: false, super_: false };
    assert_eq!(duplicate_keys(&vec![k('a'), k('b'), k('a'), k('a')]), vec![k('a'), k('a')]);
    assert!(duplicate_keys(&vec![k('a'), k('b')]).is_empty());
}

#[test]
fn command_output_report() {
    assert_eq!(
        stringify_output(true, "exit status: 0", "done", ""),
        "OK\n        Stdout:\n        done\n\n        Stderr:\n        \n        "
    );
    assert_eq!(
        stringify_output(false, "exit status: 1", "", "denied"),
        "Error(exit status: 1)\n        Stdout:\n        \n\n        Stderr:\n        denied\n        "
    );
}
