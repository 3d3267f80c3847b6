use clashtui::proxies::{record_delays, Key, Proxies, ProxySettings, Task};
use clashtui::tree::{DelayRecord, NodeType, ProxiesResponse, Proxy, ProxyTree};
use indexmap::IndexMap;

fn group(members: &[&str], now: &str) -> Proxy {
    Proxy {
        proxy_type: "Selector".to_string(),
        all: Some(members.iter().map(|m| m.to_string()).collect()),
        now: Some(now.to_string()),
        hidden: false,
        history: vec![],
        extra: vec![],
        test_url: None,
    }
}

fn leaf(delay: Option<u64>) -> Proxy {
    Proxy {
        proxy_type: "Shadowsocks".to_string(),
        all: None,
        now: None,
        hidden: false,
        history: delay.map(|d| vec![DelayRecord { delay: d }]).unwrap_or_default(),
        extra: vec![],
        test_url: None,
    }
}

fn sample() -> IndexMap<String, Proxy> {
    let mut m = IndexMap::new();
    m.insert("GLOBAL".to_string(), group(&["Select", "Auto"], "Select"));
    m.insert("Auto".to_string(), group(&["a", "b"], "b"));
    m.insert("Select".to_string(), group(&["a", "Auto"], "a"));
    m.insert("a".to_string(), leaf(Some(120)));
    m.insert("b".to_string(), leaf(Some(80)));
    m
}

fn names(t: &ProxyTree) -> Vec<String> {
    t.nodes.iter().map(|n| n.name.clone()).collect()
}

#[test]
fn tree_build_orders_groups_by_global() {
    let t = ProxyTree::build(ProxiesResponse { proxies: sample() });
    assert_eq!(names(&t), vec!["Select", "Auto", "GLOBAL"]);
    assert!(t.nodes.iter().all(|n| n.node_type == NodeType::Folder && !n.expanded && n.depth == 0));
    assert_eq!(t.len(), 3);
    assert!(!t.is_empty());
}

#[test]
fn tree_expand_and_collapse() {
    let proxies = sample();
    let mut t = ProxyTree::build(ProxiesResponse { proxies: sample() });
    t.expand_at("Select", &proxies);
    assert_eq!(names(&t), vec!["Select", "a", "Auto", "Auto", "GLOBAL"]);
    assert_eq!(t.nodes[1].node_type, NodeType::File);
    assert!(t.nodes[1].is_now);
    assert_eq!(t.nodes[1].delay, Some(120));
    assert_eq!(t.nodes[2].node_type, NodeType::Link);
    assert_eq!(t.nodes[2].parent, Some("Select".to_string()));
    t.collapse_at("Select", &proxies);
    assert_eq!(names(&t), vec!["Select", "Auto", "GLOBAL"]);
}

#[test]
fn tree_toggle_twice_restores() {
    let proxies = sample();
    let mut t = ProxyTree::build(ProxiesResponse { proxies: sample() });
    t.toggle_expand_at("Auto", &proxies);
    assert_eq!(names(&t), vec!["Select", "Auto", "a", "b", "GLOBAL"]);
    t.toggle_expand_at("Auto", &proxies);
    assert_eq!(names(&t), vec!["Select", "Auto", "GLOBAL"]);
}

#[test]
fn tree_expand_all_and_collapse_all() {
    let proxies = sample();
    let mut t = ProxyTree::build(ProxiesResponse { proxies: sample() });
    t.expand_all(&proxies);
    assert_eq!(names(&t), vec!["Select", "a", "Auto", "Auto", "a", "b", "GLOBAL", "Select", "Auto"]);
    t.collapse_all(&proxies);
    assert_eq!(names(&t), vec!["Select", "Auto", "GLOBAL"]);
}

#[test]
fn tree_find_and_index() {
    let proxies = sample();
    let mut t = ProxyTree::build(ProxiesResponse { proxies: sample() });
    t.expand_at("Select", &proxies);
    assert_eq!(t.find_folder_index("Auto"), Some(3));
    assert_eq!(t.find_folder_index("a"), None);
    assert!(t.node_at(4).is_some());
    assert!(t.node_at(5).is_none());
}

#[test]
fn tree_sorted_by_delay() {
    let proxies = sample();
    let mut t = ProxyTree::build(ProxiesResponse { proxies: sample() });
    t.sort_by_delay = true;
    t.expand_at("Select", &proxies);
    assert_eq!(names(&t), vec!["Select", "a", "Auto", "Auto", "GLOBAL"]);
    t.expand_at("Auto", &proxies);
    assert_eq!(names(&t), vec!["Select", "a", "Auto", "Auto", "b", "a", "GLOBAL"]);
}

#[test]
fn proxies_tab_moves_and_refreshes() {
    let mut p = Proxies::new();
    assert!(matches!(p.init(), Task::Refresh));
    p.apply_initial(sample());
    let settings = ProxySettings { timeout: Some(5), test_url: None };
    let mut state = Some(0usize);
    assert!(matches!(p.dispatch_key(Key::MoveDown, &mut state, &settings, 0), Task::Nothing));
    assert_eq!(state, Some(1));
    assert!(matches!(p.dispatch_key(Key::MoveUp, &mut state, &settings, 0), Task::Nothing));
    assert_eq!(state, Some(0));
    assert!(matches!(p.dispatch_key(Key::MoveUp, &mut state, &settings, 0), Task::Nothing));
    assert_eq!(state, Some(0));
    assert!(matches!(p.dispatch_key(Key::Refresh, &mut state, &settings, 0), Task::Refresh));
}

#[test]
fn proxies_tab_select_switches_group() {
    let mut p = Proxies::new();
    p.apply_initial(sample());
    let settings = ProxySettings { timeout: Some(5), test_url: None };
    let mut state = Some(0usize);
    assert!(matches!(p.dispatch_key(Key::Select, &mut state, &settings, 7), Task::Nothing));
    assert_eq!(p.tree.nodes.len(), 5);
    state = Some(1);
    match p.dispatch_key(Key::Select, &mut state, &settings, 7) {
        Task::SelectProxy { group, node, timeout_ms, .. } => {
            assert_eq!(group, "Select");
            assert_eq!(node, "a");
            assert_eq!(timeout_ms, 5000);
        }
        _ => panic!("expected a switch"),
    }
}

#[test]
fn record_delays_adds_positive_delays_only() {
    let mut m = sample();
    record_delays(&mut m, &vec![("a".to_string(), 95), ("b".to_string(), 0), ("zzz".to_string(), 10), ("a".to_string(), 60)]);
    let hist = |n: &str| m.get(n).unwrap().history.iter().map(|r| r.delay).collect::<Vec<u64>>();
    assert_eq!(hist("a"), vec![120, 95, 60]);
    assert_eq!(hist("b"), vec![80]);
    assert_eq!(m.len(), 5);
    assert_eq!(m.get_index(3).unwrap().0, "a");
}
