use clashtui::fuzzy::FzfItem;
use clashtui::key::{Key, KeyCode};
use clashtui::popmsg::{highlight_ranges, FzfFind, PopUp, Route};
use clashtui::settings::{SettingsContent, SettingsKey};

#[test]
fn fuzzy_match_exact() {
    let result = "hello".fuzzy_match("hello");
    assert_eq!(result, Some(vec![0, 1, 2, 3, 4]));
}

#[test]
fn fuzzy_match_substring() {
    let result = "MyProfile".fuzzy_match("pro");
    assert_eq!(result, Some(vec![2, 3, 4]));
}

#[test]
fn fuzzy_match_case_insensitive() {
    let result = "MYPROFILE".fuzzy_match("pro");
    assert_eq!(result, Some(vec![2, 3, 4]));
}

#[test]
fn fuzzy_match_no_match() {
    let result = "hello".fuzzy_match("xyz");
    assert_eq!(result, None);
}

#[test]
fn fuzzy_match_sequential_chars() {
    let result = "abcdef".fuzzy_match("ace");
    assert_eq!(result, Some(vec![0, 2, 4]));
}

#[test]
fn fuzzy_match_non_sequential_fails() {
    let result = "MyProfile".fuzzy_match("fpm");
    assert_eq!(result, None);
}

#[test]
fn fuzzy_match_empty_query() {
    let result = "anything".fuzzy_match("");
    assert_eq!(result, Some(Vec::new()));
}

#[test]
fn fuzzy_match_cjk() {
    let result = "你好世界".fuzzy_match("好世");
    assert_eq!(result, Some(vec![3, 6]));
}

#[test]
fn fuzzy_match_owned_string_and_uppercase_query() {
    let item = String::from("Select-pvd0");
    assert_eq!(item.fuzzy_match("SP0"), Some(vec![0, 7, 10]));
    assert_eq!(item.fuzzy_match("0s"), None);
}

#[test]
fn fuzzy_match_query_longer_than_text() {
    assert_eq!("ab".fuzzy_match("abc"), None);
}

fn key(code: KeyCode) -> Key {
    Key { code, shift: false, ctrl: false, alt: false, super_: false }
}

#[test]
fn fzf_find_filters_as_query_is_typed() {
    let items = vec![String::from("alpha"), String::from("beta"), String::from("gamma")];
    let mut f = FzfFind::new(items);
    assert_eq!(f.match_key_event(&key(KeyCode::Char('m'))), Route::Keep);
    assert_eq!(f.match_key_event(&key(KeyCode::Enter)), Route::Send);
    assert_eq!(f.result(), Some(2));
}

#[test]
fn fzf_find_escape_drops() {
    let items = vec![String::from("alpha")];
    let mut f = FzfFind::new(items);
    assert_eq!(f.match_key_event(&key(KeyCode::Esc)), Route::Drop);
}

#[test]
fn fzf_find_no_match_gives_no_result() {
    let items = vec![String::from("alpha"), String::from("beta")];
    let mut f = FzfFind::new(items);
    f.match_key_event(&key(KeyCode::Char('z')));
    assert_eq!(f.result(), None);
    f.match_key_event(&key(KeyCode::Backspace));
    assert_eq!(f.result(), Some(0));
}

#[test]
fn popup_stack_routes() {
    let mut p: PopUp<u32> = PopUp::new();
    assert!(!p.check());
    assert_eq!(p.apply_route(Route::Send), None);
    p.push(1);
    p.push(2);
    assert!(p.check());
    assert_eq!(p.apply_route(Route::Keep), None);
    assert_eq!(p.apply_route(Route::Send), Some(2));
    assert_eq!(p.apply_route(Route::Drop), None);
    assert!(!p.check());
}

#[test]
fn fzf_find_exposes_query_and_listing() {
    let items = vec![String::from("alpha"), String::from("beta"), String::from("gamma")];
    let mut f = FzfFind::new(items);
    assert_eq!(f.filtered(), &vec![0, 1, 2]);
    f.match_key_event(&key(KeyCode::Char('a')));
    f.match_key_event(&key(KeyCode::Char('m')));
    assert_eq!(f.query(), "am");
    assert_eq!(f.filtered(), &vec![2]);
    assert_eq!(f.selected(), 0);
    assert_eq!(f.item_text(2), "gamma");
}

#[test]
fn highlight_ranges_splits_plain_and_matched() {
    let r = highlight_ranges("MyProfile", &vec![2, 3, 4]);
    assert_eq!(r, vec![(0, 2, false), (2, 3, true), (3, 4, true), (4, 5, true), (5, 9, false)]);
}

#[test]
fn highlight_ranges_multibyte_and_edges() {
    // "中文" is six bytes; the match covers the whole first character.
    let r = highlight_ranges("中文", &vec![0]);
    assert_eq!(r, vec![(0, 3, true), (3, 6, false)]);
    let r = highlight_ranges("ab", &vec![1]);
    assert_eq!(r, vec![(0, 1, false), (1, 2, true)]);
    let r = highlight_ranges("ab", &vec![]);
    assert_eq!(r, vec![(0, 2, false)]);
    let r = highlight_ranges("", &vec![]);
    assert_eq!(r, vec![]);
}

#[test]
fn fzf_find_size_caps_height() {
    let few = FzfFind::new(vec![String::from("alpha"), String::from("a-much-longer-name")]);
    assert_eq!(few.size(), (18, 3));
    let many = FzfFind::new((0..70000).map(|i| i.to_string()).collect::<Vec<String>>());
    assert_eq!(many.size(), (10, 20));
}

#[test]
fn fzf_find_query_scroll() {
    let mut f = FzfFind::new(vec![String::from("alpha")]);
    assert_eq!(f.query_scroll(10), 0);
    for c in "中文中文".chars() {
        f.match_key_event(&key(KeyCode::Char(c)));
    }
    // width 8 plus the prompt's 2 columns, in a line with 6 columns of room
    assert_eq!(f.query_scroll(10), 4);
    assert_eq!(f.query_scroll(2), 10);
    assert_eq!(f.query_scroll(40), 0);
}

#[test]
fn settings_keys_at_any_selection() {
    let mut c = SettingsContent::new();
    let mut st: Option<usize> = None;
    c.init(&mut st, false);
    let mut big = Some(usize::MAX);
    assert!(c.handle_key_event(SettingsKey::MoveDown, &mut big).is_none());
    assert_eq!(big, Some(usize::MAX));
    assert!(c.handle_key_event(SettingsKey::Execute, &mut big).is_none());
    assert!(c.handle_key_event(SettingsKey::MoveUp, &mut big).is_none());
    assert_eq!(big, Some(usize::MAX - 1));
    let mut sel = Some(0);
    c.handle_key_event(SettingsKey::Execute, &mut sel);
    assert!(c.mode_selector_visible);
    c.mode_selector_state = Some(usize::MAX);
    assert!(c.handle_key_event(SettingsKey::MoveDown, &mut sel).is_none());
    assert_eq!(c.mode_selector_state, Some(usize::MAX));
    assert!(c.handle_key_event(SettingsKey::Execute, &mut sel).is_none());
    assert!(c.mode_selector_visible);
    assert!(c.handle_key_event(SettingsKey::Esc, &mut sel).is_none());
    assert!(!c.mode_selector_visible);
}
