use clashtui::startup::{check_base_dir, render_timeout, BaseDirError};
use clashtui::agent::{extract_keymap_with_descs, KeyValue};
use clashtui::demo::{dispatch_key, dispatch_seq, handle_term, FrontSignal, TermEvent};
use clashtui::demo::{egg_step, handle_global_kv, generate_key, AddAct, AddActOpt, BackEnd, Chord, EventQuit, InfoAct, Keymap, Layer, Visibility};
use clashtui::key::{Key, KeyCode, KeyEvent, KeyEventKind};
use clashtui::popmsg::{popup_route, Input, MsgBuilder, Route};
use clashtui::profile_tab::{self, display_duration, readable_atime, sort_profiles, sync_helper, Profile, ProfileAction};
use clashtui::selection::{select_next, select_previous};
use clashtui::settings::{default_shortcuts, Mode, SettingsContent, SettingsKey, SettingsOp};
use clashtui::template_tab::{self, Template, TemplateAction};
use clashtui::term::csi_u_reply;

fn press(code: KeyCode) -> KeyEvent {
    KeyEvent { code, kind: KeyEventKind::Press }
}

fn plain(code: KeyCode) -> Key {
    Key { code, shift: false, ctrl: false, alt: false, super_: false }
}

#[test]
fn profile_key_from_event() {
    assert_eq!(profile_tab::Key::try_from_event(&press(KeyCode::Char('i'))), Ok(profile_tab::Key::Add));
    assert_eq!(profile_tab::Key::try_from_event(&press(KeyCode::Enter)), Ok(profile_tab::Key::Select));
    assert_eq!(profile_tab::Key::try_from_event(&press(KeyCode::Char('/'))), Ok(profile_tab::Key::Search));
    assert_eq!(profile_tab::Key::try_from_event(&press(KeyCode::Char('x'))), Err(()));
    let release = KeyEvent { code: KeyCode::Enter, kind: KeyEventKind::Release };
    assert_eq!(profile_tab::Key::try_from_event(&release), Err(()));
}

fn profiles() -> Profile {
    let mut p = Profile::new();
    sync_helper(&mut p, vec!["home".to_string(), "work".to_string()], vec!["Just Now".to_string(), "In 3 hours".to_string()]);
    p
}

#[test]
fn profile_actions_need_a_selection() {
    let p = profiles();
    let mut state = None;
    assert_eq!(p.handle_key_event(profile_tab::Key::Delete, &mut state), ProfileAction::Nothing);
    assert_eq!(p.handle_key_event(profile_tab::Key::Add, &mut state), ProfileAction::Add);
    assert_eq!(p.handle_key_event(profile_tab::Key::MoveDown, &mut state), ProfileAction::Nothing);
    assert_eq!(state, Some(0));
    assert_eq!(p.handle_key_event(profile_tab::Key::MoveDown, &mut state), ProfileAction::Nothing);
    assert_eq!(state, Some(1));
    assert_eq!(p.handle_key_event(profile_tab::Key::Select, &mut state), ProfileAction::Select("work".to_string()));
    assert_eq!(p.handle_key_event(profile_tab::Key::Test, &mut state), ProfileAction::Test("work".to_string()));
}

#[test]
fn profile_filter_keeps_matching_rows() {
    let mut p = profiles();
    assert_eq!(p.visible().len(), 2);
    p.set_filter("or".to_string());
    assert_eq!(p.visible(), vec![("work".to_string(), "In 3 hours".to_string())]);
}

#[test]
fn profile_display_duration() {
    assert_eq!(display_duration(0, 0), "Just Now");
    assert_eq!(display_duration(0, 1), "In 1 mins");
    assert_eq!(display_duration(59, 0), "In 1 mins");
    assert_eq!(display_duration(60, 0), "In 2 mins");
    assert_eq!(display_duration(3539, 999), "In 59 mins");
    assert_eq!(display_duration(3540, 0), "In 0 hours");
    assert_eq!(display_duration(7200, 0), "In 2 hours");
    assert_eq!(display_duration(86400, 0), "In about 1 days");
    assert_eq!(readable_atime(None), "Unknown");
    assert_eq!(readable_atime(Some((120, 0))), "In 3 mins");
}

#[test]
fn profile_sorting_pairs() {
    let (names, times) = sort_profiles(vec![
        ("b".to_string(), "2".to_string()),
        ("a".to_string(), "9".to_string()),
        ("b".to_string(), "1".to_string()),
    ]);
    assert_eq!(names, vec!["a", "b", "b"]);
    assert_eq!(times, vec!["9", "1", "2"]);
}

#[test]
fn template_tab_keys_and_actions() {
    assert_eq!(template_tab::Key::try_from_event(&press(KeyCode::Left)), Ok(template_tab::Key::Switch));
    assert_eq!(template_tab::Key::try_from_event(&press(KeyCode::Enter)), Ok(template_tab::Key::Generate));
    let mut t = Template::new();
    t.items = vec!["base.yaml".to_string(), "full.yaml".to_string()];
    let mut state = None;
    assert_eq!(t.handle_key_event(template_tab::Key::Generate, &mut state), TemplateAction::Nothing);
    assert_eq!(t.handle_key_event(template_tab::Key::MoveUp, &mut state), TemplateAction::Nothing);
    assert_eq!(state, Some(usize::MAX));
    state = Some(1);
    assert_eq!(t.handle_key_event(template_tab::Key::Generate, &mut state), TemplateAction::Generate("full.yaml".to_string()));
    assert_eq!(t.handle_key_event(template_tab::Key::Switch, &mut state), TemplateAction::Switch);
    t.filter = Some("ba".to_string());
    assert_eq!(t.visible(), vec!["base.yaml".to_string()]);
}

#[test]
fn selection_moves() {
    let mut s = None;
    select_previous(&mut s);
    assert_eq!(s, Some(usize::MAX));
    select_next(&mut s);
    assert_eq!(s, Some(usize::MAX));
    let mut s = Some(0);
    select_previous(&mut s);
    assert_eq!(s, Some(0));
}

#[test]
fn settings_key_defaults_and_keymap() {
    let empty: Vec<(Key, SettingsKey)> = vec![];
    assert_eq!(SettingsKey::try_from_key(&plain(KeyCode::Char('j')), &empty), Ok(SettingsKey::MoveDown));
    assert_eq!(SettingsKey::try_from_key(&plain(KeyCode::Enter), &empty), Ok(SettingsKey::Execute));
    assert_eq!(SettingsKey::try_from_key(&plain(KeyCode::Char('x')), &empty), Err(()));
    let keymap = vec![(plain(KeyCode::Char('x')), SettingsKey::Esc)];
    assert_eq!(SettingsKey::try_from_key(&plain(KeyCode::Char('x')), &keymap), Ok(SettingsKey::Esc));
    assert_eq!(SettingsKey::try_from_key(&plain(KeyCode::Enter), &keymap), Err(()));
}

#[test]
fn settings_mode_picker() {
    let mut c = SettingsContent::new();
    let mut state = None;
    assert!(c.init(&mut state, false));
    assert_eq!(state, Some(0));
    assert_eq!(c.ops, vec![SettingsOp::SwitchMode]);
    assert_eq!(c.handle_key_event(SettingsKey::Execute, &mut state), None);
    assert!(c.mode_selector_visible);
    assert_eq!(c.handle_key_event(SettingsKey::MoveDown, &mut state), None);
    assert_eq!(c.handle_key_event(SettingsKey::MoveDown, &mut state), None);
    assert_eq!(c.handle_key_event(SettingsKey::MoveDown, &mut state), None);
    assert_eq!(c.mode_selector_state, Some(2));
    assert_eq!(c.handle_key_event(SettingsKey::Execute, &mut state), Some(Mode::Direct));
    assert!(!c.mode_selector_visible);
    assert_eq!(Mode::Direct.as_str(), "direct");
}

#[test]
fn settings_core_mismatch() {
    let mut c = SettingsContent::new();
    let mut state = None;
    assert!(!c.init(&mut state, true));
    assert_eq!(c.current_mode, "core mismatch");
}

#[test]
fn test_no_duplicate_keys_in_default_agents() {
    let shortcuts = default_shortcuts();
    for (i, a) in shortcuts.iter().enumerate() {
        for b in shortcuts.iter().skip(i + 1) {
            assert!(a.0 != b.0, "settings: duplicate key");
        }
    }
}

#[test]
fn test_default_agents_are_populated() {
    assert!(!default_shortcuts().is_empty());
}

#[test]
fn demo_keymap_and_chords() {
    let k = Keymap::new();
    assert_eq!(k.profile.chords().len(), 4);
    assert_eq!(k.profile.keymap[0].on, vec![generate_key(KeyCode::Char('j'))]);
    assert_eq!(k.profile.keymap[3].desc, Some("select profile".to_string()));
    let c = Chord::new(KeyCode::Esc, None);
    assert_eq!(c.on, vec![plain(KeyCode::Esc)]);
    let _ = BackEnd::new();
    assert_eq!(EventQuit::default().code, 0);
    assert_eq!(AddAct::act(AddActOpt { a: 2, b: 40 }), 42);
    assert_eq!(InfoAct::act(), "Msg from FrontEndActor");
}

#[test]
fn demo_layer_order() {
    let v = Visibility { which: false, help: true, popup: true, confirm: false, input: true };
    assert_eq!(v.layer(), Layer::Help);
    let v = Visibility { which: false, help: false, popup: false, confirm: false, input: false };
    assert_eq!(v.layer(), Layer::Main);
}

#[test]
fn demo_global_keys() {
    let mut tab = 0u8;
    assert!(handle_global_kv(&mut tab, &press(KeyCode::Char('9'))));
    assert_eq!(tab, 1);
    assert!(handle_global_kv(&mut tab, &press(KeyCode::Tab)));
    assert_eq!(tab, 0);
    assert!(!handle_global_kv(&mut tab, &press(KeyCode::Char('0'))));
    assert!(!handle_global_kv(&mut tab, &KeyEvent { code: KeyCode::Tab, kind: KeyEventKind::Release }));
    assert_eq!(tab, 0);
}

#[test]
fn demo_egg_sequence() {
    let seq = [
        KeyCode::Up, KeyCode::Up, KeyCode::Down, KeyCode::Down, KeyCode::Left, KeyCode::Right,
        KeyCode::Left, KeyCode::Right, KeyCode::Char('b'), KeyCode::Char('A'), KeyCode::Char('B'), KeyCode::Char('a'),
    ];
    let mut cur = 0u8;
    let mut found = false;
    for k in seq {
        let (n, f) = egg_step(cur, k);
        cur = n;
        found = f;
    }
    assert!(found);
    assert_eq!(egg_step(3, KeyCode::Up), (0, false));
}

#[test]
fn popup_input_routes() {
    let mut i = Input::new();
    assert_eq!(i.match_key_event(KeyCode::Enter), Route::Send);
    assert_eq!(i.match_key_event(KeyCode::Esc), Route::Drop);
    assert_eq!(i.match_key_event(KeyCode::Char('x')), Route::Keep);
    let b: MsgBuilder<Input> = Input::new().with_title("Name".to_string()).with_prompt("p".to_string());
    assert_eq!(b.title, "Name");
    assert_eq!(b.prompt, Some("p".to_string()));
    assert_eq!(popup_route(true, true, Route::Send), Route::Keep);
    assert_eq!(popup_route(true, false, Route::Send), Route::Send);
}

#[test]
fn term_csi_u_reply() {
    assert!(csi_u_reply(b"\x1b[?0u"));
    assert!(csi_u_reply(b"xx\x1b[?0uyy"));
    assert!(!csi_u_reply(b"\x1b[?1u"));
    assert!(!csi_u_reply(b"\x1b[?0"));
}

#[test]
fn demo_event_routing() {
    let k = press(KeyCode::Char('x'));
    assert_eq!(handle_term(TermEvent::Key(k)), Some(FrontSignal::Key(k)));
    assert_eq!(handle_term(TermEvent::Key(KeyEvent { code: KeyCode::Up, kind: KeyEventKind::Repeat })), None);
    assert_eq!(handle_term(TermEvent::Resize(80, 24)), Some(FrontSignal::Resize));
    assert_eq!(handle_term(TermEvent::Other), None);
    let add = dispatch_key(KeyCode::Char('a')).unwrap();
    assert_eq!((add.a, add.b), (1, 2));
    assert!(dispatch_key(KeyCode::Char('b')).is_none());
    assert_eq!(dispatch_seq(vec![1, 2, 3]), (Some(3), Some(vec![1, 2])));
    assert_eq!(dispatch_seq(vec![7]), (Some(7), None));
    assert_eq!(dispatch_seq(Vec::<u8>::new()), (None, None));
}

#[derive(Debug, Clone, Copy, PartialEq)]
enum Move {
    MoveUp,
    MoveDown,
}

#[test]
fn keymap_entries_simple_have_no_descriptions() {
    let entries = vec![
        (plain(KeyCode::Enter), KeyValue::Simple(Move::MoveUp)),
        (plain(KeyCode::Char('k')), KeyValue::Simple(Move::MoveDown)),
    ];
    let (keys, descs) = extract_keymap_with_descs(entries);
    assert_eq!(keys, vec![(plain(KeyCode::Enter), Move::MoveUp), (plain(KeyCode::Char('k')), Move::MoveDown)]);
    assert!(descs.is_empty());
}

#[test]
fn keymap_entries_with_descriptions() {
    let entries = vec![
        (plain(KeyCode::Enter), KeyValue::WithDesc { action: Move::MoveUp, desc: String::from("Move cursor up") }),
        (plain(KeyCode::Char('k')), KeyValue::WithDesc { action: Move::MoveDown, desc: String::from("Move cursor down") }),
    ];
    let (keys, descs) = extract_keymap_with_descs(entries);
    assert_eq!(keys.len(), 2);
    let mut texts: Vec<&str> = descs.iter().map(|(_, d)| d.as_str()).collect();
    texts.sort();
    assert_eq!(texts, vec!["Move cursor down", "Move cursor up"]);
}

#[test]
fn keymap_entries_mixed_and_overridden() {
    let entries = vec![
        (plain(KeyCode::Enter), KeyValue::Simple(Move::MoveUp)),
        (plain(KeyCode::Char('k')), KeyValue::WithDesc { action: Move::MoveDown, desc: String::from("Move down") }),
    ];
    let (keys, descs) = extract_keymap_with_descs(entries);
    assert_eq!(keys.len(), 2);
    assert_eq!(descs, vec![(plain(KeyCode::Char('k')), String::from("Move down"))]);

    // A later entry for the same key replaces the action; a description given
    // earlier stays when the later entry has none.
    let entries = vec![
        (plain(KeyCode::Up), KeyValue::WithDesc { action: Move::MoveUp, desc: String::from("up") }),
        (plain(KeyCode::Up), KeyValue::Simple(Move::MoveDown)),
    ];
    let (keys, descs) = extract_keymap_with_descs(entries);
    assert_eq!(keys, vec![(plain(KeyCode::Up), Move::MoveDown)]);
    assert_eq!(descs, vec![(plain(KeyCode::Up), String::from("up"))]);
}

#[test]
fn render_timeout_leaves_the_rest_of_the_interval() {
    assert_eq!(render_timeout(0), Some(10_000_000));
    assert_eq!(render_timeout(4_000_000), Some(6_000_000));
    assert_eq!(render_timeout(10_000_000), Some(0));
    assert_eq!(render_timeout(10_000_001), None);
}

#[test]
fn base_dir_must_exist_and_be_a_directory() {
    assert_eq!(check_base_dir(false, false), Err(BaseDirError::Missing));
    assert_eq!(check_base_dir(true, false), Err(BaseDirError::NotADirectory));
    assert_eq!(check_base_dir(true, true), Ok(()));
    assert_eq!(BaseDirError::Missing.message("/x"), "/x does NOT exists");
    assert_eq!(BaseDirError::NotADirectory.message("/x"), "/x is not a dir");
}
