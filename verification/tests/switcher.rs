use dofus_switcher::actions::{execute, GameAction};
use dofus_switcher::state::{default_bindings, AppConfig, AppState, DofusWindow, KeyBinding, DEFAULT_NEXT_KEY, DEFAULT_PREV_KEY};
use dofus_switcher::win_api::{scan_open_windows, new_window, ScannedWindow};

fn win(hwnd: isize, name: &str) -> DofusWindow {
    DofusWindow {
        hwnd,
        original_title: format!("{} - Ocra - Dofus", name),
        name: name.to_string(),
        class: "Ocra".to_string(),
        icon: "default".to_string(),
    }
}

fn three() -> Vec<DofusWindow> {
    vec![win(10, "a"), win(20, "b"), win(30, "c")]
}

fn scanned(hwnd: isize, title: &str) -> ScannedWindow {
    ScannedWindow { hwnd, title: title.to_string() }
}

fn handles(state: &AppState) -> Vec<isize> {
    state.windows.iter().map(|w| w.hwnd).collect()
}

#[test]
fn execute_on_empty_list_does_nothing() {
    assert_eq!(execute(GameAction::NextWindow, &Vec::new(), 5), None);
    assert_eq!(execute(GameAction::PrevWindow, &Vec::new(), 5), None);
}

#[test]
fn execute_next_and_prev_cycle() {
    let ws = three();
    assert_eq!(execute(GameAction::NextWindow, &ws, 10), Some(20));
    assert_eq!(execute(GameAction::NextWindow, &ws, 20), Some(30));
    assert_eq!(execute(GameAction::NextWindow, &ws, 30), Some(10));
    assert_eq!(execute(GameAction::PrevWindow, &ws, 10), Some(30));
    assert_eq!(execute(GameAction::PrevWindow, &ws, 30), Some(20));
}

#[test]
fn execute_from_unlisted_foreground_starts_at_last() {
    let ws = three();
    assert_eq!(execute(GameAction::NextWindow, &ws, 99), Some(10));
    assert_eq!(execute(GameAction::PrevWindow, &ws, 99), Some(20));
}

#[test]
fn execute_single_window_stays() {
    let ws = vec![win(7, "solo")];
    assert_eq!(execute(GameAction::NextWindow, &ws, 7), Some(7));
    assert_eq!(execute(GameAction::PrevWindow, &ws, 0), Some(7));
}

#[test]
fn execute_prev_undoes_next() {
    let ws = three();
    for h in [10isize, 20, 30] {
        let n = execute(GameAction::NextWindow, &ws, h).unwrap();
        assert_eq!(execute(GameAction::PrevWindow, &ws, n), Some(h));
        let p = execute(GameAction::PrevWindow, &ws, h).unwrap();
        assert_eq!(execute(GameAction::NextWindow, &ws, p), Some(h));
    }
}

#[test]
fn scan_adds_new_windows_with_parsed_titles() {
    let mut state = AppState::new(AppConfig::new());
    scan_open_windows(&mut state, &vec![scanned(1, "Exil - Ocra - Dofus 3.0"), scanned(2, "Dofus")]);
    assert_eq!(handles(&state), vec![1, 2]);
    assert_eq!(state.windows[0].name, "Exil");
    assert_eq!(state.windows[0].class, "Ocra");
    assert_eq!(state.windows[0].original_title, "Exil - Ocra - Dofus 3.0");
    assert_eq!(state.windows[0].icon, "default");
    assert_eq!(state.windows[1].name, "Dofus");
    assert_eq!(state.windows[1].class, "Dofus");
}

#[test]
fn scan_drops_closed_windows_and_keeps_order() {
    let mut state = AppState::new(AppConfig::new());
    state.windows = three();
    scan_open_windows(&mut state, &vec![scanned(40, "d - Iop"), scanned(30, "c - Ocra"), scanned(10, "a - Ocra")]);
    assert_eq!(handles(&state), vec![10, 30, 40]);
    assert_eq!(state.windows[2].name, "d");
    assert_eq!(state.windows[2].class, "Iop");
}

#[test]
fn scan_lists_duplicate_handles_once() {
    let mut state = AppState::new(AppConfig::new());
    scan_open_windows(&mut state, &vec![scanned(5, "x - A"), scanned(5, "y - B")]);
    assert_eq!(handles(&state), vec![5]);
    assert_eq!(state.windows[0].name, "x");
}

#[test]
fn scan_twice_changes_nothing() {
    let mut state = AppState::new(AppConfig::new());
    state.windows = three();
    let found = vec![scanned(20, "b - Ocra"), scanned(50, "e - Sram")];
    scan_open_windows(&mut state, &found);
    let once: Vec<(isize, String, String)> = state.windows.iter().map(|w| (w.hwnd, w.name.clone(), w.icon.clone())).collect();
    scan_open_windows(&mut state, &found);
    let twice: Vec<(isize, String, String)> = state.windows.iter().map(|w| (w.hwnd, w.name.clone(), w.icon.clone())).collect();
    assert_eq!(once, twice);
    assert_eq!(handles(&state), vec![20, 50]);
}

#[test]
fn scan_uses_remembered_icon() {
    let mut config = AppConfig::new();
    config.set_icon("Exil".to_string(), "ocra".to_string());
    let mut state = AppState::new(config);
    scan_open_windows(&mut state, &vec![scanned(1, "Exil - Ocra"), scanned(2, "Other - Iop")]);
    assert_eq!(state.windows[0].icon, "ocra");
    assert_eq!(state.windows[1].icon, "default");
}

#[test]
fn assigned_icon_is_used_by_later_scan() {
    let mut state = AppState::new(AppConfig::new());
    scan_open_windows(&mut state, &vec![scanned(1, "Exil - Ocra")]);
    state.assign_icon(0, "panda".to_string());
    assert_eq!(state.windows[0].icon, "panda");
    assert_eq!(state.config.icon_of(&"Exil".to_string()), Some("panda".to_string()));
    scan_open_windows(&mut state, &vec![scanned(9, "Exil - Ocra")]);
    assert_eq!(handles(&state), vec![9]);
    assert_eq!(state.windows[0].icon, "panda");
}

#[test]
fn new_window_splits_title() {
    let config = AppConfig::new();
    let w = new_window(3, &" - - x".to_string(), &config);
    assert_eq!(w.name, "");
    assert_eq!(w.class, "- x");
    let w = new_window(4, &"A - B".to_string(), &config);
    assert_eq!((w.name.as_str(), w.class.as_str()), ("A", "B"));
    let w = new_window(5, &"A-B".to_string(), &config);
    assert_eq!((w.name.as_str(), w.class.as_str()), ("A-B", "Dofus"));
}

#[test]
fn move_window_and_back() {
    let mut state = AppState::new(AppConfig::new());
    state.windows = three();
    state.move_window(0, 2);
    assert_eq!(handles(&state), vec![20, 30, 10]);
    state.move_window(2, 0);
    assert_eq!(handles(&state), vec![10, 20, 30]);
    state.move_window(1, 1);
    assert_eq!(handles(&state), vec![10, 20, 30]);
    state.move_window(2, 1);
    assert_eq!(handles(&state), vec![10, 30, 20]);
}

#[test]
fn remove_window_takes_it_off() {
    let mut state = AppState::new(AppConfig::new());
    state.windows = three();
    state.remove_window(1);
    assert_eq!(handles(&state), vec![10, 30]);
}

#[test]
fn config_set_and_read() {
    let mut c = AppConfig::new();
    assert_eq!(c.icon_of(&"a".to_string()), None);
    c.set_icon("a".to_string(), "x".to_string());
    c.set_icon("b".to_string(), "y".to_string());
    c.set_icon("a".to_string(), "z".to_string());
    assert_eq!(c.icon_of(&"a".to_string()), Some("z".to_string()));
    assert_eq!(c.icon_of(&"b".to_string()), Some("y".to_string()));
    let mut e = c.entries();
    e.sort();
    assert_eq!(e, vec![("a".to_string(), "z".to_string()), ("b".to_string(), "y".to_string())]);
}

#[test]
fn config_round_trips_through_entries() {
    let entries = vec![
        ("a".to_string(), "1".to_string()),
        ("b".to_string(), "2".to_string()),
        ("a".to_string(), "3".to_string()),
    ];
    let c = AppConfig::from_entries(&entries);
    assert_eq!(c.icon_of(&"a".to_string()), Some("3".to_string()));
    assert_eq!(c.entries().len(), 2);
    let d = AppConfig::from_entries(&c.entries());
    assert_eq!(d.icon_of(&"a".to_string()), Some("3".to_string()));
    assert_eq!(d.icon_of(&"b".to_string()), Some("2".to_string()));
    assert_eq!(d.icon_of(&"c".to_string()), None);
}

#[test]
fn default_bindings_are_less_than_and_f2() {
    let b = default_bindings("<".to_string(), "F2".to_string());
    assert_eq!(b.len(), 2);
    assert_eq!(b[0].action, GameAction::NextWindow);
    assert_eq!(b[0].vk_code, DEFAULT_NEXT_KEY);
    assert_eq!(DEFAULT_NEXT_KEY, 0xE2);
    assert_eq!(b[1].action, GameAction::PrevWindow);
    assert_eq!(b[1].vk_code, DEFAULT_PREV_KEY);
    assert_eq!(DEFAULT_PREV_KEY, 0x71);
    assert_eq!(b[1].name, "F2");
}

#[test]
fn hotkey_ids_map_back_to_actions() {
    let mut state = AppState::new(AppConfig::new());
    state.bindings = default_bindings("<".to_string(), "F2".to_string());
    let regs = state.hotkey_registrations();
    assert_eq!(regs, vec![(1, 0xE2), (2, 0x71)]);
    assert_eq!(state.action_for_hotkey(1), Some(GameAction::NextWindow));
    assert_eq!(state.action_for_hotkey(2), Some(GameAction::PrevWindow));
    assert_eq!(state.action_for_hotkey(0), None);
    assert_eq!(state.action_for_hotkey(3), None);
}

#[test]
fn rebind_then_take_flag() {
    let mut state = AppState::new(AppConfig::new());
    state.bindings = vec![KeyBinding { action: GameAction::NextWindow, vk_code: 1, name: "a".to_string() }];
    assert!(state.take_keys_update());
    assert!(!state.take_keys_update());
    state.rebind(0, 65, "A".to_string());
    assert_eq!(state.bindings[0].vk_code, 65);
    assert_eq!(state.bindings[0].name, "A");
    assert_eq!(state.bindings[0].action, GameAction::NextWindow);
    assert!(state.take_keys_update());
    assert!(!state.take_keys_update());
}

#[test]
fn hotkey_message_focuses_next_window() {
    let mut state = AppState::new(AppConfig::new());
    state.bindings = default_bindings("<".to_string(), "F2".to_string());
    state.windows = three();
    assert_eq!(state.hotkey_target(1, 10), Some(20));
    assert_eq!(state.hotkey_target(2, 10), Some(30));
    assert_eq!(state.hotkey_target(3, 10), None);
    assert_eq!(state.hotkey_target(0, 10), None);
    state.windows.clear();
    assert_eq!(state.hotkey_target(1, 10), None);
}
