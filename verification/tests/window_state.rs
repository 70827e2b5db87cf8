use dofus_switcher::actions::GameAction;
use dofus_switcher::gui::{binding_label, icon_role, is_icon_extension, DofusApp, IconRole};
use dofus_switcher::state::{default_bindings, AppConfig, AppState, DofusWindow};
use dofus_switcher::win_api::ScannedWindow;

#[test]
fn app_defaults() {
    let app = DofusApp::default();
    assert_eq!(app.status_msg, "Listo.");
    assert_eq!(app.rebinding_index, None);
    assert!(app.available_icon_names.is_empty());
    assert!(!app.mini_mode);
    assert!(app.vertical_mini);
}

#[test]
fn icon_names_sorted() {
    let mut app = DofusApp::default();
    app.set_icon_names(&vec!["panda".to_string(), "default".to_string(), "aniripsa".to_string()]);
    assert_eq!(app.available_icon_names, vec!["aniripsa", "default", "panda"]);
}

#[test]
fn texture_key_falls_back_to_default() {
    let mut app = DofusApp::default();
    assert_eq!(app.icon_texture_key(&"ocra".to_string()), None);
    app.set_icon_names(&vec!["ocra".to_string(), "default".to_string()]);
    assert_eq!(app.icon_texture_key(&"ocra".to_string()), Some("ocra".to_string()));
    assert_eq!(app.icon_texture_key(&"iop".to_string()), Some("default".to_string()));
    app.set_icon_names(&vec!["ocra".to_string()]);
    assert_eq!(app.icon_texture_key(&"iop".to_string()), None);
}

#[test]
fn icon_roles_and_extensions() {
    assert_eq!(icon_role(&"drag".to_string()), IconRole::Drag);
    assert_eq!(icon_role(&"launch".to_string()), IconRole::Launch);
    assert_eq!(icon_role(&"restore".to_string()), IconRole::Restore);
    assert_eq!(icon_role(&"rotate".to_string()), IconRole::Rotate);
    assert_eq!(icon_role(&"delete".to_string()), IconRole::Delete);
    assert_eq!(icon_role(&"ocra".to_string()), IconRole::Character);
    assert_eq!(icon_role(&"Drag".to_string()), IconRole::Character);
    assert!(is_icon_extension("png"));
    assert!(is_icon_extension("PNG"));
    assert!(is_icon_extension("Jpeg"));
    assert!(is_icon_extension("jpg"));
    assert!(!is_icon_extension("gif"));
}

#[test]
fn labels_and_button_texts() {
    assert_eq!(binding_label(GameAction::NextWindow), "Sig:");
    assert_eq!(binding_label(GameAction::PrevWindow), "Ant:");
    let mut app = DofusApp::default();
    assert_eq!(app.binding_button_text(0, &"F2".to_string()), "[F2]");
    assert!(app.begin_rebinding(1, GameAction::PrevWindow));
    assert_eq!(app.status_msg, "Configurando 'Ant:'...");
    assert_eq!(app.binding_button_text(1, &"F2".to_string()), "...");
    assert_eq!(app.binding_button_text(0, &"<".to_string()), "[<]");
    assert!(!app.begin_rebinding(0, GameAction::NextWindow));
    assert_eq!(app.rebinding_index, Some(1));
}

#[test]
fn rebinding_completes() {
    let mut state = AppState::new(AppConfig::new());
    state.bindings = default_bindings("<".to_string(), "F2".to_string());
    state.take_keys_update();
    let mut app = DofusApp::default();
    app.complete_rebinding(&mut state, 65, "A".to_string());
    assert_eq!(app.status_msg, "Listo.");
    assert!(!state.keys_need_update);
    app.begin_rebinding(0, GameAction::NextWindow);
    app.complete_rebinding(&mut state, 65, "A".to_string());
    assert_eq!(app.status_msg, "Tecla actualizada: A");
    assert_eq!(app.rebinding_index, None);
    assert_eq!(state.bindings[0].vk_code, 65);
    assert_eq!(state.bindings[0].name, "A");
    assert_eq!(state.bindings[1].vk_code, 0x71);
    assert!(state.keys_need_update);
}

#[test]
fn window_controls_update_status() {
    let mut state = AppState::new(AppConfig::new());
    let mut app = DofusApp::default();
    app.synchronize(&mut state, &vec![ScannedWindow { hwnd: 1, title: "Exil - Ocra".to_string() }, ScannedWindow { hwnd: 2, title: "Bob - Iop".to_string() }]);
    assert_eq!(app.status_msg, "Sincronizado.");
    assert_eq!(state.windows.len(), 2);
    app.choose_icon(&mut state, 1, "iop".to_string());
    assert_eq!(app.status_msg, "Icono guardado.");
    assert_eq!(state.windows[1].icon, "iop");
    assert_eq!(state.config.icon_of(&"Bob".to_string()), Some("iop".to_string()));
    app.hide_window(&mut state, 0);
    assert_eq!(app.status_msg, "Ventana eliminada.");
    let names: Vec<&str> = state.windows.iter().map(|w: &DofusWindow| w.name.as_str()).collect();
    assert_eq!(names, vec!["Bob"]);
}
