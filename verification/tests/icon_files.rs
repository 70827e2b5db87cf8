use dofus_switcher::actions::{execute, GameAction};
use dofus_switcher::gui::{is_icon_candidate, DofusApp, IconEntry, IconRole};
use dofus_switcher::icon::{icon_file_pixels, icon_pixels};
use dofus_switcher::state::DofusWindow;

fn png_bytes() -> Vec<u8> {
    let mut img = image::RgbaImage::new(2, 1);
    img.put_pixel(0, 0, image::Rgba([1, 2, 3, 4]));
    img.put_pixel(1, 0, image::Rgba([5, 6, 7, 8]));
    let mut out = std::io::Cursor::new(Vec::new());
    img.write_to(&mut out, image::ImageFormat::Png).unwrap();
    out.into_inner()
}

fn entry(stem: &str, is_file: bool, ext: Option<&str>, bytes: Option<Vec<u8>>) -> IconEntry {
    IconEntry { stem: stem.to_string(), is_file, extension: ext.map(|e| e.to_string()), bytes }
}

#[test]
fn icon_pixels_decodes_png() {
    let (rgba, w, h) = icon_pixels(&png_bytes()).unwrap();
    assert_eq!((w, h), (2, 1));
    assert_eq!(rgba, vec![1, 2, 3, 4, 5, 6, 7, 8]);
}

#[test]
fn icon_pixels_rejects_garbage() {
    assert!(icon_pixels(b"not an image").is_none());
    assert!(icon_pixels(&[]).is_none());
}

#[test]
fn icon_candidates() {
    assert!(is_icon_candidate(true, &Some("PNG".to_string())));
    assert!(is_icon_candidate(true, &Some("jpeg".to_string())));
    assert!(!is_icon_candidate(false, &Some("png".to_string())));
    assert!(!is_icon_candidate(true, &Some("txt".to_string())));
    assert!(!is_icon_candidate(true, &None));
}

#[test]
fn icon_file_pixels_go_by_extension() {
    let (rgba, w, h) = icon_file_pixels(&png_bytes(), "PNG").unwrap();
    assert_eq!((rgba.len(), w, h), (8, 2, 1));
    assert!(icon_file_pixels(&png_bytes(), "jpg").is_none());
    assert!(icon_file_pixels(&png_bytes(), "txt").is_none());
    assert!(icon_file_pixels(b"garbage", "png").is_none());
}

#[test]
fn icons_from_folder_entries() {
    let png = png_bytes();
    let entries = vec![
        entry("panda", true, Some("png"), Some(png.clone())),
        entry("drag", true, Some("png"), Some(png.clone())),
        entry("Aniripsa", true, Some("PNG"), Some(png.clone())),
        entry("wrongformat", true, Some("jpg"), Some(png.clone())),
        entry("broken", true, Some("png"), Some(b"xx".to_vec())),
        entry("unread", true, Some("png"), None),
        entry("notes", true, Some("txt"), Some(png.clone())),
        entry("sub", false, Some("png"), Some(png.clone())),
        entry("default", true, Some("png"), Some(png.clone())),
    ];
    let mut app = DofusApp::default();
    app.set_icon_names(&vec!["stale".to_string()]);
    let icons = app.load_icons(&entries);
    let got: Vec<(&str, IconRole, u32, u32, usize)> =
        icons.iter().map(|i| (i.stem.as_str(), i.role, i.width, i.height, i.rgba.len())).collect();
    assert_eq!(
        got,
        vec![
            ("panda", IconRole::Character, 2, 1, 8),
            ("drag", IconRole::Drag, 2, 1, 8),
            ("Aniripsa", IconRole::Character, 2, 1, 8),
            ("default", IconRole::Character, 2, 1, 8),
        ]
    );
    assert_eq!(app.available_icon_names, vec!["Aniripsa", "default", "panda"]);
    app.load_icons(&entries);
    assert_eq!(app.available_icon_names, vec!["Aniripsa", "default", "panda"]);
}

#[test]
fn mini_mode_buttons() {
    let mut app = DofusApp::default();
    app.enter_mini_mode();
    assert!(app.mini_mode);
    assert!(app.vertical_mini);
    app.rotate_mini();
    assert!(!app.vertical_mini);
    app.rotate_mini();
    assert!(app.vertical_mini);
    app.leave_mini_mode();
    assert!(!app.mini_mode);
    assert_eq!(app.status_msg, "Listo.");
}

#[test]
fn next_presses_visit_every_window_once() {
    let ws: Vec<DofusWindow> = [10isize, 20, 30, 40]
        .iter()
        .map(|&h| DofusWindow {
            hwnd: h,
            original_title: String::new(),
            name: String::new(),
            class: String::new(),
            icon: "default".to_string(),
        })
        .collect();
    let mut fg = 30;
    let mut seen = Vec::new();
    for _ in 0..ws.len() {
        fg = execute(GameAction::NextWindow, &ws, fg).unwrap();
        seen.push(fg);
    }
    assert_eq!(seen, vec![40, 10, 20, 30]);
}
