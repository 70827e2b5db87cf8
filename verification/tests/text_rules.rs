use dofus_switcher::text::{chars_of, contains_text, less_text, path_file_name, push_decimal, sort_texts, split_title};
use dofus_switcher::win_api::{detect_keypress, get_key_name, is_dofus_executable, scanned_window};

fn utf16(s: &str) -> Vec<u16> {
    s.encode_utf16().collect()
}

#[test]
fn split_title_cases() {
    assert_eq!(split_title("Exil - Ocra - Dofus 3.0"), ("Exil".to_string(), "Ocra".to_string()));
    assert_eq!(split_title("Exil - Ocra"), ("Exil".to_string(), "Ocra".to_string()));
    assert_eq!(split_title("Dofus"), ("Dofus".to_string(), "Dofus".to_string()));
    assert_eq!(split_title(""), ("".to_string(), "Dofus".to_string()));
    assert_eq!(split_title("Né - Éni"), ("Né".to_string(), "Éni".to_string()));
}

#[test]
fn path_file_name_cases() {
    assert_eq!(path_file_name("C:\\Games\\Dofus\\Dofus.exe"), "Dofus.exe");
    assert_eq!(path_file_name("plain.exe"), "plain.exe");
    assert_eq!(path_file_name("C:\\dir\\"), "");
}

#[test]
fn dofus_executables() {
    assert!(is_dofus_executable("C:\\Games\\Dofus\\Dofus.exe"));
    assert!(is_dofus_executable("C:\\Ankama\\DOFUS Retro.exe"));
    assert!(!is_dofus_executable("C:\\Dofus\\launcher.exe"));
    assert!(!is_dofus_executable("C:\\Windows\\explorer.exe"));
}

#[test]
fn scanned_window_filter() {
    let path = Some(utf16("C:\\Games\\Dofus.exe"));
    let title = utf16("Exil - Ocra");
    let w = scanned_window(7, true, 100, 1, path.clone(), &title).unwrap();
    assert_eq!(w.hwnd, 7);
    assert_eq!(w.title, "Exil - Ocra");
    assert!(scanned_window(7, false, 100, 1, path.clone(), &title).is_none());
    assert!(scanned_window(7, true, 1, 1, path.clone(), &title).is_none());
    assert!(scanned_window(7, true, 100, 1, None, &title).is_none());
    assert!(scanned_window(7, true, 100, 1, Some(utf16("C:\\x\\notepad.exe")), &title).is_none());
    assert!(scanned_window(7, true, 100, 1, path, &Vec::new()).is_none());
}

#[test]
fn detect_keypress_cases() {
    let mut states = vec![0i16; 256];
    assert_eq!(detect_keypress(&states), None);
    states[1] = -32768;
    states[6] = -1;
    assert_eq!(detect_keypress(&states), None);
    states[255] = -32768;
    assert_eq!(detect_keypress(&states), None);
    states[0x71] = -32767;
    states[0x41] = 1;
    assert_eq!(detect_keypress(&states), Some(0x71));
    states[7] = -32768;
    assert_eq!(detect_keypress(&states), Some(7));
    assert_eq!(detect_keypress(&vec![-1i16; 3]), None);
}

#[test]
fn key_names() {
    assert_eq!(get_key_name(113, &utf16("F2")), "F2");
    assert_eq!(get_key_name(113, &Vec::new()), "VK_113");
    assert_eq!(get_key_name(0, &Vec::new()), "VK_0");
    assert_eq!(get_key_name(u32::MAX, &Vec::new()), "VK_4294967295");
}

#[test]
fn decimal_writing() {
    let mut s = "n=".to_string();
    push_decimal(&mut s, 1050);
    assert_eq!(s, "n=1050");
}

#[test]
fn text_order_and_sort() {
    assert!(less_text("Aniripsa", "ocra"));
    assert!(less_text("ab", "abc"));
    assert!(!less_text("abc", "ab"));
    assert!(!less_text("same", "same"));
    let names = vec!["ocra".to_string(), "Aniripsa".to_string(), "panda".to_string(), "default".to_string(), "ocra".to_string()];
    let sorted = sort_texts(&names);
    let mut expected = names.clone();
    expected.sort();
    assert_eq!(sorted, expected);
    assert_eq!(sorted, vec!["Aniripsa", "default", "ocra", "ocra", "panda"]);
}

#[test]
fn substring_search() {
    let hay = chars_of("my dofus.exe");
    assert!(contains_text(&hay, &chars_of("dofus")));
    assert!(contains_text(&hay, &chars_of("")));
    assert!(!contains_text(&hay, &chars_of("dofux")));
    assert!(!contains_text(&chars_of("dof"), &chars_of("dofus")));
}
