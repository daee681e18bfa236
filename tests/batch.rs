use std::cmp::Ordering;

use nomino::batch::{
    check_char_count, compare_digit_stems, digit_mode_keeps, find_folder_by_prefix, parse_u32,
    renamed_stem, start_index, ExcelRenameConfig,
};

fn config() -> ExcelRenameConfig {
    ExcelRenameConfig {
        folder_path: String::new(),
        excel_path: String::new(),
        mode: "digits".to_string(),
        start_row: 1,
        column: "A".to_string(),
        start_file_name: None,
        digit_count: None,
        digit_from_end: false,
        limit_files: false,
        limit_count: None,
        limit_chars: false,
        char_count: None,
        char_from_end: false,
    }
}

fn strings(v: &[&str]) -> Vec<String> {
    v.iter().map(|s| s.to_string()).collect()
}

#[test]
fn digit_mode_without_count_needs_all_digits() {
    let c = config();
    assert!(digit_mode_keeps("0123", &c));
    assert!(digit_mode_keeps("", &c));
    assert!(!digit_mode_keeps("12a", &c));
}

#[test]
fn digit_mode_with_count() {
    let mut c = config();
    c.digit_count = Some(3);
    assert!(digit_mode_keeps("123abc", &c));
    assert!(!digit_mode_keeps("12abc", &c));
    assert!(digit_mode_keeps("12", &c));
    c.digit_from_end = true;
    assert!(digit_mode_keeps("abc123", &c));
    assert!(!digit_mode_keeps("123abc", &c));
    assert!(digit_mode_keeps("Şəkil007", &c));
}

#[test]
fn u32_parsing() {
    assert_eq!(parse_u32("42"), Some(42));
    assert_eq!(parse_u32("+7"), Some(7));
    assert_eq!(parse_u32("007"), Some(7));
    assert_eq!(parse_u32("4294967295"), Some(u32::MAX));
    assert_eq!(parse_u32("4294967296"), None);
    assert_eq!(parse_u32("99999999999"), None);
    assert_eq!(parse_u32(""), None);
    assert_eq!(parse_u32("+"), None);
    assert_eq!(parse_u32("-1"), None);
    assert_eq!(parse_u32("1a"), None);
    for s in ["0", "12", "+3", "4294967295", "4294967296", "x", "", "1 "].iter() {
        assert_eq!(parse_u32(s), s.parse::<u32>().ok());
    }
}

#[test]
fn digit_mode_order() {
    assert_eq!(compare_digit_stems("9", "10"), Ordering::Less);
    assert_eq!(compare_digit_stems("007", "7"), Ordering::Equal);
    assert_eq!(compare_digit_stems("12a", "9"), Ordering::Greater);
    assert_eq!(compare_digit_stems("4294967296", "4294967295"), Ordering::Greater);
}

#[test]
fn new_stems() {
    let mut c = config();
    assert_eq!(renamed_stem("IMG_001", "Əli Məmmədov", &c), "Əli_Məmmədov");
    c.limit_chars = true;
    c.char_count = Some(3);
    assert_eq!(renamed_stem("IMG_001", "x y", &c), "x_y_001");
    c.char_from_end = true;
    assert_eq!(renamed_stem("IMG_001", "x y", &c), "IMG_x_y");
    assert_eq!(renamed_stem("ab", "x y", &c), "x_y");
    assert_eq!(renamed_stem("Şəkil", "A", &c), "ŞəA");
    c.char_count = None;
    assert_eq!(renamed_stem("IMG_001", "new", &c), "new");
}

#[test]
fn where_a_run_starts() {
    let stems = strings(&["a", "b", "c", "b"]);
    assert_eq!(start_index(&stems, &Some("b".to_string())), 1);
    assert_eq!(start_index(&stems, &Some("z".to_string())), 0);
    assert_eq!(start_index(&stems, &Some(String::new())), 0);
    assert_eq!(start_index(&stems, &None), 0);
}

#[test]
fn folder_matching_by_prefix() {
    let folders = strings(&["Alma", "ŞƏKİL", "Baba"]);
    assert_eq!(find_folder_by_prefix("ALMAZ.txt", &folders, 4), Some(0));
    assert_eq!(find_folder_by_prefix("babak.pdf", &folders, 3), Some(2));
    assert_eq!(find_folder_by_prefix("şəkil1.jpg", &folders, 2), Some(1));
    assert_eq!(find_folder_by_prefix("Zeytun", &folders, 2), None);
    assert_eq!(find_folder_by_prefix("Al", &folders, 4), None);
}

#[test]
fn char_count_range() {
    assert!(check_char_count(1).is_ok());
    assert!(check_char_count(50).is_ok());
    assert_eq!(
        check_char_count(0),
        Err("Simvol sayı 1-50 arasında olmalıdır".to_string())
    );
    assert!(check_char_count(51).is_err());
}

#[test]
fn first_key_match() {
    let keys = strings(&["ab", "cd", "ab"]);
    assert_eq!(nomino::batch::first_matching_key("ab", &keys), Some(0));
    assert_eq!(nomino::batch::first_matching_key("cd", &keys), Some(1));
    assert_eq!(nomino::batch::first_matching_key("AB", &keys), None);
}
