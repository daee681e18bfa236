use std::cmp::Ordering;

use nomino::order::{
    azerbaijani_natural_sort, compare_chars, get_azerbaijani_char_order, natural_sort_compare,
    windows_natural_sort, alphabet_rank,
};
use nomino::sort::sort_names;
use nomino::tokens::split_alphanumeric;
use nomino::digits::extract_number_from_chars;

#[test]
fn test_azerbaijani_sorting() {
    let mut test_files = vec![
        "Əli",
        "Alma",
        "Ağa",
        "Baba",
        "Çay",
        "Dəftər",
        "İman",
        "Işıq",
        "Ölkə",
        "Ümid",
        "Şəkil1",
        "Şəkil10",
        "Şəkil2",
    ];

    test_files.sort_by(|a, b| azerbaijani_natural_sort(a, b));

    let expected = vec![
        "Ağa",
        "Alma",
        "Baba",
        "Çay",
        "Dəftər",
        "Əli",
        "İman",
        "Işıq",
        "Ölkə",
        "Şəkil1",
        "Şəkil2",
        "Şəkil10",
        "Ümid",
    ];

    println!("Sorted result: {:?}", test_files);
    println!("Expected:      {:?}", expected);

    assert!(test_files.contains(&"Əli"));
    assert!(test_files.contains(&"Çay"));
    assert!(test_files.contains(&"Şəkil1"));
}

#[test]
fn alphabet_order_of_the_sample_names() {
    let mut names: Vec<String> = [
        "Əli", "Alma", "Ağa", "Baba", "Çay", "Dəftər", "İman", "Işıq", "Ölkə", "Ümid", "Şəkil1",
        "Şəkil10", "Şəkil2",
    ]
    .iter()
    .map(|s| s.to_string())
    .collect();
    sort_names(&mut names);
    // 'I' and 'İ' share a rank, so the code point of the capital decides.
    let expected = vec![
        "Ağa", "Alma", "Baba", "Çay", "Dəftər", "Əli", "Işıq", "İman", "Ölkə", "Şəkil1", "Şəkil2",
        "Şəkil10", "Ümid",
    ];
    assert_eq!(names, expected);
}

#[test]
fn numeric_runs_compare_by_value() {
    assert_eq!(natural_sort_compare("file2", "file10"), Ordering::Less);
    assert_eq!(natural_sort_compare("file10", "file2"), Ordering::Greater);
    assert_eq!(natural_sort_compare("file2a", "file10a"), Ordering::Less);
}

#[test]
fn digit_run_before_letters() {
    assert_eq!(natural_sort_compare("1abc", "a1bc"), Ordering::Less);
    assert_eq!(natural_sort_compare("a1bc", "1abc"), Ordering::Greater);
    assert_eq!(natural_sort_compare("a1", "ab"), Ordering::Less);
}

#[test]
fn case_breaks_only_rank_ties() {
    // 'a' and 'A' share a rank; the code point of 'A' is lower.
    assert_eq!(natural_sort_compare("abc", "ABC"), Ordering::Greater);
    assert_eq!(natural_sort_compare("ABC", "abc"), Ordering::Less);
    // a later rank difference outweighs an earlier case difference
    assert_eq!(natural_sort_compare("abd", "ABC"), Ordering::Greater);
    assert_eq!(natural_sort_compare("Abc", "abd"), Ordering::Less);
    assert_eq!(natural_sort_compare("File", "file"), Ordering::Less);
}

#[test]
fn unlisted_characters_follow_the_alphabet() {
    assert_eq!(natural_sort_compare("中", "z"), Ordering::Greater);
    assert_eq!(natural_sort_compare("😀", "ş"), Ordering::Greater);
    assert_eq!(natural_sort_compare("-", "Z"), Ordering::Greater);
    assert_eq!(natural_sort_compare("Ə", "中"), Ordering::Less);
    assert_eq!(compare_chars('中', 'w'), Ordering::Greater);
}

#[test]
fn empty_name_comes_first() {
    assert_eq!(natural_sort_compare("", ""), Ordering::Equal);
    assert_eq!(natural_sort_compare("", "a"), Ordering::Less);
    assert_eq!(natural_sort_compare("", "0"), Ordering::Less);
    assert_eq!(natural_sort_compare("x", ""), Ordering::Greater);
}

#[test]
fn leading_zeros_put_the_longer_run_last() {
    assert_eq!(natural_sort_compare("7", "007"), Ordering::Less);
    assert_eq!(natural_sort_compare("file007", "file7"), Ordering::Greater);
    assert_eq!(natural_sort_compare("a07b", "a7c"), Ordering::Greater);
    assert_eq!(natural_sort_compare("a7", "a7"), Ordering::Equal);
}

#[test]
fn oversized_numbers_saturate() {
    assert_eq!(
        natural_sort_compare("99999999999999999999", "99999999999999999998"),
        Ordering::Equal
    );
    assert_eq!(
        natural_sort_compare("18446744073709551615", "18446744073709551616"),
        Ordering::Equal
    );
    assert_eq!(
        natural_sort_compare("18446744073709551614", "18446744073709551616"),
        Ordering::Less
    );
}

#[test]
fn fewer_runs_first() {
    assert_eq!(natural_sort_compare("a1", "a1b"), Ordering::Less);
    assert_eq!(natural_sort_compare("ab", "abc"), Ordering::Less);
}

#[test]
fn the_three_entry_points_agree() {
    let pairs = [("x10", "x9"), ("Ağa", "Alma"), ("", "q"), ("b", "B"), ("007", "7")];
    for (a, b) in pairs.iter() {
        let r = natural_sort_compare(a, b);
        assert_eq!(azerbaijani_natural_sort(a, b), r);
        assert_eq!(windows_natural_sort(a, b), r);
    }
}

#[test]
fn total_order_on_samples() {
    let names = ["", "a", "A", "a1", "a01", "a2", "a10", "ab", "Ağ", "1", "01", "中", "z9z", "Z9Z"];
    for x in names.iter() {
        assert_eq!(natural_sort_compare(x, x), Ordering::Equal);
        for y in names.iter() {
            assert_eq!(natural_sort_compare(y, x), natural_sort_compare(x, y).reverse());
            for z in names.iter() {
                if natural_sort_compare(x, y) == Ordering::Less
                    && natural_sort_compare(y, z) == Ordering::Less
                {
                    assert_eq!(natural_sort_compare(x, z), Ordering::Less);
                }
            }
        }
    }
}

#[test]
fn sorting_twice_changes_nothing() {
    let mut names: Vec<String> = ["b10", "B2", "a", "", "b2", "Şəkil10", "Şəkil2", "A", "10", "9"]
        .iter()
        .map(|s| s.to_string())
        .collect();
    sort_names(&mut names);
    let once = names.clone();
    sort_names(&mut names);
    assert_eq!(names, once);
    assert_eq!(
        once,
        vec!["", "9", "10", "A", "a", "B2", "b2", "b10", "Şəkil2", "Şəkil10"]
    );
}

#[test]
fn sort_keeps_equal_names_in_place() {
    let mut names: Vec<String> =
        ["x18446744073709551616", "x99999999999999999999", "x18446744073709551617"]
            .iter()
            .map(|s| s.to_string())
            .collect();
    let before = names.clone();
    sort_names(&mut names);
    assert_eq!(names, before);
}

#[test]
fn scenario_list() {
    let mut names: Vec<String> = ["Şəkil1", "Şəkil10", "Şəkil2", "Alma", "Ağa"]
        .iter()
        .map(|s| s.to_string())
        .collect();
    sort_names(&mut names);
    assert_eq!(names, vec!["Ağa", "Alma", "Şəkil1", "Şəkil2", "Şəkil10"]);
}

#[test]
fn ranks_of_letters() {
    assert_eq!(get_azerbaijani_char_order('a'), 1);
    assert_eq!(get_azerbaijani_char_order('A'), 1);
    assert_eq!(get_azerbaijani_char_order('Ç'), 4);
    assert_eq!(get_azerbaijani_char_order('Ə'), 7);
    assert_eq!(get_azerbaijani_char_order('ı'), 13);
    assert_eq!(get_azerbaijani_char_order('I'), 14);
    assert_eq!(get_azerbaijani_char_order('İ'), 14);
    assert_eq!(get_azerbaijani_char_order('Ş'), 26);
    assert_eq!(get_azerbaijani_char_order('z'), 33);
    assert_eq!(get_azerbaijani_char_order('中'), 0x4E2D + 1000);
    assert_eq!(get_azerbaijani_char_order('5'), '5' as u32 + 1000);
    assert_eq!(alphabet_rank('ş', 'Ş'), 26);
    assert_eq!(alphabet_rank('%', '%'), '%' as u32 + 1000);
}

#[test]
fn split_into_runs() {
    assert_eq!(split_alphanumeric("file10a"), vec!["file", "10", "a"]);
    assert_eq!(split_alphanumeric("007x"), vec!["007", "x"]);
    assert_eq!(split_alphanumeric(""), Vec::<String>::new());
    assert_eq!(split_alphanumeric("Şəkil"), vec!["Şəkil"]);
}

#[test]
fn number_extraction() {
    let cs: Vec<char> = "ab123cd".chars().collect();
    assert_eq!(extract_number_from_chars(&cs, 2), (123, 5));
    assert_eq!(extract_number_from_chars(&cs, 0), (0, 0));
    assert_eq!(extract_number_from_chars(&cs, 9), (0, 9));
    let big: Vec<char> = "123456789012345678901234".chars().collect();
    assert_eq!(extract_number_from_chars(&big, 0), (u64::MAX, 24));
}
