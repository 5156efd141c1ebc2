use backend::collection_commons::{
    convert_string_to_u64, get_playlist_id_from_url, get_track_id_from_url,
};
use backend::controllers::{check_id_valid, check_init_collections, starts_with};
use backend::domain_models::InitCollection;
use backend::text::{contains_text, read_last_segment, read_u64, write_u64};

#[test]
fn plain_digits_are_read() {
    assert_eq!(read_u64("0"), Some(0));
    assert_eq!(read_u64("123"), Some(123));
    assert_eq!(read_u64("908622995"), Some(908622995));
}

#[test]
fn leading_zeros_and_one_plus_sign_are_read() {
    assert_eq!(read_u64("007"), Some(7));
    assert_eq!(read_u64("+5"), Some(5));
    assert_eq!(read_u64("+0"), Some(0));
}

#[test]
fn what_is_no_number_is_refused() {
    assert_eq!(read_u64(""), None);
    assert_eq!(read_u64("+"), None);
    assert_eq!(read_u64("-"), None);
    assert_eq!(read_u64("-5"), None);
    assert_eq!(read_u64("++5"), None);
    assert_eq!(read_u64("5+"), None);
    assert_eq!(read_u64("12a"), None);
    assert_eq!(read_u64(" 1"), None);
    assert_eq!(read_u64("1 "), None);
    assert_eq!(read_u64("1_000"), None);
    assert_eq!(read_u64("١٢"), None);
}

#[test]
fn the_largest_number_is_read_and_the_next_refused() {
    assert_eq!(read_u64("18446744073709551615"), Some(u64::MAX));
    assert_eq!(read_u64("18446744073709551616"), None);
    assert_eq!(read_u64("99999999999999999999"), None);
    assert_eq!(read_u64("000018446744073709551615"), Some(u64::MAX));
    assert_eq!(read_u64("184467440737095516150"), None);
}

#[test]
fn reading_agrees_with_the_standard_parser() {
    let samples = [
        "", "0", "1", "42", "+42", "-42", "+", "-", "+-1", "4 2", "42\n", "0x10", "1e3",
        "18446744073709551615", "18446744073709551616", "18446744073709551625",
        "28446744073709551615", "00000000000000000000001", "+00", "٣", "12/34", "/", "9",
    ];
    for sample in samples {
        assert_eq!(read_u64(sample), sample.parse::<u64>().ok(), "for {:?}", sample);
    }
}

#[test]
fn writing_agrees_with_the_standard_formatter() {
    let samples = [0u64, 1, 9, 10, 11, 99, 100, 101, 908622995, u64::MAX - 1, u64::MAX];
    for sample in samples {
        assert_eq!(write_u64(sample), sample.to_string());
    }
}

#[test]
fn writing_then_reading_gives_the_number_back() {
    for sample in [0u64, 5, 10, 12345678901234567890, u64::MAX] {
        assert_eq!(read_u64(&write_u64(sample)), Some(sample));
    }
}

#[test]
fn the_last_segment_of_an_address_is_read() {
    assert_eq!(read_last_segment("https://www.deezer.com/fr/playlist/908622995"), Some(908622995));
    assert_eq!(read_last_segment("https://www.deezer.com/track/3135556"), Some(3135556));
    assert_eq!(read_last_segment("42"), Some(42));
    assert_eq!(read_last_segment("a/b/7"), Some(7));
    assert_eq!(read_last_segment("1/2/+3"), Some(3));
}

#[test]
fn an_address_without_a_number_at_its_end_gives_nothing() {
    assert_eq!(read_last_segment(""), None);
    assert_eq!(read_last_segment("https://www.deezer.com/fr/playlist/"), None);
    assert_eq!(read_last_segment("12/"), None);
    assert_eq!(read_last_segment("12/ab"), None);
    assert_eq!(read_last_segment("12/3?x=1"), None);
    assert_eq!(read_last_segment("1/18446744073709551616"), None);
}

#[test]
fn ids_in_addresses_default_to_zero() {
    assert_eq!(
        get_playlist_id_from_url("https://www.deezer.com/fr/playlist/908622995".to_string()),
        908622995
    );
    assert_eq!(get_playlist_id_from_url("https://www.deezer.com/fr/playlist/".to_string()), 0);
    assert_eq!(get_playlist_id_from_url("nonsense".to_string()), 0);
    assert_eq!(get_track_id_from_url("https://www.deezer.com/track/3135556".to_string()), 3135556);
    assert_eq!(get_track_id_from_url("https://www.deezer.com/track/abc".to_string()), 0);
    assert_eq!(get_track_id_from_url("77".to_string()), 77);
}

#[test]
fn strings_that_write_no_number_convert_to_zero() {
    assert_eq!(convert_string_to_u64("15"), 15);
    assert_eq!(convert_string_to_u64("+15"), 15);
    assert_eq!(convert_string_to_u64("fifteen"), 0);
    assert_eq!(convert_string_to_u64(""), 0);
    assert_eq!(convert_string_to_u64("18446744073709551616"), 0);
}

#[test]
fn a_valid_id_leaves_nothing_to_report() {
    assert_eq!(check_id_valid("123".to_string()), "");
    assert_eq!(check_id_valid("0".to_string()), "");
    assert_eq!(check_id_valid("+9".to_string()), "");
}

#[test]
fn an_invalid_id_is_reported() {
    let message = "- id not valid (should be a 64 bits unsigned integer)";
    assert_eq!(check_id_valid("".to_string()), message);
    assert_eq!(check_id_valid("abc".to_string()), message);
    assert_eq!(check_id_valid("-1".to_string()), message);
    assert_eq!(check_id_valid("1.5".to_string()), message);
    assert_eq!(check_id_valid("18446744073709551616".to_string()), message);
}

#[test]
fn a_prefix_is_recognised() {
    assert!(starts_with("https://www.deezer.com/fr/playlist/12", "https://www.deezer.com/fr/playlist/"));
    assert!(starts_with("abc", ""));
    assert!(starts_with("abc", "abc"));
    assert!(starts_with("", ""));
    assert!(starts_with("étude", "é"));
    assert!(!starts_with("abc", "abcd"));
    assert!(!starts_with("abc", "b"));
    assert!(!starts_with("", "a"));
    assert!(!starts_with("http://www.deezer.com/fr/playlist/12", "https://www.deezer.com/fr/playlist/"));
}

#[test]
fn the_playlist_address_of_a_new_collection_is_checked() {
    let good = InitCollection {
        name: "mix".to_string(),
        from_playlist: Some("https://www.deezer.com/fr/playlist/908622995".to_string()),
    };
    assert_eq!(check_init_collections(&good), "");
    let none = InitCollection { name: "mix".to_string(), from_playlist: None };
    assert_eq!(check_init_collections(&none), "");
    let bad = InitCollection {
        name: "mix".to_string(),
        from_playlist: Some("https://www.deezer.com/en/playlist/908622995".to_string()),
    };
    assert_eq!(
        check_init_collections(&bad),
        "- from_playlist does not start with https://www.deezer.com/fr/playlist/\n"
    );
    let bare = InitCollection {
        name: "mix".to_string(),
        from_playlist: Some("https://www.deezer.com/fr/playlist/".to_string()),
    };
    assert_eq!(check_init_collections(&bare), "");
}

#[test]
fn a_string_is_found_among_strings() {
    let list = vec!["a".to_string(), "b".to_string()];
    assert!(contains_text(&list, &"a".to_string()));
    assert!(contains_text(&list, &"b".to_string()));
    assert!(!contains_text(&list, &"c".to_string()));
    assert!(!contains_text(&Vec::new(), &"a".to_string()));
}
