use gitlawb_node::bytes::{copy_bytes, insert_sorted, is_before, same_bytes};
use gitlawb_node::text::{
    chars_of, concat2, concat3, decimal_string, hex8_string, parse_limit_text, starts_with,
    string_of, text_after_last, trim_end_of,
};

#[test]
fn numbers_are_written() {
    assert_eq!(decimal_string(0), "0");
    assert_eq!(decimal_string(10), "10");
    assert_eq!(decimal_string(u64::MAX), "18446744073709551615");
    assert_eq!(hex8_string(0xab), "000000ab");
    assert_eq!(hex8_string(u32::MAX), "ffffffff");
}

#[test]
fn written_numbers_read_back() {
    for n in [0usize, 1, 9, 10, 12345, usize::MAX] {
        assert_eq!(parse_limit_text(&decimal_string(n as u64)), Some(n));
    }
    assert_eq!(parse_limit_text("x"), None);
}

#[test]
fn texts_are_joined_and_cut() {
    assert_eq!(concat2("a", "b"), "ab");
    assert_eq!(concat3("a", "", "c"), "ac");
    assert_eq!(trim_end_of("a//", '/'), "a");
    assert_eq!(trim_end_of("//", '/'), "");
    assert_eq!(text_after_last("a@b@c", '@'), "c");
    assert_eq!(text_after_last("abc", '@'), "abc");
    assert!(starts_with("28P01", "28"));
    assert!(!starts_with("2", "28"));
    assert!(starts_with("", ""));
    assert_eq!(string_of(&chars_of("h\u{e9}\u{1f600}")), "h\u{e9}\u{1f600}");
}

#[test]
fn byte_strings_are_kept_sorted_once() {
    let mut list = Vec::new();
    for item in [vec![2u8], vec![1, 5], vec![2], vec![1], vec![]] {
        insert_sorted(&mut list, item);
    }
    assert_eq!(list, vec![vec![], vec![1u8], vec![1, 5], vec![2]]);
    assert!(is_before(&vec![1], &vec![1, 0]));
    assert!(!is_before(&vec![1], &vec![1]));
    assert!(same_bytes(&vec![1, 2], &vec![1, 2]));
    assert!(!same_bytes(&vec![1, 2], &vec![1]));
    assert_eq!(copy_bytes(&vec![3, 4]), vec![3, 4]);
}
