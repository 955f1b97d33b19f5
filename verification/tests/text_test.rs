use mini_coreutils::text::byte_count;
use mini_coreutils::text::bytes_before;
use mini_coreutils::text::char_count;
use mini_coreutils::text::decimal_string;
use mini_coreutils::text::has_char;
use mini_coreutils::text::name_before;
use mini_coreutils::text::pad_end;
use mini_coreutils::text::pad_start;
use mini_coreutils::text::push_spaces;
use mini_coreutils::text::same_text;

#[test]
fn numbers_are_rendered_in_decimal() {
    assert_eq!(decimal_string(0), "0");
    assert_eq!(decimal_string(9), "9");
    assert_eq!(decimal_string(10), "10");
    assert_eq!(decimal_string(1_000_000), "1000000");
    assert_eq!(decimal_string(u64::MAX as u128), "18446744073709551615");
    assert_eq!(decimal_string(u128::MAX), u128::MAX.to_string());
}

#[test]
fn padding_counts_characters() {
    assert_eq!(pad_start("7", 3), "  7");
    assert_eq!(pad_end("7", 3), "7  ");
    assert_eq!(pad_start("abc", 3), "abc");
    assert_eq!(pad_end("abcd", 3), "abcd");
    assert_eq!(pad_start("", 0), "");
    assert_eq!(pad_end("", 2), "  ");
    assert_eq!(pad_start("é", 2), " é");
    assert_eq!(pad_end("漢字", 3), "漢字 ");
    assert_eq!(pad_start("7", 3), format!("{:>3}", "7"));
    assert_eq!(pad_end("é", 4), format!("{:<4}", "é"));
    let mut out = "x".to_string();
    push_spaces(&mut out, 2);
    assert_eq!(out, "x  ");
    push_spaces(&mut out, 0);
    assert_eq!(out, "x  ");
}

#[test]
fn widths_are_counted_in_bytes_and_in_characters() {
    assert_eq!((byte_count(""), char_count("")), (0, 0));
    assert_eq!((byte_count("abc"), char_count("abc")), (3, 3));
    assert_eq!((byte_count("é"), char_count("é")), (2, 1));
    assert_eq!((byte_count("漢字"), char_count("漢字")), (6, 2));
    assert_eq!((byte_count("🦀"), char_count("🦀")), (4, 1));
}

#[test]
fn names_are_ordered_by_their_bytes() {
    let names = ["", "a", "A", "ab", "b", "é", "e", "z", "~", "漢", "🦀", "a\u{0}", "10", "9"];
    for a in names {
        for b in names {
            assert_eq!(name_before(a, b), a < b, "{:?} before {:?}", a, b);
            assert_eq!(bytes_before(a.as_bytes(), b.as_bytes()), a.as_bytes() < b.as_bytes());
            assert_eq!(same_text(a, b), a == b);
        }
    }
    assert!(bytes_before(&[1, 2], &[1, 2, 0]));
    assert!(bytes_before(&[1, 255], &[2]));
    assert!(!bytes_before(&[200], &[100, 1]));
    assert!(!bytes_before(&[], &[]));
}

#[test]
fn a_character_is_found_where_it_occurs() {
    assert!(has_char("a.b", '.'));
    assert!(has_char(".", '.'));
    assert!(has_char("ab.", '.'));
    assert!(!has_char("", '.'));
    assert!(!has_char("abc", '.'));
    assert!(has_char("漢字", '字'));
}
