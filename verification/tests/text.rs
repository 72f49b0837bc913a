use freemkv_tools::order::rank_texts;
use freemkv_tools::order::sort_positions;
use freemkv_tools::order::Rank;
use freemkv_tools::order::SortKey;
use freemkv_tools::text::contains_text;
use freemkv_tools::text::decimal_text;
use freemkv_tools::text::hex_byte_text;
use freemkv_tools::text::pad_left;
use freemkv_tools::text::pad_right;
use freemkv_tools::text::parse_unsigned;
use freemkv_tools::text::same_text;
use freemkv_tools::text::split_key_value;

#[test]
fn texts_are_compared_by_their_characters() {
    assert!(same_text("disc-07", "disc-07"));
    assert!(!same_text("disc-07", "disc-7"));
    assert!(same_text("", ""));
}

#[test]
fn a_text_contains_its_parts() {
    assert!(contains_text("disc-07.bin", "07"));
    assert!(contains_text("disc-07.bin", ""));
    assert!(contains_text("disc-07.bin", "disc-07.bin"));
    assert!(contains_text("aab", "ab"));
    assert!(!contains_text("disc-07.bin", "08"));
    assert!(!contains_text("a", "aa"));
    assert!(!contains_text("", "a"));
}

#[test]
fn a_setting_is_split_at_its_first_equals_sign() {
    assert_eq!(split_key_value("of=a=b"), Some(("of", "a=b")));
    assert_eq!(split_key_value("if="), Some(("if", "")));
    assert_eq!(split_key_value("=x"), Some(("", "x")));
    assert_eq!(split_key_value("é=ü"), Some(("é", "ü")));
    assert_eq!(split_key_value("verbose"), None);
}

#[test]
fn numbers_are_written_in_decimal() {
    assert_eq!(decimal_text(0), "0");
    assert_eq!(decimal_text(10), "10");
    assert_eq!(decimal_text(u64::MAX), "18446744073709551615");
}

#[test]
fn bytes_are_written_in_hexadecimal() {
    for n in [0u64, 9, 10, 15, 16, 0x28, 0xaf, 0xff, 0x100, u64::MAX] {
        assert_eq!(hex_byte_text(n), format!("{:02x}", n));
    }
}

#[test]
fn numbers_are_read_within_a_limit() {
    assert_eq!(parse_unsigned("0", 255), Some(0));
    assert_eq!(parse_unsigned("+5", 255), Some(5));
    assert_eq!(parse_unsigned("007", 255), Some(7));
    assert_eq!(parse_unsigned("255", 255), Some(255));
    assert_eq!(parse_unsigned("256", 255), None);
    assert_eq!(parse_unsigned("18446744073709551615", u64::MAX), Some(u64::MAX));
    assert_eq!(parse_unsigned("18446744073709551616", u64::MAX), None);
    assert_eq!(parse_unsigned("", 255), None);
    assert_eq!(parse_unsigned("+", 255), None);
    assert_eq!(parse_unsigned("-1", 255), None);
    assert_eq!(parse_unsigned("++1", 255), None);
    assert_eq!(parse_unsigned(" 1", 255), None);
    assert_eq!(parse_unsigned("0x10", 255), None);
}

#[test]
fn padding_counts_characters() {
    assert_eq!(pad_right("ab", 4), "ab  ");
    assert_eq!(pad_right("é", 3), "é  ");
    assert_eq!(pad_right("abcd", 4), "abcd");
    assert_eq!(pad_right("abcde", 4), "abcde");
    assert_eq!(pad_left("é", 3), "  é");
    assert_eq!(pad_left("abcd", 4), "abcd");
    assert_eq!(pad_left("abcde", 4), "abcde");
}

#[test]
fn texts_are_ordered_like_strings() {
    for a in ["", "a", "ab", "b", "é", "z", "\u{ffff}", "\u{10000}"] {
        for b in ["", "a", "ab", "b", "é", "z", "\u{ffff}", "\u{10000}"] {
            let expected = a.cmp(b);
            let rank = rank_texts(a, b);
            assert_eq!(rank == Rank::Less, expected.is_lt());
            assert_eq!(rank == Rank::Equal, expected.is_eq());
            assert_eq!(rank == Rank::Greater, expected.is_gt());
        }
    }
}

#[test]
fn positions_are_sorted_stably() {
    let keys: Vec<SortKey> = vec![
        SortKey { rows: vec![vec![2]] },
        SortKey { rows: vec![vec![1], vec![9]] },
        SortKey { rows: vec![vec![2]] },
        SortKey { rows: vec![vec![1]] },
        SortKey { rows: vec![] },
    ];
    assert_eq!(sort_positions(&keys), vec![4, 3, 1, 0, 2]);
}
