use dx_cli::iterator::{format_size_text, pad_end, pad_start, path_display, PathDisplay, SizeText};
use dx_cli::text::{decode_utf16_be, i64_to_text, parse_i64, replace_char_str, replace_str};

#[test]
fn pad_end_fills_to_the_target() {
    assert_eq!(pad_end("ab", 5, '.'), "ab...");
    assert_eq!(pad_end("abcdef", 3, '.'), "abcdef");
    assert_eq!(pad_end("abc", 3, '.'), "abc");
    assert_eq!(pad_end("", 2, 'x'), "xx");
}

#[test]
fn pad_start_fills_to_the_target() {
    assert_eq!(pad_start("12K", 5, ' '), "  12K");
    assert_eq!(pad_start("123456", 5, ' '), "123456");
    assert_eq!(pad_start("", 0, ' '), "");
}

#[test]
fn padding_counts_bytes_not_characters() {
    // "é" is two bytes long: one pad character reaches three bytes
    assert_eq!(pad_start("é", 3, ' '), " é");
    assert_eq!(pad_end("é", 2, ' '), "é");
}

#[test]
fn decimal_text_of_integers() {
    assert_eq!(i64_to_text(0), "0");
    assert_eq!(i64_to_text(42), "42");
    assert_eq!(i64_to_text(-7), "-7");
    assert_eq!(i64_to_text(i64::MAX), i64::MAX.to_string());
    assert_eq!(i64_to_text(i64::MIN), i64::MIN.to_string());
}

#[test]
fn parsing_decimal_integers() {
    assert_eq!(parse_i64("123"), Some(123));
    assert_eq!(parse_i64("+5"), Some(5));
    assert_eq!(parse_i64("-5"), Some(-5));
    assert_eq!(parse_i64("9223372036854775807"), Some(i64::MAX));
    assert_eq!(parse_i64("-9223372036854775808"), Some(i64::MIN));
    assert_eq!(parse_i64("9223372036854775808"), None);
    assert_eq!(parse_i64(""), None);
    assert_eq!(parse_i64("-"), None);
    assert_eq!(parse_i64("12a"), None);
    assert_eq!(parse_i64(" 12"), None);
    assert_eq!(parse_i64("00012"), Some(12));
}

#[test]
fn parsing_agrees_with_std() {
    for s in ["0", "-0", "+0", "17", "-17", "1e3", "٣", "99999999999999999999", "-1-"] {
        assert_eq!(parse_i64(s), s.parse::<i64>().ok(), "{}", s);
    }
}

#[test]
fn replacing_a_character() {
    assert_eq!(replace_char_str("1.5 KB", 'B', ""), "1.5 K");
    assert_eq!(replace_char_str("/a/b%c", '%', "/x y"), "/a/b/x yc");
    assert_eq!(replace_char_str("aaa", 'a', "bb"), "bbbbbb");
    assert_eq!(replace_char_str("", 'a', "b"), "");
}

#[test]
fn utf16_decoding() {
    assert_eq!(decode_utf16_be(&[0, 0x41, 0, 0x42]), Some("AB".to_string()));
    assert_eq!(decode_utf16_be(&[0xd8, 0x3d, 0xde, 0x00]), Some("😀".to_string()));
    assert_eq!(decode_utf16_be(&[0xd8, 0x3d]), None);
    assert_eq!(decode_utf16_be(&[0xde, 0x00, 0, 0x41]), None);
    assert_eq!(decode_utf16_be(&[]), Some(String::new()));
}

#[test]
fn raw_sizes_are_decimal_numbers() {
    assert_eq!(format_size_text(1536, true), SizeText::Exact("1536".to_string()));
    assert_eq!(format_size_text(-5, true), SizeText::Exact("-5".to_string()));
}

#[test]
fn negative_sizes_are_ko() {
    assert_eq!(format_size_text(-1, false), SizeText::Exact("KO".to_string()));
}

#[test]
fn small_sizes_are_bare_numbers() {
    assert_eq!(format_size_text(512, false), SizeText::Compact("512".to_string()));
    assert_eq!(format_size_text(0, false), SizeText::Compact("0".to_string()));
    assert_eq!(format_size_text(999, false), SizeText::Compact("999".to_string()));
}

#[test]
fn larger_sizes_are_compact() {
    assert_eq!(format_size_text(1536, false), SizeText::Compact("1.5K".to_string()));
    assert_eq!(format_size_text(12_345_678, false), SizeText::Compact("12M".to_string()));
    assert_eq!(format_size_text(123_456_789, false), SizeText::Compact("123M".to_string()));
}

#[test]
fn replacing_a_substring() {
    assert_eq!(replace_str("/Users/me/Music", "/Users/me", "~"), "~/Music");
    assert_eq!(replace_str("aaa", "aa", "b"), "ba");
    assert_eq!(replace_str("abc", "", "-"), "-a-b-c-");
    assert_eq!(replace_str("", "", "-"), "-");
    assert_eq!(replace_str("abc", "abcd", "x"), "abc");
    assert_eq!(replace_str("été été", "té", "T"), "éT éT");
}

#[test]
fn replacing_a_substring_agrees_with_std() {
    let cases = [("banana", "an", "AN"), ("xxxx", "xx", "y"), ("a.b.c", ".", ""), ("日本日本", "本", "x"), ("ab", "", "")];
    for (t, f, r) in cases {
        assert_eq!(replace_str(t, f, r), t.replace(f, r), "{} {} {}", t, f, r);
    }
}

#[test]
fn decimal_text_reads_back() {
    for n in [0i64, 1, -1, 9, 10, -10, 123456789, i64::MAX, i64::MIN] {
        assert_eq!(parse_i64(&i64_to_text(n)), Some(n));
    }
}

#[test]
fn how_paths_are_shown() {
    assert_eq!(path_display(true, true, true), PathDisplay::FirstArgJoined);
    assert_eq!(path_display(true, false, false), PathDisplay::FirstArgJoined);
    assert_eq!(path_display(false, true, true), PathDisplay::ArgAsGiven);
    assert_eq!(path_display(false, true, false), PathDisplay::ArgJoined);
    assert_eq!(path_display(false, false, true), PathDisplay::Absolute);
}
