use iconnect::decimal::{parse_usize, push_decimal, push_padded};
use iconnect::text::{
    check_text, is_ascii_alphanumeric, is_control_code, is_white_space, text_preview, trim,
};

fn every_char() -> impl Iterator<Item = char> {
    (0..=0x10ffffu32).filter_map(char::from_u32)
}

#[test]
fn classes_of_characters_agree_with_unicode() {
    for c in every_char() {
        assert_eq!(is_white_space(c), c.is_whitespace(), "{:x}", c as u32);
        assert_eq!(is_control_code(c), c.is_control(), "{:x}", c as u32);
        assert_eq!(is_ascii_alphanumeric(c), c.is_ascii_alphanumeric(), "{:x}", c as u32);
    }
}

#[test]
fn trimming_agrees_with_the_standard_library() {
    let samples = [
        "", " ", " \t\r\n", "a", " a", "a ", " a b ", "\u{3000}文\u{a0}", "\u{200b}x\u{200b}",
        "\u{2028}y\u{85}", "  两 端  ",
    ];
    for s in samples {
        assert_eq!(trim(s), s.trim());
        assert_eq!(trim(&trim(s)), s.trim());
    }
}

#[test]
fn previews_are_cut_by_characters() {
    assert_eq!(text_preview("", 0), "");
    assert_eq!(text_preview("a", 0), "…");
    assert_eq!(text_preview("一二三", 3), "一二三");
    assert_eq!(text_preview("一二三四", 3), "一二三…");
}

#[test]
fn texts_are_checked_after_trimming() {
    assert_eq!(check_text("  好 \n"), Ok("好".to_string()));
    assert_eq!(check_text(""), Err("文本不能为空".to_string()));
    assert_eq!(check_text(" \t\u{3000}"), Err("文本不能为空".to_string()));
    let longest = "字".repeat(10000);
    assert_eq!(check_text(&format!(" {longest} ")), Ok(longest.clone()));
    assert_eq!(check_text(&format!("{longest}x")), Err("文本过长".to_string()));
}

#[test]
fn numbers_are_written_as_by_format() {
    for n in [0u64, 1, 9, 10, 42, 99999999, 100000000, 123456789, u64::MAX] {
        let mut s = "x".to_string();
        push_decimal(&mut s, n);
        assert_eq!(s, format!("x{n}"));
        let mut p = "x".to_string();
        push_padded(&mut p, n, 8);
        assert_eq!(p, format!("x{n:08}"));
    }
}

#[test]
fn numbers_are_read_as_by_parse() {
    let samples = [
        "", "+", "-", "0", "-0", "+0", "++1", "007", "+12", "12 ", " 12", "1_0", "٣", "1a", "0x10",
        "18446744073709551615", "18446744073709551616", "0018446744073709551615",
        "99999999999999999999999",
    ];
    for s in samples {
        assert_eq!(parse_usize(s), s.parse::<usize>().ok(), "{s:?}");
    }
}
