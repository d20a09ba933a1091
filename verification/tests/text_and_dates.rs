use inventario::dates::{date_or_today, format_ymd, format_ymdhms, now_ymdhms, today_ymd, ymd_shape};
use inventario::greet;
use inventario::text::{i64_text, is_blank, join_lines, like_contains, like_prefix, push_decimal, push_zero_padded, text_eq, trim};

#[test]
fn trim_removes_unicode_white_space_at_both_ends() {
    assert_eq!(trim("  hola mundo \t\n"), "hola mundo");
    assert_eq!(trim("\u{3000}\u{a0}café\u{2028}"), "café");
    assert_eq!(trim("sin espacios"), "sin espacios");
    assert_eq!(trim(""), "");
    assert_eq!(trim(" \t "), "");
    assert_eq!(trim("a b"), "a b");
}

#[test]
fn trim_agrees_with_std() {
    for s in ["  x  ", "\u{85}y\u{1680}", "\u{200b}z", " \u{2000}\u{200a}w\u{205f} ", "\r\n", "ñandú "] {
        assert_eq!(trim(s), s.trim());
    }
}

#[test]
fn trim_twice_is_trim_once() {
    for s in ["  x  y  ", "\t\tz", "", "   ", "a"] {
        let once = trim(s);
        assert_eq!(trim(&once), once);
    }
}

#[test]
fn blank_means_only_white_space() {
    assert!(is_blank(""));
    assert!(is_blank("   \t\n"));
    assert!(is_blank("\u{3000}"));
    assert!(!is_blank("  a "));
    // a zero-width space is not white space
    assert!(!is_blank("\u{200b}"));
}

#[test]
fn like_patterns() {
    assert_eq!(like_contains("coca"), "%coca%");
    assert_eq!(like_contains(""), "%%");
    assert_eq!(like_prefix("2024-05-01"), "2024-05-01%");
}

#[test]
fn decimal_text_of_integers() {
    assert_eq!(i64_text(0), "0");
    assert_eq!(i64_text(7), "7");
    assert_eq!(i64_text(-42), "-42");
    assert_eq!(i64_text(1234567890), "1234567890");
    assert_eq!(i64_text(i64::MIN), i64::MIN.to_string());
    assert_eq!(i64_text(i64::MAX), i64::MAX.to_string());
    let mut s = String::from("n=");
    push_decimal(&mut s, 305);
    assert_eq!(s, "n=305");
}

#[test]
fn zero_padding() {
    let mut s = String::new();
    push_zero_padded(&mut s, 7, 2);
    push_zero_padded(&mut s, 123, 2);
    push_zero_padded(&mut s, 5, 4);
    assert_eq!(s, "071230005");
}

#[test]
fn joining_lines() {
    assert_eq!(join_lines(&vec![]), "");
    assert_eq!(join_lines(&vec!["a".to_string()]), "a");
    assert_eq!(join_lines(&vec!["a".to_string(), "b".to_string(), "".to_string()]), "a\nb\n");
}

#[test]
fn text_equality() {
    assert!(text_eq("abc", "abc"));
    assert!(!text_eq("abc", "abd"));
    assert!(!text_eq("abc", "ab"));
}

#[test]
fn dates_are_written_like_chrono() {
    assert_eq!(format_ymd(2024, 3, 5), "2024-03-05");
    assert_eq!(format_ymd(987, 12, 31), "0987-12-31");
    assert_eq!(format_ymd(0, 1, 1), "0000-01-01");
    assert_eq!(format_ymd(-5, 1, 1), "-0005-01-01");
    assert_eq!(format_ymd(12345, 6, 7), "+12345-06-07");
    assert_eq!(format_ymdhms(2024, 11, 9, 8, 5, 0), "2024-11-09 08:05:00");
    let d = chrono::NaiveDate::from_ymd_opt(-5, 1, 1).unwrap();
    assert_eq!(d.format("%Y-%m-%d").to_string(), "-0005-01-01");
    let d = chrono::NaiveDate::from_ymd_opt(12345, 6, 7).unwrap();
    assert_eq!(d.format("%Y-%m-%d").to_string(), "+12345-06-07");
}

#[test]
fn today_and_now_have_the_shop_format() {
    let today = today_ymd();
    assert_eq!(today.len(), 10);
    assert!(chrono::NaiveDate::parse_from_str(&today, "%Y-%m-%d").is_ok());
    let expected = chrono::Local::now().format("%Y-%m-%d").to_string();
    let again = today_ymd();
    assert!(today == expected || again == expected);
    let now = now_ymdhms();
    assert_eq!(now.len(), 19);
    assert!(chrono::NaiveDateTime::parse_from_str(&now, "%Y-%m-%d %H:%M:%S").is_ok());
}

#[test]
fn a_given_date_is_kept() {
    assert_eq!(date_or_today(Some("2023-01-31".to_string())), "2023-01-31");
    assert_eq!(date_or_today(Some("cualquiera".to_string())), "cualquiera");
    assert_eq!(date_or_today(None).len(), 10);
}

#[test]
fn greeting() {
    assert_eq!(greet("Ana"), "Hello, Ana! You've been greeted from Rust!");
}

#[test]
fn shape_of_a_date() {
    assert!(ymd_shape("2024-02-30"));
    assert!(ymd_shape("0000-00-00"));
    assert!(!ymd_shape("2024-2-03"));
    assert!(!ymd_shape("2024-02-031"));
    assert!(!ymd_shape("2024_02_03"));
    assert!(!ymd_shape("２０２４-02-03"));
    assert!(!ymd_shape(""));
}
