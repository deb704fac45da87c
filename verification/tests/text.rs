use simple_smtp::decimal::push_decimal;
use simple_smtp::decimal::push_padded;
use simple_smtp::decimal::push_signed_padded;
use simple_smtp::smtp::sasl::encoded_len_within;
use simple_smtp::smtp::stuffing::find_crlf_dot;
use simple_smtp::text::bytes_eq;
use simple_smtp::text::contains_crlf;
use simple_smtp::text::contains_word;
use simple_smtp::text::eq_ignore_ascii_case;
use simple_smtp::text::find_byte;
use simple_smtp::text::split_once;

#[test]
fn find_byte_finds_the_first() {
    assert_eq!(find_byte(b"a b c", b' '), 1);
    assert_eq!(find_byte(b" a", b' '), 0);
    assert_eq!(find_byte(b"abc", b' '), 3);
    assert_eq!(find_byte(b"", b' '), 0);
}

#[test]
fn split_once_cuts_at_the_first() {
    assert_eq!(split_once("a b c", b' '), Some(("a", "b c")));
    assert_eq!(split_once(" a", b' '), Some(("", "a")));
    assert_eq!(split_once("a ", b' '), Some(("a", "")));
    assert_eq!(split_once(" ", b' '), Some(("", "")));
    assert_eq!(split_once("abc", b' '), None);
    assert_eq!(split_once("", b' '), None);
    assert_eq!(split_once("gr\u{fc}n \u{e4}", b' '), Some(("gr\u{fc}n", "\u{e4}")));
    assert_eq!(split_once("\u{2003}x=y", b'='), Some(("\u{2003}x", "y")));
}

#[test]
fn eq_ignore_ascii_case_folds_ascii_letters_only() {
    assert!(eq_ignore_ascii_case(b"StartTls", b"STARTTLS"));
    assert!(eq_ignore_ascii_case(b"", b""));
    assert!(eq_ignore_ascii_case(b"az09", b"AZ09"));
    assert!(!eq_ignore_ascii_case(b"AUTH", b"AUT"));
    assert!(!eq_ignore_ascii_case(b"@", b"`"));
    assert!(!eq_ignore_ascii_case(b"[", b"{"));
    assert!(!eq_ignore_ascii_case("\u{e4}".as_bytes(), "\u{c4}".as_bytes()));
}

#[test]
fn bytes_eq_is_equality() {
    assert!(bytes_eq(b"abc", b"abc"));
    assert!(bytes_eq(b"", b""));
    assert!(!bytes_eq(b"abc", b"abd"));
    assert!(!bytes_eq(b"abc", b"ab"));
    assert!(!bytes_eq(b"abc", b"ABC"));
}

#[test]
fn contains_crlf_wants_both_in_order() {
    assert!(contains_crlf(b"a\r\nb"));
    assert!(contains_crlf(b"\r\n"));
    assert!(contains_crlf(b"ab\r\n"));
    assert!(contains_crlf(b"\r\r\n"));
    assert!(!contains_crlf(b"a\rb\nc"));
    assert!(!contains_crlf(b"\n\r"));
    assert!(!contains_crlf(b"\r"));
    assert!(!contains_crlf(b""));
}

#[test]
fn contains_word_parts_at_white_space() {
    assert!(contains_word(b"PLAIN LOGIN", b"login"));
    assert!(contains_word(b"  PLAIN\t\tLOGIN  ", b"PLAIN"));
    assert!(contains_word(b"PLAIN", b"PLAIN"));
    assert!(contains_word("A\u{85}B\u{1680}C\u{2028}D\u{2029}E\u{202f}F\u{205f}G\u{3000}H".as_bytes(), b"e"));
    assert!(contains_word("A\u{2000}B\u{200a}C".as_bytes(), b"b"));
    assert!(contains_word(b"A\x0bB\x0cC", b"B"));
    assert!(!contains_word("A\u{200b}B".as_bytes(), b"B"));
    assert!(!contains_word(b"PLAIN LOGIN", b"PLAIN LOGIN"));
    assert!(!contains_word(b"PLAIN LOGIN", b"LOG"));
    assert!(!contains_word(b"PLAIN LOGIN", b""));
    assert!(!contains_word(b"", b"PLAIN"));
    assert!(!contains_word(b"   ", b""));
}

#[test]
fn find_crlf_dot_finds_the_first() {
    assert_eq!(find_crlf_dot(b"a\r\n.b\r\n."), Some(1));
    assert_eq!(find_crlf_dot(b"\r\n."), Some(0));
    assert_eq!(find_crlf_dot(b"a\r\nb\r\n.c"), Some(4));
    assert_eq!(find_crlf_dot(b"\r\n"), None);
    assert_eq!(find_crlf_dot(b"a\r.\n."), None);
    assert_eq!(find_crlf_dot(b".\r\n"), None);
    assert_eq!(find_crlf_dot(b""), None);
}

#[test]
fn encoded_len_within_counts_groups_of_three() {
    assert_eq!(encoded_len_within(0, 0), Some(0));
    assert_eq!(encoded_len_within(1, 4), Some(4));
    assert_eq!(encoded_len_within(2, 4), Some(4));
    assert_eq!(encoded_len_within(3, 4), Some(4));
    assert_eq!(encoded_len_within(4, 8), Some(8));
    assert_eq!(encoded_len_within(4, 7), None);
    assert_eq!(encoded_len_within(1, 3), None);
    assert_eq!(encoded_len_within(usize::MAX, usize::MAX), None);
}

#[test]
fn decimal_forms() {
    let mut out = String::from("n=");
    push_decimal(&mut out, 0);
    out.push(',');
    push_decimal(&mut out, 9);
    out.push(',');
    push_decimal(&mut out, 10);
    out.push(',');
    push_decimal(&mut out, 65535);
    out.push(',');
    push_decimal(&mut out, u64::MAX);
    assert_eq!(out, "n=0,9,10,65535,18446744073709551615");
}

#[test]
fn padded_forms() {
    let mut out = String::new();
    push_padded(&mut out, 7, 2);
    out.push(',');
    push_padded(&mut out, 0, 2);
    out.push(',');
    push_padded(&mut out, 42, 2);
    out.push(',');
    push_padded(&mut out, 123, 2);
    out.push(',');
    push_padded(&mut out, 5, 0);
    out.push(',');
    push_padded(&mut out, 5, 4);
    assert_eq!(out, "07,00,42,123,5,0005");
}

#[test]
fn signed_padded_forms() {
    let mut out = String::new();
    push_signed_padded(&mut out, 2025, 4);
    out.push(',');
    push_signed_padded(&mut out, 476, 4);
    out.push(',');
    push_signed_padded(&mut out, -5, 4);
    out.push(',');
    push_signed_padded(&mut out, -12345, 4);
    out.push(',');
    push_signed_padded(&mut out, 0, 4);
    out.push(',');
    push_signed_padded(&mut out, -1, 1);
    assert_eq!(out, "2025,0476,-005,-12345,0000,-1");
    assert_eq!(format!("{:04},{:04},{:04}", 476, -5, -12345), "0476,-005,-12345");
}
