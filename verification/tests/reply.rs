use simple_smtp::smtp::EhloResponse;
use simple_smtp::smtp::Extensions;
use simple_smtp::smtp::Reply;
use simple_smtp::smtp::ReplyLine;

// Builds the region of a parsed reply of one line: the code, the length of
// the text, the text.
fn build_single_line_buffer(code: u16, message: &str) -> Vec<u8> {
    let mut buf = Vec::new();
    buf.extend_from_slice(&code.to_le_bytes());
    buf.extend_from_slice(&(message.len() as u16).to_le_bytes());
    buf.extend_from_slice(message.as_bytes());
    buf
}

// Builds the region of a parsed reply of several lines. Behind each text
// but the last stand the line end, two free bytes and the next length.
fn build_multiline_buffer(code: u16, messages: &[&str]) -> Vec<u8> {
    let mut buf = Vec::new();
    buf.extend_from_slice(&code.to_le_bytes());
    buf.extend_from_slice(&(messages[0].len() as u16).to_le_bytes());
    buf.extend_from_slice(messages[0].as_bytes());

    for msg in &messages[1..] {
        buf.extend_from_slice(b"\r\n");
        buf.extend_from_slice(&code.to_le_bytes());
        buf.extend_from_slice(&(msg.len() as u16).to_le_bytes());
        buf.extend_from_slice(msg.as_bytes());
    }
    buf
}

#[test]
fn reply_from_buffer_single_line() {
    let buf = build_single_line_buffer(250, "OK");
    let reply = Reply::from_buffer(&buf);

    assert_eq!(reply.code(), 250);
    assert_eq!(reply.current_line(), "OK");
}

#[test]
fn reply_from_buffer_empty_message() {
    let buf = build_single_line_buffer(220, "");
    let reply = Reply::from_buffer(&buf);

    assert_eq!(reply.code(), 220);
    assert_eq!(reply.current_line(), "");
}

#[test]
fn reply_from_buffer_long_message() {
    let long_msg = "a".repeat(200);
    let buf = build_single_line_buffer(354, &long_msg);
    let reply = Reply::from_buffer(&buf);

    assert_eq!(reply.code(), 354);
    assert_eq!(reply.current_line(), long_msg);
}

#[test]
fn reply_try_from_buffer_too_small_header() {
    let buf = vec![0, 0, 0];
    assert!(Reply::try_from_buffer(&buf).is_none());
}

#[test]
fn reply_try_from_buffer_message_len_exceeds_buffer() {
    let mut buf = Vec::new();
    buf.extend_from_slice(&250u16.to_le_bytes());
    buf.extend_from_slice(&10u16.to_le_bytes());
    buf.extend_from_slice(b"hi");
    assert!(Reply::try_from_buffer(&buf).is_none());
}

#[test]
fn reply_try_from_buffer_second_line_exceeds_buffer() {
    let mut buf = build_multiline_buffer(250, &["host", "SIZE"]);
    let at = buf.len() - 6;
    buf[at] = 200;
    assert!(Reply::try_from_buffer(&buf).is_none());
}

#[test]
fn reply_try_from_buffer_text_not_utf8() {
    let mut buf = build_single_line_buffer(250, "OK");
    buf[4] = 0xff;
    assert!(Reply::try_from_buffer(&buf).is_none());
}

#[test]
fn reply_try_from_buffer_long_tail() {
    let mut buf = build_single_line_buffer(250, "OK");
    buf.extend_from_slice(b"\r\n!");
    assert!(Reply::try_from_buffer(&buf).is_none());
}

#[test]
fn reply_try_from_buffer_sound() {
    let mut buf = build_multiline_buffer(250, &["host", "", "SIZE 1000"]);
    buf.extend_from_slice(b"\r\n");
    let reply = Reply::try_from_buffer(&buf).expect("a sound region");
    assert_eq!(reply.code(), 250);
    assert_eq!(reply.lines(), vec!["host", "", "SIZE 1000"]);
}

#[test]
fn reply_iterator_single_line() {
    let buf = build_single_line_buffer(250, "mail.example.com");
    let reply = Reply::from_buffer(&buf);

    let lines: Vec<_> = reply.lines();
    assert_eq!(lines, vec!["mail.example.com"]);
}

#[test]
fn reply_iterator_multiline() {
    let buf = build_multiline_buffer(250, &["mail.example.com", "STARTTLS", "AUTH PLAIN LOGIN"]);
    let reply = Reply::from_buffer(&buf);

    let lines: Vec<_> = reply.lines();
    assert_eq!(lines, vec!["mail.example.com", "STARTTLS", "AUTH PLAIN LOGIN"]);
}

#[test]
fn reply_iterator_empty_lines() {
    let buf = build_multiline_buffer(250, &["host", "", "SIZE 1000"]);
    let reply = Reply::from_buffer(&buf);

    let lines: Vec<_> = reply.lines();
    assert_eq!(lines, vec!["host", "", "SIZE 1000"]);
}

#[test]
fn reply_next_walks_once() {
    let buf = build_multiline_buffer(250, &["host", "SIZE 1000"]);
    let mut reply = Reply::from_buffer(&buf);

    assert_eq!(reply.next(), Some("host"));
    assert_eq!(reply.current_line(), "SIZE 1000");
    assert_eq!(reply.next(), Some("SIZE 1000"));
    assert_eq!(reply.next(), None);
    assert_eq!(reply.next(), None);
    assert_eq!(reply.current_line(), "");
    assert_eq!(reply.code(), 250);
}

#[test]
fn reply_lines_leave_the_cursor() {
    let buf = build_multiline_buffer(250, &["host", "SIZE 1000"]);
    let reply = Reply::from_buffer(&buf);

    assert_eq!(reply.lines().len(), 2);
    assert_eq!(reply.lines().len(), 2);
    assert_eq!(reply.current_line(), "host");
}

#[test]
fn reply_code_accessor() {
    let buf = build_single_line_buffer(421, "Service not available");
    let reply = Reply::from_buffer(&buf);
    assert_eq!(reply.code(), 421);
}

#[test]
fn reply_code_is_little_endian() {
    let buf = vec![0x01, 0x02, 0x00, 0x00];
    let reply = Reply::from_buffer(&buf);
    assert_eq!(reply.code(), 0x0201);
}

#[test]
fn replyline_accessors() {
    let line = ReplyLine::new(250, false, "STARTTLS");

    assert_eq!(line.code(), 250);
    assert!(!line.is_last());
    assert_eq!(line.message(), "STARTTLS");
}

#[test]
fn replyline_display_continuation() {
    let line = ReplyLine::new(250, false, "mail.example.com");
    assert_eq!(line.to_string(), "250-mail.example.com");
}

#[test]
fn replyline_display_final() {
    let line = ReplyLine::new(250, true, "OK");
    assert_eq!(line.to_string(), "250 OK");
}

#[test]
fn replyline_display_empty_message() {
    let line = ReplyLine::new(220, true, "");
    assert_eq!(line.to_string(), "220 ");
}

#[test]
fn replyline_display_various_codes() {
    let cases = [
        (220, "Service ready"),
        (250, "OK"),
        (354, "Start mail input"),
        (421, "Service not available"),
        (550, "Mailbox unavailable"),
    ];

    for (code, msg) in cases {
        let line = ReplyLine::new(code, true, msg);
        assert_eq!(line.to_string(), format!("{} {}", code, msg));
    }
}

#[test]
fn replyline_display_small_and_large_codes() {
    assert_eq!(ReplyLine::new(0, true, "x").to_string(), "0 x");
    assert_eq!(ReplyLine::new(7, false, "x").to_string(), "7-x");
    assert_eq!(ReplyLine::new(65535, true, "").to_string(), "65535 ");
}

#[test]
fn reply_replies_single_line() {
    let buf = build_single_line_buffer(250, "OK");
    let reply = Reply::from_buffer(&buf);

    let lines: Vec<_> = reply.replies();
    assert_eq!(lines.len(), 1);
    assert_eq!(lines[0].code(), 250);
    assert_eq!(lines[0].message(), "OK");
    assert!(lines[0].is_last());
}

#[test]
fn reply_replies_multiline_is_last_flags() {
    let buf = build_multiline_buffer(250, &["host.example.com", "STARTTLS", "SIZE 1000"]);
    let reply = Reply::from_buffer(&buf);

    let lines: Vec<_> = reply.replies();
    assert_eq!(lines.len(), 3);

    assert!(!lines[0].is_last());
    assert!(!lines[1].is_last());
    assert!(lines[2].is_last());

    for line in &lines {
        assert_eq!(line.code(), 250);
    }
}

#[test]
fn reply_replies_with_line_end_behind_last_text() {
    let mut buf = build_multiline_buffer(250, &["host.example.com", "SIZE 1000"]);
    buf.extend_from_slice(b"\r\n");
    let reply = Reply::from_buffer(&buf);

    let lines = reply.replies();
    assert_eq!(lines.len(), 2);
    assert!(!lines[0].is_last());
    assert!(lines[1].is_last());
    assert_eq!(lines[1].message(), "SIZE 1000");
}

#[test]
fn ehlo_supports_starttls() {
    let buf = build_multiline_buffer(250, &["mail.example.com", "STARTTLS", "SIZE 1000"]);
    let reply = Reply::from_buffer(&buf);
    let ehlo = EhloResponse::new(reply);

    assert!(ehlo.supports(Extensions::StartTls));
    assert!(!ehlo.supports(Extensions::Auth("")));
}

#[test]
fn ehlo_supports_auth_any() {
    let buf = build_multiline_buffer(250, &["mail.example.com", "AUTH PLAIN LOGIN"]);
    let reply = Reply::from_buffer(&buf);
    let ehlo = EhloResponse::new(reply);

    assert!(ehlo.supports(Extensions::Auth("")));
}

#[test]
fn ehlo_supports_auth_specific_mechanism() {
    let buf = build_multiline_buffer(250, &["mail.example.com", "AUTH PLAIN LOGIN"]);
    let reply = Reply::from_buffer(&buf);
    let ehlo = EhloResponse::new(reply);

    assert!(ehlo.supports(Extensions::Auth("PLAIN")));
    assert!(ehlo.supports(Extensions::Auth("LOGIN")));
    assert!(!ehlo.supports(Extensions::Auth("CRAM-MD5")));
}

#[test]
fn ehlo_supports_ignores_case_of_mechanism() {
    let buf = build_multiline_buffer(250, &["mail.example.com", "auth Plain\tlogin"]);
    let ehlo = EhloResponse::new(Reply::from_buffer(&buf));

    assert!(ehlo.supports(Extensions::Auth("PLAIN")));
    assert!(ehlo.supports(Extensions::Auth("LOGIN")));
    assert!(!ehlo.supports(Extensions::Auth("PLAIN LOGIN")));
    assert!(!ehlo.supports(Extensions::Auth("PLAI")));
}

#[test]
fn ehlo_supports_parts_mechanisms_at_unicode_white_space() {
    let buf = build_multiline_buffer(250, &["host", "AUTH PLAIN\u{2003}LOGIN\u{a0}XOAUTH2"]);
    let ehlo = EhloResponse::new(Reply::from_buffer(&buf));

    assert!(ehlo.supports(Extensions::Auth("PLAIN")));
    assert!(ehlo.supports(Extensions::Auth("LOGIN")));
    assert!(ehlo.supports(Extensions::Auth("xoauth2")));
}

#[test]
fn ehlo_supports_other_needs_the_same_text() {
    let buf = build_multiline_buffer(250, &["mail.example.com", "SIZE 1000", "8BITMIME"]);
    let ehlo = EhloResponse::new(Reply::from_buffer(&buf));

    assert!(ehlo.supports(Extensions::Other("SIZE", "1000")));
    assert!(!ehlo.supports(Extensions::Other("SIZE", "2000")));
    assert!(!ehlo.supports(Extensions::Other("size", "1000")));
    assert!(ehlo.supports(Extensions::Other("8BITMIME", "")));
    assert!(!ehlo.supports(Extensions::StartTls));
}

#[test]
fn ehlo_first_line_lists_nothing() {
    let buf = build_multiline_buffer(250, &["STARTTLS", "SIZE 1000"]);
    let ehlo = EhloResponse::new(Reply::from_buffer(&buf));

    assert!(!ehlo.supports(Extensions::StartTls));
    assert_eq!(ehlo.extensions(), vec![Extensions::Other("SIZE", "1000")]);
}

#[test]
fn ehlo_extensions_in_order() {
    let buf = build_multiline_buffer(250, &["host", "STARTTLS", "AUTH PLAIN", "PIPELINING"]);
    let ehlo = EhloResponse::new(Reply::from_buffer(&buf));

    assert_eq!(
        ehlo.extensions(),
        vec![Extensions::StartTls, Extensions::Auth("PLAIN"), Extensions::Other("PIPELINING", "")]
    );
    assert_eq!(ehlo.code(), 250);
}
