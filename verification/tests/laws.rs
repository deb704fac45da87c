//! What holds of all inputs, tried on many.

use simple_smtp::message::DateTime;
use simple_smtp::message::Message;
use simple_smtp::smtp::Extensions;
use simple_smtp::Error;
use simple_smtp::MalformedError;
use simple_smtp::ReadWrite;
use simple_smtp::Script;
use simple_smtp::Smtp;

/// A stream that delivers its bytes in the pieces it was given.
struct Pieces {
    pieces: Vec<Vec<u8>>,
    next: usize,
}

impl Pieces {
    fn of(bytes: &[u8], cuts: &[usize]) -> Self {
        let mut pieces = Vec::new();
        let mut from = 0;
        for cut in cuts {
            pieces.push(bytes[from..*cut].to_vec());
            from = *cut;
        }
        pieces.push(bytes[from..].to_vec());
        Pieces { pieces, next: 0 }
    }
}

impl ReadWrite for Pieces {
    type Error = ();

    fn read(&mut self, buf: &mut [u8]) -> Result<usize, ()> {
        while self.next < self.pieces.len() && self.pieces[self.next].is_empty() {
            self.next += 1;
        }
        if self.next == self.pieces.len() {
            return Ok(0);
        }
        let piece = &mut self.pieces[self.next];
        let n = piece.len().min(buf.len());
        buf[..n].copy_from_slice(&piece[..n]);
        piece.drain(..n);
        Ok(n)
    }

    fn write_single(&mut self, _buf: &[u8]) -> Result<(), ()> {
        Ok(())
    }
}

/// Takes the first dot off every line that begins with one.
fn unstuff(sent: &[u8]) -> Vec<u8> {
    let mut out = Vec::new();
    let mut i = 0;
    while i < sent.len() {
        let at_start = i == 0 || (i >= 2 && sent[i - 2] == b'\r' && sent[i - 1] == b'\n');
        if at_start && sent[i] == b'.' {
            if i + 1 < sent.len() {
                out.push(sent[i + 1]);
            }
            i += 2;
        } else {
            out.push(sent[i]);
            i += 1;
        }
    }
    out
}

fn bodies(alphabet: &[u8], len: usize) -> Vec<Vec<u8>> {
    let mut all: Vec<Vec<u8>> = vec![Vec::new()];
    let mut last: Vec<Vec<u8>> = vec![Vec::new()];
    for _ in 0..len {
        let mut next = Vec::new();
        for body in &last {
            for byte in alphabet {
                let mut longer = body.clone();
                longer.push(*byte);
                next.push(longer);
            }
        }
        all.extend(next.iter().cloned());
        last = next;
    }
    all
}

#[test]
fn stuffed_bodies_read_back_as_they_were() {
    let date = DateTime::from_utc(2025, 1, 1, 12, 0, 0).unwrap();
    let head = "MAIL FROM:<a>\r\nDATA\r\nDate: Wed, 01 Jan 2025 12:00:00 +0000\r\n\
                From: f\r\nMessage-ID: <i>\r\n\r\n";
    for body in bodies(b".\r\na", 6) {
        let text = String::from_utf8(body.clone()).unwrap();
        let message = Message::new(date, "f", "i").with_body(&text);
        let replies = b"250 ok\r\n354 go\r\n250 ok\r\n";
        let mut recorder = Recorder { replies: Pieces::of(replies, &[8, 16]), written: Vec::new() };
        let mut smtp = Smtp::new(&mut recorder);
        smtp.send_message(&message, "a", &[]).unwrap();
        let written = recorder.written;
        assert!(written.starts_with(head.as_bytes()), "body {:?}", text);
        assert!(written.ends_with(b"\r\n.\r\n"), "body {:?}", text);
        let sent = &written[head.len()..written.len() - 5];
        assert_eq!(unstuff(sent), body, "body {:?}", text);
        for i in 0..sent.len() {
            let at_start = i == 0 || (i >= 2 && sent[i - 2] == b'\r' && sent[i - 1] == b'\n');
            if at_start && sent[i] == b'.' {
                assert_eq!(sent.get(i + 1), Some(&b'.'), "body {:?}", text);
            }
        }
    }
}

/// A stream that keeps what is written to it and answers from pieces.
struct Recorder {
    replies: Pieces,
    written: Vec<u8>,
}

impl ReadWrite for &mut Recorder {
    type Error = ();

    fn read(&mut self, buf: &mut [u8]) -> Result<usize, ()> {
        self.replies.read(buf)
    }

    fn write_single(&mut self, buf: &[u8]) -> Result<(), ()> {
        self.written.extend_from_slice(buf);
        Ok(())
    }
}

#[test]
fn replies_read_alike_however_they_are_cut() {
    let wire = b"250-mail.example.com\r\n250-STARTTLS\r\n250-\r\n250 AUTH PLAIN LOGIN\r\n";
    for first in 0..=wire.len() {
        for second in first..=wire.len() {
            let mut smtp = Smtp::new(Pieces::of(wire, &[first, second]));
            let ehlo = smtp.ehlo("client").unwrap();
            assert_eq!(ehlo.code(), 250);
            assert_eq!(ehlo.lines(), vec!["mail.example.com", "STARTTLS", "", "AUTH PLAIN LOGIN"]);
            let flags: Vec<bool> = ehlo.replies().iter().map(|line| line.is_last()).collect();
            assert_eq!(flags, vec![false, false, false, true]);
            assert!(ehlo.supports(Extensions::Auth("login")));
        }
    }
}

#[test]
fn replies_cut_short_are_not_whole() {
    let wire = b"250-mail.example.com\r\n250 STARTTLS\r\n";
    for len in 0..wire.len() {
        let mut smtp = Smtp::new(Pieces::of(&wire[..len], &[len / 2]));
        let result = smtp.read_multiline_reply();
        assert!(
            matches!(result, Err(Error::MalformedError(MalformedError::UnexpectedEof))),
            "cut at {}",
            len
        );
    }
}

#[test]
fn a_break_in_a_line_is_found_however_it_is_cut() {
    let cases: [&[u8]; 6] = [
        b"220 a\nb\r\n",
        b"220 a\rb\r\n",
        b"220 \n",
        b"220 a\r\r\n",
        b"220-a\r\n220 b\n\r\n",
        b"220 a\n",
    ];
    for wire in cases {
        for cut in 0..=wire.len() {
            let mut smtp = Smtp::new(Pieces::of(wire, &[cut]));
            let result = smtp.read_multiline_reply();
            assert!(
                matches!(result, Err(Error::MalformedError(MalformedError::InvalidLineTermination))),
                "{:?} cut at {}",
                wire,
                cut
            );
        }
    }
}

#[test]
fn a_changed_code_is_found_on_any_line() {
    for changed in 1..5 {
        let mut wire = Vec::new();
        for line in 0..5 {
            let code = if line == changed { 251 } else { 250 };
            let mark = if line == 4 { ' ' } else { '-' };
            wire.extend_from_slice(format!("{}{}line {}\r\n", code, mark, line).as_bytes());
        }
        let mut smtp = Smtp::new(Script::new(wire));
        let result = smtp.read_multiline_reply();
        assert!(matches!(
            result,
            Err(Error::MalformedError(MalformedError::CodeChanged { old_code: 250, new_code: 251 }))
        ));
    }
}

#[test]
fn any_code_with_one_line_is_taken_where_it_is_due() {
    for code in [0u16, 7, 99, 100, 220, 221, 235, 250, 354, 999] {
        let wire = format!("{:03} text\r\n", code);
        let mut smtp = Smtp::new(Script::new(wire.clone().into_bytes()));
        let reply = smtp.read_multiline_reply().unwrap();
        assert_eq!(reply.code(), code);
        assert_eq!(reply.lines(), vec!["text"]);

        let mut smtp = Smtp::new(Script::new(wire.into_bytes()));
        let result = smtp.ready();
        assert_eq!(result.is_ok(), code == 220);
    }
}

#[test]
fn keywords_are_read_in_any_case() {
    let keywords = ["STARTTLS", "AUTH", "SIZE", "8BITMIME", "X-strange"];
    for keyword in keywords {
        for mask in 0u32..(1 << keyword.len().min(8)) {
            let mixed: String = keyword
                .chars()
                .enumerate()
                .map(|(i, c)| {
                    if i < 8 && mask & (1 << i) != 0 {
                        c.to_ascii_lowercase()
                    } else {
                        c.to_ascii_uppercase()
                    }
                })
                .collect();
            let line = format!("{} a B", mixed);
            let upper = format!("{} a B", keyword.to_ascii_uppercase());
            match (Extensions::from_str(&line), Extensions::from_str(&upper)) {
                (Extensions::StartTls, Extensions::StartTls) => assert_eq!(keyword, "STARTTLS"),
                (Extensions::Auth(x), Extensions::Auth(y)) => {
                    assert_eq!(keyword, "AUTH");
                    assert_eq!((x, y), ("a B", "a B"));
                }
                (Extensions::Other(k, x), Extensions::Other(l, y)) => {
                    assert!(k.eq_ignore_ascii_case(l));
                    assert_eq!(k, mixed);
                    assert_eq!((x, y), ("a B", "a B"));
                }
                other => panic!("{:?}", other),
            }
        }
    }
}
