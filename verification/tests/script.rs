use simple_smtp::smtp::Extensions;
use simple_smtp::Error;
use simple_smtp::MalformedError;
use simple_smtp::ReadWrite;
use simple_smtp::Script;
use simple_smtp::Smtp;

#[test]
fn script_delivers_what_it_was_given() {
    let mut script = Script::new(b"hello".to_vec());
    let mut buf = [0u8; 3];
    assert_eq!(script.read(&mut buf), Ok(3));
    assert_eq!(&buf, b"hel");
    assert_eq!(script.read(&mut buf), Ok(2));
    assert_eq!(&buf[..2], b"lo");
    assert!(!script.ran_dry());
    assert_eq!(script.read(&mut buf), Ok(0));
    assert!(script.ran_dry());
    assert_eq!(&buf, b"lol");
}

#[test]
fn script_takes_more() {
    let mut script = Script::new(Vec::new());
    let mut buf = [0u8; 8];
    assert_eq!(script.read(&mut buf), Ok(0));
    assert!(script.ran_dry());
    script.give(b"ab");
    assert!(!script.ran_dry());
    script.give(b"cd");
    assert_eq!(script.read(&mut buf), Ok(4));
    assert_eq!(&buf[..4], b"abcd");
    assert_eq!(script.read(&mut []), Ok(0));
}

#[test]
fn script_keeps_what_is_written() {
    let mut script = Script::new(Vec::new());
    assert!(script.written().is_empty());
    script.write_single(b"one ").unwrap();
    script.write_multi(&[b"two", b" ", b"", b"three"]).unwrap();
    script.write_multi(&[]).unwrap();
    assert_eq!(script.written(), b"one two three");
}

#[test]
fn session_over_a_script() {
    let mut smtp = Smtp::new(Script::new(b"220 mail.example.com ESMTP ready\r\n".to_vec()));
    let ready = smtp.ready().expect("the greeting is whole");
    assert_eq!(ready.hostname(), "mail.example.com");
    assert_eq!(ready.code(), 220);
    let result = smtp.ehlo("client");
    assert!(matches!(result, Err(Error::MalformedError(MalformedError::UnexpectedEof))));
    let (script, _) = smtp.into_inner();
    assert!(script.ran_dry());
    assert_eq!(script.written(), b"EHLO client\r\n");
}

#[test]
fn session_over_a_script_reads_replies_that_come_together() {
    let mut smtp = Smtp::new(Script::new(b"250-mail.example.com\r\n250 STARTTLS\r\n".to_vec()));
    let ehlo = smtp.ehlo("client").unwrap();
    assert!(ehlo.supports(Extensions::StartTls));
    assert_eq!(ehlo.lines(), vec!["mail.example.com", "STARTTLS"]);
}
