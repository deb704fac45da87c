use simple_smtp::message::address::ParseError;
use simple_smtp::message::EmailAddress;

#[test]
fn email_address_display() {
    let addr = EmailAddress::from_parts("user".to_string(), "example.com".to_string());
    assert_eq!(addr.to_string(), "user@example.com");
}

#[test]
fn email_address_parts() {
    let addr = EmailAddress::from_parts("user".to_string(), "example.com".to_string());
    assert_eq!(addr.local_part(), "user");
    assert_eq!(addr.domain(), "example.com");
    assert_eq!(addr.clone(), addr);
}

#[test]
fn email_address_is_not_read_from_text() {
    let parsed: Result<EmailAddress, ParseError> = "user@example.com".parse();
    assert_eq!(parsed, Err(ParseError::NotImplemented));
    assert_eq!(
        ParseError::NotImplemented.to_string(),
        "Email address parsing not yet implemented"
    );
}
