use simple_smtp::smtp::Extensions;
use simple_smtp::Error;
use simple_smtp::MalformedError;
use simple_smtp::ProtocolError;

#[test]
fn malformed_error_display_invalid_line_termination() {
    let err = MalformedError::InvalidLineTermination;
    assert_eq!(err.to_string(), "Invalid line termination");
}

#[test]
fn malformed_error_display_invalid_encoding() {
    let err = MalformedError::InvalidEncoding;
    assert_eq!(err.to_string(), "Invalid encoding");
}

#[test]
fn malformed_error_display_no_code() {
    let err = MalformedError::NoCode;
    assert_eq!(err.to_string(), "No code");
}

#[test]
fn malformed_error_display_unexpected_code() {
    let err = MalformedError::UnexpectedCode { expected: &[250, 251], actual: 550 };
    let msg = err.to_string();
    assert!(msg.contains("550"));
    assert!(msg.contains("250"));
    assert!(msg.contains("251"));
}

#[test]
fn malformed_error_display_unexpected_code_in_full() {
    let err = MalformedError::UnexpectedCode { expected: &[250, 251], actual: 550 };
    assert_eq!(err.to_string(), "Recieved unexpected code 550, expected one of [250, 251]");
    let err = MalformedError::UnexpectedCode { expected: &[], actual: 0 };
    assert_eq!(err.to_string(), "Recieved unexpected code 0, expected one of []");
    let err = MalformedError::UnexpectedCode { expected: &[220], actual: 421 };
    assert_eq!(err.to_string(), "Recieved unexpected code 421, expected one of [220]");
}

#[test]
fn malformed_error_display_code_changed() {
    let err = MalformedError::CodeChanged { old_code: 250, new_code: 354 };
    let msg = err.to_string();
    assert!(msg.contains("250"));
    assert!(msg.contains("354"));
    assert_eq!(msg, "code changed midway through a response. Was 250, now 354");
}

#[test]
fn malformed_error_display_unexpected_eof() {
    let err = MalformedError::UnexpectedEof;
    assert_eq!(err.to_string(), "Unexpected EOF reached");
}

#[test]
fn protocol_error_display() {
    assert_eq!(ProtocolError::AuthorizationError.to_string(), "Invalid Auth");
    assert_eq!(ProtocolError::LineTooLong.to_string(), "Line too long");
    assert_eq!(ProtocolError::InvalidHeader("Subject").to_string(), "Invalid header Subject");
    assert_eq!(
        ProtocolError::UnsupportedExtension(Extensions::StartTls).to_string(),
        "Extension STARTTLS not supported"
    );
    assert_eq!(
        ProtocolError::UnsupportedExtension(Extensions::Auth("PLAIN")).to_string(),
        "Extension AUTH PLAIN not supported"
    );
}

#[test]
fn error_display() {
    let io: Error<String> = Error::IoError("connection reset".to_string());
    assert_eq!(io.to_string(), "IO Error: connection reset");
    let protocol: Error<String> = Error::ProtocolError(ProtocolError::LineTooLong);
    assert_eq!(protocol.to_string(), "Line too long");
    let malformed: Error<String> = Error::MalformedError(MalformedError::NoCode);
    assert_eq!(malformed.to_string(), "No code");
}

#[test]
fn error_from_its_kinds() {
    let e: Error<String> = ProtocolError::LineTooLong.into();
    assert!(matches!(e, Error::ProtocolError(ProtocolError::LineTooLong)));
    let e: Error<String> = MalformedError::UnexpectedEof.into();
    assert!(matches!(e, Error::MalformedError(MalformedError::UnexpectedEof)));
}
