//! The parts of a message: its date, its addresses, its headers and body.
use vstd::prelude::*;
use vstd::string::StringSliceAdditionalSpecFns;

pub mod datetime;
pub use datetime::DateTime;
pub use datetime::TimeZone;

pub mod address;
pub use address::EmailAddress;

verus! {

/// A message to send: the headers it bears and its body. The date, the
/// sender and the message's identifier are always there.
#[derive(Debug, Clone, Copy)]
pub struct Message<'a> {
    date: DateTime,
    from: &'a str,
    message_id: &'a str,
    to: Option<&'a str>,
    cc: Option<&'a str>,
    bcc: Option<&'a str>,
    reply_to: Option<&'a str>,
    subject: Option<&'a str>,
    in_reply_to: Option<&'a str>,
    references: Option<&'a str>,
    body: Option<&'a str>,
}

/// A message, as the bytes of its parts.
pub struct MessageView {
    pub date: DateTime,
    pub from: Seq<u8>,
    pub message_id: Seq<u8>,
    pub to: Option<Seq<u8>>,
    pub cc: Option<Seq<u8>>,
    pub bcc: Option<Seq<u8>>,
    pub reply_to: Option<Seq<u8>>,
    pub subject: Option<Seq<u8>>,
    pub in_reply_to: Option<Seq<u8>>,
    pub references: Option<Seq<u8>>,
    pub body: Option<Seq<u8>>,
}

/// The bytes of a text that may be there.
pub open spec fn bytes_of(text: Option<&str>) -> Option<Seq<u8>> {
    match text {
        Some(t) => Some(t.spec_bytes()),
        None => None,
    }
}

/// Whether a header value that may be there holds a CRLF, which would
/// begin a header of its own.
pub open spec fn breaks(value: Option<Seq<u8>>) -> bool {
    value matches Some(v) && crate::text::has_crlf(v)
}

/// The name of the first header of `m` whose value holds a CRLF, in the
/// order in which the values are looked at; `None` if no value does.
pub open spec fn first_broken_header(m: MessageView) -> Option<Seq<char>> {
    if crate::text::has_crlf(m.from) {
        Some("From"@)
    } else if crate::text::has_crlf(m.message_id) {
        Some("Message-ID"@)
    } else if breaks(m.to) {
        Some("To"@)
    } else if breaks(m.cc) {
        Some("Cc"@)
    } else if breaks(m.bcc) {
        Some("Bcc"@)
    } else if breaks(m.reply_to) {
        Some("Reply-To"@)
    } else if breaks(m.subject) {
        Some("Subject"@)
    } else if breaks(m.in_reply_to) {
        Some("In-Reply-To"@)
    } else if breaks(m.references) {
        Some("References"@)
    } else {
        None
    }
}

/// A header that may be there, as it is sent: its name with the colon and
/// the space, its value, CRLF. Nothing if it is not there.
pub open spec fn optional_header(name: &str, value: Option<Seq<u8>>) -> Seq<u8> {
    match value {
        Some(v) => name.spec_bytes() + v + "\r\n".spec_bytes(),
        None => Seq::empty(),
    }
}

/// A header that is always there, as it is sent: what opens it, its value,
/// what closes it.
pub open spec fn header(open: &str, value: Seq<u8>, close: &str) -> Seq<u8> {
    open.spec_bytes() + value + close.spec_bytes()
}

/// The headers of `m` that are always there, as they are sent, with `date`
/// for the text of its date.
pub open spec fn required_headers(m: MessageView, date: Seq<u8>) -> Seq<u8> {
    header("Date: ", date, "\r\n") + header("From: ", m.from, "\r\n") + header(
        "Message-ID: <",
        m.message_id,
        ">\r\n",
    )
}

/// The headers of `m` that may be there, as they are sent.
pub open spec fn optional_headers(m: MessageView) -> Seq<u8> {
    optional_header("To: ", m.to) + optional_header("Cc: ", m.cc) + optional_header(
        "Bcc: ",
        m.bcc,
    ) + optional_header("Reply-To: ", m.reply_to) + optional_header("Subject: ", m.subject)
        + optional_header("In-Reply-To: ", m.in_reply_to) + optional_header(
        "References: ",
        m.references,
    )
}

/// The headers of `m` as they are sent, with `date` for the text of its
/// date, and the empty line behind them.
pub open spec fn headers_wire(m: MessageView, date: Seq<u8>) -> Seq<u8> {
    required_headers(m, date) + optional_headers(m) + "\r\n".spec_bytes()
}

/// The body of `m` as it is sent: dot-stuffed, and closed by the line that
/// ends a message.
pub open spec fn body_wire(m: MessageView) -> Seq<u8> {
    (match m.body {
        Some(b) => crate::smtp::stuffing::dot_stuff(b),
        None => Seq::empty(),
    }) + "\r\n.\r\n".spec_bytes()
}

impl<'a> Message<'a> {
    pub closed spec fn view(&self) -> MessageView {
        MessageView {
            date: self.date,
            from: self.from.spec_bytes(),
            message_id: self.message_id.spec_bytes(),
            to: bytes_of(self.to),
            cc: bytes_of(self.cc),
            bcc: bytes_of(self.bcc),
            reply_to: bytes_of(self.reply_to),
            subject: bytes_of(self.subject),
            in_reply_to: bytes_of(self.in_reply_to),
            references: bytes_of(self.references),
            body: bytes_of(self.body),
        }
    }

    /// A message with the headers that every message bears, and no body.
    pub fn new(date: DateTime, from: &'a str, message_id: &'a str) -> (message: Self)
        ensures
            message@ == (MessageView {
                date,
                from: from.spec_bytes(),
                message_id: message_id.spec_bytes(),
                to: None,
                cc: None,
                bcc: None,
                reply_to: None,
                subject: None,
                in_reply_to: None,
                references: None,
                body: None,
            }),
    {
        Message {
            date,
            from,
            message_id,
            to: None,
            cc: None,
            bcc: None,
            reply_to: None,
            subject: None,
            in_reply_to: None,
            references: None,
            body: None,
        }
    }

    pub fn with_to(self, to: &'a str) -> (message: Self)
        ensures
            message@ == (MessageView { to: Some(to.spec_bytes()), ..self@ }),
    {
        Message { to: Some(to), ..self }
    }

    pub fn with_cc(self, cc: &'a str) -> (message: Self)
        ensures
            message@ == (MessageView { cc: Some(cc.spec_bytes()), ..self@ }),
    {
        Message { cc: Some(cc), ..self }
    }

    pub fn with_bcc(self, bcc: &'a str) -> (message: Self)
        ensures
            message@ == (MessageView { bcc: Some(bcc.spec_bytes()), ..self@ }),
    {
        Message { bcc: Some(bcc), ..self }
    }

    pub fn with_reply_to(self, reply_to: &'a str) -> (message: Self)
        ensures
            message@ == (MessageView { reply_to: Some(reply_to.spec_bytes()), ..self@ }),
    {
        Message { reply_to: Some(reply_to), ..self }
    }

    pub fn with_subject(self, subject: &'a str) -> (message: Self)
        ensures
            message@ == (MessageView { subject: Some(subject.spec_bytes()), ..self@ }),
    {
        Message { subject: Some(subject), ..self }
    }

    pub fn with_in_reply_to(self, in_reply_to: &'a str) -> (message: Self)
        ensures
            message@ == (MessageView { in_reply_to: Some(in_reply_to.spec_bytes()), ..self@ }),
    {
        Message { in_reply_to: Some(in_reply_to), ..self }
    }

    pub fn with_references(self, references: &'a str) -> (message: Self)
        ensures
            message@ == (MessageView { references: Some(references.spec_bytes()), ..self@ }),
    {
        Message { references: Some(references), ..self }
    }

    pub fn with_body(self, body: &'a str) -> (message: Self)
        ensures
            message@ == (MessageView { body: Some(body.spec_bytes()), ..self@ }),
    {
        Message { body: Some(body), ..self }
    }

    pub fn date(&self) -> (date: DateTime)
        ensures
            date == self@.date,
    {
        self.date
    }

    pub fn from(&self) -> (from: &'a str)
        ensures
            from.spec_bytes() == self@.from,
    {
        self.from
    }

    pub fn message_id(&self) -> (message_id: &'a str)
        ensures
            message_id.spec_bytes() == self@.message_id,
    {
        self.message_id
    }

    pub fn to(&self) -> (to: Option<&'a str>)
        ensures
            bytes_of(to) == self@.to,
    {
        self.to
    }

    pub fn cc(&self) -> (cc: Option<&'a str>)
        ensures
            bytes_of(cc) == self@.cc,
    {
        self.cc
    }

    pub fn bcc(&self) -> (bcc: Option<&'a str>)
        ensures
            bytes_of(bcc) == self@.bcc,
    {
        self.bcc
    }

    pub fn reply_to(&self) -> (reply_to: Option<&'a str>)
        ensures
            bytes_of(reply_to) == self@.reply_to,
    {
        self.reply_to
    }

    pub fn subject(&self) -> (subject: Option<&'a str>)
        ensures
            bytes_of(subject) == self@.subject,
    {
        self.subject
    }

    pub fn in_reply_to(&self) -> (in_reply_to: Option<&'a str>)
        ensures
            bytes_of(in_reply_to) == self@.in_reply_to,
    {
        self.in_reply_to
    }

    pub fn references(&self) -> (references: Option<&'a str>)
        ensures
            bytes_of(references) == self@.references,
    {
        self.references
    }

    pub fn body(&self) -> (body: Option<&'a str>)
        ensures
            bytes_of(body) == self@.body,
    {
        self.body
    }

    /// The name of the first header whose value holds a CRLF, if any does.
    /// Such a value would put a header of its own into the message.
    pub fn broken_header(&self) -> (name: Option<&'static str>)
        ensures
            match name {
                Some(n) => first_broken_header(self@) == Some(n@),
                None => first_broken_header(self@) is None,
            },
    {
        if crate::text::contains_crlf(self.from.as_bytes()) {
            Some("From")
        } else if crate::text::contains_crlf(self.message_id.as_bytes()) {
            Some("Message-ID")
        } else if has_break(self.to) {
            Some("To")
        } else if has_break(self.cc) {
            Some("Cc")
        } else if has_break(self.bcc) {
            Some("Bcc")
        } else if has_break(self.reply_to) {
            Some("Reply-To")
        } else if has_break(self.subject) {
            Some("Subject")
        } else if has_break(self.in_reply_to) {
            Some("In-Reply-To")
        } else if has_break(self.references) {
            Some("References")
        } else {
            None
        }
    }
}

fn has_break(value: Option<&str>) -> (found: bool)
    ensures
        found == breaks(bytes_of(value)),
{
    match value {
        Some(v) => crate::text::contains_crlf(v.as_bytes()),
        None => false,
    }
}

} // verus!
