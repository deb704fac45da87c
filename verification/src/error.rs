//! What can go wrong in a session.
use vstd::prelude::*;
use vstd::string::StringExecFns;
use crate::smtp::extension::Extensions;

verus! {

/// The server sent something that is not SMTP.
#[derive(Debug)]
pub enum MalformedError {
    /// A bare CR or a bare LF: lines end in CRLF and hold neither otherwise.
    InvalidLineTermination,
    /// A line's text is not UTF-8, or the byte after the code is neither a
    /// space nor a dash.
    InvalidEncoding,
    /// A line does not begin with three ASCII digits.
    NoCode,
    /// The reply is well formed, but its code is not one the command expects.
    UnexpectedCode { expected: &'static [u16], actual: u16 },
    /// A later line of a reply bears another code than its first line.
    CodeChanged { old_code: u16, new_code: u16 },
    /// The stream ended in the middle of a reply.
    UnexpectedEof,
}

/// The caller or the library stepped outside the protocol.
#[derive(Debug)]
pub enum ProtocolError {
    /// The server rejected the credentials.
    AuthorizationError,
    /// The buffer is full and the line is not at its end.
    LineTooLong,
    /// The value of the named header holds a CRLF.
    InvalidHeader(&'static str),
    /// The server does not offer the extension that was asked for.
    UnsupportedExtension(Extensions<'static>),
}

/// Any failure of a session over a stream whose own error is `T`.
#[derive(Debug)]
pub enum Error<T> {
    /// The stream failed; its error, as it came.
    IoError(T),
    ProtocolError(ProtocolError),
    MalformedError(MalformedError),
}

/// A list of codes as it is shown: in brackets, with a comma and a space
/// between one code and the next.
pub open spec fn list_text(codes: Seq<u16>) -> Seq<char> {
    "["@ + items_text(codes) + "]"@
}

/// The codes of a list, with a comma and a space between one and the next.
pub open spec fn items_text(codes: Seq<u16>) -> Seq<char>
    decreases codes.len(),
{
    if codes.len() == 0 {
        Seq::empty()
    } else if codes.len() == 1 {
        crate::decimal::decimal(codes[0] as nat)
    } else {
        items_text(codes.drop_last()) + ", "@ + crate::decimal::decimal(codes.last() as nat)
    }
}

/// Writes a list of codes behind what `out` holds.
fn push_list(out: &mut String, codes: &[u16])
    ensures
        final(out)@ == old(out)@ + list_text(codes@),
{
    out.append("[");
    let ghost opened = out@;
    let mut i: usize = 0;
    while i < codes.len()
        invariant
            i <= codes@.len(),
            out@ == opened + items_text(codes@.subrange(0, i as int)),
        decreases codes@.len() - i,
    {
        let ghost before = out@;
        if i > 0 {
            out.append(", ");
        }
        crate::decimal::push_decimal(out, codes[i] as u64);
        proof {
            let upto = codes@.subrange(0, i + 1);
            assert(upto.drop_last() =~= codes@.subrange(0, i as int));
            assert(upto.last() == codes@[i as int]);
            if i > 0 {
                assert(opened + items_text(upto.drop_last()) + ", "@ + crate::decimal::decimal(
                    codes@[i as int] as nat,
                ) =~= opened + (items_text(upto.drop_last()) + ", "@ + crate::decimal::decimal(
                    codes@[i as int] as nat,
                )));
            } else {
                assert(items_text(upto.drop_last()) =~= Seq::<char>::empty());
                assert(opened + Seq::<char>::empty() =~= opened);
            }
        }
        i = i + 1;
    }
    out.append("]");
    proof {
        assert(codes@.subrange(0, i as int) =~= codes@);
        assert(old(out)@ + "["@ + items_text(codes@) + "]"@ =~= old(out)@ + ("["@ + items_text(
            codes@,
        ) + "]"@));
    }
}

impl MalformedError {
    /// What the error says.
    pub open spec fn text(&self) -> Seq<char> {
        match self {
            MalformedError::InvalidLineTermination => "Invalid line termination"@,
            MalformedError::InvalidEncoding => "Invalid encoding"@,
            MalformedError::NoCode => "No code"@,
            MalformedError::UnexpectedCode { expected, actual } => {
                "Recieved unexpected code "@ + crate::decimal::decimal(*actual as nat)
                    + ", expected one of "@ + list_text(expected@)
            },
            MalformedError::CodeChanged { old_code, new_code } => {
                "code changed midway through a response. Was "@ + crate::decimal::decimal(
                    *old_code as nat,
                ) + ", now "@ + crate::decimal::decimal(*new_code as nat)
            },
            MalformedError::UnexpectedEof => "Unexpected EOF reached"@,
        }
    }

    /// What the error says, as a string.
    pub fn to_string(&self) -> (text: String)
        ensures
            text@ == self.text(),
    {
        match self {
            MalformedError::InvalidLineTermination => String::from_str("Invalid line termination"),
            MalformedError::InvalidEncoding => String::from_str("Invalid encoding"),
            MalformedError::NoCode => String::from_str("No code"),
            MalformedError::UnexpectedCode { expected, actual } => {
                let mut out = String::from_str("Recieved unexpected code ");
                crate::decimal::push_decimal(&mut out, *actual as u64);
                out.append(", expected one of ");
                push_list(&mut out, expected);
                out
            },
            MalformedError::CodeChanged { old_code, new_code } => {
                let mut out = String::from_str("code changed midway through a response. Was ");
                crate::decimal::push_decimal(&mut out, *old_code as u64);
                out.append(", now ");
                crate::decimal::push_decimal(&mut out, *new_code as u64);
                out
            },
            MalformedError::UnexpectedEof => String::from_str("Unexpected EOF reached"),
        }
    }
}

impl ProtocolError {
    /// What the error says.
    pub open spec fn text(&self) -> Seq<char> {
        match self {
            ProtocolError::AuthorizationError => "Invalid Auth"@,
            ProtocolError::LineTooLong => "Line too long"@,
            ProtocolError::InvalidHeader(name) => "Invalid header "@ + name@,
            ProtocolError::UnsupportedExtension(ext) => "Extension "@ + ext.text()
                + " not supported"@,
        }
    }

    /// What the error says, as a string.
    pub fn to_string(&self) -> (text: String)
        ensures
            text@ == self.text(),
    {
        match self {
            ProtocolError::AuthorizationError => String::from_str("Invalid Auth"),
            ProtocolError::LineTooLong => String::from_str("Line too long"),
            ProtocolError::InvalidHeader(name) => {
                let mut out = String::from_str("Invalid header ");
                out.append(name);
                out
            },
            ProtocolError::UnsupportedExtension(ext) => {
                let mut out = String::from_str("Extension ");
                let shown = ext.to_string();
                out.append(shown.as_str());
                out.append(" not supported");
                out
            },
        }
    }
}

impl<T: core::fmt::Display> Error<T> {
    /// What the error says, as a string. What a failure of the stream says
    /// is what the stream's own error says, behind `IO Error: `.
    pub fn to_string(&self) -> (text: String)
        ensures
            match self {
                Error::IoError(e) => exists|shown: String|
                    vstd::string::to_string_from_display_ensures::<T>(e, shown) && text@
                        == "IO Error: "@ + shown@,
                Error::ProtocolError(e) => text@ == e.text(),
                Error::MalformedError(e) => text@ == e.text(),
            },
    {
        match self {
            Error::IoError(e) => {
                let mut out = String::from_str("IO Error: ");
                let shown = e.to_string();
                out.append(shown.as_str());
                out
            },
            Error::ProtocolError(e) => e.to_string(),
            Error::MalformedError(e) => e.to_string(),
        }
    }
}

impl<T> From<ProtocolError> for Error<T> {
    fn from(e: ProtocolError) -> (r: Self) {
        Error::ProtocolError(e)
    }
}

impl<T> vstd::std_specs::convert::FromSpecImpl<ProtocolError> for Error<T> {
    open spec fn obeys_from_spec() -> bool {
        true
    }

    open spec fn from_spec(e: ProtocolError) -> Self {
        Error::ProtocolError(e)
    }
}

impl<T> From<MalformedError> for Error<T> {
    fn from(e: MalformedError) -> (r: Self) {
        Error::MalformedError(e)
    }
}

impl<T> vstd::std_specs::convert::FromSpecImpl<MalformedError> for Error<T> {
    open spec fn obeys_from_spec() -> bool {
        true
    }

    open spec fn from_spec(e: MalformedError) -> Self {
        Error::MalformedError(e)
    }
}

} // verus!
