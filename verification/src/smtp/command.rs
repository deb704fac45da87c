//! The commands of a session. Each one writes what it has to say, reads the
//! server's whole reply and holds its code against the one it expects.
use vstd::prelude::*;
use vstd::string::StringSliceAdditionalSpecFns;
use crate::error::Error;
use crate::error::MalformedError;
use crate::error::ProtocolError;
use crate::smtp::extension::EhloResponse;
use crate::smtp::extension::Ready;
use crate::smtp::reply::Reply;
use crate::smtp::sasl;
use crate::smtp::session;
use crate::smtp::session::Smtp;
use crate::smtp::wire;
use crate::stream::ReadWrite;

verus! {

/// Whether `raw` spells a reply with the code `code`, whatever follows the
/// reply.
pub open spec fn accepted(raw: Seq<u8>, code: u16) -> bool {
    wire::reply_outcome(raw) matches wire::Outcome::Done(parsed)
        && parsed.code == code
}

/// Whether `e` is the right answer to `raw` where a reply with `code` was
/// due, in a buffer that `raw` fills (`full`) or does not.
pub open spec fn rejected<E>(raw: Seq<u8>, code: u16, full: bool, e: Error<E>) -> bool {
    match e {
        Error::MalformedError(MalformedError::UnexpectedCode { expected, actual }) => {
            &&& wire::reply_outcome(raw)
                matches wire::Outcome::Done(parsed) && parsed.code == actual
            &&& actual != code
            &&& expected@ == seq![code]
        },
        _ => session::explains(wire::reply_outcome(raw), full, e),
    }
}

/// Whether `code` is one that a command of this library expects.
pub open spec fn is_expected(code: u16) -> bool {
    code == 220 || code == 221 || code == 235 || code == 250 || code == 354
}

/// The list of expected codes that holds `code` alone.
pub(crate) fn only(code: u16) -> (list: &'static [u16])
    requires
        is_expected(code),
    ensures
        list@ == seq![code],
{
    let list: &'static [u16] = if code == 220 {
        &[220]
    } else if code == 221 {
        &[221]
    } else if code == 235 {
        &[235]
    } else if code == 250 {
        &[250]
    } else {
        &[354]
    };
    assert(list@ =~= seq![code]);
    list
}

impl<'a, T: ReadWrite> Smtp<'a, T> {
    /// What a command comes to that says `say` and is due a reply with
    /// `code`, from `self` to `later` and with the outcome `r`.
    ///
    /// The command succeeds if and only if what the stream delivers spells
    /// a reply with that code, and then it has said `say` and hands out
    /// that reply. It fails with the error that is the right answer to what
    /// the stream delivered, and that the stream bears out; unless the
    /// stream itself failed, it has said `say` then, too.
    pub open spec fn exchanges_to(
        &self,
        later: &Self,
        say: Seq<u8>,
        code: u16,
        r: Result<Reply<'_>, Error<T::Error>>,
    ) -> bool {
        let raw = session::got(self.stream(), later.stream());
        let said = self.stream().sent() + say;
        &&& later.wf()
        &&& later.capacity() == self.capacity()
        &&& session::heard(self.stream(), later.stream())
        &&& r is Ok <==> accepted(raw, code)
        &&& match r {
            Ok(reply) => {
                &&& later.stream().sent() == said
                &&& reply.code() == code
                &&& reply@ == wire::reply_outcome(raw)->Done_0.lines
                &&& reply@.len() >= 1
            },
            Err(e) => {
                &&& rejected(raw, code, raw.len() == later.capacity(), e)
                &&& session::borne_out(later.stream(), e)
                &&& e is IoError || later.stream().sent() == said
            },
        }
    }

    /// Reads the reply that is due and holds its code against `code`.
    pub(crate) fn answer(&mut self, code: u16, expected: &'static [u16]) -> (r: Result<
        Reply<'_>,
        Error<T::Error>,
    >)
        requires
            old(self).wf(),
            expected@ == seq![code],
        ensures
            old(self).exchanges_to(final(self), Seq::empty(), code, r),
            final(self).stream().sent() == old(self).stream().sent(),
    {
        proof {
            assert(self.stream().sent() + Seq::<u8>::empty() =~= self.stream().sent());
        }
        let reply = match self.read_multiline_reply() {
            Ok(reply) => reply,
            Err(e) => {
                return Err(e);
            },
        };
        if reply.code() != code {
            return Err(
                Error::MalformedError(
                    MalformedError::UnexpectedCode { expected, actual: reply.code() },
                ),
            );
        }
        Ok(reply)
    }

    /// Nothing has been received between `self` and `later`.
    proof fn silent(&self, later: &Self)
        requires
            later.stream().received() == self.stream().received(),
        ensures
            session::heard(self.stream(), later.stream()),
            session::got(self.stream(), later.stream()) == Seq::<u8>::empty(),
            wire::reply_outcome(session::got(self.stream(), later.stream())) is Incomplete,
    {
        assert(session::got(self.stream(), later.stream()) =~= Seq::<u8>::empty());
        assert(later.stream().received().subrange(0, self.stream().received().len() as int)
            =~= self.stream().received());
    }

    /// Writes `parts` and reads the reply to them, which is to bear `code`.
    pub(crate) fn exchange(
        &mut self,
        parts: &[&[u8]],
        code: u16,
        expected: &'static [u16],
    ) -> (r: Result<Reply<'_>, Error<T::Error>>)
        requires
            old(self).wf(),
            expected@ == seq![code],
        ensures
            old(self).exchanges_to(final(self), crate::stream::concat(parts@), code, r),
    {
        let ghost a = *self;
        match self.send(parts) {
            Ok(()) => {},
            Err(e) => {
                proof {
                    a.silent(self);
                }
                return Err(e);
            },
        }
        proof {
            a.silent(self);
        }
        self.answer(code, expected)
    }

    /// Waits for the greeting that a server opens with, code 220. The name
    /// that the server gives itself is what stands before the first space
    /// of the greeting's first line.
    pub fn ready(&mut self) -> (r: Result<Ready<'_>, Error<T::Error>>)
        requires
            old(self).wf(),
        ensures
            old(self).exchanges_to(
                final(self),
                Seq::empty(),
                220,
                match r {
                    Ok(ready) => Ok(ready.reply()),
                    Err(e) => Err(e),
                },
            ),
            final(self).stream().sent() == old(self).stream().sent(),
            r matches Ok(ready) ==> ready.hostname().spec_bytes() == crate::text::before(
                ready.reply()@[0],
                32,
            ),
    {
        match self.answer(220, only(220)) {
            Ok(reply) => {
                proof {
                    use_type_invariant(&reply);
                    reply.current_is_first();
                }
                Ok(Ready::new(reply))
            },
            Err(e) => Err(e),
        }
    }

    /// Says EHLO with the client's `domain`. The reply, code 250, lists what
    /// the server offers.
    pub fn ehlo(&mut self, domain: &str) -> (r: Result<EhloResponse<'_>, Error<T::Error>>)
        requires
            old(self).wf(),
        ensures
            old(self).exchanges_to(
                final(self),
                "EHLO ".spec_bytes() + domain.spec_bytes() + "\r\n".spec_bytes(),
                250,
                match r {
                    Ok(ehlo) => Ok(ehlo.reply()),
                    Err(e) => Err(e),
                },
            ),
    {
        let parts: [&[u8]; 3] = ["EHLO ".as_bytes(), domain.as_bytes(), "\r\n".as_bytes()];
        proof {
            crate::stream::concat_three(parts[0], parts[1], parts[2]);
            assert(parts@ =~= seq![parts[0], parts[1], parts[2]]);
        }
        match self.exchange(&parts, 250, only(250)) {
            Ok(reply) => Ok(EhloResponse::new(reply)),
            Err(e) => Err(e),
        }
    }

    /// Says STARTTLS. After the reply, code 220, the stream is to be taken
    /// out of the session and upgraded.
    pub fn starttls(&mut self) -> (r: Result<Reply<'_>, Error<T::Error>>)
        requires
            old(self).wf(),
        ensures
            old(self).exchanges_to(final(self), "STARTTLS\r\n".spec_bytes(), 220, r),
    {
        let parts: [&[u8]; 1] = ["STARTTLS\r\n".as_bytes()];
        proof {
            crate::stream::concat_one(parts[0]);
            assert(parts@ =~= seq![parts[0]]);
        }
        self.exchange(&parts, 220, only(220))
    }

    /// Says QUIT and does not wait for the reply: a last word before the
    /// stream is torn down.
    pub fn fast_quit(&mut self) -> (r: Result<(), Error<T::Error>>)
        requires
            old(self).wf(),
        ensures
            old(self).writes_to(final(self), r, "QUIT\r\n".spec_bytes()),
    {
        let parts: [&[u8]; 1] = ["QUIT\r\n".as_bytes()];
        proof {
            crate::stream::concat_one(parts[0]);
            assert(parts@ =~= seq![parts[0]]);
        }
        self.send(&parts)
    }

    /// Says QUIT and reads the reply, code 221.
    pub fn quit(&mut self) -> (r: Result<Reply<'_>, Error<T::Error>>)
        requires
            old(self).wf(),
        ensures
            old(self).exchanges_to(final(self), "QUIT\r\n".spec_bytes(), 221, r),
    {
        let parts: [&[u8]; 1] = ["QUIT\r\n".as_bytes()];
        proof {
            crate::stream::concat_one(parts[0]);
            assert(parts@ =~= seq![parts[0]]);
        }
        self.exchange(&parts, 221, only(221))
    }

    /// Says AUTH PLAIN with the payload that lies in the buffer, `len` bytes
    /// from `at` on, and reads the reply, code 235.
    pub fn auth_encoded(&mut self, at: usize, len: usize) -> (r: Result<
        Reply<'_>,
        Error<T::Error>,
    >)
        requires
            old(self).wf(),
            at + len <= old(self).capacity(),
        ensures
            old(self).exchanges_to(
                final(self),
                "AUTH PLAIN ".spec_bytes() + old(self).buffer().subrange(at as int, at + len)
                    + "\r\n".spec_bytes(),
                235,
                r,
            ),
    {
        let ghost a = *self;
        match self.send_from_buffer("AUTH PLAIN ".as_bytes(), at, len, "\r\n".as_bytes()) {
            Ok(()) => {},
            Err(e) => {
                proof {
                    a.silent(self);
                }
                return Err(e);
            },
        }
        proof {
            a.silent(self);
        }
        self.answer(235, only(235))
    }

    /// Logs in with SASL PLAIN: says AUTH PLAIN with the base64 form of the
    /// user and the password, and reads the reply, code 235.
    ///
    /// The message and its base64 form are laid in the buffer, which has to
    /// have room for both. Where it has not, nothing is sent, and the
    /// command fails with `LineTooLong`.
    pub fn auth(&mut self, username: &str, password: &str) -> (r: Result<
        Reply<'_>,
        Error<T::Error>,
    >)
        requires
            old(self).wf(),
        ensures
            ({
                let plain = sasl::plain_message(username.spec_bytes(), password.spec_bytes());
                if plain.len() + sasl::base64_len(plain.len() as int) <= old(self).capacity() {
                    old(self).exchanges_to(
                        final(self),
                        "AUTH PLAIN ".spec_bytes() + sasl::base64_standard(plain)
                            + "\r\n".spec_bytes(),
                        235,
                        r,
                    )
                } else {
                    &&& r matches Err(Error::ProtocolError(ProtocolError::LineTooLong))
                    &&& final(self).wf()
                    &&& final(self).stream() == old(self).stream()
                    &&& final(self).buffer() == old(self).buffer()
                }
            }),
    {
        match self.stage_plain(username.as_bytes(), password.as_bytes()) {
            Some((at, len)) => self.auth_encoded(at, len),
            None => Err(Error::ProtocolError(ProtocolError::LineTooLong)),
        }
    }

    /// Sends the content of a message and the line that ends it, and reads
    /// the reply, whatever its code.
    pub fn send_data(&mut self, data: &[u8]) -> (r: Result<Reply<'_>, Error<T::Error>>)
        requires
            old(self).wf(),
        ensures
            final(self).wf(),
            final(self).capacity() == old(self).capacity(),
            session::heard(old(self).stream(), final(self).stream()),
            ({
                let raw = session::got(old(self).stream(), final(self).stream());
                let said = old(self).stream().sent() + data@ + "\r\n.\r\n".spec_bytes();
                let outcome = wire::reply_outcome(raw);
                &&& r is Ok <==> outcome is Done
                &&& match r {
                    Ok(reply) => {
                        &&& final(self).stream().sent() == said
                        &&& reply.code() == outcome->Done_0.code
                        &&& reply@ == outcome->Done_0.lines
                    },
                    Err(e) => {
                        &&& session::explains(outcome, raw.len() == final(self).capacity(), e)
                        &&& session::borne_out(final(self).stream(), e)
                        &&& e is IoError || final(self).stream().sent() == said
                    },
                }
            }),
    {
        let ghost a = *self;
        let parts: [&[u8]; 2] = [data, "\r\n.\r\n".as_bytes()];
        proof {
            crate::stream::concat_two(parts[0], parts[1]);
            assert(parts@ =~= seq![parts[0], parts[1]]);
            assert(a.stream().sent() + (parts[0]@ + parts[1]@) =~= a.stream().sent() + parts[0]@
                + parts[1]@);
        }
        match self.send(&parts) {
            Ok(()) => {},
            Err(e) => {
                proof {
                    a.silent(self);
                }
                return Err(e);
            },
        }
        proof {
            a.silent(self);
        }
        self.read_multiline_reply()
    }
}

/// A command succeeds where the stream delivers a reply that bears the
/// code that is due, whatever the stream delivers with it, and hands out
/// the reply as the server wrote it: its code, and the texts of its lines
/// in order, byte for byte.
pub proof fn command_reads_reply<T: ReadWrite>(
    before: Smtp<'_, T>,
    after: Smtp<'_, T>,
    say: Seq<u8>,
    code: u16,
    r: Result<Reply<'_>, Error<T::Error>>,
    lines: Seq<Seq<u8>>,
    more: Seq<u8>,
)
    requires
        before.exchanges_to(&after, say, code, r),
        code < 1000,
        lines.len() >= 1,
        forall|i: int| 0 <= i < lines.len() ==> wire::is_text(#[trigger] lines[i]),
        session::got(before.stream(), after.stream()) == wire::reply_bytes(code, lines) + more,
    ensures
        r matches Ok(reply) && reply.code() == code && reply@ == lines,
{
    wire::reply_read_back(code, lines, more);
}

/// A command succeeds where the stream delivers a reply of one line that
/// bears the code that is due, whatever the stream delivers with it.
pub proof fn command_takes_one_line<T: ReadWrite>(
    before: Smtp<'_, T>,
    after: Smtp<'_, T>,
    say: Seq<u8>,
    code: u16,
    r: Result<Reply<'_>, Error<T::Error>>,
    text: Seq<u8>,
    more: Seq<u8>,
)
    requires
        before.exchanges_to(&after, say, code, r),
        code < 1000,
        wire::is_text(text),
        session::got(before.stream(), after.stream()) == wire::line_bytes(code, true, text) + more,
    ensures
        r matches Ok(reply) && reply.code() == code && reply@ == seq![text],
{
    let lines = seq![text];
    assert(lines.drop_last() =~= Seq::<Seq<u8>>::empty());
    assert(wire::reply_bytes(code, lines) =~= wire::line_bytes(code, true, text));
    command_reads_reply(before, after, say, code, r, lines, more);
}

/// A command fails where the stream delivers lines with one code and then
/// a line with another: the error names both codes, whatever code was due
/// and whatever the stream delivers behind that line.
pub proof fn command_finds_changed_code<T: ReadWrite>(
    before: Smtp<'_, T>,
    after: Smtp<'_, T>,
    say: Seq<u8>,
    due: u16,
    r: Result<Reply<'_>, Error<T::Error>>,
    code: u16,
    lines: Seq<Seq<u8>>,
    other: u16,
    is_last: bool,
    text: Seq<u8>,
    more: Seq<u8>,
)
    requires
        before.exchanges_to(&after, say, due, r),
        code < 1000,
        other < 1000,
        other != code,
        lines.len() >= 1,
        forall|i: int| 0 <= i < lines.len() ==> wire::is_text(#[trigger] lines[i]),
        wire::is_text(text),
        session::got(before.stream(), after.stream()) == wire::dashed_bytes(code, lines)
            + wire::line_bytes(other, is_last, text) + more,
    ensures
        r matches Err(e) && e == Error::<T::Error>::MalformedError(
            MalformedError::CodeChanged { old_code: code, new_code: other },
        ),
{
    wire::code_change_is_found(code, lines, other, is_last, text, more);
}

/// A command fails for the line termination where the stream delivers a
/// line that holds a bare LF or a bare CR before its end, as the first
/// line of the reply or behind lines that bear the same code.
pub proof fn command_finds_bare_line_end<T: ReadWrite>(
    before: Smtp<'_, T>,
    after: Smtp<'_, T>,
    say: Seq<u8>,
    due: u16,
    r: Result<Reply<'_>, Error<T::Error>>,
    code: u16,
    lines: Seq<Seq<u8>>,
    is_last: bool,
    rest: Seq<u8>,
    at: int,
)
    requires
        before.exchanges_to(&after, say, due, r),
        code < 1000,
        forall|i: int| 0 <= i < lines.len() ==> wire::is_text(#[trigger] lines[i]),
        wire::bare_at(rest, at),
        forall|j: int| 0 <= j < at ==> !wire::line_end_at(rest, j),
        session::got(before.stream(), after.stream()) == wire::dashed_bytes(code, lines) + (
        wire::digits(code) + seq![
            if is_last {
                wire::SPACE
            } else {
                wire::DASH
            },
        ] + rest),
    ensures
        r matches Err(e) && e == Error::<T::Error>::MalformedError(
            MalformedError::InvalidLineTermination,
        ),
{
    wire::bare_line_end_in_reply(code, lines, is_last, rest, at);
}

} // verus!
