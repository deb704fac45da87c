//! The session: a stream, a buffer, and the reader that turns what the stream
//! delivers into parsed replies.
//!
//! A reply is parsed where it was read. The reader writes to bytes of the
//! buffer that it has read in two places only, and only once it has parsed
//! what they held: the length of a line's text goes where the end of the
//! line's code and its marker stood, and the code of the reply goes where
//! the code of its first line began. The texts are never moved.
use vstd::prelude::*;
use vstd::slice::slice_subrange;
use vstd::string::StringSliceAdditionalSpecFns;
use crate::buffer::Buffer;
use crate::error::Error;
use crate::error::MalformedError;
use crate::error::ProtocolError;
use crate::smtp::reply;
use crate::smtp::reply::Reply;
use crate::smtp::reply::ReplyLine;
use crate::smtp::sasl;
use crate::smtp::wire;
use crate::stream::ReadWrite;

verus! {

/// What `after` has received that `before` had not.
pub open spec fn got<T: ReadWrite>(before: T, after: T) -> Seq<u8> {
    after.received().skip(before.received().len() as int)
}

/// `after` has received what `before` had, and maybe more.
pub open spec fn heard<T: ReadWrite>(before: T, after: T) -> bool {
    &&& before.received().len() <= after.received().len()
    &&& after.received().subrange(0, before.received().len() as int) == before.received()
}

/// `after` is `before` with more bytes read and nothing written.
pub open spec fn read_on<T: ReadWrite>(before: T, after: T) -> bool {
    &&& after.sent() == before.sent()
    &&& heard(before, after)
}

/// Whether the error `e` is the right answer to bytes that amount to `o`,
/// in a buffer that is full (`full`) or has room left.
pub open spec fn explains<V, E>(o: wire::Outcome<V>, full: bool, e: Error<E>) -> bool {
    match e {
        Error::IoError(_) => o is Incomplete,
        Error::MalformedError(MalformedError::UnexpectedEof) => o is Incomplete,
        Error::MalformedError(m) => !(m is UnexpectedCode) && o
            == wire::Outcome::<V>::Malformed(m),
        Error::ProtocolError(ProtocolError::LineTooLong) => o is TooLong || (o is Incomplete
            && full),
        Error::ProtocolError(_) => false,
    }
}

/// Whether `e` is what running out of bytes gives: the stream failed or
/// ended, or the buffer is full (`full`).
pub open spec fn starved<E>(e: Error<E>, full: bool) -> bool {
    match e {
        Error::IoError(_) => true,
        Error::MalformedError(m) => m is UnexpectedEof,
        Error::ProtocolError(p) => p is LineTooLong && full,
    }
}

/// Whether the stream `s` bears out the error `e`: an error of the stream's
/// is the one that `s` failed with, and the end of the stream is reported
/// only where `s` has been found at its end.
pub open spec fn borne_out<T: ReadWrite>(s: T, e: Error<T::Error>) -> bool {
    match e {
        Error::IoError(f) => s.failure() == Some(f),
        Error::MalformedError(m) => m is UnexpectedEof ==> s.ended(),
        Error::ProtocolError(_) => true,
    }
}

/// An SMTP session over the stream `T`.
///
/// The session owns the stream and the buffer. Bytes `start..end` of the
/// buffer have been read from the stream and not yet parsed; what lies
/// before `start` is the parsed part of the reply in progress.
///
/// The session does not keep track of where in the protocol it is: to say
/// AUTH before EHLO is the caller's mistake, and the server's to answer.
/// Each command reads its reply into the front of the buffer, so a reply
/// is to be done with before the next command is said. After an error the
/// stream and the session may be out of step; only `into_inner` makes
/// sense then.
pub struct Smtp<'a, T: ReadWrite> {
    stream: T,
    buf: Buffer<'a>,
    start: usize,
    end: usize,
    /// The code of the reply that is being read, once its first line has
    /// been taken.
    code: Option<u16>,
}

impl<'a, T: ReadWrite> Smtp<'a, T> {
    /// The pending bytes lie within the buffer. Every session that a
    /// constructor has made and a method has worked on is so.
    pub closed spec fn wf(&self) -> bool {
        self.start <= self.end <= self.buf@.len()
    }

    /// The stream.
    pub closed spec fn stream(&self) -> T {
        self.stream
    }

    /// The buffer.
    pub closed spec fn storage(&self) -> Buffer<'a> {
        self.buf
    }

    /// The bytes of the whole buffer.
    pub open spec fn buffer(&self) -> Seq<u8> {
        self.storage()@
    }

    /// The size of the buffer.
    pub open spec fn capacity(&self) -> int {
        self.buffer().len() as int
    }

    /// Where the pending bytes begin.
    pub closed spec fn start(&self) -> int {
        self.start as int
    }

    /// Where the pending bytes end.
    pub closed spec fn end(&self) -> int {
        self.end as int
    }

    /// The code of the reply that is being read, once its first line has
    /// been taken.
    pub closed spec fn reply_code(&self) -> Option<u16> {
        self.code
    }

    /// The texts of the lines that have been taken of the reply that is
    /// being read, as they lie in the buffer.
    pub open spec fn taken_lines(&self) -> Seq<Seq<u8>> {
        if self.reply_code() is Some {
            reply::layout_lines(
                reply::le16(self.buffer()[2], self.buffer()[3]),
                self.buffer().subrange(4, self.start()),
            )
        } else {
            Seq::empty()
        }
    }

    /// All that has been read of the reply that is being read, as it stood
    /// on the wire: the lines that have been taken, and the pending bytes.
    pub open spec fn read_so_far(&self) -> Seq<u8> {
        match self.reply_code() {
            Some(code) => wire::dashed_bytes(code, self.taken_lines()) + self.pending(),
            None => self.pending(),
        }
    }

    /// A reply is being read: the lines that have been taken of it, all
    /// with a dash and with the same code, lie in the front of the buffer
    /// as a chain of texts, and the pending bytes follow them.
    pub open spec fn reading(&self) -> bool {
        &&& self.wf()
        &&& match self.reply_code() {
            None => self.start() == 0,
            Some(code) => {
                &&& code < 1000
                &&& 6 <= self.start()
                &&& reply::layout_closed(
                    reply::le16(self.buffer()[2], self.buffer()[3]),
                    self.buffer().subrange(4, self.start()),
                )
                &&& forall|i: int|
                    0 <= i < self.taken_lines().len() ==> wire::is_text(
                        #[trigger] self.taken_lines()[i],
                    )
                &&& wire::dashed_bytes(code, self.taken_lines()).len() == self.start()
            },
        }
    }

    /// A whole reply lies parsed in the front of the buffer, up to where the
    /// pending bytes begin.
    pub open spec fn complete(&self) -> bool {
        &&& self.wf()
        &&& reply::region_ok(self.buffer().subrange(0, self.start()))
    }

    /// The bytes read from the stream and not yet parsed.
    pub open spec fn pending(&self) -> Seq<u8> {
        self.buffer().subrange(self.start(), self.end())
    }

    /// What a step of the reader that leads from `self` to `later` had to
    /// work on: what was pending, and what came in.
    pub open spec fn input(&self, later: &Self) -> Seq<u8> {
        self.pending() + got(self.stream(), later.stream())
    }

    /// `later` is `self` after a step of the reader: the stream has been
    /// read from and not written to, and what came in lies at the end of
    /// what the buffer held.
    pub open spec fn reads_to(&self, later: &Self) -> bool {
        &&& later.wf()
        &&& later.capacity() == self.capacity()
        &&& read_on(self.stream(), later.stream())
        &&& later.end() == self.end() + got(self.stream(), later.stream()).len()
    }

    /// `later` is `self` after writing `bytes` with the outcome `r`: the
    /// buffer is as it was and nothing has been read. If all went well the
    /// stream has taken `bytes`; if not, it has failed, with the error
    /// that `r` bears.
    pub open spec fn writes_to(
        &self,
        later: &Self,
        r: Result<(), Error<T::Error>>,
        bytes: Seq<u8>,
    ) -> bool {
        &&& later.wf()
        &&& later.buffer() == self.buffer()
        &&& later.start() == self.start()
        &&& later.end() == self.end()
        &&& later.stream().received() == self.stream().received()
        &&& match r {
            Ok(()) => later.stream().sent() == self.stream().sent() + bytes,
            Err(e) => e is IoError && borne_out(later.stream(), e),
        }
    }

    /// The first `n` bytes of the buffer are in `later` what they are in
    /// `self`.
    pub open spec fn keeps(&self, later: &Self, n: int) -> bool {
        later.buffer().subrange(0, n) == self.buffer().subrange(0, n)
    }

    /// A session with a buffer of its own, of 1024 bytes.
    pub fn new(stream: T) -> (smtp: Smtp<'static, T>)
        ensures
            smtp.wf(),
            smtp.stream() == stream,
            smtp.capacity() == 1024,
            smtp.storage() is Owned,
            forall|i: int| 0 <= i < 1024 ==> smtp.buffer()[i] == 0,
            smtp.start() == 0,
            smtp.end() == 0,
            smtp.reply_code() is None,
    {
        Smtp { stream, buf: Buffer::from(vec![0u8; 1024]), start: 0, end: 0, code: None }
    }

    /// A session that owns `buffer`, with nothing read yet.
    pub fn new_with_buffer<B: Into<Buffer<'a>>>(stream: T, buffer: B) -> (smtp: Self)
        ensures
            smtp.wf(),
            smtp.stream() == stream,
            call_ensures(B::into, (buffer,), smtp.storage()),
            smtp.start() == 0,
            smtp.end() == 0,
            smtp.reply_code() is None,
    {
        Smtp { stream, buf: buffer.into(), start: 0, end: 0, code: None }
    }

    /// Ends the session and hands back the stream and the buffer, as for an
    /// upgrade of the stream to TLS.
    pub fn into_inner(self) -> (parts: (T, Buffer<'a>))
        ensures
            parts.0 == self.stream(),
            parts.1 == self.storage(),
    {
        (self.stream, self.buf)
    }

    /// Reads once from the stream into the free end of the buffer: what
    /// comes in is pending behind what was. It is an error if the buffer
    /// is full, and if nothing comes in.
    pub fn fill_buffer(&mut self) -> (r: Result<(), Error<T::Error>>)
        requires
            old(self).wf(),
        ensures
            final(self).wf(),
            final(self).capacity() == old(self).capacity(),
            final(self).start() == old(self).start(),
            final(self).reply_code() == old(self).reply_code(),
            final(self).stream().sent() == old(self).stream().sent(),
            old(self).keeps(final(self), old(self).end()),
            match r {
                Ok(()) => {
                    &&& final(self).end() > old(self).end()
                    &&& final(self).stream().received() == old(self).stream().received()
                        + final(self).buffer().subrange(old(self).end(), final(self).end())
                },
                Err(e) => {
                    &&& final(self).end() == old(self).end()
                    &&& final(self).stream().received() == old(self).stream().received()
                    &&& starved(e, old(self).end() == old(self).capacity())
                    &&& e is ProtocolError <==> old(self).end() == old(self).capacity()
                    &&& borne_out(final(self).stream(), e)
                },
            },
    {
        let cap = self.buf.len();
        if self.end == cap {
            return Err(Error::ProtocolError(ProtocolError::LineTooLong));
        }
        let end = self.end;
        let ghost before = self.buf@;
        let whole = self.buf.as_mut_slice();
        let (_, tail) = whole.split_at_mut(end);
        let r = self.stream.read(tail);
        proof {
            assert(self.buf@.subrange(0, end as int) == before.subrange(0, end as int));
            let heard = old(self).stream().received();
            assert(heard + Seq::<u8>::empty() =~= heard);
            if r is Ok {
                let n = r->Ok_0;
                assert(self.buf@.subrange(end as int, end + n) =~= self.buf@.subrange(
                    end as int,
                    cap as int,
                ).subrange(0, n as int));
            }
        }
        self.note_read(r)
    }

    /// Takes note of what a read into the free end of the buffer came to.
    /// The bytes that it brought are pending behind what was. A read that
    /// brought nothing has found the stream at its end, where more bytes
    /// were due: that is an error. An error of the stream is handed on as
    /// it is.
    pub fn note_read(&mut self, read: Result<usize, T::Error>) -> (r: Result<
        (),
        Error<T::Error>,
    >)
        requires
            old(self).wf(),
            read matches Ok(n) ==> old(self).end() + n <= old(self).capacity(),
        ensures
            final(self).wf(),
            final(self).stream() == old(self).stream(),
            final(self).storage() == old(self).storage(),
            final(self).start() == old(self).start(),
            final(self).reply_code() == old(self).reply_code(),
            match read {
                Ok(n) => {
                    &&& final(self).end() == old(self).end() + n
                    &&& if n == 0 {
                        r matches Err(Error::MalformedError(MalformedError::UnexpectedEof))
                    } else {
                        r is Ok
                    }
                },
                Err(e) => {
                    &&& final(self).end() == old(self).end()
                    &&& r matches Err(Error::IoError(f)) && f == e
                },
            },
    {
        match read {
            Ok(n) => {
                if n == 0 {
                    return Err(Error::MalformedError(MalformedError::UnexpectedEof));
                }
                // The end stays within the buffer, whose size is a `usize`.
                let _ = self.buf.len();
                self.end = self.end + n;
                Ok(())
            },
            Err(e) => Err(Error::IoError(e)),
        }
    }

    /// Looks for the end of the line among the pending bytes. A line end that
    /// is found is consumed, and the range of the text before it returned.
    pub fn buffer_contains_terminator(&mut self) -> (r: Result<
        Option<core::ops::Range<usize>>,
        Error<T::Error>,
    >)
        requires
            old(self).wf(),
        ensures
            final(self).wf(),
            final(self).stream() == old(self).stream(),
            final(self).buffer() == old(self).buffer(),
            final(self).end() == old(self).end(),
            final(self).reply_code() == old(self).reply_code(),
            match wire::scan(old(self).pending(), 0) {
                wire::Scan::Found(i) => {
                    &&& r matches Ok(Some(range))
                    &&& range.start == old(self).start()
                    &&& range.end == old(self).start() + i
                    &&& final(self).start() == old(self).start() + i + 2
                },
                wire::Scan::Bad => {
                    &&& r matches Err(Error::MalformedError(MalformedError::InvalidLineTermination))
                    &&& final(self).start() == old(self).start()
                },
                wire::Scan::NeedMore => {
                    &&& r matches Ok(None)
                    &&& final(self).start() == old(self).start()
                },
            },
    {
        let start = self.start;
        let buf = slice_subrange(self.buf.as_slice(), start, self.end);
        let mut idx: usize = 0;
        while idx < buf.len()
            invariant
                self.wf(),
                *self == *old(self),
                start == self.start,
                buf@ == self.pending(),
                idx <= buf@.len(),
                wire::scan(buf@, 0) == wire::scan(buf@, idx as int),
            decreases buf@.len() - idx,
        {
            let byte = buf[idx];
            if byte == wire::CR {
                if idx + 1 == buf.len() {
                    return Ok(None);
                } else if buf[idx + 1] == wire::LF {
                    self.start = start + idx + 2;
                    return Ok(Some(start..start + idx));
                } else {
                    return Err(Error::MalformedError(MalformedError::InvalidLineTermination));
                }
            }
            if byte == wire::LF {
                return Err(Error::MalformedError(MalformedError::InvalidLineTermination));
            }
            idx = idx + 1;
        }
        Ok(None)
    }

    /// Reads the line that the pending bytes begin with, if they hold all
    /// of it. This does not touch the stream: what it makes of the pending
    /// bytes is what the grammar says of them.
    ///
    /// A line that is all there is taken: the pending bytes begin behind
    /// its line end then, and the length of its text is stored in the two
    /// bytes before the text, which held the end of the line's code and its
    /// marker. `Ok(None)` says that the line is not all there yet. Then,
    /// and where the line is refused, nothing has changed.
    pub fn poll_line(&mut self) -> (r: Result<Option<Head>, Error<T::Error>>)
        requires
            old(self).wf(),
        ensures
            final(self).wf(),
            final(self).stream() == old(self).stream(),
            final(self).capacity() == old(self).capacity(),
            final(self).end() == old(self).end(),
            final(self).reply_code() == old(self).reply_code(),
            match wire::line_outcome(old(self).pending()) {
                wire::Outcome::Incomplete => {
                    &&& r matches Ok(None)
                    &&& final(self).start() == old(self).start()
                    &&& final(self).buffer() == old(self).buffer()
                },
                wire::Outcome::Malformed(m) => {
                    &&& r matches Err(Error::MalformedError(n)) && n == m
                    &&& final(self).start() == old(self).start()
                    &&& final(self).buffer() == old(self).buffer()
                },
                wire::Outcome::TooLong => {
                    &&& r matches Err(Error::ProtocolError(ProtocolError::LineTooLong))
                    &&& final(self).start() == old(self).start()
                    &&& final(self).buffer() == old(self).buffer()
                },
                wire::Outcome::Done(l) => {
                    &&& r matches Ok(Some(head))
                    &&& head.code == l.code
                    &&& head.is_last == l.is_last
                    &&& head.from == old(self).start() + 4
                    &&& head.to == head.from + l.text.len()
                    &&& final(self).start() == old(self).start() + l.len
                    &&& final(self).buffer() == old(self).buffer().update(
                        old(self).start() + 2,
                        (l.text.len() % 256) as u8,
                    ).update(old(self).start() + 3, (l.text.len() / 256) as u8)
                },
            },
    {
        let line = self.start;
        let left = self.end - line;
        let ghost pending = self.pending();
        if left < 3 {
            return Ok(None);
        }
        let bytes = self.buf.as_slice();
        let d0 = bytes[line];
        let d1 = bytes[line + 1];
        let d2 = bytes[line + 2];
        if !(48 <= d0 && d0 <= 57 && 48 <= d1 && d1 <= 57 && 48 <= d2 && d2 <= 57) {
            return Err(Error::MalformedError(MalformedError::NoCode));
        }
        if left < 4 {
            return Ok(None);
        }
        let marker = bytes[line + 3];
        if marker != wire::SPACE && marker != wire::DASH {
            return Err(Error::MalformedError(MalformedError::InvalidEncoding));
        }
        let code = (d0 - 48) as u16 * 100 + (d1 - 48) as u16 * 10 + (d2 - 48) as u16;
        self.start = line + 4;
        proof {
            assert(self.pending() =~= pending.subrange(4, pending.len() as int));
        }
        let found = self.buffer_contains_terminator();
        let text = match found {
            Ok(Some(text)) => text,
            Ok(None) => {
                self.start = line;
                return Ok(None);
            },
            Err(e) => {
                self.start = line;
                return Err(e);
            },
        };
        proof {
            wire::scan_found_is_stable(pending.subrange(4, pending.len() as int), 0, Seq::empty());
        }
        let len = text.end - text.start;
        if len > wire::MAX_TEXT {
            self.start = line;
            return Err(Error::ProtocolError(ProtocolError::LineTooLong));
        }
        let slice = slice_subrange(self.buf.as_slice(), text.start, text.end);
        proof {
            assert(slice@ =~= pending.subrange(4, pending.len() as int).subrange(0, len as int));
        }
        if core::str::from_utf8(slice).is_err() {
            self.start = line;
            return Err(Error::MalformedError(MalformedError::InvalidEncoding));
        }
        let whole = self.buf.as_mut_slice();
        whole[line + 2] = (len % 256) as u8;
        whole[line + 3] = (len / 256) as u8;
        Ok(Some(Head { code, is_last: marker == wire::SPACE, from: text.start, to: text.end }))
    }

    /// Reads one line of a reply from the pending bytes and the stream:
    /// it reads from the stream until the pending bytes hold a line, or
    /// cannot come to hold one.
    ///
    /// Whatever the stream delivers, the answer is the one that the grammar
    /// gives to the bytes the line was read from. Where the pending bytes
    /// settle the answer, the stream is left alone.
    pub fn read_line(&mut self) -> (r: Result<ReplyLine<'_>, Error<T::Error>>)
        requires
            old(self).wf(),
        ensures
            old(self).reads_to(final(self)),
            old(self).keeps(final(self), old(self).start()),
            !(wire::line_outcome(old(self).pending()) is Incomplete) ==> final(self).stream()
                == old(self).stream(),
            ({
                let input = old(self).input(final(self));
                match r {
                    Ok(line) => {
                        &&& wire::line_outcome(input) matches wire::Outcome::Done(l)
                        &&& line.code() == l.code
                        &&& line.is_last() == l.is_last
                        &&& line.message().spec_bytes() == l.text
                        &&& final(self).start() == old(self).start() + l.len
                        &&& final(self).pending() == input.subrange(l.len, input.len() as int)
                        &&& final(self).buffer()[old(self).start() + 2] == l.text.len() % 256
                        &&& final(self).buffer()[old(self).start() + 3] == l.text.len() / 256
                        &&& final(self).buffer().subrange(
                            old(self).start() + 4,
                            final(self).start() - 2,
                        ) == l.text
                    },
                    Err(e) => {
                        &&& explains(
                            wire::line_outcome(input),
                            final(self).end() == final(self).capacity(),
                            e,
                        )
                        &&& borne_out(final(self).stream(), e)
                    },
                }
            }),
    {
        let ghost mut g: Seq<u8> = Seq::empty();
        let mut found: Option<Head> = None;
        proof {
            assert(old(self).pending() + g =~= old(self).pending());
            assert(old(self).stream().received() + g =~= old(self).stream().received());
        }
        while found.is_none()
            invariant
                old(self).wf(),
                self.wf(),
                self.capacity() == old(self).capacity(),
                old(self).end() <= self.end(),
                old(self).keeps(&*self, old(self).start()),
                self.stream().sent() == old(self).stream().sent(),
                self.stream().received() == old(self).stream().received() + g,
                self.end() == old(self).end() + g.len(),
                self.stream() == old(self).stream() || wire::line_outcome(old(self).pending())
                    is Incomplete,
                g.len() == 0 || wire::line_outcome(old(self).pending()) is Incomplete,
                match found {
                    None => {
                        &&& self.start() == old(self).start()
                        &&& self.pending() == old(self).pending() + g
                        &&& old(self).keeps(&*self, old(self).end())
                    },
                    Some(head) => taken(*old(self), *self, g, head),
                },
            decreases
                    self.capacity() - self.end() + if found is None {
                        1int
                    } else {
                        0int
                    },
        {
            let ghost mid = *self;
            proof {
                lemma_got(old(self).stream(), self.stream(), g);
                lemma_front(old(self).buffer(), self.buffer(), old(self).start(), old(self).end());
            }
            match self.poll_line() {
                Err(e) => {
                    return Err(e);
                },
                Ok(Some(head)) => {
                    proof {
                        lemma_taken(*old(self), mid, *self, g, head);
                    }
                    found = Some(head);
                },
                Ok(None) => {
                    let r = self.fill_buffer();
                    proof {
                        lemma_fill_step(*old(self), mid, *self, g);
                    }
                    match r {
                        Ok(()) => {
                            proof {
                                g = g + self.buffer().subrange(mid.end(), self.end());
                                lemma_front(
                                    old(self).buffer(),
                                    self.buffer(),
                                    old(self).start(),
                                    old(self).end(),
                                );
                            }
                        },
                        Err(e) => {
                            proof {
                                lemma_got(old(self).stream(), self.stream(), g);
                                lemma_front(
                                    old(self).buffer(),
                                    self.buffer(),
                                    old(self).start(),
                                    old(self).end(),
                                );
                            }
                            return Err(e);
                        },
                    }
                },
            }
        }
        proof {
            lemma_got(old(self).stream(), self.stream(), g);
        }
        let head = match found {
            Some(head) => head,
            None => vstd::pervasive::unreached(),
        };
        let text = slice_subrange(self.buf.as_slice(), head.from, head.to);
        match core::str::from_utf8(text) {
            Ok(message) => Ok(ReplyLine::new(head.code, head.is_last, message)),
            Err(_) => vstd::pervasive::unreached(),
        }
    }
}

/// What a line begins with, and where its text lies in the buffer.
#[derive(Debug, Clone, Copy, PartialEq, Eq)]
pub struct Head {
    pub code: u16,
    pub is_last: bool,
    /// Where the text begins.
    pub from: usize,
    /// Where the text ends.
    pub to: usize,
}

/// From `first`, with `g` come in since, the line with the head `head` has
/// been taken, and `now` is what is left.
spec fn taken<T: ReadWrite>(first: Smtp<'_, T>, now: Smtp<'_, T>, g: Seq<u8>, head: Head) -> bool {
    let input = first.pending() + g;
    &&& wire::line_outcome(input) matches wire::Outcome::Done(l)
    &&& head.code == l.code
    &&& head.is_last == l.is_last
    &&& head.from == first.start() + 4
    &&& head.to == head.from + l.text.len()
    &&& head.to + 2 == now.start()
    &&& now.start() == first.start() + l.len
    &&& now.pending() == input.subrange(l.len, input.len() as int)
    &&& now.buffer()[first.start() + 2] == l.text.len() % 256
    &&& now.buffer()[first.start() + 3] == l.text.len() / 256
    &&& now.buffer().subrange(head.from as int, head.to as int) == l.text
    &&& vstd::utf8::valid_utf8(l.text)
}

/// A line that a poll has taken from what was pending is taken from what
/// was pending at first and has come in since.
proof fn lemma_taken<T: ReadWrite>(
    first: Smtp<'_, T>,
    mid: Smtp<'_, T>,
    now: Smtp<'_, T>,
    g: Seq<u8>,
    head: Head,
)
    requires
        first.wf(),
        mid.wf(),
        now.wf(),
        mid.start() == first.start(),
        mid.pending() == first.pending() + g,
        now.end() == mid.end(),
        first.keeps(&mid, first.start()),
        wire::line_outcome(mid.pending()) matches wire::Outcome::Done(l) && {
            &&& head.code == l.code
            &&& head.is_last == l.is_last
            &&& head.from == mid.start() + 4
            &&& head.to == head.from + l.text.len()
            &&& now.start() == mid.start() + l.len
            &&& now.buffer() == mid.buffer().update(
                mid.start() + 2,
                (l.text.len() % 256) as u8,
            ).update(mid.start() + 3, (l.text.len() / 256) as u8)
        },
    ensures
        taken(first, now, g, head),
        first.keeps(&now, first.start()),
{
    let input = mid.pending();
    let l = wire::line_outcome(input)->Done_0;
    wire::line_done_is_stable(input, Seq::empty());
    assert(now.pending() =~= input.subrange(l.len, input.len() as int));
    assert(now.buffer().subrange(head.from as int, head.to as int) =~= input.subrange(
        4,
        l.len - 2,
    ));
    assert(now.buffer().subrange(0, first.start()) =~= mid.buffer().subrange(0, first.start()));
}

/// What the line that the pending bytes begin with makes of the reply that
/// is being read.
proof fn lemma_reply_outcome<T: ReadWrite>(b: Smtp<'_, T>)
    requires
        b.reading(),
    ensures
        b.read_so_far().len() == b.end(),
        match wire::line_outcome(b.pending()) {
            wire::Outcome::Done(l) => {
                let code = match b.reply_code() {
                    Some(code) => code,
                    None => l.code,
                };
                if l.code != code {
                    wire::reply_outcome(b.read_so_far()) == wire::Outcome::<
                        wire::Parsed,
                    >::Malformed(MalformedError::CodeChanged { old_code: code, new_code: l.code })
                } else if l.is_last {
                    wire::reply_outcome(b.read_so_far()) == wire::Outcome::Done(
                        wire::Parsed {
                            code,
                            lines: b.taken_lines().push(l.text),
                            len: b.start() + l.len,
                        },
                    )
                } else {
                    true
                }
            },
            wire::Outcome::Incomplete => wire::reply_outcome(b.read_so_far()) is Incomplete,
            wire::Outcome::Malformed(m) => wire::reply_outcome(b.read_so_far())
                == wire::Outcome::<wire::Parsed>::Malformed(m),
            wire::Outcome::TooLong => wire::reply_outcome(b.read_so_far()) is TooLong,
        },
{
    let pending = b.pending();
    match b.reply_code() {
        None => {
            let code = match wire::line_outcome(pending) {
                wire::Outcome::Done(l) => l.code,
                _ => 0,
            };
            let none = Seq::<u8>::empty();
            assert(none + pending =~= pending);
            assert(none.subrange(0, 0) =~= none);
            assert(pending.subrange(0, pending.len() as int) =~= pending);
            wire::reply_step(none, pending, 0, code);
            assert(Seq::<Seq<u8>>::empty().push(wire::line_outcome(pending)->Done_0.text)
                =~= b.taken_lines().push(wire::line_outcome(pending)->Done_0.text));
        },
        Some(code) => {
            let laid = wire::dashed_bytes(code, b.taken_lines());
            let raw = laid + pending;
            wire::dashed_read_back(code, b.taken_lines());
            assert(laid.subrange(0, laid.len() as int) =~= laid);
            assert(raw.subrange(laid.len() as int, raw.len() as int) =~= pending);
            wire::reply_step(laid, pending, laid.len() as int, code);
        },
    }
}

/// A line that is taken from the pending bytes joins the lines of the reply
/// that is being read: `n` is `b` with the line taken and its code noted.
proof fn lemma_line_joins<T: ReadWrite>(b: Smtp<'_, T>, n: Smtp<'_, T>)
    requires
        b.reading(),
        n.wf(),
        n.end() == b.end(),
        wire::line_outcome(b.pending()) matches wire::Outcome::Done(l) && {
            &&& n.start() == b.start() + l.len
            &&& n.buffer() == b.buffer().update(
                b.start() + 2,
                (l.text.len() % 256) as u8,
            ).update(b.start() + 3, (l.text.len() / 256) as u8)
            &&& n.reply_code() == Some(l.code)
            &&& b.reply_code() matches Some(code) ==> code == l.code
        },
    ensures
        n.reading(),
        n.taken_lines() == b.taken_lines().push(wire::line_outcome(b.pending())->Done_0.text),
        !wire::line_outcome(b.pending())->Done_0.is_last ==> n.read_so_far() == b.read_so_far(),
{
    let pending = b.pending();
    let l = wire::line_outcome(pending)->Done_0;
    let text = l.text;
    wire::line_is_its_bytes(pending);
    wire::line_done_is_stable(pending, Seq::empty());
    let ext = n.buffer().subrange(b.start(), n.start());
    assert(ext.subrange(4, 4 + text.len() as int) =~= text);
    assert(reply::le16(ext[2], ext[3]) == text.len());
    let lines = b.taken_lines();
    let grown = lines.push(text);
    match b.reply_code() {
        None => {
            let rem = n.buffer().subrange(4, n.start());
            assert(rem.subrange(0, text.len() as int) =~= text);
            reply::layout_closed_first(rem, text);
            assert(grown =~= seq![text]);
        },
        Some(code) => {
            let rem = b.buffer().subrange(4, b.start());
            assert(n.buffer().subrange(4, n.start()) =~= rem + ext);
            reply::layout_closed_push(reply::le16(b.buffer()[2], b.buffer()[3]), rem, ext, text);
        },
    }
    let laid = wire::dashed_bytes(l.code, lines);
    wire::dashed_push(l.code, lines, text, n.pending());
    assert(laid.len() == b.start());
    assert(n.pending() =~= pending.subrange(l.len, pending.len() as int));
    if !l.is_last {
        assert(pending =~= wire::line_bytes(l.code, false, text) + n.pending());
        if b.reply_code() is None {
            assert(laid + pending =~= pending);
        }
    }
}

/// With its code written in front of them, the lines that were taken are a
/// whole parsed reply.
proof fn lemma_reply_closed<T: ReadWrite>(c: Smtp<'_, T>, n: Smtp<'_, T>, code: u16)
    requires
        c.reading(),
        c.reply_code() == Some(code),
        n.wf(),
        n.start() == c.start(),
        n.buffer() == c.buffer().update(0, (code % 256) as u8).update(1, (code / 256) as u8),
    ensures
        n.complete(),
        reply::region_code(n.buffer().subrange(0, n.start())) == code,
        reply::region_lines(n.buffer().subrange(0, n.start())) == c.taken_lines(),
        c.taken_lines().len() >= 1,
{
    let rem = c.buffer().subrange(4, c.start());
    let region = n.buffer().subrange(0, n.start());
    assert(region.subrange(4, region.len() as int) =~= rem);
    reply::layout_closed_is_ok(reply::le16(c.buffer()[2], c.buffer()[3]), rem);
}

/// What a read brings is read behind what was read of the reply.
proof fn lemma_reply_fed<T: ReadWrite>(b: Smtp<'_, T>, n: Smtp<'_, T>)
    requires
        b.reading(),
        n.wf(),
        n.capacity() == b.capacity(),
        n.start() == b.start(),
        n.reply_code() == b.reply_code(),
        b.end() <= n.end(),
        b.keeps(&n, b.end()),
    ensures
        n.reading(),
        n.taken_lines() == b.taken_lines(),
        n.read_so_far() == b.read_so_far() + n.buffer().subrange(b.end(), n.end()),
{
    let chunk = n.buffer().subrange(b.end(), n.end());
    lemma_front(b.buffer(), n.buffer(), b.start(), b.end());
    assert(b.pending() =~= b.buffer().subrange(0, b.end()).subrange(b.start(), b.end()));
    assert(n.buffer().subrange(n.start(), b.end()) =~= n.buffer().subrange(
        0,
        b.end(),
    ).subrange(b.start(), b.end()));
    assert(n.pending() =~= b.pending() + chunk);
    if b.reply_code() is Some {
        assert(n.buffer().subrange(4, n.start()) =~= n.buffer().subrange(0, b.start()).subrange(
            4,
            b.start(),
        ));
        assert(b.buffer().subrange(4, b.start()) =~= b.buffer().subrange(0, b.start()).subrange(
            4,
            b.start(),
        ));
        assert(n.buffer()[2] == n.buffer().subrange(0, b.start())[2]);
        assert(n.buffer()[3] == n.buffer().subrange(0, b.start())[3]);
        let laid = wire::dashed_bytes(b.reply_code()->Some_0, b.taken_lines());
        assert(laid + (b.pending() + chunk) =~= (laid + b.pending()) + chunk);
    }
}

impl<'a, T: ReadWrite> Smtp<'a, T> {
    /// Makes ready to read a reply: what was pending is dropped, so a reply
    /// read earlier must not be in use any more.
    pub fn begin_reply(&mut self)
        requires
            old(self).wf(),
        ensures
            final(self).reading(),
            final(self).reply_code() is None,
            final(self).start() == 0,
            final(self).end() == 0,
            final(self).stream() == old(self).stream(),
            final(self).buffer() == old(self).buffer(),
    {
        self.start = 0;
        self.end = 0;
        self.code = None;
    }

    /// Reads on in the reply that is being read, as far as the pending bytes
    /// go, without touching the stream: what it makes of the bytes read so
    /// far is what the grammar says of them.
    ///
    /// `Ok(true)` says that the reply is whole: it lies parsed in the front
    /// of the buffer, for `reply` to hand out. `Ok(false)` says that more
    /// bytes are needed; the lines that are whole have been taken.
    pub fn poll_reply(&mut self) -> (r: Result<bool, Error<T::Error>>)
        requires
            old(self).reading(),
        ensures
            final(self).wf(),
            final(self).stream() == old(self).stream(),
            final(self).capacity() == old(self).capacity(),
            final(self).end() == old(self).end(),
            match wire::reply_outcome(old(self).read_so_far()) {
                wire::Outcome::Incomplete => {
                    &&& r matches Ok(false)
                    &&& final(self).reading()
                    &&& final(self).read_so_far() == old(self).read_so_far()
                },
                wire::Outcome::Malformed(m) => r matches Err(Error::MalformedError(n)) && n == m,
                wire::Outcome::TooLong => r matches Err(
                    Error::ProtocolError(ProtocolError::LineTooLong),
                ),
                wire::Outcome::Done(parsed) => {
                    &&& r matches Ok(true)
                    &&& final(self).complete()
                    &&& final(self).start() == parsed.len
                    &&& reply::region_code(final(self).buffer().subrange(0, parsed.len))
                        == parsed.code
                    &&& reply::region_lines(final(self).buffer().subrange(0, parsed.len))
                        == parsed.lines
                    &&& parsed.lines.len() >= 1
                },
            },
    {
        loop
            invariant
                self.reading(),
                self.stream() == old(self).stream(),
                self.capacity() == old(self).capacity(),
                self.end() == old(self).end(),
                self.read_so_far() == old(self).read_so_far(),
            decreases self.end() - self.start(),
        {
            let ghost b = *self;
            proof {
                lemma_reply_outcome(b);
                if wire::line_outcome(b.pending()) is Done {
                    wire::line_is_its_bytes(b.pending());
                    wire::line_done_is_stable(b.pending(), Seq::empty());
                }
            }
            let head = match self.poll_line() {
                Ok(Some(head)) => head,
                Ok(None) => {
                    return Ok(false);
                },
                Err(e) => {
                    return Err(e);
                },
            };
            let code = match self.code {
                Some(code) => code,
                None => head.code,
            };
            if head.code != code {
                return Err(
                    Error::MalformedError(
                        MalformedError::CodeChanged { old_code: code, new_code: head.code },
                    ),
                );
            }
            self.code = Some(code);
            proof {
                lemma_line_joins(b, *self);
            }
            if head.is_last {
                let ghost c = *self;
                let whole = self.buf.as_mut_slice();
                whole[0] = (code % 256) as u8;
                whole[1] = (code / 256) as u8;
                self.code = None;
                proof {
                    lemma_reply_closed(c, *self, code);
                }
                return Ok(true);
            }
        }
    }

    /// The reply that lies parsed in the front of the buffer.
    pub fn reply(&self) -> (reply: Reply<'_>)
        requires
            self.complete(),
        ensures
            reply.code() == reply::region_code(self.buffer().subrange(0, self.start())),
            reply@ == reply::region_lines(self.buffer().subrange(0, self.start())),
            reply.bytes() == self.buffer().subrange(4, self.start()),
    {
        let region = slice_subrange(self.buf.as_slice(), 0, self.start);
        proof {
            assert(region@.subrange(4, region@.len() as int) =~= self.buffer().subrange(
                4,
                self.start(),
            ));
        }
        Reply::from_buffer(region)
    }

    /// Reads one whole reply from the stream, and hands it out as it lies in
    /// the buffer.
    ///
    /// What was pending is dropped first, so a reply read earlier must not
    /// be in use any more. Whatever the stream delivers, the answer is the
    /// one that the grammar gives to the bytes received in this call: the
    /// reply they spell, or the error that they, the end of the stream, its
    /// failure or the end of the buffer call for.
    pub fn read_multiline_reply(&mut self) -> (r: Result<Reply<'_>, Error<T::Error>>)
        requires
            old(self).wf(),
        ensures
            final(self).wf(),
            final(self).capacity() == old(self).capacity(),
            read_on(old(self).stream(), final(self).stream()),
            final(self).end() == got(old(self).stream(), final(self).stream()).len(),
            ({
                let raw = got(old(self).stream(), final(self).stream());
                let outcome = wire::reply_outcome(raw);
                match r {
                    Ok(reply) => {
                        &&& outcome matches wire::Outcome::Done(parsed)
                        &&& reply.code() == parsed.code
                        &&& reply@ == parsed.lines
                        &&& parsed.lines.len() >= 1
                        &&& final(self).start() == parsed.len
                        &&& reply.bytes() == final(self).buffer().subrange(4, parsed.len)
                    },
                    Err(e) => {
                        &&& explains(outcome, raw.len() == final(self).capacity(), e)
                        &&& borne_out(final(self).stream(), e)
                    },
                }
            }),
    {
        self.begin_reply();
        proof {
            lemma_got(old(self).stream(), self.stream(), Seq::empty());
            assert(self.pending() =~= Seq::<u8>::empty());
            assert(old(self).stream().received() + Seq::<u8>::empty() =~= old(
                self,
            ).stream().received());
        }
        loop
            invariant
                self.reading(),
                self.capacity() == old(self).capacity(),
                read_on(old(self).stream(), self.stream()),
                self.read_so_far() == got(old(self).stream(), self.stream()),
                self.end() == got(old(self).stream(), self.stream()).len(),
            decreases self.capacity() - self.end(),
        {
            proof {
                wire::reply_refusals(self.read_so_far());
            }
            match self.poll_reply() {
                Err(e) => {
                    return Err(e);
                },
                Ok(true) => {
                    return Ok(self.reply());
                },
                Ok(false) => {},
            }
            let ghost mid = *self;
            let r = self.fill_buffer();
            proof {
                lemma_reply_fed(mid, *self);
                let chunk = self.buffer().subrange(mid.end(), self.end());
                if r is Ok {
                    lemma_got(mid.stream(), self.stream(), chunk);
                } else {
                    let heard = mid.stream().received();
                    assert(heard + Seq::<u8>::empty() =~= heard);
                    lemma_got(mid.stream(), self.stream(), Seq::empty());
                    assert(self.read_so_far() =~= mid.read_so_far());
                }
                lemma_got_chain(old(self).stream(), mid.stream(), self.stream());
            }
            match r {
                Ok(()) => {},
                Err(e) => {
                    return Err(e);
                },
            }
        }
    }
}

/// The bytes that `stage_plain` lays are the PLAIN message.
proof fn lemma_plain_laid(
    named: Seq<u8>,
    parted: Seq<u8>,
    laid: Seq<u8>,
    user: Seq<u8>,
    password: Seq<u8>,
)
    requires
        2 + user.len() + password.len() <= named.len(),
        named.len() == laid.len(),
        named[0] == 0,
        named.subrange(1, 1 + user.len() as int) == user,
        parted == named.update(1 + user.len() as int, 0u8),
        laid.subrange(0, 2 + user.len() as int) == parted.subrange(0, 2 + user.len() as int),
        laid.subrange(2 + user.len() as int, 2 + user.len() as int + password.len() as int)
            == password,
    ensures
        laid.subrange(0, 2 + user.len() as int + password.len() as int) == sasl::plain_message(
            user,
            password,
        ),
{
    let u = user.len() as int;
    let n = 2 + u + password.len();
    let message = sasl::plain_message(user, password);
    assert forall|i: int| 0 <= i < n implies laid.subrange(0, n)[i] == message[i] by {
        if i < 2 + u {
            assert(laid[i] == laid.subrange(0, 2 + u)[i]);
            assert(parted[i] == parted.subrange(0, 2 + u)[i]);
            if 1 <= i < 1 + u {
                assert(named[i] == named.subrange(1, 1 + u)[i - 1]);
            }
        } else {
            assert(laid[i] == laid.subrange(2 + u, n)[i - 2 - u]);
        }
    }
    assert(laid.subrange(0, n) =~= message);
}

/// Copies `src` into `dst` from `at` on.
fn copy_into(dst: &mut [u8], at: usize, src: &[u8])
    requires
        at + src@.len() <= old(dst)@.len(),
    ensures
        final(dst)@.len() == old(dst)@.len(),
        final(dst)@.subrange(0, at as int) == old(dst)@.subrange(0, at as int),
        final(dst)@.subrange(at as int, at + src@.len()) == src@,
        final(dst)@.subrange(at + src@.len(), final(dst)@.len() as int) == old(dst)@.subrange(
            at + src@.len(),
            old(dst)@.len() as int,
        ),
{
    let size = dst.len();
    let mut i: usize = 0;
    while i < src.len()
        invariant
            i <= src@.len(),
            size == dst@.len(),
            at + src@.len() <= dst@.len(),
            dst@.len() == old(dst)@.len(),
            dst@.subrange(0, at as int) == old(dst)@.subrange(0, at as int),
            dst@.subrange(at as int, at + i) == src@.subrange(0, i as int),
            dst@.subrange(at + src@.len(), dst@.len() as int) == old(dst)@.subrange(
                at + src@.len(),
                old(dst)@.len() as int,
            ),
        decreases src@.len() - i,
    {
        let ghost before = dst@;
        dst[at + i] = src[i];
        proof {
            assert(dst@.subrange(0, at as int) =~= before.subrange(0, at as int));
            assert(dst@.subrange(at as int, at + i + 1) =~= before.subrange(at as int, at + i).push(
                src@[i as int],
            ));
            assert(src@.subrange(0, i + 1) =~= src@.subrange(0, i as int).push(src@[i as int]));
            assert(dst@.subrange(at + src@.len(), dst@.len() as int) =~= before.subrange(
                at + src@.len(),
                before.len() as int,
            ));
        }
        i = i + 1;
    }
    proof {
        assert(src@.subrange(0, src@.len() as int) =~= src@);
    }
}

impl<'a, T: ReadWrite> Smtp<'a, T> {
    /// Writes `parts` to the stream, one after the other.
    pub(crate) fn send(&mut self, parts: &[&[u8]]) -> (r: Result<(), Error<T::Error>>)
        requires
            old(self).wf(),
        ensures
            old(self).writes_to(final(self), r, crate::stream::concat(parts@)),
    {
        match self.stream.write_multi(parts) {
            Ok(()) => Ok(()),
            Err(e) => Err(Error::IoError(e)),
        }
    }

    /// Writes `bytes` to the stream.
    pub(crate) fn send_one(&mut self, bytes: &[u8]) -> (r: Result<(), Error<T::Error>>)
        requires
            old(self).wf(),
        ensures
            old(self).writes_to(final(self), r, bytes@),
    {
        match self.stream.write_single(bytes) {
            Ok(()) => Ok(()),
            Err(e) => Err(Error::IoError(e)),
        }
    }

    /// Writes `head`, then the `len` bytes of the buffer from `at` on, then
    /// `tail`.
    pub(crate) fn send_from_buffer(
        &mut self,
        head: &[u8],
        at: usize,
        len: usize,
        tail: &[u8],
    ) -> (r: Result<(), Error<T::Error>>)
        requires
            old(self).wf(),
            at + len <= old(self).capacity(),
        ensures
            old(self).writes_to(
                final(self),
                r,
                head@ + old(self).buffer().subrange(at as int, at + len) + tail@,
            ),
    {
        let cap = self.buf.len();
        let body = slice_subrange(self.buf.as_slice(), at, at + len);
        proof {
            crate::stream::concat_three(head, body, tail);
        }
        let parts: [&[u8]; 3] = [head, body, tail];
        assert(parts@ =~= seq![head, body, tail]);
        match self.stream.write_multi(&parts) {
            Ok(()) => Ok(()),
            Err(e) => Err(Error::IoError(e)),
        }
    }

    /// Lays the PLAIN message of `user` and `password` at the front of the
    /// buffer and its base64 form right behind it, and returns where that
    /// form lies and how long it is. Returns `None`, and leaves the buffer
    /// as it is, where the buffer has no room for both.
    pub(crate) fn stage_plain(&mut self, user: &[u8], password: &[u8]) -> (r: Option<
        (usize, usize),
    >)
        requires
            old(self).wf(),
        ensures
            final(self).wf(),
            final(self).capacity() == old(self).capacity(),
            final(self).stream() == old(self).stream(),
            ({
                let plain = sasl::plain_message(user@, password@);
                let room = plain.len() + sasl::base64_len(plain.len() as int);
                match r {
                    Some((at, len)) => {
                        &&& at == plain.len()
                        &&& len == sasl::base64_len(plain.len() as int)
                        &&& room <= final(self).capacity()
                        &&& final(self).buffer().subrange(at as int, at + len)
                            == sasl::base64_standard(plain)
                    },
                    None => {
                        &&& room > old(self).capacity()
                        &&& final(self).buffer() == old(self).buffer()
                    },
                }
            }),
    {
        let cap = self.buf.len();
        if cap < 2 || user.len() > cap - 2 || password.len() > cap - 2 - user.len() {
            return None;
        }
        let plain_len = 2 + user.len() + password.len();
        let len = match sasl::encoded_len_within(plain_len, cap - plain_len) {
            Some(len) => len,
            None => {
                return None;
            },
        };
        let whole = self.buf.as_mut_slice();
        whole[0] = 0;
        let ghost zeroed = whole@;
        copy_into(whole, 1, user);
        let ghost named = whole@;
        assert(named[0] == named.subrange(0, 1)[0] && zeroed[0] == zeroed.subrange(0, 1)[0]);
        whole[1 + user.len()] = 0;
        let ghost parted = whole@;
        copy_into(whole, 2 + user.len(), password);
        proof {
            lemma_plain_laid(named, parted, whole@, user@, password@);
        }
        let (plain, out) = whole.split_at_mut(plain_len);
        match sasl::encode_base64(plain, out) {
            Ok(n) => {
                proof {
                    assert(self.buffer().subrange(plain_len as int, plain_len + n)
                        =~= self.buffer().subrange(plain_len as int, cap as int).subrange(
                        0,
                        n as int,
                    ));
                }
                Some((plain_len, n))
            },
            Err(_) => vstd::pervasive::unreached(),
        }
    }
}

/// What a stream has received since `before` is what `after` has beyond it.
proof fn lemma_got<T: ReadWrite>(before: T, after: T, g: Seq<u8>)
    requires
        after.received() == before.received() + g,
        after.sent() == before.sent(),
    ensures
        got(before, after) == g,
        read_on(before, after),
{
    assert((before.received() + g).skip(before.received().len() as int) =~= g);
    assert((before.received() + g).subrange(0, before.received().len() as int)
        =~= before.received());
}

/// What is received over two stretches is what is received over the first,
/// then over the second.
proof fn lemma_got_chain<T: ReadWrite>(a: T, b: T, c: T)
    requires
        read_on(a, b),
        read_on(b, c),
    ensures
        read_on(a, c),
        got(a, c) == got(a, b) + got(b, c),
{
    assert(c.received().subrange(0, a.received().len() as int) =~= c.received().subrange(
        0,
        b.received().len() as int,
    ).subrange(0, a.received().len() as int));
    assert(got(a, c) =~= got(a, b) + got(b, c));
}

/// What is heard over two stretches is what is heard over the first, then
/// over the second.
pub proof fn heard_chain<T: ReadWrite>(a: T, b: T, c: T)
    requires
        heard(a, b),
        heard(b, c),
    ensures
        heard(a, c),
        got(a, c) == got(a, b) + got(b, c),
{
    assert(c.received().subrange(0, a.received().len() as int) =~= c.received().subrange(
        0,
        b.received().len() as int,
    ).subrange(0, a.received().len() as int));
    assert(got(a, c) =~= got(a, b) + got(b, c));
}

/// A front of the bytes that was left as it was holds a shorter front that
/// was left as it was.
proof fn lemma_front(a: Seq<u8>, b: Seq<u8>, n: int, m: int)
    requires
        0 <= n <= m <= a.len(),
        m <= b.len(),
        a.subrange(0, m) == b.subrange(0, m),
    ensures
        a.subrange(0, n) == b.subrange(0, n),
{
    assert(a.subrange(0, n) =~= a.subrange(0, m).subrange(0, n));
    assert(b.subrange(0, n) =~= b.subrange(0, m).subrange(0, n));
}

/// Bytes that a read leaves as they were stay pending, and what the read
/// brought is pending behind them.
proof fn lemma_fill_step<T: ReadWrite>(
    first: Smtp<'_, T>,
    mid: Smtp<'_, T>,
    after: Smtp<'_, T>,
    g: Seq<u8>,
)
    requires
        first.wf(),
        mid.wf(),
        after.wf(),
        first.end() <= mid.end() <= after.end(),
        after.start() == mid.start(),
        mid.buffer().subrange(0, first.end()) == first.buffer().subrange(0, first.end()),
        after.buffer().subrange(0, mid.end()) == mid.buffer().subrange(0, mid.end()),
        mid.pending() == first.pending() + g,
        mid.stream().received() == first.stream().received() + g,
    ensures
        after.buffer().subrange(0, first.end()) == first.buffer().subrange(0, first.end()),
        after.pending() == first.pending() + (g + after.buffer().subrange(mid.end(), after.end())),
        after.end() == mid.end() ==> after.pending() == mid.pending(),
        after.stream().received() == mid.stream().received() + after.buffer().subrange(
            mid.end(),
            after.end(),
        ) ==> after.stream().received() == first.stream().received() + (g
            + after.buffer().subrange(mid.end(), after.end())),
{
    let chunk = after.buffer().subrange(mid.end(), after.end());
    lemma_front(mid.buffer(), after.buffer(), first.end(), mid.end());
    assert(mid.pending() =~= mid.buffer().subrange(0, mid.end()).subrange(
        mid.start(),
        mid.end(),
    ));
    assert(after.buffer().subrange(after.start(), mid.end()) =~= after.buffer().subrange(
        0,
        mid.end(),
    ).subrange(mid.start(), mid.end()));
    assert(after.pending() =~= mid.pending() + chunk);
    assert(first.pending() + g + chunk =~= first.pending() + (g + chunk));
    assert(first.stream().received() + g + chunk =~= first.stream().received() + (g + chunk));
    if after.end() == mid.end() {
        assert(mid.pending() + chunk =~= mid.pending());
    }
}

} // verus!
