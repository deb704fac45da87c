//! Sending a mail: a dialogue of several steps. At each step the client
//! says something and waits for the reply, which is to bear the code that
//! the step expects; the first reply that does not ends the dialogue.
use vstd::prelude::*;
use vstd::string::StringSliceAdditionalSpecFns;
use crate::error::Error;
use crate::error::ProtocolError;
use crate::message;
use crate::message::Message;
use crate::smtp::command;
use crate::smtp::session;
use crate::smtp::session::Smtp;
use crate::smtp::stuffing;
use crate::stream::ReadWrite;

verus! {

/// One step of a dialogue: what the client says, and the code that the
/// reply to it is to bear.
pub struct Step {
    pub say: Seq<u8>,
    pub code: u16,
}

/// What the client says over `steps`, one step behind the other.
pub open spec fn said(steps: Seq<Step>) -> Seq<u8>
    decreases steps.len(),
{
    if steps.len() == 0 {
        Seq::empty()
    } else {
        said(steps.drop_last()) + steps.last().say
    }
}

/// Whether `raw` is, one behind the other, a reply to each of `steps`, with
/// the code that the step expects. Each reply may have more behind it: what
/// the stream delivers together with a reply, behind its last line, is
/// dropped before the next step.
pub open spec fn answered(steps: Seq<Step>, raw: Seq<u8>) -> bool
    decreases steps.len(),
{
    if steps.len() == 0 {
        raw.len() == 0
    } else {
        exists|cut: int|
            0 <= cut <= raw.len() && answered(steps.drop_last(), raw.subrange(0, cut))
                && command::accepted(
                #[trigger] raw.subrange(cut, raw.len() as int),
                steps.last().code,
            )
    }
}

/// Whether `e` is the right end of a dialogue of `steps`, in which the
/// client had sent `before` when it began and has sent `after` by now, and
/// has received `raw`, in a buffer of `capacity` bytes. The steps before
/// some step were answered as they expect, and `e` is the right answer to
/// what came for that step. Unless the stream failed, the client has said
/// all that the steps up to that one say, and no more.
pub open spec fn refused<E>(
    steps: Seq<Step>,
    before: Seq<u8>,
    after: Seq<u8>,
    raw: Seq<u8>,
    capacity: int,
    e: Error<E>,
) -> bool {
    exists|k: int, cut: int|
        {
            &&& 0 <= k < steps.len()
            &&& 0 <= cut <= raw.len()
            &&& answered(steps.take(k), raw.subrange(0, cut))
            &&& command::rejected(
                #[trigger] raw.subrange(cut, raw.len() as int),
                (#[trigger] steps[k]).code,
                raw.len() - cut == capacity,
                e,
            )
            &&& e is IoError || after == before + said(steps.take(k + 1))
        }
}

/// MAIL FROM with the sender `from`.
pub open spec fn mail_from(from: Seq<u8>) -> Seq<u8> {
    "MAIL FROM:<".spec_bytes() + from + ">\r\n".spec_bytes()
}

/// RCPT TO with the recipient `to`.
pub open spec fn rcpt_to(to: Seq<u8>) -> Seq<u8> {
    "RCPT TO:<".spec_bytes() + to + ">\r\n".spec_bytes()
}

/// The steps of a mail from `from` to each of `to`, with `content` for what
/// follows DATA: MAIL FROM and each RCPT TO are to be answered with 250,
/// DATA with 354, and the content with 250.
pub open spec fn mail_steps(from: Seq<u8>, to: Seq<Seq<u8>>, content: Seq<u8>) -> Seq<Step> {
    Seq::new(
        to.len() + 3,
        |i: int|
            if i == 0 {
                Step { say: mail_from(from), code: 250 }
            } else if i <= to.len() {
                Step { say: rcpt_to(to[i - 1]), code: 250 }
            } else if i == to.len() + 1 {
                Step { say: "DATA\r\n".spec_bytes(), code: 354 }
            } else {
                Step { say: content, code: 250 }
            },
    )
}

/// The bytes of each of `to`, in order.
pub open spec fn names(to: Seq<&str>) -> Seq<Seq<u8>> {
    Seq::new(to.len(), |i: int| to[i].spec_bytes())
}

/// The bytes of the text of `date`, as the Date header bears it.
pub open spec fn date_bytes(date: message::DateTime) -> Seq<u8> {
    vstd::utf8::encode_utf8(date.text())
}

/// What follows DATA where `m` is sent: its headers, the empty line, its
/// body with its dots stuffed, and the line that ends it.
pub open spec fn message_content(m: message::MessageView) -> Seq<u8> {
    message::headers_wire(m, date_bytes(m.date)) + message::body_wire(m)
}

/// What is said over one step more is what was said, and what that step
/// says.
proof fn said_push(steps: Seq<Step>, k: int)
    requires
        0 <= k < steps.len(),
    ensures
        said(steps.take(k + 1)) == said(steps.take(k)) + steps[k].say,
{
    assert(steps.take(k + 1).drop_last() =~= steps.take(k));
}

/// A dialogue answered so far, and its next step answered, is a dialogue
/// answered one step further.
proof fn answered_push(steps: Seq<Step>, k: int, raw: Seq<u8>, more: Seq<u8>)
    requires
        0 <= k < steps.len(),
        answered(steps.take(k), raw),
        command::accepted(more, steps[k].code),
    ensures
        answered(steps.take(k + 1), raw + more),
{
    let all = raw + more;
    assert(steps.take(k + 1).drop_last() =~= steps.take(k));
    assert(all.subrange(0, raw.len() as int) =~= raw);
    assert(all.subrange(raw.len() as int, all.len() as int) =~= more);
}

/// A dialogue answered so far, and its next step not, is a dialogue
/// refused.
proof fn refused_at<E>(
    steps: Seq<Step>,
    k: int,
    before: Seq<u8>,
    after: Seq<u8>,
    raw: Seq<u8>,
    more: Seq<u8>,
    capacity: int,
    e: Error<E>,
)
    requires
        0 <= k < steps.len(),
        answered(steps.take(k), raw),
        command::rejected(more, steps[k].code, more.len() == capacity, e),
        e is IoError || after == before + said(steps.take(k + 1)),
    ensures
        refused(steps, before, after, raw + more, capacity, e),
{
    let all = raw + more;
    assert(all.subrange(0, raw.len() as int) =~= raw);
    assert(all.subrange(raw.len() as int, all.len() as int) =~= more);
    assert(command::rejected(
        all.subrange(raw.len() as int, all.len() as int),
        steps[k].code,
        all.len() - raw.len() == capacity,
        e,
    ));
}

/// Two stretches behind a base are one stretch behind it.
proof fn lemma_joined(base: Seq<u8>, a: Seq<u8>, b: Seq<u8>)
    ensures
        base + a + b == base + (a + b),
{
    assert(base + a + b =~= base + (a + b));
}

/// Seven stretches behind a base are one stretch behind it.
proof fn joined(
    base: Seq<u8>,
    a: Seq<u8>,
    b: Seq<u8>,
    c: Seq<u8>,
    d: Seq<u8>,
    e: Seq<u8>,
    f: Seq<u8>,
    g: Seq<u8>,
)
    ensures
        base + a + b + c + d + e + f + g == base + (a + b + c + d + e + f + g),
{
    assert(base + a + b =~= base + (a + b));
    assert(base + (a + b) + c =~= base + (a + b + c));
    assert(base + (a + b + c) + d =~= base + (a + b + c + d));
    assert(base + (a + b + c + d) + e =~= base + (a + b + c + d + e));
    assert(base + (a + b + c + d + e) + f =~= base + (a + b + c + d + e + f));
    assert(base + (a + b + c + d + e + f) + g =~= base + (a + b + c + d + e + f + g));
}

impl<'a, T: ReadWrite> Smtp<'a, T> {
    /// `self` is in the dialogue `steps`, which began at `origin` in a
    /// buffer of `capacity` bytes, with `k` of its steps said and answered.
    spec fn taken(&self, origin: T, capacity: int, steps: Seq<Step>, k: int) -> bool {
        &&& self.wf()
        &&& self.capacity() == capacity
        &&& 0 <= k <= steps.len()
        &&& session::heard(origin, self.stream())
        &&& self.stream().sent() == origin.sent() + said(steps.take(k))
        &&& answered(steps.take(k), session::got(origin, self.stream()))
    }

    /// `self` is at the end of the dialogue `steps`, which began at
    /// `origin` in a buffer of `capacity` bytes and which `e` has ended.
    spec fn ended(&self, origin: T, capacity: int, steps: Seq<Step>, e: Error<T::Error>) -> bool {
        &&& self.wf()
        &&& self.capacity() == capacity
        &&& session::heard(origin, self.stream())
        &&& session::borne_out(self.stream(), e)
        &&& refused(
            steps,
            origin.sent(),
            self.stream().sent(),
            session::got(origin, self.stream()),
            capacity,
            e,
        )
    }

    /// Reads the reply to step `k` of a dialogue, which has been said, and
    /// which is to bear `code`.
    fn settle(
        &mut self,
        code: u16,
        Ghost(origin): Ghost<T>,
        Ghost(steps): Ghost<Seq<Step>>,
        Ghost(k): Ghost<int>,
    ) -> (r: Result<(), Error<T::Error>>)
        requires
            old(self).wf(),
            0 <= k < steps.len(),
            steps[k].code == code,
            command::is_expected(code),
            session::heard(origin, old(self).stream()),
            old(self).stream().sent() == origin.sent() + said(steps.take(k + 1)),
            answered(steps.take(k), session::got(origin, old(self).stream())),
        ensures
            match r {
                Ok(()) => final(self).taken(origin, old(self).capacity(), steps, k + 1),
                Err(e) => final(self).ended(origin, old(self).capacity(), steps, e),
            },
    {
        let ghost a = *self;
        let failure = match self.answer(code, command::only(code)) {
            Ok(_) => None,
            Err(e) => Some(e),
        };
        proof {
            session::heard_chain(origin, a.stream(), self.stream());
            let raw = session::got(origin, a.stream());
            let more = session::got(a.stream(), self.stream());
            if failure is None {
                answered_push(steps, k, raw, more);
            } else {
                refused_at(
                    steps,
                    k,
                    origin.sent(),
                    self.stream().sent(),
                    raw,
                    more,
                    self.capacity(),
                    failure->Some_0,
                );
            }
        }
        match failure {
            None => Ok(()),
            Some(e) => Err(e),
        }
    }

    /// The stream has failed before step `k` of a dialogue was said in
    /// full: the dialogue has ended.
    proof fn broken(&self, origin: T, capacity: int, steps: Seq<Step>, k: int, e: Error<T::Error>)
        requires
            self.wf(),
            self.capacity() == capacity,
            0 <= k < steps.len(),
            session::heard(origin, self.stream()),
            answered(steps.take(k), session::got(origin, self.stream())),
            e is IoError,
            session::borne_out(self.stream(), e),
        ensures
            self.ended(origin, capacity, steps, e),
    {
        let raw = session::got(origin, self.stream());
        assert(raw + Seq::<u8>::empty() =~= raw);
        refused_at(steps, k, origin.sent(), self.stream().sent(), raw, Seq::empty(), capacity, e);
    }

    /// Takes step `k` of a dialogue: says `parts` and reads the reply to
    /// them, which is to bear `code`.
    fn step(
        &mut self,
        parts: &[&[u8]],
        code: u16,
        Ghost(origin): Ghost<T>,
        Ghost(steps): Ghost<Seq<Step>>,
        Ghost(k): Ghost<int>,
    ) -> (r: Result<(), Error<T::Error>>)
        requires
            old(self).taken(origin, old(self).capacity(), steps, k),
            k < steps.len(),
            steps[k].code == code,
            steps[k].say == crate::stream::concat(parts@),
            command::is_expected(code),
        ensures
            match r {
                Ok(()) => final(self).taken(origin, old(self).capacity(), steps, k + 1),
                Err(e) => final(self).ended(origin, old(self).capacity(), steps, e),
            },
    {
        match self.send(parts) {
            Ok(()) => {},
            Err(e) => {
                proof {
                    self.broken(origin, old(self).capacity(), steps, k, e);
                }
                return Err(e);
            },
        }
        proof {
            said_push(steps, k);
            assert(origin.sent() + said(steps.take(k)) + steps[k].say =~= origin.sent() + (said(
                steps.take(k),
            ) + steps[k].say));
        }
        self.settle(code, Ghost(origin), Ghost(steps), Ghost(k))
    }

    /// Opens a mail: MAIL FROM with the sender, RCPT TO with each
    /// recipient, DATA. These are the first steps of the dialogue `steps`.
    fn envelope(
        &mut self,
        from: &str,
        to: &[&str],
        Ghost(origin): Ghost<T>,
        Ghost(steps): Ghost<Seq<Step>>,
    ) -> (r: Result<(), Error<T::Error>>)
        requires
            old(self).taken(origin, old(self).capacity(), steps, 0),
            steps.len() == to@.len() + 3,
            forall|i: int|
                0 <= i < to@.len() + 2 ==> #[trigger] steps[i] == mail_steps(
                    from.spec_bytes(),
                    names(to@),
                    Seq::empty(),
                )[i],
        ensures
            match r {
                Ok(()) => final(self).taken(
                    origin,
                    old(self).capacity(),
                    steps,
                    to@.len() as int + 2,
                ),
                Err(e) => final(self).ended(origin, old(self).capacity(), steps, e),
            },
    {
        let parts: [&[u8]; 3] = ["MAIL FROM:<".as_bytes(), from.as_bytes(), ">\r\n".as_bytes()];
        proof {
            crate::stream::concat_three(parts[0], parts[1], parts[2]);
            assert(parts@ =~= seq![parts[0], parts[1], parts[2]]);
        }
        match self.step(&parts, 250, Ghost(origin), Ghost(steps), Ghost(0)) {
            Ok(()) => {},
            Err(e) => {
                return Err(e);
            },
        }
        let mut i: usize = 0;
        while i < to.len()
            invariant
                i <= to@.len(),
                steps.len() == to@.len() + 3,
                forall|i: int|
                    0 <= i < to@.len() + 2 ==> #[trigger] steps[i] == mail_steps(
                        from.spec_bytes(),
                        names(to@),
                        Seq::empty(),
                    )[i],
                self.taken(origin, old(self).capacity(), steps, i + 1),
            decreases to@.len() - i,
        {
            let parts: [&[u8]; 3] = ["RCPT TO:<".as_bytes(), to[i].as_bytes(), ">\r\n".as_bytes()];
            proof {
                crate::stream::concat_three(parts[0], parts[1], parts[2]);
                assert(parts@ =~= seq![parts[0], parts[1], parts[2]]);
            }
            match self.step(&parts, 250, Ghost(origin), Ghost(steps), Ghost(i + 1)) {
                Ok(()) => {},
                Err(e) => {
                    return Err(e);
                },
            }
            i = i + 1;
        }
        let parts: [&[u8]; 1] = ["DATA\r\n".as_bytes()];
        proof {
            crate::stream::concat_one(parts[0]);
            assert(parts@ =~= seq![parts[0]]);
        }
        self.step(&parts, 354, Ghost(origin), Ghost(steps), Ghost(to@.len() as int + 1))
    }

    /// Sends one mail: MAIL FROM with the sender, RCPT TO with each
    /// recipient, DATA, then `data` and the line that ends it. Each of these
    /// is answered before the next is said; the replies are to bear 250,
    /// but the one to DATA, which is to bear 354.
    pub fn send_mail(&mut self, from: &str, to: &[&str], data: &[u8]) -> (r: Result<
        (),
        Error<T::Error>,
    >)
        requires
            old(self).wf(),
        ensures
            final(self).wf(),
            final(self).capacity() == old(self).capacity(),
            session::heard(old(self).stream(), final(self).stream()),
            r matches Err(e) ==> session::borne_out(final(self).stream(), e),
            ({
                let steps = mail_steps(
                    from.spec_bytes(),
                    names(to@),
                    data@ + "\r\n.\r\n".spec_bytes(),
                );
                let raw = session::got(old(self).stream(), final(self).stream());
                match r {
                    Ok(()) => {
                        &&& final(self).stream().sent() == old(self).stream().sent() + said(steps)
                        &&& answered(steps, raw)
                    },
                    Err(e) => refused(
                        steps,
                        old(self).stream().sent(),
                        final(self).stream().sent(),
                        raw,
                        final(self).capacity(),
                        e,
                    ),
                }
            }),
    {
        let ghost origin = self.stream();
        let ghost steps = mail_steps(
            from.spec_bytes(),
            names(to@),
            data@ + "\r\n.\r\n".spec_bytes(),
        );
        proof {
            self.begun(steps);
        }
        match self.envelope(from, to, Ghost(origin), Ghost(steps)) {
            Ok(()) => {},
            Err(e) => {
                return Err(e);
            },
        }
        let parts: [&[u8]; 2] = [data, "\r\n.\r\n".as_bytes()];
        proof {
            crate::stream::concat_two(parts[0], parts[1]);
            assert(parts@ =~= seq![parts[0], parts[1]]);
        }
        let r = self.step(&parts, 250, Ghost(origin), Ghost(steps), Ghost(to@.len() as int + 2));
        proof {
            assert(steps.take(to@.len() as int + 3) =~= steps);
        }
        r
    }

    /// A dialogue with none of its steps taken has begun.
    proof fn begun(&self, steps: Seq<Step>)
        requires
            self.wf(),
        ensures
            self.taken(self.stream(), self.capacity(), steps, 0),
    {
        let origin = self.stream();
        assert(steps.take(0) =~= Seq::<Step>::empty());
        assert(origin.sent() + said(steps.take(0)) =~= origin.sent());
        assert(session::got(origin, origin) =~= Seq::<u8>::empty());
        assert(origin.received().subrange(0, origin.received().len() as int)
            =~= origin.received());
    }

    /// Writes a header that may be there.
    fn send_optional(&mut self, name: &'static str, value: Option<&str>) -> (r: Result<
        (),
        Error<T::Error>,
    >)
        requires
            old(self).wf(),
        ensures
            old(self).writes_to(
                final(self),
                r,
                message::optional_header(name, message::bytes_of(value)),
            ),
    {
        match value {
            Some(v) => {
                let parts: [&[u8]; 3] = [name.as_bytes(), v.as_bytes(), "\r\n".as_bytes()];
                proof {
                    crate::stream::concat_three(parts[0], parts[1], parts[2]);
                    assert(parts@ =~= seq![parts[0], parts[1], parts[2]]);
                }
                self.send(&parts)
            },
            None => {
                proof {
                    assert(self.stream().sent() + Seq::<u8>::empty() =~= self.stream().sent());
                }
                Ok(())
            },
        }
    }

    /// Writes a header that is always there.
    fn send_header(&mut self, open: &'static str, value: &[u8], close: &'static str) -> (r: Result<
        (),
        Error<T::Error>,
    >)
        requires
            old(self).wf(),
        ensures
            old(self).writes_to(final(self), r, message::header(open, value@, close)),
    {
        let parts: [&[u8]; 3] = [open.as_bytes(), value, close.as_bytes()];
        proof {
            crate::stream::concat_three(parts[0], parts[1], parts[2]);
            assert(parts@ =~= seq![parts[0], parts[1], parts[2]]);
        }
        self.send(&parts)
    }

    /// Writes the headers of `message` that are always there.
    fn send_required(&mut self, message: &Message<'_>) -> (r: Result<(), Error<T::Error>>)
        requires
            old(self).wf(),
        ensures
            old(self).writes_to(
                final(self),
                r,
                message::required_headers(message@, date_bytes(message@.date)),
            ),
    {
        let ghost base = self.stream().sent();
        let date = message.date().to_string();
        match self.send_header("Date: ", date.as_str().as_bytes(), "\r\n") {
            Ok(()) => {},
            Err(e) => {
                return Err(e);
            },
        }
        match self.send_header("From: ", message.from().as_bytes(), "\r\n") {
            Ok(()) => {},
            Err(e) => {
                return Err(e);
            },
        }
        match self.send_header("Message-ID: <", message.message_id().as_bytes(), ">\r\n") {
            Ok(()) => {},
            Err(e) => {
                return Err(e);
            },
        }
        proof {
            let a = message::header("Date: ", date_bytes(message@.date), "\r\n");
            let b = message::header("From: ", message@.from, "\r\n");
            let c = message::header("Message-ID: <", message@.message_id, ">\r\n");
            assert(base + a + b + c =~= base + (a + b + c));
        }
        Ok(())
    }

    /// Writes the headers of `message` that it bears beyond those.
    fn send_optionals(&mut self, message: &Message<'_>) -> (r: Result<(), Error<T::Error>>)
        requires
            old(self).wf(),
        ensures
            old(self).writes_to(final(self), r, message::optional_headers(message@)),
    {
        let ghost base = self.stream().sent();
        match self.send_optional("To: ", message.to()) {
            Ok(()) => {},
            Err(e) => {
                return Err(e);
            },
        }
        match self.send_optional("Cc: ", message.cc()) {
            Ok(()) => {},
            Err(e) => {
                return Err(e);
            },
        }
        match self.send_optional("Bcc: ", message.bcc()) {
            Ok(()) => {},
            Err(e) => {
                return Err(e);
            },
        }
        match self.send_optional("Reply-To: ", message.reply_to()) {
            Ok(()) => {},
            Err(e) => {
                return Err(e);
            },
        }
        match self.send_optional("Subject: ", message.subject()) {
            Ok(()) => {},
            Err(e) => {
                return Err(e);
            },
        }
        match self.send_optional("In-Reply-To: ", message.in_reply_to()) {
            Ok(()) => {},
            Err(e) => {
                return Err(e);
            },
        }
        match self.send_optional("References: ", message.references()) {
            Ok(()) => {},
            Err(e) => {
                return Err(e);
            },
        }
        proof {
            let m = message@;
            joined(
                base,
                message::optional_header("To: ", m.to),
                message::optional_header("Cc: ", m.cc),
                message::optional_header("Bcc: ", m.bcc),
                message::optional_header("Reply-To: ", m.reply_to),
                message::optional_header("Subject: ", m.subject),
                message::optional_header("In-Reply-To: ", m.in_reply_to),
                message::optional_header("References: ", m.references),
            );
        }
        Ok(())
    }

    /// Writes `body` with a dot more before every dot that one of its lines
    /// begins with. The body is not copied: it is written in stretches,
    /// each up to the next such dot.
    fn send_stuffed(&mut self, body: &[u8]) -> (r: Result<(), Error<T::Error>>)
        requires
            old(self).wf(),
        ensures
            old(self).writes_to(final(self), r, stuffing::dot_stuff(body@)),
    {
        let ghost base = self.stream().sent();
        proof {
            stuffing::stuffing_start(body@);
            reveal_strlit(".");
            vstd::string::is_ascii_spec_bytes(".");
            assert(".".spec_bytes() =~= seq![stuffing::DOT]);
        }
        if body.len() > 0 && body[0] == stuffing::DOT {
            match self.send_one(".".as_bytes()) {
                Ok(()) => {},
                Err(e) => {
                    return Err(e);
                },
            }
        }
        proof {
            assert(base + Seq::<u8>::empty() =~= base);
            assert(base + (seq![stuffing::DOT] + stuffing::rest_from(body@, 0)) =~= base
                + seq![stuffing::DOT] + stuffing::rest_from(body@, 0));
        }
        let mut pos: usize = 0;
        while pos < body.len()
            invariant
                self.wf(),
                self.capacity() == old(self).capacity(),
                self.buffer() == old(self).buffer(),
                self.start() == old(self).start(),
                self.end() == old(self).end(),
                self.stream().received() == old(self).stream().received(),
                pos <= body@.len(),
                pos == 0 || pos == body@.len() || body@[pos as int] == stuffing::DOT,
                ".".spec_bytes() == seq![stuffing::DOT],
                base + stuffing::dot_stuff(body@) == self.stream().sent() + stuffing::rest_from(
                    body@,
                    pos as int,
                ),
            decreases body@.len() - pos,
        {
            let ghost sent = self.stream().sent();
            let tail = vstd::slice::slice_subrange(body, pos, body.len());
            match stuffing::find_crlf_dot(tail) {
                Some(rel) => {
                    proof {
                        stuffing::stuffing_stretch(body@, pos as int, rel as int);
                    }
                    let crlf_end = pos + rel + 2;
                    match self.send_one(vstd::slice::slice_subrange(body, pos, crlf_end)) {
                        Ok(()) => {},
                        Err(e) => {
                            return Err(e);
                        },
                    }
                    match self.send_one(".".as_bytes()) {
                        Ok(()) => {},
                        Err(e) => {
                            return Err(e);
                        },
                    }
                    proof {
                        let stretch = body@.subrange(pos as int, crlf_end as int);
                        let rest = stuffing::rest_from(body@, crlf_end as int);
                        assert(sent + (stretch + seq![stuffing::DOT] + rest) =~= sent + stretch
                            + seq![stuffing::DOT] + rest);
                    }
                    pos = crlf_end;
                },
                None => {
                    proof {
                        stuffing::stuffing_tail(body@, pos as int);
                    }
                    match self.send_one(tail) {
                        Ok(()) => {},
                        Err(e) => {
                            return Err(e);
                        },
                    }
                    proof {
                        assert(self.stream().sent() + Seq::<u8>::empty()
                            =~= self.stream().sent());
                    }
                    pos = body.len();
                },
            }
        }
        proof {
            assert(self.stream().sent() + Seq::<u8>::empty() =~= self.stream().sent());
        }
        Ok(())
    }

    /// Writes what follows DATA where `message` is sent: the headers, the
    /// empty line, the body with its dots stuffed, and the line that ends
    /// the message.
    fn send_content(&mut self, message: &Message<'_>) -> (r: Result<(), Error<T::Error>>)
        requires
            old(self).wf(),
        ensures
            old(self).writes_to(final(self), r, message_content(message@)),
    {
        match self.send_headers(message) {
            Ok(()) => {},
            Err(e) => {
                return Err(e);
            },
        }
        let ghost headed = self.stream().sent();
        match self.send_body(message) {
            Ok(()) => {},
            Err(e) => {
                return Err(e);
            },
        }
        proof {
            lemma_joined(
                old(self).stream().sent(),
                message::headers_wire(message@, date_bytes(message@.date)),
                message::body_wire(message@),
            );
        }
        Ok(())
    }

    /// Writes the headers of `message` and the empty line behind them.
    fn send_headers(&mut self, message: &Message<'_>) -> (r: Result<(), Error<T::Error>>)
        requires
            old(self).wf(),
        ensures
            old(self).writes_to(
                final(self),
                r,
                message::headers_wire(message@, date_bytes(message@.date)),
            ),
    {
        match self.send_required(message) {
            Ok(()) => {},
            Err(e) => {
                return Err(e);
            },
        }
        match self.send_optionals(message) {
            Ok(()) => {},
            Err(e) => {
                return Err(e);
            },
        }
        match self.send_one("\r\n".as_bytes()) {
            Ok(()) => {},
            Err(e) => {
                return Err(e);
            },
        }
        proof {
            let a = message::required_headers(message@, date_bytes(message@.date));
            let b = message::optional_headers(message@);
            lemma_joined(old(self).stream().sent(), a, b);
            lemma_joined(old(self).stream().sent(), a + b, "\r\n".spec_bytes());
        }
        Ok(())
    }

    /// Writes the body of `message`, if it has one, with its dots stuffed,
    /// and the line that ends the message.
    fn send_body(&mut self, message: &Message<'_>) -> (r: Result<(), Error<T::Error>>)
        requires
            old(self).wf(),
        ensures
            old(self).writes_to(final(self), r, message::body_wire(message@)),
    {
        match message.body() {
            Some(body) => {
                match self.send_stuffed(body.as_bytes()) {
                    Ok(()) => {},
                    Err(e) => {
                        return Err(e);
                    },
                }
            },
            None => {
                proof {
                    assert(self.stream().sent() + Seq::<u8>::empty() =~= self.stream().sent());
                }
            },
        }
        match self.send_one("\r\n.\r\n".as_bytes()) {
            Ok(()) => {},
            Err(e) => {
                return Err(e);
            },
        }
        proof {
            lemma_joined(
                old(self).stream().sent(),
                match message@.body {
                    Some(b) => stuffing::dot_stuff(b),
                    None => Seq::empty(),
                },
                "\r\n.\r\n".spec_bytes(),
            );
        }
        Ok(())
    }

    /// Sends `message` as one mail from `envelope_from` to `envelope_to`:
    /// MAIL FROM, RCPT TO for each recipient, DATA, then the headers, the
    /// empty line, the body with its dots stuffed, and the line that ends
    /// the message.
    ///
    /// The addresses of the envelope route the mail; those in the headers
    /// are what the reader sees. Before anything is written, each header
    /// value is looked at: one that holds a CRLF is refused with the name
    /// of its header, and nothing is sent.
    pub fn send_message(
        &mut self,
        message: &Message<'_>,
        envelope_from: &str,
        envelope_to: &[&str],
    ) -> (r: Result<(), Error<T::Error>>)
        requires
            old(self).wf(),
        ensures
            final(self).wf(),
            final(self).capacity() == old(self).capacity(),
            session::heard(old(self).stream(), final(self).stream()),
            r matches Err(e) ==> session::borne_out(final(self).stream(), e),
            ({
                let steps = mail_steps(
                    envelope_from.spec_bytes(),
                    names(envelope_to@),
                    message_content(message@),
                );
                let raw = session::got(old(self).stream(), final(self).stream());
                match message::first_broken_header(message@) {
                    Some(name) => {
                        &&& r matches Err(Error::ProtocolError(ProtocolError::InvalidHeader(n)))
                        &&& n@ == name
                        &&& final(self).stream() == old(self).stream()
                    },
                    None => match r {
                        Ok(()) => {
                            &&& final(self).stream().sent() == old(self).stream().sent() + said(
                                steps,
                            )
                            &&& answered(steps, raw)
                        },
                        Err(e) => refused(
                            steps,
                            old(self).stream().sent(),
                            final(self).stream().sent(),
                            raw,
                            final(self).capacity(),
                            e,
                        ),
                    },
                }
            }),
    {
        let ghost origin = self.stream();
        let ghost steps = mail_steps(
            envelope_from.spec_bytes(),
            names(envelope_to@),
            message_content(message@),
        );
        let ghost last = envelope_to@.len() as int + 2;
        proof {
            self.begun(steps);
        }
        match message.broken_header() {
            Some(name) => {
                return Err(Error::ProtocolError(ProtocolError::InvalidHeader(name)));
            },
            None => {},
        }
        match self.envelope(envelope_from, envelope_to, Ghost(origin), Ghost(steps)) {
            Ok(()) => {},
            Err(e) => {
                return Err(e);
            },
        }
        let ghost opened = *self;
        match self.send_content(message) {
            Ok(()) => {},
            Err(e) => {
                proof {
                    self.broken(origin, old(self).capacity(), steps, last, e);
                }
                return Err(e);
            },
        }
        proof {
            said_push(steps, last);
            assert(origin.sent() + said(steps.take(last)) + steps[last].say =~= origin.sent() + (
            said(steps.take(last)) + steps[last].say));
        }
        let r = self.settle(250, Ghost(origin), Ghost(steps), Ghost(last));
        proof {
            assert(steps.take(last + 1) =~= steps);
        }
        r
    }
}

} // verus!
