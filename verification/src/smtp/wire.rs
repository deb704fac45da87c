//! The grammar of a reply on the wire, as functions of the bytes received.
//!
//! A reply is one or more lines `DDD-text CRLF`, closed by a line
//! `DDD text CRLF` with the same three digits. What a session makes of the
//! bytes it has received is what [`reply_outcome`] says of them.
use vstd::prelude::*;
use crate::error::MalformedError;

verus! {

pub const CR: u8 = 13;

pub const LF: u8 = 10;

pub const SPACE: u8 = 32;

pub const DASH: u8 = 45;

/// The longest text that a line can bear: its length has to fit in the two
/// bytes that the parsed form keeps for it.
pub const MAX_TEXT: usize = 0xffff;

pub open spec fn is_digit(b: u8) -> bool {
    48 <= b <= 57
}

/// The number that three ASCII digits spell.
pub open spec fn code_of(d0: u8, d1: u8, d2: u8) -> int {
    (d0 - 48) * 100 + (d1 - 48) * 10 + (d2 - 48)
}

/// What a look for the end of a line finds.
pub enum Scan {
    /// No line end yet, and nothing wrong so far.
    NeedMore,
    /// A bare LF, or a CR that something other than LF follows.
    Bad,
    /// CRLF, with the CR at this index.
    Found(int),
}

/// Looks for the first CR or LF of `s` at or after `i`.
pub open spec fn scan(s: Seq<u8>, i: int) -> Scan
    decreases s.len() - i,
{
    if i < 0 || i >= s.len() {
        Scan::NeedMore
    } else if s[i] == LF {
        Scan::Bad
    } else if s[i] == CR {
        if i + 1 == s.len() {
            Scan::NeedMore
        } else if s[i + 1] == LF {
            Scan::Found(i)
        } else {
            Scan::Bad
        }
    } else {
        scan(s, i + 1)
    }
}

/// What the bytes received so far amount to.
pub enum Outcome<V> {
    /// Not enough bytes yet: more have to come.
    Incomplete,
    /// The bytes break the grammar, in this way.
    Malformed(MalformedError),
    /// A line's text is longer than `MAX_TEXT`.
    TooLong,
    /// A whole value, read from these bytes.
    Done(V),
}

/// One line as it stood on the wire.
pub struct Line {
    pub code: u16,
    pub is_last: bool,
    /// The bytes between the marker and the CRLF.
    pub text: Seq<u8>,
    /// How many bytes the line took, CRLF included.
    pub len: int,
}

/// One reply as it stood on the wire.
pub struct Parsed {
    pub code: u16,
    /// The text of each line, in order.
    pub lines: Seq<Seq<u8>>,
    /// How many bytes the reply took.
    pub len: int,
}

/// Reads one line from the front of `s`.
pub open spec fn line_outcome(s: Seq<u8>) -> Outcome<Line> {
    if s.len() < 3 {
        Outcome::Incomplete
    } else if !(is_digit(s[0]) && is_digit(s[1]) && is_digit(s[2])) {
        Outcome::Malformed(MalformedError::NoCode)
    } else if s.len() < 4 {
        Outcome::Incomplete
    } else if s[3] != SPACE && s[3] != DASH {
        Outcome::Malformed(MalformedError::InvalidEncoding)
    } else {
        let rest = s.subrange(4, s.len() as int);
        match scan(rest, 0) {
            Scan::NeedMore => Outcome::Incomplete,
            Scan::Bad => Outcome::Malformed(MalformedError::InvalidLineTermination),
            Scan::Found(i) => {
                let text = rest.subrange(0, i);
                if i > MAX_TEXT {
                    Outcome::TooLong
                } else if !vstd::utf8::valid_utf8(text) {
                    Outcome::Malformed(MalformedError::InvalidEncoding)
                } else {
                    Outcome::Done(
                        Line {
                            code: code_of(s[0], s[1], s[2]) as u16,
                            is_last: s[3] == SPACE,
                            text,
                            len: i + 6,
                        },
                    )
                }
            },
        }
    }
}

/// Reads the lines of a reply whose code is known, from the front of `s`.
pub open spec fn reply_rest(s: Seq<u8>, code: u16) -> Outcome<Parsed>
    decreases s.len(),
{
    match line_outcome(s) {
        Outcome::Incomplete => Outcome::Incomplete,
        Outcome::Malformed(e) => Outcome::Malformed(e),
        Outcome::TooLong => Outcome::TooLong,
        Outcome::Done(line) => {
            if line.code != code {
                Outcome::Malformed(
                    MalformedError::CodeChanged { old_code: code, new_code: line.code },
                )
            } else if line.is_last {
                Outcome::Done(Parsed { code, lines: seq![line.text], len: line.len })
            } else if line.len <= 0 || line.len > s.len() {
                Outcome::Incomplete
            } else {
                match reply_rest(s.subrange(line.len, s.len() as int), code) {
                    Outcome::Done(rest) => Outcome::Done(
                        Parsed {
                            code,
                            lines: seq![line.text] + rest.lines,
                            len: line.len + rest.len,
                        },
                    ),
                    other => other,
                }
            }
        },
    }
}

/// The ways in which the lines of a reply can break the grammar.
pub open spec fn is_refusal(m: MalformedError) -> bool {
    m is NoCode || m is InvalidEncoding || m is InvalidLineTermination || m is CodeChanged
}

/// Reads one reply from the front of `s`. Its code is that of its first line.
pub open spec fn reply_outcome(s: Seq<u8>) -> Outcome<Parsed> {
    match line_outcome(s) {
        Outcome::Done(line) => reply_rest(s, line.code),
        Outcome::Incomplete => Outcome::Incomplete,
        Outcome::Malformed(e) => Outcome::Malformed(e),
        Outcome::TooLong => Outcome::TooLong,
    }
}

/// A line end that was found lies within the bytes, and more bytes behind
/// them change nothing about it.
pub proof fn scan_found_is_stable(s: Seq<u8>, i: int, more: Seq<u8>)
    requires
        0 <= i,
        scan(s, i) is Found,
    ensures
        scan(s + more, i) == scan(s, i),
        i <= scan(s, i)->Found_0 < s.len() - 1,
        forall|j: int| i <= j < scan(s, i)->Found_0 ==> s[j] != CR && s[j] != LF,
        s[scan(s, i)->Found_0] == CR,
        s[scan(s, i)->Found_0 + 1] == LF,
    decreases s.len() - i,
{
    if s[i] != CR {
        scan_found_is_stable(s, i + 1, more);
    }
}

/// A line that was read lies within the bytes, and more bytes behind them
/// change nothing about it.
pub proof fn line_done_is_stable(s: Seq<u8>, more: Seq<u8>)
    requires
        line_outcome(s) is Done,
    ensures
        line_outcome(s + more) == line_outcome(s),
        6 <= line_outcome(s)->Done_0.len <= s.len(),
        line_outcome(s)->Done_0.len == line_outcome(s)->Done_0.text.len() + 6,
        line_outcome(s)->Done_0.text == s.subrange(4, line_outcome(s)->Done_0.len - 2),
        line_outcome(s)->Done_0.code < 1000,
{
    let rest = s.subrange(4, s.len() as int);
    scan_found_is_stable(rest, 0, more);
    assert((s + more).subrange(4, (s + more).len() as int) =~= rest + more);
    let i = scan(rest, 0)->Found_0;
    assert((rest + more).subrange(0, i) =~= rest.subrange(0, i));
    assert(rest.subrange(0, i) =~= s.subrange(4, i + 4));
}

/// A line end that was found is still found when the bytes are cut off
/// behind it.
pub proof fn scan_found_cut(s: Seq<u8>, i: int)
    requires
        0 <= i,
        scan(s, i) is Found,
    ensures
        scan(s.subrange(0, scan(s, i)->Found_0 + 2), i) == scan(s, i),
    decreases s.len() - i,
{
    scan_found_is_stable(s, i, Seq::empty());
    if s[i] != CR {
        scan_found_cut(s, i + 1);
    }
}

/// A line that was read is read alike from its own bytes alone.
pub proof fn line_done_cut(s: Seq<u8>)
    requires
        line_outcome(s) is Done,
    ensures
        line_outcome(s.subrange(0, line_outcome(s)->Done_0.len)) == line_outcome(s),
{
    line_done_is_stable(s, Seq::empty());
    let rest = s.subrange(4, s.len() as int);
    let i = scan(rest, 0)->Found_0;
    scan_found_cut(rest, 0);
    let cut = s.subrange(0, i + 6);
    assert(cut.subrange(4, cut.len() as int) =~= rest.subrange(0, i + 2));
    assert(rest.subrange(0, i + 2).subrange(0, i) =~= rest.subrange(0, i));
}

/// Reads lines that bear `code` and a dash, and that fill `s` to its end.
pub open spec fn continuation(s: Seq<u8>, code: u16) -> Option<Seq<Seq<u8>>>
    decreases s.len(),
{
    if s.len() == 0 {
        Some(Seq::empty())
    } else {
        match line_outcome(s) {
            Outcome::Done(line) => {
                if line.code == code && !line.is_last && 0 < line.len <= s.len() {
                    match continuation(s.subrange(line.len, s.len() as int), code) {
                        Some(rest) => Some(seq![line.text] + rest),
                        None => None,
                    }
                } else {
                    None
                }
            },
            _ => None,
        }
    }
}

/// One more such line behind such lines makes such lines.
pub proof fn continuation_push(p: Seq<u8>, l: Seq<u8>, code: u16)
    requires
        continuation(p, code) is Some,
        line_outcome(l) matches Outcome::Done(line) && line.code == code && !line.is_last
            && line.len == l.len(),
    ensures
        continuation(p + l, code) == Some(
            continuation(p, code)->Some_0.push(line_outcome(l)->Done_0.text),
        ),
    decreases p.len(),
{
    let line = line_outcome(l)->Done_0;
    line_done_is_stable(l, Seq::empty());
    if p.len() == 0 {
        assert(p + l =~= l);
        assert(l.subrange(line.len, l.len() as int) =~= Seq::<u8>::empty());
        assert(continuation(l.subrange(line.len, l.len() as int), code) == Some(
            Seq::<Seq<u8>>::empty(),
        ));
        assert(seq![line.text] + Seq::<Seq<u8>>::empty() =~= Seq::<Seq<u8>>::empty().push(
            line.text,
        ));
    } else {
        let first = line_outcome(p)->Done_0;
        line_done_is_stable(p, l);
        let tail = p.subrange(first.len, p.len() as int);
        assert((p + l).subrange(first.len, (p + l).len() as int) =~= tail + l);
        continuation_push(tail, l, code);
        let rest = continuation(tail, code)->Some_0;
        assert(seq![first.text] + rest.push(line.text) =~= (seq![first.text] + rest).push(
            line.text,
        ));
    }
}

/// Behind lines that bear `code` and a dash, a reply goes on as the bytes
/// behind them say.
pub proof fn reply_rest_after(p: Seq<u8>, t: Seq<u8>, code: u16)
    requires
        continuation(p, code) is Some,
    ensures
        reply_rest(p + t, code) == (match reply_rest(t, code) {
            Outcome::Done(r) => Outcome::Done(
                Parsed {
                    code,
                    lines: continuation(p, code)->Some_0 + r.lines,
                    len: p.len() + r.len,
                },
            ),
            other => other,
        }),
    decreases p.len(),
{
    if p.len() == 0 {
        assert(p + t =~= t);
        match reply_rest(t, code) {
            Outcome::Done(r) => {
                assert(Seq::<Seq<u8>>::empty() + r.lines =~= r.lines);
                reply_rest_code(t, code);
            },
            _ => {},
        }
    } else {
        let first = line_outcome(p)->Done_0;
        line_done_is_stable(p, t);
        let tail = p.subrange(first.len, p.len() as int);
        assert((p + t).subrange(first.len, (p + t).len() as int) =~= tail + t);
        reply_rest_after(tail, t, code);
        let rest = continuation(tail, code)->Some_0;
        match reply_rest(t, code) {
            Outcome::Done(r) => {
                assert(seq![first.text] + (rest + r.lines) =~= (seq![first.text] + rest)
                    + r.lines);
            },
            _ => {},
        }
    }
}

/// A reply that was read bears the code it was read for.
pub proof fn reply_rest_code(s: Seq<u8>, code: u16)
    ensures
        reply_rest(s, code) matches Outcome::Done(r) ==> r.code == code && r.lines.len() >= 1
            && 6 <= r.len <= s.len(),
    decreases s.len(),
{
    match line_outcome(s) {
        Outcome::Done(line) => {
            line_done_is_stable(s, Seq::empty());
            if line.code == code && !line.is_last {
                reply_rest_code(s.subrange(line.len, s.len() as int), code);
            }
        },
        _ => {},
    }
}

/// Lines are refused in one of four ways only.
pub proof fn reply_rest_refusals(s: Seq<u8>, code: u16)
    ensures
        reply_rest(s, code) matches Outcome::Malformed(m) ==> is_refusal(m),
    decreases s.len(),
{
    match line_outcome(s) {
        Outcome::Done(line) => {
            if line.code == code && !line.is_last && 0 < line.len <= s.len() {
                reply_rest_refusals(s.subrange(line.len, s.len() as int), code);
            }
        },
        _ => {},
    }
}

/// A reply is refused in one of four ways only: never for what its code
/// is, nor for the end of the stream.
pub proof fn reply_refusals(s: Seq<u8>)
    ensures
        reply_outcome(s) matches Outcome::Malformed(m) ==> is_refusal(m),
{
    match line_outcome(s) {
        Outcome::Done(line) => {
            reply_rest_refusals(s, line.code);
        },
        _ => {},
    }
}

/// What the next line makes of a reply in progress. So far `start` bytes
/// of `before` have been read as the lines `lines`, each with `code` and a
/// dash; `more` has come in since.
pub proof fn reply_step(before: Seq<u8>, more: Seq<u8>, start: int, code: u16)
    requires
        0 <= start <= before.len(),
        continuation(before.subrange(0, start), code) is Some,
        start == 0 ==> (line_outcome(before + more) matches Outcome::Done(l) ==> l.code
            == code),
    ensures
        ({
            let raw = before + more;
            let lines = continuation(before.subrange(0, start), code)->Some_0;
            match line_outcome(raw.subrange(start, raw.len() as int)) {
                Outcome::Done(l) => {
                    if l.code != code {
                        reply_outcome(raw) == Outcome::<Parsed>::Malformed(
                            MalformedError::CodeChanged { old_code: code, new_code: l.code },
                        )
                    } else if l.is_last {
                        reply_outcome(raw) == Outcome::Done(
                            Parsed { code, lines: lines.push(l.text), len: start + l.len },
                        )
                    } else {
                        &&& start + l.len <= raw.len()
                        &&& continuation(raw.subrange(0, start + l.len), code) == Some(
                            lines.push(l.text),
                        )
                    }
                },
                Outcome::Incomplete => reply_outcome(raw) is Incomplete,
                Outcome::Malformed(m) => reply_outcome(raw) == Outcome::<Parsed>::Malformed(m),
                Outcome::TooLong => reply_outcome(raw) is TooLong,
            }
        }),
{
    let raw = before + more;
    let p = before.subrange(0, start);
    let t = raw.subrange(start, raw.len() as int);
    let lines = continuation(p, code)->Some_0;
    assert(raw =~= p + t);
    reply_rest_after(p, t, code);
    // The reply's code is that of its first line.
    if start > 0 {
        line_done_is_stable(p, t);
    } else {
        assert(t =~= raw);
    }
    match line_outcome(t) {
        Outcome::Done(l) => {
            line_done_is_stable(t, Seq::empty());
            if l.code == code && l.is_last {
                assert(lines + seq![l.text] =~= lines.push(l.text));
            } else if l.code == code {
                line_done_cut(t);
                continuation_push(p, t.subrange(0, l.len), code);
                assert(raw.subrange(0, start + l.len) =~= p + t.subrange(0, l.len));
            }
        },
        _ => {},
    }
}

/// The three digits that spell `code`.
pub open spec fn digits(code: u16) -> Seq<u8> {
    seq![(48 + code / 100) as u8, (48 + code / 10 % 10) as u8, (48 + code % 10) as u8]
}

/// What a line may bear as its text: UTF-8 without CR or LF, no longer than
/// `MAX_TEXT`.
pub open spec fn is_text(text: Seq<u8>) -> bool {
    &&& text.len() <= MAX_TEXT
    &&& vstd::utf8::valid_utf8(text)
    &&& forall|i: int| 0 <= i < text.len() ==> text[i] != CR && text[i] != LF
}

/// A line as a server writes it: the code, a space on the last line of a
/// reply and a dash on the others, the text, CRLF.
pub open spec fn line_bytes(code: u16, is_last: bool, text: Seq<u8>) -> Seq<u8> {
    digits(code) + seq![
        if is_last {
            SPACE
        } else {
            DASH
        },
    ] + text + seq![CR, LF]
}

/// Lines that are not a reply's last, as a server writes them.
pub open spec fn dashed_bytes(code: u16, lines: Seq<Seq<u8>>) -> Seq<u8>
    decreases lines.len(),
{
    if lines.len() == 0 {
        Seq::empty()
    } else {
        dashed_bytes(code, lines.drop_last()) + line_bytes(code, false, lines.last())
    }
}

/// A reply as a server writes it: all its lines but the last with a dash,
/// the last with a space.
pub open spec fn reply_bytes(code: u16, lines: Seq<Seq<u8>>) -> Seq<u8> {
    dashed_bytes(code, lines.drop_last()) + line_bytes(code, true, lines.last())
}

/// Text ends where its line end stands.
proof fn scan_text(s: Seq<u8>, i: int, n: int)
    requires
        0 <= i <= n,
        n + 1 < s.len(),
        forall|j: int| i <= j < n ==> s[j] != CR && s[j] != LF,
        s[n] == CR,
        s[n + 1] == LF,
    ensures
        scan(s, i) == Scan::Found(n),
    decreases n - i,
{
    if i < n {
        scan_text(s, i + 1, n);
    }
}

/// A line that a server writes is read as it was written, whatever follows.
pub proof fn line_read_back(code: u16, is_last: bool, text: Seq<u8>, more: Seq<u8>)
    requires
        code < 1000,
        is_text(text),
    ensures
        line_outcome(line_bytes(code, is_last, text) + more) == Outcome::Done(
            Line { code, is_last, text, len: text.len() as int + 6 },
        ),
        line_bytes(code, is_last, text).len() == text.len() + 6,
{
    let s = line_bytes(code, is_last, text) + more;
    let rest = s.subrange(4, s.len() as int);
    assert(rest =~= text + seq![CR, LF] + more);
    scan_text(rest, 0, text.len() as int);
    assert(rest.subrange(0, text.len() as int) =~= text);
    assert(code_of(s[0], s[1], s[2]) == code);
}

/// Lines that a server writes with a dash are read as they were written.
pub proof fn dashed_read_back(code: u16, lines: Seq<Seq<u8>>)
    requires
        code < 1000,
        forall|i: int| 0 <= i < lines.len() ==> is_text(#[trigger] lines[i]),
    ensures
        continuation(dashed_bytes(code, lines), code) == Some(lines),
    decreases lines.len(),
{
    if lines.len() > 0 {
        dashed_read_back(code, lines.drop_last());
        let line = line_bytes(code, false, lines.last());
        line_read_back(code, false, lines.last(), Seq::empty());
        assert(line + Seq::<u8>::empty() =~= line);
        continuation_push(dashed_bytes(code, lines.drop_last()), line, code);
        assert(lines.drop_last().push(lines.last()) =~= lines);
    }
}

/// A reply that a server writes is read as it was written, whatever
/// follows: its code is the one that its lines begin with, and its texts
/// are theirs, in order and byte for byte.
pub proof fn reply_read_back(code: u16, lines: Seq<Seq<u8>>, more: Seq<u8>)
    requires
        code < 1000,
        lines.len() >= 1,
        forall|i: int| 0 <= i < lines.len() ==> is_text(#[trigger] lines[i]),
    ensures
        reply_outcome(reply_bytes(code, lines) + more) == Outcome::Done(
            Parsed { code, lines, len: reply_bytes(code, lines).len() as int },
        ),
{
    let before = dashed_bytes(code, lines.drop_last());
    let last = line_bytes(code, true, lines.last()) + more;
    dashed_read_back(code, lines.drop_last());
    line_read_back(code, true, lines.last(), more);
    let raw = before + last;
    assert(raw =~= reply_bytes(code, lines) + more);
    assert(before.subrange(0, before.len() as int) =~= before);
    assert(raw.subrange(before.len() as int, raw.len() as int) =~= last);
    reply_step(before, last, before.len() as int, code);
    assert(lines.drop_last().push(lines.last()) =~= lines);
}

/// A line whose code is not that of the lines before it is found out,
/// whatever follows: the reply fails with both codes.
pub proof fn code_change_is_found(
    code: u16,
    lines: Seq<Seq<u8>>,
    other: u16,
    is_last: bool,
    text: Seq<u8>,
    more: Seq<u8>,
)
    requires
        code < 1000,
        other < 1000,
        other != code,
        lines.len() >= 1,
        forall|i: int| 0 <= i < lines.len() ==> is_text(#[trigger] lines[i]),
        is_text(text),
    ensures
        reply_outcome(dashed_bytes(code, lines) + line_bytes(other, is_last, text) + more)
            == Outcome::<Parsed>::Malformed(
            MalformedError::CodeChanged { old_code: code, new_code: other },
        ),
{
    let before = dashed_bytes(code, lines);
    let next = line_bytes(other, is_last, text) + more;
    dashed_read_back(code, lines);
    line_read_back(other, is_last, text, more);
    let raw = before + next;
    assert(raw =~= dashed_bytes(code, lines) + line_bytes(other, is_last, text) + more);
    assert(before.subrange(0, before.len() as int) =~= before);
    assert(raw.subrange(before.len() as int, raw.len() as int) =~= next);
    line_read_back(code, false, lines.last(), Seq::empty());
    reply_step(before, next, before.len() as int, code);
}

/// Whether a line end stands at `at`: CR, and LF behind it.
pub open spec fn line_end_at(s: Seq<u8>, at: int) -> bool {
    0 <= at && at + 1 < s.len() && s[at] == CR && s[at + 1] == LF
}

/// Whether a bare LF or a bare CR stands at `at`: an LF that no CR comes
/// before, or a CR that something other than LF follows.
pub open spec fn bare_at(s: Seq<u8>, at: int) -> bool {
    &&& 0 <= at < s.len()
    &&& {
        ||| s[at] == LF && (at == 0 || s[at - 1] != CR)
        ||| s[at] == CR && at + 1 < s.len() && s[at + 1] != LF
    }
}

/// A line that holds a bare LF or a bare CR before its end is refused for
/// its line termination, whatever its code and whatever follows.
pub proof fn bare_line_end_is_found(code: u16, is_last: bool, rest: Seq<u8>, at: int)
    requires
        code < 1000,
        bare_at(rest, at),
        forall|j: int| 0 <= j < at ==> !line_end_at(rest, j),
    ensures
        line_outcome(
            digits(code) + seq![
                if is_last {
                    SPACE
                } else {
                    DASH
                },
            ] + rest,
        ) == Outcome::<Line>::Malformed(MalformedError::InvalidLineTermination),
{
    let s = digits(code) + seq![
        if is_last {
            SPACE
        } else {
            DASH
        },
    ] + rest;
    assert(s.subrange(4, s.len() as int) =~= rest);
    first_break(rest, 0, at);
}

/// A reply with a line that holds a bare LF or a bare CR before its end is
/// refused for its line termination, whatever follows: the line may be the
/// first of the reply, or come behind lines that bear the same code.
pub proof fn bare_line_end_in_reply(
    code: u16,
    lines: Seq<Seq<u8>>,
    is_last: bool,
    rest: Seq<u8>,
    at: int,
)
    requires
        code < 1000,
        forall|i: int| 0 <= i < lines.len() ==> is_text(#[trigger] lines[i]),
        bare_at(rest, at),
        forall|j: int| 0 <= j < at ==> !line_end_at(rest, j),
    ensures
        reply_outcome(
            dashed_bytes(code, lines) + (digits(code) + seq![
                if is_last {
                    SPACE
                } else {
                    DASH
                },
            ] + rest),
        ) == Outcome::<Parsed>::Malformed(MalformedError::InvalidLineTermination),
{
    let before = dashed_bytes(code, lines);
    let line = digits(code) + seq![
        if is_last {
            SPACE
        } else {
            DASH
        },
    ] + rest;
    let raw = before + line;
    bare_line_end_is_found(code, is_last, rest, at);
    dashed_read_back(code, lines);
    assert(before.subrange(0, before.len() as int) =~= before);
    assert(raw.subrange(before.len() as int, raw.len() as int) =~= line);
    if lines.len() == 0 {
        assert(raw =~= line);
    }
    reply_step(before, line, before.len() as int, code);
}

/// Before a bare CR or LF with no line end before it, the first CR or LF
/// of all is bare too.
proof fn first_break(s: Seq<u8>, i: int, at: int)
    requires
        0 <= i <= at,
        bare_at(s, at),
        forall|j: int| 0 <= j < at ==> !line_end_at(s, j),
        forall|j: int| 0 <= j < i ==> s[j] != CR && s[j] != LF,
    ensures
        scan(s, i) is Bad,
    decreases at - i,
{
    if s[i] != CR && s[i] != LF {
        first_break(s, i + 1, at);
    } else if s[i] == CR && i < at {
        assert(!line_end_at(s, i));
    }
}

/// Lines with a dash and one more behind them, with `rest` behind it, are
/// the lines with that one among them, and `rest`.
pub proof fn dashed_push(code: u16, lines: Seq<Seq<u8>>, text: Seq<u8>, rest: Seq<u8>)
    requires
        forall|i: int| 0 <= i < lines.len() ==> is_text(#[trigger] lines[i]),
        is_text(text),
    ensures
        dashed_bytes(code, lines.push(text)) + rest == dashed_bytes(code, lines) + (line_bytes(
            code,
            false,
            text,
        ) + rest),
        dashed_bytes(code, lines.push(text)).len() == dashed_bytes(code, lines).len()
            + text.len() + 6,
        forall|i: int| 0 <= i <= lines.len() ==> is_text(#[trigger] lines.push(text)[i]),
{
    let grown = lines.push(text);
    let laid = dashed_bytes(code, lines);
    let line = line_bytes(code, false, text);
    assert(grown.drop_last() =~= lines);
    assert(dashed_bytes(code, grown) == laid + line);
    assert((laid + line) + rest =~= laid + (line + rest));
    assert forall|i: int| 0 <= i <= lines.len() implies is_text(#[trigger] grown[i]) by {
        if i < lines.len() {
            assert(grown[i] == lines[i]);
        }
    }
}

/// Three digits spell the code that they are read as.
proof fn digits_spell(d0: u8, d1: u8, d2: u8)
    requires
        is_digit(d0),
        is_digit(d1),
        is_digit(d2),
    ensures
        0 <= code_of(d0, d1, d2) < 1000,
        digits(code_of(d0, d1, d2) as u16) == seq![d0, d1, d2],
{
    let a = d0 - 48;
    let b = d1 - 48;
    let c = d2 - 48;
    let code = 100 * a + 10 * b + c;
    assert(code_of(d0, d1, d2) == code);
    assert(code / 100 == a);
    assert(code / 10 % 10 == b);
    assert(code % 10 == c);
    assert(digits(code as u16) =~= seq![d0, d1, d2]);
}

/// A line that was read is the line that a server writes with its code,
/// its marker and its text.
pub proof fn line_is_its_bytes(s: Seq<u8>)
    requires
        line_outcome(s) is Done,
    ensures
        ({
            let l = line_outcome(s)->Done_0;
            &&& l.code < 1000
            &&& is_text(l.text)
            &&& 0 <= l.len <= s.len()
            &&& s.subrange(0, l.len) == line_bytes(l.code, l.is_last, l.text)
        }),
{
    let l = line_outcome(s)->Done_0;
    let rest = s.subrange(4, s.len() as int);
    line_done_is_stable(s, Seq::empty());
    scan_found_is_stable(rest, 0, Seq::empty());
    let i = scan(rest, 0)->Found_0;
    assert forall|k: int| 0 <= k < l.text.len() implies l.text[k] != CR && l.text[k] != LF by {
        assert(l.text[k] == rest[k]);
    }
    assert(rest[i] == s[i + 4] && rest[i + 1] == s[i + 5]);
    digits_spell(s[0], s[1], s[2]);
    assert(s.subrange(0, l.len) =~= line_bytes(l.code, l.is_last, l.text));
}

} // verus!
