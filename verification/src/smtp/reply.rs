//! A parsed reply, kept in the bytes it was read from.
//!
//! Every line of a reply begins with four bytes, three digits and a space or
//! a dash, and ends with CRLF. Once a line has been parsed those bytes are
//! free, so the reader stores lengths in them and the reply can be walked
//! without looking for a line end again:
//!
//! ```text
//! [code: 2] [len 0: 2] text 0  [CR LF] [2 unused] [len 1: 2] text 1  ...  [CR LF]
//! ```
//!
//! Both numbers are little-endian. What follows the last text is at most two
//! bytes long.
use vstd::prelude::*;
use vstd::slice::slice_subrange;
use vstd::string::StringExecFns;
use vstd::string::StringSliceAdditionalSpecFns;

verus! {

/// `core::str::Utf8Error`, the error of `core::str::from_utf8`. Nothing is
/// known of a value of it but that it is one.
#[verifier::external_type_specification]
#[verifier::external_body]
pub struct ExUtf8Error(core::str::Utf8Error);

/// `core::str::from_utf8` accepts exactly the byte strings that are UTF-8, and
/// the string it returns is made of the bytes it was given.
pub assume_specification<'a>[ core::str::from_utf8 ](v: &'a [u8]) -> (r: Result<
    &'a str,
    core::str::Utf8Error,
>)
    ensures
        r is Ok <==> vstd::utf8::valid_utf8(v@),
        r matches Ok(s) ==> s.spec_bytes() == v@,
;

/// The number that two bytes hold, the low byte first.
pub open spec fn le16(lo: u8, hi: u8) -> int {
    lo as int + 256 * (hi as int)
}

/// Whether `rem` is a chain of texts whose first is `len` bytes long: each
/// text is UTF-8 and lies within `rem`, six bytes part it from the next, the
/// last two of them the next length, and at most two bytes follow the last.
pub open spec fn layout_ok(len: int, rem: Seq<u8>) -> bool
    decreases rem.len(),
{
    &&& 0 <= len <= rem.len()
    &&& vstd::utf8::valid_utf8(rem.subrange(0, len))
    &&& {
        let next = rem.subrange(len, rem.len() as int);
        if next.len() < 6 {
            next.len() <= 2
        } else {
            layout_ok(le16(next[4], next[5]), next.subrange(6, next.len() as int))
        }
    }
}

/// The texts of the chain, first to last. A chain of no bytes holds none.
pub open spec fn layout_lines(len: int, rem: Seq<u8>) -> Seq<Seq<u8>>
    decreases rem.len(),
{
    if rem.len() == 0 || len < 0 || len > rem.len() {
        Seq::empty()
    } else {
        let next = rem.subrange(len, rem.len() as int);
        if next.len() < 6 {
            seq![rem.subrange(0, len)]
        } else {
            seq![rem.subrange(0, len)] + layout_lines(
                le16(next[4], next[5]),
                next.subrange(6, next.len() as int),
            )
        }
    }
}

/// Whether `region` is a whole parsed reply: code, first length, chain.
pub open spec fn region_ok(region: Seq<u8>) -> bool {
    &&& region.len() >= 4
    &&& layout_ok(le16(region[2], region[3]), region.subrange(4, region.len() as int))
}

/// The code that a parsed reply's region holds.
pub open spec fn region_code(region: Seq<u8>) -> int {
    le16(region[0], region[1])
}

/// The texts that a parsed reply's region holds.
pub open spec fn region_lines(region: Seq<u8>) -> Seq<Seq<u8>> {
    layout_lines(le16(region[2], region[3]), region.subrange(4, region.len() as int))
}

/// Whether `rem` is a chain as the reader leaves it: sound, and with the two
/// bytes of a line end behind its last text.
pub open spec fn layout_closed(len: int, rem: Seq<u8>) -> bool
    decreases rem.len(),
{
    &&& 0 <= len <= rem.len()
    &&& vstd::utf8::valid_utf8(rem.subrange(0, len))
    &&& {
        let next = rem.subrange(len, rem.len() as int);
        if next.len() < 6 {
            next.len() == 2
        } else {
            layout_closed(le16(next[4], next[5]), next.subrange(6, next.len() as int))
        }
    }
}

/// A chain as the reader leaves it is sound and holds a text.
pub proof fn layout_closed_is_ok(len: int, rem: Seq<u8>)
    requires
        layout_closed(len, rem),
    ensures
        layout_ok(len, rem),
        layout_lines(len, rem).len() >= 1,
    decreases rem.len(),
{
    let next = rem.subrange(len, rem.len() as int);
    if next.len() >= 6 {
        layout_closed_is_ok(le16(next[4], next[5]), next.subrange(6, next.len() as int));
    }
}

/// One text with its line end is a chain.
pub proof fn layout_closed_first(rem: Seq<u8>, text: Seq<u8>)
    requires
        rem.len() == text.len() + 2,
        rem.subrange(0, text.len() as int) == text,
        vstd::utf8::valid_utf8(text),
    ensures
        layout_closed(text.len() as int, rem),
        layout_lines(text.len() as int, rem) == seq![text],
{
}

/// A chain with one more line behind it, `ext`, is a chain with one more
/// text: `ext` is two free bytes, the length of the text, the text and a
/// line end.
pub proof fn layout_closed_push(len: int, rem: Seq<u8>, ext: Seq<u8>, text: Seq<u8>)
    requires
        layout_closed(len, rem),
        ext.len() == text.len() + 6,
        le16(ext[2], ext[3]) == text.len(),
        ext.subrange(4, 4 + text.len() as int) == text,
        vstd::utf8::valid_utf8(text),
    ensures
        layout_closed(len, rem + ext),
        layout_lines(len, rem + ext) == layout_lines(len, rem).push(text),
    decreases rem.len(),
{
    let next = rem.subrange(len, rem.len() as int);
    let grown = (rem + ext).subrange(len, (rem + ext).len() as int);
    assert((rem + ext).subrange(0, len) =~= rem.subrange(0, len));
    assert(grown =~= next + ext);
    if next.len() < 6 {
        let last = grown.subrange(6, grown.len() as int);
        assert(last =~= ext.subrange(4, ext.len() as int));
        assert(last.subrange(0, text.len() as int) =~= text);
        layout_closed_first(last, text);
        assert(seq![rem.subrange(0, len)] + seq![text] =~= seq![rem.subrange(0, len)].push(
            text,
        ));
    } else {
        let tail = next.subrange(6, next.len() as int);
        assert(grown.subrange(6, grown.len() as int) =~= tail + ext);
        layout_closed_push(le16(next[4], next[5]), tail, ext, text);
        assert(seq![rem.subrange(0, len)] + layout_lines(le16(next[4], next[5]), tail).push(
            text,
        ) =~= (seq![rem.subrange(0, len)] + layout_lines(le16(next[4], next[5]), tail)).push(
            text,
        ));
    }
}

fn read_le16(lo: u8, hi: u8) -> (n: u16)
    ensures
        n == le16(lo, hi),
{
    lo as u16 + 256 * (hi as u16)
}

/// One line of a reply: its code, whether it is the reply's last, its text.
#[derive(Debug)]
pub struct ReplyLine<'a> {
    code: u16,
    is_last: bool,
    message: &'a str,
}

impl<'a> ReplyLine<'a> {
    pub fn new(code: u16, is_last: bool, message: &'a str) -> (line: Self)
        ensures
            line.code() == code,
            line.is_last() == is_last,
            line.message() == message,
    {
        ReplyLine { code, is_last, message }
    }

    pub closed spec fn spec_code(&self) -> u16 {
        self.code
    }

    pub closed spec fn spec_is_last(&self) -> bool {
        self.is_last
    }

    pub closed spec fn spec_message(&self) -> &'a str {
        self.message
    }

    #[verifier::when_used_as_spec(spec_code)]
    pub fn code(&self) -> (code: u16)
        ensures
            code == self.code(),
    {
        self.code
    }

    #[verifier::when_used_as_spec(spec_is_last)]
    pub fn is_last(&self) -> (is_last: bool)
        ensures
            is_last == self.is_last(),
    {
        self.is_last
    }

    #[verifier::when_used_as_spec(spec_message)]
    pub fn message(&self) -> (message: &'a str)
        ensures
            message == self.message(),
    {
        self.message
    }

    /// The line as it stood on the wire, without its line end: the code, a
    /// space on the last line of a reply and a dash on the others, the text.
    pub open spec fn text(&self) -> Seq<char> {
        crate::decimal::decimal(self.code() as nat) + (if self.is_last() {
            " "@
        } else {
            "-"@
        }) + self.message()@
    }

    /// The line as it stood on the wire, as a string.
    pub fn to_string(&self) -> (text: String)
        ensures
            text@ == self.text(),
    {
        let mut out = String::new();
        crate::decimal::push_decimal(&mut out, self.code as u64);
        out.append(
            if self.is_last {
                " "
            } else {
                "-"
            },
        );
        out.append(self.message);
        out
    }
}

/// A cursor over the lines of a parsed reply. It reads the bytes it was made
/// over and nothing else.
#[derive(Clone, Copy)]
pub struct Reply<'a> {
    code: u16,
    message_len: u16,
    remaining_buffer: &'a [u8],
}

impl<'a> Reply<'a> {
    /// The chain behind the cursor is sound: walking it stays within the
    /// bytes and finds only UTF-8.
    #[verifier::type_invariant]
    pub closed spec fn wf(&self) -> bool {
        layout_ok(self.message_len as int, self.remaining_buffer@)
    }

    /// The texts not yet walked over, next first.
    pub closed spec fn view(&self) -> Seq<Seq<u8>> {
        layout_lines(self.message_len as int, self.remaining_buffer@)
    }

    pub closed spec fn spec_code(&self) -> u16 {
        self.code
    }

    /// The bytes that the cursor can reach: what lies behind the first four
    /// bytes of the region it was made over, as far as it has not walked yet.
    pub closed spec fn bytes(&self) -> Seq<u8> {
        self.remaining_buffer@
    }

    /// The text under the cursor; empty once the cursor has run out.
    pub closed spec fn current(&self) -> Seq<u8> {
        self.remaining_buffer@.subrange(0, self.message_len as int)
    }

    /// While the cursor has not run out, the text under it is the first of
    /// those not yet walked over.
    pub proof fn current_is_first(&self)
        requires
            self.wf(),
        ensures
            self@.len() > 0 ==> self.current() == self@[0],
            self@.len() == 0 ==> self.current().len() == 0,
    {
    }

    /// The cursor at the start of a parsed reply.
    pub fn from_buffer(buffer: &'a [u8]) -> (reply: Reply<'a>)
        requires
            region_ok(buffer@),
        ensures
            reply.code() == region_code(buffer@),
            reply@ == region_lines(buffer@),
            reply.bytes() == buffer@.subrange(4, buffer@.len() as int),
    {
        let code = read_le16(buffer[0], buffer[1]);
        let message_len = read_le16(buffer[2], buffer[3]);
        let remaining_buffer = slice_subrange(buffer, 4, buffer.len());
        Reply { code, message_len, remaining_buffer }
    }

    /// The cursor at the start of a parsed reply, where `buffer` is one.
    pub fn try_from_buffer(buffer: &'a [u8]) -> (reply: Option<Reply<'a>>)
        ensures
            reply is Some <==> region_ok(buffer@),
            reply matches Some(r) ==> {
                &&& r.code() == region_code(buffer@)
                &&& r@ == region_lines(buffer@)
                &&& r.bytes() == buffer@.subrange(4, buffer@.len() as int)
            },
    {
        if buffer.len() < 4 {
            return None;
        }
        let mut len = read_le16(buffer[2], buffer[3]) as usize;
        let mut rem = slice_subrange(buffer, 4, buffer.len());
        loop
            invariant
                buffer@.len() >= 4,
                len <= 0xffff,
                region_ok(buffer@) == layout_ok(len as int, rem@),
            decreases rem@.len(),
        {
            if len > rem.len() {
                return None;
            }
            let (this, next) = rem.split_at(len);
            if core::str::from_utf8(this).is_err() {
                return None;
            }
            if next.len() < 6 {
                if next.len() <= 2 {
                    return Some(Reply::from_buffer(buffer));
                } else {
                    return None;
                }
            }
            len = read_le16(next[4], next[5]) as usize;
            rem = slice_subrange(next, 6, next.len());
        }
    }

    #[verifier::when_used_as_spec(spec_code)]
    pub fn code(&self) -> (code: u16)
        ensures
            code == self.code(),
    {
        self.code
    }

    /// Hands out the text under the cursor and moves to the next.
    pub fn next(&mut self) -> (line: Option<&'a str>)
        ensures
            final(self).code() == old(self).code(),
            match line {
                Some(s) => old(self)@.len() > 0 && s.spec_bytes() == old(self)@[0] && final(self)@
                    == old(self)@.drop_first(),
                None => old(self)@.len() == 0 && final(self)@.len() == 0,
            },
            final(self).bytes().len() <= old(self).bytes().len(),
            final(self).bytes() == old(self).bytes().skip(
                old(self).bytes().len() - final(self).bytes().len(),
            ),
            line matches Some(s) ==> s.spec_bytes() == old(self).bytes().subrange(
                0,
                s.spec_bytes().len() as int,
            ),
    {
        proof {
            use_type_invariant(&*self);
        }
        if self.remaining_buffer.len() == 0 {
            proof {
                assert(self.bytes() =~= self.bytes().skip(0));
            }
            return None;
        }
        let (this, next) = self.remaining_buffer.split_at(self.message_len as usize);
        if next.len() < 6 {
            *self = Reply {
                code: self.code,
                message_len: 0,
                remaining_buffer: slice_subrange(next, 0, 0),
            };
        } else {
            *self = Reply {
                code: self.code,
                message_len: read_le16(next[4], next[5]),
                remaining_buffer: slice_subrange(next, 6, next.len()),
            };
        }
        proof {
            assert(old(self)@.drop_first() =~= self@);
            assert(self.bytes() =~= old(self).bytes().skip(
                old(self).bytes().len() - self.bytes().len(),
            ));
        }
        match core::str::from_utf8(this) {
            Ok(s) => Some(s),
            Err(_) => vstd::pervasive::unreached(),
        }
    }

    /// The texts not yet walked over, in order. The cursor stays.
    pub fn lines(&self) -> (lines: Vec<&'a str>)
        ensures
            lines@.len() == self@.len(),
            forall|i: int|
                0 <= i < lines@.len() ==> (#[trigger] lines@[i]).spec_bytes() == self@[i],
    {
        let mut cursor = *self;
        let mut lines: Vec<&'a str> = Vec::new();
        loop
            invariant
                lines@.len() + cursor@.len() == self@.len(),
                cursor@ == self@.subrange(lines@.len() as int, self@.len() as int),
                forall|i: int|
                    0 <= i < lines@.len() ==> (#[trigger] lines@[i]).spec_bytes() == self@[i],
            decreases cursor@.len(),
        {
            let ghost before = cursor@;
            match cursor.next() {
                Some(s) => {
                    lines.push(s);
                    proof {
                        assert(cursor@ =~= self@.subrange(
                            lines@.len() as int,
                            self@.len() as int,
                        ));
                    }
                },
                None => {
                    return lines;
                },
            }
        }
    }

    /// The lines not yet walked over, in order, each with the reply's code.
    /// The last of them, and no other, is marked as the last.
    pub fn replies(&self) -> (lines: Vec<ReplyLine<'a>>)
        ensures
            lines@.len() == self@.len(),
            forall|i: int|
                0 <= i < lines@.len() ==> {
                    &&& (#[trigger] lines@[i]).code() == self.code()
                    &&& lines@[i].message().spec_bytes() == self@[i]
                    &&& lines@[i].is_last() == (i == lines@.len() - 1)
                },
    {
        let mut cursor = *self;
        let mut lines: Vec<ReplyLine<'a>> = Vec::new();
        loop
            invariant
                cursor.code() == self.code(),
                lines@.len() + cursor@.len() == self@.len(),
                cursor@ == self@.subrange(lines@.len() as int, self@.len() as int),
                forall|i: int|
                    0 <= i < lines@.len() ==> {
                        &&& (#[trigger] lines@[i]).code() == self.code()
                        &&& lines@[i].message().spec_bytes() == self@[i]
                        &&& lines@[i].is_last() == (i == self@.len() - 1)
                    },
            decreases cursor@.len(),
        {
            match cursor.next() {
                Some(message) => {
                    proof {
                        use_type_invariant(&cursor);
                    }
                    let is_last = cursor.remaining_buffer.len() == 0;
                    lines.push(ReplyLine { code: self.code, is_last, message });
                    proof {
                        assert(cursor@ =~= self@.subrange(
                            lines@.len() as int,
                            self@.len() as int,
                        ));
                    }
                },
                None => {
                    return lines;
                },
            }
        }
    }

    /// The text under the cursor.
    pub fn current_line(self) -> (line: &'a str)
        ensures
            line.spec_bytes() == self.current(),
    {
        proof {
            use_type_invariant(&self);
        }
        let this = slice_subrange(self.remaining_buffer, 0, self.message_len as usize);
        match core::str::from_utf8(this) {
            Ok(s) => s,
            Err(_) => vstd::pervasive::unreached(),
        }
    }
}

} // verus!
