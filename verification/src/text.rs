//! Searching and comparing bytes, and cutting strings at ASCII bytes.
use vstd::prelude::*;
use vstd::string::StringSliceAdditionalSpecFns;

verus! {

/// The index of the first `b` in `s`, or the length of `s` if it holds none.
pub open spec fn position(s: Seq<u8>, b: u8) -> int
    decreases s.len(),
{
    if s.len() == 0 || s[0] == b {
        0
    } else {
        1 + position(s.drop_first(), b)
    }
}

/// `position` names the first place where `b` stands.
pub proof fn position_is_first(s: Seq<u8>, b: u8)
    ensures
        0 <= position(s, b) <= s.len(),
        position(s, b) < s.len() ==> s[position(s, b)] == b,
        forall|j: int| 0 <= j < position(s, b) ==> s[j] != b,
    decreases s.len(),
{
    if s.len() != 0 && s[0] != b {
        position_is_first(s.drop_first(), b);
        assert forall|j: int| 0 <= j < position(s, b) implies s[j] != b by {
            if j > 0 {
                assert(s[j] == s.drop_first()[j - 1]);
            }
        }
    }
}

/// The first place where `b` stands is what `position` names.
pub proof fn first_is_position(s: Seq<u8>, b: u8, i: int)
    requires
        0 <= i <= s.len(),
        i < s.len() ==> s[i] == b,
        forall|j: int| 0 <= j < i ==> s[j] != b,
    ensures
        position(s, b) == i,
    decreases s.len(),
{
    if i > 0 {
        assert(s[0] != b);
        assert forall|j: int| 0 <= j < i - 1 implies s.drop_first()[j] != b by {
            assert(s.drop_first()[j] == s[j + 1]);
        }
        first_is_position(s.drop_first(), b, i - 1);
    }
}

/// Finds the first `b` in `s`.
pub fn find_byte(s: &[u8], b: u8) -> (i: usize)
    ensures
        i == position(s@, b),
{
    let mut i: usize = 0;
    while i < s.len() && s[i] != b
        invariant
            i <= s@.len(),
            forall|j: int| 0 <= j < i ==> s@[j] != b,
        decreases s@.len() - i,
    {
        i = i + 1;
    }
    proof {
        first_is_position(s@, b, i as int);
    }
    i
}

/// What stands before the first `b` of `s`: all of `s` if it holds none.
pub open spec fn before(s: Seq<u8>, b: u8) -> Seq<u8> {
    s.subrange(0, position(s, b))
}

/// What stands behind the first `b` of `s`: nothing if it holds none.
pub open spec fn behind(s: Seq<u8>, b: u8) -> Seq<u8> {
    if position(s, b) < s.len() {
        s.subrange(position(s, b) + 1, s.len() as int)
    } else {
        Seq::empty()
    }
}

/// An ASCII byte of a string stands between two characters.
pub proof fn ascii_byte_is_boundary(bytes: Seq<u8>, i: int)
    requires
        vstd::utf8::valid_utf8(bytes),
        0 <= i < bytes.len(),
        bytes[i] < 0x80,
    ensures
        vstd::utf8::is_char_boundary(bytes, i),
        vstd::utf8::is_char_boundary(bytes, i + 1),
{
    vstd::utf8::is_char_boundary_iff_not_is_continuation_byte(bytes, i);
    if i + 1 == bytes.len() {
        vstd::utf8::is_char_boundary_start_end_of_seq(bytes);
    } else {
        vstd::utf8::valid_utf8_split(bytes, i);
        let tail = bytes.subrange(i, bytes.len() as int);
        assert(tail[0] == bytes[i]);
        assert(vstd::utf8::valid_utf8(vstd::utf8::pop_first_scalar(tail)));
        let rest = vstd::utf8::pop_first_scalar(tail);
        assert(rest =~= bytes.subrange(i + 1, bytes.len() as int));
        assert(rest[0] == bytes[i + 1]);
        assert(vstd::utf8::valid_first_scalar(rest));
        vstd::utf8::is_char_boundary_iff_not_is_continuation_byte(bytes, i + 1);
    }
}

/// Cuts `s` at its first `sep`, an ASCII byte, into what stands before it
/// and what stands behind it. `None` if `s` holds no `sep`.
pub fn split_once<'a>(s: &'a str, sep: u8) -> (r: Option<(&'a str, &'a str)>)
    requires
        sep < 0x80,
    ensures
        match r {
            Some((head, tail)) => {
                &&& position(s.spec_bytes(), sep) < s.spec_bytes().len()
                &&& head.spec_bytes() == before(s.spec_bytes(), sep)
                &&& tail.spec_bytes() == behind(s.spec_bytes(), sep)
            },
            None => position(s.spec_bytes(), sep) == s.spec_bytes().len(),
        },
{
    let bytes = s.as_bytes();
    let i = find_byte(bytes, sep);
    if i == bytes.len() {
        return None;
    }
    proof {
        position_is_first(bytes@, sep);
        vstd::utf8::encode_utf8_valid_utf8(s@);
        ascii_byte_is_boundary(bytes@, i as int);
    }
    let (head, rest) = s.split_at(i);
    proof {
        vstd::utf8::encode_utf8_valid_utf8(rest@);
        assert(rest.spec_bytes()[0] == sep);
        ascii_byte_is_boundary(rest.spec_bytes(), 0);
    }
    let (_, tail) = rest.split_at(1);
    proof {
        assert(tail.spec_bytes() =~= behind(s.spec_bytes(), sep));
    }
    Some((head, tail))
}

/// The lower-case form of an ASCII letter; any other byte as it is.
pub open spec fn lower(b: u8) -> u8 {
    if 65 <= b <= 90 {
        (b + 32) as u8
    } else {
        b
    }
}

/// Whether two byte strings are the same but for the case of ASCII letters.
pub open spec fn same_ignoring_case(a: Seq<u8>, b: Seq<u8>) -> bool {
    &&& a.len() == b.len()
    &&& forall|i: int| 0 <= i < a.len() ==> lower(a[i]) == lower(b[i])
}

fn to_lower(b: u8) -> (l: u8)
    ensures
        l == lower(b),
{
    if 65 <= b && b <= 90 {
        b + 32
    } else {
        b
    }
}

pub fn eq_ignore_ascii_case(a: &[u8], b: &[u8]) -> (same: bool)
    ensures
        same == same_ignoring_case(a@, b@),
{
    if a.len() != b.len() {
        return false;
    }
    let mut i: usize = 0;
    while i < a.len()
        invariant
            a@.len() == b@.len(),
            i <= a@.len(),
            forall|j: int| 0 <= j < i ==> lower(a@[j]) == lower(b@[j]),
        decreases a@.len() - i,
    {
        if to_lower(a[i]) != to_lower(b[i]) {
            return false;
        }
        i = i + 1;
    }
    true
}

pub fn bytes_eq(a: &[u8], b: &[u8]) -> (same: bool)
    ensures
        same == (a@ == b@),
{
    if a.len() != b.len() {
        return false;
    }
    let mut i: usize = 0;
    while i < a.len()
        invariant
            a@.len() == b@.len(),
            i <= a@.len(),
            forall|j: int| 0 <= j < i ==> a@[j] == b@[j],
        decreases a@.len() - i,
    {
        if a[i] != b[i] {
            return false;
        }
        i = i + 1;
    }
    proof {
        assert(a@ =~= b@);
    }
    true
}

/// Whether `s` holds the two bytes CR LF, one behind the other.
pub open spec fn has_crlf(s: Seq<u8>) -> bool {
    exists|i: int| 0 <= i && i + 1 < s.len() && s[i] == 13 && #[trigger] s[i + 1] == 10
}

pub fn contains_crlf(s: &[u8]) -> (found: bool)
    ensures
        found == has_crlf(s@),
{
    if s.len() < 2 {
        return false;
    }
    let last = s.len() - 1;
    let mut i: usize = 0;
    while i < last
        invariant
            last + 1 == s@.len(),
            i <= last,
            forall|j: int| 0 <= j < i ==> !(s@[j] == 13 && #[trigger] s@[j + 1] == 10),
        decreases last - i,
    {
        if s[i] == 13 && s[i + 1] == 10 {
            return true;
        }
        i = i + 1;
    }
    false
}

/// How many bytes the white-space character takes that begins at `i`, or 0
/// if none begins there. White space is what Unicode calls so, in UTF-8.
pub open spec fn space_len(s: Seq<u8>, i: int) -> int {
    if i < 0 || i >= s.len() {
        0
    } else if (9 <= s[i] <= 13) || s[i] == 32 {
        1
    } else if i + 1 < s.len() && s[i] == 0xC2 && (s[i + 1] == 0x85 || s[i + 1] == 0xA0) {
        2
    } else if i + 2 < s.len() && {
        ||| (s[i] == 0xE1 && s[i + 1] == 0x9A && s[i + 2] == 0x80)
        ||| (s[i] == 0xE2 && s[i + 1] == 0x80 && (0x80 <= s[i + 2] <= 0x8A || s[i + 2] == 0xA8
            || s[i + 2] == 0xA9 || s[i + 2] == 0xAF))
        ||| (s[i] == 0xE2 && s[i + 1] == 0x81 && s[i + 2] == 0x9F)
        ||| (s[i] == 0xE3 && s[i + 1] == 0x80 && s[i + 2] == 0x80)
    } {
        3
    } else {
        0
    }
}

/// Where the word ends that stands at `i`: at the next white space, or at
/// the end of `s`.
pub open spec fn word_end(s: Seq<u8>, i: int) -> int
    decreases s.len() - i,
{
    if i < 0 || i >= s.len() || space_len(s, i) > 0 {
        i
    } else {
        word_end(s, i + 1)
    }
}

/// Whether one of the words of `s` at or behind `i` is `wanted`, but for
/// the case of ASCII letters. Words are what white space parts.
pub open spec fn has_word(s: Seq<u8>, i: int, wanted: Seq<u8>) -> bool
    decreases s.len() - i,
{
    if i < 0 || i >= s.len() {
        false
    } else if space_len(s, i) > 0 {
        has_word(s, i + space_len(s, i), wanted)
    } else if word_end(s, i) <= i || word_end(s, i) > s.len() {
        false
    } else {
        same_ignoring_case(s.subrange(i, word_end(s, i)), wanted) || has_word(
            s,
            word_end(s, i),
            wanted,
        )
    }
}

fn space_len_at(s: &[u8], i: usize) -> (n: usize)
    requires
        i < s@.len(),
    ensures
        n == space_len(s@, i as int),
        n <= 3,
        i + n <= s@.len(),
{
    let b = s[i];
    let left = s.len() - i;
    if (9 <= b && b <= 13) || b == 32 {
        1
    } else if left > 1 && b == 0xC2 && (s[i + 1] == 0x85 || s[i + 1] == 0xA0) {
        2
    } else if left > 2 && ((b == 0xE1 && s[i + 1] == 0x9A && s[i + 2] == 0x80) || (b == 0xE2
        && s[i + 1] == 0x80 && ((0x80 <= s[i + 2] && s[i + 2] <= 0x8A) || s[i + 2] == 0xA8
        || s[i + 2] == 0xA9 || s[i + 2] == 0xAF)) || (b == 0xE2 && s[i + 1] == 0x81 && s[i + 2]
        == 0x9F) || (b == 0xE3 && s[i + 1] == 0x80 && s[i + 2] == 0x80)) {
        3
    } else {
        0
    }
}

/// Whether one of the words of `s` is `wanted`, but for the case of ASCII
/// letters.
pub fn contains_word(s: &[u8], wanted: &[u8]) -> (found: bool)
    ensures
        found == has_word(s@, 0, wanted@),
{
    let mut i: usize = 0;
    while i < s.len()
        invariant
            i <= s@.len(),
            has_word(s@, 0, wanted@) == has_word(s@, i as int, wanted@),
        decreases s@.len() - i,
    {
        let n = space_len_at(s, i);
        if n > 0 {
            i = i + n;
        } else {
            let mut end: usize = i + 1;
            while end < s.len() && space_len_at(s, end) == 0
                invariant
                    i < end <= s@.len(),
                    word_end(s@, i as int) == word_end(s@, end as int),
                decreases s@.len() - end,
            {
                end = end + 1;
            }
            if eq_ignore_ascii_case(vstd::slice::slice_subrange(s, i, end), wanted) {
                return true;
            }
            i = end;
        }
    }
    false
}

} // verus!
