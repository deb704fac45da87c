//! Dot-stuffing: how the content of a message is kept apart from the line
//! `.` that ends it.
//!
//! A line of the content that begins with a dot is sent with one more dot
//! before it, and the receiver takes the first dot off every line that
//! begins with one. So no line of the content, as it is sent, is a dot
//! alone.
use vstd::prelude::*;

verus! {

pub const DOT: u8 = 46;

/// Whether a line begins at `i`: at the start, and behind every CRLF.
pub open spec fn line_start(s: Seq<u8>, i: int) -> bool {
    i == 0 || (2 <= i <= s.len() && s[i - 2] == 13 && s[i - 1] == 10)
}

/// Whether the byte at `i` is a dot that a line begins with.
pub open spec fn leading_dot(s: Seq<u8>, i: int) -> bool {
    0 <= i < s.len() && s[i] == DOT && line_start(s, i)
}

/// The bytes of `s` from `i` on, with a dot more before every dot that a
/// line begins with.
pub open spec fn stuff_from(s: Seq<u8>, i: int) -> Seq<u8>
    decreases s.len() - i,
{
    if i < 0 || i >= s.len() {
        Seq::empty()
    } else if leading_dot(s, i) {
        seq![DOT, DOT] + stuff_from(s, i + 1)
    } else {
        seq![s[i]] + stuff_from(s, i + 1)
    }
}

/// `s` as it is sent.
pub open spec fn dot_stuff(s: Seq<u8>) -> Seq<u8> {
    stuff_from(s, 0)
}

/// The bytes of `t` from `i` on, without the first dot of every line that
/// begins with one.
pub open spec fn unstuff_from(t: Seq<u8>, i: int) -> Seq<u8>
    decreases t.len() - i,
{
    if i < 0 || i >= t.len() {
        Seq::empty()
    } else if leading_dot(t, i) {
        if i + 1 < t.len() {
            seq![t[i + 1]] + unstuff_from(t, i + 2)
        } else {
            Seq::empty()
        }
    } else {
        seq![t[i]] + unstuff_from(t, i + 1)
    }
}

/// `t` as the receiver reads it.
pub open spec fn unstuff(t: Seq<u8>) -> Seq<u8> {
    unstuff_from(t, 0)
}

/// Whether `t` at `j` goes on as `s` at `i` is sent: the rest of `t` is the
/// rest of `s` as it is sent, the byte before is the same in both, and a
/// line begins in the one where it begins in the other.
spec fn in_step(s: Seq<u8>, i: int, t: Seq<u8>, j: int) -> bool {
    &&& 0 <= i <= s.len()
    &&& 0 <= j <= t.len()
    &&& t.subrange(j, t.len() as int) == stuff_from(s, i)
    &&& i == 0 <==> j == 0
    &&& i > 0 ==> t[j - 1] == s[i - 1]
    &&& line_start(t, j) <==> line_start(s, i)
}

/// One byte on in `s` is one byte on in `t`, or two where a dot was put in.
proof fn step_on(s: Seq<u8>, i: int, t: Seq<u8>, j: int)
    requires
        in_step(s, i, t, j),
        i < s.len(),
    ensures
        leading_dot(s, i) ==> j + 2 <= t.len() && t[j] == DOT && t[j + 1] == DOT && in_step(
            s,
            i + 1,
            t,
            j + 2,
        ),
        !leading_dot(s, i) ==> j + 1 <= t.len() && t[j] == s[i] && in_step(s, i + 1, t, j + 1),
{
    let rest = t.subrange(j, t.len() as int);
    if leading_dot(s, i) {
        assert(rest[0] == DOT && rest[1] == DOT);
        assert(t.subrange(j + 2, t.len() as int) =~= rest.subrange(2, rest.len() as int));
        assert(rest.subrange(2, rest.len() as int) =~= stuff_from(s, i + 1));
    } else {
        assert(rest[0] == s[i]);
        assert(t.subrange(j + 1, t.len() as int) =~= rest.subrange(1, rest.len() as int));
        assert(rest.subrange(1, rest.len() as int) =~= stuff_from(s, i + 1));
    }
}

proof fn unstuff_in_step(s: Seq<u8>, i: int, t: Seq<u8>, j: int)
    requires
        in_step(s, i, t, j),
    ensures
        unstuff_from(t, j) == s.subrange(i, s.len() as int),
        forall|k: int|
            j <= k && #[trigger] leading_dot(t, k) ==> k + 1 < t.len() && t[k + 1] == DOT,
    decreases s.len() - i,
{
    if i >= s.len() {
        assert(t.subrange(j, t.len() as int).len() == 0);
        assert(s.subrange(i, s.len() as int) =~= Seq::<u8>::empty());
    } else {
        step_on(s, i, t, j);
        if leading_dot(s, i) {
            unstuff_in_step(s, i + 1, t, j + 2);
            assert(s.subrange(i, s.len() as int) =~= seq![s[i]] + s.subrange(
                i + 1,
                s.len() as int,
            ));
            assert forall|k: int| j <= k && #[trigger] leading_dot(t, k) implies k + 1 < t.len()
                && t[k + 1] == DOT by {
                if k == j + 1 {
                    assert(!line_start(t, k));
                }
            }
        } else {
            unstuff_in_step(s, i + 1, t, j + 1);
            assert(s.subrange(i, s.len() as int) =~= seq![s[i]] + s.subrange(
                i + 1,
                s.len() as int,
            ));
        }
    }
}

/// What is sent is read back as it was, and none of its lines begins with
/// one dot alone: a line that begins with a dot goes on with a dot.
pub proof fn stuffing_round_trip(body: Seq<u8>)
    ensures
        unstuff(dot_stuff(body)) == body,
        forall|k: int| #[trigger]
            leading_dot(dot_stuff(body), k) ==> k + 1 < dot_stuff(body).len() && dot_stuff(
                body,
            )[k + 1] == DOT,
{
    let t = dot_stuff(body);
    assert(t.subrange(0, t.len() as int) =~= t);
    unstuff_in_step(body, 0, t, 0);
    assert(body.subrange(0, body.len() as int) =~= body);
}

/// The bytes of `s` from `i` on as they are sent, where the dot that is put
/// before the byte at `i`, if any, has been sent already.
pub open spec fn rest_from(s: Seq<u8>, i: int) -> Seq<u8> {
    if i < 0 || i >= s.len() {
        Seq::empty()
    } else {
        seq![s[i]] + stuff_from(s, i + 1)
    }
}

/// A stretch that holds no dot that a line begins with, but maybe at its
/// start, is sent as it is.
pub proof fn plain_stretch(s: Seq<u8>, a: int, b: int)
    requires
        0 <= a <= b <= s.len(),
        forall|k: int| a < k < b ==> !leading_dot(s, k),
    ensures
        a < b ==> rest_from(s, a) == s.subrange(a, b) + stuff_from(s, b),
    decreases b - a,
{
    if a + 1 < b {
        plain_stretch(s, a + 1, b);
        assert(s.subrange(a, b) =~= seq![s[a]] + s.subrange(a + 1, b));
        assert(seq![s[a]] + (s.subrange(a + 1, b) + stuff_from(s, b)) =~= (seq![s[a]]
            + s.subrange(a + 1, b)) + stuff_from(s, b));
    } else if a < b {
        assert(s.subrange(a, b) =~= seq![s[a]]);
    }
}

/// Whether CR, LF and a dot stand at `i` in `data`.
pub open spec fn crlf_dot_at(data: Seq<u8>, i: int) -> bool {
    0 <= i && i + 2 < data.len() && data[i] == 13 && data[i + 1] == 10 && data[i + 2] == DOT
}

/// Finds the first place in `data` where CR, LF and a dot stand, and
/// returns the place of the CR.
pub fn find_crlf_dot(data: &[u8]) -> (found: Option<usize>)
    ensures
        match found {
            Some(i) => crlf_dot_at(data@, i as int) && forall|k: int|
                0 <= k < i ==> !crlf_dot_at(data@, k),
            None => forall|k: int| !crlf_dot_at(data@, k),
        },
{
    if data.len() < 3 {
        return None;
    }
    let last = data.len() - 2;
    let mut i: usize = 0;
    while i < last
        invariant
            last + 2 == data@.len(),
            i <= last,
            forall|k: int| 0 <= k < i ==> !crlf_dot_at(data@, k),
        decreases last - i,
    {
        if data[i] == 13 && data[i + 1] == 10 && data[i + 2] == DOT {
            return Some(i);
        }
        i = i + 1;
    }
    None
}

/// What is sent begins with a dot more where the content begins with a
/// dot, and goes on as the content does from its start.
pub proof fn stuffing_start(s: Seq<u8>)
    ensures
        dot_stuff(s) == (if leading_dot(s, 0) {
            seq![DOT]
        } else {
            Seq::<u8>::empty()
        }) + rest_from(s, 0),
{
    if leading_dot(s, 0) {
        assert(seq![DOT, DOT] + stuff_from(s, 1) =~= seq![DOT] + (seq![s[0]] + stuff_from(s, 1)));
    } else {
        assert(Seq::<u8>::empty() + rest_from(s, 0) =~= rest_from(s, 0));
    }
}

/// Where `at` is the start of `s` or a dot, a stretch from `at` up to and
/// with the first CRLF that a dot follows is sent as it is, and a dot more
/// behind it.
pub proof fn stuffing_stretch(s: Seq<u8>, at: int, rel: int)
    requires
        0 <= at < s.len(),
        at == 0 || s[at] == DOT,
        crlf_dot_at(s.subrange(at, s.len() as int), rel),
        forall|k: int| 0 <= k < rel ==> !crlf_dot_at(s.subrange(at, s.len() as int), k),
    ensures
        at + rel + 2 < s.len(),
        s[at + rel + 2] == DOT,
        rest_from(s, at) == s.subrange(at, at + rel + 2) + seq![DOT] + rest_from(
            s,
            at + rel + 2,
        ),
{
    let tail = s.subrange(at, s.len() as int);
    let end = at + rel + 2;
    assert(tail[rel] == s[at + rel] && tail[rel + 1] == s[at + rel + 1] && tail[rel + 2]
        == s[end]);
    assert forall|k: int| at < k < end implies !leading_dot(s, k) by {
        if leading_dot(s, k) {
            if k - 2 >= at {
                assert(tail[k - 2 - at] == s[k - 2] && tail[k - 1 - at] == s[k - 1] && tail[k
                    - at] == s[k]);
                assert(crlf_dot_at(tail, k - 2 - at));
            }
        }
    }
    plain_stretch(s, at, end);
    assert(leading_dot(s, end));
    assert(seq![DOT, DOT] + stuff_from(s, end + 1) =~= seq![DOT] + rest_from(s, end));
    assert(s.subrange(at, end) + (seq![DOT] + rest_from(s, end)) =~= s.subrange(at, end)
        + seq![DOT] + rest_from(s, end));
}

/// Where `at` is the start of `s` or a dot, and no CRLF from `at` on is
/// followed by a dot, the rest of `s` is sent as it is.
pub proof fn stuffing_tail(s: Seq<u8>, at: int)
    requires
        0 <= at < s.len(),
        at == 0 || s[at] == DOT,
        forall|k: int| !crlf_dot_at(s.subrange(at, s.len() as int), k),
    ensures
        rest_from(s, at) == s.subrange(at, s.len() as int),
{
    let tail = s.subrange(at, s.len() as int);
    assert forall|k: int| at < k < s.len() implies !leading_dot(s, k) by {
        if leading_dot(s, k) {
            if k - 2 >= at {
                assert(tail[k - 2 - at] == s[k - 2] && tail[k - 1 - at] == s[k - 1] && tail[k
                    - at] == s[k]);
                assert(crlf_dot_at(tail, k - 2 - at));
            }
        }
    }
    plain_stretch(s, at, s.len() as int);
    assert(s.subrange(at, s.len() as int) + Seq::<u8>::empty() =~= s.subrange(
        at,
        s.len() as int,
    ));
}

} // verus!
