//! Numbers as decimal text.
use vstd::prelude::*;
use vstd::string::StringExecFns;

verus! {

/// The character that spells the digit `d`.
pub open spec fn digit(d: int) -> char {
    if d == 0 {
        '0'
    } else if d == 1 {
        '1'
    } else if d == 2 {
        '2'
    } else if d == 3 {
        '3'
    } else if d == 4 {
        '4'
    } else if d == 5 {
        '5'
    } else if d == 6 {
        '6'
    } else if d == 7 {
        '7'
    } else if d == 8 {
        '8'
    } else {
        '9'
    }
}

/// The decimal form of `n`, with no leading zero but for zero itself.
pub open spec fn decimal(n: nat) -> Seq<char>
    decreases n,
{
    if n < 10 {
        seq![digit(n as int)]
    } else {
        decimal(n / 10).push(digit((n % 10) as int))
    }
}

/// `count` zeros.
pub open spec fn zeros(count: int) -> Seq<char> {
    Seq::new(
        if count > 0 {
            count as nat
        } else {
            0
        },
        |i: int| '0',
    )
}

/// The decimal form of `n`, with zeros before it where it has fewer than
/// `width` digits.
pub open spec fn padded(n: nat, width: int) -> Seq<char> {
    zeros(width - decimal(n).len()) + decimal(n)
}

/// The decimal form of `v`, with a minus sign where it is negative and
/// zeros behind the sign where sign and digits are fewer than `width`.
pub open spec fn signed_padded(v: int, width: int) -> Seq<char> {
    if v < 0 {
        seq!['-'] + padded((-v) as nat, width - 1)
    } else {
        padded(v as nat, width)
    }
}

fn digit_str(d: u64) -> (s: &'static str)
    requires
        d < 10,
    ensures
        s@ == seq![digit(d as int)],
{
    proof {
        reveal_strlit("0");
        reveal_strlit("1");
        reveal_strlit("2");
        reveal_strlit("3");
        reveal_strlit("4");
        reveal_strlit("5");
        reveal_strlit("6");
        reveal_strlit("7");
        reveal_strlit("8");
        reveal_strlit("9");
    }
    let s = if d == 0 {
        "0"
    } else if d == 1 {
        "1"
    } else if d == 2 {
        "2"
    } else if d == 3 {
        "3"
    } else if d == 4 {
        "4"
    } else if d == 5 {
        "5"
    } else if d == 6 {
        "6"
    } else if d == 7 {
        "7"
    } else if d == 8 {
        "8"
    } else {
        "9"
    };
    assert(s@ =~= seq![digit(d as int)]);
    s
}

/// Writes the decimal form of `n` behind what `out` holds.
pub fn push_decimal(out: &mut String, n: u64)
    ensures
        final(out)@ == old(out)@ + decimal(n as nat),
    decreases n,
{
    if n >= 10 {
        push_decimal(out, n / 10);
    }
    out.append(digit_str(n % 10));
    proof {
        if n >= 10 {
            assert(old(out)@ + decimal((n / 10) as nat) + seq![digit((n % 10) as int)] =~= old(
                out,
            )@ + decimal((n / 10) as nat).push(digit((n % 10) as int)));
        }
    }
}

/// How many digits the decimal form of `n` has.
fn digits(n: u64) -> (count: usize)
    ensures
        count == decimal(n as nat).len(),
        1 <= count <= 20,
    decreases n,
{
    if n >= 10 {
        proof {
            decimal_len_bound((n / 10) as nat);
        }
        digits(n / 10) + 1
    } else {
        1
    }
}

/// A number below ten to the `k` has at most `k` digits; here for the
/// numbers that fit in 64 bits, which have at most 20.
proof fn decimal_len_bound(n: nat)
    requires
        n <= u64::MAX / 10,
    ensures
        decimal(n).len() <= 19,
{
    reveal_with_fuel(decimal, 20);
}

/// Writes the decimal form of `n` behind what `out` holds, with zeros
/// before it where it has fewer than `width` digits.
pub fn push_padded(out: &mut String, n: u64, width: usize)
    ensures
        final(out)@ == old(out)@ + padded(n as nat, width as int),
{
    let count = digits(n);
    let mut i: usize = count;
    while i < width
        invariant
            count <= i,
            i <= width || i == count,
            out@ == old(out)@ + zeros(i - count),
        decreases width - i,
    {
        out.append("0");
        proof {
            reveal_strlit("0");
            assert("0"@ =~= seq!['0']);
            assert(zeros(i - count) + seq!['0'] =~= zeros(i + 1 - count));
            assert(old(out)@ + zeros(i - count) + seq!['0'] =~= old(out)@ + (zeros(i - count)
                + seq!['0']));
        }
        i = i + 1;
    }
    let ghost filled = out@;
    push_decimal(out, n);
    proof {
        assert(zeros(i - count) =~= zeros(width - count));
        assert(filled + decimal(n as nat) =~= old(out)@ + (zeros(width - count) + decimal(
            n as nat,
        )));
    }
}

/// Writes the decimal form of `v` behind what `out` holds, as
/// `signed_padded` spells it.
pub fn push_signed_padded(out: &mut String, v: i64, width: usize)
    requires
        v > i64::MIN,
        width >= 1,
    ensures
        final(out)@ == old(out)@ + signed_padded(v as int, width as int),
{
    if v < 0 {
        out.append("-");
        proof {
            reveal_strlit("-");
        }
        let ghost signed = out@;
        push_padded(out, (-v) as u64, width - 1);
        proof {
            assert(signed + padded((-v) as nat, width - 1) =~= old(out)@ + (seq!['-'] + padded(
                (-v) as nat,
                width - 1,
            )));
        }
    } else {
        push_padded(out, v as u64, width);
    }
}

} // verus!
