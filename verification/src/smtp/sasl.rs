//! The SASL PLAIN message and its base64 form.
use vstd::prelude::*;

verus! {

/// `base64::EncodeSliceError`, the error of encoding into a slice. Nothing
/// is known of a value of it but that it is one.
#[verifier::external_type_specification]
#[verifier::external_body]
pub struct ExEncodeSliceError(base64::EncodeSliceError);

/// The message of SASL PLAIN with no authorization identity: a zero byte,
/// the user, a zero byte, the password.
pub open spec fn plain_message(user: Seq<u8>, password: Seq<u8>) -> Seq<u8> {
    seq![0u8] + user + seq![0u8] + password
}

/// The length of the padded base64 form of `n` bytes: four bytes for every
/// three, or part of three.
pub open spec fn base64_len(n: int) -> int {
    (n + 2) / 3 * 4
}

/// The standard padded base64 form of `input`, as the `base64` crate's
/// `STANDARD` engine writes it.
pub uninterp spec fn base64_standard(input: Seq<u8>) -> Seq<u8>;

/// `Engine::encode_slice` of `base64::engine::general_purpose::STANDARD`.
///
/// It writes the base64 form of `input` to the front of `output` and
/// returns its length, which is `base64_len` of the input's length. It
/// refuses, and writes nothing, where `output` is shorter than that. It
/// panics where that length does not fit in `usize`, which `requires` rules
/// out.
#[verifier::external_body]
pub(crate) fn encode_base64(input: &[u8], output: &mut [u8]) -> (r: Result<
    usize,
    base64::EncodeSliceError,
>)
    requires
        base64_len(input@.len() as int) <= usize::MAX,
    ensures
        final(output)@.len() == old(output)@.len(),
        match r {
            Ok(n) => {
                &&& n == base64_len(input@.len() as int)
                &&& n <= old(output)@.len()
                &&& final(output)@.subrange(0, n as int) == base64_standard(input@)
                &&& final(output)@.subrange(n as int, final(output)@.len() as int) == old(
                    output,
                )@.subrange(n as int, old(output)@.len() as int)
            },
            Err(_) => old(output)@.len() < base64_len(input@.len() as int) && final(output)@
                == old(output)@,
        },
{
    base64::Engine::encode_slice(&base64::engine::general_purpose::STANDARD, input, output)
}

/// How long the base64 form of `n` bytes is, if it fits in `room` bytes.
pub fn encoded_len_within(n: usize, room: usize) -> (len: Option<usize>)
    ensures
        match len {
            Some(len) => len == base64_len(n as int) && len <= room,
            None => base64_len(n as int) > room,
        },
{
    let groups = n / 3 + if n % 3 > 0 {
        1usize
    } else {
        0usize
    };
    assert(groups == (n + 2) / 3);
    if groups > room / 4 {
        None
    } else {
        Some(groups * 4)
    }
}

} // verus!
