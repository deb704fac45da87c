//! The byte stream a session talks over.
use vstd::prelude::*;

verus! {

/// The bytes of `parts`, one part after the other.
pub open spec fn concat(parts: Seq<&[u8]>) -> Seq<u8>
    decreases parts.len(),
{
    if parts.len() == 0 {
        Seq::empty()
    } else {
        concat(parts.drop_last()) + parts.last()@
    }
}

/// One part alone.
pub proof fn concat_one(a: &[u8])
    ensures
        concat(seq![a]) == a@,
{
    assert(seq![a].drop_last() =~= Seq::<&[u8]>::empty());
    assert(concat(Seq::<&[u8]>::empty()) =~= Seq::<u8>::empty());
    assert(concat(seq![a]) =~= a@);
}

/// Two parts, one after the other.
pub proof fn concat_two(a: &[u8], b: &[u8])
    ensures
        concat(seq![a, b]) == a@ + b@,
{
    let parts = seq![a, b];
    assert(parts.drop_last() =~= seq![a]);
    concat_one(a);
}

/// Three parts, one after the other.
pub proof fn concat_three(a: &[u8], b: &[u8], c: &[u8])
    ensures
        concat(seq![a, b, c]) == a@ + b@ + c@,
{
    let parts = seq![a, b, c];
    assert(parts.drop_last() =~= seq![a, b]);
    concat_two(a, b);
}

/// A bidirectional byte stream: plain TCP, a TLS session, a scripted peer.
///
/// `received` and `sent` are the stream's history, `ended` and `failure`
/// what it last had to report; every contract of the session is stated
/// over these. A verified implementation says what they are and proves the
/// contracts below. One that is not verified leaves them
/// as they stand here and is trusted to keep the contracts: nothing in this
/// crate checks it.
pub trait ReadWrite {
    type Error;

    /// Every byte that `read` has handed out so far, oldest first.
    closed spec fn received(&self) -> Seq<u8> {
        arbitrary()
    }

    /// Every byte that a successful write has taken so far, oldest first.
    closed spec fn sent(&self) -> Seq<u8> {
        arbitrary()
    }

    /// Whether the stream has been found at its end: a read had room and
    /// brought nothing.
    closed spec fn ended(&self) -> bool {
        arbitrary()
    }

    /// The error that the stream failed with, where an operation has failed.
    closed spec fn failure(&self) -> Option<Self::Error> {
        arbitrary()
    }

    /// Reads some bytes into the front of `buf` and returns how many.
    /// `Ok(0)` means that the peer will send no more.
    fn read(&mut self, buf: &mut [u8]) -> (r: Result<usize, Self::Error>)
        ensures
            final(buf)@.len() == old(buf)@.len(),
            final(self).sent() == old(self).sent(),
            match r {
                Ok(n) => {
                    &&& n <= old(buf)@.len()
                    &&& final(self).received() == old(self).received() + final(buf)@.subrange(
                        0,
                        n as int,
                    )
                    &&& n == 0 && old(buf)@.len() > 0 ==> final(self).ended()
                },
                Err(e) => {
                    &&& final(self).received() == old(self).received()
                    &&& final(self).failure() == Some(e)
                },
            },
    ;

    /// Writes all of `buf`, or fails.
    fn write_single(&mut self, buf: &[u8]) -> (r: Result<(), Self::Error>)
        ensures
            final(self).received() == old(self).received(),
            match r {
                Ok(()) => final(self).sent() == old(self).sent() + buf@,
                Err(e) => final(self).failure() == Some(e),
            },
    ;

    /// Writes all the bytes of all of `buf`, in order, or fails. A transport
    /// with vectored writes may do better than this one write per part.
    fn write_multi(&mut self, buf: &[&[u8]]) -> (r: Result<(), Self::Error>)
        ensures
            final(self).received() == old(self).received(),
            match r {
                Ok(()) => final(self).sent() == old(self).sent() + concat(buf@),
                Err(e) => final(self).failure() == Some(e),
            },
    {
        let mut i: usize = 0;
        while i < buf.len()
            invariant
                i <= buf.len(),
                self.received() == old(self).received(),
                self.sent() == old(self).sent() + concat(buf@.subrange(0, i as int)),
            decreases buf.len() - i,
        {
            let ghost before = self.sent();
            match self.write_single(buf[i]) {
                Ok(()) => {},
                Err(e) => {
                    return Err(e);
                },
            }
            proof {
                let upto = buf@.subrange(0, i as int + 1);
                assert(upto.drop_last() =~= buf@.subrange(0, i as int));
                assert(upto.last() == buf@[i as int]);
            }
            i = i + 1;
        }
        proof {
            assert(buf@.subrange(0, i as int) =~= buf@);
        }
        Ok(())
    }
}

} // verus!
