//! A stream in memory: what it has to deliver is given beforehand, and what
//! is written to it is kept.
use vstd::prelude::*;
use crate::stream::ReadWrite;

verus! {

/// A stream that delivers the bytes it was given, in order, and keeps the
/// bytes that are written to it. When it has delivered all it was given it
/// has no more to say, as a peer that has closed; more may be given then.
///
/// It stands where the peer's part is known: in a test, or where another
/// part of a program does the reading and writing.
#[derive(Debug)]
pub struct Script {
    inbound: Vec<u8>,
    at: usize,
    outbound: Vec<u8>,
    dry: bool,
}

impl Script {
    /// All the bytes that were given, delivered or not.
    pub closed spec fn given(&self) -> Seq<u8> {
        self.inbound@
    }

    /// How many of the bytes that were given have been delivered.
    pub closed spec fn delivered(&self) -> int {
        if self.at <= self.inbound@.len() {
            self.at as int
        } else {
            self.inbound@.len() as int
        }
    }

    /// Whether a read has found nothing to deliver.
    pub closed spec fn spec_ran_dry(&self) -> bool {
        self.dry
    }

    /// A stream that has `inbound` to deliver.
    pub fn new(inbound: Vec<u8>) -> (script: Self)
        ensures
            script.given() == inbound@,
            script.delivered() == 0,
            script.received() == Seq::<u8>::empty(),
            script.sent() == Seq::<u8>::empty(),
            !script.ran_dry(),
    {
        let script = Script { inbound, at: 0, outbound: Vec::new(), dry: false };
        assert(script.received() =~= Seq::<u8>::empty());
        script
    }

    /// Gives the stream more to deliver, behind what it was given before.
    pub fn give(&mut self, more: &[u8])
        ensures
            final(self).given() == old(self).given() + more@,
            final(self).delivered() == old(self).delivered(),
            final(self).received() == old(self).received(),
            final(self).sent() == old(self).sent(),
            !final(self).ran_dry(),
    {
        if self.at > self.inbound.len() {
            self.at = self.inbound.len();
        }
        let ghost before = self.inbound@;
        self.inbound.extend_from_slice(more);
        self.dry = false;
        proof {
            assert(self.inbound@.subrange(0, self.at as int) =~= before.subrange(
                0,
                self.at as int,
            ));
        }
    }

    /// What has been written to the stream so far.
    pub fn written(&self) -> (bytes: &[u8])
        ensures
            bytes@ == self.sent(),
    {
        self.outbound.as_slice()
    }

    /// Whether a read has found nothing to deliver since the stream was
    /// last given something.
    #[verifier::when_used_as_spec(spec_ran_dry)]
    pub fn ran_dry(&self) -> (dry: bool)
        ensures
            dry == self.ran_dry(),
    {
        self.dry
    }
}

impl ReadWrite for Script {
    type Error = core::convert::Infallible;

    closed spec fn received(&self) -> Seq<u8> {
        self.inbound@.subrange(0, self.delivered())
    }

    closed spec fn sent(&self) -> Seq<u8> {
        self.outbound@
    }

    closed spec fn ended(&self) -> bool {
        self.dry
    }

    closed spec fn failure(&self) -> Option<core::convert::Infallible> {
        None
    }

    /// Delivers as many of the bytes that are left as `buf` takes.
    fn read(&mut self, buf: &mut [u8]) -> (r: Result<usize, core::convert::Infallible>)
        ensures
            r is Ok,
            final(self).given() == old(self).given(),
            r matches Ok(n) ==> final(self).delivered() == old(self).delivered() + n,
            r matches Ok(n) ==> n == if old(self).given().len() - old(self).delivered() < old(
                buf,
            )@.len() {
                old(self).given().len() - old(self).delivered()
            } else {
                old(buf)@.len() as int
            },
            final(self).ran_dry() == (old(self).ran_dry() || old(self).given().len() == old(
                self,
            ).delivered()),
    {
        let start = if self.at <= self.inbound.len() {
            self.at
        } else {
            self.inbound.len()
        };
        let total = self.inbound.len();
        let left = total - start;
        let n = if left < buf.len() {
            left
        } else {
            buf.len()
        };
        let size = buf.len();
        let mut i: usize = 0;
        while i < n
            invariant
                i <= n,
                total == self.inbound@.len(),
                start + n <= total,
                n <= size,
                size == buf@.len(),
                buf@.len() == old(buf)@.len(),
                *self == *old(self),
                buf@.subrange(0, i as int) == self.inbound@.subrange(start as int, start + i),
            decreases n - i,
        {
            let ghost before = buf@;
            buf[i] = self.inbound[start + i];
            proof {
                assert(buf@.subrange(0, i + 1) =~= before.subrange(0, i as int).push(
                    self.inbound@[start + i],
                ));
                assert(self.inbound@.subrange(start as int, start + i + 1)
                    =~= self.inbound@.subrange(start as int, start + i).push(
                    self.inbound@[start + i],
                ));
            }
            i = i + 1;
        }
        self.at = start + n;
        if left == 0 {
            self.dry = true;
        }
        proof {
            assert(self.inbound@.subrange(0, start + n) =~= self.inbound@.subrange(
                0,
                start as int,
            ) + self.inbound@.subrange(start as int, start + n));
        }
        Ok(n)
    }

    /// Keeps `buf` behind what was written before.
    fn write_single(&mut self, buf: &[u8]) -> (r: Result<(), core::convert::Infallible>)
        ensures
            r is Ok,
            final(self).given() == old(self).given(),
            final(self).delivered() == old(self).delivered(),
            final(self).ran_dry() == old(self).ran_dry(),
    {
        self.outbound.extend_from_slice(buf);
        Ok(())
    }
}

} // verus!
