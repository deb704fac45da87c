//! The byte region a session reads replies into.
use vstd::prelude::*;

verus! {

/// A byte region of fixed size: allocated by the session, or lent by the
/// caller where nothing may be allocated.
#[derive(Debug)]
pub enum Buffer<'a> {
    Owned(Box<[u8]>),
    Borrowed(&'a mut [u8]),
}

/// `Vec::into_boxed_slice`: the same bytes, in a box.
#[verifier::external_body]
fn into_boxed(v: Vec<u8>) -> (b: Box<[u8]>)
    ensures
        b@ == v@,
{
    v.into_boxed_slice()
}

impl<'a> Buffer<'a> {
    /// The bytes held, in order.
    pub open spec fn view(&self) -> Seq<u8> {
        match self {
            Buffer::Owned(v) => v@,
            Buffer::Borrowed(b) => b@,
        }
    }

    /// The size of the region.
    pub fn len(&self) -> (n: usize)
        ensures
            n == self@.len(),
    {
        match self {
            Buffer::Owned(v) => v.len(),
            Buffer::Borrowed(b) => b.len(),
        }
    }

    /// The bytes held.
    pub fn as_slice(&self) -> (s: &[u8])
        ensures
            s@ == self@,
    {
        match self {
            Buffer::Owned(v) => &**v,
            Buffer::Borrowed(b) => &**b,
        }
    }

    /// The bytes held, to be written to. The size of the region stays.
    pub fn as_mut_slice(&mut self) -> (s: &mut [u8])
        ensures
            s@ == old(self)@,
            final(self)@ == final(s)@,
    {
        match self {
            Buffer::Owned(v) => &mut **v,
            Buffer::Borrowed(b) => &mut **b,
        }
    }
}

impl core::ops::Deref for Buffer<'_> {
    type Target = [u8];

    fn deref(&self) -> (s: &[u8])
        ensures
            s@ == self@,
    {
        self.as_slice()
    }
}

impl core::ops::DerefMut for Buffer<'_> {
    fn deref_mut(&mut self) -> (s: &mut [u8])
        ensures
            s@ == old(self)@,
            final(self)@ == final(s)@,
    {
        self.as_mut_slice()
    }
}

/// A vector's bytes, owned by the buffer.
impl From<Vec<u8>> for Buffer<'static> {
    fn from(v: Vec<u8>) -> (b: Self)
        ensures
            b is Owned,
            b@ == v@,
    {
        let boxed = into_boxed(v);
        assert(boxed =~= (choose|b: Box<[u8]>| b@ == v@));
        Buffer::Owned(boxed)
    }
}

impl vstd::std_specs::convert::FromSpecImpl<Vec<u8>> for Buffer<'static> {
    open spec fn obeys_from_spec() -> bool {
        true
    }

    open spec fn from_spec(v: Vec<u8>) -> Self {
        Buffer::Owned(choose|b: Box<[u8]>| b@ == v@)
    }
}

/// A box's bytes, owned by the buffer.
impl From<Box<[u8]>> for Buffer<'static> {
    fn from(b: Box<[u8]>) -> (r: Self)
        ensures
            r is Owned,
            r@ == b@,
    {
        Buffer::Owned(b)
    }
}

impl vstd::std_specs::convert::FromSpecImpl<Box<[u8]>> for Buffer<'static> {
    open spec fn obeys_from_spec() -> bool {
        true
    }

    open spec fn from_spec(b: Box<[u8]>) -> Self {
        Buffer::Owned(b)
    }
}

/// A slice that the caller lends to the buffer.
impl<'a> From<&'a mut [u8]> for Buffer<'a> {
    fn from(v: &'a mut [u8]) -> (r: Self)
        ensures
            r is Borrowed,
            r@ == old(v)@,
    {
        Buffer::Borrowed(v)
    }
}

impl<'a> vstd::std_specs::convert::FromSpecImpl<&'a mut [u8]> for Buffer<'a> {
    open spec fn obeys_from_spec() -> bool {
        false
    }

    open spec fn from_spec(v: &'a mut [u8]) -> Self {
        Buffer::Borrowed(v)
    }
}

} // verus!
