//! The output side of the render protocol: a byte sink with a fixed
//! capacity. A write either lands in full or fails and leaves the sink
//! untouched, so rendering failures are exactly "the fragment did not fit".

use vstd::prelude::*;

verus! {

/// The single failure kind of the render protocol: the sink refused a write.
#[derive(Clone, Copy, Debug, PartialEq, Eq, Structural)]
pub struct WriteError;

/// An output sink accepting sequential byte fragments, up to a fixed
/// capacity chosen at construction.
pub struct Sink {
    out: Vec<u8>,
    capacity: usize,
}

impl View for Sink {
    type V = Seq<u8>;

    /// The bytes written so far, in order.
    closed spec fn view(&self) -> Seq<u8> {
        self.out@
    }
}

impl Sink {
    /// The capacity the sink was constructed with.
    pub closed spec fn cap(&self) -> int {
        self.capacity as int
    }

    /// A sink never holds more bytes than its capacity.
    pub open spec fn wf(&self) -> bool {
        self@.len() <= self.cap()
    }

    /// An empty sink that accepts up to `capacity` bytes in total.
    pub fn new(capacity: usize) -> (s: Sink)
        ensures
            s@ == Seq::<u8>::empty(),
            s.cap() == capacity,
            s.wf(),
    {
        Sink { out: Vec::new(), capacity }
    }

    /// Appends `data` whole, or refuses it whole: the write succeeds if and
    /// only if the fragment fits in the remaining capacity.
    pub fn write(&mut self, data: &Vec<u8>) -> (r: Result<(), WriteError>)
        requires
            old(self).wf(),
        ensures
            final(self).wf(),
            final(self).cap() == old(self).cap(),
            r is Ok <==> old(self)@.len() + data@.len() <= old(self).cap(),
            r is Ok ==> final(self)@ == old(self)@ + data@,
            r is Err ==> final(self)@ == old(self)@,
    {
        if data.len() <= self.capacity - self.out.len() {
            let mut i: usize = 0;
            while i < data.len()
                invariant
                    i <= data@.len(),
                    self.out@ == old(self).out@ + data@.take(i as int),
                    self.capacity == old(self).capacity,
                decreases data@.len() - i,
            {
                self.out.push(data[i]);
                assert(data@.take(i + 1) == data@.take(i as int).push(data@[i as int]));
                i = i + 1;
            }
            assert(data@.take(data@.len() as int) == data@);
            Ok(())
        } else {
            Err(WriteError)
        }
    }

    /// The bytes written so far.
    pub fn bytes(&self) -> (b: &Vec<u8>)
        ensures
            b@ == self@,
    {
        &self.out
    }
}

} // verus!
