//! The render protocol: a renderable value knows the byte sequence it
//! stands for and can write it to a [`Sink`] in one atomic fragment. The
//! write succeeds exactly when the whole fragment fits in the sink's
//! remaining capacity, and a refused fragment leaves the sink untouched.

use vstd::prelude::*;

use crate::sink::Sink;
use crate::sink::WriteError;

verus! {

/// A value that can write its text representation to a [`Sink`].
///
/// `rendering` is the full byte sequence the value stands for; `fmt` writes
/// it as one atomic fragment. `wf` says that the value keeps the protocol's
/// promises; for the concrete renderables of this crate it is simply true,
/// while a closure-backed renderable has to earn it.
pub trait Render {
    /// The byte sequence this value renders to.
    spec fn rendering(&self) -> Seq<u8>;

    /// The value keeps the promises `fmt` states.
    spec fn wf(&self) -> bool;

    /// Writes `self.rendering()` to the sink, whole or not at all:
    /// it succeeds if and only if the rendering fits, and on failure the
    /// sink is unchanged.
    fn fmt(&self, sink: &mut Sink) -> (r: Result<(), WriteError>)
        requires
            self.wf(),
            old(sink).wf(),
        ensures
            final(sink).wf(),
            final(sink).cap() == old(sink).cap(),
            r is Ok <==> old(sink)@.len() + self.rendering().len() <= old(sink).cap(),
            r is Ok ==> final(sink)@ == old(sink)@ + self.rendering(),
            r is Err ==> final(sink)@ == old(sink)@,
    ;
}

/// A literal piece of text, held as bytes; it renders to exactly those bytes.
pub struct Text(pub Vec<u8>);

impl Render for Text {
    open spec fn rendering(&self) -> Seq<u8> {
        self.0@
    }

    open spec fn wf(&self) -> bool {
        true
    }

    fn fmt(&self, sink: &mut Sink) -> (r: Result<(), WriteError>) {
        sink.write(&self.0)
    }
}

/// The decimal digits of `n`, most significant first, as ASCII bytes.
pub open spec fn decimal_digits(n: nat) -> Seq<u8>
    decreases n,
{
    if n < 10 {
        seq![(48 + n) as u8]
    } else {
        decimal_digits(n / 10).push((48 + n % 10) as u8)
    }
}

/// The decimal representation of `n` as ASCII bytes, no sign and no
/// leading zeros.
pub fn decimal_bytes(n: u64) -> (v: Vec<u8>)
    ensures
        v@ == decimal_digits(n as nat),
    decreases n,
{
    if n < 10 {
        let mut v: Vec<u8> = Vec::new();
        v.push(48 + n as u8);
        proof {
            assert(v@ =~= decimal_digits(n as nat));
        }
        v
    } else {
        let mut v = decimal_bytes(n / 10);
        v.push(48 + (n % 10) as u8);
        v
    }
}

/// An unsigned number that renders as its decimal digits.
pub struct Decimal(pub u64);

impl Render for Decimal {
    open spec fn rendering(&self) -> Seq<u8> {
        decimal_digits(self.0 as nat)
    }

    open spec fn wf(&self) -> bool {
        true
    }

    fn fmt(&self, sink: &mut Sink) -> (r: Result<(), WriteError>) {
        let digits = decimal_bytes(self.0);
        sink.write(&digits)
    }
}

} // verus!
