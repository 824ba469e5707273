//! Deferred formatting: [`LazyFormat`] wraps a callable that writes to a
//! [`Sink`], so that ad hoc formatting logic can participate in the render
//! protocol — for instance as an item of a join — without allocating
//! anything until the one final rendering.

use vstd::prelude::*;

use crate::render::Render;
use crate::sink::Sink;
use crate::sink::WriteError;

verus! {

/// The callable takes the sink by value and hands it back with its verdict,
/// behaving as one atomic fragment of `out` bytes: it accepts every
/// well-formed sink, succeeds exactly when `out` fits in the remaining
/// capacity, appends exactly `out` on success and nothing on failure.
pub open spec fn delegates<F: Fn(Sink) -> (Sink, Result<(), WriteError>)>(
    f: F,
    out: Seq<u8>,
) -> bool {
    &&& forall|s: Sink| s.wf() ==> #[trigger] call_requires(f, (s,))
    &&& forall|s: Sink, ret: (Sink, Result<(), WriteError>)|
        s.wf() && #[trigger] call_ensures(f, (s,), ret) ==> {
            &&& ret.0.wf()
            &&& ret.0.cap() == s.cap()
            &&& (ret.1 is Ok <==> s@.len() + out.len() <= s.cap())
            &&& (ret.1 is Ok ==> ret.0@ == s@ + out)
            &&& (ret.1 is Err ==> ret.0@ == s@)
        }
}

/// A renderable value whose rendering logic is the wrapped callable: each
/// rendering invokes the callable from scratch, so — unlike a join — it
/// carries no cursor and may be rendered any number of times. It is
/// duplicable whenever the callable is.
#[derive(Clone, Copy, Debug)]
pub struct LazyFormat<F>(pub F);

impl<F: Fn(Sink) -> (Sink, Result<(), WriteError>)> Render for LazyFormat<F> {
    /// The bytes the callable writes: meaningful whenever some such
    /// sequence exists, which `wf` demands.
    open spec fn rendering(&self) -> Seq<u8> {
        choose|o: Seq<u8>| delegates(self.0, o)
    }

    open spec fn wf(&self) -> bool {
        exists|o: Seq<u8>| delegates(self.0, o)
    }

    /// Beyond the protocol's contract: whichever byte sequence the callable
    /// is known to delegate to, the call behaves as one atomic fragment of
    /// exactly those bytes.
    fn fmt(&self, sink: &mut Sink) -> (r: Result<(), WriteError>)
        ensures
            forall|o: Seq<u8>| #[trigger] delegates(self.0, o) ==> (
                (r is Ok <==> old(sink)@.len() + o.len() <= old(sink).cap())
                && (r is Ok ==> final(sink)@ == old(sink)@ + o)
                && (r is Err ==> final(sink)@ == old(sink)@)
            ),
    {
        proof {
            assert(delegates(self.0, self.rendering()));
        }
        let mut local = Sink::new(0);
        core::mem::swap(sink, &mut local);
        let (out, r) = (self.0)(local);
        let mut done = out;
        core::mem::swap(sink, &mut done);
        r
    }
}

/// A deferred text fragment: wraps owned bytes in a callable, so that a
/// fixed piece of text can take part in composition as a [`LazyFormat`].
/// The callable provably delegates to exactly those bytes.
pub fn lazy_text(bytes: Vec<u8>) -> (lf: LazyFormat<impl Fn(Sink) -> (Sink, Result<(), WriteError>)>)
    ensures
        lf.wf(),
        delegates(lf.0, bytes@),
{
    let f = move |s: Sink| -> (ret: (Sink, Result<(), WriteError>))
        requires
            s.wf(),
        ensures
            ret.0.wf(),
            ret.0.cap() == s.cap(),
            ret.1 is Ok <==> s@.len() + bytes@.len() <= s.cap(),
            ret.1 is Ok ==> ret.0@ == s@ + bytes@,
            ret.1 is Err ==> ret.0@ == s@,
        {
            let mut inner = s;
            let r = inner.write(&bytes);
            (inner, r)
        };
    let lf = LazyFormat(f);
    proof {
        assert(delegates(lf.0, bytes@));
        assert(exists|o: Seq<u8>| delegates(lf.0, o));
    }
    lf
}

} // verus!
