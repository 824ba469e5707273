//! `separator.join(items)` on anything renderable: builds a lazy, one-shot
//! [`DisplayableJoin`] that, when rendered, writes the items interleaved
//! with the separator — first item, then separator-then-item for each
//! further item, no separator at either end, nothing for no items.

use vstd::prelude::*;

use crate::render::Render;
use crate::sink::Sink;
use crate::sink::WriteError;

verus! {

/// The renderings of a sequence of renderable items, one byte sequence each.
pub open spec fn renderings_of<T: Render>(items: Seq<T>) -> Seq<Seq<u8>> {
    items.map_values(|t: T| t.rendering())
}

/// What a join renders in full: the first item, then one separator and one
/// item for every further item — so no separator at all when there are
/// fewer than two items, and nothing when there are none.
pub open spec fn joined(sep: Seq<u8>, items: Seq<Seq<u8>>) -> Seq<u8>
    decreases items.len(),
{
    if items.len() == 0 {
        Seq::empty()
    } else if items.len() == 1 {
        items[0]
    } else {
        joined(sep, items.drop_last()) + sep + items.last()
    }
}

/// Joining no items renders nothing, whatever the separator.
pub proof fn lemma_joined_empty(sep: Seq<u8>)
    ensures
        joined(sep, Seq::<Seq<u8>>::empty()) == Seq::<u8>::empty(),
{
}

/// Joining a single item renders the item alone: no separator appears.
pub proof fn lemma_joined_single(sep: Seq<u8>, item: Seq<u8>)
    ensures
        joined(sep, seq![item]) == item,
{
}

/// Every item after the first contributes exactly one separator followed by
/// its own rendering, in order: the joined output of the first `j + 1`
/// items is the joined output of the first `j` items, then the separator,
/// then item `j`.
pub proof fn lemma_joined_step(sep: Seq<u8>, items: Seq<Seq<u8>>, j: int)
    requires
        1 <= j < items.len(),
    ensures
        joined(sep, items.take(j + 1)) == joined(sep, items.take(j)) + sep + items[j],
{
    assert(items.take(j + 1).drop_last() =~= items.take(j));
}

/// The bytes on the sink once the first `k` items have been written in
/// full, together with the separator that announces item `k` when `k > 0`.
pub open spec fn item_prefix(sep: Seq<u8>, items: Seq<Seq<u8>>, k: int) -> Seq<u8> {
    if k == 0 {
        Seq::empty()
    } else {
        joined(sep, items.take(k)) + sep
    }
}

/// The exact state of a sink after a join rendering failed at position `k`
/// of the items: either item `k`'s fragment did not fit — then the first
/// `k` items and, when `k > 0`, the `k` separators before and between them
/// are on the sink and nothing more — or the separator between items
/// `k - 1` and `k` did not fit, and exactly the first `k` items with the
/// `k - 1` separators between them are on the sink.
pub open spec fn failure_at(
    before: Seq<u8>,
    cap: int,
    sep: Seq<u8>,
    items: Seq<Seq<u8>>,
    k: int,
    after: Seq<u8>,
) -> bool {
    ||| {
        &&& after == before + item_prefix(sep, items, k)
        &&& before.len() + item_prefix(sep, items, k).len() <= cap
        &&& before.len() + item_prefix(sep, items, k).len() + items[k].len() > cap
    }
    ||| {
        &&& k >= 1
        &&& after == before + joined(sep, items.take(k))
        &&& before.len() + joined(sep, items.take(k)).len() <= cap
        &&& before.len() + joined(sep, items.take(k)).len() + sep.len() > cap
    }
}

/// What fits before and at position `j` is no more than the whole joined
/// rendering: used to conclude that a failed fragment means the whole
/// rendering would not have fit either.
proof fn lemma_joined_len_lower(sep: Seq<u8>, items: Seq<Seq<u8>>, j: int)
    requires
        0 <= j < items.len(),
    ensures
        joined(sep, items).len() >= item_prefix(sep, items, j).len() + items[j].len(),
    decreases items.len() - j,
{
    if j == items.len() - 1 {
        if j > 0 {
            assert(items.drop_last() =~= items.take(j));
        }
    } else {
        lemma_joined_len_lower(sep, items, j + 1);
        if j == 0 {
            assert(items.take(1)[0] == items[0]);
        } else {
            lemma_joined_step(sep, items, j);
        }
    }
}

/// A sequence is a prefix of itself extended by anything.
proof fn lemma_prefix_concat(a: Seq<u8>, b: Seq<u8>)
    ensures
        a.is_prefix_of(a + b),
{
    assert((a + b).take(a.len() as int) =~= a);
}

/// Drains `items` from position `start` into the sink, writing the first
/// remaining item, then separator-then-item for each further one, stopping
/// at the first refused fragment.
fn render_items<Sep: Render, T: Render>(
    sep: &Sep,
    items: &Vec<T>,
    start: usize,
    sink_in: Sink,
) -> (res: (Sink, Result<(), WriteError>))
    requires
        sep.wf(),
        forall|i: int| 0 <= i < items@.len() ==> (#[trigger] items@[i]).wf(),
        start <= items@.len(),
        sink_in.wf(),
    ensures
        res.0.wf(),
        res.0.cap() == sink_in.cap(),
        sink_in@.is_prefix_of(res.0@),
        res.1 is Ok <==> sink_in@.len() + joined(
            sep.rendering(),
            renderings_of(items@.skip(start as int)),
        ).len() <= sink_in.cap(),
        res.1 is Ok ==> res.0@ == sink_in@ + joined(
            sep.rendering(),
            renderings_of(items@.skip(start as int)),
        ),
        res.1 is Err ==> exists|k: int|
            #![auto]
            0 <= k < renderings_of(items@.skip(start as int)).len() && failure_at(
                sink_in@,
                sink_in.cap(),
                sep.rendering(),
                renderings_of(items@.skip(start as int)),
                k,
                res.0@,
            ),
{
    let ghost sepr = sep.rendering();
    let ghost rs = renderings_of(items@.skip(start as int));
    let mut sink = sink_in;
    let n: usize = items.len();
    let mut idx: usize = start;

    if idx == n {
        proof {
            assert(rs.len() == 0);
            lemma_prefix_concat(sink_in@, Seq::empty());
            assert(sink_in@ + Seq::<u8>::empty() =~= sink_in@);
        }
        return (sink, Ok(()));
    }

    let r0 = items[idx].fmt(&mut sink);
    proof {
        assert(rs[0] == items@[start as int].rendering());
    }
    if r0.is_err() {
        proof {
            assert(sink@ =~= sink_in@ + item_prefix(sepr, rs, 0));
            assert(failure_at(sink_in@, sink_in.cap(), sepr, rs, 0, sink@));
            lemma_joined_len_lower(sepr, rs, 0);
            lemma_prefix_concat(sink_in@, item_prefix(sepr, rs, 0));
        }
        return (sink, Err(WriteError));
    }
    proof {
        assert(rs.take(1)[0] == rs[0]);
        assert(sink@ == sink_in@ + joined(sepr, rs.take(1)));
    }
    idx = idx + 1;

    while idx < n
        invariant
            start < idx <= n,
            n == items@.len(),
            sep.wf(),
            forall|i: int| 0 <= i < items@.len() ==> (#[trigger] items@[i]).wf(),
            sepr == sep.rendering(),
            rs == renderings_of(items@.skip(start as int)),
            rs.len() == n - start,
            sink.wf(),
            sink.cap() == sink_in.cap(),
            sink@ == sink_in@ + joined(sepr, rs.take(idx - start)),
        decreases n - idx,
    {
        let ghost j = idx - start;
        let rsep = sep.fmt(&mut sink);
        if rsep.is_err() {
            proof {
                assert(failure_at(sink_in@, sink_in.cap(), sepr, rs, j, sink@));
                lemma_joined_len_lower(sepr, rs, j);
                lemma_prefix_concat(sink_in@, joined(sepr, rs.take(j)));
            }
            return (sink, Err(WriteError));
        }
        proof {
            assert(sink@ =~= sink_in@ + item_prefix(sepr, rs, j));
        }
        let ritem = items[idx].fmt(&mut sink);
        proof {
            assert(rs[j] == items@[idx as int].rendering());
        }
        if ritem.is_err() {
            proof {
                assert(failure_at(sink_in@, sink_in.cap(), sepr, rs, j, sink@));
                lemma_joined_len_lower(sepr, rs, j);
                lemma_prefix_concat(sink_in@, item_prefix(sepr, rs, j));
            }
            return (sink, Err(WriteError));
        }
        proof {
            lemma_joined_step(sepr, rs, j);
            assert(sink@ =~= sink_in@ + joined(sepr, rs.take(j + 1)));
        }
        idx = idx + 1;
    }
    proof {
        assert(rs.take(n - start) =~= rs);
        lemma_prefix_concat(sink_in@, joined(sepr, rs));
    }
    (sink, Ok(()))
}

/// The return value of [`Join::join`]: a lazy, one-shot join of a borrowed
/// separator with an owned sequence of renderable items.
///
/// Rendering it drains the items; afterwards the object is exhausted, and a
/// further rendering silently writes nothing. A caller who needs the text
/// twice must capture the sink's bytes after the first rendering. The
/// cursor is advanced under exclusive access — rendering takes the object
/// mutably — so no interior-mutable cell is needed to drain it.
pub struct DisplayableJoin<'sep, Sep, T> where Sep: Render, T: Render {
    separator: &'sep Sep,
    items: Vec<T>,
    cursor: usize,
}

impl<'sep, Sep: Render, T: Render> DisplayableJoin<'sep, Sep, T> {
    /// The rendering of the borrowed separator.
    pub closed spec fn sep_rendering(&self) -> Seq<u8> {
        self.separator.rendering()
    }

    /// The items not yet drained: everything before the first rendering,
    /// nothing after it.
    pub closed spec fn remaining(&self) -> Seq<T> {
        self.items@.skip(self.cursor as int)
    }

    /// The renderings of the items not yet drained.
    pub open spec fn renderings(&self) -> Seq<Seq<u8>> {
        renderings_of(self.remaining())
    }

    /// What rendering this object now would write in full.
    pub open spec fn rendering(&self) -> Seq<u8> {
        joined(self.sep_rendering(), self.renderings())
    }

    /// The separator and every item keep the render protocol's promises,
    /// and the cursor sits within the items.
    pub closed spec fn wf(&self) -> bool {
        &&& self.separator.wf()
        &&& forall|i: int| 0 <= i < self.items@.len() ==> (#[trigger] self.items@[i]).wf()
        &&& self.cursor <= self.items@.len()
    }

    /// Renders the join: writes the first remaining item, then
    /// separator-then-item for each further one, in order, stopping at the
    /// first fragment the sink refuses. Succeeds if and only if the whole
    /// joined rendering fits. The object is exhausted afterwards whatever
    /// the outcome, so rendering it again writes nothing and succeeds —
    /// in particular, a join of no items always succeeds with no output.
    pub fn fmt(&mut self, sink: &mut Sink) -> (r: Result<(), WriteError>)
        requires
            old(self).wf(),
            old(sink).wf(),
        ensures
            final(self).wf(),
            final(self).remaining().len() == 0,
            final(self).sep_rendering() == old(self).sep_rendering(),
            final(sink).wf(),
            final(sink).cap() == old(sink).cap(),
            old(sink)@.is_prefix_of(final(sink)@),
            r is Ok <==> old(sink)@.len() + old(self).rendering().len() <= old(sink).cap(),
            r is Ok ==> final(sink)@ == old(sink)@ + old(self).rendering(),
            old(self).remaining().len() == 0 ==> r is Ok && final(sink)@ == old(sink)@,
            r is Err ==> exists|k: int|
                #![auto]
                0 <= k < old(self).renderings().len() && failure_at(
                    old(sink)@,
                    old(sink).cap(),
                    old(self).sep_rendering(),
                    old(self).renderings(),
                    k,
                    final(sink)@,
                ),
    {
        // The drain loop works on an owned sink; a zero-capacity one parks
        // in the caller's slot meanwhile.
        let mut local = Sink::new(0);
        core::mem::swap(sink, &mut local);
        let (mut done, r) = render_items(self.separator, &self.items, self.cursor, local);
        core::mem::swap(sink, &mut done);
        let n: usize = self.items.len();
        self.cursor = n;
        proof {
            assert(self.items@.skip(n as int).len() == 0);
            if old(self).remaining().len() == 0 {
                assert(old(self).rendering() == Seq::<u8>::empty());
                if r is Ok {
                    assert(old(sink)@ + Seq::<u8>::empty() =~= old(sink)@);
                }
            }
        }
        r
    }
}

/// Attaches the `join` operation to every renderable value, used as the
/// separator.
pub trait Join: Render {
    /// `sep.join(items)` builds the lazy join object. Nothing is rendered
    /// and no item is consumed at construction: the returned object still
    /// holds every item, and all cost is deferred to its one rendering.
    fn join<'sep, T: Render>(&'sep self, items: Vec<T>) -> (j: DisplayableJoin<'sep, Self, T>) where
        Self: Sized,
        ensures
            j.sep_rendering() == self.rendering(),
            j.remaining() == items@,
            j.renderings() == renderings_of(items@),
            j.wf() <==> (self.wf() && (forall|i: int|
                0 <= i < items@.len() ==> (#[trigger] items@[i]).wf())),
    ;
}

impl<Sep: Render> Join for Sep {
    fn join<'sep, T: Render>(&'sep self, items: Vec<T>) -> (j: DisplayableJoin<'sep, Self, T>) {
        let j = DisplayableJoin { separator: self, items, cursor: 0 };
        proof {
            assert(j.remaining() =~= j.items@);
        }
        j
    }
}

} // verus!
