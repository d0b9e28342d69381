//! Splitting a list of texts into batches.

use vstd::prelude::*;

verus! {

/// The batches of at most `size` items into which the items `from..len` are cut,
/// each as the range of its items.
pub open spec fn batch_ranges(from: nat, len: nat, size: nat) -> Seq<(nat, nat)>
    decreases len - from,
{
    if from >= len || size == 0 {
        seq![]
    } else {
        let to = if from + size < len {
            from + size
        } else {
            len
        };
        seq![(from, to)] + batch_ranges(to, len, size)
    }
}

/// The model of a list of ranges.
pub open spec fn range_views(s: Seq<(usize, usize)>) -> Seq<(nat, nat)> {
    Seq::new(s.len(), |i: int| (s[i].0 as nat, s[i].1 as nat))
}

/// Cuts `len` items into batches of at most `size` items.
pub fn split_batches(len: usize, size: usize) -> (r: Vec<(usize, usize)>)
    requires
        size > 0,
    ensures
        range_views(r@) == batch_ranges(0, len as nat, size as nat),
{
    let mut out: Vec<(usize, usize)> = Vec::new();
    let mut from: usize = 0;
    let ghost all = batch_ranges(0, len as nat, size as nat);
    assert(range_views(out@) + all =~= all);
    while from < len
        invariant
            from <= len,
            size > 0,
            all == range_views(out@) + batch_ranges(from as nat, len as nat, size as nat),
        decreases len - from,
    {
        let to: usize = if size < len - from {
            from + size
        } else {
            len
        };
        let ghost before = range_views(out@);
        let ghost rest = batch_ranges(to as nat, len as nat, size as nat);
        out.push((from, to));
        assert(range_views(out@) =~= before.push((from as nat, to as nat)));
        assert(range_views(out@) + rest =~= before + (seq![(from as nat, to as nat)] + rest));
        from = to;
    }
    assert(batch_ranges(from as nat, len as nat, size as nat) =~= seq![]);
    assert(range_views(out@) =~= all);
    out
}

/// The batches follow on one another from the first item to the last; none is
/// empty, none is larger than `size`, and all but the last are full.
pub proof fn law_batches_cover_in_order(from: nat, len: nat, size: nat)
    requires
        size > 0,
        from <= len,
    ensures
        ({
            let b = batch_ranges(from, len, size);
            &&& from == len <==> b.len() == 0
            &&& b.len() > 0 ==> b[0].0 == from && b.last().1 == len
            &&& forall|i: int|
                0 <= i < b.len() ==> (#[trigger] b[i]).0 < b[i].1 && b[i].1 - b[i].0 <= size
            &&& forall|i: int|
                0 <= i < b.len() - 1 ==> (#[trigger] b[i]).1 == b[i + 1].0 && b[i].1 - b[i].0
                    == size
        }),
    decreases len - from,
{
    if from < len {
        let to = if from + size < len {
            from + size
        } else {
            len
        };
        law_batches_cover_in_order(to, len, size);
        let b = batch_ranges(from, len, size);
        let rest = batch_ranges(to, len, size);
        assert forall|i: int| 0 <= i < b.len() implies (#[trigger] b[i]).0 < b[i].1 && b[i].1
            - b[i].0 <= size by {
            if i > 0 {
                assert(b[i] == rest[i - 1]);
            }
        }
        assert forall|i: int| 0 <= i < b.len() - 1 implies (#[trigger] b[i]).1 == b[i + 1].0
            && b[i].1 - b[i].0 == size by {
            assert(b[i + 1] == rest[i]);
            if i > 0 {
                assert(b[i] == rest[i - 1]);
            }
        }
        if rest.len() > 0 {
            assert(b.last() == rest.last());
        }
    }
}

/// Every batch lies within the items.
pub proof fn lemma_ranges_are_within(from: nat, len: nat, size: nat)
    ensures
        forall|i: int|
            0 <= i < batch_ranges(from, len, size).len() ==> (#[trigger] batch_ranges(
                from,
                len,
                size,
            )[i]).0 <= batch_ranges(from, len, size)[i].1 <= len,
    decreases len - from,
{
    if from < len && size > 0 {
        let b = batch_ranges(from, len, size);
        let to = b[0].1;
        let rest = batch_ranges(to, len, size);
        lemma_ranges_are_within(to, len, size);
        assert forall|i: int| 0 <= i < b.len() implies (#[trigger] b[i]).0 <= b[i].1 <= len by {
            if i > 0 {
                assert(b[i] == rest[i - 1]);
            }
        }
    }
}

/// How many items the batches hold together.
pub open spec fn items_in(ranges: Seq<(nat, nat)>) -> int
    decreases ranges.len(),
{
    if ranges.len() == 0 {
        0
    } else {
        ranges[0].1 - ranges[0].0 + items_in(ranges.drop_first())
    }
}

/// One more batch holds so many items more.
pub proof fn lemma_items_in_next(ranges: Seq<(nat, nat)>, k: int)
    requires
        0 <= k < ranges.len(),
    ensures
        items_in(ranges.take(k + 1)) == items_in(ranges.take(k)) + (ranges[k].1 - ranges[k].0),
    decreases k,
{
    let rest = ranges.drop_first();
    assert(ranges.take(k + 1).drop_first() =~= rest.take(k));
    if k > 0 {
        assert(ranges.take(k).drop_first() =~= rest.take(k - 1));
        lemma_items_in_next(rest, k - 1);
        assert(rest[k - 1] == ranges[k]);
    } else {
        assert(rest.take(0) =~= seq![]);
        assert(items_in(rest.take(0)) == 0);
        assert(items_in(ranges.take(0)) == 0);
    }
}

/// Together the batches hold every item.
pub proof fn law_batches_hold_every_item(from: nat, len: nat, size: nat)
    requires
        size > 0,
        from <= len,
    ensures
        items_in(batch_ranges(from, len, size)) == len - from,
    decreases len - from,
{
    if from < len {
        let b = batch_ranges(from, len, size);
        let to = b[0].1;
        law_batches_hold_every_item(to, len, size);
        assert(b.drop_first() =~= batch_ranges(to, len, size));
    }
}

/// A list of batches being worked off: what came back so far, and which batch is
/// next. `V` is what comes back for one item.
pub struct BatchRun<V> {
    ranges: Vec<(usize, usize)>,
    next: usize,
    collected: Vec<V>,
}

/// The model of a [`BatchRun`].
#[verifier::ext_equal]
pub struct BatchRunView<V> {
    pub ranges: Seq<(nat, nat)>,
    pub next: nat,
    pub collected: Seq<V>,
}

impl<V> View for BatchRun<V> {
    type V = BatchRunView<V>;

    closed spec fn view(&self) -> BatchRunView<V> {
        BatchRunView {
            ranges: range_views(self.ranges@),
            next: self.next as nat,
            collected: self.collected@,
        }
    }
}

impl<V> BatchRunView<V> {
    /// Whether one item has come back for each item of the batches that are done.
    pub open spec fn on_track(self) -> bool {
        self.next <= self.ranges.len() && self.collected.len() == items_in(
            self.ranges.take(self.next as int),
        )
    }

    /// The run after `reply` came back for the pending batch.
    pub open spec fn absorbed(self, reply: Seq<V>) -> BatchRunView<V> {
        BatchRunView { next: self.next + 1, collected: self.collected + reply, ..self }
    }
}

/// A run starts on track, stays there as long as one item comes back for each item
/// of the pending batch, and ends with one item for each of all batches.
pub proof fn law_full_replies_give_one_each<V>(run: BatchRunView<V>, reply: Seq<V>)
    ensures
        run.next == 0 && run.collected.len() == 0 ==> run.on_track(),
        run.on_track() && run.next < run.ranges.len() && reply.len()
            == run.ranges[run.next as int].1 - run.ranges[run.next as int].0 ==> run.absorbed(
            reply,
        ).on_track(),
        run.on_track() && run.next == run.ranges.len() ==> run.collected.len() == items_in(
            run.ranges,
        ),
{
    assert(run.ranges.take(0) =~= seq![]);
    assert(run.ranges.take(run.ranges.len() as int) =~= run.ranges);
    if run.next < run.ranges.len() {
        lemma_items_in_next(run.ranges, run.next as int);
    }
}

impl<V> BatchRun<V> {
    /// Starts to work off the batches.
    pub fn new(ranges: Vec<(usize, usize)>) -> (r: Self)
        ensures
            r@ == (BatchRunView::<V> {
                ranges: range_views(ranges@),
                next: 0,
                collected: seq![],
            }),
    {
        BatchRun { ranges, next: 0, collected: Vec::new() }
    }

    /// The batch to request next, or `None` when all are done.
    pub fn pending(&self) -> (r: Option<(usize, usize)>)
        ensures
            match r {
                Some((from, to)) => self@.next < self@.ranges.len() && self@.ranges[self@.next as int]
                    == (from as nat, to as nat),
                None => self@.next >= self@.ranges.len(),
            },
    {
        if self.next < self.ranges.len() {
            Some(self.ranges[self.next])
        } else {
            None
        }
    }

    /// Takes what came back for the pending batch; it goes behind what came back
    /// before.
    pub fn absorb(&mut self, reply: Vec<V>)
        requires
            old(self)@.next < old(self)@.ranges.len(),
        ensures
            final(self)@ == old(self)@.absorbed(reply@),
    {
        let mut reply = reply;
        assert(self.next < self.ranges.len());
        self.collected.append(&mut reply);
        self.next = self.next + 1;
    }

    /// How many items have come back.
    pub fn count(&self) -> (r: usize)
        ensures
            r == self@.collected.len(),
    {
        self.collected.len()
    }

    /// All that came back, in order.
    pub fn finish(self) -> (r: Vec<V>)
        ensures
            r@ == self@.collected,
    {
        self.collected
    }
}


/// What comes back for a batch goes behind what came back before, in its order, and
/// the next batch is up; the batches stay as they are.
pub proof fn law_replies_are_kept_in_order<V>(run: BatchRunView<V>, reply: Seq<V>, i: int)
    ensures
        run.absorbed(reply).next == run.next + 1,
        run.absorbed(reply).ranges == run.ranges,
        run.absorbed(reply).collected.len() == run.collected.len() + reply.len(),
        0 <= i < run.collected.len() ==> run.absorbed(reply).collected[i] == run.collected[i],
        0 <= i < reply.len() ==> run.absorbed(reply).collected[run.collected.len() + i]
            == reply[i],
{
}

/// The model of a list of ranges has each of them at its place, with its own bounds.
pub proof fn law_range_models(list: Seq<(usize, usize)>, i: int)
    requires
        0 <= i < list.len(),
    ensures
        range_views(list).len() == list.len(),
        range_views(list)[i].0 == list[i].0,
        range_views(list)[i].1 == list[i].1,
{
}

} // verus!
