//! The history of one variable: a dense buffer of fixed-width value chunks and
//! a sparse index from timestamps to chunks.

use vstd::prelude::*;
use vstd::slice::slice_subrange;
use crate::vcd::order::lemma_filter_is_subrange;
use crate::vcd::value::{padded, Logic};

verus! {

/// Whether timestamps strictly increase along the entries.
pub open spec fn increasing(entries: Seq<(u64, Seq<Logic>)>) -> bool {
    forall|i: int, j: int| 0 <= i < j < entries.len() ==> entries[i].0 < entries[j].0
}

/// What a signal stands for: its declared width and, in time order, the chunk
/// recorded at each timestamp.
pub struct SignalView {
    pub width: nat,
    pub entries: Seq<(u64, Seq<Logic>)>,
}

impl SignalView {
    /// Timestamps strictly increase along the entries, and every chunk is
    /// exactly as wide as the signal.
    pub open spec fn wf(self) -> bool {
        &&& increasing(self.entries)
        &&& forall|i: int| 0 <= i < self.entries.len() ==> self.entries[i].1.len() == self.width
    }

    /// The signal after `chunk` was recorded at `time`: the entry takes its place
    /// in time order, and replaces one already recorded at that very timestamp.
    pub open spec fn with_entry(self, time: u64, chunk: Seq<Logic>) -> SignalView {
        SignalView {
            width: self.width,
            entries: self.entries.filter(|e: (u64, Seq<Logic>)| e.0 < time).push((time, chunk))
                + self.entries.filter(|e: (u64, Seq<Logic>)| e.0 > time),
        }
    }

    /// The signal after the simulation ended at `end`: a signal with entries
    /// holds its last chunk once more at `end`, an empty one stays empty.
    pub open spec fn finalized(self, end: u64) -> SignalView {
        if self.entries.len() == 0 {
            self
        } else {
            self.with_entry(end, self.entries.last().1)
        }
    }

    /// Whether `t` lies in the window that a query over `start..end` covers:
    /// not before any entry at or before `start`, and not after any entry at
    /// or after `end`. The window so begins with the entry in effect at `start`
    /// and ends with the first entry that is not before `end`.
    pub open spec fn in_window(self, start: u64, end: u64, t: u64) -> bool {
        &&& forall|i: int|
            0 <= i < self.entries.len() && self.entries[i].0 <= start ==> self.entries[i].0 <= t
        &&& forall|i: int|
            0 <= i < self.entries.len() && self.entries[i].0 >= end ==> t <= self.entries[i].0
    }

    /// The entries that a query over `start..end` yields, in time order.
    pub open spec fn window(self, start: u64, end: u64) -> Seq<(u64, Seq<Logic>)> {
        self.entries.filter(|e: (u64, Seq<Logic>)| self.in_window(start, end, e.0))
    }

    /// The chunk in effect at `time`: that of the last entry that is not after
    /// `time`, if there is one.
    pub open spec fn at(self, time: u64) -> Option<Seq<Logic>> {
        let upto = self.entries.filter(|e: (u64, Seq<Logic>)| e.0 <= time);
        if upto.len() == 0 {
            None
        } else {
            Some(upto.last().1)
        }
    }

    /// Whether an entry is recorded at `time`.
    pub open spec fn holds(self, time: u64) -> bool {
        exists|i: int| 0 <= i < self.entries.len() && self.entries[i].0 == time
    }

    /// The history as a map from the timestamps recorded to their chunks.
    pub open spec fn history(self) -> Map<u64, Seq<Logic>> {
        Map::new(
            |time: u64| self.holds(time),
            |time: u64|
                self.entries[choose|i: int| 0 <= i < self.entries.len() && self.entries[i].0 == time].1,
        )
    }

    /// The last timestamp recorded, or 0 where nothing was.
    pub open spec fn final_time(self) -> u64 {
        if self.entries.len() == 0 {
            0
        } else {
            self.entries.last().0
        }
    }
}

/// A vector change that supplies more values than its variable was declared
/// with.
#[derive(Clone, Copy, Debug, PartialEq, Eq, Structural)]
pub struct WidthViolation {
    /// The declared width of the variable.
    pub declared: usize,
    /// The number of values that the change supplied.
    pub supplied: usize,
}

/// The time series of one declared variable.
#[derive(Debug)]
pub struct Signal {
    index: Vec<(u64, usize)>,
    values: Vec<Logic>,
    width: usize,
}

impl View for Signal {
    type V = SignalView;

    closed spec fn view(&self) -> SignalView {
        SignalView {
            width: self.width as nat,
            entries: Seq::new(
                self.index@.len(),
                |i: int|
                    (
                        self.index@[i].0,
                        self.values@.subrange(
                            self.index@[i].1 as int,
                            self.index@[i].1 + self.width,
                        ),
                    ),
            ),
        }
    }
}

impl Signal {
    #[verifier::type_invariant]
    closed spec fn inv(&self) -> bool {
        &&& forall|i: int, j: int|
            0 <= i < j < self.index@.len() ==> self.index@[i].0 < self.index@[j].0
        &&& forall|i: int|
            0 <= i < self.index@.len() ==> self.index@[i].1 + self.width <= self.values@.len()
    }

    /// The chunk that starts at `offset` in the value buffer.
    closed spec fn chunk_at(&self, offset: int) -> Seq<Logic> {
        self.values@.subrange(offset, offset + self.width)
    }

    /// A signal that keeps its invariant stands for a well-formed history.
    proof fn lemma_view_wf(&self)
        requires
            self.inv(),
        ensures
            self@.wf(),
    {
    }

    /// The number of entries.
    pub(crate) fn entry_count(&self) -> (count: usize)
        ensures
            count == self@.entries.len(),
            self@.wf(),
    {
        proof {
            use_type_invariant(self);
        }
        self.index.len()
    }

    /// The timestamp of the entry at position `i`.
    pub(crate) fn entry_time(&self, i: usize) -> (time: u64)
        requires
            i < self@.entries.len(),
        ensures
            time == self@.entries[i as int].0,
    {
        self.index[i].0
    }

    /// The chunk of the entry at position `i`, as it lies in the value buffer.
    pub(crate) fn entry_chunk(&self, i: usize) -> (chunk: &[Logic])
        requires
            i < self@.entries.len(),
        ensures
            chunk@ == self@.entries[i as int].1,
    {
        proof {
            use_type_invariant(self);
        }
        let offset = self.index[i].1;
        let total = self.values.len();
        assert(offset + self.width <= total);
        slice_subrange(self.values.as_slice(), offset, offset + self.width)
    }

    /// The position of the first entry that is not before `time`.
    pub(crate) fn position(&self, time: u64) -> (p: usize)
        ensures
            p <= self@.entries.len(),
            forall|i: int| 0 <= i < p ==> self@.entries[i].0 < time,
            forall|i: int| p <= i < self@.entries.len() ==> self@.entries[i].0 >= time,
    {
        proof {
            use_type_invariant(self);
        }
        let mut lo: usize = 0;
        let mut hi: usize = self.index.len();
        while lo < hi
            invariant
                lo <= hi <= self.index@.len(),
                forall|i: int, j: int|
                    0 <= i < j < self.index@.len() ==> self.index@[i].0 < self.index@[j].0,
                forall|i: int| 0 <= i < lo ==> self.index@[i].0 < time,
                forall|i: int| hi <= i < self.index@.len() ==> self.index@[i].0 >= time,
            decreases hi - lo,
        {
            let mid: usize = lo + (hi - lo) / 2;
            if self.index[mid].0 < time {
                lo = mid + 1;
            } else {
                hi = mid;
            }
        }
        lo
    }

    /// Empties the signal and hands out its index and its value buffer.
    fn take_parts(&mut self) -> (parts: (Vec<(u64, usize)>, Vec<Logic>))
        ensures
            parts.0 == old(self).index,
            parts.1 == old(self).values,
            final(self).index@.len() == 0,
            final(self).values@.len() == 0,
            final(self).width == old(self).width,
    {
        let mut index: Vec<(u64, usize)> = Vec::new();
        let mut values: Vec<Logic> = Vec::new();
        core::mem::swap(&mut self.index, &mut index);
        core::mem::swap(&mut self.values, &mut values);
        (index, values)
    }

    /// Gives an emptied signal an index and a value buffer that fit together.
    fn put_parts(&mut self, index: Vec<(u64, usize)>, values: Vec<Logic>)
        requires
            old(self).index@.len() == 0,
            forall|i: int, j: int| 0 <= i < j < index@.len() ==> index@[i].0 < index@[j].0,
            forall|i: int| 0 <= i < index@.len() ==> index@[i].1 + old(self).width <= values@.len(),
        ensures
            final(self).index == index,
            final(self).values == values,
            final(self).width == old(self).width,
    {
        let mut index = index;
        let mut values = values;
        core::mem::swap(&mut self.values, &mut values);
        core::mem::swap(&mut self.index, &mut index);
    }

    /// Points the index at the chunk that starts at `offset`, for `time`.
    fn record(&mut self, time: u64, offset: usize)
        requires
            offset + old(self).width <= old(self).values@.len(),
        ensures
            final(self)@ == old(self)@.with_entry(time, old(self).chunk_at(offset as int)),
            final(self).values == old(self).values,
            final(self).width == old(self).width,
    {
        proof {
            use_type_invariant(&*self);
        }
        let p = self.position(time);
        let ghost before = self@.entries;
        let ghost n = before.len() as int;
        let ghost below = |e: (u64, Seq<Logic>)| e.0 < time;
        let ghost above = |e: (u64, Seq<Logic>)| e.0 > time;
        let ghost chunk = self.chunk_at(offset as int);
        proof {
            self.lemma_view_wf();
            assert forall|i: int| 0 <= i < n implies (#[trigger] self.index@[i]).0
                == before[i].0 by {}
        }
        let (mut index, values) = self.take_parts();
        let ghost old_index = index@;
        if p < index.len() && index[p].0 == time {
            proof {
                lemma_filter_is_subrange(before, below, 0, p as int);
                lemma_filter_is_subrange(before, above, p + 1, n);
            }
            index[p] = (time, offset);
            self.put_parts(index, values);
            assert(self@.entries =~= before.subrange(0, p as int).push((time, chunk))
                + before.subrange(p + 1, n));
        } else {
            proof {
                assert(p < n ==> before[p as int].0 != time);
                assert forall|i: int| 0 <= i < n implies (above(#[trigger] before[i]) <==> p
                    <= i) by {
                    if i > p {
                        assert(before[p as int].0 < before[i].0);
                    }
                }
                lemma_filter_is_subrange(before, below, 0, p as int);
                lemma_filter_is_subrange(before, above, p as int, n);
            }
            index.insert(p, (time, offset));
            assert forall|i: int, j: int| 0 <= i < j < index@.len() implies index@[i].0
                < index@[j].0 by {
                let a = if i < p { i } else { i - 1 };
                let b = if j < p { j } else { j - 1 };
                if i != p {
                    assert(index@[i] == old_index[a]);
                    assert(old_index[a].0 == before[a].0);
                }
                if j != p {
                    assert(index@[j] == old_index[b]);
                    assert(old_index[b].0 == before[b].0);
                }
            }
            self.put_parts(index, values);
            assert(self@.entries =~= before.subrange(0, p as int).push((time, chunk))
                + before.subrange(p as int, n));
        }
    }

    /// A signal of the given width with no entries.
    pub fn new(width: usize) -> (signal: Signal)
        ensures
            signal@.width == width,
            signal@.entries == Seq::<(u64, Seq<Logic>)>::empty(),
            signal@.wf(),
    {
        let signal = Signal { index: Vec::new(), values: Vec::new(), width };
        assert(signal@.entries =~= Seq::<(u64, Seq<Logic>)>::empty());
        signal
    }

    /// The declared width, fixed when the signal was made.
    pub fn width(&self) -> (width: usize)
        ensures
            width == self@.width,
    {
        self.width
    }

    /// Whether nothing has been recorded yet.
    pub fn is_empty(&self) -> (empty: bool)
        ensures
            empty == (self@.entries.len() == 0),
    {
        self.index.len() == 0
    }

    /// The greatest timestamp recorded, or 0 for an empty signal.
    pub fn final_time(&self) -> (time: u64)
        ensures
            time == self@.final_time(),
            forall|i: int| 0 <= i < self@.entries.len() ==> self@.entries[i].0 <= time,
            self@.wf(),
    {
        proof {
            use_type_invariant(self);
        }
        let n = self.index.len();
        if n == 0 {
            0
        } else {
            self.index[n - 1].0
        }
    }
}

impl Signal {
    /// Records a one-bit value at `time`.
    pub fn insert_bit(&mut self, time: u64, value: Logic)
        requires
            old(self)@.width == 1,
        ensures
            final(self)@ == old(self)@.with_entry(time, seq![value]),
            final(self)@.wf(),
    {
        proof {
            use_type_invariant(&*self);
        }
        let offset = self.values.len();
        let ghost before = self@;
        let (index, mut values) = self.take_parts();
        values.push(value);
        self.put_parts(index, values);
        assert forall|k: int| 0 <= k < before.entries.len() implies self@.entries[k]
            == before.entries[k] by {
            assert(self@.entries[k].1 =~= before.entries[k].1);
        }
        assert(self@.entries =~= before.entries);
        assert(self.chunk_at(offset as int) =~= seq![value]);
        self.record(time, offset);
        proof {
            use_type_invariant(&*self);
        }
    }

    /// Records a vector change at `time`. A change narrower than the signal is
    /// filled up with defined-low values; one wider than the signal is refused
    /// and leaves the signal as it was.
    pub fn insert(&mut self, time: u64, value: Vec<Logic>) -> (outcome: Result<
        (),
        WidthViolation,
    >)
        ensures
            value@.len() > old(self)@.width ==> {
                &&& outcome matches Err(refused)
                &&& refused.declared == old(self)@.width
                &&& refused.supplied == value@.len()
                &&& *final(self) == *old(self)
            },
            final(self)@.wf(),
            value@.len() <= old(self)@.width ==> {
                &&& outcome.is_ok()
                &&& final(self)@ == old(self)@.with_entry(
                    time,
                    padded(value@, old(self)@.width),
                )
            },
    {
        proof {
            use_type_invariant(&*self);
        }
        if value.len() > self.width {
            return Err(WidthViolation { declared: self.width, supplied: value.len() });
        }
        let offset = self.values.len();
        let ghost before = self@;
        let ghost stored = self.values@;
        let width = self.width;
        let (index, mut values) = self.take_parts();
        let mut i: usize = 0;
        while i < value.len()
            invariant
                i <= value@.len(),
                values@ == stored + value@.take(i as int),
            decreases value@.len() - i,
        {
            values.push(value[i]);
            i = i + 1;
            assert(values@ =~= stored + value@.take(i as int));
        }
        let mut filled: usize = value.len();
        while filled < width
            invariant
                value@.len() <= filled <= width,
                values@ == stored + padded(value@, filled as nat),
            decreases width - filled,
        {
            values.push(Logic::V0);
            filled = filled + 1;
            assert(values@ =~= stored + padded(value@, filled as nat));
        }
        self.put_parts(index, values);
        assert forall|k: int| 0 <= k < before.entries.len() implies self@.entries[k]
            == before.entries[k] by {
            assert(self@.entries[k].1 =~= before.entries[k].1);
        }
        assert(self@.entries =~= before.entries);
        assert(self.chunk_at(offset as int) =~= padded(value@, self.width as nat));
        self.record(time, offset);
        proof {
            use_type_invariant(&*self);
        }
        Ok(())
    }

    /// Closes the history at the end of the simulation: a signal with entries
    /// holds its last value once more at `end`.
    pub fn finalize(&mut self, end: u64)
        ensures
            final(self)@ == old(self)@.finalized(end),
            final(self)@.wf(),
    {
        proof {
            use_type_invariant(&*self);
        }
        let n = self.index.len();
        if n > 0 {
            let offset = self.index[n - 1].1;
            self.record(end, offset);
        }
        proof {
            use_type_invariant(&*self);
        }
    }
}

} // verus!
