//! Point and window queries on a signal.

use vstd::prelude::*;
use core::ops::Range;
use crate::vcd::order::lemma_filter_is_subrange;
use crate::vcd::signal::{Signal, SignalView};
use crate::vcd::value::Logic;

verus! {

/// The first value of each entry, which for a one-bit signal is its value.
pub open spec fn first_bits(entries: Seq<(u64, Seq<Logic>)>) -> Seq<(u64, Logic)> {
    Seq::new(entries.len(), |i: int| (entries[i].0, entries[i].1[0]))
}

/// The positions `lo` and `hi` between which the entries of the window over
/// `start..end` lie.
fn window_bounds(signal: &Signal, start: u64, end: u64) -> (bounds: (usize, usize))
    ensures
        bounds.0 <= bounds.1 <= signal@.entries.len(),
        signal@.window(start, end) == signal@.entries.subrange(bounds.0 as int, bounds.1 as int),
{
    let n = signal.entry_count();
    let p = signal.position(start);
    let lo = if p < n && signal.entry_time(p) == start {
        p
    } else if p > 0 {
        p - 1
    } else {
        0
    };
    let q = signal.position(end);
    let past = if q < n {
        q + 1
    } else {
        n
    };
    let hi = if past < lo {
        lo
    } else {
        past
    };
    proof {
        let view = signal@;
        let entries = view.entries;
        let inside = |e: (u64, Seq<Logic>)| view.in_window(start, end, e.0);
        assert forall|i: int| 0 <= i < entries.len() implies (inside(#[trigger] entries[i]) <==> lo
            <= i < hi) by {
            let t = entries[i].0;
            if lo <= i < past {
                assert forall|k: int| 0 <= k < entries.len() && entries[k].0 <= start implies entries[k].0
                    <= t by {
                    if k > i {
                        assert(entries[i].0 < entries[k].0);
                    }
                }
                assert forall|k: int| 0 <= k < entries.len() && entries[k].0 >= end implies t
                    <= entries[k].0 by {
                    if k < i {
                        assert(entries[k].0 < entries[i].0);
                    }
                }
            } else if i < lo {
                assert(entries[lo as int].0 <= start);
                assert(entries[i].0 < entries[lo as int].0);
            } else {
                assert(q < n);
                assert(entries[q as int].0 >= end);
                assert(entries[q as int].0 < entries[i].0);
            }
        }
        lemma_filter_is_subrange(entries, inside, lo as int, hi as int);
    }
    (lo, hi)
}

/// A window query on a signal of any width, not yet run.
pub struct SignalRange<'a> {
    signal: &'a Signal,
    start: u64,
    end: u64,
}

impl<'a> View for SignalRange<'a> {
    type V = Seq<(u64, Seq<Logic>)>;

    /// The entries that the query will yield.
    closed spec fn view(&self) -> Seq<(u64, Seq<Logic>)> {
        self.signal@.window(self.start, self.end)
    }
}

/// The entries of a window that are still to come, from either end.
pub struct SignalRangeIter<'a> {
    signal: &'a Signal,
    front: usize,
    back: usize,
}

impl<'a> View for SignalRangeIter<'a> {
    type V = Seq<(u64, Seq<Logic>)>;

    /// The entries that are still to come, in time order.
    closed spec fn view(&self) -> Seq<(u64, Seq<Logic>)> {
        self.signal@.entries.subrange(self.front as int, self.back as int)
    }
}

impl<'a> SignalRange<'a> {
    /// Runs the query.
    pub fn into_iter(self) -> (iter: SignalRangeIter<'a>)
        ensures
            iter@ == self@,
    {
        let (front, back) = window_bounds(self.signal, self.start, self.end);
        SignalRangeIter { signal: self.signal, front, back }
    }
}

impl<'a> SignalRangeIter<'a> {
    #[verifier::type_invariant]
    closed spec fn inv(&self) -> bool {
        self.front <= self.back <= self.signal@.entries.len()
    }

    /// The earliest entry that is still to come.
    pub fn next(&mut self) -> (item: Option<(u64, &'a [Logic])>)
        ensures
            old(self)@.len() == 0 ==> item.is_none() && final(self)@ == old(self)@,
            old(self)@.len() > 0 ==> {
                &&& item matches Some(entry)
                &&& entry.0 == old(self)@.first().0
                &&& entry.1@ == old(self)@.first().1
                &&& final(self)@ == old(self)@.drop_first()
            },
    {
        proof {
            use_type_invariant(&*self);
        }
        if self.front < self.back {
            let time = self.signal.entry_time(self.front);
            let chunk = self.signal.entry_chunk(self.front);
            self.front = self.front + 1;
            assert(self@ =~= old(self)@.drop_first());
            Some((time, chunk))
        } else {
            None
        }
    }

    /// The latest entry that is still to come.
    pub fn next_back(&mut self) -> (item: Option<(u64, &'a [Logic])>)
        ensures
            old(self)@.len() == 0 ==> item.is_none() && final(self)@ == old(self)@,
            old(self)@.len() > 0 ==> {
                &&& item matches Some(entry)
                &&& entry.0 == old(self)@.last().0
                &&& entry.1@ == old(self)@.last().1
                &&& final(self)@ == old(self)@.drop_last()
            },
    {
        proof {
            use_type_invariant(&*self);
        }
        if self.front < self.back {
            self.back = self.back - 1;
            let time = self.signal.entry_time(self.back);
            let chunk = self.signal.entry_chunk(self.back);
            assert(self@ =~= old(self)@.drop_last());
            Some((time, chunk))
        } else {
            None
        }
    }
}

/// A window query on a one-bit signal, not yet run.
pub struct BitSignalRange<'a> {
    signal: &'a Signal,
    start: u64,
    end: u64,
}

impl<'a> View for BitSignalRange<'a> {
    type V = Seq<(u64, Logic)>;

    /// The timestamps and values that the query will yield.
    closed spec fn view(&self) -> Seq<(u64, Logic)> {
        first_bits(self.signal@.window(self.start, self.end))
    }
}

/// The values of a window that are still to come, from either end.
pub struct BitSignalRangeIter<'a> {
    signal: &'a Signal,
    front: usize,
    back: usize,
}

impl<'a> View for BitSignalRangeIter<'a> {
    type V = Seq<(u64, Logic)>;

    /// The timestamps and values that are still to come, in time order.
    closed spec fn view(&self) -> Seq<(u64, Logic)> {
        first_bits(self.signal@.entries.subrange(self.front as int, self.back as int))
    }
}

impl<'a> BitSignalRange<'a> {
    #[verifier::type_invariant]
    closed spec fn inv(&self) -> bool {
        self.signal@.width >= 1
    }

    /// Runs the query.
    pub fn into_iter(self) -> (iter: BitSignalRangeIter<'a>)
        ensures
            iter@ == self@,
    {
        proof {
            use_type_invariant(&self);
        }
        let (front, back) = window_bounds(self.signal, self.start, self.end);
        BitSignalRangeIter { signal: self.signal, front, back }
    }
}

impl<'a> BitSignalRangeIter<'a> {
    #[verifier::type_invariant]
    closed spec fn inv(&self) -> bool {
        &&& self.front <= self.back <= self.signal@.entries.len()
        &&& self.signal@.width >= 1
    }

    /// The earliest value that is still to come.
    pub fn next(&mut self) -> (item: Option<(u64, Logic)>)
        ensures
            old(self)@.len() == 0 ==> item.is_none() && final(self)@ == old(self)@,
            old(self)@.len() > 0 ==> item == Some(old(self)@.first()) && final(self)@ == old(
                self,
            )@.drop_first(),
    {
        proof {
            use_type_invariant(&*self);
        }
        if self.front < self.back {
            let count = self.signal.entry_count();
            let time = self.signal.entry_time(self.front);
            let chunk = self.signal.entry_chunk(self.front);
            let value = chunk[0];
            self.front = self.front + 1;
            assert(self@ =~= old(self)@.drop_first());
            Some((time, value))
        } else {
            None
        }
    }

    /// The latest value that is still to come.
    pub fn next_back(&mut self) -> (item: Option<(u64, Logic)>)
        ensures
            old(self)@.len() == 0 ==> item.is_none() && final(self)@ == old(self)@,
            old(self)@.len() > 0 ==> item == Some(old(self)@.last()) && final(self)@ == old(
                self,
            )@.drop_last(),
    {
        proof {
            use_type_invariant(&*self);
        }
        if self.front < self.back {
            let count = self.signal.entry_count();
            self.back = self.back - 1;
            let time = self.signal.entry_time(self.back);
            let chunk = self.signal.entry_chunk(self.back);
            let value = chunk[0];
            assert(self@ =~= old(self)@.drop_last());
            Some((time, value))
        } else {
            None
        }
    }
}

impl Signal {
    /// The window query over `range` on a signal with at least one bit: it
    /// yields timestamps with the first value of each chunk.
    pub fn bit_range(&self, range: Range<u64>) -> (query: BitSignalRange<'_>)
        requires
            self@.width >= 1,
        ensures
            query@ == first_bits(self@.window(range.start, range.end)),
    {
        BitSignalRange { signal: self, start: range.start, end: range.end }
    }

    /// The window query over `range`: it yields timestamps with whole chunks.
    pub fn range(&self, range: Range<u64>) -> (query: SignalRange<'_>)
        ensures
            query@ == self@.window(range.start, range.end),
    {
        SignalRange { signal: self, start: range.start, end: range.end }
    }

    /// The chunk in effect at `time`, or nothing where `time` is before the
    /// first entry.
    pub fn index(&self, time: u64) -> (chunk: Option<&[Logic]>)
        ensures
            self@.at(time) is None ==> chunk is None,
            self@.at(time) matches Some(held) ==> chunk matches Some(found) && found@ == held,
    {
        let n = self.entry_count();
        let p = self.position(time);
        let ghost upto = |e: (u64, Seq<Logic>)| e.0 <= time;
        if p < n && self.entry_time(p) == time {
            proof {
                assert forall|i: int| 0 <= i < n implies (upto(#[trigger] self@.entries[i]) <==> 0
                    <= i < p + 1) by {
                    if i > p {
                        assert(self@.entries[p as int].0 < self@.entries[i].0);
                    }
                }
                lemma_filter_is_subrange(self@.entries, upto, 0, p + 1);
            }
            Some(self.entry_chunk(p))
        } else {
            proof {
                lemma_filter_is_subrange(self@.entries, upto, 0, p as int);
            }
            if p > 0 {
                Some(self.entry_chunk(p - 1))
            } else {
                None
            }
        }
    }
}

} // verus!
