//! What holds of every signal and of every replay.

use vstd::prelude::*;
use crate::vcd::order::lemma_filter_is_subrange;
use crate::vcd::reader::{
    distinct_codes,
    fresh_signal,
    is_tracked,
    names,
    register,
    registered,
    replayed,
    slot_of,
    ReplayView,
};
use crate::vcd::record::{DocumentView, FormatErrorView, RecordView};
use crate::vcd::scope::{flatten, ScopedVarView};
use crate::vcd::signal::{increasing, SignalView};
use crate::vcd::value::{lemma_padded_width, padded, Logic};

verus! {

/// In entries whose timestamps increase, those before `time` come first, then
/// the one at `time` if there is one, then those after `time`: the two
/// positions returned are where the first stretch ends and where the last
/// begins.
pub proof fn lemma_cut(entries: Seq<(u64, Seq<Logic>)>, time: u64) -> (cut: (int, int))
    requires
        increasing(entries),
    ensures
        0 <= cut.0 <= cut.1 <= entries.len(),
        cut.1 <= cut.0 + 1,
        forall|i: int| 0 <= i < cut.0 ==> entries[i].0 < time,
        forall|i: int| cut.0 <= i < cut.1 ==> entries[i].0 == time,
        forall|i: int| cut.1 <= i < entries.len() ==> entries[i].0 > time,
        entries.filter(|e: (u64, Seq<Logic>)| e.0 < time) == entries.subrange(0, cut.0),
        entries.filter(|e: (u64, Seq<Logic>)| e.0 > time) == entries.subrange(
            cut.1,
            entries.len() as int,
        ),
        entries.filter(|e: (u64, Seq<Logic>)| e.0 <= time) == entries.subrange(0, cut.1),
{
    let cut = lemma_cut_positions(entries, time);
    let n = entries.len() as int;
    lemma_filter_is_subrange(entries, |e: (u64, Seq<Logic>)| e.0 < time, 0, cut.0);
    lemma_filter_is_subrange(entries, |e: (u64, Seq<Logic>)| e.0 > time, cut.1, n);
    lemma_filter_is_subrange(entries, |e: (u64, Seq<Logic>)| e.0 <= time, 0, cut.1);
    cut
}

proof fn lemma_cut_positions(entries: Seq<(u64, Seq<Logic>)>, time: u64) -> (cut: (int, int))
    requires
        increasing(entries),
    ensures
        0 <= cut.0 <= cut.1 <= entries.len(),
        cut.1 <= cut.0 + 1,
        forall|i: int| 0 <= i < cut.0 ==> entries[i].0 < time,
        forall|i: int| cut.0 <= i < cut.1 ==> entries[i].0 == time,
        forall|i: int| cut.1 <= i < entries.len() ==> entries[i].0 > time,
    decreases entries.len(),
{
    if entries.len() == 0 {
        (0, 0)
    } else {
        let n = entries.len() - 1;
        let rest = entries.drop_last();
        assert forall|i: int| 0 <= i < n implies rest[i] == entries[i] by {}
        let inner = lemma_cut_positions(rest, time);
        let last = entries[n].0;
        assert forall|i: int| 0 <= i < n implies entries[i].0 < last by {}
        if last < time {
            (n + 1, n + 1)
        } else if last == time {
            (n, n + 1)
        } else {
            inner
        }
    }
}

/// Recording keeps a history well formed: the timestamps still increase, and
/// every chunk is as wide as the signal.
pub proof fn lemma_with_entry_wf(view: SignalView, time: u64, chunk: Seq<Logic>)
    requires
        view.wf(),
        chunk.len() == view.width,
    ensures
        view.with_entry(time, chunk).wf(),
{
    let cut = lemma_cut(view.entries, time);
    let n = view.entries.len() as int;
    let next = view.with_entry(time, chunk);
    assert(next.entries =~= view.entries.subrange(0, cut.0).push((time, chunk))
        + view.entries.subrange(cut.1, n));
}

/// Recording at a timestamp sets the chunk of that timestamp and leaves every
/// other timestamp as it was.
pub proof fn lemma_with_entry_history(view: SignalView, time: u64, chunk: Seq<Logic>)
    requires
        view.wf(),
    ensures
        view.with_entry(time, chunk).history() == view.history().insert(time, chunk),
{
    let cut = lemma_cut(view.entries, time);
    let n = view.entries.len() as int;
    let next = view.with_entry(time, chunk);
    let shift = cut.1 - cut.0 - 1;
    assert(next.entries =~= view.entries.subrange(0, cut.0).push((time, chunk))
        + view.entries.subrange(cut.1, n));
    assert(increasing(next.entries));
    assert forall|t: u64| next.holds(t) <==> (t == time || view.holds(t)) by {
        if next.holds(t) {
            let i = choose|i: int| 0 <= i < next.entries.len() && next.entries[i].0 == t;
            if i < cut.0 {
                assert(view.entries[i].0 == t);
            } else if i > cut.0 {
                assert(view.entries[i + shift].0 == t);
            }
        }
        if t == time {
            assert(next.entries[cut.0].0 == t);
        } else if view.holds(t) {
            let i = choose|i: int| 0 <= i < view.entries.len() && view.entries[i].0 == t;
            if i < cut.0 {
                assert(next.entries[i].0 == t);
            } else {
                assert(next.entries[i - shift].0 == t);
            }
        }
    }
    assert forall|t: u64| next.holds(t) implies #[trigger] next.history()[t] == view.history().insert(
        time,
        chunk,
    )[t] by {
        let i = choose|i: int| 0 <= i < next.entries.len() && next.entries[i].0 == t;
        if t == time {
            assert(next.entries[cut.0].0 == t);
            assert(i == cut.0);
        } else {
            let j = choose|j: int| 0 <= j < view.entries.len() && view.entries[j].0 == t;
            if i < cut.0 {
                assert(view.entries[i].0 == t);
                assert(j == i);
            } else {
                assert(view.entries[i + shift].0 == t);
                assert(j == i + shift);
            }
        }
    }
    assert(next.history() =~= view.history().insert(time, chunk));
}

/// The chunk recorded at a timestamp is the one in effect at that timestamp.
pub proof fn lemma_with_entry_at(view: SignalView, time: u64, chunk: Seq<Logic>)
    requires
        view.wf(),
    ensures
        view.with_entry(time, chunk).at(time) == Some(chunk),
{
    let cut = lemma_cut(view.entries, time);
    let n = view.entries.len() as int;
    let next = view.with_entry(time, chunk);
    assert(next.entries =~= view.entries.subrange(0, cut.0).push((time, chunk))
        + view.entries.subrange(cut.1, n));
    assert(increasing(next.entries));
    let after = lemma_cut(next.entries, time);
    assert(next.entries[cut.0].0 == time);
    assert(after.1 == cut.0 + 1);
}

/// After recording at `time`, the history holds an entry at `time`.
pub proof fn lemma_with_entry_holds(view: SignalView, time: u64, chunk: Seq<Logic>)
    requires
        view.wf(),
    ensures
        view.with_entry(time, chunk).holds(time),
        view.with_entry(time, chunk).entries.len() > 0,
{
    let cut = lemma_cut(view.entries, time);
    let n = view.entries.len() as int;
    let next = view.with_entry(time, chunk);
    assert(next.entries =~= view.entries.subrange(0, cut.0).push((time, chunk))
        + view.entries.subrange(cut.1, n));
    assert(next.entries[cut.0].0 == time);
}

/// A point query finds nothing exactly where every entry is after `time`, and
/// otherwise the chunk of the latest entry that is not after `time`.
pub proof fn lemma_at_is_latest(view: SignalView, time: u64)
    requires
        view.wf(),
    ensures
        view.at(time) is None <==> forall|i: int|
            0 <= i < view.entries.len() ==> view.entries[i].0 > time,
        view.at(time) matches Some(chunk) ==> exists|i: int|
            {
                &&& 0 <= i < view.entries.len()
                &&& view.entries[i].0 <= time
                &&& #[trigger] view.entries[i].1 == chunk
                &&& forall|j: int|
                    0 <= j < view.entries.len() && view.entries[j].0 <= time ==> view.entries[j].0
                        <= view.entries[i].0
            },
{
    let cut = lemma_cut(view.entries, time);
    if cut.1 > 0 {
        let i = cut.1 - 1;
        assert(view.entries.subrange(0, cut.1).last() == view.entries[i]);
        assert(view.entries[i].0 <= time);
        assert(view.entries[i].1 == view.at(time)->Some_0);
        assert forall|j: int|
            0 <= j < view.entries.len() && view.entries[j].0 <= time implies view.entries[j].0
            <= view.entries[i].0 by {
            if j > i {
                assert(view.entries[j].0 > time);
            }
        }
    }
}

/// A window is one stretch of the history, between the two positions
/// returned. Over `start..end` with `start` not after `end`, it begins with
/// the entry whose chunk is in effect at `start`, where there is one, and it
/// ends with the first entry that is not before `end`, where there is one.
pub proof fn lemma_window_is_stretch(view: SignalView, start: u64, end: u64) -> (bounds: (int, int))
    requires
        view.wf(),
    ensures
        0 <= bounds.0 <= bounds.1 <= view.entries.len(),
        view.window(start, end) == view.entries.subrange(bounds.0, bounds.1),
        forall|i: int|
            0 <= i < view.entries.len() ==> (view.in_window(start, end, view.entries[i].0) <==> bounds.0
                <= i < bounds.1),
        start <= end && view.entries.len() > 0 ==> bounds.0 < bounds.1,
        start <= end && view.at(start) is Some ==> view.entries[bounds.0].0 <= start && view.at(
            start,
        ) == Some(view.entries[bounds.0].1),
        start <= end && bounds.1 < view.entries.len() ==> view.entries[bounds.1 - 1].0 >= end,
        start <= end && view.entries.len() > 0 && view.entries[bounds.1 - 1].0 >= end ==> forall|
            j: int,
        |
            0 <= j < bounds.1 - 1 ==> view.entries[j].0 < end,
{
    let entries = view.entries;
    let n = entries.len() as int;
    let low = lemma_cut(entries, start);
    let high = lemma_cut(entries, end);
    let lo = if low.1 > 0 {
        low.1 - 1
    } else {
        0
    };
    let past = if high.0 < n {
        high.0 + 1
    } else {
        n
    };
    let hi = if past < lo {
        lo
    } else {
        past
    };
    let inside = |e: (u64, Seq<Logic>)| view.in_window(start, end, e.0);
    assert forall|i: int| 0 <= i < n implies (inside(#[trigger] entries[i]) <==> lo <= i < hi) by {
        let t = entries[i].0;
        if lo <= i < past {
            assert forall|k: int| 0 <= k < n && entries[k].0 <= start implies entries[k].0 <= t by {
                if k > i {
                    assert(entries[i].0 < entries[k].0);
                }
            }
            assert forall|k: int| 0 <= k < n && entries[k].0 >= end implies t <= entries[k].0 by {
                if k < i {
                    assert(entries[k].0 < entries[i].0);
                }
            }
        } else if i < lo {
            assert(entries[lo].0 <= start);
            assert(entries[i].0 < entries[lo].0);
        } else {
            assert(high.0 < n);
            assert(entries[high.0].0 >= end);
            assert(entries[high.0].0 < entries[i].0);
        }
    }
    lemma_filter_is_subrange(entries, inside, lo, hi);
    if start <= end {
        if low.1 > 0 {
            assert(entries[low.1 - 1].0 <= start);
            assert(high.0 >= low.1 - 1) by {
                if high.0 < low.1 - 1 {
                    assert(entries[high.0].0 >= end);
                    assert(entries[high.0].0 < entries[low.1 - 1].0);
                }
            }
            assert(entries.subrange(0, low.1).last() == entries[low.1 - 1]);
        }
    }
    (lo, hi)
}

/// The timestamps of a signal strictly increase in index order, and its final
/// time is the greatest of them: no entry is later, and a signal with entries
/// has one at its final time.
pub proof fn lemma_final_time_is_greatest(view: SignalView)
    requires
        view.wf(),
    ensures
        forall|i: int, j: int|
            0 <= i < j < view.entries.len() ==> view.entries[i].0 < view.entries[j].0,
        forall|i: int| 0 <= i < view.entries.len() ==> view.entries[i].0 <= view.final_time(),
        view.entries.len() > 0 ==> view.holds(view.final_time()),
        view.entries.len() == 0 ==> view.final_time() == 0,
{
    if view.entries.len() > 0 {
        let last = view.entries.len() - 1;
        assert(view.entries[last].0 == view.final_time());
    }
}

/// Closing a history that was already closed at the same time changes
/// nothing.
pub proof fn lemma_finalize_idempotent(view: SignalView, end: u64)
    requires
        view.wf(),
    ensures
        view.finalized(end).finalized(end) == view.finalized(end),
{
    if view.entries.len() > 0 {
        let n = view.entries.len() as int;
        let held = view.entries.last().1;
        let cut = lemma_cut(view.entries, end);
        let once = view.finalized(end);
        assert(once.entries =~= view.entries.subrange(0, cut.0).push((end, held))
            + view.entries.subrange(cut.1, n));
        assert(once.entries.last().1 == held);
        assert(increasing(once.entries));
        let again = lemma_cut(once.entries, end);
        assert(once.entries[cut.0].0 == end);
        assert(again.0 == cut.0 && again.1 == cut.0 + 1);
        let twice = once.finalized(end);
        assert(twice.entries =~= once.entries);
    }
}

/// The variables of a list of tracks, in order.
pub open spec fn track_vars(tracks: Seq<(ScopedVarView, SignalView)>) -> Seq<ScopedVarView> {
    Seq::new(tracks.len(), |k: int| tracks[k].0)
}

/// Whether no two tracked variables of a list share an identifier code.
pub open spec fn tracked_codes_differ(vars: Seq<ScopedVarView>) -> bool {
    forall|i: int, j: int|
        0 <= i < j < vars.len() && is_tracked(vars[i]) && is_tracked(vars[j]) ==> vars[i].var.code
            != vars[j].var.code
}

/// Where no two tracked variables share an identifier code, registering keeps
/// the declaration order: the tracks are the tracked variables in the order
/// in which they were declared, each with a fresh signal.
pub proof fn lemma_registered_in_order(vars: Seq<ScopedVarView>)
    requires
        tracked_codes_differ(vars),
    ensures
        track_vars(registered(vars)) == vars.filter(|v: ScopedVarView| is_tracked(v)),
        forall|k: int|
            0 <= k < registered(vars).len() ==> registered(vars)[k].1 == fresh_signal(
                registered(vars)[k].0,
            ),
    decreases vars.len(),
{
    reveal(Seq::filter);
    let followed = |v: ScopedVarView| is_tracked(v);
    if vars.len() == 0 {
        assert(track_vars(registered(vars)) =~= vars.filter(followed));
    } else {
        let rest = vars.drop_last();
        let last = vars.last();
        assert forall|i: int| 0 <= i < rest.len() implies rest[i] == vars[i] by {}
        lemma_registered_in_order(rest);
        let before = registered(rest);
        if is_tracked(last) {
            assert forall|k: int| !names(before, last.var.code, k) by {
                if 0 <= k < before.len() {
                    let found = track_vars(before)[k];
                    assert(rest.filter(followed)[k] == found);
                    assert(rest.filter(followed).contains(found));
                    rest.lemma_filter_contains_rev(followed, found);
                    rest.lemma_filter_pred(followed, k);
                    let i = choose|i: int| 0 <= i < rest.len() && rest[i] == found;
                    assert(vars[i].var.code != vars[vars.len() - 1].var.code);
                }
            }
            assert(slot_of(before, last.var.code) is None);
            assert(track_vars(registered(vars)) =~= track_vars(before).push(last));
        } else {
            assert(track_vars(registered(vars)) =~= vars.filter(followed));
        }
    }
}

/// A record never changes which variables are followed, nor their order.
pub proof fn lemma_apply_keeps_vars(state: ReplayView, record: RecordView)
    ensures
        state.apply(record) matches Ok(next) ==> track_vars(next.tracks) == track_vars(
            state.tracks,
        ),
{
    match state.apply(record) {
        Ok(next) => {
            match record {
                RecordView::ChangeScalar(code, _) => {
                    if slot_of(state.tracks, code) is Some {
                        assert(names(state.tracks, code, slot_of(state.tracks, code)->Some_0));
                    }
                },
                RecordView::ChangeVector(code, _) => {
                    if slot_of(state.tracks, code) is Some {
                        assert(names(state.tracks, code, slot_of(state.tracks, code)->Some_0));
                    }
                },
                _ => {},
            }
            assert(track_vars(next.tracks) =~= track_vars(state.tracks));
        },
        Err(_) => {},
    }
}

/// Replaying records never changes which variables are followed, nor their
/// order.
pub proof fn lemma_replay_keeps_vars(
    state: ReplayView,
    readings: Seq<Result<RecordView, Seq<char>>>,
    from: int,
)
    ensures
        state.replay_from(readings, from) matches Ok(end) ==> track_vars(end.tracks) == track_vars(
            state.tracks,
        ),
    decreases readings.len() - from,
{
    if 0 <= from < readings.len() {
        match readings[from] {
            Ok(record) => {
                lemma_apply_keeps_vars(state, record);
                match state.apply(record) {
                    Ok(next) => {
                        lemma_replay_keeps_vars(next, readings, from + 1);
                    },
                    Err(_) => {},
                }
            },
            Err(_) => {},
        }
    }
}

/// The variables of a trace that was read come in the order in which the
/// header declares them, depth first: where no two tracked variables share an
/// identifier code, they are exactly the tracked variables of the flattened
/// header, in that order.
pub proof fn lemma_declaration_order(document: DocumentView)
    requires
        tracked_codes_differ(flatten(document.items)),
    ensures
        replayed(document) matches Ok(trace) ==> track_vars(trace.0) == flatten(
            document.items,
        ).filter(|v: ScopedVarView| is_tracked(v)),
{
    let vars = flatten(document.items);
    let start = ReplayView { tracks: registered(vars), time: 0 };
    lemma_registered_in_order(vars);
    lemma_replay_keeps_vars(start, document.records, 0);
    match start.replay_from(document.records, 0) {
        Ok(end) => {
            assert(track_vars(end.finished().0) =~= track_vars(end.tracks));
        },
        Err(_) => {},
    }
}

/// Whether every track holds a well-formed history of the width that its
/// variable was declared with.
pub open spec fn tracks_wf(tracks: Seq<(ScopedVarView, SignalView)>) -> bool {
    forall|k: int|
        0 <= k < tracks.len() ==> (#[trigger] tracks[k]).1.wf() && tracks[k].1.width
            == tracks[k].0.var.size
}

/// Registering gives every track a well-formed history of the declared width.
pub proof fn lemma_registered_wf(vars: Seq<ScopedVarView>)
    ensures
        tracks_wf(registered(vars)),
    decreases vars.len(),
{
    if vars.len() > 0 {
        let last = vars.last();
        let before = registered(vars.drop_last());
        lemma_registered_wf(vars.drop_last());
        if is_tracked(last) {
            match slot_of(before, last.var.code) {
                Some(k) => {
                    assert(names(before, last.var.code, k));
                },
                None => {},
            }
        }
    }
}

/// A record keeps every history well formed and of its declared width.
pub proof fn lemma_apply_wf(state: ReplayView, record: RecordView)
    requires
        tracks_wf(state.tracks),
    ensures
        state.apply(record) matches Ok(next) ==> tracks_wf(next.tracks),
{
    match record {
        RecordView::ChangeScalar(code, value) => {
            if slot_of(state.tracks, code) is Some {
                let k = slot_of(state.tracks, code)->Some_0;
                assert(names(state.tracks, code, k));
                if state.tracks[k].1.width == 1 {
                    lemma_with_entry_wf(state.tracks[k].1, state.time, seq![value]);
                }
            }
        },
        RecordView::ChangeVector(code, values) => {
            if slot_of(state.tracks, code) is Some {
                let k = slot_of(state.tracks, code)->Some_0;
                assert(names(state.tracks, code, k));
                let width = state.tracks[k].1.width;
                if values.len() <= width {
                    lemma_padded_width(values, width);
                    lemma_with_entry_wf(state.tracks[k].1, state.time, padded(values, width));
                }
            }
        },
        _ => {},
    }
}

/// Replaying records keeps every history well formed and of its declared
/// width.
pub proof fn lemma_replay_wf(
    state: ReplayView,
    readings: Seq<Result<RecordView, Seq<char>>>,
    from: int,
)
    requires
        tracks_wf(state.tracks),
    ensures
        state.replay_from(readings, from) matches Ok(end) ==> tracks_wf(end.tracks),
    decreases readings.len() - from,
{
    if 0 <= from < readings.len() {
        match readings[from] {
            Ok(record) => {
                lemma_apply_wf(state, record);
                match state.apply(record) {
                    Ok(next) => {
                        lemma_replay_wf(next, readings, from + 1);
                    },
                    Err(_) => {},
                }
            },
            Err(_) => {},
        }
    }
}

/// Every signal of a trace that was read is well formed: its timestamps
/// strictly increase, its chunks are as wide as its variable was declared, and
/// where it has entries the last of them is at the final time of the trace or
/// later.
pub proof fn lemma_replayed_wf(document: DocumentView)
    ensures
        replayed(document) matches Ok(trace) ==> {
            &&& tracks_wf(trace.0)
            &&& forall|k: int|
                0 <= k < trace.0.len() && trace.0[k].1.entries.len() > 0 ==> (#[trigger] trace.0[k]).1.final_time()
                    >= trace.1
        },
{
    let vars = flatten(document.items);
    let start = ReplayView { tracks: registered(vars), time: 0 };
    lemma_registered_wf(vars);
    lemma_replay_wf(start, document.records, 0);
    match start.replay_from(document.records, 0) {
        Ok(end) => {
            let trace = end.finished();
            assert forall|k: int| 0 <= k < trace.0.len() implies (#[trigger] trace.0[k]).1.wf()
                && trace.0[k].1.width == trace.0[k].0.var.size && (trace.0[k].1.entries.len() > 0
                ==> trace.0[k].1.final_time() >= trace.1) by {
                let before = end.tracks[k].1;
                assert(end.tracks[k].1.wf());
                if before.entries.len() > 0 {
                    let held = before.entries.last().1;
                    lemma_with_entry_wf(before, end.time, held);
                    lemma_with_entry_holds(before, end.time, held);
                    lemma_final_time_is_greatest(before.with_entry(end.time, held));
                }
            }
        },
        Err(_) => {},
    }
}

/// A change whose identifier code names no track is dropped: it refuses
/// nothing and leaves every track as it was.
pub proof fn lemma_unknown_code_dropped(
    state: ReplayView,
    code: Seq<char>,
    value: Logic,
    values: Seq<Logic>,
)
    requires
        slot_of(state.tracks, code) is None,
    ensures
        state.apply(RecordView::ChangeScalar(code, value)) == Ok::<ReplayView, FormatErrorView>(
            state,
        ),
        state.apply(RecordView::ChangeVector(code, values)) == Ok::<ReplayView, FormatErrorView>(
            state,
        ),
{
}

} // verus!
