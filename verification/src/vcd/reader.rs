//! Replaying a trace: the variables of the header are registered, the records
//! of the body are routed to their signals, and every history is closed at the
//! end of the simulation.

use vstd::prelude::*;
use indexmap::IndexMap;
use crate::vcd::parse::{parse_document, parsed_document};
use crate::vcd::record::{
    Document,
    DocumentView,
    FormatError,
    FormatErrorView,
    Record,
    RecordView,
};
use crate::vcd::scope::{flatten, header_vars, vars_view, ScopedVar, ScopedVarView, VarKind};
use crate::vcd::signal::{Signal, SignalView};
use crate::vcd::slots::{slot_map, slots_get, slots_insert, slots_new};
use crate::vcd::value::{padded, Logic};

verus! {

/// Whether a variable gets a signal: registers and wires do.
pub open spec fn is_tracked(var: ScopedVarView) -> bool {
    var.var.var_type == VarKind::Reg || var.var.var_type == VarKind::Wire
}

/// The signal that a variable starts with: of its declared width, and empty.
pub open spec fn fresh_signal(var: ScopedVarView) -> SignalView {
    SignalView { width: var.var.size as nat, entries: Seq::empty() }
}

/// Whether the track at place `k` belongs to the variable that `code` names.
pub open spec fn names(tracks: Seq<(ScopedVarView, SignalView)>, code: Seq<char>, k: int) -> bool {
    0 <= k < tracks.len() && tracks[k].0.var.code == code
}

/// The place of the track that `code` names, if there is one.
pub open spec fn slot_of(tracks: Seq<(ScopedVarView, SignalView)>, code: Seq<char>) -> Option<
    int,
> {
    if exists|k: int| names(tracks, code, k) {
        Some(choose|k: int| names(tracks, code, k))
    } else {
        None
    }
}

/// Whether no two tracks answer to the same identifier code.
pub open spec fn distinct_codes(tracks: Seq<(ScopedVarView, SignalView)>) -> bool {
    forall|j: int, k: int|
        0 <= j < tracks.len() && 0 <= k < tracks.len() && tracks[j].0.var.code
            == tracks[k].0.var.code ==> j == k
}

/// The tracks after one more declared variable: a variable that is not
/// tracked changes nothing; a tracked one whose code is new gets a track at
/// the end; one whose code is known takes over the track of that code, with a
/// fresh signal.
pub open spec fn register(
    tracks: Seq<(ScopedVarView, SignalView)>,
    var: ScopedVarView,
) -> Seq<(ScopedVarView, SignalView)> {
    if !is_tracked(var) {
        tracks
    } else {
        match slot_of(tracks, var.var.code) {
            Some(k) => tracks.update(k, (var, fresh_signal(var))),
            None => tracks.push((var, fresh_signal(var))),
        }
    }
}

/// The tracks after the declared variables were registered in order.
pub open spec fn registered(vars: Seq<ScopedVarView>) -> Seq<(ScopedVarView, SignalView)>
    decreases vars.len(),
{
    if vars.len() == 0 {
        Seq::empty()
    } else {
        register(registered(vars.drop_last()), vars.last())
    }
}

/// A replay under way: the tracks, and the simulation time that the body has
/// reached.
pub struct ReplayView {
    pub tracks: Seq<(ScopedVarView, SignalView)>,
    pub time: u64,
}

impl ReplayView {
    /// The replay after `chunk` was recorded at the current time in the track
    /// at place `k`.
    pub open spec fn recorded(self, k: int, chunk: Seq<Logic>) -> ReplayView {
        ReplayView {
            tracks: self.tracks.update(
                k,
                (self.tracks[k].0, self.tracks[k].1.with_entry(self.time, chunk)),
            ),
            time: self.time,
        }
    }

    /// The replay after one record. A timestamp sets the time. A scalar change
    /// is recorded where its code names a track of width 1, and dropped
    /// otherwise. A vector change is recorded, filled up to the width, where
    /// its code names a track; it is dropped where its code names none, and
    /// refuses the trace where it is wider than the track. Every other record
    /// changes nothing.
    pub open spec fn apply(self, record: RecordView) -> Result<ReplayView, FormatErrorView> {
        match record {
            RecordView::Timestamp(time) => Ok(ReplayView { tracks: self.tracks, time }),
            RecordView::ChangeScalar(code, value) => match slot_of(self.tracks, code) {
                Some(k) => if self.tracks[k].1.width == 1 {
                    Ok(self.recorded(k, seq![value]))
                } else {
                    Ok(self)
                },
                None => Ok(self),
            },
            RecordView::ChangeVector(code, values) => match slot_of(self.tracks, code) {
                Some(k) => if values.len() > self.tracks[k].1.width {
                    Err(
                        FormatErrorView::Width {
                            code,
                            declared: self.tracks[k].1.width as usize,
                            supplied: values.len() as usize,
                        },
                    )
                } else {
                    Ok(self.recorded(k, padded(values, self.tracks[k].1.width)))
                },
                None => Ok(self),
            },
            _ => Ok(self),
        }
    }

    /// The replay after the readings from position `from` on: a record that
    /// could not be read refuses the trace with its message, and so does a
    /// record that `apply` refuses.
    pub open spec fn replay_from(
        self,
        readings: Seq<Result<RecordView, Seq<char>>>,
        from: int,
    ) -> Result<ReplayView, FormatErrorView>
        decreases readings.len() - from,
    {
        if 0 <= from < readings.len() {
            match readings[from] {
                Ok(record) => match self.apply(record) {
                    Ok(next) => next.replay_from(readings, from + 1),
                    Err(refusal) => Err(refusal),
                },
                Err(message) => Err(FormatErrorView::Record(message)),
            }
        } else {
            Ok(self)
        }
    }

    /// The tracks with every history closed at the time reached, and that
    /// time.
    pub open spec fn finished(self) -> (Seq<(ScopedVarView, SignalView)>, u64) {
        (
            Seq::new(
                self.tracks.len(),
                |k: int| (self.tracks[k].0, self.tracks[k].1.finalized(self.time)),
            ),
            self.time,
        )
    }
}

/// What replaying a document gives: the variables of its header are
/// registered in declaration order, its records are replayed from time 0, and
/// the histories are closed at the last time seen.
pub open spec fn replayed(document: DocumentView) -> Result<
    (Seq<(ScopedVarView, SignalView)>, u64),
    FormatErrorView,
> {
    let start = ReplayView { tracks: registered(flatten(document.items)), time: 0 };
    match start.replay_from(document.records, 0) {
        Ok(end) => Ok(end.finished()),
        Err(refusal) => Err(refusal),
    }
}

/// What reading a trace gives, from what the parser made of its text: a
/// header that could not be read refuses the trace with the parser's message.
pub open spec fn read_outcome(parsed: Result<DocumentView, Seq<char>>) -> Result<
    (Seq<(ScopedVarView, SignalView)>, u64),
    FormatErrorView,
> {
    match parsed {
        Ok(document) => replayed(document),
        Err(message) => Err(FormatErrorView::Header(message)),
    }
}

/// What a list of variables with their signals stands for.
pub open spec fn tracks_view(tracks: Seq<(ScopedVar, Signal)>) -> Seq<(ScopedVarView, SignalView)> {
    Seq::new(tracks.len(), |k: int| (tracks[k].0@, tracks[k].1@))
}

/// What the outcome of a replay stands for.
pub open spec fn trace_view(outcome: Result<(Vec<(ScopedVar, Signal)>, u64), FormatError>) -> Result<
    (Seq<(ScopedVarView, SignalView)>, u64),
    FormatErrorView,
> {
    match outcome {
        Ok(trace) => Ok((tracks_view(trace.0@), trace.1)),
        Err(refusal) => Err(refusal@),
    }
}

/// Whether the map from codes to places agrees with the tracks: it holds
/// exactly the codes of the tracks, each with the place of its track.
spec fn slots_match(slots: IndexMap<String, usize>, tracks: Seq<(ScopedVarView, SignalView)>) -> bool {
    &&& forall|code: Seq<char>| #[trigger]
        slot_map(slots).contains_key(code) ==> names(tracks, code, slot_map(slots)[code] as int)
    &&& forall|k: int|
        0 <= k < tracks.len() ==> slot_map(slots).contains_key((#[trigger] tracks[k]).0.var.code)
            && slot_map(slots)[tracks[k].0.var.code] == k
}

/// A map that agrees with the tracks finds the place of every code.
proof fn lemma_slots_find(
    slots: IndexMap<String, usize>,
    tracks: Seq<(ScopedVarView, SignalView)>,
    code: Seq<char>,
)
    requires
        slots_match(slots, tracks),
    ensures
        distinct_codes(tracks),
        slot_map(slots).contains_key(code) ==> slot_of(tracks, code) == Some(
            slot_map(slots)[code] as int,
        ),
        !slot_map(slots).contains_key(code) ==> slot_of(tracks, code) is None,
{
    assert forall|j: int, k: int|
        0 <= j < tracks.len() && 0 <= k < tracks.len() && tracks[j].0.var.code
            == tracks[k].0.var.code implies j == k by {
        assert(slot_map(slots)[tracks[j].0.var.code] == j);
        assert(slot_map(slots)[tracks[k].0.var.code] == k);
    }
    if slot_map(slots).contains_key(code) {
        let k = slot_map(slots)[code] as int;
        assert(names(tracks, code, k));
        let found = choose|k: int| names(tracks, code, k);
        assert(names(tracks, code, found));
        assert(slot_map(slots)[tracks[found].0.var.code] == found);
    } else {
        assert forall|k: int| !names(tracks, code, k) by {
            if 0 <= k < tracks.len() {
                assert(slot_map(slots).contains_key(tracks[k].0.var.code));
            }
        }
    }
}

/// Registers one declared variable.
fn register_var(
    slots: &mut IndexMap<String, usize>,
    tracks: &mut Vec<(ScopedVar, Signal)>,
    var: ScopedVar,
)
    requires
        slots_match(*old(slots), tracks_view(old(tracks)@)),
    ensures
        slots_match(*final(slots), tracks_view(final(tracks)@)),
        tracks_view(final(tracks)@) == register(tracks_view(old(tracks)@), var@),
{
    let ghost before = tracks_view(tracks@);
    let ghost code = var.var.code@;
    match var.var.var_type {
        VarKind::Reg | VarKind::Wire => {},
        VarKind::Other => {
            return ;
        },
    }
    proof {
        lemma_slots_find(*slots, before, code);
    }
    let signal = Signal::new(var.var.size as usize);
    match slots_get(slots, var.var.code.as_str()) {
        Some(k) => {
            tracks[k] = (var, signal);
            assert(tracks_view(tracks@) =~= before.update(k as int, (var@, fresh_signal(var@))));
        },
        None => {
            let place = tracks.len();
            slots_insert(slots, var.var.code.clone(), place);
            tracks.push((var, signal));
            assert(tracks_view(tracks@) =~= before.push((var@, fresh_signal(var@))));
        },
    }
}

/// Routes one record of the body.
fn apply_record(
    slots: &IndexMap<String, usize>,
    tracks: &mut Vec<(ScopedVar, Signal)>,
    time: u64,
    record: Record,
) -> (outcome: Result<u64, FormatError>)
    requires
        slots_match(*slots, tracks_view(old(tracks)@)),
    ensures
        match (ReplayView { tracks: tracks_view(old(tracks)@), time }).apply(record@) {
            Ok(next) => outcome == Ok::<u64, FormatError>(next.time) && tracks_view(final(tracks)@)
                == next.tracks && slots_match(*slots, next.tracks),
            Err(refusal) => outcome matches Err(refused) && refused@ == refusal,
        },
{
    let ghost before = tracks_view(tracks@);
    let ghost state = ReplayView { tracks: before, time };
    match record {
        Record::Timestamp(reached) => Ok(reached),
        Record::ChangeScalar(code, value) => {
            proof {
                lemma_slots_find(*slots, before, code@);
            }
            match slots_get(slots, code.as_str()) {
                Some(k) => {
                    if tracks[k].1.width() == 1 {
                        tracks[k].1.insert_bit(time, value);
                        assert(tracks_view(tracks@) =~= state.recorded(k as int, seq![value]).tracks);
                    }
                    Ok(time)
                },
                None => Ok(time),
            }
        },
        Record::ChangeVector(code, values) => {
            proof {
                lemma_slots_find(*slots, before, code@);
            }
            match slots_get(slots, code.as_str()) {
                Some(k) => {
                    let ghost width = before[k as int].1.width;
                    let ghost supplied = values@;
                    match tracks[k].1.insert(time, values) {
                        Ok(()) => {
                            assert(tracks_view(tracks@) =~= state.recorded(
                                k as int,
                                padded(supplied, width),
                            ).tracks);
                            Ok(time)
                        },
                        Err(refused) => Err(
                            FormatError::Width {
                                code,
                                declared: refused.declared,
                                supplied: refused.supplied,
                            },
                        ),
                    }
                },
                None => Ok(time),
            }
        },
        Record::ChangeString(_, _) => Ok(time),
        Record::Other => Ok(time),
    }
}

/// Replays a document: registers the tracked variables of its header in
/// declaration order, routes the records of its body to their signals, and
/// closes every history at the last time seen.
pub fn replay(document: Document) -> (outcome: Result<(Vec<(ScopedVar, Signal)>, u64), FormatError>)
    ensures
        trace_view(outcome) == replayed(document@),
{
    let ghost readings = document@.records;
    let ghost goal = replayed(document@);
    let Document { items, records } = document;
    let vars = header_vars(items.as_slice());
    let ghost flat = vars_view(vars@);
    let ghost declared = vars@;
    let mut slots = slots_new();
    let mut tracks: Vec<(ScopedVar, Signal)> = Vec::new();
    assert(tracks_view(tracks@) =~= registered(flat.take(0)));
    for var in iter: vars
        invariant
            iter.seq() == declared,
            flat == vars_view(declared),
            slots_match(slots, tracks_view(tracks@)),
            tracks_view(tracks@) == registered(flat.take(iter.index() as int)),
    {
        let ghost i = iter.index() as int;
        assert(flat.take(i + 1).drop_last() =~= flat.take(i));
        assert(flat.take(i + 1).last() == var@);
        register_var(&mut slots, &mut tracks, var);
    }
    assert(flat.take(flat.len() as int) =~= flat);
    let ghost start = ReplayView { tracks: tracks_view(tracks@), time: 0 };
    let ghost all = records@;
    let mut time: u64 = 0;
    for reading in iter: records
        invariant
            iter.seq() == all,
            readings == crate::vcd::record::readings_view(all),
            goal == replayed(document@),
            goal == (match start.replay_from(readings, 0) {
                Ok(end) => Ok(end.finished()),
                Err(refusal) => Err(refusal),
            }),
            slots_match(slots, tracks_view(tracks@)),
            start.replay_from(readings, 0) == (ReplayView {
                tracks: tracks_view(tracks@),
                time,
            }).replay_from(readings, iter.index() as int),
    {
        assert(readings[iter.index() as int] == crate::vcd::record::reading_view(reading));
        match reading {
            Ok(record) => {
                match apply_record(&slots, &mut tracks, time, record) {
                    Ok(reached) => {
                        time = reached;
                    },
                    Err(refusal) => {
                        return Err(refusal);
                    },
                }
            },
            Err(message) => {
                return Err(FormatError::Record(message));
            },
        }
    }
    let ghost end = ReplayView { tracks: tracks_view(tracks@), time };
    let mut k: usize = 0;
    while k < tracks.len()
        invariant
            k <= tracks@.len(),
            tracks@.len() == end.tracks.len(),
            forall|j: int|
                0 <= j < k ==> (#[trigger] tracks@[j]).0@ == end.tracks[j].0 && tracks@[j].1@
                    == end.tracks[j].1.finalized(time),
            forall|j: int|
                k <= j < tracks@.len() ==> (#[trigger] tracks@[j]).0@ == end.tracks[j].0
                    && tracks@[j].1@ == end.tracks[j].1,
        decreases tracks@.len() - k,
    {
        tracks[k].1.finalize(time);
        k = k + 1;
    }
    assert(tracks_view(tracks@) =~= end.finished().0);
    Ok((tracks, time))
}

/// Reads a trace from its text: the signals of the tracked variables, in
/// declaration order, and the last simulation time seen.
pub fn read_clocked_vcd(bytes: &[u8]) -> (outcome: Result<
    (Vec<(ScopedVar, Signal)>, u64),
    FormatError,
>)
    ensures
        trace_view(outcome) == read_outcome(parsed_document(bytes@)),
{
    match parse_document(bytes) {
        Ok(document) => replay(document),
        Err(message) => Err(FormatError::Header(message)),
    }
}

} // verus!
