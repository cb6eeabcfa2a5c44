//! Display names: a variable's scopes and its own name, joined by dots.

use vstd::prelude::*;
use crate::vcd::scope::{stack_view, ScopeKind, ScopedVar, ScopedVarView};
use crate::vcd::signal::Signal;

verus! {

/// The names of the first `count` scopes joined by dots.
pub open spec fn joined(scopes: Seq<(ScopeKind, Seq<char>)>, count: int) -> Seq<char>
    decreases count,
{
    if count <= 0 {
        Seq::empty()
    } else if count == 1 {
        scopes[0].1
    } else {
        joined(scopes, count - 1) + seq!['.'] + scopes[count - 1].1
    }
}

/// The fully qualified name of a variable: the names of its scopes and its
/// own name, joined by dots. Where the scopes give no text at all, it is the
/// variable's own name.
pub open spec fn full_name(var: ScopedVarView) -> Seq<char> {
    let path = joined(var.scopes, var.scopes.len() as int);
    if path.len() == 0 {
        var.var.reference
    } else {
        path + seq!['.'] + var.var.reference
    }
}

impl ScopedVar {
    /// The fully qualified name of the variable.
    pub fn full_name(&self) -> (name: String)
        ensures
            name@ == full_name(self@),
    {
        let ghost scopes = stack_view(self.scopes@);
        let mut name = String::new();
        let mut i: usize = 0;
        proof {
            reveal_strlit(".");
        }
        while i < self.scopes.len()
            invariant
                i <= self.scopes@.len(),
                scopes == stack_view(self.scopes@),
                name@ == joined(scopes, i as int),
                "."@ == seq!['.'],
            decreases self.scopes@.len() - i,
        {
            if i > 0 {
                name.append(".");
            }
            name.append(self.scopes[i].1.as_str());
            i = i + 1;
            assert(name@ =~= joined(scopes, i as int));
        }
        if !name.as_str().is_empty() {
            name.append(".");
        }
        name.append(self.var.reference.as_str());
        assert(name@ =~= full_name(self@));
        name
    }
}

/// Names every signal by the full name of its variable, in the order given.
pub fn mk_wave_data(sigs: Vec<(ScopedVar, Signal)>) -> (waves: Vec<(String, Signal)>)
    ensures
        waves@.len() == sigs@.len(),
        forall|k: int|
            0 <= k < sigs@.len() ==> (#[trigger] waves@[k]).0@ == full_name(sigs@[k].0@)
                && waves@[k].1@ == sigs@[k].1@,
{
    let ghost given = sigs@;
    let mut waves: Vec<(String, Signal)> = Vec::new();
    for track in iter: sigs
        invariant
            iter.seq() == given,
            waves@.len() == iter.index(),
            forall|k: int|
                0 <= k < iter.index() ==> (#[trigger] waves@[k]).0@ == full_name(given[k].0@)
                    && waves@[k].1@ == given[k].1@,
    {
        let (var, signal) = track;
        let name = var.full_name();
        waves.push((name, signal));
    }
    waves
}

} // verus!
