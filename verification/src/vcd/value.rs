//! Logic values and the padding of narrow vector changes.

use vstd::prelude::*;

verus! {

/// One of the four states a bit of a digital signal can be in.
#[derive(Clone, Copy, Debug, PartialEq, Eq, Structural)]
pub enum Logic {
    /// Defined low.
    V0,
    /// Defined high.
    V1,
    /// Undefined.
    X,
    /// High impedance.
    Z,
}

/// `count` defined-low values.
pub open spec fn zeros(count: nat) -> Seq<Logic> {
    Seq::new(count, |i: int| Logic::V0)
}

/// A change of at most `width` values, filled up with defined-low values to
/// exactly `width` of them.
pub open spec fn padded(value: Seq<Logic>, width: nat) -> Seq<Logic>
    recommends
        value.len() <= width,
{
    value + zeros((width - value.len()) as nat)
}

/// A padded change is exactly as wide as declared: it starts with the values
/// supplied, and every position after them holds the defined-low value.
pub proof fn lemma_padded_width(value: Seq<Logic>, width: nat)
    requires
        value.len() <= width,
    ensures
        padded(value, width).len() == width,
        forall|i: int| 0 <= i < value.len() ==> padded(value, width)[i] == value[i],
        forall|i: int| value.len() <= i < width ==> padded(value, width)[i] == Logic::V0,
{
}

} // verus!
