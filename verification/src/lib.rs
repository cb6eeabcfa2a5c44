//! Signal storage for Value Change Dump traces: variable declarations are
//! flattened out of the header's scope tree, and every tracked variable gets a
//! time-indexed history of its values that can be queried by point and by
//! window.

pub mod vcd;
