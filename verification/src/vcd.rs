//! Traces in the Value Change Dump format: the header's variables, the
//! signals recorded for them, and the queries on a signal.

pub mod laws;
pub mod order;
pub mod parse;
pub mod query;
pub mod reader;
pub mod record;
pub mod scope;
pub mod signal;
pub mod slots;
pub mod value;
pub mod wave;

pub use query::{BitSignalRange, BitSignalRangeIter, SignalRange, SignalRangeIter};
pub use reader::{read_clocked_vcd, replay};
pub use record::{Document, FormatError, Record};
pub use scope::{header_vars, HeaderItem, Scope, ScopeKind, ScopedVar, Var, VarKind};
pub use signal::{Signal, SignalView, WidthViolation};
pub use value::Logic;
pub use wave::mk_wave_data;
