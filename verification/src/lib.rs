//! Differences between values, as a list of commands that bring one value up to date with another.
//!
//! A [`Diff`] of two values is a list of commands. `Enter` goes into a part of the value, `Value`
//! replaces what has been entered, `Remove` takes items off the end of a list, and `Exit` goes
//! back out. `Value` and `Remove` are implicit `Exit`s. Only what changed is in the list.
//! [`Apply`] reads the commands back into a value.
//!
//! A type takes part by implementing [`SerdeDiffable`]. A type that is compared and replaced whole
//! implements [`Terminal`] instead. Types for which reading a diff back is proved to restore the
//! new value implement [`RoundTrip`]; what holds of all of them is in [`laws`]. What holds of the
//! commands that are written and of reading them, one by one and for every type, is in [`writing`]
//! and [`reading`], and [`faithful`] says that no two different values are taken for the same.

pub mod apply;
pub mod command;
pub mod context;
pub mod datum;
pub mod diff;
pub mod diffable;
pub mod faithful;
pub mod laws;
pub mod list;
pub mod primitive;
pub mod reading;
pub mod roundtrip;
pub mod source;
pub mod terminal;
pub mod value;
pub mod variant;
pub mod writing;

pub use apply::{Apply, ApplyContext, ApplyError, Fault};
pub use command::{DiffCommandRef, DiffCommandValue, DiffPathElementValue};
pub use context::DiffContext;
pub use datum::{Datum, Modeled};
pub use diff::Diff;
pub use diffable::SerdeDiffable;
pub use roundtrip::RoundTrip;
pub use source::{CommandReader, CommandSource};
pub use terminal::Terminal;
pub use value::{Fields, FieldsKind, Kind, Scalar, ScalarKind, Value};
