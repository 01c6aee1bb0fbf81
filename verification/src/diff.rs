//! Taking the difference of two values.

use vstd::prelude::*;

use crate::command::{command_views, CommandSeq, DiffCommandValue};
use crate::context::DiffContext;
use crate::diffable::SerdeDiffable;
use crate::value::{Value, ValueView};

verus! {

/// The commands that lead from `old` to `new`: none, if there is no change.
pub open spec fn difference<T: SerdeDiffable>(old: ValueView, new: ValueView) -> CommandSeq {
    if T::differs(old, new) {
        T::body(old, new)
    } else {
        Seq::empty()
    }
}

/// Serializes the difference between two values of a type
pub struct Diff<'a, 'b, T> {
    old: &'a T,
    new: &'b T,
}

impl<'a, 'b, T: SerdeDiffable> Diff<'a, 'b, T> {
    /// The value that the difference starts from.
    pub closed spec fn before(&self) -> T {
        *self.old
    }

    /// The value that the difference leads to.
    pub closed spec fn after(&self) -> T {
        *self.new
    }

    pub fn serializable(old: &'a T, new: &'b T) -> (r: Self)
        ensures
            r.before() == *old,
            r.after() == *new,
    {
        Diff { old, new }
    }

    /// The commands that lead from `old` to `new`.
    pub fn diff(old: &'a T, new: &'b T) -> (r: Vec<DiffCommandValue<'static, Value>>)
        ensures
            command_views(r@) == difference::<T>(old.model(), new.model()),
    {
        Self::serializable(old, new).serialize()
    }

    /// The commands to be written. Their number is known before the first of them is written.
    pub fn serialize(&self) -> (r: Vec<DiffCommandValue<'static, Value>>)
        ensures
            command_views(r@) == difference::<T>(self.before().model(), self.after().model()),
    {
        let mut ctx = DiffContext::new();
        let changed: bool = self.old.diff(&mut ctx, self.new);
        proof {
            let written = ctx.view().written;
            if changed {
                assert(written =~= T::body(self.before().model(), self.after().model()));
            } else {
                assert(written =~= CommandSeq::empty());
            }
        }
        ctx.into_commands()
    }
}

} // verus!
