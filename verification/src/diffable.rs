//! What it takes for a type to be compared and brought up to date.

use vstd::prelude::*;

use crate::apply::{agrees, Applied, ApplyContext, ApplyError};
use crate::command::{CommandCount, CommandSeq, CommandView};
use crate::context::DiffContext;
use crate::datum::Modeled;
use crate::source::{failed_after, CommandSource};
use crate::value::ValueView;

verus! {

/// Anything diffable implements this trait
pub trait SerdeDiffable: Modeled {
    /// Whether a diff of the two finds a change.
    spec fn differs(old: ValueView, new: ValueView) -> bool;

    /// The commands that a diff which finds a change writes.
    spec fn body(old: ValueView, new: ValueView) -> CommandSeq;

    /// Whether the last of these commands leaves the path element that the value stands under.
    spec fn closed(old: ValueView, new: ValueView) -> bool;

    /// What becomes of `value` when it is brought up to date from a stream of commands.
    spec fn applied(value: ValueView, pending: CommandSeq) -> Applied;

    /// Bringing a value up to date does not make the stream longer.
    proof fn lemma_applied_consumes(value: ValueView, pending: CommandSeq)
        ensures
            Self::applied(value, pending).rest.len() <= pending.len(),
    ;

    /// Bringing a value up to date looks no further than it reads: with only `n` of the commands
    /// behind them in the stream, the same commands do the same.
    proof fn lemma_applied_local(value: ValueView, pending: CommandSeq, n: CommandCount)
        requires
            Self::applied(value, pending).outcome is Done,
            0 <= n <= Self::applied(value, pending).rest.len(),
        ensures
            ({
                let a = Self::applied(value, pending);
                let read = pending.len() - a.rest.len();
                &&& a.rest == pending.skip(read)
                &&& Self::applied(value, pending.take(read + n)) == (Applied {
                    rest: a.rest.take(n),
                    ..a
                })
            }),
    ;

    /// Recursively walk the struct, saving each member that is different.
    /// Returns whether anything changed.
    fn diff(&self, ctx: &mut DiffContext, other: &Self) -> (changed: bool)
        ensures
            changed == Self::differs(self.model(), other.model()),
            changed ==> final(ctx).view() == old(ctx).view().saved_all(
                Self::body(self.model(), other.model()),
                Self::closed(self.model(), other.model()),
            ),
            !changed ==> final(ctx).view() == old(ctx).view(),
    ;

    /// Brings this value up to date from a stream of commands. Returns whether anything changed.
    /// If the stream fails, the value is left as the commands read until then left it.
    fn apply<'de, A: CommandSource<'de>>(
        &mut self,
        seq: &mut A,
        ctx: &mut ApplyContext,
    ) -> (r: Result<bool, ApplyError<A::Error>>)
        ensures
            agrees(
                r,
                A::reliable(),
                Self::applied(old(self).model(), old(seq).pending()),
                final(self).model(),
                final(seq).pending(),
            ),
            r matches Err(ApplyError::Source(_)) ==> exists|n: int|
                failed_after(n, old(seq).pending(), final(seq).pending()) && Self::applied(
                    old(self).model(),
                    #[trigger] old(seq).pending().take(n),
                ).ends_as(final(self).model()),
    ;
}

/// The commands that a diff which finds a change writes, up to where the path element that the
/// value stands under is left.
pub open spec fn block<T: SerdeDiffable>(old: ValueView, new: ValueView) -> CommandSeq {
    if T::closed(old, new) {
        T::body(old, new)
    } else {
        T::body(old, new).push(CommandView::Exit)
    }
}

} // verus!
