//! What holds of diffs as a whole.

use vstd::prelude::*;

use crate::apply::{skipped, Applied, Outcome, Skipped};
use crate::command::{all_written, CommandSeq, CommandView, PathView};
use crate::context::ContextView;
use crate::datum::{Datum, Modeled};
use crate::diff::difference;
use crate::diffable::{block, SerdeDiffable};
use crate::roundtrip::RoundTrip;
use crate::value::ValueView;

verus! {

/// Reading the difference of two values back into the first gives the second, says that something
/// changed just if they are different, and leaves nothing of the difference unread.
pub proof fn law_round_trip<T: RoundTrip>(old: T, new: T)
    ensures
        T::applied(old.model(), difference::<T>(old.model(), new.model())).value == new.model(),
        T::applied(old.model(), difference::<T>(old.model(), new.model())).outcome
            == Outcome::Done(old.model() != new.model()),
        T::applied(old.model(), difference::<T>(old.model(), new.model())).rest.len() == 0,
{
    old.lemma_model_valid();
    new.lemma_model_valid();
    T::law_change(old.model(), new.model());
    if T::differs(old.model(), new.model()) {
        T::law_restore_whole(old.model(), new.model());
    } else {
        T::law_idle(old.model());
    }
}

/// There is a difference just if the values are different.
pub proof fn law_difference_empty<T: RoundTrip>(old: T, new: T)
    ensures
        difference::<T>(old.model(), new.model()).len() == 0 <==> old.model() == new.model(),
{
    old.lemma_model_valid();
    new.lemma_model_valid();
    T::law_change(old.model(), new.model());
}

/// A difference holds no command that is never written.
pub proof fn law_difference_written<T: RoundTrip>(old: T, new: T)
    ensures
        all_written(difference::<T>(old.model(), new.model())),
{
    old.lemma_model_valid();
    new.lemma_model_valid();
    T::law_change(old.model(), new.model());
}

/// Pushing a path element and popping it with nothing written in between leaves no trace.
pub proof fn law_push_pop(ctx: ContextView, element: PathView)
    ensures
        ctx.pushed(element).popped() == ctx,
{
    assert(ctx.pushed(element).popped() =~= ctx);
}

/// A custom sequence of commands, with its path element pushed before and popped after, is followed
/// by an `Exit`, unless it was saved as one that leaves its path element by itself.
pub proof fn law_custom_sequence(
    ctx: ContextView,
    element: PathView,
    commands: CommandSeq,
    implicit_exit: bool,
)
    ensures
        ctx.pushed(element).saved_all(commands, implicit_exit).popped() == ctx.saved_all(
            seq![CommandView::Enter(element)] + if implicit_exit {
                commands
            } else {
                commands.push(CommandView::Exit)
            },
            false,
        ),
{
    assert(ctx.pushed(element).saved_all(commands, implicit_exit).popped() =~= ctx.saved_all(
        seq![CommandView::Enter(element)] + if implicit_exit {
            commands
        } else {
            commands.push(CommandView::Exit)
        },
        false,
    ));
}

/// A part that changed, with its path element pushed before and popped after, is written as that
/// path element and the block of commands under it.
pub proof fn law_part_written<T: SerdeDiffable>(
    ctx: ContextView,
    element: PathView,
    old: ValueView,
    new: ValueView,
)
    ensures
        ctx.pushed(element).saved_all(T::body(old, new), T::closed(old, new)).popped()
            == ctx.saved_all(seq![CommandView::Enter(element)] + block::<T>(old, new), false),
{
    law_custom_sequence(ctx, element, T::body(old, new), T::closed(old, new));
}

/// A part that changed is brought up to date by the block of commands under its path element,
/// which leaves what follows in the stream.
pub proof fn law_part_read<T: RoundTrip>(old: T, new: T, rest: CommandSeq)
    requires
        old.model() != new.model(),
    ensures
        T::applied(old.model(), block::<T>(old.model(), new.model()) + rest) == (Applied {
            value: new.model(),
            rest,
            outcome: Outcome::Done(true),
        }),
{
    old.lemma_model_valid();
    new.lemma_model_valid();
    T::law_change(old.model(), new.model());
    T::law_restore(old.model(), new.model(), rest);
}

/// A part whose path element is not recognized can be skipped: what is left of the stream is what
/// follows the part, as if it had been read.
pub proof fn law_part_skipped<T: RoundTrip>(old: T, new: T, rest: CommandSeq)
    requires
        old.model() != new.model(),
        T::nesting() < i32::MAX,
    ensures
        skipped(block::<T>(old.model(), new.model()) + rest, 1) == Skipped::Done(rest),
        T::applied(old.model(), block::<T>(old.model(), new.model()) + rest).rest == rest,
{
    law_part_read(old, new, rest);
    old.lemma_model_valid();
    new.lemma_model_valid();
    T::law_change(old.model(), new.model());
    T::law_skip(old.model(), new.model(), rest, 1);
}

} // verus!
