//! Types that are compared and replaced whole.

use vstd::prelude::*;

use crate::apply::{
    lemma_skipped_consumes, lemma_skipped_local, value_applied, Applied, ApplyContext, ApplyError,
};
use crate::command::{CommandCount, CommandSeq, CommandView};
use crate::context::DiffContext;
use crate::datum::Datum;
use crate::diffable::SerdeDiffable;
use crate::source::CommandSource;
use crate::value::ValueView;

verus! {

/// Makes a type diffable given that its values can be carried whole and compared.
/// This makes the type a "terminal" type in the SerdeDiffable hierarchy, meaning deeper inspection
/// will not be possible.
pub trait Terminal: Datum {
    /// Whether the two values stand for the same.
    fn same(&self, other: &Self) -> (r: bool)
        ensures
            r == (self.model() == other.model()),
    ;
}

/// Saves `new` whole if it differs from what it is compared with. Returns whether it does.
pub fn diff_whole<T: Datum>(ctx: &mut DiffContext, differs: bool, new: &T) -> (changed: bool)
    ensures
        changed == differs,
        differs ==> final(ctx).view() == old(ctx).view().saved(
            CommandView::Value(new.model()),
            true,
        ),
        !differs ==> final(ctx).view() == old(ctx).view(),
{
    if differs {
        ctx.save_value(new);
        true
    } else {
        false
    }
}

impl<T: Terminal> SerdeDiffable for T {
    open spec fn differs(old: ValueView, new: ValueView) -> bool {
        old != new
    }

    open spec fn body(old: ValueView, new: ValueView) -> CommandSeq {
        seq![CommandView::Value(new)]
    }

    open spec fn closed(old: ValueView, new: ValueView) -> bool {
        true
    }

    open spec fn applied(value: ValueView, pending: CommandSeq) -> Applied {
        value_applied::<T>(value, pending)
    }

    proof fn lemma_applied_consumes(value: ValueView, pending: CommandSeq) {
        if pending.len() > 0 {
            lemma_skipped_consumes(pending.drop_first(), 1);
        }
    }

    proof fn lemma_applied_local(value: ValueView, pending: CommandSeq, n: CommandCount) {
        let a = value_applied::<T>(value, pending);
        let read = pending.len() - a.rest.len();
        let short = pending.take(read + n);
        if pending.len() == 0 {
            assert(short =~= pending);
            assert(a.rest.take(n) =~= a.rest);
            assert(a.rest =~= pending.skip(read));
        } else {
            let rest = pending.drop_first();
            if let CommandView::Enter(_) = pending[0] {
                lemma_skipped_local(rest, 1, n);
                assert(rest.skip(read - 1) =~= pending.skip(read));
                assert(short.drop_first() =~= rest.take(read - 1 + n));
            } else {
                assert(rest =~= pending.skip(1));
                assert(short.drop_first() =~= rest.take(n));
            }
            assert(short[0] == pending[0]);
        }
    }

    fn diff(&self, ctx: &mut DiffContext, other: &Self) -> (changed: bool) {
        diff_whole(ctx, !self.same(other), other)
    }

    fn apply<'de, A: CommandSource<'de>>(
        &mut self,
        seq: &mut A,
        ctx: &mut ApplyContext,
    ) -> (r: Result<bool, ApplyError<A::Error>>) {
        ctx.read_value(seq, self)
    }
}

} // verus!
