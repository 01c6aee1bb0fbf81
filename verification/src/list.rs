//! Lists: compared item by item, grown and shrunk at the end.

use vstd::prelude::*;

use crate::apply::{
    lemma_skipped_consumes, lemma_skipped_local, skip_failed, skipped, Applied, ApplyContext,
    ApplyError, Fault, Outcome, Skipped,
};
use crate::command::{
    CommandCount, CommandSeq, CommandView, DiffCommandRef, DiffCommandValue, DiffPathElementValue,
    PathView,
};
use crate::context::DiffContext;
use crate::datum::{Datum, Modeled};
use crate::diffable::{block, SerdeDiffable};
use crate::source::{failed_after, lemma_failed_after, CommandSource};
use crate::value::{Kind, Value, ValueView};

verus! {

/// The items of a list.
pub open spec fn items_of(v: ValueView) -> Seq<ValueView> {
    v->List_0
}

/// How many items of `old` and `new` stand at the same index.
pub open spec fn overlap(old: Seq<ValueView>, new: Seq<ValueView>) -> int {
    if old.len() <= new.len() {
        old.len() as int
    } else {
        new.len() as int
    }
}

/// Whether a diff of the items at index `i` finds a change.
pub open spec fn item_differs<T: SerdeDiffable>(
    old: Seq<ValueView>,
    new: Seq<ValueView>,
    i: int,
) -> bool {
    T::differs(old[i], new[i])
}

/// Whether an item before index `n` changed.
pub open spec fn any_differs<T: SerdeDiffable>(
    old: Seq<ValueView>,
    new: Seq<ValueView>,
    n: int,
) -> bool {
    exists|i: int| 0 <= i < n && #[trigger] item_differs::<T>(old, new, i)
}

/// The commands for the item at index `i`.
pub open spec fn item_change<T: SerdeDiffable>(
    old: Seq<ValueView>,
    new: Seq<ValueView>,
    i: int,
) -> CommandSeq {
    if item_differs::<T>(old, new, i) {
        seq![CommandView::Enter(PathView::CollectionIndex(i as usize))] + block::<T>(old[i], new[i])
    } else {
        Seq::empty()
    }
}

/// The commands for the items from index `i` on and before index `n`.
pub open spec fn item_changes<T: SerdeDiffable>(
    old: Seq<ValueView>,
    new: Seq<ValueView>,
    i: int,
    n: int,
) -> CommandSeq
    decreases n - i,
{
    if i >= n {
        Seq::empty()
    } else {
        item_change::<T>(old, new, i) + item_changes::<T>(old, new, i + 1, n)
    }
}

/// The commands that add the items from index `i` on and before index `n`.
pub open spec fn additions(new: Seq<ValueView>, i: int, n: int) -> CommandSeq
    decreases n - i,
{
    if i >= n {
        Seq::empty()
    } else {
        seq![CommandView::Enter(PathView::AddToCollection), CommandView::Value(new[i])]
            + additions(new, i + 1, n)
    }
}

/// The commands that make the list as long as it has to be.
pub open spec fn resizing(old: Seq<ValueView>, new: Seq<ValueView>) -> CommandSeq {
    if old.len() > new.len() {
        seq![CommandView::Remove((old.len() - new.len()) as usize)]
    } else {
        additions(new, old.len() as int, new.len() as int)
    }
}

/// Whether an `Exit` is written after the last item. A removal needs none after it.
pub open spec fn needs_exit<T: SerdeDiffable>(old: Seq<ValueView>, new: Seq<ValueView>) -> bool {
    ||| old.len() == new.len() && any_differs::<T>(old, new, overlap(old, new))
    ||| new.len() > old.len()
}

/// The commands that leave the list.
pub open spec fn ending<T: SerdeDiffable>(
    old: Seq<ValueView>,
    new: Seq<ValueView>,
) -> CommandSeq {
    if needs_exit::<T>(old, new) {
        seq![CommandView::Exit]
    } else {
        Seq::empty()
    }
}

/// The commands from the item at index `i` on.
pub open spec fn list_changes<T: SerdeDiffable>(
    old: Seq<ValueView>,
    new: Seq<ValueView>,
    i: int,
) -> CommandSeq {
    item_changes::<T>(old, new, i, overlap(old, new)) + resizing(old, new) + ending::<T>(old, new)
}

/// What becomes of a list while it is brought up to date, `changed` saying whether anything
/// changed already.
pub open spec fn list_applied<T: SerdeDiffable + Datum>(
    items: Seq<ValueView>,
    pending: CommandSeq,
    changed: bool,
) -> Applied
    decreases pending.len(),
{
    let value = ValueView::List(items);
    if pending.len() == 0 {
        Applied { value, rest: pending, outcome: Outcome::Done(changed) }
    } else {
        let rest = pending.drop_first();
        match pending[0] {
            CommandView::Enter(PathView::Field(_)) => match skipped(rest, 1) {
                Skipped::Done(r) => Applied { value, rest: r, outcome: Outcome::Done(changed) },
                failed => skip_failed(value, failed),
            },
            CommandView::Enter(PathView::CollectionIndex(i)) => if i < items.len() {
                let inner = T::applied(items[i as int], rest);
                let updated = items.update(i as int, inner.value);
                match inner.outcome {
                    // an item never makes the stream longer
                    Outcome::Done(c) => if inner.rest.len() <= rest.len() {
                        list_applied::<T>(updated, inner.rest, changed || c)
                    } else {
                        arbitrary()
                    },
                    outcome => Applied {
                        value: ValueView::List(updated),
                        rest: inner.rest,
                        outcome,
                    },
                }
            } else {
                match skipped(rest, 1) {
                    Skipped::Done(r) => if r.len() <= rest.len() {
                        list_applied::<T>(items, r, changed)
                    } else {
                        arbitrary()
                    },
                    failed => skip_failed(value, failed),
                }
            },
            CommandView::Enter(PathView::AddToCollection) => if rest.len() == 0 {
                Applied { value, rest, outcome: Outcome::Broken(Fault::ExpectedValue) }
            } else {
                match rest[0] {
                    CommandView::Value(v) => if T::valid(v) {
                        list_applied::<T>(items.push(v), rest.drop_first(), true)
                    } else {
                        Applied { value, rest: rest.drop_first(), outcome: Outcome::Unreadable }
                    },
                    _ => Applied {
                        value,
                        rest: rest.drop_first(),
                        outcome: Outcome::Broken(Fault::ExpectedValue),
                    },
                }
            },
            CommandView::Remove(n) => Applied {
                value: ValueView::List(
                    items.take(
                        if n <= items.len() {
                            items.len() - n
                        } else {
                            0
                        },
                    ),
                ),
                rest,
                outcome: Outcome::Done(true),
            },
            CommandView::Value(v) => if T::valid(v) {
                Applied {
                    value: ValueView::List(items.push(v)),
                    rest,
                    outcome: Outcome::Done(true),
                }
            } else {
                Applied { value, rest, outcome: Outcome::Unreadable }
            },
            CommandView::Exit | CommandView::Nothing | CommandView::DeserializedValue => Applied {
                value,
                rest,
                outcome: Outcome::Done(changed),
            },
        }
    }
}

/// Bringing a list up to date does not make the stream longer.
proof fn lemma_list_applied_consumes<T: SerdeDiffable + Datum>(
    items: Seq<ValueView>,
    pending: CommandSeq,
    changed: bool,
)
    ensures
        list_applied::<T>(items, pending, changed).rest.len() <= pending.len(),
    decreases pending.len(),
{
    if pending.len() > 0 {
        let rest = pending.drop_first();
        lemma_skipped_consumes(rest, 1);
        match pending[0] {
            CommandView::Enter(PathView::CollectionIndex(i)) => if i < items.len() {
                let inner = T::applied(items[i as int], rest);
                T::lemma_applied_consumes(items[i as int], rest);
                if let Outcome::Done(c) = inner.outcome {
                    lemma_list_applied_consumes::<T>(
                        items.update(i as int, inner.value),
                        inner.rest,
                        changed || c,
                    );
                }
            } else if let Skipped::Done(r) = skipped(rest, 1) {
                lemma_list_applied_consumes::<T>(items, r, changed);
            },
            CommandView::Enter(PathView::AddToCollection) => if rest.len() > 0 {
                if let CommandView::Value(v) = rest[0] {
                    lemma_list_applied_consumes::<T>(items.push(v), rest.drop_first(), true);
                }
            },
            _ => {},
        }
    }
}

/// Bringing a list up to date looks no further than it reads.
proof fn lemma_list_applied_local<T: SerdeDiffable + Datum>(
    items: Seq<ValueView>,
    pending: CommandSeq,
    changed: bool,
    n: int,
)
    requires
        list_applied::<T>(items, pending, changed).outcome is Done,
        0 <= n <= list_applied::<T>(items, pending, changed).rest.len(),
    ensures
        ({
            let a = list_applied::<T>(items, pending, changed);
            let read = pending.len() - a.rest.len();
            &&& a.rest == pending.skip(read)
            &&& list_applied::<T>(items, pending.take(read + n), changed) == (Applied {
                rest: a.rest.take(n),
                ..a
            })
        }),
    decreases pending.len(),
{
    lemma_list_applied_consumes::<T>(items, pending, changed);
    let a = list_applied::<T>(items, pending, changed);
    let read = pending.len() - a.rest.len();
    let short = pending.take(read + n);
    if pending.len() == 0 {
        assert(short =~= pending);
        assert(a.rest.take(n) =~= a.rest);
        assert(a.rest =~= pending.skip(read));
    } else {
        let rest = pending.drop_first();
        lemma_skipped_consumes(rest, 1);
        match pending[0] {
            CommandView::Enter(PathView::Field(_)) => {
                lemma_skipped_local(rest, 1, n);
                assert(rest.skip(read - 1) =~= pending.skip(read));
                assert(short[0] == pending[0]);
                assert(short.drop_first() =~= rest.take(read - 1 + n));
            },
            CommandView::Enter(PathView::CollectionIndex(i)) => if i < items.len() {
                let inner = T::applied(items[i as int], rest);
                let updated = items.update(i as int, inner.value);
                let c = inner.outcome->Done_0;
                T::lemma_applied_consumes(items[i as int], rest);
                lemma_list_applied_consumes::<T>(updated, inner.rest, changed || c);
                lemma_list_applied_local::<T>(updated, inner.rest, changed || c, n);
                let inner_read = rest.len() - inner.rest.len();
                let kept = inner.rest.len() - a.rest.len() + n;
                T::lemma_applied_local(items[i as int], rest, kept);
                assert(a.rest =~= pending.skip(read));
                assert(short[0] == pending[0]);
                assert(short.drop_first() =~= rest.take(inner_read + kept));
            } else {
                let r = skipped(rest, 1)->Done_0;
                lemma_list_applied_consumes::<T>(items, r, changed);
                lemma_list_applied_local::<T>(items, r, changed, n);
                let kept = r.len() - a.rest.len() + n;
                lemma_skipped_local(rest, 1, kept);
                assert(a.rest =~= pending.skip(read));
                assert(short[0] == pending[0]);
                assert(short.drop_first() =~= rest.take(rest.len() - r.len() + kept));
            },
            CommandView::Enter(PathView::AddToCollection) => {
                let v = rest[0]->Value_0;
                let after = rest.drop_first();
                lemma_list_applied_consumes::<T>(items.push(v), after, true);
                lemma_list_applied_local::<T>(items.push(v), after, true, n);
                assert(a.rest =~= pending.skip(read));
                assert(short[0] == pending[0]);
                assert(short.drop_first()[0] == rest[0]);
                assert(short.drop_first().drop_first() =~= after.take(
                    after.len() - a.rest.len() + n,
                ));
            },
            _ => {
                assert(rest =~= pending.skip(1));
                assert(short[0] == pending[0]);
                assert(short.drop_first() =~= rest.take(n));
            },
        }
    }
}

/// Whether reading `start` into a list leads by way of a list that has `pending` still to read,
/// wherever the stream ends after that.
spec fn in_step<T: SerdeDiffable + Datum>(
    first: Seq<ValueView>,
    start: CommandSeq,
    changed_first: bool,
    items: Seq<ValueView>,
    pending: CommandSeq,
    changed: bool,
) -> bool {
    let read = start.len() - pending.len();
    &&& 0 <= read
    &&& pending == start.skip(read)
    &&& forall|n: int|
        0 <= n <= pending.len() ==> list_applied::<T>(
            first,
            #[trigger] start.take(read + n),
            changed_first,
        ) == list_applied::<T>(items, pending.take(n), changed)
}

/// One step after others.
proof fn lemma_in_step_again<T: SerdeDiffable + Datum>(
    first: Seq<ValueView>,
    start: CommandSeq,
    items: Seq<ValueView>,
    before: CommandSeq,
    changed: bool,
    items_after: Seq<ValueView>,
    after: CommandSeq,
    changed_after: bool,
)
    requires
        in_step::<T>(first, start, false, items, before, changed),
        in_step::<T>(items, before, changed, items_after, after, changed_after),
    ensures
        in_step::<T>(first, start, false, items_after, after, changed_after),
{
    let earlier = start.len() - before.len();
    let step = before.len() - after.len();
    assert(before.skip(step) =~= start.skip(earlier + step));
    assert forall|n: int| 0 <= n <= after.len() implies list_applied::<T>(
        first,
        #[trigger] start.take(start.len() - after.len() + n),
        false,
    ) == list_applied::<T>(items_after, after.take(n), changed_after) by {
        assert(start.take(start.len() - after.len() + n) == start.take(earlier + (step + n)));
        assert(before.take(step + n) == before.take(before.len() - after.len() + n));
    }
}

/// The commands for an item.
proof fn lemma_item_in_step<T: SerdeDiffable + Datum>(
    items: Seq<ValueView>,
    before: CommandSeq,
    changed: bool,
)
    requires
        before.len() > 0,
        before[0] matches CommandView::Enter(PathView::CollectionIndex(i)) && if i < items.len() {
            T::applied(items[i as int], before.drop_first()).outcome is Done
        } else {
            skipped(before.drop_first(), 1) is Done
        },
    ensures
        before[0] matches CommandView::Enter(PathView::CollectionIndex(i)) && if i < items.len() {
            let inner = T::applied(items[i as int], before.drop_first());
            in_step::<T>(
                items,
                before,
                changed,
                items.update(i as int, inner.value),
                inner.rest,
                changed || inner.outcome->Done_0,
            )
        } else {
            in_step::<T>(
                items,
                before,
                changed,
                items,
                skipped(before.drop_first(), 1)->Done_0,
                changed,
            )
        },
{
    let rest = before.drop_first();
    let i = before[0]->Enter_0->CollectionIndex_0;
    if i < items.len() {
        let item = items[i as int];
        let inner = T::applied(item, rest);
        let after = inner.rest;
        let now_changed = changed || inner.outcome->Done_0;
        let updated = items.update(i as int, inner.value);
        T::lemma_applied_consumes(item, rest);
        T::lemma_applied_local(item, rest, 0);
        assert(after =~= before.skip(before.len() - after.len()));
        assert forall|n: int| 0 <= n <= after.len() implies list_applied::<T>(
            items,
            #[trigger] before.take(before.len() - after.len() + n),
            changed,
        ) == list_applied::<T>(updated, after.take(n), now_changed) by {
            T::lemma_applied_local(item, rest, n);
            let short = before.take(before.len() - after.len() + n);
            assert(short[0] == before[0]);
            assert(short.drop_first() =~= rest.take(rest.len() - after.len() + n));
        }
    } else {
        let after = skipped(rest, 1)->Done_0;
        lemma_skipped_consumes(rest, 1);
        lemma_skipped_local(rest, 1, 0);
        assert(after =~= before.skip(before.len() - after.len()));
        assert forall|n: int| 0 <= n <= after.len() implies list_applied::<T>(
            items,
            #[trigger] before.take(before.len() - after.len() + n),
            changed,
        ) == list_applied::<T>(items, after.take(n), changed) by {
            lemma_skipped_local(rest, 1, n);
            let short = before.take(before.len() - after.len() + n);
            assert(short[0] == before[0]);
            assert(short.drop_first() =~= rest.take(rest.len() - after.len() + n));
        }
    }
}

/// The commands for an addition.
proof fn lemma_addition_in_step<T: SerdeDiffable + Datum>(
    items: Seq<ValueView>,
    before: CommandSeq,
    changed: bool,
)
    requires
        before.len() > 1,
        before[0] == CommandView::Enter(PathView::AddToCollection),
        before[1] matches CommandView::Value(v) && T::valid(v),
    ensures
        in_step::<T>(
            items,
            before,
            changed,
            items.push(before[1]->Value_0),
            before.drop_first().drop_first(),
            true,
        ),
{
    let after = before.drop_first().drop_first();
    let added = items.push(before[1]->Value_0);
    assert(after =~= before.skip(2));
    assert forall|n: int| 0 <= n <= after.len() implies list_applied::<T>(
        items,
        #[trigger] before.take(before.len() - after.len() + n),
        changed,
    ) == list_applied::<T>(added, after.take(n), true) by {
        let short = before.take(before.len() - after.len() + n);
        assert(short[0] == before[0]);
        assert(short.drop_first()[0] == before[1]);
        assert(short.drop_first().drop_first() =~= after.take(n));
    }
}

/// Where the list is left if the stream fails after `n` more commands.
proof fn lemma_cut_short<T: SerdeDiffable + Datum>(
    first: Seq<ValueView>,
    start: CommandSeq,
    items: Seq<ValueView>,
    before: CommandSeq,
    changed: bool,
    n: int,
    value: ValueView,
    after: CommandSeq,
)
    requires
        in_step::<T>(first, start, false, items, before, changed),
        failed_after(n, before, after),
        list_applied::<T>(items, before.take(n), changed).ends_as(value),
    ensures
        exists|m: int|
            failed_after(m, start, after) && list_applied::<T>(
                first,
                #[trigger] start.take(m),
                false,
            ).ends_as(value),
{
    let m = start.len() - before.len() + n;
    lemma_failed_after(start.len() - before.len(), n, start, before, after);
    assert(list_applied::<T>(first, start.take(m), false).ends_as(value));
}

/// Where the list is left if the stream fails inside a part that is skipped.
proof fn lemma_skip_cut_short<T: SerdeDiffable + Datum>(
    first: Seq<ValueView>,
    start: CommandSeq,
    items: Seq<ValueView>,
    before: CommandSeq,
    changed: bool,
    after: CommandSeq,
)
    requires
        in_step::<T>(first, start, false, items, before, changed),
        before.len() > 0,
        match before[0] {
            CommandView::Enter(PathView::Field(_)) => true,
            CommandView::Enter(PathView::CollectionIndex(i)) => i >= items.len(),
            _ => false,
        },
        exists|n: int|
            failed_after(n, before.drop_first(), after) && skipped(
                #[trigger] before.drop_first().take(n),
                1,
            ) is Mismatched,
    ensures
        exists|m: int|
            failed_after(m, start, after) && list_applied::<T>(
                first,
                #[trigger] start.take(m),
                false,
            ).ends_as(ValueView::List(items)),
{
    let rest = before.drop_first();
    let n = choose|n: int|
        failed_after(n, rest, after) && skipped(#[trigger] rest.take(n), 1) is Mismatched;
    lemma_failed_after(1, n, before, rest, after);
    let short = before.take(n + 1);
    assert(short[0] == before[0]);
    assert(short.drop_first() =~= rest.take(n));
    lemma_cut_short::<T>(
        first,
        start,
        items,
        before,
        changed,
        n + 1,
        ValueView::List(items),
        after,
    );
}

/// Where the list is left if the stream fails inside an item.
proof fn lemma_item_cut_short<T: SerdeDiffable + Datum>(
    first: Seq<ValueView>,
    start: CommandSeq,
    items: Seq<ValueView>,
    before: CommandSeq,
    changed: bool,
    item: ValueView,
    after: CommandSeq,
)
    requires
        in_step::<T>(first, start, false, items, before, changed),
        before.len() > 0,
        before[0] matches CommandView::Enter(PathView::CollectionIndex(i)) && {
            &&& i < items.len()
            &&& exists|n: int|
                failed_after(n, before.drop_first(), after) && T::applied(
                    items[i as int],
                    #[trigger] before.drop_first().take(n),
                ).ends_as(item)
        },
    ensures
        before[0] matches CommandView::Enter(PathView::CollectionIndex(i)) && exists|m: int|
            failed_after(m, start, after) && list_applied::<T>(
                first,
                #[trigger] start.take(m),
                false,
            ).ends_as(ValueView::List(items.update(i as int, item))),
{
    let rest = before.drop_first();
    let i = before[0]->Enter_0->CollectionIndex_0;
    let n = choose|n: int|
        failed_after(n, rest, after) && T::applied(
            items[i as int],
            #[trigger] rest.take(n),
        ).ends_as(item);
    lemma_failed_after(1, n, before, rest, after);
    let short = before.take(n + 1);
    assert(short[0] == before[0]);
    assert(short.drop_first() =~= rest.take(n));
    let updated = items.update(i as int, item);
    let inner = T::applied(items[i as int], rest.take(n));
    if let Outcome::Done(c) = inner.outcome {
        assert(list_applied::<T>(updated, inner.rest, changed || c).ends_as(
            ValueView::List(updated),
        ));
    }
    lemma_cut_short::<T>(
        first,
        start,
        items,
        before,
        changed,
        n + 1,
        ValueView::List(updated),
        after,
    );
}

/// One more item at the end of the commands for the items.
pub proof fn lemma_item_changes_step<T: SerdeDiffable>(
    old: Seq<ValueView>,
    new: Seq<ValueView>,
    i: int,
    n: int,
)
    requires
        i <= n,
    ensures
        item_changes::<T>(old, new, i, n + 1) == item_changes::<T>(old, new, i, n) + item_change::<
            T,
        >(old, new, n),
    decreases n - i,
{
    if i < n {
        lemma_item_changes_step::<T>(old, new, i + 1, n);
        assert(item_change::<T>(old, new, i) + (item_changes::<T>(old, new, i + 1, n)
            + item_change::<T>(old, new, n)) =~= (item_change::<T>(old, new, i) + item_changes::<T>(
            old,
            new,
            i + 1,
            n,
        )) + item_change::<T>(old, new, n));
    } else {
        assert(item_changes::<T>(old, new, n + 1, n + 1) =~= CommandSeq::empty());
        assert(item_changes::<T>(old, new, i, n) =~= CommandSeq::empty());
        assert(item_changes::<T>(old, new, i, n + 1) =~= item_change::<T>(old, new, n));
        assert(CommandSeq::empty() + item_change::<T>(old, new, n) =~= item_change::<T>(
            old,
            new,
            n,
        ));
    }
}

/// One more addition at the end.
pub proof fn lemma_additions_step(new: Seq<ValueView>, i: int, n: int)
    requires
        i <= n,
    ensures
        additions(new, i, n + 1) == additions(new, i, n) + seq![
            CommandView::Enter(PathView::AddToCollection),
            CommandView::Value(new[n]),
        ],
    decreases n - i,
{
    let last = seq![
        CommandView::Enter(PathView::AddToCollection),
        CommandView::Value(new[n]),
    ];
    if i < n {
        lemma_additions_step(new, i + 1, n);
        let first = seq![
            CommandView::Enter(PathView::AddToCollection),
            CommandView::Value(new[i]),
        ];
        assert(first + (additions(new, i + 1, n) + last) =~= (first + additions(new, i + 1, n))
            + last);
    } else {
        assert(additions(new, n + 1, n + 1) =~= CommandSeq::empty());
        assert(additions(new, i, n) =~= CommandSeq::empty());
        assert(additions(new, i, n + 1) =~= last);
        assert(CommandSeq::empty() + last =~= last);
    }
}

impl<T: Modeled> Modeled for Vec<T> {
    open spec fn model(&self) -> ValueView {
        ValueView::List(Seq::new(self@.len(), |i: int| self@[i].model()))
    }
}

impl<T: Datum> Datum for Vec<T> {
    open spec fn valid(v: ValueView) -> bool {
        v matches ValueView::List(items) && {
            &&& items.len() <= usize::MAX
            &&& forall|i: int| 0 <= i < items.len() ==> T::valid(#[trigger] items[i])
        }
    }

    proof fn lemma_model_valid(&self) {
        let items = items_of(self.model());
        assert(items.len() == self.len());
        assert forall|i: int| 0 <= i < items.len() implies T::valid(#[trigger] items[i]) by {
            self@[i].lemma_model_valid();
        }
    }

    fn kind() -> (r: Kind)
        ensures
            r matches Kind::List(item) && forall|v: ValueView| #[trigger]
                T::valid(v) ==> item.accepts(v),
    {
        Kind::List(Box::new(T::kind()))
    }

    fn to_value(&self) -> (r: Value)
        ensures
            r matches Value::List(items) && {
                &&& items@.len() == self@.len()
                &&& forall|i: int|
                    0 <= i < self@.len() ==> #[trigger] items@[i].view() == self@[i].model()
            },
    {
        let mut items: Vec<Value> = Vec::new();
        let mut i: usize = 0;
        while i < self.len()
            invariant
                i <= self@.len(),
                items@.len() == i,
                forall|j: int| 0 <= j < i ==> #[trigger] items@[j].view() == self@[j].model(),
            decreases self@.len() - i,
        {
            items.push(self[i].to_value());
            i = i + 1;
        }
        let r = Value::List(items);
        proof {
            let carried = items_of(r.view());
            assert(carried.len() == items@.len());
            assert forall|j: int| 0 <= j < items@.len() implies #[trigger] carried[j]
                == self@[j].model() by {
                assert(carried[j] == items@[j].view());
            }
            assert(carried =~= items_of(self.model()));
        }
        r
    }

    fn from_value(value: &Value) -> (r: Option<Vec<T>>)
        ensures
            r matches Some(list) ==> {
                &&& value matches Value::List(items) && items@.len() == list@.len()
                    && forall|i: int|
                    0 <= i < list@.len() ==> #[trigger] list@[i].model() == items@[i].view()
            },
    {
        match value {
            Value::List(items) => {
                let mut r: Vec<T> = Vec::new();
                let mut i: usize = 0;
                while i < items.len()
                    invariant
                        i <= items@.len(),
                        r@.len() == i,
                        *value == Value::List(*items),
                        forall|j: int| 0 <= j < i ==> #[trigger] r@[j].model() == items@[j].view(),
                        forall|j: int| 0 <= j < i ==> T::valid(#[trigger] items@[j].view()),
                    decreases items@.len() - i,
                {
                    match T::from_value(&items[i]) {
                        Some(t) => r.push(t),
                        None => {
                            assert(items_of(value.view())[i as int] == items@[i as int].view());
                            return None;
                        },
                    }
                    i = i + 1;
                }
                proof {
                    assert(items_of(r.model()) =~= items_of(value.view()));
                    r.lemma_model_valid();
                }
                Some(r)
            },
            _ => None,
        }
    }
}

impl<T: SerdeDiffable + Datum> SerdeDiffable for Vec<T> {
    open spec fn differs(old: ValueView, new: ValueView) -> bool {
        ||| items_of(old).len() != items_of(new).len()
        ||| any_differs::<T>(items_of(old), items_of(new), overlap(items_of(old), items_of(new)))
    }

    open spec fn body(old: ValueView, new: ValueView) -> CommandSeq {
        list_changes::<T>(items_of(old), items_of(new), 0)
    }

    open spec fn closed(old: ValueView, new: ValueView) -> bool {
        true
    }

    open spec fn applied(value: ValueView, pending: CommandSeq) -> Applied {
        list_applied::<T>(items_of(value), pending, false)
    }

    proof fn lemma_applied_consumes(value: ValueView, pending: CommandSeq) {
        lemma_list_applied_consumes::<T>(items_of(value), pending, false);
    }

    proof fn lemma_applied_local(value: ValueView, pending: CommandSeq, n: CommandCount) {
        lemma_list_applied_local::<T>(items_of(value), pending, false, n);
    }

    fn diff(&self, ctx: &mut DiffContext, other: &Self) -> (changed: bool) {
        let ghost a = items_of(self.model());
        let ghost b = items_of(other.model());
        let ghost start = ctx.view();
        let mut idx: usize = 0;
        let mut need_exit: bool = false;
        let mut changed: bool = false;
        while idx < self.len() && idx < other.len()
            invariant
                a == items_of(self.model()),
                b == items_of(other.model()),
                idx <= overlap(a, b),
                changed == need_exit,
                need_exit == any_differs::<T>(a, b, idx as int),
                need_exit ==> ctx.view() == start.saved_all(
                    item_changes::<T>(a, b, 0, idx as int),
                    false,
                ),
                !need_exit ==> ctx.view() == start && item_changes::<T>(a, b, 0, idx as int)
                    == CommandSeq::empty(),
            decreases self@.len() - idx,
        {
            let ghost k = idx as int;
            let ghost before = ctx.view();
            ctx.push_collection_index(idx);
            let item_changed: bool = self[idx].diff(ctx, &other[idx]);
            ctx.pop_path_element();
            proof {
                lemma_item_changes_step::<T>(a, b, 0, k);
                assert(a[k] == self@[k].model() && b[k] == other@[k].model());
                assert(item_changed == item_differs::<T>(a, b, k));
                assert(any_differs::<T>(a, b, k + 1) == (any_differs::<T>(a, b, k)
                    || item_differs::<T>(a, b, k))) by {
                    if any_differs::<T>(a, b, k) {
                        let w = choose|i: int| 0 <= i < k && #[trigger] item_differs::<T>(a, b, i);
                        assert(item_differs::<T>(a, b, w));
                    }
                }
                if item_changed {
                    assert(ctx.view() =~= start.saved_all(
                        item_changes::<T>(a, b, 0, k + 1),
                        false,
                    ));
                } else {
                    assert(ctx.view() =~= before);
                    assert(item_changes::<T>(a, b, 0, k + 1) =~= item_changes::<T>(a, b, 0, k));
                }
            }
            if item_changed {
                need_exit = true;
                changed = true;
            }
            idx = idx + 1;
        }
        let ghost shared = item_changes::<T>(a, b, 0, overlap(a, b));
        if self.len() > other.len() {
            let num_to_remove: usize = self.len() - other.len();
            ctx.save_command::<()>(&DiffCommandRef::Remove(num_to_remove), true);
            // the removal is an implicit Exit
            need_exit = false;
            changed = true;
            assert(ctx.view() =~= start.saved_all(shared + resizing(a, b), true));
        } else {
            assert(additions(b, a.len() as int, a.len() as int) =~= CommandSeq::empty());
            assert(need_exit ==> ctx.view() =~= start.saved_all(
                shared + additions(b, a.len() as int, a.len() as int),
                false,
            ));
            while idx < other.len()
                invariant
                    a == items_of(self.model()),
                    b == items_of(other.model()),
                    a.len() <= idx <= b.len(),
                    changed == need_exit,
                    need_exit == (any_differs::<T>(a, b, overlap(a, b)) || idx > a.len()),
                    shared == item_changes::<T>(a, b, 0, overlap(a, b)),
                    need_exit ==> ctx.view() == start.saved_all(
                        shared + additions(b, a.len() as int, idx as int),
                        ctx.view().implicit_exit,
                    ),
                    !need_exit ==> ctx.view() == start && shared == CommandSeq::empty()
                        && idx == a.len(),
                decreases other@.len() - idx,
            {
                ctx.save_command::<()>(
                    &DiffCommandRef::Enter(DiffPathElementValue::AddToCollection),
                    false,
                );
                ctx.save_command(&DiffCommandRef::Value(&other[idx]), true);
                need_exit = true;
                changed = true;
                proof {
                    lemma_additions_step(b, a.len() as int, idx as int);
                    assert(additions(b, a.len() as int, a.len() as int) =~= CommandSeq::empty());
                    assert(b[idx as int] == other@[idx as int].model());
                    assert(ctx.view() =~= start.saved_all(
                        shared + additions(b, a.len() as int, idx + 1),
                        true,
                    ));
                }
                idx = idx + 1;
            }
        }
        if need_exit {
            ctx.save_command::<()>(&DiffCommandRef::Exit, true);
        }
        proof {
            if changed {
                assert(ctx.view() =~= start.saved_all(list_changes::<T>(a, b, 0), true));
            }
        }
        changed
    }

    fn apply<'de, A: CommandSource<'de>>(
        &mut self,
        seq: &mut A,
        ctx: &mut ApplyContext,
    ) -> (r: Result<bool, ApplyError<A::Error>>) {
        let mut changed: bool = false;
        let ghost first = items_of(self.model());
        let ghost start = seq.pending();
        let ghost all = list_applied::<T>(first, start, false);
        assert(start.skip(0) =~= start);
        loop
            invariant_except_break
                list_applied::<T>(items_of(self.model()), seq.pending(), changed) == all,
                in_step::<T>(
                    first,
                    start,
                    false,
                    items_of(self.model()),
                    seq.pending(),
                    changed,
                ),
            invariant
                first == items_of(old(self).model()),
                start == old(seq).pending(),
                all == list_applied::<T>(first, start, false),
            ensures
                all == (Applied {
                    value: self.model(),
                    rest: seq.pending(),
                    outcome: Outcome::Done(changed),
                }),
            decreases seq.pending().len(),
        {
            let ghost items = items_of(self.model());
            let ghost before = seq.pending();
            let ghost so_far = changed;
            match ctx.read_next_command::<A, T>(seq) {
                Err(e) => {
                    proof {
                        lemma_cut_short::<T>(
                            first,
                            start,
                            items,
                            before,
                            so_far,
                            0,
                            self.model(),
                            seq.pending(),
                        );
                    }
                    return Err(ApplyError::Source(e));
                },
                Ok(None) => {
                    break;
                },
                Ok(Some(DiffCommandValue::Enter(DiffPathElementValue::Field(_)))) => {
                    // we should not be getting fields when reading collection commands
                    match ctx.skip_value(seq) {
                        Ok(_) => {},
                        Err(e) => {
                            proof {
                                if e is Source {
                                    lemma_skip_cut_short::<T>(
                                        first,
                                        start,
                                        items,
                                        before,
                                        so_far,
                                        seq.pending(),
                                    );
                                }
                            }
                            return Err(e);
                        },
                    }
                    break;
                },
                Ok(Some(DiffCommandValue::Enter(DiffPathElementValue::CollectionIndex(idx)))) => {
                    let ghost rest = seq.pending();
                    if idx < self.len() {
                        proof {
                            T::lemma_applied_consumes(items[idx as int], rest);
                        }
                        let result = self[idx].apply(seq, ctx);
                        assert(items_of(self.model()) =~= items.update(
                            idx as int,
                            self@[idx as int].model(),
                        ));
                        match result {
                            Ok(c) => {
                                changed = changed || c;
                                proof {
                                    lemma_item_in_step::<T>(items, before, so_far);
                                    lemma_in_step_again::<T>(
                                        first,
                                        start,
                                        items,
                                        before,
                                        so_far,
                                        items_of(self.model()),
                                        seq.pending(),
                                        changed,
                                    );
                                }
                            },
                            Err(e) => {
                                proof {
                                    if e is Source {
                                        lemma_item_cut_short::<T>(
                                            first,
                                            start,
                                            items,
                                            before,
                                            so_far,
                                            self@[idx as int].model(),
                                            seq.pending(),
                                        );
                                    }
                                }
                                return Err(e);
                            },
                        }
                    } else {
                        proof {
                            lemma_skipped_consumes(rest, 1);
                        }
                        match ctx.skip_value(seq) {
                            Ok(_) => {
                                proof {
                                    lemma_item_in_step::<T>(items, before, so_far);
                                    lemma_in_step_again::<T>(
                                        first,
                                        start,
                                        items,
                                        before,
                                        so_far,
                                        items,
                                        seq.pending(),
                                        changed,
                                    );
                                }
                            },
                            Err(e) => {
                                proof {
                                    if e is Source {
                                        lemma_skip_cut_short::<T>(
                                            first,
                                            start,
                                            items,
                                            before,
                                            so_far,
                                            seq.pending(),
                                        );
                                    }
                                }
                                return Err(e);
                            },
                        }
                    }
                },
                Ok(Some(DiffCommandValue::Enter(DiffPathElementValue::AddToCollection))) => {
                    match ctx.read_next_command::<A, T>(seq) {
                        Err(e) => {
                            proof {
                                assert(before.take(1).drop_first() =~= CommandSeq::empty());
                                lemma_failed_after(
                                    1,
                                    0,
                                    before,
                                    before.drop_first(),
                                    seq.pending(),
                                );
                                lemma_cut_short::<T>(
                                    first,
                                    start,
                                    items,
                                    before,
                                    so_far,
                                    1,
                                    self.model(),
                                    seq.pending(),
                                );
                            }
                            return Err(ApplyError::Source(e));
                        },
                        Ok(Some(DiffCommandValue::Value(v))) => {
                            proof {
                                v.lemma_model_valid();
                            }
                            changed = true;
                            self.push(v);
                            proof {
                                assert(items_of(self.model()) =~= items.push(v.model()));
                                lemma_addition_in_step::<T>(items, before, so_far);
                                lemma_in_step_again::<T>(
                                    first,
                                    start,
                                    items,
                                    before,
                                    so_far,
                                    items.push(v.model()),
                                    seq.pending(),
                                    true,
                                );
                            }
                        },
                        Ok(_) => {
                            return Err(ApplyError::Protocol(Fault::ExpectedValue));
                        },
                    }
                },
                Ok(Some(DiffCommandValue::Remove(num_elements))) => {
                    let new_length: usize = self.len().saturating_sub(num_elements);
                    self.truncate(new_length);
                    changed = true;
                    assert(items_of(self.model()) =~= items.take(new_length as int));
                    break;
                },
                Ok(Some(DiffCommandValue::Value(v))) => {
                    proof {
                        v.lemma_model_valid();
                    }
                    // a value without an index is added to the end, and is an implicit Exit
                    changed = true;
                    self.push(v);
                    assert(items_of(self.model()) =~= items.push(v.model()));
                    break;
                },
                Ok(Some(_)) => {
                    break;
                },
            }
        }
        Ok(changed)
    }
}

} // verus!
