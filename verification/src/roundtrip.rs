//! What a diff that is read back does to the value it was taken from.

use vstd::prelude::*;

use crate::apply::{skipped, skipped_from, Applied, Outcome};
use crate::command::{all_written, CommandSeq, CommandView, PathView};
use crate::datum::Datum;
use crate::diffable::{block, SerdeDiffable};
use crate::list::{
    additions, any_differs, item_change, item_changes, item_differs, items_of, list_applied,
    list_changes, overlap,
};
use crate::terminal::Terminal;
use crate::value::ValueView;

verus! {

/// A type whose diffs lead from the old value to the new one.
pub trait RoundTrip: SerdeDiffable + Datum {
    /// How many path elements deep a diff goes at most.
    spec fn nesting() -> nat;

    /// A diff finds a change between two values just if they are different, and then writes
    /// something, and nothing that is never written.
    proof fn law_change(old: ValueView, new: ValueView)
        requires
            Self::valid(old),
            Self::valid(new),
        ensures
            Self::differs(old, new) <==> old != new,
            Self::differs(old, new) ==> Self::body(old, new).len() > 0,
            Self::differs(old, new) ==> all_written(Self::body(old, new)),
    ;

    /// A change, read back, turns the old value into the new one, and leaves what follows it in
    /// the stream.
    proof fn law_restore(old: ValueView, new: ValueView, rest: CommandSeq)
        requires
            Self::valid(old),
            Self::valid(new),
            Self::differs(old, new),
        ensures
            Self::applied(old, block::<Self>(old, new) + rest) == (Applied {
                value: new,
                rest,
                outcome: Outcome::Done(true),
            }),
    ;

    /// A change that stands under no path element, read back to its end, turns the old value into
    /// the new one.
    proof fn law_restore_whole(old: ValueView, new: ValueView)
        requires
            Self::valid(old),
            Self::valid(new),
            Self::differs(old, new),
        ensures
            Self::applied(old, Self::body(old, new)) == (Applied {
                value: new,
                rest: Seq::empty(),
                outcome: Outcome::Done(true),
            }),
    ;

    /// Skipping a change leaves the path element that it stands under, and leaves of the stream
    /// what reading the change leaves of it.
    proof fn law_skip(old: ValueView, new: ValueView, rest: CommandSeq, depth: nat)
        requires
            Self::valid(old),
            Self::valid(new),
            Self::differs(old, new),
            1 <= depth,
            depth + Self::nesting() <= i32::MAX,
        ensures
            skipped(block::<Self>(old, new) + rest, depth) == skipped_from(
                rest,
                (depth - 1) as nat,
            ),
    ;

    /// A stream without commands changes nothing.
    proof fn law_idle(value: ValueView)
        requires
            Self::valid(value),
        ensures
            Self::applied(value, Seq::empty()) == (Applied {
                value,
                rest: Seq::empty(),
                outcome: Outcome::Done(false),
            }),
    ;
}

impl<T: Terminal> RoundTrip for T {
    open spec fn nesting() -> nat {
        0
    }

    proof fn law_change(old: ValueView, new: ValueView) {
    }

    proof fn law_restore(old: ValueView, new: ValueView, rest: CommandSeq) {
        let pending = block::<Self>(old, new) + rest;
        assert(pending[0] == CommandView::Value(new));
        assert(pending.drop_first() =~= rest);
    }

    proof fn law_restore_whole(old: ValueView, new: ValueView) {
        assert(Self::body(old, new).drop_first() =~= CommandSeq::empty());
    }

    proof fn law_skip(old: ValueView, new: ValueView, rest: CommandSeq, depth: nat) {
        let pending = block::<Self>(old, new) + rest;
        assert(pending[0] == CommandView::Value(new));
        assert(pending.drop_first() =~= rest);
    }

    proof fn law_idle(value: ValueView) {
    }
}

/// Only what is ever written is written for the items.
proof fn lemma_item_changes_written<T: RoundTrip>(
    old: Seq<ValueView>,
    new: Seq<ValueView>,
    i: int,
)
    requires
        all_valid::<T>(old),
        all_valid::<T>(new),
        0 <= i,
    ensures
        all_written(item_changes::<T>(old, new, i, overlap(old, new))),
    decreases overlap(old, new) - i,
{
    if i < overlap(old, new) {
        T::law_change(old[i], new[i]);
        lemma_item_changes_written::<T>(old, new, i + 1);
    }
}

/// Only what is ever written is written for the additions.
proof fn lemma_additions_written(new: Seq<ValueView>, i: int, n: int)
    ensures
        all_written(additions(new, i, n)),
    decreases n - i,
{
    if i < n {
        lemma_additions_written(new, i + 1, n);
    }
}

/// A list of which the first `i` items are up to date.
pub open spec fn halfway(old: Seq<ValueView>, new: Seq<ValueView>, i: int) -> Seq<ValueView> {
    new.take(i) + old.skip(i)
}

/// Whether all of the items are values of the type.
pub open spec fn all_valid<T: Datum>(items: Seq<ValueView>) -> bool {
    &&& items.len() <= usize::MAX
    &&& forall|i: int| 0 <= i < items.len() ==> T::valid(#[trigger] items[i])
}

/// One step: from the item at index `i` to the next.
proof fn lemma_item_applied<T: RoundTrip>(
    old: Seq<ValueView>,
    new: Seq<ValueView>,
    i: int,
    tail: CommandSeq,
    changed: bool,
)
    requires
        all_valid::<T>(old),
        all_valid::<T>(new),
        0 <= i < overlap(old, new),
    ensures
        list_applied::<T>(
            halfway(old, new, i),
            item_change::<T>(old, new, i) + tail,
            changed,
        ) == list_applied::<T>(
            halfway(old, new, i + 1),
            tail,
            changed || item_differs::<T>(old, new, i),
        ),
{
    let cur = halfway(old, new, i);
    let next = halfway(old, new, i + 1);
    let pending = item_change::<T>(old, new, i) + tail;
    T::law_change(old[i], new[i]);
    assert(cur[i] == old[i]);
    assert(cur.update(i, new[i]) =~= next);
    if item_differs::<T>(old, new, i) {
        let b = block::<T>(old[i], new[i]);
        assert(pending[0] == CommandView::Enter(PathView::CollectionIndex(i as usize)));
        assert(pending.drop_first() =~= b + tail);
        T::law_restore(old[i], new[i], tail);
        T::lemma_applied_consumes(old[i], b + tail);
    } else {
        assert(cur =~= next);
        assert(pending =~= tail);
    }
}

/// Up to the item at index `k`.
proof fn lemma_items_applied<T: RoundTrip>(
    old: Seq<ValueView>,
    new: Seq<ValueView>,
    k: int,
    rest: CommandSeq,
)
    requires
        all_valid::<T>(old),
        all_valid::<T>(new),
        0 <= k <= overlap(old, new),
    ensures
        list_applied::<T>(old, list_changes::<T>(old, new, 0) + rest, false) == list_applied::<T>(
            halfway(old, new, k),
            list_changes::<T>(old, new, k) + rest,
            any_differs::<T>(old, new, k),
        ),
    decreases k,
{
    if k == 0 {
        assert(halfway(old, new, 0) =~= old);
    } else {
        let i = k - 1;
        lemma_items_applied::<T>(old, new, i, rest);
        let tail = list_changes::<T>(old, new, k) + rest;
        assert(list_changes::<T>(old, new, i) + rest =~= item_change::<T>(old, new, i) + tail);
        lemma_item_applied::<T>(old, new, i, tail, any_differs::<T>(old, new, i));
        lemma_any_differs_step::<T>(old, new, i);
    }
}

/// Whether an item changed, one item further.
proof fn lemma_any_differs_step<T: SerdeDiffable>(
    old: Seq<ValueView>,
    new: Seq<ValueView>,
    n: int,
)
    requires
        n >= 0,
    ensures
        any_differs::<T>(old, new, n + 1) == (any_differs::<T>(old, new, n) || item_differs::<T>(
            old,
            new,
            n,
        )),
{
    if any_differs::<T>(old, new, n) {
        let w = choose|i: int| 0 <= i < n && #[trigger] item_differs::<T>(old, new, i);
        assert(item_differs::<T>(old, new, w));
    }
}

/// The additions and the `Exit` after them.
proof fn lemma_additions_applied<T: RoundTrip>(
    new: Seq<ValueView>,
    i: int,
    rest: CommandSeq,
    changed: bool,
)
    requires
        all_valid::<T>(new),
        0 <= i <= new.len(),
    ensures
        list_applied::<T>(
            new.take(i),
            additions(new, i, new.len() as int) + seq![CommandView::Exit] + rest,
            changed,
        ) == (Applied {
            value: ValueView::List(new),
            rest,
            outcome: Outcome::Done(changed || i < new.len()),
        }),
    decreases new.len() - i,
{
    let pending = additions(new, i, new.len() as int) + seq![CommandView::Exit] + rest;
    if i == new.len() {
        assert(new.take(i) =~= new);
        assert(pending[0] == CommandView::Exit);
        assert(pending.drop_first() =~= rest);
    } else {
        lemma_additions_applied::<T>(new, i + 1, rest, true);
        let after = additions(new, i + 1, new.len() as int) + seq![CommandView::Exit] + rest;
        assert(pending =~= seq![
            CommandView::Enter(PathView::AddToCollection),
            CommandView::Value(new[i]),
        ] + after);
        assert(pending.drop_first().drop_first() =~= after);
        assert(pending.drop_first()[0] == CommandView::Value(new[i]));
        assert(new.take(i).push(new[i]) =~= new.take(i + 1));
    }
}

/// After the last item that stands in both lists.
proof fn lemma_resizing_applied<T: RoundTrip>(
    old: Seq<ValueView>,
    new: Seq<ValueView>,
    rest: CommandSeq,
)
    requires
        all_valid::<T>(old),
        all_valid::<T>(new),
        old.len() != new.len() || any_differs::<T>(old, new, overlap(old, new)),
    ensures
        list_applied::<T>(
            halfway(old, new, overlap(old, new)),
            list_changes::<T>(old, new, overlap(old, new)) + rest,
            any_differs::<T>(old, new, overlap(old, new)),
        ) == (Applied {
            value: ValueView::List(new),
            rest,
            outcome: Outcome::Done(true),
        }),
{
    let n = overlap(old, new);
    let cur = halfway(old, new, n);
    let pending = list_changes::<T>(old, new, n) + rest;
    assert(item_changes::<T>(old, new, n, n) =~= CommandSeq::empty());
    if old.len() > new.len() {
        assert(pending[0] == CommandView::Remove((old.len() - new.len()) as usize));
        assert(pending.drop_first() =~= rest);
        assert(cur.take(cur.len() - (old.len() - new.len())) =~= new);
    } else {
        assert(cur =~= new.take(n));
        assert(pending =~= additions(new, n, new.len() as int) + seq![CommandView::Exit] + rest);
        lemma_additions_applied::<T>(new, n, rest, any_differs::<T>(old, new, n));
    }
}

/// Skipping the additions and the `Exit` after them.
proof fn lemma_additions_skipped(
    new: Seq<ValueView>,
    i: int,
    rest: CommandSeq,
    depth: nat,
)
    requires
        0 <= i <= new.len(),
        1 <= depth < i32::MAX,
    ensures
        skipped(additions(new, i, new.len() as int) + seq![CommandView::Exit] + rest, depth)
            == skipped_from(rest, (depth - 1) as nat),
    decreases new.len() - i,
{
    let pending = additions(new, i, new.len() as int) + seq![CommandView::Exit] + rest;
    if i == new.len() {
        assert(pending[0] == CommandView::Exit);
        assert(pending.drop_first() =~= rest);
    } else {
        lemma_additions_skipped(new, i + 1, rest, depth);
        let after = additions(new, i + 1, new.len() as int) + seq![CommandView::Exit] + rest;
        assert(pending =~= seq![
            CommandView::Enter(PathView::AddToCollection),
            CommandView::Value(new[i]),
        ] + after);
        assert(pending.drop_first().drop_first() =~= after);
        assert(pending.drop_first()[0] == CommandView::Value(new[i]));
        assert(skipped(pending, depth) == skipped(pending.drop_first(), depth + 1));
        assert(skipped(pending.drop_first(), depth + 1) == skipped(after, depth));
    }
}

/// Skipping a list from the item at index `i` on.
proof fn lemma_list_skipped<T: RoundTrip>(
    old: Seq<ValueView>,
    new: Seq<ValueView>,
    i: int,
    rest: CommandSeq,
    depth: nat,
)
    requires
        all_valid::<T>(old),
        all_valid::<T>(new),
        0 <= i <= overlap(old, new),
        old.len() != new.len() || any_differs::<T>(old, new, overlap(old, new)),
        1 <= depth,
        depth + <Vec<T>>::nesting() <= i32::MAX,
    ensures
        skipped(list_changes::<T>(old, new, i) + rest, depth) == skipped_from(
            rest,
            (depth - 1) as nat,
        ),
    decreases overlap(old, new) - i,
{
    let n = overlap(old, new);
    let pending = list_changes::<T>(old, new, i) + rest;
    if i == n {
        assert(item_changes::<T>(old, new, n, n) =~= CommandSeq::empty());
        if old.len() > new.len() {
            assert(pending[0] == CommandView::Remove((old.len() - new.len()) as usize));
            assert(pending.drop_first() =~= rest);
        } else {
            assert(pending =~= additions(new, n, new.len() as int) + seq![CommandView::Exit]
                + rest);
            lemma_additions_skipped(new, n, rest, depth);
            }
    } else {
        let tail = list_changes::<T>(old, new, i + 1) + rest;
        assert(pending =~= item_change::<T>(old, new, i) + tail);
        if item_differs::<T>(old, new, i) {
            let b = block::<T>(old[i], new[i]);
            assert(pending[0] == CommandView::Enter(PathView::CollectionIndex(i as usize)));
            assert(pending.drop_first() =~= b + tail);
            T::law_skip(old[i], new[i], tail, depth + 1);
            assert(skipped(pending, depth) == skipped(tail, depth));
            lemma_list_skipped::<T>(old, new, i + 1, rest, depth);
        } else {
            assert(pending =~= tail);
            lemma_list_skipped::<T>(old, new, i + 1, rest, depth);
        }
    }
}

impl<T: RoundTrip> RoundTrip for Vec<T> {
    open spec fn nesting() -> nat {
        T::nesting() + 1
    }

    proof fn law_change(old: ValueView, new: ValueView) {
        let (a, b) = (items_of(old), items_of(new));
        let n = overlap(a, b);
        assert forall|i: int| 0 <= i < n implies (#[trigger] item_differs::<T>(a, b, i) <==> a[i]
            != b[i]) by {
            T::law_change(a[i], b[i]);
        }
        lemma_item_changes_written::<T>(a, b, 0);
        lemma_additions_written(b, a.len() as int, b.len() as int);
        if !Self::differs(old, new) {
            assert forall|i: int| 0 <= i < n implies #[trigger] a[i] == b[i] by {
                assert(!item_differs::<T>(a, b, i));
            }
            assert(a =~= b);
        } else if a.len() == b.len() {
            let i = choose|i: int| 0 <= i < n && #[trigger] item_differs::<T>(a, b, i);
            assert(a[i] != b[i]);
        }
    }

    proof fn law_restore(old: ValueView, new: ValueView, rest: CommandSeq) {
        let (a, b) = (items_of(old), items_of(new));
        let n = overlap(a, b);
        lemma_items_applied::<T>(a, b, n, rest);
        lemma_resizing_applied::<T>(a, b, rest);
    }

    proof fn law_restore_whole(old: ValueView, new: ValueView) {
        Self::law_restore(old, new, Seq::empty());
        assert(block::<Self>(old, new) + Seq::empty() =~= Self::body(old, new));
    }

    proof fn law_skip(old: ValueView, new: ValueView, rest: CommandSeq, depth: nat) {
        lemma_list_skipped::<T>(items_of(old), items_of(new), 0, rest, depth);
    }

    proof fn law_idle(value: ValueView) {
    }
}

} // verus!
