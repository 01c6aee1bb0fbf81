//! What holds of the commands that are written.

use vstd::prelude::*;

use crate::apply::{Applied, Outcome};
use crate::command::{CommandSeq, CommandView, PathView};
use crate::context::ContextView;
use crate::datum::Datum;
use crate::diff::difference;
use crate::diffable::{block, SerdeDiffable};
use crate::list::{
    additions, any_differs, ending, item_change, item_changes, item_differs,
    lemma_additions_step, lemma_item_changes_step, list_applied, overlap, resizing,
};
use crate::reading::law_value_read;
use crate::terminal::Terminal;
use crate::value::ValueView;

verus! {

/// A context starts with nothing written and nothing pushed, and no `Exit` made superfluous.
pub proof fn law_fresh()
    ensures
        ContextView::fresh().path.len() == 0,
        ContextView::fresh().written.len() == 0,
        !ContextView::fresh().implicit_exit,
{
}

/// Pushing a path element keeps it behind those that were pushed before, and writes nothing.
pub proof fn law_pushed(ctx: ContextView, element: PathView)
    ensures
        ctx.pushed(element).path == ctx.path.push(element),
        ctx.pushed(element).written == ctx.written,
        ctx.pushed(element).implicit_exit == ctx.implicit_exit,
{
}

/// Popping forgets the path element that was pushed last, if it was not written. Otherwise it
/// writes an `Exit`, unless the command before was one by itself, which makes up for one `Exit`
/// only.
pub proof fn law_popped(ctx: ContextView)
    ensures
        ctx.path.len() > 0 ==> {
            &&& ctx.popped().path == ctx.path.take(ctx.path.len() - 1)
            &&& ctx.popped().written == ctx.written
            &&& ctx.popped().implicit_exit == ctx.implicit_exit
        },
        ctx.path.len() == 0 ==> {
            &&& ctx.popped().path.len() == 0
            &&& ctx.popped().written == if ctx.implicit_exit {
                ctx.written
            } else {
                ctx.written.push(CommandView::Exit)
            }
            &&& !ctx.popped().implicit_exit
        },
{
    if ctx.path.len() > 0 {
        assert(ctx.popped().path =~= ctx.path.take(ctx.path.len() - 1));
    }
}

/// Saving commands writes, behind what was written before, an `Enter` for each path element that
/// was pushed, in that order, and then the commands, and leaves no path element to be written.
pub proof fn law_saved(ctx: ContextView, commands: CommandSeq, implicit_exit: bool)
    ensures
        ({
            let after = ctx.saved_all(commands, implicit_exit);
            let (w, p) = (ctx.written.len() as int, ctx.path.len() as int);
            &&& after.path.len() == 0
            &&& after.implicit_exit == implicit_exit
            &&& after.written.len() == w + p + commands.len()
            &&& after.written.take(w) == ctx.written
            &&& forall|i: int| 0 <= i < p ==> #[trigger] after.written[w + i] == CommandView::Enter(
                ctx.path[i],
            )
            &&& after.written.skip(w + p) == commands
        }),
        forall|command: CommandView| #[trigger]
            ctx.saved(command, implicit_exit) == ctx.saved_all(seq![command], implicit_exit),
{
    let after = ctx.saved_all(commands, implicit_exit);
    let (w, p) = (ctx.written.len() as int, ctx.path.len() as int);
    assert(after.written.take(w) =~= ctx.written);
    assert(after.written.skip(w + p) =~= commands);
}

/// The difference of two values is what a diff of them writes into a context in which nothing has
/// happened.
pub proof fn law_difference_saved<T: SerdeDiffable>(old: ValueView, new: ValueView)
    ensures
        T::differs(old, new) ==> difference::<T>(old, new) == ContextView::fresh().saved_all(
            T::body(old, new),
            T::closed(old, new),
        ).written,
        !T::differs(old, new) ==> difference::<T>(old, new) == ContextView::fresh().written,
{
    assert(ContextView::fresh().saved_all(T::body(old, new), T::closed(old, new)).written
        =~= T::body(old, new));
}

/// The difference of two terminal values is the new value, or nothing if they are the same. The
/// value leaves the path element that it stands under.
pub proof fn law_terminal_difference<T: Terminal>(old: ValueView, new: ValueView)
    ensures
        old == new ==> difference::<T>(old, new) == CommandSeq::empty(),
        old != new ==> difference::<T>(old, new) == seq![CommandView::Value(new)],
        old != new ==> block::<T>(old, new) == seq![CommandView::Value(new)],
{
}

/// Two lists differ just if one of them is longer, or an item that both have differs.
pub proof fn law_list_differs<T: SerdeDiffable + Datum>(old: Seq<ValueView>, new: Seq<ValueView>)
    ensures
        <Vec<T>>::differs(ValueView::List(old), ValueView::List(new)) <==> {
            ||| old.len() != new.len()
            ||| exists|i: int|
                0 <= i < old.len() && i < new.len() && #[trigger] T::differs(old[i], new[i])
        },
{
    if old.len() == new.len() {
        if any_differs::<T>(old, new, overlap(old, new)) {
            let w = choose|i: int|
                0 <= i < overlap(old, new) && #[trigger] item_differs::<T>(old, new, i);
            assert(T::differs(old[w], new[w]));
        } else {
            assert forall|i: int| 0 <= i < old.len() && i < new.len() implies !#[trigger] T::differs(
                old[i],
                new[i],
            ) by {
                assert(!item_differs::<T>(old, new, i));
            }
        }
    }
}

/// The difference of two lists leaves the path element that it stands under.
pub proof fn law_list_block<T: SerdeDiffable + Datum>(old: ValueView, new: ValueView)
    requires
        <Vec<T>>::differs(old, new),
    ensures
        block::<Vec<T>>(old, new) == difference::<Vec<T>>(old, new),
        <Vec<T>>::closed(old, new),
{
}

/// The commands for the first `n` items depend on these items alone.
proof fn lemma_item_changes_prefix<T: SerdeDiffable>(
    old: Seq<ValueView>,
    new: Seq<ValueView>,
    longer_old: Seq<ValueView>,
    longer_new: Seq<ValueView>,
    n: int,
)
    requires
        0 <= n <= overlap(old, new),
        n <= overlap(longer_old, longer_new),
        old.take(n) == longer_old.take(n),
        new.take(n) == longer_new.take(n),
    ensures
        item_changes::<T>(old, new, 0, n) == item_changes::<T>(longer_old, longer_new, 0, n),
        any_differs::<T>(old, new, n) == any_differs::<T>(longer_old, longer_new, n),
    decreases n,
{
    if n > 0 {
        let k = n - 1;
        assert(old.take(k) =~= old.take(n).take(k));
        assert(new.take(k) =~= new.take(n).take(k));
        assert(longer_old.take(k) =~= longer_old.take(n).take(k));
        assert(longer_new.take(k) =~= longer_new.take(n).take(k));
        lemma_item_changes_prefix::<T>(old, new, longer_old, longer_new, k);
        lemma_item_changes_step::<T>(old, new, 0, k);
        lemma_item_changes_step::<T>(longer_old, longer_new, 0, k);
        assert(old[k] == old.take(n)[k] && longer_old[k] == longer_old.take(n)[k]);
        assert(new[k] == new.take(n)[k] && longer_new[k] == longer_new.take(n)[k]);
        lemma_any_differs_next::<T>(old, new, k);
        lemma_any_differs_next::<T>(longer_old, longer_new, k);
    }
}

/// Whether an item changed, one item further.
proof fn lemma_any_differs_next<T: SerdeDiffable>(
    old: Seq<ValueView>,
    new: Seq<ValueView>,
    n: int,
)
    requires
        n >= 0,
    ensures
        any_differs::<T>(old, new, n + 1) == (any_differs::<T>(old, new, n) || item_differs::<T>(
            old,
            new,
            n,
        )),
{
    if any_differs::<T>(old, new, n) {
        let w = choose|i: int| 0 <= i < n && #[trigger] item_differs::<T>(old, new, i);
        assert(item_differs::<T>(old, new, w));
    }
}

/// The additions before index `n` depend on the items before it alone.
proof fn lemma_additions_prefix(
    new: Seq<ValueView>,
    longer: Seq<ValueView>,
    i: int,
    n: int,
)
    requires
        0 <= i <= n <= new.len(),
        n <= longer.len(),
        new.take(n) == longer.take(n),
    ensures
        additions(new, i, n) == additions(longer, i, n),
    decreases n - i,
{
    if i < n {
        assert(new[i] == new.take(n)[i] && longer[i] == longer.take(n)[i]);
        lemma_additions_prefix(new, longer, i + 1, n);
    }
}

/// Nothing is written for items that did not change.
proof fn lemma_nothing_written<T: SerdeDiffable>(old: Seq<ValueView>, new: Seq<ValueView>, n: int)
    requires
        0 <= n,
    ensures
        !any_differs::<T>(old, new, n) ==> item_changes::<T>(old, new, 0, n) == CommandSeq::empty(),
        any_differs::<T>(old, new, n) ==> item_changes::<T>(old, new, 0, n).len() > 0,
    decreases n,
{
    if n > 0 {
        lemma_nothing_written::<T>(old, new, n - 1);
        lemma_item_changes_step::<T>(old, new, 0, n - 1);
        lemma_any_differs_next::<T>(old, new, n - 1);
    }
}

/// The difference of two lists, the second no shorter, before its `Exit`.
proof fn lemma_growing_difference<T: SerdeDiffable + Datum>(
    old: Seq<ValueView>,
    new: Seq<ValueView>,
)
    requires
        old.len() <= new.len(),
    ensures
        ({
            let d = difference::<Vec<T>>(ValueView::List(old), ValueView::List(new));
            let n = old.len() as int;
            let opened = item_changes::<T>(old, new, 0, n) + additions(new, n, new.len() as int);
            &&& opened.len() == 0 ==> d == CommandSeq::empty()
            &&& opened.len() > 0 ==> d == opened.push(CommandView::Exit)
            &&& opened == if d.len() == 0 {
                d
            } else {
                d.drop_last()
            }
        }),
{
    let n = old.len() as int;
    let d = difference::<Vec<T>>(ValueView::List(old), ValueView::List(new));
    let opened = item_changes::<T>(old, new, 0, n) + additions(new, n, new.len() as int);
    lemma_nothing_written::<T>(old, new, n);
    if opened.len() > 0 {
        if old.len() == new.len() {
            assert(additions(new, n, n) =~= CommandSeq::empty());
        }
        assert(d =~= opened.push(CommandView::Exit));
        assert(opened =~= d.drop_last());
    } else {
        if old.len() < new.len() {
            lemma_additions_step(new, n, n);
        }
        assert(d =~= CommandSeq::empty());
    }
}

/// Two empty lists have no difference. A difference that does not make a list shorter ends with the
/// `Exit` of the list, if there is any.
pub proof fn law_list_exit<T: SerdeDiffable + Datum>(old: Seq<ValueView>, new: Seq<ValueView>)
    ensures
        difference::<Vec<T>>(ValueView::List(Seq::empty()), ValueView::List(Seq::empty()))
            == CommandSeq::empty(),
        ({
            let d = difference::<Vec<T>>(ValueView::List(old), ValueView::List(new));
            old.len() <= new.len() && d.len() > 0 ==> d.last() == CommandView::Exit
        }),
{
    lemma_growing_difference::<T>(Seq::empty(), Seq::empty());
    assert(item_changes::<T>(Seq::empty(), Seq::empty(), 0, 0) =~= CommandSeq::empty());
    assert(additions(Seq::empty(), 0, 0) =~= CommandSeq::empty());
    if old.len() <= new.len() {
        lemma_growing_difference::<T>(old, new);
    }
}

/// An item that two lists of the same length end with, and that did not change, adds nothing to
/// their difference.
pub proof fn law_list_same_item<T: SerdeDiffable + Datum>(
    old: Seq<ValueView>,
    new: Seq<ValueView>,
    x: ValueView,
    y: ValueView,
)
    requires
        old.len() == new.len(),
        !T::differs(x, y),
    ensures
        difference::<Vec<T>>(ValueView::List(old.push(x)), ValueView::List(new.push(y)))
            == difference::<Vec<T>>(ValueView::List(old), ValueView::List(new)),
{
    lemma_last_item::<T>(old, new, x, y);
}

/// The last item of two lists of the same length.
proof fn lemma_last_item<T: SerdeDiffable + Datum>(
    old: Seq<ValueView>,
    new: Seq<ValueView>,
    x: ValueView,
    y: ValueView,
)
    requires
        old.len() == new.len(),
    ensures
        ({
            let before = difference::<Vec<T>>(ValueView::List(old), ValueView::List(new));
            let opened = if before.len() == 0 {
                before
            } else {
                before.drop_last()
            };
            difference::<Vec<T>>(ValueView::List(old.push(x)), ValueView::List(new.push(y)))
                == if T::differs(x, y) {
                opened + seq![
                    CommandView::Enter(PathView::CollectionIndex(old.len() as usize)),
                ] + block::<T>(x, y) + seq![CommandView::Exit]
            } else {
                before
            }
        }),
{
    let n = old.len() as int;
    let (a, b) = (old.push(x), new.push(y));
    lemma_growing_difference::<T>(old, new);
    lemma_growing_difference::<T>(a, b);
    assert(a.take(n) =~= old.take(n));
    assert(b.take(n) =~= new.take(n));
    lemma_item_changes_prefix::<T>(old, new, a, b, n);
    lemma_item_changes_step::<T>(a, b, 0, n);
    assert(additions(new, n, n) =~= CommandSeq::empty());
    assert(additions(b, n + 1, n + 1) =~= CommandSeq::empty());
    let first = item_changes::<T>(old, new, 0, n);
    assert(first + CommandSeq::empty() =~= first);
    let change = item_change::<T>(a, b, n);
    assert(first + change + CommandSeq::empty() =~= first + change);
    let before = difference::<Vec<T>>(ValueView::List(old), ValueView::List(new));
    let after = difference::<Vec<T>>(ValueView::List(a), ValueView::List(b));
    if T::differs(x, y) {
        assert(after =~= first + seq![
            CommandView::Enter(PathView::CollectionIndex(old.len() as usize)),
        ] + block::<T>(x, y) + seq![CommandView::Exit]);
    } else {
        assert(first + change =~= first);
    }
}

/// An item that two lists of the same length end with, and that changed, adds its index and the
/// commands under it to their difference, before the `Exit` of the list.
pub proof fn law_list_changed_item<T: SerdeDiffable + Datum>(
    old: Seq<ValueView>,
    new: Seq<ValueView>,
    x: ValueView,
    y: ValueView,
)
    requires
        old.len() == new.len(),
        T::differs(x, y),
    ensures
        ({
            let before = difference::<Vec<T>>(ValueView::List(old), ValueView::List(new));
            difference::<Vec<T>>(ValueView::List(old.push(x)), ValueView::List(new.push(y))) == (
            if before.len() == 0 {
                before
            } else {
                before.drop_last()
            }) + seq![CommandView::Enter(PathView::CollectionIndex(old.len() as usize))]
                + block::<T>(x, y) + seq![CommandView::Exit]
        }),
{
    lemma_last_item::<T>(old, new, x, y);
}

/// One more item of the new list, which the old list does not have, is written as an addition
/// before the `Exit` of the list.
pub proof fn law_list_added_item<T: SerdeDiffable + Datum>(
    old: Seq<ValueView>,
    new: Seq<ValueView>,
    y: ValueView,
)
    requires
        old.len() <= new.len(),
    ensures
        ({
            let before = difference::<Vec<T>>(ValueView::List(old), ValueView::List(new));
            difference::<Vec<T>>(ValueView::List(old), ValueView::List(new.push(y))) == (
            if before.len() == 0 {
                before
            } else {
                before.drop_last()
            }) + seq![
                CommandView::Enter(PathView::AddToCollection),
                CommandView::Value(y),
                CommandView::Exit,
            ]
        }),
{
    let (n, m) = (old.len() as int, new.len() as int);
    let b = new.push(y);
    lemma_growing_difference::<T>(old, new);
    lemma_growing_difference::<T>(old, b);
    assert(b.take(n) =~= new.take(n));
    assert(b.take(m) =~= new.take(m));
    lemma_item_changes_prefix::<T>(old, new, old, b, n);
    lemma_additions_prefix(new, b, n, m);
    lemma_additions_step(b, n, m);
    let after = difference::<Vec<T>>(ValueView::List(old), ValueView::List(b));
    let opened = item_changes::<T>(old, new, 0, n) + additions(new, n, m);
    assert(after =~= opened + seq![
        CommandView::Enter(PathView::AddToCollection),
        CommandView::Value(y),
        CommandView::Exit,
    ]);
}

/// Items of the old list that the new list does not have are written as one removal of as many
/// items, and nothing else, in place of the `Exit` of the list.
pub proof fn law_list_removed_items<T: SerdeDiffable + Datum>(
    old: Seq<ValueView>,
    new: Seq<ValueView>,
    extra: Seq<ValueView>,
)
    requires
        old.len() == new.len(),
        extra.len() > 0,
    ensures
        ({
            let before = difference::<Vec<T>>(ValueView::List(old), ValueView::List(new));
            difference::<Vec<T>>(ValueView::List(old + extra), ValueView::List(new)) == (
            if before.len() == 0 {
                before
            } else {
                before.drop_last()
            }) + seq![CommandView::Remove(extra.len() as usize)]
        }),
{
    let n = new.len() as int;
    let a = old + extra;
    lemma_growing_difference::<T>(old, new);
    assert(a.take(n) =~= old.take(n));
    lemma_item_changes_prefix::<T>(old, new, a, new, n);
    assert(additions(new, n, n) =~= CommandSeq::empty());
    let first = item_changes::<T>(old, new, 0, n);
    assert(first + CommandSeq::empty() =~= first);
    assert(difference::<Vec<T>>(ValueView::List(a), ValueView::List(new)) =~= first + seq![
        CommandView::Remove(extra.len() as usize),
    ]);
}

/// Which of the first `n` items changed.
#[verifier::spinoff_prover]
proof fn lemma_changed_indexes(
    old: Seq<ValueView>,
    new: Seq<ValueView>,
    n: int,
)
    requires
        0 <= n,
    ensures
        Seq::new((n + 1) as nat, |i: int| i).filter(|i: int| i >= old.len() || old[i] != new[i])
            == Seq::new(n as nat, |i: int| i).filter(|i: int| i >= old.len() || old[i] != new[i])
            + if n >= old.len() || old[n] != new[n] {
            seq![n]
        } else {
            Seq::empty()
        },
{
    let p = |i: int| i >= old.len() || old[i] != new[i];
    let before = Seq::new(n as nat, |i: int| i);
    assert(Seq::new((n + 1) as nat, |i: int| i) =~= before.push(n));
    before.lemma_filter_push(n, p);
    assert(before.filter(p) + Seq::empty() =~= before.filter(p));
    assert(before.filter(p) + seq![n] =~= before.filter(p).push(n));
}

/// What is kept of two commands behind others, if at most one of the two is.
proof fn lemma_filter_pair(
    before: CommandSeq,
    a: CommandView,
    b: CommandView,
    p: spec_fn(CommandView) -> bool,
)
    requires
        !(p(a) && p(b)),
    ensures
        (before + seq![a, b]).filter(p) == if p(a) {
            before.filter(p).push(a)
        } else if p(b) {
            before.filter(p).push(b)
        } else {
            before.filter(p)
        },
{
    assert(before + seq![a, b] =~= before.push(a).push(b));
    before.lemma_filter_push(a, p);
    before.push(a).lemma_filter_push(b, p);
}

/// Whether of the commands for a changed item just the one that `f` gives is kept, or none.
spec fn keeps_one(
    new: Seq<ValueView>,
    i: int,
    p: spec_fn(CommandView) -> bool,
    f: spec_fn(int) -> CommandView,
    keep: bool,
) -> bool {
    let index = CommandView::Enter(PathView::CollectionIndex(i as usize));
    let value = CommandView::Value(new[i]);
    if keep {
        ||| p(index) && !p(value) && f(i) == index
        ||| !p(index) && p(value) && f(i) == value
    } else {
        !p(index) && !p(value)
    }
}

/// The first of the numbers are none.
proof fn lemma_none_kept(p: spec_fn(CommandView) -> bool, q: spec_fn(int) -> bool)
    ensures
        CommandSeq::empty().filter(p) == CommandSeq::empty(),
        Seq::new(0, |i: int| i).filter(q) == Seq::<int>::empty(),
{
    reveal(Seq::filter);
    assert(Seq::new(0, |i: int| i) =~= Seq::<int>::empty());
}

/// The commands for an item that is a terminal value.
proof fn lemma_terminal_item<T: Terminal>(old: Seq<ValueView>, new: Seq<ValueView>, k: int)
    ensures
        item_change::<T>(old, new, k) == if old[k] != new[k] {
            seq![
                CommandView::Enter(PathView::CollectionIndex(k as usize)),
                CommandView::Value(new[k]),
            ]
        } else {
            CommandSeq::empty()
        },
{
    if old[k] != new[k] {
        assert(item_change::<T>(old, new, k) =~= seq![
            CommandView::Enter(PathView::CollectionIndex(k as usize)),
            CommandView::Value(new[k]),
        ]);
    }
}

/// One more item for which a command may be kept.
#[verifier::spinoff_prover]
proof fn lemma_item_kept(
    old: Seq<ValueView>,
    new: Seq<ValueView>,
    k: int,
    before: CommandSeq,
    change: CommandSeq,
    p: spec_fn(CommandView) -> bool,
    f: spec_fn(int) -> CommandView,
    keep: bool,
)
    requires
        0 <= k < old.len(),
        keeps_one(new, k, p, f, keep),
        before.filter(p) == if keep {
            Seq::new(k as nat, |i: int| i).filter(
                |i: int| i >= old.len() || old[i] != new[i],
            ).map_values(f)
        } else {
            CommandSeq::empty()
        },
        change == if old[k] != new[k] {
            seq![
                CommandView::Enter(PathView::CollectionIndex(k as usize)),
                CommandView::Value(new[k]),
            ]
        } else {
            CommandSeq::empty()
        },
    ensures
        (before + change).filter(p) == if keep {
            Seq::new((k + 1) as nat, |i: int| i).filter(
                |i: int| i >= old.len() || old[i] != new[i],
            ).map_values(f)
        } else {
            CommandSeq::empty()
        },
{
    let changes = |i: int| i >= old.len() || old[i] != new[i];
    let earlier = Seq::new(k as nat, |i: int| i).filter(changes);
    let changed = Seq::new((k + 1) as nat, |i: int| i).filter(changes);
    lemma_changed_indexes(old, new, k);
    if old[k] != new[k] {
        lemma_filter_pair(
            before,
            CommandView::Enter(PathView::CollectionIndex(k as usize)),
            CommandView::Value(new[k]),
            p,
        );
        assert(changed =~= earlier.push(k));
        assert(changed.map_values(f) =~= earlier.map_values(f).push(f(k)));
    } else {
        assert(before + CommandSeq::empty() =~= before);
        assert(changed =~= earlier);
    }
}

/// What is kept of the commands for the first `n` items of a list of terminal values: for each of
/// them that changed one command, or for none.
#[verifier::spinoff_prover]
proof fn lemma_item_changes_kept<T: Terminal>(
    old: Seq<ValueView>,
    new: Seq<ValueView>,
    n: int,
    p: spec_fn(CommandView) -> bool,
    f: spec_fn(int) -> CommandView,
    keep: bool,
)
    requires
        0 <= n <= overlap(old, new),
        forall|i: int| 0 <= i < n ==> #[trigger] keeps_one(new, i, p, f, keep),
    ensures
        item_changes::<T>(old, new, 0, n).filter(p) == if keep {
            Seq::new(n as nat, |i: int| i).filter(
                |i: int| i >= old.len() || old[i] != new[i],
            ).map_values(f)
        } else {
            CommandSeq::empty()
        },
    decreases n,
{
    if n == 0 {
        let changes = |i: int| i >= old.len() || old[i] != new[i];
        lemma_none_kept(p, changes);
        assert(Seq::<int>::empty().map_values(f) =~= CommandSeq::empty());
    } else {
        let k = n - 1;
        lemma_item_changes_kept::<T>(old, new, k, p, f, keep);
        lemma_item_changes_step::<T>(old, new, 0, k);
        lemma_terminal_item::<T>(old, new, k);
        lemma_item_kept(
            old,
            new,
            k,
            item_changes::<T>(old, new, 0, k),
            item_change::<T>(old, new, k),
            p,
            f,
            keep,
        );
    }
}

/// What is kept of the additions from index `i` on and before index `n`: that they are additions,
/// or the values, or nothing.
#[verifier::spinoff_prover]
proof fn lemma_additions_kept(
    new: Seq<ValueView>,
    i: int,
    n: int,
    p: spec_fn(CommandView) -> bool,
    adds: bool,
    values: bool,
)
    requires
        0 <= i <= n <= new.len(),
        p(CommandView::Enter(PathView::AddToCollection)) == adds,
        forall|v: ValueView| #[trigger] p(CommandView::Value(v)) == values,
        !(adds && values),
    ensures
        additions(new, i, n).filter(p) == if adds {
            Seq::new((n - i) as nat, |j: int| CommandView::Enter(PathView::AddToCollection))
        } else if values {
            Seq::new((n - i) as nat, |j: int| CommandView::Value(new[i + j]))
        } else {
            CommandSeq::empty()
        },
    decreases n - i,
{
    let all = additions(new, i, n);
    if i == n {
        reveal(Seq::filter);
        assert(all.filter(p) =~= CommandSeq::empty());
    } else {
        let k = n - 1;
        lemma_additions_kept(new, i, k, p, adds, values);
        lemma_additions_step(new, i, k);
        lemma_filter_pair(
            additions(new, i, k),
            CommandView::Enter(PathView::AddToCollection),
            CommandView::Value(new[k]),
            p,
        );
        let kept = all.filter(p);
        if adds {
            assert(kept =~= Seq::new(
                (n - i) as nat,
                |j: int| CommandView::Enter(PathView::AddToCollection),
            ));
        } else if values {
            assert(kept =~= Seq::new((n - i) as nat, |j: int| CommandView::Value(new[i + j])));
        }
    }
}

/// All of the items that only the new list has are among those that are not as they were.
#[verifier::spinoff_prover]
proof fn lemma_added_indexes(old: Seq<ValueView>, new: Seq<ValueView>, n: int, m: int)
    requires
        old.len() == n <= m,
    ensures
        Seq::new(m as nat, |i: int| i).filter(|i: int| i >= old.len() || old[i] != new[i])
            == Seq::new(n as nat, |i: int| i).filter(|i: int| i >= old.len() || old[i] != new[i])
            + Seq::new((m - n) as nat, |j: int| n + j),
    decreases m - n,
{
    let changes = |i: int| i >= old.len() || old[i] != new[i];
    let first = Seq::new(n as nat, |i: int| i).filter(changes);
    let all = Seq::new(m as nat, |i: int| i).filter(changes);
    if m == n {
        assert(all =~= first + Seq::new(0, |j: int| n + j));
    } else {
        lemma_added_indexes(old, new, n, m - 1);
        lemma_changed_indexes(old, new, m - 1);
        assert(all =~= first + Seq::new((m - n) as nat, |j: int| n + j));
    }
}

/// What is kept of a difference is what is kept of its three parts.
#[verifier::spinoff_prover]
proof fn lemma_difference_kept<T: Terminal>(
    old: Seq<ValueView>,
    new: Seq<ValueView>,
    p: spec_fn(CommandView) -> bool,
)
    ensures
        difference::<Vec<T>>(ValueView::List(old), ValueView::List(new)).filter(p)
            == item_changes::<T>(old, new, 0, overlap(old, new)).filter(p) + resizing(
            old,
            new,
        ).filter(p) + ending::<T>(old, new).filter(p),
{
    let d = difference::<Vec<T>>(ValueView::List(old), ValueView::List(new));
    let n = overlap(old, new);
    let (a, b, c) = (
        item_changes::<T>(old, new, 0, n),
        resizing(old, new),
        ending::<T>(old, new),
    );
    lemma_nothing_written::<T>(old, new, n);
    if !<Vec<T>>::differs(ValueView::List(old), ValueView::List(new)) {
        assert(b =~= CommandSeq::empty());
        assert(a + b + c =~= CommandSeq::empty());
    }
    assert(d =~= a + b + c);
    Seq::filter_distributes_over_add(a + b, c, p);
    Seq::filter_distributes_over_add(a, b, p);
}

/// What is kept of one command.
proof fn lemma_filter_one(c: CommandView, p: spec_fn(CommandView) -> bool)
    ensures
        seq![c].filter(p) == if p(c) {
            seq![c]
        } else {
            CommandSeq::empty()
        },
        CommandSeq::empty().filter(p) == CommandSeq::empty(),
{
    reveal(Seq::filter);
    CommandSeq::empty().lemma_filter_push(c, p);
    assert(CommandSeq::empty().push(c) =~= seq![c]);
}

/// Mapping two parts maps the whole.
proof fn lemma_map_parts(a: Seq<int>, b: Seq<int>, f: spec_fn(int) -> CommandView)
    ensures
        (a + b).map_values(f) == a.map_values(f) + b.map_values(f),
{
    assert((a + b).map_values(f) =~= a.map_values(f) + b.map_values(f));
}

/// The items that only the new list has, by their indexes.
proof fn lemma_added_values(new: Seq<ValueView>, n: int, k: int)
    requires
        0 <= k,
    ensures
        Seq::new(k as nat, |j: int| n + j).map_values(|i: int| CommandView::Value(new[i]))
            == Seq::new(k as nat, |j: int| CommandView::Value(new[n + j])),
{
    assert(Seq::new(k as nat, |j: int| n + j).map_values(|i: int| CommandView::Value(new[i]))
        =~= Seq::new(k as nat, |j: int| CommandView::Value(new[n + j])));
}

/// The values in the difference of two lists of terminal values are the items of the new list that
/// the old list does not have at the same index, in order: no item that did not change is written,
/// and none is written twice.
#[verifier::spinoff_prover]
pub proof fn law_list_values<T: Terminal>(old: Seq<ValueView>, new: Seq<ValueView>)
    ensures
        difference::<Vec<T>>(ValueView::List(old), ValueView::List(new)).filter(
            |c: CommandView| c is Value,
        ) == Seq::new(new.len(), |i: int| i).filter(
            |i: int| i >= old.len() || old[i] != new[i],
        ).map_values(|i: int| CommandView::Value(new[i])),
{
    let p = |c: CommandView| c is Value;
    let f = |i: int| CommandView::Value(new[i]);
    let changes = |i: int| i >= old.len() || old[i] != new[i];
    let n = overlap(old, new);
    let changed = Seq::new(n as nat, |i: int| i).filter(changes);
    lemma_difference_kept::<T>(old, new, p);
    assert forall|i: int| 0 <= i < n implies #[trigger] keeps_one(new, i, p, f, true) by {}
    lemma_item_changes_kept::<T>(old, new, n, p, f, true);
    lemma_filter_one(CommandView::Exit, p);
    let sizing = resizing(old, new).filter(p);
    assert(ending::<T>(old, new).filter(p) == CommandSeq::empty());
    Seq::add_empty_right(changed.map_values(f) + sizing, CommandSeq::empty());
    if old.len() > new.len() {
        lemma_filter_one(CommandView::Remove((old.len() - new.len()) as usize), p);
        Seq::add_empty_right(changed.map_values(f), sizing);
    } else {
        let m = new.len() as int;
        lemma_additions_kept(new, n, m, p, false, true);
        lemma_added_indexes(old, new, n, m);
        lemma_map_parts(changed, Seq::new((m - n) as nat, |j: int| n + j), f);
        lemma_added_values(new, n, m - n);
    }
}

/// What is entered by the difference of two lists of which `n` items stand at the same index, and
/// the second has `k` items more.
#[verifier::spinoff_prover]
proof fn lemma_enters_kept<T: Terminal>(old: Seq<ValueView>, new: Seq<ValueView>, n: int, k: int)
    requires
        n == overlap(old, new),
        k == new.len() - n,
    ensures
        difference::<Vec<T>>(ValueView::List(old), ValueView::List(new)).filter(
            |c: CommandView| c is Enter,
        ) == Seq::new(n as nat, |i: int| i).filter(
            |i: int| i >= old.len() || old[i] != new[i],
        ).map_values(|i: int| CommandView::Enter(PathView::CollectionIndex(i as usize))) + Seq::new(
            k as nat,
            |j: int| CommandView::Enter(PathView::AddToCollection),
        ),
{
    let p = |c: CommandView| c is Enter;
    let f = |i: int| CommandView::Enter(PathView::CollectionIndex(i as usize));
    lemma_difference_kept::<T>(old, new, p);
    assert forall|i: int| 0 <= i < n implies #[trigger] keeps_one(new, i, p, f, true) by {}
    lemma_item_changes_kept::<T>(old, new, n, p, f, true);
    lemma_filter_one(CommandView::Exit, p);
    let first = item_changes::<T>(old, new, 0, n).filter(p);
    let adds = Seq::new(k as nat, |j: int| CommandView::Enter(PathView::AddToCollection));
    let sizing = resizing(old, new).filter(p);
    if old.len() > new.len() {
        lemma_filter_one(CommandView::Remove((old.len() - new.len()) as usize), p);
        assert(sizing =~= adds);
    } else {
        lemma_additions_kept(new, n, new.len() as int, p, true, false);
    }
    assert(sizing == adds);
    assert(ending::<T>(old, new).filter(p) == CommandSeq::empty());
    Seq::add_empty_right(first + adds, CommandSeq::empty());
}

/// The difference of two lists of terminal values enters each item that changed, in order, and then
/// one addition for each item by which the new list is longer, and nothing else.
#[verifier::spinoff_prover]
pub proof fn law_list_enters<T: Terminal>(old: Seq<ValueView>, new: Seq<ValueView>)
    ensures
        difference::<Vec<T>>(ValueView::List(old), ValueView::List(new)).filter(
            |c: CommandView| c is Enter,
        ) == Seq::new(
            if old.len() <= new.len() {
                old.len()
            } else {
                new.len()
            },
            |i: int| i,
        ).filter(|i: int| i >= old.len() || old[i] != new[i]).map_values(
            |i: int| CommandView::Enter(PathView::CollectionIndex(i as usize)),
        ) + Seq::new(
            if old.len() <= new.len() {
                (new.len() - old.len()) as nat
            } else {
                0
            },
            |j: int| CommandView::Enter(PathView::AddToCollection),
        ),
{
    lemma_enters_kept::<T>(old, new, overlap(old, new), new.len() - overlap(old, new));
}

/// What is kept of a difference, if nothing is kept of the commands for the items.
#[verifier::spinoff_prover]
proof fn lemma_ending_kept<T: Terminal>(
    old: Seq<ValueView>,
    new: Seq<ValueView>,
    p: spec_fn(CommandView) -> bool,
)
    requires
        forall|i: usize| !#[trigger] p(CommandView::Enter(PathView::CollectionIndex(i))),
        !p(CommandView::Enter(PathView::AddToCollection)),
        forall|v: ValueView| !#[trigger] p(CommandView::Value(v)),
    ensures
        difference::<Vec<T>>(ValueView::List(old), ValueView::List(new)).filter(p) == (
        if old.len() > new.len() {
            seq![CommandView::Remove((old.len() - new.len()) as usize)].filter(p)
        } else {
            CommandSeq::empty()
        }) + ending::<T>(old, new).filter(p),
{
    let f = |i: int| CommandView::Exit;
    let n = overlap(old, new);
    lemma_difference_kept::<T>(old, new, p);
    assert forall|i: int| 0 <= i < n implies #[trigger] keeps_one(new, i, p, f, false) by {}
    lemma_item_changes_kept::<T>(old, new, n, p, f, false);
    if old.len() <= new.len() {
        lemma_additions_kept(new, n, new.len() as int, p, false, false);
    }
    Seq::add_empty_left(CommandSeq::empty(), resizing(old, new).filter(p));
}

/// A list has an `Exit` just if it is different and does not get shorter.
proof fn lemma_terminal_exit<T: Terminal>(old: Seq<ValueView>, new: Seq<ValueView>)
    ensures
        ending::<T>(old, new) == if old.len() <= new.len() && old != new {
            seq![CommandView::Exit]
        } else {
            CommandSeq::empty()
        },
{
    let n = overlap(old, new);
    if old.len() == new.len() {
        if any_differs::<T>(old, new, n) {
            let w = choose|i: int| 0 <= i < n && #[trigger] item_differs::<T>(old, new, i);
            assert(old[w] != new[w]);
        } else {
            assert forall|i: int| 0 <= i < n implies #[trigger] old[i] == new[i] by {
                assert(!item_differs::<T>(old, new, i));
            }
            assert(old =~= new);
        }
    }
}

/// The difference of two lists of terminal values holds one removal, of as many items as the new
/// list is shorter by, if it is shorter, and none otherwise.
#[verifier::spinoff_prover]
pub proof fn law_list_removals<T: Terminal>(old: Seq<ValueView>, new: Seq<ValueView>)
    ensures
        difference::<Vec<T>>(ValueView::List(old), ValueView::List(new)).filter(
            |c: CommandView| c is Remove,
        ) == if old.len() > new.len() {
            seq![CommandView::Remove((old.len() - new.len()) as usize)]
        } else {
            CommandSeq::empty()
        },
{
    let p = |c: CommandView| c is Remove;
    let removal = CommandView::Remove((old.len() - new.len()) as usize);
    lemma_ending_kept::<T>(old, new, p);
    lemma_filter_one(CommandView::Exit, p);
    lemma_filter_one(removal, p);
    assert(ending::<T>(old, new).filter(p) == CommandSeq::empty());
    Seq::add_empty_right(seq![removal], CommandSeq::empty());
    Seq::add_empty_right(CommandSeq::empty(), CommandSeq::empty());
}

/// The difference of two lists of terminal values holds one `Exit`, if the lists are different and
/// the new one is not shorter, and none otherwise.
#[verifier::spinoff_prover]
pub proof fn law_list_exits<T: Terminal>(old: Seq<ValueView>, new: Seq<ValueView>)
    ensures
        difference::<Vec<T>>(ValueView::List(old), ValueView::List(new)).filter(
            |c: CommandView| c is Exit,
        ) == if old.len() <= new.len() && old != new {
            seq![CommandView::Exit]
        } else {
            CommandSeq::empty()
        },
{
    let p = |c: CommandView| c is Exit;
    let removal = CommandView::Remove((old.len() - new.len()) as usize);
    lemma_ending_kept::<T>(old, new, p);
    lemma_terminal_exit::<T>(old, new);
    lemma_filter_one(CommandView::Exit, p);
    lemma_filter_one(removal, p);
    Seq::add_empty_left(CommandSeq::empty(), ending::<T>(old, new).filter(p));
}

/// A list of which the items before index `k` that changed are replaced.
spec fn patched(
    target: Seq<ValueView>,
    old: Seq<ValueView>,
    new: Seq<ValueView>,
    k: int,
) -> Seq<ValueView> {
    Seq::new(
        target.len(),
        |i: int|
            if i < k && old[i] != new[i] {
                new[i]
            } else {
                target[i]
            },
    )
}

/// The commands for the first `k` items, read into another list.
#[verifier::spinoff_prover]
proof fn lemma_items_patched<T: Terminal>(
    target: Seq<ValueView>,
    old: Seq<ValueView>,
    new: Seq<ValueView>,
    k: int,
    rest: CommandSeq,
)
    requires
        target.len() == old.len() <= usize::MAX,
        forall|i: int| 0 <= i < new.len() ==> T::valid(#[trigger] new[i]),
        0 <= k <= overlap(old, new),
    ensures
        list_applied::<T>(target, item_changes::<T>(old, new, 0, k) + rest, false)
            == list_applied::<T>(
            patched(target, old, new, k),
            rest,
            any_differs::<T>(old, new, k),
        ),
    decreases k,
{
    if k == 0 {
        assert(patched(target, old, new, 0) =~= target);
        assert(item_changes::<T>(old, new, 0, 0) + rest =~= rest);
    } else {
        let i = k - 1;
        let change = item_change::<T>(old, new, i);
        let cur = patched(target, old, new, i);
        let next = patched(target, old, new, k);
        lemma_item_changes_step::<T>(old, new, 0, i);
        lemma_any_differs_next::<T>(old, new, i);
        lemma_terminal_item::<T>(old, new, i);
        assert(item_changes::<T>(old, new, 0, k) + rest =~= item_changes::<T>(old, new, 0, i) + (
        change + rest));
        lemma_items_patched::<T>(target, old, new, i, change + rest);
        if old[i] != new[i] {
            let value = seq![CommandView::Value(new[i])];
            assert((change + rest).drop_first() =~= value + rest);
            law_value_read::<T>(cur[i], new[i], rest);
            assert(cur.update(i, new[i]) =~= next);
        } else {
            assert(change + rest =~= rest);
            assert(cur =~= next);
        }
    }
}

/// Additions and the `Exit` after them, read into another list.
proof fn lemma_additions_patched<T: Terminal>(
    base: Seq<ValueView>,
    new: Seq<ValueView>,
    i: int,
    changed: bool,
)
    requires
        forall|j: int| 0 <= j < new.len() ==> T::valid(#[trigger] new[j]),
        0 <= i <= new.len(),
    ensures
        list_applied::<T>(
            base,
            additions(new, i, new.len() as int) + seq![CommandView::Exit],
            changed,
        ) == (Applied {
            value: ValueView::List(base + new.skip(i)),
            rest: CommandSeq::empty(),
            outcome: Outcome::Done(changed || i < new.len()),
        }),
    decreases new.len() - i,
{
    let pending = additions(new, i, new.len() as int) + seq![CommandView::Exit];
    if i == new.len() {
        assert(pending =~= seq![CommandView::Exit]);
        assert(pending.drop_first() =~= CommandSeq::empty());
        assert(base + new.skip(i) =~= base);
    } else {
        lemma_additions_patched::<T>(base.push(new[i]), new, i + 1, true);
        let after = additions(new, i + 1, new.len() as int) + seq![CommandView::Exit];
        assert(pending =~= seq![
            CommandView::Enter(PathView::AddToCollection),
            CommandView::Value(new[i]),
        ] + after);
        assert(pending.drop_first().drop_first() =~= after);
        assert(pending.drop_first()[0] == CommandView::Value(new[i]));
        assert(base.push(new[i]) + new.skip(i + 1) =~= base + new.skip(i));
    }
}

/// Reading the difference of two lists of terminal values into any list as long as the first gives
/// a list as long as the second, which has the items of the second where the two differ, and its
/// own items elsewhere.
#[verifier::spinoff_prover]
pub proof fn law_list_patch<T: Terminal>(
    target: Seq<ValueView>,
    old: Seq<ValueView>,
    new: Seq<ValueView>,
)
    requires
        target.len() == old.len() <= usize::MAX,
        <Vec<T>>::valid(ValueView::List(new)),
    ensures
        <Vec<T>>::applied(
            ValueView::List(target),
            difference::<Vec<T>>(ValueView::List(old), ValueView::List(new)),
        ) == (Applied {
            value: ValueView::List(
                Seq::new(
                    new.len(),
                    |i: int|
                        if i >= old.len() || old[i] != new[i] {
                            new[i]
                        } else {
                            target[i]
                        },
                ),
            ),
            rest: CommandSeq::empty(),
            outcome: Outcome::Done(old != new),
        }),
{
    let n = overlap(old, new);
    let d = difference::<Vec<T>>(ValueView::List(old), ValueView::List(new));
    let all = item_changes::<T>(old, new, 0, n);
    let tail = resizing(old, new) + ending::<T>(old, new);
    let cur = patched(target, old, new, n);
    let result = Seq::new(
        new.len(),
        |i: int|
            if i >= old.len() || old[i] != new[i] {
                new[i]
            } else {
                target[i]
            },
    );
    lemma_nothing_written::<T>(old, new, n);
    lemma_items_patched::<T>(target, old, new, n, tail);
    if old.len() > new.len() {
        assert(d =~= all + tail);
        assert(tail =~= seq![CommandView::Remove((old.len() - new.len()) as usize)]);
        assert(tail.drop_first() =~= CommandSeq::empty());
        assert(cur.take(cur.len() - (old.len() - new.len())) =~= result);
    } else if old.len() == new.len() && !any_differs::<T>(old, new, n) {
        assert forall|i: int| 0 <= i < n implies #[trigger] old[i] == new[i] by {
            assert(!item_differs::<T>(old, new, i));
        }
        assert(old =~= new);
        assert(d =~= CommandSeq::empty());
        assert(result =~= target);
    } else {
        assert(d =~= all + tail);
        assert(tail =~= additions(new, n, new.len() as int) + seq![CommandView::Exit]);
        lemma_additions_patched::<T>(cur, new, n, any_differs::<T>(old, new, n));
        assert(cur + new.skip(n) =~= result);
        if old.len() == new.len() {
            let w = choose|i: int| 0 <= i < n && #[trigger] item_differs::<T>(old, new, i);
            assert(old[w] != new[w]);
        }
    }
}

} // verus!
