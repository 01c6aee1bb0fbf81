//! What holds of reading commands, one by one and as a whole.

use vstd::prelude::*;

use crate::apply::{
    agrees, finishes, lemma_skipped_consumes, skip_agrees, skipped, value_applied, Applied,
    ApplyError, Fault, Outcome, Skipped,
};
use crate::command::{CommandSeq, CommandView, DiffCommandValue, PathView};
use crate::datum::Datum;
use crate::diffable::SerdeDiffable;
use crate::list::list_applied;
use crate::source::{
    decodable, failed_after, ignores_value, took, CommandReader, CommandSource,
};
use crate::terminal::Terminal;
use crate::value::ValueView;

verus! {

/// One more command at the end of those that were counted.
proof fn lemma_count_next(pending: CommandSeq, k: int, p: spec_fn(CommandView) -> bool)
    requires
        0 <= k < pending.len(),
    ensures
        pending.take(k + 1).filter(p).len() == pending.take(k).filter(p).len() + if p(pending[k]) {
            1int
        } else {
            0
        },
{
    assert(pending.take(k + 1) =~= pending.take(k).push(pending[k]));
    pending.take(k).lemma_filter_push(pending[k], p);
}

/// Skipping `k` commands, after none of which enough path elements have been left.
proof fn lemma_skip_on(pending: CommandSeq, depth: nat, k: int)
    requires
        1 <= depth,
        0 <= k <= pending.len(),
        forall|j: int| 0 <= j < k ==> (#[trigger] pending[j]).written(),
        forall|j: int|
            0 <= j <= k ==> 1 <= depth + (#[trigger] pending.take(j)).filter(
                |c: CommandView| c is Enter,
            ).len() - pending.take(j).filter(
                |c: CommandView| c is Value || c is Remove || c is Exit,
            ).len() <= i32::MAX,
    ensures
        skipped(pending, depth) == skipped(
            pending.skip(k),
            (depth + pending.take(k).filter(|c: CommandView| c is Enter).len() - pending.take(
                k,
            ).filter(|c: CommandView| c is Value || c is Remove || c is Exit).len()) as nat,
        ),
    decreases k,
{
    let into = |c: CommandView| c is Enter;
    let out = |c: CommandView| c is Value || c is Remove || c is Exit;
    if k == 0 {
        reveal(Seq::filter);
        assert(pending.skip(0) =~= pending);
        assert(pending.take(0).filter(into).len() == 0);
        assert(pending.take(0).filter(out).len() == 0);
    } else {
        lemma_skip_on(pending, depth, k - 1);
        lemma_count_next(pending, k - 1, into);
        lemma_count_next(pending, k - 1, out);
        assert(pending.skip(k - 1).drop_first() =~= pending.skip(k));
        assert(pending[k - 1].written());
        assert(1 <= depth + pending.take(k).filter(into).len() - pending.take(k).filter(out).len()
            <= i32::MAX);
        assert(1 <= depth + pending.take(k - 1).filter(into).len() - pending.take(k - 1).filter(
            out,
        ).len() <= i32::MAX);
    }
}

/// Skipping reads on while the commands that leave a path element (`Value`, `Remove` and `Exit`)
/// have not left all of those that were entered, be it before or by an `Enter` that was read. It
/// ends right behind the command that leaves the last of them. It fails at the end of the stream,
/// on a command that is never written, and on an `Enter` that can no longer be counted.
pub proof fn law_skip(pending: CommandSeq, depth: nat, k: int)
    requires
        1 <= depth,
        0 <= k <= pending.len(),
        forall|j: int| 0 <= j < k ==> (#[trigger] pending[j]).written(),
        forall|j: int|
            0 <= j <= k ==> 1 <= depth + (#[trigger] pending.take(j)).filter(
                |c: CommandView| c is Enter,
            ).len() - pending.take(j).filter(
                |c: CommandView| c is Value || c is Remove || c is Exit,
            ).len() <= i32::MAX,
    ensures
        k == pending.len() ==> skipped(pending, depth) is Mismatched,
        k < pending.len() && (pending[k] is Nothing || pending[k] is DeserializedValue) ==> skipped(
            pending,
            depth,
        ) == Skipped::Unreadable(pending.skip(k + 1)),
        k < pending.len() && pending[k] is Enter && depth + pending.take(k).filter(
            |c: CommandView| c is Enter,
        ).len() - pending.take(k).filter(
            |c: CommandView| c is Value || c is Remove || c is Exit,
        ).len() == i32::MAX ==> skipped(pending, depth) == Skipped::TooDeep(pending.skip(k + 1)),
        k < pending.len() && (pending[k] is Value || pending[k] is Remove || pending[k] is Exit)
            && depth + pending.take(k).filter(|c: CommandView| c is Enter).len() - pending.take(
            k,
        ).filter(|c: CommandView| c is Value || c is Remove || c is Exit).len() == 1 ==> skipped(
            pending,
            depth,
        ) == Skipped::Done(pending.skip(k + 1)),
{
    lemma_skip_on(pending, depth, k);
    if k < pending.len() {
        assert(pending.skip(k).drop_first() =~= pending.skip(k + 1));
        assert(pending.skip(k)[0] == pending[k]);
    }
    let n = depth + pending.take(k).filter(|c: CommandView| c is Enter).len() - pending.take(
        k,
    ).filter(|c: CommandView| c is Value || c is Remove || c is Exit).len();
    assert(1 <= n <= i32::MAX);
}

/// What has been skipped holds as many more commands that leave a path element (`Value`, `Remove`
/// and `Exit`) than commands that enter one as there were path elements to leave, and stands right
/// before what is left of the stream.
pub proof fn law_skip_balance(pending: CommandSeq, depth: nat, rest: CommandSeq)
    requires
        1 <= depth,
        skipped(pending, depth) == Skipped::Done(rest),
    ensures
        ({
            let read = pending.take(pending.len() - rest.len());
            &&& rest.len() < pending.len()
            &&& pending == read + rest
            &&& read.filter(|c: CommandView| c is Value || c is Remove || c is Exit).len()
                == depth + read.filter(|c: CommandView| c is Enter).len()
            &&& read.last() is Value || read.last() is Remove || read.last() is Exit
        }),
    decreases pending.len(),
{
    reveal_with_fuel(Seq::filter, 2);
    let into = |c: CommandView| c is Enter;
    let out = |c: CommandView| c is Value || c is Remove || c is Exit;
    let first = pending.drop_first();
    let head = seq![pending[0]];
    assert(head.drop_last() =~= CommandSeq::empty());
    assert(head.filter(into).len() == if pending[0] is Enter {
        1int
    } else {
        0
    });
    assert(head.filter(out).len() == if out(pending[0]) {
        1int
    } else {
        0
    });
    let more: Option<nat> = if pending[0] is Enter {
        Some(depth + 1)
    } else if depth > 1 {
        Some((depth - 1) as nat)
    } else {
        None
    };
    match more {
        Some(d) => {
            law_skip_balance(first, d, rest);
            let read = first.take(first.len() - rest.len());
            assert(pending.take(pending.len() - rest.len()) =~= head + read);
            assert(pending =~= head + first);
            assert(head + (read + rest) =~= (head + read) + rest);
            Seq::filter_distributes_over_add(head, read, into);
            Seq::filter_distributes_over_add(head, read, out);
            assert((head + read).last() == read.last());
        },
        None => {
            assert(pending.take(1) =~= head);
            assert(pending =~= head + rest);
        },
    }
}

/// A value that is read takes the place of the one that was there, whatever it was, and is the
/// whole of what is read.
pub proof fn law_value_read<T: Terminal>(value: ValueView, v: ValueView, rest: CommandSeq)
    ensures
        T::valid(v) ==> T::applied(value, seq![CommandView::Value(v)] + rest) == (Applied {
            value: v,
            rest,
            outcome: Outcome::Done(true),
        }),
        !T::valid(v) ==> T::applied(value, seq![CommandView::Value(v)] + rest) == (Applied {
            value,
            rest,
            outcome: Outcome::Unreadable,
        }),
{
    law_value_read_whole::<T>(value, v, rest);
}

/// A value that is read whole takes the place of the one that was there, whatever it was, and is
/// all that is read.
pub proof fn law_value_read_whole<T: Datum>(value: ValueView, v: ValueView, rest: CommandSeq)
    ensures
        T::valid(v) ==> value_applied::<T>(value, seq![CommandView::Value(v)] + rest) == (Applied {
            value: v,
            rest,
            outcome: Outcome::Done(true),
        }),
        !T::valid(v) ==> value_applied::<T>(value, seq![CommandView::Value(v)] + rest) == (Applied {
            value,
            rest,
            outcome: Outcome::Unreadable,
        }),
{
    assert((seq![CommandView::Value(v)] + rest).drop_first() =~= rest);
}

/// Without a value, a terminal value stays as it is: at the end of the stream, at a removal, and
/// where a part of it is entered, which is skipped. An `Exit` and a command that is never written
/// do not belong there.
pub proof fn law_value_kept<T: Terminal>(
    value: ValueView,
    element: PathView,
    n: usize,
    rest: CommandSeq,
)
    ensures
        T::applied(value, Seq::empty()) == (Applied {
            value,
            rest: Seq::empty(),
            outcome: Outcome::Done(false),
        }),
        T::applied(value, seq![CommandView::Remove(n)] + rest) == (Applied {
            value,
            rest,
            outcome: Outcome::Done(false),
        }),
        T::applied(value, seq![CommandView::Exit] + rest) == (Applied {
            value,
            rest,
            outcome: Outcome::Broken(Fault::UnexpectedExit),
        }),
        T::applied(value, seq![CommandView::Nothing] + rest) == (Applied {
            value,
            rest,
            outcome: Outcome::Unreadable,
        }),
        T::applied(value, seq![CommandView::DeserializedValue] + rest) == (Applied {
            value,
            rest,
            outcome: Outcome::Unreadable,
        }),
        T::applied(value, seq![CommandView::Enter(element)] + rest) == (match skipped(rest, 1) {
            Skipped::Done(left) => Applied { value, rest: left, outcome: Outcome::Done(false) },
            Skipped::Unreadable(left) => Applied {
                value,
                rest: left,
                outcome: Outcome::Unreadable,
            },
            Skipped::TooDeep(left) => Applied {
                value,
                rest: left,
                outcome: Outcome::Broken(Fault::TooDeep),
            },
            Skipped::Mismatched => Applied {
                value,
                rest: Seq::empty(),
                outcome: Outcome::Broken(Fault::MismatchedEnterExit),
            },
        }),
        forall|pending: CommandSeq| #[trigger]
            T::applied(value, pending) == value_applied::<T>(value, pending),
{
    assert((seq![CommandView::Remove(n)] + rest).drop_first() =~= rest);
    assert((seq![CommandView::Exit] + rest).drop_first() =~= rest);
    assert((seq![CommandView::Nothing] + rest).drop_first() =~= rest);
    assert((seq![CommandView::DeserializedValue] + rest).drop_first() =~= rest);
    assert((seq![CommandView::Enter(element)] + rest).drop_first() =~= rest);
}

/// That something changed before is all that a list remembers of it.
proof fn lemma_changed_before<T: SerdeDiffable + Datum>(items: Seq<ValueView>, pending: CommandSeq)
    ensures
        ({
            let a = list_applied::<T>(items, pending, false);
            list_applied::<T>(items, pending, true) == (Applied {
                outcome: if a.outcome is Done {
                    Outcome::Done(true)
                } else {
                    a.outcome
                },
                ..a
            })
        }),
    decreases pending.len(),
{
    if pending.len() > 0 {
        let rest = pending.drop_first();
        match pending[0] {
            CommandView::Enter(PathView::CollectionIndex(i)) => if i < items.len() {
                let inner = T::applied(items[i as int], rest);
                T::lemma_applied_consumes(items[i as int], rest);
                if let Outcome::Done(c) = inner.outcome {
                    lemma_changed_before::<T>(items.update(i as int, inner.value), inner.rest);
                }
            } else if let Skipped::Done(r) = skipped(rest, 1) {
                lemma_skipped_consumes(rest, 1);
                lemma_changed_before::<T>(items, r);
            },
            CommandView::Enter(PathView::AddToCollection) => if rest.len() > 0 {
                if let CommandView::Value(v) = rest[0] {
                    lemma_changed_before::<T>(items.push(v), rest.drop_first());
                }
            },
            _ => {},
        }
    }
}

/// An item of a list that is entered by its index is brought up to date, whether or not it is said
/// to have changed; the list then goes on with what is left of the stream.
pub proof fn law_list_item_read<T: SerdeDiffable + Datum>(
    items: Seq<ValueView>,
    i: usize,
    rest: CommandSeq,
)
    requires
        i < items.len(),
    ensures
        ({
            let item = T::applied(items[i as int], rest);
            let list = <Vec<T>>::applied(
                ValueView::List(items.update(i as int, item.value)),
                item.rest,
            );
            <Vec<T>>::applied(
                ValueView::List(items),
                seq![CommandView::Enter(PathView::CollectionIndex(i))] + rest,
            ) == if item.outcome == Outcome::Done(true) && list.outcome is Done {
                Applied { outcome: Outcome::Done(true), ..list }
            } else if item.outcome is Done {
                list
            } else {
                Applied { value: ValueView::List(items.update(i as int, item.value)), ..item }
            }
        }),
{
    let item = T::applied(items[i as int], rest);
    T::lemma_applied_consumes(items[i as int], rest);
    assert((seq![CommandView::Enter(PathView::CollectionIndex(i))] + rest).drop_first() =~= rest);
    lemma_changed_before::<T>(items.update(i as int, item.value), item.rest);
}

/// What a list does not have is skipped: after an index past its end it goes on, after a field it
/// ends.
pub proof fn law_list_part_skipped<T: SerdeDiffable + Datum>(
    items: Seq<ValueView>,
    element: PathView,
    rest: CommandSeq,
)
    requires
        match element {
            PathView::Field(_) => true,
            PathView::CollectionIndex(i) => i >= items.len(),
            PathView::AddToCollection => false,
        },
    ensures
        <Vec<T>>::applied(ValueView::List(items), seq![CommandView::Enter(element)] + rest) == (
        match skipped(rest, 1) {
            Skipped::Done(left) => if element is Field {
                Applied {
                    value: ValueView::List(items),
                    rest: left,
                    outcome: Outcome::Done(false),
                }
            } else {
                <Vec<T>>::applied(ValueView::List(items), left)
            },
            Skipped::Unreadable(left) => Applied {
                value: ValueView::List(items),
                rest: left,
                outcome: Outcome::Unreadable,
            },
            Skipped::TooDeep(left) => Applied {
                value: ValueView::List(items),
                rest: left,
                outcome: Outcome::Broken(Fault::TooDeep),
            },
            Skipped::Mismatched => Applied {
                value: ValueView::List(items),
                rest: Seq::empty(),
                outcome: Outcome::Broken(Fault::MismatchedEnterExit),
            },
        }),
{
    assert((seq![CommandView::Enter(element)] + rest).drop_first() =~= rest);
    lemma_skipped_consumes(rest, 1);
}

/// An addition puts its value at the end of the list, which then goes on and has changed. It has to
/// be followed by a value.
pub proof fn law_list_addition_read<T: SerdeDiffable + Datum>(
    items: Seq<ValueView>,
    next: CommandView,
    rest: CommandSeq,
)
    ensures
        <Vec<T>>::applied(
            ValueView::List(items),
            seq![CommandView::Enter(PathView::AddToCollection), next] + rest,
        ) == (match next {
            CommandView::Value(v) => if T::valid(v) {
                let list = <Vec<T>>::applied(ValueView::List(items.push(v)), rest);
                if list.outcome is Done {
                    Applied { outcome: Outcome::Done(true), ..list }
                } else {
                    list
                }
            } else {
                Applied { value: ValueView::List(items), rest, outcome: Outcome::Unreadable }
            },
            _ => Applied {
                value: ValueView::List(items),
                rest,
                outcome: Outcome::Broken(Fault::ExpectedValue),
            },
        }),
        <Vec<T>>::applied(
            ValueView::List(items),
            seq![CommandView::Enter(PathView::AddToCollection)],
        ) == (Applied {
            value: ValueView::List(items),
            rest: Seq::empty(),
            outcome: Outcome::Broken(Fault::ExpectedValue),
        }),
{
    let pending = seq![CommandView::Enter(PathView::AddToCollection), next] + rest;
    assert(pending.drop_first().drop_first() =~= rest);
    assert(pending.drop_first()[0] == next);
    assert(seq![CommandView::Enter(PathView::AddToCollection)].drop_first()
        =~= CommandSeq::empty());
    if let CommandView::Value(v) = next {
        lemma_changed_before::<T>(items.push(v), rest);
    }
}

/// Where a list ends: at the end of the stream; at an `Exit` or a command that is never written; at
/// a removal, which takes as many items off the end as it says and there are; and at a value
/// without an index, which is added to the end.
pub proof fn law_list_end_read<T: SerdeDiffable + Datum>(
    items: Seq<ValueView>,
    n: usize,
    v: ValueView,
    rest: CommandSeq,
)
    ensures
        <Vec<T>>::applied(ValueView::List(items), Seq::empty()) == (Applied {
            value: ValueView::List(items),
            rest: Seq::empty(),
            outcome: Outcome::Done(false),
        }),
        <Vec<T>>::applied(ValueView::List(items), seq![CommandView::Exit] + rest) == (Applied {
            value: ValueView::List(items),
            rest,
            outcome: Outcome::Done(false),
        }),
        <Vec<T>>::applied(ValueView::List(items), seq![CommandView::Nothing] + rest) == (Applied {
            value: ValueView::List(items),
            rest,
            outcome: Outcome::Done(false),
        }),
        <Vec<T>>::applied(ValueView::List(items), seq![CommandView::DeserializedValue] + rest) == (
        Applied { value: ValueView::List(items), rest, outcome: Outcome::Done(false) }),
        n <= items.len() ==> <Vec<T>>::applied(
            ValueView::List(items),
            seq![CommandView::Remove(n)] + rest,
        ) == (Applied {
            value: ValueView::List(items.take(items.len() - n)),
            rest,
            outcome: Outcome::Done(true),
        }),
        n >= items.len() ==> <Vec<T>>::applied(
            ValueView::List(items),
            seq![CommandView::Remove(n)] + rest,
        ) == (Applied {
            value: ValueView::List(Seq::empty()),
            rest,
            outcome: Outcome::Done(true),
        }),
        <Vec<T>>::applied(ValueView::List(items), seq![CommandView::Value(v)] + rest) == (
        if T::valid(v) {
            Applied {
                value: ValueView::List(items.push(v)),
                rest,
                outcome: Outcome::Done(true),
            }
        } else {
            Applied { value: ValueView::List(items), rest, outcome: Outcome::Unreadable }
        }),
{
    assert((seq![CommandView::Exit] + rest).drop_first() =~= rest);
    assert((seq![CommandView::Nothing] + rest).drop_first() =~= rest);
    assert((seq![CommandView::DeserializedValue] + rest).drop_first() =~= rest);
    assert((seq![CommandView::Remove(n)] + rest).drop_first() =~= rest);
    assert((seq![CommandView::Value(v)] + rest).drop_first() =~= rest);
    assert(items.take(0) =~= Seq::empty());
}

/// A result that agrees with what is expected is that very result, unless it is a failure of a
/// stream that may fail at any point.
pub proof fn law_agrees<E>(
    r: Result<bool, ApplyError<E>>,
    reliable: bool,
    expected: Applied,
    value: ValueView,
    rest: CommandSeq,
)
    requires
        agrees(r, reliable, expected, value, rest),
        reliable || !(r matches Err(ApplyError::Source(_))),
    ensures
        value == expected.value,
        rest == expected.rest,
        match expected.outcome {
            Outcome::Done(changed) => r matches Ok(c) && c == changed,
            Outcome::Unreadable => r matches Err(ApplyError::Source(_)),
            Outcome::Broken(fault) => r matches Err(ApplyError::Protocol(f)) && f == fault,
        },
{
}

/// The same of a result that does not say whether anything changed.
pub proof fn law_finishes<E>(
    r: Result<(), ApplyError<E>>,
    reliable: bool,
    expected: Applied,
    value: ValueView,
    rest: CommandSeq,
)
    requires
        finishes(r, reliable, expected, value, rest),
        reliable || !(r matches Err(ApplyError::Source(_))),
    ensures
        value == expected.value,
        rest == expected.rest,
        match expected.outcome {
            Outcome::Done(_) => r is Ok,
            Outcome::Unreadable => r matches Err(ApplyError::Source(_)),
            Outcome::Broken(fault) => r matches Err(ApplyError::Protocol(f)) && f == fault,
        },
{
}

/// The same of a result of skipping.
pub proof fn law_skip_agrees<E>(
    r: Result<(), ApplyError<E>>,
    reliable: bool,
    expected: Skipped,
    rest: CommandSeq,
)
    requires
        skip_agrees(r, reliable, expected, rest),
        reliable || !(r matches Err(ApplyError::Source(_))),
    ensures
        match expected {
            Skipped::Done(left) => r is Ok && rest == left,
            Skipped::Unreadable(left) => r matches Err(ApplyError::Source(_)) && rest == left,
            Skipped::TooDeep(left) => r matches Err(ApplyError::Protocol(f)) && f == Fault::TooDeep
                && rest == left,
            Skipped::Mismatched => r matches Err(ApplyError::Protocol(f)) && f
                == Fault::MismatchedEnterExit && rest.len() == 0,
        },
{
}

/// A command that was read is the one that the stream began with; none is read just at the end.
pub proof fn law_took(got: Option<CommandView>, before: CommandSeq, after: CommandSeq)
    ensures
        took(got, before, after) <==> match got {
            Some(command) => before == seq![command] + after,
            None => before.len() == 0 && after.len() == 0,
        },
{
    if before.len() > 0 {
        assert(before =~= seq![before[0]] + before.drop_first());
    }
    if let Some(command) = got {
        assert((seq![command] + after).drop_first() =~= after);
    }
    if before.len() == 0 && after.len() == 0 {
        assert(before =~= after);
    }
}

/// A failure after `n` commands has read these, and got past one more at most.
pub proof fn law_failed_after(n: int, before: CommandSeq, after: CommandSeq)
    requires
        failed_after(n, before, after),
    ensures
        0 <= n <= before.len(),
        before == before.take(n) + after || (n < before.len() && before == before.take(n + 1)
            + after),
{
    assert(before =~= before.take(n) + before.skip(n));
    if n < before.len() {
        assert(before =~= before.take(n + 1) + before.skip(n + 1));
    }
}

/// A value that is left as at the end of a stream is one value only, with nothing left to read.
pub proof fn law_ends_as(a: Applied, value: ValueView)
    ensures
        a.ends_as(value) <==> a.rest =~= Seq::empty() && value == a.value,
{
}

/// Which values can be read as a `T`, and what is kept of a command of which the value is not read.
pub proof fn law_commands_read<'de, T: Datum>(
    got: DiffCommandValue<'de, ()>,
    command: CommandView,
    v: ValueView,
)
    ensures
        decodable::<T>(CommandView::Value(v)) <==> T::valid(v),
        !(command is Value) ==> decodable::<T>(command),
        command.written() <==> command is Enter || command is Value || command is Remove
            || command is Exit,
        ignores_value(got, command) <==> match (got, command) {
            (DiffCommandValue::Enter(a), CommandView::Enter(b)) => a.view() == b,
            (DiffCommandValue::Value(_), CommandView::Value(_)) => true,
            (DiffCommandValue::Remove(a), CommandView::Remove(b)) => a == b,
            (DiffCommandValue::Exit, CommandView::Exit) => true,
            (DiffCommandValue::Nothing, CommandView::Nothing) => true,
            (DiffCommandValue::DeserializedValue, CommandView::DeserializedValue) => true,
            _ => false,
        },
{
}

/// A reader of a list of commands fails on no command that makes sense, and has all of the list
/// still to read that it has not read.
pub proof fn law_reader_reliable(reader: CommandReader)
    ensures
        <CommandReader as CommandSource>::reliable(),
        <CommandReader as CommandSource>::pending(&reader) == reader.view(),
{
}

} // verus!
