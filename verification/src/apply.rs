//! Reading a diff back.

use vstd::prelude::*;

use crate::command::{CommandSeq, CommandView, DiffCommandValue, DiffPathElementValue};
use crate::datum::Datum;
use crate::diffable::SerdeDiffable;
use crate::source::{decodable, failed_after, lemma_failed_after, CommandSource};
use crate::value::ValueView;

verus! {

/// A stream of commands that no diff writes.
#[derive(Clone, Copy, Debug, PartialEq, Eq, Structural)]
pub enum Fault {
    /// A removal where a path element or the end of one has to stand.
    UnexpectedRemove,
    /// The stream ended inside a path element that was being skipped.
    MismatchedEnterExit,
    /// The end of a path element where a value has to stand.
    UnexpectedExit,
    /// No value after AddToCollection.
    ExpectedValue,
    /// More path elements inside one that was being skipped than can be counted.
    TooDeep,
}

impl Fault {
    /// What is wrong with the stream.
    pub open spec fn text(self) -> Seq<char> {
        match self {
            Fault::UnexpectedRemove => "unexpected DiffCommand Value or Remove"@,
            Fault::MismatchedEnterExit => "mismatched DiffCommand::Enter/Exit "@,
            Fault::UnexpectedExit => "unexpected Exit command"@,
            Fault::ExpectedValue => "Expected value after AddToCollection"@,
            Fault::TooDeep => "attempt to add with overflow"@,
        }
    }

    /// What is wrong with the stream.
    pub fn message(self) -> (r: &'static str)
        ensures
            r@ == self.text(),
    {
        match self {
            Fault::UnexpectedRemove => "unexpected DiffCommand Value or Remove",
            Fault::MismatchedEnterExit => "mismatched DiffCommand::Enter/Exit ",
            Fault::UnexpectedExit => "unexpected Exit command",
            Fault::ExpectedValue => "Expected value after AddToCollection",
            Fault::TooDeep => "attempt to add with overflow",
        }
    }
}

/// Why a value could not be brought up to date.
#[derive(Debug)]
pub enum ApplyError<E> {
    /// The stream could not be read.
    Source(E),
    /// The stream does not follow the protocol.
    Protocol(Fault),
}

/// How an attempt to bring a value up to date ends.
pub enum Outcome {
    /// It came to its end; whether anything changed.
    Done(bool),
    /// It met a command that could not be read.
    Unreadable,
    /// It met a command that does not belong there.
    Broken(Fault),
}

/// What an attempt to bring a value up to date leaves behind.
#[verifier::ext_equal]
pub struct Applied {
    pub value: ValueView,
    /// The commands that were not read.
    pub rest: CommandSeq,
    pub outcome: Outcome,
}

impl Applied {
    /// Whether all commands were read, and left the value as `value`.
    pub open spec fn ends_as(self, value: ValueView) -> bool {
        self.rest.len() == 0 && self.value == value
    }
}

/// Whether a result, the value and the rest of the stream are what `expected` says. A stream that
/// is not reliable may fail at any point.
pub open spec fn agrees<E>(
    r: Result<bool, ApplyError<E>>,
    reliable: bool,
    expected: Applied,
    value: ValueView,
    rest: CommandSeq,
) -> bool {
    match r {
        Ok(changed) => expected == (Applied { value, rest, outcome: Outcome::Done(changed) }),
        Err(ApplyError::Protocol(fault)) => expected == (Applied {
            value,
            rest,
            outcome: Outcome::Broken(fault),
        }),
        Err(ApplyError::Source(_)) => reliable ==> expected == (Applied {
            value,
            rest,
            outcome: Outcome::Unreadable,
        }),
    }
}

/// What skipping leaves of a stream.
pub enum Skipped {
    /// All path elements were left.
    Done(CommandSeq),
    /// A command could not be read.
    Unreadable(CommandSeq),
    /// There were more path elements to leave than can be counted.
    TooDeep(CommandSeq),
    /// The stream ended too early.
    Mismatched,
}

/// Reading on until `depth` path elements are left, every value and removal being the end of one.
pub open spec fn skipped(pending: CommandSeq, depth: nat) -> Skipped
    decreases pending.len(),
{
    if pending.len() == 0 {
        Skipped::Mismatched
    } else {
        let rest = pending.drop_first();
        match pending[0] {
            CommandView::Enter(_) => if depth >= i32::MAX {
                Skipped::TooDeep(rest)
            } else {
                skipped(rest, depth + 1)
            },
            CommandView::Value(_) | CommandView::Remove(_) | CommandView::Exit => if depth <= 1 {
                Skipped::Done(rest)
            } else {
                skipped(rest, (depth - 1) as nat)
            },
            CommandView::Nothing | CommandView::DeserializedValue => Skipped::Unreadable(rest),
        }
    }
}

/// [`skipped`], where there may be nothing left to skip.
pub open spec fn skipped_from(pending: CommandSeq, depth: nat) -> Skipped {
    if depth == 0 {
        Skipped::Done(pending)
    } else {
        skipped(pending, depth)
    }
}

/// Skipping does not make the stream longer.
pub proof fn lemma_skipped_consumes(pending: CommandSeq, depth: nat)
    ensures
        match skipped(pending, depth) {
            Skipped::Done(rest) => rest.len() < pending.len(),
            Skipped::Unreadable(rest) => rest.len() < pending.len(),
            Skipped::TooDeep(rest) => rest.len() < pending.len(),
            Skipped::Mismatched => true,
        },
    decreases pending.len(),
{
    if pending.len() > 0 {
        let rest = pending.drop_first();
        match pending[0] {
            CommandView::Enter(_) => lemma_skipped_consumes(rest, depth + 1),
            CommandView::Value(_) | CommandView::Remove(_) | CommandView::Exit => if depth > 1 {
                lemma_skipped_consumes(rest, (depth - 1) as nat);
            },
            _ => {},
        }
    }
}

/// Skipping looks no further than it reads: with only `n` of the commands behind them in the
/// stream, the same commands are skipped.
pub proof fn lemma_skipped_local(pending: CommandSeq, depth: nat, n: int)
    requires
        skipped(pending, depth) matches Skipped::Done(rest) && 0 <= n <= rest.len(),
    ensures
        skipped(pending, depth) matches Skipped::Done(rest) && {
            let read = pending.len() - rest.len();
            &&& read > 0
            &&& rest == pending.skip(read)
            &&& skipped(pending.take(read + n), depth) == Skipped::Done(rest.take(n))
        },
    decreases pending.len(),
{
    lemma_skipped_consumes(pending, depth);
    let rest = skipped(pending, depth)->Done_0;
    let read = pending.len() - rest.len();
    let first = pending.drop_first();
    let short = pending.take(read + n);
    assert(short[0] == pending[0]);
    assert(short.drop_first() =~= first.take(read - 1 + n));
    let inner: Option<nat> = match pending[0] {
        CommandView::Enter(_) => Some(depth + 1),
        _ => if depth <= 1 {
            None
        } else {
            Some((depth - 1) as nat)
        },
    };
    match inner {
        Some(d) => {
            lemma_skipped_local(first, d, n);
            assert(first.skip(read - 1) =~= pending.skip(read));
        },
        None => {
            assert(rest =~= pending.skip(1));
            assert(first.take(n) =~= rest.take(n));
        },
    }
}

/// What is left when a part of the stream could not be skipped.
pub open spec fn skip_failed(value: ValueView, failed: Skipped) -> Applied {
    match failed {
        Skipped::Unreadable(rest) => Applied { value, rest, outcome: Outcome::Unreadable },
        Skipped::TooDeep(rest) => Applied {
            value,
            rest,
            outcome: Outcome::Broken(Fault::TooDeep),
        },
        _ => Applied {
            value,
            rest: Seq::empty(),
            outcome: Outcome::Broken(Fault::MismatchedEnterExit),
        },
    }
}

/// What becomes of a value that is replaced whole, if at all.
pub open spec fn value_applied<T: Datum>(value: ValueView, pending: CommandSeq) -> Applied {
    if pending.len() == 0 {
        Applied { value, rest: pending, outcome: Outcome::Done(false) }
    } else {
        let rest = pending.drop_first();
        match pending[0] {
            CommandView::Value(v) => if T::valid(v) {
                Applied { value: v, rest, outcome: Outcome::Done(true) }
            } else {
                Applied { value, rest, outcome: Outcome::Unreadable }
            },
            CommandView::Enter(_) => match skipped(rest, 1) {
                Skipped::Done(r) => Applied { value, rest: r, outcome: Outcome::Done(false) },
                failed => skip_failed(value, failed),
            },
            CommandView::Remove(_) => Applied { value, rest, outcome: Outcome::Done(false) },
            CommandView::Exit => Applied {
                value,
                rest,
                outcome: Outcome::Broken(Fault::UnexpectedExit),
            },
            CommandView::Nothing | CommandView::DeserializedValue => Applied {
                value,
                rest,
                outcome: Outcome::Unreadable,
            },
        }
    }
}

/// Used during an apply operation for transient data used during the apply
pub struct ApplyContext {}

impl ApplyContext {
    /// Returns the next element if it is a path. If it is a Value or Exit, or there is none, it
    /// returns None.
    pub fn next_path_element<'de, A: CommandSource<'de>>(&mut self, seq: &mut A) -> (r: Result<
        Option<DiffPathElementValue<'de>>,
        ApplyError<A::Error>,
    >)
        ensures
            match r {
                Ok(Some(element)) => {
                    &&& old(seq).pending().len() > 0
                    &&& old(seq).pending()[0] == CommandView::Enter(element.view())
                    &&& final(seq).pending() == old(seq).pending().drop_first()
                },
                Ok(None) => if old(seq).pending().len() == 0 {
                    final(seq).pending() == old(seq).pending()
                } else {
                    &&& old(seq).pending()[0] is Value || old(seq).pending()[0] is Exit
                    &&& final(seq).pending() == old(seq).pending().drop_first()
                },
                Err(ApplyError::Protocol(fault)) => {
                    &&& fault == Fault::UnexpectedRemove
                    &&& old(seq).pending().len() > 0
                    &&& old(seq).pending()[0] is Remove
                    &&& final(seq).pending() == old(seq).pending().drop_first()
                },
                Err(ApplyError::Source(_)) => {
                    &&& failed_after(0, old(seq).pending(), final(seq).pending())
                    &&& A::reliable() ==> {
                        &&& old(seq).pending().len() > 0
                        &&& !old(seq).pending()[0].written()
                        &&& final(seq).pending() == old(seq).pending().drop_first()
                    }
                },
            },
    {
        match seq.next_element_ignoring_value() {
            Err(e) => Err(ApplyError::Source(e)),
            Ok(Some(DiffCommandValue::Enter(element))) => Ok(Some(element)),
            Ok(Some(DiffCommandValue::Remove(_))) => Err(
                ApplyError::Protocol(Fault::UnexpectedRemove),
            ),
            Ok(Some(DiffCommandValue::Value(_)))
            | Ok(Some(DiffCommandValue::Exit))
            | Ok(Some(DiffCommandValue::Nothing))
            | Ok(Some(DiffCommandValue::DeserializedValue))
            | Ok(None) => Ok(None),
        }
    }

    /// To be called after next_path_element returns a path, but the path is not recognized.
    pub fn skip_value<'de, A: CommandSource<'de>>(&mut self, seq: &mut A) -> (r: Result<
        (),
        ApplyError<A::Error>,
    >)
        ensures
            skip_agrees(
                r,
                A::reliable(),
                skipped(old(seq).pending(), 1),
                final(seq).pending(),
            ),
            r matches Err(ApplyError::Source(_)) ==> exists|n: int|
                failed_after(n, old(seq).pending(), final(seq).pending()) && skipped(
                    #[trigger] old(seq).pending().take(n),
                    1,
                ) is Mismatched,
    {
        self.skip_value_internal(seq, 1)
    }

    fn skip_value_internal<'de, A: CommandSource<'de>>(
        &mut self,
        seq: &mut A,
        depth: i32,
    ) -> (r: Result<(), ApplyError<A::Error>>)
        requires
            depth >= 1,
        ensures
            skip_agrees(
                r,
                A::reliable(),
                skipped(old(seq).pending(), depth as nat),
                final(seq).pending(),
            ),
            r matches Err(ApplyError::Source(_)) ==> exists|n: int|
                failed_after(n, old(seq).pending(), final(seq).pending()) && skipped(
                    #[trigger] old(seq).pending().take(n),
                    depth as nat,
                ) is Mismatched,
    {
        let mut level: i32 = depth;
        let ghost start = seq.pending();
        let ghost all = skipped(start, depth as nat);
        let ghost mut read: int = 0;
        assert(start.skip(0) =~= start);
        // this tries to skip the value without knowing the type - not possible for some formats..
        while level != 0
            invariant
                level >= 0,
                depth >= 1,
                start == old(seq).pending(),
                all == skipped(start, depth as nat),
                skipped_from(seq.pending(), level as nat) == all,
                0 <= read <= start.len(),
                seq.pending() == start.skip(read),
                forall|n: int|
                    0 <= n <= seq.pending().len() ==> skipped(
                        #[trigger] start.take(read + n),
                        depth as nat,
                    ) == skipped_from(seq.pending().take(n), level as nat),
            decreases seq.pending().len(),
        {
            let ghost before = seq.pending();
            match seq.next_element_ignoring_value() {
                Err(e) => {
                    proof {
                        lemma_failed_after(read, 0, start, before, seq.pending());
                    }
                    assert(skipped(start.take(read + 0), depth as nat) is Mismatched);
                    return Err(ApplyError::Source(e));
                },
                Ok(None) => {
                    assert(seq.pending() =~= CommandSeq::empty());
                    return Err(ApplyError::Protocol(Fault::MismatchedEnterExit));
                },
                Ok(Some(DiffCommandValue::Enter(_))) => {
                    if level == i32::MAX {
                        return Err(ApplyError::Protocol(Fault::TooDeep));
                    }
                    level = level + 1;
                },
                // ignore value, but reduce depth, as it is an implicit Exit
                Ok(Some(_)) => {
                    level = level - 1;
                },
            }
            proof {
                read = read + 1;
                assert(start.skip(read) =~= before.drop_first());
                assert forall|n: int| 0 <= n <= seq.pending().len() implies skipped(
                    #[trigger] start.take(read + n),
                    depth as nat,
                ) == skipped_from(seq.pending().take(n), level as nat) by {
                    assert(start.take(read + n) == start.take((read - 1) + (n + 1)));
                    assert(before.take(n + 1)[0] == before[0]);
                    assert(before.take(n + 1).drop_first() =~= seq.pending().take(n));
                }
            }
        }
        Ok(())
    }

    /// Attempts to deserialize a value
    pub fn read_value<'de, A: CommandSource<'de>, T: Datum>(
        &mut self,
        seq: &mut A,
        val: &mut T,
    ) -> (r: Result<bool, ApplyError<A::Error>>)
        ensures
            agrees(
                r,
                A::reliable(),
                value_applied::<T>(old(val).model(), old(seq).pending()),
                final(val).model(),
                final(seq).pending(),
            ),
            r matches Ok(true) || *final(val) == *old(val),
            r matches Err(ApplyError::Source(_)) ==> exists|n: int|
                failed_after(n, old(seq).pending(), final(seq).pending()) && value_applied::<T>(
                    old(val).model(),
                    #[trigger] old(seq).pending().take(n),
                ).ends_as(final(val).model()),
    {
        let ghost start = seq.pending();
        match seq.next_written_element::<T>() {
            Err(e) => {
                assert(value_applied::<T>(val.model(), start.take(0)).ends_as(val.model()));
                Err(ApplyError::Source(e))
            },
            Ok(Some(DiffCommandValue::Value(v))) => {
                proof {
                    v.lemma_model_valid();
                }
                *val = v;
                Ok(true)
            },
            Ok(Some(DiffCommandValue::Enter(_))) => match self.skip_value_internal(seq, 1) {
                Ok(_) => Ok(false),
                Err(e) => {
                    proof {
                        if e is Source {
                            let rest = start.drop_first();
                            let n = choose|n: int|
                                failed_after(n, rest, seq.pending()) && skipped(
                                    #[trigger] rest.take(n),
                                    1,
                                ) is Mismatched;
                            lemma_failed_after(1, n, start, rest, seq.pending());
                            let short = start.take(n + 1);
                            assert(short.drop_first() =~= rest.take(n));
                            assert(value_applied::<T>(val.model(), short).ends_as(val.model()));
                        }
                    }
                    Err(e)
                },
            },
            Ok(Some(DiffCommandValue::Exit)) => Err(ApplyError::Protocol(Fault::UnexpectedExit)),
            Ok(_) => Ok(false),
        }
    }

    /// Returns the next command in the stream. Make sure you know what you're doing!
    pub fn read_next_command<'de, A: CommandSource<'de>, T: Datum>(&mut self, seq: &mut A) -> (r:
        Result<Option<DiffCommandValue<'de, T>>, A::Error>)
        ensures
            match r {
                Ok(Some(command)) => {
                    &&& old(seq).pending().len() > 0
                    &&& old(seq).pending()[0].written()
                    &&& command.view_with(|t: T| t.model()) == old(seq).pending()[0]
                    &&& final(seq).pending() == old(seq).pending().drop_first()
                },
                Ok(None) => if old(seq).pending().len() == 0 {
                    final(seq).pending() == old(seq).pending()
                } else {
                    &&& !old(seq).pending()[0].written()
                    &&& final(seq).pending() == old(seq).pending().drop_first()
                },
                Err(_) => {
                    &&& failed_after(0, old(seq).pending(), final(seq).pending())
                    &&& A::reliable() ==> {
                        &&& old(seq).pending().len() > 0
                        &&& !decodable::<T>(old(seq).pending()[0])
                        &&& final(seq).pending() == old(seq).pending().drop_first()
                    }
                },
            },
            A::reliable() && r is Ok ==> old(seq).pending().len() == 0 || decodable::<T>(
                old(seq).pending()[0],
            ),
    {
        match seq.next_element::<T>() {
            Err(e) => Err(e),
            Ok(None) | Ok(Some(DiffCommandValue::Nothing)) | Ok(
                Some(DiffCommandValue::DeserializedValue),
            ) => Ok(None),
            Ok(Some(command)) => Ok(Some(command)),
        }
    }
}

/// Whether a result of skipping, and the rest of the stream, are what `expected` says.
pub open spec fn skip_agrees<E>(
    r: Result<(), ApplyError<E>>,
    reliable: bool,
    expected: Skipped,
    rest: CommandSeq,
) -> bool {
    match r {
        Ok(_) => expected == Skipped::Done(rest),
        Err(ApplyError::Protocol(fault)) => {
            ||| fault == Fault::MismatchedEnterExit && expected == Skipped::Mismatched && rest
                == CommandSeq::empty()
            ||| fault == Fault::TooDeep && expected == Skipped::TooDeep(rest)
        },
        Err(ApplyError::Source(_)) => reliable ==> expected == Skipped::Unreadable(rest),
    }
}

/// [`agrees`], where the result does not say whether anything changed.
pub open spec fn finishes<E>(
    r: Result<(), ApplyError<E>>,
    reliable: bool,
    expected: Applied,
    value: ValueView,
    rest: CommandSeq,
) -> bool {
    match r {
        Ok(_) => expected.outcome is Done && expected.value == value && expected.rest == rest,
        Err(e) => agrees(Err(e), reliable, expected, value, rest),
    }
}

/// Deserializes a [`Diff`](crate::diff::Diff)
pub struct Apply<'a, T: SerdeDiffable> {
    target: &'a mut T,
}

impl<'a, T: SerdeDiffable> Apply<'a, T> {
    /// The value that is brought up to date.
    pub closed spec fn target(self) -> &'a mut T {
        self.target
    }

    pub fn deserializable(target: &'a mut T) -> (r: Self)
        ensures
            *r.target() == *old(target),
            *final(r.target()) == *final(target),
    {
        Apply { target }
    }

    pub fn apply<'de, A: CommandSource<'de>>(seq: &mut A, target: &mut T) -> (r: Result<
        (),
        ApplyError<A::Error>,
    >)
        ensures
            finishes(
                r,
                A::reliable(),
                T::applied(old(target).model(), old(seq).pending()),
                final(target).model(),
                final(seq).pending(),
            ),
            r matches Err(ApplyError::Source(_)) ==> exists|n: int|
                failed_after(n, old(seq).pending(), final(seq).pending()) && T::applied(
                    old(target).model(),
                    #[trigger] old(seq).pending().take(n),
                ).ends_as(final(target).model()),
    {
        Apply::deserializable(target).visit_seq(seq)
    }

    /// Brings the target up to date from a stream of commands.
    pub fn visit_seq<'de, A: CommandSource<'de>>(self, seq: &mut A) -> (r: Result<
        (),
        ApplyError<A::Error>,
    >)
        ensures
            finishes(
                r,
                A::reliable(),
                T::applied((*self.target()).model(), old(seq).pending()),
                (*final(self.target())).model(),
                final(seq).pending(),
            ),
            r matches Err(ApplyError::Source(_)) ==> exists|n: int|
                failed_after(n, old(seq).pending(), final(seq).pending()) && T::applied(
                    (*self.target()).model(),
                    #[trigger] old(seq).pending().take(n),
                ).ends_as((*final(self.target())).model()),
    {
        let mut ctx = ApplyContext {  };
        match self.target.apply(seq, &mut ctx) {
            Ok(_) => Ok(()),
            Err(e) => Err(e),
        }
    }
}

} // verus!
