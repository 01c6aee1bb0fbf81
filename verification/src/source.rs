//! Where the commands of a diff are read from.

use vstd::prelude::*;

use crate::command::{command_views, CommandSeq, CommandView, DiffCommandValue};
use crate::datum::Datum;
use crate::value::{Scalar, Value, ValueView};

verus! {

/// Whether a reader that had `before` ahead of it, and has `after` ahead of it now, has read `got`.
pub open spec fn took(
    got: Option<CommandView>,
    before: CommandSeq,
    after: CommandSeq,
) -> bool {
    match got {
        None => before.len() == 0 && after == before,
        Some(command) => before.len() > 0 && command == before[0] && after == before.drop_first(),
    }
}

/// Whether a reader that had `before` ahead of it, and has `after` ahead of it now, has read `n`
/// commands and then failed, at the end or on a command that it may have got past.
pub open spec fn failed_after(n: int, before: CommandSeq, after: CommandSeq) -> bool {
    &&& 0 <= n <= before.len()
    &&& after == before.skip(n) || n < before.len() && after == before.skip(n + 1)
}

/// A failure after `m` commands and then `n` more.
pub proof fn lemma_failed_after(
    m: int,
    n: int,
    start: CommandSeq,
    before: CommandSeq,
    after: CommandSeq,
)
    requires
        0 <= m <= start.len(),
        before == start.skip(m),
        failed_after(n, before, after),
    ensures
        failed_after(m + n, start, after),
{
    assert(before.skip(n) =~= start.skip(m + n));
    if n < before.len() {
        assert(before.skip(n + 1) =~= start.skip(m + n + 1));
    }
}

/// Whether a `T` can be made of the value in the command, if it has one.
pub open spec fn decodable<T: Datum>(command: CommandView) -> bool {
    command matches CommandView::Value(v) ==> T::valid(v)
}

/// Whether `got` is `command`, but for a value, which `got` has not kept.
pub open spec fn ignores_value<'de>(
    got: DiffCommandValue<'de, ()>,
    command: CommandView,
) -> bool {
    match command {
        CommandView::Value(_) => got is Value,
        _ => !(got is Value) && got.view_with(|u: ()| ValueView::Scalar(Scalar::Unit)) == command,
    }
}

/// A stream of commands, read one at a time.
///
/// How a value is read depends on the type that is asked for, so the reader says what it expects.
/// `pending` names what the reads will give: a read that succeeds takes the first of it, or finds
/// it empty. A read that fails gets past one command at most. Only a stream that is `reliable` says
/// when its reads succeed; another may fail at any point.
pub trait CommandSource<'de>: Sized {
    /// What a read that fails gives back.
    type Error;

    /// The commands still to come.
    spec fn pending(&self) -> CommandSeq;

    /// Whether a read fails only on a command that it cannot make sense of, and then gets past it.
    spec fn reliable() -> bool;

    /// The next command, whatever it is, with its value read as a `T`.
    fn next_element<T: Datum>(&mut self) -> (r: Result<
        Option<DiffCommandValue<'de, T>>,
        Self::Error,
    >)
        ensures
            r matches Ok(got) ==> took(
                match got {
                    Some(command) => Some(command.view_with(|t: T| t.model())),
                    None => None,
                },
                old(self).pending(),
                final(self).pending(),
            ),
            Self::reliable() ==> (r is Err <==> old(self).pending().len() > 0 && !decodable::<T>(
                old(self).pending()[0],
            )),
            r is Err ==> failed_after(0, old(self).pending(), final(self).pending()),
            Self::reliable() && r is Err ==> final(self).pending()
                == old(self).pending().drop_first(),
    ;

    /// The next command, if it is one of those that are ever written, with its value read as a `T`.
    fn next_written_element<T: Datum>(&mut self) -> (r: Result<
        Option<DiffCommandValue<'de, T>>,
        Self::Error,
    >)
        ensures
            r matches Ok(got) ==> took(
                match got {
                    Some(command) => Some(command.view_with(|t: T| t.model())),
                    None => None,
                },
                old(self).pending(),
                final(self).pending(),
            ),
            r matches Ok(Some(_)) ==> old(self).pending()[0].written(),
            Self::reliable() ==> (r is Err <==> old(self).pending().len() > 0 && !(decodable::<T>(
                old(self).pending()[0],
            ) && old(self).pending()[0].written())),
            r is Err ==> failed_after(0, old(self).pending(), final(self).pending()),
            Self::reliable() && r is Err ==> final(self).pending()
                == old(self).pending().drop_first(),
    ;

    /// The next command, if it is one of those that are ever written, without its value.
    fn next_element_ignoring_value(&mut self) -> (r: Result<
        Option<DiffCommandValue<'de, ()>>,
        Self::Error,
    >)
        ensures
            r matches Ok(None) ==> took(None, old(self).pending(), final(self).pending()),
            r matches Ok(Some(got)) ==> {
                &&& old(self).pending().len() > 0
                &&& old(self).pending()[0].written()
                &&& ignores_value(got, old(self).pending()[0])
                &&& final(self).pending() == old(self).pending().drop_first()
            },
            Self::reliable() ==> (r is Err <==> old(self).pending().len() > 0
                && !old(self).pending()[0].written()),
            r is Err ==> failed_after(0, old(self).pending(), final(self).pending()),
            Self::reliable() && r is Err ==> final(self).pending()
                == old(self).pending().drop_first(),
    ;
}

/// Reads a list of commands from its start.
pub struct CommandReader {
    /// The commands still to come, the next one last
    upcoming: Vec<DiffCommandValue<'static, Value>>,
}

/// A command that is never written, or whose value is not of the type that was expected.
#[derive(Clone, Copy, Debug, PartialEq, Eq, Structural)]
pub struct Unreadable;

/// Reads a value out of a command.
fn decode<'de, T: Datum>(command: DiffCommandValue<'de, Value>) -> (r: Result<
    DiffCommandValue<'de, T>,
    Unreadable,
>)
    ensures
        r is Ok <==> decodable::<T>(command.view()),
        r matches Ok(got) ==> got.view_with(|t: T| t.model()) == command.view(),
{
    match command {
        DiffCommandValue::Enter(element) => Ok(DiffCommandValue::Enter(element)),
        DiffCommandValue::Value(v) => match T::from_value(&v) {
            Some(t) => Ok(DiffCommandValue::Value(t)),
            None => Err(Unreadable),
        },
        DiffCommandValue::Remove(n) => Ok(DiffCommandValue::Remove(n)),
        DiffCommandValue::Exit => Ok(DiffCommandValue::Exit),
        DiffCommandValue::Nothing => Ok(DiffCommandValue::Nothing),
        DiffCommandValue::DeserializedValue => Ok(DiffCommandValue::DeserializedValue),
    }
}

impl CommandReader {
    /// The commands still to come.
    pub closed spec fn view(&self) -> CommandSeq {
        command_views(self.upcoming@).reverse()
    }

    /// A reader at the start of `commands`.
    pub fn new(commands: Vec<DiffCommandValue<'static, Value>>) -> (r: Self)
        ensures
            r.view() == command_views(commands@),
    {
        let ghost all = command_views(commands@);
        let mut commands = commands;
        let mut upcoming: Vec<DiffCommandValue<'static, Value>> = Vec::new();
        assert(all.skip(all.len() as int) =~= command_views(upcoming@).reverse());
        loop
            invariant
                commands@.len() <= all.len(),
                command_views(commands@) == all.take(commands@.len() as int),
                command_views(upcoming@).reverse() == all.skip(commands@.len() as int),
            ensures
                commands@.len() == 0,
            decreases commands@.len(),
        {
            match commands.pop() {
                None => break,
                Some(command) => {
                    let ghost later = command_views(upcoming@);
                    upcoming.push(command);
                    proof {
                        let k = commands@.len() as int;
                        let longer = command_views(commands@.push(command));
                        assert(all.take(k + 1)[k] == longer[k]);
                        assert(longer.take(k) =~= command_views(commands@));
                        assert(all.take(k + 1).take(k) =~= all.take(k));
                        assert(command_views(upcoming@) =~= later.push(command.view()));
                        let c = command.view();
                        assert(later.push(c).reverse() =~= seq![c] + later.reverse());
                        assert(all.skip(k) =~= seq![c] + all.skip(k + 1));
                    }
                },
            }
        }
        assert(all.skip(0) =~= all);
        CommandReader { upcoming }
    }

    /// How many commands are still to come.
    pub fn remaining(&self) -> (r: usize)
        ensures
            r == self.view().len(),
    {
        self.upcoming.len()
    }

    fn next(&mut self) -> (r: Option<DiffCommandValue<'static, Value>>)
        ensures
            took(
                match r {
                    Some(command) => Some(command.view()),
                    None => None,
                },
                old(self).view(),
                final(self).view(),
            ),
    {
        let r = self.upcoming.pop();
        proof {
            if r is Some {
                let before = command_views(old(self).upcoming@);
                assert(command_views(self.upcoming@) =~= before.drop_last());
                assert(self.view() =~= old(self).view().drop_first());
                assert(old(self).view()[0] == before.last());
            }
        }
        r
    }
}

impl<'de> CommandSource<'de> for CommandReader {
    type Error = Unreadable;

    open spec fn pending(&self) -> CommandSeq {
        self.view()
    }

    open spec fn reliable() -> bool {
        true
    }

    fn next_element<T: Datum>(&mut self) -> (r: Result<
        Option<DiffCommandValue<'de, T>>,
        Unreadable,
    >) {
        match self.next() {
            None => Ok(None),
            Some(command) => match decode(command) {
                Ok(got) => Ok(Some(got)),
                Err(e) => Err(e),
            },
        }
    }

    fn next_written_element<T: Datum>(&mut self) -> (r: Result<
        Option<DiffCommandValue<'de, T>>,
        Unreadable,
    >) {
        match self.next() {
            None => Ok(None),
            Some(DiffCommandValue::Nothing) | Some(DiffCommandValue::DeserializedValue) => Err(
                Unreadable,
            ),
            Some(command) => match decode(command) {
                Ok(got) => Ok(Some(got)),
                Err(e) => Err(e),
            },
        }
    }

    fn next_element_ignoring_value(&mut self) -> (r: Result<
        Option<DiffCommandValue<'de, ()>>,
        Unreadable,
    >) {
        match self.next() {
            None => Ok(None),
            Some(DiffCommandValue::Enter(element)) => Ok(Some(DiffCommandValue::Enter(element))),
            Some(DiffCommandValue::Value(_)) => Ok(Some(DiffCommandValue::Value(()))),
            Some(DiffCommandValue::Remove(n)) => Ok(Some(DiffCommandValue::Remove(n))),
            Some(DiffCommandValue::Exit) => Ok(Some(DiffCommandValue::Exit)),
            Some(DiffCommandValue::Nothing) | Some(DiffCommandValue::DeserializedValue) => Err(
                Unreadable,
            ),
        }
    }
}

} // verus!
