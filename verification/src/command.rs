//! The commands a diff is written as.

use std::borrow::Cow;

use vstd::prelude::*;

use crate::value::{Value, ValueView};
use crate::variant::DiffCommandField;

verus! {

/// One step of the path from a value to a part of it.
#[derive(Debug)]
pub enum DiffPathElementValue<'a> {
    /// A struct field
    Field(Cow<'a, str>),
    CollectionIndex(usize),
    AddToCollection,
}

/// What a [`DiffPathElementValue`] stands for.
pub enum PathView {
    Field(Seq<char>),
    CollectionIndex(usize),
    AddToCollection,
}

/// A command to be written.
#[derive(Debug)]
pub enum DiffCommandRef<'a, T> {
    /// Enter a path element
    Enter(DiffPathElementValue<'a>),
    /// A value to be deserialized.
    /// For collections, this implies "add to end" if not preceded by an index.
    Value(&'a T),
    /// Remove N items from end of collection
    Remove(usize),
    /// Exit a path element
    Exit,
}

/// A command that was read.
#[derive(Debug)]
pub enum DiffCommandValue<'a, T> {
    /// Enter a path element
    Enter(DiffPathElementValue<'a>),
    /// A value to be deserialized.
    Value(T),
    /// Remove N items from end of collection
    Remove(usize),
    /// Exit a path element
    Exit,
    /// Never serialized
    Nothing,
    /// Never serialized, used to indicate that a value went into the supplied reference
    DeserializedValue,
}

/// What a command stands for.
pub enum CommandView {
    Enter(PathView),
    Value(ValueView),
    Remove(usize),
    Exit,
    Nothing,
    DeserializedValue,
}

impl<'a> DiffPathElementValue<'a> {
    pub open spec fn view(&self) -> PathView {
        match self {
            DiffPathElementValue::Field(name) => PathView::Field(name@),
            DiffPathElementValue::CollectionIndex(idx) => PathView::CollectionIndex(*idx),
            DiffPathElementValue::AddToCollection => PathView::AddToCollection,
        }
    }

    /// The same path element, with a name of its own.
    pub fn to_owned(&self) -> (r: DiffPathElementValue<'static>)
        ensures
            r.view() == self.view(),
    {
        match self {
            DiffPathElementValue::Field(name) => {
                let text: String = match name {
                    Cow::Borrowed(s) => str::to_owned(s),
                    Cow::Owned(s) => s.clone(),
                };
                DiffPathElementValue::Field(Cow::Owned(text))
            },
            DiffPathElementValue::CollectionIndex(idx) => DiffPathElementValue::CollectionIndex(
                *idx,
            ),
            DiffPathElementValue::AddToCollection => DiffPathElementValue::AddToCollection,
        }
    }
}

impl<'a, T> DiffCommandValue<'a, T> {
    /// Which of the commands that are ever written this is.
    pub fn field(&self) -> (r: Option<DiffCommandField>)
        ensures
            r == (match self {
                DiffCommandValue::Enter(_) => Some(DiffCommandField::Enter),
                DiffCommandValue::Value(_) => Some(DiffCommandField::Value),
                DiffCommandValue::Remove(_) => Some(DiffCommandField::Remove),
                DiffCommandValue::Exit => Some(DiffCommandField::Exit),
                DiffCommandValue::Nothing | DiffCommandValue::DeserializedValue => None,
            }),
    {
        match self {
            DiffCommandValue::Enter(_) => Some(DiffCommandField::Enter),
            DiffCommandValue::Value(_) => Some(DiffCommandField::Value),
            DiffCommandValue::Remove(_) => Some(DiffCommandField::Remove),
            DiffCommandValue::Exit => Some(DiffCommandField::Exit),
            DiffCommandValue::Nothing | DiffCommandValue::DeserializedValue => None,
        }
    }

    /// The command with `f` saying what its value stands for.
    pub open spec fn view_with(&self, f: spec_fn(T) -> ValueView) -> CommandView {
        match self {
            DiffCommandValue::Enter(element) => CommandView::Enter(element.view()),
            DiffCommandValue::Value(v) => CommandView::Value(f(*v)),
            DiffCommandValue::Remove(n) => CommandView::Remove(*n),
            DiffCommandValue::Exit => CommandView::Exit,
            DiffCommandValue::Nothing => CommandView::Nothing,
            DiffCommandValue::DeserializedValue => CommandView::DeserializedValue,
        }
    }
}

impl<'a> DiffCommandValue<'a, Value> {
    /// What a command over plain values stands for.
    pub open spec fn view(&self) -> CommandView {
        self.view_with(|v: Value| v.view())
    }
}

impl<'a, T> DiffCommandRef<'a, T> {
    /// The command with `f` saying what its value stands for.
    pub open spec fn view_with(&self, f: spec_fn(T) -> ValueView) -> CommandView {
        match self {
            DiffCommandRef::Enter(element) => CommandView::Enter(element.view()),
            DiffCommandRef::Value(v) => CommandView::Value(f(**v)),
            DiffCommandRef::Remove(n) => CommandView::Remove(*n),
            DiffCommandRef::Exit => CommandView::Exit,
        }
    }
}

impl CommandView {
    /// Whether the command is one of those that are ever written.
    pub open spec fn written(self) -> bool {
        !(self is Nothing) && !(self is DeserializedValue)
    }
}

/// A list of commands, by what they stand for.
pub type CommandSeq = Seq<CommandView>;

/// A number of commands.
pub type CommandCount = int;

/// Whether all of the commands are among those that are ever written.
pub open spec fn all_written(commands: CommandSeq) -> bool {
    forall|i: int| 0 <= i < commands.len() ==> (#[trigger] commands[i]).written()
}

/// What a list of commands stands for.
pub open spec fn command_views<'a>(commands: Seq<DiffCommandValue<'a, Value>>) -> CommandSeq {
    Seq::new(commands.len(), |i: int| commands[i].view())
}

/// The commands that enter each element of a path in turn.
pub open spec fn enters(path: Seq<PathView>) -> CommandSeq {
    Seq::new(path.len(), |i: int| CommandView::Enter(path[i]))
}

} // verus!
