//! Writing a diff: the commands so far, and the path that is still to be entered.

use std::borrow::Cow;

use vstd::prelude::*;

use crate::command::{
    command_views, enters, CommandSeq, CommandView, DiffCommandRef, DiffCommandValue,
    DiffPathElementValue, PathView,
};
use crate::datum::Datum;
use crate::value::Value;

verus! {

/// Used during a diff operation for transient data used during the diff.
///
/// Path elements are buffered, and written only once there is something to write under them.
pub struct DiffContext {
    field_stack: Vec<DiffPathElementValue<'static>>,
    /// The commands written so far
    commands: Vec<DiffCommandValue<'static, Value>>,
    /// some commands are implicit Exit to save space, so we set a flag to avoid writing the next Exit
    implicit_exit_written: bool,
}

/// What a [`DiffContext`] stands for.
#[verifier::ext_equal]
pub struct ContextView {
    /// The path elements that were pushed and not yet written.
    pub path: Seq<PathView>,
    pub written: CommandSeq,
    /// Whether the last command written left the path element it stood under.
    pub implicit_exit: bool,
}

impl ContextView {
    /// A context in which nothing has happened.
    pub open spec fn fresh() -> ContextView {
        ContextView { path: Seq::empty(), written: Seq::empty(), implicit_exit: false }
    }

    /// After a path element is pushed.
    pub open spec fn pushed(self, element: PathView) -> ContextView {
        ContextView { path: self.path.push(element), ..self }
    }

    /// After the innermost path element is popped: forgotten if it was never written, otherwise
    /// left by an `Exit`, unless the last command left it already.
    pub open spec fn popped(self) -> ContextView {
        if self.path.len() > 0 {
            ContextView { path: self.path.drop_last(), ..self }
        } else if self.implicit_exit {
            ContextView { implicit_exit: false, ..self }
        } else {
            ContextView { written: self.written.push(CommandView::Exit), ..self }
        }
    }

    /// After `commands` are written under the path.
    pub open spec fn saved_all(
        self,
        commands: CommandSeq,
        implicit_exit: bool,
    ) -> ContextView {
        ContextView {
            path: Seq::empty(),
            written: self.written + enters(self.path) + commands,
            implicit_exit,
        }
    }

    /// After one command is written under the path.
    pub open spec fn saved(self, command: CommandView, implicit_exit: bool) -> ContextView {
        self.saved_all(seq![command], implicit_exit)
    }
}

impl DiffContext {
    pub closed spec fn view(&self) -> ContextView {
        ContextView {
            path: Seq::new(self.field_stack@.len(), |i: int| self.field_stack@[i].view()),
            written: command_views(self.commands@),
            implicit_exit: self.implicit_exit_written,
        }
    }

    /// A context with nothing written and nothing pushed.
    pub fn new() -> (r: DiffContext)
        ensures
            r.view() == ContextView::fresh(),
    {
        let r = DiffContext {
            field_stack: Vec::new(),
            commands: Vec::new(),
            implicit_exit_written: false,
        };
        assert(r.view() =~= ContextView::fresh());
        r
    }

    /// The commands that were written.
    pub fn into_commands(self) -> (r: Vec<DiffCommandValue<'static, Value>>)
        ensures
            command_views(r@) == self.view().written,
    {
        self.commands
    }

    fn push_element(&mut self, element: DiffPathElementValue<'static>)
        ensures
            final(self).view() == old(self).view().pushed(element.view()),
    {
        self.field_stack.push(element);
        assert(self.view() =~= old(self).view().pushed(element.view()));
    }

    /// Called when we visit a field. If the structure is recursive (i.e. struct within struct,
    /// elements within an array) this may be called more than once before a corresponding pop_path_element
    /// is called. See `pop_path_element`
    pub fn push_field(&mut self, field_name: &'static str)
        ensures
            final(self).view() == old(self).view().pushed(PathView::Field(field_name@)),
    {
        self.push_element(DiffPathElementValue::Field(Cow::Borrowed(field_name)));
    }

    pub fn push_collection_index(&mut self, idx: usize)
        ensures
            final(self).view() == old(self).view().pushed(PathView::CollectionIndex(idx)),
    {
        self.push_element(DiffPathElementValue::CollectionIndex(idx));
    }

    pub fn push_collection_add(&mut self)
        ensures
            final(self).view() == old(self).view().pushed(PathView::AddToCollection),
    {
        self.push_element(DiffPathElementValue::AddToCollection);
    }

    /// Called when we finish visiting a field. See `push_field` for details
    pub fn pop_path_element(&mut self)
        ensures
            final(self).view() == old(self).view().popped(),
    {
        if self.field_stack.is_empty() {
            // if we don't have any buffered fields, we just write Exit command directly
            // if we've just written a field, skip the Exit
            if !self.implicit_exit_written {
                self.commands.push(DiffCommandValue::Exit);
            } else {
                self.implicit_exit_written = false;
            }
        } else {
            self.field_stack.pop();
        }
        assert(self.view() =~= old(self).view().popped());
    }

    /// Writes buffered fields as Enter commands, and then `command`.
    fn flush_and_write(
        &mut self,
        command: DiffCommandValue<'static, Value>,
        implicit_exit: bool,
    )
        ensures
            final(self).view() == old(self).view().saved(command.view(), implicit_exit),
    {
        let mut fields: Vec<DiffPathElementValue<'static>> = Vec::new();
        std::mem::swap(&mut fields, &mut self.field_stack);
        let ghost path = Seq::new(fields@.len(), |i: int| fields@[i].view());
        let ghost before = command_views(self.commands@);
        let ghost all = fields@;
        for field in iter: fields
            invariant
                iter.seq() == all,
                path == Seq::new(all.len(), |i: int| all[i].view()),
                self.field_stack@.len() == 0,
                command_views(self.commands@) == before + enters(path.take(iter.index() as int)),
        {
            let ghost k = iter.index() as int;
            let ghost earlier = self.commands@;
            self.commands.push(DiffCommandValue::Enter(field));
            proof {
                assert(field == all[k]);
                assert(command_views(self.commands@) =~= command_views(earlier).push(
                    CommandView::Enter(path[k]),
                ));
                assert(enters(path.take(k + 1)) =~= enters(path.take(k)).push(
                    CommandView::Enter(path[k]),
                ));
            }
        }
        assert(path.take(path.len() as int) =~= path);
        self.implicit_exit_written = implicit_exit;
        self.commands.push(command);
        assert(self.view() =~= old(self).view().saved(command.view(), implicit_exit));
    }

    /// Stores a value for an element that has previously been pushed using push_field.
    pub fn save_value<T: Datum>(&mut self, value: &T)
        ensures
            final(self).view() == old(self).view().saved(CommandView::Value(value.model()), true),
    {
        let command = DiffCommandValue::Value(value.to_value());
        self.flush_and_write(command, true);
    }

    /// Stores an arbitrary DiffCommand to be handled by the type.
    /// Any custom sequence of DiffCommands must be followed by Exit.
    pub fn save_command<'b, T: Datum>(
        &mut self,
        value: &DiffCommandRef<'b, T>,
        implicit_exit: bool,
    )
        ensures
            final(self).view() == old(self).view().saved(
                value.view_with(|t: T| t.model()),
                implicit_exit,
            ),
    {
        let command = match value {
            DiffCommandRef::Enter(element) => DiffCommandValue::Enter(element.to_owned()),
            DiffCommandRef::Value(v) => DiffCommandValue::Value(v.to_value()),
            DiffCommandRef::Remove(n) => DiffCommandValue::Remove(*n),
            DiffCommandRef::Exit => DiffCommandValue::Exit,
        };
        self.flush_and_write(command, implicit_exit);
    }
}

} // verus!
