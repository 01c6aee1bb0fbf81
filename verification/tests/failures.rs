use struct_diff::command::CommandSeq;
use struct_diff::{
    Apply, ApplyError, CommandReader, CommandSource, Datum, Diff, DiffCommandValue, SerdeDiffable,
    Value,
};

/// Fails once it has given a number of commands.
struct Broken {
    reader: CommandReader,
    left: usize,
}

#[derive(Debug, PartialEq)]
struct Lost;

impl Broken {
    fn step(&mut self) -> Result<(), Lost> {
        if self.left == 0 {
            return Err(Lost);
        }
        self.left -= 1;
        Ok(())
    }
}

impl CommandSource<'static> for Broken {
    type Error = Lost;

    fn pending(&self) -> CommandSeq {
        panic!()
    }
    fn reliable() -> bool {
        panic!()
    }

    fn next_element<T: Datum>(&mut self) -> Result<Option<DiffCommandValue<'static, T>>, Lost> {
        self.step()?;
        self.reader.next_element().map_err(|_| Lost)
    }
    fn next_written_element<T: Datum>(
        &mut self,
    ) -> Result<Option<DiffCommandValue<'static, T>>, Lost> {
        self.step()?;
        self.reader.next_written_element().map_err(|_| Lost)
    }
    fn next_element_ignoring_value(
        &mut self,
    ) -> Result<Option<DiffCommandValue<'static, ()>>, Lost> {
        self.step()?;
        self.reader.next_element_ignoring_value().map_err(|_| Lost)
    }
}

fn first(commands: Vec<DiffCommandValue<'static, Value>>, n: usize) -> CommandReader {
    CommandReader::new(commands.into_iter().take(n).collect())
}

/// A list after the first commands of a diff, then a failure.
fn broken_off<T: SerdeDiffable + Clone>(old: &T, new: &T, n: usize) -> T {
    let mut target = old.clone();
    let mut source = Broken { reader: CommandReader::new(Diff::diff(old, new)), left: n };
    let result = Apply::apply(&mut source, &mut target);
    assert!(matches!(result, Err(ApplyError::Source(Lost))));
    target
}

/// A list after the first commands of a diff, and no others.
fn cut_off<T: SerdeDiffable + Clone>(old: &T, new: &T, n: usize) -> T {
    let mut target = old.clone();
    let _ = Apply::apply(&mut first(Diff::diff(old, new), n), &mut target);
    target
}

#[test]
fn failure_leaves_what_was_read_before() {
    let old = vec![vec![1, 2], vec![3]];
    let new = vec![vec![5, 6], vec![3, 4], vec![7]];
    assert_eq!(broken_off(&old, &new, 0), old);
    assert_eq!(broken_off(&old, &new, 3), vec![vec![5, 2], vec![3]]);
    assert_eq!(broken_off(&old, &new, 9), vec![vec![5, 6], vec![3, 4]]);
    for n in 0..Diff::diff(&old, &new).len() {
        assert_eq!(broken_off(&old, &new, n), cut_off(&old, &new, n));
    }
}

#[test]
fn failure_leaves_a_terminal_value_alone() {
    assert_eq!(broken_off(&1i32, &2i32, 0), 1);
}

#[test]
fn failure_while_skipping() {
    let deep = Diff::diff(&vec![vec![1, 2]], &vec![vec![1, 3]]);
    let mut source = Broken { reader: CommandReader::new(deep), left: 2 };
    let mut target: Vec<Vec<i32>> = vec![];
    assert!(matches!(Apply::apply(&mut source, &mut target), Err(ApplyError::Source(Lost))));
    assert!(target.is_empty());
}
