use struct_diff::{
    Apply, ApplyContext, ApplyError, CommandReader, Diff, DiffCommandValue, DiffPathElementValue,
    Fault, Scalar, SerdeDiffable, Value,
};

type Command = DiffCommandValue<'static, Value>;

fn index(i: usize) -> Command {
    DiffCommandValue::Enter(DiffPathElementValue::CollectionIndex(i))
}

fn add() -> Command {
    DiffCommandValue::Enter(DiffPathElementValue::AddToCollection)
}

fn field(name: &'static str) -> Command {
    DiffCommandValue::Enter(DiffPathElementValue::Field(std::borrow::Cow::Borrowed(name)))
}

fn number(n: i32) -> Command {
    DiffCommandValue::Value(Value::Scalar(Scalar::I32(n)))
}

fn numbers(items: &[i32]) -> Command {
    DiffCommandValue::Value(Value::List(
        items.iter().map(|n| Value::Scalar(Scalar::I32(*n))).collect(),
    ))
}

fn remove(n: usize) -> Command {
    DiffCommandValue::Remove(n)
}

fn exit() -> Command {
    DiffCommandValue::Exit
}

fn shown(commands: &[Command]) -> String {
    format!("{:?}", commands)
}

/// The target, whether anything changed, and how many commands were not read.
fn applied<T: SerdeDiffable>(
    mut target: T,
    commands: Vec<Command>,
) -> (T, Result<bool, Fault>, usize) {
    let mut reader = CommandReader::new(commands);
    let result = match target.apply(&mut reader, &mut ApplyContext {}) {
        Ok(changed) => Ok(changed),
        Err(ApplyError::Protocol(fault)) => Err(fault),
        Err(ApplyError::Source(_)) => panic!("unreadable"),
    };
    (target, result, reader.remaining())
}

fn unreadable<T: SerdeDiffable>(mut target: T, commands: Vec<Command>) -> (T, usize) {
    let mut reader = CommandReader::new(commands);
    let result = target.apply(&mut reader, &mut ApplyContext {});
    assert!(matches!(result, Err(ApplyError::Source(_))));
    (target, reader.remaining())
}

#[test]
fn equal_lists_have_no_difference() {
    let list: Vec<i32> = vec![1, 2, 3];
    assert_eq!(Diff::diff(&list, &list.clone()).len(), 0);
    let empty: Vec<i32> = vec![];
    assert_eq!(Diff::diff(&empty, &vec![]).len(), 0);
}

#[test]
fn changed_item() {
    let (old, new) = (vec![1, 2, 3], vec![1, 5, 3]);
    let commands = Diff::diff(&old, &new);
    assert_eq!(shown(&commands), shown(&[index(1), number(5), exit()]));
    assert_eq!(applied(old, commands), (new, Ok(true), 0));
}

#[test]
fn grown_list() {
    let (old, new) = (vec![1], vec![1, 2, 3]);
    let commands = Diff::diff(&old, &new);
    assert_eq!(shown(&commands), shown(&[add(), number(2), add(), number(3), exit()]));
    assert_eq!(applied(old, commands), (new, Ok(true), 0));
}

#[test]
fn shrunk_list() {
    let (old, new) = (vec![1, 2, 3], vec![1]);
    let commands = Diff::diff(&old, &new);
    assert_eq!(shown(&commands), shown(&[remove(2)]));
    assert_eq!(applied(old, commands), (new, Ok(true), 0));
}

#[test]
fn emptied_list() {
    let (old, new): (Vec<i32>, Vec<i32>) = (vec![1, 2, 3], vec![]);
    let commands = Diff::diff(&old, &new);
    assert_eq!(shown(&commands), shown(&[remove(3)]));
    assert_eq!(applied(old, commands), (new, Ok(true), 0));
}

#[test]
fn changed_and_grown_list() {
    let (old, new) = (vec![1, 2], vec![9, 2, 4]);
    let commands = Diff::diff(&old, &new);
    assert_eq!(shown(&commands), shown(&[index(0), number(9), add(), number(4), exit()]));
    assert_eq!(applied(old, commands), (new, Ok(true), 0));
}

#[test]
fn changed_and_shrunk_list() {
    let (old, new) = (vec![1, 2, 3], vec![5]);
    let commands = Diff::diff(&old, &new);
    assert_eq!(shown(&commands), shown(&[index(0), number(5), remove(2)]));
    assert_eq!(applied(old, commands), (new, Ok(true), 0));
}

#[test]
fn nested_lists() {
    let old = vec![vec![1, 2], vec![3], vec![]];
    let new = vec![vec![1, 7], vec![3], vec![4], vec![5, 6]];
    let commands = Diff::diff(&old, &new);
    assert_eq!(
        shown(&commands),
        shown(&[
            index(0),
            index(1),
            number(7),
            exit(),
            index(2),
            add(),
            number(4),
            exit(),
            add(),
            numbers(&[5, 6]),
            exit(),
        ])
    );
    assert_eq!(applied(old, commands), (new, Ok(true), 0));
}

#[test]
fn items_that_shrink_and_change() {
    let (old, new) = (vec![vec![1, 2, 3], vec![4]], vec![vec![9], vec![5]]);
    let commands = Diff::diff(&old, &new);
    assert_eq!(
        shown(&commands),
        shown(&[index(0), index(0), number(9), remove(2), index(1), index(0), number(5), exit(), exit()])
    );
    assert_eq!(applied(old, commands), (new, Ok(true), 0));
    let (old, new) = (vec![vec![3], vec![1, 2]], vec![vec![4], vec![5]]);
    let commands = Diff::diff(&old, &new);
    assert_eq!(applied(old, commands), (new, Ok(true), 0));
}

#[test]
fn round_trips_of_nested_lists() {
    let inner: Vec<Vec<u8>> = vec![vec![], vec![0], vec![1, 0], vec![0, 1, 1]];
    let mut lists: Vec<Vec<Vec<u8>>> = vec![vec![]];
    for a in &inner {
        lists.push(vec![a.clone()]);
        for b in &inner {
            lists.push(vec![a.clone(), b.clone()]);
            lists.push(vec![b.clone(), a.clone(), b.clone()]);
        }
    }
    for old in &lists {
        for new in &lists {
            let deep_old = vec![old.clone(), new.clone(), old.clone()];
            let deep_new = vec![new.clone(), old.clone(), new.clone()];
            let commands = Diff::diff(&deep_old, &deep_new);
            let changed = old != new;
            assert_eq!(applied(deep_old, commands), (deep_new, Ok(changed), 0));
        }
    }
}

#[test]
fn round_trips_of_many_lists() {
    let lists: Vec<Vec<u8>> = vec![
        vec![],
        vec![0],
        vec![1],
        vec![0, 1],
        vec![1, 0],
        vec![1, 1, 2],
        vec![0, 1, 2, 3],
        vec![3, 2, 1, 0, 0],
    ];
    for old in &lists {
        for new in &lists {
            let mut target = old.clone();
            let mut reader = CommandReader::new(Diff::serializable(old, new).serialize());
            assert!(Apply::apply(&mut reader, &mut target).is_ok());
            assert_eq!(&target, new);
            let mut target = old.clone();
            let mut reader = CommandReader::new(Diff::diff(old, new));
            assert!(Apply::deserializable(&mut target).visit_seq(&mut reader).is_ok());
            assert_eq!(&target, new);
        }
    }
}

#[test]
fn no_commands_change_nothing() {
    assert_eq!(applied(vec![1, 2], vec![]), (vec![1, 2], Ok(false), 0));
}

#[test]
fn index_past_the_end_is_skipped() {
    let commands = vec![index(7), index(0), number(3), exit(), index(0), number(9), exit(), number(1)];
    assert_eq!(applied(vec![1, 2], commands), (vec![9, 2], Ok(true), 1));
}

#[test]
fn field_ends_a_list() {
    let commands = vec![field("a"), number(3), index(0), number(9), exit()];
    assert_eq!(applied(vec![1, 2], commands), (vec![1, 2], Ok(false), 3));
}

#[test]
fn value_without_an_index_is_added() {
    assert_eq!(applied(vec![1], vec![number(7)]), (vec![1, 7], Ok(true), 0));
    let commands = vec![number(7), index(0), number(9), exit()];
    assert_eq!(applied(vec![1], commands), (vec![1, 7], Ok(true), 3));
    let commands = vec![index(0), number(9), number(7), exit()];
    assert_eq!(applied(vec![1], commands), (vec![9, 7], Ok(true), 1));
}

#[test]
fn commands_that_are_never_written_end_a_list() {
    let commands = vec![DiffCommandValue::Nothing, index(0)];
    assert_eq!(applied(vec![1, 2], commands), (vec![1, 2], Ok(false), 1));
    let commands = vec![DiffCommandValue::DeserializedValue];
    assert_eq!(applied(vec![1, 2], commands), (vec![1, 2], Ok(false), 0));
}

#[test]
fn removal_of_more_items_than_there_are() {
    assert_eq!(applied(vec![1, 2], vec![remove(5)]), (vec![], Ok(true), 0));
    assert_eq!(applied(vec![1, 2], vec![remove(0)]), (vec![1, 2], Ok(true), 0));
}

#[test]
fn addition_without_a_value() {
    assert_eq!(applied(vec![1], vec![add()]), (vec![1], Err(Fault::ExpectedValue), 0));
    assert_eq!(applied(vec![1], vec![add(), exit()]), (vec![1], Err(Fault::ExpectedValue), 0));
    assert_eq!(
        applied(vec![1], vec![add(), DiffCommandValue::Nothing, exit()]),
        (vec![1], Err(Fault::ExpectedValue), 1)
    );
}

#[test]
fn stream_that_ends_while_skipping() {
    assert_eq!(
        applied(vec![1], vec![index(4), index(0), number(2)]),
        (vec![1], Err(Fault::MismatchedEnterExit), 0)
    );
    assert_eq!(
        applied(vec![1], vec![field("a")]),
        (vec![1], Err(Fault::MismatchedEnterExit), 0)
    );
}

#[test]
fn earlier_items_stay_changed_when_a_later_one_fails() {
    assert_eq!(
        applied(vec![1, 2], vec![index(0), number(7), index(1), exit()]),
        (vec![7, 2], Err(Fault::UnexpectedExit), 0)
    );
}

#[test]
fn values_of_another_type_are_unreadable() {
    let text = DiffCommandValue::Value(Value::Str("no".to_string()));
    assert_eq!(unreadable(vec![1, 2], vec![index(1), text, exit()]), (vec![1, 2], 1));
    assert_eq!(unreadable(vec![vec![1]], vec![add(), number(3)]), (vec![vec![1]], 0));
    assert_eq!(unreadable(vec![1, 2], vec![numbers(&[3])]), (vec![1, 2], 0));
    let commands = vec![index(5), DiffCommandValue::Nothing, exit()];
    assert_eq!(unreadable(vec![1, 2], commands), (vec![1, 2], 1));
}
