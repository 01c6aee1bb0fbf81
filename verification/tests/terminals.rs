use struct_diff::terminal::diff_whole;
use struct_diff::{
    ApplyContext, ApplyError, CommandReader, Datum, Diff, DiffCommandValue, DiffContext,
    DiffPathElementValue, Fault, Kind, ScalarKind, SerdeDiffable, Terminal, Value,
};

type Command = DiffCommandValue<'static, Value>;

fn round_trip<T: Terminal + Clone + PartialEq + std::fmt::Debug>(old: T, new: T) {
    assert!(old.same(&old.clone()));
    assert!(!old.same(&new));
    assert_eq!(Diff::diff(&old, &old.clone()).len(), 0);
    let commands = Diff::diff(&old, &new);
    assert_eq!(commands.len(), 1);
    assert!(matches!(commands[0], DiffCommandValue::Value(_)));
    let mut target = old;
    let mut reader = CommandReader::new(commands);
    let result = target.apply(&mut reader, &mut ApplyContext {});
    assert!(matches!(result, Ok(true)));
    assert_eq!(target, new);
    assert_eq!(T::from_value(&new.to_value()), Some(new));
}

fn read(commands: Vec<Command>) -> (i32, Result<bool, Fault>, usize) {
    let mut target = 1;
    let mut reader = CommandReader::new(commands);
    let mut ctx = ApplyContext {};
    let result = match ctx.read_value(&mut reader, &mut target) {
        Ok(changed) => Ok(changed),
        Err(ApplyError::Protocol(fault)) => Err(fault),
        Err(ApplyError::Source(_)) => panic!("unreadable"),
    };
    (target, result, reader.remaining())
}

fn add() -> Command {
    DiffCommandValue::Enter(DiffPathElementValue::AddToCollection)
}

#[test]
fn every_primitive_type() {
    round_trip(false, true);
    round_trip(-1isize, 1);
    round_trip(i8::MIN, i8::MAX);
    round_trip(i16::MIN, i16::MAX);
    round_trip(i32::MIN, i32::MAX);
    round_trip(i64::MIN, i64::MAX);
    round_trip(i128::MIN, i128::MAX);
    round_trip(0usize, usize::MAX);
    round_trip(0u8, u8::MAX);
    round_trip(0u16, u16::MAX);
    round_trip(0u32, u32::MAX);
    round_trip(0u64, u64::MAX);
    round_trip(0u128, u128::MAX);
    round_trip('a', '\u{10ffff}');
    round_trip("old".to_string(), "".to_string());
}

#[test]
fn unit_never_changes() {
    assert_eq!(Diff::diff(&(), &()).len(), 0);
    assert!(().same(&()));
    assert_eq!(<()>::from_value(&().to_value()), Some(()));
}

#[test]
fn values_are_read_as_their_own_type_only() {
    assert_eq!(i32::from_value(&5u32.to_value()), None);
    assert_eq!(u8::from_value(&5i8.to_value()), None);
    assert_eq!(String::from_value(&'c'.to_value()), None);
    assert_eq!(<()>::from_value(&false.to_value()), None);
    assert_eq!(<Vec<u8>>::from_value(&vec![1u16].to_value()), None);
    assert_eq!(<Vec<u8>>::from_value(&vec![1u8, 2].to_value()), Some(vec![1u8, 2]));
}

#[test]
fn kinds() {
    assert!(matches!(bool::kind(), Kind::Scalar(ScalarKind::Bool)));
    assert!(matches!(usize::kind(), Kind::Scalar(ScalarKind::Usize)));
    assert!(matches!(<()>::kind(), Kind::Scalar(ScalarKind::Unit)));
    assert!(matches!(String::kind(), Kind::Str));
    match <Vec<char>>::kind() {
        Kind::List(item) => assert!(matches!(*item, Kind::Scalar(ScalarKind::Char))),
        _ => panic!(),
    }
}

#[test]
fn read_value_without_commands() {
    assert_eq!(read(vec![]), (1, Ok(false), 0));
}

#[test]
fn read_value_skips_a_path() {
    let commands = vec![
        add(),
        add(),
        DiffCommandValue::Exit,
        DiffCommandValue::Remove(1),
        DiffCommandValue::Exit,
    ];
    assert_eq!(read(commands), (1, Ok(false), 1));
    assert_eq!(read(vec![add()]), (1, Err(Fault::MismatchedEnterExit), 0));
}

#[test]
fn read_value_passes_over_a_removal() {
    assert_eq!(
        read(vec![DiffCommandValue::Remove(1), DiffCommandValue::Exit]),
        (1, Ok(false), 1)
    );
}

#[test]
fn read_value_at_an_exit() {
    assert_eq!(read(vec![DiffCommandValue::Exit]), (1, Err(Fault::UnexpectedExit), 0));
}

#[test]
fn read_value_of_another_type() {
    for command in [
        DiffCommandValue::Value(5u8.to_value()),
        DiffCommandValue::Nothing,
        DiffCommandValue::DeserializedValue,
    ] {
        let mut target = 1i32;
        let mut reader = CommandReader::new(vec![command]);
        let result = target.apply(&mut reader, &mut ApplyContext {});
        assert!(matches!(result, Err(ApplyError::Source(_))));
        assert_eq!(target, 1);
        assert_eq!(reader.remaining(), 0);
    }
}

#[test]
fn next_command() {
    let mut ctx = ApplyContext {};
    let commands = vec![
        DiffCommandValue::Value(5u8.to_value()),
        DiffCommandValue::Remove(3),
        add(),
        DiffCommandValue::Exit,
        DiffCommandValue::Nothing,
        DiffCommandValue::Value('x'.to_value()),
    ];
    let mut reader = CommandReader::new(commands);
    let mut next = || ctx.read_next_command::<_, u8>(&mut reader);
    assert!(matches!(next(), Ok(Some(DiffCommandValue::Value(5)))));
    assert!(matches!(next(), Ok(Some(DiffCommandValue::Remove(3)))));
    assert!(matches!(
        next(),
        Ok(Some(DiffCommandValue::Enter(DiffPathElementValue::AddToCollection)))
    ));
    assert!(matches!(next(), Ok(Some(DiffCommandValue::Exit))));
    assert!(matches!(next(), Ok(None)));
    assert!(next().is_err());
    assert!(matches!(next(), Ok(None)));
}

#[test]
fn comparison_made_elsewhere() {
    let mut ctx = DiffContext::new();
    ctx.push_field("f");
    assert!(!diff_whole(&mut ctx, false, &1i32));
    assert!(diff_whole(&mut ctx, true, &1i32));
    assert_eq!(ctx.into_commands().len(), 2);
}

#[test]
fn messages_of_faults() {
    assert_eq!(Fault::UnexpectedRemove.message(), "unexpected DiffCommand Value or Remove");
    assert_eq!(Fault::MismatchedEnterExit.message(), "mismatched DiffCommand::Enter/Exit ");
    assert_eq!(Fault::UnexpectedExit.message(), "unexpected Exit command");
    assert_eq!(Fault::ExpectedValue.message(), "Expected value after AddToCollection");
    assert_eq!(Fault::TooDeep.message(), "attempt to add with overflow");
}
