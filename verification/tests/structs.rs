use std::borrow::Cow;

use struct_diff::apply::Applied;
use struct_diff::command::{CommandCount, CommandSeq};
use struct_diff::value::ValueView;
use struct_diff::{
    ApplyContext, ApplyError, CommandReader, CommandSource, Datum, Diff, DiffCommandValue,
    DiffContext, DiffPathElementValue, Fault, Fields, FieldsKind, Kind, Modeled, Scalar,
    SerdeDiffable, Value,
};

type Command = DiffCommandValue<'static, Value>;

#[derive(Clone, Debug, PartialEq)]
struct Inner {
    x: i32,
    tags: Vec<String>,
}

#[derive(Clone, Debug, PartialEq)]
struct Outer {
    a: i32,
    c: Inner,
    list: Vec<Inner>,
    z: bool,
}

const INNER_FIELDS: &'static [&'static str] = &["x", "tags"];

// Only proofs speak of these.
impl Modeled for Inner {
    fn model(&self) -> ValueView {
        panic!()
    }
}

impl Modeled for Outer {
    fn model(&self) -> ValueView {
        panic!()
    }
}

impl SerdeDiffable for Inner {
    fn differs(_: ValueView, _: ValueView) -> bool {
        panic!()
    }
    fn body(_: ValueView, _: ValueView) -> CommandSeq {
        panic!()
    }
    fn closed(_: ValueView, _: ValueView) -> bool {
        panic!()
    }
    fn applied(_: ValueView, _: CommandSeq) -> Applied {
        panic!()
    }
    fn lemma_applied_consumes(_: ValueView, _: CommandSeq) {}
    fn lemma_applied_local(_: ValueView, _: CommandSeq, _: CommandCount) {}

    fn diff(&self, ctx: &mut DiffContext, other: &Self) -> bool {
        let mut changed = false;
        ctx.push_field("x");
        changed |= self.x.diff(ctx, &other.x);
        ctx.pop_path_element();
        ctx.push_field("tags");
        changed |= self.tags.diff(ctx, &other.tags);
        ctx.pop_path_element();
        changed
    }

    fn apply<'de, A: CommandSource<'de>>(
        &mut self,
        seq: &mut A,
        ctx: &mut ApplyContext,
    ) -> Result<bool, ApplyError<A::Error>> {
        let mut changed = false;
        while let Some(element) = ctx.next_path_element(seq)? {
            match element {
                DiffPathElementValue::Field(name) if name == "x" => {
                    changed |= self.x.apply(seq, ctx)?
                }
                DiffPathElementValue::Field(name) if name == "tags" => {
                    changed |= self.tags.apply(seq, ctx)?
                }
                _ => ctx.skip_value(seq)?,
            }
        }
        Ok(changed)
    }
}

impl Datum for Inner {
    fn valid(_: ValueView) -> bool {
        panic!()
    }
    fn lemma_model_valid(&self) {}

    fn kind() -> Kind {
        Kind::Record(
            "Inner",
            FieldsKind::Named(INNER_FIELDS, vec![i32::kind(), <Vec<String>>::kind()]),
        )
    }

    fn to_value(&self) -> Value {
        Value::Record(
            "Inner",
            Fields::Named(INNER_FIELDS, vec![self.x.to_value(), self.tags.to_value()]),
        )
    }

    fn from_value(value: &Value) -> Option<Self> {
        match value {
            Value::Record("Inner", Fields::Named(_, parts)) if parts.len() == 2 => Some(Inner {
                x: i32::from_value(&parts[0])?,
                tags: <Vec<String>>::from_value(&parts[1])?,
            }),
            _ => None,
        }
    }
}

impl SerdeDiffable for Outer {
    fn differs(_: ValueView, _: ValueView) -> bool {
        panic!()
    }
    fn body(_: ValueView, _: ValueView) -> CommandSeq {
        panic!()
    }
    fn closed(_: ValueView, _: ValueView) -> bool {
        panic!()
    }
    fn applied(_: ValueView, _: CommandSeq) -> Applied {
        panic!()
    }
    fn lemma_applied_consumes(_: ValueView, _: CommandSeq) {}
    fn lemma_applied_local(_: ValueView, _: CommandSeq, _: CommandCount) {}

    fn diff(&self, ctx: &mut DiffContext, other: &Self) -> bool {
        let mut changed = false;
        ctx.push_field("a");
        changed |= self.a.diff(ctx, &other.a);
        ctx.pop_path_element();
        ctx.push_field("c");
        changed |= self.c.diff(ctx, &other.c);
        ctx.pop_path_element();
        ctx.push_field("list");
        changed |= self.list.diff(ctx, &other.list);
        ctx.pop_path_element();
        ctx.push_field("z");
        changed |= self.z.diff(ctx, &other.z);
        ctx.pop_path_element();
        changed
    }

    fn apply<'de, A: CommandSource<'de>>(
        &mut self,
        seq: &mut A,
        ctx: &mut ApplyContext,
    ) -> Result<bool, ApplyError<A::Error>> {
        let mut changed = false;
        while let Some(element) = ctx.next_path_element(seq)? {
            match element {
                DiffPathElementValue::Field(name) if name == "a" => {
                    changed |= self.a.apply(seq, ctx)?
                }
                DiffPathElementValue::Field(name) if name == "c" => {
                    changed |= self.c.apply(seq, ctx)?
                }
                DiffPathElementValue::Field(name) if name == "list" => {
                    changed |= self.list.apply(seq, ctx)?
                }
                DiffPathElementValue::Field(name) if name == "z" => {
                    changed |= self.z.apply(seq, ctx)?
                }
                _ => ctx.skip_value(seq)?,
            }
        }
        Ok(changed)
    }
}

fn inner(x: i32, tags: &[&str]) -> Inner {
    Inner { x, tags: tags.iter().map(|t| t.to_string()).collect() }
}

fn outer() -> Outer {
    Outer { a: 1, c: inner(2, &["p"]), list: vec![inner(10, &[]), inner(20, &["q"])], z: false }
}

fn field(name: &'static str) -> Command {
    DiffCommandValue::Enter(DiffPathElementValue::Field(Cow::Borrowed(name)))
}

fn number(n: i32) -> Command {
    DiffCommandValue::Value(Value::Scalar(Scalar::I32(n)))
}

fn shown(commands: &[Command]) -> String {
    format!("{:?}", commands)
}

fn applied(mut target: Outer, commands: Vec<Command>) -> (Outer, Result<bool, Fault>, usize) {
    let mut reader = CommandReader::new(commands);
    let result = match target.apply(&mut reader, &mut ApplyContext {}) {
        Ok(changed) => Ok(changed),
        Err(ApplyError::Protocol(fault)) => Err(fault),
        Err(ApplyError::Source(_)) => panic!("unreadable"),
    };
    (target, result, reader.remaining())
}

#[test]
fn command_list_of_nested_fields() {
    let mut new = outer();
    new.a = 3;
    new.c.x = 39;
    let commands = Diff::diff(&outer(), &new);
    assert_eq!(
        shown(&commands),
        shown(&[
            field("a"),
            number(3),
            field("c"),
            field("x"),
            number(39),
            DiffCommandValue::Exit,
        ])
    );
    assert_eq!(applied(outer(), commands), (new, Ok(true), 0));
}

#[test]
fn command_list_without_the_last_exit() {
    let commands = vec![field("a"), number(3), field("c"), field("x"), number(39)];
    let mut new = outer();
    new.a = 3;
    new.c.x = 39;
    assert_eq!(applied(outer(), commands), (new, Ok(true), 0));
}

#[test]
fn struct_round_trip() {
    let new = Outer {
        a: 1,
        c: inner(7, &["p", "r"]),
        list: vec![inner(10, &["s"]), inner(20, &["q"]), inner(30, &["t", "u"])],
        z: true,
    };
    let commands = Diff::diff(&outer(), &new);
    assert_eq!(applied(outer(), commands), (new, Ok(true), 0));
}

#[test]
fn equal_structs_have_no_difference() {
    let commands = Diff::diff(&outer(), &outer());
    assert_eq!(commands.len(), 0);
    assert_eq!(applied(outer(), commands), (outer(), Ok(false), 0));
}

#[test]
fn removed_item_of_a_field() {
    let mut new = outer();
    new.list.truncate(1);
    new.z = true;
    let commands = Diff::diff(&outer(), &new);
    assert_eq!(
        shown(&commands),
        shown(&[
            field("list"),
            DiffCommandValue::Remove(1),
            field("z"),
            DiffCommandValue::Value(Value::Scalar(Scalar::Bool(true))),
        ])
    );
    assert_eq!(applied(outer(), commands), (new, Ok(true), 0));
}

#[test]
fn unknown_field_is_skipped() {
    let mut commands = vec![field("gone"), field("deep"), number(1), DiffCommandValue::Remove(2)];
    commands.push(field("a"));
    commands.push(number(5));
    let mut new = outer();
    new.a = 5;
    assert_eq!(applied(outer(), commands), (new, Ok(true), 0));
}

#[test]
fn skipping_a_part_leaves_what_follows_it() {
    let mut new = outer();
    new.list[0].x = 11;
    new.list.push(inner(30, &[]));
    let mut commands = Diff::diff(&outer(), &new);
    commands.push(field("z"));
    let mut reader = CommandReader::new(commands);
    let mut ctx = ApplyContext {};
    let element = ctx.next_path_element(&mut reader);
    assert!(matches!(element, Ok(Some(DiffPathElementValue::Field(_)))));
    assert!(ctx.skip_value(&mut reader).is_ok());
    assert_eq!(reader.remaining(), 1);
}

#[test]
fn value_or_exit_in_place_of_a_field() {
    let mut ctx = ApplyContext {};
    let mut reader = CommandReader::new(vec![number(3), DiffCommandValue::Exit, field("a")]);
    assert!(matches!(ctx.next_path_element(&mut reader), Ok(None)));
    assert_eq!(reader.remaining(), 2);
    assert!(matches!(ctx.next_path_element(&mut reader), Ok(None)));
    assert!(matches!(ctx.next_path_element(&mut reader), Ok(Some(_))));
    assert!(matches!(ctx.next_path_element(&mut reader), Ok(None)));
    assert_eq!(applied(outer(), vec![number(3), field("a")]), (outer(), Ok(false), 1));
}

#[test]
fn removal_in_place_of_a_field() {
    assert_eq!(
        applied(outer(), vec![DiffCommandValue::Remove(1), field("a")]),
        (outer(), Err(Fault::UnexpectedRemove), 1)
    );
}

#[test]
fn struct_as_a_plain_value() {
    let value = inner(4, &["k"]).to_value();
    assert_eq!(Inner::from_value(&value), Some(inner(4, &["k"])));
    assert_eq!(Inner::from_value(&4i32.to_value()), None);
    assert!(matches!(Inner::kind(), Kind::Record("Inner", FieldsKind::Named(_, _))));
}
