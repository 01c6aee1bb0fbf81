use struct_diff::{DiffCommandRef, DiffCommandValue, DiffContext, DiffPathElementValue, Value};

fn shown(ctx: DiffContext) -> String {
    format!("{:?}", ctx.into_commands())
}

fn exits(n: usize) -> String {
    let commands: Vec<DiffCommandValue<'static, Value>> =
        (0..n).map(|_| DiffCommandValue::Exit).collect();
    format!("{:?}", commands)
}

#[test]
fn push_and_pop_write_nothing() {
    let mut ctx = DiffContext::new();
    ctx.push_field("a");
    ctx.push_collection_index(3);
    ctx.push_collection_add();
    ctx.pop_path_element();
    ctx.pop_path_element();
    ctx.pop_path_element();
    assert_eq!(shown(ctx), exits(0));
}

#[test]
fn pop_without_push_writes_an_exit() {
    let mut ctx = DiffContext::new();
    ctx.pop_path_element();
    ctx.pop_path_element();
    assert_eq!(shown(ctx), exits(2));
}

#[test]
fn value_is_an_implicit_exit() {
    let mut ctx = DiffContext::new();
    ctx.save_value(&7u8);
    ctx.pop_path_element();
    let one = shown(ctx);
    let mut ctx = DiffContext::new();
    ctx.save_value(&7u8);
    assert_eq!(one, shown(ctx));
}

#[test]
fn only_one_exit_is_implicit() {
    let mut ctx = DiffContext::new();
    ctx.push_field("a");
    ctx.push_field("b");
    ctx.save_value(&true);
    ctx.pop_path_element();
    ctx.pop_path_element();
    let commands = ctx.into_commands();
    assert_eq!(commands.len(), 4);
    assert!(matches!(commands[0], DiffCommandValue::Enter(DiffPathElementValue::Field(_))));
    assert!(matches!(commands[1], DiffCommandValue::Enter(DiffPathElementValue::Field(_))));
    assert!(matches!(commands[2], DiffCommandValue::Value(_)));
    assert!(matches!(commands[3], DiffCommandValue::Exit));
}

#[test]
fn command_says_whether_it_is_an_exit() {
    let mut ctx = DiffContext::new();
    ctx.push_collection_index(4);
    ctx.save_command::<()>(&DiffCommandRef::Remove(2), false);
    ctx.pop_path_element();
    let commands = ctx.into_commands();
    assert_eq!(commands.len(), 3);
    assert!(matches!(
        commands[0],
        DiffCommandValue::Enter(DiffPathElementValue::CollectionIndex(4))
    ));
    assert!(matches!(commands[1], DiffCommandValue::Remove(2)));
    assert!(matches!(commands[2], DiffCommandValue::Exit));

    let mut ctx = DiffContext::new();
    ctx.push_collection_index(4);
    ctx.save_command::<()>(&DiffCommandRef::Remove(2), true);
    ctx.pop_path_element();
    assert_eq!(ctx.into_commands().len(), 2);
}

#[test]
fn every_command_is_kept_as_it_is() {
    let mut ctx = DiffContext::new();
    ctx.save_command::<()>(&DiffCommandRef::Enter(DiffPathElementValue::AddToCollection), false);
    ctx.save_command(&DiffCommandRef::Value(&"text".to_string()), true);
    ctx.save_command::<()>(&DiffCommandRef::Exit, true);
    ctx.save_command::<()>(
        &DiffCommandRef::Enter(DiffPathElementValue::Field(std::borrow::Cow::Owned(
            "name".to_string(),
        ))),
        false,
    );
    let commands = ctx.into_commands();
    assert!(matches!(
        commands[0],
        DiffCommandValue::Enter(DiffPathElementValue::AddToCollection)
    ));
    assert!(matches!(&commands[1], DiffCommandValue::Value(Value::Str(s)) if s == "text"));
    assert!(matches!(commands[2], DiffCommandValue::Exit));
    assert!(matches!(
        &commands[3],
        DiffCommandValue::Enter(DiffPathElementValue::Field(name)) if name == "name"
    ));
}
