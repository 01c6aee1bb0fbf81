use struct_diff::variant::{DiffCommandField, DiffCommandFieldVisitor, VariantError};
use struct_diff::{DiffCommandValue, DiffPathElementValue};

const FIELDS: [DiffCommandField; 4] = [
    DiffCommandField::Enter,
    DiffCommandField::Value,
    DiffCommandField::Remove,
    DiffCommandField::Exit,
];

#[test]
fn variants_by_place_name_and_bytes() {
    let names = ["Enter", "Value", "Remove", "Exit"];
    for (i, field) in FIELDS.iter().enumerate() {
        assert_eq!(field.variant_index(), i as u32);
        assert_eq!(field.variant_name(), names[i]);
        assert_eq!(DiffCommandFieldVisitor.visit_u64(i as u64).unwrap(), *field);
        assert_eq!(DiffCommandFieldVisitor.visit_str(names[i]).unwrap(), *field);
        assert_eq!(DiffCommandFieldVisitor.visit_bytes(names[i].as_bytes()).unwrap(), *field);
    }
}

#[test]
fn unknown_place() {
    for place in [4, 5, u64::MAX] {
        match DiffCommandFieldVisitor.visit_u64(place) {
            Err(VariantError::InvalidIndex(i)) => assert_eq!(i, place),
            _ => panic!(),
        }
    }
}

#[test]
fn unknown_name() {
    for name in ["", "enter", "Ente", "Entered", "Nothing", "Öffne"] {
        match DiffCommandFieldVisitor.visit_str(name) {
            Err(VariantError::UnknownVariant(text)) => assert_eq!(text, name),
            _ => panic!(),
        }
    }
}

#[test]
fn unknown_bytes() {
    match DiffCommandFieldVisitor.visit_bytes("Öffne".as_bytes()) {
        Err(VariantError::UnknownVariant(text)) => assert_eq!(text, "Öffne"),
        _ => panic!(),
    }
    match DiffCommandFieldVisitor.visit_bytes(b"Ex\xffit") {
        Err(VariantError::UnknownVariant(text)) => assert_eq!(text, "Ex\u{fffd}it"),
        _ => panic!(),
    }
}

#[test]
fn fields_of_commands() {
    let enter: DiffCommandValue<'static, u8> =
        DiffCommandValue::Enter(DiffPathElementValue::AddToCollection);
    assert_eq!(enter.field(), Some(DiffCommandField::Enter));
    assert_eq!(DiffCommandValue::Value(1u8).field(), Some(DiffCommandField::Value));
    let remove: DiffCommandValue<'static, u8> = DiffCommandValue::Remove(1);
    assert_eq!(remove.field(), Some(DiffCommandField::Remove));
    let exit: DiffCommandValue<'static, u8> = DiffCommandValue::Exit;
    assert_eq!(exit.field(), Some(DiffCommandField::Exit));
    let nothing: DiffCommandValue<'static, u8> = DiffCommandValue::Nothing;
    assert_eq!(nothing.field(), None);
    let done: DiffCommandValue<'static, u8> = DiffCommandValue::DeserializedValue;
    assert_eq!(done.field(), None);
}
