use struct_diff::value::ValueView;
use struct_diff::{
    Apply, CommandReader, Datum, Diff, DiffCommandValue, Fields, FieldsKind, Kind, Modeled,
    Terminal, Value,
};

#[derive(Clone, Debug, PartialEq)]
enum Shape {
    Empty,
    Circle(u32),
    Line(i8, Option<i8>),
    Named { label: String, data: Vec<u8>, sizes: Vec<(char, bool)> },
}

const VARIANTS: &'static [&'static str] = &["Empty", "Circle", "Line", "Named"];
const NAMED: &'static [&'static str] = &["label", "data", "sizes"];

// Only proofs speak of these.
impl Modeled for Shape {
    fn model(&self) -> ValueView {
        panic!()
    }
}

impl Datum for Shape {
    fn valid(_: ValueView) -> bool {
        panic!()
    }
    fn lemma_model_valid(&self) {}

    fn kind() -> Kind {
        Kind::Enum(
            "Shape",
            VARIANTS,
            vec![
                FieldsKind::Unit,
                FieldsKind::Newtype(Box::new(u32::kind())),
                FieldsKind::Tuple(vec![i8::kind(), Kind::Option(Box::new(i8::kind()))]),
                FieldsKind::Named(
                    NAMED,
                    vec![
                        String::kind(),
                        Kind::Bytes,
                        Kind::Entries(Box::new(char::kind()), Box::new(bool::kind())),
                    ],
                ),
            ],
        )
    }

    fn to_value(&self) -> Value {
        let (place, fields) = match self {
            Shape::Empty => (0, Fields::Unit),
            Shape::Circle(r) => (1, Fields::Newtype(Box::new(r.to_value()))),
            Shape::Line(from, to) => {
                let to = Value::Option(to.as_ref().map(|t| Box::new(t.to_value())));
                (2, Fields::Tuple(vec![from.to_value(), to]))
            }
            Shape::Named { label, data, sizes } => {
                let sizes = sizes.iter().map(|(k, v)| (k.to_value(), v.to_value())).collect();
                let parts =
                    vec![label.to_value(), Value::Bytes(data.clone()), Value::Entries(sizes)];
                (3, Fields::Named(NAMED, parts))
            }
        };
        Value::Variant("Shape", VARIANTS, place, fields)
    }

    fn from_value(value: &Value) -> Option<Self> {
        match value {
            Value::Variant("Shape", _, 0, Fields::Unit) => Some(Shape::Empty),
            Value::Variant("Shape", _, 1, Fields::Newtype(r)) => {
                Some(Shape::Circle(u32::from_value(r)?))
            }
            Value::Variant("Shape", _, 2, Fields::Tuple(parts)) => match &parts[..] {
                [from, Value::Option(to)] => {
                    let to = match to {
                        Some(t) => Some(i8::from_value(t)?),
                        None => None,
                    };
                    Some(Shape::Line(i8::from_value(from)?, to))
                }
                _ => None,
            },
            Value::Variant("Shape", _, 3, Fields::Named(_, parts)) => match &parts[..] {
                [label, Value::Bytes(data), Value::Entries(entries)] => {
                    let mut sizes = Vec::new();
                    for (k, v) in entries {
                        sizes.push((char::from_value(k)?, bool::from_value(v)?));
                    }
                    Some(Shape::Named {
                        label: String::from_value(label)?,
                        data: data.clone(),
                        sizes,
                    })
                }
                _ => None,
            },
            _ => None,
        }
    }
}

impl Terminal for Shape {
    fn same(&self, other: &Self) -> bool {
        self == other
    }
}

fn shapes() -> Vec<Shape> {
    vec![
        Shape::Empty,
        Shape::Circle(4),
        Shape::Line(-1, None),
        Shape::Line(-1, Some(2)),
        Shape::Named {
            label: "n".to_string(),
            data: vec![0, 255],
            sizes: vec![('b', true), ('a', false)],
        },
    ]
}

#[test]
fn enum_values_round_trip() {
    for old in shapes() {
        for new in shapes() {
            let commands = Diff::diff(&old, &new);
            assert_eq!(commands.len(), if old == new { 0 } else { 1 });
            let mut target = old.clone();
            assert!(Apply::apply(&mut CommandReader::new(commands), &mut target).is_ok());
            assert_eq!(target, new);
        }
    }
}

#[test]
fn lists_of_enum_values_round_trip() {
    let old = shapes();
    let mut new = shapes();
    new.reverse();
    new.pop();
    let mut target = old.clone();
    let mut reader = CommandReader::new(Diff::diff(&old, &new));
    assert!(Apply::apply(&mut reader, &mut target).is_ok());
    assert_eq!(target, new);
    assert_eq!(reader.remaining(), 0);
}

#[test]
fn values_that_a_type_refuses_are_unreadable() {
    let commands =
        vec![DiffCommandValue::Value(Value::Variant("Shape", VARIANTS, 9, Fields::Unit))];
    let mut target = Shape::Circle(4);
    assert!(Apply::apply(&mut CommandReader::new(commands), &mut target).is_err());
    assert_eq!(target, Shape::Circle(4));
}
