//! That nothing is lost where values and commands are spoken of by what they stand for.

use vstd::prelude::*;

use crate::command::{
    command_views, DiffCommandRef, DiffCommandValue, DiffPathElementValue,
};
use crate::datum::{Datum, Modeled};
use crate::roundtrip::RoundTrip;
use crate::terminal::Terminal;
use crate::value::{name_views, Fields, Scalar, Value, ValueView};

verus! {

/// Two values of a primitive type stand for the same just if they are the same, and every value of
/// the type can be read.
pub proof fn law_primitive_models()
    ensures
        forall|a: bool, b: bool|
            #![trigger a.model(), b.model()]
            a.model() == b.model() ==> a == b,
        forall|a: isize, b: isize|
            #![trigger a.model(), b.model()]
            a.model() == b.model() ==> a == b,
        forall|a: i8, b: i8|
            #![trigger a.model(), b.model()]
            a.model() == b.model() ==> a == b,
        forall|a: i16, b: i16|
            #![trigger a.model(), b.model()]
            a.model() == b.model() ==> a == b,
        forall|a: i32, b: i32|
            #![trigger a.model(), b.model()]
            a.model() == b.model() ==> a == b,
        forall|a: i64, b: i64|
            #![trigger a.model(), b.model()]
            a.model() == b.model() ==> a == b,
        forall|a: i128, b: i128|
            #![trigger a.model(), b.model()]
            a.model() == b.model() ==> a == b,
        forall|a: usize, b: usize|
            #![trigger a.model(), b.model()]
            a.model() == b.model() ==> a == b,
        forall|a: u8, b: u8|
            #![trigger a.model(), b.model()]
            a.model() == b.model() ==> a == b,
        forall|a: u16, b: u16|
            #![trigger a.model(), b.model()]
            a.model() == b.model() ==> a == b,
        forall|a: u32, b: u32|
            #![trigger a.model(), b.model()]
            a.model() == b.model() ==> a == b,
        forall|a: u64, b: u64|
            #![trigger a.model(), b.model()]
            a.model() == b.model() ==> a == b,
        forall|a: u128, b: u128|
            #![trigger a.model(), b.model()]
            a.model() == b.model() ==> a == b,
        forall|a: char, b: char|
            #![trigger a.model(), b.model()]
            a.model() == b.model() ==> a == b,
        forall|x: bool| #[trigger]
            <bool as Datum>::valid(ValueView::Scalar(Scalar::Bool(x))),
        forall|x: isize| #[trigger]
            <isize as Datum>::valid(ValueView::Scalar(Scalar::Isize(x))),
        forall|x: i8| #[trigger]
            <i8 as Datum>::valid(ValueView::Scalar(Scalar::I8(x))),
        forall|x: i16| #[trigger]
            <i16 as Datum>::valid(ValueView::Scalar(Scalar::I16(x))),
        forall|x: i32| #[trigger]
            <i32 as Datum>::valid(ValueView::Scalar(Scalar::I32(x))),
        forall|x: i64| #[trigger]
            <i64 as Datum>::valid(ValueView::Scalar(Scalar::I64(x))),
        forall|x: i128| #[trigger]
            <i128 as Datum>::valid(ValueView::Scalar(Scalar::I128(x))),
        forall|x: usize| #[trigger]
            <usize as Datum>::valid(ValueView::Scalar(Scalar::Usize(x))),
        forall|x: u8| #[trigger]
            <u8 as Datum>::valid(ValueView::Scalar(Scalar::U8(x))),
        forall|x: u16| #[trigger]
            <u16 as Datum>::valid(ValueView::Scalar(Scalar::U16(x))),
        forall|x: u32| #[trigger]
            <u32 as Datum>::valid(ValueView::Scalar(Scalar::U32(x))),
        forall|x: u64| #[trigger]
            <u64 as Datum>::valid(ValueView::Scalar(Scalar::U64(x))),
        forall|x: u128| #[trigger]
            <u128 as Datum>::valid(ValueView::Scalar(Scalar::U128(x))),
        forall|x: char| #[trigger]
            <char as Datum>::valid(ValueView::Scalar(Scalar::Char(x))),
        <() as Datum>::valid(ValueView::Scalar(Scalar::Unit)),
{
}

/// Two strings stand for the same just if they hold the same text, of whatever length, and every
/// text can be read.
pub proof fn law_string_models(a: String, b: String, text: Seq<char>)
    ensures
        a.model() == b.model() <==> a@ == b@,
        String::valid(ValueView::Str(text)),
{
}

/// Two lists stand for the same just if they are equally long and their items stand for the same. A
/// list can be read just if its items can, and no list is too long that fits in memory.
pub proof fn law_list_models<T: Datum>(a: Vec<T>, b: Vec<T>, items: Seq<ValueView>)
    ensures
        a.model() == b.model() <==> {
            &&& a@.len() == b@.len()
            &&& forall|i: int| 0 <= i < a@.len() ==> #[trigger] a@[i].model() == b@[i].model()
        },
        <Vec<T>>::valid(ValueView::List(items)) <==> {
            &&& items.len() <= usize::MAX
            &&& forall|i: int| 0 <= i < items.len() ==> T::valid(#[trigger] items[i])
        },
{
    let (x, y) = (a.model()->List_0, b.model()->List_0);
    if a.model() == b.model() {
        assert(x.len() == y.len());
        assert forall|i: int| 0 <= i < a@.len() implies #[trigger] a@[i].model()
            == b@[i].model() by {
            assert(x[i] == y[i]);
        }
    }
    if a@.len() == b@.len() && forall|i: int|
        0 <= i < a@.len() ==> #[trigger] a@[i].model() == b@[i].model() {
        assert(x =~= y);
    }
}

/// A list is as far nested as its items and once more; a terminal value is not nested.
pub proof fn law_nesting<T: Terminal, U: RoundTrip>()
    ensures
        T::nesting() == 0,
        <Vec<U>>::nesting() == U::nesting() + 1,
{
}

/// Whether two lists of plain values stand for the same, item by item.
proof fn lemma_items_alike(a: Seq<Value>, b: Seq<Value>, x: Seq<ValueView>, y: Seq<ValueView>)
    requires
        a.len() == x.len(),
        b.len() == y.len(),
        forall|i: int| 0 <= i < a.len() ==> #[trigger] x[i] == a[i].view(),
        forall|i: int| 0 <= i < b.len() ==> #[trigger] y[i] == b[i].view(),
    ensures
        x == y <==> {
            &&& a.len() == b.len()
            &&& forall|i: int| 0 <= i < a.len() ==> #[trigger] a[i].view() == b[i].view()
        },
{
    if x == y {
        assert forall|i: int| 0 <= i < a.len() implies #[trigger] a[i].view() == b[i].view() by {
            assert(x[i] == y[i]);
        }
    } else if a.len() == b.len() && forall|i: int|
        0 <= i < a.len() ==> #[trigger] a[i].view() == b[i].view() {
        assert forall|i: int| 0 <= i < x.len() implies x[i] == y[i] by {
            assert(a[i].view() == b[i].view());
        }
        assert(x =~= y);
    }
}

/// Whether two tables of names hold the same texts.
proof fn lemma_names_alike(a: Seq<&'static str>, b: Seq<&'static str>)
    ensures
        name_views(a) == name_views(b) <==> {
            &&& a.len() == b.len()
            &&& forall|i: int| 0 <= i < a.len() ==> (#[trigger] a[i])@ == b[i]@
        },
{
    if name_views(a) == name_views(b) {
        assert(name_views(a).len() == name_views(b).len());
        assert forall|i: int| 0 <= i < a.len() implies (#[trigger] a[i])@ == b[i]@ by {
            assert(name_views(a)[i] == name_views(b)[i]);
        }
    } else if a.len() == b.len() && forall|i: int|
        0 <= i < a.len() ==> (#[trigger] a[i])@ == b[i]@ {
        assert(name_views(a) =~= name_views(b));
    }
}

/// Two plain values stand for the same just if they are of the same form and all of their parts
/// stand for the same.
pub proof fn law_value_views(a: Value, b: Value)
    ensures
        a.view() == b.view() <==> match (a, b) {
            (Value::Scalar(x), Value::Scalar(y)) => x == y,
            (Value::Str(x), Value::Str(y)) => x@ == y@,
            (Value::Bytes(x), Value::Bytes(y)) => x@ == y@,
            (Value::Coded(s, x), Value::Coded(t, y)) => s == t && x@ == y@,
            (Value::Option(None), Value::Option(None)) => true,
            (Value::Option(Some(x)), Value::Option(Some(y))) => x.view() == y.view(),
            (Value::List(x), Value::List(y)) => {
                &&& x@.len() == y@.len()
                &&& forall|i: int| 0 <= i < x@.len() ==> #[trigger] x@[i].view() == y@[i].view()
            },
            (Value::Tuple(x), Value::Tuple(y)) => {
                &&& x@.len() == y@.len()
                &&& forall|i: int| 0 <= i < x@.len() ==> #[trigger] x@[i].view() == y@[i].view()
            },
            (Value::Entries(x), Value::Entries(y)) => {
                &&& x@.len() == y@.len()
                &&& forall|i: int|
                    0 <= i < x@.len() ==> (#[trigger] x@[i]).0.view() == y@[i].0.view()
                        && x@[i].1.view() == y@[i].1.view()
            },
            (Value::Record(m, x), Value::Record(n, y)) => m@ == n@ && x.view() == y.view(),
            (Value::Variant(m, s, j, x), Value::Variant(n, t, k, y)) => {
                &&& m@ == n@
                &&& s@.len() == t@.len()
                &&& forall|i: int| 0 <= i < s@.len() ==> (#[trigger] s@[i])@ == t@[i]@
                &&& j == k
                &&& x.view() == y.view()
            },
            _ => false,
        },
{
    match (a, b) {
        (Value::List(x), Value::List(y)) => lemma_items_alike(
            x@,
            y@,
            a.view()->List_0,
            b.view()->List_0,
        ),
        (Value::Tuple(x), Value::Tuple(y)) => lemma_items_alike(
            x@,
            y@,
            a.view()->Tuple_0,
            b.view()->Tuple_0,
        ),
        (Value::Entries(x), Value::Entries(y)) => {
            let (v, w) = (a.view()->Entries_0, b.view()->Entries_0);
            assert(v.len() == x@.len() && w.len() == y@.len());
            if v == w {
                assert forall|i: int| 0 <= i < x@.len() implies (#[trigger] x@[i]).0.view()
                    == y@[i].0.view() && x@[i].1.view() == y@[i].1.view() by {
                    assert(v[i] == w[i]);
                }
            } else if x@.len() == y@.len() && forall|i: int|
                0 <= i < x@.len() ==> (#[trigger] x@[i]).0.view() == y@[i].0.view()
                    && x@[i].1.view() == y@[i].1.view() {
                assert forall|i: int| 0 <= i < v.len() implies v[i] == w[i] by {
                    assert(x@[i].0.view() == y@[i].0.view());
                }
                assert(v =~= w);
            }
        },
        (Value::Variant(_, s, _, _), Value::Variant(_, t, _, _)) => lemma_names_alike(s@, t@),
        _ => {},
    }
}

/// What two structs or variants hold stands for the same just if it is of the same form and all of
/// its parts stand for the same.
pub proof fn law_fields_views(a: Fields, b: Fields)
    ensures
        a.view() == b.view() <==> match (a, b) {
            (Fields::Unit, Fields::Unit) => true,
            (Fields::Newtype(x), Fields::Newtype(y)) => x.view() == y.view(),
            (Fields::Tuple(x), Fields::Tuple(y)) => {
                &&& x@.len() == y@.len()
                &&& forall|i: int| 0 <= i < x@.len() ==> #[trigger] x@[i].view() == y@[i].view()
            },
            (Fields::Named(s, x), Fields::Named(t, y)) => {
                &&& s@.len() == t@.len()
                &&& forall|i: int| 0 <= i < s@.len() ==> (#[trigger] s@[i])@ == t@[i]@
                &&& x@.len() == y@.len()
                &&& forall|i: int| 0 <= i < x@.len() ==> #[trigger] x@[i].view() == y@[i].view()
            },
            _ => false,
        },
{
    match (a, b) {
        (Fields::Tuple(x), Fields::Tuple(y)) => lemma_items_alike(
            x@,
            y@,
            a.view()->Tuple_0,
            b.view()->Tuple_0,
        ),
        (Fields::Named(s, x), Fields::Named(t, y)) => {
            lemma_names_alike(s@, t@);
            lemma_items_alike(x@, y@, a.view()->Named_1, b.view()->Named_1);
        },
        _ => {},
    }
}

/// Two path elements stand for the same just if they are the same.
pub proof fn law_path_views<'a, 'b>(a: DiffPathElementValue<'a>, b: DiffPathElementValue<'b>)
    ensures
        a.view() == b.view() <==> match (a, b) {
            (DiffPathElementValue::Field(x), DiffPathElementValue::Field(y)) => x@ == y@,
            (
                DiffPathElementValue::CollectionIndex(x),
                DiffPathElementValue::CollectionIndex(y),
            ) => x == y,
            (
                DiffPathElementValue::AddToCollection,
                DiffPathElementValue::AddToCollection,
            ) => true,
            _ => false,
        },
{
}

/// Two commands stand for the same just if they are the same, and what they carry stands for the
/// same.
pub proof fn law_command_views<'a, 'b>(
    a: DiffCommandValue<'a, Value>,
    b: DiffCommandValue<'b, Value>,
)
    ensures
        a.view() == b.view() <==> match (a, b) {
            (DiffCommandValue::Enter(x), DiffCommandValue::Enter(y)) => x.view() == y.view(),
            (DiffCommandValue::Value(x), DiffCommandValue::Value(y)) => x.view() == y.view(),
            (DiffCommandValue::Remove(x), DiffCommandValue::Remove(y)) => x == y,
            (DiffCommandValue::Exit, DiffCommandValue::Exit) => true,
            (DiffCommandValue::Nothing, DiffCommandValue::Nothing) => true,
            (DiffCommandValue::DeserializedValue, DiffCommandValue::DeserializedValue) => true,
            _ => false,
        },
{
}

/// A command to be written stands for what the command with the same parts stands for that is read.
pub proof fn law_command_kinds<'a, 'b, T: Modeled>(
    a: DiffCommandRef<'a, T>,
    b: DiffCommandValue<'b, T>,
    c: DiffCommandValue<'b, Value>,
)
    ensures
        a.view_with(|t: T| t.model()) == b.view_with(|t: T| t.model()) <==> match (a, b) {
            (DiffCommandRef::Enter(x), DiffCommandValue::Enter(y)) => x.view() == y.view(),
            (DiffCommandRef::Value(x), DiffCommandValue::Value(y)) => x.model() == y.model(),
            (DiffCommandRef::Remove(x), DiffCommandValue::Remove(y)) => x == y,
            (DiffCommandRef::Exit, DiffCommandValue::Exit) => true,
            _ => false,
        },
        b.view_with(|t: T| t.model()) == c.view() <==> match (b, c) {
            (DiffCommandValue::Enter(x), DiffCommandValue::Enter(y)) => x.view() == y.view(),
            (DiffCommandValue::Value(x), DiffCommandValue::Value(y)) => x.model() == y.view(),
            (DiffCommandValue::Remove(x), DiffCommandValue::Remove(y)) => x == y,
            (DiffCommandValue::Exit, DiffCommandValue::Exit) => true,
            (DiffCommandValue::Nothing, DiffCommandValue::Nothing) => true,
            (DiffCommandValue::DeserializedValue, DiffCommandValue::DeserializedValue) => true,
            _ => false,
        },
{
}

/// A list of commands stands for as many commands, each for what it stands for by itself.
pub proof fn law_command_lists<'a>(commands: Seq<DiffCommandValue<'a, Value>>)
    ensures
        command_views(commands).len() == commands.len(),
        forall|i: int|
            0 <= i < commands.len() ==> #[trigger] command_views(commands)[i]
                == commands[i].view(),
{
}

} // verus!
