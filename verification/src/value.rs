//! Plain values: what a diff carries from one side to the other.

use vstd::prelude::*;

verus! {

/// A value without parts.
#[derive(Clone, Copy, Debug, PartialEq, Eq, Structural)]
pub enum Scalar {
    Unit,
    Bool(bool),
    Isize(isize),
    I8(i8),
    I16(i16),
    I32(i32),
    I64(i64),
    I128(i128),
    Usize(usize),
    U8(u8),
    U16(u16),
    U32(u32),
    U64(u64),
    U128(u128),
    Char(char),
}

/// The type of a [`Scalar`].
#[derive(Clone, Copy, Debug, PartialEq, Eq, Structural)]
pub enum ScalarKind {
    Unit,
    Bool,
    Isize,
    I8,
    I16,
    I32,
    I64,
    I128,
    Usize,
    U8,
    U16,
    U32,
    U64,
    U128,
    Char,
}

impl Scalar {
    /// The type this scalar belongs to.
    pub open spec fn spec_kind(self) -> ScalarKind {
        match self {
            Scalar::Unit => ScalarKind::Unit,
            Scalar::Bool(_) => ScalarKind::Bool,
            Scalar::Isize(_) => ScalarKind::Isize,
            Scalar::I8(_) => ScalarKind::I8,
            Scalar::I16(_) => ScalarKind::I16,
            Scalar::I32(_) => ScalarKind::I32,
            Scalar::I64(_) => ScalarKind::I64,
            Scalar::I128(_) => ScalarKind::I128,
            Scalar::Usize(_) => ScalarKind::Usize,
            Scalar::U8(_) => ScalarKind::U8,
            Scalar::U16(_) => ScalarKind::U16,
            Scalar::U32(_) => ScalarKind::U32,
            Scalar::U64(_) => ScalarKind::U64,
            Scalar::U128(_) => ScalarKind::U128,
            Scalar::Char(_) => ScalarKind::Char,
        }
    }
}

/// A value of any type, as plain data.
#[derive(Debug)]
pub enum Value {
    Scalar(Scalar),
    Str(String),
    Bytes(Vec<u8>),
    /// A value of a type that this crate has no plain form for: a tag that names the type,
    /// and the bytes that its owner wrote for it.
    Coded(u32, Vec<u8>),
    Option(Option<Box<Value>>),
    List(Vec<Value>),
    Tuple(Vec<Value>),
    /// Keys and values, in the order in which they are written.
    Entries(Vec<(Value, Value)>),
    /// A struct: its name, and what it holds.
    Record(&'static str, Fields),
    /// A variant of an enum: the enum's name, the names of its variants, the variant's place among
    /// them, and what it holds.
    Variant(&'static str, &'static [&'static str], u32, Fields),
}

/// What a struct or a variant of an enum holds.
#[derive(Debug)]
pub enum Fields {
    Unit,
    Newtype(Box<Value>),
    Tuple(Vec<Value>),
    /// The names of the fields, and their values in the same order.
    Named(&'static [&'static str], Vec<Value>),
}

/// What a [`Value`] stands for.
pub enum ValueView {
    Scalar(Scalar),
    Str(Seq<char>),
    Bytes(Seq<u8>),
    Coded(u32, Seq<u8>),
    Option(Option<Box<ValueView>>),
    List(Seq<ValueView>),
    Tuple(Seq<ValueView>),
    Entries(Seq<(ValueView, ValueView)>),
    Record(Seq<char>, FieldsView),
    Variant(Seq<char>, Seq<Seq<char>>, u32, FieldsView),
}

/// What [`Fields`] stand for.
pub enum FieldsView {
    Unit,
    Newtype(Box<ValueView>),
    Tuple(Seq<ValueView>),
    Named(Seq<Seq<char>>, Seq<ValueView>),
}

/// The type of a [`Value`], for a reader of a format that does not describe itself.
#[derive(Debug)]
pub enum Kind {
    Scalar(ScalarKind),
    Str,
    Bytes,
    Coded(u32),
    Option(Box<Kind>),
    List(Box<Kind>),
    Tuple(Vec<Kind>),
    /// The types of the keys and of the values.
    Entries(Box<Kind>, Box<Kind>),
    /// A struct: its name, and what it holds.
    Record(&'static str, FieldsKind),
    /// An enum: its name, the names of its variants, and what they hold, in the same order.
    Enum(&'static str, &'static [&'static str], Vec<FieldsKind>),
}

/// The type of [`Fields`].
#[derive(Debug)]
pub enum FieldsKind {
    Unit,
    Newtype(Box<Kind>),
    Tuple(Vec<Kind>),
    /// The names of the fields, and their types in the same order.
    Named(&'static [&'static str], Vec<Kind>),
}

/// The texts in a table of names.
pub open spec fn name_views(names: Seq<&'static str>) -> Seq<Seq<char>> {
    Seq::new(names.len(), |i: int| names[i]@)
}

impl Value {
    pub open spec fn view(&self) -> ValueView
        decreases self,
    {
        match self {
            Value::Scalar(s) => ValueView::Scalar(*s),
            Value::Str(s) => ValueView::Str(s@),
            Value::Bytes(bytes) => ValueView::Bytes(bytes@),
            Value::Coded(tag, bytes) => ValueView::Coded(*tag, bytes@),
            Value::Option(None) => ValueView::Option(None),
            Value::Option(Some(v)) => ValueView::Option(Some(Box::new(v.view()))),
            Value::List(items) => ValueView::List(
                Seq::new(
                    items@.len(),
                    |i: int|
                        if 0 <= i < items@.len() {
                            items@[i].view()
                        } else {
                            arbitrary()
                        },
                ),
            ),
            Value::Tuple(items) => ValueView::Tuple(
                Seq::new(
                    items@.len(),
                    |i: int|
                        if 0 <= i < items@.len() {
                            items@[i].view()
                        } else {
                            arbitrary()
                        },
                ),
            ),
            Value::Entries(entries) => ValueView::Entries(
                Seq::new(
                    entries@.len(),
                    |i: int|
                        if 0 <= i < entries@.len() {
                            (entries@[i].0.view(), entries@[i].1.view())
                        } else {
                            arbitrary()
                        },
                ),
            ),
            Value::Record(name, fields) => ValueView::Record(name@, fields.view()),
            Value::Variant(name, variants, place, fields) => ValueView::Variant(
                name@,
                name_views(variants@),
                *place,
                fields.view(),
            ),
        }
    }
}

impl Fields {
    pub open spec fn view(&self) -> FieldsView
        decreases self,
    {
        match self {
            Fields::Unit => FieldsView::Unit,
            Fields::Newtype(v) => FieldsView::Newtype(Box::new(v.view())),
            Fields::Tuple(items) => FieldsView::Tuple(
                Seq::new(
                    items@.len(),
                    |i: int|
                        if 0 <= i < items@.len() {
                            items@[i].view()
                        } else {
                            arbitrary()
                        },
                ),
            ),
            Fields::Named(names, items) => FieldsView::Named(
                name_views(names@),
                Seq::new(
                    items@.len(),
                    |i: int|
                        if 0 <= i < items@.len() {
                            items@[i].view()
                        } else {
                            arbitrary()
                        },
                ),
            ),
        }
    }
}

impl Kind {
    /// Whether `v` is a value of this type.
    pub open spec fn accepts(&self, v: ValueView) -> bool
        decreases self,
    {
        match self {
            Kind::Scalar(k) => v matches ValueView::Scalar(s) && s.spec_kind() == *k,
            Kind::Str => v is Str,
            Kind::Bytes => v matches ValueView::Bytes(bytes) && bytes.len() <= usize::MAX,
            Kind::Coded(tag) => v matches ValueView::Coded(t, _) && t == *tag,
            Kind::Option(some) => match v {
                ValueView::Option(None) => true,
                ValueView::Option(Some(inner)) => some.accepts(*inner),
                _ => false,
            },
            Kind::List(item) => v matches ValueView::List(items) && {
                &&& items.len() <= usize::MAX
                &&& forall|i: int| 0 <= i < items.len() ==> item.accepts(#[trigger] items[i])
            },
            Kind::Tuple(kinds) => v matches ValueView::Tuple(items) && {
                &&& items.len() == kinds@.len()
                &&& forall|i: int|
                    0 <= i < items.len() && i < kinds@.len() ==> kinds@[i].accepts(
                        #[trigger] items[i],
                    )
            },
            Kind::Entries(key, value) => v matches ValueView::Entries(entries) && {
                &&& entries.len() <= usize::MAX
                &&& forall|i: int|
                    0 <= i < entries.len() ==> key.accepts((#[trigger] entries[i]).0)
                        && value.accepts(entries[i].1)
            },
            Kind::Record(name, kinds) => v matches ValueView::Record(n, fields) && {
                &&& n == name@
                &&& kinds.accepts(fields)
            },
            Kind::Enum(name, variants, kinds) => v matches ValueView::Variant(n, vs, place, fields)
                && {
                &&& n == name@
                &&& vs == name_views(variants@)
                &&& place < variants@.len()
                &&& place < kinds@.len() && kinds@[place as int].accepts(fields)
            },
        }
    }
}

impl FieldsKind {
    /// Whether `v` is what a struct or a variant of this type holds.
    pub open spec fn accepts(&self, v: FieldsView) -> bool
        decreases self,
    {
        match self {
            FieldsKind::Unit => v is Unit,
            FieldsKind::Newtype(kind) => v matches FieldsView::Newtype(inner) && kind.accepts(
                *inner,
            ),
            FieldsKind::Tuple(kinds) => v matches FieldsView::Tuple(items) && {
                &&& items.len() == kinds@.len()
                &&& forall|i: int|
                    0 <= i < items.len() && i < kinds@.len() ==> kinds@[i].accepts(
                        #[trigger] items[i],
                    )
            },
            FieldsKind::Named(names, kinds) => v matches FieldsView::Named(ns, items) && {
                &&& ns == name_views(names@)
                &&& items.len() == kinds@.len()
                &&& forall|i: int|
                    0 <= i < items.len() && i < kinds@.len() ==> kinds@[i].accepts(
                        #[trigger] items[i],
                    )
            },
        }
    }
}

} // verus!
