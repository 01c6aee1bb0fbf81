//! The primitive types and strings.

use vstd::prelude::*;

use crate::datum::{Datum, Modeled};
use crate::terminal::Terminal;
use crate::value::{Kind, Scalar, ScalarKind, Value, ValueView};

verus! {

impl Modeled for bool {
    open spec fn model(&self) -> ValueView {
        ValueView::Scalar(Scalar::Bool(*self))
    }
}

impl Datum for bool {
    open spec fn valid(v: ValueView) -> bool {
        v matches ValueView::Scalar(Scalar::Bool(_))
    }

    proof fn lemma_model_valid(&self) {
    }

    fn kind() -> (r: Kind)
        ensures
            r == Kind::Scalar(ScalarKind::Bool),
    {
        Kind::Scalar(ScalarKind::Bool)
    }

    fn to_value(&self) -> (r: Value)
        ensures
            r == Value::Scalar(Scalar::Bool(*self)),
    {
        Value::Scalar(Scalar::Bool(*self))
    }

    fn from_value(value: &Value) -> (r: Option<bool>)
        ensures
            r == (match value {
                Value::Scalar(Scalar::Bool(x)) => Some(*x),
                _ => None,
            }),
    {
        match value {
            Value::Scalar(Scalar::Bool(x)) => Some(*x),
            _ => None,
        }
    }
}

impl Terminal for bool {
    fn same(&self, other: &bool) -> (r: bool)
        ensures
            r == (*self == *other),
    {
        *self == *other
    }
}

impl Modeled for isize {
    open spec fn model(&self) -> ValueView {
        ValueView::Scalar(Scalar::Isize(*self))
    }
}

impl Datum for isize {
    open spec fn valid(v: ValueView) -> bool {
        v matches ValueView::Scalar(Scalar::Isize(_))
    }

    proof fn lemma_model_valid(&self) {
    }

    fn kind() -> (r: Kind)
        ensures
            r == Kind::Scalar(ScalarKind::Isize),
    {
        Kind::Scalar(ScalarKind::Isize)
    }

    fn to_value(&self) -> (r: Value)
        ensures
            r == Value::Scalar(Scalar::Isize(*self)),
    {
        Value::Scalar(Scalar::Isize(*self))
    }

    fn from_value(value: &Value) -> (r: Option<isize>)
        ensures
            r == (match value {
                Value::Scalar(Scalar::Isize(x)) => Some(*x),
                _ => None,
            }),
    {
        match value {
            Value::Scalar(Scalar::Isize(x)) => Some(*x),
            _ => None,
        }
    }
}

impl Terminal for isize {
    fn same(&self, other: &isize) -> (r: bool)
        ensures
            r == (*self == *other),
    {
        *self == *other
    }
}

impl Modeled for i8 {
    open spec fn model(&self) -> ValueView {
        ValueView::Scalar(Scalar::I8(*self))
    }
}

impl Datum for i8 {
    open spec fn valid(v: ValueView) -> bool {
        v matches ValueView::Scalar(Scalar::I8(_))
    }

    proof fn lemma_model_valid(&self) {
    }

    fn kind() -> (r: Kind)
        ensures
            r == Kind::Scalar(ScalarKind::I8),
    {
        Kind::Scalar(ScalarKind::I8)
    }

    fn to_value(&self) -> (r: Value)
        ensures
            r == Value::Scalar(Scalar::I8(*self)),
    {
        Value::Scalar(Scalar::I8(*self))
    }

    fn from_value(value: &Value) -> (r: Option<i8>)
        ensures
            r == (match value {
                Value::Scalar(Scalar::I8(x)) => Some(*x),
                _ => None,
            }),
    {
        match value {
            Value::Scalar(Scalar::I8(x)) => Some(*x),
            _ => None,
        }
    }
}

impl Terminal for i8 {
    fn same(&self, other: &i8) -> (r: bool)
        ensures
            r == (*self == *other),
    {
        *self == *other
    }
}

impl Modeled for i16 {
    open spec fn model(&self) -> ValueView {
        ValueView::Scalar(Scalar::I16(*self))
    }
}

impl Datum for i16 {
    open spec fn valid(v: ValueView) -> bool {
        v matches ValueView::Scalar(Scalar::I16(_))
    }

    proof fn lemma_model_valid(&self) {
    }

    fn kind() -> (r: Kind)
        ensures
            r == Kind::Scalar(ScalarKind::I16),
    {
        Kind::Scalar(ScalarKind::I16)
    }

    fn to_value(&self) -> (r: Value)
        ensures
            r == Value::Scalar(Scalar::I16(*self)),
    {
        Value::Scalar(Scalar::I16(*self))
    }

    fn from_value(value: &Value) -> (r: Option<i16>)
        ensures
            r == (match value {
                Value::Scalar(Scalar::I16(x)) => Some(*x),
                _ => None,
            }),
    {
        match value {
            Value::Scalar(Scalar::I16(x)) => Some(*x),
            _ => None,
        }
    }
}

impl Terminal for i16 {
    fn same(&self, other: &i16) -> (r: bool)
        ensures
            r == (*self == *other),
    {
        *self == *other
    }
}

impl Modeled for i32 {
    open spec fn model(&self) -> ValueView {
        ValueView::Scalar(Scalar::I32(*self))
    }
}

impl Datum for i32 {
    open spec fn valid(v: ValueView) -> bool {
        v matches ValueView::Scalar(Scalar::I32(_))
    }

    proof fn lemma_model_valid(&self) {
    }

    fn kind() -> (r: Kind)
        ensures
            r == Kind::Scalar(ScalarKind::I32),
    {
        Kind::Scalar(ScalarKind::I32)
    }

    fn to_value(&self) -> (r: Value)
        ensures
            r == Value::Scalar(Scalar::I32(*self)),
    {
        Value::Scalar(Scalar::I32(*self))
    }

    fn from_value(value: &Value) -> (r: Option<i32>)
        ensures
            r == (match value {
                Value::Scalar(Scalar::I32(x)) => Some(*x),
                _ => None,
            }),
    {
        match value {
            Value::Scalar(Scalar::I32(x)) => Some(*x),
            _ => None,
        }
    }
}

impl Terminal for i32 {
    fn same(&self, other: &i32) -> (r: bool)
        ensures
            r == (*self == *other),
    {
        *self == *other
    }
}

impl Modeled for i64 {
    open spec fn model(&self) -> ValueView {
        ValueView::Scalar(Scalar::I64(*self))
    }
}

impl Datum for i64 {
    open spec fn valid(v: ValueView) -> bool {
        v matches ValueView::Scalar(Scalar::I64(_))
    }

    proof fn lemma_model_valid(&self) {
    }

    fn kind() -> (r: Kind)
        ensures
            r == Kind::Scalar(ScalarKind::I64),
    {
        Kind::Scalar(ScalarKind::I64)
    }

    fn to_value(&self) -> (r: Value)
        ensures
            r == Value::Scalar(Scalar::I64(*self)),
    {
        Value::Scalar(Scalar::I64(*self))
    }

    fn from_value(value: &Value) -> (r: Option<i64>)
        ensures
            r == (match value {
                Value::Scalar(Scalar::I64(x)) => Some(*x),
                _ => None,
            }),
    {
        match value {
            Value::Scalar(Scalar::I64(x)) => Some(*x),
            _ => None,
        }
    }
}

impl Terminal for i64 {
    fn same(&self, other: &i64) -> (r: bool)
        ensures
            r == (*self == *other),
    {
        *self == *other
    }
}

impl Modeled for usize {
    open spec fn model(&self) -> ValueView {
        ValueView::Scalar(Scalar::Usize(*self))
    }
}

impl Datum for usize {
    open spec fn valid(v: ValueView) -> bool {
        v matches ValueView::Scalar(Scalar::Usize(_))
    }

    proof fn lemma_model_valid(&self) {
    }

    fn kind() -> (r: Kind)
        ensures
            r == Kind::Scalar(ScalarKind::Usize),
    {
        Kind::Scalar(ScalarKind::Usize)
    }

    fn to_value(&self) -> (r: Value)
        ensures
            r == Value::Scalar(Scalar::Usize(*self)),
    {
        Value::Scalar(Scalar::Usize(*self))
    }

    fn from_value(value: &Value) -> (r: Option<usize>)
        ensures
            r == (match value {
                Value::Scalar(Scalar::Usize(x)) => Some(*x),
                _ => None,
            }),
    {
        match value {
            Value::Scalar(Scalar::Usize(x)) => Some(*x),
            _ => None,
        }
    }
}

impl Terminal for usize {
    fn same(&self, other: &usize) -> (r: bool)
        ensures
            r == (*self == *other),
    {
        *self == *other
    }
}

impl Modeled for u8 {
    open spec fn model(&self) -> ValueView {
        ValueView::Scalar(Scalar::U8(*self))
    }
}

impl Datum for u8 {
    open spec fn valid(v: ValueView) -> bool {
        v matches ValueView::Scalar(Scalar::U8(_))
    }

    proof fn lemma_model_valid(&self) {
    }

    fn kind() -> (r: Kind)
        ensures
            r == Kind::Scalar(ScalarKind::U8),
    {
        Kind::Scalar(ScalarKind::U8)
    }

    fn to_value(&self) -> (r: Value)
        ensures
            r == Value::Scalar(Scalar::U8(*self)),
    {
        Value::Scalar(Scalar::U8(*self))
    }

    fn from_value(value: &Value) -> (r: Option<u8>)
        ensures
            r == (match value {
                Value::Scalar(Scalar::U8(x)) => Some(*x),
                _ => None,
            }),
    {
        match value {
            Value::Scalar(Scalar::U8(x)) => Some(*x),
            _ => None,
        }
    }
}

impl Terminal for u8 {
    fn same(&self, other: &u8) -> (r: bool)
        ensures
            r == (*self == *other),
    {
        *self == *other
    }
}

impl Modeled for u16 {
    open spec fn model(&self) -> ValueView {
        ValueView::Scalar(Scalar::U16(*self))
    }
}

impl Datum for u16 {
    open spec fn valid(v: ValueView) -> bool {
        v matches ValueView::Scalar(Scalar::U16(_))
    }

    proof fn lemma_model_valid(&self) {
    }

    fn kind() -> (r: Kind)
        ensures
            r == Kind::Scalar(ScalarKind::U16),
    {
        Kind::Scalar(ScalarKind::U16)
    }

    fn to_value(&self) -> (r: Value)
        ensures
            r == Value::Scalar(Scalar::U16(*self)),
    {
        Value::Scalar(Scalar::U16(*self))
    }

    fn from_value(value: &Value) -> (r: Option<u16>)
        ensures
            r == (match value {
                Value::Scalar(Scalar::U16(x)) => Some(*x),
                _ => None,
            }),
    {
        match value {
            Value::Scalar(Scalar::U16(x)) => Some(*x),
            _ => None,
        }
    }
}

impl Terminal for u16 {
    fn same(&self, other: &u16) -> (r: bool)
        ensures
            r == (*self == *other),
    {
        *self == *other
    }
}

impl Modeled for u32 {
    open spec fn model(&self) -> ValueView {
        ValueView::Scalar(Scalar::U32(*self))
    }
}

impl Datum for u32 {
    open spec fn valid(v: ValueView) -> bool {
        v matches ValueView::Scalar(Scalar::U32(_))
    }

    proof fn lemma_model_valid(&self) {
    }

    fn kind() -> (r: Kind)
        ensures
            r == Kind::Scalar(ScalarKind::U32),
    {
        Kind::Scalar(ScalarKind::U32)
    }

    fn to_value(&self) -> (r: Value)
        ensures
            r == Value::Scalar(Scalar::U32(*self)),
    {
        Value::Scalar(Scalar::U32(*self))
    }

    fn from_value(value: &Value) -> (r: Option<u32>)
        ensures
            r == (match value {
                Value::Scalar(Scalar::U32(x)) => Some(*x),
                _ => None,
            }),
    {
        match value {
            Value::Scalar(Scalar::U32(x)) => Some(*x),
            _ => None,
        }
    }
}

impl Terminal for u32 {
    fn same(&self, other: &u32) -> (r: bool)
        ensures
            r == (*self == *other),
    {
        *self == *other
    }
}

impl Modeled for u64 {
    open spec fn model(&self) -> ValueView {
        ValueView::Scalar(Scalar::U64(*self))
    }
}

impl Datum for u64 {
    open spec fn valid(v: ValueView) -> bool {
        v matches ValueView::Scalar(Scalar::U64(_))
    }

    proof fn lemma_model_valid(&self) {
    }

    fn kind() -> (r: Kind)
        ensures
            r == Kind::Scalar(ScalarKind::U64),
    {
        Kind::Scalar(ScalarKind::U64)
    }

    fn to_value(&self) -> (r: Value)
        ensures
            r == Value::Scalar(Scalar::U64(*self)),
    {
        Value::Scalar(Scalar::U64(*self))
    }

    fn from_value(value: &Value) -> (r: Option<u64>)
        ensures
            r == (match value {
                Value::Scalar(Scalar::U64(x)) => Some(*x),
                _ => None,
            }),
    {
        match value {
            Value::Scalar(Scalar::U64(x)) => Some(*x),
            _ => None,
        }
    }
}

impl Terminal for u64 {
    fn same(&self, other: &u64) -> (r: bool)
        ensures
            r == (*self == *other),
    {
        *self == *other
    }
}

impl Modeled for i128 {
    open spec fn model(&self) -> ValueView {
        ValueView::Scalar(Scalar::I128(*self))
    }
}

impl Datum for i128 {
    open spec fn valid(v: ValueView) -> bool {
        v matches ValueView::Scalar(Scalar::I128(_))
    }

    proof fn lemma_model_valid(&self) {
    }

    fn kind() -> (r: Kind)
        ensures
            r == Kind::Scalar(ScalarKind::I128),
    {
        Kind::Scalar(ScalarKind::I128)
    }

    fn to_value(&self) -> (r: Value)
        ensures
            r == Value::Scalar(Scalar::I128(*self)),
    {
        Value::Scalar(Scalar::I128(*self))
    }

    fn from_value(value: &Value) -> (r: Option<i128>)
        ensures
            r == (match value {
                Value::Scalar(Scalar::I128(x)) => Some(*x),
                _ => None,
            }),
    {
        match value {
            Value::Scalar(Scalar::I128(x)) => Some(*x),
            _ => None,
        }
    }
}

impl Terminal for i128 {
    fn same(&self, other: &i128) -> (r: bool)
        ensures
            r == (*self == *other),
    {
        *self == *other
    }
}

impl Modeled for u128 {
    open spec fn model(&self) -> ValueView {
        ValueView::Scalar(Scalar::U128(*self))
    }
}

impl Datum for u128 {
    open spec fn valid(v: ValueView) -> bool {
        v matches ValueView::Scalar(Scalar::U128(_))
    }

    proof fn lemma_model_valid(&self) {
    }

    fn kind() -> (r: Kind)
        ensures
            r == Kind::Scalar(ScalarKind::U128),
    {
        Kind::Scalar(ScalarKind::U128)
    }

    fn to_value(&self) -> (r: Value)
        ensures
            r == Value::Scalar(Scalar::U128(*self)),
    {
        Value::Scalar(Scalar::U128(*self))
    }

    fn from_value(value: &Value) -> (r: Option<u128>)
        ensures
            r == (match value {
                Value::Scalar(Scalar::U128(x)) => Some(*x),
                _ => None,
            }),
    {
        match value {
            Value::Scalar(Scalar::U128(x)) => Some(*x),
            _ => None,
        }
    }
}

impl Terminal for u128 {
    fn same(&self, other: &u128) -> (r: bool)
        ensures
            r == (*self == *other),
    {
        *self == *other
    }
}

/// A character as a plain value.
fn char_value(c: char) -> (r: Value)
    ensures
        r == Value::Scalar(Scalar::Char(c)),
{
    Value::Scalar(Scalar::Char(c))
}

impl Modeled for char {
    open spec fn model(&self) -> ValueView {
        ValueView::Scalar(Scalar::Char(*self))
    }
}

impl Datum for char {
    open spec fn valid(v: ValueView) -> bool {
        v matches ValueView::Scalar(Scalar::Char(_))
    }

    proof fn lemma_model_valid(&self) {
    }

    fn kind() -> (r: Kind)
        ensures
            r == Kind::Scalar(ScalarKind::Char),
    {
        Kind::Scalar(ScalarKind::Char)
    }

    fn to_value(&self) -> (r: Value)
        ensures
            r == Value::Scalar(Scalar::Char(*self)),
    {
        char_value(*self)
    }

    fn from_value(value: &Value) -> (r: Option<char>)
        ensures
            r == (match value {
                Value::Scalar(Scalar::Char(x)) => Some(*x),
                _ => None,
            }),
    {
        match value {
            Value::Scalar(Scalar::Char(x)) => Some(*x),
            _ => None,
        }
    }
}

impl Terminal for char {
    fn same(&self, other: &char) -> (r: bool)
        ensures
            r == (*self == *other),
    {
        *self == *other
    }
}

impl Modeled for String {
    open spec fn model(&self) -> ValueView {
        ValueView::Str(self@)
    }
}

impl Datum for String {
    open spec fn valid(v: ValueView) -> bool {
        v is Str
    }

    proof fn lemma_model_valid(&self) {
    }

    fn kind() -> (r: Kind)
        ensures
            r == Kind::Str,
    {
        Kind::Str
    }

    fn to_value(&self) -> (r: Value)
        ensures
            r matches Value::Str(text) && text@ == self@,
    {
        Value::Str(self.clone())
    }

    fn from_value(value: &Value) -> (r: Option<String>)
        ensures
            match value {
                Value::Str(text) => r matches Some(s) && s@ == text@,
                _ => r is None,
            },
    {
        match value {
            Value::Str(s) => Some(s.clone()),
            _ => None,
        }
    }
}

impl Terminal for String {
    fn same(&self, other: &String) -> (r: bool)
        ensures
            r == (self@ == other@),
    {
        *self == *other
    }
}

impl Modeled for () {
    open spec fn model(&self) -> ValueView {
        ValueView::Scalar(Scalar::Unit)
    }
}

impl Datum for () {
    open spec fn valid(v: ValueView) -> bool {
        v == ValueView::Scalar(Scalar::Unit)
    }

    proof fn lemma_model_valid(&self) {
    }

    fn kind() -> (r: Kind)
        ensures
            r == Kind::Scalar(ScalarKind::Unit),
    {
        Kind::Scalar(ScalarKind::Unit)
    }

    fn to_value(&self) -> (r: Value)
        ensures
            r == Value::Scalar(Scalar::Unit),
    {
        Value::Scalar(Scalar::Unit)
    }

    fn from_value(value: &Value) -> (r: Option<()>)
        ensures
            r is Some <==> *value == Value::Scalar(Scalar::Unit),
    {
        match value {
            Value::Scalar(Scalar::Unit) => Some(()),
            _ => None,
        }
    }
}

impl Terminal for () {
    fn same(&self, other: &()) -> (r: bool)
        ensures
            r,
    {
        true
    }
}

} // verus!
