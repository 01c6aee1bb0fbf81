//! Types whose values are plain data, however they are represented.

use vstd::prelude::*;

use crate::value::{Kind, Value, ValueView};

verus! {

/// A type whose values stand for plain values.
pub trait Modeled: Sized {
    /// What a value of this type stands for.
    spec fn model(&self) -> ValueView;
}

/// A type whose values can be carried whole in a command.
pub trait Datum: Modeled {
    /// Whether a value of this type stands for `v`.
    spec fn valid(v: ValueView) -> bool;

    /// Every value of the type is one that the type reads back.
    proof fn lemma_model_valid(&self)
        ensures
            Self::valid(self.model()),
    ;

    /// The type of the plain values that this type is carried as. Not every one of them has to
    /// stand for a value of this type.
    fn kind() -> (r: Kind)
        ensures
            forall|v: ValueView| #[trigger] Self::valid(v) ==> r.accepts(v),
    ;

    fn to_value(&self) -> (r: Value)
        ensures
            r.view() == self.model(),
    ;

    fn from_value(value: &Value) -> (r: Option<Self>)
        ensures
            r is Some <==> Self::valid(value.view()),
            r matches Some(t) ==> t.model() == value.view(),
    ;
}

} // verus!
