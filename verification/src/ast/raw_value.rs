//! Raw values: the only primitive kinds of the language.

use vstd::prelude::*;

verus! {

/// A raw integer, string or boolean.
#[derive(Clone, Eq, PartialEq, Debug)]
pub enum RawValue {
    Int(i64),
    String(String),
    Bool(bool),
}

/// A raw value as a mathematical value.
pub enum RawView {
    Int(i64),
    Text(Seq<char>),
    Bool(bool),
}

impl View for RawValue {
    type V = RawView;

    open spec fn view(&self) -> RawView {
        match *self {
            RawValue::Int(i) => RawView::Int(i),
            RawValue::String(s) => RawView::Text(s@),
            RawValue::Bool(b) => RawView::Bool(b),
        }
    }
}

impl RawValue {
    /// A copy of this value.
    pub fn duplicate(&self) -> (r: RawValue)
        ensures
            r == *self,
    {
        match self {
            RawValue::Int(i) => RawValue::Int(*i),
            RawValue::String(s) => RawValue::String(s.clone()),
            RawValue::Bool(b) => RawValue::Bool(*b),
        }
    }
}

} // verus!
