//! Literal values that a token can carry.
use vstd::prelude::*;

verus! {

/// A literal value attached to a token.
///
/// Only `String` and `Number` literals are populated during scanning; the
/// `Boolean` and `Nil` variants are reserved for later stages, where the
/// keyword spelling alone determines the value.  A `Number` holds the exact
/// numeral text of its lexeme (`digits('.' digits)?`); turning that text into
/// a machine float is a concern of unverified callers.
#[derive(Debug)]
pub enum Value {
    Boolean(bool),
    Nil,
    Number(String),
    String(String),
}

/// Mathematical model of a `Value`: text payloads become character sequences.
#[verifier::ext_equal]
pub enum SpecValue {
    Boolean(bool),
    Nil,
    Number(Seq<char>),
    Str(Seq<char>),
}

impl View for Value {
    type V = SpecValue;

    open spec fn view(&self) -> SpecValue {
        match self {
            Value::Boolean(b) => SpecValue::Boolean(*b),
            Value::Nil => SpecValue::Nil,
            Value::Number(s) => SpecValue::Number(s@),
            Value::String(s) => SpecValue::Str(s@),
        }
    }
}

/// The model of an optional literal value.
pub open spec fn opt_value_view(v: Option<Value>) -> Option<SpecValue> {
    match v {
        Option::Some(x) => Option::Some(x@),
        Option::None => Option::None,
    }
}

} // verus!
