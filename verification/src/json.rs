//! A plain model of the JSON values that flow between nodes: trigger
//! payloads, per-node persisted state and action payloads.
//!
//! Values are immutable once produced, so the engine shares them through
//! `Rc` instead of copying.

use std::rc::Rc;
use vstd::prelude::*;

verus! {

/// One named field of a JSON object.
#[derive(Debug, PartialEq, Eq)]
pub struct JsonMember {
    pub name: String,
    pub value: JsonValue,
}

/// One JSON value.  Numbers are integers here: the engine itself never
/// computes with numbers, it only stores and routes them.
#[derive(Debug, PartialEq, Eq)]
pub enum JsonValue {
    Null,
    Bool(bool),
    Int(i64),
    Str(String),
    Array(Vec<JsonValue>),
    Object(Vec<JsonMember>),
}

impl JsonValue {
    pub open spec fn spec_is_null(&self) -> bool {
        *self is Null
    }

    pub fn is_null(&self) -> (r: bool)
        ensures
            r == self.spec_is_null(),
    {
        match self {
            JsonValue::Null => true,
            _ => false,
        }
    }
}

/// Relies on Rc::clone from std: the clone points to the same allocation,
/// so it carries the same value as the original.
#[verifier::external_body]
pub fn rc_dup(v: &Rc<JsonValue>) -> (r: Rc<JsonValue>)
    ensures
        r == *v,
{
    Rc::clone(v)
}

} // verus!

