//! The closed set of node capabilities of a dataflow task.
//!
//! Each node carries one function variant.  Per evaluation a node is asked
//! for three things: what it computes (`execute`, which for script-backed
//! variants happens through the external scripting runtime), whether its
//! result overwrites its stored state (`persist_output`), and how its
//! stored state looks to consumers downstream (`output`).

use crate::json::{rc_dup, JsonValue};
use std::rc::Rc;
use vstd::prelude::*;

verus! {

/// A trigger node: matched against the inbound event's local id and handed
/// the raw payload.
#[derive(Debug, Clone, PartialEq, Eq)]
pub struct DataFlowTrigger {
    pub local_id: String,
}

/// The form a script is written in, which tells the runtime how to wrap it.
#[derive(Debug, Clone, Copy, PartialEq, Eq, Structural)]
pub enum JsCodeFormat {
    Expression,
    Function,
    AsyncFunction,
}

/// A script node: runs its code with the gathered inputs bound as
/// variables and the node's stored state as context.
#[derive(Debug, Clone, PartialEq, Eq)]
pub struct DataFlowJs {
    pub code: String,
    pub format: JsCodeFormat,
}

#[derive(Debug, Clone, Copy, PartialEq, Eq, Structural)]
pub enum TextRenderAs {
    PlainText,
}

/// A text node: renders a fixed body for its consumers; its stored state
/// is never overwritten.
#[derive(Debug, Clone, PartialEq, Eq)]
pub struct DataFlowText {
    pub body: String,
    pub render_as: TextRenderAs,
}

/// An action node: evaluates a payload-construction script; a non-null
/// result emits one action invocation.
#[derive(Debug, Clone, PartialEq, Eq)]
pub struct DataFlowAction {
    pub action_id: String,
    pub payload_code: DataFlowJs,
}

#[derive(Debug, Clone, PartialEq, Eq)]
pub enum DataFlowNodeFunction {
    Trigger(DataFlowTrigger),
    Js(DataFlowJs),
    Text(DataFlowText),
    Action(DataFlowAction),
}

/// One computation unit of a dataflow task.
#[derive(Debug, Clone, PartialEq, Eq)]
pub struct DataFlowNode {
    pub name: String,
    pub func: DataFlowNodeFunction,
}

impl DataFlowNodeFunction {
    /// Whether this node's execution result overwrites its stored state.
    /// Text nodes are re-rendered on every read and never persisted.
    pub open spec fn spec_persist_output(&self) -> bool {
        !(self is Text)
    }

    pub fn persist_output(&self) -> (r: bool)
        ensures
            r == self.spec_persist_output(),
    {
        match self {
            DataFlowNodeFunction::Text(_) => false,
            _ => true,
        }
    }

    /// How this node's stored state looks to a consumer downstream: text
    /// nodes expose their rendered body, every other variant exposes the
    /// stored value itself.
    pub open spec fn spec_output(&self, stored: JsonValue) -> JsonValue {
        match self {
            DataFlowNodeFunction::Text(t) => JsonValue::Str(t.body),
            _ => stored,
        }
    }

    pub fn output(&self, stored: &Rc<JsonValue>) -> (r: Rc<JsonValue>)
        ensures
            *r == self.spec_output(**stored),
    {
        match self {
            DataFlowNodeFunction::Text(t) => Rc::new(JsonValue::Str(t.body.clone())),
            _ => rc_dup(stored),
        }
    }

    /// Whether this node is the trigger node for the given local id.
    pub open spec fn spec_is_trigger_for(&self, local_id: Seq<char>) -> bool {
        match self {
            DataFlowNodeFunction::Trigger(t) => t.local_id@ == local_id,
            _ => false,
        }
    }

    pub fn is_trigger_for(&self, local_id: &String) -> (r: bool)
        ensures
            r == self.spec_is_trigger_for(local_id@),
    {
        match self {
            DataFlowNodeFunction::Trigger(t) => t.local_id.eq(local_id),
            _ => false,
        }
    }

    /// Whether executing this node means running a script through the
    /// external runtime.
    pub open spec fn spec_needs_script(&self) -> bool {
        self is Js || self is Action
    }

    /// The script a script-backed node runs.
    pub open spec fn spec_script(&self) -> DataFlowJs
        recommends
            self.spec_needs_script(),
    {
        match self {
            DataFlowNodeFunction::Js(js) => *js,
            DataFlowNodeFunction::Action(a) => a.payload_code,
            _ => arbitrary(),
        }
    }
}

} // verus!
