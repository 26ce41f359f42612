//! The finite-state-machine task interpreter.
//!
//! A task may hold several independent named machines.  Each machine has
//! named states; each state lists handlers keyed by trigger id.  Applying
//! a trigger looks up the current state, finds the first handler for the
//! trigger (none is a legal no-op), and moves to the handler's target
//! state.

use crate::json::JsonValue;
use std::rc::Rc;
use vstd::prelude::*;

verus! {

#[derive(Debug, PartialEq, Eq)]
pub enum StateMachineError {
    /// Machine `idx`'s persisted state names a state that its definition
    /// does not contain.
    UnknownState { idx: usize, state: String },
}

pub type StateMachineConfig = Vec<StateMachine>;

pub type StateMachineStates = Vec<StateMachineData>;

/// Persisted per-machine data: the current state's name and a free-form
/// context value carried across transitions.
#[derive(Debug)]
pub struct StateMachineData {
    pub state: String,
    pub context: Rc<JsonValue>,
}

/// One machine: named states and the name of the initial state.  The
/// initial state should exist in the table; like the rest of the
/// definition this is the task author's responsibility.
#[derive(Debug)]
pub struct StateMachine {
    pub name: String,
    pub description: Option<String>,
    pub initial: String,
    /// State definitions by name; the first entry with a given name wins.
    pub states: Vec<(String, StateDefinition)>,
}

#[derive(Debug)]
pub struct StateDefinition {
    pub description: String,
    pub on: Vec<EventHandler>,
}

/// One handler: fires for one trigger id, optionally moving the machine
/// to a target state and optionally invoking actions.
#[derive(Debug)]
pub struct EventHandler {
    pub trigger_id: i64,
    pub target: Option<TransitionTarget>,
    pub actions: Option<Vec<ActionInvokeDef>>,
}

/// Where a handler sends the machine.  Only the unconditional single
/// target exists; conditional and scripted transitions are reserved.
#[derive(Debug, PartialEq, Eq)]
pub enum TransitionTarget {
    One(String),
}

/// A reserved building block for conditional transitions.
#[derive(Debug, PartialEq, Eq)]
pub struct TransitionCondition {
    pub target: String,
    pub condition: String,
}

/// How one action invocation's payload is assembled, field by field.
#[derive(Debug)]
pub struct ActionInvokeDef {
    pub action_id: i64,
    pub data: Vec<(String, ActionInvokeDefDataField)>,
}

#[derive(Debug)]
pub enum ActionInvokeDefDataField {
    /// A path into the payload that triggered the action.
    Input(String),
    /// A constant value.
    Constant(Rc<JsonValue>),
}

/// The record handed to the action dispatcher for one resolved action.
#[derive(Debug)]
pub struct ActionInvocation {
    pub task_id: i64,
    pub task_trigger_id: Option<i64>,
    pub action_id: i64,
    pub payload: Rc<JsonValue>,
}

pub type ActionInvocations = Vec<ActionInvocation>;

impl EventHandler {
    /// Resolves this handler's action list against context and payload.
    /// Action resolution is reserved behavior: handlers do not emit
    /// actions yet, so the list is always empty.
    pub fn resolve_actions(
        &self,
        _context: &Rc<JsonValue>,
        _payload: &Option<Rc<JsonValue>>,
    ) -> (r: Result<ActionInvocations, StateMachineError>)
        ensures
            r matches Ok(a) && a@.len() == 0,
    {
        Ok(Vec::new())
    }

    /// The state this handler sends the machine to: the unconditional
    /// target's name, or none when the handler keeps the current state.
    pub fn next_state(
        &self,
        _context: &Rc<JsonValue>,
        _payload: &Option<Rc<JsonValue>>,
    ) -> (r: Result<Option<String>, StateMachineError>)
        ensures
            r matches Ok(s) && s == (match self.target {
                Option::None => Option::<String>::None,
                Option::Some(TransitionTarget::One(name)) => Option::Some(name),
            }),
    {
        match &self.target {
            None => Ok(None),
            Some(TransitionTarget::One(s)) => Ok(Some(s.clone())),
        }
    }
}

/// `i` is the first entry of the state table named `key`.
pub open spec fn is_first_state_entry(
    states: Seq<(String, StateDefinition)>,
    key: Seq<char>,
    i: int,
) -> bool {
    &&& 0 <= i < states.len()
    &&& states[i].0@ == key
    &&& forall|j: int| 0 <= j < i ==> (#[trigger] states[j].0)@ != key
}

/// The state table has an entry named `key`.
pub open spec fn has_state(states: Seq<(String, StateDefinition)>, key: Seq<char>) -> bool {
    exists|i: int| 0 <= i < states.len() && (#[trigger] states[i].0)@ == key
}

/// `h` is the first handler of `on` for `trigger_id`.
pub open spec fn is_first_handler(on: Seq<EventHandler>, trigger_id: i64, h: int) -> bool {
    &&& 0 <= h < on.len()
    &&& on[h].trigger_id == trigger_id
    &&& forall|j: int| 0 <= j < h ==> (#[trigger] on[j]).trigger_id != trigger_id
}

/// One machine paired with its persisted data, as evaluated within one
/// task.
#[derive(Debug)]
pub struct StateMachineWithData {
    pub idx: usize,
    pub machine: StateMachine,
    pub data: StateMachineData,
    pub changed: bool,
}

/// The transition one `apply_trigger` call makes.  The machine definition,
/// index and context never change; only the current state name may move to
/// the matched handler's target.
pub open spec fn applies_trigger(
    pre: StateMachineWithData,
    post: StateMachineWithData,
    trigger_id: i64,
    r: Result<ActionInvocations, StateMachineError>,
) -> bool {
    &&& post.idx == pre.idx
    &&& post.machine == pre.machine
    &&& post.changed == pre.changed
    &&& post.data.context == pre.data.context
    &&& if !has_state(pre.machine.states@, pre.data.state@) {
        // an unknown current state fails every trigger, changing nothing
        &&& (r matches Err(e) && e matches StateMachineError::UnknownState { idx, state }
            && idx == pre.idx && state@ == pre.data.state@)
        &&& post.data.state@ == pre.data.state@
    } else {
        let si = choose|si: int|
            is_first_state_entry(pre.machine.states@, pre.data.state@, si);
        let on = pre.machine.states@[si].1.on@;
        &&& (r matches Ok(a) && a@.len() == 0)
        &&& if exists|h: int| is_first_handler(on, trigger_id, h) {
            let h = choose|h: int| is_first_handler(on, trigger_id, h);
            match on[h].target {
                Option::None => post.data.state@ == pre.data.state@,
                Option::Some(TransitionTarget::One(name)) => post.data.state@ == name@,
            }
        } else {
            // no handler for this trigger in the current state: a legal
            // no-op
            post.data.state@ == pre.data.state@
        }
    }
}

impl StateMachineWithData {
    pub fn new(idx: usize, machine: StateMachine, data: StateMachineData) -> (r:
        StateMachineWithData)
        ensures
            r.idx == idx,
            r.machine == machine,
            r.data == data,
            !r.changed,
    {
        StateMachineWithData { idx, machine, data, changed: false }
    }

    /// Applies one inbound trigger to this machine: looks up the current
    /// state (unknown names fail), scans its handlers for the first one
    /// matching `trigger_id` (none is a legal no-op), and moves to the
    /// handler's target state.  Handlers emit no actions yet.
    pub fn apply_trigger(&mut self, trigger_id: i64, payload: Option<Rc<JsonValue>>) -> (r: Result<
        ActionInvocations,
        StateMachineError,
    >)
        ensures
            applies_trigger(*old(self), *final(self), trigger_id, r),
    {
        let states_len = self.machine.states.len();
        let mut si_opt: Option<usize> = None;
        let mut i: usize = 0;
        while i < states_len && si_opt.is_none()
            invariant
                states_len == self.machine.states@.len(),
                i <= states_len,
                si_opt is None ==> forall|j: int|
                    0 <= j < i ==> (#[trigger] self.machine.states@[j].0)@ != self.data.state@,
                match si_opt {
                    Some(si) => is_first_state_entry(
                        self.machine.states@,
                        self.data.state@,
                        si as int,
                    ),
                    None => true,
                },
            decreases states_len - i,
        {
            if self.machine.states[i].0.eq(&self.data.state) {
                si_opt = Some(i);
            }
            i += 1;
        }
        let si = match si_opt {
            Some(si) => si,
            None => {
                proof {
                    assert(!has_state(self.machine.states@, self.data.state@));
                }
                return Err(
                    StateMachineError::UnknownState {
                        idx: self.idx,
                        state: self.data.state.clone(),
                    },
                );
            },
        };
        proof {
            let ci = choose|ci: int|
                is_first_state_entry(self.machine.states@, self.data.state@, ci);
            assert(is_first_state_entry(self.machine.states@, self.data.state@, ci));
            if ci < si as int {
                assert((self.machine.states@[ci].0)@ != self.data.state@);
            }
            if (si as int) < ci {
                assert((self.machine.states@[si as int].0)@ != self.data.state@);
            }
            assert(ci == si as int);
        }
        let on_len = self.machine.states[si].1.on.len();
        let mut h_opt: Option<usize> = None;
        let mut j: usize = 0;
        while j < on_len && h_opt.is_none()
            invariant
                si < self.machine.states@.len(),
                on_len == self.machine.states@[si as int].1.on@.len(),
                j <= on_len,
                h_opt is None ==> forall|jj: int|
                    0 <= jj < j ==> (#[trigger] self.machine.states@[si as int].1.on@[jj]).trigger_id
                        != trigger_id,
                match h_opt {
                    Some(h) => is_first_handler(
                        self.machine.states@[si as int].1.on@,
                        trigger_id,
                        h as int,
                    ),
                    None => true,
                },
            decreases on_len - j,
        {
            if self.machine.states[si].1.on[j].trigger_id == trigger_id {
                h_opt = Some(j);
            }
            j += 1;
        }
        let ghost on = self.machine.states@[si as int].1.on@;
        match h_opt {
            Some(h) => {
                proof {
                    let ch = choose|ch: int| is_first_handler(on, trigger_id, ch);
                    assert(is_first_handler(on, trigger_id, h as int));
                    assert(is_first_handler(on, trigger_id, ch));
                    if ch < h as int {
                        assert(on[ch].trigger_id != trigger_id);
                    }
                    if (h as int) < ch {
                        assert(on[h as int].trigger_id != trigger_id);
                    }
                    assert(ch == h as int);
                }
                let next = match self.machine.states[si].1.on[h].next_state(
                    &self.data.context,
                    &payload,
                ) {
                    Ok(n) => n,
                    Err(e) => {
                        return Err(e);
                    },
                };
                let acts = match self.machine.states[si].1.on[h].resolve_actions(
                    &self.data.context,
                    &payload,
                ) {
                    Ok(a) => a,
                    Err(e) => {
                        return Err(e);
                    },
                };
                if let Some(s) = next {
                    self.data.state = s;
                }
                Ok(acts)
            },
            None => {
                proof {
                    assert(!exists|h: int| is_first_handler(on, trigger_id, h));
                }
                Ok(Vec::new())
            },
        }
    }
}


/// A trigger with no matching handler in the current state is a legal
/// no-op: it returns empty actions and leaves the machine's data exactly
/// as it was.
pub proof fn lemma_no_handler_is_noop(
    pre: StateMachineWithData,
    post: StateMachineWithData,
    trigger_id: i64,
    r: Result<ActionInvocations, StateMachineError>,
    si: int,
)
    requires
        applies_trigger(pre, post, trigger_id, r),
        is_first_state_entry(pre.machine.states@, pre.data.state@, si),
        forall|j: int|
            0 <= j < pre.machine.states@[si].1.on@.len()
                ==> (#[trigger] pre.machine.states@[si].1.on@[j]).trigger_id != trigger_id,
    ensures
        r matches Ok(a) && a@.len() == 0,
        post.data.state@ == pre.data.state@,
        post.data.context == pre.data.context,
        post.machine == pre.machine,
        post.idx == pre.idx,
{
    assert(has_state(pre.machine.states@, pre.data.state@));
    let ci = choose|ci: int| is_first_state_entry(pre.machine.states@, pre.data.state@, ci);
    assert(is_first_state_entry(pre.machine.states@, pre.data.state@, ci));
    if ci < si {
        assert((pre.machine.states@[ci].0)@ != pre.data.state@);
    }
    if si < ci {
        assert((pre.machine.states@[si].0)@ != pre.data.state@);
    }
    let on = pre.machine.states@[ci].1.on@;
    if exists|h: int| is_first_handler(on, trigger_id, h) {
        let h = choose|h: int| is_first_handler(on, trigger_id, h);
        assert(on[h].trigger_id != trigger_id);
    }
}

/// An unknown current state name fails every trigger, changing nothing.
pub proof fn lemma_unknown_state_fails(
    pre: StateMachineWithData,
    post: StateMachineWithData,
    trigger_id: i64,
    r: Result<ActionInvocations, StateMachineError>,
)
    requires
        applies_trigger(pre, post, trigger_id, r),
        !has_state(pre.machine.states@, pre.data.state@),
    ensures
        r matches Err(e) && e matches StateMachineError::UnknownState { idx, state } && idx
            == pre.idx && state@ == pre.data.state@,
        post.data.state@ == pre.data.state@,
        post.data.context == pre.data.context,
        post.machine == pre.machine,
        post.idx == pre.idx,
{
}

} // verus!
