use ergo_tasks::json::JsonValue;
use ergo_tasks::state_machine::{
    EventHandler, StateDefinition, StateMachine, StateMachineData, StateMachineError,
    StateMachineWithData, TransitionTarget,
};
use std::rc::Rc;

fn handler(trigger_id: i64, target: Option<&str>) -> EventHandler {
    EventHandler {
        trigger_id,
        target: target.map(|t| TransitionTarget::One(t.to_string())),
        actions: None,
    }
}

fn state_def(on: Vec<EventHandler>) -> StateDefinition {
    StateDefinition {
        description: "a state".to_string(),
        on,
    }
}

fn example_machine() -> StateMachine {
    StateMachine {
        name: "door".to_string(),
        description: None,
        initial: "closed".to_string(),
        states: vec![
            (
                "closed".to_string(),
                state_def(vec![handler(1, Some("open")), handler(2, None)]),
            ),
            ("open".to_string(), state_def(vec![handler(3, Some("closed"))])),
        ],
    }
}

fn with_state(state: &str) -> StateMachineWithData {
    StateMachineWithData::new(
        4,
        example_machine(),
        StateMachineData {
            state: state.to_string(),
            context: Rc::new(JsonValue::Null),
        },
    )
}

#[test]
fn matching_handler_transitions() {
    let mut m = with_state("closed");
    let actions = m.apply_trigger(1, None).unwrap();
    assert!(actions.is_empty());
    assert_eq!(m.data.state, "open");
}

#[test]
fn handler_without_target_keeps_state() {
    let mut m = with_state("closed");
    let actions = m.apply_trigger(2, None).unwrap();
    assert!(actions.is_empty());
    assert_eq!(m.data.state, "closed");
}

#[test]
fn unmatched_trigger_is_a_noop() {
    let mut m = with_state("closed");
    let actions = m.apply_trigger(99, None).unwrap();
    assert!(actions.is_empty());
    assert_eq!(m.data.state, "closed");
}

#[test]
fn first_matching_handler_wins() {
    let mut m = with_state("open");
    let actions = m.apply_trigger(3, Some(Rc::new(JsonValue::Bool(true)))).unwrap();
    assert!(actions.is_empty());
    assert_eq!(m.data.state, "closed");
}

#[test]
fn unknown_state_fails_every_trigger() {
    for trigger in [1i64, 2, 99] {
        let mut m = with_state("ajar");
        let err = m.apply_trigger(trigger, None).unwrap_err();
        assert_eq!(
            err,
            StateMachineError::UnknownState {
                idx: 4,
                state: "ajar".to_string()
            }
        );
        assert_eq!(m.data.state, "ajar");
    }
}

#[test]
fn new_machine_is_unchanged() {
    let m = with_state("closed");
    assert!(!m.changed);
    assert_eq!(m.idx, 4);
}

#[test]
fn first_state_entry_wins() {
    // two entries share a name; the first one's handlers decide
    let machine = StateMachine {
        name: "dup".to_string(),
        description: None,
        initial: "s".to_string(),
        states: vec![
            ("s".to_string(), state_def(vec![handler(1, Some("a"))])),
            ("s".to_string(), state_def(vec![handler(1, Some("b"))])),
            ("a".to_string(), state_def(Vec::new())),
            ("b".to_string(), state_def(Vec::new())),
        ],
    };
    let mut m = StateMachineWithData::new(
        0,
        machine,
        StateMachineData {
            state: "s".to_string(),
            context: Rc::new(JsonValue::Null),
        },
    );
    m.apply_trigger(1, None).unwrap();
    assert_eq!(m.data.state, "a");
}
