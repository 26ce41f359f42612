use ergo_tasks::actions::TaskActionInvocation;
use ergo_tasks::dataflow::{
    DataFlowConfig, DataFlowEdge, DataFlowLog, DataFlowState, ScriptRequest, StepOutcome,
};
use ergo_tasks::error::Error;
use ergo_tasks::json::{JsonMember, JsonValue};
use ergo_tasks::node::{
    DataFlowAction, DataFlowJs, DataFlowNode, DataFlowNodeFunction, DataFlowText, DataFlowTrigger,
    JsCodeFormat, TextRenderAs,
};
use std::rc::Rc;

fn jnull() -> Rc<JsonValue> {
    Rc::new(JsonValue::Null)
}

fn jint(i: i64) -> Rc<JsonValue> {
    Rc::new(JsonValue::Int(i))
}

fn obj1(key: &str, value: JsonValue) -> JsonValue {
    JsonValue::Object(vec![JsonMember {
        name: key.to_string(),
        value,
    }])
}

fn test_node(name: &str, func: DataFlowNodeFunction) -> DataFlowNode {
    DataFlowNode {
        name: name.to_string(),
        func,
    }
}

fn edge(from: u32, to: u32, name: &str) -> DataFlowEdge {
    DataFlowEdge {
        from,
        to,
        name: name.to_string(),
    }
}

/// The example config: `trigger1`/`trigger2` feed an increment node and a
/// sum node; the sum drives an async fetch whose result, together with a
/// text label, feeds the email action.
fn test_config() -> DataFlowConfig {
    let nodes = vec![
        test_node(
            "trigger_a",
            DataFlowNodeFunction::Trigger(DataFlowTrigger {
                local_id: "trigger1".to_string(),
            }),
        ),
        test_node(
            "trigger_b",
            DataFlowNodeFunction::Trigger(DataFlowTrigger {
                local_id: "trigger2".to_string(),
            }),
        ),
        test_node(
            "add_one",
            DataFlowNodeFunction::Js(DataFlowJs {
                code: "value.value + 1".to_string(),
                format: JsCodeFormat::Expression,
            }),
        ),
        test_node(
            "add_together",
            DataFlowNodeFunction::Js(DataFlowJs {
                code: "let result = (x?.value ?? 0) + (y?.value ?? 0);\nreturn result;"
                    .to_string(),
                format: JsCodeFormat::Function,
            }),
        ),
        test_node(
            "fetch_given_value",
            DataFlowNodeFunction::Js(DataFlowJs {
                code: "const response = await fetch(`https://data/doc/${doc_id}`);\n\
                       const json = await response.json();\n\
                       return { result: json.code };"
                    .to_string(),
                format: JsCodeFormat::AsyncFunction,
            }),
        ),
        test_node(
            "email_label",
            DataFlowNodeFunction::Text(DataFlowText {
                body: "The value:".to_string(),
                render_as: TextRenderAs::PlainText,
            }),
        ),
        test_node(
            "send_email",
            DataFlowNodeFunction::Action(DataFlowAction {
                action_id: "send_email".to_string(),
                payload_code: DataFlowJs {
                    code: "if(code?.result > 0) {\n\
                           let contents = [label, code.result].join(' ');\n\
                           console.log('Sending the email:', contents);\n\
                           return { contents };\n\
                           }"
                        .to_string(),
                    format: JsCodeFormat::Function,
                },
            }),
        ),
    ];
    let edges = vec![
        edge(0, 2, "value"),
        edge(0, 3, "x"),
        edge(1, 3, "y"),
        edge(3, 4, "doc_id"),
        edge(5, 6, "label"),
        edge(4, 6, "code"),
    ];
    DataFlowConfig::new(nodes, edges).unwrap()
}

fn arg<'a>(req: &'a ScriptRequest, name: &str) -> Option<&'a JsonValue> {
    req.args
        .iter()
        .find(|(n, _)| n.as_str() == name)
        .map(|(_, v)| &**v)
}

fn int_field(value: &JsonValue, key: &str) -> Option<i64> {
    match value {
        JsonValue::Object(members) => members.iter().find(|m| m.name.as_str() == key).and_then(|m| match &m.value {
            JsonValue::Int(i) => Some(*i),
            _ => None,
        }),
        _ => None,
    }
}

/// Stands in for the scripting runtime: computes what each script of the
/// example config would.
fn run_script(req: &ScriptRequest) -> (Rc<JsonValue>, Vec<String>) {
    if req.code.contains("value.value + 1") {
        let v = int_field(arg(req, "value").unwrap(), "value").unwrap();
        (jint(v + 1), Vec::new())
    } else if req.code.contains("let result") {
        let x = arg(req, "x").and_then(|v| int_field(v, "value")).unwrap_or(0);
        let y = arg(req, "y").and_then(|v| int_field(v, "value")).unwrap_or(0);
        (jint(x + y), Vec::new())
    } else if req.code.contains("fetch(") {
        let doc_id = match arg(req, "doc_id").unwrap() {
            JsonValue::Int(i) => *i,
            _ => panic!("doc_id should be a number"),
        };
        let code = match doc_id {
            1 => 5,
            3 => 7,
            _ => 0,
        };
        (Rc::new(obj1("result", JsonValue::Int(code))), Vec::new())
    } else if req.code.contains("Sending the email:") {
        let label = match arg(req, "label").unwrap() {
            JsonValue::Str(s) => s.clone(),
            _ => panic!("label should be text"),
        };
        let result = int_field(arg(req, "code").unwrap(), "result").unwrap_or(0);
        if result > 0 {
            let contents = format!("{} {}", label, result);
            let console = vec![format!("Sending the email: {}\n", contents)];
            (
                Rc::new(obj1("contents", JsonValue::Str(contents))),
                console,
            )
        } else {
            (jnull(), Vec::new())
        }
    } else {
        panic!("unexpected script: {}", req.code);
    }
}

fn drive(
    config: &DataFlowConfig,
    state: DataFlowState,
    trigger: &str,
    payload: Rc<JsonValue>,
) -> (DataFlowState, Option<DataFlowLog>, Vec<TaskActionInvocation>) {
    let mut ev = config
        .evaluate_trigger(&"task".to_string(), state, &trigger.to_string(), payload)
        .unwrap();
    while !ev.is_finished() {
        match ev.step(config) {
            StepOutcome::NeedScript(req) => {
                let (result, console) = run_script(&req);
                ev.resume(config, result, console);
            }
            StepOutcome::Ran => {}
            StepOutcome::Finished => break,
        }
    }
    ev.finish()
}

fn assert_state(state: &DataFlowState, expected: &[JsonValue]) {
    assert_eq!(state.nodes.len(), expected.len());
    for (i, want) in expected.iter().enumerate() {
        assert_eq!(&*state.nodes[i], want, "node state {} differs", i);
    }
}

#[test]
fn test_run_nodes() {
    let config = test_config();
    let state = config.default_state();

    println!("Sending 1 to trigger1");
    let (state, log, actions) = drive(&config, state, "trigger1", Rc::new(obj1("value", JsonValue::Int(1))));

    assert_state(
        &state,
        &[
            obj1("value", JsonValue::Int(1)),
            JsonValue::Null,
            JsonValue::Int(2),
            JsonValue::Int(1),
            obj1("result", JsonValue::Int(5)),
            JsonValue::Null,
            obj1("contents", JsonValue::Str("The value: 5".to_string())),
        ],
    );
    assert_eq!(actions.len(), 1);
    assert_eq!(actions[0].name, "send_email");
    assert_eq!(
        *actions[0].payload,
        obj1("contents", JsonValue::Str("The value: 5".to_string()))
    );
    let log = log.expect("log");
    assert_eq!(log.run[0].node, "send_email");
    assert_eq!(log.run[0].console.len(), 1);
    assert_eq!(log.run[0].console[0], "Sending the email: The value: 5\n");

    println!("Sending -1 to trigger2");
    let (state, log, actions) = drive(
        &config,
        state,
        "trigger2",
        Rc::new(obj1("value", JsonValue::Int(-1))),
    );

    // The sum is no longer positive, so the email action returns null:
    // nothing is sent and nothing is logged.
    assert!(actions.is_empty());
    assert!(log.is_none());
    assert_state(
        &state,
        &[
            obj1("value", JsonValue::Int(1)),
            obj1("value", JsonValue::Int(-1)),
            JsonValue::Int(2),
            JsonValue::Int(0),
            obj1("result", JsonValue::Int(0)),
            JsonValue::Null,
            JsonValue::Null,
        ],
    );

    println!("Sending 2 to trigger2");
    let (state, log, actions) = drive(
        &config,
        state,
        "trigger2",
        Rc::new(obj1("value", JsonValue::Int(2))),
    );

    assert_state(
        &state,
        &[
            obj1("value", JsonValue::Int(1)),
            obj1("value", JsonValue::Int(2)),
            JsonValue::Int(2),
            JsonValue::Int(3),
            obj1("result", JsonValue::Int(7)),
            JsonValue::Null,
            obj1("contents", JsonValue::Str("The value: 7".to_string())),
        ],
    );
    assert_eq!(actions.len(), 1);
    assert_eq!(actions[0].name, "send_email");
    assert_eq!(
        *actions[0].payload,
        obj1("contents", JsonValue::Str("The value: 7".to_string()))
    );
    let log = log.expect("log");
    assert_eq!(log.run[0].node, "send_email");
    assert_eq!(log.run[0].console[0], "Sending the email: The value: 7\n");
}

#[test]
fn short_state_equals_prepadded_state() {
    let config = test_config();

    let short = config.default_state();
    let padded = DataFlowState {
        nodes: (0..7).map(|_| jnull()).collect(),
    };

    let payload = || Rc::new(obj1("value", JsonValue::Int(1)));
    let (s1, l1, a1) = drive(&config, short, "trigger1", payload());
    let (s2, l2, a2) = drive(&config, padded, "trigger1", payload());

    assert_eq!(s1.nodes.len(), s2.nodes.len());
    for i in 0..s1.nodes.len() {
        assert_eq!(*s1.nodes[i], *s2.nodes[i]);
    }
    assert_eq!(l1.is_some(), l2.is_some());
    assert_eq!(a1.len(), a2.len());
    for i in 0..a1.len() {
        assert_eq!(a1[i].name, a2[i].name);
        assert_eq!(*a1[i].payload, *a2[i].payload);
    }
}

#[test]
fn evaluation_is_deterministic() {
    let config = test_config();
    let payload = || Rc::new(obj1("value", JsonValue::Int(1)));
    let (s1, l1, a1) = drive(&config, config.default_state(), "trigger1", payload());
    let (s2, l2, a2) = drive(&config, config.default_state(), "trigger1", payload());
    for i in 0..s1.nodes.len() {
        assert_eq!(*s1.nodes[i], *s2.nodes[i]);
    }
    assert_eq!(l1.unwrap().run[0].console, l2.unwrap().run[0].console);
    assert_eq!(a1.len(), a2.len());
}

#[test]
fn unknown_trigger_is_not_found() {
    let config = test_config();
    let state = config.default_state();
    let r = config.evaluate_trigger(
        &"task".to_string(),
        state,
        &"no_such_trigger".to_string(),
        jnull(),
    );
    match r {
        Err(Error::TaskTriggerNotFound(id)) => assert_eq!(id, "no_such_trigger"),
        _ => panic!("a missing trigger must be reported"),
    }
}

#[test]
fn cyclic_config_is_rejected() {
    let nodes = vec![
        test_node(
            "a",
            DataFlowNodeFunction::Trigger(DataFlowTrigger {
                local_id: "t".to_string(),
            }),
        ),
        test_node(
            "b",
            DataFlowNodeFunction::Text(DataFlowText {
                body: "x".to_string(),
                render_as: TextRenderAs::PlainText,
            }),
        ),
    ];
    let edges = vec![edge(0, 1, "i"), edge(1, 0, "j")];
    assert_eq!(
        DataFlowConfig::new(nodes, edges).err(),
        Some(Error::CycleDetected)
    );
}

#[test]
fn out_of_range_edge_is_rejected() {
    let nodes = vec![test_node(
        "a",
        DataFlowNodeFunction::Trigger(DataFlowTrigger {
            local_id: "t".to_string(),
        }),
    )];
    let edges = vec![edge(0, 5, "i")];
    assert_eq!(
        DataFlowConfig::new(nodes, edges).err(),
        Some(Error::EdgeOutOfRange)
    );
}

#[test]
fn first_trigger_declaration_wins() {
    // two trigger nodes declare the same local id; the first one receives
    // the payload
    let nodes = vec![
        test_node(
            "first",
            DataFlowNodeFunction::Trigger(DataFlowTrigger {
                local_id: "t".to_string(),
            }),
        ),
        test_node(
            "second",
            DataFlowNodeFunction::Trigger(DataFlowTrigger {
                local_id: "t".to_string(),
            }),
        ),
    ];
    let config = DataFlowConfig::new(nodes, Vec::new()).unwrap();
    let mut ev = config
        .evaluate_trigger(
            &"task".to_string(),
            config.default_state(),
            &"t".to_string(),
            jint(7),
        )
        .unwrap();
    while !ev.is_finished() {
        match ev.step(&config) {
            StepOutcome::NeedScript(_) => panic!("trigger nodes need no script"),
            _ => {}
        }
    }
    let (state, _, _) = ev.finish();
    assert_eq!(*state.nodes[0], JsonValue::Int(7));
    assert_eq!(*state.nodes[1], JsonValue::Null);
}
