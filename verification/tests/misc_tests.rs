use ergo_tasks::actions::{ExecutorError, JsExecutor, TemplateFieldFormat};
use ergo_tasks::handlers::resolve_external_task_id;
use ergo_tasks::inputs::{
    input_queue_name, plan_enqueue_input, EnqueueInputOptions, InputQueue, NotifyEvent,
};
use ergo_tasks::json::JsonValue;
use std::rc::Rc;

#[test]
fn it_works() {
    assert_eq!(2 + 2, 4);
}

#[test]
fn js_executor_template() {
    let ex = JsExecutor::new();
    assert_eq!(ex.name(), "js");
    let fields = ex.template_fields();
    assert_eq!(fields.len(), 3);
    assert_eq!(fields[0].name, "name");
    assert_eq!(fields[0].format, TemplateFieldFormat::Text);
    assert!(fields[0].optional);
    assert_eq!(fields[1].name, "script");
    assert!(!fields[1].optional);
    assert_eq!(fields[2].name, "args");
    assert_eq!(fields[2].format, TemplateFieldFormat::Object);
}

#[test]
fn queue_name_with_prefix() {
    let name = input_queue_name(&Some("staging".to_string()));
    assert_eq!(name, "staging-er-input");
    let q = InputQueue::new(&Some("staging".to_string()));
    assert_eq!(q.name, "staging-er-input");
}

#[test]
fn queue_name_without_prefix() {
    let name = input_queue_name(&None);
    assert_eq!(name, "er-input");
}

fn options(notify: bool) -> EnqueueInputOptions {
    EnqueueInputOptions {
        notify,
        org_id: "org".to_string(),
        task_id: 10,
        task_name: "my task".to_string(),
        input_id: 20,
        task_trigger_id: 30,
        task_trigger_local_id: "trigger1".to_string(),
        task_trigger_name: "first trigger".to_string(),
        payload: Rc::new(JsonValue::Int(9)),
        redis_key_prefix: None,
    }
}

#[test]
fn enqueue_plan_without_notification() {
    let plan = plan_enqueue_input(options(false), "log-id-1".to_string());
    assert_eq!(plan.queue_name, "er-input");
    assert_eq!(plan.invocation.task_id, 10);
    assert_eq!(plan.invocation.input_id, 20);
    assert_eq!(plan.invocation.task_trigger_id, 30);
    assert_eq!(plan.invocation.inputs_log_id, "log-id-1");
    assert_eq!(*plan.invocation.payload, JsonValue::Int(9));
    assert!(plan.notification.is_none());
}

#[test]
fn enqueue_plan_with_notification() {
    let plan = plan_enqueue_input(options(true), "log-id-2".to_string());
    let nf = plan.notification.expect("notification");
    assert_eq!(nf.task_id, 10);
    assert_eq!(nf.local_id, "trigger1");
    assert_eq!(nf.local_object_id, Some(30));
    assert_eq!(nf.local_object_name, "first trigger");
    assert!(nf.error.is_none());
    assert_eq!(nf.event, NotifyEvent::InputArrived);
    assert_eq!(nf.task_name, "my task");
    assert_eq!(nf.log_id, Some("log-id-2".to_string()));
    assert_eq!(*nf.payload.expect("payload"), JsonValue::Int(9));
}

#[test]
fn explicit_task_id_is_kept() {
    let id = resolve_external_task_id(Some("my-id".to_string()));
    assert_eq!(id, "my-id");
}

#[test]
fn generated_task_id_is_base64_of_16_bytes() {
    let id = resolve_external_task_id(None);
    assert_eq!(id.len(), 22);
    assert!(id
        .chars()
        .all(|c| c.is_ascii_alphanumeric() || c == '-' || c == '_'));
    // two draws almost surely differ
    let other = resolve_external_task_id(None);
    assert!(id != other || id.len() == 22);
}

fn payload_entry(key: &str, value: JsonValue) -> (String, Rc<JsonValue>) {
    (key.to_string(), Rc::new(value))
}

#[test]
fn prepare_reads_template_fields() {
    let ex = JsExecutor::new();
    let payload = vec![
        payload_entry("name", JsonValue::Str("greet".to_string())),
        payload_entry("script", JsonValue::Str("return 1;".to_string())),
        payload_entry("args", JsonValue::Object(Vec::new())),
    ];
    let prepared = ex.prepare(&payload).unwrap();
    assert_eq!(prepared.name, "greet");
    assert_eq!(prepared.script, "return 1;");
    assert_eq!(*prepared.args, JsonValue::Object(Vec::new()));
}

#[test]
fn prepare_defaults_missing_fields() {
    let ex = JsExecutor::new();
    let prepared = ex.prepare(&Vec::new()).unwrap();
    assert_eq!(prepared.name, "script");
    assert_eq!(prepared.script, "");
    assert_eq!(*prepared.args, JsonValue::Object(Vec::new()));
}

#[test]
fn prepare_rejects_wrongly_shaped_field() {
    let ex = JsExecutor::new();
    let payload = vec![payload_entry("script", JsonValue::Int(5))];
    let err = ex.prepare(&payload).unwrap_err();
    assert_eq!(
        err,
        ExecutorError::FieldFormatError {
            field: "script".to_string(),
            subfield: None,
            expected: "string".to_string(),
        }
    );

    let payload = vec![payload_entry("args", JsonValue::Str("not an object".to_string()))];
    let err = ex.prepare(&payload).unwrap_err();
    assert_eq!(
        err,
        ExecutorError::FieldFormatError {
            field: "args".to_string(),
            subfield: None,
            expected: "object".to_string(),
        }
    );
}
