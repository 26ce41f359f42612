//! Queueing of inbound trigger events: the pure half.
//!
//! Enqueueing an event writes a job to a named queue, records the arrival,
//! and optionally notifies.  The records and the queue name are computed
//! here; the transaction that writes them belongs to the caller.

use crate::json::{rc_dup, JsonValue};
use std::rc::Rc;
use vstd::prelude::*;
use vstd::string::StringExecFns;

verus! {

/// The queue that inbound events of one deployment wait on.  A redis key
/// prefix, when configured, namespaces the queue.
#[derive(Debug)]
pub struct InputQueue {
    pub name: String,
}

/// The queue name for a given key prefix: `{prefix}-er-input`, or the bare
/// name without one.
pub fn input_queue_name(key_prefix: &Option<String>) -> (r: String)
    ensures
        match key_prefix {
            Option::Some(p) => r@ == p@ + "-"@ + "er-input"@,
            Option::None => r@ == "er-input"@,
        },
{
    match key_prefix {
        Some(prefix) => {
            let mut s = prefix.clone();
            s.append("-");
            s.append("er-input");
            s
        },
        None => "er-input".to_owned(),
    }
}

impl InputQueue {
    pub fn new(key_prefix: &Option<String>) -> (r: InputQueue)
        ensures
            match key_prefix {
                Option::Some(p) => r.name@ == p@ + "-"@ + "er-input"@,
                Option::None => r.name@ == "er-input"@,
            },
    {
        InputQueue { name: input_queue_name(key_prefix) }
    }
}

/// The job payload placed on the queue for one inbound event.
#[derive(Debug)]
pub struct InputInvocation {
    pub task_trigger_id: i64,
    pub task_id: i64,
    pub input_id: i64,
    pub inputs_log_id: String,
    pub payload: Rc<JsonValue>,
}

#[derive(Debug, PartialEq, Eq, Structural)]
pub enum NotifyEvent {
    InputArrived,
}

/// What a listener is told when an event arrives.
#[derive(Debug)]
pub struct Notification {
    pub task_id: i64,
    pub local_id: String,
    pub local_object_id: Option<i64>,
    pub local_object_name: String,
    pub error: Option<String>,
    pub event: NotifyEvent,
    pub task_name: String,
    pub log_id: Option<String>,
    pub payload: Option<Rc<JsonValue>>,
}

/// Everything the caller needs to enqueue one inbound event.  `notify`
/// says whether a notification manager is configured.
#[derive(Debug)]
pub struct EnqueueInputOptions {
    pub notify: bool,
    pub org_id: String,
    pub task_id: i64,
    pub task_name: String,
    pub input_id: i64,
    pub task_trigger_id: i64,
    pub task_trigger_local_id: String,
    pub task_trigger_name: String,
    pub payload: Rc<JsonValue>,
    pub redis_key_prefix: Option<String>,
}

/// The queue write and notification that enqueueing one event performs.
#[derive(Debug)]
pub struct EnqueuePlan {
    pub queue_name: String,
    pub invocation: InputInvocation,
    pub notification: Option<Notification>,
}

/// Plans the enqueue of one inbound event: which queue gets which job, and
/// what is announced.  `input_arrival_id` is the freshly drawn id under
/// which the arrival is logged; the caller commits the plan inside one
/// transaction.
pub fn plan_enqueue_input(options: EnqueueInputOptions, input_arrival_id: String) -> (r:
    EnqueuePlan)
    ensures
        (match options.redis_key_prefix {
            Option::Some(p) => r.queue_name@ == p@ + "-"@ + "er-input"@,
            Option::None => r.queue_name@ == "er-input"@,
        }),
        r.invocation.task_trigger_id == options.task_trigger_id,
        r.invocation.task_id == options.task_id,
        r.invocation.input_id == options.input_id,
        r.invocation.inputs_log_id@ == input_arrival_id@,
        r.invocation.payload == options.payload,
        (r.notification is Some <==> options.notify),
        (r.notification matches Some(nf) ==> {
            &&& nf.task_id == options.task_id
            &&& nf.local_id@ == options.task_trigger_local_id@
            &&& nf.local_object_id == Option::Some(options.task_trigger_id)
            &&& nf.local_object_name@ == options.task_trigger_name@
            &&& nf.error is None
            &&& nf.event == NotifyEvent::InputArrived
            &&& nf.task_name@ == options.task_name@
            &&& (nf.log_id matches Some(l) && l@ == input_arrival_id@)
            &&& (nf.payload matches Some(p) && p == options.payload)
        }),
{
    let queue_name = input_queue_name(&options.redis_key_prefix);
    let invocation = InputInvocation {
        task_trigger_id: options.task_trigger_id,
        task_id: options.task_id,
        input_id: options.input_id,
        inputs_log_id: input_arrival_id.clone(),
        payload: rc_dup(&options.payload),
    };
    let notification = if options.notify {
        Some(
            Notification {
                task_id: options.task_id,
                local_id: options.task_trigger_local_id,
                local_object_id: Some(options.task_trigger_id),
                local_object_name: options.task_trigger_name,
                error: None,
                event: NotifyEvent::InputArrived,
                task_name: options.task_name,
                log_id: Some(input_arrival_id),
                payload: Some(options.payload),
            },
        )
    } else {
        None
    };
    EnqueuePlan { queue_name, invocation, notification }
}

} // verus!
