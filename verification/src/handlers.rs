//! The plain data of the task API: what a caller supplies to create or
//! update a task, and the id a new task gets.  The HTTP endpoints and
//! database statements around these values do input and output and stay
//! outside the library.

use crate::json::JsonValue;
use crate::state_machine::{StateMachineConfig, StateMachineStates};
use std::rc::Rc;
use vstd::prelude::*;

verus! {

/// One action a task declares, keyed by its local id.
#[derive(Debug)]
pub struct TaskActionInput {
    pub name: String,
    pub action_id: i64,
    pub account_id: Option<i64>,
    pub action_template: Option<Vec<(String, Rc<JsonValue>)>>,
}

/// One trigger a task declares, keyed by its local id.
#[derive(Debug)]
pub struct TaskTriggerInput {
    pub input_id: i64,
    pub name: String,
    pub description: Option<String>,
}

/// A task as a caller writes it.
#[derive(Debug)]
pub struct TaskInput {
    /// Only used internally when putting a task that does not exist yet.
    pub external_task_id: Option<String>,
    pub name: String,
    pub description: Option<String>,
    pub enabled: bool,
    pub state_machine_config: StateMachineConfig,
    pub state_machine_states: StateMachineStates,
    pub actions: Vec<(String, TaskActionInput)>,
    pub triggers: Vec<(String, TaskTriggerInput)>,
}

/// Relies on uuid::Uuid::new_v4: a freshly drawn random id of 16 bytes.
/// Nothing is known of the bytes but their count.
#[verifier::external_body]
fn new_uuid_bytes() -> (r: Vec<u8>)
    ensures
        r@.len() == 16,
{
    uuid::Uuid::new_v4().as_bytes().to_vec()
}

/// The unpadded URL-safe base64 text of a byte string.
pub uninterp spec fn base64_url_of(bytes: Seq<u8>) -> Seq<char>;

/// Relies on base64::encode_config with URL_SAFE_NO_PAD: the unpadded
/// URL-safe base64 text of the bytes, a function of the bytes alone, four
/// characters for every three bytes and the stub for a remainder.
#[verifier::external_body]
fn encode_base64_url(bytes: &Vec<u8>) -> (r: String)
    ensures
        r@ == base64_url_of(bytes@),
        r@.len() == (bytes@.len() * 4 + 2) / 3,
{
    base64::encode_config(bytes, base64::URL_SAFE_NO_PAD)
}

/// A fresh external id for a task created without one: the URL-safe base64
/// text of a newly drawn 16-byte id, 22 characters.
pub fn new_external_task_id() -> (r: String)
    ensures
        r@.len() == 22,
        exists|b: Seq<u8>| b.len() == 16 && r@ == base64_url_of(b),
{
    let bytes = new_uuid_bytes();
    let r = encode_base64_url(&bytes);
    proof {
        assert(bytes@.len() == 16 && r@ == base64_url_of(bytes@));
    }
    r
}

/// The external id a new task is stored under: the one the caller
/// supplied, or a freshly generated one.
pub fn resolve_external_task_id(explicit: Option<String>) -> (r: String)
    ensures
        match explicit {
            Option::Some(s) => r == s,
            Option::None => r@.len() == 22 && exists|b: Seq<u8>|
                b.len() == 16 && r@ == base64_url_of(b),
        },
{
    match explicit {
        Some(s) => s,
        None => new_external_task_id(),
    }
}

} // verus!
