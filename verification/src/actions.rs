//! The record handed to the external action dispatcher when a node decides
//! to invoke a downstream action.

use crate::json::{rc_dup, JsonValue};
use std::rc::Rc;
use vstd::prelude::*;

verus! {

/// One resolved action invocation: which task action to run and with what
/// payload.  Dispatching it is the caller's job.
#[derive(Debug)]
pub struct TaskActionInvocation {
    pub name: String,
    pub payload: Rc<JsonValue>,
}

pub type TaskActionInvocations = Vec<TaskActionInvocation>;


/// How a template field's value must be shaped.
#[derive(Debug, Clone, Copy, PartialEq, Eq, Structural)]
pub enum TemplateFieldFormat {
    Text,
    Object,
}

/// One field of an action's payload template.
#[derive(Debug)]
pub struct TemplateField {
    pub name: String,
    pub format: TemplateFieldFormat,
    pub optional: bool,
    pub description: String,
}

impl TemplateField {
    pub fn new(name: &str, format: TemplateFieldFormat, optional: bool, description: &str) -> (r:
        TemplateField)
        ensures
            r.name@ == name@,
            r.format == format,
            r.optional == optional,
            r.description@ == description@,
    {
        TemplateField { name: name.to_owned(), format, optional, description: description.to_owned() }
    }
}

pub type TemplateFields = Vec<TemplateField>;

/// The script-running action executor.  Its payload template declares the
/// script's name, the script itself, and the arguments it sees.
#[derive(Debug)]
pub struct JsExecutor {
    template_fields: TemplateFields,
}

impl JsExecutor {
    pub closed spec fn spec_template_fields(&self) -> Seq<TemplateField> {
        self.template_fields@
    }

    /// The template declares exactly its three fields.
    pub open spec fn wf(&self) -> bool {
        let fs = self.spec_template_fields();
        &&& fs.len() == 3
        &&& fs[0].name@ == "name"@
        &&& fs[0].format == TemplateFieldFormat::Text
        &&& fs[0].optional
        &&& fs[1].name@ == "script"@
        &&& fs[1].format == TemplateFieldFormat::Text
        &&& !fs[1].optional
        &&& fs[2].name@ == "args"@
        &&& fs[2].format == TemplateFieldFormat::Object
        &&& fs[2].optional
        &&& fs[0].description@ == "The name of the action"@
        &&& fs[1].description@ == "The script to execute"@
        &&& fs[2].description@ == "Arguments to the script. Exposed as 'args' in the script"@
    }

    pub fn new() -> (r: JsExecutor)
        ensures
            r.wf(),
    {
        let mut template_fields: Vec<TemplateField> = Vec::new();
        template_fields.push(
            TemplateField::new("name", TemplateFieldFormat::Text, true, "The name of the action"),
        );
        template_fields.push(
            TemplateField::new("script", TemplateFieldFormat::Text, false, "The script to execute"),
        );
        template_fields.push(
            TemplateField::new(
                "args",
                TemplateFieldFormat::Object,
                true,
                "Arguments to the script. Exposed as 'args' in the script",
            ),
        );
        JsExecutor { template_fields }
    }

    /// The executor's registry name.
    pub fn name(&self) -> (r: &'static str)
        ensures
            r@ == "js"@,
    {
        "js"
    }

    pub fn template_fields(&self) -> (r: &TemplateFields)
        ensures
            r@ == self.spec_template_fields(),
    {
        &self.template_fields
    }
}


/// Errors from reading an action's payload against its template.
#[derive(Debug, PartialEq, Eq)]
pub enum ExecutorError {
    /// A declared field is present but holds the wrong shape of value.
    FieldFormatError { field: String, subfield: Option<String>, expected: String },
}

/// `i` is the first payload entry named `key`.
pub open spec fn is_first_field(
    payload: Seq<(String, Rc<JsonValue>)>,
    key: Seq<char>,
    i: int,
) -> bool {
    &&& 0 <= i < payload.len()
    &&& payload[i].0@ == key
    &&& forall|j: int| 0 <= j < i ==> (#[trigger] payload[j].0)@ != key
}

pub open spec fn has_field(payload: Seq<(String, Rc<JsonValue>)>, key: Seq<char>) -> bool {
    exists|i: int| 0 <= i < payload.len() && (#[trigger] payload[i].0)@ == key
}

/// Index of the first payload entry named `key`, if any.
fn payload_find(payload: &Vec<(String, Rc<JsonValue>)>, key: &String) -> (r: Option<usize>)
    ensures
        match r {
            Some(i) => is_first_field(payload@, key@, i as int),
            None => !has_field(payload@, key@),
        },
{
    let mut i: usize = 0;
    while i < payload.len()
        invariant
            i <= payload@.len(),
            forall|j: int| 0 <= j < i ==> (#[trigger] payload@[j].0)@ != key@,
        decreases payload@.len() - i,
    {
        if payload[i].0.eq(key) {
            return Some(i);
        }
        i += 1;
    }
    None
}

impl TemplateField {
    /// Reads this field out of an action payload as text: an absent field
    /// reads as nothing, a present one must hold text.
    pub fn extract_str(&self, payload: &Vec<(String, Rc<JsonValue>)>) -> (r: Result<
        Option<String>,
        ExecutorError,
    >)
        ensures
            !has_field(payload@, self.name@) ==> r == Result::<Option<String>, ExecutorError>::Ok(Option::None),
            forall|i: int|
                is_first_field(payload@, self.name@, i) ==> (match *(#[trigger] payload@[i]).1 {
                    JsonValue::Str(s) => (r matches Ok(o) && o matches Some(x) && x@ == s@),
                    _ => (r matches Err(e) && e matches ExecutorError::FieldFormatError {
                        field,
                        subfield,
                        expected,
                    } && field@ == self.name@ && subfield is None && expected@ == "string"@),
                }),
    {
        match payload_find(payload, &self.name) {
            None => Ok(None),
            Some(i) => match &*payload[i].1 {
                JsonValue::Str(s) => Ok(Some(s.clone())),
                _ => Err(
                    ExecutorError::FieldFormatError {
                        field: self.name.clone(),
                        subfield: None,
                        expected: "string".to_owned(),
                    },
                ),
            },
        }
    }

    /// Reads this field out of an action payload as an object: an absent
    /// field reads as nothing, a present one must hold an object.
    pub fn extract_object(&self, payload: &Vec<(String, Rc<JsonValue>)>) -> (r: Result<
        Option<Rc<JsonValue>>,
        ExecutorError,
    >)
        ensures
            !has_field(payload@, self.name@) ==> r == Result::<Option<Rc<JsonValue>>, ExecutorError>::Ok(Option::None),
            forall|i: int|
                is_first_field(payload@, self.name@, i) ==> (match *(#[trigger] payload@[i]).1 {
                    JsonValue::Object(_) => (r matches Ok(o) && o matches Some(v) && v
                        == payload@[i].1),
                    _ => (r matches Err(e) && e matches ExecutorError::FieldFormatError {
                        field,
                        subfield,
                        expected,
                    } && field@ == self.name@ && subfield is None && expected@ == "object"@),
                }),
    {
        match payload_find(payload, &self.name) {
            None => Ok(None),
            Some(i) => match &*payload[i].1 {
                JsonValue::Object(_) => Ok(Some(rc_dup(&payload[i].1))),
                _ => Err(
                    ExecutorError::FieldFormatError {
                        field: self.name.clone(),
                        subfield: None,
                        expected: "object".to_owned(),
                    },
                ),
            },
        }
    }
}

/// What one run of the script executor needs: the module name the script
/// runs under, the script itself and the value bound as `args`.
#[derive(Debug)]
pub struct PreparedScript {
    pub name: String,
    pub script: String,
    pub args: Rc<JsonValue>,
}

impl JsExecutor {
    /// The decision half of executing one action: reads the template
    /// fields out of the payload, with an absent name defaulting to
    /// "script", an absent script to empty and absent args to an empty
    /// object.  Running the result is the scripting runtime's job.
    pub fn prepare(&self, payload: &Vec<(String, Rc<JsonValue>)>) -> (r: Result<
        PreparedScript,
        ExecutorError,
    >)
        requires
            self.wf(),
        ensures
            (r matches Ok(p) ==> {
                &&& (!has_field(payload@, "name"@) ==> p.name@ == "script"@)
                &&& (!has_field(payload@, "script"@) ==> p.script@ == Seq::<char>::empty())
                &&& (!has_field(payload@, "args"@) ==> (*p.args matches JsonValue::Object(ms)
                    && ms@.len() == 0))
                &&& (forall|i: int|
                    is_first_field(payload@, "name"@, i) ==> (
                    *(#[trigger] payload@[i]).1 matches JsonValue::Str(s) && p.name@ == s@))
                &&& (forall|i: int|
                    is_first_field(payload@, "script"@, i) ==> (
                    *(#[trigger] payload@[i]).1 matches JsonValue::Str(s) && p.script@ == s@))
                &&& (forall|i: int|
                    is_first_field(payload@, "args"@, i) ==> (
                    *(#[trigger] payload@[i]).1 matches JsonValue::Object(_) && p.args
                        == payload@[i].1))
            }),
            (r is Err ==> exists|k: int|
                0 <= k < 3 && #[trigger] has_field(
                    payload@,
                    self.spec_template_fields()[k].name@,
                ) && (forall|i: int|
                    is_first_field(payload@, self.spec_template_fields()[k].name@, i) ==> (match *(
                    #[trigger] payload@[i]).1 {
                        JsonValue::Str(_) => k == 2,
                        JsonValue::Object(_) => k < 2,
                        _ => true,
                    }))),
    {
        let name = match self.template_fields[0].extract_str(payload) {
            Ok(n) => n,
            Err(e) => {
                proof {
                    assert(has_field(payload@, self.spec_template_fields()[0].name@));
                    assert forall|i: int|
                        is_first_field(
                            payload@,
                            self.spec_template_fields()[0].name@,
                            i,
                        ) implies !(*(#[trigger] payload@[i]).1 is Str) by {}
                }
                return Err(e);
            },
        };
        let script = match self.template_fields[1].extract_str(payload) {
            Ok(sc) => sc,
            Err(e) => {
                proof {
                    assert(has_field(payload@, self.spec_template_fields()[1].name@));
                    assert forall|i: int|
                        is_first_field(
                            payload@,
                            self.spec_template_fields()[1].name@,
                            i,
                        ) implies !(*(#[trigger] payload@[i]).1 is Str) by {}
                }
                return Err(e);
            },
        };
        let args = match self.template_fields[2].extract_object(payload) {
            Ok(a) => a,
            Err(e) => {
                proof {
                    assert(has_field(payload@, self.spec_template_fields()[2].name@));
                    assert forall|i: int|
                        is_first_field(
                            payload@,
                            self.spec_template_fields()[2].name@,
                            i,
                        ) implies !(*(#[trigger] payload@[i]).1 is Object) by {}
                }
                return Err(e);
            },
        };
        let name = match name {
            Some(n) => n,
            None => "script".to_owned(),
        };
        let script = match script {
            Some(sc) => sc,
            None => String::new(),
        };
        let args = match args {
            Some(a) => a,
            None => Rc::new(JsonValue::Object(Vec::new())),
        };
        Ok(PreparedScript { name, script, args })
    }
}

} // verus!
