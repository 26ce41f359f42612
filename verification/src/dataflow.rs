//! The dataflow task interpreter.
//!
//! A task's behavior is a graph of nodes joined by named edges.  One
//! inbound trigger evaluates the trigger node on the raw payload, then
//! walks every node downstream of it in topological order, gathering each
//! node's inputs from its incoming edges.
//!
//! Nodes backed by a script run through the external scripting runtime,
//! which the engine never calls itself: evaluation is a session.  The
//! caller repeatedly asks the session to `step`; when a step needs a
//! script run the session hands out a [`ScriptRequest`] and waits until
//! the caller `resume`s it with the outcome.  Everything the engine
//! decides — which node runs next, what its inputs are, what is persisted,
//! which actions are emitted — is fixed by the contracts below.

use crate::actions::{TaskActionInvocation, TaskActionInvocations};
use crate::dag;
use crate::error::Error;
use crate::json::{rc_dup, JsonValue};
use crate::node::{DataFlowNode, DataFlowNodeFunction, JsCodeFormat};
use std::rc::Rc;
use vstd::prelude::*;

verus! {

/// A named data dependency: the output of node `from` feeds the input slot
/// `name` of node `to`.
#[derive(Debug, Clone, PartialEq, Eq)]
pub struct DataFlowEdge {
    pub from: u32,
    pub to: u32,
    pub name: String,
}

impl DataFlowEdge {
    /// Edges order by source index, then target index; the slot name does
    /// not take part.  A config's edge list is kept sorted this way.
    pub open spec fn spec_cmp(&self, other: &DataFlowEdge) -> core::cmp::Ordering {
        if self.from < other.from {
            core::cmp::Ordering::Less
        } else if self.from > other.from {
            core::cmp::Ordering::Greater
        } else if self.to < other.to {
            core::cmp::Ordering::Less
        } else if self.to > other.to {
            core::cmp::Ordering::Greater
        } else {
            core::cmp::Ordering::Equal
        }
    }

    pub fn cmp(&self, other: &DataFlowEdge) -> (r: core::cmp::Ordering)
        ensures
            r == self.spec_cmp(other),
    {
        if self.from < other.from {
            core::cmp::Ordering::Less
        } else if self.from > other.from {
            core::cmp::Ordering::Greater
        } else if self.to < other.to {
            core::cmp::Ordering::Less
        } else if self.to > other.to {
            core::cmp::Ordering::Greater
        } else {
            core::cmp::Ordering::Equal
        }
    }

    pub fn partial_cmp(&self, other: &DataFlowEdge) -> (r: Option<core::cmp::Ordering>)
        ensures
            r == Option::Some(self.spec_cmp(other)),
    {
        Some(self.cmp(other))
    }
}

/// Per-node persisted state of one task, by node position.  A vector
/// shorter than the node list stands for the missing entries being null.
#[derive(Debug)]
pub struct DataFlowState {
    pub nodes: Vec<Rc<JsonValue>>,
}

/// Console lines captured while one node executed.
#[derive(Debug)]
pub struct DataFlowNodeLog {
    pub node: String,
    pub console: Vec<String>,
}

/// The log of one trigger evaluation: one record per node that wrote
/// console output, in execution order.
#[derive(Debug)]
pub struct DataFlowLog {
    pub run: Vec<DataFlowNodeLog>,
}

/// A dataflow task definition: nodes, edges, and the topological order
/// computed once at construction.
#[derive(Debug)]
pub struct DataFlowConfig {
    nodes: Vec<DataFlowNode>,
    /// The connections between nodes.
    edges: Vec<DataFlowEdge>,
    toposorted: Vec<u32>,
}

impl DataFlowConfig {
    pub closed spec fn spec_nodes(&self) -> Seq<DataFlowNode> {
        self.nodes@
    }

    pub closed spec fn spec_edges(&self) -> Seq<DataFlowEdge> {
        self.edges@
    }

    pub closed spec fn spec_order(&self) -> Seq<u32> {
        self.toposorted@
    }

    /// A validated definition: edges address real nodes and the stored
    /// order is the (unique) Kahn order of the graph.
    pub open spec fn wf(&self) -> bool {
        &&& self.spec_nodes().len() <= u32::MAX
        &&& dag::edges_in_range(self.spec_edges(), self.spec_nodes().len() as nat)
        &&& dag::is_kahn_order(
            self.spec_nodes().len() as nat,
            self.spec_edges(),
            self.spec_order(),
        )
    }

    /// Validates a node/edge set and computes its topological order.
    /// Succeeds exactly when every edge is in range and the graph is
    /// acyclic.
    pub fn new(nodes: Vec<DataFlowNode>, edges: Vec<DataFlowEdge>) -> (r: Result<
        DataFlowConfig,
        Error,
    >)
        ensures
            match r {
                Ok(c) => {
                    &&& c.wf()
                    &&& c.spec_nodes() == nodes@
                    &&& c.spec_edges() == edges@
                    &&& nodes@.len() <= u32::MAX
                    &&& dag::edges_in_range(edges@, nodes@.len() as nat)
                    &&& !dag::has_cycle(edges@)
                },
                Err(e) => {
                    &&& (e is TooManyNodes || e is EdgeOutOfRange || e is CycleDetected)
                    &&& (e == Error::TooManyNodes <==> nodes@.len() > u32::MAX)
                    &&& (e == Error::EdgeOutOfRange <==> (nodes@.len() <= u32::MAX
                        && !dag::edges_in_range(edges@, nodes@.len() as nat)))
                    &&& (e == Error::CycleDetected <==> (nodes@.len() <= u32::MAX
                        && dag::edges_in_range(edges@, nodes@.len() as nat) && dag::has_cycle(
                        edges@,
                    )))
                },
            },
    {
        let n = nodes.len();
        if n > u32::MAX as usize {
            return Err(Error::TooManyNodes);
        }
        let mut k: usize = 0;
        while k < edges.len()
            invariant
                n == nodes@.len(),
                n <= u32::MAX,
                k <= edges@.len(),
                forall|kk: int|
                    0 <= kk < k ==> (#[trigger] edges@[kk]).from < n && edges@[kk].to < n,
            decreases edges@.len() - k,
        {
            if !((edges[k].from as usize) < n) || !((edges[k].to as usize) < n) {
                proof {
                    assert(edges@[k as int].from >= n || edges@[k as int].to >= n);
                    assert(!dag::edges_in_range(edges@, n as nat));
                }
                return Err(Error::EdgeOutOfRange);
            }
            k += 1;
        }
        let toposorted = match dag::toposort_nodes(n, &edges) {
            Ok(o) => o,
            Err(e) => {
                return Err(e);
            },
        };
        Ok(DataFlowConfig { nodes, edges, toposorted })
    }

    /// The state of a task that has never been evaluated.
    pub fn default_state(&self) -> (r: DataFlowState)
        ensures
            r.nodes@.len() == 0,
    {
        DataFlowState { nodes: Vec::new() }
    }
}

/// What the external scripting runtime is asked to run for one node.
#[derive(Debug)]
pub struct ScriptRequest {
    pub code: String,
    pub format: JsCodeFormat,
    /// The node's gathered inputs, to be bound as variables: one entry per
    /// incoming edge, named after the edge.
    pub args: Vec<(String, Rc<JsonValue>)>,
    /// The node's stored state, to be bound as the execution context.
    pub context: Rc<JsonValue>,
}

/// What one `step` of an evaluation session did.
#[derive(Debug)]
pub enum StepOutcome {
    /// Every node of the walk has been evaluated.
    Finished,
    /// The current node needed no script; its effects are applied.
    Ran,
    /// The current node needs a script run; the session waits for
    /// `resume`.
    NeedScript(ScriptRequest),
}

/// `t` is the first node declaring `local_id` as its trigger.
pub open spec fn is_first_trigger(nodes: Seq<DataFlowNode>, local_id: Seq<char>, t: int) -> bool {
    &&& 0 <= t < nodes.len()
    &&& nodes[t].func.spec_is_trigger_for(local_id)
    &&& forall|j: int| 0 <= j < t ==> !nodes[j].func.spec_is_trigger_for(local_id)
}

/// At most one index is the first trigger for a given local id, so the
/// trigger an evaluation starts from is fully determined.
pub proof fn lemma_first_trigger_unique(
    nodes: Seq<DataFlowNode>,
    local_id: Seq<char>,
    t1: int,
    t2: int,
)
    requires
        is_first_trigger(nodes, local_id, t1),
        is_first_trigger(nodes, local_id, t2),
    ensures
        t1 == t2,
{
}

/// The inputs gathered for node `v` from the first `k` edges: for each
/// incoming edge, the producing node's output projection of its stored
/// value, under the edge's name.
pub open spec fn gathered_prefix(
    config: DataFlowConfig,
    state: Seq<Rc<JsonValue>>,
    v: int,
    k: int,
) -> Seq<(Seq<char>, JsonValue)> {
    config.spec_edges().take(k).filter(|e: DataFlowEdge| e.to == v).map_values(
        |e: DataFlowEdge|
            (e.name@, config.spec_nodes()[e.from as int].func.spec_output(*state[e.from as int])),
    )
}

/// The inputs node `v` is handed: one entry per edge into `v`, in edge
/// order.
pub open spec fn gathered_inputs(config: DataFlowConfig, state: Seq<Rc<JsonValue>>, v: int) -> Seq<
    (Seq<char>, JsonValue),
> {
    gathered_prefix(config, state, v, config.spec_edges().len() as int)
}

/// View of one exec argument pair.
pub open spec fn arg_view(p: (String, Rc<JsonValue>)) -> (Seq<char>, JsonValue) {
    (p.0@, *p.1)
}

/// `req` is the script request that node `v` produces against `state`.
pub open spec fn is_request_for(
    config: DataFlowConfig,
    state: Seq<Rc<JsonValue>>,
    v: int,
    req: ScriptRequest,
) -> bool {
    let script = config.spec_nodes()[v].func.spec_script();
    &&& req.code@ == script.code@
    &&& req.format == script.format
    &&& req.args@.map_values(|p: (String, Rc<JsonValue>)| arg_view(p)) == gathered_inputs(
        config,
        state,
        v,
    )
    &&& req.context == state[v]
}

/// One trigger evaluation in progress.  `walk` is the downstream walk of
/// the trigger node; nodes before `pos` have been evaluated.  When
/// `awaiting` is set, the node at `pos` has handed out its script request
/// and waits for the outcome.
#[derive(Debug)]
pub struct DataFlowEvaluation {
    task_name: String,
    walk: Vec<u32>,
    pos: usize,
    awaiting: bool,
    state: Vec<Rc<JsonValue>>,
    logs: Vec<DataFlowNodeLog>,
    actions: Vec<TaskActionInvocation>,
}

impl DataFlowEvaluation {
    pub closed spec fn spec_task_name(&self) -> Seq<char> {
        self.task_name@
    }

    pub closed spec fn spec_walk(&self) -> Seq<u32> {
        self.walk@
    }

    pub closed spec fn spec_pos(&self) -> int {
        self.pos as int
    }

    pub closed spec fn spec_awaiting(&self) -> bool {
        self.awaiting
    }

    pub closed spec fn spec_state(&self) -> Seq<Rc<JsonValue>> {
        self.state@
    }

    pub closed spec fn spec_logs(&self) -> Seq<DataFlowNodeLog> {
        self.logs@
    }

    pub closed spec fn spec_actions(&self) -> Seq<TaskActionInvocation> {
        self.actions@
    }

    /// Every node of the walk has been evaluated and none is waiting.
    pub open spec fn spec_finished(&self) -> bool {
        self.spec_pos() == self.spec_walk().len() && !self.spec_awaiting()
    }

    /// The session fits the definition it was started from.
    pub open spec fn wf_for(&self, config: DataFlowConfig) -> bool {
        &&& self.spec_state().len() == config.spec_nodes().len()
        &&& (forall|i: int|
            0 <= i < self.spec_walk().len() ==> (#[trigger] self.spec_walk()[i])
                < config.spec_nodes().len())
        &&& 0 <= self.spec_pos() <= self.spec_walk().len()
        &&& (self.spec_awaiting() ==> self.spec_pos() < self.spec_walk().len()
            && config.spec_nodes()[self.spec_walk()[self.spec_pos()] as int].func.spec_needs_script())
    }

    pub fn is_finished(&self) -> (r: bool)
        ensures
            r == self.spec_finished(),
    {
        self.pos == self.walk.len() && !self.awaiting
    }
}

/// The session that beginning an evaluation produces: the trigger node at
/// index `t` has been executed directly on the raw payload (and, since
/// trigger nodes persist, its slot holds the payload); every other slot
/// holds the prior state padded with null to the node count; nothing is
/// logged or emitted yet.
pub open spec fn starts_evaluation(
    config: DataFlowConfig,
    task_name: Seq<char>,
    s0: Seq<Rc<JsonValue>>,
    t: int,
    payload: Rc<JsonValue>,
    ev: DataFlowEvaluation,
) -> bool {
    let n = config.spec_nodes().len() as int;
    &&& ev.spec_task_name() == task_name
    &&& ev.spec_walk() == dag::reachable_walk_spec(config.spec_edges(), config.spec_order(), t)
    &&& ev.spec_pos() == 1
    &&& !ev.spec_awaiting()
    &&& ev.spec_state().len() == n
    &&& (forall|i: int|
        0 <= i < n && i != t && i < s0.len() ==> ev.spec_state()[i] == s0[i])
    &&& (forall|i: int| s0.len() <= i < n && i != t ==> *ev.spec_state()[i] == JsonValue::Null)
    &&& (0 <= t < n ==> ev.spec_state()[t] == payload)
    &&& ev.spec_logs().len() == 0
    &&& ev.spec_actions().len() == 0
}

/// Fields no step of the session ever changes, plus the ones a given
/// transition leaves alone.
pub open spec fn session_core_unchanged(pre: DataFlowEvaluation, post: DataFlowEvaluation) -> bool {
    &&& post.spec_task_name() == pre.spec_task_name()
    &&& post.spec_walk() == pre.spec_walk()
}

/// The transition one `step` call makes.
pub open spec fn steps_from(
    config: DataFlowConfig,
    pre: DataFlowEvaluation,
    post: DataFlowEvaluation,
    r: StepOutcome,
) -> bool {
    &&& session_core_unchanged(pre, post)
    &&& post.spec_state() == pre.spec_state()
    &&& post.spec_logs() == pre.spec_logs()
    &&& post.spec_actions() == pre.spec_actions()
    &&& if pre.spec_pos() == pre.spec_walk().len() {
        // nothing left: no change
        &&& r is Finished
        &&& post.spec_pos() == pre.spec_pos()
        &&& post.spec_awaiting() == pre.spec_awaiting()
    } else {
        let v = pre.spec_walk()[pre.spec_pos()] as int;
        if config.spec_nodes()[v].func.spec_needs_script() {
            // hand out the script request and wait
            &&& (r matches StepOutcome::NeedScript(req) && is_request_for(
                config,
                pre.spec_state(),
                v,
                req,
            ))
            &&& post.spec_pos() == pre.spec_pos()
            &&& post.spec_awaiting()
        } else {
            // a trigger or text node mid-walk: no stored state changes, no
            // console, no action
            &&& r is Ran
            &&& post.spec_pos() == pre.spec_pos() + 1
            &&& !post.spec_awaiting()
        }
    }
}

/// The transition one `resume` call makes: the script's result is
/// persisted into the node's slot, a log record is appended when the run
/// wrote console lines, and an action node with a non-null result emits
/// one invocation.
pub open spec fn resumes_with(
    config: DataFlowConfig,
    pre: DataFlowEvaluation,
    post: DataFlowEvaluation,
    result: Rc<JsonValue>,
    console: Vec<String>,
) -> bool {
    let v = pre.spec_walk()[pre.spec_pos()] as int;
    let func = config.spec_nodes()[v].func;
    &&& session_core_unchanged(pre, post)
    &&& post.spec_pos() == pre.spec_pos() + 1
    &&& !post.spec_awaiting()
    &&& post.spec_state() == pre.spec_state().update(v, result)
    &&& post.spec_logs() == if console@.len() > 0 {
        pre.spec_logs().push(
            (DataFlowNodeLog { node: config.spec_nodes()[v].name, console }),
        )
    } else {
        pre.spec_logs()
    }
    &&& post.spec_actions() == (match func {
        DataFlowNodeFunction::Action(a) => if !(*result is Null) {
            pre.spec_actions().push(
                (TaskActionInvocation { name: a.action_id, payload: result }),
            )
        } else {
            pre.spec_actions()
        },
        _ => pre.spec_actions(),
    })
}

/// Gathers the inputs of node `v`: for every edge into `v`, the producer's
/// output projection of its stored value, bound under the edge's name.
fn gather_inputs(config: &DataFlowConfig, state: &Vec<Rc<JsonValue>>, v: u32) -> (r: Vec<
    (String, Rc<JsonValue>),
>)
    requires
        config.wf(),
        state@.len() == config.spec_nodes().len(),
        (v as int) < config.spec_nodes().len(),
    ensures
        r@.map_values(|p: (String, Rc<JsonValue>)| arg_view(p)) == gathered_inputs(
            *config,
            state@,
            v as int,
        ),
{
    let mut out: Vec<(String, Rc<JsonValue>)> = Vec::new();
    let mut k: usize = 0;
    while k < config.edges.len()
        invariant
            config.wf(),
            state@.len() == config.spec_nodes().len(),
            (v as int) < config.spec_nodes().len(),
            k <= config.spec_edges().len(),
            out@.map_values(|p: (String, Rc<JsonValue>)| arg_view(p)) == gathered_prefix(
                *config,
                state@,
                v as int,
                k as int,
            ),
        decreases config.spec_edges().len() - k,
    {
        let ghost pre_edges = config.spec_edges().take(k as int);
        let ghost pred = |e: DataFlowEdge| e.to == v as int;
        let ghost f = |e: DataFlowEdge|
            (
                e.name@,
                config.spec_nodes()[e.from as int].func.spec_output(*state@[e.from as int]),
            );
        let edge_to = config.edges[k].to;
        proof {
            assert(config.spec_edges().take(k + 1) =~= pre_edges.push(config.spec_edges()[k as int]));
            dag::lemma_filter_push(pre_edges, config.spec_edges()[k as int], pred);
        }
        if edge_to == v {
            let from = config.edges[k].from;
            proof {
                assert(config.spec_edges()[k as int].from < config.spec_nodes().len());
            }
            let produced = config.nodes[from as usize].func.output(&state[from as usize]);
            let name = config.edges[k].name.clone();
            let ghost old_out = out@;
            out.push((name, produced));
            proof {
                let fil = pre_edges.filter(pred);
                assert(fil.push(config.spec_edges()[k as int]).map_values(f) =~= fil.map_values(
                    f,
                ).push(f(config.spec_edges()[k as int])));
                assert(out@.map_values(|p: (String, Rc<JsonValue>)| arg_view(p)) =~= old_out.map_values(
                    |p: (String, Rc<JsonValue>)| arg_view(p),
                ).push(arg_view(out@[old_out.len() as int])));
                assert(arg_view(out@[old_out.len() as int]) == f(config.spec_edges()[k as int]));
            }
        }
        k += 1;
    }
    proof {
        assert(config.spec_edges().take(config.spec_edges().len() as int) =~= config.spec_edges());
    }
    out
}

impl DataFlowConfig {
    /// Begins evaluating one inbound trigger: pads the prior state to the
    /// node count, locates the trigger node by its local id (first match
    /// wins), executes it directly on the raw payload, and returns the
    /// session for the downstream walk.  Fails exactly when no trigger
    /// node declares the id.
    pub fn evaluate_trigger(
        &self,
        task_name: &String,
        state: DataFlowState,
        trigger_id: &String,
        payload: Rc<JsonValue>,
    ) -> (r: Result<DataFlowEvaluation, Error>)
        requires
            self.wf(),
        ensures
            match r {
                Ok(ev) => {
                    &&& exists|t: int|
                        #[trigger] is_first_trigger(self.spec_nodes(), trigger_id@, t)
                            && starts_evaluation(
                            *self,
                            task_name@,
                            state.nodes@,
                            t,
                            payload,
                            ev,
                        )
                    &&& ev.wf_for(*self)
                },
                Err(e) => {
                    &&& (e matches Error::TaskTriggerNotFound(s) && s@ == trigger_id@)
                    &&& (forall|j: int|
                        0 <= j < self.spec_nodes().len()
                            ==> !(#[trigger] self.spec_nodes()[j]).func.spec_is_trigger_for(
                            trigger_id@,
                        ))
                },
            },
    {
        let n = self.nodes.len();
        let mut t_opt: Option<usize> = None;
        let mut i: usize = 0;
        while i < n && t_opt.is_none()
            invariant
                n == self.spec_nodes().len(),
                i <= n,
                t_opt is None ==> forall|j: int|
                    0 <= j < i ==> !(#[trigger] self.spec_nodes()[j]).func.spec_is_trigger_for(
                        trigger_id@,
                    ),
                match t_opt {
                    Some(t) => is_first_trigger(self.spec_nodes(), trigger_id@, t as int),
                    None => true,
                },
            decreases n - i,
        {
            if self.nodes[i].func.is_trigger_for(trigger_id) {
                t_opt = Some(i);
            }
            i += 1;
        }
        let t = match t_opt {
            Some(t) => t,
            None => {
                return Err(Error::TaskTriggerNotFound(trigger_id.clone()));
            },
        };
        let ghost s0 = state.nodes@;
        let mut slots = state.nodes;
        while slots.len() > n
            invariant
                n == self.spec_nodes().len(),
                slots@.len() <= s0.len(),
                slots@.len() >= n || slots@.len() == s0.len(),
                forall|i: int| 0 <= i < slots@.len() ==> slots@[i] == s0[i],
            decreases slots@.len(),
        {
            let _ = slots.pop();
        }
        while slots.len() < n
            invariant
                n == self.spec_nodes().len(),
                slots@.len() <= n,
                slots@.len() >= s0.len() || slots@.len() >= n,
                forall|i: int| 0 <= i < slots@.len() && i < s0.len() ==> slots@[i] == s0[i],
                forall|i: int| s0.len() <= i < slots@.len() ==> *slots@[i] == JsonValue::Null,
            decreases n - slots@.len(),
        {
            slots.push(Rc::new(JsonValue::Null));
        }
        proof {
            dag::lemma_kahn_order_is_topo(n as nat, self.spec_edges(), self.spec_order());
        }
        let walk = match dag::reachable_walk(n, &self.edges, &self.toposorted, t as u32) {
            Ok(w) => w,
            Err(e) => {
                proof {
                    assert(false);
                }
                return Err(e);
            },
        };
        slots.set(t, payload);
        proof {
            dag::lemma_walk_elements(self.spec_edges(), self.spec_order(), t as int, n as nat);
        }
        Ok(
            DataFlowEvaluation {
                task_name: task_name.clone(),
                walk,
                pos: 1,
                awaiting: false,
                state: slots,
                logs: Vec::new(),
                actions: Vec::new(),
            },
        )
    }
}

impl DataFlowEvaluation {
    /// Evaluates the node the walk stands at.  A script-backed node hands
    /// out its script request and waits for `resume`.  A text node has no
    /// observable effect mid-walk (its body is re-rendered on every read,
    /// never persisted), and a trigger node reached downstream of another
    /// trigger is passed over unexecuted: only the walk's first node
    /// receives the inbound payload.
    pub fn step(&mut self, config: &DataFlowConfig) -> (r: StepOutcome)
        requires
            config.wf(),
            old(self).wf_for(*config),
            !old(self).spec_awaiting(),
        ensures
            final(self).wf_for(*config),
            steps_from(*config, *old(self), *final(self), r),
    {
        if self.pos == self.walk.len() {
            return StepOutcome::Finished;
        }
        let v = self.walk[self.pos];
        let node = &config.nodes[v as usize];
        match &node.func {
            DataFlowNodeFunction::Trigger(_) => {
                self.pos = self.pos + 1;
                StepOutcome::Ran
            },
            DataFlowNodeFunction::Text(_) => {
                self.pos = self.pos + 1;
                StepOutcome::Ran
            },
            DataFlowNodeFunction::Js(js) => {
                let args = gather_inputs(config, &self.state, v);
                let code = js.code.clone();
                let format = js.format;
                let context = rc_dup(&self.state[v as usize]);
                self.awaiting = true;
                StepOutcome::NeedScript(ScriptRequest { code, format, args, context })
            },
            DataFlowNodeFunction::Action(a) => {
                let args = gather_inputs(config, &self.state, v);
                let code = a.payload_code.code.clone();
                let format = a.payload_code.format;
                let context = rc_dup(&self.state[v as usize]);
                self.awaiting = true;
                StepOutcome::NeedScript(ScriptRequest { code, format, args, context })
            },
        }
    }

    /// Hands the outcome of the requested script run back to the session:
    /// the result is persisted into the node's slot, console lines are
    /// logged under the node's name, and an action node with a non-null
    /// result emits one invocation.
    pub fn resume(&mut self, config: &DataFlowConfig, result: Rc<JsonValue>, console: Vec<String>)
        requires
            config.wf(),
            old(self).wf_for(*config),
            old(self).spec_awaiting(),
        ensures
            final(self).wf_for(*config),
            resumes_with(*config, *old(self), *final(self), result, console),
    {
        let v = self.walk[self.pos];
        let node = &config.nodes[v as usize];
        if console.len() > 0 {
            let name = node.name.clone();
            self.logs.push(DataFlowNodeLog { node: name, console });
        }
        match &node.func {
            DataFlowNodeFunction::Action(a) => {
                if !result.is_null() {
                    let name = a.action_id.clone();
                    let payload = rc_dup(&result);
                    self.actions.push(TaskActionInvocation { name, payload });
                }
            },
            _ => {},
        }
        self.state.set(v as usize, result);
        let walk_len = self.walk.len();
        proof {
            assert(self.pos < walk_len);
        }
        self.pos = self.pos + 1;
        self.awaiting = false;
    }

    /// Takes the results of a finished evaluation: the final state, the
    /// run log (none when no node wrote console output), and the emitted
    /// actions in execution order.
    pub fn finish(self) -> (r: (DataFlowState, Option<DataFlowLog>, TaskActionInvocations))
        requires
            self.spec_finished(),
        ensures
            r.0.nodes@ == self.spec_state(),
            (r.1 is Some <==> self.spec_logs().len() > 0),
            (r.1 matches Some(l) ==> l.run@ == self.spec_logs()),
            r.2@ == self.spec_actions(),
    {
        let DataFlowEvaluation { state, logs, actions, .. } = self;
        let log = if logs.len() > 0 {
            Some(DataFlowLog { run: logs })
        } else {
            None
        };
        (DataFlowState { nodes: state }, log, actions)
    }


    /// Abandons a failed evaluation, handing back the log captured up to
    /// the failure point.  Nothing of the session may be persisted.
    pub fn abort(self) -> (r: Option<DataFlowLog>)
        ensures
            (r is Some <==> self.spec_logs().len() > 0),
            (r matches Some(l) ==> l.run@ == self.spec_logs()),
    {
        let DataFlowEvaluation { logs, .. } = self;
        if logs.len() > 0 {
            Some(DataFlowLog { run: logs })
        } else {
            None
        }
    }
}


/// Evaluating against a state vector shorter than the node count behaves
/// identically to pre-padding it with null: the sessions that
/// `evaluate_trigger` builds from the short vector and from its padded
/// form agree in every observable respect.
pub proof fn lemma_padding_irrelevant(
    config: DataFlowConfig,
    task_name: Seq<char>,
    s0: Seq<Rc<JsonValue>>,
    s1: Seq<Rc<JsonValue>>,
    t: int,
    payload: Rc<JsonValue>,
    e0: DataFlowEvaluation,
    e1: DataFlowEvaluation,
)
    requires
        s0.len() <= config.spec_nodes().len(),
        s1.len() == config.spec_nodes().len(),
        forall|i: int| 0 <= i < s0.len() ==> s1[i] == s0[i],
        forall|i: int| s0.len() <= i < s1.len() ==> *s1[i] == JsonValue::Null,
        0 <= t < config.spec_nodes().len(),
        starts_evaluation(config, task_name, s0, t, payload, e0),
        starts_evaluation(config, task_name, s1, t, payload, e1),
    ensures
        e0.spec_state() =~= e1.spec_state(),
        e0.spec_walk() == e1.spec_walk(),
        e0.spec_pos() == e1.spec_pos(),
        e0.spec_awaiting() == e1.spec_awaiting(),
        e0.spec_logs() =~= e1.spec_logs(),
        e0.spec_actions() =~= e1.spec_actions(),
        e0.spec_task_name() == e1.spec_task_name(),
{
    let n = config.spec_nodes().len() as int;
    assert forall|i: int| 0 <= i < n implies e0.spec_state()[i] == e1.spec_state()[i] by {
        if i != t {
            if i < s0.len() {
                assert(e0.spec_state()[i] == s0[i]);
                assert(e1.spec_state()[i] == s1[i]);
            } else {
                assert(*e0.spec_state()[i] == JsonValue::Null);
                if i < s1.len() {
                    assert(e1.spec_state()[i] == s1[i]);
                } else {
                    assert(*e1.spec_state()[i] == JsonValue::Null);
                }
            }
        }
    }
}

/// Beginning an evaluation is deterministic: identical definitions,
/// state vectors, trigger nodes and payloads give sessions that agree in
/// every observable respect.
pub proof fn lemma_start_deterministic(
    config: DataFlowConfig,
    task_name: Seq<char>,
    s0: Seq<Rc<JsonValue>>,
    t: int,
    payload: Rc<JsonValue>,
    e0: DataFlowEvaluation,
    e1: DataFlowEvaluation,
)
    requires
        0 <= t < config.spec_nodes().len(),
        starts_evaluation(config, task_name, s0, t, payload, e0),
        starts_evaluation(config, task_name, s0, t, payload, e1),
    ensures
        e0.spec_state() =~= e1.spec_state(),
        e0.spec_walk() == e1.spec_walk(),
        e0.spec_pos() == e1.spec_pos(),
        e0.spec_awaiting() == e1.spec_awaiting(),
        e0.spec_logs() =~= e1.spec_logs(),
        e0.spec_actions() =~= e1.spec_actions(),
        e0.spec_task_name() == e1.spec_task_name(),
{
    assert forall|i: int|
        0 <= i < e0.spec_state().len() implies e0.spec_state()[i] == e1.spec_state()[i] by {
        if i == t {
            assert(e0.spec_state()[i] == payload);
            assert(e1.spec_state()[i] == payload);
        } else if i < s0.len() {
            assert(e0.spec_state()[i] == s0[i]);
            assert(e1.spec_state()[i] == s0[i]);
        } else {
            assert(*e0.spec_state()[i] == JsonValue::Null);
            assert(*e1.spec_state()[i] == JsonValue::Null);
        }
    }
}

/// Stepping is deterministic: from equal sessions, one `step` reaches
/// equal sessions, and any script requests handed out carry the same
/// script, the same gathered inputs and the same context.
pub proof fn lemma_step_deterministic(
    config: DataFlowConfig,
    pre: DataFlowEvaluation,
    post0: DataFlowEvaluation,
    post1: DataFlowEvaluation,
    r0: StepOutcome,
    r1: StepOutcome,
)
    requires
        steps_from(config, pre, post0, r0),
        steps_from(config, pre, post1, r1),
    ensures
        post0.spec_state() == post1.spec_state(),
        post0.spec_walk() == post1.spec_walk(),
        post0.spec_pos() == post1.spec_pos(),
        post0.spec_awaiting() == post1.spec_awaiting(),
        post0.spec_logs() == post1.spec_logs(),
        post0.spec_actions() == post1.spec_actions(),
        post0.spec_task_name() == post1.spec_task_name(),
        (r0 is Finished <==> r1 is Finished),
        (r0 is Ran <==> r1 is Ran),
        forall|q0: ScriptRequest, q1: ScriptRequest|
            r0 == StepOutcome::NeedScript(q0) && r1 == StepOutcome::NeedScript(q1) ==> {
                &&& q0.code@ == q1.code@
                &&& q0.format == q1.format
                &&& q0.args@.map_values(|p: (String, Rc<JsonValue>)| arg_view(p))
                    == q1.args@.map_values(|p: (String, Rc<JsonValue>)| arg_view(p))
                &&& q0.context == q1.context
            },
{
}

/// Resuming is deterministic: equal sessions given an identical script
/// outcome move to equal sessions.
pub proof fn lemma_resume_deterministic(
    config: DataFlowConfig,
    pre: DataFlowEvaluation,
    post0: DataFlowEvaluation,
    post1: DataFlowEvaluation,
    result: Rc<JsonValue>,
    console: Vec<String>,
)
    requires
        resumes_with(config, pre, post0, result, console),
        resumes_with(config, pre, post1, result, console),
    ensures
        post0.spec_state() == post1.spec_state(),
        post0.spec_walk() == post1.spec_walk(),
        post0.spec_pos() == post1.spec_pos(),
        post0.spec_awaiting() == post1.spec_awaiting(),
        post0.spec_logs() == post1.spec_logs(),
        post0.spec_actions() == post1.spec_actions(),
        post0.spec_task_name() == post1.spec_task_name(),
{
}



} // verus!
