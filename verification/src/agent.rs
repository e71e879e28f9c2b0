//! The agent: the component that resolves and runs a sequence of planned tool
//! invocations against the registry, accumulating each step's result in the
//! execution context under a human-auditable key.

use vstd::prelude::*;
use crate::context::ExecutionContext;
use crate::errors::AgenticFlowError;
use crate::json::JsonValue;
use crate::mcp_manager::MCPManager;
use crate::planner::PlanStep;
use crate::text::{decimal_string, spec_decimal};
use crate::tool_registry::{ToolDispatch, ToolRegistry};

verus! {

#[derive(Debug, Clone)]
pub struct AgentConfig {
    pub max_steps: usize,
    pub timeout_seconds: u64,
}

impl Default for AgentConfig {
    fn default() -> (r: Self)
        ensures
            r.max_steps == 10,
            r.timeout_seconds == 30,
    {
        AgentConfig { max_steps: 10, timeout_seconds: 30 }
    }
}

#[derive(Debug)]
pub struct AgentResponse {
    pub content: String,
    pub tools_used: Vec<String>,
    pub execution_time_ms: u64,
}

/// The context key of one step: `"{step}: {toolName}"`.
pub open spec fn step_key(step: int, tool_name: Seq<char>) -> Seq<char> {
    spec_decimal(step) + ": "@ + tool_name
}

/// Builds the context key of one step.
pub fn make_step_key(step: usize, tool_name: &str) -> (r: String)
    ensures
        r@ == step_key(step as int, tool_name@),
{
    let mut s = decimal_string(step);
    s.append(": ");
    s.append(tool_name);
    s
}

/// Records one step's result in the context, under `"{step}: {toolName}"`.
pub fn record_step_result(
    context: &mut ExecutionContext,
    step: usize,
    tool_name: &str,
    result: JsonValue,
)
    requires
        old(context).wf(),
    ensures
        final(context).wf(),
        final(context)@ == old(context)@.insert(step_key(step as int, tool_name@), result@),
{
    let key = make_step_key(step, tool_name);
    context.set(key, result);
}

/// An in-process run stopped at step `k` with the error `e`: the run got past
/// every earlier step — each is a locally registered tool — and at `k` either
/// the local handler failed with its own error, or the library refused the
/// step: a remotely served tool fails with its exact connection error, an
/// unknown name with its exact not-found error.
pub open spec fn run_stopped_at(
    reg: ToolRegistry,
    steps: Seq<PlanStep>,
    k: int,
    e: AgenticFlowError,
) -> bool {
    &&& 0 <= k < steps.len()
    &&& (forall|i: int|
        0 <= i < k ==> reg.local_map().contains_key((#[trigger] steps[i]).tool_name@))
    &&& ({
        let name = steps[k].tool_name@;
        if reg.local_map().contains_key(name) {
            true
        } else if reg.remotes().contains_key(name) {
            e is ToolError && e->ToolError_0@ == "no live connection to run remotely served tool '"@
                + name + "'"@
        } else {
            e is ToolError && e->ToolError_0@ == "Tool '"@ + name + "' not found"@
        }
    })
}

/// The agent holds the registry of tools and the connection manager; the
/// language-model client that synthesizes a final answer is an external
/// collaborator of the embedding program.
pub struct Agent {
    pub tool_registry: ToolRegistry,
    pub manager: MCPManager,
}

impl Agent {
    pub fn new(manager: MCPManager, tool_registry: ToolRegistry) -> (r: Self)
        ensures
            r.manager == manager,
            r.tool_registry == tool_registry,
    {
        Agent { manager, tool_registry }
    }

    /// Resolves one invocation against the registry: a local handler runs in
    /// process, a remotely served tool is handed back as a routing decision,
    /// an unknown name is reported as such.
    pub fn execute_tool(
        &self,
        tool_name: &str,
        params: JsonValue,
        context: &mut ExecutionContext,
    ) -> (r: ToolDispatch)
        requires
            self.tool_registry.wf(),
            old(context).wf(),
        ensures
            final(context).wf(),
            self.tool_registry.dispatch_ensures(tool_name@, params@, r),
            !(r is Local) ==> final(context)@ == old(context)@,
            forall|k: Seq<char>|
                old(context)@.contains_key(k) ==> final(context)@.contains_key(k),
    {
        self.tool_registry.execute_tool(tool_name, params, context)
    }

    /// Runs a plan of locally registered tools in order, threading one fresh
    /// execution context through the steps and filing each step's result
    /// under `"{step}: {toolName}"`. The first failing step — a handler
    /// error, an unknown name, or a step served remotely, which an in-process
    /// run cannot reach — ends the run with that failure. The embedding
    /// program's executor performs the same loop with remote calls routed
    /// through the live connections, then hands the accumulated record to the
    /// language model for synthesis.
    pub fn execute_steps(&self, steps: Vec<PlanStep>) -> (r: Result<
        ExecutionContext,
        AgenticFlowError,
    >)
        requires
            self.tool_registry.wf(),
        ensures
            r matches Ok(ctx) ==> ctx.wf() && forall|i: int|
                0 <= i < steps@.len() ==> ctx@.contains_key(
                    #[trigger] step_key(i + 1, steps@[i].tool_name@),
                ),
            steps@.len() == 0 ==> r is Ok,
            r is Ok ==> forall|i: int|
                0 <= i < steps@.len() ==> self.tool_registry.local_map().contains_key(
                    #[trigger] steps@[i].tool_name@,
                ),
            (exists|k: int|
                0 <= k < steps@.len() && !self.tool_registry.local_map().contains_key(
                    (#[trigger] steps@[k]).tool_name@,
                ) && !self.tool_registry.remotes().contains_key(steps@[k].tool_name@)) ==> r
                is Err,
            steps@.len() > 0 && !self.tool_registry.local_map().contains_key(
                steps@[0].tool_name@,
            ) && !self.tool_registry.remotes().contains_key(steps@[0].tool_name@) ==> (
            r matches Err(e) && e is ToolError && e->ToolError_0@ == "Tool '"@
                + steps@[0].tool_name@ + "' not found"@),
            r matches Err(e) ==> exists|k: int|
                #![auto]
                run_stopped_at(self.tool_registry, steps@, k, e),
    {
        let ghost orig = steps@;
        let total: usize = steps.len();
        let mut rest = steps;
        let mut context = ExecutionContext::new();
        let mut done: usize = 0;
        let mut failure: Option<AgenticFlowError> = None;
        while done < total && failure.is_none()
            invariant
                self.tool_registry.wf(),
                context.wf(),
                orig == steps@,
                total == orig.len(),
                failure is None ==> done + rest@.len() == total && rest@ =~= orig.skip(
                    done as int,
                ),
                failure is None ==> (forall|i: int|
                    0 <= i < done ==> context@.contains_key(
                        #[trigger] step_key(i + 1, orig[i].tool_name@),
                    )),
                failure is None ==> (forall|i: int|
                    0 <= i < done ==> self.tool_registry.local_map().contains_key(
                        #[trigger] orig[i].tool_name@,
                    )),
                failure matches Some(e) ==> exists|k: int|
                    #![auto]
                    run_stopped_at(self.tool_registry, orig, k, e),
                failure matches Some(e) ==> (orig.len() > 0
                    && !self.tool_registry.local_map().contains_key(orig[0].tool_name@)
                    && !self.tool_registry.remotes().contains_key(orig[0].tool_name@) ==> e
                    is ToolError && e->ToolError_0@ == "Tool '"@ + orig[0].tool_name@
                    + "' not found"@),
            decreases total - done,
        {
            let step = rest.remove(0);
            proof {
                assert(step == orig[done as int]);
            }
            let dispatch = self.tool_registry.execute_tool(
                step.tool_name.as_str(),
                step.params,
                &mut context,
            );
            match dispatch {
                ToolDispatch::Local(Ok(v)) => {
                    record_step_result(&mut context, done + 1, step.tool_name.as_str(), v);
                },
                ToolDispatch::Local(Err(e)) => {
                    proof {
                        assert(run_stopped_at(self.tool_registry, orig, done as int, e));
                    }
                    failure = Some(e);
                },
                ToolDispatch::Remote { .. } => {
                    let mut msg = "no live connection to run remotely served tool '".to_owned();
                    msg.append(step.tool_name.as_str());
                    msg.append("'");
                    let e = AgenticFlowError::ToolError(msg);
                    proof {
                        assert(run_stopped_at(self.tool_registry, orig, done as int, e));
                    }
                    failure = Some(e);
                },
                ToolDispatch::NotFound(e) => {
                    proof {
                        assert(run_stopped_at(self.tool_registry, orig, done as int, e));
                    }
                    failure = Some(e);
                },
            }
            done += 1;
        }
        match failure {
            Some(e) => Err(e),
            None => Ok(context),
        }
    }
}

} // verus!
