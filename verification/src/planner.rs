//! Plan steps and the pure decisions of the planners. The planners' calls to
//! a language-model backend are asynchronous I/O and live with the embedding
//! program; what the library fixes is how a chat response's tool calls become
//! plan steps, and how a set of simulated plans is ranked.

use vstd::prelude::*;
use crate::json::JsonValue;
use crate::model::ToolCall;

verus! {

/// One planned tool invocation.
#[derive(Debug)]
pub struct PlanStep {
    pub tool_name: String,
    pub params: JsonValue,
}

impl Clone for PlanStep {
    fn clone(&self) -> (res: Self)
        ensures
            res.tool_name@ == self.tool_name@,
            res.params@ == self.params@,
    {
        PlanStep { tool_name: self.tool_name.clone(), params: self.params.clone() }
    }
}

impl From<ToolCall> for PlanStep {
    fn from(tool_call: ToolCall) -> (r: Self)
        ensures
            r == (PlanStep {
                tool_name: tool_call.function.name,
                params: tool_call.function.arguments,
            }),
    {
        PlanStep { tool_name: tool_call.function.name, params: tool_call.function.arguments }
    }
}

impl vstd::std_specs::convert::FromSpecImpl<ToolCall> for PlanStep {
    open spec fn obeys_from_spec() -> bool {
        true
    }

    open spec fn from_spec(tool_call: ToolCall) -> PlanStep {
        PlanStep { tool_name: tool_call.function.name, params: tool_call.function.arguments }
    }
}

/// The plan steps a chat response's tool calls denote, in order; a response
/// without tool calls denotes the empty plan.
pub fn collect_as_plan_steps(tool_calls: &Option<Vec<ToolCall>>) -> (r: Vec<PlanStep>)
    ensures
        match tool_calls {
            None => r@.len() == 0,
            Some(calls) => {
                &&& r@.len() == calls@.len()
                &&& forall|i: int|
                    0 <= i < calls@.len() ==> r@[i].tool_name@ == calls@[i].function.name@
                        && r@[i].params@ == calls@[i].function.arguments@
            },
        },
{
    match tool_calls {
        None => Vec::new(),
        Some(calls) => {
            let mut out: Vec<PlanStep> = Vec::new();
            let mut idx: usize = 0;
            while idx < calls.len()
                invariant
                    idx <= calls@.len(),
                    out@.len() == idx,
                    forall|i: int|
                        0 <= i < idx ==> out@[i].tool_name@ == calls@[i].function.name@
                            && out@[i].params@ == calls@[i].function.arguments@,
                decreases calls@.len() - idx,
            {
                let call = calls[idx].clone();
                out.push(PlanStep::from(call));
                idx += 1;
            }
            out
        },
    }
}

/// Position `b` carries the winning plan of the candidates before `upto`:
/// the first among those of minimal positive length, or the first candidate
/// outright when every one of them is empty.
pub open spec fn selected_at(cands: Seq<Vec<PlanStep>>, upto: int, b: int) -> bool {
    &&& 0 <= b < upto <= cands.len()
    &&& ((forall|i: int| 0 <= i < upto ==> (#[trigger] cands[i]).len() == 0) ==> b == 0)
    &&& ((exists|i: int| 0 <= i < upto && (#[trigger] cands[i]).len() > 0) ==> {
        &&& cands[b].len() > 0
        &&& forall|i: int|
            0 <= i < upto && (#[trigger] cands[i]).len() > 0 ==> cands[b].len() <= cands[i].len()
        &&& forall|i: int|
            0 <= i < b ==> (#[trigger] cands[i]).len() == 0 || cands[i].len() > cands[b].len()
    })
}

/// Keeps the best of several simulated plans: the first plan among those of
/// minimal positive length, or the first plan outright when every simulation
/// came back empty. The candidate list must not be empty.
pub fn select_best_plan(candidates: Vec<Vec<PlanStep>>) -> (r: Vec<PlanStep>)
    requires
        candidates@.len() > 0,
    ensures
        exists|b: int|
            #![auto]
            selected_at(candidates@, candidates@.len() as int, b) && r == candidates@[b],
{
    let total: usize = candidates.len();
    let ghost orig = candidates@;
    let mut rest = candidates;
    let mut best = rest.remove(0);
    let ghost mut best_idx: int = 0;
    let mut idx: usize = 1;
    while rest.len() > 0
        invariant
            1 <= idx <= orig.len(),
            orig.len() == total,
            idx + rest@.len() == orig.len(),
            rest@ =~= orig.skip(idx as int),
            best == orig[best_idx],
            selected_at(orig, idx as int, best_idx),
        decreases rest@.len(),
    {
        let challenger = rest.remove(0);
        if challenger.len() > 0 && (best.len() == 0 || challenger.len() < best.len()) {
            best = challenger;
            proof {
                best_idx = idx as int;
            }
        }
        idx += 1;
    }
    proof {
        assert(idx == orig.len());
        assert(selected_at(orig, orig.len() as int, best_idx));
    }
    best
}

} // verus!
