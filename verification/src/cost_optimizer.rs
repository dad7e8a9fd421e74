//! The Cost Optimizer agent: a bounded loop that costs the plan, asks the
//! LLM for cost-saving fixes while the estimate is above the operator's
//! target, applies them, and re-costs between rounds. Costs are compared
//! by the driver; this module decides what happens next.
use vstd::prelude::*;
use crate::mapper::MappingPlan;
use crate::recovery::{
    AgentCycleEnd, FinalCheck, FixOutcome, JsonValue, ToolCallError, attribute_set, apply_remove_resource,
    first_addr, json_converts_to, json_failure, json_member, json_str_member, json_value_to_attribute_value,
    remove_resource_effect, set_attribute_in_plan, bad_arg_message, refused,
};
use crate::text::{owned, str_eq};

verus! {

/// Failures of a cost service.
#[derive(Debug)]
pub enum CostServiceError {
    Network(String),
    Auth(String),
    UnsupportedType(String),
}

/// The display text of a cost service failure.
pub open spec fn cost_error_text(e: CostServiceError) -> Seq<char> {
    match e {
        CostServiceError::Network(m) => "cost service network error: "@ + m@,
        CostServiceError::Auth(m) => "cost service auth error: "@ + m@,
        CostServiceError::UnsupportedType(m) => "cost service unsupported resource type: "@ + m@,
    }
}

impl CostServiceError {
    /// The display text of this failure.
    pub fn message(&self) -> (r: String)
        ensures
            r@ == cost_error_text(*self),
    {
        match self {
            CostServiceError::Network(m) => {
                let mut s = owned("cost service network error: ");
                s.append(m.as_str());
                s
            },
            CostServiceError::Auth(m) => {
                let mut s = owned("cost service auth error: ");
                s.append(m.as_str());
                s
            },
            CostServiceError::UnsupportedType(m) => {
                let mut s = owned("cost service unsupported resource type: ");
                s.append(m.as_str());
                s
            },
        }
    }
}

/// Why the optimizer stopped with an error.
#[derive(Debug)]
pub enum OptimizerError {
    /// The cost service failed.
    Cost(CostServiceError),
    /// The agent kernel failed (its message).
    AgentKernel(String),
    /// The configuration cannot run.
    InvalidConfig(String),
}

/// How the optimizer ended (the driver adds the costs it measured).
#[derive(Debug)]
pub enum OptimizerEnd {
    /// The estimate is at or under target after `iterations` rounds.
    Success { iterations: usize, fixes_applied: usize },
    /// The rounds ran out above target.
    MaxIterationsReached { iterations: usize },
    /// The LLM answered without proposing a fix while above target.
    AgentGaveUp { iterations: usize },
    /// The agent waits for an operator's approval of these tool calls.
    WaitingForApproval { iterations: usize, pending_tool_call_ids: Vec<String> },
}

/// What the driver of the optimizer loop does next.
pub enum OptimizerAction {
    /// Estimate the current plan's cost and report whether it meets the
    /// target.
    Estimate,
    /// Run one bounded agent cycle with the optimizer prompt.
    RunAgent,
    /// Estimate once more, then stop with what `finish_optimizer` makes
    /// of that estimate.
    FinalEstimate { check: FinalCheck, iterations: usize },
    /// Stop with this ending.
    Finish(OptimizerEnd),
}

/// The state of the optimizer loop between the driver's steps.
pub struct OptimizerLoop {
    pub max_iterations: usize,
    /// The current round, from 1.
    pub iteration: usize,
    /// The fix count when the current round's agent cycle started.
    pub fixes_before: usize,
}

impl OptimizerLoop {
    /// The loop's invariant: the round lies within the budget.
    pub open spec fn wf(&self) -> bool {
        1 <= self.iteration <= self.max_iterations
    }

    /// A loop at round 1; refused when no round may run or the target is
    /// negative.
    pub fn start(max_iterations: usize, target_is_negative: bool) -> (r: Result<OptimizerLoop, OptimizerError>)
        ensures
            max_iterations == 0 ==> (r matches Err(OptimizerError::InvalidConfig(m)) && m@
                == "max_iterations must be > 0"@),
            max_iterations > 0 && target_is_negative ==> (r matches Err(OptimizerError::InvalidConfig(m)) && m@
                == "target_monthly_usd must be non-negative"@),
            max_iterations > 0 && !target_is_negative ==> (r matches Ok(l) && l.wf() && l.iteration == 1
                && l.max_iterations == max_iterations && l.fixes_before == 0),
    {
        if max_iterations == 0 {
            return Err(OptimizerError::InvalidConfig(owned("max_iterations must be > 0")));
        }
        if target_is_negative {
            return Err(OptimizerError::InvalidConfig(owned("target_monthly_usd must be non-negative")));
        }
        Ok(OptimizerLoop { max_iterations, iteration: 1, fixes_before: 0 })
    }

    /// After the starting estimate: a plan already at or under target
    /// succeeds with no round run; otherwise round 1 estimates.
    pub fn on_starting_estimate(&self, meets_target: bool) -> (r: OptimizerAction)
        ensures
            meets_target ==> (r matches OptimizerAction::Finish(OptimizerEnd::Success { iterations, fixes_applied })
                && iterations == 0 && fixes_applied == 0),
            !meets_target ==> r is Estimate,
    {
        if meets_target {
            OptimizerAction::Finish(OptimizerEnd::Success { iterations: 0, fixes_applied: 0 })
        } else {
            OptimizerAction::Estimate
        }
    }

    /// After a round's estimate: at or under target succeeds after
    /// `iteration - 1` rounds; otherwise the agent runs, and the fix count
    /// is noted.
    pub fn on_estimate(&mut self, meets_target: bool, fix_count: usize) -> (r: OptimizerAction)
        requires
            old(self).wf(),
        ensures
            final(self).wf(),
            final(self).max_iterations == old(self).max_iterations,
            final(self).iteration == old(self).iteration,
            meets_target ==> final(self).fixes_before == old(self).fixes_before,
            meets_target ==> (r matches OptimizerAction::Finish(OptimizerEnd::Success { iterations, fixes_applied })
                && iterations == old(self).iteration - 1 && fixes_applied == fix_count),
            !meets_target ==> final(self).fixes_before == fix_count && r is RunAgent,
    {
        if meets_target {
            OptimizerAction::Finish(
                OptimizerEnd::Success { iterations: self.iteration - 1, fixes_applied: fix_count },
            )
        } else {
            self.fixes_before = fix_count;
            OptimizerAction::RunAgent
        }
    }

    /// After an agent cycle: waiting for approval ends the loop at this
    /// round; a final answer with no fix this round means the agent gave
    /// up; otherwise the next round estimates again, unless the budget is
    /// spent.
    pub fn on_agent_done(&mut self, end: AgentCycleEnd, fix_count: usize) -> (r: OptimizerAction)
        requires
            old(self).wf(),
        ensures
            final(self).wf(),
            final(self).max_iterations == old(self).max_iterations,
            final(self).fixes_before == old(self).fixes_before,
            ({
                let fixes_this_round = if fix_count >= old(self).fixes_before {
                    fix_count - old(self).fixes_before
                } else {
                    0
                };
                match end {
                    AgentCycleEnd::WaitingForApproval { pending_tool_call_ids } => {
                        &&& final(self).iteration == old(self).iteration
                        &&& r matches OptimizerAction::Finish(
                            OptimizerEnd::WaitingForApproval { iterations, pending_tool_call_ids: ids },
                        ) && iterations == old(self).iteration && ids == pending_tool_call_ids
                    },
                    AgentCycleEnd::FinalAnswerReached if fixes_this_round == 0 => {
                        &&& final(self).iteration == old(self).iteration
                        &&& r matches OptimizerAction::FinalEstimate { check: FinalCheck::GaveUp, iterations }
                            && iterations == old(self).iteration
                    },
                    _ => if old(self).iteration == old(self).max_iterations {
                        &&& final(self).iteration == old(self).iteration
                        &&& r matches OptimizerAction::FinalEstimate { check: FinalCheck::OutOfIterations, iterations }
                            && iterations == old(self).max_iterations
                    } else {
                        final(self).iteration == old(self).iteration + 1 && r is Estimate
                    },
                }
            }),
    {
        let fixes_this_round = fix_count.saturating_sub(self.fixes_before);
        match end {
            AgentCycleEnd::WaitingForApproval { pending_tool_call_ids } => {
                return OptimizerAction::Finish(
                    OptimizerEnd::WaitingForApproval { iterations: self.iteration, pending_tool_call_ids },
                );
            },
            AgentCycleEnd::FinalAnswerReached => {
                if fixes_this_round == 0 {
                    return OptimizerAction::FinalEstimate { check: FinalCheck::GaveUp, iterations: self.iteration };
                }
            },
            AgentCycleEnd::Other => {},
        }
        if self.iteration == self.max_iterations {
            OptimizerAction::FinalEstimate { check: FinalCheck::OutOfIterations, iterations: self.max_iterations }
        } else {
            self.iteration = self.iteration + 1;
            OptimizerAction::Estimate
        }
    }
}

/// The ending after the final estimate: at or under target it is a
/// success after `iterations` rounds with `fix_count` fixes; above target,
/// the ending the check stands for.
pub fn finish_optimizer(check: FinalCheck, iterations: usize, fix_count: usize, meets_target: bool) -> (r: OptimizerEnd)
    ensures
        meets_target ==> (r matches OptimizerEnd::Success { iterations: n, fixes_applied } && n == iterations
            && fixes_applied == fix_count),
        !meets_target && check == FinalCheck::GaveUp ==> (r matches OptimizerEnd::AgentGaveUp { iterations: n }
            && n == iterations),
        !meets_target && check == FinalCheck::OutOfIterations ==> (r matches OptimizerEnd::MaxIterationsReached {
            iterations: n,
        } && n == iterations),
{
    if meets_target {
        return OptimizerEnd::Success { iterations, fixes_applied: fix_count };
    }
    match check {
        FinalCheck::GaveUp => OptimizerEnd::AgentGaveUp { iterations },
        FinalCheck::OutOfIterations => OptimizerEnd::MaxIterationsReached { iterations },
    }
}

/// The answer to a tool call that names no optimizer tool.
pub open spec fn unknown_optimizer_tool_message(name: Seq<char>) -> Seq<char> {
    "unknown optimizer tool: "@ + name
}

/// What the optimizer's `set_attribute` does to a plan and answers.
pub open spec fn cost_set_attribute_effect(
    before: MappingPlan,
    after: MappingPlan,
    target_addr: Seq<char>,
    attribute: Seq<char>,
    value: crate::mapper::AttributeValue,
    r: FixOutcome,
) -> bool {
    &&& attribute_set(before, after, target_addr, attribute, value)
    &&& r.is_error == (first_addr(before.resources@, target_addr) is None)
    &&& !r.is_error ==> r.result@ == "set_attribute: "@ + target_addr + "."@ + attribute + " updated"@
    &&& r.is_error ==> r.result@ == "set_attribute: target_addr '"@ + target_addr + "' not found"@
}

/// An optimizer `set_attribute` call: `target_addr` and `attribute` must
/// be string arguments and `value` present and convertible, else the call
/// is refused with the plan untouched.
#[verifier::opaque]
pub open spec fn cost_set_attribute_call(
    before: MappingPlan,
    after: MappingPlan,
    args: JsonValue,
    r: Result<FixOutcome, ToolCallError>,
) -> bool {
    match json_str_member(args, "target_addr"@) {
        None => refused(before, after, r, bad_arg_message("target_addr"@)),
        Some(ta) => match json_str_member(args, "attribute"@) {
            None => refused(before, after, r, bad_arg_message("attribute"@)),
            Some(at) => match json_member(args, "value"@) {
                None => refused(before, after, r, "set_attribute: missing 'value'"@),
                Some(raw) => match json_failure(raw) {
                    Some(m) => refused(before, after, r, m),
                    None => r matches Ok(o) && exists|a: crate::mapper::AttributeValue|
                        json_converts_to(raw, a) && #[trigger] cost_set_attribute_effect(
                            before,
                            after,
                            ta,
                            at,
                            a,
                            o,
                        ),
                },
            },
        },
    }
}

/// An optimizer `remove_resource` call: `target_addr` must be a string
/// argument.
#[verifier::opaque]
pub open spec fn cost_remove_resource_call(
    before: MappingPlan,
    after: MappingPlan,
    args: JsonValue,
    r: Result<FixOutcome, ToolCallError>,
) -> bool {
    match json_str_member(args, "target_addr"@) {
        None => refused(before, after, r, bad_arg_message("target_addr"@)),
        Some(ta) => r matches Ok(o) && remove_resource_effect(before, after, ta, o),
    }
}

/// What one optimizer tool call does: `set_attribute` or
/// `remove_resource` with its arguments; any other name is an error
/// outcome with the plan untouched.
pub open spec fn cost_tool_call_effect(
    before: MappingPlan,
    after: MappingPlan,
    name: Seq<char>,
    args: JsonValue,
    r: Result<FixOutcome, ToolCallError>,
) -> bool {
    if name == "set_attribute"@ {
        cost_set_attribute_call(before, after, args, r)
    } else if name == "remove_resource"@ {
        cost_remove_resource_call(before, after, args, r)
    } else {
        &&& after == before
        &&& r matches Ok(o) && o.is_error && o.result@ == unknown_optimizer_tool_message(name)
    }
}

/// Applies the cost-saving fixes the LLM proposes and counts the ones
/// that succeeded.
pub struct CostFixApplier {
    /// Tool calls so far that completed without error (wrapping).
    pub fix_count: usize,
}

impl CostFixApplier {
    /// A fresh applier with no fix counted.
    pub fn new() -> (r: Self)
        ensures
            r.fix_count == 0,
    {
        CostFixApplier { fix_count: 0 }
    }

    /// Runs the optimizer tool `name` with `args` on `plan`; a call that
    /// completes without error adds one to the fix count.
    pub fn execute_tool_call(&mut self, plan: &mut MappingPlan, name: &str, args: &JsonValue) -> (r: Result<FixOutcome, ToolCallError>)
        ensures
            cost_tool_call_effect(*old(plan), *final(plan), name@, *args, r),
            final(self).fix_count == if r matches Ok(o) && !o.is_error {
                if old(self).fix_count == usize::MAX { 0 } else { old(self).fix_count + 1 }
            } else {
                old(self).fix_count as int
            },
    {
        let r = if str_eq(name, "set_attribute") {
            run_cost_set_attribute(plan, args)
        } else if str_eq(name, "remove_resource") {
            run_cost_remove_resource(plan, args)
        } else {
            let mut m = owned("unknown optimizer tool: ");
            m.append(name);
            Ok(FixOutcome { result: m, is_error: true })
        };
        match &r {
            Ok(o) => {
                if !o.is_error {
                    self.fix_count = self.fix_count.wrapping_add(1);
                }
            },
            Err(_) => {},
        }
        r
    }
}

fn run_cost_set_attribute(plan: &mut MappingPlan, args: &JsonValue) -> (r: Result<FixOutcome, ToolCallError>)
    ensures
        cost_set_attribute_call(*old(plan), *final(plan), *args, r),
{
    reveal(cost_set_attribute_call);
    proof {
        reveal_strlit("target_addr");
        reveal_strlit("attribute");
        reveal_strlit("value");
    }
    let target_addr = match crate::recovery::string_arg(args, "target_addr") {
        Ok(v) => v,
        Err(e) => return Err(e),
    };
    let attribute = match crate::recovery::string_arg(args, "attribute") {
        Ok(v) => v,
        Err(e) => return Err(e),
    };
    let raw = match crate::recovery::get_member(args, "value") {
        Some(v) => v,
        None => return Err(ToolCallError { message: owned("set_attribute: missing 'value'") }),
    };
    let value = match json_value_to_attribute_value(raw) {
        Ok(v) => v,
        Err(e) => return Err(e),
    };
    let ghost a = value;
    let found = set_attribute_in_plan(plan, target_addr.as_str(), attribute.as_str(), value);
    let o = if found {
        let mut s = owned("set_attribute: ");
        s.append(target_addr.as_str());
        s.append(".");
        s.append(attribute.as_str());
        s.append(" updated");
        FixOutcome { result: s, is_error: false }
    } else {
        let mut s = owned("set_attribute: target_addr '");
        s.append(target_addr.as_str());
        s.append("' not found");
        FixOutcome { result: s, is_error: true }
    };
    let r = Ok(o);
    assert(cost_set_attribute_call(*old(plan), *plan, *args, r)) by {
        assert(r is Ok);
        assert(r->Ok_0 == o);
        assert(cost_set_attribute_effect(*old(plan), *plan, target_addr@, attribute@, a, o));
        assert(exists|b: crate::mapper::AttributeValue| json_converts_to(*raw, b)
            && #[trigger] cost_set_attribute_effect(*old(plan), *plan, target_addr@, attribute@, b, r->Ok_0));
    }
    r
}

fn run_cost_remove_resource(plan: &mut MappingPlan, args: &JsonValue) -> (r: Result<FixOutcome, ToolCallError>)
    ensures
        cost_remove_resource_call(*old(plan), *final(plan), *args, r),
{
    reveal(cost_remove_resource_call);
    let target_addr = match crate::recovery::string_arg(args, "target_addr") {
        Ok(v) => v,
        Err(e) => return Err(e),
    };
    Ok(apply_remove_resource(plan, target_addr.as_str()))
}

} // verus!
