//! What the coordinator decides, and how many coders follow from it.

use vstd::prelude::*;
use crate::models::LOCAL_GPT_ROUTER_MODEL;

verus! {

/// How a request is to be treated.
#[derive(Debug)]
pub struct CoordinatorDecision {
    pub reply_now: bool,
    pub needs_code: bool,
    pub summary: String,
    pub direct_reply: String,
    pub recommended_agent_count: usize,
    pub use_large_single_coder: bool,
}

/// What a [`CoordinatorDecision`] says.
pub struct Decision {
    pub reply_now: bool,
    pub needs_code: bool,
    pub summary: Seq<char>,
    pub direct_reply: Seq<char>,
    pub recommended_agent_count: usize,
    pub use_large_single_coder: bool,
}

impl View for CoordinatorDecision {
    type V = Decision;

    open spec fn view(&self) -> Decision {
        Decision {
            reply_now: self.reply_now,
            needs_code: self.needs_code,
            summary: self.summary@,
            direct_reply: self.direct_reply@,
            recommended_agent_count: self.recommended_agent_count,
            use_large_single_coder: self.use_large_single_coder,
        }
    }
}

/// The number of coders where the coordinator names none.
pub fn default_recommended_agent_count() -> (r: usize)
    ensures
        r == 1,
{
    1
}

/// The decision that stands in where the coordinator gives none: the request goes to one coder
/// with the large model.
pub open spec fn default_decision(request: Seq<char>) -> Decision {
    Decision {
        reply_now: false,
        needs_code: true,
        summary: request,
        direct_reply: ""@,
        recommended_agent_count: 1,
        use_large_single_coder: true,
    }
}

/// The decision that stands in where the coordinator gives none.
pub fn fallback_decision(request: &str) -> (r: CoordinatorDecision)
    ensures
        r@ == default_decision(request@),
{
    CoordinatorDecision {
        reply_now: false,
        needs_code: true,
        summary: request.to_owned(),
        direct_reply: "".to_owned(),
        recommended_agent_count: 1,
        use_large_single_coder: true,
    }
}

/// `n` kept between `low` and `high`.
pub open spec fn kept_between(n: int, low: int, high: int) -> int {
    if n < low {
        low
    } else if n > high {
        high
    } else {
        n
    }
}

/// The number of coders that a decision asks for, as far as the setting allows.
pub open spec fn wanted_coders(max_parallel: usize, d: Decision) -> int {
    if d.needs_code {
        kept_between(max_parallel as int, 1, 6)
    } else {
        let requested = kept_between(d.recommended_agent_count as int, 1, 6);
        let most = if max_parallel < 1 {
            1
        } else {
            max_parallel as int
        };
        if requested <= most {
            requested
        } else {
            most
        }
    }
}

/// The number of coders that a decision asks for, as far as the setting allows.
pub fn recommended_agent_count(max_parallel: usize, decision: &CoordinatorDecision) -> (r: usize)
    ensures
        r == wanted_coders(max_parallel, decision@),
{
    if decision.needs_code {
        if max_parallel < 1 {
            1
        } else if max_parallel > 6 {
            6
        } else {
            max_parallel
        }
    } else {
        let asked: usize = decision.recommended_agent_count;
        let requested: usize = if asked < 1 {
            1
        } else if asked > 6 {
            6
        } else {
            asked
        };
        let most: usize = if max_parallel < 1 {
            1
        } else {
            max_parallel
        };
        if requested <= most {
            requested
        } else {
            most
        }
    }
}

/// There is always at least one coder, never more than six, and never more than the setting
/// allows, unless it allows none.
pub proof fn team_size(max_parallel: usize, d: Decision)
    ensures
        1 <= wanted_coders(max_parallel, d) <= 6,
        max_parallel >= 1 ==> wanted_coders(max_parallel, d) <= max_parallel,
{
}

/// Where code is needed, as many coders work as the setting allows; where not, as many as the
/// coordinator asks for, as far as the setting allows.
pub proof fn the_team_is_as_large_as_asked(max_parallel: usize, d: Decision)
    ensures
        d.needs_code && 1 <= max_parallel <= 6 ==> wanted_coders(max_parallel, d) == max_parallel,
        d.needs_code && max_parallel > 6 ==> wanted_coders(max_parallel, d) == 6,
        !d.needs_code && 1 <= d.recommended_agent_count <= 6 && max_parallel
            >= d.recommended_agent_count ==> wanted_coders(max_parallel, d)
            == d.recommended_agent_count,
        !d.needs_code && d.recommended_agent_count >= max_parallel && 1 <= max_parallel <= 6
            ==> wanted_coders(max_parallel, d) == max_parallel,
        max_parallel == 0 ==> wanted_coders(max_parallel, d) == 1,
{
}

/// The decision that stands in for that of the coordinator asks for code, with the request itself as
/// the goal, from the large model alone.
pub proof fn the_stand_in_asks_for_what_was_requested(request: Seq<char>)
    ensures
        default_decision(request).needs_code,
        !default_decision(request).reply_now,
        default_decision(request).summary == request,
        default_decision(request).use_large_single_coder,
        primary_model(default_decision(request), 1, ""@) == "gpt-oss:20b"@,
{
}

/// The first coder works with the chosen model, unless the large one is wanted and works alone.
pub proof fn the_chosen_model_works_first(d: Decision, count: int, model: Seq<char>)
    ensures
        count > 1 || !d.use_large_single_coder ==> primary_model(d, count, model) == model,
        count == 1 && d.use_large_single_coder ==> primary_model(d, count, model) == "gpt-oss:20b"@,
{
}

/// The model of the first coder: the large one where it works alone and is wanted.
pub open spec fn primary_model(d: Decision, count: int, model: Seq<char>) -> Seq<char> {
    if d.use_large_single_coder && count == 1 {
        LOCAL_GPT_ROUTER_MODEL@
    } else {
        model
    }
}

} // verus!
