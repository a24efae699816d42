//! What lifecycle hooks may decide.
use vstd::prelude::*;

verus! {

/// Returned by a hook to influence the agent's execution flow.
#[derive(Debug)]
pub enum HookAction {
    /// Proceed normally.
    Continue,
    /// Skips the current operation without error: ends the cycle cleanly, or
    /// gives a vetoed tool call a synthetic skipped result.
    Skip,
    /// Aborts the current cycle immediately.
    AbortCycle,
    /// Refuses a tool call with a reason that the model is told.
    Deny(String),
}

impl Clone for HookAction {
    fn clone(&self) -> (r: HookAction)
        ensures
            r == *self,
    {
        match self {
            HookAction::Continue => HookAction::Continue,
            HookAction::Skip => HookAction::Skip,
            HookAction::AbortCycle => HookAction::AbortCycle,
            HookAction::Deny(reason) => HookAction::Deny(reason.clone()),
        }
    }
}

impl HookAction {
    /// Whether the operation goes on.
    pub fn continues(&self) -> (r: bool)
        ensures
            r == (*self is Continue),
    {
        match self {
            HookAction::Continue => true,
            _ => false,
        }
    }
}

/// The answer of a chain of hooks: the first that does not continue.
pub open spec fn chain_answer(answers: Seq<HookAction>) -> HookAction
    decreases answers.len(),
{
    if answers.len() == 0 {
        HookAction::Continue
    } else if answers[0] is Continue {
        chain_answer(answers.skip(1))
    } else {
        answers[0]
    }
}

/// Runs through the answers of a sequence of hooks, asked one after the other,
/// and stops at the first that does not continue. Hooks after it are not asked.
pub struct HookChain {
    pub answer: HookAction,
}

impl HookChain {
    pub fn new() -> (r: HookChain)
        ensures
            r.answer is Continue,
    {
        HookChain { answer: HookAction::Continue }
    }

    /// Whether the next hook is to be asked.
    pub fn asks_next(&self) -> (r: bool)
        ensures
            r == (self.answer is Continue),
    {
        self.answer.continues()
    }

    /// Takes in the answer of the next hook.
    pub fn hear(&mut self, answer: HookAction)
        requires
            old(self).answer is Continue,
        ensures
            final(self).answer == answer,
    {
        self.answer = answer;
    }
}

/// The answer of a chain that heard `answers` in order.
pub fn first_veto(answers: &Vec<HookAction>) -> (r: HookAction)
    ensures
        r == chain_answer(answers@),
{
    let mut chain = HookChain::new();
    let mut i: usize = 0;
    assert(answers@.skip(0) =~= answers@);
    while i < answers.len() && chain.asks_next()
        invariant
            i <= answers@.len(),
            chain.answer is Continue ==> chain_answer(answers@) == chain_answer(
                answers@.skip(i as int),
            ),
            !(chain.answer is Continue) ==> chain_answer(answers@) == chain.answer,
        decreases answers@.len() - i,
    {
        let answer = answers[i].clone();
        proof {
            let rest = answers@.skip(i as int);
            assert(rest[0] == answer);
            assert(rest.skip(1) =~= answers@.skip(i + 1));
        }
        chain.hear(answer);
        i += 1;
    }
    chain.answer
}

/// A chain continues exactly when every hook does.
pub proof fn law_chain_continues_iff_all_do(answers: Seq<HookAction>)
    ensures
        chain_answer(answers) is Continue <==> forall|i: int|
            0 <= i < answers.len() ==> #[trigger] answers[i] is Continue,
    decreases answers.len(),
{
    if answers.len() > 0 && answers[0] is Continue {
        let rest = answers.skip(1);
        law_chain_continues_iff_all_do(rest);
        if chain_answer(answers) is Continue {
            assert forall|i: int| 0 <= i < answers.len() implies #[trigger] answers[i] is Continue by {
                if i > 0 {
                    assert(rest[i - 1] == answers[i]);
                }
            }
        } else {
            let i = choose|i: int| 0 <= i < rest.len() && !(#[trigger] rest[i] is Continue);
            assert(answers[i + 1] == rest[i]);
        }
    }
}

} // verus!
