//! The classifier: the ternary verdict on a function.
//!
//! A function halts, loops, or asks a question about its own classification
//! that no verdict can answer. The last case is reported as an error, before
//! any other analysis is tried.

use vstd::prelude::*;
use crate::base_case::{base_case_reachable, has_base_case, is_base_case_reachable};
use crate::calls::sites_view;
use crate::iteration::{find_endless_loops, has_endless_loop};
use crate::paradox::{detect_paradox, paradoxical};
use crate::recursion::{find_recursions, recursion_sites};
use crate::registry::Registry;
use crate::syntax::{FnView, FunctionDefinition};

verus! {

/// The answer to the question whether a function halts.
#[derive(Clone, Copy, Debug, PartialEq, Eq, Structural)]
pub enum Verdict {
    /// Every loop and every recursion of the function has a way out.
    Halts,
    /// Some loop never ends, or some recursion has no base case to reach.
    Loops,
}

/// Why the question whether a function halts has no answer.
#[derive(Clone, Copy, Debug, PartialEq, Eq, Structural)]
pub enum ParadoxError {
    /// The function, or the registry around it, is not in a form that can be
    /// analysed. The analyses take well-formed input and never find this out
    /// themselves: it is for the caller that builds their input.
    CompileError,
    /// The function asks the classifier about a function, so that whatever
    /// verdict is given, it can do the opposite.
    InversionParadox,
}

impl ParadoxError {
    /// The error in words.
    pub fn message(&self) -> (text: String)
        ensures
            text@ == match *self {
                ParadoxError::CompileError => "Compile error"@,
                ParadoxError::InversionParadox => "Inversion paradox detected"@,
            },
    {
        match self {
            ParadoxError::CompileError => "Compile error".to_string(),
            ParadoxError::InversionParadox => "Inversion paradox detected".to_string(),
        }
    }
}

/// Some recursion site of `f` has no reachable base case.
pub open spec fn lacks_base_case(f: FnView, reg: Seq<FnView>) -> bool {
    exists|i: int|
        0 <= i < recursion_sites(f, reg).len() && !base_case_reachable(
            #[trigger] recursion_sites(f, reg)[i],
            f.name,
            reg,
        )
}

/// `f` is loopy: a recursion without a reachable base case, or an endless
/// loop.
pub open spec fn loopy(f: FnView, reg: Seq<FnView>) -> bool {
    lacks_base_case(f, reg) || has_endless_loop(f.body)
}

/// The verdict on `f` with the calls resolved through `reg`.
pub open spec fn classification(f: FnView, reg: Seq<FnView>) -> Result<Verdict, ParadoxError> {
    if paradoxical(f.body) {
        Err(ParadoxError::InversionParadox)
    } else if loopy(f, reg) {
        Ok(Verdict::Loops)
    } else {
        Ok(Verdict::Halts)
    }
}

/// The answer of the entry point: the classification of `f`, with the
/// verdict given as the answer to the question whether `f` halts.
pub open spec fn halting(f: FnView, reg: Seq<FnView>) -> Result<bool, ParadoxError> {
    match classification(f, reg) {
        Ok(verdict) => Ok(verdict == Verdict::Halts),
        Err(error) => Err(error),
    }
}

/// Whether `f` is loopy: some recursion site of it has no reachable base
/// case, or some loop of its body never ends.
pub fn loops(f: &FunctionDefinition, registry: &Registry) -> (looping: bool)
    requires
        registry.wf(),
    ensures
        looping == loopy(f@, registry@),
{
    let recursions = find_recursions(f, registry);
    let ghost sites = recursion_sites(f@, registry@);
    let mut i: usize = 0;
    while i < recursions.len()
        invariant
            i <= recursions.len(),
            registry.wf(),
            sites_view(recursions@) == sites,
            sites == recursion_sites(f@, registry@),
            forall|k: int| 0 <= k < i ==> base_case_reachable(#[trigger] sites[k], f@.name, registry@),
        decreases recursions.len() - i,
    {
        assert(sites[i as int] == recursions@[i as int]@);
        if !has_base_case(&recursions[i]) {
            return true;
        }
        if !is_base_case_reachable(&recursions[i], f, registry) {
            return true;
        }
        i += 1;
    }
    find_endless_loops(f)
}

/// Classifies `f`, resolving its calls through `registry`. A function that
/// asks the classifier about a function is an inversion paradox, whatever
/// else it does; otherwise the verdict is `Loops` when `f` is loopy and
/// `Halts` when it is not.
pub fn classify(f: &FunctionDefinition, registry: &Registry) -> (verdict: Result<
    Verdict,
    ParadoxError,
>)
    requires
        registry.wf(),
    ensures
        verdict == classification(f@, registry@),
{
    if detect_paradox(f) {
        return Err(ParadoxError::InversionParadox);
    }
    if loops(f, registry) {
        Ok(Verdict::Loops)
    } else {
        Ok(Verdict::Halts)
    }
}

/// Determines whether `maybe_paradox_function` halts, resolving its calls
/// through the registry of the session. `Ok(true)` says that it halts and
/// `Ok(false)` that it loops; a function that asks the classifier about a
/// function is an inversion paradox.
pub fn halts(maybe_paradox_function: &FunctionDefinition, registry: &Registry) -> (answer: Result<
    bool,
    ParadoxError,
>)
    requires
        registry.wf(),
    ensures
        answer == halting(maybe_paradox_function@, registry@),
{
    match classify(maybe_paradox_function, registry) {
        Ok(Verdict::Halts) => Ok(true),
        Ok(Verdict::Loops) => Ok(false),
        Err(error) => Err(error),
    }
}

} // verus!
