//! Slot arithmetic and outcome folding for deployment status rows.
//!
//! Every step owns two display slots — its main row and its undo row — so
//! reports can be placed by index in constant time.

use vstd::prelude::*;
use crate::text::{push_dec_u64, spec_dec_nat};
use crate::trusted::chars_to_string;
use vstd::string::StringExecFns;
use vstd::string::StringSliceAdditionalSpecFns;

verus! {

/// How one step currently stands.
#[derive(PartialEq, Eq, Structural, Debug, Clone)]
pub enum StepState {
    Pending,
    Running,
    Success,
    Failed,
    Skipped,
}

/// How a run currently stands, with the undecided middle state.
#[derive(PartialEq, Eq, Structural, Debug, Clone)]
pub enum StatusOutcome {
    Success,
    Failed,
    Unknown,
}

/// One display row of a run's status.
#[derive(Debug, Clone)]
pub struct StepStatus {
    pub step_id: String,
    pub name: String,
    pub is_undo: bool,
    pub defined_in_spec: bool,
    pub state: StepState,
    pub last_update: Option<u64>,
    pub attempts_total: u32,
    pub exit_code: Option<i32>,
    pub error: Option<String>,
}

/// The display slot of a step's main row.
pub fn main_slot(step_index: usize) -> (r: usize)
    requires
        step_index <= usize::MAX / 2,
    ensures
        r == step_index * 2,
{
    step_index * 2
}

/// The display slot of a step's undo row.
pub fn undo_slot(step_index: usize) -> (r: usize)
    requires
        step_index < usize::MAX / 2,
    ensures
        r == step_index * 2 + 1,
{
    step_index * 2 + 1
}

/// How many display slots a job needs: two per step.
pub fn step_slots(steps_len: usize) -> (r: usize)
    requires
        steps_len <= usize::MAX / 2,
    ensures
        r == steps_len * 2,
{
    steps_len * 2
}

/// The text of a step's display id: the run id, a colon and the index,
/// with `:undo` appended for the undo row.
pub open spec fn spec_step_id(run_id: Seq<char>, idx: int, is_undo: bool) -> Seq<char> {
    let base = run_id + ":"@ + spec_dec_nat(idx as nat).map_values(|b: u8| b as char);
    if is_undo {
        base + ":undo"@
    } else {
        base
    }
}

/// Build a step's display id.
pub fn step_id(run_id: &str, idx: usize, is_undo: bool) -> (r: String)
    ensures
        r@ == spec_step_id(run_id@, idx as int, is_undo),
{
    let mut digits: Vec<u8> = Vec::new();
    push_dec_u64(idx as u64, &mut digits);
    let mut cs: Vec<char> = Vec::new();
    let mut i: usize = 0;
    while i < digits.len()
        invariant
            i <= digits@.len(),
            cs@ == digits@.subrange(0, i as int).map_values(|b: u8| b as char),
        decreases digits@.len() - i,
    {
        cs.push(digits[i] as char);
        proof {
            assert(digits@.subrange(0, i + 1).map_values(|b: u8| b as char)
                =~= digits@.subrange(0, i as int).map_values(|b: u8| b as char).push(
                digits@[i as int] as char,
            ));
        }
        i = i + 1;
    }
    proof {
        assert(digits@.subrange(0, digits@.len() as int) =~= digits@);
    }
    let num = chars_to_string(&cs);
    let mut out = String::new();
    out.append(run_id);
    out.append(":");
    out.append(num.as_str());
    if is_undo {
        out.append(":undo");
    }
    proof {
        assert(out@ =~= spec_step_id(run_id@, idx as int, is_undo));
    }
    out
}

/// The outcome a list of step rows folds to, undo rows aside: any failure
/// fails the run; anything still pending leaves it undecided; otherwise a
/// success decides it; with nothing to count it stays undecided.
pub open spec fn spec_outcome(steps: Seq<StepStatus>) -> StatusOutcome {
    if exists|i: int|
        0 <= i < steps.len() && !(#[trigger] steps[i]).is_undo && steps[i].state
            == StepState::Failed {
        StatusOutcome::Failed
    } else if exists|i: int|
        0 <= i < steps.len() && !(#[trigger] steps[i]).is_undo && steps[i].state
            == StepState::Pending {
        StatusOutcome::Unknown
    } else if exists|i: int|
        0 <= i < steps.len() && !(#[trigger] steps[i]).is_undo && steps[i].state
            == StepState::Success {
        StatusOutcome::Success
    } else {
        StatusOutcome::Unknown
    }
}

/// Fold the step rows of a run into its outcome.
pub fn outcome_from_steps(steps: &Vec<StepStatus>) -> (r: StatusOutcome)
    ensures
        r == spec_outcome(steps@),
{
    let mut any_failed = false;
    let mut any_success = false;
    let mut any_pending = false;
    let mut i: usize = 0;
    while i < steps.len()
        invariant
            i <= steps@.len(),
            any_failed == exists|k: int|
                0 <= k < i && !(#[trigger] steps@[k]).is_undo && steps@[k].state
                    == StepState::Failed,
            any_pending == exists|k: int|
                0 <= k < i && !(#[trigger] steps@[k]).is_undo && steps@[k].state
                    == StepState::Pending,
            any_success == exists|k: int|
                0 <= k < i && !(#[trigger] steps@[k]).is_undo && steps@[k].state
                    == StepState::Success,
        decreases steps@.len() - i,
    {
        let s = &steps[i];
        if !s.is_undo {
            match s.state {
                StepState::Failed => {
                    any_failed = true;
                },
                StepState::Success => {
                    any_success = true;
                },
                StepState::Pending => {
                    any_pending = true;
                },
                StepState::Running => {
                },
                StepState::Skipped => {
                },
            }
        }
        proof {
            assert(steps@[i as int] == *s);
        }
        i = i + 1;
    }
    if any_failed {
        StatusOutcome::Failed
    } else if any_pending {
        StatusOutcome::Unknown
    } else if any_success {
        StatusOutcome::Success
    } else {
        StatusOutcome::Unknown
    }
}

} // verus!
