use crate::dag::names_of;
use crate::ready::outputs_all_present;
use crate::run_state::{RetryPolicy, StageRecord, StageStatus};
use vstd::prelude::*;

verus! {

/// Longest error text kept in a stage record, in characters.
pub const MAX_ERROR_CHARS: usize = 4000;

/// 2 to the power `e`.
pub open spec fn two_pow(e: nat) -> nat
    decreases e,
{
    if e == 0 {
        1
    } else {
        2 * two_pow((e - 1) as nat)
    }
}

/// `x`, capped at the largest `u64`.
pub open spec fn cap_u64(x: int) -> u64 {
    if x > u64::MAX {
        u64::MAX
    } else {
        x as u64
    }
}

/// Backoff before retrying after failed attempt `attempt`: `base * 2^attempt`
/// seconds, capped at the largest `u64`.
pub open spec fn backoff_spec(base: u64, attempt: nat) -> u64 {
    cap_u64(base * two_pow(attempt))
}

/// Exponential backoff: `base * 2^attempt`, saturating at `u64::MAX`.
pub fn backoff_delay(base: u64, attempt: u32) -> (r: u64)
    ensures
        r == backoff_spec(base, attempt as nat),
{
    let mut d: u64 = base;
    let mut i: u32 = 0;
    assert(two_pow(0) == 1);
    assert(base * two_pow(0) == base);
    while i < attempt
        invariant
            i <= attempt,
            d == backoff_spec(base, i as nat),
        decreases attempt - i,
    {
        proof {
            assert(two_pow((i + 1) as nat) == 2 * two_pow(i as nat));
            assert(base * two_pow((i + 1) as nat) == 2 * (base * two_pow(i as nat))) by (
            nonlinear_arith)
                requires
                    two_pow((i + 1) as nat) == 2 * two_pow(i as nat),
            ;
        }
        if d > u64::MAX / 2 {
            d = u64::MAX;
        } else {
            d = d * 2;
        }
        i = i + 1;
    }
    d
}

/// What happens after one attempt of a stage.
#[derive(Debug, Clone, Copy, PartialEq, Eq, Structural)]
pub enum RetryStep {
    /// The attempt succeeded.
    Succeeded,
    /// The attempt failed; wait this many seconds and run the stage again.
    RetryAfter(u64),
    /// The attempt failed and no retry is left.
    Failed,
}

/// The retry rule: a success ends the stage; a failed attempt `attempt` is
/// retried after its backoff while `attempt < max_retries`, else the stage fails.
pub open spec fn retry_step_spec(max_retries: nat, base: u64, attempt: nat, ok: bool) -> RetryStep {
    if ok {
        RetryStep::Succeeded
    } else if attempt < max_retries {
        RetryStep::RetryAfter(backoff_spec(base, attempt))
    } else {
        RetryStep::Failed
    }
}

/// Decides what follows attempt `attempt` (counted from 0) of a stage.
pub fn next_retry_step(policy: &RetryPolicy, attempt: u32, ok: bool) -> (r: RetryStep)
    ensures
        r == retry_step_spec(
            policy.max_retries as nat,
            policy.backoff_base_seconds,
            attempt as nat,
            ok,
        ),
{
    if ok {
        RetryStep::Succeeded
    } else if attempt < policy.max_retries {
        RetryStep::RetryAfter(backoff_delay(policy.backoff_base_seconds, attempt))
    } else {
        RetryStep::Failed
    }
}

/// Running the retry rule from attempt `attempt` against an executor that
/// always fails: the number of executor invocations and the delays waited.
pub open spec fn failing_run(max_retries: nat, base: u64, attempt: nat) -> (nat, Seq<u64>)
    decreases max_retries - attempt,
{
    match retry_step_spec(max_retries, base, attempt, false) {
        RetryStep::RetryAfter(d) => {
            let rest = failing_run(max_retries, base, attempt + 1);
            (rest.0 + 1, seq![d] + rest.1)
        },
        _ => (1, Seq::empty()),
    }
}

/// Against a permanently failing executor the stage is run `max_retries + 1`
/// times, waiting `base * 2^i` seconds after failed attempt `i`, and then fails.
pub proof fn lemma_failing_executor_attempts(max_retries: nat, base: u64)
    ensures
        failing_run(max_retries, base, 0).0 == max_retries + 1,
        failing_run(max_retries, base, 0).1.len() == max_retries,
        forall|i: int|
            0 <= i < max_retries ==> #[trigger] failing_run(max_retries, base, 0).1[i]
                == backoff_spec(base, i as nat),
        retry_step_spec(max_retries, base, max_retries, false) == RetryStep::Failed,
{
    lemma_failing_run_from(max_retries, base, 0);
}

proof fn lemma_failing_run_from(max_retries: nat, base: u64, attempt: nat)
    requires
        attempt <= max_retries,
    ensures
        failing_run(max_retries, base, attempt).0 == max_retries - attempt + 1,
        failing_run(max_retries, base, attempt).1.len() == max_retries - attempt,
        forall|i: int|
            0 <= i < max_retries - attempt ==> #[trigger] failing_run(
                max_retries,
                base,
                attempt,
            ).1[i] == backoff_spec(base, (attempt + i) as nat),
    decreases max_retries - attempt,
{
    if attempt < max_retries {
        lemma_failing_run_from(max_retries, base, attempt + 1);
        let rest = failing_run(max_retries, base, attempt + 1);
        let d = backoff_spec(base, attempt);
        assert(failing_run(max_retries, base, attempt).1 == seq![d] + rest.1);
        assert forall|i: int| 0 <= i < max_retries - attempt implies #[trigger] failing_run(
            max_retries,
            base,
            attempt,
        ).1[i] == backoff_spec(base, (attempt + i) as nat) by {
            if i > 0 {
                assert(rest.1[i - 1] == backoff_spec(base, (attempt + 1 + (i - 1)) as nat));
            }
        }
    }
}

/// A stage is finished by its outputs when it declares some and all exist.
pub open spec fn done_by_outputs(outputs: Seq<Seq<char>>, present: Seq<Seq<char>>) -> bool {
    outputs.len() > 0 && forall|k: int| 0 <= k < outputs.len() ==> present.contains(
        #[trigger] outputs[k],
    )
}

/// Whether a stage's declared outputs are non-empty and all exist.
pub fn stage_done_by_outputs(outputs: &Vec<String>, present: &Vec<String>) -> (r: bool)
    ensures
        r == done_by_outputs(names_of(outputs@), names_of(present@)),
{
    if outputs.len() == 0 {
        return false;
    }
    let r = outputs_all_present(outputs, present);
    proof {
        if r {
            assert forall|k: int| 0 <= k < names_of(outputs@).len() implies names_of(
                present@,
            ).contains(#[trigger] names_of(outputs@)[k]) by {
                assert(names_of(outputs@)[k] == outputs@[k]@);
            }
        } else {
            let k = choose|k: int|
                0 <= k < outputs@.len() && !names_of(present@).contains(#[trigger] outputs@[k]@);
            assert(names_of(outputs@)[k] == outputs@[k]@);
        }
    }
    r
}

/// The error text kept for a stage: the first 4000 characters, marked when cut.
pub open spec fn truncated_spec(s: Seq<char>) -> Seq<char> {
    if s.len() <= MAX_ERROR_CHARS {
        s
    } else {
        s.take(MAX_ERROR_CHARS as int) + "...(truncated)"@
    }
}

/// Keeps at most 4000 characters of an error text.
pub fn truncate_err(s: &str) -> (r: String)
    ensures
        r@ == truncated_spec(s@),
{
    let n = s.unicode_len();
    if n <= MAX_ERROR_CHARS {
        return String::from_str(s);
    }
    let head = s.substring_char(0, MAX_ERROR_CHARS);
    let mut out = String::from_str(head);
    out.append("...(truncated)");
    assert(head@ =~= s@.take(MAX_ERROR_CHARS as int));
    out
}

/// Marks the start of attempt `attempt` at time `now`.
pub fn begin_attempt(rec: &mut StageRecord, attempt: u32, now: u64)
    ensures
        final(rec).status == StageStatus::RUNNING,
        final(rec).retries == attempt,
        final(rec).started_at == Some(now),
        final(rec).last_heartbeat_at == Some(now),
        final(rec).ended_at is None,
        final(rec).error is None,
        final(rec).exit_code is None,
        final(rec).outputs == old(rec).outputs,
        final(rec).command == old(rec).command,
        final(rec).timeout_seconds == old(rec).timeout_seconds,
{
    rec.status = StageStatus::RUNNING;
    rec.retries = attempt;
    rec.started_at = Some(now);
    rec.last_heartbeat_at = Some(now);
    rec.ended_at = None;
    rec.error = None;
    rec.exit_code = None;
}

/// Records how an attempt ended: SUCCEEDED with no error, or FAILED with the
/// exit code and the error text cut to 4000 characters.
pub fn finish_attempt(rec: &mut StageRecord, ok: bool, exit_code: i32, err: &str, now: u64)
    ensures
        final(rec).status == (if ok {
            StageStatus::SUCCEEDED
        } else {
            StageStatus::FAILED
        }),
        final(rec).exit_code == Some(exit_code),
        final(rec).ended_at == Some(now),
        final(rec).last_heartbeat_at == Some(now),
        ok ==> final(rec).error is None,
        !ok ==> (final(rec).error matches Some(e) && e@ == truncated_spec(err@)),
        final(rec).retries == old(rec).retries,
        final(rec).started_at == old(rec).started_at,
        final(rec).outputs == old(rec).outputs,
        final(rec).command == old(rec).command,
        final(rec).timeout_seconds == old(rec).timeout_seconds,
{
    rec.exit_code = Some(exit_code);
    rec.ended_at = Some(now);
    rec.last_heartbeat_at = Some(now);
    if ok {
        rec.status = StageStatus::SUCCEEDED;
        rec.error = None;
    } else {
        rec.status = StageStatus::FAILED;
        rec.error = Some(truncate_err(err));
    }
}

/// Skips a stage whose declared outputs already exist: it becomes SKIPPED and
/// must not be executed. Returns whether it was skipped; otherwise the record is
/// left as it was.
pub fn try_skip(rec: &mut StageRecord, present: &Vec<String>) -> (skipped: bool)
    ensures
        skipped == done_by_outputs(names_of(old(rec).outputs@), names_of(present@)),
        skipped ==> final(rec).status == StageStatus::SKIPPED && final(rec).outputs == old(
            rec,
        ).outputs,
        !skipped ==> *final(rec) == *old(rec),
{
    if stage_done_by_outputs(&rec.outputs, present) {
        rec.status = StageStatus::SKIPPED;
        true
    } else {
        false
    }
}

/// Every declared output is among the existing paths (true when none is declared).
pub open spec fn all_present(outputs: Seq<Seq<char>>, present: Seq<Seq<char>>) -> bool {
    forall|k: int| 0 <= k < outputs.len() ==> present.contains(#[trigger] outputs[k])
}

/// Final status of a stage task. The executor's success counts only when every
/// declared output exists afterwards; otherwise the stage FAILED.
pub fn settle_stage(rec: &mut StageRecord, executor_ok: bool, present: &Vec<String>, now: u64)
    ensures
        final(rec).status == (if executor_ok && all_present(
            names_of(old(rec).outputs@),
            names_of(present@),
        ) {
            StageStatus::SUCCEEDED
        } else {
            StageStatus::FAILED
        }),
        final(rec).status == StageStatus::SUCCEEDED ==> final(rec).error is None,
        final(rec).status == StageStatus::FAILED ==> final(rec).error is Some,
        final(rec).ended_at is Some,
        final(rec).last_heartbeat_at == Some(now),
        final(rec).outputs == old(rec).outputs,
        final(rec).retries == old(rec).retries,
{
    let outputs_ok = outputs_all_present(&rec.outputs, present);
    proof {
        assert(outputs_ok == all_present(names_of(rec.outputs@), names_of(present@))) by {
            if outputs_ok {
                assert forall|k: int| 0 <= k < names_of(rec.outputs@).len() implies names_of(
                    present@,
                ).contains(#[trigger] names_of(rec.outputs@)[k]) by {
                    assert(names_of(rec.outputs@)[k] == rec.outputs@[k]@);
                }
            } else {
                let k = choose|k: int|
                    0 <= k < rec.outputs@.len() && !names_of(present@).contains(
                        #[trigger] rec.outputs@[k]@,
                    );
                assert(names_of(rec.outputs@)[k] == rec.outputs@[k]@);
            }
        }
    }
    if rec.ended_at.is_none() {
        rec.ended_at = Some(now);
    }
    rec.last_heartbeat_at = Some(now);
    if executor_ok && outputs_ok {
        rec.status = StageStatus::SUCCEEDED;
        rec.error = None;
    } else {
        rec.status = StageStatus::FAILED;
        if rec.error.is_none() {
            if executor_ok {
                rec.error = Some(String::from_str("declared outputs missing after success"));
            } else {
                rec.error = Some(String::from_str("stage failed"));
            }
        }
    }
}

} // verus!
