use crate::dag::{cssmv_dag_v1, is_cssmv_dag, is_topo_order, lemma_cssmv_dag_valid, names_of, topo_indices, Dag};
use crate::jobs::index_of;
use crate::ready::{
    any_failed, compute_ready_view_with_dag_limited, has_failed_stage, lemma_ready_list_sound,
    ready_in, ready_list, shot_names, shot_stage_names, stage_deps, stage_is_ready,
};
use crate::run_state::{
    find_stage, has_stage, pending_record, rec_of, stage_names_of, status_of, wf, RunState,
    RunStatus, StageEntry, StageRecord, StageStatus,
};
use vstd::prelude::*;

verus! {

/// What the supervisory loop does next.
#[derive(Debug, Clone, PartialEq, Eq)]
pub enum TickAction {
    /// The video plan succeeded and no shot stages exist: insert them, persist,
    /// and run the tick again.
    ExpandShots,
    /// Start a task for each of these stages (already marked RUNNING).
    Start(Vec<String>),
    /// Nothing is in flight and nothing more can start: the run ends with this status.
    Finish(RunStatus),
    /// Wait for an in-flight stage to complete (or a short poll interval).
    Wait,
}

/// The graph must be expanded with shot stages before anything else happens.
pub open spec fn needs_expansion(st: RunState) -> bool {
    status_of(st, "video_plan"@) == Some(StageStatus::SUCCEEDED) && shot_names(st.stages@).len()
        == 0
}

/// The stuck timeout of a run: its own override, else the configured one.
pub open spec fn stuck_timeout(st: RunState) -> u64 {
    match st.stuck_timeout_seconds {
        Some(t) => t,
        None => st.config.stuck_timeout_seconds,
    }
}

/// A RUNNING stage whose last heartbeat (its own, else the run's `run_hb`) is
/// more than `timeout` seconds old.
pub open spec fn is_stuck(r: StageRecord, run_hb: Option<u64>, now: u64, timeout: u64) -> bool {
    r.status == StageStatus::RUNNING && match (if r.last_heartbeat_at is Some {
        r.last_heartbeat_at
    } else {
        run_hb
    }) {
        Some(hb) => now >= hb && now - hb > timeout,
        None => false,
    }
}

/// Some stage would be failed as stuck by a heartbeat pass at `now` (which
/// stamps the run's own heartbeat first).
pub open spec fn some_stuck(st: RunState, now: u64) -> bool {
    exists|i: int|
        0 <= i < st.stages@.len() && is_stuck(
            #[trigger] st.stages@[i].record,
            Some(now),
            now,
            stuck_timeout(st),
        )
}

/// Whether stage `i` is stuck at `now`: RUNNING, and its last heartbeat (its
/// own, else the run's) more than the stuck timeout ago.
pub fn stage_stuck(st: &RunState, i: usize, now: u64) -> (r: bool)
    requires
        i < st.stages@.len(),
    ensures
        r == is_stuck(st.stages@[i as int].record, st.last_heartbeat_at, now, stuck_timeout(*st)),
{
    let timeout = match st.stuck_timeout_seconds {
        Some(t) => t,
        None => st.config.stuck_timeout_seconds,
    };
    let rec = &st.stages[i].record;
    let hb = match rec.last_heartbeat_at {
        Some(h) => Some(h),
        None => st.last_heartbeat_at,
    };
    rec.status == StageStatus::RUNNING && match hb {
        Some(h) => now >= h && now - h > timeout,
        None => false,
    }
}

/// Some stage of the run is PENDING.
pub open spec fn has_pending_stage(st: RunState) -> bool {
    exists|i: int| 0 <= i < st.stages@.len() && st.stages@[i].record.status == StageStatus::PENDING
}

/// The two runs hold the same stage names, in the same positions.
pub open spec fn same_names(a: RunState, b: RunState) -> bool {
    a.stages@.len() == b.stages@.len() && forall|i: int|
        0 <= i < a.stages@.len() ==> (#[trigger] a.stages@[i]).name == b.stages@[i].name
}

/// Whether the shot stages must be inserted now.
pub fn expansion_needed(st: &RunState) -> (r: bool)
    requires
        wf(*st),
    ensures
        r == needs_expansion(*st),
{
    let plan_ok = match find_stage(st, "video_plan") {
        Some(i) => st.stages[i].record.status == StageStatus::SUCCEEDED,
        None => false,
    };
    plan_ok && shot_stage_names(st).len() == 0
}

/// Whether some stage is PENDING.
pub fn any_pending(st: &RunState) -> (r: bool)
    ensures
        r == has_pending_stage(*st),
{
    let mut i: usize = 0;
    while i < st.stages.len()
        invariant
            i <= st.stages@.len(),
            forall|k: int| 0 <= k < i ==> st.stages@[k].record.status != StageStatus::PENDING,
        decreases st.stages@.len() - i,
    {
        if st.stages[i].record.status == StageStatus::PENDING {
            return true;
        }
        i = i + 1;
    }
    false
}

/// Heartbeat pass: stamps the run's heartbeat and fails every stuck stage with
/// "stuck timeout". Returns whether some stage was failed.
pub fn heartbeat_pass(st: &mut RunState, now: u64) -> (any_stuck: bool)
    ensures
        final(st).last_heartbeat_at == Some(now),
        same_names(*final(st), *old(st)),
        final(st).topo_order == old(st).topo_order,
        final(st).dag_edges == old(st).dag_edges,
        final(st).cancel_requested == old(st).cancel_requested,
        final(st).status == old(st).status,
        final(st).run_id == old(st).run_id,
        final(st).retry_policy == old(st).retry_policy,
        any_stuck == some_stuck(*old(st), now),
        forall|i: int|
            0 <= i < old(st).stages@.len() ==> if is_stuck(
                old(st).stages@[i].record,
                Some(now),
                now,
                stuck_timeout(*old(st)),
            ) {
                (#[trigger] final(st).stages@[i]).record.status == StageStatus::FAILED
                    && final(st).stages@[i].record.outputs == old(st).stages@[i].record.outputs
            } else {
                final(st).stages@[i] == old(st).stages@[i]
            },
{
    let timeout = match st.stuck_timeout_seconds {
        Some(t) => t,
        None => st.config.stuck_timeout_seconds,
    };
    st.last_heartbeat_at = Some(now);
    let n = st.stages.len();
    let mut any_stuck = false;
    let mut i: usize = 0;
    while i < n
        invariant
            n == st.stages@.len(),
            n == old(st).stages@.len(),
            i <= n,
            timeout == stuck_timeout(*old(st)),
            st.last_heartbeat_at == Some(now),
            st.topo_order == old(st).topo_order,
            st.dag_edges == old(st).dag_edges,
            st.cancel_requested == old(st).cancel_requested,
            st.status == old(st).status,
            st.run_id == old(st).run_id,
            st.retry_policy == old(st).retry_policy,
            forall|k: int| 0 <= k < n ==> (#[trigger] st.stages@[k]).name == old(st).stages@[k].name,
            st.stuck_timeout_seconds == old(st).stuck_timeout_seconds,
            st.config == old(st).config,
            any_stuck == exists|k: int|
                0 <= k < i && is_stuck(#[trigger] old(st).stages@[k].record, Some(now), now, timeout),
            forall|k: int|
                0 <= k < n ==> if k < i && is_stuck(old(st).stages@[k].record, Some(now), now, timeout) {
                    (#[trigger] st.stages@[k]).record.status == StageStatus::FAILED
                        && st.stages@[k].record.outputs == old(st).stages@[k].record.outputs
                } else {
                    st.stages@[k] == old(st).stages@[k]
                },
        decreases n - i,
    {
        let stuck = stage_stuck(st, i, now);
        if stuck {
            let rec = &mut st.stages[i].record;
            rec.status = StageStatus::FAILED;
            rec.error = Some(String::from_str("stuck timeout"));
            rec.ended_at = Some(now);
            rec.last_heartbeat_at = Some(now);
            any_stuck = true;
        }
        proof {
            assert(st.stages@[i as int].record == old(st).stages@[i as int].record || stuck);
        }
        i = i + 1;
    }
    any_stuck
}

/// Stage `i` of `new` is stage `i` of `old`, or a PENDING stage of `old` that
/// was started: now RUNNING, listed in `started`, outputs kept.
pub open spec fn kept_or_started(old: RunState, new: RunState, started: Seq<Seq<char>>, i: int) -> bool {
    ||| new.stages@[i] == old.stages@[i]
    ||| {
        &&& old.stages@[i].record.status == StageStatus::PENDING
        &&& new.stages@[i].record.status == StageStatus::RUNNING
        &&& new.stages@[i].record.outputs == old.stages@[i].record.outputs
        &&& started.contains(new.stages@[i].name@)
    }
}

proof fn lemma_same_names_wf(a: RunState, b: RunState)
    requires
        wf(a),
        same_names(a, b),
    ensures
        wf(b),
{
    assert forall|i: int, j: int|
        0 <= i < b.stages@.len() && 0 <= j < b.stages@.len() && i != j implies b.stages@[i].name@
            != b.stages@[j].name@ by {
        assert(a.stages@[i].name == b.stages@[i].name);
        assert(a.stages@[j].name == b.stages@[j].name);
    }
}

proof fn lemma_status_elsewhere(a: RunState, b: RunState, i: int, x: Seq<char>)
    requires
        wf(a),
        same_names(b, a),
        0 <= i < a.stages@.len(),
        forall|j: int| 0 <= j < a.stages@.len() && j != i ==> b.stages@[j] == a.stages@[j],
        has_stage(a, x),
        a.stages@[i].name@ != x,
    ensures
        wf(b),
        status_of(b, x) == status_of(a, x),
{
    lemma_same_names_wf(a, b);
    let j = choose|j: int| 0 <= j < a.stages@.len() && a.stages@[j].name@ == x;
    crate::run_state::lemma_rec_at(a, j);
    assert(b.stages@[j] == a.stages@[j]);
    crate::run_state::lemma_rec_at(b, j);
}

/// Free stage permits: `concurrency` less the tasks in flight.
pub open spec fn free_permits(concurrency: int, in_flight: int) -> int {
    if concurrency > in_flight {
        concurrency - in_flight
    } else {
        0
    }
}

/// Starts ready stages, in topological order, while permits are free: each
/// becomes RUNNING at `now`. Every ready stage that is not in flight is started
/// unless all free permits are used. No stage starts once cancellation is
/// requested. Returns the stages started.
pub fn start_ready(
    st: &mut RunState,
    dag: &Dag,
    in_flight: &Vec<String>,
    present: &Vec<String>,
    now: u64,
    concurrency: usize,
) -> (started: Vec<String>)
    requires
        wf(*old(st)),
    ensures
        wf(*final(st)),
        same_names(*final(st), *old(st)),
        final(st).topo_order == old(st).topo_order,
        final(st).dag_edges == old(st).dag_edges,
        final(st).cancel_requested == old(st).cancel_requested,
        final(st).status == old(st).status,
        final(st).last_heartbeat_at == old(st).last_heartbeat_at,
        final(st).run_id == old(st).run_id,
        final(st).retry_policy == old(st).retry_policy,
        started@.len() <= free_permits(concurrency as int, in_flight@.len() as int),
        names_of(started@).no_duplicates(),
        old(st).cancel_requested ==> started@.len() == 0,
        forall|k: int|
            0 <= k < started@.len() ==> stage_is_ready(
                *dag,
                *old(st),
                names_of(present@),
                #[trigger] started@[k]@,
            ) && !names_of(in_flight@).contains(started@[k]@),
        started@.len() < free_permits(concurrency as int, in_flight@.len() as int) ==> forall|k: int|
            0 <= k < ready_list(*dag, *old(st), names_of(present@), usize::MAX as int).len()
                && !names_of(in_flight@).contains(
                #[trigger] ready_list(*dag, *old(st), names_of(present@), usize::MAX as int)[k],
            ) ==> names_of(started@).contains(
                ready_list(*dag, *old(st), names_of(present@), usize::MAX as int)[k],
            ),
        forall|i: int|
            0 <= i < old(st).stages@.len() ==> #[trigger] kept_or_started(
                *old(st),
                *final(st),
                names_of(started@),
                i,
            ),
        started@.len() == 0 && in_flight@.len() == 0 && concurrency > 0 ==> ready_list(
            *dag,
            *old(st),
            names_of(present@),
            usize::MAX as int,
        ).len() == 0,
{
    let view = compute_ready_view_with_dag_limited(st, dag, usize::MAX, present);
    let ready = view.ready;
    let ghost pres = names_of(present@);
    let ghost old_st = *st;
    let ghost rl = ready_list(*dag, old_st, pres, usize::MAX as int);
    let free = if concurrency > in_flight.len() {
        concurrency - in_flight.len()
    } else {
        0
    };
    let mut started: Vec<String> = Vec::new();
    let mut k: usize = 0;
    while k < ready.len() && started.len() < free
        invariant
            names_of(ready@) == rl,
            old_st == *old(st),
            rl == ready_list(*dag, old_st, pres, usize::MAX as int),
            free == free_permits(concurrency as int, in_flight@.len() as int),
            k <= ready@.len(),
            started@.len() <= free,
            started@.len() <= k,
            same_names(*st, *old(st)),
            wf(*old(st)),
            wf(*st),
            st.topo_order == old(st).topo_order,
            st.dag_edges == old(st).dag_edges,
            st.cancel_requested == old(st).cancel_requested,
            st.status == old(st).status,
            st.last_heartbeat_at == old(st).last_heartbeat_at,
            st.run_id == old(st).run_id,
            st.retry_policy == old(st).retry_policy,
            started@.len() == 0 ==> st.stages == old(st).stages,
            names_of(started@).no_duplicates(),
            forall|x: int|
                0 <= x < started@.len() ==> status_of(*st, #[trigger] started@[x]@) == Some(
                    StageStatus::RUNNING,
                ),
            forall|x: int|
                0 <= x < k && !names_of(in_flight@).contains(#[trigger] rl[x]) ==> names_of(
                    started@,
                ).contains(rl[x]),
            forall|x: int|
                0 <= x < started@.len() ==> stage_is_ready(
                    *dag,
                    *old(st),
                    pres,
                    #[trigger] started@[x]@,
                ) && !names_of(in_flight@).contains(started@[x]@),
            forall|i: int|
                0 <= i < old(st).stages@.len() ==> #[trigger] kept_or_started(
                    *old(st),
                    *st,
                    names_of(started@),
                    i,
                ),
        decreases ready@.len() - k,
    {
        let name = &ready[k];
        proof {
            assert(names_of(ready@).len() == ready@.len());
            assert(names_of(ready@)[k as int] == name@);
            assert(rl[k as int] == name@);
            assert(rl.contains(name@));
            lemma_ready_list_sound(*dag, old_st, pres, usize::MAX as int, name@);
        }
        let flight = index_of(in_flight, name.as_str());
        if let Some(f) = flight {
            proof {
                assert(names_of(in_flight@)[f as int] == name@);
                assert(names_of(in_flight@).contains(rl[k as int]));
            }
        }
        if flight.is_none() {
            proof {
                // the stage exists in the current state, which has the old names
                let j = choose|j: int|
                    0 <= j < old(st).stages@.len() && old(st).stages@[j].name@ == name@;
                assert(st.stages@[j].name == old(st).stages@[j].name);
                assert(has_stage(*st, name@));
            }
            match find_stage(st, name.as_str()) {
                Some(i) => {
                    proof {
                        crate::run_state::lemma_rec_at(*old(st), i as int);
                        assert(st.stages@[i as int].name == old(st).stages@[i as int].name);
                        assert(kept_or_started(*old(st), *st, names_of(started@), i as int));
                    }
                    if st.stages[i].record.status == StageStatus::PENDING {
                        let ghost before = *st;
                        let ghost prev = started@;
                        proof {
                            if names_of(prev).contains(name@) {
                                let y = choose|y: int|
                                    0 <= y < names_of(prev).len() && names_of(prev)[y] == name@;
                                assert(status_of(before, prev[y]@) == Some(StageStatus::RUNNING));
                            }
                        }
                        {
                            let rec = &mut st.stages[i].record;
                            rec.status = StageStatus::RUNNING;
                            rec.started_at = Some(now);
                            rec.last_heartbeat_at = Some(now);
                            rec.ended_at = None;
                            rec.error = None;
                            rec.exit_code = None;
                        }
                        started.push(name.clone());
                        proof {
                            crate::dag::lemma_names_push(prev, *name);
                            assert(same_names(*st, before));
                            lemma_same_names_wf(before, *st);
                            crate::run_state::lemma_rec_at(*st, i as int);
                            assert(names_of(started@)[prev.len() as int] == name@);
                            assert forall|x: int|
                                0 <= x < started@.len() implies status_of(
                                    *st,
                                    #[trigger] started@[x]@,
                                ) == Some(StageStatus::RUNNING) by {
                                if x < prev.len() {
                                    assert(started@[x] == prev[x]);
                                    assert(status_of(before, prev[x]@) == Some(StageStatus::RUNNING));
                                    assert(has_stage(before, prev[x]@));
                                    lemma_status_elsewhere(before, *st, i as int, prev[x]@);
                                }
                            }
                            assert forall|x: int|
                                0 <= x <= k && !names_of(in_flight@).contains(#[trigger] rl[x])
                                    implies names_of(started@).contains(rl[x]) by {
                                if x < k {
                                    let y = choose|y: int|
                                        0 <= y < names_of(prev).len() && names_of(prev)[y] == rl[x];
                                    assert(names_of(started@)[y] == rl[x]);
                                }
                            }
                            assert forall|j: int|
                                0 <= j < old(st).stages@.len() implies #[trigger] kept_or_started(
                                *old(st),
                                *st,
                                names_of(started@),
                                j,
                            ) by {
                                assert(kept_or_started(*old(st), before, names_of(prev), j));
                                if j != i {
                                    assert(st.stages@[j] == before.stages@[j]);
                                    if !(st.stages@[j] == old(st).stages@[j]) {
                                        let y = choose|y: int|
                                            0 <= y < names_of(prev).len() && names_of(prev)[y]
                                                == st.stages@[j].name@;
                                        assert(names_of(started@)[y] == names_of(prev)[y]);
                                    }
                                } else {
                                    if before.stages@[j] == old(st).stages@[j] {
                                    } else {
                                        assert(before.stages@[j].record.status
                                            == StageStatus::RUNNING);
                                    }
                                }
                            }
                        }
                    } else {
                        proof {
                            // not PENDING any more: this run already started it
                            assert(!(st.stages@[i as int] == old(st).stages@[i as int]));
                            assert(names_of(started@).contains(rl[k as int]));
                        }
                    }
                },
                None => {},
            }
        }
        k = k + 1;
    }
    proof {
        if old(st).cancel_requested {
            assert(rl.len() == 0);
            assert(names_of(ready@).len() == ready@.len());
        }
        if started@.len() == 0 && in_flight@.len() == 0 && concurrency > 0 && rl.len() > 0 {
            assert(names_of(ready@).len() == ready@.len());
            assert(k == ready@.len());
            assert(!names_of(in_flight@).contains(rl[0]));
            assert(names_of(started@).contains(rl[0]));
        }
        if started@.len() < free {
            assert(names_of(ready@).len() == ready@.len());
        }
    }
    started
}

/// Runs with the same stages, graph, order and cancellation flag agree on readiness.
pub proof fn lemma_ready_congruent(
    dag: Dag,
    a: RunState,
    b: RunState,
    present: Seq<Seq<char>>,
    order: Seq<Seq<char>>,
)
    requires
        a.stages@ == b.stages@,
        a.dag_edges@ == b.dag_edges@,
    ensures
        ready_in(dag, a, present, order) == ready_in(dag, b, present, order),
    decreases order.len(),
{
    if order.len() > 0 {
        lemma_ready_congruent(dag, a, b, present, order.drop_last());
        let n = order.last();
        assert(stage_deps(dag, a, n) == stage_deps(dag, b, n));
        assert(rec_of(a, n) == rec_of(b, n));
        assert forall|d: Seq<char>| #[trigger] rec_of(a, d) == rec_of(b, d) by {}
        assert(stage_is_ready(dag, a, present, n) == stage_is_ready(dag, b, present, n));
    }
}

/// One pass of the supervisory loop of a run, given the stages whose tasks are
/// in flight, the output paths that exist, the time, and the number of stage
/// permits. In order: expand the graph if the video plan just succeeded (and
/// do nothing else); stamp the heartbeat and fail stuck stages; a requested
/// cancellation makes the run CANCELLED and starts nothing; a FAILED stage makes
/// the run FAILED and starts nothing; otherwise ready stages start while permits
/// are free. With nothing in flight and nothing started the run finishes:
/// CANCELLED if cancelled, FAILED if a stage failed or PENDING stages remain
/// that can never become ready, SUCCEEDED otherwise.
pub fn supervise_tick(
    st: &mut RunState,
    dag: &Dag,
    in_flight: &Vec<String>,
    present: &Vec<String>,
    now: u64,
    concurrency: usize,
) -> (a: TickAction)
    requires
        wf(*old(st)),
        concurrency > 0,
    ensures
        wf(*final(st)),
        same_names(*final(st), *old(st)),
        final(st).topo_order == old(st).topo_order,
        final(st).dag_edges == old(st).dag_edges,
        final(st).cancel_requested == old(st).cancel_requested,
        (a is ExpandShots) == needs_expansion(*old(st)),
        a is ExpandShots ==> *final(st) == *old(st),
        !(a is ExpandShots) ==> final(st).last_heartbeat_at == Some(now),
        !(a is ExpandShots) && old(st).cancel_requested ==> final(st).status
            == RunStatus::CANCELLED && !(a is Start),
        a matches TickAction::Start(v) ==> v@.len() > 0 && v@.len() + in_flight@.len()
            <= concurrency && final(st).status == RunStatus::RUNNING,
        a matches TickAction::Start(v) ==> forall|k: int|
            0 <= k < v@.len() ==> stage_is_ready(
                *dag,
                *old(st),
                names_of(present@),
                #[trigger] v@[k]@,
            ) && !names_of(in_flight@).contains(v@[k]@),
        a matches TickAction::Start(v) ==> forall|i: int|
            0 <= i < old(st).stages@.len() ==> #[trigger] kept_or_started(
                *old(st),
                *final(st),
                names_of(v@),
                i,
            ),
        !(a is Start) ==> forall|i: int|
            0 <= i < old(st).stages@.len() ==> (#[trigger] final(st).stages@[i]).record.status
                != StageStatus::RUNNING || old(st).stages@[i].record.status
                == StageStatus::RUNNING,
        a matches TickAction::Finish(s) ==> in_flight@.len() == 0 && final(st).status == s,
        a == TickAction::Finish(RunStatus::SUCCEEDED) ==> !old(st).cancel_requested
            && !has_pending_stage(*final(st)) && !has_failed_stage(*final(st)),
        a == TickAction::Finish(RunStatus::FAILED) ==> !old(st).cancel_requested && (
        has_failed_stage(*final(st)) || ready_list(
            *dag,
            *final(st),
            names_of(present@),
            usize::MAX as int,
        ).len() == 0),
        a is Wait ==> in_flight@.len() > 0,
        a matches TickAction::Finish(s) ==> (s == RunStatus::SUCCEEDED || s == RunStatus::FAILED
            || s == RunStatus::CANCELLED) && (s == RunStatus::CANCELLED <==> old(
            st,
        ).cancel_requested),
        a is Start ==> !has_failed_stage(*final(st)) && !old(st).cancel_requested,
        has_failed_stage(*old(st)) || some_stuck(*old(st), now) ==> !(a is Start),
        a is Wait ==> final(st).status == (if old(st).cancel_requested {
            RunStatus::CANCELLED
        } else if has_failed_stage(*final(st)) {
            RunStatus::FAILED
        } else {
            old(st).status
        }),
        !needs_expansion(*old(st)) && !old(st).cancel_requested && !has_failed_stage(*old(st))
            && !some_stuck(*old(st), now) && in_flight@.len() < concurrency && (exists|k: int|
            0 <= k < ready_list(*dag, *old(st), names_of(present@), usize::MAX as int).len()
                && !names_of(in_flight@).contains(
                #[trigger] ready_list(*dag, *old(st), names_of(present@), usize::MAX as int)[k],
            )) ==> a is Start,
{
    if expansion_needed(st) {
        return TickAction::ExpandShots;
    }
    let ghost st0 = *st;
    let _stuck = heartbeat_pass(st, now);
    proof {
        lemma_same_names_wf(st0, *st);
    }
    if st.cancel_requested {
        st.status = RunStatus::CANCELLED;
    }
    let failed = any_failed(st);
    if failed && !st.cancel_requested {
        st.status = RunStatus::FAILED;
    }
    let ghost st1 = *st;
    proof {
        if has_failed_stage(st0) {
            let i = choose|i: int|
                0 <= i < st0.stages@.len() && st0.stages@[i].record.status == StageStatus::FAILED;
            assert(!is_stuck(st0.stages@[i].record, Some(now), now, stuck_timeout(st0)));
            assert(st1.stages@[i] == st0.stages@[i]);
        }
        if some_stuck(st0, now) {
            let i = choose|i: int|
                0 <= i < st0.stages@.len() && is_stuck(
                    #[trigger] st0.stages@[i].record,
                    Some(now),
                    now,
                    stuck_timeout(st0),
                );
            assert(st1.stages@[i].record.status == StageStatus::FAILED);
        }
    }
    let mut started: Vec<String> = Vec::new();
    if !failed {
        proof {
            assert forall|i: int| 0 <= i < st0.stages@.len() implies st1.stages@[i] == st0.stages@[i] by {
                if is_stuck(st0.stages@[i].record, Some(now), now, stuck_timeout(st0)) {
                    assert(st1.stages@[i].record.status == StageStatus::FAILED);
                }
            }
            assert(st1.stages@ =~= st0.stages@);
            lemma_ready_congruent(*dag, st0, st1, names_of(present@), names_of(st0.topo_order@));
        }
        started = start_ready(st, dag, in_flight, present, now, concurrency);
    }
    let ghost st_s = *st;
    proof {
        if !failed {
            assert(ready_list(*dag, st1, names_of(present@), usize::MAX as int) == ready_list(
                *dag,
                st0,
                names_of(present@),
                usize::MAX as int,
            ));
        }
    }
    if started.len() > 0 {
        st.status = RunStatus::RUNNING;
        proof {
            assert forall|i: int| 0 <= i < st.stages@.len() implies st.stages@[i].record.status
                != StageStatus::FAILED by {
                assert(kept_or_started(st1, st_s, names_of(started@), i));
                assert(st.stages@[i] == st_s.stages@[i]);
                if st_s.stages@[i] == st1.stages@[i] {
                    assert(!has_failed_stage(st1));
                }
            }
            assert forall|k: int| 0 <= k < started@.len() implies stage_is_ready(
                *dag,
                st0,
                names_of(present@),
                #[trigger] started@[k]@,
            ) by {
                let n = started@[k]@;
                assert(stage_is_ready(*dag, st1, names_of(present@), n));
                assert(stage_deps(*dag, st0, n) == stage_deps(*dag, st1, n));
                assert forall|d: Seq<char>| #[trigger] rec_of(st0, d) == rec_of(st1, d) by {}
            }
            assert forall|i: int| 0 <= i < st0.stages@.len() implies #[trigger] kept_or_started(
                st0,
                *st,
                names_of(started@),
                i,
            ) by {
                assert(kept_or_started(st1, st_s, names_of(started@), i));
                assert(st.stages@[i] == st_s.stages@[i]);
            }
        }
        return TickAction::Start(started);
    }
    proof {
        if !failed {
            assert(st.stages@ =~= st1.stages@) by {
                assert forall|i: int| 0 <= i < st1.stages@.len() implies st.stages@[i] == st1.stages@[i] by {
                    assert(kept_or_started(st1, *st, names_of(started@), i));
                }
            }
            lemma_ready_congruent(*dag, st1, *st, names_of(present@), names_of(st1.topo_order@));
        }
    }
    if in_flight.len() > 0 {
        return TickAction::Wait;
    }
    if st.cancel_requested {
        return TickAction::Finish(RunStatus::CANCELLED);
    }
    if failed {
        st.status = RunStatus::FAILED;
        return TickAction::Finish(RunStatus::FAILED);
    }
    if any_pending(st) {
        st.status = RunStatus::FAILED;
        proof {
            lemma_ready_congruent(*dag, st1, *st, names_of(present@), names_of(st1.topo_order@));
        }
        return TickAction::Finish(RunStatus::FAILED);
    }
    st.status = RunStatus::SUCCEEDED;
    TickAction::Finish(RunStatus::SUCCEEDED)
}

/// Names of the stages that are RUNNING.
pub open spec fn running_set(st: RunState) -> Set<Seq<char>> {
    Set::new(
        |n: Seq<char>|
            exists|i: int|
                0 <= i < st.stages@.len() && st.stages@[i].name@ == n && st.stages@[i].record.status
                    == StageStatus::RUNNING,
    )
}

/// Per-run concurrency: if the stages RUNNING before a tick are those in
/// flight, then after it at most `concurrency` stages are RUNNING, and each is
/// in flight or was just started.
pub proof fn lemma_stage_concurrency_bound(
    old: RunState,
    new: RunState,
    started: Seq<Seq<char>>,
    in_flight: Seq<Seq<char>>,
    concurrency: int,
)
    requires
        same_names(new, old),
        forall|i: int| 0 <= i < old.stages@.len() ==> #[trigger] kept_or_started(old, new, started, i),
        forall|i: int|
            0 <= i < old.stages@.len() && old.stages@[i].record.status == StageStatus::RUNNING
                ==> in_flight.contains(#[trigger] old.stages@[i].name@),
        started.len() + in_flight.len() <= concurrency,
    ensures
        forall|n: Seq<char>|
            #[trigger] running_set(new).contains(n) ==> in_flight.contains(n) || started.contains(n),
        running_set(new).finite(),
        running_set(new).len() <= concurrency,
{
    let u = in_flight.to_set().union(started.to_set());
    assert forall|n: Seq<char>| #[trigger] running_set(new).contains(n) implies in_flight.contains(n)
        || started.contains(n) by {
        let i = choose|i: int|
            0 <= i < new.stages@.len() && new.stages@[i].name@ == n && new.stages@[i].record.status
                == StageStatus::RUNNING;
        assert(kept_or_started(old, new, started, i));
        assert(new.stages@[i].name == old.stages@[i].name);
        if new.stages@[i] == old.stages@[i] {
            assert(in_flight.contains(old.stages@[i].name@));
        }
    }
    assert(running_set(new).subset_of(u));
    in_flight.lemma_cardinality_of_set();
    started.lemma_cardinality_of_set();
    vstd::set_lib::lemma_len_union(in_flight.to_set(), started.to_set());
    vstd::set_lib::lemma_len_subset(running_set(new), u);
}

/// Writes a finished stage task's record back; a FAILED record makes the run
/// FAILED.
pub fn complete_stage(st: &mut RunState, name: &str, rec: StageRecord, now: u64) -> (found: bool)
    requires
        wf(*old(st)),
    ensures
        wf(*final(st)),
        same_names(*final(st), *old(st)),
        found == has_stage(*old(st), name@),
        found ==> rec_of(*final(st), name@) == Some(rec),
        forall|i: int|
            0 <= i < old(st).stages@.len() && old(st).stages@[i].name@ != name@
                ==> #[trigger] final(st).stages@[i] == old(st).stages@[i],
        found && rec.status == StageStatus::FAILED ==> final(st).status == RunStatus::FAILED,
        !(found && rec.status == StageStatus::FAILED) ==> final(st).status == old(st).status,
        final(st).cancel_requested == old(st).cancel_requested,
        final(st).topo_order == old(st).topo_order,
        final(st).dag_edges == old(st).dag_edges,
{
    match find_stage(st, name) {
        Some(i) => {
            let failed = rec.status == StageStatus::FAILED;
            let ghost before = *st;
            st.stages[i].record = rec;
            st.updated_at = now;
            st.last_heartbeat_at = Some(now);
            if failed {
                st.status = RunStatus::FAILED;
            }
            proof {
                assert(same_names(*st, before));
                lemma_same_names_wf(before, *st);
                crate::run_state::lemma_rec_at(*st, i as int);
            }
            true
        },
        None => false,
    }
}

/// Every stage is SUCCEEDED or SKIPPED.
pub open spec fn all_stages_ok(st: RunState) -> bool {
    forall|i: int|
        0 <= i < st.stages@.len() ==> #[trigger] st.stages@[i].record.status == StageStatus::SUCCEEDED
            || st.stages@[i].record.status == StageStatus::SKIPPED
}

/// Status settled at loop exit, once nothing is in flight.
pub open spec fn final_status(st: RunState) -> RunStatus {
    if st.status == RunStatus::SUCCEEDED || st.status == RunStatus::FAILED {
        st.status
    } else if st.cancel_requested {
        RunStatus::CANCELLED
    } else if has_failed_stage(st) {
        RunStatus::FAILED
    } else if all_stages_ok(st) {
        RunStatus::SUCCEEDED
    } else {
        st.status
    }
}

/// Settles the run status at loop exit: a requested cancellation gives
/// CANCELLED, a FAILED stage gives FAILED, all stages SUCCEEDED or SKIPPED give
/// SUCCEEDED. A status already SUCCEEDED or FAILED is kept.
pub fn finalize_status(st: &mut RunState, now: u64)
    ensures
        final(st).status == final_status(*old(st)),
        final(st).stages == old(st).stages,
        final(st).cancel_requested == old(st).cancel_requested,
{
    if st.status == RunStatus::SUCCEEDED || st.status == RunStatus::FAILED {
        return;
    }
    let failed = any_failed(st);
    let mut ok = true;
    let mut i: usize = 0;
    while i < st.stages.len()
        invariant
            i <= st.stages@.len(),
            ok == forall|k: int|
                0 <= k < i ==> #[trigger] st.stages@[k].record.status == StageStatus::SUCCEEDED
                    || st.stages@[k].record.status == StageStatus::SKIPPED,
        decreases st.stages@.len() - i,
    {
        let s = st.stages[i].record.status;
        if !(s == StageStatus::SUCCEEDED || s == StageStatus::SKIPPED) {
            ok = false;
        }
        i = i + 1;
    }
    if st.cancel_requested {
        st.status = RunStatus::CANCELLED;
    } else if failed {
        st.status = RunStatus::FAILED;
    } else if ok {
        st.status = RunStatus::SUCCEEDED;
    }
    st.updated_at = now;
    st.last_heartbeat_at = Some(now);
}

/// The stage names of the built-in template, in declaration order, which is a
/// topological order of it.
pub open spec fn template_names() -> Seq<Seq<char>> {
    seq!["lyrics"@, "music"@, "vocals"@, "video_plan"@, "video_assemble"@, "render"@]
}

/// A record that has never run: PENDING, no retries, times, exit code, error,
/// command or outputs, and the default stage timeout of 1800 seconds.
pub open spec fn fresh_record(r: StageRecord) -> bool {
    &&& r.status == StageStatus::PENDING
    &&& r.retries == 0
    &&& r.started_at is None && r.ended_at is None && r.last_heartbeat_at is None
    &&& r.exit_code is None && r.error is None && r.command is None
    &&& r.timeout_seconds == Some(1800u64)
    &&& r.outputs@.len() == 0
}

/// One fresh record per stage of the built-in template, in its topological
/// (declaration) order.
pub fn init_stage_records() -> (r: Vec<StageEntry>)
    ensures
        stage_names_of(r@) == template_names(),
        exists|d: Dag| is_cssmv_dag(d) && is_topo_order(d, stage_names_of(r@)),
        r@.len() == 6,
        forall|i: int| 0 <= i < r@.len() ==> fresh_record(#[trigger] r@[i].record),
{
    let dag = cssmv_dag_v1();
    let mut out: Vec<StageEntry> = Vec::new();
    let mut i: usize = 0;
    while i < dag.nodes.len()
        invariant
            is_cssmv_dag(dag),
            i <= dag.nodes@.len(),
            out@.len() == i,
            forall|k: int| 0 <= k < i ==> (#[trigger] out@[k]).name@ == dag.nodes@[k].name@,
            forall|k: int| 0 <= k < i ==> fresh_record(#[trigger] out@[k].record),
        decreases dag.nodes@.len() - i,
    {
        out.push(StageEntry { name: dag.nodes[i].name.clone(), record: pending_record(Vec::new(), Some(1800)) });
        i = i + 1;
    }
    proof {
        lemma_cssmv_dag_valid(dag);
        let s = seq![0int, 1, 2, 3, 4, 5];
        assert(stage_names_of(out@) =~= template_names());
        assert(stage_names_of(out@) =~= s.map_values(|i: int| dag.nodes@[i].name@));
        assert(is_topo_order(dag, stage_names_of(out@)));
    }
    out
}

/// A new run over the built-in template: INIT, every stage PENDING, stages and
/// topological order from the template, retried 3 times with a 2 s backoff base,
/// stage timeout 1800 s, stuck timeout 120 s, heartbeat every 2 s.
pub fn init_run_state(run_id: String, ui_lang: String, tier: String, cssl: String, now: u64) -> (st:
    RunState)
    ensures
        wf(st),
        st.run_id == run_id && st.tier == tier && st.ui_lang == ui_lang && st.cssl == cssl,
        st.status == RunStatus::INIT,
        !st.cancel_requested,
        st.created_at == now && st.updated_at == now,
        st.stages@.len() == 6,
        names_of(st.topo_order@) == stage_names_of(st.stages@),
        exists|d: Dag| is_cssmv_dag(d) && is_topo_order(d, names_of(st.topo_order@)),
        is_cssmv_dag(Dag { nodes: st.dag_edges }),
        forall|i: int|
            0 <= i < st.stages@.len() ==> (#[trigger] st.stages@[i]).record.status
                == StageStatus::PENDING,
        st.retry_policy.max_retries == 3 && st.retry_policy.backoff_base_seconds == 2,
        st.config.stage_timeout_seconds == 1800 && st.config.stuck_timeout_seconds == 120,
        st.stuck_timeout_seconds == Some(120u64),
        st.video_shots_total is None,
        st.artifacts.entries@.len() == 0,
        stage_names_of(st.stages@) == template_names(),
        names_of(st.topo_order@) == template_names(),
        forall|i: int| 0 <= i < st.stages@.len() ==> fresh_record(#[trigger] st.stages@[i].record),
        st.last_heartbeat_at is None,
{
    let stages = init_stage_records();
    let mut topo: Vec<String> = Vec::new();
    let mut i: usize = 0;
    while i < stages.len()
        invariant
            i <= stages@.len(),
            names_of(topo@) == stage_names_of(stages@).take(i as int),
        decreases stages@.len() - i,
    {
        let ghost prev = topo@;
        topo.push(stages[i].name.clone());
        proof {
            crate::dag::lemma_names_push(prev, stages@[i as int].name);
            assert(stage_names_of(stages@).take(i + 1) =~= stage_names_of(stages@).take(i as int).push(
                stages@[i as int].name@,
            ));
        }
        i = i + 1;
    }
    proof {
        assert(stage_names_of(stages@).take(stages@.len() as int) =~= stage_names_of(stages@));
        let d = choose|d: Dag| is_cssmv_dag(d) && is_topo_order(d, stage_names_of(stages@));
        lemma_cssmv_dag_valid(d);
        crate::dag::lemma_topo_order_is_permutation(d, stage_names_of(stages@));
    }
    let dag = cssmv_dag_v1();
    let st = RunState {
        schema: String::from_str("css.pipeline.run.v1"),
        run_id,
        created_at: now,
        updated_at: now,
        status: RunStatus::INIT,
        last_heartbeat_at: None,
        stuck_timeout_seconds: Some(120),
        cancel_requested: false,
        ui_lang,
        tier,
        cssl,
        config: crate::run_state::RunConfig {
            out_dir: String::from_str("./build"),
            wiki_enabled: true,
            civ_linked: true,
            heartbeat_interval_seconds: 2,
            stage_timeout_seconds: 1800,
            stuck_timeout_seconds: 120,
        },
        retry_policy: crate::run_state::RetryPolicy {
            max_retries: 3,
            backoff_base_seconds: 2,
            strategy: String::from_str("exponential"),
        },
        dag: crate::run_state::DagMeta { schema: String::from_str("css.pipeline.dag.v1") },
        topo_order: topo,
        dag_edges: dag.nodes,
        stages,
        artifacts: crate::artifacts::Artifacts::new(),
        video_shots_total: None,
    };
    proof {
        assert forall|a: int, b: int|
            0 <= a < st.stages@.len() && 0 <= b < st.stages@.len() && a != b implies st.stages@[a].name@
                != st.stages@[b].name@ by {
            assert(stage_names_of(st.stages@)[a] == st.stages@[a].name@);
            assert(stage_names_of(st.stages@)[b] == st.stages@[b].name@);
        }
    }
    st
}

/// Next step of the one-stage-at-a-time runner.
#[derive(Debug, Clone, PartialEq, Eq)]
pub enum SequentialAction {
    /// The stage's declared outputs exist: mark it SKIPPED without running it.
    Skip(String),
    /// Run the stage now.
    Execute(String),
    /// The stage's dependencies are not satisfied: the stage and the run fail.
    Blocked(String),
    /// No stage in the order is PENDING.
    Done,
}

/// The kind of a sequential step, without its stage.
#[derive(Debug, Clone, Copy, PartialEq, Eq, Structural)]
pub enum StepKind {
    Skip,
    Execute,
    Blocked,
    Done,
}

impl SequentialAction {
    /// The kind of this step and its stage name (empty for `Done`).
    pub open spec fn view_step(&self) -> (StepKind, Seq<char>) {
        match self {
            SequentialAction::Skip(n) => (StepKind::Skip, n@),
            SequentialAction::Execute(n) => (StepKind::Execute, n@),
            SequentialAction::Blocked(n) => (StepKind::Blocked, n@),
            SequentialAction::Done => (StepKind::Done, Seq::empty()),
        }
    }
}

/// Position in `order` of the first stage that is PENDING, if any.
pub open spec fn first_pending_from(st: RunState, order: Seq<Seq<char>>, i: int) -> Option<int>
    decreases order.len() - i,
{
    if i >= order.len() {
        None
    } else if status_of(st, order[i]) == Some(StageStatus::PENDING) {
        Some(i)
    } else {
        first_pending_from(st, order, i + 1)
    }
}

/// The sequential runner's rule: take the first PENDING stage in topological
/// order; skip it if its declared outputs all exist, run it if its dependencies
/// are satisfied, else it is blocked.
pub open spec fn sequential_spec(dag: Dag, st: RunState, present: Seq<Seq<char>>) -> (
    StepKind,
    Seq<char>,
) {
    match first_pending_from(st, names_of(st.topo_order@), 0) {
        None => (StepKind::Done, Seq::empty()),
        Some(i) => {
            let n = names_of(st.topo_order@)[i];
            let r = rec_of(st, n)->Some_0;
            if crate::retry::done_by_outputs(names_of(r.outputs@), present) {
                (StepKind::Skip, n)
            } else if crate::ready::deps_satisfied(dag, st, present, n) {
                (StepKind::Execute, n)
            } else {
                (StepKind::Blocked, n)
            }
        },
    }
}

/// Decides the next step of the sequential runner.
pub fn next_sequential_stage(st: &RunState, dag: &Dag, present: &Vec<String>) -> (a: SequentialAction)
    requires
        wf(*st),
    ensures
        a.view_step() == sequential_spec(*dag, *st, names_of(present@)),
{
    let ghost order = names_of(st.topo_order@);
    let mut i: usize = 0;
    while i < st.topo_order.len()
        invariant
            wf(*st),
            order == names_of(st.topo_order@),
            i <= st.topo_order@.len(),
            first_pending_from(*st, order, 0) == first_pending_from(*st, order, i as int),
        decreases st.topo_order@.len() - i,
    {
        let name = &st.topo_order[i];
        assert(order[i as int] == name@);
        match find_stage(st, name.as_str()) {
            Some(idx) => {
                if st.stages[idx].record.status == StageStatus::PENDING {
                    let rec = &st.stages[idx].record;
                    if crate::retry::stage_done_by_outputs(&rec.outputs, present) {
                        return SequentialAction::Skip(name.clone());
                    }
                    if crate::ready::stage_deps_satisfied(dag, st, name.as_str(), present) {
                        return SequentialAction::Execute(name.clone());
                    }
                    return SequentialAction::Blocked(name.clone());
                }
            },
            None => {},
        }
        i = i + 1;
    }
    SequentialAction::Done
}

/// Stage names among `s` that start with `video_shot_`, in order.
pub open spec fn prefixed_shot_names(s: Seq<StageEntry>) -> Seq<Seq<char>>
    decreases s.len(),
{
    if s.len() == 0 {
        Seq::empty()
    } else {
        let rest = prefixed_shot_names(s.drop_last());
        if crate::dag::is_prefix_of("video_shot_"@, s.last().name@) {
            rest.push(s.last().name@)
        } else {
            rest
        }
    }
}

/// The order of a run built from its stage names: lyrics, music, vocals and
/// the video plan, then its `video_shot_*` stages by name, then assembly and
/// render.
pub fn topo_order_v1(st: &RunState) -> (r: Vec<String>)
    ensures
        r@.len() >= 6,
        names_of(r@).take(4) == seq!["lyrics"@, "music"@, "vocals"@, "video_plan"@],
        names_of(r@).skip(r@.len() - 2) == seq!["video_assemble"@, "render"@],
        crate::sorting::sorted_names(names_of(r@).subrange(4, r@.len() - 2)),
        names_of(r@).subrange(4, r@.len() - 2).to_multiset() == prefixed_shot_names(
            st.stages@,
        ).to_multiset(),
{
    let mut shots: Vec<String> = Vec::new();
    let mut i: usize = 0;
    while i < st.stages.len()
        invariant
            i <= st.stages@.len(),
            names_of(shots@) == prefixed_shot_names(st.stages@.take(i as int)),
        decreases st.stages@.len() - i,
    {
        proof {
            assert(st.stages@.take(i + 1).drop_last() =~= st.stages@.take(i as int));
        }
        if crate::dag::starts_with(st.stages[i].name.as_str(), "video_shot_") {
            let ghost prev = shots@;
            shots.push(st.stages[i].name.clone());
            proof {
                crate::dag::lemma_names_push(prev, st.stages@[i as int].name);
            }
        }
        i = i + 1;
    }
    proof {
        assert(st.stages@.take(st.stages@.len() as int) =~= st.stages@);
    }
    let sorted = crate::sorting::sort_names(shots);
    let mut out: Vec<String> = vec![
        String::from_str("lyrics"),
        String::from_str("music"),
        String::from_str("vocals"),
        String::from_str("video_plan"),
    ];
    let mut k: usize = 0;
    while k < sorted.len()
        invariant
            k <= sorted@.len(),
            out@.len() == 4 + k,
            names_of(out@).take(4) == seq!["lyrics"@, "music"@, "vocals"@, "video_plan"@],
            names_of(out@).skip(4) == names_of(sorted@).take(k as int),
        decreases sorted@.len() - k,
    {
        let ghost prev = out@;
        out.push(sorted[k].clone());
        proof {
            crate::dag::lemma_names_push(prev, sorted@[k as int]);
            assert(names_of(out@).take(4) =~= names_of(prev).take(4));
            assert(names_of(out@).skip(4) =~= names_of(sorted@).take(k + 1));
        }
        k = k + 1;
    }
    let ghost mid = out@;
    out.push(String::from_str("video_assemble"));
    out.push(String::from_str("render"));
    proof {
        let n = out@.len() as int;
        assert(names_of(out@).take(4) =~= names_of(mid).take(4));
        assert(names_of(out@).skip(n - 2) =~= seq!["video_assemble"@, "render"@]);
        assert(names_of(sorted@).take(sorted@.len() as int) =~= names_of(sorted@));
        assert(names_of(mid).skip(4) == names_of(sorted@));
        assert(names_of(out@).subrange(4, n - 2) =~= names_of(mid).skip(4));
    }
    out
}

} // verus!
