use crate::dag::{cssmv_dag_v1, is_cssmv_dag, is_prefix_of, lemma_names_push, names_of, starts_with, Dag, DagNode};
use crate::run_state::{
    find_stage, has_stage, is_done_ok, rec_of, status_of, str_eq, wf, RunState, StageEntry,
    StageRecord, StageStatus,
};
use vstd::prelude::*;

verus! {

/// Stage counts of a run, by status, over its topological order.
#[derive(Debug, Clone, Default)]
pub struct ReadySummary {
    pub total: usize,
    pub pending: usize,
    pub running: usize,
    pub succeeded: usize,
    pub failed: usize,
    pub skipped: usize,
}

/// What can start now, what is running, and the counts.
#[derive(Debug, Clone)]
pub struct ReadyView {
    pub topo_order: Vec<String>,
    pub ready: Vec<String>,
    pub running: Vec<String>,
    pub summary: ReadySummary,
}

/// A dynamically inserted video shot stage.
pub open spec fn is_shot_name(n: Seq<char>) -> bool {
    is_prefix_of("video_shot_"@, n) || is_prefix_of("video.shot:"@, n)
}

/// The shot stage names among `s`, in order.
pub open spec fn shot_names(s: Seq<StageEntry>) -> Seq<Seq<char>>
    decreases s.len(),
{
    if s.len() == 0 {
        Seq::empty()
    } else {
        let rest = shot_names(s.drop_last());
        if is_shot_name(s.last().name@) {
            rest.push(s.last().name@)
        } else {
            rest
        }
    }
}

/// The dependency names of the first node called `name`, if any.
pub open spec fn first_deps(nodes: Seq<DagNode>, name: Seq<char>) -> Option<Seq<Seq<char>>>
    decreases nodes.len(),
{
    if nodes.len() == 0 {
        None
    } else if nodes[0].name@ == name {
        Some(names_of(nodes[0].deps@))
    } else {
        first_deps(nodes.drop_first(), name)
    }
}

/// The stages that stage `name` waits for. Shots wait for the video plan; the
/// assembly waits for every shot (or for the plan before shots exist); any other
/// stage waits for its edges in the run, else for its template node's deps.
pub open spec fn stage_deps(dag: Dag, st: RunState, name: Seq<char>) -> Seq<Seq<char>> {
    if is_shot_name(name) {
        seq!["video_plan"@]
    } else if name == "video_assemble"@ {
        if shot_names(st.stages@).len() > 0 {
            shot_names(st.stages@)
        } else {
            seq!["video_plan"@]
        }
    } else {
        match first_deps(st.dag_edges@, name) {
            Some(d) => d,
            None => match first_deps(dag.nodes@, name) {
                Some(d) => d,
                None => Seq::empty(),
            },
        }
    }
}

/// Every declared output of `r` is among the paths known to exist.
pub open spec fn outputs_present(r: StageRecord, present: Seq<Seq<char>>) -> bool {
    forall|k: int| 0 <= k < r.outputs@.len() ==> present.contains(#[trigger] r.outputs@[k]@)
}

/// Dependency `d` is finished (SUCCEEDED or SKIPPED) and its outputs exist.
pub open spec fn dep_satisfied(st: RunState, present: Seq<Seq<char>>, d: Seq<char>) -> bool {
    match rec_of(st, d) {
        Some(r) => is_done_ok(r.status) && outputs_present(r, present),
        None => false,
    }
}

/// Every dependency of stage `name` is satisfied.
pub open spec fn deps_satisfied(
    dag: Dag,
    st: RunState,
    present: Seq<Seq<char>>,
    name: Seq<char>,
) -> bool {
    forall|k: int|
        0 <= k < stage_deps(dag, st, name).len() ==> dep_satisfied(
            st,
            present,
            #[trigger] stage_deps(dag, st, name)[k],
        )
}

/// Stage `name` is PENDING and all its dependencies are satisfied.
pub open spec fn stage_is_ready(
    dag: Dag,
    st: RunState,
    present: Seq<Seq<char>>,
    name: Seq<char>,
) -> bool {
    status_of(st, name) == Some(StageStatus::PENDING) && deps_satisfied(dag, st, present, name)
}

/// The ready stages among `order`, in order.
pub open spec fn ready_in(
    dag: Dag,
    st: RunState,
    present: Seq<Seq<char>>,
    order: Seq<Seq<char>>,
) -> Seq<Seq<char>>
    decreases order.len(),
{
    if order.len() == 0 {
        Seq::empty()
    } else {
        let rest = ready_in(dag, st, present, order.drop_last());
        if stage_is_ready(dag, st, present, order.last()) {
            rest.push(order.last())
        } else {
            rest
        }
    }
}

/// The stages among `order` whose status is `s`, in order.
pub open spec fn with_status(st: RunState, order: Seq<Seq<char>>, s: StageStatus) -> Seq<
    Seq<char>,
>
    decreases order.len(),
{
    if order.len() == 0 {
        Seq::empty()
    } else {
        let rest = with_status(st, order.drop_last(), s);
        if status_of(st, order.last()) == Some(s) {
            rest.push(order.last())
        } else {
            rest
        }
    }
}

/// The first `limit` entries of `s` (all of them if fewer).
pub open spec fn first_n(s: Seq<Seq<char>>, limit: int) -> Seq<Seq<char>> {
    if s.len() <= limit {
        s
    } else {
        s.take(limit)
    }
}

/// The ready list of a view: empty once cancellation is requested, else the
/// first `limit` ready stages in topological order.
pub open spec fn ready_list(
    dag: Dag,
    st: RunState,
    present: Seq<Seq<char>>,
    limit: int,
) -> Seq<Seq<char>> {
    if st.cancel_requested {
        Seq::empty()
    } else {
        first_n(ready_in(dag, st, present, names_of(st.topo_order@)), limit)
    }
}

/// Whether `stage` is a dynamically inserted shot stage.
pub fn is_video_shot_stage(stage: &str) -> (r: bool)
    ensures
        r == is_shot_name(stage@),
{
    starts_with(stage, "video_shot_") || starts_with(stage, "video.shot:")
}

/// The shot stage names of the run, in storage order.
pub fn shot_stage_names(st: &RunState) -> (r: Vec<String>)
    ensures
        names_of(r@) == shot_names(st.stages@),
{
    let mut out: Vec<String> = Vec::new();
    let mut i: usize = 0;
    while i < st.stages.len()
        invariant
            i <= st.stages@.len(),
            names_of(out@) == shot_names(st.stages@.take(i as int)),
        decreases st.stages@.len() - i,
    {
        proof {
            assert(st.stages@.take(i + 1).drop_last() =~= st.stages@.take(i as int));
        }
        if is_video_shot_stage(st.stages[i].name.as_str()) {
            let ghost prev = out@;
            out.push(st.stages[i].name.clone());
            proof {
                lemma_names_push(prev, st.stages@[i as int].name);
            }
        }
        i = i + 1;
    }
    assert(st.stages@.take(st.stages@.len() as int) =~= st.stages@);
    out
}

/// Copies a list of strings.
pub fn clone_names(v: &Vec<String>) -> (r: Vec<String>)
    ensures
        names_of(r@) == names_of(v@),
{
    let mut out: Vec<String> = Vec::new();
    let mut i: usize = 0;
    while i < v.len()
        invariant
            i <= v@.len(),
            names_of(out@) == names_of(v@.take(i as int)),
        decreases v@.len() - i,
    {
        let ghost prev = out@;
        out.push(v[i].clone());
        proof {
            lemma_names_push(prev, v@[i as int]);
            assert(v@.take(i + 1) =~= v@.take(i as int).push(v@[i as int]));
            lemma_names_push(v@.take(i as int), v@[i as int]);
        }
        i = i + 1;
    }
    assert(v@.take(v@.len() as int) =~= v@);
    out
}

/// The dependency names of the first node in `nodes` called `name`.
pub fn first_deps_of(nodes: &Vec<DagNode>, name: &str) -> (r: Option<Vec<String>>)
    ensures
        match r {
            Some(d) => first_deps(nodes@, name@) == Some(names_of(d@)),
            None => first_deps(nodes@, name@) is None,
        },
{
    let mut i: usize = 0;
    assert(nodes@.skip(0) =~= nodes@);
    while i < nodes.len()
        invariant
            i <= nodes@.len(),
            first_deps(nodes@, name@) == first_deps(nodes@.skip(i as int), name@),
        decreases nodes@.len() - i,
    {
        assert(nodes@.skip(i as int)[0] == nodes@[i as int]);
        if str_eq(nodes[i].name.as_str(), name) {
            return Some(clone_names(&nodes[i].deps));
        }
        assert(nodes@.skip(i as int).drop_first() =~= nodes@.skip(i + 1));
        i = i + 1;
    }
    None
}

fn one_name(s: &str) -> (r: Vec<String>)
    ensures
        names_of(r@) == seq![s@],
{
    let v = vec![String::from_str(s)];
    assert(names_of(v@) =~= seq![s@]);
    v
}

/// The stages that `stage` waits for in this run.
pub fn deps_for_stage(dag: &Dag, st: &RunState, stage: &str) -> (r: Vec<String>)
    ensures
        names_of(r@) == stage_deps(*dag, *st, stage@),
{
    if is_video_shot_stage(stage) {
        return one_name("video_plan");
    }
    if str_eq(stage, "video_assemble") {
        let shots = shot_stage_names(st);
        if shots.len() == 0 {
            return one_name("video_plan");
        }
        return shots;
    }
    match first_deps_of(&st.dag_edges, stage) {
        Some(d) => d,
        None => match first_deps_of(&dag.nodes, stage) {
            Some(d) => d,
            None => {
                let v: Vec<String> = Vec::new();
                assert(names_of(v@) =~= Seq::empty());
                v
            },
        },
    }
}

/// Whether every path in `outputs` is among `present`.
pub fn outputs_all_present(outputs: &Vec<String>, present: &Vec<String>) -> (r: bool)
    ensures
        r == forall|k: int|
            0 <= k < outputs@.len() ==> names_of(present@).contains(#[trigger] outputs@[k]@),
{
    let mut k: usize = 0;
    while k < outputs.len()
        invariant
            k <= outputs@.len(),
            forall|x: int|
                0 <= x < k ==> names_of(present@).contains(#[trigger] outputs@[x]@),
        decreases outputs@.len() - k,
    {
        let mut found = false;
        let mut j: usize = 0;
        while j < present.len()
            invariant
                j <= present@.len(),
                k < outputs@.len(),
                found ==> names_of(present@).contains(outputs@[k as int]@),
                !found ==> forall|y: int| 0 <= y < j ==> present@[y]@ != outputs@[k as int]@,
            decreases present@.len() - j,
        {
            if str_eq(present[j].as_str(), outputs[k].as_str()) {
                assert(names_of(present@)[j as int] == outputs@[k as int]@);
                found = true;
            }
            j = j + 1;
        }
        if !found {
            proof {
                if names_of(present@).contains(outputs@[k as int]@) {
                    let y = choose|y: int|
                        0 <= y < names_of(present@).len() && names_of(present@)[y]
                            == outputs@[k as int]@;
                    assert(present@[y]@ == outputs@[k as int]@);
                }
            }
            return false;
        }
        k = k + 1;
    }
    true
}

/// Whether dependency `d` is finished and its outputs exist.
pub fn dep_ok(st: &RunState, d: &str, present: &Vec<String>) -> (r: bool)
    requires
        wf(*st),
    ensures
        r == dep_satisfied(*st, names_of(present@), d@),
{
    match find_stage(st, d) {
        Some(i) => {
            let rec = &st.stages[i].record;
            (rec.status == StageStatus::SUCCEEDED || rec.status == StageStatus::SKIPPED)
                && outputs_all_present(&rec.outputs, present)
        },
        None => false,
    }
}

/// Whether every dependency of `stage` is finished with its outputs present.
pub fn stage_deps_satisfied(dag: &Dag, st: &RunState, stage: &str, present: &Vec<String>) -> (r:
    bool)
    requires
        wf(*st),
    ensures
        r == deps_satisfied(*dag, *st, names_of(present@), stage@),
{
    let deps = deps_for_stage(dag, st, stage);
    let mut k: usize = 0;
    while k < deps.len()
        invariant
            wf(*st),
            names_of(deps@) == stage_deps(*dag, *st, stage@),
            k <= deps@.len(),
            forall|x: int|
                0 <= x < k ==> dep_satisfied(
                    *st,
                    names_of(present@),
                    #[trigger] stage_deps(*dag, *st, stage@)[x],
                ),
        decreases deps@.len() - k,
    {
        assert(names_of(deps@)[k as int] == deps@[k as int]@);
        if !dep_ok(st, deps[k].as_str(), present) {
            return false;
        }
        k = k + 1;
    }
    true
}

/// Whether `stage` is PENDING with every dependency satisfied.
pub fn stage_ready(dag: &Dag, st: &RunState, stage: &str, present: &Vec<String>) -> (r: bool)
    requires
        wf(*st),
    ensures
        r == stage_is_ready(*dag, *st, names_of(present@), stage@),
{
    match find_stage(st, stage) {
        Some(i) => {
            if st.stages[i].record.status != StageStatus::PENDING {
                return false;
            }
            stage_deps_satisfied(dag, st, stage, present)
        },
        None => false,
    }
}

proof fn lemma_first_n_push(r: Seq<Seq<char>>, x: Seq<char>, cur: Seq<Seq<char>>, limit: int)
    requires
        cur == first_n(r, limit),
        0 <= limit,
    ensures
        cur.len() < limit ==> first_n(r.push(x), limit) == cur.push(x),
        cur.len() >= limit ==> first_n(r.push(x), limit) == cur,
{
    if cur.len() >= limit {
        if r.len() <= limit {
            assert(r.push(x).take(limit) =~= r);
        } else {
            assert(r.push(x).take(limit) =~= r.take(limit));
        }
    }
}

/// Ready view of a run: the ready stages (at most `limit`, in topological order,
/// none once cancellation is requested), the running stages, and the counts.
pub fn compute_ready_view_with_dag_limited(
    st: &RunState,
    dag: &Dag,
    limit: usize,
    present: &Vec<String>,
) -> (v: ReadyView)
    requires
        wf(*st),
    ensures
        names_of(v.topo_order@) == names_of(st.topo_order@),
        names_of(v.ready@) == ready_list(*dag, *st, names_of(present@), limit as int),
        names_of(v.running@) == with_status(
            *st,
            names_of(st.topo_order@),
            StageStatus::RUNNING,
        ),
        v.summary.total == st.topo_order@.len(),
        v.summary.pending == with_status(
            *st,
            names_of(st.topo_order@),
            StageStatus::PENDING,
        ).len(),
        v.summary.running == with_status(
            *st,
            names_of(st.topo_order@),
            StageStatus::RUNNING,
        ).len(),
        v.summary.succeeded == with_status(
            *st,
            names_of(st.topo_order@),
            StageStatus::SUCCEEDED,
        ).len(),
        v.summary.failed == with_status(
            *st,
            names_of(st.topo_order@),
            StageStatus::FAILED,
        ).len(),
        v.summary.skipped == with_status(
            *st,
            names_of(st.topo_order@),
            StageStatus::SKIPPED,
        ).len(),
{
    let ghost pres = names_of(present@);
    let ghost order = names_of(st.topo_order@);
    let mut ready: Vec<String> = Vec::new();
    let mut running: Vec<String> = Vec::new();
    let mut pending: usize = 0;
    let mut succeeded: usize = 0;
    let mut failed: usize = 0;
    let mut skipped: usize = 0;
    let n = st.topo_order.len();
    let mut i: usize = 0;
    while i < n
        invariant
            wf(*st),
            n == st.topo_order@.len(),
            order == names_of(st.topo_order@),
            pres == names_of(present@),
            i <= n,
            st.cancel_requested ==> ready@.len() == 0,
            !st.cancel_requested ==> names_of(ready@) == first_n(
                ready_in(*dag, *st, pres, order.take(i as int)),
                limit as int,
            ),
            names_of(running@) == with_status(*st, order.take(i as int), StageStatus::RUNNING),
            pending == with_status(*st, order.take(i as int), StageStatus::PENDING).len(),
            succeeded == with_status(*st, order.take(i as int), StageStatus::SUCCEEDED).len(),
            failed == with_status(*st, order.take(i as int), StageStatus::FAILED).len(),
            skipped == with_status(*st, order.take(i as int), StageStatus::SKIPPED).len(),
            running@.len() <= i && pending <= i && succeeded <= i && failed <= i && skipped <= i,
        decreases n - i,
    {
        let name = &st.topo_order[i];
        proof {
            assert(order.take(i + 1).drop_last() =~= order.take(i as int));
            assert(order.take(i + 1).last() == name@);
            if !st.cancel_requested {
                lemma_first_n_push(
                    ready_in(*dag, *st, pres, order.take(i as int)),
                    name@,
                    names_of(ready@),
                    limit as int,
                );
            }
        }
        match find_stage(st, name.as_str()) {
            None => {},
            Some(idx) => {
                let status = st.stages[idx].record.status;
                match status {
                    StageStatus::PENDING => {
                        pending = pending + 1;
                        if ready.len() < limit && !st.cancel_requested && stage_deps_satisfied(
                            dag,
                            st,
                            name.as_str(),
                            present,
                        ) {
                            let ghost prev = ready@;
                            ready.push(name.clone());
                            proof {
                                lemma_names_push(prev, *name);
                            }
                        }
                    },
                    StageStatus::RUNNING => {
                        let ghost prev = running@;
                        running.push(name.clone());
                        proof {
                            lemma_names_push(prev, *name);
                        }
                    },
                    StageStatus::SUCCEEDED => {
                        succeeded = succeeded + 1;
                    },
                    StageStatus::FAILED => {
                        failed = failed + 1;
                    },
                    StageStatus::SKIPPED => {
                        skipped = skipped + 1;
                    },
                }
            },
        }
        i = i + 1;
    }
    proof {
        assert(order.take(n as int) =~= order);
    }
    let n_running = running.len();
    ReadyView {
        topo_order: clone_names(&st.topo_order),
        ready,
        running,
        summary: ReadySummary { total: n, pending, running: n_running, succeeded, failed, skipped },
    }
}

/// Ready view over the standard template with at most 64 ready stages.
pub fn compute_ready_view(st: &RunState, present: &Vec<String>) -> (v: ReadyView)
    requires
        wf(*st),
    ensures
        exists|d: Dag|
            is_cssmv_dag(d) && names_of(v.ready@) == ready_list(d, *st, names_of(present@), 64),
        names_of(v.running@) == with_status(
            *st,
            names_of(st.topo_order@),
            StageStatus::RUNNING,
        ),
        v.summary.total == st.topo_order@.len(),
{
    compute_ready_view_limited(st, 64, present)
}

/// Ready view over the standard template with at most `limit` ready stages.
pub fn compute_ready_view_limited(st: &RunState, limit: usize, present: &Vec<String>) -> (v:
    ReadyView)
    requires
        wf(*st),
    ensures
        exists|d: Dag|
            is_cssmv_dag(d) && names_of(v.ready@) == ready_list(
                d,
                *st,
                names_of(present@),
                limit as int,
            ),
        names_of(v.running@) == with_status(
            *st,
            names_of(st.topo_order@),
            StageStatus::RUNNING,
        ),
        v.summary.total == st.topo_order@.len(),
{
    let dag = cssmv_dag_v1();
    compute_ready_view_with_dag_limited(st, &dag, limit, present)
}

/// Ready view over `dag` with at most 64 ready stages.
pub fn compute_ready_view_with_dag(st: &RunState, dag: &Dag, present: &Vec<String>) -> (v:
    ReadyView)
    requires
        wf(*st),
    ensures
        names_of(v.ready@) == ready_list(*dag, *st, names_of(present@), 64),
        names_of(v.running@) == with_status(
            *st,
            names_of(st.topo_order@),
            StageStatus::RUNNING,
        ),
        v.summary.total == st.topo_order@.len(),
{
    compute_ready_view_with_dag_limited(st, dag, 64, present)
}

/// Some stage of the run has FAILED.
pub open spec fn has_failed_stage(st: RunState) -> bool {
    exists|i: int| 0 <= i < st.stages@.len() && st.stages@[i].record.status == StageStatus::FAILED
}

/// Every stage of the run is SUCCEEDED, FAILED or SKIPPED.
pub open spec fn all_stages_done(st: RunState) -> bool {
    forall|i: int|
        0 <= i < st.stages@.len() ==> #[trigger] st.stages@[i].record.status
            != StageStatus::PENDING && st.stages@[i].record.status != StageStatus::RUNNING
}

/// Whether some stage has FAILED.
pub fn any_failed(st: &RunState) -> (r: bool)
    ensures
        r == has_failed_stage(*st),
{
    let mut i: usize = 0;
    while i < st.stages.len()
        invariant
            i <= st.stages@.len(),
            forall|k: int| 0 <= k < i ==> st.stages@[k].record.status != StageStatus::FAILED,
        decreases st.stages@.len() - i,
    {
        if st.stages[i].record.status == StageStatus::FAILED {
            return true;
        }
        i = i + 1;
    }
    false
}

/// Whether every stage is SUCCEEDED, FAILED or SKIPPED.
pub fn all_done(st: &RunState) -> (r: bool)
    ensures
        r == all_stages_done(*st),
{
    let mut i: usize = 0;
    while i < st.stages.len()
        invariant
            i <= st.stages@.len(),
            forall|k: int|
                0 <= k < i ==> #[trigger] st.stages@[k].record.status != StageStatus::PENDING
                    && st.stages@[k].record.status != StageStatus::RUNNING,
        decreases st.stages@.len() - i,
    {
        let s = st.stages[i].record.status;
        if s == StageStatus::PENDING || s == StageStatus::RUNNING {
            return false;
        }
        i = i + 1;
    }
    true
}

/// A ready stage waits on no dependency that is missing or not SUCCEEDED/SKIPPED.
pub proof fn lemma_ready_needs_finished_deps(
    dag: Dag,
    st: RunState,
    present: Seq<Seq<char>>,
    name: Seq<char>,
    d: Seq<char>,
)
    requires
        stage_is_ready(dag, st, present, name),
        stage_deps(dag, st, name).contains(d),
    ensures
        status_of(st, d) == Some(StageStatus::SUCCEEDED) || status_of(st, d) == Some(
            StageStatus::SKIPPED,
        ),
{
    let k = choose|k: int| 0 <= k < stage_deps(dag, st, name).len() && stage_deps(dag, st, name)[k] == d;
    assert(dep_satisfied(st, present, stage_deps(dag, st, name)[k]));
}

proof fn lemma_ready_in_members(
    dag: Dag,
    st: RunState,
    present: Seq<Seq<char>>,
    order: Seq<Seq<char>>,
    name: Seq<char>,
)
    requires
        ready_in(dag, st, present, order).contains(name),
    ensures
        stage_is_ready(dag, st, present, name),
        order.contains(name),
    decreases order.len(),
{
    let r = ready_in(dag, st, present, order);
    let rest = ready_in(dag, st, present, order.drop_last());
    if rest.contains(name) {
        lemma_ready_in_members(dag, st, present, order.drop_last(), name);
        let j = choose|j: int| 0 <= j < order.drop_last().len() && order.drop_last()[j] == name;
        assert(order[j] == name);
    } else {
        let j = choose|j: int| 0 <= j < r.len() && r[j] == name;
        if stage_is_ready(dag, st, present, order.last()) {
            assert(r == rest.push(order.last()));
            assert(j == rest.len());
        } else {
            assert(r == rest);
        }
        assert(order[order.len() - 1] == name);
    }
}

/// Every stage that a ready view offers is PENDING, in the topological order,
/// and has every dependency SUCCEEDED or SKIPPED with its outputs present; and
/// nothing is offered once cancellation is requested.
pub proof fn lemma_ready_list_sound(
    dag: Dag,
    st: RunState,
    present: Seq<Seq<char>>,
    limit: int,
    name: Seq<char>,
)
    requires
        0 <= limit,
        ready_list(dag, st, present, limit).contains(name),
    ensures
        !st.cancel_requested,
        stage_is_ready(dag, st, present, name),
        status_of(st, name) == Some(StageStatus::PENDING),
        names_of(st.topo_order@).contains(name),
{
    let all = ready_in(dag, st, present, names_of(st.topo_order@));
    let j = choose|j: int|
        0 <= j < ready_list(dag, st, present, limit).len() && ready_list(dag, st, present, limit)[j]
            == name;
    assert(all[j] == name);
    assert(all.contains(name));
    lemma_ready_in_members(dag, st, present, names_of(st.topo_order@), name);
}

/// Readiness lasts while the stage stays PENDING: if no finished dependency is
/// touched, no output disappears and the graph is not changed, a ready stage
/// that is still PENDING is still ready.
pub proof fn lemma_ready_persists(
    dag: Dag,
    st: RunState,
    st2: RunState,
    present: Seq<Seq<char>>,
    present2: Seq<Seq<char>>,
    name: Seq<char>,
)
    requires
        stage_is_ready(dag, st, present, name),
        status_of(st2, name) == Some(StageStatus::PENDING),
        st2.dag_edges@ == st.dag_edges@,
        shot_names(st2.stages@) == shot_names(st.stages@),
        forall|d: Seq<char>|
            #![trigger rec_of(st, d)]
            (rec_of(st, d) matches Some(r) && is_done_ok(r.status)) ==> rec_of(st2, d) == rec_of(
                st,
                d,
            ),
        forall|p: Seq<char>| present.contains(p) ==> #[trigger] present2.contains(p),
    ensures
        stage_is_ready(dag, st2, present2, name),
{
    assert(stage_deps(dag, st2, name) == stage_deps(dag, st, name));
    assert forall|k: int| 0 <= k < stage_deps(dag, st2, name).len() implies dep_satisfied(
        st2,
        present2,
        #[trigger] stage_deps(dag, st2, name)[k],
    ) by {
        let d = stage_deps(dag, st, name)[k];
        assert(dep_satisfied(st, present, d));
        let r = rec_of(st, d)->Some_0;
        assert(rec_of(st2, d) == rec_of(st, d));
        assert forall|x: int| 0 <= x < r.outputs@.len() implies present2.contains(
            #[trigger] r.outputs@[x]@,
        ) by {
            assert(present.contains(r.outputs@[x]@));
        }
    }
}

/// Entry-wise equal names, and equal dependencies wherever the name is `x`,
/// give `x` the same first dependencies.
pub proof fn lemma_first_deps_same(a: Seq<DagNode>, b: Seq<DagNode>, x: Seq<char>)
    requires
        a.len() == b.len(),
        forall|j: int| 0 <= j < a.len() ==> (#[trigger] a[j]).name@ == b[j].name@,
        forall|j: int| 0 <= j < a.len() && (#[trigger] a[j]).name@ == x ==> names_of(a[j].deps@) == names_of(b[j].deps@),
    ensures
        first_deps(a, x) == first_deps(b, x),
    decreases a.len(),
{
    if a.len() > 0 {
        assert(a[0].name@ == b[0].name@);
        lemma_first_deps_same(a.drop_first(), b.drop_first(), x);
    }
}

/// The first entry named `x` decides its dependencies.
pub proof fn lemma_first_deps_at(a: Seq<DagNode>, x: Seq<char>, i: int)
    requires
        0 <= i < a.len(),
        a[i].name@ == x,
        forall|j: int| 0 <= j < i ==> (#[trigger] a[j]).name@ != x,
    ensures
        first_deps(a, x) == Some(names_of(a[i].deps@)),
    decreases i,
{
    if i > 0 {
        assert(a[0].name@ != x);
        assert forall|j: int| 0 <= j < i - 1 implies (#[trigger] a.drop_first()[j]).name@ != x by {
            assert(a.drop_first()[j] == a[j + 1]);
        }
        lemma_first_deps_at(a.drop_first(), x, i - 1);
    }
}

/// A name with no entry has no dependencies listed; appending an entry adds
/// exactly its own.
pub proof fn lemma_first_deps_push(a: Seq<DagNode>, n: DagNode, x: Seq<char>)
    requires
        forall|j: int| 0 <= j < a.len() ==> (#[trigger] a[j]).name@ != n.name@,
    ensures
        first_deps(a, n.name@) is None,
        first_deps(a.push(n), n.name@) == Some(names_of(n.deps@)),
        x != n.name@ ==> first_deps(a.push(n), x) == first_deps(a, x),
    decreases a.len(),
{
    if a.len() == 0 {
        assert(a.push(n).drop_first() =~= Seq::<DagNode>::empty());
    } else {
        assert(a.push(n).drop_first() =~= a.drop_first().push(n));
        assert forall|j: int| 0 <= j < a.drop_first().len() implies (#[trigger] a.drop_first()[j]).name@
            != n.name@ by {
            assert(a.drop_first()[j] == a[j + 1]);
        }
        lemma_first_deps_push(a.drop_first(), n, x);
    }
}

/// Makes `deps` the dependencies of `name`: the first entry named `name` gets
/// them, or a new entry is appended. Every other name keeps its dependencies.
pub fn set_edge(edges: &mut Vec<DagNode>, name: &str, deps: Vec<String>)
    ensures
        first_deps(final(edges)@, name@) == Some(names_of(deps@)),
        forall|x: Seq<char>|
            x != name@ ==> #[trigger] first_deps(final(edges)@, x) == first_deps(old(edges)@, x),
{
    let ghost dv = names_of(deps@);
    let mut i: usize = 0;
    while i < edges.len()
        invariant
            i <= edges@.len(),
            edges@ == old(edges)@,
            forall|j: int| 0 <= j < i ==> (#[trigger] edges@[j]).name@ != name@,
        decreases edges@.len() - i,
    {
        if str_eq(edges[i].name.as_str(), name) {
            let ghost before = edges@;
            edges[i].deps = deps;
            proof {
                lemma_first_deps_at(edges@, name@, i as int);
                assert forall|x: Seq<char>| x != name@ implies #[trigger] first_deps(edges@, x)
                    == first_deps(before, x) by {
                    lemma_first_deps_same(edges@, before, x);
                }
            }
            return;
        }
        i = i + 1;
    }
    let node = DagNode { name: String::from_str(name), deps };
    let ghost before = edges@;
    edges.push(node);
    proof {
        assert forall|x: Seq<char>| x != name@ implies #[trigger] first_deps(edges@, x) == first_deps(
            before,
            x,
        ) by {
            lemma_first_deps_push(before, node, x);
        }
        lemma_first_deps_push(before, node, name@);
    }
}

} // verus!
