use crate::artifacts::Artifacts;
use crate::dag::DagNode;
use vstd::prelude::*;

verus! {

/// Status of a whole run.
#[allow(non_camel_case_types)]
#[derive(Debug, Clone, Copy, PartialEq, Eq, Structural)]
pub enum RunStatus {
    INIT,
    RUNNING,
    SUCCEEDED,
    FAILED,
    CANCELLED,
}

/// Status of one stage.
#[allow(non_camel_case_types)]
#[derive(Debug, Clone, Copy, PartialEq, Eq, Structural)]
pub enum StageStatus {
    PENDING,
    RUNNING,
    SUCCEEDED,
    FAILED,
    SKIPPED,
}

/// The record of one stage. Times are seconds since the Unix epoch.
#[derive(Debug, Clone)]
pub struct StageRecord {
    pub status: StageStatus,
    pub started_at: Option<u64>,
    pub ended_at: Option<u64>,
    pub exit_code: Option<i32>,
    pub command: Option<String>,
    pub outputs: Vec<String>,
    pub retries: u32,
    pub error: Option<String>,
    pub last_heartbeat_at: Option<u64>,
    pub timeout_seconds: Option<u64>,
}

/// A named stage record.
#[derive(Debug, Clone)]
pub struct StageEntry {
    pub name: String,
    pub record: StageRecord,
}

/// Per-run configuration.
#[derive(Debug, Clone)]
pub struct RunConfig {
    pub out_dir: String,
    pub wiki_enabled: bool,
    pub civ_linked: bool,
    pub heartbeat_interval_seconds: u64,
    pub stage_timeout_seconds: u64,
    pub stuck_timeout_seconds: u64,
}

/// How failed stages are retried.
#[derive(Debug, Clone)]
pub struct RetryPolicy {
    pub max_retries: u32,
    pub backoff_base_seconds: u64,
    pub strategy: String,
}

/// Which DAG template a run follows.
#[derive(Debug, Clone)]
pub struct DagMeta {
    pub schema: String,
}

/// The persistent state of one pipeline run.
#[derive(Debug, Clone)]
pub struct RunState {
    pub schema: String,
    pub run_id: String,
    pub created_at: u64,
    pub updated_at: u64,
    pub status: RunStatus,
    pub last_heartbeat_at: Option<u64>,
    pub stuck_timeout_seconds: Option<u64>,
    pub cancel_requested: bool,
    pub ui_lang: String,
    pub tier: String,
    pub cssl: String,
    pub config: RunConfig,
    pub retry_policy: RetryPolicy,
    pub dag: DagMeta,
    pub topo_order: Vec<String>,
    /// Concrete dependency edges of this run: the template plus inserted shot nodes.
    pub dag_edges: Vec<DagNode>,
    /// Stage records, one per stage name.
    pub stages: Vec<StageEntry>,
    /// Free-form results, addressed by dot paths.
    pub artifacts: Artifacts,
    pub video_shots_total: Option<u32>,
}

/// A stage in a terminal state that lets dependents run.
pub open spec fn is_done_ok(s: StageStatus) -> bool {
    s == StageStatus::SUCCEEDED || s == StageStatus::SKIPPED
}

/// The stage names of a run, in storage order.
pub open spec fn stage_names(st: RunState) -> Seq<Seq<char>> {
    st.stages@.map_values(|e: StageEntry| e.name@)
}

/// Names of a list of stage entries.
pub open spec fn stage_names_of(s: Seq<StageEntry>) -> Seq<Seq<char>> {
    s.map_values(|e: StageEntry| e.name@)
}

/// Each stage name occurs once.
pub open spec fn wf(st: RunState) -> bool {
    forall|i: int, j: int|
        0 <= i < st.stages@.len() && 0 <= j < st.stages@.len() && i != j ==> st.stages@[i].name@
            != st.stages@[j].name@
}

/// The run has a stage called `name`.
pub open spec fn has_stage(st: RunState, name: Seq<char>) -> bool {
    exists|i: int| 0 <= i < st.stages@.len() && st.stages@[i].name@ == name
}

/// The record of stage `name`, if the run has one.
pub open spec fn rec_of(st: RunState, name: Seq<char>) -> Option<StageRecord> {
    if has_stage(st, name) {
        Some(
            st.stages@[choose|i: int| 0 <= i < st.stages@.len() && st.stages@[i].name@ == name].record,
        )
    } else {
        None
    }
}

/// The status of stage `name`, if the run has one.
pub open spec fn status_of(st: RunState, name: Seq<char>) -> Option<StageStatus> {
    match rec_of(st, name) {
        Some(r) => Some(r.status),
        None => None,
    }
}

/// In a well-formed run, the record at position `i` is the record of its name.
pub proof fn lemma_rec_at(st: RunState, i: int)
    requires
        wf(st),
        0 <= i < st.stages@.len(),
    ensures
        rec_of(st, st.stages@[i].name@) == Some(st.stages@[i].record),
{
    let name = st.stages@[i].name@;
    assert(has_stage(st, name));
    let j = choose|j: int| 0 <= j < st.stages@.len() && st.stages@[j].name@ == name;
    assert(i == j);
}

/// Position of stage `name` among the run's records.
pub fn find_stage(st: &RunState, name: &str) -> (r: Option<usize>)
    requires
        wf(*st),
    ensures
        r matches Some(i) ==> i < st.stages@.len() && st.stages@[i as int].name@ == name@
            && rec_of(*st, name@) == Some(st.stages@[i as int].record),
        r is None ==> !has_stage(*st, name@) && rec_of(*st, name@) is None,
{
    let mut i: usize = 0;
    while i < st.stages.len()
        invariant
            wf(*st),
            i <= st.stages@.len(),
            forall|k: int| 0 <= k < i ==> st.stages@[k].name@ != name@,
        decreases st.stages@.len() - i,
    {
        if str_eq(st.stages[i].name.as_str(), name) {
            proof {
                lemma_rec_at(*st, i as int);
            }
            return Some(i);
        }
        i = i + 1;
    }
    None
}

/// Character-wise equality of two strings.
pub fn str_eq(a: &str, b: &str) -> (r: bool)
    ensures
        r == (a@ == b@),
{
    let n = a.unicode_len();
    if n != b.unicode_len() {
        return false;
    }
    let mut i: usize = 0;
    while i < n
        invariant
            n == a@.len(),
            n == b@.len(),
            i <= n,
            forall|k: int| 0 <= k < i ==> a@[k] == b@[k],
        decreases n - i,
    {
        if a.get_char(i) != b.get_char(i) {
            return false;
        }
        i = i + 1;
    }
    assert(a@ =~= b@);
    true
}

/// A fresh PENDING record with the given outputs and timeout.
pub fn pending_record(outputs: Vec<String>, timeout_seconds: Option<u64>) -> (r: StageRecord)
    ensures
        r.status == StageStatus::PENDING,
        r.outputs == outputs,
        r.timeout_seconds == timeout_seconds,
        r.retries == 0,
        r.started_at is None && r.ended_at is None && r.error is None && r.exit_code is None,
        r.last_heartbeat_at is None && r.command is None,
{
    StageRecord {
        status: StageStatus::PENDING,
        started_at: None,
        ended_at: None,
        exit_code: None,
        command: None,
        outputs,
        retries: 0,
        error: None,
        last_heartbeat_at: None,
        timeout_seconds,
    }
}

/// Adds a PENDING record for `name` unless the run has one.
pub fn ensure_stage(st: &mut RunState, name: &str)
    requires
        wf(*old(st)),
    ensures
        wf(*final(st)),
        has_stage(*old(st), name@) ==> *final(st) == *old(st),
        !has_stage(*old(st), name@) ==> final(st).stages@.len() == old(st).stages@.len() + 1
            && final(st).stages@.drop_last() == old(st).stages@ && final(st).stages@.last().name@
            == name@ && final(st).stages@.last().record.status == StageStatus::PENDING,
        has_stage(*final(st), name@),
{
    if find_stage(st, name).is_some() {
        return;
    }
    let ghost before = *st;
    st.stages.push(StageEntry { name: String::from_str(name), record: pending_record(Vec::new(), None) });
    proof {
        let n = before.stages@.len() as int;
        assert(st.stages@.drop_last() =~= before.stages@);
        assert forall|a: int, b: int|
            0 <= a < st.stages@.len() && 0 <= b < st.stages@.len() && a != b implies st.stages@[a].name@
                != st.stages@[b].name@ by {
            if a != n && b != n {
                assert(st.stages@[a] == before.stages@[a]);
                assert(st.stages@[b] == before.stages@[b]);
            } else if a == n {
                assert(st.stages@[b] == before.stages@[b]);
            } else {
                assert(st.stages@[a] == before.stages@[a]);
            }
        }
        assert(st.stages@[n].name@ == name@);
    }
}

/// Whether each stage name occurs once (the run is well formed).
pub fn stages_unique(st: &RunState) -> (r: bool)
    ensures
        r == wf(*st),
{
    let n = st.stages.len();
    let mut i: usize = 0;
    while i < n
        invariant
            n == st.stages@.len(),
            i <= n,
            forall|a: int, b: int|
                0 <= a < i && 0 <= b < n && a != b ==> st.stages@[a].name@ != st.stages@[b].name@,
        decreases n - i,
    {
        let mut j: usize = 0;
        while j < n
            invariant
                n == st.stages@.len(),
                i < n,
                j <= n,
                forall|a: int, b: int|
                    0 <= a < i && 0 <= b < n && a != b ==> st.stages@[a].name@ != st.stages@[b].name@,
                forall|b: int| 0 <= b < j && b != i ==> st.stages@[i as int].name@ != st.stages@[b].name@,
            decreases n - j,
        {
            if j != i && str_eq(st.stages[i].name.as_str(), st.stages[j].name.as_str()) {
                return false;
            }
            j = j + 1;
        }
        i = i + 1;
    }
    true
}

} // verus!
