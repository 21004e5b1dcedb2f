use crate::dag::{lemma_names_push, names_of};
use crate::run_state::{
    lemma_rec_at, rec_of, str_eq, wf, RunState, RunStatus, StageEntry, StageRecord, StageStatus,
};
use vstd::prelude::*;

verus! {

/// Position of `x` in `v`.
pub fn index_of(v: &Vec<String>, x: &str) -> (r: Option<usize>)
    ensures
        r matches Some(i) ==> i < v@.len() && v@[i as int]@ == x@,
        r is None ==> !names_of(v@).contains(x@),
{
    let mut i: usize = 0;
    while i < v.len()
        invariant
            i <= v@.len(),
            forall|k: int| 0 <= k < i ==> v@[k]@ != x@,
        decreases v@.len() - i,
    {
        if str_eq(v[i].as_str(), x) {
            return Some(i);
        }
        i = i + 1;
    }
    proof {
        if names_of(v@).contains(x@) {
            let k = choose|k: int| 0 <= k < names_of(v@).len() && names_of(v@)[k] == x@;
            assert(v@[k]@ == x@);
        }
    }
    None
}

/// Queue bookkeeping of one entry: its tier and when it was enqueued.
#[derive(Debug, Clone)]
pub struct QueueMeta {
    pub run_id: String,
    pub tier: String,
    pub enqueued_at: u64,
}

/// The in-process run queue: a FIFO of run ids, the wait-time metadata of the
/// queued entries, and the runs currently claimed (queued or running here).
#[derive(Debug, Clone)]
pub struct JobQueue {
    pub ready: Vec<String>,
    pub meta: Vec<QueueMeta>,
    pub claimed: Vec<String>,
}

impl JobQueue {
    /// The queued run ids, oldest first.
    pub open spec fn queued(&self) -> Seq<Seq<char>> {
        names_of(self.ready@)
    }

    /// The claimed run ids.
    pub open spec fn claimed_ids(&self) -> Seq<Seq<char>> {
        names_of(self.claimed@)
    }

    /// An empty queue.
    pub fn new() -> (q: JobQueue)
        ensures
            q.queued().len() == 0,
            q.claimed_ids().len() == 0,
    {
        JobQueue { ready: Vec::new(), meta: Vec::new(), claimed: Vec::new() }
    }

    /// Whether the backend blocks on `pop`; this one does not, so callers poll.
    pub fn uses_blocking_pop(&self) -> (r: bool)
        ensures
            !r,
    {
        false
    }

    /// Enqueues `run_id` for immediate pickup, noting its tier and time unless
    /// already noted.
    pub fn push_run(&mut self, run_id: String, tier: String, now: u64)
        ensures
            final(self).queued() == old(self).queued().push(run_id@),
            final(self).claimed_ids() == old(self).claimed_ids(),
    {
        let mut i: usize = 0;
        let mut noted = false;
        while i < self.meta.len()
            invariant
                i <= self.meta@.len(),
            decreases self.meta@.len() - i,
        {
            if str_eq(self.meta[i].run_id.as_str(), run_id.as_str()) {
                noted = true;
            }
            i = i + 1;
        }
        if !noted {
            self.meta.push(QueueMeta { run_id: run_id.clone(), tier, enqueued_at: now });
        }
        let ghost prev = self.ready@;
        self.ready.push(run_id);
        proof {
            lemma_names_push(prev, self.ready@.last());
        }
    }

    /// Schedules `run_id` again. This backend has no delayed set, so the entry
    /// is enqueued at once, whatever the delay.
    pub fn defer_run(&mut self, run_id: String, tier: String, delay_ms: u64, now: u64)
        ensures
            final(self).queued() == old(self).queued().push(run_id@),
            final(self).claimed_ids() == old(self).claimed_ids(),
    {
        self.push_run(run_id, tier, now);
    }

    /// Takes the oldest queued run id and drops its metadata, returning the
    /// time it was enqueued if that was noted.
    pub fn pop_run(&mut self) -> (r: Option<(String, Option<u64>)>)
        ensures
            old(self).queued().len() == 0 ==> r is None && final(self).queued() == old(
                self,
            ).queued(),
            old(self).queued().len() > 0 ==> (r matches Some((id, _)) && id@ == old(
                self,
            ).queued()[0] && final(self).queued() == old(self).queued().drop_first()),
            final(self).claimed_ids() == old(self).claimed_ids(),
    {
        if self.ready.len() == 0 {
            return None;
        }
        let ghost prev = self.ready@;
        let id = self.ready.remove(0);
        proof {
            assert(names_of(self.ready@) =~= names_of(prev).drop_first());
        }
        let mut since: Option<u64> = None;
        let mut i: usize = 0;
        let ghost after = self.ready@;
        while i < self.meta.len()
            invariant
                i <= self.meta@.len(),
                self.ready@ == after,
                self.claimed == old(self).claimed,
            decreases self.meta@.len() - i,
        {
            if str_eq(self.meta[i].run_id.as_str(), id.as_str()) {
                since = Some(self.meta[i].enqueued_at);
                self.meta.remove(i);
            } else {
                i = i + 1;
            }
        }
        Some((id, since))
    }

    /// Marks `run_id` as queued or running here; false if it already was.
    pub fn claim_run(&mut self, run_id: &str) -> (r: bool)
        ensures
            r == !old(self).claimed_ids().contains(run_id@),
            r ==> final(self).claimed_ids() == old(self).claimed_ids().push(run_id@),
            !r ==> final(self).claimed_ids() == old(self).claimed_ids(),
            final(self).queued() == old(self).queued(),
    {
        match index_of(&self.claimed, run_id) {
            Some(i) => {
                assert(names_of(self.claimed@)[i as int] == run_id@);
                false
            },
            None => {
                let ghost prev = self.claimed@;
                self.claimed.push(String::from_str(run_id));
                proof {
                    lemma_names_push(prev, self.claimed@.last());
                }
                true
            },
        }
    }

    /// Forgets the claim on `run_id`.
    pub fn release_run(&mut self, run_id: &str)
        ensures
            !final(self).claimed_ids().contains(run_id@),
            forall|x: Seq<char>|
                x != run_id@ ==> (#[trigger] final(self).claimed_ids().contains(x) <==> old(
                    self,
                ).claimed_ids().contains(x)),
            final(self).queued() == old(self).queued(),
    {
        let mut i: usize = 0;
        while i < self.claimed.len()
            invariant
                i <= self.claimed@.len(),
                forall|k: int| 0 <= k < i ==> self.claimed@[k]@ != run_id@,
                forall|x: Seq<char>|
                    x != run_id@ ==> (#[trigger] names_of(self.claimed@).contains(x) <==> old(
                        self,
                    ).claimed_ids().contains(x)),
                self.ready == old(self).ready,
            decreases self.claimed@.len() - i,
        {
            if str_eq(self.claimed[i].as_str(), run_id) {
                let ghost prev = self.claimed@;
                self.claimed.remove(i);
                proof {
                    assert forall|x: Seq<char>| x != run_id@ implies (#[trigger] names_of(
                        self.claimed@,
                    ).contains(x) <==> names_of(prev).contains(x)) by {
                        if names_of(prev).contains(x) {
                            let k = choose|k: int|
                                0 <= k < names_of(prev).len() && names_of(prev)[k] == x;
                            assert(k != i);
                            let k2 = if k < i { k } else { k - 1 };
                            assert(names_of(self.claimed@)[k2] == x);
                        }
                        if names_of(self.claimed@).contains(x) {
                            let k = choose|k: int|
                                0 <= k < names_of(self.claimed@).len() && names_of(self.claimed@)[k]
                                    == x;
                            let k2 = if k < i { k } else { k + 1 };
                            assert(names_of(prev)[k2] == x);
                        }
                    }
                }
            } else {
                i = i + 1;
            }
        }
        proof {
            if names_of(self.claimed@).contains(run_id@) {
                let k = choose|k: int|
                    0 <= k < names_of(self.claimed@).len() && names_of(self.claimed@)[k] == run_id@;
                assert(self.claimed@[k]@ == run_id@);
            }
        }
    }

    /// Number of runs claimed here.
    pub fn queued_or_running_count(&self) -> (n: usize)
        ensures
            n == self.claimed_ids().len(),
    {
        self.claimed.len()
    }
}

/// A RUNNING stage put back to PENDING, with its timestamps and error cleared.
pub open spec fn reset_record_spec(old_rec: StageRecord, new_rec: StageRecord) -> bool {
    &&& new_rec.status == StageStatus::PENDING
    &&& new_rec.started_at is None
    &&& new_rec.ended_at is None
    &&& new_rec.exit_code is None
    &&& new_rec.error is None
    &&& new_rec.outputs == old_rec.outputs
    &&& new_rec.command == old_rec.command
    &&& new_rec.retries == old_rec.retries
    &&& new_rec.timeout_seconds == old_rec.timeout_seconds
}

fn reset_record(rec: &mut StageRecord)
    ensures
        reset_record_spec(*old(rec), *final(rec)),
        final(rec).last_heartbeat_at == old(rec).last_heartbeat_at,
{
    rec.status = StageStatus::PENDING;
    rec.started_at = None;
    rec.ended_at = None;
    rec.exit_code = None;
    rec.error = None;
}

/// Crash recovery of one persisted run. A run stored as RUNNING can only have
/// been cut off by a crash: each of its RUNNING stages goes back to PENDING and
/// every other stage is kept. Returns whether the run was reset.
pub fn reset_crashed_run(st: &mut RunState, now: u64) -> (recovered: bool)
    ensures
        recovered == (old(st).status == RunStatus::RUNNING),
        !recovered ==> *final(st) == *old(st),
        final(st).stages@.len() == old(st).stages@.len(),
        final(st).run_id == old(st).run_id,
        final(st).tier == old(st).tier,
        final(st).status == old(st).status,
        final(st).topo_order == old(st).topo_order,
        final(st).dag_edges == old(st).dag_edges,
        forall|i: int|
            0 <= i < old(st).stages@.len() ==> (#[trigger] final(st).stages@[i]).name == old(
                st,
            ).stages@[i].name,
        forall|i: int|
            recovered && 0 <= i < old(st).stages@.len() && old(st).stages@[i].record.status
                == StageStatus::RUNNING ==> reset_record_spec(
                old(st).stages@[i].record,
                #[trigger] final(st).stages@[i].record,
            ),
        forall|i: int|
            0 <= i < old(st).stages@.len() && old(st).stages@[i].record.status
                != StageStatus::RUNNING ==> #[trigger] final(st).stages@[i] == old(st).stages@[i],
        recovered ==> final(st).updated_at == now,
{
    if st.status != RunStatus::RUNNING {
        return false;
    }
    let n = st.stages.len();
    let mut i: usize = 0;
    while i < n
        invariant
            n == st.stages@.len(),
            n == old(st).stages@.len(),
            i <= n,
            st.run_id == old(st).run_id,
            st.tier == old(st).tier,
            st.status == old(st).status,
            st.topo_order == old(st).topo_order,
            st.dag_edges == old(st).dag_edges,
            forall|k: int| 0 <= k < n ==> (#[trigger] st.stages@[k]).name == old(st).stages@[k].name,
            forall|k: int|
                0 <= k < i && old(st).stages@[k].record.status == StageStatus::RUNNING
                    ==> reset_record_spec(old(st).stages@[k].record, #[trigger] st.stages@[k].record),
            forall|k: int|
                0 <= k < n && (k >= i || old(st).stages@[k].record.status != StageStatus::RUNNING)
                    ==> #[trigger] st.stages@[k] == old(st).stages@[k],
        decreases n - i,
    {
        if st.stages[i].record.status == StageStatus::RUNNING {
            reset_record(&mut st.stages[i].record);
        }
        i = i + 1;
    }
    st.updated_at = now;
    true
}

/// Startup recovery of one persisted run: reset it if it was cut off while
/// RUNNING, and enqueue it again unless it is already claimed here. Returns
/// whether it was enqueued.
pub fn restore_incomplete_run(st: &mut RunState, q: &mut JobQueue, now: u64) -> (requeued: bool)
    ensures
        requeued == (old(st).status == RunStatus::RUNNING && !old(q).claimed_ids().contains(
            old(st).run_id@,
        )),
        requeued ==> final(q).queued() == old(q).queued().push(old(st).run_id@)
            && final(q).claimed_ids() == old(q).claimed_ids().push(old(st).run_id@),
        !requeued ==> final(q).queued() == old(q).queued() && final(q).claimed_ids() == old(
            q,
        ).claimed_ids(),
        forall|i: int|
            0 <= i < old(st).stages@.len() && old(st).status == RunStatus::RUNNING && old(
                st,
            ).stages@[i].record.status == StageStatus::RUNNING ==> reset_record_spec(
                old(st).stages@[i].record,
                #[trigger] final(st).stages@[i].record,
            ),
        forall|i: int|
            0 <= i < old(st).stages@.len() && old(st).stages@[i].record.status
                != StageStatus::RUNNING ==> #[trigger] final(st).stages@[i] == old(st).stages@[i],
        final(st).stages@.len() == old(st).stages@.len(),
        old(st).status != RunStatus::RUNNING ==> *final(st) == *old(st),
        final(st).status == old(st).status,
        final(st).run_id == old(st).run_id,
        final(st).tier == old(st).tier,
        final(st).topo_order == old(st).topo_order,
        final(st).dag_edges == old(st).dag_edges,
        forall|i: int|
            0 <= i < old(st).stages@.len() ==> (#[trigger] final(st).stages@[i]).name == old(
                st,
            ).stages@[i].name,
        old(st).status == RunStatus::RUNNING ==> final(st).updated_at == now,
{
    if !reset_crashed_run(st, now) {
        return false;
    }
    if q.claim_run(st.run_id.as_str()) {
        q.push_run(st.run_id.clone(), st.tier.clone(), now);
        true
    } else {
        false
    }
}

} // verus!
