use crate::dag::{names_of, Dag};
use crate::ready::{
    clone_names, compute_ready_view_with_dag_limited, ready_list, with_status, ReadySummary,
};
use crate::run_state::{wf, RunState, RunStatus, StageStatus};
use vstd::prelude::*;

verus! {

/// Most ready or running names a snapshot lists.
pub const SNAPSHOT_LIST_LIMIT: usize = 64;

/// Default backlog of the event bus.
pub const BUS_CAPACITY: usize = 1024;

/// The graph part of a snapshot.
#[derive(Debug, Clone)]
pub struct DagReadyMeta {
    pub schema: String,
    pub concurrency: usize,
    pub nodes_total: usize,
}

/// Number of shot stages of a run.
#[derive(Debug, Clone)]
pub struct VideoShotsMeta {
    pub n: usize,
}

/// Point-in-time summary of a run, broadcast to subscribers.
#[derive(Debug, Clone)]
pub struct RunReadySnapshot {
    pub schema: String,
    pub run_id: String,
    pub status: RunStatus,
    pub dag: DagReadyMeta,
    pub topo_order: Vec<String>,
    pub ready: Vec<String>,
    pub running: Vec<String>,
    pub summary: ReadySummary,
    pub updated_at: u64,
    pub video_shots: Option<VideoShotsMeta>,
}

/// An event on the bus.
#[derive(Debug, Clone)]
pub enum RunEvent {
    Snapshot(RunReadySnapshot),
}

/// The snapshot of a run: identity, status, the ready view (at most 64 ready
/// stages) and the shot count.
pub fn snapshot_from_state(st: &RunState, dag: &Dag, concurrency: usize, present: &Vec<String>) -> (s:
    RunReadySnapshot)
    requires
        wf(*st),
    ensures
        s.run_id@ == st.run_id@,
        s.status == st.status,
        s.updated_at == st.updated_at,
        s.dag.concurrency == concurrency,
        s.dag.nodes_total == st.topo_order@.len(),
        s.dag.schema@ == st.dag.schema@,
        names_of(s.topo_order@) == names_of(st.topo_order@),
        names_of(s.ready@) == ready_list(*dag, *st, names_of(present@), SNAPSHOT_LIST_LIMIT as int),
        names_of(s.running@) == with_status(
            *st,
            names_of(st.topo_order@),
            StageStatus::RUNNING,
        ),
        s.summary.total == st.topo_order@.len(),
        match st.video_shots_total {
            Some(n) => s.video_shots matches Some(m) && m.n == n,
            None => s.video_shots is None,
        },
{
    let view = compute_ready_view_with_dag_limited(st, dag, SNAPSHOT_LIST_LIMIT, present);
    let video_shots = match st.video_shots_total {
        Some(n) => Some(VideoShotsMeta { n: n as usize }),
        None => None,
    };
    RunReadySnapshot {
        schema: String::from_str("cssapi.runs.ready.v1"),
        run_id: st.run_id.clone(),
        status: st.status,
        dag: DagReadyMeta {
            schema: st.dag.schema.clone(),
            concurrency,
            nodes_total: st.topo_order.len(),
        },
        topo_order: view.topo_order,
        ready: view.ready,
        running: view.running,
        summary: view.summary,
        updated_at: st.updated_at,
        video_shots,
    }
}

/// Fan-out bus with a bounded backlog. Events get consecutive sequence numbers;
/// only the newest `capacity` are kept, so a subscriber that falls behind misses
/// the older ones instead of holding the producer back.
#[derive(Debug, Clone)]
pub struct EventBus {
    pub capacity: usize,
    pub backlog: Vec<RunEvent>,
    /// Sequence number of the first event in `backlog`.
    pub first_seq: u64,
}

impl EventBus {
    /// The backlog never exceeds the capacity.
    pub open spec fn wf(&self) -> bool {
        self.capacity > 0 && self.backlog@.len() <= self.capacity
    }

    /// Sequence number the next event will get.
    pub open spec fn next_seq(&self) -> int {
        self.first_seq + self.backlog@.len()
    }

    /// A bus keeping at most `capacity` events (at least one).
    pub fn new(capacity: usize) -> (b: EventBus)
        ensures
            b.wf(),
            b.capacity == if capacity == 0 {
                1
            } else {
                capacity
            },
            b.backlog@.len() == 0,
            b.first_seq == 0,
    {
        EventBus { capacity: if capacity == 0 { 1 } else { capacity }, backlog: Vec::new(), first_seq: 0 }
    }

    /// Publishes an event, dropping the oldest one when the backlog is full.
    pub fn emit(&mut self, ev: RunEvent)
        requires
            old(self).wf(),
            old(self).next_seq() < u64::MAX,
        ensures
            final(self).wf(),
            final(self).capacity == old(self).capacity,
            final(self).next_seq() == old(self).next_seq() + 1,
            final(self).backlog@.last() == ev,
            old(self).backlog@.len() < old(self).capacity ==> final(self).backlog@ == old(
                self,
            ).backlog@.push(ev),
            old(self).backlog@.len() == old(self).capacity ==> final(self).backlog@ == old(
                self,
            ).backlog@.push(ev).drop_first(),
    {
        if self.backlog.len() == self.capacity {
            self.backlog.remove(0);
            self.first_seq = self.first_seq + 1;
            self.backlog.push(ev);
            assert(self.backlog@ =~= old(self).backlog@.push(ev).drop_first());
        } else {
            self.backlog.push(ev);
        }
    }

    /// A new subscriber's cursor: it sees events published from now on.
    pub fn subscribe(&self) -> (cursor: u64)
        requires
            self.wf(),
            self.next_seq() <= u64::MAX,
        ensures
            cursor == self.next_seq(),
    {
        self.first_seq + self.backlog.len() as u64
    }

    /// The next event for a subscriber at `cursor`, and its new cursor. A
    /// subscriber whose next event was dropped skips to the oldest one kept.
    pub fn recv(&self, cursor: u64) -> (r: (Option<&RunEvent>, u64))
        requires
            self.wf(),
            self.next_seq() <= u64::MAX,
        ensures
            cursor >= self.next_seq() ==> r.0 is None && r.1 == cursor,
            self.backlog@.len() == 0 ==> r.0 is None,
            cursor < self.next_seq() && self.backlog@.len() > 0 ==> {
                let at = if cursor < self.first_seq {
                    self.first_seq as int
                } else {
                    cursor as int
                };
                r.0 matches Some(e) && *e == self.backlog@[at - self.first_seq] && r.1 == at + 1
            },
    {
        let next = self.first_seq + self.backlog.len() as u64;
        if cursor >= next {
            return (None, cursor);
        }
        if self.backlog.len() == 0 {
            return (None, next);
        }
        let at = if cursor < self.first_seq {
            self.first_seq
        } else {
            cursor
        };
        (Some(&self.backlog[(at - self.first_seq) as usize]), at + 1)
    }
}

} // verus!
