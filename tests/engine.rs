use cssmv_pipeline::dag::{cssmv_dag_v1, Dag, DagNode};
use cssmv_pipeline::retry::{
    backoff_delay, begin_attempt, finish_attempt, next_retry_step, settle_stage, try_skip,
    RetryStep,
};
use cssmv_pipeline::run_state::{RunState, RunStatus, StageRecord, StageStatus};
use cssmv_pipeline::runner::{complete_stage, init_run_state, supervise_tick, TickAction};
use cssmv_pipeline::shots::apply_shot_patch;

struct Sim {
    present: Vec<String>,
    calls: Vec<String>,
    delays: Vec<u64>,
    max_running: usize,
    now: u64,
}

impl Sim {
    fn new() -> Self {
        Sim { present: vec![], calls: vec![], delays: vec![], max_running: 0, now: 1000 }
    }

    /// One stage task: skip if outputs exist, else run with retries.
    fn task(&mut self, st: &RunState, name: &str, fails: &dyn Fn(&str) -> bool) -> StageRecord {
        let idx = st.stages.iter().position(|e| e.name == name).unwrap();
        let mut rec = st.stages[idx].record.clone();
        if rec.outputs.is_empty() {
            rec.outputs = vec![format!("/out/{}.out", name)];
        }
        if try_skip(&mut rec, &self.present) {
            return rec;
        }
        let mut attempt: u32 = 0;
        let ok;
        loop {
            begin_attempt(&mut rec, attempt, self.now);
            self.calls.push(name.to_string());
            let success = !fails(name);
            finish_attempt(&mut rec, success, if success { 0 } else { 1 }, "exit 1", self.now);
            match next_retry_step(&st.retry_policy, attempt, success) {
                RetryStep::Succeeded => {
                    for o in &rec.outputs {
                        self.present.push(o.clone());
                    }
                    ok = true;
                    break;
                }
                RetryStep::RetryAfter(d) => {
                    self.delays.push(d);
                    attempt += 1;
                }
                RetryStep::Failed => {
                    ok = false;
                    break;
                }
            }
        }
        settle_stage(&mut rec, ok, &self.present, self.now);
        rec
    }

    fn running(st: &RunState) -> usize {
        st.stages.iter().filter(|e| e.record.status == StageStatus::RUNNING).count()
    }

    /// Drives the supervisory loop to its end.
    fn run(
        &mut self,
        st: &mut RunState,
        dag: &Dag,
        shots: usize,
        concurrency: usize,
        fails: &dyn Fn(&str) -> bool,
    ) -> RunStatus {
        let ids: Vec<String> = (0..shots).map(|i| format!("video_shot_{:03}", i)).collect();
        let mut in_flight: Vec<String> = vec![];
        for _ in 0..10_000 {
            self.now += 1;
            match supervise_tick(st, dag, &in_flight, &self.present, self.now, concurrency) {
                TickAction::ExpandShots => {
                    assert!(apply_shot_patch(st, &ids));
                }
                TickAction::Start(v) => {
                    in_flight.extend(v);
                    self.max_running = self.max_running.max(Sim::running(st));
                }
                TickAction::Wait => {
                    let name = in_flight.remove(0);
                    let rec = self.task(st, &name, fails);
                    assert!(complete_stage(st, &name, rec, self.now));
                }
                TickAction::Finish(s) => return s,
            }
        }
        panic!("run did not finish");
    }
}

fn status_of(st: &RunState, name: &str) -> StageStatus {
    st.stages.iter().find(|e| e.name == name).unwrap().record.status
}

fn new_run() -> RunState {
    init_run_state("run_1".to_string(), "en".to_string(), "free".to_string(), "css".to_string(), 1000)
}

#[test]
fn scenario_all_stages_succeed() {
    let mut st = new_run();
    let mut sim = Sim::new();
    let status = sim.run(&mut st, &cssmv_dag_v1(), 10, 2, &|_| false);
    assert_eq!(status, RunStatus::SUCCEEDED);
    assert_eq!(st.status, RunStatus::SUCCEEDED);
    assert_eq!(st.topo_order.len(), 6 + 10);
    assert_eq!(st.stages.len(), 16);
    assert!(st
        .stages
        .iter()
        .all(|e| matches!(e.record.status, StageStatus::SUCCEEDED | StageStatus::SKIPPED)));
    assert_eq!(st.video_shots_total, Some(10));
    // shots sit between the plan and the assembly
    let pos = |n: &str| st.topo_order.iter().position(|x| x == n).unwrap();
    assert!(pos("video_plan") < pos("video.shot:shot_000"));
    assert!(pos("video.shot:shot_009") < pos("video_assemble"));
    assert!(pos("video_assemble") < pos("render"));
    assert!(sim.max_running <= 2);
}

#[test]
fn scenario_small_storyboard_is_padded_to_eight_shots() {
    let mut st = new_run();
    let mut sim = Sim::new();
    let status = sim.run(&mut st, &cssmv_dag_v1(), 3, 2, &|_| false);
    assert_eq!(status, RunStatus::SUCCEEDED);
    assert_eq!(st.topo_order.len(), 6 + 8);
}

#[test]
fn second_run_skips_completed_stages() {
    let mut first = new_run();
    let mut sim = Sim::new();
    assert_eq!(sim.run(&mut first, &cssmv_dag_v1(), 8, 2, &|_| false), RunStatus::SUCCEEDED);
    let executed = sim.calls.len();
    assert_eq!(executed, 6 + 8);
    // same outputs on disk, fresh run state
    let mut second = new_run();
    for e in second.stages.iter_mut() {
        e.record.outputs = vec![format!("/out/{}.out", e.name)];
    }
    assert_eq!(sim.run(&mut second, &cssmv_dag_v1(), 8, 2, &|_| false), RunStatus::SUCCEEDED);
    assert_eq!(sim.calls.len(), executed);
    assert!(second.stages.iter().all(|e| e.record.status == StageStatus::SKIPPED));
}

#[test]
fn scenario_music_always_fails() {
    let mut st = new_run();
    let mut sim = Sim::new();
    let status = sim.run(&mut st, &cssmv_dag_v1(), 8, 2, &|n| n == "music");
    assert_eq!(status, RunStatus::FAILED);
    assert_eq!(st.status, RunStatus::FAILED);
    assert_eq!(status_of(&st, "lyrics"), StageStatus::SUCCEEDED);
    assert_eq!(status_of(&st, "music"), StageStatus::FAILED);
    assert_eq!(sim.calls.iter().filter(|c| *c == "music").count(), 3 + 1);
    for n in ["vocals", "video_plan", "video_assemble", "render"] {
        assert_eq!(status_of(&st, n), StageStatus::PENDING);
    }
    let music = &st.stages.iter().find(|e| e.name == "music").unwrap().record;
    assert!(music.error.is_some());
    assert_eq!(music.retries, 3);
}

#[test]
fn failing_executor_backs_off_two_four_eight() {
    let mut st = new_run();
    let mut sim = Sim::new();
    sim.run(&mut st, &cssmv_dag_v1(), 8, 2, &|n| n == "lyrics");
    assert_eq!(sim.calls, vec!["lyrics"; 4]);
    assert_eq!(sim.delays, vec![2, 4, 8]);
    assert_eq!(status_of(&st, "lyrics"), StageStatus::FAILED);
}

#[test]
fn retry_steps_for_policy_three_and_two() {
    let st = new_run();
    let p = &st.retry_policy;
    assert_eq!(next_retry_step(p, 0, false), RetryStep::RetryAfter(2));
    assert_eq!(next_retry_step(p, 1, false), RetryStep::RetryAfter(4));
    assert_eq!(next_retry_step(p, 2, false), RetryStep::RetryAfter(8));
    assert_eq!(next_retry_step(p, 3, false), RetryStep::Failed);
    assert_eq!(next_retry_step(p, 2, true), RetryStep::Succeeded);
    assert_eq!(backoff_delay(3, 0), 3);
    assert_eq!(backoff_delay(5, 4), 80);
    assert_eq!(backoff_delay(u64::MAX, 1), u64::MAX);
    assert_eq!(backoff_delay(1, 64), u64::MAX);
}

#[test]
fn scenario_cancel_while_two_stages_run() {
    let mut st = new_run();
    let dag = cssmv_dag_v1();
    let mut sim = Sim::new();
    let ids: Vec<String> = (0..8).map(|i| format!("video_shot_{:03}", i)).collect();
    let mut in_flight: Vec<String> = vec![];
    // run until two shots are in flight
    loop {
        sim.now += 1;
        match supervise_tick(&mut st, &dag, &in_flight, &sim.present, sim.now, 2) {
            TickAction::ExpandShots => {
                apply_shot_patch(&mut st, &ids);
            }
            TickAction::Start(v) => in_flight.extend(v),
            TickAction::Wait => {
                let name = in_flight.remove(0);
                let rec = sim.task(&st, &name, &|_| false);
                complete_stage(&mut st, &name, rec, sim.now);
            }
            TickAction::Finish(_) => panic!("finished early"),
        }
        if in_flight.len() == 2 && in_flight.iter().all(|n| n.starts_with("video.shot:")) {
            break;
        }
    }
    st.cancel_requested = true;
    sim.now += 1;
    let a = supervise_tick(&mut st, &dag, &in_flight, &sim.present, sim.now, 2);
    assert_eq!(a, TickAction::Wait);
    assert_eq!(st.status, RunStatus::CANCELLED);
    // both in-flight stages finish
    let first = in_flight.remove(0);
    let rec = sim.task(&st, &first, &|_| false);
    complete_stage(&mut st, &first, rec, sim.now);
    let a = supervise_tick(&mut st, &dag, &in_flight, &sim.present, sim.now, 2);
    assert_eq!(a, TickAction::Wait);
    let second = in_flight.remove(0);
    let rec = sim.task(&st, &second, &|_| false);
    complete_stage(&mut st, &second, rec, sim.now);
    assert_eq!(status_of(&st, &first), StageStatus::SUCCEEDED);
    assert_eq!(status_of(&st, &second), StageStatus::SUCCEEDED);
    let a = supervise_tick(&mut st, &dag, &in_flight, &sim.present, sim.now, 2);
    assert_eq!(a, TickAction::Finish(RunStatus::CANCELLED));
    assert_eq!(st.status, RunStatus::CANCELLED);
    // no other shot was started
    assert_eq!(
        st.stages.iter().filter(|e| e.name.starts_with("video.shot:") && e.record.status == StageStatus::PENDING).count(),
        6
    );
}

#[test]
fn concurrency_two_with_five_ready_stages() {
    let names = ["s1", "s2", "s3", "s4", "s5"];
    let dag = Dag {
        nodes: names.iter().map(|n| DagNode { name: n.to_string(), deps: vec![] }).collect(),
    };
    let mut st = new_run();
    st.stages = cssmv_pipeline::runner::init_stage_records();
    st.stages.truncate(0);
    for n in names {
        st.stages.push(cssmv_pipeline::run_state::StageEntry {
            name: n.to_string(),
            record: cssmv_pipeline::run_state::pending_record(vec![], Some(1800)),
        });
    }
    st.topo_order = names.iter().map(|n| n.to_string()).collect();
    st.dag_edges = vec![];
    let mut sim = Sim::new();
    let mut in_flight: Vec<String> = vec![];
    let mut first_start = None;
    let status = loop {
        sim.now += 1;
        match supervise_tick(&mut st, &dag, &in_flight, &sim.present, sim.now, 2) {
            TickAction::Start(v) => {
                if first_start.is_none() {
                    first_start = Some(v.len());
                }
                in_flight.extend(v);
                assert!(Sim::running(&st) <= 2);
                assert!(in_flight.len() <= 2);
            }
            TickAction::Wait => {
                let name = in_flight.remove(0);
                let rec = sim.task(&st, &name, &|_| false);
                complete_stage(&mut st, &name, rec, sim.now);
            }
            TickAction::ExpandShots => panic!("no plan stage here"),
            TickAction::Finish(s) => break s,
        }
    };
    assert_eq!(first_start, Some(2));
    assert_eq!(status, RunStatus::SUCCEEDED);
    assert!(st.stages.iter().all(|e| e.record.status == StageStatus::SUCCEEDED));
}

#[test]
fn stuck_stage_fails_the_run() {
    let mut st = new_run();
    let dag = cssmv_dag_v1();
    let in_flight: Vec<String> = vec![];
    st.stages[0].record.status = StageStatus::RUNNING;
    st.stages[0].record.last_heartbeat_at = Some(1000);
    let a = supervise_tick(&mut st, &dag, &in_flight, &vec![], 1000 + 121, 2);
    assert_eq!(a, TickAction::Finish(RunStatus::FAILED));
    assert_eq!(st.stages[0].record.status, StageStatus::FAILED);
    assert_eq!(st.stages[0].record.error.as_deref(), Some("stuck timeout"));
    let mut fresh = new_run();
    fresh.stages[0].record.status = StageStatus::RUNNING;
    fresh.stages[0].record.last_heartbeat_at = Some(1000);
    let a = supervise_tick(&mut fresh, &dag, &vec!["lyrics".to_string()], &vec![], 1000 + 120, 2);
    assert_eq!(a, TickAction::Wait);
    assert_eq!(fresh.stages[0].record.status, StageStatus::RUNNING);
}

#[test]
fn unsatisfiable_graph_fails() {
    let mut st = new_run();
    let dag = cssmv_dag_v1();
    // lyrics succeeded but its output is gone, so nothing can start
    st.stages[0].record.status = StageStatus::SUCCEEDED;
    st.stages[0].record.outputs = vec!["/gone".to_string()];
    let a = supervise_tick(&mut st, &dag, &vec![], &vec![], 2000, 2);
    assert_eq!(a, TickAction::Finish(RunStatus::FAILED));
    assert_eq!(st.status, RunStatus::FAILED);
}
