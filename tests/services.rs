use cssmv_pipeline::api::{ApiError, Problem};
use cssmv_pipeline::commands::{compile_from_dsl, compile_lowered, contains_str, DslError};
use cssmv_pipeline::events::{snapshot_from_state, EventBus, RunEvent};
use cssmv_pipeline::jobs::{reset_crashed_run, restore_incomplete_run, JobQueue};
use cssmv_pipeline::lease::LeaseTable;
use cssmv_pipeline::paths::{cache_path, join_path, run_dir, run_state_path, tmp_path};
use cssmv_pipeline::retry::{truncate_err, try_skip};
use cssmv_pipeline::run_state::{pending_record, RunStatus, StageStatus};
use cssmv_pipeline::runner::{finalize_status, init_run_state, init_stage_records};
use cssmv_pipeline::shots::{
    padded_shot_id, plan_shot_ids, shot_stage_name_from_storyboard_id,
    storyboard_id_from_shot_stage,
};
use cssmv_pipeline::video::VideoExecutor;
use cssmv_pipeline::dag::cssmv_dag_v1;

fn strs(v: &[&str]) -> Vec<String> {
    v.iter().map(|s| s.to_string()).collect()
}

#[test]
fn lease_is_exclusive_until_release_or_expiry() {
    let mut t = LeaseTable::new();
    assert!(t.try_acquire_lease("run_1", "w1", 30, 100));
    assert!(!t.try_acquire_lease("run_1", "w2", 30, 110));
    // the holder itself cannot take it twice either (set-if-absent)
    assert!(!t.try_acquire_lease("run_1", "w1", 30, 110));
    // another run is independent
    assert!(t.try_acquire_lease("run_2", "w2", 30, 110));
    // expired at 130
    assert!(t.try_acquire_lease("run_1", "w2", 30, 130));
    assert!(!t.renew_lease("run_1", "w1", 30, 131));
    assert!(t.renew_lease("run_1", "w2", 30, 131));
    // release by a non-holder keeps the lease
    t.release_lease("run_1", "w1");
    assert!(!t.try_acquire_lease("run_1", "w1", 30, 140));
    t.release_lease("run_1", "w2");
    assert!(t.try_acquire_lease("run_1", "w1", 30, 140));
}

#[test]
fn queue_is_fifo_and_claims_once() {
    let mut q = JobQueue::new();
    assert!(!q.uses_blocking_pop());
    q.push_run("a".to_string(), "free".to_string(), 5);
    q.defer_run("b".to_string(), "pro".to_string(), 2000, 6);
    q.push_run("a".to_string(), "free".to_string(), 7);
    assert_eq!(q.pop_run(), Some(("a".to_string(), Some(5))));
    assert_eq!(q.pop_run(), Some(("b".to_string(), Some(6))));
    assert_eq!(q.pop_run(), Some(("a".to_string(), None)));
    assert_eq!(q.pop_run(), None);
    assert!(q.claim_run("a"));
    assert!(!q.claim_run("a"));
    assert!(q.claim_run("b"));
    assert_eq!(q.queued_or_running_count(), 2);
    q.release_run("a");
    assert_eq!(q.queued_or_running_count(), 1);
    assert!(q.claim_run("a"));
}

#[test]
fn recovery_resets_running_stage_and_requeues() {
    let mut st = init_run_state("run_9".to_string(), "en".to_string(), "pro".to_string(), "css".to_string(), 10);
    st.status = RunStatus::RUNNING;
    st.stages[0].record.status = StageStatus::SUCCEEDED;
    st.stages[1].record.status = StageStatus::RUNNING;
    st.stages[1].record.started_at = Some(20);
    st.stages[1].record.error = Some("x".to_string());
    st.stages[2].record.status = StageStatus::FAILED;
    let mut q = JobQueue::new();
    assert!(restore_incomplete_run(&mut st, &mut q, 50));
    assert_eq!(st.stages[0].record.status, StageStatus::SUCCEEDED);
    assert_eq!(st.stages[1].record.status, StageStatus::PENDING);
    assert_eq!(st.stages[1].record.started_at, None);
    assert_eq!(st.stages[1].record.error, None);
    assert_eq!(st.stages[2].record.status, StageStatus::FAILED);
    assert_eq!(st.updated_at, 50);
    assert_eq!(q.pop_run(), Some(("run_9".to_string(), Some(50))));
    // already claimed: reset but not enqueued again
    let mut st2 = init_run_state("run_9".to_string(), "en".to_string(), "pro".to_string(), "css".to_string(), 10);
    st2.status = RunStatus::RUNNING;
    st2.stages[3].record.status = StageStatus::RUNNING;
    assert!(!restore_incomplete_run(&mut st2, &mut q, 60));
    assert_eq!(st2.stages[3].record.status, StageStatus::PENDING);
    assert_eq!(q.pop_run(), None);
    // a run that ended is left alone
    let mut done = init_run_state("run_8".to_string(), "en".to_string(), "pro".to_string(), "css".to_string(), 10);
    done.status = RunStatus::FAILED;
    done.stages[1].record.status = StageStatus::RUNNING;
    assert!(!reset_crashed_run(&mut done, 70));
    assert_eq!(done.stages[1].record.status, StageStatus::RUNNING);
    assert_eq!(done.updated_at, 10);
}

#[test]
fn skip_when_outputs_exist() {
    let mut rec = pending_record(strs(&["/o/a", "/o/b"]), Some(1800));
    assert!(!try_skip(&mut rec, &strs(&["/o/a"])));
    assert_eq!(rec.status, StageStatus::PENDING);
    assert!(try_skip(&mut rec, &strs(&["/o/b", "/o/a"])));
    assert_eq!(rec.status, StageStatus::SKIPPED);
    let mut none = pending_record(vec![], None);
    assert!(!try_skip(&mut none, &strs(&["/o/a"])));
}

#[test]
fn error_text_is_truncated() {
    let long = "é".repeat(5000);
    let t = truncate_err(&long);
    assert_eq!(t.chars().count(), 4000 + "...(truncated)".len());
    assert!(t.ends_with("...(truncated)"));
    assert_eq!(truncate_err("short"), "short");
    let exact = "x".repeat(4000);
    assert_eq!(truncate_err(&exact), exact);
}

#[test]
fn dsl_compiles_case_insensitively() {
    let c = compile_from_dsl("CSS: Lyrics() MUSIC() vocals() Video() render()").unwrap();
    assert_eq!(c.music, "mkdir -p ./build && : > ./build/music.wav");
    assert_eq!(c.command_for("video_plan").unwrap(), c.video);
    assert_eq!(c.command_for("video_shot_003").unwrap(), c.video);
    assert_eq!(c.command_for("render").unwrap(), c.render);
    assert_eq!(c.command_for("mix").unwrap_err(), "missing command for stage=mix");
    assert_eq!(compile_from_dsl("lyrics() music()").unwrap_err(), DslError::MissingPrefix);
    assert_eq!(
        compile_from_dsl("css lyrics() music() video() render()").unwrap_err(),
        DslError::MissingToken("vocals()".to_string())
    );
    assert!(compile_lowered("CSS lyrics() music() vocals() video() render()").is_err());
    assert!(contains_str("abcabd", "abd"));
    assert!(!contains_str("ab", "abc"));
}

#[test]
fn shot_ids_are_clamped_and_padded() {
    assert_eq!(padded_shot_id(7), "video_shot_007");
    assert_eq!(padded_shot_id(123), "video_shot_123");
    let few = plan_shot_ids(&strs(&["x", "y", "z"]));
    assert_eq!(few.len(), 8);
    assert_eq!(&few[..3], &strs(&["x", "y", "z"])[..]);
    assert_eq!(few[3], "video_shot_003");
    assert_eq!(few[7], "video_shot_007");
    let many: Vec<String> = (0..40).map(|i| format!("s{}", i)).collect();
    let cut = plan_shot_ids(&many);
    assert_eq!(cut.len(), 36);
    assert_eq!(cut[35], "s35");
    assert_eq!(shot_stage_name_from_storyboard_id("video_shot_007"), "video.shot:shot_007");
    assert_eq!(shot_stage_name_from_storyboard_id("intro"), "video.shot:intro");
    assert_eq!(storyboard_id_from_shot_stage("video.shot:shot_007"), Some("video_shot_007".to_string()));
    assert_eq!(storyboard_id_from_shot_stage("video_shot_002"), Some("video_shot_002".to_string()));
    assert_eq!(storyboard_id_from_shot_stage("video.shot:intro"), Some("intro".to_string()));
    assert_eq!(storyboard_id_from_shot_stage("render"), None);
}

#[test]
fn shot_patch_is_idempotent() {
    let mut st = init_run_state("r".to_string(), "en".to_string(), "free".to_string(), "css".to_string(), 0);
    let ids = strs(&["video_shot_000", "video_shot_001"]);
    assert!(cssmv_pipeline::shots::apply_shot_patch(&mut st, &ids));
    assert_eq!(st.stages.len(), 6 + 8);
    let before = st.topo_order.clone();
    assert!(!cssmv_pipeline::shots::apply_shot_patch(&mut st, &ids));
    assert_eq!(st.topo_order, before);
    assert_eq!(st.stages.len(), 14);
    let assemble = st.dag_edges.iter().find(|n| n.name == "video_assemble").unwrap();
    assert_eq!(assemble.deps.len(), 8);
    assert_eq!(
        st.stages[6].record.outputs,
        strs(&["./build/build/video/shots/video_shot_000.mp4"])
    );
}

#[test]
fn paths_join_with_one_separator() {
    assert_eq!(join_path("/runs", "a"), "/runs/a");
    assert_eq!(join_path("/runs/", "a"), "/runs/a");
    assert_eq!(join_path("", "a"), "a");
    assert_eq!(run_dir("/srv/runs", "run_1"), "/srv/runs/run_1");
    assert_eq!(run_state_path("/srv/runs", "run_1"), "/srv/runs/run_1/run.json");
    assert_eq!(tmp_path("/srv/runs/run_1/run.json"), "/srv/runs/run_1/run.json.tmp");
    assert_eq!(cache_path("/c", "abc"), "/c/video_cache/abc.mp4");
    let v = VideoExecutor::with_options("/o".to_string(), 0, false);
    assert_eq!(v.concurrency, 1);
    assert_eq!(v.build_dir(), "/o/build");
    assert_eq!(v.storyboard_path(), "/o/build/storyboard.json");
    assert_eq!(v.video_dir(), "/o/build/video");
    assert_eq!(v.shots_dir(), "/o/build/video/shots");
    assert_eq!(v.assembled_video_path(), "/o/build/video/video.mp4");
}

#[test]
fn api_errors_carry_code_and_status() {
    let e = ApiError::bad_request("E_INPUT", "missing field");
    assert_eq!(e, ApiError::BadRequest("E_INPUT: missing field".to_string()));
    assert_eq!(e.status_code(), 400);
    assert_eq!(ApiError::not_found("N", "m").status_code(), 404);
    assert_eq!(ApiError::conflict("C", "m").status_code(), 409);
    assert_eq!(ApiError::unprocessable("U", "m").status_code(), 422);
    assert_eq!(ApiError::too_many_requests("T", "m").status_code(), 429);
    let i = ApiError::internal("I", "m");
    assert_eq!(i.clone().with_instance("/x").with_request_id("r"), i);
    let p = Problem::new(404, "Not Found").detail("gone").instance("/runs/1").request_id("rid");
    assert_eq!(p.kind, "about:blank");
    assert_eq!(p.status, 404);
    assert_eq!(p.detail.as_deref(), Some("gone"));
    assert_eq!(p.instance.as_deref(), Some("/runs/1"));
    assert_eq!(p.request_id.as_deref(), Some("rid"));
}

#[test]
fn event_bus_drops_oldest_for_slow_subscribers() {
    let st = init_run_state("r".to_string(), "en".to_string(), "free".to_string(), "css".to_string(), 5);
    let dag = cssmv_dag_v1();
    let snap = snapshot_from_state(&st, &dag, 2, &vec![]);
    assert_eq!(snap.run_id, "r");
    assert_eq!(snap.dag.nodes_total, 6);
    assert_eq!(snap.dag.concurrency, 2);
    assert_eq!(snap.ready, strs(&["lyrics"]));
    assert_eq!(snap.summary.pending, 6);
    assert!(snap.video_shots.is_none());
    let mut bus = EventBus::new(2);
    let sub = bus.subscribe();
    for _ in 0..3 {
        bus.emit(RunEvent::Snapshot(snap.clone()));
    }
    assert_eq!(bus.backlog.len(), 2);
    let (ev, next) = bus.recv(sub);
    assert!(ev.is_some());
    assert_eq!(next, 2);
    let (ev, next) = bus.recv(next);
    assert!(ev.is_some());
    assert_eq!(next, 3);
    let (ev, next) = bus.recv(next);
    assert!(ev.is_none());
    assert_eq!(next, 3);
}

#[test]
fn template_records_and_final_status() {
    let recs = init_stage_records();
    let names: Vec<&str> = recs.iter().map(|e| e.name.as_str()).collect();
    assert_eq!(names, vec!["lyrics", "music", "vocals", "video_plan", "video_assemble", "render"]);
    let mut st = init_run_state("r".to_string(), "en".to_string(), "free".to_string(), "css".to_string(), 5);
    st.status = RunStatus::RUNNING;
    for e in st.stages.iter_mut() {
        e.record.status = StageStatus::SKIPPED;
    }
    finalize_status(&mut st, 9);
    assert_eq!(st.status, RunStatus::SUCCEEDED);
    st.status = RunStatus::RUNNING;
    st.cancel_requested = true;
    finalize_status(&mut st, 9);
    assert_eq!(st.status, RunStatus::CANCELLED);
}
