use cssmv_pipeline::dag::DagNode;
use cssmv_pipeline::artifacts::{normalize_path, Artifacts};
use cssmv_pipeline::cache::compute_video_cache_key;
use cssmv_pipeline::commands::{compile_from_dsl, is_video_stage, stage_plan};
use cssmv_pipeline::dag::cssmv_dag_v1;
use cssmv_pipeline::run_state::{ensure_stage, StageStatus};
use cssmv_pipeline::runner::{init_run_state, next_sequential_stage, SequentialAction};
use cssmv_pipeline::settings::{concurrency, concurrency_limit, parse_usize};
use cssmv_pipeline::status_text::{is_done, is_pending};
use cssmv_pipeline::timeutil::{clamp_epoch_seconds, parse_rfc3339_to_epoch_seconds};

#[test]
fn sequential_runner_steps() {
    let dag = cssmv_dag_v1();
    let mut st = init_run_state("r".to_string(), "en".to_string(), "free".to_string(), "css".to_string(), 0);
    assert_eq!(next_sequential_stage(&st, &dag, &vec![]), SequentialAction::Execute("lyrics".to_string()));
    st.stages[0].record.outputs = vec!["/o/l".to_string()];
    assert_eq!(
        next_sequential_stage(&st, &dag, &vec!["/o/l".to_string()]),
        SequentialAction::Skip("lyrics".to_string())
    );
    st.stages[0].record.status = StageStatus::SUCCEEDED;
    assert_eq!(next_sequential_stage(&st, &dag, &vec![]), SequentialAction::Blocked("music".to_string()));
    assert_eq!(
        next_sequential_stage(&st, &dag, &vec!["/o/l".to_string()]),
        SequentialAction::Execute("music".to_string())
    );
    for e in st.stages.iter_mut() {
        e.record.status = StageStatus::SUCCEEDED;
    }
    assert_eq!(next_sequential_stage(&st, &dag, &vec![]), SequentialAction::Done);
}

#[test]
fn ensure_stage_adds_once() {
    let mut st = init_run_state("r".to_string(), "en".to_string(), "free".to_string(), "css".to_string(), 0);
    ensure_stage(&mut st, "extra");
    assert_eq!(st.stages.len(), 7);
    assert_eq!(st.stages[6].name, "extra");
    assert_eq!(st.stages[6].record.status, StageStatus::PENDING);
    ensure_stage(&mut st, "extra");
    ensure_stage(&mut st, "music");
    assert_eq!(st.stages.len(), 7);
}

#[test]
fn settings_parse_like_from_str() {
    assert_eq!(parse_usize("42"), Some(42));
    assert_eq!(parse_usize("+7"), Some(7));
    assert_eq!(parse_usize(""), None);
    assert_eq!(parse_usize("+"), None);
    assert_eq!(parse_usize("-1"), None);
    assert_eq!(parse_usize("4x"), None);
    assert_eq!(parse_usize("18446744073709551615"), Some(usize::MAX));
    assert_eq!(parse_usize("18446744073709551616"), None);
    assert_eq!(concurrency(Some("8")), 8);
    assert_eq!(concurrency(Some("65")), 2);
    assert_eq!(concurrency(Some("0")), 2);
    assert_eq!(concurrency(None), 2);
    assert_eq!(concurrency_limit(Some("100")), 100);
    assert_eq!(concurrency_limit(Some("zero")), 2);
}

#[test]
fn status_text_reading() {
    assert!(is_done("succeeded"));
    assert!(is_done("Done"));
    assert!(is_done("ok"));
    assert!(!is_done("okay"));
    assert!(!is_done("failed"));
    assert!(is_pending("pending"));
    assert!(is_pending("Unknown"));
    assert!(!is_pending("running"));
}

#[test]
fn stage_plan_lists_outputs() {
    let c = compile_from_dsl("css lyrics() music() vocals() video() render()").unwrap();
    let (cmd, outs) = stage_plan(&c, "music").unwrap();
    assert_eq!(cmd, c.music);
    assert_eq!(outs, vec!["./build/music.wav".to_string()]);
    let (cmd, outs) = stage_plan(&c, "video_assemble").unwrap();
    assert_eq!(cmd, "echo video assemble by internal dispatch");
    assert_eq!(outs, vec!["./build/video/video.mp4".to_string()]);
    assert!(stage_plan(&c, "video.shot:shot_001").is_none());
    assert!(is_video_stage("video.shot:shot_001"));
    assert!(is_video_stage("video_plan"));
    assert!(!is_video_stage("render"));
}

#[test]
fn rfc3339_timestamps() {
    assert_eq!(parse_rfc3339_to_epoch_seconds("1970-01-01T00:00:00Z"), Some(0));
    assert_eq!(parse_rfc3339_to_epoch_seconds("2024-01-01T00:00:10+00:00"), Some(1704067210));
    assert_eq!(parse_rfc3339_to_epoch_seconds("1969-12-31T23:59:00Z"), Some(0));
    assert_eq!(parse_rfc3339_to_epoch_seconds("not a time"), None);
    assert_eq!(clamp_epoch_seconds(Some(-5)), Some(0));
    assert_eq!(clamp_epoch_seconds(Some(5)), Some(5));
    assert_eq!(clamp_epoch_seconds(None), None);
}

#[test]
fn video_cache_key_is_sha256_hex() {
    let k = compute_video_cache_key(b"abc");
    assert_eq!(k, "ba7816bf8f01cfea414140de5dae2223b00361a396177a9cb410ff61f20015ad");
    assert_eq!(compute_video_cache_key(b"").len(), 64);
}

#[test]
fn artifacts_are_a_dot_path_tree() {
    assert_eq!(normalize_path(".video..storyboard."), "video.storyboard");
    assert_eq!(normalize_path("..."), "");
    let mut a = Artifacts::new();
    a.set_artifact_path("video.storyboard", "\"sb.json\"".to_string());
    a.set_artifact_path("video.shots_count", "8".to_string());
    assert_eq!(a.entries.len(), 2);
    // an object replaced by a value drops what it held
    a.set_artifact_path("video", "null".to_string());
    assert_eq!(a.entries, vec![("video".to_string(), "null".to_string())]);
    // a value replaced by an object
    a.set_artifact_path("video.mp4", "\"v.mp4\"".to_string());
    assert_eq!(a.entries, vec![("video.mp4".to_string(), "\"v.mp4\"".to_string())]);
    // "videos" is not under "video"
    a.set_artifact_path("videos", "1".to_string());
    assert_eq!(a.entries.len(), 2);
    a.set_artifact_path("..", "2".to_string());
    assert_eq!(a.entries.len(), 2);
}

#[test]
fn names_sort_lexicographically() {
    let v = cssmv_pipeline::sorting::sort_names(vec![
        "video_shot_010".to_string(),
        "b".to_string(),
        "video_shot_002".to_string(),
        "a".to_string(),
        "ab".to_string(),
        "b".to_string(),
    ]);
    assert_eq!(v, vec!["a", "ab", "b", "b", "video_shot_002", "video_shot_010"]);
}

#[test]
fn four_set_view_of_a_run() {

    let mut st = init_run_state("r".to_string(), "en".to_string(), "free".to_string(), "css".to_string(), 0);
    let deps: Vec<DagNode> = st.dag_edges.clone();
    st.stages[0].record.status = StageStatus::SUCCEEDED;
    st.stages[1].record.status = StageStatus::RUNNING;
    let v = cssmv_pipeline::dag_runtime::compute_ready_view(&st, &deps);
    assert_eq!(v.ready, Vec::<String>::new());
    assert_eq!(v.running, vec!["music"]);
    assert_eq!(v.blocked, vec!["render", "video_assemble", "video_plan", "vocals"]);
    assert_eq!(v.done, vec!["lyrics"]);
    st.stages[1].record.status = StageStatus::SKIPPED;
    let v = cssmv_pipeline::dag_runtime::compute_ready_view(&st, &deps);
    assert_eq!(v.ready, vec!["vocals"]);
    assert_eq!(v.done, vec!["lyrics", "music"]);
    assert!(cssmv_pipeline::dag_runtime::deps_satisfied("vocals", &st, &deps));
    assert!(!cssmv_pipeline::dag_runtime::deps_satisfied("render", &st, &deps));
    assert!(cssmv_pipeline::dag_runtime::deps_satisfied("not_in_edges", &st, &deps));
}

#[test]
fn legacy_order_sorts_shots() {
    let mut st = init_run_state("r".to_string(), "en".to_string(), "free".to_string(), "css".to_string(), 0);
    ensure_stage(&mut st, "video_shot_002");
    ensure_stage(&mut st, "video_shot_000");
    ensure_stage(&mut st, "video.shot:other");
    let order = cssmv_pipeline::runner::topo_order_v1(&st);
    assert_eq!(
        order,
        vec![
            "lyrics", "music", "vocals", "video_plan", "video_shot_000", "video_shot_002",
            "video_assemble", "render"
        ]
    );
}

#[test]
fn downstream_stages_reset_for_rerun() {
    let mut st = init_run_state("r".to_string(), "en".to_string(), "free".to_string(), "css".to_string(), 0);
    let deps: Vec<DagNode> = st.dag_edges.clone();
    for e in st.stages.iter_mut() {
        e.record.status = StageStatus::SUCCEEDED;
        e.record.outputs = vec![format!("/o/{}", e.name)];
        e.record.error = Some("old".to_string());
    }
    st.stages[3].record.status = StageStatus::RUNNING; // video_plan
    cssmv_pipeline::dag_runtime::set_downstream_pending(&mut st, "music", &deps);
    let get = |n: &str| st.stages.iter().find(|e| e.name == n).unwrap().record.clone();
    assert_eq!(get("lyrics").status, StageStatus::SUCCEEDED);
    assert_eq!(get("music").status, StageStatus::SUCCEEDED);
    assert_eq!(get("music").outputs, vec!["/o/music".to_string()]);
    assert_eq!(get("vocals").status, StageStatus::PENDING);
    assert!(get("vocals").outputs.is_empty());
    assert_eq!(get("vocals").error, None);
    assert_eq!(get("video_plan").status, StageStatus::RUNNING);
    assert_eq!(get("video_assemble").status, StageStatus::PENDING);
    assert_eq!(get("render").status, StageStatus::PENDING);
}

#[test]
fn settle_without_declared_outputs_succeeds() {
    let mut rec = cssmv_pipeline::run_state::pending_record(vec![], None);
    cssmv_pipeline::retry::settle_stage(&mut rec, true, &vec![], 5);
    assert_eq!(rec.status, StageStatus::SUCCEEDED);
    let mut missing = cssmv_pipeline::run_state::pending_record(vec!["/o/x".to_string()], None);
    cssmv_pipeline::retry::settle_stage(&mut missing, true, &vec![], 5);
    assert_eq!(missing.status, StageStatus::FAILED);
}

#[test]
fn stuck_check_falls_back_to_run_heartbeat() {
    let mut st = init_run_state("r".to_string(), "en".to_string(), "free".to_string(), "css".to_string(), 0);
    st.stages[0].record.status = StageStatus::RUNNING;
    st.last_heartbeat_at = Some(100);
    assert!(cssmv_pipeline::runner::stage_stuck(&st, 0, 221));
    assert!(!cssmv_pipeline::runner::stage_stuck(&st, 0, 220));
    st.stages[0].record.last_heartbeat_at = Some(200);
    assert!(!cssmv_pipeline::runner::stage_stuck(&st, 0, 221));
    assert!(!cssmv_pipeline::runner::stage_stuck(&st, 1, 1000));
}

#[test]
fn shot_patch_orders_and_links_shots() {
    let mut st = init_run_state("r".to_string(), "en".to_string(), "free".to_string(), "css".to_string(), 0);
    let ids: Vec<String> = (0..10).map(|i| format!("video_shot_{:03}", i)).collect();
    assert!(cssmv_pipeline::shots::apply_shot_patch(&mut st, &ids));
    assert_eq!(st.topo_order.len(), 6 + 10);
    assert_eq!(st.topo_order[4], "video.shot:shot_000");
    assert_eq!(st.topo_order[13], "video.shot:shot_009");
    assert_eq!(st.topo_order[14], "video_assemble");
    let edge = |n: &str| st.dag_edges.iter().find(|e| e.name == n).unwrap().deps.clone();
    assert_eq!(edge("video.shot:shot_004"), vec!["video_plan".to_string()]);
    assert_eq!(edge("video_assemble").len(), 10);
    assert_eq!(edge("render"), vec!["lyrics", "music", "vocals", "video_assemble"]);
    assert!(cssmv_pipeline::run_state::stages_unique(&st));
    ensure_stage(&mut st, "render");
    assert!(cssmv_pipeline::run_state::stages_unique(&st));
    st.stages.push(st.stages[0].clone());
    assert!(!cssmv_pipeline::run_state::stages_unique(&st));
}
