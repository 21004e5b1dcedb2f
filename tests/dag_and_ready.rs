use cssmv_pipeline::artifacts::Artifacts;
use cssmv_pipeline::dag::{cssmv_dag_v1, Dag, DagError, DagNode};
use cssmv_pipeline::ready::{compute_ready_view_with_dag_limited, deps_for_stage, stage_ready};
use cssmv_pipeline::run_state::{
    DagMeta, RetryPolicy, RunConfig, RunState, RunStatus, StageEntry, StageRecord, StageStatus,
};

fn node(name: &str, deps: &[&str]) -> DagNode {
    DagNode { name: name.to_string(), deps: deps.iter().map(|d| d.to_string()).collect() }
}

fn record(status: StageStatus, outputs: &[&str]) -> StageRecord {
    StageRecord {
        status,
        started_at: None,
        ended_at: None,
        exit_code: None,
        command: None,
        outputs: outputs.iter().map(|o| o.to_string()).collect(),
        retries: 0,
        error: None,
        last_heartbeat_at: None,
        timeout_seconds: Some(1800),
    }
}

fn state(stages: Vec<(&str, StageStatus, &[&str])>, edges: Vec<DagNode>) -> RunState {
    RunState {
        schema: "css.pipeline.run.v1".to_string(),
        run_id: "run_a".to_string(),
        created_at: 0,
        updated_at: 0,
        status: RunStatus::RUNNING,
        last_heartbeat_at: None,
        stuck_timeout_seconds: Some(120),
        cancel_requested: false,
        ui_lang: "en".to_string(),
        tier: "free".to_string(),
        cssl: "css".to_string(),
        config: RunConfig {
            out_dir: "/out".to_string(),
            wiki_enabled: true,
            civ_linked: true,
            heartbeat_interval_seconds: 2,
            stage_timeout_seconds: 1800,
            stuck_timeout_seconds: 120,
        },
        retry_policy: RetryPolicy {
            max_retries: 3,
            backoff_base_seconds: 2,
            strategy: "exponential".to_string(),
        },
        dag: DagMeta { schema: "css.pipeline.dag.v1".to_string() },
        topo_order: stages.iter().map(|s| s.0.to_string()).collect(),
        dag_edges: edges,
        stages: stages
            .into_iter()
            .map(|(n, s, o)| StageEntry { name: n.to_string(), record: record(s, o) })
            .collect(),
        artifacts: Artifacts::new(),
        video_shots_total: None,
    }
}

fn strs(v: &[&str]) -> Vec<String> {
    v.iter().map(|s| s.to_string()).collect()
}

#[test]
fn template_topo_order_follows_dependencies() {
    let order = cssmv_dag_v1().topo_order().unwrap();
    assert_eq!(
        order,
        strs(&["lyrics", "music", "vocals", "video_plan", "video_assemble", "render"])
    );
}

#[test]
fn topo_order_breaks_ties_lexicographically() {
    let dag = Dag { nodes: vec![node("b", &[]), node("c", &["a"]), node("a", &[])] };
    assert_eq!(dag.topo_order().unwrap(), strs(&["a", "b", "c"]));
}

#[test]
fn topo_order_is_permutation_respecting_edges() {
    let dag = Dag {
        nodes: vec![
            node("d", &["b", "c"]),
            node("c", &["a"]),
            node("b", &["a"]),
            node("a", &[]),
            node("e", &[]),
        ],
    };
    let order = dag.topo_order().unwrap();
    assert_eq!(order.len(), 5);
    let pos = |n: &str| order.iter().position(|x| x == n).unwrap();
    for n in &dag.nodes {
        for d in &n.deps {
            assert!(pos(d) < pos(&n.name));
        }
    }
}

#[test]
fn cyclic_dag_is_rejected() {
    let dag = Dag { nodes: vec![node("a", &["c"]), node("b", &["a"]), node("c", &["b"]), node("d", &[])] };
    assert!(matches!(dag.topo_order(), Err(DagError::CycleDetected)));
    let self_loop = Dag { nodes: vec![node("a", &["a"])] };
    assert!(matches!(self_loop.topo_order(), Err(DagError::CycleDetected)));
}

#[test]
fn unknown_dependency_is_named() {
    let dag = Dag { nodes: vec![node("a", &[]), node("b", &["a", "zzz"])] };
    match dag.topo_order() {
        Err(DagError::UnknownDependency { node, dep }) => {
            assert_eq!(node, "b");
            assert_eq!(dep, "zzz");
        }
        other => panic!("unexpected {:?}", other),
    }
}

#[test]
fn repeated_name_is_rejected() {
    let dag = Dag { nodes: vec![node("a", &[]), node("a", &[])] };
    assert!(matches!(dag.topo_order(), Err(DagError::CycleDetected)));
}

#[test]
fn stage_waits_for_unfinished_dependency() {
    let dag = cssmv_dag_v1();
    let st = state(
        vec![("lyrics", StageStatus::PENDING, &["l.json"]), ("music", StageStatus::PENDING, &[])],
        vec![],
    );
    let present = strs(&["l.json"]);
    assert!(stage_ready(&dag, &st, "lyrics", &present));
    assert!(!stage_ready(&dag, &st, "music", &present));
}

#[test]
fn stage_ready_after_dependency_succeeds_with_outputs() {
    let dag = cssmv_dag_v1();
    let st = state(
        vec![("lyrics", StageStatus::SUCCEEDED, &["l.json"]), ("music", StageStatus::PENDING, &[])],
        vec![],
    );
    assert!(stage_ready(&dag, &st, "music", &strs(&["l.json"])));
    // the output is re-verified: a missing file blocks the dependent again
    assert!(!stage_ready(&dag, &st, "music", &strs(&[])));
    // a skipped dependency counts as finished
    let st2 = state(
        vec![("lyrics", StageStatus::SKIPPED, &["l.json"]), ("music", StageStatus::PENDING, &[])],
        vec![],
    );
    assert!(stage_ready(&dag, &st2, "music", &strs(&["l.json"])));
    // a stage that is not PENDING is not ready
    let st3 = state(
        vec![("lyrics", StageStatus::SUCCEEDED, &[]), ("music", StageStatus::RUNNING, &[])],
        vec![],
    );
    assert!(!stage_ready(&dag, &st3, "music", &strs(&[])));
}

#[test]
fn failed_dependency_never_ready() {
    let dag = cssmv_dag_v1();
    let st = state(
        vec![("lyrics", StageStatus::FAILED, &[]), ("music", StageStatus::PENDING, &[])],
        vec![],
    );
    assert!(!stage_ready(&dag, &st, "music", &strs(&[])));
}

#[test]
fn shot_and_assembly_dependencies() {
    let dag = cssmv_dag_v1();
    let st = state(
        vec![
            ("video_plan", StageStatus::SUCCEEDED, &[]),
            ("video.shot:shot_001", StageStatus::PENDING, &[]),
            ("video.shot:shot_000", StageStatus::PENDING, &[]),
            ("video_assemble", StageStatus::PENDING, &[]),
        ],
        vec![],
    );
    assert_eq!(deps_for_stage(&dag, &st, "video.shot:shot_001"), strs(&["video_plan"]));
    assert_eq!(
        deps_for_stage(&dag, &st, "video_assemble"),
        strs(&["video.shot:shot_001", "video.shot:shot_000"])
    );
    let no_shots = state(vec![("video_assemble", StageStatus::PENDING, &[])], vec![]);
    assert_eq!(deps_for_stage(&dag, &no_shots, "video_assemble"), strs(&["video_plan"]));
    assert_eq!(
        deps_for_stage(&dag, &no_shots, "render"),
        strs(&["lyrics", "music", "vocals", "video_assemble"])
    );
    // run edges take precedence over the template
    let edged = state(vec![("render", StageStatus::PENDING, &[])], vec![node("render", &["lyrics"])]);
    assert_eq!(deps_for_stage(&dag, &edged, "render"), strs(&["lyrics"]));
}

#[test]
fn ready_view_counts_and_limits() {
    let dag = Dag {
        nodes: vec![node("a", &[]), node("b", &[]), node("c", &[]), node("d", &["a"]), node("e", &[])],
    };
    let st = state(
        vec![
            ("a", StageStatus::PENDING, &[]),
            ("b", StageStatus::PENDING, &[]),
            ("c", StageStatus::RUNNING, &[]),
            ("d", StageStatus::PENDING, &[]),
            ("e", StageStatus::SKIPPED, &[]),
        ],
        vec![],
    );
    let v = compute_ready_view_with_dag_limited(&st, &dag, 1, &vec![]);
    assert_eq!(v.ready, strs(&["a"]));
    assert_eq!(v.running, strs(&["c"]));
    assert_eq!(v.summary.total, 5);
    assert_eq!(v.summary.pending, 3);
    assert_eq!(v.summary.running, 1);
    assert_eq!(v.summary.skipped, 1);
    let all = compute_ready_view_with_dag_limited(&st, &dag, 64, &vec![]);
    assert_eq!(all.ready, strs(&["a", "b"]));
    let mut cancelled = st.clone();
    cancelled.cancel_requested = true;
    let none = compute_ready_view_with_dag_limited(&cancelled, &dag, 64, &vec![]);
    assert!(none.ready.is_empty());
    assert_eq!(none.running, strs(&["c"]));
}
