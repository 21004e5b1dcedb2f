use crate::dag::{lemma_distinct_bound, lemma_names_push, names_of, DagNode};
use crate::ready::{first_deps, first_deps_of};
use crate::run_state::{find_stage, is_done_ok, status_of, wf, RunState, StageEntry, StageStatus};
use crate::sorting::{sort_names, sorted_names};
use vstd::prelude::*;

verus! {

/// Every stage of a run in one of four sets, each sorted by name.
#[derive(Debug, Clone)]
pub struct ReadyView {
    pub ready: Vec<String>,
    pub running: Vec<String>,
    pub blocked: Vec<String>,
    pub done: Vec<String>,
}

/// The dependencies of `name` in an edge list (none if it has no entry).
pub open spec fn edge_deps(deps: Seq<DagNode>, name: Seq<char>) -> Seq<Seq<char>> {
    match first_deps(deps, name) {
        Some(d) => d,
        None => Seq::empty(),
    }
}

/// Every dependency of `name` exists and is SUCCEEDED or SKIPPED.
pub open spec fn status_deps_ok(st: RunState, deps: Seq<DagNode>, name: Seq<char>) -> bool {
    forall|k: int|
        0 <= k < edge_deps(deps, name).len() ==> (status_of(st, #[trigger] edge_deps(deps, name)[k])
            matches Some(s) && is_done_ok(s))
}

/// Which of the four sets a stage belongs to: 0 ready, 1 running, 2 blocked, 3 done.
pub open spec fn set_of(st: RunState, deps: Seq<DagNode>, e: StageEntry) -> int {
    match e.record.status {
        StageStatus::RUNNING => 1,
        StageStatus::PENDING => if status_deps_ok(st, deps, e.name@) {
            0
        } else {
            2
        },
        _ => 3,
    }
}

/// Names of the stages among `s` that fall in set `which`, in order.
pub open spec fn names_in_set(st: RunState, deps: Seq<DagNode>, s: Seq<StageEntry>, which: int) -> Seq<
    Seq<char>,
>
    decreases s.len(),
{
    if s.len() == 0 {
        Seq::empty()
    } else {
        let rest = names_in_set(st, deps, s.drop_last(), which);
        if set_of(st, deps, s.last()) == which {
            rest.push(s.last().name@)
        } else {
            rest
        }
    }
}

/// Whether every dependency of `stage` in `deps` exists and is SUCCEEDED or SKIPPED.
pub fn deps_satisfied(stage: &str, st: &RunState, deps: &Vec<DagNode>) -> (r: bool)
    requires
        wf(*st),
    ensures
        r == status_deps_ok(*st, deps@, stage@),
{
    let ds = match first_deps_of(deps, stage) {
        Some(d) => d,
        None => {
            let v: Vec<String> = Vec::new();
            assert(names_of(v@) =~= Seq::<Seq<char>>::empty());
            v
        },
    };
    let mut k: usize = 0;
    while k < ds.len()
        invariant
            wf(*st),
            names_of(ds@) == edge_deps(deps@, stage@),
            k <= ds@.len(),
            forall|x: int|
                0 <= x < k ==> (status_of(*st, #[trigger] edge_deps(deps@, stage@)[x]) matches Some(
                    s,
                ) && is_done_ok(s)),
        decreases ds@.len() - k,
    {
        assert(names_of(ds@)[k as int] == ds@[k as int]@);
        match find_stage(st, ds[k].as_str()) {
            Some(i) => {
                let s = st.stages[i].record.status;
                if !(s == StageStatus::SUCCEEDED || s == StageStatus::SKIPPED) {
                    return false;
                }
            },
            None => {
                return false;
            },
        }
        k = k + 1;
    }
    true
}

/// Sorts the stages into ready, running, blocked and done, each by name.
pub fn compute_ready_view(st: &RunState, deps: &Vec<DagNode>) -> (v: ReadyView)
    requires
        wf(*st),
    ensures
        sorted_names(names_of(v.ready@)) && names_of(v.ready@).to_multiset() == names_in_set(
            *st,
            deps@,
            st.stages@,
            0,
        ).to_multiset(),
        sorted_names(names_of(v.running@)) && names_of(v.running@).to_multiset() == names_in_set(
            *st,
            deps@,
            st.stages@,
            1,
        ).to_multiset(),
        sorted_names(names_of(v.blocked@)) && names_of(v.blocked@).to_multiset() == names_in_set(
            *st,
            deps@,
            st.stages@,
            2,
        ).to_multiset(),
        sorted_names(names_of(v.done@)) && names_of(v.done@).to_multiset() == names_in_set(
            *st,
            deps@,
            st.stages@,
            3,
        ).to_multiset(),
{
    let mut ready: Vec<String> = Vec::new();
    let mut running: Vec<String> = Vec::new();
    let mut blocked: Vec<String> = Vec::new();
    let mut done: Vec<String> = Vec::new();
    let mut i: usize = 0;
    while i < st.stages.len()
        invariant
            wf(*st),
            i <= st.stages@.len(),
            names_of(ready@) == names_in_set(*st, deps@, st.stages@.take(i as int), 0),
            names_of(running@) == names_in_set(*st, deps@, st.stages@.take(i as int), 1),
            names_of(blocked@) == names_in_set(*st, deps@, st.stages@.take(i as int), 2),
            names_of(done@) == names_in_set(*st, deps@, st.stages@.take(i as int), 3),
        decreases st.stages@.len() - i,
    {
        let e = &st.stages[i];
        proof {
            assert(st.stages@.take(i + 1).drop_last() =~= st.stages@.take(i as int));
            assert(st.stages@.take(i + 1).last() == *e);
        }
        match e.record.status {
            StageStatus::RUNNING => {
                let ghost prev = running@;
                running.push(e.name.clone());
                proof {
                    lemma_names_push(prev, e.name);
                }
            },
            StageStatus::PENDING => {
                if deps_satisfied(e.name.as_str(), st, deps) {
                    let ghost prev = ready@;
                    ready.push(e.name.clone());
                    proof {
                        lemma_names_push(prev, e.name);
                    }
                } else {
                    let ghost prev = blocked@;
                    blocked.push(e.name.clone());
                    proof {
                        lemma_names_push(prev, e.name);
                    }
                }
            },
            _ => {
                let ghost prev = done@;
                done.push(e.name.clone());
                proof {
                    lemma_names_push(prev, e.name);
                }
            },
        }
        i = i + 1;
    }
    proof {
        assert(st.stages@.take(st.stages@.len() as int) =~= st.stages@);
    }
    ReadyView {
        ready: sort_names(ready),
        running: sort_names(running),
        blocked: sort_names(blocked),
        done: sort_names(done),
    }
}

/// `y` waits on `x` directly: some edge entry named `y` lists `x`.
pub open spec fn child_of(deps: Seq<DagNode>, x: Seq<char>, y: Seq<char>) -> bool {
    exists|k: int| 0 <= k < deps.len() && deps[k].name@ == y && names_of(deps[k].deps@).contains(x)
}

/// A chain of at least one edge, each name waiting on the one before it.
pub open spec fn is_dep_path(deps: Seq<DagNode>, p: Seq<Seq<char>>) -> bool {
    p.len() >= 2 && forall|i: int| 1 <= i < p.len() ==> #[trigger] child_of(deps, p[i - 1], p[i])
}

/// `y` is downstream of `start`: reached from it along one or more edges, and
/// not `start` itself.
pub open spec fn downstream(deps: Seq<DagNode>, start: Seq<char>, y: Seq<char>) -> bool {
    y != start && exists|p: Seq<Seq<char>>| #[trigger] is_dep_path(deps, p) && p[0] == start && p.last() == y
}

/// A stage record reset for a re-run: PENDING, no times, exit code, error or outputs.
pub open spec fn cleared(old_rec: crate::run_state::StageRecord, new_rec: crate::run_state::StageRecord) -> bool {
    &&& new_rec.status == StageStatus::PENDING
    &&& new_rec.started_at is None && new_rec.ended_at is None
    &&& new_rec.exit_code is None && new_rec.error is None
    &&& new_rec.outputs@.len() == 0
    &&& new_rec.retries == old_rec.retries
    &&& new_rec.command == old_rec.command
}

/// `d` is `start` or the name of a marked edge entry.
pub open spec fn is_source(deps: Seq<DagNode>, marks: Seq<bool>, start: Seq<char>, d: Seq<char>) -> bool {
    d == start || exists|q: int| 0 <= q < deps.len() && marks[q] && deps[q].name@ == d
}

/// Every entry that lists a source is marked.
pub open spec fn closed(deps: Seq<DagNode>, marks: Seq<bool>, start: Seq<char>) -> bool {
    forall|k: int, j: int|
        0 <= k < deps.len() && 0 <= j < deps[k].deps@.len() && is_source(
            deps,
            marks,
            start,
            #[trigger] deps[k].deps@[j]@,
        ) ==> marks[k]
}

/// Every marked entry is reached from `start` along one or more edges.
pub open spec fn marks_reachable(deps: Seq<DagNode>, marks: Seq<bool>, start: Seq<char>) -> bool {
    forall|k: int|
        0 <= k < deps.len() && #[trigger] marks[k] ==> exists|p: Seq<Seq<char>>|
            #[trigger] is_dep_path(deps, p) && p[0] == start && p.last() == deps[k].name@
}

fn source_check(d: &str, start: &str, deps: &Vec<DagNode>, marks: &Vec<bool>) -> (r: bool)
    requires
        marks@.len() == deps@.len(),
    ensures
        r == is_source(deps@, marks@, start@, d@),
{
    if crate::run_state::str_eq(d, start) {
        return true;
    }
    let mut q: usize = 0;
    while q < deps.len()
        invariant
            marks@.len() == deps@.len(),
            q <= deps@.len(),
            d@ != start@,
            forall|x: int| 0 <= x < q ==> !(marks@[x] && deps@[x].name@ == d@),
        decreases deps@.len() - q,
    {
        if marks[q] && crate::run_state::str_eq(deps[q].name.as_str(), d) {
            return true;
        }
        q = q + 1;
    }
    false
}

proof fn lemma_path_marked(
    deps: Seq<DagNode>,
    marks: Seq<bool>,
    start: Seq<char>,
    p: Seq<Seq<char>>,
    t: int,
)
    requires
        marks.len() == deps.len(),
        closed(deps, marks, start),
        is_dep_path(deps, p),
        p[0] == start,
        1 <= t < p.len(),
    ensures
        exists|q: int| 0 <= q < deps.len() && marks[q] && deps[q].name@ == p[t],
    decreases t,
{
    assert(child_of(deps, p[t - 1], p[t]));
    let k = choose|k: int|
        0 <= k < deps.len() && deps[k].name@ == p[t] && names_of(deps[k].deps@).contains(p[t - 1]);
    let j = choose|j: int| 0 <= j < names_of(deps[k].deps@).len() && names_of(deps[k].deps@)[j] == p[t - 1];
    assert(deps[k].deps@[j]@ == p[t - 1]);
    if t > 1 {
        lemma_path_marked(deps, marks, start, p, t - 1);
    }
    assert(is_source(deps, marks, start, deps[k].deps@[j]@));
    assert(marks[k]);
}

/// Puts every stage downstream of `start` (except RUNNING ones) back to
/// PENDING, clearing its times, exit code, error and outputs, so that it runs
/// again. `start` itself and all other stages are kept.
pub fn set_downstream_pending(st: &mut RunState, start: &str, deps: &Vec<DagNode>)
    requires
        wf(*old(st)),
    ensures
        wf(*final(st)),
        final(st).stages@.len() == old(st).stages@.len(),
        forall|i: int|
            0 <= i < old(st).stages@.len() ==> (#[trigger] final(st).stages@[i]).name == old(
                st,
            ).stages@[i].name,
        forall|i: int|
            0 <= i < old(st).stages@.len() ==> if downstream(deps@, start@, old(st).stages@[i].name@)
                && old(st).stages@[i].record.status != StageStatus::RUNNING {
                cleared(old(st).stages@[i].record, (#[trigger] final(st).stages@[i]).record)
            } else {
                final(st).stages@[i] == old(st).stages@[i]
            },
{
    let m = deps.len();
    let mut marked: Vec<usize> = Vec::new();
    let mut marks: Vec<bool> = Vec::new();
    let mut z: usize = 0;
    while z < m
        invariant
            z <= m,
            m == deps@.len(),
            marks@.len() == z,
            forall|x: int| 0 <= x < z ==> !marks@[x],
        decreases m - z,
    {
        marks.push(false);
        z = z + 1;
    }
    assert(marks_reachable(deps@, marks@, start@));
    loop
        invariant
            m == deps@.len(),
            marks@.len() == m,
            marked@.no_duplicates(),
            forall|p: int| 0 <= p < marked@.len() ==> marked@[p] < m,
            forall|k: int| 0 <= k < m ==> (marks@[k] <==> marked@.contains(k as usize)),
            marks_reachable(deps@, marks@, start@),
        ensures
            closed(deps@, marks@, start@),
            marks_reachable(deps@, marks@, start@),
            marks@.len() == m,
        decreases m - marked@.len(),
    {
        let mut changed = false;
        let ghost len0 = marked@.len();
        let mut k: usize = 0;
        while k < m
            invariant
                m == deps@.len(),
                marks@.len() == m,
                k <= m,
                marked@.no_duplicates(),
                forall|p: int| 0 <= p < marked@.len() ==> marked@[p] < m,
                forall|x: int| 0 <= x < m ==> (marks@[x] <==> marked@.contains(x as usize)),
                marks_reachable(deps@, marks@, start@),
                changed ==> marked@.len() > len0,
                !changed ==> marked@.len() == len0,
                !changed ==> forall|x: int, j: int|
                    0 <= x < k && 0 <= j < deps@[x].deps@.len() && is_source(
                        deps@,
                        marks@,
                        start@,
                        #[trigger] deps@[x].deps@[j]@,
                    ) ==> marks@[x],
            decreases m - k,
        {
            if !marks[k] {
                let ds = &deps[k].deps;
                let mut j: usize = 0;
                let mut hit = false;
                while j < ds.len() && !hit
                    invariant
                        marks@.len() == deps@.len(),
                        k < deps@.len(),
                        ds == deps@[k as int].deps,
                        j <= ds@.len(),
                        hit ==> j > 0 && is_source(deps@, marks@, start@, ds@[j - 1]@),
                        !hit ==> forall|y: int| 0 <= y < j ==> !is_source(deps@, marks@, start@, #[trigger] ds@[y]@),
                    decreases ds@.len() - j,
                {
                    if source_check(ds[j].as_str(), start, deps, &marks) {
                        hit = true;
                    }
                    j = j + 1;
                }
                if hit {
                    let ghost old_marks = marks@;
                    let ghost d = ds@[j - 1]@;
                    proof {
                        // a path to the new entry: from start directly, or through a marked one
                        let name = deps@[k as int].name@;
                        assert(names_of(deps@[k as int].deps@)[j - 1] == d);
                        assert(child_of(deps@, d, name));
                        if d == start@ {
                            let p = seq![start@, name];
                            assert(p[0] == start@ && p[1] == name);
                            assert(child_of(deps@, p[1 - 1], p[1]));
                            assert(is_dep_path(deps@, p));
                        } else {
                            let q = choose|q: int| 0 <= q < deps@.len() && old_marks[q] && deps@[q].name@ == d;
                            let p0 = choose|p: Seq<Seq<char>>|
                                #[trigger] is_dep_path(deps@, p) && p[0] == start@ && p.last() == deps@[q].name@;
                            let p = p0.push(name);
                            assert forall|i: int| 1 <= i < p.len() implies #[trigger] child_of(deps@, p[i - 1], p[i]) by {
                                if i < p0.len() {
                                    assert(child_of(deps@, p0[i - 1], p0[i]));
                                    assert(p[i - 1] == p0[i - 1] && p[i] == p0[i]);
                                } else {
                                    assert(p[i - 1] == d && p[i] == name);
                                }
                            }
                            assert(is_dep_path(deps@, p));
                            assert(p[0] == start@ && p.last() == name);
                        }
                        assert(!marked@.contains(k));
                        lemma_distinct_bound(marked@, m as int);
                    }
                    marks.set(k, true);
                    let ghost prev = marked@;
                    marked.push(k);
                    changed = true;
                    proof {
                        assert forall|x: int| 0 <= x < m implies (marks@[x] <==> marked@.contains(x as usize)) by {
                            if x != k {
                                if prev.contains(x as usize) {
                                    let y = choose|y: int| 0 <= y < prev.len() && prev[y] == x as usize;
                                    assert(marked@[y] == x as usize);
                                }
                                if marked@.contains(x as usize) {
                                    let y = choose|y: int| 0 <= y < marked@.len() && marked@[y] == x as usize;
                                    assert(y < prev.len());
                                    assert(prev[y] == x as usize);
                                }
                            } else {
                                assert(marked@[prev.len() as int] == k);
                            }
                        }
                        assert forall|x: int| 0 <= x < m && #[trigger] marks@[x] implies exists|p: Seq<Seq<char>>|
                            #[trigger] is_dep_path(deps@, p) && p[0] == start@ && p.last() == deps@[x].name@ by {
                            if x != k {
                                assert(old_marks[x]);
                            }
                        }
                    }
                } else {
                    proof {
                        assert forall|x: int, y: int|
                            0 <= x < k + 1 && 0 <= y < deps@[x].deps@.len() && is_source(
                                deps@,
                                marks@,
                                start@,
                                #[trigger] deps@[x].deps@[y]@,
                            ) && !changed implies marks@[x] by {
                            if x == k {
                                assert(!is_source(deps@, marks@, start@, ds@[y]@));
                            }
                        }
                    }
                }
            }
            k = k + 1;
        }
        proof {
            lemma_distinct_bound(marked@, m as int);
        }
        if !changed {
            break;
        }
    }
    // reset the stages named by marked entries
    let ghost st0 = *st;
    let n = st.stages.len();
    let mut i: usize = 0;
    while i < n
        invariant
            n == st.stages@.len(),
            n == st0.stages@.len(),
            *old(st) == st0,
            wf(st0),
            i <= n,
            marks@.len() == deps@.len(),
            closed(deps@, marks@, start@),
            marks_reachable(deps@, marks@, start@),
            forall|x: int| 0 <= x < n ==> (#[trigger] st.stages@[x]).name == st0.stages@[x].name,
            forall|x: int|
                0 <= x < n ==> if x < i && downstream(deps@, start@, st0.stages@[x].name@)
                    && st0.stages@[x].record.status != StageStatus::RUNNING {
                    cleared(st0.stages@[x].record, (#[trigger] st.stages@[x]).record)
                } else {
                    st.stages@[x] == st0.stages@[x]
                },
        decreases n - i,
    {
        let name = st.stages[i].name.as_str();
        let is_down = !crate::run_state::str_eq(name, start) && marked_name(name, deps, &marks);
        proof {
            let nm = st0.stages@[i as int].name@;
            if downstream(deps@, start@, nm) {
                let p = choose|p: Seq<Seq<char>>| #[trigger] is_dep_path(deps@, p) && p[0] == start@ && p.last() == nm;
                lemma_path_marked(deps@, marks@, start@, p, p.len() - 1);
            }
            if nm != start@ && (exists|q: int| 0 <= q < deps@.len() && marks@[q] && deps@[q].name@ == nm) {
                let q = choose|q: int| 0 <= q < deps@.len() && marks@[q] && deps@[q].name@ == nm;
                assert(marks_reachable(deps@, marks@, start@));
            }
        }
        if is_down && st.stages[i].record.status != StageStatus::RUNNING {
            let rec = &mut st.stages[i].record;
            rec.status = StageStatus::PENDING;
            rec.started_at = None;
            rec.ended_at = None;
            rec.exit_code = None;
            rec.error = None;
            rec.outputs = Vec::new();
        }
        i = i + 1;
    }
    proof {
        assert forall|a: int, b: int|
            0 <= a < st.stages@.len() && 0 <= b < st.stages@.len() && a != b implies st.stages@[a].name@
                != st.stages@[b].name@ by {
            assert(st.stages@[a].name == st0.stages@[a].name);
            assert(st.stages@[b].name == st0.stages@[b].name);
        }
    }
}

/// Whether `name` is the name of a marked edge entry.
fn marked_name(name: &str, deps: &Vec<DagNode>, marks: &Vec<bool>) -> (r: bool)
    requires
        marks@.len() == deps@.len(),
    ensures
        r == exists|q: int| 0 <= q < deps@.len() && marks@[q] && deps@[q].name@ == name@,
{
    let mut q: usize = 0;
    while q < deps.len()
        invariant
            marks@.len() == deps@.len(),
            q <= deps@.len(),
            forall|x: int| 0 <= x < q ==> !(marks@[x] && deps@[x].name@ == name@),
        decreases deps@.len() - q,
    {
        if marks[q] && crate::run_state::str_eq(deps[q].name.as_str(), name) {
            return true;
        }
        q = q + 1;
    }
    false
}

} // verus!
