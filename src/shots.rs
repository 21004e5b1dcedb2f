use crate::dag::{is_prefix_of, lemma_names_push, names_of, starts_with, DagNode};
use crate::ready::{first_deps, is_shot_name, set_edge, shot_names, shot_stage_names};
use crate::run_state::{pending_record, stage_names_of, str_eq, wf, RunState, StageEntry, StageStatus};
use vstd::prelude::*;

verus! {

/// Fewest shot stages a run gets.
pub const MIN_SHOTS: usize = 8;

/// Most shot stages a run gets.
pub const MAX_SHOTS: usize = 36;

/// Decimal digit `d` as a character.
pub open spec fn digit_char(d: nat) -> char {
    ((d % 10) + 48) as u8 as char
}

/// `i` written with exactly three decimal digits.
pub open spec fn three_digits(i: nat) -> Seq<char> {
    seq![digit_char(i / 100), digit_char((i / 10) % 10), digit_char(i % 10)]
}

fn digit_str(d: usize) -> (r: &'static str)
    requires
        d < 10,
    ensures
        r@ == seq![digit_char(d as nat)],
{
    proof {
        reveal_strlit("0");
        reveal_strlit("1");
        reveal_strlit("2");
        reveal_strlit("3");
        reveal_strlit("4");
        reveal_strlit("5");
        reveal_strlit("6");
        reveal_strlit("7");
        reveal_strlit("8");
        reveal_strlit("9");
    }
    let r = if d == 0 {
        "0"
    } else if d == 1 {
        "1"
    } else if d == 2 {
        "2"
    } else if d == 3 {
        "3"
    } else if d == 4 {
        "4"
    } else if d == 5 {
        "5"
    } else if d == 6 {
        "6"
    } else if d == 7 {
        "7"
    } else if d == 8 {
        "8"
    } else {
        "9"
    };
    assert(r@ =~= seq![digit_char(d as nat)]);
    r
}

/// The storyboard id of generated shot `i`: `video_shot_` and three digits.
pub fn padded_shot_id(i: usize) -> (r: String)
    requires
        i < 1000,
    ensures
        r@ == "video_shot_"@ + three_digits(i as nat),
{
    let mut s = String::from_str("video_shot_");
    s.append(digit_str(i / 100));
    s.append(digit_str((i / 10) % 10));
    s.append(digit_str(i % 10));
    assert(s@ =~= "video_shot_"@ + three_digits(i as nat));
    s
}

/// Number of shot stages for a storyboard of `n` shots: `n` clamped to 8..=36.
pub open spec fn clamp_shots(n: nat) -> nat {
    if n < MIN_SHOTS {
        MIN_SHOTS as nat
    } else if n > MAX_SHOTS {
        MAX_SHOTS as nat
    } else {
        n
    }
}

/// The shot ids a run gets: the storyboard's ids, cut to 36 or padded with
/// generated ids up to 8.
pub open spec fn shot_plan(ids: Seq<Seq<char>>) -> Seq<Seq<char>> {
    let n = clamp_shots(ids.len());
    if ids.len() >= n {
        ids.take(n as int)
    } else {
        ids + Seq::new(
            (n - ids.len()) as nat,
            |j: int| "video_shot_"@ + three_digits((ids.len() + j) as nat),
        )
    }
}

/// Clamps or pads the storyboard's shot ids to the shot count of the run.
pub fn plan_shot_ids(ids: &Vec<String>) -> (r: Vec<String>)
    ensures
        names_of(r@) == shot_plan(names_of(ids@)),
        r@.len() == clamp_shots(ids@.len()),
{
    let len = ids.len();
    let n = if len < MIN_SHOTS {
        MIN_SHOTS
    } else if len > MAX_SHOTS {
        MAX_SHOTS
    } else {
        len
    };
    let mut out: Vec<String> = Vec::new();
    let mut i: usize = 0;
    let ghost plan = shot_plan(names_of(ids@));
    while i < n
        invariant
            n == clamp_shots(len as nat),
            len == ids@.len(),
            plan == shot_plan(names_of(ids@)),
            plan.len() == n,
            i <= n,
            names_of(out@) == plan.take(i as int),
        decreases n - i,
    {
        let ghost prev = out@;
        if i < len {
            out.push(ids[i].clone());
            proof {
                lemma_names_push(prev, ids@[i as int]);
                assert(plan[i as int] == ids@[i as int]@);
            }
        } else {
            out.push(padded_shot_id(i));
            proof {
                lemma_names_push(prev, out@.last());
                assert(plan[i as int] == "video_shot_"@ + three_digits(i as nat));
            }
        }
        assert(names_of(out@) =~= plan.take(i + 1));
        i = i + 1;
    }
    assert(plan.take(n as int) =~= plan);
    out
}

/// The stage name of the shot with storyboard id `id`.
pub open spec fn shot_stage_spec(id: Seq<char>) -> Seq<char> {
    if is_prefix_of("video_shot_"@, id) {
        "video.shot:shot_"@ + id.skip("video_shot_"@.len() as int)
    } else {
        "video.shot:"@ + id
    }
}

/// Stage name of a storyboard shot: `video_shot_007` becomes
/// `video.shot:shot_007`, any other id `x` becomes `video.shot:x`.
pub fn shot_stage_name_from_storyboard_id(id: &str) -> (r: String)
    ensures
        r@ == shot_stage_spec(id@),
        is_shot_name(r@),
{
    proof {
        reveal_strlit("video_shot_");
        reveal_strlit("video.shot:shot_");
        reveal_strlit("video.shot:");
    }
    let r = if starts_with(id, "video_shot_") {
        let rest = id.substring_char(11, id.unicode_len());
        let mut s = String::from_str("video.shot:shot_");
        s.append(rest);
        s
    } else {
        let mut s = String::from_str("video.shot:");
        s.append(id);
        s
    };
    assert(is_prefix_of("video.shot:"@, r@)) by {
        assert(r@.subrange(0, 11) =~= "video.shot:"@);
    }
    r
}

proof fn lemma_shot_stage_shape(x: Seq<char>)
    requires
        is_prefix_of("video_shot_"@, x),
    ensures
        shot_stage_spec(x) == "video.shot:shot_"@ + x.skip(11),
        x == "video_shot_"@ + x.skip(11),
        shot_stage_spec(x).skip(11) == "shot_"@ + x.skip(11),
{
    reveal_strlit("video_shot_");
    reveal_strlit("video.shot:shot_");
    reveal_strlit("shot_");
    assert(x =~= "video_shot_"@ + x.skip(11));
    assert(shot_stage_spec(x).skip(11) =~= "shot_"@ + x.skip(11));
}

proof fn lemma_plain_shot_shape(x: Seq<char>)
    requires
        !is_prefix_of("video_shot_"@, x),
    ensures
        shot_stage_spec(x) == "video.shot:"@ + x,
        shot_stage_spec(x).skip(11) == x,
        shot_stage_spec(x).len() >= 11,
        shot_stage_spec(x).take(11) == "video.shot:"@,
{
    reveal_strlit("video.shot:");
    assert(shot_stage_spec(x).skip(11) =~= x);
    assert(shot_stage_spec(x).take(11) =~= "video.shot:"@);
}

/// Storyboard id of a shot stage (`video.shot:shot_007` and `video_shot_007`
/// both give `video_shot_007`); `None` for a stage that is not a shot. It
/// inverts `shot_stage_name_from_storyboard_id` on ids of the `video_shot_` form.
pub fn storyboard_id_from_shot_stage(stage: &str) -> (r: Option<String>)
    ensures
        r is Some <==> is_shot_name(stage@),
        forall|x: Seq<char>|
            #![trigger shot_stage_spec(x)]
            stage@ == shot_stage_spec(x) && is_prefix_of("video_shot_"@, x) ==> (r matches Some(
                s,
            ) && s@ == x),
        forall|x: Seq<char>|
            #![trigger shot_stage_spec(x)]
            stage@ == shot_stage_spec(x) && !is_prefix_of("video_shot_"@, x) && !is_prefix_of(
                "shot_"@,
                x,
            ) ==> (r matches Some(s) && s@ == x),
{
    proof {
        reveal_strlit("video_shot_");
        reveal_strlit("video.shot:shot_");
        reveal_strlit("video.shot:");
        reveal_strlit("shot_");
    }
    if starts_with(stage, "video_shot_") {
        proof {
            assert forall|x: Seq<char>|
                #![trigger shot_stage_spec(x)]
                stage@ == shot_stage_spec(x) && is_prefix_of("video_shot_"@, x) implies false by {
                lemma_shot_stage_shape(x);
                assert(stage@[5] == "video_shot_"@[5]);
                assert(shot_stage_spec(x)[5] == "video.shot:shot_"@[5]);
            }
            assert forall|x: Seq<char>|
                #![trigger shot_stage_spec(x)]
                stage@ == shot_stage_spec(x) && !is_prefix_of("video_shot_"@, x) implies false by {
                lemma_plain_shot_shape(x);
                assert(stage@[5] == "video_shot_"@[5]);
                assert(shot_stage_spec(x).take(11)[5] == "video.shot:"@[5]);
            }
        }
        return Some(String::from_str(stage));
    }
    if starts_with(stage, "video.shot:") {
        let n = stage.unicode_len();
        let id = stage.substring_char(11, n);
        assert(id@ =~= stage@.skip(11));
        if starts_with(id, "video_shot_") {
            proof {
                assert forall|x: Seq<char>|
                    #![trigger shot_stage_spec(x)]
                    stage@ == shot_stage_spec(x) && is_prefix_of("video_shot_"@, x) implies false by {
                    lemma_shot_stage_shape(x);
                    assert(id@[1] == "video_shot_"@[1]);
                    assert(id@[1] == ("shot_"@ + x.skip(11))[1]);
                }
                assert forall|x: Seq<char>|
                    #![trigger shot_stage_spec(x)]
                    stage@ == shot_stage_spec(x) && !is_prefix_of("video_shot_"@, x) implies false by {
                    lemma_plain_shot_shape(x);
                    assert(id@ == x);
                }
            }
            return Some(String::from_str(id));
        }
        if starts_with(id, "shot_") {
            let rest = id.substring_char(5, id.unicode_len());
            let mut s = String::from_str("video_shot_");
            s.append(rest);
            proof {
                assert forall|x: Seq<char>|
                    #![trigger shot_stage_spec(x)]
                    stage@ == shot_stage_spec(x) && is_prefix_of("video_shot_"@, x) implies s@
                    == x by {
                    lemma_shot_stage_shape(x);
                    assert(rest@ =~= id@.skip(5));
                    assert(id@ == "shot_"@ + x.skip(11));
                    assert(id@.skip(5) =~= x.skip(11));
                }
                assert forall|x: Seq<char>|
                    #![trigger shot_stage_spec(x)]
                    stage@ == shot_stage_spec(x) && !is_prefix_of("video_shot_"@, x) && !is_prefix_of(
                        "shot_"@,
                        x,
                    ) implies false by {
                    lemma_plain_shot_shape(x);
                    assert(id@ == x);
                }
            }
            return Some(s);
        }
        proof {
            assert forall|x: Seq<char>|
                #![trigger shot_stage_spec(x)]
                stage@ == shot_stage_spec(x) && is_prefix_of("video_shot_"@, x) implies false by {
                lemma_shot_stage_shape(x);
                assert(id@ == "shot_"@ + x.skip(11));
                assert(id@.subrange(0, 5) =~= "shot_"@);
            }
            assert forall|x: Seq<char>|
                #![trigger shot_stage_spec(x)]
                stage@ == shot_stage_spec(x) && !is_prefix_of("video_shot_"@, x) implies id@ == x by {
                lemma_plain_shot_shape(x);
            }
        }
        return Some(String::from_str(id));
    }
    proof {
        assert forall|x: Seq<char>|
            #![trigger shot_stage_spec(x)]
            stage@ == shot_stage_spec(x) && is_prefix_of("video_shot_"@, x) implies false by {
            lemma_shot_stage_shape(x);
            assert(stage@.subrange(0, 11) =~= "video.shot:"@);
        }
        assert forall|x: Seq<char>|
            #![trigger shot_stage_spec(x)]
            stage@ == shot_stage_spec(x) && !is_prefix_of("video_shot_"@, x) implies false by {
            lemma_plain_shot_shape(x);
            assert(stage@.subrange(0, 11) =~= "video.shot:"@);
        }
    }
    None
}

proof fn lemma_contains_push(s: Seq<Seq<char>>, x: Seq<char>, e: Seq<char>)
    requires
        s.contains(e),
    ensures
        s.push(x).contains(e),
{
    let j = choose|j: int| 0 <= j < s.len() && s[j] == e;
    assert(s.push(x)[j] == e);
}

/// Where a shot's clip is written: `<out_dir>/build/video/shots/<id>.mp4`.
pub fn shot_output_path(out_dir: &str, id: &str) -> (r: String)
    ensures
        r@ == out_dir@ + "/build/video/shots/"@ + id@ + ".mp4"@,
{
    let mut s = String::from_str(out_dir);
    s.append("/build/video/shots/");
    s.append(id);
    s.append(".mp4");
    s
}

/// `order` with the shot names `added` placed right before each `video_assemble`.
pub open spec fn insert_shots(order: Seq<Seq<char>>, added: Seq<Seq<char>>) -> Seq<Seq<char>>
    decreases order.len(),
{
    if order.len() == 0 {
        Seq::empty()
    } else {
        let r = insert_shots(order.drop_last(), added);
        if order.last() == "video_assemble"@ {
            r + added + seq![order.last()]
        } else {
            r.push(order.last())
        }
    }
}

/// How often `x` occurs in `s`.
pub open spec fn occurrences(s: Seq<Seq<char>>, x: Seq<char>) -> nat
    decreases s.len(),
{
    if s.len() == 0 {
        0
    } else {
        occurrences(s.drop_last(), x) + if s.last() == x {
            1nat
        } else {
            0nat
        }
    }
}

/// Inserting the shots lengthens the order by their number per `video_assemble`.
pub proof fn lemma_insert_shots_len(order: Seq<Seq<char>>, added: Seq<Seq<char>>)
    ensures
        insert_shots(order, added).len() == order.len() + occurrences(order, "video_assemble"@)
            * added.len(),
    decreases order.len(),
{
    if order.len() > 0 {
        lemma_insert_shots_len(order.drop_last(), added);
        let c = occurrences(order.drop_last(), "video_assemble"@);
        let d: nat = if order.last() == "video_assemble"@ {
            1
        } else {
            0
        };
        let l = added.len();
        assert(occurrences(order, "video_assemble"@) == c + d);
        assert((c + d) * l == c * l + d * l) by (nonlinear_arith);
        if d == 1 {
            assert(d * l == l);
            assert(insert_shots(order, added).len() == insert_shots(order.drop_last(), added).len() + l + 1);
        } else {
            assert(d * l == 0);
            assert(insert_shots(order, added).len() == insert_shots(order.drop_last(), added).len() + 1);
        }
        assert(order.drop_last().len() + 1 == order.len());
        assert(insert_shots(order.drop_last(), added).len() == order.drop_last().len() + c * l);
    } else {
        assert(occurrences(order, "video_assemble"@) == 0);
        assert(0 * added.len() == 0);
    }
}

/// `x` is listed in `order` before position `q`.
pub open spec fn listed_before(order: Seq<Seq<char>>, x: Seq<char>, q: int) -> bool {
    exists|p: int| 0 <= p < q && order[p] == x
}

/// Each name in `order` comes after every dependency `edges` gives it.
pub open spec fn respects(order: Seq<Seq<char>>, edges: Seq<DagNode>) -> bool {
    forall|q: int, k: int|
        #![trigger first_deps(edges, order[q])->Some_0[k]]
        0 <= q < order.len() && first_deps(edges, order[q]) is Some && 0 <= k
            < first_deps(edges, order[q])->Some_0.len() ==> listed_before(
            order,
            first_deps(edges, order[q])->Some_0[k],
            q,
        )
}

proof fn lemma_insert_shots_none(order: Seq<Seq<char>>, added: Seq<Seq<char>>)
    requires
        occurrences(order, "video_assemble"@) == 0,
    ensures
        insert_shots(order, added) == order,
    decreases order.len(),
{
    if order.len() > 0 {
        lemma_insert_shots_none(order.drop_last(), added);
        assert(order.drop_last().push(order.last()) =~= order);
    }
}

/// With `video_assemble` listed once, at `q`, the shots are spliced in right
/// before it.
pub proof fn lemma_insert_shots_splice(order: Seq<Seq<char>>, added: Seq<Seq<char>>, q: int)
    requires
        occurrences(order, "video_assemble"@) == 1,
        0 <= q < order.len(),
        order[q] == "video_assemble"@,
    ensures
        insert_shots(order, added) == order.take(q) + added + order.skip(q),
    decreases order.len(),
{
    let o = order.drop_last();
    if order.last() == "video_assemble"@ {
        if q < order.len() - 1 {
            lemma_occurrence_at(o, q);
        }
        lemma_insert_shots_none(o, added);
        assert(order.take(q) == o || q < order.len() - 1);
        if q == order.len() - 1 {
            assert(order.take(q) =~= o);
            assert(order.skip(q) =~= seq![order.last()]);
        }
    } else {
        assert(o[q] == order[q]);
        lemma_insert_shots_splice(o, added, q);
        assert(insert_shots(order, added) =~= order.take(q) + added + order.skip(q));
    }
}

proof fn lemma_occurrence_at(s: Seq<Seq<char>>, q: int)
    requires
        0 <= q < s.len(),
        s[q] == "video_assemble"@,
    ensures
        occurrences(s, "video_assemble"@) >= 1,
    decreases s.len(),
{
    if q < s.len() - 1 {
        assert(s.drop_last()[q] == s[q]);
        lemma_occurrence_at(s.drop_last(), q);
    }
}

/// Expanding the shots keeps a valid order valid: if the old order lists each
/// stage once, respects the old edges, lists `video_assemble` once and the
/// video plan before it, then the order with the new shots (each depending on
/// the plan) spliced in before `video_assemble` (which now depends on exactly
/// the shots) lists each stage once and respects the new edges.
pub proof fn lemma_shot_order_stays_topological(
    order: Seq<Seq<char>>,
    old_edges: Seq<DagNode>,
    new_edges: Seq<DagNode>,
    added: Seq<Seq<char>>,
)
    requires
        order.no_duplicates(),
        respects(order, old_edges),
        occurrences(order, "video_assemble"@) == 1,
        order.contains("video_assemble"@),
        forall|q: int| 0 <= q < order.len() && order[q] == "video_assemble"@ ==> listed_before(order, "video_plan"@, q),
        added.no_duplicates(),
        forall|j: int| 0 <= j < added.len() ==> !order.contains(#[trigger] added[j]),
        forall|j: int| 0 <= j < added.len() ==> first_deps(new_edges, #[trigger] added[j]) == Some(seq!["video_plan"@]),
        first_deps(new_edges, "video_assemble"@) == Some(added),
        forall|y: Seq<char>|
            y != "video_assemble"@ && !added.contains(y) ==> #[trigger] first_deps(new_edges, y) == first_deps(old_edges, y),
    ensures
        insert_shots(order, added).no_duplicates(),
        respects(insert_shots(order, added), new_edges),
{
    let q = choose|q: int| 0 <= q < order.len() && order[q] == "video_assemble"@;
    lemma_insert_shots_splice(order, added, q);
    let a = order.take(q);
    let b = order.skip(q);
    let n = insert_shots(order, added);
    let m = added.len() as int;
    assert(n == a + added + b);
    assert(n.len() == order.len() + m);
    // positions of n in terms of order and added
    assert forall|r: int| 0 <= r < q implies #[trigger] n[r] == order[r] by {}
    assert forall|r: int| q <= r < q + m implies #[trigger] n[r] == added[r - q] by {}
    assert forall|r: int| q + m <= r < n.len() implies #[trigger] n[r] == order[r - m] by {}
    assert(n.no_duplicates()) by {
        assert forall|i: int, j: int| 0 <= i < n.len() && 0 <= j < n.len() && i != j implies n[i] != n[j] by {
            if i < q && j < q {
            } else if i < q && j < q + m {
                assert(!order.contains(added[j - q]));
            } else if i < q {
            } else if i < q + m && j < q {
                assert(!order.contains(added[i - q]));
            } else if i < q + m && j < q + m {
            } else if i < q + m {
                assert(!order.contains(added[i - q]));
                assert(n[j] == order[j - m]);
            } else if j < q {
            } else if j < q + m {
                assert(!order.contains(added[j - q]));
                assert(n[i] == order[i - m]);
            } else {
            }
        }
    }
    assert forall|r: int, k: int|
        #![trigger first_deps(new_edges, n[r])->Some_0[k]]
        0 <= r < n.len() && first_deps(new_edges, n[r]) is Some && 0 <= k
            < first_deps(new_edges, n[r])->Some_0.len() implies listed_before(
        n,
        first_deps(new_edges, n[r])->Some_0[k],
        r,
    ) by {
        let ds = first_deps(new_edges, n[r])->Some_0;
        if q <= r < q + m {
            // a shot: waits for the plan, listed before video_assemble
            assert(n[r] == added[r - q]);
            assert(ds == seq!["video_plan"@]);
            assert(listed_before(order, "video_plan"@, q));
            let p = choose|p: int| 0 <= p < q && order[p] == "video_plan"@;
            assert(n[p] == order[p]);
        } else if r == q + m {
            // video_assemble: waits for the shots just before it
            assert(n[r] == order[q]);
            assert(ds == added);
            assert(n[q + k] == added[k]);
        } else {
            let ro = if r < q { r } else { r - m };
            assert(n[r] == order[ro]);
            assert(order[ro] != "video_assemble"@) by {
                if ro != q {
                    assert(order[ro] != order[q]);
                }
            }
            assert(!added.contains(order[ro])) by {
                if added.contains(order[ro]) {
                    let j = choose|j: int| 0 <= j < added.len() && added[j] == order[ro];
                    assert(!order.contains(added[j]));
                }
            }
            assert(first_deps(new_edges, order[ro]) == first_deps(old_edges, order[ro]));
            assert(first_deps(old_edges, order[ro]) is Some);
            assert(listed_before(order, ds[k], ro));
            let p = choose|p: int| 0 <= p < ro && order[p] == ds[k];
            if p < q {
                assert(n[p] == order[p]);
            } else {
                assert(n[p + m] == order[p]);
            }
        }
    }
}

/// The stage names a shot plan asks for, in order.
pub open spec fn planned_stage_names(ids: Seq<Seq<char>>) -> Seq<Seq<char>> {
    shot_plan(ids).map_values(|i: Seq<char>| shot_stage_spec(i))
}

proof fn lemma_no_shots(s: Seq<StageEntry>)
    requires
        shot_names(s).len() == 0,
    ensures
        forall|i: int| 0 <= i < s.len() ==> !is_shot_name(#[trigger] s[i].name@),
    decreases s.len(),
{
    if s.len() > 0 {
        if is_shot_name(s.last().name@) {
            assert(shot_names(s).len() == shot_names(s.drop_last()).len() + 1);
        }
        lemma_no_shots(s.drop_last());
        assert forall|i: int| 0 <= i < s.len() implies !is_shot_name(#[trigger] s[i].name@) by {
            if i < s.len() - 1 {
                assert(s[i] == s.drop_last()[i]);
            }
        }
    }
}

proof fn lemma_assemble_not_shot()
    ensures
        !is_shot_name("video_assemble"@),
{
    reveal_strlit("video_assemble");
    reveal_strlit("video_shot_");
    reveal_strlit("video.shot:");
    assert("video_assemble"@.subrange(0, 11)[6] != "video_shot_"@[6]);
    assert("video_assemble"@.subrange(0, 11)[5] != "video.shot:"@[5]);
}

/// Inserts the shot stages once the video plan exists: one PENDING stage per
/// planned shot id (see `shot_plan`), each depending on `video_plan`, placed
/// right before `video_assemble` in the topological order; `video_assemble`
/// then depends on exactly the new shots. Does nothing, and returns false, if
/// shot stages exist already, so applying it twice changes nothing more. A
/// planned name that is already taken (a repeated storyboard id) is added once.
pub fn apply_shot_patch(st: &mut RunState, ids: &Vec<String>) -> (r: bool)
    requires
        wf(*old(st)),
    ensures
        r == (shot_names(old(st).stages@).len() == 0),
        !r ==> *final(st) == *old(st),
        wf(*final(st)),
        final(st).stages@.len() >= old(st).stages@.len(),
        final(st).stages@.len() <= old(st).stages@.len() + MAX_SHOTS,
        forall|i: int| 0 <= i < old(st).stages@.len() ==> #[trigger] final(st).stages@[i] == old(st).stages@[i],
        forall|i: int|
            old(st).stages@.len() <= i < final(st).stages@.len() ==> is_shot_name(
                (#[trigger] final(st).stages@[i]).name@,
            ) && final(st).stages@[i].record.status == StageStatus::PENDING,
        r ==> forall|k: int|
            0 <= k < shot_plan(names_of(ids@)).len() ==> crate::run_state::has_stage(
                *final(st),
                shot_stage_spec(#[trigger] shot_plan(names_of(ids@))[k]),
            ),
        r && planned_stage_names(names_of(ids@)).no_duplicates() ==> stage_names_of(
            final(st).stages@,
        ).skip(old(st).stages@.len() as int) == planned_stage_names(names_of(ids@)),
        r ==> forall|i: int|
            old(st).stages@.len() <= i < final(st).stages@.len() ==> first_deps(
                final(st).dag_edges@,
                (#[trigger] final(st).stages@[i]).name@,
            ) == Some(seq!["video_plan"@]),
        r ==> first_deps(final(st).dag_edges@, "video_assemble"@) == Some(
            stage_names_of(final(st).stages@).skip(old(st).stages@.len() as int),
        ),
        r ==> forall|y: Seq<char>|
            y != "video_assemble"@ && !stage_names_of(final(st).stages@).skip(
                old(st).stages@.len() as int,
            ).contains(y) ==> #[trigger] first_deps(final(st).dag_edges@, y) == first_deps(
                old(st).dag_edges@,
                y,
            ),
        r ==> names_of(final(st).topo_order@) == insert_shots(
            names_of(old(st).topo_order@),
            stage_names_of(final(st).stages@).skip(old(st).stages@.len() as int),
        ),
        r ==> final(st).video_shots_total == Some(
            (final(st).stages@.len() - old(st).stages@.len()) as u32,
        ),
        final(st).cancel_requested == old(st).cancel_requested,
        final(st).run_id == old(st).run_id,
        final(st).status == old(st).status,
{
    if shot_stage_names(st).len() > 0 {
        return false;
    }
    proof {
        lemma_no_shots(old(st).stages@);
        lemma_assemble_not_shot();
    }
    let plan = plan_shot_ids(ids);
    let ghost pl = shot_plan(names_of(ids@));
    let ghost pn = planned_stage_names(names_of(ids@));
    let ghost n0 = old(st).stages@.len() as int;
    let mut added: Vec<String> = Vec::new();
    let mut k: usize = 0;
    let timeout = st.config.stage_timeout_seconds;
    while k < plan.len()
        invariant
            names_of(plan@) == pl,
            pl == shot_plan(names_of(ids@)),
            pn == planned_stage_names(names_of(ids@)),
            pn.len() == pl.len(),
            plan@.len() <= MAX_SHOTS,
            n0 == old(st).stages@.len(),
            k <= plan@.len(),
            wf(*st),
            st.stages@.len() >= n0,
            st.stages@.len() <= n0 + k,
            forall|i: int| 0 <= i < n0 ==> #[trigger] st.stages@[i] == old(st).stages@[i],
            forall|i: int| 0 <= i < n0 ==> !is_shot_name(#[trigger] old(st).stages@[i].name@),
            !is_shot_name("video_assemble"@),
            forall|i: int|
                n0 <= i < st.stages@.len() ==> is_shot_name(
                    (#[trigger] st.stages@[i]).name@,
                ) && st.stages@[i].record.status == StageStatus::PENDING,
            names_of(added@) == stage_names_of(st.stages@).skip(n0),
            forall|x: int| 0 <= x < k ==> crate::run_state::has_stage(*st, shot_stage_spec(#[trigger] pl[x])),
            pn.no_duplicates() ==> names_of(added@) == pn.take(k as int),
            forall|x: int|
                0 <= x < added@.len() ==> first_deps(st.dag_edges@, #[trigger] added@[x]@) == Some(
                    seq!["video_plan"@],
                ),
            forall|y: Seq<char>|
                !names_of(added@).contains(y) ==> #[trigger] first_deps(st.dag_edges@, y)
                    == first_deps(old(st).dag_edges@, y),
            st.cancel_requested == old(st).cancel_requested,
            st.run_id == old(st).run_id,
            st.status == old(st).status,
            st.topo_order == old(st).topo_order,
            st.config == old(st).config,
        decreases plan@.len() - k,
    {
        let name = shot_stage_name_from_storyboard_id(plan[k].as_str());
        proof {
            assert(pl[k as int] == plan@[k as int]@);
            assert(pn[k as int] == shot_stage_spec(pl[k as int]));
            assert(pn[k as int] == name@);
        }
        if crate::run_state::find_stage(st, name.as_str()).is_none() {
            let out = shot_output_path(st.config.out_dir.as_str(), plan[k].as_str());
            let rec = pending_record(vec![out], Some(timeout));
            let ghost before = *st;
            let ghost prev_added = added@;
            st.stages.push(StageEntry { name: name.clone(), record: rec });
            let vp = vec![String::from_str("video_plan")];
            proof {
                assert(names_of(vp@) =~= seq!["video_plan"@]);
            }
            set_edge(&mut st.dag_edges, name.as_str(), vp);
            added.push(name);
            proof {
                let n = before.stages@.len() as int;
                lemma_names_push(prev_added, added@.last());
                assert(st.stages@[n].name@ == shot_stage_spec(pl[k as int]));
                assert(stage_names_of(st.stages@).skip(n0) =~= stage_names_of(before.stages@).skip(
                    n0,
                ).push(name@));
                assert forall|a: int, b: int|
                    0 <= a < st.stages@.len() && 0 <= b < st.stages@.len() && a != b implies st.stages@[a].name@
                        != st.stages@[b].name@ by {
                    if a == n {
                        assert(st.stages@[b] == before.stages@[b]);
                    } else if b == n {
                        assert(st.stages@[a] == before.stages@[a]);
                    } else {
                        assert(st.stages@[a] == before.stages@[a]);
                        assert(st.stages@[b] == before.stages@[b]);
                    }
                }
                assert forall|x: int| 0 <= x <= k implies crate::run_state::has_stage(*st, shot_stage_spec(#[trigger] pl[x])) by {
                    if x < k {
                        assert(crate::run_state::has_stage(before, shot_stage_spec(pl[x])));
                        let j = choose|j: int| 0 <= j < before.stages@.len() && before.stages@[j].name@ == shot_stage_spec(pl[x]);
                        assert(st.stages@[j] == before.stages@[j]);
                    } else {
                        assert(st.stages@[n].name@ == shot_stage_spec(pl[x]));
                    }
                }
                assert forall|x: int| 0 <= x < added@.len() implies first_deps(
                    st.dag_edges@,
                    #[trigger] added@[x]@,
                ) == Some(seq!["video_plan"@]) by {
                    if x < prev_added.len() {
                        assert(added@[x] == prev_added[x]);
                        assert(names_of(prev_added)[x] == prev_added[x]@);
                        if prev_added[x]@ == name@ {
                            assert(stage_names_of(before.stages@).skip(n0)[x] == name@);
                            assert(before.stages@[n0 + x].name@ == name@);
                        }
                    }
                }
                assert forall|y: Seq<char>| !names_of(added@).contains(y) implies #[trigger] first_deps(
                    st.dag_edges@,
                    y,
                ) == first_deps(old(st).dag_edges@, y) by {
                    if names_of(prev_added).contains(y) {
                        let j = choose|j: int| 0 <= j < names_of(prev_added).len() && names_of(prev_added)[j] == y;
                        assert(names_of(added@)[j] == y);
                    }
                    assert(names_of(added@)[prev_added.len() as int] == name@);
                    assert(y != name@);
                }
                if pn.no_duplicates() {
                    assert(names_of(added@) =~= pn.take(k + 1));
                }
            }
        } else {
            proof {
                if pn.no_duplicates() {
                    // the planned name is new: no old stage is a shot, and the
                    // shots added so far hold other planned names
                    let j = choose|j: int| 0 <= j < st.stages@.len() && st.stages@[j].name@ == name@;
                    if j < n0 {
                        assert(st.stages@[j] == old(st).stages@[j]);
                    } else {
                        assert(stage_names_of(st.stages@).skip(n0)[j - n0] == name@);
                        assert(pn.take(k as int)[j - n0] == pn[k as int]);
                        assert(false);
                    }
                }
            }
        }
        k = k + 1;
    }
    proof {
        if pn.no_duplicates() {
            assert(pn.take(pl.len() as int) =~= pn);
        }
    }
    let ghost st_mid = *st;
    let ghost topo = names_of(st.topo_order@);
    let ghost an = names_of(added@);
    let mut order: Vec<String> = Vec::new();
    let mut t: usize = 0;
    proof {
        assert(topo.take(0) =~= Seq::<Seq<char>>::empty());
    }
    while t < st.topo_order.len()
        invariant
            t <= st.topo_order@.len(),
            *st == st_mid,
            topo == names_of(st.topo_order@),
            an == names_of(added@),
            names_of(order@) == insert_shots(topo.take(t as int), an),
        decreases st.topo_order@.len() - t,
    {
        let ghost base = order@;
        proof {
            assert(topo.take(t + 1).drop_last() =~= topo.take(t as int));
            assert(topo.take(t + 1).last() == topo[t as int]);
            assert(topo[t as int] == st.topo_order@[t as int]@);
        }
        if str_eq(st.topo_order[t].as_str(), "video_assemble") {
            let mut a: usize = 0;
            while a < added.len()
                invariant
                    a <= added@.len(),
                    an == names_of(added@),
                    names_of(order@) == names_of(base) + an.take(a as int),
                decreases added@.len() - a,
            {
                let ghost prev = order@;
                order.push(added[a].clone());
                proof {
                    lemma_names_push(prev, added@[a as int]);
                    assert(an.take(a + 1) =~= an.take(a as int).push(an[a as int]));
                    assert(names_of(order@) =~= names_of(base) + an.take(a + 1));
                }
                a = a + 1;
            }
            proof {
                assert(an.take(an.len() as int) =~= an);
            }
        }
        let ghost prev = order@;
        order.push(st.topo_order[t].clone());
        proof {
            lemma_names_push(prev, st.topo_order@[t as int]);
            assert(names_of(order@) =~= insert_shots(topo.take(t + 1), an));
        }
        t = t + 1;
    }
    proof {
        assert(topo.take(topo.len() as int) =~= topo);
    }
    st.topo_order = order;
    let ghost st_t = *st;
    set_edge(&mut st.dag_edges, "video_assemble", crate::ready::clone_names(&added));
    st.video_shots_total = Some(added.len() as u32);
    proof {
        assert(stage_names_of(st.stages@).skip(n0) == an);
        assert forall|i: int|
            n0 <= i < st.stages@.len() implies first_deps(
            st.dag_edges@,
            (#[trigger] st.stages@[i]).name@,
        ) == Some(seq!["video_plan"@]) by {
            assert(an[i - n0] == st.stages@[i].name@);
            assert(names_of(added@)[i - n0] == added@[i - n0]@);
            assert(first_deps(st_t.dag_edges@, added@[i - n0]@) == Some(seq!["video_plan"@]));
            assert(is_shot_name(st.stages@[i].name@));
        }
        assert forall|y: Seq<char>|
            y != "video_assemble"@ && !an.contains(y) implies #[trigger] first_deps(
            st.dag_edges@,
            y,
        ) == first_deps(old(st).dag_edges@, y) by {
            assert(first_deps(st_t.dag_edges@, y) == first_deps(old(st).dag_edges@, y));
        }
        assert(st.stages@.len() - n0 == an.len());
    }
    true
}

} // verus!
