use vstd::prelude::*;
use vstd::set_lib::*;

verus! {

/// One node of a DAG template: a stage name and the names it depends on.
#[derive(Debug, Clone)]
pub struct DagNode {
    pub name: String,
    pub deps: Vec<String>,
}

/// A DAG template: the static stage graph.
#[derive(Debug, Clone)]
pub struct Dag {
    pub nodes: Vec<DagNode>,
}

/// Why a DAG has no topological order.
#[derive(Debug, Clone)]
pub enum DagError {
    /// `node` depends on `dep`, which is not the name of any node.
    UnknownDependency { node: String, dep: String },
    /// The graph has a cycle (or two nodes share a name).
    CycleDetected,
}

/// True when `p` is a prefix of `s`.
pub open spec fn is_prefix_of(p: Seq<char>, s: Seq<char>) -> bool {
    p.len() <= s.len() && s.subrange(0, p.len() as int) == p
}

/// Strict lexicographic order on character sequences.
pub open spec fn lex_lt(a: Seq<char>, b: Seq<char>) -> bool
    decreases a.len(),
{
    if b.len() == 0 {
        false
    } else if a.len() == 0 {
        true
    } else if (a[0] as u32) != (b[0] as u32) {
        (a[0] as u32) < (b[0] as u32)
    } else {
        lex_lt(a.drop_first(), b.drop_first())
    }
}

/// Checks whether `s` starts with `p`, character by character.
pub fn starts_with(s: &str, p: &str) -> (r: bool)
    ensures
        r == is_prefix_of(p@, s@),
{
    let n = p.unicode_len();
    let m = s.unicode_len();
    if n > m {
        return false;
    }
    let mut i: usize = 0;
    while i < n
        invariant
            n == p@.len(),
            m == s@.len(),
            n <= m,
            i <= n,
            forall|k: int| 0 <= k < i ==> s@[k] == p@[k],
        decreases n - i,
    {
        if s.get_char(i) != p.get_char(i) {
            assert(s@.subrange(0, n as int)[i as int] != p@[i as int]);
            return false;
        }
        i = i + 1;
    }
    assert(s@.subrange(0, n as int) =~= p@);
    true
}

/// Lexicographic comparison of two names.
pub fn name_lt(a: &str, b: &str) -> (r: bool)
    ensures
        r == lex_lt(a@, b@),
{
    let n = a.unicode_len();
    let m = b.unicode_len();
    let mut i: usize = 0;
    assert(a@.skip(0) =~= a@ && b@.skip(0) =~= b@);
    while i < n && i < m
        invariant
            n == a@.len(),
            m == b@.len(),
            i <= n,
            i <= m,
            lex_lt(a@, b@) == lex_lt(a@.skip(i as int), b@.skip(i as int)),
        decreases n - i,
    {
        let x = a.get_char(i);
        let y = b.get_char(i);
        assert(a@.skip(i as int)[0] == x && b@.skip(i as int)[0] == y);
        if (x as u32) != (y as u32) {
            return (x as u32) < (y as u32);
        }
        assert(a@.skip(i as int).drop_first() =~= a@.skip(i + 1));
        assert(b@.skip(i as int).drop_first() =~= b@.skip(i + 1));
        i = i + 1;
    }
    i < m
}

/// The names of the nodes, in declaration order.
pub open spec fn node_names(dag: Dag) -> Seq<Seq<char>> {
    dag.nodes@.map_values(|n: DagNode| n.name@)
}

/// The dependency names of node `j`.
pub open spec fn node_deps(dag: Dag, j: int) -> Seq<Seq<char>> {
    dag.nodes@[j].deps@.map_values(|d: String| d@)
}

/// Node `j` depends on node `i`.
pub open spec fn dep_of(dag: Dag, j: int, i: int) -> bool {
    &&& 0 <= i < dag.nodes@.len()
    &&& 0 <= j < dag.nodes@.len()
    &&& node_deps(dag, j).contains(dag.nodes@[i].name@)
}

/// Every dependency names some node.
pub open spec fn deps_known(dag: Dag) -> bool {
    forall|j: int, k: int|
        0 <= j < dag.nodes@.len() && 0 <= k < dag.nodes@[j].deps@.len() ==> node_names(
            dag,
        ).contains(#[trigger] dag.nodes@[j].deps@[k]@)
}

/// No two nodes share a name.
pub open spec fn unique_names(dag: Dag) -> bool {
    forall|i: int, j: int|
        0 <= i < dag.nodes@.len() && 0 <= j < dag.nodes@.len() && i != j ==> dag.nodes@[i].name@
            != dag.nodes@[j].name@
}

/// `s` lists every node index exactly once, each after all of its dependencies.
pub open spec fn topo_indices(dag: Dag, s: Seq<int>) -> bool {
    &&& s.len() == dag.nodes@.len()
    &&& forall|p: int| 0 <= p < s.len() ==> 0 <= #[trigger] s[p] < dag.nodes@.len()
    &&& forall|i: int| 0 <= i < dag.nodes@.len() ==> #[trigger] s.contains(i)
    &&& forall|p: int, q: int|
        0 <= p < s.len() && 0 <= q < s.len() && #[trigger] dep_of(dag, s[q], s[p]) ==> p < q
}

/// The graph is acyclic: some order of the nodes puts every dependency first.
pub open spec fn acyclic(dag: Dag) -> bool {
    exists|s: Seq<int>| topo_indices(dag, s)
}

/// `order` is the name sequence of a topological order of `dag`.
pub open spec fn is_topo_order(dag: Dag, order: Seq<Seq<char>>) -> bool {
    exists|s: Seq<int>|
        topo_indices(dag, s) && order == s.map_values(|i: int| dag.nodes@[i].name@)
}

/// Well-formed DAG template: names unique, dependencies known, no cycle.
pub open spec fn valid_dag(dag: Dag) -> bool {
    unique_names(dag) && deps_known(dag) && acyclic(dag)
}

/// Some dependency of `node` is `dep`, and `dep` is no node's name.
pub open spec fn unknown_dep_witness(dag: Dag, node: Seq<char>, dep: Seq<char>) -> bool {
    exists|j: int|
        0 <= j < dag.nodes@.len() && dag.nodes@[j].name@ == node && node_deps(dag, j).contains(dep)
            && !node_names(dag).contains(dep)
}

/// Spec view of a list of strings.
pub open spec fn names_of(v: Seq<String>) -> Seq<Seq<char>> {
    v.map_values(|s: String| s@)
}

/// Appending a string appends its view.
pub proof fn lemma_names_push(v: Seq<String>, x: String)
    ensures
        names_of(v.push(x)) == names_of(v).push(x@),
{
    assert(names_of(v.push(x)) =~= names_of(v).push(x@));
}

/// Index of the node named `name`, if any.
fn find_node(dag: &Dag, name: &String) -> (r: Option<usize>)
    ensures
        r matches Some(i) ==> i < dag.nodes@.len() && dag.nodes@[i as int].name@ == name@,
        r is None ==> !node_names(*dag).contains(name@),
{
    let mut i: usize = 0;
    while i < dag.nodes.len()
        invariant
            i <= dag.nodes@.len(),
            forall|k: int| 0 <= k < i ==> dag.nodes@[k].name@ != name@,
        decreases dag.nodes@.len() - i,
    {
        if dag.nodes[i].name == *name {
            return Some(i);
        }
        i = i + 1;
    }
    proof {
        if node_names(*dag).contains(name@) {
            let k = choose|k: int| 0 <= k < node_names(*dag).len() && node_names(*dag)[k] == name@;
            assert(dag.nodes@[k].name@ == name@);
        }
    }
    None
}


/// `di` holds, for each node, the index of each of its dependencies.
pub open spec fn resolves(dag: Dag, di: Seq<Vec<usize>>) -> bool {
    &&& di.len() == dag.nodes@.len()
    &&& forall|j: int|
        0 <= j < di.len() ==> (#[trigger] di[j])@.len() == dag.nodes@[j].deps@.len()
    &&& forall|j: int, k: int|
        0 <= j < di.len() && 0 <= k < di[j]@.len() ==> (#[trigger] di[j]@[k]) < dag.nodes@.len()
            && dag.nodes@[di[j]@[k] as int].name@ == dag.nodes@[j].deps@[k]@
}

/// Every dependency of node `i` is marked done.
pub open spec fn deps_all_done(di: Seq<Vec<usize>>, done: Seq<bool>, i: int) -> bool {
    forall|k: int| 0 <= k < di[i]@.len() ==> done[#[trigger] di[i]@[k] as int]
}

/// `x` occurs in `s` before position `q`.
pub open spec fn appears_before(s: Seq<usize>, x: usize, q: int) -> bool {
    exists|p: int| 0 <= p < q && s[p] == x
}

proof fn lemma_dep_of_index(dag: Dag, di: Seq<Vec<usize>>, j: int, i: int)
    requires
        resolves(dag, di),
        unique_names(dag),
        dag.nodes@.len() <= usize::MAX,
        0 <= j < dag.nodes@.len(),
        0 <= i < dag.nodes@.len(),
    ensures
        dep_of(dag, j, i) <==> di[j]@.contains(i as usize),
{
    if dep_of(dag, j, i) {
        let k = choose|k: int|
            0 <= k < node_deps(dag, j).len() && node_deps(dag, j)[k] == dag.nodes@[i].name@;
        assert(di[j]@[k] < dag.nodes@.len());
        assert(di[j]@[k] as int == i);
        assert(di[j]@.contains(i as usize));
    }
    if di[j]@.contains(i as usize) {
        let k = choose|k: int| 0 <= k < di[j]@.len() && di[j]@[k] == i as usize;
        assert(di[j]@[k] < dag.nodes@.len());
        assert(di[j]@.len() == dag.nodes@[j].deps@.len());
        assert(dag.nodes@[di[j]@[k] as int].name@ == dag.nodes@[j].deps@[k]@);
        assert(node_deps(dag, j)[k] == dag.nodes@[j].deps@[k]@);
        assert(node_deps(dag, j)[k] == dag.nodes@[i].name@);
    }
}

pub proof fn lemma_distinct_bound(s: Seq<usize>, n: int)
    requires
        0 <= n <= usize::MAX,
        s.no_duplicates(),
        forall|p: int| 0 <= p < s.len() ==> s[p] < n,
    ensures
        s.len() <= n,
        (forall|i: int| 0 <= i < n ==> #[trigger] s.contains(i as usize)) ==> s.len() == n,
        (exists|i: int| 0 <= i < n && !#[trigger] s.contains(i as usize)) ==> s.len() < n,
{
    let t = s.map_values(|x: usize| x as int);
    assert forall|a: int, b: int| 0 <= a < t.len() && 0 <= b < t.len() && a != b implies t[a]
        != t[b] by {
        assert(s[a] != s[b]);
    }
    assert(t.no_duplicates());
    t.unique_seq_to_set();
    lemma_int_range(0, n);
    {
        assert(t.to_set().subset_of(set_int_range(0, n))) by {
            assert forall|x: int| t.to_set().contains(x) implies set_int_range(0, n).contains(x) by {
                let p = choose|p: int| 0 <= p < t.len() && t[p] == x;
                assert(s[p] < n);
            }
        }
        lemma_len_subset(t.to_set(), set_int_range(0, n));
        if forall|i: int| 0 <= i < n ==> #[trigger] s.contains(i as usize) {
            assert(set_int_range(0, n).subset_of(t.to_set())) by {
                assert forall|x: int| set_int_range(0, n).contains(x) implies t.to_set().contains(
                    x,
                ) by {
                    assert(s.contains(x as usize));
                    let p = choose|p: int| 0 <= p < s.len() && s[p] == x as usize;
                    assert(t[p] == x);
                }
            }
            lemma_len_subset(set_int_range(0, n), t.to_set());
        }
        if exists|i: int| 0 <= i < n && !#[trigger] s.contains(i as usize) {
            let i = choose|i: int| 0 <= i < n && !#[trigger] s.contains(i as usize);
            assert(t.to_set().subset_of(set_int_range(0, n).remove(i))) by {
                assert forall|x: int| t.to_set().contains(x) implies set_int_range(
                    0,
                    n,
                ).remove(i).contains(x) by {
                    let p = choose|p: int| 0 <= p < t.len() && t[p] == x;
                    assert(s[p] < n);
                    if x == i {
                        assert(s[p] == i as usize);
                    }
                }
            }
            lemma_len_subset(t.to_set(), set_int_range(0, n).remove(i));
        }
    }
}

proof fn lemma_stuck_has_no_order(
    dag: Dag,
    di: Seq<Vec<usize>>,
    done: Seq<bool>,
    s: Seq<int>,
    p: int,
)
    requires
        resolves(dag, di),
        unique_names(dag),
        dag.nodes@.len() <= usize::MAX,
        topo_indices(dag, s),
        done.len() == dag.nodes@.len(),
        0 <= p < s.len(),
        forall|i: int| 0 <= i < dag.nodes@.len() && !done[i] ==> !deps_all_done(di, done, i),
    ensures
        done[s[p]],
    decreases p,
{
    let i = s[p];
    if done[i] {
        return;
    }
    assert(!deps_all_done(di, done, i));
    let k = choose|k: int| 0 <= k < di[i]@.len() && !done[di[i]@[k] as int];
    let d = di[i]@[k] as int;
    assert(di[i]@.contains(d as usize));
    lemma_dep_of_index(dag, di, i, d);
    assert(s.contains(d));
    let q = choose|q: int| 0 <= q < s.len() && s[q] == d;
    assert(dep_of(dag, s[p], s[q]));
    lemma_stuck_has_no_order(dag, di, done, s, q);
}

/// Whether every dependency index in `deps` is marked done.
fn deps_done(deps: &Vec<usize>, done: &Vec<bool>) -> (r: bool)
    requires
        forall|k: int| 0 <= k < deps@.len() ==> deps@[k] < done@.len(),
    ensures
        r == forall|k: int| 0 <= k < deps@.len() ==> done@[#[trigger] deps@[k] as int],
{
    let mut k: usize = 0;
    while k < deps.len()
        invariant
            k <= deps@.len(),
            forall|k: int| 0 <= k < deps@.len() ==> deps@[k] < done@.len(),
            forall|x: int| 0 <= x < k ==> done@[#[trigger] deps@[x] as int],
        decreases deps@.len() - k,
    {
        if !done[deps[k]] {
            return false;
        }
        k = k + 1;
    }
    true
}

/// The names of the nodes listed (by index) in `out`.
pub open spec fn emitted(dag: Dag, out: Seq<int>) -> Seq<Seq<char>> {
    out.map_values(|j: int| dag.nodes@[j].name@)
}

/// Node `i` is not listed in `out` and every one of its dependencies is.
pub open spec fn eligible(dag: Dag, out: Seq<int>, i: int) -> bool {
    &&& !out.contains(i)
    &&& forall|k: int|
        0 <= k < dag.nodes@[i].deps@.len() ==> emitted(dag, out).contains(
            #[trigger] dag.nodes@[i].deps@[k]@,
        )
}

/// Scanning nodes `i..` in declaration order: the eligible node with the
/// lexicographically smallest name (the earliest among equal names), given
/// the best one found before `i`.
pub open spec fn scan_pick(dag: Dag, out: Seq<int>, i: int, best: Option<int>) -> Option<int>
    decreases dag.nodes@.len() - i,
{
    if i >= dag.nodes@.len() {
        best
    } else {
        let better = eligible(dag, out, i) && match best {
            None => true,
            Some(b) => lex_lt(dag.nodes@[i].name@, dag.nodes@[b].name@),
        };
        scan_pick(dag, out, i + 1, if better {
            Some(i)
        } else {
            best
        })
    }
}

/// Kahn's algorithm from the listed nodes `out`: repeatedly list the eligible
/// node with the smallest name, until all are listed or none is eligible.
pub open spec fn kahn_from(dag: Dag, out: Seq<int>) -> Seq<int>
    decreases dag.nodes@.len() - out.len(),
{
    if out.len() >= dag.nodes@.len() {
        out
    } else {
        match scan_pick(dag, out, 0, None) {
            None => out,
            Some(b) => kahn_from(dag, out.push(b)),
        }
    }
}

/// The names in the order Kahn's algorithm lists them, smallest name first
/// among the nodes ready at each step.
pub open spec fn kahn_order(dag: Dag) -> Seq<Seq<char>> {
    emitted(dag, kahn_from(dag, Seq::empty()))
}

proof fn lemma_eligible_iff(dag: Dag, di: Seq<Vec<usize>>, done: Seq<bool>, out: Seq<int>, i: int)
    requires
        resolves(dag, di),
        unique_names(dag),
        dag.nodes@.len() <= usize::MAX,
        done.len() == dag.nodes@.len(),
        forall|p: int| 0 <= p < out.len() ==> 0 <= #[trigger] out[p] < dag.nodes@.len(),
        forall|j: int| 0 <= j < dag.nodes@.len() ==> (done[j] <==> out.contains(j)),
        0 <= i < dag.nodes@.len(),
    ensures
        eligible(dag, out, i) == (!done[i] && deps_all_done(di, done, i)),
{
    if deps_all_done(di, done, i) {
        assert forall|k: int| 0 <= k < dag.nodes@[i].deps@.len() implies emitted(dag, out).contains(
            #[trigger] dag.nodes@[i].deps@[k]@,
        ) by {
            let d = di[i]@[k] as int;
            assert(done[d]);
            let p = choose|p: int| 0 <= p < out.len() && out[p] == d;
            assert(emitted(dag, out)[p] == dag.nodes@[d].name@);
        }
    }
    if eligible(dag, out, i) {
        assert forall|k: int| 0 <= k < di[i]@.len() implies done[#[trigger] di[i]@[k] as int] by {
            let d = di[i]@[k] as int;
            assert(dag.nodes@[d].name@ == dag.nodes@[i].deps@[k]@);
            assert(emitted(dag, out).contains(dag.nodes@[i].deps@[k]@));
            let p = choose|p: int|
                0 <= p < emitted(dag, out).len() && emitted(dag, out)[p] == dag.nodes@[i].deps@[k]@;
            assert(dag.nodes@[out[p]].name@ == dag.nodes@[d].name@);
            assert(out[p] == d);
        }
    }
}

impl Dag {
    /// Whether all node names are distinct.
    pub fn has_unique_names(&self) -> (r: bool)
        ensures
            r == unique_names(*self),
    {
        let n = self.nodes.len();
        let mut i: usize = 0;
        while i < n
            invariant
                n == self.nodes@.len(),
                i <= n,
                forall|a: int, b: int|
                    0 <= a < i && 0 <= b < n && a != b ==> self.nodes@[a].name@
                        != self.nodes@[b].name@,
            decreases n - i,
        {
            let mut j: usize = 0;
            while j < n
                invariant
                    n == self.nodes@.len(),
                    i < n,
                    j <= n,
                    forall|a: int, b: int|
                        0 <= a < i && 0 <= b < n && a != b ==> self.nodes@[a].name@
                            != self.nodes@[b].name@,
                    forall|b: int|
                        0 <= b < j && b != i ==> self.nodes@[i as int].name@
                            != self.nodes@[b].name@,
                decreases n - j,
            {
                if j != i && self.nodes[i].name == self.nodes[j].name {
                    return false;
                }
                j = j + 1;
            }
            i = i + 1;
        }
        true
    }

    /// Resolves every dependency name to the index of its node.
    fn resolve_deps(&self) -> (r: Result<Vec<Vec<usize>>, DagError>)
        ensures
            match r {
                Ok(di) => deps_known(*self) && resolves(*self, di@),
                Err(e) => e matches DagError::UnknownDependency { node, dep } && !deps_known(*self)
                    && unknown_dep_witness(*self, node@, dep@),
            },
    {
        let n = self.nodes.len();
        let mut di: Vec<Vec<usize>> = Vec::new();
        let mut j: usize = 0;
        while j < n
            invariant
                n == self.nodes@.len(),
                j <= n,
                di@.len() == j,
                forall|a: int|
                    0 <= a < j ==> (#[trigger] di@[a])@.len() == self.nodes@[a].deps@.len(),
                forall|a: int, k: int|
                    0 <= a < j && 0 <= k < di@[a]@.len() ==> (#[trigger] di@[a]@[k])
                        < self.nodes@.len() && self.nodes@[di@[a]@[k] as int].name@
                        == self.nodes@[a].deps@[k]@,
            decreases n - j,
        {
            let deps = &self.nodes[j].deps;
            let mut row: Vec<usize> = Vec::new();
            let mut k: usize = 0;
            while k < deps.len()
                invariant
                    n == self.nodes@.len(),
                    j < n,
                    deps == self.nodes@[j as int].deps,
                    k <= deps@.len(),
                    row@.len() == k,
                    forall|x: int|
                        0 <= x < k ==> (#[trigger] row@[x]) < self.nodes@.len()
                            && self.nodes@[row@[x] as int].name@ == deps@[x]@,
                decreases deps@.len() - k,
            {
                match find_node(self, &deps[k]) {
                    Some(i) => {
                        row.push(i);
                    },
                    None => {
                        proof {
                            assert(node_deps(*self, j as int)[k as int] == deps@[k as int]@);
                            assert(node_deps(*self, j as int).contains(deps@[k as int]@));
                        }
                        return Err(
                            DagError::UnknownDependency {
                                node: self.nodes[j].name.clone(),
                                dep: deps[k].clone(),
                            },
                        );
                    },
                }
                k = k + 1;
            }
            di.push(row);
            j = j + 1;
        }
        proof {
            assert forall|a: int, k: int|
                0 <= a < n && 0 <= k < self.nodes@[a].deps@.len() implies node_names(
                *self,
            ).contains(#[trigger] self.nodes@[a].deps@[k]@) by {
                let i = di@[a]@[k] as int;
                assert(node_names(*self)[i] == self.nodes@[a].deps@[k]@);
            }
        }
        Ok(di)
    }

    /// Kahn's algorithm: repeatedly emits the lexicographically smallest node whose
    /// dependencies have all been emitted. Fails on an unknown dependency, on a
    /// cycle, and on a repeated name.
    pub fn topo_order(&self) -> (r: Result<Vec<String>, DagError>)
        ensures
            match r {
                Ok(order) => valid_dag(*self) && is_topo_order(*self, names_of(order@)),
                Err(DagError::UnknownDependency { node, dep }) => !deps_known(*self)
                    && unknown_dep_witness(*self, node@, dep@),
                Err(DagError::CycleDetected) => deps_known(*self) && !(unique_names(*self)
                    && acyclic(*self)),
            },
            r matches Ok(order) ==> names_of(order@) == kahn_order(*self),
    {
        let di = match self.resolve_deps() {
            Ok(di) => di,
            Err(e) => {
                return Err(e);
            },
        };
        if !self.has_unique_names() {
            return Err(DagError::CycleDetected);
        }
        let n = self.nodes.len();
        let mut done: Vec<bool> = Vec::new();
        let mut t: usize = 0;
        while t < n
            invariant
                t <= n,
                done@.len() == t,
                forall|x: int| 0 <= x < t ==> !done@[x],
            decreases n - t,
        {
            done.push(false);
            t = t + 1;
        }
        let mut out: Vec<usize> = Vec::new();
        proof {
            assert(out@.map_values(|x: usize| x as int) =~= Seq::<int>::empty());
        }
        loop
            invariant
                kahn_from(*self, Seq::empty()) == kahn_from(*self, out@.map_values(|x: usize| x as int)),
                n == self.nodes@.len(),
                resolves(*self, di@),
                unique_names(*self),
                deps_known(*self),
                done@.len() == n,
                out@.len() <= n,
                out@.no_duplicates(),
                forall|p: int| 0 <= p < out@.len() ==> out@[p] < n,
                forall|i: int| 0 <= i < n ==> (done@[i] <==> out@.contains(i as usize)),
                forall|q: int, k: int|
                    0 <= q < out@.len() && 0 <= k < di@[out@[q] as int]@.len() ==> appears_before(
                        out@,
                        #[trigger] di@[out@[q] as int]@[k],
                        q,
                    ),
            ensures
                forall|x: int| 0 <= x < n ==> done@[x],
            decreases n - out@.len(),
        {
            let mut best: Option<usize> = None;
            let mut any_left = false;
            let mut i: usize = 0;
            let ghost oi = out@.map_values(|x: usize| x as int);
            proof {
                assert forall|p: int| 0 <= p < oi.len() implies 0 <= #[trigger] oi[p] < n by {}
                assert forall|j: int| 0 <= j < n implies (done@[j] <==> oi.contains(j)) by {
                    if done@[j] {
                        let p = choose|p: int| 0 <= p < out@.len() && out@[p] == j as usize;
                        assert(oi[p] == j);
                    }
                    if oi.contains(j) {
                        let p = choose|p: int| 0 <= p < oi.len() && oi[p] == j;
                        assert(out@[p] == j as usize);
                    }
                }
            }
            while i < n
                invariant
                    oi == out@.map_values(|x: usize| x as int),
                    forall|p: int| 0 <= p < oi.len() ==> 0 <= #[trigger] oi[p] < n,
                    forall|j: int| 0 <= j < n ==> (done@[j] <==> oi.contains(j)),
                    unique_names(*self),
                    scan_pick(*self, oi, 0, None) == scan_pick(*self, oi, i as int, match best {
                        Some(b) => Some(b as int),
                        None => None,
                    }),
                    n == self.nodes@.len(),
                    resolves(*self, di@),
                    done@.len() == n,
                    i <= n,
                    best matches Some(b) ==> b < n && !done@[b as int] && deps_all_done(
                        di@,
                        done@,
                        b as int,
                    ),
                    best is None ==> forall|x: int|
                        0 <= x < i ==> done@[x] || !deps_all_done(di@, done@, x),
                    !any_left ==> forall|x: int| 0 <= x < i ==> done@[x],
                    any_left ==> exists|x: int| 0 <= x < i && !done@[x],
                    best is Some ==> any_left,
                decreases n - i,
            {
                proof {
                    lemma_eligible_iff(*self, di@, done@, oi, i as int);
                }
                if !done[i] {
                    any_left = true;
                    let ready = deps_done(&di[i], &done);
                    if ready {
                        let better = match best {
                            None => true,
                            Some(b) => name_lt(&self.nodes[i].name, &self.nodes[b].name),
                        };
                        if better {
                            best = Some(i);
                        }
                    }
                }
                i = i + 1;
            }
            match best {
                Some(b) => {
                    proof {
                        assert(!out@.contains(b));
                        lemma_distinct_bound(out@, n as int);
                    }
                    let ghost old_out = out@;
                    let ghost old_done = done@;
                    out.push(b);
                    done.set(b, true);
                    proof {
                        assert(scan_pick(*self, oi, n as int, Some(b as int)) == Some(b as int));
                        assert(oi.len() < n);
                        assert(out@.map_values(|x: usize| x as int) =~= oi.push(b as int));
                        assert forall|q: int, k: int|
                            0 <= q < out@.len() && 0 <= k < di@[out@[q] as int]@.len()
                                implies appears_before(
                            out@,
                            #[trigger] di@[out@[q] as int]@[k],
                            q,
                        ) by {
                            if q < old_out.len() {
                                assert(appears_before(old_out, di@[out@[q] as int]@[k], q));
                                let p = choose|p: int|
                                    0 <= p < q && old_out[p] == di@[out@[q] as int]@[k];
                                assert(out@[p] == old_out[p]);
                            } else {
                                let d = di@[b as int]@[k];
                                assert(old_done[d as int]);
                                assert(old_out.contains(d));
                                let p = choose|p: int| 0 <= p < old_out.len() && old_out[p] == d;
                                assert(out@[p] == old_out[p]);
                            }
                        }
                        assert forall|x: int| 0 <= x < n implies (done@[x] <==> out@.contains(
                            x as usize,
                        )) by {
                            if x != b {
                                if old_out.contains(x as usize) {
                                    let p = choose|p: int|
                                        0 <= p < old_out.len() && old_out[p] == x as usize;
                                    assert(out@[p] == x as usize);
                                }
                                if out@.contains(x as usize) {
                                    let p = choose|p: int|
                                        0 <= p < out@.len() && out@[p] == x as usize;
                                    assert(old_out[p] == x as usize);
                                }
                            } else {
                                assert(out@[old_out.len() as int] == b);
                            }
                        }
                    }
                },
                None => {
                    if any_left {
                        proof {
                            let x = choose|x: int| 0 <= x < n && !done@[x];
                            if acyclic(*self) {
                                let s = choose|s: Seq<int>| topo_indices(*self, s);
                                assert(s.contains(x));
                                let p = choose|p: int| 0 <= p < s.len() && s[p] == x;
                                lemma_stuck_has_no_order(*self, di@, done@, s, p);
                                assert(false);
                            }
                        }
                        return Err(DagError::CycleDetected);
                    }
                    break;
                },
            }
        }
        proof {
            assert forall|x: int| 0 <= x < n implies #[trigger] out@.contains(x as usize) by {
                assert(done@[x]);
            }
            lemma_distinct_bound(out@, n as int);
        }
        let mut names: Vec<String> = Vec::new();
        let mut p: usize = 0;
        while p < n
            invariant
                n == self.nodes@.len(),
                out@.len() == n,
                forall|q: int| 0 <= q < out@.len() ==> out@[q] < n,
                p <= n,
                names@.len() == p,
                forall|q: int|
                    0 <= q < p ==> (#[trigger] names@[q])@ == self.nodes@[out@[q] as int].name@,
            decreases n - p,
        {
            names.push(self.nodes[out[p]].name.clone());
            p = p + 1;
        }
        proof {
            let s = out@.map_values(|x: usize| x as int);
            assert forall|p: int, q: int|
                0 <= p < s.len() && 0 <= q < s.len() && #[trigger] dep_of(*self, s[q], s[p])
                    implies p < q by {
                lemma_dep_of_index(*self, di@, s[q], s[p]);
                let k = choose|k: int|
                    0 <= k < di@[s[q]]@.len() && di@[s[q]]@[k] == s[p] as usize;
                assert(appears_before(out@, di@[out@[q] as int]@[k], q));
                let p2 = choose|p2: int| 0 <= p2 < q && out@[p2] == di@[out@[q] as int]@[k];
                assert(out@[p2] == out@[p]);
            }
            assert forall|i: int| 0 <= i < n implies #[trigger] s.contains(i) by {
                assert(done@[i]);
                let p = choose|p: int| 0 <= p < out@.len() && out@[p] == i as usize;
                assert(s[p] == i);
            }
            assert(topo_indices(*self, s));
            assert(names_of(names@) =~= s.map_values(|i: int| self.nodes@[i].name@));
            assert(kahn_from(*self, s) == s);
            assert(names_of(names@) == emitted(*self, s));
        }
        Ok(names)
    }
}

/// A dependency cycle: each node depends on the one before it, and the
/// walk ends where it started.
pub open spec fn is_cycle(dag: Dag, c: Seq<int>) -> bool {
    &&& c.len() >= 2
    &&& c[0] == c[c.len() - 1]
    &&& forall|t: int| 1 <= t < c.len() ==> #[trigger] dep_of(dag, c[t], c[t - 1])
}

/// Any topological order lists every node of a valid DAG exactly once, and puts
/// the source of each edge (a dependency) before its target.
pub proof fn lemma_topo_order_is_permutation(dag: Dag, order: Seq<Seq<char>>)
    requires
        unique_names(dag),
        is_topo_order(dag, order),
    ensures
        order.len() == dag.nodes@.len(),
        order.no_duplicates(),
        forall|i: int| 0 <= i < dag.nodes@.len() ==> order.contains(#[trigger] dag.nodes@[i].name@),
        forall|j: int, i: int|
            #![trigger dep_of(dag, j, i)]
            dep_of(dag, j, i) ==> exists|p: int, q: int|
                0 <= p < q < order.len() && order[p] == dag.nodes@[i].name@ && order[q]
                    == dag.nodes@[j].name@,
{
    let s = choose|s: Seq<int>|
        topo_indices(dag, s) && order == s.map_values(|i: int| dag.nodes@[i].name@);
    s_no_dup(dag, s);
    assert forall|a: int, b: int| 0 <= a < order.len() && 0 <= b < order.len() && a != b implies order[a]
        != order[b] by {
        assert(order[a] == dag.nodes@[s[a]].name@);
        assert(order[b] == dag.nodes@[s[b]].name@);
        assert(s[a] != s[b]);
    }
    assert forall|i: int| 0 <= i < dag.nodes@.len() implies order.contains(
        #[trigger] dag.nodes@[i].name@,
    ) by {
        assert(s.contains(i));
        let p = choose|p: int| 0 <= p < s.len() && s[p] == i;
        assert(order[p] == dag.nodes@[i].name@);
    }
    assert forall|j: int, i: int| #[trigger] dep_of(dag, j, i) implies exists|p: int, q: int|
        0 <= p < q < order.len() && order[p] == dag.nodes@[i].name@ && order[q]
            == dag.nodes@[j].name@ by {
        assert(s.contains(i));
        assert(s.contains(j));
        let p = choose|p: int| 0 <= p < s.len() && s[p] == i;
        let q = choose|q: int| 0 <= q < s.len() && s[q] == j;
        assert(dep_of(dag, s[q], s[p]));
        assert(order[p] == dag.nodes@[i].name@);
        assert(order[q] == dag.nodes@[j].name@);
    }
}

/// A graph with a dependency cycle has no topological order, so `topo_order`
/// can only answer it with an error, never with a partial order.
pub proof fn lemma_cycle_has_no_topo_order(dag: Dag, c: Seq<int>, order: Seq<Seq<char>>)
    requires
        is_cycle(dag, c),
    ensures
        !acyclic(dag),
        !valid_dag(dag),
        !is_topo_order(dag, order),
{
    if acyclic(dag) {
        let s = choose|s: Seq<int>| topo_indices(dag, s);
        lemma_cycle_positions(dag, c, s, c.len() - 1);
        let (p0, pt) = choose|p0: int, pt: int|
            0 <= p0 < s.len() && 0 <= pt < s.len() && s[p0] == c[0] && s[pt] == c[c.len() - 1]
                && pt >= p0 + (c.len() - 1);
        lemma_topo_positions_unique(dag, s, p0, pt);
        assert(false);
    }
}

proof fn lemma_cycle_positions(dag: Dag, c: Seq<int>, s: Seq<int>, t: int)
    requires
        is_cycle(dag, c),
        topo_indices(dag, s),
        1 <= t < c.len(),
    ensures
        exists|p0: int, pt: int|
            0 <= p0 < s.len() && 0 <= pt < s.len() && s[p0] == c[0] && s[pt] == c[t] && pt
                >= p0 + t,
    decreases t,
{
    assert(dep_of(dag, c[t], c[t - 1]));
    assert(s.contains(c[t]));
    assert(s.contains(c[t - 1]));
    let pt = choose|pt: int| 0 <= pt < s.len() && s[pt] == c[t];
    let pp = choose|pp: int| 0 <= pp < s.len() && s[pp] == c[t - 1];
    assert(dep_of(dag, s[pt], s[pp]));
    if t == 1 {
        assert(pt >= pp + 1);
    } else {
        lemma_cycle_positions(dag, c, s, t - 1);
        let (p0, pq) = choose|p0: int, pq: int|
            0 <= p0 < s.len() && 0 <= pq < s.len() && s[p0] == c[0] && s[pq] == c[t - 1] && pq
                >= p0 + (t - 1);
        assert(s[pq] == s[pp]);
        lemma_topo_positions_unique(dag, s, pq, pp);
    }
}

proof fn lemma_topo_positions_unique(dag: Dag, s: Seq<int>, a: int, b: int)
    requires
        topo_indices(dag, s),
        0 <= a < s.len(),
        0 <= b < s.len(),
        s[a] == s[b],
    ensures
        a == b,
{
    s_no_dup(dag, s);
}

proof fn s_no_dup(dag: Dag, s: Seq<int>)
    requires
        topo_indices(dag, s),
    ensures
        s.no_duplicates(),
{
    let n = dag.nodes@.len() as int;
    lemma_int_range(0, n);
    assert(set_int_range(0, n).subset_of(s.to_set())) by {
        assert forall|x: int| set_int_range(0, n).contains(x) implies s.to_set().contains(x) by {
            assert(s.contains(x));
        }
    }
    lemma_len_subset(set_int_range(0, n), s.to_set());
    s.lemma_cardinality_of_set();
    s.lemma_no_dup_set_cardinality();
}

fn node(name: &str, deps: &[&str]) -> (r: DagNode)
    ensures
        r.name@ == name@,
        r.deps@.len() == deps@.len(),
        forall|k: int| 0 <= k < deps@.len() ==> (#[trigger] r.deps@[k])@ == deps@[k]@,
{
    let mut v: Vec<String> = Vec::new();
    let mut k: usize = 0;
    while k < deps.len()
        invariant
            k <= deps@.len(),
            v@.len() == k,
            forall|x: int| 0 <= x < k ==> (#[trigger] v@[x])@ == deps@[x]@,
        decreases deps@.len() - k,
    {
        v.push(String::from_str(deps[k]));
        k = k + 1;
    }
    DagNode { name: String::from_str(name), deps: v }
}

/// The music-video pipeline template: lyrics, music, vocals, video plan,
/// video assembly and final render.
/// The music-video pipeline template, node by node.
pub open spec fn is_cssmv_dag(r: Dag) -> bool {
    &&& r.nodes@.len() == 6
    &&& r.nodes@[0].name@ == "lyrics"@ && r.nodes@[0].deps@.len() == 0
    &&& r.nodes@[1].name@ == "music"@ && names_of(r.nodes@[1].deps@) == seq!["lyrics"@]
    &&& r.nodes@[2].name@ == "vocals"@ && names_of(r.nodes@[2].deps@) == seq!["lyrics"@, "music"@]
    &&& r.nodes@[3].name@ == "video_plan"@ && names_of(r.nodes@[3].deps@) == seq![
        "lyrics"@,
        "vocals"@,
    ]
    &&& r.nodes@[4].name@ == "video_assemble"@ && names_of(r.nodes@[4].deps@) == seq![
        "video_plan"@,
    ]
    &&& r.nodes@[5].name@ == "render"@ && names_of(r.nodes@[5].deps@) == seq![
        "lyrics"@,
        "music"@,
        "vocals"@,
        "video_assemble"@,
    ]
}

pub fn cssmv_dag_v1() -> (r: Dag)
    ensures
        is_cssmv_dag(r),
{
    let n0 = node("lyrics", &[]);
    let n1 = node("music", &["lyrics"]);
    let n2 = node("vocals", &["lyrics", "music"]);
    let n3 = node("video_plan", &["lyrics", "vocals"]);
    let n4 = node("video_assemble", &["video_plan"]);
    let n5 = node("render", &["lyrics", "music", "vocals", "video_assemble"]);
    assert(names_of(n1.deps@) =~= seq!["lyrics"@]);
    assert(names_of(n2.deps@) =~= seq!["lyrics"@, "music"@]);
    assert(names_of(n3.deps@) =~= seq!["lyrics"@, "vocals"@]);
    assert(names_of(n4.deps@) =~= seq!["video_plan"@]);
    assert(names_of(n5.deps@) =~= seq!["lyrics"@, "music"@, "vocals"@, "video_assemble"@]);
    Dag { nodes: vec![n0, n1, n2, n3, n4, n5] }
}

/// Position in the template of dependency `k` of template node `j`.
spec fn template_dep_index(j: int, k: int) -> int {
    if j == 2 {
        k
    } else if j == 3 {
        if k == 0 {
            0
        } else {
            2
        }
    } else if j == 4 {
        3
    } else if j == 5 {
        if k < 3 {
            k
        } else {
            4
        }
    } else {
        0
    }
}

/// The built-in template has unique names, known dependencies and no cycle;
/// its declaration order is a topological order.
pub proof fn lemma_cssmv_dag_valid(d: Dag)
    requires
        is_cssmv_dag(d),
    ensures
        valid_dag(d),
        topo_indices(d, seq![0int, 1, 2, 3, 4, 5]),
{
    reveal_strlit("lyrics");
    reveal_strlit("music");
    reveal_strlit("vocals");
    reveal_strlit("video_plan");
    reveal_strlit("video_assemble");
    reveal_strlit("render");
    let names = seq!["lyrics"@, "music"@, "vocals"@, "video_plan"@, "video_assemble"@, "render"@];
    assert forall|i: int| 0 <= i < 6 implies d.nodes@[i].name@ == names[i] by {}
    assert(unique_names(d)) by {
        assert forall|i: int, j: int| 0 <= i < 6 && 0 <= j < 6 && i != j implies names[i]
            != names[j] by {
            assert(names[i].len() != names[j].len() || names[i][0] != names[j][0] || names[i][1]
                != names[j][1]);
        }
    }
    assert(node_names(d) =~= names);
    assert(deps_known(d)) by {
        assert forall|j: int, k: int|
            0 <= j < d.nodes@.len() && 0 <= k < d.nodes@[j].deps@.len() implies node_names(
            d,
        ).contains(#[trigger] d.nodes@[j].deps@[k]@) by {
            assert(node_deps(d, j)[k] == d.nodes@[j].deps@[k]@);
            assert(names_of(d.nodes@[j].deps@)[k] == d.nodes@[j].deps@[k]@);
            assert(names[0] == "lyrics"@ && names[1] == "music"@ && names[2] == "vocals"@);
            assert(names[3] == "video_plan"@ && names[4] == "video_assemble"@);
            let dv = names_of(d.nodes@[j].deps@);
            assert(j != 0);
            let idx = template_dep_index(j, k);
            if j == 1 {
                assert(dv.len() == 1);
                if k == 0 {
                    assert(dv[0] == names[0]);
                }
            }
            if j == 2 {
                assert(dv.len() == 2);
                if k == 0 {
                    assert(dv[0] == names[0]);
                }
                if k == 1 {
                    assert(dv[1] == names[1]);
                }
            }
            if j == 3 {
                assert(dv.len() == 2);
                if k == 0 {
                    assert(dv[0] == names[0]);
                }
                if k == 1 {
                    assert(dv[1] == names[2]);
                }
            }
            if j == 4 {
                assert(dv.len() == 1);
                if k == 0 {
                    assert(dv[0] == names[3]);
                }
            }
            if j == 5 {
                assert(dv.len() == 4);
                if k == 0 {
                    assert(dv[0] == names[0]);
                }
                if k == 1 {
                    assert(dv[1] == names[1]);
                }
                if k == 2 {
                    assert(dv[2] == names[2]);
                }
                if k == 3 {
                    assert(dv[3] == names[4]);
                }
            }
            assert(node_names(d)[idx] == d.nodes@[j].deps@[k]@);
        }
    }
    let s = seq![0int, 1, 2, 3, 4, 5];
    assert forall|i: int| 0 <= i < d.nodes@.len() implies #[trigger] s.contains(i) by {
        assert(s[i] == i);
    }
    assert forall|p: int, q: int|
        0 <= p < s.len() && 0 <= q < s.len() && #[trigger] dep_of(d, s[q], s[p]) implies p < q by {
        assert(s[p] == p && s[q] == q);
        let k = choose|k: int| 0 <= k < node_deps(d, q).len() && node_deps(d, q)[k] == names[p];
        assert(names_of(d.nodes@[q].deps@)[k] == d.nodes@[q].deps@[k]@);
        assert(node_deps(d, q)[k] == d.nodes@[q].deps@[k]@);
        if q == 1 {
            assert(node_deps(d, q)[k] == names[0]);
        } else if q == 2 {
            assert(node_deps(d, q)[k] == names[k]);
        } else if q == 3 {
            assert(node_deps(d, q)[k] == names[if k == 0 { 0int } else { 2 }]);
        } else if q == 4 {
            assert(node_deps(d, q)[k] == names[3]);
        } else if q == 5 {
            assert(node_deps(d, q)[k] == names[if k < 3 { k } else { 4 }]);
        }
        if p >= q {
            assert(names[p] != node_deps(d, q)[k]);
        }
    }
    assert(topo_indices(d, s));
}

} // verus!
