//! The dependency graph of a list of steps and Kahn's algorithm over it.
//!
//! Nodes are the distinct step names; a name is represented by the index of
//! the last step that carries it.  Every dependency that names an existing
//! step contributes an edge from that step to the dependent one (with
//! multiplicity).  The dependencies are acyclic exactly when the nodes admit a
//! topological order, i.e. a listing of all nodes in which every edge points
//! forward.
use vstd::prelude::*;
use crate::error::PipelineError;
use crate::step::PipelineStep;
use crate::text::str_eq;

verus! {

/// Index of the last step named `name`, or -1 when there is none.
pub open spec fn last_index_of(steps: Seq<PipelineStep>, name: Seq<char>) -> int
    decreases steps.len(),
{
    if steps.len() == 0 {
        -1
    } else if steps.last().name@ == name {
        steps.len() - 1
    } else {
        last_index_of(steps.drop_last(), name)
    }
}

/// Step `i` is the node of its name (the last step carrying that name).
pub open spec fn is_node(steps: Seq<PipelineStep>, i: int) -> bool {
    0 <= i < steps.len() && last_index_of(steps, steps[i].name@) == i
}

/// Edges contributed by the dependencies `deps` of the step whose node is
/// `target`.
pub open spec fn dep_edges(steps: Seq<PipelineStep>, deps: Seq<String>, target: int) -> Seq<(usize, usize)>
    decreases deps.len(),
{
    if deps.len() == 0 {
        Seq::empty()
    } else {
        let src = last_index_of(steps, deps.last()@);
        dep_edges(steps, deps.drop_last(), target) + if src >= 0 {
            seq![(src as usize, target as usize)]
        } else {
            Seq::empty()
        }
    }
}

/// Edges contributed by the first `i` steps.
pub open spec fn edges_upto(steps: Seq<PipelineStep>, i: int) -> Seq<(usize, usize)>
    decreases i,
{
    if i <= 0 {
        Seq::empty()
    } else {
        edges_upto(steps, i - 1) + dep_edges(
            steps,
            steps[i - 1].depends_on@,
            last_index_of(steps, steps[i - 1].name@),
        )
    }
}

/// All dependency edges of the steps, each pointing from a dependency to
/// the step that depends on it.
pub open spec fn graph_edges(steps: Seq<PipelineStep>) -> Seq<(usize, usize)> {
    edges_upto(steps, steps.len() as int)
}

/// `order` lists every node exactly once and every edge points forward.
pub open spec fn is_topological_order(steps: Seq<PipelineStep>, order: Seq<usize>) -> bool {
    &&& order.no_duplicates()
    &&& forall|k: int| 0 <= k < order.len() ==> is_node(steps, #[trigger] order[k] as int)
    &&& forall|i: int| is_node(steps, i) ==> order.contains(i as usize)
    &&& forall|p: int, q: int|
        0 <= p <= q < order.len() ==> !graph_edges(steps).contains((order[q], order[p]))
}

/// The dependencies between the steps form no cycle.
pub open spec fn dependencies_acyclic(steps: Seq<PipelineStep>) -> bool {
    exists|order: Seq<usize>| is_topological_order(steps, order)
}

/// Number of edges into `v` whose source is not in `done`.
pub open spec fn count_into(es: Seq<(usize, usize)>, v: usize, done: Set<usize>) -> nat
    decreases es.len(),
{
    if es.len() == 0 {
        0
    } else {
        count_into(es.drop_last(), v, done) + if es.last().1 == v && !done.contains(es.last().0) {
            1nat
        } else {
            0nat
        }
    }
}

/// Number of edges from `c` to `v`.
pub open spec fn count_between(es: Seq<(usize, usize)>, c: usize, v: usize) -> nat
    decreases es.len(),
{
    if es.len() == 0 {
        0
    } else {
        count_between(es.drop_last(), c, v) + if es.last() == (c, v) {
            1nat
        } else {
            0nat
        }
    }
}

/// Number of `true` entries.
pub open spec fn count_true(s: Seq<bool>) -> nat
    decreases s.len(),
{
    if s.len() == 0 {
        0
    } else {
        count_true(s.drop_last()) + if s.last() {
            1nat
        } else {
            0nat
        }
    }
}

pub proof fn lemma_last_index_of(steps: Seq<PipelineStep>, name: Seq<char>)
    ensures
        -1 <= last_index_of(steps, name) < steps.len(),
        last_index_of(steps, name) >= 0 ==> steps[last_index_of(steps, name)].name@ == name,
        forall|j: int|
            last_index_of(steps, name) < j < steps.len() ==> #[trigger] steps[j].name@ != name,
    decreases steps.len(),
{
    if steps.len() > 0 {
        let t = steps.drop_last();
        lemma_last_index_of(t, name);
        let r = last_index_of(steps, name);
        if r >= 0 && r < steps.len() - 1 {
            assert(steps[r] == t[r]);
        }
        assert forall|j: int| last_index_of(steps, name) < j < steps.len() implies #[trigger] steps[j].name@
            != name by {
            if j < steps.len() - 1 {
                assert(steps[j] == t[j]);
            }
        }
    }
}

pub proof fn lemma_last_index_is_node(steps: Seq<PipelineStep>, name: Seq<char>)
    requires
        last_index_of(steps, name) >= 0,
    ensures
        is_node(steps, last_index_of(steps, name)),
{
    lemma_last_index_of(steps, name);
}

proof fn lemma_dep_edges_nodes(steps: Seq<PipelineStep>, deps: Seq<String>, target: int)
    requires
        is_node(steps, target),
        steps.len() <= usize::MAX,
    ensures
        forall|k: int|
            0 <= k < dep_edges(steps, deps, target).len() ==> is_node(
                steps,
                (#[trigger] dep_edges(steps, deps, target)[k]).0 as int,
            ) && is_node(steps, dep_edges(steps, deps, target)[k].1 as int),
    decreases deps.len(),
{
    if deps.len() > 0 {
        lemma_dep_edges_nodes(steps, deps.drop_last(), target);
        let src = last_index_of(steps, deps.last()@);
        if src >= 0 {
            lemma_last_index_is_node(steps, deps.last()@);
        }
        let a = dep_edges(steps, deps.drop_last(), target);
        let b: Seq<(usize, usize)> = if src >= 0 {
            seq![(src as usize, target as usize)]
        } else {
            Seq::empty()
        };
        assert(dep_edges(steps, deps, target) == a + b);
        assert forall|k: int| 0 <= k < (a + b).len() implies is_node(steps, (#[trigger] (a + b)[k]).0 as int)
            && is_node(steps, (a + b)[k].1 as int) by {
            if k < a.len() {
                assert((a + b)[k] == a[k]);
            } else {
                assert((a + b)[k] == b[k - a.len()]);
            }
        }
    }
}

proof fn lemma_edges_upto_nodes(steps: Seq<PipelineStep>, i: int)
    requires
        0 <= i <= steps.len(),
        steps.len() <= usize::MAX,
    ensures
        forall|k: int|
            0 <= k < edges_upto(steps, i).len() ==> is_node(
                steps,
                (#[trigger] edges_upto(steps, i)[k]).0 as int,
            ) && is_node(steps, edges_upto(steps, i)[k].1 as int),
    decreases i,
{
    if i > 0 {
        lemma_edges_upto_nodes(steps, i - 1);
        lemma_last_index_of(steps, steps[i - 1].name@);
        assert(last_index_of(steps, steps[i - 1].name@) >= i - 1);
        lemma_last_index_is_node(steps, steps[i - 1].name@);
        let t = last_index_of(steps, steps[i - 1].name@);
        lemma_dep_edges_nodes(steps, steps[i - 1].depends_on@, t);
        let a = edges_upto(steps, i - 1);
        let b = dep_edges(steps, steps[i - 1].depends_on@, t);
        assert forall|k: int| 0 <= k < (a + b).len() implies is_node(steps, (#[trigger] (a + b)[k]).0 as int)
            && is_node(steps, (a + b)[k].1 as int) by {
            if k < a.len() {
                assert((a + b)[k] == a[k]);
            } else {
                assert((a + b)[k] == b[k - a.len()]);
            }
        }
    }
}

/// Every edge connects two nodes.
pub proof fn lemma_edges_are_nodes(steps: Seq<PipelineStep>)
    requires
        steps.len() <= usize::MAX,
    ensures
        forall|k: int|
            0 <= k < graph_edges(steps).len() ==> is_node(
                steps,
                (#[trigger] graph_edges(steps)[k]).0 as int,
            ) && is_node(steps, graph_edges(steps)[k].1 as int),
{
    lemma_edges_upto_nodes(steps, steps.len() as int);
}

proof fn lemma_count_into_le(es: Seq<(usize, usize)>, v: usize, done: Set<usize>)
    ensures
        count_into(es, v, done) <= es.len(),
    decreases es.len(),
{
    if es.len() > 0 {
        lemma_count_into_le(es.drop_last(), v, done);
    }
}

proof fn lemma_count_true_le(s: Seq<bool>)
    ensures
        count_true(s) <= s.len(),
    decreases s.len(),
{
    if s.len() > 0 {
        lemma_count_true_le(s.drop_last());
    }
}

proof fn lemma_count_true_set(s: Seq<bool>, b: int)
    requires
        0 <= b < s.len(),
        !s[b],
    ensures
        count_true(s.update(b, true)) == count_true(s) + 1,
    decreases s.len(),
{
    if b < s.len() - 1 {
        lemma_count_true_set(s.drop_last(), b);
        assert(s.update(b, true).drop_last() =~= s.drop_last().update(b, true));
    } else {
        assert(s.update(b, true).drop_last() =~= s.drop_last());
    }
}

/// Removing `c` from the sources counted in `done` accounts exactly for the
/// edges from `c`.
proof fn lemma_count_into_insert(es: Seq<(usize, usize)>, v: usize, done: Set<usize>, c: usize)
    requires
        !done.contains(c),
    ensures
        count_into(es, v, done) == count_into(es, v, done.insert(c)) + count_between(es, c, v),
    decreases es.len(),
{
    if es.len() > 0 {
        lemma_count_into_insert(es.drop_last(), v, done, c);
    }
}

/// The edges from `c` to `v` are among those counted into `v`.
proof fn lemma_count_between_le(es: Seq<(usize, usize)>, v: usize, done: Set<usize>, c: usize)
    requires
        !done.contains(c),
    ensures
        count_between(es, c, v) <= count_into(es, v, done),
    decreases es.len(),
{
    if es.len() > 0 {
        lemma_count_between_le(es.drop_last(), v, done, c);
    }
}

/// When all counted edges into `v` come from `c`, every edge into `v` from
/// outside `done` comes from `c`.
proof fn lemma_count_all_from(es: Seq<(usize, usize)>, v: usize, done: Set<usize>, c: usize)
    requires
        !done.contains(c),
        count_into(es, v, done) == count_between(es, c, v),
    ensures
        forall|k: int|
            0 <= k < es.len() && (#[trigger] es[k]).1 == v && !done.contains(es[k].0) ==> es[k].0
                == c,
    decreases es.len(),
{
    if es.len() > 0 {
        let t = es.drop_last();
        lemma_count_between_le(t, v, done, c);
        lemma_count_all_from(t, v, done, c);
        assert forall|k: int|
            0 <= k < es.len() && (#[trigger] es[k]).1 == v && !done.contains(es[k].0) implies es[k].0
            == c by {
            if k < t.len() {
                assert(es[k] == t[k]);
            }
        }
    }
}

/// A positive count is witnessed by an edge.
proof fn lemma_count_into_witness(es: Seq<(usize, usize)>, v: usize, done: Set<usize>)
    requires
        count_into(es, v, done) > 0,
    ensures
        exists|k: int| 0 <= k < es.len() && (#[trigger] es[k]).1 == v && !done.contains(es[k].0),
    decreases es.len(),
{
    let t = es.drop_last();
    if count_into(t, v, done) > 0 {
        lemma_count_into_witness(t, v, done);
        let k = choose|k: int| 0 <= k < t.len() && (#[trigger] t[k]).1 == v && !done.contains(t[k].0);
        assert(es[k] == t[k]);
    } else {
        assert(es[es.len() - 1].1 == v);
    }
}

/// A zero count means every edge into `v` starts in `done`.
proof fn lemma_count_into_zero(es: Seq<(usize, usize)>, v: usize, done: Set<usize>)
    requires
        count_into(es, v, done) == 0,
    ensures
        forall|k: int| 0 <= k < es.len() && (#[trigger] es[k]).1 == v ==> done.contains(es[k].0),
    decreases es.len(),
{
    if es.len() > 0 {
        let t = es.drop_last();
        lemma_count_into_zero(t, v, done);
        assert forall|k: int| 0 <= k < es.len() && (#[trigger] es[k]).1 == v implies done.contains(
            es[k].0,
        ) by {
            if k < t.len() {
                assert(es[k] == t[k]);
            }
        }
    }
}

/// If every node outside `queue` has an edge from another node outside
/// `queue`, and some node is outside `queue`, then no topological order
/// exists.
proof fn lemma_no_order(steps: Seq<PipelineStep>, queue: Seq<usize>, w: int)
    requires
        steps.len() <= usize::MAX,
        is_node(steps, w),
        !queue.contains(w as usize),
        forall|x: int|
            is_node(steps, x) && !queue.contains(x as usize) ==> exists|k: int|
                0 <= k < graph_edges(steps).len() && (#[trigger] graph_edges(steps)[k]).1 == x as usize
                    && !queue.contains(graph_edges(steps)[k].0),
    ensures
        !dependencies_acyclic(steps),
{
    if dependencies_acyclic(steps) {
        let order = choose|order: Seq<usize>| is_topological_order(steps, order);
        lemma_edges_are_nodes(steps);
        lemma_none_outside(steps, queue, order, order.len() as int);
        assert(order.contains(w as usize));
        let p = choose|p: int| 0 <= p < order.len() && order[p] == w as usize;
        assert(queue.contains(order[p]));
    }
}

proof fn lemma_none_outside(steps: Seq<PipelineStep>, queue: Seq<usize>, order: Seq<usize>, p: int)
    requires
        is_topological_order(steps, order),
        0 <= p <= order.len(),
        forall|k: int|
            0 <= k < graph_edges(steps).len() ==> is_node(
                steps,
                (#[trigger] graph_edges(steps)[k]).0 as int,
            ) && is_node(steps, graph_edges(steps)[k].1 as int),
        forall|x: int|
            is_node(steps, x) && !queue.contains(x as usize) ==> exists|k: int|
                0 <= k < graph_edges(steps).len() && (#[trigger] graph_edges(steps)[k]).1 == x as usize
                    && !queue.contains(graph_edges(steps)[k].0),
    ensures
        forall|q: int| 0 <= q < p ==> queue.contains(#[trigger] order[q]),
    decreases p,
{
    if p > 0 {
        lemma_none_outside(steps, queue, order, p - 1);
        let x = order[p - 1];
        if !queue.contains(x) {
            assert(is_node(steps, order[p - 1] as int));
            let es = graph_edges(steps);
            let k = choose|k: int|
                0 <= k < es.len() && (#[trigger] es[k]).1 == x as usize && !queue.contains(es[k].0);
            let u = es[k].0;
            assert(is_node(steps, u as int));
            assert(order.contains(u as usize));
            let q = choose|q: int| 0 <= q < order.len() && order[q] == u;
            assert(es.contains((order[q], order[p - 1])));
            if q >= p - 1 {
            } else {
                assert(queue.contains(order[q]));
            }
        }
    }
}

proof fn lemma_prefix_between_le(es: Seq<(usize, usize)>, c: usize, v: usize, k: int)
    requires
        0 <= k <= es.len(),
    ensures
        count_between(es.subrange(0, k), c, v) <= count_between(es, c, v),
    decreases es.len() - k,
{
    if k < es.len() {
        lemma_prefix_between_le(es, c, v, k + 1);
        assert(es.subrange(0, k + 1).drop_last() =~= es.subrange(0, k));
    } else {
        assert(es.subrange(0, k) =~= es);
    }
}

/// Position of the last step named `name`, if any.
pub fn last_index(steps: &[PipelineStep], name: &str) -> (r: Option<usize>)
    ensures
        match r {
            Some(i) => last_index_of(steps@, name@) == i,
            None => last_index_of(steps@, name@) == -1,
        },
{
    let mut i: usize = steps.len();
    assert(steps@.subrange(0, i as int) =~= steps@);
    while i > 0
        invariant
            i <= steps@.len(),
            last_index_of(steps@, name@) == last_index_of(steps@.subrange(0, i as int), name@),
        decreases i,
    {
        assert(steps@.subrange(0, i as int).drop_last() =~= steps@.subrange(0, i - 1));
        if str_eq(steps[i - 1].name.as_str(), name) {
            return Some(i - 1);
        }
        i = i - 1;
    }
    None
}

/// The dependency graph of a list of steps.
#[derive(Debug)]
pub struct DependencyGraph<'a> {
    steps: &'a [PipelineStep],
    node: Vec<bool>,
    edges: Vec<(usize, usize)>,
    in_degree: Vec<usize>,
}

impl<'a> DependencyGraph<'a> {
    #[verifier::type_invariant]
    spec fn well_formed(self) -> bool {
        &&& self.node@.len() == self.steps@.len()
        &&& forall|i: int| 0 <= i < self.steps@.len() ==> self.node@[i] == is_node(self.steps@, i)
        &&& self.edges@ == graph_edges(self.steps@)
        &&& self.in_degree@.len() == self.steps@.len()
        &&& forall|v: int|
            0 <= v < self.steps@.len() ==> self.in_degree@[v] == count_into(
                self.edges@,
                v as usize,
                Set::empty(),
            )
    }

    /// The steps the graph was built from.
    pub closed spec fn steps_view(self) -> Seq<PipelineStep> {
        self.steps@
    }

    /// Builds the graph of the given steps.
    pub fn new(steps: &'a [PipelineStep]) -> (r: Self)
        ensures
            r.steps_view() == steps@,
    {
        let n = steps.len();
        let mut node: Vec<bool> = Vec::new();
        let mut i: usize = 0;
        while i < n
            invariant
                n == steps@.len(),
                i <= n,
                node@.len() == i,
                forall|j: int| 0 <= j < i ==> node@[j] == is_node(steps@, j),
            decreases n - i,
        {
            let li = last_index(steps, steps[i].name.as_str());
            node.push(li == Some(i));
            i = i + 1;
        }
        let mut edges: Vec<(usize, usize)> = Vec::new();
        let mut i: usize = 0;
        while i < n
            invariant
                n == steps@.len(),
                i <= n,
                edges@ == edges_upto(steps@, i as int),
            decreases n - i,
        {
            let target = last_index(steps, steps[i].name.as_str());
            proof {
                lemma_last_index_of(steps@, steps@[i as int].name@);
            }
            let t = match target {
                Some(t) => t,
                None => i,
            };
            let deps = &steps[i].depends_on;
            let mut k: usize = 0;
            let ghost base = edges@;
            assert(deps@.subrange(0, 0) =~= Seq::<String>::empty());
            assert(edges@ =~= base + dep_edges(steps@, deps@.subrange(0, 0), t as int));
            while k < deps.len()
                invariant
                    n == steps@.len(),
                    i < n,
                    deps == &steps@[i as int].depends_on,
                    t == last_index_of(steps@, steps@[i as int].name@),
                    k <= deps@.len(),
                    base == edges_upto(steps@, i as int),
                    edges@ == base + dep_edges(steps@, deps@.subrange(0, k as int), t as int),
                decreases deps@.len() - k,
            {
                let src = last_index(steps, deps[k].as_str());
                assert(deps@.subrange(0, k + 1).drop_last() =~= deps@.subrange(0, k as int));
                match src {
                    Some(s) => {
                        edges.push((s, t));
                    },
                    None => {},
                }
                assert(edges@ =~= base + dep_edges(steps@, deps@.subrange(0, k + 1), t as int));
                k = k + 1;
            }
            assert(deps@.subrange(0, deps@.len() as int) =~= deps@);
            i = i + 1;
        }
        let mut in_degree: Vec<usize> = Vec::new();
        let mut i: usize = 0;
        while i < n
            invariant
                n == steps@.len(),
                edges@ == graph_edges(steps@),
                i <= n,
                in_degree@.len() == i,
                forall|j: int| 0 <= j < i ==> in_degree@[j] == 0,
            decreases n - i,
        {
            in_degree.push(0);
            i = i + 1;
        }
        proof {
            lemma_edges_are_nodes(steps@);
        }
        let mut e: usize = 0;
        while e < edges.len()
            invariant
                n == steps@.len(),
                edges@ == graph_edges(steps@),
                forall|k: int|
                    0 <= k < edges@.len() ==> is_node(steps@, (#[trigger] edges@[k]).0 as int)
                        && is_node(steps@, edges@[k].1 as int),
                e <= edges@.len(),
                in_degree@.len() == n,
                forall|v: int|
                    0 <= v < n ==> in_degree@[v] == count_into(
                        edges@.subrange(0, e as int),
                        v as usize,
                        Set::empty(),
                    ),
            decreases edges@.len() - e,
        {
            let b = edges[e].1;
            proof {
                lemma_count_into_le(edges@.subrange(0, e as int), b, Set::empty());
                assert(edges@.subrange(0, e + 1).drop_last() =~= edges@.subrange(0, e as int));
            }
            let d = in_degree[b];
            in_degree.set(b, d + 1);
            e = e + 1;
        }
        assert(edges@.subrange(0, edges@.len() as int) =~= edges@);
        DependencyGraph { steps, node, edges, in_degree }
    }

    /// Kahn's algorithm: repeatedly takes a node whose remaining in-degree is
    /// zero.  Returns the nodes in the order taken and whether every node was
    /// taken.
    fn kahn(&self) -> (r: (Vec<usize>, bool))
        ensures
            r.1 ==> is_topological_order(self.steps@, r.0@),
            !r.1 ==> !dependencies_acyclic(self.steps@),
    {
        let n = self.steps.len();
        proof {
            use_type_invariant(self);
            lemma_edges_are_nodes(self.steps@);
        }
        let ghost steps = self.steps@;
        let ghost es = self.edges@;
        let mut indeg: Vec<usize> = Vec::new();
        let mut in_queue: Vec<bool> = Vec::new();
        let mut i: usize = 0;
        while i < n
            invariant
                n == steps.len(),
                i <= n,
                self.in_degree@.len() == n,
                indeg@.len() == i,
                in_queue@.len() == i,
                forall|j: int| 0 <= j < i ==> indeg@[j] == self.in_degree@[j],
                forall|j: int| 0 <= j < i ==> !in_queue@[j],
                count_true(in_queue@) == 0,
            decreases n - i,
        {
            let ghost before = in_queue@;
            indeg.push(self.in_degree[i]);
            in_queue.push(false);
            proof {
                assert(in_queue@.drop_last() =~= before);
            }
            i = i + 1;
        }
        let mut queue: Vec<usize> = Vec::new();
        let mut v: usize = 0;
        while v < n
            invariant
                n == steps.len(),
                steps == self.steps@,
                es == self.edges@,
                es == graph_edges(steps),
                self.node@.len() == n,
                forall|j: int| 0 <= j < n ==> self.node@[j] == is_node(steps, j),
                forall|j: int| 0 <= j < n ==> self.in_degree@[j] == count_into(es, j as usize, Set::empty()),
                v <= n,
                indeg@.len() == n,
                in_queue@.len() == n,
                queue@.len() <= n,
                queue@.len() == count_true(in_queue@),
                queue@.no_duplicates(),
                forall|p: int| 0 <= p < queue@.len() ==> (#[trigger] queue@[p]) < v && is_node(steps, queue@[p] as int)
                    && in_queue@[queue@[p] as int],
                forall|j: int| 0 <= j < n && in_queue@[j] ==> queue@.contains(j as usize),
                forall|j: int| 0 <= j < n ==> indeg@[j] == count_into(es, j as usize, Set::empty()),
                forall|j: int| 0 <= j < v ==> (in_queue@[j] <==> (is_node(steps, j) && indeg@[j] == 0)),
                forall|j: int| v <= j < n ==> !in_queue@[j],
                forall|p: int, k: int|
                    0 <= p < queue@.len() && 0 <= k < es.len() && (#[trigger] es[k]).1 == #[trigger] queue@[p]
                        ==> exists|q: int| 0 <= q < p && queue@[q] == es[k].0,
            decreases n - v,
        {
            if self.node[v] && indeg[v] == 0 {
                proof {
                    lemma_count_into_zero(es, v, Set::empty());
                    lemma_count_true_set(in_queue@, v as int);
                    lemma_count_true_le(in_queue@.update(v as int, true));
                    assert(!queue@.contains(v));
                }
                let ghost old_queue = queue@;
                queue.push(v);
                in_queue.set(v, true);
                proof {
                    assert forall|j: int| 0 <= j < n && in_queue@[j] implies queue@.contains(j as usize) by {
                        if j != v {
                            assert(old_queue.contains(j as usize));
                            let q = choose|q: int| 0 <= q < old_queue.len() && old_queue[q] == j as usize;
                            assert(queue@[q] == old_queue[q]);
                        } else {
                            assert(queue@[old_queue.len() as int] == v);
                        }
                    }
                    assert forall|p: int, k: int|
                        0 <= p < queue@.len() && 0 <= k < es.len() && (#[trigger] es[k]).1
                            == #[trigger] queue@[p] implies exists|q: int| 0 <= q < p && queue@[q] == es[k].0 by {
                        if p < old_queue.len() {
                            assert(queue@[p] == old_queue[p]);
                            let q = choose|q: int| 0 <= q < p && old_queue[q] == es[k].0;
                            assert(queue@[q] == old_queue[q]);
                        } else {
                            assert(es[k].1 == v);
                            assert(Set::<usize>::empty().contains(es[k].0));
                        }
                    }
                }
            }
            v = v + 1;
        }
        let mut head: usize = 0;
        assert(queue@.subrange(0, 0).to_set() =~= Set::<usize>::empty());
        while head < queue.len()
            invariant
                n == steps.len(),
                n <= usize::MAX,
                steps == self.steps@,
                es == self.edges@,
                es == graph_edges(steps),
                forall|k: int|
                    0 <= k < es.len() ==> is_node(steps, (#[trigger] es[k]).0 as int) && is_node(
                        steps,
                        es[k].1 as int,
                    ),
                indeg@.len() == n,
                in_queue@.len() == n,
                head <= queue@.len(),
                queue@.len() <= n,
                queue@.len() == count_true(in_queue@),
                queue@.no_duplicates(),
                forall|p: int| 0 <= p < queue@.len() ==> (#[trigger] queue@[p]) < n && is_node(steps, queue@[p] as int)
                    && in_queue@[queue@[p] as int],
                forall|j: int| 0 <= j < n && in_queue@[j] ==> queue@.contains(j as usize),
                forall|j: int|
                    0 <= j < n && is_node(steps, j) ==> indeg@[j] == count_into(
                        es,
                        j as usize,
                        queue@.subrange(0, head as int).to_set(),
                    ),
                forall|j: int| 0 <= j < n ==> (in_queue@[j] <==> (is_node(steps, j) && indeg@[j] == 0)),
                forall|p: int, k: int|
                    0 <= p < queue@.len() && 0 <= k < es.len() && (#[trigger] es[k]).1 == #[trigger] queue@[p]
                        ==> exists|q: int| 0 <= q < p && queue@[q] == es[k].0,
            decreases n - head,
        {
            let c = queue[head];
            let ghost done = queue@.subrange(0, head as int).to_set();
            proof {
                assert(!done.contains(c)) by {
                    if done.contains(c) {
                        let q = choose|q: int| 0 <= q < head && #[trigger] queue@.subrange(0, head as int)[q] == c;
                        assert(queue@[q] == queue@[head as int]);
                    }
                }
            }
            head = head + 1;
            let ghost prefix = queue@.subrange(0, head as int);
            proof {
                assert(prefix =~= queue@.subrange(0, head - 1) + seq![c]);
                Seq::lemma_to_set_insert_commutes(queue@.subrange(0, head - 1), c);
            }
            let ghost done2 = prefix.to_set();
            assert(done2 =~= done.insert(c));
            let mut k: usize = 0;
            while k < self.edges.len()
                invariant
                    n == steps.len(),
                    n <= usize::MAX,
                    steps == self.steps@,
                    es == self.edges@,
                    es == graph_edges(steps),
                    forall|kk: int|
                        0 <= kk < es.len() ==> is_node(steps, (#[trigger] es[kk]).0 as int) && is_node(
                            steps,
                            es[kk].1 as int,
                        ),
                    k <= es.len(),
                    c < n,
                    !done.contains(c),
                    done2 == done.insert(c),
                    done2 == prefix.to_set(),
                    prefix == queue@.subrange(0, head as int),
                    1 <= head <= queue@.len(),
                    queue@[head - 1] == c,
                    done == queue@.subrange(0, head - 1).to_set(),
                    indeg@.len() == n,
                    in_queue@.len() == n,
                    queue@.len() <= n,
                    queue@.len() == count_true(in_queue@),
                    queue@.no_duplicates(),
                    forall|p: int| 0 <= p < queue@.len() ==> (#[trigger] queue@[p]) < n && is_node(steps, queue@[p] as int)
                        && in_queue@[queue@[p] as int],
                    forall|j: int| 0 <= j < n && in_queue@[j] ==> queue@.contains(j as usize),
                    forall|j: int|
                        0 <= j < n && is_node(steps, j) ==> indeg@[j] + count_between(
                            es.subrange(0, k as int),
                            c,
                            j as usize,
                        ) == count_into(es, j as usize, done),
                    forall|j: int| 0 <= j < n ==> (in_queue@[j] <==> (is_node(steps, j) && indeg@[j] == 0)),
                    forall|p: int, kk: int|
                        0 <= p < queue@.len() && 0 <= kk < es.len() && (#[trigger] es[kk]).1 == #[trigger] queue@[p]
                            ==> exists|q: int| 0 <= q < p && queue@[q] == es[kk].0,
                decreases es.len() - k,
            {
                let (a, b) = self.edges[k];
                proof {
                    assert(es.subrange(0, k + 1).drop_last() =~= es.subrange(0, k as int));
                    assert(is_node(steps, es[k as int].1 as int));
                }
                if a == c {
                    proof {
                        lemma_count_between_le(es.subrange(0, k + 1), b, done, c);
                        lemma_count_between_le(es, b, done, c);
                        lemma_prefix_between_le(es, c, b, k + 1);
                    }
                    let d = indeg[b];
                    indeg.set(b, d - 1);
                    if d - 1 == 0 {
                        proof {
                            lemma_prefix_between_le(es, c, b, k + 1);
                            lemma_count_between_le(es, b, done, c);
                            assert(count_into(es, b, done) == count_between(es, c, b));
                            lemma_count_all_from(es, b, done, c);
                            lemma_count_true_set(in_queue@, b as int);
                            lemma_count_true_le(in_queue@.update(b as int, true));
                            assert(!queue@.contains(b));
                        }
                        let ghost old_queue = queue@;
                        queue.push(b);
                        in_queue.set(b, true);
                        proof {
                            assert(queue@.subrange(0, head as int) =~= old_queue.subrange(0, head as int));
                            assert(queue@.subrange(0, head - 1) =~= old_queue.subrange(0, head - 1));
                            assert forall|p: int, kk: int|
                                0 <= p < queue@.len() && 0 <= kk < es.len() && (#[trigger] es[kk]).1
                                    == #[trigger] queue@[p] implies exists|q: int| 0 <= q < p && queue@[q] == es[kk].0 by {
                                if p < old_queue.len() {
                                    assert(queue@[p] == old_queue[p]);
                                    let q = choose|q: int| 0 <= q < p && old_queue[q] == es[kk].0;
                                    assert(queue@[q] == old_queue[q]);
                                } else {
                                    if done.contains(es[kk].0) {
                                        let sub = old_queue.subrange(0, head - 1);
                                        assert(sub.contains(es[kk].0));
                                        let q = choose|q: int| 0 <= q < sub.len() && #[trigger] sub[q] == es[kk].0;
                                        assert(old_queue[q] == es[kk].0);
                                        assert(queue@[q] == old_queue[q]);
                                    } else {
                                        assert(es[kk].0 == c);
                                        assert(queue@[head - 1] == c);
                                    }
                                }
                            }
                            assert forall|j: int| 0 <= j < n && in_queue@[j] implies queue@.contains(j as usize) by {
                                if j != b {
                                    assert(old_queue.contains(j as usize));
                                    let q = choose|q: int| 0 <= q < old_queue.len() && old_queue[q] == j as usize;
                                    assert(queue@[q] == old_queue[q]);
                                } else {
                                    assert(queue@[old_queue.len() as int] == b);
                                }
                            }
                        }
                    }
                }
                k = k + 1;
            }
            proof {
                assert(es.subrange(0, es.len() as int) =~= es);
                assert forall|j: int| 0 <= j < n && is_node(steps, j) implies indeg@[j] == count_into(
                    es,
                    j as usize,
                    queue@.subrange(0, head as int).to_set(),
                ) by {
                    lemma_count_into_insert(es, j as usize, done, c);
                }
            }
        }
        let mut all = true;
        let mut w: usize = 0;
        let mut missing: usize = 0;
        while w < n
            invariant
                n == steps.len(),
                self.node@.len() == n,
                forall|j: int| 0 <= j < n ==> self.node@[j] == is_node(steps, j),
                in_queue@.len() == n,
                w <= n,
                all ==> forall|j: int| 0 <= j < w && is_node(steps, j) ==> in_queue@[j],
                !all ==> missing < n && is_node(steps, missing as int) && !in_queue@[missing as int],
            decreases n - w,
        {
            if self.node[w] && !in_queue[w] {
                all = false;
                missing = w;
            }
            w = w + 1;
        }
        proof {
            let popped = queue@.subrange(0, head as int).to_set();
            assert(queue@.subrange(0, head as int) =~= queue@);
            if all {
                assert forall|i: int| is_node(steps, i) implies queue@.contains(i as usize) by {
                    assert(in_queue@[i]);
                }
                assert forall|p: int, q: int| 0 <= p <= q < queue@.len() implies !es.contains(
                    (queue@[q], queue@[p]),
                ) by {
                    if es.contains((queue@[q], queue@[p])) {
                        let kk = choose|kk: int| 0 <= kk < es.len() && es[kk] == (queue@[q], queue@[p]);
                        assert(es[kk].1 == queue@[p]);
                        let q2 = choose|q2: int| 0 <= q2 < p && queue@[q2] == es[kk].0;
                        assert(queue@[q2] == queue@[q]);
                    }
                }
            } else {
                assert forall|x: int|
                    is_node(steps, x) && !queue@.contains(x as usize) implies exists|kk: int|
                    0 <= kk < es.len() && (#[trigger] es[kk]).1 == x as usize && !queue@.contains(
                        es[kk].0,
                    ) by {
                    assert(!in_queue@[x]);
                    assert(indeg@[x] > 0);
                    lemma_count_into_witness(es, x as usize, popped);
                    let kk = choose|kk: int|
                        0 <= kk < es.len() && (#[trigger] es[kk]).1 == x as usize && !popped.contains(es[kk].0);
                    assert(!queue@.to_set().contains(es[kk].0));
                }
                assert(!queue@.contains(missing)) by {
                    if queue@.contains(missing) {
                        let p = choose|p: int| 0 <= p < queue@.len() && queue@[p] == missing;
                        assert(in_queue@[queue@[p] as int]);
                    }
                }
                lemma_no_order(steps, queue@, missing as int);
            }
        }
        (queue, all)
    }

    /// Whether the dependencies form no cycle.
    pub fn is_acyclic(&self) -> (r: bool)
        ensures
            r == dependencies_acyclic(self.steps_view()),
    {
        let (_, all) = self.kahn();
        all
    }

    /// The steps in an order in which every step comes after its
    /// dependencies, one step per distinct name; `DependencyCycle` when no
    /// such order exists.
    pub fn topological_sort(&self) -> (r: Result<Vec<&'a PipelineStep>, PipelineError>)
        ensures
            r is Ok <==> dependencies_acyclic(self.steps_view()),
            r is Err ==> r->Err_0 is DependencyCycle,
            r matches Ok(v) ==> exists|order: Seq<usize>|
                is_topological_order(self.steps_view(), order) && order.len() == v@.len() && forall|k: int|
                    0 <= k < order.len() ==> *v@[k] == self.steps_view()[order[k] as int],
    {
        let (queue, all) = self.kahn();
        if !all {
            return Err(PipelineError::DependencyCycle);
        }
        let mut out: Vec<&'a PipelineStep> = Vec::new();
        let mut i: usize = 0;
        while i < queue.len()
            invariant
                is_topological_order(self.steps@, queue@),
                i <= queue@.len(),
                out@.len() == i,
                forall|k: int| 0 <= k < i ==> *out@[k] == self.steps@[queue@[k] as int],
            decreases queue@.len() - i,
        {
            let idx = queue[i];
            proof {
                assert(is_node(self.steps@, queue@[i as int] as int));
            }
            out.push(&self.steps[idx]);
            i = i + 1;
        }
        Ok(out)
    }
}

} // verus!
