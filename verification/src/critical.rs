//! Critical-path analysis: earliest and latest start times of the steps of an
//! acyclic pipeline, the total duration and the steps without slack.
//!
//! Times are in seconds.  A step's duration is its
//! `estimated_duration_seconds` metadata entry, one minute when that is
//! missing or not a number.  Times are attached to step names; where several
//! steps share a name, the last of them stands for the name.
//!
//! The start times are written as functions with an explicit depth bound
//! (`earliest_upto`, `latest_upto`): on an acyclic graph the value no longer
//! changes once the bound reaches the length of the longest dependency chain,
//! and the number of steps is always enough.
use vstd::prelude::*;
use crate::error::PipelineError;
use crate::graph::{
    dep_edges, dependencies_acyclic, edges_upto, graph_edges, is_node, is_topological_order,
    last_index, last_index_of, lemma_last_index_of,
};
use crate::step::{contains_name, names_contain, step_estimate, Pipeline, PipelineStep};
use crate::strmap::StrMap;
use crate::text::parse_u64;
use crate::validator::{
    has_step_named, name_repeated, step_structure_issue, structure_issue, validation_issue,
    PipelineValidator,
};

verus! {

/// Duration assumed for a step without a usable estimate (one minute).
pub const DEFAULT_STEP_DURATION_SECONDS: u64 = 60;

/// A step's duration: its estimate, or the default.
pub open spec fn step_duration(s: PipelineStep) -> u64 {
    match step_estimate(s) {
        Some(d) => d,
        None => DEFAULT_STEP_DURATION_SECONDS,
    }
}

/// The duration attached to the name `n`: that of the last step with this
/// name, or the default when no step has it.
pub open spec fn name_duration(steps: Seq<PipelineStep>, n: Seq<char>) -> u64 {
    let i = last_index_of(steps, n);
    if 0 <= i < steps.len() {
        step_duration(steps[i])
    } else {
        DEFAULT_STEP_DURATION_SECONDS
    }
}

/// The larger of two integers.
pub open spec fn max_int(a: int, b: int) -> int {
    if a >= b {
        a
    } else {
        b
    }
}

/// The smaller of two integers.
pub open spec fn min_int(a: int, b: int) -> int {
    if a <= b {
        a
    } else {
        b
    }
}

/// Earliest start of the name `n`, following dependencies at most `f` levels
/// deep: the latest finish among the dependencies of the step standing for
/// `n`, 0 without dependencies.
pub open spec fn earliest_upto(steps: Seq<PipelineStep>, n: Seq<char>, f: nat) -> int
    decreases f, 1int, 0int,
{
    if f == 0 {
        0
    } else {
        let i = last_index_of(steps, n);
        if 0 <= i < steps.len() {
            deps_finish_max(steps, steps[i].depends_on@, (f - 1) as nat)
        } else {
            0
        }
    }
}

/// Latest finish among the dependencies `deps` (0 when there are none): an
/// existing step finishes at its earliest start plus its duration, a name
/// that no step has counts as finishing after the default duration.
pub open spec fn deps_finish_max(steps: Seq<PipelineStep>, deps: Seq<String>, g: nat) -> int
    decreases g + 1, 0int, deps.len(),
{
    if deps.len() == 0 {
        0
    } else {
        let d = deps.last()@;
        max_int(
            deps_finish_max(steps, deps.drop_last(), g),
            if last_index_of(steps, d) >= 0 {
                earliest_upto(steps, d, g) + name_duration(steps, d)
            } else {
                DEFAULT_STEP_DURATION_SECONDS as int
            },
        )
    }
}

/// Earliest start of the name `n`.
pub open spec fn earliest_start(steps: Seq<PipelineStep>, n: Seq<char>) -> int {
    earliest_upto(steps, n, steps.len())
}

/// Earliest finish of the name `n`.
pub open spec fn earliest_finish(steps: Seq<PipelineStep>, n: Seq<char>) -> int {
    earliest_start(steps, n) + name_duration(steps, n)
}

/// Latest earliest finish among the first `i` steps (0 for none).
pub open spec fn finish_max(steps: Seq<PipelineStep>, i: int) -> int
    decreases i,
{
    if i <= 0 || i > steps.len() {
        0
    } else {
        max_int(finish_max(steps, i - 1), earliest_finish(steps, steps[i - 1].name@))
    }
}

/// Total duration of the pipeline: the latest earliest finish of any step.
pub open spec fn total_duration(steps: Seq<PipelineStep>) -> int {
    finish_max(steps, steps.len() as int)
}

/// Latest start of the name `n` that keeps the total duration `total`,
/// following dependents at most `f` levels deep: the earliest latest start
/// among the steps that depend on `n` (or `total` when none does), minus the
/// duration of `n`.
pub open spec fn latest_upto(steps: Seq<PipelineStep>, n: Seq<char>, total: int, f: nat) -> int
    decreases f, 1int, 0int,
{
    if f == 0 {
        total - name_duration(steps, n)
    } else {
        match dependents_min(steps, n, total, (f - 1) as nat, steps.len() as int) {
            Some(m) => m - name_duration(steps, n),
            None => total - name_duration(steps, n),
        }
    }
}

/// Earliest latest start among the first `i` steps that depend on `n`, or
/// `None` when none of them does.
pub open spec fn dependents_min(steps: Seq<PipelineStep>, n: Seq<char>, total: int, g: nat, i: int) -> Option<int>
    decreases g + 1, 0int, i,
{
    if i <= 0 || i > steps.len() {
        None
    } else {
        let rest = dependents_min(steps, n, total, g, i - 1);
        if names_contain(steps[i - 1].depends_on@, n) {
            let v = latest_upto(steps, steps[i - 1].name@, total, g);
            match rest {
                Some(m) => Some(min_int(m, v)),
                None => Some(v),
            }
        } else {
            rest
        }
    }
}

/// Latest start of the name `n` that keeps the pipeline's total duration.
pub open spec fn latest_start(steps: Seq<PipelineStep>, n: Seq<char>) -> int {
    latest_upto(steps, n, total_duration(steps), steps.len())
}

/// The names of the first `i` steps, in order, whose earliest and latest
/// starts coincide.
pub open spec fn critical_names(steps: Seq<PipelineStep>, i: int) -> Seq<Seq<char>>
    decreases i,
{
    if i <= 0 || i > steps.len() {
        Seq::empty()
    } else {
        critical_names(steps, i - 1) + if earliest_start(steps, steps[i - 1].name@) == latest_start(
            steps,
            steps[i - 1].name@,
        ) {
            seq![steps[i - 1].name@]
        } else {
            Seq::empty()
        }
    }
}

/// Every time of the analysis fits in seconds of `u64`: no earliest finish
/// exceeds `u64::MAX` and no latest start falls before the earliest one.
pub open spec fn schedule_fits(steps: Seq<PipelineStep>) -> bool {
    forall|j: int|
        0 <= j < steps.len() ==> {
            &&& earliest_finish(steps, #[trigger] steps[j].name@) <= u64::MAX
            &&& earliest_start(steps, steps[j].name@) <= latest_start(steps, steps[j].name@)
        }
}

proof fn lemma_dep_edges_contains(steps: Seq<PipelineStep>, deps: Seq<String>, target: int, j: int)
    requires
        0 <= j < deps.len(),
        last_index_of(steps, deps[j]@) >= 0,
    ensures
        dep_edges(steps, deps, target).contains(
            (last_index_of(steps, deps[j]@) as usize, target as usize),
        ),
    decreases deps.len(),
{
    let src = last_index_of(steps, deps.last()@);
    let rest = dep_edges(steps, deps.drop_last(), target);
    if j == deps.len() - 1 {
        assert(dep_edges(steps, deps, target)[rest.len() as int] == (src as usize, target as usize));
    } else {
        lemma_dep_edges_contains(steps, deps.drop_last(), target, j);
        assert(deps.drop_last()[j] == deps[j]);
        let k = choose|k: int|
            0 <= k < rest.len() && rest[k] == (last_index_of(steps, deps[j]@) as usize, target as usize);
        assert(dep_edges(steps, deps, target)[k] == rest[k]);
    }
}

proof fn lemma_edges_upto_grow(steps: Seq<PipelineStep>, i: int, m: int, e: (usize, usize))
    requires
        0 <= i <= m,
        edges_upto(steps, i).contains(e),
    ensures
        edges_upto(steps, m).contains(e),
    decreases m - i,
{
    if i < m {
        lemma_edges_upto_grow(steps, i, m - 1, e);
        let a = edges_upto(steps, m - 1);
        let k = choose|k: int| 0 <= k < a.len() && a[k] == e;
        assert(edges_upto(steps, m)[k] == a[k]);
    }
}

/// A dependency of step `node` on an existing step is an edge of the graph.
pub proof fn lemma_dep_edge(steps: Seq<PipelineStep>, node: int, j: int)
    requires
        0 <= node < steps.len(),
        0 <= j < steps[node].depends_on@.len(),
        last_index_of(steps, steps[node].depends_on@[j]@) >= 0,
    ensures
        graph_edges(steps).contains(
            (
                last_index_of(steps, steps[node].depends_on@[j]@) as usize,
                last_index_of(steps, steps[node].name@) as usize,
            ),
        ),
{
    let deps = steps[node].depends_on@;
    let t = last_index_of(steps, steps[node].name@);
    let e = (last_index_of(steps, deps[j]@) as usize, t as usize);
    lemma_dep_edges_contains(steps, deps, t, j);
    let a = edges_upto(steps, node);
    let b = dep_edges(steps, deps, t);
    let k = choose|k: int| 0 <= k < b.len() && b[k] == e;
    assert(edges_upto(steps, node + 1) == a + b);
    assert(edges_upto(steps, node + 1)[a.len() + k] == e);
    lemma_edges_upto_grow(steps, node + 1, steps.len() as int, e);
}

/// Position in a topological order of the node standing for name `n`.
pub proof fn lemma_position(steps: Seq<PipelineStep>, order: Seq<usize>, n: Seq<char>) -> (q: int)
    requires
        steps.len() <= usize::MAX,
        is_topological_order(steps, order),
        last_index_of(steps, n) >= 0,
    ensures
        0 <= q < order.len(),
        order[q] as int == last_index_of(steps, n),
        steps[order[q] as int].name@ == n,
{
    lemma_last_index_of(steps, n);
    let x = last_index_of(steps, n);
    assert(is_node(steps, x));
    assert(order.contains(x as usize));
    choose|q: int| 0 <= q < order.len() && order[q] == x as usize
}

/// The node of a dependency comes before the node of the step that depends
/// on it.
pub proof fn lemma_dep_before(steps: Seq<PipelineStep>, order: Seq<usize>, p: int, j: int) -> (q: int)
    requires
        steps.len() <= usize::MAX,
        is_topological_order(steps, order),
        0 <= p < order.len(),
        0 <= j < steps[order[p] as int].depends_on@.len(),
        last_index_of(steps, steps[order[p] as int].depends_on@[j]@) >= 0,
    ensures
        0 <= q < p,
        order[q] as int == last_index_of(steps, steps[order[p] as int].depends_on@[j]@),
        steps[order[q] as int].name@ == steps[order[p] as int].depends_on@[j]@,
{
    let node = order[p] as int;
    assert(is_node(steps, node));
    lemma_dep_edge(steps, node, j);
    let q = lemma_position(steps, order, steps[node].depends_on@[j]@);
    if q >= p {
        assert(graph_edges(steps).contains((order[q], order[p])));
    }
    q
}

/// The node of a step that depends on a name comes after the node of that
/// name.
pub proof fn lemma_dependent_after(steps: Seq<PipelineStep>, order: Seq<usize>, p: int, i: int) -> (q: int)
    requires
        steps.len() <= usize::MAX,
        is_topological_order(steps, order),
        0 <= p < order.len(),
        0 <= i < steps.len(),
        names_contain(steps[i].depends_on@, steps[order[p] as int].name@),
    ensures
        p < q < order.len(),
        order[q] as int == last_index_of(steps, steps[i].name@),
        steps[order[q] as int].name@ == steps[i].name@,
{
    let node = order[p] as int;
    let n = steps[node].name@;
    assert(is_node(steps, node));
    let j = choose|j: int| 0 <= j < steps[i].depends_on@.len() && (#[trigger] steps[i].depends_on@[j])@ == n;
    lemma_dep_edge(steps, i, j);
    lemma_last_index_of(steps, steps[i].name@);
    let q = lemma_position(steps, order, steps[i].name@);
    if q <= p {
        assert(graph_edges(steps).contains((order[p], order[q])));
    }
    q
}

/// A list of distinct numbers below `n` has at most `n` entries.
pub proof fn lemma_distinct_below(s: Seq<usize>, n: int)
    requires
        0 <= n,
        s.no_duplicates(),
        forall|k: int| 0 <= k < s.len() ==> s[k] < n,
    ensures
        s.len() <= n,
    decreases n,
{
    if n == 0 {
        if s.len() > 0 {
            assert(s[0] < n);
        }
    } else if s.contains((n - 1) as usize) {
        let p = choose|p: int| 0 <= p < s.len() && s[p] == (n - 1) as usize;
        let t = s.remove(p);
        assert forall|k: int| 0 <= k < t.len() implies t[k] < n - 1 by {
            if k < p {
                assert(t[k] == s[k]);
            } else {
                assert(t[k] == s[k + 1]);
            }
        }
        assert forall|a: int, b: int| 0 <= a < t.len() && 0 <= b < t.len() && a != b implies t[a]
            != t[b] by {
            let sa = if a < p { a } else { a + 1 };
            let sb = if b < p { b } else { b + 1 };
            assert(t[a] == s[sa]);
            assert(t[b] == s[sb]);
        }
        lemma_distinct_below(t, n - 1);
    } else {
        assert forall|k: int| 0 <= k < s.len() implies s[k] < n - 1 by {
            assert(s[k] != (n - 1) as usize);
        }
        lemma_distinct_below(s, n - 1);
    }
}

/// A topological order has at most one entry per step.
pub proof fn lemma_order_len(steps: Seq<PipelineStep>, order: Seq<usize>)
    requires
        is_topological_order(steps, order),
    ensures
        order.len() <= steps.len(),
{
    assert forall|k: int| 0 <= k < order.len() implies order[k] < steps.len() by {
        assert(is_node(steps, order[k] as int));
    }
    lemma_distinct_below(order, steps.len() as int);
}

proof fn lemma_deps_finish_max_eq(steps: Seq<PipelineStep>, deps: Seq<String>, g1: nat, g2: nat)
    requires
        forall|j: int|
            0 <= j < deps.len() && last_index_of(steps, (#[trigger] deps[j])@) >= 0 ==> earliest_upto(
                steps,
                deps[j]@,
                g1,
            ) == earliest_upto(steps, deps[j]@, g2),
    ensures
        deps_finish_max(steps, deps, g1) == deps_finish_max(steps, deps, g2),
    decreases deps.len(),
{
    if deps.len() > 0 {
        let t = deps.drop_last();
        assert forall|j: int|
            0 <= j < t.len() && last_index_of(steps, (#[trigger] t[j])@) >= 0 implies earliest_upto(
            steps,
            t[j]@,
            g1,
        ) == earliest_upto(steps, t[j]@, g2) by {
            assert(t[j] == deps[j]);
        }
        lemma_deps_finish_max_eq(steps, t, g1, g2);
        let last = deps.len() - 1;
        assert(deps.last() == deps[last]);
    }
}

/// Once the depth bound passes a node's position in a topological order, its
/// earliest start no longer changes.
pub proof fn lemma_earliest_stable(steps: Seq<PipelineStep>, order: Seq<usize>, p: int, f: nat)
    requires
        steps.len() <= usize::MAX,
        is_topological_order(steps, order),
        0 <= p < order.len(),
        f >= p + 1,
    ensures
        earliest_upto(steps, steps[order[p] as int].name@, f) == earliest_upto(
            steps,
            steps[order[p] as int].name@,
            (p + 1) as nat,
        ),
    decreases p,
{
    let node = order[p] as int;
    assert(is_node(steps, node));
    let deps = steps[node].depends_on@;
    assert forall|j: int|
        0 <= j < deps.len() && last_index_of(steps, (#[trigger] deps[j])@) >= 0 implies earliest_upto(
        steps,
        deps[j]@,
        (f - 1) as nat,
    ) == earliest_upto(steps, deps[j]@, p as nat) by {
        let q = lemma_dep_before(steps, order, p, j);
        lemma_earliest_stable(steps, order, q, (f - 1) as nat);
        lemma_earliest_stable(steps, order, q, p as nat);
    }
    lemma_deps_finish_max_eq(steps, deps, (f - 1) as nat, p as nat);
}

proof fn lemma_dependents_min_eq(steps: Seq<PipelineStep>, n: Seq<char>, total: int, g1: nat, g2: nat, i: int)
    requires
        forall|j: int|
            0 <= j < i && j < steps.len() && names_contain((#[trigger] steps[j]).depends_on@, n)
                ==> latest_upto(steps, steps[j].name@, total, g1) == latest_upto(
                steps,
                steps[j].name@,
                total,
                g2,
            ),
    ensures
        dependents_min(steps, n, total, g1, i) == dependents_min(steps, n, total, g2, i),
    decreases i,
{
    if i > 0 && i <= steps.len() {
        lemma_dependents_min_eq(steps, n, total, g1, g2, i - 1);
    }
}

/// Once the depth bound passes the number of nodes after a node in a
/// topological order, its latest start no longer changes.
pub proof fn lemma_latest_stable(steps: Seq<PipelineStep>, order: Seq<usize>, total: int, p: int, f: nat)
    requires
        steps.len() <= usize::MAX,
        is_topological_order(steps, order),
        0 <= p < order.len(),
        f >= order.len() - p,
    ensures
        latest_upto(steps, steps[order[p] as int].name@, total, f) == latest_upto(
            steps,
            steps[order[p] as int].name@,
            total,
            (order.len() - p) as nat,
        ),
    decreases order.len() - p,
{
    let node = order[p] as int;
    let n = steps[node].name@;
    let g = (order.len() - p - 1) as nat;
    assert forall|j: int|
        0 <= j < steps.len() && j < steps.len() && names_contain(
            (#[trigger] steps[j]).depends_on@,
            n,
        ) implies latest_upto(steps, steps[j].name@, total, (f - 1) as nat) == latest_upto(
        steps,
        steps[j].name@,
        total,
        g,
    ) by {
        let q = lemma_dependent_after(steps, order, p, j);
        lemma_latest_stable(steps, order, total, q, (f - 1) as nat);
        lemma_latest_stable(steps, order, total, q, g);
    }
    lemma_dependents_min_eq(steps, n, total, (f - 1) as nat, g, steps.len() as int);
}

pub(crate) proof fn lemma_named_iff(steps: Seq<PipelineStep>, n: Seq<char>)
    ensures
        has_step_named(steps, n) <==> last_index_of(steps, n) >= 0,
{
    lemma_last_index_of(steps, n);
    let x = last_index_of(steps, n);
    if has_step_named(steps, n) {
        let w = choose|w: int| 0 <= w < steps.len() && (#[trigger] steps[w]).name@ == n;
        if x < w {
            assert(steps[w].name@ != n);
        }
    }
    if x >= 0 {
        assert(steps[x].name@ == n);
    }
}

proof fn lemma_deps_finish_nonneg(steps: Seq<PipelineStep>, deps: Seq<String>, g: nat)
    ensures
        deps_finish_max(steps, deps, g) >= 0,
    decreases deps.len(),
{
    if deps.len() > 0 {
        lemma_deps_finish_nonneg(steps, deps.drop_last(), g);
    }
}

/// Earliest starts are never negative.
pub proof fn lemma_earliest_nonneg(steps: Seq<PipelineStep>, n: Seq<char>, f: nat)
    ensures
        earliest_upto(steps, n, f) >= 0,
{
    if f > 0 {
        let i = last_index_of(steps, n);
        if 0 <= i < steps.len() {
            lemma_deps_finish_nonneg(steps, steps[i].depends_on@, (f - 1) as nat);
        }
    }
}

/// The set of step names.
pub open spec fn step_name_set(steps: Seq<PipelineStep>) -> Set<Seq<char>> {
    Set::new(|n: Seq<char>| has_step_named(steps, n))
}

/// Outcome of a critical-path analysis.
pub struct CriticalPathAnalysis {
    /// Total duration of the pipeline.
    pub total_duration: u64,
    /// Names of the steps without slack, in pipeline order.
    pub critical_steps: Vec<String>,
    /// Earliest start of each step.
    pub step_earliest_start: StrMap<u64>,
    /// Latest start of each step that keeps the total duration.
    pub step_latest_start: StrMap<u64>,
    /// Slack of each step: latest minus earliest start.
    pub step_slack: StrMap<u64>,
}

/// `a` holds the analysis of `steps`.
pub open spec fn analysis_matches(a: CriticalPathAnalysis, steps: Seq<PipelineStep>) -> bool {
    let crit = critical_names(steps, steps.len() as int);
    &&& a.total_duration == total_duration(steps)
    &&& a.critical_steps@.len() == crit.len()
    &&& forall|k: int| 0 <= k < crit.len() ==> (#[trigger] a.critical_steps@[k])@ == crit[k]
    &&& a.step_earliest_start@.dom() == step_name_set(steps)
    &&& a.step_latest_start@.dom() == step_name_set(steps)
    &&& a.step_slack@.dom() == step_name_set(steps)
    &&& forall|n: Seq<char>|
        #[trigger] a.step_earliest_start@.contains_key(n) ==> a.step_earliest_start@[n]
            == earliest_start(steps, n)
    &&& forall|n: Seq<char>|
        #[trigger] a.step_latest_start@.contains_key(n) ==> a.step_latest_start@[n] == latest_start(
            steps,
            n,
        )
    &&& forall|n: Seq<char>|
        #[trigger] a.step_slack@.contains_key(n) ==> a.step_slack@[n] == latest_start(steps, n)
            - earliest_start(steps, n)
}

/// A step's duration: its estimate, or the default.
fn step_duration_of(step: &PipelineStep) -> (r: u64)
    ensures
        r == step_duration(*step),
{
    match step.metadata.get("estimated_duration_seconds") {
        Some(v) => match parse_u64(v.as_str()) {
            Some(d) => d,
            None => DEFAULT_STEP_DURATION_SECONDS,
        },
        None => DEFAULT_STEP_DURATION_SECONDS,
    }
}

/// The duration attached to a name.
fn name_duration_of(steps: &[PipelineStep], name: &str) -> (r: u64)
    ensures
        r == name_duration(steps@, name@),
{
    proof {
        lemma_last_index_of(steps@, name@);
    }
    match last_index(steps, name) {
        Some(i) => step_duration_of(&steps[i]),
        None => DEFAULT_STEP_DURATION_SECONDS,
    }
}

/// Earliest starts, computed in the dependency order `ordered`.
fn forward_pass(steps: &[PipelineStep], ordered: &Vec<&PipelineStep>, Ghost(order): Ghost<Seq<usize>>) -> (r: StrMap<u64>)
    requires
        is_topological_order(steps@, order),
        order.len() == ordered@.len(),
        forall|k: int| 0 <= k < order.len() ==> *ordered@[k] == steps@[order[k] as int],
        schedule_fits(steps@),
    ensures
        forall|n: Seq<char>| #[trigger] r@.contains_key(n) <==> has_step_named(steps@, n),
        forall|n: Seq<char>| #[trigger] r@.contains_key(n) ==> r@[n] == earliest_start(steps@, n),
{
    let ghost sv = steps@;
    let ghost nn = sv.len();
    proof {
        assert(sv.len() == steps.len());
        lemma_order_len(sv, order);
    }
    let mut earliest: StrMap<u64> = StrMap::new();
    let mut k: usize = 0;
    while k < ordered.len()
        invariant
            steps@ == sv,
            nn == sv.len(),
            sv.len() <= usize::MAX,
            is_topological_order(sv, order),
            order.len() == ordered@.len(),
            order.len() <= nn,
            forall|k: int| 0 <= k < order.len() ==> *ordered@[k] == sv[order[k] as int],
            schedule_fits(sv),
            k <= order.len(),
            forall|j: int|
                0 <= j < k ==> earliest@.contains_key(#[trigger] sv[order[j] as int].name@)
                    && earliest@[sv[order[j] as int].name@] == earliest_start(sv, sv[order[j] as int].name@),
            forall|key: Seq<char>|
                #[trigger] earliest@.contains_key(key) ==> exists|j: int|
                    0 <= j < k && sv[order[j] as int].name@ == key,
        decreases order.len() - k,
    {
        let step: &PipelineStep = ordered[k];
        let deps = &step.depends_on;
        let ghost node = order[k as int] as int;
        proof {
            assert(is_node(sv, node));
            assert forall|j: int|
                0 <= j < deps@.len() && last_index_of(sv, (#[trigger] deps@[j])@) >= 0 implies {
                &&& earliest@.contains_key(deps@[j]@)
                &&& earliest@[deps@[j]@] == earliest_start(sv, deps@[j]@)
                &&& earliest_start(sv, deps@[j]@) == earliest_upto(sv, deps@[j]@, (nn - 1) as nat)
                &&& earliest_finish(sv, deps@[j]@) <= u64::MAX
            } by {
                let q = lemma_dep_before(sv, order, k as int, j);
                assert(earliest@.contains_key(sv[order[q] as int].name@));
                lemma_earliest_stable(sv, order, q, nn as nat);
                lemma_earliest_stable(sv, order, q, (nn - 1) as nat);
                let w = order[q] as int;
                assert(is_node(sv, w));
                assert(earliest_finish(sv, sv[w].name@) <= u64::MAX);
            }
            assert forall|j: int|
                0 <= j < deps@.len() && last_index_of(sv, (#[trigger] deps@[j])@) < 0 implies !earliest@.contains_key(
                deps@[j]@,
            ) by {
                if earliest@.contains_key(deps@[j]@) {
                    let jj = choose|jj: int| 0 <= jj < k && sv[order[jj] as int].name@ == deps@[j]@;
                    assert(is_node(sv, order[jj] as int));
                }
            }
        }
        let mut start: u64 = 0;
        let mut j: usize = 0;
        assert(deps@.subrange(0, 0) =~= Seq::<String>::empty());
        while j < deps.len()
            invariant
                steps@ == sv,
                nn == sv.len(),
                nn >= 1,
                j <= deps@.len(),
                forall|j: int|
                    0 <= j < deps@.len() && last_index_of(sv, (#[trigger] deps@[j])@) >= 0 ==> {
                        &&& earliest@.contains_key(deps@[j]@)
                        &&& earliest@[deps@[j]@] == earliest_start(sv, deps@[j]@)
                        &&& earliest_start(sv, deps@[j]@) == earliest_upto(sv, deps@[j]@, (nn - 1) as nat)
                        &&& earliest_finish(sv, deps@[j]@) <= u64::MAX
                    },
                forall|j: int|
                    0 <= j < deps@.len() && last_index_of(sv, (#[trigger] deps@[j])@) < 0
                        ==> !earliest@.contains_key(deps@[j]@),
                start == deps_finish_max(sv, deps@.subrange(0, j as int), (nn - 1) as nat),
            decreases deps@.len() - j,
        {
            let dep = deps[j].as_str();
            let dep_start: u64 = match earliest.get(dep) {
                Some(v) => *v,
                None => 0,
            };
            let dep_duration = name_duration_of(steps, dep);
            let finish = dep_start + dep_duration;
            if finish > start {
                start = finish;
            }
            proof {
                assert(deps@.subrange(0, j + 1).drop_last() =~= deps@.subrange(0, j as int));
                assert(deps@.subrange(0, j + 1).last() == deps@[j as int]);
            }
            j = j + 1;
        }
        proof {
            assert(deps@.subrange(0, deps@.len() as int) =~= deps@);
            assert(earliest_start(sv, step.name@) == start);
            assert forall|j: int| 0 <= j < k implies sv[order[j] as int].name@ != step.name@ by {
                assert(is_node(sv, order[j] as int));
            }
        }
        earliest.insert(step.name.clone(), start);
        proof {
            assert forall|key: Seq<char>| #[trigger] earliest@.contains_key(key) implies exists|j: int|
                0 <= j < k + 1 && sv[order[j] as int].name@ == key by {
                if key != step.name@ {
                    let jj = choose|jj: int| 0 <= jj < k && sv[order[jj] as int].name@ == key;
                    assert(0 <= jj < k + 1 && sv[order[jj] as int].name@ == key);
                } else {
                    assert(sv[order[k as int] as int].name@ == key);
                }
            }
        }
        k = k + 1;
    }
    proof {
        assert forall|n: Seq<char>| #[trigger] earliest@.contains_key(n) <==> has_step_named(sv, n) by {
            if earliest@.contains_key(n) {
                let jj = choose|jj: int| 0 <= jj < order.len() && sv[order[jj] as int].name@ == n;
                assert(is_node(sv, order[jj] as int));
                assert(sv[order[jj] as int].name@ == n);
            }
            if has_step_named(sv, n) {
                lemma_named_iff(sv, n);
                let q = lemma_position(sv, order, n);
                assert(earliest@.contains_key(sv[order[q] as int].name@));
            }
        }
        assert forall|n: Seq<char>| #[trigger] earliest@.contains_key(n) implies earliest@[n] == earliest_start(
            sv,
            n,
        ) by {
            let jj = choose|jj: int| 0 <= jj < order.len() && sv[order[jj] as int].name@ == n;
            assert(earliest@.contains_key(sv[order[jj] as int].name@));
        }
    }
    earliest
}

/// Latest starts, computed in the reverse of the dependency order `ordered`.
fn backward_pass(steps: &[PipelineStep], ordered: &Vec<&PipelineStep>, total: u64, Ghost(order): Ghost<Seq<usize>>) -> (r: StrMap<u64>)
    requires
        is_topological_order(steps@, order),
        order.len() == ordered@.len(),
        forall|k: int| 0 <= k < order.len() ==> *ordered@[k] == steps@[order[k] as int],
        schedule_fits(steps@),
        total == total_duration(steps@),
    ensures
        forall|n: Seq<char>| #[trigger] r@.contains_key(n) <==> has_step_named(steps@, n),
        forall|n: Seq<char>| #[trigger] r@.contains_key(n) ==> r@[n] == latest_start(steps@, n),
{
    let ghost sv = steps@;
    let ghost nn = sv.len();
    proof {
        assert(sv.len() == steps.len());
        lemma_order_len(sv, order);
    }
    let mut latest: StrMap<u64> = StrMap::new();
    let mut k: usize = ordered.len();
    while k > 0
        invariant
            steps@ == sv,
            nn == sv.len(),
            sv.len() <= usize::MAX,
            is_topological_order(sv, order),
            order.len() == ordered@.len(),
            order.len() <= nn,
            forall|k: int| 0 <= k < order.len() ==> *ordered@[k] == sv[order[k] as int],
            schedule_fits(sv),
            total == total_duration(sv),
            k <= order.len(),
            forall|j: int|
                k <= j < order.len() ==> latest@.contains_key(#[trigger] sv[order[j] as int].name@)
                    && latest@[sv[order[j] as int].name@] == latest_start(sv, sv[order[j] as int].name@),
            forall|key: Seq<char>|
                #[trigger] latest@.contains_key(key) ==> exists|j: int|
                    k <= j < order.len() && sv[order[j] as int].name@ == key,
        decreases k,
    {
        let step: &PipelineStep = ordered[k - 1];
        let name = step.name.as_str();
        let ghost p = k - 1;
        let ghost node = order[p] as int;
        proof {
            assert(is_node(sv, node));
            assert forall|i: int|
                0 <= i < sv.len() && names_contain((#[trigger] sv[i]).depends_on@, name@) implies {
                &&& latest@.contains_key(sv[i].name@)
                &&& latest@[sv[i].name@] == latest_upto(sv, sv[i].name@, total as int, (nn - 1) as nat)
            } by {
                let q = lemma_dependent_after(sv, order, p, i);
                assert(latest@.contains_key(sv[order[q] as int].name@));
                lemma_latest_stable(sv, order, total as int, q, nn as nat);
                lemma_latest_stable(sv, order, total as int, q, (nn - 1) as nat);
            }
        }
        let mut best: Option<u64> = None;
        let mut i: usize = 0;
        while i < steps.len()
            invariant
                steps@ == sv,
                nn == sv.len(),
                nn >= 1,
                i <= nn,
                forall|i: int|
                    0 <= i < sv.len() && names_contain((#[trigger] sv[i]).depends_on@, name@) ==> {
                        &&& latest@.contains_key(sv[i].name@)
                        &&& latest@[sv[i].name@] == latest_upto(
                            sv,
                            sv[i].name@,
                            total as int,
                            (nn - 1) as nat,
                        )
                    },
                match best {
                    Some(b) => dependents_min(sv, name@, total as int, (nn - 1) as nat, i as int) == Some(
                        b as int,
                    ),
                    None => dependents_min(sv, name@, total as int, (nn - 1) as nat, i as int) is None,
                },
            decreases nn - i,
        {
            if contains_name(steps[i].depends_on.as_slice(), name) {
                let v: u64 = match latest.get(steps[i].name.as_str()) {
                    Some(x) => *x,
                    None => total,
                };
                best = match best {
                    Some(b) => Some(
                        if v < b {
                            v
                        } else {
                            b
                        },
                    ),
                    None => Some(v),
                };
            }
            i = i + 1;
        }
        let dur = name_duration_of(steps, name);
        proof {
            lemma_earliest_nonneg(sv, name@, nn as nat);
            assert(sv[node].name@ == name@);
            assert(earliest_start(sv, sv[node].name@) <= latest_start(sv, sv[node].name@));
        }
        let l: u64 = match best {
            Some(b) => b - dur,
            None => total - dur,
        };
        proof {
            assert forall|j: int| k <= j < order.len() implies sv[order[j] as int].name@ != name@ by {
                assert(is_node(sv, order[j] as int));
            }
        }
        latest.insert(step.name.clone(), l);
        proof {
            assert forall|key: Seq<char>| #[trigger] latest@.contains_key(key) implies exists|j: int|
                k - 1 <= j < order.len() && sv[order[j] as int].name@ == key by {
                if key != name@ {
                    let jj = choose|jj: int| k <= jj < order.len() && sv[order[jj] as int].name@ == key;
                    assert(k - 1 <= jj < order.len() && sv[order[jj] as int].name@ == key);
                } else {
                    assert(sv[order[p] as int].name@ == key);
                }
            }
        }
        k = k - 1;
    }
    proof {
        assert forall|n: Seq<char>| #[trigger] latest@.contains_key(n) <==> has_step_named(sv, n) by {
            if latest@.contains_key(n) {
                let jj = choose|jj: int| 0 <= jj < order.len() && sv[order[jj] as int].name@ == n;
                assert(is_node(sv, order[jj] as int));
                assert(sv[order[jj] as int].name@ == n);
            }
            if has_step_named(sv, n) {
                lemma_named_iff(sv, n);
                let q = lemma_position(sv, order, n);
                assert(latest@.contains_key(sv[order[q] as int].name@));
            }
        }
        assert forall|n: Seq<char>| #[trigger] latest@.contains_key(n) implies latest@[n] == latest_start(
            sv,
            n,
        ) by {
            let jj = choose|jj: int| 0 <= jj < order.len() && sv[order[jj] as int].name@ == n;
            assert(latest@.contains_key(sv[order[jj] as int].name@));
        }
    }
    latest
}

impl PipelineValidator {
    /// Critical-path analysis of the pipeline: earliest starts by a forward
    /// pass in dependency order, the total duration, latest starts by a
    /// backward pass, the steps without slack and each step's slack.
    /// `DependencyCycle` when the dependencies form a cycle.
    pub fn analyze_critical_path(pipeline: &Pipeline) -> (r: Result<CriticalPathAnalysis, PipelineError>)
        requires
            dependencies_acyclic(pipeline.steps@) ==> schedule_fits(pipeline.steps@),
        ensures
            r is Ok <==> dependencies_acyclic(pipeline.steps@),
            r is Err ==> r->Err_0 is DependencyCycle,
            r matches Ok(a) ==> analysis_matches(a, pipeline.steps@),
    {
        let steps = pipeline.steps.as_slice();
        let ordered = match Self::order_steps_by_dependencies(steps) {
            Ok(v) => v,
            Err(e) => {
                return Err(e);
            },
        };
        let ghost sv = steps@;
        let ghost order = choose|order: Seq<usize>|
            is_topological_order(sv, order) && order.len() == ordered@.len() && forall|k: int|
                0 <= k < order.len() ==> *ordered@[k] == sv[order[k] as int];
        let ghost nn = sv.len();
        proof {
            assert(sv.len() == steps.len());
            lemma_order_len(sv, order);
        }
        let earliest = forward_pass(steps, &ordered, Ghost(order));
        let mut total: u64 = 0;
        let mut i: usize = 0;
        while i < steps.len()
            invariant
                steps@ == sv,
                i <= sv.len(),
                schedule_fits(sv),
                forall|n: Seq<char>| #[trigger] earliest@.contains_key(n) <==> has_step_named(sv, n),
                forall|n: Seq<char>|
                    #[trigger] earliest@.contains_key(n) ==> earliest@[n] == earliest_start(sv, n),
                total == finish_max(sv, i as int),
            decreases sv.len() - i,
        {
            let name = steps[i].name.as_str();
            assert(has_step_named(sv, name@));
            let start: u64 = match earliest.get(name) {
                Some(v) => *v,
                None => 0,
            };
            let d = name_duration_of(steps, name);
            let f = start + d;
            if f > total {
                total = f;
            }
            i = i + 1;
        }
        let latest = backward_pass(steps, &ordered, total, Ghost(order));
        let mut critical_steps: Vec<String> = Vec::new();
        let mut i: usize = 0;
        while i < steps.len()
            invariant
                steps@ == sv,
                i <= sv.len(),
                forall|n: Seq<char>| #[trigger] earliest@.contains_key(n) <==> has_step_named(sv, n),
                forall|n: Seq<char>|
                    #[trigger] earliest@.contains_key(n) ==> earliest@[n] == earliest_start(sv, n),
                forall|n: Seq<char>| #[trigger] latest@.contains_key(n) <==> has_step_named(sv, n),
                forall|n: Seq<char>|
                    #[trigger] latest@.contains_key(n) ==> latest@[n] == latest_start(sv, n),
                critical_steps@.len() == critical_names(sv, i as int).len(),
                forall|k: int|
                    0 <= k < critical_steps@.len() ==> (#[trigger] critical_steps@[k])@ == critical_names(
                        sv,
                        i as int,
                    )[k],
            decreases sv.len() - i,
        {
            let name = steps[i].name.as_str();
            assert(has_step_named(sv, name@));
            let e: u64 = match earliest.get(name) {
                Some(v) => *v,
                None => 0,
            };
            let l: u64 = match latest.get(name) {
                Some(v) => *v,
                None => 0,
            };
            let ghost before = critical_steps@;
            if e == l {
                critical_steps.push(steps[i].name.clone());
            }
            proof {
                let c = critical_names(sv, i + 1);
                assert forall|k: int| 0 <= k < critical_steps@.len() implies (
                #[trigger] critical_steps@[k])@ == c[k] by {
                    if k < before.len() {
                        assert(critical_steps@[k] == before[k]);
                    }
                }
            }
            i = i + 1;
        }
        let mut step_slack: StrMap<u64> = StrMap::new();
        let mut i: usize = 0;
        while i < steps.len()
            invariant
                steps@ == sv,
                i <= sv.len(),
                schedule_fits(sv),
                forall|n: Seq<char>| #[trigger] earliest@.contains_key(n) <==> has_step_named(sv, n),
                forall|n: Seq<char>|
                    #[trigger] earliest@.contains_key(n) ==> earliest@[n] == earliest_start(sv, n),
                forall|n: Seq<char>| #[trigger] latest@.contains_key(n) <==> has_step_named(sv, n),
                forall|n: Seq<char>|
                    #[trigger] latest@.contains_key(n) ==> latest@[n] == latest_start(sv, n),
                forall|n: Seq<char>|
                    #[trigger] step_slack@.contains_key(n) <==> exists|j: int|
                        0 <= j < i && (#[trigger] sv[j]).name@ == n,
                forall|n: Seq<char>|
                    #[trigger] step_slack@.contains_key(n) ==> step_slack@[n] == latest_start(sv, n)
                        - earliest_start(sv, n),
            decreases sv.len() - i,
        {
            let name = steps[i].name.as_str();
            assert(has_step_named(sv, name@));
            let e: u64 = match earliest.get(name) {
                Some(v) => *v,
                None => 0,
            };
            let l: u64 = match latest.get(name) {
                Some(v) => *v,
                None => 0,
            };
            assert(e <= l);
            step_slack.insert(steps[i].name.clone(), l - e);
            proof {
                assert forall|n: Seq<char>| #[trigger] step_slack@.contains_key(n) implies exists|j: int|
                    0 <= j < i + 1 && (#[trigger] sv[j]).name@ == n by {
                    if n != name@ {
                        let j = choose|j: int| 0 <= j < i && (#[trigger] sv[j]).name@ == n;
                        assert(sv[j].name@ == n);
                    } else {
                        assert(sv[i as int].name@ == n);
                    }
                }
            }
            i = i + 1;
        }
        proof {
            assert(earliest@.dom() =~= step_name_set(sv));
            assert(latest@.dom() =~= step_name_set(sv));
            assert forall|n: Seq<char>| #[trigger] step_slack@.contains_key(n) <==> has_step_named(sv, n) by {
                if has_step_named(sv, n) {
                    let w = choose|w: int| 0 <= w < sv.len() && (#[trigger] sv[w]).name@ == n;
                    assert(sv[w].name@ == n);
                }
                if step_slack@.contains_key(n) {
                    let w = choose|w: int| 0 <= w < sv.len() && (#[trigger] sv[w]).name@ == n;
                    assert(sv[w].name@ == n);
                }
            }
            assert(step_slack@.dom() =~= step_name_set(sv));
        }
        Ok(
            CriticalPathAnalysis {
                total_duration: total,
                critical_steps,
                step_earliest_start: earliest,
                step_latest_start: latest,
                step_slack,
            },
        )
    }
}


/// No two steps share a name.
pub open spec fn names_distinct(steps: Seq<PipelineStep>) -> bool {
    forall|i: int, j: int| 0 <= i < j < steps.len() ==> steps[i].name@ != steps[j].name@
}

proof fn lemma_distinct_node(steps: Seq<PipelineStep>, j: int)
    requires
        names_distinct(steps),
        0 <= j < steps.len(),
    ensures
        last_index_of(steps, steps[j].name@) == j,
{
    lemma_last_index_of(steps, steps[j].name@);
    let x = last_index_of(steps, steps[j].name@);
    if x < j {
        assert(steps[j].name@ != steps[j].name@);
    }
    if x > j {
        assert(steps[x].name@ == steps[j].name@);
    }
}

proof fn lemma_finish_max_ge(steps: Seq<PipelineStep>, i: int, k: int)
    requires
        0 <= k < i <= steps.len(),
    ensures
        finish_max(steps, i) >= earliest_finish(steps, steps[k].name@),
    decreases i,
{
    if k < i - 1 {
        lemma_finish_max_ge(steps, i - 1, k);
    }
}

proof fn lemma_deps_finish_ge(steps: Seq<PipelineStep>, deps: Seq<String>, g: nat, j: int)
    requires
        0 <= j < deps.len(),
        last_index_of(steps, deps[j]@) >= 0,
    ensures
        deps_finish_max(steps, deps, g) >= earliest_upto(steps, deps[j]@, g) + name_duration(steps, deps[j]@),
    decreases deps.len(),
{
    if j < deps.len() - 1 {
        lemma_deps_finish_ge(steps, deps.drop_last(), g, j);
        assert(deps.drop_last()[j] == deps[j]);
    }
}

proof fn lemma_dependents_min_ge(steps: Seq<PipelineStep>, n: Seq<char>, total: int, g: nat, i: int, x: int)
    requires
        forall|j: int|
            0 <= j < i && j < steps.len() && names_contain((#[trigger] steps[j]).depends_on@, n)
                ==> latest_upto(steps, steps[j].name@, total, g) >= x,
    ensures
        dependents_min(steps, n, total, g, i) matches Some(m) ==> m >= x,
    decreases i,
{
    if i > 0 && i <= steps.len() {
        lemma_dependents_min_ge(steps, n, total, g, i - 1, x);
    }
}

/// In a topological order of steps with distinct names, the step at
/// position `p` can finish early enough for its latest start.
proof fn lemma_slack_at(steps: Seq<PipelineStep>, order: Seq<usize>, p: int)
    requires
        steps.len() <= usize::MAX,
        names_distinct(steps),
        is_topological_order(steps, order),
        0 <= p < order.len(),
    ensures
        earliest_finish(steps, steps[order[p] as int].name@) <= latest_upto(
            steps,
            steps[order[p] as int].name@,
            total_duration(steps),
            (order.len() - p) as nat,
        ) + name_duration(steps, steps[order[p] as int].name@),
    decreases order.len() - p,
{
    let big_n = order.len();
    let len = steps.len();
    let t = total_duration(steps);
    let node = order[p] as int;
    let n = steps[node].name@;
    let g = (big_n - p - 1) as nat;
    lemma_order_len(steps, order);
    assert(is_node(steps, node));
    lemma_finish_max_ge(steps, len as int, node);
    lemma_earliest_stable(steps, order, p, len as nat);
    assert forall|j: int|
        0 <= j < len as int && j < steps.len() && names_contain((#[trigger] steps[j]).depends_on@, n)
            implies latest_upto(steps, steps[j].name@, t, g) >= earliest_finish(steps, n) by {
        let q = lemma_dependent_after(steps, order, p, j);
        lemma_distinct_node(steps, j);
        assert(order[q] as int == j);
        lemma_slack_at(steps, order, q);
        lemma_latest_stable(steps, order, t, q, g);
        let k = choose|k: int| 0 <= k < steps[j].depends_on@.len() && (#[trigger] steps[j].depends_on@[k])@ == n;
        lemma_last_index_of(steps, n);
        lemma_deps_finish_ge(steps, steps[j].depends_on@, (len - 1) as nat, k);
        lemma_earliest_stable(steps, order, p, (len - 1) as nat);
        lemma_earliest_stable(steps, order, q, len as nat);
    }
    lemma_dependents_min_ge(steps, n, t, g, len as int, earliest_finish(steps, n));
}

/// With pairwise distinct names, every step is the node of its name.
proof fn lemma_distinct_names_all_nodes(steps: Seq<PipelineStep>, i: int)
    requires
        0 <= i < steps.len(),
        forall|a: int, b: int| 0 <= a < b < steps.len() ==> steps[a].name@ != steps[b].name@,
    ensures
        is_node(steps, i),
    decreases steps.len(),
{
    if i < steps.len() - 1 {
        let t = steps.drop_last();
        assert(steps.last().name@ != steps[i].name@);
        lemma_distinct_names_all_nodes(t, i);
        assert(t[i] == steps[i]);
    }
}

/// Law: when the steps' names are pairwise distinct, an order in which each
/// step comes after its dependencies holds every step exactly once; so
/// `topological_sort`, which succeeds exactly when such an order exists
/// (as `is_acyclic` says), hands back all the steps.
pub proof fn law_topological_order_holds_every_step(steps: Seq<PipelineStep>, order: Seq<usize>)
    requires
        steps.len() <= usize::MAX,
        forall|a: int, b: int| 0 <= a < b < steps.len() ==> steps[a].name@ != steps[b].name@,
        is_topological_order(steps, order),
    ensures
        order.len() == steps.len(),
        forall|i: usize| (i as int) < steps.len() ==> #[trigger] order.contains(i),
{
    lemma_order_len(steps, order);
    let n = steps.len() as int;
    assert forall|i: usize| (i as int) < n implies #[trigger] order.contains(i) by {
        lemma_distinct_names_all_nodes(steps, i as int);
    }
    let mapped = order.map_values(|x: usize| x as int);
    let si = vstd::set_lib::set_int_range(0, n);
    let so = mapped.to_set();
    vstd::set_lib::lemma_int_range(0, n);
    mapped.lemma_cardinality_of_set();
    assert(so.finite()) by {
        vstd::seq_lib::seq_to_set_is_finite(mapped);
    }
    assert forall|i: int| si.contains(i) implies so.contains(i) by {
        assert(0 <= i < n);
        assert(order.contains(i as usize));
        let k = choose|k: int| 0 <= k < order.len() && order[k] == i as usize;
        assert(mapped[k] == order[k] as int);
    }
    vstd::set_lib::lemma_len_subset(si, so);
}

/// Law: in a pipeline whose steps have distinct names and whose dependencies
/// form no cycle, no step has negative slack: its earliest start is never
/// after its latest start.
pub proof fn law_slack_never_negative(steps: Seq<PipelineStep>)
    requires
        steps.len() <= usize::MAX,
        names_distinct(steps),
        dependencies_acyclic(steps),
    ensures
        forall|j: int|
            0 <= j < steps.len() ==> earliest_start(steps, (#[trigger] steps[j]).name@) <= latest_start(
                steps,
                steps[j].name@,
            ),
{
    let order = choose|order: Seq<usize>| is_topological_order(steps, order);
    lemma_order_len(steps, order);
    assert forall|j: int| 0 <= j < steps.len() implies earliest_start(steps, (#[trigger] steps[j]).name@)
        <= latest_start(steps, steps[j].name@) by {
        lemma_distinct_node(steps, j);
        let p = lemma_position(steps, order, steps[j].name@);
        lemma_slack_at(steps, order, p);
        lemma_latest_stable(steps, order, total_duration(steps), p, steps.len() as nat);
    }
}


proof fn lemma_no_structure_issue_distinct(steps: Seq<PipelineStep>, i: int)
    requires
        0 <= i <= steps.len(),
        step_structure_issue(steps, i) is None,
    ensures
        forall|k: int| i <= k < steps.len() ==> !name_repeated(steps, k),
    decreases steps.len() - i,
{
    if i < steps.len() {
        lemma_no_structure_issue_distinct(steps, i + 1);
    }
}

/// Law: a pipeline that passes validation has steps with distinct names
/// and dependencies that form no cycle; so none of its steps has negative
/// slack in the critical-path analysis.
pub proof fn law_valid_pipeline_has_no_negative_slack(p: Pipeline)
    requires
        validation_issue(p) is None,
        p.steps@.len() <= usize::MAX,
    ensures
        names_distinct(p.steps@),
        dependencies_acyclic(p.steps@),
        forall|j: int|
            0 <= j < p.steps@.len() ==> earliest_start(p.steps@, (#[trigger] p.steps@[j]).name@)
                <= latest_start(p.steps@, p.steps@[j].name@),
{
    let steps = p.steps@;
    lemma_no_structure_issue_distinct(steps, 0);
    assert forall|i: int, j: int| 0 <= i < j < steps.len() implies steps[i].name@ != steps[j].name@ by {
        assert(!name_repeated(steps, j));
    }
    law_slack_never_negative(steps);
}

} // verus!
