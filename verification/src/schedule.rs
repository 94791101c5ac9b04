//! Scheduling of a pipeline's steps into groups that may run side by side,
//! with estimates of how long a run takes.
use vstd::prelude::*;
use crate::parallel::{
    combined_needs, deps_among, deref_steps, estimate_group_duration, fit_together,
    lemma_needs_prefix, lemma_timeout_sum_prefix, name_texts, needs_cpu, needs_memory,
    needs_of_steps, needs_priority_max, some_timeout, step_needs, timeout_max, timeout_sum,
    ResourceAnalyzer, ResourceNeeds,
};
use crate::parallel::{calculate_total_duration, known_sum};
use crate::error::{concat2, concat3, concat5};
use crate::parser::{decimal, decimal_string};
use crate::graph::{dependencies_acyclic, is_node, is_topological_order};
use crate::parallel::ParallelError;
use crate::step::{contains_name, Pipeline, PipelineStep};
use crate::critical::{lemma_dep_before, lemma_named_iff};
use crate::validator::{
    dependency_issue_from, has_step_named, missing_dependency, validation_issue, Issue,
    PipelineValidator,
};

verus! {

/// Limits within which steps may run side by side.
#[derive(Debug, Clone, Copy)]
pub struct SchedulerLimits {
    /// CPU available, in quarter cores.
    pub max_cpu_quarters: u64,
    /// Memory available, in megabytes.
    pub max_memory_mb: u64,
    /// How many I/O-heavy steps may run at once.
    pub max_io_tasks: usize,
}

/// A group of steps run together.
#[derive(Debug, Clone)]
pub struct TaskGroup {
    /// Names of the steps, in dependency order.
    pub steps: Vec<String>,
    /// Whether the steps run side by side.
    pub can_run_parallel: bool,
    /// The steps' needs taken together.
    pub resource_requirements: ResourceNeeds,
    /// Estimated duration in seconds, when some step has a timeout.
    pub estimated_duration_seconds: Option<u64>,
    /// Highest priority among the steps.
    pub priority: u8,
}

/// The names of steps.
pub open spec fn step_names_of(g: Seq<PipelineStep>) -> Seq<Seq<char>> {
    g.map_values(|s: PipelineStep| s.name@)
}

/// Grouping state: the closed groups, the names in them, and the group
/// being filled.
pub type GroupingState = (Seq<Seq<PipelineStep>>, Seq<Seq<char>>, Seq<PipelineStep>);

/// One step of the grouping: a step whose dependencies are all in closed
/// groups joins the open group; otherwise the open group (if any) is closed
/// and the step opens a new one.
pub open spec fn grouping_step(st: GroupingState, s: PipelineStep) -> GroupingState {
    if deps_among(s, st.1) {
        (st.0, st.1, st.2.push(s))
    } else if st.2.len() > 0 {
        (st.0.push(st.2), st.1 + step_names_of(st.2), seq![s])
    } else {
        (st.0, st.1, seq![s])
    }
}

/// The grouping state after the steps `steps`.
pub open spec fn grouping_fold(steps: Seq<PipelineStep>) -> GroupingState
    decreases steps.len(),
{
    if steps.len() == 0 {
        (Seq::empty(), Seq::empty(), Seq::empty())
    } else {
        grouping_step(grouping_fold(steps.drop_last()), steps.last())
    }
}

/// The groups of steps given in dependency order: the closed groups and the
/// open one, if any.
pub open spec fn dependency_groups(steps: Seq<PipelineStep>) -> Seq<Seq<PipelineStep>> {
    let st = grouping_fold(steps);
    if st.2.len() > 0 {
        st.0.push(st.2)
    } else {
        st.0
    }
}

/// The steps of a group run side by side: there are several and they fit
/// together within the limits.
pub open spec fn runs_side_by_side(limits: SchedulerLimits, g: Seq<PipelineStep>) -> bool {
    g.len() > 1 && fit_together(g, limits.max_cpu_quarters, limits.max_memory_mb, limits.max_io_tasks)
}

/// Estimated duration of a group: its longest timeout when its steps run
/// side by side, the sum of its timeouts otherwise, nothing when no step
/// has a timeout.
pub open spec fn group_estimate(g: Seq<PipelineStep>, side_by_side: bool) -> Option<u64> {
    if !some_timeout(g) {
        None
    } else if side_by_side {
        Some(timeout_max(g) as u64)
    } else {
        Some(timeout_sum(g) as u64)
    }
}

/// `tg` is the task group built from the steps `g`.
pub open spec fn group_matches(tg: TaskGroup, limits: SchedulerLimits, g: Seq<PipelineStep>) -> bool {
    let par = runs_side_by_side(limits, g);
    &&& name_texts(tg.steps@) == step_names_of(g)
    &&& tg.can_run_parallel == par
    &&& tg.resource_requirements == combined_needs(needs_of_steps(g))
    &&& tg.estimated_duration_seconds == group_estimate(g, par)
    &&& tg.priority == if g.len() == 0 {
        50u8
    } else {
        needs_priority_max(needs_of_steps(g))
    }
}

proof fn lemma_cpu_le_memory(g: Seq<PipelineStep>)
    ensures
        needs_cpu(needs_of_steps(g)) <= needs_memory(needs_of_steps(g)),
    decreases g.len(),
{
    if g.len() > 0 {
        lemma_cpu_le_memory(g.drop_last());
        assert(needs_of_steps(g).drop_last() =~= needs_of_steps(g.drop_last()));
        assert(needs_of_steps(g).last() == step_needs(g.last()));
    }
}

proof fn lemma_max_le_sum(g: Seq<PipelineStep>)
    ensures
        timeout_max(g) <= timeout_sum(g),
    decreases g.len(),
{
    if g.len() > 0 {
        lemma_max_le_sum(g.drop_last());
    }
}

/// The task group of the steps `group`.
pub fn make_task_group(limits: &SchedulerLimits, group: &[&PipelineStep]) -> (r: TaskGroup)
    requires
        timeout_sum(deref_steps(group@)) <= u64::MAX,
        needs_memory(needs_of_steps(deref_steps(group@))) <= u64::MAX,
    ensures
        group_matches(r, *limits, deref_steps(group@)),
        r.estimated_duration_seconds matches Some(d) ==> d <= timeout_sum(deref_steps(group@)),
{
    let ghost g = deref_steps(group@);
    let mut names: Vec<String> = Vec::new();
    let mut reqs: Vec<ResourceNeeds> = Vec::new();
    let mut i: usize = 0;
    while i < group.len()
        invariant
            g == deref_steps(group@),
            i <= group@.len(),
            names@.len() == i,
            reqs@.len() == i,
            forall|k: int| 0 <= k < i ==> (#[trigger] names@[k])@ == g[k].name@,
            forall|k: int| 0 <= k < i ==> #[trigger] reqs@[k] == step_needs(g[k]),
        decreases group@.len() - i,
    {
        names.push(group[i].name.clone());
        reqs.push(ResourceAnalyzer::analyze_step(group[i]));
        i = i + 1;
    }
    proof {
        assert(name_texts(names@) =~= step_names_of(g));
        assert(reqs@ =~= needs_of_steps(g));
        lemma_cpu_le_memory(g);
        lemma_max_le_sum(g);
    }
    let mut exclusive = false;
    let mut k: usize = 0;
    while k < reqs.len()
        invariant
            k <= reqs@.len(),
            exclusive == exists|j: int| 0 <= j < k && (#[trigger] reqs@[j]).requires_exclusive_access,
        decreases reqs@.len() - k,
    {
        exclusive = exclusive || reqs[k].requires_exclusive_access;
        k = k + 1;
    }
    let can_run_parallel = if group.len() > 1 && !exclusive {
        ResourceAnalyzer::can_run_parallel(group, limits.max_cpu_quarters, limits.max_memory_mb, limits.max_io_tasks)
    } else {
        false
    };
    let combined = ResourceNeeds::combine(reqs.as_slice());
    let estimate = estimate_group_duration(group, can_run_parallel);
    let priority = if reqs.len() == 0 {
        50
    } else {
        combined.priority
    };
    TaskGroup {
        steps: names,
        can_run_parallel,
        resource_requirements: combined,
        estimated_duration_seconds: estimate,
        priority,
    }
}


/// The estimated durations of groups.
pub open spec fn group_estimates(gs: Seq<TaskGroup>) -> Seq<Option<u64>> {
    gs.map_values(|g: TaskGroup| g.estimated_duration_seconds)
}

proof fn lemma_timeout_split(s: Seq<PipelineStep>, a: int, b: int)
    requires
        0 <= a <= b <= s.len(),
    ensures
        timeout_sum(s.subrange(0, a)) + timeout_sum(s.subrange(a, b)) == timeout_sum(s.subrange(0, b)),
    decreases b - a,
{
    if b == a {
        assert(s.subrange(a, b) =~= Seq::<PipelineStep>::empty());
    } else {
        lemma_timeout_split(s, a, b - 1);
        assert(s.subrange(a, b).drop_last() =~= s.subrange(a, b - 1));
        assert(s.subrange(0, b).drop_last() =~= s.subrange(0, b - 1));
    }
}

proof fn lemma_memory_split(s: Seq<ResourceNeeds>, a: int, b: int)
    requires
        0 <= a <= b <= s.len(),
    ensures
        needs_memory(s.subrange(0, a)) + needs_memory(s.subrange(a, b)) == needs_memory(s.subrange(0, b)),
    decreases b - a,
{
    if b == a {
        assert(s.subrange(a, b) =~= Seq::<ResourceNeeds>::empty());
    } else {
        lemma_memory_split(s, a, b - 1);
        assert(s.subrange(a, b).drop_last() =~= s.subrange(a, b - 1));
        assert(s.subrange(0, b).drop_last() =~= s.subrange(0, b - 1));
    }
}

/// A segment of the steps keeps within the bounds that hold of all of them.
proof fn lemma_segment_fits(s: Seq<PipelineStep>, a: int, b: int)
    requires
        0 <= a <= b <= s.len(),
        timeout_sum(s) <= u64::MAX,
        needs_memory(needs_of_steps(s)) <= u64::MAX,
    ensures
        timeout_sum(s.subrange(a, b)) <= timeout_sum(s.subrange(0, b)) <= u64::MAX,
        needs_memory(needs_of_steps(s.subrange(a, b))) <= u64::MAX,
{
    lemma_timeout_split(s, a, b);
    lemma_timeout_sum_prefix(s, b);
    let n = needs_of_steps(s);
    assert(needs_of_steps(s.subrange(a, b)) =~= n.subrange(a, b));
    lemma_memory_split(n, a, b);
    lemma_needs_prefix(n, b);
}

/// Groups steps given in dependency order: consecutive steps whose
/// dependencies all lie in earlier groups share a group.
pub fn create_task_groups(limits: &SchedulerLimits, ordered: &[&PipelineStep]) -> (r: Vec<TaskGroup>)
    requires
        timeout_sum(deref_steps(ordered@)) <= u64::MAX,
        needs_memory(needs_of_steps(deref_steps(ordered@))) <= u64::MAX,
    ensures
        r@.len() == dependency_groups(deref_steps(ordered@)).len(),
        forall|k: int|
            0 <= k < r@.len() ==> group_matches(#[trigger] r@[k], *limits, dependency_groups(deref_steps(ordered@))[k]),
        known_sum(group_estimates(r@)) <= timeout_sum(deref_steps(ordered@)),
{
    let ghost steps = deref_steps(ordered@);
    let ghost mut start: int = 0;
    let mut groups: Vec<TaskGroup> = Vec::new();
    let mut processed: Vec<String> = Vec::new();
    let mut current: Vec<&PipelineStep> = Vec::new();
    let mut i: usize = 0;
    proof {
        assert(deref_steps(current@) =~= steps.subrange(0, 0));
        assert(name_texts(processed@) =~= Seq::<Seq<char>>::empty());
        assert(group_estimates(groups@) =~= Seq::<Option<u64>>::empty());
    }
    while i < ordered.len()
        invariant
            steps == deref_steps(ordered@),
            timeout_sum(steps) <= u64::MAX,
            needs_memory(needs_of_steps(steps)) <= u64::MAX,
            i <= ordered@.len(),
            0 <= start <= i,
            ({
                let st = grouping_fold(steps.subrange(0, i as int));
                &&& groups@.len() == st.0.len()
                &&& forall|k: int| 0 <= k < groups@.len() ==> group_matches(#[trigger] groups@[k], *limits, st.0[k])
                &&& name_texts(processed@) == st.1
                &&& deref_steps(current@) == st.2
                &&& st.2 == steps.subrange(start, i as int)
            }),
            known_sum(group_estimates(groups@)) <= timeout_sum(steps.subrange(0, start)),
        decreases ordered@.len() - i,
    {
        let step = ordered[i];
        let ghost st = grouping_fold(steps.subrange(0, i as int));
        proof {
            assert(steps.subrange(0, i + 1).drop_last() =~= steps.subrange(0, i as int));
            assert(steps.subrange(0, i + 1).last() == *step);
        }
        let mut all_done = true;
        let mut k: usize = 0;
        while k < step.depends_on.len()
            invariant
                k <= step.depends_on@.len(),
                name_texts(processed@) == st.1,
                all_done == forall|m: int| 0 <= m < k ==> st.1.contains((#[trigger] step.depends_on@[m])@),
            decreases step.depends_on@.len() - k,
        {
            let found = contains_name(processed.as_slice(), step.depends_on[k].as_str());
            proof {
                if found {
                    let j = choose|j: int| 0 <= j < processed@.len() && (#[trigger] processed@[j])@ == step.depends_on@[k as int]@;
                    assert(name_texts(processed@)[j] == step.depends_on@[k as int]@);
                } else {
                    assert forall|j: int| 0 <= j < st.1.len() implies st.1[j] != step.depends_on@[k as int]@ by {
                        assert(st.1[j] == processed@[j]@);
                    }
                }
            }
            all_done = all_done && found;
            k = k + 1;
        }
        if all_done {
            current.push(step);
            proof {
                assert(deref_steps(current@) =~= st.2.push(*step));
                assert(steps.subrange(start, i + 1) =~= steps.subrange(start, i as int).push(*step));
            }
        } else {
            if current.len() > 0 {
                let ghost before_p = processed@;
                let mut j: usize = 0;
                while j < current.len()
                    invariant
                        j <= current@.len(),
                        name_texts(processed@) == name_texts(before_p) + step_names_of(deref_steps(current@)).subrange(0, j as int),
                    decreases current@.len() - j,
                {
                    let ghost prev = processed@;
                    processed.push(current[j].name.clone());
                    proof {
                        assert(name_texts(processed@) =~= name_texts(prev).push(current@[j as int].name@));
                        assert(step_names_of(deref_steps(current@)).subrange(0, j + 1) =~= step_names_of(deref_steps(current@)).subrange(0, j as int).push(current@[j as int].name@));
                    }
                    j = j + 1;
                }
                proof {
                    assert(step_names_of(deref_steps(current@)).subrange(0, current@.len() as int) =~= step_names_of(deref_steps(current@)));
                    lemma_segment_fits(steps, start, i as int);
                    lemma_timeout_split(steps, start, i as int);
                }
                let tg = make_task_group(limits, current.as_slice());
                let ghost before_g = groups@;
                groups.push(tg);
                proof {
                    assert forall|k: int| 0 <= k < groups@.len() implies group_matches(#[trigger] groups@[k], *limits, st.0.push(st.2)[k]) by {
                        if k < before_g.len() {
                            assert(groups@[k] == before_g[k]);
                        }
                    }
                    assert(group_estimates(groups@).drop_last() =~= group_estimates(before_g));
                    start = i as int;
                }
                current = Vec::new();
            }
            current.push(step);
            proof {
                assert(deref_steps(current@) =~= seq![*step]);
                assert(steps.subrange(start, i + 1) =~= seq![*step]);
            }
        }
        i = i + 1;
    }
    proof {
        assert(steps.subrange(0, ordered@.len() as int) =~= steps);
        lemma_timeout_sum_prefix(steps, start);
    }
    if current.len() > 0 {
        proof {
            lemma_segment_fits(steps, start, i as int);
            lemma_timeout_split(steps, start, i as int);
        }
        let tg = make_task_group(limits, current.as_slice());
        let ghost before_g = groups@;
        groups.push(tg);
        proof {
            let st = grouping_fold(steps);
            assert forall|k: int| 0 <= k < groups@.len() implies group_matches(#[trigger] groups@[k], *limits, st.0.push(st.2)[k]) by {
                if k < before_g.len() {
                    assert(groups@[k] == before_g[k]);
                }
            }
            assert(group_estimates(groups@).drop_last() =~= group_estimates(before_g));
        }
    }
    groups
}


/// A group counts as critical: its duration is known and it has priority 70
/// or more or takes a minute or more.
pub open spec fn group_is_critical(g: TaskGroup) -> bool {
    g.estimated_duration_seconds matches Some(d) && (g.priority >= 70 || d >= 60)
}

/// The step names of the groups that satisfy `keep`, in order.
pub open spec fn names_of_groups(groups: Seq<TaskGroup>, keep: spec_fn(TaskGroup) -> bool) -> Seq<Seq<char>>
    decreases groups.len(),
{
    if groups.len() == 0 {
        Seq::empty()
    } else {
        names_of_groups(groups.drop_last(), keep) + if keep(groups.last()) {
            name_texts(groups.last().steps@)
        } else {
            Seq::empty()
        }
    }
}

/// The critical path of a plan: the steps of its critical groups, or of all
/// its groups when none is critical.
pub open spec fn critical_path_of(groups: Seq<TaskGroup>) -> Seq<Seq<char>> {
    let crit = names_of_groups(groups, |g: TaskGroup| group_is_critical(g));
    if crit.len() > 0 {
        crit
    } else {
        names_of_groups(groups, |g: TaskGroup| true)
    }
}

/// The steps of a kept group are among the names of the kept groups.
proof fn lemma_names_of_groups_has(groups: Seq<TaskGroup>, keep: spec_fn(TaskGroup) -> bool, k: int, i: int)
    requires
        0 <= k < groups.len(),
        keep(groups[k]),
        0 <= i < groups[k].steps@.len(),
    ensures
        names_of_groups(groups, keep).contains(groups[k].steps@[i]@),
    decreases groups.len(),
{
    let pre = names_of_groups(groups.drop_last(), keep);
    if k < groups.len() - 1 {
        lemma_names_of_groups_has(groups.drop_last(), keep, k, i);
        assert(groups.drop_last()[k] == groups[k]);
        let j = choose|j: int| 0 <= j < pre.len() && pre[j] == groups[k].steps@[i]@;
        assert(names_of_groups(groups, keep)[j] == pre[j]);
    } else {
        let last = name_texts(groups.last().steps@);
        assert(last[i] == groups[k].steps@[i]@);
        assert(names_of_groups(groups, keep)[pre.len() + i] == last[i]);
    }
}

/// Every name among the names of the kept groups is a step of a kept group.
proof fn lemma_names_of_groups_from(groups: Seq<TaskGroup>, keep: spec_fn(TaskGroup) -> bool, x: Seq<char>)
    requires
        names_of_groups(groups, keep).contains(x),
    ensures
        exists|k: int, i: int|
            0 <= k < groups.len() && keep(groups[k]) && 0 <= i < groups[k].steps@.len() && (
            #[trigger] groups[k].steps@[i])@ == x,
    decreases groups.len(),
{
    let pre = names_of_groups(groups.drop_last(), keep);
    let all = names_of_groups(groups, keep);
    let j = choose|j: int| 0 <= j < all.len() && all[j] == x;
    if j < pre.len() {
        assert(pre[j] == x);
        lemma_names_of_groups_from(groups.drop_last(), keep, x);
        let (k, i) = choose|k: int, i: int|
            0 <= k < groups.drop_last().len() && keep(groups.drop_last()[k]) && 0 <= i < groups.drop_last()[k].steps@.len()
                && (#[trigger] groups.drop_last()[k].steps@[i])@ == x;
        assert(groups.drop_last()[k] == groups[k]);
        assert(groups[k].steps@[i]@ == x);
    } else {
        let k = groups.len() - 1;
        let i = j - pre.len();
        assert(keep(groups.last()));
        assert(name_texts(groups.last().steps@)[i] == x);
        assert(groups[k].steps@[i]@ == x);
    }
}

/// Law: a task group whose estimated duration is known and is a minute or
/// more has every one of its steps on the plan's critical path.
pub proof fn law_long_groups_are_on_the_critical_path(groups: Seq<TaskGroup>, k: int, i: int)
    requires
        0 <= k < groups.len(),
        groups[k].estimated_duration_seconds matches Some(d) && d >= 60,
        0 <= i < groups[k].steps@.len(),
    ensures
        critical_path_of(groups).contains(groups[k].steps@[i]@),
{
    let keep = |g: TaskGroup| group_is_critical(g);
    lemma_names_of_groups_has(groups, keep, k, i);
}

/// Law: when some group (group `k0`, with step `i0`) has a known estimated
/// duration and priority 70 or more or takes a minute or more, every step
/// on the critical path is a step of such a group; so a group with a known duration under a minute
/// and priority under 70 contributes none of its own steps.
pub proof fn law_critical_path_holds_only_qualifying_groups(groups: Seq<TaskGroup>, k0: int, i0: int, x: Seq<char>)
    requires
        0 <= k0 < groups.len(),
        0 <= i0 < groups[k0].steps@.len(),
        groups[k0].estimated_duration_seconds matches Some(d) && (groups[k0].priority >= 70 || d >= 60),
        critical_path_of(groups).contains(x),
    ensures
        exists|k: int, i: int|
            0 <= k < groups.len() && (groups[k].estimated_duration_seconds matches Some(d) && (groups[k].priority >= 70
                || d >= 60)) && 0 <= i < groups[k].steps@.len() && (#[trigger] groups[k].steps@[i])@ == x,
{
    let keep = |g: TaskGroup| group_is_critical(g);
    lemma_names_of_groups_has(groups, keep, k0, i0);
    assert(names_of_groups(groups, keep).len() > 0);
    lemma_names_of_groups_from(groups, keep, x);
}

/// Appends copies of `names` to `out`.
fn append_names(out: &mut Vec<String>, names: &Vec<String>)
    ensures
        name_texts(final(out)@) == name_texts(old(out)@) + name_texts(names@),
{
    let ghost start = out@;
    let mut i: usize = 0;
    while i < names.len()
        invariant
            i <= names@.len(),
            name_texts(out@) == name_texts(start) + name_texts(names@).subrange(0, i as int),
        decreases names@.len() - i,
    {
        let ghost prev = out@;
        out.push(names[i].clone());
        proof {
            assert(name_texts(out@) =~= name_texts(prev).push(names@[i as int]@));
            assert(name_texts(names@).subrange(0, i + 1) =~= name_texts(names@).subrange(0, i as int).push(names@[i as int]@));
        }
        i = i + 1;
    }
    assert(name_texts(names@).subrange(0, names@.len() as int) =~= name_texts(names@));
}

/// The steps of the groups that satisfy the critical-path test (or, with
/// `all`, of every group), in order.
fn collect_names(groups: &[TaskGroup], all: bool) -> (r: Vec<String>)
    ensures
        name_texts(r@) == if all {
            names_of_groups(groups@, |g: TaskGroup| true)
        } else {
            names_of_groups(groups@, |g: TaskGroup| group_is_critical(g))
        },
{
    let ghost keep = if all {
        |g: TaskGroup| true
    } else {
        |g: TaskGroup| group_is_critical(g)
    };
    let mut out: Vec<String> = Vec::new();
    let mut i: usize = 0;
    assert(name_texts(out@) =~= Seq::<Seq<char>>::empty());
    while i < groups.len()
        invariant
            keep == if all {
                |g: TaskGroup| true
            } else {
                |g: TaskGroup| group_is_critical(g)
            },
            i <= groups@.len(),
            name_texts(out@) == names_of_groups(groups@.subrange(0, i as int), keep),
        decreases groups@.len() - i,
    {
        proof {
            assert(groups@.subrange(0, i + 1).drop_last() =~= groups@.subrange(0, i as int));
            assert(groups@.subrange(0, i + 1).last() == groups@[i as int]);
        }
        let g = &groups[i];
        let take = all || match g.estimated_duration_seconds {
            Some(d) => g.priority >= 70 || d >= 60,
            None => false,
        };
        if take {
            append_names(&mut out, &g.steps);
        } else {
            assert(name_texts(out@) =~= names_of_groups(groups@.subrange(0, i + 1), keep));
        }
        i = i + 1;
    }
    assert(groups@.subrange(0, groups@.len() as int) =~= groups@);
    out
}

/// The critical path heuristic: the steps of the groups whose duration is
/// known and that have priority 70 or more or take a minute or more; the
/// steps of all groups when there is none.
pub fn find_critical_path(groups: &[TaskGroup]) -> (r: Vec<String>)
    ensures
        name_texts(r@) == critical_path_of(groups@),
{
    let crit = collect_names(groups, false);
    if crit.len() == 0 {
        collect_names(groups, true)
    } else {
        crit
    }
}

/// How many steps of a group run at once.
pub open spec fn group_width(g: TaskGroup) -> nat {
    if g.can_run_parallel {
        g.steps@.len()
    } else {
        1
    }
}

/// The largest width of the groups, 1 when there are none.
pub open spec fn parallelism_of(groups: Seq<TaskGroup>) -> nat
    decreases groups.len(),
{
    if groups.len() == 0 {
        1
    } else {
        let rest = parallelism_of(groups.drop_last());
        if group_width(groups.last()) > rest {
            group_width(groups.last())
        } else {
            rest
        }
    }
}

/// The estimated duration of a plan: the sum of the known group estimates,
/// nothing when none is known.
pub open spec fn total_estimate_of(groups: Seq<TaskGroup>) -> Option<u64> {
    if exists|i: int| 0 <= i < groups.len() && (#[trigger] groups[i]).estimated_duration_seconds is Some {
        Some(known_sum(group_estimates(groups)) as u64)
    } else {
        None
    }
}

/// A plan for running steps group by group.
#[derive(Debug)]
pub struct ExecutionPlan {
    /// The groups, in the order they run.
    pub task_groups: Vec<TaskGroup>,
    /// Estimated duration in seconds.
    pub estimated_total_duration_seconds: Option<u64>,
    /// Most steps running at once.
    pub max_parallelism: usize,
    /// Steps on the critical path.
    pub critical_path: Vec<String>,
}

/// `plan` is the plan of the steps `ordered`, given in dependency order.
pub open spec fn plan_matches(plan: ExecutionPlan, limits: SchedulerLimits, ordered: Seq<PipelineStep>) -> bool {
    let gs = dependency_groups(ordered);
    &&& plan.task_groups@.len() == gs.len()
    &&& forall|k: int| 0 <= k < gs.len() ==> group_matches(#[trigger] plan.task_groups@[k], limits, gs[k])
    &&& plan.estimated_total_duration_seconds == total_estimate_of(plan.task_groups@)
    &&& plan.max_parallelism == parallelism_of(plan.task_groups@)
    &&& name_texts(plan.critical_path@) == critical_path_of(plan.task_groups@)
}

/// The plan of steps given in dependency order: their groups, the total of
/// the groups' estimates, the widest group and the critical path.
pub fn plan_ordered_steps(limits: &SchedulerLimits, ordered: &[&PipelineStep]) -> (r: ExecutionPlan)
    requires
        timeout_sum(deref_steps(ordered@)) <= u64::MAX,
        needs_memory(needs_of_steps(deref_steps(ordered@))) <= u64::MAX,
    ensures
        plan_matches(r, *limits, deref_steps(ordered@)),
{
    let groups = create_task_groups(limits, ordered);
    let mut durations: Vec<Option<u64>> = Vec::new();
    let mut width: usize = 1;
    let mut i: usize = 0;
    while i < groups.len()
        invariant
            i <= groups@.len(),
            durations@ == group_estimates(groups@.subrange(0, i as int)),
            width == parallelism_of(groups@.subrange(0, i as int)),
        decreases groups@.len() - i,
    {
        proof {
            assert(groups@.subrange(0, i + 1).drop_last() =~= groups@.subrange(0, i as int));
            assert(groups@.subrange(0, i + 1).last() == groups@[i as int]);
        }
        let g = &groups[i];
        durations.push(g.estimated_duration_seconds);
        let w = if g.can_run_parallel {
            g.steps.len()
        } else {
            1
        };
        if w > width {
            width = w;
        }
        proof {
            assert(durations@ =~= group_estimates(groups@.subrange(0, i + 1)));
        }
        i = i + 1;
    }
    proof {
        assert(groups@.subrange(0, groups@.len() as int) =~= groups@);
        assert forall|k: int| 0 <= k < durations@.len() && (#[trigger] durations@[k]) is Some implies exists|j: int|
            0 <= j < groups@.len() && (#[trigger] groups@[j]).estimated_duration_seconds is Some by {
            assert(groups@[k].estimated_duration_seconds == durations@[k]);
        }
        assert forall|j: int| 0 <= j < groups@.len() && (#[trigger] groups@[j]).estimated_duration_seconds is Some implies exists|k: int|
            0 <= k < durations@.len() && (#[trigger] durations@[k]) is Some by {
            assert(groups@[j].estimated_duration_seconds == durations@[j]);
        }
    }
    let total = calculate_total_duration(durations.as_slice());
    let critical_path = find_critical_path(groups.as_slice());
    ExecutionPlan {
        task_groups: groups,
        estimated_total_duration_seconds: total,
        max_parallelism: width,
        critical_path,
    }
}


/// Sum of a measure over steps.
pub open spec fn measure_sum(s: Seq<PipelineStep>, f: spec_fn(PipelineStep) -> nat) -> nat
    decreases s.len(),
{
    if s.len() == 0 {
        0
    } else {
        measure_sum(s.drop_last(), f) + f(s.last())
    }
}

/// Sum of a measure over the steps at positions `idx`.
pub open spec fn measure_at(s: Seq<PipelineStep>, idx: Seq<usize>, f: spec_fn(PipelineStep) -> nat) -> nat
    decreases idx.len(),
{
    if idx.len() == 0 {
        0
    } else {
        measure_at(s, idx.drop_last(), f) + f(s[idx.last() as int])
    }
}

/// A step's timeout, 0 when it has none.
pub open spec fn timeout_measure() -> spec_fn(PipelineStep) -> nat {
    |st: PipelineStep| match st.timeout_seconds {
        Some(t) => t as nat,
        None => 0nat,
    }
}

/// A step's memory need.
pub open spec fn memory_measure() -> spec_fn(PipelineStep) -> nat {
    |st: PipelineStep| step_needs(st).memory_mb as nat
}

proof fn lemma_measure_at_remove(s: Seq<PipelineStep>, idx: Seq<usize>, p: int, f: spec_fn(PipelineStep) -> nat)
    requires
        0 <= p < idx.len(),
    ensures
        measure_at(s, idx, f) == measure_at(s, idx.remove(p), f) + f(s[idx[p] as int]),
    decreases idx.len(),
{
    if p == idx.len() - 1 {
        assert(idx.remove(p) =~= idx.drop_last());
    } else {
        lemma_measure_at_remove(s, idx.drop_last(), p, f);
        assert(idx.remove(p).drop_last() =~= idx.drop_last().remove(p));
        assert(idx.remove(p).last() == idx.last());
    }
}

proof fn lemma_measure_at_prefix(s: Seq<PipelineStep>, idx: Seq<usize>, f: spec_fn(PipelineStep) -> nat)
    requires
        s.len() > 0,
        forall|k: int| 0 <= k < idx.len() ==> idx[k] < s.len() - 1,
    ensures
        measure_at(s, idx, f) == measure_at(s.drop_last(), idx, f),
    decreases idx.len(),
{
    if idx.len() > 0 {
        lemma_measure_at_prefix(s, idx.drop_last(), f);
    }
}

/// The measure of distinct steps adds up to at most that of all steps.
proof fn lemma_measure_at_le(s: Seq<PipelineStep>, idx: Seq<usize>, f: spec_fn(PipelineStep) -> nat)
    requires
        idx.no_duplicates(),
        forall|k: int| 0 <= k < idx.len() ==> idx[k] < s.len(),
    ensures
        measure_at(s, idx, f) <= measure_sum(s, f),
    decreases s.len(),
{
    if s.len() == 0 {
        if idx.len() > 0 {
            assert(idx[0] < s.len());
        }
    } else {
        let n = s.len() - 1;
        let t = s.drop_last();
        if exists|p: int| 0 <= p < idx.len() && idx[p] == n {
            let p = choose|p: int| 0 <= p < idx.len() && idx[p] == n;
            let r = idx.remove(p);
            lemma_measure_at_remove(s, idx, p, f);
            assert forall|k: int| 0 <= k < r.len() implies r[k] < n by {
                if k < p {
                    assert(r[k] == idx[k]);
                } else {
                    assert(r[k] == idx[k + 1]);
                }
            }
            assert forall|a: int, b: int| 0 <= a < r.len() && 0 <= b < r.len() && a != b implies r[a] != r[b] by {
                let ia = if a < p { a } else { a + 1 };
                let ib = if b < p { b } else { b + 1 };
                assert(r[a] == idx[ia]);
                assert(r[b] == idx[ib]);
            }
            lemma_measure_at_prefix(s, r, f);
            lemma_measure_at_le(t, r, f);
        } else {
            assert forall|k: int| 0 <= k < idx.len() implies idx[k] < n by {
                assert(idx[k] != n);
            }
            lemma_measure_at_prefix(s, idx, f);
            lemma_measure_at_le(t, idx, f);
        }
    }
}

proof fn lemma_measure_of_picked(s: Seq<PipelineStep>, idx: Seq<usize>, f: spec_fn(PipelineStep) -> nat)
    requires
        forall|k: int| 0 <= k < idx.len() ==> idx[k] < s.len(),
    ensures
        measure_sum(idx.map_values(|j: usize| s[j as int]), f) == measure_at(s, idx, f),
    decreases idx.len(),
{
    if idx.len() > 0 {
        lemma_measure_of_picked(s, idx.drop_last(), f);
        assert(idx.map_values(|j: usize| s[j as int]).drop_last() =~= idx.drop_last().map_values(|j: usize| s[j as int]));
    }
}

proof fn lemma_timeout_is_measure(s: Seq<PipelineStep>)
    ensures
        timeout_sum(s) == measure_sum(s, timeout_measure()),
    decreases s.len(),
{
    if s.len() > 0 {
        lemma_timeout_is_measure(s.drop_last());
    }
}

proof fn lemma_memory_is_measure(s: Seq<PipelineStep>)
    ensures
        needs_memory(needs_of_steps(s)) == measure_sum(s, memory_measure()),
    decreases s.len(),
{
    if s.len() > 0 {
        lemma_memory_is_measure(s.drop_last());
        assert(needs_of_steps(s).drop_last() =~= needs_of_steps(s.drop_last()));
    }
}

/// Steps put in some order, each at most once, keep within the bounds that
/// hold of all of them.
proof fn lemma_picked_steps_fit(s: Seq<PipelineStep>, idx: Seq<usize>)
    requires
        idx.no_duplicates(),
        forall|k: int| 0 <= k < idx.len() ==> idx[k] < s.len(),
        timeout_sum(s) <= u64::MAX,
        needs_memory(needs_of_steps(s)) <= u64::MAX,
    ensures
        timeout_sum(idx.map_values(|j: usize| s[j as int])) <= u64::MAX,
        needs_memory(needs_of_steps(idx.map_values(|j: usize| s[j as int]))) <= u64::MAX,
{
    let picked = idx.map_values(|j: usize| s[j as int]);
    lemma_timeout_is_measure(s);
    lemma_timeout_is_measure(picked);
    lemma_memory_is_measure(s);
    lemma_memory_is_measure(picked);
    lemma_measure_of_picked(s, idx, timeout_measure());
    lemma_measure_of_picked(s, idx, memory_measure());
    lemma_measure_at_le(s, idx, timeout_measure());
    lemma_measure_at_le(s, idx, memory_measure());
}

/// The message reporting a pipeline's first validation problem.
pub open spec fn issue_message(i: Issue) -> Seq<char> {
    match i {
        Issue::Parse(m) => "Pipeline parsing error: "@ + m,
        Issue::Dependency(m) => "Step dependency error: "@ + m,
        Issue::Cycle => "Dependency cycle detected in pipeline steps"@,
        Issue::Config(m) => "Configuration error: "@ + m,
    }
}

/// Plans the steps of pipelines within fixed limits.
#[derive(Debug, Clone, Copy)]
pub struct ExecutionScheduler {
    /// The limits within which steps run side by side.
    pub limits: SchedulerLimits,
}

impl ExecutionScheduler {
    /// A scheduler working within `limits`.
    pub fn new(limits: SchedulerLimits) -> (r: Self)
        ensures
            r.limits == limits,
    {
        ExecutionScheduler { limits }
    }

    /// The plan of a pipeline: it is validated, its steps are put in
    /// dependency order and grouped.  A pipeline that fails validation is
    /// refused with the validation message.
    pub fn create_execution_plan(&self, pipeline: &Pipeline) -> (r: Result<ExecutionPlan, ParallelError>)
        requires
            validation_issue(*pipeline) is None ==> timeout_sum(pipeline.steps@) <= u64::MAX
                && needs_memory(needs_of_steps(pipeline.steps@)) <= u64::MAX,
        ensures
            match validation_issue(*pipeline) {
                Some(i) => r matches Err(ParallelError::Pipeline(m)) && m@ == issue_message(i),
                None => r matches Ok(plan) && exists|order: Seq<usize>|
                    is_topological_order(pipeline.steps@, order) && plan_matches(
                        plan,
                        self.limits,
                        order.map_values(|j: usize| pipeline.steps@[j as int]),
                    ),
            },
    {
        match pipeline.validate() {
            Ok(()) => {},
            Err(e) => {
                return Err(ParallelError::Pipeline(e.message()));
            },
        }
        assert(dependencies_acyclic(pipeline.steps@));
        let refs = match PipelineValidator::order_steps_by_dependencies(pipeline.steps.as_slice()) {
            Ok(v) => v,
            Err(e) => {
                return Err(ParallelError::Pipeline(e.message()));
            },
        };
        let ghost order = choose|order: Seq<usize>|
            is_topological_order(pipeline.steps@, order) && order.len() == refs@.len() && forall|k: int|
                0 <= k < order.len() ==> *refs@[k] == pipeline.steps@[order[k] as int];
        proof {
            let picked = order.map_values(|j: usize| pipeline.steps@[j as int]);
            assert(deref_steps(refs@) =~= picked);
            assert forall|k: int| 0 <= k < order.len() implies order[k] < pipeline.steps@.len() by {
                assert(is_node(pipeline.steps@, order[k] as int));
            }
            lemma_picked_steps_fit(pipeline.steps@, order);
        }
        Ok(plan_ordered_steps(&self.limits, refs.as_slice()))
    }
}


/// Total number of steps in the groups.
pub open spec fn group_sizes(groups: Seq<TaskGroup>) -> nat
    decreases groups.len(),
{
    if groups.len() == 0 {
        0
    } else {
        group_sizes(groups.drop_last()) + groups.last().steps@.len()
    }
}

/// Number of groups that run their steps side by side.
pub open spec fn parallel_group_count(groups: Seq<TaskGroup>) -> nat
    decreases groups.len(),
{
    if groups.len() == 0 {
        0
    } else {
        parallel_group_count(groups.drop_last()) + if groups.last().can_run_parallel {
            1nat
        } else {
            0nat
        }
    }
}

/// The one-line description of a plan.
pub open spec fn summary_text(plan: ExecutionPlan) -> Seq<char> {
    let gs = plan.task_groups@;
    let duration = match plan.estimated_total_duration_seconds {
        Some(d) => "~"@ + decimal(d as nat) + ".0s"@,
        None => "unknown"@,
    };
    "Execution Plan: "@ + decimal(group_sizes(gs)) + " steps in "@ + decimal(gs.len()) + " groups ("@
        + decimal(parallel_group_count(gs)) + " parallel), estimated duration: "@ + duration
        + ", max parallelism: "@ + decimal(plan.max_parallelism as nat)
}

proof fn lemma_group_sizes_prefix(gs: Seq<TaskGroup>, k: int)
    requires
        0 <= k <= gs.len(),
    ensures
        group_sizes(gs.subrange(0, k)) <= group_sizes(gs),
        parallel_group_count(gs.subrange(0, k)) <= k,
    decreases gs.len() - k,
{
    if k < gs.len() {
        lemma_group_sizes_prefix(gs, k + 1);
        assert(gs.subrange(0, k + 1).drop_last() =~= gs.subrange(0, k));
    } else {
        assert(gs.subrange(0, k) =~= gs);
    }
    lemma_parallel_count_le(gs.subrange(0, k));
}

proof fn lemma_parallel_count_le(gs: Seq<TaskGroup>)
    ensures
        parallel_group_count(gs) <= gs.len(),
    decreases gs.len(),
{
    if gs.len() > 0 {
        lemma_parallel_count_le(gs.drop_last());
    }
}

impl ExecutionPlan {
    /// Total number of steps in the plan.
    pub fn total_steps(&self) -> (r: usize)
        requires
            group_sizes(self.task_groups@) <= usize::MAX,
        ensures
            r == group_sizes(self.task_groups@),
    {
        let gs = &self.task_groups;
        let mut total: usize = 0;
        let mut i: usize = 0;
        while i < gs.len()
            invariant
                i <= gs@.len(),
                group_sizes(gs@) <= usize::MAX,
                total == group_sizes(gs@.subrange(0, i as int)),
            decreases gs@.len() - i,
        {
            proof {
                assert(gs@.subrange(0, i + 1).drop_last() =~= gs@.subrange(0, i as int));
                lemma_group_sizes_prefix(gs@, i + 1);
            }
            total = total + gs[i].steps.len();
            i = i + 1;
        }
        assert(gs@.subrange(0, gs@.len() as int) =~= gs@);
        total
    }

    /// The steps that can start at once: those of the first group.
    pub fn get_ready_steps(&self) -> (r: Vec<String>)
        ensures
            name_texts(r@) == if self.task_groups@.len() > 0 {
                name_texts(self.task_groups@[0].steps@)
            } else {
                Seq::<Seq<char>>::empty()
            },
    {
        let mut out: Vec<String> = Vec::new();
        assert(name_texts(out@) =~= Seq::<Seq<char>>::empty());
        if self.task_groups.len() > 0 {
            append_names(&mut out, &self.task_groups[0].steps);
        }
        out
    }

    /// Whether running side by side helps: more than one step runs at once
    /// and some group runs its steps side by side.
    pub fn benefits_from_parallelism(&self) -> (r: bool)
        ensures
            r == (self.max_parallelism > 1 && exists|i: int|
                0 <= i < self.task_groups@.len() && (#[trigger] self.task_groups@[i]).can_run_parallel),
    {
        if self.max_parallelism <= 1 {
            return false;
        }
        let mut i: usize = 0;
        while i < self.task_groups.len()
            invariant
                i <= self.task_groups@.len(),
                self.max_parallelism > 1,
                forall|j: int| 0 <= j < i ==> !(#[trigger] self.task_groups@[j]).can_run_parallel,
            decreases self.task_groups@.len() - i,
        {
            if self.task_groups[i].can_run_parallel {
                assert(self.task_groups@[i as int].can_run_parallel);
                return true;
            }
            i = i + 1;
        }
        false
    }

    /// A one-line description: step and group counts, how many groups run
    /// side by side, the estimated duration in whole seconds (written with
    /// one decimal) and the widest group.
    pub fn summary(&self) -> (r: String)
        requires
            group_sizes(self.task_groups@) <= usize::MAX,
        ensures
            r@ == summary_text(*self),
    {
        let total = self.total_steps();
        let gs = &self.task_groups;
        let mut par: usize = 0;
        let mut i: usize = 0;
        while i < gs.len()
            invariant
                i <= gs@.len(),
                par == parallel_group_count(gs@.subrange(0, i as int)),
            decreases gs@.len() - i,
        {
            proof {
                assert(gs@.subrange(0, i + 1).drop_last() =~= gs@.subrange(0, i as int));
                lemma_group_sizes_prefix(gs@, i + 1);
            }
            if gs[i].can_run_parallel {
                par = par + 1;
            }
            i = i + 1;
        }
        assert(gs@.subrange(0, gs@.len() as int) =~= gs@);
        let duration = match self.estimated_total_duration_seconds {
            Some(d) => {
                let n = decimal_string(d);
                concat3("~", n.as_str(), ".0s")
            },
            None => "unknown".to_owned(),
        };
        let a = decimal_string(total as u64);
        let b = decimal_string(gs.len() as u64);
        let c = decimal_string(par as u64);
        let m = decimal_string(self.max_parallelism as u64);
        let head = concat5("Execution Plan: ", a.as_str(), " steps in ", b.as_str(), " groups (");
        let mid = concat5(head.as_str(), c.as_str(), " parallel), estimated duration: ", duration.as_str(), ", max parallelism: ");
        concat2(mid.as_str(), m.as_str())
    }
}

impl TaskGroup {
    /// Whether the group has a step named `step_name`.
    pub fn contains_step(&self, step_name: &str) -> (r: bool)
        ensures
            r == exists|i: int| 0 <= i < self.steps@.len() && (#[trigger] self.steps@[i])@ == step_name@,
    {
        contains_name(self.steps.as_slice(), step_name)
    }

    /// The group's first step, or `unknown` when it has none.
    pub fn primary_step(&self) -> (r: &str)
        ensures
            r@ == if self.steps@.len() > 0 {
                self.steps@[0]@
            } else {
                "unknown"@
            },
    {
        if self.steps.len() > 0 {
            self.steps[0].as_str()
        } else {
            "unknown"
        }
    }
}


/// The step names of groups, group after group.
pub open spec fn flat_names(gs: Seq<Seq<PipelineStep>>) -> Seq<Seq<char>>
    decreases gs.len(),
{
    if gs.len() == 0 {
        Seq::empty()
    } else {
        flat_names(gs.drop_last()) + step_names_of(gs.last())
    }
}

/// Dependency `d` of step `i` names a step that comes before it.
pub open spec fn dep_named_before(ordered: Seq<PipelineStep>, i: int, d: int) -> bool {
    exists|j: int| 0 <= j < i && ordered[j].name@ == ordered[i].depends_on@[d]@
}

/// Every dependency of a step names a step that comes before it.
pub open spec fn deps_precede(ordered: Seq<PipelineStep>) -> bool {
    forall|i: int, d: int|
        0 <= i < ordered.len() && 0 <= d < ordered[i].depends_on@.len() ==> #[trigger] dep_named_before(
            ordered,
            i,
            d,
        )
}

/// Some group before group `k` has a step named `n`.
pub open spec fn in_earlier_group(gs: Seq<Seq<PipelineStep>>, k: int, n: Seq<char>) -> bool {
    exists|k2: int, i2: int| 0 <= k2 < k && 0 <= i2 < gs[k2].len() && (#[trigger] gs[k2][i2]).name@ == n
}

/// Every dependency of every step of group `k` names a step of an earlier
/// group.
pub open spec fn group_deps_earlier(gs: Seq<Seq<PipelineStep>>, k: int) -> bool {
    forall|i: int, d: int|
        0 <= i < gs[k].len() && 0 <= d < gs[k][i].depends_on@.len() ==> in_earlier_group(
            gs,
            k,
            (#[trigger] gs[k][i].depends_on@[d])@,
        )
}

proof fn lemma_flat_names_member(gs: Seq<Seq<PipelineStep>>, n: Seq<char>)
    requires
        flat_names(gs).contains(n),
    ensures
        in_earlier_group(gs, gs.len() as int, n),
    decreases gs.len(),
{
    let rest = flat_names(gs.drop_last());
    let last = step_names_of(gs.last());
    let x = choose|x: int| 0 <= x < flat_names(gs).len() && flat_names(gs)[x] == n;
    if x < rest.len() {
        assert(rest[x] == n);
        lemma_flat_names_member(gs.drop_last(), n);
        let (k2, i2) = choose|k2: int, i2: int|
            0 <= k2 < gs.len() - 1 && 0 <= i2 < gs.drop_last()[k2].len() && (#[trigger] gs.drop_last()[k2][i2]).name@ == n;
        assert(gs[k2][i2] == gs.drop_last()[k2][i2]);
    } else {
        let i2 = x - rest.len();
        assert(last[i2] == n);
        assert(gs[gs.len() - 1][i2] == gs.last()[i2]);
    }
}

proof fn lemma_earlier_group_grow(gs: Seq<Seq<PipelineStep>>, g: Seq<PipelineStep>, k: int, n: Seq<char>)
    requires
        0 <= k <= gs.len(),
        in_earlier_group(gs, k, n),
    ensures
        in_earlier_group(gs.push(g), k, n),
{
    let (k2, i2) = choose|k2: int, i2: int| 0 <= k2 < k && 0 <= i2 < gs[k2].len() && (#[trigger] gs[k2][i2]).name@ == n;
    assert(gs.push(g)[k2][i2] == gs[k2][i2]);
}

proof fn lemma_grouping_invariant(ordered: Seq<PipelineStep>, m: int)
    requires
        deps_precede(ordered),
        0 <= m <= ordered.len(),
    ensures
        ({
            let st = grouping_fold(ordered.subrange(0, m));
            &&& st.1 == flat_names(st.0)
            &&& step_names_of(ordered.subrange(0, m)) == st.1 + step_names_of(st.2)
            &&& forall|k: int| 0 <= k < st.0.len() ==> group_deps_earlier(st.0, k)
            &&& forall|i: int| 0 <= i < st.2.len() ==> deps_among(#[trigger] st.2[i], st.1)
        }),
    decreases m,
{
    if m == 0 {
        let st = grouping_fold(ordered.subrange(0, 0));
        assert(ordered.subrange(0, 0) =~= Seq::<PipelineStep>::empty());
        assert(step_names_of(ordered.subrange(0, 0)) =~= st.1 + step_names_of(st.2));
    } else {
        lemma_grouping_invariant(ordered, m - 1);
        let pre = ordered.subrange(0, m - 1);
        let st = grouping_fold(pre);
        let s = ordered[m - 1];
        assert(ordered.subrange(0, m).drop_last() =~= pre);
        assert(ordered.subrange(0, m).last() == s);
        let st2 = grouping_fold(ordered.subrange(0, m));
        assert(st2 == grouping_step(st, s));
        assert(step_names_of(ordered.subrange(0, m)) =~= step_names_of(pre).push(s.name@));
        // The dependencies of `s` all name earlier steps.
        assert forall|d: int| 0 <= d < s.depends_on@.len() implies step_names_of(pre).contains(
            (#[trigger] s.depends_on@[d])@,
        ) by {
            assert(dep_named_before(ordered, m - 1, d));
            let j = choose|j: int| 0 <= j < m - 1 && ordered[j].name@ == ordered[m - 1].depends_on@[d]@;
            assert(step_names_of(pre)[j] == ordered[j].name@);
        }
        if deps_among(s, st.1) {
            assert(step_names_of(st.2.push(s)) =~= step_names_of(st.2).push(s.name@));
            assert(st.1 + step_names_of(st.2.push(s)) =~= (st.1 + step_names_of(st.2)).push(s.name@));
            assert forall|i: int| 0 <= i < st2.2.len() implies deps_among(#[trigger] st2.2[i], st2.1) by {
                if i < st.2.len() {
                    assert(st2.2[i] == st.2[i]);
                }
            }
        } else if st.2.len() > 0 {
            let gs = st.0.push(st.2);
            assert(gs.drop_last() =~= st.0);
            assert(st2.1 == flat_names(gs));
            assert(step_names_of(seq![s]) =~= seq![s.name@]);
            assert forall|k: int| 0 <= k < gs.len() implies group_deps_earlier(gs, k) by {
                assert forall|i: int, d: int|
                    0 <= i < gs[k].len() && 0 <= d < gs[k][i].depends_on@.len() implies in_earlier_group(
                    gs,
                    k,
                    (#[trigger] gs[k][i].depends_on@[d])@,
                ) by {
                    let n = gs[k][i].depends_on@[d]@;
                    if k < st.0.len() {
                        assert(gs[k] == st.0[k]);
                        assert(group_deps_earlier(st.0, k));
                        assert(in_earlier_group(st.0, k, n));
                        lemma_earlier_group_grow(st.0, st.2, k, n);
                    } else {
                        assert(gs[k] == st.2);
                        assert(deps_among(st.2[i], st.1));
                        assert(st.1.contains(n));
                        lemma_flat_names_member(st.0, n);
                        lemma_earlier_group_grow(st.0, st.2, st.0.len() as int, n);
                    }
                }
            }
            assert forall|i: int| 0 <= i < st2.2.len() implies deps_among(#[trigger] st2.2[i], st2.1) by {
                assert(st2.2[i] == s);
            }
        } else {
            assert(step_names_of(st.2) =~= Seq::<Seq<char>>::empty());
            assert(st.1 + step_names_of(st.2) =~= st.1);
            assert(deps_among(s, st.1));
        }
    }
}

/// Law: when every dependency of a step names an earlier step, the groups
/// hold every step exactly once, in order, and every dependency of a step
/// in a group names a step of an earlier group; so the steps of one group
/// never depend on each other.
pub proof fn law_groups_follow_dependencies(ordered: Seq<PipelineStep>)
    requires
        deps_precede(ordered),
    ensures
        flat_names(dependency_groups(ordered)) == step_names_of(ordered),
        forall|k: int|
            0 <= k < dependency_groups(ordered).len() ==> group_deps_earlier(
                #[trigger] dependency_groups(ordered),
                k,
            ),
{
    lemma_grouping_invariant(ordered, ordered.len() as int);
    assert(ordered.subrange(0, ordered.len() as int) =~= ordered);
    let st = grouping_fold(ordered);
    let gs = dependency_groups(ordered);
    if st.2.len() > 0 {
        assert(gs.drop_last() =~= st.0);
        assert forall|k: int| 0 <= k < gs.len() implies group_deps_earlier(gs, k) by {
            assert forall|i: int, d: int|
                0 <= i < gs[k].len() && 0 <= d < gs[k][i].depends_on@.len() implies in_earlier_group(
                gs,
                k,
                (#[trigger] gs[k][i].depends_on@[d])@,
            ) by {
                let n = gs[k][i].depends_on@[d]@;
                if k < st.0.len() {
                    assert(gs[k] == st.0[k]);
                    assert(group_deps_earlier(st.0, k));
                    lemma_earlier_group_grow(st.0, st.2, k, n);
                } else {
                    assert(deps_among(st.2[i], st.1));
                    assert(st.1.contains(n));
                    lemma_flat_names_member(st.0, n);
                    lemma_earlier_group_grow(st.0, st.2, st.0.len() as int, n);
                }
            }
        }
    } else {
        assert(step_names_of(st.2) =~= Seq::<Seq<char>>::empty());
        assert(st.1 + step_names_of(st.2) =~= st.1);
    }
}

/// Law: in a topological order of a pipeline that passes validation, every
/// dependency of a step names a step that comes before it.
pub proof fn law_topological_order_puts_dependencies_first(p: Pipeline, order: Seq<usize>)
    requires
        validation_issue(p) is None,
        is_topological_order(p.steps@, order),
        p.steps@.len() <= usize::MAX,
    ensures
        deps_precede(order.map_values(|j: usize| p.steps@[j as int])),
{
    let steps = p.steps@;
    let ordered = order.map_values(|j: usize| p.steps@[j as int]);
    assert forall|i: int, d: int| 0 <= i < ordered.len() && 0 <= d < ordered[i].depends_on@.len() implies #[trigger] dep_named_before(
        ordered,
        i,
        d,
    ) by {
        let node = order[i] as int;
        assert(is_node(steps, node));
        lemma_no_dependency_issue(steps, 0, node);
        lemma_missing_dependency_none(steps, steps[node].depends_on@, 0, d);
        lemma_named_iff(steps, steps[node].depends_on@[d]@);
        let q = lemma_dep_before(steps, order, i, d);
        assert(ordered[q].name@ == ordered[i].depends_on@[d]@);
    }
    assert(deps_precede(ordered));
}

proof fn lemma_no_dependency_issue(steps: Seq<PipelineStep>, i: int, node: int)
    requires
        0 <= i <= node < steps.len(),
        dependency_issue_from(steps, i) is None,
    ensures
        missing_dependency(steps, steps[node].depends_on@, 0) is None,
    decreases node - i,
{
    if i < node {
        lemma_no_dependency_issue(steps, i + 1, node);
    }
}

proof fn lemma_missing_dependency_none(steps: Seq<PipelineStep>, deps: Seq<String>, k: int, d: int)
    requires
        0 <= k <= d < deps.len(),
        missing_dependency(steps, deps, k) is None,
    ensures
        has_step_named(steps, deps[d]@),
    decreases d - k,
{
    if k < d {
        lemma_missing_dependency_none(steps, deps, k + 1, d);
    }
}


/// Law: the groups of a plan of a pipeline that passes validation hold
/// each step once, and every dependency of a step lies in an earlier group,
/// whatever topological order the plan was built from.
pub proof fn law_plan_groups_follow_dependencies(p: Pipeline, order: Seq<usize>)
    requires
        validation_issue(p) is None,
        is_topological_order(p.steps@, order),
        p.steps@.len() <= usize::MAX,
    ensures
        ({
            let ordered = order.map_values(|j: usize| p.steps@[j as int]);
            let gs = dependency_groups(ordered);
            &&& flat_names(gs) == step_names_of(ordered)
            &&& forall|k: int| 0 <= k < gs.len() ==> group_deps_earlier(gs, k)
        }),
{
    law_topological_order_puts_dependencies_first(p, order);
    law_groups_follow_dependencies(order.map_values(|j: usize| p.steps@[j as int]));
}

} // verus!
