//! The scheduling loop's decision core: the threshold decision rule, the
//! stable priority ordering of a cycle's decisions, and the dispatch plan
//! that resolves migration targets through the placement scorer.

use vstd::prelude::*;
use crate::config::SchedulerConfig;
use crate::placement::{spec_best_host, HostMetrics, PlacementEngine, ResourceRequirements};
use crate::sla::{SLAManager, SLAStatus};

verus! {

/// What the loop decides to do with one resource this cycle.
#[derive(Clone, Copy, Debug, PartialEq, Eq, Structural)]
pub enum SchedulingAction {
    Migrate,
    Scale,
    Consolidate,
    NoAction,
}

/// One decision of a cycle: consumed by the executor immediately, never
/// persisted. Lower `priority` executes first; `sla_impact` is in
/// thousandths.
pub struct SchedulingDecision {
    pub resource_id: String,
    pub action: SchedulingAction,
    pub target_host: Option<String>,
    pub priority: u8,
    pub sla_impact: u64,
}

impl Clone for SchedulingDecision {
    fn clone(&self) -> (other: SchedulingDecision)
        ensures
            other == *self,
    {
        SchedulingDecision {
            resource_id: self.resource_id.clone(),
            action: self.action,
            target_host: match &self.target_host {
                Option::None => Option::None,
                Option::Some(h) => Option::Some(h.clone()),
            },
            priority: self.priority,
            sla_impact: self.sla_impact,
        }
    }
}

/// What one cycle knows about one resource: the forecast load in
/// milli-percent and the fresh compliance verdict.
pub struct ResourceEvaluation {
    pub resource_id: String,
    pub predicted_load: u64,
    pub status: SLAStatus,
}

/// The decision rule, first match wins: load above the high threshold
/// migrates critical resources and scales the rest; load below the low
/// threshold consolidates; anything else is left alone.
pub open spec fn spec_action_for(high: u64, low: u64, load: u64, critical: bool) -> SchedulingAction {
    if load > high {
        if critical {
            SchedulingAction::Migrate
        } else {
            SchedulingAction::Scale
        }
    } else if load < low {
        SchedulingAction::Consolidate
    } else {
        SchedulingAction::NoAction
    }
}

/// A critical migration is most urgent (priority 1); every other decision
/// runs at priority 5.
pub open spec fn spec_priority_for(high: u64, low: u64, load: u64, critical: bool) -> u8 {
    if load > high && critical {
        1u8
    } else {
        5u8
    }
}

/// The decision the rule produces for one evaluated resource; the migration
/// target is resolved later, by the executor.
pub open spec fn spec_decision_for(e: ResourceEvaluation, high: u64, low: u64) -> SchedulingDecision {
    SchedulingDecision {
        resource_id: e.resource_id,
        action: spec_action_for(high, low, e.predicted_load, e.status.is_critical),
        target_host: Option::None,
        priority: spec_priority_for(high, low, e.predicted_load, e.status.is_critical),
        sla_impact: e.status.impact_score,
    }
}

/// The decisions one cycle's evaluations produce, dropping those that call
/// for no work, in the evaluations' order.
pub open spec fn spec_cycle_decisions(
    evals: Seq<ResourceEvaluation>,
    high: u64,
    low: u64,
) -> Seq<SchedulingDecision>
    decreases evals.len(),
{
    if evals.len() == 0 {
        Seq::empty()
    } else {
        let rest = spec_cycle_decisions(evals.drop_last(), high, low);
        let d = spec_decision_for(evals.last(), high, low);
        if d.action != SchedulingAction::NoAction {
            rest.push(d)
        } else {
            rest
        }
    }
}

/// The decisions of one priority level, in their original order.
pub open spec fn spec_bucket(s: Seq<SchedulingDecision>, k: int) -> Seq<SchedulingDecision> {
    s.filter(|d: SchedulingDecision| d.priority as int == k)
}

/// The decisions of priority `k` and above, most urgent level first, each
/// level in its original order.
pub open spec fn spec_ordered_from(s: Seq<SchedulingDecision>, k: int) -> Seq<SchedulingDecision>
    decreases 256 - k
        when k <= 256
{
    if k >= 256 {
        Seq::empty()
    } else {
        spec_bucket(s, k) + spec_ordered_from(s, k + 1)
    }
}

/// The whole cycle's decisions in execution order: ascending by priority,
/// ties kept in their original enumeration order (a stable sort).
pub open spec fn spec_ordered(s: Seq<SchedulingDecision>) -> Seq<SchedulingDecision> {
    spec_ordered_from(s, 0)
}

/// The decisions of priorities below `k`, most urgent level first.
pub open spec fn spec_ordered_below(s: Seq<SchedulingDecision>, k: int) -> Seq<SchedulingDecision>
    decreases k
        when k >= 0
{
    if k <= 0 {
        Seq::empty()
    } else {
        spec_ordered_below(s, k - 1) + spec_bucket(s, k - 1)
    }
}

proof fn lemma_ordered_split(s: Seq<SchedulingDecision>, k: int)
    requires
        0 <= k <= 256,
    ensures
        spec_ordered_below(s, k) + spec_ordered_from(s, k) == spec_ordered(s),
    decreases k,
{
    if k == 0 {
        assert(spec_ordered_below(s, 0) + spec_ordered_from(s, 0) =~= spec_ordered(s));
    } else {
        lemma_ordered_split(s, k - 1);
        assert((spec_ordered_below(s, k - 1) + spec_bucket(s, k - 1)) + spec_ordered_from(s, k)
            =~= spec_ordered_below(s, k - 1) + (spec_bucket(s, k - 1) + spec_ordered_from(s, k)));
    }
}

proof fn lemma_ordered_from_empty(k: int)
    requires
        0 <= k <= 256,
    ensures
        spec_ordered_from(Seq::<SchedulingDecision>::empty(), k) == Seq::<
            SchedulingDecision,
        >::empty(),
    decreases 256 - k,
{
    if k < 256 {
        lemma_ordered_from_empty(k + 1);
        reveal(Seq::filter);
        assert(spec_bucket(Seq::<SchedulingDecision>::empty(), k) + spec_ordered_from(
            Seq::<SchedulingDecision>::empty(),
            k + 1,
        ) =~= Seq::<SchedulingDecision>::empty());
    }
}

proof fn lemma_ordered_from_push(s: Seq<SchedulingDecision>, x: SchedulingDecision, k: int)
    requires
        0 <= k <= 256,
    ensures
        x.priority >= k ==> spec_ordered_from(s.push(x), k).to_multiset() =~= spec_ordered_from(
            s,
            k,
        ).to_multiset().insert(x),
        x.priority < k ==> spec_ordered_from(s.push(x), k).to_multiset() =~= spec_ordered_from(
            s,
            k,
        ).to_multiset(),
    decreases 256 - k,
{
    broadcast use vstd::seq_lib::group_to_multiset_ensures;
    broadcast use vstd::seq_lib::lemma_multiset_commutative;
    broadcast use vstd::multiset::group_multiset_axioms;

    if k < 256 {
        lemma_ordered_from_push(s, x, k + 1);
        reveal(Seq::filter);
        assert(s.push(x).drop_last() =~= s);
        if x.priority as int == k {
            assert(spec_bucket(s.push(x), k) =~= spec_bucket(s, k).push(x));
            assert(spec_ordered_from(s.push(x), k + 1).to_multiset() =~= spec_ordered_from(
                s,
                k + 1,
            ).to_multiset());
            assert(spec_ordered_from(s.push(x), k).to_multiset() =~= spec_ordered_from(
                s,
                k,
            ).to_multiset().insert(x));
        } else {
            assert(spec_bucket(s.push(x), k) =~= spec_bucket(s, k));
            if x.priority > k {
                assert(spec_ordered_from(s.push(x), k).to_multiset() =~= spec_ordered_from(
                    s,
                    k,
                ).to_multiset().insert(x));
            } else {
                assert(spec_ordered_from(s.push(x), k).to_multiset() =~= spec_ordered_from(
                    s,
                    k,
                ).to_multiset());
            }
        }
    }
}

/// The execution order neither loses, duplicates nor invents a decision:
/// it is a permutation of the cycle's decisions.
pub proof fn lemma_ordered_is_permutation(s: Seq<SchedulingDecision>)
    ensures
        spec_ordered(s).to_multiset() == s.to_multiset(),
    decreases s.len(),
{
    broadcast use vstd::seq_lib::group_to_multiset_ensures;

    if s.len() == 0 {
        lemma_ordered_from_empty(0);
        assert(s =~= Seq::<SchedulingDecision>::empty());
        assert(spec_ordered(s).to_multiset() =~= s.to_multiset());
    } else {
        let t = s.drop_last();
        let x = s.last();
        lemma_ordered_is_permutation(t);
        lemma_ordered_from_push(t, x, 0);
        assert(t.push(x) =~= s);
        assert(spec_ordered(s).to_multiset() =~= s.to_multiset());
    }
}

proof fn lemma_ordered_from_ascending(s: Seq<SchedulingDecision>, k: int)
    requires
        0 <= k <= 256,
    ensures
        forall|i: int|
            0 <= i < spec_ordered_from(s, k).len() ==> (#[trigger] spec_ordered_from(s, k)[i]).priority
                >= k,
        forall|i: int, j: int|
            0 <= i < j < spec_ordered_from(s, k).len() ==> spec_ordered_from(s, k)[i].priority
                <= spec_ordered_from(s, k)[j].priority,
    decreases 256 - k,
{
    broadcast use vstd::seq_lib::group_filter_ensures;

    if k < 256 {
        lemma_ordered_from_ascending(s, k + 1);
        let bucket = spec_bucket(s, k);
        let rest = spec_ordered_from(s, k + 1);
        assert(forall|i: int|
            0 <= i < bucket.len() ==> (#[trigger] bucket[i]).priority as int == k);
        assert(forall|i: int|
            0 <= i < (bucket + rest).len() ==> (#[trigger] (bucket + rest)[i]).priority >= k);
    }
}

/// The execution order is ascending by priority: the most urgent decisions
/// run first.
pub proof fn lemma_ordered_is_sorted(s: Seq<SchedulingDecision>)
    ensures
        forall|i: int, j: int|
            0 <= i < j < spec_ordered(s).len() ==> spec_ordered(s)[i].priority <= spec_ordered(
                s,
            )[j].priority,
{
    lemma_ordered_from_ascending(s, 0);
}

/// Orders a cycle's decisions for execution: ascending by priority, equal
/// priorities kept in their original order.
pub fn order_decisions(decisions: &Vec<SchedulingDecision>) -> (ordered: Vec<SchedulingDecision>)
    ensures
        ordered@ == spec_ordered(decisions@),
{
    let n = decisions.len();
    let mut out: Vec<SchedulingDecision> = Vec::new();
    let mut k: usize = 0;
    while k < 256
        invariant
            n == decisions@.len(),
            k <= 256,
            out@ == spec_ordered_below(decisions@, k as int),
        decreases 256 - k,
    {
        let mut i: usize = 0;
        while i < n
            invariant
                n == decisions@.len(),
                k < 256,
                i <= n,
                out@ == spec_ordered_below(decisions@, k as int) + spec_bucket(
                    decisions@.take(i as int),
                    k as int,
                ),
            decreases n - i,
        {
            proof {
                reveal(Seq::filter);
                assert(decisions@.take(i + 1 as int).drop_last() =~= decisions@.take(i as int));
            }
            if (decisions[i].priority as usize) == k {
                out.push(decisions[i].clone());
            }
            i += 1;
        }
        proof {
            assert(decisions@.take(n as int) =~= decisions@);
            assert(spec_ordered_below(decisions@, k + 1 as int) =~= spec_ordered_below(
                decisions@,
                k as int,
            ) + spec_bucket(decisions@, k as int));
        }
        k += 1;
    }
    proof {
        lemma_ordered_split(decisions@, 256);
        assert(spec_ordered_below(decisions@, 256) + spec_ordered_from(decisions@, 256)
            =~= spec_ordered_below(decisions@, 256));
    }
    out
}

/// The executor's plan over ordered decisions: migrations whose placement
/// search finds a target carry it; migrations with no feasible host are
/// dropped for this cycle (retried next cycle); scale and consolidate
/// dispatch as they are; `NoAction` never reaches the plan.
pub open spec fn spec_dispatch_plan(
    ds: Seq<SchedulingDecision>,
    hosts: Seq<HostMetrics>,
    req: &ResourceRequirements,
) -> Seq<SchedulingDecision>
    decreases ds.len(),
{
    if ds.len() == 0 {
        Seq::empty()
    } else {
        let rest = spec_dispatch_plan(ds.drop_last(), hosts, req);
        let d = ds.last();
        match d.action {
            SchedulingAction::Migrate => {
                if spec_best_host(hosts, req) >= 0 {
                    rest.push(
                        SchedulingDecision {
                            resource_id: d.resource_id,
                            action: d.action,
                            target_host: Option::Some(
                                hosts[spec_best_host(hosts, req)].host_id,
                            ),
                            priority: d.priority,
                            sla_impact: d.sla_impact,
                        },
                    )
                } else {
                    rest
                }
            },
            SchedulingAction::Scale => rest.push(d),
            SchedulingAction::Consolidate => rest.push(d),
            SchedulingAction::NoAction => rest,
        }
    }
}

/// The scheduling loop's state: the thresholds it decides with, the SLA
/// evaluator and the placement scorer it consults.
pub struct ResourceScheduler {
    pub config: SchedulerConfig,
    pub sla_manager: SLAManager,
    pub placement_engine: PlacementEngine,
}

impl ResourceScheduler {
    pub open spec fn wf(&self) -> bool {
        &&& self.sla_manager.wf()
        &&& self.placement_engine.wf()
    }

    /// A scheduler with the given thresholds, an empty policy table and an
    /// empty host table.
    pub fn new(config: SchedulerConfig) -> (scheduler: ResourceScheduler)
        ensures
            scheduler.wf(),
            scheduler.config == config,
            scheduler.sla_manager.sla_policies@.len() == 0,
            scheduler.sla_manager.violation_history@.len() == 0,
            scheduler.placement_engine.host_metrics@.len() == 0,
    {
        ResourceScheduler {
            config,
            sla_manager: SLAManager::new(),
            placement_engine: PlacementEngine::new(),
        }
    }

    /// Applies the decision rule to one resource's forecast load and
    /// compliance verdict.
    pub fn make_scheduling_decision(
        &self,
        resource_id: &String,
        predicted_load: u64,
        sla_status: &SLAStatus,
    ) -> (decision: SchedulingDecision)
        ensures
            decision.resource_id == *resource_id,
            decision.action == spec_action_for(
                self.config.high_load_threshold_milli,
                self.config.low_load_threshold_milli,
                predicted_load,
                sla_status.is_critical,
            ),
            decision.priority == spec_priority_for(
                self.config.high_load_threshold_milli,
                self.config.low_load_threshold_milli,
                predicted_load,
                sla_status.is_critical,
            ),
            decision.target_host is None,
            decision.sla_impact == sla_status.impact_score,
    {
        let action = if predicted_load > self.config.high_load_threshold_milli {
            if sla_status.is_critical {
                SchedulingAction::Migrate
            } else {
                SchedulingAction::Scale
            }
        } else if predicted_load < self.config.low_load_threshold_milli {
            SchedulingAction::Consolidate
        } else {
            SchedulingAction::NoAction
        };
        let priority: u8 = if predicted_load > self.config.high_load_threshold_milli
            && sla_status.is_critical {
            1
        } else {
            5
        };
        SchedulingDecision {
            resource_id: resource_id.clone(),
            action,
            target_host: None,
            priority,
            sla_impact: sla_status.impact_score,
        }
    }

    /// Decides every evaluated resource and keeps the decisions that call
    /// for work, in the evaluations' order.
    pub fn plan_scheduling_cycle(&self, evaluations: &Vec<ResourceEvaluation>) -> (decisions: Vec<
        SchedulingDecision,
    >)
        ensures
            decisions@ == spec_cycle_decisions(
                evaluations@,
                self.config.high_load_threshold_milli,
                self.config.low_load_threshold_milli,
            ),
    {
        let n = evaluations.len();
        let mut out: Vec<SchedulingDecision> = Vec::new();
        let mut i: usize = 0;
        while i < n
            invariant
                n == evaluations@.len(),
                i <= n,
                out@ == spec_cycle_decisions(
                    evaluations@.take(i as int),
                    self.config.high_load_threshold_milli,
                    self.config.low_load_threshold_milli,
                ),
            decreases n - i,
        {
            let e = &evaluations[i];
            let decision = self.make_scheduling_decision(
                &e.resource_id,
                e.predicted_load,
                &e.status,
            );
            proof {
                assert(evaluations@.take(i + 1 as int).drop_last() =~= evaluations@.take(i as int));
                assert(decision == spec_decision_for(
                    evaluations@[i as int],
                    self.config.high_load_threshold_milli,
                    self.config.low_load_threshold_milli,
                ));
            }
            let is_no_action = matches!(decision.action, SchedulingAction::NoAction);
            if !is_no_action {
                out.push(decision);
            }
            i += 1;
        }
        proof {
            assert(evaluations@.take(n as int) =~= evaluations@);
        }
        out
    }

    /// Orders a cycle's decisions and resolves each migration's target host
    /// through the placement scorer, dropping migrations that cannot be
    /// placed this cycle.
    pub fn plan_execution(
        &self,
        decisions: &Vec<SchedulingDecision>,
        requirements: &ResourceRequirements,
    ) -> (plan: Vec<SchedulingDecision>)
        requires
            self.wf(),
        ensures
            plan@ == spec_dispatch_plan(
                spec_ordered(decisions@),
                self.placement_engine.host_metrics@,
                requirements,
            ),
    {
        let ordered = order_decisions(decisions);
        let n = ordered.len();
        let mut plan: Vec<SchedulingDecision> = Vec::new();
        let mut i: usize = 0;
        while i < n
            invariant
                self.wf(),
                n == ordered@.len(),
                i <= n,
                ordered@ == spec_ordered(decisions@),
                plan@ == spec_dispatch_plan(
                    ordered@.take(i as int),
                    self.placement_engine.host_metrics@,
                    requirements,
                ),
            decreases n - i,
        {
            proof {
                assert(ordered@.take(i + 1 as int).drop_last() =~= ordered@.take(i as int));
            }
            let d = &ordered[i];
            match d.action {
                SchedulingAction::Migrate => {
                    match self.placement_engine.select_host(requirements) {
                        Option::Some(host) => {
                            plan.push(
                                SchedulingDecision {
                                    resource_id: d.resource_id.clone(),
                                    action: d.action,
                                    target_host: Some(host),
                                    priority: d.priority,
                                    sla_impact: d.sla_impact,
                                },
                            );
                        },
                        Option::None => {},
                    }
                },
                SchedulingAction::Scale => {
                    plan.push(d.clone());
                },
                SchedulingAction::Consolidate => {
                    plan.push(d.clone());
                },
                SchedulingAction::NoAction => {},
            }
            i += 1;
        }
        proof {
            assert(ordered@.take(n as int) =~= ordered@);
        }
        plan
    }

    /// One full cycle over the evaluated resources: decide, filter, order by
    /// priority, and resolve migration targets.
    pub fn run_scheduling_cycle(
        &self,
        evaluations: &Vec<ResourceEvaluation>,
        requirements: &ResourceRequirements,
    ) -> (plan: Vec<SchedulingDecision>)
        requires
            self.wf(),
        ensures
            plan@ == spec_dispatch_plan(
                spec_ordered(
                    spec_cycle_decisions(
                        evaluations@,
                        self.config.high_load_threshold_milli,
                        self.config.low_load_threshold_milli,
                    ),
                ),
                self.placement_engine.host_metrics@,
                requirements,
            ),
    {
        let decisions = self.plan_scheduling_cycle(evaluations);
        self.plan_execution(&decisions, requirements)
    }
}

} // verus!
