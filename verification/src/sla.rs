//! SLA policy table, compliance evaluation, and the append-only violation
//! ledger. Malformed policies are rejected at registration, never at
//! evaluation; compliance status is computed fresh per evaluation.

use vstd::prelude::*;
use crate::errors::OpenStackError;
use crate::timeseries::SAMPLE_CAP_MILLI;

verus! {

/// Impact contributed by a response-time breach, in thousandths: fixed,
/// regardless of magnitude.
pub const RESPONSE_TIME_IMPACT_MILLI: u64 = 300;

/// Compliance deadline reported when a resource has no registered policy.
pub const DEFAULT_DEADLINE_MINUTES: u32 = 60;

/// Minutes of penalty one violation counts against the compliance window.
pub const VIOLATION_PENALTY_MINUTES: u64 = 5;

/// Priority tier of a policy.
#[derive(Clone, Copy, Debug, PartialEq, Eq, Structural)]
pub enum SLAPriority {
    Critical,
    High,
    Medium,
    Low,
}

/// Which dimension a violation breached.
#[derive(Clone, Copy, Debug, PartialEq, Eq, Structural)]
pub enum ViolationType {
    CpuUtilization,
    MemoryUtilization,
    ResponseTime,
    Availability,
}

/// Operator-supplied bounds for one resource. Utilization thresholds and the
/// availability floor are milli-percent.
pub struct SLAPolicy {
    pub resource_id: String,
    pub max_cpu_utilization: u64,
    pub max_memory_utilization: u64,
    pub max_response_time_ms: u64,
    pub min_availability_percent: u64,
    pub priority: SLAPriority,
    pub deadline_minutes: u32,
}

/// One recorded breach; `severity` is in thousandths, `timestamp` Unix
/// seconds. Entries are only ever appended and marked, never deleted.
pub struct SLAViolation {
    pub resource_id: String,
    pub violation_type: ViolationType,
    pub severity: u64,
    pub timestamp: i64,
    pub resolved: bool,
}

impl Clone for SLAViolation {
    fn clone(&self) -> (other: SLAViolation)
        ensures
            other == *self,
    {
        SLAViolation {
            resource_id: self.resource_id.clone(),
            violation_type: self.violation_type,
            severity: self.severity,
            timestamp: self.timestamp,
            resolved: self.resolved,
        }
    }
}

/// The derived compliance verdict for one resource; computed fresh per
/// evaluation, never cached. `impact_score` is in thousandths.
#[derive(Clone, Copy, Debug, PartialEq, Eq, Structural)]
pub struct SLAStatus {
    pub is_critical: bool,
    pub impact_score: u64,
    pub deadline_minutes: u32,
}

/// The current readings compliance is checked against; utilizations and
/// availability in milli-percent.
#[derive(Clone, Copy, Debug, PartialEq, Eq, Structural)]
pub struct ResourceMetrics {
    pub cpu_utilization: u64,
    pub memory_utilization: u64,
    pub response_time_ms: u64,
    pub availability_percent: u64,
}

/// The append-only violation history of one resource.
pub struct ViolationLedger {
    pub resource_id: String,
    pub violations: Vec<SLAViolation>,
}

/// A registrable policy: breached thresholds divide the breach magnitude, so
/// they must be at least one; percentages stay percentages; the deadline is
/// positive.
pub open spec fn spec_policy_wf(p: SLAPolicy) -> bool {
    &&& 1 <= p.max_cpu_utilization <= SAMPLE_CAP_MILLI
    &&& 1 <= p.max_memory_utilization <= SAMPLE_CAP_MILLI
    &&& p.deadline_minutes >= 1
}

/// The impact multiplier of a priority tier, in thousandths.
pub open spec fn spec_priority_multiplier_milli(p: SLAPriority) -> u64 {
    match p {
        SLAPriority::Critical => 1000,
        SLAPriority::High => 800,
        SLAPriority::Medium => 600,
        SLAPriority::Low => 400,
    }
}

/// `violation_ratio * priority_multiplier` in thousandths, floor-rounded at
/// each division: the ratio is `(current - threshold) / threshold`.
pub open spec fn spec_impact_milli(current: u64, threshold: u64, priority: SLAPriority) -> int {
    (current - threshold) * 1000 / (threshold as int) * spec_priority_multiplier_milli(priority)
        / 1000
}

/// Index of the first policy registered for the given resource id, or -1.
pub open spec fn spec_find_policy(s: Seq<SLAPolicy>, id: Seq<char>) -> int
    decreases s.len(),
{
    if s.len() == 0 {
        -1
    } else if s[0].resource_id@ == id {
        0
    } else {
        let r = spec_find_policy(s.skip(1), id);
        if r < 0 {
            -1
        } else {
            r + 1
        }
    }
}

pub proof fn lemma_find_policy(s: Seq<SLAPolicy>, id: Seq<char>)
    ensures
        spec_find_policy(s, id) >= 0 ==> {
            &&& spec_find_policy(s, id) < s.len()
            &&& s[spec_find_policy(s, id)].resource_id@ == id
            &&& forall|k: int|
                0 <= k < spec_find_policy(s, id) ==> (#[trigger] s[k]).resource_id@ != id
        },
        spec_find_policy(s, id) < 0 ==> forall|k: int|
            0 <= k < s.len() ==> (#[trigger] s[k]).resource_id@ != id,
    decreases s.len(),
{
    if s.len() > 0 && s[0].resource_id@ != id {
        lemma_find_policy(s.skip(1), id);
        let r = spec_find_policy(s.skip(1), id);
        assert forall|k: int| 1 <= k < s.len() implies s.skip(1)[k - 1] == (#[trigger] s[k]) by {}
    }
}

/// Index of the first ledger kept for the given resource id, or -1.
pub open spec fn spec_find_ledger(s: Seq<ViolationLedger>, id: Seq<char>) -> int
    decreases s.len(),
{
    if s.len() == 0 {
        -1
    } else if s[0].resource_id@ == id {
        0
    } else {
        let r = spec_find_ledger(s.skip(1), id);
        if r < 0 {
            -1
        } else {
            r + 1
        }
    }
}

pub proof fn lemma_find_ledger(s: Seq<ViolationLedger>, id: Seq<char>)
    ensures
        spec_find_ledger(s, id) >= 0 ==> {
            &&& spec_find_ledger(s, id) < s.len()
            &&& s[spec_find_ledger(s, id)].resource_id@ == id
            &&& forall|k: int|
                0 <= k < spec_find_ledger(s, id) ==> (#[trigger] s[k]).resource_id@ != id
        },
        spec_find_ledger(s, id) < 0 ==> forall|k: int|
            0 <= k < s.len() ==> (#[trigger] s[k]).resource_id@ != id,
    decreases s.len(),
{
    if s.len() > 0 && s[0].resource_id@ != id {
        lemma_find_ledger(s.skip(1), id);
        assert forall|k: int| 1 <= k < s.len() implies s.skip(1)[k - 1] == (#[trigger] s[k]) by {}
    }
}

/// The resource ids of the Critical-tier policies, in table order: the
/// resources the deadline queue must never let starve.
pub open spec fn spec_critical_ids(s: Seq<SLAPolicy>) -> Seq<String>
    decreases s.len(),
{
    if s.len() == 0 {
        Seq::empty()
    } else {
        let rest = spec_critical_ids(s.drop_last());
        if s.last().priority == SLAPriority::Critical {
            rest.push(s.last().resource_id)
        } else {
            rest
        }
    }
}

/// How many violations in the ledger fall after the cutoff.
pub open spec fn spec_count_recent(vs: Seq<SLAViolation>, cutoff: int) -> int
    decreases vs.len(),
{
    if vs.len() == 0 {
        0
    } else {
        spec_count_recent(vs.drop_last(), cutoff) + if vs.last().timestamp > cutoff {
            1int
        } else {
            0int
        }
    }
}

/// The policy table and per-resource violation ledgers, keyed by resource
/// id: every registered policy is well formed.
pub struct SLAManager {
    pub sla_policies: Vec<SLAPolicy>,
    pub violation_history: Vec<ViolationLedger>,
}

/// Scores one breached dimension: the breach magnitude relative to its
/// threshold, weighted by the policy's priority tier.
pub fn calculate_impact_score(current: u64, threshold: u64, priority: SLAPriority) -> (impact:
    u64)
    requires
        1 <= threshold,
        threshold <= current,
        current <= SAMPLE_CAP_MILLI,
    ensures
        impact == spec_impact_milli(current, threshold, priority),
        impact <= 100_000_000,
{
    let diff: u64 = current - threshold;
    let ratio_milli: u64 = diff * 1000 / threshold;
    proof {
        vstd::arithmetic::div_mod::lemma_div_nonincreasing((diff * 1000) as int, threshold as int);
        vstd::arithmetic::div_mod::lemma_div_pos_is_pos((diff * 1000) as int, threshold as int);
    }
    let multiplier: u64 = match priority {
        SLAPriority::Critical => 1000,
        SLAPriority::High => 800,
        SLAPriority::Medium => 600,
        SLAPriority::Low => 400,
    };
    proof {
        assert((ratio_milli as int) * (multiplier as int) <= 100_000_000_000) by (nonlinear_arith)
            requires
                0 <= ratio_milli <= 100_000_000,
                0 <= multiplier <= 1000,
        ;
        vstd::arithmetic::div_mod::lemma_div_nonincreasing(
            ((ratio_milli as int) * (multiplier as int)) as int,
            1000,
        );
        vstd::arithmetic::div_mod::lemma_div_pos_is_pos(
            ((ratio_milli as int) * (multiplier as int)) as int,
            1000,
        );
    }
    ratio_milli * multiplier / 1000
}

/// What a compliance evaluation concludes from the given readings under the
/// given policy: the summed impact of breached dimensions, and criticality
/// when a Critical-tier policy has any breach.
pub open spec fn spec_status_of(p: SLAPolicy, m: ResourceMetrics) -> SLAStatus {
    let cpu_breach = m.cpu_utilization > p.max_cpu_utilization;
    let mem_breach = m.memory_utilization > p.max_memory_utilization;
    let rt_breach = m.response_time_ms > p.max_response_time_ms;
    let impact = (if cpu_breach {
        spec_impact_milli(m.cpu_utilization, p.max_cpu_utilization, p.priority)
    } else {
        0
    }) + (if mem_breach {
        spec_impact_milli(m.memory_utilization, p.max_memory_utilization, p.priority)
    } else {
        0
    }) + (if rt_breach {
        RESPONSE_TIME_IMPACT_MILLI as int
    } else {
        0
    });
    SLAStatus {
        is_critical: p.priority == SLAPriority::Critical && (cpu_breach || mem_breach
            || rt_breach),
        impact_score: impact as u64,
        deadline_minutes: p.deadline_minutes,
    }
}

/// The permissive verdict for resources with no registered policy.
pub open spec fn spec_default_status() -> SLAStatus {
    SLAStatus { is_critical: false, impact_score: 0, deadline_minutes: DEFAULT_DEADLINE_MINUTES }
}

/// The compliance rate over a trailing window, in milli-percent: each
/// violation after the cutoff consumes a fixed five-minute penalty of the
/// window, and the result is clamped to [0, 100] percent.
pub open spec fn spec_compliance_rate(
    ledger: Seq<SLAViolation>,
    period_hours: u32,
    now: i64,
) -> int {
    let cutoff = now - (period_hours as int) * 3600;
    let total_minutes = (period_hours as int) * 60;
    let violation_minutes = spec_count_recent(ledger, cutoff) * (VIOLATION_PENALTY_MINUTES as int);
    if violation_minutes >= total_minutes {
        0
    } else {
        (total_minutes - violation_minutes) * 100_000 / total_minutes
    }
}

impl SLAManager {
    /// Policies and ledgers are keyed uniquely by resource id, and no
    /// malformed policy is ever in the table.
    pub open spec fn wf(&self) -> bool {
        &&& forall|i: int|
            0 <= i < self.sla_policies@.len() ==> spec_policy_wf(#[trigger] self.sla_policies@[i])
        &&& forall|i: int, j: int|
            0 <= i < j < self.sla_policies@.len() ==> self.sla_policies@[i].resource_id@
                != self.sla_policies@[j].resource_id@
        &&& forall|i: int, j: int|
            0 <= i < j < self.violation_history@.len() ==> self.violation_history@[i].resource_id@
                != self.violation_history@[j].resource_id@
    }

    /// An evaluator with no policies and no recorded violations.
    pub fn new() -> (manager: SLAManager)
        ensures
            manager.wf(),
            manager.sla_policies@.len() == 0,
            manager.violation_history@.len() == 0,
    {
        SLAManager { sla_policies: Vec::new(), violation_history: Vec::new() }
    }

    /// Registers or replaces the policy for a resource. A malformed policy —
    /// a zero or over-100% utilization threshold, or a zero deadline — is
    /// rejected here, at registration time, and the table is unchanged.
    pub fn add_sla_policy(&mut self, policy: SLAPolicy) -> (result: Result<(), OpenStackError>)
        requires
            old(self).wf(),
        ensures
            final(self).wf(),
            final(self).violation_history == old(self).violation_history,
            !spec_policy_wf(policy) ==> {
                &&& result matches Err(e)
                &&& (result matches Err(e) ==> e matches OpenStackError::ConfigError(_))
                &&& final(self).sla_policies == old(self).sla_policies
            },
            spec_policy_wf(policy) ==> {
                let j = spec_find_policy(old(self).sla_policies@, policy.resource_id@);
                &&& result is Ok
                &&& (j < 0 ==> final(self).sla_policies@ == old(self).sla_policies@.push(policy))
                &&& (j >= 0 ==> final(self).sla_policies@ == old(self).sla_policies@.update(
                    j,
                    policy,
                ))
            },
    {
        if policy.max_cpu_utilization < 1 || policy.max_cpu_utilization > SAMPLE_CAP_MILLI
            || policy.max_memory_utilization < 1 || policy.max_memory_utilization
            > SAMPLE_CAP_MILLI || policy.deadline_minutes < 1 {
            let reason: &str = "sla policy thresholds out of range";
            return Err(OpenStackError::ConfigError(reason.to_owned()));
        }
        let n = self.sla_policies.len();
        let mut idx: usize = 0;
        while idx < n
            invariant
                *self == *old(self),
                spec_policy_wf(policy),
                n == self.sla_policies@.len(),
                idx <= n,
                self.wf(),
                forall|k: int|
                    0 <= k < idx ==> (#[trigger] self.sla_policies@[k]).resource_id@
                        != policy.resource_id@,
            decreases n - idx,
        {
            if self.sla_policies[idx].resource_id == policy.resource_id {
                proof {
                    lemma_find_policy(self.sla_policies@, policy.resource_id@);
                    assert(spec_find_policy(self.sla_policies@, policy.resource_id@) == idx);
                }
                let slot = &mut self.sla_policies[idx];
                *slot = policy;
                return Ok(());
            }
            idx += 1;
        }
        proof {
            lemma_find_policy(self.sla_policies@, policy.resource_id@);
        }
        self.sla_policies.push(policy);
        Ok(())
    }

    /// Evaluates the given readings against the resource's policy: breaches
    /// of cpu, memory and response time accumulate into the impact score,
    /// and a breach under a Critical-tier policy makes the verdict critical.
    /// Without a policy the permissive default verdict comes back.
    pub fn check_sla_compliance(&self, resource_id: &String, metrics: &ResourceMetrics) -> (
        status: SLAStatus)
        requires
            self.wf(),
            metrics.cpu_utilization <= SAMPLE_CAP_MILLI,
            metrics.memory_utilization <= SAMPLE_CAP_MILLI,
        ensures
            ({
                let j = spec_find_policy(self.sla_policies@, resource_id@);
                &&& j < 0 ==> status == spec_default_status()
                &&& j >= 0 ==> status == spec_status_of(self.sla_policies@[j], *metrics)
            }),
    {
        let n = self.sla_policies.len();
        let mut idx: usize = 0;
        while idx < n
            invariant
                n == self.sla_policies@.len(),
                idx <= n,
                self.wf(),
                metrics.cpu_utilization <= SAMPLE_CAP_MILLI,
                metrics.memory_utilization <= SAMPLE_CAP_MILLI,
                forall|k: int|
                    0 <= k < idx ==> (#[trigger] self.sla_policies@[k]).resource_id@
                        != resource_id@,
            decreases n - idx,
        {
            if self.sla_policies[idx].resource_id == *resource_id {
                proof {
                    lemma_find_policy(self.sla_policies@, resource_id@);
                    assert(spec_find_policy(self.sla_policies@, resource_id@) == idx);
                }
                let policy = &self.sla_policies[idx];
                let mut impact: u64 = 0;
                let mut any_breach: bool = false;
                if metrics.cpu_utilization > policy.max_cpu_utilization {
                    any_breach = true;
                    impact = impact + calculate_impact_score(
                        metrics.cpu_utilization,
                        policy.max_cpu_utilization,
                        policy.priority,
                    );
                }
                if metrics.memory_utilization > policy.max_memory_utilization {
                    any_breach = true;
                    impact = impact + calculate_impact_score(
                        metrics.memory_utilization,
                        policy.max_memory_utilization,
                        policy.priority,
                    );
                }
                if metrics.response_time_ms > policy.max_response_time_ms {
                    any_breach = true;
                    impact = impact + RESPONSE_TIME_IMPACT_MILLI;
                }
                let is_critical = matches!(policy.priority, SLAPriority::Critical) && any_breach;
                return SLAStatus {
                    is_critical,
                    impact_score: impact,
                    deadline_minutes: policy.deadline_minutes,
                };
            }
            idx += 1;
        }
        proof {
            lemma_find_policy(self.sla_policies@, resource_id@);
        }
        SLAStatus {
            is_critical: false,
            impact_score: 0,
            deadline_minutes: DEFAULT_DEADLINE_MINUTES,
        }
    }

    /// Appends a violation to its resource's ledger; nothing already in any
    /// ledger changes. The first violation of a resource opens its ledger.
    pub fn record_violation(&mut self, violation: SLAViolation)
        requires
            old(self).wf(),
        ensures
            final(self).wf(),
            final(self).sla_policies == old(self).sla_policies,
            ({
                let j = spec_find_ledger(old(self).violation_history@, violation.resource_id@);
                &&& j < 0 ==> {
                    &&& final(self).violation_history@.len() == old(self).violation_history@.len() + 1
                    &&& forall|k: int|
                        0 <= k < old(self).violation_history@.len() ==> final(self).violation_history@[k] == old(self).violation_history@[k]
                    &&& final(self).violation_history@.last().resource_id@
                        == violation.resource_id@
                    &&& final(self).violation_history@.last().violations@ == seq![violation]
                }
                &&& j >= 0 ==> {
                    &&& final(self).violation_history@.len() == old(self).violation_history@.len()
                    &&& forall|k: int|
                        0 <= k < old(self).violation_history@.len() && k != j ==> final(self).violation_history@[k] == old(self).violation_history@[k]
                    &&& final(self).violation_history@[j].resource_id@ == old(self).violation_history@[j].resource_id@
                    &&& final(self).violation_history@[j].violations@ == old(self).violation_history@[j].violations@.push(violation)
                }
            }),
    {
        let n = self.violation_history.len();
        let mut idx: usize = 0;
        while idx < n
            invariant
                *self == *old(self),
                n == self.violation_history@.len(),
                idx <= n,
                self.wf(),
                forall|k: int|
                    0 <= k < idx ==> (#[trigger] self.violation_history@[k]).resource_id@
                        != violation.resource_id@,
            decreases n - idx,
        {
            if self.violation_history[idx].resource_id == violation.resource_id {
                proof {
                    lemma_find_ledger(self.violation_history@, violation.resource_id@);
                    assert(spec_find_ledger(self.violation_history@, violation.resource_id@)
                        == idx);
                }
                let ledger = &mut self.violation_history[idx];
                ledger.violations.push(violation);
                return ;
            }
            idx += 1;
        }
        proof {
            lemma_find_ledger(self.violation_history@, violation.resource_id@);
        }
        let id = violation.resource_id.clone();
        let mut violations: Vec<SLAViolation> = Vec::new();
        violations.push(violation);
        assert(violations@ =~= seq![violation]);
        self.violation_history.push(ViolationLedger { resource_id: id, violations });
    }

    /// The violation history of one resource, oldest first; empty when the
    /// resource has no ledger.
    pub fn get_violation_history(&self, resource_id: &String) -> (history: Vec<SLAViolation>)
        requires
            self.wf(),
        ensures
            ({
                let j = spec_find_ledger(self.violation_history@, resource_id@);
                &&& j < 0 ==> history@.len() == 0
                &&& j >= 0 ==> history@ == self.violation_history@[j].violations@
            }),
    {
        let n = self.violation_history.len();
        let mut idx: usize = 0;
        while idx < n
            invariant
                n == self.violation_history@.len(),
                idx <= n,
                self.wf(),
                forall|k: int|
                    0 <= k < idx ==> (#[trigger] self.violation_history@[k]).resource_id@
                        != resource_id@,
            decreases n - idx,
        {
            if self.violation_history[idx].resource_id == *resource_id {
                proof {
                    lemma_find_ledger(self.violation_history@, resource_id@);
                    assert(spec_find_ledger(self.violation_history@, resource_id@) == idx);
                }
                let ledger = &self.violation_history[idx];
                let m = ledger.violations.len();
                let mut out: Vec<SLAViolation> = Vec::new();
                let mut k: usize = 0;
                while k < m
                    invariant
                        m == ledger.violations@.len(),
                        k <= m,
                        out@ == ledger.violations@.take(k as int),
                    decreases m - k,
                {
                    out.push(ledger.violations[k].clone());
                    assert(out@ =~= ledger.violations@.take(k + 1 as int));
                    k += 1;
                }
                assert(out@ =~= ledger.violations@);
                return out;
            }
            idx += 1;
        }
        proof {
            lemma_find_ledger(self.violation_history@, resource_id@);
        }
        Vec::new()
    }

    /// The compliance rate for one resource over the trailing window ending
    /// at `now`, in milli-percent: always within [0, 100] percent, and
    /// exactly 100 percent when no violation falls inside the window.
    pub fn compliance_rate_at(&self, resource_id: &String, period_hours: u32, now: i64) -> (rate:
        u64)
        requires
            self.wf(),
            period_hours >= 1,
        ensures
            rate <= 100_000,
            ({
                let j = spec_find_ledger(self.violation_history@, resource_id@);
                &&& j < 0 ==> rate == 100_000
                &&& j >= 0 ==> rate == spec_compliance_rate(
                    self.violation_history@[j].violations@,
                    period_hours,
                    now,
                )
                &&& (j >= 0 && spec_count_recent(
                    self.violation_history@[j].violations@,
                    now - (period_hours as int) * 3600,
                ) == 0) ==> rate == 100_000
            }),
    {
        let n = self.violation_history.len();
        let mut idx: usize = 0;
        while idx < n
            invariant
                n == self.violation_history@.len(),
                idx <= n,
                self.wf(),
                period_hours >= 1,
                forall|k: int|
                    0 <= k < idx ==> (#[trigger] self.violation_history@[k]).resource_id@
                        != resource_id@,
            decreases n - idx,
        {
            if self.violation_history[idx].resource_id == *resource_id {
                proof {
                    lemma_find_ledger(self.violation_history@, resource_id@);
                    assert(spec_find_ledger(self.violation_history@, resource_id@) == idx);
                }
                let ledger = &self.violation_history[idx];
                let m = ledger.violations.len();
                let cutoff: i128 = (now as i128) - (period_hours as i128) * 3600;
                let mut recent: u64 = 0;
                let mut k: usize = 0;
                while k < m
                    invariant
                        m == ledger.violations@.len(),
                        k <= m,
                        recent == spec_count_recent(
                            ledger.violations@.take(k as int),
                            (now as int) - (period_hours as int) * 3600,
                        ),
                        recent <= k,
                        cutoff == (now as int) - (period_hours as int) * 3600,
                    decreases m - k,
                {
                    assert(ledger.violations@.take(k + 1 as int).drop_last()
                        =~= ledger.violations@.take(k as int));
                    if (ledger.violations[k].timestamp as i128) > cutoff {
                        recent = recent + 1;
                    }
                    k += 1;
                }
                assert(ledger.violations@.take(m as int) =~= ledger.violations@);
                let total_minutes: u64 = (period_hours as u64) * 60;
                let violation_minutes: u128 = (recent as u128) * (
                VIOLATION_PENALTY_MINUTES as u128);
                if violation_minutes >= (total_minutes as u128) {
                    return 0;
                }
                let remaining: u64 = total_minutes - (violation_minutes as u64);
                proof {
                    vstd::arithmetic::div_mod::lemma_div_pos_is_pos(
                        ((remaining as int) * 100_000) as int,
                        total_minutes as int,
                    );
                    vstd::arithmetic::div_mod::lemma_remainder_lower(
                        ((remaining as int) * 100_000) as int,
                        total_minutes as int,
                    );
                    assert((remaining as int) * 100_000 / (total_minutes as int) <= 100_000) by (
                    nonlinear_arith)
                        requires
                            1 <= total_minutes,
                            0 <= remaining <= total_minutes,
                            (remaining as int) * 100_000 / (total_minutes as int) >= 0,
                            (remaining as int) * 100_000 / (total_minutes as int) * (
                            total_minutes as int) <= (remaining as int) * 100_000,
                    ;
                    if recent == 0 {
                        vstd::arithmetic::div_mod::lemma_div_by_multiple(
                            100_000,
                            total_minutes as int,
                        );
                        assert((total_minutes as int) * 100_000 == 100_000 * (
                        total_minutes as int)) by (nonlinear_arith);
                    }
                }
                return remaining * 100_000 / total_minutes;
            }
            idx += 1;
        }
        proof {
            lemma_find_ledger(self.violation_history@, resource_id@);
        }
        100_000
    }

    /// The compliance rate over the trailing window ending now, read from
    /// the wall clock; the second component is the evaluation time the rate
    /// was computed against.
    pub fn calculate_sla_compliance_rate(&self, resource_id: &String, period_hours: u32) -> (
        result: (u64, i64))
        requires
            self.wf(),
            period_hours >= 1,
        ensures
            result.0 <= 100_000,
            spec_find_ledger(self.violation_history@, resource_id@) < 0 ==> result.0 == 100_000,
            spec_find_ledger(self.violation_history@, resource_id@) >= 0 ==> result.0
                == spec_compliance_rate(
                self.violation_history@[spec_find_ledger(
                    self.violation_history@,
                    resource_id@,
                )].violations@,
                period_hours,
                result.1,
            ),
    {
        let now = crate::clock::now_unix_seconds();
        let rate = self.compliance_rate_at(resource_id, period_hours, now);
        (rate, now)
    }

    /// The ids of all resources under a Critical-tier policy, in table
    /// order: the set the deadline queue prioritizes.
    pub fn critical_resource_ids(&self) -> (ids: Vec<String>)
        requires
            self.wf(),
        ensures
            ids@ == spec_critical_ids(self.sla_policies@),
    {
        let n = self.sla_policies.len();
        let mut ids: Vec<String> = Vec::new();
        let mut i: usize = 0;
        while i < n
            invariant
                n == self.sla_policies@.len(),
                i <= n,
                ids@ == spec_critical_ids(self.sla_policies@.take(i as int)),
            decreases n - i,
        {
            proof {
                assert(self.sla_policies@.take(i + 1 as int).drop_last()
                    =~= self.sla_policies@.take(i as int));
            }
            let p = &self.sla_policies[i];
            if matches!(p.priority, SLAPriority::Critical) {
                ids.push(p.resource_id.clone());
            }
            i += 1;
        }
        proof {
            assert(self.sla_policies@.take(n as int) =~= self.sla_policies@);
        }
        ids
    }
}

} // verus!
