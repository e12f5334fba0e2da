//! Host-placement scoring: a hard feasibility gate followed by a weighted
//! multi-criteria score, peaking at a target utilization and rewarding
//! consolidation onto already-busy hosts.

use vstd::prelude::*;

verus! {

/// Target utilization, in milli-percent: utilization scores peak here.
pub const OPTIMAL_UTILIZATION_MILLI: u64 = 65_000;

/// A host is infeasible once cpu or memory utilization reaches this bound.
pub const FEASIBILITY_UTILIZATION_CAP_MILLI: u64 = 90_000;

/// Per-host capacity and utilization as reported by the fabric.
///
/// Utilizations are percentages in milli-percent (`45_200` is `45.2%`);
/// `last_updated` is Unix seconds.
pub struct HostMetrics {
    pub host_id: String,
    pub cpu_utilization: u64,
    pub memory_utilization: u64,
    pub disk_utilization: u64,
    pub network_utilization: u64,
    pub vm_count: u32,
    pub available_vcpus: u32,
    pub available_memory_mb: u64,
    pub last_updated: i64,
}

/// What a resource needs from a host.
pub struct ResourceRequirements {
    pub vcpus: u32,
    pub memory_mb: u64,
    pub disk_gb: u32,
    pub network_bandwidth_mbps: u32,
}

/// The per-criterion breakdown of a host's placement score.
///
/// The four criterion scores are in hundred-thousandths of 1.0, keeping the
/// full milli-percent precision of the utilizations; the combined `score`
/// is in millionths of 1.0 (so `1_000_000` is a perfect score), which keeps
/// the 0.3/0.3/0.2/0.2 weighting exact in integers.
pub struct PlacementScore {
    pub host_id: String,
    pub score: u64,
    pub cpu_score: u64,
    pub memory_score: u64,
    pub network_score: u64,
    pub consolidation_score: u64,
}

impl HostMetrics {
    /// Utilization percentages never exceed 100%.
    pub open spec fn wf(&self) -> bool {
        &&& self.cpu_utilization <= 100_000
        &&& self.memory_utilization <= 100_000
        &&& self.disk_utilization <= 100_000
        &&& self.network_utilization <= 100_000
    }
}

/// The feasibility gate: enough spare vcpus and memory, and cpu/memory
/// utilization strictly below the cap.
pub open spec fn spec_feasible(host: &HostMetrics, req: &ResourceRequirements) -> bool {
    &&& host.available_vcpus >= req.vcpus
    &&& host.available_memory_mb >= req.memory_mb
    &&& host.cpu_utilization < FEASIBILITY_UTILIZATION_CAP_MILLI
    &&& host.memory_utilization < FEASIBILITY_UTILIZATION_CAP_MILLI
}

/// `(100 - |u - 65|) / 100` over percentages, carried exactly: the value
/// `100_000 - distance` is that score in hundred-thousandths, losing none
/// of the input's milli-percent precision.
pub open spec fn spec_utilization_score(utilization: u64) -> u64
    recommends
        utilization <= 100_000,
{
    let distance = if utilization >= OPTIMAL_UTILIZATION_MILLI {
        (utilization - OPTIMAL_UTILIZATION_MILLI) as u64
    } else {
        (OPTIMAL_UTILIZATION_MILLI - utilization) as u64
    };
    (100_000 - distance) as u64
}

/// `min(vm_count / 20, 1)` in hundred-thousandths.
pub open spec fn spec_consolidation_score(vm_count: u32) -> u64 {
    if vm_count >= 20 {
        100_000
    } else {
        (vm_count * 5000) as u64
    }
}

/// The weighted combination `0.3 cpu + 0.3 mem + 0.2 net + 0.2 consolidation`,
/// exact in millionths.
pub open spec fn spec_combined_score(host: &HostMetrics) -> u64
    recommends
        host.wf(),
{
    (3 * spec_utilization_score(host.cpu_utilization)
        + 3 * spec_utilization_score(host.memory_utilization)
        + 2 * spec_utilization_score(host.network_utilization)
        + 2 * spec_consolidation_score(host.vm_count)) as u64
}

/// Scores one utilization dimension: the score peaks at the target
/// utilization and falls off linearly on both sides.
pub fn calculate_utilization_score(utilization: u64) -> (score: u64)
    requires
        utilization <= 100_000,
    ensures
        score == spec_utilization_score(utilization),
        score <= 100_000,
{
    let distance: u64 = if utilization >= OPTIMAL_UTILIZATION_MILLI {
        utilization - OPTIMAL_UTILIZATION_MILLI
    } else {
        OPTIMAL_UTILIZATION_MILLI - utilization
    };
    100_000 - distance
}

/// The hard feasibility gate a host must pass before it is scored.
pub fn can_host_resource(host: &HostMetrics, req: &ResourceRequirements) -> (feasible: bool)
    ensures
        feasible == spec_feasible(host, req),
{
    host.available_vcpus >= req.vcpus && host.available_memory_mb >= req.memory_mb
        && host.cpu_utilization < FEASIBILITY_UTILIZATION_CAP_MILLI
        && host.memory_utilization < FEASIBILITY_UTILIZATION_CAP_MILLI
}

/// Scores a feasible host on all four criteria.
pub fn calculate_placement_score(host: &HostMetrics, req: &ResourceRequirements) -> (score:
    PlacementScore)
    requires
        host.wf(),
    ensures
        score.host_id@ == host.host_id@,
        score.cpu_score == spec_utilization_score(host.cpu_utilization),
        score.memory_score == spec_utilization_score(host.memory_utilization),
        score.network_score == spec_utilization_score(host.network_utilization),
        score.consolidation_score == spec_consolidation_score(host.vm_count),
        score.score == spec_combined_score(host),
        score.score <= 1_000_000,
{
    let cpu_score = calculate_utilization_score(host.cpu_utilization);
    let memory_score = calculate_utilization_score(host.memory_utilization);
    let network_score = calculate_utilization_score(host.network_utilization);
    let consolidation_score: u64 = if host.vm_count >= 20 {
        100_000
    } else {
        (host.vm_count as u64) * 5000
    };
    let total = 3 * cpu_score + 3 * memory_score + 2 * network_score + 2 * consolidation_score;
    PlacementScore {
        host_id: host.host_id.clone(),
        score: total,
        cpu_score,
        memory_score,
        network_score,
        consolidation_score,
    }
}

/// Index of the host the scorer selects: among feasible hosts, the first
/// one attaining the maximum combined score; -1 when no host is feasible.
pub open spec fn spec_best_host(hosts: Seq<HostMetrics>, req: &ResourceRequirements) -> int
    decreases hosts.len(),
{
    if hosts.len() == 0 {
        -1
    } else {
        let b = spec_best_host(hosts.drop_last(), req);
        if spec_feasible(&hosts.last(), req) && (b < 0 || spec_combined_score(&hosts.last())
            > spec_combined_score(&hosts[b])) {
            hosts.len() - 1
        } else {
            b
        }
    }
}

/// The selected index is a feasible host of maximal score, the first in
/// enumeration order among those attaining it; it is -1 exactly when no host
/// passes the feasibility gate.
pub proof fn lemma_best_host(hosts: Seq<HostMetrics>, req: &ResourceRequirements)
    ensures
        spec_best_host(hosts, req) >= 0 ==> {
            &&& spec_best_host(hosts, req) < hosts.len()
            &&& spec_feasible(&hosts[spec_best_host(hosts, req)], req)
            &&& forall|j: int|
                0 <= j < hosts.len() && spec_feasible(&#[trigger] hosts[j], req)
                    ==> spec_combined_score(&hosts[j]) <= spec_combined_score(
                    &hosts[spec_best_host(hosts, req)],
                )
            &&& forall|j: int|
                0 <= j < spec_best_host(hosts, req) && spec_feasible(&#[trigger] hosts[j], req)
                    ==> spec_combined_score(&hosts[j]) < spec_combined_score(
                    &hosts[spec_best_host(hosts, req)],
                )
        },
        spec_best_host(hosts, req) < 0 ==> forall|j: int|
            0 <= j < hosts.len() ==> !spec_feasible(&#[trigger] hosts[j], req),
    decreases hosts.len(),
{
    if hosts.len() > 0 {
        lemma_best_host(hosts.drop_last(), req);
        assert(forall|j: int| 0 <= j < hosts.len() - 1 ==> hosts.drop_last()[j] == #[trigger] hosts[j]);
    }
}

/// Picks the feasible host with the highest combined score; ties go to the
/// first such host in enumeration order. Returns `None` exactly when no host
/// passes the feasibility gate.
pub fn find_optimal_host(req: &ResourceRequirements, hosts: &Vec<HostMetrics>) -> (result: Option<
    String,
>)
    requires
        forall|i: int| 0 <= i < hosts@.len() ==> (#[trigger] hosts@[i]).wf(),
    ensures
        spec_best_host(hosts@, req) < 0 ==> result is None,
        spec_best_host(hosts@, req) >= 0 ==> (result matches Some(id) && id == hosts@[
            spec_best_host(hosts@, req)].host_id),
        result is None <==> (forall|i: int|
            0 <= i < hosts@.len() ==> !spec_feasible(&hosts@[i], req)),
        result matches Some(id) ==> exists|i: int|
            {
                &&& 0 <= i < hosts@.len()
                &&& spec_feasible(&#[trigger] hosts@[i], req)
                &&& id@ == hosts@[i].host_id@
                &&& forall|j: int|
                    0 <= j < hosts@.len() && spec_feasible(&#[trigger] hosts@[j], req)
                        ==> spec_combined_score(&hosts@[j]) <= spec_combined_score(&hosts@[i])
                &&& forall|j: int|
                    0 <= j < i && spec_feasible(&#[trigger] hosts@[j], req)
                        ==> spec_combined_score(&hosts@[j]) < spec_combined_score(&hosts@[i])
            },
{
    proof {
        lemma_best_host(hosts@, req);
    }
    let mut best: Option<usize> = None;
    let mut best_score: u64 = 0;
    let mut k: usize = 0;
    while k < hosts.len()
        invariant
            k <= hosts@.len(),
            forall|i: int| 0 <= i < hosts@.len() ==> (#[trigger] hosts@[i]).wf(),
            best is None ==> spec_best_host(hosts@.take(k as int), req) < 0,
            best matches Some(b) ==> {
                &&& 0 <= b < k
                &&& b == spec_best_host(hosts@.take(k as int), req)
                &&& best_score == spec_combined_score(&hosts@[b as int])
            },
        decreases hosts@.len() - k,
    {
        assert(hosts@.take(k + 1 as int).drop_last() =~= hosts@.take(k as int));
        assert(hosts@.take(k + 1 as int).last() == hosts@[k as int]);
        if can_host_resource(&hosts[k], req) {
            let score = calculate_placement_score(&hosts[k], req);
            let replace = match best {
                None => true,
                Some(_) => score.score > best_score,
            };
            if replace {
                best = Some(k);
                best_score = score.score;
            }
        }
        k += 1;
    }
    proof {
        assert(hosts@.take(hosts@.len() as int) =~= hosts@);
    }
    match best {
        None => None,
        Some(b) => Some(hosts[b].host_id.clone()),
    }
}

/// The host table the scorer reads, keyed by host id, refreshed by
/// discovery.
pub struct PlacementEngine {
    pub host_metrics: Vec<HostMetrics>,
}

/// Index of the first host entry with the given id, or -1.
pub open spec fn spec_find_host(s: Seq<HostMetrics>, id: Seq<char>) -> int
    decreases s.len(),
{
    if s.len() == 0 {
        -1
    } else if s[0].host_id@ == id {
        0
    } else {
        let r = spec_find_host(s.skip(1), id);
        if r < 0 {
            -1
        } else {
            r + 1
        }
    }
}

pub proof fn lemma_find_host(s: Seq<HostMetrics>, id: Seq<char>)
    ensures
        spec_find_host(s, id) >= 0 ==> {
            &&& spec_find_host(s, id) < s.len()
            &&& s[spec_find_host(s, id)].host_id@ == id
            &&& forall|k: int|
                0 <= k < spec_find_host(s, id) ==> (#[trigger] s[k]).host_id@ != id
        },
        spec_find_host(s, id) < 0 ==> forall|k: int|
            0 <= k < s.len() ==> (#[trigger] s[k]).host_id@ != id,
    decreases s.len(),
{
    if s.len() > 0 && s[0].host_id@ != id {
        lemma_find_host(s.skip(1), id);
        assert forall|k: int| 1 <= k < s.len() implies s.skip(1)[k - 1] == (#[trigger] s[k]) by {}
    }
}

impl PlacementEngine {
    /// Every tracked host reports percentages and host ids are unique keys.
    pub open spec fn wf(&self) -> bool {
        &&& forall|i: int| 0 <= i < self.host_metrics@.len() ==> (#[trigger] self.host_metrics@[i]).wf()
        &&& forall|i: int, j: int|
            0 <= i < j < self.host_metrics@.len() ==> self.host_metrics@[i].host_id@
                != self.host_metrics@[j].host_id@
    }

    /// A scorer that knows no hosts yet.
    pub fn new() -> (engine: PlacementEngine)
        ensures
            engine.wf(),
            engine.host_metrics@.len() == 0,
    {
        PlacementEngine { host_metrics: Vec::new() }
    }

    /// Registers or refreshes one host's metrics, keyed by host id.
    pub fn update_host(&mut self, host: HostMetrics)
        requires
            old(self).wf(),
            host.wf(),
        ensures
            final(self).wf(),
            ({
                let j = spec_find_host(old(self).host_metrics@, host.host_id@);
                &&& j < 0 ==> final(self).host_metrics@ == old(self).host_metrics@.push(host)
                &&& j >= 0 ==> final(self).host_metrics@ == old(self).host_metrics@.update(j, host)
            }),
    {
        let n = self.host_metrics.len();
        let mut idx: usize = 0;
        while idx < n
            invariant
                *self == *old(self),
                host.wf(),
                n == self.host_metrics@.len(),
                idx <= n,
                self.wf(),
                forall|k: int|
                    0 <= k < idx ==> (#[trigger] self.host_metrics@[k]).host_id@ != host.host_id@,
            decreases n - idx,
        {
            if self.host_metrics[idx].host_id == host.host_id {
                proof {
                    lemma_find_host(self.host_metrics@, host.host_id@);
                    assert(spec_find_host(self.host_metrics@, host.host_id@) == idx);
                }
                let slot = &mut self.host_metrics[idx];
                *slot = host;
                return ;
            }
            idx += 1;
        }
        proof {
            lemma_find_host(self.host_metrics@, host.host_id@);
        }
        self.host_metrics.push(host);
    }

    /// The scorer's selection over its current host table.
    pub fn select_host(&self, req: &ResourceRequirements) -> (result: Option<String>)
        requires
            self.wf(),
        ensures
            spec_best_host(self.host_metrics@, req) < 0 ==> result is None,
            spec_best_host(self.host_metrics@, req) >= 0 ==> (result matches Some(id) && id
                == self.host_metrics@[spec_best_host(self.host_metrics@, req)].host_id),
            result is None <==> (forall|i: int|
                0 <= i < self.host_metrics@.len() ==> !spec_feasible(&self.host_metrics@[i], req)),
    {
        find_optimal_host(req, &self.host_metrics)
    }
}

} // verus!
