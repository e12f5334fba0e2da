//! The resource registry behind telemetry collection: discovery upserts
//! entries, the fine-grained loop asks which resources are due, and the
//! deadline queue orders refreshes earliest-deadline-first, ties broken by
//! resource id.

use vstd::prelude::*;
use vstd::string::StrSliceExecFns;

verus! {

/// Tracking state of one discovered resource: its type tag, when its
/// metrics were last collected (Unix seconds), and how often they should be.
pub struct ResourceInfo {
    pub resource_type: String,
    pub last_collected: i64,
    pub collection_interval_seconds: u64,
}

/// One registry slot: a resource id and its tracking state.
pub struct ResourceEntry {
    pub resource_id: String,
    pub info: ResourceInfo,
}

/// Character-wise lexicographic strict order on resource ids.
pub open spec fn spec_id_lt(a: Seq<char>, b: Seq<char>) -> bool
    decreases a.len(),
{
    if b.len() == 0 {
        false
    } else if a.len() == 0 {
        true
    } else if (a[0] as int) < (b[0] as int) {
        true
    } else if (a[0] as int) > (b[0] as int) {
        false
    } else {
        spec_id_lt(a.skip(1), b.skip(1))
    }
}

/// Compares two resource ids in the deadline queue's tie-break order.
pub fn id_lt(a: &String, b: &String) -> (r: bool)
    ensures
        r == spec_id_lt(a@, b@),
{
    let alen = a.as_str().unicode_len();
    let blen = b.as_str().unicode_len();
    let mut i: usize = 0;
    assert(a@.skip(0) =~= a@);
    assert(b@.skip(0) =~= b@);
    while i < alen && i < blen
        invariant
            alen == a@.len(),
            blen == b@.len(),
            i <= alen,
            i <= blen,
            spec_id_lt(a@, b@) == spec_id_lt(a@.skip(i as int), b@.skip(i as int)),
        decreases alen - i,
    {
        let ca = a.as_str().get_char(i);
        let cb = b.as_str().get_char(i);
        assert(a@.skip(i as int)[0] == a@[i as int]);
        assert(b@.skip(i as int)[0] == b@[i as int]);
        if (ca as u32) < (cb as u32) {
            return true;
        }
        if (ca as u32) > (cb as u32) {
            return false;
        }
        assert(a@.skip(i as int).skip(1) =~= a@.skip(i + 1 as int));
        assert(b@.skip(i as int).skip(1) =~= b@.skip(i + 1 as int));
        i += 1;
    }
    alen < blen
}

/// The implicit refresh deadline of an entry: when it was last collected
/// plus its collection interval.
pub open spec fn spec_deadline(e: ResourceEntry) -> int {
    e.info.last_collected + e.info.collection_interval_seconds
}

/// Whether the deadline queue services `e1` strictly before `e2`: the
/// nearer deadline first, equal deadlines in resource-id order.
pub open spec fn spec_more_urgent(e1: ResourceEntry, e2: ResourceEntry) -> bool {
    ||| spec_deadline(e1) < spec_deadline(e2)
    ||| (spec_deadline(e1) == spec_deadline(e2) && spec_id_lt(e1.resource_id@, e2.resource_id@))
}

/// Index of the entry the deadline queue services next: the first entry
/// not preceded by any strictly more urgent one; -1 when the registry is
/// empty.
pub open spec fn spec_edf_index(s: Seq<ResourceEntry>) -> int
    decreases s.len(),
{
    if s.len() == 0 {
        -1
    } else {
        let b = spec_edf_index(s.drop_last());
        if b < 0 {
            s.len() - 1
        } else if spec_more_urgent(s.last(), s[b]) {
            s.len() - 1
        } else {
            b
        }
    }
}

/// The id order never puts an id before itself.
pub proof fn lemma_id_lt_irrefl(a: Seq<char>)
    ensures
        !spec_id_lt(a, a),
    decreases a.len(),
{
    if a.len() > 0 {
        lemma_id_lt_irrefl(a.skip(1));
    }
}

/// The id order is transitive.
pub proof fn lemma_id_lt_trans(a: Seq<char>, b: Seq<char>, c: Seq<char>)
    ensures
        spec_id_lt(a, b) && spec_id_lt(b, c) ==> spec_id_lt(a, c),
    decreases a.len(),
{
    if a.len() > 0 && b.len() > 0 && c.len() > 0 && a[0] == b[0] && b[0] == c[0] {
        lemma_id_lt_trans(a.skip(1), b.skip(1), c.skip(1));
    }
}

/// The serviced entry exists and no entry is strictly more urgent than it.
pub proof fn lemma_edf_index(s: Seq<ResourceEntry>)
    ensures
        s.len() == 0 ==> spec_edf_index(s) == -1,
        s.len() > 0 ==> {
            &&& 0 <= spec_edf_index(s) < s.len()
            &&& forall|j: int|
                0 <= j < s.len() ==> !spec_more_urgent(#[trigger] s[j], s[spec_edf_index(s)])
        },
    decreases s.len(),
{
    if s.len() > 0 {
        lemma_edf_index(s.drop_last());
        assert(forall|j: int| 0 <= j < s.len() - 1 ==> s.drop_last()[j] == #[trigger] s[j]);
        let e = spec_edf_index(s);
        let b = spec_edf_index(s.drop_last());
        assert forall|j: int| 0 <= j < s.len() implies !spec_more_urgent(
            #[trigger] s[j],
            s[e],
        ) by {
            lemma_id_lt_irrefl(s[j].resource_id@);
            if b >= 0 {
                lemma_id_lt_trans(
                    s[j].resource_id@,
                    s[s.len() - 1].resource_id@,
                    s[b].resource_id@,
                );
            }
        }
    }
}

/// Index of the first entry with the given resource id, or -1.
pub open spec fn spec_find_entry(s: Seq<ResourceEntry>, id: Seq<char>) -> int
    decreases s.len(),
{
    if s.len() == 0 {
        -1
    } else if s[0].resource_id@ == id {
        0
    } else {
        let r = spec_find_entry(s.skip(1), id);
        if r < 0 {
            -1
        } else {
            r + 1
        }
    }
}

pub proof fn lemma_find_entry(s: Seq<ResourceEntry>, id: Seq<char>)
    ensures
        spec_find_entry(s, id) >= 0 ==> {
            &&& spec_find_entry(s, id) < s.len()
            &&& s[spec_find_entry(s, id)].resource_id@ == id
            &&& forall|k: int|
                0 <= k < spec_find_entry(s, id) ==> (#[trigger] s[k]).resource_id@ != id
        },
        spec_find_entry(s, id) < 0 ==> forall|k: int|
            0 <= k < s.len() ==> (#[trigger] s[k]).resource_id@ != id,
    decreases s.len(),
{
    if s.len() > 0 && s[0].resource_id@ != id {
        lemma_find_entry(s.skip(1), id);
        assert forall|k: int| 1 <= k < s.len() implies s.skip(1)[k - 1] == (#[trigger] s[k]) by {}
    }
}

/// Whether an entry's metrics are due for refresh at time `now`.
pub open spec fn spec_is_due(e: ResourceEntry, now: i64) -> bool {
    now - e.info.last_collected >= e.info.collection_interval_seconds
}

/// The ids of all entries due at `now`, in registry order.
pub open spec fn spec_due_ids(s: Seq<ResourceEntry>, now: i64) -> Seq<String>
    decreases s.len(),
{
    if s.len() == 0 {
        Seq::empty()
    } else {
        let rest = spec_due_ids(s.drop_last(), now);
        if spec_is_due(s.last(), now) {
            rest.push(s.last().resource_id)
        } else {
            rest
        }
    }
}

/// Whether the entry's resource id is one of the given ids.
pub open spec fn spec_id_in(e: ResourceEntry, ids: Seq<String>) -> bool {
    exists|k: int| 0 <= k < ids.len() && (#[trigger] ids[k])@ == e.resource_id@
}

/// Index of the entry the deadline queue services next among the entries
/// whose ids are in the given set; -1 when none of them is tracked.
pub open spec fn spec_edf_index_among(s: Seq<ResourceEntry>, ids: Seq<String>) -> int
    decreases s.len(),
{
    if s.len() == 0 {
        -1
    } else {
        let b = spec_edf_index_among(s.drop_last(), ids);
        if !spec_id_in(s.last(), ids) {
            b
        } else if b < 0 {
            s.len() - 1
        } else if spec_more_urgent(s.last(), s[b]) {
            s.len() - 1
        } else {
            b
        }
    }
}

/// The serviced entry is in the set and no set member is strictly more
/// urgent than it; -1 exactly when no tracked entry is in the set.
pub proof fn lemma_edf_index_among(s: Seq<ResourceEntry>, ids: Seq<String>)
    ensures
        spec_edf_index_among(s, ids) < 0 ==> forall|j: int|
            0 <= j < s.len() ==> !spec_id_in(#[trigger] s[j], ids),
        spec_edf_index_among(s, ids) >= 0 ==> {
            &&& 0 <= spec_edf_index_among(s, ids) < s.len()
            &&& spec_id_in(s[spec_edf_index_among(s, ids)], ids)
            &&& forall|j: int|
                0 <= j < s.len() && spec_id_in(#[trigger] s[j], ids) ==> !spec_more_urgent(
                    s[j],
                    s[spec_edf_index_among(s, ids)],
                )
        },
    decreases s.len(),
{
    if s.len() > 0 {
        lemma_edf_index_among(s.drop_last(), ids);
        assert(forall|j: int| 0 <= j < s.len() - 1 ==> s.drop_last()[j] == #[trigger] s[j]);
        let e = spec_edf_index_among(s, ids);
        if e >= 0 {
            let b = spec_edf_index_among(s.drop_last(), ids);
            assert forall|j: int|
                0 <= j < s.len() && spec_id_in(#[trigger] s[j], ids) implies !spec_more_urgent(
                s[j],
                s[e],
            ) by {
                lemma_id_lt_irrefl(s[j].resource_id@);
                if b >= 0 {
                    lemma_id_lt_trans(
                        s[j].resource_id@,
                        s[s.len() - 1].resource_id@,
                        s[b].resource_id@,
                    );
                }
            }
        }
    }
}

/// The registry of tracked resources: an ownership-by-key arena with unique
/// resource ids. Discovery upserts entries and never removes them; stale
/// entries persist until rediscovery overwrites them.
pub struct ResourceRegistry {
    pub resources: Vec<ResourceEntry>,
}

impl ResourceRegistry {
    pub open spec fn wf(&self) -> bool {
        forall|i: int, j: int|
            0 <= i < j < self.resources@.len() ==> self.resources@[i].resource_id@
                != self.resources@[j].resource_id@
    }

    /// An empty registry.
    pub fn new() -> (registry: ResourceRegistry)
        ensures
            registry.wf(),
            registry.resources@.len() == 0,
    {
        ResourceRegistry { resources: Vec::new() }
    }

    /// Registers a discovered resource, or refreshes its tracking state on
    /// rediscovery; entries absent from a discovery pass are kept.
    pub fn register(&mut self, resource_id: String, info: ResourceInfo)
        requires
            old(self).wf(),
        ensures
            final(self).wf(),
            ({
                let j = spec_find_entry(old(self).resources@, resource_id@);
                &&& j < 0 ==> {
                    &&& final(self).resources@.len() == old(self).resources@.len() + 1
                    &&& forall|k: int|
                        0 <= k < old(self).resources@.len() ==> final(self).resources@[k] == old(self).resources@[k]
                    &&& final(self).resources@.last().resource_id == resource_id
                    &&& final(self).resources@.last().info == info
                }
                &&& j >= 0 ==> {
                    &&& final(self).resources@.len() == old(self).resources@.len()
                    &&& forall|k: int|
                        0 <= k < old(self).resources@.len() && k != j ==> final(self).resources@[k] == old(self).resources@[k]
                    &&& final(self).resources@[j].resource_id == old(self).resources@[j].resource_id
                    &&& final(self).resources@[j].info == info
                }
            }),
    {
        let n = self.resources.len();
        let mut idx: usize = 0;
        while idx < n
            invariant
                *self == *old(self),
                n == self.resources@.len(),
                idx <= n,
                self.wf(),
                forall|k: int|
                    0 <= k < idx ==> (#[trigger] self.resources@[k]).resource_id@
                        != resource_id@,
            decreases n - idx,
        {
            if self.resources[idx].resource_id == resource_id {
                proof {
                    lemma_find_entry(self.resources@, resource_id@);
                    assert(spec_find_entry(self.resources@, resource_id@) == idx);
                }
                let slot = &mut self.resources[idx];
                slot.info = info;
                return ;
            }
            idx += 1;
        }
        proof {
            lemma_find_entry(self.resources@, resource_id@);
        }
        self.resources.push(ResourceEntry { resource_id, info });
    }

    /// Marks one resource's metrics as collected at `now`; nothing else
    /// changes. An unknown id changes nothing.
    pub fn mark_collected(&mut self, resource_id: &String, now: i64)
        requires
            old(self).wf(),
        ensures
            final(self).wf(),
            ({
                let j = spec_find_entry(old(self).resources@, resource_id@);
                &&& j < 0 ==> *final(self) == *old(self)
                &&& j >= 0 ==> {
                    &&& final(self).resources@.len() == old(self).resources@.len()
                    &&& forall|k: int|
                        0 <= k < old(self).resources@.len() && k != j ==> final(self).resources@[k] == old(self).resources@[k]
                    &&& final(self).resources@[j].resource_id == old(self).resources@[j].resource_id
                    &&& final(self).resources@[j].info.resource_type == old(self).resources@[j].info.resource_type
                    &&& final(self).resources@[j].info.collection_interval_seconds == old(self).resources@[j].info.collection_interval_seconds
                    &&& final(self).resources@[j].info.last_collected == now
                }
            }),
    {
        let n = self.resources.len();
        let mut idx: usize = 0;
        while idx < n
            invariant
                *self == *old(self),
                n == self.resources@.len(),
                idx <= n,
                self.wf(),
                forall|k: int|
                    0 <= k < idx ==> (#[trigger] self.resources@[k]).resource_id@
                        != resource_id@,
            decreases n - idx,
        {
            if self.resources[idx].resource_id == *resource_id {
                proof {
                    lemma_find_entry(self.resources@, resource_id@);
                    assert(spec_find_entry(self.resources@, resource_id@) == idx);
                }
                let slot = &mut self.resources[idx];
                slot.info.last_collected = now;
                return ;
            }
            idx += 1;
        }
        proof {
            lemma_find_entry(self.resources@, resource_id@);
        }
    }

    /// The resources whose refresh interval has elapsed at `now`, in
    /// registry order; a failure to collect one never hides the others.
    pub fn due_resources(&self, now: i64) -> (due: Vec<String>)
        ensures
            due@ == spec_due_ids(self.resources@, now),
    {
        let n = self.resources.len();
        let mut out: Vec<String> = Vec::new();
        let mut i: usize = 0;
        while i < n
            invariant
                n == self.resources@.len(),
                i <= n,
                out@ == spec_due_ids(self.resources@.take(i as int), now),
            decreases n - i,
        {
            proof {
                assert(self.resources@.take(i + 1 as int).drop_last() =~= self.resources@.take(
                    i as int,
                ));
            }
            let e = &self.resources[i];
            let elapsed: i128 = (now as i128) - (e.info.last_collected as i128);
            if elapsed >= (e.info.collection_interval_seconds as i128) {
                out.push(e.resource_id.clone());
            }
            i += 1;
        }
        proof {
            assert(self.resources@.take(n as int) =~= self.resources@);
        }
        out
    }

    /// The resource the deadline queue services next: nearest implicit
    /// deadline (`last_collected + interval`) first, ties broken by
    /// resource id. `None` only when the registry is empty. SLA-bound
    /// resources with near deadlines are never starved by later entries.
    pub fn next_deadline(&self) -> (next: Option<String>)
        requires
            self.wf(),
        ensures
            self.resources@.len() == 0 ==> next is None,
            self.resources@.len() > 0 ==> (next matches Some(id) && id == self.resources@[
                spec_edf_index(self.resources@)].resource_id),
    {
        let n = self.resources.len();
        if n == 0 {
            return None;
        }
        let mut best: usize = 0;
        let mut i: usize = 1;
        proof {
            assert(self.resources@.take(1).drop_last() =~= Seq::<ResourceEntry>::empty());
            assert(spec_edf_index(Seq::<ResourceEntry>::empty()) == -1);
            assert(spec_edf_index(self.resources@.take(1)) == 0);
        }
        while i < n
            invariant
                self.wf(),
                n == self.resources@.len(),
                0 < n,
                best < i <= n,
                best == spec_edf_index(self.resources@.take(i as int)),
            decreases n - i,
        {
            proof {
                assert(self.resources@.take(i + 1 as int).drop_last() =~= self.resources@.take(
                    i as int,
                ));
                assert(self.resources@.take(i + 1 as int).last() == self.resources@[i as int]);
            }
            let cand = &self.resources[i];
            let incumbent = &self.resources[best];
            let cand_deadline: i128 = (cand.info.last_collected as i128)
                + (cand.info.collection_interval_seconds as i128);
            let incumbent_deadline: i128 = (incumbent.info.last_collected as i128)
                + (incumbent.info.collection_interval_seconds as i128);
            let replace: bool = if cand_deadline < incumbent_deadline {
                true
            } else if cand_deadline == incumbent_deadline {
                id_lt(&cand.resource_id, &incumbent.resource_id)
            } else {
                false
            };
            if replace {
                best = i;
            }
            i += 1;
        }
        proof {
            assert(self.resources@.take(n as int) =~= self.resources@);
        }
        Some(self.resources[best].resource_id.clone())
    }

    /// The resource the deadline queue services next among those bound to
    /// the given SLA-critical ids: nearest deadline first, ties broken by
    /// resource id. Best-effort resources never occupy this queue. `None`
    /// exactly when no tracked resource is in the set.
    pub fn next_deadline_among(&self, critical_ids: &Vec<String>) -> (next: Option<String>)
        requires
            self.wf(),
        ensures
            spec_edf_index_among(self.resources@, critical_ids@) < 0 ==> next is None,
            spec_edf_index_among(self.resources@, critical_ids@) >= 0 ==> (next matches Some(id)
                && id == self.resources@[spec_edf_index_among(
                self.resources@,
                critical_ids@,
            )].resource_id),
    {
        let n = self.resources.len();
        let mut best: Option<usize> = None;
        let mut i: usize = 0;
        proof {
            assert(self.resources@.take(0) =~= Seq::<ResourceEntry>::empty());
        }
        while i < n
            invariant
                self.wf(),
                n == self.resources@.len(),
                i <= n,
                best is None ==> spec_edf_index_among(
                    self.resources@.take(i as int),
                    critical_ids@,
                ) < 0,
                best matches Some(b) ==> {
                    &&& b < i
                    &&& b == spec_edf_index_among(self.resources@.take(i as int), critical_ids@)
                },
            decreases n - i,
        {
            proof {
                assert(self.resources@.take(i + 1 as int).drop_last() =~= self.resources@.take(
                    i as int,
                ));
                assert(self.resources@.take(i + 1 as int).last() == self.resources@[i as int]);
            }
            let entry = &self.resources[i];
            let mut member: bool = false;
            let m = critical_ids.len();
            let mut k: usize = 0;
            while k < m && !member
                invariant
                    m == critical_ids@.len(),
                    k <= m,
                    n == self.resources@.len(),
                    i < n,
                    entry.resource_id@ == self.resources@[i as int].resource_id@,
                    member ==> spec_id_in(self.resources@[i as int], critical_ids@),
                    !member ==> forall|q: int|
                        0 <= q < k ==> (#[trigger] critical_ids@[q])@
                            != self.resources@[i as int].resource_id@,
                decreases m - k + (if member {
                    0int
                } else {
                    1int
                }),
            {
                if critical_ids[k] == entry.resource_id {
                    member = true;
                } else {
                    k += 1;
                }
            }
            if member {
                let replace: bool = match best {
                    Option::None => true,
                    Option::Some(b) => {
                        let incumbent = &self.resources[b];
                        let cand_deadline: i128 = (entry.info.last_collected as i128)
                            + (entry.info.collection_interval_seconds as i128);
                        let incumbent_deadline: i128 = (incumbent.info.last_collected as i128)
                            + (incumbent.info.collection_interval_seconds as i128);
                        if cand_deadline < incumbent_deadline {
                            true
                        } else if cand_deadline == incumbent_deadline {
                            id_lt(&entry.resource_id, &incumbent.resource_id)
                        } else {
                            false
                        }
                    },
                };
                if replace {
                    best = Some(i);
                }
            } else {
                proof {
                    assert(!spec_id_in(self.resources@[i as int], critical_ids@));
                }
            }
            i += 1;
        }
        proof {
            assert(self.resources@.take(n as int) =~= self.resources@);
        }
        match best {
            Option::None => None,
            Option::Some(b) => Some(self.resources[b].resource_id.clone()),
        }
    }
}

} // verus!
