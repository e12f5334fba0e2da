//! Alert bookkeeping for the monitoring view: when a reading or a shaky
//! forecast warrants a new alert, acknowledging one, and expiring old ones.

use vstd::prelude::*;

verus! {

/// Utilization at or above this raises a critical alert, in milli-percent.
pub const CRITICAL_UTILIZATION_MILLI: u64 = 90_000;

/// Forecast confidence below this raises a warning, in thousandths.
pub const LOW_CONFIDENCE_MILLI: u64 = 700;

/// Load above this reads as rising, below the lower bound as falling, in
/// milli-percent.
pub const TREND_HIGH_MILLI: u64 = 70_000;

/// Lower bound of the stable band, in milli-percent.
pub const TREND_LOW_MILLI: u64 = 30_000;

/// How one alert matters.
#[derive(Clone, Copy, Debug, PartialEq, Eq, Structural)]
pub enum AlertSeverity {
    Critical,
    Warning,
    Info,
}

/// One raised alert; `timestamp` is Unix seconds.
pub struct Alert {
    pub id: String,
    pub severity: AlertSeverity,
    pub message: String,
    pub resource_id: Option<String>,
    pub timestamp: i64,
    pub acknowledged: bool,
}

/// Whether some alert of this severity already stands for the resource.
pub open spec fn spec_has_alert(s: Seq<Alert>, id: Seq<char>, severity: AlertSeverity) -> bool {
    exists|i: int|
        0 <= i < s.len() && (#[trigger] s[i]).severity == severity && (s[i].resource_id matches Some(
            r,
        ) && r@ == id)
}

/// The alerts still young enough to keep at the cutoff, in order.
pub open spec fn spec_recent_alerts(s: Seq<Alert>, cutoff: i64) -> Seq<Alert>
    decreases s.len(),
{
    if s.len() == 0 {
        Seq::empty()
    } else {
        let rest = spec_recent_alerts(s.drop_last(), cutoff);
        if s.last().timestamp > cutoff {
            rest.push(s.last())
        } else {
            rest
        }
    }
}

/// Index of the first alert with the given alert id, or -1.
pub open spec fn spec_find_alert(s: Seq<Alert>, id: Seq<char>) -> int
    decreases s.len(),
{
    if s.len() == 0 {
        -1
    } else if s[0].id@ == id {
        0
    } else {
        let r = spec_find_alert(s.skip(1), id);
        if r < 0 {
            -1
        } else {
            r + 1
        }
    }
}

pub proof fn lemma_find_alert(s: Seq<Alert>, id: Seq<char>)
    ensures
        spec_find_alert(s, id) >= 0 ==> {
            &&& spec_find_alert(s, id) < s.len()
            &&& s[spec_find_alert(s, id)].id@ == id
            &&& forall|k: int| 0 <= k < spec_find_alert(s, id) ==> (#[trigger] s[k]).id@ != id
        },
        spec_find_alert(s, id) < 0 ==> forall|k: int|
            0 <= k < s.len() ==> (#[trigger] s[k]).id@ != id,
    decreases s.len(),
{
    if s.len() > 0 && s[0].id@ != id {
        lemma_find_alert(s.skip(1), id);
        assert forall|k: int| 1 <= k < s.len() implies s.skip(1)[k - 1] == (#[trigger] s[k]) by {}
    }
}

/// Labels a load level: rising above the high bound, falling below the low
/// one, stable in between.
pub fn determine_trend(value: u64) -> (trend: String)
    ensures
        value > TREND_HIGH_MILLI ==> trend@ == "Increasing"@,
        value < TREND_LOW_MILLI ==> trend@ == "Decreasing"@,
        TREND_LOW_MILLI <= value <= TREND_HIGH_MILLI ==> trend@ == "Stable"@,
{
    if value > TREND_HIGH_MILLI {
        let s: &str = "Increasing";
        s.to_owned()
    } else if value < TREND_LOW_MILLI {
        let s: &str = "Decreasing";
        s.to_owned()
    } else {
        let s: &str = "Stable";
        s.to_owned()
    }
}

/// Whether a new alert of this severity should be raised for the resource:
/// only when none of that severity already stands for it, so one condition
/// never piles up duplicates.
pub fn needs_alert(alerts: &Vec<Alert>, resource_id: &String, severity: AlertSeverity) -> (needed:
    bool)
    ensures
        needed == !spec_has_alert(alerts@, resource_id@, severity),
{
    let n = alerts.len();
    let mut i: usize = 0;
    while i < n
        invariant
            n == alerts@.len(),
            i <= n,
            forall|k: int|
                0 <= k < i ==> !((#[trigger] alerts@[k]).severity == severity && (alerts@[
                k].resource_id matches Some(r) && r@ == resource_id@)),
        decreases n - i,
    {
        let a = &alerts[i];
        if a.severity == severity {
            match &a.resource_id {
                Option::Some(r) => {
                    if *r == *resource_id {
                        proof {
                            assert((alerts@[i as int]).severity == severity && (alerts@[
                            i as int].resource_id matches Some(x) && x@ == resource_id@));
                        }
                        return false;
                    }
                },
                Option::None => {},
            }
        }
        i += 1;
    }
    true
}

/// Drops every alert older than the cutoff; newer ones keep their order.
pub fn prune_alerts(alerts: Vec<Alert>, cutoff: i64) -> (kept: Vec<Alert>)
    ensures
        kept@ == spec_recent_alerts(alerts@, cutoff),
{
    let n = alerts.len();
    let mut kept: Vec<Alert> = Vec::new();
    let mut consumed = alerts;
    let mut i: usize = 0;
    while i < n
        invariant
            n == consumed@.len(),
            i <= n,
            kept@ == spec_recent_alerts(consumed@.take(i as int), cutoff),
        decreases n - i,
    {
        proof {
            assert(consumed@.take(i + 1 as int).drop_last() =~= consumed@.take(i as int));
        }
        let keep = consumed[i].timestamp > cutoff;
        if keep {
            let a = Alert {
                id: consumed[i].id.clone(),
                severity: consumed[i].severity,
                message: consumed[i].message.clone(),
                resource_id: match &consumed[i].resource_id {
                    Option::None => Option::None,
                    Option::Some(r) => Option::Some(r.clone()),
                },
                timestamp: consumed[i].timestamp,
                acknowledged: consumed[i].acknowledged,
            };
            kept.push(a);
        }
        i += 1;
    }
    proof {
        assert(consumed@.take(n as int) =~= consumed@);
    }
    kept
}

/// Marks the alert with the given id acknowledged; reports whether it was
/// found. Nothing else about the list changes.
pub fn acknowledge_alert(alerts: &mut Vec<Alert>, alert_id: &String) -> (found: bool)
    ensures
        ({
            let j = spec_find_alert(old(alerts)@, alert_id@);
            &&& j < 0 ==> !found && *final(alerts) == *old(alerts)
            &&& j >= 0 ==> {
                &&& found
                &&& final(alerts)@.len() == old(alerts)@.len()
                &&& forall|k: int|
                    0 <= k < old(alerts)@.len() && k != j ==> final(alerts)@[k] == old(
                        alerts,
                    )@[k]
                &&& final(alerts)@[j].id == old(alerts)@[j].id
                &&& final(alerts)@[j].severity == old(alerts)@[j].severity
                &&& final(alerts)@[j].message == old(alerts)@[j].message
                &&& final(alerts)@[j].resource_id == old(alerts)@[j].resource_id
                &&& final(alerts)@[j].timestamp == old(alerts)@[j].timestamp
                &&& final(alerts)@[j].acknowledged
            }
        }),
{
    let n = alerts.len();
    let mut i: usize = 0;
    while i < n
        invariant
            *alerts == *old(alerts),
            n == alerts@.len(),
            i <= n,
            forall|k: int| 0 <= k < i ==> (#[trigger] alerts@[k]).id@ != alert_id@,
        decreases n - i,
    {
        if alerts[i].id == *alert_id {
            proof {
                lemma_find_alert(alerts@, alert_id@);
                assert(spec_find_alert(alerts@, alert_id@) == i);
            }
            let slot = &mut alerts[i];
            slot.acknowledged = true;
            return true;
        }
        i += 1;
    }
    proof {
        lemma_find_alert(alerts@, alert_id@);
    }
    false
}

} // verus!
