use crate::probe_data::{
    exceeds, exceeds_limit, falls_short, short_of, HealthStatus, NetworkHealth, DOWNLOAD_FLOOR, JITTER_LIMIT,
    LATENCY_LIMIT, PACKET_LOSS_LIMIT, SIGNAL_FLOOR,
};
use sysinfo::{PidExt, ProcessExt, SystemExt};
use vstd::prelude::*;
use vstd::string::StringExecFns;

verus! {

/// A remediation action that the engine can decide to attempt.
#[derive(Debug, Clone, Copy, PartialEq, Eq, Structural)]
pub enum Remediation {
    SwitchToBackupConnection,
    EnableAggressiveQos,
    RestartNetworkServices,
    AdjustWirelessPower,
    LimitBandwidthHogs,
    EnableJitterBuffering,
    CleanCache,
}

/// The outcome of running one action: success, or the reason it failed.
pub type Outcome = Result<(), String>;

pub open spec fn when(cond: bool, a: Remediation) -> Seq<Remediation> {
    if cond {
        seq![a]
    } else {
        Seq::empty()
    }
}

/// The actions attempted for a health record, in order.
pub open spec fn plan_spec(h: NetworkHealth) -> Seq<Remediation> {
    let a = h.averages;
    match h.status {
        HealthStatus::Critical => when(
            exceeds(a.packet_loss, PACKET_LOSS_LIMIT),
            Remediation::SwitchToBackupConnection,
        ) + when(exceeds(a.latency, LATENCY_LIMIT), Remediation::EnableAggressiveQos) + seq![
            Remediation::RestartNetworkServices,
        ],
        HealthStatus::Poor => when(
            falls_short(a.signal_strength, SIGNAL_FLOOR),
            Remediation::AdjustWirelessPower,
        ) + when(falls_short(a.download_speed, DOWNLOAD_FLOOR), Remediation::LimitBandwidthHogs),
        HealthStatus::Fair => when(exceeds(a.jitter, JITTER_LIMIT), Remediation::EnableJitterBuffering),
        _ => seq![Remediation::CleanCache],
    }
}

/// Decides which actions a health record calls for, in the order they are run.
pub fn plan_optimizations(health: &NetworkHealth) -> (r: Vec<Remediation>)
    ensures
        r@ == plan_spec(*health),
{
    let a = &health.averages;
    let mut plan: Vec<Remediation> = Vec::new();
    match health.status {
        HealthStatus::Critical => {
            if exceeds_limit(a.packet_loss, PACKET_LOSS_LIMIT) {
                plan.push(Remediation::SwitchToBackupConnection);
            }
            if exceeds_limit(a.latency, LATENCY_LIMIT) {
                plan.push(Remediation::EnableAggressiveQos);
            }
            plan.push(Remediation::RestartNetworkServices);
        },
        HealthStatus::Poor => {
            if short_of(a.signal_strength, SIGNAL_FLOOR) {
                plan.push(Remediation::AdjustWirelessPower);
            }
            if short_of(a.download_speed, DOWNLOAD_FLOOR) {
                plan.push(Remediation::LimitBandwidthHogs);
            }
        },
        HealthStatus::Fair => {
            if exceeds_limit(a.jitter, JITTER_LIMIT) {
                plan.push(Remediation::EnableJitterBuffering);
            }
        },
        _ => {
            plan.push(Remediation::CleanCache);
        },
    }
    assert(plan@ =~= plan_spec(*health));
    plan
}

/// What is recorded when the action succeeds.
pub open spec fn success_text(a: Remediation) -> Seq<char> {
    match a {
        Remediation::SwitchToBackupConnection => "Switched to backup connection"@,
        Remediation::EnableAggressiveQos => "Enabled aggressive QoS"@,
        Remediation::RestartNetworkServices => "Restarted network services"@,
        Remediation::AdjustWirelessPower => "Adjusted wireless power"@,
        Remediation::LimitBandwidthHogs => "Limited bandwidth hogs"@,
        Remediation::EnableJitterBuffering => "Enabled jitter buffering"@,
        Remediation::CleanCache => "Cleaned DNS cache"@,
    }
}

/// The action's name, which a failure record starts with.
pub open spec fn action_name(a: Remediation) -> Seq<char> {
    match a {
        Remediation::SwitchToBackupConnection => "Switch to backup connection"@,
        Remediation::EnableAggressiveQos => "Enable aggressive QoS"@,
        Remediation::RestartNetworkServices => "Restart network services"@,
        Remediation::AdjustWirelessPower => "Adjust wireless power"@,
        Remediation::LimitBandwidthHogs => "Limit bandwidth-hogging processes"@,
        Remediation::EnableJitterBuffering => "Enable jitter buffering"@,
        Remediation::CleanCache => "Clean DNS cache"@,
    }
}

/// What is recorded when the action fails: its name, then the reason.
pub open spec fn failure_text(a: Remediation, reason: Seq<char>) -> Seq<char> {
    action_name(a) + ": "@ + reason
}

impl Remediation {
    /// The text recorded when this action succeeds.
    pub fn success_message(&self) -> (r: String)
        ensures
            r@ == success_text(*self),
    {
        match self {
            Remediation::SwitchToBackupConnection => String::from_str("Switched to backup connection"),
            Remediation::EnableAggressiveQos => String::from_str("Enabled aggressive QoS"),
            Remediation::RestartNetworkServices => String::from_str("Restarted network services"),
            Remediation::AdjustWirelessPower => String::from_str("Adjusted wireless power"),
            Remediation::LimitBandwidthHogs => String::from_str("Limited bandwidth hogs"),
            Remediation::EnableJitterBuffering => String::from_str("Enabled jitter buffering"),
            Remediation::CleanCache => String::from_str("Cleaned DNS cache"),
        }
    }

    /// The action's name.
    pub fn name(&self) -> (r: String)
        ensures
            r@ == action_name(*self),
    {
        match self {
            Remediation::SwitchToBackupConnection => String::from_str("Switch to backup connection"),
            Remediation::EnableAggressiveQos => String::from_str("Enable aggressive QoS"),
            Remediation::RestartNetworkServices => String::from_str("Restart network services"),
            Remediation::AdjustWirelessPower => String::from_str("Adjust wireless power"),
            Remediation::LimitBandwidthHogs => String::from_str("Limit bandwidth-hogging processes"),
            Remediation::EnableJitterBuffering => String::from_str("Enable jitter buffering"),
            Remediation::CleanCache => String::from_str("Clean DNS cache"),
        }
    }

    /// The text recorded when this action fails for `reason`.
    pub fn failure_message(&self, reason: &String) -> (r: String)
        ensures
            r@ == failure_text(*self, reason@),
    {
        let mut s = self.name();
        s.append(": ");
        s.append(reason.as_str());
        s
    }
}

/// Records of one cycle: the success texts of the actions that succeeded, in order.
pub open spec fn applied_spec(plan: Seq<Remediation>, outcomes: Seq<Outcome>) -> Seq<Seq<char>>
    decreases plan.len(),
{
    if plan.len() == 0 || outcomes.len() == 0 {
        Seq::empty()
    } else {
        let rest = applied_spec(plan.drop_last(), outcomes.drop_last());
        match outcomes.last() {
            Ok(_) => rest.push(success_text(plan.last())),
            Err(_) => rest,
        }
    }
}

/// Records of one cycle: the failure texts of the actions that failed, in order.
pub open spec fn failed_spec(plan: Seq<Remediation>, outcomes: Seq<Outcome>) -> Seq<Seq<char>>
    decreases plan.len(),
{
    if plan.len() == 0 || outcomes.len() == 0 {
        Seq::empty()
    } else {
        let rest = failed_spec(plan.drop_last(), outcomes.drop_last());
        match outcomes.last() {
            Ok(_) => rest,
            Err(e) => rest.push(failure_text(plan.last(), e@)),
        }
    }
}

pub open spec fn texts(v: Seq<String>) -> Seq<Seq<char>> {
    v.map_values(|s: String| s@)
}

/// Holds the outcome of the most recent evaluation cycle.
pub struct NetworkOptimizer {
    current_optimizations: Vec<String>,
    failed_optimizations: Vec<String>,
}

impl NetworkOptimizer {
    /// Texts of the actions that succeeded in the last cycle.
    pub closed spec fn applied(&self) -> Seq<Seq<char>> {
        texts(self.current_optimizations@)
    }

    /// Texts of the actions that failed in the last cycle.
    pub closed spec fn failed(&self) -> Seq<Seq<char>> {
        texts(self.failed_optimizations@)
    }

    /// An engine that has run no cycle yet.
    pub fn new() -> (r: Self)
        ensures
            r.applied() == Seq::<Seq<char>>::empty(),
            r.failed() == Seq::<Seq<char>>::empty(),
    {
        let r = NetworkOptimizer { current_optimizations: Vec::new(), failed_optimizations: Vec::new() };
        assert(r.applied() =~= Seq::<Seq<char>>::empty());
        assert(r.failed() =~= Seq::<Seq<char>>::empty());
        r
    }

    /// Runs one cycle: forgets the previous one, then records, for each action
    /// that `health` calls for (see `plan_optimizations`), the outcome of
    /// running it, given in `outcomes` in the same order.
    pub fn apply_optimizations(&mut self, health: &NetworkHealth, outcomes: &[Outcome])
        requires
            outcomes@.len() == plan_spec(*health).len(),
        ensures
            final(self).applied() == applied_spec(plan_spec(*health), outcomes@),
            final(self).failed() == failed_spec(plan_spec(*health), outcomes@),
    {
        let plan = plan_optimizations(health);
        self.current_optimizations.clear();
        self.failed_optimizations.clear();
        assert(texts(self.current_optimizations@) =~= Seq::<Seq<char>>::empty());
        assert(texts(self.failed_optimizations@) =~= Seq::<Seq<char>>::empty());
        let mut i: usize = 0;
        while i < plan.len()
            invariant
                i <= plan@.len(),
                plan@ == plan_spec(*health),
                outcomes@.len() == plan@.len(),
                texts(self.current_optimizations@) == applied_spec(
                    plan@.subrange(0, i as int),
                    outcomes@.subrange(0, i as int),
                ),
                texts(self.failed_optimizations@) == failed_spec(
                    plan@.subrange(0, i as int),
                    outcomes@.subrange(0, i as int),
                ),
            decreases plan@.len() - i,
        {
            assert(plan@.subrange(0, i + 1).drop_last() == plan@.subrange(0, i as int));
            assert(outcomes@.subrange(0, i + 1).drop_last() == outcomes@.subrange(0, i as int));
            let action = plan[i];
            match &outcomes[i] {
                Ok(_) => {
                    let text = action.success_message();
                    let ghost before = self.current_optimizations@;
                    self.current_optimizations.push(text);
                    assert(texts(self.current_optimizations@) =~= texts(before).push(text@));
                },
                Err(e) => {
                    let text = action.failure_message(e);
                    let ghost before = self.failed_optimizations@;
                    self.failed_optimizations.push(text);
                    assert(texts(self.failed_optimizations@) =~= texts(before).push(text@));
                },
            }
            i = i + 1;
        }
        assert(plan@.subrange(0, plan@.len() as int) == plan@);
        assert(outcomes@.subrange(0, plan@.len() as int) == outcomes@);
    }

    /// The actions that succeeded in the most recent cycle.
    pub fn get_current_optimizations(&self) -> (r: &Vec<String>)
        ensures
            texts(r@) == self.applied(),
    {
        &self.current_optimizations
    }

    /// The actions that failed in the most recent cycle, with their reasons.
    pub fn get_failed_optimizations(&self) -> (r: &Vec<String>)
        ensures
            texts(r@) == self.failed(),
    {
        &self.failed_optimizations
    }
}

/// A critical cycle always records the restart of network services, as a
/// success or as a failure, whatever the metrics.
pub proof fn lemma_critical_records_restart(h: NetworkHealth, outcomes: Seq<Outcome>)
    requires
        h.status == HealthStatus::Critical,
        outcomes.len() == plan_spec(h).len(),
    ensures
        applied_spec(plan_spec(h), outcomes).contains(success_text(Remediation::RestartNetworkServices))
            || exists|reason: Seq<char>|
            failed_spec(plan_spec(h), outcomes).contains(
                #[trigger] failure_text(Remediation::RestartNetworkServices, reason),
            ),
{
    let plan = plan_spec(h);
    assert(plan.last() == Remediation::RestartNetworkServices);
    match outcomes.last() {
        Ok(_) => {
            let a = applied_spec(plan, outcomes);
            assert(a.last() == success_text(Remediation::RestartNetworkServices));
            assert(a.contains(a[a.len() - 1]));
        },
        Err(e) => {
            let f = failed_spec(plan, outcomes);
            assert(f.last() == failure_text(Remediation::RestartNetworkServices, e@));
            assert(f.contains(f[f.len() - 1]));
        },
    }
}

/// A cycle on a good (or excellent) record keeps nothing of earlier cycles:
/// it records the cache cleaning alone, as a success or as a failure.
pub proof fn lemma_good_cycle_records_only_cache(h: NetworkHealth, outcomes: Seq<Outcome>)
    requires
        h.status == HealthStatus::Good || h.status == HealthStatus::Excellent,
        outcomes.len() == plan_spec(h).len(),
    ensures
        plan_spec(h) == seq![Remediation::CleanCache],
        outcomes[0] is Ok ==> applied_spec(plan_spec(h), outcomes) == seq![
            success_text(Remediation::CleanCache),
        ] && failed_spec(plan_spec(h), outcomes).len() == 0,
        outcomes[0] matches Err(e) ==> applied_spec(plan_spec(h), outcomes).len() == 0
            && failed_spec(plan_spec(h), outcomes) == seq![
            failure_text(Remediation::CleanCache, e@),
        ],
{
    let plan = plan_spec(h);
    assert(plan.drop_last().len() == 0);
    assert(applied_spec(plan.drop_last(), outcomes.drop_last()) == Seq::<Seq<char>>::empty());
    assert(failed_spec(plan.drop_last(), outcomes.drop_last()) == Seq::<Seq<char>>::empty());
    assert(outcomes.last() == outcomes[0]);
    assert(Seq::<Seq<char>>::empty().push(success_text(Remediation::CleanCache)) =~= seq![
        success_text(Remediation::CleanCache),
    ]);
    if let Err(e) = outcomes[0] {
        assert(Seq::<Seq<char>>::empty().push(failure_text(Remediation::CleanCache, e@)) =~= seq![
            failure_text(Remediation::CleanCache, e@),
        ]);
    }
}

/// Disk reads above 100 MB mark a process as a bandwidth hog.
pub const HOG_READ_BYTES: u64 = 100000000;

/// A running process and the bytes it has read from disk in total.
#[derive(Debug, Clone, Copy, PartialEq, Eq, Structural)]
pub struct ProcessUsage {
    pub pid: u32,
    pub read_bytes: u64,
}

/// The ids of the processes of `s` that read more than the hog limit, in order.
pub open spec fn hogs_spec(s: Seq<ProcessUsage>) -> Seq<u32>
    decreases s.len(),
{
    if s.len() == 0 {
        Seq::empty()
    } else {
        let rest = hogs_spec(s.drop_last());
        if s.last().read_bytes > HOG_READ_BYTES {
            rest.push(s.last().pid)
        } else {
            rest
        }
    }
}

/// Picks the processes to deprioritise.
pub fn select_bandwidth_hogs(procs: &[ProcessUsage]) -> (r: Vec<u32>)
    ensures
        r@ == hogs_spec(procs@),
{
    let mut out: Vec<u32> = Vec::new();
    let mut i: usize = 0;
    while i < procs.len()
        invariant
            i <= procs@.len(),
            out@ == hogs_spec(procs@.subrange(0, i as int)),
        decreases procs@.len() - i,
    {
        assert(procs@.subrange(0, i + 1).drop_last() == procs@.subrange(0, i as int));
        if procs[i].read_bytes > HOG_READ_BYTES {
            out.push(procs[i].pid);
        }
        i = i + 1;
    }
    assert(procs@.subrange(0, procs@.len() as int) == procs@);
    out
}

/// Relies on sysinfo's `System::refresh_all` and `System::processes`: a
/// snapshot of the running processes with their total disk reads. What it
/// holds depends on the machine and the moment.
#[verifier::external_body]
fn running_processes() -> (r: Vec<ProcessUsage>) {
    let mut sys = sysinfo::System::new();
    sys.refresh_all();
    sys.processes().iter().map(
        |(pid, p)| ProcessUsage { pid: pid.as_u32(), read_bytes: p.disk_usage().total_read_bytes },
    ).collect()
}

/// The ids of the running processes that read more than the hog limit.
pub fn bandwidth_hogs() -> (r: Vec<u32>)
    ensures
        exists|procs: Seq<ProcessUsage>| r@ == hogs_spec(procs),
{
    let procs = running_processes();
    select_bandwidth_hogs(procs.as_slice())
}

/// The next process to deprioritise, given the hogs and the outcomes of the
/// steps run so far: none once a step has failed or every hog has had its step.
pub open spec fn next_renice_spec(hogs: Seq<u32>, done: Seq<Outcome>) -> Option<u32> {
    if (done.len() > 0 && done.last() is Err) || done.len() >= hogs.len() {
        None
    } else {
        Some(hogs[done.len() as int])
    }
}

/// Deprioritising bandwidth hogs stops at the first failure: this gives the
/// process whose step comes next, if any.
pub fn next_renice(hogs: &[u32], done: &[Outcome]) -> (r: Option<u32>)
    ensures
        r == next_renice_spec(hogs@, done@),
{
    if (done.len() > 0 && done[done.len() - 1].is_err()) || done.len() >= hogs.len() {
        None
    } else {
        Some(hogs[done.len()])
    }
}

/// The index of the first failure in `s`, or `s.len()` where there is none.
pub open spec fn first_err_index(s: Seq<Outcome>) -> int
    decreases s.len(),
{
    if s.len() == 0 {
        0
    } else if s[0] is Err {
        0
    } else {
        1 + first_err_index(s.drop_first())
    }
}

/// Combines the outcomes of the per-process steps of one action, which stop at
/// the first failure: success when every step succeeded, else the first failure.
pub fn first_failure(outcomes: &[Outcome]) -> (r: Outcome)
    ensures
        r is Ok <==> (forall|i: int| 0 <= i < outcomes@.len() ==> #[trigger] outcomes@[i] is Ok),
        r is Err ==> 0 <= first_err_index(outcomes@) < outcomes@.len() && r
            == outcomes@[first_err_index(outcomes@)],
{
    let mut i: usize = 0;
    assert(outcomes@.subrange(0, outcomes@.len() as int) == outcomes@);
    while i < outcomes.len()
        invariant
            i <= outcomes@.len(),
            forall|j: int| 0 <= j < i ==> #[trigger] outcomes@[j] is Ok,
            first_err_index(outcomes@) == i + first_err_index(
                outcomes@.subrange(i as int, outcomes@.len() as int),
            ),
        decreases outcomes@.len() - i,
    {
        let ghost rest = outcomes@.subrange(i as int, outcomes@.len() as int);
        assert(rest[0] == outcomes@[i as int]);
        match &outcomes[i] {
            Ok(_) => {
                assert(rest.drop_first() == outcomes@.subrange(i + 1, outcomes@.len() as int));
            },
            Err(e) => {
                return Err(e.clone());
            },
        }
        i = i + 1;
    }
    Ok(())
}

} // verus!
