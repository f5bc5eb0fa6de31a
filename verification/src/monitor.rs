//! The health monitor's bookkeeping: what a round probes, and what each probe's
//! outcome does to the registry. Timers and sockets are the caller's.

use crate::address::UpstreamAddr;
use crate::codec::build_query;
use crate::codec::is_simple_name;
use crate::codec::is_standard_query;
use crate::codec::query_wire;
use crate::codec::RECORD_TYPE_NS;
use crate::registry::lemma_unhealthy_is_skipped;
use crate::registry::RegistryView;
use crate::registry::UpstreamEntry;
use crate::registry::UpstreamRegistry;
use vstd::prelude::*;

verus! {

/// Seconds from the start of one round of probes to the start of the next.
pub const PROBE_PERIOD_SECONDS: u64 = 10;

/// Seconds a probe may wait for its answer.
pub const PROBE_TIMEOUT_SECONDS: u64 = 2;

/// The domain whose name servers a probe asks for.
pub const PROBE_DOMAIN: &'static str = "example.com.";

/// The transaction ID of every probe.
pub const PROBE_ID: u16 = 0;

/// How a probe of one resolver ended.
#[derive(Clone, Copy, Debug, PartialEq, Eq, Structural)]
pub enum ProbeOutcome {
    /// An answer came before the timeout.
    Answered,
    /// No answer came before the timeout.
    TimedOut,
    /// Sending or receiving failed.
    Failed,
}

impl ProbeOutcome {
    /// Whether the outcome shows the resolver healthy: only an answer in time does.
    pub open spec fn shows_healthy(self) -> bool {
        self is Answered
    }

    /// Whether the outcome shows the resolver healthy: only an answer in time does.
    pub fn is_healthy(self) -> (healthy: bool)
        ensures
            healthy == self.shows_healthy(),
    {
        match self {
            ProbeOutcome::Answered => true,
            ProbeOutcome::TimedOut => false,
            ProbeOutcome::Failed => false,
        }
    }
}

/// What one round of the monitor sends: the same query to every configured resolver,
/// each exchange bounded by the timeout.
#[derive(Debug)]
pub struct ProbeRound {
    pub query: Vec<u8>,
    pub targets: Vec<UpstreamAddr>,
    pub timeout_seconds: u64,
}

/// What moves the monitor on.
#[derive(Debug)]
pub enum MonitorEvent {
    /// The period has elapsed: a round is due.
    Tick,
    /// The probe of one resolver has ended.
    Probed { addr: UpstreamAddr, outcome: ProbeOutcome },
}

/// What the monitor asks of its caller.
#[derive(Debug)]
pub enum MonitorAction {
    /// Send the round's probes, and report each one's outcome.
    Probe { round: ProbeRound },
    /// Nothing until the next event.
    Wait,
}

/// The probe domain is a simple name, so a probe query can always be built.
pub proof fn lemma_probe_domain_is_simple()
    ensures
        is_simple_name(PROBE_DOMAIN@),
{
    reveal_strlit("example.com.");
    let name = PROBE_DOMAIN@;
    assert(name.len() == 12);
    assert(name[0] == 'e' && name[1] == 'x' && name[2] == 'a' && name[3] == 'm' && name[4] == 'p'
        && name[5] == 'l' && name[6] == 'e' && name[7] == '.' && name[8] == 'c' && name[9] == 'o'
        && name[10] == 'm' && name[11] == '.');
}

/// The query that probes a resolver: a standard query for the name servers of the probe
/// domain. There always is one.
pub fn probe_query() -> (query: Option<Vec<u8>>)
    ensures
        query matches Some(bytes) && query_wire(PROBE_ID, PROBE_DOMAIN@, RECORD_TYPE_NS) == Some(
            bytes@,
        ) && is_standard_query(bytes@, PROBE_ID),
{
    proof {
        lemma_probe_domain_is_simple();
    }
    build_query(PROBE_ID, PROBE_DOMAIN, RECORD_TYPE_NS)
}

/// Records the outcome of one probe: the resolver is marked healthy if it answered in
/// time and unhealthy if it timed out or the exchange failed.
pub fn record_probe(registry: &mut UpstreamRegistry, addr: UpstreamAddr, outcome: ProbeOutcome)
    requires
        old(registry).wf(),
    ensures
        final(registry).wf(),
        final(registry)@ == old(registry)@.after_set_health(addr, outcome.shows_healthy()),
{
    registry.set_health(addr, outcome.is_healthy());
}

/// Moves the monitor on by one event. A tick starts a round that sends one standard
/// query to every configured resolver, and leaves the registry as it is. A probe's
/// outcome is recorded in the registry and asks for nothing more.
pub fn monitor_step(registry: &mut UpstreamRegistry, event: MonitorEvent) -> (action: MonitorAction)
    requires
        old(registry).wf(),
    ensures
        final(registry).wf(),
        match event {
            MonitorEvent::Tick => {
                &&& final(registry)@ == old(registry)@
                &&& action matches MonitorAction::Probe { round }
                &&& query_wire(PROBE_ID, PROBE_DOMAIN@, RECORD_TYPE_NS) == Some(round.query@)
                &&& is_standard_query(round.query@, PROBE_ID)
                &&& round.targets@ == old(registry)@.table.map_values(
                    |entry: UpstreamEntry| entry.addr,
                )
                &&& round.timeout_seconds == PROBE_TIMEOUT_SECONDS
            },
            MonitorEvent::Probed { addr, outcome } => {
                &&& action is Wait
                &&& final(registry)@ == old(registry)@.after_set_health(
                    addr,
                    outcome.shows_healthy(),
                )
            },
        },
{
    match event {
        MonitorEvent::Tick => {
            match probe_query() {
                Some(query) => MonitorAction::Probe {
                    round: ProbeRound {
                        query,
                        targets: registry.upstreams(),
                        timeout_seconds: PROBE_TIMEOUT_SECONDS,
                    },
                },
                None => MonitorAction::Wait,
            }
        },
        MonitorEvent::Probed { addr, outcome } => {
            record_probe(registry, addr, outcome);
            MonitorAction::Wait
        },
    }
}

/// A round reaches every configured resolver, and nothing else.
pub proof fn lemma_round_covers_registry(registry: RegistryView, addr: UpstreamAddr)
    ensures
        registry.table.map_values(|entry: UpstreamEntry| entry.addr).contains(addr)
            <==> registry.is_configured(addr),
{
    let targets = registry.table.map_values(|entry: UpstreamEntry| entry.addr);
    if targets.contains(addr) {
        let at = choose|at: int| 0 <= at < targets.len() && targets[at] == addr;
        assert(registry.table[at].addr == addr);
    }
    if registry.is_configured(addr) {
        let at = choose|at: int|
            0 <= at < registry.table.len() && #[trigger] registry.table[at].addr == addr;
        assert(targets[at] == addr);
    }
}

/// Once a probe that timed out or failed has been recorded, its resolver is marked
/// unhealthy, and no selection returns it for a country whose group still has a healthy
/// resolver.
pub proof fn lemma_failed_probe_excludes_upstream(
    registry: RegistryView,
    addr: UpstreamAddr,
    outcome: ProbeOutcome,
    country: Seq<char>,
)
    requires
        registry.well_formed(),
        outcome != ProbeOutcome::Answered,
        registry.after_set_health(addr, outcome.shows_healthy()).healthy_of(
            registry.serving(country).upstreams,
        ).len() > 0,
    ensures
        !registry.after_set_health(addr, outcome.shows_healthy()).is_healthy(addr),
        registry.after_set_health(addr, outcome.shows_healthy()).pick(country) != addr,
{
    lemma_unhealthy_is_skipped(registry, addr, country);
}

} // verus!
