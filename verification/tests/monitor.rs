use geodns::address::UpstreamAddr;
use geodns::monitor::monitor_step;
use geodns::monitor::probe_query;
use geodns::monitor::record_probe;
use geodns::monitor::MonitorAction;
use geodns::monitor::MonitorEvent;
use geodns::monitor::ProbeOutcome;
use geodns::monitor::PROBE_DOMAIN;
use geodns::monitor::PROBE_ID;
use geodns::monitor::PROBE_PERIOD_SECONDS;
use geodns::monitor::PROBE_TIMEOUT_SECONDS;
use geodns::registry::UpstreamRegistry;

fn first() -> UpstreamAddr {
    UpstreamAddr::v4(8, 8, 8, 8, 53)
}

fn second() -> UpstreamAddr {
    UpstreamAddr::v4(8, 8, 4, 4, 53)
}

fn fallback() -> UpstreamAddr {
    UpstreamAddr::v4(9, 9, 9, 9, 53)
}

fn registry() -> UpstreamRegistry {
    let mut registry = UpstreamRegistry::new(vec![fallback()]).unwrap();
    registry.add_group("US".to_string(), vec![first(), second()]);
    registry
}

fn expected_probe() -> Vec<u8> {
    let mut bytes = vec![0, 0, 0, 0, 0, 1, 0, 0, 0, 0, 0, 0, 7];
    bytes.extend_from_slice(b"example");
    bytes.push(3);
    bytes.extend_from_slice(b"com");
    bytes.extend_from_slice(&[0, 0, 2, 0, 1]);
    bytes
}

#[test]
fn the_probe_asks_for_the_name_servers_of_the_probe_domain() {
    assert_eq!(probe_query(), Some(expected_probe()));
    assert_eq!(PROBE_DOMAIN, "example.com.");
    assert_eq!(PROBE_ID, 0);
}

#[test]
fn the_probe_is_a_well_formed_query() {
    let probe = probe_query().unwrap();
    let message = geodns::codec::parse(&probe).unwrap();
    assert_eq!(message.id, 0);
    assert_eq!(message.message_type, geodns::codec::MessageType::Query);
    assert_eq!(message.op_code, 0);
}

#[test]
fn the_period_and_the_timeout() {
    assert_eq!(PROBE_PERIOD_SECONDS, 10);
    assert_eq!(PROBE_TIMEOUT_SECONDS, 2);
}

#[test]
fn only_an_answer_in_time_shows_an_upstream_healthy() {
    assert!(ProbeOutcome::Answered.is_healthy());
    assert!(!ProbeOutcome::TimedOut.is_healthy());
    assert!(!ProbeOutcome::Failed.is_healthy());
}

#[test]
fn a_tick_probes_every_upstream_once() {
    let mut registry = registry();
    match monitor_step(&mut registry, MonitorEvent::Tick) {
        MonitorAction::Probe { round } => {
            assert_eq!(round.targets, vec![fallback(), first(), second()]);
            assert_eq!(round.query, expected_probe());
            assert_eq!(round.timeout_seconds, 2);
        }
        MonitorAction::Wait => panic!("a tick starts a round"),
    }
    assert!(registry.is_healthy(first()));
    assert_eq!(registry.select("US"), first());
}

#[test]
fn a_timed_out_probe_marks_the_upstream_unhealthy() {
    let mut registry = registry();
    let action = monitor_step(&mut registry, MonitorEvent::Probed { addr: first(), outcome: ProbeOutcome::TimedOut });
    assert!(matches!(action, MonitorAction::Wait));
    assert!(!registry.is_healthy(first()));
    assert!(registry.is_healthy(second()));
    assert_eq!(registry.select("US"), second());
    assert_eq!(registry.select("US"), second());
}

#[test]
fn a_failed_probe_marks_the_upstream_unhealthy() {
    let mut registry = registry();
    record_probe(&mut registry, second(), ProbeOutcome::Failed);
    assert!(!registry.is_healthy(second()));
    assert_eq!(registry.select("US"), first());
    assert_eq!(registry.select("US"), first());
}

#[test]
fn an_answered_probe_marks_the_upstream_healthy_again() {
    let mut registry = registry();
    record_probe(&mut registry, first(), ProbeOutcome::TimedOut);
    record_probe(&mut registry, first(), ProbeOutcome::Answered);
    assert!(registry.is_healthy(first()));
    assert_eq!(registry.select("US"), first());
    assert_eq!(registry.select("US"), second());
}

#[test]
fn a_lone_unhealthy_upstream_is_still_selected() {
    let mut registry = registry();
    record_probe(&mut registry, fallback(), ProbeOutcome::TimedOut);
    assert_eq!(registry.select("FR"), fallback());
}
