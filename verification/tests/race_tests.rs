use ipv6_checker::race::DiscoveryRace;
use ipv6_checker::race::DiscoveryResult;
use ipv6_checker::race::ProbeOutcome;
use ipv6_checker::race::RaceEvent;
use ipv6_checker::race::probe_outcome;

#[test]
fn single_success() {
    let mut race = DiscoveryRace::start(1);
    assert!(!race.is_settled());
    race.step(RaceEvent::Outcome(ProbeOutcome::Found("2001:db8::1".to_string())));
    assert!(race.is_settled());
    assert_eq!(race.into_verdict(), DiscoveryResult::Address("2001:db8::1".to_string()));
}

#[test]
fn all_probes_fail() {
    let mut race = DiscoveryRace::start(3);
    race.step(RaceEvent::Outcome(ProbeOutcome::NotFound));
    assert!(!race.is_settled());
    race.step(RaceEvent::Outcome(ProbeOutcome::Failed("timeout".to_string())));
    assert!(!race.is_settled());
    race.step(RaceEvent::Outcome(ProbeOutcome::Failed("connection refused".to_string())));
    // the last report settles the race without any deadline event
    assert!(race.is_settled());
    assert_eq!(race.into_verdict(), DiscoveryResult::NoAddress);
}

#[test]
fn mixed_timing_first_arrival_wins() {
    let mut race = DiscoveryRace::start(2);
    race.step(RaceEvent::Outcome(ProbeOutcome::Found("2001:db8::a".to_string())));
    // settled on the fast probe: the race does not wait for the slow one
    assert!(race.is_settled());
    // the slow probe's later success is discarded
    race.step(RaceEvent::Outcome(ProbeOutcome::Found("2001:db8::b".to_string())));
    assert_eq!(race.into_verdict(), DiscoveryResult::Address("2001:db8::a".to_string()));
}

#[test]
fn deadline_settles_hanging_race() {
    let mut race = DiscoveryRace::start(1);
    assert!(!race.is_settled());
    race.step(RaceEvent::DeadlineElapsed);
    assert!(race.is_settled());
    assert_eq!(race.into_verdict(), DiscoveryResult::NoAddress);
}

#[test]
fn deadline_after_partial_failures() {
    let mut race = DiscoveryRace::start(2);
    race.step(RaceEvent::Outcome(ProbeOutcome::Failed("dns".to_string())));
    assert!(!race.is_settled());
    race.step(RaceEvent::DeadlineElapsed);
    assert_eq!(race.into_verdict(), DiscoveryResult::NoAddress);
}

#[test]
fn empty_configuration_settles_immediately() {
    let race = DiscoveryRace::start(0);
    assert!(race.is_settled());
    assert_eq!(race.into_verdict(), DiscoveryResult::NoAddress);
}

#[test]
fn abandoned_race_counts_as_no_address() {
    let race = DiscoveryRace::start(2);
    assert_eq!(race.into_verdict(), DiscoveryResult::NoAddress);
}

#[test]
fn probe_outcome_found() {
    let fetch = Ok("<p>ip: 2001:db8::42</p>".to_string());
    assert_eq!(probe_outcome(fetch), ProbeOutcome::Found("2001:db8::42".to_string()));
}

#[test]
fn probe_outcome_not_found() {
    let fetch = Ok("<p>no address in this page</p>".to_string());
    assert_eq!(probe_outcome(fetch), ProbeOutcome::NotFound);
}

#[test]
fn probe_outcome_failed() {
    let fetch = Err("request timed out".to_string());
    assert_eq!(probe_outcome(fetch), ProbeOutcome::Failed("request timed out".to_string()));
}
