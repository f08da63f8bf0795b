use namesilo_dyndns::config::Config;
use namesilo_dyndns::ip::Ipv4;
use namesilo_dyndns::poll::{all_updates_succeeded, CycleDecision, PollState};

#[test]
fn no_consensus_skips_reconciliation() {
    let state = PollState::new();
    assert_eq!(state.decide(&None), CycleDecision::NoConsensus);
}

#[test]
fn suppression_after_full_success() {
    let mut state = PollState::new();
    let ip = Ipv4::new(1, 2, 3, 4);

    // First cycle: nothing confirmed yet, so the new address reconciles.
    assert_eq!(state.decide(&Some(ip)), CycleDecision::Reconcile(ip));
    let results = vec![true, true];
    state.confirm(ip, all_updates_succeeded(&results));

    // Second cycle with the same consensus: suppressed, no registrar calls.
    assert_eq!(state.decide(&Some(ip)), CycleDecision::Unchanged);

    // A different consensus reconciles again.
    let other = Ipv4::new(5, 6, 7, 8);
    assert_eq!(state.decide(&Some(other)), CycleDecision::Reconcile(other));
}

#[test]
fn partial_failure_leaves_state_and_retries() {
    let mut state = PollState::new();
    let ip = Ipv4::new(1, 2, 3, 4);

    assert_eq!(state.decide(&Some(ip)), CycleDecision::Reconcile(ip));
    // Two targeted updates, one fails: the pass is no full success.
    let results = vec![true, false];
    let ok = all_updates_succeeded(&results);
    assert!(!ok);
    state.confirm(ip, ok);

    // The next cycle retries the same address even though consensus did not
    // change.
    assert_eq!(state.decide(&Some(ip)), CycleDecision::Reconcile(ip));
}

#[test]
fn empty_update_set_counts_as_success() {
    let results: Vec<bool> = vec![];
    assert!(all_updates_succeeded(&results));
}

#[test]
fn example_config_values() {
    let config = Config::example_config();
    assert_eq!(config.namesilo_api_key, "12345");
    assert_eq!(config.domain, "example.com");
    assert_eq!(config.poll_duration_s, 900);
    assert_eq!(config.ip_fetchers, vec!["example.com".to_string()]);
}
