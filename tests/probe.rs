use fastest_hosts::probe::{ProbeSession, DEFAULT_ATTEMPTS};
use fastest_hosts::rank::{mean_delay_ms, IpAddress};

#[test]
fn session_runs_every_planned_exchange() {
    let mut s = ProbeSession::new(IpAddress::V4(1), DEFAULT_ATTEMPTS);
    let outcomes = [Some(3_000_000u64), None, Some(5_000_000), None];
    let mut seen = Vec::new();
    let mut k = 0;
    while let Some(seq) = s.next_sequence() {
        seen.push(seq);
        s.record(outcomes[k]);
        k += 1;
    }
    assert_eq!(seen, vec![0u16, 1, 2, 3]);
    s.record(Some(1));
    let r = s.finish();
    assert_eq!(r.address, IpAddress::V4(1));
    assert_eq!(r.delays, vec![3_000_000u64, 5_000_000]);
    assert_eq!(r.attempts, 4);
    assert_eq!(mean_delay_ms(&r.delays), 4);
}

#[test]
fn session_with_only_losses_has_no_delays() {
    let mut s = ProbeSession::new(IpAddress::V6(7), 4);
    while s.next_sequence().is_some() {
        s.record(None);
    }
    let r = s.finish();
    assert!(r.delays.is_empty());
    assert_eq!(mean_delay_ms(&r.delays), 0);
}

#[test]
fn session_without_attempts_sends_nothing() {
    let s = ProbeSession::new(IpAddress::V4(2), 0);
    assert_eq!(s.next_sequence(), None);
}
