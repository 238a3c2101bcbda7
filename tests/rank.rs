use fastest_hosts::rank::{mean_delay_ms, rank, IpAddress, ProbeResult, RankedEntry, DEFAULT_TOP_N};

const MS: u64 = 1_000_000;

fn host(last: u8, delays: &[u64]) -> ProbeResult {
    ProbeResult {
        address: IpAddress::V4(0x0a00_0000 | last as u32),
        delays: delays.to_vec(),
        attempts: 4,
    }
}

fn entry(last: u8, delay_ms: u128) -> RankedEntry {
    RankedEntry { address: IpAddress::V4(0x0a00_0000 | last as u32), delay_ms }
}

#[test]
fn mean_is_floor_of_arithmetic_mean_in_ms() {
    assert_eq!(mean_delay_ms(&vec![10 * MS, 20 * MS, 30 * MS, 40 * MS]), 25);
    assert_eq!(mean_delay_ms(&vec![1_500_000, 2_500_000, 3_000_000, 4_000_000]), 2);
    assert_eq!(mean_delay_ms(&vec![7 * MS]), 7);
    assert_eq!(mean_delay_ms(&vec![999_999]), 0);
    assert_eq!(mean_delay_ms(&Vec::new()), 0);
    assert_eq!(mean_delay_ms(&vec![u64::MAX, u64::MAX]), (u64::MAX / 1_000_000) as u128);
}

#[test]
fn silent_host_is_absent() {
    let results = vec![
        host(1, &[5 * MS, 5 * MS]),
        host(2, &[]),
        host(3, &[2 * MS, 4 * MS, 3 * MS, 3 * MS]),
    ];
    assert_eq!(rank(&results, DEFAULT_TOP_N), vec![entry(3, 3), entry(1, 5)]);
    assert_eq!(rank(&vec![host(9, &[])], DEFAULT_TOP_N), vec![]);
}

#[test]
fn sub_millisecond_host_is_absent() {
    let results = vec![host(1, &[300_000]), host(2, &[2 * MS])];
    assert_eq!(rank(&results, 10), vec![entry(2, 2)]);
}

#[test]
fn ranking_is_ascending_and_stable() {
    let results = vec![
        host(1, &[9 * MS]),
        host(2, &[3 * MS]),
        host(3, &[7 * MS]),
        host(4, &[3 * MS]),
        host(5, &[1 * MS]),
        host(6, &[3 * MS]),
    ];
    assert_eq!(
        rank(&results, 10),
        vec![entry(5, 1), entry(2, 3), entry(4, 3), entry(6, 3), entry(3, 7), entry(1, 9)]
    );
}

#[test]
fn ranking_keeps_top_n() {
    let results: Vec<ProbeResult> = (1..=20u8).rev().map(|i| host(i, &[i as u64 * MS])).collect();
    let r = rank(&results, DEFAULT_TOP_N);
    assert_eq!(r.len(), 10);
    for (k, e) in r.iter().enumerate() {
        assert_eq!(*e, entry(k as u8 + 1, k as u128 + 1));
    }
    assert_eq!(rank(&results, 0), vec![]);
    assert_eq!(rank(&results, 3), vec![entry(1, 1), entry(2, 2), entry(3, 3)]);
}

#[test]
fn fewer_candidates_than_top_n() {
    let results = vec![host(1, &[4 * MS]), host(2, &[]), host(3, &[2 * MS])];
    assert_eq!(rank(&results, 10), vec![entry(3, 2), entry(1, 4)]);
    assert_eq!(rank(&Vec::new(), 10), vec![]);
}

#[test]
fn silent_host_among_many() {
    let mut results: Vec<ProbeResult> = (1..=50u8).map(|i| host(i, &[i as u64 * MS])).collect();
    results.insert(0, host(200, &[]));
    results.push(host(201, &[]));
    let r = rank(&results, 100);
    assert_eq!(r.len(), 50);
    assert!(r.iter().all(|e| e.address != IpAddress::V4(0x0a00_00c8)));
    assert!(r.iter().all(|e| e.address != IpAddress::V4(0x0a00_00c9)));
}

#[test]
fn ipv6_hosts_rank_too() {
    let results = vec![
        ProbeResult { address: IpAddress::V6(1), delays: vec![8 * MS], attempts: 4 },
        ProbeResult { address: IpAddress::V6(2), delays: vec![6 * MS, 6 * MS], attempts: 4 },
    ];
    assert_eq!(
        rank(&results, 10),
        vec![
            RankedEntry { address: IpAddress::V6(2), delay_ms: 6 },
            RankedEntry { address: IpAddress::V6(1), delay_ms: 8 },
        ]
    );
}
