//! Aggregation of probe results: mean round trip per host, exclusion of
//! hosts without a measured delay, and a stable ascending top-N ranking.
use vstd::prelude::*;

verus! {

/// How many hosts a ranking keeps unless told otherwise.
pub const DEFAULT_TOP_N: usize = 10;

/// Nanoseconds in a millisecond.
pub const NANOS_PER_MILLI: u128 = 1_000_000;

/// A host address: 32 bits for IPv4, 128 bits for IPv6.
#[derive(Clone, Copy, Debug, PartialEq, Eq, Structural)]
pub enum IpAddress {
    V4(u32),
    V6(u128),
}

/// What one host's probe sequence measured: the round trips of its
/// successful exchanges, in nanoseconds, out of `attempts` exchanges.
#[derive(Debug)]
pub struct ProbeResult {
    pub address: IpAddress,
    pub delays: Vec<u64>,
    pub attempts: u16,
}

/// A ranked host and its mean round trip in whole milliseconds.
#[derive(Clone, Copy, Debug, PartialEq, Eq, Structural)]
pub struct RankedEntry {
    pub address: IpAddress,
    pub delay_ms: u128,
}

/// The sum of a sequence of delays.
pub open spec fn total(d: Seq<u64>) -> int
    decreases d.len(),
{
    if d.len() == 0 {
        0
    } else {
        total(d.drop_last()) + d.last()
    }
}

/// The arithmetic mean of the delays in nanoseconds, rounded down to whole
/// milliseconds; zero where there is no delay.
pub open spec fn mean_ms(d: Seq<u64>) -> int {
    if d.len() == 0 {
        0
    } else {
        total(d) / (d.len() * NANOS_PER_MILLI)
    }
}

/// The hosts that take part in the ranking, in the order of the results:
/// those whose mean delay is not zero, each with that mean.
pub open spec fn candidates(rs: Seq<ProbeResult>) -> Seq<RankedEntry>
    decreases rs.len(),
{
    if rs.len() == 0 {
        seq![]
    } else {
        let m = mean_ms(rs.last().delays@);
        if m > 0 {
            candidates(rs.drop_last()).push(
                RankedEntry { address: rs.last().address, delay_ms: m as u128 },
            )
        } else {
            candidates(rs.drop_last())
        }
    }
}

/// Whether candidate `x` comes before candidate `y`: by smaller delay, and
/// between equal delays by earlier position.
pub open spec fn precedes(c: Seq<RankedEntry>, x: int, y: int) -> bool {
    c[x].delay_ms < c[y].delay_ms || (c[x].delay_ms == c[y].delay_ms && x < y)
}

/// Whether `perm` holds the position `k`.
pub open spec fn lists(perm: Seq<int>, k: int) -> bool {
    exists|a: int| 0 <= a < perm.len() && #[trigger] perm[a] == k
}

/// `perm` lists every position of `c` once, ordered by `precedes`: the
/// stable ascending order of `c`.
pub open spec fn is_stable_order(c: Seq<RankedEntry>, perm: Seq<int>) -> bool {
    &&& perm.len() == c.len()
    &&& forall|a: int| 0 <= a < perm.len() ==> 0 <= #[trigger] perm[a] < c.len()
    &&& forall|k: int| 0 <= k < c.len() ==> #[trigger] lists(perm, k)
    &&& forall|a: int, b: int| 0 <= a < b < perm.len() ==> precedes(c, #[trigger] perm[a], #[trigger] perm[b])
}

/// A host without a successful probe has no part in the ranking: the
/// candidates, and so what `rank` returns, are the same with or without it.
pub proof fn lemma_silent_host_excluded(rs: Seq<ProbeResult>, k: int)
    requires
        0 <= k < rs.len(),
        rs[k].delays@.len() == 0,
    ensures
        candidates(rs) == candidates(rs.remove(k)),
    decreases rs.len(),
{
    if k == rs.len() - 1 {
        assert(rs.remove(k) =~= rs.drop_last());
    } else {
        assert(rs.remove(k).drop_last() =~= rs.drop_last().remove(k));
        assert(rs.remove(k).last() == rs.last());
        lemma_silent_host_excluded(rs.drop_last(), k);
    }
}

/// Sum of the delays bounded by the count of delays.
proof fn lemma_total_bound(d: Seq<u64>)
    ensures
        0 <= total(d) <= d.len() * u64::MAX,
    decreases d.len(),
{
    if d.len() > 0 {
        lemma_total_bound(d.drop_last());
    }
}

/// The mean round trip of the delays, in whole milliseconds rounded down.
pub fn mean_delay_ms(delays: &Vec<u64>) -> (r: u128)
    ensures
        r as int == mean_ms(delays@),
{
    let n = delays.len();
    if n == 0 {
        return 0;
    }
    let mut sum: u128 = 0;
    let mut i: usize = 0;
    while i < n
        invariant
            n == delays@.len(),
            i <= n,
            sum as int == total(delays@.subrange(0, i as int)),
            sum as int <= i * u64::MAX,
        decreases n - i,
    {
        assert(delays@.subrange(0, i + 1).drop_last() =~= delays@.subrange(0, i as int));
        assert((i + 1) * u64::MAX <= u128::MAX) by (nonlinear_arith)
            requires
                i < n,
                n <= usize::MAX,
        ;
        assert(sum as int + delays@[i as int] <= (i + 1) * u64::MAX) by (nonlinear_arith)
            requires
                sum as int <= i * u64::MAX,
                delays@[i as int] <= u64::MAX,
        ;
        sum = sum + delays[i] as u128;
        i = i + 1;
    }
    assert(delays@.subrange(0, n as int) =~= delays@);
    sum / (n as u128 * NANOS_PER_MILLI)
}

/// Ranks the hosts: the candidates (hosts with a non-zero mean delay) in
/// stable ascending order of delay, cut to the first `top_n`.
pub fn rank(results: &Vec<ProbeResult>, top_n: usize) -> (r: Vec<RankedEntry>)
    ensures
        r@.len() == if top_n < candidates(results@).len() {
            top_n as int
        } else {
            candidates(results@).len() as int
        },
        forall|i: int, j: int| 0 <= i < j < r@.len() ==> r@[i].delay_ms <= r@[j].delay_ms,
        forall|i: int| 0 <= i < r@.len() ==> r@[i].delay_ms > 0,
        exists|perm: Seq<int>|
            is_stable_order(candidates(results@), perm) && forall|i: int|
                0 <= i < r@.len() ==> #[trigger] r@[i] == candidates(results@)[perm[i]],
{
    let c = candidate_entries(results);
    let ghost cs = c@;
    let mut sorted: Vec<RankedEntry> = Vec::new();
    let ghost mut perm: Seq<int> = seq![];
    let mut j: usize = 0;
    while j < c.len()
        invariant
            cs == c@,
            j <= cs.len(),
            forall|k: int| 0 <= k < cs.len() ==> cs[k].delay_ms > 0,
            sorted@.len() == j,
            perm.len() == j,
            forall|a: int| 0 <= a < j ==> 0 <= #[trigger] perm[a] < j,
            forall|k: int| 0 <= k < j ==> #[trigger] lists(perm, k),
            forall|a: int, b: int| 0 <= a < b < j ==> precedes(cs, #[trigger] perm[a], #[trigger] perm[b]),
            forall|a: int| 0 <= a < j ==> #[trigger] sorted@[a] == cs[perm[a]],
            forall|a: int, b: int| 0 <= a < b < j ==> sorted@[a].delay_ms <= sorted@[b].delay_ms,
        decreases cs.len() - j,
    {
        let e = c[j];
        let mut p: usize = 0;
        while p < sorted.len() && sorted[p].delay_ms <= e.delay_ms
            invariant
                p <= sorted@.len(),
                forall|a: int| 0 <= a < p ==> sorted@[a].delay_ms <= e.delay_ms,
            decreases sorted@.len() - p,
        {
            p = p + 1;
        }
        assert(forall|a: int| p <= a < sorted@.len() ==> sorted@[a].delay_ms > e.delay_ms) by {
            assert forall|a: int| p <= a < sorted@.len() implies sorted@[a].delay_ms
                > e.delay_ms by {
                assert(sorted@[p as int].delay_ms <= sorted@[a].delay_ms || a == p);
            }
        }
        let ghost old_perm = perm;
        let ghost old_sorted = sorted@;
        sorted.insert(p, e);
        proof {
            perm = perm.insert(p as int, j as int);
            assert forall|k: int| 0 <= k <= j implies #[trigger] lists(perm, k) by {
                if k == j {
                    assert(perm[p as int] == k);
                } else {
                    assert(lists(old_perm, k));
                    let a = choose|a: int| 0 <= a < old_perm.len() && #[trigger] old_perm[a] == k;
                    if a < p {
                        assert(perm[a] == k);
                    } else {
                        assert(perm[a + 1] == k);
                    }
                }
            }
            assert forall|a: int, b: int| 0 <= a < b <= j implies precedes(
                cs,
                #[trigger] perm[a],
                #[trigger] perm[b],
            ) by {
                if b < p {
                    assert(perm[a] == old_perm[a] && perm[b] == old_perm[b]);
                } else if b == p {
                    assert(perm[a] == old_perm[a]);
                    assert(old_sorted[a] == cs[old_perm[a]]);
                } else if a < p {
                    assert(perm[a] == old_perm[a] && perm[b] == old_perm[b - 1]);
                } else if a == p {
                    assert(perm[b] == old_perm[b - 1]);
                    assert(old_sorted[b - 1] == cs[old_perm[b - 1]]);
                } else {
                    assert(perm[a] == old_perm[a - 1] && perm[b] == old_perm[b - 1]);
                }
            }
            assert forall|a: int| 0 <= a <= j implies #[trigger] sorted@[a] == cs[perm[a]] by {
                if a < p {
                    assert(sorted@[a] == old_sorted[a]);
                } else if a > p {
                    assert(sorted@[a] == old_sorted[a - 1]);
                }
            }
        }
        j = j + 1;
    }
    sorted.truncate(top_n);
    assert(is_stable_order(cs, perm));
    sorted
}

/// The candidate entries of the results, in their order.
fn candidate_entries(results: &Vec<ProbeResult>) -> (c: Vec<RankedEntry>)
    ensures
        c@ == candidates(results@),
        forall|k: int| 0 <= k < c@.len() ==> c@[k].delay_ms > 0,
{
    let mut c: Vec<RankedEntry> = Vec::new();
    let mut i: usize = 0;
    while i < results.len()
        invariant
            i <= results@.len(),
            c@ == candidates(results@.subrange(0, i as int)),
            forall|k: int| 0 <= k < c@.len() ==> c@[k].delay_ms > 0,
        decreases results@.len() - i,
    {
        assert(results@.subrange(0, i + 1).drop_last() =~= results@.subrange(0, i as int));
        let m = mean_delay_ms(&results[i].delays);
        if m > 0 {
            c.push(RankedEntry { address: results[i].address, delay_ms: m });
        }
        i = i + 1;
    }
    assert(results@.subrange(0, results@.len() as int) =~= results@);
    c
}

} // verus!
