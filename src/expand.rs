//! Expansion of address specifications into the single hosts they cover.
use vstd::prelude::*;
use vstd::arithmetic::power2::*;
use vstd::arithmetic::div_mod::*;
use crate::address::{
    Family, RangeError, address_text, format_address, lemma_u128_max_is_pow2, mode_family,
    parse_mode, parse_spec, spec_of_text, v4_addr_text, v4_net_text, v6_addr_text, v6_net_text,
};

verus! {

/// The first address of the block of `2^host_bits` addresses holding `addr`.
pub open spec fn network(addr: int, host_bits: nat) -> int {
    addr - addr % (pow2(host_bits) as int)
}

/// The first addresses of the `/new_len` subnets of the network `addr/len`,
/// in ascending order, for addresses of `width` bits.
pub open spec fn subnet_starts(addr: int, len: nat, width: nat, new_len: nat) -> Seq<int> {
    Seq::new(
        pow2((new_len - len) as nat),
        |i: int| network(addr, (width - len) as nat) + i * pow2((width - new_len) as nat),
    )
}

/// What expanding a specification text into `/new_len` subnets gives.
pub open spec fn expansion(f: Family, s: Seq<char>, new_len: nat) -> Result<Seq<int>, RangeError> {
    match spec_of_text(f, s) {
        None => Err(RangeError::InvalidAddress),
        Some((a, l)) => if new_len < l {
            Err(RangeError::PrefixTooNarrow)
        } else {
            Ok(subnet_starts(a, l, f.width(), new_len))
        },
    }
}

/// The addresses of a vector as integers.
pub open spec fn as_ints(v: Seq<u128>) -> Seq<int> {
    v.map_values(|x: u128| x as int)
}

/// `2^bits - 1`, the mask of the low `bits` bits.
fn low_mask(bits: u8) -> (m: u128)
    requires
        bits <= 128,
    ensures
        m as int == pow2(bits as nat) - 1,
{
    let mut m: u128 = 0;
    let mut k: u8 = 0;
    proof {
        lemma2_to64();
    }
    while k < bits
        invariant
            k <= bits <= 128,
            m as int == pow2(k as nat) - 1,
        decreases bits - k,
    {
        proof {
            lemma_pow2_unfold((k + 1) as nat);
            lemma_u128_max_is_pow2();
            if k + 1 < 128 {
                lemma_pow2_strictly_increases((k + 1) as nat, 128);
            }
        }
        m = m * 2 + 1;
        k = k + 1;
    }
    m
}

/// The first addresses of the `/new_len` subnets of the network `addr/len`.
fn subnets(addr: u128, len: u8, width: u8, new_len: u8) -> (r: Vec<u128>)
    requires
        len <= new_len <= width <= 128,
        (addr as int) < pow2(width as nat),
    ensures
        as_ints(r@) == subnet_starts(addr as int, len as nat, width as nat, new_len as nat),
        forall|i: int| 0 <= i < r@.len() ==> (#[trigger] r@[i] as int) < pow2(width as nat),
{
    let host: u8 = width - len;
    let sub_host: u8 = width - new_len;
    let span = low_mask(host);
    let step_mask = low_mask(sub_host);
    let ghost block = pow2(host as nat) as int;
    let ghost step = pow2(sub_host as nat) as int;
    let ghost count = pow2((new_len - len) as nat) as int;
    proof {
        lemma_pow2_pos(host as nat);
        lemma_pow2_pos(sub_host as nat);
        lemma_pow2_pos((new_len - len) as nat);
        lemma_pow2_adds((new_len - len) as nat, sub_host as nat);
        lemma_pow2_adds(len as nat, host as nat);
        lemma_u128_max_is_pow2();
        if width < 128 {
            lemma_pow2_strictly_increases(width as nat, 128);
        }
        assert(block == count * step);
        assert(pow2(width as nat) == pow2(len as nat) * block);
    }
    let net: u128 = if host == 128 {
        proof {
            lemma_small_mod(addr as nat, block as nat);
        }
        0
    } else {
        proof {
            if host < 128 {
                lemma_pow2_strictly_increases(host as nat, 128);
            }
        }
        let b: u128 = span + 1;
        proof {
            lemma_fundamental_div_mod(addr as int, block);
            lemma_div_pos_is_pos(addr as int, block);
            lemma_mod_pos_bound(addr as int, block);
            let q = addr as int / block;
            assert(q * block <= addr as int) by (nonlinear_arith)
                requires
                    addr as int == block * q + (addr as int) % block,
                    (addr as int) % block >= 0,
            ;
            assert(q < pow2(len as nat)) by (nonlinear_arith)
                requires
                    q * block <= addr as int,
                    (addr as int) < pow2(len as nat) * block,
                    block > 0,
            ;
            assert(q * block <= pow2(len as nat) * block - block) by (nonlinear_arith)
                requires
                    q < pow2(len as nat),
                    block > 0,
            ;
        }
        addr / b * b
    };
    assert(net as int == network(addr as int, host as nat));
    assert(net as int + block <= pow2(width as nat)) by {
        if host != 128 {
            let q = addr as int / block;
            assert(net as int == q * block);
        } else {
            assert(width == 128 && len == 0);
        }
    }
    assert(block - step == (count - 1) * step) by (nonlinear_arith)
        requires
            block == count * step,
    ;
    assert(step <= block) by (nonlinear_arith)
        requires
            block == count * step,
            count >= 1,
            step > 0,
    ;
    let last: u128 = net + (span - step_mask);
    let mut out: Vec<u128> = Vec::new();
    let mut cur: u128 = net;
    let ghost mut k: int = 0;
    loop
        invariant_except_break
            out@.len() == k,
            forall|i: int| 0 <= i < k ==> #[trigger] out@[i] as int == net as int + i * step,
            forall|i: int| 0 <= i < k ==> #[trigger] out@[i] <= last,
        invariant
            cur <= last,
            last as int + step <= pow2(width as nat),
            0 <= k < count,
            step > 0,
            cur as int == net as int + k * step,
            last as int == net as int + (count - 1) * step,
            step_mask as int == step - 1,
        ensures
            out@.len() == count,
            forall|i: int| 0 <= i < count ==> #[trigger] out@[i] as int == net as int + i * step,
            forall|i: int| 0 <= i < count ==> #[trigger] out@[i] <= last,
            last as int + step <= pow2(width as nat),
        decreases last - cur,
    {
        out.push(cur);
        if cur == last {
            assert(k == count - 1) by (nonlinear_arith)
                requires
                    net as int + k * step == net as int + (count - 1) * step,
                    step > 0,
            ;
            break;
        }
        assert(k + 1 < count && (k + 1) * step <= (count - 1) * step) by (nonlinear_arith)
            requires
                k * step != (count - 1) * step,
                0 <= k < count,
                step > 0,
        ;
        assert((k + 1) * step == k * step + step) by (nonlinear_arith);
        cur = cur + step_mask + 1;
        proof {
            k = k + 1;
        }
    }
    assert(as_ints(out@) =~= subnet_starts(addr as int, len as nat, width as nat, new_len as nat));
    out
}

/// Expands a specification text of the family into the first addresses of
/// its `/new_len` subnets; at full width these are all of its hosts.
pub fn expand(f: Family, s: &str, new_len: u8) -> (r: Result<Vec<u128>, RangeError>)
    requires
        new_len as nat <= f.width(),
    ensures
        match r {
            Ok(v) => expansion(f, s@, new_len as nat) == Ok::<Seq<int>, RangeError>(as_ints(v@)),
            Err(e) => expansion(f, s@, new_len as nat) == Err::<Seq<int>, RangeError>(e),
        },
        r matches Ok(v) ==> forall|i: int|
            0 <= i < v@.len() ==> (#[trigger] v@[i] as int) < pow2(f.width()),
{
    match parse_spec(f, s) {
        None => Err(RangeError::InvalidAddress),
        Some((a, l)) => {
            if new_len < l {
                Err(RangeError::PrefixTooNarrow)
            } else {
                Ok(subnets(a, l, f.bits(), new_len))
            }
        },
    }
}

/// Expanding the text of a network at full width gives `2^(width - l)`
/// addresses for a prefix of length `l`, in strictly ascending order, so no
/// address comes twice.
pub proof fn lemma_full_expansion_count_and_order(f: Family, s: Seq<char>)
    requires
        spec_of_text(f, s) matches Some((_, l)) && l <= f.width(),
    ensures
        expansion(f, s, f.width()) matches Ok(v) && v.len() == pow2(
            (f.width() - spec_of_text(f, s)->Some_0.1) as nat,
        ) && forall|i: int, j: int| 0 <= i < j < v.len() ==> v[i] < v[j],
{
    let (a, l) = spec_of_text(f, s)->Some_0;
    let v = subnet_starts(a, l, f.width(), f.width());
    assert(pow2(0) == 1) by {
        lemma2_to64();
    }
    assert forall|i: int, j: int| 0 <= i < j < v.len() implies v[i] < v[j] by {
        assert(i * 1 < j * 1);
    }
}

/// The address that a text denotes when it reads as a bare host and not as
/// a network.
pub open spec fn bare_host_text(f: Family, s: Seq<char>) -> Option<int> {
    match f {
        Family::V4 => if v4_net_text(s) is None {
            match v4_addr_text(s) {
                Some(a) => Some(a as int),
                None => None,
            }
        } else {
            None
        },
        Family::V6 => if v6_net_text(s) is None {
            match v6_addr_text(s) {
                Some(a) => Some(a as int),
                None => None,
            }
        } else {
            None
        },
    }
}

/// A bare host expands at full width to itself alone.
pub proof fn lemma_bare_host_expands_to_itself(f: Family, s: Seq<char>)
    requires
        bare_host_text(f, s) is Some,
    ensures
        expansion(f, s, f.width()) == Ok::<Seq<int>, RangeError>(
            seq![bare_host_text(f, s)->Some_0],
        ),
{
    let a = bare_host_text(f, s)->Some_0;
    assert(pow2(0) == 1) by {
        lemma2_to64();
    }
    assert(a % 1 == 0);
    let v = subnet_starts(a, f.width(), f.width(), f.width());
    assert(v =~= seq![a]);
}

/// Subdividing a network into `/n` subnets succeeds, with `2^(n - l)` of
/// them, exactly when `n` is no shorter than its prefix length `l`, and fails
/// with `PrefixTooNarrow` otherwise.
pub proof fn lemma_subdivision_width(f: Family, s: Seq<char>, n: nat)
    requires
        spec_of_text(f, s) is Some,
    ensures
        expansion(f, s, n) is Ok <==> spec_of_text(f, s)->Some_0.1 <= n,
        expansion(f, s, n) == Err::<Seq<int>, RangeError>(RangeError::PrefixTooNarrow) <==> n
            < spec_of_text(f, s)->Some_0.1,
        expansion(f, s, n) matches Ok(v) ==> v.len() == pow2(
            (n - spec_of_text(f, s)->Some_0.1) as nat,
        ),
{
}

/// The texts of the hosts that one specification line expands to; none for
/// a line that does not expand.
pub open spec fn line_texts(f: Family, s: Seq<char>) -> Seq<Seq<char>> {
    match expansion(f, s, f.width()) {
        Ok(v) => v.map_values(|a: int| address_text(f, a)),
        Err(_) => seq![],
    }
}

/// The texts of the hosts of all specification lines, line after line.
pub open spec fn range_texts(f: Family, specs: Seq<String>) -> Seq<Seq<char>>
    decreases specs.len(),
{
    if specs.len() == 0 {
        seq![]
    } else {
        range_texts(f, specs.drop_last()) + line_texts(f, specs.last()@)
    }
}

/// The positions of the specification lines that do not expand.
pub open spec fn rejected_lines(f: Family, specs: Seq<String>) -> Seq<int>
    decreases specs.len(),
{
    if specs.len() == 0 {
        seq![]
    } else if expansion(f, specs.last()@, f.width()) is Err {
        rejected_lines(f, specs.drop_last()).push(specs.len() - 1)
    } else {
        rejected_lines(f, specs.drop_last())
    }
}

/// The character sequences of a vector of strings.
pub open spec fn texts(v: Seq<String>) -> Seq<Seq<char>> {
    v.map_values(|x: String| x@)
}

/// Expands every specification line under the mode selector into the texts
/// of its hosts, line after line; a line that does not read under the family
/// is skipped and its position reported beside the hosts.
pub fn get_ip_range(mode: &str, specs: &Vec<String>) -> (r: Result<
    (Vec<String>, Vec<usize>),
    RangeError,
>)
    ensures
        mode_family(mode@) is None ==> r == Err::<(Vec<String>, Vec<usize>), RangeError>(
            RangeError::InvalidModeSelector,
        ),
        mode_family(mode@) matches Some(f) ==> r matches Ok((hosts, rejected)) && texts(hosts@)
            == range_texts(f, specs@) && rejected@.map_values(|i: usize| i as int)
            == rejected_lines(f, specs@),
{
    let f = match parse_mode(mode) {
        Ok(f) => f,
        Err(e) => return Err(e),
    };
    let width = f.bits();
    let mut hosts: Vec<String> = Vec::new();
    let mut rejected: Vec<usize> = Vec::new();
    let mut i: usize = 0;
    while i < specs.len()
        invariant
            i <= specs@.len(),
            mode_family(mode@) == Some(f),
            width as nat == f.width(),
            texts(hosts@) == range_texts(f, specs@.subrange(0, i as int)),
            rejected@.map_values(|k: usize| k as int) == rejected_lines(
                f,
                specs@.subrange(0, i as int),
            ),
        decreases specs@.len() - i,
    {
        let ghost before = specs@.subrange(0, i as int);
        let ghost upto = specs@.subrange(0, i + 1);
        assert(upto.drop_last() =~= before);
        assert(upto.last() == specs@[i as int]);
        match expand(f, specs[i].as_str(), width) {
            Ok(v) => {
                let ghost start = hosts@;
                let mut j: usize = 0;
                while j < v.len()
                    invariant
                        j <= v@.len(),
                        forall|k: int| 0 <= k < v@.len() ==> (#[trigger] v@[k] as int) < pow2(f.width()),
                        hosts@.len() == start.len() + j,
                        forall|k: int| 0 <= k < start.len() ==> #[trigger] hosts@[k] == start[k],
                        forall|k: int|
                            0 <= k < j ==> #[trigger] hosts@[start.len() + k]@ == address_text(
                                f,
                                v@[k] as int,
                            ),
                    decreases v@.len() - j,
                {
                    let t = format_address(f, v[j]);
                    hosts.push(t);
                    j = j + 1;
                }
                let ghost lt = line_texts(f, specs@[i as int]@);
                assert(expansion(f, specs@[i as int]@, f.width()) == Ok::<Seq<int>, RangeError>(
                    as_ints(v@),
                ));
                assert(lt.len() == v@.len());
                assert forall|k: int| 0 <= k < v@.len() implies #[trigger] lt[k] == address_text(
                    f,
                    v@[k] as int,
                ) by {
                    assert(as_ints(v@)[k] == v@[k] as int);
                }
                assert forall|m: int| 0 <= m < hosts@.len() implies #[trigger] texts(hosts@)[m]
                    == (texts(start) + lt)[m] by {
                    if m >= start.len() {
                        let k = m - start.len();
                        assert(hosts@[start.len() + k]@ == address_text(f, v@[k] as int));
                    }
                }
                assert(texts(hosts@) =~= texts(start) + lt);
                assert(rejected_lines(f, upto) == rejected_lines(f, before));
            },
            Err(_) => {
                rejected.push(i);
                assert(line_texts(f, specs@[i as int]@) =~= seq![]);
                assert(texts(hosts@) =~= range_texts(f, before) + seq![]);
                assert(rejected@.map_values(|k: usize| k as int) =~= rejected_lines(
                    f,
                    before,
                ).push(i as int));
            },
        }
        i = i + 1;
    }
    assert(specs@.subrange(0, specs@.len() as int) =~= specs@);
    Ok((hosts, rejected))
}

} // verus!
