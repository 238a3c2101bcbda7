//! Address families, the textual forms of addresses and network prefixes,
//! and the mode selector that picks a family.
use vstd::prelude::*;
use vstd::arithmetic::power2::*;
use vstd::string::StrSliceExecFns;

verus! {

/// The address family under which specifications are read and probed.
#[derive(Clone, Copy, Debug, PartialEq, Eq, Structural)]
pub enum Family {
    V4,
    V6,
}

impl Family {
    /// Number of bits in an address of this family.
    pub open spec fn width(self) -> nat {
        match self {
            Family::V4 => 32,
            Family::V6 => 128,
        }
    }

    /// Number of bits in an address of this family.
    pub fn bits(self) -> (r: u8)
        ensures
            r as nat == self.width(),
    {
        match self {
            Family::V4 => 32,
            Family::V6 => 128,
        }
    }
}

/// Errors of reading address specifications.
#[derive(Clone, Copy, Debug, PartialEq, Eq, Structural)]
pub enum RangeError {
    /// The mode selector names no supported family.
    InvalidModeSelector,
    /// The text is neither an address nor a network prefix of the family.
    InvalidAddress,
    /// The requested subdivision is wider than the network's own prefix.
    PrefixTooNarrow,
}

/// The address and prefix length that `ipnet` reads from an IPv4 network text.
pub uninterp spec fn v4_net_text(s: Seq<char>) -> Option<(u32, u8)>;

/// The address and prefix length that `ipnet` reads from an IPv6 network text.
pub uninterp spec fn v6_net_text(s: Seq<char>) -> Option<(u128, u8)>;

/// The IPv4 address that core's parser reads from a text.
pub uninterp spec fn v4_addr_text(s: Seq<char>) -> Option<u32>;

/// The IPv6 address that core's parser reads from a text.
pub uninterp spec fn v6_addr_text(s: Seq<char>) -> Option<u128>;

/// The conventional text of an IPv4 address.
pub uninterp spec fn v4_text(a: u32) -> Seq<char>;

/// The conventional text of an IPv6 address.
pub uninterp spec fn v6_text(a: u128) -> Seq<char>;

/// Relies on `<ipnet::Ipv4Net as FromStr>::from_str`: the address and the
/// prefix length of `a.b.c.d/n`; the parser admits no prefix over 32.
#[verifier::external_body]
fn parse_v4_net(s: &str) -> (r: Option<(u32, u8)>)
    ensures
        r == v4_net_text(s@),
        r matches Some((_, l)) ==> l <= 32,
{
    s.parse::<ipnet::Ipv4Net>().ok().map(|n| (u32::from(n.addr()), n.prefix_len()))
}

/// Relies on `<ipnet::Ipv6Net as FromStr>::from_str`: the address and the
/// prefix length of an IPv6 network text; the parser admits no prefix over 128.
#[verifier::external_body]
fn parse_v6_net(s: &str) -> (r: Option<(u128, u8)>)
    ensures
        r == v6_net_text(s@),
        r matches Some((_, l)) ==> l <= 128,
{
    s.parse::<ipnet::Ipv6Net>().ok().map(|n| (u128::from(n.addr()), n.prefix_len()))
}

/// Relies on `<core::net::Ipv4Addr as FromStr>::from_str`: reads a bare
/// IPv4 address.
#[verifier::external_body]
fn parse_v4_addr(s: &str) -> (r: Option<u32>)
    ensures
        r == v4_addr_text(s@),
{
    s.parse::<core::net::Ipv4Addr>().ok().map(u32::from)
}

/// Relies on `<core::net::Ipv6Addr as FromStr>::from_str`: reads a bare
/// IPv6 address.
#[verifier::external_body]
fn parse_v6_addr(s: &str) -> (r: Option<u128>)
    ensures
        r == v6_addr_text(s@),
{
    s.parse::<core::net::Ipv6Addr>().ok().map(u128::from)
}

/// Relies on `Display` of `core::net::Ipv4Addr`: dotted-quad text.
#[verifier::external_body]
fn format_v4(a: u32) -> (r: String)
    ensures
        r@ == v4_text(a),
{
    core::net::Ipv4Addr::from(a).to_string()
}

/// Relies on `Display` of `core::net::Ipv6Addr`: the canonical IPv6 text.
#[verifier::external_body]
fn format_v6(a: u128) -> (r: String)
    ensures
        r@ == v6_text(a),
{
    core::net::Ipv6Addr::from(a).to_string()
}

/// What a specification text of the family denotes: the address and the
/// prefix length of a network, a bare host being a network of full width.
pub open spec fn spec_of_text(f: Family, s: Seq<char>) -> Option<(int, nat)> {
    match f {
        Family::V4 => match v4_net_text(s) {
            Some((a, l)) => Some((a as int, l as nat)),
            None => match v4_addr_text(s) {
                Some(a) => Some((a as int, 32nat)),
                None => None,
            },
        },
        Family::V6 => match v6_net_text(s) {
            Some((a, l)) => Some((a as int, l as nat)),
            None => match v6_addr_text(s) {
                Some(a) => Some((a as int, 128nat)),
                None => None,
            },
        },
    }
}

/// The text of an address of the family.
pub open spec fn address_text(f: Family, a: int) -> Seq<char> {
    match f {
        Family::V4 => v4_text(a as u32),
        Family::V6 => v6_text(a as u128),
    }
}

/// Reads a specification text: a network prefix, or else a bare host taken
/// as a network of full width.
pub fn parse_spec(f: Family, s: &str) -> (r: Option<(u128, u8)>)
    ensures
        r matches Some((a, l)) ==> spec_of_text(f, s@) == Some((a as int, l as nat)),
        r is None <==> spec_of_text(f, s@) is None,
        r matches Some((a, l)) ==> l as nat <= f.width() && (a as int) < pow2(f.width()),
{
    proof {
        lemma2_to64();
        lemma_u32_max_is_pow2();
        lemma_u128_max_is_pow2();
    }
    match f {
        Family::V4 => match parse_v4_net(s) {
            Some((a, l)) => Some((a as u128, l)),
            None => match parse_v4_addr(s) {
                Some(a) => Some((a as u128, 32)),
                None => None,
            },
        },
        Family::V6 => match parse_v6_net(s) {
            Some((a, l)) => Some((a, l)),
            None => match parse_v6_addr(s) {
                Some(a) => Some((a, 128)),
                None => None,
            },
        },
    }
}

/// The text of an address of the family.
pub fn format_address(f: Family, a: u128) -> (r: String)
    requires
        (a as int) < pow2(f.width()),
    ensures
        r@ == address_text(f, a as int),
{
    match f {
        Family::V4 => {
            proof {
                lemma_u32_max_is_pow2();
            }
            format_v4(a as u32)
        },
        Family::V6 => format_v6(a),
    }
}

/// 2^32 is one more than the largest `u32`.
pub(crate) proof fn lemma_u32_max_is_pow2()
    ensures
        pow2(32) == u32::MAX + 1,
{
    lemma2_to64();
}

/// 2^128 is one more than the largest `u128`.
pub(crate) proof fn lemma_u128_max_is_pow2()
    ensures
        pow2(128) == u128::MAX + 1,
{
    lemma2_to64();
    lemma_pow2_adds(64, 64);
}

/// Whether two texts hold the same characters.
fn same_text(a: &str, b: &str) -> (r: bool)
    ensures
        r == (a@ == b@),
{
    let n = a.unicode_len();
    if n != b.unicode_len() {
        return false;
    }
    let mut i: usize = 0;
    while i < n
        invariant
            n == a@.len(),
            n == b@.len(),
            i <= n,
            a@.subrange(0, i as int) == b@.subrange(0, i as int),
        decreases n - i,
    {
        if a.get_char(i) != b.get_char(i) {
            assert(a@[i as int] != b@[i as int]);
            return false;
        }
        assert(a@.subrange(0, i + 1) == a@.subrange(0, i as int).push(a@[i as int]));
        assert(b@.subrange(0, i + 1) == b@.subrange(0, i as int).push(b@[i as int]));
        i = i + 1;
    }
    assert(a@ == a@.subrange(0, n as int));
    assert(b@ == b@.subrange(0, n as int));
    true
}

/// The family that a mode selector names, if any.
pub open spec fn mode_family(m: Seq<char>) -> Option<Family> {
    if m == "ipv4"@ {
        Some(Family::V4)
    } else if m == "ipv6"@ {
        Some(Family::V6)
    } else {
        None
    }
}

/// Reads the mode selector: `ipv4` or `ipv6`, any other text being refused.
pub fn parse_mode(mode: &str) -> (r: Result<Family, RangeError>)
    ensures
        mode_family(mode@) matches Some(f) ==> r == Ok::<Family, RangeError>(f),
        mode_family(mode@) is None ==> r == Err::<Family, RangeError>(
            RangeError::InvalidModeSelector,
        ),
{
    if same_text(mode, "ipv4") {
        Ok(Family::V4)
    } else if same_text(mode, "ipv6") {
        proof {
            reveal_strlit("ipv4");
            reveal_strlit("ipv6");
            assert("ipv4"@[3] != "ipv6"@[3]);
        }
        Ok(Family::V6)
    } else {
        Err(RangeError::InvalidModeSelector)
    }
}

} // verus!
