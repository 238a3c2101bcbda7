use fastest_hosts::address::{format_address, parse_mode, parse_spec, Family, RangeError};
use fastest_hosts::expand::{expand, get_ip_range};

fn lines(v: &[&str]) -> Vec<String> {
    v.iter().map(|s| s.to_string()).collect()
}

#[test]
fn slash_30_expands_to_four_hosts() {
    let r = get_ip_range("ipv4", &lines(&["192.168.1.0/30"])).unwrap();
    assert_eq!(
        r.0,
        lines(&["192.168.1.0", "192.168.1.1", "192.168.1.2", "192.168.1.3"])
    );
    assert!(r.1.is_empty());
}

#[test]
fn invalid_mode_is_refused() {
    assert_eq!(
        get_ip_range("ipv7", &lines(&["192.168.1.0/30"])),
        Err(RangeError::InvalidModeSelector)
    );
    assert_eq!(parse_mode("ipv7"), Err(RangeError::InvalidModeSelector));
    assert_eq!(parse_mode(""), Err(RangeError::InvalidModeSelector));
    assert_eq!(parse_mode("IPV4"), Err(RangeError::InvalidModeSelector));
}

#[test]
fn valid_modes_are_read() {
    assert_eq!(parse_mode("ipv4"), Ok(Family::V4));
    assert_eq!(parse_mode("ipv6"), Ok(Family::V6));
}

#[test]
fn bare_host_expands_to_itself() {
    assert_eq!(expand(Family::V4, "10.0.0.7", 32), Ok(vec![0x0a00_0007u128]));
    let r = get_ip_range("ipv4", &lines(&["10.0.0.7"])).unwrap();
    assert_eq!(r.0, lines(&["10.0.0.7"]));
    let r = get_ip_range("ipv6", &lines(&["2001:db8::5"])).unwrap();
    assert_eq!(r.0, lines(&["2001:db8::5"]));
}

#[test]
fn prefix_count_is_a_power_of_two_and_ascending() {
    let v = expand(Family::V4, "10.1.2.0/24", 32).unwrap();
    assert_eq!(v.len(), 256);
    assert_eq!(v[0], 0x0a01_0200);
    assert_eq!(v[255], 0x0a01_02ff);
    for w in v.windows(2) {
        assert!(w[0] < w[1]);
    }
    let v = expand(Family::V4, "172.16.0.0/16", 32).unwrap();
    assert_eq!(v.len(), 65536);
    let v = expand(Family::V6, "2001:db8::/120", 128).unwrap();
    assert_eq!(v.len(), 256);
    for w in v.windows(2) {
        assert!(w[0] < w[1]);
    }
}

#[test]
fn host_bits_are_cleared() {
    let r = get_ip_range("ipv4", &lines(&["192.168.1.5/30"])).unwrap();
    assert_eq!(
        r.0,
        lines(&["192.168.1.4", "192.168.1.5", "192.168.1.6", "192.168.1.7"])
    );
}

#[test]
fn full_width_prefix_is_one_host() {
    assert_eq!(expand(Family::V4, "8.8.8.8/32", 32), Ok(vec![0x0808_0808u128]));
}

#[test]
fn ipv6_prefix_texts() {
    let r = get_ip_range("ipv6", &lines(&["2001:db8::/126"])).unwrap();
    assert_eq!(
        r.0,
        lines(&["2001:db8::", "2001:db8::1", "2001:db8::2", "2001:db8::3"])
    );
}

#[test]
fn subdividing_into_wider_subnets_succeeds() {
    let v = expand(Family::V4, "10.0.0.0/8", 24).unwrap();
    assert_eq!(v.len(), 65536);
    assert_eq!(v[0], 0x0a00_0000);
    assert_eq!(v[1], 0x0a00_0100);
    assert_eq!(v[65535], 0x0aff_ff00);
    assert_eq!(expand(Family::V4, "10.0.0.0/8", 8), Ok(vec![0x0a00_0000u128]));
}

#[test]
fn subdividing_into_narrower_prefix_fails() {
    assert_eq!(
        expand(Family::V4, "10.0.0.0/24", 16),
        Err(RangeError::PrefixTooNarrow)
    );
    assert_eq!(
        expand(Family::V4, "10.0.0.1", 31),
        Err(RangeError::PrefixTooNarrow)
    );
}

#[test]
fn unreadable_text_is_invalid_address() {
    assert_eq!(expand(Family::V4, "not-an-ip", 32), Err(RangeError::InvalidAddress));
    assert_eq!(expand(Family::V4, "2001:db8::/126", 32), Err(RangeError::InvalidAddress));
    assert_eq!(expand(Family::V6, "10.0.0.0/24", 128), Err(RangeError::InvalidAddress));
    assert_eq!(expand(Family::V4, "10.0.0.0/33", 32), Err(RangeError::InvalidAddress));
    assert_eq!(expand(Family::V4, "", 32), Err(RangeError::InvalidAddress));
}

#[test]
fn unreadable_lines_are_skipped_and_reported() {
    let r = get_ip_range("ipv4", &lines(&["bogus", "10.0.0.0/31", "", "10.0.0.9"])).unwrap();
    assert_eq!(r.0, lines(&["10.0.0.0", "10.0.0.1", "10.0.0.9"]));
    assert_eq!(r.1, vec![0usize, 2]);
}

#[test]
fn no_lines_give_no_hosts() {
    let r = get_ip_range("ipv6", &Vec::new()).unwrap();
    assert!(r.0.is_empty());
    assert!(r.1.is_empty());
}

#[test]
fn spec_reading_and_formatting() {
    assert_eq!(parse_spec(Family::V4, "1.2.3.4/20"), Some((0x0102_0304u128, 20)));
    assert_eq!(parse_spec(Family::V4, "1.2.3.4"), Some((0x0102_0304u128, 32)));
    assert_eq!(parse_spec(Family::V6, "::1"), Some((1u128, 128)));
    assert_eq!(parse_spec(Family::V6, "::/0"), Some((0u128, 0)));
    assert_eq!(format_address(Family::V4, 0xc0a8_0101), "192.168.1.1");
    assert_eq!(format_address(Family::V6, 1), "::1");
}
