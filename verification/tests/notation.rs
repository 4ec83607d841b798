use rustscan::address::notation::{
    find_zero_run, groups_of, hex_text, ipv4_to_text, ipv6_to_text, join_groups,
};
use rustscan::address::{IpAddress, SocketAddress};

// The text of an IPv6 address that stands for no IPv4 address, found by
// trying every run of groups, the longest and earliest first.
fn reference(bits: u128) -> String {
    let groups: Vec<u16> = (0..8).map(|i| (bits >> (112 - 16 * i)) as u16).collect();
    let words: Vec<String> = groups.iter().map(|g| format!("{:x}", g)).collect();
    for len in (2..=8).rev() {
        for start in 0..=(8 - len) {
            if groups[start..start + len].iter().all(|g| *g == 0) {
                return format!("{}::{}", words[..start].join(":"), words[start + len..].join(":"));
            }
        }
    }
    words.join(":")
}

#[test]
fn ipv4_is_written_in_dotted_notation() {
    assert_eq!(ipv4_to_text(0), "0.0.0.0");
    assert_eq!(ipv4_to_text(1), "0.0.0.1");
    assert_eq!(ipv4_to_text(256), "0.0.1.0");
    assert_eq!(ipv4_to_text(0x7f00_0001), "127.0.0.1");
    assert_eq!(ipv4_to_text(0xc0a8_0001), "192.168.0.1");
    assert_eq!(ipv4_to_text(0x0a00_0064), "10.0.0.100");
    assert_eq!(ipv4_to_text(0x0102_0304), "1.2.3.4");
    assert_eq!(ipv4_to_text(u32::MAX), "255.255.255.255");
    assert_eq!(IpAddress::V4(0x0808_0404).to_text(), "8.8.4.4");
    for bits in [0u32, 9, 10, 99, 100, 1000, 0xdead_beef, 0x00ff_ff00, u32::MAX] {
        let [a, b, c, d] = bits.to_be_bytes();
        assert_eq!(ipv4_to_text(bits), format!("{}.{}.{}.{}", a, b, c, d));
    }
}

#[test]
fn ipv6_is_written_with_its_longest_run_of_zeros_left_out() {
    assert_eq!(ipv6_to_text(0), "::");
    assert_eq!(ipv6_to_text(1), "::1");
    assert_eq!(
        ipv6_to_text(u128::MAX),
        "ffff:ffff:ffff:ffff:ffff:ffff:ffff:ffff"
    );
    assert_eq!(ipv6_to_text(0x2001_0db8_0000_0000_0000_0000_0000_0001), "2001:db8::1");
    assert_eq!(ipv6_to_text(0x2001_0db8_0000_0000_0000_0000_0000_0000), "2001:db8::");
    assert_eq!(ipv6_to_text(0x0001_0000_0001_0000_0001_0000_0001_0000), "1:0:1:0:1:0:1:0");
    assert_eq!(ipv6_to_text(0x0000_0001_0000_0001_0000_0001_0000_0001), "0:1:0:1:0:1:0:1");
    // of two runs of one length the first is left out
    assert_eq!(ipv6_to_text(0x0001_0000_0000_0001_0000_0000_0001_0001), "1::1:0:0:1:1");
    // the longer run is left out, wherever it stands
    assert_eq!(ipv6_to_text(0x0001_0000_0000_0001_0000_0000_0000_0001), "1:0:0:1::1");
    assert_eq!(ipv6_to_text(0x0000_0000_0001_0000_0000_0000_0001_0000), "0:0:1::1:0");
    assert_eq!(
        ipv6_to_text(0xfe80_0000_0000_0000_0202_b3ff_fe1e_8329),
        "fe80::202:b3ff:fe1e:8329"
    );
    assert_eq!(ipv6_to_text(0x00a0_0b00_c000_000d_0000_0000_0000_0000), "a0:b00:c000:d::");
    assert_eq!(IpAddress::V6(0x0064_ff9b_0000_0000_0000_0000_0000_0001).to_text(), "64:ff9b::1");
}

#[test]
fn ipv6_that_stands_for_ipv4_shows_the_ipv4_address() {
    assert_eq!(ipv6_to_text(0x0000_0000_0000_0000_0000_ffff_c000_0201), "::ffff:192.0.2.1");
    assert_eq!(ipv6_to_text(0x0000_0000_0000_0000_0000_ffff_0000_0000), "::ffff:0.0.0.0");
    assert_eq!(
        ipv6_to_text(0x0000_0000_0000_0000_0000_ffff_ffff_ffff),
        "::ffff:255.255.255.255"
    );
    // near misses are written by their groups
    assert_eq!(ipv6_to_text(0x0000_0000_0000_0000_0000_0000_c000_0201), "::c000:201");
    assert_eq!(ipv6_to_text(0x0000_0000_0000_0000_0000_fffe_c000_0201), "::fffe:c000:201");
    assert_eq!(ipv6_to_text(0x0000_0000_0000_0000_0001_ffff_c000_0201), "::1:ffff:c000:201");
}

#[test]
fn ipv6_of_every_pattern_of_zero_groups() {
    for pattern in 0u32..256 {
        let mut bits = 0u128;
        for group in 0..8 {
            bits <<= 16;
            if pattern & (1 << group) != 0 {
                bits |= 0x0a0b + group as u128;
            }
        }
        assert_eq!(ipv6_to_text(bits), reference(bits), "{:#034x}", bits);
    }
}

#[test]
fn sockets_are_written_as_an_address_and_a_port() {
    assert_eq!(SocketAddress { ip: IpAddress::V4(0), port: 0 }.to_text(), "0.0.0.0:0");
    assert_eq!(
        SocketAddress { ip: IpAddress::V4(0x7f00_0001), port: 80 }.to_text(),
        "127.0.0.1:80"
    );
    assert_eq!(
        SocketAddress { ip: IpAddress::V4(u32::MAX), port: 65535 }.to_text(),
        "255.255.255.255:65535"
    );
    assert_eq!(SocketAddress { ip: IpAddress::V6(1), port: 9000 }.to_text(), "[::1]:9000");
    assert_eq!(SocketAddress { ip: IpAddress::V6(0), port: 0 }.to_text(), "[::]:0");
    assert_eq!(
        SocketAddress { ip: IpAddress::V6(0x2001_0db8_0000_0000_0000_0000_0000_0001), port: 443 }
            .to_text(),
        "[2001:db8::1]:443"
    );
}

#[test]
fn groups_and_their_zero_runs() {
    let groups = groups_of(0x2001_0db8_0000_0000_0001_0000_0000_0000);
    assert_eq!(groups, vec![0x2001, 0xdb8, 0, 0, 1, 0, 0, 0]);
    assert_eq!(find_zero_run(&groups), (5, 3));
    assert_eq!(find_zero_run(&vec![0, 0, 1, 0, 0, 2, 0, 3]), (0, 2));
    assert_eq!(find_zero_run(&vec![1, 2, 3, 4, 5, 6, 7, 8]), (8, 0));
    assert_eq!(find_zero_run(&vec![1, 0, 3, 4, 5, 6, 7, 8]), (1, 1));
    assert_eq!(find_zero_run(&vec![]), (0, 0));
    assert_eq!(join_groups(&groups, 0, 8), "2001:db8:0:0:1:0:0:0");
    assert_eq!(join_groups(&groups, 1, 2), "db8");
    assert_eq!(join_groups(&groups, 3, 3), "");
    for n in [0u16, 9, 10, 15, 16, 255, 256, 0xabc, 0xffff, 0x1000, 0x0a0b] {
        assert_eq!(hex_text(n), format!("{:x}", n));
    }
}
