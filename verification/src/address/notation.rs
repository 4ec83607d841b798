//! How addresses are written: the dotted notation of IPv4, the groups of
//! IPv6 with their longest run of zeros left out, and sockets as an address
//! and a port.
use crate::address::{IpAddress, SocketAddress};
use crate::text::{decimal, decimal_text, escape, free_of, lemma_decimal_has_no_escape};
use vstd::prelude::*;

verus! {

/// The character that writes the hexadecimal digit `d`, in lower case.
pub open spec fn hex_char(d: nat) -> char {
    if d == 0 {
        '0'
    } else if d == 1 {
        '1'
    } else if d == 2 {
        '2'
    } else if d == 3 {
        '3'
    } else if d == 4 {
        '4'
    } else if d == 5 {
        '5'
    } else if d == 6 {
        '6'
    } else if d == 7 {
        '7'
    } else if d == 8 {
        '8'
    } else if d == 9 {
        '9'
    } else if d == 10 {
        'a'
    } else if d == 11 {
        'b'
    } else if d == 12 {
        'c'
    } else if d == 13 {
        'd'
    } else if d == 14 {
        'e'
    } else {
        'f'
    }
}

/// `n` written in base sixteen, in lower case and without leading zeros.
pub open spec fn hex(n: nat) -> Seq<char>
    decreases n,
{
    if n < 16 {
        seq![hex_char(n)]
    } else {
        hex(n / 16).push(hex_char(n % 16))
    }
}

/// Byte `i` of an IPv4 address, counted from the most significant one.
pub open spec fn octet(bits: u32, i: int) -> nat {
    if i == 0 {
        (bits / 0x100_0000) as nat
    } else if i == 1 {
        (bits / 0x1_0000 % 256) as nat
    } else if i == 2 {
        (bits / 0x100 % 256) as nat
    } else {
        (bits % 256) as nat
    }
}

/// An IPv4 address in dotted notation: its four bytes in base ten.
pub open spec fn ipv4_text(bits: u32) -> Seq<char> {
    decimal(octet(bits, 0)) + "."@ + decimal(octet(bits, 1)) + "."@ + decimal(octet(bits, 2))
        + "."@ + decimal(octet(bits, 3))
}

/// What a number is divided by to bring group `i` of an IPv6 address down
/// to its lowest sixteen bits.
pub open spec fn group_divisor(i: int) -> int {
    if i == 0 {
        0x1_0000_0000_0000_0000_0000_0000_0000
    } else if i == 1 {
        0x1_0000_0000_0000_0000_0000_0000
    } else if i == 2 {
        0x1_0000_0000_0000_0000_0000
    } else if i == 3 {
        0x1_0000_0000_0000_0000
    } else if i == 4 {
        0x1_0000_0000_0000
    } else if i == 5 {
        0x1_0000_0000
    } else if i == 6 {
        0x1_0000
    } else {
        1
    }
}

/// Group `i` of an IPv6 address: sixteen bits, counted from the most
/// significant group.
pub open spec fn group(bits: u128, i: int) -> u16 {
    (bits as int / group_divisor(i) % 65536) as u16
}

/// The eight groups of an IPv6 address.
pub open spec fn groups(bits: u128) -> Seq<u16> {
    Seq::new(8, |i: int| group(bits, i))
}

/// How many groups in a row are zero, from group `from` on.
pub open spec fn zero_run(groups: Seq<u16>, from: int) -> nat
    decreases groups.len() - from,
{
    if 0 <= from < groups.len() && groups[from] == 0 {
        1 + zero_run(groups, from + 1)
    } else {
        0
    }
}

/// The first of the longest runs of zero groups at or after group `from`:
/// where it starts and how long it is. Without a zero group the run is
/// empty and starts behind the last group.
pub open spec fn longest_zero_run(groups: Seq<u16>, from: int) -> (int, nat)
    decreases groups.len() - from,
{
    if 0 <= from < groups.len() {
        let later = longest_zero_run(groups, from + 1);
        if zero_run(groups, from) > 0 && zero_run(groups, from) >= later.1 {
            (from, zero_run(groups, from))
        } else {
            later
        }
    } else {
        (groups.len() as int, 0)
    }
}

/// Groups in base sixteen with a colon between one and the next.
pub open spec fn joined(groups: Seq<u16>) -> Seq<char>
    decreases groups.len(),
{
    if groups.len() == 0 {
        Seq::empty()
    } else if groups.len() == 1 {
        hex(groups[0] as nat)
    } else {
        joined(groups.drop_last()) + ":"@ + hex(groups.last() as nat)
    }
}

/// Whether an IPv6 address stands for an IPv4 address: its first five
/// groups are zero and the sixth is `ffff`.
pub open spec fn is_v4_mapped(bits: u128) -> bool {
    bits / 0x1_0000_0000 == 0xffff
}

/// An IPv6 address as it is written: an address that stands for an IPv4
/// address as `::ffff:` and that address; any other by its groups, with the
/// first of its longest runs of zero groups written as `::` where the run
/// has more than one group.
pub open spec fn ipv6_text(bits: u128) -> Seq<char> {
    if is_v4_mapped(bits) {
        "::ffff:"@ + ipv4_text((bits % 0x1_0000_0000) as u32)
    } else {
        let all = groups(bits);
        let (start, len) = longest_zero_run(all, 0);
        if len > 1 {
            joined(all.take(start)) + "::"@ + joined(all.skip(start + len))
        } else {
            joined(all)
        }
    }
}

/// An address as it is written.
pub open spec fn ip_text(ip: IpAddress) -> Seq<char> {
    match ip {
        IpAddress::V4(bits) => ipv4_text(bits),
        IpAddress::V6(bits) => ipv6_text(bits),
    }
}

/// A socket as it is written: the address, in brackets if it is an IPv6
/// address, a colon and the port.
pub open spec fn socket_text(socket: SocketAddress) -> Seq<char> {
    match socket.ip {
        IpAddress::V4(bits) => ipv4_text(bits) + ":"@ + decimal(socket.port as nat),
        IpAddress::V6(bits) => "["@ + ipv6_text(bits) + "]:"@ + decimal(socket.port as nat),
    }
}

/// A number in base sixteen holds no escape character.
pub proof fn lemma_hex_has_no_escape(n: nat)
    ensures
        free_of(hex(n), escape()),
    decreases n,
{
    if n >= 16 {
        lemma_hex_has_no_escape(n / 16);
    }
}

/// Groups joined by colons hold no escape character.
pub proof fn lemma_joined_has_no_escape(groups: Seq<u16>)
    ensures
        free_of(joined(groups), escape()),
    decreases groups.len(),
{
    reveal_strlit(":");
    if groups.len() == 1 {
        lemma_hex_has_no_escape(groups[0] as nat);
    } else if groups.len() > 1 {
        lemma_joined_has_no_escape(groups.drop_last());
        lemma_hex_has_no_escape(groups.last() as nat);
    }
}

/// An IPv4 address as it is written holds no escape character.
pub proof fn lemma_ipv4_text_has_no_escape(bits: u32)
    ensures
        free_of(ipv4_text(bits), escape()),
{
    reveal_strlit(".");
    lemma_decimal_has_no_escape(octet(bits, 0));
    lemma_decimal_has_no_escape(octet(bits, 1));
    lemma_decimal_has_no_escape(octet(bits, 2));
    lemma_decimal_has_no_escape(octet(bits, 3));
}

/// An IPv6 address as it is written holds no escape character.
pub proof fn lemma_ipv6_text_has_no_escape(bits: u128)
    ensures
        free_of(ipv6_text(bits), escape()),
{
    reveal_strlit("::ffff:");
    reveal_strlit("::");
    if is_v4_mapped(bits) {
        lemma_ipv4_text_has_no_escape((bits % 0x1_0000_0000) as u32);
    } else {
        let all = groups(bits);
        let (start, len) = longest_zero_run(all, 0);
        lemma_joined_has_no_escape(all);
        lemma_joined_has_no_escape(all.take(start));
        lemma_joined_has_no_escape(all.skip(start + len));
    }
}

/// A socket as it is written holds no escape character: whatever is put
/// around it, its text stands apart from the escape sequences.
pub proof fn lemma_socket_text_has_no_escape(socket: SocketAddress)
    ensures
        free_of(socket_text(socket), escape()),
{
    reveal_strlit(":");
    reveal_strlit("[");
    reveal_strlit("]:");
    lemma_decimal_has_no_escape(socket.port as nat);
    match socket.ip {
        IpAddress::V4(bits) => {
            lemma_ipv4_text_has_no_escape(bits);
        },
        IpAddress::V6(bits) => {
            lemma_ipv6_text_has_no_escape(bits);
        },
    }
}

/// The text of one hexadecimal digit.
fn hex_digit_text(d: u16) -> (r: &'static str)
    requires
        d < 16,
    ensures
        r@ == seq![hex_char(d as nat)],
{
    proof {
        reveal_strlit("0");
        reveal_strlit("1");
        reveal_strlit("2");
        reveal_strlit("3");
        reveal_strlit("4");
        reveal_strlit("5");
        reveal_strlit("6");
        reveal_strlit("7");
        reveal_strlit("8");
        reveal_strlit("9");
        reveal_strlit("a");
        reveal_strlit("b");
        reveal_strlit("c");
        reveal_strlit("d");
        reveal_strlit("e");
        reveal_strlit("f");
    }
    let r = if d == 0 {
        "0"
    } else if d == 1 {
        "1"
    } else if d == 2 {
        "2"
    } else if d == 3 {
        "3"
    } else if d == 4 {
        "4"
    } else if d == 5 {
        "5"
    } else if d == 6 {
        "6"
    } else if d == 7 {
        "7"
    } else if d == 8 {
        "8"
    } else if d == 9 {
        "9"
    } else if d == 10 {
        "a"
    } else if d == 11 {
        "b"
    } else if d == 12 {
        "c"
    } else if d == 13 {
        "d"
    } else if d == 14 {
        "e"
    } else {
        "f"
    };
    assert(r@ =~= seq![hex_char(d as nat)]);
    r
}

/// `n` written in base sixteen.
pub fn hex_text(n: u16) -> (r: String)
    ensures
        r@ == hex(n as nat),
    decreases n,
{
    if n < 16 {
        String::from_str(hex_digit_text(n))
    } else {
        let mut s = hex_text(n / 16);
        s.append(hex_digit_text(n % 16));
        assert(s@ =~= hex(n as nat));
        s
    }
}

/// An IPv4 address in dotted notation.
pub fn ipv4_to_text(bits: u32) -> (r: String)
    ensures
        r@ == ipv4_text(bits),
{
    let mut s = decimal_text((bits / 0x100_0000) as u16);
    s.append(".");
    s.append(decimal_text((bits / 0x1_0000 % 256) as u16).as_str());
    s.append(".");
    s.append(decimal_text((bits / 0x100 % 256) as u16).as_str());
    s.append(".");
    s.append(decimal_text((bits % 256) as u16).as_str());
    s
}

/// The eight groups of an IPv6 address.
pub fn groups_of(bits: u128) -> (r: Vec<u16>)
    ensures
        r@ == groups(bits),
{
    let mut r: Vec<u16> = Vec::new();
    r.push((bits / 0x1_0000_0000_0000_0000_0000_0000_0000 % 65536) as u16);
    r.push((bits / 0x1_0000_0000_0000_0000_0000_0000 % 65536) as u16);
    r.push((bits / 0x1_0000_0000_0000_0000_0000 % 65536) as u16);
    r.push((bits / 0x1_0000_0000_0000_0000 % 65536) as u16);
    r.push((bits / 0x1_0000_0000_0000 % 65536) as u16);
    r.push((bits / 0x1_0000_0000 % 65536) as u16);
    r.push((bits / 0x1_0000 % 65536) as u16);
    r.push((bits % 65536) as u16);
    assert(r@ =~= groups(bits));
    r
}

/// The first of the longest runs of zero groups: where it starts and how
/// long it is.
pub fn find_zero_run(groups: &Vec<u16>) -> (r: (usize, usize))
    ensures
        r.0 == longest_zero_run(groups@, 0).0,
        r.1 == longest_zero_run(groups@, 0).1,
        r.0 + r.1 <= groups.len(),
{
    let n = groups.len();
    let mut from: usize = n;
    let mut run: usize = 0;
    let mut best: (usize, usize) = (n, 0);
    while from > 0
        invariant
            from <= n,
            n == groups.len(),
            run == zero_run(groups@, from as int),
            from + run <= n,
            best.0 == longest_zero_run(groups@, from as int).0,
            best.1 == longest_zero_run(groups@, from as int).1,
            best.0 + best.1 <= n,
        decreases from,
    {
        from = from - 1;
        if groups[from] == 0 {
            run = run + 1;
        } else {
            run = 0;
        }
        if run > 0 && run >= best.1 {
            best = (from, run);
        }
    }
    best
}

/// The groups from place `from` up to place `to`, in base sixteen with a
/// colon between one and the next.
pub fn join_groups(groups: &Vec<u16>, from: usize, to: usize) -> (r: String)
    requires
        from <= to <= groups.len(),
    ensures
        r@ == joined(groups@.subrange(from as int, to as int)),
{
    let mut s = String::new();
    let mut i: usize = from;
    while i < to
        invariant
            from <= i <= to <= groups.len(),
            s@ == joined(groups@.subrange(from as int, i as int)),
        decreases to - i,
    {
        let ghost before = groups@.subrange(from as int, i as int);
        let ghost upto = groups@.subrange(from as int, i + 1);
        proof {
            assert(upto.drop_last() == before);
            assert(upto.last() == groups[i as int]);
        }
        if i > from {
            s.append(":");
        }
        s.append(hex_text(groups[i]).as_str());
        proof {
            if i == from {
                assert(s@ =~= hex(groups[i as int] as nat));
            } else {
                assert(s@ =~= joined(before) + ":"@ + hex(groups[i as int] as nat));
            }
        }
        i = i + 1;
    }
    s
}

/// An IPv6 address as it is written.
pub fn ipv6_to_text(bits: u128) -> (r: String)
    ensures
        r@ == ipv6_text(bits),
{
    if bits / 0x1_0000_0000 == 0xffff {
        let mut s = String::from_str("::ffff:");
        s.append(ipv4_to_text((bits % 0x1_0000_0000) as u32).as_str());
        return s;
    }
    let all = groups_of(bits);
    let (start, len) = find_zero_run(&all);
    if len > 1 {
        let mut s = join_groups(&all, 0, start);
        s.append("::");
        s.append(join_groups(&all, start + len, 8).as_str());
        proof {
            assert(all@.take(start as int) == all@.subrange(0, start as int));
            assert(all@.skip(start + len) == all@.subrange(start + len, 8));
        }
        s
    } else {
        proof {
            assert(all@.subrange(0, 8) == all@);
        }
        join_groups(&all, 0, 8)
    }
}

impl IpAddress {
    /// The address as it is written.
    pub fn to_text(&self) -> (r: String)
        ensures
            r@ == ip_text(*self),
    {
        match self {
            IpAddress::V4(bits) => ipv4_to_text(*bits),
            IpAddress::V6(bits) => ipv6_to_text(*bits),
        }
    }
}

impl SocketAddress {
    /// The socket as it is written.
    pub fn to_text(&self) -> (r: String)
        ensures
            r@ == socket_text(*self),
    {
        match self.ip {
            IpAddress::V4(bits) => {
                let mut s = ipv4_to_text(bits);
                s.append(":");
                s.append(decimal_text(self.port).as_str());
                s
            },
            IpAddress::V6(bits) => {
                let mut s = String::from_str("[");
                s.append(ipv6_to_text(bits).as_str());
                s.append("]:");
                s.append(decimal_text(self.port).as_str());
                s
            },
        }
    }
}

} // verus!
