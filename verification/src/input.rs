//! The options of a scan: how they are written, held and merged.
use crate::text::{
    chars_of, decimal, decimal_text, find_char, lemma_split_is_not_empty, parse_u16, read_u16,
    split, trim, trim_bounds,
};
use crate::top_ports::{top_1000, top_ports};
use std::path::PathBuf;
use vstd::prelude::*;

verus! {

/// The lowest port that can be scanned.
pub const LOWEST_PORT_NUMBER: u16 = 1;

/// The highest port that can be scanned.
pub const TOP_PORT_NUMBER: u16 = 65535;


/// The order in which the ports of a scan are visited.
///   - `Serial` visits them as they were given, a range from its start to its end.
///   - `Random` visits each of them once, in an order chosen at random.
#[derive(Debug, Clone, Copy, PartialEq, Eq, Structural)]
pub enum ScanOrder {
    Serial,
    Random,
}

/// Which scripts run against the services that a scan finds.
///   - `Disabled` runs no script: only the open ports are reported.
///   - `Default` runs the script that ships with the scanner.
///   - `Custom` runs the scripts that the user configured.
#[derive(Debug, Clone, Copy, PartialEq, Eq, Structural)]
pub enum ScriptsRequired {
    Disabled,
    Default,
    Custom,
}

/// An inclusive range of ports, from `start` to `end`.
#[derive(Debug, Clone, Copy, PartialEq, Eq, Structural)]
pub struct PortRange {
    pub start: u16,
    pub end: u16,
}

impl PortRange {
    /// Whether `port` lies in the range.
    pub open spec fn contains(self, port: u16) -> bool {
        self.start <= port <= self.end
    }

    /// The range runs forwards: it holds at least its start.
    pub open spec fn is_ordered(self) -> bool {
        self.start <= self.end
    }
}

/// A list of ports.
pub type Ports = Vec<u16>;

/// The ports from `start` to `end`, both included, in ascending order; none
/// where `start` is above `end`.
pub open spec fn span(start: u16, end: u16) -> Seq<u16> {
    if start <= end {
        Seq::new((end - start + 1) as nat, |i: int| (start + i) as u16)
    } else {
        Seq::empty()
    }
}

/// Each port is below the one that follows it.
pub open spec fn ascending(ports: Seq<u16>) -> bool {
    forall|i: int, j: int| 0 <= i < j < ports.len() ==> ports[i] < ports[j]
}

/// The two lists name the same ports, however often and in whatever order.
pub open spec fn same_ports(a: Seq<u16>, b: Seq<u16>) -> bool {
    forall|p: u16| a.contains(p) <==> b.contains(p)
}

/// What is said when a list names no port at all.
pub open spec fn no_ports_message() -> Seq<char> {
    "No valid ports or ranges provided"@
}

/// What is said of a part that is no number.
pub open spec fn invalid_port_message(part: Seq<char>) -> Seq<char> {
    "Invalid port number '"@ + part + "'"@
}

/// What is said of a port below the lowest.
pub open spec fn port_bounds_message(port: u16) -> Seq<char> {
    "Port "@ + decimal(port as nat) + " must be between "@ + decimal(LOWEST_PORT_NUMBER as nat)
        + " and "@ + decimal(TOP_PORT_NUMBER as nat)
}

/// What is said of a range that is not two pieces around one dash.
pub open spec fn range_format_message(range: Seq<char>) -> Seq<char> {
    "Invalid range format '"@ + range + "'. Expected 'start-end'. Example: 1-1000."@
}

/// What is said of a range whose first piece is no number.
pub open spec fn range_start_message(piece: Seq<char>, range: Seq<char>) -> Seq<char> {
    "Invalid start port '"@ + piece + "' in range '"@ + range + "'"@
}

/// What is said of a range whose second piece is no number.
pub open spec fn range_end_message(piece: Seq<char>, range: Seq<char>) -> Seq<char> {
    "Invalid end port '"@ + piece + "' in range '"@ + range + "'"@
}

/// What is said of a range that runs backwards.
pub open spec fn range_order_message(start: u16, end: u16, range: Seq<char>) -> Seq<char> {
    "Start port "@ + decimal(start as nat) + " is greater than end port "@ + decimal(end as nat)
        + " in range '"@ + range + "'"@
}

/// What is said of a range that starts below the lowest port.
pub open spec fn range_bounds_message(range: Seq<char>) -> Seq<char> {
    "Ports in range '"@ + range + "' must be between "@ + decimal(LOWEST_PORT_NUMBER as nat)
        + " and "@ + decimal(TOP_PORT_NUMBER as nat)
}

/// The port that `part` writes: a number from 1 to 65535.
pub open spec fn single_port(part: Seq<char>) -> Result<u16, Seq<char>> {
    match parse_u16(part) {
        None => Err(invalid_port_message(part)),
        Some(port) => if port < LOWEST_PORT_NUMBER {
            Err(port_bounds_message(port))
        } else {
            Ok(port)
        },
    }
}

/// The bounds of the range that `part` writes: two numbers around one dash,
/// the first at least 1 and no larger than the second.
pub open spec fn range_bounds(part: Seq<char>) -> Result<(u16, u16), Seq<char>> {
    let pieces = split(part, '-');
    if pieces.len() != 2 {
        Err(range_format_message(part))
    } else {
        match parse_u16(pieces[0]) {
            None => Err(range_start_message(pieces[0], part)),
            Some(start) => match parse_u16(pieces[1]) {
                None => Err(range_end_message(pieces[1], part)),
                Some(end) => if start > end {
                    Err(range_order_message(start, end, part))
                } else if start < LOWEST_PORT_NUMBER {
                    Err(range_bounds_message(part))
                } else {
                    Ok((start, end))
                },
            },
        }
    }
}

/// The ports of the range that `part` writes, in ascending order.
pub open spec fn port_range(part: Seq<char>) -> Result<Seq<u16>, Seq<char>> {
    match range_bounds(part) {
        Ok((start, end)) => Ok(span(start, end)),
        Err(message) => Err(message),
    }
}

/// The ports that one part of a list names: a range where it holds a dash,
/// else a single port.
pub open spec fn part_ports(part: Seq<char>) -> Result<Seq<u16>, Seq<char>> {
    if part.contains('-') {
        port_range(part)
    } else {
        match single_port(part) {
            Ok(port) => Ok(seq![port]),
            Err(message) => Err(message),
        }
    }
}

/// `first`, then what `then` gives; the error of `then` where it is one.
pub open spec fn followed_by(first: Seq<u16>, then: Result<Seq<u16>, Seq<char>>) -> Result<
    Seq<u16>,
    Seq<char>,
> {
    match then {
        Ok(rest) => Ok(first + rest),
        Err(message) => Err(message),
    }
}

/// The ports that the parts name, part after part, each part trimmed and
/// the empty ones passed over; the error of the first part that has one.
pub open spec fn listed_ports(parts: Seq<Seq<char>>) -> Result<Seq<u16>, Seq<char>>
    decreases parts.len(),
{
    if parts.len() == 0 {
        Ok(Seq::empty())
    } else {
        let part = trim(parts[0]);
        if part.len() == 0 {
            listed_ports(parts.drop_first())
        } else {
            match part_ports(part) {
                Ok(ports) => followed_by(ports, listed_ports(parts.drop_first())),
                Err(message) => Err(message),
            }
        }
    }
}

/// The ports that a list names, as written: its parts stand between commas.
/// A list that names no port is an error.
pub open spec fn port_list(input: Seq<char>) -> Result<Seq<u16>, Seq<char>> {
    match listed_ports(split(input, ',')) {
        Ok(ports) => if ports.len() == 0 {
            Err(no_ports_message())
        } else {
            Ok(ports)
        },
        Err(message) => Err(message),
    }
}

/// A strictly ascending list is settled by the ports it names: two such
/// lists that name the same ports are one list.
pub proof fn lemma_ascending_is_unique(a: Seq<u16>, b: Seq<u16>)
    requires
        ascending(a),
        ascending(b),
        same_ports(a, b),
    ensures
        a == b,
    decreases a.len(),
{
    if a.len() == 0 {
        if b.len() > 0 {
            assert(b.contains(b[0]));
            assert(a.contains(b[0]));
        }
        assert(a =~= b);
    } else if b.len() == 0 {
        assert(a.contains(a[0]));
        assert(b.contains(a[0]));
    } else {
        // the last of each is the largest port named
        let x = a.last();
        let y = b.last();
        assert(a.contains(x));
        assert(b.contains(y));
        let i = choose|i: int| 0 <= i < b.len() && b[i] == x;
        let j = choose|j: int| 0 <= j < a.len() && a[j] == y;
        assert(x == y);
        let a0 = a.drop_last();
        let b0 = b.drop_last();
        assert forall|p: u16| a0.contains(p) <==> b0.contains(p) by {
            if a0.contains(p) {
                let k = choose|k: int| 0 <= k < a0.len() && a0[k] == p;
                assert(a[k] == p);
                assert(a.contains(p));
                let m = choose|m: int| 0 <= m < b.len() && b[m] == p;
                assert(p < x);
                assert(m < b.len() - 1);
                assert(b0[m] == p);
            }
            if b0.contains(p) {
                let k = choose|k: int| 0 <= k < b0.len() && b0[k] == p;
                assert(b[k] == p);
                assert(b.contains(p));
                let m = choose|m: int| 0 <= m < a.len() && a[m] == p;
                assert(p < y);
                assert(m < a.len() - 1);
                assert(a0[m] == p);
            }
        }
        lemma_ascending_is_unique(a0, b0);
        assert(a =~= a0.push(x));
        assert(b =~= b0.push(y));
    }
}

/// A span stands in ascending order and holds the ports from its start to
/// its end, no others.
pub proof fn lemma_span(start: u16, end: u16)
    ensures
        ascending(span(start, end)),
        span(start, end).no_duplicates(),
        forall|p: u16| span(start, end).contains(p) <==> start <= p <= end,
{
    let s = span(start, end);
    assert forall|p: u16| s.contains(p) <==> start <= p <= end by {
        if start <= p <= end {
            assert(s[p - start] == p);
        }
    }
}

/// The ports from `start` to `end`, both included, in ascending order.
pub fn port_span(start: u16, end: u16) -> (r: Vec<u16>)
    ensures
        r@ == span(start, end),
{
    let mut ports: Vec<u16> = Vec::new();
    if start > end {
        return ports;
    }
    let mut port: u16 = start;
    while port < end
        invariant
            start <= port <= end,
            ports.len() == port - start,
            forall|i: int| 0 <= i < ports.len() ==> ports[i] == start + i,
        decreases end - port,
    {
        ports.push(port);
        port = port + 1;
    }
    ports.push(end);
    assert(ports@ =~= span(start, end));
    ports
}

/// The ports that `ports` names, each once, in ascending order.
pub fn sorted_distinct(ports: &Vec<u16>) -> (r: Vec<u16>)
    ensures
        ascending(r@),
        same_ports(r@, ports@),
{
    let mut named: Vec<bool> = vec![false; 65536];
    let mut i: usize = 0;
    while i < ports.len()
        invariant
            i <= ports.len(),
            named.len() == 65536,
            forall|p: u16| #[trigger] named[p as int] <==> ports@.take(i as int).contains(p),
        decreases ports.len() - i,
    {
        let port = ports[i];
        let ghost before = named@;
        named.set(port as usize, true);
        proof {
            let seen = ports@.take(i as int);
            let next = ports@.take(i + 1);
            assert(next =~= seen.push(port));
            assert forall|p: u16| #[trigger] named[p as int] <==> next.contains(p) by {
                if p == port {
                    assert(next[i as int] == p);
                } else {
                    assert(named[p as int] == before[p as int]);
                    if seen.contains(p) {
                        let k = choose|k: int| 0 <= k < seen.len() && seen[k] == p;
                        assert(next[k] == p);
                    }
                    if next.contains(p) {
                        let k = choose|k: int| 0 <= k < next.len() && next[k] == p;
                        assert(k < i);
                        assert(seen[k] == p);
                    }
                }
            }
        }
        i = i + 1;
    }
    assert(ports@.take(i as int) == ports@);
    let mut r: Vec<u16> = Vec::new();
    let mut p: usize = 0;
    while p < 65536
        invariant
            p <= 65536,
            named.len() == 65536,
            forall|q: u16| #[trigger] named[q as int] <==> ports@.contains(q),
            ascending(r@),
            forall|k: int| 0 <= k < r.len() ==> r[k] < p,
            forall|q: u16| r@.contains(q) <==> (q < p && #[trigger] named[q as int]),
        decreases 65536 - p,
    {
        if named[p] {
            let ghost before = r@;
            r.push(p as u16);
            proof {
                assert forall|q: u16| r@.contains(q) <==> (q < p + 1 && #[trigger] named[q as int]) by {
                    if r@.contains(q) {
                        let k = choose|k: int| 0 <= k < r.len() && r[k] == q;
                        if k < before.len() {
                            assert(before[k] == q);
                            assert(before.contains(q));
                        }
                    }
                    if q < p + 1 && named[q as int] {
                        if q < p {
                            assert(before.contains(q));
                            let k = choose|k: int| 0 <= k < before.len() && before[k] == q;
                            assert(r[k] == q);
                        } else {
                            assert(r[r.len() - 1] == q);
                        }
                    }
                }
            }
        }
        p = p + 1;
    }
    assert forall|q: u16| r@.contains(q) <==> ports@.contains(q) by {
        assert(named[q as int] <==> ports@.contains(q));
    }
    r
}

/// Reads a list of ports and ranges such as `80,443,8000-8100`.
///
/// The parts stand between commas; white space around a part does not
/// count, and empty parts are passed over. A part with a dash is a range,
/// any other a single port. The result names each port once, in ascending
/// order. The first part that cannot be read gives the error, and so does a
/// list that names no port.
pub fn parse_ports_and_ranges(input: &str) -> (r: Result<Ports, String>)
    ensures
        match port_list(input@) {
            Ok(ports) => r matches Ok(list) && ascending(list@) && same_ports(list@, ports),
            Err(message) => r matches Err(said) && said@ == message,
        },
{
    let chars = chars_of(input);
    let n = chars.len();
    let ghost whole = listed_ports(split(input@, ','));
    let mut ports: Vec<u16> = Vec::new();
    let mut pos: usize = 0;
    let mut more = true;
    assert(chars@.skip(0) == input@);
    assert(followed_by(ports@, whole) == whole) by {
        if whole is Ok {
            assert(ports@ + whole->Ok_0 =~= whole->Ok_0);
        }
    }
    while more
        invariant
            chars@ == input@,
            n == chars.len(),
            pos <= n,
            whole == listed_ports(split(input@, ',')),
            more ==> whole == followed_by(ports@, listed_ports(split(chars@.skip(pos as int), ','))),
            !more ==> whole == Ok::<Seq<u16>, Seq<char>>(ports@),
        decreases n - pos + (if more { 1int } else { 0int }),
    {
        let ghost rest = chars@.skip(pos as int);
        let ghost before = ports@;
        let comma = find_char(&chars, pos, n, ',');
        let (a, b) = trim_bounds(&chars, pos, comma);
        proof {
            assert(rest == chars@.subrange(pos as int, n as int));
            assert(rest.take(comma - pos) == chars@.subrange(pos as int, comma as int));
            if comma < n {
                assert(rest.skip(comma - pos + 1) == chars@.skip(comma + 1));
                assert((seq![rest.take(comma - pos)] + split(rest.skip(comma - pos + 1), ','))
                    .drop_first() == split(rest.skip(comma - pos + 1), ','));
            } else {
                assert(seq![rest].drop_first() == Seq::<Seq<char>>::empty());
                assert(rest.take(comma - pos) == rest);
            }
        }
        let ghost part = chars@.subrange(a as int, b as int);
        let ghost tail = listed_ports(split(rest, ',').drop_first());
        assert(split(rest, ',')[0] == chars@.subrange(pos as int, comma as int));
        assert(part == trim(split(rest, ',')[0]));
        if a < b {
            let text = input.substring_char(a, b);
            let dash = find_char(&chars, a, b, '-');
            proof {
                if dash < b {
                    assert(part[dash - a] == '-');
                    assert(part.contains('-'));
                } else {
                    assert forall|k: int| 0 <= k < part.len() implies part[k] != '-' by {
                        assert(part[k] == chars@[a + k]);
                    }
                    assert(!part.contains('-'));
                }
            }
            if dash < b {
                match parse_port_range(text) {
                    Ok(mut found) => {
                        let ghost named = found@;
                        ports.append(&mut found);
                        proof {
                            if tail is Ok {
                                assert(before + (named + tail->Ok_0) =~= (before + named)
                                    + tail->Ok_0);
                            }
                        }
                    },
                    Err(said) => {
                        return Err(said);
                    },
                }
            } else {
                match parse_single_port(text) {
                    Ok(port) => {
                        ports.push(port);
                        proof {
                            if tail is Ok {
                                assert(before + (seq![port] + tail->Ok_0) =~= before.push(port)
                                    + tail->Ok_0);
                            }
                        }
                    },
                    Err(said) => {
                        return Err(said);
                    },
                }
            }
        }
        if comma < n {
            pos = comma + 1;
        } else {
            more = false;
            proof {
                assert(tail == Ok::<Seq<u16>, Seq<char>>(Seq::empty()));
                assert(ports@ + Seq::<u16>::empty() =~= ports@);
            }
        }
    }
    if ports.len() == 0 {
        return Err(String::from_str("No valid ports or ranges provided"));
    }
    Ok(sorted_distinct(&ports))
}

/// Reads one range of ports, `start-end`, and lists its ports in ascending
/// order.
pub fn parse_port_range(range_str: &str) -> (r: Result<Vec<u16>, String>)
    ensures
        match port_range(range_str@) {
            Ok(ports) => r matches Ok(list) && list@ == ports,
            Err(message) => r matches Err(said) && said@ == message,
        },
{
    let chars = chars_of(range_str);
    let n = chars.len();
    assert(chars@.subrange(0, n as int) == range_str@);
    let dash = find_char(&chars, 0, n, '-');
    if dash == n {
        assert(split(range_str@, '-') =~= seq![range_str@]);
        let mut said = String::from_str("Invalid range format '");
        said.append(range_str);
        said.append("'. Expected 'start-end'. Example: 1-1000.");
        return Err(said);
    }
    let ghost rest = chars@.skip(dash + 1);
    assert(rest == chars@.subrange(dash + 1, n as int));
    let second = find_char(&chars, dash + 1, n, '-');
    assert(split(range_str@, '-') =~= seq![chars@.take(dash as int)] + split(rest, '-'));
    if second < n {
        proof {
            lemma_split_is_not_empty(rest.skip(second - dash), '-');
            assert(split(rest, '-') =~= seq![rest.take(second - dash - 1)] + split(
                rest.skip(second - dash),
                '-',
            ));
        }
        let mut said = String::from_str("Invalid range format '");
        said.append(range_str);
        said.append("'. Expected 'start-end'. Example: 1-1000.");
        return Err(said);
    }
    let ghost pieces = split(range_str@, '-');
    assert(split(rest, '-') =~= seq![rest]);
    assert(pieces =~= seq![chars@.take(dash as int), rest]);
    assert(pieces[0] == chars@.subrange(0, dash as int));
    let start = match read_u16(&chars, 0, dash) {
        Some(start) => start,
        None => {
            let mut said = String::from_str("Invalid start port '");
            said.append(range_str.substring_char(0, dash));
            said.append("' in range '");
            said.append(range_str);
            said.append("'");
            return Err(said);
        },
    };
    let end = match read_u16(&chars, dash + 1, n) {
        Some(end) => end,
        None => {
            let mut said = String::from_str("Invalid end port '");
            said.append(range_str.substring_char(dash + 1, n));
            said.append("' in range '");
            said.append(range_str);
            said.append("'");
            return Err(said);
        },
    };
    if start > end {
        let mut said = String::from_str("Start port ");
        said.append(decimal_text(start).as_str());
        said.append(" is greater than end port ");
        said.append(decimal_text(end).as_str());
        said.append(" in range '");
        said.append(range_str);
        said.append("'");
        return Err(said);
    }
    if start < LOWEST_PORT_NUMBER {
        let mut said = String::from_str("Ports in range '");
        said.append(range_str);
        said.append("' must be between ");
        said.append(decimal_text(LOWEST_PORT_NUMBER).as_str());
        said.append(" and ");
        said.append(decimal_text(TOP_PORT_NUMBER).as_str());
        return Err(said);
    }
    Ok(port_span(start, end))
}

/// Reads one port: a number from 1 to 65535.
pub fn parse_single_port(port_str: &str) -> (r: Result<u16, String>)
    ensures
        match single_port(port_str@) {
            Ok(port) => r == Ok::<u16, String>(port),
            Err(message) => r matches Err(said) && said@ == message,
        },
{
    let chars = chars_of(port_str);
    assert(chars@.subrange(0, chars.len() as int) == port_str@);
    match read_u16(&chars, 0, chars.len()) {
        None => {
            let mut said = String::from_str("Invalid port number '");
            said.append(port_str);
            said.append("'");
            Err(said)
        },
        Some(port) => {
            if port < LOWEST_PORT_NUMBER {
                let mut said = String::from_str("Port ");
                said.append(decimal_text(port).as_str());
                said.append(" must be between ");
                said.append(decimal_text(LOWEST_PORT_NUMBER).as_str());
                said.append(" and ");
                said.append(decimal_text(TOP_PORT_NUMBER).as_str());
                Err(said)
            } else {
                Ok(port)
            }
        },
    }
}

/// Makes `std::path::PathBuf` known as a type whose values are carried
/// along unread.
#[verifier::external_type_specification]
#[verifier::external_body]
pub struct ExPathBuf(PathBuf);

/// The options of a scan, as the command line gives them.
#[derive(Debug, Clone)]
pub struct Opts {
    /// The targets: CIDRs, IPs, host names, or files that list such.
    pub addresses: Vec<String>,
    /// The ports to scan.
    pub ports: Option<Ports>,
    /// Whether the configuration file is left unread.
    pub no_config: bool,
    /// Whether the banner stays hidden.
    pub no_banner: bool,
    /// Where the configuration file is, if not in its usual place.
    pub config_path: Option<PathBuf>,
    /// Greppable mode: only the ports are printed.
    pub greppable: bool,
    /// Accessible mode: nothing is printed that troubles a screen reader.
    pub accessible: bool,
    /// DNS resolvers: a list separated by commas, or a file that lists them.
    pub resolver: Option<String>,
    /// How many probes may be under way at a time.
    pub batch_size: u16,
    /// The milliseconds after which a port counts as closed.
    pub timeout: u32,
    /// The attempts after which a port counts as closed; 0 counts as 1.
    pub tries: u8,
    /// The limit of open files to ask the system for.
    pub ulimit: Option<u64>,
    /// The order in which the ports are visited.
    pub scan_order: ScanOrder,
    /// Which scripts run on what the scan finds.
    pub scripts: ScriptsRequired,
    /// Whether the thousand most common ports are scanned.
    pub top: bool,
    /// The arguments handed on to the scripts.
    pub command: Vec<String>,
    /// The ports that are left out of the scan.
    pub exclude_ports: Option<Vec<u16>>,
    /// The targets that are left out of the scan.
    pub exclude_addresses: Option<Vec<String>>,
    /// Whether UDP is probed in place of TCP.
    pub udp: bool,
}

/// The options of a scan, as the configuration file gives them: each may be
/// missing.
#[derive(Debug)]
pub struct Config {
    pub addresses: Option<Vec<String>>,
    pub ports: Option<Vec<u16>>,
    pub greppable: Option<bool>,
    pub accessible: Option<bool>,
    pub batch_size: Option<u16>,
    pub timeout: Option<u32>,
    pub tries: Option<u8>,
    pub ulimit: Option<u64>,
    pub resolver: Option<String>,
    pub scan_order: Option<ScanOrder>,
    pub command: Option<Vec<String>>,
    pub scripts: Option<ScriptsRequired>,
    pub exclude_ports: Option<Vec<u16>>,
    pub exclude_addresses: Option<Vec<String>>,
    pub udp: Option<bool>,
}

/// The value of an option once merged: that of the file where the file
/// gives one, else the one it had.
pub open spec fn merged<T>(had: T, given: Option<T>) -> T {
    match given {
        Some(value) => value,
        None => had,
    }
}

/// The list of an option once merged: that of the file where the file gives
/// one, else the one it had.
pub open spec fn merged_list<T>(had: Seq<T>, given: Option<Vec<T>>) -> Seq<T> {
    match given {
        Some(list) => list@,
        None => had,
    }
}

/// The list of an option that may be missing, once merged: that of the file
/// where the file gives one, else the one it had, if any.
pub open spec fn merged_optional_list<T>(had: Option<Vec<T>>, given: Option<Vec<T>>) -> Option<
    Seq<T>,
> {
    match given {
        Some(list) => Some(list@),
        None => match had {
            Some(list) => Some(list@),
            None => None,
        },
    }
}

/// The text of an option that may be missing.
pub open spec fn text_of(text: Option<String>) -> Option<Seq<char>> {
    match text {
        Some(t) => Some(t@),
        None => None,
    }
}

/// The list of an option that may be missing.
pub open spec fn list_of<T>(list: Option<Vec<T>>) -> Option<Seq<T>> {
    match list {
        Some(l) => Some(l@),
        None => None,
    }
}

impl Opts {
    /// The options that a scan always has are those of `had`, each replaced
    /// by that of the file where the file gives one.
    pub open spec fn has_required_merged(self, had: Opts, config: Config) -> bool {
        &&& self.addresses@ == merged_list(had.addresses@, config.addresses)
        &&& self.greppable == merged(had.greppable, config.greppable)
        &&& self.accessible == merged(had.accessible, config.accessible)
        &&& self.batch_size == merged(had.batch_size, config.batch_size)
        &&& self.timeout == merged(had.timeout, config.timeout)
        &&& self.tries == merged(had.tries, config.tries)
        &&& self.scan_order == merged(had.scan_order, config.scan_order)
        &&& self.scripts == merged(had.scripts, config.scripts)
        &&& self.command@ == merged_list(had.command@, config.command)
        &&& self.udp == merged(had.udp, config.udp)
    }

    /// The options that a scan always has are those of `had`.
    pub open spec fn has_required_of(self, had: Opts) -> bool {
        &&& self.addresses@ == had.addresses@
        &&& self.greppable == had.greppable
        &&& self.accessible == had.accessible
        &&& self.batch_size == had.batch_size
        &&& self.timeout == had.timeout
        &&& self.tries == had.tries
        &&& self.scan_order == had.scan_order
        &&& self.scripts == had.scripts
        &&& self.command@ == had.command@
        &&& self.udp == had.udp
    }

    /// The options that a scan may lack are those of `had`, each replaced by
    /// that of the file where the file gives one. The ports are the
    /// thousand most common ones where `top` asks for them, whatever the
    /// file says.
    pub open spec fn has_optional_merged(self, had: Opts, config: Config) -> bool {
        &&& list_of(self.ports) == if had.top {
            Some(top_1000())
        } else {
            merged_optional_list(had.ports, config.ports)
        }
        &&& text_of(self.resolver) == if config.resolver is Some {
            text_of(config.resolver)
        } else {
            text_of(had.resolver)
        }
        &&& self.ulimit == if config.ulimit is Some {
            config.ulimit
        } else {
            had.ulimit
        }
        &&& list_of(self.exclude_ports) == merged_optional_list(
            had.exclude_ports,
            config.exclude_ports,
        )
        &&& list_of(self.exclude_addresses) == merged_optional_list(
            had.exclude_addresses,
            config.exclude_addresses,
        )
    }

    /// The options that a scan may lack are those of `had`.
    pub open spec fn has_optional_of(self, had: Opts) -> bool {
        &&& list_of(self.ports) == list_of(had.ports)
        &&& text_of(self.resolver) == text_of(had.resolver)
        &&& self.ulimit == had.ulimit
        &&& list_of(self.exclude_ports) == list_of(had.exclude_ports)
        &&& list_of(self.exclude_addresses) == list_of(had.exclude_addresses)
    }

    /// The options that no file can set are those of `had`.
    pub open spec fn has_switches_of(self, had: Opts) -> bool {
        &&& self.no_config == had.no_config
        &&& self.no_banner == had.no_banner
        &&& self.config_path == had.config_path
        &&& self.top == had.top
    }

    /// Completes the options that were read from the command line: where
    /// they name no ports, every port from 1 to 65535 is scanned.
    pub fn read(parsed: Opts) -> (opts: Opts)
        ensures
            list_of(opts.ports) == if parsed.ports is Some {
                list_of(parsed.ports)
            } else {
                Some(span(LOWEST_PORT_NUMBER, TOP_PORT_NUMBER))
            },
            text_of(opts.resolver) == text_of(parsed.resolver),
            opts.ulimit == parsed.ulimit,
            list_of(opts.exclude_ports) == list_of(parsed.exclude_ports),
            list_of(opts.exclude_addresses) == list_of(parsed.exclude_addresses),
            opts.has_required_of(parsed),
            opts.has_switches_of(parsed),
    {
        let mut opts = parsed;
        if opts.ports.is_none() {
            opts.ports = Some(port_span(LOWEST_PORT_NUMBER, TOP_PORT_NUMBER));
        }
        opts
    }

    /// Merges the options of the configuration file into those of the
    /// command line, unless the command line asked to leave the file out.
    pub fn merge(&mut self, config: &Config)
        ensures
            final(self).has_switches_of(*old(self)),
            !old(self).no_config ==> final(self).has_required_merged(*old(self), *config)
                && final(self).has_optional_merged(*old(self), *config),
            old(self).no_config ==> final(self).has_required_of(*old(self)),
            old(self).no_config ==> final(self).has_optional_of(*old(self)),
    {
        if !self.no_config {
            self.merge_required(config);
            self.merge_optional(config);
        }
    }

    /// Merges the options that a scan always has: each takes the value of
    /// the file where the file gives one.
    pub fn merge_required(&mut self, config: &Config)
        ensures
            final(self).has_required_merged(*old(self), *config),
            final(self).has_optional_of(*old(self)),
            final(self).has_switches_of(*old(self)),
    {
        merge_list(&mut self.addresses, &config.addresses);
        merge_value(&mut self.greppable, &config.greppable);
        merge_value(&mut self.accessible, &config.accessible);
        merge_value(&mut self.batch_size, &config.batch_size);
        merge_value(&mut self.timeout, &config.timeout);
        merge_value(&mut self.tries, &config.tries);
        merge_value(&mut self.scan_order, &config.scan_order);
        merge_value(&mut self.scripts, &config.scripts);
        merge_list(&mut self.command, &config.command);
        merge_value(&mut self.udp, &config.udp);
    }

    /// Merges the options that a scan may lack: each takes the value of the
    /// file where the file gives one. The ports are the thousand most
    /// common ones where the command line asked for them.
    pub fn merge_optional(&mut self, config: &Config)
        ensures
            final(self).has_optional_merged(*old(self), *config),
            final(self).has_required_of(*old(self)),
            final(self).has_switches_of(*old(self)),
    {
        // Only use top ports when the user asks for them
        if self.top {
            self.ports = Some(top_ports());
        } else if let Some(ports) = &config.ports {
            self.ports = Some(ports.clone());
        }
        if let Some(resolver) = &config.resolver {
            self.resolver = Some(resolver.clone());
        }
        if config.ulimit.is_some() {
            self.ulimit = config.ulimit;
        }
        if let Some(ports) = &config.exclude_ports {
            self.exclude_ports = Some(ports.clone());
        }
        if let Some(addresses) = &config.exclude_addresses {
            self.exclude_addresses = Some(addresses.clone());
        }
    }
}

/// Gives an option the value of the file, where the file has one.
fn merge_value<T: Copy>(slot: &mut T, given: &Option<T>)
    ensures
        *final(slot) == merged(*old(slot), *given),
{
    if let Some(value) = given {
        *slot = *value;
    }
}

/// Gives an option the list of the file, where the file has one.
fn merge_list(slot: &mut Vec<String>, given: &Option<Vec<String>>)
    ensures
        final(slot)@ == merged_list(old(slot)@, *given),
{
    if let Some(list) = given {
        *slot = list.clone();
    }
}

impl Default for Opts {
    fn default() -> (opts: Self)
        ensures
            opts.addresses@.len() == 0,
            opts.ports is None,
            opts.greppable,
            opts.batch_size == 0,
            opts.timeout == 0,
            opts.tries == 0,
            opts.ulimit is None,
            opts.command@.len() == 0,
            !opts.accessible,
            opts.resolver is None,
            opts.scan_order == ScanOrder::Serial,
            opts.no_config,
            !opts.no_banner,
            !opts.top,
            opts.scripts == ScriptsRequired::Default,
            opts.config_path is None,
            opts.exclude_ports is None,
            opts.exclude_addresses is None,
            !opts.udp,
    {
        Self {
            addresses: vec![],
            ports: None,
            greppable: true,
            batch_size: 0,
            timeout: 0,
            tries: 0,
            ulimit: None,
            command: vec![],
            accessible: false,
            resolver: None,
            scan_order: ScanOrder::Serial,
            no_config: true,
            no_banner: false,
            top: false,
            scripts: ScriptsRequired::Default,
            config_path: None,
            exclude_ports: None,
            exclude_addresses: None,
            udp: false,
        }
    }
}

} // verus!
