//! The targets of a scan: how a token becomes addresses.
//!
//! A token is a CIDR block, a single IP address, the name of a host, or the
//! path of a file that lists such tokens. What can be read in the token
//! itself is read here. What asks for a resolver or a file is decided here
//! and done outside: `next_lookup` says what to try next, given what the
//! last attempt came to.
pub mod notation;

use crate::input::Opts;
use crate::text::{
    filled_lines, split, split_lines, split_text, split_trimmed, texts, trimmed_pieces,
};
use cidr_utils::cidr::IpCidr;
use vstd::prelude::*;

verus! {

/// The port on which a DNS resolver is asked.
pub const DNS_PORT: u16 = 53;

/// How many tokens of the options are resolved at a time.
pub const TOKENS_AT_A_TIME: usize = 10;

/// How many lines of a file of addresses are resolved at a time.
pub const LINES_AT_A_TIME: usize = 4;

/// An IP address, by its numeric value.
#[derive(Debug, Clone, Copy, PartialEq, Eq, PartialOrd, Ord, Hash, Structural)]
pub enum IpAddress {
    /// An IPv4 address: 32 bits.
    V4(u32),
    /// An IPv6 address: 128 bits.
    V6(u128),
}

/// An address and a port on it.
#[derive(Debug, Clone, Copy, PartialEq, Eq, PartialOrd, Ord, Hash, Structural)]
pub struct SocketAddress {
    pub ip: IpAddress,
    pub port: u16,
}

/// The address of the given family with the given numeric value.
pub open spec fn ip_of(v6: bool, value: int) -> IpAddress {
    if v6 {
        IpAddress::V6(value as u128)
    } else {
        IpAddress::V4(value as u32)
    }
}

/// Whether the numbers from `first` to `last` are a run of addresses of the
/// given family.
pub open spec fn is_block(v6: bool, first: u128, last: u128) -> bool {
    first <= last && (v6 || last <= u32::MAX)
}

/// What `cidr::IpCidr::from_str` reads in a token: nothing, or a network,
/// given as its family (whether it is IPv6), its first address and its last
/// address, both by their numeric value.
pub uninterp spec fn cidr_bounds(token: Seq<char>) -> Option<(bool, u128, u128)>;

/// Parses the token as an `IpCidr` of the crate `cidr`, which `cidr_utils`
/// hands on: `str::parse` calls `IpCidr::from_str`. Of the network that was
/// read it takes the family, `first_address()` and `last_address()`. Taken on trust: the same token always reads the same.
/// Nothing is claimed of which tokens are read, nor of the bounds.
#[verifier::external_body]
fn cidr_from_str(token: &str) -> (r: Option<(bool, u128, u128)>)
    ensures
        r == cidr_bounds(token@),
{
    match token.parse::<IpCidr>() {
        Ok(IpCidr::V4(c)) => Some(
            (
                false,
                u128::from(u32::from(c.first_address())),
                u128::from(u32::from(c.last_address())),
            ),
        ),
        Ok(IpCidr::V6(c)) => Some(
            (true, u128::from(c.first_address()), u128::from(c.last_address())),
        ),
        Err(_) => None,
    }
}

/// How `str` is written for debugging by the standard library: between
/// quotes, with what cannot be shown escaped.
pub uninterp spec fn debug_form(text: Seq<char>) -> Seq<char>;

/// Formats a `str` with `{:?}`, that is with `<str as Debug>::fmt` of the
/// standard library. Taken on trust: the same text always comes out the
/// same.
#[verifier::external_body]
fn debug_quoted(text: &str) -> (r: String)
    ensures
        r@ == debug_form(text@),
{
    format!("{:?}", text)
}

/// A run of addresses of one family: a network with all its addresses, the
/// first and the last one included, or a single address.
#[derive(Debug, Clone, Copy, PartialEq, Eq)]
pub struct Cidr {
    v6: bool,
    first: u128,
    last: u128,
}

impl Cidr {
    #[verifier::type_invariant]
    spec fn well_formed(&self) -> bool {
        is_block(self.v6, self.first, self.last)
    }

    /// Whether the addresses are IPv6 addresses.
    pub closed spec fn is_v6(&self) -> bool {
        self.v6
    }

    /// The numeric value of the first address.
    pub closed spec fn low(&self) -> u128 {
        self.first
    }

    /// The numeric value of the last address.
    pub closed spec fn high(&self) -> u128 {
        self.last
    }

    /// How many addresses the run holds.
    pub open spec fn count(&self) -> nat {
        (self.high() - self.low() + 1) as nat
    }

    /// The address at place `index` of the run, counted from 0.
    pub open spec fn address(&self, index: nat) -> IpAddress {
        ip_of(self.is_v6(), self.low() + index)
    }

    /// The run of addresses from `first` to `last`, where that is one.
    pub fn from_bounds(v6: bool, first: u128, last: u128) -> (r: Option<Cidr>)
        ensures
            match r {
                Some(block) => is_block(v6, first, last) && block.is_v6() == v6 && block.low()
                    == first && block.high() == last,
                None => !is_block(v6, first, last),
            },
    {
        if first <= last && (v6 || last <= 0xffff_ffff) {
            Some(Cidr { v6, first, last })
        } else {
            None
        }
    }

    /// The address at place `index` of the run, counted from 0; `None` past
    /// its end.
    pub fn address_at(&self, index: u128) -> (r: Option<IpAddress>)
        ensures
            r == if index < self.count() {
                Some(self.address(index as nat))
            } else {
                None
            },
    {
        proof {
            use_type_invariant(self);
        }
        if index <= self.last - self.first {
            let value = self.first + index;
            if self.v6 {
                Some(IpAddress::V6(value))
            } else {
                Some(IpAddress::V4(value as u32))
            }
        } else {
            None
        }
    }

    /// Whether the run is a single address.
    pub fn is_host(&self) -> (r: bool)
        ensures
            r == (self.count() == 1),
    {
        proof {
            use_type_invariant(self);
        }
        self.first == self.last
    }

    /// The first `limit` addresses of the run, or all of them where it holds
    /// no more.
    pub fn addresses(&self, limit: usize) -> (r: Vec<IpAddress>)
        ensures
            r.len() == if self.count() < limit {
                self.count()
            } else {
                limit as nat
            },
            forall|i: int| 0 <= i < r.len() ==> r[i] == self.address(i as nat),
    {
        proof {
            use_type_invariant(self);
        }
        let span = self.last - self.first;
        let mut r: Vec<IpAddress> = Vec::new();
        while r.len() < limit && r.len() as u128 <= span
            invariant
                is_block(self.v6, self.first, self.last),
                span == self.last - self.first,
                r.len() <= limit,
                r.len() <= span + 1,
                forall|i: int| 0 <= i < r.len() ==> r[i] == self.address(i as nat),
            decreases limit - r.len(),
        {
            let value = self.first + r.len() as u128;
            if self.v6 {
                r.push(IpAddress::V6(value));
            } else {
                r.push(IpAddress::V4(value as u32));
            }
        }
        r
    }
}

/// The run of addresses that a token names, where what was read in it is
/// one.
pub open spec fn block_of(read: Option<(bool, u128, u128)>) -> Option<(bool, u128, u128)> {
    match read {
        Some((v6, first, last)) => if is_block(v6, first, last) {
            Some((v6, first, last))
        } else {
            None
        },
        None => None,
    }
}

/// The bounds of a run of addresses.
pub open spec fn bounds_of(block: Option<Cidr>) -> Option<(bool, u128, u128)> {
    match block {
        Some(b) => Some((b.is_v6(), b.low(), b.high())),
        None => None,
    }
}

/// Reads a token as a CIDR block or a single IP address.
///
/// A block gives all the addresses it contains, the first and the last one
/// of an IPv4 network too. `None` says that the token is neither: it may be
/// the name of a host, or a file.
pub fn parse_address(address: &str) -> (r: Option<Cidr>)
    ensures
        bounds_of(r) == block_of(cidr_bounds(address@)),
{
    match cidr_from_str(address) {
        Some((v6, first, last)) => Cidr::from_bounds(v6, first, last),
        None => None,
    }
}

/// What a token of the options is.
#[derive(Debug, Clone)]
pub enum Target {
    /// A CIDR block or a single IP address: its addresses.
    Block(Cidr),
    /// Anything else: a name to look up, or a file to read.
    Name(String),
}

/// Whether `target` is what the token is.
pub open spec fn is_target_of(target: Target, token: Seq<char>) -> bool {
    match target {
        Target::Block(block) => block_of(cidr_bounds(token)) == Some(
            (block.is_v6(), block.low(), block.high()),
        ),
        Target::Name(name) => block_of(cidr_bounds(token)) is None && name@ == token,
    }
}

/// Reads the tokens of the options, each as a block of addresses or as a
/// name that remains to be looked up.
pub fn parse_addresses(input: &Opts) -> (targets: Vec<Target>)
    ensures
        targets.len() == input.addresses.len(),
        forall|i: int|
            0 <= i < targets.len() ==> is_target_of(#[trigger] targets[i], input.addresses[i]@),
{
    let mut targets: Vec<Target> = Vec::new();
    let mut i: usize = 0;
    while i < input.addresses.len()
        invariant
            i <= input.addresses.len(),
            targets.len() == i,
            forall|k: int|
                0 <= k < i ==> is_target_of(#[trigger] targets[k], input.addresses[k]@),
        decreases input.addresses.len() - i,
    {
        let token = input.addresses[i].as_str();
        match parse_address(token) {
            Some(block) => {
                targets.push(Target::Block(block));
            },
            None => {
                targets.push(Target::Name(String::from_str(token)));
            },
        }
        i = i + 1;
    }
    targets
}

/// Where a token came from.
#[derive(Debug, Clone, Copy, PartialEq, Eq, Structural)]
pub enum Origin {
    /// From the options.
    Argument,
    /// From a line of a file that the options name.
    FileLine,
}

/// A way to find the addresses of a token that is no block.
#[derive(Debug, Clone, Copy, PartialEq, Eq, Structural)]
pub enum Lookup {
    /// Ask the resolver of the system for the host.
    SystemResolver,
    /// Ask the backup resolver for the host.
    BackupResolver,
    /// Read the token as the path of a file of tokens.
    File,
}

/// What a lookup came to.
#[derive(Debug, Clone, Copy, PartialEq, Eq, Structural)]
pub enum Answer {
    /// It gave one address or more.
    Addresses,
    /// It worked and gave no address.
    Nothing,
    /// It failed.
    Failure,
}

/// What to do with a token after a lookup.
#[derive(Debug, Clone, Copy, PartialEq, Eq, Structural)]
pub enum Verdict {
    /// Try this lookup next.
    Try(Lookup),
    /// The token is resolved: its addresses are scanned.
    Resolved,
    /// The token is a file without addresses: it is passed over.
    Dropped,
    /// Nothing resolves the token: it is passed over with a warning.
    Unresolved,
}

/// What to do with a token after a lookup, as a rule.
///
/// A host is asked of the system resolver first and of the backup resolver
/// if that fails. A token of the options that no resolver knows is read as
/// a file; a line of a file is not, so files do not nest.
pub open spec fn verdict(origin: Origin, lookup: Lookup, answer: Answer) -> Verdict {
    if answer == Answer::Addresses {
        Verdict::Resolved
    } else if lookup == Lookup::SystemResolver && answer == Answer::Failure {
        Verdict::Try(Lookup::BackupResolver)
    } else if lookup == Lookup::File {
        if answer == Answer::Nothing {
            Verdict::Dropped
        } else {
            Verdict::Unresolved
        }
    } else if origin == Origin::Argument {
        Verdict::Try(Lookup::File)
    } else {
        Verdict::Unresolved
    }
}

/// The lookup that is tried first for a token that is no block.
pub fn first_lookup() -> (r: Lookup)
    ensures
        r == Lookup::SystemResolver,
{
    Lookup::SystemResolver
}

/// What to do with a token after a lookup.
pub fn next_lookup(origin: Origin, lookup: Lookup, answer: Answer) -> (r: Verdict)
    ensures
        r == verdict(origin, lookup, answer),
{
    match answer {
        Answer::Addresses => Verdict::Resolved,
        Answer::Failure => match lookup {
            Lookup::SystemResolver => Verdict::Try(Lookup::BackupResolver),
            Lookup::BackupResolver => match origin {
                Origin::Argument => Verdict::Try(Lookup::File),
                Origin::FileLine => Verdict::Unresolved,
            },
            Lookup::File => Verdict::Unresolved,
        },
        Answer::Nothing => match lookup {
            Lookup::File => Verdict::Dropped,
            _ => match origin {
                Origin::Argument => Verdict::Try(Lookup::File),
                Origin::FileLine => Verdict::Unresolved,
            },
        },
    }
}

/// Whatever the lookups come to, a token is settled after three of them at
/// most: each verdict that asks for another lookup asks for a later one.
pub proof fn lemma_lookups_end(origin: Origin, lookup: Lookup, answer: Answer)
    ensures
        verdict(origin, lookup, answer) matches Verdict::Try(next) ==> lookup_rank(lookup)
            < lookup_rank(next),
        origin == Origin::FileLine ==> verdict(origin, lookup, answer) != Verdict::Try(
            Lookup::File,
        ),
{
}

/// The place of a lookup in the order in which lookups are tried.
pub open spec fn lookup_rank(lookup: Lookup) -> nat {
    match lookup {
        Lookup::SystemResolver => 0,
        Lookup::BackupResolver => 1,
        Lookup::File => 2,
    }
}

/// The warning for a token that nothing resolves.
pub open spec fn unresolved_message(token: Seq<char>) -> Seq<char> {
    "Host "@ + debug_form(token) + " could not be resolved."@
}

/// The warning for a token that nothing resolves.
pub fn unresolved_warning(token: &str) -> (r: String)
    ensures
        r@ == unresolved_message(token@),
{
    let mut said = String::from_str("Host ");
    said.append(debug_quoted(token).as_str());
    said.append(" could not be resolved.");
    said
}

/// The tokens that a file of addresses lists: its lines that hold more than
/// white space.
pub fn read_ips_from_file(content: &str) -> (tokens: Vec<String>)
    ensures
        texts(tokens@) == filled_lines(split(content@, '\n')),
{
    split_lines(content)
}

/// The resolvers that a file lists: its lines, trimmed, but for the empty
/// ones. Which of them are IP addresses remains to be seen.
pub fn read_resolver_from_file(content: &str) -> (servers: Vec<String>)
    ensures
        texts(servers@) == trimmed_pieces(split(content@, '\n')),
{
    split_trimmed(content, '\n')
}

/// Where the backup resolver comes from.
#[derive(Debug, Clone)]
pub enum ResolverPlan {
    /// From these name servers, as far as they are IP addresses: each is
    /// asked over UDP on port 53.
    NameServers(Vec<String>),
    /// From the configuration of the system.
    SystemConfig,
    /// From Cloudflare, over TLS.
    Cloudflare,
}

/// Whether `plan` is where the backup resolver comes from, given the
/// resolver option, the content of the file it names if it names one that
/// can be read, and whether the configuration of the system can be read.
pub open spec fn is_resolver_plan(
    plan: ResolverPlan,
    resolver: Option<String>,
    file: Option<String>,
    system_config: bool,
) -> bool {
    match resolver {
        Some(given) => plan matches ResolverPlan::NameServers(servers) && texts(servers@)
            == match file {
            Some(content) => trimmed_pieces(split(content@, '\n')),
            None => split(given@, ','),
        },
        None => if system_config {
            plan is SystemConfig
        } else {
            plan is Cloudflare
        },
    }
}

/// Decides where the backup resolver comes from.
///
/// A resolver option that names a readable file gives the lines of the
/// file; any other resolver option is a list separated by commas. Without
/// the option the configuration of the system is used where it can be
/// read, else Cloudflare.
pub fn get_resolver(resolver: &Option<String>, file: &Option<String>, system_config: bool) -> (plan:
    ResolverPlan)
    ensures
        is_resolver_plan(plan, *resolver, *file, system_config),
{
    match resolver {
        Some(given) => match file {
            Some(content) => ResolverPlan::NameServers(read_resolver_from_file(content.as_str())),
            None => ResolverPlan::NameServers(split_text(given.as_str(), ',')),
        },
        None => if system_config {
            ResolverPlan::SystemConfig
        } else {
            ResolverPlan::Cloudflare
        },
    }
}

/// The socket on which the name server at `ip` is asked.
pub fn name_server(ip: IpAddress) -> (r: SocketAddress)
    ensures
        r == (SocketAddress { ip, port: DNS_PORT }),
{
    SocketAddress { ip, port: DNS_PORT }
}

/// `ips` without the addresses in `excluded`, in the same order.
pub open spec fn without_addresses(ips: Seq<IpAddress>, excluded: Seq<IpAddress>) -> Seq<
    IpAddress,
>
    decreases ips.len(),
{
    if ips.len() == 0 {
        Seq::empty()
    } else if excluded.contains(ips.last()) {
        without_addresses(ips.drop_last(), excluded)
    } else {
        without_addresses(ips.drop_last(), excluded).push(ips.last())
    }
}

/// Takes the excluded addresses out of the targets.
pub fn exclude_addresses(ips: &Vec<IpAddress>, excluded: &Vec<IpAddress>) -> (r: Vec<IpAddress>)
    ensures
        r@ == without_addresses(ips@, excluded@),
{
    let mut r: Vec<IpAddress> = Vec::new();
    let mut i: usize = 0;
    while i < ips.len()
        invariant
            i <= ips.len(),
            r@ == without_addresses(ips@.take(i as int), excluded@),
        decreases ips.len() - i,
    {
        let ip = ips[i];
        let mut found = false;
        let mut k: usize = 0;
        while k < excluded.len() && !found
            invariant
                k <= excluded.len(),
                found ==> excluded@.contains(ip),
                !found ==> forall|j: int| 0 <= j < k ==> excluded[j] != ip,
            decreases excluded.len() - k + if found { 0int } else { 1int },
        {
            if excluded[k] == ip {
                found = true;
            } else {
                k = k + 1;
            }
        }
        proof {
            let upto = ips@.take(i + 1);
            assert(upto.drop_last() == ips@.take(i as int));
            assert(upto.last() == ip);
        }
        if !found {
            r.push(ip);
        }
        i = i + 1;
    }
    assert(ips@.take(i as int) == ips@);
    r
}

} // verus!
