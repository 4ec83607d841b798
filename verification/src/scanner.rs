//! The probe engine: which sockets are probed, how often, and what counts.
//!
//! The engine itself touches no network. A [`Scanner`] holds what a scan is
//! made of. Its `run` gives a [`Scan`]: the dispatcher, which says which
//! socket to probe next and takes the outcomes as they come. A [`Probe`]
//! follows one socket through its attempts. The program around performs
//! what they say: it connects, sends, waits, and reports back.
pub mod socket_iterator;

use crate::address::notation::{ip_text, lemma_socket_text_has_no_escape, socket_text};
use crate::address::{IpAddress, SocketAddress};
use crate::port_strategy::PortStrategy;
use crate::scanner::socket_iterator::{sockets, SocketIterator};
use crate::text::{contains_text, escape, has_infix, lemma_free_of_has_no_infix};
use crate::tui::{open_line, purple_code, rendering_of, reset_code, Rendering};
use crate::udp_packets::{holds_port, payload_for, PayloadRegistry};
use std::time::Duration;
use vstd::hash_set::StringHashSet;
use vstd::multiset::Multiset;
use vstd::seq_lib::{lemma_multiset_commutative, to_multiset_build};
use vstd::prelude::*;

verus! {

/// How many errors the engine keeps for each address that is scanned.
pub const ERRORS_PER_ADDRESS: usize = 1000;

/// `text` in lower case, as `str::to_lowercase` of the standard library
/// writes it.
pub uninterp spec fn lowercase(text: Seq<char>) -> Seq<char>;

/// Calls `str::to_lowercase` of the standard library. Taken on trust: the
/// same text always comes out the same.
#[verifier::external_body]
fn to_lowercase(text: &str) -> (r: String)
    ensures
        r@ == lowercase(text@),
{
    text.to_lowercase()
}

/// Whether an error message says that the system has run out of files to
/// open: in whatever case it is written, it holds "too many open files".
pub open spec fn is_out_of_files(message: Seq<char>) -> bool {
    has_infix(lowercase(message), "too many open files"@)
}

/// Whether an error message says that the system has run out of files to
/// open.
pub fn too_many_open_files(message: &str) -> (r: bool)
    ensures
        r == is_out_of_files(message@),
{
    let lower = to_lowercase(message);
    contains_text(lower.as_str(), "too many open files")
}

/// `ports` without the ports in `excluded`, in the same order.
pub open spec fn without_ports(ports: Seq<u16>, excluded: Seq<u16>) -> Seq<u16>
    decreases ports.len(),
{
    if ports.len() == 0 {
        Seq::empty()
    } else if excluded.contains(ports.last()) {
        without_ports(ports.drop_last(), excluded)
    } else {
        without_ports(ports.drop_last(), excluded).push(ports.last())
    }
}

/// What is left of a list of ports when some are excluded holds the ports
/// of the list that are not excluded, and no others.
pub proof fn lemma_without_ports(ports: Seq<u16>, excluded: Seq<u16>)
    ensures
        without_ports(ports, excluded).len() <= ports.len(),
        forall|p: u16|
            #![trigger without_ports(ports, excluded).contains(p)]
            without_ports(ports, excluded).contains(p) <==> ports.contains(p)
                && !excluded.contains(p),
    decreases ports.len(),
{
    if ports.len() > 0 {
        let before = ports.drop_last();
        let last = ports.last();
        let kept = without_ports(ports, excluded);
        let kept_before = without_ports(before, excluded);
        lemma_without_ports(before, excluded);
        assert forall|p: u16|
            #![trigger kept.contains(p)]
            kept.contains(p) <==> ports.contains(p) && !excluded.contains(p) by {
            if kept.contains(p) {
                let i = choose|i: int| 0 <= i < kept.len() && kept[i] == p;
                if i < kept_before.len() {
                    assert(kept_before[i] == p);
                    assert(kept_before.contains(p));
                    let k = choose|k: int| 0 <= k < before.len() && before[k] == p;
                    assert(ports[k] == p);
                } else {
                    assert(p == last);
                    assert(ports[ports.len() - 1] == p);
                }
            }
            if ports.contains(p) && !excluded.contains(p) {
                let k = choose|k: int| 0 <= k < ports.len() && ports[k] == p;
                if k < before.len() {
                    assert(before[k] == p);
                    assert(before.contains(p));
                    assert(kept_before.contains(p));
                    let i = choose|i: int| 0 <= i < kept_before.len() && kept_before[i] == p;
                    assert(kept[i] == p);
                } else {
                    assert(kept[kept.len() - 1] == p);
                }
            }
        }
    }
}

/// Takes the excluded ports out of a list of ports.
pub fn exclude_ports(ports: &Vec<u16>, excluded: &Vec<u16>) -> (r: Vec<u16>)
    ensures
        r@ == without_ports(ports@, excluded@),
{
    let mut r: Vec<u16> = Vec::new();
    let mut i: usize = 0;
    while i < ports.len()
        invariant
            i <= ports.len(),
            r@ == without_ports(ports@.take(i as int), excluded@),
        decreases ports.len() - i,
    {
        proof {
            let upto = ports@.take(i + 1);
            assert(upto.drop_last() == ports@.take(i as int));
            assert(upto.last() == ports[i as int]);
        }
        if !holds_port(excluded, ports[i]) {
            r.push(ports[i]);
        }
        i = i + 1;
    }
    assert(ports@.take(i as int) == ports@);
    r
}

/// Why a socket counts as closed.
#[derive(Debug, Clone, PartialEq, Eq)]
pub enum Reason {
    /// No TCP connection came about: the message of the last failure, and
    /// the address it was raised for.
    Refused { message: String, ip: IpAddress },
    /// A UDP probe failed for another cause than time.
    Failed { message: String },
    /// No attempt was answered in time.
    Silent,
}

/// The words for a probe that no attempt saw answered in time.
pub open spec fn silent_text() -> Seq<char> {
    "timed out"@
}

impl Reason {
    /// The reason in words: the message of a failure, with the address
    /// behind it where a connection was refused.
    pub open spec fn words(&self) -> Seq<char> {
        match self {
            Reason::Refused { message, ip } => message@ + " "@ + ip_text(*ip),
            Reason::Failed { message } => message@,
            Reason::Silent => silent_text(),
        }
    }

    /// The reason in words.
    pub fn text(&self) -> (r: String)
        ensures
            r@ == self.words(),
    {
        match self {
            Reason::Refused { message, ip } => {
                let mut said = message.clone();
                said.append(" ");
                said.append(ip.to_text().as_str());
                said
            },
            Reason::Failed { message } => message.clone(),
            Reason::Silent => String::from_str("timed out"),
        }
    }
}

/// What the probe of a socket came to.
#[derive(Debug, Clone, PartialEq, Eq)]
pub enum ProbeOutcome {
    /// The socket answered.
    Open(SocketAddress),
    /// It did not.
    Closed(Reason),
}

/// What one attempt on a socket came to.
#[derive(Debug, Clone, PartialEq, Eq)]
pub enum Attempt {
    /// TCP: the connection came about. UDP: a datagram came back.
    Answered,
    /// Nothing came back within the deadline.
    TimedOut,
    /// The attempt failed, with this message.
    Failed(String),
}

/// What follows an attempt.
#[derive(Debug, Clone, PartialEq, Eq)]
pub enum ProbeStep {
    /// Another attempt.
    Retry,
    /// The probe is over.
    Done(ProbeOutcome),
    /// The whole scan is given up: the system has run out of files to open,
    /// and the batch size must come down.
    Abort,
}

/// The probe of one socket: up to `tries` attempts.
#[derive(Debug)]
pub struct Probe {
    socket: SocketAddress,
    udp: bool,
    tries: u8,
    attempt: u8,
}

impl Probe {
    #[verifier::type_invariant]
    spec fn well_formed(&self) -> bool {
        1 <= self.attempt <= self.tries
    }

    /// The socket that is probed.
    pub closed spec fn target(&self) -> SocketAddress {
        self.socket
    }

    /// Whether the probe is a UDP probe.
    pub closed spec fn is_udp(&self) -> bool {
        self.udp
    }

    /// How many attempts the probe may take.
    pub closed spec fn tries(&self) -> u8 {
        self.tries
    }

    /// Which attempt is under way, counted from 1.
    pub closed spec fn attempt(&self) -> u8 {
        self.attempt
    }

    /// The socket that is probed.
    pub fn socket(&self) -> (r: SocketAddress)
        ensures
            r == self.target(),
    {
        self.socket
    }

    /// The bytes that a UDP probe sends: the payload that the registry
    /// holds for the port, and none where it holds none.
    pub fn payload(&self, registry: &PayloadRegistry) -> (r: Vec<u8>)
        ensures
            r@ == payload_for(registry.entries(), self.target().port),
    {
        registry.cust_payload(self.socket.port)
    }

    /// Takes what the attempt under way came to and says what follows.
    ///
    /// An answer opens the socket. A TCP failure that says that the system
    /// has run out of files gives the scan up. Any other TCP failure, and
    /// any attempt that ran out of time, is tried again while attempts are
    /// left; after the last one the socket is closed. A UDP failure closes
    /// the socket at once.
    pub fn resolve(&mut self, result: Attempt) -> (step: ProbeStep)
        ensures
            final(self).target() == old(self).target(),
            final(self).is_udp() == old(self).is_udp(),
            final(self).tries() == old(self).tries(),
            1 <= old(self).attempt() <= old(self).tries(),
            step is Retry ==> final(self).attempt() == old(self).attempt() + 1,
            !(step is Retry) ==> final(self).attempt() == old(self).attempt(),
            match result {
                Attempt::Answered => step == ProbeStep::Done(
                    ProbeOutcome::Open(old(self).target()),
                ),
                Attempt::TimedOut => if old(self).attempt() < old(self).tries() {
                    step is Retry
                } else {
                    step == ProbeStep::Done(ProbeOutcome::Closed(Reason::Silent))
                },
                Attempt::Failed(said) => if old(self).is_udp() {
                    step matches ProbeStep::Done(ProbeOutcome::Closed(Reason::Failed { message }))
                        && message@ == said@
                } else if is_out_of_files(said@) {
                    step is Abort
                } else if old(self).attempt() < old(self).tries() {
                    step is Retry
                } else {
                    step matches ProbeStep::Done(
                        ProbeOutcome::Closed(Reason::Refused { message, ip }),
                    ) && message@ == said@ && ip == old(self).target().ip
                },
            },
    {
        proof {
            use_type_invariant(&*self);
        }
        match result {
            Attempt::Answered => ProbeStep::Done(ProbeOutcome::Open(self.socket)),
            Attempt::TimedOut => {
                if self.attempt < self.tries {
                    self.attempt = self.attempt + 1;
                    ProbeStep::Retry
                } else {
                    ProbeStep::Done(ProbeOutcome::Closed(Reason::Silent))
                }
            },
            Attempt::Failed(message) => {
                if self.udp {
                    ProbeStep::Done(ProbeOutcome::Closed(Reason::Failed { message }))
                } else if too_many_open_files(message.as_str()) {
                    ProbeStep::Abort
                } else if self.attempt < self.tries {
                    self.attempt = self.attempt + 1;
                    ProbeStep::Retry
                } else {
                    ProbeStep::Done(
                        ProbeOutcome::Closed(Reason::Refused { message, ip: self.socket.ip }),
                    )
                }
            },
        }
    }
}

/// How the probes of a scan are made.
#[derive(Debug)]
pub struct ScannerConnector {
    udp: bool,
    tries: u8,
    timeout: Duration,
    greppable: bool,
    accessible: bool,
}

impl ScannerConnector {
    #[verifier::type_invariant]
    spec fn well_formed(&self) -> bool {
        self.tries >= 1
    }

    /// Whether UDP is probed in place of TCP.
    pub closed spec fn is_udp(&self) -> bool {
        self.udp
    }

    /// How many attempts a probe may take: one at least.
    pub closed spec fn attempts(&self) -> u8 {
        self.tries
    }

    /// The deadline of one attempt.
    pub closed spec fn deadline(&self) -> Duration {
        self.timeout
    }

    /// Whether only the ports are printed, at the end.
    pub closed spec fn is_greppable(&self) -> bool {
        self.greppable
    }

    /// Whether nothing is printed that troubles a screen reader.
    pub closed spec fn is_accessible(&self) -> bool {
        self.accessible
    }

    /// Whether UDP is probed in place of TCP.
    pub fn udp(&self) -> (r: bool)
        ensures
            r == self.is_udp(),
    {
        self.udp
    }

    /// How many attempts a probe may take: one at least.
    pub fn tries(&self) -> (r: u8)
        ensures
            r == self.attempts(),
            r >= 1,
    {
        proof {
            use_type_invariant(self);
        }
        self.tries
    }

    /// The deadline of one attempt.
    pub fn timeout(&self) -> (r: Duration)
        ensures
            r == self.deadline(),
    {
        self.timeout
    }

    /// Whether only the ports are printed, at the end.
    pub fn greppable(&self) -> (r: bool)
        ensures
            r == self.is_greppable(),
    {
        self.greppable
    }

    /// Whether nothing is printed that troubles a screen reader.
    pub fn accessible(&self) -> (r: bool)
        ensures
            r == self.is_accessible(),
    {
        self.accessible
    }

    /// The line that shows an open socket, if it is shown: nothing in
    /// greppable mode, else `Open` and the socket, plain in accessible mode
    /// and in purple otherwise, where the terminal takes colour.
    pub fn fmt_ports(&self, socket: SocketAddress) -> (r: Option<String>)
        ensures
            match rendering_of(self.is_greppable(), self.is_accessible()) {
                Rendering::Silent => r is None,
                Rendering::Plain => r matches Some(line) && line@ == "Open "@ + socket_text(
                    socket,
                ),
                Rendering::Decorated => r matches Some(line) && (line@ == "Open "@ + socket_text(
                    socket,
                ) || line@ == "Open "@ + (purple_code() + socket_text(socket) + reset_code())),
            },
    {
        proof {
            reveal_strlit("\x1b[0m");
            lemma_socket_text_has_no_escape(socket);
            lemma_free_of_has_no_infix(socket_text(socket), reset_code(), escape());
        }
        open_line(socket.to_text().as_str(), self.greppable, self.accessible)
    }

    /// Begins the probe of a socket, with its first attempt under way.
    pub fn scan_socket(&self, socket: SocketAddress) -> (probe: Probe)
        ensures
            probe.target() == socket,
            probe.is_udp() == self.is_udp(),
            probe.tries() == self.attempts(),
            probe.attempt() == 1,
    {
        proof {
            use_type_invariant(self);
        }
        Probe { socket, udp: self.udp, tries: self.tries, attempt: 1 }
    }

    /// The local socket that a UDP probe of `socket` binds to: any address
    /// of the family of the target, on a port that the system picks.
    pub fn udp_bind(&self, socket: SocketAddress) -> (local: SocketAddress)
        ensures
            local.port == 0,
            local.ip == match socket.ip {
                IpAddress::V4(_) => IpAddress::V4(0),
                IpAddress::V6(_) => IpAddress::V6(0),
            },
    {
        match socket.ip {
            IpAddress::V4(_) => SocketAddress { ip: IpAddress::V4(0), port: 0 },
            IpAddress::V6(_) => SocketAddress { ip: IpAddress::V6(0), port: 0 },
        }
    }
}

/// The sockets of the outcomes that are open, in the order of the outcomes.
pub open spec fn opened(history: Seq<ProbeOutcome>) -> Seq<SocketAddress>
    decreases history.len(),
{
    if history.len() == 0 {
        Seq::empty()
    } else {
        match history.last() {
            ProbeOutcome::Open(socket) => opened(history.drop_last()).push(socket),
            ProbeOutcome::Closed(_) => opened(history.drop_last()),
        }
    }
}

/// No more sockets are open than probes have ended.
pub proof fn lemma_opened_is_bounded(history: Seq<ProbeOutcome>)
    ensures
        opened(history).len() <= history.len(),
    decreases history.len(),
{
    if history.len() > 0 {
        lemma_opened_is_bounded(history.drop_last());
    }
}

/// A scan in which no probe ends open finds no open socket: against a host
/// that is closed, every run gives the same result, the empty one.
pub proof fn lemma_closed_host_gives_nothing(history: Seq<ProbeOutcome>)
    requires
        forall|i: int| 0 <= i < history.len() ==> #[trigger] history[i] is Closed,
    ensures
        opened(history) == Seq::<SocketAddress>::empty(),
    decreases history.len(),
{
    if history.len() > 0 {
        assert(history.last() == history[history.len() - 1]);
        assert forall|i: int| 0 <= i < history.drop_last().len() implies #[trigger] history
            .drop_last()[i] is Closed by {
            assert(history.drop_last()[i] == history[i]);
        }
        lemma_closed_host_gives_nothing(history.drop_last());
    }
}

/// What the dispatcher says to do next.
#[derive(Debug, Clone, Copy, PartialEq, Eq, Structural)]
pub enum Dispatch {
    /// Probe this socket. It is under way from now on.
    Probe(SocketAddress),
    /// Wait for a probe to end: no other can start now.
    Wait,
    /// The scan is over.
    Finished,
}

/// A scan under way: the dispatcher of its probes.
///
/// At most `batch_size` probes are under way at a time. Each time one ends,
/// the next socket is let in, if there is one and the scan has not been
/// cancelled. The scan is over when no probe is under way and none is to
/// start.
pub struct Scan {
    sockets: SocketIterator,
    batch_size: u16,
    in_flight: u16,
    open: Vec<SocketAddress>,
    errors: StringHashSet,
    error_limit: usize,
    cancelled: bool,
    history: Ghost<Seq<ProbeOutcome>>,
    unanswered: Ghost<Multiset<SocketAddress>>,
}

impl Scan {
    /// The scan is in a state that its own functions lead to.
    pub closed spec fn wf(&self) -> bool {
        &&& self.batch_size >= 1
        &&& self.in_flight <= self.batch_size
        &&& self.history@.len() + self.in_flight == self.sockets.yielded()
        &&& self.sockets.yielded() <= self.sockets.total()
        &&& self.open@ == opened(self.history@)
        &&& self.errors@.finite()
        &&& self.errors@.len() <= self.error_limit
        &&& self.open@.to_multiset().add(self.unanswered@).subset_of(
            self.handed_out().to_multiset(),
        )
    }

    /// The sockets that have been handed out to be probed, in the order in
    /// which they were.
    pub closed spec fn handed_out(&self) -> Seq<SocketAddress> {
        sockets(self.sockets.ips(), self.sockets.ports()).take(self.sockets.yielded() as int)
    }

    /// All the sockets of the scan, in the order in which they are let in.
    pub closed spec fn all_sockets(&self) -> Seq<SocketAddress> {
        sockets(self.sockets.ips(), self.sockets.ports())
    }

    /// The sockets that were handed out and have not been found open, each
    /// as often as that holds of it.
    pub closed spec fn unanswered(&self) -> Multiset<SocketAddress> {
        self.unanswered@
    }

    /// The sockets that have yet to be probed, in the order in which they
    /// are let in.
    pub closed spec fn pending(&self) -> Seq<SocketAddress> {
        self.sockets.remaining()
    }

    /// How many sockets the scan has in all.
    pub closed spec fn total(&self) -> nat {
        self.sockets.total()
    }

    /// How many probes may be under way at a time.
    pub closed spec fn batch_size(&self) -> u16 {
        self.batch_size
    }

    /// How many probes are under way.
    pub closed spec fn in_flight(&self) -> u16 {
        self.in_flight
    }

    /// Whether the scan has been cancelled.
    pub closed spec fn is_cancelled(&self) -> bool {
        self.cancelled
    }

    /// The outcomes of the probes that have ended, in the order in which
    /// they ended.
    pub closed spec fn history(&self) -> Seq<ProbeOutcome> {
        self.history@
    }

    /// The sockets found open so far, in the order in which their probes
    /// ended.
    pub closed spec fn open(&self) -> Seq<SocketAddress> {
        self.open@
    }

    /// The reasons kept so far, in words, each once.
    pub closed spec fn errors(&self) -> Set<Seq<char>> {
        self.errors@
    }

    /// How many reasons are kept at most.
    pub closed spec fn error_limit(&self) -> usize {
        self.error_limit
    }

    /// What holds of every scan on its way: no more probes are under way
    /// than the batch size allows, the open sockets are those of the probes
    /// that ended open, and what is open, under way and pending is no more
    /// than the scan has sockets. The reasons kept are no more than the
    /// limit.
    pub proof fn lemma_invariants(&self)
        requires
            self.wf(),
        ensures
            1 <= self.batch_size(),
            self.in_flight() <= self.batch_size(),
            self.open() == opened(self.history()),
            self.open().len() + self.in_flight() + self.pending().len() <= self.total(),
            self.open().len() <= self.total(),
            self.errors().finite(),
            self.errors().len() <= self.error_limit(),
    {
        lemma_opened_is_bounded(self.history@);
    }

    /// Every socket found open is a socket of the scan that was handed out
    /// to be probed, and none is found open more often than the scan holds
    /// it. Where the scan holds no socket twice, none is found open twice.
    pub proof fn lemma_open_sockets_were_probed(&self)
        requires
            self.wf(),
        ensures
            self.open().to_multiset().subset_of(self.handed_out().to_multiset()),
            self.handed_out().to_multiset().subset_of(self.all_sockets().to_multiset()),
            self.open().to_multiset().subset_of(self.all_sockets().to_multiset()),
            forall|i: int|
                0 <= i < self.open().len() ==> self.all_sockets().contains(
                    #[trigger] self.open()[i],
                ),
            self.all_sockets().no_duplicates() ==> self.open().no_duplicates(),
    {
        broadcast use vstd::multiset::group_multiset_axioms;

        let all = self.all_sockets();
        let handed = self.handed_out();
        let found = self.open@;
        let later = all.skip(self.sockets.yielded() as int);
        assert(all =~= handed + later);
        lemma_multiset_commutative(handed, later);
        assert forall|s: SocketAddress| found.to_multiset().count(s) <= all.to_multiset().count(
            s,
        ) by {
            assert(found.to_multiset().add(self.unanswered@).count(s) <= handed.to_multiset().count(
                s,
            ));
        }
        assert forall|s: SocketAddress| found.to_multiset().count(s) <= handed.to_multiset().count(
            s,
        ) by {
            assert(found.to_multiset().add(self.unanswered@).count(s) <= handed.to_multiset().count(
                s,
            ));
        }
        found.to_multiset_ensures();
        all.to_multiset_ensures();
        assert forall|i: int| 0 <= i < found.len() implies all.contains(#[trigger] found[i]) by {
            assert(found.contains(found[i]));
            assert(found.to_multiset().count(found[i]) > 0);
            assert(all.to_multiset().count(found[i]) > 0);
        }
        if all.no_duplicates() {
            all.lemma_multiset_has_no_duplicates();
            assert forall|s: SocketAddress| found.to_multiset().contains(s) implies found
                .to_multiset().count(s) == 1 by {
                assert(found.to_multiset().count(s) <= all.to_multiset().count(s));
                assert(all.to_multiset().contains(s));
            }
            found.lemma_multiset_has_no_duplicates_conv();
        }
    }

    /// Says what to do next: probe the next socket where the batch has room
    /// for it, wait where it has none, stop when nothing is under way and
    /// nothing is to start.
    pub fn next(&mut self) -> (r: Dispatch)
        requires
            old(self).wf(),
        ensures
            final(self).wf(),
            final(self).total() == old(self).total(),
            final(self).batch_size() == old(self).batch_size(),
            final(self).is_cancelled() == old(self).is_cancelled(),
            final(self).history() == old(self).history(),
            final(self).open() == old(self).open(),
            final(self).errors() == old(self).errors(),
            final(self).error_limit() == old(self).error_limit(),
            final(self).all_sockets() == old(self).all_sockets(),
            final(self).unanswered() == match r {
                Dispatch::Probe(socket) => old(self).unanswered().insert(socket),
                _ => old(self).unanswered(),
            },
            r == if !old(self).is_cancelled() && old(self).in_flight() < old(self).batch_size()
                && old(self).pending().len() > 0 {
                Dispatch::Probe(old(self).pending()[0])
            } else if old(self).in_flight() > 0 {
                Dispatch::Wait
            } else {
                Dispatch::Finished
            },
            r is Probe ==> final(self).in_flight() == old(self).in_flight() + 1 && final(self).pending() == old(self).pending().drop_first(),
            !(r is Probe) ==> final(self).in_flight() == old(self).in_flight() && final(self).pending() == old(self).pending(),
    {
        if !self.cancelled && self.in_flight < self.batch_size {
            let ghost before = self.handed_out();
            let ghost all = self.all_sockets();
            let ghost place = self.sockets.yielded() as int;
            match self.sockets.next() {
                Some(socket) => {
                    self.in_flight = self.in_flight + 1;
                    proof {
                        broadcast use vstd::multiset::group_multiset_axioms;

                        assert(all.skip(place)[0] == all[place]);
                        assert(all.take(place + 1) =~= before.push(socket));
                        to_multiset_build(before, socket);
                        let waiting = self.unanswered@;
                        self.unanswered@ = waiting.insert(socket);
                        assert(self.open@.to_multiset().add(waiting.insert(socket)) =~= self.open@
                            .to_multiset().add(waiting).insert(socket));
                    }
                    return Dispatch::Probe(socket);
                },
                None => {},
            }
        }
        if self.in_flight > 0 {
            Dispatch::Wait
        } else {
            Dispatch::Finished
        }
    }

    /// Takes the outcome of a probe that was under way. An open socket is
    /// added to those found: it must be one that was handed out and has not
    /// been found open before. The reason of a closed one is kept where it
    /// is new and the limit is not reached.
    pub fn complete(&mut self, outcome: ProbeOutcome)
        requires
            old(self).wf(),
            old(self).in_flight() > 0,
            outcome matches ProbeOutcome::Open(socket) ==> old(self).unanswered().count(socket)
                > 0,
        ensures
            final(self).wf(),
            final(self).total() == old(self).total(),
            final(self).all_sockets() == old(self).all_sockets(),
            final(self).unanswered() == match outcome {
                ProbeOutcome::Open(socket) => old(self).unanswered().remove(socket),
                ProbeOutcome::Closed(_) => old(self).unanswered(),
            },
            final(self).batch_size() == old(self).batch_size(),
            final(self).is_cancelled() == old(self).is_cancelled(),
            final(self).pending() == old(self).pending(),
            final(self).error_limit() == old(self).error_limit(),
            final(self).in_flight() == old(self).in_flight() - 1,
            final(self).history() == old(self).history().push(outcome),
            final(self).open() == match outcome {
                ProbeOutcome::Open(socket) => old(self).open().push(socket),
                ProbeOutcome::Closed(_) => old(self).open(),
            },
            final(self).errors() == match outcome {
                ProbeOutcome::Closed(reason) => if old(self).errors().len() < old(self).error_limit() {
                    old(self).errors().insert(reason.words())
                } else {
                    old(self).errors()
                },
                ProbeOutcome::Open(_) => old(self).errors(),
            },
    {
        broadcast use vstd::set::group_set_axioms;

        let ghost before = self.history@;
        proof {
            assert(before.push(outcome).drop_last() == before);
        }
        self.history = Ghost(before.push(outcome));
        self.in_flight = self.in_flight - 1;
        match outcome {
            ProbeOutcome::Open(socket) => {
                let ghost found = self.open@;
                let ghost waiting = self.unanswered@;
                self.open.push(socket);
                proof {
                    broadcast use vstd::multiset::group_multiset_axioms;

                    to_multiset_build(found, socket);
                    self.unanswered@ = waiting.remove(socket);
                    assert(found.to_multiset().insert(socket).add(waiting.remove(socket))
                        =~= found.to_multiset().add(waiting));
                }
            },
            ProbeOutcome::Closed(reason) => {
                if self.errors.len() < self.error_limit {
                    self.errors.insert(reason.text());
                }
            },
        }
    }

    /// Cancels the scan: no further probe starts. Those under way may end,
    /// and what they find still counts.
    pub fn cancel(&mut self)
        requires
            old(self).wf(),
        ensures
            final(self).wf(),
            final(self).is_cancelled(),
            final(self).total() == old(self).total(),
            final(self).all_sockets() == old(self).all_sockets(),
            final(self).unanswered() == old(self).unanswered(),
            final(self).batch_size() == old(self).batch_size(),
            final(self).in_flight() == old(self).in_flight(),
            final(self).pending() == old(self).pending(),
            final(self).history() == old(self).history(),
            final(self).open() == old(self).open(),
            final(self).errors() == old(self).errors(),
            final(self).error_limit() == old(self).error_limit(),
    {
        self.cancelled = true;
    }

    /// How many reasons are kept.
    pub fn error_count(&self) -> (r: usize)
        requires
            self.wf(),
        ensures
            r == self.errors().len(),
            r <= self.error_limit(),
    {
        self.errors.len()
    }

    /// Whether a reason is kept that reads `words`.
    pub fn has_error(&self, words: &str) -> (r: bool)
        ensures
            r == self.errors().contains(words@),
    {
        self.errors.contains(words)
    }

    /// The sockets found open, in the order in which their probes ended.
    pub fn open_sockets(self) -> (r: Vec<SocketAddress>)
        requires
            self.wf(),
        ensures
            r@ == self.open(),
            r@ == opened(self.history()),
            r.len() <= self.total(),
            r@.to_multiset().subset_of(self.all_sockets().to_multiset()),
            forall|i: int| 0 <= i < r.len() ==> self.all_sockets().contains(#[trigger] r[i]),
            self.all_sockets().no_duplicates() ==> r@.no_duplicates(),
    {
        proof {
            self.lemma_invariants();
            self.lemma_open_sockets_were_probed();
        }
        self.open
    }
}

/// Whether `order` is an order in which the strategy may visit its ports:
/// the ports of the strategy, each as often as the strategy holds it, and
/// in the order of the strategy unless that is left to chance.
pub open spec fn is_visit_order(order: Seq<u16>, strategy: PortStrategy) -> bool {
    &&& order.to_multiset() == strategy.ports().to_multiset()
    &&& !(strategy is Random) ==> order == strategy.ports()
}

/// What a scan is made of: the addresses, the ports and their order, and
/// how the probes are made.
#[derive(Debug)]
pub struct Scanner {
    ips: Vec<IpAddress>,
    port_strategy: PortStrategy,
    exclude_ports: Vec<u16>,
    batch_size: u16,
    connector: ScannerConnector,
}

impl Scanner {
    #[verifier::type_invariant]
    spec fn well_formed(&self) -> bool {
        self.batch_size >= 1
    }

    /// The addresses that are scanned.
    pub closed spec fn ips(&self) -> Seq<IpAddress> {
        self.ips@
    }

    /// The strategy by which the ports are visited.
    pub closed spec fn strategy(&self) -> PortStrategy {
        self.port_strategy
    }

    /// The ports that are left out.
    pub closed spec fn excluded(&self) -> Seq<u16> {
        self.exclude_ports@
    }

    /// How many probes may be under way at a time.
    pub closed spec fn batch(&self) -> u16 {
        self.batch_size
    }

    /// How the probes are made.
    pub closed spec fn probes(&self) -> ScannerConnector {
        self.connector
    }

    /// A scanner of the given addresses and ports. A number of tries of 0
    /// counts as 1.
    pub fn new(
        ips: &[IpAddress],
        batch_size: u16,
        timeout: Duration,
        tries: u8,
        greppable: bool,
        port_strategy: PortStrategy,
        accessible: bool,
        exclude_ports: Vec<u16>,
        udp: bool,
    ) -> (scanner: Self)
        requires
            batch_size >= 1,
        ensures
            scanner.ips() == ips@,
            scanner.batch() == batch_size,
            scanner.strategy() == port_strategy,
            scanner.excluded() == exclude_ports@,
            scanner.probes().is_udp() == udp,
            scanner.probes().attempts() == if tries == 0 {
                1u8
            } else {
                tries
            },
            scanner.probes().deadline() == timeout,
            scanner.probes().is_greppable() == greppable,
            scanner.probes().is_accessible() == accessible,
    {
        let mut own: Vec<IpAddress> = Vec::new();
        let mut i: usize = 0;
        while i < ips.len()
            invariant
                i <= ips.len(),
                own@ == ips@.take(i as int),
            decreases ips.len() - i,
        {
            own.push(ips[i]);
            assert(ips@.take(i + 1) =~= ips@.take(i as int).push(ips@[i as int]));
            i = i + 1;
        }
        assert(ips@.take(i as int) == ips@);
        Self {
            batch_size,
            port_strategy,
            ips: own,
            exclude_ports,
            connector: ScannerConnector {
                udp,
                accessible,
                timeout,
                tries: if tries == 0 {
                    1
                } else {
                    tries
                },
                greppable,
            },
        }
    }

    /// How the probes are made.
    pub fn connector(&self) -> (r: &ScannerConnector)
        ensures
            *r == self.probes(),
    {
        &self.connector
    }

    /// How many probes may be under way at a time: one at least.
    pub fn batch_size(&self) -> (r: u16)
        ensures
            r == self.batch(),
            r >= 1,
    {
        proof {
            use_type_invariant(self);
        }
        self.batch_size
    }

    /// The ports that are probed, in the order in which they are: those of
    /// the strategy in the order of the strategy, without the excluded
    /// ones.
    pub fn ports_to_scan(&self) -> (r: Vec<u16>)
        ensures
            exists|order: Seq<u16>|
                #![trigger is_visit_order(order, self.strategy())]
                is_visit_order(order, self.strategy()) && r@ == without_ports(
                    order,
                    self.excluded(),
                ),
            !(self.strategy() is Random) ==> r@ == without_ports(
                self.strategy().ports(),
                self.excluded(),
            ),
            forall|i: int|
                0 <= i < r.len() ==> self.strategy().ports().contains(#[trigger] r[i])
                    && !self.excluded().contains(r[i]),
            self.strategy() matches PortStrategy::Serial(range) ==> forall|i: int|
                0 <= i < r.len() ==> range.bounds().0 <= #[trigger] r[i] <= range.bounds().1,
            self.strategy() matches PortStrategy::Random(range) ==> forall|i: int|
                0 <= i < r.len() ==> range.bounds().0 <= #[trigger] r[i] <= range.bounds().1,
    {
        let order = self.port_strategy.ordered_iter();
        let r = exclude_ports(&order, &self.exclude_ports);
        proof {
            assert(is_visit_order(order@, self.port_strategy));
            lemma_without_ports(order@, self.exclude_ports@);
            order@.to_multiset_ensures();
            self.port_strategy.ports().to_multiset_ensures();
            assert forall|i: int| 0 <= i < r.len() implies self.port_strategy.ports().contains(
                #[trigger] r[i],
            ) && !self.exclude_ports@.contains(r[i]) by {
                assert(r@.contains(r[i]));
                assert(order@.contains(r[i]));
                assert(order@.to_multiset().count(r[i]) > 0);
            }
            match &self.port_strategy {
                PortStrategy::Serial(range) => {
                    crate::input::lemma_span(range.bounds().0, range.bounds().1);
                },
                PortStrategy::Random(range) => {
                    crate::input::lemma_span(range.bounds().0, range.bounds().1);
                },
                _ => {},
            }
        }
        r
    }

    /// Begins the scan: every address on every port that is left, port by
    /// port, with nothing under way yet and nothing found.
    pub fn run(&self) -> (scan: Scan)
        ensures
            scan.wf(),
            scan.batch_size() == self.batch(),
            scan.in_flight() == 0,
            !scan.is_cancelled(),
            scan.history().len() == 0,
            scan.open().len() == 0,
            scan.errors() == Set::<Seq<char>>::empty(),
            scan.error_limit() == if self.ips().len() * ERRORS_PER_ADDRESS <= usize::MAX {
                (self.ips().len() * ERRORS_PER_ADDRESS) as usize
            } else {
                usize::MAX
            },
            scan.pending().len() == scan.total(),
            scan.pending() == scan.all_sockets(),
            scan.unanswered() == Multiset::<SocketAddress>::empty(),
            exists|order: Seq<u16>|
                #![trigger is_visit_order(order, self.strategy())]
                is_visit_order(order, self.strategy()) && scan.pending() == sockets(
                    self.ips(),
                    without_ports(order, self.excluded()),
                ) && scan.total() == self.ips().len() * without_ports(
                    order,
                    self.excluded(),
                ).len(),
            !(self.strategy() is Random) ==> scan.pending() == sockets(
                self.ips(),
                without_ports(self.strategy().ports(), self.excluded()),
            ),
            forall|i: int|
                0 <= i < scan.pending().len() ==> self.strategy().ports().contains(
                    (#[trigger] scan.pending()[i]).port,
                ) && !self.excluded().contains(scan.pending()[i].port) && self.ips().contains(
                    scan.pending()[i].ip,
                ),
    {
        proof {
            use_type_invariant(self);
        }
        let ports = self.ports_to_scan();
        let ghost kept = ports@;
        let error_limit = match self.ips.len().checked_mul(ERRORS_PER_ADDRESS) {
            Some(limit) => limit,
            None => usize::MAX,
        };
        let iterator = SocketIterator::new(self.ips.as_slice(), ports);
        let errors = StringHashSet::new();
        let scan = Scan {
            sockets: iterator,
            batch_size: self.batch_size,
            in_flight: 0,
            open: Vec::new(),
            errors,
            error_limit,
            cancelled: false,
            history: Ghost(Seq::empty()),
            unanswered: Ghost(Multiset::empty()),
        };
        proof {
            broadcast use vstd::multiset::group_multiset_axioms;

            let all = sockets(self.ips@, kept);
            assert(scan.pending() == all);
            assert(all.take(0) =~= Seq::<SocketAddress>::empty());
            scan.open@.to_multiset_ensures();
            assert forall|s: SocketAddress| scan.open@.to_multiset().count(s) == 0 by {
                assert(!scan.open@.contains(s));
            }
            assert(scan.open@.to_multiset().add(scan.unanswered@) =~= Multiset::empty());
            assert forall|i: int| 0 <= i < all.len() implies self.port_strategy.ports().contains(
                (#[trigger] all[i]).port,
            ) && !self.exclude_ports@.contains(all[i].port) && self.ips@.contains(all[i].ip) by {
                let n = self.ips@.len() as int;
                assert(n > 0) by (nonlinear_arith)
                    requires
                        0 <= i < n * kept.len(),
                        n >= 0,
                ;
                vstd::arithmetic::div_mod::lemma_fundamental_div_mod(i, n);
                vstd::arithmetic::div_mod::lemma_mod_bound(i, n);
                let p = i / n;
                assert(0 <= p < kept.len()) by (nonlinear_arith)
                    requires
                        0 <= i < n * kept.len(),
                        i == n * p + i % n,
                        0 <= i % n < n,
                ;
                assert(all[i].port == kept[p]);
                assert(all[i].ip == self.ips@[i % n]);
            }
        }
        scan
    }
}

} // verus!
