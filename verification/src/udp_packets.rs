//! The payloads of UDP probes: what is sent to a port to make a service
//! behind it answer.
use vstd::prelude::*;

verus! {

/// Payloads by port: each entry is a set of ports and the bytes that are
/// sent to any of them. The registry does not change once it is made.
#[derive(Debug)]
pub struct PayloadRegistry {
    entries: Vec<(Vec<u16>, Vec<u8>)>,
}

/// The place of the first entry whose ports hold `port`; the number of
/// entries if none does.
pub open spec fn first_match(entries: Seq<(Vec<u16>, Vec<u8>)>, port: u16) -> int
    decreases entries.len(),
{
    if entries.len() == 0 || entries[0].0@.contains(port) {
        0
    } else {
        1 + first_match(entries.drop_first(), port)
    }
}

/// The payload for `port`: that of the first entry whose ports hold it, and
/// no bytes if none does.
pub open spec fn payload_for(entries: Seq<(Vec<u16>, Vec<u8>)>, port: u16) -> Seq<u8> {
    let at = first_match(entries, port);
    if 0 <= at < entries.len() {
        entries[at].1@
    } else {
        Seq::empty()
    }
}

/// Where no entry before place `at` holds `port`, and the entry at `at`
/// does or there is none, `at` is the place of the first match.
pub proof fn lemma_first_match(entries: Seq<(Vec<u16>, Vec<u8>)>, port: u16, at: int)
    requires
        0 <= at <= entries.len(),
        forall|i: int| 0 <= i < at ==> !(#[trigger] entries[i]).0@.contains(port),
        at == entries.len() || entries[at].0@.contains(port),
    ensures
        first_match(entries, port) == at,
    decreases entries.len(),
{
    if at > 0 {
        let rest = entries.drop_first();
        assert forall|i: int| 0 <= i < at - 1 implies !(#[trigger] rest[i]).0@.contains(port) by {
            assert(rest[i] == entries[i + 1]);
        }
        assert(!entries[0].0@.contains(port));
        lemma_first_match(rest, port, at - 1);
    }
}

/// Whether `ports` holds `port`.
pub fn holds_port(ports: &Vec<u16>, port: u16) -> (r: bool)
    ensures
        r == ports@.contains(port),
{
    let mut i: usize = 0;
    while i < ports.len()
        invariant
            i <= ports.len(),
            forall|k: int| 0 <= k < i ==> ports[k] != port,
        decreases ports.len() - i,
    {
        if ports[i] == port {
            return true;
        }
        i = i + 1;
    }
    false
}

impl PayloadRegistry {
    /// The entries of the registry, in the order in which they are looked
    /// at.
    pub closed spec fn entries(&self) -> Seq<(Vec<u16>, Vec<u8>)> {
        self.entries@
    }

    /// A registry of the given entries.
    pub fn new(entries: Vec<(Vec<u16>, Vec<u8>)>) -> (registry: Self)
        ensures
            registry.entries() == entries@,
    {
        PayloadRegistry { entries }
    }

    /// The payload that is sent to `port`: that of an entry whose ports
    /// hold `port`, or no bytes where no entry does.
    pub fn cust_payload(&self, port: u16) -> (payload: Vec<u8>)
        ensures
            payload@ == payload_for(self.entries(), port),
    {
        let mut i: usize = 0;
        while i < self.entries.len()
            invariant
                i <= self.entries.len(),
                forall|k: int| 0 <= k < i ==> !(#[trigger] self.entries[k]).0@.contains(port),
            decreases self.entries.len() - i,
        {
            if holds_port(&self.entries[i].0, port) {
                proof {
                    lemma_first_match(self.entries@, port, i as int);
                }
                return self.entries[i].1.clone();
            }
            i = i + 1;
        }
        proof {
            lemma_first_match(self.entries@, port, i as int);
        }
        Vec::new()
    }
}

} // verus!
