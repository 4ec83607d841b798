//! The order in which the ports of a scan are visited.
//!
//! A strategy is picked once, from the ports or ranges of the options and
//! the order asked for. It then yields its ports: an explicit list as it
//! stands, a serial range from its start to its end, a random range in a
//! scattered order that meets each port once.
pub mod chance;
pub mod range_iterator;
pub mod walk;

use crate::input::{
    ascending, lemma_ascending_is_unique, lemma_span, port_span, span, PortRange, ScanOrder,
    LOWEST_PORT_NUMBER, TOP_PORT_NUMBER,
};
use crate::port_strategy::chance::shuffle;
use crate::port_strategy::range_iterator::{
    covers, first_occurrences, lemma_stream_covers, lemma_unseen, stream, RangeIterator,
};
use crate::port_strategy::walk::{coprime, lemma_walk_order_permutes, walk_order};
use vstd::prelude::*;

verus! {

/// `order` is what a full-period walk over `ports` yields: the walk starts
/// at some place of `ports` and moves on by some step that is coprime to
/// the number of ports.
pub open spec fn is_walk_of(order: Seq<u16>, ports: Seq<u16>) -> bool {
    exists|first: int, step: int|
        #![trigger walk_order(ports, first, step, 0)]
        0 <= first < ports.len() && 0 <= step < ports.len() && coprime(step, ports.len() as int)
            && order == walk_order(ports, first, step, 0)
}

/// `order` is what a full-period walk yields over the ports that the
/// ranges cover, taken in ascending order.
pub open spec fn is_scattered(order: Seq<u16>, ranges: Seq<(u16, u16)>) -> bool {
    exists|ports: Seq<u16>|
        #![trigger is_walk_of(order, ports)]
        ascending(ports) && (forall|p: u16| ports.contains(p) <==> covers(ranges, p))
            && is_walk_of(order, ports)
}

/// The ranges as pairs of their bounds.
pub open spec fn range_pairs(ranges: Seq<PortRange>) -> Seq<(u16, u16)> {
    Seq::new(ranges.len(), |i: int| (ranges[i].start, ranges[i].end))
}

/// What a full-period walk over a list without repetition yields is the
/// list in another order: the same ports, each once.
pub proof fn lemma_walk_is_permutation(order: Seq<u16>, ports: Seq<u16>)
    requires
        ports.no_duplicates(),
        is_walk_of(order, ports),
    ensures
        order.len() == ports.len(),
        order.no_duplicates(),
        forall|p: u16| order.contains(p) <==> ports.contains(p),
        order.to_multiset() == ports.to_multiset(),
{
    let (first, step) = choose|first: int, step: int|
        #![trigger walk_order(ports, first, step, 0)]
        0 <= first < ports.len() && 0 <= step < ports.len() && coprime(step, ports.len() as int)
            && order == walk_order(ports, first, step, 0);
    lemma_walk_order_permutes(ports, first, step);
}

/// Sorting what a random range yields gives the range back: where `order`
/// holds the ports from `start` to `end`, each once, an ascending list of
/// the ports of `order` is the range itself, from `start` to `end`.
pub proof fn lemma_sorted_order_is_the_range(
    start: u16,
    end: u16,
    order: Seq<u16>,
    sorted: Seq<u16>,
)
    requires
        order.to_multiset() == span(start, end).to_multiset(),
        ascending(sorted),
        sorted.to_multiset() == order.to_multiset(),
    ensures
        sorted == span(start, end),
{
    lemma_span(start, end);
    sorted.to_multiset_ensures();
    span(start, end).to_multiset_ensures();
    assert forall|p: u16| sorted.contains(p) <==> span(start, end).contains(p) by {
        assert(sorted.contains(p) <==> sorted.to_multiset().count(p) > 0);
        assert(span(start, end).contains(p) <==> span(start, end).to_multiset().count(p) > 0);
    }
    lemma_ascending_is_unique(sorted, span(start, end));
}

/// A range of ports that is visited from its start to its end.
#[derive(Debug)]
pub struct SerialRange {
    start: u16,
    end: u16,
}

/// A range of ports that is visited in a scattered order: by a
/// full-period walk, which meets each port once.
#[derive(Debug)]
pub struct RandomRange {
    start: u16,
    end: u16,
}

/// How the ports of a scan are visited.
#[derive(Debug)]
pub enum PortStrategy {
    /// The ports of a list, as the list stands.
    Manual(Vec<u16>),
    /// The ports of a range, from its start to its end.
    Serial(SerialRange),
    /// The ports of a range, each once, in a scattered order.
    Random(RandomRange),
}

impl SerialRange {
    /// The start and the end of the range, both included.
    pub closed spec fn bounds(&self) -> (u16, u16) {
        (self.start, self.end)
    }

    /// The ports of the range in ascending order.
    pub fn generate(&self) -> (r: Vec<u16>)
        ensures
            r@ == span(self.bounds().0, self.bounds().1),
    {
        port_span(self.start, self.end)
    }
}

impl RandomRange {
    /// The start and the end of the range, both included.
    pub closed spec fn bounds(&self) -> (u16, u16) {
        (self.start, self.end)
    }

    /// The ports of the range, each once, as a full-period walk over the
    /// range yields them. A range whose start is above its end has no
    /// ports.
    ///
    /// The walk keeps a distance between one port and the next, so ports
    /// that are close in number are seldom close in time.
    pub fn generate(&self) -> (r: Vec<u16>)
        ensures
            self.bounds().0 <= self.bounds().1 ==> is_walk_of(
                r@,
                span(self.bounds().0, self.bounds().1),
            ),
            r@.to_multiset() == span(self.bounds().0, self.bounds().1).to_multiset(),
    {
        if self.start > self.end {
            return Vec::new();
        }
        let mut range: Vec<(u16, u16)> = Vec::new();
        range.push((self.start, self.end));
        let mut it = RangeIterator::new_random(range.as_slice());
        let ghost ports = it.ports();
        let ghost first = it.first();
        let ghost step = it.stride();
        let r = it.collect();
        proof {
            let whole = span(self.start, self.end);
            lemma_span(self.start, self.end);
            assert forall|p: u16| ports.contains(p) <==> whole.contains(p) by {
                if covers(range@, p) {
                    let i = choose|i: int|
                        0 <= i < range@.len() && (#[trigger] range@[i]).0 <= p <= range@[i].1;
                    assert(self.start <= p <= self.end);
                }
                if self.start <= p <= self.end {
                    assert(range@[0].0 <= p <= range@[0].1);
                }
            }
            lemma_ascending_is_unique(ports, whole);
            assert(r@ == walk_order(whole, first, step, 0));
            lemma_walk_is_permutation(r@, whole);
        }
        r
    }
}

impl PortStrategy {
    /// The ports that the strategy was picked for: the list of a manual
    /// strategy as it stands, the range of the others in ascending order.
    pub open spec fn ports(&self) -> Seq<u16> {
        match self {
            PortStrategy::Manual(list) => list@,
            PortStrategy::Serial(range) => span(range.bounds().0, range.bounds().1),
            PortStrategy::Random(range) => span(range.bounds().0, range.bounds().1),
        }
    }

    /// Picks the strategy for the ports or ranges of the options.
    ///
    /// A list of ports is taken first: as it stands for the serial order,
    /// shuffled for the random one. Without a list, a single range gives a
    /// serial or a random range. Several ranges give a list that holds each
    /// of their ports once: in the order of the ranges for the serial
    /// order, scattered by a full-period walk for the random one. Without
    /// ports and ranges, every port from 1 to 65535 is visited, as a serial
    /// or a random range.
    pub fn pick(range: &Option<Vec<PortRange>>, ports: Option<Vec<u16>>, order: ScanOrder) -> (s:
        Self)
        ensures
            match ports {
                Some(list) => s matches PortStrategy::Manual(picked) && picked@.to_multiset()
                    == list@.to_multiset() && (order == ScanOrder::Serial ==> picked@ == list@),
                None => match *range {
                    Some(ranges) => if ranges.len() == 1 {
                        match order {
                            ScanOrder::Serial => s matches PortStrategy::Serial(picked)
                                && picked.bounds() == (ranges[0].start, ranges[0].end),
                            ScanOrder::Random => s matches PortStrategy::Random(picked)
                                && picked.bounds() == (ranges[0].start, ranges[0].end),
                        }
                    } else {
                        &&& s matches PortStrategy::Manual(picked)
                        &&& picked@.no_duplicates()
                        &&& forall|p: u16|
                            picked@.contains(p) <==> covers(range_pairs(ranges@), p)
                        &&& order == ScanOrder::Serial ==> picked@ == first_occurrences(
                            stream(range_pairs(ranges@)),
                        )
                        &&& order == ScanOrder::Random && picked@.len() > 0 ==> is_scattered(
                            picked@,
                            range_pairs(ranges@),
                        )
                    },
                    None => match order {
                        ScanOrder::Serial => s matches PortStrategy::Serial(picked)
                            && picked.bounds() == (LOWEST_PORT_NUMBER, TOP_PORT_NUMBER),
                        ScanOrder::Random => s matches PortStrategy::Random(picked)
                            && picked.bounds() == (LOWEST_PORT_NUMBER, TOP_PORT_NUMBER),
                    },
                },
            },
    {
        // If ports are specified, use them (shuffle if Random)
        if let Some(mut ports_vec) = ports {
            return match order {
                ScanOrder::Serial => PortStrategy::Manual(ports_vec),
                ScanOrder::Random => {
                    shuffle(&mut ports_vec);
                    PortStrategy::Manual(ports_vec)
                },
            };
        }
        // No explicit ports provided: fall back to ranges (one or many)

        if let Some(ranges) = range {
            if ranges.len() == 1 {
                let r = &ranges[0];
                return match order {
                    ScanOrder::Serial => PortStrategy::Serial(
                        SerialRange { start: r.start, end: r.end },
                    ),
                    ScanOrder::Random => PortStrategy::Random(
                        RandomRange { start: r.start, end: r.end },
                    ),
                };
            }
            // Several ranges: a single list that holds each port once

            return match order {
                ScanOrder::Serial => {
                    let pairs = pairs_of(ranges);
                    let mut it = RangeIterator::new_serial(pairs.as_slice());
                    let combined = it.collect();
                    proof {
                        lemma_unseen(stream(pairs@), Set::empty());
                        lemma_stream_covers(pairs@);
                    }
                    PortStrategy::Manual(combined)
                },
                ScanOrder::Random => {
                    let pairs = ordered_pairs_of(ranges);
                    if pairs.len() == 0 {
                        let combined: Vec<u16> = Vec::new();
                        assert forall|p: u16|
                            combined@.contains(p) <==> covers(range_pairs(ranges@), p) by {
                            assert(covers(pairs@, p) <==> covers(range_pairs(ranges@), p));
                        }
                        PortStrategy::Manual(combined)
                    } else {
                        let mut it = RangeIterator::new_random(pairs.as_slice());
                        let ghost ports = it.ports();
                        let ghost first = it.first();
                        let ghost step = it.stride();
                        let combined = it.collect();
                        proof {
                            assert(combined@ == walk_order(ports, first, step, 0));
                            assert(is_walk_of(combined@, ports));
                            lemma_ascending_has_no_duplicates(ports);
                            lemma_walk_is_permutation(combined@, ports);
                            assert(is_scattered(combined@, range_pairs(ranges@)));
                        }
                        PortStrategy::Manual(combined)
                    }
                },
            };
        }
        // No ranges or ports provided: every port, in the order asked for

        match order {
            ScanOrder::Serial => PortStrategy::Serial(
                SerialRange { start: LOWEST_PORT_NUMBER, end: TOP_PORT_NUMBER },
            ),
            ScanOrder::Random => PortStrategy::Random(
                RandomRange { start: LOWEST_PORT_NUMBER, end: TOP_PORT_NUMBER },
            ),
        }
    }

    /// The ports of the strategy in the order in which they are visited.
    ///
    /// A list and a serial range come as they stand. A random range comes
    /// as a full-period walk yields it: each port once.
    pub fn order(&self) -> (r: Vec<u16>)
        ensures
            r@.to_multiset() == self.ports().to_multiset(),
            !(self is Random) ==> r@ == self.ports(),
            self is Random && self.ports().len() > 0 ==> is_walk_of(r@, self.ports()),
    {
        match self {
            PortStrategy::Manual(ports) => ports.clone(),
            PortStrategy::Serial(range) => range.generate(),
            PortStrategy::Random(range) => {
                proof {
                    lemma_span(range.bounds().0, range.bounds().1);
                }
                range.generate()
            },
        }
    }

    /// The ports of the strategy in the order in which they are visited,
    /// one after the other.
    ///
    /// A list and a serial range come as they stand. A random range comes
    /// as a full-period walk yields it: each port once.
    pub fn ordered_iter(&self) -> (r: Vec<u16>)
        ensures
            r@.to_multiset() == self.ports().to_multiset(),
            !(self is Random) ==> r@ == self.ports(),
            self is Random && self.ports().len() > 0 ==> is_walk_of(r@, self.ports()),
    {
        match self {
            PortStrategy::Manual(ports) => ports.clone(),
            PortStrategy::Serial(range) => port_span(range.start, range.end),
            PortStrategy::Random(range) => {
                proof {
                    lemma_span(range.bounds().0, range.bounds().1);
                }
                range.generate()
            },
        }
    }
}

/// An ascending list holds no port twice.
pub proof fn lemma_ascending_has_no_duplicates(ports: Seq<u16>)
    requires
        ascending(ports),
    ensures
        ports.no_duplicates(),
{
    assert forall|i: int, j: int| 0 <= i < ports.len() && 0 <= j < ports.len() && i
        != j implies ports[i] != ports[j] by {
        if i < j {
            assert(ports[i] < ports[j]);
        } else {
            assert(ports[j] < ports[i]);
        }
    }
}

/// The ranges as pairs of their bounds.
fn pairs_of(ranges: &Vec<PortRange>) -> (pairs: Vec<(u16, u16)>)
    ensures
        pairs@ == range_pairs(ranges@),
{
    let mut pairs: Vec<(u16, u16)> = Vec::new();
    let mut i: usize = 0;
    while i < ranges.len()
        invariant
            i <= ranges.len(),
            pairs.len() == i,
            forall|k: int| 0 <= k < i ==> pairs[k] == (ranges[k].start, ranges[k].end),
        decreases ranges.len() - i,
    {
        pairs.push((ranges[i].start, ranges[i].end));
        i = i + 1;
    }
    assert(pairs@ =~= range_pairs(ranges@));
    pairs
}

/// The ranges that run forwards, as pairs of their bounds. The others hold
/// no port.
fn ordered_pairs_of(ranges: &Vec<PortRange>) -> (pairs: Vec<(u16, u16)>)
    ensures
        forall|k: int| 0 <= k < pairs.len() ==> (#[trigger] pairs[k]).0 <= pairs[k].1,
        forall|p: u16|
            #![trigger covers(pairs@, p)]
            covers(pairs@, p) <==> covers(range_pairs(ranges@), p),
{
    let mut pairs: Vec<(u16, u16)> = Vec::new();
    let mut i: usize = 0;
    while i < ranges.len()
        invariant
            i <= ranges.len(),
            forall|k: int| 0 <= k < pairs.len() ==> (#[trigger] pairs[k]).0 <= pairs[k].1,
            forall|p: u16|
                #![trigger covers(pairs@, p)]
                covers(pairs@, p) <==> covers(range_pairs(ranges@).take(i as int), p),
        decreases ranges.len() - i,
    {
        let ghost before = pairs@;
        let ghost seen = range_pairs(ranges@).take(i as int);
        let ghost more = range_pairs(ranges@).take(i + 1);
        if ranges[i].start <= ranges[i].end {
            pairs.push((ranges[i].start, ranges[i].end));
        }
        proof {
            let after = pairs@;
            assert forall|p: u16| #![trigger covers(after, p)] covers(after, p) <==> covers(more, p) by {
                assert(covers(before, p) <==> covers(seen, p));
                if covers(before, p) {
                    let k = choose|k: int|
                        0 <= k < before.len() && (#[trigger] before[k]).0 <= p <= before[k].1;
                    assert(after[k] == before[k]);
                    assert(covers(after, p));
                }
                if covers(seen, p) {
                    let k = choose|k: int|
                        0 <= k < seen.len() && (#[trigger] seen[k]).0 <= p <= seen[k].1;
                    assert(more[k] == seen[k]);
                    assert(covers(more, p));
                }
                if ranges[i as int].start <= p <= ranges[i as int].end {
                    assert(more[i as int].0 <= p <= more[i as int].1);
                    assert(after[after.len() - 1].0 <= p <= after[after.len() - 1].1);
                }
                if covers(after, p) && !covers(before, p) {
                    let k = choose|k: int|
                        0 <= k < after.len() && (#[trigger] after[k]).0 <= p <= after[k].1;
                    if k < before.len() {
                        assert(after[k] == before[k]);
                    }
                }
                if covers(more, p) && !covers(seen, p) {
                    let k = choose|k: int|
                        0 <= k < more.len() && (#[trigger] more[k]).0 <= p <= more[k].1;
                    if k < i {
                        assert(seen[k] == more[k]);
                    }
                }
            }
        }
        i = i + 1;
    }
    assert(range_pairs(ranges@).take(i as int) == range_pairs(ranges@));
    pairs
}

} // verus!
