//! An iterator over the ports of some ranges that yields each port once.
use crate::input::{ascending, lemma_span, span};
use crate::port_strategy::chance::{
    bitset_insert, bitset_members, bitset_with_capacity, gcd_of, random_in,
};
use crate::port_strategy::walk::{
    coprime, lemma_gcd_one_is_coprime, lemma_neighbours_are_coprime, lemma_walk_returns,
    lemma_walk_step, walk, walk_order,
};
use bit_set::BitSet;
use vstd::arithmetic::div_mod::lemma_small_mod;
use vstd::prelude::*;

verus! {

/// Whether one of the ranges holds `port`.
pub open spec fn covers(ranges: Seq<(u16, u16)>, port: u16) -> bool {
    exists|i: int| 0 <= i < ranges.len() && (#[trigger] ranges[i]).0 <= port <= ranges[i].1
}

/// The ports of the ranges as they are written: range after range, each
/// from its start to its end. A range whose start is above its end gives
/// none.
pub open spec fn stream(ranges: Seq<(u16, u16)>) -> Seq<u16>
    decreases ranges.len(),
{
    if ranges.len() == 0 {
        Seq::empty()
    } else {
        span(ranges[0].0, ranges[0].1) + stream(ranges.drop_first())
    }
}

/// `ports` without the ports in `seen` and without repetition: a port
/// stays where it first stands.
pub open spec fn unseen(ports: Seq<u16>, seen: Set<nat>) -> Seq<u16>
    decreases ports.len(),
{
    if ports.len() == 0 {
        Seq::empty()
    } else if seen.contains(ports[0] as nat) {
        unseen(ports.drop_first(), seen)
    } else {
        seq![ports[0]] + unseen(ports.drop_first(), seen.insert(ports[0] as nat))
    }
}

/// `ports` without repetition: a port stays where it first stands.
pub open spec fn first_occurrences(ports: Seq<u16>) -> Seq<u16> {
    unseen(ports, Set::empty())
}

/// The ports from `port` to `end`, both included; none where `port` is
/// above `end`.
pub open spec fn span_from(port: int, end: u16) -> Seq<u16> {
    if 0 <= port <= end {
        Seq::new((end - port + 1) as nat, |i: int| (port + i) as u16)
    } else {
        Seq::empty()
    }
}

/// What is left of the stream when range `at` has been read up to `port`.
pub open spec fn rest_of(ranges: Seq<(u16, u16)>, at: int, port: int) -> Seq<u16> {
    if 0 <= at < ranges.len() {
        span_from(port, ranges[at].1) + stream(ranges.skip(at + 1))
    } else {
        Seq::empty()
    }
}

/// The stream of some ranges holds the ports that the ranges cover.
pub proof fn lemma_stream_covers(ranges: Seq<(u16, u16)>)
    ensures
        forall|p: u16|
            #![trigger stream(ranges).contains(p)]
            #![trigger covers(ranges, p)]
            stream(ranges).contains(p) <==> covers(ranges, p),
    decreases ranges.len(),
{
    if ranges.len() > 0 {
        let head = span(ranges[0].0, ranges[0].1);
        let rest = ranges.drop_first();
        let tail = stream(rest);
        lemma_span(ranges[0].0, ranges[0].1);
        lemma_stream_covers(rest);
        assert forall|p: u16| stream(ranges).contains(p) <==> covers(ranges, p) by {
            if stream(ranges).contains(p) {
                let i = choose|i: int| 0 <= i < stream(ranges).len() && stream(ranges)[i] == p;
                if i < head.len() {
                    assert(head[i] == p);
                    assert(head.contains(p));
                    assert(ranges[0].0 <= p <= ranges[0].1);
                } else {
                    assert(tail[i - head.len()] == p);
                    assert(tail.contains(p));
                    assert(covers(rest, p));
                    let k = choose|k: int|
                        0 <= k < rest.len() && (#[trigger] rest[k]).0 <= p <= rest[k].1;
                    assert(ranges[k + 1].0 <= p <= ranges[k + 1].1);
                }
            }
            if covers(ranges, p) {
                let k = choose|k: int|
                    0 <= k < ranges.len() && (#[trigger] ranges[k]).0 <= p <= ranges[k].1;
                if k == 0 {
                    assert(head.contains(p));
                    let i = choose|i: int| 0 <= i < head.len() && head[i] == p;
                    assert(stream(ranges)[i] == p);
                } else {
                    assert(rest[k - 1].0 <= p <= rest[k - 1].1);
                    assert(covers(rest, p));
                    assert(tail.contains(p));
                    let i = choose|i: int| 0 <= i < tail.len() && tail[i] == p;
                    assert(stream(ranges)[head.len() + i] == p);
                }
            }
        }
    } else {
        assert(stream(ranges).len() == 0);
    }
}

/// What is left of a list when the seen ports and the repetitions are
/// taken out holds no port twice, and it holds the ports of the list that
/// were not seen.
pub proof fn lemma_unseen(ports: Seq<u16>, seen: Set<nat>)
    ensures
        unseen(ports, seen).no_duplicates(),
        forall|p: u16|
            #![trigger unseen(ports, seen).contains(p)]
            unseen(ports, seen).contains(p) <==> ports.contains(p) && !seen.contains(p as nat),
    decreases ports.len(),
{
    if ports.len() > 0 {
        let head = ports[0];
        let rest = ports.drop_first();
        let out = unseen(ports, seen);
        if seen.contains(head as nat) {
            lemma_unseen(rest, seen);
            assert forall|p: u16| out.contains(p) <==> ports.contains(p) && !seen.contains(
                p as nat,
            ) by {
                if rest.contains(p) {
                    let i = choose|i: int| 0 <= i < rest.len() && rest[i] == p;
                    assert(ports[i + 1] == p);
                }
                if ports.contains(p) && p != head {
                    let i = choose|i: int| 0 <= i < ports.len() && ports[i] == p;
                    assert(rest[i - 1] == p);
                }
            }
        } else {
            let more = seen.insert(head as nat);
            let tail = unseen(rest, more);
            lemma_unseen(rest, more);
            assert(out == seq![head] + tail);
            assert(!tail.contains(head));
            assert forall|i: int, j: int| 0 <= i < out.len() && 0 <= j < out.len() && i
                != j implies out[i] != out[j] by {
                if i > 0 && j > 0 {
                    assert(out[i] == tail[i - 1] && out[j] == tail[j - 1]);
                } else if i == 0 {
                    assert(out[j] == tail[j - 1]);
                    assert(tail.contains(tail[j - 1]));
                } else {
                    assert(out[i] == tail[i - 1]);
                    assert(tail.contains(tail[i - 1]));
                }
            }
            assert forall|p: u16| out.contains(p) <==> ports.contains(p) && !seen.contains(
                p as nat,
            ) by {
                if out.contains(p) {
                    let i = choose|i: int| 0 <= i < out.len() && out[i] == p;
                    if i > 0 {
                        assert(tail[i - 1] == p);
                        assert(tail.contains(p));
                        let k = choose|k: int| 0 <= k < rest.len() && rest[k] == p;
                        assert(ports[k + 1] == p);
                    } else {
                        assert(ports[0] == p);
                    }
                }
                if ports.contains(p) && !seen.contains(p as nat) {
                    if p == head {
                        assert(out[0] == p);
                    } else {
                        let i = choose|i: int| 0 <= i < ports.len() && ports[i] == p;
                        assert(rest[i - 1] == p);
                        assert(rest.contains(p));
                        assert(tail.contains(p));
                        let k = choose|k: int| 0 <= k < tail.len() && tail[k] == p;
                        assert(out[k + 1] == p);
                    }
                }
            }
        }
    }
}

/// Whether `port` lies in one of the half-open pairs `(start, end)`.
spec fn within(pairs: Seq<(u32, u32)>, port: int) -> bool {
    exists|k: int| 0 <= k < pairs.len() && (#[trigger] pairs[k]).0 <= port < pairs[k].1
}

/// Whether `port` lies in one of the inclusive ranges.
spec fn covers_number(ranges: Seq<(u16, u16)>, port: int) -> bool {
    exists|i: int| 0 <= i < ranges.len() && (#[trigger] ranges[i]).0 <= port <= ranges[i].1
}

/// Whether `port` lies in one of the blocks `(start, length)`.
spec fn in_blocks(blocks: Seq<(u32, u32)>, port: int) -> bool {
    exists|k: int|
        0 <= k < blocks.len() && (#[trigger] blocks[k]).0 <= port < blocks[k].0 + blocks[k].1
}

/// The ports of one block `(start, length)`, in ascending order.
spec fn block_ports(block: (u32, u32)) -> Seq<u16> {
    Seq::new(block.1 as nat, |i: int| (block.0 + i) as u16)
}

/// The ports of the blocks, block after block.
spec fn blocks_ports(blocks: Seq<(u32, u32)>) -> Seq<u16>
    decreases blocks.len(),
{
    if blocks.len() == 0 {
        Seq::empty()
    } else {
        blocks_ports(blocks.drop_last()) + block_ports(blocks.last())
    }
}

/// The blocks are not empty, hold ports only, stand in ascending order and
/// leave a gap between one and the next.
spec fn blocks_wf(blocks: Seq<(u32, u32)>) -> bool {
    &&& forall|i: int|
        0 <= i < blocks.len() ==> (#[trigger] blocks[i]).1 >= 1 && blocks[i].0 + blocks[i].1
            <= 65536
    &&& forall|i: int, j: int|
        0 <= i < j < blocks.len() ==> (#[trigger] blocks[i]).0 + blocks[i].1 < (
        #[trigger] blocks[j]).0
}

/// Entry `k` of the index is the number of ports in the blocks before
/// block `k`.
spec fn is_prefix_index(blocks: Seq<(u32, u32)>, prefix: Seq<u32>) -> bool {
    &&& prefix.len() == blocks.len() + 1
    &&& forall|k: int|
        0 <= k <= blocks.len() ==> #[trigger] prefix[k] == blocks_ports(blocks.take(k)).len()
}

/// The ports of well-formed blocks stand in ascending order, they are the
/// ports that lie in a block, and all of them lie below the end of the
/// last block.
proof fn lemma_blocks_ports(blocks: Seq<(u32, u32)>)
    requires
        blocks_wf(blocks),
    ensures
        ascending(blocks_ports(blocks)),
        forall|p: u16|
            #![trigger blocks_ports(blocks).contains(p)]
            #![trigger in_blocks(blocks, p as int)]
            blocks_ports(blocks).contains(p) <==> in_blocks(blocks, p as int),
        blocks.len() == 0 ==> blocks_ports(blocks).len() == 0,
        blocks.len() > 0 ==> blocks_ports(blocks).len() <= blocks.last().0 + blocks.last().1,
        blocks.len() > 0 ==> forall|i: int|
            0 <= i < blocks_ports(blocks).len() ==> blocks_ports(blocks)[i] < blocks.last().0
                + blocks.last().1,
    decreases blocks.len(),
{
    if blocks.len() > 0 {
        let before = blocks.drop_last();
        let last = blocks.last();
        assert(last == blocks[blocks.len() - 1]);
        assert forall|i: int| 0 <= i < before.len() implies before[i] == blocks[i] by {}
        lemma_blocks_ports(before);
        let head = blocks_ports(before);
        let tail = block_ports(last);
        let all = blocks_ports(blocks);
        assert(all == head + tail);
        if before.len() > 0 {
            assert(before.last() == blocks[blocks.len() - 2]);
            assert(blocks[blocks.len() - 2].0 + blocks[blocks.len() - 2].1 < last.0);
        }
        assert forall|i: int, j: int| 0 <= i < j < all.len() implies all[i] < all[j] by {
            if j < head.len() {
                assert(all[i] == head[i] && all[j] == head[j]);
            } else if i < head.len() {
                assert(all[i] == head[i]);
                assert(all[j] == tail[j - head.len()]);
            } else {
                assert(all[i] == tail[i - head.len()]);
                assert(all[j] == tail[j - head.len()]);
            }
        }
        assert forall|p: u16| all.contains(p) <==> in_blocks(blocks, p as int) by {
            if all.contains(p) {
                let i = choose|i: int| 0 <= i < all.len() && all[i] == p;
                if i < head.len() {
                    assert(head[i] == p);
                    assert(head.contains(p));
                    assert(in_blocks(before, p as int));
                    let k = choose|k: int|
                        0 <= k < before.len() && (#[trigger] before[k]).0 <= p < before[k].0
                            + before[k].1;
                    assert(blocks[k].0 <= p < blocks[k].0 + blocks[k].1);
                } else {
                    assert(tail[i - head.len()] == p);
                    assert(blocks[blocks.len() - 1].0 <= p < blocks[blocks.len() - 1].0
                        + blocks[blocks.len() - 1].1);
                }
            }
            if in_blocks(blocks, p as int) {
                let k = choose|k: int|
                    0 <= k < blocks.len() && (#[trigger] blocks[k]).0 <= p < blocks[k].0
                        + blocks[k].1;
                if k < before.len() {
                    assert(before[k].0 <= p < before[k].0 + before[k].1);
                    assert(in_blocks(before, p as int));
                    let i = choose|i: int| 0 <= i < head.len() && head[i] == p;
                    assert(all[i] == p);
                } else {
                    assert(tail[p - last.0] == p);
                    assert(all[head.len() + (p - last.0)] == p);
                }
            }
        }
        if before.len() > 0 {
            assert(head.len() <= last.0);
        }
        assert forall|i: int| 0 <= i < all.len() implies all[i] < last.0 + last.1 by {
            if i < head.len() {
                assert(all[i] == head[i]);
            } else {
                assert(all[i] == tail[i - head.len()]);
            }
        }
    }
}

/// Where place `at` falls in block `k`, the port at place `at` is the start
/// of the block and what `at` is past the ports before the block.
proof fn lemma_block_index(blocks: Seq<(u32, u32)>, k: int, at: int)
    requires
        0 <= k < blocks.len(),
        blocks_ports(blocks.take(k)).len() <= at < blocks_ports(blocks.take(k + 1)).len(),
    ensures
        at < blocks_ports(blocks).len(),
        at - blocks_ports(blocks.take(k)).len() < blocks[k].1,
        blocks_ports(blocks)[at] == (blocks[k].0 + (at - blocks_ports(blocks.take(k)).len())) as u16,
    decreases blocks.len(),
{
    let before = blocks.drop_last();
    if k == blocks.len() - 1 {
        assert(blocks.take(k + 1) == blocks);
        assert(blocks.take(k) == before);
    } else {
        assert(before.take(k) == blocks.take(k));
        assert(before.take(k + 1) == blocks.take(k + 1));
        assert(before[k] == blocks[k]);
        lemma_block_index(before, k, at);
    }
}

/// Yields the ports of a collection of inclusive ranges that may overlap,
/// each port once.
///
/// Made by `new_random`, it visits the ports in a scattered order: a walk
/// over the places `0..N` of the ascending list of the ports, which starts
/// at a place chosen at random and moves on by a step coprime to `N`,
/// around `N`. Such a walk meets each place once.
///
/// Made by `new_serial`, it walks the ranges in the order in which they
/// were given and passes over the ports it has yielded before.
pub struct RangeIterator {
    active: bool,
    total: u32,
    normalized_first_pick: u32,
    normalized_pick: u32,
    step: u32,
    ranges: Vec<(u32, u32)>,
    prefix: Vec<u32>,
    emitted: Ghost<nat>,
    serial_ranges: Vec<(u16, u16)>,
    serial_at: usize,
    serial_port: u32,
    serial_seen: Option<BitSet>,
}

impl RangeIterator {
    /// The iterator is in a state that its own functions lead to.
    pub closed spec fn wf(&self) -> bool {
        if self.serial_seen is Some {
            &&& self.active
            &&& self.serial_at <= self.serial_ranges.len()
            &&& self.serial_port <= 65536
        } else if self.active {
            &&& blocks_wf(self.ranges@)
            &&& is_prefix_index(self.ranges@, self.prefix@)
            &&& self.total == blocks_ports(self.ranges@).len()
            &&& 1 <= self.total <= 65536
            &&& self.step < self.total
            &&& coprime(self.step as int, self.total as int)
            &&& self.normalized_first_pick < self.total
            &&& self.emitted@ < self.total
            &&& self.normalized_pick == walk(
                self.normalized_first_pick as int,
                self.step as int,
                self.total as int,
                self.emitted@ as int,
            )
        } else {
            true
        }
    }

    /// The ports of the ranges that a random iterator was made for, each
    /// once, in ascending order.
    pub closed spec fn ports(&self) -> Seq<u16> {
        blocks_ports(self.ranges@)
    }

    /// The place in `ports` at which a random iterator starts.
    pub closed spec fn first(&self) -> int {
        self.normalized_first_pick as int
    }

    /// The step by which a random iterator moves through `ports`.
    pub closed spec fn stride(&self) -> int {
        self.step as int
    }

    /// The ports that the iterator has yet to yield, in the order in which
    /// it yields them.
    pub closed spec fn remaining(&self) -> Seq<u16> {
        if !self.active {
            Seq::empty()
        } else if self.serial_seen is Some {
            unseen(
                rest_of(self.serial_ranges@, self.serial_at as int, self.serial_port as int),
                bitset_members(self.serial_seen->0),
            )
        } else {
            walk_order(
                blocks_ports(self.ranges@),
                self.normalized_first_pick as int,
                self.step as int,
                self.emitted@ as int,
            )
        }
    }

    /// An iterator that yields the ports of the ranges in a scattered
    /// order, each port once.
    ///
    /// The ranges are sorted and merged into blocks with a gap between one
    /// and the next. The walk then runs over the places of the ports in
    /// those blocks: it starts at the place `first()` and moves on by
    /// `stride()`, a step coprime to the number of ports.
    pub fn new_random(input: &[(u16, u16)]) -> (it: Self)
        requires
            input.len() >= 1,
            forall|i: int| 0 <= i < input.len() ==> (#[trigger] input[i]).0 <= input[i].1,
        ensures
            it.wf(),
            ascending(it.ports()),
            forall|p: u16| it.ports().contains(p) <==> covers(input@, p),
            it.ports().len() >= 1,
            0 <= it.first() < it.ports().len(),
            0 <= it.stride() < it.ports().len(),
            coprime(it.stride(), it.ports().len() as int),
            it.ports().len() / 4 <= it.stride() < it.ports().len() - it.ports().len() / 4
                || it.stride() == it.ports().len() - 1,
            it.remaining() == walk_order(it.ports(), it.first(), it.stride(), 0),
    {
        let sorted = sorted_by_start(input);
        let merged = merge_blocks(&sorted);
        let prefix = prefix_sums(&merged);
        proof {
            lemma_blocks_ports(merged@);
            assert(merged@.take(merged@.len() as int) == merged@);
            assert(merged@[merged@.len() - 1].1 >= 1);
            lemma_block_index(merged@, merged@.len() - 1, prefix@[merged@.len() - 1] as int);
            assert forall|p: u16| blocks_ports(merged@).contains(p) <==> covers(input@, p) by {
                assert(in_blocks(merged@, p as int) <==> covers_number(input@, p as int));
            }
        }
        let total = prefix[prefix.len() - 1];
        let step = pick_random_coprime(total);
        let first = random_in(0, total);
        proof {
            lemma_small_mod(first as nat, total as nat);
            assert(first + 0 * step == first) by (nonlinear_arith);
        }
        RangeIterator {
            active: true,
            total,
            normalized_first_pick: first,
            normalized_pick: first,
            step,
            ranges: merged,
            prefix,
            emitted: Ghost(0),
            serial_ranges: Vec::new(),
            serial_at: 0,
            serial_port: 0,
            serial_seen: None,
        }
    }

    /// An iterator that yields the ports in the order of the ranges as
    /// given, each port where it first occurs.
    pub fn new_serial(input: &[(u16, u16)]) -> (it: Self)
        ensures
            it.wf(),
            it.remaining() == first_occurrences(stream(input@)),
    {
        let mut ranges: Vec<(u16, u16)> = Vec::new();
        let mut i: usize = 0;
        while i < input.len()
            invariant
                i <= input.len(),
                ranges@ == input@.take(i as int),
            decreases input.len() - i,
        {
            ranges.push(input[i]);
            assert(input@.take(i + 1) =~= input@.take(i as int).push(input@[i as int]));
            i = i + 1;
        }
        assert(input@.take(i as int) == input@);
        let first: u32 = if ranges.len() > 0 {
            ranges[0].0 as u32
        } else {
            0
        };
        let seen = bitset_with_capacity(65536);
        let it = RangeIterator {
            active: true,
            total: 0,
            normalized_first_pick: 0,
            normalized_pick: 0,
            step: 0,
            ranges: Vec::new(),
            prefix: Vec::new(),
            emitted: Ghost(0),
            serial_ranges: ranges,
            serial_at: 0,
            serial_port: first,
            serial_seen: Some(seen),
        };
        proof {
            if input@.len() > 0 {
                assert(span_from(first as int, input@[0].1) =~= span(input@[0].0, input@[0].1));
                assert(input@.skip(1) == input@.drop_first());
            }
        }
        it
    }

    /// Yields the next port, or `None` when every port has been yielded.
    pub fn next(&mut self) -> (r: Option<u16>)
        requires
            old(self).wf(),
        ensures
            final(self).wf(),
            match r {
                Some(port) => old(self).remaining().len() > 0 && port == old(self).remaining()[0]
                    && final(self).remaining() == old(self).remaining().drop_first(),
                None => old(self).remaining().len() == 0 && final(self).remaining().len() == 0,
            },
    {
        if !self.active {
            return None;
        }
        if self.serial_seen.is_none() {
            return Some(self.next_scattered());
        }
        loop
            invariant
                self.wf(),
                self.active,
                self.serial_seen is Some,
                self.remaining() == old(self).remaining(),
            decreases
                    self.serial_ranges.len() - self.serial_at,
                    rest_of(
                        self.serial_ranges@,
                        self.serial_at as int,
                        self.serial_port as int,
                    ).len(),
        {
            if self.serial_at >= self.serial_ranges.len() {
                self.serial_seen = None;
                self.active = false;
                return None;
            }
            let ghost ranges = self.serial_ranges@;
            let ghost at = self.serial_at as int;
            let ghost seen = bitset_members(self.serial_seen->0);
            let ghost reached = self.serial_port as int;
            let end = self.serial_ranges[self.serial_at].1;
            if self.serial_port > end as u32 {
                self.serial_at = self.serial_at + 1;
                if self.serial_at < self.serial_ranges.len() {
                    self.serial_port = self.serial_ranges[self.serial_at].0 as u32;
                }
                proof {
                    let later = ranges.skip(at + 1);
                    if at + 1 < ranges.len() {
                        assert(later.drop_first() == ranges.skip(at + 2));
                        assert(span_from(self.serial_port as int, ranges[at + 1].1) =~= span(
                            ranges[at + 1].0,
                            ranges[at + 1].1,
                        ));
                    }
                    assert(rest_of(ranges, at, reached) =~= stream(later));
                }
                continue ;
            }
            let port = self.serial_port as u16;
            let ghost rest = rest_of(ranges, at, self.serial_port as int);
            self.serial_port = self.serial_port + 1;
            proof {
                let left = rest_of(ranges, at, self.serial_port as int);
                assert(rest[0] == port);
                assert(rest.drop_first() =~= left);
            }
            let fresh = match &mut self.serial_seen {
                Some(set) => bitset_insert(set, port as usize),
                None => false,
            };
            if fresh {
                return Some(port);
            }
            assert(seen.insert(port as nat) =~= seen);
        }
    }

    /// One step of the walk: yields the port at the place the walk stands
    /// on and moves the walk on. The walk ends when it would stand on its
    /// first place again.
    fn next_scattered(&mut self) -> (port: u16)
        requires
            old(self).wf(),
            old(self).active,
            old(self).serial_seen is None,
        ensures
            final(self).wf(),
            old(self).remaining().len() > 0,
            port == old(self).remaining()[0],
            final(self).remaining() == old(self).remaining().drop_first(),
    {
        let ghost ports = blocks_ports(self.ranges@);
        let ghost first = self.normalized_first_pick as int;
        let ghost stride = self.step as int;
        let ghost count = self.total as int;
        let ghost done = self.emitted@ as int;
        let cur = self.normalized_pick;
        let next = (cur + self.step) % self.total;
        proof {
            lemma_walk_step(first, stride, count, done);
            lemma_walk_returns(first, stride, count, done + 1);
            lemma_small_mod(first as nat, count as nat);
            assert(first + 0 * stride == first) by (nonlinear_arith);
            assert(walk_order(ports, first, stride, done).drop_first() =~= walk_order(
                ports,
                first,
                stride,
                done + 1,
            ));
        }
        // when the next place is the first one, this port is the last
        if next == self.normalized_first_pick {
            self.active = false;
        }
        self.normalized_pick = next;
        self.emitted = Ghost((done + 1) as nat);

        // find the block that holds place `cur`
        let mut lo: usize = 0;
        let mut hi: usize = self.ranges.len();
        while lo < hi
            invariant
                lo <= hi <= self.ranges.len(),
                self.prefix.len() == self.ranges.len() + 1,
                self.prefix[lo as int] <= cur,
                hi < self.ranges.len() ==> self.prefix[hi + 1] > cur,
            decreases hi - lo,
        {
            let mid = lo + (hi - lo) / 2;
            if self.prefix[mid + 1] > cur {
                hi = mid;
            } else {
                lo = mid + 1;
            }
        }
        let idx = lo;
        proof {
            assert(self.ranges@.take(self.ranges@.len() as int) == self.ranges@);
            assert(self.prefix[self.ranges@.len() as int] == count);
            assert(idx < self.ranges.len());
            assert(self.prefix[idx as int] == blocks_ports(self.ranges@.take(idx as int)).len());
            assert(self.prefix[idx + 1] == blocks_ports(self.ranges@.take(idx + 1)).len());
            lemma_block_index(self.ranges@, idx as int, cur as int);
        }
        let offset = cur - self.prefix[idx];
        let start = self.ranges[idx].0;
        (start + offset) as u16
    }

    /// Yields all the ports that are left, in the order of `next`.
    pub fn collect(&mut self) -> (r: Vec<u16>)
        requires
            old(self).wf(),
        ensures
            final(self).wf(),
            r@ == old(self).remaining(),
            final(self).remaining().len() == 0,
    {
        let mut r: Vec<u16> = Vec::new();
        loop
            invariant
                self.wf(),
                r@ + self.remaining() == old(self).remaining(),
            ensures
                self.wf(),
                r@ == old(self).remaining(),
                self.remaining().len() == 0,
            decreases self.remaining().len(),
        {
            let ghost before = self.remaining();
            match self.next() {
                Some(port) => {
                    r.push(port);
                    assert(r@ + self.remaining() =~= (r@.drop_last() + before));
                },
                None => {
                    assert(r@ + before =~= r@);
                    break ;
                },
            }
        }
        r
    }
}

/// Picks at random a step for the walk around `end`: a number coprime to
/// `end`, from the middle half of `0..end` where one of ten draws gives
/// such a number, else `end - 1`.
///
/// A step near 0 or near `end` would yield the ports nearly in order.
/// About six in ten pairs of numbers are coprime, so ten draws nearly
/// always give a step; `end - 1` is coprime to `end` whatever `end` is.
fn pick_random_coprime(end: u32) -> (step: u32)
    requires
        end >= 1,
    ensures
        step < end,
        coprime(step as int, end as int),
        end / 4 <= step < end - end / 4 || step == end - 1,
{
    let range_boundary = end / 4;
    let lower_range = range_boundary;
    let upper_range = end - range_boundary;
    let mut candidate = random_in(lower_range, upper_range);
    let mut tries: u32 = 0;
    while tries < 10
        invariant
            end >= 1,
            lower_range == end / 4,
            upper_range == end - end / 4,
            lower_range <= candidate < upper_range,
        decreases 10 - tries,
    {
        if gcd_of(end, candidate) == 1 {
            proof {
                lemma_gcd_one_is_coprime(end as int, candidate as int);
                lemma_coprime_is_symmetric(end as int, candidate as int);
            }
            return candidate;
        }
        candidate = random_in(lower_range, upper_range);
        tries = tries + 1;
    }
    proof {
        lemma_neighbours_are_coprime(end as int);
        lemma_coprime_is_symmetric(end as int, end - 1);
    }
    end - 1
}

/// Coprime numbers are coprime in either order.
proof fn lemma_coprime_is_symmetric(a: int, b: int)
    requires
        coprime(a, b),
    ensures
        coprime(b, a),
{
}

/// The ranges as half-open pairs `(start, end + 1)`, sorted by their start.
fn sorted_by_start(input: &[(u16, u16)]) -> (r: Vec<(u32, u32)>)
    requires
        forall|i: int| 0 <= i < input.len() ==> (#[trigger] input[i]).0 <= input[i].1,
    ensures
        r.len() == input.len(),
        forall|k: int| 0 <= k < r.len() ==> (#[trigger] r[k]).0 < r[k].1 <= 65536,
        forall|i: int, j: int| 0 <= i < j < r.len() ==> (#[trigger] r[i]).0 <= (#[trigger] r[j]).0,
        forall|p: int|
            #![trigger within(r@, p)]
            #![trigger covers_number(input@, p)]
            within(r@, p) <==> covers_number(input@, p),
{
    let mut r: Vec<(u32, u32)> = Vec::new();
    let mut i: usize = 0;
    while i < input.len()
        invariant
            i <= input.len(),
            r.len() == i,
            forall|i: int| 0 <= i < input.len() ==> (#[trigger] input[i]).0 <= input[i].1,
            forall|k: int| 0 <= k < r.len() ==> (#[trigger] r[k]).0 < r[k].1 <= 65536,
            forall|a: int, b: int|
                0 <= a < b < r.len() ==> (#[trigger] r[a]).0 <= (#[trigger] r[b]).0,
            forall|p: int|
                #![trigger within(r@, p)]
                #![trigger covers_number(input@.take(i as int), p)]
                within(r@, p) <==> covers_number(input@.take(i as int), p),
        decreases input.len() - i,
    {
        let start = input[i].0 as u32;
        let end_excl = input[i].1 as u32 + 1;
        let mut at: usize = 0;
        while at < r.len() && r[at].0 <= start
            invariant
                at <= r.len(),
                forall|k: int| 0 <= k < at ==> (#[trigger] r[k]).0 <= start,
            decreases r.len() - at,
        {
            at = at + 1;
        }
        let ghost before = r@;
        r.insert(at, (start, end_excl));
        proof {
            let after = r@;
            let seen = input@.take(i as int);
            let more = input@.take(i + 1);
            assert(after == before.insert(at as int, (start, end_excl)));
            assert forall|a: int, b: int| 0 <= a < b < after.len() implies (#[trigger] after[a]).0
                <= (#[trigger] after[b]).0 by {
                if b < at {
                    assert(after[a] == before[a] && after[b] == before[b]);
                } else if b == at {
                    assert(after[a] == before[a]);
                } else if a < at {
                    assert(after[a] == before[a] && after[b] == before[b - 1]);
                } else if a == at {
                    assert(after[b] == before[b - 1]);
                    assert(at <= b - 1 < before.len());
                    if at < before.len() {
                        assert(before[at as int].0 > start);
                        assert(before[at as int].0 <= before[b - 1].0);
                    }
                } else {
                    assert(after[a] == before[a - 1] && after[b] == before[b - 1]);
                }
            }
            assert forall|p: int| within(after, p) <==> covers_number(more, p) by {
                if within(after, p) {
                    let k = choose|k: int|
                        0 <= k < after.len() && (#[trigger] after[k]).0 <= p < after[k].1;
                    if k == at {
                        assert(more[i as int].0 <= p <= more[i as int].1);
                    } else {
                        let k0 = if k < at {
                            k
                        } else {
                            k - 1
                        };
                        assert(before[k0] == after[k]);
                        assert(within(before, p));
                        let j = choose|j: int|
                            0 <= j < seen.len() && (#[trigger] seen[j]).0 <= p <= seen[j].1;
                        assert(more[j] == seen[j]);
                    }
                }
                if covers_number(more, p) {
                    let j = choose|j: int|
                        0 <= j < more.len() && (#[trigger] more[j]).0 <= p <= more[j].1;
                    if j == i {
                        assert(after[at as int].0 <= p < after[at as int].1);
                    } else {
                        assert(seen[j] == more[j]);
                        assert(covers_number(seen, p));
                        assert(within(before, p));
                        let k = choose|k: int|
                            0 <= k < before.len() && (#[trigger] before[k]).0 <= p < before[k].1;
                        let k1 = if k < at {
                            k
                        } else {
                            k + 1
                        };
                        assert(after[k1] == before[k]);
                    }
                }
            }
        }
        i = i + 1;
    }
    assert(input@.take(i as int) == input@);
    r
}

/// Merges sorted half-open pairs that overlap or touch into blocks
/// `(start, length)` with a gap between one and the next.
fn merge_blocks(sorted: &Vec<(u32, u32)>) -> (merged: Vec<(u32, u32)>)
    requires
        sorted.len() >= 1,
        forall|k: int| 0 <= k < sorted.len() ==> (#[trigger] sorted[k]).0 < sorted[k].1 <= 65536,
        forall|i: int, j: int|
            0 <= i < j < sorted.len() ==> (#[trigger] sorted[i]).0 <= (#[trigger] sorted[j]).0,
    ensures
        merged.len() >= 1,
        blocks_wf(merged@),
        forall|p: int|
            #![trigger in_blocks(merged@, p)]
            #![trigger within(sorted@, p)]
            in_blocks(merged@, p) <==> within(sorted@, p),
{
    let mut merged: Vec<(u32, u32)> = Vec::new();
    let mut cur_s: u32 = sorted[0].0;
    let mut cur_end: u32 = sorted[0].1;
    let mut i: usize = 1;
    assert forall|p: int| (in_blocks(merged@, p) || cur_s <= p < cur_end) <==> within(
        sorted@.take(1),
        p,
    ) by {
        if cur_s <= p < cur_end {
            assert(sorted@.take(1)[0].0 <= p < sorted@.take(1)[0].1);
        }
    }
    while i < sorted.len()
        invariant
            1 <= i <= sorted.len(),
            forall|k: int|
                0 <= k < sorted.len() ==> (#[trigger] sorted[k]).0 < sorted[k].1 <= 65536,
            forall|a: int, b: int|
                0 <= a < b < sorted.len() ==> (#[trigger] sorted[a]).0 <= (#[trigger] sorted[b]).0,
            blocks_wf(merged@),
            cur_s < cur_end <= 65536,
            forall|k: int| 0 <= k < merged.len() ==> (#[trigger] merged[k]).0 + merged[k].1 < cur_s,
            forall|k: int| i <= k < sorted.len() ==> cur_s <= (#[trigger] sorted[k]).0,
            forall|p: int|
                #![trigger in_blocks(merged@, p)]
                #![trigger within(sorted@.take(i as int), p)]
                (in_blocks(merged@, p) || cur_s <= p < cur_end) <==> within(
                    sorted@.take(i as int),
                    p,
                ),
        decreases sorted.len() - i,
    {
        let (s, end_excl) = sorted[i];
        let ghost before = merged@;
        let ghost old_s = cur_s;
        let ghost old_end = cur_end;
        let ghost seen = sorted@.take(i as int);
        let ghost more = sorted@.take(i + 1);
        if s <= cur_end {
            // overlapping or touching: extend
            if end_excl > cur_end {
                cur_end = end_excl;
            }
        } else {
            // a gap: close the block
            merged.push((cur_s, cur_end - cur_s));
            cur_s = s;
            cur_end = end_excl;
            proof {
                let after = merged@;
                assert forall|a: int, b: int| 0 <= a < b < after.len() implies (
                #[trigger] after[a]).0 + after[a].1 < (#[trigger] after[b]).0 by {
                    if b < before.len() {
                        assert(after[a] == before[a] && after[b] == before[b]);
                    } else {
                        assert(after[a] == before[a]);
                    }
                }
            }
        }
        proof {
            let after = merged@;
            assert forall|p: int|
                (in_blocks(after, p) || cur_s <= p < cur_end) <==> within(more, p) by {
                let was = in_blocks(before, p) || old_s <= p < old_end;
                assert(was <==> within(seen, p));
                // what was covered stays covered, and the new pair is covered
                if in_blocks(before, p) {
                    let k = choose|k: int|
                        0 <= k < before.len() && (#[trigger] before[k]).0 <= p < before[k].0
                            + before[k].1;
                    assert(after[k] == before[k]);
                    assert(in_blocks(after, p));
                }
                if old_s <= p < old_end && !(cur_s <= p < cur_end) {
                    assert(after[after.len() - 1].0 <= p < after[after.len() - 1].0
                        + after[after.len() - 1].1);
                }
                if in_blocks(after, p) && !in_blocks(before, p) {
                    let k = choose|k: int|
                        0 <= k < after.len() && (#[trigger] after[k]).0 <= p < after[k].0
                            + after[k].1;
                    if k < before.len() {
                        assert(after[k] == before[k]);
                    }
                    assert(old_s <= p < old_end);
                }
                if within(seen, p) {
                    let k = choose|k: int|
                        0 <= k < seen.len() && (#[trigger] seen[k]).0 <= p < seen[k].1;
                    assert(more[k] == seen[k]);
                    assert(within(more, p));
                }
                if s <= p < end_excl {
                    assert(more[i as int].0 <= p < more[i as int].1);
                    assert(within(more, p));
                }
                if within(more, p) && !within(seen, p) {
                    let k = choose|k: int|
                        0 <= k < more.len() && (#[trigger] more[k]).0 <= p < more[k].1;
                    if k < i {
                        assert(seen[k] == more[k]);
                    }
                    assert(s <= p < end_excl);
                }
            }
        }
        i = i + 1;
    }
    let ghost before = merged@;
    merged.push((cur_s, cur_end - cur_s));
    proof {
        let after = merged@;
        assert(sorted@.take(i as int) == sorted@);
        assert forall|a: int, b: int| 0 <= a < b < after.len() implies (#[trigger] after[a]).0
            + after[a].1 < (#[trigger] after[b]).0 by {
            if b < before.len() {
                assert(after[a] == before[a] && after[b] == before[b]);
            } else {
                assert(after[a] == before[a]);
            }
        }
        assert forall|p: int| in_blocks(after, p) <==> within(sorted@, p) by {
            if in_blocks(before, p) {
                let k = choose|k: int|
                    0 <= k < before.len() && (#[trigger] before[k]).0 <= p < before[k].0
                        + before[k].1;
                assert(after[k] == before[k]);
            }
            if cur_s <= p < cur_end {
                assert(after[after.len() - 1].0 <= p < after[after.len() - 1].0
                    + after[after.len() - 1].1);
            }
            if in_blocks(after, p) {
                let k = choose|k: int|
                    0 <= k < after.len() && (#[trigger] after[k]).0 <= p < after[k].0 + after[k].1;
                if k < before.len() {
                    assert(after[k] == before[k]);
                    assert(in_blocks(before, p));
                }
            }
        }
    }
    merged
}

/// The index of the blocks: entry `k` is the number of ports in the blocks
/// before block `k`, and the last entry the number of all ports.
fn prefix_sums(blocks: &Vec<(u32, u32)>) -> (prefix: Vec<u32>)
    requires
        blocks_wf(blocks@),
    ensures
        is_prefix_index(blocks@, prefix@),
{
    let mut prefix: Vec<u32> = Vec::new();
    prefix.push(0);
    assert(blocks_ports(blocks@.take(0)).len() == 0);
    let mut k: usize = 0;
    while k < blocks.len()
        invariant
            k <= blocks.len(),
            blocks_wf(blocks@),
            prefix.len() == k + 1,
            forall|j: int| 0 <= j <= k ==> #[trigger] prefix[j] == blocks_ports(blocks@.take(j)).len(),
        decreases blocks.len() - k,
    {
        proof {
            let upto = blocks@.take(k + 1);
            assert(upto.drop_last() == blocks@.take(k as int));
            assert(upto.last() == blocks@[k as int]);
            assert forall|i: int| 0 <= i < upto.len() implies upto[i] == blocks@[i] by {}
            lemma_blocks_ports(upto);
            assert(blocks_ports(upto).len() == blocks_ports(blocks@.take(k as int)).len()
                + blocks@[k as int].1);
        }
        let last = prefix[k];
        prefix.push(last + blocks[k].1);
        k = k + 1;
    }
    prefix
}

} // verus!
