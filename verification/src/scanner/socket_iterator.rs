//! The sockets of a scan: every address on every port.
use crate::address::{IpAddress, SocketAddress};
use vstd::arithmetic::div_mod::{
    lemma_fundamental_div_mod, lemma_fundamental_div_mod_converse, lemma_mod_bound,
};
use vstd::prelude::*;

verus! {

/// Every address on every port, port by port: all the addresses on the
/// first port, then all of them on the second, and so on. Each host thus
/// gets its first probe early.
pub open spec fn sockets(ips: Seq<IpAddress>, ports: Seq<u16>) -> Seq<SocketAddress> {
    Seq::new(
        ips.len() * ports.len(),
        |k: int|
            SocketAddress { ip: ips[k % (ips.len() as int)], port: ports[k / (ips.len() as int)] },
    )
}

/// The socket of address `i` on port `p` stands at place `p * n + i` among
/// the sockets of `n` addresses.
pub proof fn lemma_socket_place(ips: Seq<IpAddress>, ports: Seq<u16>, p: int, i: int)
    requires
        0 <= p < ports.len(),
        0 <= i < ips.len(),
    ensures
        0 <= p * ips.len() + i < sockets(ips, ports).len(),
        sockets(ips, ports)[p * ips.len() + i] == (SocketAddress { ip: ips[i], port: ports[p] }),
{
    let n = ips.len() as int;
    let k = p * n + i;
    assert(0 <= p * n) by (nonlinear_arith)
        requires
            0 <= p,
            0 <= n,
    ;
    assert(k < n * ports.len()) by (nonlinear_arith)
        requires
            k == p * n + i,
            0 <= i < n,
            0 <= p < ports.len(),
    ;
    lemma_fundamental_div_mod_converse(k, n, p, i);
}

/// Where no address and no port is given twice, no socket stands twice
/// among the sockets.
pub proof fn lemma_sockets_are_distinct(ips: Seq<IpAddress>, ports: Seq<u16>)
    requires
        ips.no_duplicates(),
        ports.no_duplicates(),
    ensures
        sockets(ips, ports).no_duplicates(),
{
    let n = ips.len() as int;
    let all = sockets(ips, ports);
    assert forall|i: int, j: int| 0 <= i < all.len() && 0 <= j < all.len() && i != j implies all[i]
        != all[j] by {
        assert(n > 0) by (nonlinear_arith)
            requires
                0 <= i < n * ports.len(),
                n >= 0,
        ;
        lemma_fundamental_div_mod(i, n);
        lemma_fundamental_div_mod(j, n);
        lemma_mod_bound(i, n);
        lemma_mod_bound(j, n);
        assert(0 <= i / n < ports.len()) by (nonlinear_arith)
            requires
                0 <= i < n * ports.len(),
                i == n * (i / n) + i % n,
                0 <= i % n < n,
        ;
        assert(0 <= j / n < ports.len()) by (nonlinear_arith)
            requires
                0 <= j < n * ports.len(),
                j == n * (j / n) + j % n,
                0 <= j % n < n,
        ;
        if i / n == j / n {
            assert(i % n != j % n);
            assert(ips[i % n] != ips[j % n]);
        } else {
            assert(ports[i / n] != ports[j / n]);
        }
    }
}

/// Yields every address on every port, port by port, each socket once.
#[derive(Debug)]
pub struct SocketIterator {
    ips: Vec<IpAddress>,
    ports: Vec<u16>,
    port_at: usize,
    ip_at: usize,
}

impl SocketIterator {
    #[verifier::type_invariant]
    spec fn well_formed(&self) -> bool {
        &&& self.port_at <= self.ports.len()
        &&& self.ip_at <= self.ips.len()
        &&& self.ips.len() > 0 ==> self.ip_at < self.ips.len()
        &&& self.port_at == self.ports.len() ==> self.ip_at == 0
    }

    /// The addresses.
    pub closed spec fn ips(&self) -> Seq<IpAddress> {
        self.ips@
    }

    /// The ports.
    pub closed spec fn ports(&self) -> Seq<u16> {
        self.ports@
    }

    /// How many sockets have been yielded.
    pub closed spec fn yielded(&self) -> nat {
        if self.ips.len() == 0 {
            0
        } else {
            (self.port_at * self.ips.len() + self.ip_at) as nat
        }
    }

    /// The sockets that have yet to be yielded, in the order in which they
    /// are.
    pub open spec fn remaining(&self) -> Seq<SocketAddress> {
        sockets(self.ips(), self.ports()).skip(self.yielded() as int)
    }

    /// An iterator over the sockets of the addresses on the ports.
    pub fn new(ips: &[IpAddress], ports: Vec<u16>) -> (it: Self)
        ensures
            it.ips() == ips@,
            it.ports() == ports@,
            it.yielded() == 0,
            it.remaining() == sockets(ips@, ports@),
    {
        let mut own: Vec<IpAddress> = Vec::new();
        let mut i: usize = 0;
        while i < ips.len()
            invariant
                i <= ips.len(),
                own@ == ips@.take(i as int),
            decreases ips.len() - i,
        {
            own.push(ips[i]);
            assert(ips@.take(i + 1) =~= ips@.take(i as int).push(ips@[i as int]));
            i = i + 1;
        }
        assert(ips@.take(i as int) == ips@);
        let it = SocketIterator { ips: own, ports, port_at: 0, ip_at: 0 };
        assert(0 * it.ips.len() + 0 == 0) by (nonlinear_arith);
        assert(sockets(ips@, ports@).skip(0) == sockets(ips@, ports@));
        it
    }

    /// Whether every socket has been yielded.
    pub fn is_done(&self) -> (r: bool)
        ensures
            r == (self.remaining().len() == 0),
            self.yielded() <= self.total(),
    {
        proof {
            use_type_invariant(self);
            let n = self.ips@.len() as int;
            let all = sockets(self.ips@, self.ports@);
            if n > 0 && self.port_at < self.ports.len() {
                lemma_socket_place(self.ips@, self.ports@, self.port_at as int, self.ip_at as int);
            }
            if n > 0 && self.port_at == self.ports.len() {
                assert(self.port_at * n + self.ip_at == all.len()) by (nonlinear_arith)
                    requires
                        self.port_at == self.ports@.len(),
                        all.len() == n * self.ports@.len(),
                        self.ip_at == 0,
                ;
            }
            if n == 0 {
                assert(all.len() == 0) by (nonlinear_arith)
                    requires
                        all.len() == n * self.ports@.len(),
                        n == 0,
                ;
            }
        }
        self.ips.len() == 0 || self.port_at >= self.ports.len()
    }

    /// How many sockets there are in all.
    pub open spec fn total(&self) -> nat {
        sockets(self.ips(), self.ports()).len()
    }

    /// Yields the next socket, or `None` when every socket has been
    /// yielded.
    pub fn next(&mut self) -> (r: Option<SocketAddress>)
        ensures
            final(self).ips() == old(self).ips(),
            final(self).ports() == old(self).ports(),
            final(self).yielded() <= final(self).total(),
            match r {
                Some(socket) => old(self).remaining().len() > 0 && socket == old(self).remaining()[0] && final(self).remaining() == old(self).remaining().drop_first()
                    && final(self).yielded() == old(self).yielded() + 1,
                None => old(self).remaining().len() == 0 && final(self).yielded() == old(self).yielded(),
            },
    {
        proof {
            use_type_invariant(&*self);
        }
        let n = self.ips.len();
        let ghost all = sockets(self.ips@, self.ports@);
        let ghost place = self.yielded() as int;
        if n == 0 {
            assert(all.len() == 0) by (nonlinear_arith)
                requires
                    all.len() == self.ips@.len() * self.ports@.len(),
                    self.ips@.len() == 0,
            ;
            return None;
        }
        if self.port_at >= self.ports.len() {
            assert(place >= all.len()) by (nonlinear_arith)
                requires
                    place == self.port_at * n + self.ip_at,
                    self.port_at == self.ports@.len(),
                    all.len() == n * self.ports@.len(),
                    self.ip_at >= 0,
            ;
            return None;
        }
        let socket = SocketAddress { ip: self.ips[self.ip_at], port: self.ports[self.port_at] };
        proof {
            lemma_socket_place(self.ips@, self.ports@, self.port_at as int, self.ip_at as int);
            assert(all.skip(place)[0] == all[place]);
            assert(all.skip(place).drop_first() == all.skip(place + 1));
            assert((self.port_at + 1) * n + 0 == self.port_at * n + n) by (nonlinear_arith);
        }
        if self.ip_at + 1 == n {
            self.ip_at = 0;
            self.port_at = self.port_at + 1;
        } else {
            self.ip_at = self.ip_at + 1;
        }
        Some(socket)
    }
}

} // verus!
