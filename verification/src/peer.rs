//! Network addresses of clients, and a table keyed by them.

use vstd::prelude::*;

verus! {

/// A client's address. The number is the address read most significant octet
/// first.
#[derive(Debug, Copy, Clone, PartialEq, Eq, Structural)]
pub enum IpAddr {
    V4(u32),
    V6(u128),
}

impl IpAddr {
    /// Every version 4 address comes before every version 6 address; within a
    /// version the octets decide, the most significant one first.
    pub open spec fn precedes(self, other: IpAddr) -> bool {
        match (self, other) {
            (IpAddr::V4(a), IpAddr::V4(b)) => a < b,
            (IpAddr::V4(_), IpAddr::V6(_)) => true,
            (IpAddr::V6(_), IpAddr::V4(_)) => false,
            (IpAddr::V6(a), IpAddr::V6(b)) => a < b,
        }
    }

    /// Whether this address comes before the other one.
    pub fn is_before(&self, other: &IpAddr) -> (r: bool)
        ensures
            r == self.precedes(*other),
    {
        match (self, other) {
            (IpAddr::V4(a), IpAddr::V4(b)) => *a < *b,
            (IpAddr::V4(_), IpAddr::V6(_)) => true,
            (IpAddr::V6(_), IpAddr::V4(_)) => false,
            (IpAddr::V6(a), IpAddr::V6(b)) => *a < *b,
        }
    }
}

/// The remote end of a connection: its address, and that address in the usual
/// textual notation.
pub struct Peer {
    pub ip: IpAddr,
    pub text: String,
}

/// Whether two optional addresses are the same.
pub fn same_addr(a: Option<IpAddr>, b: Option<IpAddr>) -> (r: bool)
    ensures
        r == (a == b),
{
    match (a, b) {
        (Some(x), Some(y)) => x == y,
        (None, None) => true,
        _ => false,
    }
}

/// A table from addresses to values, with at most one entry per address.
pub struct AddrMap<V> {
    entries: Vec<(IpAddr, V)>,
}

/// Whether the entries hold an address.
spec fn holds<V>(entries: Seq<(IpAddr, V)>, ip: IpAddr) -> bool {
    exists|i: int| 0 <= i < entries.len() && #[trigger] entries[i].0 == ip
}

/// The place of an address among the entries.
spec fn place<V>(entries: Seq<(IpAddr, V)>, ip: IpAddr) -> int {
    choose|i: int| 0 <= i < entries.len() && #[trigger] entries[i].0 == ip
}

impl<V> View for AddrMap<V> {
    type V = Map<IpAddr, V>;

    closed spec fn view(&self) -> Map<IpAddr, V> {
        Map::new(
            |ip: IpAddr| holds(self.entries@, ip),
            |ip: IpAddr| self.entries@[place(self.entries@, ip)].1,
        )
    }
}

/// What a table gives for an address.
pub open spec fn lookup<V>(table: Map<IpAddr, V>, ip: IpAddr) -> Option<V> {
    if table.contains_key(ip) {
        Some(table[ip])
    } else {
        None
    }
}

impl<V: Copy> AddrMap<V> {
    /// No address stands in the table twice.
    pub closed spec fn wf(self) -> bool {
        forall|i: int, j: int|
            0 <= i < self.entries@.len() && 0 <= j < self.entries@.len()
                && #[trigger] self.entries@[i].0 == #[trigger] self.entries@[j].0 ==> i == j
    }

    /// An empty table.
    pub fn new() -> (table: AddrMap<V>)
        ensures
            table.wf(),
            table@ == Map::<IpAddr, V>::empty(),
    {
        let table = AddrMap { entries: Vec::new() };
        proof {
            assert(table@ =~= Map::<IpAddr, V>::empty());
        }
        table
    }

    fn find(&self, ip: &IpAddr) -> (r: Option<usize>)
        requires
            self.wf(),
        ensures
            match r {
                Some(i) => {
                    &&& i < self.entries@.len()
                    &&& self.entries@[i as int].0 == *ip
                    &&& self@.contains_key(*ip)
                    &&& self@[*ip] == self.entries@[i as int].1
                },
                None => {
                    &&& !self@.contains_key(*ip)
                    &&& forall|j: int|
                        0 <= j < self.entries@.len() ==> #[trigger] self.entries@[j].0 != *ip
                },
            },
    {
        let mut i: usize = 0;
        while i < self.entries.len()
            invariant
                self.wf(),
                i <= self.entries@.len(),
                forall|j: int| 0 <= j < i ==> #[trigger] self.entries@[j].0 != *ip,
            decreases self.entries@.len() - i,
        {
            if self.entries[i].0 == *ip {
                proof {
                    assert(holds(self.entries@, *ip));
                    let k = place(self.entries@, *ip);
                    assert(self.entries@[k].0 == self.entries@[i as int].0);
                }
                return Some(i);
            }
            i = i + 1;
        }
        None
    }

    /// The value of an address, if the table holds it.
    pub fn get(&self, ip: &IpAddr) -> (r: Option<V>)
        requires
            self.wf(),
        ensures
            r == lookup(self@, *ip),
    {
        match self.find(ip) {
            Some(i) => Some(self.entries[i].1),
            None => None,
        }
    }

    /// Sets the value of an address, in place of any earlier one.
    pub fn insert(&mut self, ip: IpAddr, value: V)
        requires
            old(self).wf(),
        ensures
            final(self).wf(),
            final(self)@ == old(self)@.insert(ip, value),
    {
        match self.find(&ip) {
            Some(i) => {
                self.entries.set(i, (ip, value));
                proof {
                    lemma_view(*self);
                    lemma_view(*old(self));
                    assert forall|k: IpAddr|
                        holds(self.entries@, k) == holds(old(self).entries@, k) by {
                        if holds(old(self).entries@, k) {
                            let j = place(old(self).entries@, k);
                            assert(self.entries@[j].0 == k);
                        }
                        if holds(self.entries@, k) {
                            let j = place(self.entries@, k);
                            assert(old(self).entries@[j].0 == k);
                        }
                    }
                    assert forall|k: IpAddr| #[trigger]
                        self@.contains_key(k) implies self@[k] == old(self)@.insert(
                        ip,
                        value,
                    )[k] by {
                        let j = place(self.entries@, k);
                        assert(self.entries@[j].0 == k);
                        assert(old(self).entries@[j].0 == k);
                        assert(self.entries@[i as int].0 == ip);
                    }
                    assert(self@ =~= old(self)@.insert(ip, value));
                }
            },
            None => {
                self.entries.push((ip, value));
                proof {
                    lemma_view(*self);
                    lemma_view(*old(self));
                    let last = old(self).entries@.len() as int;
                    assert(self.entries@[last].0 == ip);
                    assert forall|k: IpAddr|
                        holds(self.entries@, k) == (k == ip || holds(old(self).entries@, k)) by {
                        if holds(old(self).entries@, k) {
                            let j = place(old(self).entries@, k);
                            assert(self.entries@[j].0 == k);
                        }
                        if holds(self.entries@, k) && k != ip {
                            let j = place(self.entries@, k);
                            assert(old(self).entries@[j].0 == k);
                        }
                    }
                    assert forall|k: IpAddr| #[trigger]
                        self@.contains_key(k) implies self@[k] == old(self)@.insert(
                        ip,
                        value,
                    )[k] by {
                        let j = place(self.entries@, k);
                        assert(self.entries@[j].0 == k);
                        if k != ip {
                            assert(old(self).entries@[j].0 == k);
                        }
                    }
                    assert(self@ =~= old(self)@.insert(ip, value));
                }
            },
        }
    }
}

/// An entry's value is what the table gives for its address.
proof fn lemma_view<V: Copy>(table: AddrMap<V>)
    requires
        table.wf(),
    ensures
        forall|i: int|
            0 <= i < table.entries@.len() ==> table@.contains_key(#[trigger] table.entries@[i].0)
                && table@[table.entries@[i].0] == table.entries@[i].1,
{
    assert forall|i: int| 0 <= i < table.entries@.len() implies table@.contains_key(
        #[trigger] table.entries@[i].0,
    ) && table@[table.entries@[i].0] == table.entries@[i].1 by {
        let ip = table.entries@[i].0;
        assert(holds(table.entries@, ip));
        let k = place(table.entries@, ip);
        assert(table.entries@[k].0 == table.entries@[i].0);
    }
}

} // verus!
