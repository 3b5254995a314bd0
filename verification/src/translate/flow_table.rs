//! The connection table: what is tracked for each 5-tuple.

use std::collections::HashMap;
use vstd::prelude::*;
use crate::addr::Ipv4Addr;
use crate::FiveTuple;

verus! {

broadcast use vstd::std_specs::hash::group_hash_axioms;

/// What is tracked for one flow.
#[derive(Clone, Copy, Debug)]
pub struct Binding {
    /// The original private endpoint (for SNAT reverse), the NAT address (for SNAT
    /// forward) or the external endpoint (for DNAT reverse).
    pub ip: Ipv4Addr,
    pub port: u16,
    pub last_seen: u64,
}

/// The tuple as one number: its fields side by side, 104 bits in all.
pub open spec fn key_of(t: FiveTuple) -> u128 {
    (t.src_ip.bits * 0x100_0000_0000_0000_0000 + t.dst_ip.bits * 0x100_0000_0000 + t.protocol
        * 0x1_0000_0000 + t.src_port * 0x1_0000 + t.dst_port) as u128
}

/// The tuple that the number `k` stands for.
pub open spec fn tuple_at(k: u128) -> FiveTuple {
    FiveTuple {
        src_ip: Ipv4Addr { bits: ((k / 0x100_0000_0000_0000_0000) % 0x1_0000_0000) as u32 },
        dst_ip: Ipv4Addr { bits: ((k / 0x100_0000_0000) % 0x1_0000_0000) as u32 },
        protocol: ((k / 0x1_0000_0000) % 0x100) as u8,
        src_port: ((k / 0x1_0000) % 0x1_0000) as u16,
        dst_port: (k % 0x1_0000) as u16,
    }
}

proof fn lemma_tuple_at_key(t: FiveTuple)
    ensures
        tuple_at(key_of(t)) == t,
{
    let k = key_of(t);
    let k1 = k / 0x1_0000;
    let k2 = k1 / 0x1_0000;
    let k3 = k2 / 0x100;
    let k4 = k3 / 0x1_0000_0000;
    assert(k1 == t.src_ip.bits * 0x100_0000_0000_0000 + t.dst_ip.bits * 0x100_0000 + t.protocol
        * 0x1_0000 + t.src_port);
    assert(k2 == t.src_ip.bits * 0x100_0000_0000 + t.dst_ip.bits * 0x100 + t.protocol);
    assert(k3 == t.src_ip.bits * 0x1_0000_0000 + t.dst_ip.bits);
    assert(k4 == t.src_ip.bits);
    assert(k / 0x1_0000_0000 == k2);
    assert(k / 0x100_0000_0000 == k3);
    assert(k / 0x100_0000_0000_0000_0000 == k4);
}

/// A map from tuples to bindings.
pub struct FlowTable {
    m: HashMap<u128, Binding>,
}

/// The entries of `m` that were seen at `cutoff` or later.
pub open spec fn kept(m: Map<FiveTuple, Binding>, cutoff: u64) -> Map<FiveTuple, Binding> {
    Map::new(|t: FiveTuple| m.contains_key(t) && m[t].last_seen >= cutoff, |t: FiveTuple| m[t])
}

/// Whether `m` holds an entry with port `p` that was last seen before `cutoff`.
pub open spec fn frees(m: Map<FiveTuple, Binding>, cutoff: u64, p: u16) -> bool {
    exists|t: FiveTuple| #[trigger]
        m.contains_key(t) && m[t].last_seen < cutoff && m[t].port == p
}

spec fn key_frees(m: Map<u128, Binding>, cutoff: u64, p: u16) -> bool {
    exists|k: u128| #[trigger] m.contains_key(k) && m[k].last_seen < cutoff && m[k].port == p
}

impl View for FlowTable {
    type V = Map<FiveTuple, Binding>;

    closed spec fn view(&self) -> Map<FiveTuple, Binding> {
        Map::new(
            |t: FiveTuple| self.m@.contains_key(key_of(t)),
            |t: FiveTuple| self.m@[key_of(t)],
        )
    }
}

impl FlowTable {
    /// Every key stands for a tuple.
    pub closed spec fn wf(&self) -> bool {
        forall|k: u128| #[trigger] self.m@.contains_key(k) ==> key_of(tuple_at(k)) == k
    }

    proof fn lemma_len(&self)
        requires
            self.wf(),
        ensures
            self@.dom().finite(),
            self@.len() == self.m@.len(),
    {
        let f = |k: u128| tuple_at(k);
        let keys = self.m@.dom();
        assert forall|t: FiveTuple| self@.dom().contains(t) <==> keys.map(f).contains(t) by {
            lemma_tuple_at_key(t);
            if self@.dom().contains(t) {
                assert(keys.contains(key_of(t)) && f(key_of(t)) == t);
            }
            if keys.map(f).contains(t) {
                let k = choose|k: u128| keys.contains(k) && f(k) == t;
                assert(self.m@.contains_key(k));
            }
        }
        assert(self@.dom() =~= keys.map(f));
        assert forall|a: u128, b: u128|
            keys.contains(a) && keys.contains(b) && #[trigger] f(a) == #[trigger] f(b) implies a
            == b by {
            assert(self.m@.contains_key(a) && self.m@.contains_key(b));
        }
        vstd::set_lib::lemma_map_size(keys, self@.dom(), f);
    }

    /// An empty table.
    pub fn new() -> (r: Self)
        ensures
            r.wf(),
            r@ == Map::<FiveTuple, Binding>::empty(),
    {
        let r: FlowTable = FlowTable { m: HashMap::new() };
        assert(r@ =~= Map::<FiveTuple, Binding>::empty());
        r
    }

    fn key(t: &FiveTuple) -> (r: u128)
        ensures
            r == key_of(*t),
    {
        t.src_ip.bits as u128 * 0x100_0000_0000_0000_0000 + t.dst_ip.bits as u128 * 0x100_0000_0000
            + t.protocol as u128 * 0x1_0000_0000 + t.src_port as u128 * 0x1_0000 + t.dst_port as u128
    }

    /// The binding of `t`.
    pub fn get(&self, t: &FiveTuple) -> (r: Option<Binding>)
        ensures
            r == if self@.contains_key(*t) {
                Some(self@[*t])
            } else {
                None
            },
    {
        let k: u128 = FlowTable::key(t);
        match self.m.get(&k) {
            Some(b) => Some(*b),
            None => None,
        }
    }

    /// Binds `t` to `b`, in place of what it was bound to.
    pub fn insert(&mut self, t: FiveTuple, b: Binding)
        requires
            old(self).wf(),
        ensures
            final(self).wf(),
            final(self)@ == old(self)@.insert(t, b),
    {
        let k: u128 = FlowTable::key(&t);
        self.m.insert(k, b);
        proof {
            lemma_tuple_at_key(t);
            assert forall|u: FiveTuple| u != t implies key_of(u) != k by {
                lemma_tuple_at_key(u);
            }
        }
        assert(self@ =~= old(self)@.insert(t, b));
    }

    /// The number of tuples bound.
    pub fn len(&self) -> (r: usize)
        requires
            self.wf(),
        ensures
            self@.dom().finite(),
            r == self@.len(),
    {
        proof {
            self.lemma_len();
        }
        self.m.len()
    }

    /// Evicts the entries last seen before `cutoff`. Returns their ports, one for each
    /// entry, in no particular order.
    pub fn evict(&mut self, cutoff: u64) -> (r: Vec<u16>)
        requires
            old(self).wf(),
        ensures
            final(self).wf(),
            final(self)@ == kept(old(self)@, cutoff),
            r@.len() == old(self)@.len() - final(self)@.len(),
            forall|p: u16| #[trigger] r@.contains(p) <==> frees(old(self)@, cutoff, p),
    {
        let ghost was = *self;
        let ghost m0 = self.m@;
        let mut keys: Vec<u128> = Vec::new();
        for k in it: self.m.keys()
            invariant
                it.seq().unref().to_set() == m0.dom(),
                it.seq().no_duplicates(),
                keys@ == it.seq().unref().take(it.index()),
                it.index() == it.seq().len() ==> keys@ == it.seq().unref(),
        {
            keys.push(*k);
            assert(keys@ =~= it.seq().unref().take(it.index() + 1));
        }
        let mut freed: Vec<u16> = Vec::new();
        let n: usize = keys.len();
        let mut i: usize = 0;
        while i < n
            invariant
                n == keys@.len(),
                i <= n,
                m0.dom().finite(),
                self.m@.dom().finite(),
                keys@.no_duplicates(),
                keys@.to_set() == m0.dom(),
                forall|k: u128| #[trigger]
                    self.m@.contains_key(k) ==> m0.contains_key(k) && self.m@[k] == m0[k],
                forall|k: u128| #[trigger]
                    m0.contains_key(k) && m0[k].last_seen >= cutoff ==> self.m@.contains_key(k),
                forall|j: int|
                    0 <= j < i && m0[#[trigger] keys@[j]].last_seen < cutoff
                        ==> !self.m@.contains_key(keys@[j]),
                forall|j: int| i <= j < n ==> self.m@.contains_key(#[trigger] keys@[j]),
                forall|x: int|
                    0 <= x < freed@.len() ==> key_frees(m0, cutoff, #[trigger] freed@[x]),
                forall|j: int|
                    0 <= j < i && m0[#[trigger] keys@[j]].last_seen < cutoff ==> freed@.contains(
                        m0[keys@[j]].port,
                    ),
                freed@.len() + self.m@.len() == m0.len(),
            decreases n - i,
        {
            let k: u128 = keys[i];
            assert(keys@.to_set().contains(k));
            let ghost freed0 = freed@;
            match self.m.get(&k) {
                Some(b) => {
                    let b: Binding = *b;
                    if b.last_seen < cutoff {
                        self.m.remove(&k);
                        freed.push(b.port);
                        proof {
                            assert(freed@.last() == b.port);
                            assert(key_frees(m0, cutoff, b.port)) by {
                                assert(m0.contains_key(k));
                            }
                            assert forall|p: u16| freed0.contains(p) implies freed@.contains(p) by {
                                let x = choose|x: int| 0 <= x < freed0.len() && freed0[x] == p;
                                assert(freed@[x] == p);
                            }
                        }
                    }
                },
                None => {},
            }
            i = i + 1;
        }
        proof {
            assert forall|k: u128| #[trigger] m0.contains_key(k) implies exists|j: int|
                0 <= j < n && keys@[j] == k by {
                assert(keys@.to_set().contains(k));
            }
            assert(self@ =~= kept(was@, cutoff)) by {
                assert forall|t: FiveTuple|
                    self@.contains_key(t) <==> kept(was@, cutoff).contains_key(t) by {
                    if self.m@.contains_key(key_of(t)) && m0[key_of(t)].last_seen < cutoff {
                        let j = choose|j: int| 0 <= j < n && keys@[j] == key_of(t);
                        assert(!self.m@.contains_key(keys@[j]));
                    }
                }
            }
            was.lemma_len();
            self.lemma_len();
            assert forall|p: u16| #[trigger] freed@.contains(p) <==> frees(was@, cutoff, p) by {
                if freed@.contains(p) {
                    let x = choose|x: int| 0 <= x < freed@.len() && freed@[x] == p;
                    assert(key_frees(m0, cutoff, freed@[x]));
                    let k = choose|k: u128| #[trigger]
                        m0.contains_key(k) && m0[k].last_seen < cutoff && m0[k].port == p;
                    assert(was.m@.contains_key(k));
                    assert(was@.contains_key(tuple_at(k)));
                }
                if frees(was@, cutoff, p) {
                    let t = choose|t: FiveTuple| #[trigger]
                        was@.contains_key(t) && was@[t].last_seen < cutoff && was@[t].port == p;
                    assert(m0.contains_key(key_of(t)));
                    let j = choose|j: int| 0 <= j < n && keys@[j] == key_of(t);
                    assert(freed@.contains(m0[keys@[j]].port));
                }
            }
        }
        freed
    }
}

} // verus!
