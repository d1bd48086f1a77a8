use vstd::prelude::*;

use crate::keyed::{
    distinct_keys, dropped, law_drop_keeps_keys_distinct, law_store_keeps_keys_distinct, lemma_slot,
    listed, lookup, slot, stored,
};
use crate::peer::PeerAddr;

verus! {

/// The open connections of the server, each stored under the address of the
/// peer at its other end.
pub struct ConnectionInfo<S> {
    info: Vec<(PeerAddr, S)>,
}

impl<S> View for ConnectionInfo<S> {
    type V = Seq<(PeerAddr, S)>;

    /// The entries, in the order in which they were first stored.
    closed spec fn view(&self) -> Seq<(PeerAddr, S)> {
        self.info@
    }
}

impl<S> ConnectionInfo<S> {
    /// No address has two entries.
    pub open spec fn wf(&self) -> bool {
        distinct_keys(self@)
    }

    /// An empty table.
    pub fn new() -> (res: ConnectionInfo<S>)
        ensures
            res.wf(),
            res@ == Seq::<(PeerAddr, S)>::empty(),
    {
        ConnectionInfo { info: Vec::new() }
    }

    /// The place of `addr`'s entry.
    fn find(&self, addr: PeerAddr) -> (res: Option<usize>)
        requires
            self.wf(),
        ensures
            match res {
                Some(i) => i < self@.len() && listed(self@, addr) && slot(self@, addr) == i
                    && self@[i as int].0 == addr,
                None => !listed(self@, addr),
            },
    {
        let mut i: usize = 0;
        while i < self.info.len()
            invariant
                self.wf(),
                i <= self@.len(),
                self@.len() == self.info@.len(),
                forall|k: int| 0 <= k < i ==> self@[k].0 != addr,
            decreases self@.len() - i,
        {
            if self.info[i].0 == addr {
                proof {
                    lemma_slot(self@, i as int);
                }
                return Some(i);
            }
            i = i + 1;
        }
        None
    }

    /// The number of open connections.
    pub fn len(&self) -> (res: usize)
        ensures
            res == self@.len(),
    {
        self.info.len()
    }

    /// Stores `value` for `addr` and gives back the value it replaces, if any.
    pub fn insert(&mut self, addr: PeerAddr, value: S) -> (res: Option<S>)
        requires
            old(self).wf(),
        ensures
            final(self).wf(),
            final(self)@ == stored(old(self)@, addr, value),
            res == lookup(old(self)@, addr),
    {
        let ghost before = self@;
        proof {
            law_store_keeps_keys_distinct(before, addr, value);
        }
        match self.find(addr) {
            Some(i) => {
                let (_, previous) = self.info.remove(i);
                self.info.insert(i, (addr, value));
                assert(self@ =~= before.update(i as int, (addr, value)));
                Some(previous)
            },
            None => {
                self.info.push((addr, value));
                None
            },
        }
    }

    /// Drops the entry of `addr` and gives back its value, if it had one.
    pub fn remove(&mut self, addr: PeerAddr) -> (res: Option<S>)
        requires
            old(self).wf(),
        ensures
            final(self).wf(),
            final(self)@ == dropped(old(self)@, addr),
            res == lookup(old(self)@, addr),
    {
        proof {
            law_drop_keeps_keys_distinct(self@, addr);
        }
        match self.find(addr) {
            Some(i) => {
                let (_, previous) = self.info.remove(i);
                Some(previous)
            },
            None => None,
        }
    }

    /// The value stored for `addr`, if any.
    pub fn get(&self, addr: PeerAddr) -> (res: Option<&S>)
        requires
            self.wf(),
        ensures
            match res {
                Some(r) => lookup(self@, addr) == Some(*r),
                None => lookup(self@, addr) is None,
            },
    {
        match self.find(addr) {
            Some(i) => Some(&self.info[i].1),
            None => None,
        }
    }

    /// The addresses that have an entry, in table order.
    pub fn addrs(&self) -> (res: Vec<PeerAddr>)
        requires
            self.wf(),
        ensures
            res@ == self@.map_values(|e: (PeerAddr, S)| e.0),
    {
        let mut res: Vec<PeerAddr> = Vec::new();
        let mut i: usize = 0;
        while i < self.info.len()
            invariant
                i <= self@.len(),
                self@.len() == self.info@.len(),
                res@ =~= self@.subrange(0, i as int).map_values(|e: (PeerAddr, S)| e.0),
            decreases self@.len() - i,
        {
            res.push(self.info[i].0);
            assert(self@.subrange(0, i + 1) =~= self@.subrange(0, i as int).push(self@[i as int]));
            i = i + 1;
        }
        assert(self@.subrange(0, i as int) =~= self@);
        res
    }
}

} // verus!
