//! Sequences of entries keyed by peer address, with no address twice: what
//! such a table holds for an address, and how storing and dropping change it.

use vstd::prelude::*;

use crate::peer::PeerAddr;

verus! {

/// `addr` has an entry in the table.
pub open spec fn listed<S>(table: Seq<(PeerAddr, S)>, addr: PeerAddr) -> bool {
    exists|i: int| 0 <= i < table.len() && #[trigger] table[i].0 == addr
}

/// The place of `addr`'s entry in the table, where it has one.
pub open spec fn slot<S>(table: Seq<(PeerAddr, S)>, addr: PeerAddr) -> int {
    choose|i: int| 0 <= i < table.len() && #[trigger] table[i].0 == addr
}

/// The value stored for `addr`, if any.
pub open spec fn lookup<S>(table: Seq<(PeerAddr, S)>, addr: PeerAddr) -> Option<S> {
    if listed(table, addr) {
        Some(table[slot(table, addr)].1)
    } else {
        None
    }
}

/// No address has two entries.
pub open spec fn distinct_keys<S>(table: Seq<(PeerAddr, S)>) -> bool {
    forall|i: int, j: int|
        0 <= i < table.len() && 0 <= j < table.len() && i != j ==> #[trigger] table[i].0
            != #[trigger] table[j].0
}

/// The table after storing `value` for `addr`: the entry of `addr` is
/// replaced in place where there is one, else a new entry is added at the end.
pub open spec fn stored<S>(table: Seq<(PeerAddr, S)>, addr: PeerAddr, value: S) -> Seq<(PeerAddr, S)> {
    if listed(table, addr) {
        table.update(slot(table, addr), (addr, value))
    } else {
        table.push((addr, value))
    }
}

/// The table after dropping the entry of `addr`, if it has one.
pub open spec fn dropped<S>(table: Seq<(PeerAddr, S)>, addr: PeerAddr) -> Seq<(PeerAddr, S)> {
    if listed(table, addr) {
        table.remove(slot(table, addr))
    } else {
        table
    }
}

/// In a table without repeated addresses, the entry at `i` is the one that
/// `slot` finds for its address.
pub proof fn lemma_slot<S>(table: Seq<(PeerAddr, S)>, i: int)
    requires
        distinct_keys(table),
        0 <= i < table.len(),
    ensures
        listed(table, table[i].0),
        slot(table, table[i].0) == i,
        lookup(table, table[i].0) == Some(table[i].1),
{
    assert(listed(table, table[i].0));
    let j = slot(table, table[i].0);
    assert(table[j].0 == table[i].0);
}

/// Law: storing a value never makes an address appear twice.
pub proof fn law_store_keeps_keys_distinct<S>(table: Seq<(PeerAddr, S)>, addr: PeerAddr, value: S)
    requires
        distinct_keys(table),
    ensures
        distinct_keys(stored(table, addr, value)),
{
    let after = stored(table, addr, value);
    if listed(table, addr) {
        let i = slot(table, addr);
        assert forall|a: int, b: int|
            0 <= a < after.len() && 0 <= b < after.len() && a != b implies #[trigger] after[a].0
            != #[trigger] after[b].0 by {
            if a != i {
                assert(after[a] == table[a]);
            }
            if b != i {
                assert(after[b] == table[b]);
            }
        }
    } else {
        let n = table.len() as int;
        assert forall|a: int, b: int|
            0 <= a < after.len() && 0 <= b < after.len() && a != b implies #[trigger] after[a].0
            != #[trigger] after[b].0 by {
            if a < n {
                assert(after[a] == table[a]);
            }
            if b < n {
                assert(after[b] == table[b]);
            }
        }
    }
}

/// Law: dropping an entry never makes an address appear twice.
pub proof fn law_drop_keeps_keys_distinct<S>(table: Seq<(PeerAddr, S)>, addr: PeerAddr)
    requires
        distinct_keys(table),
    ensures
        distinct_keys(dropped(table, addr)),
{
    let after = dropped(table, addr);
    if listed(table, addr) {
        let i = slot(table, addr);
        assert forall|a: int, b: int|
            0 <= a < after.len() && 0 <= b < after.len() && a != b implies #[trigger] after[a].0
            != #[trigger] after[b].0 by {
            let a2 = if a < i { a } else { a + 1 };
            let b2 = if b < i { b } else { b + 1 };
            assert(after[a] == table[a2]);
            assert(after[b] == table[b2]);
        }
    }
}

/// Law: the value stored for an address is what a later lookup of that
/// address gives, and every other address keeps its value.
pub proof fn law_store_then_lookup<S>(table: Seq<(PeerAddr, S)>, addr: PeerAddr, value: S, other: PeerAddr)
    requires
        distinct_keys(table),
    ensures
        lookup(stored(table, addr, value), addr) == Some(value),
        other != addr ==> lookup(stored(table, addr, value), other) == lookup(table, other),
{
    let after = stored(table, addr, value);
    law_store_keeps_keys_distinct(table, addr, value);
    if listed(table, addr) {
        let i = slot(table, addr);
        lemma_slot(after, i);
        if other == addr {
        } else if listed(table, other) {
            let j = slot(table, other);
            assert(after[j] == table[j]);
            lemma_slot(after, j);
        } else {
            if listed(after, other) {
                let j = slot(after, other);
                assert(after[j] == table[j]);
            }
        }
    } else {
        let n = table.len() as int;
        lemma_slot(after, n);
        if other == addr {
        } else if listed(table, other) {
            let j = slot(table, other);
            assert(after[j] == table[j]);
            lemma_slot(after, j);
        } else {
            if listed(after, other) {
                let j = slot(after, other);
                assert(after[j] == table[j]);
            }
        }
    }
}

/// Law: after the entry of an address is dropped, a lookup of it finds
/// nothing, and every other address keeps its value.
pub proof fn law_drop_then_lookup<S>(table: Seq<(PeerAddr, S)>, addr: PeerAddr, other: PeerAddr)
    requires
        distinct_keys(table),
    ensures
        lookup(dropped(table, addr), addr) is None,
        other != addr ==> lookup(dropped(table, addr), other) == lookup(table, other),
{
    let after = dropped(table, addr);
    law_drop_keeps_keys_distinct(table, addr);
    if listed(table, addr) {
        let i = slot(table, addr);
        if listed(after, addr) {
            let j = slot(after, addr);
            let j2 = if j < i { j } else { j + 1 };
            assert(after[j] == table[j2]);
        }
        if other == addr {
        } else if listed(table, other) {
            let j = slot(table, other);
            let j1 = if j < i { j } else { j - 1 };
            assert(after[j1] == table[j]);
            lemma_slot(after, j1);
        } else {
            if listed(after, other) {
                let j = slot(after, other);
                let j2 = if j < i { j } else { j + 1 };
                assert(after[j] == table[j2]);
            }
        }
    }
}

/// Law: storing a value for an address that had no entry and then dropping
/// it leaves the table as it was.
pub proof fn law_store_then_drop_restores<S>(table: Seq<(PeerAddr, S)>, addr: PeerAddr, value: S)
    requires
        distinct_keys(table),
        !listed(table, addr),
    ensures
        dropped(stored(table, addr, value), addr) == table,
{
    let after = stored(table, addr, value);
    law_store_keeps_keys_distinct(table, addr, value);
    lemma_slot(after, table.len() as int);
    assert(after.remove(table.len() as int) =~= table);
}

} // verus!
