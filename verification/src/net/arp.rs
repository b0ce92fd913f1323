//! The ARP table: which MAC address each neighbor IPv4 address resolves
//! to, and which frames wait for an address that is being resolved.
//!
//! Waiting frames are named by the ids under which their owner keeps them.
use std::collections::VecDeque;

use hashbrown::HashMap;
use vstd::prelude::*;

use super::packet::Ipv4Addr;

verus! {

pub enum ArpEntry {
    /// The address resolves to `mac`.
    Resolved { mac: [u8; 6] },
    /// A request is out; these frames wait for the answer, oldest first.
    Pending { txs: VecDeque<u64> },
}

/// The entries of an ARP table, by address, in a `hashbrown::HashMap`.
/// Verus sees nothing inside: what the map holds is `arp_entry_map`, and the
/// wrappers below state what each map operation does to it.
#[verifier::external_body]
pub struct ArpEntries {
    map: HashMap<u32, ArpEntry>,
}

/// What an `ArpEntries` holds: the entry of each address in it.
pub uninterp spec fn arp_entry_map(entries: ArpEntries) -> Map<u32, ArpEntry>;

/// `hashbrown::HashMap::new`: claimed to give a map with no entries.
#[verifier::external_body]
fn entries_new() -> (r: ArpEntries)
    ensures
        arp_entry_map(r).is_empty(),
{
    ArpEntries { map: HashMap::new() }
}

/// `hashbrown::HashMap::get`: claimed to give the entry under `ip`, if
/// there is one.
#[verifier::external_body]
fn entries_get(entries: &ArpEntries, ip: u32) -> (r: Option<&ArpEntry>)
    ensures
        match r {
            Some(entry) => arp_entry_map(*entries).contains_key(ip) && *entry == arp_entry_map(
                *entries,
            )[ip],
            None => !arp_entry_map(*entries).contains_key(ip),
        },
{
    entries.map.get(&ip)
}

/// `hashbrown::HashMap::insert`: claimed to set the entry under `ip` and to
/// return the one it replaced, if any.
#[verifier::external_body]
fn entries_insert(entries: &mut ArpEntries, ip: u32, entry: ArpEntry) -> (r: Option<ArpEntry>)
    ensures
        arp_entry_map(*final(entries)) == arp_entry_map(*old(entries)).insert(ip, entry),
        match r {
            Some(previous) => arp_entry_map(*old(entries)).contains_key(ip) && previous
                == arp_entry_map(*old(entries))[ip],
            None => !arp_entry_map(*old(entries)).contains_key(ip),
        },
{
    entries.map.insert(ip, entry)
}

/// `hashbrown::HashMap::remove`: claimed to take the entry under `ip` out
/// and return it, if there is one.
#[verifier::external_body]
fn entries_remove(entries: &mut ArpEntries, ip: u32) -> (r: Option<ArpEntry>)
    ensures
        arp_entry_map(*final(entries)) == arp_entry_map(*old(entries)).remove(ip),
        match r {
            Some(previous) => arp_entry_map(*old(entries)).contains_key(ip) && previous
                == arp_entry_map(*old(entries))[ip],
            None => !arp_entry_map(*old(entries)).contains_key(ip),
        },
{
    entries.map.remove(&ip)
}

pub struct ArpTable {
    entries: ArpEntries,
}

/// A guard that enqueues frames on the pending entry of `ip`.
pub struct Inserter<'a> {
    pub table: &'a mut ArpTable,
    pub ip: u32,
}

/// The entry `table` has for `ip`, when it is pending, with its queue.
pub open spec fn pending_txs(table: Map<u32, ArpEntry>, ip: u32) -> Option<Seq<u64>> {
    if table.contains_key(ip) {
        match table[ip] {
            ArpEntry::Pending { txs } => Some(txs@),
            ArpEntry::Resolved { .. } => None,
        }
    } else {
        None
    }
}

/// The frames waiting for `ip` in `table`, oldest first: none unless its
/// entry is pending.
pub open spec fn waiting_frames(table: Map<u32, ArpEntry>, ip: u32) -> Seq<u64> {
    match pending_txs(table, ip) {
        Some(txs) => txs,
        None => Seq::empty(),
    }
}

/// One frame `tx` queued for the unresolved `ip`, as `lookup_or_insert`
/// followed by `Inserter::enqueue` does it, takes the table from `before`
/// to `after`.
pub open spec fn queued_one(
    before: Map<u32, ArpEntry>,
    after: Map<u32, ArpEntry>,
    ip: u32,
    tx: u64,
) -> bool {
    &&& !(before.contains_key(ip) && before[ip] is Resolved)
    &&& pending_txs(after, ip) == Some(waiting_frames(before, ip).push(tx))
}

impl<'a> Inserter<'a> {
    /// Queues the frame `tx` after those already waiting for `ip`.
    pub fn enqueue(self, tx: u64)
        requires
            pending_txs(self.table.entries(), self.ip) is Some,
        ensures
            final(self.table).entries().remove(self.ip) == old(self.table).entries().remove(
                self.ip,
            ),
            pending_txs(final(self.table).entries(), self.ip) == Some(
                pending_txs(old(self.table).entries(), self.ip)->0.push(tx),
            ),
            waiting_frames(final(self.table).entries(), self.ip) == waiting_frames(
                old(self.table).entries(),
                self.ip,
            ).push(tx),
    {
        match entries_remove(&mut self.table.entries, self.ip) {
            Some(ArpEntry::Pending { mut txs }) => {
                txs.push_back(tx);
                entries_insert(&mut self.table.entries, self.ip, ArpEntry::Pending { txs });
                proof {
                    assert(self.table.entries().remove(self.ip) =~= old(self.table).entries().remove(
                        self.ip,
                    ));
                }
            },
            _ => {},
        }
    }
}

impl ArpTable {
    /// The entry of each address.
    pub closed spec fn entries(&self) -> Map<u32, ArpEntry> {
        arp_entry_map(self.entries)
    }

    pub fn new() -> (r: Self)
        ensures
            r.entries() == Map::<u32, ArpEntry>::empty(),
    {
        Self { entries: entries_new() }
    }

    /// The MAC address of `ip` if it is resolved; otherwise a guard to
    /// queue frames for it, after making its entry pending if it had none.
    pub fn lookup_or_insert(&mut self, ip: Ipv4Addr) -> (r: Result<[u8; 6], Inserter<'_>>)
        ensures
            ({
                let m = old(self).entries();
                let key = ip@;
                if m.contains_key(key) && m[key] is Resolved {
                    r matches Ok(mac) && m[key] == (ArpEntry::Resolved { mac })
                        && final(self).entries() == m
                } else {
                    r matches Err(inserter) && inserter.ip == key && *final(self)
                        == *final(inserter.table) && pending_txs(inserter.table.entries(), key)
                        is Some && waiting_frames(inserter.table.entries(), key) == waiting_frames(
                        m,
                        key,
                    ) && (if m.contains_key(key) {
                        inserter.table.entries() == m
                    } else {
                        inserter.table.entries().remove(key) == m && pending_txs(
                            inserter.table.entries(),
                            key,
                        ) == Some(Seq::<u64>::empty())
                    })
                }
            }),
    {
        let key = ip.as_u32();
        match entries_get(&self.entries, key) {
            Some(ArpEntry::Resolved { mac }) => {
                return Ok(*mac);
            },
            Some(ArpEntry::Pending { .. }) => {},
            None => {
                let pending = ArpEntry::Pending { txs: VecDeque::new() };
                entries_insert(&mut self.entries, key, pending);
                proof {
                    assert(self.entries().remove(key) =~= old(self).entries());
                }
            },
        }
        Err(Inserter { table: self, ip: key })
    }

    /// Records that `ip` is at `mac`, and hands back the frames that were
    /// waiting for it, oldest first.
    pub fn resolve(&mut self, ip: Ipv4Addr, mac: [u8; 6]) -> (r: VecDeque<u64>)
        ensures
            final(self).entries() == old(self).entries().insert(ip@, ArpEntry::Resolved { mac }),
            r@ == waiting_frames(old(self).entries(), ip@),
    {
        match entries_insert(&mut self.entries, ip.as_u32(), ArpEntry::Resolved { mac }) {
            Some(ArpEntry::Pending { txs }) => txs,
            _ => VecDeque::new(),
        }
    }
}

/// Once an address is resolved, looking it up yields the resolved MAC.
pub proof fn law_lookup_after_resolve(m: Map<u32, ArpEntry>, ip: u32, mac: [u8; 6])
    ensures
        m.insert(ip, ArpEntry::Resolved { mac }).contains_key(ip),
        m.insert(ip, ArpEntry::Resolved { mac })[ip] == (ArpEntry::Resolved { mac }),
        pending_txs(m.insert(ip, ArpEntry::Resolved { mac }), ip) is None,
{
}

/// Queuing a frame for an address that is not resolved leaves the earlier
/// frames waiting and puts it after them: this is what `lookup_or_insert`
/// and `Inserter::enqueue` do together.
pub proof fn law_enqueue_is_queued_one(
    before: Map<u32, ArpEntry>,
    guard: Map<u32, ArpEntry>,
    after: Map<u32, ArpEntry>,
    ip: u32,
    tx: u64,
)
    requires
        !(before.contains_key(ip) && before[ip] is Resolved),
        pending_txs(guard, ip) is Some,
        before.contains_key(ip) ==> guard == before,
        !before.contains_key(ip) ==> pending_txs(guard, ip) == Some(Seq::<u64>::empty()),
        pending_txs(after, ip) == Some(pending_txs(guard, ip)->0.push(tx)),
    ensures
        queued_one(before, after, ip, tx),
{
}

/// Frames queued one after another for an address that had no entry come
/// back from `resolve` all of them, in the order they were queued.
pub proof fn law_waiting_frames_in_order(tables: Seq<Map<u32, ArpEntry>>, ip: u32, txs: Seq<u64>)
    requires
        tables.len() == txs.len() + 1,
        !tables[0].contains_key(ip),
        forall|i: int| 0 <= i < txs.len() ==> queued_one(#[trigger] tables[i], tables[i + 1], ip, txs[i]),
    ensures
        waiting_frames(tables.last(), ip) == txs,
{
    lemma_waiting_prefix(tables, ip, txs, txs.len() as int);
    assert(txs.take(txs.len() as int) =~= txs);
}

proof fn lemma_waiting_prefix(tables: Seq<Map<u32, ArpEntry>>, ip: u32, txs: Seq<u64>, k: int)
    requires
        0 <= k <= txs.len(),
        tables.len() == txs.len() + 1,
        !tables[0].contains_key(ip),
        forall|i: int| 0 <= i < txs.len() ==> queued_one(#[trigger] tables[i], tables[i + 1], ip, txs[i]),
    ensures
        waiting_frames(tables[k], ip) == txs.take(k),
    decreases k,
{
    if k == 0 {
        assert(txs.take(0) =~= Seq::<u64>::empty());
    } else {
        lemma_waiting_prefix(tables, ip, txs, k - 1);
        assert(queued_one(tables[k - 1], tables[k], ip, txs[k - 1]));
        assert(txs.take(k) =~= txs.take(k - 1).push(txs[k - 1]));
    }
}

} // verus!
