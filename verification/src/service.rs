//! Services: named endpoints that clients look up, the connections that
//! wait for a service to accept them, and the clients that wait for a name
//! to be registered.
use std::collections::VecDeque;

use vstd::prelude::*;

use crate::error::ErrorCode;

verus! {

/// The longest service name.
pub const SERVICE_NAME_MAX_LEN: usize = 32;

/// Whether `name` can name a service: at most 32 bytes, all ASCII.
pub open spec fn valid_name(name: Seq<u8>) -> bool {
    &&& name.len() <= SERVICE_NAME_MAX_LEN
    &&& forall|i: int| 0 <= i < name.len() ==> name[i] < 0x80
}

/// Checks a service name read from user space.
pub fn check_name(name: &[u8]) -> (r: Result<(), ErrorCode>)
    ensures
        r == (if valid_name(name@) {
            Ok::<(), ErrorCode>(())
        } else {
            Err(ErrorCode::InvalidArg)
        }),
{
    if name.len() > SERVICE_NAME_MAX_LEN {
        return Err(ErrorCode::InvalidArg);
    }
    let mut i: usize = 0;
    while i < name.len()
        invariant
            i <= name@.len(),
            forall|k: int| 0 <= k < i ==> name@[k] < 0x80,
        decreases name@.len() - i,
    {
        if name[i] >= 0x80 {
            return Err(ErrorCode::InvalidArg);
        }
        i += 1;
    }
    Ok(())
}

/// A registered service: the server's end of each new connection, until the
/// server reads it, and what notifies the server.
pub struct Service<C, E> {
    emitter: Option<E>,
    new_connections: VecDeque<C>,
}

impl<C, E> Service<C, E> {
    /// What notifies the server, if it listens.
    pub closed spec fn spec_emitter(&self) -> Option<E> {
        self.emitter
    }

    /// The connections not read yet, oldest first.
    pub closed spec fn connections(&self) -> Seq<C> {
        self.new_connections@
    }

    pub fn new() -> (r: Self)
        ensures
            r.spec_emitter() is None,
            r.connections() == Seq::<C>::empty(),
    {
        Self { emitter: None, new_connections: VecDeque::new() }
    }

    pub fn set_event_emitter(&mut self, emitter: Option<E>)
        ensures
            final(self).spec_emitter() == emitter,
            final(self).connections() == old(self).connections(),
    {
        self.emitter = emitter;
    }

    /// What notifies the server, if it listens.
    pub fn emitter(&self) -> (r: Option<&E>)
        ensures
            match r {
                Some(e) => self.spec_emitter() == Some(*e),
                None => self.spec_emitter() is None,
            },
    {
        self.emitter.as_ref()
    }

    /// Queues the server's end of a new connection.
    pub fn connect(&mut self, server_end: C)
        ensures
            final(self).spec_emitter() == old(self).spec_emitter(),
            final(self).connections() == old(self).connections().push(server_end),
    {
        self.new_connections.push_back(server_end);
    }

    /// The oldest connection not read yet.
    pub fn read_event(&mut self) -> (r: Option<C>)
        ensures
            final(self).spec_emitter() == old(self).spec_emitter(),
            old(self).connections().len() == 0 ==> r is None && final(self).connections() == old(
                self,
            ).connections(),
            old(self).connections().len() > 0 ==> r == Some(old(self).connections()[0]) && final(self).connections() == old(self).connections().drop_first(),
    {
        let r = self.new_connections.pop_front();
        proof {
            if old(self).connections().len() > 0 {
                assert(self.connections() =~= old(self).connections().drop_first());
            }
        }
        r
    }
}

/// The names of `entries`.
pub open spec fn names<X>(entries: Seq<(Vec<u8>, X)>) -> Seq<Seq<u8>> {
    entries.map_values(|e: (Vec<u8>, X)| e.0@)
}

/// No name occurs twice.
pub open spec fn unique_names<X>(entries: Seq<(Vec<u8>, X)>) -> bool {
    forall|i: int, j: int|
        0 <= i < j < entries.len() ==> (#[trigger] entries[i]).0@ != (#[trigger] entries[j]).0@
}

/// The index of the entry named `name`.
fn find<X>(entries: &Vec<(Vec<u8>, X)>, name: &[u8]) -> (r: Option<usize>)
    ensures
        match r {
            Some(i) => i < entries@.len() && entries@[i as int].0@ == name@,
            None => forall|i: int| 0 <= i < entries@.len() ==> (#[trigger] entries@[i]).0@ != name@,
        },
{
    let mut i: usize = 0;
    while i < entries.len()
        invariant
            i <= entries@.len(),
            forall|k: int| 0 <= k < i ==> (#[trigger] entries@[k]).0@ != name@,
        decreases entries@.len() - i,
    {
        if same_bytes(entries[i].0.as_slice(), name) {
            return Some(i);
        }
        i += 1;
    }
    None
}

/// Whether two byte strings are equal.
fn same_bytes(a: &[u8], b: &[u8]) -> (r: bool)
    ensures
        r == (a@ == b@),
{
    if a.len() != b.len() {
        return false;
    }
    let mut i: usize = 0;
    while i < a.len()
        invariant
            i <= a@.len(),
            a@.len() == b@.len(),
            forall|k: int| 0 <= k < i ==> a@[k] == b@[k],
        decreases a@.len() - i,
    {
        if a[i] != b[i] {
            return false;
        }
        i += 1;
    }
    assert(a@ =~= b@);
    true
}

/// In entries with unique names, the entry that `index_of` picks for a
/// name is the one that has it.
proof fn lemma_named_entry<X>(entries: Seq<(Vec<u8>, X)>, i: int)
    requires
        unique_names(entries),
        0 <= i < entries.len(),
    ensures
        names(entries).contains(entries[i].0@),
        names(entries).index_of(entries[i].0@) == i,
{
    let ns = names(entries);
    assert(ns[i] == entries[i].0@);
    let j = ns.index_of(entries[i].0@);
    assert(ns[j] == entries[j].0@);
    if j != i {
        if j < i {
            assert(entries[j].0@ != entries[i].0@);
        } else {
            assert(entries[i].0@ != entries[j].0@);
        }
    }
}

/// A name that no entry has is not among the names.
proof fn lemma_unnamed<X>(entries: Seq<(Vec<u8>, X)>, n: Seq<u8>)
    requires
        forall|i: int| 0 <= i < entries.len() ==> (#[trigger] entries[i]).0@ != n,
    ensures
        !names(entries).contains(n),
{
    if names(entries).contains(n) {
        let j = choose|j: int| 0 <= j < names(entries).len() && names(entries)[j] == n;
        assert(entries[j].0@ == n);
    }
}

/// A name among the names is that of the entry `index_of` picks.
proof fn lemma_index_of_name<X>(entries: Seq<(Vec<u8>, X)>, n: Seq<u8>)
    requires
        names(entries).contains(n),
    ensures
        0 <= names(entries).index_of(n) < entries.len(),
        entries[names(entries).index_of(n)].0@ == n,
{
    let j = names(entries).index_of(n);
    assert(names(entries)[j] == entries[j].0@);
}

/// Removing the entry at `i` keeps the other names, each with its value,
/// and drops the name at `i`.
proof fn lemma_remove_entry<X>(entries: Seq<(Vec<u8>, X)>, i: int)
    requires
        unique_names(entries),
        0 <= i < entries.len(),
    ensures
        unique_names(entries.remove(i)),
        !names(entries.remove(i)).contains(entries[i].0@),
        forall|n: Seq<u8>|
            n != entries[i].0@ ==> (#[trigger] names(entries.remove(i)).contains(n) <==> names(
                entries,
            ).contains(n)),
        forall|n: Seq<u8>|
            n != entries[i].0@ && #[trigger] names(entries.remove(i)).contains(n) ==> entries.remove(
                i,
            )[names(entries.remove(i)).index_of(n)].1 == entries[names(entries).index_of(n)].1,
{
    let rest = entries.remove(i);
    assert(forall|k: int| 0 <= k < rest.len() ==> #[trigger] rest[k] == entries[if k < i { k } else { k + 1 }]);
    assert forall|a: int, b: int| 0 <= a < b < rest.len() implies (#[trigger] rest[a]).0@ != (#[trigger] rest[b]).0@ by {
        let a0 = if a < i { a } else { a + 1 };
        let b0 = if b < i { b } else { b + 1 };
        assert(entries[a0].0@ != entries[b0].0@);
    }
    if names(rest).contains(entries[i].0@) {
        lemma_index_of_name(rest, entries[i].0@);
        let k = names(rest).index_of(entries[i].0@);
        let k0 = if k < i { k } else { k + 1 };
        if k0 < i {
            assert(entries[k0].0@ != entries[i].0@);
        } else {
            assert(entries[i].0@ != entries[k0].0@);
        }
    }
    assert forall|n: Seq<u8>| n != entries[i].0@ implies (#[trigger] names(rest).contains(n) <==> names(entries).contains(n)) by {
        if names(rest).contains(n) {
            lemma_index_of_name(rest, n);
            let k = names(rest).index_of(n);
            let k0 = if k < i { k } else { k + 1 };
            lemma_named_entry(entries, k0);
        }
        if names(entries).contains(n) {
            lemma_index_of_name(entries, n);
            let j = names(entries).index_of(n);
            assert(j != i);
            let j1 = if j < i { j } else { j - 1 };
            lemma_named_entry(rest, j1);
        }
    }
    assert forall|n: Seq<u8>| n != entries[i].0@ && #[trigger] names(rest).contains(n) implies rest[names(rest).index_of(n)].1 == entries[names(entries).index_of(n)].1 by {
        lemma_index_of_name(rest, n);
        let k = names(rest).index_of(n);
        let k0 = if k < i { k } else { k + 1 };
        lemma_named_entry(entries, k0);
    }
}

/// Replacing the entry at `i` by one of the same name keeps the names and
/// the other values.
proof fn lemma_set_entry<X>(entries: Seq<(Vec<u8>, X)>, i: int, entry: (Vec<u8>, X))
    requires
        unique_names(entries),
        0 <= i < entries.len(),
        entry.0@ == entries[i].0@,
    ensures
        unique_names(entries.update(i, entry)),
        names(entries.update(i, entry)) == names(entries),
{
    assert(names(entries.update(i, entry)) =~= names(entries));
    assert forall|a: int, b: int| 0 <= a < b < entries.len() implies (#[trigger] entries.update(i, entry)[a]).0@ != (#[trigger] entries.update(i, entry)[b]).0@ by {
        assert(entries[a].0@ != entries[b].0@);
    }
}

/// Appending an entry with a new name keeps the other names and values.
proof fn lemma_push_entry<X>(entries: Seq<(Vec<u8>, X)>, entry: (Vec<u8>, X))
    requires
        unique_names(entries),
        !names(entries).contains(entry.0@),
    ensures
        unique_names(entries.push(entry)),
        names(entries.push(entry)) == names(entries).push(entry.0@),
{
    assert(names(entries.push(entry)) =~= names(entries).push(entry.0@));
    assert forall|a: int, b: int| 0 <= a < b < entries.len() + 1 implies (#[trigger] entries.push(entry)[a]).0@ != (#[trigger] entries.push(entry)[b]).0@ by {
        if b == entries.len() {
            assert(names(entries)[a] == entries[a].0@);
        } else {
            assert(entries[a].0@ != entries[b].0@);
        }
    }
}

/// The services by name, and the clients (`T`) waiting for a name to be
/// registered.
pub struct Registry<S, T> {
    services: Vec<(Vec<u8>, S)>,
    wait_queues: Vec<(Vec<u8>, VecDeque<T>)>,
}

impl<S, T> Registry<S, T> {
    /// The registered services, by name.
    pub closed spec fn services(&self) -> Map<Seq<u8>, S> {
        Map::new(
            |n: Seq<u8>| names(self.services@).contains(n),
            |n: Seq<u8>| self.services@[names(self.services@).index_of(n)].1,
        )
    }

    /// The clients waiting for each name, in the order they came.
    pub closed spec fn waiting(&self) -> Map<Seq<u8>, Seq<T>> {
        Map::new(
            |n: Seq<u8>| names(self.wait_queues@).contains(n),
            |n: Seq<u8>| self.wait_queues@[names(self.wait_queues@).index_of(n)].1@,
        )
    }

    /// No name is registered or waited for twice.
    pub closed spec fn wf(&self) -> bool {
        &&& unique_names(self.services@)
        &&& unique_names(self.wait_queues@)
    }

    pub fn new() -> (r: Self)
        ensures
            r.wf(),
            r.services() == Map::<Seq<u8>, S>::empty(),
            r.waiting() == Map::<Seq<u8>, Seq<T>>::empty(),
    {
        let r = Self { services: Vec::new(), wait_queues: Vec::new() };
        assert(r.services() =~= Map::<Seq<u8>, S>::empty());
        assert(r.waiting() =~= Map::<Seq<u8>, Seq<T>>::empty());
        r
    }

    /// The service registered under `name`, if any.
    pub fn get(&self, name: &[u8]) -> (r: Option<&S>)
        requires
            self.wf(),
        ensures
            match r {
                Some(service) => self.services().contains_key(name@) && self.services()[name@]
                    == *service,
                None => !self.services().contains_key(name@),
            },
    {
        match find(&self.services, name) {
            Some(i) => {
                proof {
                    lemma_named_entry(self.services@, i as int);
                }
                Some(&self.services[i].1)
            },
            None => {
                proof {
                    lemma_unnamed(self.services@, name@);
                }
                None
            },
        }
    }

    /// Takes the clients waiting for `name` out, in the order they came.
    fn take_waiting(&mut self, name: &[u8]) -> (woken: Vec<T>)
        requires
            old(self).wf(),
        ensures
            final(self).wf(),
            final(self).services() == old(self).services(),
            final(self).waiting() == old(self).waiting().remove(name@),
            woken@ == (if old(self).waiting().contains_key(name@) {
                old(self).waiting()[name@]
            } else {
                Seq::<T>::empty()
            }),
    {
        match find(&self.wait_queues, name) {
            None => {
                proof {
                    lemma_unnamed(self.wait_queues@, name@);
                    assert(self.waiting() =~= old(self).waiting().remove(name@));
                }
                Vec::new()
            },
            Some(i) => {
                proof {
                    lemma_named_entry(self.wait_queues@, i as int);
                    lemma_remove_entry(self.wait_queues@, i as int);
                }
                let (_, mut queue) = self.wait_queues.remove(i);
                let ghost all = queue@;
                let mut threads: Vec<T> = Vec::new();
                while queue.len() > 0
                    invariant
                        threads@ + queue@ == all,
                    decreases queue@.len(),
                {
                    let ghost before = queue@;
                    let thread = queue.pop_front().unwrap();
                    proof {
                        assert(before == seq![thread] + queue@);
                    }
                    threads.push(thread);
                    proof {
                        assert(threads@ + queue@ =~= all);
                    }
                }
                proof {
                    assert(threads@ =~= all);
                    assert(self.waiting() =~= old(self).waiting().remove(name@));
                }
                threads
            },
        }
    }

    /// Registers `service` under `name`, replacing any service of that
    /// name, and hands back the clients that waited for the name, in the
    /// order they came, to be woken.
    pub fn register(&mut self, name: Vec<u8>, service: S) -> (woken: Vec<T>)
        requires
            old(self).wf(),
        ensures
            final(self).wf(),
            final(self).services() == old(self).services().insert(name@, service),
            final(self).waiting() == old(self).waiting().remove(name@),
            woken@ == (if old(self).waiting().contains_key(name@) {
                old(self).waiting()[name@]
            } else {
                Seq::<T>::empty()
            }),
    {
        let woken = self.take_waiting(name.as_slice());
        let ghost mid = self.services();
        match find(&self.services, name.as_slice()) {
            Some(i) => {
                let ghost before = self.services@;
                proof {
                    lemma_set_entry(self.services@, i as int, (name, service));
                    lemma_named_entry(self.services@, i as int);
                }
                self.services.set(i, (name, service));
                proof {
                    let after = self.services@;
                    assert(names(after) == names(before));
                    lemma_named_entry(after, i as int);
                    assert forall|n: Seq<u8>| #[trigger] self.services().contains_key(n) implies self.services()[n] == mid.insert(name@, service)[n] by {
                        lemma_index_of_name(after, n);
                        let k = names(after).index_of(n);
                        if n != name@ {
                            assert(k != i);
                            assert(after[k] == before[k]);
                        }
                    }
                    assert(self.services() =~= mid.insert(name@, service));
                }
            },
            None => {
                let ghost before = self.services@;
                proof {
                    lemma_unnamed(self.services@, name@);
                    lemma_push_entry(self.services@, (name, service));
                }
                self.services.push((name, service));
                proof {
                    let after = self.services@;
                    lemma_named_entry(after, after.len() - 1);
                    assert forall|n: Seq<u8>| #[trigger] self.services().contains_key(n) && n != name@ implies mid.contains_key(n) && self.services()[n] == mid[n] by {
                        lemma_index_of_name(after, n);
                        let k = names(after).index_of(n);
                        assert(k != after.len() - 1);
                        assert(after[k] == before[k]);
                        lemma_named_entry(before, k);
                    }
                    assert forall|n: Seq<u8>| #[trigger] mid.contains_key(n) implies self.services().contains_key(n) by {
                        lemma_index_of_name(before, n);
                        let k = names(before).index_of(n);
                        assert(after[k] == before[k]);
                        lemma_named_entry(after, k);
                    }
                    assert(self.services() =~= mid.insert(name@, service));
                }
            },
        }
        woken
    }

    /// Makes `client` wait for a service to be registered under `name`,
    /// after the clients already waiting for it.
    pub fn wait_for(&mut self, name: Vec<u8>, client: T)
        requires
            old(self).wf(),
        ensures
            final(self).wf(),
            final(self).services() == old(self).services(),
            final(self).waiting() == old(self).waiting().insert(
                name@,
                (if old(self).waiting().contains_key(name@) {
                    old(self).waiting()[name@]
                } else {
                    Seq::<T>::empty()
                }).push(client),
            ),
    {
        let ghost name_view = name@;
        let ghost start = self.wait_queues@;
        let ghost waited = if old(self).waiting().contains_key(name_view) {
            old(self).waiting()[name_view]
        } else {
            Seq::<T>::empty()
        };
        let mut queue = VecDeque::new();
        match find(&self.wait_queues, name.as_slice()) {
            Some(i) => {
                proof {
                    lemma_named_entry(start, i as int);
                    lemma_remove_entry(start, i as int);
                }
                let (_, q) = self.wait_queues.remove(i);
                queue = q;
            },
            None => {
                proof {
                    lemma_unnamed(start, name_view);
                }
            },
        }
        let ghost mid = self.wait_queues@;
        proof {
            assert(queue@ == waited);
            assert(!names(mid).contains(name_view));
            assert(unique_names(mid));
            assert forall|n: Seq<u8>| n != name_view implies (#[trigger] names(mid).contains(n) <==> old(self).waiting().contains_key(n)) by {}
            assert forall|n: Seq<u8>| n != name_view && #[trigger] names(mid).contains(n) implies mid[names(mid).index_of(n)].1@ == old(self).waiting()[n] by {}
        }
        queue.push_back(client);
        proof {
            lemma_push_entry(mid, (name, queue));
        }
        self.wait_queues.push((name, queue));
        proof {
            let after = self.wait_queues@;
            lemma_named_entry(after, after.len() - 1);
            assert forall|n: Seq<u8>| #[trigger] self.waiting().contains_key(n) && n != name_view implies old(self).waiting().contains_key(n) && self.waiting()[n] == old(self).waiting()[n] by {
                lemma_index_of_name(after, n);
                let k = names(after).index_of(n);
                assert(k != after.len() - 1);
                assert(after[k] == mid[k]);
                lemma_named_entry(mid, k);
            }
            assert forall|n: Seq<u8>| #[trigger] old(self).waiting().contains_key(n) && n != name_view implies self.waiting().contains_key(n) by {
                lemma_index_of_name(mid, n);
                let k = names(mid).index_of(n);
                assert(after[k] == mid[k]);
                lemma_named_entry(after, k);
            }
            assert(self.waiting() =~= old(self).waiting().insert(name_view, waited.push(client)));
        }
    }
}

/// Once a service is registered under a name, looking the name up finds it,
/// and nobody waits for that name any more.
pub proof fn law_found_after_register<S, T>(
    services: Map<Seq<u8>, S>,
    waiting: Map<Seq<u8>, Seq<T>>,
    name: Seq<u8>,
    service: S,
)
    ensures
        services.insert(name, service).contains_key(name),
        services.insert(name, service)[name] == service,
        !waiting.remove(name).contains_key(name),
{
}

} // verus!
