//! The handle table of a process: the objects a process can name, by
//! handle id.
use std::collections::BTreeMap;

use vstd::prelude::*;

use crate::error::ErrorCode;
use vstd::std_specs::cmp::OrdSpec;
use vstd::std_specs::iter::IteratorSpec;

verus! {

broadcast use vstd::std_specs::btree::group_btree_axioms, vstd::laws_cmp::group_laws_cmp;

pub const NUM_HANDLES_MAX: usize = 1024;

/// The id of a handle in a handle table.
#[derive(Debug, Clone, Copy, PartialEq, Eq, Structural)]
pub struct HandleId(usize);

impl View for HandleId {
    type V = usize;

    closed spec fn view(&self) -> usize {
        self.0
    }
}

impl HandleId {
    pub fn from_raw(raw: usize) -> (r: HandleId)
        ensures
            r@ == raw,
    {
        HandleId(raw)
    }

    pub fn as_usize(self) -> (r: usize)
        ensures
            r == self@,
    {
        self.0
    }
}

/// The handles of a process, by id. Ids are handed out in increasing
/// order, starting at 1, and never reused.
pub struct HandleTable<H> {
    handles: BTreeMap<usize, H>,
    next_id: usize,
}

/// A table with room for `N` more handles, reserved before they are made.
pub struct ReservedSlot<'a, H, const N: usize>(pub &'a mut HandleTable<H>);

impl<'a, H, const N: usize> ReservedSlot<'a, H, N> {
    pub fn new(table: &'a mut HandleTable<H>) -> (r: Self)
        ensures
            *r.0 == *old(table),
            *final(table) == *final(r.0),
    {
        Self(table)
    }
}

impl<'a, H> ReservedSlot<'a, H, 1> {
    /// Adds `object` under the next id.
    pub fn insert(self, object: H) -> (r: HandleId)
        requires
            self.0.wf(),
            self.0.next_id() < usize::MAX,
        ensures
            r@ == old(self.0).next_id(),
            !old(self.0).handles().contains_key(r@),
            final(self.0).wf(),
            final(self.0).handles() == old(self.0).handles().insert(r@, object),
            final(self.0).handles().len() == old(self.0).handles().len() + 1,
            final(self.0).next_id() == old(self.0).next_id() + 1,
    {
        self.0.do_insert(object)
    }
}

impl<'a, H> ReservedSlot<'a, H, 2> {
    /// Adds `object0` and `object1` under the next two ids.
    pub fn insert2(self, object0: H, object1: H) -> (r: (HandleId, HandleId))
        requires
            self.0.wf(),
            self.0.next_id() + 1 < usize::MAX,
        ensures
            r.0@ == old(self.0).next_id(),
            r.1@ == old(self.0).next_id() + 1,
            !old(self.0).handles().contains_key(r.0@),
            !old(self.0).handles().contains_key(r.1@),
            final(self.0).handles().len() == old(self.0).handles().len() + 2,
            final(self.0).wf(),
            final(self.0).handles() == old(self.0).handles().insert(r.0@, object0).insert(r.1@, object1),
            final(self.0).next_id() == old(self.0).next_id() + 2,
    {
        let id0 = self.0.do_insert(object0);
        let id1 = self.0.do_insert(object1);
        (id0, id1)
    }
}

impl<H> HandleTable<H> {
    /// The handles, by id.
    pub closed spec fn handles(&self) -> Map<usize, H> {
        self.handles@
    }

    /// The id the next handle gets.
    pub closed spec fn next_id(&self) -> usize {
        self.next_id
    }

    /// Every id in use is below the next one, and ids start at 1.
    pub open spec fn wf(&self) -> bool {
        &&& self.next_id() >= 1
        &&& forall|id: usize| #[trigger] self.handles().contains_key(id) ==> 1 <= id < self.next_id()
    }

    pub fn new() -> (r: Self)
        ensures
            r.wf(),
            r.handles() == Map::<usize, H>::empty(),
            r.next_id() == 1,
    {
        Self { handles: BTreeMap::new(), next_id: 1 }
    }

    pub fn len(&self) -> (r: usize)
        ensures
            r == self.handles().len(),
    {
        self.handles.len()
    }

    fn do_insert(&mut self, object: H) -> (r: HandleId)
        requires
            old(self).wf(),
            old(self).next_id() < usize::MAX,
        ensures
            r@ == old(self).next_id(),
            !old(self).handles().contains_key(r@),
            final(self).wf(),
            final(self).handles() == old(self).handles().insert(r@, object),
            final(self).handles().len() == old(self).handles().len() + 1,
            final(self).next_id() == old(self).next_id() + 1,
    {
        let id = HandleId::from_raw(self.next_id);
        self.next_id += 1;
        self.handles.insert(id.as_usize(), object);
        assert(self.handles() == old(self).handles().insert(id@, object));
        assert(old(self).handles().dom().finite());
        assert(self.handles().dom() == old(self).handles().dom().insert(id@));
        assert forall|k: usize| #[trigger] self.handles().contains_key(k) implies 1 <= k
            < self.next_id() by {
            if k != id@ {
                assert(old(self).handles().contains_key(k));
            }
        }
        id
    }

    /// Reserves room for `N` more handles, of at most 1024 in all.
    pub fn reserve<const N: usize>(&mut self) -> (r: Result<ReservedSlot<'_, H, N>, ErrorCode>)
        ensures
            old(self).handles().len() + N > NUM_HANDLES_MAX ==> r == Err::<
                ReservedSlot<'_, H, N>,
                ErrorCode,
            >(ErrorCode::TooManyHandles) && *final(self) == *old(self),
            old(self).handles().len() + N <= NUM_HANDLES_MAX ==> (r matches Ok(slot) && *slot.0
                == *old(self) && *final(self) == *final(slot.0) && slot.0.handles().len() + N
                <= NUM_HANDLES_MAX),
    {
        if N > NUM_HANDLES_MAX || self.handles.len() > NUM_HANDLES_MAX - N {
            return Err(ErrorCode::TooManyHandles);
        }
        Ok(ReservedSlot::new(self))
    }

    /// A copy of the handle under `id`, if any.
    pub fn get_any(&self, id: HandleId) -> (r: Option<H>) where H: Clone
        ensures
            !self.handles().contains_key(id@) ==> r is None,
            self.handles().contains_key(id@) ==> (r matches Some(h) && cloned(
                self.handles()[id@],
                h,
            )),
    {
        match self.handles.get(&id.as_usize()) {
            Some(handle) => Some(handle.clone()),
            None => None,
        }
    }

    /// The handle under `id` as the type the caller wants: `downcast`
    /// gives it when the handle is of that type. Fails with `HandleNotFound`
    /// when there is no such handle, and `InvalidHandle` when it is of
    /// another type.
    pub fn get<T, F: FnOnce(&H) -> Option<T>>(&self, id: HandleId, downcast: F) -> (r: Result<
        T,
        ErrorCode,
    >)
        requires
            forall|h: &H| #[trigger] call_requires(downcast, (h,)),
        ensures
            !self.handles().contains_key(id@) ==> r == Err::<T, ErrorCode>(
                ErrorCode::HandleNotFound,
            ),
            self.handles().contains_key(id@) ==> exists|o: Option<T>|
                #[trigger] call_ensures(downcast, (&self.handles()[id@],), o) && match o {
                    Some(t) => r == Ok::<T, ErrorCode>(t),
                    None => r == Err::<T, ErrorCode>(ErrorCode::InvalidHandle),
                },
    {
        match self.handles.get(&id.as_usize()) {
            Some(handle) => match downcast(handle) {
                Some(t) => Ok(t),
                None => Err(ErrorCode::InvalidHandle),
            },
            None => Err(ErrorCode::HandleNotFound),
        }
    }

    /// Takes the handle under `id` out of the table.
    pub fn remove(&mut self, id: HandleId) -> (r: Result<H, ErrorCode>)
        requires
            old(self).wf(),
        ensures
            final(self).wf(),
            final(self).next_id() == old(self).next_id(),
            !old(self).handles().contains_key(id@) ==> r == Err::<H, ErrorCode>(
                ErrorCode::HandleNotFound,
            ) && final(self).handles() == old(self).handles(),
            old(self).handles().contains_key(id@) ==> r == Ok::<H, ErrorCode>(
                old(self).handles()[id@],
            ) && final(self).handles() == old(self).handles().remove(id@),
    {
        let r = match self.handles.remove(&id.as_usize()) {
            Some(handle) => Ok(handle),
            None => Err(ErrorCode::HandleNotFound),
        };
        assert forall|k: usize| #[trigger] self.handles().contains_key(k) implies 1 <= k
            < self.next_id() by {
            assert(old(self).handles().contains_key(k));
        }
        r
    }

    /// Empties the table and hands back its handles in increasing id
    /// order, for the caller to close each.
    pub fn clear(&mut self) -> (r: Vec<H>)
        requires
            old(self).wf(),
        ensures
            final(self).wf(),
            final(self).next_id() == old(self).next_id(),
            final(self).handles() == Map::<usize, H>::empty(),
            exists|ids: Seq<usize>|
                {
                    &&& ids.to_set() == old(self).handles().dom()
                    &&& ids.no_duplicates()
                    &&& forall|i: int, j: int| 0 <= i < j < ids.len() ==> ids[i] < ids[j]
                    &&& r@ == ids.map_values(|id: usize| old(self).handles()[id])
                },
    {
        let mut ids: Vec<usize> = Vec::new();
        for id in iter: self.handles.keys()
            invariant
                ids@ == iter.seq().take(iter.index() as int).map_values(|k: &usize| *k),
        {
            ids.push(*id);
        }
        let ghost keys = vstd::std_specs::btree::spec_keys_iter(&self.handles).remaining().unref();
        assert(ids@ == keys);
        let ghost old_map = self.handles@;
        assert(keys.to_set() == old_map.dom());
        assert(keys.no_duplicates());
        proof {
            lemma_increasing_keys(vstd::std_specs::btree::spec_keys_iter(&self.handles).remaining());
        }
        let mut result: Vec<H> = Vec::new();
        let mut i: usize = 0;
        while i < ids.len()
            invariant
                i <= ids@.len(),
                ids@ == keys,
                keys.to_set() == old_map.dom(),
                keys.no_duplicates(),
                self.next_id == old(self).next_id,
                forall|k: usize|
                    #[trigger] self.handles@.contains_key(k) <==> (old_map.contains_key(k)
                        && !keys.take(i as int).contains(k)),
                forall|k: usize| #[trigger] self.handles@.contains_key(k) ==> self.handles@[k] == old_map[k],
                result@ == keys.take(i as int).map_values(|id: usize| old_map[id]),
            decreases ids.len() - i,
        {
            let id = ids[i];
            proof {
                assert(keys.to_set().contains(id));
                assert(!keys.take(i as int).contains(id)) by {
                    if keys.take(i as int).contains(id) {
                        let j = choose|j: int| 0 <= j < i && keys.take(i as int)[j] == id;
                        assert(keys[j] == keys[i as int]);
                    }
                }
            }
            match self.handles.remove(&id) {
                Some(handle) => {
                    result.push(handle);
                },
                None => {},
            }
            proof {
                assert(keys.take(i + 1) =~= keys.take(i as int).push(id));
                assert forall|k: usize| keys.take(i + 1).contains(k) <==> (keys.take(
                    i as int,
                ).contains(k) || k == id) by {
                    if keys.take(i + 1).contains(k) && k != id {
                        let j = choose|j: int| 0 <= j < i + 1 && #[trigger] keys.take(i + 1)[j] == k;
                        assert(keys.take(i as int)[j] == k);
                    }
                    if k == id {
                        assert(keys.take(i + 1)[i as int] == k);
                    }
                    if keys.take(i as int).contains(k) {
                        let j = choose|j: int| 0 <= j < i && #[trigger] keys.take(i as int)[j] == k;
                        assert(keys.take(i + 1)[j] == k);
                    }
                }
                assert(result@ =~= keys.take(i + 1).map_values(|id: usize| old_map[id]));
            }
            i += 1;
        }
        assert(keys.take(keys.len() as int) =~= keys);
        assert(self.handles@ =~= Map::<usize, H>::empty()) by {
            assert forall|k: usize| !self.handles@.contains_key(k) by {
                if self.handles@.contains_key(k) {
                    assert(keys.to_set().contains(k));
                }
            }
        }
        result
    }
}

/// The keys of a map, in the order it hands them out, increase.
proof fn lemma_increasing_keys(keys: Seq<&usize>)
    requires
        vstd::std_specs::btree::increasing_seq(keys),
    ensures
        forall|a: int, b: int| 0 <= a < b < keys.len() ==> *keys[a] < *keys[b],
{
    assert(vstd::laws_cmp::obeys_cmp::<&usize>());
    assert(vstd::laws_cmp::obeys_cmp::<usize>());
    vstd::std_specs::btree::axiom_increasing_seq_meaning(keys);
    assert forall|a: int, b: int| 0 <= a < b < keys.len() implies *keys[a] < *keys[b] by {
        assert(OrdSpec::cmp_spec(&keys[a], &keys[b]) is Less);
    }
}

/// The id the next handle gets is in use by no handle of the table: ids are
/// never handed out twice, though handles are removed.
pub proof fn law_next_id_is_fresh<H>(table: HandleTable<H>)
    requires
        table.wf(),
    ensures
        !table.handles().contains_key(table.next_id()),
{
}

/// Removing a handle just added under the next id leaves the handles as
/// they were, and looking the id up before that finds the object added.
pub proof fn law_remove_undoes_insert<H>(table: HandleTable<H>, object: H)
    requires
        table.wf(),
    ensures
        table.handles().insert(table.next_id(), object)[table.next_id()] == object,
        table.handles().insert(table.next_id(), object).remove(table.next_id())
            == table.handles(),
{
    assert(table.handles().insert(table.next_id(), object).remove(table.next_id())
        =~= table.handles());
}

/// A table filled through `reserve` never holds more than 1024 handles:
/// when a reservation of one (or two) handles succeeds, the slot adds them
/// under fresh ids, so the table grows by exactly that many and stays
/// within the limit.
pub proof fn law_reserved_slots_keep_the_limit<H>(table: HandleTable<H>, object0: H, object1: H)
    requires
        table.wf(),
    ensures
        table.handles().len() + 1 <= NUM_HANDLES_MAX ==> {
            let after = table.handles().insert(table.next_id(), object0);
            &&& after.len() == table.handles().len() + 1
            &&& after.len() <= NUM_HANDLES_MAX
        },
        table.handles().len() + 2 <= NUM_HANDLES_MAX && table.next_id() + 1 < usize::MAX ==> {
            let after = table.handles().insert(table.next_id(), object0).insert(
                (table.next_id() + 1) as usize,
                object1,
            );
            &&& after.len() == table.handles().len() + 2
            &&& after.len() <= NUM_HANDLES_MAX
        },
{
    let m = table.handles();
    let id0 = table.next_id();
    assert(m.dom().finite());
    assert(!m.contains_key(id0));
    assert(m.insert(id0, object0).dom() == m.dom().insert(id0));
    if id0 + 1 < usize::MAX {
        let id1 = (id0 + 1) as usize;
        let m1 = m.insert(id0, object0);
        assert(!m1.contains_key(id1));
        assert(m1.insert(id1, object1).dom() == m1.dom().insert(id1));
    }
}

/// Moves the handle `id` of the current process's table `current` into
/// the table `target` of another process, under the next id there.
/// Injecting into the current process itself is refused with `InvalidArg`.
/// The handle leaves `current` before `target` is checked for room: when
/// `target` is full, the handle is dropped.
pub fn inject_handle<H>(
    current: &mut HandleTable<H>,
    target: &mut HandleTable<H>,
    into_current: bool,
    id: HandleId,
) -> (r: Result<HandleId, ErrorCode>)
    requires
        old(current).wf(),
        old(target).wf(),
        old(target).next_id() < usize::MAX,
    ensures
        final(current).wf(),
        final(target).wf(),
        into_current ==> r == Err::<HandleId, ErrorCode>(ErrorCode::InvalidArg) && *final(current)
            == *old(current) && *final(target) == *old(target),
        !into_current && !old(current).handles().contains_key(id@) ==> r == Err::<
            HandleId,
            ErrorCode,
        >(ErrorCode::HandleNotFound) && final(current).handles() == old(current).handles()
            && *final(target) == *old(target),
        !into_current && old(current).handles().contains_key(id@) ==> {
            &&& final(current).handles() == old(current).handles().remove(id@)
            &&& final(current).next_id() == old(current).next_id()
            &&& if old(target).handles().len() + 1 > NUM_HANDLES_MAX {
                &&& r == Err::<HandleId, ErrorCode>(ErrorCode::TooManyHandles)
                &&& *final(target) == *old(target)
            } else {
                &&& r matches Ok(new_id)
                &&& new_id@ == old(target).next_id()
                &&& final(target).handles() == old(target).handles().insert(
                    new_id@,
                    old(current).handles()[id@],
                )
                &&& final(target).handles().len() <= NUM_HANDLES_MAX
                &&& final(target).next_id() == old(target).next_id() + 1
            }
        },
{
    if into_current {
        return Err(ErrorCode::InvalidArg);
    }
    let handle = match current.remove(id) {
        Ok(handle) => handle,
        Err(e) => return Err(e),
    };
    let slot = match target.reserve::<1>() {
        Ok(slot) => slot,
        Err(e) => return Err(e),
    };
    Ok(slot.insert(handle))
}

} // verus!
