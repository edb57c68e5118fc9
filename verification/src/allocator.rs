//! The world-level memory allocator: it partitions a total address space
//! into equal-size territories at construction and hands them out and
//! reclaims them under ownership rules.

use vstd::prelude::*;

use crate::territory::{
    spec_contains_address, spec_territory_can_access, Territory, TerritoryError,
};

verus! {

broadcast use vstd::group_vstd_default;

/// Every way an operation of the allocator can fail.
#[derive(Debug, Clone, Copy, PartialEq, Eq, Structural)]
pub enum AllocationError {
    InsufficientMemory { requested: usize, available: usize },
    Territory(TerritoryError),
    InvalidTerritory { id: usize },
}

/// The slot indices owned by one owner, in allocation order.
#[derive(Debug, Clone)]
pub struct OwnerEntry {
    pub owner: u32,
    pub ids: Vec<usize>,
}

/// The allocator: a fixed table of territory slots computed once at
/// construction, a free-list of slot indices, and one list of owned slot
/// indices per owner.
#[derive(Debug)]
pub struct MemoryAllocator {
    pub total_size: usize,
    pub territory_size: usize,
    pub territories: Vec<Territory>,
    pub owner_territories: Vec<OwnerEntry>,
    pub free_territories: Vec<usize>,
}

/// Whether slot `k` is on the free-list.
pub open spec fn free_contains(a: MemoryAllocator, k: int) -> bool {
    exists|i: int| 0 <= i < a.free_territories@.len() && a.free_territories@[i] == k
}

/// Whether the owner list at position `e` is well formed: every listed slot
/// exists and records this owner, and no slot is listed twice.
pub open spec fn owner_entry_wf(a: MemoryAllocator, e: int) -> bool {
    let ent = a.owner_territories@[e];
    &&& forall|i: int|
        0 <= i < ent.ids@.len() ==> (#[trigger] ent.ids@[i]) < a.territories@.len()
            && a.territories@[ent.ids@[i] as int].owner_id == Some(ent.owner)
    &&& forall|i: int, j: int| 0 <= i < j < ent.ids@.len() ==> ent.ids@[i] != ent.ids@[j]
}

/// Whether the owned slot `k` appears in its owner's list.
pub open spec fn owned_listed(a: MemoryAllocator, k: int) -> bool {
    exists|e: int, i: int|
        {
            &&& 0 <= e < a.owner_territories@.len()
            &&& 0 <= i < a.owner_territories@[e].ids@.len()
            &&& a.owner_territories@[e].ids@[i] == k
            &&& Some(a.owner_territories@[e].owner) == a.territories@[k].owner_id
        }
}

/// The allocator's structural invariant: the slot count is fixed by the
/// two construction arguments, the slots partition the address space into
/// equal, consecutive ranges, a slot index is on the free-list if and only
/// if its territory is unowned and appears on it at most once, and an
/// owned slot is listed by exactly its owner, once.
pub open spec fn alloc_inv(a: MemoryAllocator) -> bool {
    &&& a.territory_size >= 1
    &&& a.territories@.len() == a.total_size as int / a.territory_size as int
    &&& forall|k: int|
        0 <= k < a.territories@.len() ==> (#[trigger] a.territories@[k]).start_address == k
            * a.territory_size
    &&& forall|k: int|
        0 <= k < a.territories@.len() ==> (#[trigger] a.territories@[k]).size == a.territory_size
    &&& forall|i: int|
        0 <= i < a.free_territories@.len() ==> (#[trigger] a.free_territories@[i])
            < a.territories@.len()
    &&& forall|i: int, j: int|
        0 <= i < j < a.free_territories@.len() ==> a.free_territories@[i]
            != a.free_territories@[j]
    &&& forall|i: int|
        0 <= i < a.free_territories@.len() ==> a.territories@[
            #[trigger] a.free_territories@[i] as int
        ].owner_id is None
    &&& forall|k: int|
        0 <= k < a.territories@.len() && (#[trigger] a.territories@[k]).owner_id is None
            ==> free_contains(a, k)
    &&& forall|e: int| 0 <= e < a.owner_territories@.len() ==> owner_entry_wf(a, e)
    &&& forall|e1: int, e2: int|
        0 <= e1 < e2 < a.owner_territories@.len() ==> (#[trigger] a.owner_territories@[e1]).owner
            != (#[trigger] a.owner_territories@[e2]).owner
    &&& forall|k: int|
        0 <= k < a.territories@.len() && (#[trigger] a.territories@[k]).owner_id is Some
            ==> owned_listed(a, k)
}

/// The position of the owner's list, or -1 when the owner has none.
pub open spec fn find_owner_entry(entries: Seq<OwnerEntry>, owner: u32) -> int
    decreases entries.len(),
{
    if entries.len() == 0 {
        -1
    } else if entries[0].owner == owner {
        0
    } else {
        let r = find_owner_entry(entries.drop_first(), owner);
        if r < 0 {
            -1
        } else {
            r + 1
        }
    }
}

/// The slot indices owned by the given owner, in allocation order.
pub open spec fn spec_owner_ids(a: MemoryAllocator, owner: u32) -> Seq<usize> {
    let e = find_owner_entry(a.owner_territories@, owner);
    if e >= 0 {
        a.owner_territories@[e].ids@
    } else {
        Seq::empty()
    }
}

/// Whether the given owner may access the given address: whether some
/// slot's range contains the address and that slot grants access. (Under
/// the allocator's invariant at most one slot's range contains any
/// address.)
pub open spec fn spec_allocator_can_access(
    a: MemoryAllocator,
    address: usize,
    requester_id: u32,
) -> bool {
    exists|k: int|
        0 <= k < a.territories@.len() && spec_contains_address(
            #[trigger] a.territories@[k],
            address,
        ) && spec_territory_can_access(a.territories@[k], requester_id)
}

/// The fraction of slots that are owned, in Q16.16; 0 for an allocator
/// with no slots at all.
pub open spec fn spec_utilization(a: MemoryAllocator) -> int {
    if a.territories@.len() == 0 {
        0
    } else {
        (a.territories@.len() - a.free_territories@.len()) * 65536 / a.territories@.len() as int
    }
}


/// The allocator's ownership bookkeeping, as a law over any reachable
/// state: a slot index is on the free-list if and only if its territory is
/// unowned; an owned slot appears in its owner's list; and any list that
/// mentions a slot belongs to that slot's recorded owner.
pub proof fn lemma_slot_ownership_bookkeeping(a: MemoryAllocator, k: int)
    requires
        alloc_inv(a),
        0 <= k < a.territories@.len(),
    ensures
        free_contains(a, k) <==> a.territories@[k].owner_id is None,
        a.territories@[k].owner_id is Some ==> owned_listed(a, k),
        forall|e: int, i: int|
            0 <= e < a.owner_territories@.len() && 0 <= i < a.owner_territories@[e].ids@.len()
                && a.owner_territories@[e].ids@[i] == k ==> Some(
                (#[trigger] a.owner_territories@[e].ids@[i], a.owner_territories@[e].owner).1,
            ) == a.territories@[k].owner_id,
{
    if free_contains(a, k) {
        let i = choose|i: int| 0 <= i < a.free_territories@.len() && a.free_territories@[i] == k;
        assert(a.territories@[a.free_territories@[i] as int].owner_id is None);
    }
    assert forall|e: int, i: int|
        0 <= e < a.owner_territories@.len() && 0 <= i < a.owner_territories@[e].ids@.len()
            && a.owner_territories@[e].ids@[i] == k implies Some(
        (#[trigger] a.owner_territories@[e].ids@[i], a.owner_territories@[e].owner).1,
    ) == a.territories@[k].owner_id by {
        assert(owner_entry_wf(a, e));
    }
}

proof fn lemma_find_owner_entry_correct(entries: Seq<OwnerEntry>, owner: u32)
    ensures
        find_owner_entry(entries, owner) >= 0 ==> {
            &&& find_owner_entry(entries, owner) < entries.len()
            &&& entries[find_owner_entry(entries, owner)].owner == owner
        },
        find_owner_entry(entries, owner) < 0 ==> forall|e: int|
            0 <= e < entries.len() ==> (#[trigger] entries[e]).owner != owner,
    decreases entries.len(),
{
    if entries.len() > 0 && entries[0].owner != owner {
        lemma_find_owner_entry_correct(entries.drop_first(), owner);
        let r = find_owner_entry(entries.drop_first(), owner);
        if r < 0 {
            assert forall|e: int| 0 <= e < entries.len() implies (#[trigger] entries[e]).owner
                != owner by {
                if e > 0 {
                    assert(entries.drop_first()[e - 1] == entries[e]);
                }
            }
        } else {
            assert(entries.drop_first()[r] == entries[r + 1]);
        }
    }
}

proof fn lemma_find_same_owners(e1: Seq<OwnerEntry>, e2: Seq<OwnerEntry>, owner: u32)
    requires
        e1.len() == e2.len(),
        forall|i: int| 0 <= i < e1.len() ==> (#[trigger] e1[i]).owner == (#[trigger] e2[i]).owner,
    ensures
        find_owner_entry(e1, owner) == find_owner_entry(e2, owner),
    decreases e1.len(),
{
    if e1.len() > 0 {
        assert(e1[0].owner == e2[0].owner);
        if e1[0].owner != owner {
            let d1 = e1.drop_first();
            let d2 = e2.drop_first();
            assert forall|i: int|
                0 <= i < d1.len() implies (#[trigger] d1[i]).owner == (#[trigger] d2[i]).owner by {
                assert(d1[i] == e1[i + 1]);
                assert(d2[i] == e2[i + 1]);
            }
            lemma_find_same_owners(d1, d2, owner);
        }
    }
}

proof fn lemma_find_push(entries: Seq<OwnerEntry>, x: OwnerEntry, owner: u32)
    ensures
        find_owner_entry(entries, owner) >= 0 ==> find_owner_entry(entries.push(x), owner)
            == find_owner_entry(entries, owner),
        find_owner_entry(entries, owner) < 0 && x.owner == owner ==> find_owner_entry(
            entries.push(x),
            owner,
        ) == entries.len(),
        find_owner_entry(entries, owner) < 0 && x.owner != owner ==> find_owner_entry(
            entries.push(x),
            owner,
        ) < 0,
    decreases entries.len(),
{
    if entries.len() == 0 {
        assert(entries.push(x).len() == 1);
        assert(entries.push(x)[0] == x);
        let d = entries.push(x).drop_first();
        assert(d =~= Seq::<OwnerEntry>::empty());
        assert(find_owner_entry(d, owner) == -1);
    } else {
        assert(entries.push(x)[0] == entries[0]);
        if entries[0].owner != owner {
            let d0 = entries.drop_first();
            let d1 = entries.push(x).drop_first();
            assert(d1 =~= d0.push(x));
            lemma_find_push(d0, x, owner);
        }
    }
}


/// Allocation preserves the allocator's invariant: the popped slot becomes
/// owned and leaves the free-list, and it is appended to its owner's list.
proof fn lemma_allocate_preserves_inv(
    a0: MemoryAllocator,
    a1: MemoryAllocator,
    owner_id: u32,
    id: usize,
)
    requires
        alloc_inv(a0),
        a0.free_territories@.len() > 0,
        id == a0.free_territories@.last(),
        a1.total_size == a0.total_size,
        a1.territory_size == a0.territory_size,
        a1.free_territories@ == a0.free_territories@.drop_last(),
        a1.territories@ == a0.territories@.update(
            id as int,
            (Territory { owner_id: Some(owner_id), ..a0.territories@[id as int] }),
        ),
        ({
            ||| exists|e: int|
                {
                    &&& 0 <= e < a0.owner_territories@.len()
                    &&& a0.owner_territories@[e].owner == owner_id
                    &&& #[trigger] a1.owner_territories@[e].owner == owner_id
                    &&& a1.owner_territories@[e].ids@ == a0.owner_territories@[e].ids@.push(id)
                    &&& a1.owner_territories@.len() == a0.owner_territories@.len()
                    &&& forall|f: int|
                        0 <= f < a0.owner_territories@.len() && f != e
                            ==> #[trigger] a1.owner_territories@[f] == a0.owner_territories@[f]
                }
            ||| {
                &&& (forall|e: int|
                    0 <= e < a0.owner_territories@.len()
                        ==> (#[trigger] a0.owner_territories@[e]).owner != owner_id)
                &&& a1.owner_territories@.len() == a0.owner_territories@.len() + 1
                &&& forall|f: int|
                    0 <= f < a0.owner_territories@.len()
                        ==> #[trigger] a1.owner_territories@[f] == a0.owner_territories@[f]
                &&& a1.owner_territories@.last().owner == owner_id
                &&& a1.owner_territories@.last().ids@ == Seq::<usize>::empty().push(id)
            }
        }),
    ensures
        alloc_inv(a1),
{
    let n = a0.territories@.len() as int;
    let f0 = a0.free_territories@;
    let f1 = a1.free_territories@;
    assert(id < n);
    assert(a0.territories@[id as int].owner_id is None);
    assert(a1.territories@.len() == n);
    // The popped slot is on the old free-list only at its last position.
    assert forall|i: int| 0 <= i < f1.len() implies (#[trigger] f1[i]) != id by {
        assert(f1[i] == f0[i]);
        assert(f0[i] != f0[f0.len() - 1]);
    }
    // Free-list clauses.
    assert forall|i: int|
        0 <= i < f1.len() implies a1.territories@[(#[trigger] f1[i]) as int].owner_id is None by {
        assert(f1[i] == f0[i]);
        assert(a0.territories@[f0[i] as int].owner_id is None);
    }
    assert forall|k: int|
        0 <= k < n && (#[trigger] a1.territories@[k]).owner_id is None implies free_contains(
            a1,
            k,
        ) by {
        assert(k != id);
        assert(a0.territories@[k].owner_id is None);
        let i = choose|i: int| 0 <= i < f0.len() && f0[i] == k;
        assert(i != f0.len() - 1);
        assert(f1[i] == k);
    }
    // Owner-list clauses.
    assert forall|e: int| 0 <= e < a1.owner_territories@.len() implies owner_entry_wf(a1, e) by {
        lemma_allocate_entry_wf(a0, a1, owner_id, id, e);
    }
    assert forall|e1: int, e2: int|
        0 <= e1 < e2 < a1.owner_territories@.len() implies (#[trigger] a1.owner_territories@[
        e1]).owner != (#[trigger] a1.owner_territories@[e2]).owner by {
        if e2 < a0.owner_territories@.len() {
            assert(a1.owner_territories@[e1].owner == a0.owner_territories@[e1].owner);
            assert(a1.owner_territories@[e2].owner == a0.owner_territories@[e2].owner);
        } else {
            assert(a1.owner_territories@[e1] == a0.owner_territories@[e1]);
        }
    }
    assert forall|k: int|
        0 <= k < n && (#[trigger] a1.territories@[k]).owner_id is Some implies owned_listed(
            a1,
            k,
        ) by {
        lemma_allocate_owned_listed(a0, a1, owner_id, id, k);
    }
}

proof fn lemma_allocate_entry_wf(
    a0: MemoryAllocator,
    a1: MemoryAllocator,
    owner_id: u32,
    id: usize,
    e: int,
)
    requires
        alloc_inv(a0),
        a0.free_territories@.len() > 0,
        id == a0.free_territories@.last(),
        a1.territories@ == a0.territories@.update(
            id as int,
            (Territory { owner_id: Some(owner_id), ..a0.territories@[id as int] }),
        ),
        0 <= e < a1.owner_territories@.len(),
        ({
            ||| {
                &&& e < a0.owner_territories@.len()
                &&& a1.owner_territories@[e] == a0.owner_territories@[e]
            }
            ||| {
                &&& e < a0.owner_territories@.len()
                &&& a0.owner_territories@[e].owner == owner_id
                &&& a1.owner_territories@[e].owner == owner_id
                &&& a1.owner_territories@[e].ids@ == a0.owner_territories@[e].ids@.push(id)
            }
            ||| {
                &&& e == a0.owner_territories@.len()
                &&& a1.owner_territories@[e].owner == owner_id
                &&& a1.owner_territories@[e].ids@ == Seq::<usize>::empty().push(id)
            }
        }),
    ensures
        owner_entry_wf(a1, e),
{
    let ent1 = a1.owner_territories@[e];
    assert(a0.territories@[id as int].owner_id is None);
    if e < a0.owner_territories@.len() {
        let ent0 = a0.owner_territories@[e];
        assert(owner_entry_wf(a0, e));
        // No old list mentions the still-unowned slot `id`.
        assert forall|i: int| 0 <= i < ent0.ids@.len() implies (#[trigger] ent0.ids@[i]) != id by {
            assert(a0.territories@[ent0.ids@[i] as int].owner_id == Some(ent0.owner));
        }
        if ent1 == ent0 {
            assert forall|i: int|
                0 <= i < ent1.ids@.len() implies (#[trigger] ent1.ids@[i]) < a1.territories@.len()
                    && a1.territories@[ent1.ids@[i] as int].owner_id == Some(ent1.owner) by {
                assert(ent1.ids@[i] != id);
                assert(a1.territories@[ent1.ids@[i] as int] == a0.territories@[
                    ent1.ids@[i] as int
                ]);
            }
        } else {
            assert(ent1.ids@ == ent0.ids@.push(id));
            assert forall|i: int|
                0 <= i < ent1.ids@.len() implies (#[trigger] ent1.ids@[i]) < a1.territories@.len()
                    && a1.territories@[ent1.ids@[i] as int].owner_id == Some(ent1.owner) by {
                if i < ent0.ids@.len() {
                    assert(ent1.ids@[i] == ent0.ids@[i]);
                    assert(ent1.ids@[i] != id);
                    assert(a1.territories@[ent1.ids@[i] as int] == a0.territories@[
                        ent1.ids@[i] as int
                    ]);
                } else {
                    assert(ent1.ids@[i] == id);
                }
            }
            assert forall|i: int, j: int|
                0 <= i < j < ent1.ids@.len() implies ent1.ids@[i] != ent1.ids@[j] by {
                if j < ent0.ids@.len() {
                } else {
                    assert(ent1.ids@[j] == id);
                    assert(ent1.ids@[i] == ent0.ids@[i]);
                    assert(ent0.ids@[i] != id);
                }
            }
        }
    } else {
        assert(ent1.ids@ == Seq::<usize>::empty().push(id));
        assert(ent1.ids@.len() == 1);
        assert(ent1.ids@[0] == id);
    }
}

proof fn lemma_allocate_owned_listed(
    a0: MemoryAllocator,
    a1: MemoryAllocator,
    owner_id: u32,
    id: usize,
    k: int,
)
    requires
        alloc_inv(a0),
        a0.free_territories@.len() > 0,
        id == a0.free_territories@.last(),
        a1.territories@ == a0.territories@.update(
            id as int,
            (Territory { owner_id: Some(owner_id), ..a0.territories@[id as int] }),
        ),
        0 <= k < a1.territories@.len(),
        a1.territories@[k].owner_id is Some,
        ({
            ||| exists|e: int|
                {
                    &&& 0 <= e < a0.owner_territories@.len()
                    &&& a0.owner_territories@[e].owner == owner_id
                    &&& #[trigger] a1.owner_territories@[e].owner == owner_id
                    &&& a1.owner_territories@[e].ids@ == a0.owner_territories@[e].ids@.push(id)
                    &&& a1.owner_territories@.len() == a0.owner_territories@.len()
                    &&& forall|f: int|
                        0 <= f < a0.owner_territories@.len() && f != e
                            ==> #[trigger] a1.owner_territories@[f] == a0.owner_territories@[f]
                }
            ||| {
                &&& (forall|e: int|
                    0 <= e < a0.owner_territories@.len()
                        ==> (#[trigger] a0.owner_territories@[e]).owner != owner_id)
                &&& a1.owner_territories@.len() == a0.owner_territories@.len() + 1
                &&& forall|f: int|
                    0 <= f < a0.owner_territories@.len()
                        ==> #[trigger] a1.owner_territories@[f] == a0.owner_territories@[f]
                &&& a1.owner_territories@.last().owner == owner_id
                &&& a1.owner_territories@.last().ids@ == Seq::<usize>::empty().push(id)
            }
        }),
    ensures
        owned_listed(a1, k),
{
    let updated = exists|e: int|
        {
            &&& 0 <= e < a0.owner_territories@.len()
            &&& a0.owner_territories@[e].owner == owner_id
            &&& #[trigger] a1.owner_territories@[e].owner == owner_id
            &&& a1.owner_territories@[e].ids@ == a0.owner_territories@[e].ids@.push(id)
            &&& a1.owner_territories@.len() == a0.owner_territories@.len()
            &&& forall|f: int|
                0 <= f < a0.owner_territories@.len() && f != e
                    ==> #[trigger] a1.owner_territories@[f] == a0.owner_territories@[f]
        };
    if k == id {
        if updated {
            let e = choose|e: int|
                {
                    &&& 0 <= e < a0.owner_territories@.len()
                    &&& a0.owner_territories@[e].owner == owner_id
                    &&& #[trigger] a1.owner_territories@[e].owner == owner_id
                    &&& a1.owner_territories@[e].ids@ == a0.owner_territories@[e].ids@.push(id)
                    &&& a1.owner_territories@.len() == a0.owner_territories@.len()
                    &&& forall|f: int|
                        0 <= f < a0.owner_territories@.len() && f != e
                            ==> #[trigger] a1.owner_territories@[f] == a0.owner_territories@[f]
                };
            let i = a1.owner_territories@[e].ids@.len() - 1;
            assert(a1.owner_territories@[e].ids@[i] == id);
            assert(owned_listed(a1, k));
        } else {
            let e = a1.owner_territories@.len() - 1;
            assert(a1.owner_territories@[e] == a1.owner_territories@.last());
            assert(a1.owner_territories@[e].ids@[0] == id);
            assert(owned_listed(a1, k));
        }
    } else {
        assert(a1.territories@[k] == a0.territories@[k]);
        assert(owned_listed(a0, k));
        let (e, i) = choose|e: int, i: int|
            {
                &&& 0 <= e < a0.owner_territories@.len()
                &&& 0 <= i < a0.owner_territories@[e].ids@.len()
                &&& a0.owner_territories@[e].ids@[i] == k
                &&& Some(a0.owner_territories@[e].owner) == a0.territories@[k].owner_id
            };
        if updated {
            let eu = choose|eu: int|
                {
                    &&& 0 <= eu < a0.owner_territories@.len()
                    &&& a0.owner_territories@[eu].owner == owner_id
                    &&& #[trigger] a1.owner_territories@[eu].owner == owner_id
                    &&& a1.owner_territories@[eu].ids@ == a0.owner_territories@[eu].ids@.push(id)
                    &&& a1.owner_territories@.len() == a0.owner_territories@.len()
                    &&& forall|f: int|
                        0 <= f < a0.owner_territories@.len() && f != eu
                            ==> #[trigger] a1.owner_territories@[f] == a0.owner_territories@[f]
                };
            if e == eu {
                assert(a1.owner_territories@[e].ids@[i] == a0.owner_territories@[e].ids@[i]);
                assert(owned_listed(a1, k));
            } else {
                assert(a1.owner_territories@[e] == a0.owner_territories@[e]);
                assert(owned_listed(a1, k));
            }
        } else {
            assert(a1.owner_territories@[e] == a0.owner_territories@[e]);
            assert(owned_listed(a1, k));
        }
    }
}


/// Deallocation preserves the allocator's invariant: the released slot
/// becomes unowned, returns to the free-list and leaves its owner's list.
proof fn lemma_deallocate_preserves_inv(
    a0: MemoryAllocator,
    a1: MemoryAllocator,
    owner_id: u32,
    id: usize,
    e: int,
    i: int,
)
    requires
        alloc_inv(a0),
        id < a0.territories@.len(),
        a0.territories@[id as int].owner_id == Some(owner_id),
        a1.total_size == a0.total_size,
        a1.territory_size == a0.territory_size,
        a1.territories@ == a0.territories@.update(
            id as int,
            (Territory {
                owner_id: None::<u32>,
                protection_level: 0u8,
                ..a0.territories@[id as int]
            }),
        ),
        a1.free_territories@ == a0.free_territories@.push(id),
        0 <= e < a0.owner_territories@.len(),
        a0.owner_territories@[e].owner == owner_id,
        0 <= i < a0.owner_territories@[e].ids@.len(),
        a0.owner_territories@[e].ids@[i] == id,
        a1.owner_territories@.len() == a0.owner_territories@.len(),
        a1.owner_territories@[e].owner == owner_id,
        a1.owner_territories@[e].ids@ == a0.owner_territories@[e].ids@.remove(i),
        forall|f: int|
            0 <= f < a0.owner_territories@.len() && f != e
                ==> #[trigger] a1.owner_territories@[f] == a0.owner_territories@[f],
    ensures
        alloc_inv(a1),
{
    let n = a0.territories@.len() as int;
    let f0 = a0.free_territories@;
    let f1 = a1.free_territories@;
    // The released slot was not on the old free-list.
    assert forall|p: int| 0 <= p < f0.len() implies (#[trigger] f0[p]) != id by {
        assert(a0.territories@[f0[p] as int].owner_id is None);
    }
    assert forall|p: int, q: int| 0 <= p < q < f1.len() implies f1[p] != f1[q] by {
        if q < f0.len() {
            assert(f1[p] == f0[p] && f1[q] == f0[q]);
        } else {
            assert(f1[q] == id && f1[p] == f0[p]);
        }
    }
    assert forall|p: int|
        0 <= p < f1.len() implies a1.territories@[(#[trigger] f1[p]) as int].owner_id is None by {
        if p < f0.len() {
            assert(f1[p] == f0[p]);
            assert(f0[p] != id);
            assert(a1.territories@[f0[p] as int] == a0.territories@[f0[p] as int]);
        } else {
            assert(f1[p] == id);
        }
    }
    assert forall|k: int|
        0 <= k < n && (#[trigger] a1.territories@[k]).owner_id is None implies free_contains(
            a1,
            k,
        ) by {
        if k == id {
            assert(f1[f1.len() - 1] == id);
        } else {
            assert(a0.territories@[k].owner_id is None);
            let p = choose|p: int| 0 <= p < f0.len() && f0[p] == k;
            assert(f1[p] == k);
        }
    }
    // The owner's list mentions the slot only at position `i`.
    let ids0 = a0.owner_territories@[e].ids@;
    let ids1 = a1.owner_territories@[e].ids@;
    assert(owner_entry_wf(a0, e));
    assert forall|q: int| 0 <= q < ids1.len() implies (#[trigger] ids1[q]) != id by {
        if q < i {
            assert(ids1[q] == ids0[q]);
            assert(ids0[q] != ids0[i]);
        } else {
            assert(ids1[q] == ids0[q + 1]);
            assert(ids0[q + 1] != ids0[i]);
        }
    }
    assert forall|f: int| 0 <= f < a1.owner_territories@.len() implies owner_entry_wf(a1, f) by {
        assert(owner_entry_wf(a0, f));
        let ent0 = a0.owner_territories@[f];
        let ent1 = a1.owner_territories@[f];
        if f != e {
            assert(ent1 == ent0);
            assert forall|q: int| 0 <= q < ent1.ids@.len() implies (#[trigger] ent1.ids@[q]) != id
                by {
                assert(a0.territories@[ent0.ids@[q] as int].owner_id == Some(ent0.owner));
                assert(ent0.owner != owner_id);
            }
            assert forall|q: int|
                0 <= q < ent1.ids@.len() implies (#[trigger] ent1.ids@[q])
                    < a1.territories@.len() && a1.territories@[ent1.ids@[q] as int].owner_id
                    == Some(ent1.owner) by {
                assert(ent1.ids@[q] != id);
                assert(a1.territories@[ent1.ids@[q] as int] == a0.territories@[
                    ent1.ids@[q] as int
                ]);
            }
        } else {
            assert forall|q: int|
                0 <= q < ent1.ids@.len() implies (#[trigger] ent1.ids@[q])
                    < a1.territories@.len() && a1.territories@[ent1.ids@[q] as int].owner_id
                    == Some(ent1.owner) by {
                if q < i {
                    assert(ent1.ids@[q] == ids0[q]);
                } else {
                    assert(ent1.ids@[q] == ids0[q + 1]);
                }
                assert(ent1.ids@[q] != id);
                assert(a1.territories@[ent1.ids@[q] as int] == a0.territories@[
                    ent1.ids@[q] as int
                ]);
            }
            assert forall|p: int, q: int|
                0 <= p < q < ent1.ids@.len() implies ent1.ids@[p] != ent1.ids@[q] by {
                if q < i {
                    assert(ent1.ids@[p] == ids0[p] && ent1.ids@[q] == ids0[q]);
                } else if p < i {
                    assert(ent1.ids@[p] == ids0[p] && ent1.ids@[q] == ids0[q + 1]);
                } else {
                    assert(ent1.ids@[p] == ids0[p + 1] && ent1.ids@[q] == ids0[q + 1]);
                }
            }
        }
    }
    assert forall|e1: int, e2: int|
        0 <= e1 < e2 < a1.owner_territories@.len() implies (#[trigger] a1.owner_territories@[
        e1]).owner != (#[trigger] a1.owner_territories@[e2]).owner by {
        assert(a1.owner_territories@[e1].owner == a0.owner_territories@[e1].owner);
        assert(a1.owner_territories@[e2].owner == a0.owner_territories@[e2].owner);
    }
    assert forall|k: int|
        0 <= k < n && (#[trigger] a1.territories@[k]).owner_id is Some implies owned_listed(
            a1,
            k,
        ) by {
        assert(k != id);
        assert(a1.territories@[k] == a0.territories@[k]);
        let (e2, i2) = choose|e2: int, i2: int|
            {
                &&& 0 <= e2 < a0.owner_territories@.len()
                &&& 0 <= i2 < a0.owner_territories@[e2].ids@.len()
                &&& a0.owner_territories@[e2].ids@[i2] == k
                &&& Some(a0.owner_territories@[e2].owner) == a0.territories@[k].owner_id
            };
        if e2 != e {
            assert(a1.owner_territories@[e2] == a0.owner_territories@[e2]);
            assert(owned_listed(a1, k));
        } else {
            assert(i2 != i);
            if i2 < i {
                assert(ids1[i2] == ids0[i2]);
                assert(owned_listed(a1, k));
            } else {
                assert(ids1[i2 - 1] == ids0[i2]);
                assert(owned_listed(a1, k));
            }
        }
    }
}

impl MemoryAllocator {
    /// Partitions the total address space into `total_size /
    /// territory_size` equal slots, all unowned and on the free-list, with
    /// resource densities drawn from the default seed.
    pub fn new(total_size: usize, territory_size: usize) -> (a: MemoryAllocator)
        requires
            territory_size >= 1,
        ensures
            alloc_inv(a),
            a.total_size == total_size,
            a.territory_size == territory_size,
            a.territories@.len() == total_size as int / territory_size as int,
            a.owner_territories@.len() == 0,
            a.free_territories@ == Seq::new(
                (total_size as int / territory_size as int) as nat,
                |i: int| i as usize,
            ),
    {
        Self::new_seeded(total_size, territory_size, 0)
    }

    /// As [`MemoryAllocator::new`], with the seed of the random source
    /// chosen by the caller.
    pub fn new_seeded(total_size: usize, territory_size: usize, seed: u64) -> (a: MemoryAllocator)
        requires
            territory_size >= 1,
        ensures
            alloc_inv(a),
            a.total_size == total_size,
            a.territory_size == territory_size,
            a.territories@.len() == total_size as int / territory_size as int,
            a.owner_territories@.len() == 0,
            a.free_territories@ == Seq::new(
                (total_size as int / territory_size as int) as nat,
                |i: int| i as usize,
            ),
    {
        let mut rng = crate::rng::rng_from_seed(seed);
        let territory_count = total_size / territory_size;
        let mut territories: Vec<Territory> = Vec::new();
        let mut free_territories: Vec<usize> = Vec::new();
        proof {
            vstd::arithmetic::div_mod::lemma_fundamental_div_mod(
                total_size as int,
                territory_size as int,
            );
            vstd::arithmetic::div_mod::lemma_mod_bound(total_size as int, territory_size as int);
        }
        let mut i: usize = 0;
        while i < territory_count
            invariant
                territory_size >= 1,
                territory_count == total_size as int / territory_size as int,
                territory_count as int * territory_size as int <= total_size,
                0 <= i <= territory_count,
                territories@.len() == i,
                free_territories@.len() == i,
                forall|k: int|
                    0 <= k < i ==> (#[trigger] territories@[k]).start_address == k
                        * territory_size,
                forall|k: int| 0 <= k < i ==> (#[trigger] territories@[k]).size == territory_size,
                forall|k: int| 0 <= k < i ==> (#[trigger] territories@[k]).owner_id is None,
                forall|k: int| 0 <= k < i ==> (#[trigger] free_territories@[k]) == k,
            decreases territory_count - i,
        {
            proof {
                assert((i as int + 1) * territory_size as int <= territory_count as int
                    * territory_size as int) by (nonlinear_arith)
                    requires i as int + 1 <= territory_count as int, territory_size as int >= 1;
                assert((i as int + 1) * territory_size as int == i as int * territory_size as int
                    + territory_size as int) by (nonlinear_arith);
                assert(i as int * territory_size as int >= 0) by (nonlinear_arith)
                    requires i as int >= 0, territory_size as int >= 0;
            }
            let density = crate::rng::next_unit(&mut rng);
            territories.push(Territory::new(i * territory_size, territory_size, density));
            free_territories.push(i);
            i = i + 1;
        }
        let a = MemoryAllocator {
            total_size,
            territory_size,
            territories,
            owner_territories: Vec::new(),
            free_territories,
        };
        proof {
            assert(a.free_territories@ =~= Seq::new(
                (total_size as int / territory_size as int) as nat,
                |i: int| i as usize,
            ));
            assert forall|k: int|
                0 <= k < a.territories@.len() && (#[trigger] a.territories@[k]).owner_id
                    is None implies free_contains(a, k) by {
                assert(a.free_territories@[k] == k);
            }
        }
        a
    }

    /// Pops one slot index from the free-list (the most recently freed
    /// slot first), marks it owned by the given owner and appends it to
    /// that owner's list. Fails without any change when no slot is free.
    pub fn allocate_territory(&mut self, owner_id: u32) -> (r: Result<usize, AllocationError>)
        requires
            alloc_inv(*old(self)),
        ensures
            alloc_inv(*final(self)),
            final(self).total_size == old(self).total_size,
            final(self).territory_size == old(self).territory_size,
            old(self).free_territories@.len() == 0 ==> {
                &&& r == Err::<usize, AllocationError>(
                    AllocationError::InsufficientMemory { requested: 1, available: 0 },
                )
                &&& final(self).territories@ == old(self).territories@
                &&& final(self).owner_territories@ == old(self).owner_territories@
                &&& final(self).free_territories@ == old(self).free_territories@
            },
            old(self).free_territories@.len() > 0 ==> {
                let id = old(self).free_territories@.last();
                &&& r == Ok::<usize, AllocationError>(id)
                &&& final(self).free_territories@ == old(self).free_territories@.drop_last()
                &&& final(self).territories@ == old(self).territories@.update(
                    id as int,
                    (Territory { owner_id: Some(owner_id), ..old(self).territories@[id as int] }),
                )
                &&& spec_owner_ids(*final(self), owner_id) == spec_owner_ids(
                    *old(self),
                    owner_id,
                ).push(id)
                &&& forall|o: u32|
                    o != owner_id ==> spec_owner_ids(*final(self), o) == spec_owner_ids(
                        *old(self),
                        o,
                    )
            },
    {
        if self.free_territories.len() == 0 {
            return Err(AllocationError::InsufficientMemory { requested: 1, available: 0 });
        }
        let popped = self.free_territories.pop();
        let territory_id = match popped {
            Some(id) => id,
            None => {
                return Err(AllocationError::InsufficientMemory { requested: 1, available: 0 });
            },
        };
        proof {
            assert(old(self).free_territories@.last() == territory_id);
            assert(self.free_territories@ =~= old(self).free_territories@.drop_last());
            assert(territory_id < self.territories@.len());
            assert(self.territories@[territory_id as int].owner_id is None);
        }
        let slot = &mut self.territories[territory_id];
        let allocated = slot.allocate_to(owner_id);
        match allocated {
            Ok(_) => {},
            Err(_) => {
                proof {
                    assert(false);
                }
                return Err(AllocationError::InsufficientMemory { requested: 1, available: 0 });
            },
        }
        proof {
            assert(self.territories@ == old(self).territories@.update(
                territory_id as int,
                (Territory {
                    owner_id: Some(owner_id),
                    ..old(self).territories@[territory_id as int]
                }),
            ));
        }
        let mut entry_index: usize = 0;
        let entry_count = self.owner_territories.len();
        while entry_index < entry_count && self.owner_territories[entry_index].owner != owner_id
            invariant
                0 <= entry_index <= entry_count,
                entry_count == self.owner_territories@.len(),
                forall|e: int|
                    0 <= e < entry_index ==> (#[trigger] self.owner_territories@[e]).owner
                        != owner_id,
            decreases entry_count - entry_index,
        {
            entry_index = entry_index + 1;
        }
        let ghost mid = *self;
        let ghost old_entries = old(self).owner_territories@;
        if entry_index < entry_count {
            let entry = &mut self.owner_territories[entry_index];
            proof {
                assert(entry.owner == owner_id);
            }
            entry.ids.push(territory_id);
            proof {
                lemma_find_owner_entry_correct(old_entries, owner_id);
                lemma_find_owner_entry_unique(old_entries, owner_id, entry_index as int);
                assert(self.owner_territories@ == old_entries.update(
                    entry_index as int,
                    (OwnerEntry {
                        owner: owner_id,
                        ids: self.owner_territories@[entry_index as int].ids,
                    }),
                ));
                assert(self.owner_territories@[entry_index as int].ids@ == old_entries[
                    entry_index as int
                ].ids@.push(territory_id));
                assert forall|o: u32| true implies find_owner_entry(self.owner_territories@, o)
                    == find_owner_entry(old_entries, o) by {
                    lemma_find_same_owners(self.owner_territories@, old_entries, o);
                }
                assert(spec_owner_ids(*self, owner_id) == spec_owner_ids(
                    *old(self),
                    owner_id,
                ).push(territory_id));
                assert forall|o: u32| o != owner_id implies spec_owner_ids(*self, o)
                    == spec_owner_ids(*old(self), o) by {
                    let f = find_owner_entry(old_entries, o);
                    if f >= 0 {
                        lemma_find_owner_entry_correct(old_entries, o);
                        assert(old_entries[f].owner == o);
                        assert(f != entry_index as int);
                        assert(self.owner_territories@[f] == old_entries[f]);
                    }
                }
                assert((entry_index as int) < old_entries.len()
                    && old_entries[entry_index as int].owner == owner_id
                    && self.owner_territories@[entry_index as int].owner == owner_id
                    && self.owner_territories@[entry_index as int].ids@ == old_entries[
                    entry_index as int].ids@.push(territory_id)
                    && self.owner_territories@.len() == old_entries.len()
                    && forall|f: int| 0 <= f < old_entries.len() && f != entry_index as int
                        ==> #[trigger] self.owner_territories@[f] == old_entries[f]);
                lemma_allocate_preserves_inv(*old(self), *self, owner_id, territory_id);
            }
        } else {
            let mut ids: Vec<usize> = Vec::new();
            ids.push(territory_id);
            self.owner_territories.push(OwnerEntry { owner: owner_id, ids });
            proof {
                lemma_find_owner_entry_correct(old_entries, owner_id);
                assert(find_owner_entry(old_entries, owner_id) < 0);
                let newent = self.owner_territories@.last();
                assert(self.owner_territories@ == old_entries.push(newent));
                lemma_find_push(old_entries, newent, owner_id);
                assert(spec_owner_ids(*old(self), owner_id) =~= Seq::<usize>::empty());
                assert(spec_owner_ids(*self, owner_id) =~= spec_owner_ids(
                    *old(self),
                    owner_id,
                ).push(territory_id));
                assert forall|o: u32| o != owner_id implies spec_owner_ids(*self, o)
                    == spec_owner_ids(*old(self), o) by {
                    lemma_find_push(old_entries, newent, o);
                    lemma_find_owner_entry_correct(old_entries, o);
                    let f = find_owner_entry(old_entries, o);
                    if f >= 0 {
                        assert(self.owner_territories@[f] == old_entries[f]);
                    }
                }
                assert((forall|e: int| 0 <= e < old_entries.len()
                        ==> (#[trigger] old_entries[e]).owner != owner_id)
                    && self.owner_territories@.len() == old_entries.len() + 1
                    && (forall|f: int| 0 <= f < old_entries.len()
                        ==> #[trigger] self.owner_territories@[f] == old_entries[f])
                    && self.owner_territories@.last().owner == owner_id
                    && self.owner_territories@.last().ids@ == Seq::<usize>::empty().push(
                    territory_id));
                lemma_allocate_preserves_inv(*old(self), *self, owner_id, territory_id);
            }
        }
        Ok(territory_id)
    }

    /// Returns a slot to the free-list: fails when the id is out of the
    /// fixed slot range or the recorded owner is not the caller; otherwise
    /// clears ownership, resets the protection level, pushes the slot onto
    /// the free-list and removes it from the owner's list.
    pub fn deallocate_territory(&mut self, territory_id: usize, owner_id: u32) -> (r: Result<
        (),
        AllocationError,
    >)
        requires
            alloc_inv(*old(self)),
        ensures
            alloc_inv(*final(self)),
            final(self).total_size == old(self).total_size,
            final(self).territory_size == old(self).territory_size,
            territory_id >= old(self).territories@.len() ==> {
                &&& r == Err::<(), AllocationError>(
                    AllocationError::InvalidTerritory { id: territory_id },
                )
                &&& final(self).territories@ == old(self).territories@
                &&& final(self).owner_territories@ == old(self).owner_territories@
                &&& final(self).free_territories@ == old(self).free_territories@
            },
            territory_id < old(self).territories@.len() && old(self).territories@[
                territory_id as int
            ].owner_id != Some(owner_id) ==> {
                &&& r == Err::<(), AllocationError>(
                    AllocationError::Territory(TerritoryError::AccessDenied),
                )
                &&& final(self).territories@ == old(self).territories@
                &&& final(self).owner_territories@ == old(self).owner_territories@
                &&& final(self).free_territories@ == old(self).free_territories@
            },
            territory_id < old(self).territories@.len() && old(self).territories@[
                territory_id as int
            ].owner_id == Some(owner_id) ==> {
                &&& r is Ok
                &&& final(self).territories@ == old(self).territories@.update(
                    territory_id as int,
                    (Territory {
                        owner_id: None::<u32>,
                        protection_level: 0u8,
                        ..old(self).territories@[territory_id as int]
                    }),
                )
                &&& final(self).free_territories@ == old(self).free_territories@.push(territory_id)
                &&& exists|pos: int|
                    {
                        &&& 0 <= pos < spec_owner_ids(*old(self), owner_id).len()
                        &&& spec_owner_ids(*old(self), owner_id)[pos] == territory_id
                        &&& spec_owner_ids(*final(self), owner_id) == spec_owner_ids(
                            *old(self),
                            owner_id,
                        ).remove(pos)
                    }
                &&& forall|o: u32|
                    o != owner_id ==> spec_owner_ids(*final(self), o) == spec_owner_ids(
                        *old(self),
                        o,
                    )
            },
    {
        if territory_id >= self.territories.len() {
            return Err(AllocationError::InvalidTerritory { id: territory_id });
        }
        let matches_owner = match self.territories[territory_id].owner_id {
            Some(owner) => owner == owner_id,
            None => false,
        };
        if !matches_owner {
            return Err(AllocationError::Territory(TerritoryError::AccessDenied));
        }
        let slot = &mut self.territories[territory_id];
        slot.release();
        proof {
            assert(self.territories@ == old(self).territories@.update(
                territory_id as int,
                (Territory {
                    owner_id: None::<u32>,
                    protection_level: 0u8,
                    ..old(self).territories@[territory_id as int]
                }),
            ));
        }
        self.free_territories.push(territory_id);
        let mut entry_index: usize = 0;
        let entry_count = self.owner_territories.len();
        while entry_index < entry_count && self.owner_territories[entry_index].owner != owner_id
            invariant
                0 <= entry_index <= entry_count,
                entry_count == self.owner_territories@.len(),
                forall|e: int|
                    0 <= e < entry_index ==> (#[trigger] self.owner_territories@[e]).owner
                        != owner_id,
            decreases entry_count - entry_index,
        {
            entry_index = entry_index + 1;
        }
        let ghost old_entries = old(self).owner_territories@;
        proof {
            assert(owned_listed(*old(self), territory_id as int));
            if entry_index >= entry_count {
                let (e, i) = choose|e: int, i: int|
                    {
                        &&& 0 <= e < old_entries.len()
                        &&& 0 <= i < old_entries[e].ids@.len()
                        &&& old_entries[e].ids@[i] == territory_id as int
                        &&& Some(old_entries[e].owner) == old(self).territories@[
                            territory_id as int
                        ].owner_id
                    };
                assert(old_entries[e].owner == owner_id);
                assert(false);
            }
            lemma_find_owner_entry_unique(old_entries, owner_id, entry_index as int);
        }
        let id_count = self.owner_territories[entry_index].ids.len();
        let mut id_index: usize = 0;
        while id_index < id_count
            && self.owner_territories[entry_index].ids[id_index] != territory_id
            invariant
                0 <= entry_index < self.owner_territories@.len(),
                id_count == self.owner_territories@[entry_index as int].ids@.len(),
                0 <= id_index <= id_count,
                forall|i: int|
                    0 <= i < id_index ==> (#[trigger] self.owner_territories@[
                        entry_index as int
                    ].ids@[i]) != territory_id,
            decreases id_count - id_index,
        {
            id_index = id_index + 1;
        }
        proof {
            if id_index >= id_count {
                let (e, i) = choose|e: int, i: int|
                    {
                        &&& 0 <= e < old_entries.len()
                        &&& 0 <= i < old_entries[e].ids@.len()
                        &&& old_entries[e].ids@[i] == territory_id as int
                        &&& Some(old_entries[e].owner) == old(self).territories@[
                            territory_id as int
                        ].owner_id
                    };
                assert(old_entries[e].owner == owner_id);
                if e != entry_index as int {
                    assert(old_entries[entry_index as int].owner == owner_id);
                }
                assert(false);
            }
        }
        let entry = &mut self.owner_territories[entry_index];
        entry.ids.remove(id_index);
        proof {
            assert(self.owner_territories@ == old_entries.update(
                entry_index as int,
                (OwnerEntry {
                    owner: old_entries[entry_index as int].owner,
                    ids: self.owner_territories@[entry_index as int].ids,
                }),
            ));
            assert(self.owner_territories@[entry_index as int].ids@ == old_entries[
                entry_index as int
            ].ids@.remove(id_index as int));
            assert forall|o: u32| true implies find_owner_entry(self.owner_territories@, o)
                == find_owner_entry(old_entries, o) by {
                lemma_find_same_owners(self.owner_territories@, old_entries, o);
            }
            assert(spec_owner_ids(*old(self), owner_id) == old_entries[entry_index as int].ids@);
            assert(spec_owner_ids(*old(self), owner_id)[id_index as int] == territory_id);
            assert(spec_owner_ids(*self, owner_id) == spec_owner_ids(*old(self), owner_id).remove(
                id_index as int,
            ));
            assert forall|o: u32| o != owner_id implies spec_owner_ids(*self, o) == spec_owner_ids(
                *old(self),
                o,
            ) by {
                let f = find_owner_entry(old_entries, o);
                if f >= 0 {
                    lemma_find_owner_entry_correct(old_entries, o);
                    assert(old_entries[f].owner == o);
                    assert(f != entry_index as int);
                    assert(self.owner_territories@[f] == old_entries[f]);
                }
            }
            lemma_deallocate_preserves_inv(
                *old(self),
                *self,
                owner_id,
                territory_id,
                entry_index as int,
                id_index as int,
            );
        }
        Ok(())
    }

    /// Whether the requester may access the slot whose range contains the
    /// address; false when no slot's range does.
    pub fn can_access(&self, address: usize, requester_id: u32) -> (r: bool)
        requires
            alloc_inv(*self),
        ensures
            r == spec_allocator_can_access(*self, address, requester_id),
    {
        let k = address / self.territory_size;
        proof {
            let ts = self.territory_size as int;
            vstd::arithmetic::div_mod::lemma_fundamental_div_mod(address as int, ts);
            vstd::arithmetic::div_mod::lemma_mod_bound(address as int, ts);
            vstd::arithmetic::div_mod::lemma_div_pos_is_pos(address as int, ts);
            // The slot containing the address, if any, is slot address/ts.
            assert forall|j: int|
                0 <= j < self.territories@.len() && spec_contains_address(
                    #[trigger] self.territories@[j],
                    address,
                ) implies j == k as int by {
                assert(self.territories@[j].start_address == j * ts);
                assert(j * ts <= address < j * ts + ts);
                vstd::arithmetic::div_mod::lemma_fundamental_div_mod_converse(
                    address as int,
                    ts,
                    j,
                    address as int - j * ts,
                );
            }
            if (k as int) < self.territories@.len() {
                assert(self.territories@[k as int].start_address == k as int * ts);
                assert(spec_contains_address(self.territories@[k as int], address));
            }
        }
        if k < self.territories.len() {
            self.territories[k].can_access(requester_id)
        } else {
            false
        }
    }

    /// The territory at the given slot index, if any.
    pub fn get_territory(&self, territory_id: usize) -> (r: Option<&Territory>)
        ensures
            territory_id < self.territories@.len() ==> r == Some(
                &self.territories@[territory_id as int],
            ),
            territory_id >= self.territories@.len() ==> r is None,
    {
        if territory_id < self.territories.len() {
            Some(&self.territories[territory_id])
        } else {
            None
        }
    }

    /// The territories owned by the given owner, in allocation order.
    pub fn get_territories_for_owner(&self, owner_id: u32) -> (r: Vec<Territory>)
        requires
            alloc_inv(*self),
        ensures
            r@.len() == spec_owner_ids(*self, owner_id).len(),
            forall|k: int|
                0 <= k < r@.len() ==> #[trigger] r@[k] == self.territories@[
                    spec_owner_ids(*self, owner_id)[k] as int
                ],
    {
        proof {
            lemma_find_owner_entry_correct(self.owner_territories@, owner_id);
        }
        let mut entry_index: usize = 0;
        let entry_count = self.owner_territories.len();
        while entry_index < entry_count && self.owner_territories[entry_index].owner != owner_id
            invariant
                0 <= entry_index <= entry_count,
                entry_count == self.owner_territories@.len(),
                forall|e: int|
                    0 <= e < entry_index ==> (#[trigger] self.owner_territories@[e]).owner
                        != owner_id,
            decreases entry_count - entry_index,
        {
            entry_index = entry_index + 1;
        }
        let mut result: Vec<Territory> = Vec::new();
        if entry_index < entry_count {
            proof {
                lemma_find_owner_entry_unique(self.owner_territories@, owner_id, entry_index as int);
            }
            let entry = &self.owner_territories[entry_index];
            let id_count = entry.ids.len();
            let mut id_index: usize = 0;
            while id_index < id_count
                invariant
                    alloc_inv(*self),
                    0 <= entry_index < self.owner_territories@.len(),
                    entry == &self.owner_territories@[entry_index as int],
                    spec_owner_ids(*self, owner_id) == entry.ids@,
                    id_count == entry.ids@.len(),
                    0 <= id_index <= id_count,
                    result@.len() == id_index,
                    forall|k: int|
                        0 <= k < id_index ==> #[trigger] result@[k] == self.territories@[
                            entry.ids@[k] as int
                        ],
                decreases id_count - id_index,
            {
                proof {
                    assert(owner_entry_wf(*self, entry_index as int));
                }
                let slot_id = entry.ids[id_index];
                result.push(self.territories[slot_id]);
                id_index = id_index + 1;
            }
        }
        result
    }

    /// How many slots are currently free.
    pub fn available_territories(&self) -> (r: usize)
        ensures
            r == self.free_territories@.len(),
    {
        self.free_territories.len()
    }

    /// The fixed number of slots.
    pub fn total_territories(&self) -> (r: usize)
        ensures
            r == self.territories@.len(),
    {
        self.territories.len()
    }

    /// The fraction of slots that are owned, in Q16.16; 0 when the
    /// allocator has no slots at all.
    pub fn memory_utilization(&self) -> (r: i64)
        requires
            alloc_inv(*self),
        ensures
            r == spec_utilization(*self),
    {
        let total = self.territories.len();
        if total == 0 {
            return 0;
        }
        let free = self.free_territories.len();
        proof {
            lemma_free_list_len(*self);
            let used: int = total as int - free as int;
            assert(used * 65536 <= total as int * 65536) by (nonlinear_arith)
                requires 0 <= used <= total as int;
            assert(used * 65536 >= 0) by (nonlinear_arith)
                requires used >= 0;
            vstd::arithmetic::div_mod::lemma_div_pos_is_pos(used * 65536, total as int);
            vstd::arithmetic::div_mod::lemma_div_is_ordered(
                used * 65536,
                total as int * 65536,
                total as int,
            );
            vstd::arithmetic::div_mod::lemma_div_by_multiple(65536, total as int);
        }
        let used = total - free;
        ((used as u128) * 65536 / (total as u128)) as i64
    }
}

proof fn lemma_find_owner_entry_unique(entries: Seq<OwnerEntry>, owner: u32, e: int)
    requires
        0 <= e < entries.len(),
        entries[e].owner == owner,
        forall|e1: int, e2: int|
            0 <= e1 < e2 < entries.len() ==> (#[trigger] entries[e1]).owner
                != (#[trigger] entries[e2]).owner,
    ensures
        find_owner_entry(entries, owner) == e,
{
    lemma_find_owner_entry_correct(entries, owner);
    let f = find_owner_entry(entries, owner);
    if f != e {
        assert(entries[f].owner == owner);
    }
}

/// On the free-list every slot appears at most once, so it can never be
/// longer than the slot table.
proof fn lemma_free_list_len(a: MemoryAllocator)
    requires
        alloc_inv(a),
    ensures
        a.free_territories@.len() <= a.territories@.len(),
{
    let f = a.free_territories@;
    let n = a.territories@.len() as int;
    if f.len() > n {
        let s = f.map_values(|x: usize| x as int);
        assert(forall|i: int| 0 <= i < s.len() ==> 0 <= #[trigger] s[i] < n);
        assert(forall|i: int, j: int| 0 <= i < j < s.len() ==> s[i] != s[j]);
        lemma_distinct_bounded_len(s, n);
    }
}

/// A sequence of distinct integers drawn from `[0, n)` has at most `n`
/// elements.
proof fn lemma_distinct_bounded_len(s: Seq<int>, n: int)
    requires
        n >= 0,
        forall|i: int| 0 <= i < s.len() ==> 0 <= #[trigger] s[i] < n,
        forall|i: int, j: int| 0 <= i < j < s.len() ==> s[i] != s[j],
    ensures
        s.len() <= n,
    decreases n,
{
    if s.len() > n {
        if n <= 0 {
            assert(0 <= s[0] < n);
        } else {
            // Remove every occurrence of value n-1 (there is at most one)
            // and recurse on the rest, which draws from [0, n-1).
            if exists|i: int| 0 <= i < s.len() && s[i] == n - 1 {
                let i = choose|i: int| 0 <= i < s.len() && s[i] == n - 1;
                let t = s.remove(i);
                assert forall|p: int| 0 <= p < t.len() implies 0 <= #[trigger] t[p] < n - 1 by {
                    if p < i {
                        assert(t[p] == s[p]);
                        assert(s[p] != n - 1);
                    } else {
                        assert(t[p] == s[p + 1]);
                        assert(s[p + 1] != n - 1);
                    }
                }
                assert forall|p: int, q: int| 0 <= p < q < t.len() implies t[p] != t[q] by {
                    if q < i {
                    } else if p < i {
                        assert(t[p] == s[p] && t[q] == s[q + 1]);
                    } else {
                        assert(t[p] == s[p + 1] && t[q] == s[q + 1]);
                    }
                }
                lemma_distinct_bounded_len(t, n - 1);
            } else {
                assert forall|p: int| 0 <= p < s.len() implies 0 <= #[trigger] s[p] < n - 1 by {
                    assert(s[p] != n - 1);
                }
                lemma_distinct_bounded_len(s, n - 1);
            }
        }
    }
}

} // verus!
