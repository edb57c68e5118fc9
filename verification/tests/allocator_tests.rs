//! Tests of the world-level memory allocator and its territories.

use neural_network_arena::{AllocationError, MemoryAllocator, Territory, TerritoryError};

#[test]
fn integration_tests_test_memory_territory_allocation() {
    let mut allocator = MemoryAllocator::new(1024, 64);

    // Allocate several territories
    let territory1 = allocator.allocate_territory(1).unwrap();
    let territory2 = allocator.allocate_territory(2).unwrap();
    let territory3 = allocator.allocate_territory(3).unwrap();

    assert_ne!(territory1, territory2);
    assert_ne!(territory2, territory3);

    // Test access control (territories might have different addressing)
    let territory1_address = territory1 * 64;
    assert!(allocator.can_access(territory1_address, 1));

    // Test deallocation
    let _ = allocator.deallocate_territory(territory1, 1);
}

#[test]
fn test_allocator_sixteen_slots_and_ownership_cycle() {
    // 1024 / 64 = 16 slots.
    let mut allocator = MemoryAllocator::new(1024, 64);
    assert_eq!(allocator.total_territories(), 16);
    assert_eq!(allocator.available_territories(), 16);

    let id1 = allocator.allocate_territory(1).unwrap();
    let id2 = allocator.allocate_territory(2).unwrap();
    assert_ne!(id1, id2);
    assert_eq!(allocator.available_territories(), 14);

    // Deallocation under the wrong owner is denied and changes nothing.
    assert_eq!(
        allocator.deallocate_territory(id1, 2),
        Err(AllocationError::Territory(TerritoryError::AccessDenied))
    );
    assert_eq!(allocator.available_territories(), 14);

    // The true owner releases the slot; the free-list is last-in-first-out,
    // so the next allocation reuses it.
    allocator.deallocate_territory(id1, 1).unwrap();
    assert_eq!(allocator.available_territories(), 15);
    let id3 = allocator.allocate_territory(3).unwrap();
    assert_eq!(id3, id1);
}

#[test]
fn test_allocator_exhaustion_and_invalid_ids() {
    let mut allocator = MemoryAllocator::new(64, 64);
    assert_eq!(allocator.total_territories(), 1);
    let _only = allocator.allocate_territory(1).unwrap();
    assert_eq!(
        allocator.allocate_territory(2),
        Err(AllocationError::InsufficientMemory { requested: 1, available: 0 })
    );
    assert_eq!(
        allocator.deallocate_territory(99, 1),
        Err(AllocationError::InvalidTerritory { id: 99 })
    );
}

#[test]
fn test_allocator_remainder_is_unused() {
    // 100 / 64 = 1: the remainder is silently unused capacity.
    let allocator = MemoryAllocator::new(100, 64);
    assert_eq!(allocator.total_territories(), 1);
}

#[test]
fn test_memory_utilization() {
    let mut allocator = MemoryAllocator::new(1024, 64);
    assert_eq!(allocator.memory_utilization(), 0);
    allocator.allocate_territory(1).unwrap();
    allocator.allocate_territory(1).unwrap();
    // 2 of 16 slots used: 0.125 in Q16.16.
    assert_eq!(allocator.memory_utilization(), 8192);
}

#[test]
fn test_owner_territory_listing() {
    let mut allocator = MemoryAllocator::new(1024, 64);
    let a = allocator.allocate_territory(7).unwrap();
    let _b = allocator.allocate_territory(8).unwrap();
    let c = allocator.allocate_territory(7).unwrap();

    let owned = allocator.get_territories_for_owner(7);
    assert_eq!(owned.len(), 2);
    assert_eq!(owned[0].start_address(), a * 64);
    assert_eq!(owned[1].start_address(), c * 64);
    assert_eq!(owned[0].owner(), Some(7));

    assert_eq!(allocator.get_territories_for_owner(9).len(), 0);

    allocator.deallocate_territory(a, 7).unwrap();
    let owned = allocator.get_territories_for_owner(7);
    assert_eq!(owned.len(), 1);
    assert_eq!(owned[0].start_address(), c * 64);
}

#[test]
fn test_can_access_rules() {
    let mut allocator = MemoryAllocator::new(256, 64);
    // Unowned slots are open to everyone.
    assert!(allocator.can_access(0, 5));
    // An address beyond every slot grants nothing.
    assert!(!allocator.can_access(4096, 5));

    let id = allocator.allocate_territory(1).unwrap();
    let address = id * 64;
    // The owner may access; with protection level 0 so may everyone else.
    assert!(allocator.can_access(address, 1));
    assert!(allocator.can_access(address, 2));
}

#[test]
fn test_get_territory() {
    let allocator = MemoryAllocator::new(256, 64);
    let territory = allocator.get_territory(2).unwrap();
    assert_eq!(territory.start_address(), 128);
    assert_eq!(territory.size(), 64);
    assert_eq!(territory.end_address(), 192);
    assert_eq!(territory.owner(), None);
    assert_eq!(territory.protection_level(), 0);
    assert!(allocator.get_territory(4).is_none());
}

#[test]
fn test_territory_ownership_and_protection() {
    let mut territory = Territory::new(64, 64, 12345);
    assert_eq!(territory.resource_density(), 12345);
    assert!(territory.contains_address(64));
    assert!(territory.contains_address(127));
    assert!(!territory.contains_address(128));

    territory.allocate_to(1).unwrap();
    assert_eq!(territory.allocate_to(2), Err(TerritoryError::AlreadyOwned));
    assert_eq!(territory.owner(), Some(1));

    // Protection only takes effect once raised above 0.
    assert!(territory.can_access(2));
    territory.set_protection_level(2);
    assert!(!territory.can_access(2));
    assert!(territory.can_access(1));

    // The protection level is capped at 3.
    territory.set_protection_level(9);
    assert_eq!(territory.protection_level(), 3);

    // Release clears the owner and the protection level.
    territory.release();
    assert_eq!(territory.owner(), None);
    assert_eq!(territory.protection_level(), 0);
    assert!(territory.can_access(2));
}

#[test]
fn test_territory_densities_are_unit_draws() {
    let allocator = MemoryAllocator::new(512, 64);
    for id in 0..8 {
        let density = allocator.get_territory(id).unwrap().resource_density();
        assert!((0..65536).contains(&density));
    }
}

#[test]
fn test_seeded_allocators_are_reproducible() {
    let a = MemoryAllocator::new_seeded(512, 64, 11);
    let b = MemoryAllocator::new_seeded(512, 64, 11);
    for id in 0..8 {
        assert_eq!(
            a.get_territory(id).unwrap().resource_density(),
            b.get_territory(id).unwrap().resource_density()
        );
    }
}
