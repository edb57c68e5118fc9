//! One fixed-size slot of the world-level partitioned address space.

use vstd::prelude::*;

verus! {

/// Errors of operations on one allocator territory.
#[derive(Debug, Clone, Copy, PartialEq, Eq, Structural)]
pub enum TerritoryError {
    AlreadyOwned,
    AccessDenied,
}

/// One fixed-size slot of a partitioned address space: it tracks an
/// optional owner, a protection level 0-3 (0 means open access regardless
/// of ownership), and a resource density fixed at construction, a Q16.16
/// unit-interval value.
#[derive(Debug, Clone, Copy, PartialEq, Eq)]
pub struct Territory {
    pub start_address: usize,
    pub size: usize,
    pub owner_id: Option<u32>,
    pub resource_density: i64,
    pub protection_level: u8,
}

/// Whether an address falls into the territory's half-open address range.
pub open spec fn spec_contains_address(t: Territory, address: usize) -> bool {
    t.start_address <= address < t.start_address + t.size
}

/// Whether the requester may access the territory: an unowned territory is
/// open to everyone; an owned one admits its owner, and everyone else only
/// while the protection level is 0.
pub open spec fn spec_territory_can_access(t: Territory, requester_id: u32) -> bool {
    match t.owner_id {
        None => true,
        Some(owner) => owner == requester_id || t.protection_level == 0,
    }
}

impl Territory {
    /// Builds an unowned, unprotected territory over the given address
    /// range, with the given resource density.
    pub fn new(start_address: usize, size: usize, resource_density: i64) -> (t: Territory)
        requires
            start_address + size <= usize::MAX,
        ensures
            t == (Territory {
                start_address,
                size,
                owner_id: None::<u32>,
                resource_density,
                protection_level: 0u8,
            }),
    {
        Territory { start_address, size, owner_id: None, resource_density, protection_level: 0 }
    }

    /// Assigns the territory to an owner; fails without any change when it
    /// is already owned.
    pub fn allocate_to(&mut self, owner_id: u32) -> (r: Result<(), TerritoryError>)
        ensures
            old(self).owner_id is Some ==> r == Err::<(), TerritoryError>(
                TerritoryError::AlreadyOwned,
            ) && *final(self) == *old(self),
            old(self).owner_id is None ==> r is Ok && *final(self) == (Territory {
                owner_id: Some(owner_id),
                ..*old(self)
            }),
    {
        if self.owner_id.is_some() {
            return Err(TerritoryError::AlreadyOwned);
        }
        self.owner_id = Some(owner_id);
        Ok(())
    }

    /// Clears the owner and resets the protection level to 0.
    pub fn release(&mut self)
        ensures
            *final(self) == (Territory { owner_id: None::<u32>, protection_level: 0u8, ..*old(self) }),
    {
        self.owner_id = None;
        self.protection_level = 0;
    }

    /// Whether an address falls into this territory's address range.
    pub fn contains_address(&self, address: usize) -> (r: bool)
        requires
            self.start_address + self.size <= usize::MAX,
        ensures
            r == spec_contains_address(*self, address),
    {
        address >= self.start_address && address < self.start_address + self.size
    }

    /// Whether the requester may access this territory.
    pub fn can_access(&self, requester_id: u32) -> (r: bool)
        ensures
            r == spec_territory_can_access(*self, requester_id),
    {
        match self.owner_id {
            None => true,
            Some(owner) => owner == requester_id || self.protection_level == 0,
        }
    }

    /// The first address of the territory's range.
    pub fn start_address(&self) -> (r: usize)
        ensures
            r == self.start_address,
    {
        self.start_address
    }

    /// The first address beyond the territory's range.
    pub fn end_address(&self) -> (r: usize)
        requires
            self.start_address + self.size <= usize::MAX,
        ensures
            r == self.start_address + self.size,
    {
        self.start_address + self.size
    }

    /// The number of addresses in the territory's range.
    pub fn size(&self) -> (r: usize)
        ensures
            r == self.size,
    {
        self.size
    }

    /// The current owner, if any.
    pub fn owner(&self) -> (r: Option<u32>)
        ensures
            r == self.owner_id,
    {
        self.owner_id
    }

    /// The resource density fixed at construction, a Q16.16 unit-interval
    /// value.
    pub fn resource_density(&self) -> (r: i64)
        ensures
            r == self.resource_density,
    {
        self.resource_density
    }

    /// Raises or lowers the protection level, capped at 3.
    pub fn set_protection_level(&mut self, level: u8)
        ensures
            *final(self) == (Territory {
                protection_level: if level <= 3 {
                    level
                } else {
                    3u8
                },
                ..*old(self)
            }),
    {
        self.protection_level = if level <= 3 {
            level
        } else {
            3
        };
    }

    /// The current protection level.
    pub fn protection_level(&self) -> (r: u8)
        ensures
            r == self.protection_level,
    {
        self.protection_level
    }
}

} // verus!
