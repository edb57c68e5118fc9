//! The virtual machine: a bounded memory buffer of fixed-point cells, a
//! shared resource budget, a set of loaded programs with their program
//! counters, and an internal bump-allocated territory map.

use vstd::prelude::*;

use crate::instruction::Instruction;

verus! {

/// The fixed starting resource budget of a freshly constructed machine.
pub const INITIAL_RESOURCES: u32 = 10000;

/// One bump-allocated, ownership-tagged sub-range of the machine's memory
/// buffer. Territories are created by allocation and never destroyed.
#[derive(Debug, Clone, Copy, PartialEq, Eq, Structural)]
pub struct MemoryTerritory {
    pub id: usize,
    pub owner_program: usize,
    pub start_address: usize,
    pub size: usize,
}

/// A loaded instruction stream, identified by an integer id. Its program
/// counter is kept by the machine, parallel to the program list.
#[derive(Debug, Clone)]
pub struct Program {
    pub id: usize,
    pub code: Vec<Instruction>,
}

/// Every way an operation of the virtual machine can fail. Each failure is
/// a returned value; no operation panics.
#[derive(Debug, Clone, Copy, PartialEq, Eq, Structural)]
pub enum VmError {
    OutOfBounds { index: usize, size: usize },
    InsufficientResources { required: u32, available: u32 },
    ProgramNotFound { id: usize },
    TerritoryNotFound { id: usize },
    InsufficientMemory { requested: usize, available: usize },
    TerritoryBoundsViolation { offset: usize, size: usize },
}

/// The virtual machine. Programs are kept sorted by ascending id, which
/// fixes the round-robin visiting order and makes scheduling reproducible.
#[derive(Debug)]
pub struct VirtualMachine {
    pub memory: Vec<i64>,
    pub memory_size: usize,
    pub cycle_count: u64,
    pub available_resources: u32,
    pub programs: Vec<Program>,
    pub counters: Vec<usize>,
    pub territories: Vec<MemoryTerritory>,
    pub allocated_memory: usize,
    pub rng: rand::rngs::StdRng,
}

/// The machine's structural invariant: the buffer length matches the
/// declared memory size, the bump cursor stays within the buffer, program
/// ids are strictly ascending with one counter per program, each counter
/// stays within its program, and the territories are identified by their
/// position, lie below the bump cursor and occupy pairwise disjoint,
/// ascending address ranges.
pub open spec fn vm_inv(m: VirtualMachine) -> bool {
    &&& m.memory@.len() == m.memory_size
    &&& m.allocated_memory <= m.memory_size
    &&& m.counters@.len() == m.programs@.len()
    &&& forall|j: int, k: int|
        0 <= j < k < m.programs@.len() ==> #[trigger] m.programs@[j].id < #[trigger] m.programs@[k].id
    &&& forall|k: int|
        0 <= k < m.programs@.len() ==> #[trigger] m.counters@[k] <= m.programs@[k].code@.len()
    &&& forall|k: int| 0 <= k < m.territories@.len() ==> (#[trigger] m.territories@[k]).id == k
    &&& forall|k: int|
        0 <= k < m.territories@.len()
            ==> (#[trigger] m.territories@[k]).start_address + m.territories@[k].size
            <= m.allocated_memory
    &&& forall|j: int, k: int|
        0 <= j < k < m.territories@.len()
            ==> (#[trigger] m.territories@[j]).start_address + m.territories@[j].size
            <= (#[trigger] m.territories@[k]).start_address
}

/// The result of reading one cell of a territory, as a function of the
/// machine state.
pub open spec fn spec_read_territory(m: VirtualMachine, territory_id: usize, offset: usize) -> Result<
    i64,
    VmError,
> {
    if territory_id < m.territories@.len() {
        let t = m.territories@[territory_id as int];
        if offset < t.size {
            Ok(m.memory@[t.start_address + offset])
        } else {
            Err(VmError::TerritoryBoundsViolation { offset, size: t.size })
        }
    } else {
        Err(VmError::TerritoryNotFound { id: territory_id })
    }
}

/// A successful territory write: the addressed cell is replaced and every
/// other part of the machine is unchanged.
pub open spec fn territory_write_transition(
    m0: VirtualMachine,
    m1: VirtualMachine,
    territory_id: usize,
    offset: usize,
    value: i64,
) -> bool {
    &&& territory_id < m0.territories@.len()
    &&& offset < m0.territories@[territory_id as int].size
    &&& m1.memory@ == m0.memory@.update(
        m0.territories@[territory_id as int].start_address + offset,
        value,
    )
    &&& m1.memory_size == m0.memory_size
    &&& m1.cycle_count == m0.cycle_count
    &&& m1.available_resources == m0.available_resources
    &&& m1.programs@ == m0.programs@
    &&& m1.counters@ == m0.counters@
    &&& m1.territories@ == m0.territories@
    &&& m1.allocated_memory == m0.allocated_memory
}

/// Whether access across two internal territories is denied: denied unless
/// both ids resolve and the owners are equal.
pub open spec fn spec_cross_denied(m: VirtualMachine, territory1: usize, territory2: usize) -> bool {
    !(territory1 < m.territories@.len() && territory2 < m.territories@.len()
        && m.territories@[territory1 as int].owner_program
        == m.territories@[territory2 as int].owner_program)
}

/// A successful program load at list position `pos`: the new program stands
/// there with a fresh counter, programs with smaller ids keep their places,
/// and programs with larger ids keep their order (shifted by one when the id
/// was not present before).
pub open spec fn load_transition(
    m0: VirtualMachine,
    m1: VirtualMachine,
    id: usize,
    code: Seq<Instruction>,
) -> bool {
    exists|pos: int|
        {
            &&& 0 <= pos < m1.programs@.len()
            &&& m1.programs@[pos].id == id
            &&& m1.programs@[pos].code@ == code
            &&& m1.counters@[pos] == 0
            &&& forall|j: int|
                0 <= j < pos ==> #[trigger] m1.programs@[j] == m0.programs@[j] && m1.counters@[j]
                    == m0.counters@[j] && m0.programs@[j].id < id
            &&& if pos < m0.programs@.len() && m0.programs@[pos].id == id {
                &&& m1.programs@.len() == m0.programs@.len()
                &&& forall|j: int|
                    pos < j < m1.programs@.len() ==> #[trigger] m1.programs@[j] == m0.programs@[j]
                        && m1.counters@[j] == m0.counters@[j] && m0.programs@[j].id > id
            } else {
                &&& m1.programs@.len() == m0.programs@.len() + 1
                &&& forall|j: int|
                    pos < j < m1.programs@.len() ==> #[trigger] m1.programs@[j] == m0.programs@[
                        j - 1
                    ] && m1.counters@[j] == m0.counters@[j - 1] && m0.programs@[j - 1].id > id
            }
        }
}

impl VirtualMachine {
    /// Builds a machine with an all-zero memory buffer of the given size,
    /// the full starting resource budget, and no programs or territories.
    /// The draws of its random source are fixed by the default seed.
    pub fn new(memory_size: usize) -> (vm: VirtualMachine)
        ensures
            vm_inv(vm),
            vm.memory_size == memory_size,
            vm.memory@.len() == memory_size,
            forall|i: int| 0 <= i < memory_size ==> vm.memory@[i] == 0i64,
            vm.cycle_count == 0,
            vm.available_resources == INITIAL_RESOURCES,
            vm.programs@.len() == 0,
            vm.counters@.len() == 0,
            vm.territories@.len() == 0,
            vm.allocated_memory == 0,
    {
        Self::new_seeded(memory_size, 0)
    }

    /// As [`VirtualMachine::new`], with the seed of the random source chosen
    /// by the caller.
    pub fn new_seeded(memory_size: usize, seed: u64) -> (vm: VirtualMachine)
        ensures
            vm_inv(vm),
            vm.memory_size == memory_size,
            vm.memory@.len() == memory_size,
            forall|i: int| 0 <= i < memory_size ==> vm.memory@[i] == 0i64,
            vm.cycle_count == 0,
            vm.available_resources == INITIAL_RESOURCES,
            vm.programs@.len() == 0,
            vm.counters@.len() == 0,
            vm.territories@.len() == 0,
            vm.allocated_memory == 0,
    {
        VirtualMachine {
            memory: vec![0i64; memory_size],
            memory_size,
            cycle_count: 0,
            available_resources: INITIAL_RESOURCES,
            programs: Vec::new(),
            counters: Vec::new(),
            territories: Vec::new(),
            allocated_memory: 0,
            rng: crate::rng::rng_from_seed(seed),
        }
    }

    /// The length of the memory buffer.
    pub fn memory_size(&self) -> (r: usize)
        ensures
            r == self.memory_size,
    {
        self.memory_size
    }

    /// The number of successfully executed instructions so far.
    pub fn cycle_count(&self) -> (r: u64)
        ensures
            r == self.cycle_count,
    {
        self.cycle_count
    }

    /// The remaining resource budget.
    pub fn available_resources(&self) -> (r: u32)
        ensures
            r == self.available_resources,
    {
        self.available_resources
    }

    /// Loads an instruction stream under the given id, replacing any program
    /// previously loaded under the same id, and resets its program counter
    /// to 0. Never fails.
    pub fn load_program(&mut self, id: usize, program: Vec<Instruction>) -> (r: Result<
        (),
        VmError,
    >)
        requires
            vm_inv(*old(self)),
        ensures
            vm_inv(*final(self)),
            r is Ok,
            load_transition(*old(self), *final(self), id, program@),
            final(self).memory@ == old(self).memory@,
            final(self).memory_size == old(self).memory_size,
            final(self).cycle_count == old(self).cycle_count,
            final(self).available_resources == old(self).available_resources,
            final(self).territories@ == old(self).territories@,
            final(self).allocated_memory == old(self).allocated_memory,
    {
        let ghost m0 = *self;
        let mut pos: usize = 0;
        while pos < self.programs.len() && self.programs[pos].id < id
            invariant
                *self == m0,
                0 <= pos <= self.programs@.len(),
                forall|j: int| 0 <= j < pos ==> #[trigger] self.programs@[j].id < id,
            decreases self.programs@.len() - pos,
        {
            pos = pos + 1;
        }
        if pos < self.programs.len() && self.programs[pos].id == id {
            self.programs[pos] = Program { id, code: program };
            self.counters[pos] = 0;
            proof {
                assert(load_transition(m0, *self, id, program@)) by {
                    assert(0 <= pos < self.programs@.len() && self.programs@[pos as int].id == id
                        && self.programs@[pos as int].code@ == program@ && self.counters@[
                    pos as int] == 0);
                }
            }
        } else {
            self.programs.insert(pos, Program { id, code: program });
            self.counters.insert(pos, 0);
            proof {
                assert(load_transition(m0, *self, id, program@)) by {
                    assert(0 <= pos < self.programs@.len() && self.programs@[pos as int].id == id
                        && self.programs@[pos as int].code@ == program@ && self.counters@[
                    pos as int] == 0);
                }
            }
        }
        Ok(())
    }

    /// Allocates the next internal territory for the given owner by bumping
    /// the allocation cursor. Fails without any change when fewer than
    /// `size` cells of the buffer are still unallocated. Territory ids are
    /// assigned sequentially and never reused; there is no deallocation.
    pub fn allocate_territory(&mut self, owner_program: usize, size: usize) -> (r: Result<
        usize,
        VmError,
    >)
        requires
            vm_inv(*old(self)),
        ensures
            vm_inv(*final(self)),
            final(self).memory@ == old(self).memory@,
            final(self).memory_size == old(self).memory_size,
            final(self).cycle_count == old(self).cycle_count,
            final(self).available_resources == old(self).available_resources,
            final(self).programs@ == old(self).programs@,
            final(self).counters@ == old(self).counters@,
            size <= old(self).memory_size - old(self).allocated_memory ==> {
                &&& r == Ok::<usize, VmError>(old(self).territories@.len() as usize)
                &&& final(self).territories@ == old(self).territories@.push(
                    MemoryTerritory {
                        id: old(self).territories@.len() as usize,
                        owner_program,
                        start_address: old(self).allocated_memory,
                        size,
                    },
                )
                &&& final(self).allocated_memory == old(self).allocated_memory + size
            },
            size > old(self).memory_size - old(self).allocated_memory ==> {
                &&& r == Err::<usize, VmError>(
                    VmError::InsufficientMemory {
                        requested: size,
                        available: (old(self).memory_size - old(self).allocated_memory) as usize,
                    },
                )
                &&& final(self).territories@ == old(self).territories@
                &&& final(self).allocated_memory == old(self).allocated_memory
            },
    {
        let available_memory = self.memory_size - self.allocated_memory;
        if size > available_memory {
            return Err(VmError::InsufficientMemory { requested: size, available: available_memory });
        }
        let territory_id = self.territories.len();
        let territory = MemoryTerritory {
            id: territory_id,
            owner_program,
            start_address: self.allocated_memory,
            size,
        };
        self.territories.push(territory);
        self.allocated_memory = self.allocated_memory + size;
        Ok(territory_id)
    }

    /// Whether a territory with the given id exists.
    pub fn has_territory(&self, territory_id: usize) -> (r: bool)
        ensures
            r == (territory_id < self.territories@.len()),
    {
        territory_id < self.territories.len()
    }

    /// The size of the territory with the given id.
    pub fn territory_size(&self, territory_id: usize) -> (r: Result<usize, VmError>)
        ensures
            r == if territory_id < self.territories@.len() {
                Ok::<usize, VmError>(self.territories@[territory_id as int].size)
            } else {
                Err::<usize, VmError>(VmError::TerritoryNotFound { id: territory_id })
            },
    {
        if territory_id < self.territories.len() {
            Ok(self.territories[territory_id].size)
        } else {
            Err(VmError::TerritoryNotFound { id: territory_id })
        }
    }

    /// The owner of the territory with the given id.
    pub fn territory_owner(&self, territory_id: usize) -> (r: Result<usize, VmError>)
        ensures
            r == if territory_id < self.territories@.len() {
                Ok::<usize, VmError>(self.territories@[territory_id as int].owner_program)
            } else {
                Err::<usize, VmError>(VmError::TerritoryNotFound { id: territory_id })
            },
    {
        if territory_id < self.territories.len() {
            Ok(self.territories[territory_id].owner_program)
        } else {
            Err(VmError::TerritoryNotFound { id: territory_id })
        }
    }

    /// The start address of the territory with the given id.
    pub fn territory_start_address(&self, territory_id: usize) -> (r: Result<usize, VmError>)
        ensures
            r == if territory_id < self.territories@.len() {
                Ok::<usize, VmError>(self.territories@[territory_id as int].start_address)
            } else {
                Err::<usize, VmError>(VmError::TerritoryNotFound { id: territory_id })
            },
    {
        if territory_id < self.territories.len() {
            Ok(self.territories[territory_id].start_address)
        } else {
            Err(VmError::TerritoryNotFound { id: territory_id })
        }
    }

    /// Writes one cell of a territory, addressed by an offset from the
    /// territory's start. Fails without any change when the id does not
    /// resolve or the offset is at or beyond the territory's size.
    pub fn write_territory_memory(&mut self, territory_id: usize, offset: usize, value: i64) -> (r:
        Result<(), VmError>)
        requires
            vm_inv(*old(self)),
        ensures
            vm_inv(*final(self)),
            territory_id < old(self).territories@.len() && offset < old(self).territories@[territory_id as int].size ==> r is Ok && territory_write_transition(
                *old(self),
                *final(self),
                territory_id,
                offset,
                value,
            ),
            territory_id < old(self).territories@.len() && offset >= old(self).territories@[territory_id as int].size ==> r == Err::<(), VmError>(
                VmError::TerritoryBoundsViolation {
                    offset,
                    size: old(self).territories@[territory_id as int].size,
                },
            ) && *final(self) == *old(self),
            territory_id >= old(self).territories@.len() ==> r == Err::<(), VmError>(
                VmError::TerritoryNotFound { id: territory_id },
            ) && *final(self) == *old(self),
    {
        if territory_id >= self.territories.len() {
            return Err(VmError::TerritoryNotFound { id: territory_id });
        }
        let territory = self.territories[territory_id];
        if offset >= territory.size {
            return Err(VmError::TerritoryBoundsViolation { offset, size: territory.size });
        }
        let memory_index = territory.start_address + offset;
        self.memory[memory_index] = value;
        Ok(())
    }

    /// Reads one cell of a territory, addressed by an offset from the
    /// territory's start.
    pub fn read_territory_memory(&self, territory_id: usize, offset: usize) -> (r: Result<
        i64,
        VmError,
    >)
        requires
            vm_inv(*self),
        ensures
            r == spec_read_territory(*self, territory_id, offset),
    {
        if territory_id >= self.territories.len() {
            return Err(VmError::TerritoryNotFound { id: territory_id });
        }
        let territory = self.territories[territory_id];
        if offset >= territory.size {
            return Err(VmError::TerritoryBoundsViolation { offset, size: territory.size });
        }
        Ok(self.memory[territory.start_address + offset])
    }

    /// Whether access across two internal territories is denied: true
    /// unless both ids resolve to territories with equal owners. A missing
    /// territory denies access, as the safe default.
    pub fn cross_territory_access_denied(&self, territory1: usize, territory2: usize) -> (r: bool)
        ensures
            r == spec_cross_denied(*self, territory1, territory2),
    {
        if territory1 < self.territories.len() && territory2 < self.territories.len() {
            self.territories[territory1].owner_program
                != self.territories[territory2].owner_program
        } else {
            true
        }
    }
}

} // verus!
