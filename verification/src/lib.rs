//! A resource-budgeted bytecode virtual machine with a territory-partitioned
//! memory space, for an artificial-life arena.
//!
//! The virtual machine executes several independently loaded instruction
//! streams in a deterministic round-robin order over one bounded memory
//! buffer, charging a shared resource budget for every executed instruction.
//! A bump allocator carves ownership-tagged territories out of the same
//! buffer, and a standalone [`MemoryAllocator`] partitions a separate address
//! space into fixed-size territories that cycle between free and owned.
//!
//! Memory cells hold signal values in Q16.16 fixed point: the integer `v`
//! stands for the real number `v / 65536`.

pub mod fixed;
pub mod instruction;
pub mod laws;
mod rng;
pub mod selection;
pub mod sensors;
pub mod allocator;
pub mod environment;
pub mod territory;
pub mod vm;
pub mod vm_exec;

pub use fixed::FIXED_ONE;
pub use instruction::{Instruction, OpCode};
pub use allocator::{AllocationError, MemoryAllocator};
pub use environment::{ActionResult, ActionResults, EventType};
pub use selection::{ElitistSelection, RouletteWheelSelection, TournamentSelection};
pub use sensors::{ResourceType, SensorType};
pub use territory::{Territory, TerritoryError};
pub use vm::{MemoryTerritory, VirtualMachine, VmError};
