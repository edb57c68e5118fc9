//! Machine-checked laws of the virtual machine: what failure never does,
//! how the resource budget evolves, and how the territory map isolates its
//! regions.

use vstd::prelude::*;

use crate::fixed::lemma_activation_zero;
use crate::instruction::{Instruction, OpCode};
use crate::vm::{
    spec_cross_denied, spec_read_territory, territory_write_transition, vm_inv, VirtualMachine,
    VmError,
};
use crate::vm_exec::execute_step;

verus! {

broadcast use vstd::group_vstd_default;

/// A failing bounds or resource check never mutates memory and never
/// changes the cycle counter or the resource budget: a failed execution
/// leaves every observable part of the machine exactly as it was.
pub proof fn lemma_failed_step_preserves_state(
    m0: VirtualMachine,
    m1: VirtualMachine,
    i: Instruction,
    r: Result<(), VmError>,
)
    requires
        execute_step(m0, m1, i, r),
        r is Err,
    ensures
        m1.memory@ == m0.memory@,
        m1.cycle_count == m0.cycle_count,
        m1.available_resources == m0.available_resources,
        m1.memory_size == m0.memory_size,
        m1.programs@ == m0.programs@,
        m1.counters@ == m0.counters@,
        m1.territories@ == m0.territories@,
        m1.allocated_memory == m0.allocated_memory,
{
}

/// One executed instruction never increases the resource budget.
pub proof fn lemma_step_resources_nonincreasing(
    m0: VirtualMachine,
    m1: VirtualMachine,
    i: Instruction,
    r: Result<(), VmError>,
)
    requires
        execute_step(m0, m1, i, r),
    ensures
        m1.available_resources <= m0.available_resources,
{
}

/// Across any sequence of executions the resource budget is monotonically
/// non-increasing: in a chain of machine states linked by executed
/// instructions, every later state has at most the budget of every earlier
/// one. (The budget is an unsigned count, so it never goes negative.)
pub proof fn lemma_resources_monotone(
    trace: Seq<VirtualMachine>,
    instrs: Seq<Instruction>,
    results: Seq<Result<(), VmError>>,
)
    requires
        trace.len() == instrs.len() + 1,
        results.len() == instrs.len(),
        forall|k: int|
            0 <= k < instrs.len() ==> execute_step(
                trace[k],
                trace[k + 1],
                #[trigger] instrs[k],
                results[k],
            ),
    ensures
        forall|j: int, k: int|
            0 <= j <= k < trace.len() ==> #[trigger] trace[k].available_resources
                <= #[trigger] trace[j].available_resources,
{
    assert forall|j: int, k: int|
        0 <= j <= k < trace.len() implies #[trigger] trace[k].available_resources
        <= #[trigger] trace[j].available_resources by {
        lemma_resources_monotone_between(trace, instrs, results, j, k);
    }
}

proof fn lemma_resources_monotone_between(
    trace: Seq<VirtualMachine>,
    instrs: Seq<Instruction>,
    results: Seq<Result<(), VmError>>,
    j: int,
    k: int,
)
    requires
        trace.len() == instrs.len() + 1,
        results.len() == instrs.len(),
        forall|k: int|
            0 <= k < instrs.len() ==> execute_step(
                trace[k],
                trace[k + 1],
                #[trigger] instrs[k],
                results[k],
            ),
        0 <= j <= k < trace.len(),
    ensures
        trace[k].available_resources <= trace[j].available_resources,
    decreases k - j,
{
    if j < k {
        lemma_resources_monotone_between(trace, instrs, results, j, k - 1);
        assert(execute_step(trace[k - 1], trace[k], instrs[k - 1], results[k - 1]));
        lemma_step_resources_nonincreasing(trace[k - 1], trace[k], instrs[k - 1], results[k - 1]);
    }
}

/// Activating on a freshly constructed machine, whose memory is all zeros,
/// writes exactly zero to the target address: the activation maps 0 to 0.
pub proof fn lemma_activate_on_fresh_vm(
    m0: VirtualMachine,
    m1: VirtualMachine,
    i: Instruction,
    r: Result<(), VmError>,
)
    requires
        vm_inv(m0),
        forall|a: int| 0 <= a < m0.memory@.len() ==> m0.memory@[a] == 0i64,
        i.opcode is Activate,
        execute_step(m0, m1, i, r),
        r is Ok,
    ensures
        m1.memory@[i.arg2 as int] == 0i64,
{
    lemma_activation_zero();
}

/// Writing a territory cell and reading the same offset back returns
/// exactly the written value.
pub proof fn lemma_territory_round_trip(
    m0: VirtualMachine,
    m1: VirtualMachine,
    territory_id: usize,
    offset: usize,
    value: i64,
)
    requires
        vm_inv(m0),
        territory_write_transition(m0, m1, territory_id, offset, value),
    ensures
        spec_read_territory(m1, territory_id, offset) == Ok::<i64, VmError>(value),
{
}

/// An offset at or beyond the territory's size is rejected by a read with
/// the exact bounds violation; the write contract reports the same error.
pub proof fn lemma_territory_bounds_violation(m: VirtualMachine, territory_id: usize, offset: usize)
    requires
        vm_inv(m),
        territory_id < m.territories@.len(),
        offset >= m.territories@[territory_id as int].size,
    ensures
        spec_read_territory(m, territory_id, offset) == Err::<i64, VmError>(
            VmError::TerritoryBoundsViolation {
                offset,
                size: m.territories@[territory_id as int].size,
            },
        ),
{
}

/// Isolation of the internal territory map: the address ranges of two
/// distinct territories never overlap — no memory address `a` belongs to
/// both.
pub proof fn lemma_territories_disjoint(m: VirtualMachine, j: int, k: int, a: int)
    requires
        vm_inv(m),
        0 <= j < k < m.territories@.len(),
    ensures
        m.territories@[j].start_address + m.territories@[j].size <= m.territories@[
            k
        ].start_address,
        !((m.territories@[j].start_address <= a < m.territories@[j].start_address
            + m.territories@[j].size) && (m.territories@[k].start_address <= a < m.territories@[
            k
        ].start_address + m.territories@[k].size)),
{
}

/// Cross-territory access between two existing territories is denied
/// exactly when their owners differ; access involving a missing territory
/// is always denied.
pub proof fn lemma_cross_territory_denial(m: VirtualMachine, territory1: usize, territory2: usize)
    ensures
        territory1 < m.territories@.len() && territory2 < m.territories@.len()
            ==> spec_cross_denied(m, territory1, territory2) == (m.territories@[
            territory1 as int
        ].owner_program != m.territories@[territory2 as int].owner_program),
        territory1 >= m.territories@.len() || territory2 >= m.territories@.len()
            ==> spec_cross_denied(m, territory1, territory2),
{
}

} // verus!
