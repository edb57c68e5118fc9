//! Instruction execution and round-robin scheduling.

use vstd::prelude::*;

use crate::fixed::{
    spec_activation, spec_memory_sensor, spec_mutate, spec_resource_sensor,
};
use crate::instruction::{spec_cost, Instruction, OpCode};
use crate::vm::{vm_inv, VirtualMachine, VmError};

verus! {

/// Whether the budget covers the instruction's cost.
pub open spec fn instr_cost_ok(m: VirtualMachine, i: Instruction) -> bool {
    spec_cost(i.opcode) <= m.available_resources
}

/// Whether both address operands lie within the memory buffer.
pub open spec fn instr_bounds_ok(m: VirtualMachine, i: Instruction) -> bool {
    i.arg1 < m.memory_size && i.arg2 < m.memory_size
}

/// Whether the instruction passes both checks and will execute.
pub open spec fn instr_admissible(m: VirtualMachine, i: Instruction) -> bool {
    instr_cost_ok(m, i) && instr_bounds_ok(m, i)
}

/// The error reported for an inadmissible instruction: the resource check
/// comes first, then the bounds check, which names the larger operand.
pub open spec fn instr_error(m: VirtualMachine, i: Instruction) -> VmError {
    if !instr_cost_ok(m, i) {
        VmError::InsufficientResources {
            required: spec_cost(i.opcode),
            available: m.available_resources,
        }
    } else {
        VmError::OutOfBounds {
            index: if i.arg1 >= i.arg2 {
                i.arg1
            } else {
                i.arg2
            },
            size: m.memory_size,
        }
    }
}

/// What a sensor selected by `arg1` may report: the resource fraction and
/// the memory-size fraction are exact; any other selector reports a fresh
/// unit-interval draw.
pub open spec fn sense_value_ok(m: VirtualMachine, i: Instruction, v: i64) -> bool {
    if i.arg1 == 0 {
        v == spec_resource_sensor(m.available_resources as int)
    } else if i.arg1 == 1 {
        v == spec_memory_sensor(m.memory_size as int)
    } else {
        0 <= v < 65536
    }
}

/// How one admissible instruction transforms the memory buffer.
pub open spec fn mem_transition_ok(m0: VirtualMachine, mem1: Seq<i64>, i: Instruction) -> bool {
    match i.opcode {
        OpCode::Activate => mem1 == m0.memory@.update(
            i.arg2 as int,
            spec_activation(m0.memory@[i.arg1 as int] as int) as i64,
        ),
        OpCode::Mutate => exists|u: i64|
            0 <= u < 65536 && mem1 == m0.memory@.update(
                i.arg2 as int,
                spec_mutate(m0.memory@[i.arg1 as int] as int, i.arg3 as int, u as int) as i64,
            ),
        OpCode::Replicate => mem1 == m0.memory@.update(i.arg2 as int, m0.memory@[i.arg1 as int]),
        OpCode::Move => mem1 == m0.memory@,
        OpCode::Sense => exists|v: i64|
            sense_value_ok(m0, i, v) && mem1 == m0.memory@.update(i.arg2 as int, v),
        OpCode::Noop => mem1 == m0.memory@,
    }
}

/// The full transition relation of one `execute_instruction` call: an
/// admissible instruction mutates at most the cell addressed by `arg2`,
/// charges exactly its cost and counts one cycle; an inadmissible one
/// reports its error and changes nothing. Programs, counters and
/// territories are never touched.
pub open spec fn execute_step(
    m0: VirtualMachine,
    m1: VirtualMachine,
    i: Instruction,
    r: Result<(), VmError>,
) -> bool {
    &&& m1.memory_size == m0.memory_size
    &&& m1.programs@ == m0.programs@
    &&& m1.counters@ == m0.counters@
    &&& m1.territories@ == m0.territories@
    &&& m1.allocated_memory == m0.allocated_memory
    &&& if instr_admissible(m0, i) {
        &&& r == Ok::<(), VmError>(())
        &&& m1.available_resources == m0.available_resources - spec_cost(i.opcode)
        &&& m1.cycle_count == m0.cycle_count + 1
        &&& mem_transition_ok(m0, m1.memory@, i)
    } else {
        &&& r == Err::<(), VmError>(instr_error(m0, i))
        &&& m1.memory@ == m0.memory@
        &&& m1.available_resources == m0.available_resources
        &&& m1.cycle_count == m0.cycle_count
    }
}

/// Whether the program at position `j` still has a pending instruction.
pub open spec fn prog_live(m: VirtualMachine, j: int) -> bool {
    m.counters@[j] < m.programs@[j].code@.len()
}

/// The pending instruction of the program at position `j`.
pub open spec fn prog_pending(m: VirtualMachine, j: int) -> Instruction {
    m.programs@[j].code@[m.counters@[j] as int]
}

/// The total cost of the pending instructions of the first `k` programs
/// that are live, relative to the state at the start of a cycle.
pub open spec fn cycle_cost_upto(m: VirtualMachine, k: int) -> int
    decreases k,
{
    if k <= 0 {
        0
    } else {
        cycle_cost_upto(m, k - 1) + if prog_live(m, k - 1) {
            spec_cost(prog_pending(m, k - 1).opcode) as int
        } else {
            0
        }
    }
}

/// How many of the first `k` programs are live, relative to the state at
/// the start of a cycle.
pub open spec fn live_count_upto(m: VirtualMachine, k: int) -> int
    decreases k,
{
    if k <= 0 {
        0
    } else {
        live_count_upto(m, k - 1) + if prog_live(m, k - 1) {
            1int
        } else {
            0int
        }
    }
}

/// Whether the visit of position `j` in a cycle starting from `m` passes
/// both checks: the budget left after the earlier visits covers the pending
/// instruction's cost, and its operands are in bounds. An idle program
/// passes trivially.
pub open spec fn rr_step_ok(m: VirtualMachine, j: int) -> bool {
    prog_live(m, j) ==> {
        let i = prog_pending(m, j);
        &&& spec_cost(i.opcode) <= m.available_resources - cycle_cost_upto(m, j)
        &&& i.arg1 < m.memory_size
        &&& i.arg2 < m.memory_size
    }
}

/// The error reported when the visit of position `j` fails.
pub open spec fn rr_step_error(m: VirtualMachine, j: int) -> VmError {
    let i = prog_pending(m, j);
    let avail = m.available_resources - cycle_cost_upto(m, j);
    if spec_cost(i.opcode) > avail {
        VmError::InsufficientResources { required: spec_cost(i.opcode), available: avail as u32 }
    } else {
        VmError::OutOfBounds {
            index: if i.arg1 >= i.arg2 {
                i.arg1
            } else {
                i.arg2
            },
            size: m.memory_size,
        }
    }
}

/// Whether the visit of position `j` writes the memory cell at address `a`.
pub open spec fn rr_writes(m: VirtualMachine, j: int, a: int) -> bool {
    prog_live(m, j) && {
        let i = prog_pending(m, j);
        a == i.arg2 && (i.opcode is Activate || i.opcode is Mutate || i.opcode is Replicate
            || i.opcode is Sense)
    }
}

/// The machine after the first `k` positions of a cycle were visited
/// successfully: their counters advanced by one where live, the later
/// counters are untouched, the budget was charged for and the cycle counter
/// credited with exactly the live ones among them, and no memory cell that
/// none of them writes has changed. Programs, territories and the
/// allocation cursor are never touched by a cycle.
pub open spec fn rr_partial(m0: VirtualMachine, m1: VirtualMachine, k: int) -> bool {
    &&& m1.memory_size == m0.memory_size
    &&& m1.territories@ == m0.territories@
    &&& m1.allocated_memory == m0.allocated_memory
    &&& m1.programs@ == m0.programs@
    &&& m1.counters@.len() == m0.counters@.len()
    &&& forall|j: int|
        0 <= j < k ==> #[trigger] m1.counters@[j] == m0.counters@[j] + if prog_live(m0, j) {
            1int
        } else {
            0int
        }
    &&& forall|j: int|
        k <= j < m0.counters@.len() ==> #[trigger] m1.counters@[j] == m0.counters@[j]
    &&& m1.available_resources == m0.available_resources - cycle_cost_upto(m0, k)
    &&& m1.cycle_count == m0.cycle_count + live_count_upto(m0, k)
    &&& m1.memory@.len() == m0.memory@.len()
    &&& forall|a: int|
        0 <= a < m0.memory@.len() && (forall|j: int|
            0 <= j < k ==> !(#[trigger] rr_writes(m0, j, a))) ==> #[trigger] m1.memory@[a]
            == m0.memory@[a]
}

/// The full transition relation of one `execute_round_robin_cycle` call:
/// either every position was visited successfully, or the cycle aborted at
/// the first failing position `f` with that visit's error, the positions
/// before `f` already advanced and everything from `f` on untouched.
pub open spec fn rr_transition(
    m0: VirtualMachine,
    m1: VirtualMachine,
    r: Result<(), VmError>,
) -> bool {
    let n = m0.programs@.len() as int;
    match r {
        Ok(_) => (forall|j: int| 0 <= j < n ==> rr_step_ok(m0, j)) && rr_partial(m0, m1, n),
        Err(e) => exists|f: int|
            {
                &&& 0 <= f < n
                &&& !rr_step_ok(m0, f)
                &&& forall|j: int| 0 <= j < f ==> rr_step_ok(m0, j)
                &&& e == rr_step_error(m0, f)
                &&& rr_partial(m0, m1, f)
            },
    }
}

proof fn lemma_live_count_bounds(m: VirtualMachine, k: int)
    ensures
        0 <= live_count_upto(m, k) <= if k <= 0 {
            0int
        } else {
            k
        },
    decreases k,
{
    if k > 0 {
        lemma_live_count_bounds(m, k - 1);
    }
}

proof fn lemma_cycle_cost_nonneg(m: VirtualMachine, k: int)
    ensures
        cycle_cost_upto(m, k) >= 0,
    decreases k,
{
    if k > 0 {
        lemma_cycle_cost_nonneg(m, k - 1);
    }
}

/// One executed instruction changes no memory cell other than the one its
/// second operand addresses, and a failed or non-writing one changes none.
pub proof fn lemma_step_mem_frame(
    m0: VirtualMachine,
    m1: VirtualMachine,
    i: Instruction,
    r: Result<(), VmError>,
)
    requires
        vm_inv(m0),
        execute_step(m0, m1, i, r),
    ensures
        m1.memory@.len() == m0.memory@.len(),
        forall|a: int|
            0 <= a < m0.memory@.len() && a != i.arg2 ==> #[trigger] m1.memory@[a] == m0.memory@[a],
        !(i.opcode is Activate || i.opcode is Mutate || i.opcode is Replicate
            || i.opcode is Sense) ==> m1.memory@ == m0.memory@,
        r is Err ==> m1.memory@ == m0.memory@,
{
    if instr_admissible(m0, i) {
        assert(mem_transition_ok(m0, m1.memory@, i));
        match i.opcode {
            OpCode::Mutate => {
                assert(exists|u: i64|
                    0 <= u < 65536 && m1.memory@ == m0.memory@.update(
                        i.arg2 as int,
                        spec_mutate(m0.memory@[i.arg1 as int] as int, i.arg3 as int, u as int) as i64,
                    ));
                let u = choose|u: i64|
                    0 <= u < 65536 && m1.memory@ == m0.memory@.update(
                        i.arg2 as int,
                        spec_mutate(m0.memory@[i.arg1 as int] as int, i.arg3 as int, u as int) as i64,
                    );
                assert(m1.memory@ == m0.memory@.update(
                    i.arg2 as int,
                    spec_mutate(m0.memory@[i.arg1 as int] as int, i.arg3 as int, u as int) as i64,
                ));
                assert(m1.memory@.len() == m0.memory@.len());
            },
            OpCode::Sense => {
                assert(exists|v: i64|
                    sense_value_ok(m0, i, v) && m1.memory@ == m0.memory@.update(i.arg2 as int, v));
                let v = choose|v: i64|
                    sense_value_ok(m0, i, v) && m1.memory@ == m0.memory@.update(i.arg2 as int, v);
                assert(m1.memory@ == m0.memory@.update(i.arg2 as int, v));
            },
            _ => {},
        }
        assert(m1.memory@.len() == m0.memory@.len());
        assert forall|a: int|
            0 <= a < m0.memory@.len() && a != i.arg2 implies #[trigger] m1.memory@[a]
            == m0.memory@[a] by {}
    } else {
        assert(m1.memory@ == m0.memory@);
    }
}

impl VirtualMachine {
    /// Executes one instruction against the machine: checks the resource
    /// budget, then the address bounds, then dispatches on the opcode,
    /// charges the cost and counts the cycle. A failing check leaves the
    /// machine exactly as it was.
    pub fn execute_instruction(&mut self, instruction: &Instruction) -> (r: Result<(), VmError>)
        requires
            vm_inv(*old(self)),
            old(self).cycle_count < u64::MAX,
        ensures
            vm_inv(*final(self)),
            execute_step(*old(self), *final(self), *instruction, r),
            r is Ok <==> instr_admissible(*old(self), *instruction),
    {
        let cost = instruction.cost();
        if self.available_resources < cost {
            return Err(VmError::InsufficientResources {
                required: cost,
                available: self.available_resources,
            });
        }
        if instruction.arg1 >= self.memory_size || instruction.arg2 >= self.memory_size {
            let index = if instruction.arg1 >= instruction.arg2 {
                instruction.arg1
            } else {
                instruction.arg2
            };
            return Err(VmError::OutOfBounds { index, size: self.memory_size });
        }
        match instruction.opcode {
            OpCode::Activate => {
                let input = self.memory[instruction.arg1];
                let output = crate::fixed::activation_cell(input);
                self.memory[instruction.arg2] = output;
                proof {
                    crate::fixed::lemma_activation_range(input as int);
                    assert(output == spec_activation(input as int) as i64);
                    assert(mem_transition_ok(*old(self), self.memory@, *instruction));
                }
            },
            OpCode::Mutate => {
                let current = self.memory[instruction.arg1];
                let draw = crate::rng::next_unit(&mut self.rng);
                let mutated = crate::fixed::mutate_cell(current, instruction.arg3, draw);
                self.memory[instruction.arg2] = mutated;
                proof {
                    assert(mutated == spec_mutate(
                        current as int,
                        instruction.arg3 as int,
                        draw as int,
                    ) as i64);
                    assert(0 <= draw < 65536 && self.memory@ == old(self).memory@.update(
                        instruction.arg2 as int,
                        spec_mutate(
                            old(self).memory@[instruction.arg1 as int] as int,
                            instruction.arg3 as int,
                            draw as int,
                        ) as i64,
                    ));
                    assert(mem_transition_ok(*old(self), self.memory@, *instruction));
                }
            },
            OpCode::Replicate => {
                let source = self.memory[instruction.arg1];
                self.memory[instruction.arg2] = source;
            },
            OpCode::Move => {},
            OpCode::Sense => {
                let sensed = if instruction.arg1 == 0 {
                    crate::fixed::resource_sensor_cell(self.available_resources)
                } else if instruction.arg1 == 1 {
                    crate::fixed::memory_sensor_cell(self.memory_size)
                } else {
                    crate::rng::next_unit(&mut self.rng)
                };
                self.memory[instruction.arg2] = sensed;
                proof {
                    assert(sense_value_ok(*old(self), *instruction, sensed) && self.memory@ == old(
                        self,
                    ).memory@.update(instruction.arg2 as int, sensed));
                    assert(mem_transition_ok(*old(self), self.memory@, *instruction));
                }
            },
            OpCode::Noop => {},
        }
        self.available_resources = self.available_resources - cost;
        self.cycle_count = self.cycle_count + 1;
        Ok(())
    }

    /// Advances every loaded program by at most one instruction, visiting
    /// the programs in ascending id order. A program whose counter has
    /// reached its length is skipped. The first failing instruction aborts
    /// the whole cycle with its error: the programs already visited keep
    /// their advanced counters, the failing one and those not yet visited
    /// are untouched. With no programs loaded the call is a no-op success.
    pub fn execute_round_robin_cycle(&mut self) -> (r: Result<(), VmError>)
        requires
            vm_inv(*old(self)),
            old(self).cycle_count + old(self).programs@.len() <= u64::MAX,
        ensures
            vm_inv(*final(self)),
            rr_transition(*old(self), *final(self), r),
            r is Ok <==> forall|j: int|
                0 <= j < old(self).programs@.len() ==> rr_step_ok(*old(self), j),
    {
        let ghost m0 = *self;
        if self.programs.len() == 0 {
            proof {
                assert(rr_partial(m0, *self, 0));
            }
            return Ok(());
        }
        let n = self.programs.len();
        let mut k: usize = 0;
        while k < n
            invariant
                m0 == *old(self),
                vm_inv(*self),
                vm_inv(m0),
                n == m0.programs@.len(),
                m0.cycle_count + n <= u64::MAX,
                0 <= k <= n,
                forall|j: int| 0 <= j < k ==> rr_step_ok(m0, j),
                rr_partial(m0, *self, k as int),
            decreases n - k,
        {
            proof {
                lemma_live_count_bounds(m0, k as int);
                lemma_cycle_cost_nonneg(m0, k as int);
            }
            let pc = self.counters[k];
            let code_len = self.programs[k].code.len();
            if pc < code_len {
                let instr = self.programs[k].code[pc];
                proof {
                    assert(instr == prog_pending(m0, k as int));
                }
                let ghost before = *self;
                let step = self.execute_instruction(&instr);
                proof {
                    lemma_step_mem_frame(before, *self, instr, step);
                    assert(before.memory@.len() == m0.memory@.len());
                    assert(cycle_cost_upto(m0, k as int + 1) == cycle_cost_upto(m0, k as int)
                        + spec_cost(prog_pending(m0, k as int).opcode));
                    assert(live_count_upto(m0, k as int + 1) == live_count_upto(m0, k as int) + 1);
                }
                match step {
                    Ok(_) => {
                        proof {
                            assert(rr_step_ok(m0, k as int));
                        }
                        self.counters[k] = pc + 1;
                        proof {
                            assert forall|a: int|
                                0 <= a < m0.memory@.len() && (forall|j: int|
                                    0 <= j < k as int + 1 ==> !(#[trigger] rr_writes(
                                        m0,
                                        j,
                                        a,
                                    ))) implies #[trigger] self.memory@[a] == m0.memory@[a] by {
                                assert(!rr_writes(m0, k as int, a));
                                assert(a != instr.arg2 || !(instr.opcode is Activate
                                    || instr.opcode is Mutate || instr.opcode is Replicate
                                    || instr.opcode is Sense));
                                assert(before.memory@[a] == m0.memory@[a]);
                            }
                            assert(rr_partial(m0, *self, k as int + 1));
                        }
                    },
                    Err(e) => {
                        proof {
                            assert(!instr_admissible(before, instr));
                            assert(!rr_step_ok(m0, k as int));
                            assert(e == instr_error(before, instr));
                            assert(e == rr_step_error(m0, k as int));
                            assert(rr_partial(m0, *self, k as int));
                            assert(rr_transition(m0, *self, Err::<(), VmError>(e)));
                        }
                        return Err(e);
                    },
                }
            } else {
                proof {
                    assert(!prog_live(m0, k as int));
                    assert(cycle_cost_upto(m0, k as int + 1) == cycle_cost_upto(m0, k as int));
                    assert(live_count_upto(m0, k as int + 1) == live_count_upto(m0, k as int));
                    assert(rr_step_ok(m0, k as int));
                    assert(rr_partial(m0, *self, k as int + 1));
                }
            }
            k = k + 1;
        }
        Ok(())
    }

    /// Runs one round-robin cycle and discards its outcome. The second
    /// machine parameter is accepted for interface compatibility and left
    /// untouched.
    pub fn execute_single_cycle(&mut self, _vm: &mut VirtualMachine)
        requires
            vm_inv(*old(self)),
            old(self).cycle_count + old(self).programs@.len() <= u64::MAX,
        ensures
            vm_inv(*final(self)),
            exists|r: Result<(), VmError>| rr_transition(*old(self), *final(self), r),
            *final(_vm) == *old(_vm),
    {
        let outcome = self.execute_round_robin_cycle();
        proof {
            assert(rr_transition(*old(self), *self, outcome));
        }
        if outcome.is_err() {
        }
    }
}

} // verus!
