//! Tests of the virtual machine: instruction execution, bounds and resource
//! checks, round-robin scheduling and the internal territory map.
//!
//! Cell values are Q16.16 fixed point: 65536 stands for 1.0.

use neural_network_arena::{Instruction, OpCode, VirtualMachine, VmError};

#[test]
fn test_vm_creation() {
    let vm = VirtualMachine::new(1024);
    assert_eq!(vm.memory_size(), 1024);
    assert_eq!(vm.cycle_count(), 0);
}

#[test]
fn test_neural_activate_instruction() {
    let mut vm = VirtualMachine::new(1024);
    // parameter 2.0
    let instruction = Instruction::new(OpCode::Activate, 0, 1, 131072);

    let result = vm.execute_instruction(&instruction);
    assert!(result.is_ok());
    assert_eq!(vm.cycle_count(), 1);
}

#[test]
fn test_neural_mutate_instruction() {
    let mut vm = VirtualMachine::new(1024);
    // mutation rate 0.1
    let instruction = Instruction::new(OpCode::Mutate, 0, 1, 6554);

    let result = vm.execute_instruction(&instruction);
    assert!(result.is_ok());
}

#[test]
fn test_neural_replicate_instruction() {
    let mut vm = VirtualMachine::new(1024);
    // parameter 2.0
    let instruction = Instruction::new(OpCode::Replicate, 0, 1, 131072);

    let result = vm.execute_instruction(&instruction);
    assert!(result.is_ok());
}

#[test]
fn test_memory_bounds_checking() {
    let mut vm = VirtualMachine::new(10);
    let instruction = Instruction::new(OpCode::Activate, 15, 20, 0);

    let result = vm.execute_instruction(&instruction);
    assert!(result.is_err());
}

#[test]
fn test_resource_consumption_tracking() {
    let mut vm = VirtualMachine::new(1024);
    let initial_resources = vm.available_resources();

    // parameter 2.0
    let instruction = Instruction::new(OpCode::Activate, 0, 1, 131072);
    vm.execute_instruction(&instruction).unwrap();

    assert!(vm.available_resources() < initial_resources);
}

#[test]
fn test_round_robin_execution() {
    let mut vm = VirtualMachine::new(1024);

    let program1 = vec![
        Instruction::new(OpCode::Activate, 0, 1, 131072),
        Instruction::new(OpCode::Mutate, 1, 2, 6554),
    ];

    let program2 = vec![
        Instruction::new(OpCode::Replicate, 0, 1, 131072),
        Instruction::new(OpCode::Activate, 2, 3, 262144),
    ];

    vm.load_program(0, program1).unwrap();
    vm.load_program(1, program2).unwrap();

    vm.execute_round_robin_cycle().unwrap();

    assert_eq!(vm.cycle_count(), 2);
}

#[test]
fn vm_tests_test_memory_territory_allocation() {
    let mut vm = VirtualMachine::new(1024);

    // Test allocating territory for program 0
    let territory_size = 256;
    let territory_id = vm.allocate_territory(0, territory_size).unwrap();

    // Territory should be allocated
    assert!(vm.has_territory(territory_id));
    assert_eq!(vm.territory_size(territory_id).unwrap(), territory_size);
    assert_eq!(vm.territory_owner(territory_id).unwrap(), 0);

    // Test memory access within territory bounds; value 42.0
    let _territory_start = vm.territory_start_address(territory_id).unwrap();
    vm.write_territory_memory(territory_id, 0, 42 * 65536).unwrap();
    assert_eq!(vm.read_territory_memory(territory_id, 0).unwrap(), 42 * 65536);

    // Test bounds checking - should fail to access outside territory
    assert!(vm.write_territory_memory(territory_id, territory_size, 100 * 65536).is_err());
    assert!(vm.read_territory_memory(territory_id, territory_size).is_err());
}

#[test]
fn test_memory_territory_isolation() {
    let mut vm = VirtualMachine::new(1024);

    // Allocate territories for two different programs
    let territory1 = vm.allocate_territory(0, 128).unwrap();
    let territory2 = vm.allocate_territory(1, 128).unwrap();

    // Program 0 should not be able to access program 1's territory;
    // values 100.0 and 200.0
    vm.write_territory_memory(territory1, 0, 100 * 65536).unwrap();
    vm.write_territory_memory(territory2, 0, 200 * 65536).unwrap();

    // Each program should only see its own data
    assert_eq!(vm.read_territory_memory(territory1, 0).unwrap(), 100 * 65536);
    assert_eq!(vm.read_territory_memory(territory2, 0).unwrap(), 200 * 65536);

    // Cross-territory access should be denied
    assert!(vm.cross_territory_access_denied(territory1, territory2));
}

#[test]
fn test_round_robin_aborts_on_first_failure() {
    // Fail-fast: the second program's out-of-bounds instruction aborts the
    // cycle; the first program has already advanced, the failing one has not.
    let mut vm = VirtualMachine::new(10);
    vm.load_program(0, vec![Instruction::new(OpCode::Activate, 0, 1, 0)]).unwrap();
    vm.load_program(1, vec![Instruction::new(OpCode::Activate, 15, 20, 0)]).unwrap();

    let result = vm.execute_round_robin_cycle();
    assert_eq!(result, Err(VmError::OutOfBounds { index: 20, size: 10 }));
    assert_eq!(vm.cycle_count(), 1);
    assert_eq!(vm.available_resources(), 9999);
    assert_eq!(vm.counters, vec![1, 0]);
}

#[test]
fn test_round_robin_skips_finished_programs() {
    let mut vm = VirtualMachine::new(1024);
    vm.load_program(7, vec![Instruction::new(OpCode::Noop, 0, 0, 0)]).unwrap();

    vm.execute_round_robin_cycle().unwrap();
    assert_eq!(vm.cycle_count(), 1);

    // The single program is exhausted: another cycle executes nothing.
    vm.execute_round_robin_cycle().unwrap();
    assert_eq!(vm.cycle_count(), 1);
}

#[test]
fn test_round_robin_empty_is_noop() {
    let mut vm = VirtualMachine::new(1024);
    assert!(vm.execute_round_robin_cycle().is_ok());
    assert_eq!(vm.cycle_count(), 0);
    assert_eq!(vm.available_resources(), 10000);
}

#[test]
fn test_load_program_replaces_and_resets_counter() {
    let mut vm = VirtualMachine::new(1024);
    vm.load_program(3, vec![Instruction::new(OpCode::Noop, 0, 0, 0)]).unwrap();
    vm.execute_round_robin_cycle().unwrap();
    assert_eq!(vm.counters, vec![1]);

    vm.load_program(
        3,
        vec![
            Instruction::new(OpCode::Noop, 0, 0, 0),
            Instruction::new(OpCode::Noop, 0, 0, 0),
        ],
    )
    .unwrap();
    assert_eq!(vm.counters, vec![0]);
    assert_eq!(vm.programs.len(), 1);
    assert_eq!(vm.programs[0].code.len(), 2);
}

#[test]
fn test_execute_single_cycle_swallows_errors() {
    let mut vm = VirtualMachine::new(10);
    let mut other = VirtualMachine::new(10);
    vm.load_program(0, vec![Instruction::new(OpCode::Activate, 15, 20, 0)]).unwrap();
    vm.execute_single_cycle(&mut other);
    assert_eq!(vm.cycle_count(), 0);
}

#[test]
fn test_instruction_costs() {
    assert_eq!(Instruction::new(OpCode::Activate, 0, 0, 0).cost(), 1);
    assert_eq!(Instruction::new(OpCode::Mutate, 0, 0, 0).cost(), 5);
    assert_eq!(Instruction::new(OpCode::Replicate, 0, 0, 0).cost(), 10);
    assert_eq!(Instruction::new(OpCode::Move, 0, 0, 0).cost(), 2);
    assert_eq!(Instruction::new(OpCode::Sense, 0, 0, 0).cost(), 1);
    assert_eq!(Instruction::new(OpCode::Noop, 0, 0, 0).cost(), 0);
}
