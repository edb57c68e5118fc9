//! Scenario tests pinning exact values: error payloads, the resource
//! budget, sensor readings, the fixed-point activation, and mutation
//! clamping. Cell values are Q16.16 fixed point: 65536 stands for 1.0.

use neural_network_arena::{Instruction, OpCode, VirtualMachine, VmError};

#[test]
fn test_out_of_bounds_reports_larger_operand() {
    let mut vm = VirtualMachine::new(10);
    let territory = vm.allocate_territory(0, 2).unwrap();
    vm.write_territory_memory(territory, 1, 4242).unwrap();

    let instruction = Instruction::new(OpCode::Activate, 15, 20, 0);
    let result = vm.execute_instruction(&instruction);
    assert_eq!(result, Err(VmError::OutOfBounds { index: 20, size: 10 }));
    // A failing check changes nothing: not the counters, not the budget,
    // not the memory.
    assert_eq!(vm.cycle_count(), 0);
    assert_eq!(vm.available_resources(), 10000);
    assert_eq!(vm.read_territory_memory(territory, 1).unwrap(), 4242);
}

#[test]
fn test_activate_on_fresh_vm_writes_zero() {
    let mut vm = VirtualMachine::new(1024);
    let territory = vm.allocate_territory(0, 2).unwrap();

    let instruction = Instruction::new(OpCode::Activate, 0, 1, 131072);
    vm.execute_instruction(&instruction).unwrap();

    assert_eq!(vm.cycle_count(), 1);
    assert_eq!(vm.available_resources(), 9999);
    // The activation of 0.0 is exactly 0.0.
    assert_eq!(vm.read_territory_memory(territory, 1).unwrap(), 0);
}

#[test]
fn test_activation_exact_values() {
    // activation(1.0) in Q16.16; the exact fixed-point result of
    // (1 - e^(-2)) / (1 + e^(-2)).
    let mut vm = VirtualMachine::new(8);
    let territory = vm.allocate_territory(0, 4).unwrap();
    vm.write_territory_memory(territory, 0, 65536).unwrap();
    vm.write_territory_memory(territory, 2, -65536).unwrap();

    vm.execute_instruction(&Instruction::new(OpCode::Activate, 0, 1, 0)).unwrap();
    assert_eq!(vm.read_territory_memory(territory, 1).unwrap(), 49912);

    // The activation is odd.
    vm.execute_instruction(&Instruction::new(OpCode::Activate, 2, 3, 0)).unwrap();
    assert_eq!(vm.read_territory_memory(territory, 3).unwrap(), -49912);

    // Large inputs saturate at 1.0.
    vm.write_territory_memory(territory, 0, 10 * 65536).unwrap();
    vm.execute_instruction(&Instruction::new(OpCode::Activate, 0, 1, 0)).unwrap();
    assert_eq!(vm.read_territory_memory(territory, 1).unwrap(), 65536);
}

#[test]
fn test_insufficient_resources_error_value() {
    let mut vm = VirtualMachine::new(16);
    let replicate = Instruction::new(OpCode::Replicate, 0, 1, 0);
    for _ in 0..1000 {
        vm.execute_instruction(&replicate).unwrap();
    }
    assert_eq!(vm.available_resources(), 0);
    assert_eq!(vm.cycle_count(), 1000);

    let activate = Instruction::new(OpCode::Activate, 0, 1, 0);
    let result = vm.execute_instruction(&activate);
    assert_eq!(result, Err(VmError::InsufficientResources { required: 1, available: 0 }));
    // The budget check comes before the bounds check.
    let out_of_range = Instruction::new(OpCode::Activate, 50, 60, 0);
    let result = vm.execute_instruction(&out_of_range);
    assert_eq!(result, Err(VmError::InsufficientResources { required: 1, available: 0 }));
    assert_eq!(vm.cycle_count(), 1000);
}

#[test]
fn test_noop_is_free() {
    let mut vm = VirtualMachine::new(16);
    let noop = Instruction::new(OpCode::Noop, 0, 0, 0);
    vm.execute_instruction(&noop).unwrap();
    assert_eq!(vm.available_resources(), 10000);
    assert_eq!(vm.cycle_count(), 1);
}

#[test]
fn test_replicate_copies_verbatim() {
    let mut vm = VirtualMachine::new(16);
    let territory = vm.allocate_territory(0, 3).unwrap();
    vm.write_territory_memory(territory, 0, -12345678).unwrap();
    vm.execute_instruction(&Instruction::new(OpCode::Replicate, 0, 2, 0)).unwrap();
    assert_eq!(vm.read_territory_memory(territory, 2).unwrap(), -12345678);
    assert_eq!(vm.available_resources(), 9990);
}

#[test]
fn test_move_leaves_memory_unchanged() {
    let mut vm = VirtualMachine::new(16);
    let territory = vm.allocate_territory(0, 2).unwrap();
    vm.write_territory_memory(territory, 1, 777).unwrap();
    vm.execute_instruction(&Instruction::new(OpCode::Move, 0, 1, 0)).unwrap();
    assert_eq!(vm.read_territory_memory(territory, 1).unwrap(), 777);
    assert_eq!(vm.available_resources(), 9998);
    assert_eq!(vm.cycle_count(), 1);
}

#[test]
fn test_resource_sensor_reading() {
    let mut vm = VirtualMachine::new(1024);
    let territory = vm.allocate_territory(0, 8).unwrap();

    // With the full budget the resource sensor reads exactly 1.0.
    vm.execute_instruction(&Instruction::new(OpCode::Sense, 0, 3, 0)).unwrap();
    assert_eq!(vm.read_territory_memory(territory, 3).unwrap(), 65536);

    // After one charged instruction it reads 9999/10000 in Q16.16.
    vm.execute_instruction(&Instruction::new(OpCode::Sense, 0, 4, 0)).unwrap();
    assert_eq!(vm.read_territory_memory(territory, 4).unwrap(), 65529);
}

#[test]
fn test_memory_size_sensor_reading() {
    let mut vm = VirtualMachine::new(1024);
    let territory = vm.allocate_territory(0, 8).unwrap();
    // 1024 / 1024 = 1.0.
    vm.execute_instruction(&Instruction::new(OpCode::Sense, 1, 5, 0)).unwrap();
    assert_eq!(vm.read_territory_memory(territory, 5).unwrap(), 65536);

    let mut small = VirtualMachine::new(512);
    let t2 = small.allocate_territory(0, 8).unwrap();
    // 512 / 1024 = 0.5.
    small.execute_instruction(&Instruction::new(OpCode::Sense, 1, 5, 0)).unwrap();
    assert_eq!(small.read_territory_memory(t2, 5).unwrap(), 32768);
}

#[test]
fn test_other_sensor_reads_unit_draw() {
    let mut vm = VirtualMachine::new(16);
    let territory = vm.allocate_territory(0, 3).unwrap();
    vm.execute_instruction(&Instruction::new(OpCode::Sense, 9, 2, 0)).unwrap();
    let value = vm.read_territory_memory(territory, 2).unwrap();
    assert!((0..65536).contains(&value));
}

#[test]
fn test_mutate_with_zero_rate_clamps_current_value() {
    // With rate 0 the offset vanishes, so Mutate writes exactly the
    // current value clamped to [-1.0, 1.0], whatever was drawn.
    let mut vm = VirtualMachine::new(16);
    let territory = vm.allocate_territory(0, 2).unwrap();
    vm.write_territory_memory(territory, 0, 5 * 65536).unwrap();
    vm.execute_instruction(&Instruction::new(OpCode::Mutate, 0, 1, 0)).unwrap();
    assert_eq!(vm.read_territory_memory(territory, 1).unwrap(), 65536);
    assert_eq!(vm.available_resources(), 9995);
}

#[test]
fn test_mutate_offset_stays_within_half_rate() {
    // With rate 1.0 and current value 0 the result lies within
    // [-0.5, +0.5] of zero.
    let mut vm = VirtualMachine::new(16);
    let territory = vm.allocate_territory(0, 2).unwrap();
    vm.execute_instruction(&Instruction::new(OpCode::Mutate, 0, 1, 65536)).unwrap();
    let value = vm.read_territory_memory(territory, 1).unwrap();
    assert!((-32768..=32768).contains(&value));
}

#[test]
fn test_seeded_machines_are_reproducible() {
    let run = |seed: u64| -> i64 {
        let mut vm = VirtualMachine::new_seeded(16, seed);
        let territory = vm.allocate_territory(0, 2).unwrap();
        vm.execute_instruction(&Instruction::new(OpCode::Mutate, 0, 1, 65536)).unwrap();
        vm.read_territory_memory(territory, 1).unwrap()
    };
    assert_eq!(run(42), run(42));
    // The default constructor is seeded too, so it is reproducible as well.
    let mut a = VirtualMachine::new(16);
    let mut b = VirtualMachine::new(16);
    let ta = a.allocate_territory(0, 2).unwrap();
    let tb = b.allocate_territory(0, 2).unwrap();
    a.execute_instruction(&Instruction::new(OpCode::Mutate, 0, 1, 65536)).unwrap();
    b.execute_instruction(&Instruction::new(OpCode::Mutate, 0, 1, 65536)).unwrap();
    assert_eq!(
        a.read_territory_memory(ta, 1).unwrap(),
        b.read_territory_memory(tb, 1).unwrap()
    );
}

#[test]
fn test_round_robin_two_programs_advance() {
    let mut vm = VirtualMachine::new(64);
    vm.load_program(
        0,
        vec![
            Instruction::new(OpCode::Noop, 0, 0, 0),
            Instruction::new(OpCode::Noop, 0, 0, 0),
        ],
    )
    .unwrap();
    vm.load_program(
        1,
        vec![
            Instruction::new(OpCode::Noop, 0, 0, 0),
            Instruction::new(OpCode::Noop, 0, 0, 0),
        ],
    )
    .unwrap();

    vm.execute_round_robin_cycle().unwrap();

    assert_eq!(vm.cycle_count(), 2);
    assert_eq!(vm.counters, vec![1, 1]);
}

#[test]
fn test_vm_territory_errors() {
    let mut vm = VirtualMachine::new(10);
    assert_eq!(
        vm.read_territory_memory(5, 0),
        Err(VmError::TerritoryNotFound { id: 5 })
    );
    assert_eq!(
        vm.write_territory_memory(5, 0, 1),
        Err(VmError::TerritoryNotFound { id: 5 })
    );
    assert_eq!(
        vm.allocate_territory(0, 11),
        Err(VmError::InsufficientMemory { requested: 11, available: 10 })
    );
    let territory = vm.allocate_territory(0, 10).unwrap();
    assert_eq!(
        vm.allocate_territory(1, 1),
        Err(VmError::InsufficientMemory { requested: 1, available: 0 })
    );
    assert_eq!(
        vm.read_territory_memory(territory, 10),
        Err(VmError::TerritoryBoundsViolation { offset: 10, size: 10 })
    );
}

#[test]
fn test_vm_territories_never_overlap() {
    let mut vm = VirtualMachine::new(100);
    let t1 = vm.allocate_territory(0, 30).unwrap();
    let t2 = vm.allocate_territory(1, 30).unwrap();
    let s1 = vm.territory_start_address(t1).unwrap();
    let s2 = vm.territory_start_address(t2).unwrap();
    assert!(s1 + 30 <= s2);
    // Same owner: access is not denied; distinct owners: denied.
    let t3 = vm.allocate_territory(0, 10).unwrap();
    assert!(!vm.cross_territory_access_denied(t1, t3));
    assert!(vm.cross_territory_access_denied(t1, t2));
    // A missing territory denies access.
    assert!(vm.cross_territory_access_denied(t1, 99));
}
