use woodpecker::cpu::{Command, Cpu};
use woodpecker::error::CpuError;

fn new_cpu(size: usize, commands: Vec<Command>) -> Cpu {
    Cpu::new(size, commands)
}

#[test]
fn new_starts_zeroed() {
    let cpu = new_cpu(16, vec![Command::Inv]);
    assert_eq!(cpu.addr, 0);
    assert!(!cpu.store);
    assert_eq!(cpu.step, 0);
    assert!(!cpu.done);
    assert_eq!(cpu.memory.len(), 16);
    for i in 0..16 {
        assert!(!cpu.memory.get(i));
    }
}

#[test]
fn empty_program_is_done_at_once() {
    let mut cpu = new_cpu(8, vec![]);
    assert!(cpu.done);
    assert_eq!(cpu.step(), Ok(()));
    assert_eq!(cpu.step, 0);
    assert!(cpu.done);
}

#[test]
fn inc_moves_address() {
    let mut cpu = new_cpu(16, vec![Command::Inc(3)]);
    assert_eq!(cpu.step(), Ok(()));
    assert_eq!(cpu.addr, 3);
    assert_eq!(cpu.step, 1);
    assert!(cpu.done);
}

#[test]
fn inc_past_end_faults_and_freezes() {
    let mut cpu = new_cpu(4, vec![Command::Inc(10)]);
    assert_eq!(cpu.step(), Err(CpuError::OutOfMemory));
    assert_eq!(cpu.addr, 0);
    assert_eq!(cpu.step, 0);
    assert!(!cpu.done);
    // repeating the step faults again
    assert_eq!(cpu.step(), Err(CpuError::OutOfMemory));
    assert_eq!(cpu.step, 0);
}

#[test]
fn inv_flips_addressed_bit() {
    let mut cpu = new_cpu(8, vec![Command::Inv]);
    assert_eq!(cpu.step(), Ok(()));
    assert!(cpu.memory.get(0));
    for i in 1..8 {
        assert!(!cpu.memory.get(i));
    }
}

#[test]
fn inv_twice_restores_bit() {
    let mut cpu = new_cpu(8, vec![Command::Inv, Command::Inv]);
    assert_eq!(cpu.step(), Ok(()));
    assert!(cpu.memory.get(0));
    assert_eq!(cpu.step(), Ok(()));
    assert!(!cpu.memory.get(0));
}

#[test]
fn load_latches_addressed_bit() {
    let mut cpu = new_cpu(8, vec![Command::Load]);
    cpu.memory.set(0, true);
    assert_eq!(cpu.step(), Ok(()));
    assert!(cpu.store);
}

#[test]
fn cdec_without_store_is_a_no_op() {
    let mut cpu = new_cpu(8, vec![Command::Inc(4), Command::Cdec(2)]);
    assert_eq!(cpu.step(), Ok(()));
    assert_eq!(cpu.step(), Ok(()));
    assert_eq!(cpu.addr, 4);
    assert!(cpu.done);
}

#[test]
fn cdec_with_store_moves_down() {
    let mut cpu = new_cpu(8, vec![Command::Load, Command::Inc(4), Command::Cdec(2)]);
    cpu.memory.set(0, true);
    assert_eq!(cpu.step(), Ok(()));
    assert_eq!(cpu.step(), Ok(()));
    assert_eq!(cpu.step(), Ok(()));
    assert_eq!(cpu.addr, 2);
}

#[test]
fn cdec_below_zero_faults() {
    let mut cpu = new_cpu(8, vec![Command::Load, Command::Cdec(1)]);
    cpu.memory.set(0, true);
    assert_eq!(cpu.step(), Ok(()));
    assert_eq!(cpu.step(), Err(CpuError::NegativeAddr));
    assert_eq!(cpu.addr, 0);
    assert_eq!(cpu.step, 1);
}

#[test]
fn step_after_done_executes_nothing() {
    let mut cpu = new_cpu(8, vec![Command::Inv]);
    assert_eq!(cpu.step(), Ok(()));
    assert!(cpu.done);
    assert_eq!(cpu.step(), Ok(()));
    assert_eq!(cpu.step, 1);
    assert!(cpu.memory.get(0));
}

#[test]
fn done_tracks_program_end() {
    let mut cpu = new_cpu(8, vec![Command::Inv, Command::Inv]);
    assert!(!cpu.done);
    assert_eq!(cpu.step(), Ok(()));
    assert!(!cpu.done);
    assert_eq!(cpu.step(), Ok(()));
    assert!(cpu.done);
    assert_eq!(cpu.step, 2);
}

#[test]
fn forward_backward_restores_inc() {
    let mut cpu = new_cpu(16, vec![Command::Inc(5)]);
    assert_eq!(cpu.step(), Ok(()));
    assert_eq!(cpu.backward(), Ok(()));
    assert_eq!(cpu.addr, 0);
    assert_eq!(cpu.step, 0);
    assert!(!cpu.done);
}

#[test]
fn forward_backward_restores_cdec() {
    let mut cpu = new_cpu(16, vec![Command::Load, Command::Inc(4), Command::Cdec(3)]);
    cpu.memory.set(0, true);
    assert_eq!(cpu.step(), Ok(()));
    assert_eq!(cpu.step(), Ok(()));
    assert_eq!(cpu.step(), Ok(()));
    assert_eq!(cpu.addr, 1);
    assert_eq!(cpu.backward(), Ok(()));
    assert_eq!(cpu.addr, 4);
    assert_eq!(cpu.step, 2);
}

#[test]
fn forward_backward_restores_inv() {
    let mut cpu = new_cpu(16, vec![Command::Inv]);
    assert_eq!(cpu.step(), Ok(()));
    assert!(cpu.memory.get(0));
    assert_eq!(cpu.backward(), Ok(()));
    assert!(!cpu.memory.get(0));
    assert_eq!(cpu.step, 0);
}

#[test]
fn forward_backward_load_resamples_store() {
    // the documented limitation: Load's undo re-samples the addressed bit,
    // it cannot recover the latch value it overwrote
    let mut cpu = new_cpu(16, vec![Command::Load]);
    cpu.memory.set(0, true);
    cpu.store = false;
    assert_eq!(cpu.step(), Ok(()));
    assert!(cpu.store);
    assert_eq!(cpu.backward(), Ok(()));
    // addr and step are restored; store re-samples memory[0] == true
    assert_eq!(cpu.addr, 0);
    assert_eq!(cpu.step, 0);
    assert!(cpu.store);
}

#[test]
fn backward_at_start_is_a_no_op() {
    let mut cpu = new_cpu(8, vec![Command::Inv]);
    assert_eq!(cpu.backward(), Ok(()));
    assert_eq!(cpu.step, 0);
    assert!(!cpu.memory.get(0));
}

#[test]
fn run_completes_program() {
    let mut cpu = new_cpu(8, vec![Command::Inv, Command::Inc(1), Command::Inv]);
    assert_eq!(cpu.run(), Ok(()));
    assert!(cpu.done);
    assert_eq!(cpu.step, 3);
    assert!(cpu.memory.get(0));
    assert!(cpu.memory.get(1));
}

#[test]
fn run_pauses_at_fault_with_state_inspectable() {
    let mut cpu = new_cpu(8, vec![Command::Inv, Command::Inc(100), Command::Inv]);
    assert_eq!(cpu.run(), Err(CpuError::OutOfMemory));
    assert_eq!(cpu.step, 1);
    assert!(!cpu.done);
    assert!(cpu.memory.get(0));
    assert_eq!(cpu.addr, 0);
}

#[test]
fn reset_returns_to_initial_state() {
    let mut cpu = new_cpu(8, vec![Command::Inv, Command::Inc(2), Command::Load]);
    assert_eq!(cpu.run(), Ok(()));
    cpu.reset();
    assert_eq!(cpu.addr, 0);
    assert!(!cpu.store);
    assert_eq!(cpu.step, 0);
    assert!(!cpu.done);
    for i in 0..8 {
        assert!(!cpu.memory.get(i));
    }
    assert_eq!(cpu.memory.len(), 8);
}

#[test]
fn step_many_stops_at_end() {
    let mut cpu = new_cpu(8, vec![Command::Inc(1), Command::Inc(1)]);
    assert_eq!(cpu.step_many(10), Ok(()));
    assert_eq!(cpu.addr, 2);
    assert!(cpu.done);
}

#[test]
fn step_many_stops_at_fault() {
    let mut cpu = new_cpu(4, vec![Command::Inc(1), Command::Inc(100)]);
    assert_eq!(cpu.step_many(10), Err(CpuError::OutOfMemory));
    assert_eq!(cpu.addr, 1);
    assert_eq!(cpu.step, 1);
}
