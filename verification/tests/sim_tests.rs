use simpletron::sim::{MachineFault, Simpletron, StepOutcome};
use simpletron::word::encode_word;

fn run_until_halt(sim: &mut Simpletron, max_steps: usize) {
    let mut steps = 0;
    while !sim.is_halted() && steps < max_steps {
        match sim.execute_step() {
            StepOutcome::Input { addr } => {
                // the host would read from the terminal; feed a fixed value
                sim.set_memory(addr, 1);
            }
            _ => {}
        }
        steps += 1;
    }
    assert!(sim.is_halted(), "program did not halt within {} steps", max_steps);
}

#[test]
fn load_immediate_and_halt() {
    let mut sim = Simpletron::new(vec![encode_word(21, 7), encode_word(45, 0)]);
    assert_eq!(sim.execute_step(), StepOutcome::Ran);
    assert_eq!(sim.get_acc(), 7);
    assert_eq!(
        sim.execute_step(),
        StepOutcome::CoreDump { start_page: 0, end_page: 0 }
    );
    assert!(sim.is_halted());
    assert_eq!(sim.halt_fault(), None);
    assert_eq!(sim.execute_step(), StepOutcome::AlreadyHalted);
}

#[test]
fn indexed_add_reaches_ten() {
    // ix = mem[4] = 3; acc = 7; acc += mem[ix] = mem[3] = 3
    let mut sim = Simpletron::new(vec![
        encode_word(22, 4),
        encode_word(21, 7),
        encode_word(31, 0),
        3,
        3,
    ]);
    assert_eq!(sim.execute_step(), StepOutcome::Ran);
    assert_eq!(sim.get_ix(), 3);
    assert_eq!(sim.execute_step(), StepOutcome::Ran);
    assert_eq!(sim.execute_step(), StepOutcome::Ran);
    assert_eq!(sim.get_acc(), 10);
}

#[test]
fn division_by_zero_halts_without_changing_accumulator() {
    // ix = mem[4] = 9; acc = 5; div acc [idx] with mem[9] == 0
    let mut sim = Simpletron::new(vec![
        encode_word(22, 4),
        encode_word(21, 5),
        encode_word(35, 0),
        encode_word(45, 0),
        9,
    ]);
    sim.execute_step();
    sim.execute_step();
    assert_eq!(sim.get_acc(), 5);
    sim.execute_step();
    assert!(sim.is_halted());
    assert_eq!(sim.halt_fault(), Some(MachineFault::DivisionByZero));
    assert_eq!(sim.get_acc(), 5);
}

#[test]
fn direct_division_truncates_toward_zero() {
    // acc = -7; div acc [3] with mem[3] == 2 gives -3
    let mut sim = Simpletron::new(vec![
        encode_word(21, -7),
        encode_word(34, 3),
        encode_word(45, 0),
        2,
    ]);
    sim.execute_step();
    sim.execute_step();
    assert_eq!(sim.get_acc(), -3);
}

#[test]
fn out_of_bounds_write_halts_and_sticks() {
    let mut sim = Simpletron::new(vec![encode_word(21, 7), encode_word(45, 0)]);
    sim.set_memory(10000, 1);
    assert!(sim.is_halted());
    assert_eq!(sim.halt_fault(), Some(MachineFault::MemoryOutOfBounds));
    // no further step executes
    assert_eq!(sim.execute_step(), StepOutcome::AlreadyHalted);
    assert_eq!(sim.get_acc(), 0);
}

#[test]
fn out_of_range_image_word_faults_at_load() {
    let mut sim = Simpletron::new(vec![1000000]);
    assert!(sim.is_halted());
    assert_eq!(sim.halt_fault(), Some(MachineFault::MemoryValueOverflow));
    assert_eq!(sim.get_memory(0), 0);
}

#[test]
fn read_and_write_are_host_delegated() {
    let mut sim = Simpletron::new(vec![
        encode_word(10, 5),
        encode_word(11, 5),
        encode_word(45, 0),
    ]);
    assert_eq!(sim.execute_step(), StepOutcome::Input { addr: 5 });
    sim.set_memory(5, 42);
    assert_eq!(sim.execute_step(), StepOutcome::Output { value: 42 });
    sim.execute_step();
    assert!(sim.is_halted());
}

#[test]
fn extension_slots_report_to_host() {
    let mut sim = Simpletron::new(vec![encode_word(12, 0), encode_word(0, 3)]);
    sim.add_extension_instruction(12);
    sim.add_extension_instruction(0);
    assert_eq!(
        sim.execute_step(),
        StepOutcome::Extension { opcode: 12, operand: 0 }
    );
    assert_eq!(
        sim.execute_step(),
        StepOutcome::Extension { opcode: 0, operand: 3 }
    );
}

#[test]
fn unpopulated_opcode_halts() {
    let mut sim = Simpletron::new(vec![encode_word(12, 0)]);
    sim.execute_step();
    assert!(sim.is_halted());
    assert_eq!(sim.halt_fault(), Some(MachineFault::UnimplementedOpcode));
}

#[test]
fn invalid_opcode_halts() {
    let mut sim = Simpletron::new(vec![encode_word(99, 0)]);
    sim.execute_step();
    assert!(sim.is_halted());
    assert_eq!(sim.halt_fault(), Some(MachineFault::InvalidOpcode));
}

#[test]
fn swap_inc_dec() {
    let mut sim = Simpletron::new(vec![
        encode_word(21, 9),
        encode_word(43, 0),
        encode_word(38, 0),
        encode_word(38, 0),
        encode_word(39, 0),
        encode_word(45, 0),
    ]);
    sim.execute_step();
    sim.execute_step();
    assert_eq!(sim.get_acc(), 0);
    assert_eq!(sim.get_ix(), 9);
    sim.execute_step();
    sim.execute_step();
    sim.execute_step();
    assert_eq!(sim.get_ix(), 10);
}

#[test]
fn accumulator_overflow_halts() {
    // acc = 9999, then acc *= mem[0] (the first instruction word itself)
    let mut sim = Simpletron::new(vec![
        encode_word(21, 9999),
        encode_word(36, 0),
        encode_word(45, 0),
    ]);
    sim.execute_step();
    sim.execute_step();
    assert!(sim.is_halted());
    assert_eq!(sim.halt_fault(), Some(MachineFault::AccumulatorOverflow));
    assert_eq!(sim.get_acc(), 9999);
}

#[test]
fn branches_loop_and_terminate() {
    // count acc down from 3 to 0 with a backward branch, then halt
    let mut sim = Simpletron::new(vec![
        encode_word(21, 3),
        encode_word(32, 6),
        encode_word(42, 4),
        encode_word(40, 1),
        encode_word(45, 0),
        0,
        1,
    ]);
    run_until_halt(&mut sim, 100);
    assert_eq!(sim.get_acc(), 0);
    assert_eq!(sim.halt_fault(), None);
}

#[test]
fn branch_negative_taken_only_when_negative() {
    let mut sim = Simpletron::new(vec![
        encode_word(21, -1),
        encode_word(41, 3),
        encode_word(45, 99),
        encode_word(45, 0),
    ]);
    sim.execute_step();
    sim.execute_step();
    assert_eq!(
        sim.execute_step(),
        StepOutcome::CoreDump { start_page: 0, end_page: 0 }
    );
}

#[test]
fn dump_regs_and_memory() {
    let mut sim = Simpletron::new(vec![encode_word(21, 7), encode_word(45, 102)]);
    sim.execute_step();
    let regs = sim.dump_regs();
    assert_eq!(regs.acc, 7);
    assert_eq!(regs.ip, 1);
    assert_eq!(regs.ix, 0);
    assert_eq!(regs.opcode, 21);
    assert_eq!(regs.operand, 7);
    let out = sim.execute_step();
    assert_eq!(out, StepOutcome::CoreDump { start_page: 1, end_page: 2 });
    let words = sim.dump_memory(0, 0).expect("valid range");
    assert_eq!(words.len(), 100);
    assert_eq!(words[0], encode_word(21, 7));
    assert_eq!(words[1], encode_word(45, 102));
    assert_eq!(words[2], 0);
}

#[test]
fn invalid_dump_range_faults() {
    let mut sim = Simpletron::new(vec![]);
    assert!(sim.dump_memory(5, 2).is_none());
    assert!(sim.is_halted());
    assert_eq!(sim.halt_fault(), Some(MachineFault::InvalidDumpRange));
}

#[test]
fn assembled_program_runs_end_to_end() {
    let assembled = simpletron::assembler::Asmbler::assemble(
        "mov acc 7\nadd acc [4]\nhlt\ndw [4] 3".to_string(),
        Vec::new(),
    );
    assert!(!assembled.has_errors());
    let words: Vec<i32> = assembled
        .contents
        .split('\n')
        .map(|line| simpletron::assembler::parse_lit(line).unwrap_or(0))
        .collect();
    let mut sim = Simpletron::new(words);
    run_until_halt(&mut sim, 100);
    assert_eq!(sim.get_acc(), 10);
    assert_eq!(sim.halt_fault(), None);
}
