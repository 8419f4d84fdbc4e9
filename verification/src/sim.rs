//! The simulator: a register file, a bounded word memory, and the
//! fetch-decode-execute engine with an extensible opcode dispatch table.
//!
//! The machine has exactly two states, running and halted; halted is
//! terminal. Host-delegated work (terminal input and output, dump printing,
//! extension handlers) is surfaced to the caller through [`StepOutcome`]
//! values instead of being performed here.

use vstd::prelude::*;
use vstd::pervasive::VecAdditionalExecFns;
use crate::word::MAX_MEMORY;
use crate::word::INSTR_HANDLER_COUNT;
use crate::word::MAX_WORD;
use crate::word::MIN_WORD;
use crate::word::in_word_range;
use crate::word::abs_val;
use crate::word::word_opcode;
use crate::word::word_operand;
use crate::word::read_opcode;
use crate::word::read_operand;

verus! {

/// The diagnostic cause of a fault halt. An ordinary `hlt` instruction
/// halts the machine with no fault recorded.
#[derive(Clone, Copy, Debug, PartialEq, Eq)]
pub enum MachineFault {
    InvalidOpcode,
    UnimplementedOpcode,
    AccumulatorOverflow,
    IndexOverflow,
    InstructionPointerOutOfBounds,
    MemoryOutOfBounds,
    MemoryValueOverflow,
    DivisionByZero,
    InvalidDumpRange,
}

/// A built-in operation of the machine.
#[derive(Clone, Copy, Debug, PartialEq, Eq)]
pub enum Op {
    Read,
    Write,
    Load,
    LoadIm,
    LoadX,
    LoadIdx,
    Store,
    StoreIdx,
    Add,
    AddX,
    Sub,
    SubX,
    Div,
    DivX,
    Mul,
    MulX,
    Inc,
    Dec,
    Branch,
    BranchNeg,
    BranchZero,
    Swap,
    Halt,
}

/// One slot of the opcode dispatch table.
#[derive(Clone, Copy, Debug, PartialEq, Eq)]
pub enum Slot {
    /// No handler is installed: stepping onto this opcode halts the machine.
    Vacant,
    /// A built-in operation, executed by the machine itself.
    Builtin(Op),
    /// A host-registered extension handler, run outside the machine.
    Hosted,
}

/// What a single step asks of the host, if anything.
#[derive(Clone, Copy, Debug, PartialEq, Eq)]
pub enum StepOutcome {
    /// The machine was already halted; nothing ran.
    AlreadyHalted,
    /// A built-in instruction ran to completion (possibly fault-halting).
    Ran,
    /// `read`: the host must obtain a word and store it at `addr`.
    Input { addr: i32 },
    /// `write`: the host must print `value`.
    Output { value: i32 },
    /// `hlt`: the machine halted; the host may dump the given page range.
    CoreDump { start_page: i32, end_page: i32 },
    /// A host extension slot was hit: the host runs its own handler.
    Extension { opcode: i32, operand: i32 },
}

/// The mathematical state of the machine.
#[verifier::ext_equal]
pub ghost struct MachineView {
    pub mem: Seq<i32>,
    pub acc: i32,
    pub ix: i32,
    pub ip: i32,
    pub ir: i32,
    pub slots: Seq<Slot>,
    pub halted: bool,
    pub fault: Option<MachineFault>,
}

/// Well-formedness: fixed geometry, and every register and cell in range.
pub open spec fn view_inv(m: MachineView) -> bool {
    &&& m.mem.len() == MAX_MEMORY
    &&& forall|i: int| 0 <= i < MAX_MEMORY ==> in_word_range(#[trigger] m.mem[i] as int)
    &&& in_word_range(m.acc as int)
    &&& in_word_range(m.ix as int)
    &&& 0 <= m.ip < MAX_MEMORY
    &&& in_word_range(m.ir as int)
    &&& m.slots.len() == INSTR_HANDLER_COUNT
}

pub open spec fn halt_with(m: MachineView, f: MachineFault) -> MachineView {
    MachineView { halted: true, fault: Some(f), ..m }
}

/// A register write: out-of-range values fault-halt and do not take effect.
pub open spec fn spec_set_acc(m: MachineView, v: int) -> MachineView {
    if !in_word_range(v) {
        halt_with(m, MachineFault::AccumulatorOverflow)
    } else {
        MachineView { acc: v as i32, ..m }
    }
}

pub open spec fn spec_set_idx(m: MachineView, v: int) -> MachineView {
    if !in_word_range(v) {
        halt_with(m, MachineFault::IndexOverflow)
    } else {
        MachineView { ix: v as i32, ..m }
    }
}

pub open spec fn spec_set_ip(m: MachineView, v: int) -> MachineView {
    if v < 0 || v >= MAX_MEMORY {
        halt_with(m, MachineFault::InstructionPointerOutOfBounds)
    } else {
        MachineView { ip: v as i32, ..m }
    }
}

/// A memory read: an out-of-bounds address fault-halts and yields 0.
pub open spec fn spec_get_mem(m: MachineView, idx: int) -> (MachineView, i32) {
    if idx < 0 || idx >= MAX_MEMORY {
        (halt_with(m, MachineFault::MemoryOutOfBounds), 0)
    } else {
        (m, m.mem[idx])
    }
}

/// A memory write: bounds- and range-checked; a violation fault-halts and
/// the write does not take effect.
pub open spec fn spec_set_mem(m: MachineView, idx: int, v: int) -> MachineView {
    if idx < 0 || idx >= MAX_MEMORY {
        halt_with(m, MachineFault::MemoryOutOfBounds)
    } else if !in_word_range(v) {
        halt_with(m, MachineFault::MemoryValueOverflow)
    } else {
        MachineView { mem: m.mem.update(idx, v as i32), ..m }
    }
}

/// Truncating (round-toward-zero) division, as the machine's `div` computes.
pub open spec fn trunc_div(a: int, b: int) -> int {
    let q = abs_val(a) / abs_val(b);
    if (a < 0) != (b < 0) {
        -q
    } else {
        q
    }
}

/// The effect of one built-in operation on the machine state, and what it
/// asks of the host.
pub open spec fn spec_op(op: Op, m: MachineView, operand: int) -> (MachineView, StepOutcome) {
    match op {
        Op::Read => (m, StepOutcome::Input { addr: operand as i32 }),
        Op::Write => {
            let (m1, v) = spec_get_mem(m, operand);
            (m1, StepOutcome::Output { value: v })
        },
        Op::Load => {
            let (m1, v) = spec_get_mem(m, operand);
            (spec_set_acc(m1, v as int), StepOutcome::Ran)
        },
        Op::LoadIm => (spec_set_acc(m, operand), StepOutcome::Ran),
        Op::LoadX => {
            let (m1, v) = spec_get_mem(m, operand);
            (spec_set_idx(m1, v as int), StepOutcome::Ran)
        },
        Op::LoadIdx => {
            let (m1, v) = spec_get_mem(m, m.ix as int);
            (spec_set_acc(m1, v as int), StepOutcome::Ran)
        },
        Op::Store => (spec_set_mem(m, operand, m.acc as int), StepOutcome::Ran),
        Op::StoreIdx => (spec_set_mem(m, m.ix as int, m.acc as int), StepOutcome::Ran),
        Op::Add => {
            let (m1, v) = spec_get_mem(m, operand);
            (spec_set_acc(m1, m1.acc + v), StepOutcome::Ran)
        },
        Op::AddX => {
            let (m1, v) = spec_get_mem(m, m.ix as int);
            (spec_set_acc(m1, m1.acc + v), StepOutcome::Ran)
        },
        Op::Sub => {
            let (m1, v) = spec_get_mem(m, operand);
            (spec_set_acc(m1, m1.acc - v), StepOutcome::Ran)
        },
        Op::SubX => {
            let (m1, v) = spec_get_mem(m, m.ix as int);
            (spec_set_acc(m1, m1.acc - v), StepOutcome::Ran)
        },
        Op::Div => {
            let (m1, v) = spec_get_mem(m, operand);
            if v == 0 {
                (halt_with(m1, MachineFault::DivisionByZero), StepOutcome::Ran)
            } else {
                (spec_set_acc(m1, trunc_div(m1.acc as int, v as int)), StepOutcome::Ran)
            }
        },
        Op::DivX => {
            let (m1, v) = spec_get_mem(m, m.ix as int);
            if v == 0 {
                (halt_with(m1, MachineFault::DivisionByZero), StepOutcome::Ran)
            } else {
                (spec_set_acc(m1, trunc_div(m1.acc as int, v as int)), StepOutcome::Ran)
            }
        },
        Op::Mul => {
            let (m1, v) = spec_get_mem(m, operand);
            (spec_set_acc(m1, m1.acc * v), StepOutcome::Ran)
        },
        Op::MulX => {
            let (m1, v) = spec_get_mem(m, m.ix as int);
            (spec_set_acc(m1, m1.acc * v), StepOutcome::Ran)
        },
        Op::Inc => (spec_set_idx(m, m.ix + 1), StepOutcome::Ran),
        Op::Dec => (spec_set_idx(m, m.ix - 1), StepOutcome::Ran),
        Op::Branch => (spec_set_ip(m, operand), StepOutcome::Ran),
        Op::BranchNeg => {
            if m.acc < 0 {
                (spec_set_ip(m, operand), StepOutcome::Ran)
            } else {
                (m, StepOutcome::Ran)
            }
        },
        Op::BranchZero => {
            if m.acc == 0 {
                (spec_set_ip(m, operand), StepOutcome::Ran)
            } else {
                (m, StepOutcome::Ran)
            }
        },
        Op::Swap => (MachineView { acc: m.ix, ix: m.acc, ..m }, StepOutcome::Ran),
        Op::Halt => {
            let start = abs_val(operand) / 100;
            let end = abs_val(operand) % 100;
            (
                MachineView { halted: true, ..m },
                StepOutcome::CoreDump { start_page: start as i32, end_page: end as i32 },
            )
        },
    }
}

/// The dispatch table the machine starts with.
pub open spec fn spec_default_slot(i: int) -> Slot {
    if i == 10 {
        Slot::Builtin(Op::Read)
    } else if i == 11 {
        Slot::Builtin(Op::Write)
    } else if i == 20 {
        Slot::Builtin(Op::Load)
    } else if i == 21 {
        Slot::Builtin(Op::LoadIm)
    } else if i == 22 {
        Slot::Builtin(Op::LoadX)
    } else if i == 23 {
        Slot::Builtin(Op::LoadIdx)
    } else if i == 25 {
        Slot::Builtin(Op::Store)
    } else if i == 26 {
        Slot::Builtin(Op::StoreIdx)
    } else if i == 30 {
        Slot::Builtin(Op::Add)
    } else if i == 31 {
        Slot::Builtin(Op::AddX)
    } else if i == 32 {
        Slot::Builtin(Op::Sub)
    } else if i == 33 {
        Slot::Builtin(Op::SubX)
    } else if i == 34 {
        Slot::Builtin(Op::Div)
    } else if i == 35 {
        Slot::Builtin(Op::DivX)
    } else if i == 36 {
        Slot::Builtin(Op::Mul)
    } else if i == 37 {
        Slot::Builtin(Op::MulX)
    } else if i == 38 {
        Slot::Builtin(Op::Inc)
    } else if i == 39 {
        Slot::Builtin(Op::Dec)
    } else if i == 40 {
        Slot::Builtin(Op::Branch)
    } else if i == 41 {
        Slot::Builtin(Op::BranchNeg)
    } else if i == 42 {
        Slot::Builtin(Op::BranchZero)
    } else if i == 43 {
        Slot::Builtin(Op::Swap)
    } else if i == 45 {
        Slot::Builtin(Op::Halt)
    } else {
        Slot::Vacant
    }
}

/// One fetch-decode-execute step of the machine, as a transition function:
/// fetch at the instruction pointer, advance it, decode, and dispatch.
pub open spec fn spec_step(m: MachineView) -> (MachineView, StepOutcome) {
    if m.halted {
        (m, StepOutcome::AlreadyHalted)
    } else {
        let instr = m.mem[m.ip as int];
        let m1 = spec_set_ip(MachineView { ir: instr, ..m }, m.ip + 1);
        let opcode = word_opcode(instr as int);
        let operand = word_operand(instr as int);
        if opcode >= INSTR_HANDLER_COUNT {
            (halt_with(m1, MachineFault::InvalidOpcode), StepOutcome::Ran)
        } else {
            match m1.slots[opcode] {
                Slot::Vacant => (halt_with(m1, MachineFault::UnimplementedOpcode), StepOutcome::Ran),
                Slot::Hosted => (
                    m1,
                    StepOutcome::Extension { opcode: opcode as i32, operand: operand as i32 },
                ),
                Slot::Builtin(op) => spec_op(op, m1, operand),
            }
        }
    }
}

/// The registers as one value, for diagnostic printing by the host.
#[derive(Clone, Copy, Debug, PartialEq, Eq)]
pub struct RegisterDump {
    pub acc: i32,
    pub ip: i32,
    pub ix: i32,
    pub opcode: i32,
    pub operand: i32,
}

/// The simulator: registers, memory, and the opcode dispatch table.
pub struct Simpletron {
    memory: Vec<i32>,
    acc: i32,
    ix: i32,
    ip: i32,
    ir: i32,
    handlers: Vec<Slot>,
    is_halted: bool,
    fault: Option<MachineFault>,
}

impl View for Simpletron {
    type V = MachineView;

    closed spec fn view(&self) -> MachineView {
        MachineView {
            mem: self.memory@,
            acc: self.acc,
            ix: self.ix,
            ip: self.ip,
            ir: self.ir,
            slots: self.handlers@,
            halted: self.is_halted,
            fault: self.fault,
        }
    }
}

impl Simpletron {
    pub open spec fn inv(&self) -> bool {
        view_inv(self@)
    }

    /// Creates a machine with zeroed registers and memory, the default
    /// dispatch table, and the image bulk-loaded from address 0 upward.
    /// Image words beyond the memory capacity are ignored; an image word
    /// outside the word range is not stored and fault-halts the machine
    /// before it ever runs.
    pub fn new(instructions: Vec<i32>) -> (r: Simpletron)
        ensures
            r.inv(),
            r@.acc == 0 && r@.ix == 0 && r@.ip == 0 && r@.ir == 0,
            forall|i: int|
                0 <= i < MAX_MEMORY ==> #[trigger] r@.mem[i] == (if i < instructions@.len()
                    && in_word_range(instructions@[i] as int) {
                    instructions@[i]
                } else {
                    0
                }),
            forall|i: int| 0 <= i < INSTR_HANDLER_COUNT ==> r@.slots[i] == spec_default_slot(i),
            r@.halted == exists|i: int|
                0 <= i < instructions@.len() && i < MAX_MEMORY && !in_word_range(
                    #[trigger] instructions@[i] as int,
                ),
            r@.fault == (if r@.halted {
                Some(MachineFault::MemoryValueOverflow)
            } else {
                None::<MachineFault>
            }),
    {
        let mut memory: Vec<i32> = Vec::new();
        let mut i: usize = 0;
        while i < MAX_MEMORY
            invariant
                memory@.len() == i,
                i <= MAX_MEMORY,
                forall|j: int| 0 <= j < i ==> memory@[j] == 0i32,
            decreases MAX_MEMORY - i,
        {
            memory.push(0);
            i = i + 1;
        }
        let mut handlers: Vec<Slot> = Vec::new();
        let mut k: usize = 0;
        while k < INSTR_HANDLER_COUNT
            invariant
                handlers@.len() == k,
                k <= INSTR_HANDLER_COUNT,
                forall|j: int| 0 <= j < k ==> handlers@[j] == spec_default_slot(j),
            decreases INSTR_HANDLER_COUNT - k,
        {
            handlers.push(default_slot(k));
            k = k + 1;
        }
        let mut simple = Simpletron {
            memory,
            acc: 0,
            ix: 0,
            ip: 0,
            ir: 0,
            handlers,
            is_halted: false,
            fault: None,
        };
        let count = if instructions.len() < MAX_MEMORY {
            instructions.len()
        } else {
            MAX_MEMORY
        };
        let mut j: usize = 0;
        while j < count
            invariant
                simple.inv(),
                count == (if instructions@.len() < MAX_MEMORY {
                    instructions@.len() as int
                } else {
                    MAX_MEMORY as int
                }),
                j <= count,
                simple@.acc == 0 && simple@.ix == 0 && simple@.ip == 0 && simple@.ir == 0,
                forall|i: int|
                    0 <= i < MAX_MEMORY ==> #[trigger] simple@.mem[i] == (if i < j
                        && in_word_range(instructions@[i] as int) {
                        instructions@[i]
                    } else {
                        0
                    }),
                forall|i: int|
                    0 <= i < INSTR_HANDLER_COUNT ==> simple@.slots[i] == spec_default_slot(i),
                simple@.halted == exists|i: int|
                    0 <= i < j && !in_word_range(#[trigger] instructions@[i] as int),
                simple@.fault == (if simple@.halted {
                    Some(MachineFault::MemoryValueOverflow)
                } else {
                    None::<MachineFault>
                }),
            decreases count - j,
        {
            let ghost pre = simple@;
            simple.set_memory(j as i32, instructions[j]);
            proof {
                if in_word_range(instructions@[j as int] as int) {
                    assert forall|i: int|
                        0 <= i < MAX_MEMORY implies #[trigger] simple@.mem[i] == (if i < j + 1
                        && in_word_range(instructions@[i] as int) {
                        instructions@[i]
                    } else {
                        0i32
                    }) by {
                        if i != j {
                            assert(simple@.mem[i] == pre.mem[i]);
                        }
                    }
                } else {
                    assert(!in_word_range(instructions@[j as int] as int));
                    assert forall|i: int|
                        0 <= i < MAX_MEMORY implies #[trigger] simple@.mem[i] == (if i < j + 1
                        && in_word_range(instructions@[i] as int) {
                        instructions@[i]
                    } else {
                        0i32
                    }) by {
                        assert(simple@.mem[i] == pre.mem[i]);
                    }
                }
            }
            j = j + 1;
        }
        simple
    }

    /// One step of the fetch-decode-execute loop. The machine changes
    /// exactly as [`spec_step`] says, and the returned outcome tells the
    /// host what, if anything, it must do before stepping again.
    pub fn execute_step(&mut self) -> (r: StepOutcome)
        requires
            old(self).inv(),
        ensures
            final(self).inv(),
            (final(self)@, r) == spec_step(old(self)@),
    {
        if self.is_halted {
            return StepOutcome::AlreadyHalted;
        }
        let instr = self.memory[self.ip as usize];
        self.ir = instr;
        let next_ip = self.ip + 1;
        self.set_ip(next_ip);
        let opcode = read_opcode(instr);
        let operand = read_operand(instr);
        if opcode >= INSTR_HANDLER_COUNT as i32 {
            self.is_halted = true;
            self.fault = Some(MachineFault::InvalidOpcode);
            return StepOutcome::Ran;
        }
        let slot = self.handlers[opcode as usize];
        match slot {
            Slot::Vacant => {
                self.is_halted = true;
                self.fault = Some(MachineFault::UnimplementedOpcode);
                StepOutcome::Ran
            },
            Slot::Hosted => StepOutcome::Extension { opcode, operand },
            Slot::Builtin(op) => self.run_builtin(op, operand),
        }
    }

    fn run_builtin(&mut self, op: Op, operand: i32) -> (r: StepOutcome)
        requires
            old(self).inv(),
            -9999 <= operand <= 9999,
        ensures
            final(self).inv(),
            (final(self)@, r) == spec_op(op, old(self)@, operand as int),
    {
        match op {
            Op::Read => StepOutcome::Input { addr: operand },
            Op::Write => {
                let value = self.get_memory(operand);
                StepOutcome::Output { value }
            },
            Op::Load => {
                self.load(operand);
                StepOutcome::Ran
            },
            Op::LoadIm => {
                self.load_im(operand);
                StepOutcome::Ran
            },
            Op::LoadX => {
                self.load_x(operand);
                StepOutcome::Ran
            },
            Op::LoadIdx => {
                self.load_idx(operand);
                StepOutcome::Ran
            },
            Op::Store => {
                self.store(operand);
                StepOutcome::Ran
            },
            Op::StoreIdx => {
                self.store_idx(operand);
                StepOutcome::Ran
            },
            Op::Add => {
                self.add(operand);
                StepOutcome::Ran
            },
            Op::AddX => {
                self.add_x(operand);
                StepOutcome::Ran
            },
            Op::Sub => {
                self.sub(operand);
                StepOutcome::Ran
            },
            Op::SubX => {
                self.sub_x(operand);
                StepOutcome::Ran
            },
            Op::Div => {
                self.div(operand);
                StepOutcome::Ran
            },
            Op::DivX => {
                self.div_x(operand);
                StepOutcome::Ran
            },
            Op::Mul => {
                self.mul(operand);
                StepOutcome::Ran
            },
            Op::MulX => {
                self.mul_x(operand);
                StepOutcome::Ran
            },
            Op::Inc => {
                self.inc(operand);
                StepOutcome::Ran
            },
            Op::Dec => {
                self.dec(operand);
                StepOutcome::Ran
            },
            Op::Branch => {
                self.branch(operand);
                StepOutcome::Ran
            },
            Op::BranchNeg => {
                self.branch_neg(operand);
                StepOutcome::Ran
            },
            Op::BranchZero => {
                self.branch_zero(operand);
                StepOutcome::Ran
            },
            Op::Swap => {
                self.swap(operand);
                StepOutcome::Ran
            },
            Op::Halt => {
                let mag = if operand < 0 {
                    -operand
                } else {
                    operand
                };
                let start_page = mag / 100;
                let end_page = mag % 100;
                self.is_halted = true;
                StepOutcome::CoreDump { start_page, end_page }
            },
        }
    }

    pub fn get_acc(&self) -> (r: i32)
        ensures
            r == self@.acc,
    {
        self.acc
    }

    fn set_acc(&mut self, value: i64)
        requires
            old(self).inv(),
        ensures
            final(self).inv(),
            final(self)@ == spec_set_acc(old(self)@, value as int),
    {
        if value < MIN_WORD as i64 || value > MAX_WORD as i64 {
            self.is_halted = true;
            self.fault = Some(MachineFault::AccumulatorOverflow);
            return;
        }
        self.acc = value as i32;
    }

    pub fn get_ix(&self) -> (r: i32)
        ensures
            r == self@.ix,
    {
        self.ix
    }

    fn set_idx(&mut self, value: i64)
        requires
            old(self).inv(),
        ensures
            final(self).inv(),
            final(self)@ == spec_set_idx(old(self)@, value as int),
    {
        if value < MIN_WORD as i64 || value > MAX_WORD as i64 {
            self.is_halted = true;
            self.fault = Some(MachineFault::IndexOverflow);
            return;
        }
        self.ix = value as i32;
    }

    fn set_ip(&mut self, value: i32)
        requires
            old(self).inv(),
        ensures
            final(self).inv(),
            final(self)@ == spec_set_ip(old(self)@, value as int),
    {
        if value < 0 || value >= MAX_MEMORY as i32 {
            self.is_halted = true;
            self.fault = Some(MachineFault::InstructionPointerOutOfBounds);
            return;
        }
        self.ip = value;
    }

    /// Reads the word at a memory address. An out-of-bounds address
    /// fault-halts the machine and yields 0.
    pub fn get_memory(&mut self, index: i32) -> (r: i32)
        requires
            old(self).inv(),
        ensures
            final(self).inv(),
            (final(self)@, r) == spec_get_mem(old(self)@, index as int),
            in_word_range(r as int),
    {
        if index < 0 || index >= MAX_MEMORY as i32 {
            proof {
                assert(in_word_range(0int));
            }
            self.is_halted = true;
            self.fault = Some(MachineFault::MemoryOutOfBounds);
            return 0;
        }
        proof {
            assert(in_word_range(self@.mem[index as int] as int));
        }
        self.memory[index as usize]
    }

    /// Writes a word to a memory address. An out-of-bounds address or an
    /// out-of-range value fault-halts the machine; the write does not take
    /// effect.
    pub fn set_memory(&mut self, index: i32, value: i32)
        requires
            old(self).inv(),
        ensures
            final(self).inv(),
            final(self)@ == spec_set_mem(old(self)@, index as int, value as int),
    {
        if index < 0 || index >= MAX_MEMORY as i32 {
            self.is_halted = true;
            self.fault = Some(MachineFault::MemoryOutOfBounds);
            return;
        }
        if value < MIN_WORD || value > MAX_WORD {
            self.is_halted = true;
            self.fault = Some(MachineFault::MemoryValueOverflow);
            return;
        }
        self.memory.set(index as usize, value);
    }

    /// Whether the machine has reached its terminal halted state.
    pub fn is_halted(&self) -> (r: bool)
        ensures
            r == self@.halted,
    {
        self.is_halted
    }

    /// The diagnostic cause of the halt, if the halt was a fault.
    pub fn halt_fault(&self) -> (r: Option<MachineFault>)
        ensures
            r == self@.fault,
    {
        self.fault
    }

    /// The register contents, decoded for diagnostic printing.
    pub fn dump_regs(&self) -> (r: RegisterDump)
        requires
            self.inv(),
        ensures
            r.acc == self@.acc,
            r.ip == self@.ip,
            r.ix == self@.ix,
            r.opcode as int == word_opcode(self@.ir as int),
            r.operand as int == word_operand(self@.ir as int),
    {
        RegisterDump {
            acc: self.acc,
            ip: self.ip,
            ix: self.ix,
            opcode: read_opcode(self.ir),
            operand: read_operand(self.ir),
        }
    }

    /// The words of the pages `start_page..=end_page`, in address order, for
    /// diagnostic printing. An invalid or inverted range fault-halts the
    /// machine and yields nothing.
    pub fn dump_memory(&mut self, start_page: usize, end_page: usize) -> (r: Option<Vec<i32>>)
        requires
            old(self).inv(),
        ensures
            final(self).inv(),
            if start_page >= 100 || end_page >= 100 || start_page > end_page {
                final(self)@ == halt_with(old(self)@, MachineFault::InvalidDumpRange) && r.is_none()
            } else {
                final(self)@ == old(self)@ && (r matches Some(v) && v@.len() == (end_page + 1
                    - start_page) * 100 && forall|k: int|
                    0 <= k < v@.len() ==> v@[k] == old(self)@.mem[start_page * 100 + k])
            },
    {
        if start_page >= 100 || end_page >= 100 || start_page > end_page {
            self.is_halted = true;
            self.fault = Some(MachineFault::InvalidDumpRange);
            return None;
        }
        let mut out: Vec<i32> = Vec::new();
        let base = start_page * 100;
        let limit = (end_page + 1) * 100;
        let mut a = base;
        while a < limit
            invariant
                self.inv(),
                base == start_page * 100,
                limit == (end_page + 1) * 100,
                base <= a <= limit,
                limit <= MAX_MEMORY,
                out@.len() == a - base,
                forall|k: int| 0 <= k < out@.len() ==> out@[k] == self@.mem[base + k],
            decreases limit - a,
        {
            out.push(self.memory[a]);
            a = a + 1;
        }
        Some(out)
    }

    /// Registers a host extension handler for a dispatch slot. The host
    /// keeps the handler itself; the machine records only that the slot is
    /// host-handled, and reports hits through [`StepOutcome::Extension`].
    pub fn add_extension_instruction(&mut self, index: u32)
        requires
            old(self).inv(),
            index < INSTR_HANDLER_COUNT,
        ensures
            final(self).inv(),
            final(self)@ == (MachineView {
                slots: old(self)@.slots.update(index as int, Slot::Hosted),
                ..old(self)@
            }),
    {
        self.handlers.set(index as usize, Slot::Hosted);
    }

    fn load(&mut self, operand: i32)
        requires
            old(self).inv(),
        ensures
            final(self).inv(),
            final(self)@ == spec_op(Op::Load, old(self)@, operand as int).0,
    {
        let value = self.get_memory(operand);
        self.set_acc(value as i64);
    }

    fn load_im(&mut self, operand: i32)
        requires
            old(self).inv(),
        ensures
            final(self).inv(),
            final(self)@ == spec_op(Op::LoadIm, old(self)@, operand as int).0,
    {
        self.set_acc(operand as i64);
    }

    fn load_x(&mut self, operand: i32)
        requires
            old(self).inv(),
        ensures
            final(self).inv(),
            final(self)@ == spec_op(Op::LoadX, old(self)@, operand as int).0,
    {
        let value = self.get_memory(operand);
        self.set_idx(value as i64);
    }

    fn load_idx(&mut self, operand: i32)
        requires
            old(self).inv(),
        ensures
            final(self).inv(),
            final(self)@ == spec_op(Op::LoadIdx, old(self)@, operand as int).0,
    {
        let ix = self.ix;
        let value = self.get_memory(ix);
        self.set_acc(value as i64);
    }

    fn store(&mut self, operand: i32)
        requires
            old(self).inv(),
        ensures
            final(self).inv(),
            final(self)@ == spec_op(Op::Store, old(self)@, operand as int).0,
    {
        let acc = self.acc;
        self.set_memory(operand, acc);
    }

    fn store_idx(&mut self, operand: i32)
        requires
            old(self).inv(),
        ensures
            final(self).inv(),
            final(self)@ == spec_op(Op::StoreIdx, old(self)@, operand as int).0,
    {
        let ix = self.ix;
        let acc = self.acc;
        self.set_memory(ix, acc);
    }

    fn add(&mut self, operand: i32)
        requires
            old(self).inv(),
        ensures
            final(self).inv(),
            final(self)@ == spec_op(Op::Add, old(self)@, operand as int).0,
    {
        let value = self.get_memory(operand);
        self.set_acc(self.acc as i64 + value as i64);
    }

    fn add_x(&mut self, operand: i32)
        requires
            old(self).inv(),
        ensures
            final(self).inv(),
            final(self)@ == spec_op(Op::AddX, old(self)@, operand as int).0,
    {
        let ix = self.ix;
        let value = self.get_memory(ix);
        self.set_acc(self.acc as i64 + value as i64);
    }

    fn sub(&mut self, operand: i32)
        requires
            old(self).inv(),
        ensures
            final(self).inv(),
            final(self)@ == spec_op(Op::Sub, old(self)@, operand as int).0,
    {
        let value = self.get_memory(operand);
        self.set_acc(self.acc as i64 - value as i64);
    }

    fn sub_x(&mut self, operand: i32)
        requires
            old(self).inv(),
        ensures
            final(self).inv(),
            final(self)@ == spec_op(Op::SubX, old(self)@, operand as int).0,
    {
        let ix = self.ix;
        let value = self.get_memory(ix);
        self.set_acc(self.acc as i64 - value as i64);
    }

    fn div(&mut self, operand: i32)
        requires
            old(self).inv(),
        ensures
            final(self).inv(),
            final(self)@ == spec_op(Op::Div, old(self)@, operand as int).0,
    {
        let value = self.get_memory(operand);
        if value == 0 {
            self.is_halted = true;
            self.fault = Some(MachineFault::DivisionByZero);
            return;
        }
        let q = trunc_div_exec(self.acc, value);
        self.set_acc(q as i64);
    }

    fn div_x(&mut self, operand: i32)
        requires
            old(self).inv(),
        ensures
            final(self).inv(),
            final(self)@ == spec_op(Op::DivX, old(self)@, operand as int).0,
    {
        let ix = self.ix;
        let value = self.get_memory(ix);
        if value == 0 {
            self.is_halted = true;
            self.fault = Some(MachineFault::DivisionByZero);
            return;
        }
        let q = trunc_div_exec(self.acc, value);
        self.set_acc(q as i64);
    }

    fn mul(&mut self, operand: i32)
        requires
            old(self).inv(),
        ensures
            final(self).inv(),
            final(self)@ == spec_op(Op::Mul, old(self)@, operand as int).0,
    {
        let value = self.get_memory(operand);
        let a = self.acc;
        let prod = mul_words(a, value);
        self.set_acc(prod);
    }

    fn mul_x(&mut self, operand: i32)
        requires
            old(self).inv(),
        ensures
            final(self).inv(),
            final(self)@ == spec_op(Op::MulX, old(self)@, operand as int).0,
    {
        let ix = self.ix;
        let value = self.get_memory(ix);
        let a = self.acc;
        let prod = mul_words(a, value);
        self.set_acc(prod);
    }

    fn inc(&mut self, operand: i32)
        requires
            old(self).inv(),
        ensures
            final(self).inv(),
            final(self)@ == spec_op(Op::Inc, old(self)@, operand as int).0,
    {
        self.set_idx(self.ix as i64 + 1);
    }

    fn dec(&mut self, operand: i32)
        requires
            old(self).inv(),
        ensures
            final(self).inv(),
            final(self)@ == spec_op(Op::Dec, old(self)@, operand as int).0,
    {
        self.set_idx(self.ix as i64 - 1);
    }

    fn branch(&mut self, operand: i32)
        requires
            old(self).inv(),
        ensures
            final(self).inv(),
            final(self)@ == spec_op(Op::Branch, old(self)@, operand as int).0,
    {
        self.set_ip(operand);
    }

    fn branch_neg(&mut self, operand: i32)
        requires
            old(self).inv(),
        ensures
            final(self).inv(),
            final(self)@ == spec_op(Op::BranchNeg, old(self)@, operand as int).0,
    {
        if self.acc < 0 {
            self.set_ip(operand);
        }
    }

    fn branch_zero(&mut self, operand: i32)
        requires
            old(self).inv(),
        ensures
            final(self).inv(),
            final(self)@ == spec_op(Op::BranchZero, old(self)@, operand as int).0,
    {
        if self.acc == 0 {
            self.set_ip(operand);
        }
    }

    fn swap(&mut self, operand: i32)
        requires
            old(self).inv(),
        ensures
            final(self).inv(),
            final(self)@ == spec_op(Op::Swap, old(self)@, operand as int).0,
    {
        let tmp = self.acc;
        self.acc = self.ix;
        self.ix = tmp;
    }
}

fn default_slot(i: usize) -> (r: Slot)
    ensures
        r == spec_default_slot(i as int),
{
    match i {
        10 => Slot::Builtin(Op::Read),
        11 => Slot::Builtin(Op::Write),
        20 => Slot::Builtin(Op::Load),
        21 => Slot::Builtin(Op::LoadIm),
        22 => Slot::Builtin(Op::LoadX),
        23 => Slot::Builtin(Op::LoadIdx),
        25 => Slot::Builtin(Op::Store),
        26 => Slot::Builtin(Op::StoreIdx),
        30 => Slot::Builtin(Op::Add),
        31 => Slot::Builtin(Op::AddX),
        32 => Slot::Builtin(Op::Sub),
        33 => Slot::Builtin(Op::SubX),
        34 => Slot::Builtin(Op::Div),
        35 => Slot::Builtin(Op::DivX),
        36 => Slot::Builtin(Op::Mul),
        37 => Slot::Builtin(Op::MulX),
        38 => Slot::Builtin(Op::Inc),
        39 => Slot::Builtin(Op::Dec),
        40 => Slot::Builtin(Op::Branch),
        41 => Slot::Builtin(Op::BranchNeg),
        42 => Slot::Builtin(Op::BranchZero),
        43 => Slot::Builtin(Op::Swap),
        45 => Slot::Builtin(Op::Halt),
        _ => Slot::Vacant,
    }
}

/// The full product of two word-range values, wide enough not to overflow.
fn mul_words(a: i32, b: i32) -> (r: i64)
    requires
        in_word_range(a as int),
        in_word_range(b as int),
    ensures
        r as int == a as int * b as int,
{
    proof {
        assert(-(999999int * 999999) <= a as int * b as int <= 999999int * 999999)
            by (nonlinear_arith)
            requires
                -999999 <= a as int <= 999999,
                -999999 <= b as int <= 999999,
        ;
    }
    a as i64 * b as i64
}

/// Truncating signed division on word-range values, computed by unsigned
/// magnitude so that it matches [`trunc_div`].
fn trunc_div_exec(a: i32, b: i32) -> (q: i32)
    requires
        in_word_range(a as int),
        in_word_range(b as int),
        b != 0,
    ensures
        q as int == trunc_div(a as int, b as int),
        in_word_range(q as int),
{
    let ma = (if a < 0 {
        -a
    } else {
        a
    }) as u32;
    let mb = (if b < 0 {
        -b
    } else {
        b
    }) as u32;
    let mq = ma / mb;
    if (a < 0) != (b < 0) {
        -(mq as i32)
    } else {
        mq as i32
    }
}


/// Halted is terminal: once the flag is set, a step changes nothing and
/// runs nothing.
pub proof fn lemma_halted_machine_stops(m: MachineView)
    requires
        m.halted,
    ensures
        spec_step(m) == (m, StepOutcome::AlreadyHalted),
{
}

/// A memory write at or beyond the capacity halts the machine, records
/// the fault, and changes no register and no memory cell.
pub proof fn lemma_out_of_bounds_write_halts(m: MachineView, idx: int, v: int)
    requires
        idx < 0 || idx >= MAX_MEMORY,
    ensures
        spec_set_mem(m, idx, v).halted,
        spec_set_mem(m, idx, v).fault == Some(MachineFault::MemoryOutOfBounds),
        spec_set_mem(m, idx, v).mem == m.mem,
        spec_set_mem(m, idx, v).acc == m.acc,
        spec_set_mem(m, idx, v).ix == m.ix,
        spec_set_mem(m, idx, v).ip == m.ip,
{
}

} // verus!
