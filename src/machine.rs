//! The machine state, the decoder and the executor.
use std::collections::VecDeque;

use vstd::prelude::*;

use crate::commands::{command_spec, parse_command, Command, CommandError, CommandView};
use crate::operand::{
    spec_literal, spec_location, spec_register, spec_value, Address, Literal, Location,
    OperandError, Register, Value, MEMORY_SIZE, REGISTER_COUNT,
};

verus! {

/// Where the guest's costly self-check routine starts.
pub const PATCH_ADDRESS: usize = 0x178b;

/// The opcode of `ret`, written over the start of that routine.
pub const RET_OPCODE: u16 = 18;

/// What the routine leaves in `r0` when it succeeds.
pub const PATCH_RESULT: u16 = 6;

/// The value of `r7` for which the routine returns `PATCH_RESULT`; see
/// `crate::routine`.
pub const MAGIC_R7: u16 = 0x6486;

/// The largest program image, in bytes.
pub const MAX_IMAGE_BYTES: usize = 65536;

/// A decoded instruction. Value operands are already read as literals and
/// jump targets as addresses; destinations stay symbolic.
#[derive(Clone, Copy, Debug, PartialEq, Eq, Structural)]
pub enum Instruction {
    Halt,
    SetRegister(Register, Literal),
    Push(Literal),
    Pop(Location),
    Eq(Location, Literal, Literal),
    Gt(Location, Literal, Literal),
    Jmp(Address),
    Jt(Literal, Address),
    Jf(Literal, Address),
    Add(Location, Literal, Literal),
    Mult(Location, Literal, Literal),
    Mod(Location, Literal, Literal),
    And(Location, Literal, Literal),
    Or(Location, Literal, Literal),
    Not(Location, Literal),
    Rmem(Location, Address),
    Wmem(Address, Literal),
    Call(Address),
    Ret,
    Out(Literal),
    In(Location),
    Noop,
}

impl Instruction {
    /// Every register, literal, address and location it carries is in range.
    pub open spec fn wf(self) -> bool {
        match self {
            Instruction::SetRegister(r, l) => r.wf() && l.wf(),
            Instruction::Push(l) => l.wf(),
            Instruction::Pop(d) => d.wf(),
            Instruction::Eq(d, a, b) => d.wf() && a.wf() && b.wf(),
            Instruction::Gt(d, a, b) => d.wf() && a.wf() && b.wf(),
            Instruction::Jmp(t) => t.wf(),
            Instruction::Jt(l, t) => l.wf() && t.wf(),
            Instruction::Jf(l, t) => l.wf() && t.wf(),
            Instruction::Add(d, a, b) => d.wf() && a.wf() && b.wf(),
            Instruction::Mult(d, a, b) => d.wf() && a.wf() && b.wf(),
            Instruction::Mod(d, a, b) => d.wf() && a.wf() && b.wf(),
            Instruction::And(d, a, b) => d.wf() && a.wf() && b.wf(),
            Instruction::Or(d, a, b) => d.wf() && a.wf() && b.wf(),
            Instruction::Not(d, a) => d.wf() && a.wf(),
            Instruction::Rmem(d, s) => d.wf() && s.wf(),
            Instruction::Wmem(t, l) => t.wf() && l.wf(),
            Instruction::Call(t) => t.wf(),
            Instruction::Out(l) => l.wf(),
            Instruction::In(d) => d.wf(),
            _ => true,
        }
    }
}

/// A fatal fault of the guest program or of its image.
#[derive(Clone, Copy, Debug, PartialEq, Eq, Structural)]
pub enum MachineError {
    /// The program image holds more bytes than memory can take.
    ImageTooLarge(usize),
    /// The instruction at the given address has an operand cell that cannot
    /// be read as its kind, or a register that holds no valid literal or
    /// address.
    Operand(usize, OperandError),
    /// The cell at the given address is no opcode.
    Opcode(usize, u16),
    /// A cell was to be fetched from beyond memory.
    ProgramCounterOutOfRange(usize),
    /// `pop` on an empty stack.
    StackUnderflow,
    /// `mod` by zero.
    DivisionByZero,
}

/// What an executed instruction asks of the host.
#[derive(Clone, Copy, Debug, PartialEq, Eq, Structural)]
pub enum Event {
    /// Nothing: go on with the next instruction.
    Continue,
    /// The program has ended successfully.
    Halted,
    /// Write this byte to the output.
    Output(u8),
    /// `in` found the input queue empty; the program counter already points
    /// past it. The host reads a line and either feeds it (then executes
    /// `In` with this destination again) or handles an operator command.
    NeedInput(Location),
}

/// The machine's durable state as mathematical values.
pub struct State {
    pub mem: Seq<u16>,
    pub registers: Seq<u16>,
    pub stack: Seq<u16>,
    pub index: int,
    pub stdin: Seq<u8>,
}

impl State {
    pub open spec fn wf(self) -> bool {
        &&& self.mem.len() == 32768
        &&& self.registers.len() == 8
        &&& 0 <= self.index
    }
}

/// The whole state of the virtual machine.
pub struct Machine {
    /// Guest memory, 32768 words.
    pub mem: Vec<u16>,
    /// The eight general registers.
    pub registers: Vec<u16>,
    /// The unbounded stack; its top is the last element.
    pub stack: Vec<u16>,
    /// The program counter.
    pub index: usize,
    /// Bytes of operator input not yet consumed by `in`.
    pub stdin: VecDeque<u8>,
}

impl View for Machine {
    type V = State;

    open spec fn view(&self) -> State {
        State {
            mem: self.mem@,
            registers: self.registers@,
            stack: self.stack@,
            index: self.index as int,
            stdin: self.stdin@,
        }
    }
}

/// The word that two image bytes form, low byte first.
pub open spec fn le_word(lo: u8, hi: u8) -> u16 {
    (lo + 256 * hi) as u16
}

/// Memory as loaded from an image: its whole words, then zeros.
pub open spec fn image_memory(program: Seq<u8>) -> Seq<u16> {
    Seq::new(
        32768,
        |i: int|
            if 2 * i + 1 < program.len() {
                le_word(program[2 * i], program[2 * i + 1])
            } else {
                0u16
            },
    )
}

/// Reads a literal operand, through a register if it names one.
pub open spec fn eval_value(regs: Seq<u16>, v: Value) -> Result<Literal, OperandError> {
    match v {
        Value::Literal(l) => Ok(l),
        Value::LiteralAtRegister(r) => spec_literal(regs[r.0 as int]),
    }
}

/// Reads a target operand as an address, through a register if it names one.
pub open spec fn eval_location(regs: Seq<u16>, loc: Location) -> Result<Address, OperandError> {
    match loc {
        Location::Address(a) => Ok(a),
        Location::Register(r) => crate::operand::spec_address(regs[r.0 as int]),
    }
}

/// The cell at `i`, if `i` is inside memory.
pub open spec fn fetch(mem: Seq<u16>, i: int) -> Result<u16, MachineError> {
    if 0 <= i < mem.len() {
        Ok(mem[i])
    } else {
        Err(MachineError::ProgramCounterOutOfRange(i as usize))
    }
}

/// The register operand in cell `i` of the instruction at `at`.
pub open spec fn register_at(mem: Seq<u16>, at: int, i: int) -> Result<Register, MachineError> {
    match fetch(mem, i) {
        Err(e) => Err(e),
        Ok(raw) => match spec_register(raw) {
            Err(e) => Err(MachineError::Operand(at as usize, e)),
            Ok(r) => Ok(r),
        },
    }
}

/// The destination operand in cell `i` of the instruction at `at`.
pub open spec fn location_at(mem: Seq<u16>, at: int, i: int) -> Result<Location, MachineError> {
    match fetch(mem, i) {
        Err(e) => Err(e),
        Ok(raw) => match spec_location(raw) {
            Err(e) => Err(MachineError::Operand(at as usize, e)),
            Ok(l) => Ok(l),
        },
    }
}

/// The value operand in cell `i` of the instruction at `at`, read as a
/// literal.
pub open spec fn value_at(mem: Seq<u16>, regs: Seq<u16>, at: int, i: int) -> Result<
    Literal,
    MachineError,
> {
    match fetch(mem, i) {
        Err(e) => Err(e),
        Ok(raw) => match spec_value(raw) {
            Err(e) => Err(MachineError::Operand(at as usize, e)),
            Ok(v) => match eval_value(regs, v) {
                Err(e) => Err(MachineError::Operand(at as usize, e)),
                Ok(l) => Ok(l),
            },
        },
    }
}

/// The target operand in cell `i` of the instruction at `at`, read as an
/// address.
pub open spec fn target_at(mem: Seq<u16>, regs: Seq<u16>, at: int, i: int) -> Result<
    Address,
    MachineError,
> {
    match location_at(mem, at, i) {
        Err(e) => Err(e),
        Ok(l) => match eval_location(regs, l) {
            Err(e) => Err(MachineError::Operand(at as usize, e)),
            Ok(a) => Ok(a),
        },
    }
}

/// The operands `dst, a, b` of an arithmetic, logic or comparison
/// instruction at `at`.
pub open spec fn binary_at(mem: Seq<u16>, regs: Seq<u16>, at: int) -> Result<
    (Location, Literal, Literal),
    MachineError,
> {
    match location_at(mem, at, at + 1) {
        Err(e) => Err(e),
        Ok(d) => match value_at(mem, regs, at, at + 2) {
            Err(e) => Err(e),
            Ok(a) => match value_at(mem, regs, at, at + 3) {
                Err(e) => Err(e),
                Ok(b) => Ok((d, a, b)),
            },
        },
    }
}

/// The instruction that a binary opcode builds.
pub open spec fn binary_instruction(opcode: u16, d: Location, a: Literal, b: Literal) -> Instruction {
    if opcode == 4 {
        Instruction::Eq(d, a, b)
    } else if opcode == 5 {
        Instruction::Gt(d, a, b)
    } else if opcode == 9 {
        Instruction::Add(d, a, b)
    } else if opcode == 10 {
        Instruction::Mult(d, a, b)
    } else if opcode == 11 {
        Instruction::Mod(d, a, b)
    } else if opcode == 12 {
        Instruction::And(d, a, b)
    } else {
        Instruction::Or(d, a, b)
    }
}

pub open spec fn is_binary_opcode(opcode: u16) -> bool {
    opcode == 4 || opcode == 5 || (9 <= opcode <= 13)
}

/// Decodes the instruction at `at`: the instruction and the address just past
/// its last cell, or the first fault met reading its cells left to right.
pub open spec fn decode_at(mem: Seq<u16>, regs: Seq<u16>, at: int) -> Result<
    (Instruction, int),
    MachineError,
> {
    match fetch(mem, at) {
        Err(e) => Err(e),
        Ok(op) => if op == 0 {
            Ok((Instruction::Halt, at + 1))
        } else if op == 1 {
            match register_at(mem, at, at + 1) {
                Err(e) => Err(e),
                Ok(r) => match value_at(mem, regs, at, at + 2) {
                    Err(e) => Err(e),
                    Ok(l) => Ok((Instruction::SetRegister(r, l), at + 3)),
                },
            }
        } else if op == 2 {
            match value_at(mem, regs, at, at + 1) {
                Err(e) => Err(e),
                Ok(l) => Ok((Instruction::Push(l), at + 2)),
            }
        } else if op == 3 {
            match location_at(mem, at, at + 1) {
                Err(e) => Err(e),
                Ok(d) => Ok((Instruction::Pop(d), at + 2)),
            }
        } else if is_binary_opcode(op) {
            match binary_at(mem, regs, at) {
                Err(e) => Err(e),
                Ok(t) => Ok((binary_instruction(op, t.0, t.1, t.2), at + 4)),
            }
        } else if op == 6 || op == 17 {
            match target_at(mem, regs, at, at + 1) {
                Err(e) => Err(e),
                Ok(t) => Ok(
                    (
                        if op == 6 {
                            Instruction::Jmp(t)
                        } else {
                            Instruction::Call(t)
                        },
                        at + 2,
                    ),
                ),
            }
        } else if op == 7 || op == 8 {
            match value_at(mem, regs, at, at + 1) {
                Err(e) => Err(e),
                Ok(l) => match target_at(mem, regs, at, at + 2) {
                    Err(e) => Err(e),
                    Ok(t) => Ok(
                        (
                            if op == 7 {
                                Instruction::Jt(l, t)
                            } else {
                                Instruction::Jf(l, t)
                            },
                            at + 3,
                        ),
                    ),
                },
            }
        } else if op == 14 {
            match location_at(mem, at, at + 1) {
                Err(e) => Err(e),
                Ok(d) => match value_at(mem, regs, at, at + 2) {
                    Err(e) => Err(e),
                    Ok(l) => Ok((Instruction::Not(d, l), at + 3)),
                },
            }
        } else if op == 15 {
            match location_at(mem, at, at + 1) {
                Err(e) => Err(e),
                Ok(d) => match target_at(mem, regs, at, at + 2) {
                    Err(e) => Err(e),
                    Ok(s) => Ok((Instruction::Rmem(d, s), at + 3)),
                },
            }
        } else if op == 16 {
            match target_at(mem, regs, at, at + 1) {
                Err(e) => Err(e),
                Ok(t) => match value_at(mem, regs, at, at + 2) {
                    Err(e) => Err(e),
                    Ok(l) => Ok((Instruction::Wmem(t, l), at + 3)),
                },
            }
        } else if op == 18 {
            Ok((Instruction::Ret, at + 1))
        } else if op == 19 {
            match value_at(mem, regs, at, at + 1) {
                Err(e) => Err(e),
                Ok(l) => Ok((Instruction::Out(l), at + 2)),
            }
        } else if op == 20 {
            match location_at(mem, at, at + 1) {
                Err(e) => Err(e),
                Ok(d) => Ok((Instruction::In(d), at + 2)),
            }
        } else if op == 21 {
            Ok((Instruction::Noop, at + 1))
        } else {
            Err(MachineError::Opcode(at as usize, op))
        },
    }
}

/// Whether the patch hook fires in this state: the program counter stands
/// at the guest's self-check routine and `r7` holds 1.
pub open spec fn patch_fires(s: State) -> bool {
    s.index == PATCH_ADDRESS && s.registers[7] == 1
}

/// The state after the patch hook: where it fires, the routine's first cell
/// becomes `ret`, `r0` its result, and `r7` the value that yields it.
pub open spec fn patched(s: State) -> State {
    if patch_fires(s) {
        State {
            mem: s.mem.update(PATCH_ADDRESS as int, RET_OPCODE),
            registers: s.registers.update(0, PATCH_RESULT).update(7, MAGIC_R7),
            ..s
        }
    } else {
        s
    }
}

/// Fields other than the program counter are equal.
pub open spec fn same_but_index(a: &Machine, b: &Machine) -> bool {
    &&& a.mem@ == b.mem@
    &&& a.registers@ == b.registers@
    &&& a.stack@ == b.stack@
    &&& a.stdin@ == b.stdin@
}

/// The state after writing `v` to a destination.
pub open spec fn store(s: State, loc: Location, v: u16) -> State {
    match loc {
        Location::Address(a) => State { mem: s.mem.update(a.0 as int, v), ..s },
        Location::Register(r) => State { registers: s.registers.update(r.0 as int, v), ..s },
    }
}

/// The state with a new program counter.
pub open spec fn jump(s: State, target: int) -> State {
    State { index: target, ..s }
}

/// What executing a decoded instruction does to the state, and what it asks
/// of the host; or the fault it raises.
pub open spec fn execute_spec(s: State, instr: Instruction) -> Result<(State, Event), MachineError> {
    match instr {
        Instruction::Halt => Ok((s, Event::Halted)),
        Instruction::SetRegister(r, l) => Ok(
            (State { registers: s.registers.update(r.0 as int, l.0), ..s }, Event::Continue),
        ),
        Instruction::Push(l) => Ok((State { stack: s.stack.push(l.0), ..s }, Event::Continue)),
        Instruction::Pop(d) => if s.stack.len() == 0 {
            Err(MachineError::StackUnderflow)
        } else {
            Ok(
                (
                    store(State { stack: s.stack.drop_last(), ..s }, d, s.stack.last()),
                    Event::Continue,
                ),
            )
        },
        Instruction::Eq(d, a, b) => Ok(
            (store(s, d, if a.0 == b.0 { 1u16 } else { 0u16 }), Event::Continue),
        ),
        Instruction::Gt(d, a, b) => Ok(
            (store(s, d, if a.0 > b.0 { 1u16 } else { 0u16 }), Event::Continue),
        ),
        Instruction::Jmp(t) => Ok((jump(s, t.0 as int), Event::Continue)),
        Instruction::Jt(l, t) => Ok(
            (if l.0 != 0 { jump(s, t.0 as int) } else { s }, Event::Continue),
        ),
        Instruction::Jf(l, t) => Ok(
            (if l.0 == 0 { jump(s, t.0 as int) } else { s }, Event::Continue),
        ),
        Instruction::Add(d, a, b) => Ok(
            (store(s, d, ((a.0 + b.0) % 32768) as u16), Event::Continue),
        ),
        Instruction::Mult(d, a, b) => Ok(
            (store(s, d, ((a.0 * b.0) % 32768) as u16), Event::Continue),
        ),
        Instruction::Mod(d, a, b) => if b.0 == 0 {
            Err(MachineError::DivisionByZero)
        } else {
            Ok((store(s, d, (a.0 % b.0) as u16), Event::Continue))
        },
        Instruction::And(d, a, b) => Ok((store(s, d, a.0 & b.0), Event::Continue)),
        Instruction::Or(d, a, b) => Ok((store(s, d, a.0 | b.0), Event::Continue)),
        Instruction::Not(d, a) => Ok((store(s, d, !a.0 & 0x7fff), Event::Continue)),
        Instruction::Rmem(d, src) => Ok((store(s, d, s.mem[src.0 as int]), Event::Continue)),
        Instruction::Wmem(t, l) => Ok(
            (State { mem: s.mem.update(t.0 as int, l.0), ..s }, Event::Continue),
        ),
        Instruction::Call(t) => Ok(
            (
                State { stack: s.stack.push(s.index as u16), index: t.0 as int, ..s },
                Event::Continue,
            ),
        ),
        Instruction::Ret => if s.stack.len() == 0 {
            Ok((s, Event::Halted))
        } else {
            Ok(
                (
                    State { stack: s.stack.drop_last(), index: s.stack.last() as int, ..s },
                    Event::Continue,
                ),
            )
        },
        Instruction::Out(l) => Ok((s, Event::Output(l.0 as u8))),
        Instruction::In(d) => if s.stdin.len() == 0 {
            Ok((s, Event::NeedInput(d)))
        } else {
            Ok(
                (
                    store(State { stdin: s.stdin.drop_first(), ..s }, d, s.stdin[0] as u16),
                    Event::Continue,
                ),
            )
        },
        Instruction::Noop => Ok((s, Event::Continue)),
    }
}

/// One cycle: the patch hook, decoding, then execution.
pub open spec fn step_spec(s: State) -> Result<(State, Event), MachineError> {
    let p = patched(s);
    match decode_at(p.mem, p.registers, p.index) {
        Err(e) => Err(e),
        Ok((instr, next)) => execute_spec(State { index: next, ..p }, instr),
    }
}

/// The bytes queued in front of the input after an operator command, so that
/// the guest describes its surroundings again: `look` and a line break.
pub open spec fn look_line() -> Seq<u8> {
    seq![108u8, 111u8, 111u8, 107u8, 10u8]
}

/// The state after an operator command: the program counter goes back to
/// the `in` instruction (two cells) and `look_line` is queued in front.
pub open spec fn redo(s: State) -> State {
    State { index: s.index - 2, stdin: look_line() + s.stdin, ..s }
}

/// The state of a saved snapshot can be restored: memory and registers have
/// their sizes.
pub open spec fn restorable(s: State) -> bool {
    s.mem.len() == 32768 && s.registers.len() == 8
}

/// What the host is to do after a line was handed to `accept_line`.
#[derive(Debug)]
pub enum Action {
    /// The line was guest input: the pending `in` ran again and gave this
    /// event (`Continue`, or `NeedInput` when the line held no byte).
    Resumed(Event),
    /// A register was set; `in` is rewound.
    Done,
    /// Print all registers; `in` is rewound.
    PrintRegisters,
    /// Print this register and its contents; `in` is rewound.
    PrintRegister(Register, u16),
    /// Open the file and trace to it; `in` is rewound.
    StartLog(Vec<char>),
    /// Stop tracing; `in` is rewound.
    StopLog,
    /// Write the machine, unchanged, to the file and exit successfully.
    SaveState(Vec<char>),
    /// Replace the machine by the one in the file, then call `redo_input` on
    /// the new one.
    LoadState(Vec<char>),
}

/// The durable state in plain values, as saved and restored.
pub struct Snapshot {
    pub mem: Vec<u16>,
    pub registers: Vec<u16>,
    pub stack: Vec<u16>,
    pub index: usize,
    pub stdin: Vec<u8>,
}

impl View for Snapshot {
    type V = State;

    open spec fn view(&self) -> State {
        State {
            mem: self.mem@,
            registers: self.registers@,
            stack: self.stack@,
            index: self.index as int,
            stdin: self.stdin@,
        }
    }
}

/// A snapshot whose memory or register file has the wrong size.
#[derive(Clone, Copy, Debug, PartialEq, Eq, Structural)]
pub enum SnapshotError {
    MemorySize(usize),
    RegisterCount(usize),
}

fn copy_words(v: &Vec<u16>) -> (r: Vec<u16>)
    ensures
        r@ == v@,
{
    let mut r: Vec<u16> = Vec::new();
    let mut i: usize = 0;
    while i < v.len()
        invariant
            i <= v@.len(),
            r@ == v@.subrange(0, i as int),
        decreases v@.len() - i,
    {
        r.push(v[i]);
        i += 1;
    }
    assert(r@ =~= v@);
    r
}

impl Machine {
    pub open spec fn wf(&self) -> bool {
        &&& self.mem@.len() == 32768
        &&& self.registers@.len() == 8
    }

    /// Builds a machine from a program image: successive little-endian words
    /// fill memory from address 0, a trailing odd byte is ignored, and the
    /// rest is zero. Registers are zero, the stack and the input queue are
    /// empty, and execution starts at address 0.
    pub fn new(program: &[u8]) -> (r: Result<Machine, MachineError>)
        ensures
            program@.len() <= 65536 <==> r is Ok,
            r matches Ok(m) ==> {
                &&& m.wf()
                &&& m.mem@ == image_memory(program@)
                &&& m.registers@ == seq![0u16; 8]
                &&& m.stack@.len() == 0
                &&& m.index == 0
                &&& m.stdin@.len() == 0
            },
            r matches Err(e) ==> e == MachineError::ImageTooLarge(program@.len() as usize),
    {
        if program.len() > MAX_IMAGE_BYTES {
            return Err(MachineError::ImageTooLarge(program.len()));
        }
        let mut mem: Vec<u16> = vec![0u16; MEMORY_SIZE];
        let words: usize = program.len() / 2;
        let mut i: usize = 0;
        while i < words
            invariant
                words == program@.len() / 2,
                words <= 32768,
                i <= words,
                mem@.len() == 32768,
                forall|j: int|
                    0 <= j < 32768 ==> #[trigger] mem@[j] == if j < i {
                        image_memory(program@)[j]
                    } else {
                        0u16
                    },
            decreases words - i,
        {
            let lo: u8 = program[2 * i];
            let hi: u8 = program[2 * i + 1];
            mem[i] = lo as u16 + (hi as u16) * 256;
            i += 1;
        }
        assert(mem@ =~= image_memory(program@));
        let registers: Vec<u16> = vec![0u16; REGISTER_COUNT];
        assert(registers@ =~= seq![0u16; 8]);
        Ok(Machine { mem, registers, stack: Vec::new(), index: 0, stdin: VecDeque::new() })
    }

    fn read_cell(&mut self) -> (r: Result<u16, MachineError>)
        requires
            old(self).wf(),
        ensures
            same_but_index(old(self), final(self)),
            r == fetch(old(self).mem@, old(self).index as int),
            r is Ok ==> final(self).index == old(self).index + 1,
    {
        if self.index < self.mem.len() {
            let cell = self.mem[self.index];
            self.index += 1;
            Ok(cell)
        } else {
            Err(MachineError::ProgramCounterOutOfRange(self.index))
        }
    }

    fn read_register(&mut self, at: usize) -> (r: Result<Register, MachineError>)
        requires
            old(self).wf(),
        ensures
            same_but_index(old(self), final(self)),
            r == register_at(old(self).mem@, at as int, old(self).index as int),
            r is Ok ==> final(self).index == old(self).index + 1 && r->Ok_0.wf(),
    {
        let raw = self.read_cell()?;
        match Register::new(raw) {
            Ok(r) => Ok(r),
            Err(e) => Err(MachineError::Operand(at, e)),
        }
    }

    fn read_location(&mut self, at: usize) -> (r: Result<Location, MachineError>)
        requires
            old(self).wf(),
        ensures
            same_but_index(old(self), final(self)),
            r == location_at(old(self).mem@, at as int, old(self).index as int),
            r is Ok ==> final(self).index == old(self).index + 1 && r->Ok_0.wf(),
    {
        let raw = self.read_cell()?;
        match Location::new(raw) {
            Ok(l) => Ok(l),
            Err(e) => Err(MachineError::Operand(at, e)),
        }
    }

    fn eval_register(&self, register: Register) -> (r: u16)
        requires
            self.wf(),
            register.wf(),
        ensures
            r == self.registers@[register.0 as int],
    {
        self.registers[register.0]
    }

    fn read_value(&mut self, at: usize) -> (r: Result<Literal, MachineError>)
        requires
            old(self).wf(),
        ensures
            same_but_index(old(self), final(self)),
            r == value_at(old(self).mem@, old(self).registers@, at as int, old(self).index as int),
            r is Ok ==> final(self).index == old(self).index + 1 && r->Ok_0.wf(),
    {
        let raw = self.read_cell()?;
        let value = match Value::new(raw) {
            Ok(v) => v,
            Err(e) => return Err(MachineError::Operand(at, e)),
        };
        let evaluated = match value {
            Value::Literal(l) => Ok(l),
            Value::LiteralAtRegister(r) => Literal::new(self.eval_register(r)),
        };
        match evaluated {
            Ok(l) => Ok(l),
            Err(e) => Err(MachineError::Operand(at, e)),
        }
    }

    fn read_target(&mut self, at: usize) -> (r: Result<Address, MachineError>)
        requires
            old(self).wf(),
        ensures
            same_but_index(old(self), final(self)),
            r == target_at(old(self).mem@, old(self).registers@, at as int, old(self).index as int),
            r is Ok ==> final(self).index == old(self).index + 1 && r->Ok_0.wf(),
    {
        let location = self.read_location(at)?;
        let evaluated = match location {
            Location::Address(a) => Ok(a),
            Location::Register(r) => Address::new(self.eval_register(r)),
        };
        match evaluated {
            Ok(a) => Ok(a),
            Err(e) => Err(MachineError::Operand(at, e)),
        }
    }

    fn read_binary(&mut self, at: usize) -> (r: Result<(Location, Literal, Literal), MachineError>)
        requires
            old(self).wf(),
            old(self).index == at + 1,
        ensures
            same_but_index(old(self), final(self)),
            r == binary_at(old(self).mem@, old(self).registers@, at as int),
            r is Ok ==> final(self).index == old(self).index + 3 && r->Ok_0.0.wf()
                && r->Ok_0.1.wf() && r->Ok_0.2.wf(),
    {
        let d = self.read_location(at)?;
        let a = self.read_value(at)?;
        let b = self.read_value(at)?;
        Ok((d, a, b))
    }

    /// The patch hook: where the program counter stands at the guest's
    /// self-check routine with `r7 == 1`, the routine is replaced by an
    /// immediate `ret` and its result is put in place, so that the guest goes
    /// on as if the routine had run with the matching `r7`.
    pub fn apply_patch(&mut self)
        requires
            old(self).wf(),
        ensures
            final(self).wf(),
            final(self)@ == patched(old(self)@),
    {
        if self.index == PATCH_ADDRESS && self.registers[7] == 1 {
            self.mem[PATCH_ADDRESS] = RET_OPCODE;
            self.registers[0] = PATCH_RESULT;
            self.registers[7] = MAGIC_R7;
        }
    }

    /// Applies the patch hook, then reads the instruction at the program
    /// counter and moves the program counter past it. On a fault the program
    /// counter stays on the instruction.
    pub fn decode(&mut self) -> (r: Result<Instruction, MachineError>)
        requires
            old(self).wf(),
        ensures
            final(self).wf(),
            ({
                let p = patched(old(self)@);
                match decode_at(p.mem, p.registers, p.index) {
                    Ok((instr, next)) => r == Ok::<Instruction, MachineError>(instr)
                        && final(self)@ == (State { index: next, ..p }),
                    Err(e) => r == Err::<Instruction, MachineError>(e) && final(self)@ == p,
                }
            }),
            r matches Ok(instr) ==> instr.wf(),
    {
        self.apply_patch();
        let at = self.index;
        let r = self.fetch_instruction();
        if r.is_err() {
            self.index = at;
        }
        r
    }

    fn fetch_instruction(&mut self) -> (r: Result<Instruction, MachineError>)
        requires
            old(self).wf(),
        ensures
            final(self).wf(),
            same_but_index(old(self), final(self)),
            match decode_at(old(self).mem@, old(self).registers@, old(self).index as int) {
                Ok((instr, next)) => r == Ok::<Instruction, MachineError>(instr)
                    && final(self).index == next,
                Err(e) => r == Err::<Instruction, MachineError>(e),
            },
            r matches Ok(instr) ==> instr.wf(),
    {
        let at = self.index;
        let opcode = self.read_cell()?;
        match opcode {
            0 => Ok(Instruction::Halt),
            1 => {
                let register = self.read_register(at)?;
                let literal = self.read_value(at)?;
                Ok(Instruction::SetRegister(register, literal))
            },
            2 => {
                let literal = self.read_value(at)?;
                Ok(Instruction::Push(literal))
            },
            3 => {
                let location = self.read_location(at)?;
                Ok(Instruction::Pop(location))
            },
            4 | 5 | 9 | 10 | 11 | 12 | 13 => {
                let (d, a, b) = self.read_binary(at)?;
                Ok(
                    match opcode {
                        4 => Instruction::Eq(d, a, b),
                        5 => Instruction::Gt(d, a, b),
                        9 => Instruction::Add(d, a, b),
                        10 => Instruction::Mult(d, a, b),
                        11 => Instruction::Mod(d, a, b),
                        12 => Instruction::And(d, a, b),
                        _ => Instruction::Or(d, a, b),
                    },
                )
            },
            6 => {
                let address = self.read_target(at)?;
                Ok(Instruction::Jmp(address))
            },
            7 => {
                let literal = self.read_value(at)?;
                let address = self.read_target(at)?;
                Ok(Instruction::Jt(literal, address))
            },
            8 => {
                let literal = self.read_value(at)?;
                let address = self.read_target(at)?;
                Ok(Instruction::Jf(literal, address))
            },
            14 => {
                let location = self.read_location(at)?;
                let literal = self.read_value(at)?;
                Ok(Instruction::Not(location, literal))
            },
            15 => {
                let dest = self.read_location(at)?;
                let src = self.read_target(at)?;
                Ok(Instruction::Rmem(dest, src))
            },
            16 => {
                let dest = self.read_target(at)?;
                let literal = self.read_value(at)?;
                Ok(Instruction::Wmem(dest, literal))
            },
            17 => {
                let address = self.read_target(at)?;
                Ok(Instruction::Call(address))
            },
            18 => Ok(Instruction::Ret),
            19 => {
                let literal = self.read_value(at)?;
                Ok(Instruction::Out(literal))
            },
            20 => {
                let location = self.read_location(at)?;
                Ok(Instruction::In(location))
            },
            21 => Ok(Instruction::Noop),
            _ => Err(MachineError::Opcode(at, opcode)),
        }
    }

    fn write_to_location(&mut self, location: Location, raw: u16)
        requires
            old(self).wf(),
            location.wf(),
        ensures
            final(self).wf(),
            final(self)@ == store(old(self)@, location, raw),
    {
        match location {
            Location::Address(address) => self.mem[address.0] = raw,
            Location::Register(register) => self.registers[register.0] = raw,
        }
    }

    /// `in`: the next queued byte goes to `location`, or the host is asked
    /// for input.
    fn take_input(&mut self, location: Location) -> (r: Event)
        requires
            old(self).wf(),
            location.wf(),
        ensures
            final(self).wf(),
            execute_spec(old(self)@, Instruction::In(location)) == Ok::<(State, Event), MachineError>(
                (final(self)@, r),
            ),
    {
        match self.stdin.pop_front() {
            Some(raw) => {
                self.write_to_location(location, raw as u16);
                Event::Continue
            },
            None => Event::NeedInput(location),
        }
    }

    /// Executes a decoded instruction. The program counter is expected to
    /// point past it already, as `decode` leaves it. A fault changes nothing.
    pub fn execute(&mut self, instr: Instruction) -> (r: Result<Event, MachineError>)
        requires
            old(self).wf(),
            instr.wf(),
        ensures
            final(self).wf(),
            match execute_spec(old(self)@, instr) {
                Ok((s, ev)) => r == Ok::<Event, MachineError>(ev) && final(self)@ == s,
                Err(e) => r == Err::<Event, MachineError>(e) && final(self)@ == old(self)@,
            },
    {
        match instr {
            Instruction::Halt => Ok(Event::Halted),
            Instruction::SetRegister(register, literal) => {
                self.registers[register.0] = literal.0;
                Ok(Event::Continue)
            },
            Instruction::Push(literal) => {
                self.stack.push(literal.0);
                Ok(Event::Continue)
            },
            Instruction::Pop(location) => match self.stack.pop() {
                Some(raw) => {
                    self.write_to_location(location, raw);
                    Ok(Event::Continue)
                },
                None => Err(MachineError::StackUnderflow),
            },
            Instruction::Eq(location, left, right) => {
                self.write_to_location(location, if left.0 == right.0 { 1 } else { 0 });
                Ok(Event::Continue)
            },
            Instruction::Gt(location, left, right) => {
                self.write_to_location(location, if left.0 > right.0 { 1 } else { 0 });
                Ok(Event::Continue)
            },
            Instruction::Jmp(address) => {
                self.index = address.0;
                Ok(Event::Continue)
            },
            Instruction::Jt(literal, address) => {
                if literal.0 != 0 {
                    self.index = address.0;
                }
                Ok(Event::Continue)
            },
            Instruction::Jf(literal, address) => {
                if literal.0 == 0 {
                    self.index = address.0;
                }
                Ok(Event::Continue)
            },
            Instruction::Add(dest, left, right) => {
                let sum = (left.0 + right.0) % 32768;
                self.write_to_location(dest, sum);
                Ok(Event::Continue)
            },
            Instruction::Mult(dest, left, right) => {
                assert(left.0 as u32 * right.0 as u32 <= 32767 * 32767) by (nonlinear_arith)
                    requires
                        left.0 < 32768,
                        right.0 < 32768,
                ;
                let product = ((left.0 as u32 * right.0 as u32) % 32768) as u16;
                self.write_to_location(dest, product);
                Ok(Event::Continue)
            },
            Instruction::Mod(dest, left, right) => {
                if right.0 == 0 {
                    return Err(MachineError::DivisionByZero);
                }
                let rem = left.0 % right.0;
                self.write_to_location(dest, rem);
                Ok(Event::Continue)
            },
            Instruction::And(dest, left, right) => {
                self.write_to_location(dest, left.0 & right.0);
                Ok(Event::Continue)
            },
            Instruction::Or(dest, left, right) => {
                self.write_to_location(dest, left.0 | right.0);
                Ok(Event::Continue)
            },
            Instruction::Not(dest, operand) => {
                let noted = !operand.0 & 0x7fff;
                self.write_to_location(dest, noted);
                Ok(Event::Continue)
            },
            Instruction::Rmem(dest, src) => {
                let raw = self.mem[src.0];
                self.write_to_location(dest, raw);
                Ok(Event::Continue)
            },
            Instruction::Wmem(dest, src) => {
                self.mem[dest.0] = src.0;
                Ok(Event::Continue)
            },
            Instruction::Call(address) => {
                self.stack.push(self.index as u16);
                self.index = address.0;
                Ok(Event::Continue)
            },
            Instruction::Ret => match self.stack.pop() {
                Some(dest) => {
                    self.index = dest as usize;
                    Ok(Event::Continue)
                },
                None => Ok(Event::Halted),
            },
            Instruction::Out(literal) => Ok(Event::Output(literal.0 as u8)),
            Instruction::In(location) => Ok(self.take_input(location)),
            Instruction::Noop => Ok(Event::Continue),
        }
    }

    /// Runs one cycle: the patch hook, decoding and execution. A fault leaves
    /// the machine as the patch hook left it, the program counter on the
    /// faulting instruction.
    pub fn step(&mut self) -> (r: Result<Event, MachineError>)
        requires
            old(self).wf(),
        ensures
            final(self).wf(),
            match step_spec(old(self)@) {
                Ok((s, ev)) => r == Ok::<Event, MachineError>(ev) && final(self)@ == s,
                Err(e) => r == Err::<Event, MachineError>(e) && final(self)@ == patched(
                    old(self)@,
                ),
            },
    {
        let at = self.index;
        let instr = self.decode()?;
        let r = self.execute(instr);
        if r.is_err() {
            self.index = at;
        }
        r
    }

    /// Rewinds the program counter to the `in` instruction just executed and
    /// queues `look_line` in front of the input.
    pub fn redo_input(&mut self)
        requires
            old(self).wf(),
            old(self).index >= 2,
        ensures
            final(self).wf(),
            final(self)@ == redo(old(self)@),
    {
        self.index = self.index - 2;
        self.stdin.push_front(10);
        self.stdin.push_front(107);
        self.stdin.push_front(111);
        self.stdin.push_front(111);
        self.stdin.push_front(108);
        assert(self.stdin@ =~= look_line() + old(self).stdin@);
    }

    /// Handles a line read while `in` with destination `dst` waited on an
    /// empty queue (the program counter already past it). Guest input is
    /// queued and `in` runs again; an operator command is done here where it
    /// needs no host, and otherwise handed to the host as an `Action`. A
    /// malformed command changes nothing.
    pub fn accept_line(&mut self, dst: Location, line: &str) -> (r: Result<Action, CommandError>)
        requires
            old(self).wf(),
            dst.wf(),
            old(self).index >= 2,
        ensures
            final(self).wf(),
            match command_spec(line@) {
                Err(e) => r == Err::<Action, CommandError>(e) && final(self)@ == old(self)@,
                Ok(CommandView::Input(bytes)) => {
                    let queued = State { stdin: old(self)@.stdin + bytes, ..old(self)@ };
                    execute_spec(queued, Instruction::In(dst)) matches Ok((s, ev)) && r matches Ok(
                        Action::Resumed(e),
                    ) && e == ev && final(self)@ == s
                },
                Ok(CommandView::SetReg(reg, v)) => r matches Ok(Action::Done) && final(self)@
                    == redo(State { registers: old(self)@.registers.update(reg.0 as int, v), ..old(self)@ }),
                Ok(CommandView::DumpRegs) => r matches Ok(Action::PrintRegisters) && final(self)@
                    == redo(old(self)@),
                Ok(CommandView::DumpReg(reg)) => r matches Ok(Action::PrintRegister(g, v)) && g
                    == reg && v == old(self)@.registers[reg.0 as int] && final(self)@ == redo(
                    old(self)@,
                ),
                Ok(CommandView::LogFile(p)) => r matches Ok(Action::StartLog(q)) && q@ == p
                    && final(self)@ == redo(old(self)@),
                Ok(CommandView::NoLog) => r matches Ok(Action::StopLog) && final(self)@ == redo(
                    old(self)@,
                ),
                Ok(CommandView::SaveState(p)) => r matches Ok(Action::SaveState(q)) && q@ == p
                    && final(self)@ == old(self)@,
                Ok(CommandView::LoadState(p)) => r matches Ok(Action::LoadState(q)) && q@ == p
                    && final(self)@ == old(self)@,
            },
    {
        let command = parse_command(line)?;
        match command {
            Command::Input(bytes) => {
                let mut i: usize = 0;
                while i < bytes.len()
                    invariant
                        self.wf(),
                        i <= bytes@.len(),
                        self@ == (State {
                            stdin: old(self)@.stdin + bytes@.subrange(0, i as int),
                            ..old(self)@
                        }),
                    decreases bytes@.len() - i,
                {
                    self.stdin.push_back(bytes[i]);
                    i += 1;
                    assert(self.stdin@ =~= old(self)@.stdin + bytes@.subrange(0, i as int));
                }
                assert(bytes@.subrange(0, i as int) =~= bytes@);
                Ok(Action::Resumed(self.take_input(dst)))
            },
            Command::SetReg(register, value) => {
                self.registers[register.0] = value;
                self.redo_input();
                Ok(Action::Done)
            },
            Command::DumpRegs => {
                self.redo_input();
                Ok(Action::PrintRegisters)
            },
            Command::DumpReg(register) => {
                let value = self.registers[register.0];
                self.redo_input();
                Ok(Action::PrintRegister(register, value))
            },
            Command::LogFile(path) => {
                self.redo_input();
                Ok(Action::StartLog(path))
            },
            Command::NoLog => {
                self.redo_input();
                Ok(Action::StopLog)
            },
            Command::SaveState(path) => Ok(Action::SaveState(path)),
            Command::LoadState(path) => Ok(Action::LoadState(path)),
        }
    }

    /// The durable state, as plain values.
    pub fn snapshot(&self) -> (r: Snapshot)
        ensures
            r@ == self@,
    {
        let mut stdin: Vec<u8> = Vec::new();
        let mut i: usize = 0;
        while i < self.stdin.len()
            invariant
                i <= self.stdin@.len(),
                stdin@ == self.stdin@.subrange(0, i as int),
            decreases self.stdin@.len() - i,
        {
            stdin.push(self.stdin[i]);
            i += 1;
        }
        assert(stdin@ =~= self.stdin@);
        Snapshot {
            mem: copy_words(&self.mem),
            registers: copy_words(&self.registers),
            stack: copy_words(&self.stack),
            index: self.index,
            stdin,
        }
    }

    /// A machine with the state of a snapshot, if its memory and registers
    /// have their sizes.
    pub fn restore(snapshot: Snapshot) -> (r: Result<Machine, SnapshotError>)
        ensures
            r is Ok <==> restorable(snapshot@),
            r matches Ok(m) ==> m.wf() && m@ == snapshot@,
            r matches Err(e) ==> e == if snapshot@.mem.len() != 32768 {
                SnapshotError::MemorySize(snapshot.mem.len())
            } else {
                SnapshotError::RegisterCount(snapshot.registers.len())
            },
    {
        if snapshot.mem.len() != MEMORY_SIZE {
            return Err(SnapshotError::MemorySize(snapshot.mem.len()));
        }
        if snapshot.registers.len() != REGISTER_COUNT {
            return Err(SnapshotError::RegisterCount(snapshot.registers.len()));
        }
        let mut stdin: VecDeque<u8> = VecDeque::new();
        let mut i: usize = 0;
        while i < snapshot.stdin.len()
            invariant
                i <= snapshot.stdin@.len(),
                stdin@ == snapshot.stdin@.subrange(0, i as int),
            decreases snapshot.stdin@.len() - i,
        {
            stdin.push_back(snapshot.stdin[i]);
            i += 1;
        }
        assert(stdin@ =~= snapshot.stdin@);
        Ok(
            Machine {
                mem: snapshot.mem,
                registers: snapshot.registers,
                stack: snapshot.stack,
                index: snapshot.index,
                stdin,
            },
        )
    }
}

} // verus!
