//! Laws of execution, stated over the semantics that `Machine::step`,
//! `Machine::execute`, `Machine::snapshot` and `Machine::restore` are proved
//! to follow.
use vstd::prelude::*;

use crate::machine::{
    decode_at, execute_spec, patch_fires, patched, restorable, step_spec, store, Event,
    Instruction, Machine, MachineError, Snapshot, State,
};
use crate::operand::{Address, Literal, Location};

verus! {

/// The word that a destination holds.
pub open spec fn load(s: State, loc: Location) -> u16 {
    match loc {
        Location::Address(a) => s.mem[a.0 as int],
        Location::Register(r) => s.registers[r.0 as int],
    }
}

/// The bytes written and the final state of at most `fuel` cycles, stopping
/// early when the program halts, faults or waits for input.
pub open spec fn run(s: State, fuel: nat) -> (State, Seq<u8>)
    decreases fuel,
{
    if fuel == 0 {
        (s, seq![])
    } else {
        match step_spec(s) {
            Ok((t, Event::Continue)) => run(t, (fuel - 1) as nat),
            Ok((t, Event::Output(b))) => {
                let rest = run(t, (fuel - 1) as nat);
                (rest.0, seq![b] + rest.1)
            },
            Ok((t, _)) => (t, seq![]),
            Err(_) => (patched(s), seq![]),
        }
    }
}

/// `add`, `mult` and `mod` (by a nonzero divisor) leave at their destination
/// the result reduced modulo 32768.
pub proof fn lemma_arithmetic(s: State, d: Location, a: Literal, b: Literal)
    requires
        s.wf(),
        d.wf(),
        a.wf(),
        b.wf(),
    ensures
        execute_spec(s, Instruction::Add(d, a, b)) matches Ok((t, ev)) && ev == Event::Continue
            && load(t, d) == (a.0 + b.0) % 32768,
        execute_spec(s, Instruction::Mult(d, a, b)) matches Ok((t, ev)) && ev == Event::Continue
            && load(t, d) == (a.0 * b.0) % 32768,
        b.0 > 0 ==> (execute_spec(s, Instruction::Mod(d, a, b)) matches Ok((t, ev)) && ev
            == Event::Continue && load(t, d) == a.0 % b.0),
{
    assert(0 <= (a.0 * b.0) % 32768 < 32768) by (nonlinear_arith)
        requires
            a.0 >= 0,
            b.0 >= 0,
    ;
}

/// `not` leaves at its destination the complement masked to 15 bits: bit 15
/// is clear.
pub proof fn lemma_not(s: State, d: Location, a: Literal)
    requires
        s.wf(),
        d.wf(),
        a.wf(),
    ensures
        execute_spec(s, Instruction::Not(d, a)) matches Ok((t, ev)) && ev == Event::Continue
            && load(t, d) == !a.0 & 0x7fff && load(t, d) & 0x8000 == 0 && load(t, d) < 32768,
{
    let x = a.0;
    assert((!x & 0x7fff) & 0x8000 == 0 && (!x & 0x7fff) < 32768) by (bit_vector);
}

/// Two machines in the same state, input queue included, write the same
/// bytes and end in the same state, for any number of cycles.
pub proof fn lemma_deterministic(s1: State, s2: State, fuel: nat)
    requires
        s1.mem == s2.mem,
        s1.registers == s2.registers,
        s1.stack == s2.stack,
        s1.index == s2.index,
        s1.stdin == s2.stdin,
    ensures
        run(s1, fuel) == run(s2, fuel),
{
    assert(s1 == s2);
}

/// A machine restored from its own snapshot is restorable, and it then writes
/// the same bytes and ends in the same state as the machine it was saved from, for any
/// number of cycles.
pub proof fn lemma_snapshot_round_trip(m: Machine, saved: Snapshot, restored: Machine, fuel: nat)
    requires
        m.wf(),
        saved@ == m@,
        restored@ == saved@,
    ensures
        restorable(saved@),
        run(restored@, fuel) == run(m@, fuel),
{
}

/// One cycle on `add`, `mult`, `mod` or `not` where the patch hook does not
/// fire: the program counter moves past the instruction (four cells, three
/// for `not`), the destination gets the reduced result, and nothing else
/// changes. `mod` by zero faults.
pub proof fn lemma_step_arithmetic(s: State, d: Location, a: Literal, b: Literal, next: int)
    requires
        s.wf(),
        !patch_fires(s),
    ensures
        decode_at(s.mem, s.registers, s.index) == Ok::<(Instruction, int), MachineError>(
            (Instruction::Add(d, a, b), next),
        ) ==> next == s.index + 4 && step_spec(s) == Ok::<(State, Event), MachineError>(
            (store(State { index: next, ..s }, d, ((a.0 + b.0) % 32768) as u16), Event::Continue),
        ),
        decode_at(s.mem, s.registers, s.index) == Ok::<(Instruction, int), MachineError>(
            (Instruction::Mult(d, a, b), next),
        ) ==> next == s.index + 4 && step_spec(s) == Ok::<(State, Event), MachineError>(
            (store(State { index: next, ..s }, d, ((a.0 * b.0) % 32768) as u16), Event::Continue),
        ),
        decode_at(s.mem, s.registers, s.index) == Ok::<(Instruction, int), MachineError>(
            (Instruction::Mod(d, a, b), next),
        ) ==> next == s.index + 4 && step_spec(s) == if b.0 == 0 {
            Err::<(State, Event), MachineError>(MachineError::DivisionByZero)
        } else {
            Ok((store(State { index: next, ..s }, d, (a.0 % b.0) as u16), Event::Continue))
        },
        decode_at(s.mem, s.registers, s.index) == Ok::<(Instruction, int), MachineError>(
            (Instruction::Not(d, a), next),
        ) ==> next == s.index + 3 && a.0 < 32768 && !a.0 & 0x7fff == 32767 - a.0 && step_spec(s)
            == Ok::<(State, Event), MachineError>(
            (store(State { index: next, ..s }, d, !a.0 & 0x7fff), Event::Continue),
        ),
{
    if decode_at(s.mem, s.registers, s.index) == Ok::<(Instruction, int), MachineError>(
        (Instruction::Not(d, a), next),
    ) {
        let x = a.0;
        assert(x < 32768 ==> !x & 0x7fff == 32767 - x) by (bit_vector);
    }
}

/// Neither pushes nor pops: leaves the stack alone.
pub open spec fn stack_neutral(i: Instruction) -> bool {
    !(i is Push || i is Pop || i is Call || i is Ret)
}

/// Executing decoded instructions one after another, until the first fault.
pub open spec fn execute_all(s: State, instrs: Seq<Instruction>) -> Result<State, MachineError>
    decreases instrs.len(),
{
    if instrs.len() == 0 {
        Ok(s)
    } else {
        match execute_all(s, instrs.drop_last()) {
            Ok(t) => match execute_spec(t, instrs.last()) {
                Ok((u, _)) => Ok(u),
                Err(e) => Err(e),
            },
            Err(e) => Err(e),
        }
    }
}

proof fn lemma_neutral_step(t: State, instr: Instruction)
    requires
        t.wf(),
        instr.wf(),
        stack_neutral(instr),
    ensures
        execute_spec(t, instr) matches Ok((u, _)) ==> u.wf() && u.stack == t.stack,
{
    match instr {
        Instruction::Eq(d, _, _) | Instruction::Gt(d, _, _) | Instruction::Add(d, _, _)
        | Instruction::Mult(d, _, _) | Instruction::Mod(d, _, _) | Instruction::And(d, _, _)
        | Instruction::Or(d, _, _) | Instruction::Not(d, _) | Instruction::Rmem(d, _)
        | Instruction::In(d) => {
            assert(d.wf());
        },
        _ => {},
    }
}

/// Stack-neutral instructions keep the stack and the machine's shape.
pub proof fn lemma_neutral_keeps_stack(s: State, instrs: Seq<Instruction>)
    requires
        s.wf(),
        forall|i: int| 0 <= i < instrs.len() ==> #[trigger] instrs[i].wf() && stack_neutral(instrs[i]),
    ensures
        execute_all(s, instrs) matches Ok(t) ==> t.wf() && t.stack == s.stack,
    decreases instrs.len(),
{
    if instrs.len() > 0 {
        lemma_neutral_keeps_stack(s, instrs.drop_last());
        assert(instrs.last() == instrs[instrs.len() - 1]);
        if let Ok(t) = execute_all(s, instrs.drop_last()) {
            lemma_neutral_step(t, instrs.last());
        }
    }
}

/// `push v`, then any stack-neutral instructions, then `pop dst`: `dst` holds
/// `v` and the stack is as before the `push`.
pub proof fn lemma_push_then_pop(s: State, v: Literal, between: Seq<Instruction>, d: Location, u: State)
    requires
        s.wf(),
        v.wf(),
        d.wf(),
        forall|i: int| 0 <= i < between.len() ==> #[trigger] between[i].wf() && stack_neutral(between[i]),
        execute_all(State { stack: s.stack.push(v.0), ..s }, between) == Ok::<State, MachineError>(u),
    ensures
        execute_spec(s, Instruction::Push(v)) == Ok::<(State, Event), MachineError>(
            (State { stack: s.stack.push(v.0), ..s }, Event::Continue),
        ),
        execute_spec(u, Instruction::Pop(d)) matches Ok((w, ev)) && ev == Event::Continue && load(w, d)
            == v.0 && w.stack == s.stack,
{
    let t = State { stack: s.stack.push(v.0), ..s };
    lemma_neutral_keeps_stack(t, between);
    assert(u.stack.drop_last() =~= s.stack);
}

/// `call tgt` (executed with the program counter just past it), then any
/// stack-neutral instructions, jumps included, then `ret`: the program
/// counter is back just past the `call` and the stack is as before.
pub proof fn lemma_call_then_ret(s: State, tgt: Address, between: Seq<Instruction>, u: State)
    requires
        s.wf(),
        tgt.wf(),
        s.index < 65536,
        forall|i: int| 0 <= i < between.len() ==> #[trigger] between[i].wf() && stack_neutral(between[i]),
        execute_all(
            State { stack: s.stack.push(s.index as u16), index: tgt.0 as int, ..s },
            between,
        ) == Ok::<State, MachineError>(u),
    ensures
        execute_spec(s, Instruction::Call(tgt)) == Ok::<(State, Event), MachineError>(
            (State { stack: s.stack.push(s.index as u16), index: tgt.0 as int, ..s }, Event::Continue),
        ),
        execute_spec(u, Instruction::Ret) matches Ok((w, ev)) && ev == Event::Continue && w.index
            == s.index && w.stack == s.stack,
{
    let t = State { stack: s.stack.push(s.index as u16), index: tgt.0 as int, ..s };
    lemma_neutral_keeps_stack(t, between);
    assert(u.stack.drop_last() =~= s.stack);
}

} // verus!
