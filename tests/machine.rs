use synacor::machine::{Action, Event, Instruction, Machine, MachineError, Snapshot, SnapshotError};
use synacor::operand::{Address, Literal, Location, OperandError, Register};

fn image(words: &[u16]) -> Vec<u8> {
    let mut bytes = Vec::new();
    for w in words {
        bytes.push((*w & 0xff) as u8);
        bytes.push((*w >> 8) as u8);
    }
    bytes
}

fn load(words: &[u16]) -> Machine {
    Machine::new(&image(words)).unwrap()
}

fn run(m: &mut Machine) -> Result<Vec<u8>, MachineError> {
    let mut out = Vec::new();
    loop {
        match m.step()? {
            Event::Continue => {}
            Event::Output(b) => out.push(b),
            Event::Halted => return Ok(out),
            Event::NeedInput(_) => panic!("unexpected input request"),
        }
    }
}

#[test]
fn add_then_out_emits_sum() {
    let mut m = load(&[9, 32768, 32769, 4, 19, 32768, 0]);
    assert_eq!(run(&mut m).unwrap(), vec![4]);
    assert_eq!(m.registers[0], 4);
}

#[test]
fn not_masks_to_fifteen_bits() {
    let mut m = load(&[1, 32768, 32767, 14, 32769, 32768, 19, 32769, 0]);
    assert_eq!(run(&mut m).unwrap(), vec![0]);
    assert_eq!(m.registers[0], 32767);
    assert_eq!(m.registers[1], 0);
}

#[test]
fn not_of_zero_clears_bit_fifteen() {
    let mut m = load(&[14, 32768, 0, 0]);
    run(&mut m).unwrap();
    assert_eq!(m.registers[0], 0x7fff);
}

#[test]
fn mult_reduces_and_out_truncates() {
    let mut m = load(&[10, 32768, 200, 200, 19, 32768, 0]);
    assert_eq!(run(&mut m).unwrap(), vec![64]);
    assert_eq!(m.registers[0], 7232);
}

#[test]
fn push_pop_then_out() {
    let mut m = load(&[2, 65, 3, 32768, 19, 32768, 0]);
    assert_eq!(run(&mut m).unwrap(), b"A".to_vec());
    assert!(m.stack.is_empty());
}

#[test]
fn call_then_out() {
    let mut m = load(&[17, 6, 0, 0, 0, 0, 19, 66, 0]);
    assert_eq!(run(&mut m).unwrap(), b"B".to_vec());
    assert_eq!(m.stack, vec![2]);
}

#[test]
fn call_as_listed_lands_on_halt() {
    let mut m = load(&[17, 6, 0, 0, 0, 0, 0, 19, 66, 0]);
    assert_eq!(run(&mut m).unwrap(), Vec::<u8>::new());
}

#[test]
fn call_and_ret_come_back() {
    let mut m = load(&[17, 6, 19, 67, 0, 0, 19, 66, 18]);
    assert_eq!(run(&mut m).unwrap(), b"BC".to_vec());
    assert!(m.stack.is_empty());
}

#[test]
fn ret_on_empty_stack_halts() {
    let mut m = load(&[18]);
    assert_eq!(m.step(), Ok(Event::Halted));
}

#[test]
fn add_wraps_modulo() {
    let mut m = load(&[9, 32768, 32767, 5, 0]);
    run(&mut m).unwrap();
    assert_eq!(m.registers[0], 4);
}

#[test]
fn mod_and_bitwise_results() {
    let mut m = load(&[11, 32768, 17, 5, 12, 32769, 12, 10, 13, 32770, 12, 3, 0]);
    run(&mut m).unwrap();
    assert_eq!(m.registers[0], 2);
    assert_eq!(m.registers[1], 8);
    assert_eq!(m.registers[2], 15);
}

#[test]
fn eq_gt_and_jumps() {
    // eq r0 3 3; gt r1 2 5; jt r0 13; out 'X'; jf r1 18; out 'Y'; out 'Z'; halt
    let mut m = load(&[4, 32768, 3, 3, 5, 32769, 2, 5, 7, 32768, 13, 19, 88, 8, 32769, 18, 19, 89, 19, 90, 0]);
    let mut out = Vec::new();
    for _ in 0..10 {
        match m.step().unwrap() {
            Event::Output(b) => out.push(b),
            Event::Halted => break,
            _ => {}
        }
    }
    assert_eq!(m.registers[0], 1);
    assert_eq!(m.registers[1], 0);
    assert_eq!(out, b"Z".to_vec());
}

#[test]
fn jmp_through_register() {
    let mut m = load(&[1, 32768, 5, 6, 32768, 19, 65, 0]);
    assert_eq!(run(&mut m).unwrap(), b"A".to_vec());
}

#[test]
fn rmem_and_wmem() {
    // wmem 100 42; rmem r0 100; halt
    let mut m = load(&[16, 100, 42, 15, 32768, 100, 0]);
    run(&mut m).unwrap();
    assert_eq!(m.mem[100], 42);
    assert_eq!(m.registers[0], 42);
}

#[test]
fn noop_advances() {
    let mut m = load(&[21, 0]);
    assert_eq!(m.step(), Ok(Event::Continue));
    assert_eq!(m.index, 1);
}

#[test]
fn pop_on_empty_stack_fails() {
    let mut m = load(&[3, 32768]);
    assert_eq!(m.step(), Err(MachineError::StackUnderflow));
    assert_eq!(m.index, 0);
    assert!(m.stack.is_empty());
    assert_eq!(m.registers, vec![0; 8]);
}

#[test]
fn mod_by_zero_fails() {
    let mut m = load(&[11, 32768, 5, 0]);
    m.registers[0] = 9;
    assert_eq!(m.step(), Err(MachineError::DivisionByZero));
    assert_eq!(m.registers[0], 9);
    assert_eq!(m.index, 0);
}

#[test]
fn bad_opcode_is_reported() {
    let mut m = load(&[22]);
    assert_eq!(m.step(), Err(MachineError::Opcode(0, 22)));
}

#[test]
fn bad_operand_is_reported() {
    let mut m = load(&[21, 19, 32776]);
    m.step().unwrap();
    assert_eq!(m.step(), Err(MachineError::Operand(1, OperandError::Value(32776))));
    assert_eq!(m.index, 1);
}

#[test]
fn register_holding_no_literal_is_reported() {
    // rmem r0 6 loads 40000 into r0; out r0 then fails
    let mut m = load(&[15, 32768, 6, 19, 32768, 0, 40000]);
    m.step().unwrap();
    assert_eq!(m.registers[0], 40000);
    assert_eq!(m.step(), Err(MachineError::Operand(3, OperandError::Literal(40000))));
}

#[test]
fn jump_through_bad_register_is_reported() {
    let mut m = load(&[15, 32768, 5, 6, 32768, 40000]);
    m.step().unwrap();
    assert_eq!(m.step(), Err(MachineError::Operand(3, OperandError::Address(40000))));
}

#[test]
fn set_needs_a_register() {
    let mut m = load(&[1, 5, 5]);
    assert_eq!(m.step(), Err(MachineError::Operand(0, OperandError::Register(5))));
}

#[test]
fn running_off_memory_is_reported() {
    let mut m = load(&[6, 32767]);
    m.step().unwrap();
    m.mem[32767] = 21;
    assert_eq!(m.step(), Ok(Event::Continue));
    assert_eq!(m.step(), Err(MachineError::ProgramCounterOutOfRange(32768)));
}

#[test]
fn image_loads_little_endian() {
    let m = Machine::new(&[0x34, 0x12, 0xff, 0x00, 0x07]).unwrap();
    assert_eq!(m.mem.len(), 32768);
    assert_eq!(m.mem[0], 0x1234);
    assert_eq!(m.mem[1], 0x00ff);
    assert_eq!(m.mem[2], 0);
    assert_eq!(m.registers, vec![0; 8]);
    assert_eq!(m.index, 0);
}

#[test]
fn image_too_large_is_refused() {
    let bytes = vec![0u8; 65538];
    assert_eq!(Machine::new(&bytes).err(), Some(MachineError::ImageTooLarge(65538)));
    assert!(Machine::new(&vec![0u8; 65536]).is_ok());
}

#[test]
fn decode_resolves_operands() {
    let mut m = load(&[9, 32770, 32769, 7]);
    m.registers[1] = 5;
    let instr = m.decode().unwrap();
    assert_eq!(
        instr,
        Instruction::Add(Location::Register(Register(2)), Literal(5), Literal(7))
    );
    assert_eq!(m.index, 4);
}

#[test]
fn decode_resolves_targets() {
    let mut m = load(&[7, 1, 32771]);
    m.registers[3] = 300;
    assert_eq!(m.decode().unwrap(), Instruction::Jt(Literal(1), Address(300)));
}

#[test]
fn patch_hook_fires_at_self_check() {
    let mut m = load(&[]);
    m.index = 0x178b;
    m.registers[7] = 1;
    m.mem[0x178b] = 17;
    m.stack.push(0x1000);
    assert_eq!(m.step(), Ok(Event::Continue));
    assert_eq!(m.mem[0x178b], 18);
    assert_eq!(m.registers[0], 6);
    assert_eq!(m.registers[7], 0x6486);
    assert_eq!(m.index, 0x1000);
}

#[test]
fn patch_hook_stays_quiet_otherwise() {
    let mut m = load(&[]);
    m.index = 0x178b;
    m.registers[7] = 2;
    m.mem[0x178b] = 21;
    assert_eq!(m.step(), Ok(Event::Continue));
    assert_eq!(m.mem[0x178b], 21);
    assert_eq!(m.registers[7], 2);
}

#[test]
fn in_reads_queued_bytes() {
    let mut m = load(&[20, 32768, 20, 32769, 0]);
    assert_eq!(m.step(), Ok(Event::NeedInput(Location::Register(Register(0)))));
    let action = m.accept_line(Location::Register(Register(0)), "hi\r\n").unwrap();
    assert!(matches!(action, Action::Resumed(Event::Continue)));
    assert_eq!(m.registers[0], b'h' as u16);
    assert_eq!(m.step(), Ok(Event::Continue));
    assert_eq!(m.registers[1], b'i' as u16);
    assert_eq!(m.stdin.iter().copied().collect::<Vec<u8>>(), vec![b'\n']);
}

#[test]
fn carriage_return_only_line_asks_again() {
    let mut m = load(&[20, 32768, 0]);
    assert!(matches!(m.step(), Ok(Event::NeedInput(_))));
    let action = m.accept_line(Location::Register(Register(0)), "\r").unwrap();
    assert!(matches!(action, Action::Resumed(Event::NeedInput(_))));
}

#[test]
fn operator_command_rewinds_input() {
    let mut m = load(&[20, 32768, 0]);
    assert!(matches!(m.step(), Ok(Event::NeedInput(_))));
    let action = m.accept_line(Location::Register(Register(0)), "setreg 7 25734\n").unwrap();
    assert!(matches!(action, Action::Done));
    assert_eq!(m.registers[7], 25734);
    assert_eq!(m.index, 0);
    assert_eq!(m.stdin.iter().copied().collect::<Vec<u8>>(), b"look\n".to_vec());
    assert_eq!(m.step(), Ok(Event::Continue));
    assert_eq!(m.registers[0], b'l' as u16);
}

#[test]
fn dumpreg_reports_contents() {
    let mut m = load(&[20, 32768, 0]);
    m.registers[3] = 0x42;
    m.step().unwrap();
    match m.accept_line(Location::Register(Register(0)), "dumpreg 3\n").unwrap() {
        Action::PrintRegister(r, v) => {
            assert_eq!(r, Register(3));
            assert_eq!(v, 0x42);
        }
        other => panic!("unexpected {other:?}"),
    }
    assert_eq!(m.index, 0);
}

#[test]
fn savestate_leaves_machine_alone() {
    let mut m = load(&[20, 32768, 0]);
    m.step().unwrap();
    match m.accept_line(Location::Register(Register(0)), "savestate  snap.json \n").unwrap() {
        Action::SaveState(p) => assert_eq!(p.iter().collect::<String>(), "snap.json"),
        other => panic!("unexpected {other:?}"),
    }
    assert_eq!(m.index, 2);
    assert!(m.stdin.is_empty());
}

#[test]
fn malformed_command_changes_nothing() {
    let mut m = load(&[20, 32768, 0]);
    m.step().unwrap();
    let r = m.accept_line(Location::Register(Register(0)), "setreg 9 1\n");
    assert_eq!(r.err(), Some(synacor::commands::CommandError::BadRegister));
    assert_eq!(m.index, 2);
    assert!(m.stdin.is_empty());
}

#[test]
fn snapshot_round_trip_behaves_the_same() {
    let mut m = load(&[2, 65, 3, 32768, 19, 32768, 10, 32768, 32768, 32768, 19, 32768, 0]);
    m.step().unwrap();
    let mut restored = Machine::restore(m.snapshot()).unwrap();
    assert_eq!(restored.mem, m.mem);
    assert_eq!(restored.stack, m.stack);
    assert_eq!(restored.index, m.index);
    assert_eq!(run(&mut restored).unwrap(), run(&mut m).unwrap());
}

#[test]
fn restore_checks_sizes() {
    let bad = Snapshot { mem: vec![0; 10], registers: vec![0; 8], stack: vec![], index: 0, stdin: vec![] };
    assert_eq!(Machine::restore(bad).err(), Some(SnapshotError::MemorySize(10)));
    let bad = Snapshot { mem: vec![0; 32768], registers: vec![0; 7], stack: vec![], index: 0, stdin: vec![] };
    assert_eq!(Machine::restore(bad).err(), Some(SnapshotError::RegisterCount(7)));
}

#[test]
fn identical_machines_run_identically() {
    let program = [20, 32768, 19, 32768, 9, 32769, 32769, 1, 7, 32768, 0, 0];
    let mut a = load(&program);
    let mut b = load(&program);
    for m in [&mut a, &mut b] {
        m.stdin.extend(b"xyz".iter().copied());
    }
    let mut out_a = Vec::new();
    let mut out_b = Vec::new();
    for _ in 0..40 {
        let ea = a.step();
        let eb = b.step();
        assert_eq!(ea, eb);
        if let Ok(Event::Output(x)) = ea {
            out_a.push(x);
        }
        if let Ok(Event::Output(x)) = eb {
            out_b.push(x);
        }
        if !matches!(ea, Ok(Event::Continue) | Ok(Event::Output(_))) {
            break;
        }
    }
    assert_eq!(out_a, out_b);
    assert_eq!(out_a, b"xyz".to_vec());
    assert_eq!(a.registers, b.registers);
}

#[test]
fn guest_input_is_queued_as_utf8() {
    let mut m = load(&[20, 32768, 0]);
    assert!(matches!(m.step(), Ok(Event::NeedInput(_))));
    let action = m.accept_line(Location::Register(Register(0)), "\u{e9}\n").unwrap();
    assert!(matches!(action, Action::Resumed(Event::Continue)));
    assert_eq!(m.registers[0], 0xc3);
    assert_eq!(m.stdin.iter().copied().collect::<Vec<u8>>(), vec![0xa9, b'\n']);
}
