use synacor::disasm::disassemble;

fn line(words: &[u16], at: usize) -> Option<String> {
    let mut mem = vec![0u16; 32768];
    mem[..words.len()].copy_from_slice(words);
    disassemble(&mem, at).map(|v| v.iter().collect())
}

#[test]
fn traces_binary_instruction() {
    assert_eq!(line(&[9, 32768, 32769, 4], 0).unwrap(), "0x0000    add  r0 r1 0x4");
}

#[test]
fn traces_address_padding() {
    assert_eq!(line(&[21, 6, 5], 1).unwrap(), "0x0001    jmp  0x05");
    assert_eq!(line(&[17, 0x1234], 0).unwrap(), "0x0000    call 0x1234");
}

#[test]
fn traces_bare_mnemonics() {
    assert_eq!(line(&[0], 0).unwrap(), "0x0000    halt");
    assert_eq!(line(&[18], 0).unwrap(), "0x0000    ret ");
    assert_eq!(line(&[21], 0).unwrap(), "0x0000    noop");
}

#[test]
fn traces_set_and_out() {
    assert_eq!(line(&[1, 32775, 0x7fff], 0).unwrap(), "0x0000    set  r7 0x7fff");
    assert_eq!(line(&[19, 65], 0).unwrap(), "0x0000    out  0x41");
}

#[test]
fn traces_large_address() {
    let mut mem = vec![0u16; 32768];
    mem[0x178b] = 18;
    let text: String = disassemble(&mem, 0x178b).unwrap().iter().collect();
    assert_eq!(text, "0x178b    ret ");
}

#[test]
fn refuses_non_instructions() {
    assert!(line(&[22], 0).is_none());
    assert!(line(&[1, 5, 5], 0).is_none());
    assert!(line(&[19, 40000], 0).is_none());
}
