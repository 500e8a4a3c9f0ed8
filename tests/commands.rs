use synacor::commands::{parse_command, Command, CommandError};
use synacor::operand::Register;

fn text(v: &[char]) -> String {
    v.iter().collect()
}

#[test]
fn guest_line_drops_carriage_returns() {
    match parse_command("go north\r\n").unwrap() {
        Command::Input(bytes) => assert_eq!(bytes, b"go north\n".to_vec()),
        other => panic!("unexpected {other:?}"),
    }
}

#[test]
fn guest_line_keeps_utf8_bytes() {
    match parse_command("\u{e9}\n").unwrap() {
        Command::Input(bytes) => assert_eq!(bytes, vec![0xc3, 0xa9, b'\n']),
        other => panic!("unexpected {other:?}"),
    }
    match parse_command("\u{20ac}\r\n").unwrap() {
        Command::Input(bytes) => assert_eq!(bytes, vec![0xe2, 0x82, 0xac, b'\n']),
        other => panic!("unexpected {other:?}"),
    }
}

#[test]
fn savestate_takes_trimmed_path() {
    match parse_command("savestate /tmp/a b.json\n").unwrap() {
        Command::SaveState(p) => assert_eq!(text(&p), "/tmp/a b.json"),
        other => panic!("unexpected {other:?}"),
    }
}

#[test]
fn loadstate_and_logfile_take_paths() {
    match parse_command("loadstate s.json\n").unwrap() {
        Command::LoadState(p) => assert_eq!(text(&p), "s.json"),
        other => panic!("unexpected {other:?}"),
    }
    match parse_command("logfile\ttrace.txt\n").unwrap_err() {
        CommandError::MissingPath => {}
        other => panic!("unexpected {other:?}"),
    }
    match parse_command("logfile trace.txt\n").unwrap() {
        Command::LogFile(p) => assert_eq!(text(&p), "trace.txt"),
        other => panic!("unexpected {other:?}"),
    }
}

#[test]
fn missing_path_is_an_error() {
    assert_eq!(parse_command("savestate\n").unwrap_err(), CommandError::MissingPath);
}

#[test]
fn dumpregs_before_dumpreg() {
    assert!(matches!(parse_command("dumpregs\n").unwrap(), Command::DumpRegs));
    assert!(matches!(parse_command("dumpreg 7\n").unwrap(), Command::DumpReg(Register(7))));
    assert!(matches!(parse_command("dumpreg +2\n").unwrap(), Command::DumpReg(Register(2))));
}

#[test]
fn dumpreg_errors() {
    assert_eq!(parse_command("dumpreg\n").unwrap_err(), CommandError::MissingRegister);
    assert_eq!(parse_command("dumpreg 8\n").unwrap_err(), CommandError::BadRegister);
    assert_eq!(parse_command("dumpreg x\n").unwrap_err(), CommandError::BadRegister);
    assert_eq!(parse_command("dumpreg 99999999999999999999999\n").unwrap_err(), CommandError::BadRegister);
}

#[test]
fn setreg_reads_register_and_value() {
    assert!(matches!(parse_command("  setreg 7 25734\n").unwrap(), Command::Input(_)));
    assert!(matches!(parse_command("setreg 7 25734  \n").unwrap(), Command::SetReg(Register(7), 25734)));
    assert!(matches!(parse_command("setreg 7 25734\n").unwrap(), Command::SetReg(Register(7), 25734)));
    assert!(matches!(parse_command("setreg 0 65535\n").unwrap(), Command::SetReg(Register(0), 65535)));
}

#[test]
fn setreg_errors() {
    assert_eq!(parse_command("setreg\n").unwrap_err(), CommandError::MissingRegister);
    assert_eq!(parse_command("setreg 3\n").unwrap_err(), CommandError::MissingValue);
    assert_eq!(parse_command("setreg 3 65536\n").unwrap_err(), CommandError::BadValue);
    assert_eq!(parse_command("setreg 3  5\n").unwrap_err(), CommandError::BadValue);
    assert_eq!(parse_command("setreg 3 -1\n").unwrap_err(), CommandError::BadValue);
    assert_eq!(parse_command("setreg  3 5\n").unwrap_err(), CommandError::BadRegister);
}

#[test]
fn nolog_is_recognised() {
    assert!(matches!(parse_command("nolog\n").unwrap(), Command::NoLog));
}
