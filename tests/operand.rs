use synacor::operand::{Address, Literal, Location, OperandError, Register, Value};

#[test]
fn classification_covers_every_cell() {
    for raw in 0..=u16::MAX {
        let v = Value::new(raw);
        let l = Location::new(raw);
        match raw {
            0..=32767 => {
                assert_eq!(v, Ok(Value::Literal(Literal(raw))));
                assert_eq!(l, Ok(Location::Address(Address(raw as usize))));
            }
            32768..=32775 => {
                let r = Register(raw as usize - 32768);
                assert_eq!(v, Ok(Value::LiteralAtRegister(r)));
                assert_eq!(l, Ok(Location::Register(r)));
            }
            _ => {
                assert_eq!(v, Err(OperandError::Value(raw)));
                assert_eq!(l, Err(OperandError::Location(raw)));
            }
        }
    }
}

#[test]
fn constructors_check_ranges() {
    assert_eq!(Register::new(32775), Ok(Register(7)));
    assert_eq!(Register::new(32776), Err(OperandError::Register(32776)));
    assert_eq!(Register::new(7), Err(OperandError::Register(7)));
    assert_eq!(Literal::new(32767), Ok(Literal(32767)));
    assert_eq!(Literal::new(32768), Err(OperandError::Literal(32768)));
    assert_eq!(Address::new(0), Ok(Address(0)));
    assert_eq!(Address::new(40000), Err(OperandError::Address(40000)));
}
