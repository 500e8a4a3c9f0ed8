//! Operands: how a raw 16-bit cell is read as a literal, an address or a
//! register.
use vstd::prelude::*;

verus! {

/// Number of words of guest memory; also the modulus of guest arithmetic.
pub const MEMORY_SIZE: usize = 32768;

/// Number of general registers.
pub const REGISTER_COUNT: usize = 8;

/// The first raw cell that names a register (`r0`).
pub const REGISTER_BASE: u16 = 32768;

/// The last raw cell that names a register (`r7`).
pub const LAST_REGISTER: u16 = 32775;

/// A raw cell in the 15-bit value space.
pub open spec fn is_plain_cell(raw: u16) -> bool {
    raw < 32768
}

/// A raw cell that names one of the eight registers.
pub open spec fn is_register_cell(raw: u16) -> bool {
    32768 <= raw <= 32775
}

/// Why a raw cell could not be read as the operand asked for; each variant
/// carries the offending cell.
#[derive(Clone, Copy, Debug, PartialEq, Eq, Structural)]
pub enum OperandError {
    Register(u16),
    Value(u16),
    Literal(u16),
    Location(u16),
    Address(u16),
}

/// One of the eight general registers, by index.
#[derive(Clone, Copy, Debug, PartialEq, Eq, Structural)]
pub struct Register(pub usize);

impl Register {
    pub open spec fn wf(self) -> bool {
        self.0 < 8
    }

    /// Reads a raw cell that must name a register.
    pub fn new(raw: u16) -> (r: Result<Register, OperandError>)
        ensures
            r == spec_register(raw),
    {
        if REGISTER_BASE <= raw && raw <= LAST_REGISTER {
            Ok(Register((raw - REGISTER_BASE) as usize))
        } else {
            Err(OperandError::Register(raw))
        }
    }
}

pub open spec fn spec_register(raw: u16) -> Result<Register, OperandError> {
    if is_register_cell(raw) {
        Ok(Register((raw - 32768) as usize))
    } else {
        Err(OperandError::Register(raw))
    }
}

/// A value in the 15-bit space.
#[derive(Clone, Copy, Debug, PartialEq, Eq, Structural)]
pub struct Literal(pub u16);

impl Literal {
    pub open spec fn wf(self) -> bool {
        self.0 < 32768
    }

    /// Reads a raw cell that must be a 15-bit value.
    pub fn new(raw: u16) -> (r: Result<Literal, OperandError>)
        ensures
            r == spec_literal(raw),
    {
        if raw < REGISTER_BASE {
            Ok(Literal(raw))
        } else {
            Err(OperandError::Literal(raw))
        }
    }
}

pub open spec fn spec_literal(raw: u16) -> Result<Literal, OperandError> {
    if is_plain_cell(raw) {
        Ok(Literal(raw))
    } else {
        Err(OperandError::Literal(raw))
    }
}

/// An index into guest memory.
#[derive(Clone, Copy, Debug, PartialEq, Eq, Structural)]
pub struct Address(pub usize);

impl Address {
    pub open spec fn wf(self) -> bool {
        self.0 < 32768
    }

    /// Reads a raw cell that must be a memory index.
    pub fn new(raw: u16) -> (r: Result<Address, OperandError>)
        ensures
            r == spec_address(raw),
    {
        if raw < REGISTER_BASE {
            Ok(Address(raw as usize))
        } else {
            Err(OperandError::Address(raw))
        }
    }
}

pub open spec fn spec_address(raw: u16) -> Result<Address, OperandError> {
    if is_plain_cell(raw) {
        Ok(Address(raw as usize))
    } else {
        Err(OperandError::Address(raw))
    }
}

/// An operand that supplies a literal: given directly, or read from a
/// register when the instruction is decoded.
#[derive(Clone, Copy, Debug, PartialEq, Eq, Structural)]
pub enum Value {
    Literal(Literal),
    LiteralAtRegister(Register),
}

impl Value {
    pub open spec fn wf(self) -> bool {
        match self {
            Value::Literal(l) => l.wf(),
            Value::LiteralAtRegister(r) => r.wf(),
        }
    }

    /// Classifies a raw cell as a literal or a register reference.
    pub fn new(raw: u16) -> (r: Result<Value, OperandError>)
        ensures
            r == spec_value(raw),
    {
        if raw < REGISTER_BASE {
            Ok(Value::Literal(Literal(raw)))
        } else if raw <= LAST_REGISTER {
            Ok(Value::LiteralAtRegister(Register((raw - REGISTER_BASE) as usize)))
        } else {
            Err(OperandError::Value(raw))
        }
    }
}

pub open spec fn spec_value(raw: u16) -> Result<Value, OperandError> {
    if is_plain_cell(raw) {
        Ok(Value::Literal(Literal(raw)))
    } else if is_register_cell(raw) {
        Ok(Value::LiteralAtRegister(Register((raw - 32768) as usize)))
    } else {
        Err(OperandError::Value(raw))
    }
}

/// An operand that names a place: a memory address or a register.
#[derive(Clone, Copy, Debug, PartialEq, Eq, Structural)]
pub enum Location {
    Address(Address),
    Register(Register),
}

impl Location {
    pub open spec fn wf(self) -> bool {
        match self {
            Location::Address(a) => a.wf(),
            Location::Register(r) => r.wf(),
        }
    }

    /// Classifies a raw cell as an address or a register.
    pub fn new(raw: u16) -> (r: Result<Location, OperandError>)
        ensures
            r == spec_location(raw),
    {
        if raw < REGISTER_BASE {
            Ok(Location::Address(Address(raw as usize)))
        } else if raw <= LAST_REGISTER {
            Ok(Location::Register(Register((raw - REGISTER_BASE) as usize)))
        } else {
            Err(OperandError::Location(raw))
        }
    }
}

pub open spec fn spec_location(raw: u16) -> Result<Location, OperandError> {
    if is_plain_cell(raw) {
        Ok(Location::Address(Address(raw as usize)))
    } else if is_register_cell(raw) {
        Ok(Location::Register(Register((raw - 32768) as usize)))
    } else {
        Err(OperandError::Location(raw))
    }
}

/// Every raw cell falls in exactly one of three classes (plain, register,
/// invalid), and reading it as a value or as a location agrees on the class:
/// both give the same 15-bit number, both the same register, or both fail on
/// that cell. Whatever succeeds is well formed.
pub proof fn lemma_classification_total(raw: u16)
    ensures
        (is_plain_cell(raw) as int) + (is_register_cell(raw) as int) + ((raw > 32775) as int)
            == 1,
        is_plain_cell(raw) ==> spec_value(raw) == Ok::<Value, OperandError>(
            Value::Literal(Literal(raw)),
        ) && spec_location(raw) == Ok::<Location, OperandError>(
            Location::Address(Address(raw as usize)),
        ),
        is_register_cell(raw) ==> exists|r: Register|
            r.wf() && spec_value(raw) == Ok::<Value, OperandError>(Value::LiteralAtRegister(r))
                && spec_location(raw) == Ok::<Location, OperandError>(Location::Register(r)),
        raw > 32775 ==> spec_value(raw) == Err::<Value, OperandError>(OperandError::Value(raw))
            && spec_location(raw) == Err::<Location, OperandError>(
            OperandError::Location(raw),
        ),
        spec_value(raw) is Ok ==> spec_value(raw)->Ok_0.wf(),
        spec_location(raw) is Ok ==> spec_location(raw)->Ok_0.wf(),
{
    if is_register_cell(raw) {
        let r = Register((raw - 32768) as usize);
        assert(r.wf() && spec_value(raw) == Ok::<Value, OperandError>(Value::LiteralAtRegister(r))
            && spec_location(raw) == Ok::<Location, OperandError>(Location::Register(r)));
    }
}

} // verus!
