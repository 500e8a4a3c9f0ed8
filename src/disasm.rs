//! The disassembler behind the trace: one line of text per instruction,
//! written from the raw cells in memory.
use vstd::prelude::*;

use crate::operand::{is_plain_cell, is_register_cell};

verus! {

/// How an operand cell is shown.
#[derive(Clone, Copy, Debug, PartialEq, Eq, Structural)]
pub enum Shape {
    /// Must name a register: `r0` to `r7`.
    Register,
    /// A literal (`0x` and its hex digits) or a register.
    Value,
    /// An address (`0x` and at least two hex digits) or a register.
    Location,
}

/// The operand shapes of each opcode, left to right; jump targets are shown
/// as locations.
pub open spec fn shapes(opcode: u16) -> Seq<Shape> {
    if opcode == 1 {
        seq![Shape::Register, Shape::Value]
    } else if opcode == 2 || opcode == 19 {
        seq![Shape::Value]
    } else if opcode == 3 || opcode == 6 || opcode == 17 || opcode == 20 {
        seq![Shape::Location]
    } else if opcode == 4 || opcode == 5 || (9 <= opcode <= 13) {
        seq![Shape::Location, Shape::Value, Shape::Value]
    } else if opcode == 7 || opcode == 8 {
        seq![Shape::Value, Shape::Location]
    } else if opcode == 14 {
        seq![Shape::Location, Shape::Value]
    } else if opcode == 15 || opcode == 16 {
        seq![Shape::Location, Shape::Location]
    } else {
        seq![]
    }
}

/// The text in front of the operands: the mnemonic, padded to four
/// characters and a space where operands follow.
pub open spec fn head(opcode: u16) -> Seq<char> {
    if opcode == 0 {
        "halt"@
    } else if opcode == 1 {
        "set  "@
    } else if opcode == 2 {
        "push "@
    } else if opcode == 3 {
        "pop  "@
    } else if opcode == 4 {
        "eq   "@
    } else if opcode == 5 {
        "gt   "@
    } else if opcode == 6 {
        "jmp  "@
    } else if opcode == 7 {
        "jt   "@
    } else if opcode == 8 {
        "jf   "@
    } else if opcode == 9 {
        "add  "@
    } else if opcode == 10 {
        "mult "@
    } else if opcode == 11 {
        "mod  "@
    } else if opcode == 12 {
        "and  "@
    } else if opcode == 13 {
        "or   "@
    } else if opcode == 14 {
        "not  "@
    } else if opcode == 15 {
        "rmem "@
    } else if opcode == 16 {
        "wmem "@
    } else if opcode == 17 {
        "call "@
    } else if opcode == 18 {
        "ret "@
    } else if opcode == 19 {
        "out  "@
    } else if opcode == 20 {
        "in   "@
    } else {
        "noop"@
    }
}

pub open spec fn hex_char(d: nat) -> char {
    if d < 10 {
        (48 + d) as char
    } else {
        (87 + d) as char
    }
}

/// The lowercase hex digits of `n`, without leading zeros.
pub open spec fn hex_digits(n: nat) -> Seq<char>
    decreases n,
{
    if n < 16 {
        seq![hex_char(n)]
    } else {
        hex_digits(n / 16).push(hex_char(n % 16))
    }
}

/// `0x` and the hex digits of `n`, zero-padded to at least `width` digits.
pub open spec fn hex(n: nat, width: nat) -> Seq<char> {
    let d = hex_digits(n);
    let pad: nat = if width > d.len() {
        (width - d.len()) as nat
    } else {
        0
    };
    "0x"@ + Seq::new(pad, |i: int| '0') + d
}

/// How a raw operand cell of the given shape is shown, if it can be read as
/// that shape.
pub open spec fn operand_text(shape: Shape, raw: u16) -> Option<Seq<char>> {
    if is_register_cell(raw) {
        Some(seq!['r', hex_char((raw - 32768) as nat)])
    } else if is_plain_cell(raw) {
        match shape {
            Shape::Register => None,
            Shape::Value => Some(hex(raw as nat, 0)),
            Shape::Location => Some(hex(raw as nat, 2)),
        }
    } else {
        None
    }
}

/// The operands from cell `at + 1 + k` on, shown and each preceded by a space
/// but the first.
pub open spec fn operands_text(mem: Seq<u16>, at: int, shapes: Seq<Shape>, k: int) -> Option<
    Seq<char>,
>
    decreases shapes.len() - k,
{
    if k >= shapes.len() || k < 0 {
        Some(seq![])
    } else if at + 1 + k >= mem.len() {
        None
    } else {
        match (operand_text(shapes[k], mem[at + 1 + k]), operands_text(mem, at, shapes, k + 1)) {
            (Some(t), Some(rest)) => Some(
                if k == 0 {
                    t + rest
                } else {
                    seq![' '] + t + rest
                },
            ),
            _ => None,
        }
    }
}

/// The trace line of the instruction at `at`: its address (`0x` and at
/// least four hex digits), four spaces, the mnemonic and the operands as
/// written in memory. None where the cells are no instruction.
pub open spec fn trace_line(mem: Seq<u16>, at: int) -> Option<Seq<char>> {
    if 0 <= at < mem.len() && mem[at] <= 21 {
        match operands_text(mem, at, shapes(mem[at]), 0) {
            Some(ops) => Some(hex(at as nat, 4) + "    "@ + head(mem[at]) + ops),
            None => None,
        }
    } else {
        None
    }
}

fn push_str(out: &mut Vec<char>, s: &str)
    ensures
        final(out)@ == old(out)@ + s@,
{
    let n = s.unicode_len();
    let mut i: usize = 0;
    while i < n
        invariant
            n == s@.len(),
            i <= n,
            out@ == old(out)@ + s@.subrange(0, i as int),
        decreases n - i,
    {
        out.push(s.get_char(i));
        i += 1;
        assert(out@ =~= old(out)@ + s@.subrange(0, i as int));
    }
    assert(s@.subrange(0, n as int) =~= s@);
}

fn digit(d: u64) -> (r: char)
    requires
        d < 16,
    ensures
        r == hex_char(d as nat),
{
    if d < 10 {
        ((48 + d) as u8) as char
    } else {
        ((87 + d) as u8) as char
    }
}

fn push_digits(out: &mut Vec<char>, n: u64)
    ensures
        final(out)@ == old(out)@ + hex_digits(n as nat),
    decreases n,
{
    if n >= 16 {
        push_digits(out, n / 16);
    }
    out.push(digit(n % 16));
    assert(out@ =~= old(out)@ + hex_digits(n as nat));
}

fn digit_count(n: u64) -> (r: usize)
    requires
        n < 65536,
    ensures
        r == hex_digits(n as nat).len(),
        n < 16 ==> r <= 1,
        n < 256 ==> r <= 2,
        n < 4096 ==> r <= 3,
        r <= 4,
    decreases n,
{
    if n < 16 {
        1
    } else {
        digit_count(n / 16) + 1
    }
}

fn push_hex(out: &mut Vec<char>, n: u64, width: usize)
    requires
        n < 65536,
    ensures
        final(out)@ == old(out)@ + hex(n as nat, width as nat),
{
    push_str(out, "0x");
    let len = digit_count(n);
    let mut i: usize = len;
    let ghost mid = out@;
    while i < width
        invariant
            len <= i,
            i <= width || i == len,
            out@ == mid + Seq::new((i - len) as nat, |j: int| '0'),
        decreases width - i,
    {
        out.push('0');
        i += 1;
        assert(out@ =~= mid + Seq::new((i - len) as nat, |j: int| '0'));
    }
    push_digits(out, n);
    assert(out@ =~= old(out)@ + hex(n as nat, width as nat));
}

fn push_operand(out: &mut Vec<char>, shape: Shape, raw: u16) -> (ok: bool)
    ensures
        match operand_text(shape, raw) {
            Some(t) => ok && final(out)@ == old(out)@ + t,
            None => !ok,
        },
{
    if 32768 <= raw && raw <= 32775 {
        out.push('r');
        out.push(digit((raw - 32768) as u64));
        assert(out@ =~= old(out)@ + seq!['r', hex_char((raw - 32768) as nat)]);
        true
    } else if raw < 32768 {
        match shape {
            Shape::Register => false,
            Shape::Value => {
                push_hex(out, raw as u64, 0);
                true
            },
            Shape::Location => {
                push_hex(out, raw as u64, 2);
                true
            },
        }
    } else {
        false
    }
}

fn shapes_of(opcode: u16) -> (r: Vec<Shape>)
    ensures
        r@ == shapes(opcode),
{
    let r = if opcode == 1 {
        vec![Shape::Register, Shape::Value]
    } else if opcode == 2 || opcode == 19 {
        vec![Shape::Value]
    } else if opcode == 3 || opcode == 6 || opcode == 17 || opcode == 20 {
        vec![Shape::Location]
    } else if opcode == 4 || opcode == 5 || (9 <= opcode && opcode <= 13) {
        vec![Shape::Location, Shape::Value, Shape::Value]
    } else if opcode == 7 || opcode == 8 {
        vec![Shape::Value, Shape::Location]
    } else if opcode == 14 {
        vec![Shape::Location, Shape::Value]
    } else if opcode == 15 || opcode == 16 {
        vec![Shape::Location, Shape::Location]
    } else {
        vec![]
    };
    assert(r@ =~= shapes(opcode));
    r
}

fn head_of(opcode: u16) -> (r: &'static str)
    ensures
        r@ == head(opcode),
{
    match opcode {
        0 => "halt",
        1 => "set  ",
        2 => "push ",
        3 => "pop  ",
        4 => "eq   ",
        5 => "gt   ",
        6 => "jmp  ",
        7 => "jt   ",
        8 => "jf   ",
        9 => "add  ",
        10 => "mult ",
        11 => "mod  ",
        12 => "and  ",
        13 => "or   ",
        14 => "not  ",
        15 => "rmem ",
        16 => "wmem ",
        17 => "call ",
        18 => "ret ",
        19 => "out  ",
        20 => "in   ",
        _ => "noop",
    }
}

fn push_operands(out: &mut Vec<char>, mem: &Vec<u16>, at: usize, kinds: &Vec<Shape>, k: usize) -> (ok: bool)
    requires
        k <= kinds@.len(),
    ensures
        match operands_text(mem@, at as int, kinds@, k as int) {
            Some(t) => ok && final(out)@ == old(out)@ + t,
            None => !ok,
        },
    decreases kinds@.len() - k,
{
    if k >= kinds.len() {
        assert(out@ =~= old(out)@ + seq![]);
        return true;
    }
    if at >= mem.len() || k >= mem.len() - at - 1 {
        return false;
    }
    if k > 0 {
        out.push(' ');
    }
    let ghost mid = out@;
    let ok = push_operand(out, kinds[k], mem[at + 1 + k]);
    if !ok {
        return false;
    }
    let ghost after = out@;
    let rest = push_operands(out, mem, at, kinds, k + 1);
    proof {
        if rest {
            let t = operand_text(kinds@[k as int], mem@[at + 1 + k])->Some_0;
            let tail = operands_text(mem@, at as int, kinds@, k + 1)->Some_0;
            if k == 0 {
                assert(out@ =~= old(out)@ + (t + tail));
            } else {
                assert(out@ =~= old(out)@ + (seq![' '] + t + tail));
            }
        }
    }
    rest
}

/// The trace line of the instruction at `at`, or None where the cells there
/// are no instruction.
pub fn disassemble(mem: &Vec<u16>, at: usize) -> (r: Option<Vec<char>>)
    requires
        mem@.len() == 32768,
    ensures
        match trace_line(mem@, at as int) {
            Some(t) => r matches Some(v) && v@ == t,
            None => r is None,
        },
{
    if at >= mem.len() || mem[at] > 21 {
        return None;
    }
    let opcode = mem[at];
    let kinds = shapes_of(opcode);
    let mut out: Vec<char> = Vec::new();
    push_hex(&mut out, at as u64, 4);
    push_str(&mut out, "    ");
    push_str(&mut out, head_of(opcode));
    let ghost front = out@;
    if !push_operands(&mut out, mem, at, &kinds, 0) {
        return None;
    }
    assert(out@ =~= hex(at as nat, 4) + "    "@ + head(opcode) + operands_text(
        mem@,
        at as int,
        shapes(opcode),
        0,
    )->Some_0);
    Some(out)
}

} // verus!
