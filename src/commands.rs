//! Operator commands: lines typed at the input prompt that steer the host
//! instead of reaching the guest.
use vstd::prelude::*;
use vstd::utf8::encode_utf8;

use crate::operand::Register;

verus! {

/// Unicode `White_Space`, the set that `str::trim` strips.
pub open spec fn is_space(c: char) -> bool {
    ||| ('\t' <= c <= '\r')
    ||| c == ' '
    ||| c == '\u{85}'
    ||| c == '\u{a0}'
    ||| c == '\u{1680}'
    ||| ('\u{2000}' <= c <= '\u{200a}')
    ||| c == '\u{2028}'
    ||| c == '\u{2029}'
    ||| c == '\u{202f}'
    ||| c == '\u{205f}'
    ||| c == '\u{3000}'
}

fn space(c: char) -> (r: bool)
    ensures
        r == is_space(c),
{
    ('\t' <= c && c <= '\r') || c == ' ' || c == '\u{85}' || c == '\u{a0}' || c == '\u{1680}' || (
    '\u{2000}' <= c && c <= '\u{200a}') || c == '\u{2028}' || c == '\u{2029}' || c == '\u{202f}'
        || c == '\u{205f}' || c == '\u{3000}'
}

/// How many characters at the front of `s` are white space.
pub open spec fn leading_spaces(s: Seq<char>) -> nat
    decreases s.len(),
{
    if s.len() > 0 && is_space(s[0]) {
        1 + leading_spaces(s.drop_first())
    } else {
        0
    }
}

/// How many characters at the back of `s` are white space.
pub open spec fn trailing_spaces(s: Seq<char>) -> nat
    decreases s.len(),
{
    if s.len() > 0 && is_space(s.last()) {
        1 + trailing_spaces(s.drop_last())
    } else {
        0
    }
}

/// `s` without white space at either end.
pub open spec fn trim(s: Seq<char>) -> Seq<char> {
    let t = s.subrange(leading_spaces(s) as int, s.len() as int);
    t.subrange(0, t.len() - trailing_spaces(t))
}

/// `i` is where `c` first occurs in `s`.
pub open spec fn is_first(s: Seq<char>, c: char, i: int) -> bool {
    &&& 0 <= i < s.len()
    &&& s[i] == c
    &&& forall|j: int| 0 <= j < i ==> s[j] != c
}

/// Where `c` first occurs in `s`, if it does.
pub open spec fn first_index(s: Seq<char>, c: char) -> Option<int> {
    if exists|i: int| is_first(s, c, i) {
        Some(choose|i: int| is_first(s, c, i))
    } else {
        None
    }
}

/// What follows the first space of `s`, if it has one.
pub open spec fn after_space(s: Seq<char>) -> Option<Seq<char>> {
    match first_index(s, ' ') {
        Some(i) => Some(s.subrange(i + 1, s.len() as int)),
        None => None,
    }
}

/// What precedes the first space of `s` (all of it if there is none).
pub open spec fn before_space(s: Seq<char>) -> Seq<char> {
    match first_index(s, ' ') {
        Some(i) => s.subrange(0, i),
        None => s,
    }
}

pub open spec fn starts_with(s: Seq<char>, prefix: Seq<char>) -> bool {
    s.len() >= prefix.len() && s.subrange(0, prefix.len() as int) == prefix
}

pub open spec fn is_digit(c: char) -> bool {
    '0' <= c <= '9'
}

/// The number that a string of decimal digits spells.
pub open spec fn digits_value(s: Seq<char>) -> nat
    decreases s.len(),
{
    if s.len() == 0 {
        0
    } else {
        digits_value(s.drop_last()) * 10 + ((s.last() as nat) - ('0' as nat)) as nat
    }
}

/// An unsigned decimal number no greater than `max`, as `str::parse` reads
/// it: an optional `+`, then one or more digits and nothing else.
pub open spec fn parse_unsigned(s: Seq<char>, max: nat) -> Option<nat> {
    let d = unsigned_digits(s);
    if d.len() > 0 && all_digits(d) && digits_value(d) <= max {
        Some(digits_value(d))
    } else {
        None
    }
}

/// `s` without one leading `+`.
pub open spec fn unsigned_digits(s: Seq<char>) -> Seq<char> {
    if s.len() > 0 && s[0] == '+' {
        s.drop_first()
    } else {
        s
    }
}

pub open spec fn all_digits(s: Seq<char>) -> bool {
    forall|i: int| 0 <= i < s.len() ==> is_digit(s[i])
}

/// The bytes that a line of guest input puts in the queue: the line's
/// UTF-8 bytes in order, without carriage returns.
pub open spec fn guest_bytes(b: Seq<u8>) -> Seq<u8>
    decreases b.len(),
{
    if b.len() == 0 {
        seq![]
    } else if b.last() == 13 {
        guest_bytes(b.drop_last())
    } else {
        guest_bytes(b.drop_last()).push(b.last())
    }
}

/// A line read at the input prompt, as the host is to handle it.
#[derive(Debug)]
pub enum Command {
    /// Write the machine to the file and exit.
    SaveState(Vec<char>),
    /// Replace the machine by the one in the file.
    LoadState(Vec<char>),
    /// Print all registers.
    DumpRegs,
    /// Print one register.
    DumpReg(Register),
    /// Set a register.
    SetReg(Register, u16),
    /// Trace every decoded instruction to the file.
    LogFile(Vec<char>),
    /// Stop tracing.
    NoLog,
    /// Bytes for the guest.
    Input(Vec<u8>),
}

/// `Command` as mathematical values.
pub enum CommandView {
    SaveState(Seq<char>),
    LoadState(Seq<char>),
    DumpRegs,
    DumpReg(Register),
    SetReg(Register, u16),
    LogFile(Seq<char>),
    NoLog,
    Input(Seq<u8>),
}

impl View for Command {
    type V = CommandView;

    open spec fn view(&self) -> CommandView {
        match self {
            Command::SaveState(p) => CommandView::SaveState(p@),
            Command::LoadState(p) => CommandView::LoadState(p@),
            Command::DumpRegs => CommandView::DumpRegs,
            Command::DumpReg(r) => CommandView::DumpReg(*r),
            Command::SetReg(r, v) => CommandView::SetReg(*r, *v),
            Command::LogFile(p) => CommandView::LogFile(p@),
            Command::NoLog => CommandView::NoLog,
            Command::Input(b) => CommandView::Input(b@),
        }
    }
}

/// A malformed operator command. The command is dropped and the prompt
/// stays open.
#[derive(Clone, Copy, Debug, PartialEq, Eq, Structural)]
pub enum CommandError {
    /// The command needs a file name and has none.
    MissingPath,
    /// The command needs a register number and has none.
    MissingRegister,
    /// The register number is not a decimal number below 8.
    BadRegister,
    /// `setreg` has no value.
    MissingValue,
    /// The value is not a decimal number that fits in 16 bits.
    BadValue,
}

/// The file name argument: what follows the first space, trimmed.
pub open spec fn path_argument(line: Seq<char>) -> Result<Seq<char>, CommandError> {
    match after_space(line) {
        Some(rest) => Ok(trim(rest)),
        None => Err(CommandError::MissingPath),
    }
}

/// A register number read as `str::parse::<usize>` reads it; only 0 to 7
/// name a register.
pub open spec fn register_argument(s: Seq<char>) -> Result<Register, CommandError> {
    match parse_unsigned(s, usize::MAX as nat) {
        Some(n) => if n < 8 {
            Ok(Register(n as usize))
        } else {
            Err(CommandError::BadRegister)
        },
        None => Err(CommandError::BadRegister),
    }
}

/// `setreg N V`: the trimmed line is split at its first two spaces.
pub open spec fn setreg_arguments(line: Seq<char>) -> Result<CommandView, CommandError> {
    let t = trim(line);
    match after_space(t) {
        None => Err(CommandError::MissingRegister),
        Some(rest) => match register_argument(before_space(rest)) {
            Err(e) => Err(e),
            Ok(r) => match after_space(rest) {
                None => Err(CommandError::MissingValue),
                Some(v) => match parse_unsigned(v, 65535) {
                    Some(n) => Ok(CommandView::SetReg(r, n as u16)),
                    None => Err(CommandError::BadValue),
                },
            },
        },
    }
}

/// What a line read at the prompt means. A command is recognised by the
/// line's first characters; `dumpregs` is tried before `dumpreg`. Any other
/// line is guest input.
pub open spec fn command_spec(line: Seq<char>) -> Result<CommandView, CommandError> {
    if starts_with(line, "savestate"@) {
        match path_argument(line) {
            Ok(p) => Ok(CommandView::SaveState(p)),
            Err(e) => Err(e),
        }
    } else if starts_with(line, "loadstate"@) {
        match path_argument(line) {
            Ok(p) => Ok(CommandView::LoadState(p)),
            Err(e) => Err(e),
        }
    } else if starts_with(line, "dumpregs"@) {
        Ok(CommandView::DumpRegs)
    } else if starts_with(line, "dumpreg"@) {
        match after_space(line) {
            None => Err(CommandError::MissingRegister),
            Some(rest) => match register_argument(trim(rest)) {
                Ok(r) => Ok(CommandView::DumpReg(r)),
                Err(e) => Err(e),
            },
        }
    } else if starts_with(line, "setreg"@) {
        setreg_arguments(line)
    } else if starts_with(line, "logfile"@) {
        match path_argument(line) {
            Ok(p) => Ok(CommandView::LogFile(p)),
            Err(e) => Err(e),
        }
    } else if starts_with(line, "nolog"@) {
        Ok(CommandView::NoLog)
    } else {
        Ok(CommandView::Input(guest_bytes(encode_utf8(line))))
    }
}

fn chars_of(s: &str) -> (r: Vec<char>)
    ensures
        r@ == s@,
{
    let n = s.unicode_len();
    let mut r: Vec<char> = Vec::new();
    let mut i: usize = 0;
    while i < n
        invariant
            n == s@.len(),
            i <= n,
            r@ == s@.subrange(0, i as int),
        decreases n - i,
    {
        r.push(s.get_char(i));
        i += 1;
    }
    assert(r@ =~= s@);
    r
}

fn slice_of(s: &Vec<char>, from: usize, to: usize) -> (r: Vec<char>)
    requires
        from <= to <= s@.len(),
    ensures
        r@ == s@.subrange(from as int, to as int),
{
    let mut r: Vec<char> = Vec::new();
    let mut i: usize = from;
    while i < to
        invariant
            from <= i <= to <= s@.len(),
            r@ == s@.subrange(from as int, i as int),
        decreases to - i,
    {
        r.push(s[i]);
        i += 1;
    }
    r
}

fn find_space(s: &Vec<char>) -> (r: Option<usize>)
    ensures
        match r {
            Some(i) => i < s@.len() && first_index(s@, ' ') == Some(i as int),
            None => first_index(s@, ' ') is None,
        },
{
    let mut i: usize = 0;
    while i < s.len()
        invariant
            i <= s@.len(),
            forall|j: int| 0 <= j < i ==> s@[j] != ' ',
        decreases s@.len() - i,
    {
        if s[i] == ' ' {
            proof {
                assert(is_first(s@, ' ', i as int));
                let k = choose|k: int| is_first(s@, ' ', k);
                if k < i {
                    assert(s@[k] != ' ');
                } else if k > i {
                    assert(s@[i as int] != ' ');
                }
            }
            return Some(i);
        }
        i += 1;
    }
    assert(!exists|k: int| is_first(s@, ' ', k)) by {
        if exists|k: int| is_first(s@, ' ', k) {
            let k = choose|k: int| is_first(s@, ' ', k);
            assert(s@[k] != ' ');
        }
    }
    None
}

fn split_space(s: &Vec<char>) -> (r: Option<(Vec<char>, Vec<char>)>)
    ensures
        match r {
            Some((a, b)) => after_space(s@) == Some(b@) && before_space(s@) == a@,
            None => after_space(s@) is None && before_space(s@) == s@,
        },
{
    let found = find_space(s);
    match found {
        Some(i) => {
            let n = s.len();
            Some((slice_of(s, 0, i), slice_of(s, i + 1, n)))
        },
        None => None,
    }
}

fn leading_count(s: &Vec<char>) -> (r: usize)
    ensures
        r == leading_spaces(s@),
        r <= s@.len(),
{
    let n = s.len();
    let mut i: usize = 0;
    assert(s@.subrange(0, n as int) =~= s@);
    while i < n && space(s[i])
        invariant
            n == s@.len(),
            i <= n,
            leading_spaces(s@) == i + leading_spaces(s@.subrange(i as int, n as int)),
        decreases n - i,
    {
        let ghost sub = s@.subrange(i as int, n as int);
        assert(sub.drop_first() =~= s@.subrange(i + 1, n as int));
        i += 1;
    }
    i
}

fn trailing_count(t: &Vec<char>) -> (r: usize)
    ensures
        r == trailing_spaces(t@),
        r <= t@.len(),
{
    let n = t.len();
    let mut j: usize = n;
    assert(t@.subrange(0, n as int) =~= t@);
    while j > 0 && space(t[j - 1])
        invariant
            n == t@.len(),
            j <= n,
            trailing_spaces(t@) == (n - j) + trailing_spaces(t@.subrange(0, j as int)),
        decreases j,
    {
        let ghost sub = t@.subrange(0, j as int);
        assert(sub.drop_last() =~= t@.subrange(0, j - 1));
        j -= 1;
    }
    n - j
}

fn trimmed(s: &Vec<char>) -> (r: Vec<char>)
    ensures
        r@ == trim(s@),
{
    let i = leading_count(s);
    let t = slice_of(s, i, s.len());
    let k = trailing_count(&t);
    slice_of(&t, 0, t.len() - k)
}

fn has_prefix(s: &Vec<char>, prefix: &str) -> (r: bool)
    ensures
        r == starts_with(s@, prefix@),
{
    let n = prefix.unicode_len();
    if s.len() < n {
        return false;
    }
    let mut i: usize = 0;
    while i < n
        invariant
            n == prefix@.len(),
            n <= s@.len(),
            i <= n,
            forall|j: int| 0 <= j < i ==> s@[j] == prefix@[j],
        decreases n - i,
    {
        if s[i] != prefix.get_char(i) {
            assert(s@.subrange(0, n as int)[i as int] != prefix@[i as int]);
            return false;
        }
        i += 1;
    }
    assert(s@.subrange(0, n as int) =~= prefix@);
    true
}

proof fn lemma_prefix_value(s: Seq<char>, j: int)
    requires
        0 <= j <= s.len(),
    ensures
        digits_value(s.subrange(0, j)) <= digits_value(s),
    decreases s.len() - j,
{
    if j < s.len() {
        lemma_prefix_value(s, j + 1);
        assert(s.subrange(0, j + 1).drop_last() =~= s.subrange(0, j));
    } else {
        assert(s.subrange(0, j) =~= s);
    }
}

fn parse_number(s: &Vec<char>, max: u64) -> (r: Option<u64>)
    ensures
        match r {
            Some(n) => parse_unsigned(s@, max as nat) == Some(n as nat),
            None => parse_unsigned(s@, max as nat) is None,
        },
{
    let start: usize = if s.len() > 0 && s[0] == '+' {
        1
    } else {
        0
    };
    let ghost d = unsigned_digits(s@);
    assert(d =~= s@.subrange(start as int, s@.len() as int));
    if start == s.len() {
        return None;
    }
    let mut acc: u64 = 0;
    let mut i: usize = start;
    while i < s.len()
        invariant
            start <= i <= s@.len(),
            d == s@.subrange(start as int, s@.len() as int),
            d == unsigned_digits(s@),
            forall|j: int| start <= j < i ==> is_digit(s@[j]),
            acc as nat == digits_value(d.subrange(0, i - start)),
            acc <= max,
        decreases s@.len() - i,
    {
        let c = s[i];
        if !('0' <= c && c <= '9') {
            assert(!is_digit(d[i - start]));
            assert(!all_digits(d));
            return None;
        }
        let digit: u64 = (c as u32 - '0' as u32) as u64;
        assert(d.subrange(0, i + 1 - start).drop_last() =~= d.subrange(0, i - start));
        let next: u128 = acc as u128 * 10 + digit as u128;
        assert(d.subrange(0, i + 1 - start).last() == c);
        assert(next == digits_value(d.subrange(0, i + 1 - start)));
        if next > max as u128 {
            proof {
                if all_digits(d) {
                    lemma_prefix_value(d, i + 1 - start);
                }
            }
            return None;
        }
        acc = next as u64;
        i += 1;
    }
    assert(d.subrange(0, i - start) =~= d);
    assert(all_digits(d)) by {
        assert forall|j: int| 0 <= j < d.len() implies is_digit(d[j]) by {
            assert(d[j] == s@[j + start]);
        }
    }
    Some(acc)
}

fn guest_bytes_of(line: &str) -> (r: Vec<u8>)
    ensures
        r@ == guest_bytes(encode_utf8(line@)),
{
    let b = line.as_bytes();
    let mut r: Vec<u8> = Vec::new();
    let mut i: usize = 0;
    while i < b.len()
        invariant
            b@ == encode_utf8(line@),
            i <= b@.len(),
            r@ == guest_bytes(b@.subrange(0, i as int)),
        decreases b@.len() - i,
    {
        assert(b@.subrange(0, i + 1).drop_last() =~= b@.subrange(0, i as int));
        let c = b[i];
        if c != 13 {
            r.push(c);
        }
        i += 1;
    }
    assert(b@.subrange(0, i as int) =~= b@);
    r
}

fn path_of(line: &Vec<char>) -> (r: Result<Vec<char>, CommandError>)
    ensures
        match r {
            Ok(p) => path_argument(line@) == Ok::<Seq<char>, CommandError>(p@),
            Err(e) => path_argument(line@) == Err::<Seq<char>, CommandError>(e),
        },
{
    match split_space(line) {
        Some((_, rest)) => Ok(trimmed(&rest)),
        None => Err(CommandError::MissingPath),
    }
}

fn register_of(s: &Vec<char>) -> (r: Result<Register, CommandError>)
    ensures
        r == register_argument(s@),
{
    match parse_number(s, usize::MAX as u64) {
        Some(n) => if n < 8 {
            Ok(Register(n as usize))
        } else {
            Err(CommandError::BadRegister)
        },
        None => Err(CommandError::BadRegister),
    }
}

/// Reads a line typed at the input prompt (as read, with its line break) as
/// an operator command or as guest input.
pub fn parse_command(line: &str) -> (r: Result<Command, CommandError>)
    ensures
        match r {
            Ok(c) => command_spec(line@) == Ok::<CommandView, CommandError>(c@),
            Err(e) => command_spec(line@) == Err::<CommandView, CommandError>(e),
        },
{
    let chars = chars_of(line);
    if has_prefix(&chars, "savestate") {
        Ok(Command::SaveState(path_of(&chars)?))
    } else if has_prefix(&chars, "loadstate") {
        Ok(Command::LoadState(path_of(&chars)?))
    } else if has_prefix(&chars, "dumpregs") {
        Ok(Command::DumpRegs)
    } else if has_prefix(&chars, "dumpreg") {
        match split_space(&chars) {
            None => Err(CommandError::MissingRegister),
            Some((_, rest)) => Ok(Command::DumpReg(register_of(&trimmed(&rest))?)),
        }
    } else if has_prefix(&chars, "setreg") {
        let t = trimmed(&chars);
        match split_space(&t) {
            None => Err(CommandError::MissingRegister),
            Some((_, rest)) => {
                let (head, value) = match split_space(&rest) {
                    Some((h, v)) => (h, Some(v)),
                    None => (rest, None),
                };
                let register = register_of(&head)?;
                match value {
                    None => Err(CommandError::MissingValue),
                    Some(v) => match parse_number(&v, 65535) {
                        Some(n) => Ok(Command::SetReg(register, n as u16)),
                        None => Err(CommandError::BadValue),
                    },
                }
            },
        }
    } else if has_prefix(&chars, "logfile") {
        Ok(Command::LogFile(path_of(&chars)?))
    } else if has_prefix(&chars, "nolog") {
        Ok(Command::NoLog)
    } else {
        Ok(Command::Input(guest_bytes_of(line)))
    }
}

} // verus!
