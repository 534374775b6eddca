use vstd::prelude::*;
use crate::token::{TokenType, TokenView};


verus! {

/// A recognised command of the notation, with the opcode data it carries.
#[derive(Debug, Clone, Copy, PartialEq, Eq, Structural)]
pub enum Command {
    /// A pitch or a rest, with its base opcode (a multiple of 0x10 up to 0xC0).
    Note(u8),
    Octave,
    Volume,
    Macro,
    Tempo,
    Transpose,
    Instrument,
    Tie,
    Panning,
    Stop,
}

/// The command named by a single upper-case character.
pub open spec fn single_command(c: char) -> Option<Command> {
    if c == 'R' { Some(Command::Note(0x00)) }
    else if c == 'C' { Some(Command::Note(0x10)) }
    else if c == 'D' { Some(Command::Note(0x30)) }
    else if c == 'E' { Some(Command::Note(0x50)) }
    else if c == 'F' { Some(Command::Note(0x60)) }
    else if c == 'G' { Some(Command::Note(0x80)) }
    else if c == 'A' { Some(Command::Note(0xA0)) }
    else if c == 'B' { Some(Command::Note(0xC0)) }
    else if c == 'O' { Some(Command::Octave) }
    else if c == 'V' { Some(Command::Volume) }
    else if c == 'M' { Some(Command::Macro) }
    else if c == 'T' { Some(Command::Tempo) }
    else if c == 'K' { Some(Command::Transpose) }
    else if c == 'I' { Some(Command::Instrument) }
    else if c == '&' { Some(Command::Tie) }
    else if c == 'P' { Some(Command::Panning) }
    else if c == 'S' { Some(Command::Stop) }
    else { None }
}

/// The note named by an upper-case letter followed by a sharp marker.
pub open spec fn sharp_command(c: char) -> Option<Command> {
    if c == 'R' { Some(Command::Note(0x00)) }
    else if c == 'C' { Some(Command::Note(0x20)) }
    else if c == 'D' { Some(Command::Note(0x40)) }
    else if c == 'E' { Some(Command::Note(0x60)) }
    else if c == 'F' { Some(Command::Note(0x70)) }
    else if c == 'G' { Some(Command::Note(0x90)) }
    else if c == 'A' { Some(Command::Note(0xB0)) }
    else { None }
}

pub open spec fn is_sharp_marker(c: char) -> bool {
    c == '#' || c == '+'
}

/// The command that an upper-cased command name stands for, if any.
pub open spec fn command_of(name: Seq<char>) -> Option<Command> {
    if name.len() == 1 {
        single_command(name[0])
    } else if name.len() == 2 && is_sharp_marker(name[1]) {
        sharp_command(name[0])
    } else {
        None
    }
}

/// Looks up an upper-cased command name in the command table.
pub fn lookup_command(name: &str) -> (r: Option<Command>)
    ensures
        r == command_of(name@),
{
    let n = name.unicode_len();
    if n == 1 {
        let c = name.get_char(0);
        match c {
            'R' => Some(Command::Note(0x00)),
            'C' => Some(Command::Note(0x10)),
            'D' => Some(Command::Note(0x30)),
            'E' => Some(Command::Note(0x50)),
            'F' => Some(Command::Note(0x60)),
            'G' => Some(Command::Note(0x80)),
            'A' => Some(Command::Note(0xA0)),
            'B' => Some(Command::Note(0xC0)),
            'O' => Some(Command::Octave),
            'V' => Some(Command::Volume),
            'M' => Some(Command::Macro),
            'T' => Some(Command::Tempo),
            'K' => Some(Command::Transpose),
            'I' => Some(Command::Instrument),
            '&' => Some(Command::Tie),
            'P' => Some(Command::Panning),
            'S' => Some(Command::Stop),
            _ => None,
        }
    } else if n == 2 {
        let mark = name.get_char(1);
        if mark != '#' && mark != '+' {
            return None;
        }
        let c = name.get_char(0);
        match c {
            'R' => Some(Command::Note(0x00)),
            'C' => Some(Command::Note(0x20)),
            'D' => Some(Command::Note(0x40)),
            'E' => Some(Command::Note(0x60)),
            'F' => Some(Command::Note(0x70)),
            'G' => Some(Command::Note(0x90)),
            'A' => Some(Command::Note(0xB0)),
            _ => None,
        }
    } else {
        None
    }
}

pub open spec fn is_ascii_digit(c: char) -> bool {
    '0' <= c && c <= '9'
}

/// The value of a run of decimal digits.
pub open spec fn digits_value(s: Seq<char>) -> int
    decreases s.len(),
{
    if s.len() == 0 {
        0
    } else {
        digits_value(s.drop_last()) * 10 + (s.last() as int - '0' as int)
    }
}

/// The digits of a number text, after an optional leading `+`.
pub open spec fn unsigned_digits(s: Seq<char>) -> Seq<char> {
    if s.len() > 0 && s[0] == '+' { s.drop_first() } else { s }
}

/// The value of a number text, capped at 256: a value when the text is an
/// optional `+` followed by one or more decimal digits, with every value above
/// 255 given as 256.
pub open spec fn decimal_capped(s: Seq<char>) -> Option<u16> {
    let d = unsigned_digits(s);
    if d.len() > 0 && (forall|i: int| 0 <= i < d.len() ==> is_ascii_digit(#[trigger] d[i])) {
        Some(if digits_value(d) > 255 { 256u16 } else { digits_value(d) as u16 })
    } else {
        None
    }
}

/// What `u8::from_str_radix(s, 10)` gives: a value when the text is an optional `+`
/// followed by one or more decimal digits whose value is at most 255.
pub open spec fn decimal_u8(s: Seq<char>) -> Option<u8> {
    match decimal_capped(s) {
        Some(v) => if v <= 255 { Some(v as u8) } else { None },
        None => None,
    }
}

/// Reads a decimal number from a token's text, capping values above 255 at 256.
pub fn parse_decimal_capped(s: &str) -> (r: Option<u16>)
    ensures
        r == decimal_capped(s@),
{
    let n = s.unicode_len();
    let start: usize = if n > 0 && s.get_char(0) == '+' { 1 } else { 0 };
    let ghost d = unsigned_digits(s@);
    assert(d =~= s@.subrange(start as int, n as int));
    if start == n {
        assert(d.len() == 0);
        return None;
    }
    let mut value: u16 = 0;
    let mut i: usize = start;
    while i < n
        invariant
            start <= i <= n,
            n == s@.len(),
            d == unsigned_digits(s@),
            d =~= s@.subrange(start as int, n as int),
            forall|k: int| 0 <= k < i - start ==> is_ascii_digit(#[trigger] d[k]),
            value == (if digits_value(d.take(i - start)) > 255 { 256 } else { digits_value(d.take(i - start)) }),
        decreases n - i,
    {
        let c = s.get_char(i);
        if c < '0' || c > '9' {
            assert(!is_ascii_digit(d[i - start]));
            return None;
        }
        proof {
            assert(d.take(i - start + 1).drop_last() =~= d.take(i - start));
            lemma_digits_value_nonneg(d.take(i - start));
        }
        let digit: u16 = (c as u16) - ('0' as u16);
        value = value * 10 + digit;
        if value > 255 {
            value = 256;
        }
        i = i + 1;
    }
    assert(d.take(n - start) =~= d);
    Some(value)
}

/// Reads a decimal number in 0..=255 from a token's text.
pub fn parse_decimal_u8(s: &str) -> (r: Option<u8>)
    ensures
        r == decimal_u8(s@),
{
    match parse_decimal_capped(s) {
        Some(v) => if v <= 255 { Some(v as u8) } else { None },
        None => None,
    }
}

proof fn lemma_digits_value_nonneg(s: Seq<char>)
    requires
        forall|i: int| 0 <= i < s.len() ==> is_ascii_digit(#[trigger] s[i]),
    ensures
        digits_value(s) >= 0,
    decreases s.len(),
{
    if s.len() > 0 {
        lemma_digits_value_nonneg(s.drop_last());
    }
}

/// The duration values a note may carry, each mapped to its index.
pub open spec fn duration_index(n: u16) -> Option<u8> {
    if n == 1 { Some(0u8) }
    else if n == 2 { Some(1u8) }
    else if n == 4 { Some(2u8) }
    else if n == 8 { Some(3u8) }
    else if n == 16 { Some(4u8) }
    else if n == 32 { Some(5u8) }
    else if n == 64 { Some(6u8) }
    else if n == 128 { Some(7u8) }
    else { None }
}

pub fn find_duration_index(n: u16) -> (r: Option<u8>)
    ensures
        r == duration_index(n),
{
    let durations: [u16; 8] = [1, 2, 4, 8, 16, 32, 64, 128];
    let mut i: usize = 0;
    while i < 8
        invariant
            i <= 8,
            durations@ == seq![1u16, 2, 4, 8, 16, 32, 64, 128],
            forall|k: int| 0 <= k < i ==> durations@[k] != n,
        decreases 8 - i,
    {
        if durations[i] == n {
            return Some(i as u8);
        }
        i = i + 1;
    }
    None
}

/// The duration code of a dotted note of the given index (index 1 or more).
pub open spec fn dotted_code(index: u8) -> u8 {
    (0x08u8 | ((index - 1) as u8)) as u8
}

/// The byte that sets the octave (1 to 5).
pub open spec fn octave_byte(octave: u8) -> u8 {
    (0xD0u8 | ((octave - 1) as u8)) as u8
}

/// The byte that sets the volume (0 to 8): the scale is inverted.
pub open spec fn volume_byte(volume: u8) -> u8 {
    (0xE0u8 | ((9 - volume) as u8)) as u8
}

pub const LOOP_OPEN: u8 = 0xF0;
pub const LOOP_CLOSE: u8 = 0xF1;
pub const MACRO_CALL: u8 = 0xF2;
pub const TEMPO: u8 = 0xF3;
pub const TRANSPOSE: u8 = 0xF4;
pub const INSTRUMENT: u8 = 0xF5;
pub const TIE: u8 = 0xF6;
pub const PANNING: u8 = 0xF7;
pub const STOP: u8 = 0xF8;
pub const MARKER: u8 = 0xFF;

} // verus!
