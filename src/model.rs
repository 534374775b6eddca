use vstd::prelude::*;
use crate::encoding::{command_of, decimal_capped, decimal_u8, dotted_code, duration_index, octave_byte, volume_byte, Command, INSTRUMENT, LOOP_CLOSE, LOOP_OPEN, MACRO_CALL, MARKER, PANNING, STOP, TEMPO, TIE, TRANSPOSE};
use crate::error::{CompileError, Fault, Warning, WarningKind};
use crate::text::upper_of;
use crate::token::{TokenType, TokenView};

verus! {

/// The state of the encoder between two units: the index of the current token,
/// the octave, the duration code that notes without a duration reuse, and the
/// warnings raised so far.
pub struct EncState {
    pub idx: int,
    pub octave: u8,
    pub duration: u8,
    pub warnings: Seq<Warning>,
}

/// What encoding one unit gives: its bytes and the state after it, or a fault.
pub type Unit = Result<(Seq<u8>, EncState), Fault>;

/// The kind of the token at `i`; past the end, the end of input.
pub open spec fn kind_at(toks: Seq<TokenView>, i: int) -> TokenType {
    if 0 <= i < toks.len() {
        toks[i].token_type
    } else {
        TokenType::EndOfFile
    }
}

/// The line of the token at `i`; past the end, that of the last token.
pub open spec fn line_at(toks: Seq<TokenView>, i: int) -> usize {
    if 0 <= i < toks.len() {
        toks[i].line
    } else if toks.len() > 0 {
        toks.last().line
    } else {
        1
    }
}

/// The column of the token at `i`; past the end, that of the last token.
pub open spec fn column_at(toks: Seq<TokenView>, i: int) -> usize {
    if 0 <= i < toks.len() {
        toks[i].column
    } else if toks.len() > 0 {
        toks.last().column
    } else {
        0
    }
}

/// The index after moving past the token at `i`; the end of input is never left.
pub open spec fn next_index(toks: Seq<TokenView>, i: int) -> int {
    if 0 <= i < toks.len() && toks[i].token_type != TokenType::EndOfFile {
        i + 1
    } else {
        i
    }
}

/// Reads a number argument at `i`: its value and the index after it.
pub open spec fn read_number(toks: Seq<TokenView>, i: int) -> Result<(u8, int), Fault> {
    if kind_at(toks, i) != TokenType::Number {
        Err(Fault::Error(CompileError::ExpectedNumber { line: line_at(toks, i), column: column_at(toks, i) }))
    } else {
        match decimal_u8(toks[i].value) {
            Some(n) => Ok((n, next_index(toks, i))),
            None => Err(Fault::Error(CompileError::InvalidNumber { line: line_at(toks, i), column: column_at(toks, i) })),
        }
    }
}

/// Reads a number argument at `i` that a command checks against its own range:
/// its value, capped at 256, and the index after it.
pub open spec fn read_value(toks: Seq<TokenView>, i: int) -> Result<(u16, int), Fault> {
    if kind_at(toks, i) != TokenType::Number {
        Err(Fault::Error(CompileError::ExpectedNumber { line: line_at(toks, i), column: column_at(toks, i) }))
    } else {
        match decimal_capped(toks[i].value) {
            Some(n) => Ok((n, next_index(toks, i))),
            None => Err(Fault::Error(CompileError::InvalidNumber { line: line_at(toks, i), column: column_at(toks, i) })),
        }
    }
}

/// Reads a note duration at `i`, with its optional dot: its code and the index after it.
pub open spec fn read_duration(toks: Seq<TokenView>, i: int) -> Result<(u8, int), Fault> {
    match read_value(toks, i) {
        Err(f) => Err(f),
        Ok((n, j)) => match duration_index(n) {
            None => Err(Fault::Error(CompileError::InvalidDuration { line: line_at(toks, i), column: column_at(toks, i) })),
            Some(k) => if kind_at(toks, j) == TokenType::Dot {
                if k == 0 {
                    Err(Fault::Error(CompileError::DottedWholeNote { line: line_at(toks, i), column: column_at(toks, i) }))
                } else {
                    Ok((dotted_code(k), next_index(toks, j)))
                }
            } else {
                Ok((k, j))
            },
        },
    }
}

pub open spec fn warn(st: EncState, kind: WarningKind, line: usize, column: usize) -> EncState {
    EncState { warnings: st.warnings.push(Warning { kind, line, column }), ..st }
}

/// The bytes of a command whose name has been read: `st.idx` is the token after
/// the name, `hc` the number of headers, `line` and `column` the name's position.
pub open spec fn encode_argument(toks: Seq<TokenView>, cmd: Command, st: EncState, hc: int, line: usize, column: usize) -> Unit {
    let i = st.idx;
    match cmd {
        Command::Note(base) => if kind_at(toks, i) == TokenType::Number {
            match read_duration(toks, i) {
                Err(f) => Err(f),
                Ok((d, j)) => Ok((seq![(base | d) as u8], EncState { idx: j, duration: d, ..st })),
            }
        } else {
            Ok((seq![(base | st.duration) as u8], st))
        },
        Command::Tie => Ok((seq![TIE], warn(st, WarningKind::Tie, line, column))),
        Command::Stop => Ok((seq![STOP], warn(st, WarningKind::Stop, line, column))),
        Command::Octave => match read_value(toks, i) {
            Err(f) => Err(f),
            Ok((n, j)) => if 1 <= n <= 5 {
                Ok((seq![octave_byte(n as u8)], EncState { idx: j, octave: n as u8, ..st }))
            } else {
                Err(Fault::Error(CompileError::InvalidOctave { line: line_at(toks, i), column: column_at(toks, i) }))
            },
        },
        Command::Volume => match read_value(toks, i) {
            Err(f) => Err(f),
            Ok((n, j)) => if n < 9 {
                Ok((seq![volume_byte(n as u8)], EncState { idx: j, ..st }))
            } else {
                Err(Fault::Error(CompileError::InvalidVolume { line: line_at(toks, i), column: column_at(toks, i) }))
            },
        },
        Command::Macro => match read_value(toks, i) {
            Err(f) => Err(f),
            Ok((n, j)) => if 1 <= n && n - 1 <= hc - 3 {
                Ok((seq![MACRO_CALL, (n - 1) as u8], EncState { idx: j, ..st }))
            } else {
                Err(Fault::Error(CompileError::InvalidMacro { macros: (hc - 3) as u8, line: line_at(toks, i), column: column_at(toks, i) }))
            },
        },
        Command::Tempo => match read_number(toks, i) {
            Err(f) => Err(f),
            Ok((n, j)) => Ok((seq![TEMPO, n], EncState { idx: j, ..st })),
        },
        Command::Transpose => match read_number(toks, i) {
            Err(f) => Err(f),
            Ok((n, j)) => Ok((seq![TRANSPOSE, n], warn(EncState { idx: j, ..st }, WarningKind::Transpose, line, column))),
        },
        Command::Instrument => match read_number(toks, i) {
            Err(f) => Err(f),
            Ok((n, j)) => Ok((seq![INSTRUMENT, n], warn(EncState { idx: j, ..st }, WarningKind::Instrument, line, column))),
        },
        Command::Panning => match read_number(toks, i) {
            Err(f) => Err(f),
            Ok((n, j)) => Ok((seq![PANNING, n], warn(EncState { idx: j, ..st }, WarningKind::Panning, line, column))),
        },
    }
}

/// The bytes of the command token at `st.idx`, whose name is matched upper-cased.
pub open spec fn encode_command(toks: Seq<TokenView>, st: EncState, hc: int) -> Unit {
    let at = st.idx;
    let name = upper_of(toks[at].value);
    match command_of(name) {
        None => Err(Fault::UnknownCommand { name, line: line_at(toks, at), column: column_at(toks, at) }),
        Some(cmd) => encode_argument(toks, cmd, EncState { idx: next_index(toks, at), ..st }, hc, line_at(toks, at), column_at(toks, at)),
    }
}

/// The bytes of the unit that starts at `st.idx`. A run of octave shifts in one
/// direction gives a single byte that sets the final octave.
pub open spec fn encode_token(toks: Seq<TokenView>, st: EncState, hc: int) -> Unit
    decreases toks.len() - st.idx, 0int,
{
    let i = st.idx;
    match kind_at(toks, i) {
        TokenType::Arobase => Ok((seq![MARKER], EncState { idx: next_index(toks, i), ..st })),
        TokenType::LessThan => if st.octave <= 1 {
            Err(Fault::Error(CompileError::OctaveUnderflow { line: line_at(toks, i), column: column_at(toks, i) }))
        } else {
            let s1 = EncState { idx: i + 1, octave: (st.octave - 1) as u8, ..st };
            if kind_at(toks, i + 1) == TokenType::LessThan {
                encode_token(toks, s1, hc)
            } else {
                Ok((seq![octave_byte(s1.octave)], s1))
            }
        },
        TokenType::GreaterThan => if st.octave >= 5 {
            Err(Fault::Error(CompileError::OctaveOverflow { line: line_at(toks, i), column: column_at(toks, i) }))
        } else {
            let s1 = EncState { idx: i + 1, octave: (st.octave + 1) as u8, ..st };
            if kind_at(toks, i + 1) == TokenType::GreaterThan {
                encode_token(toks, s1, hc)
            } else {
                Ok((seq![octave_byte(s1.octave)], s1))
            }
        },
        TokenType::LeftParen => if kind_at(toks, i + 1) != TokenType::Number {
            Err(Fault::Error(CompileError::ExpectedNumber { line: line_at(toks, i + 1), column: column_at(toks, i + 1) }))
        } else {
            match decimal_u8(toks[i + 1].value) {
                None => Err(Fault::Error(CompileError::InvalidNumber { line: line_at(toks, i + 1), column: column_at(toks, i + 1) })),
                Some(n) => encode_loop_body(toks, EncState { idx: i + 2, ..st }, hc, i, seq![LOOP_OPEN, n]),
            }
        },
        TokenType::Command => encode_command(toks, st, hc),
        TokenType::EndOfFile => Err(Fault::Error(CompileError::UnexpectedEndOfFile { line: line_at(toks, i), column: column_at(toks, i) })),
        _ => Err(Fault::Error(CompileError::UnexpectedToken { line: line_at(toks, i), column: column_at(toks, i) })),
    }
}

/// The rest of a loop opened at `start`, from `st.idx`, after the bytes `acc`. A
/// header mark inside the loop, or the end of input after one of its units,
/// leaves it unterminated. The test that a unit moved forward only bounds the
/// recursion: `laws::law_unit_advances` shows that it always holds.
pub open spec fn encode_loop_body(toks: Seq<TokenView>, st: EncState, hc: int, start: int, acc: Seq<u8>) -> Unit
    decreases toks.len() - st.idx, 1int,
{
    let i = st.idx;
    let unterminated = Fault::Error(CompileError::UnterminatedLoop { line: line_at(toks, start), column: column_at(toks, start) });
    if i < 0 || i > toks.len() {
        Err(unterminated)
    } else {
        match kind_at(toks, i) {
            TokenType::RightParen => Ok((acc.push(LOOP_CLOSE), EncState { idx: i + 1, ..st })),
            TokenType::Arobase => Err(unterminated),
            _ => match encode_token(toks, st, hc) {
                Err(f) => Err(f),
                Ok((b, s2)) => if kind_at(toks, s2.idx) == TokenType::EndOfFile {
                    Err(unterminated)
                } else if i < s2.idx <= toks.len() {
                    encode_loop_body(toks, s2, hc, start, acc + b)
                } else {
                    Err(unterminated)
                },
            },
        }
    }
}

/// The header marks among the tokens.
pub open spec fn header_total(toks: Seq<TokenView>) -> nat
    decreases toks.len(),
{
    if toks.len() == 0 {
        0
    } else {
        header_total(toks.drop_last()) + (if toks.last().token_type == TokenType::Arobase { 1nat } else { 0nat })
    }
}

/// Encodes units from `st.idx` to the end of input after the bytes `out`, recording
/// in `offsets` the start of each channel that a header marker opens: the byte
/// just after the marker. As in `encode_loop_body`, the test that a unit moved
/// forward always holds.
pub open spec fn encode_channels(toks: Seq<TokenView>, st: EncState, hc: int, out: Seq<u8>, offsets: Seq<int>) -> Result<(Seq<u8>, Seq<int>, EncState), Fault>
    decreases toks.len() - st.idx,
{
    if kind_at(toks, st.idx) == TokenType::EndOfFile {
        Ok((out, offsets, st))
    } else {
        match encode_token(toks, st, hc) {
            Err(f) => Err(f),
            Ok((b, s2)) => if st.idx < s2.idx <= toks.len() {
                encode_channels(toks, s2, hc, out + b,
                    if kind_at(toks, st.idx) == TokenType::Arobase { offsets.push(out.len() as int + 1) } else { offsets })
            } else {
                Err(Fault::Error(CompileError::UnexpectedEndOfFile { line: line_at(toks, st.idx), column: column_at(toks, st.idx) }))
            },
        }
    }
}

/// The buffer with its first `2 * offsets.len()` bytes replaced by the offsets,
/// each as a big-endian 16-bit value.
pub open spec fn patch_table(buf: Seq<u8>, offsets: Seq<int>) -> Seq<u8> {
    Seq::new(buf.len(), |k: int|
        if k < 2 * offsets.len() {
            if k % 2 == 0 { (offsets[k / 2] / 256) as u8 } else { (offsets[k / 2] % 256) as u8 }
        } else {
            buf[k]
        })
}

/// The state in which encoding starts, at the token `idx`.
pub open spec fn initial_state(idx: int) -> EncState {
    EncState { idx, octave: 4, duration: 0, warnings: Seq::empty() }
}

/// Closes the encoded channels with a final marker, checks that the buffer fits in
/// 16-bit addresses, and writes the channel offsets into the header table.
pub open spec fn finish_encoding(r: Result<(Seq<u8>, Seq<int>, EncState), Fault>) -> Result<(Seq<u8>, Seq<Warning>), Fault> {
    match r {
        Err(f) => Err(f),
        Ok((out, offsets, st)) => {
            let full = out.push(MARKER);
            if full.len() > 65535 {
                Err(Fault::Error(CompileError::AddressOverflow { size: full.len() as usize }))
            } else {
                Ok((patch_table(full, offsets), st.warnings))
            }
        },
    }
}

/// What compiling a token sequence gives: the byte buffer and the warnings, or a fault.
pub open spec fn compile_tokens(toks: Seq<TokenView>) -> Result<(Seq<u8>, Seq<Warning>), Fault> {
    let hc = header_total(toks);
    if hc > 254 {
        Err(Fault::Error(CompileError::TooManyHeaders { count: hc as usize }))
    } else if hc < 4 {
        Err(Fault::Error(CompileError::TooFewHeaders { count: hc as usize }))
    } else if kind_at(toks, 0) != TokenType::Arobase {
        Err(Fault::Error(CompileError::MissingLeadingHeader))
    } else {
        finish_encoding(encode_channels(toks, initial_state(1), hc as int, Seq::new(2 * hc, |k: int| 0u8), seq![2 * hc as int]))
    }
}

/// Header marks are counted over growing prefixes: the count never falls, and it
/// stays put over a stretch without header marks.
pub proof fn lemma_header_prefix(toks: Seq<TokenView>, a: int, b: int)
    requires
        0 <= a <= b <= toks.len(),
    ensures
        header_total(toks.take(a)) <= header_total(toks.take(b)),
        (forall|j: int| a <= j < b ==> #[trigger] toks[j].token_type != TokenType::Arobase)
            ==> header_total(toks.take(a)) == header_total(toks.take(b)),
    decreases b - a,
{
    if a < b {
        lemma_header_prefix(toks, a, b - 1);
        assert(toks.take(b).drop_last() =~= toks.take(b - 1));
    }
}

} // verus!
