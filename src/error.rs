use vstd::prelude::*;

verus! {

/// A lexical error: a character that starts no token.
#[derive(Debug, Clone, Copy, PartialEq, Eq, Structural)]
pub enum LexError {
    UnexpectedCharacter { ch: char, line: usize, column: usize },
}

/// Why a compilation failed. Positions are 1-based lines and 0-based columns.
#[derive(Debug, Clone, PartialEq, Eq)]
pub enum CompileError {
    /// More than 254 header marks; carries the count found.
    TooManyHeaders { count: usize },
    /// Fewer than 4 header marks; carries the count found.
    TooFewHeaders { count: usize },
    /// The first token is not a header mark.
    MissingLeadingHeader,
    /// The encoded program does not fit in 16-bit addresses; carries its size.
    AddressOverflow { size: usize },
    /// A loop reaches a header mark or the end of input before it closes;
    /// carries the position of the loop's opening bracket.
    UnterminatedLoop { line: usize, column: usize },
    UnexpectedEndOfFile { line: usize, column: usize },
    UnexpectedToken { line: usize, column: usize },
    /// A command argument is missing.
    ExpectedNumber { line: usize, column: usize },
    /// A number is not decimal digits, or, for a tempo, a loop count or a
    /// transpose, instrument or panning value, exceeds 255.
    InvalidNumber { line: usize, column: usize },
    OctaveUnderflow { line: usize, column: usize },
    OctaveOverflow { line: usize, column: usize },
    /// Octave numbers run from 1 to 5.
    InvalidOctave { line: usize, column: usize },
    /// Volumes run from 0 to 8.
    InvalidVolume { line: usize, column: usize },
    /// Durations are 1, 2, 4, 8, 16, 32, 64 or 128, all but 1 possibly dotted.
    InvalidDuration { line: usize, column: usize },
    /// A dotted whole note: the format defines no code for it.
    DottedWholeNote { line: usize, column: usize },
    /// Macro numbers run from 1 to the number of headers less 2; `macros` is that
    /// number less 1.
    InvalidMacro { macros: u8, line: usize, column: usize },
    /// The upper-cased name of a command that the table lacks.
    UnknownCommand { name: String, line: usize, column: usize },
}

/// The kinds of advisory warnings: commands that not every driver supports.
#[derive(Debug, Clone, Copy, PartialEq, Eq, Structural)]
pub enum WarningKind {
    Transpose,
    Instrument,
    Panning,
    Tie,
    Stop,
}

/// An advisory warning, at the position of the command that raised it.
#[derive(Debug, Clone, Copy, PartialEq, Eq, Structural)]
pub struct Warning {
    pub kind: WarningKind,
    pub line: usize,
    pub column: usize,
}

/// A compilation failure as the specification states it; an unknown command is
/// described by the view of its name.
pub enum Fault {
    Error(CompileError),
    UnknownCommand { name: Seq<char>, line: usize, column: usize },
}

/// An error value is the one a fault describes.
pub open spec fn error_matches(e: CompileError, f: Fault) -> bool {
    match f {
        Fault::Error(x) => e == x,
        Fault::UnknownCommand { name, line, column } => match e {
            CompileError::UnknownCommand { name: n, line: l, column: c } => n@ == name && l == line
                && c == column,
            _ => false,
        },
    }
}

} // verus!
