use vstd::prelude::*;
use crate::encoding::{find_duration_index, lookup_command, parse_decimal_capped, parse_decimal_u8, Command, INSTRUMENT, LOOP_CLOSE, LOOP_OPEN, MACRO_CALL, MARKER, PANNING, STOP, TEMPO, TIE, TRANSPOSE};
use crate::text::uppercase;
use crate::error::{error_matches, CompileError, Warning, WarningKind};
use crate::model::{finish_encoding, lemma_header_prefix, column_at, compile_tokens, encode_argument, encode_channels, encode_loop_body, encode_token, header_total, initial_state, kind_at, line_at, next_index, patch_table, read_duration, read_number, read_value, EncState, Unit};
use crate::token::{token_views, Token, TokenType, TokenView};

verus! {

/// An executable result agrees with what the model gives for a unit, `st` being
/// the encoder's state after it.
pub open spec fn unit_matches(r: Result<Vec<u8>, CompileError>, u: Unit, st: EncState) -> bool {
    match (r, u) {
        (Ok(v), Ok((b, s))) => v@ =~= b && st == s,
        (Err(e), Err(f)) => error_matches(e, f),
        _ => false,
    }
}

/// No header mark stands in `[a, b)`.
pub open spec fn no_headers(toks: Seq<TokenView>, a: int, b: int) -> bool {
    forall|j: int| a <= j < b ==> #[trigger] toks[j].token_type != TokenType::Arobase
}

/// Encodes a token sequence into the byte stream of a playback driver.
/// A compiler serves one compilation.
pub struct Compiler {
    tokens: Vec<Token>,
    current_index: usize,
    current_octave: u8,
    current_duration: u8,
    num_of_headers: u8,
    warnings: Vec<Warning>,
}

impl Compiler {
    pub closed spec fn tokens_view(&self) -> Seq<TokenView> {
        token_views(self.tokens@)
    }

    pub closed spec fn state(&self) -> EncState {
        EncState {
            idx: self.current_index as int,
            octave: self.current_octave,
            duration: self.current_duration,
            warnings: self.warnings@,
        }
    }

    /// Not yet used: at the first token, octave 4, duration code 0, no warnings.
    pub open spec fn fresh(&self) -> bool {
        self.state() == initial_state(0)
    }

    closed spec fn wf(&self) -> bool {
        &&& self.current_index <= self.tokens.len()
        &&& 1 <= self.current_octave <= 5
        &&& self.current_duration < 16
    }

    closed spec fn same_program(&self, other: &Compiler) -> bool {
        self.tokens@ == other.tokens@ && self.num_of_headers == other.num_of_headers
    }

    pub fn new(tokens: Vec<Token>) -> (r: Compiler)
        ensures
            r.tokens_view() == token_views(tokens@),
            r.fresh(),
    {
        Compiler {
            tokens,
            current_index: 0,
            current_octave: 4,
            current_duration: 0,
            num_of_headers: 0,
            warnings: Vec::new(),
        }
    }

    /// The warnings raised so far.
    pub fn warnings(&self) -> (r: &Vec<Warning>)
        ensures
            r@ == self.state().warnings,
    {
        &self.warnings
    }

    fn kind(&self) -> (r: TokenType)
        ensures
            r == kind_at(self.tokens_view(), self.current_index as int),
    {
        if self.current_index < self.tokens.len() {
            self.tokens[self.current_index].token_type
        } else {
            TokenType::EndOfFile
        }
    }

    fn position(&self) -> (r: (usize, usize))
        ensures
            r.0 == line_at(self.tokens_view(), self.current_index as int),
            r.1 == column_at(self.tokens_view(), self.current_index as int),
    {
        let n = self.tokens.len();
        if self.current_index < n {
            (self.tokens[self.current_index].line, self.tokens[self.current_index].column)
        } else if n > 0 {
            (self.tokens[n - 1].line, self.tokens[n - 1].column)
        } else {
            (1, 0)
        }
    }

    fn is_end_of_file(&self) -> (r: bool)
        ensures
            r == (kind_at(self.tokens_view(), self.current_index as int) == TokenType::EndOfFile),
    {
        self.kind() == TokenType::EndOfFile
    }

    fn advance(&mut self)
        requires
            old(self).wf(),
        ensures
            final(self).wf(),
            final(self).same_program(old(self)),
            final(self).state() == (EncState { idx: next_index(old(self).tokens_view(), old(self).current_index as int), ..old(self).state() }),
    {
        if self.current_index < self.tokens.len()
            && self.tokens[self.current_index].token_type != TokenType::EndOfFile {
            self.current_index = self.current_index + 1;
        }
    }

    fn compile_number(&mut self) -> (r: Result<u8, CompileError>)
        requires
            old(self).wf(),
        ensures
            final(self).wf(),
            final(self).same_program(old(self)),
            match (r, read_number(old(self).tokens_view(), old(self).current_index as int)) {
                (Ok(n), Ok((m, j))) => n == m && final(self).state() == (EncState { idx: j, ..old(self).state() }),
                (Err(e), Err(f)) => error_matches(e, f),
                _ => false,
            },
            r is Ok ==> no_headers(old(self).tokens_view(), old(self).current_index as int, final(self).current_index as int),
            r is Err ==> final(self).state() == old(self).state(),
    {
        if self.kind() != TokenType::Number {
            let (line, column) = self.position();
            return Err(CompileError::ExpectedNumber { line, column });
        }
        match parse_decimal_u8(self.tokens[self.current_index].value.as_str()) {
            Some(n) => {
                self.advance();
                Ok(n)
            },
            None => {
                let (line, column) = self.position();
                Err(CompileError::InvalidNumber { line, column })
            },
        }
    }

    /// Reads a number argument that the command checks against its own range; a
    /// value above 255 comes back as 256.
    fn compile_value(&mut self) -> (r: Result<u16, CompileError>)
        requires
            old(self).wf(),
        ensures
            final(self).wf(),
            final(self).same_program(old(self)),
            match (r, read_value(old(self).tokens_view(), old(self).current_index as int)) {
                (Ok(n), Ok((m, j))) => n == m && final(self).state() == (EncState { idx: j, ..old(self).state() }),
                (Err(e), Err(f)) => error_matches(e, f),
                _ => false,
            },
            r is Ok ==> no_headers(old(self).tokens_view(), old(self).current_index as int, final(self).current_index as int),
            r is Err ==> final(self).state() == old(self).state(),
    {
        if self.kind() != TokenType::Number {
            let (line, column) = self.position();
            return Err(CompileError::ExpectedNumber { line, column });
        }
        match parse_decimal_capped(self.tokens[self.current_index].value.as_str()) {
            Some(n) => {
                self.advance();
                Ok(n)
            },
            None => {
                let (line, column) = self.position();
                Err(CompileError::InvalidNumber { line, column })
            },
        }
    }

    fn compile_duration_number(&mut self) -> (r: Result<u8, CompileError>)
        requires
            old(self).wf(),
        ensures
            final(self).wf(),
            final(self).same_program(old(self)),
            match (r, read_duration(old(self).tokens_view(), old(self).current_index as int)) {
                (Ok(n), Ok((m, j))) => n == m && final(self).state() == (EncState { idx: j, ..old(self).state() }),
                (Err(e), Err(f)) => error_matches(e, f),
                _ => false,
            },
            r is Ok ==> r->Ok_0 < 16 && no_headers(old(self).tokens_view(), old(self).current_index as int, final(self).current_index as int),
            final(self).current_octave == old(self).current_octave,
            final(self).current_duration == old(self).current_duration,
            final(self).warnings@ == old(self).warnings@,
    {
        let (line, column) = self.position();
        let number = match self.compile_value() {
            Ok(n) => n,
            Err(e) => return Err(e),
        };
        match find_duration_index(number) {
            None => Err(CompileError::InvalidDuration { line, column }),
            Some(index) => {
                if self.kind() == TokenType::Dot {
                    if index == 0 {
                        return Err(CompileError::DottedWholeNote { line, column });
                    }
                    self.advance();
                    let low: u8 = index - 1;
                    let code: u8 = 0x08u8 | low;
                    assert(code < 16) by (bit_vector)
                        requires code == 0x08u8 | low, low < 8;
                    Ok(code)
                } else {
                    Ok(index)
                }
            },
        }
    }

    fn compile_argument(&mut self, command: Command, line: usize, column: usize) -> (r: Result<Vec<u8>, CompileError>)
        requires
            old(self).wf(),
            old(self).num_of_headers >= 4,
            command matches Command::Note(base) ==> base <= 0xC0,
        ensures
            final(self).wf(),
            final(self).same_program(old(self)),
            unit_matches(r, encode_argument(old(self).tokens_view(), command, old(self).state(), old(self).num_of_headers as int, line, column), final(self).state()),
            r is Ok ==> old(self).current_index <= final(self).current_index
                && no_headers(old(self).tokens_view(), old(self).current_index as int, final(self).current_index as int),
            r is Err ==> final(self).current_octave == old(self).current_octave
                && final(self).current_duration == old(self).current_duration
                && final(self).warnings@ == old(self).warnings@,
    {
        match command {
            Command::Note(base) => {
                if self.kind() == TokenType::Number {
                    match self.compile_duration_number() {
                        Ok(duration) => {
                            self.current_duration = duration;
                            Ok(vec![base | duration])
                        },
                        Err(e) => Err(e),
                    }
                } else {
                    Ok(vec![base | self.current_duration])
                }
            },
            Command::Tie => {
                self.warnings.push(Warning { kind: WarningKind::Tie, line, column });
                Ok(vec![TIE])
            },
            Command::Stop => {
                self.warnings.push(Warning { kind: WarningKind::Stop, line, column });
                Ok(vec![STOP])
            },
            Command::Octave => {
                let (nline, ncolumn) = self.position();
                let number = match self.compile_value() {
                    Ok(n) => n,
                    Err(e) => return Err(e),
                };
                if 1 <= number && number <= 5 {
                    let octave: u8 = number as u8;
                    self.current_octave = octave;
                    let low: u8 = octave - 1;
                    Ok(vec![0xD0u8 | low])
                } else {
                    Err(CompileError::InvalidOctave { line: nline, column: ncolumn })
                }
            },
            Command::Volume => {
                let (nline, ncolumn) = self.position();
                let number = match self.compile_value() {
                    Ok(n) => n,
                    Err(e) => return Err(e),
                };
                if number < 9 {
                    let low: u8 = 9 - (number as u8);
                    Ok(vec![0xE0u8 | low])
                } else {
                    Err(CompileError::InvalidVolume { line: nline, column: ncolumn })
                }
            },
            Command::Macro => {
                let (nline, ncolumn) = self.position();
                let number = match self.compile_value() {
                    Ok(n) => n,
                    Err(e) => return Err(e),
                };
                let macros: u8 = self.num_of_headers - 3;
                if 1 <= number && number - 1 <= macros as u16 {
                    let id: u8 = (number - 1) as u8;
                    Ok(vec![MACRO_CALL, id])
                } else {
                    Err(CompileError::InvalidMacro { macros, line: nline, column: ncolumn })
                }
            },
            Command::Tempo => {
                match self.compile_number() {
                    Ok(n) => Ok(vec![TEMPO, n]),
                    Err(e) => Err(e),
                }
            },
            Command::Transpose => {
                match self.compile_number() {
                    Ok(n) => {
                        self.warnings.push(Warning { kind: WarningKind::Transpose, line, column });
                        Ok(vec![TRANSPOSE, n])
                    },
                    Err(e) => Err(e),
                }
            },
            Command::Instrument => {
                match self.compile_number() {
                    Ok(n) => {
                        self.warnings.push(Warning { kind: WarningKind::Instrument, line, column });
                        Ok(vec![INSTRUMENT, n])
                    },
                    Err(e) => Err(e),
                }
            },
            Command::Panning => {
                match self.compile_number() {
                    Ok(n) => {
                        self.warnings.push(Warning { kind: WarningKind::Panning, line, column });
                        Ok(vec![PANNING, n])
                    },
                    Err(e) => Err(e),
                }
            },
        }
    }

    fn compile_command(&mut self) -> (r: Result<Vec<u8>, CompileError>)
        requires
            old(self).wf(),
            old(self).num_of_headers >= 4,
            kind_at(old(self).tokens_view(), old(self).current_index as int) == TokenType::Command,
        ensures
            final(self).wf(),
            final(self).same_program(old(self)),
            unit_matches(r, encode_token(old(self).tokens_view(), old(self).state(), old(self).num_of_headers as int), final(self).state()),
            r is Ok ==> old(self).current_index < final(self).current_index
                && no_headers(old(self).tokens_view(), old(self).current_index as int, final(self).current_index as int),
    {
        let (line, column) = self.position();
        let name = uppercase(&self.tokens[self.current_index].value);
        self.advance();
        match lookup_command(name.as_str()) {
            Some(command) => self.compile_argument(command, line, column),
            None => Err(CompileError::UnknownCommand { name, line, column }),
        }
    }

    fn compile_loop(&mut self) -> (r: Result<Vec<u8>, CompileError>)
        requires
            old(self).wf(),
            old(self).num_of_headers >= 4,
            kind_at(old(self).tokens_view(), old(self).current_index as int) == TokenType::LeftParen,
        ensures
            final(self).wf(),
            final(self).same_program(old(self)),
            unit_matches(r, encode_token(old(self).tokens_view(), old(self).state(), old(self).num_of_headers as int), final(self).state()),
            r is Ok ==> old(self).current_index < final(self).current_index
                && no_headers(old(self).tokens_view(), old(self).current_index as int, final(self).current_index as int),
        decreases old(self).tokens@.len() - old(self).current_index, 0int,
    {
        let ghost toks = self.tokens_view();
        let ghost hc = self.num_of_headers as int;
        let ghost start = self.current_index as int;
        let (line, column) = self.position();
        self.advance();
        let times = match self.compile_number() {
            Ok(n) => n,
            Err(e) => return Err(e),
        };
        let mut result: Vec<u8> = vec![LOOP_OPEN, times];
        assert(result@ =~= seq![LOOP_OPEN, times]);
        let ghost body = encode_loop_body(toks, self.state(), hc, start, result@);
        assert(encode_token(toks, old(self).state(), hc) == body);
        loop
            invariant
                self.wf(),
                self.tokens_view() == toks,
                self.tokens@ == old(self).tokens@,
                self.num_of_headers == old(self).num_of_headers,
                self.num_of_headers == hc,
                hc >= 4,
                start == old(self).current_index,
                start < self.current_index,
                line == line_at(toks, start),
                column == column_at(toks, start),
                no_headers(toks, start, self.current_index as int),
                encode_loop_body(toks, self.state(), hc, start, result@) == body,
                encode_token(toks, old(self).state(), hc) == body,
            decreases self.tokens@.len() - self.current_index,
        {
            match self.kind() {
                TokenType::RightParen => {
                    self.advance();
                    result.push(LOOP_CLOSE);
                    return Ok(result);
                },
                TokenType::Arobase => {
                    return Err(CompileError::UnterminatedLoop { line, column });
                },
                _ => {
                    let mut bytes = match self.compile_token() {
                        Ok(b) => b,
                        Err(e) => return Err(e),
                    };
                    result.append(&mut bytes);
                    if self.is_end_of_file() {
                        return Err(CompileError::UnterminatedLoop { line, column });
                    }
                },
            }
        }
    }

    fn compile_token(&mut self) -> (r: Result<Vec<u8>, CompileError>)
        requires
            old(self).wf(),
            old(self).num_of_headers >= 4,
        ensures
            final(self).wf(),
            final(self).same_program(old(self)),
            unit_matches(r, encode_token(old(self).tokens_view(), old(self).state(), old(self).num_of_headers as int), final(self).state()),
            r is Ok ==> old(self).current_index < final(self).current_index,
            1 <= final(self).current_octave <= 5,
            r is Ok && kind_at(old(self).tokens_view(), old(self).current_index as int) != TokenType::Arobase
                ==> no_headers(old(self).tokens_view(), old(self).current_index as int, final(self).current_index as int),
        decreases old(self).tokens@.len() - old(self).current_index, 1int,
    {
        match self.kind() {
            TokenType::Arobase => {
                self.advance();
                Ok(vec![MARKER])
            },
            TokenType::LessThan => {
                if self.current_octave <= 1 {
                    let (line, column) = self.position();
                    return Err(CompileError::OctaveUnderflow { line, column });
                }
                self.current_octave = self.current_octave - 1;
                self.advance();
                if self.kind() == TokenType::LessThan {
                    return self.compile_token();
                }
                let low: u8 = self.current_octave - 1;
                Ok(vec![0xD0u8 | low])
            },
            TokenType::GreaterThan => {
                if self.current_octave >= 5 {
                    let (line, column) = self.position();
                    return Err(CompileError::OctaveOverflow { line, column });
                }
                self.current_octave = self.current_octave + 1;
                self.advance();
                if self.kind() == TokenType::GreaterThan {
                    return self.compile_token();
                }
                let low: u8 = self.current_octave - 1;
                Ok(vec![0xD0u8 | low])
            },
            TokenType::LeftParen => self.compile_loop(),
            TokenType::Command => self.compile_command(),
            TokenType::EndOfFile => {
                let (line, column) = self.position();
                Err(CompileError::UnexpectedEndOfFile { line, column })
            },
            _ => {
                let (line, column) = self.position();
                Err(CompileError::UnexpectedToken { line, column })
            },
        }
    }

    /// Compiles the whole token sequence: the header table, then each channel's
    /// bytes, each channel after the first opened by a marker byte, and a final
    /// marker.
    pub fn compile(&mut self) -> (r: Result<Vec<u8>, CompileError>)
        requires
            old(self).fresh(),
        ensures
            match (r, compile_tokens(old(self).tokens_view())) {
                (Ok(v), Ok((b, w))) => v@ == b && final(self).state().warnings == w,
                (Err(e), Err(f)) => error_matches(e, f),
                _ => false,
            },
    {
        let ghost toks = self.tokens_view();
        let mut count: usize = 0;
        let mut i: usize = 0;
        while i < self.tokens.len()
            invariant
                i <= self.tokens.len(),
                count <= i,
                toks == self.tokens_view(),
                old(self).tokens_view() == toks,
                self.tokens@ == old(self).tokens@,
                self.state() == old(self).state(),
                count == header_total(toks.take(i as int)),
            decreases self.tokens.len() - i,
        {
            proof {
                assert(toks.take(i + 1).drop_last() =~= toks.take(i as int));
            }
            if self.tokens[i].token_type == TokenType::Arobase {
                count = count + 1;
            }
            i = i + 1;
        }
        assert(toks.take(i as int) =~= toks);
        if count > 254 {
            return Err(CompileError::TooManyHeaders { count });
        }
        if count < 4 {
            return Err(CompileError::TooFewHeaders { count });
        }
        self.num_of_headers = count as u8;
        let table: usize = 2 * count;
        let mut result: Vec<u8> = Vec::new();
        let mut k: usize = 0;
        while k < table
            invariant
                k <= table,
                result@ =~= Seq::new(k as nat, |x: int| 0u8),
            decreases table - k,
        {
            result.push(0);
            k = k + 1;
        }
        if self.kind() != TokenType::Arobase {
            return Err(CompileError::MissingLeadingHeader);
        }
        self.advance();
        let mut offsets: Vec<usize> = vec![table];
        let ghost hc = count as int;
        assert(offsets@.map_values(|x: usize| x as int) =~= seq![2 * hc]);
        assert(toks.take(1).drop_last() =~= toks.take(0));
        assert(header_total(toks.take(0)) == 0);
        assert(header_total(toks.take(1)) == 1);
        let ghost run = encode_channels(toks, self.state(), hc, result@, offsets@.map_values(|x: usize| x as int));
        assert(self.state() == initial_state(1));
        assert(run == encode_channels(toks, initial_state(1), hc, Seq::new((2 * hc) as nat, |x: int| 0u8), seq![2 * hc]));
        assert(compile_tokens(toks) == finish_encoding(run));
        while !self.is_end_of_file()
            invariant
                self.wf(),
                self.tokens_view() == toks,
                old(self).tokens_view() == toks,
                self.num_of_headers == count,
                hc == count as int,
                table == 2 * count,
                4 <= count <= 254,
                header_total(toks) == count,
                kind_at(toks, 0) == TokenType::Arobase,
                compile_tokens(toks) == finish_encoding(run),
                1 <= self.current_index,
                encode_channels(toks, self.state(), hc, result@, offsets@.map_values(|x: usize| x as int)) == run,
                offsets@.len() == header_total(toks.take(self.current_index as int)),
                table <= result.len(),
                forall|j: int| 0 <= j < offsets@.len() ==> #[trigger] offsets@[j] <= result.len(),
            decreases self.tokens@.len() - self.current_index,
        {
            let ghost before = self.current_index as int;
            let ghost out = result@;
            let ghost offs = offsets@.map_values(|x: usize| x as int);
            let at_header = self.kind() == TokenType::Arobase;
            let mut bytes = match self.compile_token() {
                Ok(b) => b,
                Err(e) => return Err(e),
            };
            result.append(&mut bytes);
            if at_header {
                offsets.push(result.len());
                proof {
                    assert(toks.take(before + 1).drop_last() =~= toks.take(before));
                    assert(offsets@.map_values(|x: usize| x as int) =~= offs.push(out.len() as int + 1));
                }
            } else {
                proof {
                    lemma_header_prefix(toks, before, self.current_index as int);
                }
            }
        }
        proof {
            lemma_header_prefix(toks, self.current_index as int, toks.len() as int);
            assert(toks.take(toks.len() as int) =~= toks);
        }
        result.push(MARKER);
        if result.len() > 65535 {
            return Err(CompileError::AddressOverflow { size: result.len() });
        }
        let ghost full = result@;
        let ghost offs = offsets@.map_values(|x: usize| x as int);
        let mut j: usize = 0;
        while j < offsets.len()
            invariant
                j <= offsets.len(),
                2 * offsets.len() <= full.len(),
                full.len() <= 65535,
                offs == offsets@.map_values(|x: usize| x as int),
                forall|m: int| 0 <= m < offsets@.len() ==> #[trigger] offsets@[m] <= full.len(),
                result@ =~= Seq::new(full.len(), |x: int|
                    if x < 2 * j {
                        if x % 2 == 0 { (offs[x / 2] / 256) as u8 } else { (offs[x / 2] % 256) as u8 }
                    } else {
                        full[x]
                    }),
            decreases offsets.len() - j,
        {
            let pos: usize = offsets[j];
            let high: u8 = (pos >> 8) as u8;
            let low: u8 = (pos & 0xFF) as u8;
            assert(high == (pos / 256) as u8 && low == (pos % 256) as u8) by (bit_vector)
                requires high == (pos >> 8) as u8, low == (pos & 0xFF) as u8, pos <= 65535;
            result.set(2 * j, high);
            result.set(2 * j + 1, low);
            j = j + 1;
        }
        assert(result@ =~= patch_table(full, offs));
        Ok(result)
    }
}

} // verus!
