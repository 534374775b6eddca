use vstd::prelude::*;
use crate::error::LexError;
use crate::text::{chars_of, string_of};
use crate::token::{token_views, Token, TokenType, TokenView};

verus! {

/// Whether `char::is_alphabetic` holds of a character (the Unicode Alphabetic property).
pub uninterp spec fn alphabetic(c: char) -> bool;

/// Whether `char::is_numeric` holds of a character (a Unicode numeric category).
pub uninterp spec fn numeric(c: char) -> bool;

/// A character of the notation's own: a symbol, a comment mark or a sharp marker.
pub open spec fn notation_symbol(c: char) -> bool {
    c == '<' || c == '>' || c == '[' || c == ']' || c == '@' || c == '.' || c == '&' || c == '%'
        || c == '+' || c == '#'
}

pub open spec fn ascii_letter(c: char) -> bool {
    ('a' <= c && c <= 'z') || ('A' <= c && c <= 'Z')
}

/// Relies on `char::is_alphabetic`. ASCII letters have the Alphabetic property;
/// ASCII digits and the notation's symbols do not.
#[verifier::external_body]
fn is_alphabetic(c: char) -> (r: bool)
    ensures
        r == alphabetic(c),
        ascii_letter(c) ==> r,
        ('0' <= c && c <= '9') || notation_symbol(c) ==> !r,
{
    c.is_alphabetic()
}

/// Relies on `char::is_numeric`. ASCII digits are numeric; ASCII letters and the
/// notation's symbols are not.
#[verifier::external_body]
fn is_numeric(c: char) -> (r: bool)
    ensures
        r == numeric(c),
        '0' <= c && c <= '9' ==> r,
        ascii_letter(c) || notation_symbol(c) ==> !r,
{
    c.is_numeric()
}

/// Whether a character has the Unicode White_Space property, which is what
/// `char::is_whitespace` tests.
pub open spec fn whitespace(c: char) -> bool {
    ('\u{9}' <= c && c <= '\u{d}') || c == ' ' || c == '\u{85}' || c == '\u{a0}' || c == '\u{1680}'
        || ('\u{2000}' <= c && c <= '\u{200a}') || c == '\u{2028}' || c == '\u{2029}' || c == '\u{202f}'
        || c == '\u{205f}' || c == '\u{3000}'
}

fn is_whitespace(c: char) -> (r: bool)
    ensures
        r == whitespace(c),
{
    ('\u{9}' <= c && c <= '\u{d}') || c == ' ' || c == '\u{85}' || c == '\u{a0}' || c == '\u{1680}'
        || ('\u{2000}' <= c && c <= '\u{200a}') || c == '\u{2028}' || c == '\u{2029}' || c == '\u{202f}'
        || c == '\u{205f}' || c == '\u{3000}'
}

/// The line of the character at `i`: one more than the newlines before it.
pub open spec fn line_of(s: Seq<char>, i: int) -> int
    decreases i,
{
    if i <= 0 || i > s.len() {
        1
    } else {
        line_of(s, i - 1) + (if s[i - 1] == '\n' { 1int } else { 0int })
    }
}

/// The column of the character at `i`: the characters since the last newline.
pub open spec fn column_of(s: Seq<char>, i: int) -> int
    decreases i,
{
    if i <= 0 || i > s.len() {
        0
    } else if s[i - 1] == '\n' {
        0
    } else {
        column_of(s, i - 1) + 1
    }
}

/// The kind of a token made of one symbol; `&`, the tie, is a command of one character.
pub open spec fn symbol_kind(c: char) -> Option<TokenType> {
    if c == '<' { Some(TokenType::LessThan) }
    else if c == '>' { Some(TokenType::GreaterThan) }
    else if c == '[' { Some(TokenType::LeftParen) }
    else if c == ']' { Some(TokenType::RightParen) }
    else if c == '@' { Some(TokenType::Arobase) }
    else if c == '.' { Some(TokenType::Dot) }
    else if c == '&' { Some(TokenType::Command) }
    else { None }
}

/// The token with text `s[a..b]` of the given kind, placed at `a`.
pub open spec fn token_at(s: Seq<char>, a: int, b: int, kind: TokenType) -> TokenView {
    TokenView { value: s.subrange(a, b), token_type: kind, line: line_of(s, a) as usize, column: column_of(s, a) as usize }
}

pub open spec fn prepend(t: TokenView, r: Result<Seq<TokenView>, LexError>) -> Result<Seq<TokenView>, LexError> {
    match r {
        Ok(ts) => Ok(seq![t] + ts),
        Err(e) => Err(e),
    }
}

/// The tokens of `s` from `i` on, without the end-of-file token.
pub open spec fn lex_from(s: Seq<char>, i: int) -> Result<Seq<TokenView>, LexError>
    decreases s.len() - i, 0int,
{
    if i < 0 || i >= s.len() {
        Ok(Seq::empty())
    } else {
        let c = s[i];
        if whitespace(c) {
            lex_from(s, i + 1)
        } else if c == '%' {
            lex_comment(s, i + 1)
        } else if symbol_kind(c) is Some {
            prepend(token_at(s, i, i + 1, symbol_kind(c)->Some_0), lex_from(s, i + 1))
        } else if alphabetic(c) {
            if i + 1 < s.len() && (s[i + 1] == '+' || s[i + 1] == '#') {
                prepend(token_at(s, i, i + 2, TokenType::Command), lex_from(s, i + 2))
            } else {
                prepend(token_at(s, i, i + 1, TokenType::Command), lex_from(s, i + 1))
            }
        } else if numeric(c) {
            lex_number(s, i, i + 1)
        } else {
            Err(LexError::UnexpectedCharacter { ch: c, line: line_of(s, i) as usize, column: column_of(s, i) as usize })
        }
    }
}

/// The tokens after a comment that runs on at `j`, up to the end of its line.
pub open spec fn lex_comment(s: Seq<char>, j: int) -> Result<Seq<TokenView>, LexError>
    decreases s.len() - j, 1int,
{
    if j < 0 || j >= s.len() || s[j] == '\n' {
        lex_from(s, j)
    } else {
        lex_comment(s, j + 1)
    }
}

/// The tokens from a number that started at `start` and runs on at `j`.
pub open spec fn lex_number(s: Seq<char>, start: int, j: int) -> Result<Seq<TokenView>, LexError>
    decreases s.len() - j, 1int,
{
    if 0 <= j < s.len() && numeric(s[j]) {
        lex_number(s, start, j + 1)
    } else {
        prepend(token_at(s, start, j, TokenType::Number), lex_from(s, j))
    }
}

/// The end-of-file token: placed at the last character, or at line 1, column 0
/// for an empty text.
pub open spec fn end_token(s: Seq<char>) -> TokenView {
    TokenView {
        value: Seq::empty(),
        token_type: TokenType::EndOfFile,
        line: line_of(s, s.len() - 1) as usize,
        column: column_of(s, s.len() - 1) as usize,
    }
}

/// The tokens of a whole text, closed by exactly one end-of-file token.
pub open spec fn lex(s: Seq<char>) -> Result<Seq<TokenView>, LexError> {
    match lex_from(s, 0) {
        Ok(ts) => Ok(ts.push(end_token(s))),
        Err(e) => Err(e),
    }
}

/// The tokens already produced, then what lexing the rest gives.
pub open spec fn glue(p: Seq<TokenView>, r: Result<Seq<TokenView>, LexError>) -> Result<Seq<TokenView>, LexError> {
    match r {
        Ok(ts) => Ok(p + ts),
        Err(e) => Err(e),
    }
}

proof fn lemma_glue_prepend(p: Seq<TokenView>, t: TokenView, r: Result<Seq<TokenView>, LexError>)
    ensures
        glue(p, prepend(t, r)) == glue(p.push(t), r),
{
    if let Ok(ts) = r {
        assert(p + (seq![t] + ts) =~= p.push(t) + ts);
    }
}

proof fn lemma_position_bounds(s: Seq<char>, i: int)
    requires
        0 <= i <= s.len(),
    ensures
        1 <= line_of(s, i) <= i + 1,
        0 <= column_of(s, i) <= i,
    decreases i,
{
    if i > 0 {
        lemma_position_bounds(s, i - 1);
    }
}

/// Splits a source text into tokens.
pub struct Lexer {
    source: Vec<char>,
    current_index: usize,
    current_line: usize,
    current_column: usize,
}

impl Lexer {
    pub closed spec fn source_view(&self) -> Seq<char> {
        self.source@
    }

    /// Not yet used: at the first character.
    pub closed spec fn fresh(&self) -> bool {
        self.current_index == 0 && self.current_line == 1 && self.current_column == 0
    }

    /// The position kept is that of the current character, or of the last one
    /// once the text is used up.
    closed spec fn wf(&self) -> bool {
        let s = self.source@;
        let at = if self.current_index < s.len() { self.current_index as int } else { s.len() - 1 };
        &&& self.current_index <= s.len()
        &&& self.current_line == line_of(s, at)
        &&& self.current_column == column_of(s, at)
    }

    pub fn new(source_code: String) -> (r: Lexer)
        ensures
            r.source_view() == source_code@,
            r.fresh(),
    {
        Lexer { source: chars_of(&source_code), current_index: 0, current_line: 1, current_column: 0 }
    }

    fn is_end_of_file(&self) -> (r: bool)
        ensures
            r == (self.current_index >= self.source@.len()),
    {
        self.current_index >= self.source.len()
    }

    /// Moves to the next character; the position moves only while a next one exists.
    fn advance(&mut self)
        requires
            old(self).wf(),
            old(self).current_index < old(self).source@.len(),
        ensures
            final(self).wf(),
            final(self).source@ == old(self).source@,
            final(self).current_index == old(self).current_index + 1,
    {
        proof {
            lemma_position_bounds(self.source@, self.current_index as int);
        }
        let n = self.source.len();
        if self.current_index < n - 1 {
            if self.source[self.current_index] == '\n' {
                self.current_line = self.current_line + 1;
                self.current_column = 0;
            } else {
                self.current_column = self.current_column + 1;
            }
        }
        self.current_index = self.current_index + 1;
    }

    fn current_char(&self) -> (r: char)
        requires
            self.current_index < self.source@.len(),
        ensures
            r == self.source@[self.current_index as int],
    {
        self.source[self.current_index]
    }

    fn skip_whitespace(&mut self)
        requires
            old(self).wf(),
        ensures
            final(self).wf(),
            final(self).source@ == old(self).source@,
            old(self).current_index <= final(self).current_index,
            lex_from(old(self).source@, old(self).current_index as int) == lex_from(final(self).source@, final(self).current_index as int),
            final(self).current_index < final(self).source@.len() ==> !whitespace(final(self).source@[final(self).current_index as int]),
    {
        while !self.is_end_of_file() && is_whitespace(self.current_char())
            invariant
                self.wf(),
                self.source@ == old(self).source@,
                old(self).current_index <= self.current_index,
                lex_from(old(self).source@, old(self).current_index as int) == lex_from(self.source@, self.current_index as int),
            decreases self.source@.len() - self.current_index,
        {
            self.advance();
        }
    }

    /// Skips a comment, from its `%` up to the end of its line.
    fn skip_line(&mut self)
        requires
            old(self).wf(),
            old(self).current_index < old(self).source@.len(),
            old(self).source@[old(self).current_index as int] == '%',
        ensures
            final(self).wf(),
            final(self).source@ == old(self).source@,
            old(self).current_index < final(self).current_index,
            lex_from(old(self).source@, old(self).current_index as int) == lex_from(final(self).source@, final(self).current_index as int),
    {
        self.advance();
        while !self.is_end_of_file() && self.current_char() != '\n'
            invariant
                self.wf(),
                self.source@ == old(self).source@,
                old(self).current_index < self.current_index,
                lex_from(old(self).source@, old(self).current_index as int) == lex_comment(self.source@, self.current_index as int),
            decreases self.source@.len() - self.current_index,
        {
            self.advance();
        }
    }

    /// The one-character token at the current character, moving past it.
    fn token_char_advance(&mut self, token_type: TokenType) -> (r: Token)
        requires
            old(self).wf(),
            old(self).current_index < old(self).source@.len(),
        ensures
            final(self).wf(),
            final(self).source@ == old(self).source@,
            final(self).current_index == old(self).current_index + 1,
            r@ == token_at(old(self).source@, old(self).current_index as int, old(self).current_index + 1, token_type),
    {
        let ghost s = self.source@;
        let ghost i = self.current_index as int;
        let value = vec![self.current_char()];
        assert(value@ =~= s.subrange(i, i + 1));
        let token = Token::new(string_of(&value), token_type, self.current_line, self.current_column);
        self.advance();
        token
    }

    /// The command token at the current letter: the letter and an optional sharp marker.
    fn scan_command(&mut self) -> (r: Token)
        requires
            old(self).wf(),
            old(self).current_index < old(self).source@.len(),
        ensures
            final(self).wf(),
            final(self).source@ == old(self).source@,
            old(self).current_index < final(self).current_index,
            ({
                let s = old(self).source@;
                let i = old(self).current_index as int;
                let e = if i + 1 < s.len() && (s[i + 1] == '+' || s[i + 1] == '#') { i + 2 } else { i + 1 };
                final(self).current_index == e && r@ == token_at(s, i, e, TokenType::Command)
            }),
    {
        let ghost s = self.source@;
        let ghost i = self.current_index as int;
        let mut value: Vec<char> = vec![self.current_char()];
        let line = self.current_line;
        let column = self.current_column;
        self.advance();
        if !self.is_end_of_file() {
            let c = self.current_char();
            if c == '+' || c == '#' {
                value.push(c);
                self.advance();
            }
        }
        assert(value@ =~= s.subrange(i, self.current_index as int));
        Token::new(string_of(&value), TokenType::Command, line, column)
    }

    /// The number token at the current numeric character: the longest run of them.
    fn scan_number(&mut self) -> (r: Token)
        requires
            old(self).wf(),
            old(self).current_index < old(self).source@.len(),
        ensures
            final(self).wf(),
            final(self).source@ == old(self).source@,
            old(self).current_index < final(self).current_index,
            lex_number(old(self).source@, old(self).current_index as int, old(self).current_index + 1)
                == prepend(r@, lex_from(final(self).source@, final(self).current_index as int)),
    {
        let ghost s = self.source@;
        let ghost i = self.current_index as int;
        let mut value: Vec<char> = vec![self.current_char()];
        let line = self.current_line;
        let column = self.current_column;
        self.advance();
        while !self.is_end_of_file() && is_numeric(self.current_char())
            invariant
                self.wf(),
                self.source@ == s,
                0 <= i < self.current_index,
                value@ =~= s.subrange(i, self.current_index as int),
                lex_number(s, i, i + 1) == lex_number(s, i, self.current_index as int),
            decreases self.source@.len() - self.current_index,
        {
            let ghost j = self.current_index as int;
            let c = self.current_char();
            value.push(c);
            assert(value@ =~= s.subrange(i, j + 1));
            self.advance();
        }
        Token::new(string_of(&value), TokenType::Number, line, column)
    }

    /// Splits the whole text into tokens, closed by one end-of-file token.
    pub fn tokenize(&mut self) -> (r: Result<Vec<Token>, LexError>)
        requires
            old(self).fresh(),
        ensures
            match (r, lex(old(self).source_view())) {
                (Ok(v), Ok(ts)) => token_views(v@) == ts,
                (Err(e), Err(x)) => e == x,
                _ => false,
            },
    {
        let ghost s = self.source@;
        let mut result: Vec<Token> = Vec::new();
        assert(token_views(result@) =~= Seq::<TokenView>::empty());
        assert(glue(Seq::empty(), lex_from(s, 0)) == lex_from(s, 0)) by {
            if let Ok(ts) = lex_from(s, 0) {
                assert(Seq::<TokenView>::empty() + ts =~= ts);
            }
        }
        while !self.is_end_of_file()
            invariant
                self.wf(),
                self.source@ == s,
                s == old(self).source@,
                lex_from(s, 0) == glue(token_views(result@), lex_from(s, self.current_index as int)),
            ensures
                self.wf(),
                self.source@ == s,
                self.current_index >= s.len(),
                lex_from(s, 0) == glue(token_views(result@), lex_from(s, self.current_index as int)),
            decreases self.source@.len() - self.current_index,
        {
            self.skip_whitespace();
            if self.is_end_of_file() {
                break;
            }
            let ghost i = self.current_index as int;
            let ghost before = token_views(result@);
            let c = self.current_char();
            let token = if c == '<' {
                self.token_char_advance(TokenType::LessThan)
            } else if c == '>' {
                self.token_char_advance(TokenType::GreaterThan)
            } else if c == '[' {
                self.token_char_advance(TokenType::LeftParen)
            } else if c == ']' {
                self.token_char_advance(TokenType::RightParen)
            } else if c == '@' {
                self.token_char_advance(TokenType::Arobase)
            } else if c == '.' {
                self.token_char_advance(TokenType::Dot)
            } else if c == '&' {
                self.token_char_advance(TokenType::Command)
            } else if c == '%' {
                self.skip_line();
                continue;
            } else if is_alphabetic(c) {
                self.scan_command()
            } else if is_numeric(c) {
                self.scan_number()
            } else {
                return Err(LexError::UnexpectedCharacter { ch: c, line: self.current_line, column: self.current_column });
            };
            proof {
                lemma_glue_prepend(before, token@, lex_from(s, self.current_index as int));
            }
            result.push(token);
            assert(token_views(result@) =~= before.push(token@));
        }
        let end = Token::empty(self.current_line, self.current_column);
        let ghost before = token_views(result@);
        result.push(end);
        assert(token_views(result@) =~= before.push(end_token(s)));
        proof {
            if let Ok(ts) = lex_from(s, self.current_index as int) {
                assert(before + ts =~= before);
            }
        }
        Ok(result)
    }
}

} // verus!
