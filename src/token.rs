use vstd::prelude::*;

verus! {

/// The kind of a lexical token of the music-macro notation.
#[derive(Debug, Clone, Copy, PartialEq, Eq, Structural)]
pub enum TokenType {
    Command,
    LessThan,
    GreaterThan,
    LeftParen,
    RightParen,
    Arobase,
    Number,
    Dot,
    EndOfFile,
}

/// A token: its text, its kind, and where it starts (1-based line, 0-based column).
#[derive(Debug, Clone, PartialEq, Eq)]
pub struct Token {
    pub value: String,
    pub token_type: TokenType,
    pub line: usize,
    pub column: usize,
}

/// The mathematical content of a token.
pub struct TokenView {
    pub value: Seq<char>,
    pub token_type: TokenType,
    pub line: usize,
    pub column: usize,
}

impl View for Token {
    type V = TokenView;

    open spec fn view(&self) -> TokenView {
        TokenView { value: self.value@, token_type: self.token_type, line: self.line, column: self.column }
    }
}

/// The views of a sequence of tokens.
pub open spec fn token_views(toks: Seq<Token>) -> Seq<TokenView> {
    toks.map_values(|t: Token| t@)
}

impl Token {
    pub fn new(value: String, token_type: TokenType, line: usize, column: usize) -> (r: Token)
        ensures
            r@ == (TokenView { value: value@, token_type, line, column }),
    {
        Token { value, token_type, line, column }
    }

    /// The end-of-file sentinel at the given position, with empty text.
    pub fn empty(line: usize, column: usize) -> (r: Token)
        ensures
            r@ == (TokenView { value: Seq::<char>::empty(), token_type: TokenType::EndOfFile, line, column }),
    {
        Token { value: String::new(), token_type: TokenType::EndOfFile, line, column }
    }

    pub fn is_end_of_file(&self) -> (r: bool)
        ensures
            r == (self.token_type == TokenType::EndOfFile),
    {
        self.token_type == TokenType::EndOfFile
    }
}

} // verus!
