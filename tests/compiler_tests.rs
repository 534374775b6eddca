use mmml_compiler::compiler::Compiler;
use mmml_compiler::error::{CompileError, LexError, WarningKind};
use mmml_compiler::lexer::Lexer;
use mmml_compiler::token::{Token, TokenType};

fn compile_source(source: &str) -> Result<Vec<u8>, CompileError> {
    let tokens = Lexer::new(source.to_string()).tokenize().unwrap();
    Compiler::new(tokens).compile()
}

#[test]
fn missing_leading_header() {
    assert_eq!(compile_source("c4@@@@"), Err(CompileError::MissingLeadingHeader));
    assert_eq!(compile_source("  [2c]@@@@"), Err(CompileError::MissingLeadingHeader));
}

#[test]
fn too_few_headers() {
    assert_eq!(compile_source("@c4@c4@c4"), Err(CompileError::TooFewHeaders { count: 3 }));
    assert_eq!(compile_source("c4"), Err(CompileError::TooFewHeaders { count: 0 }));
}

#[test]
fn too_many_headers() {
    let source = "@".repeat(255);
    assert_eq!(compile_source(&source), Err(CompileError::TooManyHeaders { count: 255 }));
    let source = "@".repeat(254);
    assert!(compile_source(&source).is_ok());
}

#[test]
fn octave_underflow_on_fourth_shift() {
    assert_eq!(compile_source("@<<<<<@@@"), Err(CompileError::OctaveUnderflow { line: 1, column: 4 }));
}

#[test]
fn octave_overflow() {
    assert_eq!(compile_source("@>>@@@"), Err(CompileError::OctaveOverflow { line: 1, column: 2 }));
}

#[test]
fn octave_run_collapses() {
    assert_eq!(
        compile_source("@<<@@@").unwrap(),
        vec![0, 8, 0, 10, 0, 11, 0, 12, 0xD1, 0xFF, 0xFF, 0xFF, 0xFF]
    );
    assert_eq!(
        compile_source("@<<<>@@@").unwrap(),
        vec![0, 8, 0, 11, 0, 12, 0, 13, 0xD0, 0xD1, 0xFF, 0xFF, 0xFF, 0xFF]
    );
}

#[test]
fn duration_persistence() {
    assert_eq!(
        compile_source("@c4c@@@").unwrap(),
        vec![0, 8, 0, 11, 0, 12, 0, 13, 0x12, 0x12, 0xFF, 0xFF, 0xFF, 0xFF]
    );
}

#[test]
fn initial_duration_is_whole_note() {
    assert_eq!(compile_source("@r@@@").unwrap()[8], 0x00);
    assert_eq!(compile_source("@b@@@").unwrap()[8], 0xC0);
}

#[test]
fn loop_round_trip() {
    assert_eq!(
        compile_source("@[4c4]@@@").unwrap(),
        vec![0, 8, 0, 13, 0, 14, 0, 15, 0xF0, 4, 0x12, 0xF1, 0xFF, 0xFF, 0xFF, 0xFF]
    );
}

#[test]
fn nested_loops() {
    assert_eq!(
        compile_source("@[2[2c4]]@@@").unwrap(),
        vec![0, 8, 0, 16, 0, 17, 0, 18, 0xF0, 2, 0xF0, 2, 0x12, 0xF1, 0xF1, 0xFF, 0xFF, 0xFF, 0xFF]
    );
}

#[test]
fn header_offsets_point_at_channel_data() {
    let buffer = compile_source("@c4@c4@c4@c4").unwrap();
    assert_eq!(buffer, vec![0, 8, 0, 10, 0, 12, 0, 14, 0x12, 0xFF, 0x12, 0xFF, 0x12, 0xFF, 0x12, 0xFF]);
    for i in 0..4 {
        let offset = ((buffer[2 * i] as usize) << 8) | buffer[2 * i + 1] as usize;
        assert_eq!(buffer[offset], 0x12);
        if i > 0 {
            assert_eq!(buffer[offset - 1], 0xFF);
        } else {
            assert_eq!(offset, 8);
        }
    }
}

#[test]
fn volume_is_inverted() {
    let buffer = compile_source("@v0v8v3@@@").unwrap();
    assert_eq!(&buffer[8..11], &[0xE9, 0xE1, 0xE6]);
    assert!(buffer[8] > buffer[10] && buffer[10] > buffer[9]);
    assert_eq!(compile_source("@v9@@@"), Err(CompileError::InvalidVolume { line: 1, column: 2 }));
}

#[test]
fn address_overflow() {
    let source = format!("@{}@@@", "c".repeat(65530));
    assert_eq!(compile_source(&source), Err(CompileError::AddressOverflow { size: 65542 }));
    let source = format!("@{}@@@", "c".repeat(65523));
    assert_eq!(compile_source(&source).unwrap().len(), 65535);
}

#[test]
fn dotted_durations() {
    assert_eq!(compile_source("@c4.@@@").unwrap()[8], 0x19);
    assert_eq!(compile_source("@d128.@@@").unwrap()[8], 0x3E);
    assert_eq!(compile_source("@c2.@@@").unwrap()[8], 0x18);
    assert_eq!(compile_source("@c1.@@@"), Err(CompileError::DottedWholeNote { line: 1, column: 2 }));
}

#[test]
fn invalid_duration() {
    assert_eq!(compile_source("@c3@@@"), Err(CompileError::InvalidDuration { line: 1, column: 2 }));
}

#[test]
fn macro_calls() {
    assert_eq!(&compile_source("@m1@@@").unwrap()[8..10], &[0xF2, 0]);
    assert_eq!(&compile_source("@m2@@@@").unwrap()[10..12], &[0xF2, 1]);
    assert_eq!(&compile_source("@m2@@@").unwrap()[8..10], &[0xF2, 1]);
    assert_eq!(
        compile_source("@m3@@@"),
        Err(CompileError::InvalidMacro { macros: 1, line: 1, column: 2 })
    );
    assert_eq!(
        compile_source("@m0@@@"),
        Err(CompileError::InvalidMacro { macros: 1, line: 1, column: 2 })
    );
}

#[test]
fn tempo_and_numbers() {
    assert_eq!(&compile_source("@t150@@@").unwrap()[8..10], &[0xF3, 150]);
    assert_eq!(compile_source("@t256@@@"), Err(CompileError::InvalidNumber { line: 1, column: 2 }));
    assert_eq!(compile_source("@t@@@"), Err(CompileError::ExpectedNumber { line: 1, column: 2 }));
    assert_eq!(&compile_source("@t007@@@").unwrap()[8..10], &[0xF3, 7]);
}

#[test]
fn octave_set() {
    assert_eq!(compile_source("@o3@@@").unwrap()[8], 0xD2);
    assert_eq!(compile_source("@o6@@@"), Err(CompileError::InvalidOctave { line: 1, column: 2 }));
    assert_eq!(compile_source("@o5>@@@"), Err(CompileError::OctaveOverflow { line: 1, column: 3 }));
}

#[test]
fn unknown_command() {
    assert_eq!(
        compile_source("@x@@@"),
        Err(CompileError::UnknownCommand { name: "X".to_string(), line: 1, column: 1 })
    );
    assert_eq!(
        compile_source("@b#@@@"),
        Err(CompileError::UnknownCommand { name: "B#".to_string(), line: 1, column: 1 })
    );
}

#[test]
fn commands_are_case_insensitive_and_sharp_markers_agree() {
    assert_eq!(compile_source("@C4@@@"), compile_source("@c4@@@"));
    assert_eq!(compile_source("@c+4@@@").unwrap()[8], 0x22);
    assert_eq!(compile_source("@C#4@@@").unwrap()[8], 0x22);
    assert_eq!(compile_source("@a#8@@@").unwrap()[8], 0xB3);
}

#[test]
fn compatibility_warnings() {
    let tokens = Lexer::new("@k2i1p3&s@@@".to_string()).tokenize().unwrap();
    let mut compiler = Compiler::new(tokens);
    let buffer = compiler.compile().unwrap();
    assert_eq!(&buffer[8..16], &[0xF4, 2, 0xF5, 1, 0xF7, 3, 0xF6, 0xF8]);
    let kinds: Vec<WarningKind> = compiler.warnings().iter().map(|w| w.kind).collect();
    assert_eq!(
        kinds,
        vec![WarningKind::Transpose, WarningKind::Instrument, WarningKind::Panning, WarningKind::Tie, WarningKind::Stop]
    );
    assert_eq!((compiler.warnings()[1].line, compiler.warnings()[1].column), (1, 3));
}

#[test]
fn unterminated_loops() {
    assert_eq!(compile_source("@[2c@@@"), Err(CompileError::UnterminatedLoop { line: 1, column: 1 }));
    assert_eq!(compile_source("@@@@[2c"), Err(CompileError::UnterminatedLoop { line: 1, column: 4 }));
}

#[test]
fn unexpected_end_of_file() {
    assert_eq!(compile_source("@@@@[2"), Err(CompileError::UnexpectedEndOfFile { line: 1, column: 5 }));
}

#[test]
fn loop_left_open_at_end_of_tokens() {
    let tokens = vec![
        Token::new("@".to_string(), TokenType::Arobase, 1, 0),
        Token::new("@".to_string(), TokenType::Arobase, 1, 1),
        Token::new("@".to_string(), TokenType::Arobase, 1, 2),
        Token::new("@".to_string(), TokenType::Arobase, 1, 3),
        Token::new("[".to_string(), TokenType::LeftParen, 1, 4),
        Token::new("2".to_string(), TokenType::Number, 1, 5),
        Token::new("c".to_string(), TokenType::Command, 1, 6),
        Token::new("<".to_string(), TokenType::LessThan, 1, 7),
    ];
    assert_eq!(Compiler::new(tokens).compile(), Err(CompileError::UnterminatedLoop { line: 1, column: 4 }));
}

#[test]
fn unexpected_tokens() {
    assert_eq!(compile_source("@]@@@"), Err(CompileError::UnexpectedToken { line: 1, column: 1 }));
    assert_eq!(compile_source("@4@@@"), Err(CompileError::UnexpectedToken { line: 1, column: 1 }));
}

#[test]
fn tokens_without_end_marker() {
    let tokens = vec![
        Token::new("@".to_string(), TokenType::Arobase, 1, 0),
        Token::new("@".to_string(), TokenType::Arobase, 1, 1),
        Token::new("@".to_string(), TokenType::Arobase, 1, 2),
        Token::new("@".to_string(), TokenType::Arobase, 1, 3),
        Token::new("<".to_string(), TokenType::LessThan, 1, 4),
    ];
    let buffer = Compiler::new(tokens).compile().unwrap();
    assert_eq!(buffer, vec![0, 8, 0, 9, 0, 10, 0, 11, 0xFF, 0xFF, 0xFF, 0xD2, 0xFF]);
}

#[test]
fn lexer_rejects_unknown_character() {
    assert_eq!(
        Lexer::new("@c4\n $".to_string()).tokenize(),
        Err(LexError::UnexpectedCharacter { ch: '$', line: 2, column: 1 })
    );
}

#[test]
fn lexer_empty_source() {
    assert_eq!(Lexer::new(String::new()).tokenize().unwrap(), vec![Token::empty(1, 0)]);
    assert_eq!(Lexer::new("  % only a comment".to_string()).tokenize().unwrap(), vec![Token::empty(1, 17)]);
}

#[test]
fn tie_is_a_single_character_command() {
    assert_eq!(
        Lexer::new("&#".to_string()).tokenize(),
        Err(LexError::UnexpectedCharacter { ch: '#', line: 1, column: 1 })
    );
    assert_eq!(
        Lexer::new("&c#".to_string()).tokenize().unwrap(),
        vec![
            Token::new("&".to_string(), TokenType::Command, 1, 0),
            Token::new("c#".to_string(), TokenType::Command, 1, 1),
            Token::empty(1, 2),
        ]
    );
}

#[test]
fn lexer_skips_unicode_whitespace() {
    assert_eq!(
        Lexer::new("\t@\u{3000}c\u{a0}4".to_string()).tokenize().unwrap(),
        vec![
            Token::new("@".to_string(), TokenType::Arobase, 1, 1),
            Token::new("c".to_string(), TokenType::Command, 1, 3),
            Token::new("4".to_string(), TokenType::Number, 1, 5),
            Token::empty(1, 5),
        ]
    );
}

#[test]
fn arguments_above_255_get_the_command_range_error() {
    assert_eq!(compile_source("@c256@@@"), Err(CompileError::InvalidDuration { line: 1, column: 2 }));
    assert_eq!(compile_source("@o256@@@"), Err(CompileError::InvalidOctave { line: 1, column: 2 }));
    assert_eq!(compile_source("@v256@@@"), Err(CompileError::InvalidVolume { line: 1, column: 2 }));
    assert_eq!(
        compile_source("@m300@@@"),
        Err(CompileError::InvalidMacro { macros: 1, line: 1, column: 2 })
    );
    assert_eq!(
        compile_source("@o99999999999999999999@@@"),
        Err(CompileError::InvalidOctave { line: 1, column: 2 })
    );
    assert_eq!(compile_source("@o00003@@@").unwrap()[8], 0xD2);
    assert_eq!(compile_source("@[256c]@@@"), Err(CompileError::InvalidNumber { line: 1, column: 2 }));
}
