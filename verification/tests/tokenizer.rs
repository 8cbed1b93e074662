use basic_lexer::error::ErrorKind;
use basic_lexer::error::LexError;
use basic_lexer::lexer::Lexer;
use basic_lexer::token::Command;
use basic_lexer::token::Operator;
use basic_lexer::token::Token;

#[test]
fn first_token_is_line_number() {
    let toks = Lexer::tokenize_line("123 PRINT X").unwrap();
    assert_eq!(toks[0], Token::LineNumber(123));
}

#[test]
fn tokenize_let() {
    let toks = Lexer::tokenize_line("10 LET").unwrap();
    assert_eq!(toks, vec![Token::LineNumber(10), Token::Command(Command::Let)]);
}

#[test]
fn tokenize_print_string() {
    let toks = Lexer::tokenize_line("20 PRINT \"HI\"").unwrap();
    assert_eq!(
        toks,
        vec![
            Token::LineNumber(20),
            Token::Command(Command::Print),
            Token::StringLiteral("HI".to_string()),
        ]
    );
}

#[test]
fn tokenize_assignment() {
    let toks = Lexer::tokenize_line("30 X = 5").unwrap();
    assert_eq!(
        toks,
        vec![
            Token::LineNumber(30),
            Token::Variable("X".to_string()),
            Token::Operator(Operator::Equal),
            Token::IntLiteral(5),
        ]
    );
}

#[test]
fn tokenize_end_semicolon() {
    let toks = Lexer::tokenize_line("40 END;").unwrap();
    assert_eq!(
        toks,
        vec![
            Token::LineNumber(40),
            Token::Command(Command::End),
            Token::Operator(Operator::SemiColumn),
        ]
    );
}

#[test]
fn missing_line_number() {
    assert_eq!(
        Lexer::tokenize_line("abc"),
        Err(ErrorKind::MissingOrInvalidLineNumber)
    );
}

#[test]
fn round_trip_reconstruction() {
    // extra spacing collapses; the reconstruction of the tokens is the
    // canonical text, which tokenizes to the same sequence
    let toks = Lexer::tokenize_line("30   X  =   5").unwrap();
    let again = Lexer::tokenize_line("30 X = 5").unwrap();
    assert_eq!(toks, again);
}

#[test]
fn round_trip_string_literal() {
    let toks = Lexer::tokenize_line("20  PRINT  \"A B\"").unwrap();
    let again = Lexer::tokenize_line("20 PRINT \"A B\"").unwrap();
    assert_eq!(toks, again);
}

#[test]
fn empty_body_after_line_number() {
    // the trailing empty buffer is not flushed: the line number stands alone
    let toks = Lexer::tokenize_line("50 ").unwrap();
    assert_eq!(toks, vec![Token::LineNumber(50)]);
}

#[test]
fn digits_only_line() {
    let toks = Lexer::tokenize_line("123").unwrap();
    assert_eq!(toks, vec![Token::LineNumber(123)]);
}

#[test]
fn empty_line() {
    let toks = Lexer::tokenize_line("").unwrap();
    assert_eq!(toks, Vec::new());
}

#[test]
fn line_number_at_max() {
    let toks = Lexer::tokenize_line("65535 END").unwrap();
    assert_eq!(toks[0], Token::LineNumber(65535));
}

#[test]
fn line_number_too_large() {
    assert_eq!(
        Lexer::tokenize_line("65536 END"),
        Err(ErrorKind::MalformedLineNumber)
    );
    assert_eq!(
        Lexer::tokenize_line("99999"),
        Err(ErrorKind::MalformedLineNumber)
    );
}

#[test]
fn space_before_digits() {
    assert_eq!(
        Lexer::tokenize_line(" 10 LET"),
        Err(ErrorKind::MissingOrInvalidLineNumber)
    );
}

#[test]
fn int_literal_at_max() {
    let toks = Lexer::tokenize_line("10 2147483647").unwrap();
    assert_eq!(toks, vec![Token::LineNumber(10), Token::IntLiteral(2147483647)]);
}

#[test]
fn integer_overflow() {
    assert_eq!(
        Lexer::tokenize_line("10 2147483648"),
        Err(ErrorKind::IntegerOverflow)
    );
}

#[test]
fn keywords_are_case_insensitive() {
    assert_eq!(
        Lexer::tokenize_line("10 let").unwrap()[1],
        Token::Command(Command::Let)
    );
    assert_eq!(
        Lexer::tokenize_line("10 pRiNt").unwrap()[1],
        Token::Command(Command::Print)
    );
    assert_eq!(
        Lexer::tokenize_line("10 End").unwrap()[1],
        Token::Command(Command::End)
    );
}

#[test]
fn non_keyword_word_is_variable() {
    assert_eq!(
        Lexer::tokenize_line("10 LETX").unwrap()[1],
        Token::Variable("LETX".to_string())
    );
}

#[test]
fn string_keeps_inner_spaces() {
    let toks = Lexer::tokenize_line("10 \"A B\"").unwrap();
    assert_eq!(
        toks,
        vec![Token::LineNumber(10), Token::StringLiteral("A B".to_string())]
    );
}

#[test]
fn empty_string_literal() {
    let toks = Lexer::tokenize_line("10 \"\"").unwrap();
    assert_eq!(
        toks,
        vec![Token::LineNumber(10), Token::StringLiteral(String::new())]
    );
}

#[test]
fn unterminated_string_flushes_at_end() {
    // no closing quote, so the end-of-line flush classifies by content
    let toks = Lexer::tokenize_line("10 \"AB").unwrap();
    assert_eq!(
        toks,
        vec![Token::LineNumber(10), Token::Variable("AB".to_string())]
    );
}

#[test]
fn unterminated_keyword_buffer_is_command() {
    let toks = Lexer::tokenize_line("10 \"END").unwrap();
    assert_eq!(
        toks,
        vec![Token::LineNumber(10), Token::Command(Command::End)]
    );
}

#[test]
fn unterminated_digit_buffer_can_overflow() {
    assert_eq!(
        Lexer::tokenize_line("10 \"2147483648"),
        Err(ErrorKind::IntegerOverflow)
    );
}

#[test]
fn mixed_buffer_is_string_literal() {
    let toks = Lexer::tokenize_line("10 A1").unwrap();
    assert_eq!(
        toks,
        vec![Token::LineNumber(10), Token::StringLiteral("A1".to_string())]
    );
}

#[test]
fn arithmetic_operator_buffers() {
    let toks = Lexer::tokenize_line("10 + -").unwrap();
    assert_eq!(
        toks,
        vec![
            Token::LineNumber(10),
            Token::Operator(Operator::Add),
            Token::Operator(Operator::Sub),
        ]
    );
}

#[test]
fn semicolon_flushes_pending_buffer() {
    let toks = Lexer::tokenize_line("10 A;B").unwrap();
    assert_eq!(
        toks,
        vec![
            Token::LineNumber(10),
            Token::Variable("A".to_string()),
            Token::Operator(Operator::SemiColumn),
            Token::Variable("B".to_string()),
        ]
    );
}

#[test]
fn tokenize_whole_program() {
    let lines = vec!["10 LET".to_string(), "20 PRINT \"HI\"".to_string(), "30".to_string()];
    let out = Lexer::tokenize(lines).unwrap();
    assert_eq!(out.len(), 3);
    assert_eq!(out[0], vec![Token::LineNumber(10), Token::Command(Command::Let)]);
    assert_eq!(
        out[1],
        vec![
            Token::LineNumber(20),
            Token::Command(Command::Print),
            Token::StringLiteral("HI".to_string()),
        ]
    );
    assert_eq!(out[2], vec![Token::LineNumber(30)]);
}

#[test]
fn tokenize_reports_first_bad_line() {
    let lines = vec!["10 LET".to_string(), "abc".to_string(), "xyz".to_string()];
    assert_eq!(
        Lexer::tokenize(lines),
        Err(LexError { line: 1, kind: ErrorKind::MissingOrInvalidLineNumber })
    );
}

#[test]
fn operator_from_lexeme() {
    assert_eq!(Operator::from("+"), Some(Operator::Add));
    assert_eq!(Operator::from("-"), Some(Operator::Sub));
    assert_eq!(Operator::from("="), Some(Operator::Equal));
    assert_eq!(Operator::from(";"), None);
    assert_eq!(Operator::from(""), None);
    assert_eq!(Operator::from("=="), None);
}

#[test]
fn command_from_string() {
    assert_eq!(Command::from_string("LET"), Some(Command::Let));
    assert_eq!(Command::from_string("let"), Some(Command::Let));
    assert_eq!(Command::from_string("PRINT"), Some(Command::Print));
    assert_eq!(Command::from_string("end"), Some(Command::End));
    assert_eq!(Command::from_string("GOTO"), None);
    assert_eq!(Command::from_string(""), None);
}

#[test]
fn command_to_string() {
    assert_eq!(Command::Let.to_string(), "LET".to_string());
    assert_eq!(Command::Print.to_string(), "PRINT".to_string());
    assert_eq!(Command::End.to_string(), "END".to_string());
}

#[test]
fn command_text_round_trips() {
    for c in [Command::Let, Command::Print, Command::End] {
        assert_eq!(Command::from_string(Command::to_string(&c).as_str()), Some(c));
    }
}

#[test]
fn lexer_remembers_source_path() {
    let lexer = Lexer::new("test.bas");
    assert_eq!(lexer.source, "test.bas".to_string());
}
