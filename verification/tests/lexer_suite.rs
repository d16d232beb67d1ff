use alt::lexer::lex_number;
use alt::lexer::lex_string;
use alt::lexer::skip_spaces;
use alt::lexer::tokenize;
use alt::lexer::FilePos;
use alt::lexer::LexError;
use alt::lexer::TokenKind;

#[test]
fn skipping_spaces() {
    let s = " \t \tword";
    let j = skip_spaces(s, 0);
    assert_eq!(s.chars().skip(j).collect::<String>(), "word");
}

#[test]
fn lexing_number() {
    let (tok, _, _) = lex_number("2023", 0, 0);
    assert_eq!(tok.kind, TokenKind::Number(2023));
}

#[test]
fn x() {
    "2023"
        .char_indices()
        .for_each(|a| println!("@{} {:?}", a.0, a.1));
}

#[test]
fn lexing_string() {
    let (tok, _, _) = lex_string("\"some\"", 0, 0).unwrap();
    assert_eq!(tok.kind, TokenKind::String("some".to_string()));
}

#[test]
fn tokenize_braces() {
    assert_eq!(
        tokenize("{}")
            .unwrap()
            .iter()
            .map(|t| t.kind.clone())
            .collect::<Vec<TokenKind>>(),
        [
            TokenKind::LeftBrace,
            TokenKind::RightBrace,
            TokenKind::EndOfInput,
        ],
    );
}

#[test]
fn tokenize_value_call() {
    assert_eq!(
        tokenize("@")
            .unwrap()
            .iter()
            .map(|t| t.kind.clone())
            .collect::<Vec<TokenKind>>(),
        [TokenKind::ValueCall, TokenKind::EndOfInput,],
    );
}

#[test]
fn tokenize_record_call() {
    assert_eq!(
        tokenize("#")
            .unwrap()
            .iter()
            .map(|t| t.kind.clone())
            .collect::<Vec<TokenKind>>(),
        [TokenKind::RecordCall, TokenKind::EndOfInput,],
    );
}

#[test]
fn tokenize_record() {
    let data = "x = 2";

    assert_eq!(
        tokenize(data)
            .unwrap()
            .iter()
            .map(|t| t.kind.clone())
            .collect::<Vec<TokenKind>>(),
        [
            TokenKind::ID("x".to_owned()),
            TokenKind::Assign,
            TokenKind::Number(2),
            TokenKind::EndOfInput,
        ],
    );
}

#[test]
fn tokenize_multiple_records() {
    let data = "x = 2\ny = 3;z=4";

    assert_eq!(
        tokenize(data)
            .unwrap()
            .iter()
            .map(|t| t.kind.clone())
            .collect::<Vec<TokenKind>>(),
        [
            TokenKind::ID("x".to_owned()),
            TokenKind::Assign,
            TokenKind::Number(2),
            TokenKind::Separator,
            TokenKind::ID("y".to_string()),
            TokenKind::Assign,
            TokenKind::Number(3),
            TokenKind::Separator,
            TokenKind::ID("z".to_string()),
            TokenKind::Assign,
            TokenKind::Number(4),
            TokenKind::EndOfInput,
        ],
    );
}

#[test]
fn tokenize_brackets_and_dot() {
    assert_eq!(
        tokenize("[4.2]")
            .unwrap()
            .iter()
            .map(|t| t.kind.clone())
            .collect::<Vec<TokenKind>>(),
        [
            TokenKind::LeftBracket,
            TokenKind::Number(4),
            TokenKind::Dot,
            TokenKind::Number(2),
            TokenKind::RightBracket,
            TokenKind::EndOfInput,
        ],
    );
}

#[test]
fn tokenize_empty_input() {
    let toks = tokenize("").unwrap();
    assert_eq!(toks.len(), 1);
    assert_eq!(toks[0].kind, TokenKind::EndOfInput);
    assert_eq!(toks[0].pos, FilePos { start: 0, end: 0 });
}

#[test]
fn tokenize_unknown_char_fails() {
    assert_eq!(tokenize("x = %"), Err(LexError { pos: 4, ch: '%' }));
}

#[test]
fn tokenize_unterminated_string_fails() {
    assert_eq!(tokenize("a = \"oops"), Err(LexError { pos: 4, ch: '"' }));
}

#[test]
fn number_saturates_at_i32_max() {
    let toks = tokenize("99999999999999999999").unwrap();
    assert_eq!(toks[0].kind, TokenKind::Number(i32::MAX));
}

#[test]
fn token_positions_are_byte_spans() {
    let toks = tokenize("x = 25").unwrap();
    assert_eq!(toks[0].pos, FilePos { start: 0, end: 1 });
    assert_eq!(toks[1].pos, FilePos { start: 2, end: 3 });
    assert_eq!(toks[2].pos, FilePos { start: 4, end: 6 });
    assert_eq!(toks[3].pos, FilePos { start: 6, end: 6 });
}

#[test]
fn string_spans_count_bytes_not_chars() {
    // 'é' takes two bytes: the closing quote sits at byte 3, and the
    // identifier after the literal starts at byte 4.
    let toks = tokenize("\"é\"x").unwrap();
    assert_eq!(toks[0].kind, TokenKind::String("é".to_string()));
    assert_eq!(toks[0].pos, FilePos { start: 0, end: 3 });
    assert_eq!(toks[1].kind, TokenKind::ID("x".to_string()));
    assert_eq!(toks[1].pos, FilePos { start: 4, end: 5 });
}

#[test]
fn default_token_is_end_of_input() {
    let tok = alt::lexer::Token::default();
    assert_eq!(tok.kind, TokenKind::EndOfInput);
    assert_eq!(tok.pos, FilePos::default());
}

#[test]
fn dash_cannot_start_an_identifier() {
    // `-` and `_` may continue an identifier but not start one.
    assert_eq!(tokenize("-a"), Err(LexError { pos: 0, ch: '-' }));
    let toks = tokenize("meta-lang snake_case").unwrap();
    assert_eq!(toks[0].kind, TokenKind::ID("meta-lang".to_string()));
    assert_eq!(toks[1].kind, TokenKind::ID("snake_case".to_string()));
}
