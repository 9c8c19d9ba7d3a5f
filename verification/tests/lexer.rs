use wu::diagnostic::Fault;
use wu::lexer::{
    unescape, CharMatcher, Class, ConstantCharMatcher, ConstantStringMatcher, IdentifierMatcher,
    Lexer, Matchers, NumberMatcher, RawStringMatcher, StringMatcher,
};
use wu::source::Source;
use wu::token::{Position, Token, TokenType};
use wu::tokenizer::{Matcher, Tokenizer};

fn source(text: &str) -> Source {
    Source::from("lexer.wu", text.lines().map(|line| line.to_string()).collect())
}

fn lex(text: &str) -> Vec<Token> {
    let source = source(text);
    Lexer::default(text.chars().collect(), &source).tokenize().unwrap()
}

fn kinds(text: &str) -> Vec<(TokenType, String)> {
    lex(text).into_iter().map(|token| (token.token_type, token.lexeme)).collect()
}

fn pair(token_type: TokenType, lexeme: &str) -> (TokenType, String) {
    (token_type, lexeme.to_string())
}

fn try_one<M: Matcher>(matcher: &M, text: &str) -> (Option<Token>, usize) {
    let source = source(text);
    let mut tokenizer = Tokenizer::new(&source, text.chars().collect());
    let token = tokenizer.try_match_token(matcher).unwrap();
    (token, tokenizer.index())
}

#[test]
fn classes_of_characters() {
    assert!(Class::Digit.accepts('0') && Class::Digit.accepts('9'));
    assert!(!Class::Digit.accepts('a') && !Class::Digit.accepts('/') && !Class::Digit.accepts(':'));
    assert!(Class::Word.accepts('a') && Class::Word.accepts('Z') && Class::Word.accepts('_'));
    assert!(Class::Word.accepts('7') && Class::Word.accepts('ø'));
    assert!(!Class::Word.accepts('-') && !Class::Word.accepts(' ') && !Class::Word.accepts('['));
    assert!(Class::Unquoted.accepts('\n') && !Class::Unquoted.accepts('"'));
    assert!(Class::Blank.accepts(' ') && Class::Blank.accepts('\t') && Class::Blank.accepts('\r'));
    assert!(!Class::Blank.accepts('\n'));
}

#[test]
fn numbers_are_whole_or_fractional() {
    let (token, index) = try_one(&NumberMatcher, "123 ");
    let token = token.unwrap();
    assert_eq!((token.token_type, token.lexeme.as_str(), index), (TokenType::Int, "123", 3));
    assert_eq!(token.position, Position::new(0, 0, 3));
    let (token, index) = try_one(&NumberMatcher, "12.50x");
    let token = token.unwrap();
    assert_eq!((token.token_type, token.lexeme.as_str(), index), (TokenType::Float, "12.50", 5));
    let (token, index) = try_one(&NumberMatcher, ".123");
    let token = token.unwrap();
    assert_eq!((token.token_type, token.lexeme.as_str(), index), (TokenType::Float, ".123", 4));
    let (token, index) = try_one(&NumberMatcher, "7.");
    let token = token.unwrap();
    assert_eq!((token.token_type, token.lexeme.as_str(), index), (TokenType::Int, "7", 1));
    assert!(matches!(try_one(&NumberMatcher, ".x"), (None, 0)));
    assert!(matches!(try_one(&NumberMatcher, "x1"), (None, 0)));
}

#[test]
fn words_are_names_truth_values_or_reserved() {
    let matcher = IdentifierMatcher { keywords: vec!["if".to_string()] };
    let (token, index) = try_one(&matcher, "foo_1+");
    let token = token.unwrap();
    assert_eq!((token.token_type, token.lexeme.as_str(), index), (TokenType::Identifier, "foo_1", 5));
    let (token, _) = try_one(&matcher, "true");
    assert_eq!(token.unwrap().token_type, TokenType::Bool);
    let (token, _) = try_one(&matcher, "false)");
    assert_eq!(token.unwrap().token_type, TokenType::Bool);
    let (token, _) = try_one(&matcher, "if x");
    assert_eq!(token.unwrap().token_type, TokenType::Keyword);
    let (token, _) = try_one(&matcher, "iffy");
    let token = token.unwrap();
    assert_eq!((token.token_type, token.lexeme.as_str()), (TokenType::Identifier, "iffy"));
    let (token, index) = try_one(&matcher, "æø");
    assert_eq!((token.unwrap().lexeme.as_str(), index), ("æø", 2));
    assert!(matches!(try_one(&matcher, "1a"), (None, 0)));
}

#[test]
fn strings_resolve_escapes() {
    let (token, index) = try_one(&StringMatcher, r#""a\n\"b\\" rest"#);
    let token = token.unwrap();
    assert_eq!(token.token_type, TokenType::Str);
    assert_eq!(token.lexeme, "a\n\"b\\");
    assert_eq!(token.position, Position::new(0, 0, 10));
    assert_eq!(index, 10);
    let (token, index) = try_one(&StringMatcher, r#""""#);
    assert_eq!((token.unwrap().lexeme.as_str(), index), ("", 2));
    assert!(matches!(try_one(&StringMatcher, "x\"\""), (None, 0)));
}

#[test]
fn malformed_strings_are_faults() {
    let text = "\"never closed";
    let source = source(text);
    let mut tokenizer = Tokenizer::new(&source, text.chars().collect());
    let diagnostic = tokenizer.try_match_token(&StringMatcher).unwrap_err();
    assert!(matches!(diagnostic.fault, Fault::UnterminatedString));
    assert_eq!(diagnostic.message(), "unterminated string literal");
    assert_eq!(diagnostic.file, "lexer.wu");
    assert_eq!(diagnostic.position, Some(Position::new(0, 0, 1)));

    let text = "\"bad \\q escape\"";
    let mut tokenizer = Tokenizer::new(&source, text.chars().collect());
    let diagnostic = tokenizer.try_match_token(&StringMatcher).unwrap_err();
    assert!(matches!(diagnostic.fault, Fault::InvalidEscape('q')));
    assert_eq!(diagnostic.message(), "invalid escape `\\q`");

    let text = "\"ends in a backslash\\";
    let mut tokenizer = Tokenizer::new(&source, text.chars().collect());
    let diagnostic = tokenizer.try_match_token(&StringMatcher).unwrap_err();
    assert!(matches!(diagnostic.fault, Fault::UnterminatedString));
}

#[test]
fn raw_strings_keep_backslashes() {
    let (token, index) = try_one(&RawStringMatcher, "r\"you can't escape \\n\" x");
    let token = token.unwrap();
    assert_eq!(token.token_type, TokenType::Raw);
    assert_eq!(token.lexeme, "you can't escape \\n");
    assert_eq!(index, 22);
    assert_eq!(token.position, Position::new(0, 0, 22));
    assert!(matches!(try_one(&RawStringMatcher, "raw"), (None, 0)));
    assert!(matches!(try_one(&RawStringMatcher, "r"), (None, 0)));
    let text = "r\"open";
    let source = source(text);
    let mut tokenizer = Tokenizer::new(&source, text.chars().collect());
    let diagnostic = tokenizer.try_match_token(&RawStringMatcher).unwrap_err();
    assert!(matches!(diagnostic.fault, Fault::UnterminatedString));
    assert_eq!(diagnostic.position, Some(Position::new(0, 0, 2)));
}

#[test]
fn characters_are_one_character_or_one_escape() {
    let (token, index) = try_one(&CharMatcher, "'b' ");
    let token = token.unwrap();
    assert_eq!((token.token_type, token.lexeme.as_str(), index), (TokenType::Char, "b", 3));
    let (token, index) = try_one(&CharMatcher, "'\\n'");
    assert_eq!((token.unwrap().lexeme.as_str(), index), ("\n", 4));
    let (token, index) = try_one(&CharMatcher, "'\\''");
    assert_eq!((token.unwrap().lexeme.as_str(), index), ("'", 4));
    assert!(matches!(try_one(&CharMatcher, "b'"), (None, 0)));
    for text in ["'", "''", "'ab'", "'a", "'\\n", "'\\"] {
        let source = source(text);
        let mut tokenizer = Tokenizer::new(&source, text.chars().collect());
        let diagnostic = tokenizer.try_match_token(&CharMatcher).unwrap_err();
        assert!(matches!(diagnostic.fault, Fault::UnterminatedChar));
        assert_eq!(diagnostic.message(), "unterminated character literal");
    }
    let text = "'\\z'";
    let source = source(text);
    let mut tokenizer = Tokenizer::new(&source, text.chars().collect());
    let diagnostic = tokenizer.try_match_token(&CharMatcher).unwrap_err();
    assert!(matches!(diagnostic.fault, Fault::InvalidEscape('z')));
}

#[test]
fn the_first_constant_in_the_list_wins() {
    let longer_first = ConstantStringMatcher {
        token_type: TokenType::Operator,
        constants: vec!["::".to_string(), ":".to_string()],
    };
    let shorter_first = ConstantStringMatcher {
        token_type: TokenType::Operator,
        constants: vec!["".to_string(), ":".to_string(), "::".to_string()],
    };
    let (token, index) = try_one(&longer_first, ":: b");
    assert_eq!((token.unwrap().lexeme.as_str(), index), ("::", 2));
    let (token, index) = try_one(&shorter_first, ":: b");
    assert_eq!((token.unwrap().lexeme.as_str(), index), (":", 1));
    assert!(matches!(try_one(&longer_first, "=:"), (None, 0)));
    let symbols = ConstantCharMatcher { token_type: TokenType::Symbol, constants: vec!['(', ')'] };
    let (token, index) = try_one(&symbols, ")(");
    let token = token.unwrap();
    assert_eq!((token.token_type, token.lexeme.as_str(), index), (TokenType::Symbol, ")", 1));
    assert!(matches!(try_one(&symbols, "[)"), (None, 0)));
}

#[test]
fn a_declaration_is_lexed() {
    assert_eq!(
        kinds("a: int   = 123"),
        vec![
            pair(TokenType::Identifier, "a"),
            pair(TokenType::Operator, ":"),
            pair(TokenType::Identifier, "int"),
            pair(TokenType::Operator, "="),
            pair(TokenType::Int, "123"),
            pair(TokenType::EOF, ""),
        ]
    );
}

#[test]
fn two_character_operators_come_first() {
    assert_eq!(
        kinds("foo := f\nbar :: b -> a<=b"),
        vec![
            pair(TokenType::Identifier, "foo"),
            pair(TokenType::Operator, ":="),
            pair(TokenType::Identifier, "f"),
            pair(TokenType::Symbol, "\n"),
            pair(TokenType::Identifier, "bar"),
            pair(TokenType::Operator, "::"),
            pair(TokenType::Identifier, "b"),
            pair(TokenType::Operator, "->"),
            pair(TokenType::Identifier, "a"),
            pair(TokenType::Operator, "<="),
            pair(TokenType::Identifier, "b"),
            pair(TokenType::EOF, ""),
        ]
    );
}

#[test]
fn literals_of_every_kind_are_lexed() {
    assert_eq!(
        kinds("(1, \"two\", .3, '4', false, r\"raw\\n\", while)"),
        vec![
            pair(TokenType::Symbol, "("),
            pair(TokenType::Int, "1"),
            pair(TokenType::Symbol, ","),
            pair(TokenType::Str, "two"),
            pair(TokenType::Symbol, ","),
            pair(TokenType::Float, ".3"),
            pair(TokenType::Symbol, ","),
            pair(TokenType::Char, "4"),
            pair(TokenType::Symbol, ","),
            pair(TokenType::Bool, "false"),
            pair(TokenType::Symbol, ","),
            pair(TokenType::Raw, "raw\\n"),
            pair(TokenType::Symbol, ","),
            pair(TokenType::Keyword, "while"),
            pair(TokenType::Symbol, ")"),
            pair(TokenType::EOF, ""),
        ]
    );
}

#[test]
fn positions_follow_lines_and_columns() {
    let tokens = lex("ab\n  cd");
    let positions: Vec<Position> = tokens.iter().map(|token| token.position).collect();
    assert_eq!(
        positions,
        vec![
            Position::new(0, 0, 2),
            Position::new(0, 2, 1),
            Position::new(1, 2, 2),
            Position::new(1, 4, 0),
        ]
    );
}

#[test]
fn empty_and_blank_texts_hold_the_end_only() {
    assert_eq!(kinds(""), vec![pair(TokenType::EOF, "")]);
    assert_eq!(kinds(" \t \r"), vec![pair(TokenType::EOF, "")]);
}

#[test]
fn an_unexpected_character_is_a_fault() {
    let text = "a ? b";
    let source = source(text);
    let diagnostic = Lexer::default(text.chars().collect(), &source).tokenize().unwrap_err();
    assert!(matches!(diagnostic.fault, Fault::UnexpectedCharacter('?')));
    assert_eq!(diagnostic.message(), "unexpected character `?`");
    assert_eq!(diagnostic.position, Some(Position::new(0, 2, 1)));
}

#[test]
fn the_first_malformed_lexeme_stops_the_lexer() {
    let text = "a = \"open\nb = 'x";
    let source = source(text);
    let diagnostic = Lexer::default(text.chars().collect(), &source).tokenize().unwrap_err();
    assert!(matches!(diagnostic.fault, Fault::UnterminatedString));
    assert_eq!(diagnostic.position, Some(Position::new(0, 4, 1)));
}

#[test]
fn next_token_repeats_the_end() {
    let source = source("x");
    let mut lexer = Lexer::default("x".chars().collect(), &source);
    assert_eq!(lexer.next_token().unwrap().token_type, TokenType::Identifier);
    assert_eq!(lexer.next_token().unwrap().token_type, TokenType::EOF);
    assert_eq!(lexer.next_token().unwrap().token_type, TokenType::EOF);
    assert!(lexer.tokenizer.peek_snapshot().is_none());
}

#[test]
fn escapes_are_resolved() {
    assert_eq!(unescape('n'), Some('\n'));
    assert_eq!(unescape('t'), Some('\t'));
    assert_eq!(unescape('r'), Some('\r'));
    assert_eq!(unescape('0'), Some('\0'));
    assert_eq!(unescape('\\'), Some('\\'));
    assert_eq!(unescape('"'), Some('"'));
    assert_eq!(unescape('\''), Some('\''));
    assert_eq!(unescape('x'), None);
}

#[test]
fn the_recognizers_are_tried_in_order() {
    let matchers = Matchers::default();
    let (token, index) = try_one(&matchers, "r\"raw\" r");
    let token = token.unwrap();
    assert_eq!((token.token_type, token.lexeme.as_str(), index), (TokenType::Raw, "raw", 6));
    let (token, index) = try_one(&matchers, "r + 1");
    let token = token.unwrap();
    assert_eq!((token.token_type, token.lexeme.as_str(), index), (TokenType::Identifier, "r", 1));
    let (token, index) = try_one(&matchers, ".5");
    let token = token.unwrap();
    assert_eq!((token.token_type, token.lexeme.as_str(), index), (TokenType::Float, ".5", 2));
    assert!(matches!(try_one(&matchers, "?"), (None, 0)));
    assert_eq!(matchers.identifier.keywords, vec!["if", "else", "while", "return"]);
    assert_eq!(matchers.symbols.constants, vec!['(', ')', ',', '{', '}', '\n']);
    assert_eq!(matchers.operators.constants.len(), 19);
}

#[test]
fn a_fault_leaves_the_cursor_at_the_lexeme() {
    let text = "  'x";
    let source = source(text);
    let mut lexer = Lexer::default(text.chars().collect(), &source);
    assert!(lexer.next_token().is_err());
    assert_eq!(lexer.tokenizer.index(), 2);
    assert_eq!(lexer.tokenizer.pos, (0, 2));
    assert!(lexer.tokenizer.peek_snapshot().is_none());
}
