use wu::diagnostic::{Diagnostic, Fault};
use wu::source::Source;
use wu::token::{Position, Token, TokenType};
use wu::tokenizer::{Matcher, Tokenizer};

fn source(text: &str) -> Source {
    Source::from("test.wu", text.lines().map(|line| line.to_string()).collect())
}

/// Consumes two characters and then gives up.
struct GivesUp;

impl Matcher for GivesUp {
    fn try_match(&self, tokenizer: &mut Tokenizer) -> Result<Option<Token>, Diagnostic> {
        tokenizer.advance();
        tokenizer.advance();
        Ok(None)
    }
}

/// Takes one character as a symbol.
struct OneSymbol;

impl Matcher for OneSymbol {
    fn try_match(&self, tokenizer: &mut Tokenizer) -> Result<Option<Token>, Diagnostic> {
        let (line, column) = tokenizer.pos;
        let lexeme = tokenizer.peek_range(1).unwrap();
        tokenizer.advance();
        Ok(Some(Token::new(TokenType::Symbol, Position::new(line, column, 1), lexeme)))
    }
}

/// Consumes one character and reports a malformed lexeme.
struct Malformed;

impl Matcher for Malformed {
    fn try_match(&self, tokenizer: &mut Tokenizer) -> Result<Option<Token>, Diagnostic> {
        tokenizer.advance();
        Err(Diagnostic::new(Fault::NonIdentifier, "test.wu", None))
    }
}

#[test]
fn new_starts_at_the_first_character() {
    let source = source("ab");
    let tokenizer = Tokenizer::new(&source, "ab".chars().collect());
    assert_eq!(tokenizer.pos, (0, 0));
    assert_eq!(tokenizer.index(), 0);
    assert!(!tokenizer.end());
    assert_eq!(tokenizer.peek(), Some('a'));
    assert!(tokenizer.peek_snapshot().is_none());
}

#[test]
fn empty_input_is_at_its_end() {
    let source = source("");
    let tokenizer = Tokenizer::new(&source, Vec::new());
    assert!(tokenizer.end());
    assert_eq!(tokenizer.peek(), None);
    assert_eq!(tokenizer.peek_range(0), Some(String::new()));
    assert_eq!(tokenizer.peek_range(1), None);
}

#[test]
fn advance_counts_columns_and_lines() {
    let source = source("ab\ncd");
    let mut tokenizer = Tokenizer::new(&source, "ab\ncd".chars().collect());
    tokenizer.advance();
    assert_eq!((tokenizer.index(), tokenizer.pos), (1, (0, 1)));
    tokenizer.advance();
    assert_eq!((tokenizer.index(), tokenizer.pos), (2, (0, 2)));
    tokenizer.advance();
    assert_eq!((tokenizer.index(), tokenizer.pos), (3, (1, 0)));
    tokenizer.advance();
    assert_eq!((tokenizer.index(), tokenizer.pos), (4, (1, 1)));
    tokenizer.advance();
    assert_eq!((tokenizer.index(), tokenizer.pos), (5, (1, 2)));
    assert!(tokenizer.end());
    tokenizer.advance();
    assert_eq!((tokenizer.index(), tokenizer.pos), (6, (1, 2)));
    assert!(tokenizer.end());
}

#[test]
fn advance_n_is_n_steps() {
    let source = source("ab\ncd");
    let mut stepped = Tokenizer::new(&source, "ab\ncd".chars().collect());
    let mut jumped = Tokenizer::new(&source, "ab\ncd".chars().collect());
    for _ in 0..4 {
        stepped.advance();
    }
    jumped.advance_n(4);
    assert_eq!(jumped.index(), stepped.index());
    assert_eq!(jumped.pos, stepped.pos);
    assert_eq!(jumped.pos, (1, 1));
    jumped.advance_n(0);
    assert_eq!(jumped.index(), 4);
}

#[test]
fn peek_looks_ahead_without_consuming() {
    let source = source("wu!");
    let mut tokenizer = Tokenizer::new(&source, "wu!".chars().collect());
    assert_eq!(tokenizer.peek_n(0), Some('w'));
    assert_eq!(tokenizer.peek_n(2), Some('!'));
    assert_eq!(tokenizer.peek_n(3), None);
    assert_eq!(tokenizer.peek_n(usize::MAX), None);
    assert_eq!(tokenizer.peek_range(2), Some("wu".to_string()));
    assert_eq!(tokenizer.peek_range(3), Some("wu!".to_string()));
    assert_eq!(tokenizer.peek_range(4), None);
    assert_eq!(tokenizer.peek_range(usize::MAX), None);
    assert_eq!(tokenizer.index(), 0);
    tokenizer.advance_n(3);
    assert_eq!(tokenizer.peek(), None);
    assert_eq!(tokenizer.peek_range(0), Some(String::new()));
    tokenizer.advance();
    assert_eq!(tokenizer.peek_range(0), None);
}

#[test]
fn snapshots_nest() {
    let source = source("a\nbc");
    let mut tokenizer = Tokenizer::new(&source, "a\nbc".chars().collect());
    tokenizer.take_snapshot();
    tokenizer.advance();
    tokenizer.take_snapshot();
    tokenizer.advance_n(2);
    assert_eq!(tokenizer.pos, (1, 1));
    assert_eq!(tokenizer.last_position(), (0, 1));
    assert_eq!(tokenizer.peek_snapshot().unwrap().index, 1);
    tokenizer.rollback_snapshot();
    assert_eq!((tokenizer.index(), tokenizer.pos), (1, (0, 1)));
    assert_eq!(tokenizer.last_position(), (0, 0));
    tokenizer.rollback_snapshot();
    assert_eq!((tokenizer.index(), tokenizer.pos), (0, (0, 0)));
    assert!(tokenizer.peek_snapshot().is_none());
}

#[test]
fn commit_keeps_the_cursor() {
    let source = source("abc");
    let mut tokenizer = Tokenizer::new(&source, "abc".chars().collect());
    tokenizer.take_snapshot();
    tokenizer.advance_n(2);
    tokenizer.commit_snapshot();
    assert_eq!((tokenizer.index(), tokenizer.pos), (2, (0, 2)));
    assert!(tokenizer.peek_snapshot().is_none());
    tokenizer.commit_snapshot();
    assert_eq!(tokenizer.index(), 2);
}

#[test]
fn no_match_restores_the_cursor() {
    let source = source("a\nbc");
    let mut tokenizer = Tokenizer::new(&source, "a\nbc".chars().collect());
    tokenizer.advance();
    let before = (tokenizer.index(), tokenizer.pos);
    let result = tokenizer.try_match_token(&GivesUp);
    assert!(matches!(result, Ok(None)));
    assert_eq!((tokenizer.index(), tokenizer.pos), before);
    assert!(tokenizer.peek_snapshot().is_none());
}

#[test]
fn no_match_keeps_earlier_snapshots() {
    let source = source("abcd");
    let mut tokenizer = Tokenizer::new(&source, "abcd".chars().collect());
    tokenizer.take_snapshot();
    tokenizer.advance();
    assert!(matches!(tokenizer.try_match_token(&GivesUp), Ok(None)));
    assert_eq!(tokenizer.index(), 1);
    assert_eq!(tokenizer.peek_snapshot().unwrap().index, 0);
}

#[test]
fn a_match_keeps_what_was_consumed() {
    let source = source("+1");
    let mut tokenizer = Tokenizer::new(&source, "+1".chars().collect());
    let token = tokenizer.try_match_token(&OneSymbol).unwrap().unwrap();
    assert_eq!(token.token_type, TokenType::Symbol);
    assert_eq!(token.lexeme, "+");
    assert_eq!(token.position, Position::new(0, 0, 1));
    assert_eq!(tokenizer.index(), 1);
    assert!(tokenizer.peek_snapshot().is_none());
}

#[test]
fn end_of_input_gives_the_end_token() {
    let source = source("a");
    let mut tokenizer = Tokenizer::new(&source, "a".chars().collect());
    tokenizer.advance();
    for _ in 0..2 {
        let token = tokenizer.try_match_token(&GivesUp).unwrap().unwrap();
        assert_eq!(token.token_type, TokenType::EOF);
        assert_eq!(token.lexeme, "");
        assert_eq!(token.position, Position::new(0, 1, 0));
        assert_eq!(tokenizer.index(), 1);
    }
    let empty: Vec<char> = Vec::new();
    let nothing = Source::from("empty.wu", Vec::new());
    let mut tokenizer = Tokenizer::new(&nothing, empty);
    let token = tokenizer.try_match_token(&Malformed).unwrap().unwrap();
    assert_eq!(token.token_type, TokenType::EOF);
}

#[test]
fn a_malformed_lexeme_is_not_backtracked() {
    let source = source("'a");
    let mut tokenizer = Tokenizer::new(&source, "'a".chars().collect());
    let result = tokenizer.try_match_token(&Malformed);
    assert!(result.is_err());
    assert_eq!(tokenizer.index(), 1);
    assert_eq!(tokenizer.peek_snapshot().unwrap().index, 0);
}

#[test]
fn settle_follows_the_outcome() {
    let source = source("abc");
    let mut tokenizer = Tokenizer::new(&source, "abc".chars().collect());
    tokenizer.take_snapshot();
    tokenizer.advance_n(2);
    assert!(matches!(tokenizer.settle(Ok(None)), Ok(None)));
    assert_eq!(tokenizer.index(), 0);
    tokenizer.take_snapshot();
    tokenizer.advance_n(2);
    let token = Token::new(TokenType::Identifier, Position::new(0, 0, 2), "ab".to_string());
    assert!(matches!(tokenizer.settle(Ok(Some(token))), Ok(Some(_))));
    assert_eq!(tokenizer.index(), 2);
    assert!(tokenizer.peek_snapshot().is_none());
}
