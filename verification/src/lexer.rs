//! The recognizers of the language's lexemes and the driver that turns a
//! text into tokens.

use vstd::prelude::*;
use vstd::string::*;
use crate::diagnostic::{Diagnostic, DiagnosticModel, Fault, FaultModel};
use crate::source::Source;
use crate::token::{end_of_input, Position, Token, TokenModel, TokenType};
use crate::tokenizer::{lemma_walk_split, walk, Matcher, Recognized, Tokenizer};

verus! {

/// Whether a character is a decimal digit.
pub open spec fn is_digit(c: char) -> bool {
    48 <= c as u32 <= 57
}

/// Whether a character can begin a word: a letter of the basic alphabet,
/// an underscore, or any character beyond the basic alphabet.
pub open spec fn begins_word(c: char) -> bool {
    ||| 65 <= c as u32 <= 90
    ||| 97 <= c as u32 <= 122
    ||| c == '_'
    ||| c as u32 >= 128
}

/// Whether a character is skipped between tokens.
pub open spec fn is_blank(c: char) -> bool {
    c == ' ' || c == '\t' || c == '\r'
}

/// The classes of character that a run can be made of.
#[derive(Debug, Clone, Copy)]
pub enum Class {
    /// Decimal digits.
    Digit,
    /// Characters that can continue a word.
    Word,
    /// Everything but a double quote.
    Unquoted,
    /// Spaces, tabs and carriage returns.
    Blank,
}

impl Class {
    /// Whether a character belongs to the class.
    pub open spec fn holds(self, c: char) -> bool {
        match self {
            Class::Digit => is_digit(c),
            Class::Word => begins_word(c) || is_digit(c),
            Class::Unquoted => c != '"',
            Class::Blank => is_blank(c),
        }
    }

    /// Decides whether a character belongs to the class.
    pub fn accepts(&self, c: char) -> (accepted: bool)
        ensures
            accepted == self.holds(c),
    {
        let code = c as u32;
        match self {
            Class::Digit => 48 <= code && code <= 57,
            Class::Word => (65 <= code && code <= 90) || (97 <= code && code <= 122) || c == '_'
                || code >= 128 || (48 <= code && code <= 57),
            Class::Unquoted => c != '"',
            Class::Blank => c == ' ' || c == '\t' || c == '\r',
        }
    }
}

/// The length of the longest run of characters of one class that begins
/// at `from`.
pub open spec fn run(chars: Seq<char>, from: int, class: Class) -> nat
    decreases chars.len() - from,
{
    if 0 <= from < chars.len() && class.holds(chars[from]) {
        1 + run(chars, from + 1, class)
    } else {
        0
    }
}

/// The token that covers `length` characters of `chars` from `index` on,
/// with those characters as its lexeme.
pub open spec fn slice_token(
    token_type: TokenType,
    chars: Seq<char>,
    index: int,
    pos: (usize, usize),
    length: nat,
) -> Recognized {
    Recognized::Token {
        token: TokenModel {
            token_type,
            position: Position { line: pos.0, column: pos.1, length: length as usize },
            lexeme: chars.subrange(index, index + length),
        },
        length,
    }
}

/// Counts the run of one class that begins `offset` characters after the
/// cursor.
fn count(tokenizer: &Tokenizer, offset: usize, class: Class) -> (n: usize)
    requires
        tokenizer.cursor() + offset <= usize::MAX,
    ensures
        n == run(tokenizer.chars(), tokenizer.cursor() + offset, class),
        n > 0 ==> tokenizer.cursor() + offset + n <= tokenizer.chars().len(),
{
    let mut n: usize = 0;
    loop
        invariant
            tokenizer.cursor() + offset <= usize::MAX,
            n > 0 ==> tokenizer.cursor() + offset + n <= tokenizer.chars().len(),
            run(tokenizer.chars(), tokenizer.cursor() + offset, class) == n + run(
                tokenizer.chars(),
                tokenizer.cursor() + offset + n,
                class,
            ),
        ensures
            n == run(tokenizer.chars(), tokenizer.cursor() + offset, class),
            n > 0 ==> tokenizer.cursor() + offset + n <= tokenizer.chars().len(),
        decreases tokenizer.chars().len() - n,
    {
        if n >= tokenizer.len() || offset >= tokenizer.len() - n {
            break ;
        }
        match tokenizer.peek_n(offset + n) {
            Some(c) => {
                if class.accepts(c) {
                    n += 1;
                } else {
                    break ;
                }
            },
            None => {
                break ;
            },
        }
    }
    n
}

/// Takes the next `length` characters as a token of the given kind.
fn take(tokenizer: &mut Tokenizer, token_type: TokenType, length: usize) -> (token: Token)
    requires
        old(tokenizer).wf(),
        old(tokenizer).cursor() + length <= old(tokenizer).chars().len(),
    ensures
        final(tokenizer).wf(),
        final(tokenizer).chars() == old(tokenizer).chars(),
        final(tokenizer).origin() == old(tokenizer).origin(),
        final(tokenizer).saved() == old(tokenizer).saved(),
        old(tokenizer).found(
            final(tokenizer),
            Ok(Some(token)),
            slice_token(
                token_type,
                old(tokenizer).chars(),
                old(tokenizer).cursor() as int,
                old(tokenizer).place(),
                length as nat,
            ),
        ),
{
    let pos = tokenizer.position();
    let lexeme = match tokenizer.peek_range(length) {
        Some(lexeme) => lexeme,
        None => String::new(),
    };
    let _ = tokenizer.len();
    tokenizer.advance_n(length);
    Token::new(token_type, Position::new(pos.0, pos.1, length), lexeme)
}

/// Recognizes numbers: digits, or digits, a point and digits, or a point
/// and digits.
#[derive(Debug, Clone, Copy)]
pub struct NumberMatcher;

/// The kind and the length of the number that begins at `index`, if one
/// does.
pub open spec fn number_at(chars: Seq<char>, index: int) -> Option<(TokenType, nat)> {
    let whole = run(chars, index, Class::Digit);
    let point = index + whole;
    if point + 1 < chars.len() && chars[point] == '.' && is_digit(chars[point + 1]) {
        Some((TokenType::Float, whole + 1 + run(chars, point + 1, Class::Digit)))
    } else if whole > 0 {
        Some((TokenType::Int, whole))
    } else {
        None
    }
}

impl NumberMatcher {
    /// What the recognizer finds in `chars` at `index`, which is at the
    /// line and column `pos`.
    pub open spec fn recognize(&self, chars: Seq<char>, index: int, pos: (usize, usize)) -> Recognized {
        match number_at(chars, index) {
            Some((token_type, length)) => slice_token(token_type, chars, index, pos, length),
            None => Recognized::Nothing,
        }
    }
}

impl Matcher for NumberMatcher {
    fn try_match(&self, tokenizer: &mut Tokenizer) -> (outcome: Result<Option<Token>, Diagnostic>)
        ensures
            old(tokenizer).found(
                final(tokenizer),
                outcome,
                self.recognize(
                    old(tokenizer).chars(),
                    old(tokenizer).cursor() as int,
                    old(tokenizer).place(),
                ),
            ),
            !(outcome matches Ok(Some(_))) ==> old(tokenizer).rests(final(tokenizer)),
    {
        let whole = count(tokenizer, 0, Class::Digit);
        let len = tokenizer.len();
        let index = tokenizer.index();
        let fraction = if whole < len - index && len - index - whole >= 2 {
            match (tokenizer.peek_n(whole), tokenizer.peek_n(whole + 1)) {
                (Some(point), Some(digit)) => point == '.' && Class::Digit.accepts(digit),
                _ => false,
            }
        } else {
            false
        };
        if fraction {
            let digits = count(tokenizer, whole + 1, Class::Digit);
            Ok(Some(take(tokenizer, TokenType::Float, whole + 1 + digits)))
        } else if whole > 0 {
            Ok(Some(take(tokenizer, TokenType::Int, whole)))
        } else {
            Ok(None)
        }
    }
}

/// The strings of a list, element by element.
pub open spec fn texts(list: Seq<String>) -> Seq<Seq<char>> {
    Seq::new(list.len(), |i: int| list[i]@)
}

/// Recognizes words: names, truth values and reserved words.
#[derive(Debug)]
pub struct IdentifierMatcher {
    /// The reserved words.
    pub keywords: Vec<String>,
}

/// The length of the word that begins at `index`, if one does.
pub open spec fn word_at(chars: Seq<char>, index: int) -> Option<nat> {
    if 0 <= index < chars.len() && begins_word(chars[index]) {
        Some(1 + run(chars, index + 1, Class::Word))
    } else {
        None
    }
}

/// The kind of token that a word is.
pub open spec fn word_kind(word: Seq<char>, keywords: Seq<Seq<char>>) -> TokenType {
    if word == "true"@ || word == "false"@ {
        TokenType::Bool
    } else if keywords.contains(word) {
        TokenType::Keyword
    } else {
        TokenType::Identifier
    }
}

/// Decides whether a list of strings holds a given one.
fn holds_text(list: &Vec<String>, wanted: &String) -> (held: bool)
    ensures
        held == texts(list@).contains(wanted@),
{
    let mut i: usize = 0;
    while i < list.len()
        invariant
            i <= list.len(),
            forall|j: int| 0 <= j < i ==> texts(list@)[j] != wanted@,
        decreases list.len() - i,
    {
        if list[i] == *wanted {
            assert(texts(list@)[i as int] == wanted@);
            return true;
        }
        i += 1;
    }
    false
}

impl IdentifierMatcher {
    /// What the recognizer finds in `chars` at `index`, which is at the
    /// line and column `pos`.
    pub open spec fn recognize(&self, chars: Seq<char>, index: int, pos: (usize, usize)) -> Recognized {
        match word_at(chars, index) {
            Some(length) => slice_token(
                word_kind(chars.subrange(index, index + length), texts(self.keywords@)),
                chars,
                index,
                pos,
                length,
            ),
            None => Recognized::Nothing,
        }
    }
}

impl Matcher for IdentifierMatcher {
    fn try_match(&self, tokenizer: &mut Tokenizer) -> (outcome: Result<Option<Token>, Diagnostic>)
        ensures
            old(tokenizer).found(
                final(tokenizer),
                outcome,
                self.recognize(
                    old(tokenizer).chars(),
                    old(tokenizer).cursor() as int,
                    old(tokenizer).place(),
                ),
            ),
            !(outcome matches Ok(Some(_))) ==> old(tokenizer).rests(final(tokenizer)),
    {
        let first = match tokenizer.peek() {
            Some(c) => c,
            None => {
                return Ok(None);
            },
        };
        let code = first as u32;
        if !((65 <= code && code <= 90) || (97 <= code && code <= 122) || first == '_' || code
            >= 128) {
            return Ok(None);
        }
        let _ = tokenizer.len();
        let length = 1 + count(tokenizer, 1, Class::Word);
        let mut token = take(tokenizer, TokenType::Identifier, length);
        if token.lexeme == String::from_str("true") || token.lexeme == String::from_str("false") {
            token.token_type = TokenType::Bool;
        } else if holds_text(&self.keywords, &token.lexeme) {
            token.token_type = TokenType::Keyword;
        }
        Ok(Some(token))
    }
}

/// Recognizes the first of a list of fixed strings that the text goes on
/// with. Where one string of the list begins with another, the longer one
/// has to come first to be found.
#[derive(Debug)]
pub struct ConstantStringMatcher {
    pub token_type: TokenType,
    pub constants: Vec<String>,
}

/// Whether `chars` goes on with `constant` at `index`.
pub open spec fn goes_on_with(chars: Seq<char>, index: int, constant: Seq<char>) -> bool {
    &&& 0 <= index
    &&& index + constant.len() <= chars.len()
    &&& chars.subrange(index, index + constant.len()) == constant
}

/// The first of the constants from `from` on that is not empty and that
/// `chars` goes on with at `index`.
pub open spec fn first_constant(
    constants: Seq<Seq<char>>,
    chars: Seq<char>,
    index: int,
    from: nat,
) -> Option<Seq<char>>
    decreases constants.len() - from,
{
    if from >= constants.len() {
        None
    } else if constants[from as int].len() > 0 && goes_on_with(chars, index, constants[from as int]) {
        Some(constants[from as int])
    } else {
        first_constant(constants, chars, index, from + 1)
    }
}

impl ConstantStringMatcher {
    /// What the recognizer finds in `chars` at `index`, which is at the
    /// line and column `pos`.
    pub open spec fn recognize(&self, chars: Seq<char>, index: int, pos: (usize, usize)) -> Recognized {
        match first_constant(texts(self.constants@), chars, index, 0) {
            Some(constant) => slice_token(self.token_type, chars, index, pos, constant.len()),
            None => Recognized::Nothing,
        }
    }
}

impl Matcher for ConstantStringMatcher {
    fn try_match(&self, tokenizer: &mut Tokenizer) -> (outcome: Result<Option<Token>, Diagnostic>)
        ensures
            old(tokenizer).found(
                final(tokenizer),
                outcome,
                self.recognize(
                    old(tokenizer).chars(),
                    old(tokenizer).cursor() as int,
                    old(tokenizer).place(),
                ),
            ),
            !(outcome matches Ok(Some(_))) ==> old(tokenizer).rests(final(tokenizer)),
    {
        let mut i: usize = 0;
        while i < self.constants.len()
            invariant
                i <= self.constants.len(),
                tokenizer.wf(),
                *tokenizer == *old(tokenizer),
                first_constant(
                    texts(self.constants@),
                    tokenizer.chars(),
                    tokenizer.cursor() as int,
                    0,
                ) == first_constant(
                    texts(self.constants@),
                    tokenizer.chars(),
                    tokenizer.cursor() as int,
                    i as nat,
                ),
            decreases self.constants.len() - i,
        {
            let constant = &self.constants[i];
            assert(texts(self.constants@)[i as int] == constant@);
            let length = constant.as_str().unicode_len();
            if length > 0 {
                match tokenizer.peek_range(length) {
                    Some(text) => {
                        if text == *constant {
                            return Ok(Some(take(tokenizer, self.token_type, length)));
                        }
                    },
                    None => {},
                }
            }
            i += 1;
        }
        Ok(None)
    }
}

/// Recognizes any one of a list of characters.
#[derive(Debug)]
pub struct ConstantCharMatcher {
    pub token_type: TokenType,
    pub constants: Vec<char>,
}

impl ConstantCharMatcher {
    /// What the recognizer finds in `chars` at `index`, which is at the
    /// line and column `pos`.
    pub open spec fn recognize(&self, chars: Seq<char>, index: int, pos: (usize, usize)) -> Recognized {
        if 0 <= index < chars.len() && self.constants@.contains(chars[index]) {
            slice_token(self.token_type, chars, index, pos, 1)
        } else {
            Recognized::Nothing
        }
    }
}

impl Matcher for ConstantCharMatcher {
    fn try_match(&self, tokenizer: &mut Tokenizer) -> (outcome: Result<Option<Token>, Diagnostic>)
        ensures
            old(tokenizer).found(
                final(tokenizer),
                outcome,
                self.recognize(
                    old(tokenizer).chars(),
                    old(tokenizer).cursor() as int,
                    old(tokenizer).place(),
                ),
            ),
            !(outcome matches Ok(Some(_))) ==> old(tokenizer).rests(final(tokenizer)),
    {
        let c = match tokenizer.peek() {
            Some(c) => c,
            None => {
                return Ok(None);
            },
        };
        let mut i: usize = 0;
        while i < self.constants.len()
            invariant
                i <= self.constants.len(),
                tokenizer.wf(),
                *tokenizer == *old(tokenizer),
                !tokenizer.at_end(),
                c == tokenizer.chars()[tokenizer.cursor() as int],
                forall|j: int| 0 <= j < i ==> self.constants@[j] != c,
            decreases self.constants.len() - i,
        {
            if self.constants[i] == c {
                return Ok(Some(take(tokenizer, self.token_type, 1)));
            }
            i += 1;
        }
        Ok(None)
    }
}

/// The character that a backslash and `c` stand for in a literal.
pub open spec fn escape(c: char) -> Option<char> {
    if c == 'n' {
        Some('\n')
    } else if c == 't' {
        Some('\t')
    } else if c == 'r' {
        Some('\r')
    } else if c == '0' {
        Some('\0')
    } else if c == '\\' || c == '"' || c == '\'' {
        Some(c)
    } else {
        None
    }
}

/// Resolves an escape.
pub fn unescape(c: char) -> (resolved: Option<char>)
    ensures
        resolved == escape(c),
{
    if c == 'n' {
        Some('\n')
    } else if c == 't' {
        Some('\t')
    } else if c == 'r' {
        Some('\r')
    } else if c == '0' {
        Some('\0')
    } else if c == '\\' || c == '"' || c == '\'' {
        Some(c)
    } else {
        None
    }
}

/// A malformed lexeme that begins at the line and column `pos` and is
/// reported over its first `length` characters.
pub open spec fn malformed(fault: FaultModel, pos: (usize, usize), length: usize) -> Recognized {
    Recognized::Malformed {
        fault,
        position: Some(Position { line: pos.0, column: pos.1, length }),
    }
}

/// The diagnostic for a malformed lexeme at the cursor.
fn complain(tokenizer: &Tokenizer, fault: Fault, length: usize) -> (diagnostic: Diagnostic)
    ensures
        tokenizer.found(tokenizer, Err(diagnostic), malformed(fault@, tokenizer.place(), length)),
{
    let pos = tokenizer.position();
    Diagnostic::new(
        fault,
        tokenizer.source().file.as_str(),
        Some(Position::new(pos.0, pos.1, length)),
    )
}

/// How the body of a string literal ends.
pub enum Scanned {
    /// At a closing quote: the text of the literal, escapes resolved, and
    /// the index behind the quote.
    Closed { text: Seq<char>, end: int },
    /// At the end of the input.
    Open,
    /// At a backslash before a character that names no escape.
    BadEscape(char),
}

/// Reads the body of a string literal from `from` on, where `text` is
/// what has been read of it so far.
pub open spec fn scan_string(chars: Seq<char>, from: int, text: Seq<char>) -> Scanned
    decreases chars.len() - from,
{
    if from < 0 || from >= chars.len() {
        Scanned::Open
    } else if chars[from] == '"' {
        Scanned::Closed { text, end: from + 1 }
    } else if chars[from] == '\\' {
        if from + 1 >= chars.len() {
            Scanned::Open
        } else {
            match escape(chars[from + 1]) {
                Some(c) => scan_string(chars, from + 2, text.push(c)),
                None => Scanned::BadEscape(chars[from + 1]),
            }
        }
    } else {
        scan_string(chars, from + 1, text.push(chars[from]))
    }
}

/// Recognizes string literals between double quotes, with escapes.
#[derive(Debug, Clone, Copy)]
pub struct StringMatcher;

impl StringMatcher {
    /// What the recognizer finds in `chars` at `index`, which is at the
    /// line and column `pos`.
    pub open spec fn recognize(&self, chars: Seq<char>, index: int, pos: (usize, usize)) -> Recognized {
        if 0 <= index < chars.len() && chars[index] == '"' {
            match scan_string(chars, index + 1, Seq::empty()) {
                Scanned::Closed { text, end } => Recognized::Token {
                    token: TokenModel {
                        token_type: TokenType::Str,
                        position: Position {
                            line: pos.0,
                            column: pos.1,
                            length: (end - index) as usize,
                        },
                        lexeme: text,
                    },
                    length: (end - index) as nat,
                },
                Scanned::Open => malformed(FaultModel::UnterminatedString, pos, 1),
                Scanned::BadEscape(c) => malformed(FaultModel::InvalidEscape(c), pos, 1),
            }
        } else {
            Recognized::Nothing
        }
    }
}

impl Matcher for StringMatcher {
    fn try_match(&self, tokenizer: &mut Tokenizer) -> (outcome: Result<Option<Token>, Diagnostic>)
        ensures
            old(tokenizer).found(
                final(tokenizer),
                outcome,
                self.recognize(
                    old(tokenizer).chars(),
                    old(tokenizer).cursor() as int,
                    old(tokenizer).place(),
                ),
            ),
            !(outcome matches Ok(Some(_))) ==> old(tokenizer).rests(final(tokenizer)),
    {
        match tokenizer.peek() {
            Some(c) => {
                if c != '"' {
                    return Ok(None);
                }
            },
            None => {
                return Ok(None);
            },
        }
        let pos = tokenizer.position();
        let len = tokenizer.len();
        let index = tokenizer.index();
        let mut text = String::new();
        let mut k: usize = 1;
        loop
            invariant
                *tokenizer == *old(tokenizer),
                tokenizer.wf(),
                len == tokenizer.chars().len(),
                index == tokenizer.cursor(),
                pos == tokenizer.place(),
                index < len,
                tokenizer.chars()[index as int] == '"',
                1 <= k <= len - index,
                scan_string(tokenizer.chars(), index + 1, Seq::empty()) == scan_string(
                    tokenizer.chars(),
                    index + k,
                    text@,
                ),
            decreases len - index - k,
        {
            if k >= len - index {
                return Err(complain(tokenizer, Fault::UnterminatedString, 1));
            }
            let c = match tokenizer.peek_n(k) {
                Some(c) => c,
                None => {
                    return Err(complain(tokenizer, Fault::UnterminatedString, 1));
                },
            };
            if c == '"' {
                let length = k + 1;
                tokenizer.advance_n(length);
                return Ok(Some(Token::new(TokenType::Str, Position::new(pos.0, pos.1, length), text)));
            } else if c == '\\' {
                if k + 1 >= len - index {
                        return Err(complain(tokenizer, Fault::UnterminatedString, 1));
                }
                let escaped = match tokenizer.peek_n(k + 1) {
                    Some(escaped) => escaped,
                    None => {
                        return Err(complain(tokenizer, Fault::UnterminatedString, 1));
                    },
                };
                match unescape(escaped) {
                    Some(resolved) => {
                        text.push(resolved);
                        k += 2;
                    },
                    None => {
                        return Err(complain(tokenizer, Fault::InvalidEscape(escaped), 1));
                    },
                }
            } else {
                text.push(c);
                k += 1;
            }
        }
    }
}

/// Recognizes raw string literals: an `r`, then text between double
/// quotes that is taken as it stands.
#[derive(Debug, Clone, Copy)]
pub struct RawStringMatcher;

impl RawStringMatcher {
    /// What the recognizer finds in `chars` at `index`, which is at the
    /// line and column `pos`.
    pub open spec fn recognize(&self, chars: Seq<char>, index: int, pos: (usize, usize)) -> Recognized {
        if 0 <= index && index + 1 < chars.len() && chars[index] == 'r' && chars[index + 1] == '"' {
            let inside = run(chars, index + 2, Class::Unquoted);
            if index + 2 + inside < chars.len() {
                Recognized::Token {
                    token: TokenModel {
                        token_type: TokenType::Raw,
                        position: Position {
                            line: pos.0,
                            column: pos.1,
                            length: (inside + 3) as usize,
                        },
                        lexeme: chars.subrange(index + 2, index + 2 + inside),
                    },
                    length: inside + 3,
                }
            } else {
                malformed(FaultModel::UnterminatedString, pos, 2)
            }
        } else {
            Recognized::Nothing
        }
    }
}

impl Matcher for RawStringMatcher {
    fn try_match(&self, tokenizer: &mut Tokenizer) -> (outcome: Result<Option<Token>, Diagnostic>)
        ensures
            old(tokenizer).found(
                final(tokenizer),
                outcome,
                self.recognize(
                    old(tokenizer).chars(),
                    old(tokenizer).cursor() as int,
                    old(tokenizer).place(),
                ),
            ),
            !(outcome matches Ok(Some(_))) ==> old(tokenizer).rests(final(tokenizer)),
    {
        let len = tokenizer.len();
        let index = tokenizer.index();
        if len - index < 2 {
            return Ok(None);
        }
        match (tokenizer.peek_n(0), tokenizer.peek_n(1)) {
            (Some(first), Some(second)) => {
                if first != 'r' || second != '"' {
                    return Ok(None);
                }
            },
            _ => {
                return Ok(None);
            },
        }
        let pos = tokenizer.position();
        let inside = count(tokenizer, 2, Class::Unquoted);
        if inside >= len - index - 2 {
            return Err(complain(tokenizer, Fault::UnterminatedString, 2));
        }
        tokenizer.advance_n(2);
        let lexeme = match tokenizer.peek_range(inside) {
            Some(lexeme) => lexeme,
            None => String::new(),
        };
        tokenizer.advance_n(inside + 1);
        proof {
            lemma_walk_split(
                old(tokenizer).chars(),
                index as int,
                old(tokenizer).place(),
                2,
                (inside + 1) as nat,
            );
        }
        Ok(Some(Token::new(TokenType::Raw, Position::new(pos.0, pos.1, inside + 3), lexeme)))
    }
}

/// Recognizes character literals between single quotes: one character, or
/// one escape.
#[derive(Debug, Clone, Copy)]
pub struct CharMatcher;

/// The character and the length of the character literal that begins at
/// `index`, where a single quote stands.
pub open spec fn char_at(chars: Seq<char>, index: int) -> Result<(char, nat), FaultModel> {
    if index + 1 < chars.len() && chars[index + 1] == '\\' {
        if index + 3 < chars.len() && chars[index + 3] == '\'' {
            match escape(chars[index + 2]) {
                Some(c) => Ok((c, 4nat)),
                None => Err(FaultModel::InvalidEscape(chars[index + 2])),
            }
        } else {
            Err(FaultModel::UnterminatedChar)
        }
    } else if index + 2 < chars.len() && chars[index + 1] != '\'' && chars[index + 2] == '\'' {
        Ok((chars[index + 1], 3nat))
    } else {
        Err(FaultModel::UnterminatedChar)
    }
}

impl CharMatcher {
    /// What the recognizer finds in `chars` at `index`, which is at the
    /// line and column `pos`.
    pub open spec fn recognize(&self, chars: Seq<char>, index: int, pos: (usize, usize)) -> Recognized {
        if 0 <= index < chars.len() && chars[index] == '\'' {
            match char_at(chars, index) {
                Ok((c, length)) => Recognized::Token {
                    token: TokenModel {
                        token_type: TokenType::Char,
                        position: Position { line: pos.0, column: pos.1, length: length as usize },
                        lexeme: seq![c],
                    },
                    length,
                },
                Err(fault) => malformed(fault, pos, 1),
            }
        } else {
            Recognized::Nothing
        }
    }
}

impl Matcher for CharMatcher {
    fn try_match(&self, tokenizer: &mut Tokenizer) -> (outcome: Result<Option<Token>, Diagnostic>)
        ensures
            old(tokenizer).found(
                final(tokenizer),
                outcome,
                self.recognize(
                    old(tokenizer).chars(),
                    old(tokenizer).cursor() as int,
                    old(tokenizer).place(),
                ),
            ),
            !(outcome matches Ok(Some(_))) ==> old(tokenizer).rests(final(tokenizer)),
    {
        match tokenizer.peek() {
            Some(c) => {
                if c != '\'' {
                    return Ok(None);
                }
            },
            None => {
                return Ok(None);
            },
        }
        let pos = tokenizer.position();
        let len = tokenizer.len();
        let index = tokenizer.index();
        let (c, length): (char, usize) = match tokenizer.peek_n(1) {
            Some('\\') => {
                if len - index < 4 {
                    return Err(complain(tokenizer, Fault::UnterminatedChar, 1));
                }
                match (tokenizer.peek_n(2), tokenizer.peek_n(3)) {
                    (Some(escaped), Some('\'')) => match unescape(escaped) {
                        Some(c) => (c, 4),
                        None => {
                            return Err(complain(tokenizer, Fault::InvalidEscape(escaped), 1));
                        },
                    },
                    _ => {
                        return Err(complain(tokenizer, Fault::UnterminatedChar, 1));
                    },
                }
            },
            Some(c) => {
                if len - index < 3 || c == '\'' {
                    return Err(complain(tokenizer, Fault::UnterminatedChar, 1));
                }
                match tokenizer.peek_n(2) {
                    Some('\'') => (c, 3),
                    _ => {
                        return Err(complain(tokenizer, Fault::UnterminatedChar, 1));
                    },
                }
            },
            None => {
                return Err(complain(tokenizer, Fault::UnterminatedChar, 1));
            },
        };
        let mut lexeme = String::new();
        lexeme.push(c);
        tokenizer.advance_n(length);
        assert(lexeme@ =~= seq![c]);
        Ok(Some(Token::new(TokenType::Char, Position::new(pos.0, pos.1, length), lexeme)))
    }
}

/// The first of two findings that is not nothing.
pub open spec fn or_else(first: Recognized, second: Recognized) -> Recognized {
    if first is Nothing {
        second
    } else {
        first
    }
}

/// The recognizers of the language, in the order in which they are tried:
/// numbers, strings, raw strings, characters, words, operators, symbols.
#[derive(Debug)]
pub struct Matchers {
    pub number: NumberMatcher,
    pub string: StringMatcher,
    pub raw: RawStringMatcher,
    pub character: CharMatcher,
    pub identifier: IdentifierMatcher,
    pub operators: ConstantStringMatcher,
    pub symbols: ConstantCharMatcher,
}

/// The reserved words of the language.
pub open spec fn reserved_words() -> Seq<Seq<char>> {
    seq!["if"@, "else"@, "while"@, "return"@]
}

/// The operators of the language, those of two characters first.
pub open spec fn operator_lexemes() -> Seq<Seq<char>> {
    seq![
        "->"@,
        ":="@,
        "::"@,
        "=="@,
        "!="@,
        "<="@,
        ">="@,
        "&&"@,
        "||"@,
        "+"@,
        "-"@,
        "*"@,
        "/"@,
        "%"@,
        "<"@,
        ">"@,
        "!"@,
        "="@,
        ":"@,
    ]
}

/// The symbols of the language. The end of a line is one of them.
pub open spec fn symbol_lexemes() -> Seq<char> {
    seq!['(', ')', ',', '{', '}', '\n']
}

/// Closes an attempt of one recognizer among several, which began with a
/// snapshot: where it found nothing, the cursor goes back to the snapshot
/// and the next recognizer can try; else its report stands, and the
/// snapshot is dropped.
fn close(tokenizer: &mut Tokenizer, outcome: Result<Option<Token>, Diagnostic>) -> (report: Option<
    Result<Option<Token>, Diagnostic>,
>)
    requires
        old(tokenizer).saved().len() > 0,
        old(tokenizer).wf(),
    ensures
        final(tokenizer).wf(),
        final(tokenizer).chars() == old(tokenizer).chars(),
        final(tokenizer).origin() == old(tokenizer).origin(),
        final(tokenizer).saved() == old(tokenizer).saved().drop_last(),
        outcome matches Ok(None) ==> {
            &&& report is None
            &&& final(tokenizer).cursor() == old(tokenizer).saved().last().index
            &&& final(tokenizer).place() == old(tokenizer).saved().last().pos
        },
        !(outcome matches Ok(None)) ==> {
            &&& report == Some(outcome)
            &&& final(tokenizer).cursor() == old(tokenizer).cursor()
            &&& final(tokenizer).place() == old(tokenizer).place()
        },
{
    match tokenizer.settle(outcome) {
        Ok(None) => None,
        Ok(Some(token)) => Some(Ok(Some(token))),
        Err(diagnostic) => {
            tokenizer.commit_snapshot();
            Some(Err(diagnostic))
        },
    }
}

impl Matchers {
    /// What the recognizer finds in `chars` at `index`, which is at the
    /// line and column `pos`.
    pub open spec fn recognize(&self, chars: Seq<char>, index: int, pos: (usize, usize)) -> Recognized {
        or_else(
            self.number.recognize(chars, index, pos),
            or_else(
                self.string.recognize(chars, index, pos),
                or_else(
                    self.raw.recognize(chars, index, pos),
                    or_else(
                        self.character.recognize(chars, index, pos),
                        or_else(
                            self.identifier.recognize(chars, index, pos),
                            or_else(
                                self.operators.recognize(chars, index, pos),
                                self.symbols.recognize(chars, index, pos),
                            ),
                        ),
                    ),
                ),
            ),
        )
    }
}

impl Matcher for Matchers {
    fn try_match(&self, tokenizer: &mut Tokenizer) -> (outcome: Result<Option<Token>, Diagnostic>)
        ensures
            old(tokenizer).found(
                final(tokenizer),
                outcome,
                self.recognize(
                    old(tokenizer).chars(),
                    old(tokenizer).cursor() as int,
                    old(tokenizer).place(),
                ),
            ),
            !(outcome matches Ok(Some(_))) ==> old(tokenizer).rests(final(tokenizer)),
    {
        tokenizer.take_snapshot();
        let outcome = self.number.try_match(tokenizer);
        proof {
            assert(tokenizer.saved().drop_last() =~= old(tokenizer).saved());
        }
        match close(tokenizer, outcome) {
            Some(report) => {
                return report;
            },
            None => {},
        }
        tokenizer.take_snapshot();
        let outcome = self.string.try_match(tokenizer);
        proof {
            assert(tokenizer.saved().drop_last() =~= old(tokenizer).saved());
        }
        match close(tokenizer, outcome) {
            Some(report) => {
                return report;
            },
            None => {},
        }
        tokenizer.take_snapshot();
        let outcome = self.raw.try_match(tokenizer);
        proof {
            assert(tokenizer.saved().drop_last() =~= old(tokenizer).saved());
        }
        match close(tokenizer, outcome) {
            Some(report) => {
                return report;
            },
            None => {},
        }
        tokenizer.take_snapshot();
        let outcome = self.character.try_match(tokenizer);
        proof {
            assert(tokenizer.saved().drop_last() =~= old(tokenizer).saved());
        }
        match close(tokenizer, outcome) {
            Some(report) => {
                return report;
            },
            None => {},
        }
        tokenizer.take_snapshot();
        let outcome = self.identifier.try_match(tokenizer);
        proof {
            assert(tokenizer.saved().drop_last() =~= old(tokenizer).saved());
        }
        match close(tokenizer, outcome) {
            Some(report) => {
                return report;
            },
            None => {},
        }
        tokenizer.take_snapshot();
        let outcome = self.operators.try_match(tokenizer);
        proof {
            assert(tokenizer.saved().drop_last() =~= old(tokenizer).saved());
        }
        match close(tokenizer, outcome) {
            Some(report) => {
                return report;
            },
            None => {},
        }
        tokenizer.take_snapshot();
        let outcome = self.symbols.try_match(tokenizer);
        proof {
            assert(tokenizer.saved().drop_last() =~= old(tokenizer).saved());
        }
        match close(tokenizer, outcome) {
            Some(report) => {
                return report;
            },
            None => {},
        }
        Ok(None)
    }
}

/// Makes a list of strings out of literals.
fn owned(literals: &[&str]) -> (list: Vec<String>)
    ensures
        list@.len() == literals@.len(),
        forall|i: int| 0 <= i < literals@.len() ==> (#[trigger] list@[i])@ == literals@[i]@,
{
    let mut list: Vec<String> = Vec::new();
    let mut i: usize = 0;
    while i < literals.len()
        invariant
            i <= literals@.len(),
            list@.len() == i,
            forall|j: int| 0 <= j < i ==> (#[trigger] list@[j])@ == literals@[j]@,
        decreases literals.len() - i,
    {
        list.push(String::from_str(literals[i]));
        i += 1;
    }
    list
}

impl Matchers {
    /// The recognizers with the language's reserved words, operators and
    /// symbols.
    pub fn default() -> (matchers: Matchers)
        ensures
            texts(matchers.identifier.keywords@) == reserved_words(),
            matchers.operators.token_type == TokenType::Operator,
            texts(matchers.operators.constants@) == operator_lexemes(),
            matchers.symbols.token_type == TokenType::Symbol,
            matchers.symbols.constants@ == symbol_lexemes(),
    {
        let keywords = owned(&["if", "else", "while", "return"]);
        let operators = owned(
            &[
                "->",
                ":=",
                "::",
                "==",
                "!=",
                "<=",
                ">=",
                "&&",
                "||",
                "+",
                "-",
                "*",
                "/",
                "%",
                "<",
                ">",
                "!",
                "=",
                ":",
            ],
        );
        let symbols = vec!['(', ')', ',', '{', '}', '\n'];
        assert(texts(keywords@) =~= reserved_words());
        assert(texts(operators@) =~= operator_lexemes());
        assert(symbols@ =~= symbol_lexemes());
        Matchers {
            number: NumberMatcher,
            string: StringMatcher,
            raw: RawStringMatcher,
            character: CharMatcher,
            identifier: IdentifierMatcher { keywords },
            operators: ConstantStringMatcher { token_type: TokenType::Operator, constants: operators },
            symbols: ConstantCharMatcher { token_type: TokenType::Symbol, constants: symbols },
        }
    }
}

/// What comes next in `chars` from `index` on: blanks are passed over;
/// then the input ends, or one of the recognizers finds a token or a
/// malformed lexeme, or no token begins with the next character. The
/// length of a token counts the blanks before it.
pub open spec fn next(matchers: Matchers, chars: Seq<char>, index: int, pos: (usize, usize)) -> Recognized {
    let blanks = run(chars, index, Class::Blank);
    let start = index + blanks;
    let at = walk(chars, index, pos, blanks);
    if start >= chars.len() {
        Recognized::Token { token: end_of_input(at), length: blanks }
    } else {
        match matchers.recognize(chars, start, at) {
            Recognized::Token { token, length } => Recognized::Token {
                token,
                length: blanks + length,
            },
            Recognized::Nothing => malformed(FaultModel::UnexpectedCharacter(chars[start]), at, 1),
            Recognized::Malformed { fault, position } => Recognized::Malformed { fault, position },
        }
    }
}

/// The tokens of `chars` from `index` on, up to and with the token that
/// marks the end of the input, or the first malformed lexeme. A token
/// that covers nothing, or more than is left of the text, ends the list
/// as well.
pub open spec fn lex(matchers: Matchers, chars: Seq<char>, index: int, pos: (usize, usize)) -> Result<
    Seq<TokenModel>,
    (FaultModel, Option<Position>),
>
    decreases chars.len() - index,
{
    match next(matchers, chars, index, pos) {
        Recognized::Token { token, length } => {
            if token.token_type is EOF || length == 0 || index < 0 || index + length
                > chars.len() {
                Ok(seq![token])
            } else {
                match lex(matchers, chars, index + length, walk(chars, index, pos, length)) {
                    Ok(rest) => Ok(seq![token] + rest),
                    Err(fault) => Err(fault),
                }
            }
        },
        Recognized::Nothing => Ok(Seq::empty()),
        Recognized::Malformed { fault, position } => Err((fault, position)),
    }
}

/// The values of a list of tokens, element by element.
pub open spec fn token_models(tokens: Seq<Token>) -> Seq<TokenModel> {
    Seq::new(tokens.len(), |i: int| tokens[i]@)
}

/// The driver: a cursor over the text and the recognizers to try at it.
pub struct Lexer<'l> {
    pub tokenizer: Tokenizer<'l>,
    pub matchers: Matchers,
}

impl<'l> Lexer<'l> {
    /// A lexer over `items` with the language's own recognizers.
    pub fn default(items: Vec<char>, source: &'l Source) -> (lexer: Self)
        ensures
            lexer.tokenizer.wf(),
            lexer.tokenizer.chars() == items@,
            lexer.tokenizer.cursor() == 0,
            lexer.tokenizer.place() == (0usize, 0usize),
            lexer.tokenizer.saved() == Seq::<crate::tokenizer::Snapshot>::empty(),
            lexer.tokenizer.origin() == *source,
            texts(lexer.matchers.identifier.keywords@) == reserved_words(),
            lexer.matchers.operators.token_type == TokenType::Operator,
            texts(lexer.matchers.operators.constants@) == operator_lexemes(),
            lexer.matchers.symbols.token_type == TokenType::Symbol,
            lexer.matchers.symbols.constants@ == symbol_lexemes(),
    {
        Lexer { tokenizer: Tokenizer::new(source, items), matchers: Matchers::default() }
    }

    /// Reads the next token: the blanks before it are passed over, and
    /// the cursor ends up behind it. At the end of the input the token
    /// that marks the end is given, again and again.
    pub fn next_token(&mut self) -> (result: Result<Token, Diagnostic>)
        requires
            old(self).tokenizer.wf(),
        ensures
            final(self).tokenizer.wf(),
            final(self).matchers == old(self).matchers,
            final(self).tokenizer.chars() == old(self).tokenizer.chars(),
            final(self).tokenizer.origin() == old(self).tokenizer.origin(),
            final(self).tokenizer.saved() == old(self).tokenizer.saved(),
            old(self).tokenizer.found(
                &final(self).tokenizer,
                match result {
                    Ok(token) => Ok(Some(token)),
                    Err(diagnostic) => Err(diagnostic),
                },
                next(
                    old(self).matchers,
                    old(self).tokenizer.chars(),
                    old(self).tokenizer.cursor() as int,
                    old(self).tokenizer.place(),
                ),
            ),
            result is Err ==> {
                let blanks = run(
                    old(self).tokenizer.chars(),
                    old(self).tokenizer.cursor() as int,
                    Class::Blank,
                );
                &&& final(self).tokenizer.cursor() == old(self).tokenizer.cursor() + blanks
                &&& final(self).tokenizer.place() == walk(
                    old(self).tokenizer.chars(),
                    old(self).tokenizer.cursor() as int,
                    old(self).tokenizer.place(),
                    blanks,
                )
            },
    {
        let blanks = count(&self.tokenizer, 0, Class::Blank);
        let _ = self.tokenizer.len();
        self.tokenizer.advance_n(blanks);
        if self.tokenizer.end() {
            let pos = self.tokenizer.position();
            return Ok(Token::new(TokenType::EOF, Position::new(pos.0, pos.1, 0), String::new()));
        }
        let first = match self.tokenizer.peek() {
            Some(c) => c,
            None => ' ',
        };
        let ghost start = self.tokenizer.cursor();
        let ghost at = self.tokenizer.place();
        match self.matchers.try_match(&mut self.tokenizer) {
            Ok(Some(token)) => {
                proof {
                    let found = self.matchers.recognize(self.tokenizer.chars(), start as int, at);
                    lemma_walk_split(
                        self.tokenizer.chars(),
                        old(self).tokenizer.cursor() as int,
                        old(self).tokenizer.place(),
                        blanks as nat,
                        found->length,
                    );
                }
                Ok(token)
            },
            Err(diagnostic) => Err(diagnostic),
            Ok(None) => Err(complain(&self.tokenizer, Fault::UnexpectedCharacter(first), 1)),
        }
    }

    /// Reads all the tokens of the text from the cursor on.
    pub fn tokenize(self) -> (result: Result<Vec<Token>, Diagnostic>)
        requires
            self.tokenizer.wf(),
        ensures
            match lex(
                self.matchers,
                self.tokenizer.chars(),
                self.tokenizer.cursor() as int,
                self.tokenizer.place(),
            ) {
                Ok(tokens) => result is Ok && token_models(result->Ok_0@) == tokens,
                Err((fault, position)) => result is Err && result->Err_0@ == (DiagnosticModel {
                    fault,
                    file: self.tokenizer.origin().file@,
                    position,
                }),
            },
    {
        let mut lexer = self;
        let mut tokens: Vec<Token> = Vec::new();
        loop
            invariant
                lexer.tokenizer.wf(),
                lexer.matchers == self.matchers,
                lexer.tokenizer.chars() == self.tokenizer.chars(),
                lexer.tokenizer.origin() == self.tokenizer.origin(),
                lex(
                    self.matchers,
                    self.tokenizer.chars(),
                    self.tokenizer.cursor() as int,
                    self.tokenizer.place(),
                ) == match lex(
                    self.matchers,
                    self.tokenizer.chars(),
                    lexer.tokenizer.cursor() as int,
                    lexer.tokenizer.place(),
                ) {
                    Ok(rest) => Ok(token_models(tokens@) + rest),
                    Err(fault) => Err(fault),
                },
            decreases lexer.tokenizer.chars().len() - lexer.tokenizer.cursor(),
        {
            let before = lexer.tokenizer.index();
            let _ = lexer.tokenizer.len();
            let token = match lexer.next_token() {
                Ok(token) => token,
                Err(diagnostic) => {
                    return Err(diagnostic);
                },
            };
            let last = token.token_type == TokenType::EOF || lexer.tokenizer.index() == before
                || lexer.tokenizer.index() > lexer.tokenizer.len();
            let ghost earlier = token_models(tokens@);
            tokens.push(token);
            assert(token_models(tokens@) =~= earlier + seq![token@]);
            if last {
                return Ok(tokens);
            }
            proof {
                let rest = lex(
                    self.matchers,
                    self.tokenizer.chars(),
                    lexer.tokenizer.cursor() as int,
                    lexer.tokenizer.place(),
                );
                if rest is Ok {
                    assert(earlier + (seq![token@] + rest->Ok_0) =~= token_models(tokens@)
                        + rest->Ok_0);
                }
            }
        }
    }
}

} // verus!
