//! A cursor over the characters of a source text that can save its place
//! and come back to it.

use vstd::prelude::*;
use crate::diagnostic::{Diagnostic, DiagnosticModel, FaultModel};
use crate::source::Source;
use crate::token::{end_of_input, Position, Token, TokenModel, TokenType};

verus! {

/// A saved place of the cursor: the index of a character and the line and
/// column that went with it.
#[derive(Debug, Clone, Copy)]
pub struct Snapshot {
    pub index: usize,
    pub pos: (usize, usize),
}

impl Snapshot {
    /// A snapshot from its parts.
    pub fn new(index: usize, pos: (usize, usize)) -> (snapshot: Snapshot)
        ensures
            snapshot == (Snapshot { index, pos }),
    {
        Snapshot { index, pos }
    }

    /// The line and column never count more than the characters passed.
    pub open spec fn wf(self) -> bool {
        self.pos.0 + self.pos.1 <= self.index
    }
}

/// The line and column after the character at `index` is consumed: a
/// newline starts a new line at column zero, any other character is one
/// column further, and past the last character nothing changes.
pub open spec fn step(chars: Seq<char>, index: int, pos: (usize, usize)) -> (usize, usize) {
    if 0 <= index < chars.len() {
        if chars[index] == '\n' {
            ((pos.0 + 1) as usize, 0usize)
        } else {
            (pos.0, (pos.1 + 1) as usize)
        }
    } else {
        pos
    }
}

/// The line and column after `n` steps from the character at `index`.
pub open spec fn walk(chars: Seq<char>, index: int, pos: (usize, usize), n: nat) -> (usize, usize)
    decreases n,
{
    if n == 0 {
        pos
    } else {
        step(chars, index + n - 1, walk(chars, index, pos, (n - 1) as nat))
    }
}

/// Walking `a + b` steps is walking `a` steps and then `b` more.
pub proof fn lemma_walk_split(chars: Seq<char>, index: int, pos: (usize, usize), a: nat, b: nat)
    ensures
        walk(chars, index, pos, a + b) == walk(chars, index + a, walk(chars, index, pos, a), b),
    decreases b,
{
    if b > 0 {
        lemma_walk_split(chars, index, pos, a, (b - 1) as nat);
    }
}

/// What a recognizer finds at a place in a text.
pub enum Recognized {
    /// A token that covers the next `length` characters.
    Token { token: TokenModel, length: nat },
    /// Nothing of the recognizer's shape.
    Nothing,
    /// A malformed lexeme.
    Malformed { fault: FaultModel, position: Option<Position> },
}

/// A recognizer of one shape of lexeme. It reads from the cursor and
/// reports a token, no match, or a malformed lexeme. It may move the
/// cursor and use snapshots of its own, as long as it leaves the stack of
/// snapshots as it found it.
pub trait Matcher {
    fn try_match(&self, tokenizer: &mut Tokenizer) -> (outcome: Result<Option<Token>, Diagnostic>)
        requires
            old(tokenizer).wf(),
            !old(tokenizer).at_end(),
        ensures
            final(tokenizer).wf(),
            final(tokenizer).chars() == old(tokenizer).chars(),
            final(tokenizer).origin() == old(tokenizer).origin(),
            final(tokenizer).saved() == old(tokenizer).saved(),
    ;
}

/// The cursor: an index into the characters, the line and column of that
/// index, and a stack of snapshots.
pub struct Tokenizer<'t> {
    pub pos: (usize, usize),
    index: usize,
    source: &'t Source,
    items: Vec<char>,
    snapshots: Vec<Snapshot>,
}

impl<'t> Tokenizer<'t> {
    /// The index of the character under the cursor.
    pub closed spec fn cursor(&self) -> usize {
        self.index
    }

    /// The line and column of the character under the cursor.
    pub closed spec fn place(&self) -> (usize, usize) {
        self.pos
    }

    /// The characters the cursor runs over.
    pub closed spec fn chars(&self) -> Seq<char> {
        self.items@
    }

    /// The stack of snapshots, the latest last.
    pub closed spec fn saved(&self) -> Seq<Snapshot> {
        self.snapshots@
    }

    /// The source the characters came from.
    pub closed spec fn origin(&self) -> Source {
        *self.source
    }

    /// Whether the cursor has passed the last character.
    pub open spec fn at_end(&self) -> bool {
        self.cursor() >= self.chars().len()
    }

    /// The line and column never count more than the characters passed,
    /// in the cursor itself and in every snapshot.
    pub open spec fn wf(&self) -> bool {
        &&& self.place().0 + self.place().1 <= self.cursor()
        &&& forall|i: int| 0 <= i < self.saved().len() ==> (#[trigger] self.saved()[i]).wf()
    }

    /// Whether the cursor stands in `after` where it stands now.
    pub open spec fn rests(&self, after: &Tokenizer<'t>) -> bool {
        after.cursor() == self.cursor() && after.place() == self.place()
    }

    /// Whether `outcome` and the place of the cursor `after` are what a
    /// recognizer that found `recognized` at the cursor reports.
    pub open spec fn found(
        &self,
        after: &Tokenizer<'t>,
        outcome: Result<Option<Token>, Diagnostic>,
        recognized: Recognized,
    ) -> bool {
        match recognized {
            Recognized::Token { token, length } => {
                &&& outcome matches Ok(Some(t))
                &&& t@ == token
                &&& after.cursor() == self.cursor() + length
                &&& after.place() == walk(self.chars(), self.cursor() as int, self.place(), length)
            },
            Recognized::Nothing => outcome matches Ok(None),
            Recognized::Malformed { fault, position } => {
                &&& outcome matches Err(diagnostic)
                &&& diagnostic@ == (DiagnosticModel {
                    fault,
                    file: self.origin().file@,
                    position,
                })
            },
        }
    }

    /// A cursor at the first character of `items`, at line and column zero,
    /// with no snapshot.
    pub fn new(source: &'t Source, items: Vec<char>) -> (tokenizer: Self)
        ensures
            tokenizer.place() == (0usize, 0usize),
            tokenizer.cursor() == 0,
            tokenizer.chars() == items@,
            tokenizer.saved() == Seq::<Snapshot>::empty(),
            tokenizer.origin() == *source,
            tokenizer.wf(),
    {
        Tokenizer { pos: (0, 0), source, items, index: 0, snapshots: Vec::new() }
    }

    /// The index of the character under the cursor.
    pub fn index(&self) -> (index: usize)
        ensures
            index == self.cursor(),
    {
        self.index
    }

    /// The line and column of the character under the cursor.
    pub fn position(&self) -> (pos: (usize, usize))
        ensures
            pos == self.place(),
    {
        self.pos
    }

    /// The source the characters came from.
    pub fn source(&self) -> (source: &'t Source)
        ensures
            *source == self.origin(),
    {
        self.source
    }

    /// The number of characters, consumed or not.
    pub fn len(&self) -> (len: usize)
        ensures
            len == self.chars().len(),
    {
        self.items.len()
    }

    /// Whether the cursor has passed the last character.
    pub fn end(&self) -> (ended: bool)
        ensures
            ended == self.at_end(),
    {
        self.index >= self.items.len()
    }

    /// Consumes the character under the cursor: the cursor moves one
    /// character on, and line and column follow.
    pub fn advance(&mut self)
        requires
            old(self).wf(),
            old(self).cursor() < usize::MAX,
        ensures
            final(self).wf(),
            final(self).cursor() == old(self).cursor() + 1,
            final(self).place() == step(old(self).chars(), old(self).cursor() as int, old(self).place()),
            final(self).chars() == old(self).chars(),
            final(self).saved() == old(self).saved(),
            final(self).origin() == old(self).origin(),
    {
        if self.index < self.items.len() {
            if self.items[self.index] == '\n' {
                self.pos.0 += 1;
                self.pos.1 = 0;
            } else {
                self.pos.1 += 1;
            }
        }
        self.index += 1;
        assert forall|i: int| 0 <= i < self.saved().len() implies (#[trigger] self.saved()[i]).wf() by {
            assert(self.saved()[i] == old(self).saved()[i]);
        }
    }

    /// Moves the cursor `n` characters on, one step at a time.
    pub fn advance_n(&mut self, n: usize)
        requires
            old(self).wf(),
            old(self).cursor() + n <= usize::MAX,
        ensures
            final(self).wf(),
            final(self).cursor() == old(self).cursor() + n,
            final(self).place() == walk(
                old(self).chars(),
                old(self).cursor() as int,
                old(self).place(),
                n as nat,
            ),
            final(self).chars() == old(self).chars(),
            final(self).saved() == old(self).saved(),
            final(self).origin() == old(self).origin(),
    {
        let mut done: usize = 0;
        while done < n
            invariant
                done <= n,
                self.wf(),
                self.cursor() == old(self).cursor() + done,
                old(self).cursor() + n <= usize::MAX,
                self.place() == walk(
                    old(self).chars(),
                    old(self).cursor() as int,
                    old(self).place(),
                    done as nat,
                ),
                self.chars() == old(self).chars(),
                self.saved() == old(self).saved(),
                self.origin() == old(self).origin(),
            decreases n - done,
        {
            self.advance();
            done += 1;
        }
    }

    /// The `n` characters from the cursor on, if there are that many.
    pub fn peek_range(&self, n: usize) -> (text: Option<String>)
        ensures
            self.cursor() + n <= self.chars().len() ==> text is Some && text->Some_0@
                == self.chars().subrange(self.cursor() as int, self.cursor() + n),
            self.cursor() + n > self.chars().len() ==> text is None,
    {
        if self.index > self.items.len() || n > self.items.len() - self.index {
            return None;
        }
        let mut text = String::new();
        let mut taken: usize = 0;
        while taken < n
            invariant
                taken <= n,
                self.index + n <= self.items.len(),
                text@ == self.items@.subrange(self.index as int, self.index + taken),
            decreases n - taken,
        {
            text.push(self.items[self.index + taken]);
            taken += 1;
            assert(self.items@.subrange(self.index as int, self.index + taken)
                =~= self.items@.subrange(self.index as int, self.index + taken - 1).push(
                self.items@[self.index + taken - 1],
            ));
        }
        Some(text)
    }

    /// The character `n` places after the cursor, if there is one.
    pub fn peek_n(&self, n: usize) -> (c: Option<char>)
        ensures
            self.cursor() + n < self.chars().len() ==> c == Some(self.chars()[self.cursor() + n]),
            self.cursor() + n >= self.chars().len() ==> c is None,
    {
        if self.index >= self.items.len() || n >= self.items.len() - self.index {
            None
        } else {
            Some(self.items[self.index + n])
        }
    }

    /// The character under the cursor, if there is one.
    pub fn peek(&self) -> (c: Option<char>)
        ensures
            !self.at_end() ==> c == Some(self.chars()[self.cursor() as int]),
            self.at_end() ==> c is None,
    {
        self.peek_n(0)
    }

    /// Saves the place of the cursor on top of the stack of snapshots.
    pub fn take_snapshot(&mut self)
        ensures
            old(self).wf() ==> final(self).wf(),
            final(self).saved() == old(self).saved().push(
                Snapshot { index: old(self).cursor(), pos: old(self).place() },
            ),
            final(self).cursor() == old(self).cursor(),
            final(self).place() == old(self).place(),
            final(self).chars() == old(self).chars(),
            final(self).origin() == old(self).origin(),
    {
        self.snapshots.push(Snapshot::new(self.index, self.pos));
        assert(old(self).wf() ==> self.wf()) by {
            if old(self).wf() {
                assert forall|i: int| 0 <= i < self.saved().len() implies (
                #[trigger] self.saved()[i]).wf() by {
                    if i < old(self).saved().len() {
                        assert(self.saved()[i] == old(self).saved()[i]);
                    }
                }
            }
        }
    }

    /// The latest snapshot, if there is one.
    pub fn peek_snapshot(&self) -> (snapshot: Option<&Snapshot>)
        ensures
            self.saved().len() == 0 ==> snapshot is None,
            self.saved().len() > 0 ==> snapshot == Some(&self.saved().last()),
    {
        if self.snapshots.len() == 0 {
            None
        } else {
            Some(&self.snapshots[self.snapshots.len() - 1])
        }
    }

    /// Takes the latest snapshot off the stack and puts the cursor back
    /// where the snapshot was taken.
    pub fn rollback_snapshot(&mut self)
        requires
            old(self).saved().len() > 0,
        ensures
            final(self).cursor() == old(self).saved().last().index,
            final(self).place() == old(self).saved().last().pos,
            final(self).saved() == old(self).saved().drop_last(),
            final(self).chars() == old(self).chars(),
            final(self).origin() == old(self).origin(),
            old(self).wf() ==> final(self).wf(),
    {
        let snapshot = self.snapshots.pop().unwrap();
        self.index = snapshot.index;
        self.pos = snapshot.pos;
    }

    /// Takes the latest snapshot off the stack, if there is one, and leaves
    /// the cursor where it is.
    pub fn commit_snapshot(&mut self)
        ensures
            final(self).saved() == if old(self).saved().len() > 0 {
                old(self).saved().drop_last()
            } else {
                old(self).saved()
            },
            final(self).cursor() == old(self).cursor(),
            final(self).place() == old(self).place(),
            final(self).chars() == old(self).chars(),
            final(self).origin() == old(self).origin(),
            old(self).wf() ==> final(self).wf(),
    {
        self.snapshots.pop();
    }

    /// The line and column of the latest snapshot.
    pub fn last_position(&self) -> (pos: (usize, usize))
        requires
            self.saved().len() > 0,
        ensures
            pos == self.saved().last().pos,
    {
        self.peek_snapshot().unwrap().pos
    }

    /// Closes an attempt that began with a snapshot, given what the
    /// recognizer reported. A token keeps the cursor where the recognizer
    /// left it and drops the snapshot; no match puts the cursor back where
    /// the snapshot was taken; a malformed lexeme is handed on with cursor
    /// and snapshot untouched.
    pub fn settle(&mut self, outcome: Result<Option<Token>, Diagnostic>) -> (result: Result<
        Option<Token>,
        Diagnostic,
    >)
        requires
            old(self).saved().len() > 0,
        ensures
            result == outcome,
            final(self).chars() == old(self).chars(),
            final(self).origin() == old(self).origin(),
            old(self).wf() ==> final(self).wf(),
            outcome is Err ==> *final(self) == *old(self),
            outcome matches Ok(Some(_)) ==> {
                &&& final(self).cursor() == old(self).cursor()
                &&& final(self).place() == old(self).place()
                &&& final(self).saved() == old(self).saved().drop_last()
            },
            outcome matches Ok(None) ==> {
                &&& final(self).cursor() == old(self).saved().last().index
                &&& final(self).place() == old(self).saved().last().pos
                &&& final(self).saved() == old(self).saved().drop_last()
            },
    {
        match outcome {
            Err(diagnostic) => Err(diagnostic),
            Ok(Some(token)) => {
                self.commit_snapshot();
                Ok(Some(token))
            },
            Ok(None) => {
                self.rollback_snapshot();
                Ok(None)
            },
        }
    }

    /// Lets one recognizer try at the cursor. At the end of the input the
    /// answer is the end-of-input token, whatever the recognizer. When the
    /// recognizer reports no match, the cursor, its line and column and the
    /// stack of snapshots are exactly as before the call.
    pub fn try_match_token<M: Matcher>(&mut self, matcher: &M) -> (result: Result<
        Option<Token>,
        Diagnostic,
    >)
        requires
            old(self).wf(),
        ensures
            final(self).wf(),
            final(self).chars() == old(self).chars(),
            final(self).origin() == old(self).origin(),
            old(self).at_end() ==> {
                &&& result matches Ok(Some(token))
                &&& token@ == end_of_input(old(self).place())
                &&& *final(self) == *old(self)
            },
            result matches Ok(None) ==> {
                &&& final(self).cursor() == old(self).cursor()
                &&& final(self).place() == old(self).place()
                &&& final(self).saved() == old(self).saved()
            },
            result matches Ok(Some(_)) ==> final(self).saved() == old(self).saved(),
            result is Err ==> final(self).saved() == old(self).saved().push(
                Snapshot { index: old(self).cursor(), pos: old(self).place() },
            ),
    {
        if self.end() {
            return Ok(
                Some(
                    Token::new(
                        TokenType::EOF,
                        Position::new(self.pos.0, self.pos.1, 0),
                        String::new(),
                    ),
                ),
            );
        }
        self.take_snapshot();
        let outcome = matcher.try_match(self);
        proof {
            assert(self.saved().drop_last() =~= old(self).saved());
        }
        self.settle(outcome)
    }
}

} // verus!
