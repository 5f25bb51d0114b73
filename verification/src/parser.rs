//! The statement-level parser.
//!
//! The parser keeps two tokens in view, the current one and the one after
//! it, and draws further tokens from its tokenizer as it moves on. It never
//! gives up on a source text: a statement that cannot be built is reported
//! and left out, and parsing goes on behind it.

use vstd::prelude::*;
use vstd::string::StringExecFns;
use crate::lexer::laws::lemma_tokens_hold_no_eof;
use crate::lexer::tokens::{Token, TokenView};
use crate::lexer::{scan, tokens_from, Lexer};
use crate::parser::ast::{Expression, Let, LetView, Program, Return, ReturnView, Statement};
use crate::parser::grammar::{
    after, first_semicolon, items, let_statement, program, return_statement, statement, token_at,
    unexpected,
};

pub mod ast;
pub mod grammar;
pub mod laws;

verus! {

/// A diagnostic: the message that describes one malformed construct.
#[derive(Debug)]
pub struct ParserError(String);

impl View for ParserError {
    type V = Seq<char>;

    closed spec fn view(&self) -> Seq<char> {
        self.0@
    }
}

impl Clone for ParserError {
    fn clone(&self) -> (copy: Self)
        ensures
            copy == *self,
    {
        ParserError(self.0.clone())
    }
}

impl ParserError {
    /// The text of the diagnostic.
    pub fn message(&self) -> (text: &str)
        ensures
            text@ == self@,
    {
        self.0.as_str()
    }

    /// The diagnostic for a token that stands where something else was
    /// expected.
    fn unexpected(found: &Token, expected: &str) -> (error: ParserError)
        ensures
            error@ == unexpected(found@, expected@),
    {
        let mut message = String::from_str("Unexpected Token '");
        let shown = found.describe();
        message.append(shown.as_str());
        message.append("'. Expected ");
        message.append(expected);
        ParserError(message)
    }
}

/// The messages of a sequence of diagnostics.
pub open spec fn messages(errors: Seq<ParserError>) -> Seq<Seq<char>> {
    errors.map_values(|error: ParserError| error@)
}

/// A parser over the tokens of one tokenizer.
pub struct Parser<'a> {
    lex: Lexer<'a>,
    current_token: Token,
    peek_token: Token,
    errors: Vec<ParserError>,
}

impl<'a> Parser<'a> {
    /// Whether the parser is in step with its tokenizer: behind an `EOF`
    /// there is only `EOF`, in the two tokens in view and in what the
    /// tokenizer yields after them. [`Parser::new`] makes it so and every
    /// method keeps it so.
    pub closed spec fn wf(&self) -> bool {
        &&& self.current_token is EOF ==> self.peek_token is EOF
        &&& self.peek_token is EOF ==> scan(self.lex.source(), self.lex.cursor()).token is EOF
    }

    /// The tokens still to be read, the current token first, without the
    /// closing `EOF`.
    pub closed spec fn remaining(&self) -> Seq<TokenView> {
        if self.current_token is EOF {
            Seq::empty()
        } else if self.peek_token is EOF {
            seq![self.current_token@]
        } else {
            seq![self.current_token@, self.peek_token@] + tokens_from(
                self.lex.source(),
                self.lex.cursor(),
            )
        }
    }

    /// The messages of the diagnostics recorded so far, oldest first.
    pub closed spec fn diagnostics(&self) -> Seq<Seq<char>> {
        messages(self.errors@)
    }

    /// How the two tokens in view relate to the stream: they are its first
    /// two tokens, with `EOF` behind its end, and no token of the stream
    /// is `EOF`.
    proof fn lemma_in_view(&self)
        requires
            self.wf(),
        ensures
            self.current_token@ == token_at(self.remaining(), 0),
            self.peek_token@ == token_at(self.remaining(), 1),
            forall|i: int|
                0 <= i < self.remaining().len() ==> !(#[trigger] self.remaining()[i] is EOF),
    {
        lemma_tokens_hold_no_eof(self.lex.source(), self.lex.cursor());
    }

    /// A parser at the first token that `lex` yields.
    pub fn new(lex: Lexer<'a>) -> (parser: Self)
        ensures
            parser.wf(),
            parser.remaining() == tokens_from(lex.source(), lex.cursor()),
            parser.diagnostics() == Seq::<Seq<char>>::empty(),
    {
        let mut lex = lex;
        let ghost source = lex.source();
        let ghost start = lex.cursor();
        let current_token = lex.next_token();
        let ghost middle = lex.cursor();
        let peek_token = lex.next_token();
        let parser = Parser { lex, current_token, peek_token, errors: Vec::new() };
        proof {
            assert(parser.diagnostics() =~= Seq::<Seq<char>>::empty());
            if !(scan(source, start).token is EOF) {
                assert(tokens_from(source, start) == seq![scan(source, start).token] + tokens_from(
                    source,
                    middle,
                ));
                if !(scan(source, middle).token is EOF) {
                    assert(tokens_from(source, middle) == seq![scan(source, middle).token]
                        + tokens_from(source, scan(source, middle).end));
                }
            }
            assert(parser.remaining() =~= tokens_from(source, start));
        }
        parser
    }

    /// Moves one token on: the token after the current one becomes the
    /// current one, and the tokenizer yields the token after that.
    pub fn next_token(&mut self)
        requires
            old(self).wf(),
        ensures
            final(self).wf(),
            final(self).remaining() == after(old(self).remaining(), 1),
            final(self).diagnostics() == old(self).diagnostics(),
    {
        self.current_token = self.peek_token.clone();
        let token = self.lex.next_token();
        self.peek_token = token;
        proof {
            assert(self.remaining() =~= after(old(self).remaining(), 1));
        }
    }

    /// Moves on to the first semicolon at or behind the current token and
    /// stops on it, or at the end of the stream where no semicolon is
    /// left. This stands in for parsing the expression that ends there.
    fn skip_to_semicolon(&mut self) -> (found: bool)
        requires
            old(self).wf(),
        ensures
            final(self).wf(),
            final(self).remaining() == after(
                old(self).remaining(),
                first_semicolon(old(self).remaining()),
            ),
            found == (first_semicolon(old(self).remaining()) < old(self).remaining().len()),
            final(self).diagnostics() == old(self).diagnostics(),
    {
        let ghost stream = self.remaining();
        let ghost mut passed: nat = 0;
        proof {
            assert(after(stream, 0) =~= stream);
        }
        let mut found = false;
        loop
            invariant_except_break
                passed <= stream.len(),
                passed + first_semicolon(self.remaining()) == first_semicolon(stream),
                !found,
            invariant
                self.wf(),
                self.remaining() == after(stream, passed),
                self.diagnostics() == old(self).diagnostics(),
            ensures
                passed == first_semicolon(stream),
                found == (passed < stream.len()),
            decreases self.remaining().len(),
        {
            proof {
                self.lemma_in_view();
            }
            match &self.current_token {
                Token::Semicolon { .. } => {
                    found = true;
                    break;
                },
                Token::EOF => {
                    break;
                },
                _ => {},
            }
            let ghost before = self.remaining();
            self.next_token();
            proof {
                assert(self.remaining() =~= before.drop_first());
                assert(self.remaining() =~= after(stream, passed + 1));
                passed = passed + 1;
            }
        }
        found
    }

    /// Parses a `let` statement behind the current token, which the caller
    /// hands over as `let_tok`.
    pub fn parse_let_statement(&mut self, let_tok: Token) -> (result: Result<Let, ParserError>)
        requires
            old(self).wf(),
        ensures
            final(self).wf(),
            match result {
                Ok(node) => let_statement(old(self).remaining(), let_tok@).result == Ok::<
                    _,
                    Seq<char>,
                >(node@),
                Err(error) => let_statement(old(self).remaining(), let_tok@).result == Err::<
                    LetView,
                    _,
                >(error@),
            },
            final(self).remaining() == after(
                old(self).remaining(),
                let_statement(old(self).remaining(), let_tok@).passed,
            ),
            final(self).diagnostics() == old(self).diagnostics(),
    {
        let ghost stream = self.remaining();
        proof {
            self.lemma_in_view();
            assert(after(stream, 0) =~= stream);
        }
        match &self.peek_token {
            Token::Ident { .. } => {},
            other => {
                return Err(ParserError::unexpected(other, "identifier"));
            },
        }
        self.next_token();
        proof {
            self.lemma_in_view();
        }
        let ident_tok = self.current_token.clone();
        match &self.peek_token {
            Token::Assign { .. } => {},
            other => {
                return Err(ParserError::unexpected(other, "assignment operator"));
            },
        }
        self.next_token();
        proof {
            self.lemma_in_view();
            assert(self.remaining() =~= after(stream, 2));
        }
        let value_tok = self.peek_token.clone();
        let found = self.skip_to_semicolon();
        proof {
            assert(self.remaining() =~= after(stream, 2 + first_semicolon(after(stream, 2))));
        }
        if found {
            Ok(
                Let {
                    token: let_tok,
                    identifier: Expression::Identifier(ident_tok),
                    value: Expression::Identifier(value_tok),
                },
            )
        } else {
            Err(ParserError::unexpected(&Token::EOF, "semicolon"))
        }
    }

    /// Parses a `return` statement behind the current token, which the
    /// caller hands over as `ret_tok`.
    pub fn parse_return_statement(&mut self, ret_tok: Token) -> (result: Result<
        Return,
        ParserError,
    >)
        requires
            old(self).wf(),
        ensures
            final(self).wf(),
            match result {
                Ok(node) => return_statement(old(self).remaining(), ret_tok@).result == Ok::<
                    _,
                    Seq<char>,
                >(node@),
                Err(error) => return_statement(old(self).remaining(), ret_tok@).result == Err::<
                    ReturnView,
                    _,
                >(error@),
            },
            final(self).remaining() == after(
                old(self).remaining(),
                return_statement(old(self).remaining(), ret_tok@).passed,
            ),
            final(self).diagnostics() == old(self).diagnostics(),
    {
        let ghost stream = self.remaining();
        self.next_token();
        proof {
            self.lemma_in_view();
        }
        let value_tok = self.current_token.clone();
        let found = self.skip_to_semicolon();
        proof {
            assert(self.remaining() =~= after(stream, return_statement(stream, ret_tok@).passed));
        }
        if found {
            Ok(Return { token: ret_tok, return_value: Expression::Identifier(value_tok) })
        } else {
            Err(ParserError::unexpected(&Token::EOF, "semicolon"))
        }
    }

    /// Attempts one statement at the current token. A statement that
    /// cannot be built is left out, and what was wrong with it is added to
    /// the diagnostics.
    pub fn parse_statement(&mut self) -> (result: Option<Statement>)
        requires
            old(self).wf(),
        ensures
            final(self).wf(),
            match result {
                Some(node) => statement(old(self).remaining()).statement == Some(node@),
                None => statement(old(self).remaining()).statement is None,
            },
            final(self).remaining() == after(
                old(self).remaining(),
                statement(old(self).remaining()).passed,
            ),
            final(self).diagnostics() == old(self).diagnostics() + items(
                statement(old(self).remaining()).error,
            ),
    {
        proof {
            self.lemma_in_view();
            assert(after(self.remaining(), 0) =~= self.remaining());
            assert(self.diagnostics() + Seq::<Seq<char>>::empty() =~= self.diagnostics());
        }
        let parsed = match &self.current_token {
            Token::Let { .. } => {
                let let_tok = self.current_token.clone();
                match self.parse_let_statement(let_tok) {
                    Ok(node) => Ok(Statement::Let(node)),
                    Err(error) => Err(error),
                }
            },
            Token::Return { .. } => {
                let ret_tok = self.current_token.clone();
                match self.parse_return_statement(ret_tok) {
                    Ok(node) => Ok(Statement::Return(node)),
                    Err(error) => Err(error),
                }
            },
            _ => {
                return None;
            },
        };
        match parsed {
            Ok(node) => Some(node),
            Err(error) => {
                self.errors.push(error);
                proof {
                    assert(self.diagnostics() =~= old(self).diagnostics() + seq![error@]);
                }
                None
            },
        }
    }

    /// Parses the whole stream: attempts a statement at the current token
    /// and moves one token on, again and again, and stops behind the
    /// attempt that leaves at most one token to read. Every token that no
    /// production passed is attempted, the last one of the stream too, and
    /// nothing is left to read at the end. The result is always a program;
    /// it holds the statements that could be built, in their order, and
    /// what was wrong with the others is added to the diagnostics.
    pub fn parse_program(&mut self) -> (result: Option<Program>)
        requires
            old(self).wf(),
        ensures
            final(self).wf(),
            result matches Some(tree) && tree@ == program(old(self).remaining()).statements,
            final(self).diagnostics() == old(self).diagnostics() + program(
                old(self).remaining(),
            ).errors,
            final(self).remaining() == Seq::<TokenView>::empty(),
    {
        let ghost stream = self.remaining();
        let ghost reported = self.diagnostics();
        let mut tree = Program { statements: Vec::new() };
        proof {
            assert(tree@ + program(stream).statements =~= program(stream).statements);
            assert(self.diagnostics() + program(stream).errors =~= reported + program(
                stream,
            ).errors);
        }
        loop
            invariant_except_break
                tree@ + program(self.remaining()).statements == program(stream).statements,
                self.diagnostics() + program(self.remaining()).errors == reported + program(
                    stream,
                ).errors,
            invariant
                self.wf(),
            ensures
                tree@ == program(stream).statements,
                self.diagnostics() == reported + program(stream).errors,
                self.remaining() == Seq::<TokenView>::empty(),
            decreases self.remaining().len(),
        {
            let ghost before = self.remaining();
            let ghost built = tree@;
            let ghost noted = self.diagnostics();
            let attempted = self.parse_statement();
            if let Some(node) = attempted {
                tree.statements.push(node);
            }
            proof {
                self.lemma_in_view();
            }
            let last = match &self.peek_token {
                Token::EOF => true,
                _ => false,
            };
            let ghost left = self.remaining();
            self.next_token();
            proof {
                let attempt = statement(before);
                assert(left == after(before, attempt.passed));
                assert(last == (left.len() <= 1));
                assert(tree@ =~= built + items(attempt.statement));
                assert(self.diagnostics() == noted + items(attempt.error));
                if last {
                    assert(self.remaining() =~= Seq::<TokenView>::empty());
                } else {
                    assert(self.remaining() =~= after(before, attempt.passed + 1));
                    let more = program(self.remaining());
                    assert(tree@ + more.statements =~= built + (items(attempt.statement)
                        + more.statements));
                    assert(self.diagnostics() + more.errors =~= noted + (items(attempt.error)
                        + more.errors));
                }
            }
            if last {
                break;
            }
        }
        Some(tree)
    }

    /// The diagnostics recorded so far, oldest first.
    pub fn errors(&self) -> (list: Vec<ParserError>)
        ensures
            messages(list@) == self.diagnostics(),
    {
        let list = self.errors.clone();
        proof {
            assert(list@ =~= self.errors@);
        }
        list
    }
}

} // verus!
