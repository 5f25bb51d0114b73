//! The grammar as a function of the token stream.
//!
//! A stream is the sequence of tokens still to be read, the current token
//! first, without the closing `EOF`: behind the end of the stream every
//! token is `EOF`. Each production says what it builds or reports, and how
//! many tokens it moves past.

use vstd::prelude::*;
use crate::lexer::tokens::TokenView;
use crate::lexer::tokens_from;
use crate::parser::ast::{ExpressionView, LetView, ReturnView, StatementView};

verus! {

/// The token at `index` of the stream, which is `EOF` behind its end.
pub open spec fn token_at(tokens: Seq<TokenView>, index: int) -> TokenView {
    if 0 <= index < tokens.len() {
        tokens[index]
    } else {
        TokenView::EOF
    }
}

/// The stream after `count` tokens have been passed. Behind the end of the
/// stream there is nothing left to pass.
pub open spec fn after(tokens: Seq<TokenView>, count: nat) -> Seq<TokenView> {
    if count <= tokens.len() {
        tokens.skip(count as int)
    } else {
        Seq::empty()
    }
}

/// The number of tokens in front of the first semicolon of the stream, or
/// the length of the stream where it holds no semicolon.
pub open spec fn first_semicolon(tokens: Seq<TokenView>) -> nat
    decreases tokens.len(),
{
    if tokens.len() == 0 || tokens[0] is Semicolon {
        0
    } else {
        1 + first_semicolon(tokens.drop_first())
    }
}

/// The message of a diagnostic: the token that was found, as
/// [`TokenView::describe`] shows it, and what was expected in its place.
pub open spec fn unexpected(found: TokenView, expected: Seq<char>) -> Seq<char> {
    "Unexpected Token '"@ + found.describe() + "'. Expected "@ + expected
}

/// What a production makes of a stream: the node it builds or the message
/// it reports, and the number of tokens that it moves past.
pub struct Parsed<T> {
    pub result: Result<T, Seq<char>>,
    pub passed: nat,
}

/// The `let` production on a stream whose current token is `let_token`.
///
/// * The token after the current one must be an identifier; if it is not,
///   that is reported and nothing is passed.
/// * The token after the identifier must be `=`; if it is not, that is
///   reported and only the current token is passed.
/// * The token after the `=` stands for the value. The production then
///   moves on to the first semicolon at or behind the `=` and stops on it.
///   Where the stream ends before a semicolon, that is reported and the
///   whole stream is passed.
pub open spec fn let_statement(tokens: Seq<TokenView>, let_token: TokenView) -> Parsed<LetView> {
    let name = token_at(tokens, 1);
    let assign = token_at(tokens, 2);
    let to_semicolon = 2 + first_semicolon(after(tokens, 2));
    if !(name is Ident) {
        Parsed { result: Err(unexpected(name, "identifier"@)), passed: 0 }
    } else if !(assign is Assign) {
        Parsed { result: Err(unexpected(assign, "assignment operator"@)), passed: 1 }
    } else if to_semicolon >= tokens.len() {
        Parsed { result: Err(unexpected(TokenView::EOF, "semicolon"@)), passed: tokens.len() }
    } else {
        Parsed {
            result: Ok(
                LetView {
                    token: let_token,
                    identifier: ExpressionView::Identifier(name),
                    value: ExpressionView::Identifier(token_at(tokens, 3)),
                },
            ),
            passed: to_semicolon,
        }
    }
}

/// The `return` production on a stream whose current token is
/// `return_token`.
///
/// The token after the current one stands for the value. The production
/// moves on to the first semicolon at or behind that token and stops on it.
/// Where the stream ends before a semicolon, that is reported and the whole
/// stream is passed.
pub open spec fn return_statement(tokens: Seq<TokenView>, return_token: TokenView) -> Parsed<
    ReturnView,
> {
    let to_semicolon = 1 + first_semicolon(after(tokens, 1));
    if to_semicolon >= tokens.len() {
        Parsed { result: Err(unexpected(TokenView::EOF, "semicolon"@)), passed: tokens.len() }
    } else {
        Parsed {
            result: Ok(
                ReturnView {
                    token: return_token,
                    return_value: ExpressionView::Identifier(token_at(tokens, 1)),
                },
            ),
            passed: to_semicolon,
        }
    }
}

/// What one attempt at a statement makes of a stream: the statement, if
/// one was built; the message, if one was reported; and the number of
/// tokens that were passed.
pub struct Attempt {
    pub statement: Option<StatementView>,
    pub error: Option<Seq<char>>,
    pub passed: nat,
}

/// One attempt at a statement, decided by the current token: `let` and
/// `return` start their productions, and any other token starts nothing,
/// reports nothing and passes nothing.
pub open spec fn statement(tokens: Seq<TokenView>) -> Attempt {
    let current = token_at(tokens, 0);
    if current is Let {
        let parsed = let_statement(tokens, current);
        match parsed.result {
            Ok(node) => Attempt {
                statement: Some(StatementView::Let(node)),
                error: None,
                passed: parsed.passed,
            },
            Err(message) => Attempt {
                statement: None,
                error: Some(message),
                passed: parsed.passed,
            },
        }
    } else if current is Return {
        let parsed = return_statement(tokens, current);
        match parsed.result {
            Ok(node) => Attempt {
                statement: Some(StatementView::Return(node)),
                error: None,
                passed: parsed.passed,
            },
            Err(message) => Attempt {
                statement: None,
                error: Some(message),
                passed: parsed.passed,
            },
        }
    } else {
        Attempt { statement: None, error: None, passed: 0 }
    }
}

/// The sequence that holds the content of an option, if it has one.
pub open spec fn items<T>(item: Option<T>) -> Seq<T> {
    match item {
        Some(value) => seq![value],
        None => Seq::empty(),
    }
}

/// What parsing makes of a whole stream: the statements that were built
/// and the messages that were reported, each in the order of the source.
pub struct Outcome {
    pub statements: Seq<StatementView>,
    pub errors: Seq<Seq<char>>,
}

/// Parsing a stream: attempt a statement at the current token; then, where
/// more than one token is left behind what the attempt passed, pass one
/// more token and go on in the same way. The token that ends a statement
/// is passed without an attempt; every other token that no production
/// passed is attempted, the last token of the stream too.
pub open spec fn program(tokens: Seq<TokenView>) -> Outcome
    decreases tokens.len(),
{
    let attempt = statement(tokens);
    let left = after(tokens, attempt.passed);
    if left.len() <= 1 {
        Outcome { statements: items(attempt.statement), errors: items(attempt.error) }
    } else {
        let more = program(after(tokens, attempt.passed + 1));
        Outcome {
            statements: items(attempt.statement) + more.statements,
            errors: items(attempt.error) + more.errors,
        }
    }
}

/// Whether parsing the stream attempts a statement at the token at
/// `index`.
pub open spec fn attempted_at(tokens: Seq<TokenView>, index: nat) -> bool
    decreases tokens.len(),
{
    let attempt = statement(tokens);
    let left = after(tokens, attempt.passed);
    index == 0 || (left.len() > 1 && index > attempt.passed && attempted_at(
        after(tokens, attempt.passed + 1),
        (index - attempt.passed - 1) as nat,
    ))
}

/// Whether parsing the stream passes the token at `index` inside a
/// production, as part of a statement or of what a production gave up on.
pub open spec fn passed_at(tokens: Seq<TokenView>, index: nat) -> bool
    decreases tokens.len(),
{
    let attempt = statement(tokens);
    let left = after(tokens, attempt.passed);
    0 < index <= attempt.passed || (left.len() > 1 && index > attempt.passed && passed_at(
        after(tokens, attempt.passed + 1),
        (index - attempt.passed - 1) as nat,
    ))
}

/// What parsing makes of a source text, from its first byte on.
pub open spec fn parse(source: Seq<u8>) -> Outcome {
    program(tokens_from(source, 0))
}

} // verus!
