//! What holds of the parser on every token stream.

use vstd::prelude::*;
use crate::lexer::laws::lemma_tokens_hold_no_eof;
use crate::lexer::tokens::TokenView;
use crate::lexer::{scan, tokens_from};
use crate::parser::ast::{ExpressionView, StatementView};
use crate::parser::grammar::{
    after, attempted_at, first_semicolon, items, parse, passed_at, program, statement, token_at,
    unexpected,
};

verus! {

/// Parsing is a function of the source text alone: two parses of the same
/// text build the same statements and report the same messages in the same
/// order.
pub proof fn law_same_source_same_outcome(first: Seq<u8>, second: Seq<u8>)
    requires
        first == second,
    ensures
        parse(first).statements == parse(second).statements,
        parse(first).errors == parse(second).errors,
{
}

/// A statement is built whole or not at all: no attempt both builds a
/// statement and reports a message, and an attempt at a token that is
/// neither `let` nor `return` does neither and passes nothing.
pub proof fn law_attempt_builds_or_reports(tokens: Seq<TokenView>)
    ensures
        !(statement(tokens).statement is Some && statement(tokens).error is Some),
        !(token_at(tokens, 0) is Let) && !(token_at(tokens, 0) is Return) ==> {
            &&& statement(tokens).statement is None
            &&& statement(tokens).error is None
            &&& statement(tokens).passed == 0
        },
{
}

/// No attempt moves past the end of the stream.
pub proof fn law_attempt_stays_in_stream(tokens: Seq<TokenView>)
    ensures
        statement(tokens).passed <= tokens.len(),
{
    lemma_first_semicolon_in_stream(after(tokens, 1));
    lemma_first_semicolon_in_stream(after(tokens, 2));
}

/// The first semicolon of a stream lies inside it or at its end.
pub proof fn lemma_first_semicolon_in_stream(tokens: Seq<TokenView>)
    ensures
        first_semicolon(tokens) <= tokens.len(),
    decreases tokens.len(),
{
    if !(tokens.len() == 0 || tokens[0] is Semicolon) {
        lemma_first_semicolon_in_stream(tokens.drop_first());
    }
}

/// No token is dropped: every token of the stream is the start of an
/// attempt at a statement, or is passed inside a production. This holds of
/// the last token as of any other.
pub proof fn law_no_token_is_dropped(tokens: Seq<TokenView>, index: nat)
    requires
        index < tokens.len(),
    ensures
        attempted_at(tokens, index) || passed_at(tokens, index),
    decreases tokens.len(),
{
    let attempt = statement(tokens);
    if index > attempt.passed {
        let rest = after(tokens, attempt.passed + 1);
        law_no_token_is_dropped(rest, (index - attempt.passed - 1) as nat);
    }
}

/// What an attempt builds or reports is kept: where parsing attempts a
/// statement at the token at `index`, the statement built there is among
/// the statements of the program, and the message reported there is among
/// its messages.
pub proof fn law_attempts_are_kept(tokens: Seq<TokenView>, index: nat)
    requires
        attempted_at(tokens, index),
    ensures
        statement(after(tokens, index)).statement matches Some(node) ==> program(
            tokens,
        ).statements.contains(node),
        statement(after(tokens, index)).error matches Some(message) ==> program(
            tokens,
        ).errors.contains(message),
    decreases tokens.len(),
{
    let attempt = statement(tokens);
    let here = items(attempt.statement);
    let noted = items(attempt.error);
    if index == 0 {
        assert(after(tokens, 0) =~= tokens);
        if attempt.statement is Some {
            assert(program(tokens).statements[0] == attempt.statement->0);
        }
        if attempt.error is Some {
            assert(program(tokens).errors[0] == attempt.error->0);
        }
    } else {
        let rest = after(tokens, attempt.passed + 1);
        let behind = (index - attempt.passed - 1) as nat;
        law_attempts_are_kept(rest, behind);
        assert(after(rest, behind) =~= after(tokens, index));
        let found = statement(after(tokens, index));
        let more = program(rest);
        if found.statement is Some {
            let node = found.statement->0;
            let at = choose|i: int| 0 <= i < more.statements.len() && more.statements[i] == node;
            assert((here + more.statements)[here.len() + at] == node);
        }
        if found.error is Some {
            let message = found.error->0;
            let at = choose|i: int| 0 <= i < more.errors.len() && more.errors[i] == message;
            assert((noted + more.errors)[noted.len() + at] == message);
        }
    }
}

/// A `let` at the very end of a stream is attempted like any other, and
/// reported for the identifier that is missing behind it, wherever no
/// production before it passed it.
pub proof fn law_trailing_let_is_reported(tokens: Seq<TokenView>)
    requires
        tokens.len() > 0,
        tokens.last() is Let,
        attempted_at(tokens, (tokens.len() - 1) as nat),
    ensures
        program(tokens).errors.contains(unexpected(TokenView::EOF, "identifier"@)),
{
    let index = (tokens.len() - 1) as nat;
    law_attempts_are_kept(tokens, index);
    assert(after(tokens, index) =~= seq![tokens.last()]);
}

/// An empty stream gives an empty program and no message.
pub proof fn law_empty_stream_parses_to_nothing()
    ensures
        program(Seq::empty()).statements == Seq::<StatementView>::empty(),
        program(Seq::empty()).errors == Seq::<Seq<char>>::empty(),
{
    let none = Seq::<TokenView>::empty();
    assert(after(none, statement(none).passed) =~= none);
}

/// A source text that holds nothing but whitespace, the empty text among
/// them, gives an empty program and no message.
pub proof fn law_blank_source_parses_to_nothing(source: Seq<u8>)
    requires
        scan(source, 0).token is EOF,
    ensures
        parse(source).statements == Seq::<StatementView>::empty(),
        parse(source).errors == Seq::<Seq<char>>::empty(),
{
    lemma_tokens_hold_no_eof(source, 0);
    assert(tokens_from(source, 0) =~= Seq::<TokenView>::empty());
    law_empty_stream_parses_to_nothing();
}

/// Whether a statement has the shape that its production gives it: a `let`
/// statement holds a `let` token and binds an identifier token, a `return`
/// statement holds a `return` token.
pub open spec fn well_shaped(node: StatementView) -> bool {
    match node {
        StatementView::Let(node) => {
            &&& node.token is Let
            &&& node.identifier matches ExpressionView::Identifier(name)
            &&& name is Ident
        },
        StatementView::Return(node) => node.token is Return,
    }
}

/// Every statement of a parsed program is well shaped.
pub proof fn law_statements_are_well_shaped(tokens: Seq<TokenView>)
    ensures
        forall|i: int|
            0 <= i < program(tokens).statements.len() ==> well_shaped(
                #[trigger] program(tokens).statements[i],
            ),
    decreases tokens.len(),
{
    let attempt = statement(tokens);
    let rest = after(tokens, attempt.passed + 1);
    let first = items(attempt.statement);
    assert(forall|i: int| 0 <= i < first.len() ==> well_shaped(#[trigger] first[i]));
    if after(tokens, attempt.passed).len() > 1 {
        law_statements_are_well_shaped(rest);
        let more = program(rest).statements;
        assert forall|i: int| 0 <= i < (first + more).len() implies well_shaped(
            #[trigger] (first + more)[i],
        ) by {
            if i >= first.len() {
                assert((first + more)[i] == more[i - first.len()]);
            } else {
                assert((first + more)[i] == first[i]);
            }
        }
    }
}

/// The number of `let` and `return` tokens in a stream.
pub open spec fn statement_starts(tokens: Seq<TokenView>) -> nat
    decreases tokens.len(),
{
    if tokens.len() == 0 {
        0
    } else if tokens[0] is Let || tokens[0] is Return {
        1 + statement_starts(tokens.drop_first())
    } else {
        statement_starts(tokens.drop_first())
    }
}

/// Passing tokens cannot add statement starts to what is left.
proof fn lemma_starts_behind(tokens: Seq<TokenView>, count: nat)
    ensures
        statement_starts(after(tokens, count)) <= statement_starts(tokens),
    decreases count,
{
    if count > 0 && count <= tokens.len() {
        lemma_starts_behind(tokens.drop_first(), (count - 1) as nat);
        assert(after(tokens.drop_first(), (count - 1) as nat) =~= after(tokens, count));
    } else if count == 0 {
        assert(after(tokens, 0) =~= tokens);
    }
}

/// Every statement and every message stems from a `let` or `return` token
/// of its own: together they are no more than such tokens in the stream.
/// So a program can hold fewer statements than the source has keywords,
/// and never more.
pub proof fn law_one_keyword_for_each_outcome(tokens: Seq<TokenView>)
    ensures
        program(tokens).statements.len() + program(tokens).errors.len() <= statement_starts(
            tokens,
        ),
    decreases tokens.len(),
{
    let attempt = statement(tokens);
    let rest = after(tokens, attempt.passed + 1);
    if tokens.len() > 0 {
        lemma_starts_behind(tokens.drop_first(), attempt.passed);
        law_attempt_stays_in_stream(tokens);
        assert(after(tokens.drop_first(), attempt.passed) =~= rest);
    }
    if after(tokens, attempt.passed).len() > 1 {
        law_one_keyword_for_each_outcome(rest);
    }
}

} // verus!
