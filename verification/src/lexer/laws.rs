//! What holds of the tokenizer on every source text.

use vstd::prelude::*;
use crate::lexer::tokens::{keyword, TokenView};
use crate::lexer::{
    cursor_after, is_whitespace, lemma_run_end, lemma_scan_bounds, scan, spans_from, token_start,
    tokens_from, ByteClass,
};

verus! {

/// The bytes that are not whitespace.
pub open spec fn visible() -> spec_fn(u8) -> bool {
    |b: u8| !is_whitespace(b)
}

/// Filtering a sequence whose members all pass keeps it whole, and
/// filtering one whose members all fail leaves nothing.
proof fn lemma_filter_uniform(bytes: Seq<u8>, pred: spec_fn(u8) -> bool)
    ensures
        (forall|i: int| 0 <= i < bytes.len() ==> pred(#[trigger] bytes[i])) ==> bytes.filter(pred)
            == bytes,
        (forall|i: int| 0 <= i < bytes.len() ==> !pred(#[trigger] bytes[i])) ==> bytes.filter(pred)
            == Seq::<u8>::empty(),
    decreases bytes.len(),
{
    reveal(Seq::filter);
    if bytes.len() > 0 {
        lemma_filter_uniform(bytes.drop_last(), pred);
        if forall|i: int| 0 <= i < bytes.len() ==> pred(#[trigger] bytes[i]) {
            assert(bytes.drop_last().push(bytes.last()) =~= bytes);
        }
    }
}

/// No token holds a whitespace byte: every byte between the start of a
/// token and the read offset behind it is visible.
pub proof fn lemma_token_bytes_are_visible(source: Seq<u8>, position: nat)
    requires
        scan(source, position).token !is EOF,
    ensures
        forall|i: int|
            token_start(source, position) <= i < scan(source, position).end ==> !is_whitespace(
                #[trigger] source[i],
            ),
{
    let start = token_start(source, position);
    lemma_scan_bounds(source, position);
    if position <= source.len() {
        lemma_run_end(source, position, ByteClass::Whitespace);
    }
    lemma_run_end(source, start, ByteClass::Word);
    lemma_run_end(source, start, ByteClass::Digit);
}

/// Filtering passes over a part that fails as a whole and keeps a part
/// that passes as a whole.
proof fn lemma_filter_parts(blank: Seq<u8>, span: Seq<u8>, tail: Seq<u8>, pred: spec_fn(u8) -> bool)
    requires
        forall|i: int| 0 <= i < blank.len() ==> !pred(#[trigger] blank[i]),
        forall|i: int| 0 <= i < span.len() ==> pred(#[trigger] span[i]),
    ensures
        ((blank + span) + tail).filter(pred) == span + tail.filter(pred),
{
    lemma_filter_uniform(blank, pred);
    lemma_filter_uniform(span, pred);
    Seq::filter_distributes_over_add(blank + span, tail, pred);
    Seq::filter_distributes_over_add(blank, span, pred);
    assert(Seq::<u8>::empty() + span =~= span);
}

/// From any offset inside the source on, the spans of the tokens, put end
/// to end, are the visible bytes of the rest of the source.
pub proof fn lemma_spans_rebuild_rest(source: Seq<u8>, position: nat)
    requires
        position <= source.len(),
    ensures
        spans_from(source, position).flatten() == source.skip(position as int).filter(visible()),
    decreases source.len() - position,
{
    let start = token_start(source, position);
    let step = scan(source, position);
    let rest = source.skip(position as int);
    let blank = source.subrange(position as int, start as int);
    lemma_scan_bounds(source, position);
    assert forall|i: int| 0 <= i < blank.len() implies !visible()(#[trigger] blank[i]) by {
        lemma_run_end(source, position, ByteClass::Whitespace);
    }
    if step.token is EOF {
        lemma_filter_uniform(blank, visible());
        assert(blank =~= rest);
        assert(spans_from(source, position) =~= Seq::<Seq<u8>>::empty());
    } else {
        let span = source.subrange(start as int, step.end as int);
        let tail = source.skip(step.end as int);
        assert forall|i: int| 0 <= i < span.len() implies visible()(#[trigger] span[i]) by {
            lemma_token_bytes_are_visible(source, position);
        }
        lemma_filter_parts(blank, span, tail, visible());
        assert(rest =~= (blank + span) + tail);
        lemma_spans_rebuild_rest(source, step.end);
        let spans = spans_from(source, position);
        assert(spans =~= seq![span] + spans_from(source, step.end));
        assert(spans.first() == span);
        assert(spans.drop_first() =~= spans_from(source, step.end));
    }
}

/// Each token has its span: there are as many spans as tokens.
pub proof fn law_each_token_has_its_span(source: Seq<u8>, position: nat)
    ensures
        spans_from(source, position).len() == tokens_from(source, position).len(),
    decreases source.len() - position,
{
    let step = scan(source, position);
    if !(step.token is EOF) {
        lemma_scan_bounds(source, position);
        law_each_token_has_its_span(source, step.end);
    }
}

/// Whitespace is the only thing that tokenizing discards: the spans of
/// the tokens of a source, put end to end in the order of the tokens, are
/// the bytes of the source that are not whitespace, in their order.
pub proof fn law_spans_rebuild_source(source: Seq<u8>)
    ensures
        spans_from(source, 0).flatten() == source.filter(visible()),
{
    lemma_spans_rebuild_rest(source, 0);
    assert(source.skip(0) =~= source);
}

/// Once a step has yielded `EOF`, every later step yields `EOF` too, and
/// the read offset stays where it is.
pub proof fn law_eof_is_final(source: Seq<u8>, position: nat, later: nat)
    requires
        scan(source, position).token is EOF,
    ensures
        scan(source, cursor_after(source, position, later)).token is EOF,
        later > 0 ==> cursor_after(source, position, later) == scan(source, position).end,
    decreases later,
{
    lemma_scan_bounds(source, position);
    let end = scan(source, position).end;
    assert(token_start(source, end) == end);
    lemma_scan_bounds(source, end);
    if later > 0 {
        let before = cursor_after(source, position, (later - 1) as nat);
        if later > 1 {
            law_eof_is_final(source, position, (later - 1) as nat);
        } else {
            assert(before == position);
        }
        assert(cursor_after(source, position, later) == scan(source, before).end);
    }
}

/// No token of a stream is `EOF`, and the stream is empty exactly when the
/// next step yields `EOF`.
pub proof fn lemma_tokens_hold_no_eof(source: Seq<u8>, position: nat)
    ensures
        forall|i: int|
            0 <= i < tokens_from(source, position).len() ==> !(#[trigger] tokens_from(
                source,
                position,
            )[i] is EOF),
        tokens_from(source, position).len() == 0 <==> scan(source, position).token is EOF,
    decreases source.len() - position,
{
    let step = scan(source, position);
    if !(step.token is EOF) {
        lemma_scan_bounds(source, position);
        lemma_tokens_hold_no_eof(source, step.end);
    }
}

/// Keywords take precedence: no identifier token carries the text of a
/// reserved word.
pub proof fn law_keywords_are_never_identifiers(source: Seq<u8>, position: nat)
    ensures
        scan(source, position).token matches TokenView::Ident { location, raw } ==> keyword(
            raw,
            location,
        ) is None,
{
}

/// Every token but `EOF` carries the offset of its first byte, and that
/// byte is no whitespace; whatever lies between the read offset and the
/// token is whitespace.
pub proof fn law_location_is_first_byte(source: Seq<u8>, position: nat)
    requires
        position <= source.len(),
        scan(source, position).token !is EOF,
    ensures
        scan(source, position).token.location() == Some(token_start(source, position)),
        position <= token_start(source, position) < source.len(),
        !is_whitespace(source[token_start(source, position) as int]),
        forall|i: int| position <= i < token_start(source, position) ==> is_whitespace(
            #[trigger] source[i],
        ),
{
    lemma_scan_bounds(source, position);
    lemma_run_end(source, position, ByteClass::Whitespace);
}

} // verus!
