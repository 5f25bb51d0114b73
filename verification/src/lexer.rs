//! The tokenizer: a single-pass scanner over the bytes of a source text.
//!
//! The scanner never backtracks. It looks one byte ahead, and only to tell
//! `==` from `=` and `!=` from `!`. What it yields is stated by [`scan`], a
//! function of the source bytes and the read offset alone.

use vstd::prelude::*;
use vstd::string::StringSliceAdditionalSpecFns;
use crate::lexer::laws::law_eof_is_final;
use crate::lexer::tokens::{keyword, lookup_ident, Token, TokenView};

pub mod laws;
pub mod tokens;

verus! {

/// The classes of bytes that the scanner consumes as a run.
#[derive(Clone, Copy, Debug, PartialEq, Eq, Structural)]
pub enum ByteClass {
    /// Space, tab, line feed and carriage return.
    Whitespace,
    /// ASCII letters, the underscore and decimal digits.
    Word,
    /// Decimal digits.
    Digit,
}

/// Whether `b` is one of the four whitespace bytes.
pub open spec fn spec_is_whitespace(b: u8) -> bool {
    b == ' ' as u8 || b == '\t' as u8 || b == '\n' as u8 || b == '\r' as u8
}

/// Whether `b` can start an identifier: an ASCII letter or the underscore.
pub open spec fn spec_is_letter(b: u8) -> bool {
    ('a' as u8 <= b <= 'z' as u8) || ('A' as u8 <= b <= 'Z' as u8) || b == '_' as u8
}

/// Whether `b` is a decimal digit.
pub open spec fn spec_is_digit(b: u8) -> bool {
    '0' as u8 <= b <= '9' as u8
}

/// Whether `b` is one of the four whitespace bytes.
#[verifier::when_used_as_spec(spec_is_whitespace)]
pub fn is_whitespace(b: u8) -> (yes: bool)
    ensures
        yes == spec_is_whitespace(b),
{
    b == ' ' as u8 || b == '\t' as u8 || b == '\n' as u8 || b == '\r' as u8
}

/// Whether `b` can start an identifier: an ASCII letter or the underscore.
#[verifier::when_used_as_spec(spec_is_letter)]
pub fn is_letter(b: u8) -> (yes: bool)
    ensures
        yes == spec_is_letter(b),
{
    ('a' as u8 <= b && b <= 'z' as u8) || ('A' as u8 <= b && b <= 'Z' as u8) || b == '_' as u8
}

/// Whether `b` is a decimal digit.
#[verifier::when_used_as_spec(spec_is_digit)]
pub fn is_digit(b: u8) -> (yes: bool)
    ensures
        yes == spec_is_digit(b),
{
    '0' as u8 <= b && b <= '9' as u8
}

impl ByteClass {
    /// Whether `b` belongs to this class.
    pub open spec fn spec_holds(self, b: u8) -> bool {
        match self {
            ByteClass::Whitespace => is_whitespace(b),
            ByteClass::Word => is_letter(b) || is_digit(b),
            ByteClass::Digit => is_digit(b),
        }
    }

    /// Whether `b` belongs to this class.
    #[verifier::when_used_as_spec(spec_holds)]
    pub fn holds(self, b: u8) -> (yes: bool)
        ensures
            yes == self.spec_holds(b),
    {
        match self {
            ByteClass::Whitespace => is_whitespace(b),
            ByteClass::Word => is_letter(b) || is_digit(b),
            ByteClass::Digit => is_digit(b),
        }
    }
}

/// The end of the longest run of bytes of `class` that starts at `from`:
/// the offset of the first byte at or after `from` that is not of the
/// class, or the length of the source where there is none.
pub open spec fn run_end(source: Seq<u8>, from: nat, class: ByteClass) -> nat
    decreases source.len() - from,
{
    if from < source.len() && class.holds(source[from as int]) {
        run_end(source, from + 1, class)
    } else {
        from
    }
}

/// The bytes read as characters, one character for each byte.
pub open spec fn text_of(bytes: Seq<u8>) -> Seq<char> {
    bytes.map_values(|b: u8| b as char)
}

/// The number that a run of decimal digits denotes.
pub open spec fn decimal_value(digits: Seq<u8>) -> nat
    decreases digits.len(),
{
    if digits.len() == 0 {
        0
    } else {
        decimal_value(digits.drop_last()) * 10 + (digits.last() - '0' as u8) as nat
    }
}

/// The token that the single byte `b` at offset `location` makes on its
/// own, for the bytes that need no lookahead.
pub open spec fn punctuation(b: u8, location: nat) -> Option<TokenView> {
    if b == '+' as u8 {
        Some(TokenView::Plus { location })
    } else if b == '-' as u8 {
        Some(TokenView::Minus { location })
    } else if b == '*' as u8 {
        Some(TokenView::Multiply { location })
    } else if b == '/' as u8 {
        Some(TokenView::Divide { location })
    } else if b == '<' as u8 {
        Some(TokenView::LessThan { location })
    } else if b == '>' as u8 {
        Some(TokenView::GreaterThan { location })
    } else if b == ',' as u8 {
        Some(TokenView::Comma { location })
    } else if b == ';' as u8 {
        Some(TokenView::Semicolon { location })
    } else if b == '(' as u8 {
        Some(TokenView::LeftParen { location })
    } else if b == ')' as u8 {
        Some(TokenView::RightParen { location })
    } else if b == '{' as u8 {
        Some(TokenView::LeftBrace { location })
    } else if b == '}' as u8 {
        Some(TokenView::RightBrace { location })
    } else {
        None
    }
}

/// One step of the scanner: the token found and the offset just behind it.
pub struct Scan {
    pub token: TokenView,
    pub end: nat,
}

/// The token that starts at `start`, an offset that holds no whitespace.
///
/// * At or behind the end of the source: `EOF`.
/// * `=` and `!` become `Equals` and `NotEquals` when a `=` follows at once,
///   and `Assign` and `Negation` otherwise.
/// * A letter or underscore starts the longest run of word bytes, which is a
///   keyword where the keyword table holds it and an identifier otherwise.
/// * A digit starts the longest run of digits, which is an integer where
///   its value fits in 64 signed bits, and otherwise an `Illegal` token
///   that carries the whole run.
/// * Any other byte is an `Illegal` token of that one byte.
pub open spec fn scan_at(source: Seq<u8>, start: nat) -> Scan {
    if start >= source.len() {
        Scan { token: TokenView::EOF, end: start }
    } else {
        let b = source[start as int];
        let equals_follows = start + 1 < source.len() && source[start + 1 as int] == '=' as u8;
        if b == '=' as u8 {
            if equals_follows {
                Scan { token: TokenView::Equals { location: start }, end: start + 2 }
            } else {
                Scan { token: TokenView::Assign { location: start }, end: start + 1 }
            }
        } else if b == '!' as u8 {
            if equals_follows {
                Scan { token: TokenView::NotEquals { location: start }, end: start + 2 }
            } else {
                Scan { token: TokenView::Negation { location: start }, end: start + 1 }
            }
        } else if let Some(token) = punctuation(b, start) {
            Scan { token, end: start + 1 }
        } else if is_letter(b) {
            let end = run_end(source, start, ByteClass::Word);
            let raw = text_of(source.subrange(start as int, end as int));
            match keyword(raw, start) {
                Some(token) => Scan { token, end },
                None => Scan { token: TokenView::Ident { location: start, raw }, end },
            }
        } else if is_digit(b) {
            let end = run_end(source, start, ByteClass::Digit);
            let digits = source.subrange(start as int, end as int);
            if decimal_value(digits) <= i64::MAX {
                Scan {
                    token: TokenView::Int { location: start, value: decimal_value(digits) as int },
                    end,
                }
            } else {
                Scan { token: TokenView::Illegal { location: start, raw: text_of(digits) }, end }
            }
        } else {
            Scan {
                token: TokenView::Illegal { location: start, raw: seq![b as char] },
                end: start + 1,
            }
        }
    }
}

/// The offset at which the token after `position` starts: the first offset
/// at or after `position` that holds no whitespace.
pub open spec fn token_start(source: Seq<u8>, position: nat) -> nat {
    run_end(source, position, ByteClass::Whitespace)
}

/// What the scanner yields when it reads on from `position`: it passes over
/// whitespace and then takes the token that starts there.
pub open spec fn scan(source: Seq<u8>, position: nat) -> Scan {
    scan_at(source, token_start(source, position))
}

/// Every token from `position` to the end of the source, in order, without
/// the closing `EOF`.
pub open spec fn tokens_from(source: Seq<u8>, position: nat) -> Seq<TokenView>
    decreases source.len() - position,
{
    let step = scan(source, position);
    if step.token is EOF {
        Seq::empty()
    } else {
        proof {
            lemma_scan_bounds(source, position);
        }
        seq![step.token] + tokens_from(source, step.end)
    }
}

/// The bytes that each token of [`tokens_from`] was made of, in the same
/// order: for each token the part of the source from its first byte up to
/// the read offset behind it.
pub open spec fn spans_from(source: Seq<u8>, position: nat) -> Seq<Seq<u8>>
    decreases source.len() - position,
{
    let step = scan(source, position);
    if step.token is EOF {
        Seq::empty()
    } else {
        proof {
            lemma_scan_bounds(source, position);
        }
        seq![source.subrange(token_start(source, position) as int, step.end as int)] + spans_from(
            source,
            step.end,
        )
    }
}

/// The read offset after `calls` tokens have been taken from `position` on.
pub open spec fn cursor_after(source: Seq<u8>, position: nat, calls: nat) -> nat
    decreases calls,
{
    if calls == 0 {
        position
    } else {
        scan(source, cursor_after(source, position, (calls - 1) as nat)).end
    }
}

/// Where a scan step starts and ends. The step yields `EOF` exactly when
/// only whitespace is left, and then stops where the source ends; any other
/// token begins at the first byte that is no whitespace, which is the
/// offset it carries, and ends behind at least one byte, inside the source.
pub proof fn lemma_scan_bounds(source: Seq<u8>, position: nat)
    ensures
        scan(source, position).token is EOF <==> token_start(source, position) >= source.len(),
        scan(source, position).token is EOF ==> scan(source, position).end == token_start(
            source,
            position,
        ),
        position <= token_start(source, position),
        position <= source.len() ==> token_start(source, position) <= source.len(),
        scan(source, position).token !is EOF ==> {
            &&& token_start(source, position) < scan(source, position).end <= source.len()
            &&& scan(source, position).token.location() == Some(token_start(source, position))
        },
{
    let start = token_start(source, position);
    if position <= source.len() {
        lemma_run_end(source, position, ByteClass::Whitespace);
    }
    if start < source.len() {
        lemma_run_end(source, start, ByteClass::Word);
        lemma_run_end(source, start, ByteClass::Digit);
    }
}

/// A run that starts inside the source ends inside it, holds only bytes of
/// its class, and cannot be extended.
pub proof fn lemma_run_end(source: Seq<u8>, from: nat, class: ByteClass)
    requires
        from <= source.len(),
    ensures
        from <= run_end(source, from, class) <= source.len(),
        forall|i: int|
            from <= i < run_end(source, from, class) ==> class.holds(#[trigger] source[i]),
        run_end(source, from, class) < source.len() ==> !class.holds(
            source[run_end(source, from, class) as int],
        ),
    decreases source.len() - from,
{
    if from < source.len() && class.holds(source[from as int]) {
        lemma_run_end(source, from + 1, class);
    }
}

/// A run of bytes of one class, followed by the end of the source or by a
/// byte outside the class, is the run that `run_end` finds.
pub proof fn lemma_run_end_is(source: Seq<u8>, from: nat, end: nat, class: ByteClass)
    requires
        from <= end <= source.len(),
        forall|i: int| from <= i < end ==> class.holds(#[trigger] source[i]),
        end < source.len() ==> !class.holds(source[end as int]),
    ensures
        run_end(source, from, class) == end,
    decreases end - from,
{
    if from < end {
        lemma_run_end_is(source, from + 1, end, class);
    }
}

/// Appending a digit to a run multiplies its value by ten and adds the digit.
pub proof fn lemma_decimal_value_step(source: Seq<u8>, start: nat, end: nat)
    requires
        start <= end < source.len(),
    ensures
        decimal_value(source.subrange(start as int, end + 1 as int)) == decimal_value(
            source.subrange(start as int, end as int),
        ) * 10 + (source[end as int] - '0' as u8) as nat,
{
    let longer = source.subrange(start as int, end + 1 as int);
    assert(longer.drop_last() =~= source.subrange(start as int, end as int));
}

/// A tokenizer over the bytes of one source text.
pub struct Lexer<'a> {
    input: &'a [u8],
    position: usize,
}

impl<'a> Lexer<'a> {
    #[verifier::type_invariant]
    spec fn within_source(self) -> bool {
        self.position <= self.input@.len()
    }

    /// The bytes of the source text.
    pub closed spec fn source(&self) -> Seq<u8> {
        self.input@
    }

    /// The offset of the next byte to read.
    pub closed spec fn cursor(&self) -> nat {
        self.position as nat
    }

    /// A tokenizer at the start of `input`.
    pub fn new(input: &'a str) -> (lexer: Self)
        ensures
            lexer.source() == input.spec_bytes(),
            lexer.cursor() == 0,
    {
        Lexer { input: input.as_bytes(), position: 0 }
    }

    /// The end of the run of `class` bytes that starts at `from`.
    fn run_end(&self, from: usize, class: ByteClass) -> (end: usize)
        requires
            from <= self.source().len(),
        ensures
            end == run_end(self.source(), from as nat, class),
            from <= end <= self.source().len(),
    {
        let mut end: usize = from;
        while end < self.input.len() && class.holds(self.input[end])
            invariant
                from <= end <= self.input@.len(),
                forall|i: int| from <= i < end ==> class.holds(#[trigger] self.input@[i]),
            decreases self.input@.len() - end,
        {
            end += 1;
        }
        proof {
            lemma_run_end_is(self.source(), from as nat, end as nat, class);
        }
        end
    }

    /// The bytes from `start` up to `end`, read as characters.
    fn text_between(&self, start: usize, end: usize) -> (text: String)
        requires
            start <= end <= self.source().len(),
        ensures
            text@ == text_of(self.source().subrange(start as int, end as int)),
    {
        let mut text = String::new();
        let mut i: usize = start;
        while i < end
            invariant
                start <= i <= end <= self.input@.len(),
                text@ == text_of(self.input@.subrange(start as int, i as int)),
            decreases end - i,
        {
            text.push(self.input[i] as char);
            i += 1;
            assert(text@ =~= text_of(self.input@.subrange(start as int, i as int)));
        }
        text
    }

    /// The value of the digits from `start` up to `end`, or `None` where it
    /// does not fit in 64 signed bits.
    fn value_between(&self, start: usize, end: usize) -> (value: Option<i64>)
        requires
            start <= end <= self.source().len(),
            forall|i: int| start <= i < end ==> is_digit(#[trigger] self.source()[i]),
        ensures
            match value {
                Some(v) => v == decimal_value(self.source().subrange(start as int, end as int)),
                None => decimal_value(self.source().subrange(start as int, end as int)) > i64::MAX,
            },
    {
        let mut value: i64 = 0;
        let mut i: usize = start;
        while i < end
            invariant
                start <= i <= end <= self.input@.len(),
                forall|j: int| start <= j < end ==> is_digit(#[trigger] self.input@[j]),
                0 <= value == decimal_value(self.input@.subrange(start as int, i as int)),
            decreases end - i,
        {
            let digit: i64 = (self.input[i] - '0' as u8) as i64;
            proof {
                lemma_decimal_value_step(self.input@, start as nat, i as nat);
            }
            if value > (i64::MAX - digit) / 10 {
                proof {
                    lemma_decimal_value_grows(
                        self.input@,
                        start as nat,
                        (i + 1) as nat,
                        end as nat,
                    );
                }
                return None;
            }
            value = value * 10 + digit;
            i += 1;
        }
        Some(value)
    }

    /// Whether the byte at `at` exists and is `=`.
    fn equals_at(&self, at: usize) -> (yes: bool)
        ensures
            yes == (at < self.source().len() && self.source()[at as int] == '=' as u8),
    {
        at < self.input.len() && self.input[at] == '=' as u8
    }

    /// Produces the next token and moves the read offset behind it. At the
    /// end of the source the token is `EOF`, on this call and on every
    /// later one.
    pub fn next_token(&mut self) -> (token: Token)
        ensures
            token@ == scan(old(self).source(), old(self).cursor()).token,
            final(self).cursor() == scan(old(self).source(), old(self).cursor()).end,
            final(self).source() == old(self).source(),
            token is EOF ==> scan(final(self).source(), final(self).cursor()).token is EOF,
    {
        proof {
            use_type_invariant(&*self);
            lemma_run_end(self.source(), self.cursor(), ByteClass::Whitespace);
            if scan(self.source(), self.cursor()).token is EOF {
                law_eof_is_final(self.source(), self.cursor(), 1);
            }
        }
        let start = self.run_end(self.position, ByteClass::Whitespace);
        if start >= self.input.len() {
            self.position = start;
            return Token::EOF;
        }
        let b = self.input[start];
        if b == '=' as u8 || b == '!' as u8 {
            let double = self.equals_at(start + 1);
            self.position = if double {
                start + 2
            } else {
                start + 1
            };
            if b == '=' as u8 {
                if double {
                    Token::Equals { location: start }
                } else {
                    Token::Assign { location: start }
                }
            } else {
                if double {
                    Token::NotEquals { location: start }
                } else {
                    Token::Negation { location: start }
                }
            }
        } else if let Some(token) = single(b, start) {
            self.position = start + 1;
            token
        } else if is_letter(b) {
            proof {
                lemma_run_end(self.source(), start as nat, ByteClass::Word);
            }
            let end = self.run_end(start, ByteClass::Word);
            let ident = Token::Ident { location: start, raw: self.text_between(start, end) };
            self.position = end;
            match lookup_ident(&ident) {
                Some(token) => token,
                None => ident,
            }
        } else if is_digit(b) {
            proof {
                lemma_run_end(self.source(), start as nat, ByteClass::Digit);
            }
            let end = self.run_end(start, ByteClass::Digit);
            let token = match self.value_between(start, end) {
                Some(value) => Token::Int { location: start, value },
                None => Token::Illegal { location: start, raw: self.text_between(start, end) },
            };
            self.position = end;
            token
        } else {
            let mut raw = String::new();
            raw.push(b as char);
            self.position = start + 1;
            Token::Illegal { location: start, raw }
        }
    }
}

/// The value of a run of digits is at least the value of each of its
/// prefixes.
pub proof fn lemma_decimal_value_grows(source: Seq<u8>, start: nat, middle: nat, end: nat)
    requires
        start <= middle <= end <= source.len(),
    ensures
        decimal_value(source.subrange(start as int, middle as int)) <= decimal_value(
            source.subrange(start as int, end as int),
        ),
    decreases end - middle,
{
    if middle < end {
        lemma_decimal_value_grows(source, start, middle, (end - 1) as nat);
        lemma_decimal_value_step(source, start, (end - 1) as nat);
    }
}

/// The token that a byte makes on its own, if it makes one.
fn single(b: u8, location: usize) -> (token: Option<Token>)
    ensures
        match token {
            Some(t) => punctuation(b, location as nat) == Some(t@),
            None => punctuation(b, location as nat) is None,
        },
{
    if b == '+' as u8 {
        Some(Token::Plus { location })
    } else if b == '-' as u8 {
        Some(Token::Minus { location })
    } else if b == '*' as u8 {
        Some(Token::Multiply { location })
    } else if b == '/' as u8 {
        Some(Token::Divide { location })
    } else if b == '<' as u8 {
        Some(Token::LessThan { location })
    } else if b == '>' as u8 {
        Some(Token::GreaterThan { location })
    } else if b == ',' as u8 {
        Some(Token::Comma { location })
    } else if b == ';' as u8 {
        Some(Token::Semicolon { location })
    } else if b == '(' as u8 {
        Some(Token::LeftParen { location })
    } else if b == ')' as u8 {
        Some(Token::RightParen { location })
    } else if b == '{' as u8 {
        Some(Token::LeftBrace { location })
    } else if b == '}' as u8 {
        Some(Token::RightBrace { location })
    } else {
        None
    }
}

} // verus!
