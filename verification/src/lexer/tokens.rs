//! The tokens of the language, their mathematical model, the keyword table
//! and the text that diagnostics show for a token.

use vstd::prelude::*;
use vstd::string::StringExecFns;
use crate::text::{decimal, push_decimal, push_signed_decimal, same_text, signed_decimal};

verus! {

/// A classified lexical unit. Every variant but `EOF` carries the byte
/// offset of its first character in the source.
#[derive(Debug, PartialEq, Eq)]
pub enum Token {
    // SPECIAL
    Illegal { location: usize, raw: String },
    EOF,
    // VALUES
    Ident { location: usize, raw: String },
    Int { location: usize, value: i64 },
    // OPERATORS
    Assign { location: usize },
    Plus { location: usize },
    Minus { location: usize },
    Multiply { location: usize },
    Divide { location: usize },
    Negation { location: usize },
    Equals { location: usize },
    NotEquals { location: usize },
    LessThan { location: usize },
    GreaterThan { location: usize },
    // SYNTAX
    Comma { location: usize },
    Semicolon { location: usize },
    LeftParen { location: usize },
    RightParen { location: usize },
    LeftBrace { location: usize },
    RightBrace { location: usize },
    // KEYWORDS
    Function { location: usize },
    Let { location: usize },
    True { location: usize },
    False { location: usize },
    If { location: usize },
    Else { location: usize },
    Return { location: usize },
}

/// The mathematical model of a [`Token`]: offsets are natural numbers,
/// payload text is a sequence of characters, an integer value is an `int`.
pub enum TokenView {
    // SPECIAL
    Illegal { location: nat, raw: Seq<char> },
    EOF,
    // VALUES
    Ident { location: nat, raw: Seq<char> },
    Int { location: nat, value: int },
    // OPERATORS
    Assign { location: nat },
    Plus { location: nat },
    Minus { location: nat },
    Multiply { location: nat },
    Divide { location: nat },
    Negation { location: nat },
    Equals { location: nat },
    NotEquals { location: nat },
    LessThan { location: nat },
    GreaterThan { location: nat },
    // SYNTAX
    Comma { location: nat },
    Semicolon { location: nat },
    LeftParen { location: nat },
    RightParen { location: nat },
    LeftBrace { location: nat },
    RightBrace { location: nat },
    // KEYWORDS
    Function { location: nat },
    Let { location: nat },
    True { location: nat },
    False { location: nat },
    If { location: nat },
    Else { location: nat },
    Return { location: nat },
}

impl View for Token {
    type V = TokenView;

    open spec fn view(&self) -> TokenView {
        match self {
            Token::Illegal { location, raw } => TokenView::Illegal {
                location: *location as nat,
                raw: raw@,
            },
            Token::EOF => TokenView::EOF,
            Token::Ident { location, raw } => TokenView::Ident {
                location: *location as nat,
                raw: raw@,
            },
            Token::Int { location, value } => TokenView::Int {
                location: *location as nat,
                value: *value as int,
            },
            Token::Assign { location } => TokenView::Assign { location: *location as nat },
            Token::Plus { location } => TokenView::Plus { location: *location as nat },
            Token::Minus { location } => TokenView::Minus { location: *location as nat },
            Token::Multiply { location } => TokenView::Multiply { location: *location as nat },
            Token::Divide { location } => TokenView::Divide { location: *location as nat },
            Token::Negation { location } => TokenView::Negation { location: *location as nat },
            Token::Equals { location } => TokenView::Equals { location: *location as nat },
            Token::NotEquals { location } => TokenView::NotEquals { location: *location as nat },
            Token::LessThan { location } => TokenView::LessThan { location: *location as nat },
            Token::GreaterThan { location } => TokenView::GreaterThan {
                location: *location as nat,
            },
            Token::Comma { location } => TokenView::Comma { location: *location as nat },
            Token::Semicolon { location } => TokenView::Semicolon { location: *location as nat },
            Token::LeftParen { location } => TokenView::LeftParen { location: *location as nat },
            Token::RightParen { location } => TokenView::RightParen { location: *location as nat },
            Token::LeftBrace { location } => TokenView::LeftBrace { location: *location as nat },
            Token::RightBrace { location } => TokenView::RightBrace { location: *location as nat },
            Token::Function { location } => TokenView::Function { location: *location as nat },
            Token::Let { location } => TokenView::Let { location: *location as nat },
            Token::True { location } => TokenView::True { location: *location as nat },
            Token::False { location } => TokenView::False { location: *location as nat },
            Token::If { location } => TokenView::If { location: *location as nat },
            Token::Else { location } => TokenView::Else { location: *location as nat },
            Token::Return { location } => TokenView::Return { location: *location as nat },
        }
    }
}

impl Clone for Token {
    fn clone(&self) -> (copy: Self)
        ensures
            copy == *self,
    {
        match self {
            Token::Illegal { location, raw } => Token::Illegal {
                location: *location,
                raw: raw.clone(),
            },
            Token::EOF => Token::EOF,
            Token::Ident { location, raw } => Token::Ident {
                location: *location,
                raw: raw.clone(),
            },
            Token::Int { location, value } => Token::Int { location: *location, value: *value },
            Token::Assign { location } => Token::Assign { location: *location },
            Token::Plus { location } => Token::Plus { location: *location },
            Token::Minus { location } => Token::Minus { location: *location },
            Token::Multiply { location } => Token::Multiply { location: *location },
            Token::Divide { location } => Token::Divide { location: *location },
            Token::Negation { location } => Token::Negation { location: *location },
            Token::Equals { location } => Token::Equals { location: *location },
            Token::NotEquals { location } => Token::NotEquals { location: *location },
            Token::LessThan { location } => Token::LessThan { location: *location },
            Token::GreaterThan { location } => Token::GreaterThan { location: *location },
            Token::Comma { location } => Token::Comma { location: *location },
            Token::Semicolon { location } => Token::Semicolon { location: *location },
            Token::LeftParen { location } => Token::LeftParen { location: *location },
            Token::RightParen { location } => Token::RightParen { location: *location },
            Token::LeftBrace { location } => Token::LeftBrace { location: *location },
            Token::RightBrace { location } => Token::RightBrace { location: *location },
            Token::Function { location } => Token::Function { location: *location },
            Token::Let { location } => Token::Let { location: *location },
            Token::True { location } => Token::True { location: *location },
            Token::False { location } => Token::False { location: *location },
            Token::If { location } => Token::If { location: *location },
            Token::Else { location } => Token::Else { location: *location },
            Token::Return { location } => Token::Return { location: *location },
        }
    }
}

impl TokenView {
    /// The name of the token's variant.
    pub open spec fn name(self) -> Seq<char> {
        match self {
            TokenView::Illegal { .. } => "Illegal"@,
            TokenView::EOF => "EOF"@,
            TokenView::Ident { .. } => "Ident"@,
            TokenView::Int { .. } => "Int"@,
            TokenView::Assign { .. } => "Assign"@,
            TokenView::Plus { .. } => "Plus"@,
            TokenView::Minus { .. } => "Minus"@,
            TokenView::Multiply { .. } => "Multiply"@,
            TokenView::Divide { .. } => "Divide"@,
            TokenView::Negation { .. } => "Negation"@,
            TokenView::Equals { .. } => "Equals"@,
            TokenView::NotEquals { .. } => "NotEquals"@,
            TokenView::LessThan { .. } => "LessThan"@,
            TokenView::GreaterThan { .. } => "GreaterThan"@,
            TokenView::Comma { .. } => "Comma"@,
            TokenView::Semicolon { .. } => "Semicolon"@,
            TokenView::LeftParen { .. } => "LeftParen"@,
            TokenView::RightParen { .. } => "RightParen"@,
            TokenView::LeftBrace { .. } => "LeftBrace"@,
            TokenView::RightBrace { .. } => "RightBrace"@,
            TokenView::Function { .. } => "Function"@,
            TokenView::Let { .. } => "Let"@,
            TokenView::True { .. } => "True"@,
            TokenView::False { .. } => "False"@,
            TokenView::If { .. } => "If"@,
            TokenView::Else { .. } => "Else"@,
            TokenView::Return { .. } => "Return"@,
        }
    }

    /// The offset of the token's first character; `None` for `EOF`, which
    /// has no place in the source.
    pub open spec fn location(self) -> Option<nat> {
        match self {
            TokenView::EOF => None,
            TokenView::Illegal { location, .. }
            | TokenView::Ident { location, .. }
            | TokenView::Int { location, .. } => Some(location),
            TokenView::Assign { location }
            | TokenView::Plus { location }
            | TokenView::Minus { location }
            | TokenView::Multiply { location }
            | TokenView::Divide { location }
            | TokenView::Negation { location }
            | TokenView::Equals { location }
            | TokenView::NotEquals { location }
            | TokenView::LessThan { location }
            | TokenView::GreaterThan { location }
            | TokenView::Comma { location }
            | TokenView::Semicolon { location }
            | TokenView::LeftParen { location }
            | TokenView::RightParen { location }
            | TokenView::LeftBrace { location }
            | TokenView::RightBrace { location }
            | TokenView::Function { location }
            | TokenView::Let { location }
            | TokenView::True { location }
            | TokenView::False { location }
            | TokenView::If { location }
            | TokenView::Else { location }
            | TokenView::Return { location } => Some(location),
        }
    }

    /// The payload of the token as diagnostics show it, empty where the
    /// variant has none: `, raw: "…"` with the text between the quotes, or
    /// `, value: …` with the decimal numeral.
    ///
    /// The text is deliberately left unescaped: every character of it,
    /// a quote, a backslash or a control character among them, stands
    /// between the quotes as the token carries it. A diagnostic shows what
    /// was read; it is not meant to be read back.
    pub open spec fn payload(self) -> Seq<char> {
        match self {
            TokenView::Illegal { raw, .. } | TokenView::Ident { raw, .. } => ", raw: \""@ + raw
                + "\""@,
            TokenView::Int { value, .. } => ", value: "@ + signed_decimal(value),
            _ => Seq::empty(),
        }
    }

    /// The text that stands for the token in a diagnostic: the variant's
    /// name, then its fields in braces, as in `Int { location: 6, value: 5 }`.
    /// `EOF` has no fields and is shown as its bare name.
    pub open spec fn describe(self) -> Seq<char> {
        match self.location() {
            None => self.name(),
            Some(location) => self.name() + " { location: "@ + decimal(location) + self.payload()
                + " }"@,
        }
    }
}

/// The keyword that `text` spells, placed at `location`; `None` where
/// `text` is no reserved word. The match is exact and case-sensitive.
pub open spec fn keyword(text: Seq<char>, location: nat) -> Option<TokenView> {
    if text == "fn"@ {
        Some(TokenView::Function { location })
    } else if text == "let"@ {
        Some(TokenView::Let { location })
    } else if text == "true"@ {
        Some(TokenView::True { location })
    } else if text == "false"@ {
        Some(TokenView::False { location })
    } else if text == "if"@ {
        Some(TokenView::If { location })
    } else if text == "else"@ {
        Some(TokenView::Else { location })
    } else if text == "return"@ {
        Some(TokenView::Return { location })
    } else {
        None
    }
}

/// What [`lookup_ident`] answers for a token: the keyword spelled by an
/// identifier's text at the identifier's offset, and nothing for any token
/// that is no identifier.
pub open spec fn keyword_for(token: TokenView) -> Option<TokenView> {
    match token {
        TokenView::Ident { location, raw } => keyword(raw, location),
        _ => None,
    }
}

/// Looks an identifier token up in the keyword table.
pub fn lookup_ident(ident: &Token) -> (found: Option<Token>)
    ensures
        match found {
            Some(token) => keyword_for(ident@) == Some(token@),
            None => keyword_for(ident@) is None,
        },
{
    match ident {
        Token::Ident { location, raw } => {
            let text = raw.as_str();
            if same_text(text, "fn") {
                Some(Token::Function { location: *location })
            } else if same_text(text, "let") {
                Some(Token::Let { location: *location })
            } else if same_text(text, "true") {
                Some(Token::True { location: *location })
            } else if same_text(text, "false") {
                Some(Token::False { location: *location })
            } else if same_text(text, "if") {
                Some(Token::If { location: *location })
            } else if same_text(text, "else") {
                Some(Token::Else { location: *location })
            } else if same_text(text, "return") {
                Some(Token::Return { location: *location })
            } else {
                None
            }
        },
        _ => None,
    }
}

impl Token {
    /// The name of the variant and, for every token but `EOF`, its offset.
    fn name_and_location(&self) -> (pair: (&'static str, Option<usize>))
        ensures
            pair.0@ == self@.name(),
            match pair.1 {
                Some(location) => self@.location() == Some(location as nat),
                None => self@.location() is None,
            },
    {
        match self {
            Token::Illegal { location, .. } => ("Illegal", Some(*location)),
            Token::EOF => ("EOF", None),
            Token::Ident { location, .. } => ("Ident", Some(*location)),
            Token::Int { location, .. } => ("Int", Some(*location)),
            Token::Assign { location } => ("Assign", Some(*location)),
            Token::Plus { location } => ("Plus", Some(*location)),
            Token::Minus { location } => ("Minus", Some(*location)),
            Token::Multiply { location } => ("Multiply", Some(*location)),
            Token::Divide { location } => ("Divide", Some(*location)),
            Token::Negation { location } => ("Negation", Some(*location)),
            Token::Equals { location } => ("Equals", Some(*location)),
            Token::NotEquals { location } => ("NotEquals", Some(*location)),
            Token::LessThan { location } => ("LessThan", Some(*location)),
            Token::GreaterThan { location } => ("GreaterThan", Some(*location)),
            Token::Comma { location } => ("Comma", Some(*location)),
            Token::Semicolon { location } => ("Semicolon", Some(*location)),
            Token::LeftParen { location } => ("LeftParen", Some(*location)),
            Token::RightParen { location } => ("RightParen", Some(*location)),
            Token::LeftBrace { location } => ("LeftBrace", Some(*location)),
            Token::RightBrace { location } => ("RightBrace", Some(*location)),
            Token::Function { location } => ("Function", Some(*location)),
            Token::Let { location } => ("Let", Some(*location)),
            Token::True { location } => ("True", Some(*location)),
            Token::False { location } => ("False", Some(*location)),
            Token::If { location } => ("If", Some(*location)),
            Token::Else { location } => ("Else", Some(*location)),
            Token::Return { location } => ("Return", Some(*location)),
        }
    }

    /// The text that stands for this token in a diagnostic: the variant's
    /// name and its fields, with the raw text of an `Illegal` or `Ident`
    /// token between quotes and deliberately unescaped.
    pub fn describe(&self) -> (text: String)
        ensures
            text@ == self@.describe(),
    {
        let (name, place) = self.name_and_location();
        let mut text = String::from_str(name);
        match place {
            None => {},
            Some(location) => {
                text.append(" { location: ");
                push_decimal(&mut text, location as u64);
                match self {
                    Token::Illegal { raw, .. } | Token::Ident { raw, .. } => {
                        text.append(", raw: \"");
                        text.append(raw.as_str());
                        text.append("\"");
                    },
                    Token::Int { value, .. } => {
                        text.append(", value: ");
                        push_signed_decimal(&mut text, *value);
                    },
                    _ => {},
                }
                text.append(" }");
                assert(text@ =~= self@.describe());
            },
        }
        text
    }
}

} // verus!
