//! The tokenizer: from source text to tokens.
//!
//! Number literals are not told apart here: an atom other than `nil` and
//! `t` comes out as a symbol, and the caller turns the symbols that it reads
//! as numbers into number tokens.
//!
//! Quoting characters at the end of the text have no token to go to. They
//! come out with a symbol of no characters, which no atom is and which the
//! reader refuses.

use vstd::prelude::*;
use crate::misc::char_at;
use crate::misc::slice_of;
use crate::misc::text_eq;
use crate::number::Number;

verus! {

/// What a token is.
#[derive(Debug, Clone, PartialEq)]
pub enum TokenType {
    Nil,
    T,
    Number(Number),
    String(String),
    Symbol(String),
    StartParen,
    EndParen,
}

/// A token with the quoting characters that stand before it.
#[derive(Debug, Clone, PartialEq)]
pub struct Token {
    pub t: TokenType,
    pub prefix: Vec<char>,
}

/// What a `TokenType` stands for.
pub enum TokenKind {
    Nil,
    T,
    Number(Number),
    Str(Seq<char>),
    Symbol(Seq<char>),
    StartParen,
    EndParen,
}

/// What a `Token` stands for.
pub struct TokenView {
    pub kind: TokenKind,
    pub prefix: Seq<char>,
}

impl View for TokenType {
    type V = TokenKind;

    open spec fn view(&self) -> TokenKind {
        match self {
            TokenType::Nil => TokenKind::Nil,
            TokenType::T => TokenKind::T,
            TokenType::Number(n) => TokenKind::Number(*n),
            TokenType::String(s) => TokenKind::Str(s@),
            TokenType::Symbol(s) => TokenKind::Symbol(s@),
            TokenType::StartParen => TokenKind::StartParen,
            TokenType::EndParen => TokenKind::EndParen,
        }
    }
}

impl View for Token {
    type V = TokenView;

    open spec fn view(&self) -> TokenView {
        TokenView { kind: self.t@, prefix: self.prefix@ }
    }
}

/// What a sequence of tokens stands for.
pub open spec fn token_views(tokens: Seq<Token>) -> Seq<TokenView> {
    Seq::new(tokens.len(), |i: int| tokens[i]@)
}

/// Whether a character is white space, by the Unicode property of that
/// name.
pub open spec fn is_space(c: char) -> bool {
    let code = c as u32;
    ||| 0x09 <= code <= 0x0D
    ||| code == 0x20
    ||| code == 0x85
    ||| code == 0xA0
    ||| code == 0x1680
    ||| 0x2000 <= code <= 0x200A
    ||| code == 0x2028
    ||| code == 0x2029
    ||| code == 0x202F
    ||| code == 0x205F
    ||| code == 0x3000
}

/// Whether a character is one of the quoting characters `'`, `` ` ``, `,`
/// and `@`.
pub open spec fn is_prefix_char(c: char) -> bool {
    c == '\'' || c == '`' || c == ',' || c == '@'
}

/// How many characters from position `i` on stand before the next double
/// quote, or before the end.
pub open spec fn string_run(code: Seq<char>, i: int) -> nat
    decreases code.len() - i,
{
    if i < 0 || i >= code.len() || code[i] == '"' {
        0
    } else {
        1 + string_run(code, i + 1)
    }
}

/// How many characters from position `i` on stand before the next white
/// space or closing parenthesis, or before the end.
pub open spec fn atom_run(code: Seq<char>, i: int) -> nat
    decreases code.len() - i,
{
    if i < 0 || i >= code.len() || is_space(code[i]) || code[i] == ')' {
        0
    } else {
        1 + atom_run(code, i + 1)
    }
}

/// The token that an atom of the given text is.
pub open spec fn atom_kind(text: Seq<char>) -> TokenKind {
    if text == "nil"@ {
        TokenKind::Nil
    } else if text == "t"@ {
        TokenKind::T
    } else {
        TokenKind::Symbol(text)
    }
}

/// The tokens of a text from position `i` on, with the quoting characters
/// read since the last token or white space in `prefix`.
///
/// White space ends a prefix. A parenthesis is a token. A double quote
/// opens a string that runs to the next double quote or to the end. Any
/// other character opens an atom that runs to the next white space or
/// closing parenthesis. A prefix that the end of the text follows comes out
/// with a symbol of no characters.
pub open spec fn tokens_from(code: Seq<char>, i: int, prefix: Seq<char>) -> Seq<TokenView>
    decreases code.len() - i,
{
    if i < 0 || i >= code.len() {
        if prefix.len() > 0 {
            seq![TokenView { kind: TokenKind::Symbol(Seq::empty()), prefix }]
        } else {
            Seq::empty()
        }
    } else if is_space(code[i]) {
        tokens_from(code, i + 1, Seq::empty())
    } else if is_prefix_char(code[i]) {
        tokens_from(code, i + 1, prefix.push(code[i]))
    } else if code[i] == '(' {
        seq![TokenView { kind: TokenKind::StartParen, prefix }] + tokens_from(
            code,
            i + 1,
            Seq::empty(),
        )
    } else if code[i] == ')' {
        seq![TokenView { kind: TokenKind::EndParen, prefix }] + tokens_from(
            code,
            i + 1,
            Seq::empty(),
        )
    } else if code[i] == '"' {
        let end = i + 1 + string_run(code, i + 1);
        let token = TokenView { kind: TokenKind::Str(code.subrange(i + 1, end)), prefix };
        if end >= code.len() {
            seq![token]
        } else {
            seq![token] + tokens_from(code, end + 1, Seq::empty())
        }
    } else {
        let end = i + 1 + atom_run(code, i + 1);
        let token = TokenView { kind: atom_kind(code.subrange(i, end)), prefix };
        if end >= code.len() {
            seq![token]
        } else {
            seq![token] + tokens_from(code, end, Seq::empty())
        }
    }
}

/// The tokens of a text.
pub open spec fn tokens_of(code: Seq<char>) -> Seq<TokenView> {
    tokens_from(code, 0, Seq::empty())
}

/// Whether a character is white space.
pub fn is_whitespace(c: char) -> (r: bool)
    ensures
        r == is_space(c),
{
    let code: u32 = c as u32;
    (0x09 <= code && code <= 0x0D) || code == 0x20 || code == 0x85 || code == 0xA0 || code
        == 0x1680 || (0x2000 <= code && code <= 0x200A) || code == 0x2028 || code == 0x2029
        || code == 0x202F || code == 0x205F || code == 0x3000
}

/// Whether a character is a quoting character.
pub fn is_prefix(c: char) -> (r: bool)
    ensures
        r == is_prefix_char(c),
{
    c == '\'' || c == '`' || c == ',' || c == '@'
}

/// A run ends where its length says, and no earlier.
proof fn lemma_string_run(code: Seq<char>, i: int, j: int)
    requires
        0 <= i <= j <= code.len(),
        forall|k: int| i <= k < j ==> code[k] != '"',
    ensures
        string_run(code, i) == (j - i) + string_run(code, j),
    decreases j - i,
{
    if i < j {
        lemma_string_run(code, i + 1, j);
    }
}

/// A run ends where its length says, and no earlier.
proof fn lemma_atom_run(code: Seq<char>, i: int, j: int)
    requires
        0 <= i <= j <= code.len(),
        forall|k: int| i <= k < j ==> !is_space(code[k]) && code[k] != ')',
    ensures
        atom_run(code, i) == (j - i) + atom_run(code, j),
    decreases j - i,
{
    if i < j {
        lemma_atom_run(code, i + 1, j);
    }
}

/// One more token after the tokens so far.
proof fn lemma_token_views_push(tokens: Seq<Token>, token: Token)
    ensures
        token_views(tokens.push(token)) == token_views(tokens).push(token@),
{
}

/// The token that an atom of the given text is.
fn atom_token(text: String) -> (r: TokenType)
    ensures
        r@ == atom_kind(text@),
{
    if text_eq(text.as_str(), "nil") {
        TokenType::Nil
    } else if text_eq(text.as_str(), "t") {
        TokenType::T
    } else {
        TokenType::Symbol(text)
    }
}

/// Splits a text into tokens.
pub fn tokenize(code: String) -> (tokens: Vec<Token>)
    ensures
        token_views(tokens@) == tokens_of(code@),
{
    let text = code.as_str();
    let ascii = text.is_ascii();
    let n = text.unicode_len();
    let ghost chars = code@;
    let mut tokens: Vec<Token> = Vec::new();
    let mut prefix: Vec<char> = Vec::new();
    let mut i: usize = 0;
    while i < n
        invariant
            i <= n,
            n == chars.len(),
            chars == text@,
            chars == code@,
            ascii ==> text.is_ascii(),
            token_views(tokens@) + tokens_from(chars, i as int, prefix@) == tokens_of(chars),
        decreases n - i,
    {
        let c = char_at(text, ascii, i);
        if is_whitespace(c) {
            prefix = Vec::new();
            i += 1;
        } else if is_prefix(c) {
            prefix.push(c);
            i += 1;
        } else if c == '(' || c == ')' {
            let t = if c == '(' {
                TokenType::StartParen
            } else {
                TokenType::EndParen
            };
            let token = Token { t, prefix };
            tokens.push(token);
            prefix = Vec::new();
            i += 1;
        } else if c == '"' {
            let mut j: usize = i + 1;
            while j < n && char_at(text, ascii, j) != '"'
                invariant
                    i < j <= n,
                    n == chars.len(),
                    chars == text@,
                    ascii ==> text.is_ascii(),
                    forall|k: int| i < k < j ==> chars[k] != '"',
                decreases n - j,
            {
                j += 1;
            }
            proof {
                lemma_string_run(chars, i + 1, j as int);
            }
            let token = Token { t: TokenType::String(slice_of(text, ascii, i + 1, j)), prefix };
            tokens.push(token);
            prefix = Vec::new();
            i = if j < n {
                j + 1
            } else {
                n
            };
        } else {
            let mut j: usize = i + 1;
            while j < n && !is_whitespace(char_at(text, ascii, j)) && char_at(text, ascii, j)
                != ')'
                invariant
                    i < j <= n,
                    n == chars.len(),
                    chars == text@,
                    ascii ==> text.is_ascii(),
                    forall|k: int| i < k < j ==> !is_space(chars[k]) && chars[k] != ')',
                decreases n - j,
            {
                j += 1;
            }
            proof {
                lemma_atom_run(chars, i + 1, j as int);
            }
            let token = Token { t: atom_token(slice_of(text, ascii, i, j)), prefix };
            tokens.push(token);
            prefix = Vec::new();
            i = j;
        }
    }
    if prefix.len() > 0 {
        let token = Token { t: TokenType::Symbol(String::new()), prefix };
        tokens.push(token);
    }
    tokens
}

} // verus!
