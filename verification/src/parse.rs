//! The values of the language, and the reader that builds them from tokens.

use vstd::prelude::*;
use crate::model::ParamSpec;
use crate::model::Sexp;
use crate::number::Number;
use crate::tokenize::Token;
use crate::tokenize::TokenKind;
use crate::tokenize::TokenType;
use crate::tokenize::TokenView;
use crate::tokenize::token_views;
use vstd::string::StrSliceExecFns;
use vstd::string::StringExecFns;

verus! {

/// The parameters of a function or macro, by class.
#[derive(Debug, PartialEq)]
pub struct LambdaParams {
    pub required: Vec<String>,
    pub optional: Vec<String>,
    pub keyword: Vec<String>,
    pub rest: Option<String>,
}

impl View for LambdaParams {
    type V = ParamSpec;

    open spec fn view(&self) -> ParamSpec {
        ParamSpec {
            required: self.required.deep_view(),
            optional: self.optional.deep_view(),
            keyword: self.keyword.deep_view(),
            rest: match self.rest {
                Some(name) => Some(name@),
                None => None,
            },
        }
    }
}

/// A copy of a list of names.
pub fn clone_names(names: &Vec<String>) -> (r: Vec<String>)
    ensures
        r.deep_view() == names.deep_view(),
{
    let mut out: Vec<String> = Vec::new();
    let mut i: usize = 0;
    while i < names.len()
        invariant
            i <= names.len(),
            out.len() == i,
            forall|j: int| 0 <= j < i ==> out@[j]@ == names@[j]@,
        decreases names.len() - i,
    {
        out.push(names[i].clone());
        i += 1;
    }
    out
}

impl Clone for LambdaParams {
    fn clone(&self) -> (r: Self)
        ensures
            r@ == self@,
    {
        LambdaParams {
            required: clone_names(&self.required),
            optional: clone_names(&self.optional),
            keyword: clone_names(&self.keyword),
            rest: match &self.rest {
                Some(name) => Some(name.clone()),
                None => None,
            },
        }
    }
}

/// A value of the language: data and code alike.
#[derive(Debug, PartialEq)]
pub enum Value {
    Nil,
    T,
    Number(Number),
    String(String),
    Symbol(String),
    Lambda { params: LambdaParams, body: Box<Value>, is_macro: bool },
    List(Vec<Value>),
}

impl View for Value {
    type V = Sexp;

    open spec fn view(&self) -> Sexp
        decreases self,
    {
        match self {
            Value::Nil => Sexp::Nil,
            Value::T => Sexp::T,
            Value::Number(n) => Sexp::Number(*n),
            Value::String(s) => Sexp::Str(s@),
            Value::Symbol(s) => Sexp::Symbol(s@),
            Value::Lambda { params, body, is_macro } => Sexp::Lambda {
                params: params@,
                body: Box::new((**body)@),
                is_macro: *is_macro,
            },
            Value::List(items) => Sexp::List(views(items@)),
        }
    }
}

/// The trees that a sequence of values stands for.
pub open spec fn views(values: Seq<Value>) -> Seq<Sexp>
    decreases values,
{
    if values.len() == 0 {
        Seq::empty()
    } else {
        views(values.drop_last()).push(values.last()@)
    }
}

/// `views` keeps the length and maps each item to its tree.
pub broadcast proof fn lemma_views(values: Seq<Value>)
    ensures
        #![trigger views(values)]
        views(values).len() == values.len(),
        forall|i: int| 0 <= i < values.len() ==> #[trigger] views(values)[i] == values[i]@,
    decreases values.len(),
{
    if values.len() > 0 {
        lemma_views(values.drop_last());
        assert(views(values) == views(values.drop_last()).push(values.last()@));
    }
}

/// A sequence with one more value stands for a sequence with one more tree.
pub proof fn lemma_views_push(values: Seq<Value>, value: Value)
    ensures
        views(values.push(value)) == views(values).push(value@),
{
    assert(values.push(value).drop_last() =~= values);
}

/// Two sequences in a row stand for their trees in a row.
pub proof fn lemma_views_concat(first: Seq<Value>, second: Seq<Value>)
    ensures
        views(first + second) == views(first) + views(second),
{
    lemma_views(first);
    lemma_views(second);
    lemma_views(first + second);
}

impl Clone for Value {
    fn clone(&self) -> (r: Self)
        ensures
            r@ == self@,
        decreases self,
    {
        match self {
            Value::Nil => Value::Nil,
            Value::T => Value::T,
            Value::Number(n) => Value::Number(*n),
            Value::String(s) => Value::String(s.clone()),
            Value::Symbol(s) => Value::Symbol(s.clone()),
            Value::Lambda { params, body, is_macro } => Value::Lambda {
                params: params.clone(),
                body: Box::new((&**body).clone()),
                is_macro: *is_macro,
            },
            Value::List(items) => {
                let mut out: Vec<Value> = Vec::new();
                let mut i: usize = 0;
                while i < items.len()
                    invariant
                        i <= items.len(),
                        out.len() == i,
                        self is List,
                        self->List_0 == *items,
                        forall|j: int| 0 <= j < i ==> out@[j]@ == items@[j]@,
                    decreases items.len() - i,
                {
                    out.push(items[i].clone());
                    i += 1;
                }
                proof {
                    lemma_views(out@);
                    lemma_views(items@);
                    assert(views(out@) =~= views(items@));
                }
                Value::List(out)
            },
        }
    }
}

/// Why a sequence of tokens is no expression.
#[derive(Clone, Copy, Debug, PartialEq, Eq)]
pub enum ParseError {
    /// There is no token at all.
    Empty,
    /// Several tokens that do not begin with an opening parenthesis.
    ExpectedOpen,
    /// A list that the tokens do not close.
    ExpectedClose,
    /// A closing parenthesis where an expression has to begin.
    UnexpectedClose,
    /// Quoting characters before a closing parenthesis or at the end, where
    /// there is nothing to quote.
    DanglingPrefix,
}

/// The text of a reader's failure, as `ParseError::message` writes it.
pub open spec fn parse_error_text(error: ParseError) -> Seq<char> {
    match error {
        ParseError::Empty => "Expected an expression"@,
        ParseError::ExpectedOpen => "Expected '(' at beginning of file"@,
        ParseError::ExpectedClose => "Expected ')' at end of file"@,
        ParseError::UnexpectedClose => "Unexpected ')'"@,
        ParseError::DanglingPrefix => "Nothing to quote"@,
    }
}

impl ParseError {
    /// The text that describes the failure.
    pub fn message(&self) -> (r: String)
        ensures
            r@ == parse_error_text(*self),
    {
        match self {
            ParseError::Empty => String::from_str("Expected an expression"),
            ParseError::ExpectedOpen => String::from_str("Expected '(' at beginning of file"),
            ParseError::ExpectedClose => String::from_str("Expected ')' at end of file"),
            ParseError::UnexpectedClose => String::from_str("Unexpected ')'"),
            ParseError::DanglingPrefix => String::from_str("Nothing to quote"),
        }
    }
}

/// The list `(name value)`.
pub open spec fn tagged(name: Seq<char>, value: Sexp) -> Sexp {
    Sexp::List(seq![Sexp::Symbol(name), value])
}

/// A value inside the forms that its quoting characters stand for, the
/// first character outermost: `'` is `quote`, `` ` `` is `quasiquote`, `,`
/// is `unquote` and `,@` is `splice-unquote`. An `@` that follows no comma
/// quotes nothing and leaves `Nil`.
pub open spec fn wrapped(value: Sexp, prefix: Seq<char>) -> Sexp
    decreases prefix.len(),
{
    if prefix.len() == 0 {
        value
    } else if prefix[0] == '\'' {
        tagged("quote"@, wrapped(value, prefix.skip(1)))
    } else if prefix[0] == '`' {
        tagged("quasiquote"@, wrapped(value, prefix.skip(1)))
    } else if prefix[0] == ',' {
        if prefix.len() > 1 && prefix[1] == '@' {
            tagged("splice-unquote"@, wrapped(value, prefix.skip(2)))
        } else {
            tagged("unquote"@, wrapped(value, prefix.skip(1)))
        }
    } else {
        Sexp::Nil
    }
}

/// The value that a token other than a parenthesis stands for.
pub open spec fn atom_of(kind: TokenKind) -> Sexp {
    match kind {
        TokenKind::T => Sexp::T,
        TokenKind::Number(n) => Sexp::Number(n),
        TokenKind::Str(s) => Sexp::Str(s),
        TokenKind::Symbol(s) => Sexp::Symbol(s),
        _ => Sexp::Nil,
    }
}

/// Whether a token is the one that stands for quoting characters with
/// nothing to quote: a symbol of no characters.
pub open spec fn is_dangling(kind: TokenKind) -> bool {
    kind is Symbol && kind->Symbol_0.len() == 0
}

/// What reading leaves: a result or a failure, and the tokens not yet read.
pub struct Parsed<T> {
    pub result: Result<T, ParseError>,
    pub rest: Seq<TokenView>,
}

/// The elements of a list whose opening parenthesis was read, after
/// `items`. The tokens are read from the end of `stack`. A list inside the
/// list always leaves fewer tokens than there were, as
/// `lemma_read_items_shrinks` shows: the test of that only serves to show
/// that the reading ends.
pub open spec fn read_items(stack: Seq<TokenView>, items: Seq<Sexp>) -> Parsed<Seq<Sexp>>
    decreases stack.len(),
{
    if stack.len() == 0 {
        Parsed { result: Err(ParseError::ExpectedClose), rest: stack }
    } else {
        let token = stack.last();
        let below = stack.drop_last();
        match token.kind {
            TokenKind::EndParen => if token.prefix.len() > 0 {
                Parsed { result: Err(ParseError::DanglingPrefix), rest: below }
            } else {
                Parsed { result: Ok(items), rest: below }
            },
            TokenKind::StartParen => {
                let inner = read_items(below, Seq::empty());
                match inner.result {
                    Err(error) => Parsed { result: Err(error), rest: inner.rest },
                    Ok(members) => if inner.rest.len() < stack.len() {
                        read_items(
                            inner.rest,
                            items.push(wrapped(Sexp::List(members), token.prefix)),
                        )
                    } else {
                        Parsed { result: Err(ParseError::ExpectedClose), rest: inner.rest }
                    },
                }
            },
            _ => if is_dangling(token.kind) {
                Parsed { result: Err(ParseError::DanglingPrefix), rest: below }
            } else {
                read_items(below, items.push(wrapped(atom_of(token.kind), token.prefix)))
            },
        }
    }
}

/// The expression that the tokens begin with, read from the end of
/// `stack`: an atom if that is the only token, else a list from its opening
/// to its closing parenthesis.
pub open spec fn read_first(stack: Seq<TokenView>) -> Parsed<Sexp> {
    if stack.len() == 0 {
        Parsed { result: Err(ParseError::Empty), rest: stack }
    } else if stack.len() > 1 && !(stack.last().kind is StartParen) {
        Parsed { result: Err(ParseError::ExpectedOpen), rest: stack }
    } else {
        let token = stack.last();
        let below = stack.drop_last();
        match token.kind {
            TokenKind::StartParen => {
                let inner = read_items(below, Seq::empty());
                match inner.result {
                    Err(error) => Parsed { result: Err(error), rest: inner.rest },
                    Ok(members) => Parsed {
                        result: Ok(wrapped(Sexp::List(members), token.prefix)),
                        rest: inner.rest,
                    },
                }
            },
            TokenKind::EndParen => Parsed { result: Err(ParseError::UnexpectedClose), rest: below },
            _ => if is_dangling(token.kind) {
                Parsed { result: Err(ParseError::DanglingPrefix), rest: below }
            } else {
                Parsed { result: Ok(wrapped(atom_of(token.kind), token.prefix)), rest: below }
            },
        }
    }
}

/// What is wrong with the tokens that follow the expression, read from
/// the end of `stack` with `open` lists not yet closed: a parenthesis
/// without its partner, or quoting characters with nothing to quote.
pub open spec fn trailing_failure(stack: Seq<TokenView>, open: nat) -> Option<ParseError>
    decreases stack.len(),
{
    if stack.len() == 0 {
        if open > 0 {
            Some(ParseError::ExpectedClose)
        } else {
            None
        }
    } else {
        let token = stack.last();
        let below = stack.drop_last();
        match token.kind {
            TokenKind::StartParen => trailing_failure(below, open + 1),
            TokenKind::EndParen => if open == 0 {
                Some(ParseError::UnexpectedClose)
            } else if token.prefix.len() > 0 {
                Some(ParseError::DanglingPrefix)
            } else {
                trailing_failure(below, (open - 1) as nat)
            },
            _ => if is_dangling(token.kind) {
                Some(ParseError::DanglingPrefix)
            } else {
                trailing_failure(below, open)
            },
        }
    }
}

/// The expression that the tokens begin with. What follows the expression
/// is left unread, but it must be well formed too: the tokens fail as a
/// whole if a parenthesis in them has no partner or quoting characters
/// quote nothing.
pub open spec fn read(stack: Seq<TokenView>) -> Parsed<Sexp> {
    let first = read_first(stack);
    match first.result {
        Err(_) => first,
        Ok(_) => match trailing_failure(first.rest, 0) {
            Some(error) => Parsed { result: Err(error), rest: first.rest },
            None => first,
        },
    }
}

/// Reading takes tokens from the end and leaves the others as they are.
pub proof fn lemma_read_items_shrinks(stack: Seq<TokenView>, items: Seq<Sexp>)
    ensures
        read_items(stack, items).rest.len() <= stack.len(),
        read_items(stack, items).result is Ok ==> read_items(stack, items).rest.len() < stack.len(),
    decreases stack.len(),
{
    if stack.len() > 0 {
        let token = stack.last();
        let below = stack.drop_last();
        match token.kind {
            TokenKind::EndParen => {},
            TokenKind::StartParen => {
                lemma_read_items_shrinks(below, Seq::empty());
                let inner = read_items(below, Seq::empty());
                if inner.result is Ok {
                    lemma_read_items_shrinks(
                        inner.rest,
                        items.push(wrapped(Sexp::List(inner.result->Ok_0), token.prefix)),
                    );
                }
            },
            _ => {
                if !is_dangling(token.kind) {
                    lemma_read_items_shrinks(
                        below,
                        items.push(wrapped(atom_of(token.kind), token.prefix)),
                    );
                }
            },
        }
    }
}

/// The list `(name value)`.
fn tag(name: &str, value: Value) -> (r: Value)
    ensures
        r@ == tagged(name@, value@),
{
    let list = vec![Value::Symbol(String::from_str(name)), value];
    proof {
        lemma_views(list@);
        assert(views(list@) =~= seq![Sexp::Symbol(name@), value@]);
    }
    Value::List(list)
}

/// Puts a value inside the forms that the quoting characters from
/// `prefix[from]` on stand for.
fn wrap_from(value: Value, prefix: &[char], from: usize) -> (r: Value)
    requires
        from <= prefix@.len(),
    ensures
        r@ == wrapped(value@, prefix@.skip(from as int)),
    decreases prefix@.len() - from,
{
    let ghost rest = prefix@.skip(from as int);
    if from >= prefix.len() {
        return value;
    }
    let c = prefix[from];
    assert(rest.skip(1) =~= prefix@.skip(from + 1));
    if c == '\'' {
        tag("quote", wrap_from(value, prefix, from + 1))
    } else if c == '`' {
        tag("quasiquote", wrap_from(value, prefix, from + 1))
    } else if c == ',' {
        if from + 1 < prefix.len() && prefix[from + 1] == '@' {
            assert(rest.skip(2) =~= prefix@.skip(from + 2));
            tag("splice-unquote", wrap_from(value, prefix, from + 2))
        } else {
            tag("unquote", wrap_from(value, prefix, from + 1))
        }
    } else {
        Value::Nil
    }
}

/// Puts a value inside the forms that its quoting characters stand for.
pub fn wrap_value_with_prefix(value: Value, prefix: &[char]) -> (r: Value)
    ensures
        r@ == wrapped(value@, prefix@),
{
    assert(prefix@.skip(0) =~= prefix@);
    wrap_from(value, prefix, 0)
}

/// What the result of reading stands for.
pub open spec fn parsed_view(result: Result<Value, ParseError>) -> Result<Sexp, ParseError> {
    match result {
        Ok(value) => Ok(value@),
        Err(error) => Err(error),
    }
}

/// What the result of reading the elements of a list stands for.
pub open spec fn parsed_views(result: Result<Vec<Value>, ParseError>) -> Result<
    Seq<Sexp>,
    ParseError,
> {
    match result {
        Ok(values) => Ok(views(values@)),
        Err(error) => Err(error),
    }
}

/// Whether a token stands for quoting characters with nothing to quote.
fn dangles(t: &TokenType) -> (r: bool)
    ensures
        r == is_dangling(t@),
{
    match t {
        TokenType::Symbol(name) => name.as_str().unicode_len() == 0,
        _ => false,
    }
}

/// Looks through the tokens that follow the expression for what is wrong
/// with them.
fn check_trailing(tokens: &Vec<Token>) -> (r: Option<ParseError>)
    ensures
        r == trailing_failure(token_views(tokens@), 0),
{
    let ghost stack = token_views(tokens@);
    let mut open: usize = 0;
    let mut i: usize = tokens.len();
    assert(stack.subrange(0, i as int) =~= stack);
    while i > 0
        invariant
            i <= tokens.len(),
            open <= tokens.len() - i,
            stack == token_views(tokens@),
            trailing_failure(stack.subrange(0, i as int), open as nat) == trailing_failure(
                stack,
                0,
            ),
        decreases i,
    {
        let ghost here = stack.subrange(0, i as int);
        i -= 1;
        assert(here.drop_last() =~= stack.subrange(0, i as int));
        match &tokens[i].t {
            TokenType::StartParen => {
                open += 1;
            },
            TokenType::EndParen => {
                if open == 0 {
                    return Some(ParseError::UnexpectedClose);
                }
                if tokens[i].prefix.len() > 0 {
                    return Some(ParseError::DanglingPrefix);
                }
                open -= 1;
            },
            other => {
                if dangles(other) {
                    return Some(ParseError::DanglingPrefix);
                }
            },
        }
    }
    if open > 0 {
        Some(ParseError::ExpectedClose)
    } else {
        None
    }
}

/// The value that a token other than a parenthesis stands for.
fn atom_value(t: TokenType) -> (r: Value)
    ensures
        r@ == atom_of(t@),
{
    match t {
        TokenType::T => Value::T,
        TokenType::Number(n) => Value::Number(n),
        TokenType::String(s) => Value::String(s),
        TokenType::Symbol(s) => Value::Symbol(s),
        _ => Value::Nil,
    }
}

/// Reads the elements of a list whose opening parenthesis was taken, up
/// to its closing parenthesis.
fn parse_items(tokens: &mut Vec<Token>) -> (r: Result<Vec<Value>, ParseError>)
    ensures
        (Parsed { result: parsed_views(r), rest: token_views(final(tokens)@) }) == read_items(
            token_views(old(tokens)@),
            Seq::empty(),
        ),
        final(tokens)@.len() <= old(tokens)@.len(),
    decreases old(tokens)@.len(),
{
    let ghost whole = read_items(token_views(old(tokens)@), Seq::empty());
    let mut list: Vec<Value> = Vec::new();
    loop
        invariant
            tokens@.len() <= old(tokens)@.len(),
            whole == read_items(token_views(old(tokens)@), Seq::empty()),
            read_items(token_views(tokens@), views(list@)) == whole,
        decreases tokens@.len(),
    {
        let ghost stack = token_views(tokens@);
        match tokens.pop() {
            None => {
                return Err(ParseError::ExpectedClose);
            },
            Some(token) => {
                assert(stack.drop_last() =~= token_views(tokens@));
                let Token { t, prefix } = token;
                match t {
                    TokenType::EndParen => {
                        if prefix.len() > 0 {
                            return Err(ParseError::DanglingPrefix);
                        }
                        return Ok(list);
                    },
                    TokenType::StartParen => {
                        let ghost below = token_views(tokens@);
                        match parse_items(tokens) {
                            Err(error) => {
                                return Err(error);
                            },
                            Ok(members) => {
                                let value = wrap_value_with_prefix(
                                    Value::List(members),
                                    prefix.as_slice(),
                                );
                                proof {
                                    lemma_views_push(list@, value);
                                }
                                list.push(value);
                            },
                        }
                    },
                    _ => {
                        if dangles(&t) {
                            return Err(ParseError::DanglingPrefix);
                        }
                        let value = wrap_value_with_prefix(atom_value(t), prefix.as_slice());
                        proof {
                            lemma_views_push(list@, value);
                        }
                        list.push(value);
                    },
                }
            },
        }
    }
}

/// Reads the expression that the tokens begin with.
fn parse_first(tokens: &mut Vec<Token>) -> (r: Result<Value, ParseError>)
    ensures
        (Parsed { result: parsed_view(r), rest: token_views(final(tokens)@) }) == read_first(
            token_views(old(tokens)@),
        ),
{
    let ghost stack = token_views(tokens@);
    let n = tokens.len();
    if n == 0 {
        return Err(ParseError::Empty);
    }
    if n > 1 {
        match &tokens[n - 1].t {
            TokenType::StartParen => {},
            _ => {
                return Err(ParseError::ExpectedOpen);
            },
        }
    }
    match tokens.pop() {
        None => Err(ParseError::Empty),
        Some(token) => {
            assert(stack.drop_last() =~= token_views(tokens@));
            let Token { t, prefix } = token;
            match t {
                TokenType::StartParen => {
                    match parse_items(tokens) {
                        Err(error) => Err(error),
                        Ok(members) => Ok(
                            wrap_value_with_prefix(Value::List(members), prefix.as_slice()),
                        ),
                    }
                },
                TokenType::EndParen => Err(ParseError::UnexpectedClose),
                _ => {
                    if dangles(&t) {
                        Err(ParseError::DanglingPrefix)
                    } else {
                        Ok(wrap_value_with_prefix(atom_value(t), prefix.as_slice()))
                    }
                },
            }
        },
    }
}

/// Reads the expression that the tokens begin with. The tokens stand in
/// reverse: the first token of the text is the last of the vector, and the
/// tokens that were read are taken off its end. The tokens that follow the
/// expression stay, and are looked through for parentheses without a
/// partner and for quoting characters that quote nothing.
pub fn parse(tokens: &mut Vec<Token>) -> (r: Result<Value, ParseError>)
    ensures
        (Parsed { result: parsed_view(r), rest: token_views(final(tokens)@) }) == read(
            token_views(old(tokens)@),
        ),
{
    match parse_first(tokens) {
        Err(error) => Err(error),
        Ok(value) => match check_trailing(tokens) {
            Some(error) => Err(error),
            None => Ok(value),
        },
    }
}

} // verus!
