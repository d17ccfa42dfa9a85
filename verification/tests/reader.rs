use euphie::number::Number;
use euphie::parse::parse;
use euphie::parse::wrap_value_with_prefix;
use euphie::parse::ParseError;
use euphie::parse::Value;
use euphie::tokenize::is_whitespace;
use euphie::tokenize::tokenize;
use euphie::tokenize::Token;
use euphie::tokenize::TokenType;

fn token(t: TokenType, prefix: &str) -> Token {
    Token { t, prefix: prefix.chars().collect() }
}

fn symbol(name: &str) -> TokenType {
    TokenType::Symbol(name.to_string())
}

fn sym(name: &str) -> Value {
    Value::Symbol(name.to_string())
}

fn num(x: f64) -> Value {
    Value::Number(Number::from_bits(x.to_bits()))
}

fn list(items: Vec<Value>) -> Value {
    Value::List(items)
}

fn read(source: &str) -> Result<Value, ParseError> {
    let mut tokens = tokenize(source.to_string());
    tokens.reverse();
    parse(&mut tokens)
}

#[test]
fn tokens_of_a_small_program() {
    assert_eq!(
        tokenize("(def x \"a b\")".to_string()),
        vec![
            token(TokenType::StartParen, ""),
            token(symbol("def"), ""),
            token(symbol("x"), ""),
            token(TokenType::String("a b".to_string()), ""),
            token(TokenType::EndParen, ""),
        ]
    );
}

#[test]
fn nil_and_t_are_tokens_of_their_own() {
    assert_eq!(
        tokenize("nil t nilt tt".to_string()),
        vec![
            token(TokenType::Nil, ""),
            token(TokenType::T, ""),
            token(symbol("nilt"), ""),
            token(symbol("tt"), ""),
        ]
    );
}

#[test]
fn number_literals_come_out_as_symbols() {
    assert_eq!(
        tokenize("1 2.5 -3".to_string()),
        vec![token(symbol("1"), ""), token(symbol("2.5"), ""), token(symbol("-3"), "")]
    );
}

#[test]
fn quoting_characters_go_to_the_next_token() {
    assert_eq!(
        tokenize("'a `(b ,c ,@d)".to_string()),
        vec![
            token(symbol("a"), "'"),
            token(TokenType::StartParen, "`"),
            token(symbol("b"), ""),
            token(symbol("c"), ","),
            token(symbol("d"), ",@"),
            token(TokenType::EndParen, ""),
        ]
    );
}

#[test]
fn white_space_ends_a_prefix() {
    assert_eq!(tokenize("' a".to_string()), vec![token(symbol("a"), "")]);
    assert_eq!(tokenize("(', a)".to_string()), vec![
        token(TokenType::StartParen, ""),
        token(symbol("a"), ""),
        token(TokenType::EndParen, ""),
    ]);
    assert_eq!(tokenize("'\n".to_string()), vec![]);
    assert_eq!(tokenize("".to_string()), vec![]);
    assert_eq!(tokenize(" \t\n".to_string()), vec![]);
}

#[test]
fn a_prefix_at_the_end_comes_out_with_an_empty_symbol() {
    assert_eq!(tokenize("'".to_string()), vec![token(symbol(""), "'")]);
    assert_eq!(
        tokenize("a ,@".to_string()),
        vec![token(symbol("a"), ""), token(symbol(""), ",@")]
    );
    assert_eq!(
        tokenize("(a)`".to_string()),
        vec![
            token(TokenType::StartParen, ""),
            token(symbol("a"), ""),
            token(TokenType::EndParen, ""),
            token(symbol(""), "`"),
        ]
    );
}

#[test]
fn an_atom_runs_to_white_space_or_a_closing_parenthesis() {
    assert_eq!(
        tokenize("ab(c'd\"e) f".to_string()),
        vec![
            token(symbol("ab(c'd\"e"), ""),
            token(TokenType::EndParen, ""),
            token(symbol("f"), ""),
        ]
    );
}

#[test]
fn a_string_runs_to_the_next_double_quote_or_to_the_end() {
    assert_eq!(
        tokenize("\"a (b) 'c\"d".to_string()),
        vec![token(TokenType::String("a (b) 'c".to_string()), ""), token(symbol("d"), "")]
    );
    assert_eq!(
        tokenize("x \"open".to_string()),
        vec![token(symbol("x"), ""), token(TokenType::String("open".to_string()), "")]
    );
    assert_eq!(tokenize("\"\"".to_string()), vec![token(TokenType::String(String::new()), "")]);
    assert_eq!(tokenize("\"".to_string()), vec![token(TokenType::String(String::new()), "")]);
}

#[test]
fn text_beyond_ascii_is_read_by_characters() {
    assert_eq!(
        tokenize("(λ \"é ü\"\u{3000}名)".to_string()),
        vec![
            token(TokenType::StartParen, ""),
            token(symbol("λ"), ""),
            token(TokenType::String("é ü".to_string()), ""),
            token(symbol("名"), ""),
            token(TokenType::EndParen, ""),
        ]
    );
}

#[test]
fn white_space_is_what_unicode_says() {
    for code in 0..0x11_0000u32 {
        if let Some(c) = char::from_u32(code) {
            assert_eq!(is_whitespace(c), c.is_whitespace(), "{:x}", code);
        }
    }
}

#[test]
fn an_atom_alone_is_an_expression() {
    assert_eq!(read("abc"), Ok(sym("abc")));
    assert_eq!(read("nil"), Ok(Value::Nil));
    assert_eq!(read("t"), Ok(Value::T));
    assert_eq!(read("\"s\""), Ok(Value::String("s".to_string())));
    let mut tokens = vec![token(TokenType::Number(Number::from_bits(7)), "")];
    assert_eq!(parse(&mut tokens), Ok(Value::Number(Number::from_bits(7))));
    assert!(tokens.is_empty());
}

#[test]
fn lists_nest() {
    assert_eq!(
        read("(a (b (c)) () d)"),
        Ok(list(vec![
            sym("a"),
            list(vec![sym("b"), list(vec![sym("c")])]),
            list(vec![]),
            sym("d"),
        ]))
    );
}

#[test]
fn quoting_characters_become_forms() {
    assert_eq!(read("'a"), Ok(list(vec![sym("quote"), sym("a")])));
    assert_eq!(read("`a"), Ok(list(vec![sym("quasiquote"), sym("a")])));
    assert_eq!(read(",a"), Ok(list(vec![sym("unquote"), sym("a")])));
    assert_eq!(read(",@a"), Ok(list(vec![sym("splice-unquote"), sym("a")])));
    assert_eq!(
        read("`(a ,b ,@(c))"),
        Ok(list(vec![
            sym("quasiquote"),
            list(vec![
                sym("a"),
                list(vec![sym("unquote"), sym("b")]),
                list(vec![sym("splice-unquote"), list(vec![sym("c")])]),
            ]),
        ]))
    );
}

#[test]
fn several_quoting_characters_nest_from_the_first() {
    assert_eq!(
        read("`,a"),
        Ok(list(vec![sym("quasiquote"), list(vec![sym("unquote"), sym("a")])]))
    );
    assert_eq!(
        read("',a"),
        Ok(list(vec![sym("quote"), list(vec![sym("unquote"), sym("a")])]))
    );
    assert_eq!(
        read(",,@a"),
        Ok(list(vec![sym("unquote"), list(vec![sym("splice-unquote"), sym("a")])]))
    );
    assert_eq!(
        read(",@'a"),
        Ok(list(vec![sym("splice-unquote"), list(vec![sym("quote"), sym("a")])]))
    );
}

#[test]
fn an_at_sign_without_a_comma_leaves_nil() {
    assert_eq!(read("@a"), Ok(Value::Nil));
    assert_eq!(read("'@a"), Ok(list(vec![sym("quote"), Value::Nil])));
    assert_eq!(
        wrap_value_with_prefix(num(1.0), &[',', '@', '@']),
        list(vec![sym("splice-unquote"), Value::Nil])
    );
    assert_eq!(wrap_value_with_prefix(num(1.0), &['x']), Value::Nil);
    assert_eq!(wrap_value_with_prefix(num(1.0), &[]), num(1.0));
}

#[test]
fn tokens_that_are_no_expression_fail() {
    assert_eq!(read(""), Err(ParseError::Empty));
    assert_eq!(read("a b"), Err(ParseError::ExpectedOpen));
    assert_eq!(read("(a b"), Err(ParseError::ExpectedClose));
    assert_eq!(read("(a (b)"), Err(ParseError::ExpectedClose));
    assert_eq!(read("("), Err(ParseError::ExpectedClose));
    assert_eq!(read(")"), Err(ParseError::UnexpectedClose));
    assert_eq!(read(") a"), Err(ParseError::ExpectedOpen));
    assert_eq!(read("(a ')"), Err(ParseError::DanglingPrefix));
    assert_eq!(read("(a (b ,@) c)"), Err(ParseError::DanglingPrefix));
    assert_eq!(read("'"), Err(ParseError::DanglingPrefix));
    assert_eq!(read("(a '"), Err(ParseError::DanglingPrefix));
}

#[test]
fn what_follows_the_expression_must_be_well_formed() {
    assert_eq!(read("(a))"), Err(ParseError::UnexpectedClose));
    assert_eq!(read("(a) b)"), Err(ParseError::UnexpectedClose));
    assert_eq!(read("(a) (b"), Err(ParseError::ExpectedClose));
    assert_eq!(read("(a) ((b) (c)"), Err(ParseError::ExpectedClose));
    assert_eq!(read("(a) (b ')"), Err(ParseError::DanglingPrefix));
    assert_eq!(read("(a) '"), Err(ParseError::DanglingPrefix));
    assert_eq!(read("(a) (b) c ((d))"), Ok(list(vec![sym("a")])));
}

#[test]
fn what_follows_the_expression_stays_unread() {
    let mut tokens = tokenize("(a) b (c)".to_string());
    tokens.reverse();
    assert_eq!(parse(&mut tokens), Ok(list(vec![sym("a")])));
    assert_eq!(tokens.len(), 4);
    assert_eq!(tokens[3], token(symbol("b"), ""));
}

#[test]
fn reader_failures_have_messages() {
    assert_eq!(ParseError::Empty.message(), "Expected an expression");
    assert_eq!(ParseError::ExpectedOpen.message(), "Expected '(' at beginning of file");
    assert_eq!(ParseError::ExpectedClose.message(), "Expected ')' at end of file");
    assert_eq!(ParseError::UnexpectedClose.message(), "Unexpected ')'");
    assert_eq!(ParseError::DanglingPrefix.message(), "Nothing to quote");
}
