use bengal::error::BengalError;
use bengal::lexer::{tokenize, Token};

fn assert_float_only(source: &str, expected: f64) {
    let nodes = token_nodes(source);
    assert_eq!(nodes.len(), 2);
    match &nodes[0] {
        Token::Float(text) => assert_eq!(text.parse::<f64>().unwrap(), expected),
        other => panic!("expected a float, got {:?}", other),
    }
    assert_eq!(nodes[1], Token::Eof);
}

fn token_nodes(source: &str) -> Vec<Token> {
    tokenize(source)
        .unwrap()
        .into_iter()
        .map(|st| st.node)
        .collect()
}

#[test]
fn single_number() {
    assert_eq!(token_nodes("42"), vec![Token::Number(42), Token::Eof]);
}

#[test]
fn arithmetic_expression() {
    assert_eq!(
        token_nodes("2 + 3 * 4"),
        vec![
            Token::Number(2),
            Token::Plus,
            Token::Number(3),
            Token::Star,
            Token::Number(4),
            Token::Eof,
        ]
    );
}

#[test]
fn parenthesized_expression() {
    assert_eq!(
        token_nodes("(1 + 2) * 3"),
        vec![
            Token::LParen,
            Token::Number(1),
            Token::Plus,
            Token::Number(2),
            Token::RParen,
            Token::Star,
            Token::Number(3),
            Token::Eof,
        ]
    );
}

#[test]
fn func_declaration_tokens() {
    assert_eq!(
        token_nodes("func main() -> Int32 { return 42; }"),
        vec![
            Token::Func,
            Token::Ident("main".to_string()),
            Token::LParen,
            Token::RParen,
            Token::Arrow,
            Token::Ident("Int32".to_string()),
            Token::LBrace,
            Token::Return,
            Token::Number(42),
            Token::Semicolon,
            Token::RBrace,
            Token::Eof,
        ]
    );
}

#[test]
fn let_binding_tokens() {
    assert_eq!(
        token_nodes("let x: Int32 = 10;"),
        vec![
            Token::Let,
            Token::Ident("x".to_string()),
            Token::Colon,
            Token::Ident("Int32".to_string()),
            Token::Eq,
            Token::Number(10),
            Token::Semicolon,
            Token::Eof,
        ]
    );
}

#[test]
fn yield_expression_tokens() {
    assert_eq!(
        token_nodes("yield a + 1;"),
        vec![
            Token::Yield,
            Token::Ident("a".to_string()),
            Token::Plus,
            Token::Number(1),
            Token::Semicolon,
            Token::Eof,
        ]
    );
}

#[test]
fn bool_literals() {
    assert_eq!(token_nodes("true"), vec![Token::True, Token::Eof]);
    assert_eq!(token_nodes("false"), vec![Token::False, Token::Eof]);
}

#[test]
fn if_else_tokens() {
    assert_eq!(
        token_nodes("if x == 0 { yield 1; } else { yield 2; }"),
        vec![
            Token::If,
            Token::Ident("x".to_string()),
            Token::EqEq,
            Token::Number(0),
            Token::LBrace,
            Token::Yield,
            Token::Number(1),
            Token::Semicolon,
            Token::RBrace,
            Token::Else,
            Token::LBrace,
            Token::Yield,
            Token::Number(2),
            Token::Semicolon,
            Token::RBrace,
            Token::Eof,
        ]
    );
}

#[test]
fn while_tokens() {
    assert_eq!(
        token_nodes("while i < n { }"),
        vec![
            Token::While,
            Token::Ident("i".to_string()),
            Token::Lt,
            Token::Ident("n".to_string()),
            Token::LBrace,
            Token::RBrace,
            Token::Eof,
        ]
    );
}

#[test]
fn logical_operator_tokens() {
    assert_eq!(
        token_nodes("a && b || !c"),
        vec![
            Token::Ident("a".to_string()),
            Token::AmpAmp,
            Token::Ident("b".to_string()),
            Token::PipePipe,
            Token::Bang,
            Token::Ident("c".to_string()),
            Token::Eof,
        ]
    );
}

#[test]
fn comparison_operator_tokens() {
    assert_eq!(
        token_nodes("a <= b"),
        vec![
            Token::Ident("a".to_string()),
            Token::LtEq,
            Token::Ident("b".to_string()),
            Token::Eof,
        ]
    );
    assert_eq!(
        token_nodes("a >= b"),
        vec![
            Token::Ident("a".to_string()),
            Token::GtEq,
            Token::Ident("b".to_string()),
            Token::Eof,
        ]
    );
    assert_eq!(
        token_nodes("a != b"),
        vec![
            Token::Ident("a".to_string()),
            Token::NotEq,
            Token::Ident("b".to_string()),
            Token::Eof,
        ]
    );
}

#[test]
#[allow(clippy::approx_constant)]
fn float_literal() {
    assert_float_only("3.14", 3.14);
    assert_float_only("42.0", 42.0);
}

#[test]
fn break_continue_keywords() {
    assert_eq!(token_nodes("break"), vec![Token::Break, Token::Eof]);
    assert_eq!(token_nodes("continue"), vec![Token::Continue, Token::Eof]);
}

#[test]
fn as_keyword() {
    assert_eq!(
        token_nodes("42 as Int64"),
        vec![
            Token::Number(42),
            Token::As,
            Token::Ident("Int64".to_string()),
            Token::Eof,
        ]
    );
}

#[test]
fn nobreak_keyword() {
    assert_eq!(token_nodes("nobreak"), vec![Token::Nobreak, Token::Eof]);
}

#[test]
fn while_break_tokens() {
    assert_eq!(
        token_nodes("while true { break; }"),
        vec![
            Token::While,
            Token::True,
            Token::LBrace,
            Token::Break,
            Token::Semicolon,
            Token::RBrace,
            Token::Eof,
        ]
    );
}

#[test]
fn struct_keywords() {
    assert_eq!(token_nodes("struct"), vec![Token::Struct, Token::Eof]);
    assert_eq!(token_nodes("init"), vec![Token::Init, Token::Eof]);
    assert_eq!(token_nodes("self"), vec![Token::SelfKw, Token::Eof]);
}

#[test]
fn get_set_are_identifiers() {
    // `get` and `set` are contextual keywords: the lexer gives identifiers.
    assert_eq!(
        token_nodes("get"),
        vec![Token::Ident("get".to_string()), Token::Eof]
    );
    assert_eq!(
        token_nodes("set"),
        vec![Token::Ident("set".to_string()), Token::Eof]
    );
}

#[test]
fn dot_token() {
    assert_eq!(
        token_nodes("f.x"),
        vec![
            Token::Ident("f".to_string()),
            Token::Dot,
            Token::Ident("x".to_string()),
            Token::Eof,
        ]
    );
}

#[test]
#[allow(clippy::approx_constant)]
fn dot_does_not_conflict_with_float() {
    // 3.14 is a Float; a.b is Ident, Dot, Ident.
    assert_float_only("3.14", 3.14);
    assert_eq!(
        token_nodes("a.b"),
        vec![
            Token::Ident("a".to_string()),
            Token::Dot,
            Token::Ident("b".to_string()),
            Token::Eof,
        ]
    );
}

#[test]
fn struct_keyword_prefix() {
    // "structure" is one identifier, not Struct followed by "ure".
    assert_eq!(
        token_nodes("structure"),
        vec![Token::Ident("structure".to_string()), Token::Eof]
    );
    assert_eq!(
        token_nodes("initial"),
        vec![Token::Ident("initial".to_string()), Token::Eof]
    );
    assert_eq!(
        token_nodes("selfie"),
        vec![Token::Ident("selfie".to_string()), Token::Eof]
    );
}

#[test]
fn struct_definition_tokens() {
    assert_eq!(
        token_nodes("struct Foo { var x: Int32; }"),
        vec![
            Token::Struct,
            Token::Ident("Foo".to_string()),
            Token::LBrace,
            Token::Var,
            Token::Ident("x".to_string()),
            Token::Colon,
            Token::Ident("Int32".to_string()),
            Token::Semicolon,
            Token::RBrace,
            Token::Eof,
        ]
    );
}

#[test]
fn self_dot_field_tokens() {
    assert_eq!(
        token_nodes("self.foo = newValue;"),
        vec![
            Token::SelfKw,
            Token::Dot,
            Token::Ident("foo".to_string()),
            Token::Eq,
            Token::Ident("newValue".to_string()),
            Token::Semicolon,
            Token::Eof,
        ]
    );
}

#[test]
fn init_definition_tokens() {
    assert_eq!(
        token_nodes("init(x: Int32) { self.x = x; }"),
        vec![
            Token::Init,
            Token::LParen,
            Token::Ident("x".to_string()),
            Token::Colon,
            Token::Ident("Int32".to_string()),
            Token::RParen,
            Token::LBrace,
            Token::SelfKw,
            Token::Dot,
            Token::Ident("x".to_string()),
            Token::Eq,
            Token::Ident("x".to_string()),
            Token::Semicolon,
            Token::RBrace,
            Token::Eof,
        ]
    );
}

#[test]
fn computed_property_tokens() {
    assert_eq!(
        token_nodes("var bar: Int32 { get { return 0; } set { self.foo = newValue; } };"),
        vec![
            Token::Var,
            Token::Ident("bar".to_string()),
            Token::Colon,
            Token::Ident("Int32".to_string()),
            Token::LBrace,
            Token::Ident("get".to_string()),
            Token::LBrace,
            Token::Return,
            Token::Number(0),
            Token::Semicolon,
            Token::RBrace,
            Token::Ident("set".to_string()),
            Token::LBrace,
            Token::SelfKw,
            Token::Dot,
            Token::Ident("foo".to_string()),
            Token::Eq,
            Token::Ident("newValue".to_string()),
            Token::Semicolon,
            Token::RBrace,
            Token::RBrace,
            Token::Semicolon,
            Token::Eof,
        ]
    );
}

#[test]
fn module_keyword() {
    assert_eq!(token_nodes("module"), vec![Token::Module, Token::Eof]);
}

#[test]
fn import_keyword() {
    assert_eq!(token_nodes("import"), vec![Token::Import, Token::Eof]);
}

#[test]
fn visibility_keywords() {
    assert_eq!(token_nodes("public"), vec![Token::Public, Token::Eof]);
    assert_eq!(token_nodes("package"), vec![Token::Package, Token::Eof]);
    assert_eq!(token_nodes("internal"), vec![Token::Internal, Token::Eof]);
    assert_eq!(
        token_nodes("fileprivate"),
        vec![Token::Fileprivate, Token::Eof]
    );
    assert_eq!(token_nodes("private"), vec![Token::Private, Token::Eof]);
}

#[test]
fn super_keyword() {
    assert_eq!(token_nodes("super"), vec![Token::Super, Token::Eof]);
}

#[test]
fn colon_colon_token() {
    assert_eq!(
        token_nodes("foo::bar"),
        vec![
            Token::Ident("foo".to_string()),
            Token::ColonColon,
            Token::Ident("bar".to_string()),
            Token::Eof,
        ]
    );
}

#[test]
fn colon_colon_does_not_break_existing_colon() {
    assert_eq!(
        token_nodes("x: Int32"),
        vec![
            Token::Ident("x".to_string()),
            Token::Colon,
            Token::Ident("Int32".to_string()),
            Token::Eof,
        ]
    );
}

#[test]
fn keyword_prefix_not_captured() {
    assert_eq!(
        token_nodes("modules"),
        vec![Token::Ident("modules".to_string()), Token::Eof]
    );
    assert_eq!(
        token_nodes("imported"),
        vec![Token::Ident("imported".to_string()), Token::Eof]
    );
    assert_eq!(
        token_nodes("publicly"),
        vec![Token::Ident("publicly".to_string()), Token::Eof]
    );
    assert_eq!(
        token_nodes("superb"),
        vec![Token::Ident("superb".to_string()), Token::Eof]
    );
}

#[test]
fn lex_error_on_invalid_character() {
    let err = tokenize("2 @ 3").unwrap_err();
    match err {
        BengalError::LexError { span, .. } => {
            assert_eq!(span.start, 2);
            assert_eq!(span.end, 3);
        }
        _ => panic!("expected LexError"),
    }
}

fn lex_error_of(source: &str) -> (String, usize, usize) {
    match tokenize(source) {
        Err(BengalError::LexError { message, span }) => (message, span.start, span.end),
        other => panic!("expected a lex error, got {:?}", other),
    }
}

#[test]
fn spans_are_byte_ranges() {
    let tokens = tokenize("let  x\t=\n42;").unwrap();
    let spans: Vec<(usize, usize)> = tokens.iter().map(|t| (t.span.start, t.span.end)).collect();
    assert_eq!(spans, vec![(0, 3), (5, 6), (7, 8), (9, 11), (11, 12), (12, 12)]);
}

#[test]
fn empty_source_is_only_eof() {
    let tokens = tokenize("").unwrap();
    assert_eq!(tokens.len(), 1);
    assert_eq!(tokens[0].node, Token::Eof);
    assert_eq!((tokens[0].span.start, tokens[0].span.end), (0, 0));
    let tokens = tokenize(" \r\n\t ").unwrap();
    assert_eq!(tokens.len(), 1);
    assert_eq!((tokens[0].span.start, tokens[0].span.end), (5, 5));
}

#[test]
fn lex_error_message_names_the_character() {
    assert_eq!(lex_error_of("2 @ 3"), ("unexpected character: `@`".to_string(), 2, 3));
}

#[test]
fn lex_error_covers_a_whole_multibyte_character() {
    assert_eq!(lex_error_of("a é"), ("unexpected character: `é`".to_string(), 2, 4));
    assert_eq!(lex_error_of("x=\u{1F600}"), ("unexpected character: `\u{1F600}`".to_string(), 2, 6));
}

#[test]
fn lone_ampersand_and_pipe_are_errors() {
    assert_eq!(lex_error_of("a & b"), ("unexpected character: `&`".to_string(), 2, 3));
    assert_eq!(lex_error_of("a | b"), ("unexpected character: `|`".to_string(), 2, 3));
}

#[test]
fn number_then_dot_needs_a_digit() {
    assert_eq!(lex_error_of("12.x"), ("unexpected character: `12.`".to_string(), 0, 3));
    assert_eq!(lex_error_of("7."), ("unexpected character: `7.`".to_string(), 0, 2));
}

#[test]
fn number_overflow_is_an_error() {
    assert_eq!(
        token_nodes("9223372036854775807"),
        vec![Token::Number(9223372036854775807), Token::Eof]
    );
    assert_eq!(
        lex_error_of("x 9223372036854775808"),
        ("unexpected character: `9223372036854775808`".to_string(), 2, 21)
    );
}

#[test]
fn longest_operators_win() {
    assert_eq!(
        token_nodes("->-::=!<>"),
        vec![
            Token::Arrow,
            Token::Minus,
            Token::ColonColon,
            Token::Eq,
            Token::Bang,
            Token::Lt,
            Token::Gt,
            Token::Eof,
        ]
    );
    assert_eq!(
        token_nodes("1.2.3 12abc _x9"),
        vec![
            Token::Float("1.2".to_string()),
            Token::Dot,
            Token::Number(3),
            Token::Number(12),
            Token::Ident("abc".to_string()),
            Token::Ident("_x9".to_string()),
            Token::Eof,
        ]
    );
}
