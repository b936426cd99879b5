use tmc::exp::{Exp, Node};
use tmc::parser::parse;
use tmc::token::{Token, TokenLoc};
use tmc::types::{Annot, Type};

fn insert_dummy_locs(toks: Vec<Token>) -> (Vec<(Token, TokenLoc)>, TokenLoc) {
    let dummy = TokenLoc { line: 0, col: 0, import: None };
    let toks = toks
        .into_iter()
        .map(|t| (t, dummy.clone()))
        .collect::<Vec<_>>();
    (toks, dummy)
}

fn an(loc: &TokenLoc) -> Annot {
    Annot(Type::Unresolved(0), loc.clone())
}

#[test]
fn test_parse_empty() {
    let tokens = Vec::new();
    let _ast = parse(tokens)
        .expect_err("Expected expression but found EOF (while parsing root expression)");
}

#[test]
fn test_parse_precedence() {
    let (tokens, dummy) = insert_dummy_locs(vec![
        Token::LParenthesis,
        Token::Identifier("x".to_owned()),
        Token::Identifier("y".to_owned()),
        Token::Pipe,
        Token::Identifier("a".to_owned()),
        Token::Identifier("b".to_owned()),
        Token::RParenthesis,
        Token::Identifier("c".to_owned()),
    ]);

    let ast = parse(tokens).unwrap();
    assert_eq!(
        ast,
        Exp(
            Node::Application {
                func: Box::new(Exp(
                    Node::Union {
                        lhs: Box::new(Exp(
                            Node::Application {
                                func: Box::new(Exp(
                                    Node::Identifier("x".to_owned()),
                                    an(&dummy)
                                )),
                                arg: Box::new(Exp(
                                    Node::Identifier("y".to_owned()),
                                    an(&dummy)
                                )),
                            },
                            an(&dummy),
                        )),
                        rhs: Box::new(Exp(
                            Node::Application {
                                func: Box::new(Exp(
                                    Node::Identifier("a".to_owned()),
                                    an(&dummy)
                                )),
                                arg: Box::new(Exp(
                                    Node::Identifier("b".to_owned()),
                                    an(&dummy)
                                )),
                            },
                            an(&dummy),
                        )),
                    },
                    an(&dummy),
                )),
                arg: Box::new(Exp(Node::Identifier("c".to_owned()), an(&dummy))),
            },
            an(&dummy),
        )
    );
}

#[test]
fn test_parse_function_and_symbol() {
    let (tokens, dummy) = insert_dummy_locs(vec![
        Token::Identifier("t".to_owned()),
        Token::Colon,
        Token::Symbol("1".to_owned()),
    ]);
    let ast = parse(tokens).unwrap();
    assert_eq!(
        ast,
        Exp(
            Node::Function {
                arg: "t".to_owned(),
                exp: Box::new(Exp(Node::Symbol("1".to_owned()), an(&dummy))),
            },
            an(&dummy),
        )
    );
}

#[test]
fn test_parse_trailing_token_is_rejected() {
    let (tokens, _) = insert_dummy_locs(vec![
        Token::Identifier("x".to_owned()),
        Token::RParenthesis,
    ]);
    let err = parse(tokens).unwrap_err();
    assert_eq!(err, "Expected EOF but found token ) at line 0, column 0");
}

#[test]
fn test_parse_match_arms() {
    let (tokens, dummy) = insert_dummy_locs(vec![
        Token::Match,
        Token::Identifier("t".to_owned()),
        Token::LBraces,
        Token::Identifier("x".to_owned()),
        Token::Catch,
        Token::Any,
        Token::Arrow,
        Token::Identifier("x".to_owned()),
        Token::Comma,
        Token::RBraces,
    ]);
    let ast = parse(tokens).unwrap();
    match ast.0 {
        Node::Match { exp, arms } => {
            assert_eq!(
                *exp,
                Exp(Node::Identifier("t".to_owned()), an(&dummy))
            );
            assert_eq!(arms.len(), 1);
            assert_eq!(arms[0].catch_id, Some("x".to_owned()));
            assert!(matches!(arms[0].pat, tmc::exp::Pat::Any));
        }
        _ => panic!("expected a match node"),
    }
}
