use tmc::lexer::tokenize;
use tmc::token::Token;

fn no_lib() -> Vec<(String, String)> {
    Vec::new()
}

#[test]
fn test_tokenize_empty() {
    let tokens = tokenize("", &no_lib(), None)
        .unwrap()
        .into_iter()
        .map(|t| t.0)
        .collect::<Vec<_>>();
    assert_eq!(tokens.len(), 0);
}

#[test]
fn test_tokenize_import() {
    let lib = vec![("lib".to_owned(), "'symbol3'".to_owned())];
    let tokens = tokenize("'symbol1' 'symbol2' import 'lib' 'symbol4'", &lib, None)
        .unwrap()
        .into_iter()
        .map(|t| t.0)
        .collect::<Vec<_>>();
    assert_eq!(
        tokens,
        &[
            Token::Symbol("symbol1".to_owned()),
            Token::Symbol("symbol2".to_owned()),
            Token::Symbol("symbol3".to_owned()),
            Token::Symbol("symbol4".to_owned())
        ]
    )
}

#[test]
fn test_identifiers() {
    let tokens = tokenize("_ a a_ b1 c_0", &no_lib(), None)
        .unwrap()
        .into_iter()
        .map(|t| t.0)
        .collect::<Vec<_>>();
    assert_eq!(
        tokens,
        &[
            Token::Identifier("_".to_owned()),
            Token::Identifier("a".to_owned()),
            Token::Identifier("a_".to_owned()),
            Token::Identifier("b1".to_owned()),
            Token::Identifier("c_0".to_owned())
        ]
    );

    let err = tokenize("_a", &no_lib(), None).unwrap_err();
    assert_eq!(
        err,
        "Unknown keyword or invalid identifier '_a' found at line 1, column 1"
    );

    let err = tokenize("ola\n  0teste", &no_lib(), None).unwrap_err();
    assert_eq!(
        err,
        "Unknown keyword or invalid identifier '0teste' found at line 2, column 3"
    );
}

#[test]
fn test_tokenize_complex() {
    let tokens = tokenize(
        "
                        let
                            pat = 'A' | 'B',
                        in
                            (t: match get t {
                                _ @ pat > next t,
                                x @ any > set x t,
                            })
            ",
        &no_lib(),
        None,
    )
    .unwrap()
    .into_iter()
    .map(|t| t.0)
    .collect::<Vec<_>>();
    assert_eq!(
        tokens,
        &[
            Token::Let,
            Token::Identifier("pat".to_owned()),
            Token::Assign,
            Token::Symbol("A".to_owned()),
            Token::Pipe,
            Token::Symbol("B".to_owned()),
            Token::Comma,
            Token::In,
            Token::LParenthesis,
            Token::Identifier("t".to_owned()),
            Token::Colon,
            Token::Match,
            Token::Identifier("get".to_owned()),
            Token::Identifier("t".to_owned()),
            Token::LBraces,
            Token::Identifier("_".to_owned()),
            Token::Catch,
            Token::Identifier("pat".to_owned()),
            Token::Arrow,
            Token::Identifier("next".to_owned()),
            Token::Identifier("t".to_owned()),
            Token::Comma,
            Token::Identifier("x".to_owned()),
            Token::Catch,
            Token::Any,
            Token::Arrow,
            Token::Identifier("set".to_owned()),
            Token::Identifier("x".to_owned()),
            Token::Identifier("t".to_owned()),
            Token::Comma,
            Token::RBraces,
            Token::RParenthesis,
        ]
    )
}

#[test]
fn test_tokenize_comment_and_newline_in_quotes() {
    let tokens = tokenize("a # a comment with 'quotes'\nb", &no_lib(), None)
        .unwrap()
        .into_iter()
        .map(|t| t.0)
        .collect::<Vec<_>>();
    assert_eq!(
        tokens,
        &[
            Token::Identifier("a".to_owned()),
            Token::Identifier("b".to_owned())
        ]
    );

    let err = tokenize("'ab\ncd'", &no_lib(), None).unwrap_err();
    assert_eq!(
        err,
        "Found new line inside quotes at line 1, column 1, which isn't supported"
    );
}

#[test]
fn test_tokenize_missing_import() {
    let err = tokenize("import 'nowhere'", &no_lib(), None).unwrap_err();
    assert_eq!(err, "Couldn't import file nowhere at line 1, column 8");
}

#[test]
fn test_tokenize_cyclic_import_fails() {
    let lib = vec![
        ("a".to_owned(), "import 'b'".to_owned()),
        ("b".to_owned(), "import 'a'".to_owned()),
    ];
    assert!(tokenize("import 'a'", &lib, None).is_err());
}
