use tmc::exp::{Arm, Exp, Node, Pat};
use tmc::lexer::tokenize;
use tmc::machine::{Direction, Machine, Transition};
use tmc::ownership_checker::ownership_check;
use tmc::parser::parse;
use tmc::simplifier::{
    match_const, move_matches, pre_simplify, remove_any, remove_gets, remove_lets,
    remove_trivial, simplify_ast, spread_aborts,
};
use tmc::symset::SymSet;
use tmc::token::TokenLoc;
use tmc::type_checker::type_check;
use tmc::types::{Annot, Type, TypeTable};

fn dummy() -> TokenLoc {
    TokenLoc { line: 0, col: 0, import: None }
}

fn an() -> Annot {
    Annot(Type::Unresolved(0), dummy())
}

fn ident(s: &str) -> Exp {
    Exp(Node::Identifier(s.to_owned()), an())
}

fn sym(s: &str) -> Exp {
    Exp(Node::Symbol(s.to_owned()), an())
}

fn parse_src(src: &str) -> Exp {
    parse(tokenize(src, &Vec::new(), None).unwrap()).unwrap()
}

#[test]
fn type_check_identity_program() {
    // The identity transformer has the program type: tape to tape.
    let ast = parse_src("t: t");
    let checked = type_check(ast).unwrap();
    match &checked.1 .0 {
        Type::Function { arg, ret } => {
            assert_eq!(**arg, Type::Tape { owned: true });
            assert_eq!(**ret, Type::Tape { owned: true });
        }
        other => panic!("expected a function type, got {:?}", other),
    }
}

#[test]
fn type_check_single_write() {
    let ast = parse_src("t: set '1' t");
    assert!(type_check(ast).is_ok());
}

#[test]
fn type_check_borrow_then_consume() {
    // The tape may be read first and consumed afterwards.
    let ast = parse_src("t: set (get t) t");
    assert!(type_check(ast).is_ok());
}

#[test]
fn type_check_undefined_identifier() {
    let ast = parse_src("t: nope t");
    let err = type_check(ast).unwrap_err();
    assert_eq!(err, "Undefined identifier nope at line 1, column 4");
}

#[test]
fn type_check_symbol_is_no_program() {
    // A bare symbol does not have the tape transformer type.
    let ast = parse_src("'1'");
    assert!(type_check(ast).is_err());
}

#[test]
fn table_rejects_symbol_as_tape() {
    let mut table = TypeTable::new();
    let err = table
        .cast(&Type::Symbol, &Type::Tape { owned: true }, &dummy())
        .unwrap_err();
    assert_eq!(err, "Cannot cast symbol to tape at line 0, column 0");
}

#[test]
fn table_owned_tape_casts_to_borrowed() {
    let mut table = TypeTable::new();
    assert!(table
        .cast(
            &Type::Tape { owned: true },
            &Type::Tape { owned: false },
            &dummy()
        )
        .is_ok());
    assert!(table
        .cast(
            &Type::Tape { owned: false },
            &Type::Tape { owned: true },
            &dummy()
        )
        .is_err());
}

#[test]
fn union_round_trip_keeps_left_nested_unions() {
    // '0' | '1' | '2' flattened to a set and rebuilt is the same tree.
    let u = Exp(
        Node::Union {
            lhs: Box::new(Exp(
                Node::Union {
                    lhs: Box::new(sym("0")),
                    rhs: Box::new(sym("1")),
                },
                an(),
            )),
            rhs: Box::new(sym("2")),
        },
        an(),
    );
    let mut set = SymSet::new();
    assert!(u.union_to_set(&mut set));
    assert_eq!(set.len(), 3);
    let rebuilt = Exp::union_from_set(&set, &an());
    assert!(rebuilt.eq_ignore_annot(&u));
}

#[test]
fn collect_symbols_finds_all_letters() {
    let ast = parse_src("t: match get t { _ @ '0' | '1' > set '2' t, }");
    let mut set = SymSet::new();
    ast.collect_symbols(&mut set);
    assert_eq!(set.len(), 3);
    assert!(set.contains(&"0".to_owned()));
    assert!(set.contains(&"1".to_owned()));
    assert!(set.contains(&"2".to_owned()));
}

#[test]
fn remove_lets_builds_application() {
    let ast = parse_src("let x = '1', in x");
    let rewritten = remove_lets(ast);
    let expected = Exp(
        Node::Application {
            func: Box::new(Exp(
                Node::Function {
                    arg: "x".to_owned(),
                    exp: Box::new(ident("x")),
                },
                an(),
            )),
            arg: Box::new(sym("1")),
        },
        an(),
    );
    assert!(rewritten.eq_ignore_annot(&expected));
}

#[test]
fn remove_any_expands_alphabet() {
    let mut alphabet = SymSet::new();
    alphabet.insert("0".to_owned());
    alphabet.insert("1".to_owned());
    let ast = Exp(
        Node::Match {
            exp: Box::new(ident("t")),
            arms: vec![Arm { catch_id: None, pat: Pat::Any, exp: ident("t") }],
        },
        an(),
    );
    let rewritten = remove_any(ast, &alphabet);
    match &rewritten.0 {
        Node::Match { arms, .. } => match &arms[0].pat {
            Pat::Union(u) => {
                let mut set = SymSet::new();
                assert!(u.union_to_set(&mut set));
                assert_eq!(set.len(), 2);
            }
            Pat::Any => panic!("the whole-alphabet pattern should be gone"),
        },
        _ => panic!("expected a match"),
    }
}

#[test]
fn remove_trivial_identity_application() {
    // (x: x) '1'  becomes  '1'
    let ast = Exp(
        Node::Application {
            func: Box::new(Exp(
                Node::Function {
                    arg: "x".to_owned(),
                    exp: Box::new(ident("x")),
                },
                an(),
            )),
            arg: Box::new(sym("1")),
        },
        an(),
    );
    let rewritten = remove_trivial(ast);
    assert!(rewritten.eq_ignore_annot(&sym("1")));
}

#[test]
fn remove_trivial_eta_application() {
    // (x: f x) a  becomes  f a
    let ast = Exp(
        Node::Application {
            func: Box::new(Exp(
                Node::Function {
                    arg: "x".to_owned(),
                    exp: Box::new(Exp(
                        Node::Application {
                            func: Box::new(ident("f")),
                            arg: Box::new(ident("x")),
                        },
                        an(),
                    )),
                },
                an(),
            )),
            arg: Box::new(ident("a")),
        },
        an(),
    );
    let rewritten = remove_trivial(ast);
    let expected = Exp(
        Node::Application {
            func: Box::new(ident("f")),
            arg: Box::new(ident("a")),
        },
        an(),
    );
    assert!(rewritten.eq_ignore_annot(&expected));
}

#[test]
fn match_const_picks_the_arm() {
    let ast = Exp(
        Node::Match {
            exp: Box::new(sym("1")),
            arms: vec![
                Arm { catch_id: None, pat: Pat::Union(sym("0")), exp: ident("a") },
                Arm { catch_id: None, pat: Pat::Union(sym("1")), exp: ident("b") },
            ],
        },
        an(),
    );
    let rewritten = match_const(ast);
    assert!(rewritten.eq_ignore_annot(&ident("b")));
}

#[test]
fn match_const_unmatched_symbol_dies() {
    let ast = Exp(
        Node::Match {
            exp: Box::new(sym("9")),
            arms: vec![Arm { catch_id: None, pat: Pat::Union(sym("0")), exp: ident("a") }],
        },
        an(),
    );
    let rewritten = match_const(ast);
    assert!(matches!(rewritten.0, Node::Abort));
}

#[test]
fn spread_aborts_drops_dead_arms() {
    let abort = Exp(Node::Abort, an());
    let ast = Exp(
        Node::Match {
            exp: Box::new(ident("t")),
            arms: vec![
                Arm { catch_id: None, pat: Pat::Union(abort.clone()), exp: ident("a") },
                Arm { catch_id: None, pat: Pat::Union(sym("1")), exp: ident("b") },
            ],
        },
        an(),
    );
    let rewritten = spread_aborts(ast);
    match &rewritten.0 {
        Node::Match { arms, .. } => assert_eq!(arms.len(), 1),
        _ => panic!("expected a match with the live arm"),
    }

    let all_dead = Exp(
        Node::Match {
            exp: Box::new(ident("t")),
            arms: vec![Arm { catch_id: None, pat: Pat::Union(abort), exp: ident("a") }],
        },
        an(),
    );
    assert!(matches!(spread_aborts(all_dead).0, Node::Abort));
}

#[test]
fn remove_gets_expands_to_match() {
    let mut alphabet = SymSet::new();
    alphabet.insert("0".to_owned());
    alphabet.insert("1".to_owned());
    let ast = Exp(
        Node::Application {
            func: Box::new(ident("get")),
            arg: Box::new(ident("t")),
        },
        an(),
    );
    let rewritten = remove_gets(ast, &alphabet);
    match &rewritten.0 {
        Node::Match { exp, arms } => {
            assert!(exp.eq_ignore_annot(&ident("t")));
            assert_eq!(arms.len(), 2);
            assert!(arms[0].exp.eq_ignore_annot(&sym("0")));
            assert!(arms[1].exp.eq_ignore_annot(&sym("1")));
        }
        _ => panic!("expected a match over the alphabet"),
    }
}

#[test]
fn move_matches_hoists_the_match() {
    // (match t { '0' > f, }) x  becomes  match t { '0' > f x, }
    let ast = Exp(
        Node::Application {
            func: Box::new(Exp(
                Node::Match {
                    exp: Box::new(ident("t")),
                    arms: vec![Arm { catch_id: None, pat: Pat::Union(sym("0")), exp: ident("f") }],
                },
                an(),
            )),
            arg: Box::new(ident("x")),
        },
        an(),
    );
    let rewritten = move_matches(ast);
    match &rewritten.0 {
        Node::Match { arms, .. } => {
            let expected = Exp(
                Node::Application {
                    func: Box::new(ident("f")),
                    arg: Box::new(ident("x")),
                },
                an(),
            );
            assert!(arms[0].exp.eq_ignore_annot(&expected));
        }
        _ => panic!("expected the match on top"),
    }
}

#[test]
fn machine_counts_states_and_transitions() {
    let mut m = Machine::new();
    assert_eq!(m.state_count, 3);
    let s = m.push_state();
    assert_eq!(s, 3);
    assert_eq!(m.state_count, 4);
    m.push_transition(Transition {
        from: (0, None),
        to: (s, Some("1".to_owned())),
        dir: Direction::Stay,
    });
    assert_eq!(m.transitions.len(), 1);
    assert_eq!(m.transitions[0].dir, Direction::Stay);
}

#[test]
fn symset_keeps_first_insertion_and_removes() {
    let mut s = SymSet::new();
    s.insert("a".to_owned());
    s.insert("b".to_owned());
    s.insert("a".to_owned());
    assert_eq!(s.len(), 2);
    s.remove(&"a".to_owned());
    assert_eq!(s.len(), 1);
    assert!(s.contains(&"b".to_owned()));
    assert!(!s.contains(&"a".to_owned()));
}

#[test]
fn simple_cast_follows_the_lattice() {
    assert!(Type::Symbol.simple_cast(&Type::Union));
    assert!(!Type::Union.simple_cast(&Type::Symbol));
    assert!(Type::Halt.simple_cast(&Type::Tape { owned: true }));
    assert!(!Type::Halt.simple_cast(&Type::Function {
        arg: Box::new(Type::Symbol),
        ret: Box::new(Type::Symbol),
    }));
    assert!(Type::Tape { owned: true }.simple_cast(&Type::Tape { owned: false }));
    assert!(!Type::Tape { owned: false }.simple_cast(&Type::Tape { owned: true }));
}

#[test]
fn pre_simplify_reaches_the_reduced_form() {
    // let f = t: t, in f  reduces to the identity function.
    let mut alphabet = SymSet::new();
    alphabet.insert(String::new());
    let ast = parse_src("let f = t: t, in f");
    let reduced = pre_simplify(ast, &alphabet);
    let expected = Exp(
        Node::Function {
            arg: "t".to_owned(),
            exp: Box::new(ident("t")),
        },
        an(),
    );
    assert!(reduced.eq_ignore_annot(&expected));
}

#[test]
fn simplify_ast_hoists_nested_matches() {
    // (match t { '0' > match u { '1' > g, }, }) x
    // needs two hoists; the driver's later rounds supply the second:
    // match t { '0' > match u { '1' > g x, }, }
    let mut alphabet = SymSet::new();
    alphabet.insert("0".to_owned());
    alphabet.insert("1".to_owned());
    let inner = Exp(
        Node::Match {
            exp: Box::new(ident("u")),
            arms: vec![Arm { catch_id: None, pat: Pat::Union(sym("1")), exp: ident("g") }],
        },
        an(),
    );
    let ast = Exp(
        Node::Application {
            func: Box::new(Exp(
                Node::Match {
                    exp: Box::new(ident("t")),
                    arms: vec![Arm { catch_id: None, pat: Pat::Union(sym("0")), exp: inner }],
                },
                an(),
            )),
            arg: Box::new(ident("x")),
        },
        an(),
    );
    let reduced = simplify_ast(ast, &alphabet);
    let expected_inner = Exp(
        Node::Match {
            exp: Box::new(ident("u")),
            arms: vec![Arm {
                catch_id: None,
                pat: Pat::Union(sym("1")),
                exp: Exp(
                    Node::Application {
                        func: Box::new(ident("g")),
                        arg: Box::new(ident("x")),
                    },
                    an(),
                ),
            }],
        },
        an(),
    );
    let expected = Exp(
        Node::Match {
            exp: Box::new(ident("t")),
            arms: vec![Arm { catch_id: None, pat: Pat::Union(sym("0")), exp: expected_inner }],
        },
        an(),
    );
    assert!(reduced.eq_ignore_annot(&expected));
}

#[test]
fn ownership_allows_borrow_then_consume() {
    let ast = type_check(parse_src("t: set (get t) t")).unwrap();
    assert!(ownership_check(&ast).is_ok());
}

#[test]
fn ownership_rejects_double_consumption() {
    // `next t` consumes the tape; the later bare `t` is the error.
    let ast = type_check(parse_src("t: set (get (next t)) t")).unwrap();
    let err = ownership_check(&ast).unwrap_err();
    assert_eq!(err, "Tape being used at line 1, column 23 was already consumed");
}

#[test]
fn ownership_forks_match_arms_from_a_snapshot() {
    // Each arm may consume the tape once.
    let ast = type_check(parse_src(
        "t: match get t { _ @ '0' > next t, _ @ '1' > prev t, }",
    ))
    .unwrap();
    assert!(ownership_check(&ast).is_ok());
}
