//! The parser: builds the syntax tree from the token stream by recursive
//! descent. Every node is annotated with its source location; the type
//! slot holds a neutral placeholder until the type checker fills it in.
//!
//! Positions index into the token stream; each parsing function reports how
//! far it came. The specification mirrors the descent exactly; where it
//! recurses on a position another parse produced, the position is clamped
//! forward so that the descent is well founded on any stream.

use vstd::prelude::*;
use crate::exp::{arms_view, binds_view, Arm, ArmV, Exp, ExpV, Node, NodeV, Pat, PatV};
use crate::text::{
    chars_to_string, lemma_pairs_view_index, lemma_pairs_view_len, pairs_view, push_str,
};
use crate::token::{loc_text, token_text, LocV, Token, TokenLoc, TokenV, token_eq};
use crate::types::{Annot, AnnotV, Type, TypeV};

verus! {

/// The annotation a freshly parsed node carries: its location, and a
/// neutral type slot for the checker to fill.
pub open spec fn parse_annot(l: LocV) -> AnnotV {
    AnnotV { ty: TypeV::Unresolved(0), loc: l }
}

fn mk_annot(loc: TokenLoc) -> (r: Annot)
    ensures
        r@ == parse_annot(loc@),
{
    Annot(Type::Unresolved(0), loc)
}

/// The description of the token at a position: its rendering, or `EOF`.
pub open spec fn tok_desc(toks: Seq<(TokenV, LocV)>, pos: int) -> Seq<char> {
    if 0 <= pos < toks.len() {
        token_text(toks[pos].0)
    } else {
        "EOF"@
    }
}

fn tok_desc_exec(toks: &Vec<(Token, TokenLoc)>, pos: usize) -> (r: Vec<char>)
    ensures
        r@ == tok_desc(pairs_view(toks@), pos as int),
{
    broadcast use lemma_pairs_view_len, lemma_pairs_view_index;

    let mut out: Vec<char> = Vec::new();
    if pos < toks.len() {
        toks[pos].0.push_text(&mut out);
    } else {
        push_str(&mut out, "EOF");
    }
    out
}

/// "Expected expression but found T (CTX)"
pub open spec fn exp_err_text(what: Seq<char>, ctx: Seq<char>) -> Seq<char> {
    "Expected expression but found "@ + what + " ("@ + ctx + ")"@
}

/// "Expected expression but found T after L (CTX)"
pub open spec fn exp_after_err_text(what: Seq<char>, l: LocV, ctx: Seq<char>) -> Seq<char> {
    "Expected expression but found "@ + what + " after "@ + loc_text(l) + " ("@ + ctx + ")"@
}

fn exp_err(what: &Vec<char>, ctx: &str) -> (r: String)
    ensures
        r@ == exp_err_text(what@, ctx@),
{
    let mut out: Vec<char> = Vec::new();
    push_str(&mut out, "Expected expression but found ");
    let mut i: usize = 0;
    while i < what.len()
        invariant
            i <= what@.len(),
            out@ == "Expected expression but found "@ + what@.subrange(0, i as int),
        decreases what@.len() - i,
    {
        out.push(what[i]);
        i = i + 1;
        assert(out@ =~= "Expected expression but found "@ + what@.subrange(0, i as int));
    }
    assert(what@.subrange(0, what@.len() as int) =~= what@);
    push_str(&mut out, " (");
    push_str(&mut out, ctx);
    push_str(&mut out, ")");
    assert(out@ =~= exp_err_text(what@, ctx@));
    chars_to_string(&out)
}

fn exp_after_err(what: &Vec<char>, l: &TokenLoc, ctx: &str) -> (r: String)
    ensures
        r@ == exp_after_err_text(what@, l@, ctx@),
{
    let mut out: Vec<char> = Vec::new();
    push_str(&mut out, "Expected expression but found ");
    let mut i: usize = 0;
    while i < what.len()
        invariant
            i <= what@.len(),
            out@ == "Expected expression but found "@ + what@.subrange(0, i as int),
        decreases what@.len() - i,
    {
        out.push(what[i]);
        i = i + 1;
        assert(out@ =~= "Expected expression but found "@ + what@.subrange(0, i as int));
    }
    assert(what@.subrange(0, what@.len() as int) =~= what@);
    push_str(&mut out, " after ");
    l.push_text(&mut out);
    push_str(&mut out, " (");
    push_str(&mut out, ctx);
    push_str(&mut out, ")");
    assert(out@ =~= exp_after_err_text(what@, l@, ctx@));
    chars_to_string(&out)
}

/// "Expected token T but found EOF (CTX)" or
/// "Expected token T but found U at L (CTX)"
pub open spec fn expect_tok_err_text(tok: TokenV, toks: Seq<(TokenV, LocV)>, pos: int, ctx: Seq<
    char,
>) -> Seq<char> {
    if 0 <= pos < toks.len() {
        "Expected token "@ + token_text(tok) + " but found "@ + token_text(toks[pos].0) + " at "@
            + loc_text(toks[pos].1) + " ("@ + ctx + ")"@
    } else {
        "Expected token "@ + token_text(tok) + " but found EOF ("@ + ctx + ")"@
    }
}

/// "Expected identifier but found EOF (CTX)" or
/// "Expected identifier but found T at L (CTX)"
pub open spec fn expect_id_err_text(toks: Seq<(TokenV, LocV)>, pos: int, ctx: Seq<char>) -> Seq<
    char,
> {
    if 0 <= pos < toks.len() {
        "Expected identifier but found "@ + token_text(toks[pos].0) + " at "@ + loc_text(
            toks[pos].1,
        ) + " ("@ + ctx + ")"@
    } else {
        "Expected identifier but found EOF ("@ + ctx + ")"@
    }
}

/// Checks if the token at `pos` is the expected token; on a hit, the
/// position after it and its location come back.
pub open spec fn spec_accept_token(
    toks: Seq<(TokenV, LocV)>,
    pos: int,
    tok: TokenV,
) -> Option<(int, LocV)> {
    if 0 <= pos < toks.len() && toks[pos].0 == tok {
        Some((pos + 1, toks[pos].1))
    } else {
        None
    }
}

fn accept_token(toks: &Vec<(Token, TokenLoc)>, pos: usize, tok: &Token) -> (r: Option<(
    usize,
    TokenLoc,
)>)
    requires
        pos <= toks@.len(),
    ensures
        match r {
            Some((p, l)) => spec_accept_token(pairs_view(toks@), pos as int, tok@) == Some(
                (p as int, l@),
            ) && p == pos + 1,
            None => spec_accept_token(pairs_view(toks@), pos as int, tok@) is None,
        },
{
    broadcast use lemma_pairs_view_len, lemma_pairs_view_index;

    if pos < toks.len() {
        if token_eq(&toks[pos].0, tok) {
            return Some((pos + 1, toks[pos].1.clone()));
        }
    }
    None
}

/// Checks if the token at `pos` is an identifier.
pub open spec fn spec_accept_identifier(toks: Seq<(TokenV, LocV)>, pos: int) -> Option<
    (int, Seq<char>, LocV),
> {
    if 0 <= pos < toks.len() && (toks[pos].0 matches TokenV::Identifier(_)) {
        Some((pos + 1, toks[pos].0->Identifier_0, toks[pos].1))
    } else {
        None
    }
}

fn accept_identifier(toks: &Vec<(Token, TokenLoc)>, pos: usize) -> (r: Option<(
    usize,
    String,
    TokenLoc,
)>)
    requires
        pos <= toks@.len(),
    ensures
        match r {
            Some((p, id, l)) => spec_accept_identifier(pairs_view(toks@), pos as int) == Some(
                (p as int, id@, l@),
            ) && p == pos + 1,
            None => spec_accept_identifier(pairs_view(toks@), pos as int) is None,
        },
{
    broadcast use lemma_pairs_view_len, lemma_pairs_view_index;

    if pos < toks.len() {
        match &toks[pos].0 {
            Token::Identifier(id) => {
                return Some((pos + 1, id.clone(), toks[pos].1.clone()));
            }
            _ => {}
        }
    }
    None
}

/// Demands the given token at `pos`: the position after it and its
/// location, or the error naming what stood there.
pub open spec fn spec_expect_token(
    toks: Seq<(TokenV, LocV)>,
    pos: int,
    tok: TokenV,
    ctx: Seq<char>,
) -> Result<(int, LocV), Seq<char>> {
    if 0 <= pos < toks.len() && toks[pos].0 == tok {
        Ok((pos + 1, toks[pos].1))
    } else {
        Err(expect_tok_err_text(tok, toks, pos, ctx))
    }
}

fn expect_token(toks: &Vec<(Token, TokenLoc)>, pos: usize, tok: Token, ctx: &str) -> (r: Result<
    (usize, TokenLoc),
    String,
>)
    requires
        pos <= toks@.len(),
    ensures
        match r {
            Ok((p, l)) => spec_expect_token(pairs_view(toks@), pos as int, tok@, ctx@) == Ok::<
                _,
                Seq<char>,
            >((p as int, l@)) && p == pos + 1,
            Err(e) => spec_expect_token(pairs_view(toks@), pos as int, tok@, ctx@) == Err::<
                (int, LocV),
                _,
            >(e@),
        },
{
    broadcast use lemma_pairs_view_len, lemma_pairs_view_index;

    if pos < toks.len() {
        if token_eq(&toks[pos].0, &tok) {
            return Ok((pos + 1, toks[pos].1.clone()));
        }
        let mut out: Vec<char> = Vec::new();
        push_str(&mut out, "Expected token ");
        tok.push_text(&mut out);
        push_str(&mut out, " but found ");
        toks[pos].0.push_text(&mut out);
        push_str(&mut out, " at ");
        toks[pos].1.push_text(&mut out);
        push_str(&mut out, " (");
        push_str(&mut out, ctx);
        push_str(&mut out, ")");
        assert(out@ =~= expect_tok_err_text(tok@, pairs_view(toks@), pos as int, ctx@));
        Err(chars_to_string(&out))
    } else {
        let mut out: Vec<char> = Vec::new();
        push_str(&mut out, "Expected token ");
        tok.push_text(&mut out);
        push_str(&mut out, " but found EOF (");
        push_str(&mut out, ctx);
        push_str(&mut out, ")");
        assert(out@ =~= expect_tok_err_text(tok@, pairs_view(toks@), pos as int, ctx@));
        Err(chars_to_string(&out))
    }
}

/// Demands an identifier at `pos`.
pub open spec fn spec_expect_identifier(toks: Seq<(TokenV, LocV)>, pos: int, ctx: Seq<char>) -> Result<
    (int, Seq<char>, LocV),
    Seq<char>,
> {
    if 0 <= pos < toks.len() && (toks[pos].0 matches TokenV::Identifier(_)) {
        Ok((pos + 1, toks[pos].0->Identifier_0, toks[pos].1))
    } else {
        Err(expect_id_err_text(toks, pos, ctx))
    }
}

fn expect_identifier(toks: &Vec<(Token, TokenLoc)>, pos: usize, ctx: &str) -> (r: Result<
    (usize, String, TokenLoc),
    String,
>)
    requires
        pos <= toks@.len(),
    ensures
        match r {
            Ok((p, id, l)) => spec_expect_identifier(pairs_view(toks@), pos as int, ctx@) == Ok::<
                _,
                Seq<char>,
            >((p as int, id@, l@)) && p == pos + 1,
            Err(e) => spec_expect_identifier(pairs_view(toks@), pos as int, ctx@) == Err::<
                (int, Seq<char>, LocV),
                _,
            >(e@),
        },
{
    broadcast use lemma_pairs_view_len, lemma_pairs_view_index;

    if pos < toks.len() {
        match &toks[pos].0 {
            Token::Identifier(id) => {
                return Ok((pos + 1, id.clone(), toks[pos].1.clone()));
            }
            _ => {}
        }
        let mut out: Vec<char> = Vec::new();
        push_str(&mut out, "Expected identifier but found ");
        toks[pos].0.push_text(&mut out);
        push_str(&mut out, " at ");
        toks[pos].1.push_text(&mut out);
        push_str(&mut out, " (");
        push_str(&mut out, ctx);
        push_str(&mut out, ")");
        assert(out@ =~= expect_id_err_text(pairs_view(toks@), pos as int, ctx@));
        Err(chars_to_string(&out))
    } else {
        let mut out: Vec<char> = Vec::new();
        push_str(&mut out, "Expected identifier but found EOF (");
        push_str(&mut out, ctx);
        push_str(&mut out, ")");
        assert(out@ =~= expect_id_err_text(pairs_view(toks@), pos as int, ctx@));
        Err(chars_to_string(&out))
    }
}

/// A position a parse handed back, clamped forward so that the descent is
/// well founded: a well-behaved parse always moved forward, and then the
/// clamp changes nothing.
pub open spec fn step_pos(toks: Seq<(TokenV, LocV)>, pos: int, next: int) -> int {
    if pos < next <= toks.len() {
        next
    } else if 0 <= pos < toks.len() {
        pos + 1
    } else if pos < 0 {
        0
    } else {
        pos
    }
}

/// "Expected expression after L (while parsing let expression)"
pub open spec fn let_exp_err_text(l: LocV) -> Seq<char> {
    "Expected expression after "@ + loc_text(l) + " (while parsing let expression)"@
}

fn let_exp_err(l: &TokenLoc) -> (r: String)
    ensures
        r@ == let_exp_err_text(l@),
{
    let mut out: Vec<char> = Vec::new();
    push_str(&mut out, "Expected expression after ");
    l.push_text(&mut out);
    push_str(&mut out, " (while parsing let expression)");
    assert(out@ =~= let_exp_err_text(l@));
    chars_to_string(&out)
}

/// "Expected expression but found T at L1 (while parsing function body at L2)"
pub open spec fn func_body_err_text(what: Seq<char>, at: LocV, of: LocV) -> Seq<char> {
    "Expected expression but found "@ + what + " at "@ + loc_text(at)
        + " (while parsing function body at "@ + loc_text(of) + ")"@
}

fn func_body_err(what: &Vec<char>, at: &TokenLoc, of: &TokenLoc) -> (r: String)
    ensures
        r@ == func_body_err_text(what@, at@, of@),
{
    let mut out: Vec<char> = Vec::new();
    push_str(&mut out, "Expected expression but found ");
    let mut i: usize = 0;
    while i < what.len()
        invariant
            i <= what@.len(),
            out@ == "Expected expression but found "@ + what@.subrange(0, i as int),
        decreases what@.len() - i,
    {
        out.push(what[i]);
        i = i + 1;
        assert(out@ =~= "Expected expression but found "@ + what@.subrange(0, i as int));
    }
    assert(what@.subrange(0, what@.len() as int) =~= what@);
    push_str(&mut out, " at ");
    at.push_text(&mut out);
    push_str(&mut out, " (while parsing function body at ");
    of.push_text(&mut out);
    push_str(&mut out, ")");
    assert(out@ =~= func_body_err_text(what@, at@, of@));
    chars_to_string(&out)
}

/// "Expected EOF but found token T at L"
pub open spec fn eof_err_text(t: TokenV, l: LocV) -> Seq<char> {
    "Expected EOF but found token "@ + token_text(t) + " at "@ + loc_text(l)
}

fn eof_err(t: &Token, l: &TokenLoc) -> (r: String)
    ensures
        r@ == eof_err_text(t@, l@),
{
    let mut out: Vec<char> = Vec::new();
    push_str(&mut out, "Expected EOF but found token ");
    t.push_text(&mut out);
    push_str(&mut out, " at ");
    l.push_text(&mut out);
    assert(out@ =~= eof_err_text(t@, l@));
    chars_to_string(&out)
}

/// Parses an expression: an application, possibly extended into a union by
/// pipes.
pub open spec fn spec_parse_exp(toks: Seq<(TokenV, LocV)>, pos: int) -> Result<
    Option<(int, ExpV)>,
    Seq<char>,
>
    decreases toks.len() + 2 - pos, 4int,
{
    match spec_parse_apply(toks, pos) {
        Err(e) => Err(e),
        Ok(None) => Ok(None),
        Ok(Some((p1, e1))) => spec_union_tail(toks, step_pos(toks, pos, p1), e1),
    }
}

/// Extends an already parsed expression with `| rhs` unions while a pipe
/// follows.
pub open spec fn spec_union_tail(toks: Seq<(TokenV, LocV)>, pos: int, exp: ExpV) -> Result<
    Option<(int, ExpV)>,
    Seq<char>,
>
    decreases toks.len() + 2 - pos, 3int,
{
    if pos < 0 || pos >= toks.len() {
        Ok(Some((pos, exp)))
    } else {
        match spec_accept_token(toks, pos, TokenV::Pipe) {
            None => Ok(Some((pos, exp))),
            Some((p0, loc)) => match spec_parse_exp(toks, p0) {
                Err(e) => Err(e),
                Ok(None) => Err(
                    exp_after_err_text(tok_desc(toks, pos), loc, "while parsing union"@),
                ),
                Ok(Some((p2, rhs))) => spec_union_tail(
                    toks,
                    step_pos(toks, pos, p2),
                    ExpV {
                        node: NodeV::Union { lhs: Box::new(exp), rhs: Box::new(rhs) },
                        annot: parse_annot(loc),
                    },
                ),
            },
        }
    }
}

/// Parses an application: a term, extended while further terms follow.
pub open spec fn spec_parse_apply(toks: Seq<(TokenV, LocV)>, pos: int) -> Result<
    Option<(int, ExpV)>,
    Seq<char>,
>
    decreases toks.len() + 2 - pos, 3int,
{
    match spec_parse_term(toks, pos) {
        Err(e) => Err(e),
        Ok(None) => Ok(None),
        Ok(Some((p1, e1))) => spec_apply_tail(toks, step_pos(toks, pos, p1), e1),
    }
}

/// Applies an already parsed expression to further terms while they follow.
pub open spec fn spec_apply_tail(toks: Seq<(TokenV, LocV)>, pos: int, exp: ExpV) -> Result<
    Option<(int, ExpV)>,
    Seq<char>,
>
    decreases toks.len() + 2 - pos, 2int,
{
    if pos < 0 || pos >= toks.len() {
        Ok(Some((pos, exp)))
    } else {
        match spec_parse_term(toks, pos) {
            Err(e) => Err(e),
            Ok(None) => Ok(Some((pos, exp))),
            Ok(Some((p2, arg))) => spec_apply_tail(
                toks,
                step_pos(toks, pos, p2),
                ExpV {
                    node: NodeV::Application { func: Box::new(exp), arg: Box::new(arg) },
                    annot: exp.annot,
                },
            ),
        }
    }
}

/// Parses a term: a parenthesised expression, a match, a let, a function,
/// an identifier or a symbol.
pub open spec fn spec_parse_term(toks: Seq<(TokenV, LocV)>, pos: int) -> Result<
    Option<(int, ExpV)>,
    Seq<char>,
>
    decreases toks.len() + 2 - pos, 1int,
{
    match spec_accept_token(toks, pos, TokenV::LParenthesis) {
        Some((p0, loc)) => match spec_parse_exp(toks, p0) {
            Err(e) => Err(e),
            Ok(None) => Err(
                exp_after_err_text(
                    tok_desc(toks, p0),
                    loc,
                    "while parsing parenthesis expression"@,
                ),
            ),
            Ok(Some((p1, e))) => match spec_expect_token(
                toks,
                p1,
                TokenV::RParenthesis,
                "while parsing parenthesis expression"@,
            ) {
                Err(e2) => Err(e2),
                Ok((p2, _)) => Ok(Some((p2, e))),
            },
        },
        None => match spec_parse_match(toks, pos) {
            Err(e) => Err(e),
            Ok(Some(r)) => Ok(Some(r)),
            Ok(None) => match spec_parse_let(toks, pos) {
                Err(e) => Err(e),
                Ok(Some(r)) => Ok(Some(r)),
                Ok(None) => match spec_parse_function(toks, pos) {
                    Err(e) => Err(e),
                    Ok(Some(r)) => Ok(Some(r)),
                    Ok(None) => match spec_parse_identifier(toks, pos) {
                        Some(r) => Ok(Some(r)),
                        None => match spec_parse_symbol(toks, pos) {
                            Some(r) => Ok(Some(r)),
                            None => Ok(None),
                        },
                    },
                },
            },
        },
    }
}

/// Parses the arms of a match, from the position after the opening brace
/// up to the closing one.
pub open spec fn spec_parse_arms(
    toks: Seq<(TokenV, LocV)>,
    pos: int,
    last_loc: LocV,
    arms: Seq<ArmV>,
) -> Result<(int, Seq<ArmV>), Seq<char>>
    decreases toks.len() + 2 - pos, 5int,
{
    if pos < 0 || pos >= toks.len() {
        Err(
            exp_after_err_text(tok_desc(toks, pos), last_loc, "while parsing match pattern"@),
        )
    } else {
        match spec_accept_token(toks, pos, TokenV::RBraces) {
            Some((p, _)) => Ok((p, arms)),
            None => {
                let (cur, catch_id, lloc) = match spec_accept_identifier(toks, pos) {
                    Some((p_id, id, _)) => match spec_accept_token(toks, p_id, TokenV::Catch) {
                        Some((p_c, loc_c)) => (p_c, Some(id), loc_c),
                        None => (pos, None, last_loc),
                    },
                    None => (pos, None, last_loc),
                };
                let pat_parsed: Result<(int, PatV), Seq<char>> = match spec_accept_token(
                    toks,
                    cur,
                    TokenV::Any,
                ) {
                    Some((p, _)) => Ok((p, PatV::Any)),
                    None => match spec_parse_exp(toks, cur) {
                        Err(e) => Err(e),
                        Ok(None) => Err(
                            exp_after_err_text(
                                tok_desc(toks, cur),
                                lloc,
                                "while parsing match pattern"@,
                            ),
                        ),
                        Ok(Some((p, e))) => Ok((p, PatV::Union(e))),
                    },
                };
                match pat_parsed {
                    Err(e) => Err(e),
                    Ok((p_pat, pat)) => match spec_expect_token(
                        toks,
                        p_pat,
                        TokenV::Arrow,
                        "while parsing match arm"@,
                    ) {
                        Err(e) => Err(e),
                        Ok((p_a, loc_a)) => match spec_parse_exp(
                            toks,
                            step_pos(toks, pos, p_a),
                        ) {
                            Err(e) => Err(e),
                            Ok(None) => Err(
                                exp_after_err_text(
                                    tok_desc(toks, cur),
                                    loc_a,
                                    "while parsing match arm"@,
                                ),
                            ),
                            Ok(Some((p_b, body))) => match spec_expect_token(
                                toks,
                                p_b,
                                TokenV::Comma,
                                "while parsing match arm"@,
                            ) {
                                Err(e) => Err(e),
                                Ok((p_c, loc_comma)) => spec_parse_arms(
                                    toks,
                                    step_pos(toks, pos, p_c),
                                    loc_comma,
                                    arms.push(ArmV { catch_id, pat, exp: body }),
                                ),
                            },
                        },
                    },
                }
            }
        }
    }
}

/// Parses a match expression.
pub open spec fn spec_parse_match(toks: Seq<(TokenV, LocV)>, pos: int) -> Result<
    Option<(int, ExpV)>,
    Seq<char>,
>
    decreases toks.len() + 2 - pos, 0int,
{
    match spec_accept_token(toks, pos, TokenV::Match) {
        None => Ok(None),
        Some((p0, loc)) => match spec_parse_exp(toks, p0) {
            Err(e) => Err(e),
            Ok(None) => Err(
                exp_after_err_text(
                    tok_desc(toks, p0),
                    loc,
                    "while parsing match expression"@,
                ),
            ),
            Ok(Some((p1, scrut))) => match spec_expect_token(
                toks,
                p1,
                TokenV::LBraces,
                "while parsing match expression"@,
            ) {
                Err(e) => Err(e),
                Ok((p2, loc_lb)) => match spec_parse_arms(
                    toks,
                    step_pos(toks, pos, p2),
                    loc_lb,
                    Seq::empty(),
                ) {
                    Err(e) => Err(e),
                    Ok((p3, arms)) => Ok(
                        Some(
                            (
                                p3,
                                ExpV {
                                    node: NodeV::Match { exp: Box::new(scrut), arms },
                                    annot: parse_annot(loc),
                                },
                            ),
                        ),
                    ),
                },
            },
        },
    }
}

/// Parses the bindings of a let, up to and including the `in` keyword.
pub open spec fn spec_parse_binds(
    toks: Seq<(TokenV, LocV)>,
    pos: int,
    binds: Seq<(Seq<char>, ExpV)>,
) -> Result<(int, Seq<(Seq<char>, ExpV)>, LocV), Seq<char>>
    decreases toks.len() + 2 - pos, 0int,
{
    if pos < 0 || pos >= toks.len() {
        Err(expect_id_err_text(toks, pos, "while parsing let expression"@))
    } else {
        match spec_accept_token(toks, pos, TokenV::In) {
            Some((p, loc)) => Ok((p, binds, loc)),
            None => match spec_expect_identifier(toks, pos, "while parsing let expression"@) {
                Err(e) => Err(e),
                Ok((p1, id, _)) => match spec_expect_token(
                    toks,
                    p1,
                    TokenV::Assign,
                    "while parsing let binding"@,
                ) {
                    Err(e) => Err(e),
                    Ok((p2, loc_a)) => match spec_parse_exp(toks, p2) {
                        Err(e) => Err(e),
                        Ok(None) => Err(
                            exp_after_err_text(
                                tok_desc(toks, p2),
                                loc_a,
                                "while parsing let binding"@,
                            ),
                        ),
                        Ok(Some((p3, e))) => match spec_expect_token(
                            toks,
                            p3,
                            TokenV::Comma,
                            "while parsing let expression"@,
                        ) {
                            Err(e2) => Err(e2),
                            Ok((p4, _)) => spec_parse_binds(
                                toks,
                                step_pos(toks, pos, p4),
                                binds.push((id, e)),
                            ),
                        },
                    },
                },
            },
        }
    }
}

/// Parses a let expression.
pub open spec fn spec_parse_let(toks: Seq<(TokenV, LocV)>, pos: int) -> Result<
    Option<(int, ExpV)>,
    Seq<char>,
>
    decreases toks.len() + 2 - pos, 0int,
{
    match spec_accept_token(toks, pos, TokenV::Let) {
        None => Ok(None),
        Some((p0, loc)) => match spec_parse_binds(toks, step_pos(toks, pos, p0), Seq::empty()) {
            Err(e) => Err(e),
            Ok((p_in, binds, last_loc)) => match spec_parse_exp(
                toks,
                step_pos(toks, pos, p_in),
            ) {
                Err(e) => Err(e),
                Ok(None) => Err(let_exp_err_text(last_loc)),
                Ok(Some((p2, body))) => Ok(
                    Some(
                        (
                            p2,
                            ExpV {
                                node: NodeV::Let { exp: Box::new(body), binds },
                                annot: parse_annot(loc),
                            },
                        ),
                    ),
                ),
            },
        },
    }
}

/// Parses a function: an identifier, a colon and the body.
pub open spec fn spec_parse_function(toks: Seq<(TokenV, LocV)>, pos: int) -> Result<
    Option<(int, ExpV)>,
    Seq<char>,
>
    decreases toks.len() + 2 - pos, 0int,
{
    match spec_accept_identifier(toks, pos) {
        None => Ok(None),
        Some((p1, arg, loc)) => match spec_accept_token(toks, p1, TokenV::Colon) {
            None => Ok(None),
            Some((p2, _)) => match spec_parse_exp(toks, step_pos(toks, pos, p2)) {
                Err(e) => Err(e),
                Ok(None) => Err(
                    func_body_err_text(
                        tok_desc(toks, p2),
                        if 0 <= p2 < toks.len() {
                            toks[p2].1
                        } else {
                            loc
                        },
                        loc,
                    ),
                ),
                Ok(Some((p3, body))) => Ok(
                    Some(
                        (
                            p3,
                            ExpV {
                                node: NodeV::Function { arg, exp: Box::new(body) },
                                annot: parse_annot(loc),
                            },
                        ),
                    ),
                ),
            },
        },
    }
}

/// Parses an identifier expression.
pub open spec fn spec_parse_identifier(toks: Seq<(TokenV, LocV)>, pos: int) -> Option<
    (int, ExpV),
> {
    match spec_accept_identifier(toks, pos) {
        Some((p, id, loc)) => Some(
            (p, ExpV { node: NodeV::Identifier(id), annot: parse_annot(loc) }),
        ),
        None => None,
    }
}

/// Parses a symbol expression.
pub open spec fn spec_parse_symbol(toks: Seq<(TokenV, LocV)>, pos: int) -> Option<(int, ExpV)> {
    if 0 <= pos < toks.len() && (toks[pos].0 matches TokenV::Symbol(_)) {
        Some(
            (
                pos + 1,
                ExpV {
                    node: NodeV::Symbol(toks[pos].0->Symbol_0),
                    annot: parse_annot(toks[pos].1),
                },
            ),
        )
    } else {
        None
    }
}

/// The model of a parse step's result.
pub open spec fn popt_view(r: Result<Option<(usize, Exp)>, String>) -> Result<
    Option<(int, ExpV)>,
    Seq<char>,
> {
    match r {
        Ok(Some((p, e))) => Ok(Some((p as int, e@))),
        Ok(None) => Ok(None),
        Err(s) => Err(s@),
    }
}

#[verifier::loop_isolation(false)]
fn parse_exp(toks: &Vec<(Token, TokenLoc)>, pos: usize) -> (r: Result<
    Option<(usize, Exp)>,
    String,
>)
    requires
        pos <= toks@.len(),
    ensures
        popt_view(r) == spec_parse_exp(pairs_view(toks@), pos as int),
        (match r {
            Ok(Some((p, _))) => pos < p <= toks@.len(),
            Err(_) => pos < toks@.len(),
            _ => true,
        }),
    decreases toks@.len() + 2 - pos, 4int,
{
    broadcast use lemma_pairs_view_len, lemma_pairs_view_index;

    let ghost tv = pairs_view(toks@);
    let ap = parse_apply(toks, pos);
    match ap {
        Err(e) => Err(e),
        Ok(None) => Ok(None),
        Ok(Some((p1, e1))) => {
            proof {
                assert(step_pos(tv, pos as int, p1 as int) == p1 as int);
            }
            let mut cur = p1;
            let mut exp = e1;
            loop
                invariant
                    pos < cur <= toks@.len(),
                    spec_union_tail(tv, cur as int, exp@) == spec_parse_exp(tv, pos as int),
                decreases toks@.len() - cur,
            {
                let acc = accept_token(toks, cur, &Token::Pipe);
                match acc {
                    None => {
                        return Ok(Some((cur, exp)));
                    }
                    Some((c1, loc)) => {
                        let sub = parse_exp(toks, c1);
                        match sub {
                            Err(e) => {
                                return Err(e);
                            }
                            Ok(None) => {
                                let d = tok_desc_exec(toks, cur);
                                return Err(exp_after_err(&d, &loc, "while parsing union"));
                            }
                            Ok(Some((p2, rhs))) => {
                                exp = Exp(
                                    Node::Union { lhs: Box::new(exp), rhs: Box::new(rhs) },
                                    mk_annot(loc),
                                );
                                proof {
                                    assert(step_pos(tv, cur as int, p2 as int) == p2 as int);
                                }
                                cur = p2;
                            }
                        }
                    }
                }
            }
        }
    }
}

#[verifier::loop_isolation(false)]
fn parse_apply(toks: &Vec<(Token, TokenLoc)>, pos: usize) -> (r: Result<
    Option<(usize, Exp)>,
    String,
>)
    requires
        pos <= toks@.len(),
    ensures
        popt_view(r) == spec_parse_apply(pairs_view(toks@), pos as int),
        (match r {
            Ok(Some((p, _))) => pos < p <= toks@.len(),
            Err(_) => pos < toks@.len(),
            _ => true,
        }),
    decreases toks@.len() + 2 - pos, 3int,
{
    broadcast use lemma_pairs_view_len, lemma_pairs_view_index;

    let ghost tv = pairs_view(toks@);
    let t0 = parse_term(toks, pos);
    match t0 {
        Err(e) => Err(e),
        Ok(None) => Ok(None),
        Ok(Some((p1, e1))) => {
            proof {
                assert(step_pos(tv, pos as int, p1 as int) == p1 as int);
            }
            let mut cur = p1;
            let mut exp = e1;
            loop
                invariant
                    pos < cur <= toks@.len(),
                    spec_apply_tail(tv, cur as int, exp@) == spec_parse_apply(tv, pos as int),
                decreases toks@.len() - cur,
            {
                let t1 = parse_term(toks, cur);
                match t1 {
                    Err(e) => {
                        return Err(e);
                    }
                    Ok(None) => {
                        return Ok(Some((cur, exp)));
                    }
                    Ok(Some((p2, arg))) => {
                        let a = exp.1.clone();
                        exp = Exp(
                            Node::Application { func: Box::new(exp), arg: Box::new(arg) },
                            a,
                        );
                        proof {
                            assert(step_pos(tv, cur as int, p2 as int) == p2 as int);
                        }
                        cur = p2;
                    }
                }
            }
        }
    }
}

#[verifier::loop_isolation(false)]
fn parse_term(toks: &Vec<(Token, TokenLoc)>, pos: usize) -> (r: Result<
    Option<(usize, Exp)>,
    String,
>)
    requires
        pos <= toks@.len(),
    ensures
        popt_view(r) == spec_parse_term(pairs_view(toks@), pos as int),
        (match r {
            Ok(Some((p, _))) => pos < p <= toks@.len(),
            Err(_) => pos < toks@.len(),
            _ => true,
        }),
    decreases toks@.len() + 2 - pos, 1int,
{
    broadcast use lemma_pairs_view_len, lemma_pairs_view_index;

    let lp = accept_token(toks, pos, &Token::LParenthesis);
    match lp {
        Some((p0, loc)) => {
            let inner = parse_exp(toks, p0);
            match inner {
                Err(e) => Err(e),
                Ok(None) => {
                    let d = tok_desc_exec(toks, p0);
                    Err(exp_after_err(&d, &loc, "while parsing parenthesis expression"))
                }
                Ok(Some((p1, e))) => {
                    let rp = expect_token(
                        toks,
                        p1,
                        Token::RParenthesis,
                        "while parsing parenthesis expression",
                    );
                    match rp {
                        Err(e2) => Err(e2),
                        Ok((p2, _)) => Ok(Some((p2, e))),
                    }
                }
            }
        }
        None => {
            let m = parse_match(toks, pos);
            match m {
                Err(e) => {
                    return Err(e);
                }
                Ok(Some(r)) => {
                    return Ok(Some(r));
                }
                Ok(None) => {}
            }
            let l = parse_let(toks, pos);
            match l {
                Err(e) => {
                    return Err(e);
                }
                Ok(Some(r)) => {
                    return Ok(Some(r));
                }
                Ok(None) => {}
            }
            let f = parse_function(toks, pos);
            match f {
                Err(e) => {
                    return Err(e);
                }
                Ok(Some(r)) => {
                    return Ok(Some(r));
                }
                Ok(None) => {}
            }
            let i = parse_identifier(toks, pos);
            match i {
                Ok(Some(r)) => {
                    return Ok(Some(r));
                }
                _ => {}
            }
            parse_symbol(toks, pos)
        }
    }
}

#[verifier::loop_isolation(false)]
#[verifier::rlimit(80)]
fn parse_match(toks: &Vec<(Token, TokenLoc)>, pos: usize) -> (r: Result<
    Option<(usize, Exp)>,
    String,
>)
    requires
        pos <= toks@.len(),
    ensures
        popt_view(r) == spec_parse_match(pairs_view(toks@), pos as int),
        (match r {
            Ok(Some((p, _))) => pos < p <= toks@.len(),
            Err(_) => pos < toks@.len(),
            _ => true,
        }),
    decreases toks@.len() + 2 - pos, 0int,
{
    broadcast use lemma_pairs_view_len, lemma_pairs_view_index;
    broadcast use crate::exp::lemma_arms_view_push;

    let ghost tv = pairs_view(toks@);
    let mt = accept_token(toks, pos, &Token::Match);
    match mt {
        None => Ok(None),
        Some((p0, loc)) => {
            let scrut_r = parse_exp(toks, p0);
            match scrut_r {
                Err(e) => Err(e),
                Ok(None) => {
                    let d = tok_desc_exec(toks, p0);
                    Err(exp_after_err(&d, &loc, "while parsing match expression"))
                }
                Ok(Some((p1, scrut))) => {
                    let lb = expect_token(toks, p1, Token::LBraces, "while parsing match expression");
                    match lb {
                        Err(e) => Err(e),
                        Ok((p2, loc_lb)) => {
                            proof {
                                assert(step_pos(tv, pos as int, p2 as int) == p2 as int);
                            }
                            let ghost arms_goal = spec_parse_arms(
                                tv,
                                p2 as int,
                                loc_lb@,
                                Seq::empty(),
                            );
                            let mut cur = p2;
                            let mut lloc = loc_lb;
                            let mut arms: Vec<Arm> = Vec::new();
                            proof {
                                assert(arms_view(arms@) =~= Seq::<ArmV>::empty());
                            }
                            loop
                                invariant
                                    pos < cur <= toks@.len(),
                                    spec_parse_arms(tv, cur as int, lloc@, arms_view(arms@))
                                        == arms_goal,
                                decreases toks@.len() - cur,
                            {
                                let rb = accept_token(toks, cur, &Token::RBraces);
                                match rb {
                                    Some((p3, _)) => {
                                        let result = Exp(
                                            Node::Match { exp: Box::new(scrut), arms },
                                            mk_annot(loc),
                                        );
                                        return Ok(Some((p3, result)));
                                    }
                                    None => {}
                                }
                                let mut cur2 = cur;
                                let mut catch_id: Option<String> = None;
                                let mut lloc2 = lloc.clone();
                                let idm = accept_identifier(toks, cur);
                                match idm {
                                    Some((pid, id, _)) => {
                                        let cm = accept_token(toks, pid, &Token::Catch);
                                        match cm {
                                            Some((pc, locc)) => {
                                                cur2 = pc;
                                                catch_id = Some(id);
                                                lloc2 = locc;
                                            }
                                            None => {}
                                        }
                                    }
                                    None => {}
                                }
                                let anym = accept_token(toks, cur2, &Token::Any);
                                let pat_res: (usize, Pat) = match anym {
                                    Some((pp, _)) => (pp, Pat::Any),
                                    None => {
                                        let pe = parse_exp(toks, cur2);
                                        match pe {
                                            Err(e) => {
                                                return Err(e);
                                            }
                                            Ok(None) => {
                                                let d = tok_desc_exec(toks, cur2);
                                                return Err(
                                                    exp_after_err(
                                                        &d,
                                                        &lloc2,
                                                        "while parsing match pattern",
                                                    ),
                                                );
                                            }
                                            Ok(Some((pp, e))) => (pp, Pat::Union(e)),
                                        }
                                    }
                                };
                                let (p_pat, pat) = pat_res;
                                let ar = expect_token(toks, p_pat, Token::Arrow, "while parsing match arm");
                                let (p_a, loc_a) = match ar {
                                    Err(e) => {
                                        return Err(e);
                                    }
                                    Ok(x) => x,
                                };
                                proof {
                                    assert(step_pos(tv, cur as int, p_a as int) == p_a as int);
                                }
                                let body_r = parse_exp(toks, p_a);
                                let (p_b, body) = match body_r {
                                    Err(e) => {
                                        return Err(e);
                                    }
                                    Ok(None) => {
                                        let d = tok_desc_exec(toks, cur2);
                                        return Err(
                                            exp_after_err(&d, &loc_a, "while parsing match arm"),
                                        );
                                    }
                                    Ok(Some(x)) => x,
                                };
                                let cm2 = expect_token(toks, p_b, Token::Comma, "while parsing match arm");
                                let (p_c, loc_comma) = match cm2 {
                                    Err(e) => {
                                        return Err(e);
                                    }
                                    Ok(x) => x,
                                };
                                arms.push(Arm { catch_id, pat, exp: body });
                                proof {
                                    assert(step_pos(tv, cur as int, p_c as int) == p_c as int);
                                }
                                lloc = loc_comma;
                                cur = p_c;
                            }
                        }
                    }
                }
            }
        }
    }
}

#[verifier::loop_isolation(false)]
fn parse_let(toks: &Vec<(Token, TokenLoc)>, pos: usize) -> (r: Result<
    Option<(usize, Exp)>,
    String,
>)
    requires
        pos <= toks@.len(),
    ensures
        popt_view(r) == spec_parse_let(pairs_view(toks@), pos as int),
        (match r {
            Ok(Some((p, _))) => pos < p <= toks@.len(),
            Err(_) => pos < toks@.len(),
            _ => true,
        }),
    decreases toks@.len() + 2 - pos, 0int,
{
    broadcast use lemma_pairs_view_len, lemma_pairs_view_index;
    broadcast use crate::exp::lemma_binds_view_push;

    let ghost tv = pairs_view(toks@);
    let lt = accept_token(toks, pos, &Token::Let);
    match lt {
        None => Ok(None),
        Some((p0, loc)) => {
            proof {
                assert(step_pos(tv, pos as int, p0 as int) == p0 as int);
            }
            let ghost binds_goal = spec_parse_binds(tv, p0 as int, Seq::empty());
            let mut cur = p0;
            let mut binds: Vec<(String, Exp)> = Vec::new();
            proof {
                assert(binds_view(binds@) =~= Seq::<(Seq<char>, ExpV)>::empty());
            }
            loop
                invariant
                    pos < cur <= toks@.len(),
                    spec_parse_binds(tv, cur as int, binds_view(binds@)) == binds_goal,
                decreases toks@.len() - cur,
            {
                let inm = accept_token(toks, cur, &Token::In);
                match inm {
                    Some((p_in, last_loc)) => {
                        proof {
                            assert(step_pos(tv, pos as int, p_in as int) == p_in as int);
                        }
                        let body_r = parse_exp(toks, p_in);
                        match body_r {
                            Err(e) => {
                                return Err(e);
                            }
                            Ok(None) => {
                                return Err(let_exp_err(&last_loc));
                            }
                            Ok(Some((p2, body))) => {
                                let result = Exp(
                                    Node::Let { exp: Box::new(body), binds },
                                    mk_annot(loc),
                                );
                                return Ok(Some((p2, result)));
                            }
                        }
                    }
                    None => {}
                }
                let idr = expect_identifier(toks, cur, "while parsing let expression");
                let (p1, id, _idloc) = match idr {
                    Err(e) => {
                        return Err(e);
                    }
                    Ok(x) => x,
                };
                let asr = expect_token(toks, p1, Token::Assign, "while parsing let binding");
                let (p2, loc_a) = match asr {
                    Err(e) => {
                        return Err(e);
                    }
                    Ok(x) => x,
                };
                let er = parse_exp(toks, p2);
                let (p3, e) = match er {
                    Err(e) => {
                        return Err(e);
                    }
                    Ok(None) => {
                        let d = tok_desc_exec(toks, p2);
                        return Err(exp_after_err(&d, &loc_a, "while parsing let binding"));
                    }
                    Ok(Some(x)) => x,
                };
                let cr = expect_token(toks, p3, Token::Comma, "while parsing let expression");
                let (p4, _) = match cr {
                    Err(e) => {
                        return Err(e);
                    }
                    Ok(x) => x,
                };
                binds.push((id, e));
                proof {
                    assert(step_pos(tv, cur as int, p4 as int) == p4 as int);
                }
                cur = p4;
            }
        }
    }
}

#[verifier::loop_isolation(false)]
fn parse_function(toks: &Vec<(Token, TokenLoc)>, pos: usize) -> (r: Result<
    Option<(usize, Exp)>,
    String,
>)
    requires
        pos <= toks@.len(),
    ensures
        popt_view(r) == spec_parse_function(pairs_view(toks@), pos as int),
        (match r {
            Ok(Some((p, _))) => pos < p <= toks@.len(),
            Err(_) => pos < toks@.len(),
            _ => true,
        }),
    decreases toks@.len() + 2 - pos, 0int,
{
    broadcast use lemma_pairs_view_len, lemma_pairs_view_index;

    let ghost tv = pairs_view(toks@);
    let idm = accept_identifier(toks, pos);
    match idm {
        None => Ok(None),
        Some((p1, arg, loc)) => {
            let cm = accept_token(toks, p1, &Token::Colon);
            match cm {
                None => Ok(None),
                Some((p2, _)) => {
                    proof {
                        assert(step_pos(tv, pos as int, p2 as int) == p2 as int);
                    }
                    let body_r = parse_exp(toks, p2);
                    match body_r {
                        Err(e) => Err(e),
                        Ok(None) => {
                            let d = tok_desc_exec(toks, p2);
                            let at = if p2 < toks.len() {
                                toks[p2].1.clone()
                            } else {
                                loc.clone()
                            };
                            Err(func_body_err(&d, &at, &loc))
                        }
                        Ok(Some((p3, body))) => Ok(
                            Some(
                                (
                                    p3,
                                    Exp(
                                        Node::Function { arg, exp: Box::new(body) },
                                        mk_annot(loc),
                                    ),
                                ),
                            ),
                        ),
                    }
                }
            }
        }
    }
}

fn parse_identifier(toks: &Vec<(Token, TokenLoc)>, pos: usize) -> (r: Result<
    Option<(usize, Exp)>,
    String,
>)
    requires
        pos <= toks@.len(),
    ensures
        (match r {
            Ok(Some((p, e))) => spec_parse_identifier(pairs_view(toks@), pos as int) == Some(
                (p as int, e@),
            ) && pos < p <= toks@.len(),
            Ok(None) => spec_parse_identifier(pairs_view(toks@), pos as int) is None,
            Err(_) => false,
        }),
{
    broadcast use lemma_pairs_view_len, lemma_pairs_view_index;

    let idm = accept_identifier(toks, pos);
    match idm {
        Some((p, id, loc)) => {
            let ghost idv = id@;
            let ghost locv = loc@;
            let e = Exp(Node::Identifier(id), mk_annot(loc));
            proof {
                assert(e@ == (ExpV { node: NodeV::Identifier(idv), annot: parse_annot(locv) }));
            }
            Ok(Some((p, e)))
        }
        None => Ok(None),
    }
}

fn parse_symbol(toks: &Vec<(Token, TokenLoc)>, pos: usize) -> (r: Result<
    Option<(usize, Exp)>,
    String,
>)
    requires
        pos <= toks@.len(),
    ensures
        (match r {
            Ok(Some((p, e))) => spec_parse_symbol(pairs_view(toks@), pos as int) == Some(
                (p as int, e@),
            ) && pos < p <= toks@.len(),
            Ok(None) => spec_parse_symbol(pairs_view(toks@), pos as int) is None,
            Err(_) => false,
        }),
{
    broadcast use lemma_pairs_view_len, lemma_pairs_view_index;

    if pos < toks.len() {
        match &toks[pos].0 {
            Token::Symbol(sym) => {
                return Ok(
                    Some(
                        (
                            pos + 1,
                            Exp(Node::Symbol(sym.clone()), mk_annot(toks[pos].1.clone())),
                        ),
                    ),
                );
            }
            _ => {}
        }
    }
    Ok(None)
}

/// What parsing a whole stream means: one expression covering every token.
pub open spec fn spec_parse(toks: Seq<(TokenV, LocV)>) -> Result<ExpV, Seq<char>> {
    match spec_parse_exp(toks, 0) {
        Err(e) => Err(e),
        Ok(None) => Err(
            exp_err_text(tok_desc(toks, 0), "while parsing root expression"@),
        ),
        Ok(Some((p, e))) => {
            if p < toks.len() {
                Err(eof_err_text(toks[p].0, toks[p].1))
            } else {
                Ok(e)
            }
        }
    }
}

/// Converts a stream of tokens into an abstract syntax tree.
pub fn parse(toks: Vec<(Token, TokenLoc)>) -> (r: Result<Exp, String>)
    ensures
        (match r {
            Ok(e) => spec_parse(pairs_view(toks@)) == Ok::<ExpV, Seq<char>>(e@),
            Err(s) => spec_parse(pairs_view(toks@)) == Err::<ExpV, Seq<char>>(s@),
        }),
{
    broadcast use lemma_pairs_view_len, lemma_pairs_view_index;

    let first = parse_exp(&toks, 0);
    match first {
        Err(e) => Err(e),
        Ok(None) => {
            let d = tok_desc_exec(&toks, 0);
            Err(exp_err(&d, "while parsing root expression"))
        }
        Ok(Some((p, e))) => {
            if p < toks.len() {
                Err(eof_err(&toks[p].0, &toks[p].1))
            } else {
                Ok(e)
            }
        }
    }
}

} // verus!
