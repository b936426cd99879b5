//! The rewrite passes and their driver. Each pass rewrites the root of
//! the tree it is given and leaves the children alone; the driver walks
//! the tree bottom-up applying the passes at every node, and repeats the
//! walk a fixed number of rounds, ample for the rewrites to settle. A
//! tree the walk no longer changes is left exactly as it is, however many
//! rounds remain.

use vstd::prelude::*;
use crate::exp::{
    arm_view, arms_view, binds_view, lemma_arms_view_index, lemma_arms_view_len, lemma_arms_view_push,
    lemma_binds_view_index, lemma_binds_view_len, spec_uses_id, spec_union_from_set, Arm, ArmV,
    Exp, ExpV, Node, NodeV, Pat, PatV,
};
use crate::symset::SymSet;
use crate::types::{Annot, AnnotV};

verus! {

/// The let bindings turned into nested applications, rightmost binding
/// innermost.
pub open spec fn lets_fold(binds: Seq<(Seq<char>, ExpV)>, body: ExpV) -> ExpV
    decreases binds.len(),
{
    if binds.len() == 0 {
        body
    } else {
        let (id, b) = binds.last();
        lets_fold(
            binds.drop_last(),
            ExpV {
                node: NodeV::Application {
                    func: Box::new(
                        ExpV {
                            node: NodeV::Function { arg: id, exp: Box::new(body) },
                            annot: b.annot,
                        },
                    ),
                    arg: Box::new(b),
                },
                annot: b.annot,
            },
        )
    }
}

/// What removing a let does: `let x = e in body` becomes `(x: body) e`,
/// repeated for each binding from the right; any other node is untouched.
pub open spec fn spec_remove_lets(e: ExpV) -> ExpV {
    match e.node {
        NodeV::Let { exp, binds } => ExpV { node: lets_fold(binds, *exp).node, annot: e.annot },
        _ => e,
    }
}

/// If the given expression is a let expression, it is rewritten into
/// function applications.
#[verifier::loop_isolation(false)]
pub fn remove_lets(ast: Exp) -> (r: Exp)
    ensures
        r@ == spec_remove_lets(ast@),
{
    broadcast use lemma_binds_view_len, lemma_binds_view_index;

    proof {
        reveal_with_fuel(crate::exp::exp_view, 4);
        reveal_with_fuel(crate::exp::node_view, 4);
        reveal_with_fuel(crate::exp::pat_view, 4);
        reveal_with_fuel(crate::exp::arm_view, 4);
    }

    let Exp(node, annot) = ast;
    match node {
        Node::Let { exp, binds } => {
            let ghost bv = crate::exp::binds_view(binds@);
            let mut body = *exp;
            let mut binds = binds;
            while binds.len() > 0
                invariant
                    lets_fold(crate::exp::binds_view(binds@), body@) == lets_fold(bv, exp@),
                decreases binds@.len(),
            {
                let ghost pre = binds@;
                let b = binds.pop();
                let (id, bound) = match b {
                    Some(x) => x,
                    None => {
                        proof {
                            assert(false);
                        }
                        unreached()
                    }
                };
                proof {
                    assert(binds@ =~= pre.drop_last());
                    assert(crate::exp::binds_view(pre).last() == (id@, bound@));
                    assert(crate::exp::binds_view(pre).drop_last() =~= crate::exp::binds_view(
                        binds@,
                    )) by {
                        assert forall|k: int|
                            0 <= k < crate::exp::binds_view(pre).drop_last().len()
                                implies crate::exp::binds_view(pre).drop_last()[k]
                            == crate::exp::binds_view(binds@)[k] by {
                            assert(crate::exp::binds_view(pre)[k] == (
                                pre[k].0@,
                                crate::exp::exp_view(pre[k].1),
                            ));
                        }
                    }
                }
                let ghost prev_body = body@;
                let ghost idv = id@;
                let ghost boundv = bound@;
                let fa = bound.1.clone();
                let fa2 = bound.1.clone();
                body = Exp(
                    Node::Application {
                        func: Box::new(Exp(Node::Function { arg: id, exp: Box::new(body) }, fa)),
                        arg: Box::new(bound),
                    },
                    fa2,
                );
                proof {
                    assert(body@ =~= (ExpV {
                        node: NodeV::Application {
                            func: Box::new(
                                ExpV {
                                    node: NodeV::Function { arg: idv, exp: Box::new(prev_body) },
                                    annot: boundv.annot,
                                },
                            ),
                            arg: Box::new(boundv),
                        },
                        annot: boundv.annot,
                    }));
                    assert(lets_fold(crate::exp::binds_view(binds@), body@) == lets_fold(
                        crate::exp::binds_view(pre),
                        prev_body,
                    ));
                }
            }
            let ghost bodyv = body@;
            let Exp(new_node, _) = body;
            let result = Exp(new_node, annot);
            proof {
                assert(crate::exp::binds_view(binds@).len() == 0);
                assert(result@ =~= spec_remove_lets(ast@));
            }
            result
        }
        n => {
            let result = Exp(n, annot);
            proof {
                assert(result@ =~= spec_remove_lets(ast@));
            }
            result
        }
    }
}

/// What expanding the whole-alphabet patterns of a match does: each `any`
/// pattern becomes the union of the alphabet, annotated like the arm body.
pub open spec fn any_arms(arms: Seq<ArmV>, alphabet: Seq<Seq<char>>, acc: Seq<ArmV>) -> Seq<ArmV>
    decreases arms.len(),
{
    if arms.len() == 0 {
        acc
    } else {
        let arm = arms[0];
        let new_arm = ArmV {
            catch_id: arm.catch_id,
            pat: match arm.pat {
                PatV::Any => PatV::Union(spec_union_from_set(alphabet, arm.exp.annot)),
                p => p,
            },
            exp: arm.exp,
        };
        any_arms(arms.drop_first(), alphabet, acc.push(new_arm))
    }
}

pub open spec fn spec_remove_any(e: ExpV, alphabet: Seq<Seq<char>>) -> ExpV {
    match e.node {
        NodeV::Match { exp, arms } => ExpV {
            node: NodeV::Match { exp, arms: any_arms(arms, alphabet, Seq::empty()) },
            annot: e.annot,
        },
        _ => e,
    }
}

/// If the given expression is a match expression with `any` patterns,
/// they are expanded into unions over the alphabet.
#[verifier::loop_isolation(false)]
pub fn remove_any(ast: Exp, alphabet: &SymSet) -> (r: Exp)
    requires
        alphabet@.len() > 0,
    ensures
        r@ == spec_remove_any(ast@, alphabet@),
{
    broadcast use lemma_arms_view_len, lemma_arms_view_index, lemma_arms_view_push;

    let Exp(node, annot) = ast;
    match node {
        Node::Match { exp, arms } => {
            let ghost arms0 = arms@;
            let ghost av = arms_view(arms0);
            let mut arms = arms;
            let mut out: Vec<Arm> = Vec::new();
            proof {
                assert(arms_view(out@) =~= Seq::<ArmV>::empty());
            }
            while arms.len() > 0
                invariant
                    any_arms(arms_view(arms@), alphabet@, arms_view(out@)) == any_arms(
                        av,
                        alphabet@,
                        Seq::empty(),
                    ),
                decreases arms@.len(),
            {
                let ghost pre = arms@;
                let arm = arms.remove(0);
                proof {
                    assert(arms@ =~= pre.drop_first());
                    assert(arms_view(pre)[0] == arm_view(arm));
                    assert(arms_view(pre).drop_first() =~= arms_view(arms@)) by {
                        assert forall|k: int|
                            0 <= k < arms_view(pre).drop_first().len() implies arms_view(
                            pre,
                        ).drop_first()[k] == arms_view(arms@)[k] by {
                            assert(arms_view(pre)[k + 1] == arm_view(pre[k + 1]));
                        }
                    }
                }
                let ghost armv = arm_view(arm);
                let ghost out_pre = arms_view(out@);
                let Arm { catch_id, pat, exp: arm_exp } = arm;
                let new_pat = match pat {
                    Pat::Any => Pat::Union(Exp::union_from_set(alphabet, &arm_exp.1)),
                    p => p,
                };
                out.push(Arm { catch_id, pat: new_pat, exp: arm_exp });
                proof {
                    let new_armv = ArmV {
                        catch_id: armv.catch_id,
                        pat: (match armv.pat {
                            PatV::Any => PatV::Union(
                                spec_union_from_set(alphabet@, armv.exp.annot),
                            ),
                            p => p,
                        }),
                        exp: armv.exp,
                    };
                    assert(arm_view(out@.last()) == new_armv);
                    assert(arms_view(out@) == out_pre.push(new_armv));
                }
            }
            proof {
                assert(arms_view(arms@).len() == 0);
            }
            let result = Exp(Node::Match { exp, arms: out }, annot);
            proof {
                assert(result@ =~= spec_remove_any(ast@, alphabet@));
            }
            result
        }
        n => {
            let result = Exp(n, annot);
            proof {
                assert(result@ =~= spec_remove_any(ast@, alphabet@));
            }
            result
        }
    }
}

/// The arms of the match a tape read expands into: one arm per alphabet
/// letter, each matching that letter and yielding it.
pub open spec fn get_arms(alphabet: Seq<Seq<char>>, a: AnnotV, acc: Seq<ArmV>) -> Seq<ArmV>
    decreases alphabet.len(),
{
    if alphabet.len() == 0 {
        acc
    } else {
        let sym = ExpV { node: NodeV::Symbol(alphabet[0]), annot: a };
        get_arms(
            alphabet.drop_first(),
            a,
            acc.push(ArmV { catch_id: None, pat: PatV::Union(sym), exp: sym }),
        )
    }
}

/// What replacing a tape read does: `get t` becomes a match on `t` with
/// one arm per alphabet letter, each yielding its own letter. The new
/// symbol nodes carry the symbol type at the application's location.
pub open spec fn spec_remove_gets(e: ExpV, alphabet: Seq<Seq<char>>) -> ExpV {
    match e.node {
        NodeV::Application { func, arg } => {
            if func.node == NodeV::Identifier("get"@) {
                ExpV {
                    node: NodeV::Match {
                        exp: arg,
                        arms: get_arms(
                            alphabet,
                            AnnotV { ty: crate::types::TypeV::Symbol, loc: e.annot.loc },
                            Seq::empty(),
                        ),
                    },
                    annot: e.annot,
                }
            } else {
                e
            }
        }
        _ => e,
    }
}

/// If the given expression applies the tape read primitive, it is
/// replaced by a match over the alphabet.
#[verifier::loop_isolation(false)]
pub fn remove_gets(ast: Exp, alphabet: &SymSet) -> (r: Exp)
    ensures
        r@ == spec_remove_gets(ast@, alphabet@),
{
    broadcast use lemma_arms_view_len, lemma_arms_view_index, lemma_arms_view_push;

    proof {
        reveal_with_fuel(crate::exp::exp_view, 4);
        reveal_with_fuel(crate::exp::node_view, 4);
        reveal_with_fuel(crate::exp::pat_view, 4);
        reveal_with_fuel(crate::exp::arm_view, 4);
    }
    let ghost ev = ast@;
    let Exp(node, annot) = ast;
    match node {
        Node::Application { func, arg } => {
            let is_get = match &func.0 {
                Node::Identifier(id) => {
                    let g = "get".to_owned();
                    *id == g
                }
                _ => false,
            };
            if is_get {
                let sym_annot = Annot(crate::types::Type::Symbol, annot.1.clone());
                let ghost sav = sym_annot@;
                proof {
                    assert(sav == (AnnotV { ty: crate::types::TypeV::Symbol, loc: ev.annot.loc }));
                }
                let mut out: Vec<Arm> = Vec::new();
                let mut i: usize = 0;
                proof {
                    assert(arms_view(out@) =~= Seq::<ArmV>::empty());
                    assert(alphabet@.subrange(0, alphabet@.len() as int) =~= alphabet@);
                }
                let n = alphabet.len();
                while i < n
                    invariant
                        i <= n,
                        n == alphabet@.len(),
                        get_arms(
                            alphabet@.subrange(i as int, alphabet@.len() as int),
                            sav,
                            arms_view(out@),
                        ) == get_arms(alphabet@, sav, Seq::empty()),
                    decreases n - i,
                {
                    let s = alphabet.get(i).clone();
                    let sym = Exp(Node::Symbol(s), sym_annot.clone());
                    let sym2 = sym.clone();
                    let ghost symv = sym@;
                    proof {
                        assert(symv == (ExpV {
                            node: NodeV::Symbol(alphabet@[i as int]),
                            annot: sav,
                        }));
                    }
                    out.push(Arm { catch_id: None, pat: Pat::Union(sym), exp: sym2 });
                    proof {
                        let suffix = alphabet@.subrange(i as int, alphabet@.len() as int);
                        assert(suffix[0] == alphabet@[i as int]);
                        assert(suffix.drop_first() =~= alphabet@.subrange(
                            i + 1,
                            alphabet@.len() as int,
                        ));
                        assert(arm_view(out@.last()) == (ArmV {
                            catch_id: None,
                            pat: PatV::Union(symv),
                            exp: symv,
                        }));
                    }
                    i = i + 1;
                }
                proof {
                    assert(alphabet@.subrange(
                        alphabet@.len() as int,
                        alphabet@.len() as int,
                    ).len() == 0);
                }
                let result = Exp(Node::Match { exp: arg, arms: out }, annot);
                proof {
                    assert(result@ =~= spec_remove_gets(ev, alphabet@));
                }
                result
            } else {
                let result = Exp(Node::Application { func, arg }, annot);
                proof {
                    assert(result@ =~= spec_remove_gets(ev, alphabet@));
                }
                result
            }
        }
        n => {
            let result = Exp(n, annot);
            proof {
                assert(result@ =~= spec_remove_gets(ev, alphabet@));
            }
            result
        }
    }
}

/// Whether a function expression is the identity function.
pub open spec fn spec_is_identity(e: ExpV) -> bool {
    match e.node {
        NodeV::Function { arg, exp } => match exp.node {
            NodeV::Identifier(id) => id == arg,
            _ => false,
        },
        _ => false,
    }
}

fn is_identity(e: &Exp) -> (r: bool)
    ensures
        r == spec_is_identity(e@),
{
    proof {
        reveal_with_fuel(crate::exp::exp_view, 4);
        reveal_with_fuel(crate::exp::node_view, 4);
        reveal_with_fuel(crate::exp::pat_view, 4);
        reveal_with_fuel(crate::exp::arm_view, 4);
    }
    let r = match &e.0 {
        Node::Function { arg, exp } => match &exp.0 {
            Node::Identifier(id) => *id == *arg,
            _ => false,
        },
        _ => false,
    };
    proof {
        assert(r == spec_is_identity(e@));
    }
    r
}

/// The function under an application shape `x: f x`, if the expression
/// has that shape.
pub open spec fn spec_is_application(e: ExpV) -> Option<ExpV> {
    match e.node {
        NodeV::Function { arg: arg_id, exp } => match exp.node {
            NodeV::Application { func, arg } => match arg.node {
                NodeV::Identifier(id) => if id == arg_id {
                    Some(*func)
                } else {
                    None
                },
                _ => None,
            },
            _ => None,
        },
        _ => None,
    }
}

fn is_application(e: &Exp) -> (r: Option<Exp>)
    ensures
        (match r {
            Some(f) => spec_is_application(e@) == Some(f@),
            None => spec_is_application(e@) is None,
        }),
{
    proof {
        reveal_with_fuel(crate::exp::exp_view, 4);
        reveal_with_fuel(crate::exp::node_view, 4);
        reveal_with_fuel(crate::exp::pat_view, 4);
        reveal_with_fuel(crate::exp::arm_view, 4);
    }
    let r = match &e.0 {
        Node::Function { arg: arg_id, exp } => match &exp.0 {
            Node::Application { func, arg } => match &arg.0 {
                Node::Identifier(id) => {
                    if *id == *arg_id {
                        proof {
                            reveal_with_fuel(crate::exp::exp_view, 6);
                            reveal_with_fuel(crate::exp::node_view, 6);
                        }
                        Some((**func).clone())
                    } else {
                        None
                    }
                }
                _ => None,
            },
            _ => None,
        },
        _ => None,
    };
    proof {
        reveal_with_fuel(crate::exp::exp_view, 6);
        reveal_with_fuel(crate::exp::node_view, 6);
        match &r {
            Some(f) => {
                assert(spec_is_application(e@) == Some(f@));
            }
            None => {
                assert(spec_is_application(e@) is None);
            }
        }
    }
    r
}

/// The body of a function that never uses its argument, if the expression
/// is such a function.
pub open spec fn spec_is_unused(e: ExpV) -> Option<ExpV> {
    match e.node {
        NodeV::Function { arg, exp } => if !spec_uses_id(*exp, arg) {
            Some(*exp)
        } else {
            None
        },
        _ => None,
    }
}

fn is_unused(e: &Exp) -> (r: Option<Exp>)
    ensures
        (match r {
            Some(b) => spec_is_unused(e@) == Some(b@),
            None => spec_is_unused(e@) is None,
        }),
{
    proof {
        reveal_with_fuel(crate::exp::exp_view, 4);
        reveal_with_fuel(crate::exp::node_view, 4);
        reveal_with_fuel(crate::exp::pat_view, 4);
        reveal_with_fuel(crate::exp::arm_view, 4);
    }
    match &e.0 {
        Node::Function { arg, exp } => {
            if !exp.uses_id(arg) {
                Some((**exp).clone())
            } else {
                None
            }
        }
        _ => None,
    }
}

/// What removing a trivial application does: applying the identity gives
/// the argument, applying `x: f x` applies `f`, and applying a function
/// that ignores its argument gives its body.
pub open spec fn spec_remove_trivial(e: ExpV) -> ExpV {
    match e.node {
        NodeV::Application { func, arg } => {
            if spec_is_identity(*func) {
                ExpV { node: arg.node, annot: e.annot }
            } else if spec_is_application(*func) is Some {
                ExpV {
                    node: NodeV::Application {
                        func: Box::new(spec_is_application(*func)->Some_0),
                        arg,
                    },
                    annot: e.annot,
                }
            } else if spec_is_unused(*func) is Some {
                ExpV { node: spec_is_unused(*func)->Some_0.node, annot: e.annot }
            } else {
                e
            }
        }
        _ => e,
    }
}

/// If the given expression is a trivial application of a function, it is
/// simplified.
pub fn remove_trivial(exp: Exp) -> (r: Exp)
    ensures
        r@ == spec_remove_trivial(exp@),
{
    proof {
        reveal_with_fuel(crate::exp::exp_view, 4);
        reveal_with_fuel(crate::exp::node_view, 4);
        reveal_with_fuel(crate::exp::pat_view, 4);
        reveal_with_fuel(crate::exp::arm_view, 4);
    }
    let ghost ev = exp@;
    let Exp(node, annot) = exp;
    match node {
        Node::Application { func, arg } => {
            if is_identity(&func) {
                let ghost argv = arg@;
                let Exp(arg_node, _) = *arg;
                let result = Exp(arg_node, annot);
                proof {
                    assert(result@ =~= (ExpV { node: argv.node, annot: ev.annot }));
                }
                result
            } else {
                let ap = is_application(&func);
                match ap {
                    Some(f) => {
                        let ghost fv = f@;
                        let result = Exp(
                            Node::Application { func: Box::new(f), arg },
                            annot,
                        );
                        proof {
                            assert(result@ =~= spec_remove_trivial(ev));
                        }
                        result
                    }
                    None => {
                        let un = is_unused(&func);
                        match un {
                            Some(b) => {
                                let ghost bv = b@;
                                let Exp(b_node, _) = b;
                                let result = Exp(b_node, annot);
                                proof {
                                    assert(result@ =~= (ExpV {
                                        node: bv.node,
                                        annot: ev.annot,
                                    }));
                                }
                                result
                            }
                            None => {
                                let result = Exp(Node::Application { func, arg }, annot);
                                proof {
                                    assert(result@ =~= ev);
                                }
                                result
                            }
                        }
                    }
                }
            }
        }
        n => {
            let result = Exp(n, annot);
            proof {
                assert(result@ =~= spec_remove_trivial(ev));
            }
            result
        }
    }
}

/// The arms of a hoisted match: each arm's body becomes an application of
/// the body to `arg` (or of `func` to the body, by `body_is_func`).
pub open spec fn moved_arms(arms: Seq<ArmV>, other: ExpV, body_is_func: bool, a: AnnotV, acc: Seq<
    ArmV,
>) -> Seq<ArmV>
    decreases arms.len(),
{
    if arms.len() == 0 {
        acc
    } else {
        let arm = arms[0];
        let new_exp = if body_is_func {
            ExpV {
                node: NodeV::Application { func: Box::new(arm.exp), arg: Box::new(other) },
                annot: a,
            }
        } else {
            ExpV {
                node: NodeV::Application { func: Box::new(other), arg: Box::new(arm.exp) },
                annot: a,
            }
        };
        moved_arms(
            arms.drop_first(),
            other,
            body_is_func,
            a,
            acc.push(ArmV { catch_id: arm.catch_id, pat: arm.pat, exp: new_exp }),
        )
    }
}

/// What hoisting a match above an application does: applying a match
/// applies each arm to the argument; applying a function to a match
/// applies it inside each arm.
pub open spec fn spec_move_matches(e: ExpV) -> ExpV {
    match e.node {
        NodeV::Application { func, arg } => match func.node {
            NodeV::Match { exp, arms } => ExpV {
                node: NodeV::Match {
                    exp,
                    arms: moved_arms(arms, *arg, true, e.annot, Seq::empty()),
                },
                annot: e.annot,
            },
            _ => match arg.node {
                NodeV::Match { exp, arms } => ExpV {
                    node: NodeV::Match {
                        exp,
                        arms: moved_arms(arms, *func, false, e.annot, Seq::empty()),
                    },
                    annot: e.annot,
                },
                _ => e,
            },
        },
        _ => e,
    }
}

/// If the given expression applies a match, or applies something to a
/// match, the match is hoisted above the application.
#[verifier::loop_isolation(false)]
pub fn move_matches(ast: Exp) -> (r: Exp)
    ensures
        r@ == spec_move_matches(ast@),
{
    broadcast use lemma_arms_view_len, lemma_arms_view_index, lemma_arms_view_push;

    proof {
        reveal_with_fuel(crate::exp::exp_view, 4);
        reveal_with_fuel(crate::exp::node_view, 4);
        reveal_with_fuel(crate::exp::pat_view, 4);
        reveal_with_fuel(crate::exp::arm_view, 4);
    }
    let ghost ev = ast@;
    let Exp(node, annot) = ast;
    match node {
        Node::Application { func, arg } => {
            let func_is_match = matches!(&func.0, Node::Match { .. });
            let arg_is_match = matches!(&arg.0, Node::Match { .. });
            if func_is_match {
                let Exp(fnode, _) = *func;
                match fnode {
                    Node::Match { exp, arms } => {
                        let out = move_arms_exec(arms, &arg, true, &annot);
                        let result = Exp(Node::Match { exp, arms: out }, annot);
                        proof {
                            assert(result@ =~= spec_move_matches(ev));
                        }
                        result
                    }
                    _ => {
                        proof {
                            assert(false);
                        }
                        unreached()
                    }
                }
            } else if arg_is_match {
                let Exp(anode, _) = *arg;
                match anode {
                    Node::Match { exp, arms } => {
                        let out = move_arms_exec(arms, &func, false, &annot);
                        let result = Exp(Node::Match { exp, arms: out }, annot);
                        proof {
                            assert(result@ =~= spec_move_matches(ev));
                        }
                        result
                    }
                    _ => {
                        proof {
                            assert(false);
                        }
                        unreached()
                    }
                }
            } else {
                let result = Exp(Node::Application { func, arg }, annot);
                proof {
                    assert(result@ =~= spec_move_matches(ev));
                }
                result
            }
        }
        n => {
            let result = Exp(n, annot);
            proof {
                assert(result@ =~= spec_move_matches(ev));
            }
            result
        }
    }
}

#[verifier::loop_isolation(false)]
fn move_arms_exec(arms: Vec<Arm>, other: &Exp, body_is_func: bool, a: &Annot) -> (r: Vec<Arm>)
    ensures
        arms_view(r@) == moved_arms(arms_view(arms@), other@, body_is_func, a@, Seq::empty()),
{
    broadcast use lemma_arms_view_len, lemma_arms_view_index, lemma_arms_view_push;

    let ghost av = arms_view(arms@);
    let mut arms = arms;
    let mut out: Vec<Arm> = Vec::new();
    proof {
        assert(arms_view(out@) =~= Seq::<ArmV>::empty());
    }
    while arms.len() > 0
        invariant
            moved_arms(arms_view(arms@), other@, body_is_func, a@, arms_view(out@)) == moved_arms(
                av,
                other@,
                body_is_func,
                a@,
                Seq::empty(),
            ),
        decreases arms@.len(),
    {
        let ghost pre = arms@;
        let arm = arms.remove(0);
        proof {
            assert(arms@ =~= pre.drop_first());
            assert(arms_view(pre)[0] == arm_view(arm));
            assert(arms_view(pre).drop_first() =~= arms_view(arms@)) by {
                assert forall|k: int|
                    0 <= k < arms_view(pre).drop_first().len() implies arms_view(
                    pre,
                ).drop_first()[k] == arms_view(arms@)[k] by {
                    assert(arms_view(pre)[k + 1] == arm_view(pre[k + 1]));
                }
            }
        }
        let ghost armv = arm_view(arm);
        let Arm { catch_id, pat, exp: arm_exp } = arm;
        let new_exp = if body_is_func {
            Exp(
                Node::Application { func: Box::new(arm_exp), arg: Box::new(other.clone()) },
                a.clone(),
            )
        } else {
            Exp(
                Node::Application { func: Box::new(other.clone()), arg: Box::new(arm_exp) },
                a.clone(),
            )
        };
        let ghost nev = new_exp@;
        out.push(Arm { catch_id, pat, exp: new_exp });
        proof {
            assert(arm_view(out@.last()) == (ArmV { catch_id: armv.catch_id, pat: armv.pat, exp: nev }));
        }
    }
    proof {
        assert(arms_view(arms@).len() == 0);
    }
    out
}

/// The first arm whose pattern is exactly the given symbol; arms whose
/// pattern is not a single symbol never match.
pub open spec fn find_arm(arms: Seq<ArmV>, sym: Seq<char>) -> Option<ExpV>
    decreases arms.len(),
{
    if arms.len() == 0 {
        None
    } else {
        let matches_sym = match arms[0].pat {
            PatV::Union(p) => p.node == NodeV::Symbol(sym),
            PatV::Any => false,
        };
        if matches_sym {
            Some(arms[0].exp)
        } else {
            find_arm(arms.drop_first(), sym)
        }
    }
}

/// What folding a constant match does: a match on a symbol picks the arm
/// with that symbol's pattern, and dies when none fits.
pub open spec fn spec_match_const(e: ExpV) -> ExpV {
    match e.node {
        NodeV::Match { exp, arms } => match exp.node {
            NodeV::Symbol(sym) => match find_arm(arms, sym) {
                Some(body) => body,
                None => ExpV { node: NodeV::Abort, annot: e.annot },
            },
            _ => e,
        },
        _ => e,
    }
}

/// If the given expression is a match on a symbol, the matching arm is
/// selected; a symbol no arm covers dies.
#[verifier::loop_isolation(false)]
pub fn match_const(ast: Exp) -> (r: Exp)
    ensures
        r@ == spec_match_const(ast@),
{
    broadcast use lemma_arms_view_len, lemma_arms_view_index;

    proof {
        reveal_with_fuel(crate::exp::exp_view, 4);
        reveal_with_fuel(crate::exp::node_view, 4);
        reveal_with_fuel(crate::exp::pat_view, 4);
        reveal_with_fuel(crate::exp::arm_view, 4);
    }
    let ghost ev = ast@;
    let Exp(node, annot) = ast;
    match node {
        Node::Match { exp, arms } => {
            let is_sym = matches!(&exp.0, Node::Symbol(_));
            if !is_sym {
                let result = Exp(Node::Match { exp, arms }, annot);
                proof {
                    assert(result@ =~= spec_match_const(ev));
                }
                return result;
            }
            let sym = match &exp.0 {
                Node::Symbol(s) => s.clone(),
                _ => {
                    proof {
                        assert(false);
                    }
                    unreached()
                }
            };
            let ghost av = arms_view(arms@);
            let ghost arms0 = arms@;
            let mut arms = arms;
            while arms.len() > 0
                invariant
                    find_arm(arms_view(arms@), sym@) == find_arm(av, sym@),
                    forall|k: int| 0 <= k < arms@.len() ==> #[trigger] arms0.contains(arms@[k]),
                decreases arms@.len(),
            {
                let ghost pre = arms@;
                let arm = arms.remove(0);
                proof {
                    assert(pre.contains(pre[0]));
                    assert(arms@ =~= pre.drop_first());
                    assert(arms_view(pre)[0] == arm_view(arm));
                    assert(arms_view(pre).drop_first() =~= arms_view(arms@)) by {
                        assert forall|k: int|
                            0 <= k < arms_view(pre).drop_first().len() implies arms_view(
                            pre,
                        ).drop_first()[k] == arms_view(arms@)[k] by {
                            assert(arms_view(pre)[k + 1] == arm_view(pre[k + 1]));
                        }
                    }
                    assert forall|k: int| 0 <= k < arms@.len() implies #[trigger] arms0.contains(
                        arms@[k],
                    ) by {
                        assert(arms@[k] == pre[k + 1]);
                    }
                }
                let ghost armv = arm_view(arm);
                let hit = match &arm.pat {
                    Pat::Union(p) => match &p.0 {
                        Node::Symbol(s) => *s == sym,
                        _ => false,
                    },
                    Pat::Any => false,
                };
                proof {
                    assert(hit == (match armv.pat {
                        PatV::Union(p) => p.node == NodeV::Symbol(sym@),
                        PatV::Any => false,
                    }));
                }
                if hit {
                    proof {
                        assert(find_arm(arms_view(pre), sym@) == Some(armv.exp));
                        assert(spec_match_const(ev) == armv.exp);
                    }
                    return arm.exp;
                }
                proof {
                    assert(find_arm(arms_view(pre), sym@) == find_arm(arms_view(arms@), sym@));
                }
            }
            proof {
                assert(arms_view(arms@).len() == 0);
                assert(find_arm(av, sym@) is None);
            }
            let result = Exp(Node::Abort, annot);
            proof {
                assert(result@ =~= spec_match_const(ev));
            }
            result
        }
        n => {
            let result = Exp(n, annot);
            proof {
                assert(result@ =~= spec_match_const(ev));
            }
            result
        }
    }
}

/// The arms whose pattern is not the dead branch.
pub open spec fn live_arms(arms: Seq<ArmV>, acc: Seq<ArmV>) -> Seq<ArmV>
    decreases arms.len(),
{
    if arms.len() == 0 {
        acc
    } else {
        let dead = match arms[0].pat {
            PatV::Union(p) => p.node is Abort,
            PatV::Any => false,
        };
        live_arms(
            arms.drop_first(),
            if dead {
                acc
            } else {
                acc.push(arms[0])
            },
        )
    }
}

/// What spreading the dead branch does: a match on a dead scrutinee dies;
/// arms whose pattern is dead are dropped, and a match left with no arms
/// dies too.
pub open spec fn spec_spread_aborts(e: ExpV) -> ExpV {
    match e.node {
        NodeV::Match { exp, arms } => {
            if exp.node is Abort {
                ExpV { node: NodeV::Abort, annot: e.annot }
            } else {
                let kept = live_arms(arms, Seq::empty());
                if kept.len() == 0 {
                    ExpV { node: NodeV::Abort, annot: e.annot }
                } else {
                    ExpV { node: NodeV::Match { exp, arms: kept }, annot: e.annot }
                }
            }
        }
        _ => e,
    }
}

/// If the given expression is a match on a dead branch, or all of its arms
/// are dead, it dies; dead arms are dropped.
#[verifier::loop_isolation(false)]
pub fn spread_aborts(ast: Exp) -> (r: Exp)
    ensures
        r@ == spec_spread_aborts(ast@),
{
    broadcast use lemma_arms_view_len, lemma_arms_view_index, lemma_arms_view_push;

    proof {
        reveal_with_fuel(crate::exp::exp_view, 4);
        reveal_with_fuel(crate::exp::node_view, 4);
        reveal_with_fuel(crate::exp::pat_view, 4);
        reveal_with_fuel(crate::exp::arm_view, 4);
    }
    let ghost ev = ast@;
    let Exp(node, annot) = ast;
    match node {
        Node::Match { exp, arms } => {
            if matches!(&exp.0, Node::Abort) {
                let result = Exp(Node::Abort, annot);
                proof {
                    assert(result@ =~= spec_spread_aborts(ev));
                }
                return result;
            }
            let ghost av = arms_view(arms@);
            let mut arms = arms;
            let mut out: Vec<Arm> = Vec::new();
            proof {
                assert(arms_view(out@) =~= Seq::<ArmV>::empty());
            }
            while arms.len() > 0
                invariant
                    live_arms(arms_view(arms@), arms_view(out@)) == live_arms(av, Seq::empty()),
                decreases arms@.len(),
            {
                let ghost pre = arms@;
                let arm = arms.remove(0);
                proof {
                    assert(arms@ =~= pre.drop_first());
                    assert(arms_view(pre)[0] == arm_view(arm));
                    assert(arms_view(pre).drop_first() =~= arms_view(arms@)) by {
                        assert forall|k: int|
                            0 <= k < arms_view(pre).drop_first().len() implies arms_view(
                            pre,
                        ).drop_first()[k] == arms_view(arms@)[k] by {
                            assert(arms_view(pre)[k + 1] == arm_view(pre[k + 1]));
                        }
                    }
                }
                let dead = match &arm.pat {
                    Pat::Union(p) => matches!(&p.0, Node::Abort),
                    Pat::Any => false,
                };
                if !dead {
                    out.push(arm);
                }
            }
            proof {
                assert(arms_view(arms@).len() == 0);
            }
            if out.len() == 0 {
                proof {
                    assert(arms_view(out@).len() == 0);
                    assert(live_arms(av, Seq::empty()).len() == 0);
                }
                let result = Exp(Node::Abort, annot);
                proof {
                    assert(result@ =~= spec_spread_aborts(ev));
                }
                result
            } else {
                let result = Exp(Node::Match { exp, arms: out }, annot);
                proof {
                    assert(arms_view(out@).len() > 0);
                    assert(result@ =~= spec_spread_aborts(ev));
                }
                result
            }
        }
        n => {
            let result = Exp(n, annot);
            proof {
                assert(result@ =~= spec_spread_aborts(ev));
            }
            result
        }
    }
}

/// One application of the passes at a node, in pipeline order: let
/// removal, whole-alphabet expansion and trivial-application removal; and
/// after the type checker also match hoisting, constant-match folding,
/// tape-read expansion and dead-branch spreading.
pub open spec fn spec_step(e: ExpV, alphabet: Seq<Seq<char>>, post: bool) -> ExpV {
    let e3 = spec_remove_trivial(spec_remove_any(spec_remove_lets(e), alphabet));
    if post {
        spec_spread_aborts(
            spec_remove_gets(spec_match_const(spec_move_matches(e3)), alphabet),
        )
    } else {
        e3
    }
}

/// One bottom-up walk: children first, then the passes at the node.
pub open spec fn spec_walk(e: ExpV, alphabet: Seq<Seq<char>>, post: bool) -> ExpV
    decreases e,
{
    let rebuilt = ExpV {
        node: match e.node {
            NodeV::Union { lhs, rhs } => NodeV::Union {
                lhs: Box::new(spec_walk(*lhs, alphabet, post)),
                rhs: Box::new(spec_walk(*rhs, alphabet, post)),
            },
            NodeV::Match { exp, arms } => NodeV::Match {
                exp: Box::new(spec_walk(*exp, alphabet, post)),
                arms: spec_walk_arms(arms, alphabet, post, Seq::empty()),
            },
            NodeV::Let { exp, binds } => NodeV::Let {
                exp: Box::new(spec_walk(*exp, alphabet, post)),
                binds: spec_walk_binds(binds, alphabet, post, Seq::empty()),
            },
            NodeV::Function { arg, exp } => NodeV::Function {
                arg,
                exp: Box::new(spec_walk(*exp, alphabet, post)),
            },
            NodeV::Application { func, arg } => NodeV::Application {
                func: Box::new(spec_walk(*func, alphabet, post)),
                arg: Box::new(spec_walk(*arg, alphabet, post)),
            },
            n => n,
        },
        annot: e.annot,
    };
    spec_step(rebuilt, alphabet, post)
}

pub open spec fn spec_walk_arms(
    arms: Seq<ArmV>,
    alphabet: Seq<Seq<char>>,
    post: bool,
    acc: Seq<ArmV>,
) -> Seq<ArmV>
    decreases arms,
{
    if arms.len() == 0 {
        acc
    } else {
        let arm = arms[0];
        let new_arm = ArmV {
            catch_id: arm.catch_id,
            pat: match arm.pat {
                PatV::Union(p) => PatV::Union(spec_walk(p, alphabet, post)),
                PatV::Any => PatV::Any,
            },
            exp: spec_walk(arm.exp, alphabet, post),
        };
        spec_walk_arms(arms.drop_first(), alphabet, post, acc.push(new_arm))
    }
}

pub open spec fn spec_walk_binds(
    binds: Seq<(Seq<char>, ExpV)>,
    alphabet: Seq<Seq<char>>,
    post: bool,
    acc: Seq<(Seq<char>, ExpV)>,
) -> Seq<(Seq<char>, ExpV)>
    decreases binds,
{
    if binds.len() == 0 {
        acc
    } else {
        let (id, b) = binds[0];
        spec_walk_binds(
            binds.drop_first(),
            alphabet,
            post,
            acc.push((id, spec_walk(b, alphabet, post))),
        )
    }
}

#[verifier::loop_isolation(false)]
#[verifier::rlimit(100)]
fn walk(ast: Exp, alphabet: &SymSet, post: bool) -> (r: Exp)
    requires
        alphabet@.len() > 0,
    ensures
        r@ == spec_walk(ast@, alphabet@, post),
    decreases ast,
{
    broadcast use lemma_arms_view_len, lemma_arms_view_index, lemma_arms_view_push;
    broadcast use lemma_binds_view_len, lemma_binds_view_index;
    broadcast use crate::exp::lemma_binds_view_push;

    let ghost ev = ast@;
    let ghost e0 = ast;
    let Exp(node, annot) = ast;
    let rebuilt: Exp = match node {
        Node::Union { lhs, rhs } => {
            let l2 = walk(*lhs, alphabet, post);
            let r2 = walk(*rhs, alphabet, post);
            Exp(Node::Union { lhs: Box::new(l2), rhs: Box::new(r2) }, annot)
        }
        Node::Match { exp, arms } => {
            let e2 = walk(*exp, alphabet, post);
            let ghost arms0 = arms@;
            let ghost goal = spec_walk_arms(arms_view(arms0), alphabet@, post, Seq::empty());
            let mut arms = arms;
            let mut out: Vec<Arm> = Vec::new();
            proof {
                assert(arms_view(out@) =~= Seq::<ArmV>::empty());
            }
            while arms.len() > 0
                invariant
                    spec_walk_arms(arms_view(arms@), alphabet@, post, arms_view(out@)) == goal,
                    forall|k: int| 0 <= k < arms@.len() ==> #[trigger] arms0.contains(arms@[k]),
                decreases arms@.len(),
            {
                let ghost pre = arms@;
                let arm = arms.remove(0);
                proof {
                    assert(pre.contains(pre[0]));
                    assert(arms0.contains(arm));
                    let j = choose|j: int| 0 <= j < arms0.len() && arms0[j] == arm;
                    assert(arm == arms0[j]);
                    assert(decreases_to!(arms0 => arms0[j]));
                    assert(decreases_to!(e0 => arm));
                    assert(decreases_to!(arm => arm.pat));
                    assert(decreases_to!(arm => arm.exp));
                    assert(arms@ =~= pre.drop_first());
                    assert(arms_view(pre)[0] == arm_view(arm));
                    assert(arms_view(pre).drop_first() =~= arms_view(arms@)) by {
                        assert forall|k: int|
                            0 <= k < arms_view(pre).drop_first().len() implies arms_view(
                            pre,
                        ).drop_first()[k] == arms_view(arms@)[k] by {
                            assert(arms_view(pre)[k + 1] == arm_view(pre[k + 1]));
                        }
                    }
                    assert forall|k: int| 0 <= k < arms@.len() implies #[trigger] arms0.contains(
                        arms@[k],
                    ) by {
                        assert(arms@[k] == pre[k + 1]);
                    }
                }
                let Arm { catch_id, pat, exp: arm_exp } = arm;
                let new_pat = match pat {
                    Pat::Union(p) => Pat::Union(walk(p, alphabet, post)),
                    Pat::Any => Pat::Any,
                };
                let new_exp = walk(arm_exp, alphabet, post);
                out.push(Arm { catch_id, pat: new_pat, exp: new_exp });
            }
            proof {
                assert(arms_view(arms@).len() == 0);
            }
            Exp(Node::Match { exp: Box::new(e2), arms: out }, annot)
        }
        Node::Let { exp, binds } => {
            let e2 = walk(*exp, alphabet, post);
            let ghost binds0 = binds@;
            let ghost goal = spec_walk_binds(binds_view(binds0), alphabet@, post, Seq::empty());
            let mut binds = binds;
            let mut out: Vec<(String, Exp)> = Vec::new();
            proof {
                assert(binds_view(out@) =~= Seq::<(Seq<char>, ExpV)>::empty());
            }
            while binds.len() > 0
                invariant
                    spec_walk_binds(binds_view(binds@), alphabet@, post, binds_view(out@))
                        == goal,
                    forall|k: int|
                        0 <= k < binds@.len() ==> #[trigger] binds0.contains(binds@[k]),
                decreases binds@.len(),
            {
                let ghost pre = binds@;
                let bind = binds.remove(0);
                proof {
                    assert(pre.contains(pre[0]));
                    assert(binds0.contains(bind));
                    let j = choose|j: int| 0 <= j < binds0.len() && binds0[j] == bind;
                    assert(bind == binds0[j]);
                    assert(decreases_to!(binds0 => binds0[j]));
                    assert(decreases_to!(e0 => bind));
                    assert(decreases_to!(bind => bind.1));
                    assert(binds@ =~= pre.drop_first());
                    assert(binds_view(pre)[0] == (bind.0@, crate::exp::exp_view(bind.1)));
                    assert(binds_view(pre).drop_first() =~= binds_view(binds@)) by {
                        assert forall|k: int|
                            0 <= k < binds_view(pre).drop_first().len() implies binds_view(
                            pre,
                        ).drop_first()[k] == binds_view(binds@)[k] by {
                            assert(binds_view(pre)[k + 1] == (
                                pre[k + 1].0@,
                                crate::exp::exp_view(pre[k + 1].1),
                            ));
                        }
                    }
                    assert forall|k: int| 0 <= k < binds@.len() implies #[trigger] binds0.contains(
                        binds@[k],
                    ) by {
                        assert(binds@[k] == pre[k + 1]);
                    }
                }
                let (id, bound) = bind;
                let new_bound = walk(bound, alphabet, post);
                out.push((id, new_bound));
            }
            proof {
                assert(binds_view(binds@).len() == 0);
            }
            Exp(Node::Let { exp: Box::new(e2), binds: out }, annot)
        }
        Node::Function { arg, exp } => {
            let b = walk(*exp, alphabet, post);
            Exp(Node::Function { arg, exp: Box::new(b) }, annot)
        }
        Node::Application { func, arg } => {
            let f2 = walk(*func, alphabet, post);
            let a2 = walk(*arg, alphabet, post);
            Exp(Node::Application { func: Box::new(f2), arg: Box::new(a2) }, annot)
        }
        n => Exp(n, annot),
    };
    proof {
        assert(rebuilt@ =~= (ExpV {
            node: match ev.node {
                NodeV::Union { lhs, rhs } => NodeV::Union {
                    lhs: Box::new(spec_walk(*lhs, alphabet@, post)),
                    rhs: Box::new(spec_walk(*rhs, alphabet@, post)),
                },
                NodeV::Match { exp, arms } => NodeV::Match {
                    exp: Box::new(spec_walk(*exp, alphabet@, post)),
                    arms: spec_walk_arms(arms, alphabet@, post, Seq::empty()),
                },
                NodeV::Let { exp, binds } => NodeV::Let {
                    exp: Box::new(spec_walk(*exp, alphabet@, post)),
                    binds: spec_walk_binds(binds, alphabet@, post, Seq::empty()),
                },
                NodeV::Function { arg, exp } => NodeV::Function {
                    arg,
                    exp: Box::new(spec_walk(*exp, alphabet@, post)),
                },
                NodeV::Application { func, arg } => NodeV::Application {
                    func: Box::new(spec_walk(*func, alphabet@, post)),
                    arg: Box::new(spec_walk(*arg, alphabet@, post)),
                },
                n => n,
            },
            annot: ev.annot,
        }));
    }
    let s1 = remove_lets(rebuilt);
    let s2 = remove_any(s1, alphabet);
    let s3 = remove_trivial(s2);
    if post {
        let s4 = move_matches(s3);
        let s5 = match_const(s4);
        let s6 = remove_gets(s5, alphabet);
        spread_aborts(s6)
    } else {
        s3
    }
}

/// The walk repeated `n` times.
pub open spec fn spec_iterate(e: ExpV, alphabet: Seq<Seq<char>>, post: bool, n: nat) -> ExpV
    decreases n,
{
    if n == 0 {
        e
    } else {
        spec_iterate(spec_walk(e, alphabet, post), alphabet, post, (n - 1) as nat)
    }
}

/// A tree the walk leaves unchanged is a fixed point: however many more
/// rounds run, it stays as it is. The driver's result is therefore the
/// fixed point of the walk whenever one is reached within its rounds.
pub proof fn lemma_iterate_fixed(e: ExpV, alphabet: Seq<Seq<char>>, post: bool, n: nat)
    requires
        spec_walk(e, alphabet, post) == e,
    ensures
        spec_iterate(e, alphabet, post, n) == e,
    decreases n,
{
    if n > 0 {
        lemma_iterate_fixed(e, alphabet, post, (n - 1) as nat);
    }
}

/// How many bottom-up rounds the driver runs.
pub const SIMPLIFY_ROUNDS: usize = 32;

#[verifier::loop_isolation(false)]
fn run_rounds(ast: Exp, alphabet: &SymSet, post: bool) -> (r: Exp)
    requires
        alphabet@.len() > 0,
    ensures
        r@ == spec_iterate(ast@, alphabet@, post, SIMPLIFY_ROUNDS as nat),
{
    let mut cur = ast;
    let mut n: usize = SIMPLIFY_ROUNDS;
    while n > 0
        invariant
            n <= SIMPLIFY_ROUNDS,
            spec_iterate(cur@, alphabet@, post, n as nat) == spec_iterate(
                ast@,
                alphabet@,
                post,
                SIMPLIFY_ROUNDS as nat,
            ),
        decreases n,
    {
        cur = walk(cur, alphabet, post);
        n = n - 1;
    }
    cur
}

/// Applies the passes that run before the type checker — let removal,
/// whole-alphabet expansion, trivial-application removal — bottom-up over
/// the whole tree, round after round.
pub fn pre_simplify(ast: Exp, alphabet: &SymSet) -> (r: Exp)
    requires
        alphabet@.len() > 0,
    ensures
        r@ == spec_iterate(ast@, alphabet@, false, SIMPLIFY_ROUNDS as nat),
{
    run_rounds(ast, alphabet, false)
}

/// Applies every pass, in pipeline order, bottom-up over the whole tree,
/// round after round; meant for the tree the type checker has annotated.
pub fn simplify_ast(ast: Exp, alphabet: &SymSet) -> (r: Exp)
    requires
        alphabet@.len() > 0,
    ensures
        r@ == spec_iterate(ast@, alphabet@, true, SIMPLIFY_ROUNDS as nat),
{
    run_rounds(ast, alphabet, true)
}

} // verus!
