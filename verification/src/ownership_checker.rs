//! The ownership checker: the tape is a linear resource. An identifier of
//! tape type is consumed where it is used, unless the use is a borrow — an
//! argument handed to a function that takes a tape and returns a symbol.
//! Using a tape already consumed is the error; a function taking a tape
//! must return a tape or a symbol. Arms of a match each start from the
//! set of names consumed before the match, and their consumptions join.

use vstd::prelude::*;
use crate::exp::{
    arm_view, arms_view, lemma_arms_view_index, lemma_arms_view_len, Arm, ArmV, Exp, ExpV, Node,
    NodeV,
};
use crate::symset::{set_extend, set_remove, SymSet};
use crate::text::{chars_to_string, push_str, push_string};
use crate::token::{loc_text, LocV, TokenLoc};
use crate::types::{type_text, TypeV};

verus! {

/// "Tape being used at L was already consumed"
pub open spec fn consumed_err_text(l: LocV) -> Seq<char> {
    "Tape being used at "@ + loc_text(l) + " was already consumed"@
}

fn consumed_err(l: &TokenLoc) -> (r: String)
    ensures
        r@ == consumed_err_text(l@),
{
    let mut out: Vec<char> = Vec::new();
    push_str(&mut out, "Tape being used at ");
    l.push_text(&mut out);
    push_str(&mut out, " was already consumed");
    assert(out@ =~= consumed_err_text(l@));
    chars_to_string(&out)
}

/// "Function at L receives tape as argument but returns T, while only
/// tape & symbol are allowed"
pub open spec fn bad_ret_err_text(l: LocV, t: TypeV) -> Seq<char> {
    "Function at "@ + loc_text(l) + " receives tape as argument but returns "@ + type_text(t)
        + ", while only tape & symbol are allowed"@
}

fn bad_ret_err(l: &TokenLoc, t: &crate::types::Type) -> (r: String)
    ensures
        r@ == bad_ret_err_text(l@, t@),
{
    let mut out: Vec<char> = Vec::new();
    push_str(&mut out, "Function at ");
    l.push_text(&mut out);
    push_str(&mut out, " receives tape as argument but returns ");
    t.push_text(&mut out);
    push_str(&mut out, ", while only tape & symbol are allowed");
    assert(out@ =~= bad_ret_err_text(l@, t@));
    chars_to_string(&out)
}

/// What walking one node does to the set of consumed tape names. The walk
/// reads the annotations the type checker left: a tape identifier is
/// consumed unless the position borrows; an application borrows its
/// argument when the function maps a tape to a symbol, consumes it when it
/// maps a tape to a tape, and anything else a tape-taking function returns
/// is the error.
pub open spec fn spec_ownership(e: ExpV, consumed: Seq<Seq<char>>, is_ref: bool) -> Result<
    Seq<Seq<char>>,
    Seq<char>,
>
    decreases e,
{
    match e.node {
        NodeV::Identifier(id) => {
            if e.annot.ty matches TypeV::Tape { .. } {
                if consumed.contains(id) {
                    Err(consumed_err_text(e.annot.loc))
                } else if !is_ref {
                    Ok(consumed.push(id))
                } else {
                    Ok(consumed)
                }
            } else {
                Ok(consumed)
            }
        }
        NodeV::Match { exp, arms } => {
            match spec_ownership(*exp, consumed, false) {
                Err(m) => Err(m),
                Ok(initial) => spec_own_arms(arms, initial, initial, is_ref),
            }
        }
        NodeV::Function { arg, exp } => spec_ownership(*exp, set_remove(consumed, arg), false),
        NodeV::Application { func, arg } => {
            let borrow_arg: Result<bool, Seq<char>> = match func.annot.ty {
                TypeV::Function { arg: fa, ret: fr } => {
                    if (*fa matches TypeV::Tape { .. }) && *fr is Symbol {
                        Ok(true)
                    } else if (*fa matches TypeV::Tape { .. }) && !(*fr matches TypeV::Tape {
                        ..
                    }) {
                        Err(bad_ret_err_text(func.annot.loc, *fr))
                    } else {
                        Ok(false)
                    }
                }
                _ => Ok(false),
            };
            match borrow_arg {
                Err(m) => Err(m),
                Ok(b) => match spec_ownership(*func, consumed, false) {
                    Err(m) => Err(m),
                    Ok(c2) => spec_ownership(*arg, c2, b),
                },
            }
        }
        _ => Ok(consumed),
    }
}

/// Walks the arms: each starts from the snapshot taken after the
/// scrutinee, its binder cleared, and what the arms consume is joined.
pub open spec fn spec_own_arms(
    arms: Seq<ArmV>,
    initial: Seq<Seq<char>>,
    out: Seq<Seq<char>>,
    is_ref: bool,
) -> Result<Seq<Seq<char>>, Seq<char>>
    decreases arms,
{
    if arms.len() == 0 {
        Ok(out)
    } else {
        let arm = arms[0];
        let arm_set = match arm.catch_id {
            Some(c) => set_remove(initial, c),
            None => initial,
        };
        match spec_ownership(arm.exp, arm_set, is_ref) {
            Err(m) => Err(m),
            Ok(r) => spec_own_arms(arms.drop_first(), initial, set_extend(out, r), is_ref),
        }
    }
}

#[verifier::loop_isolation(false)]
#[verifier::rlimit(100)]
fn traverse(exp: &Exp, consumed: &mut SymSet, is_ref: bool) -> (r: Result<(), String>)
    ensures
        (match r {
            Ok(_) => spec_ownership(exp@, old(consumed)@, is_ref) == Ok::<_, Seq<char>>(
                final(consumed)@,
            ),
            Err(m) => spec_ownership(exp@, old(consumed)@, is_ref) == Err::<Seq<Seq<char>>, _>(
                m@,
            ),
        }),
    decreases *exp,
{
    broadcast use lemma_arms_view_len, lemma_arms_view_index;

    proof {
        reveal_with_fuel(crate::exp::exp_view, 3);
        reveal_with_fuel(crate::exp::node_view, 3);
        reveal_with_fuel(crate::types::type_view, 3);
    }
    let ghost e0 = exp;
    match &exp.0 {
        Node::Identifier(id) => {
            let is_tape = matches!(&exp.1.0, crate::types::Type::Tape { .. });
            if is_tape {
                if consumed.contains(id) {
                    Err(consumed_err(&exp.1.1))
                } else if !is_ref {
                    let ghost pre = consumed@;
                    consumed.insert(id.clone());
                    proof {
                        assert(!pre.contains(id@));
                        assert(consumed@ == pre.push(id@));
                        assert(spec_ownership(exp@, pre, is_ref) == Ok::<
                            Seq<Seq<char>>,
                            Seq<char>,
                        >(consumed@));
                    }
                    Ok(())
                } else {
                    proof {
                        assert(spec_ownership(exp@, consumed@, is_ref) == Ok::<
                            Seq<Seq<char>>,
                            Seq<char>,
                        >(consumed@));
                    }
                    Ok(())
                }
            } else {
                proof {
                    assert(spec_ownership(exp@, consumed@, is_ref) == Ok::<
                        Seq<Seq<char>>,
                        Seq<char>,
                    >(consumed@));
                }
                Ok(())
            }
        }
        Node::Match { exp: match_exp, arms } => {
            let rs = traverse(match_exp, consumed, false);
            match rs {
                Err(m) => {
                    return Err(m);
                }
                Ok(_) => {}
            }
            let initial = consumed.clone();
            let ghost initv = initial@;
            let ghost goal = spec_own_arms(arms_view(arms@), initv, initv, is_ref);
            proof {
                assert(arms_view(arms@).subrange(0, arms_view(arms@).len() as int) =~= arms_view(
                    arms@,
                ));
            }
            let mut i: usize = 0;
            while i < arms.len()
                invariant
                    i <= arms@.len(),
                    initial@ == initv,
                    spec_own_arms(
                        arms_view(arms@).subrange(i as int, arms_view(arms@).len() as int),
                        initv,
                        consumed@,
                        is_ref,
                    ) == goal,
                decreases arms@.len() - i,
            {
                proof {
                    assert(decreases_to!(*e0 => *arms));
                    assert(decreases_to!(*arms => arms@[i as int]));
                    assert(decreases_to!(arms@[i as int] => arms@[i as int].exp));
                    let suffix = arms_view(arms@).subrange(i as int, arms_view(arms@).len() as int);
                    assert(suffix[0] == arm_view(arms@[i as int]));
                    assert(suffix.drop_first() =~= arms_view(arms@).subrange(
                        i + 1,
                        arms_view(arms@).len() as int,
                    ));
                }
                let mut arm_set = initial.clone();
                match &arms[i].catch_id {
                    Some(c) => {
                        arm_set.remove(c);
                    }
                    None => {}
                }
                let ra = traverse(&arms[i].exp, &mut arm_set, is_ref);
                match ra {
                    Err(m) => {
                        return Err(m);
                    }
                    Ok(_) => {}
                }
                consumed.extend_with(&arm_set);
                i = i + 1;
            }
            proof {
                assert(arms_view(arms@).subrange(
                    arms_view(arms@).len() as int,
                    arms_view(arms@).len() as int,
                ).len() == 0);
                assert(goal == Ok::<Seq<Seq<char>>, Seq<char>>(consumed@));
                assert(spec_ownership(exp@, old(consumed)@, is_ref) == goal);
            }
            Ok(())
        }
        Node::Function { arg, exp: func_exp } => {
            consumed.remove(arg);
            proof {
                assert(consumed@ == set_remove(old(consumed)@, arg@));
            }
            let rb = traverse(func_exp, consumed, false);
            proof {
                assert(exp@.node == NodeV::Function {
                    arg: arg@,
                    exp: Box::new(crate::exp::exp_view(**func_exp)),
                });
            }
            rb
        }
        Node::Application { func, arg } => {
            let borrow_arg = match &func.1.0 {
                crate::types::Type::Function { arg: fa, ret: fr } => {
                    let fa_tape = matches!(&**fa, crate::types::Type::Tape { .. });
                    let fr_symbol = matches!(&**fr, crate::types::Type::Symbol);
                    let fr_tape = matches!(&**fr, crate::types::Type::Tape { .. });
                    if fa_tape && fr_symbol {
                        true
                    } else if fa_tape && !fr_tape {
                        return Err(bad_ret_err(&func.1.1, fr));
                    } else {
                        false
                    }
                }
                _ => false,
            };
            proof {
                let fv = crate::exp::exp_view(**func);
                let spec_borrow: Result<bool, Seq<char>> = match fv.annot.ty {
                    TypeV::Function { arg: fa, ret: fr } => {
                        if (*fa matches TypeV::Tape { .. }) && *fr is Symbol {
                            Ok(true)
                        } else if (*fa matches TypeV::Tape { .. }) && !(*fr matches TypeV::Tape {
                            ..
                        }) {
                            Err(bad_ret_err_text(fv.annot.loc, *fr))
                        } else {
                            Ok(false)
                        }
                    }
                    _ => Ok(false),
                };
                assert(fv.annot.ty == func.1.0@);
                assert(spec_borrow == Ok::<bool, Seq<char>>(borrow_arg));
            }
            let rf = traverse(func, consumed, false);
            match rf {
                Err(m) => {
                    return Err(m);
                }
                Ok(_) => {}
            }
            let ra = traverse(arg, consumed, borrow_arg);
            proof {
                assert(exp@.node == NodeV::Application {
                    func: Box::new(crate::exp::exp_view(**func)),
                    arg: Box::new(crate::exp::exp_view(**arg)),
                });
            }
            ra
        }
        _ => {
            proof {
                assert(spec_ownership(exp@, old(consumed)@, is_ref) == Ok::<
                    Seq<Seq<char>>,
                    Seq<char>,
                >(old(consumed)@));
            }
            Ok(())
        },
    }
}

/// Checks that the tape is used linearly: every owned tape identifier is
/// consumed at most once, borrows aside.
pub fn ownership_check(ast: &Exp) -> (r: Result<(), String>)
    ensures
        (match r {
            Ok(_) => spec_ownership(ast@, Seq::empty(), false) is Ok,
            Err(m) => spec_ownership(ast@, Seq::empty(), false) == Err::<Seq<Seq<char>>, _>(m@),
        }),
{
    let mut consumed = SymSet::new();
    traverse(ast, &mut consumed, false)
}

} // verus!
