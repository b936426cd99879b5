//! The type checker: infers a type for every node by collecting cast
//! constraints into a `TypeTable`, then resolves every annotation. The
//! program as a whole is forced to the type of a tape transformer.

use vstd::prelude::*;
use crate::exp::{
    arm_view, arms_view, lemma_arms_view_index, lemma_arms_view_len, lemma_arms_view_push, Arm, ArmV, Exp,
    ExpV, Node, NodeV, Pat, PatV,
};
use crate::text::{
    chars_to_string, lemma_pairs_view_index, lemma_pairs_view_len, pairs_view, push_str,
    push_string,
};
use crate::token::{loc_text, LocV, TokenLoc};
use crate::types::{
    spec_cast, spec_settle, table_resolve, table_wf, type_text, type_wf, Annot, AnnotV, TableV,
    Type, TypeTable, TypeV, CAST_FUEL,
};

verus! {

/// A typing environment: names bound to a fixedness flag and a type. A
/// later binding of the same name shadows an earlier one.
pub type Env = Vec<(String, (bool, Type))>;

/// The model of a typing environment.
pub type EnvV = Seq<(Seq<char>, (bool, TypeV))>;

/// Looks a name up, latest binding first.
pub open spec fn spec_lookup(env: EnvV, id: Seq<char>) -> Option<(bool, TypeV)>
    decreases env.len(),
{
    if env.len() == 0 {
        None
    } else if env.last().0 == id {
        Some(env.last().1)
    } else {
        spec_lookup(env.drop_last(), id)
    }
}

#[verifier::loop_isolation(false)]
fn lookup(env: &Env, id: &String) -> (r: Option<(bool, Type)>)
    ensures
        (match r {
            Some((f, t)) => spec_lookup(pairs_view(env@), id@) == Some((f, t@)),
            None => spec_lookup(pairs_view(env@), id@) is None,
        }),
{
    broadcast use lemma_pairs_view_len, lemma_pairs_view_index;

    let ghost ev = pairs_view(env@);
    proof {
        assert(ev.subrange(0, ev.len() as int) =~= ev);
    }
    let mut i: usize = env.len();
    while i > 0
        invariant
            i <= env@.len(),
            ev == pairs_view(env@),
            spec_lookup(ev, id@) == spec_lookup(ev.subrange(0, i as int), id@),
        decreases i,
    {
        proof {
            let pre = ev.subrange(0, i as int);
            assert(pre.last() == ev[i - 1]);
            assert(pre.drop_last() =~= ev.subrange(0, i - 1));
        }
        i = i - 1;
        if env[i].0 == *id {
            return Some((env[i].1.0, env[i].1.1.clone()));
        }
    }
    proof {
        assert(ev.subrange(0, 0).len() == 0);
    }
    None
}

/// Every type in the environment refers only to minted variables.
pub open spec fn env_wf(env: EnvV, n: nat) -> bool {
    forall|i: int| 0 <= i < env.len() ==> type_wf((#[trigger] env[i]).1.1, n)
}

pub proof fn lemma_env_wf_mono(env: EnvV, n: nat, m: nat)
    requires
        env_wf(env, n),
        n <= m,
    ensures
        env_wf(env, m),
{
    assert forall|i: int| 0 <= i < env.len() implies type_wf((#[trigger] env[i]).1.1, m) by {
        crate::types::lemma_type_wf_mono(env[i].1.1, n, m);
    }
}

/// "Undefined identifier N at L"
pub open spec fn undef_err_text(id: Seq<char>, l: LocV) -> Seq<char> {
    "Undefined identifier "@ + id + " at "@ + loc_text(l)
}

fn undef_err(id: &String, l: &TokenLoc) -> (r: String)
    ensures
        r@ == undef_err_text(id@, l@),
{
    let mut out: Vec<char> = Vec::new();
    push_str(&mut out, "Undefined identifier ");
    push_string(&mut out, id);
    push_str(&mut out, " at ");
    l.push_text(&mut out);
    assert(out@ =~= undef_err_text(id@, l@));
    chars_to_string(&out)
}

/// "Couldn't resolve type T at L"
pub open spec fn unresolved_err_text(t: TypeV, l: LocV) -> Seq<char> {
    "Couldn't resolve type "@ + type_text(t) + " at "@ + loc_text(l)
}

fn unresolved_err(t: &Type, l: &TokenLoc) -> (r: String)
    ensures
        r@ == unresolved_err_text(t@, l@),
{
    let mut out: Vec<char> = Vec::new();
    push_str(&mut out, "Couldn't resolve type ");
    t.push_text(&mut out);
    push_str(&mut out, " at ");
    l.push_text(&mut out);
    assert(out@ =~= unresolved_err_text(t@, l@));
    chars_to_string(&out)
}

/// "Internal error: a let binding reached the type checker at L"
pub open spec fn let_survived_err_text(l: LocV) -> Seq<char> {
    "Internal error: a let binding reached the type checker at "@ + loc_text(l)
}

fn let_survived_err(l: &TokenLoc) -> (r: String)
    ensures
        r@ == let_survived_err_text(l@),
{
    let mut out: Vec<char> = Vec::new();
    push_str(&mut out, "Internal error: a let binding reached the type checker at ");
    l.push_text(&mut out);
    assert(out@ =~= let_survived_err_text(l@));
    chars_to_string(&out)
}

/// The type of an owned tape.
pub open spec fn tape_v() -> TypeV {
    TypeV::Tape { owned: true }
}

/// The type of the whole program: owned tape to owned tape.
pub open spec fn program_type_v() -> TypeV {
    TypeV::Function { arg: Box::new(tape_v()), ret: Box::new(tape_v()) }
}

#[verifier::spinoff_prover]
fn program_type() -> (r: Type)
    ensures
        r@ == program_type_v(),
{
    let a = Type::Tape { owned: true };
    let b = Type::Tape { owned: true };
    proof {
        assert(a@ == TypeV::Tape { owned: true });
        assert(b@ == TypeV::Tape { owned: true });
    }
    let ghost av = a@;
    let ghost bv = b@;
    let r = Type::Function { arg: Box::new(a), ret: Box::new(b) };
    proof {
        assert(r@ == TypeV::Function { arg: Box::new(av), ret: Box::new(bv) });
    }
    r
}

/// The predeclared environment: the tape primitives, the fixed point
/// combinator, and the three halt identifiers.
pub open spec fn spec_builtins() -> EnvV {
    seq![
        ("set"@, (true, TypeV::Function {
            arg: Box::new(TypeV::Symbol),
            ret: Box::new(TypeV::Function { arg: Box::new(tape_v()), ret: Box::new(tape_v()) }),
        })),
        ("get"@, (true, TypeV::Function {
            arg: Box::new(TypeV::Tape { owned: false }),
            ret: Box::new(TypeV::Symbol),
        })),
        ("next"@, (true, TypeV::Function { arg: Box::new(tape_v()), ret: Box::new(tape_v()) })),
        ("prev"@, (true, TypeV::Function { arg: Box::new(tape_v()), ret: Box::new(tape_v()) })),
        ("Y"@, (true, TypeV::Function {
            arg: Box::new(TypeV::Function {
                arg: Box::new(program_type_v()),
                ret: Box::new(program_type_v()),
            }),
            ret: Box::new(program_type_v()),
        })),
        ("accept"@, (true, TypeV::Halt)),
        ("reject"@, (true, TypeV::Halt)),
        ("abort"@, (true, TypeV::Halt)),
    ]
}

/// Defines the types of the built-in functions and halt identifiers.
#[verifier::spinoff_prover]
#[verifier::rlimit(50)]
pub fn define_builtin_functions() -> (r: Env)
    ensures
        pairs_view(r@) == spec_builtins(),
        env_wf(pairs_view(r@), 0),
{
    broadcast use lemma_pairs_view_len, lemma_pairs_view_index;

    let mut env: Env = Vec::new();
    let pt_set = program_type();
    let ghost ptv = pt_set@;
    let set_t = Type::Function { arg: Box::new(Type::Symbol), ret: Box::new(pt_set) };
    proof {
        assert(set_t@ == TypeV::Function { arg: Box::new(TypeV::Symbol), ret: Box::new(ptv) });
    }
    env.push(("set".to_owned(), (true, set_t)));
    let bt = Type::Tape { owned: false };
    proof {
        assert(bt@ == TypeV::Tape { owned: false });
    }
    let get_t = Type::Function { arg: Box::new(bt), ret: Box::new(Type::Symbol) };
    proof {
        assert(get_t@ == TypeV::Function {
            arg: Box::new(TypeV::Tape { owned: false }),
            ret: Box::new(TypeV::Symbol),
        });
    }
    env.push(("get".to_owned(), (true, get_t)));
    env.push(("next".to_owned(), (true, program_type())));
    env.push(("prev".to_owned(), (true, program_type())));
    let pt_a = program_type();
    let pt_b = program_type();
    let pt_c = program_type();
    let y_inner = Type::Function { arg: Box::new(pt_a), ret: Box::new(pt_b) };
    proof {
        assert(y_inner@ == TypeV::Function {
            arg: Box::new(program_type_v()),
            ret: Box::new(program_type_v()),
        });
    }
    let ghost yiv = y_inner@;
    let y_t = Type::Function { arg: Box::new(y_inner), ret: Box::new(pt_c) };
    proof {
        assert(y_t@ == TypeV::Function { arg: Box::new(yiv), ret: Box::new(program_type_v()) });
    }
    env.push(("Y".to_owned(), (true, y_t)));
    env.push(("accept".to_owned(), (true, Type::Halt)));
    env.push(("reject".to_owned(), (true, Type::Halt)));
    env.push(("abort".to_owned(), (true, Type::Halt)));
    proof {
        let pv = pairs_view(env@);
        assert(pv.len() == 8);
        assert(pv[0] == spec_builtins()[0]);
        assert(pv[1] == spec_builtins()[1]);
        assert(pv[2] == spec_builtins()[2]);
        assert(pv[3] == spec_builtins()[3]);
        assert(pv[4] == spec_builtins()[4]);
        assert(pv[5] == spec_builtins()[5]);
        assert(pv[6] == spec_builtins()[6]);
        assert(pv[7] == spec_builtins()[7]);
        assert(pv =~= spec_builtins());
        assert forall|i: int| 0 <= i < pairs_view(env@).len() implies type_wf(
            (#[trigger] pairs_view(env@)[i]).1.1,
            0,
        ) by {
            assert(pairs_view(env@) == spec_builtins());
            assert(0 <= i < 8);
            assert(type_wf(TypeV::Symbol, 0));
            assert(type_wf(TypeV::Halt, 0));
            assert(type_wf(tape_v(), 0));
            assert(type_wf(TypeV::Tape { owned: false }, 0));
            assert(type_wf(program_type_v(), 0));
            assert(type_wf(spec_builtins()[0].1.1, 0));
            assert(type_wf(spec_builtins()[1].1.1, 0));
            assert(type_wf(spec_builtins()[2].1.1, 0));
            assert(type_wf(spec_builtins()[3].1.1, 0));
            assert(type_wf(TypeV::Function {
                arg: Box::new(program_type_v()),
                ret: Box::new(program_type_v()),
            }, 0));
            assert(type_wf(spec_builtins()[4].1.1, 0));
            assert(type_wf(spec_builtins()[5].1.1, 0));
            assert(type_wf(spec_builtins()[6].1.1, 0));
            assert(type_wf(spec_builtins()[7].1.1, 0));
        }
    }
    env
}

pub proof fn lemma_lookup_wf(env: EnvV, id: Seq<char>, n: nat)
    requires
        env_wf(env, n),
        spec_lookup(env, id) is Some,
    ensures
        type_wf(spec_lookup(env, id)->Some_0.1, n),
    decreases env.len(),
{
    if env.len() > 0 {
        if env.last().0 == id {
            assert(env[env.len() - 1] == env.last());
        } else {
            assert(env_wf(env.drop_last(), n)) by {
                assert forall|i: int| 0 <= i < env.drop_last().len() implies type_wf(
                    (#[trigger] env.drop_last()[i]).1.1,
                    n,
                ) by {
                    assert(env.drop_last()[i] == env[i]);
                }
            }
            lemma_lookup_wf(env.drop_last(), id, n);
        }
    }
}

#[verifier::loop_isolation(false)]
fn env_extend(vars: &Env, id: String, fixed: bool, t: Type) -> (r: Env)
    ensures
        pairs_view(r@) == pairs_view(vars@).push((id@, (fixed, t@))),
{
    broadcast use lemma_pairs_view_len, lemma_pairs_view_index;

    let mut r: Env = Vec::new();
    let mut i: usize = 0;
    while i < vars.len()
        invariant
            i <= vars@.len(),
            r@.len() == i,
            forall|j: int|
                0 <= j < i ==> (#[trigger] r@[j]).0@ == vars@[j].0@ && r@[j].1.0 == vars@[j].1.0
                    && r@[j].1.1@ == vars@[j].1.1@,
        decreases vars@.len() - i,
    {
        let name = vars[i].0.clone();
        let f = vars[i].1.0;
        let ty = vars[i].1.1.clone();
        r.push((name, (f, ty)));
        i = i + 1;
    }
    r.push((id, (fixed, t)));
    proof {
        assert(pairs_view(r@) =~= pairs_view(vars@).push((id@, (fixed, t@))));
    }
    r
}

/// The model of a `Result` carrying an expression.
pub open spec fn exp_result_view(r: Result<Exp, String>) -> Result<ExpV, Seq<char>> {
    match r {
        Ok(e) => Ok(e@),
        Err(s) => Err(s@),
    }
}

/// What checking one node does: casts are demanded between the node's type
/// and the type its context asks for, fresh variables are minted for
/// binders and argument slots, and every node comes back annotated.
pub open spec fn spec_check_exp(e: ExpV, vars: EnvV, tbl: TableV, ret: TypeV) -> (
    Result<ExpV, Seq<char>>,
    TableV,
)
    decreases e,
{
    let loc = e.annot.loc;
    match e.node {
        NodeV::Identifier(id) => match spec_lookup(vars, id) {
            None => (Err(undef_err_text(id, loc)), tbl),
            Some((fixed, var_t)) => {
                if fixed {
                    let (t1, r1) = spec_cast(tbl, var_t, ret, loc, CAST_FUEL as nat);
                    (
                        match r1 {
                            Err(m) => Err(m),
                            Ok(_) => Ok(
                                ExpV {
                                    node: NodeV::Identifier(id),
                                    annot: AnnotV { ty: var_t, loc },
                                },
                            ),
                        },
                        t1,
                    )
                } else {
                    let n = tbl.entries.len();
                    let tbl0 = TableV { entries: tbl.entries.push(None), pending: tbl.pending };
                    let t = TypeV::Unresolved(n as nat);
                    let (t1, r1) = spec_cast(tbl0, var_t, t, loc, CAST_FUEL as nat);
                    if r1 is Err {
                        (Err(r1->Err_0), t1)
                    } else {
                        let (t2, r2) = spec_cast(t1, t, ret, loc, CAST_FUEL as nat);
                        (
                            match r2 {
                                Err(m) => Err(m),
                                Ok(_) => Ok(
                                    ExpV {
                                        node: NodeV::Identifier(id),
                                        annot: AnnotV { ty: t, loc },
                                    },
                                ),
                            },
                            t2,
                        )
                    }
                }
            }
        },
        NodeV::Symbol(s) => {
            let (t1, r1) = spec_cast(tbl, TypeV::Symbol, ret, loc, CAST_FUEL as nat);
            (
                match r1 {
                    Err(m) => Err(m),
                    Ok(_) => Ok(
                        ExpV { node: NodeV::Symbol(s), annot: AnnotV { ty: TypeV::Symbol, loc } },
                    ),
                },
                t1,
            )
        }
        NodeV::Abort => {
            let (t1, r1) = spec_cast(tbl, TypeV::Halt, ret, loc, CAST_FUEL as nat);
            (
                match r1 {
                    Err(m) => Err(m),
                    Ok(_) => Ok(ExpV { node: NodeV::Abort, annot: AnnotV { ty: TypeV::Halt, loc } }),
                },
                t1,
            )
        }
        NodeV::Union { lhs, rhs } => {
            let (r1, t1) = spec_check_exp(*lhs, vars, tbl, TypeV::Union);
            if r1 is Err {
                (r1, t1)
            } else {
                let (r2, t2) = spec_check_exp(*rhs, vars, t1, TypeV::Union);
                if r2 is Err {
                    (r2, t2)
                } else {
                    let (t3, r3) = spec_cast(t2, TypeV::Union, ret, loc, CAST_FUEL as nat);
                    (
                        match r3 {
                            Err(m) => Err(m),
                            Ok(_) => Ok(
                                ExpV {
                                    node: NodeV::Union {
                                        lhs: Box::new(r1->Ok_0),
                                        rhs: Box::new(r2->Ok_0),
                                    },
                                    annot: AnnotV { ty: TypeV::Union, loc },
                                },
                            ),
                        },
                        t3,
                    )
                }
            }
        }
        NodeV::Match { exp, arms } => {
            let (r1, t1) = spec_check_exp(*exp, vars, tbl, TypeV::Symbol);
            if r1 is Err {
                (r1, t1)
            } else {
                let (r2, t2) = spec_check_arms(arms, vars, t1, ret, Seq::empty());
                (
                    match r2 {
                        Err(m) => Err(m),
                        Ok(new_arms) => Ok(
                            ExpV {
                                node: NodeV::Match { exp: Box::new(r1->Ok_0), arms: new_arms },
                                annot: AnnotV { ty: ret, loc },
                            },
                        ),
                    },
                    t2,
                )
            }
        }
        NodeV::Let { exp, binds } => (Err(let_survived_err_text(loc)), tbl),
        NodeV::Function { arg, exp } => {
            let n = tbl.entries.len();
            let tbl1 = TableV {
                entries: tbl.entries.push(None).push(None),
                pending: tbl.pending,
            };
            let arg_t = TypeV::Unresolved(n as nat);
            let ret_t2 = TypeV::Unresolved((n + 1) as nat);
            let vars2 = vars.push((arg, (false, arg_t)));
            let (r1, t1) = spec_check_exp(*exp, vars2, tbl1, ret_t2);
            if r1 is Err {
                (r1, t1)
            } else {
                let func_t = TypeV::Function { arg: Box::new(arg_t), ret: Box::new(ret_t2) };
                let (t2, r2) = spec_cast(t1, func_t, ret, loc, CAST_FUEL as nat);
                (
                    match r2 {
                        Err(m) => Err(m),
                        Ok(_) => Ok(
                            ExpV {
                                node: NodeV::Function { arg, exp: Box::new(r1->Ok_0) },
                                annot: AnnotV { ty: func_t, loc },
                            },
                        ),
                    },
                    t2,
                )
            }
        }
        NodeV::Application { func, arg } => {
            let n = tbl.entries.len();
            let tbl1 = TableV { entries: tbl.entries.push(None), pending: tbl.pending };
            let arg_t = TypeV::Unresolved(n as nat);
            let (r1, t1) = spec_check_exp(*arg, vars, tbl1, arg_t);
            if r1 is Err {
                (r1, t1)
            } else {
                let func_t = TypeV::Function { arg: Box::new(arg_t), ret: Box::new(ret) };
                let (r2, t2) = spec_check_exp(*func, vars, t1, func_t);
                (
                    match r2 {
                        Err(m) => Err(m),
                        Ok(f) => Ok(
                            ExpV {
                                node: NodeV::Application {
                                    func: Box::new(f),
                                    arg: Box::new(r1->Ok_0),
                                },
                                annot: AnnotV { ty: ret, loc },
                            },
                        ),
                    },
                    t2,
                )
            }
        }
    }
}

/// Checks the arms of a match in order, accumulating the checked arms.
pub open spec fn spec_check_arms(
    arms: Seq<ArmV>,
    vars: EnvV,
    tbl: TableV,
    ret: TypeV,
    acc: Seq<ArmV>,
) -> (Result<Seq<ArmV>, Seq<char>>, TableV)
    decreases arms,
{
    if arms.len() == 0 {
        (Ok(acc), tbl)
    } else {
        let arm = arms[0];
        let pat_r: (Result<PatV, Seq<char>>, TableV) = match arm.pat {
            PatV::Union(p) => {
                let (r1, t1) = spec_check_exp(p, vars, tbl, TypeV::Union);
                (
                    match r1 {
                        Err(m) => Err(m),
                        Ok(p2) => Ok(PatV::Union(p2)),
                    },
                    t1,
                )
            }
            PatV::Any => (Ok(PatV::Any), tbl),
        };
        if pat_r.0 is Err {
            (Err(pat_r.0->Err_0), pat_r.1)
        } else {
            let vars2 = match arm.catch_id {
                Some(c) => vars.push((c, (false, TypeV::Symbol))),
                None => vars,
            };
            let (r2, t2) = spec_check_exp(arm.exp, vars2, pat_r.1, ret);
            if r2 is Err {
                (Err(r2->Err_0), t2)
            } else {
                spec_check_arms(
                    arms.drop_first(),
                    vars,
                    t2,
                    ret,
                    acc.push(ArmV { catch_id: arm.catch_id, pat: pat_r.0->Ok_0, exp: r2->Ok_0 }),
                )
            }
        }
    }
}

/// What resolving every annotation does: each node's type is chased
/// through the table; a `Union` node's own type is the union type; a type
/// still holding a free variable is an error.
pub open spec fn spec_resolve_exp(e: ExpV, tbl: TableV, allow: bool) -> Result<ExpV, Seq<char>>
    decreases e,
{
    let loc = e.annot.loc;
    let built: Result<ExpV, Seq<char>> = match e.node {
        NodeV::Union { lhs, rhs } => {
            let r1 = spec_resolve_exp(*lhs, tbl, false);
            if r1 is Err {
                r1
            } else {
                let r2 = spec_resolve_exp(*rhs, tbl, false);
                if r2 is Err {
                    r2
                } else {
                    Ok(
                        ExpV {
                            node: NodeV::Union {
                                lhs: Box::new(r1->Ok_0),
                                rhs: Box::new(r2->Ok_0),
                            },
                            annot: AnnotV { ty: TypeV::Union, loc },
                        },
                    )
                }
            }
        }
        NodeV::Match { exp, arms } => {
            let r1 = spec_resolve_exp(*exp, tbl, false);
            if r1 is Err {
                r1
            } else {
                let r2 = spec_resolve_arms(arms, tbl, allow, Seq::empty());
                match r2 {
                    Err(m) => Err(m),
                    Ok(new_arms) => Ok(
                        ExpV {
                            node: NodeV::Match { exp: Box::new(r1->Ok_0), arms: new_arms },
                            annot: AnnotV { ty: table_resolve(tbl, e.annot.ty), loc },
                        },
                    ),
                }
            }
        }
        NodeV::Function { arg, exp } => {
            let r1 = spec_resolve_exp(*exp, tbl, allow);
            if r1 is Err {
                r1
            } else {
                Ok(
                    ExpV {
                        node: NodeV::Function { arg, exp: Box::new(r1->Ok_0) },
                        annot: AnnotV { ty: table_resolve(tbl, e.annot.ty), loc },
                    },
                )
            }
        }
        NodeV::Application { func, arg } => {
            let r1 = spec_resolve_exp(*func, tbl, allow);
            if r1 is Err {
                r1
            } else {
                let r2 = spec_resolve_exp(*arg, tbl, allow);
                if r2 is Err {
                    r2
                } else {
                    Ok(
                        ExpV {
                            node: NodeV::Application {
                                func: Box::new(r1->Ok_0),
                                arg: Box::new(r2->Ok_0),
                            },
                            annot: AnnotV { ty: table_resolve(tbl, e.annot.ty), loc },
                        },
                    )
                }
            }
        }
        node => Ok(ExpV { node, annot: AnnotV { ty: table_resolve(tbl, e.annot.ty), loc } }),
    };
    match built {
        Err(m) => Err(m),
        Ok(e2) => {
            if Type::spec_is_unresolved_non_union(e2.annot.ty) && !allow {
                Err(unresolved_err_text(e2.annot.ty, loc))
            } else {
                Ok(e2)
            }
        }
    }
}

/// Resolves the arms of a match in order: patterns strictly, bodies as the
/// caller allows.
pub open spec fn spec_resolve_arms(arms: Seq<ArmV>, tbl: TableV, allow: bool, acc: Seq<ArmV>) -> Result<
    Seq<ArmV>,
    Seq<char>,
>
    decreases arms,
{
    if arms.len() == 0 {
        Ok(acc)
    } else {
        let arm = arms[0];
        let pat_r: Result<PatV, Seq<char>> = match arm.pat {
            PatV::Union(p) => {
                let r1 = spec_resolve_exp(p, tbl, false);
                match r1 {
                    Err(m) => Err(m),
                    Ok(p2) => Ok(PatV::Union(p2)),
                }
            }
            PatV::Any => Ok(PatV::Any),
        };
        match pat_r {
            Err(m) => Err(m),
            Ok(pat) => {
                let r2 = spec_resolve_exp(arm.exp, tbl, allow);
                match r2 {
                    Err(m) => Err(m),
                    Ok(body) => spec_resolve_arms(
                        arms.drop_first(),
                        tbl,
                        allow,
                        acc.push(ArmV { catch_id: arm.catch_id, pat, exp: body }),
                    ),
                }
            }
        }
    }
}

/// Checks the types of an expression, threading the constraint table.
#[verifier::loop_isolation(false)]
#[verifier::rlimit(100)]
fn check_exp(exp: Exp, vars: &Env, table: &mut TypeTable, ret_t: &Type) -> (r: Result<Exp, String>)
    requires
        table_wf(old(table)@),
        env_wf(pairs_view(vars@), old(table)@.entries.len() as nat),
        type_wf(ret_t@, old(table)@.entries.len() as nat),
    ensures
        table_wf(final(table)@),
        old(table)@.entries.len() <= final(table)@.entries.len(),
        exp_result_view(r) == spec_check_exp(exp@, pairs_view(vars@), old(table)@, ret_t@).0,
        final(table)@ == spec_check_exp(exp@, pairs_view(vars@), old(table)@, ret_t@).1,
    decreases exp,
{
    broadcast use lemma_arms_view_len, lemma_arms_view_index, lemma_arms_view_push;
    broadcast use lemma_pairs_view_len, lemma_pairs_view_index;

    let ghost e0 = exp;
    let ghost varsv = pairs_view(vars@);
    let Exp(node, annot) = exp;
    let Annot(_, loc) = annot;
    match node {
        Node::Identifier(id) => {
            let lk = lookup(vars, &id);
            match lk {
                None => Err(undef_err(&id, &loc)),
                Some((fixed, var_t)) => {
                    proof {
                        lemma_lookup_wf(varsv, id@, old(table)@.entries.len() as nat);
                    }
                    if fixed {
                        let c = table.cast(&var_t, ret_t, &loc);
                        match c {
                            Err(m) => Err(m),
                            Ok(_) => {
                                let lc = loc.clone();
                                Ok(Exp(Node::Identifier(id), Annot(var_t, lc)))
                            }
                        }
                    } else {
                        let t = table.push();
                        proof {
                            crate::types::lemma_wf_push_none(old(table)@);
                            crate::types::lemma_type_wf_mono(
                                var_t@,
                                old(table)@.entries.len() as nat,
                                table@.entries.len() as nat,
                            );
                        }
                        let c1 = table.cast(&var_t, &t, &loc);
                        match c1 {
                            Err(m) => Err(m),
                            Ok(_) => {
                                proof {
                                    crate::types::lemma_type_wf_mono(
                                        t@,
                                        (old(table)@.entries.len() + 1) as nat,
                                        table@.entries.len() as nat,
                                    );
                                    crate::types::lemma_type_wf_mono(
                                        ret_t@,
                                        old(table)@.entries.len() as nat,
                                        table@.entries.len() as nat,
                                    );
                                }
                                let c2 = table.cast(&t, ret_t, &loc);
                                match c2 {
                                    Err(m) => Err(m),
                                    Ok(_) => Ok(Exp(Node::Identifier(id), Annot(t, loc))),
                                }
                            }
                        }
                    }
                }
            }
        }
        Node::Symbol(s) => {
            let c = table.cast(&Type::Symbol, ret_t, &loc);
            match c {
                Err(m) => Err(m),
                Ok(_) => Ok(Exp(Node::Symbol(s), Annot(Type::Symbol, loc))),
            }
        }
        Node::Abort => {
            let c = table.cast(&Type::Halt, ret_t, &loc);
            match c {
                Err(m) => Err(m),
                Ok(_) => Ok(Exp(Node::Abort, Annot(Type::Halt, loc))),
            }
        }
        Node::Union { lhs, rhs } => {
            let r1 = check_exp(*lhs, vars, table, &Type::Union);
            let l2 = match r1 {
                Err(m) => {
                    return Err(m);
                }
                Ok(x) => x,
            };
            proof {
                lemma_env_wf_mono(
                    varsv,
                    old(table)@.entries.len() as nat,
                    table@.entries.len() as nat,
                );
            }
            let r2 = check_exp(*rhs, vars, table, &Type::Union);
            let r2v = match r2 {
                Err(m) => {
                    return Err(m);
                }
                Ok(x) => x,
            };
            proof {
                crate::types::lemma_type_wf_mono(
                    ret_t@,
                    old(table)@.entries.len() as nat,
                    table@.entries.len() as nat,
                );
            }
            let c = table.cast(&Type::Union, ret_t, &loc);
            match c {
                Err(m) => Err(m),
                Ok(_) => Ok(
                    Exp(
                        Node::Union { lhs: Box::new(l2), rhs: Box::new(r2v) },
                        Annot(Type::Union, loc),
                    ),
                ),
            }
        }
        Node::Match { exp: match_exp, arms } => {
            let r1 = check_exp(*match_exp, vars, table, &Type::Symbol);
            let scrut = match r1 {
                Err(m) => {
                    return Err(m);
                }
                Ok(x) => x,
            };
            proof {
                lemma_env_wf_mono(
                    varsv,
                    old(table)@.entries.len() as nat,
                    table@.entries.len() as nat,
                );
                crate::types::lemma_type_wf_mono(
                    ret_t@,
                    old(table)@.entries.len() as nat,
                    table@.entries.len() as nat,
                );
            }
            let r2 = check_arms(arms, vars, table, ret_t);
            match r2 {
                Err(m) => Err(m),
                Ok(new_arms) => Ok(
                    Exp(
                        Node::Match { exp: Box::new(scrut), arms: new_arms },
                        Annot(ret_t.clone(), loc),
                    ),
                ),
            }
        }
        Node::Let { exp: _lexp, binds: _binds } => Err(let_survived_err(&loc)),
        Node::Function { arg, exp: func_exp } => {
            let arg_t = table.push();
            proof {
                crate::types::lemma_wf_push_none(old(table)@);
            }
            let ret_t2 = table.push();
            proof {
                crate::types::lemma_wf_push_none(
                    TableV {
                        entries: old(table)@.entries.push(None),
                        pending: old(table)@.pending,
                    },
                );
                assert(table@.entries =~= old(table)@.entries.push(None).push(None));
            }
            let vars2 = env_extend(vars, arg.clone(), false, arg_t.clone());
            proof {
                lemma_env_wf_mono(
                    varsv,
                    old(table)@.entries.len() as nat,
                    table@.entries.len() as nat,
                );
                assert(env_wf(pairs_view(vars2@), table@.entries.len() as nat)) by {
                    assert forall|i: int|
                        0 <= i < pairs_view(vars2@).len() implies type_wf(
                        (#[trigger] pairs_view(vars2@)[i]).1.1,
                        table@.entries.len() as nat,
                    ) by {
                        if i < varsv.len() {
                            assert(pairs_view(vars2@)[i] == varsv[i]);
                        }
                    }
                }
            }
            let br = check_exp(*func_exp, &vars2, table, &ret_t2);
            let body = match br {
                Err(m) => {
                    return Err(m);
                }
                Ok(x) => x,
            };
            let ghost av = arg_t@;
            let ghost bv = ret_t2@;
            let func_t = Type::Function { arg: Box::new(arg_t), ret: Box::new(ret_t2) };
            proof {
                assert(func_t@ == TypeV::Function { arg: Box::new(av), ret: Box::new(bv) });
                assert(type_wf(av, (old(table)@.entries.len() + 2) as nat));
                assert(type_wf(bv, (old(table)@.entries.len() + 2) as nat));
                assert(type_wf(func_t@, (old(table)@.entries.len() + 2) as nat));
                crate::types::lemma_type_wf_mono(
                    func_t@,
                    (old(table)@.entries.len() + 2) as nat,
                    table@.entries.len() as nat,
                );
                crate::types::lemma_type_wf_mono(
                    ret_t@,
                    old(table)@.entries.len() as nat,
                    table@.entries.len() as nat,
                );
            }
            let c = table.cast(&func_t, ret_t, &loc);
            match c {
                Err(m) => Err(m),
                Ok(_) => Ok(
                    Exp(
                        Node::Function { arg, exp: Box::new(body) },
                        Annot(func_t, loc),
                    ),
                ),
            }
        }
        Node::Application { func, arg } => {
            let arg_t = table.push();
            proof {
                crate::types::lemma_wf_push_none(old(table)@);
                lemma_env_wf_mono(
                    varsv,
                    old(table)@.entries.len() as nat,
                    table@.entries.len() as nat,
                );
            }
            let ar = check_exp(*arg, vars, table, &arg_t);
            let arg2 = match ar {
                Err(m) => {
                    return Err(m);
                }
                Ok(x) => x,
            };
            let ghost atv = arg_t@;
            let func_t = Type::Function { arg: Box::new(arg_t), ret: Box::new(ret_t.clone()) };
            proof {
                assert(func_t@ == TypeV::Function { arg: Box::new(atv), ret: Box::new(ret_t@) });
                crate::types::lemma_type_wf_mono(
                    atv,
                    (old(table)@.entries.len() + 1) as nat,
                    table@.entries.len() as nat,
                );
                crate::types::lemma_type_wf_mono(
                    ret_t@,
                    old(table)@.entries.len() as nat,
                    table@.entries.len() as nat,
                );
                lemma_env_wf_mono(
                    varsv,
                    old(table)@.entries.len() as nat,
                    table@.entries.len() as nat,
                );
            }
            let fr = check_exp(*func, vars, table, &func_t);
            match fr {
                Err(m) => Err(m),
                Ok(f2) => Ok(
                    Exp(
                        Node::Application { func: Box::new(f2), arg: Box::new(arg2) },
                        Annot(ret_t.clone(), loc),
                    ),
                ),
            }
        }
    }
}

/// Checks the arms of a match in order.
#[verifier::loop_isolation(false)]
#[verifier::rlimit(100)]
fn check_arms(arms: Vec<Arm>, vars: &Env, table: &mut TypeTable, ret_t: &Type) -> (r: Result<
    Vec<Arm>,
    String,
>)
    requires
        table_wf(old(table)@),
        env_wf(pairs_view(vars@), old(table)@.entries.len() as nat),
        type_wf(ret_t@, old(table)@.entries.len() as nat),
    ensures
        table_wf(final(table)@),
        old(table)@.entries.len() <= final(table)@.entries.len(),
        (match r {
            Ok(v) => spec_check_arms(
                arms_view(arms@),
                pairs_view(vars@),
                old(table)@,
                ret_t@,
                Seq::empty(),
            ).0 == Ok::<Seq<ArmV>, Seq<char>>(arms_view(v@)),
            Err(m) => spec_check_arms(
                arms_view(arms@),
                pairs_view(vars@),
                old(table)@,
                ret_t@,
                Seq::empty(),
            ).0 == Err::<Seq<ArmV>, Seq<char>>(m@),
        }),
        final(table)@ == spec_check_arms(
            arms_view(arms@),
            pairs_view(vars@),
            old(table)@,
            ret_t@,
            Seq::empty(),
        ).1,
    decreases arms,
{
    broadcast use lemma_arms_view_len, lemma_arms_view_index, lemma_arms_view_push;
    broadcast use lemma_pairs_view_len, lemma_pairs_view_index;

    let ghost arms_in = arms;
    let ghost arms0 = arms@;
    let ghost varsv = pairs_view(vars@);
    let ghost goal = spec_check_arms(arms_view(arms0), varsv, old(table)@, ret_t@, Seq::empty());
    let mut arms = arms;
    let mut new_arms: Vec<Arm> = Vec::new();
    proof {
        assert(arms_view(new_arms@) =~= Seq::<ArmV>::empty());
    }
    while arms.len() > 0
        invariant
            table_wf(table@),
            old(table)@.entries.len() <= table@.entries.len(),
            env_wf(varsv, table@.entries.len() as nat),
            type_wf(ret_t@, table@.entries.len() as nat),
            spec_check_arms(arms_view(arms@), varsv, table@, ret_t@, arms_view(new_arms@))
                == goal,
            forall|k: int| 0 <= k < arms@.len() ==> #[trigger] arms0.contains(arms@[k]),
        decreases arms@.len(),
    {
        let ghost pre_arms = arms@;
        let ghost pre_tbl = table@;
        let arm = arms.remove(0);
        proof {
            assert(pre_arms.contains(pre_arms[0]));
            assert(arms0.contains(arm));
            let j = choose|j: int| 0 <= j < arms0.len() && arms0[j] == arm;
            assert(arm == arms0[j]);
            assert(decreases_to!(arms0 => arms0[j]));
            assert(decreases_to!(arms_in => arm));
            assert(decreases_to!(arm => arm.pat));
            assert(decreases_to!(arm => arm.exp));
            assert(arms@ =~= pre_arms.drop_first());
            assert(arms_view(pre_arms)[0] == arm_view(arm));
            assert(arms_view(pre_arms).drop_first() =~= arms_view(arms@)) by {
                assert forall|k: int|
                    0 <= k < arms_view(pre_arms).drop_first().len() implies arms_view(
                    pre_arms,
                ).drop_first()[k] == arms_view(arms@)[k] by {
                    assert(arms_view(pre_arms)[k + 1] == arm_view(pre_arms[k + 1]));
                }
            }
            assert forall|k: int| 0 <= k < arms@.len() implies #[trigger] arms0.contains(
                arms@[k],
            ) by {
                assert(arms@[k] == pre_arms[k + 1]);
            }
        }
        let Arm { catch_id, pat, exp: arm_exp } = arm;
        let new_pat = match pat {
            Pat::Union(p) => {
                let pr = check_exp(p, vars, table, &Type::Union);
                match pr {
                    Err(m) => {
                        return Err(m);
                    }
                    Ok(p2) => Pat::Union(p2),
                }
            }
            Pat::Any => Pat::Any,
        };
        proof {
            lemma_env_wf_mono(varsv, pre_tbl.entries.len() as nat, table@.entries.len() as nat);
            crate::types::lemma_type_wf_mono(
                ret_t@,
                pre_tbl.entries.len() as nat,
                table@.entries.len() as nat,
            );
        }
        let body = match &catch_id {
            Some(c) => {
                let vars2 = env_extend(vars, c.clone(), false, Type::Symbol);
                proof {
                    assert(env_wf(pairs_view(vars2@), table@.entries.len() as nat)) by {
                        assert forall|i: int|
                            0 <= i < pairs_view(vars2@).len() implies type_wf(
                            (#[trigger] pairs_view(vars2@)[i]).1.1,
                            table@.entries.len() as nat,
                        ) by {
                            if i < varsv.len() {
                                assert(pairs_view(vars2@)[i] == varsv[i]);
                            }
                        }
                    }
                }
                let br = check_exp(arm_exp, &vars2, table, ret_t);
                match br {
                    Err(m) => {
                        return Err(m);
                    }
                    Ok(x) => x,
                }
            }
            None => {
                let br = check_exp(arm_exp, vars, table, ret_t);
                match br {
                    Err(m) => {
                        return Err(m);
                    }
                    Ok(x) => x,
                }
            }
        };
        new_arms.push(Arm { catch_id, pat: new_pat, exp: body });
        proof {
            lemma_env_wf_mono(varsv, pre_tbl.entries.len() as nat, table@.entries.len() as nat);
            crate::types::lemma_type_wf_mono(
                ret_t@,
                pre_tbl.entries.len() as nat,
                table@.entries.len() as nat,
            );
        }
    }
    proof {
        assert(arms_view(arms@).len() == 0);
    }
    Ok(new_arms)
}

/// Resolves the arms of a match in order.
#[verifier::loop_isolation(false)]
#[verifier::rlimit(100)]
fn resolve_arms(arms: Vec<Arm>, table: &mut TypeTable, allow_unresolved: bool) -> (r: Result<
    Vec<Arm>,
    String,
>)
    ensures
        *final(table) == *old(table),
        (match r {
            Ok(v) => spec_resolve_arms(arms_view(arms@), old(table)@, allow_unresolved, Seq::empty())
                == Ok::<Seq<ArmV>, Seq<char>>(arms_view(v@)),
            Err(m) => spec_resolve_arms(
                arms_view(arms@),
                old(table)@,
                allow_unresolved,
                Seq::empty(),
            ) == Err::<Seq<ArmV>, Seq<char>>(m@),
        }),
    decreases arms,
{
    broadcast use lemma_arms_view_len, lemma_arms_view_index, lemma_arms_view_push;

    let ghost arms_in = arms;
    let ghost arms0 = arms@;
    let ghost goal = spec_resolve_arms(arms_view(arms0), old(table)@, allow_unresolved, Seq::empty());
    let mut arms = arms;
    let mut new_arms: Vec<Arm> = Vec::new();
    proof {
        assert(arms_view(new_arms@) =~= Seq::<ArmV>::empty());
    }
    while arms.len() > 0
        invariant
            *table == *old(table),
            spec_resolve_arms(arms_view(arms@), old(table)@, allow_unresolved, arms_view(new_arms@))
                == goal,
            forall|k: int| 0 <= k < arms@.len() ==> #[trigger] arms0.contains(arms@[k]),
        decreases arms@.len(),
    {
        let ghost pre_arms = arms@;
        let arm = arms.remove(0);
        proof {
            assert(pre_arms.contains(pre_arms[0]));
            assert(arms0.contains(arm));
            let j = choose|j: int| 0 <= j < arms0.len() && arms0[j] == arm;
            assert(arm == arms0[j]);
            assert(decreases_to!(arms0 => arms0[j]));
            assert(decreases_to!(arms_in => arm));
            assert(decreases_to!(arm => arm.pat));
            assert(decreases_to!(arm => arm.exp));
            assert(arms@ =~= pre_arms.drop_first());
            assert(arms_view(pre_arms)[0] == arm_view(arm));
            assert(arms_view(pre_arms).drop_first() =~= arms_view(arms@)) by {
                assert forall|k: int|
                    0 <= k < arms_view(pre_arms).drop_first().len() implies arms_view(
                    pre_arms,
                ).drop_first()[k] == arms_view(arms@)[k] by {
                    assert(arms_view(pre_arms)[k + 1] == arm_view(pre_arms[k + 1]));
                }
            }
            assert forall|k: int| 0 <= k < arms@.len() implies #[trigger] arms0.contains(
                arms@[k],
            ) by {
                assert(arms@[k] == pre_arms[k + 1]);
            }
        }
        let Arm { catch_id, pat, exp: arm_exp } = arm;
        let new_pat = match pat {
            Pat::Union(p) => {
                let pr = resolve_exp(p, table, false);
                match pr {
                    Err(m) => {
                        return Err(m);
                    }
                    Ok(p2) => Pat::Union(p2),
                }
            }
            Pat::Any => Pat::Any,
        };
        let br = resolve_exp(arm_exp, table, allow_unresolved);
        let body = match br {
            Err(m) => {
                return Err(m);
            }
            Ok(x) => x,
        };
        new_arms.push(Arm { catch_id, pat: new_pat, exp: body });
    }
    proof {
        assert(arms_view(arms@).len() == 0);
    }
    Ok(new_arms)
}

/// Resolves all annotations of an expression under the finished table.
#[verifier::loop_isolation(false)]
#[verifier::rlimit(100)]
fn resolve_exp(exp: Exp, table: &mut TypeTable, allow_unresolved: bool) -> (r: Result<Exp, String>)
    ensures
        *final(table) == *old(table),
        exp_result_view(r) == spec_resolve_exp(exp@, old(table)@, allow_unresolved),
    decreases exp,
{
    broadcast use lemma_arms_view_len, lemma_arms_view_index, lemma_arms_view_push;

    let ghost e0 = exp;
    let ghost tblv = table@;
    let Exp(node, annot) = exp;
    let Annot(old_ty, loc) = annot;
    let built: Exp = match node {
        Node::Union { lhs, rhs } => {
            let r1 = resolve_exp(*lhs, table, false);
            let l2 = match r1 {
                Err(m) => {
                    return Err(m);
                }
                Ok(x) => x,
            };
            let r2 = resolve_exp(*rhs, table, false);
            let r2v = match r2 {
                Err(m) => {
                    return Err(m);
                }
                Ok(x) => x,
            };
            Exp(
                Node::Union { lhs: Box::new(l2), rhs: Box::new(r2v) },
                Annot(Type::Union, loc),
            )
        }
        Node::Match { exp: match_exp, arms } => {
            let r1 = resolve_exp(*match_exp, table, false);
            let scrut = match r1 {
                Err(m) => {
                    return Err(m);
                }
                Ok(x) => x,
            };
            let r2 = resolve_arms(arms, table, allow_unresolved);
            let new_arms = match r2 {
                Err(m) => {
                    return Err(m);
                }
                Ok(x) => x,
            };
            let rt = table.resolve(&old_ty);
            Exp(Node::Match { exp: Box::new(scrut), arms: new_arms }, Annot(rt, loc))
        }
        Node::Function { arg, exp: func_exp } => {
            let r1 = resolve_exp(*func_exp, table, allow_unresolved);
            let body = match r1 {
                Err(m) => {
                    return Err(m);
                }
                Ok(x) => x,
            };
            let rt = table.resolve(&old_ty);
            Exp(Node::Function { arg, exp: Box::new(body) }, Annot(rt, loc))
        }
        Node::Application { func, arg } => {
            let r1 = resolve_exp(*func, table, allow_unresolved);
            let f2 = match r1 {
                Err(m) => {
                    return Err(m);
                }
                Ok(x) => x,
            };
            let r2 = resolve_exp(*arg, table, allow_unresolved);
            let a2 = match r2 {
                Err(m) => {
                    return Err(m);
                }
                Ok(x) => x,
            };
            let rt = table.resolve(&old_ty);
            Exp(
                Node::Application { func: Box::new(f2), arg: Box::new(a2) },
                Annot(rt, loc),
            )
        }
        other => {
            let rt = table.resolve(&old_ty);
            Exp(other, Annot(rt, loc))
        }
    };
    let is_unres = built.1.0.is_unresolved_non_union();
    if is_unres && !allow_unresolved {
        Err(unresolved_err(&built.1.0, &built.1.1))
    } else {
        Ok(built)
    }
}

/// Annotates an AST with types, checking for type errors; every node of
/// the result carries a resolved type, the symbol-or-union choices aside.
pub fn type_check(ast: Exp) -> (r: Result<Exp, String>)
    ensures
        exp_result_view(r) == spec_type_check(ast@),
{
    let mut table = TypeTable::new();
    proof {
        assert(table@.entries =~= Seq::<Option<TypeV>>::empty());
        assert(table@.pending =~= Seq::<(nat, LocV)>::empty());
        assert(table@ == (TableV { entries: Seq::empty(), pending: Seq::empty() }));
    }
    let builtins = define_builtin_functions();
    let pt = program_type();
    let r1 = check_exp(ast, &builtins, &mut table, &pt);
    let a1 = match r1 {
        Err(m) => {
            return Err(m);
        }
        Ok(x) => x,
    };
    let s = table.settle_pending();
    match s {
        Err(m) => {
            return Err(m);
        }
        Ok(_) => {}
    }
    let Exp(node, annot) = a1;
    let Annot(_, loc) = annot;
    let a2 = Exp(node, Annot(program_type(), loc));
    resolve_exp(a2, &mut table, false)
}

/// What type checking a program means: check it against the tape
/// transformer type, settle the deferred borrows, force the root
/// annotation to that type, and resolve every annotation.
pub open spec fn spec_type_check(ast: ExpV) -> Result<ExpV, Seq<char>> {
    let tbl0 = TableV { entries: Seq::empty(), pending: Seq::empty() };
    let (r1, t1) = spec_check_exp(ast, spec_builtins(), tbl0, program_type_v());
    match r1 {
        Err(m) => Err(m),
        Ok(a1) => {
            let (t2, r2) = spec_settle(t1);
            match r2 {
                Err(m) => Err(m),
                Ok(_) => {
                    let a2 = ExpV {
                        node: a1.node,
                        annot: AnnotV { ty: program_type_v(), loc: a1.annot.loc },
                    };
                    spec_resolve_exp(a2, t2, false)
                }
            }
        }
    }
}

} // verus!
