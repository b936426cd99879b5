//! Laws the library's pieces obey, stated and proved over the same
//! models the functions' contracts use.

use vstd::prelude::*;
use crate::exp::{
    eq_mod_annot, spec_union_from_set, spec_union_to_set, ArmV, ExpV, NodeV, PatV,
};
use crate::simplifier::{
    any_arms, spec_match_const, spec_move_matches, spec_remove_any, spec_remove_gets,
    spec_remove_lets, spec_remove_trivial, spec_spread_aborts,
};
use crate::exp::{arm_view, arms_view};
use crate::symset::{set_insert, set_distinct};
use crate::types::AnnotV;

verus! {

/// A plain union: a symbol, or a union whose right side is a symbol —
/// the shape `union_from_set` builds.
pub open spec fn plain_union(e: ExpV) -> bool
    decreases e,
{
    match e.node {
        NodeV::Symbol(_) => true,
        NodeV::Union { lhs, rhs } => plain_union(*lhs) && (rhs.node matches NodeV::Symbol(_)),
        _ => false,
    }
}

/// The letters of a plain union, left to right.
pub open spec fn union_letters(e: ExpV) -> Seq<Seq<char>>
    decreases e,
{
    match e.node {
        NodeV::Symbol(s) => seq![s],
        NodeV::Union { lhs, rhs } => union_letters(*lhs).push(rhs.node->Symbol_0),
        _ => Seq::empty(),
    }
}

/// Flattening a plain union whose letters are new to the accumulator
/// appends exactly its letters, in order, and succeeds.
pub proof fn lemma_to_set_appends(e: ExpV, acc: Seq<Seq<char>>)
    requires
        plain_union(e),
        forall|i: int, j: int|
            0 <= i < acc.len() && 0 <= j < union_letters(e).len() ==> acc[i] != union_letters(
                e,
            )[j],
        set_distinct(union_letters(e)),
    ensures
        spec_union_to_set(e, acc) == (acc + union_letters(e), true),
    decreases e,
{
    match e.node {
        NodeV::Symbol(s) => {
            assert(union_letters(e)[0] == s);
            assert(!acc.contains(s)) by {
                if acc.contains(s) {
                    let i = choose|i: int| 0 <= i < acc.len() && acc[i] == s;
                }
            }
            assert(set_insert(acc, s) =~= acc + union_letters(e));
        }
        NodeV::Union { lhs, rhs } => {
            let ll = union_letters(*lhs);
            let s = rhs.node->Symbol_0;
            assert(union_letters(e) == ll.push(s));
            assert forall|i: int, j: int|
                0 <= i < acc.len() && 0 <= j < ll.len() implies acc[i] != ll[j] by {
                assert(union_letters(e)[j] == ll[j]);
            }
            assert(set_distinct(ll)) by {
                assert forall|i: int, j: int| 0 <= i < j < ll.len() implies ll[i] != ll[j] by {
                    assert(union_letters(e)[i] == ll[i]);
                    assert(union_letters(e)[j] == ll[j]);
                }
            }
            lemma_to_set_appends(*lhs, acc);
            let acc2 = acc + ll;
            assert(spec_union_to_set(*lhs, acc) == (acc2, true));
            assert(spec_union_to_set(e, acc) == spec_union_to_set(*rhs, acc2));
            assert(!acc2.contains(s)) by {
                if acc2.contains(s) {
                    let i = choose|i: int| 0 <= i < acc2.len() && acc2[i] == s;
                    if i < acc.len() {
                        assert(acc[i] == s);
                        assert(union_letters(e)[ll.len() as int] == s);
                    } else {
                        assert(ll[i - acc.len()] == s);
                        assert(union_letters(e)[i - acc.len()] == s);
                        assert(union_letters(e)[ll.len() as int] == s);
                    }
                }
            }
            assert(spec_union_to_set(*rhs, acc2) == (set_insert(acc2, s), true));
            assert(set_insert(acc2, s) =~= acc + union_letters(e));
        }
        _ => {}
    }
}

/// Rebuilding from the letters of a plain union gives the union back,
/// annotations aside.
pub proof fn lemma_from_letters(e: ExpV, a: AnnotV)
    requires
        plain_union(e),
    ensures
        eq_mod_annot(spec_union_from_set(union_letters(e), a), e),
    decreases e,
{
    match e.node {
        NodeV::Symbol(s) => {
            assert(union_letters(e) == seq![s]);
            assert(spec_union_from_set(union_letters(e), a) == (ExpV {
                node: NodeV::Symbol(s),
                annot: a,
            }));
        }
        NodeV::Union { lhs, rhs } => {
            let ls = union_letters(e);
            assert(ls == union_letters(*lhs).push(rhs.node->Symbol_0));
            assert(ls.len() >= 2) by {
                assert(union_letters(*lhs).len() >= 1) by {
                    lemma_letters_nonempty(*lhs);
                }
            }
            assert(ls.drop_last() =~= union_letters(*lhs));
            lemma_from_letters(*lhs, a);
            let rebuilt = spec_union_from_set(ls, a);
            assert(rebuilt == (ExpV {
                node: NodeV::Union {
                    lhs: Box::new(spec_union_from_set(ls.drop_last(), a)),
                    rhs: Box::new(ExpV { node: NodeV::Symbol(ls.last()), annot: a }),
                },
                annot: a,
            }));
            assert(rhs.node == NodeV::Symbol(ls.last()));
            assert(eq_mod_annot(ExpV { node: NodeV::Symbol(ls.last()), annot: a }, *rhs));
            assert(eq_mod_annot(spec_union_from_set(ls.drop_last(), a), *lhs));
            assert(eq_mod_annot(rebuilt, e));
        }
        _ => {}
    }
}

pub proof fn lemma_letters_nonempty(e: ExpV)
    requires
        plain_union(e),
    ensures
        union_letters(e).len() >= 1,
    decreases e,
{
    match e.node {
        NodeV::Union { lhs, rhs } => {
            lemma_letters_nonempty(*lhs);
        }
        _ => {}
    }
}

/// Flattening a plain union of distinct letters to a set and rebuilding
/// the union from that set gives the union back, annotations aside.
pub proof fn lemma_union_round_trip(e: ExpV, a: AnnotV)
    requires
        plain_union(e),
        set_distinct(union_letters(e)),
    ensures
        spec_union_to_set(e, Seq::empty()).1,
        eq_mod_annot(
            spec_union_from_set(spec_union_to_set(e, Seq::empty()).0, a),
            e,
        ),
{
    lemma_to_set_appends(e, Seq::empty());
    assert(spec_union_to_set(e, Seq::empty()).0 =~= union_letters(e));
    lemma_from_letters(e, a);
}

/// A union rebuilt from a non-empty letter set is a plain union holding
/// exactly those letters, in order.
pub proof fn lemma_from_set_letters(s: Seq<Seq<char>>, a: AnnotV)
    requires
        s.len() >= 1,
    ensures
        plain_union(spec_union_from_set(s, a)),
        union_letters(spec_union_from_set(s, a)) == s,
    decreases s.len(),
{
    if s.len() == 1 {
        assert(union_letters(spec_union_from_set(s, a)) =~= s);
    } else {
        lemma_from_set_letters(s.drop_last(), a);
        let rebuilt = spec_union_from_set(s, a);
        assert(rebuilt.node == NodeV::Union {
            lhs: Box::new(spec_union_from_set(s.drop_last(), a)),
            rhs: Box::new(ExpV { node: NodeV::Symbol(s.last()), annot: a }),
        });
        assert(union_letters(rebuilt) =~= s);
    }
}

/// After the whole-alphabet patterns of a match are expanded, none is
/// left: every pattern of the rewritten match is a union expression.
pub proof fn lemma_any_removed(e: ExpV, alphabet: Seq<Seq<char>>)
    ensures
        spec_remove_any(e, alphabet).node matches NodeV::Match { exp, arms } ==> forall|i: int|
            0 <= i < arms.len() ==> !((#[trigger] arms[i]).pat is Any),
{
    match e.node {
        NodeV::Match { exp, arms } => {
            lemma_any_arms_no_any(arms, alphabet, Seq::empty());
        }
        _ => {}
    }
}

pub proof fn lemma_any_arms_no_any(arms: Seq<ArmV>, alphabet: Seq<Seq<char>>, acc: Seq<ArmV>)
    requires
        forall|i: int| 0 <= i < acc.len() ==> !((#[trigger] acc[i]).pat is Any),
    ensures
        forall|i: int|
            0 <= i < any_arms(arms, alphabet, acc).len() ==> !((#[trigger] any_arms(
                arms,
                alphabet,
                acc,
            )[i]).pat is Any),
    decreases arms.len(),
{
    if arms.len() > 0 {
        let arm = arms[0];
        let new_arm = ArmV {
            catch_id: arm.catch_id,
            pat: match arm.pat {
                PatV::Any => PatV::Union(spec_union_from_set(alphabet, arm.exp.annot)),
                p => p,
            },
            exp: arm.exp,
        };
        assert(!(new_arm.pat is Any));
        lemma_any_arms_no_any(arms.drop_first(), alphabet, acc.push(new_arm));
    }
}

/// How many whole-alphabet patterns a tree holds.
pub open spec fn any_count(e: ExpV) -> nat
    decreases e,
{
    match e.node {
        NodeV::Union { lhs, rhs } => any_count(*lhs) + any_count(*rhs),
        NodeV::Match { exp, arms } => any_count(*exp) + arms_any_count(arms),
        NodeV::Let { exp, binds } => any_count(*exp) + binds_any_count(binds),
        NodeV::Function { arg, exp } => any_count(*exp),
        NodeV::Application { func, arg } => any_count(*func) + any_count(*arg),
        _ => 0,
    }
}

pub open spec fn pat_any_count(p: PatV) -> nat
    decreases p,
{
    match p {
        PatV::Any => 1,
        PatV::Union(u) => any_count(u),
    }
}

pub open spec fn arms_any_count(arms: Seq<ArmV>) -> nat
    decreases arms,
{
    if arms.len() == 0 {
        0
    } else {
        pat_any_count(arms[0].pat) + any_count(arms[0].exp) + arms_any_count(arms.drop_first())
    }
}

pub open spec fn binds_any_count(binds: Seq<(Seq<char>, ExpV)>) -> nat
    decreases binds,
{
    if binds.len() == 0 {
        0
    } else {
        any_count(binds[0].1) + binds_any_count(binds.drop_first())
    }
}

/// How many arms of a match carry the whole-alphabet pattern.
pub open spec fn num_any(arms: Seq<ArmV>) -> nat
    decreases arms,
{
    if arms.len() == 0 {
        0
    } else {
        (if arms[0].pat is Any {
            1nat
        } else {
            0nat
        }) + num_any(arms.drop_first())
    }
}

/// The whole-alphabet patterns of a match, at its root.
pub open spec fn root_any(e: ExpV) -> nat {
    match e.node {
        NodeV::Match { exp, arms } => num_any(arms),
        _ => 0,
    }
}

/// A union rebuilt from letters holds no whole-alphabet pattern.
pub proof fn lemma_from_set_no_any(s: Seq<Seq<char>>, a: AnnotV)
    ensures
        any_count(spec_union_from_set(s, a)) == 0,
    decreases s.len(),
{
    if s.len() <= 1 {
        assert(spec_union_from_set(s, a) == (ExpV { node: NodeV::Symbol(s[0]), annot: a }));
    } else {
        lemma_from_set_no_any(s.drop_last(), a);
        let rebuilt = spec_union_from_set(s, a);
        assert(rebuilt.node == NodeV::Union {
            lhs: Box::new(spec_union_from_set(s.drop_last(), a)),
            rhs: Box::new(ExpV { node: NodeV::Symbol(s.last()), annot: a }),
        });
        assert(any_count(ExpV { node: NodeV::Symbol(s.last()), annot: a }) == 0);
    }
}

pub proof fn lemma_arms_any_push(acc: Seq<ArmV>, x: ArmV)
    ensures
        arms_any_count(acc.push(x)) == arms_any_count(acc) + pat_any_count(x.pat) + any_count(
            x.exp,
        ),
    decreases acc.len(),
{
    if acc.len() == 0 {
        assert(acc.push(x).drop_first() =~= acc);
    } else {
        assert(acc.push(x)[0] == acc[0]);
        assert(acc.push(x).drop_first() =~= acc.drop_first().push(x));
        lemma_arms_any_push(acc.drop_first(), x);
    }
}

pub proof fn lemma_num_any_push(acc: Seq<ArmV>, x: ArmV)
    ensures
        num_any(acc.push(x)) == num_any(acc) + (if x.pat is Any {
            1nat
        } else {
            0nat
        }),
    decreases acc.len(),
{
    if acc.len() == 0 {
        assert(acc.push(x).drop_first() =~= acc);
    } else {
        assert(acc.push(x)[0] == acc[0]);
        assert(acc.push(x).drop_first() =~= acc.drop_first().push(x));
        lemma_num_any_push(acc.drop_first(), x);
    }
}

/// Expanding the arms trades each whole-alphabet pattern for a pattern
/// holding none, and touches nothing else.
pub proof fn lemma_any_arms_count(arms: Seq<ArmV>, alphabet: Seq<Seq<char>>, acc: Seq<ArmV>)
    ensures
        arms_any_count(any_arms(arms, alphabet, acc)) + num_any(arms) == arms_any_count(acc)
            + arms_any_count(arms),
    decreases arms.len(),
{
    if arms.len() > 0 {
        let arm = arms[0];
        let new_arm = ArmV {
            catch_id: arm.catch_id,
            pat: match arm.pat {
                PatV::Any => PatV::Union(spec_union_from_set(alphabet, arm.exp.annot)),
                p => p,
            },
            exp: arm.exp,
        };
        if arm.pat is Any {
            lemma_from_set_no_any(alphabet, arm.exp.annot);
            assert(pat_any_count(new_arm.pat) == 0);
        } else {
            assert(pat_any_count(new_arm.pat) == pat_any_count(arm.pat));
        }
        lemma_arms_any_push(acc, new_arm);
        lemma_any_arms_count(arms.drop_first(), alphabet, acc.push(new_arm));
        assert(any_arms(arms, alphabet, acc) == any_arms(
            arms.drop_first(),
            alphabet,
            acc.push(new_arm),
        ));
        assert(arms_any_count(acc.push(new_arm)) == arms_any_count(acc) + pat_any_count(
            new_arm.pat,
        ) + any_count(arm.exp));
        assert(num_any(arms) == (if arm.pat is Any {
            1nat
        } else {
            0nat
        }) + num_any(arms.drop_first()));
        assert(arms_any_count(arms) == pat_any_count(arm.pat) + any_count(arm.exp)
            + arms_any_count(arms.drop_first()));
    }
}

/// When no arm carries the whole-alphabet pattern, the expansion is the
/// identity on the arms.
pub proof fn lemma_any_arms_id(arms: Seq<ArmV>, alphabet: Seq<Seq<char>>, acc: Seq<ArmV>)
    requires
        num_any(arms) == 0,
    ensures
        any_arms(arms, alphabet, acc) == acc + arms,
    decreases arms.len(),
{
    if arms.len() == 0 {
        assert(acc + arms =~= acc);
    } else {
        let arm = arms[0];
        assert(!(arm.pat is Any));
        let new_arm = ArmV {
            catch_id: arm.catch_id,
            pat: match arm.pat {
                PatV::Any => PatV::Union(spec_union_from_set(alphabet, arm.exp.annot)),
                p => p,
            },
            exp: arm.exp,
        };
        assert(new_arm == arm);
        lemma_any_arms_id(arms.drop_first(), alphabet, acc.push(arm));
        assert(acc.push(arm) + arms.drop_first() =~= acc + arms);
    }
}

/// The measure behind the expansion of whole-alphabet patterns: each
/// application removes exactly the patterns at the root match and mints no
/// new one, so the count strictly falls whenever the pass does work, and a
/// tree without such a pattern at the root is left exactly as it is.
pub proof fn lemma_remove_any_measure(e: ExpV, alphabet: Seq<Seq<char>>)
    ensures
        any_count(spec_remove_any(e, alphabet)) + root_any(e) == any_count(e),
        root_any(e) > 0 ==> any_count(spec_remove_any(e, alphabet)) < any_count(e),
        root_any(e) == 0 ==> spec_remove_any(e, alphabet) == e,
{
    match e.node {
        NodeV::Match { exp, arms } => {
            lemma_any_arms_count(arms, alphabet, Seq::empty());
            if num_any(arms) == 0 {
                lemma_any_arms_id(arms, alphabet, Seq::empty());
                assert(Seq::empty() + arms =~= arms);
                assert(spec_remove_any(e, alphabet) =~= e);
            }
        }
        _ => {}
    }
}

/// Each pass keeps the annotation at the root of the tree — in particular
/// the inferred type standing there — except constant-match folding, which
/// replaces the match by the chosen arm's body and hands that body's own
/// annotation through.
pub proof fn lemma_passes_keep_root_annot(e: ExpV, alphabet: Seq<Seq<char>>)
    ensures
        spec_remove_lets(e).annot == e.annot,
        spec_remove_any(e, alphabet).annot == e.annot,
        spec_remove_trivial(e).annot == e.annot,
        spec_move_matches(e).annot == e.annot,
        spec_remove_gets(e, alphabet).annot == e.annot,
        spec_spread_aborts(e).annot == e.annot,
{
}

} // verus!
