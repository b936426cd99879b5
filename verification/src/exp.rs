//! The abstract syntax tree of source programs, with its mathematical
//! model. Every node carries an annotation: the source location, enriched
//! with the inferred type once the type checker has run.

use vstd::prelude::*;
use crate::symset::{set_insert, SymSet};
use crate::types::{Annot, AnnotV};

verus! {

#[derive(Debug, PartialEq)]
pub enum Node {
    Identifier(String),
    Symbol(String),
    Abort,
    Union { lhs: Box<Exp>, rhs: Box<Exp> },
    Match { exp: Box<Exp>, arms: Vec<Arm> },
    Let { exp: Box<Exp>, binds: Vec<(String, Exp)> },
    Function { arg: String, exp: Box<Exp> },
    Application { func: Box<Exp>, arg: Box<Exp> },
}

/// A match arm: an optional binder for the matched symbol, a pattern, and
/// the arm's body.
#[derive(Debug, PartialEq)]
pub struct Arm {
    pub catch_id: Option<String>,
    pub pat: Pat,
    pub exp: Exp,
}

/// A match pattern: a symbol-set expression, or the whole alphabet.
#[derive(Debug, PartialEq)]
pub enum Pat {
    Union(Exp),
    Any,
}

/// An expression: a node and its annotation.
#[derive(Debug, PartialEq)]
pub struct Exp(pub Node, pub Annot);

/// Mathematical model of an expression.
#[verifier::ext_equal]
pub struct ExpV {
    pub node: NodeV,
    pub annot: AnnotV,
}

#[verifier::ext_equal]
pub enum NodeV {
    Identifier(Seq<char>),
    Symbol(Seq<char>),
    Abort,
    Union { lhs: Box<ExpV>, rhs: Box<ExpV> },
    Match { exp: Box<ExpV>, arms: Seq<ArmV> },
    Let { exp: Box<ExpV>, binds: Seq<(Seq<char>, ExpV)> },
    Function { arg: Seq<char>, exp: Box<ExpV> },
    Application { func: Box<ExpV>, arg: Box<ExpV> },
}

#[verifier::ext_equal]
pub struct ArmV {
    pub catch_id: Option<Seq<char>>,
    pub pat: PatV,
    pub exp: ExpV,
}

#[verifier::ext_equal]
pub enum PatV {
    Union(ExpV),
    Any,
}

pub open spec fn exp_view(e: Exp) -> ExpV
    decreases e,
{
    ExpV { node: node_view(e.0), annot: e.1@ }
}

pub open spec fn node_view(n: Node) -> NodeV
    decreases n,
{
    match n {
        Node::Identifier(s) => NodeV::Identifier(s@),
        Node::Symbol(s) => NodeV::Symbol(s@),
        Node::Abort => NodeV::Abort,
        Node::Union { lhs, rhs } => NodeV::Union {
            lhs: Box::new(exp_view(*lhs)),
            rhs: Box::new(exp_view(*rhs)),
        },
        Node::Match { exp, arms } => NodeV::Match {
            exp: Box::new(exp_view(*exp)),
            arms: arms_view(arms@),
        },
        Node::Let { exp, binds } => NodeV::Let {
            exp: Box::new(exp_view(*exp)),
            binds: binds_view(binds@),
        },
        Node::Function { arg, exp } => NodeV::Function {
            arg: arg@,
            exp: Box::new(exp_view(*exp)),
        },
        Node::Application { func, arg } => NodeV::Application {
            func: Box::new(exp_view(*func)),
            arg: Box::new(exp_view(*arg)),
        },
    }
}

pub open spec fn arm_view(a: Arm) -> ArmV
    decreases a,
{
    ArmV {
        catch_id: match a.catch_id {
            Some(s) => Some(s@),
            None => None,
        },
        pat: pat_view(a.pat),
        exp: exp_view(a.exp),
    }
}

pub open spec fn pat_view(p: Pat) -> PatV
    decreases p,
{
    match p {
        Pat::Union(e) => PatV::Union(exp_view(e)),
        Pat::Any => PatV::Any,
    }
}

pub open spec fn arms_view(s: Seq<Arm>) -> Seq<ArmV>
    decreases s,
{
    if s.len() == 0 {
        Seq::empty()
    } else {
        arms_view(s.drop_last()).push(arm_view(s.last()))
    }
}

pub open spec fn binds_view(s: Seq<(String, Exp)>) -> Seq<(Seq<char>, ExpV)>
    decreases s,
{
    if s.len() == 0 {
        Seq::empty()
    } else {
        binds_view(s.drop_last()).push((s.last().0@, exp_view(s.last().1)))
    }
}

pub broadcast proof fn lemma_arms_view_len(s: Seq<Arm>)
    ensures
        (#[trigger] arms_view(s)).len() == s.len(),
    decreases s,
{
    if s.len() > 0 {
        lemma_arms_view_len(s.drop_last());
    }
}

pub broadcast proof fn lemma_arms_view_index(s: Seq<Arm>, i: int)
    requires
        0 <= i < s.len(),
    ensures
        #[trigger] arms_view(s)[i] == arm_view(s[i]),
    decreases s,
{
    lemma_arms_view_len(s);
    if i < s.len() - 1 {
        lemma_arms_view_index(s.drop_last(), i);
        lemma_arms_view_len(s.drop_last());
    }
}

pub broadcast proof fn lemma_arms_view_push(s: Seq<Arm>, a: Arm)
    ensures
        #[trigger] arms_view(s.push(a)) == arms_view(s).push(arm_view(a)),
{
    assert(s.push(a).drop_last() =~= s);
    assert(s.push(a).last() == a);
}

pub broadcast proof fn lemma_binds_view_push(s: Seq<(String, Exp)>, b: (String, Exp))
    ensures
        #[trigger] binds_view(s.push(b)) == binds_view(s).push((b.0@, exp_view(b.1))),
{
    assert(s.push(b).drop_last() =~= s);
    assert(s.push(b).last() == b);
}

pub broadcast proof fn lemma_binds_view_len(s: Seq<(String, Exp)>)
    ensures
        (#[trigger] binds_view(s)).len() == s.len(),
    decreases s,
{
    if s.len() > 0 {
        lemma_binds_view_len(s.drop_last());
    }
}

pub broadcast proof fn lemma_binds_view_index(s: Seq<(String, Exp)>, i: int)
    requires
        0 <= i < s.len(),
    ensures
        #[trigger] binds_view(s)[i] == (s[i].0@, exp_view(s[i].1)),
    decreases s,
{
    lemma_binds_view_len(s);
    if i < s.len() - 1 {
        lemma_binds_view_index(s.drop_last(), i);
        lemma_binds_view_len(s.drop_last());
    }
}

impl View for Exp {
    type V = ExpV;

    open spec fn view(&self) -> ExpV {
        exp_view(*self)
    }
}

impl View for Node {
    type V = NodeV;

    open spec fn view(&self) -> NodeV {
        node_view(*self)
    }
}

impl View for Arm {
    type V = ArmV;

    open spec fn view(&self) -> ArmV {
        arm_view(*self)
    }
}

impl View for Pat {
    type V = PatV;

    open spec fn view(&self) -> PatV {
        pat_view(*self)
    }
}

impl Clone for Exp {
    fn clone(&self) -> (r: Self)
        ensures
            r@ == self@,
        decreases *self,
    {
        Exp(self.0.clone(), self.1.clone())
    }
}

impl Clone for Pat {
    fn clone(&self) -> (r: Self)
        ensures
            r@ == self@,
        decreases *self,
    {
        match self {
            Pat::Union(e) => Pat::Union(e.clone()),
            Pat::Any => Pat::Any,
        }
    }
}

impl Clone for Arm {
    fn clone(&self) -> (r: Self)
        ensures
            r@ == self@,
        decreases *self,
    {
        Arm {
            catch_id: match &self.catch_id {
                Some(s) => Some(s.clone()),
                None => None,
            },
            pat: self.pat.clone(),
            exp: self.exp.clone(),
        }
    }
}

impl Clone for Node {
    #[verifier::loop_isolation(false)]
    fn clone(&self) -> (r: Self)
        ensures
            r@ == self@,
        decreases *self,
    {
        broadcast use lemma_arms_view_len, lemma_arms_view_index, lemma_binds_view_len, lemma_binds_view_index;

        match self {
            Node::Identifier(s) => Node::Identifier(s.clone()),
            Node::Symbol(s) => Node::Symbol(s.clone()),
            Node::Abort => Node::Abort,
            Node::Union { lhs, rhs } => Node::Union {
                lhs: Box::new((**lhs).clone()),
                rhs: Box::new((**rhs).clone()),
            },
            Node::Match { exp, arms } => {
                let mut new_arms: Vec<Arm> = Vec::new();
                let mut i: usize = 0;
                while i < arms.len()
                    invariant
                        i <= arms@.len(),
                        new_arms@.len() == i,
                        forall|j: int| 0 <= j < i ==> #[trigger] arm_view(new_arms@[j])
                            == arm_view(arms@[j]),
                    decreases arms@.len() - i,
                {
                    proof {
                        assert(decreases_to!(*self => *arms));
                        assert(decreases_to!(*arms => arms@[i as int]));
                    }
                    let a = arms[i].clone();
                    new_arms.push(a);
                    i = i + 1;
                }
                proof {
                    lemma_arms_view_eq(new_arms@, arms@);
                }
                Node::Match { exp: Box::new((**exp).clone()), arms: new_arms }
            }
            Node::Let { exp, binds } => {
                let mut new_binds: Vec<(String, Exp)> = Vec::new();
                let mut i: usize = 0;
                while i < binds.len()
                    invariant
                        i <= binds@.len(),
                        new_binds@.len() == i,
                        forall|j: int|
                            0 <= j < i ==> (#[trigger] new_binds@[j]).0@ == binds@[j].0@
                                && exp_view(new_binds@[j].1) == exp_view(binds@[j].1),
                    decreases binds@.len() - i,
                {
                    proof {
                        assert(decreases_to!(*self => *binds));
                        assert(decreases_to!(*binds => binds@[i as int]));
                        assert(decreases_to!(binds@[i as int] => binds@[i as int].1));
                    }
                    let id = binds[i].0.clone();
                    let e = binds[i].1.clone();
                    new_binds.push((id, e));
                    i = i + 1;
                }
                proof {
                    lemma_binds_view_eq(new_binds@, binds@);
                }
                Node::Let { exp: Box::new((**exp).clone()), binds: new_binds }
            }
            Node::Function { arg, exp } => Node::Function {
                arg: arg.clone(),
                exp: Box::new((**exp).clone()),
            },
            Node::Application { func, arg } => Node::Application {
                func: Box::new((**func).clone()),
                arg: Box::new((**arg).clone()),
            },
        }
    }
}

/// The symbols a tree mentions, folded left to right into `acc`.
pub open spec fn spec_collect_symbols(e: ExpV, acc: Seq<Seq<char>>) -> Seq<Seq<char>>
    decreases e,
{
    match e.node {
        NodeV::Symbol(s) => set_insert(acc, s),
        NodeV::Union { lhs, rhs } => spec_collect_symbols(
            *rhs,
            spec_collect_symbols(*lhs, acc),
        ),
        NodeV::Match { exp, arms } => collect_arms(arms, spec_collect_symbols(*exp, acc)),
        NodeV::Let { exp, binds } => collect_binds(binds, spec_collect_symbols(*exp, acc)),
        NodeV::Function { arg, exp } => spec_collect_symbols(*exp, acc),
        NodeV::Application { func, arg } => spec_collect_symbols(
            *arg,
            spec_collect_symbols(*func, acc),
        ),
        _ => acc,
    }
}

pub open spec fn collect_arm_one(a: ArmV, acc: Seq<Seq<char>>) -> Seq<Seq<char>>
    decreases a,
{
    spec_collect_symbols(
        a.exp,
        match a.pat {
            PatV::Union(p) => spec_collect_symbols(p, acc),
            PatV::Any => acc,
        },
    )
}

pub open spec fn collect_arms(arms: Seq<ArmV>, acc: Seq<Seq<char>>) -> Seq<Seq<char>>
    decreases arms,
{
    if arms.len() == 0 {
        acc
    } else {
        collect_arms(arms.drop_first(), collect_arm_one(arms[0], acc))
    }
}

pub open spec fn collect_binds(binds: Seq<(Seq<char>, ExpV)>, acc: Seq<Seq<char>>) -> Seq<
    Seq<char>,
>
    decreases binds,
{
    if binds.len() == 0 {
        acc
    } else {
        collect_binds(binds.drop_first(), spec_collect_symbols(binds[0].1, acc))
    }
}

/// The symbols of a union-of-symbols expression, and whether the
/// expression really was one; a failing left side stops the walk.
pub open spec fn spec_union_to_set(e: ExpV, acc: Seq<Seq<char>>) -> (Seq<Seq<char>>, bool)
    decreases e,
{
    match e.node {
        NodeV::Symbol(s) => (set_insert(acc, s), true),
        NodeV::Union { lhs, rhs } => {
            let (a1, ok1) = spec_union_to_set(*lhs, acc);
            if ok1 {
                spec_union_to_set(*rhs, a1)
            } else {
                (a1, false)
            }
        }
        _ => (acc, false),
    }
}

/// The left-nested union expression holding the symbols of `s` in order,
/// every node annotated with `a`.
pub open spec fn spec_union_from_set(s: Seq<Seq<char>>, a: AnnotV) -> ExpV
    decreases s.len(),
{
    if s.len() <= 1 {
        ExpV { node: NodeV::Symbol(s[0]), annot: a }
    } else {
        ExpV {
            node: NodeV::Union {
                lhs: Box::new(spec_union_from_set(s.drop_last(), a)),
                rhs: Box::new(ExpV { node: NodeV::Symbol(s.last()), annot: a }),
            },
            annot: a,
        }
    }
}

/// Whether the identifier occurs free in the tree. Bindings of the same
/// name shadow it; `Let` nodes are not inspected, as the walk runs after
/// their removal.
pub open spec fn spec_uses_id(e: ExpV, id: Seq<char>) -> bool
    decreases e,
{
    match e.node {
        NodeV::Identifier(x) => x == id,
        NodeV::Union { lhs, rhs } => spec_uses_id(*lhs, id) || spec_uses_id(*rhs, id),
        NodeV::Match { exp, arms } => spec_uses_id(*exp, id) || arms_use_id(arms, id),
        NodeV::Function { arg, exp } => arg != id && spec_uses_id(*exp, id),
        NodeV::Application { func, arg } => spec_uses_id(*func, id) || spec_uses_id(*arg, id),
        _ => false,
    }
}

pub open spec fn arm_uses_id(a: ArmV, id: Seq<char>) -> bool
    decreases a,
{
    (a.catch_id != Some(id) && spec_uses_id(a.exp, id)) || (match a.pat {
        PatV::Union(p) => spec_uses_id(p, id),
        PatV::Any => false,
    })
}

pub open spec fn arms_use_id(arms: Seq<ArmV>, id: Seq<char>) -> bool
    decreases arms,
{
    if arms.len() == 0 {
        false
    } else {
        arm_uses_id(arms[0], id) || arms_use_id(arms.drop_first(), id)
    }
}

/// Structural equality of two trees, annotations aside.
pub open spec fn eq_mod_annot(a: ExpV, b: ExpV) -> bool
    decreases a,
{
    match (a.node, b.node) {
        (NodeV::Identifier(x), NodeV::Identifier(y)) => x == y,
        (NodeV::Symbol(x), NodeV::Symbol(y)) => x == y,
        (NodeV::Abort, NodeV::Abort) => true,
        (NodeV::Union { lhs: l1, rhs: r1 }, NodeV::Union { lhs: l2, rhs: r2 }) => eq_mod_annot(
            *l1,
            *l2,
        ) && eq_mod_annot(*r1, *r2),
        (NodeV::Match { exp: e1, arms: a1 }, NodeV::Match { exp: e2, arms: a2 }) => eq_mod_annot(
            *e1,
            *e2,
        ) && arms_eq_mod(a1, a2),
        (NodeV::Let { exp: e1, binds: b1 }, NodeV::Let { exp: e2, binds: b2 }) => eq_mod_annot(
            *e1,
            *e2,
        ) && binds_eq_mod(b1, b2),
        (NodeV::Function { arg: g1, exp: e1 }, NodeV::Function { arg: g2, exp: e2 }) => g1 == g2
            && eq_mod_annot(*e1, *e2),
        (
            NodeV::Application { func: f1, arg: x1 },
            NodeV::Application { func: f2, arg: x2 },
        ) => eq_mod_annot(*f1, *f2) && eq_mod_annot(*x1, *x2),
        _ => false,
    }
}

pub open spec fn arm_eq_mod(a: ArmV, b: ArmV) -> bool
    decreases a,
{
    a.catch_id == b.catch_id && (match (a.pat, b.pat) {
        (PatV::Union(p), PatV::Union(q)) => eq_mod_annot(p, q),
        (PatV::Any, PatV::Any) => true,
        _ => false,
    }) && eq_mod_annot(a.exp, b.exp)
}

pub open spec fn arms_eq_mod(a: Seq<ArmV>, b: Seq<ArmV>) -> bool
    decreases a,
{
    a.len() == b.len() && (a.len() == 0 || (arm_eq_mod(a[0], b[0]) && arms_eq_mod(
        a.drop_first(),
        b.drop_first(),
    )))
}

pub open spec fn binds_eq_mod(a: Seq<(Seq<char>, ExpV)>, b: Seq<(Seq<char>, ExpV)>) -> bool
    decreases a,
{
    a.len() == b.len() && (a.len() == 0 || (a[0].0 == b[0].0 && eq_mod_annot(a[0].1, b[0].1)
        && binds_eq_mod(a.drop_first(), b.drop_first())))
}

impl Exp {
    /// Collects every symbol used in the expression, recursively.
    #[verifier::loop_isolation(false)]
    pub fn collect_symbols(&self, set: &mut SymSet)
        ensures
            final(set)@ == spec_collect_symbols(self@, old(set)@),
        decreases *self,
    {
        broadcast use lemma_arms_view_len, lemma_arms_view_index, lemma_binds_view_len, lemma_binds_view_index;

        match &self.0 {
            Node::Symbol(s) => {
                set.insert(s.clone());
            }
            Node::Union { lhs, rhs } => {
                lhs.collect_symbols(set);
                rhs.collect_symbols(set);
            }
            Node::Match { exp, arms } => {
                exp.collect_symbols(set);
                let ghost avs = arms_view(arms@);
                let ghost base = set@;
                proof {
                    assert(avs.subrange(0, avs.len() as int) =~= avs);
                }
                let mut i: usize = 0;
                while i < arms.len()
                    invariant
                        i <= arms@.len(),
                        collect_arms(avs, base) == collect_arms(
                            avs.subrange(i as int, avs.len() as int),
                            set@,
                        ),
                    decreases arms@.len() - i,
                {
                    let ghost before = set@;
                    proof {
                        assert(decreases_to!(*self => *arms));
                        assert(decreases_to!(*arms => arms@[i as int]));
                        assert(decreases_to!(arms@[i as int] => arms@[i as int].pat));
                        assert(decreases_to!(arms@[i as int] => arms@[i as int].exp));
                    }
                    match &arms[i].pat {
                        Pat::Union(p) => {
                            p.collect_symbols(set);
                        }
                        Pat::Any => {}
                    }
                    arms[i].exp.collect_symbols(set);
                    proof {
                        let suffix = avs.subrange(i as int, avs.len() as int);
                        assert(suffix[0] == arm_view(arms@[i as int]));
                        assert(suffix.drop_first() =~= avs.subrange(i + 1, avs.len() as int));
                        assert(set@ == collect_arm_one(arm_view(arms@[i as int]), before));
                    }
                    i = i + 1;
                }
                proof {
                    assert(avs.subrange(avs.len() as int, avs.len() as int).len() == 0);
                }
            }
            Node::Let { exp, binds } => {
                exp.collect_symbols(set);
                let ghost bvs = binds_view(binds@);
                let ghost base = set@;
                proof {
                    assert(bvs.subrange(0, bvs.len() as int) =~= bvs);
                }
                let mut i: usize = 0;
                while i < binds.len()
                    invariant
                        i <= binds@.len(),
                        collect_binds(bvs, base) == collect_binds(
                            bvs.subrange(i as int, bvs.len() as int),
                            set@,
                        ),
                    decreases binds@.len() - i,
                {
                    let ghost before = set@;
                    proof {
                        assert(decreases_to!(*self => *binds));
                        assert(decreases_to!(*binds => binds@[i as int]));
                        assert(decreases_to!(binds@[i as int] => binds@[i as int].1));
                    }
                    binds[i].1.collect_symbols(set);
                    proof {
                        let suffix = bvs.subrange(i as int, bvs.len() as int);
                        assert(suffix[0] == (binds@[i as int].0@, exp_view(binds@[i as int].1)));
                        assert(suffix.drop_first() =~= bvs.subrange(i + 1, bvs.len() as int));
                        assert(set@ == spec_collect_symbols(exp_view(binds@[i as int].1), before));
                    }
                    i = i + 1;
                }
                proof {
                    assert(bvs.subrange(bvs.len() as int, bvs.len() as int).len() == 0);
                }
            }
            Node::Function { arg, exp } => {
                exp.collect_symbols(set);
            }
            Node::Application { func, arg } => {
                func.collect_symbols(set);
                arg.collect_symbols(set);
            }
            _ => {}
        }
    }

    /// Collects the symbols of a union-of-symbols expression into
    /// `symbols`; returns false if the expression is not one.
    pub fn union_to_set(&self, symbols: &mut SymSet) -> (ok: bool)
        ensures
            final(symbols)@ == spec_union_to_set(self@, old(symbols)@).0,
            ok == spec_union_to_set(self@, old(symbols)@).1,
        decreases *self,
    {
        match &self.0 {
            Node::Symbol(s) => {
                symbols.insert(s.clone());
                true
            }
            Node::Union { lhs, rhs } => {
                let ok1 = lhs.union_to_set(symbols);
                if ok1 {
                    rhs.union_to_set(symbols)
                } else {
                    false
                }
            }
            _ => false,
        }
    }

    /// Builds the union expression holding the symbols of `symbols`, in
    /// their order, each node annotated with `annot`.
    #[verifier::loop_isolation(false)]
    pub fn union_from_set(symbols: &SymSet, annot: &Annot) -> (r: Exp)
        requires
            symbols@.len() > 0,
        ensures
            r@ == spec_union_from_set(symbols@, annot@),
    {
        let mut exp = Exp(Node::Symbol(symbols.get(0).clone()), annot.clone());
        assert(exp@ == spec_union_from_set(symbols@.subrange(0, 1), annot@));
        let n = symbols.len();
        let mut i: usize = 1;
        while i < n
            invariant
                1 <= i <= n,
                n == symbols@.len(),
                exp@ == spec_union_from_set(symbols@.subrange(0, i as int), annot@),
            decreases n - i,
        {
            let ghost prev = exp@;
            let sym = Exp(Node::Symbol(symbols.get(i).clone()), annot.clone());
            let ghost symv = sym@;
            exp = Exp(
                Node::Union { lhs: Box::new(exp), rhs: Box::new(sym) },
                annot.clone(),
            );
            proof {
                let pre = symbols@.subrange(0, i as int);
                let cur = symbols@.subrange(0, i + 1);
                assert(cur.drop_last() =~= pre);
                assert(cur.last() == symbols@[i as int]);
                assert(exp@.node == NodeV::Union { lhs: Box::new(prev), rhs: Box::new(symv) });
                assert(symv == ExpV { node: NodeV::Symbol(cur.last()), annot: annot@ });
                assert(cur.len() >= 2);
                assert(spec_union_from_set(cur, annot@) == ExpV {
                    node: NodeV::Union {
                        lhs: Box::new(spec_union_from_set(pre, annot@)),
                        rhs: Box::new(ExpV { node: NodeV::Symbol(cur.last()), annot: annot@ }),
                    },
                    annot: annot@,
                });
                assert(exp@ =~= spec_union_from_set(cur, annot@));
            }
            i = i + 1;
        }
        proof {
            assert(symbols@.subrange(0, symbols@.len() as int) =~= symbols@);
        }
        exp
    }

    /// Returns true when the identifier occurs free in the expression.
    #[verifier::loop_isolation(false)]
    #[verifier::rlimit(50)]
    pub fn uses_id(&self, id: &String) -> (r: bool)
        ensures
            r == spec_uses_id(self@, id@),
        decreases *self,
    {
        broadcast use lemma_arms_view_len, lemma_arms_view_index, lemma_binds_view_len, lemma_binds_view_index;

        match &self.0 {
            Node::Identifier(x) => *x == *id,
            Node::Union { lhs, rhs } => {
                let a = lhs.uses_id(id);
                if a {
                    true
                } else {
                    rhs.uses_id(id)
                }
            }
            Node::Match { exp, arms } => {
                if exp.uses_id(id) {
                    return true;
                }
                let ghost avs = arms_view(arms@);
                proof {
                    assert(avs.subrange(0, avs.len() as int) =~= avs);
                }
                let mut i: usize = 0;
                while i < arms.len()
                    invariant
                        i <= arms@.len(),
                        arms_use_id(avs, id@) == arms_use_id(
                            avs.subrange(i as int, avs.len() as int),
                            id@,
                        ),
                    decreases arms@.len() - i,
                {
                    proof {
                        assert(decreases_to!(*self => *arms));
                        assert(decreases_to!(*arms => arms@[i as int]));
                        assert(decreases_to!(arms@[i as int] => arms@[i as int].pat));
                        assert(decreases_to!(arms@[i as int] => arms@[i as int].exp));
                        let suffix = avs.subrange(i as int, avs.len() as int);
                        assert(suffix[0] == arm_view(arms@[i as int]));
                        assert(suffix.drop_first() =~= avs.subrange(i + 1, avs.len() as int));
                    }
                    let catch_matches = match &arms[i].catch_id {
                        Some(c) => *c == *id,
                        None => false,
                    };
                    proof {
                        assert(catch_matches == (arm_view(arms@[i as int]).catch_id == Some(
                            id@,
                        )));
                    }
                    if !catch_matches {
                        if arms[i].exp.uses_id(id) {
                            proof {
                                let av = arm_view(arms@[i as int]);
                                assert(spec_uses_id(av.exp, id@));
                                assert(arm_uses_id(av, id@));
                                assert(arms_use_id(
                                    avs.subrange(i as int, avs.len() as int),
                                    id@,
                                ));
                                assert(arms_use_id(avs, id@));
                                assert(spec_uses_id(self@, id@));
                            }
                            return true;
                        }
                    }
                    match &arms[i].pat {
                        Pat::Union(p) => {
                            if p.uses_id(id) {
                                proof {
                                    let av = arm_view(arms@[i as int]);
                                    assert(av.pat == pat_view(arms@[i as int].pat));
                                    assert(arm_uses_id(av, id@));
                                    assert(arms_use_id(
                                        avs.subrange(i as int, avs.len() as int),
                                        id@,
                                    ));
                                    assert(arms_use_id(avs, id@));
                                    assert(spec_uses_id(self@, id@));
                                }
                                return true;
                            }
                        }
                        Pat::Any => {}
                    }
                    proof {
                        assert(!arm_uses_id(arm_view(arms@[i as int]), id@));
                    }
                    i = i + 1;
                }
                proof {
                    assert(avs.subrange(avs.len() as int, avs.len() as int).len() == 0);
                }
                false
            }
            Node::Function { arg, exp } => {
                if *arg == *id {
                    false
                } else {
                    exp.uses_id(id)
                }
            }
            Node::Application { func, arg } => {
                let a = func.uses_id(id);
                if a {
                    true
                } else {
                    arg.uses_id(id)
                }
            }
            _ => false,
        }
    }

    /// Decides structural equality with `other`, ignoring annotations.
    #[verifier::loop_isolation(false)]
    #[verifier::rlimit(50)]
    pub fn eq_ignore_annot(&self, other: &Exp) -> (r: bool)
        ensures
            r == eq_mod_annot(self@, other@),
        decreases *self,
    {
        broadcast use lemma_arms_view_len, lemma_arms_view_index, lemma_binds_view_len, lemma_binds_view_index;

        match (&self.0, &other.0) {
            (Node::Identifier(x), Node::Identifier(y)) => *x == *y,
            (Node::Symbol(x), Node::Symbol(y)) => *x == *y,
            (Node::Abort, Node::Abort) => true,
            (Node::Union { lhs: l1, rhs: r1 }, Node::Union { lhs: l2, rhs: r2 }) => {
                let a = l1.eq_ignore_annot(l2);
                let b = r1.eq_ignore_annot(r2);
                a && b
            }
            (Node::Match { exp: e1, arms: a1 }, Node::Match { exp: e2, arms: a2 }) => {
                if !e1.eq_ignore_annot(e2) {
                    return false;
                }
                let ghost v1 = arms_view(a1@);
                let ghost v2 = arms_view(a2@);
                if a1.len() != a2.len() {
                    proof {
                        assert(v1.len() != v2.len());
                        assert(!arms_eq_mod(v1, v2));
                        assert(!eq_mod_annot(self@, other@));
                    }
                    return false;
                }
                proof {
                    assert(v1.subrange(0, v1.len() as int) =~= v1);
                    assert(v2.subrange(0, v2.len() as int) =~= v2);
                }
                let mut i: usize = 0;
                while i < a1.len()
                    invariant
                        i <= a1@.len(),
                        a1@.len() == a2@.len(),
                        arms_eq_mod(v1, v2) == arms_eq_mod(
                            v1.subrange(i as int, v1.len() as int),
                            v2.subrange(i as int, v2.len() as int),
                        ),
                    decreases a1@.len() - i,
                {
                    proof {
                        assert(decreases_to!(*self => *a1));
                        assert(decreases_to!(*a1 => a1@[i as int]));
                        assert(decreases_to!(a1@[i as int] => a1@[i as int].pat));
                        assert(decreases_to!(a1@[i as int] => a1@[i as int].exp));
                        let s1 = v1.subrange(i as int, v1.len() as int);
                        let s2 = v2.subrange(i as int, v2.len() as int);
                        assert(s1[0] == arm_view(a1@[i as int]));
                        assert(s2[0] == arm_view(a2@[i as int]));
                        assert(s1.drop_first() =~= v1.subrange(i + 1, v1.len() as int));
                        assert(s2.drop_first() =~= v2.subrange(i + 1, v2.len() as int));
                    }
                    let ghost w1 = arm_view(a1@[i as int]);
                    let ghost w2 = arm_view(a2@[i as int]);
                    let catch_eq = match (&a1[i].catch_id, &a2[i].catch_id) {
                        (Some(x), Some(y)) => *x == *y,
                        (None, None) => true,
                        _ => false,
                    };
                    proof {
                        assert(catch_eq == (w1.catch_id == w2.catch_id));
                    }
                    if !catch_eq {
                        proof {
                            assert(!arm_eq_mod(w1, w2));
                            assert(!arms_eq_mod(
                                v1.subrange(i as int, v1.len() as int),
                                v2.subrange(i as int, v2.len() as int),
                            ));
                            assert(!eq_mod_annot(self@, other@));
                        }
                        return false;
                    }
                    let pat_eq = match (&a1[i].pat, &a2[i].pat) {
                        (Pat::Union(p), Pat::Union(q)) => p.eq_ignore_annot(q),
                        (Pat::Any, Pat::Any) => true,
                        _ => false,
                    };
                    if !pat_eq {
                        proof {
                            assert(!arm_eq_mod(w1, w2));
                            assert(!arms_eq_mod(
                                v1.subrange(i as int, v1.len() as int),
                                v2.subrange(i as int, v2.len() as int),
                            ));
                            assert(!eq_mod_annot(self@, other@));
                        }
                        return false;
                    }
                    if !a1[i].exp.eq_ignore_annot(&a2[i].exp) {
                        proof {
                            assert(!arm_eq_mod(w1, w2));
                            assert(!arms_eq_mod(
                                v1.subrange(i as int, v1.len() as int),
                                v2.subrange(i as int, v2.len() as int),
                            ));
                            assert(!eq_mod_annot(self@, other@));
                        }
                        return false;
                    }
                    proof {
                        assert(arm_eq_mod(arm_view(a1@[i as int]), arm_view(a2@[i as int])));
                    }
                    i = i + 1;
                }
                proof {
                    assert(v1.subrange(v1.len() as int, v1.len() as int).len() == 0);
                }
                true
            }
            (Node::Let { exp: e1, binds: b1 }, Node::Let { exp: e2, binds: b2 }) => {
                if !e1.eq_ignore_annot(e2) {
                    return false;
                }
                let ghost v1 = binds_view(b1@);
                let ghost v2 = binds_view(b2@);
                if b1.len() != b2.len() {
                    proof {
                        assert(v1.len() != v2.len());
                        assert(!binds_eq_mod(v1, v2));
                        assert(!eq_mod_annot(self@, other@));
                    }
                    return false;
                }
                proof {
                    assert(v1.subrange(0, v1.len() as int) =~= v1);
                    assert(v2.subrange(0, v2.len() as int) =~= v2);
                }
                let mut i: usize = 0;
                while i < b1.len()
                    invariant
                        i <= b1@.len(),
                        b1@.len() == b2@.len(),
                        binds_eq_mod(v1, v2) == binds_eq_mod(
                            v1.subrange(i as int, v1.len() as int),
                            v2.subrange(i as int, v2.len() as int),
                        ),
                    decreases b1@.len() - i,
                {
                    proof {
                        assert(decreases_to!(*self => *b1));
                        assert(decreases_to!(*b1 => b1@[i as int]));
                        assert(decreases_to!(b1@[i as int] => b1@[i as int].1));
                        let s1 = v1.subrange(i as int, v1.len() as int);
                        let s2 = v2.subrange(i as int, v2.len() as int);
                        assert(s1[0] == (b1@[i as int].0@, exp_view(b1@[i as int].1)));
                        assert(s2[0] == (b2@[i as int].0@, exp_view(b2@[i as int].1)));
                        assert(s1.drop_first() =~= v1.subrange(i + 1, v1.len() as int));
                        assert(s2.drop_first() =~= v2.subrange(i + 1, v2.len() as int));
                    }
                    let ids_eq = b1[i].0 == b2[i].0;
                    if !ids_eq {
                        proof {
                            assert(!binds_eq_mod(
                                v1.subrange(i as int, v1.len() as int),
                                v2.subrange(i as int, v2.len() as int),
                            ));
                            assert(!binds_eq_mod(v1, v2));
                            assert(!eq_mod_annot(self@, other@));
                        }
                        return false;
                    }
                    if !b1[i].1.eq_ignore_annot(&b2[i].1) {
                        proof {
                            assert(!binds_eq_mod(
                                v1.subrange(i as int, v1.len() as int),
                                v2.subrange(i as int, v2.len() as int),
                            ));
                            assert(!binds_eq_mod(v1, v2));
                            assert(!eq_mod_annot(self@, other@));
                        }
                        return false;
                    }
                    proof {
                        assert(v1.subrange(i as int, v1.len() as int)[0] == (
                            b1@[i as int].0@,
                            exp_view(b1@[i as int].1),
                        ));
                    }
                    i = i + 1;
                }
                proof {
                    assert(v1.subrange(v1.len() as int, v1.len() as int).len() == 0);
                }
                true
            }
            (Node::Function { arg: g1, exp: e1 }, Node::Function { arg: g2, exp: e2 }) => {
                let names = *g1 == *g2;
                if !names {
                    false
                } else {
                    e1.eq_ignore_annot(e2)
                }
            }
            (Node::Application { func: f1, arg: x1 }, Node::Application { func: f2, arg: x2 }) => {
                let a = f1.eq_ignore_annot(f2);
                let b = x1.eq_ignore_annot(x2);
                a && b
            }
            _ => false,
        }
    }
}

proof fn lemma_arms_view_eq(a: Seq<Arm>, b: Seq<Arm>)
    requires
        a.len() == b.len(),
        forall|j: int| 0 <= j < a.len() ==> #[trigger] arm_view(a[j]) == arm_view(b[j]),
    ensures
        arms_view(a) == arms_view(b),
{
    broadcast use lemma_arms_view_len, lemma_arms_view_index;

    assert(arms_view(a) =~= arms_view(b));
}

proof fn lemma_binds_view_eq(a: Seq<(String, Exp)>, b: Seq<(String, Exp)>)
    requires
        a.len() == b.len(),
        forall|j: int|
            0 <= j < a.len() ==> (#[trigger] a[j]).0@ == b[j].0@ && exp_view(a[j].1) == exp_view(
                b[j].1,
            ),
    ensures
        binds_view(a) == binds_view(b),
{
    broadcast use lemma_binds_view_len, lemma_binds_view_index;

    assert(binds_view(a) =~= binds_view(b));
}

} // verus!
