//! Expression types and the table of typing constraints collected during
//! inference.
//!
//! `Tape` carries an ownership flag: an owned tape may be consumed, a
//! borrowed one only inspected, and owned casts to borrowed but not back.
//! Constraints are solved eagerly: the first constant that reaches an
//! unresolved variable fixes it, except that a cast of a variable into a
//! borrowed tape is deferred, so that a later owned lower bound can still
//! fix the variable to an owned tape.

use vstd::prelude::*;
use crate::text::{chars_to_string, dec_str, push_str, push_usize};
use crate::token::{loc_text, LocV, TokenLoc};

verus! {

#[derive(Debug, PartialEq)]
pub enum Type {
    Symbol,
    Union,
    Tape { owned: bool },
    Halt,
    Function { arg: Box<Type>, ret: Box<Type> },
    Unresolved(usize),
    UnresolvedUnion(usize),
}

/// Mathematical model of a type.
#[verifier::ext_equal]
pub enum TypeV {
    Symbol,
    Union,
    Tape { owned: bool },
    Halt,
    Function { arg: Box<TypeV>, ret: Box<TypeV> },
    Unresolved(nat),
    UnresolvedUnion(nat),
}

pub open spec fn type_view(t: Type) -> TypeV
    decreases t,
{
    match t {
        Type::Symbol => TypeV::Symbol,
        Type::Union => TypeV::Union,
        Type::Tape { owned } => TypeV::Tape { owned },
        Type::Halt => TypeV::Halt,
        Type::Function { arg, ret } => TypeV::Function {
            arg: Box::new(type_view(*arg)),
            ret: Box::new(type_view(*ret)),
        },
        Type::Unresolved(id) => TypeV::Unresolved(id as nat),
        Type::UnresolvedUnion(id) => TypeV::UnresolvedUnion(id as nat),
    }
}

impl View for Type {
    type V = TypeV;

    open spec fn view(&self) -> TypeV {
        type_view(*self)
    }
}

/// The number of nodes in a type, used as a termination measure.
pub open spec fn type_vsize(t: TypeV) -> nat
    decreases t,
{
    match t {
        TypeV::Function { arg, ret } => 1 + type_vsize(*arg) + type_vsize(*ret),
        _ => 1,
    }
}

/// Every `Unresolved` identifier in the type lies below `n`.
pub open spec fn type_wf(t: TypeV, n: nat) -> bool
    decreases t,
{
    match t {
        TypeV::Function { arg, ret } => type_wf(*arg, n) && type_wf(*ret, n),
        TypeV::Unresolved(id) => id < n,
        _ => true,
    }
}

pub proof fn lemma_type_wf_mono(t: TypeV, n: nat, m: nat)
    requires
        type_wf(t, n),
        n <= m,
    ensures
        type_wf(t, m),
    decreases t,
{
    match t {
        TypeV::Function { arg, ret } => {
            lemma_type_wf_mono(*arg, n, m);
            lemma_type_wf_mono(*ret, n, m);
        }
        _ => {}
    }
}

impl Clone for Type {
    fn clone(&self) -> (r: Self)
        ensures
            r@ == self@,
        decreases type_vsize(self@),
    {
        match self {
            Type::Symbol => Type::Symbol,
            Type::Union => Type::Union,
            Type::Tape { owned } => Type::Tape { owned: *owned },
            Type::Halt => Type::Halt,
            Type::Function { arg, ret } => Type::Function {
                arg: Box::new((**arg).clone()),
                ret: Box::new((**ret).clone()),
            },
            Type::Unresolved(id) => Type::Unresolved(*id),
            Type::UnresolvedUnion(id) => Type::UnresolvedUnion(*id),
        }
    }
}

/// Decides equality of two types.
pub fn type_eq(a: &Type, b: &Type) -> (r: bool)
    ensures
        r == (a@ == b@),
    decreases type_vsize(a@) + type_vsize(b@),
{
    match (a, b) {
        (Type::Symbol, Type::Symbol) => true,
        (Type::Union, Type::Union) => true,
        (Type::Tape { owned: o1 }, Type::Tape { owned: o2 }) => o1 == o2,
        (Type::Halt, Type::Halt) => true,
        (Type::Function { arg: a1, ret: r1 }, Type::Function { arg: a2, ret: r2 }) => {
            let ae = type_eq(a1, a2);
            let re = type_eq(r1, r2);
            ae && re
        }
        (Type::Unresolved(i1), Type::Unresolved(i2)) => i1 == i2,
        (Type::UnresolvedUnion(i1), Type::UnresolvedUnion(i2)) => i1 == i2,
        _ => false,
    }
}

/// The rendering of a type in diagnostics.
pub open spec fn type_text(t: TypeV) -> Seq<char>
    decreases t,
{
    match t {
        TypeV::Symbol => "symbol"@,
        TypeV::Union => "union"@,
        TypeV::Tape { owned } => if owned {
            "tape"@
        } else {
            "&tape"@
        },
        TypeV::Halt => "halt"@,
        TypeV::Function { arg, ret } => "("@ + type_text(*arg) + " -> "@ + type_text(*ret) + ")"@,
        TypeV::Unresolved(id) => "u"@ + dec_str(id),
        TypeV::UnresolvedUnion(_) => "symbol/union"@,
    }
}

impl Type {
    /// Appends the diagnostic rendering of the type to `out`.
    pub fn push_text(&self, out: &mut Vec<char>)
        ensures
            final(out)@ == old(out)@ + type_text(self@),
        decreases type_vsize(self@),
    {
        match self {
            Type::Symbol => push_str(out, "symbol"),
            Type::Union => push_str(out, "union"),
            Type::Tape { owned } => {
                if *owned {
                    push_str(out, "tape");
                } else {
                    push_str(out, "&tape");
                }
            }
            Type::Halt => push_str(out, "halt"),
            Type::Function { arg, ret } => {
                push_str(out, "(");
                arg.push_text(out);
                push_str(out, " -> ");
                ret.push_text(out);
                push_str(out, ")");
                assert(out@ =~= old(out)@ + type_text(self@));
            }
            Type::Unresolved(id) => {
                push_str(out, "u");
                push_usize(out, *id);
                assert(out@ =~= old(out)@ + type_text(self@));
            }
            Type::UnresolvedUnion(_) => push_str(out, "symbol/union"),
        }
    }

    /// The diagnostic rendering of the type as a fresh string.
    pub fn text(&self) -> (r: String)
        ensures
            r@ == type_text(self@),
    {
        let mut out: Vec<char> = Vec::new();
        self.push_text(&mut out);
        chars_to_string(&out)
    }

    /// Whether the type contains an `Unresolved` variable
    /// (`UnresolvedUnion` does not count).
    pub open spec fn spec_is_unresolved_non_union(t: TypeV) -> bool
        decreases t,
    {
        match t {
            TypeV::Function { arg, ret } => Type::spec_is_unresolved_non_union(*arg)
                || Type::spec_is_unresolved_non_union(*ret),
            TypeV::Unresolved(_) => true,
            _ => false,
        }
    }

    /// Returns true when the type contains an `Unresolved` variable
    /// (`UnresolvedUnion` is not considered).
    pub fn is_unresolved_non_union(&self) -> (r: bool)
        ensures
            r == Type::spec_is_unresolved_non_union(self@),
        decreases type_vsize(self@),
    {
        match self {
            Type::Function { arg, ret } => {
                let a = arg.is_unresolved_non_union();
                let b = ret.is_unresolved_non_union();
                a || b
            }
            Type::Unresolved(_) => true,
            _ => false,
        }
    }

    /// Whether the type contains an `UnresolvedUnion` variable.
    pub open spec fn spec_is_unresolved_union(t: TypeV) -> bool
        decreases t,
    {
        match t {
            TypeV::Function { arg, ret } => Type::spec_is_unresolved_union(*arg)
                || Type::spec_is_unresolved_union(*ret),
            TypeV::UnresolvedUnion(_) => true,
            _ => false,
        }
    }

    /// Returns true when the type contains an `UnresolvedUnion` variable.
    pub fn is_unresolved_union(&self) -> (r: bool)
        ensures
            r == Type::spec_is_unresolved_union(self@),
        decreases type_vsize(self@),
    {
        match self {
            Type::Function { arg, ret } => {
                let a = arg.is_unresolved_union();
                let b = ret.is_unresolved_union();
                a || b
            }
            Type::UnresolvedUnion(_) => true,
            _ => false,
        }
    }

    /// Whether a value of type `a` may stand where a value of type `b` is
    /// expected. Function types decompose with a contravariant argument;
    /// `Halt` is compatible with any non-function type; a symbol is a
    /// one-letter union; an owned tape casts to a borrowed one; unresolved
    /// variables cast freely.
    pub open spec fn spec_simple_cast(a: TypeV, b: TypeV) -> bool
        decreases type_vsize(a) + type_vsize(b),
    {
        match (a, b) {
            (TypeV::Function { arg: a1, ret: r1 }, TypeV::Function { arg: a2, ret: r2 }) => {
                Type::spec_simple_cast(*a2, *a1) && Type::spec_simple_cast(*r1, *r2)
            }
            (TypeV::Halt, TypeV::Function { .. }) => false,
            (TypeV::Function { .. }, TypeV::Halt) => false,
            (TypeV::Halt, _) => true,
            (_, TypeV::Halt) => true,
            (TypeV::Symbol, TypeV::Union) => true,
            (TypeV::Tape { owned: true }, TypeV::Tape { owned: false }) => true,
            (TypeV::UnresolvedUnion(_), TypeV::Symbol) => true,
            (TypeV::UnresolvedUnion(_), TypeV::Union) => true,
            (TypeV::Symbol, TypeV::UnresolvedUnion(_)) => true,
            (TypeV::Union, TypeV::UnresolvedUnion(_)) => true,
            (TypeV::Unresolved(_), _) => true,
            (_, TypeV::Unresolved(_)) => true,
            (f, t) => f == t,
        }
    }

    /// Checks if this type can be cast to the given type; unresolved
    /// variables are compatible with everything.
    pub fn simple_cast(&self, to: &Type) -> (r: bool)
        ensures
            r == Type::spec_simple_cast(self@, to@),
        decreases type_vsize(self@) + type_vsize(to@),
    {
        match (self, to) {
            (Type::Function { arg: a1, ret: r1 }, Type::Function { arg: a2, ret: r2 }) => {
                let x = a2.simple_cast(a1);
                let y = r1.simple_cast(r2);
                x && y
            }
            (Type::Halt, Type::Function { .. }) => false,
            (Type::Function { .. }, Type::Halt) => false,
            (Type::Halt, _) => true,
            (_, Type::Halt) => true,
            (Type::Symbol, Type::Union) => true,
            (Type::Tape { owned: true }, Type::Tape { owned: false }) => true,
            (Type::UnresolvedUnion(_), Type::Symbol) => true,
            (Type::UnresolvedUnion(_), Type::Union) => true,
            (Type::Symbol, Type::UnresolvedUnion(_)) => true,
            (Type::Union, Type::UnresolvedUnion(_)) => true,
            (Type::Unresolved(_), _) => true,
            (_, Type::Unresolved(_)) => true,
            (f, t) => type_eq(f, t),
        }
    }
}

/// A type annotation: the inferred type and the source location of the node.
#[derive(Debug, PartialEq)]
pub struct Annot(pub Type, pub TokenLoc);

/// Mathematical model of an annotation.
#[verifier::ext_equal]
pub struct AnnotV {
    pub ty: TypeV,
    pub loc: LocV,
}

impl View for Annot {
    type V = AnnotV;

    open spec fn view(&self) -> AnnotV {
        AnnotV { ty: self.0@, loc: self.1@ }
    }
}

impl Clone for Annot {
    fn clone(&self) -> (r: Self)
        ensures
            r@ == self@,
    {
        Annot(self.0.clone(), self.1.clone())
    }
}

/// Stores every minted `Unresolved` variable: `entries[i]` holds the type
/// variable `i` was fixed to, or `None` while it is still free. `pending`
/// records the variables that were cast into a borrowed tape, to be checked
/// once the lower bounds are in.
#[derive(Debug)]
pub struct TypeTable {
    pub entries: Vec<Option<Type>>,
    pub pending: Vec<(usize, TokenLoc)>,
}

/// Mathematical model of the constraint table.
#[verifier::ext_equal]
pub struct TableV {
    pub entries: Seq<Option<TypeV>>,
    pub pending: Seq<(nat, LocV)>,
}

pub open spec fn opt_type_view(o: Option<Type>) -> Option<TypeV> {
    match o {
        Some(t) => Some(t@),
        None => None,
    }
}

impl View for TypeTable {
    type V = TableV;

    open spec fn view(&self) -> TableV {
        TableV {
            entries: self.entries@.map_values(|o: Option<Type>| opt_type_view(o)),
            pending: self.pending@.map_values(|p: (usize, TokenLoc)| (p.0 as nat, p.1@)),
        }
    }
}

/// Every fixed entry and every pending variable refers only to variables the
/// table has minted.
pub open spec fn table_wf(tbl: TableV) -> bool {
    &&& forall|i: int|
        0 <= i < tbl.entries.len() ==> (#[trigger] tbl.entries[i] matches Some(t) ==> type_wf(
            t,
            tbl.entries.len() as nat,
        ))
    &&& forall|i: int| 0 <= i < tbl.pending.len() ==> #[trigger] tbl.pending[i].0
        < tbl.entries.len()
}

/// What a type resolves to under the table: chains of fixed variables are
/// followed, structurally inside function types, for at most `fuel` steps.
pub open spec fn spec_resolve(entries: Seq<Option<TypeV>>, t: TypeV, fuel: nat) -> TypeV
    decreases fuel, type_vsize(t),
{
    match t {
        TypeV::Function { arg, ret } => TypeV::Function {
            arg: Box::new(spec_resolve(entries, *arg, fuel)),
            ret: Box::new(spec_resolve(entries, *ret, fuel)),
        },
        TypeV::Unresolved(id) => {
            if id < entries.len() {
                match entries[id as int] {
                    Some(r) => {
                        if fuel == 0 {
                            t
                        } else {
                            spec_resolve(entries, r, (fuel - 1) as nat)
                        }
                    }
                    None => t,
                }
            } else {
                t
            }
        }
        _ => t,
    }
}

/// Resolution with the fuel the table itself provides: as many steps as
/// there are variables, enough to follow any cycle-free chain.
pub open spec fn table_resolve(tbl: TableV, t: TypeV) -> TypeV {
    spec_resolve(tbl.entries, t, tbl.entries.len() as nat)
}

pub proof fn lemma_resolve_wf(entries: Seq<Option<TypeV>>, t: TypeV, fuel: nat, n: nat)
    requires
        type_wf(t, n),
        entries.len() == n,
        forall|i: int| 0 <= i < n ==> (#[trigger] entries[i] matches Some(u) ==> type_wf(u, n)),
    ensures
        type_wf(spec_resolve(entries, t, fuel), n),
    decreases fuel, type_vsize(t),
{
    match t {
        TypeV::Function { arg, ret } => {
            lemma_resolve_wf(entries, *arg, fuel, n);
            lemma_resolve_wf(entries, *ret, fuel, n);
        }
        TypeV::Unresolved(id) => {
            if id < entries.len() {
                match entries[id as int] {
                    Some(r) => {
                        if fuel > 0 {
                            lemma_resolve_wf(entries, r, (fuel - 1) as nat, n);
                        }
                    }
                    None => {}
                }
            }
        }
        _ => {}
    }
}

/// The recursion budget for solving one cast: ample for any type a real
/// program produces, and a cast deeper than this fails cleanly.
pub const CAST_FUEL: usize = 64;

/// The model of a `Result` whose error is a message string.
pub open spec fn result_view(r: Result<(), String>) -> Result<(), Seq<char>> {
    match r {
        Ok(_) => Ok(()),
        Err(s) => Err(s@),
    }
}

/// The message for an impossible cast.
pub open spec fn cast_err_text(from: TypeV, to: TypeV, loc: LocV) -> Seq<char> {
    "Cannot cast "@ + type_text(from) + " to "@ + type_text(to) + " at "@ + loc_text(loc)
}

fn cast_err(from: &Type, to: &Type, loc: &TokenLoc) -> (r: String)
    ensures
        r@ == cast_err_text(from@, to@, loc@),
{
    let mut out: Vec<char> = Vec::new();
    push_str(&mut out, "Cannot cast ");
    from.push_text(&mut out);
    push_str(&mut out, " to ");
    to.push_text(&mut out);
    push_str(&mut out, " at ");
    loc.push_text(&mut out);
    assert(out@ =~= cast_err_text(from@, to@, loc@));
    chars_to_string(&out)
}

/// What one call of `cast` does to the table: both sides are resolved,
/// equal types are done, function types decompose contravariantly, a
/// function meeting a variable mints a fresh function shape, a symbol
/// meeting a variable (or a variable cast into `Union`) leaves the
/// symbol-or-union choice open, `Halt` is compatible with variables, a
/// variable cast into a borrowed tape is deferred, any other constant fixes
/// the variable, and two constants must satisfy `simple_cast`.
pub open spec fn spec_cast(tbl: TableV, from: TypeV, to: TypeV, loc: LocV, fuel: nat) -> (
    TableV,
    Result<(), Seq<char>>,
)
    decreases fuel,
{
    if fuel == 0 {
        (tbl, Err(cast_err_text(from, to, loc)))
    } else {
        let fromr = table_resolve(tbl, from);
        let tor = table_resolve(tbl, to);
        if fromr == tor {
            (tbl, Ok(()))
        } else {
            match (fromr, tor) {
                (TypeV::Function { arg: a1, ret: r1 }, TypeV::Function { arg: a2, ret: r2 }) => {
                    let s1 = spec_cast(tbl, *a2, *a1, loc, (fuel - 1) as nat);
                    if s1.1 is Err {
                        s1
                    } else {
                        spec_cast(s1.0, *r1, *r2, loc, (fuel - 1) as nat)
                    }
                }
                (TypeV::Function { arg: a1, ret: r1 }, TypeV::Unresolved(id)) => {
                    let n = tbl.entries.len();
                    let tbl1 = TableV {
                        entries: tbl.entries.push(None).push(None),
                        pending: tbl.pending,
                    };
                    let func = TypeV::Function {
                        arg: Box::new(TypeV::Unresolved(n as nat)),
                        ret: Box::new(TypeV::Unresolved((n + 1) as nat)),
                    };
                    let s = spec_cast(tbl1, fromr, func, loc, (fuel - 1) as nat);
                    if s.1 is Err {
                        s
                    } else {
                        (
                            TableV {
                                entries: s.0.entries.update(id as int, Some(func)),
                                pending: s.0.pending,
                            },
                            Ok(()),
                        )
                    }
                }
                (TypeV::Unresolved(id), TypeV::Function { arg: a1, ret: r1 }) => {
                    let n = tbl.entries.len();
                    let tbl1 = TableV {
                        entries: tbl.entries.push(None).push(None),
                        pending: tbl.pending,
                    };
                    let func = TypeV::Function {
                        arg: Box::new(TypeV::Unresolved(n as nat)),
                        ret: Box::new(TypeV::Unresolved((n + 1) as nat)),
                    };
                    let s = spec_cast(tbl1, func, tor, loc, (fuel - 1) as nat);
                    if s.1 is Err {
                        s
                    } else {
                        (
                            TableV {
                                entries: s.0.entries.update(id as int, Some(func)),
                                pending: s.0.pending,
                            },
                            Ok(()),
                        )
                    }
                }
                (TypeV::Symbol, TypeV::Unresolved(id)) => {
                    (
                        TableV {
                            entries: tbl.entries.update(id as int, Some(TypeV::UnresolvedUnion(0))),
                            pending: tbl.pending,
                        },
                        Ok(()),
                    )
                }
                (TypeV::Unresolved(id), TypeV::Union) => {
                    (
                        TableV {
                            entries: tbl.entries.update(id as int, Some(TypeV::UnresolvedUnion(0))),
                            pending: tbl.pending,
                        },
                        Ok(()),
                    )
                }
                (TypeV::Halt, TypeV::Unresolved(_)) => (tbl, Ok(())),
                (TypeV::Unresolved(_), TypeV::Halt) => (tbl, Ok(())),
                (TypeV::Unresolved(id), TypeV::Tape { owned: false }) => {
                    (
                        TableV { entries: tbl.entries, pending: tbl.pending.push((id, loc)) },
                        Ok(()),
                    )
                }
                (f, TypeV::Unresolved(id)) => {
                    (
                        TableV {
                            entries: tbl.entries.update(id as int, Some(f)),
                            pending: tbl.pending,
                        },
                        Ok(()),
                    )
                }
                (TypeV::Unresolved(id), t) => {
                    (
                        TableV {
                            entries: tbl.entries.update(id as int, Some(t)),
                            pending: tbl.pending,
                        },
                        Ok(()),
                    )
                }
                (f, t) => {
                    if Type::spec_simple_cast(f, t) {
                        (tbl, Ok(()))
                    } else {
                        (tbl, Err(cast_err_text(f, t, loc)))
                    }
                }
            }
        }
    }
}

/// What settling one deferred borrow does.
pub open spec fn spec_settle_step(entries: Seq<Option<TypeV>>, id: nat, loc: LocV) -> (
    Seq<Option<TypeV>>,
    Result<(), Seq<char>>,
) {
    let tr = spec_resolve(entries, TypeV::Unresolved(id), entries.len() as nat);
    match tr {
        TypeV::Unresolved(j) => (
            entries.update(j as int, Some(TypeV::Tape { owned: false })),
            Ok(()),
        ),
        _ => {
            if Type::spec_simple_cast(tr, TypeV::Tape { owned: false }) {
                (entries, Ok(()))
            } else {
                (entries, Err(cast_err_text(tr, TypeV::Tape { owned: false }, loc)))
            }
        }
    }
}

/// Settling the deferred borrows from position `i` on.
pub open spec fn spec_settle_from(
    entries: Seq<Option<TypeV>>,
    pending: Seq<(nat, LocV)>,
    i: int,
) -> (Seq<Option<TypeV>>, Result<(), Seq<char>>)
    decreases pending.len() - i,
{
    if i < 0 || i >= pending.len() {
        (entries, Ok(()))
    } else {
        let s = spec_settle_step(entries, pending[i].0, pending[i].1);
        if s.1 is Err {
            s
        } else {
            spec_settle_from(s.0, pending, i + 1)
        }
    }
}

/// Settling every deferred borrow of the table.
pub open spec fn spec_settle(tbl: TableV) -> (TableV, Result<(), Seq<char>>) {
    let s = spec_settle_from(tbl.entries, tbl.pending, 0);
    (TableV { entries: s.0, pending: tbl.pending }, s.1)
}

pub proof fn lemma_wf_push_none(t: TableV)
    requires
        table_wf(t),
    ensures
        table_wf(TableV { entries: t.entries.push(None), pending: t.pending }),
{
    let t2 = TableV { entries: t.entries.push(None), pending: t.pending };
    assert forall|i: int|
        0 <= i < t2.entries.len() implies (#[trigger] t2.entries[i] matches Some(u) ==> type_wf(
        u,
        t2.entries.len() as nat,
    )) by {
        if 0 <= i < t.entries.len() {
            match t.entries[i] {
                Some(u) => {
                    lemma_type_wf_mono(u, t.entries.len() as nat, t2.entries.len() as nat);
                }
                None => {}
            }
        }
    }
}

pub proof fn lemma_wf_update(t: TableV, id: nat, val: TypeV)
    requires
        table_wf(t),
        id < t.entries.len(),
        type_wf(val, t.entries.len() as nat),
    ensures
        table_wf(TableV { entries: t.entries.update(id as int, Some(val)), pending: t.pending }),
{
    let t2 = TableV { entries: t.entries.update(id as int, Some(val)), pending: t.pending };
    assert forall|i: int|
        0 <= i < t2.entries.len() implies (#[trigger] t2.entries[i] matches Some(u) ==> type_wf(
        u,
        t2.entries.len() as nat,
    )) by {
        if i != id {
            assert(t2.entries[i] == t.entries[i]);
        }
    }
}

pub proof fn lemma_wf_push_pending(t: TableV, id: nat, loc: LocV)
    requires
        table_wf(t),
        id < t.entries.len(),
    ensures
        table_wf(TableV { entries: t.entries, pending: t.pending.push((id, loc)) }),
{
    let t2 = TableV { entries: t.entries, pending: t.pending.push((id, loc)) };
    assert forall|i: int| 0 <= i < t2.pending.len() implies #[trigger] t2.pending[i].0
        < t2.entries.len() by {
        if i < t.pending.len() {
            assert(t2.pending[i] == t.pending[i]);
        }
    }
}

/// Replaces the element of `v` at `i`.
fn vec_set<T>(v: &mut Vec<T>, i: usize, x: T)
    requires
        i < old(v)@.len(),
    ensures
        final(v)@ == old(v)@.update(i as int, x),
{
    v.remove(i);
    v.insert(i, x);
    assert(final(v)@ =~= old(v)@.update(i as int, x));
}

impl TypeTable {
    /// Creates an empty table.
    pub fn new() -> (r: Self)
        ensures
            r@.entries.len() == 0,
            r@.pending.len() == 0,
    {
        TypeTable { entries: Vec::new(), pending: Vec::new() }
    }

    /// Mints a fresh unresolved type variable.
    pub fn push(&mut self) -> (t: Type)
        ensures
            final(self)@.entries == old(self)@.entries.push(None),
            final(self)@.pending == old(self)@.pending,
            t@ == TypeV::Unresolved(old(self)@.entries.len() as nat),
    {
        let id = self.entries.len();
        self.entries.push(None);
        assert(final(self)@.entries =~= old(self)@.entries.push(None));
        assert(final(self)@.pending =~= old(self)@.pending);
        Type::Unresolved(id)
    }

    /// Resolves a type under the current table; what cannot be resolved is
    /// returned as it stands.
    pub fn resolve(&mut self, t: &Type) -> (r: Type)
        ensures
            *final(self) == *old(self),
            r@ == table_resolve(old(self)@, t@),
    {
        let fuel = self.entries.len();
        self.resolve_fuel(t, fuel)
    }

    /// Records the constraint that `from` must cast to `to`, fixing
    /// unresolved variables along the way; fails where two constants are
    /// incompatible.
    pub fn cast(&mut self, from: &Type, to: &Type, loc: &TokenLoc) -> (r: Result<(), String>)
        requires
            table_wf(old(self)@),
            type_wf(from@, old(self)@.entries.len() as nat),
            type_wf(to@, old(self)@.entries.len() as nat),
        ensures
            table_wf(final(self)@),
            old(self)@.entries.len() <= final(self)@.entries.len(),
            final(self)@ == spec_cast(old(self)@, from@, to@, loc@, CAST_FUEL as nat).0,
            result_view(r) == spec_cast(old(self)@, from@, to@, loc@, CAST_FUEL as nat).1,
    {
        self.cast_fuel(from, to, loc, CAST_FUEL)
    }

    fn cast_fuel(&mut self, from: &Type, to: &Type, loc: &TokenLoc, fuel: usize) -> (r: Result<
        (),
        String,
    >)
        requires
            table_wf(old(self)@),
            type_wf(from@, old(self)@.entries.len() as nat),
            type_wf(to@, old(self)@.entries.len() as nat),
        ensures
            table_wf(final(self)@),
            old(self)@.entries.len() <= final(self)@.entries.len(),
            final(self)@ == spec_cast(old(self)@, from@, to@, loc@, fuel as nat).0,
            result_view(r) == spec_cast(old(self)@, from@, to@, loc@, fuel as nat).1,
        decreases fuel,
    {
        if fuel == 0 {
            return Err(cast_err(from, to, loc));
        }
        let fromr = self.resolve(from);
        let tor = self.resolve(to);
        proof {
            lemma_resolve_wf(
                old(self)@.entries,
                from@,
                old(self)@.entries.len() as nat,
                old(self)@.entries.len() as nat,
            );
            lemma_resolve_wf(
                old(self)@.entries,
                to@,
                old(self)@.entries.len() as nat,
                old(self)@.entries.len() as nat,
            );
        }
        if type_eq(&fromr, &tor) {
            return Ok(());
        }
        match (&fromr, &tor) {
            (Type::Function { arg: a1, ret: r1 }, Type::Function { arg: a2, ret: r2 }) => {
                let r = self.cast_fuel(a2, a1, loc, fuel - 1);
                if r.is_err() {
                    return r;
                }
                proof {
                    lemma_type_wf_mono(
                        r1@,
                        old(self)@.entries.len() as nat,
                        self@.entries.len() as nat,
                    );
                    lemma_type_wf_mono(
                        r2@,
                        old(self)@.entries.len() as nat,
                        self@.entries.len() as nat,
                    );
                }
                self.cast_fuel(r1, r2, loc, fuel - 1)
            }
            (Type::Function { .. }, Type::Unresolved(id)) => {
                let id = *id;
                let a = self.push();
                proof {
                    lemma_wf_push_none(old(self)@);
                }
                let b = self.push();
                let ghost av = a@;
                let ghost bv = b@;
                let func = Type::Function { arg: Box::new(a), ret: Box::new(b) };
                proof {
                    lemma_wf_push_none(
                        TableV {
                            entries: old(self)@.entries.push(None),
                            pending: old(self)@.pending,
                        },
                    );
                    assert(self@.entries =~= old(self)@.entries.push(None).push(None));
                    assert(func@ == TypeV::Function { arg: Box::new(av), ret: Box::new(bv) });
                    assert(self@.entries.len() == old(self)@.entries.len() + 2);
                    assert(av == TypeV::Unresolved(old(self)@.entries.len() as nat));
                    assert(bv == TypeV::Unresolved((old(self)@.entries.len() + 1) as nat));
                    assert(type_wf(av, self@.entries.len() as nat));
                    assert(type_wf(bv, self@.entries.len() as nat));
                    assert(type_wf(func@, self@.entries.len() as nat));
                    lemma_type_wf_mono(
                        fromr@,
                        old(self)@.entries.len() as nat,
                        self@.entries.len() as nat,
                    );
                }
                let ghost mid = self@;
                let r = self.cast_fuel(&fromr, &func, loc, fuel - 1);
                if r.is_err() {
                    return r;
                }
                let ghost before_set = self@;
                vec_set(&mut self.entries, id, Some(func));
                proof {
                    lemma_type_wf_mono(
                        TypeV::Function { arg: Box::new(av), ret: Box::new(bv) },
                        (old(self)@.entries.len() + 2) as nat,
                        before_set.entries.len() as nat,
                    );
                    assert(type_wf(func@, before_set.entries.len() as nat));
                    lemma_wf_update(before_set, id as nat, func@);
                    assert(final(self)@.entries =~= before_set.entries.update(
                        id as int,
                        Some(func@),
                    ));
                }
                assert(final(self)@.entries =~= spec_cast(
                    old(self)@,
                    from@,
                    to@,
                    loc@,
                    fuel as nat,
                ).0.entries);
                assert(final(self)@.pending =~= spec_cast(
                    old(self)@,
                    from@,
                    to@,
                    loc@,
                    fuel as nat,
                ).0.pending);
                Ok(())
            }
            (Type::Unresolved(id), Type::Function { .. }) => {
                let id = *id;
                let a = self.push();
                proof {
                    lemma_wf_push_none(old(self)@);
                }
                let b = self.push();
                let ghost av = a@;
                let ghost bv = b@;
                let func = Type::Function { arg: Box::new(a), ret: Box::new(b) };
                proof {
                    lemma_wf_push_none(
                        TableV {
                            entries: old(self)@.entries.push(None),
                            pending: old(self)@.pending,
                        },
                    );
                    assert(self@.entries =~= old(self)@.entries.push(None).push(None));
                    assert(func@ == TypeV::Function { arg: Box::new(av), ret: Box::new(bv) });
                    assert(self@.entries.len() == old(self)@.entries.len() + 2);
                    assert(av == TypeV::Unresolved(old(self)@.entries.len() as nat));
                    assert(bv == TypeV::Unresolved((old(self)@.entries.len() + 1) as nat));
                    assert(type_wf(av, self@.entries.len() as nat));
                    assert(type_wf(bv, self@.entries.len() as nat));
                    assert(type_wf(func@, self@.entries.len() as nat));
                    lemma_type_wf_mono(
                        tor@,
                        old(self)@.entries.len() as nat,
                        self@.entries.len() as nat,
                    );
                }
                let r = self.cast_fuel(&func, &tor, loc, fuel - 1);
                if r.is_err() {
                    return r;
                }
                let ghost before_set = self@;
                vec_set(&mut self.entries, id, Some(func));
                proof {
                    lemma_type_wf_mono(
                        TypeV::Function { arg: Box::new(av), ret: Box::new(bv) },
                        (old(self)@.entries.len() + 2) as nat,
                        before_set.entries.len() as nat,
                    );
                    assert(type_wf(func@, before_set.entries.len() as nat));
                    lemma_wf_update(before_set, id as nat, func@);
                    assert(final(self)@.entries =~= before_set.entries.update(
                        id as int,
                        Some(func@),
                    ));
                }
                assert(final(self)@.entries =~= spec_cast(
                    old(self)@,
                    from@,
                    to@,
                    loc@,
                    fuel as nat,
                ).0.entries);
                assert(final(self)@.pending =~= spec_cast(
                    old(self)@,
                    from@,
                    to@,
                    loc@,
                    fuel as nat,
                ).0.pending);
                Ok(())
            }
            (Type::Symbol, Type::Unresolved(id)) => {
                vec_set(&mut self.entries, *id, Some(Type::UnresolvedUnion(0)));
                proof {
                    lemma_wf_update(old(self)@, tor@->Unresolved_0, TypeV::UnresolvedUnion(0));
                }
                assert(final(self)@.entries =~= spec_cast(
                    old(self)@,
                    from@,
                    to@,
                    loc@,
                    fuel as nat,
                ).0.entries);
                Ok(())
            }
            (Type::Unresolved(id), Type::Union) => {
                vec_set(&mut self.entries, *id, Some(Type::UnresolvedUnion(0)));
                proof {
                    lemma_wf_update(old(self)@, fromr@->Unresolved_0, TypeV::UnresolvedUnion(0));
                }
                assert(final(self)@.entries =~= spec_cast(
                    old(self)@,
                    from@,
                    to@,
                    loc@,
                    fuel as nat,
                ).0.entries);
                Ok(())
            }
            (Type::Halt, Type::Unresolved(_)) => Ok(()),
            (Type::Unresolved(_), Type::Halt) => Ok(()),
            (Type::Unresolved(id), Type::Tape { owned: false }) => {
                self.pending.push((*id, loc.clone()));
                proof {
                    lemma_wf_push_pending(old(self)@, fromr@->Unresolved_0, loc@);
                }
                assert(final(self)@.pending =~= spec_cast(
                    old(self)@,
                    from@,
                    to@,
                    loc@,
                    fuel as nat,
                ).0.pending);
                Ok(())
            }
            (_, Type::Unresolved(id)) => {
                vec_set(&mut self.entries, *id, Some(fromr.clone()));
                proof {
                    lemma_wf_update(old(self)@, tor@->Unresolved_0, fromr@);
                }
                assert(final(self)@.entries =~= spec_cast(
                    old(self)@,
                    from@,
                    to@,
                    loc@,
                    fuel as nat,
                ).0.entries);
                Ok(())
            }
            (Type::Unresolved(id), _) => {
                vec_set(&mut self.entries, *id, Some(tor.clone()));
                proof {
                    lemma_wf_update(old(self)@, fromr@->Unresolved_0, tor@);
                }
                assert(final(self)@.entries =~= spec_cast(
                    old(self)@,
                    from@,
                    to@,
                    loc@,
                    fuel as nat,
                ).0.entries);
                Ok(())
            }
            _ => {
                if fromr.simple_cast(&tor) {
                    Ok(())
                } else {
                    Err(cast_err(&fromr, &tor, loc))
                }
            }
        }
    }

    /// Settles the deferred casts into a borrowed tape: a variable still
    /// free is fixed to a borrowed tape; one fixed to something a borrowed
    /// tape cannot come from is an error.
    pub fn settle_pending(&mut self) -> (r: Result<(), String>)
        requires
            table_wf(old(self)@),
        ensures
            table_wf(final(self)@),
            final(self)@ == spec_settle(old(self)@).0,
            result_view(r) == spec_settle(old(self)@).1,
            final(self)@.entries.len() == old(self)@.entries.len(),
    {
        let ghost start = self@;
        let mut i: usize = 0;
        while i < self.pending.len()
            invariant
                start == old(self)@,
                table_wf(self@),
                i <= self@.pending.len(),
                self@.pending == start.pending,
                self@.entries.len() == start.entries.len(),
                spec_settle_from(start.entries, start.pending, 0) == spec_settle_from(
                    self@.entries,
                    start.pending,
                    i as int,
                ),
            decreases self@.pending.len() - i,
        {
            let ghost pre = self@.entries;
            let id = self.pending[i].0;
            let loc = self.pending[i].1.clone();
            assert(self@.pending[i as int] == (id as nat, loc@));
            let t = Type::Unresolved(id);
            assert(type_wf(t@, self@.entries.len() as nat));
            let tr = self.resolve(&t);
            proof {
                lemma_resolve_wf(
                    self@.entries,
                    t@,
                    self@.entries.len() as nat,
                    self@.entries.len() as nat,
                );
            }
            match &tr {
                Type::Unresolved(j) => {
                    vec_set(&mut self.entries, *j, Some(Type::Tape { owned: false }));
                    proof {
                        lemma_wf_update(
                            TableV { entries: pre, pending: start.pending },
                            tr@->Unresolved_0,
                            TypeV::Tape { owned: false },
                        );
                        assert(self@.entries =~= spec_settle_step(pre, id as nat, loc@).0);
                    }
                }
                _ => {
                    let borrow = Type::Tape { owned: false };
                    if !tr.simple_cast(&borrow) {
                        let msg = cast_err(&tr, &borrow, &loc);
                        proof {
                            assert(!(tr@ is Unresolved));
                            assert(msg@ == cast_err_text(
                                tr@,
                                TypeV::Tape { owned: false },
                                loc@,
                            ));
                            assert(spec_settle_step(pre, id as nat, loc@) == (
                                pre,
                                Err::<(), Seq<char>>(msg@),
                            ));
                            assert(spec_settle_from(pre, start.pending, i as int)
                                == spec_settle_step(pre, id as nat, loc@));
                            assert(spec_settle_from(start.entries, start.pending, 0) == (
                                pre,
                                Err::<(), Seq<char>>(msg@),
                            ));
                            assert(self@.entries == pre);
                            assert(self@.pending == start.pending);
                        }
                        return Err(msg);
                    }
                }
            }
            proof {
                let step = spec_settle_step(pre, id as nat, loc@);
                assert(step.1 is Ok);
                assert(step.0 =~= self@.entries);
                assert(spec_settle_from(pre, start.pending, i as int) == spec_settle_from(
                    self@.entries,
                    start.pending,
                    i + 1,
                ));
            }
            i = i + 1;
        }
        Ok(())
    }

    fn resolve_fuel(&self, t: &Type, fuel: usize) -> (r: Type)
        ensures
            r@ == spec_resolve(self@.entries, t@, fuel as nat),
        decreases fuel as nat, type_vsize(t@),
    {
        match t {
            Type::Function { arg, ret } => Type::Function {
                arg: Box::new(self.resolve_fuel(arg, fuel)),
                ret: Box::new(self.resolve_fuel(ret, fuel)),
            },
            Type::Unresolved(id) => {
                if *id < self.entries.len() {
                    let entry_clone: Option<Type> = match &self.entries[*id] {
                        Some(r) => Some(r.clone()),
                        None => None,
                    };
                    match entry_clone {
                        Some(r) => {
                            if fuel == 0 {
                                t.clone()
                            } else {
                                self.resolve_fuel(&r, fuel - 1)
                            }
                        }
                        None => t.clone(),
                    }
                } else {
                    t.clone()
                }
            }
            _ => t.clone(),
        }
    }
}

} // verus!
