//! An insertion-ordered set of symbol names, used for alphabet collection
//! and pattern handling; keeping the insertion order makes every pass
//! deterministic.

use vstd::prelude::*;

verus! {

#[derive(Debug, PartialEq)]
pub struct SymSet {
    pub items: Vec<String>,
}

impl View for SymSet {
    type V = Seq<Seq<char>>;

    open spec fn view(&self) -> Seq<Seq<char>> {
        self.items@.map_values(|s: String| s@)
    }
}

/// Inserting into the set: a member is left alone, a new name goes to the
/// end.
pub open spec fn set_insert(s: Seq<Seq<char>>, x: Seq<char>) -> Seq<Seq<char>> {
    if s.contains(x) {
        s
    } else {
        s.push(x)
    }
}

pub open spec fn set_remove_from(
    s: Seq<Seq<char>>,
    x: Seq<char>,
    i: int,
    acc: Seq<Seq<char>>,
) -> Seq<Seq<char>>
    decreases s.len() - i,
{
    if i < 0 || i >= s.len() {
        acc
    } else {
        set_remove_from(
            s,
            x,
            i + 1,
            if s[i] == x {
                acc
            } else {
                acc.push(s[i])
            },
        )
    }
}

/// Removing from the set: every occurrence of the name goes, the order of
/// the rest is kept.
pub open spec fn set_remove(s: Seq<Seq<char>>, x: Seq<char>) -> Seq<Seq<char>> {
    set_remove_from(s, x, 0, Seq::empty())
}

pub open spec fn set_extend_from(s: Seq<Seq<char>>, t: Seq<Seq<char>>, i: int) -> Seq<Seq<char>>
    decreases t.len() - i,
{
    if i < 0 || i >= t.len() {
        s
    } else {
        set_extend_from(set_insert(s, t[i]), t, i + 1)
    }
}

/// Inserting every member of `t` into `s`, in order.
pub open spec fn set_extend(s: Seq<Seq<char>>, t: Seq<Seq<char>>) -> Seq<Seq<char>> {
    set_extend_from(s, t, 0)
}

/// No name occurs twice.
pub open spec fn set_distinct(s: Seq<Seq<char>>) -> bool {
    forall|i: int, j: int| 0 <= i < j < s.len() ==> s[i] != s[j]
}

impl Clone for SymSet {
    fn clone(&self) -> (r: Self)
        ensures
            r@ == self@,
    {
        let mut items: Vec<String> = Vec::new();
        let mut i: usize = 0;
        while i < self.items.len()
            invariant
                i <= self.items@.len(),
                items@.len() == i,
                forall|j: int| 0 <= j < i ==> items@[j] == self.items@[j],
            decreases self.items@.len() - i,
        {
            items.push(self.items[i].clone());
            i = i + 1;
        }
        let r = SymSet { items };
        assert(r@ =~= self@);
        r
    }
}

impl SymSet {
    /// Creates an empty set.
    pub fn new() -> (r: Self)
        ensures
            r@ == Seq::<Seq<char>>::empty(),
    {
        let r = SymSet { items: Vec::new() };
        assert(r@ =~= Seq::<Seq<char>>::empty());
        r
    }

    /// The number of names in the set.
    pub fn len(&self) -> (r: usize)
        ensures
            r == self@.len(),
    {
        self.items.len()
    }

    /// Whether the set is empty.
    pub fn is_empty(&self) -> (r: bool)
        ensures
            r == (self@.len() == 0),
    {
        self.items.len() == 0
    }

    /// The name at position `i`, in insertion order.
    pub fn get(&self, i: usize) -> (r: &String)
        requires
            i < self@.len(),
        ensures
            r@ == self@[i as int],
    {
        &self.items[i]
    }

    /// Whether `x` is in the set.
    pub fn contains(&self, x: &String) -> (r: bool)
        ensures
            r == self@.contains(x@),
    {
        let mut i: usize = 0;
        while i < self.items.len()
            invariant
                i <= self.items@.len(),
                forall|j: int| 0 <= j < i ==> self@[j] != x@,
            decreases self.items@.len() - i,
        {
            if self.items[i] == *x {
                assert(self@[i as int] == x@);
                return true;
            }
            i = i + 1;
        }
        assert(!self@.contains(x@));
        false
    }

    /// Inserts `x`, keeping members unique.
    pub fn insert(&mut self, x: String)
        ensures
            final(self)@ == set_insert(old(self)@, x@),
    {
        if !self.contains(&x) {
            self.items.push(x);
            assert(final(self)@ =~= set_insert(old(self)@, x@));
        }
    }

    /// Removes `x` from the set.
    pub fn remove(&mut self, x: &String)
        ensures
            final(self)@ == set_remove(old(self)@, x@),
    {
        let ghost s = self@;
        let mut out: Vec<String> = Vec::new();
        assert(out@.map_values(|t: String| t@) =~= Seq::<Seq<char>>::empty());
        let mut i: usize = 0;
        while i < self.items.len()
            invariant
                s == self@,
                i <= self.items@.len(),
                set_remove(s, x@) == set_remove_from(
                    s,
                    x@,
                    i as int,
                    out@.map_values(|t: String| t@),
                ),
            decreases self.items@.len() - i,
        {
            let ghost acc0 = out@.map_values(|t: String| t@);
            if self.items[i] == *x {
                assert(s[i as int] == x@);
            } else {
                out.push(self.items[i].clone());
                assert(out@.map_values(|t: String| t@) =~= acc0.push(s[i as int]));
            }
            i = i + 1;
        }
        self.items = out;
    }

    /// Inserts every member of `other`, in its order.
    pub fn extend_with(&mut self, other: &SymSet)
        ensures
            final(self)@ == set_extend(old(self)@, other@),
    {
        let ghost t = other@;
        let mut i: usize = 0;
        while i < other.items.len()
            invariant
                t == other@,
                i <= other.items@.len(),
                set_extend(old(self)@, t) == set_extend_from(self@, t, i as int),
            decreases other.items@.len() - i,
        {
            let ghost before = self@;
            self.insert(other.items[i].clone());
            assert(self@ == set_insert(before, t[i as int]));
            i = i + 1;
        }
    }
}

} // verus!
