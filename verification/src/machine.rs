//! The generated machine: numbered states and symbol-conditioned
//! transitions. States 0, 1 and 2 are reserved for the initial, accepting
//! and rejecting states.

use vstd::prelude::*;

verus! {

/// A possible direction for the machine to move in.
#[derive(Debug, Clone, Copy, PartialEq, Eq, Structural)]
pub enum Direction {
    Left,
    Right,
    Stay,
}

/// One transition: source state with an optional read symbol, target state
/// with an optional written symbol, and a head movement. A missing symbol
/// reads as any symbol, or writes the symbol back unchanged.
#[derive(Debug, PartialEq)]
pub struct Transition {
    pub from: (usize, Option<String>),
    pub to: (usize, Option<String>),
    pub dir: Direction,
}

/// Mathematical model of a transition.
#[verifier::ext_equal]
pub struct TransitionV {
    pub from: (nat, Option<Seq<char>>),
    pub to: (nat, Option<Seq<char>>),
    pub dir: Direction,
}

pub open spec fn opt_sym_view(o: Option<String>) -> Option<Seq<char>> {
    match o {
        Some(s) => Some(s@),
        None => None,
    }
}

impl View for Transition {
    type V = TransitionV;

    open spec fn view(&self) -> TransitionV {
        TransitionV {
            from: (self.from.0 as nat, opt_sym_view(self.from.1)),
            to: (self.to.0 as nat, opt_sym_view(self.to.1)),
            dir: self.dir,
        }
    }
}

impl Clone for Transition {
    fn clone(&self) -> (r: Self)
        ensures
            r@ == self@,
    {
        Transition {
            from: (
                self.from.0,
                match &self.from.1 {
                    Some(s) => Some(s.clone()),
                    None => None,
                },
            ),
            to: (
                self.to.0,
                match &self.to.1 {
                    Some(s) => Some(s.clone()),
                    None => None,
                },
            ),
            dir: self.dir,
        }
    }
}

pub open spec fn trans_view(s: Seq<Transition>) -> Seq<TransitionV>
    decreases s,
{
    if s.len() == 0 {
        Seq::empty()
    } else {
        trans_view(s.drop_last()).push(s.last()@)
    }
}

pub broadcast proof fn lemma_trans_view_len(s: Seq<Transition>)
    ensures
        (#[trigger] trans_view(s)).len() == s.len(),
    decreases s,
{
    if s.len() > 0 {
        lemma_trans_view_len(s.drop_last());
    }
}

pub broadcast proof fn lemma_trans_view_index(s: Seq<Transition>, i: int)
    requires
        0 <= i < s.len(),
    ensures
        #[trigger] trans_view(s)[i] == s[i]@,
    decreases s,
{
    lemma_trans_view_len(s);
    if i < s.len() - 1 {
        lemma_trans_view_index(s.drop_last(), i);
        lemma_trans_view_len(s.drop_last());
    }
}

pub broadcast proof fn lemma_trans_view_push(s: Seq<Transition>, t: Transition)
    ensures
        #[trigger] trans_view(s.push(t)) == trans_view(s).push(t@),
{
    assert(s.push(t).drop_last() =~= s);
    assert(s.push(t).last() == t);
}

/// The machine under construction.
#[derive(Debug)]
pub struct Machine {
    pub state_count: usize,
    pub transitions: Vec<Transition>,
}

/// Mathematical model of a machine.
#[verifier::ext_equal]
pub struct MachineV {
    pub state_count: nat,
    pub transitions: Seq<TransitionV>,
}

impl View for Machine {
    type V = MachineV;

    open spec fn view(&self) -> MachineV {
        MachineV {
            state_count: self.state_count as nat,
            transitions: trans_view(self.transitions@),
        }
    }
}

impl Machine {
    /// Creates a new machine holding only the three reserved states and no
    /// transitions.
    pub fn new() -> (r: Machine)
        ensures
            r@.state_count == 3,
            r@.transitions == Seq::<TransitionV>::empty(),
    {
        let r = Machine { state_count: 3, transitions: Vec::new() };
        proof {
            assert(r@.transitions =~= Seq::<TransitionV>::empty());
        }
        r
    }

    /// Mints a new state and returns its number.
    pub fn push_state(&mut self) -> (s: usize)
        requires
            old(self)@.state_count < usize::MAX,
        ensures
            final(self)@.state_count == old(self)@.state_count + 1,
            final(self)@.transitions == old(self)@.transitions,
            s == old(self)@.state_count,
    {
        self.state_count = self.state_count + 1;
        self.state_count - 1
    }

    /// Adds a new transition to the machine.
    pub fn push_transition(&mut self, transition: Transition)
        ensures
            final(self)@.state_count == old(self)@.state_count,
            final(self)@.transitions == old(self)@.transitions.push(transition@),
    {
        broadcast use lemma_trans_view_push;

        self.transitions.push(transition);
    }
}

} // verus!
