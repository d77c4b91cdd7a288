//! The steps that were found but are not used for reasoning yet.

use vstd::prelude::*;

use crate::active_set::{simplified, ActiveSet, ActiveV};
use crate::clause::sum_atoms;
use crate::literal::LiteralV;
use crate::proof_step::{lemma_small_step, small_step, ProofStep, StepV, Truthiness};
use crate::table::{Duplicate, Key};
use crate::term::{capped, capped_sum};
use crate::text::views;

verus! {

broadcast use crate::text::group_views;

/// How deep a step can be and still count as shallow.
pub const MAX_SHALLOW_DEPTH: u32 = 1;

/// A queue of pending steps.
#[derive(Debug)]
pub struct PassiveSet {
    /// The steps that wait, in the order in which they came.
    steps: Vec<ProofStep>,
    /// Whether only shallow steps were taken out so far.
    all_shallow: bool,
    /// Two steps that say the opposite of each other, once there are such steps.
    contradiction: Option<(ProofStep, ProofStep)>,
}

/// The model of a passive set.
#[verifier::ext_equal]
pub struct PassiveV {
    pub steps: Seq<StepV>,
    pub all_shallow: bool,
    pub contradiction: Option<(StepV, StepV)>,
}

impl View for PassiveSet {
    type V = PassiveV;

    closed spec fn view(&self) -> PassiveV {
        PassiveV {
            steps: views(self.steps@),
            all_shallow: self.all_shallow,
            contradiction: match self.contradiction {
                Some((a, b)) => Some((a@, b@)),
                None => None,
            },
        }
    }
}

/// Whether two clauses with one literal each say the opposite of each other.
pub open spec fn opposite(a: StepV, b: StepV) -> bool {
    a.clause.literals.len() == 1 && b.clause.literals.len() == 1 && opposite_literals(
        a.clause.literals[0],
        b.clause.literals[0],
    )
}

/// Whether two literals say the opposite of each other.
pub open spec fn opposite_literals(a: LiteralV, b: LiteralV) -> bool {
    a.positive != b.positive && a.left == b.left && a.right == b.right
}

/// The first of the steps, from a place on, that says the opposite of another.
pub open spec fn opposite_step(steps: Seq<StepV>, s: StepV, i: nat) -> Option<int>
    decreases steps.len() - i,
{
    if i >= steps.len() {
        None
    } else if opposite(steps[i as int], s) {
        Some(i as int)
    } else {
        opposite_step(steps, s, i + 1)
    }
}

/// Which step comes first: contradictions, then facts, then all others.
pub open spec fn rank(s: StepV) -> nat {
    if s.clause.is_impossible() {
        0
    } else if s.truthiness == Truthiness::Factual {
        1
    } else {
        2
    }
}

/// How much there is to a step: the atoms of its clause and the size of its proof.
pub open spec fn weight(s: StepV) -> u32 {
    capped(sum_atoms(s.clause.literals, s.clause.literals.len()), s.proof_size)
}

/// Whether a step is to be used before another that came earlier.
pub open spec fn better(a: StepV, b: StepV) -> bool {
    rank(a) < rank(b) || rank(a) == rank(b) && weight(a) < weight(b)
}

/// The place of the step among the first `n` that is to be used first.
pub open spec fn best(steps: Seq<StepV>, n: nat) -> int
    decreases n,
{
    if n <= 1 {
        0
    } else {
        let k = best(steps, (n - 1) as nat);
        if better(steps[n - 1], steps[k]) {
            n - 1
        } else {
            k
        }
    }
}

/// No step that waits is to be used before the best one.
pub proof fn law_best_is_not_beaten(steps: Seq<StepV>, n: nat, i: int)
    requires
        0 <= i < n <= steps.len(),
    ensures
        0 <= best(steps, n) < n,
        !better(steps[i], steps[best(steps, n)]),
    decreases n,
{
    if n > 1 {
        law_best_is_not_beaten(steps, (n - 1) as nat, if i < n - 1 {
            i
        } else {
            0
        });
    }
}

impl PassiveV {
    /// The set with one more step.
    pub open spec fn with(self, s: StepV) -> PassiveV {
        PassiveV {
            steps: self.steps.push(s),
            contradiction: match self.contradiction {
                Some(c) => Some(c),
                None => match opposite_step(self.steps, s, 0) {
                    Some(i) => Some((self.steps[i], s)),
                    None => None,
                },
            },
            ..self
        }
    }

    /// The set with the first `n` of some more steps.
    pub open spec fn with_all(self, more: Seq<StepV>, n: nat) -> PassiveV
        decreases n,
    {
        if n == 0 || n > more.len() {
            self
        } else {
            self.with_all(more, (n - 1) as nat).with(more[n - 1])
        }
    }

    /// The set without the step that is to be used next.
    pub open spec fn popped(self) -> PassiveV {
        let k = best(self.steps, self.steps.len());
        PassiveV {
            steps: self.steps.remove(k),
            all_shallow: self.all_shallow && self.steps[k].depth <= MAX_SHALLOW_DEPTH,
            ..self
        }
    }

    /// The set where every step is simplified by an active set. What an active set makes
    /// pointless goes, and what it makes shorter waits again at the end.
    pub open spec fn simplified(self, a: ActiveV) -> PassiveV {
        let shorter = shortened(a, self.steps, self.steps.len());
        PassiveV { steps: unchanged(a, self.steps, self.steps.len()), ..self }.with_all(
            shorter,
            shorter.len(),
        )
    }
}

/// Those of the first `n` steps that an active set leaves as they are.
pub open spec fn unchanged(a: ActiveV, steps: Seq<StepV>, n: nat) -> Seq<StepV>
    decreases n,
{
    if n == 0 || n > steps.len() {
        Seq::empty()
    } else {
        let before = unchanged(a, steps, (n - 1) as nat);
        match simplified(a, steps[n - 1]) {
            Some(s) => if s.clause.literals.len() == steps[n - 1].clause.literals.len() {
                before.push(s)
            } else {
                before
            },
            None => before,
        }
    }
}

/// What those of the first `n` steps become that an active set makes shorter.
pub open spec fn shortened(a: ActiveV, steps: Seq<StepV>, n: nat) -> Seq<StepV>
    decreases n,
{
    if n == 0 || n > steps.len() {
        Seq::empty()
    } else {
        let before = shortened(a, steps, (n - 1) as nat);
        match simplified(a, steps[n - 1]) {
            Some(s) => if s.clause.literals.len() == steps[n - 1].clause.literals.len() {
                before
            } else {
                before.push(s)
            },
            None => before,
        }
    }
}

fn is_opposite(a: &ProofStep, b: &ProofStep) -> (r: bool)
    ensures
        r == opposite(a@, b@),
{
    if a.clause.literals.len() != 1 || b.clause.literals.len() != 1 {
        return false;
    }
    assert(a@.clause.literals[0] == a.clause.literals@[0]@);
    assert(b@.clause.literals[0] == b.clause.literals@[0]@);
    let x = &a.clause.literals[0];
    let y = &b.clause.literals[0];
    x.positive != y.positive && x.left.same(&y.left) && x.right.same(&y.right)
}

fn rank_of(s: &ProofStep) -> (r: u32)
    ensures
        r == rank(s@),
{
    if s.clause.is_impossible() {
        0
    } else if s.truthiness == Truthiness::Factual {
        1
    } else {
        2
    }
}

fn is_better(a: &ProofStep, b: &ProofStep) -> (r: bool)
    ensures
        r == better(a@, b@),
{
    let x = rank_of(a);
    let y = rank_of(b);
    if x != y {
        return x < y;
    }
    capped_sum(a.clause.atom_count(), a.proof_size) < capped_sum(
        b.clause.atom_count(),
        b.proof_size,
    )
}

impl PassiveSet {
    /// A set without steps.
    pub fn new() -> (r: PassiveSet)
        ensures
            r@ == (PassiveV { steps: Seq::empty(), all_shallow: true, contradiction: None }),
    {
        let r = PassiveSet { steps: Vec::new(), all_shallow: true, contradiction: None };
        assert(views(r.steps@) =~= Seq::<StepV>::empty());
        r
    }

    /// How many steps wait.
    pub fn len(&self) -> (r: usize)
        ensures
            r == self@.steps.len(),
    {
        self.steps.len()
    }

    /// Places are machine numbers.
    pub proof fn lemma_len(&self)
        ensures
            self@.steps.len() <= usize::MAX,
    {
        assert(self@.steps.len() == self.steps.len());
    }

    /// The numbers of literals and arguments of the steps are machine numbers.
    pub proof fn lemma_small(&self)
        ensures
            forall|i: int|
                0 <= i < self@.steps.len() ==> small_step(#[trigger] self@.steps[i]),
    {
        assert forall|i: int| 0 <= i < self@.steps.len() implies small_step(
            #[trigger] self@.steps[i],
        ) by {
            lemma_small_step(self.steps@[i]);
        }
    }

    /// Whether only shallow steps were taken out so far.
    pub fn is_all_shallow(&self) -> (r: bool)
        ensures
            r == self@.all_shallow,
    {
        self.all_shallow
    }

    /// One of the steps that wait.
    pub fn get_step(&self, i: usize) -> (r: &ProofStep)
        requires
            i < self@.steps.len(),
        ensures
            r@ == self@.steps[i as int],
    {
        &self.steps[i]
    }

    /// Adds a step.
    pub fn push(&mut self, step: ProofStep)
        ensures
            final(self)@ == old(self)@.with(step@),
    {
        let ghost before = self@;
        if self.contradiction.is_none() && step.clause.literals.len() == 1 {
            let mut i: usize = 0;
            while i < self.steps.len() && !is_opposite(&self.steps[i], &step)
                invariant
                    i <= self.steps.len(),
                    before == self@,
                    opposite_step(self@.steps, step@, 0) == opposite_step(
                        self@.steps,
                        step@,
                        i as nat,
                    ),
                decreases self.steps.len() - i,
            {
                assert(self@.steps[i as int] == self.steps@[i as int]@);
                i = i + 1;
            }
            if i < self.steps.len() {
                assert(self@.steps[i as int] == self.steps@[i as int]@);
                self.contradiction = Some((self.steps[i].duplicate(), step.duplicate()));
            }
        } else {
            proof {
                if before.contradiction is None {
                    lemma_no_opposite(before.steps, step@, 0);
                }
            }
        }
        self.steps.push(step);
        assert(self@ =~= before.with(step@));
    }

    /// Adds some steps.
    pub fn push_batch(&mut self, steps: Vec<ProofStep>)
        ensures
            final(self)@ == old(self)@.with_all(views(steps@), steps@.len()),
    {
        let ghost before = self@;
        let mut i: usize = 0;
        while i < steps.len()
            invariant
                i <= steps.len(),
                self@ == before.with_all(views(steps@), i as nat),
            decreases steps.len() - i,
        {
            assert(views(steps@)[i as int] == steps@[i as int]@);
            self.push(steps[i].duplicate());
            i = i + 1;
        }
    }

    /// Takes out the step that is to be used next.
    pub fn pop(&mut self) -> (r: Option<ProofStep>)
        ensures
            match r {
                Some(s) => old(self)@.steps.len() > 0 && s@ == old(self)@.steps[best(
                    old(self)@.steps,
                    old(self)@.steps.len(),
                )] && final(self)@ == old(self)@.popped(),
                None => old(self)@.steps.len() == 0 && final(self)@ == old(self)@,
            },
    {
        let n = self.steps.len();
        if n == 0 {
            return None;
        }
        let ghost sv = self@.steps;
        let mut k: usize = 0;
        let mut i: usize = 1;
        while i < n
            invariant
                1 <= i <= n,
                k < i,
                n == self.steps.len(),
                self@ == old(self)@,
                sv == self@.steps,
                k == best(sv, i as nat),
            decreases n - i,
        {
            assert(sv[i as int] == self.steps@[i as int]@);
            assert(sv[k as int] == self.steps@[k as int]@);
            if is_better(&self.steps[i], &self.steps[k]) {
                k = i;
            }
            i = i + 1;
        }
        let ghost before = self.steps@;
        let step = self.steps.remove(k);
        proof {
            assert(views(self.steps@) =~= views(before).remove(k as int));
            assert(sv[k as int] == before[k as int]@);
        }
        if step.depth > MAX_SHALLOW_DEPTH {
            self.all_shallow = false;
        }
        assert(self@ =~= old(self)@.popped());
        Some(step)
    }

    /// Two steps that say the opposite of each other, if there were such steps.
    pub fn get_contradiction(&self) -> (r: Option<Vec<ProofStep>>)
        ensures
            match self@.contradiction {
                Some((a, b)) => r matches Some(v) && views(v@) == seq![a, b],
                None => r is None,
            },
    {
        match &self.contradiction {
            Some((a, b)) => {
                let mut out: Vec<ProofStep> = Vec::new();
                out.push(a.duplicate());
                out.push(b.duplicate());
                assert(views(out@) =~= seq![a@, b@]);
                Some(out)
            },
            None => None,
        }
    }

    /// Simplifies every step by what an active set knows.
    pub fn simplify(&mut self, active: &ActiveSet)
        ensures
            final(self)@ == old(self)@.simplified(active@),
    {
        let ghost sv = self@.steps;
        let mut kept: Vec<ProofStep> = Vec::new();
        let mut shorter: Vec<ProofStep> = Vec::new();
        let mut i: usize = 0;
        assert(views(kept@) =~= Seq::<StepV>::empty());
        assert(views(shorter@) =~= Seq::<StepV>::empty());
        while i < self.steps.len()
            invariant
                i <= self.steps.len(),
                self@ == old(self)@,
                sv == self@.steps,
                views(kept@) == unchanged(active@, sv, i as nat),
                views(shorter@) == shortened(active@, sv, i as nat),
            decreases self.steps.len() - i,
        {
            assert(sv[i as int] == self.steps@[i as int]@);
            match active.simplify(self.steps[i].duplicate()) {
                Some(s) => {
                    if s.clause.literals.len() == self.steps[i].clause.literals.len() {
                        kept.push(s);
                    } else {
                        shorter.push(s);
                    }
                },
                None => {},
            }
            i = i + 1;
        }
        self.steps = kept;
        assert(self@ =~= (PassiveV { steps: unchanged(active@, sv, sv.len()), ..old(self)@ }));
        self.push_batch(shorter);
    }

    /// The places of the steps that depend on an active step.
    pub fn find_consequences(&self, id: usize) -> (r: Vec<usize>)
        ensures
            r@ == crate::active_set::consequences(self@.steps, id, self@.steps.len()),
    {
        let mut out: Vec<usize> = Vec::new();
        let mut i: usize = 0;
        while i < self.steps.len()
            invariant
                i <= self.steps.len(),
                out@ == crate::active_set::consequences(self@.steps, id, i as nat),
            decreases self.steps.len() - i,
        {
            assert(self@.steps[i as int] == self.steps@[i as int]@);
            if self.steps[i].depends_on_active(id) {
                out.push(i);
            }
            i = i + 1;
        }
        out
    }
}

proof fn lemma_no_opposite(steps: Seq<StepV>, s: StepV, i: nat)
    requires
        s.clause.literals.len() != 1,
    ensures
        opposite_step(steps, s, i) is None,
    decreases steps.len() - i,
{
    if i < steps.len() {
        lemma_no_opposite(steps, s, i + 1);
    }
}

/// Two steps that are kept as a contradiction do say the opposite of each other.
pub proof fn law_contradictions_are_opposite(p: PassiveV, s: StepV)
    requires
        p.contradiction matches Some((a, b)) ==> opposite(a, b),
    ensures
        p.with(s).contradiction matches Some((a, b)) ==> opposite(a, b),
{
    lemma_opposite_step(p.steps, s, 0);
}

/// The step that is found says the opposite.
pub proof fn lemma_opposite_step(steps: Seq<StepV>, s: StepV, i: nat)
    ensures
        opposite_step(steps, s, i) matches Some(k) ==> 0 <= k < steps.len() && opposite(
            steps[k],
            s,
        ),
    decreases steps.len() - i,
{
    if i < steps.len() {
        lemma_opposite_step(steps, s, i + 1);
    }
}

} // verus!
