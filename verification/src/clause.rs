//! Clauses: disjunctions of literals, for all values of their variables.

use vstd::prelude::*;

use crate::acorn_type::AtomId;
use crate::literal::{
    law_literal_order_is_total, law_literal_order_is_transitive, literal_order, literal_text,
    oriented, quantifiers, Literal,
    LiteralV,
};
use crate::table::{duplicate_all, holds, Duplicate, Key};
use crate::term::{
    atom_count, capped, capped_sum, collect_vars, is_var, is_variable, kbo, lemma_term_view, Atom,
    Comparison, Term, TermV,
};
use crate::text::{join, joined, views};
use crate::unifier::{apply, instance, unified, unify_all, BindingV};

verus! {

/// An "or" of literals. It holds for all values of its variables.
#[derive(Debug)]
pub struct Clause {
    pub literals: Vec<Literal>,
}

/// The model of a clause.
#[verifier::ext_equal]
pub struct ClauseV {
    pub literals: Seq<LiteralV>,
}

impl View for Clause {
    type V = ClauseV;

    open spec fn view(&self) -> ClauseV {
        ClauseV { literals: views(self.literals@) }
    }
}

impl Clone for Clause {
    fn clone(&self) -> (r: Self)
        ensures
            r@ == self@,
    {
        Clause { literals: duplicate_all(&self.literals) }
    }
}

impl Duplicate for Clause {
    fn duplicate(&self) -> (r: Self) {
        self.clone()
    }
}

fn same_literals(a: &Vec<Literal>, b: &Vec<Literal>) -> (r: bool)
    ensures
        r == (views(a@) == views(b@)),
{
    if a.len() != b.len() {
        assert(views(a@).len() != views(b@).len());
        return false;
    }
    let mut i: usize = 0;
    while i < a.len()
        invariant
            i <= a.len() == b.len(),
            forall|k: int| 0 <= k < i ==> (#[trigger] a@[k])@ == b@[k]@,
        decreases a.len() - i,
    {
        if !a[i].same(&b[i]) {
            assert(views(a@)[i as int] != views(b@)[i as int]);
            return false;
        }
        i = i + 1;
    }
    assert(views(a@) =~= views(b@));
    true
}

impl Key for Clause {
    fn same(&self, other: &Self) -> (r: bool) {
        same_literals(&self.literals, &other.literals)
    }
}

/// What became of a literal of an input.
#[derive(Clone, Copy, Debug, PartialEq, Eq, Structural)]
pub enum LiteralTrace {
    /// It is a literal of the output, perhaps with its sides exchanged.
    Output { index: usize, flipped: bool },
    /// It was eliminated by the clause of another step, perhaps with sides exchanged.
    Eliminated { step: usize, flipped: bool },
    /// It cannot hold.
    Impossible,
}

impl View for LiteralTrace {
    type V = LiteralTrace;

    open spec fn view(&self) -> LiteralTrace {
        *self
    }
}

impl Duplicate for LiteralTrace {
    fn duplicate(&self) -> (r: Self) {
        *self
    }
}

impl LiteralTrace {
    /// The step that eliminated the literal.
    pub fn step_id(&self) -> (r: Option<usize>)
        ensures
            r == (match *self {
                LiteralTrace::Eliminated { step, .. } => Some(step),
                _ => None,
            }),
    {
        match self {
            LiteralTrace::Eliminated { step, .. } => Some(*step),
            _ => None,
        }
    }
}

/// A literal with its number in the input.
pub type TaggedV = (LiteralV, usize);

/// The first `n` literals with their numbers, without those that cannot hold.
pub open spec fn tagged(ls: Seq<LiteralV>, n: nat) -> Seq<TaggedV>
    decreases n,
{
    if n == 0 || n > ls.len() {
        Seq::empty()
    } else {
        let before = tagged(ls, (n - 1) as nat);
        if ls[n - 1].is_impossible() {
            before
        } else {
            before.push((ls[n - 1], (n - 1) as usize))
        }
    }
}

/// A sorted list with one more literal: after all that do not come later.
pub open spec fn inserted(s: Seq<TaggedV>, p: TaggedV) -> Seq<TaggedV>
    decreases s.len(),
{
    if s.len() == 0 || literal_order(p.0, s.last().0) != Comparison::Less {
        s.push(p)
    } else {
        inserted(s.drop_last(), p).push(s.last())
    }
}

/// The first `n` literals of a list in the order they are written.
pub open spec fn in_order(ps: Seq<TaggedV>, n: nat) -> Seq<TaggedV>
    decreases n,
{
    if n == 0 || n > ps.len() {
        Seq::empty()
    } else {
        inserted(in_order(ps, (n - 1) as nat), ps[n - 1])
    }
}

/// The first `n` literals of a list without repetitions.
pub open spec fn distinct(ps: Seq<TaggedV>, n: nat) -> Seq<LiteralV>
    decreases n,
{
    if n == 0 || n > ps.len() {
        Seq::empty()
    } else {
        let before = distinct(ps, (n - 1) as nat);
        if before.len() > 0 && before.last() == ps[n - 1].0 {
            before
        } else {
            before.push(ps[n - 1].0)
        }
    }
}

/// Where the first `n` literals of a list went.
pub open spec fn traced(ps: Seq<TaggedV>, len: nat, n: nat) -> Seq<LiteralTrace>
    decreases n,
{
    if n == 0 || n > ps.len() {
        Seq::new(len, |i: int| LiteralTrace::Impossible)
    } else {
        traced(ps, len, (n - 1) as nat).update(
            ps[n - 1].1 as int,
            LiteralTrace::Output { index: (distinct(ps, n).len() - 1) as usize, flipped: false },
        )
    }
}

/// The variables of the first `n` literals, each once, in the order they are first written.
pub open spec fn var_names(ls: Seq<LiteralV>, n: nat) -> Seq<Atom>
    decreases n,
{
    if n == 0 || n > ls.len() {
        Seq::empty()
    } else {
        new_names(
            var_names(ls, (n - 1) as nat),
            ls[n - 1].vars(),
            ls[n - 1].vars().len(),
        )
    }
}

/// A list of names with those of the first `n` of another that it lacks.
pub open spec fn new_names(names: Seq<Atom>, vs: Seq<Atom>, n: nat) -> Seq<Atom>
    decreases n,
{
    if n == 0 || n > vs.len() {
        names
    } else {
        let before = new_names(names, vs, (n - 1) as nat);
        if before.contains(vs[n - 1]) {
            before
        } else {
            before.push(vs[n - 1])
        }
    }
}

/// The place of a name in a list, from the `i`th on.
pub open spec fn place_of(names: Seq<Atom>, a: Atom, i: nat) -> nat
    decreases names.len() - i,
{
    if i >= names.len() || names[i as int] == a {
        i
    } else {
        place_of(names, a, i + 1)
    }
}

/// A term whose variables are numbered by their place in a list.
pub open spec fn renumbered(t: TermV, names: Seq<Atom>) -> TermV
    decreases t,
{
    TermV {
        head: if is_var(t.head) {
            Atom::Variable(place_of(names, t.head, 0) as u16)
        } else {
            t.head
        },
        args: renumbered_all(t.args, names),
        ..t
    }
}

/// Terms whose variables are numbered by their place in a list.
pub open spec fn renumbered_all(ts: Seq<TermV>, names: Seq<Atom>) -> Seq<TermV>
    decreases ts,
{
    Seq::new(
        ts.len(),
        |i: int|
            if 0 <= i < ts.len() {
                renumbered(ts[i], names)
            } else {
                arbitrary()
            },
    )
}

/// A literal whose variables are numbered by their place in a list.
pub open spec fn renumbered_literal(l: LiteralV, names: Seq<Atom>) -> LiteralV {
    LiteralV {
        left: renumbered(l.left, names),
        right: renumbered(l.right, names),
        ..l
    }
}

/// Literals whose variables are numbered in the order they are written.
pub open spec fn normal_vars(ls: Seq<LiteralV>) -> Seq<LiteralV> {
    let names = var_names(ls, ls.len());
    Seq::new(ls.len(), |i: int| renumbered_literal(ls[i], names))
}

/// The literals in order, with their numbers in the input, without those that cannot hold.
pub open spec fn arranged(ls: Seq<LiteralV>) -> Seq<TaggedV> {
    let ps = tagged(ls, ls.len());
    in_order(ps, ps.len())
}

/// The clause of some literals: in order, without repetitions and without those that cannot hold,
/// and with variables numbered in the order they are written.
#[verifier::opaque]
pub open spec fn clause_of(ls: Seq<LiteralV>) -> ClauseV {
    let ps = arranged(ls);
    ClauseV { literals: normal_vars(distinct(ps, ps.len())) }
}

/// What became of each literal in the clause of them.
#[verifier::opaque]
pub open spec fn trace_of(ls: Seq<LiteralV>) -> Seq<LiteralTrace> {
    let ps = arranged(ls);
    traced(ps, ls.len(), ps.len())
}

/// What became of a literal in two steps.
pub open spec fn composed_trace(t: LiteralTrace, second: Seq<LiteralTrace>) -> LiteralTrace {
    match t {
        LiteralTrace::Output { index, flipped } => if index < second.len() {
            match second[index as int] {
                LiteralTrace::Output { index: j, flipped: f } => LiteralTrace::Output {
                    index: j,
                    flipped: flipped != f,
                },
                LiteralTrace::Eliminated { step, flipped: f } => LiteralTrace::Eliminated {
                    step,
                    flipped: flipped != f,
                },
                LiteralTrace::Impossible => LiteralTrace::Impossible,
            }
        } else {
            t
        },
        _ => t,
    }
}

/// What became of each literal in two steps.
pub open spec fn composed_traces(first: Seq<LiteralTrace>, second: Seq<LiteralTrace>) -> Seq<
    LiteralTrace,
> {
    Seq::new(first.len(), |i: int| composed_trace(first[i], second))
}

/// The number of the first positive literal from `i` on.
pub open spec fn first_positive(ls: Seq<LiteralV>, i: nat) -> nat
    decreases ls.len() - i,
{
    if i >= ls.len() || ls[i as int].positive {
        i
    } else {
        first_positive(ls, i + 1)
    }
}

impl ClauseV {
    /// Whether the clause always holds: a literal does, or a negative literal has the same sides
    /// as a later positive one.
    pub open spec fn is_tautology(self) -> bool {
        let k = first_positive(self.literals, 0);
        ||| exists|i: int, j: int|
            0 <= i < k && k <= j < self.literals.len() && (#[trigger] self.literals[i]).left == (
            #[trigger] self.literals[j]).left && self.literals[i].right == self.literals[j].right
        ||| exists|i: int| 0 <= i < self.literals.len() && (#[trigger] self.literals[i]).is_tautology()
    }

    /// Whether the clause cannot hold.
    pub open spec fn is_impossible(self) -> bool {
        self.literals.len() == 0
    }

    /// Whether some atom of the clause is one that `f` looks for.
    pub open spec fn has(self, f: spec_fn(Atom) -> bool) -> bool {
        exists|i: int| 0 <= i < self.literals.len() && (#[trigger] self.literals[i]).has(f)
    }

    /// Whether all literals of another clause are in this one.
    pub open spec fn contains(self, other: ClauseV) -> bool {
        forall|i: int|
            0 <= i < other.literals.len() ==> self.literals.contains(#[trigger] other.literals[i])
    }

    /// Whether we are willing to turn the clause into a line of code: it has one literal at most,
    /// and no made-up constants.
    pub open spec fn is_printable(self) -> bool {
        self.literals.len() <= 1 && !self.has(|a: Atom| a is Synthetic)
    }

    /// Whether the clause can be used to rewrite its left side: it is one equality, and the left
    /// side is larger for all values of the variables.
    pub open spec fn is_rewrite_rule(self) -> bool {
        self.literals.len() == 1 && self.literals[0].positive && kbo(
            self.literals[0].left,
            self.literals[0].right,
        ) == Comparison::Greater
    }
}

/// The text of a clause.
pub open spec fn clause_text(c: ClauseV) -> Seq<char> {
    if c.literals.len() == 0 {
        "<empty>"@
    } else {
        joined(
            Seq::new(c.literals.len(), |i: int| literal_text(c.literals[i])),
            " or "@,
        )
    }
}

/// The largest number of variables in the first `n` literals.
pub open spec fn max_quantifiers(ls: Seq<LiteralV>, n: nat) -> AtomId
    decreases n,
{
    if n == 0 || n > ls.len() {
        0
    } else {
        let a = max_quantifiers(ls, (n - 1) as nat);
        let b = quantifiers(ls[n - 1].vars(), ls[n - 1].vars().len());
        if a >= b {
            a
        } else {
            b
        }
    }
}

/// The number of atoms in the first `n` literals.
pub open spec fn sum_atoms(ls: Seq<LiteralV>, n: nat) -> u32
    decreases n,
{
    if n == 0 || n > ls.len() {
        0
    } else {
        capped(
            sum_atoms(ls, (n - 1) as nat),
            capped(atom_count(ls[n - 1].left), atom_count(ls[n - 1].right)),
        )
    }
}

/// How many of the first `n` literals are positive.
pub open spec fn positives(ls: Seq<LiteralV>, n: nat) -> nat
    decreases n,
{
    if n == 0 || n > ls.len() {
        0
    } else {
        positives(ls, (n - 1) as nat) + if ls[n - 1].positive {
            1nat
        } else {
            0
        }
    }
}

/// The models of literals with their numbers.
pub open spec fn tagged_view(s: Seq<(Literal, usize)>) -> Seq<TaggedV> {
    Seq::new(s.len(), |i: int| (s[i].0@, s[i].1))
}

fn insert_tagged(s: &mut Vec<(Literal, usize)>, l: Literal, k: usize)
    ensures
        tagged_view(final(s)@) == inserted(tagged_view(old(s)@), (l@, k)),
{
    let ghost p = (l@, k);
    let ghost all = tagged_view(s@);
    let mut i: usize = s.len();
    assert(all.take(i as int) + all.skip(i as int) =~= all);
    assert(inserted(all.take(i as int), p) + all.skip(i as int) =~= inserted(all, p)) by {
        assert(all.take(i as int) =~= all);
        assert(all.skip(i as int) =~= Seq::<TaggedV>::empty());
    }
    while i > 0 && l.order(&s[i - 1].0) == Comparison::Less
        invariant
            i <= s.len(),
            p == (l@, k),
            all == tagged_view(s@),
            s@ == old(s)@,
            inserted(all.take(i as int), p) + all.skip(i as int) == inserted(all, p),
        decreases i,
    {
        proof {
            let before = all.take(i as int);
            assert(before.drop_last() =~= all.take(i - 1));
            assert(before.last() == all[i - 1]);
            assert(all[i - 1] == (s@[i - 1].0@, s@[i - 1].1));
            assert(inserted(all.take(i - 1), p).push(all[i - 1]) + all.skip(i as int) =~= inserted(
                all.take(i - 1),
                p,
            ) + all.skip(i - 1));
        }
        i = i - 1;
    }
    proof {
        let before = all.take(i as int);
        if i > 0 {
            assert(before.last() == all[i - 1]);
            assert(all[i - 1] == (s@[i - 1].0@, s@[i - 1].1));
        }
        assert(inserted(before, p) == before.push(p));
        assert(before.push(p) + all.skip(i as int) =~= all.insert(i as int, p));
    }
    let ghost start = s@;
    s.insert(i, (l, k));
    assert(tagged_view(s@) =~= all.insert(i as int, p));
}

fn arrange(ls: &Vec<Literal>) -> (r: Vec<(Literal, usize)>)
    ensures
        tagged_view(r@) == arranged(views(ls@)),
        forall|i: int| 0 <= i < r.len() ==> (#[trigger] r@[i]).1 < ls.len(),
{
    let ghost lv = views(ls@);
    let mut out: Vec<(Literal, usize)> = Vec::new();
    assert(tagged_view(out@) =~= Seq::<TaggedV>::empty());
    let mut i: usize = 0;
    while i < ls.len()
        invariant
            i <= ls.len(),
            lv == views(ls@),
            tagged_view(out@) == in_order(tagged(lv, i as nat), tagged(lv, i as nat).len()),
            forall|k: int| 0 <= k < out.len() ==> (#[trigger] out@[k]).1 < ls.len(),
        decreases ls.len() - i,
    {
        assert(lv[i as int] == ls@[i as int]@);
        if !ls[i].is_impossible() {
            let ghost ps = tagged(lv, i as nat);
            let ghost before = tagged_view(out@);
            insert_tagged(&mut out, ls[i].clone(), i);
            proof {
                let next = tagged(lv, (i + 1) as nat);
                assert(next == ps.push((lv[i as int], i)));
                lemma_in_order_prefix(ps, (lv[i as int], i), ps.len());
                lemma_inserted_tags(before, (lv[i as int], i), ls@.len());
                assert forall|k: int| 0 <= k < out.len() implies (#[trigger] out@[k]).1
                    < ls.len() by {
                    assert(tagged_view(out@)[k].1 == out@[k].1);
                }
            }
        }
        i = i + 1;
    }
    out
}

proof fn lemma_inserted_tags(s: Seq<TaggedV>, p: TaggedV, n: nat)
    requires
        forall|k: int| 0 <= k < s.len() ==> (#[trigger] s[k]).1 < n,
        p.1 < n,
    ensures
        forall|k: int| 0 <= k < inserted(s, p).len() ==> (#[trigger] inserted(s, p)[k]).1 < n,
    decreases s.len(),
{
    if !(s.len() == 0 || literal_order(p.0, s.last().0) != Comparison::Less) {
        let inner = inserted(s.drop_last(), p);
        lemma_inserted_tags(s.drop_last(), p, n);
        assert forall|k: int| 0 <= k < inserted(s, p).len() implies (#[trigger] inserted(
            s,
            p,
        )[k]).1 < n by {
            if k < inner.len() {
                assert(inserted(s, p)[k] == inner[k]);
            } else {
                assert(inserted(s, p)[k] == s[s.len() - 1]);
            }
        }
    }
}

proof fn lemma_in_order_prefix(ps: Seq<TaggedV>, p: TaggedV, n: nat)
    requires
        n <= ps.len(),
    ensures
        in_order(ps.push(p), n) == in_order(ps, n),
    decreases n,
{
    if n > 0 {
        lemma_in_order_prefix(ps, p, (n - 1) as nat);
    }
}

fn find_place(names: &Vec<Atom>, a: Atom) -> (r: usize)
    ensures
        r == place_of(names@, a, 0),
{
    let mut i: usize = 0;
    while i < names.len() && names[i] != a
        invariant
            i <= names.len(),
            place_of(names@, a, 0) == place_of(names@, a, i as nat),
        decreases names.len() - i,
    {
        i = i + 1;
    }
    i
}

fn renumber_all(v: &Vec<Term>, names: &Vec<Atom>) -> (r: Vec<Term>)
    ensures
        views(r@) == renumbered_all(views(v@), names@),
    decreases v,
{
    let mut out: Vec<Term> = Vec::new();
    let mut i: usize = 0;
    while i < v.len()
        invariant
            i <= v.len(),
            out.len() == i,
            forall|k: int| 0 <= k < i ==> (#[trigger] out@[k])@ == renumbered(v@[k]@, names@),
        decreases v.len() - i,
    {
        assert(decreases_to!(v => v@[i as int]));
        out.push(renumber(&v[i], names));
        i = i + 1;
    }
    assert(views(out@) =~= renumbered_all(views(v@), names@));
    out
}

fn renumber(t: &Term, names: &Vec<Atom>) -> (r: Term)
    ensures
        r@ == renumbered(t@, names@),
    decreases t,
{
    broadcast use lemma_term_view;
    let head = if is_variable(t.head) {
        Atom::Variable(find_place(names, t.head) as u16)
    } else {
        t.head
    };
    Term {
        term_type: t.term_type,
        head_type: t.head_type,
        head,
        args: renumber_all(&t.args, names),
    }
}

fn collect_names(ls: &Vec<Literal>) -> (r: Vec<Atom>)
    ensures
        r@ == var_names(views(ls@), ls@.len()),
{
    let ghost lv = views(ls@);
    let mut names: Vec<Atom> = Vec::new();
    let mut i: usize = 0;
    while i < ls.len()
        invariant
            i <= ls.len(),
            lv == views(ls@),
            names@ == var_names(lv, i as nat),
        decreases ls.len() - i,
    {
        assert(lv[i as int] == ls@[i as int]@);
        let mut vs: Vec<Atom> = Vec::new();
        collect_vars(&ls[i].left, &mut vs);
        collect_vars(&ls[i].right, &mut vs);
        assert(vs@ =~= lv[i as int].vars());
        let ghost start = names@;
        let mut j: usize = 0;
        while j < vs.len()
            invariant
                j <= vs.len(),
                names@ == new_names(start, vs@, j as nat),
            decreases vs.len() - j,
        {
            let v = vs[j];
            let k = find_place(&names, v);
            proof {
                lemma_place_of(names@, v, 0);
            }
            if k == names.len() {
                names.push(v);
            }
            j = j + 1;
        }
        i = i + 1;
    }
    names
}

proof fn lemma_place_of(names: Seq<Atom>, a: Atom, i: nat)
    requires
        i <= names.len(),
        forall|k: int| 0 <= k < i ==> names[k] != a,
    ensures
        place_of(names, a, i) == names.len() <==> !names.contains(a),
        place_of(names, a, i) <= names.len(),
    decreases names.len() - i,
{
    if i < names.len() && names[i as int] != a {
        lemma_place_of(names, a, i + 1);
    }
}

/// Applies bindings to both sides of a literal, and orients it.
pub open spec fn bound_literal(l: LiteralV, s: Seq<BindingV>) -> (LiteralV, bool) {
    oriented(l.positive, instance(l.left, s), instance(l.right, s))
}

pub(crate) fn bind_literal(l: &Literal, s: &Vec<(Atom, Term)>) -> (r: (Literal, bool))
    ensures
        (r.0@, r.1) == bound_literal(l@, views(s@)),
{
    Literal::new_with_flip(l.positive, apply(&l.left, s), apply(&l.right, s))
}

pub(crate) fn one_equation(a: &Term, b: &Term) -> (r: Vec<(Term, Term)>)
    ensures
        views(r@) == seq![(a@, b@)],
{
    let mut out: Vec<(Term, Term)> = Vec::new();
    out.push((a.clone(), b.clone()));
    assert(views(out@) =~= seq![(a@, b@)]);
    out
}

/// A clause with one literal resolved away: its number, the literals that are left, and whether
/// each had its sides exchanged.
pub type ResolvedV = (usize, Seq<LiteralV>, Seq<bool>);

/// The first `n` literals but the `k`th, with bindings put in.
pub open spec fn bound_others(ls: Seq<LiteralV>, s: Seq<BindingV>, k: int, n: nat) -> (
    Seq<LiteralV>,
    Seq<bool>,
)
    decreases n,
{
    if n == 0 || n > ls.len() {
        (Seq::empty(), Seq::empty())
    } else {
        let before = bound_others(ls, s, k, (n - 1) as nat);
        if n - 1 == k {
            before
        } else {
            let (l, f) = bound_literal(ls[n - 1], s);
            (before.0.push(l), before.1.push(f))
        }
    }
}

/// The ways to resolve away one of the first `n` literals: an inequality between terms that can be
/// made the same. Negative literals come first, so it ends with the first positive one.
pub open spec fn resolutions(ls: Seq<LiteralV>, n: nat) -> Seq<ResolvedV>
    decreases n,
{
    if n == 0 || n > ls.len() {
        Seq::empty()
    } else {
        let before = resolutions(ls, (n - 1) as nat);
        if first_positive(ls, 0) < n {
            before
        } else {
            match unified(seq![(ls[n - 1].left, ls[n - 1].right)]) {
                None => before,
                Some(s) => {
                    let (rest, flips) = bound_others(ls, s, n - 1, ls.len());
                    before.push(((n - 1) as usize, rest, flips))
                },
            }
        }
    }
}

/// The models of clauses with one literal resolved away.
pub open spec fn resolved_view(s: Seq<(usize, Vec<Literal>, Vec<bool>)>) -> Seq<ResolvedV> {
    Seq::new(s.len(), |i: int| (s[i].0, views(s[i].1@), s[i].2@))
}

fn bind_others(ls: &Vec<Literal>, s: &Vec<(Atom, Term)>, k: usize) -> (r: (
    Vec<Literal>,
    Vec<bool>,
))
    ensures
        (views(r.0@), r.1@) == bound_others(views(ls@), views(s@), k as int, ls@.len()),
{
    broadcast use crate::text::group_views;
    let ghost lv = views(ls@);
    let ghost sv = views(s@);
    let mut out: Vec<Literal> = Vec::new();
    let mut flips: Vec<bool> = Vec::new();
    let mut i: usize = 0;
    assert(flips@ =~= Seq::<bool>::empty());
    while i < ls.len()
        invariant
            i <= ls.len(),
            lv == views(ls@),
            sv == views(s@),
            (views(out@), flips@) == bound_others(lv, sv, k as int, i as nat),
        decreases ls.len() - i,
    {
        broadcast use crate::text::group_views;
        assert(lv[i as int] == ls@[i as int]@);
        if i != k {
            let (l, f) = bind_literal(&ls[i], s);
            out.push(l);
            flips.push(f);
        }
        i = i + 1;
    }
    (out, flips)
}

impl Clause {
    /// Makes a clause, and says what became of each literal.
    pub fn normalize_with_trace(literals: Vec<Literal>) -> (r: (Clause, Vec<LiteralTrace>))
        ensures
            r.0@ == clause_of(views(literals@)),
            r.1@ == trace_of(views(literals@)),
    {
        reveal(clause_of);
        reveal(trace_of);
        broadcast use crate::text::group_views;
        let ps = arrange(&literals);
        let ghost pv = tagged_view(ps@);
        let n = literals.len();
        let mut trace: Vec<LiteralTrace> = Vec::new();
        let mut i: usize = 0;
        while i < n
            invariant
                i <= n,
                trace.len() == i,
                forall|k: int| 0 <= k < i ==> trace@[k] == LiteralTrace::Impossible,
            decreases n - i,
        {
            trace.push(LiteralTrace::Impossible);
            i = i + 1;
        }
        let mut out: Vec<Literal> = Vec::new();
        let mut j: usize = 0;
        assert(trace@ =~= traced(pv, n as nat, 0));
        while j < ps.len()
            invariant
                j <= ps.len(),
                pv == tagged_view(ps@),
                trace.len() == n,
                forall|i: int| 0 <= i < ps.len() ==> (#[trigger] ps@[i]).1 < n,
                trace@ == traced(pv, n as nat, j as nat),
                views(out@) == distinct(pv, j as nat),
            decreases ps.len() - j,
        {
            broadcast use crate::text::group_views;
            let literal = &ps[j].0;
            assert(pv[j as int] == (literal@, ps@[j as int].1));
            let repeated = out.len() > 0 && out[out.len() - 1].same(literal);
            if !repeated {
                out.push(literal.clone());
            }
            assert(views(out@) == distinct(pv, (j + 1) as nat));
            trace.set(
                ps[j].1,
                LiteralTrace::Output { index: out.len() - 1, flipped: false },
            );
            j = j + 1;
        }
        let names = collect_names(&out);
        let mut normal: Vec<Literal> = Vec::new();
        let mut k: usize = 0;
        while k < out.len()
            invariant
                k <= out.len(),
                normal.len() == k,
                forall|i: int|
                    0 <= i < k ==> (#[trigger] normal@[i])@ == renumbered_literal(
                        out@[i]@,
                        names@,
                    ),
            decreases out.len() - k,
        {
            let l = &out[k];
            normal.push(
                Literal {
                    positive: l.positive,
                    left: renumber(&l.left, &names),
                    right: renumber(&l.right, &names),
                },
            );
            k = k + 1;
        }
        assert(views(normal@) =~= normal_vars(views(out@)));
        (Clause { literals: normal }, trace)
    }

    /// Sorts literals. Removes any duplicate or impossible literals. An empty clause indicates an
    /// impossible clause.
    pub fn new(literals: Vec<Literal>) -> (r: Clause)
        ensures
            r@ == clause_of(views(literals@)),
    {
        Clause::normalize_with_trace(literals).0
    }

    /// Makes a clause of literals that came from others, and says what became of those.
    pub fn new_with_trace(literals: Vec<Literal>, trace: Vec<LiteralTrace>) -> (r: (
        Clause,
        Vec<LiteralTrace>,
    ))
        ensures
            r.0@ == clause_of(views(literals@)),
            r.1@ == composed_traces(trace@, trace_of(views(literals@))),
    {
        let (clause, second) = Clause::normalize_with_trace(literals);
        (clause, compose_traces(&trace, &second))
    }

    /// Makes a clause of literals that came from others, which have a history themselves, if one
    /// is kept.
    pub fn new_composing_traces(
        literals: Vec<Literal>,
        base: Option<Vec<LiteralTrace>>,
        trace: &Vec<LiteralTrace>,
    ) -> (r: (Clause, Option<Vec<LiteralTrace>>))
        ensures
            r.0@ == clause_of(views(literals@)),
            match (base, r.1) {
                (Some(b), Some(t)) => t@ == composed_traces(
                    composed_traces(b@, trace@),
                    trace_of(views(literals@)),
                ),
                (None, None) => true,
                _ => false,
            },
    {
        let (clause, second) = Clause::normalize_with_trace(literals);
        match base {
            Some(b) => {
                let middle = compose_traces(&b, trace);
                (clause, Some(compose_traces(&middle, &second)))
            },
            None => (clause, None),
        }
    }

    /// The clause that never holds.
    pub fn impossible() -> (r: Clause)
        ensures
            r@.literals.len() == 0,
    {
        Clause { literals: Vec::new() }
    }

    /// The largest number of variables in a literal.
    pub fn num_quantifiers(&self) -> (r: AtomId)
        ensures
            r == max_quantifiers(self@.literals, self@.literals.len()),
    {
        let mut answer: AtomId = 0;
        let mut i: usize = 0;
        while i < self.literals.len()
            invariant
                i <= self.literals.len(),
                answer == max_quantifiers(self@.literals, i as nat),
            decreases self.literals.len() - i,
        {
            assert(self@.literals[i as int] == self.literals@[i as int]@);
            let n = self.literals[i].num_quantifiers();
            if n > answer {
                answer = n;
            }
            i = i + 1;
        }
        answer
    }

    /// Whether the clause always holds.
    pub fn is_tautology(&self) -> (r: bool)
        ensures
            r == self@.is_tautology(),
    {
        let ghost lv = self@.literals;
        let n = self.literals.len();
        // Find the index of the first positive literal
        let mut first_pos: usize = 0;
        while first_pos < n && !self.literals[first_pos].positive
            invariant
                first_pos <= n == self.literals.len(),
                lv == views(self.literals@),
                first_positive(lv, 0) == first_positive(lv, first_pos as nat),
            decreases n - first_pos,
        {
            assert(lv[first_pos as int] == self.literals@[first_pos as int]@);
            first_pos = first_pos + 1;
        }
        proof {
            if first_pos < n {
                assert(lv[first_pos as int] == self.literals@[first_pos as int]@);
            }
        }
        // Check for (!p, p) pairs which cause a tautology
        let mut i: usize = 0;
        while i < first_pos
            invariant
                i <= first_pos <= n == self.literals.len(),
                lv == views(self.literals@),
                self@.literals == lv,
                first_pos == first_positive(lv, 0),
                forall|a: int, b: int|
                    0 <= a < i && first_pos <= b < n ==> !((#[trigger] lv[a]).left == (
                    #[trigger] lv[b]).left && lv[a].right == lv[b].right),
            decreases first_pos - i,
        {
            let neg = &self.literals[i];
            assert(lv[i as int] == neg@);
            let mut j: usize = first_pos;
            while j < n
                invariant
                    i < first_pos <= j <= n == self.literals.len(),
                    lv == views(self.literals@),
                    self@.literals == lv,
                    neg@ == lv[i as int],
                    first_pos == first_positive(lv, 0),
                    forall|b: int|
                        first_pos <= b < j ==> !(neg@.left == (#[trigger] lv[b]).left && neg@.right
                            == lv[b].right),
                decreases n - j,
            {
                let pos = &self.literals[j];
                assert(lv[j as int] == pos@);
                if neg.left.same(&pos.left) && neg.right.same(&pos.right) {
                    assert(lv[i as int].left == lv[j as int].left);
                    return true;
                }
                j = j + 1;
            }
            i = i + 1;
        }
        let mut k: usize = 0;
        while k < n
            invariant
                k <= n == self.literals.len(),
                lv == views(self.literals@),
                self@.literals == lv,
                forall|a: int| 0 <= a < k ==> !(#[trigger] lv[a]).is_tautology(),
            decreases n - k,
        {
            assert(lv[k as int] == self.literals@[k as int]@);
            if self.literals[k].is_tautology() {
                return true;
            }
            k = k + 1;
        }
        false
    }

    /// Whether the clause cannot hold.
    pub fn is_impossible(&self) -> (r: bool)
        ensures
            r == self@.is_impossible(),
    {
        self.literals.len() == 0
    }

    /// The number of atoms, not counting "true".
    pub fn atom_count(&self) -> (r: u32)
        ensures
            r == sum_atoms(self@.literals, self@.literals.len()),
    {
        let mut sum: u32 = 0;
        let mut i: usize = 0;
        while i < self.literals.len()
            invariant
                i <= self.literals.len(),
                sum == sum_atoms(self@.literals, i as nat),
            decreases self.literals.len() - i,
        {
            assert(self@.literals[i as int] == self.literals@[i as int]@);
            sum = capped_sum(sum, self.literals[i].atom_count());
            i = i + 1;
        }
        sum
    }

    /// Whether the clause can be used to rewrite its left side.
    pub fn is_rewrite_rule(&self) -> (r: bool)
        ensures
            r == self@.is_rewrite_rule(),
    {
        if self.literals.len() != 1 {
            return false;
        }
        let literal = &self.literals[0];
        assert(self@.literals[0] == literal@);
        if !literal.positive {
            return false;
        }
        literal.left.kbo(&literal.right) == Comparison::Greater
    }

    /// The number of literals.
    pub fn len(&self) -> (r: usize)
        ensures
            r == self@.literals.len(),
    {
        self.literals.len()
    }

    /// Whether any variable occurs.
    pub fn has_any_variable(&self) -> (r: bool)
        ensures
            r == self@.has(|a: Atom| is_var(a)),
    {
        let mut i: usize = 0;
        while i < self.literals.len()
            invariant
                i <= self.literals.len(),
                forall|k: int|
                    0 <= k < i ==> !(#[trigger] self@.literals[k]).has(|a: Atom| is_var(a)),
            decreases self.literals.len() - i,
        {
            assert(self@.literals[i as int] == self.literals@[i as int]@);
            if self.literals[i].has_any_variable() {
                return true;
            }
            i = i + 1;
        }
        false
    }

    /// Whether any local constant occurs.
    pub fn has_local_constant(&self) -> (r: bool)
        ensures
            r == self@.has(|a: Atom| a is LocalConstant),
    {
        let mut i: usize = 0;
        while i < self.literals.len()
            invariant
                i <= self.literals.len(),
                forall|k: int|
                    0 <= k < i ==> !(#[trigger] self@.literals[k]).has(
                        |a: Atom| a is LocalConstant,
                    ),
            decreases self.literals.len() - i,
        {
            assert(self@.literals[i as int] == self.literals@[i as int]@);
            if self.literals[i].has_local_constant() {
                return true;
            }
            i = i + 1;
        }
        false
    }

    /// Whether we are willing to turn the clause into a line of code.
    pub fn is_printable(&self) -> (r: bool)
        ensures
            r == self@.is_printable(),
    {
        let n = self.literals.len();
        if n > 1 {
            return false;
        }
        if n == 0 {
            return true;
        }
        assert(self@.literals[0] == self.literals@[0]@);
        !self.literals[0].has_synthetic()
    }

    /// The number of positive literals.
    pub fn num_positive_literals(&self) -> (r: usize)
        ensures
            r == positives(self@.literals, self@.literals.len()),
    {
        let mut n: usize = 0;
        let mut i: usize = 0;
        while i < self.literals.len()
            invariant
                n <= i <= self.literals.len(),
                n == positives(self@.literals, i as nat),
            decreases self.literals.len() - i,
        {
            assert(self@.literals[i as int] == self.literals@[i as int]@);
            if self.literals[i].positive {
                n = n + 1;
            }
            i = i + 1;
        }
        n
    }

    /// Whether all literals of another clause are in this one.
    pub fn contains(&self, other: &Clause) -> (r: bool)
        ensures
            r == self@.contains(other@),
    {
        let mut i: usize = 0;
        while i < other.literals.len()
            invariant
                i <= other.literals.len(),
                forall|k: int|
                    0 <= k < i ==> self@.literals.contains(#[trigger] other@.literals[k]),
            decreases other.literals.len() - i,
        {
            assert(other@.literals[i as int] == other.literals@[i as int]@);
            if !holds(&self.literals, &other.literals[i]) {
                return false;
            }
            i = i + 1;
        }
        true
    }

    /// The text of the clause.
    pub fn to_text(&self) -> (r: String)
        ensures
            r@ == clause_text(self@),
    {
        if self.literals.len() == 0 {
            return "<empty>".to_owned();
        }
        let mut parts: Vec<String> = Vec::new();
        let mut i: usize = 0;
        while i < self.literals.len()
            invariant
                i <= self.literals.len(),
                parts.len() == i,
                forall|k: int|
                    0 <= k < i ==> (#[trigger] parts@[k])@ == literal_text(self@.literals[k]),
            decreases self.literals.len() - i,
        {
            assert(self@.literals[i as int] == self.literals@[i as int]@);
            parts.push(self.literals[i].to_text());
            i = i + 1;
        }
        assert(views(parts@) =~= Seq::new(
            self@.literals.len(),
            |i: int| literal_text(self@.literals[i]),
        ));
        join(&parts, " or ")
    }

    /// Finds all ways to resolve away an inequality.
    pub fn find_equality_resolutions(&self) -> (r: Vec<(usize, Vec<Literal>, Vec<bool>)>)
        ensures
            resolved_view(r@) == resolutions(self@.literals, self@.literals.len()),
    {
        let ghost lv = self@.literals;
        let mut out: Vec<(usize, Vec<Literal>, Vec<bool>)> = Vec::new();
        assert(resolved_view(out@) =~= Seq::<ResolvedV>::empty());
        let mut i: usize = 0;
        while i < self.literals.len() && !self.literals[i].positive
            invariant
                i <= self.literals.len(),
                lv == views(self.literals@),
                first_positive(lv, 0) == first_positive(lv, i as nat),
                resolved_view(out@) == resolutions(lv, i as nat),
            decreases self.literals.len() - i,
        {
            let literal = &self.literals[i];
            assert(lv[i as int] == literal@);
            proof {
                lemma_first_positive(lv, (i + 1) as nat);
            }
            if let Some(s) = unify_all(one_equation(&literal.left, &literal.right)) {
                let (rest, flips) = bind_others(&self.literals, &s, i);
                let ghost before = out@;
                out.push((i, rest, flips));
                assert(resolved_view(out@) =~= resolved_view(before).push(
                    (i, views(rest@), flips@),
                ));
            }
            i = i + 1;
        }
        proof {
            if i < self.literals.len() {
                assert(lv[i as int] == self.literals@[i as int]@);
            }
            lemma_resolutions_end(lv, i as nat, lv.len());
        }
        out
    }
}

pub(crate) proof fn lemma_first_positive(ls: Seq<LiteralV>, i: nat)
    ensures
        i <= ls.len() ==> first_positive(ls, i) >= i,
        i <= ls.len() ==> first_positive(ls, i) <= ls.len(),
    decreases ls.len() - i,
{
    if i < ls.len() && !ls[i as int].positive {
        lemma_first_positive(ls, i + 1);
    }
}

proof fn lemma_resolutions_end(ls: Seq<LiteralV>, i: nat, n: nat)
    requires
        i <= n <= ls.len(),
        i == ls.len() || first_positive(ls, 0) <= i,
    ensures
        resolutions(ls, n) == resolutions(ls, i),
    decreases n,
{
    if i < n {
        lemma_resolutions_end(ls, i, (n - 1) as nat);
    }
}

pub(crate) fn compose_traces(first: &Vec<LiteralTrace>, second: &Vec<LiteralTrace>) -> (r: Vec<
    LiteralTrace,
>)
    ensures
        r@ == composed_traces(first@, second@),
{
    let mut out: Vec<LiteralTrace> = Vec::new();
    let mut i: usize = 0;
    while i < first.len()
        invariant
            i <= first.len(),
            out.len() == i,
            forall|k: int|
                0 <= k < i ==> #[trigger] out@[k] == composed_trace(first@[k], second@),
        decreases first.len() - i,
    {
        let t = first[i];
        let next = match t {
            LiteralTrace::Output { index, flipped } => if index < second.len() {
                match second[index] {
                    LiteralTrace::Output { index: j, flipped: f } => LiteralTrace::Output {
                        index: j,
                        flipped: flipped != f,
                    },
                    LiteralTrace::Eliminated { step, flipped: f } => LiteralTrace::Eliminated {
                        step,
                        flipped: flipped != f,
                    },
                    LiteralTrace::Impossible => LiteralTrace::Impossible,
                }
            } else {
                t
            },
            _ => t,
        };
        out.push(next);
        i = i + 1;
    }
    assert(out@ =~= composed_traces(first@, second@));
    out
}

/// Whether a list of literals is in order: none comes after the next one.
pub open spec fn is_ordered(ls: Seq<TaggedV>) -> bool {
    forall|i: int, j: int|
        0 <= i && j == i + 1 && j < ls.len() ==> literal_order(
            (#[trigger] ls[i]).0,
            (#[trigger] ls[j]).0,
        ) != Comparison::Greater
}

proof fn lemma_inserted_ordered(s: Seq<TaggedV>, p: TaggedV)
    requires
        is_ordered(s),
    ensures
        is_ordered(inserted(s, p)),
        inserted(s, p).len() == s.len() + 1,
        s.len() > 0 ==> inserted(s, p).last() == s.last() || inserted(s, p).last() == p,
        s.len() == 0 ==> inserted(s, p).last() == p,
    decreases s.len(),
{
    let r = inserted(s, p);
    if s.len() == 0 {
    } else if literal_order(p.0, s.last().0) != Comparison::Less {
        law_literal_order_is_total(p.0, s.last().0);
        assert forall|i: int, j: int| 0 <= i && j == i + 1 && j < r.len() implies literal_order(
            (#[trigger] r[i]).0,
            (#[trigger] r[j]).0,
        ) != Comparison::Greater by {
            if j < s.len() {
                assert(r[i] == s[i] && r[j] == s[j]);
            }
        }
    } else {
        let front = s.drop_last();
        let inner = inserted(front, p);
        assert forall|i: int, j: int| 0 <= i && j == i + 1 && j < front.len() implies literal_order(
            (#[trigger] front[i]).0,
            (#[trigger] front[j]).0,
        ) != Comparison::Greater by {
            assert(front[i] == s[i] && front[j] == s[j]);
        }
        lemma_inserted_ordered(front, p);
        law_literal_order_is_total(p.0, s.last().0);
        assert forall|i: int, j: int| 0 <= i && j == i + 1 && j < r.len() implies literal_order(
            (#[trigger] r[i]).0,
            (#[trigger] r[j]).0,
        ) != Comparison::Greater by {
            if j < inner.len() {
                assert(r[i] == inner[i] && r[j] == inner[j]);
            } else {
                assert(r[j] == s.last());
                assert(r[i] == inner.last());
                if front.len() > 0 && inner.last() == front.last() {
                    let k = s.len() - 1;
                    assert(s[k] == s.last());
                    assert(s[k - 1] == front.last());
                }
            }
        }
    }
}

proof fn lemma_in_order(ps: Seq<TaggedV>, n: nat)
    ensures
        is_ordered(in_order(ps, n)),
    decreases n,
{
    if n > 0 && n <= ps.len() {
        lemma_in_order(ps, (n - 1) as nat);
        lemma_inserted_ordered(in_order(ps, (n - 1) as nat), ps[n - 1]);
    }
}

/// The literals of a clause are written in order: negative ones first, larger ones first.
pub proof fn law_literals_are_in_order(ls: Seq<LiteralV>)
    ensures
        is_ordered(arranged(ls)),
{
    lemma_in_order(tagged(ls, ls.len()), tagged(ls, ls.len()).len());
}

proof fn lemma_distinct(ps: Seq<TaggedV>, n: nat)
    requires
        n <= ps.len(),
    ensures
        forall|i: int|
            0 < i < distinct(ps, n).len() ==> distinct(ps, n)[i - 1] != #[trigger] distinct(
                ps,
                n,
            )[i],
        forall|i: int|
            0 <= i < distinct(ps, n).len() ==> exists|k: int|
                0 <= k < n && (#[trigger] ps[k]).0 == #[trigger] distinct(ps, n)[i],
        forall|k: int| 0 <= k < n ==> distinct(ps, n).contains((#[trigger] ps[k]).0),
    decreases n,
{
    if n > 0 {
        lemma_distinct(ps, (n - 1) as nat);
        let before = distinct(ps, (n - 1) as nat);
        let after = distinct(ps, n);
        assert forall|k: int| 0 <= k < n implies after.contains((#[trigger] ps[k]).0) by {
            if k < n - 1 {
                let i = choose|i: int| 0 <= i < before.len() && before[i] == ps[k].0;
                assert(after[i] == ps[k].0);
            } else {
                assert(after[after.len() - 1] == ps[k].0);
            }
        }
        assert forall|i: int| 0 <= i < after.len() implies exists|k: int|
            0 <= k < n && (#[trigger] ps[k]).0 == #[trigger] after[i] by {
            if i < before.len() {
                assert(after[i] == before[i]);
                let k = choose|k: int| 0 <= k < n - 1 && (#[trigger] ps[k]).0 == before[i];
                assert(0 <= k < n && ps[k].0 == after[i]);
            } else {
                assert(ps[n - 1].0 == after[i]);
            }
        }
        assert forall|i: int| 0 < i < after.len() implies after[i - 1] != #[trigger] after[i] by {
            if i < before.len() {
                assert(before[i] == after[i]);
            }
        }
    }
}

proof fn lemma_inserted_members(s: Seq<TaggedV>, p: TaggedV, x: TaggedV)
    ensures
        inserted(s, p).contains(x) <==> s.contains(x) || x == p,
    decreases s.len(),
{
    let r = inserted(s, p);
    if s.len() == 0 || literal_order(p.0, s.last().0) != Comparison::Less {
        assert(r[s.len() as int] == p);
        if s.contains(x) {
            let i = choose|i: int| 0 <= i < s.len() && s[i] == x;
            assert(r[i] == x);
        }
    } else {
        let inner = inserted(s.drop_last(), p);
        lemma_inserted_members(s.drop_last(), p, x);
        assert(r[inner.len() as int] == s.last());
        if s.contains(x) {
            let i = choose|i: int| 0 <= i < s.len() && s[i] == x;
            if i < s.len() - 1 {
                assert(s.drop_last()[i] == x);
                let k = choose|k: int| 0 <= k < inner.len() && inner[k] == x;
                assert(r[k] == x);
            } else {
                assert(r[inner.len() as int] == x);
            }
        }
        if x == p {
            let k = choose|k: int| 0 <= k < inner.len() && inner[k] == x;
            assert(r[k] == x);
        }
        if r.contains(x) {
            let i = choose|i: int| 0 <= i < r.len() && r[i] == x;
            if i < inner.len() {
                assert(inner[i] == x);
                if s.drop_last().contains(x) {
                    let k = choose|k: int| 0 <= k < s.drop_last().len() && s.drop_last()[k] == x;
                    assert(s[k] == x);
                }
            } else {
                assert(s[s.len() - 1] == x);
            }
        }
    }
}

proof fn lemma_in_order_members(ps: Seq<TaggedV>, n: nat, x: TaggedV)
    requires
        n <= ps.len(),
    ensures
        in_order(ps, n).contains(x) <==> exists|k: int| 0 <= k < n && #[trigger] ps[k] == x,
    decreases n,
{
    if n > 0 {
        lemma_in_order_members(ps, (n - 1) as nat, x);
        lemma_inserted_members(in_order(ps, (n - 1) as nat), ps[n - 1], x);
        if in_order(ps, (n - 1) as nat).contains(x) {
            let k = choose|k: int| 0 <= k < n - 1 && #[trigger] ps[k] == x;
            assert(0 <= k < n && ps[k] == x);
        }
        if x == ps[n - 1] {
            assert(0 <= n - 1 < n && ps[n - 1] == x);
        }
    }
}

proof fn lemma_tagged_members(ls: Seq<LiteralV>, n: nat)
    requires
        n <= ls.len(),
    ensures
        forall|k: int|
            0 <= k < tagged(ls, n).len() ==> !(#[trigger] tagged(ls, n)[k]).0.is_impossible()
                && ls.contains(tagged(ls, n)[k].0),
        forall|i: int|
            0 <= i < n && !(#[trigger] ls[i]).is_impossible() ==> exists|k: int|
                0 <= k < tagged(ls, n).len() && (#[trigger] tagged(ls, n)[k]).0 == ls[i],
    decreases n,
{
    if n > 0 {
        lemma_tagged_members(ls, (n - 1) as nat);
        let before = tagged(ls, (n - 1) as nat);
        let after = tagged(ls, n);
        assert forall|k: int| 0 <= k < after.len() implies !(#[trigger] after[k]).0.is_impossible()
            && ls.contains(after[k].0) by {
            if k < before.len() {
                assert(after[k] == before[k]);
            } else {
                assert(after[k].0 == ls[n - 1]);
            }
        }
        assert forall|i: int| 0 <= i < n && !(#[trigger] ls[i]).is_impossible() implies exists|
            k: int,
        |
            0 <= k < after.len() && (#[trigger] after[k]).0 == ls[i] by {
            if i < n - 1 {
                let k = choose|k: int| 0 <= k < before.len() && (#[trigger] before[k]).0 == ls[i];
                assert(after[k] == before[k]);
            } else {
                assert(after[after.len() - 1].0 == ls[i]);
            }
        }
    }
}

/// A clause keeps just the literals that can hold, before variables get new numbers: none is lost,
/// none is added, and no literal follows itself.
pub proof fn law_clause_keeps_possible_literals(ls: Seq<LiteralV>)
    ensures
        ({
            let kept = distinct(arranged(ls), arranged(ls).len());
            &&& forall|l: LiteralV| #[trigger]
                kept.contains(l) <==> ls.contains(l) && !l.is_impossible()
            &&& forall|i: int| 0 < i < kept.len() ==> kept[i - 1] != #[trigger] kept[i]
        }),
{
    let ps = tagged(ls, ls.len());
    let os = arranged(ls);
    let kept = distinct(os, os.len());
    lemma_tagged_members(ls, ls.len());
    lemma_distinct(os, os.len());
    assert forall|l: LiteralV| #[trigger] kept.contains(l) <==> ls.contains(l)
        && !l.is_impossible() by {
        if kept.contains(l) {
            let i = choose|i: int| 0 <= i < kept.len() && kept[i] == l;
            let k = choose|k: int| 0 <= k < os.len() && (#[trigger] os[k]).0 == kept[i];
            lemma_in_order_members(ps, ps.len(), os[k]);
            assert(os.contains(os[k]));
            let j = choose|j: int| 0 <= j < ps.len() && #[trigger] ps[j] == os[k];
            assert(!ps[j].0.is_impossible() && ls.contains(ps[j].0));
        }
        if ls.contains(l) && !l.is_impossible() {
            let i = choose|i: int| 0 <= i < ls.len() && ls[i] == l;
            assert(!ls[i].is_impossible());
            let k = choose|k: int| 0 <= k < ps.len() && (#[trigger] ps[k]).0 == ls[i];
            lemma_in_order_members(ps, ps.len(), ps[k]);
            let j = choose|j: int| 0 <= j < os.len() && os[j] == ps[k];
            assert(os[j].0 == l);
            assert(kept.contains(os[j].0));
        }
    }
}

/// Whether each literal of a list comes before all that follow it.
pub open spec fn is_strictly_ordered(ls: Seq<LiteralV>) -> bool {
    forall|i: int, j: int|
        0 <= i < j < ls.len() ==> literal_order(#[trigger] ls[i], #[trigger] ls[j])
            == Comparison::Less
}

proof fn lemma_distinct_ordered(ps: Seq<TaggedV>, n: nat)
    requires
        is_ordered(ps),
        n <= ps.len(),
    ensures
        is_strictly_ordered(distinct(ps, n)),
        n > 0 ==> distinct(ps, n).len() > 0 && distinct(ps, n).last() == ps[n - 1].0,
    decreases n,
{
    if n > 0 {
        lemma_distinct_ordered(ps, (n - 1) as nat);
        let before = distinct(ps, (n - 1) as nat);
        let all = distinct(ps, n);
        let l = ps[n - 1].0;
        if n > 1 && before.last() != l {
            let last = before.last();
            assert(literal_order(ps[n - 2].0, ps[n - 1].0) != Comparison::Greater);
            law_literal_order_is_total(last, l);
            assert forall|i: int, j: int| 0 <= i < j < all.len() implies literal_order(
                #[trigger] all[i],
                #[trigger] all[j],
            ) == Comparison::Less by {
                if j < before.len() {
                    assert(all[i] == before[i] && all[j] == before[j]);
                } else if i < before.len() - 1 {
                    assert(literal_order(before[i], before[before.len() - 1]) == Comparison::Less);
                    law_literal_order_is_transitive(before[i], last, l);
                }
            }
        }
    }
}

proof fn lemma_same_literals(a: Seq<LiteralV>, b: Seq<LiteralV>)
    requires
        is_strictly_ordered(a),
        is_strictly_ordered(b),
        forall|l: LiteralV| #[trigger] a.contains(l) <==> b.contains(l),
    ensures
        a == b,
    decreases a.len(),
{
    if a.len() == 0 {
        if b.len() > 0 {
            assert(b.contains(b[0]));
            assert(a.contains(b[0]));
        }
        assert(a =~= b);
    } else {
        let x = a.last();
        assert(a[a.len() - 1] == x);
        assert(a.contains(x));
        assert(b.contains(x));
        let j = choose|j: int| 0 <= j < b.len() && b[j] == x;
        let y = b.last();
        assert(b[b.len() - 1] == y);
        assert(b.contains(y));
        assert(a.contains(y));
        let i = choose|i: int| 0 <= i < a.len() && a[i] == y;
        law_literal_order_is_total(x, y);
        if x != y {
            assert(literal_order(b[j], b[b.len() - 1]) == Comparison::Less);
            assert(literal_order(a[i], a[a.len() - 1]) == Comparison::Less);
            assert(false);
        }
        let c = a.drop_last();
        let d = b.drop_last();
        assert forall|l: LiteralV| #[trigger] c.contains(l) <==> d.contains(l) by {
            law_literal_order_is_total(l, x);
            if c.contains(l) {
                let k = choose|k: int| 0 <= k < c.len() && c[k] == l;
                assert(literal_order(a[k], a[a.len() - 1]) == Comparison::Less);
                assert(a.contains(a[k]));
                assert(b.contains(l));
                let m = choose|m: int| 0 <= m < b.len() && b[m] == l;
                assert(m < b.len() - 1);
                assert(d[m] == l);
            }
            if d.contains(l) {
                let k = choose|k: int| 0 <= k < d.len() && d[k] == l;
                assert(literal_order(b[k], b[b.len() - 1]) == Comparison::Less);
                assert(b.contains(b[k]));
                assert(a.contains(l));
                let m = choose|m: int| 0 <= m < a.len() && a[m] == l;
                assert(m < a.len() - 1);
                assert(c[m] == l);
            }
        }
        assert forall|p: int, q: int| 0 <= p < q < c.len() implies literal_order(
            #[trigger] c[p],
            #[trigger] c[q],
        ) == Comparison::Less by {
            assert(a[p] == c[p] && a[q] == c[q]);
        }
        assert forall|p: int, q: int| 0 <= p < q < d.len() implies literal_order(
            #[trigger] d[p],
            #[trigger] d[q],
        ) == Comparison::Less by {
            assert(b[p] == d[p] && b[q] == d[q]);
        }
        lemma_same_literals(c, d);
        assert(a =~= c.push(x));
        assert(b =~= d.push(y));
    }
}

/// No literal stands twice in a clause, before variables get new numbers: each one comes before all
/// that follow it.
pub proof fn law_literals_stand_once(ls: Seq<LiteralV>)
    ensures
        is_strictly_ordered(distinct(arranged(ls), arranged(ls).len())),
        distinct(arranged(ls), arranged(ls).len()).no_duplicates(),
{
    law_literals_are_in_order(ls);
    lemma_distinct_ordered(arranged(ls), arranged(ls).len());
    let kept = distinct(arranged(ls), arranged(ls).len());
    assert forall|i: int, j: int|
        0 <= i < kept.len() && 0 <= j < kept.len() && i != j implies kept[i] != kept[j] by {
        law_literal_order_is_total(kept[i], kept[j]);
        if i < j {
            assert(literal_order(kept[i], kept[j]) == Comparison::Less);
        } else {
            assert(literal_order(kept[j], kept[i]) == Comparison::Less);
        }
    }
}

/// A clause does not depend on the order of its literals, nor on how often each is given.
pub proof fn law_clauses_are_sets_of_literals(a: Seq<LiteralV>, b: Seq<LiteralV>)
    requires
        forall|l: LiteralV| #[trigger] a.contains(l) <==> b.contains(l),
    ensures
        clause_of(a) == clause_of(b),
{
    reveal(clause_of);
    let c = distinct(arranged(a), arranged(a).len());
    let d = distinct(arranged(b), arranged(b).len());
    law_literals_stand_once(a);
    law_literals_stand_once(b);
    law_clause_keeps_possible_literals(a);
    law_clause_keeps_possible_literals(b);
    assert forall|l: LiteralV| #[trigger] c.contains(l) <==> d.contains(l) by {
        assert(a.contains(l) <==> b.contains(l));
    }
    lemma_same_literals(c, d);
}

proof fn lemma_joined_members(a: Seq<LiteralV>, b: Seq<LiteralV>)
    ensures
        forall|l: LiteralV| #[trigger] (a + b).contains(l) <==> a.contains(l) || b.contains(l),
{
    assert forall|l: LiteralV| #[trigger] (a + b).contains(l) <==> a.contains(l) || b.contains(
        l,
    ) by {
        if a.contains(l) {
            let i = choose|i: int| 0 <= i < a.len() && a[i] == l;
            assert((a + b)[i] == l);
        }
        if b.contains(l) {
            let i = choose|i: int| 0 <= i < b.len() && b[i] == l;
            assert((a + b)[i + a.len()] == l);
        }
        if (a + b).contains(l) {
            let i = choose|i: int| 0 <= i < (a + b).len() && (a + b)[i] == l;
            if i < a.len() {
                assert(a[i] == l);
            } else {
                assert(b[i - a.len()] == l);
            }
        }
    }
}

/// Two lists of literals give the same clause whichever comes first, and however often.
pub proof fn law_clauses_of_joined_lists(a: Seq<LiteralV>, b: Seq<LiteralV>)
    ensures
        clause_of(a + b) == clause_of(b + a),
        clause_of(a + a + b) == clause_of(a + b),
{
    lemma_joined_members(a, b);
    lemma_joined_members(b, a);
    lemma_joined_members(a + a, b);
    lemma_joined_members(a, a);
    law_clauses_are_sets_of_literals(a + b, b + a);
    law_clauses_are_sets_of_literals(a + a + b, a + b);
}

} // verus!
