//! Literals: equalities and inequalities between terms.

use vstd::prelude::*;

use crate::table::{Duplicate, Key};
use crate::term::{
    atom_count, capped, capped_sum, chained, extended_kbo, first_of, has_atom, is_var,
    law_extended_kbo_is_total, law_extended_kbo_is_transitive, lemma_term_view, reversed,
    term_text, vars_of, Atom, Comparison, Term, TermV,
};
use crate::text::views;

verus! {

/// An equality of two terms, or an inequality. The larger term is on the left. A proposition is an
/// equality with "true".
#[derive(Debug)]
pub struct Literal {
    pub positive: bool,
    pub left: Term,
    pub right: Term,
}

/// The model of a literal.
#[verifier::ext_equal]
pub struct LiteralV {
    pub positive: bool,
    pub left: TermV,
    pub right: TermV,
}

impl View for Literal {
    type V = LiteralV;

    open spec fn view(&self) -> LiteralV {
        LiteralV { positive: self.positive, left: self.left@, right: self.right@ }
    }
}

impl Clone for Literal {
    fn clone(&self) -> (r: Self)
        ensures
            r@ == self@,
    {
        Literal { positive: self.positive, left: self.left.clone(), right: self.right.clone() }
    }
}

impl Duplicate for Literal {
    fn duplicate(&self) -> (r: Self) {
        self.clone()
    }
}

impl Key for Literal {
    fn same(&self, other: &Self) -> (r: bool) {
        self.positive == other.positive && self.left.same(&other.left) && self.right.same(
            &other.right,
        )
    }
}

/// The literal between two terms, with the larger one on the left, and whether they had to be
/// exchanged for that.
pub open spec fn oriented(positive: bool, left: TermV, right: TermV) -> (LiteralV, bool) {
    if extended_kbo(left, right) == Comparison::Less {
        (LiteralV { positive, left: right, right: left }, true)
    } else {
        (LiteralV { positive, left, right }, false)
    }
}

impl LiteralV {
    /// Whether the literal cannot hold.
    pub open spec fn is_impossible(self) -> bool {
        !self.positive && self.left == self.right
    }

    /// Whether the literal always holds.
    pub open spec fn is_tautology(self) -> bool {
        self.positive && self.left == self.right
    }

    /// The variables of the literal, in the order they are written.
    pub open spec fn vars(self) -> Seq<Atom> {
        vars_of(self.left) + vars_of(self.right)
    }

    /// Whether some atom of the literal is one that `f` looks for.
    pub open spec fn has(self, f: spec_fn(Atom) -> bool) -> bool {
        has_atom(self.left, f) || has_atom(self.right, f)
    }
}

/// The order in which the literals of a clause are written: negative ones first, and those with
/// larger terms first.
#[verifier::opaque]
pub open spec fn literal_order(a: LiteralV, b: LiteralV) -> Comparison {
    if a.positive != b.positive {
        if a.positive {
            Comparison::Greater
        } else {
            Comparison::Less
        }
    } else {
        first_of(
            reversed(extended_kbo(a.left, b.left)),
            reversed(extended_kbo(a.right, b.right)),
        )
    }
}

/// The order of literals is total: only the same literals are equal in it.
pub proof fn law_literal_order_is_total(a: LiteralV, b: LiteralV)
    ensures
        literal_order(a, b) == Comparison::Equal <==> a == b,
        literal_order(b, a) == reversed(literal_order(a, b)),
{
    reveal(literal_order);
    law_extended_kbo_is_total(a.left, b.left);
    law_extended_kbo_is_total(a.right, b.right);
}

/// The order of literals is transitive.
pub proof fn law_literal_order_is_transitive(a: LiteralV, b: LiteralV, c: LiteralV)
    ensures
        chained(literal_order(a, b), literal_order(b, c), literal_order(a, c)),
{
    reveal(literal_order);
    law_extended_kbo_is_transitive(a.left, b.left, c.left);
    law_extended_kbo_is_transitive(a.right, b.right, c.right);
}

/// The order of literals by the size of their terms.
pub open spec fn literal_kbo(a: LiteralV, b: LiteralV) -> Comparison {
    first_of(extended_kbo(a.left, b.left), extended_kbo(a.right, b.right))
}

/// The text of a literal.
pub open spec fn literal_text(l: LiteralV) -> Seq<char> {
    if l.positive {
        if l.right.head is True {
            term_text(l.left)
        } else {
            term_text(l.left) + " = "@ + term_text(l.right)
        }
    } else if l.right.head is True {
        "not "@ + term_text(l.left)
    } else {
        term_text(l.left) + " != "@ + term_text(l.right)
    }
}

/// One more than the largest number of a variable in a list, from the first `n`.
pub open spec fn quantifiers(vs: Seq<Atom>, n: nat) -> u16
    decreases n,
{
    if n == 0 || n > vs.len() {
        0
    } else {
        let before = quantifiers(vs, (n - 1) as nat);
        match vs[n - 1] {
            Atom::Variable(i) => if i >= before {
                if i == u16::MAX {
                    u16::MAX
                } else {
                    (i + 1) as u16
                }
            } else {
                before
            },
            _ => before,
        }
    }
}

/// A subterm, with the way to it from the top: which argument to take, one after the other.
pub type PlaceV = (Seq<usize>, TermV);

/// The subterms that can be rewritten, arguments before what they are arguments of. There are none
/// in "true".
pub open spec fn subterms(t: TermV, prefix: Seq<usize>) -> Seq<PlaceV>
    decreases t, 0nat,
{
    if t.head is True {
        Seq::empty()
    } else {
        subterms_all(t.args, prefix, t.args.len()).push((prefix, t))
    }
}

/// The subterms of the first `n` arguments.
pub open spec fn subterms_all(ts: Seq<TermV>, prefix: Seq<usize>, n: nat) -> Seq<PlaceV>
    decreases ts, n,
{
    if n == 0 || n > ts.len() {
        Seq::empty()
    } else {
        subterms_all(ts, prefix, (n - 1) as nat) + subterms(
            ts[n - 1],
            prefix.push((n - 1) as usize),
        )
    }
}

/// A term with another one at the end of a path. Where the path leads nowhere, nothing changes.
pub open spec fn replaced_at(t: TermV, path: Seq<usize>, u: TermV) -> TermV
    decreases path.len(),
{
    if path.len() == 0 {
        u
    } else if path[0] >= t.args.len() {
        t
    } else {
        TermV {
            args: t.args.update(
                path[0] as int,
                replaced_at(t.args[path[0] as int], path.skip(1), u),
            ),
            ..t
        }
    }
}

/// A literal with another term at the end of a path in one of its sides.
pub open spec fn rewritten(l: LiteralV, left: bool, path: Seq<usize>, u: TermV) -> (LiteralV, bool) {
    if left {
        oriented(l.positive, replaced_at(l.left, path, u), l.right)
    } else {
        oriented(l.positive, l.left, replaced_at(l.right, path, u))
    }
}

/// Which way a subterm stands in a list of places.
pub open spec fn places_view(s: Seq<(Vec<usize>, Term)>) -> Seq<PlaceV> {
    Seq::new(s.len(), |i: int| (s[i].0@, s[i].1@))
}

pub(crate) fn copy_path(p: &Vec<usize>) -> (r: Vec<usize>)
    ensures
        r@ == p@,
{
    let mut out: Vec<usize> = Vec::new();
    let mut i: usize = 0;
    while i < p.len()
        invariant
            i <= p.len(),
            out@ == p@.take(i as int),
        decreases p.len() - i,
    {
        out.push(p[i]);
        assert(out@ =~= p@.take(i + 1));
        i = i + 1;
    }
    assert(p@.take(i as int) =~= p@);
    out
}

fn push_all_subterms(v: &Vec<Term>, prefix: &Vec<usize>, out: &mut Vec<(Vec<usize>, Term)>)
    ensures
        places_view(final(out)@) == places_view(old(out)@) + subterms_all(
            views(v@),
            prefix@,
            v@.len(),
        ),
    decreases v,
{
    let ghost tv = views(v@);
    let ghost start = places_view(old(out)@);
    assert(start + Seq::<PlaceV>::empty() =~= start);
    let mut i: usize = 0;
    while i < v.len()
        invariant
            i <= v.len(),
            tv == views(v@),
            start == places_view(old(out)@),
            places_view(out@) == start + subterms_all(tv, prefix@, i as nat),
        decreases v.len() - i,
    {
        assert(decreases_to!(v => v@[i as int]));
        assert(tv[i as int] == v@[i as int]@);
        let mut longer = copy_path(prefix);
        longer.push(i);
        push_subterms(&v[i], &longer, out);
        assert(places_view(out@) =~= start + subterms_all(tv, prefix@, (i + 1) as nat));
        i = i + 1;
    }
}

fn push_subterms(t: &Term, prefix: &Vec<usize>, out: &mut Vec<(Vec<usize>, Term)>)
    ensures
        places_view(final(out)@) == places_view(old(out)@) + subterms(t@, prefix@),
    decreases t,
{
    broadcast use lemma_term_view;
    let ghost start = places_view(old(out)@);
    if t.is_true() {
        assert(start + Seq::<PlaceV>::empty() =~= start);
        return;
    }
    push_all_subterms(&t.args, prefix, out);
    let ghost middle = out@;
    out.push((copy_path(prefix), t.clone()));
    assert(places_view(out@) =~= places_view(middle).push((prefix@, t@)));
    assert(places_view(out@) =~= start + subterms(t@, prefix@));
}

/// The subterms that can be rewritten, each with the way to it.
pub fn rewritable_subterms(t: &Term) -> (r: Vec<(Vec<usize>, Term)>)
    ensures
        places_view(r@) == subterms(t@, Seq::empty()),
{
    let mut out: Vec<(Vec<usize>, Term)> = Vec::new();
    let prefix: Vec<usize> = Vec::new();
    assert(places_view(out@) =~= Seq::<PlaceV>::empty());
    assert(prefix@ =~= Seq::<usize>::empty());
    push_subterms(t, &prefix, &mut out);
    assert(Seq::<PlaceV>::empty() + subterms(t@, Seq::empty()) =~= subterms(t@, Seq::empty()));
    out
}

/// Puts another term at the end of a path.
pub fn replace_at(t: &Term, path: &Vec<usize>, from: usize, u: &Term) -> (r: Term)
    requires
        from <= path.len(),
    ensures
        r@ == replaced_at(t@, path@.skip(from as int), u@),
    decreases path.len() - from,
{
    broadcast use lemma_term_view;
    let ghost p = path@.skip(from as int);
    if from == path.len() {
        return u.clone();
    }
    let k = path[from];
    assert(p[0] == k);
    if k >= t.args.len() {
        return t.clone();
    }
    assert(p.skip(1) =~= path@.skip(from + 1));
    let inner = replace_at(&t.args[k], path, from + 1, u);
    let mut args = crate::table::duplicate_all(&t.args);
    let ghost before = args@;
    args.set(k, inner);
    assert(views(args@) =~= views(before).update(k as int, inner@));
    Term { term_type: t.term_type, head_type: t.head_type, head: t.head, args }
}

impl Literal {
    /// The literal between two terms, with the larger one on the left, and whether they had to be
    /// exchanged for that.
    pub fn new_with_flip(positive: bool, left: Term, right: Term) -> (r: (Literal, bool))
        ensures
            (r.0@, r.1) == oriented(positive, left@, right@),
    {
        if left.extended_kbo(&right) == Comparison::Less {
            (Literal { positive, left: right, right: left }, true)
        } else {
            (Literal { positive, left, right }, false)
        }
    }

    /// An equality.
    pub fn equals(left: Term, right: Term) -> (r: Literal)
        ensures
            r@ == oriented(true, left@, right@).0,
    {
        Literal::new_with_flip(true, left, right).0
    }

    /// An inequality.
    pub fn not_equals(left: Term, right: Term) -> (r: Literal)
        ensures
            r@ == oriented(false, left@, right@).0,
    {
        Literal::new_with_flip(false, left, right).0
    }

    /// Whether the literal cannot hold.
    pub fn is_impossible(&self) -> (r: bool)
        ensures
            r == self@.is_impossible(),
    {
        !self.positive && self.left.same(&self.right)
    }

    /// Whether the literal always holds.
    pub fn is_tautology(&self) -> (r: bool)
        ensures
            r == self@.is_tautology(),
    {
        self.positive && self.left.same(&self.right)
    }

    /// One more than the largest number of a variable.
    pub fn num_quantifiers(&self) -> (r: u16)
        ensures
            r == quantifiers(self@.vars(), self@.vars().len()),
    {
        let mut vs: Vec<Atom> = Vec::new();
        crate::term::collect_vars(&self.left, &mut vs);
        crate::term::collect_vars(&self.right, &mut vs);
        assert(vs@ =~= self@.vars());
        let mut answer: u16 = 0;
        let mut i: usize = 0;
        while i < vs.len()
            invariant
                i <= vs.len(),
                answer == quantifiers(vs@, i as nat),
            decreases vs.len() - i,
        {
            if let Atom::Variable(k) = vs[i] {
                if k >= answer {
                    answer = if k == u16::MAX {
                        u16::MAX
                    } else {
                        k + 1
                    };
                }
            }
            i = i + 1;
        }
        answer
    }

    /// The number of atoms, not counting "true".
    pub fn atom_count(&self) -> (r: u32)
        ensures
            r == capped(atom_count(self@.left), atom_count(self@.right)),
    {
        capped_sum(self.left.atom_count(), self.right.atom_count())
    }

    /// Whether any variable occurs.
    pub fn has_any_variable(&self) -> (r: bool)
        ensures
            r == self@.has(|a: Atom| is_var(a)),
    {
        self.left.has_any_variable() || self.right.has_any_variable()
    }

    /// Whether any local constant occurs.
    pub fn has_local_constant(&self) -> (r: bool)
        ensures
            r == self@.has(|a: Atom| a is LocalConstant),
    {
        self.left.has_local_constant() || self.right.has_local_constant()
    }

    /// Whether any made-up constant occurs.
    pub fn has_synthetic(&self) -> (r: bool)
        ensures
            r == self@.has(|a: Atom| a is Synthetic),
    {
        self.left.has_synthetic() || self.right.has_synthetic()
    }

    /// The order in which literals are written.
    pub fn order(&self, other: &Literal) -> (r: Comparison)
        ensures
            r == literal_order(self@, other@),
    {
        reveal(literal_order);
        if self.positive != other.positive {
            return if self.positive {
                Comparison::Greater
            } else {
                Comparison::Less
            };
        }
        match self.left.extended_kbo(&other.left) {
            Comparison::Less => Comparison::Greater,
            Comparison::Greater => Comparison::Less,
            Comparison::Equal => match self.right.extended_kbo(&other.right) {
                Comparison::Less => Comparison::Greater,
                Comparison::Greater => Comparison::Less,
                Comparison::Equal => Comparison::Equal,
            },
        }
    }

    /// The order of literals by the size of their terms.
    pub fn extended_kbo(&self, other: &Literal) -> (r: Comparison)
        ensures
            r == literal_kbo(self@, other@),
    {
        let c = self.left.extended_kbo(&other.left);
        if c != Comparison::Equal {
            return c;
        }
        self.right.extended_kbo(&other.right)
    }

    /// Puts another term at the end of a path in one side.
    pub fn replace_at_path(&self, left: bool, path: &Vec<usize>, u: &Term) -> (r: (Literal, bool))
        ensures
            (r.0@, r.1) == rewritten(self@, left, path@, u@),
    {
        assert(path@.skip(0) =~= path@);
        if left {
            Literal::new_with_flip(
                self.positive,
                replace_at(&self.left, path, 0, u),
                self.right.clone(),
            )
        } else {
            Literal::new_with_flip(
                self.positive,
                self.left.clone(),
                replace_at(&self.right, path, 0, u),
            )
        }
    }

    /// The text of the literal.
    pub fn to_text(&self) -> (r: String)
        ensures
            r@ == literal_text(self@),
    {
        let left = self.left.to_text();
        if self.right.is_true() {
            if self.positive {
                left
            } else {
                let mut out = "not ".to_owned();
                out.append(left.as_str());
                out
            }
        } else {
            let mut out = left;
            out.append(
                if self.positive {
                    " = "
                } else {
                    " != "
                },
            );
            out.append(self.right.to_text().as_str());
            out
        }
    }
}

} // verus!
