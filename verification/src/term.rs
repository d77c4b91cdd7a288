//! Terms of the low-level prover: simply typed, without polymorphism.

use vstd::prelude::*;

use crate::acorn_type::AtomId;
use crate::table::{Duplicate, Key};
use crate::text::{decimal, decimal_text, views};

verus! {

/// The number of a type.
pub type TypeId = u16;

/// The type of things that have no type.
pub const EMPTY: TypeId = 0;

/// The type of propositions.
pub const BOOL: TypeId = 1;

/// What a term is made of.
#[derive(Clone, Copy, Debug, PartialEq, Eq, Structural)]
pub enum Atom {
    /// The proposition that always holds.
    True,
    /// A constant that is known everywhere.
    GlobalConstant(AtomId),
    /// A constant that is only known in this proof.
    LocalConstant(AtomId),
    /// One instance of a polymorphic constant.
    Monomorph(AtomId),
    /// A constant that was made up during normalization.
    Synthetic(AtomId),
    /// A variable.
    Variable(AtomId),
    /// A variable of the other clause, while two clauses are looked at together.
    Partner(AtomId),
}

impl View for Atom {
    type V = Atom;

    open spec fn view(&self) -> Atom {
        *self
    }
}

impl Duplicate for Atom {
    fn duplicate(&self) -> (r: Self) {
        *self
    }
}

impl Key for Atom {
    fn same(&self, other: &Self) -> (r: bool) {
        *self == *other
    }
}

/// A term: an atom, perhaps applied to arguments.
#[derive(Debug)]
pub struct Term {
    /// The type of the term as a whole.
    pub term_type: TypeId,
    /// The type of the head alone.
    pub head_type: TypeId,
    pub head: Atom,
    pub args: Vec<Term>,
}

/// The model of a term.
#[verifier::ext_equal]
pub struct TermV {
    pub term_type: TypeId,
    pub head_type: TypeId,
    pub head: Atom,
    pub args: Seq<TermV>,
}

/// The model of a term, made from its parts.
pub open spec fn term_view(t: Term) -> TermV
    decreases t,
{
    TermV {
        term_type: t.term_type,
        head_type: t.head_type,
        head: t.head,
        args: terms_view(t.args@),
    }
}

/// The models of a list of terms.
pub open spec fn terms_view(s: Seq<Term>) -> Seq<TermV>
    decreases s,
{
    Seq::new(
        s.len(),
        |i: int|
            if 0 <= i < s.len() {
                term_view(s[i])
            } else {
                arbitrary()
            },
    )
}

impl View for Term {
    type V = TermV;

    closed spec fn view(&self) -> TermV {
        term_view(*self)
    }
}

/// The model of a term holds the views of its parts.
pub broadcast proof fn lemma_term_view(t: Term)
    ensures
        (#[trigger] t@).term_type == t.term_type,
        t@.head_type == t.head_type,
        t@.head == t.head,
        t@.args == views(t.args@),
{
    assert(terms_view(t.args@) =~= views(t.args@));
}

/// Whether the numbers of arguments are machine numbers.
pub open spec fn small_term(t: TermV) -> bool
    decreases t,
{
    t.args.len() <= usize::MAX && small_terms(t.args)
}

/// Whether the numbers of arguments in some terms are machine numbers.
pub open spec fn small_terms(ts: Seq<TermV>) -> bool
    decreases ts,
{
    forall|i: int| 0 <= i < ts.len() ==> small_term(#[trigger] ts[i])
}

/// The numbers of arguments in a term are machine numbers.
pub proof fn lemma_small_term(t: Term)
    ensures
        small_term(t@),
    decreases t,
{
    broadcast use lemma_term_view;

    assert(t.args.len() == t.args@.len());
    assert forall|i: int| 0 <= i < t@.args.len() implies small_term(#[trigger] t@.args[i]) by {
        assert(decreases_to!(t.args => t.args@[i]));
        lemma_small_term(t.args@[i]);
    }
}

/// An atom on its own.
pub open spec fn atomic(term_type: TypeId, head: Atom) -> TermV {
    TermV { term_type, head_type: term_type, head, args: Seq::empty() }
}

/// The term for the proposition that always holds.
pub open spec fn true_term() -> TermV {
    atomic(BOOL, Atom::True)
}

/// Whether an atom is a variable.
pub open spec fn is_var(a: Atom) -> bool {
    a is Variable || a is Partner
}

/// The variables of a term, in the order they are written, each as often as it occurs.
pub open spec fn vars_of(t: TermV) -> Seq<Atom>
    decreases t, 0nat,
{
    let rest = vars_of_all(t.args, t.args.len());
    if is_var(t.head) {
        seq![t.head] + rest
    } else {
        rest
    }
}

/// The variables of the first `n` terms of a list.
pub open spec fn vars_of_all(ts: Seq<TermV>, n: nat) -> Seq<Atom>
    decreases ts, n,
{
    if n == 0 || n > ts.len() {
        Seq::empty()
    } else {
        vars_of_all(ts, (n - 1) as nat) + vars_of(ts[n - 1])
    }
}

/// A sum that stays at the largest number.
pub open spec fn capped(a: u32, b: u32) -> u32 {
    if a + b > u32::MAX {
        u32::MAX
    } else {
        (a + b) as u32
    }
}

pub(crate) fn capped_sum(a: u32, b: u32) -> (r: u32)
    ensures
        r == capped(a, b),
{
    a.saturating_add(b)
}

/// The number of atoms in a term, not counting "true".
pub open spec fn atom_count(t: TermV) -> u32
    decreases t, 0nat,
{
    capped(
        if t.head is True {
            0
        } else {
            1
        },
        atom_count_all(t.args, t.args.len()),
    )
}

/// The number of atoms in the first `n` terms.
pub open spec fn atom_count_all(ts: Seq<TermV>, n: nat) -> u32
    decreases ts, n,
{
    if n == 0 || n > ts.len() {
        0
    } else {
        capped(atom_count_all(ts, (n - 1) as nat), atom_count(ts[n - 1]))
    }
}

/// How often an atom occurs in a term.
pub open spec fn occurrences(t: TermV, a: Atom) -> u32
    decreases t, 0nat,
{
    capped(
        if t.head == a {
            1
        } else {
            0
        },
        occurrences_all(t.args, a, t.args.len()),
    )
}

/// How often an atom occurs in the first `n` terms.
pub open spec fn occurrences_all(ts: Seq<TermV>, a: Atom, n: nat) -> u32
    decreases ts, n,
{
    if n == 0 || n > ts.len() {
        0
    } else {
        capped(occurrences_all(ts, a, (n - 1) as nat), occurrences(ts[n - 1], a))
    }
}

/// Whether some atom of a term is one that `f` looks for.
pub open spec fn has_atom(t: TermV, f: spec_fn(Atom) -> bool) -> bool
    decreases t, 0nat,
{
    f(t.head) || has_atom_all(t.args, f, t.args.len())
}

/// Whether some atom of the first `n` terms is one that `f` looks for.
pub open spec fn has_atom_all(ts: Seq<TermV>, f: spec_fn(Atom) -> bool, n: nat) -> bool
    decreases ts, n,
{
    n > 0 && n <= ts.len() && (has_atom_all(ts, f, (n - 1) as nat) || has_atom(ts[n - 1], f))
}

/// The weights of an atom: whether it is a constant, and a number that tells constants apart.
pub open spec fn atom_weights(a: Atom) -> (u32, u32) {
    match a {
        Atom::GlobalConstant(i) => (1, (4 * i) as u32),
        Atom::LocalConstant(i) => (1, (1 + 4 * i) as u32),
        Atom::Monomorph(i) => (1, (2 + 4 * i) as u32),
        Atom::Synthetic(i) => (1, (3 + 4 * i) as u32),
        _ => (0, 0),
    }
}

/// The weights of a term: those of its atoms, added up.
pub open spec fn weights(t: TermV) -> (u32, u32)
    decreases t, 0nat,
{
    let h = atom_weights(t.head);
    let a = weights_all(t.args, t.args.len());
    (capped(h.0, a.0), capped(h.1, a.1))
}

/// The weights of the first `n` terms.
pub open spec fn weights_all(ts: Seq<TermV>, n: nat) -> (u32, u32)
    decreases ts, n,
{
    if n == 0 || n > ts.len() {
        (0, 0)
    } else {
        let a = weights_all(ts, (n - 1) as nat);
        let b = weights(ts[n - 1]);
        (capped(a.0, b.0), capped(a.1, b.1))
    }
}

/// What came of comparing two things.
#[derive(Clone, Copy, Debug, PartialEq, Eq, Structural)]
pub enum Comparison {
    Less,
    /// The same, or where no order is given: neither comes first.
    Equal,
    Greater,
}

/// Whether a term is heavier than another.
pub open spec fn heavier(a: TermV, b: TermV) -> bool {
    weights(a).0 > weights(b).0 || weights(a).0 == weights(b).0 && weights(a).1 > weights(b).1
}

/// Whether every variable of `b` occurs in `a` at least as often.
pub open spec fn covers(a: TermV, b: TermV) -> bool {
    forall|i: int|
        0 <= i < vars_of(b).len() ==> occurrences(b, #[trigger] vars_of(b)[i]) <= occurrences(
            a,
            vars_of(b)[i],
        )
}

/// The Knuth-Bendix order of two terms. It is partial: a term comes after another where it is
/// heavier and has all the variables of the other at least as often.
pub open spec fn kbo(a: TermV, b: TermV) -> Comparison {
    if heavier(a, b) && covers(a, b) {
        Comparison::Greater
    } else if heavier(b, a) && covers(b, a) {
        Comparison::Less
    } else {
        Comparison::Equal
    }
}

/// Which of two numbers is larger.
pub open spec fn compared(a: int, b: int) -> Comparison {
    if a < b {
        Comparison::Less
    } else if a > b {
        Comparison::Greater
    } else {
        Comparison::Equal
    }
}

/// One comparison, and another where the first finds no difference.
pub open spec fn first_of(c: Comparison, d: Comparison) -> Comparison {
    if c == Comparison::Equal {
        d
    } else {
        c
    }
}

/// A number for an atom.
pub open spec fn atom_code(a: Atom) -> u32 {
    match a {
        Atom::True => 0,
        Atom::GlobalConstant(i) => (65536 + i) as u32,
        Atom::LocalConstant(i) => (131072 + i) as u32,
        Atom::Monomorph(i) => (196608 + i) as u32,
        Atom::Synthetic(i) => (262144 + i) as u32,
        Atom::Variable(i) => (327680 + i) as u32,
        Atom::Partner(i) => (393216 + i) as u32,
    }
}

/// The order of terms by how they are built.
pub open spec fn built_order(a: TermV, b: TermV) -> Comparison
    decreases a, 0nat,
{
    first_of(
        compared(atom_code(a.head) as int, atom_code(b.head) as int),
        first_of(
            compared(a.term_type as int, b.term_type as int),
            first_of(
                compared(a.head_type as int, b.head_type as int),
                first_of(
                    compared(a.args.len() as int, b.args.len() as int),
                    built_order_all(a.args, b.args, a.args.len()),
                ),
            ),
        ),
    )
}

/// The order of the first `n` terms of two lists: that of the first that differ.
pub open spec fn built_order_all(ts: Seq<TermV>, us: Seq<TermV>, n: nat) -> Comparison
    decreases ts, n,
{
    if n == 0 || n > ts.len() {
        Comparison::Equal
    } else {
        first_of(
            built_order_all(ts, us, (n - 1) as nat),
            built_order(ts[n - 1], us[n - 1]),
        )
    }
}

/// The Knuth-Bendix order, made total: no two terms but the same are equal in it.
pub open spec fn extended_kbo(a: TermV, b: TermV) -> Comparison {
    first_of(
        compared(weights(a).0 as int, weights(b).0 as int),
        first_of(compared(weights(a).1 as int, weights(b).1 as int), built_order(a, b)),
    )
}

/// Only the same terms are equal in the order of how they are built.
pub proof fn lemma_built_order_equal(a: TermV, b: TermV)
    ensures
        built_order(a, b) == Comparison::Equal <==> a == b,
    decreases a, 0nat,
{
    if a.args.len() == b.args.len() {
        lemma_built_order_all_equal(a.args, b.args, a.args.len());
    }
    if built_order(a, b) == Comparison::Equal {
        assert(a.head == b.head);
        assert(a.args =~= b.args);
    }
    if a == b {
        assert(built_order_all(a.args, b.args, a.args.len()) == Comparison::Equal);
    }
}

proof fn lemma_built_order_all_equal(ts: Seq<TermV>, us: Seq<TermV>, n: nat)
    requires
        ts.len() == us.len(),
        n <= ts.len(),
    ensures
        built_order_all(ts, us, n) == Comparison::Equal <==> forall|i: int|
            0 <= i < n ==> ts[i] == us[i],
    decreases ts, n,
{
    if n > 0 {
        lemma_built_order_all_equal(ts, us, (n - 1) as nat);
        lemma_built_order_equal(ts[n - 1], us[n - 1]);
    }
}

/// The opposite outcome of a comparison.
pub open spec fn reversed(c: Comparison) -> Comparison {
    match c {
        Comparison::Less => Comparison::Greater,
        Comparison::Equal => Comparison::Equal,
        Comparison::Greater => Comparison::Less,
    }
}

proof fn lemma_built_order_reversed(a: TermV, b: TermV)
    ensures
        built_order(b, a) == reversed(built_order(a, b)),
    decreases a, 0nat,
{
    if a.args.len() == b.args.len() {
        lemma_built_order_all_reversed(a.args, b.args, a.args.len());
    }
}

proof fn lemma_built_order_all_reversed(ts: Seq<TermV>, us: Seq<TermV>, n: nat)
    requires
        ts.len() == us.len(),
        n <= ts.len(),
    ensures
        built_order_all(us, ts, n) == reversed(built_order_all(ts, us, n)),
    decreases ts, n,
{
    if n > 0 {
        lemma_built_order_all_reversed(ts, us, (n - 1) as nat);
        lemma_built_order_reversed(ts[n - 1], us[n - 1]);
    }
}

/// The extended order is total: terms are equal in it just where they are the same, and what comes
/// first does not depend on which of two terms is named first.
pub proof fn law_extended_kbo_is_total(a: TermV, b: TermV)
    ensures
        extended_kbo(a, b) == Comparison::Equal <==> a == b,
        extended_kbo(b, a) == reversed(extended_kbo(a, b)),
{
    lemma_built_order_equal(a, b);
    lemma_built_order_reversed(a, b);
}

/// Whether three comparisons, of a first thing with a second, of the second with a third, and of
/// the first with the third, go together.
pub open spec fn chained(ab: Comparison, bc: Comparison, ac: Comparison) -> bool {
    &&& ab == Comparison::Equal ==> ac == bc
    &&& bc == Comparison::Equal ==> ac == ab
    &&& ab == bc ==> ac == ab
}

proof fn lemma_built_order_chained(a: TermV, b: TermV, c: TermV)
    ensures
        chained(built_order(a, b), built_order(b, c), built_order(a, c)),
    decreases a, 0nat,
{
    if a.args.len() == b.args.len() && b.args.len() == c.args.len() {
        lemma_built_order_all_chained(a.args, b.args, c.args, a.args.len());
    }
}

proof fn lemma_built_order_all_chained(ts: Seq<TermV>, us: Seq<TermV>, vs: Seq<TermV>, n: nat)
    requires
        ts.len() == us.len() == vs.len(),
        n <= ts.len(),
    ensures
        chained(
            built_order_all(ts, us, n),
            built_order_all(us, vs, n),
            built_order_all(ts, vs, n),
        ),
    decreases ts, n,
{
    if n > 0 {
        lemma_built_order_all_chained(ts, us, vs, (n - 1) as nat);
        lemma_built_order_chained(ts[n - 1], us[n - 1], vs[n - 1]);
    }
}

/// The extended order is transitive.
pub proof fn law_extended_kbo_is_transitive(a: TermV, b: TermV, c: TermV)
    ensures
        chained(extended_kbo(a, b), extended_kbo(b, c), extended_kbo(a, c)),
{
    lemma_built_order_chained(a, b, c);
}

/// The extended order agrees with the Knuth-Bendix order wherever that one decides.
pub proof fn law_extended_kbo_extends_kbo(a: TermV, b: TermV)
    ensures
        kbo(a, b) != Comparison::Equal ==> extended_kbo(a, b) == kbo(a, b),
{
}

/// The text of an atom.
pub open spec fn atom_text(a: Atom) -> Seq<char> {
    match a {
        Atom::True => "true"@,
        Atom::GlobalConstant(i) => "g"@ + decimal_text(i as nat),
        Atom::LocalConstant(i) => "c"@ + decimal_text(i as nat),
        Atom::Monomorph(i) => "m"@ + decimal_text(i as nat),
        Atom::Synthetic(i) => "s"@ + decimal_text(i as nat),
        Atom::Variable(i) => "x"@ + decimal_text(i as nat),
        Atom::Partner(i) => "y"@ + decimal_text(i as nat),
    }
}

/// The text of a term.
pub open spec fn term_text(t: TermV) -> Seq<char>
    decreases t, 0nat,
{
    if t.args.len() == 0 {
        atom_text(t.head)
    } else {
        atom_text(t.head) + "("@ + terms_text(t.args, t.args.len()) + ")"@
    }
}

/// The texts of the first `n` terms, with commas.
pub open spec fn terms_text(ts: Seq<TermV>, n: nat) -> Seq<char>
    decreases ts, n,
{
    if n == 0 || n > ts.len() {
        Seq::empty()
    } else if n == 1 {
        term_text(ts[0])
    } else {
        terms_text(ts, (n - 1) as nat) + ", "@ + term_text(ts[n - 1])
    }
}

fn copy_terms(v: &Vec<Term>) -> (r: Vec<Term>)
    ensures
        views(r@) == views(v@),
    decreases v,
{
    let mut out: Vec<Term> = Vec::new();
    let mut i: usize = 0;
    while i < v.len()
        invariant
            i <= v.len(),
            out.len() == i,
            forall|k: int| 0 <= k < i ==> (#[trigger] out@[k])@ == v@[k]@,
        decreases v.len() - i,
    {
        assert(decreases_to!(v => v@[i as int]));
        out.push(copy_term(&v[i]));
        i = i + 1;
    }
    assert(views(out@) =~= views(v@));
    out
}

fn copy_term(t: &Term) -> (r: Term)
    ensures
        r@ == t@,
    decreases t,
{
    broadcast use lemma_term_view;
    Term {
        term_type: t.term_type,
        head_type: t.head_type,
        head: t.head,
        args: copy_terms(&t.args),
    }
}

fn same_terms(a: &Vec<Term>, b: &Vec<Term>) -> (r: bool)
    ensures
        r == (views(a@) == views(b@)),
    decreases a,
{
    if a.len() != b.len() {
        assert(views(a@).len() != views(b@).len());
        return false;
    }
    let mut i: usize = 0;
    while i < a.len()
        invariant
            i <= a.len() == b.len(),
            forall|k: int| 0 <= k < i ==> (#[trigger] a@[k])@ == b@[k]@,
        decreases a.len() - i,
    {
        assert(decreases_to!(a => a@[i as int]));
        if !same_term(&a[i], &b[i]) {
            assert(views(a@)[i as int] != views(b@)[i as int]);
            return false;
        }
        i = i + 1;
    }
    assert(views(a@) =~= views(b@));
    true
}

fn same_term(a: &Term, b: &Term) -> (r: bool)
    ensures
        r == (a@ == b@),
    decreases a,
{
    broadcast use lemma_term_view;
    a.term_type == b.term_type && a.head_type == b.head_type && a.head == b.head && same_terms(
        &a.args,
        &b.args,
    )
}

impl Clone for Term {
    fn clone(&self) -> (r: Self)
        ensures
            r@ == self@,
    {
        copy_term(self)
    }
}

impl Duplicate for Term {
    fn duplicate(&self) -> (r: Self) {
        copy_term(self)
    }
}

impl Key for Term {
    fn same(&self, other: &Self) -> (r: bool) {
        same_term(self, other)
    }
}

/// A check on atoms.
pub trait AtomCheck {
    /// What is looked for.
    spec fn wanted(&self) -> spec_fn(Atom) -> bool;

    /// Whether this is what is looked for.
    fn check(&self, a: Atom) -> (r: bool)
        ensures
            r == (self.wanted())(a),
    ;
}

/// Looks for variables.
pub struct AnyVariable;

impl AtomCheck for AnyVariable {
    open spec fn wanted(&self) -> spec_fn(Atom) -> bool {
        |a: Atom| is_var(a)
    }

    fn check(&self, a: Atom) -> (r: bool) {
        is_variable(a)
    }
}

/// Just one atom.
pub open spec fn only(v: Atom) -> spec_fn(Atom) -> bool {
    |a: Atom| a == v
}

/// Looks for one atom.
pub struct Exactly(pub Atom);

impl AtomCheck for Exactly {
    open spec fn wanted(&self) -> spec_fn(Atom) -> bool {
        only(self.0)
    }

    fn check(&self, a: Atom) -> (r: bool) {
        a == self.0
    }
}

/// Looks for local constants.
pub struct AnyLocal;

impl AtomCheck for AnyLocal {
    open spec fn wanted(&self) -> spec_fn(Atom) -> bool {
        |a: Atom| a is LocalConstant
    }

    fn check(&self, a: Atom) -> (r: bool) {
        match a {
            Atom::LocalConstant(_) => true,
            _ => false,
        }
    }
}

/// Looks for made-up constants.
pub struct AnySynthetic;

impl AtomCheck for AnySynthetic {
    open spec fn wanted(&self) -> spec_fn(Atom) -> bool {
        |a: Atom| a is Synthetic
    }

    fn check(&self, a: Atom) -> (r: bool) {
        match a {
            Atom::Synthetic(_) => true,
            _ => false,
        }
    }
}

/// Whether an atom is a variable.
pub fn is_variable(a: Atom) -> (r: bool)
    ensures
        r == is_var(a),
{
    match a {
        Atom::Variable(_) => true,
        Atom::Partner(_) => true,
        _ => false,
    }
}

fn check_all<C: AtomCheck>(v: &Vec<Term>, c: &C) -> (r: bool)
    ensures
        r == has_atom_all(views(v@), c.wanted(), v@.len()),
    decreases v,
{
    let ghost tv = views(v@);
    let mut i: usize = 0;
    let mut found = false;
    while i < v.len()
        invariant
            i <= v.len(),
            tv == views(v@),
            found == has_atom_all(tv, c.wanted(), i as nat),
        decreases v.len() - i,
    {
        assert(decreases_to!(v => v@[i as int]));
        assert(tv[i as int] == v@[i as int]@);
        found = found || check_term(&v[i], c);
        i = i + 1;
    }
    found
}

/// Whether some atom of a term is one that is looked for.
pub fn check_term<C: AtomCheck>(t: &Term, c: &C) -> (r: bool)
    ensures
        r == has_atom(t@, c.wanted()),
    decreases t,
{
    broadcast use lemma_term_view;
    c.check(t.head) || check_all(&t.args, c)
}

fn collect_all(v: &Vec<Term>, out: &mut Vec<Atom>)
    ensures
        final(out)@ == old(out)@ + vars_of_all(views(v@), v@.len()),
    decreases v,
{
    let ghost tv = views(v@);
    let mut i: usize = 0;
    assert(out@ =~= out@ + Seq::<Atom>::empty());
    while i < v.len()
        invariant
            i <= v.len(),
            tv == views(v@),
            out@ == old(out)@ + vars_of_all(tv, i as nat),
        decreases v.len() - i,
    {
        assert(decreases_to!(v => v@[i as int]));
        assert(tv[i as int] == v@[i as int]@);
        let ghost before = out@;
        collect_vars(&v[i], out);
        assert(out@ =~= old(out)@ + vars_of_all(tv, (i + 1) as nat));
        i = i + 1;
    }
}

/// Adds the variables of a term to a list.
pub fn collect_vars(t: &Term, out: &mut Vec<Atom>)
    ensures
        final(out)@ == old(out)@ + vars_of(t@),
    decreases t,
{
    broadcast use lemma_term_view;
    if is_variable(t.head) {
        out.push(t.head);
    }
    collect_all(&t.args, out);
    assert(out@ =~= old(out)@ + vars_of(t@));
}

fn count_all(v: &Vec<Term>) -> (r: u32)
    ensures
        r == atom_count_all(views(v@), v@.len()),
    decreases v,
{
    let ghost tv = views(v@);
    let mut i: usize = 0;
    let mut n: u32 = 0;
    while i < v.len()
        invariant
            i <= v.len(),
            tv == views(v@),
            n == atom_count_all(tv, i as nat),
        decreases v.len() - i,
    {
        assert(decreases_to!(v => v@[i as int]));
        assert(tv[i as int] == v@[i as int]@);
        n = capped_sum(n, count_term(&v[i]));
        i = i + 1;
    }
    n
}

fn count_term(t: &Term) -> (r: u32)
    ensures
        r == atom_count(t@),
    decreases t,
{
    broadcast use lemma_term_view;
    let here: u32 = match t.head {
        Atom::True => 0,
        _ => 1,
    };
    capped_sum(here, count_all(&t.args))
}

fn occurs_all(v: &Vec<Term>, a: Atom) -> (r: u32)
    ensures
        r == occurrences_all(views(v@), a, v@.len()),
    decreases v,
{
    let ghost tv = views(v@);
    let mut i: usize = 0;
    let mut n: u32 = 0;
    while i < v.len()
        invariant
            i <= v.len(),
            tv == views(v@),
            n == occurrences_all(tv, a, i as nat),
        decreases v.len() - i,
    {
        assert(decreases_to!(v => v@[i as int]));
        assert(tv[i as int] == v@[i as int]@);
        n = capped_sum(n, occurs(&v[i], a));
        i = i + 1;
    }
    n
}

fn occurs(t: &Term, a: Atom) -> (r: u32)
    ensures
        r == occurrences(t@, a),
    decreases t,
{
    broadcast use lemma_term_view;
    let here: u32 = if t.head == a {
        1
    } else {
        0
    };
    capped_sum(here, occurs_all(&t.args, a))
}

fn weigh_atom(a: Atom) -> (r: (u32, u32))
    ensures
        r == atom_weights(a),
{
    match a {
        Atom::GlobalConstant(i) => (1, 4 * (i as u32)),
        Atom::LocalConstant(i) => (1, 1 + 4 * (i as u32)),
        Atom::Monomorph(i) => (1, 2 + 4 * (i as u32)),
        Atom::Synthetic(i) => (1, 3 + 4 * (i as u32)),
        _ => (0, 0),
    }
}

fn weigh_all(v: &Vec<Term>) -> (r: (u32, u32))
    ensures
        r == weights_all(views(v@), v@.len()),
    decreases v,
{
    let ghost tv = views(v@);
    let mut i: usize = 0;
    let mut w1: u32 = 0;
    let mut w2: u32 = 0;
    while i < v.len()
        invariant
            i <= v.len(),
            tv == views(v@),
            (w1, w2) == weights_all(tv, i as nat),
        decreases v.len() - i,
    {
        assert(decreases_to!(v => v@[i as int]));
        assert(tv[i as int] == v@[i as int]@);
        let (a, b) = weigh(&v[i]);
        w1 = capped_sum(w1, a);
        w2 = capped_sum(w2, b);
        i = i + 1;
    }
    (w1, w2)
}

fn weigh(t: &Term) -> (r: (u32, u32))
    ensures
        r == weights(t@),
    decreases t,
{
    broadcast use lemma_term_view;
    let (a, b) = weigh_atom(t.head);
    let (c, d) = weigh_all(&t.args);
    (capped_sum(a, c), capped_sum(b, d))
}

fn covers_vars(a: &Term, b: &Term) -> (r: bool)
    ensures
        r == covers(a@, b@),
{
    let mut vs: Vec<Atom> = Vec::new();
    collect_vars(b, &mut vs);
    assert(vs@ =~= vars_of(b@));
    let mut i: usize = 0;
    while i < vs.len()
        invariant
            i <= vs.len(),
            vs@ == vars_of(b@),
            forall|k: int|
                0 <= k < i ==> occurrences(b@, #[trigger] vars_of(b@)[k]) <= occurrences(
                    a@,
                    vars_of(b@)[k],
                ),
        decreases vs.len() - i,
    {
        if occurs(b, vs[i]) > occurs(a, vs[i]) {
            assert(vars_of(b@)[i as int] == vs@[i as int]);
            return false;
        }
        i = i + 1;
    }
    true
}

fn code(a: Atom) -> (r: u32)
    ensures
        r == atom_code(a),
{
    match a {
        Atom::True => 0,
        Atom::GlobalConstant(i) => 65536 + i as u32,
        Atom::LocalConstant(i) => 131072 + i as u32,
        Atom::Monomorph(i) => 196608 + i as u32,
        Atom::Synthetic(i) => 262144 + i as u32,
        Atom::Variable(i) => 327680 + i as u32,
        Atom::Partner(i) => 393216 + i as u32,
    }
}

fn which(a: u64, b: u64) -> (r: Comparison)
    ensures
        r == compared(a as int, b as int),
{
    if a < b {
        Comparison::Less
    } else if a > b {
        Comparison::Greater
    } else {
        Comparison::Equal
    }
}

fn order_all(a: &Vec<Term>, b: &Vec<Term>) -> (r: Comparison)
    requires
        a.len() == b.len(),
    ensures
        r == built_order_all(views(a@), views(b@), a@.len()),
    decreases a,
{
    let ghost av = views(a@);
    let ghost bv = views(b@);
    let mut i: usize = 0;
    let mut c = Comparison::Equal;
    while i < a.len()
        invariant
            i <= a.len() == b.len(),
            av == views(a@),
            bv == views(b@),
            c == built_order_all(av, bv, i as nat),
        decreases a.len() - i,
    {
        assert(decreases_to!(a => a@[i as int]));
        assert(av[i as int] == a@[i as int]@ && bv[i as int] == b@[i as int]@);
        if c == Comparison::Equal {
            c = order_built(&a[i], &b[i]);
        }
        i = i + 1;
    }
    c
}

fn order_built(a: &Term, b: &Term) -> (r: Comparison)
    ensures
        r == built_order(a@, b@),
    decreases a,
{
    broadcast use lemma_term_view;
    let c = which(code(a.head) as u64, code(b.head) as u64);
    if c != Comparison::Equal {
        return c;
    }
    let c = which(a.term_type as u64, b.term_type as u64);
    if c != Comparison::Equal {
        return c;
    }
    let c = which(a.head_type as u64, b.head_type as u64);
    if c != Comparison::Equal {
        return c;
    }
    let c = which(a.args.len() as u64, b.args.len() as u64);
    if c != Comparison::Equal {
        return c;
    }
    order_all(&a.args, &b.args)
}

fn write_atom(a: Atom) -> (r: String)
    ensures
        r@ == atom_text(a),
{
    let (prefix, i) = match a {
        Atom::True => {
            return "true".to_owned();
        },
        Atom::GlobalConstant(i) => ("g", i),
        Atom::LocalConstant(i) => ("c", i),
        Atom::Monomorph(i) => ("m", i),
        Atom::Synthetic(i) => ("s", i),
        Atom::Variable(i) => ("x", i),
        Atom::Partner(i) => ("y", i),
    };
    let mut out = prefix.to_owned();
    out.append(decimal(i as u64).as_str());
    out
}

fn write_all(v: &Vec<Term>) -> (r: String)
    ensures
        r@ == terms_text(views(v@), v@.len()),
    decreases v,
{
    let ghost tv = views(v@);
    let mut out = String::new();
    let mut i: usize = 0;
    while i < v.len()
        invariant
            i <= v.len(),
            tv == views(v@),
            out@ == terms_text(tv, i as nat),
        decreases v.len() - i,
    {
        assert(decreases_to!(v => v@[i as int]));
        assert(tv[i as int] == v@[i as int]@);
        let text = write_term(&v[i]);
        if i > 0 {
            out.append(", ");
            out.append(text.as_str());
        } else {
            out = text;
        }
        i = i + 1;
    }
    out
}

fn write_term(t: &Term) -> (r: String)
    ensures
        r@ == term_text(t@),
    decreases t,
{
    broadcast use lemma_term_view;
    let mut out = write_atom(t.head);
    if t.args.len() > 0 {
        out.append("(");
        out.append(write_all(&t.args).as_str());
        out.append(")");
    }
    out
}

impl Term {
    /// An atom on its own.
    pub fn atom(term_type: TypeId, head: Atom) -> (r: Term)
        ensures
            r@ == atomic(term_type, head),
    {
        broadcast use lemma_term_view;
        let r = Term { term_type, head_type: term_type, head, args: Vec::new() };
        assert(views(r.args@) =~= Seq::<TermV>::empty());
        r
    }

    /// The proposition that always holds.
    pub fn new_true() -> (r: Term)
        ensures
            r@ == true_term(),
    {
        Term::atom(BOOL, Atom::True)
    }

    /// Whether this is the proposition that always holds.
    pub fn is_true(&self) -> (r: bool)
        ensures
            r == (self@.head is True),
    {
        broadcast use lemma_term_view;
        match self.head {
            Atom::True => true,
            _ => false,
        }
    }

    /// The number of arguments.
    pub fn num_args(&self) -> (r: usize)
        ensures
            r == self@.args.len(),
    {
        broadcast use lemma_term_view;
        self.args.len()
    }

    /// The number of atoms, not counting "true".
    pub fn atom_count(&self) -> (r: u32)
        ensures
            r == atom_count(self@),
    {
        count_term(self)
    }

    /// Whether any variable occurs.
    pub fn has_any_variable(&self) -> (r: bool)
        ensures
            r == has_atom(self@, |a: Atom| is_var(a)),
    {
        check_term(self, &AnyVariable)
    }

    /// Whether any local constant occurs.
    pub fn has_local_constant(&self) -> (r: bool)
        ensures
            r == has_atom(self@, |a: Atom| a is LocalConstant),
    {
        check_term(self, &AnyLocal)
    }

    /// Whether any made-up constant occurs.
    pub fn has_synthetic(&self) -> (r: bool)
        ensures
            r == has_atom(self@, |a: Atom| a is Synthetic),
    {
        check_term(self, &AnySynthetic)
    }

    /// The Knuth-Bendix order.
    pub fn kbo(&self, other: &Term) -> (r: Comparison)
        ensures
            r == kbo(self@, other@),
    {
        let (a, b) = weigh(self);
        let (c, d) = weigh(other);
        if (a > c || a == c && b > d) && covers_vars(self, other) {
            Comparison::Greater
        } else if (c > a || a == c && d > b) && covers_vars(other, self) {
            Comparison::Less
        } else {
            Comparison::Equal
        }
    }

    /// The Knuth-Bendix order, made total.
    pub fn extended_kbo(&self, other: &Term) -> (r: Comparison)
        ensures
            r == extended_kbo(self@, other@),
    {
        let (a, b) = weigh(self);
        let (c, d) = weigh(other);
        let x = which(a as u64, c as u64);
        if x != Comparison::Equal {
            return x;
        }
        let y = which(b as u64, d as u64);
        if y != Comparison::Equal {
            return y;
        }
        order_built(self, other)
    }

    /// The text of the term.
    pub fn to_text(&self) -> (r: String)
        ensures
            r@ == term_text(self@),
    {
        write_term(self)
    }
}

} // verus!
