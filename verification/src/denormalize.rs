//! Turning clauses back into propositions.

use vstd::prelude::*;

use crate::acorn_type::{AcornType, AtomId, TypeV, SKOLEM};
use crate::acorn_value::{
    apply, forall_of, lemma_application_view, AcornValue, BinaryOp, ValueV,
};
use crate::binding_map::{code_of_value, BindingMap, BindingMapV};
use crate::clause::{clause_text, max_quantifiers, Clause, ClauseV};
use crate::literal::{Literal, LiteralV};
use crate::normalizer::{skolem, Normalizer, NormalizerV};
use crate::term::{lemma_term_view, Atom, Term, TermV, TypeId};
use crate::text::views;

verus! {

broadcast use {
    crate::text::group_views,
    lemma_application_view,
    lemma_term_view,
};

/// The atoms of a term with their types, in the order they are written.
pub open spec fn heads(t: TermV) -> Seq<(Atom, TypeId)>
    decreases t, 0nat,
{
    seq![(t.head, t.head_type)] + heads_all(t.args, t.args.len())
}

/// The atoms of the first `n` of some terms with their types.
pub open spec fn heads_all(ts: Seq<TermV>, n: nat) -> Seq<(Atom, TypeId)>
    decreases ts, n,
{
    if n == 0 || n > ts.len() {
        Seq::empty()
    } else {
        heads_all(ts, (n - 1) as nat) + heads(ts[n - 1])
    }
}

/// The atoms of the first `n` literals with their types.
pub open spec fn literal_heads(ls: Seq<LiteralV>, n: nat) -> Seq<(Atom, TypeId)>
    decreases n,
{
    if n == 0 || n > ls.len() {
        Seq::empty()
    } else {
        literal_heads(ls, (n - 1) as nat) + heads(ls[n - 1].left) + heads(ls[n - 1].right)
    }
}

/// The type that an atom has where it is first written, from a place on.
pub open spec fn head_type(hs: Seq<(Atom, TypeId)>, a: Atom, i: nat) -> Option<TypeId>
    decreases hs.len() - i,
{
    if i >= hs.len() {
        None
    } else if hs[i as int].0 == a {
        Some(hs[i as int].1)
    } else {
        head_type(hs, a, i + 1)
    }
}

/// The types of the variables with the first `n` numbers.
pub open spec fn variable_types(m: NormalizerV, hs: Seq<(Atom, TypeId)>, n: nat) -> Option<
    Seq<TypeV>,
>
    decreases n,
{
    if n == 0 {
        Some(Seq::empty())
    } else {
        match (
            variable_types(m, hs, (n - 1) as nat),
            head_type(hs, Atom::Variable((n - 1) as AtomId), 0),
        ) {
            (Some(before), Some(t)) => if t < m.types.types.len() {
                Some(before.push(m.types.types[t as int]))
            } else {
                None
            },
            _ => None,
        }
    }
}

/// The value that an atom of a type stands for.
pub open spec fn atom_value(m: NormalizerV, a: Atom, t: TypeV) -> Option<ValueV> {
    match a {
        Atom::True => Some(ValueV::Bool(true)),
        Atom::Variable(i) => Some(ValueV::Variable(i, t)),
        Atom::GlobalConstant(i) => if i < m.constants.len() {
            Some(
                ValueV::Constant(
                    m.constants[i as int].0,
                    m.constants[i as int].1,
                    t,
                    Seq::empty(),
                ),
            )
        } else {
            None
        },
        Atom::Synthetic(i) => Some(skolem(i as nat, t)),
        _ => None,
    }
}

/// The value that a term stands for, where it has one: what type parameters were called is not
/// known any more.
pub open spec fn term_value(m: NormalizerV, t: TermV) -> Option<ValueV>
    decreases t, 0nat,
{
    if t.head_type >= m.types.types.len() {
        None
    } else {
        match (
            atom_value(m, t.head, m.types.types[t.head_type as int]),
            term_values(m, t.args, t.args.len()),
        ) {
            (Some(f), Some(args)) => Some(apply(f, args)),
            _ => None,
        }
    }
}

/// The values that the first `n` of some terms stand for.
pub open spec fn term_values(m: NormalizerV, ts: Seq<TermV>, n: nat) -> Option<Seq<ValueV>>
    decreases ts, n,
{
    if n == 0 || n > ts.len() {
        Some(Seq::empty())
    } else {
        match (term_values(m, ts, (n - 1) as nat), term_value(m, ts[n - 1])) {
            (Some(before), Some(v)) => Some(before.push(v)),
            _ => None,
        }
    }
}

proof fn lemma_term_values_fail(m: NormalizerV, ts: Seq<TermV>, k: nat, n: nat)
    requires
        k <= n <= ts.len(),
        term_values(m, ts, k) is None,
    ensures
        term_values(m, ts, n) is None,
    decreases n,
{
    if k < n {
        lemma_term_values_fail(m, ts, k, (n - 1) as nat);
    }
}

proof fn lemma_variable_types_fail(m: NormalizerV, hs: Seq<(Atom, TypeId)>, k: nat, n: nat)
    requires
        k <= n,
        variable_types(m, hs, k) is None,
    ensures
        variable_types(m, hs, n) is None,
    decreases n,
{
    if k < n {
        lemma_variable_types_fail(m, hs, k, (n - 1) as nat);
    }
}

/// The proposition that a literal stands for.
pub open spec fn literal_value(m: NormalizerV, l: LiteralV) -> Option<ValueV> {
    match (term_value(m, l.left), term_value(m, l.right)) {
        (Some(a), Some(b)) => if l.right.head is True {
            if l.positive {
                Some(a)
            } else {
                Some(ValueV::Not(Box::new(a)))
            }
        } else if l.positive {
            Some(ValueV::Binary(BinaryOp::Equals, Box::new(a), Box::new(b)))
        } else {
            Some(ValueV::Binary(BinaryOp::NotEquals, Box::new(a), Box::new(b)))
        },
        _ => None,
    }
}

/// The proposition that one of the first `n` literals holds.
pub open spec fn disjunction(m: NormalizerV, ls: Seq<LiteralV>, n: nat) -> Option<ValueV>
    decreases n,
{
    if n == 0 || n > ls.len() {
        Some(ValueV::Bool(false))
    } else if n == 1 {
        literal_value(m, ls[0])
    } else {
        match (disjunction(m, ls, (n - 1) as nat), literal_value(m, ls[n - 1])) {
            (Some(a), Some(b)) => Some(
                ValueV::Binary(BinaryOp::Or, Box::new(a), Box::new(b)),
            ),
            _ => None,
        }
    }
}

proof fn lemma_disjunction_fails(m: NormalizerV, ls: Seq<LiteralV>, k: nat, n: nat)
    requires
        1 <= k <= n <= ls.len(),
        disjunction(m, ls, k) is None,
    ensures
        disjunction(m, ls, n) is None,
    decreases n,
{
    if k < n {
        lemma_disjunction_fails(m, ls, k, (n - 1) as nat);
    }
}

/// The proposition that a clause stands for: for all values of its variables, one of its literals
/// holds.
pub open spec fn denormalized(m: NormalizerV, c: ClauseV) -> Option<ValueV> {
    let hs = literal_heads(c.literals, c.literals.len());
    match (
        variable_types(m, hs, max_quantifiers(c.literals, c.literals.len()) as nat),
        disjunction(m, c.literals, c.literals.len()),
    ) {
        (Some(types), Some(v)) => Some(forall_of(types, v)),
        _ => None,
    }
}

/// A clause as code, or in its own form if that's all we can.
pub open spec fn clause_code(m: NormalizerV, b: BindingMapV, c: ClauseV) -> Seq<char> {
    match denormalized(m, c) {
        Some(v) => match code_of_value(b, v, Seq::empty(), 0) {
            Ok((code, _)) => code,
            Err(_) => clause_text(c),
        },
        None => clause_text(c),
    }
}

fn collect_heads_all(ts: &Vec<Term>, out: &mut Vec<(Atom, TypeId)>)
    ensures
        final(out)@ == old(out)@ + heads_all(views(ts@), ts@.len()),
    decreases ts,
{
    let ghost tv = views(ts@);
    let ghost start = out@;
    let mut i: usize = 0;
    assert(start + heads_all(tv, 0) =~= start);
    while i < ts.len()
        invariant
            i <= ts.len(),
            tv == views(ts@),
            out@ == start + heads_all(tv, i as nat),
        decreases ts.len() - i,
    {
        assert(decreases_to!(ts => ts@[i as int]));
        assert(tv[i as int] == ts@[i as int]@);
        collect_heads(&ts[i], out);
        assert((start + heads_all(tv, i as nat)) + heads(tv[i as int]) =~= start + heads_all(
            tv,
            (i + 1) as nat,
        ));
        i = i + 1;
    }
}

fn collect_heads(t: &Term, out: &mut Vec<(Atom, TypeId)>)
    ensures
        final(out)@ == old(out)@ + heads(t@),
    decreases t,
{
    let ghost start = out@;
    out.push((t.head, t.head_type));
    collect_heads_all(&t.args, out);
    assert(out@ =~= start + heads(t@));
}

fn find_head_type(hs: &Vec<(Atom, TypeId)>, a: Atom) -> (r: Option<TypeId>)
    ensures
        r == head_type(hs@, a, 0),
{
    let mut i: usize = 0;
    while i < hs.len()
        invariant
            i <= hs.len(),
            head_type(hs@, a, 0) == head_type(hs@, a, i as nat),
        decreases hs.len() - i,
    {
        if hs[i].0 == a {
            return Some(hs[i].1);
        }
        i = i + 1;
    }
    None
}

impl Normalizer {
    fn find_variable_types(&self, hs: &Vec<(Atom, TypeId)>, n: AtomId) -> (r: Option<
        Vec<AcornType>,
    >)
        ensures
            match r {
                Some(ts) => variable_types(self@, hs@, n as nat) == Some(views(ts@)),
                None => variable_types(self@, hs@, n as nat) is None,
            },
    {
        let mut out: Vec<AcornType> = Vec::new();
        let mut i: AtomId = 0;
        assert(views(out@) =~= Seq::<TypeV>::empty());
        while i < n
            invariant
                i <= n,
                variable_types(self@, hs@, i as nat) == Some(views(out@)),
            decreases n - i,
        {
            let found = match find_head_type(hs, Atom::Variable(i)) {
                Some(t) => self.find_type(t),
                None => None,
            };
            match found {
                Some(t) => {
                    out.push(t.clone());
                },
                None => {
                    proof {
                        lemma_variable_types_fail(self@, hs@, (i + 1) as nat, n as nat);
                    }
                    return None;
                },
            }
            i = i + 1;
        }
        Some(out)
    }

    fn value_from_atom(&self, a: Atom, t: &AcornType) -> (r: Option<AcornValue>)
        ensures
            match r {
                Some(v) => atom_value(self@, a, t@) == Some(v@),
                None => atom_value(self@, a, t@) is None,
            },
    {
        let none: Vec<String> = Vec::new();
        assert(views(none@) =~= Seq::<Seq<char>>::empty());
        match a {
            Atom::True => Some(AcornValue::Bool(true)),
            Atom::Variable(i) => Some(AcornValue::Variable(i, t.clone())),
            Atom::GlobalConstant(i) => match self.find_constant(i) {
                Some((module, name)) => Some(
                    AcornValue::Constant(module, name.clone(), t.clone(), none),
                ),
                None => None,
            },
            Atom::Synthetic(i) => Some(
                AcornValue::Constant(
                    SKOLEM,
                    crate::normalizer::write_skolem_name(i as usize),
                    t.clone(),
                    none,
                ),
            ),
            _ => None,
        }
    }

    fn values_from_terms(&self, ts: &Vec<Term>) -> (r: Option<Vec<AcornValue>>)
        ensures
            match r {
                Some(vs) => term_values(self@, views(ts@), ts@.len()) == Some(views(vs@)),
                None => term_values(self@, views(ts@), ts@.len()) is None,
            },
        decreases ts,
    {
        let ghost tv = views(ts@);
        let mut out: Vec<AcornValue> = Vec::new();
        let mut i: usize = 0;
        assert(views(out@) =~= Seq::<ValueV>::empty());
        while i < ts.len()
            invariant
                i <= ts.len(),
                tv == views(ts@),
                term_values(self@, tv, i as nat) == Some(views(out@)),
            decreases ts.len() - i,
        {
            assert(decreases_to!(ts => ts@[i as int]));
            assert(tv[i as int] == ts@[i as int]@);
            match self.value_from_term(&ts[i]) {
                Some(v) => {
                    out.push(v);
                },
                None => {
                    proof {
                        lemma_term_values_fail(self@, tv, (i + 1) as nat, tv.len());
                    }
                    return None;
                },
            }
            i = i + 1;
        }
        Some(out)
    }

    /// The value that a term stands for.
    pub fn value_from_term(&self, t: &Term) -> (r: Option<AcornValue>)
        ensures
            match r {
                Some(v) => term_value(self@, t@) == Some(v@),
                None => term_value(self@, t@) is None,
            },
        decreases t,
    {
        let head_type = match self.find_type(t.head_type) {
            Some(ty) => ty,
            None => {
                return None;
            },
        };
        let head = match self.value_from_atom(t.head, head_type) {
            Some(v) => v,
            None => {
                return None;
            },
        };
        match self.values_from_terms(&t.args) {
            Some(args) => Some(AcornValue::new_apply(head, args)),
            None => None,
        }
    }

    fn value_from_literal(&self, l: &Literal) -> (r: Option<AcornValue>)
        ensures
            match r {
                Some(v) => literal_value(self@, l@) == Some(v@),
                None => literal_value(self@, l@) is None,
            },
    {
        let a = match self.value_from_term(&l.left) {
            Some(v) => v,
            None => {
                return None;
            },
        };
        let b = match self.value_from_term(&l.right) {
            Some(v) => v,
            None => {
                return None;
            },
        };
        let alone = match l.right.head {
            Atom::True => true,
            _ => false,
        };
        if alone {
            if l.positive {
                Some(a)
            } else {
                Some(AcornValue::Not(Box::new(a)))
            }
        } else if l.positive {
            Some(AcornValue::Binary(BinaryOp::Equals, Box::new(a), Box::new(b)))
        } else {
            Some(AcornValue::Binary(BinaryOp::NotEquals, Box::new(a), Box::new(b)))
        }
    }

    /// The proposition that a clause stands for.
    pub fn denormalize(&self, clause: &Clause) -> (r: Option<AcornValue>)
        ensures
            match r {
                Some(v) => denormalized(self@, clause@) == Some(v@),
                None => denormalized(self@, clause@) is None,
            },
    {
        let ghost ls = clause@.literals;
        let mut hs: Vec<(Atom, TypeId)> = Vec::new();
        let mut i: usize = 0;
        while i < clause.literals.len()
            invariant
                i <= clause.literals.len(),
                ls == views(clause.literals@),
                hs@ == literal_heads(ls, i as nat),
            decreases clause.literals.len() - i,
        {
            assert(ls[i as int] == clause.literals@[i as int]@);
            collect_heads(&clause.literals[i].left, &mut hs);
            collect_heads(&clause.literals[i].right, &mut hs);
            i = i + 1;
        }
        let types = match self.find_variable_types(&hs, clause.num_quantifiers()) {
            Some(types) => types,
            None => {
                return None;
            },
        };
        let mut value = AcornValue::Bool(false);
        let mut k: usize = 0;
        while k < clause.literals.len()
            invariant
                k <= clause.literals.len(),
                ls == views(clause.literals@),
                ls == clause@.literals,
                disjunction(self@, ls, k as nat) == Some(value@),
            decreases clause.literals.len() - k,
        {
            assert(ls[k as int] == clause.literals@[k as int]@);
            match self.value_from_literal(&clause.literals[k]) {
                Some(v) => {
                    value = if k == 0 {
                        v
                    } else {
                        AcornValue::Binary(BinaryOp::Or, Box::new(value), Box::new(v))
                    };
                },
                None => {
                    proof {
                        lemma_disjunction_fails(self@, ls, (k + 1) as nat, ls.len());
                    }
                    return None;
                },
            }
            k = k + 1;
        }
        Some(AcornValue::new_forall(types, value))
    }

    /// Attempts to convert a clause to code, but shows the clause form if that's all we can.
    pub fn clause_to_code(&self, bindings: &BindingMap, clause: &Clause) -> (r: String)
        ensures
            r@ == clause_code(self@, bindings@, clause@),
    {
        if let Some(value) = self.denormalize(clause) {
            if let Ok(code) = bindings.value_to_code(&value) {
                return code;
            }
        }
        clause.to_text()
    }
}

} // verus!
