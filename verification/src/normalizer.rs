//! Turning propositions into clauses.

use vstd::prelude::*;

use crate::acorn_type::{functional, specialized, AcornType, AtomId, ModuleId, TypeParam, TypeV, SKOLEM};
use crate::acorn_value::{apply, bound, lemma_application_view, value_type, AcornValue, BinaryOp, ValueV};
use crate::clause::{clause_of, Clause, ClauseV};
use crate::fact::{ConstantInstance, ConstantInstanceV};
use crate::literal::{oriented, Literal, LiteralV};
use crate::logic::{
    check_plain, cnf, dequantified, expand, expanded, into_cnf, is_plain, is_terminal,
    lemma_bind_keeps_structure, lists_view, move_negation_inwards, negation_inside, remove_forall, structure,
};
use crate::table::duplicate_all;
use crate::term::{atomic, lemma_term_view, true_term, Atom, Term, TermV, TypeId};
use crate::text::{decimal, decimal_text, views};
use crate::type_map::{TypeMap, TypeMapV};

verus! {

broadcast use {lemma_application_view, crate::text::group_views};

/// What is needed to turn propositions into clauses, and what was made up on the way.
#[derive(Debug)]
pub struct Normalizer {
    /// Types of the skolem functions produced.
    skolem_types: Vec<AcornType>,
    /// The numbers of types, and of instances of polymorphic constants.
    types: TypeMap,
    /// The constants that have numbers.
    constants: Vec<(ModuleId, String)>,
}

/// The model of a normalizer.
#[verifier::ext_equal]
pub struct NormalizerV {
    pub skolem_types: Seq<TypeV>,
    pub types: TypeMapV,
    pub constants: Seq<(ModuleId, Seq<char>)>,
}

impl View for Normalizer {
    type V = NormalizerV;

    closed spec fn view(&self) -> NormalizerV {
        NormalizerV {
            skolem_types: views(self.skolem_types@),
            types: self.types@,
            constants: views(self.constants@),
        }
    }
}

impl NormalizerV {
    /// Whether the numbers of types fit together, and no constant has two numbers.
    pub open spec fn wf(self) -> bool {
        self.types.wf() && self.types.types.len() <= TypeId::MAX + 1
            && self.constants.no_duplicates()
    }

    /// The normalizer that has made nothing up yet.
    pub open spec fn initial() -> NormalizerV {
        NormalizerV {
            skolem_types: Seq::empty(),
            types: TypeMapV {
                types: seq![TypeV::Empty, TypeV::Bool],
                monomorphs: Seq::empty(),
            },
            constants: Seq::empty(),
        }
    }
}

/// The name of a skolem function.
pub open spec fn skolem_name(n: nat) -> Seq<char> {
    "s"@ + decimal_text(n)
}

/// A skolem function as a value.
pub open spec fn skolem(n: nat, t: TypeV) -> ValueV {
    ValueV::Constant(SKOLEM, skolem_name(n), t, Seq::empty())
}

/// The variables on a stack, as values.
pub open spec fn stack_args(stack: Seq<TypeV>) -> Seq<ValueV> {
    Seq::new(stack.len(), |i: int| ValueV::Variable(i as AtomId, stack[i]))
}

/// The types of the skolem functions for some existential quantifiers.
pub open spec fn skolem_types(stack: Seq<TypeV>, quants: Seq<TypeV>) -> Seq<TypeV> {
    Seq::new(quants.len(), |i: int| functional(stack, quants[i]))
}

/// What replaces the variables of some existential quantifiers: each is a skolem function,
/// applied to the stack.
pub open spec fn replacements(made: nat, stack: Seq<TypeV>, quants: Seq<TypeV>) -> Seq<ValueV> {
    Seq::new(
        quants.len(),
        |i: int| apply(skolem((made + i) as nat, functional(stack, quants[i])), stack_args(stack)),
    )
}

/// Replacements have no logical structure.
pub proof fn lemma_replacements(made: nat, stack: Seq<TypeV>, quants: Seq<TypeV>)
    ensures
        forall|i: int|
            0 <= i < quants.len() ==> is_terminal(#[trigger] replacements(made, stack, quants)[i]),
{
}

/// A proposition without its existential quantifiers, after the types of the skolem functions.
pub open spec fn skolemized(made: Seq<TypeV>, stack: Seq<TypeV>, v: ValueV) -> (Seq<TypeV>, ValueV)
    decreases structure(v),
{
    match v {
        ValueV::ForAll(quants, b) => {
            let (more, body) = skolemized(made, stack + quants, *b);
            (more, ValueV::ForAll(quants, Box::new(body)))
        },
        ValueV::Exists(quants, b) => {
            let size = stack.len() as AtomId;
            let values = replacements(made.len(), stack, quants);
            proof {
                lemma_replacements(made.len(), stack, quants);
                lemma_bind_keeps_structure(*b, size, size, values);
            }
            skolemized(made + skolem_types(stack, quants), stack, bound(*b, size, size, values))
        },
        ValueV::Binary(op, l, r) => if op is And || op is Or {
            let (after_left, left) = skolemized(made, stack, *l);
            let (after_right, right) = skolemized(after_left, stack, *r);
            (after_right, ValueV::Binary(op, Box::new(left), Box::new(right)))
        } else {
            (made, v)
        },
        _ => (made, v),
    }
}

/// Whether a proposition has no existential quantifiers in its logical structure.
pub open spec fn is_universal(v: ValueV) -> bool
    decreases v,
{
    match v {
        ValueV::ForAll(_, b) => is_universal(*b),
        ValueV::Exists(_, b) => false,
        ValueV::Binary(BinaryOp::And, l, r) => is_universal(*l) && is_universal(*r),
        ValueV::Binary(BinaryOp::Or, l, r) => is_universal(*l) && is_universal(*r),
        _ => true,
    }
}

/// Skolemizing leaves no existential quantifier, keeps propositions in the form that it asks
/// for, and keeps the skolem functions that were made before.
pub proof fn law_skolemized_is_universal(made: Seq<TypeV>, stack: Seq<TypeV>, v: ValueV)
    requires
        is_plain(v),
    ensures
        is_universal(skolemized(made, stack, v).1),
        is_plain(skolemized(made, stack, v).1),
        made.is_prefix_of(skolemized(made, stack, v).0),
    decreases structure(v),
{
    match v {
        ValueV::ForAll(quants, b) => law_skolemized_is_universal(made, stack + quants, *b),
        ValueV::Exists(quants, b) => {
            let size = stack.len() as AtomId;
            let values = replacements(made.len(), stack, quants);
            lemma_replacements(made.len(), stack, quants);
            lemma_bind_keeps_structure(*b, size, size, values);
            law_skolemized_is_universal(
                made + skolem_types(stack, quants),
                stack,
                bound(*b, size, size, values),
            );
        },
        ValueV::Binary(op, l, r) => if op is And || op is Or {
            law_skolemized_is_universal(made, stack, *l);
            law_skolemized_is_universal(skolemized(made, stack, *l).0, stack, *r);
        },
        _ => {},
    }
}

/// The number of a skolem function with a name, among the first `n`.
pub open spec fn skolem_number(n: nat, name: Seq<char>) -> Option<nat>
    decreases n,
{
    if n == 0 {
        None
    } else if name == skolem_name((n - 1) as nat) {
        Some((n - 1) as nat)
    } else {
        skolem_number((n - 1) as nat, name)
    }
}

/// An atom of a type, where the type has a number or can be given one.
pub open spec fn typed_atom(m: NormalizerV, t: TypeV, a: Atom) -> (NormalizerV, Option<TermV>) {
    if m.types.has_room(t) {
        let types = m.types.with_type(t);
        (
            NormalizerV { types, ..m },
            Some(atomic(types.types.index_of(t) as TypeId, a)),
        )
    } else {
        (m, None)
    }
}

/// The term for a constant without type parameters.
pub open spec fn constant_term(m: NormalizerV, module: ModuleId, name: Seq<char>, t: TypeV) -> (
    NormalizerV,
    Option<TermV>,
) {
    if module == SKOLEM {
        match skolem_number(m.skolem_types.len(), name) {
            Some(k) => if k <= AtomId::MAX {
                typed_atom(m, t, Atom::Synthetic(k as AtomId))
            } else {
                (m, None)
            },
            None => (m, None),
        }
    } else if m.constants.contains((module, name)) {
        let k = m.constants.index_of((module, name));
        if k <= AtomId::MAX {
            typed_atom(m, t, Atom::GlobalConstant(k as AtomId))
        } else {
            (m, None)
        }
    } else if m.constants.len() <= AtomId::MAX {
        typed_atom(
            NormalizerV { constants: m.constants.push((module, name)), ..m },
            t,
            Atom::GlobalConstant(m.constants.len() as AtomId),
        )
    } else {
        (m, None)
    }
}

/// What the type parameters of a constant stand for.
pub open spec fn param_types(ps: Seq<(Seq<char>, TypeV)>) -> Seq<TypeV> {
    Seq::new(ps.len(), |i: int| ps[i].1)
}

/// The term for an instance of a constant.
pub open spec fn instance_term(m: NormalizerV, c: ConstantInstanceV) -> (
    NormalizerV,
    Option<TermV>,
) {
    if m.types.has_room(c.instance_type) && m.types.monomorphs.len() <= AtomId::MAX {
        let types = m.types.with_monomorph(c);
        (NormalizerV { types, ..m }, Some(types.monomorph_term(c)))
    } else {
        (m, None)
    }
}

/// A function applied to some more arguments.
pub open spec fn applied_term(m: NormalizerV, h: TermV, args: Seq<TermV>, t: TypeV) -> (
    NormalizerV,
    Option<TermV>,
) {
    let (after, typed) = typed_atom(m, t, h.head);
    match typed {
        Some(x) => (
            after,
            Some(
                TermV {
                    term_type: x.term_type,
                    head_type: h.head_type,
                    head: h.head,
                    args: h.args + args,
                },
            ),
        ),
        None => (after, None),
    }
}

/// The term that a value is for the low-level prover, where it is one, after what had to be
/// given a number.
pub open spec fn termed(m: NormalizerV, v: ValueV) -> (NormalizerV, Option<TermV>)
    decreases v, 0nat,
{
    match v {
        ValueV::Variable(i, t) => typed_atom(m, t, Atom::Variable(i)),
        ValueV::Bool(true) => (m, Some(true_term())),
        ValueV::Constant(module, name, t, ps) => if ps.len() > 0 {
            (m, None)
        } else {
            constant_term(m, module, name, t)
        },
        ValueV::Specialized(module, name, t, ps) => instance_term(
            m,
            ConstantInstanceV {
                module_id: module,
                name,
                params: param_types(ps),
                instance_type: specialized(t, ps),
            },
        ),
        ValueV::Application(f, args) => {
            let (after_head, head) = termed(m, *f);
            match head {
                Some(h) => {
                    let (after_args, terms) = termed_all(after_head, args, args.len());
                    match terms {
                        Some(ts) => applied_term(after_args, h, ts, value_type(v)),
                        None => (after_args, None),
                    }
                },
                None => (after_head, None),
            }
        },
        _ => (m, None),
    }
}

/// The terms that the first `n` of a list of values are.
pub open spec fn termed_all(m: NormalizerV, vs: Seq<ValueV>, n: nat) -> (
    NormalizerV,
    Option<Seq<TermV>>,
)
    decreases vs, n,
{
    if n == 0 || n > vs.len() {
        (m, Some(Seq::empty()))
    } else {
        let (after_before, before) = termed_all(m, vs, (n - 1) as nat);
        match before {
            Some(ts) => {
                let (after, t) = termed(after_before, vs[n - 1]);
                match t {
                    Some(x) => (after, Some(ts.push(x))),
                    None => (after, None),
                }
            },
            None => (after_before, None),
        }
    }
}

proof fn lemma_termed_all_fails(m: NormalizerV, vs: Seq<ValueV>, k: nat, n: nat)
    requires
        k <= n <= vs.len(),
        termed_all(m, vs, k).1 is None,
    ensures
        termed_all(m, vs, n) == termed_all(m, vs, k),
    decreases n,
{
    if k < n {
        lemma_termed_all_fails(m, vs, k, (n - 1) as nat);
    }
}

/// The literal that compares two values.
pub open spec fn comparison_literal(m: NormalizerV, positive: bool, l: ValueV, r: ValueV) -> (
    NormalizerV,
    Option<LiteralV>,
) {
    let (after_left, left) = termed(m, l);
    match left {
        Some(a) => {
            let (after_right, right) = termed(after_left, r);
            match right {
                Some(b) => (after_right, Some(oriented(positive, a, b).0)),
                None => (after_right, None),
            }
        },
        None => (after_left, None),
    }
}

/// The literal for a value at the end of the logical structure.
pub open spec fn literal_for(m: NormalizerV, v: ValueV) -> (NormalizerV, Option<LiteralV>) {
    match v {
        ValueV::Binary(BinaryOp::Equals, l, r) => comparison_literal(m, true, *l, *r),
        ValueV::Binary(BinaryOp::NotEquals, l, r) => comparison_literal(m, false, *l, *r),
        ValueV::Not(x) => comparison_literal(m, false, *x, ValueV::Bool(true)),
        _ => comparison_literal(m, true, v, ValueV::Bool(true)),
    }
}

/// The literals for the first `n` of a list of values.
pub open spec fn literals_for(m: NormalizerV, vs: Seq<ValueV>, n: nat) -> (
    NormalizerV,
    Option<Seq<LiteralV>>,
)
    decreases n,
{
    if n == 0 || n > vs.len() {
        (m, Some(Seq::empty()))
    } else {
        let (after_before, before) = literals_for(m, vs, (n - 1) as nat);
        match before {
            Some(ls) => {
                let (after, l) = literal_for(after_before, vs[n - 1]);
                match l {
                    Some(x) => (after, Some(ls.push(x))),
                    None => (after, None),
                }
            },
            None => (after_before, None),
        }
    }
}

proof fn lemma_literals_for_fails(m: NormalizerV, vs: Seq<ValueV>, k: nat, n: nat)
    requires
        k <= n <= vs.len(),
        literals_for(m, vs, k).1 is None,
    ensures
        literals_for(m, vs, n) == literals_for(m, vs, k),
    decreases n,
{
    if k < n {
        lemma_literals_for_fails(m, vs, k, (n - 1) as nat);
    }
}

/// Whether one of some literals always holds.
pub open spec fn has_tautology(ls: Seq<LiteralV>) -> bool {
    exists|i: int| 0 <= i < ls.len() && (#[trigger] ls[i]).is_tautology()
}

/// The clauses for the first `n` of some lists of values. A list where one literal always holds
/// says nothing, and gives no clause.
pub open spec fn clauses_for(m: NormalizerV, lists: Seq<Seq<ValueV>>, n: nat) -> (
    NormalizerV,
    Option<Seq<ClauseV>>,
)
    decreases n,
{
    if n == 0 || n > lists.len() {
        (m, Some(Seq::empty()))
    } else {
        let (after_before, before) = clauses_for(m, lists, (n - 1) as nat);
        match before {
            Some(cs) => {
                let (after, literals) = literals_for(after_before, lists[n - 1], lists[n - 1].len());
                match literals {
                    Some(ls) => if has_tautology(ls) {
                        (after, Some(cs))
                    } else {
                        (after, Some(cs.push(clause_of(ls))))
                    },
                    None => (after, None),
                }
            },
            None => (after_before, None),
        }
    }
}

proof fn lemma_clauses_for_fails(m: NormalizerV, lists: Seq<Seq<ValueV>>, k: nat, n: nat)
    requires
        k <= n <= lists.len(),
        clauses_for(m, lists, k).1 is None,
    ensures
        clauses_for(m, lists, n) == clauses_for(m, lists, k),
    decreases n,
{
    if k < n {
        lemma_clauses_for_fails(m, lists, k, (n - 1) as nat);
    }
}

/// How many functions may be expanded inside each other.
pub const EXPANSION_LIMIT: u64 = u64::MAX;

/// The clauses for a proposition, after what had to be made up: functions are expanded, negations
/// go inwards, skolem functions replace existential quantifiers, and what is left is put into
/// conjunctive normal form. There is no result for what the low-level prover cannot express.
pub open spec fn normalized(m: NormalizerV, v: ValueV) -> (NormalizerV, Option<Seq<ClauseV>>) {
    match expanded(v, 0, EXPANSION_LIMIT) {
        Some(e) => {
            let inside = negation_inside(e, false);
            if is_plain(inside) {
                let (made, universal) = skolemized(m.skolem_types, Seq::empty(), inside);
                let lists = cnf(dequantified(Seq::empty(), universal).1);
                clauses_for(NormalizerV { skolem_types: made, ..m }, lists, lists.len())
            } else {
                (m, None)
            }
        },
        None => (m, None),
    }
}

fn param_list(ps: &Vec<TypeParam>) -> (r: Vec<AcornType>)
    ensures
        views(r@) == param_types(views(ps@)),
{
    let mut out: Vec<AcornType> = Vec::new();
    let mut i: usize = 0;
    while i < ps.len()
        invariant
            i <= ps.len(),
            out.len() == i,
            forall|k: int| 0 <= k < i ==> (#[trigger] out@[k])@ == ps@[k].1@,
        decreases ps.len() - i,
    {
        out.push(ps[i].1.clone());
        i = i + 1;
    }
    assert(views(out@) =~= param_types(views(ps@)));
    out
}

pub(crate) fn write_skolem_name(n: usize) -> (r: String)
    ensures
        r@ == skolem_name(n as nat),
{
    let mut out = "s".to_owned();
    out.append(decimal(n as u64).as_str());
    out
}

fn stack_values(stack: &Vec<AcornType>) -> (r: Vec<AcornValue>)
    ensures
        views(r@) == stack_args(views(stack@)),
{
    let mut out: Vec<AcornValue> = Vec::new();
    let mut i: usize = 0;
    while i < stack.len()
        invariant
            i <= stack.len(),
            out.len() == i,
            forall|k: int|
                0 <= k < i ==> (#[trigger] out@[k])@ == ValueV::Variable(k as AtomId, stack@[k]@),
        decreases stack.len() - i,
    {
        out.push(AcornValue::Variable(i as AtomId, stack[i].clone()));
        i = i + 1;
    }
    assert(views(out@) =~= stack_args(views(stack@)));
    out
}

impl Normalizer {
    /// A normalizer that has made nothing up yet.
    pub fn new() -> (r: Normalizer)
        ensures
            r@ == NormalizerV::initial(),
            r@.wf(),
    {
        let r = Normalizer {
            skolem_types: Vec::new(),
            types: TypeMap::new(),
            constants: Vec::new(),
        };
        assert(r@ =~= NormalizerV::initial());
        r
    }

    /// The type with a number.
    pub fn find_type(&self, id: TypeId) -> (r: Option<&AcornType>)
        ensures
            match r {
                Some(t) => id < self@.types.types.len() && t@ == self@.types.types[id as int],
                None => id >= self@.types.types.len(),
            },
    {
        if (id as usize) < self.types.num_types() {
            Some(self.types.get_type(id))
        } else {
            None
        }
    }

    /// The constant with a number.
    pub fn find_constant(&self, id: AtomId) -> (r: Option<(ModuleId, &String)>)
        ensures
            match r {
                Some((m, n)) => id < self@.constants.len() && self@.constants[id as int] == (m, n@),
                None => id >= self@.constants.len(),
            },
    {
        if (id as usize) < self.constants.len() {
            let c = &self.constants[id as usize];
            assert(self@.constants[id as int] == self.constants@[id as int]@);
            Some((c.0, &c.1))
        } else {
            None
        }
    }

    // Makes a skolem function for each of some existential quantifiers.
    fn make_skolems(&mut self, stack: &Vec<AcornType>, quants: &Vec<AcornType>) -> (r: Vec<
        AcornValue,
    >)
        ensures
            views(r@) == replacements(
                old(self)@.skolem_types.len(),
                views(stack@),
                views(quants@),
            ),
            final(self)@ == (NormalizerV {
                skolem_types: old(self)@.skolem_types + skolem_types(views(stack@), views(quants@)),
                ..old(self)@
            }),
    {
        let ghost made = self@.skolem_types;
        let ghost sv = views(stack@);
        let ghost qv = views(quants@);
        let mut out: Vec<AcornValue> = Vec::new();
        let mut i: usize = 0;
        assert(made + skolem_types(sv, qv).take(0) =~= made);
        while i < quants.len()
            invariant
                i <= quants.len(),
                out.len() == i,
                sv == views(stack@),
                qv == views(quants@),
                made == old(self)@.skolem_types,
                self@.skolem_types == made + skolem_types(sv, qv).take(i as int),
                self@.types == old(self)@.types,
                self@.constants == old(self)@.constants,
                forall|k: int|
                    0 <= k < i ==> (#[trigger] out@[k])@ == replacements(made.len(), sv, qv)[k],
            decreases quants.len() - i,
        {
            let skolem_type = AcornType::new_functional(duplicate_all(stack), quants[i].clone());
            let index = self.skolem_types.len();
            assert(self@.skolem_types.len() == self.skolem_types@.len());
            assert(skolem_types(sv, qv).take(i as int).len() == i);
            assert(index == made.len() + i);
            let ghost before = self.skolem_types@;
            self.skolem_types.push(skolem_type.clone());
            assert(views(self.skolem_types@) =~= views(before).push(skolem_type@));
            assert(skolem_types(sv, qv).take(i + 1) =~= skolem_types(sv, qv).take(i as int).push(
                skolem_type@,
            ));
            assert(made + skolem_types(sv, qv).take(i + 1) =~= (made + skolem_types(sv, qv).take(
                i as int,
            )).push(skolem_type@));
            let none: Vec<String> = Vec::new();
            assert(views(none@) =~= Seq::<Seq<char>>::empty());
            let function = AcornValue::Constant(
                SKOLEM,
                write_skolem_name(index),
                skolem_type,
                none,
            );
            out.push(AcornValue::new_apply(function, stack_values(stack)));
            i = i + 1;
        }
        assert(skolem_types(sv, qv).take(qv.len() as int) =~= skolem_types(sv, qv));
        assert(views(out@) =~= replacements(made.len(), sv, qv));
        out
    }

    /// Replaces existential quantifiers by skolem functions. Negations have to be moved inwards
    /// before, and the stack holds universal quantifiers only.
    ///
    /// The value does not need to be in prenex normal form: there can be quantifiers inside of
    /// "and" and "or". A skolem function depends only on the universal quantifiers around it, so
    /// it gets fewer arguments than it would if all quantifiers were moved to the front.
    pub fn skolemize(&mut self, stack: &Vec<AcornType>, value: AcornValue) -> (r: AcornValue)
        requires
            is_plain(value@),
        ensures
            (final(self)@.skolem_types, r@) == skolemized(
                old(self)@.skolem_types,
                views(stack@),
                value@,
            ),
            final(self)@ == (NormalizerV {
                skolem_types: final(self)@.skolem_types,
                ..old(self)@
            }),
        decreases structure(value@),
    {
        match value {
            AcornValue::ForAll(quants, subvalue) => {
                let mut new_stack = duplicate_all(stack);
                let mut more = duplicate_all(&quants);
                let ghost first = new_stack@;
                let ghost second = more@;
                new_stack.append(&mut more);
                assert(views(new_stack@) =~= views(first) + views(second));
                let new_subvalue = self.skolemize(&new_stack, *subvalue);
                AcornValue::ForAll(quants, Box::new(new_subvalue))
            },
            AcornValue::Exists(quants, subvalue) => {
                let ghost made = self@.skolem_types.len();
                let values = self.make_skolems(stack, &quants);
                let size = stack.len() as AtomId;
                let bound_value = subvalue.bind_values(size, size, &values);
                proof {
                    lemma_replacements(made, views(stack@), views(quants@));
                    lemma_bind_keeps_structure(subvalue@, size, size, views(values@));
                }
                self.skolemize(stack, bound_value)
            },
            AcornValue::Binary(op, l, r) => {
                if op == BinaryOp::And || op == BinaryOp::Or {
                    let left = self.skolemize(stack, *l);
                    let right = self.skolemize(stack, *r);
                    AcornValue::Binary(op, Box::new(left), Box::new(right))
                } else {
                    AcornValue::Binary(op, l, r)
                }
            },
            v => v,
        }
    }

    fn typed(&mut self, t: &AcornType, head: Atom) -> (r: Option<Term>)
        requires
            old(self)@.wf(),
        ensures
            final(self)@.wf(),
            final(self)@ == typed_atom(old(self)@, t@, head).0,
            match r {
                Some(x) => typed_atom(old(self)@, t@, head).1 == Some(x@),
                None => typed_atom(old(self)@, t@, head).1 is None,
            },
    {
        if self.types.has_room(t) {
            let id = self.types.add_type(t);
            proof {
                let types = self.types@.types;
                assert(types.contains(t@)) by {
                    assert(types[id as int] == t@);
                }
                assert(types.index_of(t@) == id);
            }
            Some(Term::atom(id, head))
        } else {
            None
        }
    }

    fn find_skolem(&self, name: &String) -> (r: Option<usize>)
        ensures
            match r {
                Some(k) => skolem_number(self@.skolem_types.len(), name@) == Some(k as nat),
                None => skolem_number(self@.skolem_types.len(), name@) is None,
            },
    {
        let mut n: usize = self.skolem_types.len();
        while n > 0
            invariant
                n <= self.skolem_types.len(),
                skolem_number(self@.skolem_types.len(), name@) == skolem_number(n as nat, name@),
            decreases n,
        {
            if *name == write_skolem_name(n - 1) {
                return Some(n - 1);
            }
            n = n - 1;
        }
        None
    }

    fn term_from_constant(&mut self, module: ModuleId, name: &String, t: &AcornType) -> (r: Option<
        Term,
    >)
        requires
            old(self)@.wf(),
        ensures
            final(self)@.wf(),
            final(self)@ == constant_term(old(self)@, module, name@, t@).0,
            match r {
                Some(x) => constant_term(old(self)@, module, name@, t@).1 == Some(x@),
                None => constant_term(old(self)@, module, name@, t@).1 is None,
            },
    {
        if module == SKOLEM {
            return match self.find_skolem(name) {
                Some(k) => if k <= AtomId::MAX as usize {
                    self.typed(t, Atom::Synthetic(k as AtomId))
                } else {
                    None
                },
                None => None,
            };
        }
        let ghost key = (module, name@);
        let n = self.constants.len();
        let mut i: usize = 0;
        while i < n
            invariant
                i <= n,
                n == self.constants.len(),
                self@ == old(self)@,
                self@.wf(),
                module != SKOLEM,
                key == (module, name@),
                forall|k: int| 0 <= k < i ==> self@.constants[k] != key,
            decreases n - i,
        {
            assert(self@.constants[i as int] == (
                self.constants@[i as int].0,
                self.constants@[i as int].1@,
            ));
            if self.constants[i].0 == module && self.constants[i].1 == *name {
                proof {
                    assert(self@.constants[i as int] == key);
                    assert(self@.constants.contains(key));
                    assert(self@.constants.index_of(key) == i);
                }
                if i <= AtomId::MAX as usize {
                    return self.typed(t, Atom::GlobalConstant(i as AtomId));
                }
                return None;
            }
            i = i + 1;
        }
        assert(!self@.constants.contains(key));
        if n > AtomId::MAX as usize {
            return None;
        }
        let ghost before = self.constants@;
        self.constants.push((module, name.clone()));
        assert(views(self.constants@) =~= views(before).push(key));
        assert(self@.constants.no_duplicates());
        self.typed(t, Atom::GlobalConstant(n as AtomId))
    }

    fn term_from_instance(&mut self, c: &ConstantInstance) -> (r: Option<Term>)
        requires
            old(self)@.wf(),
        ensures
            final(self)@.wf(),
            final(self)@ == instance_term(old(self)@, c@).0,
            match r {
                Some(x) => instance_term(old(self)@, c@).1 == Some(x@),
                None => instance_term(old(self)@, c@).1 is None,
            },
    {
        if self.types.has_room(&c.instance_type) && self.types.num_monomorphs()
            <= AtomId::MAX as usize {
            Some(self.types.term_from_monomorph(c))
        } else {
            None
        }
    }

    fn terms_from_values(&mut self, vs: &Vec<AcornValue>) -> (r: Option<Vec<Term>>)
        requires
            old(self)@.wf(),
        ensures
            final(self)@.wf(),
            final(self)@ == termed_all(old(self)@, views(vs@), vs@.len()).0,
            match r {
                Some(ts) => termed_all(old(self)@, views(vs@), vs@.len()).1 == Some(views(ts@)),
                None => termed_all(old(self)@, views(vs@), vs@.len()).1 is None,
            },
        decreases vs,
    {
        let ghost start = self@;
        let mut out: Vec<Term> = Vec::new();
        let mut i: usize = 0;
        assert(views(out@) =~= Seq::<TermV>::empty());
        while i < vs.len()
            invariant
                i <= vs.len(),
                self@.wf(),
                start == old(self)@,
                termed_all(start, views(vs@), i as nat) == (self@, Some(views(out@))),
            decreases vs.len() - i,
        {
            assert(decreases_to!(vs => vs@[i as int]));
            assert(views(vs@)[i as int] == vs@[i as int]@);
            match self.term_from_value(&vs[i]) {
                Some(t) => {
                    out.push(t);
                },
                None => {
                    proof {
                        lemma_termed_all_fails(start, views(vs@), (i + 1) as nat, vs@.len());
                    }
                    return None;
                },
            }
            i = i + 1;
        }
        Some(out)
    }

    /// The term that a value is for the low-level prover, where it is one.
    pub fn term_from_value(&mut self, value: &AcornValue) -> (r: Option<Term>)
        requires
            old(self)@.wf(),
        ensures
            final(self)@.wf(),
            final(self)@ == termed(old(self)@, value@).0,
            match r {
                Some(x) => termed(old(self)@, value@).1 == Some(x@),
                None => termed(old(self)@, value@).1 is None,
            },
        decreases value,
    {
        broadcast use lemma_term_view;
        match value {
            AcornValue::Variable(i, t) => self.typed(t, Atom::Variable(*i)),
            AcornValue::Bool(true) => Some(Term::new_true()),
            AcornValue::Constant(module, name, t, ps) => if ps.len() > 0 {
                None
            } else {
                self.term_from_constant(*module, name, t)
            },
            AcornValue::Specialized(module, name, t, ps) => {
                let c = ConstantInstance {
                    module_id: *module,
                    name: name.clone(),
                    params: param_list(ps),
                    instance_type: t.specialize(ps),
                };
                self.term_from_instance(&c)
            },
            AcornValue::Application(a) => {
                let head = match self.term_from_value(&a.function) {
                    Some(h) => h,
                    None => {
                        return None;
                    },
                };
                let mut args = match self.terms_from_values(&a.args) {
                    Some(args) => args,
                    None => {
                        return None;
                    },
                };
                let term_type = match self.typed(&value.get_type(), head.head) {
                    Some(t) => t.term_type,
                    None => {
                        return None;
                    },
                };
                let ghost first = head.args@;
                let ghost second = args@;
                let mut all = head.args;
                all.append(&mut args);
                assert(views(all@) =~= views(first) + views(second));
                Some(Term { term_type, head_type: head.head_type, head: head.head, args: all })
            },
            _ => None,
        }
    }

    fn compare(&mut self, positive: bool, left: &AcornValue, right: &AcornValue) -> (r: Option<
        Literal,
    >)
        requires
            old(self)@.wf(),
        ensures
            final(self)@.wf(),
            final(self)@ == comparison_literal(old(self)@, positive, left@, right@).0,
            match r {
                Some(x) => comparison_literal(old(self)@, positive, left@, right@).1 == Some(x@),
                None => comparison_literal(old(self)@, positive, left@, right@).1 is None,
            },
    {
        match self.term_from_value(left) {
            Some(a) => match self.term_from_value(right) {
                Some(b) => Some(Literal::new_with_flip(positive, a, b).0),
                None => None,
            },
            None => None,
        }
    }

    /// The literal for a value at the end of the logical structure.
    pub fn literal_from_value(&mut self, value: &AcornValue) -> (r: Option<Literal>)
        requires
            old(self)@.wf(),
        ensures
            final(self)@.wf(),
            final(self)@ == literal_for(old(self)@, value@).0,
            match r {
                Some(x) => literal_for(old(self)@, value@).1 == Some(x@),
                None => literal_for(old(self)@, value@).1 is None,
            },
    {
        match value {
            AcornValue::Binary(BinaryOp::Equals, l, r) => self.compare(true, l, r),
            AcornValue::Binary(BinaryOp::NotEquals, l, r) => self.compare(false, l, r),
            AcornValue::Not(x) => self.compare(false, x, &AcornValue::Bool(true)),
            v => self.compare(true, v, &AcornValue::Bool(true)),
        }
    }

    fn literals_from_values(&mut self, vs: &Vec<AcornValue>) -> (r: Option<Vec<Literal>>)
        requires
            old(self)@.wf(),
        ensures
            final(self)@.wf(),
            final(self)@ == literals_for(old(self)@, views(vs@), vs@.len()).0,
            match r {
                Some(ls) => literals_for(old(self)@, views(vs@), vs@.len()).1 == Some(views(ls@)),
                None => literals_for(old(self)@, views(vs@), vs@.len()).1 is None,
            },
    {
        let ghost start = self@;
        let mut out: Vec<Literal> = Vec::new();
        let mut i: usize = 0;
        assert(views(out@) =~= Seq::<LiteralV>::empty());
        while i < vs.len()
            invariant
                i <= vs.len(),
                self@.wf(),
                start == old(self)@,
                literals_for(start, views(vs@), i as nat) == (self@, Some(views(out@))),
            decreases vs.len() - i,
        {
            assert(views(vs@)[i as int] == vs@[i as int]@);
            match self.literal_from_value(&vs[i]) {
                Some(l) => {
                    out.push(l);
                },
                None => {
                    proof {
                        lemma_literals_for_fails(start, views(vs@), (i + 1) as nat, vs@.len());
                    }
                    return None;
                },
            }
            i = i + 1;
        }
        Some(out)
    }

    fn clauses_from_lists(&mut self, lists: &Vec<Vec<AcornValue>>) -> (r: Option<Vec<Clause>>)
        requires
            old(self)@.wf(),
        ensures
            final(self)@.wf(),
            final(self)@ == clauses_for(old(self)@, lists_view(lists@), lists@.len()).0,
            match r {
                Some(cs) => clauses_for(old(self)@, lists_view(lists@), lists@.len()).1 == Some(
                    views(cs@),
                ),
                None => clauses_for(old(self)@, lists_view(lists@), lists@.len()).1 is None,
            },
    {
        let ghost start = self@;
        let ghost lv = lists_view(lists@);
        let mut out: Vec<Clause> = Vec::new();
        let mut i: usize = 0;
        assert(views(out@) =~= Seq::<ClauseV>::empty());
        while i < lists.len()
            invariant
                i <= lists.len(),
                self@.wf(),
                start == old(self)@,
                lv == lists_view(lists@),
                clauses_for(start, lv, i as nat) == (self@, Some(views(out@))),
            decreases lists.len() - i,
        {
            assert(lv[i as int] == views(lists@[i as int]@));
            match self.literals_from_values(&lists[i]) {
                Some(literals) => {
                    if !any_tautology(&literals) {
                        out.push(Clause::new(literals));
                    }
                },
                None => {
                    proof {
                        lemma_clauses_for_fails(start, lv, (i + 1) as nat, lists@.len());
                    }
                    return None;
                },
            }
            i = i + 1;
        }
        Some(out)
    }

    /// Turns a proposition into clauses. There is no result for what the low-level prover cannot
    /// express.
    pub fn normalize(&mut self, value: AcornValue) -> (r: Option<Vec<Clause>>)
        requires
            old(self)@.wf(),
        ensures
            final(self)@.wf(),
            final(self)@ == normalized(old(self)@, value@).0,
            match r {
                Some(cs) => normalized(old(self)@, value@).1 == Some(views(cs@)),
                None => normalized(old(self)@, value@).1 is None,
            },
    {
        let expanded_value = match expand(&value, 0, EXPANSION_LIMIT) {
            Some(v) => v,
            None => {
                return None;
            },
        };
        let inside = move_negation_inwards(&expanded_value, false);
        if !check_plain(&inside) {
            return None;
        }
        let stack: Vec<AcornType> = Vec::new();
        assert(views(stack@) =~= Seq::<TypeV>::empty());
        let universal = self.skolemize(&stack, inside);
        let mut quants: Vec<AcornType> = Vec::new();
        assert(views(quants@) =~= Seq::<TypeV>::empty());
        let dequantified_value = remove_forall(&universal, &mut quants);
        let lists = into_cnf(&dequantified_value);
        self.clauses_from_lists(&lists)
    }
}

fn any_tautology(literals: &Vec<Literal>) -> (r: bool)
    ensures
        r == has_tautology(views(literals@)),
{
    let mut i: usize = 0;
    while i < literals.len()
        invariant
            i <= literals.len(),
            forall|k: int| 0 <= k < i ==> !(#[trigger] views(literals@)[k]).is_tautology(),
        decreases literals.len() - i,
    {
        assert(views(literals@)[i as int] == literals@[i as int]@);
        if literals[i].is_tautology() {
            return true;
        }
        i = i + 1;
    }
    false
}

} // verus!
