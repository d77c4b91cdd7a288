//! A short notation for terms, literals and clauses, like `c0(x0, c1) = c2 or not c3(x0)`.

use vstd::prelude::*;

use crate::clause::{clause_of, Clause};
use crate::literal::{oriented, Literal, LiteralV};
use crate::term::{lemma_term_view, true_term, Atom, Term, TermV, EMPTY};
use crate::text::{chars_of, views};

verus! {

/// Whether a text has another one at a place.
pub open spec fn reads(s: Seq<char>, i: int, word: Seq<char>) -> bool {
    0 <= i && i + word.len() <= s.len() && s.subrange(i, i + word.len()) == word
}

/// The value of a digit.
pub open spec fn digit_value(c: char) -> nat {
    (c as int - '0' as int) as nat
}

/// Whether there is a digit at a place.
pub open spec fn digit_at(s: Seq<char>, i: int) -> bool {
    0 <= i < s.len() && '0' <= s[i] && s[i] <= '9'
}

/// The number whose digits go on at a place, after those that make up `n`, and where it ends. It
/// has to be small.
pub open spec fn number_at(s: Seq<char>, i: int, n: nat) -> Option<(u16, int)>
    decreases s.len() - i,
{
    if digit_at(s, i) {
        let next = 10 * n + digit_value(s[i]);
        if next > u16::MAX {
            None
        } else {
            number_at(s, i + 1, next)
        }
    } else {
        Some((n as u16, i))
    }
}

/// The atom at a place, and where it ends.
pub open spec fn atom_at(s: Seq<char>, i: int) -> Option<(Atom, int)> {
    if reads(s, i, "true"@) {
        Some((Atom::True, i + 4))
    } else if !(0 <= i < s.len()) || !digit_at(s, i + 1) {
        None
    } else {
        match number_at(s, i + 1, 0) {
            None => None,
            Some((n, j)) => if s[i] == 'c' {
                Some((Atom::LocalConstant(n), j))
            } else if s[i] == 'g' {
                Some((Atom::GlobalConstant(n), j))
            } else if s[i] == 'm' {
                Some((Atom::Monomorph(n), j))
            } else if s[i] == 's' {
                Some((Atom::Synthetic(n), j))
            } else if s[i] == 'x' {
                Some((Atom::Variable(n), j))
            } else {
                None
            },
        }
    }
}

/// The term for an atom with arguments. Types are not written.
pub open spec fn untyped(head: Atom, args: Seq<TermV>) -> TermV {
    if head is True && args.len() == 0 {
        true_term()
    } else {
        TermV { term_type: EMPTY, head_type: EMPTY, head, args }
    }
}

/// The term at a place, and where it ends.
pub open spec fn term_at(s: Seq<char>, i: int) -> Option<(TermV, int)>
    decreases s.len() - i, 0int,
{
    match atom_at(s, i) {
        None => None,
        Some((head, j)) => if i < j < s.len() && s[j] == '(' {
            match args_at(s, j + 1, Seq::empty()) {
                None => None,
                Some((args, k)) => Some((untyped(head, args), k)),
            }
        } else if i < j {
            Some((untyped(head, Seq::empty()), j))
        } else {
            None
        },
    }
}

/// The arguments that go on at a place after others, and where the list ends.
pub open spec fn args_at(s: Seq<char>, i: int, before: Seq<TermV>) -> Option<(Seq<TermV>, int)>
    decreases s.len() - i, 1int,
{
    match term_at(s, i) {
        None => None,
        Some((t, j)) => if !(i < j < s.len()) {
            None
        } else if s[j] == ')' {
            Some((before.push(t), j + 1))
        } else if reads(s, j, ", "@) && j + 2 <= s.len() {
            args_at(s, j + 2, before.push(t))
        } else {
            None
        },
    }
}

/// The literal at a place, and where it ends.
pub open spec fn literal_at(s: Seq<char>, i: int) -> Option<(LiteralV, int)> {
    if reads(s, i, "not "@) {
        match term_at(s, i + 4) {
            None => None,
            Some((t, j)) => Some((oriented(false, t, true_term()).0, j)),
        }
    } else {
        match term_at(s, i) {
            None => None,
            Some((t, j)) => if reads(s, j, " = "@) {
                match term_at(s, j + 3) {
                    None => None,
                    Some((u, k)) => Some((oriented(true, t, u).0, k)),
                }
            } else if reads(s, j, " != "@) {
                match term_at(s, j + 4) {
                    None => None,
                    Some((u, k)) => Some((oriented(false, t, u).0, k)),
                }
            } else {
                Some((oriented(true, t, true_term()).0, j))
            },
        }
    }
}

/// The literals that go on at a place after others, to the end of the text.
pub open spec fn literals_at(s: Seq<char>, i: int, before: Seq<LiteralV>) -> Option<Seq<LiteralV>>
    decreases s.len() - i,
{
    match literal_at(s, i) {
        None => None,
        Some((l, j)) => if j == s.len() {
            Some(before.push(l))
        } else if !(i <= j < s.len()) {
            None
        } else if reads(s, j, " or "@) && j + 4 <= s.len() {
            literals_at(s, j + 4, before.push(l))
        } else if reads(s, j, " | "@) && j + 3 <= s.len() {
            literals_at(s, j + 3, before.push(l))
        } else {
            None
        },
    }
}

/// The term that a text stands for, if it does.
pub open spec fn term_of(s: Seq<char>) -> Option<TermV> {
    match term_at(s, 0) {
        Some((t, j)) => if j == s.len() {
            Some(t)
        } else {
            None
        },
        None => None,
    }
}

/// The literals that a text stands for, if it does.
pub open spec fn literals_of(s: Seq<char>) -> Option<Seq<LiteralV>> {
    literals_at(s, 0, Seq::empty())
}

fn read(s: &Vec<char>, i: usize, word: &str) -> (r: bool)
    ensures
        r == reads(s@, i as int, word@),
{
    let w = chars_of(word);
    if w.len() > s.len() || i > s.len() - w.len() {
        return false;
    }
    let mut k: usize = 0;
    while k < w.len()
        invariant
            k <= w.len(),
            w@ == word@,
            i + w.len() <= s.len(),
            forall|j: int| 0 <= j < k ==> s@[i + j] == w@[j],
        decreases w.len() - k,
    {
        if s[i + k] != w[k] {
            assert(s@.subrange(i as int, i + w.len())[k as int] == s@[i + k]);
            return false;
        }
        k = k + 1;
    }
    assert(s@.subrange(i as int, i + w.len()) =~= w@);
    true
}

fn read_number(s: &Vec<char>, i: usize) -> (r: Option<(u16, usize)>)
    requires
        i <= s.len(),
    ensures
        match r {
            Some((n, j)) => number_at(s@, i as int, 0) == Some((n, j as int)) && i <= j <= s.len(),
            None => number_at(s@, i as int, 0) is None,
        },
{
    let mut n: u16 = 0;
    let mut j: usize = i;
    while j < s.len() && '0' <= s[j] && s[j] <= '9'
        invariant
            i <= j <= s.len(),
            number_at(s@, i as int, 0) == number_at(s@, j as int, n as nat),
        decreases s.len() - j,
    {
        let d = s[j] as u32 - '0' as u32;
        let next: u32 = 10 * (n as u32) + d;
        if next > 65535 {
            return None;
        }
        n = next as u16;
        j = j + 1;
    }
    Some((n, j))
}

fn read_atom(s: &Vec<char>, i: usize) -> (r: Option<(Atom, usize)>)
    ensures
        match r {
            Some((a, j)) => atom_at(s@, i as int) == Some((a, j as int)) && i < j <= s.len(),
            None => atom_at(s@, i as int) is None,
        },
{
    proof {
        reveal_strlit("true");
    }
    if read(s, i, "true") {
        return Some((Atom::True, i + 4));
    }
    if s.len() == 0 || i >= s.len() - 1 || !('0' <= s[i + 1] && s[i + 1] <= '9') {
        return None;
    }
    match read_number(s, i + 1) {
        None => None,
        Some((n, j)) => {
            let c = s[i];
            if c == 'c' {
                Some((Atom::LocalConstant(n), j))
            } else if c == 'g' {
                Some((Atom::GlobalConstant(n), j))
            } else if c == 'm' {
                Some((Atom::Monomorph(n), j))
            } else if c == 's' {
                Some((Atom::Synthetic(n), j))
            } else if c == 'x' {
                Some((Atom::Variable(n), j))
            } else {
                None
            }
        },
    }
}

fn make_untyped(head: Atom, args: Vec<Term>) -> (r: Term)
    ensures
        r@ == untyped(head, views(args@)),
{
    broadcast use lemma_term_view;
    if let Atom::True = head {
        if args.len() == 0 {
            return Term::new_true();
        }
    }
    Term { term_type: EMPTY, head_type: EMPTY, head, args }
}

fn read_term(s: &Vec<char>, i: usize) -> (r: Option<(Term, usize)>)
    ensures
        match r {
            Some((t, j)) => term_at(s@, i as int) == Some((t@, j as int)) && i < j <= s.len(),
            None => term_at(s@, i as int) is None,
        },
    decreases s.len() - i, 0int,
{
    match read_atom(s, i) {
        None => None,
        Some((head, j)) => {
            if j < s.len() && s[j] == '(' {
                match read_args(s, j + 1) {
                    None => None,
                    Some((args, k)) => Some((make_untyped(head, args), k)),
                }
            } else {
                let none: Vec<Term> = Vec::new();
                assert(views(none@) =~= Seq::<TermV>::empty());
                Some((make_untyped(head, none), j))
            }
        },
    }
}

fn read_args(s: &Vec<char>, i: usize) -> (r: Option<(Vec<Term>, usize)>)
    ensures
        match r {
            Some((ts, j)) => args_at(s@, i as int, Seq::empty()) == Some((views(ts@), j as int))
                && i < j <= s.len(),
            None => args_at(s@, i as int, Seq::empty()) is None,
        },
    decreases s.len() - i, 1int,
{
    broadcast use crate::text::group_views;
    proof {
        reveal_strlit(", ");
    }
    let mut args: Vec<Term> = Vec::new();
    let mut k: usize = i;
    loop
        invariant
            i <= k,
            ", "@.len() == 2,
            args_at(s@, i as int, Seq::empty()) == args_at(s@, k as int, views(args@)),
            k > i ==> k <= s.len(),
        decreases s.len() - k,
    {
        broadcast use crate::text::group_views;
        match read_term(s, k) {
            None => {
                return None;
            },
            Some((t, j)) => {
                if j >= s.len() {
                    return None;
                }
                args.push(t);
                if s[j] == ')' {
                    return Some((args, j + 1));
                }
                if !read(s, j, ", ") {
                    return None;
                }
                k = j + 2;
            },
        }
    }
}

fn read_literal(s: &Vec<char>, i: usize) -> (r: Option<(Literal, usize)>)
    ensures
        match r {
            Some((l, j)) => literal_at(s@, i as int) == Some((l@, j as int)) && i < j <= s.len(),
            None => literal_at(s@, i as int) is None,
        },
{
    proof {
        reveal_strlit("not ");
        reveal_strlit(" = ");
        reveal_strlit(" != ");
    }
    if read(s, i, "not ") {
        return match read_term(s, i + 4) {
            None => None,
            Some((t, j)) => Some((Literal::not_equals(t, Term::new_true()), j)),
        };
    }
    match read_term(s, i) {
        None => None,
        Some((t, j)) => {
            if read(s, j, " = ") {
                match read_term(s, j + 3) {
                    None => None,
                    Some((u, k)) => Some((Literal::equals(t, u), k)),
                }
            } else if read(s, j, " != ") {
                match read_term(s, j + 4) {
                    None => None,
                    Some((u, k)) => Some((Literal::not_equals(t, u), k)),
                }
            } else {
                Some((Literal::equals(t, Term::new_true()), j))
            }
        },
    }
}

fn read_literals(s: &Vec<char>) -> (r: Option<Vec<Literal>>)
    ensures
        match r {
            Some(ls) => literals_of(s@) == Some(views(ls@)),
            None => literals_of(s@) is None,
        },
{
    broadcast use crate::text::group_views;
    proof {
        reveal_strlit(" or ");
        reveal_strlit(" | ");
    }
    let mut ls: Vec<Literal> = Vec::new();
    let mut i: usize = 0;
    loop
        invariant
            i <= s.len(),
            " or "@.len() == 4,
            " | "@.len() == 3,
            literals_of(s@) == literals_at(s@, i as int, views(ls@)),
        decreases s.len() - i,
    {
        broadcast use crate::text::group_views;
        match read_literal(s, i) {
            None => {
                return None;
            },
            Some((l, j)) => {
                ls.push(l);
                if j == s.len() {
                    return Some(ls);
                }
                if read(s, j, " or ") {
                    i = j + 4;
                } else if read(s, j, " | ") {
                    i = j + 3;
                } else {
                    return None;
                }
            },
        }
    }
}

impl Term {
    /// The term that a text stands for.
    pub fn parse(s: &str) -> (r: Term)
        requires
            term_of(s@) is Some,
        ensures
            Some(r@) == term_of(s@),
    {
        let v = chars_of(s);
        match read_term(&v, 0) {
            Some((t, _)) => t,
            None => Term::new_true(),
        }
    }
}

impl Clause {
    /// The clause that a text stands for.
    pub fn parse(s: &str) -> (r: Clause)
        requires
            literals_of(s@) is Some,
        ensures
            r@ == clause_of(literals_of(s@)->0),
    {
        let v = chars_of(s);
        match read_literals(&v) {
            Some(ls) => Clause::new(ls),
            None => Clause::impossible(),
        }
    }
}

} // verus!
