//! Numerals are written as they are read.

use vstd::prelude::*;

use crate::acorn_type::TypeV;
use crate::acorn_value::ValueV;
use crate::binding_map::{
    applied_value, called_value, code_of_value, eval_member, eval_number, matched_args, BindingMapV,
};
use crate::code_gen_error::CodeGenErrorV;
use crate::compilation::ErrorV;
use crate::operators::{all_digits, member_of, next_dot, numeral_of, split_name};
use crate::project::ProjectV;
use crate::token::{is_digit, TokenV};

verus! {

proof fn lemma_next_dot(s: Seq<char>, i: int, j: int)
    requires
        0 <= i <= j <= s.len(),
        forall|k: int| i <= k < j ==> s[k] != '.',
        j == s.len() || s[j] == '.',
    ensures
        next_dot(s, i) == j,
    decreases j - i,
{
    if i < j {
        lemma_next_dot(s, i + 1, j);
    }
}

proof fn lemma_no_dot(s: Seq<char>, i: int, k: int)
    requires
        0 <= i <= k < s.len(),
        next_dot(s, i) == s.len(),
    ensures
        s[k] != '.',
    decreases s.len() - i,
{
    if i < k {
        lemma_no_dot(s, i + 1, k);
    }
}

/// The name of a member falls apart at its dot.
pub proof fn lemma_split_name(owner: Seq<char>, member: Seq<char>)
    requires
        next_dot(owner, 0) == owner.len(),
        next_dot(member, 0) == member.len(),
    ensures
        split_name(owner + "."@ + member) == Some((owner, member)),
{
    reveal_strlit(".");
    let name = owner + "."@ + member;
    let n = owner.len() as int;
    assert forall|k: int| 0 <= k < n implies name[k] != '.' by {
        lemma_no_dot(owner, 0, k);
    }
    lemma_next_dot(name, 0, n);
    assert forall|k: int| n + 1 <= k < name.len() implies name[k] != '.' by {
        lemma_no_dot(member, 0, k - n - 1);
    }
    lemma_next_dot(name, n + 1, name.len() as int);
    assert(name.take(n) =~= owner);
    assert(name.skip(n + 1) =~= member);
}

proof fn lemma_digits_have_no_dot(s: Seq<char>)
    requires
        all_digits(s),
    ensures
        next_dot(s, 0) == s.len(),
{
    assert forall|k: int| 0 <= k < s.len() implies s[k] != '.' by {
        assert(is_digit(s[k]));
    }
    lemma_next_dot(s, 0, s.len() as int);
}

/// Whether what a type reads numerals with takes two of its own values.
pub open spec fn reads_digits(b: BindingMapV, typename: Seq<char>) -> bool {
    let name = typename + "."@ + "read"@;
    let t = TypeV::Data(b.module, typename);
    b.identifier_types.dom().contains(name) ==> (b.identifier_types[name] matches TypeV::Function(
        args,
        _,
    ) && args.len() == 2 && args[0] == t && args[1] == t)
}

/// The value of a numeral is that numeral again, and where the scope has numerals of its type it is
/// written with the same digits.
pub proof fn law_numerals_are_written_as_read(
    b: BindingMapV,
    p: ProjectV,
    token: TokenV,
    typename: Seq<char>,
    digits: Seq<char>,
    v: ValueV,
    names: Seq<Seq<char>>,
    x: u32,
)
    requires
        next_dot(typename, 0) == typename.len(),
        all_digits(digits),
        reads_digits(b, typename),
        eval_number(b, p, token, TypeV::Data(b.module, typename), digits) == Ok::<ValueV, ErrorV>(
            v,
        ),
    ensures
        numeral_of(v) == Some((b.module, typename, digits)),
        b.numerals == Some((b.module, typename)) ==> code_of_value(b, v, names, x) == Ok::<
            (Seq<char>, u32),
            CodeGenErrorV,
        >((digits, x)),
    decreases digits.len(),
{
    let t = TypeV::Data(b.module, typename);
    reveal_with_fuel(eval_number, 2);
    reveal(eval_member);
    lemma_digits_have_no_dot(digits);
    lemma_split_name(typename, digits);
    if eval_member(b, p, token, t, digits) is Err {
        let first = digits.drop_last();
        let last = seq![digits.last()];
        let initial = eval_number(b, p, token, t, first)->Ok_0;
        let digit = eval_member(b, p, token, t, last)->Ok_0;
        let read = eval_member(b, p, token, t, "read"@)->Ok_0;
        assert(all_digits(first)) by {
            assert forall|i: int| 0 <= i < first.len() implies is_digit(#[trigger] first[i]) by {
                assert(first[i] == digits[i]);
            }
        }
        law_numerals_are_written_as_read(b, p, token, typename, first, initial, names, x);
        assert(all_digits(last)) by {
            assert(last[0] == digits[digits.len() - 1]);
        }
        lemma_digits_have_no_dot(last);
        lemma_split_name(typename, last);
        assert(numeral_of(digit) == Some((b.module, typename, last)));
        assert(next_dot("read"@, 0) == 4) by {
            reveal_strlit("read");
            lemma_next_dot("read"@, 0, 4);
        }
        reveal_strlit("read");
        lemma_split_name(typename, "read"@);
        assert(member_of(read) == Some((b.module, typename, "read"@)));
        reveal(called_value);
        reveal(applied_value);
        reveal_with_fuel(matched_args, 3);
        let both = seq![initial, digit];
        assert(both[0] == initial && both[1] == digit);
        assert(v == ValueV::Application(Box::new(read), both));
        assert(first + last =~= digits);
    }
}

} // verus!
