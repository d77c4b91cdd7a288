//! What is claimed of a new type in its environment.

use vstd::prelude::*;

use crate::acorn_type::{functional, TypeV};
use crate::acorn_value::{forall_of, ValueV};
use crate::block::expanded;
use crate::datatypes::{
    canonical_form, hypothesis_type, induction, injective, member_equation, new_equation,
    no_confusion,
};
use crate::environment::EnvV;
use crate::expression::ExprV;
use crate::project::ProjectV;
use crate::proposition::PropositionV;
use crate::statement::StatementV;
use crate::token::{Range, TokenV};
use crate::typedef::{
    constructor_types, field_types, getter_types, member_fns, member_name, name_tokens,
    struct_scope, struct_step, with_confusions, with_confusions_of, with_inductive_claims,
    with_injections, with_member_equations, with_type_claim,
};

verus! {

/// Whether one environment has the nodes of another, and after them only claims that need no
/// proof.
pub open spec fn only_adds_claims(env: EnvV, after: EnvV) -> bool {
    &&& env.nodes.len() <= after.nodes.len()
    &&& forall|i: int| 0 <= i < env.nodes.len() ==> #[trigger] after.nodes[i] == env.nodes[i]
    &&& forall|i: int|
        env.nodes.len() <= i < after.nodes.len() ==> (#[trigger] after.nodes[i]).structural
            && after.nodes[i].block is None
    &&& after.bindings == env.bindings
}

/// Whether a claim is among those that were added to an environment.
pub open spec fn is_added(env: EnvV, after: EnvV, p: ProjectV, claim: ValueV) -> bool {
    exists|i: int|
        env.nodes.len() <= i < after.nodes.len() && (#[trigger] after.nodes[i]).claim.value
            == expanded(after.bindings, p, claim)
}

proof fn lemma_added_later(a: EnvV, b: EnvV, c: EnvV, p: ProjectV, claim: ValueV)
    requires
        only_adds_claims(a, b),
        only_adds_claims(b, c),
    ensures
        only_adds_claims(a, c),
        is_added(a, b, p, claim) ==> is_added(a, c, p, claim),
        is_added(b, c, p, claim) ==> is_added(a, c, p, claim),
{
    assert forall|i: int| 0 <= i < a.nodes.len() implies #[trigger] c.nodes[i] == a.nodes[i] by {
        assert(b.nodes[i] == a.nodes[i]);
    }
    assert forall|i: int| a.nodes.len() <= i < c.nodes.len() implies (
    #[trigger] c.nodes[i]).structural && c.nodes[i].block is None by {
        if i < b.nodes.len() {
            assert(b.nodes[i] == c.nodes[i]);
        }
    }
    if is_added(a, b, p, claim) {
        let i = choose|i: int|
            a.nodes.len() <= i < b.nodes.len() && (#[trigger] b.nodes[i]).claim.value == expanded(
                b.bindings,
                p,
                claim,
            );
        assert(c.nodes[i] == b.nodes[i]);
    }
}

/// One more claim is added.
proof fn lemma_one(env: EnvV, after: EnvV, p: ProjectV, claim: ValueV)
    requires
        after.nodes.len() == env.nodes.len() + 1,
        after.nodes.drop_last() == env.nodes,
        after.nodes.last().structural,
        after.nodes.last().block is None,
        after.nodes.last().claim.value == expanded(env.bindings, p, claim),
        after.bindings == env.bindings,
    ensures
        only_adds_claims(env, after),
        is_added(env, after, p, claim),
{
    assert forall|i: int| 0 <= i < env.nodes.len() implies #[trigger] after.nodes[i]
        == env.nodes[i] by {
        assert(after.nodes.drop_last()[i] == env.nodes[i]);
    }
    assert(after.nodes[env.nodes.len() as int] == after.nodes.last());
}

proof fn lemma_confusions_of(
    env: EnvV,
    p: ProjectV,
    range: Range,
    name: Seq<char>,
    tokens: Seq<TokenV>,
    fns: Seq<ValueV>,
    lists: Seq<Seq<TypeV>>,
    k: int,
    n: nat,
)
    ensures
        ({
            let after = with_confusions_of(env, p, range, name, tokens, fns, lists, k, n);
            &&& only_adds_claims(env, after)
            &&& forall|i: int|
                0 <= i < n ==> is_added(
                    env,
                    after,
                    p,
                    #[trigger] no_confusion(fns[k], lists[k], fns[i], lists[i]),
                )
        }),
    decreases n,
{
    if n > 0 {
        let before = with_confusions_of(
            env, p, range, name, tokens, fns, lists, k, (n - 1) as nat,
        );
        let after = with_confusions_of(env, p, range, name, tokens, fns, lists, k, n);
        lemma_confusions_of(env, p, range, name, tokens, fns, lists, k, (n - 1) as nat);
        assert(after.nodes.drop_last() =~= before.nodes);
        let last = no_confusion(fns[k], lists[k], fns[n - 1], lists[n - 1]);
        lemma_one(before, after, p, last);
        lemma_added_later(env, before, after, p, last);
        assert forall|i: int| 0 <= i < n implies is_added(
            env,
            after,
            p,
            #[trigger] no_confusion(fns[k], lists[k], fns[i], lists[i]),
        ) by {
            lemma_added_later(
                env, before, after, p, no_confusion(fns[k], lists[k], fns[i], lists[i]),
            );
        }
    }
}

proof fn lemma_confusions(
    env: EnvV,
    p: ProjectV,
    range: Range,
    name: Seq<char>,
    tokens: Seq<TokenV>,
    fns: Seq<ValueV>,
    lists: Seq<Seq<TypeV>>,
    n: nat,
)
    ensures
        ({
            let after = with_confusions(env, p, range, name, tokens, fns, lists, n);
            &&& only_adds_claims(env, after)
            &&& forall|i: int, j: int|
                0 <= i < j < n ==> is_added(
                    env,
                    after,
                    p,
                    #[trigger] no_confusion(fns[j], lists[j], fns[i], lists[i]),
                )
        }),
    decreases n,
{
    if n > 0 {
        let k = n - 1;
        let before = with_confusions(env, p, range, name, tokens, fns, lists, k as nat);
        let after = with_confusions(env, p, range, name, tokens, fns, lists, n);
        lemma_confusions(env, p, range, name, tokens, fns, lists, k as nat);
        lemma_confusions_of(before, p, range, name, tokens, fns, lists, k, k as nat);
        lemma_added_later(env, before, after, p, fns[0]);
        assert forall|i: int, j: int| 0 <= i < j < n implies is_added(
            env,
            after,
            p,
            #[trigger] no_confusion(fns[j], lists[j], fns[i], lists[i]),
        ) by {
            lemma_added_later(
                env, before, after, p, no_confusion(fns[j], lists[j], fns[i], lists[i]),
            );
        }
    }
}

proof fn lemma_injections(
    env: EnvV,
    p: ProjectV,
    range: Range,
    name: Seq<char>,
    tokens: Seq<TokenV>,
    fns: Seq<ValueV>,
    lists: Seq<Seq<TypeV>>,
    n: nat,
)
    ensures
        ({
            let after = with_injections(env, p, range, name, tokens, fns, lists, n);
            &&& only_adds_claims(env, after)
            &&& forall|i: int|
                0 <= i < n && lists[i].len() > 0 ==> is_added(
                    env,
                    after,
                    p,
                    #[trigger] injective(fns[i], lists[i]),
                )
        }),
    decreases n,
{
    if n > 0 {
        let before = with_injections(env, p, range, name, tokens, fns, lists, (n - 1) as nat);
        let after = with_injections(env, p, range, name, tokens, fns, lists, n);
        lemma_injections(env, p, range, name, tokens, fns, lists, (n - 1) as nat);
        let last = injective(fns[n - 1], lists[n - 1]);
        if lists[n - 1].len() > 0 {
            assert(after.nodes.drop_last() =~= before.nodes);
            lemma_one(before, after, p, last);
            lemma_added_later(env, before, after, p, last);
        }
        assert forall|i: int| 0 <= i < n && lists[i].len() > 0 implies is_added(
            env,
            after,
            p,
            #[trigger] injective(fns[i], lists[i]),
        ) by {
            if lists[n - 1].len() > 0 {
                lemma_added_later(env, before, after, p, injective(fns[i], lists[i]));
            }
        }
    }
}

/// Of an inductive type it is claimed that different constructors give different elements, that
/// every element is made by a constructor, that constructors with arguments keep them apart, and
/// that induction holds: for every pair and every constructor, without proof, and nothing that
/// was there before is lost.
pub proof fn law_inductive_types_are_free(
    env: EnvV,
    p: ProjectV,
    s: StatementV,
    name: Seq<char>,
    name_token: TokenV,
    tokens: Seq<TokenV>,
    lists: Seq<Seq<TypeV>>,
)
    ensures
        ({
            let t = TypeV::Data(env.bindings.module, name);
            let fns = member_fns(env.bindings.module, name, tokens, constructor_types(t, lists));
            let after = with_inductive_claims(env, p, s, name, name_token, tokens, lists);
            &&& only_adds_claims(env, after)
            &&& forall|i: int, j: int|
                0 <= i < j < tokens.len() ==> is_added(
                    env,
                    after,
                    p,
                    #[trigger] no_confusion(fns[j], lists[j], fns[i], lists[i]),
                )
            &&& is_added(env, after, p, canonical_form(t, fns, lists))
            &&& forall|i: int|
                0 <= i < tokens.len() && lists[i].len() > 0 ==> is_added(
                    env,
                    after,
                    p,
                    #[trigger] injective(fns[i], lists[i]),
                )
            &&& is_added(
                env,
                after,
                p,
                forall_of(seq![hypothesis_type(t)], induction(t, fns, lists)),
            )
        }),
{
    let t = TypeV::Data(env.bindings.module, name);
    let fns = member_fns(env.bindings.module, name, tokens, constructor_types(t, lists));
    let range = Range { start: s.first_token.start_pos(), end: name_token.end_pos() };
    let after = with_inductive_claims(env, p, s, name, name_token, tokens, lists);
    let n = tokens.len();
    let env1 = with_confusions(env, p, range, name, tokens, fns, lists, n);
    lemma_confusions(env, p, range, name, tokens, fns, lists, n);
    let form = canonical_form(t, fns, lists);
    let env2 = with_type_claim(env1, p, range, name, "new"@, form);
    assert(env2.nodes.drop_last() =~= env1.nodes);
    lemma_one(env1, env2, p, form);
    let env3 = with_injections(env2, p, range, name, tokens, fns, lists, n);
    lemma_injections(env2, p, range, name, tokens, fns, lists, n);
    let all = forall_of(seq![hypothesis_type(t)], induction(t, fns, lists));
    assert(after.nodes.drop_last() =~= env3.nodes);
    lemma_one(env3, after, p, all);
    lemma_added_later(env2, env3, after, p, all);
    lemma_added_later(env1, env2, after, p, form);
    lemma_added_later(env, env1, after, p, form);
    lemma_added_later(env1, env2, after, p, all);
    lemma_added_later(env, env1, after, p, all);
    assert forall|i: int, j: int| 0 <= i < j < tokens.len() implies is_added(
        env,
        after,
        p,
        #[trigger] no_confusion(fns[j], lists[j], fns[i], lists[i]),
    ) by {
        lemma_added_later(
            env, env1, after, p, no_confusion(fns[j], lists[j], fns[i], lists[i]),
        );
    }
    assert forall|i: int| 0 <= i < tokens.len() && lists[i].len() > 0 implies is_added(
        env,
        after,
        p,
        #[trigger] injective(fns[i], lists[i]),
    ) by {
        let claim = injective(fns[i], lists[i]);
        lemma_added_later(env2, env3, after, p, claim);
        lemma_added_later(env1, env2, after, p, claim);
        lemma_added_later(env, env1, after, p, claim);
    }
}

proof fn lemma_member_equations(
    env: EnvV,
    p: ProjectV,
    name: Seq<char>,
    fields: Seq<(TokenV, ExprV)>,
    types: Seq<TypeV>,
    new_fn: ValueV,
    getters: Seq<ValueV>,
    n: nat,
)
    requires
        n <= fields.len(),
    ensures
        ({
            let after = with_member_equations(env, p, name, fields, types, new_fn, getters, n);
            &&& only_adds_claims(env, after)
            &&& forall|i: int|
                0 <= i < n ==> is_added(
                    env,
                    after,
                    p,
                    #[trigger] member_equation(types, new_fn, getters[i], i),
                )
        }),
    decreases n,
{
    if n > 0 {
        let before = with_member_equations(
            env, p, name, fields, types, new_fn, getters, (n - 1) as nat,
        );
        let after = with_member_equations(env, p, name, fields, types, new_fn, getters, n);
        lemma_member_equations(env, p, name, fields, types, new_fn, getters, (n - 1) as nat);
        assert(after.nodes.drop_last() =~= before.nodes);
        let last = member_equation(types, new_fn, getters[n - 1], n - 1);
        lemma_one(before, after, p, last);
        lemma_added_later(env, before, after, p, last);
        assert forall|i: int| 0 <= i < n implies is_added(
            env,
            after,
            p,
            #[trigger] member_equation(types, new_fn, getters[i], i),
        ) by {
            lemma_added_later(
                env, before, after, p, member_equation(types, new_fn, getters[i], i),
            );
        }
    }
}

/// Of a structure it is claimed that each element is made of its fields, and that each field is
/// what was put in: for every field, without proof.
pub proof fn law_structures_have_all_their_fields(
    env: EnvV,
    p: ProjectV,
    s: StatementV,
    name: Seq<char>,
    name_token: TokenV,
    fields: Seq<(TokenV, ExprV)>,
)
    requires
        struct_step(env, p, s, name, name_token, fields).1 is Ok,
    ensures
        ({
            let module = env.bindings.module;
            let t = TypeV::Data(module, name);
            let after = struct_step(env, p, s, name, name_token, fields).0;
            let types = field_types(env.bindings, p, fields, fields.len())->Ok_0;
            let getters = member_fns(module, name, name_tokens(fields), getter_types(t, types));
            let new_fn = ValueV::Constant(
                module,
                member_name(name, "new"@),
                functional(types, t),
                Seq::empty(),
            );
            let start = env.with_bindings(after.bindings);
            &&& field_types(env.bindings, p, fields, fields.len()) is Ok
            &&& only_adds_claims(start, after)
            &&& is_added(start, after, p, new_equation(t, new_fn, getters))
            &&& forall|i: int|
                0 <= i < fields.len() ==> is_added(
                    start,
                    after,
                    p,
                    #[trigger] member_equation(types, new_fn, getters[i], i),
                )
        }),
{
    reveal(struct_step);
    let module = env.bindings.module;
    let t = TypeV::Data(module, name);
    let after = struct_step(env, p, s, name, name_token, fields).0;
    let types = field_types(env.bindings, p, fields, fields.len())->Ok_0;
    let tokens = name_tokens(fields);
    let getters = member_fns(module, name, tokens, getter_types(t, types));
    let new_fn = ValueV::Constant(
        module,
        member_name(name, "new"@),
        functional(types, t),
        Seq::empty(),
    );
    let b = struct_scope(env.bindings, name, name_token, tokens, types)->Ok_0;
    let start = env.with_bindings(b);
    let range = Range { start: s.first_token.start_pos(), end: name_token.end_pos() };
    let first = new_equation(t, new_fn, getters);
    let env1 = start.with_node(
        p,
        true,
        PropositionV::type_definition(first, env.module_id, range, name, "new"@),
        None,
    );
    assert(env1.nodes.drop_last() =~= start.nodes);
    lemma_one(start, env1, p, first);
    lemma_member_equations(env1, p, name, fields, types, new_fn, getters, fields.len());
    lemma_added_later(start, env1, after, p, first);
    assert forall|i: int| 0 <= i < fields.len() implies is_added(
        start,
        after,
        p,
        #[trigger] member_equation(types, new_fn, getters[i], i),
    ) by {
        lemma_added_later(start, env1, after, p, member_equation(types, new_fn, getters[i], i));
    }
}

} // verus!
