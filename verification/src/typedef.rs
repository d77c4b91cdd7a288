//! Statements that define types: structures and inductive types.

use vstd::prelude::*;

use crate::acorn_type::{functional, AcornType, ModuleId, TypeV};
use crate::acorn_value::{forall_of, lambda, value_type, AcornValue, ValueV};
use crate::binding_map::{eval_type, eval_types, text3, BindingMap, BindingMapV};
use crate::compilation::{Error, ErrorV};
use crate::datatypes::{
    canonical_form, hypothesis_type, induction, injective, make_canonical_form,
    make_hypothesis_type, make_induction, make_injective, make_member_equation,
    make_new_equation, make_no_confusion, member_equation, new_equation, no_confusion, type_lists,
};
use crate::declare::{done, failed, is_magic_name, magic_name, met, new_reserved, reserved, Step};
use crate::environment::{lemma_env_view, EnvV, Environment};
use crate::expression::{expr_last_token, ExprV, Expression};
use crate::project::{Project, ProjectV};
use crate::proposition::{Proposition, PropositionV};
use crate::statement::{
    constructors_view, InductiveStatement, Statement, StatementV, StructStatement,
};
use crate::table::{duplicate_all, holds};
use crate::text::views;
use crate::token::{Range, Token, TokenV};

verus! {

/// The full name of a member of a type.
pub open spec fn member_name(typename: Seq<char>, member: Seq<char>) -> Seq<char> {
    typename + "."@ + member
}

/// The types of the first `n` fields of a structure.
pub open spec fn field_types(
    b: BindingMapV,
    p: ProjectV,
    fields: Seq<(TokenV, ExprV)>,
    n: nat,
) -> Result<Seq<TypeV>, ErrorV>
    decreases n,
{
    if n == 0 || n > fields.len() {
        Ok(Seq::empty())
    } else {
        match field_types(b, p, fields, (n - 1) as nat) {
            Err(e) => Err(e),
            Ok(types) => match eval_type(b, p, fields[n - 1].1) {
                Err(e) => Err(e),
                Ok(t) => if magic_name(fields[n - 1].0.text) {
                    Err(reserved(fields[n - 1].0, fields[n - 1].0.text))
                } else {
                    Ok(types.push(t))
                },
            },
        }
    }
}

/// The error for a member that is there already.
pub open spec fn member_in_use(token: TokenV, full: Seq<char>) -> ErrorV {
    ErrorV::at(token, "member name '"@ + full + "' already defined in this scope"@)
}

/// The scope with constants for the first `n` members of a type.
pub open spec fn with_members(
    b: BindingMapV,
    typename: Seq<char>,
    tokens: Seq<TokenV>,
    types: Seq<TypeV>,
    n: nat,
) -> Result<BindingMapV, ErrorV>
    decreases n,
{
    if n == 0 || n > tokens.len() {
        Ok(b)
    } else {
        match with_members(b, typename, tokens, types, (n - 1) as nat) {
            Err(e) => Err(e),
            Ok(b1) => {
                let full = member_name(typename, tokens[n - 1].text);
                if b1.in_use(full) {
                    Err(member_in_use(tokens[n - 1], full))
                } else {
                    Ok(b1.with_constant(full, Seq::empty(), types[n - 1], None))
                }
            },
        }
    }
}

/// The constants for the members of a type.
pub open spec fn member_fns(
    module: ModuleId,
    typename: Seq<char>,
    tokens: Seq<TokenV>,
    types: Seq<TypeV>,
) -> Seq<ValueV> {
    Seq::new(
        tokens.len(),
        |i: int|
            ValueV::Constant(
                module,
                member_name(typename, tokens[i].text),
                types[i],
                Seq::empty(),
            ),
    )
}

/// The types of the functions from a structure to its fields.
pub open spec fn getter_types(t: TypeV, types: Seq<TypeV>) -> Seq<TypeV> {
    Seq::new(types.len(), |i: int| functional(seq![t], types[i]))
}

/// The tokens of pairs with a token.
pub open spec fn name_tokens<A>(s: Seq<(TokenV, A)>) -> Seq<TokenV> {
    Seq::new(s.len(), |i: int| s[i].0)
}

/// The environment with the equations for the first `n` fields of a structure.
pub open spec fn with_member_equations(
    env: EnvV,
    p: ProjectV,
    name: Seq<char>,
    fields: Seq<(TokenV, ExprV)>,
    types: Seq<TypeV>,
    new_fn: ValueV,
    getters: Seq<ValueV>,
    n: nat,
) -> EnvV
    decreases n,
{
    if n == 0 || n > fields.len() {
        env
    } else {
        let range = Range {
            start: fields[n - 1].0.start_pos(),
            end: expr_last_token(fields[n - 1].1).end_pos(),
        };
        with_member_equations(
            env,
            p,
            name,
            fields,
            types,
            new_fn,
            getters,
            (n - 1) as nat,
        ).with_node(
            p,
            true,
            PropositionV::type_definition(
                member_equation(types, new_fn, getters[n - 1], n - 1),
                env.module_id,
                range,
                name,
                fields[n - 1].0.text,
            ),
            None,
        )
    }
}

/// The scope with a structure, its fields and the function that makes it.
pub open spec fn struct_scope(
    b: BindingMapV,
    name: Seq<char>,
    name_token: TokenV,
    tokens: Seq<TokenV>,
    types: Seq<TypeV>,
) -> Result<BindingMapV, ErrorV> {
    let t = TypeV::Data(b.module, name);
    match with_members(
        b.with_data_type(name),
        name,
        tokens,
        getter_types(t, types),
        tokens.len(),
    ) {
        Err(e) => Err(e),
        Ok(b1) => if b1.in_use(member_name(name, "new"@)) {
            Err(member_in_use(name_token, member_name(name, "new"@)))
        } else {
            Ok(
                b1.with_constant(
                    member_name(name, "new"@),
                    Seq::empty(),
                    functional(types, t),
                    None,
                ),
            )
        },
    }
}

/// What the definition of a structure does.
#[verifier::opaque]
pub open spec fn struct_step(
    env: EnvV,
    p: ProjectV,
    s: StatementV,
    name: Seq<char>,
    name_token: TokenV,
    fields: Seq<(TokenV, ExprV)>,
) -> Step {
    if env.bindings.in_use(name) {
        failed(env, ErrorV::at(s.first_token, "type name already defined in this scope"@))
    } else {
        match field_types(env.bindings, p, fields, fields.len()) {
            Err(e) => failed(env, e),
            Ok(types) => {
                let tokens = name_tokens(fields);
                match struct_scope(env.bindings, name, name_token, tokens, types) {
                    Err(e) => failed(env, e),
                    Ok(b) => {
                        let module = env.bindings.module;
                        let t = TypeV::Data(module, name);
                        let getters = member_fns(module, name, tokens, getter_types(t, types));
                        let new_fn = ValueV::Constant(
                            module,
                            member_name(name, "new"@),
                            functional(types, t),
                            Seq::empty(),
                        );
                        let range = Range {
                            start: s.first_token.start_pos(),
                            end: name_token.end_pos(),
                        };
                        let env1 = env.with_bindings(b).with_node(
                            p,
                            true,
                            PropositionV::type_definition(
                                new_equation(t, new_fn, getters),
                                env.module_id,
                                range,
                                name,
                                "new"@,
                            ),
                            None,
                        );
                        done(
                            with_member_equations(
                                env1,
                                p,
                                name,
                                fields,
                                types,
                                new_fn,
                                getters,
                                fields.len(),
                            ),
                        )
                    },
                }
            },
        }
    }
}

proof fn lemma_fields_fail(b: BindingMapV, p: ProjectV, fields: Seq<(TokenV, ExprV)>, i: nat, n: nat)
    requires
        i <= n <= fields.len(),
        field_types(b, p, fields, i) is Err,
    ensures
        field_types(b, p, fields, n) == field_types(b, p, fields, i),
    decreases n,
{
    if i < n {
        lemma_fields_fail(b, p, fields, i, (n - 1) as nat);
    }
}

proof fn lemma_members_fail(
    b: BindingMapV,
    typename: Seq<char>,
    tokens: Seq<TokenV>,
    types: Seq<TypeV>,
    i: nat,
    n: nat,
)
    requires
        i <= n <= tokens.len(),
        with_members(b, typename, tokens, types, i) is Err,
    ensures
        with_members(b, typename, tokens, types, n) == with_members(
            b,
            typename,
            tokens,
            types,
            i,
        ),
    decreases n,
{
    if i < n {
        lemma_members_fail(b, typename, tokens, types, i, (n - 1) as nat);
    }
}

fn find_field_types(bindings: &BindingMap, project: &Project, fields: &Vec<(Token, Expression)>) -> (r:
    Result<Vec<AcornType>, Error>)
    ensures
        match r {
            Ok(ts) => field_types(bindings@, project@, views(fields@), fields@.len()) == Ok::<
                Seq<TypeV>,
                ErrorV,
            >(views(ts@)) && ts.len() == fields.len(),
            Err(e) => field_types(bindings@, project@, views(fields@), fields@.len()) == Err::<
                Seq<TypeV>,
                ErrorV,
            >(e@),
        },
{
    broadcast use crate::text::group_views;
    let ghost fv = views(fields@);
    let mut types: Vec<AcornType> = Vec::new();
    let mut i: usize = 0;
    while i < fields.len()
        invariant
            i <= fields.len(),
            types.len() == i,
            fv == views(fields@),
            field_types(bindings@, project@, fv, i as nat) == Ok::<Seq<TypeV>, ErrorV>(
                views(types@),
            ),
        decreases fields.len() - i,
    {
        broadcast use crate::text::group_views;
        let field = &fields[i];
        assert(fv[i as int] == (field.0@, field.1@));
        match bindings.evaluate_type(project, &field.1) {
            Err(e) => {
                proof {
                    lemma_fields_fail(bindings@, project@, fv, (i + 1) as nat, fields@.len());
                }
                return Err(e);
            },
            Ok(t) => {
                if is_magic_name(field.0.text()) {
                    proof {
                        lemma_fields_fail(bindings@, project@, fv, (i + 1) as nat, fields@.len());
                    }
                    return Err(new_reserved(&field.0, field.0.text()));
                }
                types.push(t);
            },
        }
        i = i + 1;
    }
    Ok(types)
}

fn new_member_in_use(token: &Token, full: &str) -> (r: Error)
    ensures
        r@ == member_in_use(token@, full@),
{
    Error::at(token, text3("member name '", full, "' already defined in this scope").as_str())
}

fn make_member_name(typename: &str, member: &str) -> (r: String)
    ensures
        r@ == member_name(typename@, member@),
{
    text3(typename, ".", member)
}

fn new_constant(module: ModuleId, name: String, t: AcornType) -> (r: AcornValue)
    ensures
        r@ == ValueV::Constant(module, name@, t@, Seq::empty()),
{
    let none: Vec<String> = Vec::new();
    assert(views(none@) =~= Seq::<Seq<char>>::empty());
    AcornValue::Constant(module, name, t, none)
}

// Adds constants for members, and gives their values.
fn add_members(
    bindings: &mut BindingMap,
    typename: &str,
    tokens: &Vec<&Token>,
    types: &Vec<AcornType>,
) -> (r: Result<Vec<AcornValue>, Error>)
    requires
        tokens.len() == types.len(),
    ensures
        match r {
            Ok(fns) => with_members(
                old(bindings)@,
                typename@,
                views(tokens@),
                views(types@),
                tokens@.len(),
            ) == Ok::<BindingMapV, ErrorV>(final(bindings)@) && views(fns@) == member_fns(
                old(bindings)@.module,
                typename@,
                views(tokens@),
                views(types@),
            ) && fns.len() == tokens.len() && final(bindings)@.module == old(bindings)@.module,
            Err(e) => with_members(
                old(bindings)@,
                typename@,
                views(tokens@),
                views(types@),
                tokens@.len(),
            ) == Err::<BindingMapV, ErrorV>(e@),
        },
{
    let ghost tv = views(tokens@);
    let ghost yv = views(types@);
    let ghost expected = member_fns(old(bindings)@.module, typename@, tv, yv);
    let module = bindings.module();
    let mut fns: Vec<AcornValue> = Vec::new();
    let mut i: usize = 0;
    while i < tokens.len()
        invariant
            i <= tokens.len() == types.len(),
            fns.len() == i,
            tv == views(tokens@),
            yv == views(types@),
            module == old(bindings)@.module == bindings@.module,
            expected == member_fns(module, typename@, tv, yv),
            with_members(old(bindings)@, typename@, tv, yv, i as nat) == Ok::<
                BindingMapV,
                ErrorV,
            >(bindings@),
            forall|k: int| 0 <= k < i ==> (#[trigger] fns@[k])@ == expected[k],
        decreases tokens.len() - i,
    {
        let token = tokens[i];
        assert(tv[i as int] == token@);
        assert(yv[i as int] == types@[i as int]@);
        let full = make_member_name(typename, token.text());
        if bindings.name_in_use(full.as_str()) {
            proof {
                lemma_members_fail(
                    old(bindings)@,
                    typename@,
                    tv,
                    yv,
                    (i + 1) as nat,
                    tokens@.len(),
                );
            }
            return Err(new_member_in_use(token, full.as_str()));
        }
        let none: Vec<String> = Vec::new();
        assert(views(none@) =~= Seq::<Seq<char>>::empty());
        bindings.add_constant(full.as_str(), none, types[i].clone(), None);
        fns.push(new_constant(module, full, types[i].clone()));
        i = i + 1;
    }
    assert(views(fns@) =~= expected);
    Ok(fns)
}

fn make_getter_types(t: &AcornType, types: &Vec<AcornType>) -> (r: Vec<AcornType>)
    ensures
        views(r@) == getter_types(t@, views(types@)),
        r.len() == types.len(),
{
    let ghost expected = getter_types(t@, views(types@));
    let mut out: Vec<AcornType> = Vec::new();
    let mut i: usize = 0;
    while i < types.len()
        invariant
            i <= types.len(),
            out.len() == i,
            expected == getter_types(t@, views(types@)),
            forall|k: int| 0 <= k < i ==> (#[trigger] out@[k])@ == expected[k],
        decreases types.len() - i,
    {
        let mut one: Vec<AcornType> = Vec::new();
        one.push(t.clone());
        assert(views(one@) =~= seq![t@]);
        out.push(AcornType::new_functional(one, types[i].clone()));
        i = i + 1;
    }
    assert(views(out@) =~= expected);
    out
}

fn field_tokens(fields: &Vec<(Token, Expression)>) -> (r: Vec<&Token>)
    ensures
        views(r@) == name_tokens(views(fields@)),
        r.len() == fields.len(),
{
    let mut out: Vec<&Token> = Vec::new();
    let mut i: usize = 0;
    while i < fields.len()
        invariant
            i <= fields.len(),
            out.len() == i,
            forall|k: int| 0 <= k < i ==> (#[trigger] out@[k])@ == fields@[k].0@,
        decreases fields.len() - i,
    {
        out.push(&fields[i].0);
        i = i + 1;
    }
    assert(views(out@) =~= name_tokens(views(fields@)));
    out
}

impl Environment {
    /// Adds the definition of a structure.
    pub(crate) fn add_struct_statement(
        &mut self,
        project: &Project,
        statement: &Statement,
        ss: &StructStatement,
    ) -> (r: Result<(), Error>)
        ensures
            met(
                struct_step(
                    old(self)@,
                    project@,
                    statement@,
                    ss.name@,
                    ss.name_token@,
                    views(ss.fields@),
                ),
                final(self)@,
                r,
            ),
    {
        broadcast use crate::statement::lemma_statement_ends;
        reveal(struct_step);
        proof {
            lemma_env_view(*self);
        }
        let ghost fv = views(ss.fields@);
        let name = ss.name.as_str();
        if self.bindings.name_in_use(name) {
            return Err(
                Error::at(&statement.first_token, "type name already defined in this scope"),
            );
        }
        // Parse the fields before adding the struct type so that we can't have
        // self-referential structs.
        let types = match find_field_types(&self.bindings, project, &ss.fields) {
            Err(e) => {
                return Err(e);
            },
            Ok(ts) => ts,
        };
        // The member functions take the type itself to a particular member.
        let mut bindings = self.bindings.copy();
        let module = bindings.module();
        let struct_type = bindings.add_data_type(name);
        let tokens = field_tokens(&ss.fields);
        let getter_type_list = make_getter_types(&struct_type, &types);
        let getters = match add_members(&mut bindings, name, &tokens, &getter_type_list) {
            Err(e) => {
                return Err(e);
            },
            Ok(fns) => fns,
        };
        // A "new" function to create one of these struct types.
        let new_name = make_member_name(name, "new");
        if bindings.name_in_use(new_name.as_str()) {
            return Err(new_member_in_use(&ss.name_token, new_name.as_str()));
        }
        let new_type = AcornType::new_functional(duplicate_all(&types), struct_type.clone());
        let none: Vec<String> = Vec::new();
        assert(views(none@) =~= Seq::<Seq<char>>::empty());
        bindings.add_constant(new_name.as_str(), none, new_type.clone(), None);
        let new_fn = new_constant(module, new_name, new_type);
        self.bindings = bindings;
        proof {
            lemma_env_view(*self);
            assert(self@ == old(self)@.with_bindings(self@.bindings));
        }
        let range = Range {
            start: statement.first_token.start_pos(),
            end: ss.name_token.end_pos(),
        };
        let claim = make_new_equation(&struct_type, &new_fn, &getters);
        let prop = Proposition::type_definition(
            claim,
            self.module_id,
            range,
            ss.name.clone(),
            "new".to_owned(),
        );
        let _ = self.add_node(project, true, prop, None);
        self.add_member_equations(project, ss, &types, &new_fn, &getters);
        Ok(())
    }

    fn add_member_equations(
        &mut self,
        project: &Project,
        ss: &StructStatement,
        types: &Vec<AcornType>,
        new_fn: &AcornValue,
        getters: &Vec<AcornValue>,
    )
        requires
            types.len() == ss.fields.len(),
            getters.len() == ss.fields.len(),
        ensures
            final(self)@ == with_member_equations(
                old(self)@,
                project@,
                ss.name@,
                views(ss.fields@),
                views(types@),
                new_fn@,
                views(getters@),
                ss.fields@.len(),
            ),
    {
        let ghost fv = views(ss.fields@);
        proof {
            lemma_env_view(*self);
        }
        let module = self.module_id;
        let mut i: usize = 0;
        while i < ss.fields.len()
            invariant
                i <= ss.fields.len(),
                types.len() == ss.fields.len(),
                getters.len() == ss.fields.len(),
                fv == views(ss.fields@),
                module == old(self)@.module_id,
                self@ == with_member_equations(
                    old(self)@,
                    project@,
                    ss.name@,
                    fv,
                    views(types@),
                    new_fn@,
                    views(getters@),
                    i as nat,
                ),
            decreases ss.fields.len() - i,
        {
            let field = &ss.fields[i];
            assert(fv[i as int] == (field.0@, field.1@));
            assert(views(getters@)[i as int] == getters@[i as int]@);
            let claim = make_member_equation(types, new_fn, &getters[i], i);
            let range = Range {
                start: field.0.start_pos(),
                end: field.1.last_token().end_pos(),
            };
            let prop = Proposition::type_definition(
                claim,
                module,
                range,
                ss.name.clone(),
                field.0.text().to_owned(),
            );
            let _ = self.add_node(project, true, prop, None);
            i = i + 1;
        }
    }
}

/// The types of the arguments of a constructor.
pub open spec fn constructor_args(b: BindingMapV, p: ProjectV, e: Option<ExprV>) -> Result<
    Seq<TypeV>,
    ErrorV,
> {
    match e {
        Some(e) => eval_types(b, p, e),
        None => Ok(Seq::empty()),
    }
}

/// The types of the arguments of the first `n` constructors.
pub open spec fn constructor_lists(
    b: BindingMapV,
    p: ProjectV,
    cs: Seq<(TokenV, Option<ExprV>)>,
    n: nat,
) -> Result<Seq<Seq<TypeV>>, ErrorV>
    decreases n,
{
    if n == 0 || n > cs.len() {
        Ok(Seq::empty())
    } else {
        match constructor_lists(b, p, cs, (n - 1) as nat) {
            Err(e) => Err(e),
            Ok(lists) => match constructor_args(b, p, cs[n - 1].1) {
                Err(e) => Err(e),
                Ok(ts) => Ok(lists.push(ts)),
            },
        }
    }
}

/// Whether something of a type can be made without already having one.
pub open spec fn has_base(t: TypeV, lists: Seq<Seq<TypeV>>) -> bool {
    exists|i: int| 0 <= i < lists.len() && !(#[trigger] lists[i]).contains(t)
}

/// The types of constructors.
pub open spec fn constructor_types(t: TypeV, lists: Seq<Seq<TypeV>>) -> Seq<TypeV> {
    Seq::new(lists.len(), |i: int| functional(lists[i], t))
}

/// A part of the definition of an inductive type.
pub open spec fn with_type_claim(
    env: EnvV,
    p: ProjectV,
    range: Range,
    name: Seq<char>,
    member: Seq<char>,
    claim: ValueV,
) -> EnvV {
    env.with_node(
        p,
        true,
        PropositionV::type_definition(claim, env.module_id, range, name, member),
        None,
    )
}

/// The environment in which constructor `k` gives other results than the first `n`.
pub open spec fn with_confusions_of(
    env: EnvV,
    p: ProjectV,
    range: Range,
    name: Seq<char>,
    tokens: Seq<TokenV>,
    fns: Seq<ValueV>,
    lists: Seq<Seq<TypeV>>,
    k: int,
    n: nat,
) -> EnvV
    decreases n,
{
    if n == 0 {
        env
    } else {
        with_type_claim(
            with_confusions_of(env, p, range, name, tokens, fns, lists, k, (n - 1) as nat),
            p,
            range,
            name,
            tokens[k].text,
            no_confusion(fns[k], lists[k], fns[n - 1], lists[n - 1]),
        )
    }
}

/// The environment in which the first `n` constructors give different results.
pub open spec fn with_confusions(
    env: EnvV,
    p: ProjectV,
    range: Range,
    name: Seq<char>,
    tokens: Seq<TokenV>,
    fns: Seq<ValueV>,
    lists: Seq<Seq<TypeV>>,
    n: nat,
) -> EnvV
    decreases n,
{
    if n == 0 {
        env
    } else {
        with_confusions_of(
            with_confusions(env, p, range, name, tokens, fns, lists, (n - 1) as nat),
            p,
            range,
            name,
            tokens,
            fns,
            lists,
            n - 1,
            (n - 1) as nat,
        )
    }
}

/// The environment in which the first `n` constructors are injective, those with arguments.
pub open spec fn with_injections(
    env: EnvV,
    p: ProjectV,
    range: Range,
    name: Seq<char>,
    tokens: Seq<TokenV>,
    fns: Seq<ValueV>,
    lists: Seq<Seq<TypeV>>,
    n: nat,
) -> EnvV
    decreases n,
{
    if n == 0 {
        env
    } else {
        let before = with_injections(env, p, range, name, tokens, fns, lists, (n - 1) as nat);
        if lists[n - 1].len() == 0 {
            before
        } else {
            with_type_claim(
                before,
                p,
                range,
                name,
                tokens[n - 1].text,
                injective(fns[n - 1], lists[n - 1]),
            )
        }
    }
}

/// The scope with an inductive type, its constructors and its principle of induction.
pub open spec fn inductive_scope(
    b: BindingMapV,
    name: Seq<char>,
    name_token: TokenV,
    tokens: Seq<TokenV>,
    lists: Seq<Seq<TypeV>>,
) -> Result<BindingMapV, ErrorV> {
    let t = TypeV::Data(b.module, name);
    let types = constructor_types(t, lists);
    let full = member_name(name, "induction"@);
    match with_members(b, name, tokens, types, tokens.len()) {
        Err(e) => Err(e),
        Ok(b1) => if b1.in_use(full) {
            Err(member_in_use(name_token, full))
        } else {
            let f = lambda(
                seq![hypothesis_type(t)],
                induction(t, member_fns(b.module, name, tokens, types), lists),
            );
            Ok(b1.with_constant(full, Seq::empty(), value_type(f), Some(f)).with_theorem(full))
        },
    }
}

/// What the definition of an inductive type does.
#[verifier::opaque]
pub open spec fn inductive_step(
    env: EnvV,
    p: ProjectV,
    s: StatementV,
    name: Seq<char>,
    name_token: TokenV,
    cs: Seq<(TokenV, Option<ExprV>)>,
) -> Step {
    if env.bindings.in_use(name) {
        failed(env, ErrorV::at(s.first_token, "type name already defined in this scope"@))
    } else {
        // The new type comes first, because it can refer to itself.
        let b = env.bindings.with_data_type(name);
        let env1 = env.with_bindings(b);
        let t = TypeV::Data(b.module, name);
        let tokens = name_tokens(cs);
        match constructor_lists(b, p, cs, cs.len()) {
            Err(e) => failed(env1, e),
            Ok(lists) => if !has_base(t, lists) {
                failed(env1, ErrorV::at(s.first_token, "inductive type must have a base case"@))
            } else {
                match inductive_scope(b, name, name_token, tokens, lists) {
                    Err(e) => failed(env1, e),
                    Ok(b2) => done(
                        with_inductive_claims(env1.with_bindings(b2), p, s, name, name_token, tokens, lists),
                    ),
                }
            },
        }
    }
}

/// The environment with all that is claimed of an inductive type.
pub open spec fn with_inductive_claims(
    env: EnvV,
    p: ProjectV,
    s: StatementV,
    name: Seq<char>,
    name_token: TokenV,
    tokens: Seq<TokenV>,
    lists: Seq<Seq<TypeV>>,
) -> EnvV {
    let module = env.bindings.module;
    let t = TypeV::Data(module, name);
    let fns = member_fns(module, name, tokens, constructor_types(t, lists));
    let range = Range { start: s.first_token.start_pos(), end: name_token.end_pos() };
    let env1 = with_confusions(env, p, range, name, tokens, fns, lists, tokens.len());
    let env2 = with_type_claim(
        env1,
        p,
        range,
        name,
        "new"@,
        canonical_form(t, fns, lists),
    );
    let env3 = with_injections(env2, p, range, name, tokens, fns, lists, tokens.len());
    env3.with_node(
        p,
        true,
        PropositionV::theorem(
            true,
            forall_of(seq![hypothesis_type(t)], induction(t, fns, lists)),
            env.module_id,
            range,
            Some(member_name(name, "induction"@)),
        ),
        None,
    )
}

proof fn lemma_lists_fail(
    b: BindingMapV,
    p: ProjectV,
    cs: Seq<(TokenV, Option<ExprV>)>,
    i: nat,
    n: nat,
)
    requires
        i <= n <= cs.len(),
        constructor_lists(b, p, cs, i) is Err,
    ensures
        constructor_lists(b, p, cs, n) == constructor_lists(b, p, cs, i),
    decreases n,
{
    if i < n {
        lemma_lists_fail(b, p, cs, i, (n - 1) as nat);
    }
}

fn find_constructor_lists(
    bindings: &BindingMap,
    project: &Project,
    cs: &Vec<(Token, Option<Expression>)>,
) -> (r: Result<Vec<Vec<AcornType>>, Error>)
    ensures
        match r {
            Ok(ls) => constructor_lists(
                bindings@,
                project@,
                constructors_view(cs@),
                cs@.len(),
            ) == Ok::<Seq<Seq<TypeV>>, ErrorV>(type_lists(ls@)) && ls.len() == cs.len(),
            Err(e) => constructor_lists(
                bindings@,
                project@,
                constructors_view(cs@),
                cs@.len(),
            ) == Err::<Seq<Seq<TypeV>>, ErrorV>(e@),
        },
{
    let ghost cv = constructors_view(cs@);
    let mut lists: Vec<Vec<AcornType>> = Vec::new();
    assert(type_lists(lists@) =~= Seq::<Seq<TypeV>>::empty());
    let mut i: usize = 0;
    while i < cs.len()
        invariant
            i <= cs.len(),
            lists.len() == i,
            cv == constructors_view(cs@),
            constructor_lists(bindings@, project@, cv, i as nat) == Ok::<
                Seq<Seq<TypeV>>,
                ErrorV,
            >(type_lists(lists@)),
        decreases cs.len() - i,
    {
        let ts = match &cs[i].1 {
            Some(e) => match bindings.evaluate_type_list(project, e) {
                Err(e) => {
                    proof {
                        lemma_lists_fail(bindings@, project@, cv, (i + 1) as nat, cs@.len());
                    }
                    return Err(e);
                },
                Ok(ts) => ts,
            },
            None => {
                let none: Vec<AcornType> = Vec::new();
                assert(views(none@) =~= Seq::<TypeV>::empty());
                none
            },
        };
        let ghost before = lists@;
        lists.push(ts);
        assert(type_lists(lists@) =~= type_lists(before).push(views(ts@)));
        i = i + 1;
    }
    Ok(lists)
}

fn find_base(t: &AcornType, lists: &Vec<Vec<AcornType>>) -> (r: bool)
    ensures
        r == has_base(t@, type_lists(lists@)),
{
    let mut i: usize = 0;
    while i < lists.len()
        invariant
            i <= lists.len(),
            forall|k: int| 0 <= k < i ==> (#[trigger] type_lists(lists@)[k]).contains(t@),
        decreases lists.len() - i,
    {
        assert(type_lists(lists@)[i as int] == views(lists@[i as int]@));
        if !holds(&lists[i], t) {
            return true;
        }
        i = i + 1;
    }
    false
}

fn make_constructor_types(t: &AcornType, lists: &Vec<Vec<AcornType>>) -> (r: Vec<AcornType>)
    ensures
        views(r@) == constructor_types(t@, type_lists(lists@)),
        r.len() == lists.len(),
{
    let ghost expected = constructor_types(t@, type_lists(lists@));
    let mut out: Vec<AcornType> = Vec::new();
    let mut i: usize = 0;
    while i < lists.len()
        invariant
            i <= lists.len(),
            out.len() == i,
            expected == constructor_types(t@, type_lists(lists@)),
            forall|k: int| 0 <= k < i ==> (#[trigger] out@[k])@ == expected[k],
        decreases lists.len() - i,
    {
        assert(type_lists(lists@)[i as int] == views(lists@[i as int]@));
        out.push(AcornType::new_functional(duplicate_all(&lists[i]), t.clone()));
        i = i + 1;
    }
    assert(views(out@) =~= expected);
    out
}

fn constructor_tokens(cs: &Vec<(Token, Option<Expression>)>) -> (r: Vec<&Token>)
    ensures
        views(r@) == name_tokens(constructors_view(cs@)),
        r.len() == cs.len(),
{
    let mut out: Vec<&Token> = Vec::new();
    let mut i: usize = 0;
    while i < cs.len()
        invariant
            i <= cs.len(),
            out.len() == i,
            forall|k: int| 0 <= k < i ==> (#[trigger] out@[k])@ == cs@[k].0@,
        decreases cs.len() - i,
    {
        out.push(&cs[i].0);
        i = i + 1;
    }
    assert(views(out@) =~= name_tokens(constructors_view(cs@)));
    out
}

impl Environment {
    /// Adds the definition of an inductive type.
    pub(crate) fn add_inductive_statement(
        &mut self,
        project: &Project,
        statement: &Statement,
        is: &InductiveStatement,
    ) -> (r: Result<(), Error>)
        ensures
            met(
                inductive_step(
                    old(self)@,
                    project@,
                    statement@,
                    is.name@,
                    is.name_token@,
                    constructors_view(is.constructors@),
                ),
                final(self)@,
                r,
            ),
    {
        broadcast use crate::statement::lemma_statement_ends;
        reveal(inductive_step);
        proof {
            lemma_env_view(*self);
        }
        let name = is.name.as_str();
        if self.bindings.name_in_use(name) {
            return Err(
                Error::at(&statement.first_token, "type name already defined in this scope"),
            );
        }
        // Add the new type first, because we can have self-reference in the inductive type.
        let inductive_type = self.bindings.add_data_type(name);
        proof {
            lemma_env_view(*self);
            assert(self@ == old(self)@.with_bindings(self@.bindings));
        }
        // Parse the list of arg types for each constructor.
        let lists = match find_constructor_lists(&self.bindings, project, &is.constructors) {
            Err(e) => {
                return Err(e);
            },
            Ok(ls) => ls,
        };
        if !find_base(&inductive_type, &lists) {
            return Err(
                Error::at(&statement.first_token, "inductive type must have a base case"),
            );
        }
        // Define the constructors.
        let mut bindings = self.bindings.copy();
        let tokens = constructor_tokens(&is.constructors);
        let types = make_constructor_types(&inductive_type, &lists);
        let fns = match add_members(&mut bindings, name, &tokens, &types) {
            Err(e) => {
                return Err(e);
            },
            Ok(fns) => fns,
        };
        // The lambda form is the functional form, which we bind in the environment.
        let full = make_member_name(name, "induction");
        if bindings.name_in_use(full.as_str()) {
            return Err(new_member_in_use(&is.name_token, full.as_str()));
        }
        let unbound_claim = make_induction(&inductive_type, &fns, &lists);
        let hyp_type = make_hypothesis_type(&inductive_type);
        let mut hyp_types: Vec<AcornType> = Vec::new();
        hyp_types.push(hyp_type);
        assert(views(hyp_types@) =~= seq![hyp_type@]);
        let lambda_claim = AcornValue::new_lambda(
            duplicate_all(&hyp_types),
            unbound_claim.clone(),
        );
        let none: Vec<String> = Vec::new();
        assert(views(none@) =~= Seq::<Seq<char>>::empty());
        let lambda_type = lambda_claim.get_type();
        bindings.add_constant(full.as_str(), none, lambda_type, Some(lambda_claim));
        bindings.mark_as_theorem(full.as_str());
        self.bindings = bindings;
        proof {
            lemma_env_view(*self);
            assert(self@ == old(self)@.with_bindings(self@.bindings));
        }
        let module_id = self.module_id;
        let range = Range {
            start: statement.first_token.start_pos(),
            end: is.name_token.end_pos(),
        };
        self.add_confusions(project, range, is.name.as_str(), &tokens, &fns, &lists);
        // The "canonical form" principle. Any item of this type must be created by one
        // of the constructors.
        self.add_type_claim(
            project,
            range,
            is.name.as_str(),
            "new",
            make_canonical_form(&inductive_type, &fns, &lists),
        );
        self.add_injections(project, range, is.name.as_str(), &tokens, &fns, &lists);
        // The forall form is the anonymous truth of induction. We add that as a proposition.
        let forall_claim = AcornValue::new_forall(hyp_types, unbound_claim);
        let prop = Proposition::theorem(true, forall_claim, module_id, range, Some(full));
        let _ = self.add_node(project, true, prop, None);
        Ok(())
    }

    fn add_type_claim(
        &mut self,
        project: &Project,
        range: Range,
        name: &str,
        member: &str,
        claim: AcornValue,
    )
        ensures
            final(self)@ == with_type_claim(
                old(self)@,
                project@,
                range,
                name@,
                member@,
                claim@,
            ),
    {
        proof {
            lemma_env_view(*self);
        }
        let prop = Proposition::type_definition(
            claim,
            self.module_id,
            range,
            name.to_owned(),
            member.to_owned(),
        );
        let _ = self.add_node(project, true, prop, None);
    }

    // The "no confusion" property. Different constructors give different results.
    fn add_confusions(
        &mut self,
        project: &Project,
        range: Range,
        name: &str,
        tokens: &Vec<&Token>,
        fns: &Vec<AcornValue>,
        lists: &Vec<Vec<AcornType>>,
    )
        requires
            tokens.len() == fns.len() == lists.len(),
        ensures
            final(self)@ == with_confusions(
                old(self)@,
                project@,
                range,
                name@,
                views(tokens@),
                views(fns@),
                type_lists(lists@),
                tokens@.len(),
            ),
    {
        let ghost tv = views(tokens@);
        let ghost fv = views(fns@);
        let ghost lv = type_lists(lists@);
        let mut i: usize = 0;
        while i < fns.len()
            invariant
                i <= fns.len(),
                tokens.len() == fns.len() == lists.len(),
                tv == views(tokens@),
                fv == views(fns@),
                lv == type_lists(lists@),
                self@ == with_confusions(
                    old(self)@,
                    project@,
                    range,
                    name@,
                    tv,
                    fv,
                    lv,
                    i as nat,
                ),
            decreases fns.len() - i,
        {
            let ghost start = self@;
            let mut j: usize = 0;
            while j < i
                invariant
                    j <= i < fns.len(),
                    tokens.len() == fns.len() == lists.len(),
                    tv == views(tokens@),
                    fv == views(fns@),
                    lv == type_lists(lists@),
                    self@ == with_confusions_of(
                        start,
                        project@,
                        range,
                        name@,
                        tv,
                        fv,
                        lv,
                        i as int,
                        j as nat,
                    ),
                decreases i - j,
            {
                assert(tv[i as int] == tokens@[i as int]@);
                assert(fv[i as int] == fns@[i as int]@ && fv[j as int] == fns@[j as int]@);
                let claim = make_no_confusion(&fns[i], &lists[i], &fns[j], &lists[j]);
                self.add_type_claim(project, range, name, tokens[i].text(), claim);
                j = j + 1;
            }
            i = i + 1;
        }
    }

    // Each constructor is injective.
    fn add_injections(
        &mut self,
        project: &Project,
        range: Range,
        name: &str,
        tokens: &Vec<&Token>,
        fns: &Vec<AcornValue>,
        lists: &Vec<Vec<AcornType>>,
    )
        requires
            tokens.len() == fns.len() == lists.len(),
        ensures
            final(self)@ == with_injections(
                old(self)@,
                project@,
                range,
                name@,
                views(tokens@),
                views(fns@),
                type_lists(lists@),
                tokens@.len(),
            ),
    {
        let ghost tv = views(tokens@);
        let ghost fv = views(fns@);
        let ghost lv = type_lists(lists@);
        let mut i: usize = 0;
        while i < fns.len()
            invariant
                i <= fns.len(),
                tokens.len() == fns.len() == lists.len(),
                tv == views(tokens@),
                fv == views(fns@),
                lv == type_lists(lists@),
                self@ == with_injections(
                    old(self)@,
                    project@,
                    range,
                    name@,
                    tv,
                    fv,
                    lv,
                    i as nat,
                ),
            decreases fns.len() - i,
        {
            assert(tv[i as int] == tokens@[i as int]@);
            assert(fv[i as int] == fns@[i as int]@);
            assert(lv[i as int] == views(lists@[i as int]@));
            if lists[i].len() > 0 {
                let claim = make_injective(&fns[i], &lists[i]);
                self.add_type_claim(project, range, name, tokens[i].text(), claim);
            }
            i = i + 1;
        }
    }
}

} // verus!
