//! Statements without a block: how each changes an environment.

use vstd::prelude::*;

use crate::acorn_type::{functional, AcornType, ModuleId, TypeV};
use crate::acorn_value::{lambda, value_type, AcornValue, ValueV};
use crate::binding_map::{
    eval_declarations, eval_subvalue, eval_type, eval_value, opt_expr, opt_type, opt_view,
    pushed_all, text3, with_imported, with_params, BindingMap, BindingMapV, Stack, StackV,
    Subvalue, SubvalueV,
};
use crate::block::with_identity;
use crate::compilation::{Error, ErrorV};
use crate::environment::{lemma_env_view, EnvV, Environment};
use crate::expression::{expr_token, ExprV, Expression};
use crate::line_map::LineType;
use crate::project::{Project, ProjectV};
use crate::proposition::{Proposition, PropositionV};
use crate::statement::{
    ClassStatement, DefaultStatement, DefineStatement, ImportStatement, InfoV, LetStatement,
    PropStatement, Statement, StatementInfo, StatementV, TypeStatement,
};
use crate::table::{duplicate_all, Key};
use crate::text::{join, joined, same_text, views};
use crate::token::{Range, Token, TokenType, TokenV};

verus! {

/// What comes of a statement: the environment afterwards, and whether something was wrong.
pub type Step = (EnvV, Result<(), ErrorV>);

/// A step as it was carried out.
pub open spec fn met(step: Step, env: EnvV, r: Result<(), Error>) -> bool {
    &&& env == step.0
    &&& match r {
        Ok(x) => step.1 == Ok::<(), ErrorV>(x),
        Err(e) => step.1 == Err::<(), ErrorV>(e@),
    }
}

/// A step that went well.
pub open spec fn done(env: EnvV) -> Step {
    (env, Ok(()))
}

/// A step that failed.
pub open spec fn failed(env: EnvV, e: ErrorV) -> Step {
    (env, Err(e))
}

impl StatementV {
    /// The stretch that the statement covers.
    pub open spec fn range(self) -> Range {
        Range { start: self.first_token.start_pos(), end: self.last_token.end_pos() }
    }
}

impl EnvV {
    /// The environment in which the lines of a statement are of no special kind.
    pub open spec fn with_other_lines(self, s: StatementV) -> EnvV {
        self.with_lines(LineType::Other, s.first_token.line_number, s.last_token.line_number)
    }

    /// The environment in which the lines of a statement belong to a node.
    pub open spec fn with_prop_lines(self, index: nat, s: StatementV) -> EnvV {
        self.with_lines(
            LineType::Node(index as usize),
            s.first_token.line_number,
            s.last_token.line_number,
        )
    }
}

/// The names of methods that stand for operators.
pub open spec fn magic_name(name: Seq<char>) -> bool {
    name == "add"@ || name == "sub"@ || name == "mul"@ || name == "div"@ || name == "mod"@ || name
        == "lt"@ || name == "gt"@ || name == "lte"@ || name == "gte"@
}

pub(crate) fn is_magic_name(name: &str) -> (r: bool)
    ensures
        r == magic_name(name@),
{
    same_text(name, "add") || same_text(name, "sub") || same_text(name, "mul") || same_text(
        name,
        "div",
    ) || same_text(name, "mod") || same_text(name, "lt") || same_text(name, "gt") || same_text(
        name,
        "lte",
    ) || same_text(name, "gte")
}

/// The error for a name that cannot be given.
pub open spec fn reserved(token: TokenV, name: Seq<char>) -> ErrorV {
    ErrorV::at(token, "'"@ + name + "' is a reserved word. use a different name"@)
}

pub(crate) fn new_reserved(token: &Token, name: &str) -> (r: Error)
    ensures
        r@ == reserved(token@, name@),
{
    Error::at(token, text3("'", name, "' is a reserved word. use a different name").as_str())
}

/// A name inside a class, or one of the scope itself.
pub open spec fn scoped_name(class: Option<Seq<char>>, name: Seq<char>) -> Seq<char> {
    match class {
        Some(c) => c + "."@ + name,
        None => name,
    }
}

/// The view of a text that may be missing.
pub open spec fn opt_text(s: Option<&str>) -> Option<Seq<char>> {
    match s {
        Some(s) => Some(s@),
        None => None,
    }
}

pub(crate) fn make_scoped_name(class: Option<&str>, name: &str) -> (r: String)
    ensures
        r@ == scoped_name(opt_text(class), name@),
{
    match class {
        Some(c) => text3(c, ".", name),
        None => name.to_owned(),
    }
}

/// What a type statement does.
#[verifier::opaque]
pub open spec fn type_step(env: EnvV, p: ProjectV, name: Seq<char>, type_expr: ExprV) -> Step {
    if env.bindings.in_use(name) {
        failed(
            env,
            ErrorV::at(
                expr_token(type_expr),
                "type name '"@ + name + "' already defined in this scope"@,
            ),
        )
    } else if expr_token(type_expr).token_type == TokenType::Axiom {
        done(env.with_bindings(env.bindings.with_data_type(name)))
    } else {
        match eval_type(env.bindings, p, type_expr) {
            Err(e) => failed(env, e),
            Ok(t) => done(env.with_bindings(env.bindings.with_type(name, t))),
        }
    }
}

/// What a let statement does, perhaps in a class.
#[verifier::opaque]
pub open spec fn let_step(
    env: EnvV,
    p: ProjectV,
    class: Option<Seq<char>>,
    name: Seq<char>,
    name_token: TokenV,
    type_expr: ExprV,
    value: ExprV,
    range: Range,
) -> Step {
    let full = scoped_name(class, name);
    if class is None && name_token.token_type == TokenType::Number {
        failed(
            env,
            ErrorV::at(name_token, "numeric literals may not be defined outside of a class"@),
        )
    } else if name == "self"@ || name == "new"@ || name == "read"@ || (class is Some && magic_name(
        name,
    )) {
        failed(env, reserved(name_token, name))
    } else if env.bindings.in_use(full) {
        failed(
            env,
            ErrorV::at(
                name_token,
                "constant name '"@ + full + "' already defined in this scope"@,
            ),
        )
    } else {
        match eval_type(env.bindings, p, type_expr) {
            Err(e) => failed(env, e),
            Ok(t) => if name_token.token_type == TokenType::Number && t != TypeV::Data(
                env.module_id,
                class->0,
            ) {
                failed(
                    env,
                    ErrorV::at(
                        expr_token(type_expr),
                        "numeric class variables must be the class type"@,
                    ),
                )
            } else {
                match (if expr_token(value).token_type == TokenType::Axiom {
                    Ok(ValueV::Constant(env.module_id, full, t, Seq::empty()))
                } else {
                    eval_value(env.bindings, p, Map::empty(), value, Some(t)).0
                }) {
                    Err(e) => failed(env, e),
                    Ok(v) => done(
                        with_identity(
                            env.with_bindings(
                                env.bindings.with_constant(full, Seq::empty(), t, Some(v)),
                            ).with_range(full, range),
                            p,
                            full,
                        ),
                    ),
                }
            },
        }
    }
}

/// The declaration that a plain `self` stands for in a class.
pub open spec fn self_declaration(t: TokenV, class: Seq<char>) -> ExprV {
    ExprV::Binary(
        Box::new(ExprV::Identifier(t)),
        TokenV { token_type: TokenType::Colon, text: ":"@, ..t },
        Box::new(
            ExprV::Identifier(TokenV { token_type: TokenType::Identifier, text: class, ..t }),
        ),
    )
}

/// The arguments of a function, where a plain `self` at the start of those of a function in a class
/// is of the class's type.
pub open spec fn member_args(class: Option<Seq<char>>, args: Seq<ExprV>) -> Seq<ExprV> {
    match class {
        Some(c) => if args.len() > 0 && args[0] is Identifier && args[0]->Identifier_0.text
            == "self"@ {
            args.update(0, self_declaration(args[0]->Identifier_0, c))
        } else {
            args
        },
        None => args,
    }
}

fn declare_self(t: &Token, class: &str) -> (r: Expression)
    ensures
        r@ == self_declaration(t@, class@),
{
    let mut colon = t.clone();
    colon.token_type = TokenType::Colon;
    colon.text = ":".to_owned();
    let mut typed = t.clone();
    typed.token_type = TokenType::Identifier;
    typed.text = class.to_owned();
    proof {
        reveal_with_fuel(crate::expression::expr_view, 3);
    }
    Expression::Binary(
        Box::new(Expression::Identifier(t.clone())),
        colon,
        Box::new(Expression::Identifier(typed)),
    )
}

fn make_member_args(class: Option<&str>, args: &Vec<Expression>) -> (r: Vec<Expression>)
    ensures
        views(r@) == member_args(opt_text(class), views(args@)),
        r.len() == args.len(),
{
    let ghost av = views(args@);
    let mut out: Vec<Expression> = Vec::new();
    let mut i: usize = 0;
    while i < args.len()
        invariant
            i <= args.len(),
            out.len() == i,
            forall|k: int| 0 <= k < i ==> (#[trigger] out@[k])@ == args@[k]@,
        decreases args.len() - i,
    {
        out.push(args[i].clone());
        i = i + 1;
    }
    assert(views(out@) =~= av);
    if let Some(c) = class {
        if args.len() > 0 {
            assert(av[0] == args@[0]@);
            if let Expression::Identifier(t) = &args[0] {
                if same_text(t.text(), "self") {
                    out.set(0, declare_self(t, c));
                    assert(views(out@) =~= av.update(0, self_declaration(t@, c@)));
                }
            }
        }
    }
    out
}

/// What is wrong with the types of a function in a class.
pub open spec fn class_mismatch(
    module: ModuleId,
    class: Seq<char>,
    name: Seq<char>,
    name_token: TokenV,
    args: Seq<ExprV>,
    sub: SubvalueV,
) -> Option<ErrorV> {
    let t = TypeV::Data(module, class);
    if args.len() == 0 || sub.arg_types.len() == 0 {
        Some(ErrorV::at(name_token, "member functions must have arguments"@))
    } else if sub.arg_names.len() == 0 || sub.arg_names[0] != "self"@ {
        Some(
            ErrorV::at(
                expr_token(args[0]),
                "the first argument of a member function must be 'self'"@,
            ),
        )
    } else if sub.arg_types[0] != t {
        Some(ErrorV::at(expr_token(args[0]), "self must be the class type"@))
    } else if name == "read"@ && (sub.arg_types.len() != 2 || sub.arg_types[1] != t
        || sub.value_type != t) {
        Some(
            ErrorV::at(
                name_token,
                class + ".read should be type ("@ + class + ", "@ + class + ") -> "@ + class,
            ),
        )
    } else {
        None
    }
}

/// The scope with a function that is defined by a value under declarations.
pub open spec fn with_function(b: BindingMapV, name: Seq<char>, sub: SubvalueV) -> BindingMapV {
    match sub.value {
        Some(v) => {
            let f = lambda(sub.arg_types, v);
            b.with_constant(name, sub.type_params, value_type(f), Some(f))
        },
        None => b.with_constant(
            name,
            sub.type_params,
            functional(sub.arg_types, sub.value_type),
            None,
        ),
    }
}

/// What a define statement does, perhaps in a class.
#[verifier::opaque]
pub open spec fn define_step(
    env: EnvV,
    p: ProjectV,
    class: Option<Seq<char>>,
    name: Seq<char>,
    name_token: TokenV,
    type_params: Seq<TokenV>,
    args: Seq<ExprV>,
    return_type: ExprV,
    return_value: ExprV,
    range: Range,
) -> Step {
    let full = scoped_name(class, name);
    if name == "new"@ || name == "self"@ {
        failed(env, reserved(name_token, name))
    } else if env.bindings.in_use(full) {
        failed(
            env,
            ErrorV::at(
                name_token,
                "function name '"@ + full + "' already defined in this scope"@,
            ),
        )
    } else {
        match eval_subvalue(
            env.bindings,
            p,
            type_params,
            member_args(class, args),
            Some(return_type),
            return_value,
        ) {
            Err(e) => failed(env, e),
            Ok(sub) => match (match class {
                Some(c) => class_mismatch(env.module_id, c, name, name_token, args, sub),
                None => None,
            }) {
                Some(e) => failed(env, e),
                None => done(
                    with_identity(
                        env.with_bindings(with_function(env.bindings, full, sub)).with_range(
                            full,
                            range,
                        ),
                        p,
                        full,
                    ),
                ),
            },
        }
    }
}

/// What a claim does.
#[verifier::opaque]
pub open spec fn prop_step(env: EnvV, p: ProjectV, s: StatementV, claim: ExprV) -> Step {
    match eval_value(env.bindings, p, Map::empty(), claim, Some(TypeV::Bool)).0 {
        Err(e) => failed(env, e),
        Ok(v) => done(
            (EnvV {
                includes_explicit_false: env.includes_explicit_false || v == ValueV::Bool(false),
                ..env
            }).with_node(
                p,
                false,
                PropositionV::anonymous(v, env.module_id, s.range()),
                None,
            ).with_prop_lines(env.nodes.len(), s),
        ),
    }
}

/// What a default statement does.
#[verifier::opaque]
pub open spec fn default_step(env: EnvV, p: ProjectV, type_expr: ExprV) -> Step {
    match eval_type(env.bindings, p, type_expr) {
        Err(e) => failed(env, e),
        Ok(TypeV::Data(module, typename)) => done(
            env.with_bindings(
                BindingMapV { numerals: Some((module, typename)), ..env.bindings },
            ),
        ),
        Ok(_) => failed(
            env,
            ErrorV::at(expr_token(type_expr), "numerals type must be a data type"@),
        ),
    }
}

/// The value of an expression in an environment.
#[verifier::opaque]
pub open spec fn value_in(env: EnvV, p: ProjectV, e: ExprV, want: Option<TypeV>) -> Result<
    ValueV,
    ErrorV,
> {
    eval_value(env.bindings, p, Map::empty(), e, want).0
}

/// The value of an expression under declarations in an environment.
#[verifier::opaque]
pub open spec fn subvalue_in(
    env: EnvV,
    p: ProjectV,
    tokens: Seq<TokenV>,
    args: Seq<ExprV>,
    type_expr: Option<ExprV>,
    value_expr: ExprV,
) -> Result<SubvalueV, ErrorV> {
    eval_subvalue(env.bindings, p, tokens, args, type_expr, value_expr)
}

impl Environment {
    pub(crate) fn evaluate(
        &self,
        project: &Project,
        e: &Expression,
        want: Option<&AcornType>,
    ) -> (r: Result<AcornValue, Error>)
        ensures
            match r {
                Ok(v) => value_in(self@, project@, e@, opt_type(want)) == Ok::<ValueV, ErrorV>(
                    v@,
                ),
                Err(e1) => value_in(self@, project@, e@, opt_type(want)) == Err::<ValueV, ErrorV>(
                    e1@,
                ),
            },
    {
        reveal(value_in);
        proof {
            lemma_env_view(*self);
        }
        self.bindings.evaluate_value(project, e, want)
    }

    pub(crate) fn evaluate_under(
        &mut self,
        project: &Project,
        tokens: &Vec<Token>,
        args: &Vec<Expression>,
        type_expr: Option<&Expression>,
        value_expr: &Expression,
    ) -> (r: Result<Subvalue, Error>)
        ensures
            final(self)@ == old(self)@,
            r matches Ok(v) ==> v.arg_names.len() == v.arg_types.len() == args.len(),
            match r {
                Ok(v) => subvalue_in(
                    old(self)@,
                    project@,
                    views(tokens@),
                    views(args@),
                    opt_expr(type_expr),
                    value_expr@,
                ) == Ok::<SubvalueV, ErrorV>(v@),
                Err(e) => subvalue_in(
                    old(self)@,
                    project@,
                    views(tokens@),
                    views(args@),
                    opt_expr(type_expr),
                    value_expr@,
                ) == Err::<SubvalueV, ErrorV>(e@),
            },
    {
        reveal(subvalue_in);
        proof {
            lemma_env_view(*self);
        }
        let r = self.bindings.evaluate_subvalue(project, tokens, args, type_expr, value_expr);
        proof {
            lemma_env_view(*self);
            if r is Ok {
                let v = r->Ok_0;
                let b1 = with_params(self@.bindings, views(tokens@), tokens@.len())->Ok_0;
                lemma_declared(b1, project@, views(args@), args@.len());
                assert(v@.arg_names.len() == v.arg_names.len());
                assert(v@.arg_types.len() == v.arg_types.len());
            }
        }
        r
    }

    pub(crate) fn is_name_in_use(&self, name: &str) -> (r: bool)
        ensures
            r == self@.bindings.in_use(name@),
    {
        proof {
            lemma_env_view(*self);
        }
        self.bindings.name_in_use(name)
    }

    pub(crate) fn declare(
        &mut self,
        name: &str,
        params: Vec<String>,
        t: AcornType,
        definition: Option<AcornValue>,
    )
        requires
            !old(self)@.bindings.in_use(name@),
        ensures
            final(self)@ == old(self)@.with_bindings(
                old(self)@.bindings.with_constant(
                    name@,
                    views(params@),
                    t@,
                    opt_view(definition),
                ),
            ),
    {
        proof {
            lemma_env_view(*self);
        }
        self.bindings.add_constant(name, params, t, definition);
        proof {
            lemma_env_view(*self);
        }
    }

    pub(crate) fn add_other_lines(&mut self, statement: &Statement)
        ensures
            final(self)@ == old(self)@.with_other_lines(statement@),
    {
        broadcast use crate::statement::lemma_statement_ends;
        self.add_line_types(LineType::Other, statement.first_line(), statement.last_line());
    }

    pub(crate) fn add_prop_lines(&mut self, index: usize, statement: &Statement)
        ensures
            final(self)@ == old(self)@.with_prop_lines(index as nat, statement@),
    {
        broadcast use crate::statement::lemma_statement_ends;
        self.add_line_types(
            LineType::Node(index),
            statement.first_line(),
            statement.last_line(),
        );
    }

    pub(crate) fn set_definition_range(&mut self, name: &str, range: Range)
        ensures
            final(self)@ == old(self)@.with_range(name@, range),
    {
        proof {
            lemma_env_view(*self);
        }
        self.definition_ranges.insert(name.to_owned(), range);
        proof {
            lemma_env_view(*self);
        }
    }

    pub(crate) fn add_type_statement(&mut self, project: &Project, ts: &TypeStatement) -> (r:
        Result<(), Error>)
        ensures
            met(
                type_step(old(self)@, project@, ts.name@, ts.type_expr@),
                final(self)@,
                r,
            ),
    {
        reveal(type_step);
        proof {
            lemma_env_view(*self);
        }
        if self.bindings.name_in_use(ts.name.as_str()) {
            return Err(
                Error::at(
                    ts.type_expr.token(),
                    text3(
                        "type name '",
                        ts.name.as_str(),
                        "' already defined in this scope",
                    ).as_str(),
                ),
            );
        }
        if ts.type_expr.token().token_type == TokenType::Axiom {
            let _ = self.bindings.add_data_type(ts.name.as_str());
        } else {
            match self.bindings.evaluate_type(project, &ts.type_expr) {
                Err(e) => {
                    return Err(e);
                },
                Ok(t) => {
                    self.bindings.add_type_alias(ts.name.as_str(), t);
                },
            }
        }
        proof {
            lemma_env_view(*self);
        }
        Ok(())
    }

    // Adds a "let" statement to the environment, that may be within a class block.
    pub(crate) fn add_let_statement(
        &mut self,
        project: &Project,
        class: Option<&str>,
        ls: &LetStatement,
        range: Range,
    ) -> (r: Result<(), Error>)
        ensures
            met(
                let_step(
                    old(self)@,
                    project@,
                    opt_text(class),
                    ls.name@,
                    ls.name_token@,
                    ls.type_expr@,
                    ls.value@,
                    range,
                ),
                final(self)@,
                r,
            ),
    {
        reveal(let_step);
        proof {
            lemma_env_view(*self);
        }
        if class.is_none() && ls.name_token.token_type == TokenType::Number {
            return Err(
                Error::at(
                    &ls.name_token,
                    "numeric literals may not be defined outside of a class",
                ),
            );
        }
        let short = ls.name.as_str();
        if same_text(short, "self") || same_text(short, "new") || same_text(short, "read") || (
        class.is_some() && is_magic_name(short)) {
            return Err(new_reserved(&ls.name_token, short));
        }
        let name = make_scoped_name(class, short);
        if self.bindings.name_in_use(name.as_str()) {
            return Err(
                Error::at(
                    &ls.name_token,
                    text3(
                        "constant name '",
                        name.as_str(),
                        "' already defined in this scope",
                    ).as_str(),
                ),
            );
        }
        let acorn_type = match self.bindings.evaluate_type(project, &ls.type_expr) {
            Err(e) => {
                return Err(e);
            },
            Ok(t) => t,
        };
        if ls.name_token.token_type == TokenType::Number {
            if let Some(c) = class {
                if !acorn_type.same(&AcornType::Data(self.module_id, c.to_owned())) {
                    return Err(
                        Error::at(
                            ls.type_expr.token(),
                            "numeric class variables must be the class type",
                        ),
                    );
                }
            }
        }
        let none: Vec<String> = Vec::new();
        assert(views(none@) =~= Seq::<Seq<char>>::empty());
        let value = if ls.value.token().token_type == TokenType::Axiom {
            let params: Vec<String> = Vec::new();
            assert(views(params@) =~= Seq::<Seq<char>>::empty());
            AcornValue::Constant(self.module_id, name.clone(), acorn_type.clone(), params)
        } else {
            match self.bindings.evaluate_value(project, &ls.value, Some(&acorn_type)) {
                Err(e) => {
                    return Err(e);
                },
                Ok(v) => v,
            }
        };
        self.bindings.add_constant(name.as_str(), none, acorn_type, Some(value));
        proof {
            lemma_env_view(*self);
            assert(self@ == old(self)@.with_bindings(self@.bindings));
        }
        self.set_definition_range(name.as_str(), range);
        self.add_identity_props(project, name.as_str());
        Ok(())
    }

    // Adds a "define" statement to the environment, that may be within a class block.
    pub(crate) fn add_define_statement(
        &mut self,
        project: &Project,
        class: Option<&str>,
        ds: &DefineStatement,
        range: Range,
    ) -> (r: Result<(), Error>)
        ensures
            met(
                define_step(
                    old(self)@,
                    project@,
                    opt_text(class),
                    ds.name@,
                    ds.name_token@,
                    views(ds.type_params@),
                    views(ds.args@),
                    ds.return_type@,
                    ds.return_value@,
                    range,
                ),
                final(self)@,
                r,
            ),
    {
        reveal(define_step);
        proof {
            lemma_env_view(*self);
        }
        let short = ds.name.as_str();
        if same_text(short, "new") || same_text(short, "self") {
            return Err(new_reserved(&ds.name_token, short));
        }
        let name = make_scoped_name(class, short);
        if self.bindings.name_in_use(name.as_str()) {
            return Err(
                Error::at(
                    &ds.name_token,
                    text3(
                        "function name '",
                        name.as_str(),
                        "' already defined in this scope",
                    ).as_str(),
                ),
            );
        }
        // Calculate the function value
        let args = make_member_args(class, &ds.args);
        let sub = match self.bindings.evaluate_subvalue(
            project,
            &ds.type_params,
            &args,
            Some(&ds.return_type),
            &ds.return_value,
        ) {
            Err(e) => {
                proof {
                    lemma_env_view(*self);
                }
                return Err(e);
            },
            Ok(sub) => sub,
        };
        proof {
            lemma_env_view(*self);
        }
        if let Some(c) = class {
            if let Some(e) = find_class_mismatch(self.module_id, c, ds, &sub) {
                return Err(e);
            }
        }
        self.add_function(name.as_str(), sub);
        self.set_definition_range(name.as_str(), range);
        self.add_identity_props(project, name.as_str());
        Ok(())
    }

    fn add_function(&mut self, name: &str, sub: Subvalue)
        requires
            !old(self)@.bindings.in_use(name@),
        ensures
            final(self)@ == old(self)@.with_bindings(
                with_function(old(self)@.bindings, name@, sub@),
            ),
    {
        proof {
            lemma_env_view(*self);
        }
        match sub.value {
            Some(v) => {
                let fn_value = AcornValue::new_lambda(sub.arg_types, v);
                let t = fn_value.get_type();
                self.bindings.add_constant(name, sub.type_params, t, Some(fn_value));
            },
            None => {
                let t = AcornType::new_functional(sub.arg_types, sub.value_type);
                self.bindings.add_constant(name, sub.type_params, t, None);
            },
        }
        proof {
            lemma_env_view(*self);
        }
    }

    pub(crate) fn add_prop_statement(
        &mut self,
        project: &Project,
        statement: &Statement,
        ps: &PropStatement,
    ) -> (r: Result<(), Error>)
        ensures
            met(
                prop_step(old(self)@, project@, statement@, ps.claim@),
                final(self)@,
                r,
            ),
    {
        broadcast use crate::statement::lemma_statement_ends;
        reveal(prop_step);
        proof {
            lemma_env_view(*self);
        }
        let claim = match self.bindings.evaluate_value(
            project,
            &ps.claim,
            Some(&AcornType::Bool),
        ) {
            Err(e) => {
                return Err(e);
            },
            Ok(v) => v,
        };
        if let AcornValue::Bool(false) = &claim {
            self.includes_explicit_false = true;
        }
        proof {
            lemma_env_view(*self);
        }
        let range = statement.range();
        let prop = Proposition::anonymous(claim, self.module_id, range);
        let index = self.add_node(project, false, prop, None);
        self.add_prop_lines(index, statement);
        Ok(())
    }

    pub(crate) fn add_default_statement(&mut self, project: &Project, ds: &DefaultStatement) -> (r:
        Result<(), Error>)
        ensures
            met(default_step(old(self)@, project@, ds.type_expr@), final(self)@, r),
    {
        reveal(default_step);
        proof {
            lemma_env_view(*self);
        }
        match self.bindings.evaluate_type(project, &ds.type_expr) {
            Err(e) => Err(e),
            Ok(AcornType::Data(module, typename)) => {
                self.bindings.set_default(module, typename);
                proof {
                    lemma_env_view(*self);
                }
                Ok(())
            },
            Ok(_) => Err(Error::at(ds.type_expr.token(), "numerals type must be a data type")),
        }
    }
}

fn find_class_mismatch(module: ModuleId, class: &str, ds: &DefineStatement, sub: &Subvalue) -> (r:
    Option<Error>)
    ensures
        opt_view(r) == class_mismatch(
            module,
            class@,
            ds.name@,
            ds.name_token@,
            views(ds.args@),
            sub@,
        ),
{
    if ds.args.len() == 0 || sub.arg_types.len() == 0 {
        return Some(Error::at(&ds.name_token, "member functions must have arguments"));
    }
    let t = AcornType::Data(module, class.to_owned());
    assert(t@ == TypeV::Data(module, class@));
    assert(views(ds.args@)[0] == ds.args@[0]@);
    assert(sub@.arg_types[0] == sub.arg_types@[0]@);
    assert(sub@.arg_names.len() == sub.arg_names@.len());
    if sub.arg_names.len() > 0 {
        assert(sub@.arg_names[0] == sub.arg_names@[0]@);
    }
    if sub.arg_names.len() == 0 || !same_text(sub.arg_names[0].as_str(), "self") {
        return Some(
            Error::at(
                ds.args[0].token(),
                "the first argument of a member function must be 'self'",
            ),
        );
    }
    if !sub.arg_types[0].same(&t) {
        return Some(Error::at(ds.args[0].token(), "self must be the class type"));
    }
    if same_text(ds.name.as_str(), "read") && (sub.arg_types.len() != 2 || !sub.arg_types[1].same(
        &t,
    ) || !sub.value_type.same(&t)) {
        let mut message = class.to_owned();
        message.append(".read should be type (");
        message.append(class);
        message.append(", ");
        message.append(class);
        message.append(") -> ");
        message.append(class);
        return Some(Error::at(&ds.name_token, message.as_str()));
    }
    None
}

/// What comes of importing the first `n` names from a module.
pub open spec fn names_step(
    env: EnvV,
    p: ProjectV,
    module: ModuleId,
    names: Seq<TokenV>,
    range: Range,
    n: nat,
) -> Step
    decreases n,
{
    if n == 0 || n > names.len() {
        done(env)
    } else {
        let before = names_step(env, p, module, names, range, (n - 1) as nat);
        let token = names[n - 1];
        match before.1 {
            Err(_) => before,
            Ok(_) => match with_imported(before.0.bindings, p, module, token) {
                Err(e) => failed(before.0, e),
                Ok((b, false)) => done(before.0.with_bindings(b)),
                Ok((b, true)) => done(
                    with_identity(
                        before.0.with_bindings(b).with_range(token.text, range),
                        p,
                        token.text,
                    ),
                ),
            },
        }
    }
}

/// What an import statement does.
#[verifier::opaque]
pub open spec fn import_step(
    env: EnvV,
    p: ProjectV,
    s: StatementV,
    components: Seq<Seq<char>>,
    names: Seq<TokenV>,
) -> Step {
    if components.len() == 0 {
        failed(env, ErrorV::at(s.first_token, "expected a module name"@))
    } else {
        let local = components.last();
        let full = joined(components, "."@);
        if env.bindings.in_use(local) {
            failed(
                env,
                ErrorV::at(
                    s.first_token,
                    "imported name '"@ + local + "' already defined in this scope"@,
                ),
            )
        } else {
            match p.load(full) {
                // The error is with the import statement itself, like a circular import.
                Err(message) => failed(
                    env,
                    ErrorV::at(s.first_token, "import error: "@ + message),
                ),
                Ok(module) => if !p.modules.dom().contains(module) {
                    // The fundamental error is in the other module, not this one.
                    failed(
                        env,
                        ErrorV {
                            secondary: true,
                            ..ErrorV::at(s.first_token, "error in '"@ + full + "' module"@)
                        },
                    )
                } else {
                    names_step(
                        env.with_bindings(env.bindings.with_module(local, module)),
                        p,
                        module,
                        names,
                        s.range(),
                        names.len(),
                    )
                },
            }
        }
    }
}

/// What is wrong with a class that gets members.
pub open spec fn class_fault(env: EnvV, name: Seq<char>, name_token: TokenV) -> Option<ErrorV> {
    if !env.bindings.type_names.dom().contains(name) {
        Some(ErrorV::at(name_token, "undefined type name '"@ + name + "'"@))
    } else {
        match env.bindings.type_names[name] {
            TypeV::Data(module, typename) => if module != env.module_id {
                Some(
                    ErrorV::at(
                        name_token,
                        "we can only bind members to types in the current module"@,
                    ),
                )
            } else if typename != name {
                Some(ErrorV::at(name_token, "we cannot bind members to type aliases"@))
            } else {
                None
            },
            _ => Some(ErrorV::at(name_token, "we can only bind members to data types"@)),
        }
    }
}

/// What the first `n` statements of a class do.
pub open spec fn members_step(
    env: EnvV,
    p: ProjectV,
    class: Seq<char>,
    ss: Seq<StatementV>,
    n: nat,
) -> Step
    decreases n,
{
    if n == 0 || n > ss.len() {
        done(env)
    } else {
        let before = members_step(env, p, class, ss, (n - 1) as nat);
        match before.1 {
            Err(_) => before,
            Ok(_) => member_step(before.0, p, class, ss[n - 1]),
        }
    }
}

/// What a statement of a class does.
#[verifier::opaque]
pub open spec fn member_step(env: EnvV, p: ProjectV, class: Seq<char>, s: StatementV) -> Step {
    match s.statement {
        InfoV::Let { name, name_token, type_expr, value } => let_step(
            env,
            p,
            Some(class),
            name,
            name_token,
            type_expr,
            value,
            s.range(),
        ),
        InfoV::Define { name, name_token, type_params, args, return_type, return_value } =>
        define_step(
            env,
            p,
            Some(class),
            name,
            name_token,
            type_params,
            args,
            return_type,
            return_value,
            s.range(),
        ),
        _ => failed(
            env,
            ErrorV::at(
                s.first_token,
                "only let and define statements are allowed in class bodies"@,
            ),
        ),
    }
}

/// What a class statement does.
#[verifier::opaque]
pub open spec fn class_step(
    env: EnvV,
    p: ProjectV,
    name: Seq<char>,
    name_token: TokenV,
    ss: Seq<StatementV>,
) -> Step {
    match class_fault(env, name, name_token) {
        Some(e) => failed(env, e),
        None => members_step(env, p, name, ss, ss.len()),
    }
}

/// The scope with the first `n` of some names as constants.
pub open spec fn with_constants(
    b: BindingMapV,
    names: Seq<Seq<char>>,
    types: Seq<TypeV>,
    n: nat,
) -> BindingMapV
    decreases n,
{
    if n == 0 || n > names.len() {
        b
    } else {
        with_constants(b, names, types, (n - 1) as nat).with_constant(
            names[n - 1],
            Seq::empty(),
            types[n - 1],
            None,
        )
    }
}

/// What the introduction of variables that satisfy a condition does: their existence has to be
/// proved, then they are there.
#[verifier::opaque]
pub open spec fn satisfy_step(
    env: EnvV,
    p: ProjectV,
    s: StatementV,
    declarations: Seq<ExprV>,
    condition: ExprV,
) -> Step {
    match eval_declarations(env.bindings, p, declarations, declarations.len()) {
        Err(e) => failed(env, e),
        Ok((names, types)) => match eval_value(
            env.bindings,
            p,
            pushed_all(StackV::empty(), names, types, 0),
            condition,
            Some(TypeV::Bool),
        ).0 {
            Err(e) => failed(env, e),
            Ok(general) => {
                let env1 = env.with_node(
                    p,
                    false,
                    PropositionV::anonymous(
                        ValueV::Exists(types, Box::new(general)),
                        env.module_id,
                        s.range(),
                    ),
                    None,
                ).with_prop_lines(env.nodes.len(), s);
                let b = with_constants(env.bindings, names, types, names.len());
                let env2 = env1.with_bindings(b);
                match eval_value(b, p, Map::empty(), condition, Some(TypeV::Bool)).0 {
                    Err(e) => failed(env2, e),
                    Ok(specific) => done(
                        env2.with_node(
                            p,
                            true,
                            PropositionV::anonymous(specific, env.module_id, s.range()),
                            None,
                        ),
                    ),
                }
            },
        },
    }
}

proof fn lemma_names_fail(
    env: EnvV,
    p: ProjectV,
    module: ModuleId,
    names: Seq<TokenV>,
    range: Range,
    i: nat,
    n: nat,
)
    requires
        i <= n <= names.len(),
        names_step(env, p, module, names, range, i).1 is Err,
    ensures
        names_step(env, p, module, names, range, n) == names_step(
            env,
            p,
            module,
            names,
            range,
            i,
        ),
    decreases n,
{
    if i < n {
        lemma_names_fail(env, p, module, names, range, i, (n - 1) as nat);
    }
}

proof fn lemma_class_fail(
    env: EnvV,
    p: ProjectV,
    class: Seq<char>,
    ss: Seq<StatementV>,
    i: nat,
    n: nat,
)
    requires
        i <= n <= ss.len(),
        members_step(env, p, class, ss, i).1 is Err,
    ensures
        members_step(env, p, class, ss, n) == members_step(env, p, class, ss, i),
    decreases n,
{
    if i < n {
        lemma_class_fail(env, p, class, ss, i, (n - 1) as nat);
    }
}

/// Names that were declared are new, and different from each other.
pub proof fn lemma_declared(b: BindingMapV, p: ProjectV, es: Seq<ExprV>, n: nat)
    requires
        n <= es.len(),
        eval_declarations(b, p, es, n) is Ok,
    ensures
        ({
            let (names, types) = eval_declarations(b, p, es, n)->Ok_0;
            &&& names.len() == n
            &&& types.len() == n
            &&& forall|i: int| 0 <= i < n ==> !b.in_use(#[trigger] names[i])
            &&& forall|i: int, j: int|
                0 <= i < j < n ==> #[trigger] names[i] != #[trigger] names[j]
        }),
    decreases n,
{
    if n > 0 {
        lemma_declared(b, p, es, (n - 1) as nat);
        let (names, types) = eval_declarations(b, p, es, (n - 1) as nat)->Ok_0;
        let (all, _) = eval_declarations(b, p, es, n)->Ok_0;
        assert(all.drop_last() =~= names);
        assert forall|i: int| 0 <= i < n - 1 implies #[trigger] all[i] != all[n - 1] by {
            assert(names[i] == all[i]);
        }
        assert forall|i: int| 0 <= i < n implies !b.in_use(#[trigger] all[i]) by {
            if i < n - 1 {
                assert(names[i] == all[i]);
            }
        }
        assert forall|i: int, j: int| 0 <= i < j < n implies #[trigger] all[i]
            != #[trigger] all[j] by {
            if j < n - 1 {
                assert(names[i] == all[i] && names[j] == all[j]);
            }
        }
    }
}

proof fn lemma_constants_in_use(
    b: BindingMapV,
    names: Seq<Seq<char>>,
    types: Seq<TypeV>,
    n: nat,
    x: Seq<char>,
)
    requires
        n <= names.len(),
        !b.in_use(x),
        forall|i: int| 0 <= i < n ==> #[trigger] names[i] != x,
    ensures
        !with_constants(b, names, types, n).in_use(x),
    decreases n,
{
    if n > 0 {
        lemma_constants_in_use(b, names, types, (n - 1) as nat, x);
    }
}

fn references(es: &Vec<Expression>) -> (r: Vec<&Expression>)
    ensures
        views(r@) == views(es@),
        r.len() == es.len(),
{
    let mut out: Vec<&Expression> = Vec::new();
    let mut i: usize = 0;
    while i < es.len()
        invariant
            i <= es.len(),
            out.len() == i,
            forall|k: int| 0 <= k < i ==> (#[trigger] out@[k])@ == es@[k]@,
        decreases es.len() - i,
    {
        out.push(&es[i]);
        i = i + 1;
    }
    assert(views(out@) =~= views(es@));
    out
}

fn add_constants(bindings: &mut BindingMap, names: &Vec<String>, types: &Vec<AcornType>)
    requires
        names.len() == types.len(),
        forall|i: int| 0 <= i < names.len() ==> !old(bindings)@.in_use(#[trigger] views(names@)[i]),
        forall|i: int, j: int|
            0 <= i < j < names.len() ==> #[trigger] views(names@)[i] != #[trigger] views(
                names@,
            )[j],
    ensures
        final(bindings)@ == with_constants(
            old(bindings)@,
            views(names@),
            views(types@),
            names@.len(),
        ),
{
    let ghost nv = views(names@);
    let ghost tv = views(types@);
    let mut i: usize = 0;
    while i < names.len()
        invariant
            i <= names.len() == types.len(),
            nv == views(names@),
            tv == views(types@),
            forall|i: int| 0 <= i < names.len() ==> !old(bindings)@.in_use(#[trigger] nv[i]),
            forall|i: int, j: int|
                0 <= i < j < names.len() ==> #[trigger] nv[i] != #[trigger] nv[j],
            bindings@ == with_constants(old(bindings)@, nv, tv, i as nat),
        decreases names.len() - i,
    {
        proof {
            lemma_constants_in_use(old(bindings)@, nv, tv, i as nat, nv[i as int]);
        }
        let none: Vec<String> = Vec::new();
        assert(views(none@) =~= Seq::<Seq<char>>::empty());
        bindings.add_constant(names[i].as_str(), none, types[i].clone(), None);
        i = i + 1;
    }
}

impl Environment {
    pub(crate) fn add_import_statement(
        &mut self,
        project: &Project,
        statement: &Statement,
        is: &ImportStatement,
    ) -> (r: Result<(), Error>)
        ensures
            met(
                import_step(
                    old(self)@,
                    project@,
                    statement@,
                    views(is.components@),
                    views(is.names@),
                ),
                final(self)@,
                r,
            ),
    {
        broadcast use crate::statement::lemma_statement_ends;
        reveal(import_step);
        proof {
            lemma_env_view(*self);
        }
        let n = is.components.len();
        if n == 0 {
            return Err(Error::at(&statement.first_token, "expected a module name"));
        }
        // Give a local name to the imported module
        let local = is.components[n - 1].as_str();
        assert(views(is.components@).last() == local@);
        if self.bindings.name_in_use(local) {
            return Err(
                Error::at(
                    &statement.first_token,
                    text3("imported name '", local, "' already defined in this scope").as_str(),
                ),
            );
        }
        let full = join(&is.components, ".");
        let module = match project.load_module(full.as_str()) {
            Ok(m) => m,
            Err(message) => {
                let mut text = "import error: ".to_owned();
                text.append(message.as_str());
                return Err(Error::at(&statement.first_token, text.as_str()));
            },
        };
        if project.get_bindings(module).is_none() {
            return Err(
                Error::secondary(
                    &statement.first_token,
                    &statement.first_token,
                    text3("error in '", full.as_str(), "' module").as_str(),
                ),
            );
        }
        self.bindings.add_module(local, module);
        proof {
            lemma_env_view(*self);
        }
        self.add_imported_names(project, module, &is.names, statement.range())
    }

    // Brings the imported names into this environment.
    fn add_imported_names(
        &mut self,
        project: &Project,
        module: ModuleId,
        names: &Vec<Token>,
        range: Range,
    ) -> (r: Result<(), Error>)
        ensures
            met(
                names_step(old(self)@, project@, module, views(names@), range, names@.len()),
                final(self)@,
                r,
            ),
    {
        let ghost nv = views(names@);
        let mut i: usize = 0;
        while i < names.len()
            invariant
                i <= names.len(),
                nv == views(names@),
                names_step(old(self)@, project@, module, nv, range, i as nat) == done(self@),
            decreases names.len() - i,
        {
            let token = &names[i];
            assert(nv[i as int] == token@);
            proof {
                lemma_env_view(*self);
            }
            let constant = match self.bindings.import_name(project, module, token) {
                Err(e) => {
                    proof {
                        lemma_env_view(*self);
                        lemma_names_fail(
                            old(self)@,
                            project@,
                            module,
                            nv,
                            range,
                            (i + 1) as nat,
                            names@.len(),
                        );
                    }
                    return Err(e);
                },
                Ok(c) => c,
            };
            proof {
                lemma_env_view(*self);
            }
            if constant {
                self.set_definition_range(token.text(), range);
                self.add_identity_props(project, token.text());
            }
            i = i + 1;
        }
        Ok(())
    }

    fn find_class_fault(&self, cs: &ClassStatement) -> (r: Option<Error>)
        ensures
            opt_view(r) == class_fault(self@, cs.name@, cs.name_token@),
    {
        proof {
            lemma_env_view(*self);
        }
        match self.bindings.get_type_for_name(cs.name.as_str()) {
            Some(AcornType::Data(module, name)) => {
                if *module != self.module_id {
                    return Some(
                        Error::at(
                            &cs.name_token,
                            "we can only bind members to types in the current module",
                        ),
                    );
                }
                if !name.same(&cs.name) {
                    return Some(
                        Error::at(&cs.name_token, "we cannot bind members to type aliases"),
                    );
                }
                None
            },
            Some(_) => Some(
                Error::at(&cs.name_token, "we can only bind members to data types"),
            ),
            None => Some(
                Error::at(
                    &cs.name_token,
                    text3("undefined type name '", cs.name.as_str(), "'").as_str(),
                ),
            ),
        }
    }

    fn add_class_member(&mut self, project: &Project, class: &str, s: &Statement) -> (r: Result<
        (),
        Error,
    >)
        ensures
            met(member_step(old(self)@, project@, class@, s@), final(self)@, r),
    {
        broadcast use crate::statement::lemma_statement_ends;
        reveal(member_step);
        proof {
            crate::statement::lemma_statement_view(*s);
        }
        match &s.statement {
            StatementInfo::Let(ls) => self.add_let_statement(project, Some(class), ls, s.range()),
            StatementInfo::Define(ds) => self.add_define_statement(
                project,
                Some(class),
                ds,
                s.range(),
            ),
            _ => Err(
                Error::at(
                    &s.first_token,
                    "only let and define statements are allowed in class bodies",
                ),
            ),
        }
    }

    pub(crate) fn add_class_statement(&mut self, project: &Project, cs: &ClassStatement) -> (r:
        Result<(), Error>)
        ensures
            met(
                class_step(
                    old(self)@,
                    project@,
                    cs.name@,
                    cs.name_token@,
                    cs.body@.statements,
                ),
                final(self)@,
                r,
            ),
    {
        reveal(class_step);
        if let Some(e) = self.find_class_fault(cs) {
            return Err(e);
        }
        let ghost sv = cs.body@.statements;
        proof {
            crate::statement::lemma_body_view(cs.body);
        }
        let statements = &cs.body.statements;
        let mut i: usize = 0;
        while i < statements.len()
            invariant
                i <= statements.len(),
                statements == cs.body.statements,
                sv == cs.body@.statements,
                sv == views(cs.body.statements@),
                sv.len() == statements.len(),
                class_fault(old(self)@, cs.name@, cs.name_token@) is None,
                members_step(old(self)@, project@, cs.name@, sv, i as nat) == done(self@),
            decreases statements.len() - i,
        {
            let s = &statements[i];
            assert(sv[i as int] == s@);
            let result = self.add_class_member(project, cs.name.as_str(), s);
            if let Err(e) = result {
                proof {
                    reveal(class_step);
                    lemma_class_fail(
                        old(self)@,
                        project@,
                        cs.name@,
                        sv,
                        (i + 1) as nat,
                        sv.len(),
                    );
                }
                return Err(e);
            }
            i = i + 1;
        }
        Ok(())
    }

    /// Introduces variables by a condition on them.
    pub(crate) fn add_satisfied(
        &mut self,
        project: &Project,
        statement: &Statement,
        declarations: &Vec<Expression>,
        condition: &Expression,
    ) -> (r: Result<(), Error>)
        ensures
            met(
                satisfy_step(
                    old(self)@,
                    project@,
                    statement@,
                    views(declarations@),
                    condition@,
                ),
                final(self)@,
                r,
            ),
    {
        broadcast use crate::statement::lemma_statement_ends;
        reveal(satisfy_step);
        proof {
            lemma_env_view(*self);
        }
        // We need to prove the general existence claim
        let mut stack = Stack::new();
        let refs = references(declarations);
        let (names, types) = match self.bindings.bind_args(&mut stack, project, &refs) {
            Err(e) => {
                return Err(e);
            },
            Ok(x) => x,
        };
        let general = match self.bindings.evaluate_value_with_stack(
            &mut stack,
            project,
            condition,
            Some(&AcornType::Bool),
        ) {
            Err(e) => {
                return Err(e);
            },
            Ok(v) => v,
        };
        let module = self.module_id;
        let range = statement.range();
        let claim = AcornValue::Exists(duplicate_all(&types), Box::new(general));
        assert(claim@ == ValueV::Exists(views(types@), Box::new(general@)));
        let prop = Proposition::anonymous(claim, module, range);
        let index = self.add_node(project, false, prop, None);
        self.add_prop_lines(index, statement);
        // Define the quantifiers as constants
        proof {
            lemma_env_view(*self);
            lemma_declared(
                old(self)@.bindings,
                project@,
                views(declarations@),
                declarations@.len(),
            );
        }
        add_constants(&mut self.bindings, &names, &types);
        proof {
            lemma_env_view(*self);
        }
        // We can then assume the specific existence claim with the named constants
        let specific = match self.bindings.evaluate_value(
            project,
            condition,
            Some(&AcornType::Bool),
        ) {
            Err(e) => {
                return Err(e);
            },
            Ok(v) => v,
        };
        let prop = Proposition::anonymous(specific, module, range);
        let _ = self.add_node(project, true, prop, None);
        Ok(())
    }
}

} // verus!
