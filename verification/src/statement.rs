//! Statements: their syntax tree, their grammar and how they are written.

use vstd::prelude::*;

use crate::compilation::{Error, ErrorV};
use crate::expression::{expr_last_token, expr_text, parse_expr, ExprV, Expression, Stop};
use crate::text::{join, joined, views};
use crate::token::{
    after_newlines, error_here, expect_token, expect_type, text_tokens, valid_type_name, valid_variable_name,
    Range, Token, TokenIter, TokenType, TokenV,
};

verus! {

/// A block of statements in braces.
#[derive(Debug)]
pub struct Body {
    pub left_brace: Token,
    pub statements: Vec<Statement>,
    pub right_brace: Token,
}

/// Let statements introduce new named constants: `let a: int = x + 2`. The name can be an
/// identifier or a number.
#[derive(Debug)]
pub struct LetStatement {
    pub name: String,
    pub name_token: Token,
    pub type_expr: Expression,
    pub value: Expression,
}

/// Define statements introduce new named functions:
/// `define foo(a: int, b: int) -> int: a + a + b`.
#[derive(Debug)]
pub struct DefineStatement {
    pub name: String,
    pub name_token: Token,
    /// For templated definitions.
    pub type_params: Vec<Token>,
    /// The declarations of the arguments, like `a: int` and `b: int`.
    pub args: Vec<Expression>,
    pub return_type: Expression,
    pub return_value: Expression,
}

/// Theorems. The keyword `axiom` marks those that are taken for granted:
/// `axiom foo(p, q): p -> (q -> p)`.
#[derive(Debug)]
pub struct TheoremStatement {
    pub axiomatic: bool,
    pub name: String,
    pub type_params: Vec<Token>,
    pub args: Vec<Expression>,
    pub claim: Expression,
    pub body: Option<Body>,
}

/// A boolean expression that is asserted: an anonymous theorem.
#[derive(Debug)]
pub struct PropStatement {
    pub claim: Expression,
}

/// Associates a name with a type expression.
#[derive(Debug)]
pub struct TypeStatement {
    pub name: String,
    pub type_expr: Expression,
}

/// A block in which new variables are introduced.
#[derive(Debug)]
pub struct ForAllStatement {
    pub quantifiers: Vec<Expression>,
    pub body: Body,
}

/// A block with a condition, and perhaps a second block for when it does not hold.
#[derive(Debug)]
pub struct IfStatement {
    pub condition: Expression,
    pub body: Body,
    pub else_body: Option<Body>,
    /// Just for error reporting.
    pub token: Token,
}

/// Introduces new variables to the outside block.
#[derive(Debug)]
pub struct ExistsStatement {
    pub quantifiers: Vec<Expression>,
    pub claim: Expression,
}

/// Defines a new type. Each field is a name and a type expression.
#[derive(Debug)]
pub struct StructStatement {
    pub name: String,
    pub name_token: Token,
    pub fields: Vec<(Token, Expression)>,
}

/// Imports a module, or names from it where there are any.
#[derive(Debug)]
pub struct ImportStatement {
    /// The full path to the module: `foo.bar.baz` is `foo`, `bar`, `baz`.
    pub components: Vec<String>,
    pub names: Vec<Token>,
}

/// Defines variables and methods that are scoped to a class.
#[derive(Debug)]
pub struct ClassStatement {
    pub name: String,
    pub name_token: Token,
    pub body: Body,
}

/// Determines what class is used for numeric literals.
#[derive(Debug)]
pub struct DefaultStatement {
    pub type_expr: Expression,
}

/// A block in which equalities for an expression are looked for.
#[derive(Debug)]
pub struct SolveStatement {
    pub target: Expression,
    pub body: Body,
}

/// Introduces new variables that satisfy a condition: `let z: Nat satisfy { foo(z) }`.
#[derive(Debug)]
pub struct VariableSatisfyStatement {
    pub declarations: Vec<Expression>,
    pub condition: Expression,
}

/// Introduces a new function by a condition on its values:
/// `let flip(a: Bool) -> b: Bool satisfy { a != b }`.
#[derive(Debug)]
pub struct FunctionSatisfyStatement {
    pub name: String,
    pub name_token: Token,
    /// The declarations of the arguments, and that of the value last.
    pub declarations: Vec<Expression>,
    pub satisfy_token: Token,
    pub condition: Expression,
    pub body: Option<Body>,
}

/// Defines a new type by the ways to make its members. Each constructor is a name and perhaps the
/// types of its arguments, in parentheses.
#[derive(Debug)]
pub struct InductiveStatement {
    pub name: String,
    pub name_token: Token,
    pub constructors: Vec<(Token, Option<Expression>)>,
}

/// A statement, with the first and the last of its tokens.
#[derive(Debug)]
pub struct Statement {
    pub first_token: Token,
    pub last_token: Token,
    pub statement: StatementInfo,
}

/// What is specific to each kind of statement.
#[derive(Debug)]
pub enum StatementInfo {
    Let(LetStatement),
    Define(DefineStatement),
    Theorem(TheoremStatement),
    Prop(PropStatement),
    Type(TypeStatement),
    ForAll(ForAllStatement),
    If(IfStatement),
    Exists(ExistsStatement),
    Struct(StructStatement),
    Import(ImportStatement),
    Class(ClassStatement),
    Default(DefaultStatement),
    Solve(SolveStatement),
    VariableSatisfy(VariableSatisfyStatement),
    FunctionSatisfy(FunctionSatisfyStatement),
    Inductive(InductiveStatement),
    Problem(Body),
}

/// The model of a block.
pub struct BodyV {
    pub left_brace: TokenV,
    pub statements: Seq<StatementV>,
    pub right_brace: TokenV,
}

/// The model of a statement.
pub struct StatementV {
    pub first_token: TokenV,
    pub last_token: TokenV,
    pub statement: InfoV,
}

/// The model of what is specific to each kind of statement.
#[allow(inconsistent_fields)]
pub enum InfoV {
    Let { name: Seq<char>, name_token: TokenV, type_expr: ExprV, value: ExprV },
    Define {
        name: Seq<char>,
        name_token: TokenV,
        type_params: Seq<TokenV>,
        args: Seq<ExprV>,
        return_type: ExprV,
        return_value: ExprV,
    },
    Theorem {
        axiomatic: bool,
        name: Seq<char>,
        type_params: Seq<TokenV>,
        args: Seq<ExprV>,
        claim: ExprV,
        body: Option<BodyV>,
    },
    Prop { claim: ExprV },
    Type { name: Seq<char>, type_expr: ExprV },
    ForAll { quantifiers: Seq<ExprV>, body: BodyV },
    If { condition: ExprV, body: BodyV, else_body: Option<BodyV>, token: TokenV },
    Exists { quantifiers: Seq<ExprV>, claim: ExprV },
    Struct { name: Seq<char>, name_token: TokenV, fields: Seq<(TokenV, ExprV)> },
    Import { components: Seq<Seq<char>>, names: Seq<TokenV> },
    Class { name: Seq<char>, name_token: TokenV, body: BodyV },
    Default { type_expr: ExprV },
    Solve { target: ExprV, body: BodyV },
    VariableSatisfy { declarations: Seq<ExprV>, condition: ExprV },
    FunctionSatisfy {
        name: Seq<char>,
        name_token: TokenV,
        declarations: Seq<ExprV>,
        satisfy_token: TokenV,
        condition: ExprV,
        body: Option<BodyV>,
    },
    Inductive { name: Seq<char>, name_token: TokenV, constructors: Seq<(TokenV, Option<ExprV>)> },
    Problem { body: BodyV },
}

/// The models of the constructors of an inductive type.
pub open spec fn constructors_view(s: Seq<(Token, Option<Expression>)>) -> Seq<
    (TokenV, Option<ExprV>),
> {
    Seq::new(
        s.len(),
        |i: int|
            (
                s[i].0@,
                match s[i].1 {
                    Some(e) => Some(e@),
                    None => None,
                },
            ),
    )
}

/// The models of the statements of a block.
pub open spec fn statements_view(s: Seq<Statement>) -> Seq<StatementV>
    decreases s,
{
    Seq::new(
        s.len(),
        |i: int|
            if 0 <= i < s.len() {
                statement_view(s[i])
            } else {
                arbitrary()
            },
    )
}

/// The model of a block, made from its parts.
pub open spec fn body_view(b: Body) -> BodyV
    decreases b,
{
    BodyV {
        left_brace: b.left_brace@,
        statements: statements_view(b.statements@),
        right_brace: b.right_brace@,
    }
}

/// The model of a statement, made from its parts.
pub open spec fn statement_view(s: Statement) -> StatementV
    decreases s,
{
    StatementV {
        first_token: s.first_token@,
        last_token: s.last_token@,
        statement: match s.statement {
            StatementInfo::Let(x) => InfoV::Let {
                name: x.name@,
                name_token: x.name_token@,
                type_expr: x.type_expr@,
                value: x.value@,
            },
            StatementInfo::Define(x) => InfoV::Define {
                name: x.name@,
                name_token: x.name_token@,
                type_params: views(x.type_params@),
                args: views(x.args@),
                return_type: x.return_type@,
                return_value: x.return_value@,
            },
            StatementInfo::Theorem(x) => InfoV::Theorem {
                axiomatic: x.axiomatic,
                name: x.name@,
                type_params: views(x.type_params@),
                args: views(x.args@),
                claim: x.claim@,
                body: match x.body {
                    Some(b) => Some(body_view(b)),
                    None => None,
                },
            },
            StatementInfo::Prop(x) => InfoV::Prop { claim: x.claim@ },
            StatementInfo::Type(x) => InfoV::Type { name: x.name@, type_expr: x.type_expr@ },
            StatementInfo::ForAll(x) => InfoV::ForAll {
                quantifiers: views(x.quantifiers@),
                body: body_view(x.body),
            },
            StatementInfo::If(x) => InfoV::If {
                condition: x.condition@,
                body: body_view(x.body),
                else_body: match x.else_body {
                    Some(b) => Some(body_view(b)),
                    None => None,
                },
                token: x.token@,
            },
            StatementInfo::Exists(x) => InfoV::Exists {
                quantifiers: views(x.quantifiers@),
                claim: x.claim@,
            },
            StatementInfo::Struct(x) => InfoV::Struct {
                name: x.name@,
                name_token: x.name_token@,
                fields: views(x.fields@),
            },
            StatementInfo::Import(x) => InfoV::Import {
                components: views(x.components@),
                names: views(x.names@),
            },
            StatementInfo::Class(x) => InfoV::Class {
                name: x.name@,
                name_token: x.name_token@,
                body: body_view(x.body),
            },
            StatementInfo::Default(x) => InfoV::Default { type_expr: x.type_expr@ },
            StatementInfo::Solve(x) => InfoV::Solve { target: x.target@, body: body_view(x.body) },
            StatementInfo::VariableSatisfy(x) => InfoV::VariableSatisfy {
                declarations: views(x.declarations@),
                condition: x.condition@,
            },
            StatementInfo::FunctionSatisfy(x) => InfoV::FunctionSatisfy {
                name: x.name@,
                name_token: x.name_token@,
                declarations: views(x.declarations@),
                satisfy_token: x.satisfy_token@,
                condition: x.condition@,
                body: match x.body {
                    Some(b) => Some(body_view(b)),
                    None => None,
                },
            },
            StatementInfo::Inductive(x) => InfoV::Inductive {
                name: x.name@,
                name_token: x.name_token@,
                constructors: constructors_view(x.constructors@),
            },
            StatementInfo::Problem(x) => InfoV::Problem { body: body_view(x) },
        },
    }
}

impl View for Statement {
    type V = StatementV;

    closed spec fn view(&self) -> StatementV {
        statement_view(*self)
    }
}

impl View for Body {
    type V = BodyV;

    closed spec fn view(&self) -> BodyV {
        body_view(*self)
    }
}

/// The model of a statement unfolds one step at a time.
pub(crate) proof fn lemma_statement_view(s: Statement)
    ensures
        s@ == statement_view(s),
{
}

/// The model of a statement has the models of its tokens.
pub(crate) broadcast proof fn lemma_statement_ends(s: Statement)
    ensures
        (#[trigger] s@).first_token == s.first_token@,
        s@.last_token == s.last_token@,
{
}

/// The model of a body unfolds one step at a time.
pub(crate) proof fn lemma_body_view(b: Body)
    ensures
        b@ == body_view(b),
        b@.left_brace == b.left_brace@,
        b@.right_brace == b.right_brace@,
        b@.statements == views(b.statements@),
        b@.statements.len() == b.statements@.len(),
{
    assert(statements_view(b.statements@) =~= views(b.statements@));
}

/// One step of indentation.
pub open spec fn indented(indentation: Seq<char>) -> Seq<char> {
    indentation + "    "@
}

/// The statements of a block, each on lines of its own.
pub open spec fn lines_text(statements: Seq<StatementV>, indentation: Seq<char>) -> Seq<char>
    decreases statements, 0int,
{
    if statements.len() == 0 {
        Seq::empty()
    } else {
        lines_text(statements.drop_last(), indentation) + statement_text(
            statements[statements.len() - 1],
            indentation,
        ) + "\n"@
    }
}

/// How a block is written, from the blank before its brace on, without a line end.
pub open spec fn block_text(statements: Seq<StatementV>, indentation: Seq<char>) -> Seq<char>
    decreases statements, 1int,
{
    " {\n"@ + lines_text(statements, indented(indentation)) + indentation + "}"@
}

/// How type parameters are written.
pub open spec fn type_params_text(params: Seq<TokenV>) -> Seq<char> {
    if params.len() == 0 {
        Seq::empty()
    } else {
        "<"@ + joined(token_texts(params), ", "@) + ">"@
    }
}

/// The texts of tokens.
pub open spec fn token_texts(tokens: Seq<TokenV>) -> Seq<Seq<char>> {
    Seq::new(tokens.len(), |i: int| tokens[i].text)
}

/// The texts of expressions.
pub open spec fn expr_texts(exprs: Seq<ExprV>) -> Seq<Seq<char>> {
    Seq::new(exprs.len(), |i: int| expr_text(exprs[i]))
}

/// How arguments are written.
pub open spec fn args_text(args: Seq<ExprV>) -> Seq<char> {
    if args.len() == 0 {
        Seq::empty()
    } else {
        "("@ + joined(expr_texts(args), ", "@) + ")"@
    }
}

/// How the fields of a struct are written.
pub open spec fn fields_text(fields: Seq<(TokenV, ExprV)>, indentation: Seq<char>) -> Seq<char>
    decreases fields.len(),
{
    if fields.len() == 0 {
        Seq::empty()
    } else {
        fields_text(fields.drop_last(), indentation) + indentation + fields.last().0.text + ": "@
            + expr_text(fields.last().1) + "\n"@
    }
}

/// How the constructors of an inductive type are written.
pub open spec fn constructors_text(
    cs: Seq<(TokenV, Option<ExprV>)>,
    indentation: Seq<char>,
) -> Seq<char>
    decreases cs.len(),
{
    if cs.len() == 0 {
        Seq::empty()
    } else {
        constructors_text(cs.drop_last(), indentation) + indentation + cs.last().0.text + (
        match cs.last().1 {
            Some(e) => expr_text(e),
            None => Seq::empty(),
        }) + "\n"@
    }
}

/// How the name and the declarations of a function are written.
pub open spec fn function_text(name: Seq<char>, declarations: Seq<ExprV>) -> Seq<char> {
    if declarations.len() == 0 {
        "let "@ + name
    } else {
        "let "@ + name + args_text(declarations.drop_last()) + " -> "@ + expr_text(
            declarations.last(),
        )
    }
}

/// How a condition in braces is written, on a line of its own.
pub open spec fn condition_text(condition: ExprV, indentation: Seq<char>) -> Seq<char> {
    " satisfy {\n"@ + indented(indentation) + expr_text(condition) + "\n"@ + indentation + "}"@
}

/// How a statement is written, at an indentation.
pub open spec fn statement_text(s: StatementV, indentation: Seq<char>) -> Seq<char>
    decreases s, 0int,
{
    match s.statement {
        InfoV::Let { name, name_token, type_expr, value } => indentation + "let "@ + name + ": "@
            + expr_text(type_expr) + " = "@ + expr_text(value),
        InfoV::Define { name, name_token, type_params, args, return_type, return_value } =>
            indentation + "define "@ + name + type_params_text(type_params) + args_text(args)
                + " -> "@ + expr_text(return_type) + ": "@ + expr_text(return_value),
        InfoV::Theorem { axiomatic, name, type_params, args, claim, body } => {
            let head = indentation + (if axiomatic { "axiom"@ } else { "theorem"@ }) + " "@ + name
                + type_params_text(type_params) + args_text(args) + ": "@ + expr_text(claim);
            match body {
                Some(b) => head + " by"@ + block_text(b.statements, indentation),
                None => head,
            }
        },
        InfoV::Prop { claim } => indentation + expr_text(claim),
        InfoV::Type { name, type_expr } => indentation + "type "@ + name + ": "@ + expr_text(
            type_expr,
        ),
        InfoV::ForAll { quantifiers, body } => indentation + "forall"@ + args_text(quantifiers)
            + block_text(body.statements, indentation),
        InfoV::If { condition, body, else_body, token } => {
            let head = indentation + "if "@ + expr_text(condition) + block_text(
                body.statements,
                indentation,
            );
            match else_body {
                Some(b) => head + " else"@ + block_text(b.statements, indentation),
                None => head,
            }
        },
        InfoV::Exists { quantifiers, claim } => indentation + "exists"@ + args_text(quantifiers)
            + " {\n"@ + indented(indentation) + expr_text(claim) + "\n"@ + indentation + "}"@,
        InfoV::Struct { name, name_token, fields } => indentation + "struct "@ + name + " {\n"@
            + fields_text(fields, indented(indentation)) + indentation + "}"@,
        InfoV::Import { components, names } => if names.len() == 0 {
            indentation + "import "@ + joined(components, "."@)
        } else {
            indentation + "from "@ + joined(components, "."@) + " import "@ + joined(
                token_texts(names),
                ", "@,
            )
        },
        InfoV::Class { name, name_token, body } => indentation + "class "@ + name + block_text(
            body.statements,
            indentation,
        ),
        InfoV::Default { type_expr } => indentation + "default "@ + expr_text(type_expr),
        InfoV::Solve { target, body } => indentation + "solve "@ + expr_text(target) + " by"@
            + block_text(body.statements, indentation),
        InfoV::VariableSatisfy { declarations, condition } => indentation + "let "@ + (
        if declarations.len() == 1 {
            expr_text(declarations[0])
        } else {
            args_text(declarations)
        }) + condition_text(condition, indentation),
        InfoV::FunctionSatisfy {
            name,
            name_token,
            declarations,
            satisfy_token,
            condition,
            body,
        } => {
            let head = indentation + function_text(name, declarations) + condition_text(
                condition,
                indentation,
            );
            match body {
                Some(b) => head + " by"@ + block_text(b.statements, indentation),
                None => head,
            }
        },
        InfoV::Inductive { name, name_token, constructors } => indentation + "inductive "@ + name
            + " {\n"@ + constructors_text(constructors, indented(indentation)) + indentation
            + "}"@,
        InfoV::Problem { body } => indentation + "problem"@ + block_text(
            body.statements,
            indentation,
        ),
    }
}

fn add_indent(indentation: &str) -> (r: String)
    ensures
        r@ == indented(indentation@),
{
    let mut out = indentation.to_owned();
    out.append("    ");
    out
}

fn token_strings(tokens: &Vec<Token>) -> (r: Vec<String>)
    ensures
        views(r@) == token_texts(views(tokens@)),
{
    let mut out: Vec<String> = Vec::new();
    let mut i: usize = 0;
    while i < tokens.len()
        invariant
            i <= tokens.len(),
            out.len() == i,
            forall|k: int| 0 <= k < i ==> (#[trigger] out@[k])@ == tokens@[k]@.text,
        decreases tokens.len() - i,
    {
        out.push(tokens[i].text.clone());
        i = i + 1;
    }
    assert(views(out@) =~= token_texts(views(tokens@)));
    out
}

fn write_type_params(type_params: &Vec<Token>) -> (r: String)
    ensures
        r@ == type_params_text(views(type_params@)),
{
    if type_params.len() == 0 {
        return String::new();
    }
    let names = token_strings(type_params);
    let mut out = "<".to_owned();
    out.append(join(&names, ", ").as_str());
    out.append(">");
    out
}

fn write_args(args: &Vec<Expression>) -> (r: String)
    ensures
        r@ == args_text(views(args@)),
{
    assert(views(args@).take(args@.len() as int) =~= views(args@));
    write_first_args(args, args.len())
}

fn write_first_args(args: &Vec<Expression>, n: usize) -> (r: String)
    requires
        n <= args.len(),
    ensures
        r@ == args_text(views(args@).take(n as int)),
{
    if n == 0 {
        return String::new();
    }
    let mut texts: Vec<String> = Vec::new();
    let mut i: usize = 0;
    while i < n
        invariant
            i <= n <= args.len(),
            texts.len() == i,
            forall|k: int| 0 <= k < i ==> (#[trigger] texts@[k])@ == expr_text(args@[k]@),
        decreases n - i,
    {
        texts.push(args[i].to_text());
        i = i + 1;
    }
    assert(views(texts@) =~= expr_texts(views(args@).take(n as int)));
    let mut out = "(".to_owned();
    out.append(join(&texts, ", ").as_str());
    out.append(")");
    out
}

fn write_fields(fields: &Vec<(Token, Expression)>, indentation: &str) -> (r: String)
    ensures
        r@ == fields_text(views(fields@), indentation@),
{
    let mut out = String::new();
    let mut i: usize = 0;
    assert(views(fields@).take(0) =~= Seq::empty());
    while i < fields.len()
        invariant
            i <= fields.len(),
            out@ == fields_text(views(fields@).take(i as int), indentation@),
        decreases fields.len() - i,
    {
        let ghost after = views(fields@).take(i + 1);
        assert(after.drop_last() =~= views(fields@).take(i as int));
        assert(after.last() == (fields@[i as int].0@, fields@[i as int].1@));
        out.append(indentation);
        out.append(fields[i].0.text());
        out.append(": ");
        out.append(fields[i].1.to_text().as_str());
        out.append("\n");
        i = i + 1;
    }
    assert(views(fields@).take(i as int) =~= views(fields@));
    out
}

fn write_constructors(cs: &Vec<(Token, Option<Expression>)>, indentation: &str) -> (r: String)
    ensures
        r@ == constructors_text(constructors_view(cs@), indentation@),
{
    let mut out = String::new();
    let mut i: usize = 0;
    let ghost all = constructors_view(cs@);
    assert(all.take(0) =~= Seq::empty());
    while i < cs.len()
        invariant
            i <= cs.len(),
            all == constructors_view(cs@),
            out@ == constructors_text(all.take(i as int), indentation@),
        decreases cs.len() - i,
    {
        let ghost after = all.take(i + 1);
        assert(after.drop_last() =~= all.take(i as int));
        assert(after.last() == all[i as int]);
        let c = &cs[i];
        out.append(indentation);
        out.append(c.0.text());
        match &c.1 {
            Some(e) => {
                out.append(e.to_text().as_str());
            },
            None => {
                assert(out@ + Seq::<char>::empty() =~= out@);
            },
        }
        out.append("\n");
        i = i + 1;
    }
    assert(all.take(i as int) =~= all);
    out
}

fn write_condition(condition: &Expression, indentation: &str) -> (r: String)
    ensures
        r@ == condition_text(condition@, indentation@),
{
    let mut out = " satisfy {\n".to_owned();
    out.append(add_indent(indentation).as_str());
    out.append(condition.to_text().as_str());
    out.append("\n");
    out.append(indentation);
    out.append("}");
    out
}

fn write_lines(statements: &Vec<Statement>, indentation: &str) -> (r: String)
    ensures
        r@ == lines_text(statements_view(statements@), indentation@),
    decreases statements,
{
    let mut out = String::new();
    let mut i: usize = 0;
    let ghost all = statements_view(statements@);
    assert(all.take(0) =~= Seq::empty());
    while i < statements.len()
        invariant
            i <= statements.len(),
            all == statements_view(statements@),
            out@ == lines_text(all.take(i as int), indentation@),
        decreases statements.len() - i,
    {
        assert(all.take(i + 1).drop_last() =~= all.take(i as int));
        assert(all.take(i + 1)[i as int] == statement_view(statements@[i as int]));
        assert(decreases_to!(statements => statements@[i as int]));
        out.append(statements[i].fmt_helper(indentation).as_str());
        out.append("\n");
        i = i + 1;
    }
    assert(all.take(i as int) =~= all);
    out
}

fn fmt_function_satisfy(fss: &FunctionSatisfyStatement) -> (r: String)
    ensures
        r@ == function_text(fss.name@, views(fss.declarations@)),
{
    let mut out = "let ".to_owned();
    out.append(fss.name.as_str());
    let n = fss.declarations.len();
    if n > 0 {
        assert(views(fss.declarations@).take(n - 1) =~= views(fss.declarations@).drop_last());
        out.append(write_first_args(&fss.declarations, n - 1).as_str());
        out.append(" -> ");
        out.append(fss.declarations[n - 1].to_text().as_str());
    }
    out
}

// Writes out a block, starting with the space before the open-brace, indenting the rest.
fn write_block(body: &Body, indentation: &str) -> (r: String)
    ensures
        r@ == block_text(body@.statements, indentation@),
    decreases body,
{
    let mut out = " {\n".to_owned();
    let inner = add_indent(indentation);
    out.append(write_lines(&body.statements, inner.as_str()).as_str());
    out.append(indentation);
    out.append("}");
    out
}

impl Statement {
    /// Writes the statement, without indentation.
    pub fn to_text(&self) -> (r: String)
        ensures
            r@ == statement_text(self@, Seq::empty()),
    {
        proof {
            reveal_strlit("");
            assert(""@ =~= Seq::<char>::empty());
        }
        self.fmt_helper("")
    }

    #[verifier::rlimit(60)]
    fn fmt_helper(&self, indentation: &str) -> (r: String)
        ensures
            r@ == statement_text(self@, indentation@),
        decreases self,
    {
        let mut out = indentation.to_owned();
        match &self.statement {
            StatementInfo::Let(ls) => {
                out.append("let ");
                out.append(ls.name.as_str());
                out.append(": ");
                out.append(ls.type_expr.to_text().as_str());
                out.append(" = ");
                out.append(ls.value.to_text().as_str());
            },
            StatementInfo::Define(ds) => {
                out.append("define ");
                out.append(ds.name.as_str());
                out.append(write_type_params(&ds.type_params).as_str());
                out.append(write_args(&ds.args).as_str());
                out.append(" -> ");
                out.append(ds.return_type.to_text().as_str());
                out.append(": ");
                out.append(ds.return_value.to_text().as_str());
            },
            StatementInfo::Theorem(ts) => {
                if ts.axiomatic {
                    out.append("axiom");
                } else {
                    out.append("theorem");
                }
                out.append(" ");
                out.append(ts.name.as_str());
                out.append(write_type_params(&ts.type_params).as_str());
                out.append(write_args(&ts.args).as_str());
                out.append(": ");
                out.append(ts.claim.to_text().as_str());
                if let Some(body) = &ts.body {
                    out.append(" by");
                    out.append(write_block(body, indentation).as_str());
                }
            },
            StatementInfo::Prop(ps) => {
                out.append(ps.claim.to_text().as_str());
            },
            StatementInfo::Type(ts) => {
                out.append("type ");
                out.append(ts.name.as_str());
                out.append(": ");
                out.append(ts.type_expr.to_text().as_str());
            },
            StatementInfo::ForAll(fas) => {
                out.append("forall");
                out.append(write_args(&fas.quantifiers).as_str());
                out.append(write_block(&fas.body, indentation).as_str());
            },
            StatementInfo::If(is) => {
                out.append("if ");
                out.append(is.condition.to_text().as_str());
                out.append(write_block(&is.body, indentation).as_str());
                if let Some(else_body) = &is.else_body {
                    out.append(" else");
                    out.append(write_block(else_body, indentation).as_str());
                }
            },
            StatementInfo::Exists(es) => {
                out.append("exists");
                out.append(write_args(&es.quantifiers).as_str());
                out.append(" {\n");
                out.append(add_indent(indentation).as_str());
                out.append(es.claim.to_text().as_str());
                out.append("\n");
                out.append(indentation);
                out.append("}");
            },
            StatementInfo::Struct(ss) => {
                out.append("struct ");
                out.append(ss.name.as_str());
                out.append(" {\n");
                out.append(write_fields(&ss.fields, add_indent(indentation).as_str()).as_str());
                out.append(indentation);
                out.append("}");
            },
            StatementInfo::Import(is) => {
                if is.names.len() == 0 {
                    out.append("import ");
                    out.append(join(&is.components, ".").as_str());
                } else {
                    out.append("from ");
                    out.append(join(&is.components, ".").as_str());
                    out.append(" import ");
                    out.append(join(&token_strings(&is.names), ", ").as_str());
                }
            },
            StatementInfo::Class(cs) => {
                out.append("class ");
                out.append(cs.name.as_str());
                out.append(write_block(&cs.body, indentation).as_str());
            },
            StatementInfo::Default(ds) => {
                out.append("default ");
                out.append(ds.type_expr.to_text().as_str());
            },
            StatementInfo::Solve(ss) => {
                out.append("solve ");
                out.append(ss.target.to_text().as_str());
                out.append(" by");
                out.append(write_block(&ss.body, indentation).as_str());
            },
            StatementInfo::VariableSatisfy(vss) => {
                out.append("let ");
                if vss.declarations.len() == 1 {
                    out.append(vss.declarations[0].to_text().as_str());
                } else {
                    out.append(write_args(&vss.declarations).as_str());
                }
                out.append(write_condition(&vss.condition, indentation).as_str());
            },
            StatementInfo::FunctionSatisfy(fss) => {
                out.append(fmt_function_satisfy(fss).as_str());
                out.append(write_condition(&fss.condition, indentation).as_str());
                if let Some(body) = &fss.body {
                    out.append(" by");
                    out.append(write_block(body, indentation).as_str());
                }
            },
            StatementInfo::Inductive(is) => {
                out.append("inductive ");
                out.append(is.name.as_str());
                out.append(" {\n");
                out.append(
                    write_constructors(
                        &is.constructors,
                        add_indent(indentation).as_str(),
                    ).as_str(),
                );
                out.append(indentation);
                out.append("}");
            },
            StatementInfo::Problem(body) => {
                out.append("problem");
                out.append(write_block(body, indentation).as_str());
            },
        }
        out
    }

    /// The stretch of source that the statement covers.
    pub fn range(&self) -> (r: Range)
        ensures
            r == (Range { start: self@.first_token.start_pos(), end: self@.last_token.end_pos() }),
    {
        Range { start: self.first_token.start_pos(), end: self.last_token.end_pos() }
    }

    /// The line on which the statement starts.
    pub fn first_line(&self) -> (r: u32)
        ensures
            r == self@.first_token.line_number,
    {
        self.first_token.start_pos().line
    }

    /// The line on which the statement ends.
    pub fn last_line(&self) -> (r: u32)
        ensures
            r == self@.last_token.line_number,
    {
        self.last_token.line_number
    }
}

/// The kinds of token that end an expression: just one.
pub open spec fn stop_on(t: TokenType) -> Stop {
    Stop { first: t, second: t }
}

/// The statements of a block whose left brace stands before `pos`, after the statements `acc`,
/// and its right brace.
pub open spec fn parse_block(ts: Seq<TokenV>, pos: int, acc: Seq<StatementV>) -> Result<
    (Seq<StatementV>, TokenV, int),
    ErrorV,
>
    decreases ts.len() - pos, 1int,
{
    match parse_statement(ts, pos, true) {
        Err(e) => Err(e),
        Ok((Some(s), Some(brace), p)) => Ok((acc.push(s), brace, p)),
        Ok((Some(s), None, p)) => if pos < p <= ts.len() {
            parse_block(ts, p, acc.push(s))
        } else {
            Err(error_here(ts, p, "expected statement but got EOF"@))
        },
        Ok((None, Some(brace), p)) => Ok((acc, brace, p)),
        Ok((None, None, p)) => Err(error_here(ts, p, "expected statement but got EOF"@)),
    }
}

/// The block whose left brace has been taken.
pub open spec fn parse_body(ts: Seq<TokenV>, pos: int, left_brace: TokenV) -> Result<
    (BodyV, int),
    ErrorV,
>
    decreases ts.len() - pos, 2int,
{
    match parse_block(ts, pos, Seq::empty()) {
        Err(e) => Err(e),
        Ok((statements, right_brace, p)) => Ok((BodyV { left_brace, statements, right_brace }, p)),
    }
}

/// A left brace and the block after it.
pub open spec fn parse_braced(ts: Seq<TokenV>, pos: int) -> Result<(BodyV, int), ErrorV>
    decreases ts.len() - pos, 3int,
{
    match expect_type(ts, pos, TokenType::LeftBrace) {
        Err(e) => Err(e),
        Ok((left_brace, p)) => parse_body(ts, p, left_brace),
    }
}

/// The type parameters whose left angle bracket stands before `pos`, after those in `acc`.
pub open spec fn parse_type_params(ts: Seq<TokenV>, pos: int, acc: Seq<TokenV>) -> Result<
    (Seq<TokenV>, int),
    ErrorV,
>
    decreases ts.len() - pos,
{
    match expect_type(ts, pos, TokenType::Identifier) {
        Err(e) => Err(e),
        Ok((name, p1)) => match expect_token(ts, p1) {
            Err(e) => Err(e),
            Ok((t, p2)) => if t.token_type == TokenType::GreaterThan {
                Ok((acc.push(name), p2))
            } else if t.token_type == TokenType::Comma {
                parse_type_params(ts, p2, acc.push(name))
            } else {
                Err(ErrorV::at(t, "expected '>' or ',' in template type list"@))
            },
        },
    }
}

/// The next token, where it is of one of two kinds, and where to go on.
pub open spec fn expect_stop(ts: Seq<TokenV>, pos: int, expected: Stop) -> Result<
    (TokenV, int),
    ErrorV,
> {
    if pos >= ts.len() {
        Err(error_here(ts, pos, "unexpected end of file"@))
    } else if expected.at(ts[pos].token_type) {
        Ok((ts[pos], pos + 1))
    } else {
        Err(ErrorV::at(ts[pos], "unexpected token"@))
    }
}

/// The arguments whose left parenthesis stands before `pos`, after those in `acc`, and the token
/// that ends the whole.
pub open spec fn parse_arg_list(
    ts: Seq<TokenV>,
    pos: int,
    terminator: Stop,
    acc: Seq<ExprV>,
) -> Result<(Seq<ExprV>, TokenV, int), ErrorV>
    decreases ts.len() - pos,
{
    match parse_expr(
        ts,
        pos,
        false,
        Stop { first: TokenType::Comma, second: TokenType::RightParen },
    ) {
        Err(e) => Err(e),
        Ok((e, t, p)) => if t.token_type == TokenType::RightParen {
            match expect_stop(ts, p, terminator) {
                Err(e) => Err(e),
                Ok((end, p2)) => Ok((acc.push(e), end, p2)),
            }
        } else if pos < p <= ts.len() {
            parse_arg_list(ts, p, terminator, acc.push(e))
        } else {
            Err(error_here(ts, p, "expected an argument list"@))
        },
    }
}

/// Type parameters and arguments, both optional, up to a terminator: the `<T>(a: T, f: T -> T)`
/// of a definition.
pub open spec fn parse_args(ts: Seq<TokenV>, pos: int, terminator: Stop) -> Result<
    (Seq<TokenV>, Seq<ExprV>, TokenV, int),
    ErrorV,
> {
    match expect_token(ts, pos) {
        Err(e) => Err(e),
        Ok((t, p)) => if terminator.at(t.token_type) {
            Ok((Seq::empty(), Seq::empty(), t, p))
        } else if t.token_type == TokenType::LessThan {
            match parse_type_params(ts, p, Seq::empty()) {
                Err(e) => Err(e),
                Ok((params, p1)) => match expect_token(ts, p1) {
                    Err(e) => Err(e),
                    Ok((t1, p2)) => if t1.token_type != TokenType::LeftParen {
                        Err(ErrorV::at(t1, "expected an argument list"@))
                    } else {
                        match parse_arg_list(ts, p2, terminator, Seq::empty()) {
                            Err(e) => Err(e),
                            Ok((args, end, p3)) => Ok((params, args, end, p3)),
                        }
                    },
                },
            }
        } else if t.token_type != TokenType::LeftParen {
            Err(ErrorV::at(t, "expected an argument list"@))
        } else {
            match parse_arg_list(ts, p, terminator, Seq::empty()) {
                Err(e) => Err(e),
                Ok((args, end, p3)) => Ok((Seq::empty(), args, end, p3)),
            }
        },
    }
}

/// The block after `by`, where the token at `pos` is one or the token before is, and the last
/// token of the statement.
pub open spec fn parse_proof(ts: Seq<TokenV>, pos: int, end: TokenV) -> Result<
    (Option<BodyV>, TokenV, int),
    ErrorV,
>
    decreases ts.len() - pos, 4int,
{
    // The "by" may be on the next line.
    let by_next = 0 <= pos < ts.len() && ts[pos].token_type == TokenType::By;
    let p = if by_next { pos + 1 } else { pos };
    if by_next || end.token_type == TokenType::By {
        match parse_braced(ts, p) {
            Err(e) => Err(e),
            Ok((body, p2)) => Ok((Some(body), body.right_brace, p2)),
        }
    } else {
        Ok((None, end, p))
    }
}

/// The theorem whose keyword stands before `pos`. The claim comes after a colon, or in braces.
pub open spec fn parse_theorem(ts: Seq<TokenV>, pos: int, keyword: TokenV, axiomatic: bool) -> Result<
    (StatementV, int),
    ErrorV,
>
    decreases ts.len() - pos, 5int,
{
    match expect_type(ts, pos, TokenType::Identifier) {
        Err(e) => Err(e),
        Ok((t, p1)) => if !valid_variable_name(t.text) {
            Err(ErrorV::at(t, "invalid theorem name"@))
        } else {
            match parse_args(
                ts,
                p1,
                Stop { first: TokenType::Colon, second: TokenType::LeftBrace },
            ) {
                Err(e) => Err(e),
                Ok((type_params, args, opening, p2)) => if type_params.len() > 1 {
                    Err(ErrorV::at(type_params[1], "only one type parameter is supported"@))
                } else {
                    match parse_expr(
                        ts,
                        after_newlines(ts, p2),
                        true,
                        if opening.token_type == TokenType::LeftBrace {
                            stop_on(TokenType::RightBrace)
                        } else {
                            Stop { first: TokenType::NewLine, second: TokenType::By }
                        },
                    ) {
                        Err(e) => Err(e),
                        Ok((claim, end, p3)) => if pos < p3 <= ts.len() {
                            match parse_proof(ts, p3, end) {
                                Err(e) => Err(e),
                                Ok((body, last_token, p4)) => Ok(
                                    (
                                        StatementV {
                                            first_token: keyword,
                                            last_token,
                                            statement: InfoV::Theorem {
                                                axiomatic,
                                                name: t.text,
                                                type_params,
                                                args,
                                                claim,
                                                body,
                                            },
                                        },
                                        p4,
                                    ),
                                ),
                            }
                        } else {
                            Err(error_here(ts, p3, "expected a claim"@))
                        },
                    }
                },
            }
        },
    }
}

/// The condition in braces after `satisfy`, and its right brace.
pub open spec fn parse_condition(ts: Seq<TokenV>, pos: int) -> Result<
    (ExprV, TokenV, int),
    ErrorV,
> {
    match expect_type(ts, pos, TokenType::LeftBrace) {
        Err(e) => Err(e),
        Ok((_, p)) => parse_expr(ts, p, true, stop_on(TokenType::RightBrace)),
    }
}

/// The declarations and the condition of variables, where the declarations have been read.
pub open spec fn parse_variable_satisfy(
    ts: Seq<TokenV>,
    pos: int,
    keyword: TokenV,
    declarations: Seq<ExprV>,
) -> Result<(StatementV, int), ErrorV> {
    match parse_condition(ts, pos) {
        Err(e) => Err(e),
        Ok((condition, last_token, p)) => Ok(
            (
                StatementV {
                    first_token: keyword,
                    last_token,
                    statement: InfoV::VariableSatisfy { declarations, condition },
                },
                p,
            ),
        ),
    }
}

/// A function given by a condition: `pos` is after its name and the left parenthesis.
pub open spec fn parse_function_satisfy(
    ts: Seq<TokenV>,
    pos: int,
    keyword: TokenV,
    name_token: TokenV,
) -> Result<(StatementV, int), ErrorV>
    decreases ts.len() - pos, 5int,
{
    match parse_arg_list(ts, pos, stop_on(TokenType::RightArrow), Seq::empty()) {
        Err(e) => Err(e),
        Ok((args, _, p1)) => match parse_expr(ts, p1, false, stop_on(TokenType::Satisfy)) {
            Err(e) => Err(e),
            Ok((value, satisfy_token, p2)) => match parse_condition(ts, p2) {
                Err(e) => Err(e),
                Ok((condition, brace, p3)) => if pos < p3 <= ts.len() {
                    match parse_proof(ts, p3, brace) {
                        Err(e) => Err(e),
                        Ok((body, last_token, p4)) => Ok(
                            (
                                StatementV {
                                    first_token: keyword,
                                    last_token,
                                    statement: InfoV::FunctionSatisfy {
                                        name: name_token.text,
                                        name_token,
                                        declarations: args.push(value),
                                        satisfy_token,
                                        condition,
                                        body,
                                    },
                                },
                                p4,
                            ),
                        ),
                    }
                } else {
                    Err(error_here(ts, p3, "expected a block"@))
                },
            },
        },
    }
}

/// The let statement whose keyword stands before `pos`: with a value, or with a condition.
pub open spec fn parse_let(ts: Seq<TokenV>, pos: int, keyword: TokenV) -> Result<
    (StatementV, int),
    ErrorV,
>
    decreases ts.len() - pos, 6int,
{
    match expect_token(ts, pos) {
        Err(e) => Err(e),
        Ok((name_token, p1)) => if name_token.token_type == TokenType::LeftParen {
            match parse_arg_list(ts, p1, stop_on(TokenType::Satisfy), Seq::empty()) {
                Err(e) => Err(e),
                Ok((declarations, _, p2)) => parse_variable_satisfy(
                    ts,
                    p2,
                    keyword,
                    declarations,
                ),
            }
        } else if name_token.token_type != TokenType::Identifier && name_token.token_type
            != TokenType::Number {
            Err(ErrorV::at(name_token, "expected identifier or number"@))
        } else if !valid_variable_name(name_token.text) {
            Err(ErrorV::at(keyword, "invalid variable name"@))
        } else if p1 < ts.len() && ts[p1].token_type == TokenType::LeftParen {
            parse_function_satisfy(ts, p1 + 1, keyword, name_token)
        } else {
            match expect_type(ts, p1, TokenType::Colon) {
                Err(e) => Err(e),
                Ok((colon, p2)) => match parse_expr(
                    ts,
                    p2,
                    false,
                    Stop { first: TokenType::Equals, second: TokenType::Satisfy },
                ) {
                    Err(e) => Err(e),
                    Ok((type_expr, t, p3)) => if t.token_type == TokenType::Satisfy {
                        parse_variable_satisfy(
                            ts,
                            p3,
                            keyword,
                            seq![
                                ExprV::Binary(
                                    Box::new(ExprV::Identifier(name_token)),
                                    colon,
                                    Box::new(type_expr),
                                ),
                            ],
                        )
                    } else {
                        match parse_expr(ts, p3, true, stop_on(TokenType::NewLine)) {
                            Err(e) => Err(e),
                            Ok((value, last_token, p4)) => Ok(
                                (
                                    StatementV {
                                        first_token: keyword,
                                        last_token,
                                        statement: InfoV::Let {
                                            name: name_token.text,
                                            name_token,
                                            type_expr,
                                            value,
                                        },
                                    },
                                    p4,
                                ),
                            ),
                        }
                    },
                },
            }
        },
    }
}

/// The define statement whose keyword stands before `pos`. The value comes after a colon, or in
/// braces.
pub open spec fn parse_define(ts: Seq<TokenV>, pos: int, keyword: TokenV) -> Result<
    (StatementV, int),
    ErrorV,
> {
    match expect_type(ts, pos, TokenType::Identifier) {
        Err(e) => Err(e),
        Ok((name_token, p1)) => if !valid_variable_name(name_token.text) {
            Err(ErrorV::at(keyword, "invalid variable name"@))
        } else {
            match parse_args(ts, p1, stop_on(TokenType::RightArrow)) {
                Err(e) => Err(e),
                Ok((type_params, args, _, p2)) => if type_params.len() > 1 {
                    Err(ErrorV::at(type_params[1], "only one type parameter is supported"@))
                } else {
                    match parse_expr(
                        ts,
                        p2,
                        false,
                        Stop { first: TokenType::Colon, second: TokenType::LeftBrace },
                    ) {
                        Err(e) => Err(e),
                        Ok((return_type, opening, p3)) => match parse_expr(
                            ts,
                            p3,
                            true,
                            if opening.token_type == TokenType::LeftBrace {
                                stop_on(TokenType::RightBrace)
                            } else {
                                stop_on(TokenType::NewLine)
                            },
                        ) {
                            Err(e) => Err(e),
                            Ok((return_value, last_token, p4)) => Ok(
                                (
                                    StatementV {
                                        first_token: keyword,
                                        last_token,
                                        statement: InfoV::Define {
                                            name: name_token.text,
                                            name_token,
                                            type_params,
                                            args,
                                            return_type,
                                            return_value,
                                        },
                                    },
                                    p4,
                                ),
                            ),
                        },
                    }
                },
            }
        },
    }
}

/// The type statement whose keyword stands before `pos`.
pub open spec fn parse_type(ts: Seq<TokenV>, pos: int, keyword: TokenV) -> Result<
    (StatementV, int),
    ErrorV,
> {
    match expect_type(ts, pos, TokenType::Identifier) {
        Err(e) => Err(e),
        Ok((name_token, p1)) => if !valid_type_name(name_token.text) {
            Err(ErrorV::at(name_token, "invalid type name"@))
        } else {
            match expect_type(ts, p1, TokenType::Colon) {
                Err(e) => Err(e),
                Ok((_, p2)) => match parse_expr(
                    ts,
                    after_newlines(ts, p2),
                    false,
                    stop_on(TokenType::NewLine),
                ) {
                    Err(e) => Err(e),
                    Ok((type_expr, _, p3)) => Ok(
                        (
                            StatementV {
                                first_token: keyword,
                                last_token: expr_last_token(type_expr),
                                statement: InfoV::Type { name: name_token.text, type_expr },
                            },
                            p3,
                        ),
                    ),
                },
            }
        },
    }
}

/// The forall statement whose keyword stands before `pos`.
pub open spec fn parse_forall(ts: Seq<TokenV>, pos: int, keyword: TokenV) -> Result<
    (StatementV, int),
    ErrorV,
>
    decreases ts.len() - pos, 4int,
{
    match parse_args(ts, pos, stop_on(TokenType::LeftBrace)) {
        Err(e) => Err(e),
        Ok((_, quantifiers, left_brace, p)) => if pos < p <= ts.len() {
            match parse_body(ts, p, left_brace) {
                Err(e) => Err(e),
                Ok((body, p2)) => Ok(
                    (
                        StatementV {
                            first_token: keyword,
                            last_token: body.right_brace,
                            statement: InfoV::ForAll { quantifiers, body },
                        },
                        p2,
                    ),
                ),
            }
        } else {
            Err(error_here(ts, p, "expected a block"@))
        },
    }
}

/// An `else` block, where one comes next, perhaps after line ends. Without one nothing is taken.
pub open spec fn parse_else(ts: Seq<TokenV>, pos: int) -> Result<(Option<BodyV>, int), ErrorV>
    decreases ts.len() - pos, 4int,
{
    let p = after_newlines(ts, pos);
    if pos <= p < ts.len() && ts[p].token_type == TokenType::Else {
        match parse_braced(ts, p + 1) {
            Err(e) => Err(e),
            Ok((body, p2)) => Ok((Some(body), p2)),
        }
    } else {
        Ok((None, pos))
    }
}

/// The if statement whose keyword stands before `pos`.
pub open spec fn parse_if(ts: Seq<TokenV>, pos: int, keyword: TokenV) -> Result<
    (StatementV, int),
    ErrorV,
>
    decreases ts.len() - pos, 4int,
{
    match parse_expr(ts, pos, true, stop_on(TokenType::LeftBrace)) {
        Err(e) => Err(e),
        Ok((condition, left_brace, p1)) => if pos < p1 <= ts.len() {
            match parse_body(ts, p1, left_brace) {
                Err(e) => Err(e),
                Ok((body, p2)) => if pos < p2 <= ts.len() {
                    match parse_else(ts, p2) {
                        Err(e) => Err(e),
                        Ok((else_body, p3)) => Ok(
                            (
                                StatementV {
                                    first_token: keyword,
                                    last_token: body.right_brace,
                                    statement: InfoV::If {
                                        condition,
                                        body,
                                        else_body,
                                        token: ts[pos],
                                    },
                                },
                                p3,
                            ),
                        ),
                    }
                } else {
                    Err(error_here(ts, p2, "expected a block"@))
                },
            }
        } else {
            Err(error_here(ts, p1, "expected a block"@))
        },
    }
}

/// The exists statement whose keyword stands before `pos`.
pub open spec fn parse_exists(ts: Seq<TokenV>, pos: int, keyword: TokenV) -> Result<
    (StatementV, int),
    ErrorV,
> {
    match parse_args(ts, pos, stop_on(TokenType::LeftBrace)) {
        Err(e) => Err(e),
        Ok((_, quantifiers, _, p1)) => match parse_expr(
            ts,
            p1,
            true,
            stop_on(TokenType::RightBrace),
        ) {
            Err(e) => Err(e),
            Ok((claim, last_token, p2)) => Ok(
                (
                    StatementV {
                        first_token: keyword,
                        last_token,
                        statement: InfoV::Exists { quantifiers, claim },
                    },
                    p2,
                ),
            ),
        },
    }
}

/// The fields of a struct from `pos` on, after those in `acc`, and the right brace.
pub open spec fn parse_fields(ts: Seq<TokenV>, pos: int, acc: Seq<(TokenV, ExprV)>) -> Result<
    (Seq<(TokenV, ExprV)>, TokenV, int),
    ErrorV,
>
    decreases ts.len() - pos,
{
    match expect_token(ts, pos) {
        Err(e) => Err(e),
        Ok((t, p1)) => if t.token_type == TokenType::NewLine {
            parse_fields(ts, p1, acc)
        } else if t.token_type == TokenType::RightBrace {
            if acc.len() == 0 {
                Err(ErrorV::at(t, "structs must have at least one field"@))
            } else {
                Ok((acc, t, p1))
            }
        } else if t.token_type == TokenType::Identifier {
            match expect_type(ts, p1, TokenType::Colon) {
                Err(e) => Err(e),
                Ok((_, p2)) => match parse_expr(
                    ts,
                    p2,
                    false,
                    Stop { first: TokenType::NewLine, second: TokenType::RightBrace },
                ) {
                    Err(e) => Err(e),
                    Ok((type_expr, end, p3)) => if end.token_type == TokenType::RightBrace {
                        Err(ErrorV::at(end, "field declarations must end with a newline"@))
                    } else if pos < p3 <= ts.len() {
                        parse_fields(ts, p3, acc.push((t, type_expr)))
                    } else {
                        Err(error_here(ts, p3, "expected field name"@))
                    },
                },
            }
        } else {
            Err(ErrorV::at(t, "expected field name"@))
        },
    }
}

/// The struct statement whose keyword stands before `pos`.
pub open spec fn parse_struct(ts: Seq<TokenV>, pos: int, keyword: TokenV) -> Result<
    (StatementV, int),
    ErrorV,
> {
    match expect_type(ts, pos, TokenType::Identifier) {
        Err(e) => Err(e),
        Ok((name_token, p1)) => if !valid_type_name(name_token.text) {
            Err(ErrorV::at(name_token, "invalid struct name"@))
        } else {
            match expect_type(ts, p1, TokenType::LeftBrace) {
                Err(e) => Err(e),
                Ok((_, p2)) => match parse_fields(ts, p2, Seq::empty()) {
                    Err(e) => Err(e),
                    Ok((fields, last_token, p3)) => Ok(
                        (
                            StatementV {
                                first_token: keyword,
                                last_token,
                                statement: InfoV::Struct {
                                    name: name_token.text,
                                    name_token,
                                    fields,
                                },
                            },
                            p3,
                        ),
                    ),
                },
            }
        },
    }
}

/// The components of a module path from `pos` on, after those in `acc`, and the token right
/// before the terminator, which is taken too.
pub open spec fn parse_components(
    ts: Seq<TokenV>,
    pos: int,
    terminator: TokenType,
    acc: Seq<Seq<char>>,
) -> Result<(Seq<Seq<char>>, TokenV, int), ErrorV>
    decreases ts.len() - pos,
{
    match expect_type(ts, pos, TokenType::Identifier) {
        Err(e) => Err(e),
        Ok((name, p1)) => match expect_token(ts, p1) {
            Err(e) => Err(e),
            Ok((t, p2)) => if t.token_type == terminator {
                Ok((acc.push(name.text), name, p2))
            } else if t.token_type == TokenType::Dot {
                parse_components(ts, p2, terminator, acc.push(name.text))
            } else {
                Err(ErrorV::at(t, "unexpected token in module path"@))
            },
        },
    }
}

/// The import statement whose keyword stands before `pos`.
pub open spec fn parse_import(ts: Seq<TokenV>, pos: int, keyword: TokenV) -> Result<
    (StatementV, int),
    ErrorV,
> {
    match parse_components(ts, pos, TokenType::NewLine, Seq::empty()) {
        Err(e) => Err(e),
        Ok((components, last_token, p)) => Ok(
            (
                StatementV {
                    first_token: keyword,
                    last_token,
                    statement: InfoV::Import { components, names: Seq::empty() },
                },
                p,
            ),
        ),
    }
}

/// The names that are imported, from `pos` on, after those in `acc`, and the last of them.
pub open spec fn parse_names(ts: Seq<TokenV>, pos: int, acc: Seq<TokenV>) -> Result<
    (Seq<TokenV>, TokenV, int),
    ErrorV,
>
    decreases ts.len() - pos,
{
    match expect_type(ts, pos, TokenType::Identifier) {
        Err(e) => Err(e),
        Ok((name, p1)) => match expect_token(ts, p1) {
            Err(e) => Err(e),
            Ok((t, p2)) => if t.token_type == TokenType::NewLine {
                Ok((acc.push(name), name, p2))
            } else if t.token_type == TokenType::Comma {
                parse_names(ts, p2, acc.push(name))
            } else {
                Err(ErrorV::at(name, "expected comma or newline"@))
            },
        },
    }
}

/// The from statement whose keyword stands before `pos`.
pub open spec fn parse_from(ts: Seq<TokenV>, pos: int, keyword: TokenV) -> Result<
    (StatementV, int),
    ErrorV,
> {
    match parse_components(ts, pos, TokenType::Import, Seq::empty()) {
        Err(e) => Err(e),
        Ok((components, _, p)) => match parse_names(ts, p, Seq::empty()) {
            Err(e) => Err(e),
            Ok((names, last_token, p2)) => Ok(
                (
                    StatementV {
                        first_token: keyword,
                        last_token,
                        statement: InfoV::Import { components, names },
                    },
                    p2,
                ),
            ),
        },
    }
}

/// The class statement whose keyword stands before `pos`.
pub open spec fn parse_class(ts: Seq<TokenV>, pos: int, keyword: TokenV) -> Result<
    (StatementV, int),
    ErrorV,
>
    decreases ts.len() - pos, 4int,
{
    match expect_type(ts, pos, TokenType::Identifier) {
        Err(e) => Err(e),
        Ok((name_token, p1)) => if !valid_type_name(name_token.text) {
            Err(ErrorV::at(name_token, "invalid class name"@))
        } else {
            match parse_braced(ts, p1) {
                Err(e) => Err(e),
                Ok((body, p2)) => Ok(
                    (
                        StatementV {
                            first_token: keyword,
                            last_token: body.right_brace,
                            statement: InfoV::Class { name: name_token.text, name_token, body },
                        },
                        p2,
                    ),
                ),
            }
        },
    }
}

/// The solve statement whose keyword stands before `pos`.
pub open spec fn parse_solve(ts: Seq<TokenV>, pos: int, keyword: TokenV) -> Result<
    (StatementV, int),
    ErrorV,
>
    decreases ts.len() - pos, 4int,
{
    match parse_expr(ts, pos, true, stop_on(TokenType::By)) {
        Err(e) => Err(e),
        Ok((target, _, p1)) => if pos < p1 <= ts.len() {
            match parse_braced(ts, p1) {
                Err(e) => Err(e),
                Ok((body, p2)) => Ok(
                    (
                        StatementV {
                            first_token: keyword,
                            last_token: body.right_brace,
                            statement: InfoV::Solve { target, body },
                        },
                        p2,
                    ),
                ),
            }
        } else {
            Err(error_here(ts, p1, "expected a block"@))
        },
    }
}

/// The default statement whose keyword stands before `pos`.
pub open spec fn parse_default(ts: Seq<TokenV>, pos: int, keyword: TokenV) -> Result<
    (StatementV, int),
    ErrorV,
> {
    match parse_expr(ts, pos, true, stop_on(TokenType::NewLine)) {
        Err(e) => Err(e),
        Ok((type_expr, last_token, p)) => Ok(
            (
                StatementV {
                    first_token: keyword,
                    last_token,
                    statement: InfoV::Default { type_expr },
                },
                p,
            ),
        ),
    }
}

/// The constructors of an inductive type from `pos` on, after those in `acc`, and the right brace.
pub open spec fn parse_constructors(
    ts: Seq<TokenV>,
    pos: int,
    acc: Seq<(TokenV, Option<ExprV>)>,
) -> Result<(Seq<(TokenV, Option<ExprV>)>, TokenV, int), ErrorV>
    decreases ts.len() - pos,
{
    match expect_token(ts, pos) {
        Err(e) => Err(e),
        Ok((t, p1)) => if t.token_type == TokenType::NewLine {
            parse_constructors(ts, p1, acc)
        } else if t.token_type == TokenType::RightBrace {
            if acc.len() == 0 {
                Err(ErrorV::at(t, "inductive statements must have at least one constructor"@))
            } else {
                Ok((acc, t, p1))
            }
        } else if t.token_type == TokenType::Identifier || t.token_type == TokenType::Number {
            match expect_token(ts, p1) {
                Err(e) => Err(e),
                Ok((next, p2)) => if next.token_type == TokenType::NewLine {
                    parse_constructors(ts, p2, acc.push((t, None)))
                } else if next.token_type != TokenType::LeftParen {
                    Err(ErrorV::at(next, "expected a constructor definition"@))
                } else {
                    match parse_expr(ts, p2, false, stop_on(TokenType::RightParen)) {
                        Err(e) => Err(e),
                        Ok((list, right, p3)) => match expect_type(ts, p3, TokenType::NewLine) {
                            Err(e) => Err(e),
                            Ok((_, p4)) => if pos < p4 <= ts.len() {
                                parse_constructors(
                                    ts,
                                    p4,
                                    acc.push(
                                        (t, Some(ExprV::Grouping(next, Box::new(list), right))),
                                    ),
                                )
                            } else {
                                Err(error_here(ts, p4, "expected a constructor definition"@))
                            },
                        },
                    }
                },
            }
        } else {
            Err(ErrorV::at(t, "expected a constructor definition"@))
        },
    }
}

/// The inductive statement whose keyword stands before `pos`.
pub open spec fn parse_inductive(ts: Seq<TokenV>, pos: int, keyword: TokenV) -> Result<
    (StatementV, int),
    ErrorV,
> {
    match expect_type(ts, pos, TokenType::Identifier) {
        Err(e) => Err(e),
        Ok((name_token, p1)) => if !valid_type_name(name_token.text) {
            Err(ErrorV::at(name_token, "invalid inductive type name"@))
        } else {
            match expect_type(ts, p1, TokenType::LeftBrace) {
                Err(e) => Err(e),
                Ok((_, p2)) => match parse_constructors(ts, p2, Seq::empty()) {
                    Err(e) => Err(e),
                    Ok((constructors, last_token, p3)) => Ok(
                        (
                            StatementV {
                                first_token: keyword,
                                last_token,
                                statement: InfoV::Inductive {
                                    name: name_token.text,
                                    name_token,
                                    constructors,
                                },
                            },
                            p3,
                        ),
                    ),
                },
            }
        },
    }
}

/// The problem statement whose keyword stands before `pos`.
pub open spec fn parse_problem(ts: Seq<TokenV>, pos: int, keyword: TokenV) -> Result<
    (StatementV, int),
    ErrorV,
>
    decreases ts.len() - pos, 4int,
{
    match parse_braced(ts, pos) {
        Err(e) => Err(e),
        Ok((body, p)) => Ok(
            (
                StatementV {
                    first_token: keyword,
                    last_token: body.right_brace,
                    statement: InfoV::Problem { body },
                },
                p,
            ),
        ),
    }
}

/// The proposition that starts at `pos`, and the right brace where one ends the block with it.
pub open spec fn parse_prop(ts: Seq<TokenV>, pos: int) -> Result<
    (StatementV, Option<TokenV>, int),
    ErrorV,
> {
    match parse_expr(
        ts,
        pos,
        true,
        Stop { first: TokenType::NewLine, second: TokenType::RightBrace },
    ) {
        Err(e) => Err(e),
        Ok((claim, end, p)) => Ok(
            (
                StatementV {
                    first_token: ts[pos],
                    last_token: expr_last_token(claim),
                    statement: InfoV::Prop { claim },
                },
                if end.token_type == TokenType::RightBrace {
                    Some(end)
                } else {
                    None
                },
                p,
            ),
        ),
    }
}

/// A statement that starts with a keyword.
pub open spec fn parse_keyword(ts: Seq<TokenV>, pos: int, t: TokenV) -> Result<
    (StatementV, int),
    ErrorV,
>
    decreases ts.len() - pos, 7int,
{
    match t.token_type {
        TokenType::Let => parse_let(ts, pos, t),
        TokenType::Axiom => parse_theorem(ts, pos, t, true),
        TokenType::Theorem => parse_theorem(ts, pos, t, false),
        TokenType::Define => parse_define(ts, pos, t),
        TokenType::Type => parse_type(ts, pos, t),
        TokenType::ForAll => parse_forall(ts, pos, t),
        TokenType::If => parse_if(ts, pos, t),
        TokenType::Exists => parse_exists(ts, pos, t),
        TokenType::Struct => parse_struct(ts, pos, t),
        TokenType::Import => parse_import(ts, pos, t),
        TokenType::Class => parse_class(ts, pos, t),
        TokenType::Default => parse_default(ts, pos, t),
        TokenType::From => parse_from(ts, pos, t),
        TokenType::Inductive => parse_inductive(ts, pos, t),
        TokenType::Problem => parse_problem(ts, pos, t),
        _ => parse_solve(ts, pos, t),
    }
}

/// Whether a token starts a statement of a kind of its own.
pub open spec fn is_keyword(t: TokenType) -> bool {
    t == TokenType::Let || t == TokenType::Axiom || t == TokenType::Theorem || t
        == TokenType::Define || t == TokenType::Type || t == TokenType::ForAll || t
        == TokenType::If || t == TokenType::Exists || t == TokenType::Struct || t
        == TokenType::Import || t == TokenType::Class || t == TokenType::Default || t
        == TokenType::From || t == TokenType::Solve || t == TokenType::Inductive || t
        == TokenType::Problem
}

/// The statement that comes next, the right brace where the block ends with it or instead of
/// it, and where to go on. Neither, at the end of the tokens.
pub open spec fn parse_statement(ts: Seq<TokenV>, pos: int, in_block: bool) -> Result<
    (Option<StatementV>, Option<TokenV>, int),
    ErrorV,
>
    decreases ts.len() - pos, 0int,
{
    let p = after_newlines(ts, pos);
    if !(pos <= p < ts.len()) {
        Ok((None, None, p))
    } else {
        let t = ts[p];
        if is_keyword(t.token_type) {
            match parse_keyword(ts, p + 1, t) {
                Err(e) => Err(e),
                Ok((s, p2)) => Ok((Some(s), None, p2)),
            }
        } else if t.token_type == TokenType::RightBrace {
            if !in_block {
                Err(ErrorV::at(t, "unmatched right brace at top level"@))
            } else {
                Ok((None, Some(t), p + 1))
            }
        } else if !in_block {
            Err(ErrorV::at(t, "unexpected token at the top level"@))
        } else {
            match parse_prop(ts, p) {
                Err(e) => Err(e),
                Ok((s, brace, p2)) => Ok((Some(s), brace, p2)),
            }
        }
    }
}

/// The model of a block that may be missing.
pub open spec fn opt_body_view(b: Option<Body>) -> Option<BodyV> {
    match b {
        Some(b) => Some(b@),
        None => None,
    }
}

/// The model of a statement that may be missing.
pub open spec fn opt_statement_view(s: Option<Statement>) -> Option<StatementV> {
    match s {
        Some(s) => Some(s@),
        None => None,
    }
}

/// The model of a token that may be missing.
pub open spec fn opt_token_view(t: Option<Token>) -> Option<TokenV> {
    match t {
        Some(t) => Some(t@),
        None => None,
    }
}

/// What comes of reading one statement outside blocks: the statement, if there is one, and where
/// the next starts.
#[verifier::opaque]
pub open spec fn next_statement(ts: Seq<TokenV>, pos: int) -> Result<
    (Option<StatementV>, int),
    ErrorV,
> {
    match parse_statement(ts, pos, false) {
        Err(e) => Err(e),
        Ok((s, _, p)) => Ok((s, p)),
    }
}

fn read_block(tokens: &mut TokenIter) -> (r: Result<(Vec<Statement>, Token), Error>)
    ensures
        final(tokens).all() == old(tokens).all(),
        match r {
            Ok((b, t)) => parse_block(old(tokens).all(), old(tokens).pos(), Seq::empty()) == Ok::<(Seq<StatementV>, TokenV, int), ErrorV>((statements_view(b@), t@, final(tokens).pos()))
                && old(tokens).pos() < final(tokens).pos() <= final(tokens).all().len(),
            Err(e) => parse_block(old(tokens).all(), old(tokens).pos(), Seq::empty()) == Err::<(Seq<StatementV>, TokenV, int), ErrorV>(e@),
        },
    decreases old(tokens).all().len() - old(tokens).pos(), 1int,
{
    broadcast use crate::text::group_views;
    let mut body: Vec<Statement> = Vec::new();
    assert(statements_view(body@) =~= Seq::<StatementV>::empty());
    loop
        invariant
            tokens.all() == old(tokens).all(),
            old(tokens).pos() == tokens.pos() || old(tokens).pos() < tokens.pos()
                <= tokens.all().len(),
            parse_block(tokens.all(), old(tokens).pos(), Seq::empty()) == parse_block(
                tokens.all(),
                tokens.pos(),
                statements_view(body@),
            ),
        decreases tokens.all().len() - tokens.pos(),
    {
        let ghost before = body@;
        match Statement::parse(tokens, true) {
            Err(e) => {
                return Err(e);
            },
            Ok((Some(s), maybe_right_brace)) => {
                body.push(s);
                assert(statements_view(body@) =~= statements_view(before).push(s@));
                if let Some(brace) = maybe_right_brace {
                    return Ok((body, brace));
                }
            },
            Ok((None, Some(brace))) => {
                return Ok((body, brace));
            },
            Ok((None, None)) => {
                return Err(tokens.error("expected statement but got EOF"));
            },
        }
    }
}

fn read_body(tokens: &mut TokenIter, left_brace: Token) -> (r: Result<Body, Error>)
    ensures
        final(tokens).all() == old(tokens).all(),
        match r {
            Ok(b) => parse_body(old(tokens).all(), old(tokens).pos(), left_brace@) == Ok::<(BodyV, int), ErrorV>((b@, final(tokens).pos()))
                && old(tokens).pos() < final(tokens).pos() <= final(tokens).all().len(),
            Err(e) => parse_body(old(tokens).all(), old(tokens).pos(), left_brace@) == Err::<(BodyV, int), ErrorV>(e@),
        },
    decreases old(tokens).all().len() - old(tokens).pos(), 2int,
{
    broadcast use crate::text::group_views;
    let (statements, right_brace) = match read_block(tokens) {
        Err(e) => {
            return Err(e);
        },
        Ok(x) => x,
    };
    Ok(Body { left_brace, statements, right_brace })
}

fn read_braced(tokens: &mut TokenIter) -> (r: Result<Body, Error>)
    ensures
        final(tokens).all() == old(tokens).all(),
        match r {
            Ok(b) => parse_braced(old(tokens).all(), old(tokens).pos()) == Ok::<(BodyV, int), ErrorV>((b@, final(tokens).pos()))
                && old(tokens).pos() < final(tokens).pos() <= final(tokens).all().len(),
            Err(e) => parse_braced(old(tokens).all(), old(tokens).pos()) == Err::<(BodyV, int), ErrorV>(e@),
        },
    decreases old(tokens).all().len() - old(tokens).pos(), 3int,
{
    broadcast use crate::text::group_views;
    let left_brace = match Token::expect_type(tokens, TokenType::LeftBrace) {
        Err(e) => {
            return Err(e);
        },
        Ok(x) => x,
    };
    read_body(tokens, left_brace)
}

fn read_type_params(tokens: &mut TokenIter) -> (r: Result<Vec<Token>, Error>)
    ensures
        final(tokens).all() == old(tokens).all(),
        match r {
            Ok(v) => parse_type_params(old(tokens).all(), old(tokens).pos(), Seq::empty()) == Ok::<(Seq<TokenV>, int), ErrorV>((views(v@), final(tokens).pos()))
                && old(tokens).pos() < final(tokens).pos() <= final(tokens).all().len(),
            Err(e) => parse_type_params(old(tokens).all(), old(tokens).pos(), Seq::empty()) == Err::<(Seq<TokenV>, int), ErrorV>(e@),
        },
{
    broadcast use crate::text::group_views;
    let mut params: Vec<Token> = Vec::new();
    loop
        invariant
            tokens.all() == old(tokens).all(),
            old(tokens).pos() <= tokens.pos(),
            parse_type_params(tokens.all(), old(tokens).pos(), Seq::empty()) == parse_type_params(
                tokens.all(),
                tokens.pos(),
                views(params@),
            ),
        decreases tokens.all().len() - tokens.pos(),
    {
        broadcast use crate::text::group_views;
        let name = match Token::expect_type(tokens, TokenType::Identifier) {
            Err(e) => {
                return Err(e);
            },
            Ok(x) => x,
        };
        let t = match Token::expect_token(tokens) {
            Err(e) => {
                return Err(e);
            },
            Ok(x) => x,
        };
        params.push(name);
        if t.token_type == TokenType::GreaterThan {
            return Ok(params);
        }
        if t.token_type != TokenType::Comma {
            return Err(Error::at(&t, "expected '>' or ',' in template type list"));
        }
    }
}

fn read_arg_list(tokens: &mut TokenIter, terminator: Stop) -> (r: Result<(Vec<Expression>, Token), Error>)
    ensures
        final(tokens).all() == old(tokens).all(),
        match r {
            Ok((v, t)) => parse_arg_list(old(tokens).all(), old(tokens).pos(), terminator, Seq::empty()) == Ok::<(Seq<ExprV>, TokenV, int), ErrorV>((views(v@), t@, final(tokens).pos()))
                && old(tokens).pos() < final(tokens).pos() <= final(tokens).all().len(),
            Err(e) => parse_arg_list(old(tokens).all(), old(tokens).pos(), terminator, Seq::empty()) == Err::<(Seq<ExprV>, TokenV, int), ErrorV>(e@),
        },
{
    broadcast use crate::text::group_views;
    let mut args: Vec<Expression> = Vec::new();
    loop
        invariant
            tokens.all() == old(tokens).all(),
            old(tokens).pos() <= tokens.pos(),
            parse_arg_list(tokens.all(), old(tokens).pos(), terminator, Seq::empty())
                == parse_arg_list(tokens.all(), tokens.pos(), terminator, views(args@)),
        decreases tokens.all().len() - tokens.pos(),
    {
        broadcast use crate::text::group_views;
        let (exp, t) = match Expression::parse(
                tokens,
                false,
                Stop { first: TokenType::Comma, second: TokenType::RightParen },
            ) {
            Err(e) => {
                return Err(e);
            },
            Ok(x) => x,
        };
        args.push(exp);
        if t.token_type == TokenType::RightParen {
            return match read_stop(tokens, terminator) {
                Err(e) => Err(e),
                Ok(end) => Ok((args, end)),
            };
        }
    }
}

fn read_args(tokens: &mut TokenIter, terminator: Stop) -> (r: Result<(Vec<Token>, Vec<Expression>, Token), Error>)
    ensures
        final(tokens).all() == old(tokens).all(),
        match r {
            Ok((v, w, t)) => parse_args(old(tokens).all(), old(tokens).pos(), terminator) == Ok::<(Seq<TokenV>, Seq<ExprV>, TokenV, int), ErrorV>((views(v@), views(w@), t@, final(tokens).pos()))
                && old(tokens).pos() < final(tokens).pos() <= final(tokens).all().len(),
            Err(e) => parse_args(old(tokens).all(), old(tokens).pos(), terminator) == Err::<(Seq<TokenV>, Seq<ExprV>, TokenV, int), ErrorV>(e@),
        },
{
    broadcast use crate::text::group_views;
    let mut token = match Token::expect_token(tokens) {
        Err(e) => {
            return Err(e);
        },
        Ok(x) => x,
    };
    if terminator.matches(token.token_type) {
        return Ok((Vec::new(), Vec::new(), token));
    }
    let mut type_params: Vec<Token> = Vec::new();
    if token.token_type == TokenType::LessThan {
        type_params = match read_type_params(tokens) {
            Err(e) => {
                return Err(e);
            },
            Ok(v) => v,
        };
        token = match Token::expect_token(tokens) {
            Err(e) => {
                return Err(e);
            },
            Ok(t) => t,
        };
    }
    if token.token_type != TokenType::LeftParen {
        return Err(Error::at(&token, "expected an argument list"));
    }
    match read_arg_list(tokens, terminator) {
        Err(e) => Err(e),
        Ok((args, end)) => Ok((type_params, args, end)),
    }
}

fn read_stop(tokens: &mut TokenIter, expected: Stop) -> (r: Result<Token, Error>)
    ensures
        final(tokens).all() == old(tokens).all(),
        match r {
            Ok(t) => expect_stop(old(tokens).all(), old(tokens).pos(), expected) == Ok::<(TokenV, int), ErrorV>((t@, final(tokens).pos()))
                && old(tokens).pos() < final(tokens).pos() <= final(tokens).all().len(),
            Err(e) => expect_stop(old(tokens).all(), old(tokens).pos(), expected) == Err::<(TokenV, int), ErrorV>(e@),
        },
{
    broadcast use crate::text::group_views;
    match tokens.next() {
        Some(t) => {
            if expected.matches(t.token_type) {
                Ok(t)
            } else {
                Err(Error::at(&t, "unexpected token"))
            }
        },
        None => Err(tokens.error("unexpected end of file")),
    }
}

fn read_proof(tokens: &mut TokenIter, end: Token) -> (r: Result<(Option<Body>, Token), Error>)
    ensures
        final(tokens).all() == old(tokens).all(),
        match r {
            Ok((b, t)) => parse_proof(old(tokens).all(), old(tokens).pos(), end@) == Ok::<(Option<BodyV>, TokenV, int), ErrorV>((opt_body_view(b), t@, final(tokens).pos()))
                && old(tokens).pos() <= final(tokens).pos() && (old(tokens).pos()
                <= final(tokens).all().len() ==> final(tokens).pos() <= final(tokens).all().len()),
            Err(e) => parse_proof(old(tokens).all(), old(tokens).pos(), end@) == Err::<(Option<BodyV>, TokenV, int), ErrorV>(e@),
        },
    decreases old(tokens).all().len() - old(tokens).pos(), 4int,
{
    broadcast use crate::text::group_views;
    let mut is_by = end.token_type == TokenType::By;
    // Let the "by" be after one newline
    if let Some(t) = tokens.peek_type() {
        if t == TokenType::By {
            let _ = tokens.next();
            is_by = true;
        }
    }
    if is_by {
        match read_braced(tokens) {
            Err(e) => Err(e),
            Ok(body) => {
                let last_token = body.right_brace.clone();
                Ok((Some(body), last_token))
            },
        }
    } else {
        Ok((None, end))
    }
}

fn parse_theorem_statement(keyword: Token, tokens: &mut TokenIter, axiomatic: bool) -> (r: Result<Statement, Error>)
    ensures
        final(tokens).all() == old(tokens).all(),
        match r {
            Ok(s) => parse_theorem(old(tokens).all(), old(tokens).pos(), keyword@, axiomatic) == Ok::<(StatementV, int), ErrorV>((s@, final(tokens).pos()))
                && old(tokens).pos() < final(tokens).pos() <= final(tokens).all().len(),
            Err(e) => parse_theorem(old(tokens).all(), old(tokens).pos(), keyword@, axiomatic) == Err::<(StatementV, int), ErrorV>(e@),
        },
    decreases old(tokens).all().len() - old(tokens).pos(), 5int,
{
    broadcast use crate::text::group_views;
    let token = match Token::expect_type(tokens, TokenType::Identifier) {
        Err(e) => {
            return Err(e);
        },
        Ok(x) => x,
    };
    let name = token.text().to_owned();
    if !Token::is_valid_variable_name(name.as_str()) {
        return Err(Error::at(&token, "invalid theorem name"));
    }
    let (type_params, args, opening) = match read_args(
        tokens,
        Stop { first: TokenType::Colon, second: TokenType::LeftBrace },
    ) {
        Err(e) => {
            return Err(e);
        },
        Ok(x) => x,
    };
    if type_params.len() > 1 {
        return Err(Error::at(&type_params[1], "only one type parameter is supported"));
    }
    Token::skip_newlines(tokens);
    let stop = if opening.token_type == TokenType::LeftBrace {
        Stop::on(TokenType::RightBrace)
    } else {
        Stop { first: TokenType::NewLine, second: TokenType::By }
    };
    let (claim, end) = match Expression::parse(tokens, true, stop) {
        Err(e) => {
            return Err(e);
        },
        Ok(x) => x,
    };
    let (body, last_token) = match read_proof(tokens, end) {
        Err(e) => {
            return Err(e);
        },
        Ok(x) => x,
    };
    let ts = TheoremStatement { axiomatic, name, type_params, args, claim, body };
    Ok(Statement { first_token: keyword, last_token, statement: StatementInfo::Theorem(ts) })
}

fn read_condition(tokens: &mut TokenIter) -> (r: Result<(Expression, Token), Error>)
    ensures
        final(tokens).all() == old(tokens).all(),
        match r {
            Ok((e, t)) => parse_condition(old(tokens).all(), old(tokens).pos()) == Ok::<(ExprV, TokenV, int), ErrorV>((e@, t@, final(tokens).pos()))
                && old(tokens).pos() < final(tokens).pos() <= final(tokens).all().len(),
            Err(e) => parse_condition(old(tokens).all(), old(tokens).pos()) == Err::<(ExprV, TokenV, int), ErrorV>(e@),
        },
{
    broadcast use crate::text::group_views;
    match Token::expect_type(tokens, TokenType::LeftBrace) {
        Err(e) => {
            return Err(e);
        },
        Ok(_) => {},
    }
    Expression::parse(tokens, true, Stop::on(TokenType::RightBrace))
}

fn parse_variable_satisfy_statement(keyword: Token, tokens: &mut TokenIter, declarations: Vec<Expression>) -> (r: Result<Statement, Error>)
    ensures
        final(tokens).all() == old(tokens).all(),
        match r {
            Ok(s) => parse_variable_satisfy(old(tokens).all(), old(tokens).pos(), keyword@, views(declarations@)) == Ok::<(StatementV, int), ErrorV>((s@, final(tokens).pos()))
                && old(tokens).pos() < final(tokens).pos() <= final(tokens).all().len(),
            Err(e) => parse_variable_satisfy(old(tokens).all(), old(tokens).pos(), keyword@, views(declarations@)) == Err::<(StatementV, int), ErrorV>(e@),
        },
{
    broadcast use crate::text::group_views;
    let (condition, last_token) = match read_condition(tokens) {
        Err(e) => {
            return Err(e);
        },
        Ok(x) => x,
    };
    let vss = VariableSatisfyStatement { declarations, condition };
    Ok(
        Statement {
            first_token: keyword,
            last_token,
            statement: StatementInfo::VariableSatisfy(vss),
        },
    )
}

fn parse_function_satisfy_statement(keyword: Token, tokens: &mut TokenIter, name_token: Token) -> (r: Result<Statement, Error>)
    ensures
        final(tokens).all() == old(tokens).all(),
        match r {
            Ok(s) => parse_function_satisfy(old(tokens).all(), old(tokens).pos(), keyword@, name_token@) == Ok::<(StatementV, int), ErrorV>((s@, final(tokens).pos()))
                && old(tokens).pos() < final(tokens).pos() <= final(tokens).all().len(),
            Err(e) => parse_function_satisfy(old(tokens).all(), old(tokens).pos(), keyword@, name_token@) == Err::<(StatementV, int), ErrorV>(e@),
        },
    decreases old(tokens).all().len() - old(tokens).pos(), 5int,
{
    broadcast use crate::text::group_views;
    let mut declarations = match read_arg_list(tokens, Stop::on(TokenType::RightArrow)) {
        Err(e) => {
            return Err(e);
        },
        Ok((args, _)) => args,
    };
    let (value, satisfy_token) = match Expression::parse(
        tokens,
        false,
        Stop::on(TokenType::Satisfy),
    ) {
        Err(e) => {
            return Err(e);
        },
        Ok(x) => x,
    };
    let (condition, brace) = match read_condition(tokens) {
        Err(e) => {
            return Err(e);
        },
        Ok(x) => x,
    };
    let (body, last_token) = match read_proof(tokens, brace) {
        Err(e) => {
            return Err(e);
        },
        Ok(x) => x,
    };
    declarations.push(value);
    let name = name_token.text().to_owned();
    let fss = FunctionSatisfyStatement {
        name,
        name_token,
        declarations,
        satisfy_token,
        condition,
        body,
    };
    Ok(
        Statement {
            first_token: keyword,
            last_token,
            statement: StatementInfo::FunctionSatisfy(fss),
        },
    )
}

fn parse_let_statement(keyword: Token, tokens: &mut TokenIter) -> (r: Result<Statement, Error>)
    ensures
        final(tokens).all() == old(tokens).all(),
        match r {
            Ok(s) => parse_let(old(tokens).all(), old(tokens).pos(), keyword@) == Ok::<(StatementV, int), ErrorV>((s@, final(tokens).pos()))
                && old(tokens).pos() < final(tokens).pos() <= final(tokens).all().len(),
            Err(e) => parse_let(old(tokens).all(), old(tokens).pos(), keyword@) == Err::<(StatementV, int), ErrorV>(e@),
        },
    decreases old(tokens).all().len() - old(tokens).pos(), 6int,
{
    broadcast use crate::text::group_views;
    let name_token = match Token::expect_token(tokens) {
        Err(e) => {
            return Err(e);
        },
        Ok(x) => x,
    };
    if name_token.token_type == TokenType::LeftParen {
        return match read_arg_list(tokens, Stop::on(TokenType::Satisfy)) {
            Err(e) => Err(e),
            Ok((declarations, _)) => parse_variable_satisfy_statement(
                keyword,
                tokens,
                declarations,
            ),
        };
    }
    if name_token.token_type != TokenType::Identifier && name_token.token_type
        != TokenType::Number {
        return Err(Error::at(&name_token, "expected identifier or number"));
    }
    let name = name_token.text().to_owned();
    if !Token::is_valid_variable_name(name.as_str()) {
        return Err(Error::at(&keyword, "invalid variable name"));
    }
    if let Some(t) = tokens.peek_type() {
        if t == TokenType::LeftParen {
            let _ = tokens.next();
            return parse_function_satisfy_statement(keyword, tokens, name_token);
        }
    }
    let colon = match Token::expect_type(tokens, TokenType::Colon) {
        Err(e) => {
            return Err(e);
        },
        Ok(x) => x,
    };
    let (type_expr, t) = match Expression::parse(
        tokens,
        false,
        Stop { first: TokenType::Equals, second: TokenType::Satisfy },
    ) {
        Err(e) => {
            return Err(e);
        },
        Ok(x) => x,
    };
    if t.token_type == TokenType::Satisfy {
        let left = Expression::Identifier(name_token);
        assert(left@ == ExprV::Identifier(name_token@));
        let declaration = Expression::Binary(Box::new(left), colon, Box::new(type_expr));
        let mut declarations: Vec<Expression> = Vec::new();
        declarations.push(declaration);
        assert(views(declarations@) =~= seq![declaration@]);
        return parse_variable_satisfy_statement(keyword, tokens, declarations);
    }
    let (value, last_token) = match Expression::parse(tokens, true, Stop::on(TokenType::NewLine)) {
        Err(e) => {
            return Err(e);
        },
        Ok(x) => x,
    };
    let ls = LetStatement { name, name_token, type_expr, value };
    Ok(Statement { first_token: keyword, last_token, statement: StatementInfo::Let(ls) })
}

fn parse_define_statement(keyword: Token, tokens: &mut TokenIter) -> (r: Result<Statement, Error>)
    ensures
        final(tokens).all() == old(tokens).all(),
        match r {
            Ok(s) => parse_define(old(tokens).all(), old(tokens).pos(), keyword@) == Ok::<(StatementV, int), ErrorV>((s@, final(tokens).pos()))
                && old(tokens).pos() < final(tokens).pos() <= final(tokens).all().len(),
            Err(e) => parse_define(old(tokens).all(), old(tokens).pos(), keyword@) == Err::<(StatementV, int), ErrorV>(e@),
        },
{
    broadcast use crate::text::group_views;
    let name_token = match Token::expect_type(tokens, TokenType::Identifier) {
        Err(e) => {
            return Err(e);
        },
        Ok(x) => x,
    };
    let name = name_token.text().to_owned();
    if !Token::is_valid_variable_name(name.as_str()) {
        return Err(Error::at(&keyword, "invalid variable name"));
    }
    let (type_params, args, _) = match read_args(tokens, Stop::on(TokenType::RightArrow)) {
        Err(e) => {
            return Err(e);
        },
        Ok(x) => x,
    };
    if type_params.len() > 1 {
        return Err(Error::at(&type_params[1], "only one type parameter is supported"));
    }
    let (return_type, opening) = match Expression::parse(
        tokens,
        false,
        Stop { first: TokenType::Colon, second: TokenType::LeftBrace },
    ) {
        Err(e) => {
            return Err(e);
        },
        Ok(x) => x,
    };
    let stop = if opening.token_type == TokenType::LeftBrace {
        Stop::on(TokenType::RightBrace)
    } else {
        Stop::on(TokenType::NewLine)
    };
    let (return_value, last_token) = match Expression::parse(tokens, true, stop) {
        Err(e) => {
            return Err(e);
        },
        Ok(x) => x,
    };
    let ds = DefineStatement { name, name_token, type_params, args, return_type, return_value };
    Ok(Statement { first_token: keyword, last_token, statement: StatementInfo::Define(ds) })
}

fn parse_type_statement(keyword: Token, tokens: &mut TokenIter) -> (r: Result<Statement, Error>)
    ensures
        final(tokens).all() == old(tokens).all(),
        match r {
            Ok(s) => parse_type(old(tokens).all(), old(tokens).pos(), keyword@) == Ok::<(StatementV, int), ErrorV>((s@, final(tokens).pos()))
                && old(tokens).pos() < final(tokens).pos() <= final(tokens).all().len(),
            Err(e) => parse_type(old(tokens).all(), old(tokens).pos(), keyword@) == Err::<(StatementV, int), ErrorV>(e@),
        },
{
    broadcast use crate::text::group_views;
    let name_token = match Token::expect_type(tokens, TokenType::Identifier) {
        Err(e) => {
            return Err(e);
        },
        Ok(x) => x,
    };
    let name = name_token.text().to_owned();
    if !Token::is_valid_type_name(name.as_str()) {
        return Err(Error::at(&name_token, "invalid type name"));
    }
    match Token::expect_type(tokens, TokenType::Colon) {
        Err(e) => {
            return Err(e);
        },
        Ok(_) => {},
    }
    Token::skip_newlines(tokens);
    let (type_expr, _) = match Expression::parse(tokens, false, Stop::on(TokenType::NewLine)) {
        Err(e) => {
            return Err(e);
        },
        Ok(x) => x,
    };
    let last_token = type_expr.last_token().clone();
    let ts = TypeStatement { name, type_expr };
    Ok(Statement { first_token: keyword, last_token, statement: StatementInfo::Type(ts) })
}

fn parse_forall_statement(keyword: Token, tokens: &mut TokenIter) -> (r: Result<Statement, Error>)
    ensures
        final(tokens).all() == old(tokens).all(),
        match r {
            Ok(s) => parse_forall(old(tokens).all(), old(tokens).pos(), keyword@) == Ok::<(StatementV, int), ErrorV>((s@, final(tokens).pos()))
                && old(tokens).pos() < final(tokens).pos() <= final(tokens).all().len(),
            Err(e) => parse_forall(old(tokens).all(), old(tokens).pos(), keyword@) == Err::<(StatementV, int), ErrorV>(e@),
        },
    decreases old(tokens).all().len() - old(tokens).pos(), 4int,
{
    broadcast use crate::text::group_views;
    let (_, quantifiers, left_brace) = match read_args(tokens, Stop::on(TokenType::LeftBrace)) {
        Err(e) => {
            return Err(e);
        },
        Ok(x) => x,
    };
    let body = match read_body(tokens, left_brace) {
        Err(e) => {
            return Err(e);
        },
        Ok(x) => x,
    };
    let last_token = body.right_brace.clone();
    let fas = ForAllStatement { quantifiers, body };
    Ok(Statement { first_token: keyword, last_token, statement: StatementInfo::ForAll(fas) })
}

fn parse_else_body(tokens: &mut TokenIter) -> (r: Result<Option<Body>, Error>)
    ensures
        final(tokens).all() == old(tokens).all(),
        match r {
            Ok(b) => parse_else(old(tokens).all(), old(tokens).pos()) == Ok::<(Option<BodyV>, int), ErrorV>((opt_body_view(b), final(tokens).pos()))
                && old(tokens).pos() <= final(tokens).pos() && (old(tokens).pos()
                <= final(tokens).all().len() ==> final(tokens).pos() <= final(tokens).all().len()),
            Err(e) => parse_else(old(tokens).all(), old(tokens).pos()) == Err::<(Option<BodyV>, int), ErrorV>(e@),
        },
    decreases old(tokens).all().len() - old(tokens).pos(), 4int,
{
    broadcast use crate::text::group_views;
    if let Some(t) = tokens.peek_past_newlines() {
        if t == TokenType::Else {
            Token::skip_newlines(tokens);
            let _ = tokens.next();
            return match read_braced(tokens) {
                Err(e) => Err(e),
                Ok(body) => Ok(Some(body)),
            };
        }
    }
    Ok(None)
}

fn parse_if_statement(keyword: Token, tokens: &mut TokenIter) -> (r: Result<Statement, Error>)
    ensures
        final(tokens).all() == old(tokens).all(),
        match r {
            Ok(s) => parse_if(old(tokens).all(), old(tokens).pos(), keyword@) == Ok::<(StatementV, int), ErrorV>((s@, final(tokens).pos()))
                && old(tokens).pos() < final(tokens).pos() <= final(tokens).all().len(),
            Err(e) => parse_if(old(tokens).all(), old(tokens).pos(), keyword@) == Err::<(StatementV, int), ErrorV>(e@),
        },
    decreases old(tokens).all().len() - old(tokens).pos(), 4int,
{
    broadcast use crate::text::group_views;
    let token = match tokens.peek() {
        Some(t) => t.clone(),
        None => {
            return Err(tokens.error("unexpected end of file"));
        },
    };
    let (condition, left_brace) = match Expression::parse(tokens, true, Stop::on(TokenType::LeftBrace)) {
        Err(e) => {
            return Err(e);
        },
        Ok(x) => x,
    };
    let body = match read_body(tokens, left_brace) {
        Err(e) => {
            return Err(e);
        },
        Ok(x) => x,
    };
    let else_body = match parse_else_body(tokens) {
        Err(e) => {
            return Err(e);
        },
        Ok(x) => x,
    };
    let last_token = body.right_brace.clone();
    let is = IfStatement { condition, body, else_body, token };
    Ok(Statement { first_token: keyword, last_token, statement: StatementInfo::If(is) })
}

fn parse_exists_statement(keyword: Token, tokens: &mut TokenIter) -> (r: Result<Statement, Error>)
    ensures
        final(tokens).all() == old(tokens).all(),
        match r {
            Ok(s) => parse_exists(old(tokens).all(), old(tokens).pos(), keyword@) == Ok::<(StatementV, int), ErrorV>((s@, final(tokens).pos()))
                && old(tokens).pos() < final(tokens).pos() <= final(tokens).all().len(),
            Err(e) => parse_exists(old(tokens).all(), old(tokens).pos(), keyword@) == Err::<(StatementV, int), ErrorV>(e@),
        },
{
    broadcast use crate::text::group_views;
    let (_, quantifiers, _) = match read_args(tokens, Stop::on(TokenType::LeftBrace)) {
        Err(e) => {
            return Err(e);
        },
        Ok(x) => x,
    };
    let (claim, last_token) = match Expression::parse(tokens, true, Stop::on(TokenType::RightBrace)) {
        Err(e) => {
            return Err(e);
        },
        Ok(x) => x,
    };
    let es = ExistsStatement { quantifiers, claim };
    Ok(Statement { first_token: keyword, last_token, statement: StatementInfo::Exists(es) })
}

fn read_fields(tokens: &mut TokenIter) -> (r: Result<(Vec<(Token, Expression)>, Token), Error>)
    ensures
        final(tokens).all() == old(tokens).all(),
        match r {
            Ok((v, t)) => parse_fields(old(tokens).all(), old(tokens).pos(), Seq::empty()) == Ok::<(Seq<(TokenV, ExprV)>, TokenV, int), ErrorV>((views(v@), t@, final(tokens).pos()))
                && old(tokens).pos() < final(tokens).pos() <= final(tokens).all().len(),
            Err(e) => parse_fields(old(tokens).all(), old(tokens).pos(), Seq::empty()) == Err::<(Seq<(TokenV, ExprV)>, TokenV, int), ErrorV>(e@),
        },
{
    broadcast use crate::text::group_views;
    let mut fields: Vec<(Token, Expression)> = Vec::new();
    loop
        invariant
            tokens.all() == old(tokens).all(),
            old(tokens).pos() <= tokens.pos(),
            parse_fields(tokens.all(), old(tokens).pos(), Seq::empty()) == parse_fields(
                tokens.all(),
                tokens.pos(),
                views(fields@),
            ),
        decreases tokens.all().len() - tokens.pos(),
    {
        broadcast use crate::text::group_views;
        let token = match Token::expect_token(tokens) {
            Err(e) => {
                return Err(e);
            },
            Ok(t) => t,
        };
        match token.token_type {
            TokenType::NewLine => {
                continue;
            },
            TokenType::RightBrace => {
                if fields.len() == 0 {
                    return Err(Error::at(&token, "structs must have at least one field"));
                }
                return Ok((fields, token));
            },
            TokenType::Identifier => {
                match Token::expect_type(tokens, TokenType::Colon) {
                    Err(e) => {
                        return Err(e);
                    },
                    Ok(_) => {},
                }
                let (type_expr, t) = match Expression::parse(
                    tokens,
                    false,
                    Stop { first: TokenType::NewLine, second: TokenType::RightBrace },
                ) {
                    Err(e) => {
                        return Err(e);
                    },
                    Ok(x) => x,
                };
                if t.token_type == TokenType::RightBrace {
                    return Err(Error::at(&t, "field declarations must end with a newline"));
                }
                fields.push((token, type_expr));
            },
            _ => {
                return Err(Error::at(&token, "expected field name"));
            },
        }
    }
}

fn parse_struct_statement(keyword: Token, tokens: &mut TokenIter) -> (r: Result<Statement, Error>)
    ensures
        final(tokens).all() == old(tokens).all(),
        match r {
            Ok(s) => parse_struct(old(tokens).all(), old(tokens).pos(), keyword@) == Ok::<(StatementV, int), ErrorV>((s@, final(tokens).pos()))
                && old(tokens).pos() < final(tokens).pos() <= final(tokens).all().len(),
            Err(e) => parse_struct(old(tokens).all(), old(tokens).pos(), keyword@) == Err::<(StatementV, int), ErrorV>(e@),
        },
{
    broadcast use crate::text::group_views;
    let name_token = match Token::expect_type(tokens, TokenType::Identifier) {
        Err(e) => {
            return Err(e);
        },
        Ok(x) => x,
    };
    let name = name_token.text().to_owned();
    if !Token::is_valid_type_name(name.as_str()) {
        return Err(Error::at(&name_token, "invalid struct name"));
    }
    match Token::expect_type(tokens, TokenType::LeftBrace) {
        Err(e) => {
            return Err(e);
        },
        Ok(_) => {},
    }
    let (fields, last_token) = match read_fields(tokens) {
        Err(e) => {
            return Err(e);
        },
        Ok(x) => x,
    };
    let ss = StructStatement { name, name_token, fields };
    Ok(Statement { first_token: keyword, last_token, statement: StatementInfo::Struct(ss) })
}

fn parse_module_components(tokens: &mut TokenIter, terminator: TokenType) -> (r: Result<(Vec<String>, Token), Error>)
    ensures
        final(tokens).all() == old(tokens).all(),
        match r {
            Ok((v, t)) => parse_components(old(tokens).all(), old(tokens).pos(), terminator, Seq::empty()) == Ok::<(Seq<Seq<char>>, TokenV, int), ErrorV>((views(v@), t@, final(tokens).pos()))
                && old(tokens).pos() < final(tokens).pos() <= final(tokens).all().len(),
            Err(e) => parse_components(old(tokens).all(), old(tokens).pos(), terminator, Seq::empty()) == Err::<(Seq<Seq<char>>, TokenV, int), ErrorV>(e@),
        },
{
    broadcast use crate::text::group_views;
    let mut components: Vec<String> = Vec::new();
    loop
        invariant
            tokens.all() == old(tokens).all(),
            old(tokens).pos() <= tokens.pos(),
            parse_components(tokens.all(), old(tokens).pos(), terminator, Seq::empty())
                == parse_components(tokens.all(), tokens.pos(), terminator, views(components@)),
        decreases tokens.all().len() - tokens.pos(),
    {
        broadcast use crate::text::group_views;
        let name = match Token::expect_type(tokens, TokenType::Identifier) {
            Err(e) => {
                return Err(e);
            },
            Ok(t) => t,
        };
        components.push(name.text().to_owned());
        let token = match Token::expect_token(tokens) {
            Err(e) => {
                return Err(e);
            },
            Ok(t) => t,
        };
        if token.token_type == terminator {
            return Ok((components, name));
        }
        if token.token_type != TokenType::Dot {
            return Err(Error::at(&token, "unexpected token in module path"));
        }
    }
}

fn parse_import_statement(keyword: Token, tokens: &mut TokenIter) -> (r: Result<Statement, Error>)
    ensures
        final(tokens).all() == old(tokens).all(),
        match r {
            Ok(s) => parse_import(old(tokens).all(), old(tokens).pos(), keyword@) == Ok::<(StatementV, int), ErrorV>((s@, final(tokens).pos()))
                && old(tokens).pos() < final(tokens).pos() <= final(tokens).all().len(),
            Err(e) => parse_import(old(tokens).all(), old(tokens).pos(), keyword@) == Err::<(StatementV, int), ErrorV>(e@),
        },
{
    broadcast use crate::text::group_views;
    let (components, last_token) = match parse_module_components(tokens, TokenType::NewLine) {
        Err(e) => {
            return Err(e);
        },
        Ok(x) => x,
    };
    let is = ImportStatement { components, names: Vec::new() };
    Ok(Statement { first_token: keyword, last_token, statement: StatementInfo::Import(is) })
}

fn read_names(tokens: &mut TokenIter) -> (r: Result<(Vec<Token>, Token), Error>)
    ensures
        final(tokens).all() == old(tokens).all(),
        match r {
            Ok((v, t)) => parse_names(old(tokens).all(), old(tokens).pos(), Seq::empty()) == Ok::<(Seq<TokenV>, TokenV, int), ErrorV>((views(v@), t@, final(tokens).pos()))
                && old(tokens).pos() < final(tokens).pos() <= final(tokens).all().len(),
            Err(e) => parse_names(old(tokens).all(), old(tokens).pos(), Seq::empty()) == Err::<(Seq<TokenV>, TokenV, int), ErrorV>(e@),
        },
{
    broadcast use crate::text::group_views;
    let mut names: Vec<Token> = Vec::new();
    loop
        invariant
            tokens.all() == old(tokens).all(),
            old(tokens).pos() <= tokens.pos(),
            parse_names(tokens.all(), old(tokens).pos(), Seq::empty()) == parse_names(
                tokens.all(),
                tokens.pos(),
                views(names@),
            ),
        decreases tokens.all().len() - tokens.pos(),
    {
        broadcast use crate::text::group_views;
        let token = match Token::expect_type(tokens, TokenType::Identifier) {
            Err(e) => {
                return Err(e);
            },
            Ok(t) => t,
        };
        let separator = match Token::expect_token(tokens) {
            Err(e) => {
                return Err(e);
            },
            Ok(t) => t,
        };
        match separator.token_type {
            TokenType::NewLine => {
                names.push(token.clone());
                return Ok((names, token));
            },
            TokenType::Comma => {
                names.push(token);
            },
            _ => {
                return Err(Error::at(&token, "expected comma or newline"));
            },
        }
    }
}

fn parse_from_statement(keyword: Token, tokens: &mut TokenIter) -> (r: Result<Statement, Error>)
    ensures
        final(tokens).all() == old(tokens).all(),
        match r {
            Ok(s) => parse_from(old(tokens).all(), old(tokens).pos(), keyword@) == Ok::<(StatementV, int), ErrorV>((s@, final(tokens).pos()))
                && old(tokens).pos() < final(tokens).pos() <= final(tokens).all().len(),
            Err(e) => parse_from(old(tokens).all(), old(tokens).pos(), keyword@) == Err::<(StatementV, int), ErrorV>(e@),
        },
{
    broadcast use crate::text::group_views;
    let (components, _) = match parse_module_components(tokens, TokenType::Import) {
        Err(e) => {
            return Err(e);
        },
        Ok(x) => x,
    };
    let (names, last_token) = match read_names(tokens) {
        Err(e) => {
            return Err(e);
        },
        Ok(x) => x,
    };
    let is = ImportStatement { components, names };
    Ok(Statement { first_token: keyword, last_token, statement: StatementInfo::Import(is) })
}

fn parse_class_statement(keyword: Token, tokens: &mut TokenIter) -> (r: Result<Statement, Error>)
    ensures
        final(tokens).all() == old(tokens).all(),
        match r {
            Ok(s) => parse_class(old(tokens).all(), old(tokens).pos(), keyword@) == Ok::<(StatementV, int), ErrorV>((s@, final(tokens).pos()))
                && old(tokens).pos() < final(tokens).pos() <= final(tokens).all().len(),
            Err(e) => parse_class(old(tokens).all(), old(tokens).pos(), keyword@) == Err::<(StatementV, int), ErrorV>(e@),
        },
    decreases old(tokens).all().len() - old(tokens).pos(), 4int,
{
    broadcast use crate::text::group_views;
    let name_token = match Token::expect_type(tokens, TokenType::Identifier) {
        Err(e) => {
            return Err(e);
        },
        Ok(x) => x,
    };
    let name = name_token.text().to_owned();
    if !Token::is_valid_type_name(name.as_str()) {
        return Err(Error::at(&name_token, "invalid class name"));
    }
    let body = match read_braced(tokens) {
        Err(e) => {
            return Err(e);
        },
        Ok(x) => x,
    };
    let last_token = body.right_brace.clone();
    let cs = ClassStatement { name, name_token, body };
    Ok(Statement { first_token: keyword, last_token, statement: StatementInfo::Class(cs) })
}

fn parse_solve_statement(keyword: Token, tokens: &mut TokenIter) -> (r: Result<Statement, Error>)
    ensures
        final(tokens).all() == old(tokens).all(),
        match r {
            Ok(s) => parse_solve(old(tokens).all(), old(tokens).pos(), keyword@) == Ok::<(StatementV, int), ErrorV>((s@, final(tokens).pos()))
                && old(tokens).pos() < final(tokens).pos() <= final(tokens).all().len(),
            Err(e) => parse_solve(old(tokens).all(), old(tokens).pos(), keyword@) == Err::<(StatementV, int), ErrorV>(e@),
        },
    decreases old(tokens).all().len() - old(tokens).pos(), 4int,
{
    broadcast use crate::text::group_views;
    let (target, _) = match Expression::parse(tokens, true, Stop::on(TokenType::By)) {
        Err(e) => {
            return Err(e);
        },
        Ok(x) => x,
    };
    let body = match read_braced(tokens) {
        Err(e) => {
            return Err(e);
        },
        Ok(x) => x,
    };
    let last_token = body.right_brace.clone();
    let ss = SolveStatement { target, body };
    Ok(Statement { first_token: keyword, last_token, statement: StatementInfo::Solve(ss) })
}

fn parse_default_statement(keyword: Token, tokens: &mut TokenIter) -> (r: Result<Statement, Error>)
    ensures
        final(tokens).all() == old(tokens).all(),
        match r {
            Ok(s) => parse_default(old(tokens).all(), old(tokens).pos(), keyword@) == Ok::<(StatementV, int), ErrorV>((s@, final(tokens).pos()))
                && old(tokens).pos() < final(tokens).pos() <= final(tokens).all().len(),
            Err(e) => parse_default(old(tokens).all(), old(tokens).pos(), keyword@) == Err::<(StatementV, int), ErrorV>(e@),
        },
{
    broadcast use crate::text::group_views;
    let (type_expr, last_token) = match Expression::parse(tokens, true, Stop::on(TokenType::NewLine)) {
        Err(e) => {
            return Err(e);
        },
        Ok(x) => x,
    };
    let ds = DefaultStatement { type_expr };
    Ok(Statement { first_token: keyword, last_token, statement: StatementInfo::Default(ds) })
}

fn read_constructors(tokens: &mut TokenIter) -> (r: Result<(Vec<(Token, Option<Expression>)>, Token), Error>)
    ensures
        final(tokens).all() == old(tokens).all(),
        match r {
            Ok((v, t)) => parse_constructors(old(tokens).all(), old(tokens).pos(), Seq::empty()) == Ok::<(Seq<(TokenV, Option<ExprV>)>, TokenV, int), ErrorV>((constructors_view(v@), t@, final(tokens).pos()))
                && old(tokens).pos() < final(tokens).pos() <= final(tokens).all().len(),
            Err(e) => parse_constructors(old(tokens).all(), old(tokens).pos(), Seq::empty()) == Err::<(Seq<(TokenV, Option<ExprV>)>, TokenV, int), ErrorV>(e@),
        },
{
    broadcast use crate::text::group_views;
    let mut cs: Vec<(Token, Option<Expression>)> = Vec::new();
    assert(constructors_view(cs@) =~= Seq::<(TokenV, Option<ExprV>)>::empty());
    loop
        invariant
            tokens.all() == old(tokens).all(),
            old(tokens).pos() <= tokens.pos(),
            parse_constructors(tokens.all(), old(tokens).pos(), Seq::empty())
                == parse_constructors(tokens.all(), tokens.pos(), constructors_view(cs@)),
        decreases tokens.all().len() - tokens.pos(),
    {
        let ghost before = cs@;
        let token = match Token::expect_token(tokens) {
            Err(e) => {
                return Err(e);
            },
            Ok(t) => t,
        };
        match token.token_type {
            TokenType::NewLine => {
                continue;
            },
            TokenType::RightBrace => {
                if cs.len() == 0 {
                    return Err(
                        Error::at(
                            &token,
                            "inductive statements must have at least one constructor",
                        ),
                    );
                }
                return Ok((cs, token));
            },
            TokenType::Identifier | TokenType::Number => {
                let next = match Token::expect_token(tokens) {
                    Err(e) => {
                        return Err(e);
                    },
                    Ok(t) => t,
                };
                if next.token_type == TokenType::NewLine {
                    cs.push((token, None));
                    assert(constructors_view(cs@) =~= constructors_view(before).push(
                        (token@, None),
                    ));
                    continue;
                }
                if next.token_type != TokenType::LeftParen {
                    return Err(Error::at(&next, "expected a constructor definition"));
                }
                let (list, right) = match Expression::parse(
                    tokens,
                    false,
                    Stop::on(TokenType::RightParen),
                ) {
                    Err(e) => {
                        return Err(e);
                    },
                    Ok(x) => x,
                };
                match Token::expect_type(tokens, TokenType::NewLine) {
                    Err(e) => {
                        return Err(e);
                    },
                    Ok(_) => {},
                }
                let group = Expression::Grouping(next, Box::new(list), right);
                assert(group@ == ExprV::Grouping(next@, Box::new(list@), right@));
                cs.push((token, Some(group)));
                assert(constructors_view(cs@) =~= constructors_view(before).push(
                    (token@, Some(group@)),
                ));
            },
            _ => {
                return Err(Error::at(&token, "expected a constructor definition"));
            },
        }
    }
}

fn parse_inductive_statement(keyword: Token, tokens: &mut TokenIter) -> (r: Result<Statement, Error>)
    ensures
        final(tokens).all() == old(tokens).all(),
        match r {
            Ok(s) => parse_inductive(old(tokens).all(), old(tokens).pos(), keyword@) == Ok::<(StatementV, int), ErrorV>((s@, final(tokens).pos()))
                && old(tokens).pos() < final(tokens).pos() <= final(tokens).all().len(),
            Err(e) => parse_inductive(old(tokens).all(), old(tokens).pos(), keyword@) == Err::<(StatementV, int), ErrorV>(e@),
        },
{
    broadcast use crate::text::group_views;
    let name_token = match Token::expect_type(tokens, TokenType::Identifier) {
        Err(e) => {
            return Err(e);
        },
        Ok(x) => x,
    };
    let name = name_token.text().to_owned();
    if !Token::is_valid_type_name(name.as_str()) {
        return Err(Error::at(&name_token, "invalid inductive type name"));
    }
    match Token::expect_type(tokens, TokenType::LeftBrace) {
        Err(e) => {
            return Err(e);
        },
        Ok(_) => {},
    }
    let (constructors, last_token) = match read_constructors(tokens) {
        Err(e) => {
            return Err(e);
        },
        Ok(x) => x,
    };
    let is = InductiveStatement { name, name_token, constructors };
    Ok(Statement { first_token: keyword, last_token, statement: StatementInfo::Inductive(is) })
}

fn parse_problem_statement(keyword: Token, tokens: &mut TokenIter) -> (r: Result<Statement, Error>)
    ensures
        final(tokens).all() == old(tokens).all(),
        match r {
            Ok(s) => parse_problem(old(tokens).all(), old(tokens).pos(), keyword@) == Ok::<(StatementV, int), ErrorV>((s@, final(tokens).pos()))
                && old(tokens).pos() < final(tokens).pos() <= final(tokens).all().len(),
            Err(e) => parse_problem(old(tokens).all(), old(tokens).pos(), keyword@) == Err::<(StatementV, int), ErrorV>(e@),
        },
    decreases old(tokens).all().len() - old(tokens).pos(), 4int,
{
    broadcast use crate::text::group_views;
    let body = match read_braced(tokens) {
        Err(e) => {
            return Err(e);
        },
        Ok(x) => x,
    };
    let last_token = body.right_brace.clone();
    Ok(Statement { first_token: keyword, last_token, statement: StatementInfo::Problem(body) })
}

fn parse_keyword_statement(keyword: Token, tokens: &mut TokenIter) -> (r: Result<Statement, Error>)
    ensures
        final(tokens).all() == old(tokens).all(),
        match r {
            Ok(s) => parse_keyword(old(tokens).all(), old(tokens).pos(), keyword@) == Ok::<(StatementV, int), ErrorV>((s@, final(tokens).pos()))
                && old(tokens).pos() < final(tokens).pos() <= final(tokens).all().len(),
            Err(e) => parse_keyword(old(tokens).all(), old(tokens).pos(), keyword@) == Err::<(StatementV, int), ErrorV>(e@),
        },
    decreases old(tokens).all().len() - old(tokens).pos(), 7int,
{
    broadcast use crate::text::group_views;
    match keyword.token_type {
        TokenType::Let => parse_let_statement(keyword, tokens),
        TokenType::Axiom => parse_theorem_statement(keyword, tokens, true),
        TokenType::Theorem => parse_theorem_statement(keyword, tokens, false),
        TokenType::Define => parse_define_statement(keyword, tokens),
        TokenType::Type => parse_type_statement(keyword, tokens),
        TokenType::ForAll => parse_forall_statement(keyword, tokens),
        TokenType::If => parse_if_statement(keyword, tokens),
        TokenType::Exists => parse_exists_statement(keyword, tokens),
        TokenType::Struct => parse_struct_statement(keyword, tokens),
        TokenType::Import => parse_import_statement(keyword, tokens),
        TokenType::Class => parse_class_statement(keyword, tokens),
        TokenType::Default => parse_default_statement(keyword, tokens),
        TokenType::From => parse_from_statement(keyword, tokens),
        TokenType::Inductive => parse_inductive_statement(keyword, tokens),
        TokenType::Problem => parse_problem_statement(keyword, tokens),
        _ => parse_solve_statement(keyword, tokens),
    }
}

fn starts_statement(t: TokenType) -> (r: bool)
    ensures
        r == is_keyword(t),
{
    match t {
        TokenType::Let
        | TokenType::Axiom
        | TokenType::Theorem
        | TokenType::Define
        | TokenType::Type
        | TokenType::ForAll
        | TokenType::If
        | TokenType::Exists
        | TokenType::Struct
        | TokenType::Import
        | TokenType::Class
        | TokenType::Default
        | TokenType::From
        | TokenType::Solve
        | TokenType::Inductive
        | TokenType::Problem => true,
        _ => false,
    }
}

/// Whether the first token after line ends cannot start a statement at the top level. Reading one
/// fails, and takes nothing but the line ends.
pub open spec fn starts_nothing(ts: Seq<TokenV>, pos: int, in_block: bool) -> bool {
    let p = after_newlines(ts, pos);
    !in_block && pos <= p < ts.len() && !is_keyword(ts[p].token_type)
}

impl Statement {
    /// Reads a single statement.
    ///
    /// In a block there may be a right brace instead of a statement. Gives back the statement, as
    /// well as the right brace token, if the current block ended. Normally the final newline is
    /// taken; when a right brace ends a block, that is the last token taken.
    pub fn parse(tokens: &mut TokenIter, in_block: bool) -> (r: Result<
        (Option<Statement>, Option<Token>),
        Error,
    >)
        ensures
            final(tokens).all() == old(tokens).all(),
            match r {
                Ok((s, t)) => parse_statement(old(tokens).all(), old(tokens).pos(), in_block)
                    == Ok::<(Option<StatementV>, Option<TokenV>, int), ErrorV>(
                    (opt_statement_view(s), opt_token_view(t), final(tokens).pos()),
                ) && old(tokens).pos() <= final(tokens).pos() && (s is Some || t is Some
                    ==> old(tokens).pos() < final(tokens).pos() <= final(tokens).all().len()),
                Err(e) => parse_statement(old(tokens).all(), old(tokens).pos(), in_block) == Err::<
                    (Option<StatementV>, Option<TokenV>, int),
                    ErrorV,
                >(e@) && (starts_nothing(old(tokens).all(), old(tokens).pos(), in_block)
                    ==> final(tokens).pos() == after_newlines(
                    old(tokens).all(),
                    old(tokens).pos(),
                )),
            },
        decreases old(tokens).all().len() - old(tokens).pos(), 0int,
    {
        Token::skip_newlines(tokens);
        let token_type = match tokens.peek_type() {
            None => {
                return Ok((None, None));
            },
            Some(t) => t,
        };
        if starts_statement(token_type) {
            let keyword = match tokens.next() {
                None => {
                    return Ok((None, None));
                },
                Some(t) => t,
            };
            return match parse_keyword_statement(keyword, tokens) {
                Err(e) => Err(e),
                Ok(s) => Ok((Some(s), None)),
            };
        }
        if token_type == TokenType::RightBrace {
            if !in_block {
                return Err(tokens.error("unmatched right brace at top level"));
            }
            return Ok((None, tokens.next()));
        }
        if !in_block {
            return Err(tokens.error("unexpected token at the top level"));
        }
        let first_token = match tokens.peek() {
            None => {
                return Ok((None, None));
            },
            Some(t) => t.clone(),
        };
        let (claim, token) = match Expression::parse(
            tokens,
            true,
            Stop { first: TokenType::NewLine, second: TokenType::RightBrace },
        ) {
            Err(e) => {
                return Err(e);
            },
            Ok(x) => x,
        };
        let brace = if token.token_type == TokenType::RightBrace {
            Some(token)
        } else {
            None
        };
        let last_token = claim.last_token().clone();
        let ps = StatementInfo::Prop(PropStatement { claim });
        Ok((Some(Statement { first_token, last_token, statement: ps }), brace))
    }

    /// Reads one statement outside blocks.
    pub fn parse_next(tokens: &mut TokenIter) -> (r: Result<Option<Statement>, Error>)
        ensures
            final(tokens).all() == old(tokens).all(),
            match r {
                Ok(s) => next_statement(old(tokens).all(), old(tokens).pos()) == Ok::<
                    (Option<StatementV>, int),
                    ErrorV,
                >((opt_statement_view(s), final(tokens).pos())) && (s is Some ==> old(tokens).pos()
                    < final(tokens).pos() <= final(tokens).all().len()),
                Err(e) => next_statement(old(tokens).all(), old(tokens).pos()) == Err::<
                    (Option<StatementV>, int),
                    ErrorV,
                >(e@) && (starts_nothing(old(tokens).all(), old(tokens).pos(), false)
                    ==> final(tokens).pos() == after_newlines(
                    old(tokens).all(),
                    old(tokens).pos(),
                )),
            },
    {
        reveal(next_statement);
        match Statement::parse(tokens, false) {
            Err(e) => Err(e),
            Ok((s, _)) => Ok(s),
        }
    }

    /// Reads the statement at the start of a text. `None` where the text holds no statement.
    pub fn parse_str(input: &str) -> (r: Result<Option<Statement>, Error>)
        requires
            input@.len() < u32::MAX,
        ensures
            match r {
                Ok(s) => parse_statement(text_tokens(input@, 0, 0), 0, false) matches Ok(
                    (found, brace, p),
                ) && found == opt_statement_view(s),
                Err(e) => parse_statement(text_tokens(input@, 0, 0), 0, false) == Err::<
                    (Option<StatementV>, Option<TokenV>, int),
                    ErrorV,
                >(e@),
            },
    {
        let mut tokens = TokenIter::new(Token::scan(input));
        match Statement::parse(&mut tokens, false) {
            Err(e) => Err(e),
            Ok((s, _)) => Ok(s),
        }
    }
}

} // verus!
