//! Expressions: their syntax tree, their grammar and how they are written.

use vstd::prelude::*;

use crate::compilation::{Error, ErrorV};
use crate::text::{same_text, views};
use crate::token::{error_here, expect_type, Range, Token, TokenIter, TokenType, TokenV};

verus! {

/// An expression as written: a value, a type, or a declaration.
#[derive(Debug)]
pub enum Expression {
    /// A single word or numeral, like `x` or `0`.
    Identifier(Token),
    /// An operator before its operand, like `!p`.
    Unary(Token, Box<Expression>),
    /// An operator between its operands, like `a + b`, `f: T` or `x, y`.
    Binary(Box<Expression>, Token, Box<Expression>),
    /// A function and its arguments; the arguments are a grouping.
    Apply(Box<Expression>, Box<Expression>),
    /// An expression in parentheses.
    Grouping(Token, Box<Expression>, Token),
    /// A binder like `forall(x: Nat) { p(x) }`; the bound variables are a grouping.
    Binder(Token, Box<Expression>, Box<Expression>, Token),
    /// A choice like `if p { a } else { b }`.
    IfThenElse(Token, Box<Expression>, Box<Expression>, Box<Expression>, Token),
}

/// The model of an expression.
pub enum ExprV {
    Identifier(TokenV),
    Unary(TokenV, Box<ExprV>),
    Binary(Box<ExprV>, TokenV, Box<ExprV>),
    Apply(Box<ExprV>, Box<ExprV>),
    Grouping(TokenV, Box<ExprV>, TokenV),
    Binder(TokenV, Box<ExprV>, Box<ExprV>, TokenV),
    IfThenElse(TokenV, Box<ExprV>, Box<ExprV>, Box<ExprV>, TokenV),
}

/// The model of an expression, made from its parts.
pub open spec fn expr_view(e: Expression) -> ExprV
    decreases e,
{
    match e {
        Expression::Identifier(t) => ExprV::Identifier(t@),
        Expression::Unary(t, e) => ExprV::Unary(t@, Box::new(expr_view(*e))),
        Expression::Binary(l, t, r) => ExprV::Binary(
            Box::new(expr_view(*l)),
            t@,
            Box::new(expr_view(*r)),
        ),
        Expression::Apply(f, a) => ExprV::Apply(Box::new(expr_view(*f)), Box::new(expr_view(*a))),
        Expression::Grouping(l, e, r) => ExprV::Grouping(l@, Box::new(expr_view(*e)), r@),
        Expression::Binder(t, a, b, r) => ExprV::Binder(
            t@,
            Box::new(expr_view(*a)),
            Box::new(expr_view(*b)),
            r@,
        ),
        Expression::IfThenElse(t, c, a, b, r) => ExprV::IfThenElse(
            t@,
            Box::new(expr_view(*c)),
            Box::new(expr_view(*a)),
            Box::new(expr_view(*b)),
            r@,
        ),
    }
}

impl View for Expression {
    type V = ExprV;

    open spec fn view(&self) -> ExprV {
        expr_view(*self)
    }
}

/// The kinds of token that end an expression: either of two.
#[derive(Clone, Copy, Debug, PartialEq, Eq, Structural)]
pub struct Stop {
    pub first: TokenType,
    pub second: TokenType,
}

impl Stop {
    /// Whether a kind of token ends the expression.
    pub open spec fn at(self, t: TokenType) -> bool {
        t == self.first || t == self.second
    }

    /// One kind of token ends the expression.
    pub fn on(t: TokenType) -> (r: Stop)
        ensures
            r == (Stop { first: t, second: t }),
    {
        Stop { first: t, second: t }
    }

    /// Whether a kind of token ends the expression.
    pub fn matches(&self, t: TokenType) -> (r: bool)
        ensures
            r == self.at(t),
    {
        t == self.first || t == self.second
    }
}

/// One piece of an expression whose operators have not been sorted out yet.
pub enum Partial {
    Expr(Expression),
    Unary(Token),
    Binary(Token),
}

/// The model of such a piece.
pub enum PartialV {
    Expr(ExprV),
    Unary(TokenV),
    Binary(TokenV),
}

impl View for Partial {
    type V = PartialV;

    open spec fn view(&self) -> PartialV {
        match self {
            Partial::Expr(e) => PartialV::Expr(e@),
            Partial::Unary(t) => PartialV::Unary(t@),
            Partial::Binary(t) => PartialV::Binary(t@),
        }
    }
}

/// How tightly an operator binds in a value; `None` for what is no operator there. Types know
/// only the operators of `type_precedence`.
pub open spec fn value_precedence(t: TokenType) -> Option<int> {
    match t {
        TokenType::Dot => Some(10),
        TokenType::Exclam => Some(9),
        TokenType::Asterisk => Some(8),
        TokenType::Slash => Some(8),
        TokenType::Percent => Some(8),
        TokenType::Plus => Some(7),
        TokenType::Minus => Some(7),
        TokenType::GreaterThan => Some(6),
        TokenType::LessThan => Some(6),
        TokenType::GreaterThanOrEquals => Some(6),
        TokenType::LessThanOrEquals => Some(6),
        TokenType::Equals => Some(5),
        TokenType::NotEquals => Some(5),
        TokenType::Ampersand => Some(4),
        TokenType::Pipe => Some(3),
        TokenType::LeftRightArrow => Some(2),
        TokenType::RightArrow => Some(1),
        TokenType::Comma => Some(0),
        _ => None,
    }
}

/// How tightly an operator binds in a type or a declaration.
pub open spec fn type_precedence(t: TokenType) -> Option<int> {
    match t {
        TokenType::Dot => Some(10),
        TokenType::RightArrow => Some(2),
        TokenType::Colon => Some(1),
        TokenType::Comma => Some(0),
        _ => None,
    }
}

/// How tightly an operator binds.
pub open spec fn precedence(t: TokenType, is_value: bool) -> Option<int> {
    if is_value { value_precedence(t) } else { type_precedence(t) }
}

/// The operator of a piece.
pub open spec fn operator(p: PartialV) -> Option<TokenV> {
    match p {
        PartialV::Expr(_) => None,
        PartialV::Unary(t) => Some(t),
        PartialV::Binary(t) => Some(t),
    }
}

/// How tightly a piece's operator binds.
pub open spec fn piece_precedence(p: PartialV, is_value: bool) -> int {
    match operator(p) {
        Some(t) => match precedence(t.token_type, is_value) {
            Some(n) => n,
            None => 11,
        },
        None => 11,
    }
}

/// The operator among the pieces `lo..hi` that is applied last: the one that binds least. Of
/// several binary ones the last, of several unary ones the first.
pub open spec fn last_operator(ps: Seq<PartialV>, lo: int, hi: int, is_value: bool) -> Option<int>
    decreases hi - lo,
{
    if hi <= lo {
        None
    } else {
        let before = last_operator(ps, lo, hi - 1, is_value);
        let p = ps[hi - 1];
        if operator(p) is None {
            before
        } else {
            match before {
                None => Some(hi - 1),
                Some(b) => {
                    let old_rank = piece_precedence(ps[b], is_value);
                    let new_rank = piece_precedence(p, is_value);
                    if new_rank < old_rank || (new_rank == old_rank && p is Binary) {
                        Some(hi - 1)
                    } else {
                        before
                    }
                },
            }
        }
    }
}

/// A function applied to the groupings that follow it.
pub open spec fn applied(ps: Seq<PartialV>, lo: int, hi: int) -> Result<ExprV, ErrorV>
    decreases hi - lo,
{
    if hi <= lo + 1 {
        match ps[lo] {
            PartialV::Expr(e) => Ok(e),
            PartialV::Unary(t) => Err(ErrorV::at(t, "incomplete expression"@)),
            PartialV::Binary(t) => Err(ErrorV::at(t, "incomplete expression"@)),
        }
    } else {
        match applied(ps, lo, hi - 1) {
            Err(e) => Err(e),
            Ok(f) => match ps[hi - 1] {
                PartialV::Expr(a) => match a {
                    ExprV::Grouping(_, _, _) => Ok(ExprV::Apply(Box::new(f), Box::new(a))),
                    _ => Err(ErrorV::at(expr_token(a), "expected an operator"@)),
                },
                PartialV::Unary(t) => Err(ErrorV::at(t, "incomplete expression"@)),
                PartialV::Binary(t) => Err(ErrorV::at(t, "incomplete expression"@)),
            },
        }
    }
}

/// Whether the pieces `lo..hi` are a name with dots that is applied to a grouping at the end. The
/// operator that binds least is the one at `k`.
pub open spec fn is_dotted_call(ps: Seq<PartialV>, k: int, hi: int) -> bool {
    operator(ps[k]) matches Some(t) && t.token_type == TokenType::Dot && k + 1 < hi - 1 && (
    ps[hi - 1] matches PartialV::Expr(e) && e is Grouping)
}

/// The expression that the pieces `lo..hi` form; `end` is the token after them.
pub open spec fn combined(
    ps: Seq<PartialV>,
    lo: int,
    hi: int,
    is_value: bool,
    end: TokenV,
) -> Result<ExprV, ErrorV>
    decreases hi - lo,
{
    if hi <= lo {
        Err(ErrorV::at(end, "expected an expression"@))
    } else {
        match last_operator(ps, lo, hi, is_value) {
            None => applied(ps, lo, hi),
            Some(k) => if !(lo <= k < hi) {
                Err(ErrorV::at(end, "expected an expression"@))
            } else if is_dotted_call(ps, k, hi) {
                match combined(ps, lo, hi - 1, is_value, end) {
                    Err(e) => Err(e),
                    Ok(f) => Ok(ExprV::Apply(Box::new(f), Box::new(ps[hi - 1]->Expr_0))),
                }
            } else {
                match ps[k] {
                    PartialV::Unary(t) => if k > lo {
                        Err(ErrorV::at(t, "unexpected unary operator"@))
                    } else {
                        match combined(ps, k + 1, hi, is_value, end) {
                            Err(e) => Err(e),
                            Ok(e) => Ok(ExprV::Unary(t, Box::new(e))),
                        }
                    },
                    PartialV::Binary(t) => match combined(ps, lo, k, is_value, t) {
                        Err(e) => Err(e),
                        Ok(l) => match combined(ps, k + 1, hi, is_value, end) {
                            Err(e) => Err(e),
                            Ok(r) => Ok(ExprV::Binary(Box::new(l), t, Box::new(r))),
                        },
                    },
                    PartialV::Expr(_) => Err(ErrorV::at(end, "expected an expression"@)),
                }
            },
        }
    }
}

/// The expression that starts at `pos`, the token that ends it, and where to go on.
pub open spec fn parse_expr(ts: Seq<TokenV>, pos: int, is_value: bool, stop: Stop) -> Result<
    (ExprV, TokenV, int),
    ErrorV,
>
    decreases ts.len() - pos, 1int,
{
    match parse_pieces(ts, pos, is_value, stop, Seq::empty()) {
        Err(e) => Err(e),
        Ok((ps, end, p)) => match combined(ps, 0, ps.len() as int, is_value, end) {
            Err(e) => Err(e),
            Ok(e) => Ok((e, end, p)),
        },
    }
}

/// The binder whose keyword stands before `pos`.
pub open spec fn parse_binder(ts: Seq<TokenV>, pos: int, keyword: TokenV) -> Result<
    (ExprV, int),
    ErrorV,
>
    decreases ts.len() - pos, 2int,
{
    match expect_type(ts, pos, TokenType::LeftParen) {
        Err(e) => Err(e),
        Ok((left, p1)) => match parse_expr(
            ts,
            p1,
            false,
            Stop { first: TokenType::RightParen, second: TokenType::RightParen },
        ) {
            Err(e) => Err(e),
            Ok((args, right, p2)) => match expect_type(ts, p2, TokenType::LeftBrace) {
                Err(e) => Err(e),
                Ok((_, p3)) => if !(pos < p3 <= ts.len()) {
                    Err(error_here(ts, pos, "expected an expression"@))
                } else {
                    match parse_expr(
                        ts,
                        p3,
                        true,
                        Stop { first: TokenType::RightBrace, second: TokenType::RightBrace },
                    ) {
                        Err(e) => Err(e),
                        Ok((body, brace, p4)) => Ok(
                            (
                                ExprV::Binder(
                                    keyword,
                                    Box::new(ExprV::Grouping(left, Box::new(args), right)),
                                    Box::new(body),
                                    brace,
                                ),
                                p4,
                            ),
                        ),
                    }
                },
            },
        },
    }
}

/// The choice whose `if` stands before `pos`.
pub open spec fn parse_choice(ts: Seq<TokenV>, pos: int, keyword: TokenV) -> Result<
    (ExprV, int),
    ErrorV,
>
    decreases ts.len() - pos, 2int,
{
    let left_brace = Stop { first: TokenType::LeftBrace, second: TokenType::LeftBrace };
    let right_brace = Stop { first: TokenType::RightBrace, second: TokenType::RightBrace };
    match parse_expr(ts, pos, true, left_brace) {
        Err(e) => Err(e),
        Ok((condition, _, p1)) => if !(pos < p1 <= ts.len()) {
            Err(error_here(ts, pos, "expected an expression"@))
        } else {
            match parse_expr(ts, p1, true, right_brace) {
                Err(e) => Err(e),
                Ok((yes, _, p2)) => match expect_type(ts, p2, TokenType::Else) {
                    Err(e) => Err(e),
                    Ok((_, p3)) => match expect_type(ts, p3, TokenType::LeftBrace) {
                        Err(e) => Err(e),
                        Ok((_, p4)) => if !(pos < p4 <= ts.len()) {
                            Err(error_here(ts, pos, "expected an expression"@))
                        } else {
                            match parse_expr(ts, p4, true, right_brace) {
                                Err(e) => Err(e),
                                Ok((no, brace, p5)) => Ok(
                                    (
                                        ExprV::IfThenElse(
                                            keyword,
                                            Box::new(condition),
                                            Box::new(yes),
                                            Box::new(no),
                                            brace,
                                        ),
                                        p5,
                                    ),
                                ),
                            }
                        },
                    },
                },
            }
        },
    }
}

/// The operator that a word stands for in a value: `and` and `or` after an operand, `not` before
/// one.
pub open spec fn word_operator(t: TokenV, after_operand: bool) -> Option<TokenType> {
    if t.token_type != TokenType::Identifier {
        None
    } else if after_operand {
        if t.text == "and"@ {
            Some(TokenType::Ampersand)
        } else if t.text == "or"@ {
            Some(TokenType::Pipe)
        } else {
            None
        }
    } else if t.text == "not"@ {
        Some(TokenType::Exclam)
    } else {
        None
    }
}

/// Whether the pieces so far end with an operand.
pub open spec fn ends_with_operand(ps: Seq<PartialV>) -> bool {
    ps.len() > 0 && ps.last() is Expr
}

/// The piece of an operator.
pub open spec fn operator_piece(t: TokenV) -> PartialV {
    if t.token_type == TokenType::Exclam {
        PartialV::Unary(t)
    } else {
        PartialV::Binary(t)
    }
}

/// Whether a token is an expression all by itself.
pub open spec fn is_atomic(t: TokenType) -> bool {
    t == TokenType::Identifier || t == TokenType::Number || t == TokenType::Axiom || t
        == TokenType::True || t == TokenType::False
}

/// Whether a keyword starts a binder.
pub open spec fn is_binder(t: TokenType) -> bool {
    t == TokenType::ForAll || t == TokenType::Exists || t == TokenType::Function
}

/// The pieces from `pos` up to a token that ends the expression, after the pieces `acc`. Line
/// ends that do not end the expression are passed over.
pub open spec fn parse_pieces(
    ts: Seq<TokenV>,
    pos: int,
    is_value: bool,
    stop: Stop,
    acc: Seq<PartialV>,
) -> Result<(Seq<PartialV>, TokenV, int), ErrorV>
    decreases ts.len() - pos, 0int,
{
    if pos >= ts.len() {
        Err(error_here(ts, pos, "unexpected end of file"@))
    } else {
        let t = ts[pos];
        let k = t.token_type;
        if stop.at(k) {
            Ok((acc, t, pos + 1))
        } else if k == TokenType::NewLine {
            parse_pieces(ts, pos + 1, is_value, stop, acc)
        } else if is_value && word_operator(t, ends_with_operand(acc)) is Some {
            let op = TokenV { token_type: word_operator(t, ends_with_operand(acc))->0, ..t };
            parse_pieces(ts, pos + 1, is_value, stop, acc.push(operator_piece(op)))
        } else if is_atomic(k) {
            parse_pieces(
                ts,
                pos + 1,
                is_value,
                stop,
                acc.push(PartialV::Expr(ExprV::Identifier(t))),
            )
        } else if k == TokenType::LeftParen {
            match parse_expr(
                ts,
                pos + 1,
                is_value,
                Stop { first: TokenType::RightParen, second: TokenType::RightParen },
            ) {
                Err(e) => Err(e),
                Ok((e, right, p)) => if !(pos < p <= ts.len()) {
                    Err(error_here(ts, pos, "expected an expression"@))
                } else {
                    parse_pieces(
                        ts,
                        p,
                        is_value,
                        stop,
                        acc.push(PartialV::Expr(ExprV::Grouping(t, Box::new(e), right))),
                    )
                },
            }
        } else if is_value && is_binder(k) {
            match parse_binder(ts, pos + 1, t) {
                Err(e) => Err(e),
                Ok((e, p)) => if !(pos < p <= ts.len()) {
                    Err(error_here(ts, pos, "expected an expression"@))
                } else {
                    parse_pieces(ts, p, is_value, stop, acc.push(PartialV::Expr(e)))
                },
            }
        } else if is_value && k == TokenType::If {
            match parse_choice(ts, pos + 1, t) {
                Err(e) => Err(e),
                Ok((e, p)) => if !(pos < p <= ts.len()) {
                    Err(error_here(ts, pos, "expected an expression"@))
                } else {
                    parse_pieces(ts, p, is_value, stop, acc.push(PartialV::Expr(e)))
                },
            }
        } else if precedence(k, is_value) is Some {
            parse_pieces(ts, pos + 1, is_value, stop, acc.push(operator_piece(t)))
        } else {
            Err(ErrorV::at(t, "unexpected token in expression"@))
        }
    }
}

/// The token by which an expression is reported: the operator of a binary one.
pub open spec fn expr_token(e: ExprV) -> TokenV
    decreases e,
{
    match e {
        ExprV::Identifier(t) => t,
        ExprV::Unary(t, _) => t,
        ExprV::Binary(_, t, _) => t,
        ExprV::Apply(f, _) => expr_token(*f),
        ExprV::Grouping(t, _, _) => t,
        ExprV::Binder(t, _, _, _) => t,
        ExprV::IfThenElse(t, _, _, _, _) => t,
    }
}

/// The first token of an expression.
pub open spec fn expr_first_token(e: ExprV) -> TokenV
    decreases e,
{
    match e {
        ExprV::Identifier(t) => t,
        ExprV::Unary(t, _) => t,
        ExprV::Binary(l, _, _) => expr_first_token(*l),
        ExprV::Apply(f, _) => expr_first_token(*f),
        ExprV::Grouping(t, _, _) => t,
        ExprV::Binder(t, _, _, _) => t,
        ExprV::IfThenElse(t, _, _, _, _) => t,
    }
}

/// The stretch of source from the first to the last token of an expression.
pub open spec fn expr_range(e: ExprV) -> Range {
    Range { start: expr_first_token(e).start_pos(), end: expr_last_token(e).end_pos() }
}

/// The left side of an implication.
pub open spec fn expr_premise(e: ExprV) -> Option<ExprV> {
    match e {
        ExprV::Binary(l, t, _) => if t.token_type == TokenType::RightArrow {
            Some(*l)
        } else {
            None
        },
        _ => None,
    }
}

/// The last token of an expression.
pub open spec fn expr_last_token(e: ExprV) -> TokenV
    decreases e,
{
    match e {
        ExprV::Identifier(t) => t,
        ExprV::Unary(_, e) => expr_last_token(*e),
        ExprV::Binary(_, _, r) => expr_last_token(*r),
        ExprV::Apply(_, a) => expr_last_token(*a),
        ExprV::Grouping(_, _, t) => t,
        ExprV::Binder(_, _, _, t) => t,
        ExprV::IfThenElse(_, _, _, _, t) => t,
    }
}

/// The text of an operator with the blanks around it.
pub open spec fn spaced(t: TokenV) -> Seq<char> {
    if t.token_type == TokenType::Comma || t.token_type == TokenType::Colon {
        t.text + " "@
    } else if t.token_type == TokenType::Dot {
        t.text
    } else {
        " "@ + t.text + " "@
    }
}

/// How an expression is written.
pub open spec fn expr_text(e: ExprV) -> Seq<char>
    decreases e,
{
    match e {
        ExprV::Identifier(t) => t.text,
        ExprV::Unary(t, e) => t.text + (if t.text == "not"@ {
            " "@
        } else {
            Seq::empty()
        }) + expr_text(*e),
        ExprV::Binary(l, t, r) => expr_text(*l) + spaced(t) + expr_text(*r),
        ExprV::Apply(f, a) => expr_text(*f) + expr_text(*a),
        ExprV::Grouping(l, e, r) => l.text + expr_text(*e) + r.text,
        ExprV::Binder(t, a, b, _) => t.text + expr_text(*a) + " { "@ + expr_text(*b) + " }"@,
        ExprV::IfThenElse(t, c, a, b, _) => t.text + " "@ + expr_text(*c) + " { "@ + expr_text(*a)
            + " } else { "@ + expr_text(*b) + " }"@,
    }
}

/// The members of a list with commas.
pub open spec fn comma_list(e: ExprV) -> Seq<ExprV>
    decreases e,
{
    match e {
        ExprV::Binary(l, t, r) => if t.token_type == TokenType::Comma {
            comma_list(*l).push(*r)
        } else {
            seq![e]
        },
        _ => seq![e],
    }
}

/// The members of a list in parentheses; an expression without parentheses is a list of one
/// where that is allowed.
pub open spec fn list_of(e: ExprV, allow_singleton: bool) -> Result<Seq<ExprV>, ErrorV> {
    match e {
        ExprV::Grouping(_, inner, _) => Ok(comma_list(*inner)),
        _ => if allow_singleton {
            Ok(seq![e])
        } else {
            Err(ErrorV::at(expr_token(e), "expected a list in parentheses"@))
        },
    }
}

/// The names of a path with dots.
pub open spec fn dots_of(e: ExprV) -> Result<Seq<Seq<char>>, ErrorV>
    decreases e,
{
    match e {
        ExprV::Identifier(t) => Ok(seq![t.text]),
        ExprV::Binary(l, t, r) => if t.token_type != TokenType::Dot {
            Err(ErrorV::at(t, "expected a dot"@))
        } else {
            match dots_of(*l) {
                Err(e) => Err(e),
                Ok(a) => match dots_of(*r) {
                    Err(e) => Err(e),
                    Ok(b) => Ok(a + b),
                },
            }
        },
        _ => Err(ErrorV::at(expr_token(e), "expected an identifier"@)),
    }
}

fn find_precedence(t: TokenType, is_value: bool) -> (r: Option<u8>)
    ensures
        match r {
            Some(n) => precedence(t, is_value) == Some(n as int),
            None => precedence(t, is_value) is None,
        },
        r matches Some(n) ==> n < 11,
{
    if is_value {
        match t {
            TokenType::Dot => Some(10),
            TokenType::Exclam => Some(9),
            TokenType::Asterisk => Some(8),
            TokenType::Slash => Some(8),
            TokenType::Percent => Some(8),
            TokenType::Plus => Some(7),
            TokenType::Minus => Some(7),
            TokenType::GreaterThan => Some(6),
            TokenType::LessThan => Some(6),
            TokenType::GreaterThanOrEquals => Some(6),
            TokenType::LessThanOrEquals => Some(6),
            TokenType::Equals => Some(5),
            TokenType::NotEquals => Some(5),
            TokenType::Ampersand => Some(4),
            TokenType::Pipe => Some(3),
            TokenType::LeftRightArrow => Some(2),
            TokenType::RightArrow => Some(1),
            TokenType::Comma => Some(0),
            _ => None,
        }
    } else {
        match t {
            TokenType::Dot => Some(10),
            TokenType::RightArrow => Some(2),
            TokenType::Colon => Some(1),
            TokenType::Comma => Some(0),
            _ => None,
        }
    }
}

fn rank(p: &Partial, is_value: bool) -> (r: u8)
    ensures
        r == piece_precedence(p@, is_value),
{
    match p {
        Partial::Expr(_) => 11,
        Partial::Unary(t) => match find_precedence(t.token_type, is_value) {
            Some(n) => n,
            None => 11,
        },
        Partial::Binary(t) => match find_precedence(t.token_type, is_value) {
            Some(n) => n,
            None => 11,
        },
    }
}

fn find_last_operator(ps: &Vec<Partial>, lo: usize, hi: usize, is_value: bool) -> (r: Option<usize>)
    requires
        lo <= hi <= ps.len(),
    ensures
        match r {
            Some(k) => lo <= k < hi && last_operator(views(ps@), lo as int, hi as int, is_value)
                == Some(k as int) && operator(ps@[k as int]@) is Some,
            None => last_operator(views(ps@), lo as int, hi as int, is_value) is None,
        },
{
    let mut best: Option<usize> = None;
    let mut i: usize = lo;
    while i < hi
        invariant
            lo <= i <= hi <= ps.len(),
            match best {
                Some(k) => lo <= k < i && last_operator(views(ps@), lo as int, i as int, is_value)
                    == Some(k as int) && operator(ps@[k as int]@) is Some,
                None => last_operator(views(ps@), lo as int, i as int, is_value) is None,
            },
        decreases hi - i,
    {
        match &ps[i] {
            Partial::Expr(_) => {},
            Partial::Unary(_) => {
                best = match best {
                    None => Some(i),
                    Some(b) => if rank(&ps[i], is_value) < rank(&ps[b], is_value) {
                        Some(i)
                    } else {
                        Some(b)
                    },
                };
            },
            Partial::Binary(_) => {
                best = match best {
                    None => Some(i),
                    Some(b) => if rank(&ps[i], is_value) <= rank(&ps[b], is_value) {
                        Some(i)
                    } else {
                        Some(b)
                    },
                };
            },
        }
        i = i + 1;
    }
    best
}

impl Clone for Expression {
    fn clone(&self) -> (r: Self)
        ensures
            r@ == self@,
        decreases self,
    {
        match self {
            Expression::Identifier(t) => Expression::Identifier(t.clone()),
            Expression::Unary(t, e) => Expression::Unary(t.clone(), Box::new((&**e).clone())),
            Expression::Binary(l, t, r) => Expression::Binary(
                Box::new((&**l).clone()),
                t.clone(),
                Box::new((&**r).clone()),
            ),
            Expression::Apply(f, a) => Expression::Apply(
                Box::new((&**f).clone()),
                Box::new((&**a).clone()),
            ),
            Expression::Grouping(l, e, r) => Expression::Grouping(
                l.clone(),
                Box::new((&**e).clone()),
                r.clone(),
            ),
            Expression::Binder(t, a, b, r) => Expression::Binder(
                t.clone(),
                Box::new((&**a).clone()),
                Box::new((&**b).clone()),
                r.clone(),
            ),
            Expression::IfThenElse(t, c, a, b, r) => Expression::IfThenElse(
                t.clone(),
                Box::new((&**c).clone()),
                Box::new((&**a).clone()),
                Box::new((&**b).clone()),
                r.clone(),
            ),
        }
    }
}

fn apply_all(ps: &Vec<Partial>, lo: usize, hi: usize) -> (r: Result<Expression, Error>)
    requires
        lo < hi <= ps.len(),
    ensures
        match r {
            Ok(e) => applied(views(ps@), lo as int, hi as int) == Ok::<ExprV, ErrorV>(e@),
            Err(e) => applied(views(ps@), lo as int, hi as int) == Err::<ExprV, ErrorV>(e@),
        },
    decreases hi - lo,
{
    if hi - lo == 1 {
        match &ps[lo] {
            Partial::Expr(e) => Ok(e.clone()),
            Partial::Unary(t) => Err(Error::at(t, "incomplete expression")),
            Partial::Binary(t) => Err(Error::at(t, "incomplete expression")),
        }
    } else {
        let f = match apply_all(ps, lo, hi - 1) {
            Err(e) => {
                return Err(e);
            },
            Ok(f) => f,
        };
        match &ps[hi - 1] {
            Partial::Expr(a) => match a {
                Expression::Grouping(_, _, _) => Ok(
                    Expression::Apply(Box::new(f), Box::new(a.clone())),
                ),
                _ => Err(Error::at(a.token(), "expected an operator")),
            },
            Partial::Unary(t) => Err(Error::at(t, "incomplete expression")),
            Partial::Binary(t) => Err(Error::at(t, "incomplete expression")),
        }
    }
}

fn combine(ps: &Vec<Partial>, lo: usize, hi: usize, is_value: bool, end: &Token) -> (r: Result<
    Expression,
    Error,
>)
    requires
        lo <= hi <= ps.len(),
    ensures
        match r {
            Ok(e) => combined(views(ps@), lo as int, hi as int, is_value, end@) == Ok::<
                ExprV,
                ErrorV,
            >(e@),
            Err(e) => combined(views(ps@), lo as int, hi as int, is_value, end@) == Err::<
                ExprV,
                ErrorV,
            >(e@),
        },
    decreases hi - lo,
{
    if lo == hi {
        return Err(Error::at(end, "expected an expression"));
    }
    match find_last_operator(ps, lo, hi, is_value) {
        None => apply_all(ps, lo, hi),
        Some(k) => if dotted_call(ps, k, hi) {
            let f = match combine(ps, lo, hi - 1, is_value, end) {
                Err(e) => {
                    return Err(e);
                },
                Ok(f) => f,
            };
            match &ps[hi - 1] {
                Partial::Expr(a) => Ok(Expression::Apply(Box::new(f), Box::new(a.clone()))),
                Partial::Unary(t) => Err(Error::at(t, "incomplete expression")),
                Partial::Binary(t) => Err(Error::at(t, "incomplete expression")),
            }
        } else {
            match &ps[k] {
                Partial::Unary(t) => {
                    if k > lo {
                        return Err(Error::at(t, "unexpected unary operator"));
                    }
                    match combine(ps, k + 1, hi, is_value, end) {
                        Err(e) => Err(e),
                        Ok(e) => Ok(Expression::Unary(t.clone(), Box::new(e))),
                    }
                },
                Partial::Binary(t) => {
                    let l = match combine(ps, lo, k, is_value, t) {
                        Err(e) => {
                            return Err(e);
                        },
                        Ok(l) => l,
                    };
                    match combine(ps, k + 1, hi, is_value, end) {
                        Err(e) => Err(e),
                        Ok(r) => Ok(Expression::Binary(Box::new(l), t.clone(), Box::new(r))),
                    }
                },
                Partial::Expr(_) => Err(Error::at(end, "expected an expression")),
            }
        },
    }
}

fn dotted_call(ps: &Vec<Partial>, k: usize, hi: usize) -> (r: bool)
    requires
        k < hi <= ps.len(),
    ensures
        r == is_dotted_call(views(ps@), k as int, hi as int),
{
    assert(views(ps@)[k as int] == ps@[k as int]@);
    assert(views(ps@)[hi - 1] == ps@[hi - 1]@);
    let dot = match &ps[k] {
        Partial::Expr(_) => false,
        Partial::Unary(t) => t.token_type == TokenType::Dot,
        Partial::Binary(t) => t.token_type == TokenType::Dot,
    };
    if !dot || hi - k <= 2 {
        return false;
    }
    match &ps[hi - 1] {
        Partial::Expr(Expression::Grouping(_, _, _)) => true,
        _ => false,
    }
}

fn last_is_operand(ps: &Vec<Partial>) -> (r: bool)
    ensures
        r == ends_with_operand(views(ps@)),
{
    if ps.len() == 0 {
        return false;
    }
    match &ps[ps.len() - 1] {
        Partial::Expr(_) => true,
        _ => false,
    }
}

fn find_word_operator(t: &Token, after_operand: bool) -> (r: Option<TokenType>)
    ensures
        r == word_operator(t@, after_operand),
{
    if t.token_type != TokenType::Identifier {
        None
    } else if after_operand {
        if same_text(t.text(), "and") {
            Some(TokenType::Ampersand)
        } else if same_text(t.text(), "or") {
            Some(TokenType::Pipe)
        } else {
            None
        }
    } else if same_text(t.text(), "not") {
        Some(TokenType::Exclam)
    } else {
        None
    }
}

fn read_binder(tokens: &mut TokenIter, keyword: Token) -> (r: Result<Expression, Error>)
    ensures
        final(tokens).all() == old(tokens).all(),
        match r {
            Ok(e) => parse_binder(old(tokens).all(), old(tokens).pos(), keyword@) == Ok::<
                (ExprV, int),
                ErrorV,
            >((e@, final(tokens).pos())) && old(tokens).pos() < final(tokens).pos() <= final(tokens).all().len(),
            Err(e) => parse_binder(old(tokens).all(), old(tokens).pos(), keyword@) == Err::<
                (ExprV, int),
                ErrorV,
            >(e@),
        },
    decreases old(tokens).all().len() - old(tokens).pos(), 2int,
{
    let left = match Token::expect_type(tokens, TokenType::LeftParen) {
        Err(e) => {
            return Err(e);
        },
        Ok(t) => t,
    };
    let (args, right) = match Expression::parse(tokens, false, Stop::on(TokenType::RightParen)) {
        Err(e) => {
            return Err(e);
        },
        Ok(x) => x,
    };
    match Token::expect_type(tokens, TokenType::LeftBrace) {
        Err(e) => {
            return Err(e);
        },
        Ok(_) => {},
    }
    let (body, brace) = match Expression::parse(tokens, true, Stop::on(TokenType::RightBrace)) {
        Err(e) => {
            return Err(e);
        },
        Ok(x) => x,
    };
    let group = Expression::Grouping(left, Box::new(args), right);
    assert(group@ == ExprV::Grouping(left@, Box::new(args@), right@));
    Ok(Expression::Binder(keyword, Box::new(group), Box::new(body), brace))
}

fn read_choice(tokens: &mut TokenIter, keyword: Token) -> (r: Result<Expression, Error>)
    ensures
        final(tokens).all() == old(tokens).all(),
        match r {
            Ok(e) => parse_choice(old(tokens).all(), old(tokens).pos(), keyword@) == Ok::<
                (ExprV, int),
                ErrorV,
            >((e@, final(tokens).pos())) && old(tokens).pos() < final(tokens).pos() <= final(tokens).all().len(),
            Err(e) => parse_choice(old(tokens).all(), old(tokens).pos(), keyword@) == Err::<
                (ExprV, int),
                ErrorV,
            >(e@),
        },
    decreases old(tokens).all().len() - old(tokens).pos(), 2int,
{
    let (condition, _) = match Expression::parse(tokens, true, Stop::on(TokenType::LeftBrace)) {
        Err(e) => {
            return Err(e);
        },
        Ok(x) => x,
    };
    let (yes, _) = match Expression::parse(tokens, true, Stop::on(TokenType::RightBrace)) {
        Err(e) => {
            return Err(e);
        },
        Ok(x) => x,
    };
    match Token::expect_type(tokens, TokenType::Else) {
        Err(e) => {
            return Err(e);
        },
        Ok(_) => {},
    }
    match Token::expect_type(tokens, TokenType::LeftBrace) {
        Err(e) => {
            return Err(e);
        },
        Ok(_) => {},
    }
    let (no, brace) = match Expression::parse(tokens, true, Stop::on(TokenType::RightBrace)) {
        Err(e) => {
            return Err(e);
        },
        Ok(x) => x,
    };
    Ok(Expression::IfThenElse(keyword, Box::new(condition), Box::new(yes), Box::new(no), brace))
}

fn read_pieces(tokens: &mut TokenIter, is_value: bool, stop: Stop) -> (r: Result<
    (Vec<Partial>, Token),
    Error,
>)
    ensures
        final(tokens).all() == old(tokens).all(),
        match r {
            Ok((ps, t)) => parse_pieces(
                old(tokens).all(),
                old(tokens).pos(),
                is_value,
                stop,
                Seq::empty(),
            ) == Ok::<(Seq<PartialV>, TokenV, int), ErrorV>((views(ps@), t@, final(tokens).pos()))
                && stop.at(t@.token_type) && old(tokens).pos() < final(tokens).pos() <= final(tokens).all().len(),
            Err(e) => parse_pieces(
                old(tokens).all(),
                old(tokens).pos(),
                is_value,
                stop,
                Seq::empty(),
            ) == Err::<(Seq<PartialV>, TokenV, int), ErrorV>(e@),
        },
    decreases old(tokens).all().len() - old(tokens).pos(), 0int,
{
    broadcast use crate::text::group_views;
    let mut ps: Vec<Partial> = Vec::new();
    loop
        invariant
            tokens.all() == old(tokens).all(),
            old(tokens).pos() <= tokens.pos(),
            parse_pieces(tokens.all(), old(tokens).pos(), is_value, stop, Seq::empty())
                == parse_pieces(tokens.all(), tokens.pos(), is_value, stop, views(ps@)),
        decreases tokens.all().len() - tokens.pos(),
    {
        broadcast use crate::text::group_views;
        let t = match tokens.next() {
            None => {
                return Err(tokens.error("unexpected end of file"));
            },
            Some(t) => t,
        };
        let k = t.token_type;
        if stop.matches(k) {
            return Ok((ps, t));
        }
        if k == TokenType::NewLine {
            continue;
        }
        if is_value {
            if let Some(op) = find_word_operator(&t, last_is_operand(&ps)) {
                let token = Token {
                    token_type: op,
                    text: t.text,
                    line: t.line,
                    line_number: t.line_number,
                    start: t.start,
                };
                if op == TokenType::Exclam {
                    ps.push(Partial::Unary(token));
                } else {
                    ps.push(Partial::Binary(token));
                }
                continue;
            }
        }
        if k == TokenType::Identifier || k == TokenType::Number || k == TokenType::Axiom || k
            == TokenType::True || k == TokenType::False {
            ps.push(Partial::Expr(Expression::Identifier(t)));
        } else if k == TokenType::LeftParen {
            let (e, right) = match Expression::parse(
                tokens,
                is_value,
                Stop::on(TokenType::RightParen),
            ) {
                Err(e) => {
                    return Err(e);
                },
                Ok(x) => x,
            };
            ps.push(Partial::Expr(Expression::Grouping(t, Box::new(e), right)));
        } else if is_value && (k == TokenType::ForAll || k == TokenType::Exists || k
            == TokenType::Function) {
            let e = match read_binder(tokens, t) {
                Err(e) => {
                    return Err(e);
                },
                Ok(x) => x,
            };
            ps.push(Partial::Expr(e));
        } else if is_value && k == TokenType::If {
            let e = match read_choice(tokens, t) {
                Err(e) => {
                    return Err(e);
                },
                Ok(x) => x,
            };
            ps.push(Partial::Expr(e));
        } else if find_precedence(k, is_value).is_some() {
            if k == TokenType::Exclam {
                ps.push(Partial::Unary(t));
            } else {
                ps.push(Partial::Binary(t));
            }
        } else {
            return Err(Error::at(&t, "unexpected token in expression"));
        }
    }
}

impl Expression {
    /// Reads an expression up to a token that ends it, and that token.
    pub fn parse(tokens: &mut TokenIter, is_value: bool, stop: Stop) -> (r: Result<
        (Expression, Token),
        Error,
    >)
        ensures
            final(tokens).all() == old(tokens).all(),
            match r {
                Ok((e, t)) => parse_expr(old(tokens).all(), old(tokens).pos(), is_value, stop)
                    == Ok::<(ExprV, TokenV, int), ErrorV>((e@, t@, final(tokens).pos()))
                    && old(tokens).pos() < final(tokens).pos() <= final(tokens).all().len() && stop.at(t@.token_type),
                Err(e) => parse_expr(old(tokens).all(), old(tokens).pos(), is_value, stop) == Err::<
                    (ExprV, TokenV, int),
                    ErrorV,
                >(e@),
            },
        decreases old(tokens).all().len() - old(tokens).pos(), 1int,
    {
        let (ps, end) = match read_pieces(tokens, is_value, stop) {
            Err(e) => {
                return Err(e);
            },
            Ok(x) => x,
        };
        match combine(&ps, 0, ps.len(), is_value, &end) {
            Err(e) => Err(e),
            Ok(e) => Ok((e, end)),
        }
    }

    /// The token by which the expression is reported.
    pub fn token(&self) -> (r: &Token)
        ensures
            r@ == expr_token(self@),
        decreases self,
    {
        match self {
            Expression::Identifier(t) => t,
            Expression::Unary(t, _) => t,
            Expression::Binary(_, t, _) => t,
            Expression::Apply(f, _) => f.token(),
            Expression::Grouping(t, _, _) => t,
            Expression::Binder(t, _, _, _) => t,
            Expression::IfThenElse(t, _, _, _, _) => t,
        }
    }

    /// The last token of the expression.
    pub fn last_token(&self) -> (r: &Token)
        ensures
            r@ == expr_last_token(self@),
        decreases self,
    {
        match self {
            Expression::Identifier(t) => t,
            Expression::Unary(_, e) => e.last_token(),
            Expression::Binary(_, _, r) => r.last_token(),
            Expression::Apply(_, a) => a.last_token(),
            Expression::Grouping(_, _, t) => t,
            Expression::Binder(_, _, _, t) => t,
            Expression::IfThenElse(_, _, _, _, t) => t,
        }
    }

    /// The stretch of source from the first to the last token of the expression.
    pub fn range(&self) -> (r: Range)
        ensures
            r == expr_range(self@),
    {
        Range { start: self.first_token().start_pos(), end: self.last_token().end_pos() }
    }

    /// The first token of the expression.
    pub fn first_token(&self) -> (r: &Token)
        ensures
            r@ == expr_first_token(self@),
        decreases self,
    {
        match self {
            Expression::Identifier(t) => t,
            Expression::Unary(t, _) => t,
            Expression::Binary(l, _, _) => l.first_token(),
            Expression::Apply(f, _) => f.first_token(),
            Expression::Grouping(t, _, _) => t,
            Expression::Binder(t, _, _, _) => t,
            Expression::IfThenElse(t, _, _, _, _) => t,
        }
    }

    /// The left side of an implication.
    pub fn premise(&self) -> (r: Option<&Expression>)
        ensures
            match r {
                Some(e) => expr_premise(self@) == Some(e@),
                None => expr_premise(self@) is None,
            },
    {
        match self {
            Expression::Binary(l, t, _) => {
                if t.token_type == TokenType::RightArrow {
                    Some(l)
                } else {
                    None
                }
            },
            _ => None,
        }
    }

    /// Writes the expression.
    pub fn to_text(&self) -> (r: String)
        ensures
            r@ == expr_text(self@),
        decreases self,
    {
        match self {
            Expression::Identifier(t) => t.text.clone(),
            Expression::Unary(t, e) => {
                let mut out = t.text.clone();
                if same_text(t.text(), "not") {
                    out.append(" ");
                } else {
                    assert(out@ + Seq::<char>::empty() =~= out@);
                }
                out.append(e.to_text().as_str());
                out
            },
            Expression::Binary(l, t, r) => {
                let mut out = l.to_text();
                let k = t.token_type;
                let mut op = String::new();
                if k != TokenType::Comma && k != TokenType::Colon && k != TokenType::Dot {
                    op.append(" ");
                }
                op.append(t.text());
                if k != TokenType::Dot {
                    op.append(" ");
                }
                assert(Seq::<char>::empty() + t@.text =~= t@.text);
                assert(Seq::<char>::empty() + " "@ =~= " "@);
                assert(op@ =~= spaced(t@));
                out.append(op.as_str());
                out.append(r.to_text().as_str());
                out
            },
            Expression::Apply(f, a) => {
                let mut out = f.to_text();
                out.append(a.to_text().as_str());
                out
            },
            Expression::Grouping(l, e, r) => {
                let mut out = l.text.clone();
                out.append(e.to_text().as_str());
                out.append(r.text());
                out
            },
            Expression::Binder(t, a, b, _) => {
                let mut out = t.text.clone();
                out.append(a.to_text().as_str());
                out.append(" { ");
                out.append(b.to_text().as_str());
                out.append(" }");
                out
            },
            Expression::IfThenElse(t, c, a, b, _) => {
                let mut out = t.text.clone();
                out.append(" ");
                out.append(c.to_text().as_str());
                out.append(" { ");
                out.append(a.to_text().as_str());
                out.append(" } else { ");
                out.append(b.to_text().as_str());
                out.append(" }");
                out
            },
        }
    }

    fn commas(&self) -> (r: Vec<&Expression>)
        ensures
            views(r@) == comma_list(self@),
        decreases self,
    {
        broadcast use crate::text::group_views;
        match self {
            Expression::Binary(l, t, r) => {
                if t.token_type == TokenType::Comma {
                    let mut out = l.commas();
                    out.push(r);
                    return out;
                }
            },
            _ => {},
        }
        let mut out: Vec<&Expression> = Vec::new();
        out.push(self);
        assert(views(out@) =~= seq![self@]);
        out
    }

    /// The members of a list in parentheses, like the arguments of a function.
    pub fn flatten_list(&self, allow_singleton: bool) -> (r: Result<Vec<&Expression>, Error>)
        ensures
            match r {
                Ok(v) => list_of(self@, allow_singleton) == Ok::<Seq<ExprV>, ErrorV>(views(v@)),
                Err(e) => list_of(self@, allow_singleton) == Err::<Seq<ExprV>, ErrorV>(e@),
            },
    {
        match self {
            Expression::Grouping(_, e, _) => Ok(e.commas()),
            _ => {
                if allow_singleton {
                    let mut out: Vec<&Expression> = Vec::new();
                    out.push(self);
                    assert(views(out@) =~= seq![self@]);
                    Ok(out)
                } else {
                    Err(Error::at(self.token(), "expected a list in parentheses"))
                }
            },
        }
    }

    /// The names of a path with dots, like `foo.bar`.
    pub fn flatten_dots(&self) -> (r: Result<Vec<String>, Error>)
        ensures
            match r {
                Ok(v) => dots_of(self@) == Ok::<Seq<Seq<char>>, ErrorV>(views(v@)),
                Err(e) => dots_of(self@) == Err::<Seq<Seq<char>>, ErrorV>(e@),
            },
        decreases self,
    {
        match self {
            Expression::Identifier(t) => {
                let mut out: Vec<String> = Vec::new();
                out.push(t.text.clone());
                assert(views(out@) =~= seq![t@.text]);
                Ok(out)
            },
            Expression::Binary(l, t, r) => {
                if t.token_type != TokenType::Dot {
                    return Err(Error::at(t, "expected a dot"));
                }
                let mut a = match l.flatten_dots() {
                    Err(e) => {
                        return Err(e);
                    },
                    Ok(a) => a,
                };
                let mut b = match r.flatten_dots() {
                    Err(e) => {
                        return Err(e);
                    },
                    Ok(b) => b,
                };
                let ghost left = a@;
                let ghost right = b@;
                a.append(&mut b);
                assert(views(left + right) =~= views(left) + views(right));
                Ok(a)
            },
            _ => Err(Error::at(self.token(), "expected an identifier")),
        }
    }
}

} // verus!
