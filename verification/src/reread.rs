//! An expression that was read and written can be read again.

use vstd::prelude::*;

use crate::compilation::ErrorV;
use crate::expression::{
    applied, combined, ends_with_operand, expr_text, is_atomic, is_binder, is_dotted_call,
    last_operator, operator, operator_piece, parse_binder, parse_choice, parse_expr, parse_pieces,
    precedence, spaced, word_operator, ExprV, PartialV, Stop,
};
use crate::spelling::{all_proper, is_lexeme, is_proper, kind};
use crate::token::{
    after_newlines, expect_type, is_digit, is_word_part, is_word_start, lex_at, TokenType, TokenV,
};

verus! {

/// A token without its place.
pub open spec fn bare_token(t: TokenV) -> TokenV {
    TokenV { line: Seq::empty(), line_number: 0, start: 0, ..t }
}

/// An expression without the places of its tokens.
pub open spec fn bare(e: ExprV) -> ExprV
    decreases e,
{
    match e {
        ExprV::Identifier(t) => ExprV::Identifier(bare_token(t)),
        ExprV::Unary(t, e) => ExprV::Unary(bare_token(t), Box::new(bare(*e))),
        ExprV::Binary(l, t, r) => ExprV::Binary(
            Box::new(bare(*l)),
            bare_token(t),
            Box::new(bare(*r)),
        ),
        ExprV::Apply(f, a) => ExprV::Apply(Box::new(bare(*f)), Box::new(bare(*a))),
        ExprV::Grouping(l, e, r) => ExprV::Grouping(
            bare_token(l),
            Box::new(bare(*e)),
            bare_token(r),
        ),
        ExprV::Binder(t, a, b, r) => ExprV::Binder(
            bare_token(t),
            Box::new(bare(*a)),
            Box::new(bare(*b)),
            bare_token(r),
        ),
        ExprV::IfThenElse(t, c, a, b, r) => ExprV::IfThenElse(
            bare_token(t),
            Box::new(bare(*c)),
            Box::new(bare(*a)),
            Box::new(bare(*b)),
            bare_token(r),
        ),
    }
}

spec fn bare_piece(p: PartialV) -> PartialV {
    match p {
        PartialV::Expr(e) => PartialV::Expr(bare(e)),
        PartialV::Unary(t) => PartialV::Unary(bare_token(t)),
        PartialV::Binary(t) => PartialV::Binary(bare_token(t)),
    }
}

spec fn bare_pieces(ps: Seq<PartialV>) -> Seq<PartialV> {
    Seq::new(ps.len(), |i: int| bare_piece(ps[i]))
}

/// Expressions that differ only in the places of their tokens are written the same.
pub proof fn lemma_bare_text(e: ExprV)
    ensures
        expr_text(bare(e)) == expr_text(e),
    decreases e,
{
    match e {
        ExprV::Identifier(_) => {},
        ExprV::Unary(_, x) => {
            lemma_bare_text(*x);
        },
        ExprV::Binary(l, t, r) => {
            lemma_bare_text(*l);
            lemma_bare_text(*r);
            assert(spaced(bare_token(t)) == spaced(t));
        },
        ExprV::Apply(f, a) => {
            lemma_bare_text(*f);
            lemma_bare_text(*a);
        },
        ExprV::Grouping(_, x, _) => {
            lemma_bare_text(*x);
        },
        ExprV::Binder(_, a, b, _) => {
            lemma_bare_text(*a);
            lemma_bare_text(*b);
        },
        ExprV::IfThenElse(_, c, a, b, _) => {
            lemma_bare_text(*c);
            lemma_bare_text(*a);
            lemma_bare_text(*b);
        },
    }
}

proof fn lemma_bare_last(ps: Seq<PartialV>, lo: int, hi: int, v: bool)
    requires
        0 <= lo,
        hi <= ps.len(),
    ensures
        last_operator(bare_pieces(ps), lo, hi, v) == last_operator(ps, lo, hi, v),
        last_operator(ps, lo, hi, v) matches Some(k) ==> lo <= k < hi,
    decreases hi - lo,
{
    if lo < hi {
        lemma_bare_last(ps, lo, hi - 1, v);
    }
}

proof fn lemma_bare_applied(ps: Seq<PartialV>, lo: int, hi: int)
    requires
        0 <= lo < hi <= ps.len(),
    ensures
        match applied(ps, lo, hi) {
            Ok(e) => applied(bare_pieces(ps), lo, hi) == Ok::<ExprV, ErrorV>(bare(e)),
            Err(_) => applied(bare_pieces(ps), lo, hi) is Err,
        },
    decreases hi - lo,
{
    if hi > lo + 1 {
        lemma_bare_applied(ps, lo, hi - 1);
    }
}

proof fn lemma_bare_combined(
    ps: Seq<PartialV>,
    lo: int,
    hi: int,
    v: bool,
    end: TokenV,
    end2: TokenV,
)
    requires
        0 <= lo,
        hi <= ps.len(),
    ensures
        match combined(ps, lo, hi, v, end) {
            Ok(e) => combined(bare_pieces(ps), lo, hi, v, end2) == Ok::<ExprV, ErrorV>(bare(e)),
            Err(_) => combined(bare_pieces(ps), lo, hi, v, end2) is Err,
        },
    decreases hi - lo,
{
    if lo < hi {
        let qs = bare_pieces(ps);
        lemma_bare_last(ps, lo, hi, v);
        match last_operator(ps, lo, hi, v) {
            None => {
                lemma_bare_applied(ps, lo, hi);
            },
            Some(k) => {
                assert(qs[k] == bare_piece(ps[k]));
                assert(qs[hi - 1] == bare_piece(ps[hi - 1]));
                assert(is_dotted_call(qs, k, hi) == is_dotted_call(ps, k, hi));
                if is_dotted_call(ps, k, hi) {
                    lemma_bare_combined(ps, lo, hi - 1, v, end, end2);
                } else {
                    match ps[k] {
                        PartialV::Unary(t) => {
                            lemma_bare_combined(ps, k + 1, hi, v, end, end2);
                        },
                        PartialV::Binary(t) => {
                            lemma_bare_combined(ps, lo, k, v, t, bare_token(t));
                            lemma_bare_combined(ps, k + 1, hi, v, end, end2);
                        },
                        PartialV::Expr(_) => {},
                    }
                }
            },
        }
    }
}

/// The texts of the tokens of an expression.
pub open spec fn expr_words(e: ExprV) -> Seq<Seq<char>>
    decreases e,
{
    match e {
        ExprV::Identifier(t) => seq![t.text],
        ExprV::Unary(t, x) => seq![t.text] + expr_words(*x),
        ExprV::Binary(l, t, r) => expr_words(*l) + seq![t.text] + expr_words(*r),
        ExprV::Apply(f, a) => expr_words(*f) + expr_words(*a),
        ExprV::Grouping(l, x, r) => seq![l.text] + expr_words(*x) + seq![r.text],
        ExprV::Binder(t, a, b, _) => seq![t.text] + expr_words(*a) + seq!["{"@] + expr_words(*b)
            + seq!["}"@],
        ExprV::IfThenElse(t, c, a, b, _) => seq![t.text] + expr_words(*c) + seq!["{"@]
            + expr_words(*a) + seq!["}"@, "else"@, "{"@] + expr_words(*b) + seq!["}"@],
    }
}

spec fn piece_words(p: PartialV) -> Seq<Seq<char>> {
    match p {
        PartialV::Expr(e) => expr_words(e),
        PartialV::Unary(t) => seq![t.text],
        PartialV::Binary(t) => seq![t.text],
    }
}

spec fn pieces_words(ps: Seq<PartialV>, lo: int, hi: int) -> Seq<Seq<char>>
    decreases hi - lo,
{
    if hi <= lo {
        Seq::empty()
    } else {
        pieces_words(ps, lo, hi - 1) + piece_words(ps[hi - 1])
    }
}

proof fn lemma_pieces_split(ps: Seq<PartialV>, lo: int, k: int, hi: int)
    requires
        lo <= k <= hi,
    ensures
        pieces_words(ps, lo, hi) == pieces_words(ps, lo, k) + pieces_words(ps, k, hi),
    decreases hi - k,
{
    if k < hi {
        lemma_pieces_split(ps, lo, k, hi - 1);
        assert(pieces_words(ps, lo, hi) =~= pieces_words(ps, lo, k) + pieces_words(ps, k, hi));
    } else {
        assert(pieces_words(ps, lo, hi) =~= pieces_words(ps, lo, k) + pieces_words(ps, k, hi));
    }
}

proof fn lemma_pieces_first(ps: Seq<PartialV>, lo: int, hi: int)
    requires
        lo < hi,
    ensures
        pieces_words(ps, lo, hi) == piece_words(ps[lo]) + pieces_words(ps, lo + 1, hi),
{
    lemma_pieces_split(ps, lo, lo + 1, hi);
    assert(pieces_words(ps, lo, lo) =~= Seq::empty());
    assert(pieces_words(ps, lo, lo + 1) =~= piece_words(ps[lo]));
}

proof fn lemma_applied_words(ps: Seq<PartialV>, lo: int, hi: int)
    requires
        lo < hi,
    ensures
        applied(ps, lo, hi) matches Ok(e) ==> expr_words(e) == pieces_words(ps, lo, hi),
    decreases hi - lo,
{
    assert(pieces_words(ps, lo, lo) =~= Seq::empty());
    assert(pieces_words(ps, lo, lo + 1) =~= piece_words(ps[lo]));
    if hi > lo + 1 {
        lemma_applied_words(ps, lo, hi - 1);
    }
}

proof fn lemma_combined_words(ps: Seq<PartialV>, lo: int, hi: int, v: bool, end: TokenV)
    ensures
        combined(ps, lo, hi, v, end) matches Ok(e) ==> expr_words(e) == pieces_words(ps, lo, hi),
    decreases hi - lo,
{
    if lo < hi {
        match last_operator(ps, lo, hi, v) {
            None => {
                lemma_applied_words(ps, lo, hi);
            },
            Some(k) => if lo <= k < hi {
                if is_dotted_call(ps, k, hi) {
                    lemma_combined_words(ps, lo, hi - 1, v, end);
                } else {
                    lemma_pieces_first(ps, k, hi);
                    lemma_pieces_split(ps, lo, k, hi);
                    match ps[k] {
                        PartialV::Unary(t) => {
                            lemma_combined_words(ps, k + 1, hi, v, end);
                            if k == lo {
                                assert(pieces_words(ps, lo, k) =~= Seq::empty());
                                assert(pieces_words(ps, lo, hi) =~= seq![t.text] + pieces_words(
                                    ps,
                                    k + 1,
                                    hi,
                                ));
                            }
                        },
                        PartialV::Binary(t) => {
                            lemma_combined_words(ps, lo, k, v, t);
                            lemma_combined_words(ps, k + 1, hi, v, end);
                            assert(pieces_words(ps, lo, hi) =~= pieces_words(ps, lo, k)
                                + seq![t.text] + pieces_words(ps, k + 1, hi));
                        },
                        PartialV::Expr(_) => {},
                    }
                }
            },
        }
    }
}

/// Whether a text is a word or a numeral.
pub open spec fn is_wordy(x: Seq<char>) -> bool {
    is_lexeme(x) && is_word_part(x[0]) && is_word_part(x.last())
}

/// Whether an expression is made of tokens of the right kinds, so that it can be written.
pub open spec fn is_clean(e: ExprV) -> bool
    decreases e,
{
    match e {
        ExprV::Identifier(t) => is_wordy(t.text) && is_proper(t),
        ExprV::Unary(t, x) => (t.text == "!"@ || t.text == "not"@) && is_clean(*x),
        ExprV::Binary(l, t, r) => is_operator(t) && is_clean(*l) && is_clean(*r),
        ExprV::Apply(f, a) => is_clean(*f) && is_clean(*a) && (*a is Grouping),
        ExprV::Grouping(l, x, r) => l.text == "("@ && r.text == ")"@ && is_clean(*x),
        ExprV::Binder(t, a, b, _) => is_wordy(t.text) && is_clean(*a) && is_clean(*b) && (
        *a is Grouping),
        ExprV::IfThenElse(t, c, a, b, _) => is_wordy(t.text) && is_clean(*c) && is_clean(*a)
            && is_clean(*b),
    }
}

/// Whether a token can stand between two operands.
pub open spec fn is_operator(t: TokenV) -> bool {
    &&& is_lexeme(t.text)
    &&& t.token_type == TokenType::Comma ==> t.text == ","@
    &&& t.token_type == TokenType::Colon ==> t.text == ":"@
    &&& t.token_type == TokenType::Dot ==> t.text == "."@
}

spec fn is_clean_piece(p: PartialV) -> bool {
    match p {
        PartialV::Expr(e) => is_clean(e),
        PartialV::Unary(t) => t.text == "!"@ || t.text == "not"@,
        PartialV::Binary(t) => is_operator(t),
    }
}

spec fn all_clean(ps: Seq<PartialV>) -> bool {
    forall|i: int| 0 <= i < ps.len() ==> is_clean_piece(#[trigger] ps[i])
}

proof fn lemma_applied_clean(ps: Seq<PartialV>, lo: int, hi: int)
    requires
        0 <= lo < hi <= ps.len(),
        all_clean(ps),
    ensures
        applied(ps, lo, hi) matches Ok(e) ==> is_clean(e),
    decreases hi - lo,
{
    assert(is_clean_piece(ps[hi - 1]));
    assert(is_clean_piece(ps[lo]));
    if hi > lo + 1 {
        lemma_applied_clean(ps, lo, hi - 1);
    }
}

proof fn lemma_combined_clean(ps: Seq<PartialV>, lo: int, hi: int, v: bool, end: TokenV)
    requires
        0 <= lo,
        hi <= ps.len(),
        all_clean(ps),
    ensures
        combined(ps, lo, hi, v, end) matches Ok(e) ==> is_clean(e),
    decreases hi - lo,
{
    if lo < hi {
        match last_operator(ps, lo, hi, v) {
            None => {
                lemma_applied_clean(ps, lo, hi);
            },
            Some(k) => if lo <= k < hi {
                assert(is_clean_piece(ps[k]));
                assert(is_clean_piece(ps[hi - 1]));
                if is_dotted_call(ps, k, hi) {
                    lemma_combined_clean(ps, lo, hi - 1, v, end);
                } else {
                    match ps[k] {
                        PartialV::Unary(t) => {
                            lemma_combined_clean(ps, k + 1, hi, v, end);
                        },
                        PartialV::Binary(t) => {
                            lemma_combined_clean(ps, lo, k, v, t);
                            lemma_combined_clean(ps, k + 1, hi, v, end);
                        },
                        PartialV::Expr(_) => {},
                    }
                }
            },
        }
    }
}

/// Whether tokens from a place on have texts.
pub open spec fn reads_at(ts: Seq<TokenV>, pos: int, xs: Seq<Seq<char>>) -> bool {
    0 <= pos && pos + xs.len() <= ts.len() && forall|i: int|
        0 <= i < xs.len() ==> (#[trigger] ts[pos + i]).text == xs[i]
}

/// Texts that stand one after the other can be looked at one by one.
pub proof fn lemma_reads_parts(ts: Seq<TokenV>, pos: int, a: Seq<Seq<char>>, b: Seq<Seq<char>>)
    requires
        reads_at(ts, pos, a + b),
    ensures
        reads_at(ts, pos, a),
        reads_at(ts, pos + a.len(), b),
{
    let c = a + b;
    assert forall|i: int| 0 <= i < a.len() implies (#[trigger] ts[pos + i]).text == a[i] by {
        assert(c[i] == a[i]);
    }
    let p = pos + a.len();
    assert forall|i: int| 0 <= i < b.len() implies (#[trigger] ts[p + i]).text == b[i] by {
        assert(ts[pos + (a.len() + i)].text == c[a.len() + i]);
        assert(c[a.len() + i] == b[i]);
    }
}

pub proof fn lemma_reads_one(ts: Seq<TokenV>, pos: int, x: Seq<char>)
    requires
        reads_at(ts, pos, seq![x]),
    ensures
        0 <= pos < ts.len(),
        ts[pos].text == x,
{
    assert(ts[pos + 0].text == seq![x][0]);
}

/// Two tokens of the kinds that their texts say, with the same text, are the same token at
/// different places.
pub proof fn lemma_same_token(t: TokenV, u: TokenV)
    requires
        is_proper(t),
        is_proper(u),
        t.text == u.text,
    ensures
        t.token_type == u.token_type,
        bare_token(t) == bare_token(u),
{
}

/// Texts of symbols and the kinds of token they are.
pub proof fn lemma_symbols()
    ensures
        is_lexeme("("@) && kind("("@) == TokenType::LeftParen,
        is_lexeme(")"@) && kind(")"@) == TokenType::RightParen,
        is_lexeme("{"@) && kind("{"@) == TokenType::LeftBrace,
        is_lexeme("}"@) && kind("}"@) == TokenType::RightBrace,
        is_lexeme(","@) && kind(","@) == TokenType::Comma,
        is_lexeme(":"@) && kind(":"@) == TokenType::Colon,
        is_lexeme("."@) && kind("."@) == TokenType::Dot,
        is_lexeme("!"@) && kind("!"@) == TokenType::Exclam,
        is_lexeme("="@) && kind("="@) == TokenType::Equals,
        is_lexeme("<"@) && kind("<"@) == TokenType::LessThan,
        is_lexeme(">"@) && kind(">"@) == TokenType::GreaterThan,
        is_lexeme("->"@) && kind("->"@) == TokenType::RightArrow,
{
    reveal_strlit("\n");
    reveal_strlit("(");
    reveal_strlit(")");
    reveal_strlit("{");
    reveal_strlit("}");
    reveal_strlit(",");
    reveal_strlit(":");
    reveal_strlit(".");
    reveal_strlit("!");
    reveal_strlit("=");
    reveal_strlit("<");
    reveal_strlit(">");
    reveal_strlit("->");
    assert("("@[0] != "\n"@[0]);
    assert(")"@[0] != "\n"@[0]);
    assert("{"@[0] != "\n"@[0]);
    assert("}"@[0] != "\n"@[0]);
    assert(","@[0] != "\n"@[0]);
    assert(":"@[0] != "\n"@[0]);
    assert("."@[0] != "\n"@[0]);
    assert("!"@[0] != "\n"@[0]);
    assert("="@[0] != "\n"@[0]);
    assert("<"@[0] != "\n"@[0]);
    assert(">"@[0] != "\n"@[0]);
    assert("->"@[0] != "\n"@[0]);
}

/// What the text of a token is, where its kind says so.
pub proof fn lemma_symbol_text(t: TokenV)
    requires
        is_proper(t),
    ensures
        t.token_type == TokenType::LeftParen ==> t.text == "("@,
        t.token_type == TokenType::RightParen ==> t.text == ")"@,
        t.token_type == TokenType::LeftBrace ==> t.text == "{"@,
        t.token_type == TokenType::RightBrace ==> t.text == "}"@,
        t.token_type == TokenType::Comma ==> t.text == ","@,
        t.token_type == TokenType::Colon ==> t.text == ":"@,
        t.token_type == TokenType::Dot ==> t.text == "."@,
        t.token_type == TokenType::Exclam ==> t.text == "!"@,
        t.token_type == TokenType::LessThan ==> t.text == "<"@,
        t.token_type == TokenType::GreaterThan ==> t.text == ">"@,
{
    reveal_strlit("(");
    reveal_strlit(")");
    reveal_strlit("{");
    reveal_strlit("}");
    reveal_strlit(",");
    reveal_strlit(":");
    reveal_strlit(".");
    reveal_strlit("!");
    reveal_strlit("<");
    reveal_strlit(">");
    let x = t.text;
    if x != "\n"@ {
        assert(lex_at(x, 0).1 == x.len());
        if !is_word_start(x[0]) && !is_digit(x[0]) && x.len() == 1 {
            assert(x =~= seq![x[0]]);
            assert(t.token_type == TokenType::LeftParen ==> x =~= "("@);
            assert(t.token_type == TokenType::RightParen ==> x =~= ")"@);
            assert(t.token_type == TokenType::LeftBrace ==> x =~= "{"@);
            assert(t.token_type == TokenType::RightBrace ==> x =~= "}"@);
            assert(t.token_type == TokenType::Comma ==> x =~= ","@);
            assert(t.token_type == TokenType::Colon ==> x =~= ":"@);
            assert(t.token_type == TokenType::Dot ==> x =~= "."@);
            assert(t.token_type == TokenType::Exclam ==> x =~= "!"@);
            assert(t.token_type == TokenType::LessThan ==> x =~= "<"@);
            assert(t.token_type == TokenType::GreaterThan ==> x =~= ">"@);
        }
    }
}

/// The text of a token of a kind that words and numerals have.
pub proof fn lemma_wordy(t: TokenV)
    requires
        is_proper(t),
        is_atomic(t.token_type) || is_binder(t.token_type) || t.token_type == TokenType::If,
    ensures
        is_wordy(t.text),
{
    let x = t.text;
    assert(is_lexeme(x));
    assert(lex_at(x, 0).1 == x.len());
    if is_word_start(x[0]) {
        crate::spelling::lemma_word_chars(x, 0);
        assert(is_word_part(x.last()));
    } else {
        assert(is_digit(x[0]));
        crate::spelling::lemma_number_chars(x, 0);
        assert(is_digit(x.last()));
    }
}

/// What reading pieces leaves, and what it has taken.
proof fn lemma_pieces_taken(
    ts: Seq<TokenV>,
    pos: int,
    v: bool,
    stop: Stop,
    acc: Seq<PartialV>,
)
    requires
        0 <= pos,
        all_proper(ts),
        all_clean(acc),
    ensures
        parse_pieces(ts, pos, v, stop, acc) matches Ok((ps, end, p)) ==> {
            &&& pos < p <= ts.len()
            &&& end == ts[p - 1]
            &&& stop.at(end.token_type)
            &&& acc.len() <= ps.len()
            &&& forall|i: int| 0 <= i < acc.len() ==> #[trigger] ps[i] == acc[i]
            &&& all_clean(ps)
        },
    decreases ts.len() - pos, 0int,
{
    if pos < ts.len() {
        let t = ts[pos];
        let k = t.token_type;
        assert(is_proper(t));
        lemma_symbol_text(t);
        if stop.at(k) {
        } else if k == TokenType::NewLine {
            lemma_pieces_taken(ts, pos + 1, v, stop, acc);
        } else if v && word_operator(t, ends_with_operand(acc)) is Some {
            let op = TokenV { token_type: word_operator(t, ends_with_operand(acc))->0, ..t };
            let piece = operator_piece(op);
            assert(is_lexeme(t.text));
            lemma_pushed(acc, piece);
            lemma_pieces_taken(ts, pos + 1, v, stop, acc.push(piece));
            lemma_prefix(ts, pos + 1, v, stop, acc, piece);
        } else if is_atomic(k) {
            lemma_wordy(t);
            let piece = PartialV::Expr(ExprV::Identifier(t));
            lemma_pushed(acc, piece);
            lemma_pieces_taken(ts, pos + 1, v, stop, acc.push(piece));
            lemma_prefix(ts, pos + 1, v, stop, acc, piece);
        } else if k == TokenType::LeftParen {
            let close = Stop { first: TokenType::RightParen, second: TokenType::RightParen };
            lemma_expr_taken(ts, pos + 1, v, close);
            if let Ok((e, right, p)) = parse_expr(ts, pos + 1, v, close) {
                if pos < p <= ts.len() {
                    lemma_symbol_text(right);
                    let piece = PartialV::Expr(ExprV::Grouping(t, Box::new(e), right));
                    lemma_pushed(acc, piece);
                    lemma_pieces_taken(ts, p, v, stop, acc.push(piece));
                    lemma_prefix(ts, p, v, stop, acc, piece);
                }
            }
        } else if v && is_binder(k) {
            lemma_wordy(t);
            lemma_binder_taken(ts, pos + 1, t);
            if let Ok((e, p)) = parse_binder(ts, pos + 1, t) {
                if pos < p <= ts.len() {
                    let piece = PartialV::Expr(e);
                    lemma_pushed(acc, piece);
                    lemma_pieces_taken(ts, p, v, stop, acc.push(piece));
                    lemma_prefix(ts, p, v, stop, acc, piece);
                }
            }
        } else if v && k == TokenType::If {
            lemma_wordy(t);
            lemma_choice_taken(ts, pos + 1, t);
            if let Ok((e, p)) = parse_choice(ts, pos + 1, t) {
                if pos < p <= ts.len() {
                    let piece = PartialV::Expr(e);
                    lemma_pushed(acc, piece);
                    lemma_pieces_taken(ts, p, v, stop, acc.push(piece));
                    lemma_prefix(ts, p, v, stop, acc, piece);
                }
            }
        } else if precedence(k, v) is Some {
            let piece = operator_piece(t);
            assert(is_lexeme(t.text));
            lemma_pushed(acc, piece);
            lemma_pieces_taken(ts, pos + 1, v, stop, acc.push(piece));
            lemma_prefix(ts, pos + 1, v, stop, acc, piece);
        }
    }
}

proof fn lemma_pushed(acc: Seq<PartialV>, piece: PartialV)
    requires
        all_clean(acc),
        is_clean_piece(piece),
    ensures
        all_clean(acc.push(piece)),
{
    let more = acc.push(piece);
    assert forall|i: int| 0 <= i < more.len() implies is_clean_piece(#[trigger] more[i]) by {
        if i < acc.len() {
            assert(more[i] == acc[i]);
        }
    }
}

/// What starts with more pieces starts with fewer.
proof fn lemma_prefix(
    ts: Seq<TokenV>,
    pos: int,
    v: bool,
    stop: Stop,
    acc: Seq<PartialV>,
    piece: PartialV,
)
    ensures
        parse_pieces(ts, pos, v, stop, acc.push(piece)) matches Ok((ps, _, _)) ==> ((forall|i: int|
            0 <= i < acc.push(piece).len() ==> #[trigger] ps[i] == acc.push(piece)[i]) ==> (forall|
            i: int,
        |
            0 <= i < acc.len() ==> #[trigger] ps[i] == acc[i])),
{
    if let Ok((ps, _, _)) = parse_pieces(ts, pos, v, stop, acc.push(piece)) {
        let more = acc.push(piece);
        if forall|i: int| 0 <= i < more.len() ==> #[trigger] ps[i] == more[i] {
            assert forall|i: int| 0 <= i < acc.len() implies #[trigger] ps[i] == acc[i] by {
                assert(more[i] == acc[i]);
            }
        }
    }
}

/// What reading an expression leaves, and what it has taken.
pub proof fn lemma_expr_taken(ts: Seq<TokenV>, pos: int, v: bool, stop: Stop)
    requires
        0 <= pos,
        all_proper(ts),
    ensures
        parse_expr(ts, pos, v, stop) matches Ok((e, end, p)) ==> {
            &&& pos < p <= ts.len()
            &&& end == ts[p - 1]
            &&& is_proper(end)
            &&& stop.at(end.token_type)
            &&& is_clean(e)
        },
    decreases ts.len() - pos, 1int,
{
    lemma_pieces_taken(ts, pos, v, stop, Seq::empty());
    if let Ok((ps, end, _)) = parse_pieces(ts, pos, v, stop, Seq::empty()) {
        lemma_combined_clean(ps, 0, ps.len() as int, v, end);
    }
}

proof fn lemma_binder_taken(ts: Seq<TokenV>, pos: int, keyword: TokenV)
    requires
        0 <= pos,
        all_proper(ts),
        is_wordy(keyword.text),
    ensures
        parse_binder(ts, pos, keyword) matches Ok((e, p)) ==> is_clean(e),
    decreases ts.len() - pos, 2int,
{
    let close = Stop { first: TokenType::RightParen, second: TokenType::RightParen };
    let brace = Stop { first: TokenType::RightBrace, second: TokenType::RightBrace };
    reveal_with_fuel(is_clean, 2);
    if let Ok((left, p1)) = expect_type(ts, pos, TokenType::LeftParen) {
        assert(is_proper(ts[pos]));
        lemma_symbol_text(left);
        lemma_expr_taken(ts, p1, false, close);
        if let Ok((_, right, p2)) = parse_expr(ts, p1, false, close) {
            lemma_symbol_text(right);
            if let Ok((_, p3)) = expect_type(ts, p2, TokenType::LeftBrace) {
                lemma_expr_taken(ts, p3, true, brace);
            }
        }
    }
}

proof fn lemma_choice_taken(ts: Seq<TokenV>, pos: int, keyword: TokenV)
    requires
        0 <= pos,
        all_proper(ts),
        is_wordy(keyword.text),
    ensures
        parse_choice(ts, pos, keyword) matches Ok((e, p)) ==> is_clean(e),
    decreases ts.len() - pos, 2int,
{
    let open = Stop { first: TokenType::LeftBrace, second: TokenType::LeftBrace };
    let close = Stop { first: TokenType::RightBrace, second: TokenType::RightBrace };
    lemma_expr_taken(ts, pos, true, open);
    if let Ok((_, _, p1)) = parse_expr(ts, pos, true, open) {
        lemma_expr_taken(ts, p1, true, close);
        if let Ok((_, _, p2)) = parse_expr(ts, p1, true, close) {
            if let Ok((_, p3)) = expect_type(ts, p2, TokenType::Else) {
                if let Ok((_, p4)) = expect_type(ts, p3, TokenType::LeftBrace) {
                    lemma_expr_taken(ts, p4, true, close);
                }
            }
        }
    }
}

/// Whether a kind of token can stand inside an expression, outside its parentheses and braces.
pub open spec fn is_inner(k: TokenType, v: bool) -> bool {
    is_atomic(k) || k == TokenType::LeftParen || (v && (is_binder(k) || k == TokenType::If))
        || precedence(k, v) is Some
}

/// Whether an expression that one stop has ended cannot be ended too early by another.
pub open spec fn stops_later(stop: Stop, other: Stop, v: bool) -> bool {
    forall|k: TokenType| #[trigger] other.at(k) ==> stop.at(k) || !is_inner(k, v)
}

proof fn lemma_bare_push(acc: Seq<PartialV>, other: Seq<PartialV>, x: PartialV, y: PartialV)
    requires
        bare_pieces(acc) == bare_pieces(other),
        bare_piece(x) == bare_piece(y),
    ensures
        bare_pieces(acc.push(x)) == bare_pieces(other.push(y)),
{
    let a = bare_pieces(acc);
    let b = bare_pieces(other);
    assert(acc.len() == a.len() && other.len() == b.len());
    assert forall|i: int| 0 <= i < acc.len() implies bare_piece(acc[i]) == bare_piece(
        other[i],
    ) by {
        assert(a[i] == b[i]);
    }
    assert(bare_pieces(acc.push(x)) =~= bare_pieces(other.push(y)));
}

proof fn lemma_bare_operand(acc: Seq<PartialV>, other: Seq<PartialV>)
    requires
        bare_pieces(acc) == bare_pieces(other),
    ensures
        ends_with_operand(acc) == ends_with_operand(other),
        acc.len() == other.len(),
{
    let a = bare_pieces(acc);
    let b = bare_pieces(other);
    assert(acc.len() == a.len() && other.len() == b.len());
    if acc.len() > 0 {
        assert(a[acc.len() - 1] == b[acc.len() - 1]);
    }
}

/// Whether the tokens between two places are line ends that do not end an expression, and the
/// one at the second place ends it.
pub open spec fn closes(us: Seq<TokenV>, q: int, z: int, stop: Stop) -> bool {
    &&& 0 <= q <= z < us.len()
    &&& stop.at(us[z].token_type)
    &&& q < z ==> !stop.at(TokenType::NewLine)
    &&& forall|i: int| q <= i < z ==> (#[trigger] us[i]).token_type == TokenType::NewLine
}

proof fn lemma_closes(us: Seq<TokenV>, q: int, z: int, v: bool, stop: Stop, acc: Seq<PartialV>)
    requires
        closes(us, q, z, stop),
    ensures
        parse_pieces(us, q, v, stop, acc) == Ok::<(Seq<PartialV>, TokenV, int), ErrorV>(
            (acc, us[z], z + 1),
        ),
    decreases z - q,
{
    if q < z {
        assert(us[q].token_type == TokenType::NewLine);
        lemma_closes(us, q + 1, z, v, stop, acc);
    }
}

/// Pieces that were read are read again from tokens with the same texts.
#[verifier::spinoff_prover]
#[verifier::rlimit(60)]
proof fn lemma_reread_pieces(
    ts: Seq<TokenV>,
    pos: int,
    v: bool,
    stop: Stop,
    acc: Seq<PartialV>,
    us: Seq<TokenV>,
    at: int,
    other: Stop,
    start: Seq<PartialV>,
    z: int,
)
    requires
        0 <= pos,
        all_proper(ts),
        all_proper(us),
        all_clean(acc),
        stops_later(stop, other, v),
        bare_pieces(acc) == bare_pieces(start),
        parse_pieces(ts, pos, v, stop, acc) is Ok,
        ({
            let ps = parse_pieces(ts, pos, v, stop, acc)->Ok_0.0;
            let xs = pieces_words(ps, acc.len() as int, ps.len() as int);
            reads_at(us, at, xs) && closes(us, at + xs.len(), z, other)
        }),
    ensures
        ({
            let ps = parse_pieces(ts, pos, v, stop, acc)->Ok_0.0;
            let xs = pieces_words(ps, acc.len() as int, ps.len() as int);
            parse_pieces(us, at, v, other, start) matches Ok((qs, end, p)) && bare_pieces(qs)
                == bare_pieces(ps) && end == us[z] && p == z + 1
        }),
    decreases ts.len() - pos, 0int,
{
    let ps = parse_pieces(ts, pos, v, stop, acc)->Ok_0.0;
    let n = acc.len() as int;
    let m = ps.len() as int;
    lemma_pieces_taken(ts, pos, v, stop, acc);
    let t = ts[pos];
    let k = t.token_type;
    assert(is_proper(t));
    lemma_symbol_text(t);
    let xs = pieces_words(ps, n, m);
    if stop.at(k) {
        assert(xs =~= Seq::empty());
        lemma_closes(us, at, z, v, other, start);
    } else if k == TokenType::NewLine {
        lemma_reread_pieces(ts, pos + 1, v, stop, acc, us, at, other, start, z);
    } else {
        // The piece that comes next is the first that is new.
        let (piece, p) = if v && word_operator(t, ends_with_operand(acc)) is Some {
            let op = TokenV { token_type: word_operator(t, ends_with_operand(acc))->0, ..t };
            (operator_piece(op), pos + 1)
        } else if is_atomic(k) {
            (PartialV::Expr(ExprV::Identifier(t)), pos + 1)
        } else if k == TokenType::LeftParen {
            let close = Stop { first: TokenType::RightParen, second: TokenType::RightParen };
            let (e, right, p) = parse_expr(ts, pos + 1, v, close)->Ok_0;
            (PartialV::Expr(ExprV::Grouping(t, Box::new(e), right)), p)
        } else if v && is_binder(k) {
            let (e, p) = parse_binder(ts, pos + 1, t)->Ok_0;
            (PartialV::Expr(e), p)
        } else if v && k == TokenType::If {
            let (e, p) = parse_choice(ts, pos + 1, t)->Ok_0;
            (PartialV::Expr(e), p)
        } else {
            (operator_piece(t), pos + 1)
        };
        assert(parse_pieces(ts, pos, v, stop, acc) == parse_pieces(
            ts,
            p,
            v,
            stop,
            acc.push(piece),
        ));
        assert(pos < p <= ts.len());
        lemma_piece_clean(ts, pos, v, acc, stop);
        lemma_pushed(acc, piece);
        lemma_pieces_taken(ts, p, v, stop, acc.push(piece));
        assert(ps[n] == acc.push(piece)[n]);
        lemma_pieces_first(ps, n, m);
        let first = piece_words(piece);
        let rest = pieces_words(ps, n + 1, m);
        lemma_reads_parts(us, at, first, rest);
        let q = at + first.len();
        lemma_bare_operand(acc, start);
        let u = us[at];
        lemma_first_word(piece);
        assert(us[at + 0].text == first[0]);
        assert(first[0] == t.text) by {
            if k == TokenType::LeftParen {
            } else if v && is_binder(k) && !(v && word_operator(t, ends_with_operand(acc))
                is Some) {
                lemma_binder_words(ts, pos + 1, t);
            } else if v && k == TokenType::If {
                lemma_choice_words(ts, pos + 1, t);
            }
        }
        assert(is_proper(u));
        lemma_same_token(t, u);
        assert(!other.at(k));
        let copy = if v && word_operator(t, ends_with_operand(acc)) is Some {
            let op = TokenV { token_type: word_operator(u, ends_with_operand(start))->0, ..u };
            operator_piece(op)
        } else if is_atomic(k) {
            PartialV::Expr(ExprV::Identifier(u))
        } else if k == TokenType::LeftParen {
            let close = Stop { first: TokenType::RightParen, second: TokenType::RightParen };
            lemma_reread_group(ts, pos + 1, v, t, us, at);
            let (e, right, _) = parse_expr(us, at + 1, v, close)->Ok_0;
            PartialV::Expr(ExprV::Grouping(u, Box::new(e), right))
        } else if v && is_binder(k) {
            lemma_reread_binder(ts, pos + 1, t, us, at, u);
            PartialV::Expr(parse_binder(us, at + 1, u)->Ok_0.0)
        } else if v && k == TokenType::If {
            lemma_reread_choice(ts, pos + 1, t, us, at, u);
            PartialV::Expr(parse_choice(us, at + 1, u)->Ok_0.0)
        } else {
            operator_piece(u)
        };
        assert(bare_piece(copy) == bare_piece(piece));
        assert(parse_pieces(us, at, v, other, start) == parse_pieces(
            us,
            q,
            v,
            other,
            start.push(copy),
        ));
        lemma_bare_push(acc, start, piece, copy);
        assert(xs.len() == first.len() + rest.len());
        lemma_reread_pieces(ts, p, v, stop, acc.push(piece), us, q, other, start.push(copy), z);
    }
}

/// The piece that comes next is made of tokens of the right kinds.
proof fn lemma_piece_clean(
    ts: Seq<TokenV>,
    pos: int,
    v: bool,
    acc: Seq<PartialV>,
    stop: Stop,
)
    requires
        0 <= pos < ts.len(),
        all_proper(ts),
    ensures
        ({
            let t = ts[pos];
            let k = t.token_type;
            let op = TokenV { token_type: word_operator(t, ends_with_operand(acc))->0, ..t };
            let close = Stop { first: TokenType::RightParen, second: TokenType::RightParen };
            &&& word_operator(t, ends_with_operand(acc)) is Some ==> is_clean_piece(
                operator_piece(op),
            )
            &&& is_atomic(k) ==> is_clean_piece(PartialV::Expr(ExprV::Identifier(t)))
            &&& k == TokenType::LeftParen ==> (parse_expr(ts, pos + 1, v, close) matches Ok(
                (e, right, p),
            ) ==> is_clean_piece(PartialV::Expr(ExprV::Grouping(t, Box::new(e), right))))
            &&& is_binder(k) ==> (parse_binder(ts, pos + 1, t) matches Ok((e, p))
                ==> is_clean_piece(PartialV::Expr(e)))
            &&& k == TokenType::If ==> (parse_choice(ts, pos + 1, t) matches Ok((e, p))
                ==> is_clean_piece(PartialV::Expr(e)))
            &&& k != TokenType::NewLine ==> is_clean_piece(operator_piece(t))
        }),
{
    let t = ts[pos];
    let k = t.token_type;
    let close = Stop { first: TokenType::RightParen, second: TokenType::RightParen };
    assert(is_proper(t));
    lemma_symbol_text(t);
    reveal_strlit("\n");
    if is_atomic(k) || is_binder(k) || k == TokenType::If {
        lemma_wordy(t);
    }
    if k == TokenType::LeftParen {
        lemma_expr_taken(ts, pos + 1, v, close);
        if let Ok((_, right, _)) = parse_expr(ts, pos + 1, v, close) {
            lemma_symbol_text(right);
        }
    }
    if is_binder(k) {
        lemma_binder_taken(ts, pos + 1, t);
    }
    if k == TokenType::If {
        lemma_choice_taken(ts, pos + 1, t);
    }
    if t.text == line_feed() {
        assert(k == TokenType::NewLine);
    }
}

spec fn line_feed() -> Seq<char> {
    "\n"@
}

pub proof fn lemma_words_some(e: ExprV)
    ensures
        expr_words(e).len() > 0,
    decreases e,
{
    match e {
        ExprV::Identifier(_) => {},
        ExprV::Unary(_, _) => {},
        ExprV::Binary(l, _, _) => {
            lemma_words_some(*l);
        },
        ExprV::Apply(f, _) => {
            lemma_words_some(*f);
        },
        ExprV::Grouping(_, _, _) => {},
        ExprV::Binder(_, _, _, _) => {},
        ExprV::IfThenElse(_, _, _, _, _) => {},
    }
}

proof fn lemma_first_word(p: PartialV)
    ensures
        piece_words(p).len() > 0,
{
    if let PartialV::Expr(e) = p {
        lemma_words_some(e);
    }
}

proof fn lemma_binder_words(ts: Seq<TokenV>, pos: int, t: TokenV)
    ensures
        parse_binder(ts, pos, t) matches Ok((e, _)) ==> expr_words(e)[0] == t.text,
{
}

proof fn lemma_choice_words(ts: Seq<TokenV>, pos: int, t: TokenV)
    ensures
        parse_choice(ts, pos, t) matches Ok((e, _)) ==> expr_words(e)[0] == t.text,
{
}

/// An expression that was read is read again from tokens with the same texts.
pub proof fn lemma_reread_expr(
    ts: Seq<TokenV>,
    pos: int,
    v: bool,
    stop: Stop,
    us: Seq<TokenV>,
    at: int,
    other: Stop,
    z: int,
)
    requires
        0 <= pos,
        all_proper(ts),
        all_proper(us),
        stops_later(stop, other, v),
        parse_expr(ts, pos, v, stop) is Ok,
        ({
            let xs = expr_words(parse_expr(ts, pos, v, stop)->Ok_0.0);
            reads_at(us, at, xs) && closes(us, at + xs.len(), z, other)
        }),
    ensures
        ({
            let e = parse_expr(ts, pos, v, stop)->Ok_0.0;
            parse_expr(us, at, v, other) matches Ok((f, end, p)) && bare(f) == bare(e) && end
                == us[z] && p == z + 1
        }),
    decreases ts.len() - pos, 1int,
{
    let none = Seq::<PartialV>::empty();
    let (ps, end, p) = parse_pieces(ts, pos, v, stop, none)->Ok_0;
    let m = ps.len() as int;
    lemma_combined_words(ps, 0, m, v, end);
    lemma_reread_pieces(ts, pos, v, stop, none, us, at, other, none, z);
    let (qs, end2, _) = parse_pieces(us, at, v, other, none)->Ok_0;
    assert(bare_pieces(qs).len() == qs.len() && bare_pieces(ps).len() == ps.len());
    lemma_bare_combined(ps, 0, m, v, end, end);
    lemma_bare_combined(qs, 0, m, v, end2, end);
}

proof fn lemma_reread_group(
    ts: Seq<TokenV>,
    pos: int,
    v: bool,
    t: TokenV,
    us: Seq<TokenV>,
    at: int,
)
    requires
        0 <= pos,
        all_proper(ts),
        all_proper(us),
        ({
            let close = Stop { first: TokenType::RightParen, second: TokenType::RightParen };
            parse_expr(ts, pos, v, close) matches Ok((e, right, _)) && reads_at(
                us,
                at,
                expr_words(ExprV::Grouping(t, Box::new(e), right)),
            )
        }),
    ensures
        ({
            let close = Stop { first: TokenType::RightParen, second: TokenType::RightParen };
            let (e, right, _) = parse_expr(ts, pos, v, close)->Ok_0;
            parse_expr(us, at + 1, v, close) matches Ok((f, end, p)) && bare(f) == bare(e)
                && bare_token(end) == bare_token(right) && p == at + expr_words(e).len() + 2
        }),
    decreases ts.len() - pos, 2int,
{
    let close = Stop { first: TokenType::RightParen, second: TokenType::RightParen };
    let (e, right, _) = parse_expr(ts, pos, v, close)->Ok_0;
    lemma_expr_taken(ts, pos, v, close);
    let xs = expr_words(e);
    lemma_reads_parts(us, at, seq![t.text] + xs, seq![right.text]);
    lemma_reads_parts(us, at, seq![t.text], xs);
    let q = at + 1 + xs.len();
    lemma_reads_one(us, q, right.text);
    assert(is_proper(us[q]));
    lemma_same_token(right, us[q]);
    lemma_reread_expr(ts, pos, v, close, us, at + 1, close, q);
}

proof fn lemma_reread_binder(
    ts: Seq<TokenV>,
    pos: int,
    t: TokenV,
    us: Seq<TokenV>,
    at: int,
    u: TokenV,
)
    requires
        0 <= pos,
        all_proper(ts),
        all_proper(us),
        bare_token(t) == bare_token(u),
        parse_binder(ts, pos, t) matches Ok((e, _)) && reads_at(us, at, expr_words(e)),
    ensures
        parse_binder(us, at + 1, u) matches Ok((f, p)) && bare(f) == bare(
            parse_binder(ts, pos, t)->Ok_0.0,
        ) && p == at + expr_words(parse_binder(ts, pos, t)->Ok_0.0).len(),
    decreases ts.len() - pos, 3int,
{
    let close = Stop { first: TokenType::RightParen, second: TokenType::RightParen };
    let shut = Stop { first: TokenType::RightBrace, second: TokenType::RightBrace };
    reveal_with_fuel(bare, 2);
    let (left, p1) = expect_type(ts, pos, TokenType::LeftParen)->Ok_0;
    let (args, right, p2) = parse_expr(ts, p1, false, close)->Ok_0;
    let (brace, p3) = expect_type(ts, p2, TokenType::LeftBrace)->Ok_0;
    let (body, last, _) = parse_expr(ts, p3, true, shut)->Ok_0;
    lemma_expr_taken(ts, p1, false, close);
    lemma_expr_taken(ts, p3, true, shut);
    let group = ExprV::Grouping(left, Box::new(args), right);
    let a = expr_words(group);
    let b = expr_words(body);
    let w0 = seq![t.text];
    lemma_reads_parts(us, at, w0 + a + seq!["{"@] + b, seq!["}"@]);
    lemma_reads_parts(us, at, w0 + a + seq!["{"@], b);
    lemma_reads_parts(us, at, w0 + a, seq!["{"@]);
    lemma_reads_parts(us, at, w0, a);
    assert(a == seq![left.text] + expr_words(args) + seq![right.text]);
    lemma_reread_group(ts, p1, false, left, us, at + 1);
    lemma_reads_parts(us, at + 1, seq![left.text] + expr_words(args), seq![right.text]);
    lemma_reads_parts(us, at + 1, seq![left.text], expr_words(args));
    lemma_reads_one(us, at + 1, left.text);
    assert(is_proper(us[at + 1]) && is_proper(ts[pos]));
    lemma_same_token(left, us[at + 1]);
    let q = at + 1 + a.len();
    lemma_symbols();
    lemma_reads_one(us, q, "{"@);
    assert(is_proper(us[q]));
    let z = q + 1 + b.len();
    lemma_reads_one(us, z, "}"@);
    assert(is_proper(us[z]));
    lemma_symbol_text(last);
    lemma_same_token(last, us[z]);
    lemma_reread_expr(ts, p3, true, shut, us, q + 1, shut, z);
}

#[verifier::spinoff_prover]
#[verifier::rlimit(40)]
proof fn lemma_reread_choice(
    ts: Seq<TokenV>,
    pos: int,
    t: TokenV,
    us: Seq<TokenV>,
    at: int,
    u: TokenV,
)
    requires
        0 <= pos,
        all_proper(ts),
        all_proper(us),
        bare_token(t) == bare_token(u),
        parse_choice(ts, pos, t) matches Ok((e, _)) && reads_at(us, at, expr_words(e)),
    ensures
        parse_choice(us, at + 1, u) matches Ok((f, p)) && bare(f) == bare(
            parse_choice(ts, pos, t)->Ok_0.0,
        ) && p == at + expr_words(parse_choice(ts, pos, t)->Ok_0.0).len(),
    decreases ts.len() - pos, 3int,
{
    let open = Stop { first: TokenType::LeftBrace, second: TokenType::LeftBrace };
    let shut = Stop { first: TokenType::RightBrace, second: TokenType::RightBrace };
    let (c, _, p1) = parse_expr(ts, pos, true, open)->Ok_0;
    let (yes, _, p2) = parse_expr(ts, p1, true, shut)->Ok_0;
    let (_, p3) = expect_type(ts, p2, TokenType::Else)->Ok_0;
    let (_, p4) = expect_type(ts, p3, TokenType::LeftBrace)->Ok_0;
    let (no, last, _) = parse_expr(ts, p4, true, shut)->Ok_0;
    lemma_expr_taken(ts, pos, true, open);
    lemma_expr_taken(ts, p1, true, shut);
    lemma_expr_taken(ts, p4, true, shut);
    let w0 = seq![t.text];
    let wc = expr_words(c);
    let wy = expr_words(yes);
    let wn = expr_words(no);
    let mid = seq!["}"@, "else"@, "{"@];
    lemma_reads_parts(us, at, w0 + wc + seq!["{"@] + wy + mid + wn, seq!["}"@]);
    lemma_reads_parts(us, at, w0 + wc + seq!["{"@] + wy + mid, wn);
    lemma_reads_parts(us, at, w0 + wc + seq!["{"@] + wy, mid);
    lemma_reads_parts(us, at, w0 + wc + seq!["{"@], wy);
    lemma_reads_parts(us, at, w0 + wc, seq!["{"@]);
    lemma_reads_parts(us, at, w0, wc);
    lemma_symbols();
    crate::spelling::lemma_else();
    let q1 = at + 1 + wc.len();
    lemma_reads_one(us, q1, "{"@);
    assert(is_proper(us[q1]));
    lemma_reread_expr(ts, pos, true, open, us, at + 1, open, q1);
    let q2 = q1 + 1 + wy.len();
    assert(us[q2 + 0].text == mid[0] && us[q2 + 1].text == mid[1] && us[q2 + 2].text == mid[2]);
    assert(is_proper(us[q2]) && is_proper(us[q2 + 1]) && is_proper(us[q2 + 2]));
    lemma_reread_expr(ts, p1, true, shut, us, q1 + 1, shut, q2);
    let q3 = q2 + 3 + wn.len();
    lemma_reads_one(us, q3, "}"@);
    assert(is_proper(us[q3]));
    lemma_symbol_text(last);
    lemma_same_token(last, us[q3]);
    lemma_reread_expr(ts, p4, true, shut, us, q2 + 3, shut, q3);
}

/// The first piece starts with the first token that is no line end.
proof fn lemma_first_piece(ts: Seq<TokenV>, pos: int, v: bool, stop: Stop)
    requires
        0 <= pos,
        all_proper(ts),
        parse_pieces(ts, pos, v, stop, Seq::empty()) matches Ok((ps, _, _)) && ps.len() > 0,
    ensures
        ({
            let ps = parse_pieces(ts, pos, v, stop, Seq::empty())->Ok_0.0;
            let i = after_newlines(ts, pos);
            &&& pos <= i < ts.len()
            &&& piece_words(ps[0]).len() > 0
            &&& piece_words(ps[0])[0] == ts[i].text
            &&& is_inner(ts[i].token_type, v)
        }),
    decreases ts.len() - pos,
{
    let none = Seq::<PartialV>::empty();
    let ps = parse_pieces(ts, pos, v, stop, none)->Ok_0.0;
    let t = ts[pos];
    let k = t.token_type;
    if !stop.at(k) && k == TokenType::NewLine {
        lemma_first_piece(ts, pos + 1, v, stop);
    } else {
        let (piece, p) = if v && word_operator(t, false) is Some {
            let op = TokenV { token_type: word_operator(t, false)->0, ..t };
            (operator_piece(op), pos + 1)
        } else if is_atomic(k) {
            (PartialV::Expr(ExprV::Identifier(t)), pos + 1)
        } else if k == TokenType::LeftParen {
            let close = Stop { first: TokenType::RightParen, second: TokenType::RightParen };
            let (e, right, p) = parse_expr(ts, pos + 1, v, close)->Ok_0;
            (PartialV::Expr(ExprV::Grouping(t, Box::new(e), right)), p)
        } else if v && is_binder(k) {
            lemma_binder_words(ts, pos + 1, t);
            let (e, p) = parse_binder(ts, pos + 1, t)->Ok_0;
            (PartialV::Expr(e), p)
        } else if v && k == TokenType::If {
            lemma_choice_words(ts, pos + 1, t);
            let (e, p) = parse_choice(ts, pos + 1, t)->Ok_0;
            (PartialV::Expr(e), p)
        } else {
            (operator_piece(t), pos + 1)
        };
        assert(!ends_with_operand(none));
        assert(parse_pieces(ts, pos, v, stop, none) == parse_pieces(
            ts,
            p,
            v,
            stop,
            none.push(piece),
        ));
        lemma_piece_clean(ts, pos, v, none, stop);
        lemma_pushed(none, piece);
        lemma_pieces_taken(ts, p, v, stop, none.push(piece));
        assert(ps[0] == none.push(piece)[0]);
        lemma_first_word(piece);
    }
}

/// An expression starts with the first token that is no line end.
pub proof fn lemma_first_inner(ts: Seq<TokenV>, pos: int, v: bool, stop: Stop)
    requires
        0 <= pos,
        all_proper(ts),
        parse_expr(ts, pos, v, stop) is Ok,
    ensures
        ({
            let xs = expr_words(parse_expr(ts, pos, v, stop)->Ok_0.0);
            let i = after_newlines(ts, pos);
            &&& pos <= i < ts.len()
            &&& xs.len() > 0
            &&& xs[0] == ts[i].text
            &&& is_proper(ts[i])
            &&& is_inner(ts[i].token_type, v)
        }),
{
    let (ps, end, _) = parse_pieces(ts, pos, v, stop, Seq::empty())->Ok_0;
    lemma_first_piece(ts, pos, v, stop);
    lemma_combined_words(ps, 0, ps.len() as int, v, end);
    lemma_pieces_first(ps, 0, ps.len() as int);
    assert(is_proper(ts[after_newlines(ts, pos)]));
}

proof fn lemma_last_shift(ps: Seq<PartialV>, d: int, lo: int, hi: int, v: bool)
    requires
        0 <= d,
        0 <= lo,
        hi + d <= ps.len(),
    ensures
        last_operator(ps.skip(d), lo, hi, v) == match last_operator(ps, lo + d, hi + d, v) {
            Some(k) => Some(k - d),
            None => None,
        },
        last_operator(ps, lo + d, hi + d, v) matches Some(k) ==> lo + d <= k < hi + d,
    decreases hi - lo,
{
    if lo < hi {
        lemma_last_shift(ps, d, lo, hi - 1, v);
    }
}

proof fn lemma_applied_shift(ps: Seq<PartialV>, d: int, lo: int, hi: int)
    requires
        0 <= d,
        0 <= lo < hi,
        hi + d <= ps.len(),
    ensures
        applied(ps.skip(d), lo, hi) == applied(ps, lo + d, hi + d),
    decreases hi - lo,
{
    if hi > lo + 1 {
        lemma_applied_shift(ps, d, lo, hi - 1);
    }
}

/// Pieces form the same expression wherever they stand.
proof fn lemma_combined_shift(
    ps: Seq<PartialV>,
    d: int,
    lo: int,
    hi: int,
    v: bool,
    end: TokenV,
)
    requires
        0 <= d,
        0 <= lo,
        hi + d <= ps.len(),
    ensures
        combined(ps.skip(d), lo, hi, v, end) == combined(ps, lo + d, hi + d, v, end),
    decreases hi - lo,
{
    if lo < hi {
        lemma_last_shift(ps, d, lo, hi, v);
        match last_operator(ps, lo + d, hi + d, v) {
            None => {
                lemma_applied_shift(ps, d, lo, hi);
            },
            Some(k) => {
                let i = k - d;
                assert(ps.skip(d)[i] == ps[k]);
                assert(ps.skip(d)[hi - 1] == ps[hi + d - 1]);
                if is_dotted_call(ps, k, hi + d) {
                    lemma_combined_shift(ps, d, lo, hi - 1, v, end);
                } else {
                    match ps[k] {
                        PartialV::Unary(_) => {
                            lemma_combined_shift(ps, d, i + 1, hi, v, end);
                        },
                        PartialV::Binary(t) => {
                            lemma_combined_shift(ps, d, lo, i, v, t);
                            lemma_combined_shift(ps, d, i + 1, hi, v, end);
                        },
                        PartialV::Expr(_) => {},
                    }
                }
            },
        }
    }
}

/// In a type, what came before does not matter for the pieces that come.
proof fn lemma_pieces_shift(
    ts: Seq<TokenV>,
    pos: int,
    stop: Stop,
    a: Seq<PartialV>,
    b: Seq<PartialV>,
)
    requires
        0 <= pos,
    ensures
        parse_pieces(ts, pos, false, stop, a + b) == match parse_pieces(ts, pos, false, stop, b) {
            Ok((ps, end, p)) => Ok((a + ps, end, p)),
            Err(e) => Err(e),
        },
    decreases ts.len() - pos,
{
    if pos < ts.len() {
        let t = ts[pos];
        let k = t.token_type;
        let close = Stop { first: TokenType::RightParen, second: TokenType::RightParen };
        if stop.at(k) {
        } else if k == TokenType::NewLine {
            lemma_pieces_shift(ts, pos + 1, stop, a, b);
        } else if is_atomic(k) {
            let x = PartialV::Expr(ExprV::Identifier(t));
            assert((a + b).push(x) =~= a + b.push(x));
            lemma_pieces_shift(ts, pos + 1, stop, a, b.push(x));
        } else if k == TokenType::LeftParen {
            if let Ok((e, right, p)) = parse_expr(ts, pos + 1, false, close) {
                if pos < p <= ts.len() {
                    let x = PartialV::Expr(ExprV::Grouping(t, Box::new(e), right));
                    assert((a + b).push(x) =~= a + b.push(x));
                    lemma_pieces_shift(ts, p, stop, a, b.push(x));
                }
            }
        } else if precedence(k, false) is Some {
            let x = operator_piece(t);
            assert((a + b).push(x) =~= a + b.push(x));
            lemma_pieces_shift(ts, pos + 1, stop, a, b.push(x));
        }
    }
}

proof fn lemma_some_operator(ps: Seq<PartialV>, lo: int, hi: int, i: int, v: bool)
    requires
        lo <= i < hi,
        operator(ps[i]) is Some,
    ensures
        last_operator(ps, lo, hi, v) is Some,
    decreases hi - lo,
{
    if i < hi - 1 {
        lemma_some_operator(ps, lo, hi - 1, i, v);
    }
}

/// The type of a declaration of one name, read again without the name and the colon.
#[verifier::spinoff_prover]
#[verifier::rlimit(40)]
pub proof fn lemma_after_colon(
    ts: Seq<TokenV>,
    pos: int,
    us: Seq<TokenV>,
    at: int,
    z: int,
    n: TokenV,
    t: TokenV,
    r: ExprV,
)
    requires
        0 <= pos,
        all_proper(ts),
        all_proper(us),
        t.token_type == TokenType::Colon,
        n.token_type == TokenType::Identifier || n.token_type == TokenType::Number,
        ({
            let stop = Stop { first: TokenType::Comma, second: TokenType::RightParen };
            let other = Stop { first: TokenType::Equals, second: TokenType::Satisfy };
            let e = ExprV::Binary(Box::new(ExprV::Identifier(n)), t, Box::new(r));
            parse_expr(ts, pos, false, stop) matches Ok((d, _, _)) && d == e && reads_at(
                us,
                at,
                expr_words(e),
            ) && closes(us, at + expr_words(e).len(), z, other)
        }),
    ensures
        ({
            let other = Stop { first: TokenType::Equals, second: TokenType::Satisfy };
            parse_expr(us, at + 2, false, other) matches Ok((f, end, p)) && bare(f) == bare(r)
                && end == us[z] && p == z + 1
        }),
{
    let stop = Stop { first: TokenType::Comma, second: TokenType::RightParen };
    let other = Stop { first: TokenType::Equals, second: TokenType::Satisfy };
    let e = ExprV::Binary(Box::new(ExprV::Identifier(n)), t, Box::new(r));
    let none = Seq::<PartialV>::empty();
    lemma_expr_taken(ts, pos, false, stop);
    reveal_with_fuel(is_clean, 2);
    reveal_with_fuel(bare, 2);
    reveal_with_fuel(expr_words, 2);
    lemma_symbols();
    lemma_reread_expr(ts, pos, false, stop, us, at, other, z);
    let f = parse_expr(us, at, false, other)->Ok_0.0;
    assert(expr_words(e) == seq![n.text] + seq![t.text] + expr_words(r));
    lemma_reads_parts(us, at, seq![n.text] + seq![t.text], expr_words(r));
    lemma_reads_parts(us, at, seq![n.text], seq![t.text]);
    lemma_reads_one(us, at, n.text);
    lemma_reads_one(us, at + 1, t.text);
    assert(is_proper(us[at]) && is_proper(us[at + 1]));
    lemma_same_token(n, us[at]);
    let id = PartialV::Expr(ExprV::Identifier(us[at]));
    let colon = PartialV::Binary(us[at + 1]);
    let two = none.push(id).push(colon);
    assert(parse_pieces(us, at, false, other, none) == parse_pieces(
        us,
        at + 1,
        false,
        other,
        none.push(id),
    ));
    assert(parse_pieces(us, at + 1, false, other, none.push(id)) == parse_pieces(
        us,
        at + 2,
        false,
        other,
        two,
    ));
    assert(two + none =~= two);
    lemma_pieces_shift(us, at + 2, other, two, none);
    let (qs, end, _) = parse_pieces(us, at, false, other, none)->Ok_0;
    let rs = parse_pieces(us, at + 2, false, other, none)->Ok_0.0;
    assert(qs == two + rs);
    let m = qs.len() as int;
    assert(qs[0] == id && qs[1] == colon);
    lemma_some_operator(qs, 0, m, 1, false);
    lemma_last_shift(qs, 0, 0, m, false);
    let k = last_operator(qs, 0, m, false)->0;
    let left = combined(qs, 0, k, false, us[at + 1]);
    assert(combined(qs, 0, m, false, end) == Ok::<ExprV, ErrorV>(f));
    assert(f is Binary);
    if k >= 2 {
        let x = qs[k]->Binary_0;
        lemma_combined_words(qs, 0, k, false, x);
        lemma_pieces_split(qs, 0, 2, k);
        assert(pieces_words(qs, 0, 0) =~= Seq::empty());
        assert(pieces_words(qs, 0, 1) =~= piece_words(id));
        assert(pieces_words(qs, 0, 2) =~= piece_words(id) + piece_words(colon));
        assert(false);
    }
    assert(k == 1);
    assert(qs.skip(2) =~= rs);
    lemma_combined_shift(qs, 2, 0, m - 2, false, end);
}

} // verus!
