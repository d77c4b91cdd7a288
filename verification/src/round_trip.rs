//! A statement that was read and written can be read again, and is written the same.

use vstd::prelude::*;

use crate::compilation::ErrorV;
use crate::expression::{expr_text, parse_expr, ExprV, Stop};
use crate::reread::{
    bare, expr_words, is_clean, is_wordy, lemma_bare_text, lemma_after_colon, lemma_expr_taken,
    lemma_first_inner, lemma_reads_one, lemma_reads_parts, lemma_reread_expr, lemma_same_token,
    lemma_symbol_text, lemma_symbols, lemma_wordy, reads_at,
};
use crate::printed::lemma_statement_printed;
use crate::spelling::{
    all_proper, have_texts, is_proper, kind, lemma_reads, lemma_text_is_proper, line_break, texts,
    ItemV,
};
use crate::statement::{
    args_text, constructors_text, expr_texts, fields_text, indented, is_keyword, parse_arg_list,
    parse_args, parse_components, parse_condition, parse_constructors, parse_default, parse_define,
    parse_exists, parse_fields, parse_from, parse_function_satisfy, parse_import, parse_inductive,
    parse_keyword, parse_let, parse_names, parse_proof, parse_statement, parse_struct,
    parse_theorem, parse_type, parse_type_params, parse_variable_satisfy, statement_text, stop_on,
    token_texts, type_params_text, InfoV, StatementV,
};
use crate::token::{after_newlines, expect_token, expect_type, text_tokens, valid_variable_name, TokenType, TokenV};
use crate::written::{
    all_wordy, args_items, block_items, condition_items, constructors_clean, constructors_items,
    expr_items, fields_clean, fields_items, exprs_clean, group_reading, is_clean_statement,
    lemma_expr_texts, lemma_keywords, list_items, makes, names_items, one, params_items,
    statement_items,
};

verus! {

/// Whether a declaration that stands alone can do without parentheses: it is a name that a variable
/// can have, a colon, and a type.
pub open spec fn is_plain_declaration(e: ExprV) -> bool {
    e matches ExprV::Binary(l, t, _) && t.token_type == TokenType::Colon && (*l matches ExprV::Identifier(n)
        && (n.token_type == TokenType::Identifier || n.token_type == TokenType::Number)
        && valid_variable_name(n.text))
}

/// Whether a statement has no block, and its text can be read: no single declaration needs the
/// parentheses that are left out when it is written.
pub open spec fn is_rereadable(s: StatementV) -> bool {
    match s.statement {
        InfoV::VariableSatisfy { declarations, .. } => declarations.len() == 1
            ==> is_plain_declaration(declarations[0]),
        InfoV::Let { .. } | InfoV::Define { .. } | InfoV::Type { .. } | InfoV::Exists { .. }
        | InfoV::Struct { .. } | InfoV::Import { .. } | InfoV::Default { .. }
        | InfoV::Inductive { .. } => true,
        InfoV::Theorem { body, .. } => body is None,
        _ => false,
    }
}

/// Whether two statements are written the same.
pub open spec fn alike(s: StatementV, t: StatementV) -> bool {
    forall|g: Seq<char>| #[trigger] statement_text(s, g) == statement_text(t, g)
}

/// Whether a line ends at a place, and nothing that continues a statement comes after it.
spec fn ends_at(us: Seq<TokenV>, q: int) -> bool {
    &&& 0 <= q < us.len()
    &&& us[q].token_type == TokenType::NewLine
    &&& q + 1 < us.len() ==> us[q + 1].token_type != TokenType::NewLine && us[q + 1].token_type
        != TokenType::Else && us[q + 1].token_type != TokenType::By
}

/// Whether tokens from a place on are given ones.
#[verifier::opaque]
spec fn lies(us: Seq<TokenV>, at: int, items: Seq<ItemV>) -> bool {
    all_proper(us) && reads_at(us, at, texts(items))
}

broadcast proof fn lemma_lies_sum(us: Seq<TokenV>, at: int, a: Seq<ItemV>, b: Seq<ItemV>)
    requires
        #[trigger] lies(us, at, a + b),
    ensures
        lies(us, at, a),
        lies(us, at + a.len(), b),
{
    reveal(lies);
    assert(texts(a + b) =~= texts(a) + texts(b));
    lemma_reads_parts(us, at, texts(a), texts(b));
}

broadcast proof fn lemma_lies_one(us: Seq<TokenV>, at: int, g: Seq<char>, x: Seq<char>)
    requires
        #[trigger] lies(us, at, one(g, x)),
    ensures
        0 <= at < us.len(),
        us[at].text == x,
        us[at].token_type == kind(x),
        is_proper(us[at]),
{
    reveal(lies);
    assert(texts(one(g, x)) =~= seq![x]);
    lemma_reads_one(us, at, x);
    assert(is_proper(us[at]));
}

broadcast proof fn lemma_lies_expr(us: Seq<TokenV>, at: int, e: ExprV, g: Seq<char>)
    requires
        #[trigger] lies(us, at, expr_items(e, g)),
    ensures
        reads_at(us, at, expr_words(e)),
        expr_items(e, g).len() == expr_words(e).len(),
{
    reveal(lies);
    lemma_expr_texts(e, g);
    assert(texts(expr_items(e, g)).len() == expr_items(e, g).len());
}

broadcast group group_lies {
    lemma_lies_sum,
    lemma_lies_one,
    lemma_lies_expr,
}

/// Whether tokens from a place on are those of a statement on lines of its own.
spec fn fits(us: Seq<TokenV>, at: int, s: StatementV, g: Seq<char>) -> bool {
    &&& all_proper(us)
    &&& is_rereadable(s)
    &&& lies(us, at, statement_items(s, g))
    &&& ends_at(us, at + statement_items(s, g).len())
}

/// Whether what was read is like a statement, and ends where that one ends.
spec fn again(
    r: Result<(StatementV, int), ErrorV>,
    at: int,
    s: StatementV,
    g: Seq<char>,
) -> bool {
    let q = at + statement_items(s, g).len();
    r matches Ok((t, p)) && alike(t, s) && (p == q || p == q + 1)
}

proof fn lemma_same_text(e: ExprV, f: ExprV)
    requires
        bare(e) == bare(f),
    ensures
        expr_text(e) == expr_text(f),
{
    lemma_bare_text(e);
    lemma_bare_text(f);
}

/// Whether expressions differ at most in the places of their tokens.
spec fn same_exprs(es: Seq<ExprV>, fs: Seq<ExprV>) -> bool {
    es.len() == fs.len() && forall|i: int| 0 <= i < es.len() ==> bare(#[trigger] es[i]) == bare(fs[i])
}

proof fn lemma_same_texts(es: Seq<ExprV>, fs: Seq<ExprV>)
    requires
        same_exprs(es, fs),
    ensures
        expr_texts(es) == expr_texts(fs),
        args_text(es) == args_text(fs),
{
    assert forall|i: int| 0 <= i < es.len() implies expr_texts(es)[i] == expr_texts(fs)[i] by {
        assert(bare(es[i]) == bare(fs[i]));
        lemma_same_text(es[i], fs[i]);
    }
    assert(expr_texts(es) =~= expr_texts(fs));
}

/// The first parts of a list, with a separator between each two.
spec fn upto(ps: Seq<Seq<Seq<char>>>, n: nat, sep: Seq<char>) -> Seq<Seq<char>>
    decreases n,
{
    if n == 0 {
        Seq::empty()
    } else if n == 1 {
        ps[0]
    } else {
        upto(ps, (n - 1) as nat, sep) + seq![sep] + ps[n - 1]
    }
}

/// The last parts of a list, with a separator between each two.
spec fn onward(ps: Seq<Seq<Seq<char>>>, k: int, sep: Seq<char>) -> Seq<Seq<char>>
    decreases ps.len() - k,
{
    if k >= ps.len() {
        Seq::empty()
    } else if k + 1 == ps.len() {
        ps[k]
    } else {
        ps[k] + seq![sep] + onward(ps, k + 1, sep)
    }
}

proof fn lemma_upto_onward(ps: Seq<Seq<Seq<char>>>, n: nat, sep: Seq<char>)
    requires
        0 < n <= ps.len(),
    ensures
        onward(ps, 0, sep) == upto(ps, n, sep) + (if n == ps.len() {
            Seq::empty()
        } else {
            seq![sep] + onward(ps, n as int, sep)
        }),
    decreases n,
{
    let rest = if n == ps.len() {
        Seq::empty()
    } else {
        seq![sep] + onward(ps, n as int, sep)
    };
    if n > 1 {
        lemma_upto_onward(ps, (n - 1) as nat, sep);
        assert(onward(ps, n - 1, sep) =~= ps[n - 1] + rest);
        assert(onward(ps, 0, sep) =~= upto(ps, n, sep) + rest);
    } else {
        assert(onward(ps, 0, sep) =~= upto(ps, n, sep) + rest);
    }
}

spec fn expr_parts(es: Seq<ExprV>) -> Seq<Seq<Seq<char>>> {
    Seq::new(es.len(), |i: int| expr_words(es[i]))
}

spec fn word_parts(xs: Seq<Seq<char>>) -> Seq<Seq<Seq<char>>> {
    Seq::new(xs.len(), |i: int| seq![xs[i]])
}

proof fn lemma_list_parts(es: Seq<ExprV>, n: nat)
    requires
        n <= es.len(),
    ensures
        texts(list_items(es, n)) == upto(expr_parts(es), n, ","@),
    decreases n,
{
    broadcast use group_reading;

    if n == 0 {
        assert(texts(list_items(es, n)) =~= Seq::empty());
    } else if n > 1 {
        lemma_list_parts(es, (n - 1) as nat);
    }
}

proof fn lemma_names_parts(
    xs: Seq<Seq<char>>,
    n: nat,
    g: Seq<char>,
    sep: Seq<char>,
    h: Seq<char>,
)
    requires
        n <= xs.len(),
    ensures
        texts(names_items(xs, n, g, sep, h)) == upto(word_parts(xs), n, sep),
    decreases n,
{
    broadcast use group_reading;

    if n == 0 {
        assert(texts(names_items(xs, n, g, sep, h)) =~= Seq::empty());
    } else if n > 1 {
        lemma_names_parts(xs, (n - 1) as nat, g, sep, h);
    }
}

/// The arguments of a list, read again.
proof fn lemma_list_again(
    ts: Seq<TokenV>,
    pos: int,
    term: Stop,
    acc: Seq<ExprV>,
    us: Seq<TokenV>,
    at: int,
    start: Seq<ExprV>,
)
    requires
        0 <= pos,
        all_proper(ts),
        exprs_clean(acc),
        parse_arg_list(ts, pos, term, acc) is Ok,
    ensures
        ({
            let (args, end, p) = parse_arg_list(ts, pos, term, acc)->Ok_0;
            let xs = onward(expr_parts(args), acc.len() as int, ","@);
            let q = at + xs.len();
            &&& acc.len() < args.len()
            &&& forall|i: int| 0 <= i < acc.len() ==> #[trigger] args[i] == acc[i]
            &&& exprs_clean(args)
            &&& pos < p <= ts.len()
            &&& term.at(end.token_type)
            &&& end == ts[p - 1]
            &&& all_proper(us) && same_exprs(start, acc) && reads_at(us, at, xs) && q + 1 < us.len()
                && us[q].text == ")"@ && term.at(us[q + 1].token_type) ==> (parse_arg_list(
                us,
                at,
                term,
                start,
            ) matches Ok((fs, last, r)) && same_exprs(fs, args) && last == us[q + 1] && r == q + 2)
        }),
    decreases ts.len() - pos,
{
    let stop = Stop { first: TokenType::Comma, second: TokenType::RightParen };
    let (e, t, p) = parse_expr(ts, pos, false, stop)->Ok_0;
    lemma_expr_taken(ts, pos, false, stop);
    lemma_symbols();
    lemma_symbol_text(t);
    let more = acc.push(e);
    assert(exprs_clean(more)) by {
        assert forall|i: int| 0 <= i < more.len() implies is_clean(#[trigger] more[i]) by {
            if i < acc.len() {
                assert(more[i] == acc[i]);
            }
        }
    }
    let (args, end, _) = parse_arg_list(ts, pos, term, acc)->Ok_0;
    let n = acc.len() as int;
    let ps = expr_parts(args);
    let xs = onward(ps, n, ","@);
    let q = at + xs.len();
    let f = parse_expr(us, at, false, stop)->Ok_0.0;
    let next = start.push(f);
    if t.token_type == TokenType::RightParen {
        assert(args == more);
        assert(ps[n] == expr_words(e));
        assert(xs == expr_words(e));
        if all_proper(us) && same_exprs(start, acc) && reads_at(us, at, xs) && q + 1 < us.len()
            && us[q].text == ")"@ && term.at(us[q + 1].token_type) {
            assert(is_proper(us[q]));
            lemma_reread_expr(ts, pos, false, stop, us, at, stop, q);
            assert forall|i: int| 0 <= i < next.len() implies bare(#[trigger] next[i]) == bare(
                args[i],
            ) by {
                if i < start.len() {
                    assert(next[i] == start[i]);
                    assert(bare(start[i]) == bare(acc[i]));
                }
            }
        }
    } else {
        let mid = at + expr_words(e).len() + 1;
        lemma_list_again(ts, p, term, more, us, mid, next);
        assert(args[n] == more[n]);
        assert forall|i: int| 0 <= i < acc.len() implies #[trigger] args[i] == acc[i] by {
            assert(more[i] == acc[i]);
        }
        assert(ps[n] == expr_words(e));
        assert(xs == expr_words(e) + seq![","@] + onward(ps, n + 1, ","@));
        if all_proper(us) && same_exprs(start, acc) && reads_at(us, at, xs) && q + 1 < us.len()
            && us[q].text == ")"@ && term.at(us[q + 1].token_type) {
            lemma_reads_parts(us, at, expr_words(e) + seq![","@], onward(ps, n + 1, ","@));
            lemma_reads_parts(us, at, expr_words(e), seq![","@]);
            lemma_reads_one(us, mid - 1, ","@);
            assert(is_proper(us[mid - 1]));
            lemma_reread_expr(ts, pos, false, stop, us, at, stop, mid - 1);
            assert forall|i: int| 0 <= i < next.len() implies bare(#[trigger] next[i]) == bare(
                more[i],
            ) by {
                if i < start.len() {
                    assert(next[i] == start[i]);
                    assert(bare(start[i]) == bare(acc[i]));
                }
            }
        }
    }
}

/// Type parameters, read again.
proof fn lemma_params_again(
    ts: Seq<TokenV>,
    pos: int,
    acc: Seq<TokenV>,
    us: Seq<TokenV>,
    at: int,
    start: Seq<TokenV>,
)
    requires
        0 <= pos,
        all_proper(ts),
        all_wordy(token_texts(acc)),
        parse_type_params(ts, pos, acc) is Ok,
    ensures
        ({
            let (params, p) = parse_type_params(ts, pos, acc)->Ok_0;
            let xs = onward(word_parts(token_texts(params)), acc.len() as int, ","@);
            let q = at + xs.len();
            &&& acc.len() < params.len()
            &&& forall|i: int| 0 <= i < acc.len() ==> #[trigger] params[i] == acc[i]
            &&& all_wordy(token_texts(params))
            &&& pos < p <= ts.len()
            &&& all_proper(us) && token_texts(start) == token_texts(acc) && reads_at(us, at, xs)
                && q < us.len() && us[q].text == ">"@ ==> (parse_type_params(us, at, start) matches Ok(
                (fs, r),
            ) && token_texts(fs) == token_texts(params) && r == q + 1)
        }),
    decreases ts.len() - pos,
{
    let (name, p1) = expect_type(ts, pos, TokenType::Identifier)->Ok_0;
    let (t, p2) = expect_token(ts, p1)->Ok_0;
    assert(is_proper(ts[pos]) && is_proper(ts[p1]));
    lemma_wordy(name);
    lemma_symbols();
    lemma_symbol_text(t);
    let more = acc.push(name);
    let n = acc.len() as int;
    assert(token_texts(more) =~= token_texts(acc).push(name.text));
    assert(all_wordy(token_texts(more))) by {
        let xs = token_texts(more);
        assert forall|i: int| 0 <= i < xs.len() implies is_wordy(#[trigger] xs[i]) by {
            if i < acc.len() {
                assert(xs[i] == token_texts(acc)[i]);
            }
        }
    }
    let (params, _) = parse_type_params(ts, pos, acc)->Ok_0;
    let ps = word_parts(token_texts(params));
    let xs = onward(ps, n, ","@);
    let q = at + xs.len();
    let next = start.push(us[at]);
    if t.token_type == TokenType::GreaterThan {
        assert(ps[n] == seq![name.text]);
        assert(xs == seq![name.text]);
        if all_proper(us) && token_texts(start) == token_texts(acc) && reads_at(us, at, xs) && q
            < us.len() && us[q].text == ">"@ {
            lemma_reads_one(us, at, name.text);
            assert(is_proper(us[at]) && is_proper(us[q]));
            lemma_same_token(name, us[at]);
            assert(token_texts(next) =~= token_texts(start).push(name.text));
        }
    } else {
        lemma_params_again(ts, p2, more, us, at + 2, next);
        assert(params[n] == more[n]);
        assert forall|i: int| 0 <= i < acc.len() implies #[trigger] params[i] == acc[i] by {
            assert(more[i] == acc[i]);
        }
        assert(ps[n] == seq![name.text]);
        assert(xs == seq![name.text] + seq![","@] + onward(ps, n + 1, ","@));
        if all_proper(us) && token_texts(start) == token_texts(acc) && reads_at(us, at, xs) && q
            < us.len() && us[q].text == ">"@ {
            lemma_reads_parts(us, at, seq![name.text] + seq![","@], onward(ps, n + 1, ","@));
            lemma_reads_parts(us, at, seq![name.text], seq![","@]);
            lemma_reads_one(us, at, name.text);
            lemma_reads_one(us, at + 1, ","@);
            assert(is_proper(us[at]) && is_proper(us[at + 1]));
            lemma_same_token(name, us[at]);
            assert(token_texts(next) =~= token_texts(start).push(name.text));
        }
    }
}

/// What comes of type parameters and arguments, whatever they were.
spec fn args_again(
    us: Seq<TokenV>,
    at: int,
    term: Stop,
    params: Seq<TokenV>,
    args: Seq<ExprV>,
) -> bool {
    let q = at + params_items(params).len() + args_items(args).len();
    parse_args(us, at, term) matches Ok((ps, fs, last, r)) && token_texts(ps) == token_texts(params)
        && same_exprs(fs, args) && q < us.len() && last == us[q] && r == q + 1
}

/// Whether tokens are those of type parameters and arguments, up to a terminator.
spec fn args_fit(
    us: Seq<TokenV>,
    at: int,
    term: Stop,
    params: Seq<TokenV>,
    args: Seq<ExprV>,
) -> bool {
    let q = at + params_items(params).len() + args_items(args).len();
    &&& all_proper(us)
    &&& lies(us, at, params_items(params))
    &&& lies(us, at + params_items(params).len(), args_items(args))
    &&& 0 <= at
    &&& q < us.len()
    &&& term.at(us[q].token_type)
}

/// The arguments in parentheses are those of a list.
proof fn lemma_args_lie(us: Seq<TokenV>, at: int, args: Seq<ExprV>)
    requires
        args.len() > 0,
        lies(us, at, args_items(args)),
    ensures
        ({
            let xs = onward(expr_parts(args), 0, ","@);
            &&& 0 <= at
            &&& args_items(args).len() == xs.len() + 2
            &&& at + xs.len() + 1 < us.len()
            &&& us[at].text == "("@ && us[at].token_type == TokenType::LeftParen
            &&& reads_at(us, at + 1, xs)
            &&& us[at + 1 + xs.len()].text == ")"@
        }),
{
    broadcast use group_lies;

    lemma_symbols();
    lemma_list_parts(args, args.len());
    lemma_upto_onward(expr_parts(args), args.len(), ","@);
    let xs = onward(expr_parts(args), 0, ","@);
    let list = list_items(args, args.len());
    assert(texts(list) =~= xs);
    assert(lies(us, at + 1, list));
    assert(reads_at(us, at + 1, xs)) by {
        reveal(lies);
    }
    assert(texts(list).len() == list.len());
}

/// The type parameters in brackets are those of a list.
proof fn lemma_params_lie(us: Seq<TokenV>, at: int, params: Seq<TokenV>)
    requires
        params.len() > 0,
        lies(us, at, params_items(params)),
    ensures
        ({
            let xs = onward(word_parts(token_texts(params)), 0, ","@);
            &&& 0 <= at
            &&& params_items(params).len() == xs.len() + 2
            &&& at + xs.len() + 1 < us.len()
            &&& us[at].text == "<"@ && us[at].token_type == TokenType::LessThan
            &&& reads_at(us, at + 1, xs)
            &&& us[at + 1 + xs.len()].text == ">"@
        }),
{
    broadcast use group_lies;

    lemma_symbols();
    let names = token_texts(params);
    let no = Seq::<char>::empty();
    lemma_names_parts(names, params.len(), no, ","@, " "@);
    lemma_upto_onward(word_parts(names), params.len(), ","@);
    let xs = onward(word_parts(names), 0, ","@);
    let list = names_items(names, params.len(), no, ","@, " "@);
    assert(texts(list) =~= xs);
    assert(lies(us, at + 1, list));
    assert(reads_at(us, at + 1, xs)) by {
        reveal(lies);
    }
    assert(texts(list).len() == list.len());
}

/// Type parameters and arguments, read again. The parameters may be left out.
proof fn lemma_args_again(
    ts: Seq<TokenV>,
    pos: int,
    term: Stop,
    us: Seq<TokenV>,
    at: int,
    keep: bool,
)
    requires
        0 <= pos,
        all_proper(ts),
        parse_args(ts, pos, term) is Ok,
        !term.at(TokenType::LeftParen),
        !term.at(TokenType::LessThan),
    ensures
        ({
            let (params, args, end, p) = parse_args(ts, pos, term)->Ok_0;
            let kept = if keep {
                params
            } else {
                Seq::empty()
            };
            &&& all_wordy(token_texts(params))
            &&& exprs_clean(args)
            &&& pos < p <= ts.len()
            &&& is_proper(end)
            &&& args_fit(us, at, term, kept, args) ==> args_again(us, at, term, kept, args)
        }),
{
    lemma_symbols();
    let (t, p0) = expect_token(ts, pos)->Ok_0;
    let (params, args, end, p) = parse_args(ts, pos, term)->Ok_0;
    assert(is_proper(ts[pos]));
    let kept = if keep {
        params
    } else {
        Seq::empty()
    };
    let none = Seq::<ExprV>::empty();
    let no = Seq::<TokenV>::empty();
    assert(token_texts(no) =~= Seq::empty());
    let open = at + params_items(kept).len();
    if term.at(t.token_type) {
    } else if t.token_type == TokenType::LessThan {
        lemma_params_again(ts, p0, no, us, at + 1, no);
        let (_, p1) = parse_type_params(ts, p0, no)->Ok_0;
        lemma_list_again(ts, p1 + 1, term, none, us, open + 1, none);
    } else {
        lemma_list_again(ts, p0, term, none, us, open + 1, none);
    }
    if args_fit(us, at, term, kept, args) && !term.at(t.token_type) {
        lemma_args_lie(us, open, args);
        if kept.len() > 0 {
            lemma_params_lie(us, at, kept);
        }
    }
}

proof fn lemma_let_lies(us: Seq<TokenV>, at: int, s: StatementV, g: Seq<char>)
    requires
        fits(us, at, s, g),
        s.statement is Let,
    ensures
        ({
            let name = s.statement->Let_name;
            let ty = s.statement->Let_type_expr;
            let value = s.statement->Let_value;
            let a = at + 3;
            let b = a + expr_words(ty).len() + 1;
            let q = b + expr_words(value).len();
            &&& 0 <= at && q == at + statement_items(s, g).len()
            &&& us[at + 1].text == name && is_proper(us[at + 1])
            &&& us[at + 2].token_type == TokenType::Colon
            &&& reads_at(us, a, expr_words(ty))
            &&& us[b - 1].token_type == TokenType::Equals
            &&& reads_at(us, b, expr_words(value))
            &&& q < us.len() && us[q].token_type == TokenType::NewLine
        }),
{
    broadcast use group_lies;

    lemma_symbols();
}

/// A let statement with a value, read again.
proof fn lemma_let_again(
    ts: Seq<TokenV>,
    pos: int,
    keyword: TokenV,
    us: Seq<TokenV>,
    at: int,
    other: TokenV,
    g: Seq<char>,
)
    requires
        0 <= pos,
        all_proper(ts),
    ensures
        parse_let(ts, pos, keyword) matches Ok((s, _)) ==> (s.statement is Let ==> {
            &&& is_clean_statement(s)
            &&& fits(us, at, s, g) ==> again(parse_let(us, at + 1, other), at, s, g)
        }),
{
    if let Ok((s, _)) = parse_let(ts, pos, keyword) {
        if s.statement is Let {
            let both = Stop { first: TokenType::Equals, second: TokenType::Satisfy };
            let end = stop_on(TokenType::NewLine);
            let (name, p1) = expect_token(ts, pos)->Ok_0;
            let (_, p2) = expect_type(ts, p1, TokenType::Colon)->Ok_0;
            let (ty, t, p3) = parse_expr(ts, p2, false, both)->Ok_0;
            let (value, _, _) = parse_expr(ts, p3, true, end)->Ok_0;
            assert(is_proper(ts[pos]));
            lemma_wordy(name);
            lemma_expr_taken(ts, p2, false, both);
            lemma_expr_taken(ts, p3, true, end);
            if fits(us, at, s, g) {
                lemma_let_lies(us, at, s, g);
                let a = at + 3;
                let b = a + expr_words(ty).len() + 1;
                lemma_same_token(name, us[at + 1]);
                lemma_reread_expr(ts, p2, false, both, us, a, both, b - 1);
                lemma_reread_expr(ts, p3, true, end, us, b, end, b + expr_words(value).len());
                let u = parse_let(us, at + 1, other)->Ok_0.0;
                lemma_same_text(u.statement->Let_type_expr, ty);
                lemma_same_text(u.statement->Let_value, value);
                assert(alike(u, s));
            }
        }
    }
}

proof fn lemma_type_lies(us: Seq<TokenV>, at: int, s: StatementV, g: Seq<char>)
    requires
        fits(us, at, s, g),
        s.statement is Type,
    ensures
        ({
            let name = s.statement->Type_name;
            let type_expr = s.statement->Type_type_expr;
            let q = at + 3 + expr_words(type_expr).len();
            &&& 0 <= at && q == at + statement_items(s, g).len()
            &&& us[at + 1].text == name && is_proper(us[at + 1])
            &&& us[at + 2].token_type == TokenType::Colon
            &&& reads_at(us, at + 3, expr_words(type_expr))
            &&& q < us.len() && us[q].token_type == TokenType::NewLine
        }),
{
    broadcast use group_lies;

    lemma_symbols();
    lemma_keywords();
}

/// A type statement, read again.
proof fn lemma_type_again(
    ts: Seq<TokenV>,
    pos: int,
    keyword: TokenV,
    us: Seq<TokenV>,
    at: int,
    other: TokenV,
    g: Seq<char>,
)
    requires
        0 <= pos,
        all_proper(ts),
    ensures
        parse_type(ts, pos, keyword) matches Ok((s, _)) ==> (s.statement is Type ==> {
            &&& is_clean_statement(s)
            &&& fits(us, at, s, g) ==> again(parse_type(us, at + 1, other), at, s, g)
        }),
{
    if let Ok((s, _)) = parse_type(ts, pos, keyword) {
        if s.statement is Type {
            let end = stop_on(TokenType::NewLine);
            let (name, p1) = expect_type(ts, pos, TokenType::Identifier)->Ok_0;
            let (_, p2) = expect_type(ts, p1, TokenType::Colon)->Ok_0;
            let p = after_newlines(ts, p2);
            lemma_after_newlines(ts, p2);
            let (ty, _, _) = parse_expr(ts, p, false, end)->Ok_0;
            assert(is_proper(ts[pos]));
            lemma_wordy(name);
            lemma_expr_taken(ts, p, false, end);
            if fits(us, at, s, g) {
                lemma_type_lies(us, at, s, g);
                lemma_same_token(name, us[at + 1]);
                lemma_expr_starts(ts, p, false, end, us, at + 3);
                lemma_reread_expr(
                    ts,
                    p,
                    false,
                    end,
                    us,
                    at + 3,
                    end,
                    at + 3 + expr_words(ty).len(),
                );
                let u = parse_type(us, at + 1, other)->Ok_0.0;
                lemma_same_text(u.statement->Type_type_expr, ty);
                assert(alike(u, s));
            }
        }
    }
}

proof fn lemma_default_lies(us: Seq<TokenV>, at: int, s: StatementV, g: Seq<char>)
    requires
        fits(us, at, s, g),
        s.statement is Default,
    ensures
        ({
            let type_expr = s.statement->Default_type_expr;
            let q = at + 1 + expr_words(type_expr).len();
            &&& 0 <= at && q == at + statement_items(s, g).len()
            &&& reads_at(us, at + 1, expr_words(type_expr))
            &&& q < us.len() && us[q].token_type == TokenType::NewLine
        }),
{
    broadcast use group_lies;

    lemma_symbols();
    lemma_keywords();
}

/// A default statement, read again.
proof fn lemma_default_again(
    ts: Seq<TokenV>,
    pos: int,
    keyword: TokenV,
    us: Seq<TokenV>,
    at: int,
    other: TokenV,
    g: Seq<char>,
)
    requires
        0 <= pos,
        all_proper(ts),
    ensures
        parse_default(ts, pos, keyword) matches Ok((s, _)) ==> (s.statement is Default ==> {
            &&& is_clean_statement(s)
            &&& fits(us, at, s, g) ==> again(parse_default(us, at + 1, other), at, s, g)
        }),
{
    if let Ok((s, _)) = parse_default(ts, pos, keyword) {
        if s.statement is Default {
            let end = stop_on(TokenType::NewLine);
            let (ty, _, _) = parse_expr(ts, pos, true, end)->Ok_0;
            lemma_expr_taken(ts, pos, true, end);
            if fits(us, at, s, g) {
                lemma_default_lies(us, at, s, g);
                lemma_reread_expr(
                    ts,
                    pos,
                    true,
                    end,
                    us,
                    at + 1,
                    end,
                    at + 1 + expr_words(ty).len(),
                );
                let u = parse_default(us, at + 1, other)->Ok_0.0;
                lemma_same_text(u.statement->Default_type_expr, ty);
                assert(alike(u, s));
            }
        }
    }
}

proof fn lemma_define_lies(us: Seq<TokenV>, at: int, s: StatementV, g: Seq<char>)
    requires
        fits(us, at, s, g),
        s.statement is Define,
    ensures
        ({
            let name = s.statement->Define_name;
            let type_params = s.statement->Define_type_params;
            let args = s.statement->Define_args;
            let return_type = s.statement->Define_return_type;
            let return_value = s.statement->Define_return_value;
            let c = at + 2 + params_items(type_params).len() + args_items(args).len();
            let d = c + 1 + expr_words(return_type).len();
            let q = d + 1 + expr_words(return_value).len();
            &&& 0 <= at && q == at + statement_items(s, g).len()
            &&& us[at + 1].text == name && is_proper(us[at + 1])
            &&& lies(us, at + 2, params_items(type_params))
            &&& lies(us, at + 2 + params_items(type_params).len(), args_items(args))
            &&& c < us.len() && us[c].token_type == TokenType::RightArrow
            &&& reads_at(us, c + 1, expr_words(return_type))
            &&& us[d].token_type == TokenType::Colon
            &&& reads_at(us, d + 1, expr_words(return_value))
            &&& q < us.len() && us[q].token_type == TokenType::NewLine
        }),
{
    broadcast use group_lies;

    lemma_symbols();
    lemma_keywords();
}

/// A define statement, read again.
proof fn lemma_define_again(
    ts: Seq<TokenV>,
    pos: int,
    keyword: TokenV,
    us: Seq<TokenV>,
    at: int,
    other: TokenV,
    g: Seq<char>,
)
    requires
        0 <= pos,
        all_proper(ts),
    ensures
        parse_define(ts, pos, keyword) matches Ok((s, _)) ==> (s.statement is Define ==> {
            &&& is_clean_statement(s)
            &&& fits(us, at, s, g) ==> again(parse_define(us, at + 1, other), at, s, g)
        }),
{
    if let Ok((s, _)) = parse_define(ts, pos, keyword) {
        if s.statement is Define {
            let arrow = stop_on(TokenType::RightArrow);
            let both = Stop { first: TokenType::Colon, second: TokenType::LeftBrace };
            let end = stop_on(TokenType::NewLine);
            let (name, p1) = expect_type(ts, pos, TokenType::Identifier)->Ok_0;
            let (params, args, _, p2) = parse_args(ts, p1, arrow)->Ok_0;
            let (ty, opening, p3) = parse_expr(ts, p2, false, both)->Ok_0;
            let stop = if opening.token_type == TokenType::LeftBrace {
                stop_on(TokenType::RightBrace)
            } else {
                end
            };
            let (value, _, _) = parse_expr(ts, p3, true, stop)->Ok_0;
            assert(is_proper(ts[pos]));
            lemma_wordy(name);
            lemma_args_again(ts, p1, arrow, us, at + 2, true);
            lemma_expr_taken(ts, p2, false, both);
            lemma_expr_taken(ts, p3, true, stop);
            if fits(us, at, s, g) {
                lemma_define_lies(us, at, s, g);
                let c = at + 2 + params_items(params).len() + args_items(args).len();
                let d = c + 1 + expr_words(ty).len();
                lemma_same_token(name, us[at + 1]);
                assert(args_again(us, at + 2, arrow, params, args));
                lemma_params_len(parse_args(us, at + 2, arrow)->Ok_0.0, params);
                lemma_reread_expr(ts, p2, false, both, us, c + 1, both, d);
                lemma_reread_expr(
                    ts,
                    p3,
                    true,
                    stop,
                    us,
                    d + 1,
                    end,
                    d + 1 + expr_words(value).len(),
                );
                let u = parse_define(us, at + 1, other)->Ok_0.0;
                lemma_params_len(u.statement->Define_type_params, params);
                lemma_same_texts(u.statement->Define_args, args);
                lemma_same_text(u.statement->Define_return_type, ty);
                lemma_same_text(u.statement->Define_return_value, value);
                assert(alike(u, s));
            }
        }
    }
}

proof fn lemma_exists_lies(us: Seq<TokenV>, at: int, s: StatementV, g: Seq<char>)
    requires
        fits(us, at, s, g),
        s.statement is Exists,
    ensures
        ({
            let quantifiers = s.statement->Exists_quantifiers;
            let claim = s.statement->Exists_claim;
            let c = at + 1 + args_items(quantifiers).len();
            let q = c + 4 + expr_words(claim).len();
            &&& 0 <= at && q == at + statement_items(s, g).len()
            &&& lies(us, at + 1, args_items(quantifiers))
            &&& c + 1 < us.len() && us[c].token_type == TokenType::LeftBrace
            &&& us[c + 1].token_type == TokenType::NewLine
            &&& reads_at(us, c + 2, expr_words(claim))
            &&& us[q - 2].token_type == TokenType::NewLine
            &&& us[q - 1].token_type == TokenType::RightBrace
            &&& q < us.len()
        }),
{
    broadcast use group_lies;

    lemma_symbols();
    lemma_keywords();
}

/// An exists statement, read again.
proof fn lemma_exists_again(
    ts: Seq<TokenV>,
    pos: int,
    keyword: TokenV,
    us: Seq<TokenV>,
    at: int,
    other: TokenV,
    g: Seq<char>,
)
    requires
        0 <= pos,
        all_proper(ts),
    ensures
        parse_exists(ts, pos, keyword) matches Ok((s, _)) ==> (s.statement is Exists ==> {
            &&& is_clean_statement(s)
            &&& fits(us, at, s, g) ==> again(parse_exists(us, at + 1, other), at, s, g)
        }),
{
    if let Ok((s, _)) = parse_exists(ts, pos, keyword) {
        if s.statement is Exists {
            let brace = stop_on(TokenType::LeftBrace);
            let end = stop_on(TokenType::RightBrace);
            let (_, args, _, p1) = parse_args(ts, pos, brace)->Ok_0;
            let (claim, _, _) = parse_expr(ts, p1, true, end)->Ok_0;
            lemma_args_again(ts, pos, brace, us, at + 1, false);
            lemma_expr_taken(ts, p1, true, end);
            if fits(us, at, s, g) {
                lemma_exists_lies(us, at, s, g);
                let c = at + 1 + args_items(args).len();
                let none = Seq::<TokenV>::empty();
                lemma_no_params(us, at + 1);
                assert(args_again(us, at + 1, brace, none, args));
                lemma_reread_expr(
                    ts,
                    p1,
                    true,
                    end,
                    us,
                    c + 2,
                    end,
                    c + 3 + expr_words(claim).len(),
                );
                lemma_skip_newline(us, c + 1, true, end);
                let u = parse_exists(us, at + 1, other)->Ok_0.0;
                lemma_same_texts(u.statement->Exists_quantifiers, args);
                lemma_same_text(u.statement->Exists_claim, claim);
                assert(alike(u, s));
            }
        }
    }
}

/// Line ends are passed over, and nothing else.
proof fn lemma_after_newlines(ts: Seq<TokenV>, pos: int)
    ensures
        pos <= after_newlines(ts, pos),
        forall|i: int| pos <= i < after_newlines(ts, pos) ==> i < ts.len() && (#[trigger] ts[i]).token_type == TokenType::NewLine,
        after_newlines(ts, pos) < ts.len() ==> ts[after_newlines(ts, pos)].token_type
            != TokenType::NewLine,
    decreases ts.len() - pos,
{
    if pos < ts.len() && ts[pos].token_type == TokenType::NewLine {
        lemma_after_newlines(ts, pos + 1);
    }
}

/// An expression that starts at a token that is no line end starts with its text.
proof fn lemma_expr_starts(
    ts: Seq<TokenV>,
    pos: int,
    v: bool,
    stop: Stop,
    us: Seq<TokenV>,
    at: int,
)
    requires
        0 <= pos,
        all_proper(ts),
        all_proper(us),
        parse_expr(ts, pos, v, stop) is Ok,
        reads_at(us, at, expr_words(parse_expr(ts, pos, v, stop)->Ok_0.0)),
    ensures
        0 <= at < us.len(),
        us[at].token_type != TokenType::NewLine,
        us[at].token_type != TokenType::Else,
        us[at].token_type != TokenType::By,
        after_newlines(us, at) == at,
{
    let e = parse_expr(ts, pos, v, stop)->Ok_0.0;
    lemma_first_inner(ts, pos, v, stop);
    assert(us[at + 0].text == expr_words(e)[0]);
    assert(is_proper(us[at]));
}

proof fn lemma_params_len(ps: Seq<TokenV>, qs: Seq<TokenV>)
    requires
        token_texts(ps) == token_texts(qs),
    ensures
        ps.len() == qs.len(),
        type_params_text(ps) == type_params_text(qs),
{
    assert(token_texts(ps).len() == ps.len());
    assert(token_texts(qs).len() == qs.len());
}

proof fn lemma_no_params(us: Seq<TokenV>, at: int)
    requires
        all_proper(us),
        0 <= at <= us.len(),
    ensures
        lies(us, at, params_items(Seq::empty())),
        params_items(Seq::empty()).len() == 0,
{
    reveal(lies);
    assert(texts(params_items(Seq::empty())) =~= Seq::empty());
}

/// A line end before an expression in braces is passed over.
proof fn lemma_skip_newline(us: Seq<TokenV>, at: int, v: bool, stop: Stop)
    requires
        0 <= at < us.len(),
        us[at].token_type == TokenType::NewLine,
        !stop.at(TokenType::NewLine),
    ensures
        parse_expr(us, at, v, stop) == parse_expr(us, at + 1, v, stop),
{
}

/// The first rows, one after the other.
spec fn rows_upto(rs: Seq<Seq<Seq<char>>>, n: nat) -> Seq<Seq<char>>
    decreases n,
{
    if n == 0 {
        Seq::empty()
    } else {
        rows_upto(rs, (n - 1) as nat) + rs[n - 1]
    }
}

/// The last rows, one after the other.
spec fn rows_onward(rs: Seq<Seq<Seq<char>>>, k: int) -> Seq<Seq<char>>
    decreases rs.len() - k,
{
    if k >= rs.len() {
        Seq::empty()
    } else {
        rs[k] + rows_onward(rs, k + 1)
    }
}

proof fn lemma_rows(rs: Seq<Seq<Seq<char>>>, n: nat)
    requires
        n <= rs.len(),
    ensures
        rows_onward(rs, 0) == rows_upto(rs, n) + rows_onward(rs, n as int),
    decreases n,
{
    if n > 0 {
        lemma_rows(rs, (n - 1) as nat);
    }
    assert(rows_onward(rs, 0) =~= rows_upto(rs, n) + rows_onward(rs, n as int));
}

proof fn lemma_all_rows(rs: Seq<Seq<Seq<char>>>)
    ensures
        rows_onward(rs, 0) == rows_upto(rs, rs.len()),
{
    lemma_rows(rs, rs.len());
    assert(rows_onward(rs, rs.len() as int) =~= Seq::empty());
    assert(rows_upto(rs, rs.len()) + rows_onward(rs, rs.len() as int) =~= rows_upto(rs, rs.len()));
}

/// The components of a module path, read again.
proof fn lemma_components_again(
    ts: Seq<TokenV>,
    pos: int,
    term: TokenType,
    acc: Seq<Seq<char>>,
    us: Seq<TokenV>,
    at: int,
)
    requires
        0 <= pos,
        all_proper(ts),
        all_wordy(acc),
        term != TokenType::Dot,
        parse_components(ts, pos, term, acc) is Ok,
    ensures
        ({
            let (cs, _, p) = parse_components(ts, pos, term, acc)->Ok_0;
            let xs = onward(word_parts(cs), acc.len() as int, "."@);
            let q = at + xs.len();
            &&& acc.len() < cs.len()
            &&& forall|i: int| 0 <= i < acc.len() ==> #[trigger] cs[i] == acc[i]
            &&& all_wordy(cs)
            &&& pos < p <= ts.len()
            &&& all_proper(us) && reads_at(us, at, xs) && q < us.len() && us[q].token_type == term
                ==> (parse_components(us, at, term, acc) matches Ok((ds, _, r)) && ds == cs && r == q
                + 1)
        }),
    decreases ts.len() - pos,
{
    let (name, p1) = expect_type(ts, pos, TokenType::Identifier)->Ok_0;
    let (t, p2) = expect_token(ts, p1)->Ok_0;
    assert(is_proper(ts[pos]) && is_proper(ts[p1]));
    lemma_wordy(name);
    lemma_symbols();
    let more = acc.push(name.text);
    let n = acc.len() as int;
    assert forall|i: int| 0 <= i < more.len() implies is_wordy(#[trigger] more[i]) by {
        if i < acc.len() {
            assert(more[i] == acc[i]);
        }
    }
    let (cs, _, _) = parse_components(ts, pos, term, acc)->Ok_0;
    let ps = word_parts(cs);
    let xs = onward(ps, n, "."@);
    let q = at + xs.len();
    if t.token_type == term {
        assert(ps[n] == seq![name.text]);
        assert(xs == seq![name.text]);
        if all_proper(us) && reads_at(us, at, xs) && q < us.len() && us[q].token_type == term {
            lemma_reads_one(us, at, name.text);
            assert(is_proper(us[at]));
            lemma_same_token(name, us[at]);
        }
    } else {
        lemma_components_again(ts, p2, term, more, us, at + 2);
        assert(cs[n] == more[n]);
        assert forall|i: int| 0 <= i < acc.len() implies #[trigger] cs[i] == acc[i] by {
            assert(more[i] == acc[i]);
        }
        assert(ps[n] == seq![name.text]);
        assert(xs == seq![name.text] + seq!["."@] + onward(ps, n + 1, "."@));
        if all_proper(us) && reads_at(us, at, xs) && q < us.len() && us[q].token_type == term {
            lemma_reads_parts(us, at, seq![name.text] + seq!["."@], onward(ps, n + 1, "."@));
            lemma_reads_parts(us, at, seq![name.text], seq!["."@]);
            lemma_reads_one(us, at, name.text);
            lemma_reads_one(us, at + 1, "."@);
            assert(is_proper(us[at]) && is_proper(us[at + 1]));
            lemma_same_token(name, us[at]);
        }
    }
}

/// Imported names, read again.
proof fn lemma_names_again(
    ts: Seq<TokenV>,
    pos: int,
    acc: Seq<TokenV>,
    us: Seq<TokenV>,
    at: int,
    start: Seq<TokenV>,
)
    requires
        0 <= pos,
        all_proper(ts),
        all_wordy(token_texts(acc)),
        parse_names(ts, pos, acc) is Ok,
    ensures
        ({
            let (names, _, p) = parse_names(ts, pos, acc)->Ok_0;
            let xs = onward(word_parts(token_texts(names)), acc.len() as int, ","@);
            let q = at + xs.len();
            &&& acc.len() < names.len()
            &&& forall|i: int| 0 <= i < acc.len() ==> #[trigger] names[i] == acc[i]
            &&& all_wordy(token_texts(names))
            &&& all_proper(us) && token_texts(start) == token_texts(acc) && reads_at(us, at, xs)
                && q < us.len() && us[q].token_type == TokenType::NewLine ==> (parse_names(
                us,
                at,
                start,
            ) matches Ok((fs, _, r)) && token_texts(fs) == token_texts(names) && r == q + 1)
        }),
    decreases ts.len() - pos,
{
    let (name, p1) = expect_type(ts, pos, TokenType::Identifier)->Ok_0;
    let (t, p2) = expect_token(ts, p1)->Ok_0;
    assert(is_proper(ts[pos]) && is_proper(ts[p1]));
    lemma_wordy(name);
    lemma_symbols();
    let more = acc.push(name);
    let n = acc.len() as int;
    assert(token_texts(more) =~= token_texts(acc).push(name.text));
    assert(all_wordy(token_texts(more))) by {
        let xs = token_texts(more);
        assert forall|i: int| 0 <= i < xs.len() implies is_wordy(#[trigger] xs[i]) by {
            if i < acc.len() {
                assert(xs[i] == token_texts(acc)[i]);
            }
        }
    }
    let (names, _, _) = parse_names(ts, pos, acc)->Ok_0;
    let ps = word_parts(token_texts(names));
    let xs = onward(ps, n, ","@);
    let q = at + xs.len();
    let next = start.push(us[at]);
    if t.token_type == TokenType::NewLine {
        assert(ps[n] == seq![name.text]);
        assert(xs == seq![name.text]);
        if all_proper(us) && token_texts(start) == token_texts(acc) && reads_at(us, at, xs) && q
            < us.len() && us[q].token_type == TokenType::NewLine {
            lemma_reads_one(us, at, name.text);
            assert(is_proper(us[at]));
            lemma_same_token(name, us[at]);
            assert(token_texts(next) =~= token_texts(start).push(name.text));
        }
    } else {
        lemma_names_again(ts, p2, more, us, at + 2, next);
        assert(names[n] == more[n]);
        assert forall|i: int| 0 <= i < acc.len() implies #[trigger] names[i] == acc[i] by {
            assert(more[i] == acc[i]);
        }
        assert(ps[n] == seq![name.text]);
        assert(xs == seq![name.text] + seq![","@] + onward(ps, n + 1, ","@));
        if all_proper(us) && token_texts(start) == token_texts(acc) && reads_at(us, at, xs) && q
            < us.len() && us[q].token_type == TokenType::NewLine {
            lemma_reads_parts(us, at, seq![name.text] + seq![","@], onward(ps, n + 1, ","@));
            lemma_reads_parts(us, at, seq![name.text], seq![","@]);
            lemma_reads_one(us, at, name.text);
            lemma_reads_one(us, at + 1, ","@);
            assert(is_proper(us[at]) && is_proper(us[at + 1]));
            lemma_same_token(name, us[at]);
            assert(token_texts(next) =~= token_texts(start).push(name.text));
        }
    }
}

/// Names with separators are those of a list.
proof fn lemma_names_lie(
    us: Seq<TokenV>,
    at: int,
    xs: Seq<Seq<char>>,
    g: Seq<char>,
    sep: Seq<char>,
    h: Seq<char>,
)
    requires
        xs.len() > 0,
        lies(us, at, names_items(xs, xs.len(), g, sep, h)),
    ensures
        reads_at(us, at, onward(word_parts(xs), 0, sep)),
        names_items(xs, xs.len(), g, sep, h).len() == onward(word_parts(xs), 0, sep).len(),
{
    lemma_names_parts(xs, xs.len(), g, sep, h);
    lemma_upto_onward(word_parts(xs), xs.len(), sep);
    let list = names_items(xs, xs.len(), g, sep, h);
    assert(texts(list) =~= onward(word_parts(xs), 0, sep));
    assert(texts(list).len() == list.len());
    reveal(lies);
}

proof fn lemma_import_lies(us: Seq<TokenV>, at: int, s: StatementV, g: Seq<char>)
    requires
        fits(us, at, s, g),
        s.statement is Import,
    ensures
        ({
            let components = s.statement->Import_components;
            let names = s.statement->Import_names;
            let xs = names_items(components, components.len(), " "@, "."@, Seq::empty());
            let ys = names_items(token_texts(names), names.len(), " "@, ","@, " "@);
            let c = at + 1 + xs.len();
            &&& 0 <= at
            &&& lies(us, at + 1, xs)
            &&& names.len() == 0 ==> c == at + statement_items(s, g).len() && c < us.len() && us[c].token_type == TokenType::NewLine
            &&& names.len() > 0 ==> us[c].token_type == TokenType::Import && c < us.len() && lies(us, c + 1, ys) && c + 1 + ys.len() == at + statement_items(s, g).len() && us[c + 1 + ys.len()].token_type == TokenType::NewLine && c + 1 + ys.len() < us.len()
        }),
{
    broadcast use group_lies;

    lemma_symbols();
    lemma_keywords();
}

/// An import of a module, read again.
proof fn lemma_import_again(
    ts: Seq<TokenV>,
    pos: int,
    keyword: TokenV,
    us: Seq<TokenV>,
    at: int,
    other: TokenV,
    g: Seq<char>,
)
    requires
        0 <= pos,
        all_proper(ts),
    ensures
        parse_import(ts, pos, keyword) matches Ok((s, _)) ==> (s.statement is Import ==> {
            &&& is_clean_statement(s)
            &&& fits(us, at, s, g) ==> again(parse_import(us, at + 1, other), at, s, g)
        }),
{
    if let Ok((s, _)) = parse_import(ts, pos, keyword) {
        if s.statement is Import {
            let none = Seq::<Seq<char>>::empty();
            lemma_components_again(ts, pos, TokenType::NewLine, none, us, at + 1);
            let (cs, _, _) = parse_components(ts, pos, TokenType::NewLine, none)->Ok_0;
            assert(token_texts(Seq::<TokenV>::empty()) =~= Seq::empty());
            if fits(us, at, s, g) {
                lemma_import_lies(us, at, s, g);
                lemma_names_lie(us, at + 1, cs, " "@, "."@, Seq::empty());
                let u = parse_import(us, at + 1, other)->Ok_0.0;
                assert(alike(u, s));
            }
        }
    }
}

/// An import of names, read again.
proof fn lemma_from_again(
    ts: Seq<TokenV>,
    pos: int,
    keyword: TokenV,
    us: Seq<TokenV>,
    at: int,
    other: TokenV,
    g: Seq<char>,
)
    requires
        0 <= pos,
        all_proper(ts),
    ensures
        parse_from(ts, pos, keyword) matches Ok((s, _)) ==> (s.statement is Import ==> {
            &&& is_clean_statement(s)
            &&& fits(us, at, s, g) ==> again(parse_from(us, at + 1, other), at, s, g)
        }),
{
    if let Ok((s, _)) = parse_from(ts, pos, keyword) {
        if s.statement is Import {
            let none = Seq::<Seq<char>>::empty();
            let no = Seq::<TokenV>::empty();
            lemma_components_again(ts, pos, TokenType::Import, none, us, at + 1);
            let (cs, _, p) = parse_components(ts, pos, TokenType::Import, none)->Ok_0;
            assert(token_texts(no) =~= Seq::empty());
            let c = at + 1 + names_items(cs, cs.len(), " "@, "."@, Seq::empty()).len();
            lemma_names_again(ts, p, no, us, c + 1, no);
            let (names, _, _) = parse_names(ts, p, no)->Ok_0;
            if fits(us, at, s, g) {
                lemma_import_lies(us, at, s, g);
                lemma_names_lie(us, at + 1, cs, " "@, "."@, Seq::empty());
                lemma_names_lie(us, c + 1, token_texts(names), " "@, ","@, " "@);
                assert(token_texts(names).len() == names.len());
                let u = parse_from(us, at + 1, other)->Ok_0.0;
                lemma_params_len(u.statement->Import_names, names);
                assert(alike(u, s));
            }
        }
    }
}

spec fn field_rows(fields: Seq<(TokenV, ExprV)>) -> Seq<Seq<Seq<char>>> {
    Seq::new(
        fields.len(),
        |i: int|
            seq![fields[i].0.text] + seq![":"@] + expr_words(fields[i].1) + seq!["\n"@],
    )
}

spec fn same_fields(fs: Seq<(TokenV, ExprV)>, hs: Seq<(TokenV, ExprV)>) -> bool {
    fs.len() == hs.len() && forall|i: int|
        0 <= i < fs.len() ==> (#[trigger] fs[i]).0.text == hs[i].0.text && bare(fs[i].1) == bare(
            hs[i].1,
        )
}

proof fn lemma_fields_rows(fields: Seq<(TokenV, ExprV)>, n: nat, g: Seq<char>)
    requires
        n <= fields.len(),
    ensures
        texts(fields_items(fields, n, g)) == rows_upto(field_rows(fields), n),
    decreases n,
{
    broadcast use group_reading;

    if n == 0 {
        assert(texts(fields_items(fields, n, g)) =~= Seq::empty());
    } else {
        lemma_fields_rows(fields, (n - 1) as nat, g);
        let row = field_rows(fields)[n - 1];
        let before = fields_items(fields, (n - 1) as nat, g);
        let f = fields[n - 1];
        assert(texts(fields_items(fields, n, g)) =~= texts(before) + row);
    }
}

proof fn lemma_same_fields_text(
    fs: Seq<(TokenV, ExprV)>,
    hs: Seq<(TokenV, ExprV)>,
    g: Seq<char>,
)
    requires
        same_fields(fs, hs),
    ensures
        fields_text(fs, g) == fields_text(hs, g),
    decreases fs.len(),
{
    if fs.len() > 0 {
        let n = fs.len() - 1;
        assert(fs[n].0.text == hs[n].0.text);
        lemma_same_text(fs[n].1, hs[n].1);
        assert forall|i: int| 0 <= i < n implies (#[trigger] fs.drop_last()[i]).0.text
            == hs.drop_last()[i].0.text && bare(fs.drop_last()[i].1) == bare(hs.drop_last()[i].1) by {
            assert(fs[i].0.text == hs[i].0.text);
        }
        lemma_same_fields_text(fs.drop_last(), hs.drop_last(), g);
    }
}

/// The fields of a struct, read again.
proof fn lemma_fields_again(
    ts: Seq<TokenV>,
    pos: int,
    acc: Seq<(TokenV, ExprV)>,
    us: Seq<TokenV>,
    at: int,
    start: Seq<(TokenV, ExprV)>,
)
    requires
        0 <= pos,
        all_proper(ts),
        fields_clean(acc),
        parse_fields(ts, pos, acc) is Ok,
    ensures
        ({
            let (fields, _, _) = parse_fields(ts, pos, acc)->Ok_0;
            let xs = rows_onward(field_rows(fields), acc.len() as int);
            let q = at + xs.len();
            &&& 0 < fields.len() && acc.len() <= fields.len()
            &&& forall|i: int| 0 <= i < acc.len() ==> #[trigger] fields[i] == acc[i]
            &&& fields_clean(fields)
            &&& all_proper(us) && same_fields(start, acc) && reads_at(us, at, xs) && q < us.len()
                && us[q].text == "}"@ ==> (parse_fields(us, at, start) matches Ok((fs, _, r))
                && same_fields(fs, fields) && r == q + 1)
        }),
    decreases ts.len() - pos,
{
    let (t, p1) = expect_token(ts, pos)->Ok_0;
    assert(is_proper(ts[pos]));
    lemma_symbols();
    lemma_keywords();
    let (fields, _, _) = parse_fields(ts, pos, acc)->Ok_0;
    let n = acc.len() as int;
    let rs = field_rows(fields);
    let xs = rows_onward(rs, n);
    let q = at + xs.len();
    if t.token_type == TokenType::NewLine {
        lemma_fields_again(ts, p1, acc, us, at, start);
    } else if t.token_type == TokenType::RightBrace {
        assert(xs =~= Seq::empty());
        if all_proper(us) && same_fields(start, acc) && reads_at(us, at, xs) && q < us.len()
            && us[q].text == "}"@ {
            assert(is_proper(us[q]));
        }
    } else {
        let both = Stop { first: TokenType::NewLine, second: TokenType::RightBrace };
        let (_, p2) = expect_type(ts, p1, TokenType::Colon)->Ok_0;
        let (e, end, p3) = parse_expr(ts, p2, false, both)->Ok_0;
        lemma_wordy(t);
        lemma_expr_taken(ts, p2, false, both);
        let more = acc.push((t, e));
        assert forall|i: int| 0 <= i < more.len() implies is_wordy((#[trigger] more[i]).0.text)
            && is_clean(more[i].1) by {
            if i < acc.len() {
                assert(more[i] == acc[i]);
            }
        }
        let w = expr_words(e);
        let z = at + 2 + w.len();
        let f = parse_expr(us, at + 2, false, both)->Ok_0.0;
        let next = start.push((us[at], f));
        lemma_fields_again(ts, p3, more, us, z + 1, next);
        assert(fields[n] == more[n]);
        assert forall|i: int| 0 <= i < acc.len() implies #[trigger] fields[i] == acc[i] by {
            assert(more[i] == acc[i]);
        }
        let row = seq![t.text] + seq![":"@] + w + seq!["\n"@];
        assert(rs[n] == row);
        assert(xs == row + rows_onward(rs, n + 1));
        if all_proper(us) && same_fields(start, acc) && reads_at(us, at, xs) && q < us.len()
            && us[q].text == "}"@ {
            lemma_reads_parts(us, at, row, rows_onward(rs, n + 1));
            lemma_reads_parts(us, at, seq![t.text] + seq![":"@] + w, seq!["\n"@]);
            lemma_reads_parts(us, at, seq![t.text] + seq![":"@], w);
            lemma_reads_parts(us, at, seq![t.text], seq![":"@]);
            lemma_reads_one(us, at, t.text);
            lemma_reads_one(us, at + 1, ":"@);
            lemma_reads_one(us, z, "\n"@);
            assert(is_proper(us[at]) && is_proper(us[at + 1]) && is_proper(us[z]));
            lemma_same_token(t, us[at]);
            lemma_reread_expr(ts, p2, false, both, us, at + 2, both, z);
            assert forall|i: int| 0 <= i < next.len() implies (#[trigger] next[i]).0.text
                == more[i].0.text && bare(next[i].1) == bare(more[i].1) by {
                if i < start.len() {
                    assert(next[i] == start[i]);
                    assert(start[i].0.text == acc[i].0.text);
                }
            }
        }
    }
}

proof fn lemma_struct_lies(us: Seq<TokenV>, at: int, s: StatementV, g: Seq<char>)
    requires
        fits(us, at, s, g),
        s.statement is Struct,
    ensures
        ({
            let name = s.statement->Struct_name;
            let fields = s.statement->Struct_fields;
            let list = fields_items(fields, fields.len(), indented(g));
            let q = at + 5 + list.len();
            &&& 0 <= at && q == at + statement_items(s, g).len() && q < us.len()
            &&& us[at + 1].text == name && is_proper(us[at + 1])
            &&& us[at + 2].token_type == TokenType::LeftBrace && us[at + 3].token_type == TokenType::NewLine
            &&& lies(us, at + 4, list)
            &&& us[q - 1].text == "}"@
        }),
{
    broadcast use group_lies;

    lemma_symbols();
    lemma_keywords();
}

/// A struct statement, read again.
proof fn lemma_struct_again(
    ts: Seq<TokenV>,
    pos: int,
    keyword: TokenV,
    us: Seq<TokenV>,
    at: int,
    other: TokenV,
    g: Seq<char>,
)
    requires
        0 <= pos,
        all_proper(ts),
    ensures
        parse_struct(ts, pos, keyword) matches Ok((s, _)) ==> (s.statement is Struct ==> {
            &&& is_clean_statement(s)
            &&& fits(us, at, s, g) ==> again(parse_struct(us, at + 1, other), at, s, g)
        }),
{
    if let Ok((s, _)) = parse_struct(ts, pos, keyword) {
        if s.statement is Struct {
            let none = Seq::<(TokenV, ExprV)>::empty();
            let (name, p1) = expect_type(ts, pos, TokenType::Identifier)->Ok_0;
            let (_, p2) = expect_type(ts, p1, TokenType::LeftBrace)->Ok_0;
            assert(is_proper(ts[pos]));
            lemma_wordy(name);
            lemma_fields_again(ts, p2, none, us, at + 4, none);
            let (fields, _, _) = parse_fields(ts, p2, none)->Ok_0;
            if fits(us, at, s, g) {
                lemma_struct_lies(us, at, s, g);
                lemma_same_token(name, us[at + 1]);
                let list = fields_items(fields, fields.len(), indented(g));
                lemma_fields_rows(fields, fields.len(), indented(g));
                lemma_all_rows(field_rows(fields));
                assert(texts(list).len() == list.len());
                assert(reads_at(us, at + 4, rows_onward(field_rows(fields), 0))) by {
                    reveal(lies);
                }
                assert(parse_fields(us, at + 3, none) == parse_fields(us, at + 4, none));
                let u = parse_struct(us, at + 1, other)->Ok_0.0;
                assert forall|h: Seq<char>| #[trigger] statement_text(u, h) == statement_text(
                    s,
                    h,
                ) by {
                    lemma_same_fields_text(u.statement->Struct_fields, fields, indented(h));
                }
            }
        }
    }
}

spec fn constructor_words(e: Option<ExprV>) -> Seq<Seq<char>> {
    match e {
        Some(e) => expr_words(e),
        None => Seq::empty(),
    }
}

spec fn constructor_rows(cs: Seq<(TokenV, Option<ExprV>)>) -> Seq<Seq<Seq<char>>> {
    Seq::new(cs.len(), |i: int| seq![cs[i].0.text] + constructor_words(cs[i].1) + seq!["\n"@])
}

spec fn same_constructor(c: (TokenV, Option<ExprV>), d: (TokenV, Option<ExprV>)) -> bool {
    c.0.text == d.0.text && match (c.1, d.1) {
        (Some(e), Some(f)) => bare(e) == bare(f),
        (None, None) => true,
        _ => false,
    }
}

spec fn same_constructors(
    cs: Seq<(TokenV, Option<ExprV>)>,
    ds: Seq<(TokenV, Option<ExprV>)>,
) -> bool {
    cs.len() == ds.len() && forall|i: int|
        0 <= i < cs.len() ==> same_constructor(#[trigger] cs[i], ds[i])
}

proof fn lemma_constructors_rows(cs: Seq<(TokenV, Option<ExprV>)>, n: nat, g: Seq<char>)
    requires
        n <= cs.len(),
    ensures
        texts(constructors_items(cs, n, g)) == rows_upto(constructor_rows(cs), n),
    decreases n,
{
    broadcast use group_reading;

    if n == 0 {
        assert(texts(constructors_items(cs, n, g)) =~= Seq::empty());
    } else {
        lemma_constructors_rows(cs, (n - 1) as nat, g);
        let row = constructor_rows(cs)[n - 1];
        let before = constructors_items(cs, (n - 1) as nat, g);
        if cs[n - 1].1 is None {
            assert(texts(Seq::<ItemV>::empty()) =~= Seq::empty());
        }
        assert(texts(constructors_items(cs, n, g)) =~= texts(before) + row);
    }
}

proof fn lemma_same_constructors_text(
    cs: Seq<(TokenV, Option<ExprV>)>,
    ds: Seq<(TokenV, Option<ExprV>)>,
    g: Seq<char>,
)
    requires
        same_constructors(cs, ds),
    ensures
        constructors_text(cs, g) == constructors_text(ds, g),
    decreases cs.len(),
{
    if cs.len() > 0 {
        let n = cs.len() - 1;
        assert(same_constructor(cs[n], ds[n]));
        if let (Some(e), Some(f)) = (cs[n].1, ds[n].1) {
            lemma_same_text(e, f);
        }
        assert forall|i: int| 0 <= i < n implies same_constructor(
            #[trigger] cs.drop_last()[i],
            ds.drop_last()[i],
        ) by {
            assert(same_constructor(cs[i], ds[i]));
        }
        lemma_same_constructors_text(cs.drop_last(), ds.drop_last(), g);
    }
}

/// One constructor more.
proof fn lemma_more_constructors(
    cs: Seq<(TokenV, Option<ExprV>)>,
    ds: Seq<(TokenV, Option<ExprV>)>,
    c: (TokenV, Option<ExprV>),
    d: (TokenV, Option<ExprV>),
)
    requires
        same_constructors(cs, ds),
        same_constructor(c, d),
    ensures
        same_constructors(cs.push(c), ds.push(d)),
{
    let a = cs.push(c);
    let b = ds.push(d);
    assert forall|i: int| 0 <= i < a.len() implies same_constructor(#[trigger] a[i], b[i]) by {
        if i < cs.len() {
            assert(a[i] == cs[i] && b[i] == ds[i]);
            assert(same_constructor(cs[i], ds[i]));
        }
    }
}

/// The constructors of an inductive type, read again.
#[verifier::spinoff_prover]
#[verifier::rlimit(40)]
proof fn lemma_constructors_again(
    ts: Seq<TokenV>,
    pos: int,
    acc: Seq<(TokenV, Option<ExprV>)>,
    us: Seq<TokenV>,
    at: int,
    start: Seq<(TokenV, Option<ExprV>)>,
)
    requires
        0 <= pos,
        all_proper(ts),
        constructors_clean(acc),
        parse_constructors(ts, pos, acc) is Ok,
    ensures
        ({
            let (cs, _, _) = parse_constructors(ts, pos, acc)->Ok_0;
            let xs = rows_onward(constructor_rows(cs), acc.len() as int);
            let q = at + xs.len();
            &&& 0 < cs.len() && acc.len() <= cs.len()
            &&& forall|i: int| 0 <= i < acc.len() ==> #[trigger] cs[i] == acc[i]
            &&& constructors_clean(cs)
            &&& all_proper(us) && same_constructors(start, acc) && reads_at(us, at, xs) && q
                < us.len() && us[q].text == "}"@ ==> (parse_constructors(us, at, start) matches Ok(
                (fs, _, r),
            ) && same_constructors(fs, cs) && r == q + 1)
        }),
    decreases ts.len() - pos,
{
    let (t, p1) = expect_token(ts, pos)->Ok_0;
    assert(is_proper(ts[pos]));
    lemma_symbols();
    let (cs, _, _) = parse_constructors(ts, pos, acc)->Ok_0;
    let n = acc.len() as int;
    let rs = constructor_rows(cs);
    let xs = rows_onward(rs, n);
    let q = at + xs.len();
    if t.token_type == TokenType::NewLine {
        lemma_constructors_again(ts, p1, acc, us, at, start);
    } else if t.token_type == TokenType::RightBrace {
        assert(xs =~= Seq::empty());
        if all_proper(us) && same_constructors(start, acc) && reads_at(us, at, xs) && q < us.len()
            && us[q].text == "}"@ {
            assert(is_proper(us[q]));
        }
    } else {
        let close = stop_on(TokenType::RightParen);
        let (next, p2) = expect_token(ts, p1)->Ok_0;
        assert(is_proper(ts[p1]));
        lemma_wordy(t);
        lemma_symbol_text(next);
        let plain = next.token_type == TokenType::NewLine;
        let (list, right, p3) = parse_expr(ts, p2, false, close)->Ok_0;
        let group = ExprV::Grouping(next, Box::new(list), right);
        let (e, p4) = if plain {
            (None, p2)
        } else {
            (Some(group), p3 + 1)
        };
        if !plain {
            lemma_expr_taken(ts, p2, false, close);
            lemma_symbol_text(right);
        }
        let more = acc.push((t, e));
        assert(constructors_clean(more)) by {
            assert forall|i: int| 0 <= i < more.len() implies is_wordy(
                (#[trigger] more[i]).0.text,
            ) && (more[i].1 matches Some(x) ==> is_clean(x) && x is Grouping) by {
                if i < acc.len() {
                    assert(more[i] == acc[i]);
                }
            }
        }
        let w = constructor_words(e);
        let z = at + 1 + w.len();
        let (f, last, _) = parse_expr(us, at + 2, false, close)->Ok_0;
        let copy = if plain {
            (us[at], None)
        } else {
            (us[at], Some(ExprV::Grouping(us[at + 1], Box::new(f), last)))
        };
        lemma_constructors_again(ts, p4, more, us, z + 1, start.push(copy));
        assert(cs[n] == more[n]);
        assert forall|i: int| 0 <= i < acc.len() implies #[trigger] cs[i] == acc[i] by {
            assert(more[i] == acc[i]);
        }
        let row = seq![t.text] + w + seq!["\n"@];
        assert(rs[n] == row);
        assert(xs == row + rows_onward(rs, n + 1));
        if all_proper(us) && same_constructors(start, acc) && reads_at(us, at, xs) && q < us.len()
            && us[q].text == "}"@ {
            lemma_reads_parts(us, at, row, rows_onward(rs, n + 1));
            lemma_reads_parts(us, at, seq![t.text] + w, seq!["\n"@]);
            lemma_reads_parts(us, at, seq![t.text], w);
            lemma_reads_one(us, at, t.text);
            lemma_reads_one(us, z, "\n"@);
            assert(is_proper(us[at]) && is_proper(us[z]));
            lemma_same_token(t, us[at]);
            if !plain {
                lemma_group_again(ts, p2, next, us, at + 1);
            }
            lemma_more_constructors(start, acc, copy, (t, e));
        }
    }
}

/// An expression in parentheses, read again.
proof fn lemma_group_again(ts: Seq<TokenV>, pos: int, left: TokenV, us: Seq<TokenV>, at: int)
    requires
        0 <= pos,
        all_proper(ts),
        all_proper(us),
        is_proper(left),
        left.token_type == TokenType::LeftParen,
        ({
            let close = stop_on(TokenType::RightParen);
            parse_expr(ts, pos, false, close) matches Ok((e, right, _)) && reads_at(
                us,
                at,
                expr_words(ExprV::Grouping(left, Box::new(e), right)),
            )
        }),
    ensures
        ({
            let close = stop_on(TokenType::RightParen);
            let (e, right, _) = parse_expr(ts, pos, false, close)->Ok_0;
            let n = expr_words(ExprV::Grouping(left, Box::new(e), right)).len();
            &&& us[at].token_type == TokenType::LeftParen
            &&& parse_expr(us, at + 1, false, close) matches Ok((f, last, p)) && bare(
                ExprV::Grouping(us[at], Box::new(f), last),
            ) == bare(ExprV::Grouping(left, Box::new(e), right)) && p == at + n
        }),
{
    let close = stop_on(TokenType::RightParen);
    let (e, right, _) = parse_expr(ts, pos, false, close)->Ok_0;
    lemma_expr_taken(ts, pos, false, close);
    let w = expr_words(e);
    lemma_reads_parts(us, at, seq![left.text] + w, seq![right.text]);
    lemma_reads_parts(us, at, seq![left.text], w);
    lemma_reads_one(us, at, left.text);
    let z = at + 1 + w.len();
    lemma_reads_one(us, z, right.text);
    assert(is_proper(us[at]) && is_proper(us[z]));
    lemma_same_token(left, us[at]);
    lemma_same_token(right, us[z]);
    lemma_reread_expr(ts, pos, false, close, us, at + 1, close, z);
}

proof fn lemma_inductive_lies(us: Seq<TokenV>, at: int, s: StatementV, g: Seq<char>)
    requires
        fits(us, at, s, g),
        s.statement is Inductive,
    ensures
        ({
            let name = s.statement->Inductive_name;
            let constructors = s.statement->Inductive_constructors;
            let list = constructors_items(constructors, constructors.len(), indented(g));
            let q = at + 5 + list.len();
            &&& 0 <= at && q == at + statement_items(s, g).len() && q < us.len()
            &&& us[at + 1].text == name && is_proper(us[at + 1])
            &&& us[at + 2].token_type == TokenType::LeftBrace && us[at + 3].token_type == TokenType::NewLine
            &&& lies(us, at + 4, list)
            &&& us[q - 1].text == "}"@
        }),
{
    broadcast use group_lies;

    lemma_symbols();
    lemma_keywords();
}

/// An inductive statement, read again.
proof fn lemma_inductive_again(
    ts: Seq<TokenV>,
    pos: int,
    keyword: TokenV,
    us: Seq<TokenV>,
    at: int,
    other: TokenV,
    g: Seq<char>,
)
    requires
        0 <= pos,
        all_proper(ts),
    ensures
        parse_inductive(ts, pos, keyword) matches Ok((s, _)) ==> (s.statement is Inductive ==> {
            &&& is_clean_statement(s)
            &&& fits(us, at, s, g) ==> again(parse_inductive(us, at + 1, other), at, s, g)
        }),
{
    if let Ok((s, _)) = parse_inductive(ts, pos, keyword) {
        if s.statement is Inductive {
            let none = Seq::<(TokenV, Option<ExprV>)>::empty();
            let (name, p1) = expect_type(ts, pos, TokenType::Identifier)->Ok_0;
            let (_, p2) = expect_type(ts, p1, TokenType::LeftBrace)->Ok_0;
            assert(is_proper(ts[pos]));
            lemma_wordy(name);
            lemma_constructors_again(ts, p2, none, us, at + 4, none);
            let (cs, _, _) = parse_constructors(ts, p2, none)->Ok_0;
            if fits(us, at, s, g) {
                lemma_inductive_lies(us, at, s, g);
                lemma_same_token(name, us[at + 1]);
                let list = constructors_items(cs, cs.len(), indented(g));
                lemma_constructors_rows(cs, cs.len(), indented(g));
                lemma_all_rows(constructor_rows(cs));
                assert(texts(list).len() == list.len());
                assert(reads_at(us, at + 4, rows_onward(constructor_rows(cs), 0))) by {
                    reveal(lies);
                }
                assert(parse_constructors(us, at + 3, none) == parse_constructors(us, at + 4, none));
                let u = parse_inductive(us, at + 1, other)->Ok_0.0;
                assert forall|h: Seq<char>| #[trigger] statement_text(u, h) == statement_text(
                    s,
                    h,
                ) by {
                    lemma_same_constructors_text(
                        u.statement->Inductive_constructors,
                        cs,
                        indented(h),
                    );
                }
            }
        }
    }
}

/// Expressions in parentheses are those of a list.
proof fn lemma_parens_lie(us: Seq<TokenV>, at: int, g: Seq<char>, args: Seq<ExprV>)
    requires
        args.len() > 0,
        lies(us, at, one(g, "("@) + list_items(args, args.len()) + one(Seq::empty(), ")"@)),
    ensures
        ({
            let xs = onward(expr_parts(args), 0, ","@);
            &&& 0 <= at
            &&& list_items(args, args.len()).len() == xs.len()
            &&& at + xs.len() + 1 < us.len()
            &&& us[at].token_type == TokenType::LeftParen
            &&& reads_at(us, at + 1, xs)
            &&& us[at + 1 + xs.len()].text == ")"@
        }),
{
    broadcast use group_lies;

    lemma_symbols();
    lemma_list_parts(args, args.len());
    lemma_upto_onward(expr_parts(args), args.len(), ","@);
    let xs = onward(expr_parts(args), 0, ","@);
    let list = list_items(args, args.len());
    assert(texts(list) =~= xs);
    assert(lies(us, at + 1, list));
    assert(reads_at(us, at + 1, xs)) by {
        reveal(lies);
    }
    assert(texts(list).len() == list.len());
}

/// A condition in braces, read again.
proof fn lemma_condition_again(ts: Seq<TokenV>, pos: int, us: Seq<TokenV>, at: int, g: Seq<char>)
    requires
        0 <= pos,
        all_proper(ts),
        parse_condition(ts, pos) is Ok,
    ensures
        ({
            let (c, brace, p) = parse_condition(ts, pos)->Ok_0;
            let z = at + 4 + expr_words(c).len();
            &&& is_clean(c)
            &&& pos < p <= ts.len()
            &&& is_proper(brace) && brace.token_type == TokenType::RightBrace
            &&& all_proper(us) && lies(us, at, condition_items(c, g)) ==> {
                &&& 0 <= at && z < us.len()
                &&& us[at].token_type == TokenType::Satisfy
                &&& condition_items(c, g).len() == z + 1 - at
                &&& us[z].token_type == TokenType::RightBrace
                &&& parse_condition(us, at + 1) matches Ok((d, last, r)) && bare(d) == bare(c)
                    && last == us[z] && r == z + 1
            }
        }),
{
    let end = stop_on(TokenType::RightBrace);
    let (_, p1) = expect_type(ts, pos, TokenType::LeftBrace)->Ok_0;
    let (c, _, _) = parse_expr(ts, p1, true, end)->Ok_0;
    lemma_expr_taken(ts, p1, true, end);
    if all_proper(us) && lies(us, at, condition_items(c, g)) {
        lemma_condition_lies(us, at, c, g);
        lemma_skip_newline(us, at + 2, true, end);
        lemma_reread_expr(ts, p1, true, end, us, at + 3, end, at + 4 + expr_words(c).len());
    }
}

proof fn lemma_condition_lies(us: Seq<TokenV>, at: int, c: ExprV, g: Seq<char>)
    requires
        lies(us, at, condition_items(c, g)),
    ensures
        ({
            let z = at + 4 + expr_words(c).len();
            &&& 0 <= at && z < us.len()
            &&& us[at].token_type == TokenType::Satisfy
            &&& us[at + 1].token_type == TokenType::LeftBrace
            &&& us[at + 2].token_type == TokenType::NewLine
            &&& reads_at(us, at + 3, expr_words(c))
            &&& us[z - 1].token_type == TokenType::NewLine
            &&& us[z].token_type == TokenType::RightBrace
            &&& condition_items(c, g).len() == z + 1 - at
        }),
{
    broadcast use group_lies;

    lemma_symbols();
    lemma_keywords();
}

/// Whether a kind of token cannot continue the statement before it.
spec fn is_fresh(k: TokenType) -> bool {
    k != TokenType::NewLine && k != TokenType::Else && k != TokenType::By
}

/// Whether a proposition starts with a token that starts no other statement.
spec fn starts(s: StatementV) -> bool {
    s.statement matches InfoV::Prop { claim } ==> expr_words(claim).len() > 0 && is_fresh(
        kind(expr_words(claim)[0]),
    ) && !is_keyword(kind(expr_words(claim)[0])) && kind(expr_words(claim)[0])
        != TokenType::RightBrace
}

/// The keyword that a statement is written with.
spec fn first_kind(s: StatementV) -> TokenType {
    match s.statement {
        InfoV::Let { .. } => TokenType::Let,
        InfoV::VariableSatisfy { .. } => TokenType::Let,
        InfoV::FunctionSatisfy { .. } => TokenType::Let,
        InfoV::Define { .. } => TokenType::Define,
        InfoV::Theorem { axiomatic, .. } => if axiomatic {
            TokenType::Axiom
        } else {
            TokenType::Theorem
        },
        InfoV::Prop { claim } => kind(expr_words(claim)[0]),
        InfoV::Type { .. } => TokenType::Type,
        InfoV::ForAll { .. } => TokenType::ForAll,
        InfoV::If { .. } => TokenType::If,
        InfoV::Exists { .. } => TokenType::Exists,
        InfoV::Struct { .. } => TokenType::Struct,
        InfoV::Import { names, .. } => if names.len() == 0 {
            TokenType::Import
        } else {
            TokenType::From
        },
        InfoV::Class { .. } => TokenType::Class,
        InfoV::Default { .. } => TokenType::Default,
        InfoV::Solve { .. } => TokenType::Solve,
        InfoV::Inductive { .. } => TokenType::Inductive,
        InfoV::Problem { .. } => TokenType::Problem,
    }
}

#[verifier::spinoff_prover]
#[verifier::rlimit(60)]
proof fn lemma_statement_starts(us: Seq<TokenV>, at: int, s: StatementV, g: Seq<char>)
    requires
        lies(us, at, statement_items(s, g)),
        starts(s),
    ensures
        0 <= at < us.len(),
        us[at].token_type == first_kind(s),
        is_fresh(us[at].token_type),
        is_keyword(us[at].token_type) == !(s.statement is Prop),
        us[at].token_type != TokenType::RightBrace,
{
    broadcast use group_lies;

    lemma_keywords();
    if let InfoV::Prop { claim } = s.statement {
        assert(all_proper(us)) by {
            reveal(lies);
        }
        assert(reads_at(us, at, expr_words(claim)));
        assert(us[at + 0].text == expr_words(claim)[0]);
        assert(is_proper(us[at]));
    }
}

proof fn lemma_variable_lies(us: Seq<TokenV>, at: int, s: StatementV, g: Seq<char>)
    requires
        fits(us, at, s, g),
        s.statement is VariableSatisfy,
    ensures
        ({
            let declarations = s.statement->VariableSatisfy_declarations;
            let condition = s.statement->VariableSatisfy_condition;
            let list = one(" "@, "("@) + list_items(declarations, declarations.len()) + one(Seq::empty(), ")"@);
            let n = if declarations.len() == 1 {
                expr_words(declarations[0]).len()
            } else {
                list.len()
            };
            let d = at + 1 + n;
            let q = at + statement_items(s, g).len();
            &&& 0 <= at && q < us.len()
            &&& declarations.len() == 1 ==> reads_at(us, at + 1, expr_words(declarations[0]))
            &&& declarations.len() != 1 ==> lies(us, at + 1, list)
            &&& lies(us, d, condition_items(condition, g))
            &&& q == d + condition_items(condition, g).len()
        }),
{
    broadcast use group_lies;

    lemma_symbols();
    lemma_keywords();
}

/// Variables given by a condition, read again.
#[verifier::spinoff_prover]
#[verifier::rlimit(60)]
proof fn lemma_variable_again(
    ts: Seq<TokenV>,
    pos: int,
    keyword: TokenV,
    us: Seq<TokenV>,
    at: int,
    other: TokenV,
    g: Seq<char>,
)
    requires
        0 <= pos,
        all_proper(ts),
    ensures
        parse_let(ts, pos, keyword) matches Ok((s, _)) ==> (s.statement is VariableSatisfy ==> {
            &&& is_clean_statement(s)
            &&& fits(us, at, s, g) ==> again(parse_let(us, at + 1, other), at, s, g)
        }),
{
    if let Ok((s, _)) = parse_let(ts, pos, keyword) {
        if s.statement is VariableSatisfy {
            let (name, p1) = expect_token(ts, pos)->Ok_0;
            assert(is_proper(ts[pos]));
            if name.token_type == TokenType::LeftParen {
                lemma_declared_again(ts, p1, keyword, s, us, at, other, g);
            } else if p1 < ts.len() && ts[p1].token_type == TokenType::LeftParen {
                assert(parse_function_satisfy(ts, p1 + 1, keyword, name) matches Ok((t, _))
                    ==> t.statement is FunctionSatisfy);
            } else {
                lemma_plain_again(ts, pos, keyword, us, at, other, g);
            }
        }
    }
}

/// One variable, declared without parentheses, read again.
proof fn lemma_plain_again(
    ts: Seq<TokenV>,
    pos: int,
    keyword: TokenV,
    us: Seq<TokenV>,
    at: int,
    other: TokenV,
    g: Seq<char>,
)
    requires
        0 <= pos < ts.len(),
        all_proper(ts),
        ts[pos].token_type != TokenType::LeftParen,
        !(pos + 1 < ts.len() && ts[pos + 1].token_type == TokenType::LeftParen),
        parse_let(ts, pos, keyword) matches Ok((s, _)) && s.statement is VariableSatisfy,
    ensures
        ({
            let s = parse_let(ts, pos, keyword)->Ok_0.0;
            &&& is_clean_statement(s)
            &&& fits(us, at, s, g) ==> again(parse_let(us, at + 1, other), at, s, g)
        }),
{
    let s = parse_let(ts, pos, keyword)->Ok_0.0;
    let both = Stop { first: TokenType::Equals, second: TokenType::Satisfy };
    let name = ts[pos];
    assert(is_proper(ts[pos]));
    lemma_wordy(name);
    let (colon, p2) = expect_type(ts, pos + 1, TokenType::Colon)->Ok_0;
    assert(is_proper(ts[pos + 1]));
    let (ty, t, p3) = parse_expr(ts, p2, false, both)->Ok_0;
    lemma_expr_taken(ts, p2, false, both);
    let (condition, _, _) = parse_condition(ts, p3)->Ok_0;
    let e = ExprV::Binary(Box::new(ExprV::Identifier(name)), colon, Box::new(ty));
    lemma_symbol_text(colon);
    lemma_symbols();
    reveal_with_fuel(is_clean, 2);
    reveal_with_fuel(expr_words, 2);
    let w = expr_words(e);
    let d = at + 1 + w.len();
    lemma_condition_again(ts, p3, us, d, g);
    assert(w == seq![name.text] + seq![colon.text] + expr_words(ty));
    if fits(us, at, s, g) {
        lemma_variable_lies(us, at, s, g);
        lemma_reads_parts(us, at + 1, seq![name.text] + seq![colon.text], expr_words(ty));
        lemma_reads_parts(us, at + 1, seq![name.text], seq![colon.text]);
        lemma_reads_one(us, at + 1, name.text);
        lemma_reads_one(us, at + 2, colon.text);
        assert(is_proper(us[at + 1]) && is_proper(us[at + 2]));
        lemma_same_token(name, us[at + 1]);
        lemma_reread_expr(ts, p2, false, both, us, at + 3, both, d);
        let u = parse_let(us, at + 1, other)->Ok_0.0;
        let f = parse_expr(us, at + 3, false, both)->Ok_0.0;
        lemma_one_declaration(u, s, name, colon, ty, us[at + 1], us[at + 2], f);
    }
}

/// Statements with one declaration each that differ in places only are written the same.
proof fn lemma_one_declaration(
    u: StatementV,
    s: StatementV,
    n: TokenV,
    t: TokenV,
    r: ExprV,
    n2: TokenV,
    t2: TokenV,
    f: ExprV,
)
    requires
        n.text == n2.text,
        is_proper(t2),
        t.text == t2.text,
        t.token_type == TokenType::Colon,
        t2.token_type == TokenType::Colon,
        bare(f) == bare(r),
        u.statement matches InfoV::VariableSatisfy { declarations, condition } && declarations
            == seq![ExprV::Binary(Box::new(ExprV::Identifier(n2)), t2, Box::new(f))] && (
        s.statement matches InfoV::VariableSatisfy { declarations: ds, condition: c } && ds
            == seq![ExprV::Binary(Box::new(ExprV::Identifier(n)), t, Box::new(r))] && bare(
            condition,
        ) == bare(c)),
    ensures
        alike(u, s),
{
    let a = ExprV::Binary(Box::new(ExprV::Identifier(n)), t, Box::new(r));
    let b = ExprV::Binary(Box::new(ExprV::Identifier(n2)), t2, Box::new(f));
    lemma_same_text(f, r);
    assert(expr_text(a) == expr_text(b)) by {
        reveal_with_fuel(expr_text, 2);
    }
    lemma_same_text(
        u.statement->VariableSatisfy_condition,
        s.statement->VariableSatisfy_condition,
    );
    assert(alike(u, s));
}

/// Variables declared in parentheses, read again.
#[verifier::spinoff_prover]
#[verifier::rlimit(40)]
proof fn lemma_declared_again(
    ts: Seq<TokenV>,
    pos: int,
    keyword: TokenV,
    s: StatementV,
    us: Seq<TokenV>,
    at: int,
    other: TokenV,
    g: Seq<char>,
)
    requires
        0 <= pos,
        all_proper(ts),
        ({
            let sat = stop_on(TokenType::Satisfy);
            parse_arg_list(ts, pos, sat, Seq::empty()) matches Ok((ds, _, p)) && (
            parse_variable_satisfy(ts, p, keyword, ds) matches Ok((t, _)) && t == s)
        }),
    ensures
        is_clean_statement(s),
        fits(us, at, s, g) ==> again(parse_let(us, at + 1, other), at, s, g),
{
    let sat = stop_on(TokenType::Satisfy);
    let none = Seq::<ExprV>::empty();
    let (ds, _, p) = parse_arg_list(ts, pos, sat, none)->Ok_0;
    let (condition, _, _) = parse_condition(ts, p)->Ok_0;
    lemma_list_again(ts, pos, sat, none, us, at + 2, none);
    let n = if ds.len() == 1 {
        expr_words(ds[0]).len()
    } else {
        list_items(ds, ds.len()).len() + 2
    };
    let d = at + 1 + n;
    lemma_condition_again(ts, p, us, d, g);
    if fits(us, at, s, g) {
        lemma_variable_lies(us, at, s, g);
        if ds.len() == 1 {
            let stop = Stop { first: TokenType::Comma, second: TokenType::RightParen };
            let both = Stop { first: TokenType::Equals, second: TokenType::Satisfy };
            lemma_one_argument(ts, pos, sat);
            if let ExprV::Binary(l, t, r) = ds[0] {
                if let ExprV::Identifier(name) = *l {
                    reveal_with_fuel(is_clean, 2);
                    reveal_with_fuel(expr_words, 2);
                    lemma_symbols();
                    lemma_expr_taken(ts, pos, false, stop);
                    lemma_after_colon(ts, pos, us, at + 1, d, name, t, *r);
                    let w = expr_words(*r);
                    assert(expr_words(ds[0]) == seq![name.text] + seq![t.text] + w);
                    lemma_reads_parts(us, at + 1, seq![name.text] + seq![t.text], w);
                    lemma_reads_parts(us, at + 1, seq![name.text], seq![t.text]);
                    lemma_reads_one(us, at + 1, name.text);
                    lemma_reads_one(us, at + 2, t.text);
                    assert(is_proper(us[at + 1]) && is_proper(us[at + 2]));
                    lemma_same_token(name, us[at + 1]);
                    let u = parse_let(us, at + 1, other)->Ok_0.0;
                    let f = parse_expr(us, at + 3, false, both)->Ok_0.0;
                    assert(ds =~= seq![ds[0]]);
                    lemma_one_declaration(u, s, name, t, *r, us[at + 1], us[at + 2], f);
                }
            }
        } else {
            lemma_parens_lie(us, at + 1, " "@, ds);
            let u = parse_let(us, at + 1, other)->Ok_0.0;
            lemma_same_texts(u.statement->VariableSatisfy_declarations, ds);
            lemma_same_text(u.statement->VariableSatisfy_condition, condition);
            assert(alike(u, s));
        }
    }
}

/// A list of one argument is that argument.
proof fn lemma_one_argument(ts: Seq<TokenV>, pos: int, term: Stop)
    requires
        0 <= pos,
        all_proper(ts),
        parse_arg_list(ts, pos, term, Seq::empty()) matches Ok((ds, _, _)) && ds.len() == 1,
    ensures
        ({
            let stop = Stop { first: TokenType::Comma, second: TokenType::RightParen };
            parse_expr(ts, pos, false, stop) matches Ok((e, _, _)) && e == parse_arg_list(
                ts,
                pos,
                term,
                Seq::empty(),
            )->Ok_0.0[0]
        }),
{
    let stop = Stop { first: TokenType::Comma, second: TokenType::RightParen };
    let none = Seq::<ExprV>::empty();
    let (e, t, p) = parse_expr(ts, pos, false, stop)->Ok_0;
    if t.token_type != TokenType::RightParen {
        lemma_expr_taken(ts, pos, false, stop);
        let more = none.push(e);
        assert(exprs_clean(more));
        lemma_list_again(ts, p, term, more, ts, 0, none);
    }
}

proof fn lemma_from_names(ts: Seq<TokenV>, pos: int, t: TokenV)
    requires
        0 <= pos,
        all_proper(ts),
    ensures
        parse_from(ts, pos, t) matches Ok((s, _)) ==> s.statement->Import_names.len() > 0,
{
    if let Ok((s, _)) = parse_from(ts, pos, t) {
        let none = Seq::<Seq<char>>::empty();
        let no = Seq::<TokenV>::empty();
        lemma_components_again(ts, pos, TokenType::Import, none, ts, 0);
        let (_, _, p) = parse_components(ts, pos, TokenType::Import, none)->Ok_0;
        assert(token_texts(no) =~= Seq::empty());
        lemma_names_again(ts, p, no, ts, 0, no);
    }
}

proof fn lemma_theorem_lies(us: Seq<TokenV>, at: int, s: StatementV, g: Seq<char>)
    requires
        fits(us, at, s, g),
        s.statement is Theorem,
    ensures
        ({
            let name = s.statement->Theorem_name;
            let type_params = s.statement->Theorem_type_params;
            let args = s.statement->Theorem_args;
            let claim = s.statement->Theorem_claim;
            let body = s.statement->Theorem_body;
            let c = at + 2 + params_items(type_params).len() + args_items(args).len();
            let d = c + 1 + expr_words(claim).len();
            let q = at + statement_items(s, g).len();
            &&& 0 <= at && c < d < us.len() && q < us.len()
            &&& us[at + 1].text == name && is_proper(us[at + 1])
            &&& lies(us, at + 2, params_items(type_params))
            &&& lies(us, at + 2 + params_items(type_params).len(), args_items(args))
            &&& us[c].token_type == TokenType::Colon
            &&& reads_at(us, c + 1, expr_words(claim))
            &&& body is None ==> d == q
            &&& body matches Some(b) ==> us[d].token_type == TokenType::By && lies(us, d + 1, block_items(b.statements, g)) && q == d + 1 + block_items(b.statements, g).len()
        }),
{
    broadcast use group_lies;

    lemma_symbols();
    lemma_keywords();
}

/// A theorem without a block, read again.
#[verifier::spinoff_prover]
#[verifier::rlimit(40)]
proof fn lemma_theorem_again(
    ts: Seq<TokenV>,
    pos: int,
    keyword: TokenV,
    us: Seq<TokenV>,
    at: int,
    other: TokenV,
    g: Seq<char>,
    axiomatic: bool,
)
    requires
        0 <= pos,
        all_proper(ts),
    ensures
        parse_theorem(ts, pos, keyword, axiomatic) matches Ok((s, _)) ==> (s.statement is Theorem && s.statement->Theorem_body is None ==> {
            &&& is_clean_statement(s)
            &&& fits(us, at, s, g) ==> again(parse_theorem(us, at + 1, other, axiomatic), at, s, g)
        }),
{
    if let Ok((s, _)) = parse_theorem(ts, pos, keyword, axiomatic) {
        if s.statement is Theorem && s.statement->Theorem_body is None {
            let both = Stop { first: TokenType::Colon, second: TokenType::LeftBrace };
            let other_stop = Stop { first: TokenType::NewLine, second: TokenType::By };
            let (name, p1) = expect_type(ts, pos, TokenType::Identifier)->Ok_0;
            let (params, args, opening, p2) = parse_args(ts, p1, both)->Ok_0;
            let p = after_newlines(ts, p2);
            lemma_after_newlines(ts, p2);
            let stop = if opening.token_type == TokenType::LeftBrace {
                stop_on(TokenType::RightBrace)
            } else {
                other_stop
            };
            let (claim, end, p3) = parse_expr(ts, p, true, stop)->Ok_0;
            let body = parse_proof(ts, p3, end)->Ok_0.0;
            assert(is_proper(ts[pos]));
            lemma_wordy(name);
            lemma_args_again(ts, p1, both, us, at + 2, true);
            lemma_expr_taken(ts, p, true, stop);
            let c = at + 2 + params_items(params).len() + args_items(args).len();
            let d = c + 1 + expr_words(claim).len();
            if fits(us, at, s, g) {
                lemma_theorem_lies(us, at, s, g);
                lemma_same_token(name, us[at + 1]);
                assert(args_again(us, at + 2, both, params, args));
                lemma_params_len(parse_args(us, at + 2, both)->Ok_0.0, params);
                lemma_expr_starts(ts, p, true, stop, us, c + 1);
                lemma_reread_expr(ts, p, true, stop, us, c + 1, other_stop, d);
                let u = parse_theorem(us, at + 1, other, axiomatic)->Ok_0.0;
                lemma_same_texts(u.statement->Theorem_args, args);
                lemma_same_text(u.statement->Theorem_claim, claim);
                assert(alike(u, s));
            }
        }
    }
}

/// Whether what was read first can be written, and was read again.
#[verifier::opaque]
spec fn held(
    first: Result<(StatementV, int), ErrorV>,
    second: Result<(StatementV, int), ErrorV>,
    us: Seq<TokenV>,
    at: int,
    g: Seq<char>,
) -> bool {
    first matches Ok((s, _)) ==> (is_rereadable(s) ==> is_clean_statement(s) && (fits(us, at, s, g)
        ==> again(second, at, s, g)))
}

proof fn lemma_let_held(
    ts: Seq<TokenV>,
    pos: int,
    t: TokenV,
    us: Seq<TokenV>,
    at: int,
    u: TokenV,
    g: Seq<char>,
)
    requires
        0 <= pos,
        all_proper(ts),
    ensures
        held(parse_let(ts, pos, t), parse_let(us, at + 1, u), us, at, g),
{
    reveal(held);
    lemma_let_again(ts, pos, t, us, at, u, g);
    lemma_variable_again(ts, pos, t, us, at, u, g);
}

proof fn lemma_define_held(
    ts: Seq<TokenV>,
    pos: int,
    t: TokenV,
    us: Seq<TokenV>,
    at: int,
    u: TokenV,
    g: Seq<char>,
)
    requires
        0 <= pos,
        all_proper(ts),
    ensures
        held(parse_define(ts, pos, t), parse_define(us, at + 1, u), us, at, g),
{
    reveal(held);
    lemma_define_again(ts, pos, t, us, at, u, g);
}

proof fn lemma_type_held(
    ts: Seq<TokenV>,
    pos: int,
    t: TokenV,
    us: Seq<TokenV>,
    at: int,
    u: TokenV,
    g: Seq<char>,
)
    requires
        0 <= pos,
        all_proper(ts),
    ensures
        held(parse_type(ts, pos, t), parse_type(us, at + 1, u), us, at, g),
{
    reveal(held);
    lemma_type_again(ts, pos, t, us, at, u, g);
}

proof fn lemma_exists_held(
    ts: Seq<TokenV>,
    pos: int,
    t: TokenV,
    us: Seq<TokenV>,
    at: int,
    u: TokenV,
    g: Seq<char>,
)
    requires
        0 <= pos,
        all_proper(ts),
    ensures
        held(parse_exists(ts, pos, t), parse_exists(us, at + 1, u), us, at, g),
{
    reveal(held);
    lemma_exists_again(ts, pos, t, us, at, u, g);
}

proof fn lemma_struct_held(
    ts: Seq<TokenV>,
    pos: int,
    t: TokenV,
    us: Seq<TokenV>,
    at: int,
    u: TokenV,
    g: Seq<char>,
)
    requires
        0 <= pos,
        all_proper(ts),
    ensures
        held(parse_struct(ts, pos, t), parse_struct(us, at + 1, u), us, at, g),
{
    reveal(held);
    lemma_struct_again(ts, pos, t, us, at, u, g);
}

proof fn lemma_import_held(
    ts: Seq<TokenV>,
    pos: int,
    t: TokenV,
    us: Seq<TokenV>,
    at: int,
    u: TokenV,
    g: Seq<char>,
)
    requires
        0 <= pos,
        all_proper(ts),
    ensures
        held(parse_import(ts, pos, t), parse_import(us, at + 1, u), us, at, g),
{
    reveal(held);
    lemma_import_again(ts, pos, t, us, at, u, g);
}

proof fn lemma_from_held(
    ts: Seq<TokenV>,
    pos: int,
    t: TokenV,
    us: Seq<TokenV>,
    at: int,
    u: TokenV,
    g: Seq<char>,
)
    requires
        0 <= pos,
        all_proper(ts),
    ensures
        held(parse_from(ts, pos, t), parse_from(us, at + 1, u), us, at, g),
{
    reveal(held);
    lemma_from_again(ts, pos, t, us, at, u, g);
}

proof fn lemma_default_held(
    ts: Seq<TokenV>,
    pos: int,
    t: TokenV,
    us: Seq<TokenV>,
    at: int,
    u: TokenV,
    g: Seq<char>,
)
    requires
        0 <= pos,
        all_proper(ts),
    ensures
        held(parse_default(ts, pos, t), parse_default(us, at + 1, u), us, at, g),
{
    reveal(held);
    lemma_default_again(ts, pos, t, us, at, u, g);
}

proof fn lemma_inductive_held(
    ts: Seq<TokenV>,
    pos: int,
    t: TokenV,
    us: Seq<TokenV>,
    at: int,
    u: TokenV,
    g: Seq<char>,
)
    requires
        0 <= pos,
        all_proper(ts),
    ensures
        held(parse_inductive(ts, pos, t), parse_inductive(us, at + 1, u), us, at, g),
{
    reveal(held);
    lemma_inductive_again(ts, pos, t, us, at, u, g);
}

proof fn lemma_theorem_held(
    ts: Seq<TokenV>,
    pos: int,
    t: TokenV,
    us: Seq<TokenV>,
    at: int,
    u: TokenV,
    g: Seq<char>,
    axiomatic: bool,
)
    requires
        0 <= pos,
        all_proper(ts),
    ensures
        held(parse_theorem(ts, pos, t, axiomatic), parse_theorem(us, at + 1, u, axiomatic), us, at, g),
{
    reveal(held);
    lemma_theorem_again(ts, pos, t, us, at, u, g, axiomatic);
}

/// Statements with a block are not spoken of.
proof fn lemma_blocks_held(
    first: Result<(StatementV, int), ErrorV>,
    second: Result<(StatementV, int), ErrorV>,
    us: Seq<TokenV>,
    at: int,
    g: Seq<char>,
)
    requires
        first matches Ok((s, _)) ==> !is_rereadable(s),
    ensures
        held(first, second, us, at, g),
{
    reveal(held);
}

/// A statement that starts with a keyword, read again after the same keyword.
proof fn lemma_keyword_held(
    ts: Seq<TokenV>,
    pos: int,
    t: TokenV,
    us: Seq<TokenV>,
    at: int,
    u: TokenV,
    g: Seq<char>,
)
    requires
        0 <= pos,
        all_proper(ts),
        is_keyword(t.token_type),
        t.token_type == u.token_type,
    ensures
        held(parse_keyword(ts, pos, t), parse_keyword(us, at + 1, u), us, at, g),
{
    match t.token_type {
        TokenType::Let => {
            lemma_let_held(ts, pos, t, us, at, u, g);
        },
        TokenType::Define => {
            lemma_define_held(ts, pos, t, us, at, u, g);
        },
        TokenType::Type => {
            lemma_type_held(ts, pos, t, us, at, u, g);
        },
        TokenType::Exists => {
            lemma_exists_held(ts, pos, t, us, at, u, g);
        },
        TokenType::Struct => {
            lemma_struct_held(ts, pos, t, us, at, u, g);
        },
        TokenType::Import => {
            lemma_import_held(ts, pos, t, us, at, u, g);
        },
        TokenType::From => {
            lemma_from_held(ts, pos, t, us, at, u, g);
        },
        TokenType::Default => {
            lemma_default_held(ts, pos, t, us, at, u, g);
        },
        TokenType::Inductive => {
            lemma_inductive_held(ts, pos, t, us, at, u, g);
        },
        TokenType::Axiom => {
            lemma_theorem_held(ts, pos, t, us, at, u, g, true);
        },
        TokenType::Theorem => {
            lemma_theorem_held(ts, pos, t, us, at, u, g, false);
        },
        _ => {
            lemma_blocks_held(
                parse_keyword(ts, pos, t),
                parse_keyword(us, at + 1, u),
                us,
                at,
                g,
            );
        },
    }
}

/// Whether a statement that was read is written with a keyword.
#[verifier::opaque]
spec fn kind_is(r: Result<(StatementV, int), ErrorV>, k: TokenType) -> bool {
    r matches Ok((s, _)) ==> (is_rereadable(s) ==> first_kind(s) == k)
}

proof fn lemma_let_kind(ts: Seq<TokenV>, pos: int, t: TokenV)
    requires
        0 <= pos,
        all_proper(ts),
    ensures
        kind_is(parse_let(ts, pos, t), TokenType::Let),
{
    reveal(kind_is);
}

proof fn lemma_define_kind(ts: Seq<TokenV>, pos: int, t: TokenV)
    requires
        0 <= pos,
        all_proper(ts),
    ensures
        kind_is(parse_define(ts, pos, t), TokenType::Define),
{
    reveal(kind_is);
}

proof fn lemma_type_kind(ts: Seq<TokenV>, pos: int, t: TokenV)
    requires
        0 <= pos,
        all_proper(ts),
    ensures
        kind_is(parse_type(ts, pos, t), TokenType::Type),
{
    reveal(kind_is);
}

proof fn lemma_exists_kind(ts: Seq<TokenV>, pos: int, t: TokenV)
    requires
        0 <= pos,
        all_proper(ts),
    ensures
        kind_is(parse_exists(ts, pos, t), TokenType::Exists),
{
    reveal(kind_is);
}

proof fn lemma_struct_kind(ts: Seq<TokenV>, pos: int, t: TokenV)
    requires
        0 <= pos,
        all_proper(ts),
    ensures
        kind_is(parse_struct(ts, pos, t), TokenType::Struct),
{
    reveal(kind_is);
}

proof fn lemma_import_kind(ts: Seq<TokenV>, pos: int, t: TokenV)
    requires
        0 <= pos,
        all_proper(ts),
    ensures
        kind_is(parse_import(ts, pos, t), TokenType::Import),
{
    reveal(kind_is);
}

proof fn lemma_from_kind(ts: Seq<TokenV>, pos: int, t: TokenV)
    requires
        0 <= pos,
        all_proper(ts),
    ensures
        kind_is(parse_from(ts, pos, t), TokenType::From),
{
    reveal(kind_is);
    lemma_from_names(ts, pos, t);
}

proof fn lemma_default_kind(ts: Seq<TokenV>, pos: int, t: TokenV)
    requires
        0 <= pos,
        all_proper(ts),
    ensures
        kind_is(parse_default(ts, pos, t), TokenType::Default),
{
    reveal(kind_is);
}

proof fn lemma_inductive_kind(ts: Seq<TokenV>, pos: int, t: TokenV)
    requires
        0 <= pos,
        all_proper(ts),
    ensures
        kind_is(parse_inductive(ts, pos, t), TokenType::Inductive),
{
    reveal(kind_is);
}

proof fn lemma_theorem_kind(ts: Seq<TokenV>, pos: int, t: TokenV, axiomatic: bool)
    requires
        0 <= pos,
        all_proper(ts),
    ensures
        kind_is(parse_theorem(ts, pos, t, axiomatic), if axiomatic {
            TokenType::Axiom
        } else {
            TokenType::Theorem
        }),
{
    reveal(kind_is);
}

proof fn lemma_blocks_kind(r: Result<(StatementV, int), ErrorV>, k: TokenType)
    requires
        r matches Ok((s, _)) ==> !is_rereadable(s),
    ensures
        kind_is(r, k),
{
    reveal(kind_is);
}

/// A statement is written with the keyword it was read with.
proof fn lemma_first_kind(ts: Seq<TokenV>, pos: int, t: TokenV)
    requires
        0 <= pos,
        all_proper(ts),
        is_keyword(t.token_type),
    ensures
        kind_is(parse_keyword(ts, pos, t), t.token_type),
{
    match t.token_type {
        TokenType::Let => {
            lemma_let_kind(ts, pos, t);
        },
        TokenType::Define => {
            lemma_define_kind(ts, pos, t);
        },
        TokenType::Type => {
            lemma_type_kind(ts, pos, t);
        },
        TokenType::Exists => {
            lemma_exists_kind(ts, pos, t);
        },
        TokenType::Struct => {
            lemma_struct_kind(ts, pos, t);
        },
        TokenType::Import => {
            lemma_import_kind(ts, pos, t);
        },
        TokenType::From => {
            lemma_from_kind(ts, pos, t);
        },
        TokenType::Default => {
            lemma_default_kind(ts, pos, t);
        },
        TokenType::Inductive => {
            lemma_inductive_kind(ts, pos, t);
        },
        TokenType::Axiom => {
            lemma_theorem_kind(ts, pos, t, true);
        },
        TokenType::Theorem => {
            lemma_theorem_kind(ts, pos, t, false);
        },
        _ => {
            lemma_blocks_kind(parse_keyword(ts, pos, t), t.token_type);
        },
    }
}

/// A statement without a block that was read and written can be read again, and is written
/// the same. Only a single declaration that needs its
/// parentheses is in the way, as in `let (x) satisfy { p }`, which is written without them.
pub proof fn law_statements_without_blocks_read_back(text: Seq<char>)
    ensures
        parse_statement(text_tokens(text, 0, 0), 0, false) matches Ok((Some(s), _, _)) ==> (
        is_rereadable(s) ==> {
            let copy = statement_text(s, Seq::empty());
            parse_statement(text_tokens(copy, 0, 0), 0, false) matches Ok((Some(t), _, _))
                && statement_text(t, Seq::empty()) == copy
        }),
{
    let ts = text_tokens(text, 0, 0);
    lemma_text_is_proper(text, 0, 0);
    if let Ok((Some(s), _, _)) = parse_statement(ts, 0, false) {
        if is_rereadable(s) {
            let g = Seq::<char>::empty();
            let copy = statement_text(s, g);
            let us = text_tokens(copy, 0, 0);
            let items = statement_items(s, g);
            let p = after_newlines(ts, 0);
            lemma_after_newlines(ts, 0);
            lemma_first_kind(ts, p + 1, ts[p]);
            lemma_keyword_held(ts, p + 1, ts[p], ts, 0, ts[p], g);
            reveal(held);
            reveal(kind_is);
            lemma_statement_printed(s, g);
            reveal(makes);
            lemma_reads(items);
            let xs = texts(items).push(line_break());
            assert(have_texts(us, xs));
            assert(all_proper(us)) by {
                assert forall|i: int| 0 <= i < us.len() implies is_proper(#[trigger] us[i]) by {
                    assert(us[i].text == xs[i]);
                }
            }
            assert(lies(us, 0, items)) by {
                reveal(lies);
                assert forall|i: int| 0 <= i < items.len() implies (#[trigger] us[0 + i]).text
                    == texts(items)[i] by {
                    assert(us[i].text == xs[i]);
                }
            }
            let q = items.len() as int;
            assert(us[q].text == xs[q]);
            assert(is_proper(us[q]));
            assert(fits(us, 0, s, g));
            lemma_statement_starts(us, 0, s, g);
            assert(after_newlines(us, 0) == 0);
            lemma_keyword_held(ts, p + 1, ts[p], us, 0, us[0], g);
            let t = parse_keyword(us, 1, us[0])->Ok_0.0;
            assert(statement_text(t, g) == statement_text(s, g));
        }
    }
}

} // verus!
