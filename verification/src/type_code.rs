//! The code for a type stands for the same type again.

use vstd::prelude::*;

use crate::acorn_type::{functional, TypeV};
use crate::binding_map::{
    code_of_type, codes_of_types, eval_type, eval_types, text_type, BindingMapV,
};
use crate::code_gen_error::CodeGenErrorV;
use crate::compilation::ErrorV;
use crate::expression::{
    applied, combined, is_dotted_call, last_operator, operator, parse_expr, parse_pieces,
    piece_precedence, ExprV, PartialV, Stop,
};
use crate::project::ProjectV;
use crate::text::joined;
use crate::token::{
    is_word_part, is_word_start, lex_at, line_end, line_tokens, newline_token, text_tokens,
    word_end, word_type, TokenType, TokenV,
};

verus! {

/// Whether a name is read as one word.
pub open spec fn is_word(s: Seq<char>) -> bool {
    &&& s.len() > 0
    &&& is_word_start(s[0])
    &&& forall|i: int| 0 <= i < s.len() ==> is_word_part(#[trigger] s[i])
    &&& word_type(s) == TokenType::Identifier
}

/// Whether the names that a scope has for types are words, and stand for these types.
pub open spec fn names_types(b: BindingMapV) -> bool {
    forall|t: TypeV| #[trigger]
        b.reverse_type_names.dom().contains(t) ==> {
            let name = b.reverse_type_names[t];
            is_word(name) && b.type_names.dom().contains(name) && b.type_names[name] == t
        }
}

/// Whether functions take something and give no function, all the way down. A function that takes
/// just one thing takes no function: it would have to be written with parentheses.
pub open spec fn is_flat(t: TypeV) -> bool
    decreases t, 0nat,
{
    match t {
        TypeV::Function(args, ret) => {
            &&& args.len() > 0
            &&& !(*ret is Function)
            &&& args.len() == 1 ==> !(args[0] is Function)
            &&& all_flat(args, args.len())
        },
        _ => true,
    }
}

/// Whether the first `n` types are flat.
pub open spec fn all_flat(ts: Seq<TypeV>, n: nat) -> bool
    decreases ts, n,
{
    n == 0 || n > ts.len() || all_flat(ts, (n - 1) as nat) && is_flat(ts[n - 1])
}

/// The kind and the text of a token.
pub type LexemeV = (TokenType, Seq<char>);

/// The tokens of the code for a type.
spec fn lexemes(b: BindingMapV, t: TypeV) -> Seq<LexemeV>
    decreases t, 0nat,
{
    match t {
        TypeV::Function(args, ret) => {
            let list = list_lexemes(b, args, args.len());
            let left = if args.len() == 1 {
                list
            } else {
                seq![(TokenType::LeftParen, "("@)] + list + seq![(TokenType::RightParen, ")"@)]
            };
            left + seq![(TokenType::RightArrow, "->"@)] + lexemes(b, *ret)
        },
        _ => seq![(TokenType::Identifier, b.reverse_type_names[t])],
    }
}

/// The tokens of the code for the first `n` types, with commas.
spec fn list_lexemes(b: BindingMapV, ts: Seq<TypeV>, n: nat) -> Seq<LexemeV>
    decreases ts, n,
{
    if n == 0 || n > ts.len() {
        Seq::empty()
    } else if n == 1 {
        lexemes(b, ts[0])
    } else {
        list_lexemes(b, ts, (n - 1) as nat) + seq![(TokenType::Comma, ","@)] + lexemes(
            b,
            ts[n - 1],
        )
    }
}

/// Whether the tokens from `i` to `j` of a line are these.
spec fn lexes(s: Seq<char>, i: int, j: int, ls: Seq<LexemeV>, line_number: u32) -> bool {
    let all = line_tokens(s, i, line_number);
    let rest = line_tokens(s, j, line_number);
    let n = ls.len() as int;
    &&& 0 <= i <= j <= s.len()
    &&& all.len() == n + rest.len()
    &&& all.skip(n) == rest
    &&& forall|k: int|
        0 <= k < n ==> (#[trigger] all[k]).token_type == ls[k].0 && all[k].text == ls[k].1
}

proof fn lemma_lexes_join(
    s: Seq<char>,
    i: int,
    j: int,
    k: int,
    a: Seq<LexemeV>,
    b: Seq<LexemeV>,
    line_number: u32,
)
    requires
        lexes(s, i, j, a, line_number),
        lexes(s, j, k, b, line_number),
    ensures
        lexes(s, i, k, a + b, line_number),
{
    let all = line_tokens(s, i, line_number);
    let mid = line_tokens(s, j, line_number);
    let end = line_tokens(s, k, line_number);
    let n = a.len() as int;
    let m = b.len() as int;
    assert(all.skip(n) == mid);
    assert(mid.skip(m) == end);
    assert(all.skip(n + m) =~= mid.skip(m));
    assert forall|x: int| 0 <= x < n + m implies (#[trigger] all[x]).token_type == (a + b)[x].0
        && all[x].text == (a + b)[x].1 by {
        if x >= n {
            assert(all.skip(n)[x - n] == all[x]);
            assert(mid[x - n] == all[x]);
        }
    }
}

proof fn lemma_word_ends(s: Seq<char>, i: int, j: int)
    requires
        0 <= i <= j <= s.len(),
        forall|k: int| i <= k < j ==> is_word_part(#[trigger] s[k]),
        j == s.len() || !is_word_part(s[j]),
    ensures
        word_end(s, i) == j,
    decreases j - i,
{
    if i < j {
        lemma_word_ends(s, i + 1, j);
    }
}

proof fn lemma_lexes_word(s: Seq<char>, i: int, name: Seq<char>, line_number: u32)
    requires
        is_word(name),
        0 <= i,
        i + name.len() <= s.len(),
        s.subrange(i, i + name.len()) == name,
        i + name.len() == s.len() || !is_word_part(s[i + name.len()]),
    ensures
        lexes(s, i, i + name.len(), seq![(TokenType::Identifier, name)], line_number),
{
    let j = i + name.len();
    assert forall|k: int| i <= k < j implies is_word_part(#[trigger] s[k]) by {
        assert(s.subrange(i, j)[k - i] == s[k]);
    }
    assert(s.subrange(i, j)[0] == s[i]);
    lemma_word_ends(s, i, j);
    let rest = line_tokens(s, j, line_number);
    let all = line_tokens(s, i, line_number);
    assert(all.skip(1) =~= rest);
}

proof fn lemma_lexes_symbol(s: Seq<char>, i: int, symbol: Seq<char>, kind: TokenType, line_number: u32)
    requires
        0 <= i,
        i + symbol.len() <= s.len(),
        s.subrange(i, i + symbol.len()) == symbol,
        symbol == "("@ && kind == TokenType::LeftParen || symbol == ")"@ && kind
            == TokenType::RightParen || symbol == ","@ && kind == TokenType::Comma || symbol
            == "->"@ && kind == TokenType::RightArrow,
    ensures
        lexes(s, i, i + symbol.len(), seq![(kind, symbol)], line_number),
{
    reveal_strlit("(");
    reveal_strlit(")");
    reveal_strlit(",");
    reveal_strlit("->");
    let j = i + symbol.len();
    assert(s.subrange(i, j)[0] == s[i]);
    if symbol.len() == 2 {
        assert(s.subrange(i, j)[1] == s[i + 1]);
    }
    assert(lex_at(s, i) == (kind, j));
    let rest = line_tokens(s, j, line_number);
    let all = line_tokens(s, i, line_number);
    assert(all.skip(1) =~= rest);
}

proof fn lemma_lexes_blank(s: Seq<char>, i: int, line_number: u32)
    requires
        0 <= i < s.len(),
        s[i] == ' ',
    ensures
        lexes(s, i, i + 1, Seq::empty(), line_number),
{
    let rest = line_tokens(s, i + 1, line_number);
    let all = line_tokens(s, i, line_number);
    assert(all == rest);
    assert(all.skip(0) =~= rest);
}

/// Whether a text has another one from `i` on.
spec fn has_at(s: Seq<char>, i: int, part: Seq<char>) -> bool {
    0 <= i && i + part.len() <= s.len() && s.subrange(i, i + part.len()) == part
}

proof fn lemma_has_parts(s: Seq<char>, i: int, a: Seq<char>, b: Seq<char>)
    requires
        has_at(s, i, a + b),
    ensures
        has_at(s, i, a),
        has_at(s, i + a.len(), b),
{
    let whole = s.subrange(i, i + (a + b).len());
    assert(s.subrange(i, i + a.len()) =~= whole.take(a.len() as int));
    assert(whole.take(a.len() as int) =~= a);
    assert(s.subrange(i + a.len(), i + a.len() + b.len()) =~= whole.skip(a.len() as int));
    assert(whole.skip(a.len() as int) =~= b);
}

proof fn lemma_lexes_type(
    b: BindingMapV,
    t: TypeV,
    code: Seq<char>,
    s: Seq<char>,
    i: int,
    line_number: u32,
)
    requires
        names_types(b),
        is_flat(t),
        code_of_type(b, t) == Ok::<Seq<char>, CodeGenErrorV>(code),
        has_at(s, i, code),
        i + code.len() == s.len() || !is_word_part(s[i + code.len()]),
    ensures
        lexes(s, i, i + code.len(), lexemes(b, t), line_number),
    decreases t, 0nat,
{
    match t {
        TypeV::Function(args, ret) => {
            reveal_strlit("(");
            reveal_strlit(")");
            reveal_strlit(" -> ");
            reveal_strlit("->");
            let codes = codes_of_types(b, args, args.len())->Ok_0;
            let list = joined(codes, ", "@);
            let rhs = code_of_type(b, *ret)->Ok_0;
            let lhs = if args.len() == 1 {
                list
            } else {
                "("@ + list + ")"@
            };
            lemma_has_parts(s, i, lhs + " -> "@, rhs);
            lemma_has_parts(s, i, lhs, " -> "@);
            let a = i + lhs.len();
            let arrow = s.subrange(a, a + 4);
            assert(arrow[0] == s[a] && arrow[1] == s[a + 1] && arrow[2] == s[a + 2] && arrow[3]
                == s[a + 3]);
            assert(s.subrange(a + 1, a + 3) =~= "->"@);
            let list_ls = list_lexemes(b, args, args.len());
            let left = if args.len() == 1 {
                lemma_lexes_list(b, args, args.len(), s, i, line_number);
                list_ls
            } else {
                lemma_has_parts(s, i, "("@ + list, ")"@);
                lemma_has_parts(s, i, "("@, list);
                let c = i + 1 + list.len();
                assert(s.subrange(c, c + 1)[0] == s[c]);
                lemma_lexes_symbol(s, i, "("@, TokenType::LeftParen, line_number);
                lemma_lexes_list(b, args, args.len(), s, i + 1, line_number);
                lemma_lexes_symbol(s, c, ")"@, TokenType::RightParen, line_number);
                let open = seq![(TokenType::LeftParen, "("@)];
                let close = seq![(TokenType::RightParen, ")"@)];
                lemma_lexes_join(s, i, i + 1, c, open, list_ls, line_number);
                lemma_lexes_join(s, i, c, c + 1, open + list_ls, close, line_number);
                open + list_ls + close
            };
            assert(lexes(s, i, a, left, line_number));
            let mid = seq![(TokenType::RightArrow, "->"@)];
            let none = Seq::<LexemeV>::empty();
            lemma_lexes_blank(s, a, line_number);
            lemma_lexes_symbol(s, a + 1, "->"@, TokenType::RightArrow, line_number);
            lemma_lexes_blank(s, a + 3, line_number);
            lemma_lexes_type(b, *ret, rhs, s, a + 4, line_number);
            let e = a + 4 + rhs.len();
            lemma_lexes_join(s, i, a, a + 1, left, none, line_number);
            assert(left + none =~= left);
            lemma_lexes_join(s, i, a + 1, a + 3, left, mid, line_number);
            lemma_lexes_join(s, i, a + 3, a + 4, left + mid, none, line_number);
            assert(left + mid + none =~= left + mid);
            lemma_lexes_join(s, i, a + 4, e, left + mid, lexemes(b, *ret), line_number);
        },
        _ => {
            lemma_lexes_word(s, i, code, line_number);
        },
    }
}

proof fn lemma_codes(b: BindingMapV, ts: Seq<TypeV>, n: nat)
    requires
        0 < n <= ts.len(),
        codes_of_types(b, ts, n) is Ok,
    ensures
        ({
            let codes = codes_of_types(b, ts, n)->Ok_0;
            &&& codes.len() == n
            &&& code_of_type(b, ts[n - 1]) == Ok::<Seq<char>, CodeGenErrorV>(codes[n - 1])
            &&& codes_of_types(b, ts, (n - 1) as nat) == Ok::<Seq<Seq<char>>, CodeGenErrorV>(
                codes.drop_last(),
            )
        }),
    decreases n,
{
    let codes = codes_of_types(b, ts, n)->Ok_0;
    let before = codes_of_types(b, ts, (n - 1) as nat)->Ok_0;
    if n > 1 {
        lemma_codes(b, ts, (n - 1) as nat);
    }
    assert(codes.drop_last() =~= before);
}

proof fn lemma_lexes_list(
    b: BindingMapV,
    ts: Seq<TypeV>,
    n: nat,
    s: Seq<char>,
    i: int,
    line_number: u32,
)
    requires
        names_types(b),
        0 < n <= ts.len(),
        all_flat(ts, n),
        codes_of_types(b, ts, n) is Ok,
        has_at(s, i, joined(codes_of_types(b, ts, n)->Ok_0, ", "@)),
        ({
            let j = i + joined(codes_of_types(b, ts, n)->Ok_0, ", "@).len();
            j == s.len() || !is_word_part(s[j])
        }),
    ensures
        lexes(
            s,
            i,
            i + joined(codes_of_types(b, ts, n)->Ok_0, ", "@).len(),
            list_lexemes(b, ts, n),
            line_number,
        ),
    decreases ts, n,
{
    let codes = codes_of_types(b, ts, n)->Ok_0;
    lemma_codes(b, ts, n);
    if n == 1 {
        lemma_lexes_type(b, ts[0], codes[0], s, i, line_number);
    } else {
        reveal_strlit(", ");
        reveal_strlit(",");
        let before = codes.drop_last();
        let first = joined(before, ", "@);
        let last = codes.last();
        assert(joined(codes, ", "@) == first + ", "@ + last);
        lemma_has_parts(s, i, first + ", "@, last);
        lemma_has_parts(s, i, first, ", "@);
        let a = i + first.len();
        let sep = s.subrange(a, a + 2);
        assert(sep[0] == s[a] && sep[1] == s[a + 1]);
        assert(s.subrange(a, a + 1) =~= ","@);
        lemma_lexes_list(b, ts, (n - 1) as nat, s, i, line_number);
        lemma_lexes_symbol(s, a, ","@, TokenType::Comma, line_number);
        lemma_lexes_blank(s, a + 1, line_number);
        lemma_lexes_type(b, ts[n - 1], last, s, a + 2, line_number);
        let ls = list_lexemes(b, ts, (n - 1) as nat);
        let comma = seq![(TokenType::Comma, ","@)];
        let none = Seq::<LexemeV>::empty();
        let e = a + 2 + last.len();
        lemma_lexes_join(s, i, a, a + 1, ls, comma, line_number);
        lemma_lexes_join(s, i, a + 1, a + 2, ls + comma, none, line_number);
        assert(ls + comma + none =~= ls + comma);
        lemma_lexes_join(s, i, a + 2, e, ls + comma, lexemes(b, ts[n - 1]), line_number);
    }
}

proof fn lemma_last_operator(ps: Seq<PartialV>, lo: int, hi: int)
    ensures
        last_operator(ps, lo, hi, false) matches Some(k) ==> lo <= k < hi && operator(ps[k]) is Some,
    decreases hi - lo,
{
    if lo < hi {
        lemma_last_operator(ps, lo, hi - 1);
    }
}

proof fn lemma_last_operator_same(ps: Seq<PartialV>, qs: Seq<PartialV>, lo: int, hi: int)
    requires
        forall|i: int| lo <= i < hi ==> #[trigger] ps[i] == qs[i],
    ensures
        last_operator(ps, lo, hi, false) == last_operator(qs, lo, hi, false),
    decreases hi - lo,
{
    if lo < hi {
        lemma_last_operator_same(ps, qs, lo, hi - 1);
        lemma_last_operator(ps, lo, hi - 1);
        assert(ps[hi - 1] == qs[hi - 1]);
        if let Some(k) = last_operator(ps, lo, hi - 1, false) {
            assert(ps[k] == qs[k]);
        }
    }
}

proof fn lemma_applied_same(ps: Seq<PartialV>, qs: Seq<PartialV>, lo: int, hi: int)
    requires
        lo < hi,
        forall|i: int| lo <= i < hi ==> #[trigger] ps[i] == qs[i],
    ensures
        applied(ps, lo, hi) == applied(qs, lo, hi),
    decreases hi - lo,
{
    assert(ps[lo] == qs[lo]);
    if lo + 1 < hi {
        lemma_applied_same(ps, qs, lo, hi - 1);
        assert(ps[hi - 1] == qs[hi - 1]);
    }
}

/// What some pieces form depends on these pieces alone.
proof fn lemma_combined_same(
    ps: Seq<PartialV>,
    qs: Seq<PartialV>,
    lo: int,
    hi: int,
    end: TokenV,
)
    requires
        forall|i: int| lo <= i < hi ==> #[trigger] ps[i] == qs[i],
    ensures
        combined(ps, lo, hi, false, end) == combined(qs, lo, hi, false, end),
    decreases hi - lo,
{
    if lo < hi {
        lemma_last_operator_same(ps, qs, lo, hi);
        lemma_last_operator(ps, lo, hi);
        assert(ps[hi - 1] == qs[hi - 1]);
        match last_operator(ps, lo, hi, false) {
            None => {
                lemma_applied_same(ps, qs, lo, hi);
            },
            Some(k) => {
                assert(ps[k] == qs[k]);
                lemma_combined_same(ps, qs, lo, hi - 1, end);
                lemma_combined_same(ps, qs, k + 1, hi, end);
                if let PartialV::Binary(t) = ps[k] {
                    lemma_combined_same(ps, qs, lo, k, t);
                }
            },
        }
    }
}

/// Whether a piece is a name that stands for a type.
spec fn is_name_piece(b: BindingMapV, p: ProjectV, piece: PartialV, t: TypeV) -> bool {
    piece matches PartialV::Expr(e) && (e matches ExprV::Identifier(_)) && eval_type(b, p, e) == Ok::<
        TypeV,
        ErrorV,
    >(t)
}

/// Whether a piece stands for the arguments of a function type.
spec fn is_args_piece(b: BindingMapV, p: ProjectV, piece: PartialV, args: Seq<TypeV>) -> bool {
    ||| args.len() == 1 && is_name_piece(b, p, piece, args[0])
    ||| (piece matches PartialV::Expr(e) && (e matches ExprV::Grouping(_, inner, _) && eval_types(
        b,
        p,
        *inner,
    ) == Ok::<Seq<TypeV>, ErrorV>(args)))
}

/// Whether pieces are those of a type: a name, or arguments, an arrow and a name.
spec fn is_segment(b: BindingMapV, p: ProjectV, ps: Seq<PartialV>, t: TypeV) -> bool {
    match t {
        TypeV::Function(args, ret) => {
            &&& ps.len() == 3
            &&& is_args_piece(b, p, ps[0], args)
            &&& ps[1] matches PartialV::Binary(a) && a.token_type == TokenType::RightArrow
            &&& is_name_piece(b, p, ps[2], *ret)
        },
        _ => ps.len() == 1 && is_name_piece(b, p, ps[0], t),
    }
}

/// Whether an expression stands for a type, and is no list.
spec fn is_type_expr(b: BindingMapV, p: ProjectV, r: Result<ExprV, ErrorV>, t: TypeV) -> bool {
    r matches Ok(e) && eval_type(b, p, e) == Ok::<TypeV, ErrorV>(t) && eval_types(b, p, e) == Ok::<
        Seq<TypeV>,
        ErrorV,
    >(seq![t])
}

/// The pieces of a type form an expression that stands for it, wherever they are.
proof fn lemma_segment(
    b: BindingMapV,
    p: ProjectV,
    ps: Seq<PartialV>,
    lo: int,
    hi: int,
    t: TypeV,
    end: TokenV,
)
    requires
        0 <= lo <= hi <= ps.len(),
        is_flat(t),
        is_segment(b, p, ps.subrange(lo, hi), t),
    ensures
        is_type_expr(b, p, combined(ps, lo, hi, false, end), t),
{
    let seg = ps.subrange(lo, hi);
    reveal_with_fuel(last_operator, 4);
    reveal_with_fuel(combined, 3);
    assert(seg[0] == ps[lo]);
    match t {
        TypeV::Function(args, ret) => {
            assert(seg[1] == ps[lo + 1] && seg[2] == ps[lo + 2]);
            let a = ps[lo + 1]->Binary_0;
            let l = ps[lo]->Expr_0;
            let r = ps[lo + 2]->Expr_0;
            assert(last_operator(ps, lo, hi, false) == Some(lo + 1));
            assert(last_operator(ps, lo, lo + 1, false) is None);
            assert(last_operator(ps, lo + 2, hi, false) is None);
            assert(combined(ps, lo, lo + 1, false, a) == Ok::<ExprV, ErrorV>(l));
            assert(combined(ps, lo + 2, hi, false, end) == Ok::<ExprV, ErrorV>(r));
            let e = ExprV::Binary(Box::new(l), a, Box::new(r));
            assert(combined(ps, lo, hi, false, end) == Ok::<ExprV, ErrorV>(e));
            assert(args.len() == 1 ==> seq![args[0]] =~= args);
            assert(functional(args, *ret) == t);
            assert(eval_type(b, p, e) == Ok::<TypeV, ErrorV>(t));
        },
        _ => {
            assert(last_operator(ps, lo, hi, false) is None);
        },
    }
}

/// Whether the tokens from `pos` on are these.
spec fn spelled(ts: Seq<TokenV>, pos: int, ls: Seq<LexemeV>) -> bool {
    &&& 0 <= pos
    &&& pos + ls.len() <= ts.len()
    &&& forall|k: int|
        pos <= k < pos + ls.len() ==> (#[trigger] ts[k]).token_type == ls[k - pos].0 && ts[k].text
            == ls[k - pos].1
}

proof fn lemma_spelled_parts(ts: Seq<TokenV>, pos: int, a: Seq<LexemeV>, c: Seq<LexemeV>)
    requires
        spelled(ts, pos, a + c),
    ensures
        spelled(ts, pos, a),
        spelled(ts, pos + a.len(), c),
{
    assert forall|k: int| pos <= k < pos + a.len() implies (#[trigger] ts[k]).token_type == a[k
        - pos].0 && ts[k].text == a[k - pos].1 by {
        assert((a + c)[k - pos] == a[k - pos]);
    }
    assert forall|k: int| pos + a.len() <= k < pos + a.len() + c.len() implies (
    #[trigger] ts[k]).token_type == c[k - pos - a.len()].0 && ts[k].text == c[k - pos
        - a.len()].1 by {
        assert((a + c)[k - pos] == c[k - pos - a.len()]);
    }
}

/// Reads the pieces of a type.
proof fn lemma_parse_type(
    b: BindingMapV,
    p: ProjectV,
    t: TypeV,
    ts: Seq<TokenV>,
    pos: int,
    stop: Stop,
    acc: Seq<PartialV>,
) -> (seg: Seq<PartialV>)
    requires
        names_types(b),
        is_flat(t),
        code_of_type(b, t) is Ok,
        spelled(ts, pos, lexemes(b, t)),
        stop.first == TokenType::NewLine || stop.first == TokenType::RightParen,
        stop.second == stop.first,
    ensures
        is_segment(b, p, seg, t),
        lexemes(b, t).len() > 0,
        parse_pieces(ts, pos, false, stop, acc) == parse_pieces(
            ts,
            pos + lexemes(b, t).len(),
            false,
            stop,
            acc + seg,
        ),
    decreases t, 0nat,
{
    match t {
        TypeV::Function(args, ret) => {
            let n = args.len();
            let list = list_lexemes(b, args, n);
            let open = seq![(TokenType::LeftParen, "("@)];
            let close = seq![(TokenType::RightParen, ")"@)];
            let left = if n == 1 {
                list
            } else {
                open + list + close
            };
            let arrow = seq![(TokenType::RightArrow, "->"@)];
            let right = lexemes(b, *ret);
            assert(lexemes(b, t) == left + arrow + right);
            lemma_spelled_parts(ts, pos, left + arrow, right);
            lemma_spelled_parts(ts, pos, left, arrow);
            let a = pos + left.len();
            let first = if n == 1 {
                assert(all_flat(args, 1) && is_flat(args[0]));
                assert(codes_of_types(b, args, 1) is Ok);
                assert(code_of_type(b, args[0]) is Ok);
                let seg = lemma_parse_type(b, p, args[0], ts, pos, stop, acc);
                assert(list == lexemes(b, args[0]));
                assert(acc + seg =~= acc.push(seg[0]));
                assert(parse_pieces(ts, pos, false, stop, acc) == parse_pieces(
                    ts,
                    a,
                    false,
                    stop,
                    acc.push(seg[0]),
                ));
                seg[0]
            } else {
                lemma_spelled_parts(ts, pos, open + list, close);
                lemma_spelled_parts(ts, pos, open, list);
                let paren = Stop { first: TokenType::RightParen, second: TokenType::RightParen };
                let ps = lemma_parse_list(b, p, args, n, ts, pos + 1);
                let c = pos + 1 + list.len();
                assert(ts[c].token_type == close[0].0);
                assert(parse_pieces(ts, c, false, paren, ps) == Ok::<
                    (Seq<PartialV>, TokenV, int),
                    ErrorV,
                >((ps, ts[c], c + 1)));
                let inner = combined(ps, 0, ps.len() as int, false, ts[c])->Ok_0;
                assert(args.take(n as int) =~= args);
                assert(parse_expr(ts, pos + 1, false, paren) == Ok::<(ExprV, TokenV, int), ErrorV>(
                    (inner, ts[c], c + 1),
                ));
                assert(ts[pos].token_type == open[0].0);
                let group = PartialV::Expr(ExprV::Grouping(ts[pos], Box::new(inner), ts[c]));
                assert(a == c + 1);
                assert(parse_pieces(ts, pos, false, stop, acc) == parse_pieces(
                    ts,
                    a,
                    false,
                    stop,
                    acc.push(group),
                ));
                group
            };
            assert(ts[a].token_type == arrow[0].0);
            let mid = PartialV::Binary(ts[a]);
            let with_arrow = acc.push(first).push(mid);
            assert(parse_pieces(ts, a, false, stop, acc.push(first)) == parse_pieces(
                ts,
                a + 1,
                false,
                stop,
                with_arrow,
            ));
            let last = lemma_parse_type(b, p, *ret, ts, a + 1, stop, with_arrow);
            let seg = seq![first, mid, last[0]];
            assert(with_arrow + last =~= acc + seg);
            seg
        },
        _ => {
            assert(ts[pos].token_type == lexemes(b, t)[0].0 && ts[pos].text == lexemes(b, t)[0].1);
            let seg = seq![PartialV::Expr(ExprV::Identifier(ts[pos]))];
            assert(acc + seg =~= acc.push(seg[0]));
            seg
        },
    }
}

/// Reads the pieces of types with commas, inside parentheses.
proof fn lemma_parse_list(
    b: BindingMapV,
    p: ProjectV,
    types: Seq<TypeV>,
    n: nat,
    ts: Seq<TokenV>,
    pos: int,
) -> (ps: Seq<PartialV>)
    requires
        names_types(b),
        0 < n <= types.len(),
        all_flat(types, n),
        codes_of_types(b, types, n) is Ok,
        spelled(ts, pos, list_lexemes(b, types, n)),
    ensures
        ({
            let paren = Stop { first: TokenType::RightParen, second: TokenType::RightParen };
            parse_pieces(ts, pos, false, paren, Seq::empty()) == parse_pieces(
                ts,
                pos + list_lexemes(b, types, n).len(),
                false,
                paren,
                ps,
            )
        }),
        forall|end: TokenV|
            (#[trigger] combined(ps, 0, ps.len() as int, false, end)) matches Ok(e) && eval_types(
                b,
                p,
                e,
            ) == Ok::<Seq<TypeV>, ErrorV>(types.take(n as int)),
    decreases types, n,
{
    let paren = Stop { first: TokenType::RightParen, second: TokenType::RightParen };
    let none = Seq::<PartialV>::empty();
    lemma_codes(b, types, n);
    if n == 1 {
        let seg = lemma_parse_type(b, p, types[0], ts, pos, paren, none);
        assert(none + seg =~= seg);
        assert forall|end: TokenV|
            (#[trigger] combined(seg, 0, seg.len() as int, false, end)) matches Ok(e)
                && eval_types(b, p, e) == Ok::<Seq<TypeV>, ErrorV>(types.take(1)) by {
            assert(seg.subrange(0, seg.len() as int) =~= seg);
            lemma_segment(b, p, seg, 0, seg.len() as int, types[0], end);
            assert(types.take(1) =~= seq![types[0]]);
        }
        seg
    } else {
        let ls = list_lexemes(b, types, (n - 1) as nat);
        let comma = seq![(TokenType::Comma, ","@)];
        let last_ls = lexemes(b, types[n - 1]);
        lemma_spelled_parts(ts, pos, ls + comma, last_ls);
        lemma_spelled_parts(ts, pos, ls, comma);
        let before = lemma_parse_list(b, p, types, (n - 1) as nat, ts, pos);
        let c = pos + ls.len();
        assert(ts[c].token_type == comma[0].0);
        let mid = PartialV::Binary(ts[c]);
        let acc = before.push(mid);
        assert(parse_pieces(ts, c, false, paren, before) == parse_pieces(
            ts,
            c + 1,
            false,
            paren,
            acc,
        ));
        let seg = lemma_parse_type(b, p, types[n - 1], ts, c + 1, paren, acc);
        let ps = acc + seg;
        let m = before.len() as int;
        let hi = ps.len() as int;
        assert forall|end: TokenV|
            (#[trigger] combined(ps, 0, ps.len() as int, false, end)) matches Ok(e) && eval_types(
                b,
                p,
                e,
            ) == Ok::<Seq<TypeV>, ErrorV>(types.take(n as int)) by {
            lemma_last_comma(b, p, ps, m, types[n - 1]);
            lemma_combined_same(ps, before, 0, m, ts[c]);
            assert(ps.subrange(m + 1, hi) =~= seg);
            lemma_segment(b, p, ps, m + 1, hi, types[n - 1], end);
            assert(combined(before, 0, before.len() as int, false, ts[c]) is Ok);
            let l = combined(before, 0, m, false, ts[c])->Ok_0;
            let r = combined(ps, m + 1, hi, false, end)->Ok_0;
            assert(ps[m] == mid);
            assert(!is_dotted_call(ps, m, hi));
            assert(combined(ps, 0, hi, false, end) == Ok::<ExprV, ErrorV>(
                ExprV::Binary(Box::new(l), ts[c], Box::new(r)),
            ));
            assert(types.take(n as int) =~= types.take(n - 1).push(types[n - 1]));
        }
        ps
    }
}

/// The last comma of a list is the operator that binds least.
proof fn lemma_last_comma(
    b: BindingMapV,
    p: ProjectV,
    ps: Seq<PartialV>,
    m: int,
    t: TypeV,
)
    requires
        0 <= m < ps.len(),
        ps[m] matches PartialV::Binary(c) && c.token_type == TokenType::Comma,
        is_segment(b, p, ps.subrange(m + 1, ps.len() as int), t),
    ensures
        last_operator(ps, 0, ps.len() as int, false) == Some(m),
{
    let seg = ps.subrange(m + 1, ps.len() as int);
    lemma_last_operator(ps, 0, m);
    assert(last_operator(ps, 0, m + 1, false) == Some(m));
    assert(seg[0] == ps[m + 1]);
    assert(last_operator(ps, 0, m + 2, false) == Some(m));
    if t is Function {
        assert(seg[1] == ps[m + 2] && seg[2] == ps[m + 3]);
        assert(piece_precedence(ps[m + 2], false) == 2);
        assert(last_operator(ps, 0, m + 3, false) == Some(m));
        assert(last_operator(ps, 0, m + 4, false) == Some(m));
    }
}

/// Whether a text has no line ends.
spec fn is_one_line(s: Seq<char>) -> bool {
    forall|i: int| 0 <= i < s.len() ==> #[trigger] s[i] != '\n'
}

proof fn lemma_one_line(b: BindingMapV, t: TypeV)
    requires
        names_types(b),
        code_of_type(b, t) is Ok,
    ensures
        is_one_line(code_of_type(b, t)->Ok_0),
    decreases t, 0nat,
{
    match t {
        TypeV::Function(args, ret) => {
            reveal_strlit("(");
            reveal_strlit(")");
            reveal_strlit(" -> ");
            lemma_one_line_list(b, args, args.len());
            lemma_one_line(b, *ret);
            let list = joined(codes_of_types(b, args, args.len())->Ok_0, ", "@);
            let rhs = code_of_type(b, *ret)->Ok_0;
            let lhs = if args.len() == 1 {
                list
            } else {
                "("@ + list + ")"@
            };
            assert(is_one_line(lhs));
            assert(is_one_line(lhs + " -> "@ + rhs));
        },
        _ => {
            let name = b.reverse_type_names[t];
            assert(is_word(name));
            assert forall|i: int| 0 <= i < name.len() implies #[trigger] name[i] != '\n' by {
                assert(is_word_part(name[i]));
            }
        },
    }
}

proof fn lemma_one_line_list(b: BindingMapV, ts: Seq<TypeV>, n: nat)
    requires
        names_types(b),
        n <= ts.len(),
        codes_of_types(b, ts, n) is Ok,
    ensures
        is_one_line(joined(codes_of_types(b, ts, n)->Ok_0, ", "@)),
    decreases ts, n,
{
    if n > 0 {
        reveal_strlit(", ");
        lemma_codes(b, ts, n);
        lemma_one_line_list(b, ts, (n - 1) as nat);
        lemma_one_line(b, ts[n - 1]);
        let codes = codes_of_types(b, ts, n)->Ok_0;
        if n > 1 {
            let first = joined(codes.drop_last(), ", "@);
            assert(joined(codes, ", "@) == first + ", "@ + codes.last());
            assert(is_one_line(first + ", "@ + codes.last()));
        }
    }
}

proof fn lemma_line_end(s: Seq<char>, i: int)
    requires
        0 <= i <= s.len(),
        forall|k: int| i <= k < s.len() ==> #[trigger] s[k] != '\n',
    ensures
        line_end(s, i) == s.len(),
    decreases s.len() - i,
{
    if i < s.len() {
        lemma_line_end(s, i + 1);
    }
}

/// The code for a type stands for the type again.
pub proof fn law_types_read_back(b: BindingMapV, t: TypeV, code: Seq<char>)
    requires
        names_types(b),
        is_flat(t),
        code_of_type(b, t) == Ok::<Seq<char>, CodeGenErrorV>(code),
    ensures
        text_type(b, code) == Some(t),
{
    let p = ProjectV::empty();
    let n = code.len() as int;
    let ls = lexemes(b, t);
    assert(code.subrange(0, n) =~= code);
    lemma_lexes_type(b, t, code, code, 0, 0);
    lemma_one_line(b, t);
    lemma_line_end(code, 0);
    let line = line_tokens(code, 0, 0);
    assert(line_tokens(code, n, 0) =~= Seq::<TokenV>::empty());
    assert(line.len() == ls.len());
    let end = newline_token(code, 0);
    let ts = text_tokens(code, 0, 0);
    if n == 0 {
        let acc = Seq::<PartialV>::empty();
        assert(spelled(line, 0, ls));
        let stop = Stop { first: TokenType::NewLine, second: TokenType::NewLine };
        let seg = lemma_parse_type(b, p, t, line, 0, stop, acc);
        assert(false);
    }
    assert(text_tokens(code, n + 1, 1) =~= Seq::<TokenV>::empty());
    assert(ts =~= line + seq![end]);
    assert(spelled(ts, 0, ls));
    let stop = Stop { first: TokenType::NewLine, second: TokenType::NewLine };
    let none = Seq::<PartialV>::empty();
    let seg = lemma_parse_type(b, p, t, ts, 0, stop, none);
    assert(none + seg =~= seg);
    assert(ts[ls.len() as int] == end);
    assert(parse_pieces(ts, ls.len() as int, false, stop, seg) == Ok::<
        (Seq<PartialV>, TokenV, int),
        ErrorV,
    >((seg, end, ls.len() as int + 1)));
    assert(seg.subrange(0, seg.len() as int) =~= seg);
    lemma_segment(b, p, seg, 0, seg.len() as int, t, end);
}

/// Whether a type inside another that is no function has no name in a scope.
pub open spec fn has_unnamed(b: BindingMapV, t: TypeV) -> bool
    decreases t, 0nat,
{
    match t {
        TypeV::Function(args, ret) => any_unnamed(b, args, args.len()) || has_unnamed(b, *ret),
        _ => !b.reverse_type_names.dom().contains(t),
    }
}

/// Whether this is so of one of the first `n` types.
pub open spec fn any_unnamed(b: BindingMapV, ts: Seq<TypeV>, n: nat) -> bool
    decreases ts, n,
{
    0 < n <= ts.len() && (any_unnamed(b, ts, (n - 1) as nat) || has_unnamed(b, ts[n - 1]))
}

/// There is code for a type just if all types in it that are no functions have names.
pub proof fn law_named_types_have_code(b: BindingMapV, t: TypeV)
    ensures
        code_of_type(b, t) is Err <==> has_unnamed(b, t),
    decreases t, 0nat,
{
    if let TypeV::Function(args, ret) = t {
        lemma_named_list(b, args, args.len());
        law_named_types_have_code(b, *ret);
    }
}

proof fn lemma_named_list(b: BindingMapV, ts: Seq<TypeV>, n: nat)
    requires
        n <= ts.len(),
    ensures
        codes_of_types(b, ts, n) is Err <==> any_unnamed(b, ts, n),
    decreases ts, n,
{
    if n > 0 {
        lemma_named_list(b, ts, (n - 1) as nat);
        law_named_types_have_code(b, ts[n - 1]);
    }
}

} // verus!
