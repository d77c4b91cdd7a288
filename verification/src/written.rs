//! The tokens that expressions and statements are written with.

use vstd::prelude::*;

use crate::expression::{expr_text, spaced, ExprV};
use crate::reread::{
    expr_words, is_clean, is_operator, is_wordy, lemma_reads_one, lemma_reads_parts, lemma_symbols,
    reads_at,
};
use crate::spelling::{
    all_blank, follows, is_item, is_lexeme, is_spelling, kind, lemma_keyword, lemma_spell_add,
    lemma_spell_one, lemma_spelling_add, line_break, spell, texts, ItemV,
};
use crate::statement::{
    args_text, expr_texts, indented, token_texts, type_params_text, InfoV, StatementV,
};
use crate::text::joined;
use crate::token::{is_word_part, TokenType, TokenV};

verus! {

/// One token, after blanks.
pub open spec fn one(g: Seq<char>, x: Seq<char>) -> Seq<ItemV> {
    seq![(g, x)]
}

pub broadcast proof fn lemma_spells_one(g: Seq<char>, x: Seq<char>)
    ensures
        #[trigger] spell(one(g, x)) == g + x,
{
    lemma_spell_one((g, x));
}

pub broadcast proof fn lemma_texts_one(g: Seq<char>, x: Seq<char>)
    ensures
        #[trigger] texts(one(g, x)) == seq![x],
{
    assert(texts(one(g, x)) =~= seq![x]);
}

pub broadcast proof fn lemma_spelling_one(g: Seq<char>, x: Seq<char>)
    requires
        all_blank(g),
        x == line_break() || is_lexeme(x),
    ensures
        #[trigger] is_spelling(one(g, x)),
{
    assert(is_item(one(g, x)[0]));
}

pub broadcast proof fn lemma_spells_sum(a: Seq<ItemV>, b: Seq<ItemV>)
    ensures
        #[trigger] spell(a + b) == spell(a) + spell(b),
{
    lemma_spell_add(a, b);
}

pub broadcast proof fn lemma_texts_sum(a: Seq<ItemV>, b: Seq<ItemV>)
    ensures
        #[trigger] texts(a + b) == texts(a) + texts(b),
{
    assert(texts(a + b) =~= texts(a) + texts(b));
}

pub broadcast proof fn lemma_texts_len(a: Seq<ItemV>)
    ensures
        #[trigger] texts(a).len() == a.len(),
{
}

pub broadcast proof fn lemma_spelling_sum(a: Seq<ItemV>, b: Seq<ItemV>)
    requires
        is_spelling(a),
        is_spelling(b),
        a.len() > 0 && b.len() > 0 ==> follows(a.last(), b[0]),
    ensures
        #[trigger] is_spelling(a + b),
{
    lemma_spelling_add(a, b);
}

pub broadcast group group_spelling {
    lemma_spells_one,
    lemma_texts_one,
    lemma_spelling_one,
    lemma_spells_sum,
    lemma_texts_sum,
    lemma_texts_len,
    lemma_spelling_sum,
}

pub broadcast proof fn lemma_reads_sum(
    ts: Seq<TokenV>,
    pos: int,
    a: Seq<Seq<char>>,
    b: Seq<Seq<char>>,
)
    requires
        #[trigger] reads_at(ts, pos, a + b),
    ensures
        reads_at(ts, pos, a),
        reads_at(ts, pos + a.len(), b),
{
    lemma_reads_parts(ts, pos, a, b);
}

pub broadcast proof fn lemma_reads_single(ts: Seq<TokenV>, pos: int, x: Seq<char>)
    requires
        #[trigger] reads_at(ts, pos, seq![x]),
    ensures
        0 <= pos < ts.len(),
        ts[pos].text == x,
{
    lemma_reads_one(ts, pos, x);
}

pub broadcast group group_reading {
    lemma_texts_one,
    lemma_texts_sum,
    lemma_texts_len,
    lemma_reads_sum,
    lemma_reads_single,
    lemma_expr_texts,
}

/// The blanks before an operator.
pub open spec fn gap_before(t: TokenV) -> Seq<char> {
    if t.token_type == TokenType::Comma || t.token_type == TokenType::Colon || t.token_type
        == TokenType::Dot {
        Seq::empty()
    } else {
        " "@
    }
}

/// The blanks after an operator.
pub open spec fn gap_after(t: TokenV) -> Seq<char> {
    if t.token_type == TokenType::Dot {
        Seq::empty()
    } else {
        " "@
    }
}

/// The tokens of an expression, with blanks before the first.
pub open spec fn expr_items(e: ExprV, g: Seq<char>) -> Seq<ItemV>
    decreases e,
{
    let no = Seq::<char>::empty();
    match e {
        ExprV::Identifier(t) => one(g, t.text),
        ExprV::Unary(t, x) => one(g, t.text) + expr_items(
            *x,
            if t.text == "not"@ {
                " "@
            } else {
                no
            },
        ),
        ExprV::Binary(l, t, r) => expr_items(*l, g) + one(gap_before(t), t.text) + expr_items(
            *r,
            gap_after(t),
        ),
        ExprV::Apply(f, a) => expr_items(*f, g) + expr_items(*a, no),
        ExprV::Grouping(l, x, r) => one(g, l.text) + expr_items(*x, no) + one(no, r.text),
        ExprV::Binder(t, a, b, _) => one(g, t.text) + expr_items(*a, no) + one(" "@, "{"@)
            + expr_items(*b, " "@) + one(" "@, "}"@),
        ExprV::IfThenElse(t, c, a, b, _) => one(g, t.text) + expr_items(*c, " "@) + one(
            " "@,
            "{"@,
        ) + expr_items(*a, " "@) + (one(" "@, "}"@) + one(" "@, "else"@) + one(" "@, "{"@))
            + expr_items(*b, " "@) + one(" "@, "}"@),
    }
}

pub broadcast proof fn lemma_expr_texts(e: ExprV, g: Seq<char>)
    ensures
        #[trigger] texts(expr_items(e, g)) == expr_words(e),
    decreases e,
{
    broadcast use {lemma_texts_one, lemma_texts_sum};

    let no = Seq::<char>::empty();
    match e {
        ExprV::Identifier(_) => {},
        ExprV::Unary(t, x) => {
            lemma_expr_texts(
                *x,
                if t.text == "not"@ {
                    " "@
                } else {
                    no
                },
            );
        },
        ExprV::Binary(l, t, r) => {
            lemma_expr_texts(*l, g);
            lemma_expr_texts(*r, gap_after(t));
        },
        ExprV::Apply(f, a) => {
            lemma_expr_texts(*f, g);
            lemma_expr_texts(*a, no);
        },
        ExprV::Grouping(_, x, _) => {
            lemma_expr_texts(*x, no);
        },
        ExprV::Binder(_, a, b, _) => {
            lemma_expr_texts(*a, no);
            lemma_expr_texts(*b, " "@);
        },
        ExprV::IfThenElse(_, c, a, b, _) => {
            lemma_expr_texts(*c, " "@);
            lemma_expr_texts(*a, " "@);
            lemma_expr_texts(*b, " "@);
            assert(seq!["}"@] + seq!["else"@] + seq!["{"@] =~= seq!["}"@, "else"@, "{"@]);
        },
    }
}

/// Whether an expression can start with a character.
pub open spec fn is_start(c: char) -> bool {
    is_word_part(c) || c == '(' || c == '!'
}

/// The first characters of symbols.
pub proof fn lemma_first_chars()
    ensures
        "("@[0] == '(' && "("@.len() == 1,
        ")"@[0] == ')' && ")"@.len() == 1,
        "{"@[0] == '{' && "{"@.len() == 1,
        "}"@[0] == '}' && "}"@.len() == 1,
        ","@[0] == ',' && ","@.len() == 1,
        ":"@[0] == ':' && ":"@.len() == 1,
        "."@[0] == '.' && "."@.len() == 1,
        "!"@[0] == '!' && "!"@.len() == 1,
        "<"@[0] == '<' && "<"@.len() == 1,
        ">"@[0] == '>' && ">"@.len() == 1,
        "\n"@[0] == '\n' && "\n"@.len() == 1,
        " "@.len() == 1 && all_blank(" "@),
{
    reveal_strlit("(");
    reveal_strlit(")");
    reveal_strlit("{");
    reveal_strlit("}");
    reveal_strlit(",");
    reveal_strlit(":");
    reveal_strlit(".");
    reveal_strlit("!");
    reveal_strlit("<");
    reveal_strlit(">");
    reveal_strlit("\n");
    reveal_strlit(" ");
}

/// Whether tokens, written one after the other, are a text and can be read from it.
#[verifier::opaque]
pub open spec fn makes(items: Seq<ItemV>, s: Seq<char>) -> bool {
    items.len() > 0 && is_spelling(items) && spell(items) == s
}

/// Tokens that can stand one after the other make up the texts one after the other.
pub proof fn lemma_join(a: Seq<ItemV>, s: Seq<char>, b: Seq<ItemV>, t: Seq<char>)
    requires
        makes(a, s),
        makes(b, t),
        follows(a.last(), b[0]),
    ensures
        makes(a + b, s + t),
        (a + b)[0] == a[0],
        (a + b).last() == b.last(),
{
    reveal(makes);
    lemma_spelling_add(a, b);
    lemma_spell_add(a, b);
}

/// One token makes up its text.
pub proof fn lemma_single(g: Seq<char>, x: Seq<char>)
    requires
        all_blank(g),
        x == line_break() || is_lexeme(x),
    ensures
        makes(one(g, x), g + x),
        one(g, x)[0] == (g, x),
        one(g, x).last() == (g, x),
{
    reveal(makes);
    lemma_spell_one((g, x));
    assert(is_item(one(g, x)[0]));
}

/// Another token at the end.
pub proof fn lemma_then(a: Seq<ItemV>, s: Seq<char>, g: Seq<char>, x: Seq<char>)
    requires
        makes(a, s),
        all_blank(g),
        x == line_break() || is_lexeme(x),
        follows(a.last(), (g, x)),
    ensures
        makes(a + one(g, x), s + (g + x)),
        (a + one(g, x))[0] == a[0],
        (a + one(g, x)).last() == (g, x),
{
    lemma_single(g, x);
    lemma_join(a, s, one(g, x), g + x);
}

/// What the tokens of an expression make up, and how they start.
pub open spec fn writes(e: ExprV, g: Seq<char>) -> bool {
    let items = expr_items(e, g);
    &&& makes(items, g + expr_text(e))
    &&& items[0].0 == g
    &&& is_start(items[0].1[0])
    &&& e is Grouping ==> items[0].1 == "("@
    &&& items.last().1 != line_break()
}

/// An expression is written with its tokens.
pub proof fn lemma_expr_made(e: ExprV, g: Seq<char>)
    requires
        is_clean(e),
        all_blank(g),
    ensures
        writes(e, g),
    decreases e,
{
    lemma_first_chars();
    let no = Seq::<char>::empty();
    match e {
        ExprV::Identifier(t) => {
            lemma_not_break(t.text);
            lemma_single(g, t.text);
        },
        ExprV::Unary(t, x) => {
            let h = if t.text == "not"@ {
                " "@
            } else {
                no
            };
            lemma_expr_made(*x, h);
            lemma_unary_made(t, *x, g, h);
        },
        ExprV::Binary(l, t, r) => {
            lemma_expr_made(*l, g);
            lemma_expr_made(*r, gap_after(t));
            lemma_binary_made(*l, t, *r, g);
        },
        ExprV::Apply(f, a) => {
            lemma_expr_made(*f, g);
            lemma_expr_made(*a, no);
            let x = expr_items(*f, g);
            let y = expr_items(*a, no);
            assert(follows(x.last(), y[0]));
            lemma_join(x, g + expr_text(*f), y, no + expr_text(*a));
            assert(g + expr_text(*f) + (no + expr_text(*a)) =~= g + expr_text(e));
        },
        ExprV::Grouping(l, x, r) => {
            lemma_expr_made(*x, no);
            lemma_grouping_made(l, *x, r, g);
        },
        ExprV::Binder(t, a, b, r) => {
            lemma_expr_made(*a, no);
            lemma_expr_made(*b, " "@);
            lemma_binder_made(t, *a, *b, r, g);
        },
        ExprV::IfThenElse(t, c, a, b, r) => {
            lemma_expr_made(*c, " "@);
            lemma_expr_made(*a, " "@);
            lemma_expr_made(*b, " "@);
            lemma_choice_made(t, *c, *a, *b, r, g);
        },
    }
}

proof fn lemma_unary_made(t: TokenV, x: ExprV, g: Seq<char>, h: Seq<char>)
    requires
        t.text == "!"@ || t.text == "not"@,
        all_blank(g),
        h == (if t.text == "not"@ {
            " "@
        } else {
            Seq::<char>::empty()
        }),
        writes(x, h),
    ensures
        writes(ExprV::Unary(t, Box::new(x)), g),
{
    let e = ExprV::Unary(t, Box::new(x));
    lemma_first_chars();
    lemma_symbols();
    lemma_not();
    lemma_single(g, t.text);
    let b = expr_items(x, h);
    assert(follows((g, t.text), b[0]));
    lemma_join(one(g, t.text), g + t.text, b, h + expr_text(x));
    assert(expr_items(e, g) == one(g, t.text) + b);
    assert(g + t.text + (h + expr_text(x)) =~= g + expr_text(e));
}

proof fn lemma_binary_made(l: ExprV, t: TokenV, r: ExprV, g: Seq<char>)
    requires
        is_operator(t),
        writes(l, g),
        writes(r, gap_after(t)),
    ensures
        writes(ExprV::Binary(Box::new(l), t, Box::new(r)), g),
{
    let e = ExprV::Binary(Box::new(l), t, Box::new(r));
    lemma_first_chars();
    let a = expr_items(l, g);
    let h = gap_before(t);
    let k = gap_after(t);
    let b = expr_items(r, k);
    lemma_not_break(t.text);
    lemma_then(a, g + expr_text(l), h, t.text);
    let ao = a + one(h, t.text);
    assert(follows((h, t.text), b[0]));
    lemma_join(ao, g + expr_text(l) + (h + t.text), b, k + expr_text(r));
    assert(expr_items(e, g) == ao + b);
    assert(expr_text(e) == expr_text(l) + spaced(t) + expr_text(r));
    assert(spaced(t) =~= h + t.text + k);
    assert(g + expr_text(l) + (h + t.text) + (k + expr_text(r)) =~= g + expr_text(e));
}

proof fn lemma_grouping_made(l: TokenV, x: ExprV, r: TokenV, g: Seq<char>)
    requires
        l.text == "("@,
        r.text == ")"@,
        all_blank(g),
        writes(x, Seq::empty()),
    ensures
        writes(ExprV::Grouping(l, Box::new(x), r), g),
{
    let e = ExprV::Grouping(l, Box::new(x), r);
    let no = Seq::<char>::empty();
    lemma_first_chars();
    lemma_symbols();
    lemma_not_break(r.text);
    let b = expr_items(x, no);
    lemma_single(g, l.text);
    assert(follows((g, l.text), b[0]));
    lemma_join(one(g, l.text), g + l.text, b, no + expr_text(x));
    let lb = one(g, l.text) + b;
    lemma_then(lb, g + l.text + (no + expr_text(x)), no, r.text);
    assert(expr_items(e, g) == lb + one(no, r.text));
    assert(g + l.text + (no + expr_text(x)) + (no + r.text) =~= g + expr_text(e));
}

proof fn lemma_binder_made(t: TokenV, a: ExprV, b: ExprV, r: TokenV, g: Seq<char>)
    requires
        is_wordy(t.text),
        all_blank(g),
        a is Grouping,
        writes(a, Seq::empty()),
        writes(b, " "@),
    ensures
        writes(ExprV::Binder(t, Box::new(a), Box::new(b), r), g),
{
    let e = ExprV::Binder(t, Box::new(a), Box::new(b), r);
    let no = Seq::<char>::empty();
    lemma_first_chars();
    lemma_symbols();
    lemma_not_break("}"@);
    let x = expr_items(a, no);
    let y = expr_items(b, " "@);
    lemma_single(g, t.text);
    let s0 = g + t.text;
    let i0 = one(g, t.text);
    assert(follows((g, t.text), x[0]));
    lemma_join(i0, s0, x, no + expr_text(a));
    let s1 = s0 + (no + expr_text(a));
    let i1 = i0 + x;
    lemma_then(i1, s1, " "@, "{"@);
    let s2 = s1 + (" "@ + "{"@);
    let i2 = i1 + one(" "@, "{"@);
    lemma_join(i2, s2, y, " "@ + expr_text(b));
    let s3 = s2 + (" "@ + expr_text(b));
    let i3 = i2 + y;
    lemma_then(i3, s3, " "@, "}"@);
    assert(expr_items(e, g) == i3 + one(" "@, "}"@));
    lemma_blanks();
    lemma_flat_binder(g, t.text, expr_text(a), " "@, "{"@, expr_text(b), "}"@);
}

/// Symbols with blanks around them.
proof fn lemma_blanks()
    ensures
        " { "@ == " "@ + "{"@ + " "@,
        " }"@ == " "@ + "}"@,
        " } else { "@ == " "@ + "}"@ + (" "@ + "else"@) + (" "@ + "{"@) + " "@,
{
    reveal_strlit(" ");
    reveal_strlit("{");
    reveal_strlit("}");
    reveal_strlit("else");
    reveal_strlit(" { ");
    reveal_strlit(" }");
    reveal_strlit(" } else { ");
    assert(" { "@ =~= " "@ + "{"@ + " "@);
    assert(" }"@ =~= " "@ + "}"@);
    assert(" } else { "@ =~= " "@ + "}"@ + (" "@ + "else"@) + (" "@ + "{"@) + " "@);
}

proof fn lemma_flat_binder(
    g: Seq<char>,
    t: Seq<char>,
    a: Seq<char>,
    sp: Seq<char>,
    o: Seq<char>,
    b: Seq<char>,
    c: Seq<char>,
)
    ensures
        g + t + (Seq::empty() + a) + (sp + o) + (sp + b) + (sp + c) == g + (t + a + (sp + o + sp)
            + b + (sp + c)),
{
    assert(g + t + (Seq::empty() + a) + (sp + o) + (sp + b) + (sp + c) =~= g + (t + a + (sp + o
        + sp) + b + (sp + c)));
}

proof fn lemma_flat_choice(
    g: Seq<char>,
    t: Seq<char>,
    c: Seq<char>,
    sp: Seq<char>,
    o: Seq<char>,
    a: Seq<char>,
    m: Seq<char>,
    b: Seq<char>,
    z: Seq<char>,
)
    ensures
        g + t + (sp + c) + (sp + o) + (sp + a) + m + (sp + b) + (sp + z) == g + (t + sp + c + (sp
            + o + sp) + a + (m + sp) + b + (sp + z)),
{
    let left = g + t + (sp + c) + (sp + o) + (sp + a);
    assert(left =~= g + (t + sp + c + (sp + o + sp) + a));
    assert(left + m + (sp + b) + (sp + z) =~= g + (t + sp + c + (sp + o + sp) + a + (m + sp) + b
        + (sp + z)));
}

proof fn lemma_choice_made(
    t: TokenV,
    c: ExprV,
    a: ExprV,
    b: ExprV,
    r: TokenV,
    g: Seq<char>,
)
    requires
        is_wordy(t.text),
        all_blank(g),
        writes(c, " "@),
        writes(a, " "@),
        writes(b, " "@),
    ensures
        writes(
            ExprV::IfThenElse(t, Box::new(c), Box::new(a), Box::new(b), r),
            g,
        ),
{
    let e = ExprV::IfThenElse(t, Box::new(c), Box::new(a), Box::new(b), r);
    lemma_first_chars();
    lemma_symbols();
    lemma_not_break("}"@);
    crate::spelling::lemma_else();
    let sp = " "@;
    let x = expr_items(c, sp);
    let y = expr_items(a, sp);
    let z = expr_items(b, sp);
    lemma_single(g, t.text);
    let i0 = one(g, t.text);
    let s0 = g + t.text;
    lemma_join(i0, s0, x, sp + expr_text(c));
    let i1 = i0 + x;
    let s1 = s0 + (sp + expr_text(c));
    lemma_then(i1, s1, sp, "{"@);
    let i2 = i1 + one(sp, "{"@);
    let s2 = s1 + (sp + "{"@);
    lemma_join(i2, s2, y, sp + expr_text(a));
    let i3 = i2 + y;
    let s3 = s2 + (sp + expr_text(a));
    lemma_single(sp, "}"@);
    lemma_then(one(sp, "}"@), sp + "}"@, sp, "else"@);
    let m1 = one(sp, "}"@) + one(sp, "else"@);
    lemma_then(m1, sp + "}"@ + (sp + "else"@), sp, "{"@);
    let m = m1 + one(sp, "{"@);
    let ms = sp + "}"@ + (sp + "else"@) + (sp + "{"@);
    lemma_join(i3, s3, m, ms);
    let i4 = i3 + m;
    let s4 = s3 + ms;
    lemma_join(i4, s4, z, sp + expr_text(b));
    let i5 = i4 + z;
    let s5 = s4 + (sp + expr_text(b));
    lemma_then(i5, s5, sp, "}"@);
    assert(expr_items(e, g) == i5 + one(sp, "}"@));
    lemma_blanks();
    lemma_flat_choice(g, t.text, expr_text(c), sp, "{"@, expr_text(a), ms, expr_text(b), "}"@);
}

pub proof fn lemma_not_break(x: Seq<char>)
    requires
        is_lexeme(x),
    ensures
        x != line_break(),
{
    reveal_strlit("\n");
    assert(x[0] != '\n');
}

proof fn lemma_not()
    ensures
        is_lexeme("not"@),
        is_word_part("not"@[0]),
        is_word_part("not"@.last()),
{
    reveal_strlit("not");
    lemma_keyword("not"@);
}

/// Words with a separator between each two.
pub open spec fn names_items(
    xs: Seq<Seq<char>>,
    n: nat,
    g: Seq<char>,
    sep: Seq<char>,
    h: Seq<char>,
) -> Seq<ItemV>
    decreases n,
{
    if n == 0 {
        Seq::empty()
    } else if n == 1 {
        one(g, xs[0])
    } else {
        names_items(xs, (n - 1) as nat, g, sep, h) + one(Seq::empty(), sep) + one(h, xs[n - 1])
    }
}

/// Expressions with a comma between each two.
pub open spec fn list_items(es: Seq<ExprV>, n: nat) -> Seq<ItemV>
    decreases n,
{
    if n == 0 {
        Seq::empty()
    } else if n == 1 {
        expr_items(es[0], Seq::empty())
    } else {
        list_items(es, (n - 1) as nat) + one(Seq::empty(), ","@) + expr_items(es[n - 1], " "@)
    }
}

/// The tokens of type parameters.
pub open spec fn params_items(params: Seq<TokenV>) -> Seq<ItemV> {
    if params.len() == 0 {
        Seq::empty()
    } else {
        one(Seq::empty(), "<"@) + names_items(
            token_texts(params),
            params.len(),
            Seq::empty(),
            ","@,
            " "@,
        ) + one(Seq::empty(), ">"@)
    }
}

/// The tokens of arguments.
pub open spec fn args_items(args: Seq<ExprV>) -> Seq<ItemV> {
    if args.len() == 0 {
        Seq::empty()
    } else {
        one(Seq::empty(), "("@) + list_items(args, args.len()) + one(Seq::empty(), ")"@)
    }
}

/// The tokens of the fields of a struct, each on a line of its own.
pub open spec fn fields_items(fields: Seq<(TokenV, ExprV)>, n: nat, g: Seq<char>) -> Seq<ItemV>
    decreases n,
{
    if n == 0 {
        Seq::empty()
    } else {
        fields_items(fields, (n - 1) as nat, g) + one(g, fields[n - 1].0.text) + one(
            Seq::empty(),
            ":"@,
        ) + expr_items(fields[n - 1].1, " "@) + one(Seq::empty(), "\n"@)
    }
}

/// The tokens of constructors, each on a line of its own.
pub open spec fn constructors_items(
    cs: Seq<(TokenV, Option<ExprV>)>,
    n: nat,
    g: Seq<char>,
) -> Seq<ItemV>
    decreases n,
{
    if n == 0 {
        Seq::empty()
    } else {
        constructors_items(cs, (n - 1) as nat, g) + one(g, cs[n - 1].0.text) + (match cs[n - 1].1 {
            Some(e) => expr_items(e, Seq::empty()),
            None => Seq::empty(),
        }) + one(Seq::empty(), "\n"@)
    }
}

/// The tokens of a condition in braces.
pub open spec fn condition_items(condition: ExprV, g: Seq<char>) -> Seq<ItemV> {
    one(" "@, "satisfy"@) + one(" "@, "{"@) + one(Seq::empty(), "\n"@) + expr_items(
        condition,
        indented(g),
    ) + one(Seq::empty(), "\n"@) + one(g, "}"@)
}

/// The tokens of the first statements of a block, each on lines of its own.
pub open spec fn lines_items(ss: Seq<StatementV>, n: nat, g: Seq<char>) -> Seq<ItemV>
    decreases ss, n,
{
    if n == 0 || n > ss.len() {
        Seq::empty()
    } else {
        lines_items(ss, (n - 1) as nat, g) + statement_items(ss[n - 1], g) + one(
            Seq::empty(),
            "\n"@,
        )
    }
}

/// The tokens of a block, from its brace on.
pub open spec fn block_items(ss: Seq<StatementV>, g: Seq<char>) -> Seq<ItemV>
    decreases ss, ss.len() + 1,
{
    one(" "@, "{"@) + one(Seq::empty(), "\n"@) + lines_items(ss, ss.len(), indented(g)) + one(
        g,
        "}"@,
    )
}

/// The tokens of a statement, with blanks before the first.
pub open spec fn statement_items(s: StatementV, g: Seq<char>) -> Seq<ItemV>
    decreases s, 0nat,
{
    let no = Seq::<char>::empty();
    let sp = " "@;
    match s.statement {
        InfoV::Let { name, name_token, type_expr, value } => one(g, "let"@) + one(sp, name) + one(
            no,
            ":"@,
        ) + expr_items(type_expr, sp) + one(sp, "="@) + expr_items(value, sp),
        InfoV::Define { name, name_token, type_params, args, return_type, return_value } => one(
            g,
            "define"@,
        ) + one(sp, name) + params_items(type_params) + args_items(args) + one(sp, "->"@)
            + expr_items(return_type, sp) + one(no, ":"@) + expr_items(return_value, sp),
        InfoV::Theorem { axiomatic, name, type_params, args, claim, body } => {
            let head = one(
                g,
                if axiomatic {
                    "axiom"@
                } else {
                    "theorem"@
                },
            ) + one(sp, name) + params_items(type_params) + args_items(args) + one(no, ":"@)
                + expr_items(claim, sp);
            match body {
                Some(b) => head + one(sp, "by"@) + block_items(b.statements, g),
                None => head,
            }
        },
        InfoV::Prop { claim } => expr_items(claim, g),
        InfoV::Type { name, type_expr } => one(g, "type"@) + one(sp, name) + one(no, ":"@)
            + expr_items(type_expr, sp),
        InfoV::ForAll { quantifiers, body } => one(g, "forall"@) + args_items(quantifiers)
            + block_items(body.statements, g),
        InfoV::If { condition, body, else_body, token } => {
            let head = one(g, "if"@) + expr_items(condition, sp) + block_items(
                body.statements,
                g,
            );
            match else_body {
                Some(b) => head + one(sp, "else"@) + block_items(b.statements, g),
                None => head,
            }
        },
        InfoV::Exists { quantifiers, claim } => one(g, "exists"@) + args_items(quantifiers) + one(
            sp,
            "{"@,
        ) + one(no, "\n"@) + expr_items(claim, indented(g)) + one(no, "\n"@) + one(g, "}"@),
        InfoV::Struct { name, name_token, fields } => one(g, "struct"@) + one(sp, name) + one(
            sp,
            "{"@,
        ) + one(no, "\n"@) + fields_items(fields, fields.len(), indented(g)) + one(g, "}"@),
        InfoV::Import { components, names } => if names.len() == 0 {
            one(g, "import"@) + names_items(components, components.len(), sp, "."@, no)
        } else {
            one(g, "from"@) + names_items(components, components.len(), sp, "."@, no) + one(
                sp,
                "import"@,
            ) + names_items(token_texts(names), names.len(), sp, ","@, sp)
        },
        InfoV::Class { name, name_token, body } => one(g, "class"@) + one(sp, name) + block_items(
            body.statements,
            g,
        ),
        InfoV::Default { type_expr } => one(g, "default"@) + expr_items(type_expr, sp),
        InfoV::Solve { target, body } => one(g, "solve"@) + expr_items(target, sp) + one(sp, "by"@)
            + block_items(body.statements, g),
        InfoV::VariableSatisfy { declarations, condition } => one(g, "let"@) + (
        if declarations.len() == 1 {
            expr_items(declarations[0], sp)
        } else {
            one(sp, "("@) + list_items(declarations, declarations.len()) + one(no, ")"@)
        }) + condition_items(condition, g),
        InfoV::FunctionSatisfy {
            name,
            name_token,
            declarations,
            satisfy_token,
            condition,
            body,
        } => {
            let head = one(g, "let"@) + one(sp, name) + args_items(declarations.drop_last()) + one(
                sp,
                "->"@,
            ) + expr_items(declarations.last(), sp) + condition_items(condition, g);
            match body {
                Some(b) => head + one(sp, "by"@) + block_items(b.statements, g),
                None => head,
            }
        },
        InfoV::Inductive { name, name_token, constructors } => one(g, "inductive"@) + one(sp, name)
            + one(sp, "{"@) + one(no, "\n"@) + constructors_items(
            constructors,
            constructors.len(),
            indented(g),
        ) + one(g, "}"@),
        InfoV::Problem { body } => one(g, "problem"@) + block_items(body.statements, g),
    }
}

/// Whether all texts are words or numerals.
pub open spec fn all_wordy(xs: Seq<Seq<char>>) -> bool {
    forall|i: int| 0 <= i < xs.len() ==> is_wordy(#[trigger] xs[i])
}

/// Whether all expressions can be written.
pub open spec fn exprs_clean(es: Seq<ExprV>) -> bool {
    forall|i: int| 0 <= i < es.len() ==> is_clean(#[trigger] es[i])
}

/// Whether all fields can be written.
pub open spec fn fields_clean(fields: Seq<(TokenV, ExprV)>) -> bool {
    forall|i: int|
        0 <= i < fields.len() ==> is_wordy((#[trigger] fields[i]).0.text) && is_clean(fields[i].1)
}

/// Whether all constructors can be written.
pub open spec fn constructors_clean(cs: Seq<(TokenV, Option<ExprV>)>) -> bool {
    forall|i: int|
        0 <= i < cs.len() ==> is_wordy((#[trigger] cs[i]).0.text) && (cs[i].1 matches Some(e)
            ==> is_clean(e) && e is Grouping)
}

/// Whether a statement is made of tokens of the right kinds, so that it can be written.
pub open spec fn is_clean_statement(s: StatementV) -> bool
    decreases s, 0nat,
{
    match s.statement {
        InfoV::Let { name, type_expr, value, .. } => is_wordy(name) && is_clean(type_expr)
            && is_clean(value),
        InfoV::Define { name, type_params, args, return_type, return_value, .. } => is_wordy(name)
            && all_wordy(token_texts(type_params)) && exprs_clean(args) && is_clean(return_type)
            && is_clean(return_value),
        InfoV::Theorem { name, type_params, args, claim, body, .. } => is_wordy(name) && all_wordy(
            token_texts(type_params),
        ) && exprs_clean(args) && is_clean(claim) && match body {
            Some(b) => statements_clean(b.statements, b.statements.len()),
            None => true,
        },
        InfoV::Prop { claim } => is_clean(claim),
        InfoV::Type { name, type_expr } => is_wordy(name) && is_clean(type_expr),
        InfoV::ForAll { quantifiers, body } => exprs_clean(quantifiers) && statements_clean(
            body.statements,
            body.statements.len(),
        ),
        InfoV::If { condition, body, else_body, .. } => is_clean(condition) && statements_clean(
            body.statements,
            body.statements.len(),
        ) && match else_body {
            Some(b) => statements_clean(b.statements, b.statements.len()),
            None => true,
        },
        InfoV::Exists { quantifiers, claim } => exprs_clean(quantifiers) && is_clean(claim),
        InfoV::Struct { name, fields, .. } => is_wordy(name) && fields_clean(fields),
        InfoV::Import { components, names } => components.len() > 0 && all_wordy(components)
            && all_wordy(token_texts(names)),
        InfoV::Class { name, body, .. } => is_wordy(name) && statements_clean(
            body.statements,
            body.statements.len(),
        ),
        InfoV::Default { type_expr } => is_clean(type_expr),
        InfoV::Solve { target, body } => is_clean(target) && statements_clean(
            body.statements,
            body.statements.len(),
        ),
        InfoV::VariableSatisfy { declarations, condition } => declarations.len() > 0
            && exprs_clean(declarations) && is_clean(condition),
        InfoV::FunctionSatisfy { name, declarations, condition, body, .. } => is_wordy(name)
            && declarations.len() > 0 && exprs_clean(declarations) && is_clean(condition)
            && match body {
            Some(b) => statements_clean(b.statements, b.statements.len()),
            None => true,
        },
        InfoV::Inductive { name, constructors, .. } => is_wordy(name) && constructors_clean(
            constructors,
        ),
        InfoV::Problem { body } => statements_clean(body.statements, body.statements.len()),
    }
}

/// Whether the first `n` statements can be written.
pub open spec fn statements_clean(ss: Seq<StatementV>, n: nat) -> bool
    decreases ss, n,
{
    n == 0 || n > ss.len() || statements_clean(ss, (n - 1) as nat) && is_clean_statement(ss[n - 1])
}

/// The keywords are tokens of their kinds.
pub proof fn lemma_keywords()
    ensures
        is_lexeme("let"@) && kind("let"@) == TokenType::Let,
        is_lexeme("axiom"@) && kind("axiom"@) == TokenType::Axiom,
        is_lexeme("theorem"@) && kind("theorem"@) == TokenType::Theorem,
        is_lexeme("define"@) && kind("define"@) == TokenType::Define,
        is_lexeme("type"@) && kind("type"@) == TokenType::Type,
        is_lexeme("forall"@) && kind("forall"@) == TokenType::ForAll,
        is_lexeme("exists"@) && kind("exists"@) == TokenType::Exists,
        is_lexeme("if"@) && kind("if"@) == TokenType::If,
        is_lexeme("else"@) && kind("else"@) == TokenType::Else,
        is_lexeme("by"@) && kind("by"@) == TokenType::By,
        is_lexeme("struct"@) && kind("struct"@) == TokenType::Struct,
        is_lexeme("import"@) && kind("import"@) == TokenType::Import,
        is_lexeme("from"@) && kind("from"@) == TokenType::From,
        is_lexeme("class"@) && kind("class"@) == TokenType::Class,
        is_lexeme("default"@) && kind("default"@) == TokenType::Default,
        is_lexeme("solve"@) && kind("solve"@) == TokenType::Solve,
        is_lexeme("inductive"@) && kind("inductive"@) == TokenType::Inductive,
        is_lexeme("problem"@) && kind("problem"@) == TokenType::Problem,
        is_lexeme("satisfy"@) && kind("satisfy"@) == TokenType::Satisfy,
{
    reveal_strlit("let");
    reveal_strlit("axiom");
    reveal_strlit("theorem");
    reveal_strlit("define");
    reveal_strlit("type");
    reveal_strlit("forall");
    reveal_strlit("exists");
    reveal_strlit("if");
    reveal_strlit("else");
    reveal_strlit("by");
    reveal_strlit("function");
    reveal_strlit("struct");
    reveal_strlit("import");
    reveal_strlit("from");
    reveal_strlit("class");
    reveal_strlit("default");
    reveal_strlit("solve");
    reveal_strlit("structure");
    reveal_strlit("numerals");
    reveal_strlit("inductive");
    reveal_strlit("problem");
    reveal_strlit("satisfy");
    lemma_keyword("let"@);
    lemma_keyword("axiom"@);
    lemma_keyword("theorem"@);
    lemma_keyword("define"@);
    lemma_keyword("type"@);
    lemma_keyword("forall"@);
    lemma_keyword("exists"@);
    lemma_keyword("if"@);
    lemma_keyword("else"@);
    lemma_keyword("by"@);
    lemma_keyword("struct"@);
    lemma_keyword("import"@);
    lemma_keyword("from"@);
    lemma_keyword("class"@);
    lemma_keyword("default"@);
    lemma_keyword("solve"@);
    lemma_keyword("inductive"@);
    lemma_keyword("problem"@);
    lemma_keyword("satisfy"@);
    // Words of the same length differ in their first letter, or in the one after it.
    assert("axiom"@[0] == 'a' && "class"@[0] == 'c' && "solve"@[0] == 's');
    assert("type"@[0] == 't' && "else"@[0] == 'e' && "from"@[0] == 'f');
    assert("define"@[0] == 'd' && "forall"@[0] == 'f' && "exists"@[0] == 'e' && "struct"@[0] == 's'
        && "import"@[0] == 'i');
    assert("if"@[0] == 'i' && "by"@[0] == 'b');
    assert("theorem"@[0] == 't' && "default"@[0] == 'd' && "problem"@[0] == 'p' && "satisfy"@[0]
        == 's');
    assert("structure"@[0] == 's' && "inductive"@[0] == 'i');
}

/// Another expression at the end, after a blank.
pub proof fn lemma_then_expr(a: Seq<ItemV>, s: Seq<char>, e: ExprV, g: Seq<char>)
    requires
        makes(a, s),
        is_clean(e),
        all_blank(g),
        g.len() > 0 || a.last().1 == line_break() || a.last().1 == "("@ || e is Grouping,
    ensures
        makes(a + expr_items(e, g), s + (g + expr_text(e))),
        (a + expr_items(e, g))[0] == a[0],
        (a + expr_items(e, g)).last().1 != line_break(),
{
    lemma_expr_made(e, g);
    lemma_first_chars();
    assert(follows(a.last(), expr_items(e, g)[0]));
    lemma_join(a, s, expr_items(e, g), g + expr_text(e));
}

pub proof fn lemma_names_made(
    xs: Seq<Seq<char>>,
    n: nat,
    g: Seq<char>,
    sep: Seq<char>,
    h: Seq<char>,
)
    requires
        0 < n <= xs.len(),
        all_wordy(xs),
        all_blank(g),
        all_blank(h),
        sep == ","@ || sep == "."@,
    ensures
        makes(names_items(xs, n, g, sep, h), g + joined(xs.take(n as int), sep + h)),
        names_items(xs, n, g, sep, h)[0] == (g, xs[0]),
        names_items(xs, n, g, sep, h).last().1 == xs[n - 1],
        is_wordy(xs[n - 1]),
    decreases n,
{
    let no = Seq::<char>::empty();
    let list = xs.take(n as int);
    lemma_first_chars();
    lemma_symbols();
    assert(is_wordy(xs[n - 1]));
    if n == 1 {
        lemma_single(g, xs[0]);
        assert(joined(list, sep + h) == list[0]);
    } else {
        let m = (n - 1) as nat;
        let before = names_items(xs, m, g, sep, h);
        let s = g + joined(xs.take(m as int), sep + h);
        lemma_names_made(xs, m, g, sep, h);
        lemma_then(before, s, no, sep);
        lemma_then(before + one(no, sep), s + (no + sep), h, xs[n - 1]);
        assert(list.drop_last() =~= xs.take(m as int));
        assert(joined(list, sep + h) == joined(xs.take(m as int), sep + h) + (sep + h) + xs[n - 1]);
        lemma_flat_names(g, joined(xs.take(m as int), sep + h), sep, h, xs[n - 1]);
    }
}

proof fn lemma_flat_names(
    g: Seq<char>,
    j: Seq<char>,
    sep: Seq<char>,
    h: Seq<char>,
    x: Seq<char>,
)
    ensures
        g + j + (Seq::empty() + sep) + (h + x) == g + (j + (sep + h) + x),
{
    assert(g + j + (Seq::empty() + sep) + (h + x) =~= g + (j + (sep + h) + x));
}

pub proof fn lemma_comma()
    ensures
        ", "@ == ","@ + " "@,
{
    reveal_strlit(", ");
    reveal_strlit(" ");
    reveal_strlit(",");
    assert(", "@ =~= ","@ + " "@);
}

proof fn lemma_joined_more(es: Seq<ExprV>, n: nat)
    requires
        1 < n <= es.len(),
    ensures
        joined(expr_texts(es.take(n as int)), ", "@) == joined(
            expr_texts(es.take(n - 1)),
            ", "@,
        ) + ", "@ + expr_text(es[n - 1]),
{
    let list = expr_texts(es.take(n as int));
    assert(list.drop_last() =~= expr_texts(es.take(n - 1)));
    assert(list.last() == expr_text(es[n - 1]));
}

pub proof fn lemma_list_made(es: Seq<ExprV>, n: nat)
    requires
        0 < n <= es.len(),
        exprs_clean(es),
    ensures
        makes(list_items(es, n), joined(expr_texts(es.take(n as int)), ", "@)),
        list_items(es, n)[0].0.len() == 0,
        is_start(list_items(es, n)[0].1[0]),
        list_items(es, n).last().1 != line_break(),
    decreases n,
{
    let no = Seq::<char>::empty();
    let list = expr_texts(es.take(n as int));
    lemma_first_chars();
    lemma_symbols();
    assert(is_clean(es[n - 1]));
    if n == 1 {
        lemma_expr_made(es[0], no);
        assert(joined(list, ", "@) == expr_text(es[0]));
        assert(no + expr_text(es[0]) =~= expr_text(es[0]));
    } else {
        let m = (n - 1) as nat;
        let before = list_items(es, m);
        let s = joined(expr_texts(es.take(m as int)), ", "@);
        lemma_list_made(es, m);
        lemma_then(before, s, no, ","@);
        lemma_then_expr(before + one(no, ","@), s + (no + ","@), es[n - 1], " "@);
        lemma_joined_more(es, n);
        lemma_comma();
        lemma_flat_list(s, ","@, " "@, expr_text(es[n - 1]));
    }
}

proof fn lemma_flat_list(s: Seq<char>, c: Seq<char>, sp: Seq<char>, x: Seq<char>)
    ensures
        s + (Seq::empty() + c) + (sp + x) == s + (c + sp) + x,
{
    assert(s + (Seq::empty() + c) + (sp + x) =~= s + (c + sp) + x);
}

/// Arguments at the end.
pub proof fn lemma_then_args(a: Seq<ItemV>, s: Seq<char>, args: Seq<ExprV>)
    requires
        makes(a, s),
        a.last().1 != line_break(),
        exprs_clean(args),
    ensures
        makes(a + args_items(args), s + args_text(args)),
        (a + args_items(args))[0] == a[0],
        (a + args_items(args)).last().1 != line_break(),
{
    let no = Seq::<char>::empty();
    if args.len() == 0 {
        assert(a + args_items(args) =~= a);
        assert(s + args_text(args) =~= s);
    } else {
        let list = list_items(args, args.len());
        let j = joined(expr_texts(args), ", "@);
        lemma_first_chars();
        lemma_symbols();
        lemma_not_break(")"@);
        lemma_list_made(args, args.len());
        assert(args.take(args.len() as int) =~= args);
        lemma_single(no, "("@);
        assert(follows((no, "("@), list[0]));
        lemma_join(one(no, "("@), no + "("@, list, j);
        lemma_then(one(no, "("@) + list, no + "("@ + j, no, ")"@);
        let items = args_items(args);
        let t = no + "("@ + j + (no + ")"@);
        assert(follows(a.last(), items[0]));
        lemma_join(a, s, items, t);
        assert(t =~= "("@ + j + ")"@);
    }
}

/// Type parameters at the end.
pub proof fn lemma_then_params(a: Seq<ItemV>, s: Seq<char>, params: Seq<TokenV>)
    requires
        makes(a, s),
        a.last().1 != line_break(),
        all_wordy(token_texts(params)),
    ensures
        makes(a + params_items(params), s + type_params_text(params)),
        (a + params_items(params))[0] == a[0],
        (a + params_items(params)).last().1 != line_break(),
{
    let no = Seq::<char>::empty();
    if params.len() == 0 {
        assert(a + params_items(params) =~= a);
        assert(s + type_params_text(params) =~= s);
    } else {
        let xs = token_texts(params);
        let list = names_items(xs, params.len(), no, ","@, " "@);
        lemma_first_chars();
        lemma_symbols();
        lemma_not_break(">"@);
        lemma_names_made(xs, params.len(), no, ","@, " "@);
        assert(xs.take(params.len() as int) =~= xs);
        lemma_comma();
        let j = joined(xs, ", "@);
        lemma_single(no, "<"@);
        assert(is_wordy(xs[0]));
        assert(follows((no, "<"@), list[0]));
        lemma_join(one(no, "<"@), no + "<"@, list, no + j);
        lemma_then(one(no, "<"@) + list, no + "<"@ + (no + j), no, ">"@);
        let items = params_items(params);
        let t = no + "<"@ + (no + j) + (no + ">"@);
        assert(follows(a.last(), items[0]));
        lemma_join(a, s, items, t);
        assert(t =~= "<"@ + j + ">"@);
    }
}

} // verus!
