//! Every statement is written with its tokens.

use vstd::prelude::*;

use crate::expression::{expr_text, ExprV};
use crate::reread::{is_clean, is_wordy, lemma_symbols};
use crate::spelling::{all_blank, follows, line_break, ItemV};
use crate::statement::{
    args_text, block_text, condition_text, constructors_text, expr_texts, fields_text, indented,
    lines_text, statement_text, token_texts, type_params_text, BodyV, InfoV, StatementV,
};
use crate::text::joined;
use crate::token::TokenV;
use crate::written::{
    all_wordy, args_items, block_items, condition_items, constructors_clean, constructors_items,
    expr_items, exprs_clean, fields_clean, fields_items, is_clean_statement, lemma_comma,
    lemma_expr_made, lemma_first_chars, lemma_join, lemma_keywords, lemma_list_made,
    lemma_names_made, lemma_not_break, lemma_single, lemma_then, lemma_then_args, lemma_then_expr,
    lemma_then_params, lines_items, list_items, makes, names_items, one, params_items,
    statement_items, statements_clean,
};

verus! {

/// Whether a statement is written with its tokens, the first of them after some blanks.
pub open spec fn prints(s: StatementV, g: Seq<char>) -> bool {
    let items = statement_items(s, g);
    &&& makes(items, statement_text(s, g))
    &&& items[0].0 == g
    &&& items.last().1 != line_break()
}

/// Words and symbols with blanks around them.
proof fn lemma_literals()
    ensures
        "let "@ == "let"@ + " "@,
        "define "@ == "define"@ + " "@,
        "type "@ == "type"@ + " "@,
        "if "@ == "if"@ + " "@,
        "struct "@ == "struct"@ + " "@,
        "import "@ == "import"@ + " "@,
        "from "@ == "from"@ + " "@,
        "class "@ == "class"@ + " "@,
        "default "@ == "default"@ + " "@,
        "solve "@ == "solve"@ + " "@,
        "inductive "@ == "inductive"@ + " "@,
        ": "@ == ":"@ + " "@,
        " = "@ == " "@ + "="@ + " "@,
        " -> "@ == " "@ + "->"@ + " "@,
        " import "@ == " "@ + "import"@ + " "@,
        " by"@ == " "@ + "by"@,
        " else"@ == " "@ + "else"@,
        " {\n"@ == " "@ + "{"@ + "\n"@,
        " satisfy {\n"@ == " "@ + "satisfy"@ + (" "@ + "{"@) + "\n"@,
{
    reveal_strlit(" ");
    reveal_strlit("\n");
    reveal_strlit("{");
    reveal_strlit(":");
    reveal_strlit("=");
    reveal_strlit("->");
    reveal_strlit("let");
    reveal_strlit("let ");
    reveal_strlit("define");
    reveal_strlit("define ");
    reveal_strlit("type");
    reveal_strlit("type ");
    reveal_strlit("if");
    reveal_strlit("if ");
    reveal_strlit("struct");
    reveal_strlit("struct ");
    reveal_strlit("import");
    reveal_strlit("import ");
    reveal_strlit("from");
    reveal_strlit("from ");
    reveal_strlit("class");
    reveal_strlit("class ");
    reveal_strlit("default");
    reveal_strlit("default ");
    reveal_strlit("solve");
    reveal_strlit("solve ");
    reveal_strlit("inductive");
    reveal_strlit("inductive ");
    reveal_strlit(": ");
    reveal_strlit(" = ");
    reveal_strlit(" -> ");
    reveal_strlit(" import ");
    reveal_strlit("by");
    reveal_strlit(" by");
    reveal_strlit("else");
    reveal_strlit(" else");
    reveal_strlit(" {\n");
    reveal_strlit("satisfy");
    reveal_strlit(" satisfy {\n");
    assert("let "@ =~= "let"@ + " "@);
    assert("define "@ =~= "define"@ + " "@);
    assert("type "@ =~= "type"@ + " "@);
    assert("if "@ =~= "if"@ + " "@);
    assert("struct "@ =~= "struct"@ + " "@);
    assert("import "@ =~= "import"@ + " "@);
    assert("from "@ =~= "from"@ + " "@);
    assert("class "@ =~= "class"@ + " "@);
    assert("default "@ =~= "default"@ + " "@);
    assert("solve "@ =~= "solve"@ + " "@);
    assert("inductive "@ =~= "inductive"@ + " "@);
    assert(": "@ =~= ":"@ + " "@);
    assert(" = "@ =~= " "@ + "="@ + " "@);
    assert(" -> "@ =~= " "@ + "->"@ + " "@);
    assert(" import "@ =~= " "@ + "import"@ + " "@);
    assert(" by"@ =~= " "@ + "by"@);
    assert(" else"@ =~= " "@ + "else"@);
    assert(" {\n"@ =~= " "@ + "{"@ + "\n"@);
    assert(" satisfy {\n"@ =~= " "@ + "satisfy"@ + (" "@ + "{"@) + "\n"@);
}

proof fn lemma_indented(g: Seq<char>)
    requires
        all_blank(g),
    ensures
        all_blank(indented(g)),
        indented(g).len() > 0,
{
    reveal_strlit("    ");
    let h = indented(g);
    assert forall|k: int| 0 <= k < h.len() implies #[trigger] h[k] == ' ' by {
        if k < g.len() {
            assert(h[k] == g[k]);
        } else {
            assert(h[k] == "    "@[k - g.len()]);
        }
    }
}

/// Declarations in parentheses, after a blank.
spec fn declared_items(declarations: Seq<ExprV>) -> Seq<ItemV> {
    one(" "@, "("@) + list_items(declarations, declarations.len()) + one(Seq::empty(), ")"@)
}

proof fn lemma_declared_printed(declarations: Seq<ExprV>)
    requires
        declarations.len() > 0,
        exprs_clean(declarations),
    ensures
        makes(declared_items(declarations), " "@ + args_text(declarations)),
        declared_items(declarations)[0].0 == " "@,
        declared_items(declarations).last().1 != line_break(),
{
    let no = Seq::<char>::empty();
    let n = declarations.len();
    let list = list_items(declarations, n);
    let j = joined(expr_texts(declarations), ", "@);
    lemma_first_chars();
    lemma_symbols();
    lemma_not_break(")"@);
    lemma_list_made(declarations, n);
    assert(declarations.take(n as int) =~= declarations);
    lemma_single(" "@, "("@);
    lemma_join(one(" "@, "("@), " "@ + "("@, list, j);
    lemma_then(one(" "@, "("@) + list, " "@ + "("@ + j, no, ")"@);
    assert(" "@ + "("@ + j + (no + ")"@) =~= " "@ + ("("@ + j + ")"@));
}

proof fn lemma_condition_printed(condition: ExprV, g: Seq<char>)
    requires
        is_clean(condition),
        all_blank(g),
    ensures
        makes(condition_items(condition, g), condition_text(condition, g)),
        condition_items(condition, g)[0].0 == " "@,
        condition_items(condition, g).last().1 != line_break(),
{
    let no = Seq::<char>::empty();
    let sp = " "@;
    lemma_first_chars();
    lemma_symbols();
    lemma_keywords();
    lemma_literals();
    lemma_indented(g);
    lemma_not_break("}"@);
    lemma_single(sp, "satisfy"@);
    let i0 = one(sp, "satisfy"@);
    let s0 = sp + "satisfy"@;
    lemma_then(i0, s0, sp, "{"@);
    let i1 = i0 + one(sp, "{"@);
    let s1 = s0 + (sp + "{"@);
    lemma_then(i1, s1, no, "\n"@);
    let i2 = i1 + one(no, "\n"@);
    let s2 = s1 + (no + "\n"@);
    lemma_then_expr(i2, s2, condition, indented(g));
    let i3 = i2 + expr_items(condition, indented(g));
    let s3 = s2 + (indented(g) + expr_text(condition));
    lemma_then(i3, s3, no, "\n"@);
    let i4 = i3 + one(no, "\n"@);
    let s4 = s3 + (no + "\n"@);
    lemma_then(i4, s4, g, "}"@);
    lemma_flat_condition(s1, "\n"@, indented(g), expr_text(condition), g, "}"@);
}

proof fn lemma_flat_condition(
    a: Seq<char>,
    n: Seq<char>,
    h: Seq<char>,
    c: Seq<char>,
    g: Seq<char>,
    b: Seq<char>,
)
    ensures
        a + (Seq::empty() + n) + (h + c) + (Seq::empty() + n) + (g + b) == a + n + h + c + n + g + b,
{
    assert(a + (Seq::empty() + n) + (h + c) + (Seq::empty() + n) + (g + b) =~= a + n + h + c + n
        + g + b);
}

/// Fields at the end, where a line has ended.
proof fn lemma_fields_printed(
    a: Seq<ItemV>,
    s: Seq<char>,
    fields: Seq<(TokenV, ExprV)>,
    n: nat,
    g: Seq<char>,
)
    requires
        makes(a, s),
        a.last().1 == line_break(),
        n <= fields.len(),
        fields_clean(fields),
        all_blank(g),
    ensures
        makes(a + fields_items(fields, n, g), s + fields_text(fields.take(n as int), g)),
        (a + fields_items(fields, n, g))[0] == a[0],
        (a + fields_items(fields, n, g)).last().1 == line_break(),
    decreases n,
{
    let no = Seq::<char>::empty();
    let some = fields.take(n as int);
    if n == 0 {
        assert(a + fields_items(fields, n, g) =~= a);
        assert(s + fields_text(some, g) =~= s);
    } else {
        let m = (n - 1) as nat;
        let before = fields_items(fields, m, g);
        let (t, e) = fields[n - 1];
        lemma_fields_printed(a, s, fields, m, g);
        lemma_first_chars();
        lemma_symbols();
        lemma_literals();
        assert(is_wordy(fields[n - 1].0.text));
        let i0 = a + before;
        let s0 = s + fields_text(fields.take(m as int), g);
        assert(follows(i0.last(), (g, t.text)));
        lemma_then(i0, s0, g, t.text);
        let i1 = i0 + one(g, t.text);
        let s1 = s0 + (g + t.text);
        lemma_then(i1, s1, no, ":"@);
        let i2 = i1 + one(no, ":"@);
        let s2 = s1 + (no + ":"@);
        lemma_then_expr(i2, s2, e, " "@);
        let i3 = i2 + expr_items(e, " "@);
        let s3 = s2 + (" "@ + expr_text(e));
        lemma_then(i3, s3, no, "\n"@);
        assert(some.drop_last() =~= fields.take(m as int));
        assert(some.last() == fields[n - 1]);
        assert(a + fields_items(fields, n, g) =~= i3 + one(no, "\n"@));
        lemma_flat_field(
            s,
            fields_text(fields.take(m as int), g),
            g,
            t.text,
            ":"@,
            " "@,
            expr_text(e),
            "\n"@,
        );
    }
}

proof fn lemma_flat_field(
    s: Seq<char>,
    f: Seq<char>,
    g: Seq<char>,
    t: Seq<char>,
    c: Seq<char>,
    sp: Seq<char>,
    e: Seq<char>,
    n: Seq<char>,
)
    ensures
        s + f + (g + t) + (Seq::empty() + c) + (sp + e) + (Seq::empty() + n) == s + (f + g + t + (c
            + sp) + e + n),
{
    assert(s + f + (g + t) + (Seq::empty() + c) + (sp + e) + (Seq::empty() + n) =~= s + (f + g + t
        + (c + sp) + e + n));
}

/// Constructors at the end, where a line has ended.
proof fn lemma_constructors_printed(
    a: Seq<ItemV>,
    s: Seq<char>,
    cs: Seq<(TokenV, Option<ExprV>)>,
    n: nat,
    g: Seq<char>,
)
    requires
        makes(a, s),
        a.last().1 == line_break(),
        n <= cs.len(),
        constructors_clean(cs),
        all_blank(g),
    ensures
        makes(a + constructors_items(cs, n, g), s + constructors_text(cs.take(n as int), g)),
        (a + constructors_items(cs, n, g))[0] == a[0],
        (a + constructors_items(cs, n, g)).last().1 == line_break(),
    decreases n,
{
    let no = Seq::<char>::empty();
    let some = cs.take(n as int);
    if n == 0 {
        assert(a + constructors_items(cs, n, g) =~= a);
        assert(s + constructors_text(some, g) =~= s);
    } else {
        let m = (n - 1) as nat;
        let before = constructors_items(cs, m, g);
        let t = cs[n - 1].0;
        lemma_constructors_printed(a, s, cs, m, g);
        lemma_first_chars();
        lemma_symbols();
        assert(is_wordy(cs[n - 1].0.text));
        let i0 = a + before;
        let s0 = s + constructors_text(cs.take(m as int), g);
        assert(follows(i0.last(), (g, t.text)));
        lemma_then(i0, s0, g, t.text);
        let i1 = i0 + one(g, t.text);
        let s1 = s0 + (g + t.text);
        let (items, text) = match cs[n - 1].1 {
            Some(e) => (expr_items(e, no), expr_text(e)),
            None => (Seq::<ItemV>::empty(), no),
        };
        match cs[n - 1].1 {
            Some(e) => {
                lemma_then_expr(i1, s1, e, no);
                assert(no + expr_text(e) =~= expr_text(e));
            },
            None => {
                assert(i1 + items =~= i1);
                assert(s1 + text =~= s1);
            },
        }
        let i2 = i1 + items;
        let s2 = s1 + text;
        lemma_then(i2, s2, no, "\n"@);
        assert(some.drop_last() =~= cs.take(m as int));
        assert(some.last() == cs[n - 1]);
        assert(a + constructors_items(cs, n, g) =~= i2 + one(no, "\n"@));
        lemma_flat_constructor(
            s,
            constructors_text(cs.take(m as int), g),
            g,
            t.text,
            text,
            "\n"@,
        );
    }
}

proof fn lemma_flat_constructor(
    s: Seq<char>,
    f: Seq<char>,
    g: Seq<char>,
    t: Seq<char>,
    e: Seq<char>,
    n: Seq<char>,
)
    ensures
        s + f + (g + t) + e + (Seq::empty() + n) == s + (f + g + t + e + n),
{
    assert(s + f + (g + t) + e + (Seq::empty() + n) =~= s + (f + g + t + e + n));
}

proof fn lemma_let_printed(s: StatementV, g: Seq<char>, name: Seq<char>, name_token: TokenV, type_expr: ExprV, value: ExprV)
    requires
        all_blank(g),
        s.statement == (InfoV::Let { name, name_token, type_expr, value }),
        is_wordy(name),
        is_clean(type_expr),
        is_clean(value),
    ensures
        prints(s, g),
{
    let no = Seq::<char>::empty();
    let sp = " "@;
    lemma_first_chars();
    lemma_symbols();
    lemma_keywords();
    lemma_literals();
    lemma_single(g, "let"@);
    let i0 = one(g, "let"@);
    let s0 = g + "let"@;
    lemma_then(i0, s0, sp, name);
    let i1 = i0 + one(sp, name);
    let s1 = s0 + (sp + name);
    lemma_then(i1, s1, no, ":"@);
    let i2 = i1 + one(no, ":"@);
    let s2 = s1 + (no + ":"@);
    lemma_then_expr(i2, s2, type_expr, sp);
    let i3 = i2 + expr_items(type_expr, sp);
    let s3 = s2 + (sp + expr_text(type_expr));
    lemma_then(i3, s3, sp, "="@);
    let i4 = i3 + one(sp, "="@);
    let s4 = s3 + (sp + "="@);
    lemma_then_expr(i4, s4, value, sp);
    let i5 = i4 + expr_items(value, sp);
    let s5 = s4 + (sp + expr_text(value));
    assert(statement_items(s, g) == i5);
    lemma_flat_let(g, "let"@, sp, name, ":"@, expr_text(type_expr), "="@, expr_text(value));
}

proof fn lemma_flat_let(a: Seq<char>, b: Seq<char>, c: Seq<char>, d: Seq<char>, e: Seq<char>, f: Seq<char>, h: Seq<char>, i: Seq<char>)
    ensures
        a + b + (c + d) + (Seq::<char>::empty() + e) + (c + f) + (c + h) + (c + i) == a + (b + c) + d + (e + c) + f + (c + h + c) + i,
{
    assert(a + b + (c + d) + (Seq::<char>::empty() + e) + (c + f) + (c + h) + (c + i) =~= a + (b + c) + d + (e + c) + f + (c + h + c) + i);
}

proof fn lemma_define_printed(s: StatementV, g: Seq<char>, name: Seq<char>, name_token: TokenV, type_params: Seq<TokenV>, args: Seq<ExprV>, return_type: ExprV, return_value: ExprV)
    requires
        all_blank(g),
        s.statement == (InfoV::Define { name, name_token, type_params, args, return_type, return_value }),
        is_wordy(name),
        all_wordy(token_texts(type_params)),
        exprs_clean(args),
        is_clean(return_type),
        is_clean(return_value),
    ensures
        prints(s, g),
{
    let no = Seq::<char>::empty();
    let sp = " "@;
    lemma_first_chars();
    lemma_symbols();
    lemma_keywords();
    lemma_literals();
    lemma_not_break(name);
    lemma_single(g, "define"@);
    let i0 = one(g, "define"@);
    let s0 = g + "define"@;
    lemma_then(i0, s0, sp, name);
    let i1 = i0 + one(sp, name);
    let s1 = s0 + (sp + name);
    lemma_then_params(i1, s1, type_params);
    let i2 = i1 + params_items(type_params);
    let s2 = s1 + type_params_text(type_params);
    lemma_then_args(i2, s2, args);
    let i3 = i2 + args_items(args);
    let s3 = s2 + args_text(args);
    lemma_then(i3, s3, sp, "->"@);
    let i4 = i3 + one(sp, "->"@);
    let s4 = s3 + (sp + "->"@);
    lemma_then_expr(i4, s4, return_type, sp);
    let i5 = i4 + expr_items(return_type, sp);
    let s5 = s4 + (sp + expr_text(return_type));
    lemma_then(i5, s5, no, ":"@);
    let i6 = i5 + one(no, ":"@);
    let s6 = s5 + (no + ":"@);
    lemma_then_expr(i6, s6, return_value, sp);
    let i7 = i6 + expr_items(return_value, sp);
    let s7 = s6 + (sp + expr_text(return_value));
    assert(statement_items(s, g) == i7);
    lemma_flat_define(g, "define"@, sp, name, type_params_text(type_params), args_text(args), "->"@, expr_text(return_type), ":"@, expr_text(return_value));
}

proof fn lemma_flat_define(a: Seq<char>, b: Seq<char>, c: Seq<char>, d: Seq<char>, e: Seq<char>, f: Seq<char>, h: Seq<char>, i: Seq<char>, j: Seq<char>, k: Seq<char>)
    ensures
        a + b + (c + d) + e + f + (c + h) + (c + i) + (Seq::<char>::empty() + j) + (c + k) == a + (b + c) + d + e + f + (c + h + c) + i + (j + c) + k,
{
    assert(a + b + (c + d) + e + f + (c + h) + (c + i) + (Seq::<char>::empty() + j) + (c + k) =~= a + (b + c) + d + e + f + (c + h + c) + i + (j + c) + k);
}

proof fn lemma_type_printed(s: StatementV, g: Seq<char>, name: Seq<char>, type_expr: ExprV)
    requires
        all_blank(g),
        s.statement == (InfoV::Type { name, type_expr }),
        is_wordy(name),
        is_clean(type_expr),
    ensures
        prints(s, g),
{
    let no = Seq::<char>::empty();
    let sp = " "@;
    lemma_first_chars();
    lemma_symbols();
    lemma_keywords();
    lemma_literals();
    lemma_single(g, "type"@);
    let i0 = one(g, "type"@);
    let s0 = g + "type"@;
    lemma_then(i0, s0, sp, name);
    let i1 = i0 + one(sp, name);
    let s1 = s0 + (sp + name);
    lemma_then(i1, s1, no, ":"@);
    let i2 = i1 + one(no, ":"@);
    let s2 = s1 + (no + ":"@);
    lemma_then_expr(i2, s2, type_expr, sp);
    let i3 = i2 + expr_items(type_expr, sp);
    let s3 = s2 + (sp + expr_text(type_expr));
    assert(statement_items(s, g) == i3);
    lemma_flat_type(g, "type"@, sp, name, ":"@, expr_text(type_expr));
}

proof fn lemma_flat_type(a: Seq<char>, b: Seq<char>, c: Seq<char>, d: Seq<char>, e: Seq<char>, f: Seq<char>)
    ensures
        a + b + (c + d) + (Seq::<char>::empty() + e) + (c + f) == a + (b + c) + d + (e + c) + f,
{
    assert(a + b + (c + d) + (Seq::<char>::empty() + e) + (c + f) =~= a + (b + c) + d + (e + c) + f);
}

proof fn lemma_default_printed(s: StatementV, g: Seq<char>, type_expr: ExprV)
    requires
        all_blank(g),
        s.statement == (InfoV::Default { type_expr }),
        is_clean(type_expr),
    ensures
        prints(s, g),
{
    let no = Seq::<char>::empty();
    let sp = " "@;
    lemma_first_chars();
    lemma_symbols();
    lemma_keywords();
    lemma_literals();
    lemma_single(g, "default"@);
    let i0 = one(g, "default"@);
    let s0 = g + "default"@;
    lemma_then_expr(i0, s0, type_expr, sp);
    let i1 = i0 + expr_items(type_expr, sp);
    let s1 = s0 + (sp + expr_text(type_expr));
    assert(statement_items(s, g) == i1);
    lemma_flat_default(g, "default"@, sp, expr_text(type_expr));
}

proof fn lemma_flat_default(a: Seq<char>, b: Seq<char>, c: Seq<char>, d: Seq<char>)
    ensures
        a + b + (c + d) == a + (b + c) + d,
{
    assert(a + b + (c + d) =~= a + (b + c) + d);
}

proof fn lemma_exists_printed(s: StatementV, g: Seq<char>, quantifiers: Seq<ExprV>, claim: ExprV)
    requires
        all_blank(g),
        s.statement == (InfoV::Exists { quantifiers, claim }),
        exprs_clean(quantifiers),
        is_clean(claim),
    ensures
        prints(s, g),
{
    let no = Seq::<char>::empty();
    let sp = " "@;
    lemma_first_chars();
    lemma_symbols();
    lemma_keywords();
    lemma_literals();
    lemma_indented(g);
    lemma_not_break("exists"@);
    lemma_not_break("}"@);
    lemma_single(g, "exists"@);
    let i0 = one(g, "exists"@);
    let s0 = g + "exists"@;
    lemma_then_args(i0, s0, quantifiers);
    let i1 = i0 + args_items(quantifiers);
    let s1 = s0 + args_text(quantifiers);
    lemma_then(i1, s1, sp, "{"@);
    let i2 = i1 + one(sp, "{"@);
    let s2 = s1 + (sp + "{"@);
    lemma_then(i2, s2, no, "\n"@);
    let i3 = i2 + one(no, "\n"@);
    let s3 = s2 + (no + "\n"@);
    lemma_then_expr(i3, s3, claim, indented(g));
    let i4 = i3 + expr_items(claim, indented(g));
    let s4 = s3 + (indented(g) + expr_text(claim));
    lemma_then(i4, s4, no, "\n"@);
    let i5 = i4 + one(no, "\n"@);
    let s5 = s4 + (no + "\n"@);
    lemma_then(i5, s5, g, "}"@);
    let i6 = i5 + one(g, "}"@);
    let s6 = s5 + (g + "}"@);
    assert(statement_items(s, g) == i6);
    lemma_flat_exists(g, "exists"@, args_text(quantifiers), sp, "{"@, "\n"@, indented(g), expr_text(claim), "}"@);
}

proof fn lemma_flat_exists(a: Seq<char>, b: Seq<char>, c: Seq<char>, d: Seq<char>, e: Seq<char>, f: Seq<char>, h: Seq<char>, i: Seq<char>, j: Seq<char>)
    ensures
        a + b + c + (d + e) + (Seq::<char>::empty() + f) + (h + i) + (Seq::<char>::empty() + f) + (a + j) == a + b + c + (d + e + f) + h + i + f + a + j,
{
    assert(a + b + c + (d + e) + (Seq::<char>::empty() + f) + (h + i) + (Seq::<char>::empty() + f) + (a + j) =~= a + b + c + (d + e + f) + h + i + f + a + j);
}

proof fn lemma_theorem_printed(s: StatementV, g: Seq<char>, name: Seq<char>, axiomatic: bool, type_params: Seq<TokenV>, args: Seq<ExprV>, claim: ExprV, body: Option<BodyV>)
    requires
        all_blank(g),
        s.statement == (InfoV::Theorem { axiomatic, name, type_params, args, claim, body }),
        is_wordy(name),
        all_wordy(token_texts(type_params)),
        exprs_clean(args),
        is_clean(claim),
        body is None,
    ensures
        prints(s, g),
{
    let no = Seq::<char>::empty();
    let sp = " "@;
    lemma_first_chars();
    lemma_symbols();
    lemma_keywords();
    lemma_literals();
    let w = if axiomatic {
        "axiom"@
    } else {
        "theorem"@
    };
    lemma_not_break(name);
    lemma_single(g, w);
    let i0 = one(g, w);
    let s0 = g + w;
    lemma_then(i0, s0, sp, name);
    let i1 = i0 + one(sp, name);
    let s1 = s0 + (sp + name);
    lemma_then_params(i1, s1, type_params);
    let i2 = i1 + params_items(type_params);
    let s2 = s1 + type_params_text(type_params);
    lemma_then_args(i2, s2, args);
    let i3 = i2 + args_items(args);
    let s3 = s2 + args_text(args);
    lemma_then(i3, s3, no, ":"@);
    let i4 = i3 + one(no, ":"@);
    let s4 = s3 + (no + ":"@);
    lemma_then_expr(i4, s4, claim, sp);
    let i5 = i4 + expr_items(claim, sp);
    let s5 = s4 + (sp + expr_text(claim));
    assert(statement_items(s, g) == i5);
    lemma_flat_theorem(g, w, sp, name, type_params_text(type_params), args_text(args), ":"@, expr_text(claim));
}

proof fn lemma_flat_theorem(a: Seq<char>, b: Seq<char>, c: Seq<char>, d: Seq<char>, e: Seq<char>, f: Seq<char>, h: Seq<char>, i: Seq<char>)
    ensures
        a + b + (c + d) + e + f + (Seq::<char>::empty() + h) + (c + i) == a + b + c + d + e + f + (h + c) + i,
{
    assert(a + b + (c + d) + e + f + (Seq::<char>::empty() + h) + (c + i) =~= a + b + c + d + e + f + (h + c) + i);
}

proof fn lemma_proved_printed(s: StatementV, g: Seq<char>, name: Seq<char>, axiomatic: bool, type_params: Seq<TokenV>, args: Seq<ExprV>, claim: ExprV, body: Option<BodyV>, ss: Seq<StatementV>)
    requires
        all_blank(g),
        s.statement == (InfoV::Theorem { axiomatic, name, type_params, args, claim, body }),
        is_wordy(name),
        all_wordy(token_texts(type_params)),
        exprs_clean(args),
        is_clean(claim),
        body matches Some(b) && b.statements == ss,
        makes(block_items(ss, g), block_text(ss, g)),
        block_items(ss, g)[0].0.len() > 0,
        block_items(ss, g).last().1 != line_break(),
    ensures
        prints(s, g),
{
    let no = Seq::<char>::empty();
    let sp = " "@;
    lemma_first_chars();
    lemma_symbols();
    lemma_keywords();
    lemma_literals();
    let w = if axiomatic {
        "axiom"@
    } else {
        "theorem"@
    };
    lemma_not_break(name);
    lemma_single(g, w);
    let i0 = one(g, w);
    let s0 = g + w;
    lemma_then(i0, s0, sp, name);
    let i1 = i0 + one(sp, name);
    let s1 = s0 + (sp + name);
    lemma_then_params(i1, s1, type_params);
    let i2 = i1 + params_items(type_params);
    let s2 = s1 + type_params_text(type_params);
    lemma_then_args(i2, s2, args);
    let i3 = i2 + args_items(args);
    let s3 = s2 + args_text(args);
    lemma_then(i3, s3, no, ":"@);
    let i4 = i3 + one(no, ":"@);
    let s4 = s3 + (no + ":"@);
    lemma_then_expr(i4, s4, claim, sp);
    let i5 = i4 + expr_items(claim, sp);
    let s5 = s4 + (sp + expr_text(claim));
    lemma_then(i5, s5, sp, "by"@);
    let i6 = i5 + one(sp, "by"@);
    let s6 = s5 + (sp + "by"@);
    lemma_join(i6, s6, block_items(ss, g), block_text(ss, g));
    let i7 = i6 + block_items(ss, g);
    let s7 = s6 + block_text(ss, g);
    assert(statement_items(s, g) == i7);
    lemma_flat_proved(g, w, sp, name, type_params_text(type_params), args_text(args), ":"@, expr_text(claim), "by"@, block_text(ss, g));
}

proof fn lemma_flat_proved(a: Seq<char>, b: Seq<char>, c: Seq<char>, d: Seq<char>, e: Seq<char>, f: Seq<char>, h: Seq<char>, i: Seq<char>, j: Seq<char>, k: Seq<char>)
    ensures
        a + b + (c + d) + e + f + (Seq::<char>::empty() + h) + (c + i) + (c + j) + k == a + b + c + d + e + f + (h + c) + i + (c + j) + k,
{
    assert(a + b + (c + d) + e + f + (Seq::<char>::empty() + h) + (c + i) + (c + j) + k =~= a + b + c + d + e + f + (h + c) + i + (c + j) + k);
}

proof fn lemma_forall_printed(s: StatementV, g: Seq<char>, quantifiers: Seq<ExprV>, body: BodyV, ss: Seq<StatementV>)
    requires
        all_blank(g),
        s.statement == (InfoV::ForAll { quantifiers, body }),
        exprs_clean(quantifiers),
        body.statements == ss,
        makes(block_items(ss, g), block_text(ss, g)),
        block_items(ss, g)[0].0.len() > 0,
        block_items(ss, g).last().1 != line_break(),
    ensures
        prints(s, g),
{
    let no = Seq::<char>::empty();
    let sp = " "@;
    lemma_first_chars();
    lemma_symbols();
    lemma_keywords();
    lemma_literals();
    lemma_not_break("forall"@);
    lemma_single(g, "forall"@);
    let i0 = one(g, "forall"@);
    let s0 = g + "forall"@;
    lemma_then_args(i0, s0, quantifiers);
    let i1 = i0 + args_items(quantifiers);
    let s1 = s0 + args_text(quantifiers);
    lemma_join(i1, s1, block_items(ss, g), block_text(ss, g));
    let i2 = i1 + block_items(ss, g);
    let s2 = s1 + block_text(ss, g);
    assert(statement_items(s, g) == i2);
    lemma_flat_forall(g, "forall"@, args_text(quantifiers), block_text(ss, g));
}

proof fn lemma_flat_forall(a: Seq<char>, b: Seq<char>, c: Seq<char>, d: Seq<char>)
    ensures
        a + b + c + d == a + b + c + d,
{
    assert(a + b + c + d =~= a + b + c + d);
}

proof fn lemma_if_printed(s: StatementV, g: Seq<char>, condition: ExprV, body: BodyV, else_body: Option<BodyV>, token: TokenV, ss: Seq<StatementV>)
    requires
        all_blank(g),
        s.statement == (InfoV::If { condition, body, else_body, token }),
        is_clean(condition),
        body.statements == ss,
        else_body is None,
        makes(block_items(ss, g), block_text(ss, g)),
        block_items(ss, g)[0].0.len() > 0,
        block_items(ss, g).last().1 != line_break(),
    ensures
        prints(s, g),
{
    let no = Seq::<char>::empty();
    let sp = " "@;
    lemma_first_chars();
    lemma_symbols();
    lemma_keywords();
    lemma_literals();
    lemma_single(g, "if"@);
    let i0 = one(g, "if"@);
    let s0 = g + "if"@;
    lemma_then_expr(i0, s0, condition, sp);
    let i1 = i0 + expr_items(condition, sp);
    let s1 = s0 + (sp + expr_text(condition));
    lemma_join(i1, s1, block_items(ss, g), block_text(ss, g));
    let i2 = i1 + block_items(ss, g);
    let s2 = s1 + block_text(ss, g);
    assert(statement_items(s, g) == i2);
    lemma_flat_if(g, "if"@, sp, expr_text(condition), block_text(ss, g));
}

proof fn lemma_flat_if(a: Seq<char>, b: Seq<char>, c: Seq<char>, d: Seq<char>, e: Seq<char>)
    ensures
        a + b + (c + d) + e == a + (b + c) + d + e,
{
    assert(a + b + (c + d) + e =~= a + (b + c) + d + e);
}

proof fn lemma_else_printed(s: StatementV, g: Seq<char>, condition: ExprV, body: BodyV, else_body: Option<BodyV>, token: TokenV, ss: Seq<StatementV>, rest: Seq<StatementV>)
    requires
        all_blank(g),
        s.statement == (InfoV::If { condition, body, else_body, token }),
        is_clean(condition),
        body.statements == ss,
        else_body matches Some(b) && b.statements == rest,
        makes(block_items(ss, g), block_text(ss, g)),
        block_items(ss, g)[0].0.len() > 0,
        block_items(ss, g).last().1 != line_break(),
        makes(block_items(rest, g), block_text(rest, g)),
        block_items(rest, g)[0].0.len() > 0,
        block_items(rest, g).last().1 != line_break(),
    ensures
        prints(s, g),
{
    let no = Seq::<char>::empty();
    let sp = " "@;
    lemma_first_chars();
    lemma_symbols();
    lemma_keywords();
    lemma_literals();
    lemma_single(g, "if"@);
    let i0 = one(g, "if"@);
    let s0 = g + "if"@;
    lemma_then_expr(i0, s0, condition, sp);
    let i1 = i0 + expr_items(condition, sp);
    let s1 = s0 + (sp + expr_text(condition));
    lemma_join(i1, s1, block_items(ss, g), block_text(ss, g));
    let i2 = i1 + block_items(ss, g);
    let s2 = s1 + block_text(ss, g);
    lemma_then(i2, s2, sp, "else"@);
    let i3 = i2 + one(sp, "else"@);
    let s3 = s2 + (sp + "else"@);
    lemma_join(i3, s3, block_items(rest, g), block_text(rest, g));
    let i4 = i3 + block_items(rest, g);
    let s4 = s3 + block_text(rest, g);
    assert(statement_items(s, g) == i4);
    lemma_flat_else(g, "if"@, sp, expr_text(condition), block_text(ss, g), "else"@, block_text(rest, g));
}

proof fn lemma_flat_else(a: Seq<char>, b: Seq<char>, c: Seq<char>, d: Seq<char>, e: Seq<char>, f: Seq<char>, h: Seq<char>)
    ensures
        a + b + (c + d) + e + (c + f) + h == a + (b + c) + d + e + (c + f) + h,
{
    assert(a + b + (c + d) + e + (c + f) + h =~= a + (b + c) + d + e + (c + f) + h);
}

proof fn lemma_class_printed(s: StatementV, g: Seq<char>, name: Seq<char>, name_token: TokenV, body: BodyV, ss: Seq<StatementV>)
    requires
        all_blank(g),
        s.statement == (InfoV::Class { name, name_token, body }),
        is_wordy(name),
        body.statements == ss,
        makes(block_items(ss, g), block_text(ss, g)),
        block_items(ss, g)[0].0.len() > 0,
        block_items(ss, g).last().1 != line_break(),
    ensures
        prints(s, g),
{
    let no = Seq::<char>::empty();
    let sp = " "@;
    lemma_first_chars();
    lemma_symbols();
    lemma_keywords();
    lemma_literals();
    lemma_single(g, "class"@);
    let i0 = one(g, "class"@);
    let s0 = g + "class"@;
    lemma_then(i0, s0, sp, name);
    let i1 = i0 + one(sp, name);
    let s1 = s0 + (sp + name);
    lemma_join(i1, s1, block_items(ss, g), block_text(ss, g));
    let i2 = i1 + block_items(ss, g);
    let s2 = s1 + block_text(ss, g);
    assert(statement_items(s, g) == i2);
    lemma_flat_class(g, "class"@, sp, name, block_text(ss, g));
}

proof fn lemma_flat_class(a: Seq<char>, b: Seq<char>, c: Seq<char>, d: Seq<char>, e: Seq<char>)
    ensures
        a + b + (c + d) + e == a + (b + c) + d + e,
{
    assert(a + b + (c + d) + e =~= a + (b + c) + d + e);
}

proof fn lemma_solve_printed(s: StatementV, g: Seq<char>, target: ExprV, body: BodyV, ss: Seq<StatementV>)
    requires
        all_blank(g),
        s.statement == (InfoV::Solve { target, body }),
        is_clean(target),
        body.statements == ss,
        makes(block_items(ss, g), block_text(ss, g)),
        block_items(ss, g)[0].0.len() > 0,
        block_items(ss, g).last().1 != line_break(),
    ensures
        prints(s, g),
{
    let no = Seq::<char>::empty();
    let sp = " "@;
    lemma_first_chars();
    lemma_symbols();
    lemma_keywords();
    lemma_literals();
    lemma_single(g, "solve"@);
    let i0 = one(g, "solve"@);
    let s0 = g + "solve"@;
    lemma_then_expr(i0, s0, target, sp);
    let i1 = i0 + expr_items(target, sp);
    let s1 = s0 + (sp + expr_text(target));
    lemma_then(i1, s1, sp, "by"@);
    let i2 = i1 + one(sp, "by"@);
    let s2 = s1 + (sp + "by"@);
    lemma_join(i2, s2, block_items(ss, g), block_text(ss, g));
    let i3 = i2 + block_items(ss, g);
    let s3 = s2 + block_text(ss, g);
    assert(statement_items(s, g) == i3);
    lemma_flat_solve(g, "solve"@, sp, expr_text(target), "by"@, block_text(ss, g));
}

proof fn lemma_flat_solve(a: Seq<char>, b: Seq<char>, c: Seq<char>, d: Seq<char>, e: Seq<char>, f: Seq<char>)
    ensures
        a + b + (c + d) + (c + e) + f == a + (b + c) + d + (c + e) + f,
{
    assert(a + b + (c + d) + (c + e) + f =~= a + (b + c) + d + (c + e) + f);
}

proof fn lemma_problem_printed(s: StatementV, g: Seq<char>, body: BodyV, ss: Seq<StatementV>)
    requires
        all_blank(g),
        s.statement == (InfoV::Problem { body }),
        body.statements == ss,
        makes(block_items(ss, g), block_text(ss, g)),
        block_items(ss, g)[0].0.len() > 0,
        block_items(ss, g).last().1 != line_break(),
    ensures
        prints(s, g),
{
    let no = Seq::<char>::empty();
    let sp = " "@;
    lemma_first_chars();
    lemma_symbols();
    lemma_keywords();
    lemma_literals();
    lemma_single(g, "problem"@);
    let i0 = one(g, "problem"@);
    let s0 = g + "problem"@;
    lemma_join(i0, s0, block_items(ss, g), block_text(ss, g));
    let i1 = i0 + block_items(ss, g);
    let s1 = s0 + block_text(ss, g);
    assert(statement_items(s, g) == i1);
    lemma_flat_problem(g, "problem"@, block_text(ss, g));
}

proof fn lemma_flat_problem(a: Seq<char>, b: Seq<char>, c: Seq<char>)
    ensures
        a + b + c == a + b + c,
{
    assert(a + b + c =~= a + b + c);
}

proof fn lemma_struct_printed(s: StatementV, g: Seq<char>, name: Seq<char>, name_token: TokenV, fields: Seq<(TokenV, ExprV)>)
    requires
        all_blank(g),
        s.statement == (InfoV::Struct { name, name_token, fields }),
        is_wordy(name),
        fields_clean(fields),
    ensures
        prints(s, g),
{
    let no = Seq::<char>::empty();
    let sp = " "@;
    lemma_first_chars();
    lemma_symbols();
    lemma_keywords();
    lemma_literals();
    lemma_indented(g);
    lemma_not_break("}"@);
    assert(fields.take(fields.len() as int) =~= fields);
    lemma_single(g, "struct"@);
    let i0 = one(g, "struct"@);
    let s0 = g + "struct"@;
    lemma_then(i0, s0, sp, name);
    let i1 = i0 + one(sp, name);
    let s1 = s0 + (sp + name);
    lemma_then(i1, s1, sp, "{"@);
    let i2 = i1 + one(sp, "{"@);
    let s2 = s1 + (sp + "{"@);
    lemma_then(i2, s2, no, "\n"@);
    let i3 = i2 + one(no, "\n"@);
    let s3 = s2 + (no + "\n"@);
    lemma_fields_printed(i3, s3, fields, fields.len(), indented(g));
    let i4 = i3 + fields_items(fields, fields.len(), indented(g));
    let s4 = s3 + fields_text(fields, indented(g));
    lemma_then(i4, s4, g, "}"@);
    let i5 = i4 + one(g, "}"@);
    let s5 = s4 + (g + "}"@);
    assert(statement_items(s, g) == i5);
    lemma_flat_struct(g, "struct"@, sp, name, "{"@, "\n"@, fields_text(fields, indented(g)), "}"@);
}

proof fn lemma_flat_struct(a: Seq<char>, b: Seq<char>, c: Seq<char>, d: Seq<char>, e: Seq<char>, f: Seq<char>, h: Seq<char>, i: Seq<char>)
    ensures
        a + b + (c + d) + (c + e) + (Seq::<char>::empty() + f) + h + (a + i) == a + (b + c) + d + (c + e + f) + h + a + i,
{
    assert(a + b + (c + d) + (c + e) + (Seq::<char>::empty() + f) + h + (a + i) =~= a + (b + c) + d + (c + e + f) + h + a + i);
}

proof fn lemma_inductive_printed(s: StatementV, g: Seq<char>, name: Seq<char>, name_token: TokenV, constructors: Seq<(TokenV, Option<ExprV>)>)
    requires
        all_blank(g),
        s.statement == (InfoV::Inductive { name, name_token, constructors }),
        is_wordy(name),
        constructors_clean(constructors),
    ensures
        prints(s, g),
{
    let no = Seq::<char>::empty();
    let sp = " "@;
    lemma_first_chars();
    lemma_symbols();
    lemma_keywords();
    lemma_literals();
    lemma_indented(g);
    lemma_not_break("}"@);
    assert(constructors.take(constructors.len() as int) =~= constructors);
    lemma_single(g, "inductive"@);
    let i0 = one(g, "inductive"@);
    let s0 = g + "inductive"@;
    lemma_then(i0, s0, sp, name);
    let i1 = i0 + one(sp, name);
    let s1 = s0 + (sp + name);
    lemma_then(i1, s1, sp, "{"@);
    let i2 = i1 + one(sp, "{"@);
    let s2 = s1 + (sp + "{"@);
    lemma_then(i2, s2, no, "\n"@);
    let i3 = i2 + one(no, "\n"@);
    let s3 = s2 + (no + "\n"@);
    lemma_constructors_printed(i3, s3, constructors, constructors.len(), indented(g));
    let i4 = i3 + constructors_items(constructors, constructors.len(), indented(g));
    let s4 = s3 + constructors_text(constructors, indented(g));
    lemma_then(i4, s4, g, "}"@);
    let i5 = i4 + one(g, "}"@);
    let s5 = s4 + (g + "}"@);
    assert(statement_items(s, g) == i5);
    lemma_flat_inductive(g, "inductive"@, sp, name, "{"@, "\n"@, constructors_text(constructors, indented(g)), "}"@);
}

proof fn lemma_flat_inductive(a: Seq<char>, b: Seq<char>, c: Seq<char>, d: Seq<char>, e: Seq<char>, f: Seq<char>, h: Seq<char>, i: Seq<char>)
    ensures
        a + b + (c + d) + (c + e) + (Seq::<char>::empty() + f) + h + (a + i) == a + (b + c) + d + (c + e + f) + h + a + i,
{
    assert(a + b + (c + d) + (c + e) + (Seq::<char>::empty() + f) + h + (a + i) =~= a + (b + c) + d + (c + e + f) + h + a + i);
}

proof fn lemma_import_printed(s: StatementV, g: Seq<char>, components: Seq<Seq<char>>, names: Seq<TokenV>)
    requires
        all_blank(g),
        s.statement == (InfoV::Import { components, names }),
        components.len() > 0,
        all_wordy(components),
        names.len() == 0,
    ensures
        prints(s, g),
{
    let no = Seq::<char>::empty();
    let sp = " "@;
    lemma_first_chars();
    lemma_symbols();
    lemma_keywords();
    lemma_literals();
    lemma_names_made(components, components.len(), sp, "."@, no);
    assert(components.take(components.len() as int) =~= components);
    assert("."@ + no =~= "."@);
    lemma_not_break(components[components.len() - 1]);
    lemma_single(g, "import"@);
    let i0 = one(g, "import"@);
    let s0 = g + "import"@;
    lemma_join(i0, s0, names_items(components, components.len(), sp, "."@, no), (sp + joined(components, "."@)));
    let i1 = i0 + names_items(components, components.len(), sp, "."@, no);
    let s1 = s0 + (sp + joined(components, "."@));
    assert(statement_items(s, g) == i1);
    lemma_flat_import(g, "import"@, sp, joined(components, "."@));
}

proof fn lemma_flat_import(a: Seq<char>, b: Seq<char>, c: Seq<char>, d: Seq<char>)
    ensures
        a + b + (c + d) == a + (b + c) + d,
{
    assert(a + b + (c + d) =~= a + (b + c) + d);
}

proof fn lemma_from_printed(s: StatementV, g: Seq<char>, components: Seq<Seq<char>>, names: Seq<TokenV>)
    requires
        all_blank(g),
        s.statement == (InfoV::Import { components, names }),
        components.len() > 0,
        all_wordy(components),
        names.len() > 0,
        all_wordy(token_texts(names)),
    ensures
        prints(s, g),
{
    let no = Seq::<char>::empty();
    let sp = " "@;
    lemma_first_chars();
    lemma_symbols();
    lemma_keywords();
    lemma_literals();
    lemma_names_made(components, components.len(), sp, "."@, no);
    assert(components.take(components.len() as int) =~= components);
    assert("."@ + no =~= "."@);
    lemma_not_break(components[components.len() - 1]);
    lemma_names_made(token_texts(names), names.len(), sp, ","@, sp);
    assert(token_texts(names).take(names.len() as int) =~= token_texts(names));
    lemma_comma();
    lemma_not_break(token_texts(names)[names.len() - 1]);
    lemma_single(g, "from"@);
    let i0 = one(g, "from"@);
    let s0 = g + "from"@;
    lemma_join(i0, s0, names_items(components, components.len(), sp, "."@, no), (sp + joined(components, "."@)));
    let i1 = i0 + names_items(components, components.len(), sp, "."@, no);
    let s1 = s0 + (sp + joined(components, "."@));
    lemma_then(i1, s1, sp, "import"@);
    let i2 = i1 + one(sp, "import"@);
    let s2 = s1 + (sp + "import"@);
    lemma_join(i2, s2, names_items(token_texts(names), names.len(), sp, ","@, sp), (sp + joined(token_texts(names), ", "@)));
    let i3 = i2 + names_items(token_texts(names), names.len(), sp, ","@, sp);
    let s3 = s2 + (sp + joined(token_texts(names), ", "@));
    assert(statement_items(s, g) == i3);
    lemma_flat_from(g, "from"@, sp, joined(components, "."@), "import"@, joined(token_texts(names), ", "@));
}

proof fn lemma_flat_from(a: Seq<char>, b: Seq<char>, c: Seq<char>, d: Seq<char>, e: Seq<char>, f: Seq<char>)
    ensures
        a + b + (c + d) + (c + e) + (c + f) == a + (b + c) + d + (c + e + c) + f,
{
    assert(a + b + (c + d) + (c + e) + (c + f) =~= a + (b + c) + d + (c + e + c) + f);
}

proof fn lemma_variable_printed(s: StatementV, g: Seq<char>, declarations: Seq<ExprV>, condition: ExprV)
    requires
        all_blank(g),
        s.statement == (InfoV::VariableSatisfy { declarations, condition }),
        declarations.len() == 1,
        exprs_clean(declarations),
        is_clean(condition),
    ensures
        prints(s, g),
{
    let no = Seq::<char>::empty();
    let sp = " "@;
    lemma_first_chars();
    lemma_symbols();
    lemma_keywords();
    lemma_literals();
    lemma_condition_printed(condition, g);
    lemma_single(g, "let"@);
    let i0 = one(g, "let"@);
    let s0 = g + "let"@;
    lemma_then_expr(i0, s0, declarations[0], sp);
    let i1 = i0 + expr_items(declarations[0], sp);
    let s1 = s0 + (sp + expr_text(declarations[0]));
    lemma_join(i1, s1, condition_items(condition, g), condition_text(condition, g));
    let i2 = i1 + condition_items(condition, g);
    let s2 = s1 + condition_text(condition, g);
    assert(statement_items(s, g) == i2);
    lemma_flat_variable(g, "let"@, sp, expr_text(declarations[0]), condition_text(condition, g));
}

proof fn lemma_flat_variable(a: Seq<char>, b: Seq<char>, c: Seq<char>, d: Seq<char>, e: Seq<char>)
    ensures
        a + b + (c + d) + e == a + (b + c) + d + e,
{
    assert(a + b + (c + d) + e =~= a + (b + c) + d + e);
}

proof fn lemma_variables_printed(s: StatementV, g: Seq<char>, declarations: Seq<ExprV>, condition: ExprV)
    requires
        all_blank(g),
        s.statement == (InfoV::VariableSatisfy { declarations, condition }),
        declarations.len() > 1,
        exprs_clean(declarations),
        is_clean(condition),
    ensures
        prints(s, g),
{
    let no = Seq::<char>::empty();
    let sp = " "@;
    lemma_first_chars();
    lemma_symbols();
    lemma_keywords();
    lemma_literals();
    lemma_condition_printed(condition, g);
    lemma_declared_printed(declarations);
    lemma_single(g, "let"@);
    let i0 = one(g, "let"@);
    let s0 = g + "let"@;
    lemma_join(i0, s0, declared_items(declarations), (sp + args_text(declarations)));
    let i1 = i0 + declared_items(declarations);
    let s1 = s0 + (sp + args_text(declarations));
    lemma_join(i1, s1, condition_items(condition, g), condition_text(condition, g));
    let i2 = i1 + condition_items(condition, g);
    let s2 = s1 + condition_text(condition, g);
    assert(statement_items(s, g) == i2);
    lemma_flat_variables(g, "let"@, sp, args_text(declarations), condition_text(condition, g));
}

proof fn lemma_flat_variables(a: Seq<char>, b: Seq<char>, c: Seq<char>, d: Seq<char>, e: Seq<char>)
    ensures
        a + b + (c + d) + e == a + (b + c) + d + e,
{
    assert(a + b + (c + d) + e =~= a + (b + c) + d + e);
}

proof fn lemma_function_printed(s: StatementV, g: Seq<char>, name: Seq<char>, name_token: TokenV, declarations: Seq<ExprV>, satisfy_token: TokenV, condition: ExprV, body: Option<BodyV>)
    requires
        all_blank(g),
        s.statement == (InfoV::FunctionSatisfy { name, name_token, declarations, satisfy_token, condition, body }),
        is_wordy(name),
        declarations.len() > 0,
        exprs_clean(declarations),
        is_clean(condition),
        body is None,
    ensures
        prints(s, g),
{
    let no = Seq::<char>::empty();
    let sp = " "@;
    lemma_first_chars();
    lemma_symbols();
    lemma_keywords();
    lemma_literals();
    lemma_condition_printed(condition, g);
    lemma_not_break(name);
    assert(is_clean(declarations[declarations.len() - 1]));
    assert(exprs_clean(declarations.drop_last())) by {
        let some = declarations.drop_last();
        assert forall|i: int| 0 <= i < some.len() implies is_clean(#[trigger] some[i]) by {
            assert(some[i] == declarations[i]);
        }
    }
    lemma_single(g, "let"@);
    let i0 = one(g, "let"@);
    let s0 = g + "let"@;
    lemma_then(i0, s0, sp, name);
    let i1 = i0 + one(sp, name);
    let s1 = s0 + (sp + name);
    lemma_then_args(i1, s1, declarations.drop_last());
    let i2 = i1 + args_items(declarations.drop_last());
    let s2 = s1 + args_text(declarations.drop_last());
    lemma_then(i2, s2, sp, "->"@);
    let i3 = i2 + one(sp, "->"@);
    let s3 = s2 + (sp + "->"@);
    lemma_then_expr(i3, s3, declarations.last(), sp);
    let i4 = i3 + expr_items(declarations.last(), sp);
    let s4 = s3 + (sp + expr_text(declarations.last()));
    lemma_join(i4, s4, condition_items(condition, g), condition_text(condition, g));
    let i5 = i4 + condition_items(condition, g);
    let s5 = s4 + condition_text(condition, g);
    assert(statement_items(s, g) == i5);
    lemma_flat_function(g, "let"@, sp, name, args_text(declarations.drop_last()), "->"@, expr_text(declarations.last()), condition_text(condition, g));
}

proof fn lemma_flat_function(a: Seq<char>, b: Seq<char>, c: Seq<char>, d: Seq<char>, e: Seq<char>, f: Seq<char>, h: Seq<char>, i: Seq<char>)
    ensures
        a + b + (c + d) + e + (c + f) + (c + h) + i == a + ((b + c) + d + e + (c + f + c) + h) + i,
{
    assert(a + b + (c + d) + e + (c + f) + (c + h) + i =~= a + ((b + c) + d + e + (c + f + c) + h) + i);
}

proof fn lemma_justified_printed(s: StatementV, g: Seq<char>, name: Seq<char>, name_token: TokenV, declarations: Seq<ExprV>, satisfy_token: TokenV, condition: ExprV, body: Option<BodyV>, ss: Seq<StatementV>)
    requires
        all_blank(g),
        s.statement == (InfoV::FunctionSatisfy { name, name_token, declarations, satisfy_token, condition, body }),
        is_wordy(name),
        declarations.len() > 0,
        exprs_clean(declarations),
        is_clean(condition),
        body matches Some(b) && b.statements == ss,
        makes(block_items(ss, g), block_text(ss, g)),
        block_items(ss, g)[0].0.len() > 0,
        block_items(ss, g).last().1 != line_break(),
    ensures
        prints(s, g),
{
    let no = Seq::<char>::empty();
    let sp = " "@;
    lemma_first_chars();
    lemma_symbols();
    lemma_keywords();
    lemma_literals();
    lemma_condition_printed(condition, g);
    lemma_not_break(name);
    assert(is_clean(declarations[declarations.len() - 1]));
    assert(exprs_clean(declarations.drop_last())) by {
        let some = declarations.drop_last();
        assert forall|i: int| 0 <= i < some.len() implies is_clean(#[trigger] some[i]) by {
            assert(some[i] == declarations[i]);
        }
    }
    lemma_single(g, "let"@);
    let i0 = one(g, "let"@);
    let s0 = g + "let"@;
    lemma_then(i0, s0, sp, name);
    let i1 = i0 + one(sp, name);
    let s1 = s0 + (sp + name);
    lemma_then_args(i1, s1, declarations.drop_last());
    let i2 = i1 + args_items(declarations.drop_last());
    let s2 = s1 + args_text(declarations.drop_last());
    lemma_then(i2, s2, sp, "->"@);
    let i3 = i2 + one(sp, "->"@);
    let s3 = s2 + (sp + "->"@);
    lemma_then_expr(i3, s3, declarations.last(), sp);
    let i4 = i3 + expr_items(declarations.last(), sp);
    let s4 = s3 + (sp + expr_text(declarations.last()));
    lemma_join(i4, s4, condition_items(condition, g), condition_text(condition, g));
    let i5 = i4 + condition_items(condition, g);
    let s5 = s4 + condition_text(condition, g);
    lemma_then(i5, s5, sp, "by"@);
    let i6 = i5 + one(sp, "by"@);
    let s6 = s5 + (sp + "by"@);
    lemma_join(i6, s6, block_items(ss, g), block_text(ss, g));
    let i7 = i6 + block_items(ss, g);
    let s7 = s6 + block_text(ss, g);
    assert(statement_items(s, g) == i7);
    lemma_flat_justified(g, "let"@, sp, name, args_text(declarations.drop_last()), "->"@, expr_text(declarations.last()), condition_text(condition, g), "by"@, block_text(ss, g));
}

proof fn lemma_flat_justified(a: Seq<char>, b: Seq<char>, c: Seq<char>, d: Seq<char>, e: Seq<char>, f: Seq<char>, h: Seq<char>, i: Seq<char>, j: Seq<char>, k: Seq<char>)
    ensures
        a + b + (c + d) + e + (c + f) + (c + h) + i + (c + j) + k == a + ((b + c) + d + e + (c + f + c) + h) + i + (c + j) + k,
{
    assert(a + b + (c + d) + e + (c + f) + (c + h) + i + (c + j) + k =~= a + ((b + c) + d + e + (c + f + c) + h) + i + (c + j) + k);
}

/// Statements of a block at the end, where a line has ended.
proof fn lemma_lines_printed(
    a: Seq<ItemV>,
    t: Seq<char>,
    ss: Seq<StatementV>,
    n: nat,
    g: Seq<char>,
)
    requires
        makes(a, t),
        a.last().1 == line_break(),
        n <= ss.len(),
        statements_clean(ss, n),
        all_blank(g),
        g.len() > 0,
    ensures
        makes(a + lines_items(ss, n, g), t + lines_text(ss.take(n as int), g)),
        (a + lines_items(ss, n, g))[0] == a[0],
        (a + lines_items(ss, n, g)).last().1 == line_break(),
    decreases ss, n,
{
    let no = Seq::<char>::empty();
    let some = ss.take(n as int);
    if n == 0 {
        assert(a + lines_items(ss, n, g) =~= a);
        assert(t + lines_text(some, g) =~= t);
    } else {
        let m = (n - 1) as nat;
        let x = ss[n - 1];
        lemma_lines_printed(a, t, ss, m, g);
        lemma_statement_printed(x, g);
        lemma_first_chars();
        let before = lines_items(ss, m, g);
        let i0 = a + before;
        let s0 = t + lines_text(ss.take(m as int), g);
        lemma_join(i0, s0, statement_items(x, g), statement_text(x, g));
        let i1 = i0 + statement_items(x, g);
        let s1 = s0 + statement_text(x, g);
        lemma_then(i1, s1, no, "\n"@);
        assert(some.drop_last() =~= ss.take(m as int));
        assert(some[some.len() - 1] == x);
        assert(a + lines_items(ss, n, g) =~= i1 + one(no, "\n"@));
        assert(s1 + (no + "\n"@) =~= t + (lines_text(ss.take(m as int), g) + statement_text(x, g)
            + "\n"@));
    }
}

/// A block is written with its tokens.
proof fn lemma_block_printed(ss: Seq<StatementV>, g: Seq<char>)
    requires
        statements_clean(ss, ss.len()),
        all_blank(g),
    ensures
        makes(block_items(ss, g), block_text(ss, g)),
        block_items(ss, g)[0].0.len() > 0,
        block_items(ss, g).last().1 != line_break(),
    decreases ss, ss.len() + 1,
{
    let no = Seq::<char>::empty();
    let sp = " "@;
    lemma_first_chars();
    lemma_symbols();
    lemma_literals();
    lemma_indented(g);
    lemma_not_break("}"@);
    lemma_single(sp, "{"@);
    lemma_then(one(sp, "{"@), sp + "{"@, no, "\n"@);
    let i1 = one(sp, "{"@) + one(no, "\n"@);
    let s1 = sp + "{"@ + (no + "\n"@);
    lemma_lines_printed(i1, s1, ss, ss.len(), indented(g));
    assert(ss.take(ss.len() as int) =~= ss);
    let i2 = i1 + lines_items(ss, ss.len(), indented(g));
    let s2 = s1 + lines_text(ss, indented(g));
    lemma_then(i2, s2, g, "}"@);
    assert(s1 =~= sp + "{"@ + "\n"@);
    assert(s2 + (g + "}"@) =~= s2 + g + "}"@);
}

/// A statement is written with its tokens.
pub proof fn lemma_statement_printed(s: StatementV, g: Seq<char>)
    requires
        is_clean_statement(s),
        all_blank(g),
    ensures
        prints(s, g),
    decreases s, 0nat,
{
    match s.statement {
        InfoV::Let { name, name_token, type_expr, value } => {
            lemma_let_printed(s, g, name, name_token, type_expr, value);
        },
        InfoV::Define { name, name_token, type_params, args, return_type, return_value } => {
            lemma_define_printed(
                s,
                g,
                name,
                name_token,
                type_params,
                args,
                return_type,
                return_value,
            );
        },
        InfoV::Theorem { axiomatic, name, type_params, args, claim, body } => {
            match body {
                Some(b) => {
                    lemma_block_printed(b.statements, g);
                    lemma_proved_printed(
                        s,
                        g,
                        name,
                        axiomatic,
                        type_params,
                        args,
                        claim,
                        body,
                        b.statements,
                    );
                },
                None => {
                    lemma_theorem_printed(
                        s,
                        g,
                        name,
                        axiomatic,
                        type_params,
                        args,
                        claim,
                        body,
                    );
                },
            }
        },
        InfoV::Prop { claim } => {
            lemma_expr_made(claim, g);
        },
        InfoV::Type { name, type_expr } => {
            lemma_type_printed(s, g, name, type_expr);
        },
        InfoV::ForAll { quantifiers, body } => {
            lemma_block_printed(body.statements, g);
            lemma_forall_printed(s, g, quantifiers, body, body.statements);
        },
        InfoV::If { condition, body, else_body, token } => {
            lemma_block_printed(body.statements, g);
            match else_body {
                Some(b) => {
                    lemma_block_printed(b.statements, g);
                    lemma_else_printed(
                        s,
                        g,
                        condition,
                        body,
                        else_body,
                        token,
                        body.statements,
                        b.statements,
                    );
                },
                None => {
                    lemma_if_printed(s, g, condition, body, else_body, token, body.statements);
                },
            }
        },
        InfoV::Exists { quantifiers, claim } => {
            lemma_exists_printed(s, g, quantifiers, claim);
        },
        InfoV::Struct { name, name_token, fields } => {
            lemma_struct_printed(s, g, name, name_token, fields);
        },
        InfoV::Import { components, names } => {
            if names.len() == 0 {
                lemma_import_printed(s, g, components, names);
            } else {
                lemma_from_printed(s, g, components, names);
            }
        },
        InfoV::Class { name, name_token, body } => {
            lemma_block_printed(body.statements, g);
            lemma_class_printed(s, g, name, name_token, body, body.statements);
        },
        InfoV::Default { type_expr } => {
            lemma_default_printed(s, g, type_expr);
        },
        InfoV::Solve { target, body } => {
            lemma_block_printed(body.statements, g);
            lemma_solve_printed(s, g, target, body, body.statements);
        },
        InfoV::VariableSatisfy { declarations, condition } => {
            if declarations.len() == 1 {
                lemma_variable_printed(s, g, declarations, condition);
            } else {
                lemma_variables_printed(s, g, declarations, condition);
            }
        },
        InfoV::FunctionSatisfy {
            name,
            name_token,
            declarations,
            satisfy_token,
            condition,
            body,
        } => {
            match body {
                Some(b) => {
                    lemma_block_printed(b.statements, g);
                    lemma_justified_printed(
                        s,
                        g,
                        name,
                        name_token,
                        declarations,
                        satisfy_token,
                        condition,
                        body,
                        b.statements,
                    );
                },
                None => {
                    lemma_function_printed(
                        s,
                        g,
                        name,
                        name_token,
                        declarations,
                        satisfy_token,
                        condition,
                        body,
                    );
                },
            }
        },
        InfoV::Inductive { name, name_token, constructors } => {
            lemma_inductive_printed(s, g, name, name_token, constructors);
        },
        InfoV::Problem { body } => {
            lemma_block_printed(body.statements, g);
            lemma_problem_printed(s, g, body, body.statements);
        },
    }
}

} // verus!
