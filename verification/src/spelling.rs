//! Texts as tokens with blanks before them, and the tokens that reading such a text gives.

use vstd::prelude::*;

use crate::token::{
    comment_at, is_blank, is_digit, is_word_part, is_word_start, lex_at, line_end, line_tokens,
    newline_token, number_end, text_tokens, word_end, word_type, TokenType, TokenV,
};

verus! {

/// A token of a text: the blanks before it, and its own text.
pub type ItemV = (Seq<char>, Seq<char>);

/// The text that tokens make up.
pub open spec fn spell(items: Seq<ItemV>) -> Seq<char>
    decreases items.len(),
{
    if items.len() == 0 {
        Seq::empty()
    } else {
        items[0].0 + items[0].1 + spell(items.skip(1))
    }
}

/// The tokens' own texts.
pub open spec fn texts(items: Seq<ItemV>) -> Seq<Seq<char>> {
    Seq::new(items.len(), |i: int| items[i].1)
}

/// The text of a line end.
pub open spec fn line_break() -> Seq<char> {
    "\n"@
}

/// Whether a text is one token, other than a line end.
pub open spec fn is_lexeme(x: Seq<char>) -> bool {
    &&& x.len() > 0
    &&& !is_blank(x[0])
    &&& forall|k: int| 0 <= k < x.len() ==> #[trigger] x[k] != '\n'
    &&& lex_at(x, 0).1 == x.len()
}

/// The kind of token that a text is.
pub open spec fn kind(x: Seq<char>) -> TokenType {
    if x == line_break() {
        TokenType::NewLine
    } else {
        lex_at(x, 0).0
    }
}

/// Whether a token is of the kind that its text says.
pub open spec fn is_proper(t: TokenV) -> bool {
    t.token_type == kind(t.text) && (t.text == line_break() || is_lexeme(t.text))
}

/// Whether all tokens are of the kinds that their texts say.
pub open spec fn all_proper(ts: Seq<TokenV>) -> bool {
    forall|i: int| 0 <= i < ts.len() ==> is_proper(#[trigger] ts[i])
}

/// Whether a token that ends with a character could become longer.
pub open spec fn is_open(c: char) -> bool {
    c == '<' || c == '-' || c == '!' || c == '>' || c == '/'
}

/// Whether a character could make a symbol longer.
pub open spec fn extends(c: char) -> bool {
    c == '-' || c == '>' || c == '=' || c == '/'
}

/// Whether a token stays itself in front of a character.
pub open spec fn apart(x: Seq<char>, c: char) -> bool {
    &&& is_word_part(x.last()) ==> !is_word_part(c)
    &&& is_open(x.last()) ==> !extends(c)
}

/// Whether a text holds blanks only.
pub open spec fn all_blank(g: Seq<char>) -> bool {
    forall|k: int| 0 <= k < g.len() ==> #[trigger] g[k] == ' '
}

/// Whether a token can stand in a text.
pub open spec fn is_item(x: ItemV) -> bool {
    all_blank(x.0) && (x.1 == line_break() || is_lexeme(x.1))
}

/// Whether a token can stand in front of another.
pub open spec fn follows(x: ItemV, y: ItemV) -> bool {
    y.0.len() > 0 || apart(x.1, y.1[0])
}

/// Whether a text made of tokens can be taken apart again.
pub open spec fn is_spelling(items: Seq<ItemV>) -> bool {
    &&& forall|k: int| 0 <= k < items.len() ==> is_item(#[trigger] items[k])
    &&& forall|k: int|
        0 < k < items.len() ==> follows(items[k - 1], #[trigger] items[k])
}

pub proof fn lemma_spell_add(a: Seq<ItemV>, b: Seq<ItemV>)
    ensures
        spell(a + b) == spell(a) + spell(b),
    decreases a.len(),
{
    if a.len() == 0 {
        assert(a + b =~= b);
        assert(spell(a) + spell(b) =~= spell(b));
    } else {
        lemma_spell_add(a.skip(1), b);
        assert((a + b).skip(1) =~= a.skip(1) + b);
        assert(spell(a + b) =~= spell(a) + spell(b));
    }
}

pub proof fn lemma_spell_one(x: ItemV)
    ensures
        spell(seq![x]) == x.0 + x.1,
{
    let none = Seq::<ItemV>::empty();
    assert(seq![x].skip(1) =~= none);
    assert(spell(none) =~= Seq::empty());
    assert(spell(seq![x]) =~= x.0 + x.1);
}

pub proof fn lemma_spelling_add(a: Seq<ItemV>, b: Seq<ItemV>)
    requires
        is_spelling(a),
        is_spelling(b),
        a.len() > 0 && b.len() > 0 ==> follows(a.last(), b[0]),
    ensures
        is_spelling(a + b),
{
    let c = a + b;
    assert forall|k: int| 0 <= k < c.len() implies is_item(#[trigger] c[k]) by {
        if k >= a.len() {
            assert(c[k] == b[k - a.len()]);
        } else {
            assert(c[k] == a[k]);
        }
    }
    assert forall|k: int| 0 < k < c.len() implies follows(c[k - 1], #[trigger] c[k]) by {
        if k > a.len() {
            assert(c[k] == b[k - a.len()] && c[k - 1] == b[k - a.len() - 1]);
        } else if k < a.len() {
            assert(c[k] == a[k] && c[k - 1] == a[k - 1]);
        } else {
            assert(c[k] == b[0]);
            if a.len() > 0 {
                assert(c[k - 1] == a.last());
            }
        }
    }
}

pub proof fn lemma_word_chars(s: Seq<char>, i: int)
    requires
        0 <= i,
        word_end(s, i) == s.len(),
    ensures
        forall|k: int| i <= k < s.len() ==> is_word_part(#[trigger] s[k]),
    decreases s.len() - i,
{
    if i < s.len() {
        assert(is_word_part(s[i]));
        lemma_word_chars(s, i + 1);
    }
}

pub proof fn lemma_number_chars(s: Seq<char>, i: int)
    requires
        0 <= i,
        number_end(s, i) == s.len(),
    ensures
        forall|k: int| i <= k < s.len() ==> is_digit(#[trigger] s[k]),
    decreases s.len() - i,
{
    if i < s.len() {
        assert(is_digit(s[i]));
        lemma_number_chars(s, i + 1);
    }
}

proof fn lemma_word_up_to(s: Seq<char>, i: int, j: int)
    requires
        0 <= i <= j <= s.len(),
        forall|k: int| i <= k < j ==> is_word_part(#[trigger] s[k]),
        j == s.len() || !is_word_part(s[j]),
    ensures
        word_end(s, i) == j,
    decreases j - i,
{
    if i < j {
        assert(is_word_part(s[i]));
        lemma_word_up_to(s, i + 1, j);
    }
}

proof fn lemma_number_up_to(s: Seq<char>, i: int, j: int)
    requires
        0 <= i <= j <= s.len(),
        forall|k: int| i <= k < j ==> is_digit(#[trigger] s[k]),
        j == s.len() || !is_digit(s[j]),
    ensures
        number_end(s, i) == j,
    decreases j - i,
{
    if i < j {
        assert(is_digit(s[i]));
        lemma_number_up_to(s, i + 1, j);
    }
}

proof fn lemma_word_extent(s: Seq<char>, i: int)
    requires
        0 <= i <= s.len(),
    ensures
        i <= word_end(s, i) <= s.len(),
        forall|k: int| i <= k < word_end(s, i) ==> is_word_part(#[trigger] s[k]),
    decreases s.len() - i,
{
    if i < s.len() && is_word_part(s[i]) {
        lemma_word_extent(s, i + 1);
    }
}

proof fn lemma_number_extent(s: Seq<char>, i: int)
    requires
        0 <= i <= s.len(),
    ensures
        i <= number_end(s, i) <= s.len(),
        forall|k: int| i <= k < number_end(s, i) ==> is_digit(#[trigger] s[k]),
    decreases s.len() - i,
{
    if i < s.len() && is_digit(s[i]) {
        lemma_number_extent(s, i + 1);
    }
}

/// Whether a text stands at a place of another.
pub open spec fn stands_at(s: Seq<char>, i: int, x: Seq<char>) -> bool {
    0 <= i && i + x.len() <= s.len() && forall|k: int| 0 <= k < x.len() ==> #[trigger] x[k] == s[i + k]
}

/// A token is read the same inside a longer text.
proof fn lemma_lex_inside(s: Seq<char>, i: int, x: Seq<char>)
    requires
        is_lexeme(x),
        stands_at(s, i, x),
        i + x.len() == s.len() || apart(x, s[i + x.len()]),
    ensures
        lex_at(s, i) == (lex_at(x, 0).0, i + x.len()),
        !comment_at(s, i),
        !is_blank(s[i]),
{
    let j = i + x.len();
    assert(x[0] == s[i]);
    if is_word_start(x[0]) {
        lemma_word_chars(x, 0);
        assert forall|k: int| i <= k < j implies is_word_part(#[trigger] s[k]) by {
            assert(x[k - i] == s[i + (k - i)]);
        }
        assert(is_word_part(x.last()));
        lemma_word_up_to(s, i, j);
        lemma_word_up_to(x, 0, x.len() as int);
        assert(s.subrange(i, j) =~= x);
        assert(x.subrange(0, x.len() as int) =~= x);
    } else if is_digit(x[0]) {
        lemma_number_chars(x, 0);
        assert forall|k: int| i <= k < j implies is_digit(#[trigger] s[k]) by {
            assert(x[k - i] == s[i + (k - i)]);
        }
        assert(is_digit(x.last()));
        lemma_number_up_to(s, i, j);
    } else {
        if x.len() > 1 {
            assert(x[1] == s[i + 1]);
        }
        if x.len() > 2 {
            assert(x[2] == s[i + 2]);
        }
    }
}

proof fn lemma_line_extent(s: Seq<char>, i: int)
    requires
        0 <= i <= s.len(),
    ensures
        i <= line_end(s, i) <= s.len(),
        forall|k: int| i <= k < line_end(s, i) ==> #[trigger] s[k] != '\n',
        line_end(s, i) < s.len() ==> s[line_end(s, i)] == '\n',
    decreases s.len() - i,
{
    if i < s.len() && s[i] != '\n' {
        lemma_line_extent(s, i + 1);
    }
}

/// The tokens from a place of a line on.
spec fn tokens_from(s: Seq<char>, a: int, i: int, n: u32) -> Seq<TokenV> {
    let end = line_end(s, a);
    let line = s.subrange(a, end);
    line_tokens(line, i - a, n) + seq![newline_token(line, n)] + text_tokens(
        s,
        end + 1,
        (n + 1) as u32,
    )
}

/// Whether tokens have texts, and the kinds that these say.
pub open spec fn have_texts(ts: Seq<TokenV>, xs: Seq<Seq<char>>) -> bool {
    ts.len() == xs.len() && forall|i: int|
        0 <= i < ts.len() ==> is_proper(#[trigger] ts[i]) && ts[i].text == xs[i]
}

proof fn lemma_blank_step(s: Seq<char>, a: int, i: int, n: u32)
    requires
        0 <= a <= i < s.len(),
        i <= line_end(s, a),
        s[i] == ' ',
    ensures
        i < line_end(s, a),
        tokens_from(s, a, i, n) == tokens_from(s, a, i + 1, n),
{
    lemma_line_extent(s, a);
    let line = s.subrange(a, line_end(s, a));
    assert(line[i - a] == s[i]);
}

proof fn lemma_blanks_step(s: Seq<char>, a: int, i: int, g: Seq<char>, n: u32)
    requires
        0 <= a <= i <= line_end(s, a),
        stands_at(s, i, g),
        all_blank(g),
    ensures
        i + g.len() <= line_end(s, a),
        tokens_from(s, a, i, n) == tokens_from(s, a, i + g.len(), n),
    decreases g.len(),
{
    if g.len() > 0 {
        assert(g[0] == s[i + 0]);
        lemma_blank_step(s, a, i, n);
        let rest = g.skip(1);
        assert forall|k: int| 0 <= k < rest.len() implies #[trigger] rest[k] == s[i + 1 + k]
            && rest[k] == ' ' by {
            assert(rest[k] == g[k + 1]);
        }
        lemma_blanks_step(s, a, i + 1, rest, n);
    }
}

proof fn lemma_lexeme_step(s: Seq<char>, a: int, i: int, x: Seq<char>, n: u32)
    requires
        0 <= a <= i <= line_end(s, a),
        is_lexeme(x),
        stands_at(s, i, x),
        i + x.len() == s.len() || apart(x, s[i + x.len()]),
    ensures
        i + x.len() <= line_end(s, a),
        tokens_from(s, a, i, n).len() > 0,
        tokens_from(s, a, i, n)[0].text == x,
        is_proper(tokens_from(s, a, i, n)[0]),
        tokens_from(s, a, i, n).skip(1) == tokens_from(s, a, i + x.len(), n),
{
    lemma_line_extent(s, a);
    let end = line_end(s, a);
    let j = i + x.len();
    if j > end {
        assert(x[end - i] == s[i + (end - i)]);
        assert(false);
    }
    let line = s.subrange(a, end);
    assert(stands_at(line, i - a, x));
    if j < end {
        assert(line[j - a] == s[j]);
    }
    lemma_lex_inside(line, i - a, x);
    assert(line.subrange(i - a, j - a) =~= x);
    reveal_strlit("\n");
    assert(x[0] != '\n');
    assert(x != line_break());
    assert(tokens_from(s, a, i, n).skip(1) =~= tokens_from(s, a, j, n));
}

proof fn lemma_newline_step(s: Seq<char>, a: int, i: int, n: u32)
    requires
        0 <= a <= i,
        i <= line_end(s, a),
        i + 1 < s.len(),
        s[i] == '\n',
    ensures
        tokens_from(s, a, i, n).len() > 0,
        tokens_from(s, a, i, n)[0].text == line_break(),
        is_proper(tokens_from(s, a, i, n)[0]),
        tokens_from(s, a, i, n).skip(1) == tokens_from(s, i + 1, i + 1, (n + 1) as u32),
{
    lemma_line_extent(s, a);
    assert(i == line_end(s, a));
    lemma_line_extent(s, i + 1);
    let line = s.subrange(a, i);
    assert(line_tokens(line, i - a, n) =~= Seq::empty());
    assert(tokens_from(s, a, i, n).skip(1) =~= text_tokens(s, i + 1, (n + 1) as u32));
}

proof fn lemma_reads_from(s: Seq<char>, a: int, i: int, items: Seq<ItemV>, n: u32)
    requires
        0 <= a <= i <= line_end(s, a),
        stands_at(s, i, spell(items)),
        i + spell(items).len() == s.len(),
        is_spelling(items),
        items.len() > 0 ==> items.last().1 != line_break(),
    ensures
        have_texts(tokens_from(s, a, i, n), texts(items).push(line_break())),
    decreases items.len(),
{
    reveal_strlit("\n");
    lemma_line_extent(s, a);
    let all = tokens_from(s, a, i, n);
    let xs = texts(items).push(line_break());
    if items.len() == 0 {
        let line = s.subrange(a, line_end(s, a));
        assert(line_tokens(line, i - a, n) =~= Seq::empty());
        assert(text_tokens(s, line_end(s, a) + 1, (n + 1) as u32) =~= Seq::empty());
        assert(all =~= seq![newline_token(line, n)]);
        assert(xs =~= seq![line_break()]);
    } else {
        let (g, x) = items[0];
        let rest = items.skip(1);
        let whole = spell(items);
        assert(whole == g + x + spell(rest));
        assert(is_item(items[0]));
        assert forall|k: int| 0 <= k < g.len() implies #[trigger] g[k] == s[i + k] by {
            assert(whole[k] == g[k]);
        }
        lemma_blanks_step(s, a, i, g, n);
        let j = i + g.len();
        assert forall|k: int| 0 <= k < x.len() implies #[trigger] x[k] == s[j + k] by {
            assert(whole[g.len() + k] == x[k]);
        }
        let e = j + x.len();
        let tail = spell(rest);
        assert forall|k: int| 0 <= k < tail.len() implies #[trigger] tail[k] == s[e + k] by {
            assert(whole[g.len() + x.len() + k] == tail[k]);
        }
        assert(is_spelling(rest)) by {
            assert forall|k: int| 0 <= k < rest.len() implies is_item(#[trigger] rest[k]) by {
                assert(rest[k] == items[k + 1]);
            }
            assert forall|k: int| 0 < k < rest.len() implies follows(
                rest[k - 1],
                #[trigger] rest[k],
            ) by {
                assert(rest[k] == items[k + 1] && rest[k - 1] == items[(k + 1) - 1]);
            }
        }
        if rest.len() > 0 {
            assert(rest.last() == items.last());
            let y = items[1];
            assert(rest[0] == y);
            assert(follows(items[0], y));
            assert(is_item(y));
            assert(tail == y.0 + y.1 + spell(rest.skip(1)));
            assert(y.0.len() + y.1.len() > 0);
            assert(tail[0] == s[e + 0]);
            if y.0.len() > 0 {
                assert(tail[0] == y.0[0]);
            } else {
                assert(tail[0] == y.1[0]);
            }
        }
        if x == line_break() {
            assert(rest.len() > 0);
            assert(x[0] == s[j + 0]);
            lemma_newline_step(s, a, j, n);
            lemma_line_extent(s, e);
            lemma_reads_from(s, e, e, rest, (n + 1) as u32);
        } else {
            lemma_lexeme_step(s, a, j, x, n);
            lemma_reads_from(s, a, e, rest, n);
        }
        let after = all.skip(1);
        let ys = texts(rest).push(line_break());
        assert(have_texts(after, ys));
        assert(xs.len() == ys.len() + 1);
        assert forall|k: int| 0 <= k < all.len() implies is_proper(#[trigger] all[k])
            && all[k].text == xs[k] by {
            if k > 0 {
                assert(after[k - 1] == all[k]);
                if k < items.len() {
                    assert(xs[k] == items[k].1);
                    assert(rest[k - 1] == items[k]);
                    assert(ys[k - 1] == rest[k - 1].1);
                } else {
                    assert(ys[k - 1] == line_break());
                }
            } else {
                assert(xs[0] == items[0].1);
            }
        }
    }
}

/// A text that tokens make up is read as these tokens, and a line end.
pub proof fn lemma_reads(items: Seq<ItemV>)
    requires
        is_spelling(items),
        items.len() > 0,
        items.last().1 != line_break(),
    ensures
        have_texts(text_tokens(spell(items), 0, 0), texts(items).push(line_break())),
{
    let s = spell(items);
    let first = items[0];
    assert(is_item(first));
    reveal_strlit("\n");
    assert(s == first.0 + first.1 + spell(items.skip(1)));
    assert(s.len() > 0);
    lemma_line_extent(s, 0);
    lemma_reads_from(s, 0, 0, items, 0);
}

proof fn lemma_lex_outside(s: Seq<char>, i: int)
    requires
        0 <= i < s.len(),
        !is_blank(s[i]),
        forall|k: int| 0 <= k < s.len() ==> #[trigger] s[k] != '\n',
        lex_at(s, i).1 <= s.len(),
    ensures
        i < lex_at(s, i).1,
        is_lexeme(s.subrange(i, lex_at(s, i).1)),
        lex_at(s.subrange(i, lex_at(s, i).1), 0).0 == lex_at(s, i).0,
{
    let (k, end) = lex_at(s, i);
    let x = s.subrange(i, end);
    if is_word_start(s[i]) {
        lemma_word_extent(s, i);
        lemma_word_extent(s, i + 1);
        assert forall|k: int| 0 <= k < x.len() implies is_word_part(#[trigger] x[k]) by {
            assert(x[k] == s[i + k]);
        }
        lemma_word_up_to(x, 0, x.len() as int);
        assert(x.subrange(0, x.len() as int) =~= x);
    } else if is_digit(s[i]) {
        lemma_number_extent(s, i);
        lemma_number_extent(s, i + 1);
        assert forall|k: int| 0 <= k < x.len() implies is_digit(#[trigger] x[k]) by {
            assert(x[k] == s[i + k]);
        }
        lemma_number_up_to(x, 0, x.len() as int);
    } else {
        assert(x[0] == s[i]);
    }
}

proof fn lemma_line_is_proper(s: Seq<char>, i: int, n: u32)
    requires
        0 <= i <= s.len(),
        forall|k: int| 0 <= k < s.len() ==> #[trigger] s[k] != '\n',
    ensures
        all_proper(line_tokens(s, i, n)),
    decreases s.len() - i,
{
    reveal_strlit("\n");
    if i < s.len() && !comment_at(s, i) {
        if is_blank(s[i]) {
            lemma_line_is_proper(s, i + 1, n);
        } else {
            let (_, end) = lex_at(s, i);
            if i < end <= s.len() {
                lemma_lex_outside(s, i);
                lemma_line_is_proper(s, end, n);
                assert(s.subrange(i, end)[0] != '\n');
                let all = line_tokens(s, i, n);
                let rest = line_tokens(s, end, n);
                assert forall|k: int| 0 <= k < all.len() implies is_proper(#[trigger] all[k]) by {
                    if k > 0 {
                        assert(all[k] == rest[k - 1]);
                    }
                }
            }
        }
    }
}

/// Every token that is read is of the kind that its text says.
pub proof fn lemma_text_is_proper(s: Seq<char>, i: int, n: u32)
    requires
        0 <= i,
    ensures
        all_proper(text_tokens(s, i, n)),
    decreases s.len() + 1 - i,
{
    if i < s.len() {
        lemma_line_extent(s, i);
        let end = line_end(s, i);
        let line = s.subrange(i, end);
        assert forall|k: int| 0 <= k < line.len() implies #[trigger] line[k] != '\n' by {
            assert(line[k] == s[i + k]);
        }
        lemma_line_is_proper(line, 0, n);
        lemma_text_is_proper(s, end + 1, (n + 1) as u32);
        let a = line_tokens(line, 0, n);
        let c = text_tokens(s, end + 1, (n + 1) as u32);
        let all = text_tokens(s, i, n);
        assert forall|k: int| 0 <= k < all.len() implies is_proper(#[trigger] all[k]) by {
            if k < a.len() {
                assert(all[k] == a[k]);
            } else if k > a.len() {
                assert(all[k] == c[k - a.len() - 1]);
            }
        }
    }
}

/// A word is one token.
pub proof fn lemma_keyword(x: Seq<char>)
    requires
        x.len() > 0,
        is_word_start(x[0]),
        forall|k: int| 0 <= k < x.len() ==> is_word_part(#[trigger] x[k]),
    ensures
        is_lexeme(x),
        kind(x) == word_type(x),
{
    lemma_word_up_to(x, 0, x.len() as int);
    assert(x.subrange(0, x.len() as int) =~= x);
    reveal_strlit("\n");
    assert(x[0] != "\n"@[0]);
}

/// The text of `else` is read as such.
pub proof fn lemma_else()
    ensures
        is_lexeme("else"@),
        kind("else"@) == TokenType::Else,
{
    reveal_strlit("else");
    lemma_keyword("else"@);
    reveal_strlit("let");
    reveal_strlit("axiom");
    reveal_strlit("theorem");
    reveal_strlit("define");
    reveal_strlit("type");
    reveal_strlit("forall");
    reveal_strlit("exists");
    reveal_strlit("if");
    assert("else"@[0] != "type"@[0]);
}

} // verus!
