//! Source positions, tokens and the lexer.

use vstd::prelude::*;

use crate::compilation::{Error, ErrorV};
use crate::table::Duplicate;
use crate::text::{chars_of, same_text, views};

verus! {

/// A place in a source file: line and column, both counted from zero.
#[derive(Clone, Copy, Debug, PartialEq, Eq, Structural)]
pub struct Position {
    pub line: u32,
    pub character: u32,
}

/// A stretch of a source file, from `start` up to `end`.
#[derive(Clone, Copy, Debug, PartialEq, Eq, Structural)]
pub struct Range {
    pub start: Position,
    pub end: Position,
}

impl View for Range {
    type V = Range;

    open spec fn view(&self) -> Range {
        *self
    }
}

impl Duplicate for Range {
    fn duplicate(&self) -> (r: Self) {
        *self
    }
}

/// What kind of lexeme a token is.
#[derive(Clone, Copy, Debug, PartialEq, Eq, Structural)]
pub enum TokenType {
    Identifier,
    Number,
    Invalid,
    NewLine,
    LeftParen,
    RightParen,
    LeftBrace,
    RightBrace,
    Comma,
    Colon,
    Dot,
    RightArrow,
    LeftRightArrow,
    Plus,
    Minus,
    Asterisk,
    Slash,
    Percent,
    Equals,
    NotEquals,
    GreaterThan,
    LessThan,
    GreaterThanOrEquals,
    LessThanOrEquals,
    Pipe,
    Ampersand,
    Exclam,
    Let,
    Axiom,
    Theorem,
    Define,
    Type,
    ForAll,
    Exists,
    If,
    Else,
    By,
    Function,
    Struct,
    Import,
    From,
    Class,
    Default,
    Solve,
    Inductive,
    Problem,
    Satisfy,
    True,
    False,
}

/// A lexeme together with the line it stands on.
#[derive(Debug)]
pub struct Token {
    pub token_type: TokenType,
    pub text: String,
    pub line: String,
    pub line_number: u32,
    pub start: u32,
}

/// The model of a token.
pub struct TokenV {
    pub token_type: TokenType,
    pub text: Seq<char>,
    pub line: Seq<char>,
    pub line_number: u32,
    pub start: u32,
}

impl View for Token {
    type V = TokenV;

    open spec fn view(&self) -> TokenV {
        TokenV {
            token_type: self.token_type,
            text: self.text@,
            line: self.line@,
            line_number: self.line_number,
            start: self.start,
        }
    }
}

impl TokenV {
    /// The token ends at a column that can be written down.
    pub open spec fn wf(self) -> bool {
        self.start + self.text.len() <= u32::MAX
    }

    /// Where the token starts.
    pub open spec fn start_pos(self) -> Position {
        Position { line: self.line_number, character: self.start }
    }

    /// Where the token ends.
    pub open spec fn end_pos(self) -> Position {
        Position {
            line: self.line_number,
            character: self.start.wrapping_add(self.text.len() as u32),
        }
    }
}

/// The token that stands for no place at all.
pub open spec fn empty_token() -> TokenV {
    TokenV {
        token_type: TokenType::NewLine,
        text: Seq::empty(),
        line: Seq::empty(),
        line_number: 0,
        start: 0,
    }
}

/// A lower-case ASCII letter.
pub open spec fn is_lower(c: char) -> bool {
    'a' <= c <= 'z'
}

/// An upper-case ASCII letter.
pub open spec fn is_upper(c: char) -> bool {
    'A' <= c <= 'Z'
}

/// An ASCII digit.
pub open spec fn is_digit(c: char) -> bool {
    '0' <= c <= '9'
}

/// A character that can start a word.
pub open spec fn is_word_start(c: char) -> bool {
    is_lower(c) || is_upper(c) || c == '_'
}

/// A character that can stand inside a word.
pub open spec fn is_word_part(c: char) -> bool {
    is_word_start(c) || is_digit(c)
}

/// A character that separates tokens.
pub open spec fn is_blank(c: char) -> bool {
    c == ' ' || c == '\t' || c == '\r'
}

/// Names of variables start with a lower-case letter or are numerals.
pub open spec fn valid_variable_name(s: Seq<char>) -> bool {
    s.len() > 0 && (is_lower(s[0]) || is_digit(s[0]))
}

/// Names of types start with an upper-case letter.
pub open spec fn valid_type_name(s: Seq<char>) -> bool {
    s.len() > 0 && is_upper(s[0])
}

/// The kind of a word: a keyword, or an identifier.
pub open spec fn word_type(s: Seq<char>) -> TokenType {
    if s == "let"@ { TokenType::Let }
    else if s == "axiom"@ { TokenType::Axiom }
    else if s == "theorem"@ { TokenType::Theorem }
    else if s == "define"@ { TokenType::Define }
    else if s == "type"@ { TokenType::Type }
    else if s == "forall"@ { TokenType::ForAll }
    else if s == "exists"@ { TokenType::Exists }
    else if s == "if"@ { TokenType::If }
    else if s == "else"@ { TokenType::Else }
    else if s == "by"@ { TokenType::By }
    else if s == "function"@ { TokenType::Function }
    else if s == "struct"@ { TokenType::Struct }
    else if s == "import"@ { TokenType::Import }
    else if s == "from"@ { TokenType::From }
    else if s == "class"@ { TokenType::Class }
    else if s == "default"@ { TokenType::Default }
    else if s == "solve"@ { TokenType::Solve }
    else if s == "structure"@ { TokenType::Struct }
    else if s == "numerals"@ { TokenType::Default }
    else if s == "inductive"@ { TokenType::Inductive }
    else if s == "problem"@ { TokenType::Problem }
    else if s == "satisfy"@ { TokenType::Satisfy }
    else if s == "true"@ { TokenType::True }
    else if s == "false"@ { TokenType::False }
    else { TokenType::Identifier }
}

/// The end of the word that goes on at `i`.
pub open spec fn word_end(s: Seq<char>, i: int) -> int
    decreases s.len() - i,
{
    if i < s.len() && is_word_part(s[i]) {
        word_end(s, i + 1)
    } else {
        i
    }
}

/// The end of the run of digits that goes on at `i`.
pub open spec fn number_end(s: Seq<char>, i: int) -> int
    decreases s.len() - i,
{
    if i < s.len() && is_digit(s[i]) {
        number_end(s, i + 1)
    } else {
        i
    }
}

/// The character at `i`, or a line feed past the end (no line holds one).
pub open spec fn char_at(s: Seq<char>, i: int) -> char {
    if i < s.len() { s[i] } else { '\n' }
}

/// The kind and the end of the token that starts at `i`; the longest lexeme wins.
pub open spec fn lex_at(s: Seq<char>, i: int) -> (TokenType, int) {
    let c = s[i];
    let d = char_at(s, i + 1);
    let e = char_at(s, i + 2);
    if is_word_start(c) {
        (word_type(s.subrange(i, word_end(s, i))), word_end(s, i))
    } else if is_digit(c) {
        (TokenType::Number, number_end(s, i))
    } else if c == '<' && d == '-' && e == '>' {
        (TokenType::LeftRightArrow, i + 3)
    } else if c == '-' && d == '>' {
        (TokenType::RightArrow, i + 2)
    } else if c == '!' && d == '=' {
        (TokenType::NotEquals, i + 2)
    } else if c == '>' && d == '=' {
        (TokenType::GreaterThanOrEquals, i + 2)
    } else if c == '<' && d == '=' {
        (TokenType::LessThanOrEquals, i + 2)
    } else {
        (single_type(c), i + 1)
    }
}

/// The kind of a token of one character.
pub open spec fn single_type(c: char) -> TokenType {
    if c == '(' { TokenType::LeftParen }
    else if c == ')' { TokenType::RightParen }
    else if c == '{' { TokenType::LeftBrace }
    else if c == '}' { TokenType::RightBrace }
    else if c == ',' { TokenType::Comma }
    else if c == ':' { TokenType::Colon }
    else if c == '.' { TokenType::Dot }
    else if c == '+' { TokenType::Plus }
    else if c == '-' { TokenType::Minus }
    else if c == '*' { TokenType::Asterisk }
    else if c == '/' { TokenType::Slash }
    else if c == '%' { TokenType::Percent }
    else if c == '=' { TokenType::Equals }
    else if c == '>' { TokenType::GreaterThan }
    else if c == '<' { TokenType::LessThan }
    else if c == '|' { TokenType::Pipe }
    else if c == '&' { TokenType::Ampersand }
    else if c == '!' { TokenType::Exclam }
    else { TokenType::Invalid }
}

/// Where a comment starts: it runs to the end of the line.
pub open spec fn comment_at(s: Seq<char>, i: int) -> bool {
    s[i] == '/' && char_at(s, i + 1) == '/'
}

/// The tokens of a line from column `i` on.
pub open spec fn line_tokens(s: Seq<char>, i: int, line_number: u32) -> Seq<TokenV>
    decreases s.len() - i,
{
    if i >= s.len() || comment_at(s, i) {
        Seq::empty()
    } else if is_blank(s[i]) {
        line_tokens(s, i + 1, line_number)
    } else {
        let (token_type, end) = lex_at(s, i);
        if i < end <= s.len() {
            seq![TokenV {
                token_type,
                text: s.subrange(i, end),
                line: s,
                line_number,
                start: i as u32,
            }] + line_tokens(s, end, line_number)
        } else {
            Seq::empty()
        }
    }
}

/// The end of the line that goes on at `i`.
pub open spec fn line_end(s: Seq<char>, i: int) -> int
    decreases s.len() - i,
{
    if i < s.len() && s[i] != '\n' {
        line_end(s, i + 1)
    } else {
        i
    }
}

/// The token that ends a line.
pub open spec fn newline_token(line: Seq<char>, line_number: u32) -> TokenV {
    TokenV {
        token_type: TokenType::NewLine,
        text: "\n"@,
        line,
        line_number,
        start: line.len() as u32,
    }
}

/// The tokens of a text from `i` on, where a line starts: each line's tokens, and a line end.
pub open spec fn text_tokens(s: Seq<char>, i: int, line_number: u32) -> Seq<TokenV>
    decreases s.len() + 1 - i,
{
    if i >= s.len() {
        Seq::empty()
    } else {
        let end = line_end(s, i);
        if i <= end <= s.len() {
            let line = s.subrange(i, end);
            line_tokens(line, 0, line_number) + seq![newline_token(line, line_number)]
                + text_tokens(s, end + 1, (line_number + 1) as u32)
        } else {
            Seq::empty()
        }
    }
}

/// Words end where they are looked for or later, and inside the text.
pub proof fn lemma_word_end(s: Seq<char>, i: int)
    requires
        0 <= i <= s.len(),
    ensures
        i <= word_end(s, i) <= s.len(),
        i <= number_end(s, i) <= s.len(),
        i <= line_end(s, i) <= s.len(),
    decreases s.len() - i,
{
    if i < s.len() {
        lemma_word_end(s, i + 1);
    }
}

fn lower(c: char) -> (r: bool)
    ensures
        r == is_lower(c),
{
    'a' <= c && c <= 'z'
}

fn upper(c: char) -> (r: bool)
    ensures
        r == is_upper(c),
{
    'A' <= c && c <= 'Z'
}

/// Whether a character is a digit.
pub fn digit(c: char) -> (r: bool)
    ensures
        r == is_digit(c),
{
    '0' <= c && c <= '9'
}

fn word_start(c: char) -> (r: bool)
    ensures
        r == is_word_start(c),
{
    lower(c) || upper(c) || c == '_'
}

fn find_word_end(s: &Vec<char>, i: usize) -> (r: usize)
    requires
        i <= s.len(),
    ensures
        r == word_end(s@, i as int),
        i <= r <= s.len(),
{
    let mut j: usize = i;
    while j < s.len() && (word_start(s[j]) || digit(s[j]))
        invariant
            i <= j <= s.len(),
            word_end(s@, i as int) == word_end(s@, j as int),
        decreases s.len() - j,
    {
        j = j + 1;
    }
    j
}

fn find_number_end(s: &Vec<char>, i: usize) -> (r: usize)
    requires
        i <= s.len(),
    ensures
        r == number_end(s@, i as int),
        i <= r <= s.len(),
{
    let mut j: usize = i;
    while j < s.len() && digit(s[j])
        invariant
            i <= j <= s.len(),
            number_end(s@, i as int) == number_end(s@, j as int),
        decreases s.len() - j,
    {
        j = j + 1;
    }
    j
}

fn find_line_end(s: &Vec<char>, i: usize) -> (r: usize)
    requires
        i <= s.len(),
    ensures
        r == line_end(s@, i as int),
        i <= r <= s.len(),
{
    let mut j: usize = i;
    while j < s.len() && s[j] != '\n'
        invariant
            i <= j <= s.len(),
            line_end(s@, i as int) == line_end(s@, j as int),
        decreases s.len() - j,
    {
        j = j + 1;
    }
    j
}

fn at(s: &Vec<char>, i: usize) -> (r: char)
    ensures
        r == char_at(s@, i as int),
{
    if i < s.len() { s[i] } else { '\n' }
}

fn classify_word(s: &str) -> (r: TokenType)
    ensures
        r == word_type(s@),
{
    if same_text(s, "let") { TokenType::Let }
    else if same_text(s, "axiom") { TokenType::Axiom }
    else if same_text(s, "theorem") { TokenType::Theorem }
    else if same_text(s, "define") { TokenType::Define }
    else if same_text(s, "type") { TokenType::Type }
    else if same_text(s, "forall") { TokenType::ForAll }
    else if same_text(s, "exists") { TokenType::Exists }
    else if same_text(s, "if") { TokenType::If }
    else if same_text(s, "else") { TokenType::Else }
    else if same_text(s, "by") { TokenType::By }
    else if same_text(s, "function") { TokenType::Function }
    else if same_text(s, "struct") { TokenType::Struct }
    else if same_text(s, "import") { TokenType::Import }
    else if same_text(s, "from") { TokenType::From }
    else if same_text(s, "class") { TokenType::Class }
    else if same_text(s, "default") { TokenType::Default }
    else if same_text(s, "solve") { TokenType::Solve }
    else if same_text(s, "structure") { TokenType::Struct }
    else if same_text(s, "numerals") { TokenType::Default }
    else if same_text(s, "inductive") { TokenType::Inductive }
    else if same_text(s, "problem") { TokenType::Problem }
    else if same_text(s, "satisfy") { TokenType::Satisfy }
    else if same_text(s, "true") { TokenType::True }
    else if same_text(s, "false") { TokenType::False }
    else { TokenType::Identifier }
}

fn classify_single(c: char) -> (r: TokenType)
    ensures
        r == single_type(c),
{
    if c == '(' { TokenType::LeftParen }
    else if c == ')' { TokenType::RightParen }
    else if c == '{' { TokenType::LeftBrace }
    else if c == '}' { TokenType::RightBrace }
    else if c == ',' { TokenType::Comma }
    else if c == ':' { TokenType::Colon }
    else if c == '.' { TokenType::Dot }
    else if c == '+' { TokenType::Plus }
    else if c == '-' { TokenType::Minus }
    else if c == '*' { TokenType::Asterisk }
    else if c == '/' { TokenType::Slash }
    else if c == '%' { TokenType::Percent }
    else if c == '=' { TokenType::Equals }
    else if c == '>' { TokenType::GreaterThan }
    else if c == '<' { TokenType::LessThan }
    else if c == '|' { TokenType::Pipe }
    else if c == '&' { TokenType::Ampersand }
    else if c == '!' { TokenType::Exclam }
    else { TokenType::Invalid }
}

fn lex(s: &Vec<char>, line: &str, i: usize) -> (r: (TokenType, usize))
    requires
        i < s.len() <= u32::MAX,
        line@ == s@,
    ensures
        (r.0, r.1 as int) == lex_at(s@, i as int),
        i < r.1 <= s.len(),
{
    let c = s[i];
    let d = at(s, i + 1);
    let e = if i + 1 < s.len() { at(s, i + 2) } else { '\n' };
    proof {
        lemma_word_end(s@, i + 1);
    }
    if word_start(c) {
        let end = find_word_end(s, i);
        (classify_word(line.substring_char(i, end)), end)
    } else if digit(c) {
        (TokenType::Number, find_number_end(s, i))
    } else if c == '<' && d == '-' && e == '>' {
        (TokenType::LeftRightArrow, i + 3)
    } else if c == '-' && d == '>' {
        (TokenType::RightArrow, i + 2)
    } else if c == '!' && d == '=' {
        (TokenType::NotEquals, i + 2)
    } else if c == '>' && d == '=' {
        (TokenType::GreaterThanOrEquals, i + 2)
    } else if c == '<' && d == '=' {
        (TokenType::LessThanOrEquals, i + 2)
    } else {
        (classify_single(c), i + 1)
    }
}

impl Clone for Token {
    fn clone(&self) -> (r: Self)
        ensures
            r@ == self@,
    {
        Token {
            token_type: self.token_type,
            text: self.text.clone(),
            line: self.line.clone(),
            line_number: self.line_number,
            start: self.start,
        }
    }
}

impl Token {
    /// The token that stands for no place at all.
    pub fn empty() -> (r: Token)
        ensures
            r@ == empty_token(),
    {
        Token {
            token_type: TokenType::NewLine,
            text: String::new(),
            line: String::new(),
            line_number: 0,
            start: 0,
        }
    }

    /// The token's own characters.
    pub fn text(&self) -> (r: &str)
        ensures
            r@ == self@.text,
    {
        self.text.as_str()
    }

    /// Where the token starts.
    pub fn start_pos(&self) -> (r: Position)
        ensures
            r == self@.start_pos(),
    {
        Position { line: self.line_number, character: self.start }
    }

    /// Where the token ends.
    pub fn end_pos(&self) -> (r: Position)
        ensures
            r == self@.end_pos(),
    {
        let len = self.text.as_str().unicode_len();
        Position { line: self.line_number, character: self.start.wrapping_add(len as u32) }
    }

    /// The stretch that the token covers.
    pub fn range(&self) -> (r: Range)
        ensures
            r == (Range { start: self@.start_pos(), end: self@.end_pos() }),
    {
        Range { start: self.start_pos(), end: self.end_pos() }
    }

    /// Whether a name can be a variable's.
    pub fn is_valid_variable_name(s: &str) -> (r: bool)
        ensures
            r == valid_variable_name(s@),
    {
        if s.is_empty() {
            return false;
        }
        let c = s.get_char(0);
        lower(c) || digit(c)
    }

    /// Whether a name can be a type's.
    pub fn is_valid_type_name(s: &str) -> (r: bool)
        ensures
            r == valid_type_name(s@),
    {
        if s.is_empty() {
            return false;
        }
        upper(s.get_char(0))
    }

    fn scan_line(line: &str, line_number: u32, out: &mut Vec<Token>)
        requires
            line@.len() < u32::MAX,
        ensures
            views(final(out)@) == views(old(out)@) + line_tokens(line@, 0, line_number),
            forall|k: int| old(out)@.len() <= k < final(out)@.len() ==> (#[trigger] final(out)@[k])@.wf(),
            final(out)@.len() >= old(out)@.len(),
            forall|k: int| 0 <= k < old(out)@.len() ==> final(out)@[k] == old(out)@[k],
    {
        let s = chars_of(line);
        let mut i: usize = 0;
        assert(views(out@) + line_tokens(s@, i as int, line_number) =~= views(old(out)@)
            + line_tokens(s@, 0, line_number));
        while i < s.len() && !(s[i] == '/' && at(&s, i + 1) == '/')
            invariant
                i <= s.len() < u32::MAX,
                s@ == line@,
                views(out@) + line_tokens(s@, i as int, line_number) == views(old(out)@)
                    + line_tokens(s@, 0, line_number),
                forall|k: int| old(out)@.len() <= k < out@.len() ==> (#[trigger] out@[k])@.wf(),
                out@.len() >= old(out)@.len(),
                forall|k: int| 0 <= k < old(out)@.len() ==> out@[k] == old(out)@[k],
            decreases s.len() - i,
        {
            let c = s[i];
            if c == ' ' || c == '\t' || c == '\r' {
                i = i + 1;
            } else {
                let (token_type, end) = lex(&s, line, i);
                let token = Token {
                    token_type,
                    text: line.substring_char(i, end).to_owned(),
                    line: line.to_owned(),
                    line_number,
                    start: i as u32,
                };
                let ghost before = out@;
                out.push(token);
                proof {
                    assert(views(before.push(token)) =~= views(before).push(token@));
                    assert(views(before).push(token@) + line_tokens(s@, end as int, line_number)
                        =~= views(before) + (seq![token@] + line_tokens(
                        s@,
                        end as int,
                        line_number,
                    )));
                }
                i = end;
            }
        }
        assert(views(out@) + line_tokens(s@, i as int, line_number) =~= views(out@));
    }

    /// Splits a text into tokens. Each line ends with a token of its own.
    pub fn scan(input: &str) -> (r: Vec<Token>)
        requires
            input@.len() < u32::MAX,
        ensures
            views(r@) == text_tokens(input@, 0, 0),
            forall|k: int| 0 <= k < r@.len() ==> (#[trigger] r@[k])@.wf(),
    {
        let s = chars_of(input);
        let mut out: Vec<Token> = Vec::new();
        let mut i: usize = 0;
        let mut line_number: u32 = 0;
        assert(views(out@) + text_tokens(s@, 0, 0) =~= text_tokens(s@, 0, 0));
        while i < s.len()
            invariant
                s@ == input@,
                s.len() < u32::MAX,
                line_number <= i <= s.len() + 1,
                views(out@) + text_tokens(s@, i as int, line_number) == text_tokens(s@, 0, 0),
                forall|k: int| 0 <= k < out@.len() ==> (#[trigger] out@[k])@.wf(),
            decreases s.len() + 1 - i,
        {
            let end = find_line_end(&s, i);
            let line = input.substring_char(i, end);
            let ghost start = out@;
            Token::scan_line(line, line_number, &mut out);
            let ghost before = out@;
            let token = Token {
                token_type: TokenType::NewLine,
                text: "\n".to_owned(),
                line: line.to_owned(),
                line_number,
                start: (end - i) as u32,
            };
            proof {
                reveal_strlit("\n");
                assert(token@.wf());
            }
            out.push(token);
            proof {
                let rest = text_tokens(s@, end + 1, (line_number + 1) as u32);
                assert(views(before.push(token)) =~= views(before).push(token@));
                assert(views(before).push(token@) + rest =~= views(start) + (line_tokens(
                    line@,
                    0,
                    line_number,
                ) + seq![token@] + rest));
                assert forall|k: int| 0 <= k < out@.len() implies (#[trigger] out@[k])@.wf() by {
                    if k < start.len() {
                        assert(start[k]@.wf());
                    } else if k < before.len() {
                        assert(before[k]@.wf());
                    }
                }
            }
            line_number = line_number + 1;
            i = end + 1;
        }
        assert(views(out@) + text_tokens(s@, i as int, line_number) =~= views(out@));
        out
    }

    /// Takes the next token, whatever it is.
    pub fn expect_token(tokens: &mut TokenIter) -> (r: Result<Token, Error>)
        ensures
            final(tokens).all() == old(tokens).all(),
            match r {
                Ok(t) => expect_token(old(tokens).all(), old(tokens).pos()) == Ok::<
                    (TokenV, int),
                    ErrorV,
                >((t@, final(tokens).pos())),
                Err(e) => expect_token(old(tokens).all(), old(tokens).pos()) == Err::<
                    (TokenV, int),
                    ErrorV,
                >(e@),
            },
    {
        match tokens.next() {
            Some(t) => Ok(t),
            None => Err(tokens.error("unexpected end of file")),
        }
    }

    /// Takes the next token, which has to be of the given kind.
    pub fn expect_type(tokens: &mut TokenIter, expected: TokenType) -> (r: Result<Token, Error>)
        ensures
            final(tokens).all() == old(tokens).all(),
            match r {
                Ok(t) => expect_type(old(tokens).all(), old(tokens).pos(), expected) == Ok::<
                    (TokenV, int),
                    ErrorV,
                >((t@, final(tokens).pos())),
                Err(e) => expect_type(old(tokens).all(), old(tokens).pos(), expected) == Err::<
                    (TokenV, int),
                    ErrorV,
                >(e@),
            },
    {
        match tokens.next() {
            Some(t) => {
                if t.token_type == expected {
                    Ok(t)
                } else {
                    Err(Error::at(&t, "unexpected token"))
                }
            },
            None => Err(tokens.error("unexpected end of file")),
        }
    }

    /// Takes line ends until another token comes.
    pub fn skip_newlines(tokens: &mut TokenIter)
        ensures
            final(tokens).all() == old(tokens).all(),
            final(tokens).pos() == after_newlines(old(tokens).all(), old(tokens).pos()),
            old(tokens).pos() <= final(tokens).pos(),
            old(tokens).pos() <= old(tokens).all().len() ==> final(tokens).pos()
                <= final(tokens).all().len(),
    {
        loop
            invariant
                old(tokens).pos() <= tokens.all().len() ==> tokens.pos() <= tokens.all().len(),
                tokens.all() == old(tokens).all(),
                after_newlines(tokens.all(), old(tokens).pos()) == after_newlines(
                    tokens.all(),
                    tokens.pos(),
                ),
                old(tokens).pos() <= tokens.pos(),
            decreases tokens.all().len() - tokens.pos(),
        {
            match tokens.peek_type() {
                Some(t) => {
                    if t != TokenType::NewLine {
                        return;
                    }
                },
                None => {
                    return;
                },
            }
            let _ = tokens.next();
        }
    }
}

/// The next token, whatever it is, and where to go on.
pub open spec fn expect_token(ts: Seq<TokenV>, pos: int) -> Result<(TokenV, int), ErrorV> {
    if pos < ts.len() {
        Ok((ts[pos], pos + 1))
    } else {
        Err(error_here(ts, pos, "unexpected end of file"@))
    }
}

/// The next token, where it is of the given kind, and where to go on.
pub open spec fn expect_type(ts: Seq<TokenV>, pos: int, expected: TokenType) -> Result<
    (TokenV, int),
    ErrorV,
> {
    if pos >= ts.len() {
        Err(error_here(ts, pos, "unexpected end of file"@))
    } else if ts[pos].token_type == expected {
        Ok((ts[pos], pos + 1))
    } else {
        Err(ErrorV::at(ts[pos], "unexpected token"@))
    }
}

/// The first place from `pos` on that holds no line end.
pub open spec fn after_newlines(ts: Seq<TokenV>, pos: int) -> int
    decreases ts.len() - pos,
{
    if pos < ts.len() && ts[pos].token_type == TokenType::NewLine {
        after_newlines(ts, pos + 1)
    } else {
        pos
    }
}

/// An error at the token that comes next, or at the last one where none is left.
pub open spec fn error_here(ts: Seq<TokenV>, pos: int, message: Seq<char>) -> ErrorV {
    if pos < ts.len() {
        ErrorV::at(ts[pos], message)
    } else if ts.len() > 0 {
        ErrorV::at(ts.last(), message)
    } else {
        ErrorV::at(empty_token(), message)
    }
}

/// A walk over tokens.
pub struct TokenIter {
    tokens: Vec<Token>,
    pos: usize,
}

impl TokenIter {
    /// All the tokens of the walk, those already taken too.
    pub closed spec fn all(&self) -> Seq<TokenV> {
        views(self.tokens@)
    }

    /// How many tokens have been taken.
    pub closed spec fn pos(&self) -> int {
        self.pos as int
    }

    /// Starts a walk.
    pub fn new(tokens: Vec<Token>) -> (r: TokenIter)
        ensures
            r.all() == views(tokens@),
            r.pos() == 0,
    {
        TokenIter { tokens, pos: 0 }
    }

    /// Looks at the next token.
    pub fn peek(&self) -> (r: Option<&Token>)
        ensures
            match r {
                Some(t) => 0 <= self.pos() < self.all().len() && t@ == self.all()[self.pos()],
                None => self.pos() >= self.all().len(),
            },
    {
        if self.pos < self.tokens.len() {
            Some(&self.tokens[self.pos])
        } else {
            None
        }
    }

    /// Looks at the kind of the next token.
    pub fn peek_type(&self) -> (r: Option<TokenType>)
        ensures
            match r {
                Some(t) => 0 <= self.pos() < self.all().len()
                    && t == self.all()[self.pos()].token_type,
                None => self.pos() >= self.all().len(),
            },
    {
        match self.peek() {
            Some(t) => Some(t.token_type),
            None => None,
        }
    }

    /// Looks at the kind of the next token that is no line end. Nothing is taken.
    pub fn peek_past_newlines(&self) -> (r: Option<TokenType>)
        ensures
            ({
                let p = after_newlines(self.all(), self.pos());
                match r {
                    Some(t) => self.pos() <= p < self.all().len() && t == self.all()[p].token_type,
                    None => p >= self.all().len(),
                }
            }),
    {
        let mut i: usize = self.pos;
        while i < self.tokens.len() && self.tokens[i].token_type == TokenType::NewLine
            invariant
                self.pos <= i,
                after_newlines(self.all(), self.pos()) == after_newlines(self.all(), i as int),
            decreases self.tokens.len() - i,
        {
            assert(self.all()[i as int] == self.tokens@[i as int]@);
            i = i + 1;
        }
        if i < self.tokens.len() {
            assert(self.all()[i as int] == self.tokens@[i as int]@);
            Some(self.tokens[i].token_type)
        } else {
            None
        }
    }

    /// Takes the next token.
    pub fn next(&mut self) -> (r: Option<Token>)
        ensures
            final(self).all() == old(self).all(),
            match r {
                Some(t) => {
                    &&& 0 <= old(self).pos() < old(self).all().len()
                    &&& t@ == old(self).all()[old(self).pos()]
                    &&& final(self).pos() == old(self).pos() + 1
                },
                None => old(self).pos() >= old(self).all().len()
                    && final(self).pos() == old(self).pos(),
            },
    {
        if self.pos < self.tokens.len() {
            let t = self.tokens[self.pos].clone();
            self.pos = self.pos + 1;
            Some(t)
        } else {
            None
        }
    }

    /// An error at the place the walk has come to.
    pub fn error(&self, message: &str) -> (r: Error)
        ensures
            r@ == error_here(self.all(), self.pos(), message@),
    {
        if self.pos < self.tokens.len() {
            Error::at(&self.tokens[self.pos], message)
        } else if self.tokens.len() > 0 {
            Error::at(&self.tokens[self.tokens.len() - 1], message)
        } else {
            Error::at(&Token::empty(), message)
        }
    }
}

} // verus!
