//! Errors that are reported together with a place in the source.

use vstd::prelude::*;

use crate::token::{Range, Token, TokenV};

verus! {

/// An error that happened during compilation.
#[derive(Debug)]
pub struct Error {
    first_token: Token,
    last_token: Token,
    message: String,
    /// An error met while importing a module that itself failed. Where the first place is visible
    /// there is no point in reporting the second one too.
    pub secondary: bool,
}

/// The model of an error.
pub struct ErrorV {
    pub first_token: TokenV,
    pub last_token: TokenV,
    pub message: Seq<char>,
    pub secondary: bool,
}

impl ErrorV {
    /// A primary error at one token.
    pub open spec fn at(token: TokenV, message: Seq<char>) -> ErrorV {
        ErrorV { first_token: token, last_token: token, message, secondary: false }
    }
}

impl View for Error {
    type V = ErrorV;

    closed spec fn view(&self) -> ErrorV {
        ErrorV {
            first_token: self.first_token@,
            last_token: self.last_token@,
            message: self.message@,
            secondary: self.secondary,
        }
    }
}

/// How many bytes a character takes in UTF-8.
pub open spec fn utf8_len(c: char) -> int {
    let n = c as u32;
    if n < 0x80 { 1 } else if n < 0x800 { 2 } else if n < 0x10000 { 3 } else { 4 }
}

/// How many bytes a text takes in UTF-8.
pub open spec fn byte_len(s: Seq<char>) -> int
    decreases s.len(),
{
    if s.len() == 0 { 0 } else { byte_len(s.drop_last()) + utf8_len(s.last()) }
}

/// The marks under the characters of a line: blanks up to byte `index`, then carets for
/// `width` bytes.
pub open spec fn marks(line: Seq<char>, index: int, width: int) -> Seq<char>
    decreases line.len(),
{
    if line.len() == 0 {
        Seq::empty()
    } else {
        let before = marks(line.drop_last(), index, width);
        let i = byte_len(line.drop_last());
        if i < index {
            before + " "@
        } else if i < index + width {
            before + "^"@
        } else {
            before
        }
    }
}

/// A line with the marks under it. A token past the end of its line gets one caret.
pub open spec fn line_part(text: Seq<char>, line: Seq<char>, index: int) -> Seq<char> {
    line + "\n"@ + marks(line, index, byte_len(text)) + (if index >= byte_len(line) {
        "^"@
    } else {
        Seq::empty()
    }) + "\n"@
}

fn char_bytes(c: char) -> (r: u64)
    ensures
        r == utf8_len(c),
{
    let n: u32 = c as u32;
    if n < 0x80 { 1 } else if n < 0x800 { 2 } else if n < 0x10000 { 3 } else { 4 }
}

fn text_bytes(s: &str) -> (r: u64)
    requires
        s@.len() < u32::MAX,
    ensures
        r == byte_len(s@),
        r <= 4 * s@.len(),
{
    let n = s.unicode_len();
    let mut total: u64 = 0;
    let mut k: usize = 0;
    assert(s@.take(0) =~= Seq::empty());
    while k < n
        invariant
            k <= n == s@.len(),
            n < u32::MAX,
            total == byte_len(s@.take(k as int)),
            total <= 4 * k,
        decreases n - k,
    {
        assert(s@.take(k + 1).drop_last() =~= s@.take(k as int));
        total = total + char_bytes(s.get_char(k));
        k = k + 1;
    }
    assert(s@.take(k as int) =~= s@);
    total
}

/// Writes a line and, under it, where a token stands on it.
pub fn fmt_line_part(text: &str, line: &str, index: usize) -> (r: String)
    requires
        text@.len() < u32::MAX,
        line@.len() < u32::MAX,
        index < u32::MAX,
    ensures
        r@ == line_part(text@, line@, index as int),
{
    let width = text_bytes(text);
    let mut out = line.to_owned();
    out.append("\n");
    let ghost head = out@;
    let n = line.unicode_len();
    let mut i: u64 = 0;
    let mut k: usize = 0;
    assert(line@.take(0) =~= Seq::empty());
    assert(head + marks(line@.take(0), index as int, width as int) =~= head);
    while k < n
        invariant
            k <= n == line@.len(),
            n < u32::MAX,
            index < u32::MAX,
            width <= 4 * u32::MAX,
            i == byte_len(line@.take(k as int)),
            i <= 4 * k,
            out@ == head + marks(line@.take(k as int), index as int, width as int),
        decreases n - k,
    {
        let ghost before = marks(line@.take(k as int), index as int, width as int);
        assert(line@.take(k + 1).drop_last() =~= line@.take(k as int));
        if i < index as u64 {
            out.append(" ");
            assert((head + before) + " "@ =~= head + (before + " "@));
        } else if i < index as u64 + width {
            out.append("^");
            assert((head + before) + "^"@ =~= head + (before + "^"@));
        }
        i = i + char_bytes(line.get_char(k));
        k = k + 1;
    }
    assert(line@.take(k as int) =~= line@);
    if index as u64 >= i {
        out.append("^");
    } else {
        assert(out@ + Seq::<char>::empty() =~= out@);
    }
    out.append("\n");
    out
}

impl Error {
    /// An error at one token.
    pub fn at(token: &Token, message: &str) -> (r: Self)
        ensures
            r@ == ErrorV::at(token@, message@),
    {
        Error {
            message: message.to_owned(),
            first_token: token.clone(),
            last_token: token.clone(),
            secondary: false,
        }
    }

    /// An error that covers the tokens from one to another.
    pub fn new(first_token: &Token, last_token: &Token, message: &str) -> (r: Self)
        ensures
            r@ == (ErrorV {
                first_token: first_token@,
                last_token: last_token@,
                message: message@,
                secondary: false,
            }),
    {
        Error {
            first_token: first_token.clone(),
            last_token: last_token.clone(),
            message: message.to_owned(),
            secondary: false,
        }
    }

    /// An error whose first cause lies in another module.
    pub fn secondary(first_token: &Token, last_token: &Token, message: &str) -> (r: Self)
        ensures
            r@ == (ErrorV {
                first_token: first_token@,
                last_token: last_token@,
                message: message@,
                secondary: true,
            }),
    {
        Error {
            first_token: first_token.clone(),
            last_token: last_token.clone(),
            message: message.to_owned(),
            secondary: true,
        }
    }

    /// The stretch of source that the error covers.
    pub fn range(&self) -> (r: Range)
        ensures
            r == (Range { start: self@.first_token.start_pos(), end: self@.last_token.end_pos() }),
    {
        Range { start: self.first_token.start_pos(), end: self.last_token.end_pos() }
    }

    /// The message, and under it the place on its line.
    pub fn to_text(&self) -> (r: String)
        requires
            self@.first_token.text.len() < u32::MAX,
            self@.first_token.line.len() < u32::MAX,
            self@.first_token.start < u32::MAX,
        ensures
            r@ == self@.message + ":\n"@ + line_part(
                self@.first_token.text,
                self@.first_token.line,
                self@.first_token.start as int,
            ),
    {
        let mut out = self.message.clone();
        out.append(":\n");
        let part = fmt_line_part(
            self.first_token.text(),
            self.first_token.line.as_str(),
            self.first_token.start as usize,
        );
        out.append(part.as_str());
        out
    }
}

/// What can report errors at places of its own.
pub trait ErrorSource {
    /// The place that errors are reported at.
    spec fn place(&self) -> (TokenV, TokenV);

    /// An error at this place.
    fn error(&self, message: &str) -> (r: Error)
        ensures
            r@ == (ErrorV {
                first_token: self.place().0,
                last_token: self.place().1,
                message: message@,
                secondary: false,
            }),
    ;
}

impl ErrorSource for Token {
    open spec fn place(&self) -> (TokenV, TokenV) {
        (self@, self@)
    }

    fn error(&self, message: &str) -> (r: Error) {
        Error::new(self, self, message)
    }
}

} // verus!
