//! The lexer: scans a source string into [`Token`]s, one per call.
//!
//! The specification scanner [`slex`] gives the exact token (kind, span,
//! and resume position) that [`Lexer::next`] produces at each position:
//! whitespace is skipped, a sign directly followed by a digit folds into
//! the numeric token, and a string literal's span excludes its quotes.  A
//! character no rule covers, or a string the input ends inside of, is a
//! [`SyntaxError`] (the latter surfacing the end of input, which this
//! lexer reports rather than silently closing the string).

use vstd::prelude::*;
use vstd::string::*;
use crate::ast::SyntaxError;
use crate::text::{is_ws, is_digit, is_name_start, is_name_char, check_ws, check_digit,
    check_name_start, check_name_char};
use crate::token::{Span, Token, TokenKind};

verus! {

/// What scanning at a position yields: a token (kind, span `start..end`,
/// and the position `next` the scan stops at), or a refusal at an offset
/// (an unexpected character, or the opening quote of an unterminated
/// string).
pub enum Scan {
    Tok(TokenKind, int, int, int),
    Fail(int),
}

/// The end of the run of digits beginning at `i`.
pub open spec fn digits_end(src: Seq<char>, i: int) -> int
    decreases src.len() - i,
{
    if 0 <= i < src.len() && is_digit(src[i]) {
        digits_end(src, i + 1)
    } else {
        i
    }
}

/// The end of the run of name characters beginning at `i`.
pub open spec fn name_end(src: Seq<char>, i: int) -> int
    decreases src.len() - i,
{
    if 0 <= i < src.len() && is_name_char(src[i]) {
        name_end(src, i + 1)
    } else {
        i
    }
}

/// The position of the first `"` at or after `i`, or the length of the
/// source if there is none.
pub open spec fn quote_end(src: Seq<char>, i: int) -> int
    decreases src.len() - i,
{
    if 0 <= i < src.len() {
        if src[i] == '"' {
            i
        } else {
            quote_end(src, i + 1)
        }
    } else {
        src.len() as int
    }
}

/// The numeric token beginning at the digit at `pos`: a run of digits,
/// continued past a dot into a float.
pub open spec fn scan_number(src: Seq<char>, pos: int) -> Scan {
    let d = digits_end(src, pos);
    if d < src.len() && src[d] == '.' {
        Scan::Tok(TokenKind::Float, pos, digits_end(src, d + 1), digits_end(src, d + 1))
    } else {
        Scan::Tok(TokenKind::Int, pos, d, d)
    }
}

/// The token the lexer produces at `pos`.
pub open spec fn slex(src: Seq<char>, pos: int) -> Scan
    decreases src.len() - pos,
{
    if pos >= src.len() || pos < 0 {
        Scan::Tok(TokenKind::EOF, src.len() as int, src.len() as int, src.len() as int)
    } else {
        let c = src[pos];
        if is_ws(c) {
            slex(src, pos + 1)
        } else if is_digit(c) {
            scan_number(src, pos)
        } else if is_name_start(c) {
            Scan::Tok(TokenKind::Name, pos, name_end(src, pos + 1), name_end(src, pos + 1))
        } else if c == '+' || c == '-' {
            if pos + 1 < src.len() && is_digit(src[pos + 1]) {
                match scan_number(src, pos + 1) {
                    Scan::Tok(kind, _, _, np) => Scan::Tok(kind, pos, np, np),
                    r => r,
                }
            } else {
                Scan::Tok(TokenKind::Operator, pos, pos + 1, pos + 1)
            }
        } else if c == '"' {
            let e = quote_end(src, pos + 1);
            if e >= src.len() {
                Scan::Fail(pos)
            } else {
                Scan::Tok(TokenKind::Str, pos + 1, e, e + 1)
            }
        } else if c == '(' {
            Scan::Tok(TokenKind::OpenParen, pos, pos + 1, pos + 1)
        } else if c == ')' {
            Scan::Tok(TokenKind::CloseParen, pos, pos + 1, pos + 1)
        } else if c == '\'' {
            Scan::Tok(TokenKind::Quote, pos, pos + 1, pos + 1)
        } else if c == '*' || c == '/' || c == '>' || c == '<' || c == '=' {
            Scan::Tok(TokenKind::Operator, pos, pos + 1, pos + 1)
        } else {
            Scan::Fail(pos)
        }
    }
}

/// Every produced token is well-placed: its span lies inside the source
/// after the scanned position, the scan resumes at or after the span, and
/// only the end-of-input token fails to advance.
pub proof fn lemma_slex_bounds(src: Seq<char>, pos: int)
    requires
        0 <= pos <= src.len(),
    ensures
        match slex(src, pos) {
            Scan::Tok(kind, start, end, next) => {
                &&& 0 <= start <= end <= src.len()
                &&& end <= next <= src.len()
                &&& pos <= next
                &&& (kind is EOF ==> next == src.len())
                &&& (kind is EOF ==> start == end == next)
                &&& (!(kind is EOF) ==> pos < next)
                &&& (kind is Operator ==> end == start + 1)
            },
            Scan::Fail(p) => 0 <= p < src.len(),
        },
    decreases src.len() - pos,
{
    if pos < src.len() {
        let c = src[pos];
        if is_ws(c) {
            lemma_slex_bounds(src, pos + 1);
        } else if is_digit(c) {
            lemma_digits_end(src, pos);
            let d = digits_end(src, pos);
            if d < src.len() && src[d] == '.' {
                lemma_digits_end(src, d + 1);
            }
        } else if is_name_start(c) {
            lemma_name_end(src, pos + 1);
        } else if c == '+' || c == '-' {
            if pos + 1 < src.len() && is_digit(src[pos + 1]) {
                lemma_digits_end(src, pos + 1);
                let d = digits_end(src, pos + 1);
                if d < src.len() && src[d] == '.' {
                    lemma_digits_end(src, d + 1);
                }
            }
        } else if c == '"' {
            lemma_quote_end(src, pos + 1);
        }
    }
}

/// The digit run ends within the source, past its start, and the first
/// position at or after the start that holds a non-digit.
pub proof fn lemma_digits_end(src: Seq<char>, i: int)
    requires
        0 <= i <= src.len(),
    ensures
        i <= digits_end(src, i) <= src.len(),
        forall|j: int| i <= j < digits_end(src, i) ==> is_digit(#[trigger] src[j]),
        digits_end(src, i) < src.len() ==> !is_digit(src[digits_end(src, i)]),
        i < src.len() && is_digit(src[i]) ==> digits_end(src, i) > i,
    decreases src.len() - i,
{
    if i < src.len() && is_digit(src[i]) {
        lemma_digits_end(src, i + 1);
    }
}

/// As [`lemma_digits_end`], for runs of name characters.
pub proof fn lemma_name_end(src: Seq<char>, i: int)
    requires
        0 <= i <= src.len(),
    ensures
        i <= name_end(src, i) <= src.len(),
        forall|j: int| i <= j < name_end(src, i) ==> is_name_char(#[trigger] src[j]),
        name_end(src, i) < src.len() ==> !is_name_char(src[name_end(src, i)]),
    decreases src.len() - i,
{
    if i < src.len() && is_name_char(src[i]) {
        lemma_name_end(src, i + 1);
    }
}

/// The quote search ends at the first quote, or at the end of the source.
pub proof fn lemma_quote_end(src: Seq<char>, i: int)
    requires
        0 <= i <= src.len(),
    ensures
        i <= quote_end(src, i) <= src.len(),
        forall|j: int| i <= j < quote_end(src, i) ==> #[trigger] src[j] != '"',
        quote_end(src, i) < src.len() ==> src[quote_end(src, i)] == '"',
    decreases src.len() - i,
{
    if i < src.len() && src[i] != '"' {
        lemma_quote_end(src, i + 1);
    }
}

/// The lexer: the source as characters, and the position the next token
/// will be scanned from.
pub struct Lexer {
    src: Vec<char>,
    pos: usize,
}

impl Lexer {
    /// The characters of the source string.
    pub closed spec fn text(&self) -> Seq<char> {
        self.src@
    }

    /// The position scanning resumes from.
    pub closed spec fn cursor(&self) -> int {
        self.pos as int
    }

    /// The cursor never passes the end of the source.
    pub closed spec fn wf(&self) -> bool {
        self.pos <= self.src@.len()
    }

    /// Creates a new lexer over a source string.
    pub fn new(source: &str) -> (l: Lexer)
        ensures
            l.wf(),
            l.text() == source@,
            l.cursor() == 0,
    {
        let n = source.unicode_len();
        let mut chars: Vec<char> = Vec::new();
        let mut i: usize = 0;
        while i < n
            invariant
                i <= n,
                n == source@.len(),
                chars@.len() == i,
                forall|j: int| 0 <= j < i ==> chars@[j] == source@[j],
            decreases n - i,
        {
            let c = source.get_char(i);
            chars.push(c);
            i += 1;
        }
        proof {
            assert(chars@ =~= source@);
        }
        Lexer { src: chars, pos: 0 }
    }

    /// The character the lexer is on, or `'\0'` past the end of the
    /// source.
    pub fn current_char(&self) -> (c: char)
        requires
            self.wf(),
        ensures
            c == if self.cursor() < self.text().len() {
                self.text()[self.cursor()]
            } else {
                '\u{0}'
            },
    {
        if self.pos < self.src.len() {
            self.src[self.pos]
        } else {
            '\u{0}'
        }
    }

    /// Whether the lexer has reached the end of the source.
    pub fn eof(&self) -> (r: bool)
        requires
            self.wf(),
        ensures
            r == (self.cursor() == self.text().len()),
    {
        self.pos == self.src.len()
    }

    /// Advances past the run of digits at the cursor.
    fn take_digits(&mut self)
        requires
            old(self).wf(),
        ensures
            final(self).wf(),
            final(self).text() == old(self).text(),
            final(self).cursor() == digits_end(old(self).text(), old(self).cursor()),
    {
        loop
            invariant
                self.wf(),
                self.text() == old(self).text(),
                digits_end(self.text(), old(self).cursor()) == digits_end(
                    self.text(),
                    self.cursor(),
                ),
            decreases self.text().len() - self.cursor(),
        {
            if self.pos < self.src.len() {
                let c = self.src[self.pos];
                if check_digit(c) {
                    self.pos = self.pos + 1;
                    continue ;
                }
            }
            return ;
        }
    }

    /// Advances past the run of name characters at the cursor.
    fn take_name(&mut self)
        requires
            old(self).wf(),
        ensures
            final(self).wf(),
            final(self).text() == old(self).text(),
            final(self).cursor() == name_end(old(self).text(), old(self).cursor()),
    {
        loop
            invariant
                self.wf(),
                self.text() == old(self).text(),
                name_end(self.text(), old(self).cursor()) == name_end(self.text(), self.cursor()),
            decreases self.text().len() - self.cursor(),
        {
            if self.pos < self.src.len() {
                let c = self.src[self.pos];
                if check_name_char(c) {
                    self.pos = self.pos + 1;
                    continue ;
                }
            }
            return ;
        }
    }

    /// Advances to the next `"`, or to the end of the source.
    fn take_until_quote(&mut self)
        requires
            old(self).wf(),
        ensures
            final(self).wf(),
            final(self).text() == old(self).text(),
            final(self).cursor() == quote_end(old(self).text(), old(self).cursor()),
    {
        loop
            invariant
                self.wf(),
                self.text() == old(self).text(),
                quote_end(self.text(), old(self).cursor()) == quote_end(
                    self.text(),
                    self.cursor(),
                ),
            decreases self.text().len() - self.cursor(),
        {
            if self.pos < self.src.len() {
                let c = self.src[self.pos];
                if c != '"' {
                    self.pos = self.pos + 1;
                    continue ;
                }
            }
            return ;
        }
    }

    /// Scans the numeric token at the cursor, which must sit on a digit.
    fn take_number(&mut self) -> (kind: TokenKind)
        requires
            old(self).wf(),
            old(self).cursor() < old(self).text().len(),
            is_digit(old(self).text()[old(self).cursor()]),
        ensures
            final(self).wf(),
            final(self).text() == old(self).text(),
            scan_number(old(self).text(), old(self).cursor()) == Scan::Tok(
                kind,
                old(self).cursor(),
                final(self).cursor(),
                final(self).cursor(),
            ),
    {
        self.take_digits();
        proof {
            lemma_digits_end(self.text(), old(self).cursor());
        }
        if self.pos < self.src.len() && self.src[self.pos] == '.' {
            self.pos = self.pos + 1;
            self.take_digits();
            proof {
                lemma_digits_end(self.text(), old(self).cursor());
            }
            TokenKind::Float
        } else {
            TokenKind::Int
        }
    }

    /// Produces the next token, or a [`SyntaxError`] for a character no
    /// rule covers or a string literal the input ends inside of.
    pub fn next(&mut self) -> (r: Result<Token, SyntaxError>)
        requires
            old(self).wf(),
        ensures
            final(self).wf(),
            final(self).text() == old(self).text(),
            match r {
                Ok(t) => slex(old(self).text(), old(self).cursor()) == Scan::Tok(
                    t.kind,
                    t.span.start as int,
                    t.span.end as int,
                    final(self).cursor(),
                ),
                Err(_) => slex(old(self).text(), old(self).cursor()) is Fail,
            },
    {
        loop
            invariant
                self.wf(),
                self.text() == old(self).text(),
                slex(self.text(), old(self).cursor()) == slex(self.text(), self.cursor()),
            decreases self.text().len() - self.cursor(),
        {
            if self.pos >= self.src.len() {
                let n = self.src.len();
                return Ok(Token { kind: TokenKind::EOF, span: Span::new(n, n) });
            }
            let c = self.src[self.pos];
            if check_ws(c) {
                self.pos = self.pos + 1;
                continue ;
            }
            let start = self.pos;
            if check_digit(c) {
                let kind = self.take_number();
                return Ok(Token { kind, span: Span::new(start, self.pos) });
            }
            if check_name_start(c) {
                self.pos = self.pos + 1;
                self.take_name();
                proof {
                    lemma_name_end(self.text(), start + 1);
                }
                return Ok(Token { kind: TokenKind::Name, span: Span::new(start, self.pos) });
            }
            if c == '+' || c == '-' {
                if self.pos + 1 < self.src.len() && check_digit(self.src[self.pos + 1]) {
                    self.pos = self.pos + 1;
                    let _kind = self.take_number();
                    return Ok(Token { kind: _kind, span: Span::new(start, self.pos) });
                }
                self.pos = self.pos + 1;
                return Ok(Token { kind: TokenKind::Operator, span: Span::new(start, self.pos) });
            }
            if c == '"' {
                self.pos = self.pos + 1;
                self.take_until_quote();
                proof {
                    lemma_quote_end(self.text(), start + 1);
                }
                if self.pos >= self.src.len() {
                    return Err(
                        SyntaxError(
                            String::from_str("unexpected end of input inside a string literal"),
                        ),
                    );
                }
                let inner_end = self.pos;
                self.pos = self.pos + 1;
                return Ok(
                    Token { kind: TokenKind::Str, span: Span::new(start + 1, inner_end) },
                );
            }
            let kind = if c == '(' {
                TokenKind::OpenParen
            } else if c == ')' {
                TokenKind::CloseParen
            } else if c == '\'' {
                TokenKind::Quote
            } else if c == '*' || c == '/' || c == '>' || c == '<' || c == '=' {
                TokenKind::Operator
            } else {
                let mut msg = String::from_str("did not expect character ");
                crate::text::push_char(&mut msg, c);
                return Err(SyntaxError(msg));
            };
            self.pos = self.pos + 1;
            return Ok(Token { kind, span: Span::new(start, self.pos) });
        }
    }
}


/// An integer token is a nonempty digit run, allowing one leading sign.
pub proof fn lemma_slex_int_shape(src: Seq<char>, pos: int)
    requires
        0 <= pos <= src.len(),
    ensures
        match slex(src, pos) {
            Scan::Tok(kind, start, end, next) => kind is Int ==> {
                &&& start < end
                &&& (is_digit(src[start]) || src[start] == '+' || src[start] == '-')
                &&& (!is_digit(src[start]) ==> start + 1 < end)
                &&& forall|j: int| start + 1 <= j < end ==> is_digit(#[trigger] src[j])
            },
            Scan::Fail(_) => true,
        },
    decreases src.len() - pos,
{
    lemma_slex_bounds(src, pos);
    if pos < src.len() {
        let c = src[pos];
        if is_ws(c) {
            lemma_slex_int_shape(src, pos + 1);
        } else if is_digit(c) {
            lemma_digits_end(src, pos);
        } else if c == '+' || c == '-' {
            if pos + 1 < src.len() && is_digit(src[pos + 1]) {
                lemma_digits_end(src, pos + 1);
            }
        }
    }
}

impl Lexer {
    /// The character at offset `i` of the source.
    pub fn char_at(&self, i: usize) -> (c: char)
        requires
            self.wf(),
            i < self.text().len(),
        ensures
            c == self.text()[i as int],
    {
        self.src[i]
    }

    /// The text between two offsets, as a fresh string.
    pub fn slice(&self, start: usize, end: usize) -> (r: String)
        requires
            self.wf(),
            start <= end <= self.text().len(),
        ensures
            r@ == self.text().subrange(start as int, end as int),
    {
        let mut out = String::new();
        let mut i: usize = start;
        while i < end
            invariant
                self.wf(),
                start <= i <= end <= self.text().len(),
                out@ == self.text().subrange(start as int, i as int),
            decreases end - i,
        {
            let c = self.src[i];
            crate::text::push_char(&mut out, c);
            proof {
                assert(out@ =~= self.text().subrange(start as int, i + 1));
            }
            i += 1;
        }
        out
    }
}


impl Lexer {
    /// The cursor of a well-formed lexer sits inside the source.
    pub proof fn lemma_cursor_bounds(&self)
        requires
            self.wf(),
        ensures
            0 <= self.cursor() <= self.text().len(),
    {
    }
}

} // verus!
