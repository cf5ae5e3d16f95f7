//! Tokenization of source code.
//!
//! The grammar is modeled by the spec scanners ([`lex_next`] and its
//! helpers), which walk a `Seq<char>` and say, for every source, which token
//! comes next and what input remains. The executable [`Lexer`] is proved to
//! follow them exactly. After the first malformed token the rest of the
//! source is discarded: lexing is a hard stop, not a skip-and-continue.

use vstd::prelude::*;
use crate::text::{chars_to_string, is_digit_char, str_to_chars};

verus! {

/// Possible errors due to a lexer operation.
#[derive(PartialEq, Eq, Clone, Copy, Debug)]
pub enum Error {
    UnknownEscape,
    IncompleteEscape,
    UnknownToken,
    UnclosedComment,
    UnclosedString,
    MalformedNumber,
}

impl Error {
    /// Whether this error is recoverable if more input is provided.
    pub fn is_recoverable(&self) -> (r: bool)
        ensures
            r == (*self is IncompleteEscape || *self is UnclosedComment || *self
                is UnclosedString),
    {
        match *self {
            Error::IncompleteEscape | Error::UnclosedComment | Error::UnclosedString => true,
            _ => false,
        }
    }
}

/// Input tokens produced by the lexer.
#[derive(PartialEq, Eq, Clone, Debug)]
pub enum Token {
    Integer(String),
    Float(String),
    String(String),
    Symbol(String),
    Call(String),
    OpenBrace,
    CloseBrace,
    Whitespace,
    Comment,
}

/// Ghost model of a [`Token`].
#[verifier::ext_equal]
pub ghost enum TokenView {
    Integer(Seq<char>),
    Float(Seq<char>),
    Str(Seq<char>),
    Symbol(Seq<char>),
    Call(Seq<char>),
    OpenBrace,
    CloseBrace,
    Whitespace,
    Comment,
}

impl View for Token {
    type V = TokenView;

    open spec fn view(&self) -> TokenView {
        match self {
            Token::Integer(s) => TokenView::Integer(s@),
            Token::Float(s) => TokenView::Float(s@),
            Token::String(s) => TokenView::Str(s@),
            Token::Symbol(s) => TokenView::Symbol(s@),
            Token::Call(s) => TokenView::Call(s@),
            Token::OpenBrace => TokenView::OpenBrace,
            Token::CloseBrace => TokenView::CloseBrace,
            Token::Whitespace => TokenView::Whitespace,
            Token::Comment => TokenView::Comment,
        }
    }
}

/// The characters the grammar treats as whitespace (the Unicode
/// `White_Space` set, as `char::is_whitespace` documents it).
pub open spec fn is_ws_char(c: char) -> bool {
    let u = c as u32;
    ||| u == 0x9
    ||| u == 0xA
    ||| u == 0xB
    ||| u == 0xC
    ||| u == 0xD
    ||| u == 0x20
    ||| u == 0x85
    ||| u == 0xA0
    ||| u == 0x1680
    ||| (0x2000 <= u && u <= 0x200A)
    ||| u == 0x2028
    ||| u == 0x2029
    ||| u == 0x202F
    ||| u == 0x205F
    ||| u == 0x3000
}

/// Decide [`is_ws_char`] on one character.
pub fn is_whitespace_char(c: char) -> (r: bool)
    ensures
        r == is_ws_char(c),
{
    let u = c as u32;
    u == 0x9 || u == 0xA || u == 0xB || u == 0xC || u == 0xD || u == 0x20 || u == 0x85
        || u == 0xA0 || u == 0x1680 || (0x2000 <= u && u <= 0x200A) || u == 0x2028 || u == 0x2029
        || u == 0x202F || u == 0x205F || u == 0x3000
}

/// Whitespace or a closing brace: the characters that end a bare name.
pub open spec fn is_ws_or_close(c: char) -> bool {
    is_ws_char(c) || c == '}'
}

/// Decide [`is_ws_or_close`] on one character.
#[inline(always)]
pub fn is_whitespace_or_close_brace(c: char) -> (r: bool)
    ensures
        r == is_ws_or_close(c),
{
    is_whitespace_char(c) || c == '}'
}

/// What one escape character after a backslash decodes to.
pub open spec fn esc_char(c: char) -> Result<char, Error> {
    if c == '"' {
        Ok('"')
    } else if c == 'n' {
        Ok('\n')
    } else if c == 'r' {
        Ok('\r')
    } else if c == 't' {
        Ok('\t')
    } else {
        Err(Error::UnknownEscape)
    }
}

/// The input left after a whitespace run.
pub open spec fn skip_ws(s: Seq<char>) -> Seq<char>
    decreases s.len(),
{
    if s.len() == 0 {
        s
    } else if is_ws_char(s[0]) {
        skip_ws(s.drop_first())
    } else {
        s
    }
}

/// The numeric token for a digit run, by whether a decimal point was seen.
pub open spec fn num_token(acc: Seq<char>, seen_dot: bool) -> TokenView {
    if seen_dot {
        TokenView::Float(acc)
    } else {
        TokenView::Integer(acc)
    }
}

/// Scan a numeric literal: digits and at most one embedded decimal point,
/// ended by whitespace, a closing brace or the end of input; anything else
/// in the run is a malformed number.
pub open spec fn scan_number(s: Seq<char>, acc: Seq<char>, seen_dot: bool) -> (Result<
    TokenView,
    Error,
>, Seq<char>)
    decreases s.len(),
{
    if s.len() == 0 {
        (Ok(num_token(acc, seen_dot)), s)
    } else if is_digit_char(s[0]) {
        scan_number(s.drop_first(), acc.push(s[0]), seen_dot)
    } else if !seen_dot && s[0] == '.' {
        scan_number(s.drop_first(), acc.push('.'), true)
    } else if is_ws_or_close(s[0]) {
        (Ok(num_token(acc, seen_dot)), s)
    } else {
        (Err(Error::MalformedNumber), s.drop_first())
    }
}

/// The input left after a `#` comment: everything up to and including the
/// next newline, or all of it.
pub open spec fn skip_line_comment(s: Seq<char>) -> Seq<char>
    decreases s.len(),
{
    if s.len() == 0 {
        s
    } else if s[0] == '\n' {
        s.drop_first()
    } else {
        skip_line_comment(s.drop_first())
    }
}

/// Scan a parenthesis comment up to its closing `)`; the end of input first
/// is an unclosed comment.
pub open spec fn scan_multi_comment(s: Seq<char>) -> (Result<(), Error>, Seq<char>)
    decreases s.len(),
{
    if s.len() == 0 {
        (Err(Error::UnclosedComment), s)
    } else if s[0] == ')' {
        (Ok(()), s.drop_first())
    } else {
        scan_multi_comment(s.drop_first())
    }
}

/// Scan a string literal after its opening quote, decoding escapes, up to
/// the closing quote.
pub open spec fn scan_string(s: Seq<char>, acc: Seq<char>) -> (Result<Seq<char>, Error>, Seq<char>)
    decreases s.len(),
{
    if s.len() == 0 {
        (Err(Error::UnclosedString), s)
    } else if s[0] == '\\' {
        if s.len() == 1 {
            (Err(Error::IncompleteEscape), s.skip(1))
        } else {
            match esc_char(s[1]) {
                Ok(c) => scan_string(s.skip(2), acc.push(c)),
                Err(e) => (Err(e), s.skip(2)),
            }
        }
    } else if s[0] == '"' {
        (Ok(acc), s.drop_first())
    } else {
        scan_string(s.drop_first(), acc.push(s[0]))
    }
}

/// Scan a bare name: everything up to whitespace, a closing brace or the
/// end of input.
pub open spec fn scan_symbol(s: Seq<char>, acc: Seq<char>) -> (Seq<char>, Seq<char>)
    decreases s.len(),
{
    if s.len() == 0 {
        (acc, s)
    } else if is_ws_or_close(s[0]) {
        (acc, s)
    } else {
        scan_symbol(s.drop_first(), acc.push(s[0]))
    }
}

/// The next token of the input and what remains after it, or `None` at the
/// end of input. This is the token grammar in dispatch priority: whitespace,
/// numbers, the two comment forms, strings, braces, symbols, calls.
pub open spec fn lex_next(s: Seq<char>) -> Option<(Result<TokenView, Error>, Seq<char>)> {
    if s.len() == 0 {
        None
    } else {
        let c = s[0];
        let rest = s.drop_first();
        if is_ws_char(c) {
            Some((Ok(TokenView::Whitespace), skip_ws(rest)))
        } else if is_digit_char(c) {
            Some(scan_number(s, Seq::empty(), false))
        } else if c == '#' {
            Some((Ok(TokenView::Comment), skip_line_comment(rest)))
        } else if c == '(' {
            let (r, rem) = scan_multi_comment(rest);
            match r {
                Ok(u) => Some((Ok(TokenView::Comment), rem)),
                Err(e) => Some((Err(e), rem)),
            }
        } else if c == '"' {
            let (r, rem) = scan_string(rest, Seq::empty());
            match r {
                Ok(txt) => Some((Ok(TokenView::Str(txt)), rem)),
                Err(e) => Some((Err(e), rem)),
            }
        } else if c == '{' {
            Some((Ok(TokenView::OpenBrace), rest))
        } else if c == '}' {
            Some((Ok(TokenView::CloseBrace), rest))
        } else if c == ':' {
            let (name, rem) = scan_symbol(rest, Seq::empty());
            Some((Ok(TokenView::Symbol(name)), rem))
        } else {
            let (name, rem) = scan_symbol(s, Seq::empty());
            Some((Ok(TokenView::Call(name)), rem))
        }
    }
}

/// A whitespace run never grows the input.
pub proof fn lemma_skip_ws_len(s: Seq<char>)
    ensures
        skip_ws(s).len() <= s.len(),
    decreases s.len(),
{
    if s.len() > 0 && is_ws_char(s[0]) {
        lemma_skip_ws_len(s.drop_first());
    }
}

/// A numeric scan never grows the input.
pub proof fn lemma_scan_number_len(s: Seq<char>, acc: Seq<char>, seen_dot: bool)
    ensures
        scan_number(s, acc, seen_dot).1.len() <= s.len(),
    decreases s.len(),
{
    if s.len() > 0 {
        if is_digit_char(s[0]) {
            lemma_scan_number_len(s.drop_first(), acc.push(s[0]), seen_dot);
        } else if !seen_dot && s[0] == '.' {
            lemma_scan_number_len(s.drop_first(), acc.push('.'), true);
        }
    }
}

/// A line comment never grows the input.
pub proof fn lemma_skip_line_comment_len(s: Seq<char>)
    ensures
        skip_line_comment(s).len() <= s.len(),
    decreases s.len(),
{
    if s.len() > 0 && s[0] != '\n' {
        lemma_skip_line_comment_len(s.drop_first());
    }
}

/// A parenthesis comment never grows the input.
pub proof fn lemma_scan_multi_comment_len(s: Seq<char>)
    ensures
        scan_multi_comment(s).1.len() <= s.len(),
    decreases s.len(),
{
    if s.len() > 0 && s[0] != ')' {
        lemma_scan_multi_comment_len(s.drop_first());
    }
}

/// A string scan never grows the input.
pub proof fn lemma_scan_string_len(s: Seq<char>, acc: Seq<char>)
    ensures
        scan_string(s, acc).1.len() <= s.len(),
    decreases s.len(),
{
    if s.len() > 0 {
        if s[0] == '\\' {
            if s.len() > 1 {
                match esc_char(s[1]) {
                    Ok(c) => {
                        lemma_scan_string_len(s.skip(2), acc.push(c));
                    },
                    Err(e) => {},
                }
            }
        } else if s[0] != '"' {
            lemma_scan_string_len(s.drop_first(), acc.push(s[0]));
        }
    }
}

/// A name scan never grows the input.
pub proof fn lemma_scan_symbol_len(s: Seq<char>, acc: Seq<char>)
    ensures
        scan_symbol(s, acc).1.len() <= s.len(),
    decreases s.len(),
{
    if s.len() > 0 && !is_ws_or_close(s[0]) {
        lemma_scan_symbol_len(s.drop_first(), acc.push(s[0]));
    }
}

/// Producing a token strictly shrinks the input: the ground for the
/// parser's termination.
pub proof fn lemma_lex_next_consumes(s: Seq<char>)
    ensures
        lex_next(s) matches Some((r, rem)) ==> rem.len() < s.len(),
{
    if s.len() > 0 {
        let c = s[0];
        let rest = s.drop_first();
        if is_ws_char(c) {
            lemma_skip_ws_len(rest);
        } else if is_digit_char(c) {
            lemma_scan_number_len(rest, Seq::empty().push(c), false);
        } else if c == '#' {
            lemma_skip_line_comment_len(rest);
        } else if c == '(' {
            lemma_scan_multi_comment_len(rest);
        } else if c == '"' {
            lemma_scan_string_len(rest, Seq::empty());
        } else if c == '{' || c == '}' {
        } else if c == ':' {
            lemma_scan_symbol_len(rest, Seq::empty());
        } else {
            lemma_scan_symbol_len(rest, Seq::empty().push(c));
        }
    }
}

/// A name scan over a name followed by a terminator reads off exactly the
/// name and stops at the terminator.
pub proof fn lemma_scan_symbol_concat(name: Seq<char>, tail: Seq<char>, acc: Seq<char>)
    requires
        forall|i: int| 0 <= i < name.len() ==> !is_ws_or_close(#[trigger] name[i]),
        tail.len() == 0 || is_ws_or_close(tail[0]),
    ensures
        scan_symbol(name + tail, acc) == (acc + name, tail),
    decreases name.len(),
{
    let s = name + tail;
    if name.len() == 0 {
        assert(s =~= tail);
        assert(acc + name =~= acc);
    } else {
        assert(s[0] == name[0]);
        assert(s.drop_first() =~= name.drop_first() + tail);
        lemma_scan_symbol_concat(name.drop_first(), tail, acc.push(name[0]));
        assert(acc.push(name[0]) + name.drop_first() =~= acc + name);
    }
}

/// A numeric scan over a digit run followed by a terminator reads off
/// exactly an integer token of those digits.
pub proof fn lemma_scan_number_concat(digits: Seq<char>, tail: Seq<char>, acc: Seq<char>)
    requires
        crate::text::all_digits(digits),
        tail.len() == 0 || is_ws_or_close(tail[0]),
    ensures
        scan_number(digits + tail, acc, false) == (
            Ok::<TokenView, Error>(TokenView::Integer(acc + digits)),
            tail,
        ),
    decreases digits.len(),
{
    let s = digits + tail;
    if digits.len() == 0 {
        assert(s =~= tail);
        assert(acc + digits =~= acc);
    } else {
        assert(s[0] == digits[0]);
        assert(is_digit_char(digits[0]));
        assert(s.drop_first() =~= digits.drop_first() + tail);
        assert(crate::text::all_digits(digits.drop_first()));
        lemma_scan_number_concat(digits.drop_first(), tail, acc.push(digits[0]));
        assert(acc.push(digits[0]) + digits.drop_first() =~= acc + digits);
    }
}

/// A numeric scan only ever yields a numeric token.
pub proof fn lemma_scan_number_shape(s: Seq<char>, acc: Seq<char>, seen_dot: bool)
    ensures
        scan_number(s, acc, seen_dot).0 matches Ok(t) ==> (t is Integer || t is Float),
    decreases s.len(),
{
    if s.len() > 0 {
        if is_digit_char(s[0]) {
            lemma_scan_number_shape(s.drop_first(), acc.push(s[0]), seen_dot);
        } else if !seen_dot && s[0] == '.' {
            lemma_scan_number_shape(s.drop_first(), acc.push('.'), true);
        }
    }
}

/// One space before non-whitespace input is all the whitespace there is.
pub proof fn lemma_skip_ws_space(rest: Seq<char>)
    requires
        rest.len() == 0 || !is_ws_char(rest[0]),
    ensures
        skip_ws(seq![' '] + rest) == rest,
{
    let s = seq![' '] + rest;
    assert(is_ws_char(s[0]));
    assert(s.drop_first() =~= rest);
    assert(skip_ws(rest) == rest);
    assert(skip_ws(s) == skip_ws(s.drop_first()));
}

/// A string scan over escaped text followed by a closing quote reads off
/// exactly the original text.
pub proof fn lemma_scan_string_concat(content: Seq<char>, tail: Seq<char>, acc: Seq<char>)
    requires
        forall|i: int| 0 <= i < content.len() ==> #[trigger] content[i] != '\\',
    ensures
        scan_string(crate::item::escape_str(content) + (seq!['"'] + tail), acc) == (
            Ok::<Seq<char>, Error>(acc + content),
            tail,
        ),
    decreases content.len(),
{
    let s = crate::item::escape_str(content) + (seq!['"'] + tail);
    if content.len() == 0 {
        assert(s =~= seq!['"'] + tail);
        assert(s[0] == '"');
        assert(s.drop_first() =~= tail);
        assert(acc + content =~= acc);
    } else {
        let c = content[0];
        let esc = crate::item::esc_of(c);
        assert(s =~= esc + (crate::item::escape_str(content.drop_first()) + (seq!['"'] + tail)));
        lemma_scan_string_concat(content.drop_first(), tail, acc.push(c));
        assert(acc.push(c) + content.drop_first() =~= acc + content);
        if c == '"' || c == '\n' || c == '\r' || c == '\t' {
            assert(s[0] == '\\');
            assert(s.len() >= 2);
            assert(s[1] == esc[1]);
            assert(esc_char(s[1]) == Ok::<char, Error>(c));
            assert(s.skip(2) =~= crate::item::escape_str(content.drop_first()) + (seq!['"']
                + tail));
        } else {
            assert(s[0] == c);
            assert(c != '\\' && c != '"');
            assert(s.drop_first() =~= crate::item::escape_str(content.drop_first()) + (seq!['"']
                + tail));
        }
    }
}

/// Every char a name scan reads off came from the input or the seed, so
/// none is whitespace or a closing brace; the seed stays as a prefix.
pub proof fn lemma_scan_symbol_chars(s: Seq<char>, acc: Seq<char>)
    requires
        forall|i: int| 0 <= i < acc.len() ==> !is_ws_or_close(#[trigger] acc[i]),
    ensures
        forall|i: int|
            0 <= i < scan_symbol(s, acc).0.len() ==> !is_ws_or_close(
                #[trigger] scan_symbol(s, acc).0[i],
            ),
        scan_symbol(s, acc).0.len() >= acc.len(),
        forall|i: int| 0 <= i < acc.len() ==> #[trigger] scan_symbol(s, acc).0[i] == acc[i],
    decreases s.len(),
{
    if s.len() > 0 && !is_ws_or_close(s[0]) {
        lemma_scan_symbol_chars(s.drop_first(), acc.push(s[0]));
    }
}

/// No backslash ever comes out of a string scan: raw backslashes open
/// escapes, and no escape decodes to one.
pub proof fn lemma_scan_string_no_backslash(s: Seq<char>, acc: Seq<char>)
    requires
        forall|i: int| 0 <= i < acc.len() ==> #[trigger] acc[i] != '\\',
    ensures
        scan_string(s, acc).0 matches Ok(txt) ==> forall|i: int|
            0 <= i < txt.len() ==> #[trigger] txt[i] != '\\',
    decreases s.len(),
{
    if s.len() > 0 {
        if s[0] == '\\' {
            if s.len() > 1 {
                match esc_char(s[1]) {
                    Ok(c) => {
                        assert(c != '\\');
                        lemma_scan_string_no_backslash(s.skip(2), acc.push(c));
                    },
                    Err(e) => {},
                }
            }
        } else if s[0] != '"' {
            lemma_scan_string_no_backslash(s.drop_first(), acc.push(s[0]));
        }
    }
}

/// Yield chars while allowing one char to be "replaced" to be yielded again.
///
/// In the case that a char must be popped in order to determine if it
/// belongs in the current token, `replace` can be used to remember it for
/// the start of the next token. This works as long as the lexer grammar
/// needs only one char of lookahead.
pub struct ReplaceOneChars {
    pub chars: Vec<char>,
    pub pos: usize,
    pub replaced: Option<char>,
}

impl View for ReplaceOneChars {
    type V = Seq<char>;

    open spec fn view(&self) -> Seq<char> {
        let rest = self.chars@.skip(self.pos as int);
        match self.replaced {
            Some(c) => seq![c] + rest,
            None => rest,
        }
    }
}

impl ReplaceOneChars {
    /// The read position never passes the end of the characters.
    pub open spec fn wf(&self) -> bool {
        self.pos <= self.chars@.len()
    }

    /// Start reading the given characters from the beginning.
    pub fn new(chars: Vec<char>) -> (r: ReplaceOneChars)
        ensures
            r.wf(),
            r@ == chars@,
            r.replaced is None,
    {
        let r = ReplaceOneChars { chars, pos: 0, replaced: None };
        proof {
            assert(r@ =~= r.chars@);
        }
        r
    }

    /// Remember `c` to be yielded before the remaining characters. A char
    /// already remembered is dropped in its favor.
    pub fn replace(&mut self, c: char)
        ensures
            final(self).wf() == old(self).wf(),
            final(self).replaced is Some,
            old(self).replaced is None ==> final(self)@ == seq![c] + old(self)@,
            old(self).replaced is Some ==> final(self)@ == seq![c] + old(self)@.drop_first(),
    {
        self.replaced = Some(c);
        proof {
            if old(self).replaced is None {
                assert(final(self)@ =~= seq![c] + old(self)@);
            } else {
                assert(final(self)@ =~= seq![c] + old(self)@.drop_first());
            }
        }
    }

    /// Yield the next character: the remembered one if any, else the next
    /// unread one.
    pub fn next(&mut self) -> (r: Option<char>)
        requires
            old(self).wf(),
        ensures
            final(self).wf(),
            final(self).replaced is None,
            old(self)@.len() == 0 ==> r is None && final(self)@ == old(self)@,
            old(self)@.len() > 0 ==> r == Some(old(self)@[0]) && final(self)@ == old(
                self,
            )@.drop_first(),
    {
        match self.replaced {
            Some(c) => {
                self.replaced = None;
                proof {
                    assert(final(self)@ =~= old(self)@.drop_first());
                }
                Some(c)
            },
            None => {
                if self.pos < self.chars.len() {
                    let c = self.chars[self.pos];
                    self.pos = self.pos + 1;
                    proof {
                        assert(final(self)@ =~= old(self)@.drop_first());
                    }
                    Some(c)
                } else {
                    proof {
                        assert(old(self)@.len() == 0);
                    }
                    None
                }
            },
        }
    }
}

/// The lexer: a tokenizer over a source string. Repeated [`Lexer::next_token`]
/// calls walk the source until it is fully tokenized or an error is met.
pub struct Lexer {
    pub chars: ReplaceOneChars,
}

impl View for Lexer {
    type V = Seq<char>;

    open spec fn view(&self) -> Seq<char> {
        self.chars@
    }
}

impl Lexer {
    /// See [`ReplaceOneChars::wf`].
    pub open spec fn wf(&self) -> bool {
        self.chars.wf()
    }

    /// Create a new lexer over the provided source code.
    pub fn new(src: &str) -> (r: Lexer)
        ensures
            r.wf(),
            r@ == src@,
    {
        Lexer { chars: ReplaceOneChars::new(str_to_chars(src)) }
    }

    /// Consume any remaining chars in the underlying source.
    fn consume(&mut self)
        ensures
            final(self).wf(),
            final(self)@.len() == 0,
    {
        self.chars.pos = self.chars.chars.len();
        self.chars.replaced = None;
    }

    fn whitespace(&mut self) -> (r: Result<Token, Error>)
        requires
            old(self).wf(),
        ensures
            final(self).wf(),
            r matches Ok(t) && t@ == TokenView::Whitespace,
            final(self)@ == skip_ws(old(self)@),
    {
        loop
            invariant
                self.wf(),
                skip_ws(self@) == skip_ws(old(self)@),
            decreases self@.len(),
        {
            match self.chars.next() {
                Some(c) => {
                    if !is_whitespace_char(c) {
                        self.chars.replace(c);
                        return Ok(Token::Whitespace);
                    }
                },
                None => {
                    return Ok(Token::Whitespace);
                },
            }
        }
    }

    fn number(&mut self) -> (r: Result<Token, Error>)
        requires
            old(self).wf(),
        ensures
            final(self).wf(),
            match scan_number(old(self)@, Seq::empty(), false) {
                (Ok(t), rem) => {
                    &&& r matches Ok(tok) && tok@ == t
                    &&& final(self)@ == rem
                },
                (Err(e), rem) => {
                    &&& r matches Err(e2) && e2 == e
                    &&& final(self)@ == rem
                },
            },
    {
        let mut s: Vec<char> = Vec::new();
        let mut is_float = false;
        loop
            invariant
                self.wf(),
                scan_number(self@, s@, is_float) == scan_number(old(self)@, Seq::empty(), false),
            decreases self@.len(),
        {
            match self.chars.next() {
                Some(c) => {
                    if c as u32 >= 48 && c as u32 <= 57 {
                        s.push(c);
                    } else if !is_float && c == '.' {
                        is_float = true;
                        s.push(c);
                    } else if is_whitespace_or_close_brace(c) {
                        self.chars.replace(c);
                        return Ok(
                            if is_float {
                                Token::Float(chars_to_string(&s))
                            } else {
                                Token::Integer(chars_to_string(&s))
                            },
                        );
                    } else {
                        return Err(Error::MalformedNumber);
                    }
                },
                None => {
                    return Ok(
                        if is_float {
                            Token::Float(chars_to_string(&s))
                        } else {
                            Token::Integer(chars_to_string(&s))
                        },
                    );
                },
            }
        }
    }

    fn comment(&mut self) -> (r: Result<Token, Error>)
        requires
            old(self).wf(),
        ensures
            final(self).wf(),
            r matches Ok(t) && t@ == TokenView::Comment,
            final(self)@ == skip_line_comment(old(self)@),
    {
        loop
            invariant
                self.wf(),
                skip_line_comment(self@) == skip_line_comment(old(self)@),
            decreases self@.len(),
        {
            match self.chars.next() {
                Some(c) => {
                    if c == '\n' {
                        return Ok(Token::Comment);
                    }
                },
                None => {
                    return Ok(Token::Comment);
                },
            }
        }
    }

    fn multi_comment(&mut self) -> (r: Result<Token, Error>)
        requires
            old(self).wf(),
        ensures
            final(self).wf(),
            match scan_multi_comment(old(self)@) {
                (Ok(u), rem) => {
                    &&& r matches Ok(t) && t@ == TokenView::Comment
                    &&& final(self)@ == rem
                },
                (Err(e), rem) => {
                    &&& r matches Err(e2) && e2 == e
                    &&& final(self)@ == rem
                },
            },
    {
        loop
            invariant
                self.wf(),
                scan_multi_comment(self@) == scan_multi_comment(old(self)@),
            decreases self@.len(),
        {
            match self.chars.next() {
                Some(c) => {
                    if c == ')' {
                        return Ok(Token::Comment);
                    }
                },
                None => {
                    return Err(Error::UnclosedComment);
                },
            }
        }
    }

    fn escape(&mut self) -> (r: Result<char, Error>)
        requires
            old(self).wf(),
        ensures
            final(self).wf(),
            old(self)@.len() == 0 ==> {
                &&& r matches Err(e) && e == Error::IncompleteEscape
                &&& final(self)@ == old(self)@
            },
            old(self)@.len() > 0 ==> {
                &&& r == esc_char(old(self)@[0])
                &&& final(self)@ == old(self)@.drop_first()
            },
    {
        match self.chars.next() {
            Some(c) => match c {
                '"' => Ok('"'),
                'n' => Ok('\n'),
                'r' => Ok('\r'),
                't' => Ok('\t'),
                _ => Err(Error::UnknownEscape),
            },
            None => Err(Error::IncompleteEscape),
        }
    }

    fn string(&mut self) -> (r: Result<Token, Error>)
        requires
            old(self).wf(),
        ensures
            final(self).wf(),
            match scan_string(old(self)@, Seq::empty()) {
                (Ok(txt), rem) => {
                    &&& r matches Ok(tok) && tok@ == TokenView::Str(txt)
                    &&& final(self)@ == rem
                },
                (Err(e), rem) => {
                    &&& r matches Err(e2) && e2 == e
                    &&& final(self)@ == rem
                },
            },
    {
        let mut s: Vec<char> = Vec::new();
        loop
            invariant
                self.wf(),
                scan_string(self@, s@) == scan_string(old(self)@, Seq::empty()),
            decreases self@.len(),
        {
            let ghost pre = self@;
            match self.chars.next() {
                Some(c) => match c {
                    '\\' => {
                        match self.escape() {
                            Ok(d) => {
                                proof {
                                    assert(pre.drop_first().drop_first() =~= pre.skip(2));
                                }
                                s.push(d);
                            },
                            Err(e) => {
                                proof {
                                    if pre.drop_first().len() > 0 {
                                        assert(pre.drop_first().drop_first() =~= pre.skip(2));
                                    } else {
                                        assert(pre.drop_first() =~= pre.skip(1));
                                    }
                                }
                                return Err(e);
                            },
                        }
                    },
                    '"' => {
                        return Ok(Token::String(chars_to_string(&s)));
                    },
                    _ => {
                        s.push(c);
                    },
                },
                None => {
                    return Err(Error::UnclosedString);
                },
            }
        }
    }

    fn symbol(&mut self) -> (r: Result<String, Error>)
        requires
            old(self).wf(),
        ensures
            final(self).wf(),
            ({
                let (name, rem) = scan_symbol(old(self)@, Seq::empty());
                &&& r matches Ok(st) && st@ == name
                &&& final(self)@ == rem
            }),
    {
        let mut s: Vec<char> = Vec::new();
        loop
            invariant
                self.wf(),
                scan_symbol(self@, s@) == scan_symbol(old(self)@, Seq::empty()),
            decreases self@.len(),
        {
            match self.chars.next() {
                Some(c) => {
                    if is_whitespace_or_close_brace(c) {
                        self.chars.replace(c);
                        return Ok(chars_to_string(&s));
                    } else {
                        s.push(c);
                    }
                },
                None => {
                    return Ok(chars_to_string(&s));
                },
            }
        }
    }

    /// Produce the next token, or `None` at the end of the source. On an
    /// error the rest of the source is discarded: the following call
    /// returns `None`.
    pub fn next_token(&mut self) -> (r: Option<Result<Token, Error>>)
        requires
            old(self).wf(),
        ensures
            final(self).wf(),
            match lex_next(old(self)@) {
                None => r is None && final(self)@ == old(self)@,
                Some((Ok(t), rem)) => {
                    &&& r matches Some(res) && res matches Ok(tok) && tok@ == t
                    &&& final(self)@ == rem
                },
                Some((Err(e), rem)) => {
                    &&& r matches Some(res) && res matches Err(e2) && e2 == e
                    &&& final(self)@.len() == 0
                },
            },
    {
        let c = match self.chars.next() {
            Some(c) => c,
            None => {
                return None;
            },
        };
        let result = if is_whitespace_char(c) {
            self.whitespace()
        } else if c as u32 >= 48 && c as u32 <= 57 {
            self.chars.replace(c);
            proof {
                assert(self@ =~= old(self)@);
            }
            self.number()
        } else if c == '#' {
            self.comment()
        } else if c == '(' {
            self.multi_comment()
        } else if c == '"' {
            self.string()
        } else if c == '{' {
            Ok(Token::OpenBrace)
        } else if c == '}' {
            Ok(Token::CloseBrace)
        } else if c == ':' {
            match self.symbol() {
                Ok(s) => Ok(Token::Symbol(s)),
                Err(e) => Err(e),
            }
        } else {
            self.chars.replace(c);
            proof {
                assert(self@ =~= old(self)@);
            }
            match self.symbol() {
                Ok(s) => Ok(Token::Call(s)),
                Err(e) => Err(e),
            }
        };
        // If we have errored, the rest of the source is invalid.
        if result.is_err() {
            self.consume();
        }
        Some(result)
    }
}

} // verus!
