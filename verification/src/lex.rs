//! The executable scanner: token definitions, the classifiers, and the
//! cursor that drives a whole scan.
//!
//! Every function here is specified against the mathematical model in
//! [`crate::scan`]; [`tokenize`] is proved to return exactly what the model
//! [`crate::scan::spec_tokens`] describes, token kinds, byte spans and
//! error chains included.

use vstd::prelude::*;
use vstd::string::{StrSliceExecFns, StringSliceAdditionalSpecFns};
use crate::codemap::Span;
use crate::errors::{Error, ErrorKind, SpecError, SpecErrorKind, spec_chain};
use crate::scan::{
    SpecTokenKind, block_comment_close, block_comment_open, byte_len, char_utf8_width,
    comment_run, digits_val, is_alnum_char, is_digit_char, is_ident_char, is_letter_char,
    is_ws_char,
    lemma_byte_len_is_utf8_len, lemma_byte_len_split, lemma_byte_len_take_concat,
    lemma_byte_len_take_injective, lemma_byte_len_take_le, lemma_byte_len_take_strict,
    lemma_byte_len_take_succ, lemma_comment_run_le, lemma_digits_val_prefix_le,
    lemma_digits_val_take_succ, lemma_ident_run_eq, lemma_pat_run_le, lemma_scan_token_bounds,
    lemma_skip_run_le, lemma_ws_run_eq, lemma_ws_run_le, line_comment_close, line_comment_open,
    msg_next_token, msg_no_matches, num_run, pat_run, plain_err, punct_kind, seq_starts_with,
    skip_run, spec_scan_identifier, spec_scan_number, spec_scan_token, spec_tokens,
    unicode_alphabetic, unicode_alphanumeric, unicode_whitespace, ws_run,
};

verus! {

/// What kind of token a lexeme is.  Value-carrying variants own their
/// payload text, so a token outlives the buffer it was scanned from.  A
/// decimal literal carries its exact digit text; turning that text into a
/// machine float is a consumer's concern and keeps the scanner exact.
#[derive(Debug, Clone, PartialEq)]
pub enum TokenKind {
    /// An integer literal and its value.
    Integer(usize),
    /// A decimal literal: the exact `<digits>.<digits>` text consumed.
    Decimal(String),
    /// A quoted string literal's contents.
    QuotedString(String),
    /// An identifier.
    Identifier(String),
    /// `$`, for string interpolation.
    Dollar,
    /// `#`, for companion references.
    Hash,
    /// `:`, namespaced symbol access.
    Colon,
    /// `_`, spacer, unused destructure or default case.
    Underscore,
    /// `.`, property access or decimal point.
    Dot,
    /// `?`, nullish type or throws operator.
    Question,
    /// `!`, boolean not or throws operator.
    Exclamation,
    /// `(`.
    OpenParen,
    /// `)`.
    CloseParen,
    /// `[`.
    OpenSquare,
    /// `]`.
    CloseSquare,
    /// `{`.
    OpenCurly,
    /// `}`.
    CloseCurly,
    /// `<`.
    OpenAngle,
    /// `>`.
    CloseAngle,
    /// `+`.
    Plus,
    /// `-`.
    Minus,
    /// `/`, division or comment opener.
    Slash,
    /// `*`.
    Asterisk,
    /// `|`.
    Pipe,
    /// `&`.
    Ampersand,
    /// `=`.
    Equals,
    /// End of file, for synthetic use by consumers.
    EOF,
}

impl View for TokenKind {
    type V = SpecTokenKind;

    open spec fn view(&self) -> SpecTokenKind {
        match self {
            TokenKind::Integer(n) => SpecTokenKind::Integer(*n as int),
            TokenKind::Decimal(s) => SpecTokenKind::Decimal(s@),
            TokenKind::QuotedString(s) => SpecTokenKind::QuotedString(s@),
            TokenKind::Identifier(s) => SpecTokenKind::Identifier(s@),
            TokenKind::Dollar => SpecTokenKind::Dollar,
            TokenKind::Hash => SpecTokenKind::Hash,
            TokenKind::Colon => SpecTokenKind::Colon,
            TokenKind::Underscore => SpecTokenKind::Underscore,
            TokenKind::Dot => SpecTokenKind::Dot,
            TokenKind::Question => SpecTokenKind::Question,
            TokenKind::Exclamation => SpecTokenKind::Exclamation,
            TokenKind::OpenParen => SpecTokenKind::OpenParen,
            TokenKind::CloseParen => SpecTokenKind::CloseParen,
            TokenKind::OpenSquare => SpecTokenKind::OpenSquare,
            TokenKind::CloseSquare => SpecTokenKind::CloseSquare,
            TokenKind::OpenCurly => SpecTokenKind::OpenCurly,
            TokenKind::CloseCurly => SpecTokenKind::CloseCurly,
            TokenKind::OpenAngle => SpecTokenKind::OpenAngle,
            TokenKind::CloseAngle => SpecTokenKind::CloseAngle,
            TokenKind::Plus => SpecTokenKind::Plus,
            TokenKind::Minus => SpecTokenKind::Minus,
            TokenKind::Slash => SpecTokenKind::Slash,
            TokenKind::Asterisk => SpecTokenKind::Asterisk,
            TokenKind::Pipe => SpecTokenKind::Pipe,
            TokenKind::Ampersand => SpecTokenKind::Ampersand,
            TokenKind::Equals => SpecTokenKind::Equals,
            TokenKind::EOF => SpecTokenKind::EOF,
        }
    }
}

impl From<String> for TokenKind {
    /// An owned string converts into an identifier token.
    fn from(other: String) -> (r: TokenKind) {
        TokenKind::Identifier(other)
    }
}

impl vstd::std_specs::convert::FromSpecImpl<String> for TokenKind {
    open spec fn obeys_from_spec() -> bool {
        true
    }

    open spec fn from_spec(other: String) -> TokenKind {
        TokenKind::Identifier(other)
    }
}

impl<'a> From<&'a str> for TokenKind {
    /// A borrowed string converts into an identifier token owning a copy
    /// of it.
    fn from(other: &'a str) -> (r: TokenKind) {
        TokenKind::Identifier(other.to_owned())
    }
}

impl<'a> vstd::std_specs::convert::FromSpecImpl<&'a str> for TokenKind {
    /// The conversion allocates a fresh `String` for the identifier text,
    /// and no specification value names that allocation, so this
    /// conversion carries no specification.
    open spec fn obeys_from_spec() -> bool {
        false
    }

    open spec fn from_spec(other: &'a str) -> TokenKind {
        arbitrary()
    }
}

impl From<usize> for TokenKind {
    /// An unsigned number converts into an integer token.
    fn from(other: usize) -> (r: TokenKind) {
        TokenKind::Integer(other)
    }
}

impl vstd::std_specs::convert::FromSpecImpl<usize> for TokenKind {
    open spec fn obeys_from_spec() -> bool {
        true
    }

    open spec fn from_spec(other: usize) -> TokenKind {
        TokenKind::Integer(other)
    }
}

/// A token: its kind together with its location in the source buffer.
#[derive(Debug, Clone, PartialEq)]
pub struct Token {
    /// The token's location relative to the original source buffer.
    pub span: Span,
    /// What kind of token this is.
    pub kind: TokenKind,
}

impl Token {
    /// Create a new token out of a span and a kind.
    pub fn new(span: Span, kind: TokenKind) -> (t: Token)
        ensures
            t.span == span,
            t.kind == kind,
    {
        Token { span, kind }
    }

    /// A synthetic token: it carries the placeholder span, marking a token
    /// built outside of any scan of a source buffer.
    pub fn from_kind(kind: TokenKind) -> (t: Token)
        ensures
            t.kind == kind,
            t.span.start == 0,
            t.span.end == 0,
    {
        Token { span: Span::dummy(), kind }
    }
}

// ---------------------------------------------------------------------------
// Character helpers
// ---------------------------------------------------------------------------

/// Does the scanner treat `c` as whitespace?
///
/// Relies on `char::is_whitespace`: its ASCII members are exactly the six
/// characters `is_ws_char` lists, and beyond ASCII its result depends on
/// the character alone, named [`unicode_whitespace`].
#[verifier::external_body]
fn ws_char(c: char) -> (b: bool)
    ensures
        b == is_ws_char(c),
        (c as u32) >= 0x80 ==> b == unicode_whitespace(c),
{
    c.is_whitespace()
}

/// Is `c` an ASCII decimal digit?
fn digit_char(c: char) -> (b: bool)
    ensures
        b == is_digit_char(c),
{
    c >= '0' && c <= '9'
}

/// May `c` start an identifier?
///
/// Relies on `char::is_alphabetic`: its ASCII members are exactly the
/// letters, and beyond ASCII its result depends on the character alone,
/// named [`unicode_alphabetic`].
#[verifier::external_body]
fn letter_char(c: char) -> (b: bool)
    ensures
        b == is_letter_char(c),
        (c as u32) >= 0x80 ==> b == unicode_alphabetic(c),
{
    c.is_alphabetic()
}

/// Is `c` alphanumeric?
///
/// Relies on `char::is_alphanumeric`: its ASCII members are exactly the
/// letters and the decimal digits, and beyond ASCII its result depends on
/// the character alone, named [`unicode_alphanumeric`].
#[verifier::external_body]
fn alphanumeric_char(c: char) -> (b: bool)
    ensures
        b == is_alnum_char(c),
        (c as u32) >= 0x80 ==> b == unicode_alphanumeric(c),
{
    c.is_alphanumeric()
}

/// May `c` continue an identifier?
fn ident_char(c: char) -> (b: bool)
    ensures
        b == is_ident_char(c),
{
    c == '_' || alphanumeric_char(c)
}

/// The number of bytes the UTF-8 encoding of `c` occupies.
fn char_width(c: char) -> (w: usize)
    ensures
        w == char_utf8_width(c),
{
    let u = c as u32;
    if u < 0x80 {
        1
    } else if u < 0x800 {
        2
    } else if u < 0x10000 {
        3
    } else {
        4
    }
}

// ---------------------------------------------------------------------------
// The byte-predicate scanner
// ---------------------------------------------------------------------------

/// Consumes characters while a predicate evaluates to true, advancing by
/// each character's UTF-8 byte width.  Returns the matched prefix and its
/// byte length; zero matched characters is the "no matches" condition,
/// which callers treat as "this predicate does not apply here".
pub fn take_while<'a, F: Fn(char) -> bool>(data: &'a str, pred: F) -> (r: Result<
    (&'a str, usize),
    Error,
>)
    requires
        forall|c: char| #[trigger] call_requires(pred, (c,)),
    ensures
        match r {
            Ok(p) => {
                let k = p.0@.len() as int;
                &&& 0 < k <= data@.len()
                &&& p.0@ == data@.take(k)
                &&& forall|i: int| 0 <= i < k ==> call_ensures(pred, (data@[i],), true)
                &&& (k == data@.len() || call_ensures(pred, (data@[k],), false))
                &&& p.1 == byte_len(data@.take(k))
            },
            Err(e) => {
                &&& e@ == plain_err(SpecErrorKind::Msg(msg_no_matches()))
                &&& (data@.len() == 0 || call_ensures(pred, (data@[0],), false))
            },
        },
{
    let n = data.unicode_len();
    let total_bytes = data.as_bytes().len();
    proof {
        lemma_byte_len_is_utf8_len(data@);
        assert(total_bytes == byte_len(data@));
    }
    let mut k: usize = 0;
    let mut bytes: usize = 0;
    loop
        invariant_except_break
            n == data@.len(),
            total_bytes == byte_len(data@),
            forall|c: char| #[trigger] call_requires(pred, (c,)),
            0 <= k <= n,
            forall|i: int| 0 <= i < k ==> call_ensures(pred, (data@[i],), true),
            bytes == byte_len(data@.take(k as int)),
        ensures
            0 <= k <= n,
            n == data@.len(),
            forall|i: int| 0 <= i < k ==> call_ensures(pred, (data@[i],), true),
            bytes == byte_len(data@.take(k as int)),
            k == n || call_ensures(pred, (data@[k as int],), false),
        decreases n - k,
    {
        if k == n {
            break;
        }
        let c = data.get_char(k);
        if !pred(c) {
            break;
        }
        proof {
            lemma_byte_len_take_succ(data@, k as int);
            lemma_byte_len_take_le(data@, k as int + 1);
        }
        bytes = bytes + char_width(c);
        k = k + 1;
    }
    if k == 0 {
        Err(Error::from_kind(ErrorKind::Msg("No Matches".to_owned())))
    } else {
        let matched = data.substring_char(0, k);
        proof {
            assert(matched@ =~= data@.take(k as int));
        }
        Ok((matched, bytes))
    }
}

// ---------------------------------------------------------------------------
// Classifiers
// ---------------------------------------------------------------------------

/// Recognise one identifier at the head of `data`.  The input must not be
/// empty and must not start with a decimal digit; given a valid start the
/// maximal identifier run is consumed and returned with its byte length.
pub fn tokenize_identifier(data: &str) -> (r: Result<(TokenKind, usize), Error>)
    ensures
        ({
            let m = spec_scan_identifier(data@);
            match r {
                Ok(p) => {
                    &&& m matches Ok(mp) && p.0@ == mp.0
                    &&& m matches Ok(mp) && p.1 == byte_len(data@.take(mp.1 as int))
                },
                Err(e) => m matches Err(me) && e@ == me,
            }
        }),
{
    if data.is_empty() {
        return Err(Error::from_kind(ErrorKind::UnexpectedEOF));
    }
    let c0 = data.get_char(0);
    if digit_char(c0) {
        return Err(
            Error::from_kind(
                ErrorKind::Msg("Identifiers can't start with a number".to_owned()),
            ),
        );
    }
    let pred = (|ch: char| -> (b: bool)
        ensures
            b == is_ident_char(ch),
        { ident_char(ch) });
    match take_while(data, pred) {
        Ok((got, bytes_read)) => {
            proof {
                assert forall|i: int| 0 <= i < got@.len() implies is_ident_char(
                    #[trigger] data@[i],
                ) by {
                    assert(call_ensures(pred, (data@[i],), true));
                }
                if got@.len() < data@.len() {
                    assert(call_ensures(pred, (data@[got@.len() as int],), false));
                }
                lemma_ident_run_eq(data@, got@.len() as int);
            }
            let tok = TokenKind::Identifier(got.to_owned());
            Ok((tok, bytes_read))
        },
        Err(e) => {
            proof {
                assert(call_ensures(pred, (data@[0],), false));
            }
            Err(e)
        },
    }
}

/// Read the value of a pure digit string in base ten, or report that it
/// does not fit in `usize`.
fn parse_digits(s: &str) -> (r: Option<usize>)
    requires
        forall|i: int| 0 <= i < s@.len() ==> is_digit_char(#[trigger] s@[i]),
    ensures
        match r {
            Some(v) => v as int == digits_val(s@),
            None => digits_val(s@) > usize::MAX as int,
        },
{
    let n = s.unicode_len();
    let mut acc: usize = 0;
    let mut i: usize = 0;
    while i < n
        invariant
            n == s@.len(),
            0 <= i <= n,
            forall|j: int| 0 <= j < s@.len() ==> is_digit_char(#[trigger] s@[j]),
            acc as int == digits_val(s@.take(i as int)),
        decreases n - i,
    {
        let c = s.get_char(i);
        let d = (c as u32) - ('0' as u32);
        proof {
            lemma_digits_val_take_succ(s@, i as int);
        }
        let next = match acc.checked_mul(10) {
            Some(m) => m.checked_add(d as usize),
            None => None,
        };
        match next {
            Some(a) => {
                acc = a;
            },
            None => {
                proof {
                    lemma_digits_val_prefix_le(s@, i as int + 1);
                }
                return None;
            },
        }
        i = i + 1;
    }
    proof {
        assert(s@.take(n as int) =~= s@);
    }
    Some(acc)
}

/// Recognise one numeric literal at the head of `data`: a maximal run of
/// ASCII digits with at most one dot.  A dot in the run makes a decimal
/// token out of the exact text consumed; otherwise the run's base-ten
/// value makes an integer token.  The run may not be empty, may not run
/// directly into a letter, must hold a digit, and an integer value must
/// fit in `usize`.
pub fn tokenize_number(data: &str) -> (r: Result<(TokenKind, usize), Error>)
    ensures
        ({
            let m = spec_scan_number(data@);
            match r {
                Ok(p) => {
                    &&& m matches Ok(mp) && p.0@ == mp.0
                    &&& m matches Ok(mp) && p.1 == byte_len(data@.take(mp.1 as int))
                },
                Err(e) => m matches Err(me) && e@ == me,
            }
        }),
{
    let n = data.unicode_len();
    let total_bytes = data.as_bytes().len();
    proof {
        lemma_byte_len_is_utf8_len(data@);
    }
    let mut k: usize = 0;
    let mut bytes: usize = 0;
    let mut seen_dot = false;
    let mut has_digit = false;
    proof {
        assert(data@.skip(0) =~= data@);
    }
    loop
        invariant_except_break
            n == data@.len(),
            total_bytes == byte_len(data@),
            0 <= k <= n,
            bytes == byte_len(data@.take(k as int)),
            num_run(data@, false) == k + num_run(data@.skip(k as int), seen_dot),
            seen_dot <==> (exists|i: int| 0 <= i < k && data@[i] == '.'),
            has_digit <==> (exists|i: int| 0 <= i < k && is_digit_char(#[trigger] data@[i])),
        ensures
            n == data@.len(),
            0 <= k <= n,
            bytes == byte_len(data@.take(k as int)),
            k == num_run(data@, false),
            seen_dot <==> (exists|i: int| 0 <= i < k && data@[i] == '.'),
            has_digit <==> (exists|i: int| 0 <= i < k && is_digit_char(#[trigger] data@[i])),
        decreases n - k,
    {
        if k == n {
            proof {
                assert(data@.skip(k as int) =~= Seq::<char>::empty());
            }
            break;
        }
        let c = data.get_char(k);
        let is_d = digit_char(c);
        if !is_d && !(c == '.' && !seen_dot) {
            proof {
                assert(data@.skip(k as int)[0] == data@[k as int]);
                assert(num_run(data@.skip(k as int), seen_dot) == 0);
            }
            break;
        }
        proof {
            assert(data@.skip(k as int)[0] == data@[k as int]);
            assert(data@.skip(k as int).drop_first() =~= data@.skip(k as int + 1));
            lemma_byte_len_take_succ(data@, k as int);
            lemma_byte_len_take_le(data@, k as int + 1);
        }
        if is_d {
            has_digit = true;
        } else {
            seen_dot = true;
        }
        bytes = bytes + char_width(c);
        k = k + 1;
    }
    if k == 0 {
        return Err(Error::from_kind(ErrorKind::Msg("No Matches".to_owned())));
    }
    if k < n {
        let c = data.get_char(k);
        if letter_char(c) {
            return Err(
                Error::from_kind(
                    ErrorKind::Msg("A number can't run directly into a letter".to_owned()),
                ),
            );
        }
    }
    let run = data.substring_char(0, k);
    proof {
        assert(run@ =~= data@.take(k as int));
        assert forall|i: int| 0 <= i < k implies data@.take(k as int)[i] == #[trigger] data@[i] by {}
    }
    if seen_dot {
        if has_digit {
            Ok((TokenKind::Decimal(run.to_owned()), bytes))
        } else {
            Err(Error::from_kind(ErrorKind::Msg("Invalid decimal literal".to_owned())))
        }
    } else {
        proof {
            crate::scan::lemma_num_run_chars(data@, false);
        }
        match parse_digits(run) {
            Some(v) => Ok((TokenKind::Integer(v), bytes)),
            None => Err(
                Error::from_kind(ErrorKind::Msg("Integer literal is too large".to_owned())),
            ),
        }
    }
}

// ---------------------------------------------------------------------------
// Whitespace and comment skipping
// ---------------------------------------------------------------------------

/// Does `s` begin with the pattern `p`?
fn str_starts_with(s: &str, p: &str) -> (b: bool)
    ensures
        b == seq_starts_with(s@, p@),
{
    let sn = s.unicode_len();
    let pn = p.unicode_len();
    if pn > sn {
        return false;
    }
    let mut i: usize = 0;
    while i < pn
        invariant
            sn == s@.len(),
            pn == p@.len(),
            pn <= sn,
            0 <= i <= pn,
            forall|j: int| 0 <= j < i ==> s@[j] == p@[j],
        decreases pn - i,
    {
        if s.get_char(i) != p.get_char(i) {
            proof {
                assert(s@.take(pn as int)[i as int] == s@[i as int]);
            }
            return false;
        }
        i = i + 1;
    }
    proof {
        assert(s@.take(pn as int) =~= p@);
    }
    true
}

/// Advance past the first occurrence of `pattern` in `src`, returning what
/// follows it; when the pattern never occurs the whole input is consumed
/// and the empty remainder is returned.
pub fn skip_until<'a>(src: &'a str, pattern: &str) -> (r: &'a str)
    ensures
        r@ == src@.skip(pat_run(src@, pattern@) as int),
{
    let mut cur: &'a str = src;
    let ghost mut i: int = 0;
    proof {
        assert(src@.skip(0) =~= src@);
    }
    loop
        invariant_except_break
            0 <= i <= src@.len(),
            cur@ == src@.skip(i),
            pat_run(src@, pattern@) == i + pat_run(cur@, pattern@),
        ensures
            0 <= i <= src@.len(),
            cur@ == src@.skip(i),
            pat_run(src@, pattern@) == i + pat_run(cur@, pattern@),
            cur@.len() == 0 || seq_starts_with(cur@, pattern@),
        decreases cur@.len(),
    {
        if cur.is_empty() {
            break;
        }
        if str_starts_with(cur, pattern) {
            break;
        }
        proof {
            assert(cur@.drop_first() =~= src@.skip(i + 1));
            i = i + 1;
        }
        cur = cur.substring_char(1, cur.unicode_len());
    }
    if cur.is_empty() {
        cur
    } else {
        let pn = pattern.unicode_len();
        let res = cur.substring_char(pn, cur.unicode_len());
        proof {
            assert(res@ =~= src@.skip(i + pattern@.len()));
        }
        res
    }
}

/// The maximal whitespace run at the head of `data`: its length in
/// characters and in bytes.
fn whitespace_counts(data: &str) -> (r: (usize, usize))
    ensures
        r.0 == ws_run(data@),
        r.1 == byte_len(data@.take(ws_run(data@) as int)),
{
    let pred = (|ch: char| -> (b: bool)
        ensures
            b == is_ws_char(ch),
        { ws_char(ch) });
    match take_while(data, pred) {
        Ok((matched, bytes)) => {
            proof {
                assert forall|i: int| 0 <= i < matched@.len() implies is_ws_char(
                    #[trigger] data@[i],
                ) by {
                    assert(call_ensures(pred, (data@[i],), true));
                }
                if matched@.len() < data@.len() {
                    assert(call_ensures(pred, (data@[matched@.len() as int],), false));
                }
                lemma_ws_run_eq(data@, matched@.len() as int);
            }
            (matched.unicode_len(), bytes)
        },
        Err(_) => {
            proof {
                if data@.len() > 0 {
                    assert(call_ensures(pred, (data@[0],), false));
                }
                assert(ws_run(data@) == 0);
                assert(data@.take(0) =~= Seq::<char>::empty());
            }
            (0, 0)
        },
    }
}

/// Consumes the maximal run of whitespace characters and returns the
/// number of bytes skipped; an input that does not start with whitespace
/// skips zero bytes, never an error.
pub fn skip_whitespace(data: &str) -> (r: usize)
    ensures
        r == byte_len(data@.take(ws_run(data@) as int)),
{
    let (_, bytes) = whitespace_counts(data);
    bytes
}

/// The comment at the head of `src`, if one opens there: its length in
/// characters and in bytes.  A comment whose closer never appears runs to
/// the end of the input.
fn comment_counts(src: &str) -> (r: (usize, usize))
    ensures
        r.0 == comment_run(src@),
        r.1 == byte_len(src@.take(comment_run(src@) as int)),
{
    proof {
        reveal_strlit("//");
        reveal_strlit("/*");
        reveal_strlit("\n");
        reveal_strlit("*/");
        assert("//"@ =~= line_comment_open());
        assert("/*"@ =~= block_comment_open());
        assert("\n"@ =~= line_comment_close());
        assert("*/"@ =~= block_comment_close());
    }
    if str_starts_with(src, "//") {
        let leftovers = skip_until(src, "\n");
        proof {
            lemma_pat_run_le(src@, line_comment_close());
            lemma_byte_len_is_utf8_len(src@);
            lemma_byte_len_is_utf8_len(leftovers@);
            lemma_byte_len_split(src@, pat_run(src@, line_comment_close()) as int);
        }
        let chars = src.unicode_len() - leftovers.unicode_len();
        let bytes = src.as_bytes().len() - leftovers.as_bytes().len();
        (chars, bytes)
    } else if str_starts_with(src, "/*") {
        let leftovers = skip_until(src, "*/");
        proof {
            lemma_pat_run_le(src@, block_comment_close());
            lemma_byte_len_is_utf8_len(src@);
            lemma_byte_len_is_utf8_len(leftovers@);
            lemma_byte_len_split(src@, pat_run(src@, block_comment_close()) as int);
        }
        let chars = src.unicode_len() - leftovers.unicode_len();
        let bytes = src.as_bytes().len() - leftovers.as_bytes().len();
        (chars, bytes)
    } else {
        proof {
            assert(src@.take(0) =~= Seq::<char>::empty());
        }
        (0, 0)
    }
}

/// Recognises a comment opener at the head of `src` and, on a match,
/// consumes through the first occurrence of the matching closer (or to end
/// of input when the closer never appears), returning the number of bytes
/// consumed; zero when no opener matches.
pub fn skip_comments(src: &str) -> (r: usize)
    ensures
        r == byte_len(src@.take(comment_run(src@) as int)),
{
    let (_, bytes) = comment_counts(src);
    bytes
}

/// The combined skip: whitespace and comments in alternation until a pass
/// makes no further progress.  Returns the total number of bytes skipped.
pub fn skip(src: &str) -> (r: usize)
    ensures
        r == byte_len(src@.take(skip_run(src@) as int)),
{
    let total_chars = src.unicode_len();
    let total_bytes = src.as_bytes().len();
    proof {
        lemma_byte_len_is_utf8_len(src@);
        assert(src@.skip(0) =~= src@);
    }
    let mut remaining: &str = src;
    let mut j: usize = 0;
    let mut bytes: usize = 0;
    loop
        invariant_except_break
            total_chars == src@.len(),
            total_bytes == byte_len(src@),
            0 <= j <= total_chars,
            remaining@ == src@.skip(j as int),
            bytes == byte_len(src@.take(j as int)),
            skip_run(src@) == j + skip_run(remaining@),
        ensures
            bytes == byte_len(src@.take(skip_run(src@) as int)),
        decreases remaining@.len(),
    {
        let (wc, wb) = whitespace_counts(remaining);
        proof {
            lemma_ws_run_le(remaining@);
        }
        let remaining2 = remaining.substring_char(wc, remaining.unicode_len());
        proof {
            assert(remaining2@ =~= remaining@.skip(wc as int));
        }
        let (cc, cb) = comment_counts(remaining2);
        proof {
            lemma_comment_run_le(remaining2@);
        }
        if wc + cc == 0 {
            proof {
                assert(skip_run(remaining@) == 0);
            }
            break;
        }
        let remaining3 = remaining2.substring_char(cc, remaining2.unicode_len());
        proof {
            assert(remaining3@ =~= remaining2@.skip(cc as int));
            assert(remaining3@ =~= remaining@.skip((wc + cc) as int));
            assert(remaining3@ =~= src@.skip(j as int + wc as int + cc as int));
            lemma_byte_len_take_concat(remaining@, wc as int, cc as int);
            lemma_byte_len_take_concat(src@, j as int, wc as int + cc as int);
            assert(src@.skip(j as int).take(wc as int + cc as int) =~= remaining@.take(
                wc as int + cc as int,
            ));
            assert(remaining@.skip(wc as int).take(cc as int) =~= remaining2@.take(cc as int));
            assert(skip_run(remaining@) == wc + cc + skip_run(remaining@.skip((wc + cc) as int)));
            assert(j + wc + cc <= total_chars);
            lemma_byte_len_take_le(src@, j as int + wc as int + cc as int);
            assert(byte_len(src@.take(j as int + wc as int + cc as int)) == bytes + wb + cb);
        }
        j = j + wc + cc;
        bytes = bytes + wb + cb;
        remaining = remaining3;
    }
    bytes
}

// ---------------------------------------------------------------------------
// The single-token classifier
// ---------------------------------------------------------------------------

/// The token made by a single-character lexeme, if `c` is one.
fn punct_token(c: char) -> (r: Option<TokenKind>)
    ensures
        match r {
            Some(t) => punct_kind(c) matches Some(k) && t@ == k,
            None => punct_kind(c) is None,
        },
{
    if c == '.' {
        Some(TokenKind::Dot)
    } else if c == '=' {
        Some(TokenKind::Equals)
    } else if c == '+' {
        Some(TokenKind::Plus)
    } else if c == '-' {
        Some(TokenKind::Minus)
    } else if c == '*' {
        Some(TokenKind::Asterisk)
    } else if c == '/' {
        Some(TokenKind::Slash)
    } else if c == '|' {
        Some(TokenKind::Pipe)
    } else if c == '_' {
        Some(TokenKind::Underscore)
    } else if c == '$' {
        Some(TokenKind::Dollar)
    } else if c == ':' {
        Some(TokenKind::Colon)
    } else if c == '#' {
        Some(TokenKind::Hash)
    } else if c == '&' {
        Some(TokenKind::Ampersand)
    } else if c == '(' {
        Some(TokenKind::OpenParen)
    } else if c == ')' {
        Some(TokenKind::CloseParen)
    } else if c == '[' {
        Some(TokenKind::OpenSquare)
    } else if c == ']' {
        Some(TokenKind::CloseSquare)
    } else if c == '{' {
        Some(TokenKind::OpenCurly)
    } else if c == '}' {
        Some(TokenKind::CloseCurly)
    } else if c == '<' {
        Some(TokenKind::OpenAngle)
    } else if c == '>' {
        Some(TokenKind::CloseAngle)
    } else if c == '!' {
        Some(TokenKind::Exclamation)
    } else if c == '?' {
        Some(TokenKind::Question)
    } else {
        None
    }
}

/// Try to lex a single token from the head of the input.  Exactly one
/// logical token's worth of input is consumed; whitespace and comments are
/// the cursor's job, never this function's.
pub fn tokenize_single_token(data: &str) -> (r: Result<(TokenKind, usize), Error>)
    ensures
        ({
            let m = spec_scan_token(data@);
            match r {
                Ok(p) => {
                    &&& m matches Ok(mp) && p.0@ == mp.0
                    &&& m matches Ok(mp) && p.1 == byte_len(data@.take(mp.1 as int))
                },
                Err(e) => m matches Err(me) && e@ == me,
            }
        }),
{
    if data.is_empty() {
        return Err(Error::from_kind(ErrorKind::UnexpectedEOF));
    }
    let next = data.get_char(0);
    match punct_token(next) {
        Some(tok) => {
            proof {
                assert(data@.take(0int) =~= Seq::<char>::empty());
                lemma_byte_len_take_succ(data@, 0);
            }
            Ok((tok, 1))
        },
        None => {
            if digit_char(next) {
                match tokenize_number(data) {
                    Ok(p) => Ok(p),
                    Err(e) => Err(
                        e.chain_err(ErrorKind::Msg("Couldn't tokenize a number".to_owned())),
                    ),
                }
            } else if letter_char(next) {
                match tokenize_identifier(data) {
                    Ok(p) => Ok(p),
                    Err(e) => Err(
                        e.chain_err(ErrorKind::Msg("Couldn't tokenize an identifier".to_owned())),
                    ),
                }
            } else {
                Err(Error::from_kind(ErrorKind::UnknownCharacter(next)))
            }
        },
    }
}

// ---------------------------------------------------------------------------
// The cursor that drives a whole scan
// ---------------------------------------------------------------------------

/// The scanning cursor: the not-yet-consumed suffix of the source buffer
/// and the byte offset where that suffix starts.  The offset only ever
/// increases, by exactly the byte width of what was consumed.
pub struct Tokenizer<'a> {
    /// Byte offset of `remaining_text` within the original buffer.
    pub current_index: usize,
    /// The suffix of the source that has not been consumed yet.
    pub remaining_text: &'a str,
}

impl<'a> Tokenizer<'a> {
    /// The cursor's byte arithmetic can never overflow `usize`.
    pub open spec fn wf(&self) -> bool {
        self.current_index + byte_len(self.remaining_text@) <= usize::MAX
    }

    /// A cursor at the start of `src`.
    pub fn new(src: &'a str) -> (t: Tokenizer<'a>)
        ensures
            t.current_index == 0,
            t.remaining_text@ == src@,
            t.wf(),
    {
        let total_bytes = src.as_bytes().len();
        proof {
            lemma_byte_len_is_utf8_len(src@);
            assert(byte_len(src@) == total_bytes);
        }
        Tokenizer { current_index: 0, remaining_text: src }
    }

    /// Consume `num_bytes` bytes, which must be the byte width of some
    /// prefix of the remaining characters: the index advances by exactly
    /// that amount and the remaining text loses exactly that prefix.
    pub fn chomp(&mut self, num_bytes: usize)
        requires
            old(self).wf(),
            exists|k: int|
                0 <= k <= old(self).remaining_text@.len() && num_bytes == byte_len(
                    #[trigger] old(self).remaining_text@.take(k),
                ),
        ensures
            final(self).current_index == old(self).current_index + num_bytes,
            forall|k: int|
                (0 <= k <= old(self).remaining_text@.len() && num_bytes == byte_len(
                    #[trigger] old(self).remaining_text@.take(k),
                )) ==> final(self).remaining_text@ == old(self).remaining_text@.skip(k),
            final(self).wf(),
    {
        let text = self.remaining_text;
        let n = text.unicode_len();
        let ghost k0 = choose|k: int|
            0 <= k <= text@.len() && num_bytes == byte_len(text@.take(k));
        let mut k: usize = 0;
        let mut b: usize = 0;
        proof {
            assert(text@.take(0int) =~= Seq::<char>::empty());
        }
        while b < num_bytes
            invariant
                n == text@.len(),
                0 <= k <= n,
                b == byte_len(text@.take(k as int)),
                b <= num_bytes,
                0 <= k0 <= n,
                num_bytes == byte_len(text@.take(k0)),
                k <= k0,
            decreases n - k,
        {
            proof {
                if k as int == k0 {
                    assert(b == num_bytes);
                }
                assert(k < k0);
                lemma_byte_len_take_succ(text@, k as int);
                if k as int + 1 < k0 {
                    lemma_byte_len_take_strict(text@, k as int + 1, k0);
                }
            }
            let c = text.get_char(k);
            b = b + char_width(c);
            k = k + 1;
        }
        proof {
            lemma_byte_len_take_injective(text@, k as int, k0);
            assert forall|kk: int|
                (0 <= kk <= text@.len() && num_bytes == byte_len(
                    text@.take(kk),
                )) implies text@.skip(kk) == text@.skip(k as int) by {
                lemma_byte_len_take_injective(text@, kk, k as int);
            }
            lemma_byte_len_take_le(text@, k as int);
            lemma_byte_len_split(text@, k as int);
        }
        let rest = text.substring_char(k, n);
        proof {
            assert(rest@ =~= text@.skip(k as int));
        }
        self.remaining_text = rest;
        self.current_index = self.current_index + num_bytes;
    }

    /// Run the combined whitespace-and-comment skip at the cursor.
    pub fn skip_whitespace(&mut self)
        requires
            old(self).wf(),
        ensures
            final(self).remaining_text@ == old(self).remaining_text@.skip(
                skip_run(old(self).remaining_text@) as int,
            ),
            final(self).current_index == old(self).current_index + byte_len(
                old(self).remaining_text@.take(skip_run(old(self).remaining_text@) as int),
            ),
            final(self).wf(),
    {
        let skipped = skip(self.remaining_text);
        proof {
            lemma_skip_run_le(self.remaining_text@);
            let kw = skip_run(self.remaining_text@) as int;
            assert(0 <= kw <= self.remaining_text@.len() && skipped == byte_len(
                self.remaining_text@.take(kw),
            ));
        }
        self.chomp(skipped);
    }

    /// Classify one token at the cursor and consume it.
    pub fn _next_token(&mut self) -> (r: Result<TokenKind, Error>)
        requires
            old(self).wf(),
        ensures
            ({
                let s = old(self).remaining_text@;
                let m = spec_scan_token(s);
                match r {
                    Ok(tok) => {
                        &&& m matches Ok(mp) && tok@ == mp.0
                        &&& m matches Ok(mp) && final(self).remaining_text@ == s.skip(mp.1 as int)
                        &&& m matches Ok(mp) && final(self).current_index == old(
                            self,
                        ).current_index + byte_len(s.take(mp.1 as int))
                        &&& final(self).wf()
                    },
                    Err(e) => {
                        &&& m matches Err(me) && e@ == me
                        &&& *final(self) == *old(self)
                    },
                }
            }),
    {
        match tokenize_single_token(self.remaining_text) {
            Ok((tok, bytes_read)) => {
                proof {
                    lemma_scan_token_bounds(self.remaining_text@);
                    let mn = spec_scan_token(self.remaining_text@)->Ok_0.1 as int;
                    assert(0 <= mn <= self.remaining_text@.len() && bytes_read == byte_len(
                        self.remaining_text@.take(mn),
                    ));
                }
                self.chomp(bytes_read);
                Ok(tok)
            },
            Err(e) => Err(e),
        }
    }

    /// One step of the scan: skip insignificant input, stop cleanly at end
    /// of input, and otherwise classify one token and record its half-open
    /// byte span; a classifier failure is wrapped with the byte offset of
    /// the attempt and ends the scan.
    pub fn next_token(&mut self) -> (r: Result<Option<(TokenKind, usize, usize)>, Error>)
        requires
            old(self).wf(),
        ensures
            final(self).wf(),
            ({
                let s = old(self).remaining_text@;
                let k = skip_run(s) as int;
                let rest = s.skip(k);
                let start = old(self).current_index + byte_len(s.take(k));
                match r {
                    Ok(opt) => match opt {
                        None => {
                            &&& rest.len() == 0
                            &&& final(self).remaining_text@ == rest
                            &&& final(self).current_index == start
                        },
                        Some(t) => {
                            let m = spec_scan_token(rest);
                            &&& m matches Ok(mp) && t.0@ == mp.0
                            &&& m matches Ok(mp) && t.2 == start + byte_len(rest.take(mp.1 as int))
                            &&& m matches Ok(mp) && final(self).remaining_text@ == rest.skip(
                                mp.1 as int,
                            )
                            &&& t.1 == start
                            &&& final(self).current_index == t.2
                        },
                    },
                    Err(e) => {
                        &&& rest.len() > 0
                        &&& spec_scan_token(rest) matches Err(me) && e@ == spec_chain(
                            me,
                            SpecErrorKind::MessageWithLocation(start as int, msg_next_token()),
                        )
                        &&& final(self).remaining_text@ == rest
                        &&& final(self).current_index == start
                    },
                }
            }),
    {
        self.skip_whitespace();
        if self.remaining_text.is_empty() {
            Ok(None)
        } else {
            let start = self.current_index;
            match self._next_token() {
                Ok(tok) => {
                    let end = self.current_index;
                    Ok(Some((tok, start, end)))
                },
                Err(e) => Err(
                    e.chain_err(
                        ErrorKind::MessageWithLocation(
                            start,
                            "Couldn't read the next token".to_owned(),
                        ),
                    ),
                ),
            }
        }
    }
}

/// The mathematical view of a produced token sequence: each triple's kind
/// view with its byte offsets.
pub open spec fn token_triples(v: Seq<(TokenKind, usize, usize)>) -> Seq<
    (SpecTokenKind, nat, nat),
> {
    v.map_values(|t: (TokenKind, usize, usize)| (t.0@, t.1 as nat, t.2 as nat))
}

/// Turn a string of source text into the list of its tokens, each with the
/// half-open byte interval `[start, end)` locating it in `src`.  The
/// result is exactly what the model [`spec_tokens`] describes: the full
/// token sequence for the buffer, or the first error with no tokens.
pub fn tokenize(src: &str) -> (r: Result<Vec<(TokenKind, usize, usize)>, Error>)
    ensures
        match r {
            Ok(v) => spec_tokens(src@, 0) == Ok::<Seq<(SpecTokenKind, nat, nat)>, SpecError>(
                token_triples(v@),
            ),
            Err(e) => spec_tokens(src@, 0) == Err::<Seq<(SpecTokenKind, nat, nat)>, SpecError>(
                e@,
            ),
        },
{
    let mut tokenizer = Tokenizer::new(src);
    let mut tokens: Vec<(TokenKind, usize, usize)> = Vec::new();
    proof {
        assert(token_triples(tokens@) =~= Seq::<(SpecTokenKind, nat, nat)>::empty());
    }
    loop
        invariant
            tokenizer.wf(),
            ({
                let m = spec_tokens(tokenizer.remaining_text@, tokenizer.current_index as nat);
                match spec_tokens(src@, 0) {
                    Ok(all) => m matches Ok(ts) && all == token_triples(tokens@) + ts,
                    Err(e) => m matches Err(me) && me == e,
                }
            }),
        decreases tokenizer.remaining_text@.len(),
    {
        let ghost s = tokenizer.remaining_text@;
        let ghost bpos = tokenizer.current_index as nat;
        let step = tokenizer.next_token();
        proof {
            lemma_skip_run_le(s);
            lemma_scan_token_bounds(s.skip(skip_run(s) as int));
        }
        match step {
            Ok(Some(t)) => {
                proof {
                    let k = skip_run(s) as int;
                    let rest = s.skip(k);
                    let mp = spec_scan_token(rest)->Ok_0;
                    let start = (bpos + byte_len(s.take(k))) as nat;
                    let end = (start + byte_len(rest.take(mp.1 as int))) as nat;
                    assert(tokenizer.current_index as nat == end);
                    assert(token_triples(tokens@.push(t)) =~= token_triples(tokens@).push(
                        (t.0@, t.1 as nat, t.2 as nat),
                    ));
                    assert((t.0@, t.1 as nat, t.2 as nat) == (mp.0, start, end));
                    match spec_tokens(rest.skip(mp.1 as int), end) {
                        Ok(ts2) => {
                            assert(spec_tokens(s, bpos) == Ok::<
                                Seq<(SpecTokenKind, nat, nat)>,
                                SpecError,
                            >(seq![(mp.0, start, end)] + ts2));
                            assert(token_triples(tokens@) + (seq![(mp.0, start, end)] + ts2)
                                =~= token_triples(tokens@.push(t)) + ts2);
                        },
                        Err(e2) => {
                            assert(spec_tokens(s, bpos) == Err::<
                                Seq<(SpecTokenKind, nat, nat)>,
                                SpecError,
                            >(e2));
                        },
                    }
                }
                tokens.push(t);
            },
            Ok(None) => {
                proof {
                    assert(spec_tokens(s, bpos) == Ok::<Seq<(SpecTokenKind, nat, nat)>, SpecError>(
                        Seq::empty(),
                    ));
                    assert(token_triples(tokens@) + Seq::<(SpecTokenKind, nat, nat)>::empty()
                        =~= token_triples(tokens@));
                }
                return Ok(tokens);
            },
            Err(e) => {
                proof {
                    let k = skip_run(s) as int;
                    let rest = s.skip(k);
                    let me = spec_scan_token(rest)->Err_0;
                    let start = (bpos + byte_len(s.take(k))) as nat;
                    assert(spec_tokens(s, bpos) == Err::<Seq<(SpecTokenKind, nat, nat)>, SpecError>(
                        spec_chain(
                            me,
                            SpecErrorKind::MessageWithLocation(start as int, msg_next_token()),
                        ),
                    ));
                }
                return Err(e);
            },
        }
    }
}

} // verus!
