//! The mathematical model of scanning.
//!
//! Everything the scanner does is defined here as functions over `Seq<char>`:
//! the character classes it recognises, the maximal runs each classifier
//! consumes, the byte width of every character, and finally [`spec_tokens`],
//! the model of a whole scan.  The executable scanner in [`crate::lex`] is
//! specified, function by function, against this model.
//!
//! The character classes are the standard library's Unicode ones:
//! whitespace is `char::is_whitespace`, identifier characters are ASCII
//! underscore or `char::is_alphanumeric`, and an identifier may start with
//! any `char::is_alphabetic` character.  Within ASCII those classes are
//! written out below, exactly as the standard library documents them;
//! beyond ASCII each is a named function of the character alone, and the
//! trusted wrappers in [`crate::lex`] tie the names to the real tables.
//! The comment pairs are `//` through the next line feed and `/*` through
//! the next `*/`; a comment whose closer never appears runs to the end of
//! input.  A numeric literal is a maximal run of ASCII digits containing
//! at most one dot, and may not run directly into a letter: `7Foo` is an
//! error, never a truncated integer followed by a dangling identifier.

use vstd::prelude::*;
use crate::errors::{SpecError, SpecErrorKind, spec_chain};

verus! {

// ---------------------------------------------------------------------------
// Character classification
// ---------------------------------------------------------------------------

/// What `char::is_whitespace` returns beyond ASCII: a function of the
/// character alone, named here and tied to the real Unicode table by the
/// trusted wrapper around that call.
pub uninterp spec fn unicode_whitespace(c: char) -> bool;

/// What `char::is_alphanumeric` returns beyond ASCII.
pub uninterp spec fn unicode_alphanumeric(c: char) -> bool;

/// What `char::is_alphabetic` returns beyond ASCII.
pub uninterp spec fn unicode_alphabetic(c: char) -> bool;

/// Whitespace, as `char::is_whitespace` recognises it.  The ASCII members
/// are exactly tab, line feed, vertical tab, form feed, carriage return
/// and space.
pub open spec fn is_ws_char(c: char) -> bool {
    if (c as u32) < 0x80 {
        c == '\t' || c == '\n' || c == '\x0b' || c == '\x0c' || c == '\r' || c == ' '
    } else {
        unicode_whitespace(c)
    }
}

/// ASCII decimal digit.
pub open spec fn is_digit_char(c: char) -> bool {
    '0' <= c && c <= '9'
}

/// A character that may start an identifier: an alphabetic character, as
/// `char::is_alphabetic` recognises it.  The ASCII members are exactly the
/// letters.
pub open spec fn is_letter_char(c: char) -> bool {
    if (c as u32) < 0x80 {
        ('a' <= c && c <= 'z') || ('A' <= c && c <= 'Z')
    } else {
        unicode_alphabetic(c)
    }
}

/// An alphanumeric character, as `char::is_alphanumeric` recognises it.
/// The ASCII members are exactly the letters and the decimal digits.
pub open spec fn is_alnum_char(c: char) -> bool {
    if (c as u32) < 0x80 {
        ('a' <= c && c <= 'z') || ('A' <= c && c <= 'Z') || ('0' <= c && c <= '9')
    } else {
        unicode_alphanumeric(c)
    }
}

/// A character that may continue an identifier: an ASCII underscore or an
/// alphanumeric character.
pub open spec fn is_ident_char(c: char) -> bool {
    c == '_' || is_alnum_char(c)
}

/// The numeric value of an ASCII digit.
pub open spec fn digit_val(c: char) -> int {
    c as int - '0' as int
}

/// The value of a digit string read in base ten.
pub open spec fn digits_val(s: Seq<char>) -> int
    decreases s.len(),
{
    if s.len() == 0 {
        0
    } else {
        digits_val(s.drop_last()) * 10 + digit_val(s.last())
    }
}

// ---------------------------------------------------------------------------
// Byte widths: offsets count bytes of the UTF-8 encoding
// ---------------------------------------------------------------------------

/// The number of bytes the UTF-8 encoding of `c` occupies.
pub open spec fn char_utf8_width(c: char) -> nat {
    if (c as u32) < 0x80 {
        1
    } else if (c as u32) < 0x800 {
        2
    } else if (c as u32) < 0x10000 {
        3
    } else {
        4
    }
}

/// The number of bytes the UTF-8 encoding of `s` occupies.
pub open spec fn byte_len(s: Seq<char>) -> nat
    decreases s.len(),
{
    if s.len() == 0 {
        0
    } else {
        (char_utf8_width(s[0]) + byte_len(s.drop_first())) as nat
    }
}

// ---------------------------------------------------------------------------
// Maximal runs
// ---------------------------------------------------------------------------

/// Length in characters of the maximal whitespace prefix of `s`.
pub open spec fn ws_run(s: Seq<char>) -> nat
    decreases s.len(),
{
    if s.len() > 0 && is_ws_char(s[0]) {
        (1 + ws_run(s.drop_first())) as nat
    } else {
        0
    }
}

/// Length in characters of the maximal identifier prefix of `s`.
pub open spec fn ident_run(s: Seq<char>) -> nat
    decreases s.len(),
{
    if s.len() > 0 && is_ident_char(s[0]) {
        (1 + ident_run(s.drop_first())) as nat
    } else {
        0
    }
}

/// Length in characters of the maximal numeric prefix of `s`: ASCII digits
/// with at most one dot in total (`seen_dot` tells whether one was already
/// consumed); a second dot ends the run without being consumed.
pub open spec fn num_run(s: Seq<char>, seen_dot: bool) -> nat
    decreases s.len(),
{
    if s.len() == 0 {
        0
    } else if is_digit_char(s[0]) {
        (1 + num_run(s.drop_first(), seen_dot)) as nat
    } else if s[0] == '.' && !seen_dot {
        (1 + num_run(s.drop_first(), true)) as nat
    } else {
        0
    }
}

/// `s` begins with the pattern `p`.
pub open spec fn seq_starts_with(s: Seq<char>, p: Seq<char>) -> bool {
    p.len() <= s.len() && s.take(p.len() as int) == p
}

/// Characters consumed when skipping through the first occurrence of `p` in
/// `s`: everything up to and including that occurrence, or all of `s` when
/// `p` never occurs.
pub open spec fn pat_run(s: Seq<char>, p: Seq<char>) -> nat
    decreases s.len(),
{
    if seq_starts_with(s, p) {
        p.len()
    } else if s.len() == 0 {
        0
    } else {
        (1 + pat_run(s.drop_first(), p)) as nat
    }
}

/// Opener of a line comment.
pub open spec fn line_comment_open() -> Seq<char> {
    seq!['/', '/']
}

/// Closer of a line comment.
pub open spec fn line_comment_close() -> Seq<char> {
    seq!['\n']
}

/// Opener of a block comment.
pub open spec fn block_comment_open() -> Seq<char> {
    seq!['/', '*']
}

/// Closer of a block comment.
pub open spec fn block_comment_close() -> Seq<char> {
    seq!['*', '/']
}

/// Characters consumed by one comment skip at the head of `s`: a whole
/// comment when one opens here, and nothing otherwise.
pub open spec fn comment_run(s: Seq<char>) -> nat {
    if seq_starts_with(s, line_comment_open()) {
        pat_run(s, line_comment_close())
    } else if seq_starts_with(s, block_comment_open()) {
        pat_run(s, block_comment_close())
    } else {
        0
    }
}

/// Characters consumed by the combined skip: whitespace and comments in
/// alternation, until a pass makes no further progress.
pub open spec fn skip_run(s: Seq<char>) -> nat
    decreases s.len(),
    via skip_run_decreases
{
    let w = ws_run(s);
    let c = comment_run(s.skip(w as int));
    if w + c == 0 {
        0
    } else {
        (w + c + skip_run(s.skip((w + c) as int))) as nat
    }
}

#[via_fn]
proof fn skip_run_decreases(s: Seq<char>) {
    lemma_ws_run_le(s);
    lemma_comment_run_le(s.skip(ws_run(s) as int));
}

// ---------------------------------------------------------------------------
// Bounds on the runs
// ---------------------------------------------------------------------------

/// A whitespace run never exceeds the input.
pub proof fn lemma_ws_run_le(s: Seq<char>)
    ensures
        ws_run(s) <= s.len(),
    decreases s.len(),
{
    if s.len() > 0 && is_ws_char(s[0]) {
        lemma_ws_run_le(s.drop_first());
    }
}

/// An identifier run never exceeds the input.
pub proof fn lemma_ident_run_le(s: Seq<char>)
    ensures
        ident_run(s) <= s.len(),
    decreases s.len(),
{
    if s.len() > 0 && is_ident_char(s[0]) {
        lemma_ident_run_le(s.drop_first());
    }
}

/// A numeric run never exceeds the input.
pub proof fn lemma_num_run_le(s: Seq<char>, seen_dot: bool)
    ensures
        num_run(s, seen_dot) <= s.len(),
    decreases s.len(),
{
    if s.len() > 0 {
        lemma_num_run_le(s.drop_first(), seen_dot);
        lemma_num_run_le(s.drop_first(), true);
    }
}

/// A pattern skip never exceeds the input.
pub proof fn lemma_pat_run_le(s: Seq<char>, p: Seq<char>)
    ensures
        pat_run(s, p) <= s.len(),
    decreases s.len(),
{
    if !seq_starts_with(s, p) && s.len() > 0 {
        lemma_pat_run_le(s.drop_first(), p);
    }
}

/// A comment skip never exceeds the input.
pub proof fn lemma_comment_run_le(s: Seq<char>)
    ensures
        comment_run(s) <= s.len(),
{
    lemma_pat_run_le(s, line_comment_close());
    lemma_pat_run_le(s, block_comment_close());
}

/// A combined skip never exceeds the input.
pub proof fn lemma_skip_run_le(s: Seq<char>)
    ensures
        skip_run(s) <= s.len(),
    decreases s.len(),
{
    let w = ws_run(s);
    lemma_ws_run_le(s);
    let c = comment_run(s.skip(w as int));
    lemma_comment_run_le(s.skip(w as int));
    if w + c != 0 {
        lemma_skip_run_le(s.skip((w + c) as int));
    }
}

// ---------------------------------------------------------------------------
// Byte-length arithmetic
// ---------------------------------------------------------------------------

/// Byte length distributes over concatenation.
pub proof fn lemma_byte_len_concat(a: Seq<char>, b: Seq<char>)
    ensures
        byte_len(a + b) == byte_len(a) + byte_len(b),
    decreases a.len(),
{
    if a.len() == 0 {
        assert(a + b =~= b);
    } else {
        assert((a + b).drop_first() =~= a.drop_first() + b);
        lemma_byte_len_concat(a.drop_first(), b);
    }
}

/// Byte length splits at any index.
pub proof fn lemma_byte_len_split(s: Seq<char>, i: int)
    requires
        0 <= i <= s.len(),
    ensures
        byte_len(s) == byte_len(s.take(i)) + byte_len(s.skip(i)),
{
    assert(s =~= s.take(i) + s.skip(i));
    lemma_byte_len_concat(s.take(i), s.skip(i));
}

/// Longer prefixes occupy strictly more bytes.
pub proof fn lemma_byte_len_take_strict(s: Seq<char>, i: int, j: int)
    requires
        0 <= i < j <= s.len(),
    ensures
        byte_len(s.take(i)) < byte_len(s.take(j)),
{
    assert(s.take(j) =~= s.take(i) + s.take(j).skip(i));
    lemma_byte_len_concat(s.take(i), s.take(j).skip(i));
    assert(byte_len(s.take(j).skip(i)) > 0) by {
        let t = s.take(j).skip(i);
        assert(t.len() > 0);
        assert(byte_len(t) >= char_utf8_width(t[0]));
    }
}

/// The byte length of a prefix never exceeds the byte length of the whole.
pub proof fn lemma_byte_len_take_le(s: Seq<char>, i: int)
    requires
        0 <= i <= s.len(),
    ensures
        byte_len(s.take(i)) <= byte_len(s),
{
    lemma_byte_len_split(s, i);
}

/// Extending a prefix by one character adds exactly that character's width.
pub proof fn lemma_byte_len_take_succ(s: Seq<char>, i: int)
    requires
        0 <= i < s.len(),
    ensures
        byte_len(s.take(i + 1)) == byte_len(s.take(i)) + char_utf8_width(s[i]),
{
    assert(s.take(i + 1) =~= s.take(i) + seq![s[i]]);
    lemma_byte_len_concat(s.take(i), seq![s[i]]);
    assert(seq![s[i]].drop_first() =~= Seq::<char>::empty());
    assert(byte_len(Seq::<char>::empty()) == 0);
    assert(byte_len(seq![s[i]]) == char_utf8_width(s[i]) + byte_len(seq![s[i]].drop_first()));
}

/// A prefix of `i + j` characters splits into a prefix of `i` characters
/// and the following `j` characters.
pub proof fn lemma_byte_len_take_concat(s: Seq<char>, i: int, j: int)
    requires
        0 <= i,
        0 <= j,
        i + j <= s.len(),
    ensures
        byte_len(s.take(i + j)) == byte_len(s.take(i)) + byte_len(s.skip(i).take(j)),
{
    assert(s.take(i + j) =~= s.take(i) + s.skip(i).take(j));
    lemma_byte_len_concat(s.take(i), s.skip(i).take(j));
}

/// Equal prefix byte lengths come from equal prefix lengths.
pub proof fn lemma_byte_len_take_injective(s: Seq<char>, i: int, j: int)
    requires
        0 <= i <= s.len(),
        0 <= j <= s.len(),
        byte_len(s.take(i)) == byte_len(s.take(j)),
    ensures
        i == j,
{
    if i < j {
        lemma_byte_len_take_strict(s, i, j);
    } else if j < i {
        lemma_byte_len_take_strict(s, j, i);
    }
}

/// A sequence of ASCII characters occupies one byte per character.
pub proof fn lemma_byte_len_ascii(s: Seq<char>)
    requires
        forall|i: int| 0 <= i < s.len() ==> (s[i] as u32) < 0x80,
    ensures
        byte_len(s) == s.len(),
    decreases s.len(),
{
    if s.len() > 0 {
        lemma_byte_len_ascii(s.drop_first());
    }
}

/// `byte_len` is exactly the length of the UTF-8 encoding of `s`, as
/// defined by the encoder specification in `vstd::utf8`.
pub proof fn lemma_byte_len_is_utf8_len(s: Seq<char>)
    ensures
        byte_len(s) == vstd::utf8::encode_utf8(s).len(),
    decreases s.len(),
{
    if s.len() > 0 {
        let u = s[0] as u32;
        assert(vstd::utf8::is_scalar(u)) by {
            vstd::utf8::char_is_scalar(s[0]);
        }
        if vstd::utf8::has_width_1_encoding(u) {
            assert(vstd::utf8::encode_scalar(u).len() == 1);
        } else if vstd::utf8::has_width_2_encoding(u) {
            assert(vstd::utf8::encode_scalar(u).len() == 2);
        } else if vstd::utf8::has_width_3_encoding(u) {
            assert(vstd::utf8::encode_scalar(u).len() == 3);
        } else {
            assert(vstd::utf8::encode_scalar(u).len() == 4);
        }
        lemma_byte_len_is_utf8_len(s.drop_first());
    }
}

// ---------------------------------------------------------------------------
// Characterisations of the runs, and digit-string values
// ---------------------------------------------------------------------------

/// A prefix of whitespace characters stopped by a non-whitespace character
/// (or the end of input) is exactly the whitespace run.
pub proof fn lemma_ws_run_eq(s: Seq<char>, k: int)
    requires
        0 <= k <= s.len(),
        forall|i: int| 0 <= i < k ==> is_ws_char(s[i]),
        k == s.len() || !is_ws_char(s[k]),
    ensures
        ws_run(s) == k,
    decreases s.len(),
{
    if k > 0 {
        assert(forall|i: int| 0 <= i < k - 1 ==> is_ws_char(s.drop_first()[i]));
        lemma_ws_run_eq(s.drop_first(), k - 1);
    }
}

/// A prefix of identifier characters stopped by a non-identifier character
/// (or the end of input) is exactly the identifier run.
pub proof fn lemma_ident_run_eq(s: Seq<char>, k: int)
    requires
        0 <= k <= s.len(),
        forall|i: int| 0 <= i < k ==> is_ident_char(s[i]),
        k == s.len() || !is_ident_char(s[k]),
    ensures
        ident_run(s) == k,
    decreases s.len(),
{
    if k > 0 {
        assert(forall|i: int| 0 <= i < k - 1 ==> is_ident_char(s.drop_first()[i]));
        lemma_ident_run_eq(s.drop_first(), k - 1);
    }
}

/// Every character of a numeric run is a digit or a dot.
pub proof fn lemma_num_run_chars(s: Seq<char>, seen_dot: bool)
    ensures
        forall|i: int|
            0 <= i < num_run(s, seen_dot) ==> is_digit_char(#[trigger] s[i]) || s[i] == '.',
    decreases s.len(),
{
    if s.len() > 0 && (is_digit_char(s[0]) || (s[0] == '.' && !seen_dot)) {
        let sd2 = if is_digit_char(s[0]) {
            seen_dot
        } else {
            true
        };
        lemma_num_run_chars(s.drop_first(), sd2);
        lemma_num_run_le(s, seen_dot);
        lemma_num_run_le(s.drop_first(), sd2);
        assert(num_run(s, seen_dot) == 1 + num_run(s.drop_first(), sd2));
        assert forall|i: int|
            0 <= i < num_run(s, seen_dot) implies is_digit_char(#[trigger] s[i]) || s[i]
            == '.' by {
            if i > 0 {
                assert(s.drop_first()[i - 1] == s[i]);
                assert(i - 1 < num_run(s.drop_first(), sd2));
                assert(is_digit_char(s.drop_first()[i - 1]) || s.drop_first()[i - 1] == '.');
            }
        }
    }
}

/// The value of a digit string is non-negative.
pub proof fn lemma_digits_val_nonneg(s: Seq<char>)
    requires
        forall|i: int| 0 <= i < s.len() ==> is_digit_char(s[i]),
    ensures
        digits_val(s) >= 0,
    decreases s.len(),
{
    if s.len() > 0 {
        assert(forall|i: int| 0 <= i < s.len() - 1 ==> is_digit_char(s.drop_last()[i]));
        lemma_digits_val_nonneg(s.drop_last());
    }
}

/// Reading one more digit multiplies the prefix value by ten and adds it.
pub proof fn lemma_digits_val_take_succ(s: Seq<char>, i: int)
    requires
        0 <= i < s.len(),
    ensures
        digits_val(s.take(i + 1)) == digits_val(s.take(i)) * 10 + digit_val(s[i]),
{
    assert(s.take(i + 1).drop_last() =~= s.take(i));
    assert(s.take(i + 1).last() == s[i]);
}

/// Extending a digit string never decreases its value.
pub proof fn lemma_digits_val_prefix_le(s: Seq<char>, i: int)
    requires
        0 <= i <= s.len(),
        forall|j: int| 0 <= j < s.len() ==> is_digit_char(s[j]),
    ensures
        digits_val(s.take(i)) <= digits_val(s),
    decreases s.len(),
{
    if i == s.len() {
        assert(s.take(i) =~= s);
    } else {
        let t = s.drop_last();
        assert(forall|j: int| 0 <= j < t.len() ==> is_digit_char(t[j]));
        assert(s.take(i) =~= t.take(i));
        lemma_digits_val_prefix_le(t, i);
        lemma_digits_val_nonneg(t);
    }
}

// ---------------------------------------------------------------------------
// Error messages
// ---------------------------------------------------------------------------

/// Message of the failure reported when a classifier matches nothing.
pub open spec fn msg_no_matches() -> Seq<char> {
    "No Matches"@
}

/// Message rejecting a digit-led identifier.
pub open spec fn msg_ident_digit() -> Seq<char> {
    "Identifiers can't start with a number"@
}

/// Message rejecting a numeric literal that runs directly into a letter.
pub open spec fn msg_number_then_letter() -> Seq<char> {
    "A number can't run directly into a letter"@
}

/// Message rejecting a numeric run with a dot but no digit.
pub open spec fn msg_invalid_decimal() -> Seq<char> {
    "Invalid decimal literal"@
}

/// Message rejecting an integer literal too large for `usize`.
pub open spec fn msg_integer_overflow() -> Seq<char> {
    "Integer literal is too large"@
}

/// Context added around a failed number classification.
pub open spec fn msg_chain_number() -> Seq<char> {
    "Couldn't tokenize a number"@
}

/// Context added around a failed identifier classification.
pub open spec fn msg_chain_ident() -> Seq<char> {
    "Couldn't tokenize an identifier"@
}

/// Context the driver adds around any failure, beside the byte offset.
pub open spec fn msg_next_token() -> Seq<char> {
    "Couldn't read the next token"@
}

/// An error with no causes yet.
pub open spec fn plain_err(k: SpecErrorKind) -> SpecError {
    SpecError { kind: k, causes: Seq::empty() }
}

// ---------------------------------------------------------------------------
// Token kinds, classifiers, and the model of a whole scan
// ---------------------------------------------------------------------------

/// Mathematical view of a token kind: payload texts are character
/// sequences, integer payloads are unbounded integers.
pub enum SpecTokenKind {
    Integer(int),
    Decimal(Seq<char>),
    QuotedString(Seq<char>),
    Identifier(Seq<char>),
    Dollar,
    Hash,
    Colon,
    Underscore,
    Dot,
    Question,
    Exclamation,
    OpenParen,
    CloseParen,
    OpenSquare,
    CloseSquare,
    OpenCurly,
    CloseCurly,
    OpenAngle,
    CloseAngle,
    Plus,
    Minus,
    Slash,
    Asterisk,
    Pipe,
    Ampersand,
    Equals,
    EOF,
}

/// The token kind produced by each single-character lexeme, if any.
pub open spec fn punct_kind(c: char) -> Option<SpecTokenKind> {
    if c == '.' {
        Some(SpecTokenKind::Dot)
    } else if c == '=' {
        Some(SpecTokenKind::Equals)
    } else if c == '+' {
        Some(SpecTokenKind::Plus)
    } else if c == '-' {
        Some(SpecTokenKind::Minus)
    } else if c == '*' {
        Some(SpecTokenKind::Asterisk)
    } else if c == '/' {
        Some(SpecTokenKind::Slash)
    } else if c == '|' {
        Some(SpecTokenKind::Pipe)
    } else if c == '_' {
        Some(SpecTokenKind::Underscore)
    } else if c == '$' {
        Some(SpecTokenKind::Dollar)
    } else if c == ':' {
        Some(SpecTokenKind::Colon)
    } else if c == '#' {
        Some(SpecTokenKind::Hash)
    } else if c == '&' {
        Some(SpecTokenKind::Ampersand)
    } else if c == '(' {
        Some(SpecTokenKind::OpenParen)
    } else if c == ')' {
        Some(SpecTokenKind::CloseParen)
    } else if c == '[' {
        Some(SpecTokenKind::OpenSquare)
    } else if c == ']' {
        Some(SpecTokenKind::CloseSquare)
    } else if c == '{' {
        Some(SpecTokenKind::OpenCurly)
    } else if c == '}' {
        Some(SpecTokenKind::CloseCurly)
    } else if c == '<' {
        Some(SpecTokenKind::OpenAngle)
    } else if c == '>' {
        Some(SpecTokenKind::CloseAngle)
    } else if c == '!' {
        Some(SpecTokenKind::Exclamation)
    } else if c == '?' {
        Some(SpecTokenKind::Question)
    } else {
        None
    }
}

/// Model of the identifier classifier: empty input and digit-led input are
/// rejected; otherwise the maximal identifier prefix is the lexeme, and it
/// must be non-empty.
pub open spec fn spec_scan_identifier(s: Seq<char>) -> Result<(SpecTokenKind, nat), SpecError> {
    if s.len() == 0 {
        Err(plain_err(SpecErrorKind::UnexpectedEOF))
    } else if is_digit_char(s[0]) {
        Err(plain_err(SpecErrorKind::Msg(msg_ident_digit())))
    } else if !is_ident_char(s[0]) {
        Err(plain_err(SpecErrorKind::Msg(msg_no_matches())))
    } else {
        Ok((SpecTokenKind::Identifier(s.take(ident_run(s) as int)), ident_run(s)))
    }
}

/// Model of the number classifier.  The lexeme is the maximal numeric run.
/// It must be non-empty, may not run directly into a letter, and must hold
/// a digit.  With a dot the lexeme itself (its exact digit text) is the
/// payload of a decimal token; without one its base-ten value is the
/// payload of an integer token and must fit in `usize`.
pub open spec fn spec_scan_number(s: Seq<char>) -> Result<(SpecTokenKind, nat), SpecError> {
    let k = num_run(s, false);
    let run = s.take(k as int);
    if k == 0 {
        Err(plain_err(SpecErrorKind::Msg(msg_no_matches())))
    } else if k < s.len() && is_letter_char(s[k as int]) {
        Err(plain_err(SpecErrorKind::Msg(msg_number_then_letter())))
    } else if run.contains('.') {
        if exists|i: int| 0 <= i < run.len() && is_digit_char(run[i]) {
            Ok((SpecTokenKind::Decimal(run), k))
        } else {
            Err(plain_err(SpecErrorKind::Msg(msg_invalid_decimal())))
        }
    } else if digits_val(run) > usize::MAX as int {
        Err(plain_err(SpecErrorKind::Msg(msg_integer_overflow())))
    } else {
        Ok((SpecTokenKind::Integer(digits_val(run)), k))
    }
}

/// Model of the single-token classifier: punctuation first, then numbers on
/// a leading digit, then identifiers on a leading letter; anything else is
/// unknown, and empty input is unexpected end of input.  Classifier
/// failures are wrapped with a context message.
pub open spec fn spec_scan_token(s: Seq<char>) -> Result<(SpecTokenKind, nat), SpecError> {
    if s.len() == 0 {
        Err(plain_err(SpecErrorKind::UnexpectedEOF))
    } else if punct_kind(s[0]) is Some {
        Ok((punct_kind(s[0])->0, 1))
    } else if is_digit_char(s[0]) {
        match spec_scan_number(s) {
            Ok(r) => Ok(r),
            Err(e) => Err(spec_chain(e, SpecErrorKind::Msg(msg_chain_number()))),
        }
    } else if is_letter_char(s[0]) {
        match spec_scan_identifier(s) {
            Ok(r) => Ok(r),
            Err(e) => Err(spec_chain(e, SpecErrorKind::Msg(msg_chain_ident()))),
        }
    } else {
        Err(plain_err(SpecErrorKind::UnknownCharacter(s[0])))
    }
}

/// A successful classification consumes at least one character and at most
/// the whole input.
pub proof fn lemma_scan_token_bounds(s: Seq<char>)
    ensures
        spec_scan_token(s) matches Ok(r) ==> 1 <= r.1 <= s.len(),
{
    lemma_num_run_le(s, false);
    lemma_ident_run_le(s);
}

/// Model of a whole scan of the suffix `s`, whose first byte sits at byte
/// offset `bpos` of the original buffer.  Each step skips whitespace and
/// comments, stops cleanly at end of input, and otherwise classifies one
/// token and records its half-open byte span; the first failure is wrapped
/// with the byte offset of the failed attempt and returned instead.
pub open spec fn spec_tokens(s: Seq<char>, bpos: nat) -> Result<
    Seq<(SpecTokenKind, nat, nat)>,
    SpecError,
>
    decreases s.len(),
    via spec_tokens_decreases
{
    let k = skip_run(s) as int;
    let rest = s.skip(k);
    if rest.len() == 0 {
        Ok(Seq::empty())
    } else {
        let start = (bpos + byte_len(s.take(k))) as nat;
        match spec_scan_token(rest) {
            Err(e) => Err(
                spec_chain(e, SpecErrorKind::MessageWithLocation(start as int, msg_next_token())),
            ),
            Ok((kind, n)) => {
                let end = (start + byte_len(rest.take(n as int))) as nat;
                match spec_tokens(rest.skip(n as int), end) {
                    Ok(ts) => Ok(seq![(kind, start, end)] + ts),
                    Err(e) => Err(e),
                }
            },
        }
    }
}

#[via_fn]
proof fn spec_tokens_decreases(s: Seq<char>, bpos: nat) {
    lemma_skip_run_le(s);
    lemma_scan_token_bounds(s.skip(skip_run(s) as int));
}

} // verus!
