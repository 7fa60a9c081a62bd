//! Laws of the scanner, proved once and for all against the model in
//! [`crate::scan`].  Through the contract of [`crate::lex::tokenize`] each
//! law carries over to the executable scanner verbatim.

use vstd::prelude::*;
use crate::scan::{
    SpecTokenKind, byte_len, comment_run, digits_val, is_digit_char, is_ident_char,
    is_letter_char, is_ws_char, lemma_byte_len_ascii, lemma_byte_len_split,
    lemma_byte_len_take_concat, lemma_byte_len_take_le, lemma_ident_run_eq, lemma_num_run_le,
    lemma_scan_token_bounds, lemma_skip_run_le, lemma_ws_run_le, num_run, punct_kind, skip_run,
    spec_scan_identifier, spec_scan_number, spec_scan_token, spec_tokens, ws_run,
};

verus! {

// ---------------------------------------------------------------------------
// Helper lemmas
// ---------------------------------------------------------------------------

/// The character right after a whitespace run is never whitespace.
proof fn lemma_ws_run_stop(s: Seq<char>)
    ensures
        ws_run(s) < s.len() ==> !is_ws_char(s[ws_run(s) as int]),
    decreases s.len(),
{
    if s.len() > 0 && is_ws_char(s[0]) {
        lemma_ws_run_stop(s.drop_first());
        if ws_run(s) < s.len() {
            assert(s.drop_first()[ws_run(s.drop_first()) as int] == s[ws_run(s) as int]);
        }
    }
}

/// An input that starts with neither whitespace nor a slash is not skipped
/// from at all.
proof fn lemma_skip_run_zero(s: Seq<char>)
    requires
        s.len() > 0,
        !is_ws_char(s[0]),
        s[0] != '/',
    ensures
        skip_run(s) == 0,
{
    assert(ws_run(s) == 0);
    assert(s.skip(0) =~= s);
    assert(comment_run(s) == 0) by {
        if crate::scan::seq_starts_with(s, crate::scan::line_comment_open()) {
            assert(s.take(2)[0] == s[0]);
        }
        if crate::scan::seq_starts_with(s, crate::scan::block_comment_open()) {
            assert(s.take(2)[0] == s[0]);
        }
    }
}

/// A run of digits prefixed to anything is consumed before the rest is
/// considered.
proof fn lemma_num_run_prefix(d: Seq<char>, t: Seq<char>, seen_dot: bool)
    requires
        forall|i: int| 0 <= i < d.len() ==> is_digit_char(#[trigger] d[i]),
    ensures
        num_run(d + t, seen_dot) == d.len() + num_run(t, seen_dot),
    decreases d.len(),
{
    if d.len() == 0 {
        assert(d + t =~= t);
    } else {
        let s = d + t;
        assert(s[0] == d[0]);
        assert(s.drop_first() =~= d.drop_first() + t);
        assert(forall|i: int|
            0 <= i < d.drop_first().len() ==> is_digit_char(#[trigger] d.drop_first()[i]));
        lemma_num_run_prefix(d.drop_first(), t, seen_dot);
    }
}

/// A scan of an input whose single-token classification consumes it whole
/// yields exactly that one token, spanning all of the input's bytes.
proof fn lemma_tokens_whole(s: Seq<char>)
    requires
        s.len() > 0,
        skip_run(s) == 0,
        spec_scan_token(s) matches Ok(p) && p.1 == s.len(),
    ensures
        spec_tokens(s, 0) == Ok::<Seq<(SpecTokenKind, nat, nat)>, crate::errors::SpecError>(
            seq![(spec_scan_token(s)->Ok_0.0, 0nat, byte_len(s))],
        ),
{
    let rest = s.skip(0);
    assert(rest =~= s);
    let p = spec_scan_token(s)->Ok_0;
    assert(s.take(0) =~= Seq::<char>::empty());
    assert(byte_len(s.take(0)) == 0);
    assert(rest.take(p.1 as int) =~= s);
    let tail = rest.skip(p.1 as int);
    assert(tail =~= Seq::<char>::empty());
    assert(ws_run(tail) == 0);
    assert(tail.skip(0) =~= tail);
    assert(skip_run(tail) == 0);
    assert(spec_tokens(tail, byte_len(s)) == Ok::<
        Seq<(SpecTokenKind, nat, nat)>,
        crate::errors::SpecError,
    >(Seq::empty()));
    assert(seq![(p.0, 0nat, byte_len(s))] + Seq::<(SpecTokenKind, nat, nat)>::empty()
        =~= seq![(p.0, 0nat, byte_len(s))]);
}

// ---------------------------------------------------------------------------
// The laws
// ---------------------------------------------------------------------------

/// An input that is one single valid identifier (it starts with a letter
/// and continues with identifier characters) scans to exactly one
/// identifier token carrying the whole input, spanning `[0, byte length)`.
///
/// The leading letter is also required not to be whitespace.  Every real
/// letter satisfies that, but beyond ASCII the two classes are distinct
/// named functions, so the model cannot rule the overlap out by itself.
pub proof fn lemma_tokenize_single_identifier(s: Seq<char>)
    requires
        s.len() > 0,
        is_letter_char(s[0]),
        !is_ws_char(s[0]),
        forall|i: int| 0 <= i < s.len() ==> is_ident_char(#[trigger] s[i]),
    ensures
        spec_tokens(s, 0) == Ok::<Seq<(SpecTokenKind, nat, nat)>, crate::errors::SpecError>(
            seq![(SpecTokenKind::Identifier(s), 0nat, byte_len(s))],
        ),
{
    lemma_skip_run_zero(s);
    assert(punct_kind(s[0]) is None);
    assert(!is_digit_char(s[0]));
    lemma_ident_run_eq(s, s.len() as int);
    assert(s.take(s.len() as int) =~= s);
    assert(spec_scan_identifier(s) == Ok::<(SpecTokenKind, nat), crate::errors::SpecError>(
        (SpecTokenKind::Identifier(s), s.len() as nat),
    ));
    lemma_tokens_whole(s);
}

/// An input that is one textual non-negative integer (all digits, value
/// within `usize`) scans to exactly one integer token with that value,
/// spanning one byte per digit.
pub proof fn lemma_tokenize_integer(s: Seq<char>)
    requires
        s.len() > 0,
        forall|i: int| 0 <= i < s.len() ==> is_digit_char(#[trigger] s[i]),
        digits_val(s) <= usize::MAX as int,
    ensures
        spec_tokens(s, 0) == Ok::<Seq<(SpecTokenKind, nat, nat)>, crate::errors::SpecError>(
            seq![(SpecTokenKind::Integer(digits_val(s)), 0nat, s.len())],
        ),
{
    lemma_skip_run_zero(s);
    assert(punct_kind(s[0]) is None);
    assert(num_run(s, false) == s.len()) by {
        lemma_num_run_prefix(s, Seq::empty(), false);
        assert(s + Seq::<char>::empty() =~= s);
    }
    let run = s.take(s.len() as int);
    assert(run =~= s);
    assert(!run.contains('.')) by {
        if run.contains('.') {
            let i = choose|i: int| 0 <= i < run.len() && run[i] == '.';
            assert(is_digit_char(s[i]));
        }
    }
    assert(spec_scan_number(s) == Ok::<(SpecTokenKind, nat), crate::errors::SpecError>(
        (SpecTokenKind::Integer(digits_val(s)), s.len() as nat),
    ));
    lemma_tokens_whole(s);
    lemma_byte_len_ascii(s);
}

/// An input of the shape `<digits>.<digits>` with exactly one dot scans to
/// exactly one decimal token carrying that exact text, spanning one byte
/// per character.
pub proof fn lemma_tokenize_decimal(d1: Seq<char>, d2: Seq<char>)
    requires
        d1.len() > 0,
        d2.len() > 0,
        forall|i: int| 0 <= i < d1.len() ==> is_digit_char(#[trigger] d1[i]),
        forall|i: int| 0 <= i < d2.len() ==> is_digit_char(#[trigger] d2[i]),
    ensures
        ({
            let s = d1 + seq!['.'] + d2;
            spec_tokens(s, 0) == Ok::<Seq<(SpecTokenKind, nat, nat)>, crate::errors::SpecError>(
                seq![(SpecTokenKind::Decimal(s), 0nat, s.len())],
            )
        }),
{
    let s = d1 + seq!['.'] + d2;
    assert(s[0] == d1[0]);
    lemma_skip_run_zero(s);
    assert(punct_kind(s[0]) is None);
    assert(num_run(s, false) == s.len()) by {
        assert(s =~= d1 + (seq!['.'] + d2));
        lemma_num_run_prefix(d1, seq!['.'] + d2, false);
        assert((seq!['.'] + d2)[0] == '.');
        assert((seq!['.'] + d2).drop_first() =~= d2);
        assert(num_run(seq!['.'] + d2, false) == 1 + num_run(d2, true));
        lemma_num_run_prefix(d2, Seq::empty(), true);
        assert(d2 + Seq::<char>::empty() =~= d2);
    }
    let run = s.take(s.len() as int);
    assert(run =~= s);
    assert(run.contains('.')) by {
        assert(s[d1.len() as int] == '.');
    }
    assert(exists|i: int| 0 <= i < run.len() && is_digit_char(run[i])) by {
        assert(is_digit_char(run[0]));
    }
    assert(spec_scan_number(s) == Ok::<(SpecTokenKind, nat), crate::errors::SpecError>(
        (SpecTokenKind::Decimal(s), s.len() as nat),
    ));
    lemma_tokens_whole(s);
    assert(byte_len(s) == s.len()) by {
        assert(forall|i: int| 0 <= i < s.len() ==> (#[trigger] s[i] as u32) < 0x80);
        lemma_byte_len_ascii(s);
    }
}

/// An input with a second dot splits: the single-token classifier consumes
/// exactly the `<digits>.<digits>` prefix as one decimal token and leaves
/// everything from the second dot onward unconsumed.
pub proof fn lemma_second_dot_splits(d1: Seq<char>, d2: Seq<char>, rest: Seq<char>)
    requires
        d1.len() > 0,
        forall|i: int| 0 <= i < d1.len() ==> is_digit_char(#[trigger] d1[i]),
        forall|i: int| 0 <= i < d2.len() ==> is_digit_char(#[trigger] d2[i]),
    ensures
        ({
            let s = d1 + seq!['.'] + d2 + seq!['.'] + rest;
            spec_scan_token(s) == Ok::<(SpecTokenKind, nat), crate::errors::SpecError>(
                (
                    SpecTokenKind::Decimal(d1 + seq!['.'] + d2),
                    (d1.len() + 1 + d2.len()) as nat,
                ),
            )
        }),
{
    let s = d1 + seq!['.'] + d2 + seq!['.'] + rest;
    let k = d1.len() + 1 + d2.len();
    assert(s[0] == d1[0]);
    assert(punct_kind(s[0]) is None);
    assert(num_run(s, false) == k) by {
        assert(s =~= d1 + (seq!['.'] + (d2 + (seq!['.'] + rest))));
        lemma_num_run_prefix(d1, seq!['.'] + (d2 + (seq!['.'] + rest)), false);
        let t1 = seq!['.'] + (d2 + (seq!['.'] + rest));
        assert(t1[0] == '.');
        assert(t1.drop_first() =~= d2 + (seq!['.'] + rest));
        lemma_num_run_prefix(d2, seq!['.'] + rest, true);
        assert((seq!['.'] + rest)[0] == '.');
        assert(num_run(seq!['.'] + rest, true) == 0);
    }
    lemma_num_run_le(s, false);
    assert(s[k as int] == '.');
    assert(!is_letter_char(s[k as int]));
    let run = s.take(k as int);
    assert(run =~= d1 + seq!['.'] + d2);
    assert(run.contains('.')) by {
        assert(run[d1.len() as int] == '.');
    }
    assert(exists|i: int| 0 <= i < run.len() && is_digit_char(run[i])) by {
        assert(is_digit_char(run[0]));
    }
}

/// The token kind `k` describes the lexeme text `lex`: a payload token
/// carries exactly that text (an integer its base-ten value), and a
/// punctuation token stands for its single character.  No scan ever
/// produces a quoted string or an end-of-file token.
pub open spec fn lexeme_matches(k: SpecTokenKind, lex: Seq<char>) -> bool {
    match k {
        SpecTokenKind::Integer(v) => {
            &&& lex.len() > 0
            &&& forall|i: int| 0 <= i < lex.len() ==> is_digit_char(#[trigger] lex[i])
            &&& digits_val(lex) == v
        },
        SpecTokenKind::Decimal(t) => t == lex,
        SpecTokenKind::QuotedString(_) => false,
        SpecTokenKind::Identifier(t) => t == lex,
        SpecTokenKind::Dollar => lex == seq!['$'],
        SpecTokenKind::Hash => lex == seq!['#'],
        SpecTokenKind::Colon => lex == seq![':'],
        SpecTokenKind::Underscore => lex == seq!['_'],
        SpecTokenKind::Dot => lex == seq!['.'],
        SpecTokenKind::Question => lex == seq!['?'],
        SpecTokenKind::Exclamation => lex == seq!['!'],
        SpecTokenKind::OpenParen => lex == seq!['('],
        SpecTokenKind::CloseParen => lex == seq![')'],
        SpecTokenKind::OpenSquare => lex == seq!['['],
        SpecTokenKind::CloseSquare => lex == seq![']'],
        SpecTokenKind::OpenCurly => lex == seq!['{'],
        SpecTokenKind::CloseCurly => lex == seq!['}'],
        SpecTokenKind::OpenAngle => lex == seq!['<'],
        SpecTokenKind::CloseAngle => lex == seq!['>'],
        SpecTokenKind::Plus => lex == seq!['+'],
        SpecTokenKind::Minus => lex == seq!['-'],
        SpecTokenKind::Slash => lex == seq!['/'],
        SpecTokenKind::Asterisk => lex == seq!['*'],
        SpecTokenKind::Pipe => lex == seq!['|'],
        SpecTokenKind::Ampersand => lex == seq!['&'],
        SpecTokenKind::Equals => lex == seq!['='],
        SpecTokenKind::EOF => false,
    }
}

/// The token `t` is located in the source `s` (whose first byte sits at
/// byte offset `bpos`) by the character segment `[a, b)`: its byte span is
/// exactly that segment's byte range, and the segment is its lexeme.
pub open spec fn span_source(
    s: Seq<char>,
    bpos: nat,
    t: (SpecTokenKind, nat, nat),
    a: int,
    b: int,
) -> bool {
    &&& 0 <= a < b <= s.len()
    &&& t.1 == bpos + byte_len(s.take(a))
    &&& t.2 == bpos + byte_len(s.take(b))
    &&& lexeme_matches(t.0, s.subrange(a, b))
}

/// What the single-token classifier consumes is the lexeme of the token
/// it produces.
proof fn lemma_scan_token_lexeme(s: Seq<char>)
    requires
        spec_scan_token(s) matches Ok(p),
    ensures
        lexeme_matches(spec_scan_token(s)->Ok_0.0, s.take(spec_scan_token(s)->Ok_0.1 as int)),
{
    let p = spec_scan_token(s)->Ok_0;
    if punct_kind(s[0]) is Some {
        assert(s.take(1) =~= seq![s[0]]);
    } else if is_digit_char(s[0]) {
        let k = num_run(s, false) as int;
        let run = s.take(k);
        if !run.contains('.') {
            crate::scan::lemma_num_run_chars(s, false);
            lemma_num_run_le(s, false);
            assert forall|i: int| 0 <= i < run.len() implies is_digit_char(
                #[trigger] run[i],
            ) by {
                assert(run[i] == s[i]);
                if !is_digit_char(s[i]) {
                    assert(run.contains('.'));
                }
            }
        }
    } else {
    }
}

/// Round-trip of spans: a successful scan tiles the source.  Every token's
/// half-open byte span `[start, end)` is the byte range of a character
/// segment of the source, that segment is exactly the token's lexeme, the
/// spans lie in input order without overlap, and all of them fall inside
/// the scanned suffix.  Concatenating the spanned substrings in order
/// therefore reconstructs every lexeme of the input.
#[verifier::rlimit(100)]
#[verifier::spinoff_prover]
pub proof fn lemma_round_trip_spans(s: Seq<char>, bpos: nat)
    ensures
        spec_tokens(s, bpos) matches Ok(toks) ==> {
            &&& forall|i: int|
                #![trigger toks[i]]
                0 <= i < toks.len() ==> exists|a: int, b: int|
                    #[trigger] span_source(s, bpos, toks[i], a, b)
            &&& forall|i: int|
                0 <= i < toks.len() ==> bpos <= (#[trigger] toks[i]).1 < toks[i].2 <= bpos
                    + byte_len(s)
            &&& forall|i: int| 0 <= i < toks.len() - 1 ==> (#[trigger] toks[i]).2 <= toks[i + 1].1
        },
    decreases s.len(),
{
    let k = skip_run(s) as int;
    lemma_skip_run_le(s);
    let rest = s.skip(k);
    if rest.len() == 0 {
    } else {
        match spec_scan_token(rest) {
            Err(_) => {},
            Ok(p) => {
                lemma_scan_token_bounds(rest);
                let n = p.1 as int;
                let start = (bpos + byte_len(s.take(k))) as nat;
                let end = (start + byte_len(rest.take(n))) as nat;
                let tail_s = rest.skip(n);
                assert(tail_s.len() < s.len());
                lemma_round_trip_spans(tail_s, end);
                match spec_tokens(tail_s, end) {
                    Err(_) => {},
                    Ok(ts) => {
                        let toks = seq![(p.0, start, end)] + ts;
                        assert(spec_tokens(s, bpos) == Ok::<
                            Seq<(SpecTokenKind, nat, nat)>,
                            crate::errors::SpecError,
                        >(toks));
                        lemma_byte_len_take_concat(s, k, n);
                        assert(s.skip(k).take(n) =~= s.subrange(k, k + n));
                        assert(rest.take(n) == s.subrange(k, k + n));
                        lemma_scan_token_lexeme(rest);
                        assert(byte_len(rest.take(n)) > 0) by {
                            assert(rest.take(n).len() == n >= 1);
                        }
                        assert(span_source(s, bpos, toks[0], k, k + n));
                        lemma_byte_len_split(s, k + n);
                        assert(tail_s =~= s.skip(k + n));
                        assert(end + byte_len(tail_s) == bpos + byte_len(s));
                        assert forall|i: int| #![trigger toks[i]]
                            1 <= i < toks.len() implies exists|a: int, b: int|
                            #[trigger] span_source(s, bpos, toks[i], a, b) by {
                            assert(toks[i] == ts[i - 1]);
                            let (a2, b2) = choose|a: int, b: int|
                                #[trigger] span_source(tail_s, end, ts[i - 1], a, b);
                            lemma_byte_len_take_concat(s, k + n, a2);
                            lemma_byte_len_take_concat(s, k + n, b2);
                            assert(s.skip(k + n).take(a2) =~= tail_s.take(a2));
                            assert(s.skip(k + n).take(b2) =~= tail_s.take(b2));
                            assert(s.subrange(k + n + a2, k + n + b2) =~= tail_s.subrange(
                                a2,
                                b2,
                            ));
                            assert(span_source(s, bpos, toks[i], k + n + a2, k + n + b2));
                        }
                        assert forall|i: int|
                            0 <= i < toks.len() implies bpos <= (#[trigger] toks[i]).1
                            < toks[i].2 <= bpos + byte_len(s) by {
                            if i > 0 {
                                assert(toks[i] == ts[i - 1]);
                            } else {
                                lemma_byte_len_take_le(s, k);
                                lemma_byte_len_take_le(s, k + n);
                            }
                        }
                        assert forall|i: int|
                            0 <= i < toks.len() - 1 implies (#[trigger] toks[i]).2 <= toks[i
                            + 1].1 by {
                            if i > 0 {
                                assert(toks[i] == ts[i - 1]);
                                assert(toks[i + 1] == ts[i]);
                            } else {
                                assert(toks[1] == ts[0]);
                            }
                        }
                    },
                }
            },
        }
    }
}

/// Idempotence of the whitespace skip: immediately after a full skip, a
/// second skip consumes nothing.
pub proof fn lemma_skip_whitespace_idempotent(s: Seq<char>)
    ensures
        ws_run(s.skip(ws_run(s) as int)) == 0,
{
    lemma_ws_run_le(s);
    lemma_ws_run_stop(s);
    let t = s.skip(ws_run(s) as int);
    if t.len() > 0 {
        assert(t[0] == s[ws_run(s) as int]);
    }
}

} // verus!
