//! Mathematical model of the scanner.
//!
//! [`scan_from`] describes one call of the scanner: starting at a position in
//! the source, it skips separators and either produces the next token together
//! with the position just past it, reports end of input, or fails on a
//! malformed or unterminated literal. [`scan_all_from`] iterates it to the
//! whole token sequence.

use vstd::prelude::*;

verus! {

/// The failures of the scanner. All of them concern literals: everything else
/// that can appear in the input is either a token, a separator, or skipped.
#[derive(Debug, Clone, Copy, PartialEq, Eq, Structural)]
pub enum ScanError {
    /// A character literal whose content is not exactly one character
    /// between its delimiting quotes.
    MalformedCharLiteral,
    /// Input ended inside a character literal, before its closing quote.
    UnterminatedCharLiteral,
    /// Input ended inside a string literal, before its closing quote.
    UnterminatedStringLiteral,
}

/// The outcome of one scanning step: a token with the position just past it,
/// end of input, or a failure.
pub enum ScanStep {
    Tok { text: Seq<char>, end: int },
    End,
    Fail { err: ScanError },
}

/// Leaders of the relational family: each forms a two-character token with a
/// following `=`, and stands alone otherwise.
pub open spec fn is_op_leader(c: char) -> bool {
    c == '>' || c == '<' || c == '=' || c == '!'
}

/// Leaders that double themselves: `+` and `-` form `++` and `--`.
pub open spec fn is_dup_leader(c: char) -> bool {
    c == '+' || c == '-'
}

/// Fixed single-character tokens, emitted without lookahead.
pub open spec fn is_punct_char(c: char) -> bool {
    c == '*' || c == '/' || c == '(' || c == ')' || c == ';' || c == '{' || c == '}' || c == ','
}

/// ASCII decimal digits.
pub open spec fn is_digit_char(c: char) -> bool {
    48 <= c as u32 && c as u32 <= 57
}

/// ASCII letters.
pub open spec fn is_letter_char(c: char) -> bool {
    (97 <= c as u32 && c as u32 <= 122) || (65 <= c as u32 && c as u32 <= 90)
}

/// Characters that may continue an identifier.
pub open spec fn is_alnum_char(c: char) -> bool {
    is_digit_char(c) || is_letter_char(c)
}

/// Unicode whitespace, the set recognized by `char::is_whitespace`.
pub open spec fn is_space_char(c: char) -> bool {
    c == ' ' || c == '\t' || c == '\n' || c == '\u{b}' || c == '\u{c}' || c == '\r'
        || c == '\u{85}' || c == '\u{a0}' || c == '\u{1680}' || c == '\u{2000}'
        || c == '\u{2001}' || c == '\u{2002}' || c == '\u{2003}' || c == '\u{2004}'
        || c == '\u{2005}' || c == '\u{2006}' || c == '\u{2007}' || c == '\u{2008}'
        || c == '\u{2009}' || c == '\u{200a}' || c == '\u{2028}' || c == '\u{2029}'
        || c == '\u{202f}' || c == '\u{205f}' || c == '\u{3000}'
}

/// Characters that begin a token. Everything else (whitespace or an
/// unrecognized character) is skipped by the scanner.
pub open spec fn is_starter_char(c: char) -> bool {
    is_op_leader(c) || is_dup_leader(c) || is_punct_char(c) || c == '\'' || c == '"'
        || is_digit_char(c) || is_letter_char(c)
}

/// First position at or after `i` that does not hold a digit.
pub open spec fn digit_run_end(s: Seq<char>, i: int) -> int
    decreases s.len() - i,
{
    if i < s.len() && is_digit_char(s[i]) {
        digit_run_end(s, i + 1)
    } else {
        i
    }
}

/// First position at or after `i` that does not hold a letter or digit.
pub open spec fn ident_run_end(s: Seq<char>, i: int) -> int
    decreases s.len() - i,
{
    if i < s.len() && is_alnum_char(s[i]) {
        ident_run_end(s, i + 1)
    } else {
        i
    }
}

/// Position of the first `"` at or after `i`, if any.
pub open spec fn string_close(s: Seq<char>, i: int) -> Option<int>
    decreases s.len() - i,
{
    if i >= s.len() {
        None
    } else if s[i] == '"' {
        Some(i)
    } else {
        string_close(s, i + 1)
    }
}

/// One scanning step from position `pos`: skip separators, then classify the
/// first remaining character and take the token it starts, following maximal
/// munch for two-character operators and runs of digits or identifier
/// characters. Literals run to their closing quote and fail if it is missing
/// or, for character literals, misplaced.
pub open spec fn scan_from(s: Seq<char>, pos: int) -> ScanStep
    decreases s.len() - pos,
{
    if pos >= s.len() {
        ScanStep::End
    } else {
        let c = s[pos];
        if is_op_leader(c) {
            if pos + 1 < s.len() && s[pos + 1] == '=' {
                ScanStep::Tok { text: seq![c, '='], end: pos + 2 }
            } else {
                ScanStep::Tok { text: seq![c], end: pos + 1 }
            }
        } else if is_dup_leader(c) {
            if pos + 1 < s.len() && s[pos + 1] == c {
                ScanStep::Tok { text: seq![c, c], end: pos + 2 }
            } else {
                ScanStep::Tok { text: seq![c], end: pos + 1 }
            }
        } else if is_punct_char(c) {
            ScanStep::Tok { text: seq![c], end: pos + 1 }
        } else if c == '\'' {
            if pos + 1 >= s.len() {
                ScanStep::Fail { err: ScanError::UnterminatedCharLiteral }
            } else if s[pos + 1] == '\'' {
                ScanStep::Tok { text: s.subrange(pos, pos + 2), end: pos + 2 }
            } else if pos + 2 >= s.len() {
                ScanStep::Fail { err: ScanError::UnterminatedCharLiteral }
            } else if s[pos + 2] != '\'' {
                ScanStep::Fail { err: ScanError::MalformedCharLiteral }
            } else {
                ScanStep::Tok { text: s.subrange(pos, pos + 3), end: pos + 3 }
            }
        } else if c == '"' {
            match string_close(s, pos + 1) {
                Some(close) => ScanStep::Tok { text: s.subrange(pos, close + 1), end: close + 1 },
                None => ScanStep::Fail { err: ScanError::UnterminatedStringLiteral },
            }
        } else if is_digit_char(c) {
            let e = digit_run_end(s, pos + 1);
            ScanStep::Tok { text: s.subrange(pos, e), end: e }
        } else if is_letter_char(c) {
            let e = ident_run_end(s, pos + 1);
            ScanStep::Tok { text: s.subrange(pos, e), end: e }
        } else {
            scan_from(s, pos + 1)
        }
    }
}

/// The shapes a token can take: an operator with or without its second
/// character, punctuation, a character literal (possibly empty), a string
/// literal, a digit run, or an identifier.
pub open spec fn token_shape(t: Seq<char>) -> bool {
    ||| (t.len() == 1 && (is_op_leader(t[0]) || is_dup_leader(t[0]) || is_punct_char(t[0])))
    ||| (t.len() == 2 && is_op_leader(t[0]) && t[1] == '=')
    ||| (t.len() == 2 && is_dup_leader(t[0]) && t[1] == t[0])
    ||| (t.len() == 2 && t[0] == '\'' && t[1] == '\'')
    ||| (t.len() == 3 && t[0] == '\'' && t[1] != '\'' && t[2] == '\'')
    ||| (t.len() >= 2 && t[0] == '"' && t.last() == '"'
        && (forall|k: int| 1 <= k < t.len() - 1 ==> t[k] != '"'))
    ||| (t.len() >= 1 && (forall|k: int| 0 <= k < t.len() ==> is_digit_char(t[k])))
    ||| (t.len() >= 1 && is_letter_char(t[0])
        && (forall|k: int| 1 <= k < t.len() ==> is_alnum_char(t[k])))
}

pub proof fn lemma_digit_run_end(s: Seq<char>, i: int)
    requires
        0 <= i <= s.len(),
    ensures
        i <= digit_run_end(s, i) <= s.len(),
        forall|k: int| i <= k < digit_run_end(s, i) ==> is_digit_char(s[k]),
        digit_run_end(s, i) == s.len() || !is_digit_char(s[digit_run_end(s, i)]),
    decreases s.len() - i,
{
    if i < s.len() && is_digit_char(s[i]) {
        lemma_digit_run_end(s, i + 1);
    }
}

pub proof fn lemma_ident_run_end(s: Seq<char>, i: int)
    requires
        0 <= i <= s.len(),
    ensures
        i <= ident_run_end(s, i) <= s.len(),
        forall|k: int| i <= k < ident_run_end(s, i) ==> is_alnum_char(s[k]),
        ident_run_end(s, i) == s.len() || !is_alnum_char(s[ident_run_end(s, i)]),
    decreases s.len() - i,
{
    if i < s.len() && is_alnum_char(s[i]) {
        lemma_ident_run_end(s, i + 1);
    }
}

pub proof fn lemma_string_close(s: Seq<char>, i: int)
    requires
        0 <= i <= s.len(),
    ensures
        match string_close(s, i) {
            Some(close) => i <= close < s.len() && s[close] == '"'
                && (forall|k: int| i <= k < close ==> s[k] != '"'),
            None => forall|k: int| i <= k < s.len() ==> s[k] != '"',
        },
    decreases s.len() - i,
{
    if i < s.len() && s[i] != '"' {
        lemma_string_close(s, i + 1);
    }
}

/// Every emitted token advances the position, stays inside the source, and
/// has one of the token shapes.
pub proof fn lemma_scan_from_ok(s: Seq<char>, pos: int)
    requires
        0 <= pos <= s.len(),
    ensures
        match scan_from(s, pos) {
            ScanStep::Tok { text, end } => pos < end <= s.len() && token_shape(text),
            ScanStep::End => true,
            ScanStep::Fail { err } => true,
        },
    decreases s.len() - pos,
{
    if pos < s.len() {
        let c = s[pos];
        if is_op_leader(c) || is_dup_leader(c) || is_punct_char(c) {
        } else if c == '\'' {
        } else if c == '"' {
            lemma_string_close(s, pos + 1);
            if let Some(close) = string_close(s, pos + 1) {
                let t = s.subrange(pos, close + 1);
                assert(t.last() == '"');
                assert(forall|k: int| 1 <= k < t.len() - 1 ==> t[k] != '"');
            }
        } else if is_digit_char(c) {
            lemma_digit_run_end(s, pos + 1);
            let e = digit_run_end(s, pos + 1);
            let t = s.subrange(pos, e);
            assert(forall|k: int| 0 <= k < t.len() ==> is_digit_char(t[k]));
        } else if is_letter_char(c) {
            lemma_ident_run_end(s, pos + 1);
            let e = ident_run_end(s, pos + 1);
            let t = s.subrange(pos, e);
            assert(forall|k: int| 1 <= k < t.len() ==> is_alnum_char(t[k]));
        } else {
            lemma_scan_from_ok(s, pos + 1);
        }
    }
}

/// The whole token sequence of `s` from position `pos` on: the tokens of the
/// successive scanning steps, or the error of the first failing one.
pub open spec fn scan_all_from(s: Seq<char>, pos: int) -> Result<Seq<Seq<char>>, ScanError>
    decreases s.len() - pos,
    when 0 <= pos <= s.len()
    via scan_all_from_decreases
{
    match scan_from(s, pos) {
        ScanStep::End => Ok(Seq::empty()),
        ScanStep::Fail { err } => Err(err),
        ScanStep::Tok { text, end } => match scan_all_from(s, end) {
            Ok(rest) => Ok(seq![text] + rest),
            Err(e) => Err(e),
        },
    }
}

#[via_fn]
proof fn scan_all_from_decreases(s: Seq<char>, pos: int) {
    lemma_scan_from_ok(s, pos);
}

/// The tokens joined back into one text, separated by single spaces.
pub open spec fn join_tokens(toks: Seq<Seq<char>>) -> Seq<char>
    decreases toks.len(),
{
    if toks.len() == 0 {
        Seq::empty()
    } else if toks.len() == 1 {
        toks[0]
    } else {
        toks[0] + seq![' '] + join_tokens(toks.drop_first())
    }
}

} // verus!
