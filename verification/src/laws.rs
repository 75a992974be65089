//! Properties of the token stream.
//!
//! Every emitted token is non-empty and carries no leading or trailing
//! whitespace ([`lemma_token_trimmed`]); two-character operators follow
//! maximal munch ([`lemma_maximal_munch`]); on input made only of operators,
//! punctuation, digits, letters and whitespace, scanning never fails
//! ([`lemma_scan_total`]); and re-scanning the tokens joined by single spaces
//! yields the same tokens again ([`lemma_rejoin`]).

use vstd::prelude::*;

use crate::model::ScanError;
use crate::model::ScanStep;
use crate::model::digit_run_end;
use crate::model::ident_run_end;
use crate::model::is_alnum_char;
use crate::model::is_digit_char;
use crate::model::is_dup_leader;
use crate::model::is_letter_char;
use crate::model::is_op_leader;
use crate::model::is_punct_char;
use crate::model::is_space_char;
use crate::model::is_starter_char;
use crate::model::join_tokens;
use crate::model::lemma_digit_run_end;
use crate::model::lemma_ident_run_end;
use crate::model::lemma_scan_from_ok;
use crate::model::lemma_string_close;
use crate::model::scan_all_from;
use crate::model::scan_from;
use crate::model::string_close;
use crate::model::token_shape;

verus! {

/// No token of any shape is empty, starts with whitespace, or ends with
/// whitespace. (Inside a string or character literal whitespace may occur,
/// but the delimiting quotes are not whitespace.)
pub proof fn lemma_shape_trimmed(t: Seq<char>)
    requires
        token_shape(t),
    ensures
        t.len() > 0,
        !is_space_char(t[0]),
        !is_space_char(t[t.len() - 1]),
{
}

/// No emitted token is empty, and none carries leading or trailing
/// whitespace: whitespace survives only inside the body of a string or
/// character literal.
pub proof fn lemma_token_trimmed(s: Seq<char>, pos: int, t: Seq<char>, end: int)
    requires
        0 <= pos <= s.len(),
        scan_from(s, pos) == (ScanStep::Tok { text: t, end: end }),
    ensures
        t.len() > 0,
        !is_space_char(t[0]),
        !is_space_char(t[t.len() - 1]),
{
    lemma_scan_from_ok(s, pos);
    lemma_shape_trimmed(t);
}

/// Maximal munch: the scanner never emits a bare operator leader when the
/// character that would complete the two-character form stands right after
/// the token.
pub proof fn lemma_maximal_munch(s: Seq<char>, pos: int, t: Seq<char>, end: int)
    requires
        0 <= pos <= s.len(),
        scan_from(s, pos) == (ScanStep::Tok { text: t, end: end }),
    ensures
        t.len() == 1 && is_op_leader(t[0]) ==> end == s.len() || s[end] != '=',
        t.len() == 1 && is_dup_leader(t[0]) ==> end == s.len() || s[end] != t[0],
    decreases s.len() - pos,
{
    if pos < s.len() {
        let c = s[pos];
        if is_op_leader(c) || is_dup_leader(c) || is_punct_char(c) || c == '\'' {
        } else if c == '"' {
            lemma_string_close(s, pos + 1);
        } else if is_digit_char(c) {
            lemma_digit_run_end(s, pos + 1);
        } else if is_letter_char(c) {
            lemma_ident_run_end(s, pos + 1);
        } else {
            lemma_maximal_munch(s, pos + 1, t, end);
        }
    }
}

/// Characters of the plain categories: operator leaders, punctuation, digits,
/// letters, and whitespace — every supported category except the literals.
pub open spec fn plain_char(c: char) -> bool {
    is_op_leader(c) || is_dup_leader(c) || is_punct_char(c) || is_digit_char(c)
        || is_letter_char(c) || is_space_char(c)
}

proof fn lemma_scan_from_no_fail(s: Seq<char>, pos: int)
    requires
        0 <= pos <= s.len(),
        forall|k: int| pos <= k < s.len() ==> plain_char(s[k]),
    ensures
        !(scan_from(s, pos) is Fail),
    decreases s.len() - pos,
{
    if pos < s.len() && !is_starter_char(s[pos]) {
        lemma_scan_from_no_fail(s, pos + 1);
    }
}

/// On input made only of the plain categories, scanning is total: it reaches
/// end of input without ever failing. (That it is deterministic needs no
/// separate statement: [`scan_all_from`] is a function of the input sequence
/// alone, and the contract of [`crate::scanner::Tokenizer::next`] pins each
/// call's result to it.)
pub proof fn lemma_scan_total(s: Seq<char>, pos: int)
    requires
        0 <= pos <= s.len(),
        forall|k: int| 0 <= k < s.len() ==> plain_char(s[k]),
    ensures
        scan_all_from(s, pos) is Ok,
    decreases s.len() - pos,
{
    lemma_scan_from_ok(s, pos);
    lemma_scan_from_no_fail(s, pos);
    if let ScanStep::Tok { text, end } = scan_from(s, pos) {
        lemma_scan_total(s, end);
    }
}

proof fn lemma_digit_run_end_exact(s: Seq<char>, i: int, e: int)
    requires
        0 <= i <= e <= s.len(),
        forall|k: int| i <= k < e ==> is_digit_char(s[k]),
        e == s.len() || !is_digit_char(s[e]),
    ensures
        digit_run_end(s, i) == e,
    decreases e - i,
{
    if i < e {
        lemma_digit_run_end_exact(s, i + 1, e);
    }
}

proof fn lemma_ident_run_end_exact(s: Seq<char>, i: int, e: int)
    requires
        0 <= i <= e <= s.len(),
        forall|k: int| i <= k < e ==> is_alnum_char(s[k]),
        e == s.len() || !is_alnum_char(s[e]),
    ensures
        ident_run_end(s, i) == e,
    decreases e - i,
{
    if i < e {
        lemma_ident_run_end_exact(s, i + 1, e);
    }
}

proof fn lemma_string_close_exact(s: Seq<char>, i: int, close: int)
    requires
        0 <= i <= close < s.len(),
        s[close] == '"',
        forall|k: int| i <= k < close ==> s[k] != '"',
    ensures
        string_close(s, i) == Some(close),
    decreases close - i,
{
    if i < close {
        lemma_string_close_exact(s, i + 1, close);
    }
}

/// A token of any shape, standing in a text with a space (or the end of the
/// text) right after it, scans back to exactly itself.
pub proof fn lemma_token_rescan(t: Seq<char>, s2: Seq<char>, q: int)
    requires
        token_shape(t),
        0 <= q,
        q + t.len() <= s2.len(),
        s2.subrange(q, q + t.len() as int) == t,
        q + t.len() == s2.len() || s2[q + t.len()] == ' ',
    ensures
        scan_from(s2, q) == (ScanStep::Tok { text: t, end: q + t.len() }),
{
    let n = t.len() as int;
    assert forall|k: int| 0 <= k < n implies s2[q + k] == t[k] by {
        assert(s2.subrange(q, q + n)[k] == t[k]);
    }
    if n == 1 && (is_op_leader(t[0]) || is_dup_leader(t[0]) || is_punct_char(t[0])) {
        assert(seq![s2[q]] =~= t);
    } else if n == 2 && is_op_leader(t[0]) && t[1] == '=' {
        assert(seq![s2[q], '='] =~= t);
    } else if n == 2 && is_dup_leader(t[0]) && t[1] == t[0] {
        assert(seq![s2[q], s2[q]] =~= t);
    } else if t[0] == '\'' {
        assert(s2.subrange(q, q + n) =~= t);
    } else if t[0] == '"' {
        assert forall|k: int| q + 1 <= k < q + n - 1 implies s2[k] != '"' by {
            assert(s2[q + (k - q)] == t[k - q]);
        }
        lemma_string_close_exact(s2, q + 1, q + n - 1);
        assert(s2.subrange(q, q + n) =~= t);
    } else if is_digit_char(t[0]) {
        assert forall|k: int| q + 1 <= k < q + n implies is_digit_char(s2[k]) by {
            assert(s2[q + (k - q)] == t[k - q]);
        }
        lemma_digit_run_end_exact(s2, q + 1, q + n);
        assert(s2.subrange(q, q + n) =~= t);
    } else {
        assert forall|k: int| q + 1 <= k < q + n implies is_alnum_char(s2[k]) by {
            assert(s2[q + (k - q)] == t[k - q]);
        }
        lemma_ident_run_end_exact(s2, q + 1, q + n);
        assert(s2.subrange(q, q + n) =~= t);
    }
}

proof fn lemma_digit_run_end_shift(a: Seq<char>, b: Seq<char>, i: int)
    requires
        0 <= i <= b.len(),
    ensures
        digit_run_end(a + b, a.len() + i) == a.len() + digit_run_end(b, i),
    decreases b.len() - i,
{
    if i < b.len() && is_digit_char(b[i]) {
        lemma_digit_run_end_shift(a, b, i + 1);
    }
}

proof fn lemma_ident_run_end_shift(a: Seq<char>, b: Seq<char>, i: int)
    requires
        0 <= i <= b.len(),
    ensures
        ident_run_end(a + b, a.len() + i) == a.len() + ident_run_end(b, i),
    decreases b.len() - i,
{
    if i < b.len() && is_alnum_char(b[i]) {
        lemma_ident_run_end_shift(a, b, i + 1);
    }
}

proof fn lemma_string_close_shift(a: Seq<char>, b: Seq<char>, i: int)
    requires
        0 <= i <= b.len(),
    ensures
        string_close(a + b, a.len() + i) == (match string_close(b, i) {
            Some(close) => Some(a.len() + close),
            None => None::<int>,
        }),
    decreases b.len() - i,
{
    if i < b.len() && b[i] != '"' {
        lemma_string_close_shift(a, b, i + 1);
    }
}

/// Scanning depends only on the text from the current position on: one step
/// on `b` from `i` is one step on `a + b` from `a.len() + i`, with the
/// position shifted.
proof fn lemma_scan_from_shift(a: Seq<char>, b: Seq<char>, i: int)
    requires
        0 <= i <= b.len(),
    ensures
        scan_from(a + b, a.len() + i) == (match scan_from(b, i) {
            ScanStep::Tok { text, end } => ScanStep::Tok { text, end: a.len() + end },
            ScanStep::End => ScanStep::End,
            ScanStep::Fail { err } => ScanStep::Fail { err },
        }),
    decreases b.len() - i,
{
    let s2 = a + b;
    let p = a.len() + i;
    if i < b.len() {
        let c = b[i];
        if is_op_leader(c) || is_dup_leader(c) || is_punct_char(c) {
        } else if c == '\'' {
            if i + 1 < b.len() && b[i + 1] != '\'' && i + 2 < b.len() && b[i + 2] == '\'' {
                assert(s2.subrange(p, p + 3) =~= b.subrange(i, i + 3));
            } else if i + 1 < b.len() && b[i + 1] == '\'' {
                assert(s2.subrange(p, p + 2) =~= b.subrange(i, i + 2));
            }
        } else if c == '"' {
            lemma_string_close_shift(a, b, i + 1);
            lemma_string_close(b, i + 1);
            if let Some(close) = string_close(b, i + 1) {
                assert(s2.subrange(p, a.len() + close + 1) =~= b.subrange(i, close + 1));
            }
        } else if is_digit_char(c) {
            lemma_digit_run_end_shift(a, b, i + 1);
            lemma_digit_run_end(b, i + 1);
            let e = digit_run_end(b, i + 1);
            assert(s2.subrange(p, a.len() + e) =~= b.subrange(i, e));
        } else if is_letter_char(c) {
            lemma_ident_run_end_shift(a, b, i + 1);
            lemma_ident_run_end(b, i + 1);
            let e = ident_run_end(b, i + 1);
            assert(s2.subrange(p, a.len() + e) =~= b.subrange(i, e));
        } else {
            lemma_scan_from_shift(a, b, i + 1);
        }
    }
}

/// The token sequence, too, depends only on the text from the current
/// position on.
proof fn lemma_scan_all_shift(a: Seq<char>, b: Seq<char>, i: int)
    requires
        0 <= i <= b.len(),
    ensures
        scan_all_from(a + b, a.len() + i) == scan_all_from(b, i),
    decreases b.len() - i,
{
    lemma_scan_from_shift(a, b, i);
    lemma_scan_from_ok(b, i);
    if let ScanStep::Tok { text, end } = scan_from(b, i) {
        lemma_scan_all_shift(a, b, end);
    }
}

proof fn lemma_scan_all_skip(s: Seq<char>, pos: int)
    requires
        0 <= pos < s.len(),
        !is_starter_char(s[pos]),
    ensures
        scan_all_from(s, pos) == scan_all_from(s, pos + 1),
{
    assert(scan_from(s, pos) == scan_from(s, pos + 1));
}

/// Every token of a successful scan has one of the token shapes.
proof fn lemma_scan_all_shapes(s: Seq<char>, pos: int)
    requires
        0 <= pos <= s.len(),
        scan_all_from(s, pos) is Ok,
    ensures
        forall|k: int|
            0 <= k < (scan_all_from(s, pos)->Ok_0).len() ==> token_shape(
                (scan_all_from(s, pos)->Ok_0)[k],
            ),
    decreases s.len() - pos,
{
    lemma_scan_from_ok(s, pos);
    if let ScanStep::Tok { text, end } = scan_from(s, pos) {
        lemma_scan_all_shapes(s, end);
        let toks = scan_all_from(s, pos)->Ok_0;
        let rest = scan_all_from(s, end)->Ok_0;
        assert(toks == seq![text] + rest);
        assert forall|k: int| 0 <= k < toks.len() implies token_shape(toks[k]) by {
            if k > 0 {
                assert(toks[k] == rest[k - 1]);
            }
        }
    }
}

/// Scanning the tokens joined by single spaces yields exactly those tokens.
pub proof fn lemma_scan_join(toks: Seq<Seq<char>>)
    requires
        forall|k: int| 0 <= k < toks.len() ==> token_shape(toks[k]),
    ensures
        scan_all_from(join_tokens(toks), 0) == Ok::<Seq<Seq<char>>, ScanError>(toks),
    decreases toks.len(),
{
    let s2 = join_tokens(toks);
    if toks.len() == 0 {
        assert(scan_from(s2, 0) == ScanStep::End);
        assert(Seq::<Seq<char>>::empty() =~= toks);
    } else if toks.len() == 1 {
        let t = toks[0];
        lemma_shape_trimmed(t);
        let n = t.len() as int;
        assert(s2.subrange(0, n) =~= t);
        lemma_token_rescan(t, s2, 0);
        assert(scan_from(s2, n) == ScanStep::End);
        assert(scan_all_from(s2, n) == Ok::<Seq<Seq<char>>, ScanError>(Seq::empty()));
        assert(seq![t] + Seq::<Seq<char>>::empty() =~= toks);
        assert(scan_all_from(s2, 0) == Ok::<Seq<Seq<char>>, ScanError>(toks));
    } else {
        let t = toks[0];
        let rest = toks.drop_first();
        let jr = join_tokens(rest);
        let m = t.len() as int;
        let a = t + seq![' '];
        assert(s2 == a + jr);
        lemma_shape_trimmed(t);
        assert(s2.subrange(0, m) =~= t);
        assert(s2[m] == ' ');
        lemma_token_rescan(t, s2, 0);
        assert(forall|k: int| 0 <= k < rest.len() ==> token_shape(#[trigger] rest[k]));
        lemma_scan_join(rest);
        lemma_scan_all_shift(a, jr, 0);
        assert(scan_all_from(s2, m + 1) == Ok::<Seq<Seq<char>>, ScanError>(rest));
        lemma_scan_all_skip(s2, m);
        assert(scan_all_from(s2, m) == Ok::<Seq<Seq<char>>, ScanError>(rest));
        assert(seq![t] + rest =~= toks);
        assert(scan_all_from(s2, 0) == Ok::<Seq<Seq<char>>, ScanError>(toks));
    }
}

/// Re-joining is a fixed point: when a text scans without error, the
/// space-joined concatenation of its tokens scans to the identical token
/// sequence.
pub proof fn lemma_rejoin(s: Seq<char>, toks: Seq<Seq<char>>)
    requires
        scan_all_from(s, 0) == Ok::<Seq<Seq<char>>, ScanError>(toks),
    ensures
        scan_all_from(join_tokens(toks), 0) == Ok::<Seq<Seq<char>>, ScanError>(toks),
{
    lemma_scan_all_shapes(s, 0);
    assert forall|k: int| 0 <= k < toks.len() implies token_shape(toks[k]) by {
        assert(token_shape((scan_all_from(s, 0)->Ok_0)[k]));
    }
    lemma_scan_join(toks);
}

} // verus!
