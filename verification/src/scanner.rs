//! The executable scanner.
//!
//! [`Tokenizer`] borrows the source text and advances a cursor over it; each
//! call of [`Tokenizer::next`] performs one step of [`crate::model::scan_from`]
//! and returns the token it describes, `None` at end of input, or the error of
//! a malformed or unterminated literal.

use vstd::prelude::*;
use vstd::string::StrSliceExecFns;

use crate::model::ScanError;
use crate::model::ScanStep;
use crate::model::is_alnum_char;
use crate::model::is_digit_char;
use crate::model::is_letter_char;
use crate::model::is_starter_char;
use crate::model::lemma_scan_from_ok;
use crate::model::scan_all_from;
use crate::model::scan_from;

verus! {

/// A pull-based scanner over a borrowed source text. The cursor only moves
/// forward; the scanner is not restartable mid-stream.
pub struct Tokenizer<'a> {
    code: &'a str,
    pos: usize,
}

impl<'a> Tokenizer<'a> {
    /// The source text being scanned, as a sequence of characters.
    pub closed spec fn src(self) -> Seq<char> {
        self.code@
    }

    /// The current read position, as a character index into [`Self::src`].
    pub closed spec fn cursor(self) -> int {
        self.pos as int
    }

    /// The cursor lies inside the source. Established by [`Self::new`] and
    /// preserved by [`Self::next`].
    pub open spec fn wf(self) -> bool {
        0 <= self.cursor() <= self.src().len()
    }

    /// A scanner over `code`, positioned at its start.
    pub fn new(code: &'a str) -> (t: Tokenizer<'a>)
        ensures
            t.wf(),
            t.src() == code@,
            t.cursor() == 0,
    {
        Tokenizer { code, pos: 0 }
    }

    /// The next token of the source, `Ok(None)` once the input is exhausted,
    /// or the error of a malformed or unterminated literal — exactly as
    /// [`scan_from`] describes for the current cursor.
    pub fn next(&mut self) -> (r: Result<Option<String>, ScanError>)
        requires
            old(self).wf(),
        ensures
            final(self).wf(),
            final(self).src() == old(self).src(),
            old(self).cursor() <= final(self).cursor(),
            (match scan_from(old(self).src(), old(self).cursor()) {
                ScanStep::Tok { text, end } => {
                    &&& r matches Ok(Some(tok)) && tok@ == text
                    &&& final(self).cursor() == end
                },
                ScanStep::End => {
                    &&& r matches Ok(None::<String>)
                    &&& final(self).cursor() == old(self).src().len()
                },
                ScanStep::Fail { err } => r matches Err(e) && e == err,
            }),
    {
        let ghost s = self.code@;
        let len = self.code.unicode_len();

        // Skip whitespace and unrecognized characters.
        loop
            invariant
                old(self).wf(),
                s == old(self).src(),
                self.code@ == s,
                self.pos <= len,
                len == s.len(),
                old(self).cursor() <= self.cursor(),
                scan_from(s, self.cursor()) == scan_from(s, old(self).cursor()),
            ensures
                self.pos < len,
                is_starter_char(s[self.pos as int]),
            decreases len - self.pos,
        {
            if self.pos >= len {
                return Ok(None);
            }
            let c = self.code.get_char(self.pos);
            if starter(c) {
                break;
            }
            assert(scan_from(s, self.pos as int) == scan_from(s, self.pos + 1));
            self.pos = self.pos + 1;
        }

        let start = self.pos;
        let c = self.code.get_char(start);
        let end: usize;

        // Relational, equality, assignment and negation leaders: one character,
        // or two when `=` follows.
        if c == '>' || c == '<' || c == '=' || c == '!' {
            if start + 1 < len && self.code.get_char(start + 1) == '=' {
                end = start + 2;
            } else {
                end = start + 1;
            }
            assert(s.subrange(start as int, end as int) =~= (scan_from(s, start as int)->Tok_text));
        } else if c == '+' || c == '-' {
            // Increment and decrement leaders: doubled when the same character
            // follows.
            if start + 1 < len && self.code.get_char(start + 1) == c {
                end = start + 2;
            } else {
                end = start + 1;
            }
            assert(s.subrange(start as int, end as int) =~= (scan_from(s, start as int)->Tok_text));
        } else if c == '*' || c == '/' || c == '(' || c == ')' || c == ';' || c == '{' || c == '}'
            || c == ',' {
            // Fixed single-character tokens.
            end = start + 1;
            assert(s.subrange(start as int, end as int) =~= (scan_from(s, start as int)->Tok_text));
        } else if c == '\'' {
            // Character literal: at most one content character between the
            // quotes.
            if start + 1 >= len {
                self.pos = len;
                return Err(ScanError::UnterminatedCharLiteral);
            }
            if self.code.get_char(start + 1) == '\'' {
                end = start + 2;
            } else {
                if start + 2 >= len {
                    self.pos = len;
                    return Err(ScanError::UnterminatedCharLiteral);
                }
                if self.code.get_char(start + 2) != '\'' {
                    return Err(ScanError::MalformedCharLiteral);
                }
                end = start + 3;
            }
        } else if c == '"' {
            // String literal: everything up to the closing quote.
            let mut j = start + 1;
            loop
                invariant
                    old(self).wf(),
                    s == old(self).src(),
                    self.code@ == s,
                    len == s.len(),
                    start < j <= len,
                    s[start as int] == '"',
                    scan_from(s, start as int) == scan_from(s, old(self).cursor()),
                    crate::model::string_close(s, start + 1) == crate::model::string_close(
                        s,
                        j as int,
                    ),
                ensures
                    start < j < len,
                    self.code@ == s,
                    crate::model::string_close(s, start + 1) == Some(j as int),
                decreases len - j,
            {
                if j >= len {
                    self.pos = len;
                    return Err(ScanError::UnterminatedStringLiteral);
                }
                if self.code.get_char(j) == '"' {
                    break;
                }
                assert(crate::model::string_close(s, j as int) == crate::model::string_close(
                    s,
                    j + 1,
                ));
                j = j + 1;
            }
            end = j + 1;
        } else if digit(c) {
            // Numeric literal: a maximal run of digits.
            let mut e = start + 1;
            loop
                invariant
                    self.code@ == s,
                    len == s.len(),
                    start < e <= len,
                    crate::model::digit_run_end(s, start + 1) == crate::model::digit_run_end(
                        s,
                        e as int,
                    ),
                ensures
                    start < e <= len,
                    crate::model::digit_run_end(s, start + 1) == e as int,
                decreases len - e,
            {
                if e >= len {
                    break;
                }
                if !digit(self.code.get_char(e)) {
                    break;
                }
                assert(crate::model::digit_run_end(s, e as int) == crate::model::digit_run_end(
                    s,
                    e + 1,
                ));
                e = e + 1;
            }
            end = e;
        } else {
            // Identifier, the only remaining starter class: a letter, then a
            // maximal run of letters and digits.
            let mut e = start + 1;
            loop
                invariant
                    self.code@ == s,
                    len == s.len(),
                    start < e <= len,
                    crate::model::ident_run_end(s, start + 1) == crate::model::ident_run_end(
                        s,
                        e as int,
                    ),
                ensures
                    start < e <= len,
                    crate::model::ident_run_end(s, start + 1) == e as int,
                decreases len - e,
            {
                if e >= len {
                    break;
                }
                if !alnum(self.code.get_char(e)) {
                    break;
                }
                assert(crate::model::ident_run_end(s, e as int) == crate::model::ident_run_end(
                    s,
                    e + 1,
                ));
                e = e + 1;
            }
            end = e;
        }

        assert(scan_from(s, start as int) == (ScanStep::Tok {
            text: s.subrange(start as int, end as int),
            end: end as int,
        }));
        let tok = self.code.substring_char(start, end).to_owned();
        self.pos = end;
        Ok(Some(tok))
    }
}

/// All tokens of `code` in order, or the error of the first failing literal —
/// exactly the token sequence that [`scan_all_from`] gives for the whole text.
pub fn tokenize_all(code: &str) -> (r: Result<Vec<String>, ScanError>)
    ensures
        (match scan_all_from(code@, 0) {
            Ok(toks) => r matches Ok(v) && v.deep_view() == toks,
            Err(err) => r matches Err(e) && e == err,
        }),
{
    let mut t = Tokenizer::new(code);
    let mut acc: Vec<String> = Vec::new();
    loop
        invariant
            t.wf(),
            t.src() == code@,
            scan_all_from(code@, 0) == (match scan_all_from(code@, t.cursor()) {
                Ok(rest) => Ok::<Seq<Seq<char>>, ScanError>(acc.deep_view() + rest),
                Err(err) => Err::<Seq<Seq<char>>, ScanError>(err),
            }),
        decreases code@.len() - t.cursor(),
    {
        let ghost pre = t.cursor();
        let ghost accv = acc.deep_view();
        proof {
            lemma_scan_from_ok(code@, pre);
        }
        let step = t.next();
        match step {
            Ok(Some(tok)) => {
                proof {
                    let text = scan_from(code@, pre)->Tok_text;
                    let end = scan_from(code@, pre)->Tok_end;
                    if let Ok(rest) = scan_all_from(code@, end) {
                        assert(accv + (seq![text] + rest) =~= accv.push(text) + rest);
                    }
                }
                acc.push(tok);
                assert(acc.deep_view() =~= accv.push(scan_from(code@, pre)->Tok_text));
            },
            Ok(None) => {
                assert(acc.deep_view() + Seq::<Seq<char>>::empty() =~= acc.deep_view());
                return Ok(acc);
            },
            Err(e) => {
                return Err(e);
            },
        }
    }
}

/// Whether `c` begins a token, mirroring [`is_starter_char`].
fn starter(c: char) -> (b: bool)
    ensures
        b == is_starter_char(c),
{
    c == '>' || c == '<' || c == '=' || c == '!' || c == '+' || c == '-' || c == '*' || c == '/'
        || c == '(' || c == ')' || c == ';' || c == '{' || c == '}' || c == ',' || c == '\''
        || c == '"' || digit(c) || letter(c)
}

/// Whether `c` is an ASCII digit, mirroring [`is_digit_char`].
fn digit(c: char) -> (b: bool)
    ensures
        b == is_digit_char(c),
{
    let u = c as u32;
    48 <= u && u <= 57
}

/// Whether `c` is an ASCII letter, mirroring [`is_letter_char`].
fn letter(c: char) -> (b: bool)
    ensures
        b == is_letter_char(c),
{
    let u = c as u32;
    (97 <= u && u <= 122) || (65 <= u && u <= 90)
}

/// Whether `c` may continue an identifier, mirroring [`is_alnum_char`].
fn alnum(c: char) -> (b: bool)
    ensures
        b == is_alnum_char(c),
{
    digit(c) || letter(c)
}

} // verus!
