//! The mathematical model of tokenization: what the tokenizer returns for
//! every line, stated over sequences of characters.
//!
//! A line is `<digits><single space><body>`. The digit prefix becomes the
//! `LineNumber` token; the body is scanned character by character with a
//! buffer and an "inside string literal" flag, and finished buffers are
//! classified into tokens.

use vstd::prelude::*;

use crate::error::ErrorKind;
use crate::token::all_alpha;
use crate::token::all_digits;
use crate::token::digits_value;
use crate::token::is_digit_char;
use crate::token::is_space_char;
use crate::token::keyword_of;
use crate::token::operator_of;
use crate::token::Operator;
use crate::token::TokenView;

verus! {

/// The token a finished buffer turns into. The string-mode flag at the time
/// of the flush is handed along but does not affect the decision: the
/// classifier goes by content alone (a buffer closed by its quote is emitted
/// as a `StringLiteral` by the scanner itself, without classification).
/// Total but for `IntegerOverflow`: every other buffer is some token, mixed
/// content falling back to `StringLiteral`.
pub open spec fn spec_classify(buf: Seq<char>, was_string: bool) -> Result<TokenView, ErrorKind> {
    if buf.len() > 0 && all_alpha(buf) {
        match keyword_of(buf) {
            Some(c) => Ok(TokenView::Command(c)),
            None => Ok(TokenView::Variable(buf)),
        }
    } else if buf.len() > 0 && all_digits(buf) {
        if digits_value(buf) <= i32::MAX {
            Ok(TokenView::IntLiteral(digits_value(buf) as i32))
        } else {
            Err(ErrorKind::IntegerOverflow)
        }
    } else {
        match operator_of(buf) {
            Some(o) => Ok(TokenView::Operator(o)),
            None => Ok(TokenView::StringLiteral(buf)),
        }
    }
}

/// Prepends already-emitted tokens to the outcome of scanning the rest of a
/// line; an error further right wins.
pub open spec fn combine(
    prefix: Seq<TokenView>,
    rest: Result<Seq<TokenView>, ErrorKind>,
) -> Result<Seq<TokenView>, ErrorKind> {
    match rest {
        Ok(ts) => Ok(prefix + ts),
        Err(e) => Err(e),
    }
}

/// Scans the body of a line (everything after the line number), carrying the
/// accumulated buffer and the "inside string literal" flag.
///
/// Dispatch per character: `;` and `=` flush a non-empty buffer and then
/// emit their operator token, wherever they stand; a double quote toggles
/// string mode, and the closing quote flushes the buffer as a
/// `StringLiteral`; whitespace outside a string flushes a non-empty buffer
/// and inside a string is accumulated; every other character is accumulated.
/// A non-empty buffer left at the end of the line is flushed; an empty one
/// is not.
pub open spec fn scan_body(
    s: Seq<char>,
    buf: Seq<char>,
    in_string: bool,
) -> Result<Seq<TokenView>, ErrorKind>
    decreases s.len(),
{
    if s.len() == 0 {
        if buf.len() == 0 {
            Ok(Seq::empty())
        } else {
            match spec_classify(buf, in_string) {
                Ok(t) => Ok(seq![t]),
                Err(e) => Err(e),
            }
        }
    } else {
        let c = s[0];
        let rest = s.drop_first();
        if c == ';' || c == '=' {
            let op = if c == ';' {
                Operator::SemiColumn
            } else {
                Operator::Equal
            };
            if buf.len() == 0 {
                combine(seq![TokenView::Operator(op)], scan_body(rest, Seq::empty(), in_string))
            } else {
                match spec_classify(buf, in_string) {
                    Ok(t) => combine(
                        seq![t, TokenView::Operator(op)],
                        scan_body(rest, Seq::empty(), in_string),
                    ),
                    Err(e) => Err(e),
                }
            }
        } else if c == '"' {
            if in_string {
                combine(seq![TokenView::StringLiteral(buf)], scan_body(rest, Seq::empty(), false))
            } else {
                scan_body(rest, buf, true)
            }
        } else if is_space_char(c) && !in_string {
            if buf.len() == 0 {
                scan_body(rest, Seq::empty(), false)
            } else {
                match spec_classify(buf, false) {
                    Ok(t) => combine(seq![t], scan_body(rest, Seq::empty(), false)),
                    Err(e) => Err(e),
                }
            }
        } else {
            scan_body(rest, buf.push(c), in_string)
        }
    }
}

/// The index of the first character at or after `i` that is not an ASCII
/// digit, or the length of `s` if there is none.
pub open spec fn digit_end_from(s: Seq<char>, i: int) -> int
    decreases s.len() - i,
{
    if i < 0 || i >= s.len() {
        i
    } else if is_digit_char(s[i]) {
        digit_end_from(s, i + 1)
    } else {
        i
    }
}

/// `digit_end_from(s, k)` is the first non-digit position: a run of digits
/// from `k` up to `e`, with `e` at the end of `s` or on a non-digit, pins it.
pub proof fn lemma_digit_end_from(s: Seq<char>, k: int, e: int)
    requires
        0 <= k <= e <= s.len(),
        forall|j: int| k <= j < e ==> is_digit_char(#[trigger] s[j]),
        e == s.len() || !is_digit_char(s[e]),
    ensures
        digit_end_from(s, k) == e,
    decreases e - k,
{
    if k < e {
        lemma_digit_end_from(s, k + 1, e);
    }
}

/// What tokenizing one line returns.
///
/// The leading digit run must be terminated by a single space or by the end
/// of the line; its value must fit in 16 bits. An empty line yields no
/// tokens; any other accepted line yields `LineNumber` first, followed by
/// the tokens of the body.
pub open spec fn spec_tokenize_line(s: Seq<char>) -> Result<Seq<TokenView>, ErrorKind> {
    let e = digit_end_from(s, 0);
    if e == s.len() {
        if s.len() == 0 {
            Ok(Seq::empty())
        } else if digits_value(s) <= u16::MAX {
            Ok(seq![TokenView::LineNumber(digits_value(s) as u16)])
        } else {
            Err(ErrorKind::MalformedLineNumber)
        }
    } else if s[e] == ' ' && e > 0 {
        if digits_value(s.subrange(0, e)) <= u16::MAX {
            combine(
                seq![TokenView::LineNumber(digits_value(s.subrange(0, e)) as u16)],
                scan_body(s.subrange(e + 1, s.len() as int), Seq::empty(), false),
            )
        } else {
            Err(ErrorKind::MalformedLineNumber)
        }
    } else {
        Err(ErrorKind::MissingOrInvalidLineNumber)
    }
}

} // verus!
