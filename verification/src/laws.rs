//! Laws of the tokenizer, stated over the model and proved once for all
//! inputs: every valid line's first token is its line number, and
//! tokenizing the textual reconstruction of a token sequence gives that
//! sequence back.

use vstd::prelude::*;

use crate::error::ErrorKind;
use crate::model::combine;
use crate::model::lemma_digit_end_from;
use crate::model::scan_body;
use crate::model::spec_classify;
use crate::model::spec_tokenize_line;
use crate::token::all_alpha;
use crate::token::all_digits;
use crate::token::command_text;
use crate::token::digit_val;
use crate::token::digits_value;
use crate::token::is_digit_char;
use crate::token::is_space_char;
use crate::token::keyword_of;
use crate::token::Command;
use crate::token::Operator;
use crate::token::TokenView;

verus! {

/// The ASCII digit character with value `d` (lowest digit for ten and up).
pub open spec fn digit_char(d: nat) -> char {
    if d == 0 {
        '0'
    } else if d == 1 {
        '1'
    } else if d == 2 {
        '2'
    } else if d == 3 {
        '3'
    } else if d == 4 {
        '4'
    } else if d == 5 {
        '5'
    } else if d == 6 {
        '6'
    } else if d == 7 {
        '7'
    } else if d == 8 {
        '8'
    } else {
        '9'
    }
}

/// The canonical decimal numeral of `n`, without leading zeroes.
pub open spec fn dec_digits(n: nat) -> Seq<char>
    decreases n,
{
    if n < 10 {
        seq![digit_char(n)]
    } else {
        dec_digits(n / 10).push(digit_char(n % 10))
    }
}

/// The canonical numeral of `n` is a non-empty digit run that reads back as
/// `n`.
pub proof fn lemma_dec_digits(n: nat)
    ensures
        dec_digits(n).len() >= 1,
        all_digits(dec_digits(n)),
        digits_value(dec_digits(n)) == n,
    decreases n,
{
    if n < 10 {
        assert(digit_val(digit_char(n)) == n);
        assert(dec_digits(n) =~= seq![digit_char(n)]);
        assert(dec_digits(n).drop_last() =~= Seq::<char>::empty());
        assert(digits_value(Seq::<char>::empty()) == 0);
        assert(dec_digits(n).last() == digit_char(n));
        assert(digits_value(dec_digits(n)) == digits_value(dec_digits(n).drop_last()) * 10
            + digit_val(dec_digits(n).last()));
    } else {
        lemma_dec_digits(n / 10);
        let s = dec_digits(n / 10).push(digit_char(n % 10));
        assert(s.drop_last() =~= dec_digits(n / 10));
        assert(s.last() == digit_char(n % 10));
        assert(digit_val(digit_char(n % 10)) == n % 10);
        assert(digits_value(s) == (n / 10) * 10 + n % 10);
        assert((n / 10) * 10 + n % 10 == n) by (nonlinear_arith);
        assert forall|i: int| 0 <= i < s.len() implies is_digit_char(#[trigger] s[i]) by {
            if i < s.len() - 1 {
                assert(s[i] == dec_digits(n / 10)[i]);
            }
        }
    }
}

/// The source lexeme of an operator, for the operators the scanner can
/// produce; the reserved ones have no lexeme yet and render as nothing.
pub open spec fn operator_text(o: Operator) -> Seq<char> {
    match o {
        Operator::Equal => seq!['='],
        Operator::SemiColumn => seq![';'],
        Operator::Add => seq!['+'],
        Operator::Sub => seq!['-'],
        _ => Seq::empty(),
    }
}

/// The textual reconstruction of one token.
pub open spec fn render_token(t: TokenView) -> Seq<char> {
    match t {
        TokenView::LineNumber(n) => dec_digits(n as nat),
        TokenView::Command(c) => command_text(c),
        TokenView::Variable(s) => s,
        TokenView::Operator(o) => operator_text(o),
        TokenView::IntLiteral(i) => dec_digits(i as nat),
        TokenView::StringLiteral(s) => seq!['"'] + s + seq!['"'],
    }
}

/// The textual reconstruction of a token sequence: the tokens' texts joined
/// by single spaces.
pub open spec fn render_tokens(ts: Seq<TokenView>) -> Seq<char>
    decreases ts.len(),
{
    if ts.len() == 0 {
        Seq::empty()
    } else if ts.len() == 1 {
        render_token(ts[0])
    } else {
        render_token(ts[0]) + seq![' '] + render_tokens(ts.drop_first())
    }
}

/// A body token whose reconstruction tokenizes back to itself: keywords
/// always; variables that are non-empty, alphabetic and not keywords;
/// operators that have a lexeme; non-negative integer literals; string
/// literals without quote or operator characters (spaces inside survive the
/// round trip).
pub open spec fn renderable_body_token(t: TokenView) -> bool {
    match t {
        TokenView::LineNumber(_) => false,
        TokenView::Command(_) => true,
        TokenView::Variable(s) => s.len() > 0 && all_alpha(s) && keyword_of(s) is None,
        TokenView::Operator(o) => o == Operator::Equal || o == Operator::SemiColumn || o
            == Operator::Add || o == Operator::Sub,
        TokenView::IntLiteral(i) => i >= 0,
        TokenView::StringLiteral(s) => forall|j: int|
            0 <= j < s.len() ==> #[trigger] s[j] != '"' && s[j] != ';' && s[j] != '=',
    }
}

/// A token sequence that a line can reconstruct: a line number first, then
/// renderable body tokens.
pub open spec fn renderable_line(ts: Seq<TokenView>) -> bool {
    ts.len() >= 1 && ts[0] is LineNumber && forall|j: int|
        1 <= j < ts.len() ==> renderable_body_token(#[trigger] ts[j])
}

/// Characters the body scanner simply accumulates: no delimiter among them,
/// and no whitespace unless inside a string literal.
pub open spec fn plain_run(run: Seq<char>, in_string: bool) -> bool {
    forall|j: int|
        0 <= j < run.len() ==> #[trigger] run[j] != ';' && run[j] != '=' && run[j] != '"' && (
        !in_string ==> !is_space_char(run[j]))
}

/// Scanning a run of plain characters only moves them into the buffer.
pub proof fn lemma_scan_plain_run(run: Seq<char>, u: Seq<char>, buf: Seq<char>, in_string: bool)
    requires
        plain_run(run, in_string),
    ensures
        scan_body(run + u, buf, in_string) == scan_body(u, buf + run, in_string),
    decreases run.len(),
{
    if run.len() == 0 {
        assert(run + u =~= u);
        assert(buf + run =~= buf);
    } else {
        let s = run + u;
        assert(s[0] == run[0]);
        assert(s.len() > 0);
        assert(s.drop_first() =~= run.drop_first() + u);
        assert(plain_run(run.drop_first(), in_string)) by {
            assert forall|j: int|
                0 <= j < run.drop_first().len() implies #[trigger] run.drop_first()[j] != ';'
                && run.drop_first()[j] != '=' && run.drop_first()[j] != '"' && (!in_string
                ==> !is_space_char(run.drop_first()[j])) by {
                assert(run.drop_first()[j] == run[j + 1]);
            }
        }
        lemma_scan_plain_run(run.drop_first(), u, buf.push(run[0]), in_string);
        assert(buf.push(run[0]) + run.drop_first() =~= buf + run);
    }
}

/// A renderable keyword, variable, integer literal or arithmetic-operator
/// token reconstructs to a plain, non-empty buffer that classifies back to
/// exactly that token.
proof fn lemma_classify_rendered(t: TokenView)
    requires
        renderable_body_token(t),
        !(t is StringLiteral),
        t is Operator ==> t->Operator_0 == Operator::Add || t->Operator_0 == Operator::Sub,
    ensures
        render_token(t).len() > 0,
        plain_run(render_token(t), false),
        spec_classify(render_token(t), false) == Ok::<TokenView, ErrorKind>(t),
{
    match t {
        TokenView::LineNumber(_) => {},
        TokenView::Command(c) => {
            let s = command_text(c);
            assert(all_alpha(s)) by {
                match c {
                    Command::Let => {
                        assert(s =~= seq!['L', 'E', 'T']);
                    },
                    Command::Print => {
                        assert(s =~= seq!['P', 'R', 'I', 'N', 'T']);
                    },
                    Command::End => {
                        assert(s =~= seq!['E', 'N', 'D']);
                    },
                }
            }
            assert(keyword_of(s) == Some(c));
        },
        TokenView::Variable(_) => {},
        TokenView::Operator(o) => {
            let s = render_token(t);
            assert(s.len() == 1);
            assert(!all_alpha(s)) by {
                assert(s[0] == '+' || s[0] == '-');
            }
            assert(!all_digits(s)) by {
                assert(s[0] == '+' || s[0] == '-');
            }
        },
        TokenView::IntLiteral(i) => {
            lemma_dec_digits(i as nat);
            let s = dec_digits(i as nat);
            assert(!all_alpha(s)) by {
                assert(is_digit_char(s[0]));
            }
            assert(digits_value(s) as i32 == i);
        },
        TokenView::StringLiteral(_) => {},
    }
}

/// Scanning the reconstruction of renderable body tokens, starting with an
/// empty buffer outside a string literal, yields exactly those tokens.
pub proof fn lemma_scan_rendered_tokens(ts: Seq<TokenView>)
    requires
        forall|j: int| 0 <= j < ts.len() ==> renderable_body_token(#[trigger] ts[j]),
    ensures
        scan_body(render_tokens(ts), Seq::empty(), false) == Ok::<Seq<TokenView>, ErrorKind>(ts),
    decreases ts.len(),
{
    if ts.len() == 0 {
        assert(ts =~= Seq::<TokenView>::empty());
    } else {
        let t = ts[0];
        let rest = ts.drop_first();
        assert(forall|j: int| 0 <= j < rest.len() ==> renderable_body_token(#[trigger] rest[j]));
        lemma_scan_rendered_tokens(rest);
        let u: Seq<char> = if rest.len() == 0 {
            Seq::empty()
        } else {
            seq![' '] + render_tokens(rest)
        };
        assert(render_tokens(ts) =~= render_token(t) + u);
        assert(seq![t] + rest =~= ts);
        let delim = t is Operator && (t->Operator_0 == Operator::Equal || t->Operator_0
            == Operator::SemiColumn);
        if t is StringLiteral {
            let s0 = t->StringLiteral_0;
            let s = render_token(t) + u;
            assert(render_token(t) =~= seq!['"'] + s0 + seq!['"']);
            assert(s[0] == '"');
            assert(s.drop_first() =~= s0 + (seq!['"'] + u));
            assert(plain_run(s0, true));
            lemma_scan_plain_run(s0, seq!['"'] + u, Seq::empty(), true);
            assert(Seq::<char>::empty() + s0 =~= s0);
            let q = seq!['"'] + u;
            assert(q[0] == '"');
            assert(q.drop_first() =~= u);
            // the closing quote flushes the buffer as the string literal
            assert(scan_body(s, Seq::empty(), false) == scan_body(q, s0, true));
            assert(scan_body(q, s0, true) == combine(
                seq![t],
                scan_body(u, Seq::empty(), false),
            ));
            if rest.len() == 0 {
                assert(scan_body(u, Seq::empty(), false) == Ok::<Seq<TokenView>, ErrorKind>(
                    Seq::empty(),
                ));
                assert(seq![t] + Seq::<TokenView>::empty() =~= ts);
            } else {
                assert(u[0] == ' ');
                assert(u.drop_first() =~= render_tokens(rest));
            }
        } else if delim {
            let s = render_token(t) + u;
            assert(render_token(t).len() == 1);
            assert(s[0] == ';' || s[0] == '=');
            assert(s.drop_first() =~= u);
            assert(scan_body(s, Seq::empty(), false) == combine(
                seq![t],
                scan_body(u, Seq::empty(), false),
            ));
            if rest.len() == 0 {
                assert(seq![t] + Seq::<TokenView>::empty() =~= ts);
            } else {
                assert(u[0] == ' ');
                assert(u.drop_first() =~= render_tokens(rest));
            }
        } else {
            lemma_classify_rendered(t);
            lemma_scan_plain_run(render_token(t), u, Seq::empty(), false);
            assert(Seq::<char>::empty() + render_token(t) =~= render_token(t));
            if rest.len() == 0 {
                // the end-of-line flush classifies the buffer
                assert(scan_body(u, render_token(t), false) == Ok::<Seq<TokenView>, ErrorKind>(
                    seq![t],
                ));
                assert(seq![t] =~= ts);
            } else {
                assert(u[0] == ' ');
                assert(u.drop_first() =~= render_tokens(rest));
                // the separating space flushes the buffer
                assert(scan_body(u, render_token(t), false) == combine(
                    seq![t],
                    scan_body(render_tokens(rest), Seq::empty(), false),
                ));
            }
        }
    }
}

/// Round-trip idempotence: tokenizing the textual reconstruction of a
/// renderable token sequence reproduces exactly that sequence. (Renderable
/// excludes what reconstruction cannot represent: operators without a
/// lexeme, negative integer literals, variables that do not scan as one
/// token, and string contents holding a quote or an operator character.)
pub proof fn lemma_render_round_trip(ts: Seq<TokenView>)
    requires
        renderable_line(ts),
    ensures
        spec_tokenize_line(render_tokens(ts)) == Ok::<Seq<TokenView>, ErrorKind>(ts),
{
    let n = ts[0]->LineNumber_0;
    let digits = dec_digits(n as nat);
    lemma_dec_digits(n as nat);
    if ts.len() == 1 {
        let s = render_tokens(ts);
        assert(s == digits);
        lemma_digit_end_from(s, 0, s.len() as int);
        assert(s.subrange(0, s.len() as int) =~= s);
        assert(digits_value(s) == n as nat);
        assert(ts =~= seq![TokenView::LineNumber(n)]);
    } else {
        let rest = ts.drop_first();
        assert(forall|j: int| 0 <= j < rest.len() ==> renderable_body_token(#[trigger] rest[j]));
        let body = render_tokens(rest);
        let s = render_tokens(ts);
        assert(s == digits + seq![' '] + body);
        let dl = digits.len() as int;
        assert forall|j: int| 0 <= j < dl implies is_digit_char(#[trigger] s[j]) by {
            assert(s[j] == digits[j]);
        }
        assert(s[dl] == ' ');
        lemma_digit_end_from(s, 0, dl);
        assert(s.subrange(0, dl) =~= digits);
        assert(s.subrange(dl + 1, s.len() as int) =~= body);
        lemma_scan_rendered_tokens(rest);
        assert(spec_tokenize_line(s) == combine(
            seq![TokenView::LineNumber(n)],
            scan_body(body, Seq::empty(), false),
        ));
        assert(seq![TokenView::LineNumber(n)] + rest =~= ts);
    }
}

/// For every valid line `<digits><space><body>` whose digit prefix fits in
/// 16 bits, the first output token is the line number read from that
/// prefix.
pub proof fn lemma_first_token_is_line_number(digits: Seq<char>, body: Seq<char>)
    requires
        digits.len() > 0,
        all_digits(digits),
        digits_value(digits) <= u16::MAX,
    ensures
        match spec_tokenize_line(digits + seq![' '] + body) {
            Ok(ts) => ts.len() >= 1 && ts[0] == TokenView::LineNumber(
                digits_value(digits) as u16,
            ),
            Err(_) => true,
        },
{
    let s = digits + seq![' '] + body;
    let dl = digits.len() as int;
    assert forall|j: int| 0 <= j < dl implies is_digit_char(#[trigger] s[j]) by {
        assert(s[j] == digits[j]);
    }
    assert(s[dl] == ' ');
    lemma_digit_end_from(s, 0, dl);
    assert(s.subrange(0, dl) =~= digits);
}

} // verus!
