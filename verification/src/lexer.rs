//! The tokenizer: executable scanning of source lines, proved to return
//! exactly what the model in [`crate::model`] describes.

use vstd::prelude::*;
use vstd::string::StrSliceExecFns;

use crate::error::ErrorKind;
use crate::error::LexError;
use crate::model::combine;
use crate::model::digit_end_from;
use crate::model::lemma_digit_end_from;
use crate::model::scan_body;
use crate::model::spec_classify;
use crate::model::spec_tokenize_line;
use crate::token::digit_val;
use crate::token::digits_value;
use crate::token::is_alpha;
use crate::token::is_alpha_char;
use crate::token::is_digit;
use crate::token::is_digit_char;
use crate::token::is_space;
use crate::token::Command;
use crate::token::Operator;
use crate::token::Token;
use crate::token::TokenView;

verus! {

/// The tokenizer, remembering the path of the source program it was created
/// for. Tokenizing itself is stateless: the associated functions work on the
/// lines they are handed.
pub struct Lexer {
    /// The path the source program is to be read from.
    pub source: String,
}

/// Relies on `String`'s `FromIterator` over `char`: collecting the
/// characters of a vector yields the string of exactly those characters, in
/// order.
#[verifier::external_body]
fn chars_to_string(v: &Vec<char>) -> (s: String)
    ensures
        s@ == v@,
{
    v.iter().collect()
}

impl Lexer {
    /// Makes a tokenizer for the source program at `path`.
    pub fn new(path: &str) -> (r: Self)
        ensures
            r.source@ == path@,
    {
        Lexer { source: path.to_owned() }
    }

    /// Classifies a finished buffer into its token by content alone (the
    /// string-mode flag is handed along but never branched on), total but
    /// for numeric buffers out of the signed 32-bit range.
    pub fn check_to_token(buf: &Vec<char>, is_string: bool) -> (r: Result<Token, ErrorKind>)
        ensures
            match r {
                Ok(t) => spec_classify(buf@, is_string) == Ok::<TokenView, ErrorKind>(t@),
                Err(k) => spec_classify(buf@, is_string) == Err::<TokenView, ErrorKind>(k),
            },
    {
        let n = buf.len();
        let mut alpha = true;
        let mut i: usize = 0;
        while i < n
            invariant
                n == buf@.len(),
                i <= n,
                alpha ==> forall|j: int| 0 <= j < i ==> is_alpha_char(#[trigger] buf@[j]),
                !alpha ==> exists|j: int| 0 <= j < i && !is_alpha_char(#[trigger] buf@[j]),
            decreases n - i,
        {
            if !is_alpha(buf[i]) {
                alpha = false;
            }
            i += 1;
        }
        if n > 0 && alpha {
            let st = chars_to_string(buf);
            return match Command::from_string(st.as_str()) {
                Some(c) => Ok(Token::Command(c)),
                None => Ok(Token::Variable(st)),
            };
        }
        let mut digits = true;
        let mut val: u32 = 0;
        let mut over = false;
        let mut k: usize = 0;
        while k < n
            invariant
                n == buf@.len(),
                k <= n,
                digits ==> forall|j: int| 0 <= j < k ==> is_digit_char(#[trigger] buf@[j]),
                !digits ==> exists|j: int| 0 <= j < k && !is_digit_char(#[trigger] buf@[j]),
                digits && !over ==> val == digits_value(buf@.subrange(0, k as int)) && val
                    <= i32::MAX,
                digits && over ==> digits_value(buf@.subrange(0, k as int)) > i32::MAX,
            decreases n - k,
        {
            let c = buf[k];
            if is_digit(c) {
                if digits {
                    let d = (c as u32) - 48;
                    proof {
                        assert(buf@.subrange(0, k + 1 as int).drop_last() =~= buf@.subrange(
                            0,
                            k as int,
                        ));
                        assert(buf@.subrange(0, k + 1 as int).last() == buf@[k as int]);
                        assert(d == digit_val(c));
                    }
                    if over || val > 214748364 || (val == 214748364 && d > 7) {
                        over = true;
                    } else {
                        val = val * 10 + d;
                    }
                }
            } else {
                digits = false;
            }
            k += 1;
        }
        proof {
            assert(buf@.subrange(0, n as int) =~= buf@);
        }
        if n > 0 && digits {
            if over {
                return Err(ErrorKind::IntegerOverflow);
            }
            return Ok(Token::IntLiteral(val as i32));
        }
        if n == 1 {
            let c = buf[0];
            if c == '+' {
                return Ok(Token::Operator(Operator::Add));
            }
            if c == '-' {
                return Ok(Token::Operator(Operator::Sub));
            }
            if c == '=' {
                return Ok(Token::Operator(Operator::Equal));
            }
        }
        Ok(Token::StringLiteral(chars_to_string(buf)))
    }

    /// Consumes the mandatory digit prefix of a line. On a digit run closed
    /// by a single space it appends the `LineNumber` token and returns the
    /// index just past that space, where the body begins; on a line that is
    /// nothing but digits it appends the token and reports that no body
    /// follows; anything else is a line-number error.
    fn line_number(line: &str, output: &mut Vec<Token>) -> (r: Result<Option<usize>, ErrorKind>)
        ensures
            match r {
                Ok(opt) => match opt {
                    Some(j) => {
                        &&& 2 <= j <= line@.len()
                        &&& digit_end_from(line@, 0) == j - 1
                        &&& line@[j - 1] == ' '
                        &&& digits_value(line@.subrange(0, j - 1)) <= u16::MAX
                        &&& final(output)@ == old(output)@.push(
                            Token::LineNumber(digits_value(line@.subrange(0, j - 1)) as u16),
                        )
                    },
                    None => {
                        &&& digit_end_from(line@, 0) == line@.len()
                        &&& (line@.len() == 0 ==> final(output)@ == old(output)@)
                        &&& (line@.len() > 0 ==> digits_value(line@) <= u16::MAX
                            && final(output)@ == old(output)@.push(
                            Token::LineNumber(digits_value(line@) as u16),
                        ))
                    },
                },
                Err(k) => final(output)@ == old(output)@ && spec_tokenize_line(line@) == Err::<
                    Seq<TokenView>,
                    ErrorKind,
                >(k) && (k == ErrorKind::MissingOrInvalidLineNumber || k
                    == ErrorKind::MalformedLineNumber),
            },
    {
        let n = line.unicode_len();
        let mut val: u32 = 0;
        let mut over = false;
        let mut i: usize = 0;
        while i < n
            invariant
                n == line@.len(),
                i <= n,
                forall|j: int| 0 <= j < i ==> is_digit_char(#[trigger] line@[j]),
                !over ==> val == digits_value(line@.subrange(0, i as int)) && val <= u16::MAX,
                over ==> digits_value(line@.subrange(0, i as int)) > u16::MAX,
                output@ == old(output)@,
            decreases n - i,
        {
            let c = line.get_char(i);
            if is_digit(c) {
                let d = (c as u32) - 48;
                proof {
                    assert(line@.subrange(0, i + 1 as int).drop_last() =~= line@.subrange(
                        0,
                        i as int,
                    ));
                    assert(line@.subrange(0, i + 1 as int).last() == line@[i as int]);
                    assert(d == digit_val(c));
                }
                if over || val > 6553 || (val == 6553 && d > 5) {
                    over = true;
                } else {
                    val = val * 10 + d;
                }
                i += 1;
            } else if c == ' ' {
                proof {
                    lemma_digit_end_from(line@, 0, i as int);
                }
                if i == 0 {
                    return Err(ErrorKind::MissingOrInvalidLineNumber);
                }
                if over {
                    return Err(ErrorKind::MalformedLineNumber);
                }
                output.push(Token::LineNumber(val as u16));
                return Ok(Some(i + 1));
            } else {
                proof {
                    lemma_digit_end_from(line@, 0, i as int);
                }
                return Err(ErrorKind::MissingOrInvalidLineNumber);
            }
        }
        proof {
            lemma_digit_end_from(line@, 0, n as int);
            assert(line@.subrange(0, n as int) =~= line@);
        }
        if n == 0 {
            return Ok(None);
        }
        if over {
            return Err(ErrorKind::MalformedLineNumber);
        }
        output.push(Token::LineNumber(val as u16));
        Ok(None)
    }

    /// Tokenizes one raw source line: the line number first, then the body,
    /// character by character. Returns exactly what the model says:
    /// `spec_tokenize_line` of the line's characters.
    pub fn tokenize_line(line: &str) -> (r: Result<Vec<Token>, ErrorKind>)
        ensures
            match r {
                Ok(toks) => spec_tokenize_line(line@) == Ok::<Seq<TokenView>, ErrorKind>(
                    toks.deep_view(),
                ),
                Err(k) => spec_tokenize_line(line@) == Err::<Seq<TokenView>, ErrorKind>(k),
            },
    {
        let mut output: Vec<Token> = Vec::new();
        let start = match Self::line_number(line, &mut output) {
            Err(k) => {
                return Err(k);
            },
            Ok(None) => {
                proof {
                    if line@.len() == 0 {
                        assert(output.deep_view() =~= Seq::<TokenView>::empty());
                    } else {
                        assert(output.deep_view() =~= seq![
                            TokenView::LineNumber(digits_value(line@) as u16),
                        ]);
                    }
                }
                return Ok(output);
            },
            Ok(Some(j)) => j,
        };
        let n = line.unicode_len();
        let ghost line_tok = TokenView::LineNumber(
            digits_value(line@.subrange(0, start - 1)) as u16,
        );
        proof {
            assert(output.deep_view() =~= seq![line_tok]);
        }
        let mut buffer: Vec<char> = Vec::new();
        let mut in_string = false;
        let mut i = start;
        while i < n
            invariant
                n == line@.len(),
                i <= n,
                spec_tokenize_line(line@) == combine(
                    output.deep_view(),
                    scan_body(line@.subrange(i as int, n as int), buffer@, in_string),
                ),
            decreases n - i,
        {
            let ghost s_i = line@.subrange(i as int, n as int);
            let ghost out0 = output.deep_view();
            let ghost buf0 = buffer@;
            let ghost instr0 = in_string;
            proof {
                assert(s_i[0] == line@[i as int]);
                assert(s_i.drop_first() =~= line@.subrange(i + 1 as int, n as int));
            }
            let c = line.get_char(i);
            if c == ';' || c == '=' {
                let op = if c == ';' {
                    Operator::SemiColumn
                } else {
                    Operator::Equal
                };
                if buffer.len() > 0 {
                    let t = match Self::check_to_token(&buffer, in_string) {
                        Ok(t) => t,
                        Err(k) => {
                            return Err(k);
                        },
                    };
                    output.push(t);
                    output.push(Token::Operator(op));
                    buffer.clear();
                    proof {
                        assert(scan_body(s_i, buf0, instr0) == combine(
                            seq![t@, TokenView::Operator(op)],
                            scan_body(s_i.drop_first(), Seq::empty(), instr0),
                        ));
                        lemma_combine_assoc(
                            out0,
                            seq![t@, TokenView::Operator(op)],
                            scan_body(s_i.drop_first(), Seq::empty(), instr0),
                        );
                        assert(output.deep_view() =~= out0 + seq![t@, TokenView::Operator(op)]);
                    }
                } else {
                    output.push(Token::Operator(op));
                    buffer.clear();
                    proof {
                        assert(scan_body(s_i, buf0, instr0) == combine(
                            seq![TokenView::Operator(op)],
                            scan_body(s_i.drop_first(), Seq::empty(), instr0),
                        ));
                        lemma_combine_assoc(
                            out0,
                            seq![TokenView::Operator(op)],
                            scan_body(s_i.drop_first(), Seq::empty(), instr0),
                        );
                        assert(output.deep_view() =~= out0 + seq![TokenView::Operator(op)]);
                    }
                }
            } else if c == '"' {
                if in_string {
                    let t = Token::StringLiteral(chars_to_string(&buffer));
                    output.push(t);
                    buffer.clear();
                    in_string = false;
                    proof {
                        assert(t@ == TokenView::StringLiteral(buf0));
                        assert(scan_body(s_i, buf0, instr0) == combine(
                            seq![t@],
                            scan_body(s_i.drop_first(), Seq::empty(), false),
                        ));
                        lemma_combine_assoc(
                            out0,
                            seq![t@],
                            scan_body(s_i.drop_first(), Seq::empty(), false),
                        );
                        assert(output.deep_view() =~= out0 + seq![t@]);
                    }
                } else {
                    in_string = true;
                    proof {
                        assert(scan_body(s_i, buf0, instr0) == scan_body(
                            s_i.drop_first(),
                            buf0,
                            true,
                        ));
                    }
                }
            } else if is_space(c) && !in_string {
                if buffer.len() > 0 {
                    let t = match Self::check_to_token(&buffer, false) {
                        Ok(t) => t,
                        Err(k) => {
                            return Err(k);
                        },
                    };
                    output.push(t);
                    buffer.clear();
                    proof {
                        assert(scan_body(s_i, buf0, instr0) == combine(
                            seq![t@],
                            scan_body(s_i.drop_first(), Seq::empty(), false),
                        ));
                        lemma_combine_assoc(
                            out0,
                            seq![t@],
                            scan_body(s_i.drop_first(), Seq::empty(), false),
                        );
                        assert(output.deep_view() =~= out0 + seq![t@]);
                    }
                } else {
                    proof {
                        assert(buf0.len() == 0);
                        assert(scan_body(s_i, buf0, instr0) == scan_body(
                            s_i.drop_first(),
                            Seq::empty(),
                            false,
                        ));
                        assert(buf0 =~= Seq::<char>::empty());
                    }
                }
            } else {
                buffer.push(c);
            }
            i += 1;
        }
        proof {
            assert(line@.subrange(n as int, n as int) =~= Seq::<char>::empty());
        }
        if buffer.len() > 0 {
            let ghost out0 = output.deep_view();
            let t = match Self::check_to_token(&buffer, in_string) {
                Ok(t) => t,
                Err(k) => {
                    return Err(k);
                },
            };
            output.push(t);
            proof {
                assert(output.deep_view() =~= out0.push(t@));
                assert(out0 + seq![t@] =~= out0.push(t@));
            }
        } else {
            proof {
                assert(output.deep_view() + Seq::<TokenView>::empty() =~= output.deep_view());
            }
        }
        Ok(output)
    }

    /// Tokenizes a whole program, one token sequence per input line, in input
    /// order. Fails on the first bad line, naming its index and the error.
    pub fn tokenize(buf: Vec<String>) -> (r: Result<Vec<Vec<Token>>, LexError>)
        ensures
            match r {
                Ok(out) => {
                    &&& out.deep_view().len() == buf@.len()
                    &&& forall|i: int|
                        0 <= i < buf@.len() ==> spec_tokenize_line(#[trigger] buf@[i]@) == Ok::<
                            Seq<TokenView>,
                            ErrorKind,
                        >(out.deep_view()[i])
                },
                Err(e) => {
                    &&& e.line < buf@.len()
                    &&& spec_tokenize_line(buf@[e.line as int]@) == Err::<
                        Seq<TokenView>,
                        ErrorKind,
                    >(e.kind)
                    &&& forall|i: int|
                        0 <= i < e.line ==> (#[trigger] spec_tokenize_line(buf@[i]@)) is Ok
                },
            },
    {
        let mut output: Vec<Vec<Token>> = Vec::new();
        let mut idx: usize = 0;
        while idx < buf.len()
            invariant
                idx <= buf@.len(),
                output@.len() == idx,
                forall|i: int|
                    0 <= i < idx ==> spec_tokenize_line(#[trigger] buf@[i]@) == Ok::<
                        Seq<TokenView>,
                        ErrorKind,
                    >(output.deep_view()[i]),
            decreases buf@.len() - idx,
        {
            let ghost out0 = output.deep_view();
            match Self::tokenize_line(buf[idx].as_str()) {
                Ok(toks) => {
                    output.push(toks);
                    proof {
                        assert(output.deep_view() =~= out0.push(output@[idx as int].deep_view()));
                    }
                },
                Err(k) => {
                    return Err(LexError { line: idx, kind: k });
                },
            }
            idx += 1;
        }
        Ok(output)
    }
}

/// `combine` splits a concatenation of emitted prefixes.
proof fn lemma_combine_assoc(
    a: Seq<TokenView>,
    b: Seq<TokenView>,
    r: Result<Seq<TokenView>, ErrorKind>,
)
    ensures
        combine(a, combine(b, r)) == combine(a + b, r),
{
    match r {
        Ok(ts) => {
            assert(a + (b + ts) =~= (a + b) + ts);
        },
        Err(_) => {},
    }
}

} // verus!

