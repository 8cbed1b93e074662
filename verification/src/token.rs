//! The token data model: lexical categories produced by the tokenizer, and
//! the character classification used to decide a finished buffer's kind.

use vstd::prelude::*;
use vstd::string::StrSliceExecFns;

verus! {

/// The closed set of operator lexemes. Only `Equal` and `SemiColumn` are
/// reachable from line-body scanning today; the others are reserved for a
/// future two-character lexeme table.
#[derive(Debug, PartialEq, Eq, Structural, Clone, Copy)]
pub enum Operator {
    Equal,
    NEqual,
    Less,
    LEqual,
    Greater,
    GEqual,
    Add,
    Sub,
    Mul,
    Div,
    SemiColumn,
}

/// The closed set of reserved keywords. An alphabetic buffer that matches
/// none of these case-insensitively becomes a `Token::Variable`, never an
/// error.
#[derive(Debug, PartialEq, Eq, Structural, Clone, Copy)]
pub enum Command {
    Let,
    Print,
    End,
}

/// One lexical unit of a source line.
#[derive(Debug, PartialEq, Eq, Clone)]
pub enum Token {
    /// The numeric prefix of a source line; always the first token of a line.
    LineNumber(u16),
    /// A reserved keyword.
    Command(Command),
    /// An alphabetic identifier that is not a reserved keyword.
    Variable(String),
    /// An operator lexeme.
    Operator(Operator),
    /// A maximal run of ASCII digits outside a string literal.
    IntLiteral(i32),
    /// Characters delimited by a matching pair of double quotes, or any
    /// buffer of mixed content.
    StringLiteral(String),
}

/// The mathematical value of a `Token`: identifier and string contents are
/// sequences of characters rather than `String`s.
pub enum TokenView {
    LineNumber(u16),
    Command(Command),
    Variable(Seq<char>),
    Operator(Operator),
    IntLiteral(i32),
    StringLiteral(Seq<char>),
}

impl DeepView for Token {
    type V = TokenView;

    open spec fn deep_view(&self) -> TokenView {
        match self {
            Token::LineNumber(n) => TokenView::LineNumber(*n),
            Token::Command(c) => TokenView::Command(*c),
            Token::Variable(s) => TokenView::Variable(s@),
            Token::Operator(o) => TokenView::Operator(*o),
            Token::IntLiteral(i) => TokenView::IntLiteral(*i),
            Token::StringLiteral(s) => TokenView::StringLiteral(s@),
        }
    }
}

impl View for Token {
    type V = TokenView;

    open spec fn view(&self) -> TokenView {
        self.deep_view()
    }
}

/// An ASCII decimal digit.
pub open spec fn is_digit_char(c: char) -> bool {
    '0' <= c && c <= '9'
}

/// An ASCII alphabetic character.
pub open spec fn is_alpha_char(c: char) -> bool {
    ('A' <= c && c <= 'Z') || ('a' <= c && c <= 'z')
}

/// An ASCII whitespace character.
pub open spec fn is_space_char(c: char) -> bool {
    c == ' ' || c == '\t' || c == '\n' || c == '\x0C' || c == '\r'
}

/// The numeric value of an ASCII digit character.
pub open spec fn digit_val(c: char) -> nat {
    (c as u32 - '0' as u32) as nat
}

/// The value of a run of ASCII digits read as a decimal numeral.
pub open spec fn digits_value(s: Seq<char>) -> nat
    decreases s.len(),
{
    if s.len() == 0 {
        0
    } else {
        digits_value(s.drop_last()) * 10 + digit_val(s.last())
    }
}

/// Every character of `s` is ASCII alphabetic.
pub open spec fn all_alpha(s: Seq<char>) -> bool {
    forall|i: int| 0 <= i < s.len() ==> is_alpha_char(#[trigger] s[i])
}

/// Every character of `s` is an ASCII digit.
pub open spec fn all_digits(s: Seq<char>) -> bool {
    forall|i: int| 0 <= i < s.len() ==> is_digit_char(#[trigger] s[i])
}

/// `c` matches the letter with lowercase form `lo` and uppercase form `up`.
pub open spec fn eq_ci(c: char, lo: char, up: char) -> bool {
    c == lo || c == up
}

/// `s` spells `LET`, case-insensitively.
pub open spec fn is_let_keyword(s: Seq<char>) -> bool {
    s.len() == 3 && eq_ci(s[0], 'l', 'L') && eq_ci(s[1], 'e', 'E') && eq_ci(s[2], 't', 'T')
}

/// `s` spells `PRINT`, case-insensitively.
pub open spec fn is_print_keyword(s: Seq<char>) -> bool {
    s.len() == 5 && eq_ci(s[0], 'p', 'P') && eq_ci(s[1], 'r', 'R') && eq_ci(s[2], 'i', 'I')
        && eq_ci(s[3], 'n', 'N') && eq_ci(s[4], 't', 'T')
}

/// `s` spells `END`, case-insensitively.
pub open spec fn is_end_keyword(s: Seq<char>) -> bool {
    s.len() == 3 && eq_ci(s[0], 'e', 'E') && eq_ci(s[1], 'n', 'N') && eq_ci(s[2], 'd', 'D')
}

/// The canonical source text of a keyword.
pub open spec fn command_text(c: Command) -> Seq<char> {
    match c {
        Command::Let => seq!['L', 'E', 'T'],
        Command::Print => seq!['P', 'R', 'I', 'N', 'T'],
        Command::End => seq!['E', 'N', 'D'],
    }
}

/// The reserved keyword that `s` spells case-insensitively, if any.
pub open spec fn keyword_of(s: Seq<char>) -> Option<Command> {
    if is_let_keyword(s) {
        Some(Command::Let)
    } else if is_print_keyword(s) {
        Some(Command::Print)
    } else if is_end_keyword(s) {
        Some(Command::End)
    } else {
        None
    }
}

/// The operator whose lexeme is exactly `s`, if any. Only the lexemes a
/// flushed buffer can consist of are mapped.
pub open spec fn operator_of(s: Seq<char>) -> Option<Operator> {
    if s.len() == 1 && s[0] == '+' {
        Some(Operator::Add)
    } else if s.len() == 1 && s[0] == '-' {
        Some(Operator::Sub)
    } else if s.len() == 1 && s[0] == '=' {
        Some(Operator::Equal)
    } else {
        None
    }
}

impl Operator {
    /// The operator whose lexeme is exactly `s`, if any.
    pub fn from(s: &str) -> (r: Option<Operator>)
        ensures
            r == operator_of(s@),
    {
        if s.unicode_len() == 1 {
            let c = s.get_char(0);
            if c == '+' {
                Some(Operator::Add)
            } else if c == '-' {
                Some(Operator::Sub)
            } else if c == '=' {
                Some(Operator::Equal)
            } else {
                None
            }
        } else {
            None
        }
    }
}

impl Command {
    /// The canonical (uppercase) source text of the keyword.
    pub fn to_string(&self) -> (r: String)
        ensures
            r@ == command_text(*self),
    {
        match self {
            Command::Let => {
                let s = "LET";
                proof {
                    reveal_strlit("LET");
                    assert(s@ =~= command_text(Command::Let));
                }
                s.to_owned()
            },
            Command::Print => {
                let s = "PRINT";
                proof {
                    reveal_strlit("PRINT");
                    assert(s@ =~= command_text(Command::Print));
                }
                s.to_owned()
            },
            Command::End => {
                let s = "END";
                proof {
                    reveal_strlit("END");
                    assert(s@ =~= command_text(Command::End));
                }
                s.to_owned()
            },
        }
    }

    /// The reserved keyword that `s` spells case-insensitively, if any.
    pub fn from_string(s: &str) -> (r: Option<Command>)
        ensures
            r == keyword_of(s@),
    {
        let n = s.unicode_len();
        if n == 3 {
            let c0 = s.get_char(0);
            let c1 = s.get_char(1);
            let c2 = s.get_char(2);
            if (c0 == 'l' || c0 == 'L') && (c1 == 'e' || c1 == 'E') && (c2 == 't' || c2 == 'T') {
                Some(Command::Let)
            } else if (c0 == 'e' || c0 == 'E') && (c1 == 'n' || c1 == 'N')
                && (c2 == 'd' || c2 == 'D') {
                Some(Command::End)
            } else {
                None
            }
        } else if n == 5 {
            let c0 = s.get_char(0);
            let c1 = s.get_char(1);
            let c2 = s.get_char(2);
            let c3 = s.get_char(3);
            let c4 = s.get_char(4);
            if (c0 == 'p' || c0 == 'P') && (c1 == 'r' || c1 == 'R') && (c2 == 'i' || c2 == 'I')
                && (c3 == 'n' || c3 == 'N') && (c4 == 't' || c4 == 'T') {
                Some(Command::Print)
            } else {
                None
            }
        } else {
            None
        }
    }
}

/// Whether `c` is an ASCII digit.
pub fn is_digit(c: char) -> (b: bool)
    ensures
        b == is_digit_char(c),
{
    '0' <= c && c <= '9'
}

/// Whether `c` is ASCII alphabetic.
pub fn is_alpha(c: char) -> (b: bool)
    ensures
        b == is_alpha_char(c),
{
    ('A' <= c && c <= 'Z') || ('a' <= c && c <= 'z')
}

/// Whether `c` is ASCII whitespace.
pub fn is_space(c: char) -> (b: bool)
    ensures
        b == is_space_char(c),
{
    c == ' ' || c == '\t' || c == '\n' || c == '\x0C' || c == '\r'
}

} // verus!
