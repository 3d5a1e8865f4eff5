//! The lexer: source text to a flat sequence of tokens tagged by line.
//!
//! Lexemes are separated by ASCII whitespace; `//` starts a comment that runs
//! to the end of the line. Every source line, the last one included when the
//! text does not end in a newline, is closed by a `NewLine` token.
use vstd::prelude::*;
use crate::text::{chars_of, dec_int, push_i32, push_str, push_usize, range_is, string_of};

verus! {

/// The kind of a token. An identifier refers to its characters in the source
/// by the half-open range `start..end`.
#[derive(Clone, Copy, Debug, PartialEq, Eq, Structural)]
pub enum Kind {
    Identifier { start: usize, end: usize },
    Number(i32),
    NewLine,
    If,
    EndIf,
    Else,
    While,
    EndWhile,
    Break,
    Input,
    Output,
    True,
    Add,
    Sub,
    Assign,
    Eq,
    Ne,
    Gt,
    Lt,
    Ge,
    Le,
}

/// A token with the zero-based source line it was read on.
#[derive(Clone, Copy, Debug, PartialEq, Eq, Structural)]
pub struct Token {
    pub line: usize,
    pub kind: Kind,
}

/// An identifier's range lies within a source of `len` characters.
pub open spec fn token_wf(t: Token, len: nat) -> bool {
    t.kind matches Kind::Identifier { start, end } ==> start <= end <= len
}

pub open spec fn tokens_wf(ts: Seq<Token>, len: nat) -> bool {
    forall|j: int| 0 <= j < ts.len() ==> token_wf(#[trigger] ts[j], len)
}

pub open spec fn is_space(c: char) -> bool {
    c == ' ' || c == '\t' || c == '\n' || c == '\r' || c == '\x0C'
}

pub open spec fn is_digit(c: char) -> bool {
    '0' <= c && c <= '9'
}

pub open spec fn all_digits(s: Seq<char>) -> bool {
    forall|j: int| 0 <= j < s.len() ==> is_digit(#[trigger] s[j])
}

/// The value of a string of decimal digits.
pub open spec fn digits_value(s: Seq<char>) -> int
    decreases s.len(),
{
    if s.len() == 0 {
        0
    } else {
        10 * digits_value(s.drop_last()) + (s.last() as int - 48)
    }
}

/// A 32-bit integer in decimal: an optional sign, then one or more digits,
/// with a value that fits.
pub open spec fn parse_i32(s: Seq<char>) -> Option<i32> {
    let neg = s.len() > 0 && s[0] == '-';
    let body = if s.len() > 0 && (s[0] == '-' || s[0] == '+') {
        s.drop_first()
    } else {
        s
    };
    let v = if neg {
        -digits_value(body)
    } else {
        digits_value(body)
    };
    if body.len() > 0 && all_digits(body) && i32::MIN <= v <= i32::MAX {
        Some(v as i32)
    } else {
        None
    }
}

/// The fixed table of keywords and operators.
pub open spec fn keyword(s: Seq<char>) -> Option<Kind> {
    if s == "if"@ {
        Some(Kind::If)
    } else if s == "endif"@ {
        Some(Kind::EndIf)
    } else if s == "else"@ {
        Some(Kind::Else)
    } else if s == "while"@ {
        Some(Kind::While)
    } else if s == "endwhile"@ {
        Some(Kind::EndWhile)
    } else if s == "break"@ {
        Some(Kind::Break)
    } else if s == "input"@ {
        Some(Kind::Input)
    } else if s == "output"@ || s == "print"@ {
        Some(Kind::Output)
    } else if s == "true"@ {
        Some(Kind::True)
    } else if s == "+"@ {
        Some(Kind::Add)
    } else if s == "-"@ {
        Some(Kind::Sub)
    } else if s == "="@ {
        Some(Kind::Assign)
    } else if s == "=="@ {
        Some(Kind::Eq)
    } else if s == "!="@ {
        Some(Kind::Ne)
    } else if s == ">"@ {
        Some(Kind::Gt)
    } else if s == "<"@ {
        Some(Kind::Lt)
    } else if s == ">="@ {
        Some(Kind::Ge)
    } else if s == "<="@ {
        Some(Kind::Le)
    } else {
        None
    }
}

/// The kind of the lexeme `src[start..end]`: a number if it parses as one,
/// else a keyword or operator, else an identifier.
pub open spec fn classify(src: Seq<char>, start: int, end: int) -> Kind {
    let s = src.subrange(start, end);
    match parse_i32(s) {
        Some(n) => Kind::Number(n),
        None => match keyword(s) {
            Some(k) => k,
            None => Kind::Identifier { start: start as usize, end: end as usize },
        },
    }
}

/// Ends the lexeme that runs from `start` to `end`, if one is open.
pub open spec fn flush(
    src: Seq<char>,
    in_lex: bool,
    start: int,
    end: int,
    line: int,
    toks: Seq<Token>,
) -> Seq<Token> {
    if in_lex {
        toks.push(Token { line: line as usize, kind: classify(src, start, end) })
    } else {
        toks
    }
}

/// The state of the lexer between two characters: `line` counts the newlines
/// read; `in_lex` says that a lexeme opened at `start`; `in_comment` that a
/// comment runs to the end of the line; `has_chars` that the current line holds
/// any character; `toks` holds the tokens so far.
pub struct Lex {
    pub line: int,
    pub start: int,
    pub in_lex: bool,
    pub in_comment: bool,
    pub has_chars: bool,
    pub toks: Seq<Token>,
}

pub open spec fn lex_init() -> Lex {
    Lex { line: 0, start: 0, in_lex: false, in_comment: false, has_chars: false, toks: Seq::empty() }
}

/// Reads the character at `i`.
pub open spec fn lex_step(src: Seq<char>, i: int, s: Lex) -> Lex {
    let c = src[i];
    if c == '\n' {
        Lex {
            line: s.line + 1,
            start: 0,
            in_lex: false,
            in_comment: false,
            has_chars: false,
            toks: flush(src, s.in_lex, s.start, i, s.line, s.toks).push(
                Token { line: s.line as usize, kind: Kind::NewLine },
            ),
        }
    } else if s.in_comment {
        Lex { has_chars: true, ..s }
    } else if c == '/' && i + 1 < src.len() && src[i + 1] == '/' {
        Lex {
            start: 0,
            in_lex: false,
            in_comment: true,
            has_chars: true,
            toks: flush(src, s.in_lex, s.start, i, s.line, s.toks),
            ..s
        }
    } else if is_space(c) {
        Lex {
            start: 0,
            in_lex: false,
            has_chars: true,
            toks: flush(src, s.in_lex, s.start, i, s.line, s.toks),
            ..s
        }
    } else if s.in_lex {
        Lex { has_chars: true, ..s }
    } else {
        Lex { start: i, in_lex: true, has_chars: true, ..s }
    }
}

/// The tokens once the input is exhausted: a line with any character in it
/// ends with a `NewLine` even without a newline character.
pub open spec fn lex_end(src: Seq<char>, s: Lex) -> Seq<Token> {
    if s.has_chars {
        flush(src, s.in_lex, s.start, src.len() as int, s.line, s.toks).push(
            Token { line: s.line as usize, kind: Kind::NewLine },
        )
    } else {
        s.toks
    }
}

/// The tokens read from position `i` on, in state `s`.
pub open spec fn lex_from(src: Seq<char>, i: int, s: Lex) -> Seq<Token>
    decreases src.len() - i,
{
    if i >= src.len() {
        lex_end(src, s)
    } else {
        lex_from(src, i + 1, lex_step(src, i, s))
    }
}

/// The state after reading the characters from `i` up to `k`.
pub open spec fn lex_run(src: Seq<char>, i: int, k: int, s: Lex) -> Lex
    decreases k - i,
{
    if i >= k {
        s
    } else {
        lex_run(src, i + 1, k, lex_step(src, i, s))
    }
}

/// The tokens of a source text.
pub open spec fn tokens(src: Seq<char>) -> Seq<Token> {
    lex_from(src, 0, lex_init())
}

fn is_space_char(c: char) -> (r: bool)
    ensures
        r == is_space(c),
{
    c == ' ' || c == '\t' || c == '\n' || c == '\r' || c == '\x0C'
}

/// Parses `src[start..end]` as a signed 32-bit decimal integer.
pub fn parse_number(src: &Vec<char>, start: usize, end: usize) -> (r: Option<i32>)
    requires
        start <= end <= src@.len(),
    ensures
        r == parse_i32(src@.subrange(start as int, end as int)),
{
    let ghost s = src@.subrange(start as int, end as int);
    let mut b = start;
    let mut neg = false;
    if start < end && (src[start] == '-' || src[start] == '+') {
        neg = src[start] == '-';
        b = start + 1;
    }
    let ghost body = src@.subrange(b as int, end as int);
    proof {
        if start < end && (s[0] == '-' || s[0] == '+') {
            assert(body =~= s.drop_first());
        } else {
            assert(body =~= s);
        }
    }
    if b == end {
        return None;
    }
    let mut acc: i64 = 0;
    let mut big = false;
    let mut i = b;
    while i < end
        invariant
            start <= b <= i <= end <= src@.len(),
            body == src@.subrange(b as int, end as int),
            s == src@.subrange(start as int, end as int),
            body == (if s.len() > 0 && (s[0] == '-' || s[0] == '+') {
                s.drop_first()
            } else {
                s
            }),
            neg == (s.len() > 0 && s[0] == '-'),
            all_digits(src@.subrange(b as int, i as int)),
            !big ==> acc == digits_value(src@.subrange(b as int, i as int)),
            !big ==> 0 <= acc <= 2147483648,
            big ==> digits_value(src@.subrange(b as int, i as int)) > 2147483648,
        decreases end - i,
    {
        let c = src[i];
        let ghost p = src@.subrange(b as int, i as int);
        let ghost q = src@.subrange(b as int, i + 1);
        proof {
            assert(q.drop_last() =~= p);
            assert(q.last() == c);
        }
        if !('0' <= c && c <= '9') {
            proof {
                assert(body[i - b] == c);
                assert(!is_digit(body[i - b]));
                assert(!all_digits(body));
            }
            return None;
        }
        proof {
            assert forall|j: int| 0 <= j < q.len() implies is_digit(#[trigger] q[j]) by {
                if j < p.len() {
                    assert(q[j] == p[j]);
                }
            }
        }
        if !big {
            let d: i64 = (c as u32 - 48) as i64;
            acc = acc * 10 + d;
            if acc > 2147483648 {
                big = true;
            }
        }
        i = i + 1;
    }
    proof {
        assert(src@.subrange(b as int, end as int) =~= body);
    }
    if big {
        return None;
    }
    if neg {
        Some((-acc) as i32)
    } else if acc <= 2147483647 {
        Some(acc as i32)
    } else {
        None
    }
}

/// Looks up a lexeme in the keyword and operator table.
pub fn lookup_keyword(src: &Vec<char>, start: usize, end: usize) -> (r: Option<Kind>)
    requires
        start <= end <= src@.len(),
    ensures
        r == keyword(src@.subrange(start as int, end as int)),
{
    if range_is(src, start, end, "if") {
        Some(Kind::If)
    } else if range_is(src, start, end, "endif") {
        Some(Kind::EndIf)
    } else if range_is(src, start, end, "else") {
        Some(Kind::Else)
    } else if range_is(src, start, end, "while") {
        Some(Kind::While)
    } else if range_is(src, start, end, "endwhile") {
        Some(Kind::EndWhile)
    } else if range_is(src, start, end, "break") {
        Some(Kind::Break)
    } else if range_is(src, start, end, "input") {
        Some(Kind::Input)
    } else if range_is(src, start, end, "output") || range_is(src, start, end, "print") {
        Some(Kind::Output)
    } else if range_is(src, start, end, "true") {
        Some(Kind::True)
    } else if range_is(src, start, end, "+") {
        Some(Kind::Add)
    } else if range_is(src, start, end, "-") {
        Some(Kind::Sub)
    } else if range_is(src, start, end, "=") {
        Some(Kind::Assign)
    } else if range_is(src, start, end, "==") {
        Some(Kind::Eq)
    } else if range_is(src, start, end, "!=") {
        Some(Kind::Ne)
    } else if range_is(src, start, end, ">") {
        Some(Kind::Gt)
    } else if range_is(src, start, end, "<") {
        Some(Kind::Lt)
    } else if range_is(src, start, end, ">=") {
        Some(Kind::Ge)
    } else if range_is(src, start, end, "<=") {
        Some(Kind::Le)
    } else {
        None
    }
}

/// The kind of the lexeme `src[start..end]`.
pub fn classify_lexeme(src: &Vec<char>, start: usize, end: usize) -> (r: Kind)
    requires
        start <= end <= src@.len(),
    ensures
        r == classify(src@, start as int, end as int),
{
    match parse_number(src, start, end) {
        Some(n) => Kind::Number(n),
        None => match lookup_keyword(src, start, end) {
            Some(k) => k,
            None => Kind::Identifier { start, end },
        },
    }
}

fn flush_lexeme(
    toks: &mut Vec<Token>,
    src: &Vec<char>,
    in_lex: bool,
    start: usize,
    end: usize,
    line: usize,
)
    requires
        in_lex ==> start <= end <= src@.len(),
        tokens_wf(old(toks)@, src@.len()),
    ensures
        final(toks)@ == flush(src@, in_lex, start as int, end as int, line as int, old(toks)@),
        tokens_wf(final(toks)@, src@.len()),
{
    if in_lex {
        let k = classify_lexeme(src, start, end);
        toks.push(Token { line, kind: k });
    }
}

/// Splits a source text into tokens. Never fails.
pub fn tokenise(src: &Vec<char>) -> (r: Vec<Token>)
    ensures
        r@ == tokens(src@),
        tokens_wf(r@, src@.len()),
{
    let mut toks: Vec<Token> = Vec::new();
    let n = src.len();
    let mut i: usize = 0;
    let mut line: usize = 0;
    let mut start: usize = 0;
    let mut in_lex = false;
    let mut in_comment = false;
    let mut has_chars = false;
    while i < n
        invariant
            n == src@.len(),
            i <= n,
            line <= i,
            in_lex ==> start < i,
            in_lex ==> !in_comment,
            tokens_wf(toks@, src@.len()),
            tokens(src@) == lex_from(
                src@,
                i as int,
                Lex {
                    line: line as int,
                    start: start as int,
                    in_lex,
                    in_comment,
                    has_chars,
                    toks: toks@,
                },
            ),
        decreases n - i,
    {
        let c = src[i];
        if c == '\n' {
            flush_lexeme(&mut toks, src, in_lex, start, i, line);
            toks.push(Token { line, kind: Kind::NewLine });
            line = line + 1;
            start = 0;
            in_lex = false;
            in_comment = false;
            has_chars = false;
        } else if in_comment {
            has_chars = true;
        } else if c == '/' && i + 1 < n && src[i + 1] == '/' {
            flush_lexeme(&mut toks, src, in_lex, start, i, line);
            start = 0;
            in_lex = false;
            in_comment = true;
            has_chars = true;
        } else if is_space_char(c) {
            flush_lexeme(&mut toks, src, in_lex, start, i, line);
            start = 0;
            in_lex = false;
            has_chars = true;
        } else if in_lex {
            has_chars = true;
        } else {
            start = i;
            in_lex = true;
            has_chars = true;
        }
        i = i + 1;
    }
    if has_chars {
        flush_lexeme(&mut toks, src, in_lex, start, i, line);
        toks.push(Token { line, kind: Kind::NewLine });
    }
    toks
}

/// A numeric literal outside the range of LMC numbers, `-999..=999`.
pub open spec fn out_of_range(t: Token) -> bool {
    t.kind matches Kind::Number(n) && (n > 999 || n < -999)
}

/// The numeric literals among `ts` that lie outside the range of LMC numbers,
/// in order.
pub open spec fn out_of_range_tokens(ts: Seq<Token>) -> Seq<Token>
    decreases ts.len(),
{
    if ts.len() == 0 {
        Seq::empty()
    } else if out_of_range(ts.last()) {
        out_of_range_tokens(ts.drop_last()).push(ts.last())
    } else {
        out_of_range_tokens(ts.drop_last())
    }
}

/// The warning for a literal outside the range of LMC numbers.
pub open spec fn warning_text(t: Token) -> Seq<char> {
    "Warning: number "@ + dec_int(t.kind->Number_0 as int) + " on line "@ + dec_int(t.line as int)
        + " is outside the bounds of LMC numbers"@
}

/// The warnings for the numeric literals of a source text that lie outside
/// the range of LMC numbers, in the order they occur.
pub fn warnings(src: &str) -> (r: Vec<String>)
    ensures
        r@.len() == out_of_range_tokens(tokens(src@)).len(),
        forall|k: int|
            0 <= k < r@.len() ==> (#[trigger] r@[k])@ == warning_text(
                out_of_range_tokens(tokens(src@))[k],
            ),
{
    let chars = chars_of(src);
    let toks = tokenise(&chars);
    let mut r: Vec<String> = Vec::new();
    let mut i: usize = 0;
    while i < toks.len()
        invariant
            0 <= i <= toks@.len(),
            toks@ == tokens(src@),
            r@.len() == out_of_range_tokens(toks@.subrange(0, i as int)).len(),
            forall|k: int|
                0 <= k < r@.len() ==> (#[trigger] r@[k])@ == warning_text(
                    out_of_range_tokens(toks@.subrange(0, i as int))[k],
                ),
        decreases toks.len() - i,
    {
        let t = toks[i];
        let ghost pre = toks@.subrange(0, i + 1);
        proof {
            assert(pre.drop_last() =~= toks@.subrange(0, i as int));
        }
        if let Kind::Number(n) = t.kind {
            if n > 999 || n < -999 {
                let mut m: Vec<char> = Vec::new();
                push_str(&mut m, "Warning: number ");
                push_i32(&mut m, n);
                push_str(&mut m, " on line ");
                push_usize(&mut m, t.line);
                push_str(&mut m, " is outside the bounds of LMC numbers");
                proof {
                    assert(m@ =~= warning_text(t));
                }
                r.push(string_of(&m));
            }
        }
        i = i + 1;
    }
    proof {
        assert(toks@.subrange(0, toks@.len() as int) =~= toks@);
    }
    r
}

} // verus!
