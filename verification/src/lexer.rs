//! Lexical analysis: source text to tokens.
//!
//! The scanner is specified by a mathematical model (`spec_tokenize` and
//! its helpers) defined over the source's character sequence, and the
//! executable `tokenize` is proved to return exactly what the model says:
//! the same tokens on success, and a diagnostic at exactly the position
//! the model names on failure.
//!
//! Lexical rules: identifiers are letters/digits/underscores not starting
//! with a digit; the reserved words are `var const print if else while
//! function return true false undefined not`; numbers are integer or
//! decimal literals with at most four fractional digits, stored as
//! fixed-point values scaled by ten thousand; strings are single- or
//! double-quoted with the escapes `\n \t \\ \' \"` and may span lines;
//! `//` starts a line comment and `/* ... */` a block comment. An
//! unterminated string or block comment is reported at its opening
//! position; an unrecognized character at its own position.

use vstd::prelude::*;
use crate::token::{Token, TokKind, TokData, TokModel, toks_model, kind_model};
use crate::diag::{Diagnostic, Phase, ErrKind};
use crate::strutil::{str_chars, chars_to_string};

verus! {

/// A position in the source: one-based line and column, zero-based
/// character offset.
pub struct LexPos {
    pub line: int,
    pub col: int,
    pub off: int,
}

/// A lexical error in the model: position and message.
pub struct LexErr {
    pub line: int,
    pub col: int,
    pub msg: Seq<char>,
}

/// The position at which scanning starts.
pub open spec fn start_pos() -> LexPos {
    LexPos { line: 1, col: 1, off: 0 }
}

pub open spec fn is_digit(c: char) -> bool {
    48 <= c as u32 && c as u32 <= 57
}

pub open spec fn digit_val(c: char) -> int {
    c as u32 - 48
}

pub open spec fn is_alpha(c: char) -> bool {
    (65 <= c as u32 && c as u32 <= 90) || (97 <= c as u32 && c as u32 <= 122) || c == '_'
}

pub open spec fn is_ident_char(c: char) -> bool {
    is_alpha(c) || is_digit(c)
}

pub open spec fn is_space(c: char) -> bool {
    c == ' ' || c == '\t' || c == '\r' || c == '\n'
}

/// Position advance over one character: a newline starts a new line,
/// anything else moves one column right.
pub open spec fn adv(p: LexPos, c: char) -> LexPos {
    if c == '\n' {
        LexPos { line: p.line + 1, col: 1, off: p.off + 1 }
    } else {
        LexPos { line: p.line, col: p.col + 1, off: p.off + 1 }
    }
}

/// Advance by `k` columns on the same line.
pub open spec fn adv_cols(p: LexPos, k: int) -> LexPos {
    LexPos { line: p.line, col: p.col + k, off: p.off + k }
}

/// Scanner state while skipping trivia: ordinary code, inside a line
/// comment, or inside a block comment opened at the recorded position.
pub enum TriviaState {
    Code,
    Line,
    Block(LexPos),
}

/// Skips whitespace and comments starting at `i`. Returns the index and
/// position of the first character that belongs to a token (or the end
/// of input), or an error for a block comment left open at end of input.
pub open spec fn skip_trivia(s: Seq<char>, i: int, p: LexPos, m: TriviaState) -> Result<
    (int, LexPos),
    LexErr,
>
    decreases s.len() - i,
    when 0 <= i <= s.len()
{
    match m {
        TriviaState::Code => {
            if i >= s.len() {
                Ok((i, p))
            } else if is_space(s[i]) {
                skip_trivia(s, i + 1, adv(p, s[i]), TriviaState::Code)
            } else if s[i] == '/' && i + 1 < s.len() && s[i + 1] == '/' {
                skip_trivia(s, i + 2, adv_cols(p, 2), TriviaState::Line)
            } else if s[i] == '/' && i + 1 < s.len() && s[i + 1] == '*' {
                skip_trivia(s, i + 2, adv_cols(p, 2), TriviaState::Block(p))
            } else {
                Ok((i, p))
            }
        },
        TriviaState::Line => {
            if i >= s.len() {
                Ok((i, p))
            } else if s[i] == '\n' {
                skip_trivia(s, i + 1, adv(p, s[i]), TriviaState::Code)
            } else {
                skip_trivia(s, i + 1, adv(p, s[i]), TriviaState::Line)
            }
        },
        TriviaState::Block(st) => {
            if i >= s.len() {
                Err(LexErr { line: st.line, col: st.col, msg: "unterminated block comment"@ })
            } else if s[i] == '*' && i + 1 < s.len() && s[i + 1] == '/' {
                skip_trivia(s, i + 2, adv_cols(p, 2), TriviaState::Code)
            } else {
                skip_trivia(s, i + 1, adv(p, s[i]), TriviaState::Block(st))
            }
        },
    }
}

/// The identifier text starting at `i` and the index just past it.
pub open spec fn scan_ident(s: Seq<char>, i: int) -> (Seq<char>, int)
    decreases s.len() - i,
    when 0 <= i <= s.len()
{
    if i < s.len() && is_ident_char(s[i]) {
        let (rest, j) = scan_ident(s, i + 1);
        (seq![s[i]] + rest, j)
    } else {
        (Seq::empty(), i)
    }
}

/// Classifies an identifier's text: a reserved word or a plain identifier.
pub open spec fn ident_kind(text: Seq<char>) -> TokData {
    if text == "var"@ {
        TokData::KwVar
    } else if text == "const"@ {
        TokData::KwConst
    } else if text == "print"@ {
        TokData::KwPrint
    } else if text == "if"@ {
        TokData::KwIf
    } else if text == "else"@ {
        TokData::KwElse
    } else if text == "while"@ {
        TokData::KwWhile
    } else if text == "function"@ {
        TokData::KwFunction
    } else if text == "return"@ {
        TokData::KwReturn
    } else if text == "true"@ {
        TokData::KwTrue
    } else if text == "false"@ {
        TokData::KwFalse
    } else if text == "undefined"@ {
        TokData::KwUndefined
    } else if text == "not"@ {
        TokData::KwNot
    } else {
        TokData::Ident(text)
    }
}

/// One saturating decimal-accumulation step: values are capped at 2^63,
/// which already exceeds every representable literal, so saturation and
/// "literal out of range" coincide.
pub open spec fn sat10(acc: int, d: int) -> int {
    let t = acc * 10 + d;
    if t >= 0x8000000000000000 {
        0x8000000000000000
    } else {
        t
    }
}

/// Scans a run of decimal digits starting at `i`, accumulating (with
/// saturation) onto `acc`; returns the accumulated value and the index
/// just past the run.
pub open spec fn scan_digits(s: Seq<char>, i: int, acc: int) -> (int, int)
    decreases s.len() - i,
    when 0 <= i <= s.len()
{
    if i < s.len() && is_digit(s[i]) {
        scan_digits(s, i + 1, sat10(acc, digit_val(s[i])))
    } else {
        (acc, i)
    }
}

/// The scaled value of `fcount` fractional digits starting at `k`:
/// the fraction times ten thousand.
pub open spec fn frac_scaled(s: Seq<char>, k: int, fcount: int) -> int
    recommends
        1 <= fcount <= 4,
        k + fcount <= s.len(),
{
    if fcount == 1 {
        digit_val(s[k]) * 1000
    } else if fcount == 2 {
        digit_val(s[k]) * 1000 + digit_val(s[k + 1]) * 100
    } else if fcount == 3 {
        digit_val(s[k]) * 1000 + digit_val(s[k + 1]) * 100 + digit_val(s[k + 2]) * 10
    } else {
        digit_val(s[k]) * 1000 + digit_val(s[k + 1]) * 100 + digit_val(s[k + 2]) * 10
            + digit_val(s[k + 3])
    }
}

/// Scans a numeric literal (integer or decimal form) starting at the
/// digit at `i`. The token value is the literal scaled by ten thousand.
pub open spec fn scan_number(s: Seq<char>, i: int, p: LexPos) -> Result<
    (TokModel, int, LexPos),
    LexErr,
>
    recommends
        0 <= i <= s.len(),
{
    let (iv, j) = scan_digits(s, i, 0);
    if j + 1 < s.len() && s[j] == '.' && is_digit(s[j + 1]) {
        let (fv, j2) = scan_digits(s, j + 1, 0);
        let fcount = j2 - (j + 1);
        if fcount > 4 {
            Err(LexErr { line: p.line, col: p.col, msg: "too many fractional digits"@ })
        } else {
            let total = iv * 10000 + frac_scaled(s, j + 1, fcount);
            if total > 0x7fffffffffffffff {
                Err(LexErr { line: p.line, col: p.col, msg: "numeric literal out of range"@ })
            } else {
                Ok(
                    (
                        TokModel { kind: TokData::Num(total), line: p.line, col: p.col, off: p.off },
                        j2,
                        adv_cols(p, j2 - i),
                    ),
                )
            }
        }
    } else {
        let total = iv * 10000;
        if total > 0x7fffffffffffffff {
            Err(LexErr { line: p.line, col: p.col, msg: "numeric literal out of range"@ })
        } else {
            Ok(
                (
                    TokModel { kind: TokData::Num(total), line: p.line, col: p.col, off: p.off },
                    j,
                    adv_cols(p, j - i),
                ),
            )
        }
    }
}

/// The replacement character for an escape sequence, if the escape is
/// recognized.
pub open spec fn escape_char(e: char) -> Option<char> {
    if e == 'n' {
        Some('\n')
    } else if e == 't' {
        Some('\t')
    } else if e == '\\' {
        Some('\\')
    } else if e == '\'' {
        Some('\'')
    } else if e == '"' {
        Some('"')
    } else {
        None
    }
}

/// Scans the body of a string literal whose opening quote (`quote`,
/// at position `qpos`) has been consumed; `i`/`p` stand just past it.
/// Returns the decoded text, the index just past the closing quote, and
/// the position there. An unterminated literal is reported at the
/// opening quote; an invalid escape at its backslash.
pub open spec fn scan_string(
    s: Seq<char>,
    i: int,
    p: LexPos,
    quote: char,
    acc: Seq<char>,
    qpos: LexPos,
) -> Result<(Seq<char>, int, LexPos), LexErr>
    decreases s.len() - i,
    when 0 <= i <= s.len()
{
    if i >= s.len() {
        Err(LexErr { line: qpos.line, col: qpos.col, msg: "unterminated string literal"@ })
    } else if s[i] == quote {
        Ok((acc, i + 1, adv(p, s[i])))
    } else if s[i] == '\\' {
        if i + 1 >= s.len() {
            Err(LexErr { line: qpos.line, col: qpos.col, msg: "unterminated string literal"@ })
        } else {
            match escape_char(s[i + 1]) {
                Some(c) => scan_string(
                    s,
                    i + 2,
                    adv(adv(p, s[i]), s[i + 1]),
                    quote,
                    acc.push(c),
                    qpos,
                ),
                None => Err(
                    LexErr { line: p.line, col: p.col, msg: "invalid escape sequence"@ },
                ),
            }
        }
    } else {
        scan_string(s, i + 1, adv(p, s[i]), quote, acc.push(s[i]), qpos)
    }
}

/// Scans an operator or punctuation token starting at `i`; two-character
/// operators take precedence over their one-character prefixes.
pub open spec fn scan_op(s: Seq<char>, i: int, p: LexPos) -> Result<
    (TokModel, int, LexPos),
    LexErr,
>
    recommends
        0 <= i < s.len(),
{
    let c = s[i];
    let two = i + 1 < s.len();
    let k1: Option<TokData> = if c == '=' && two && s[i + 1] == '=' {
        Some(TokData::EqEq)
    } else if c == '!' && two && s[i + 1] == '=' {
        Some(TokData::NotEq)
    } else if c == '<' && two && s[i + 1] == '=' {
        Some(TokData::Le)
    } else if c == '>' && two && s[i + 1] == '=' {
        Some(TokData::Ge)
    } else {
        None
    };
    match k1 {
        Some(k) => Ok(
            (TokModel { kind: k, line: p.line, col: p.col, off: p.off }, i + 2, adv_cols(p, 2)),
        ),
        None => {
            let k2: Option<TokData> = if c == '=' {
                Some(TokData::Assign)
            } else if c == '!' {
                Some(TokData::Bang)
            } else if c == '<' {
                Some(TokData::Lt)
            } else if c == '>' {
                Some(TokData::Gt)
            } else if c == '+' {
                Some(TokData::Plus)
            } else if c == '-' {
                Some(TokData::Minus)
            } else if c == '*' {
                Some(TokData::Star)
            } else if c == '/' {
                Some(TokData::Slash)
            } else if c == '(' {
                Some(TokData::LParen)
            } else if c == ')' {
                Some(TokData::RParen)
            } else if c == '{' {
                Some(TokData::LBrace)
            } else if c == '}' {
                Some(TokData::RBrace)
            } else if c == '[' {
                Some(TokData::LBracket)
            } else if c == ']' {
                Some(TokData::RBracket)
            } else if c == ',' {
                Some(TokData::Comma)
            } else {
                None
            };
            match k2 {
                Some(k) => Ok(
                    (
                        TokModel { kind: k, line: p.line, col: p.col, off: p.off },
                        i + 1,
                        adv_cols(p, 1),
                    ),
                ),
                None => Err(
                    LexErr { line: p.line, col: p.col, msg: "unrecognized character"@ },
                ),
            }
        },
    }
}

/// Scans one token starting at the non-trivia character at `i`.
pub open spec fn scan_tok(s: Seq<char>, i: int, p: LexPos) -> Result<
    (TokModel, int, LexPos),
    LexErr,
>
    recommends
        0 <= i < s.len(),
{
    let c = s[i];
    if is_alpha(c) {
        let (text, j) = scan_ident(s, i);
        Ok(
            (
                TokModel { kind: ident_kind(text), line: p.line, col: p.col, off: p.off },
                j,
                adv_cols(p, j - i),
            ),
        )
    } else if is_digit(c) {
        scan_number(s, i, p)
    } else if c == '\'' || c == '"' {
        match scan_string(s, i + 1, adv_cols(p, 1), c, Seq::empty(), p) {
            Ok((text, j, q)) => Ok(
                (TokModel { kind: TokData::Str(text), line: p.line, col: p.col, off: p.off }, j, q),
            ),
            Err(e) => Err(e),
        }
    } else {
        scan_op(s, i, p)
    }
}

/// The full token sequence of `s` from index `i` at position `p`: skip
/// trivia, then either finish with the end-of-input token or scan one
/// token and continue. The two guard branches that report a scanner
/// that failed to advance are unreachable (`lemma_scan_tok_bounds`);
/// they exist only to make the recursion's termination measure obvious.
pub open spec fn spec_tokenize(s: Seq<char>, i: int, p: LexPos) -> Result<Seq<TokModel>, LexErr>
    decreases s.len() - i,
    when 0 <= i <= s.len()
{
    match skip_trivia(s, i, p, TriviaState::Code) {
        Err(e) => Err(e),
        Ok((j, q)) => {
            if !(i <= j <= s.len()) {
                Err(LexErr { line: q.line, col: q.col, msg: "scanner did not advance"@ })
            } else if j == s.len() {
                Ok(
                    seq![
                        TokModel { kind: TokData::Eoi, line: q.line, col: q.col, off: q.off },
                    ],
                )
            } else {
                match scan_tok(s, j, q) {
                    Err(e) => Err(e),
                    Ok((t, j2, q2)) => {
                        if !(j < j2 <= s.len()) {
                            Err(
                                LexErr {
                                    line: q.line,
                                    col: q.col,
                                    msg: "scanner did not advance"@,
                                },
                            )
                        } else {
                            match spec_tokenize(s, j2, q2) {
                                Err(e) => Err(e),
                                Ok(rest) => Ok(seq![t] + rest),
                            }
                        }
                    },
                }
            }
        },
    }
}

/// What `tokenize` promises: its result equals the model's, token for
/// token on success, position and message for position and message on
/// failure (always in the lex phase, always a `LexError`).
pub open spec fn tokenize_post(r: Result<Vec<Token>, Diagnostic>, s: Seq<char>) -> bool {
    match spec_tokenize(s, 0, start_pos()) {
        Ok(ts) => r matches Ok(v) && toks_model(v@) == ts,
        Err(e) => r matches Err(d) && d.phase == Phase::Lex && d.kind == ErrKind::LexError
            && d.line as int == e.line && d.column as int == e.col && d.message@ == e.msg,
    }
}

} // verus!

// ---------------------------------------------------------------------------
// Bounds lemmas for the model: every scanner stays inside the input and
// makes progress, so the guard branches of `spec_tokenize` never fire.
// ---------------------------------------------------------------------------

verus! {

pub proof fn lemma_skip_trivia_bounds(s: Seq<char>, i: int, p: LexPos, m: TriviaState)
    requires
        0 <= i <= s.len(),
    ensures
        skip_trivia(s, i, p, m) matches Ok(jq) ==> i <= jq.0 <= s.len(),
    decreases s.len() - i,
{
    match m {
        TriviaState::Code => {
            if i < s.len() {
                if is_space(s[i]) {
                    lemma_skip_trivia_bounds(s, i + 1, adv(p, s[i]), TriviaState::Code);
                } else if s[i] == '/' && i + 1 < s.len() && s[i + 1] == '/' {
                    lemma_skip_trivia_bounds(s, i + 2, adv_cols(p, 2), TriviaState::Line);
                } else if s[i] == '/' && i + 1 < s.len() && s[i + 1] == '*' {
                    lemma_skip_trivia_bounds(s, i + 2, adv_cols(p, 2), TriviaState::Block(p));
                }
            }
        },
        TriviaState::Line => {
            if i < s.len() {
                if s[i] == '\n' {
                    lemma_skip_trivia_bounds(s, i + 1, adv(p, s[i]), TriviaState::Code);
                } else {
                    lemma_skip_trivia_bounds(s, i + 1, adv(p, s[i]), TriviaState::Line);
                }
            }
        },
        TriviaState::Block(st) => {
            if i < s.len() {
                if s[i] == '*' && i + 1 < s.len() && s[i + 1] == '/' {
                    lemma_skip_trivia_bounds(s, i + 2, adv_cols(p, 2), TriviaState::Code);
                } else {
                    lemma_skip_trivia_bounds(s, i + 1, adv(p, s[i]), TriviaState::Block(st));
                }
            }
        },
    }
}

pub proof fn lemma_scan_ident_bounds(s: Seq<char>, i: int)
    requires
        0 <= i <= s.len(),
    ensures
        i <= scan_ident(s, i).1 <= s.len(),
    decreases s.len() - i,
{
    if i < s.len() && is_ident_char(s[i]) {
        lemma_scan_ident_bounds(s, i + 1);
    }
}

pub proof fn lemma_scan_digits_bounds(s: Seq<char>, i: int, acc: int)
    requires
        0 <= i <= s.len(),
        0 <= acc <= 0x8000000000000000,
    ensures
        i <= scan_digits(s, i, acc).1 <= s.len(),
        0 <= scan_digits(s, i, acc).0 <= 0x8000000000000000,
        forall|m: int| i <= m < scan_digits(s, i, acc).1 ==> is_digit(s[m]),
        i < s.len() && is_digit(s[i]) ==> scan_digits(s, i, acc).1 > i,
    decreases s.len() - i,
{
    if i < s.len() && is_digit(s[i]) {
        lemma_scan_digits_bounds(s, i + 1, sat10(acc, digit_val(s[i])));
    }
}

pub proof fn lemma_scan_string_bounds(
    s: Seq<char>,
    i: int,
    p: LexPos,
    quote: char,
    acc: Seq<char>,
    qpos: LexPos,
)
    requires
        0 <= i <= s.len(),
    ensures
        scan_string(s, i, p, quote, acc, qpos) matches Ok(t) ==> i < t.1 <= s.len(),
    decreases s.len() - i,
{
    if i < s.len() {
        if s[i] == quote {
        } else if s[i] == '\\' {
            if i + 1 < s.len() {
                match escape_char(s[i + 1]) {
                    Some(c) => {
                        lemma_scan_string_bounds(
                            s,
                            i + 2,
                            adv(adv(p, s[i]), s[i + 1]),
                            quote,
                            acc.push(c),
                            qpos,
                        );
                    },
                    None => {},
                }
            }
        } else {
            lemma_scan_string_bounds(s, i + 1, adv(p, s[i]), quote, acc.push(s[i]), qpos);
        }
    }
}

pub proof fn lemma_scan_tok_bounds(s: Seq<char>, i: int, p: LexPos)
    requires
        0 <= i < s.len(),
    ensures
        scan_tok(s, i, p) matches Ok(t) ==> i < t.1 <= s.len(),
{
    let c = s[i];
    if is_alpha(c) {
        lemma_scan_ident_bounds(s, i + 1);
        assert(scan_ident(s, i).1 == scan_ident(s, i + 1).1);
    } else if is_digit(c) {
        lemma_scan_digits_bounds(s, i, 0);
        let j = scan_digits(s, i, 0).1;
        assert(scan_digits(s, i, 0).1 == scan_digits(s, i + 1, sat10(0, digit_val(s[i]))).1);
        lemma_scan_digits_bounds(s, i + 1, sat10(0, digit_val(s[i])));
        if j + 1 < s.len() && s[j] == '.' && is_digit(s[j + 1]) {
            lemma_scan_digits_bounds(s, j + 1, 0);
            assert(scan_digits(s, j + 1, 0).1 == scan_digits(s, j + 2, sat10(0, digit_val(s[j + 1]))).1);
            lemma_scan_digits_bounds(s, j + 2, sat10(0, digit_val(s[j + 1])));
        }
    } else if c == '\'' || c == '"' {
        lemma_scan_string_bounds(s, i + 1, adv_cols(p, 1), c, Seq::empty(), p);
    }
}

} // verus!

// ---------------------------------------------------------------------------
// The executable scanner, proved against the model above.
// ---------------------------------------------------------------------------

verus! {

fn is_digit_x(c: char) -> (b: bool)
    ensures
        b == is_digit(c),
{
    let u = c as u32;
    48 <= u && u <= 57
}

fn is_alpha_x(c: char) -> (b: bool)
    ensures
        b == is_alpha(c),
{
    let u = c as u32;
    (65 <= u && u <= 90) || (97 <= u && u <= 122) || c == '_'
}

fn is_ident_char_x(c: char) -> (b: bool)
    ensures
        b == is_ident_char(c),
{
    is_alpha_x(c) || is_digit_x(c)
}

fn is_space_x(c: char) -> (b: bool)
    ensures
        b == is_space(c),
{
    c == ' ' || c == '\t' || c == '\r' || c == '\n'
}

/// String equality against a literal, phrased over views.
fn streq(a: &String, b: &str) -> (r: bool)
    ensures
        r == (a@ == b@),
{
    let bo: String = b.to_owned();
    *a == bo
}

/// A position as the model sees it.
pub open spec fn pos_at(line: u64, col: u64, off: int) -> LexPos {
    LexPos { line: line as int, col: col as int, off: off }
}

/// The executable trivia-skipping state.
enum TriviaModeX {
    Code,
    Line,
    Block,
}

spec fn trivia_model(m: TriviaModeX, bl: u64, bc: u64, boff: u64) -> TriviaState {
    match m {
        TriviaModeX::Code => TriviaState::Code,
        TriviaModeX::Line => TriviaState::Line,
        TriviaModeX::Block => TriviaState::Block(
            LexPos { line: bl as int, col: bc as int, off: boff as int },
        ),
    }
}

fn skip_trivia_x(s: &Vec<char>, i0: usize, l0: u64, c0: u64) -> (r: Result<
    (usize, u64, u64),
    Diagnostic,
>)
    requires
        s@.len() < 0x8000000000000000,
        i0 <= s@.len(),
        1 <= l0,
        1 <= c0,
        l0 as int <= i0 as int + 1,
        c0 as int <= i0 as int + 1,
    ensures
        match skip_trivia(s@, i0 as int, pos_at(l0, c0, i0 as int), TriviaState::Code) {
            Ok(jq) => r matches Ok(t) && t.0 as int == jq.0 && t.1 as int == jq.1.line
                && t.2 as int == jq.1.col && jq.1.off == jq.0 && i0 <= t.0 <= s@.len() && 1 <= t.1
                && 1 <= t.2 && t.1 as int <= t.0 as int + 1 && t.2 as int <= t.0 as int + 1,
            Err(e) => r matches Err(d) && d.phase == Phase::Lex && d.kind == ErrKind::LexError
                && d.line as int == e.line && d.column as int == e.col && d.message@ == e.msg,
        },
{
    let mut i: usize = i0;
    let mut line: u64 = l0;
    let mut col: u64 = c0;
    let mut mode = TriviaModeX::Code;
    let mut bl: u64 = 1;
    let mut bc: u64 = 1;
    let mut boff: u64 = 0;
    loop
        invariant
            s@.len() < 0x8000000000000000,
            i0 <= i <= s@.len(),
            1 <= line,
            1 <= col,
            line as int <= i as int + 1,
            col as int <= i as int + 1,
            skip_trivia(s@, i0 as int, pos_at(l0, c0, i0 as int), TriviaState::Code)
                == skip_trivia(s@, i as int, pos_at(line, col, i as int), trivia_model(mode, bl, bc, boff)),
        decreases s@.len() - i, (match mode { TriviaModeX::Code => 1int, _ => 0int }),
    {
        match mode {
            TriviaModeX::Code => {
                if i >= s.len() {
                    return Ok((i, line, col));
                }
                let ch = s[i];
                if is_space_x(ch) {
                    if ch == '\n' {
                        line = line + 1;
                        col = 1;
                    } else {
                        col = col + 1;
                    }
                    i = i + 1;
                } else if ch == '/' && i + 1 < s.len() && s[i + 1] == '/' {
                    col = col + 2;
                    i = i + 2;
                    mode = TriviaModeX::Line;
                } else if ch == '/' && i + 1 < s.len() && s[i + 1] == '*' {
                    bl = line;
                    bc = col;
                    boff = i as u64;
                    col = col + 2;
                    i = i + 2;
                    mode = TriviaModeX::Block;
                } else {
                    return Ok((i, line, col));
                }
            },
            TriviaModeX::Line => {
                if i >= s.len() {
                    return Ok((i, line, col));
                }
                let ch = s[i];
                if ch == '\n' {
                    line = line + 1;
                    col = 1;
                    mode = TriviaModeX::Code;
                } else {
                    col = col + 1;
                }
                i = i + 1;
            },
            TriviaModeX::Block => {
                if i >= s.len() {
                    return Err(
                        Diagnostic::new(
                            Phase::Lex,
                            ErrKind::LexError,
                            "unterminated block comment".to_owned(),
                            bl,
                            bc,
                        ),
                    );
                }
                let ch = s[i];
                if ch == '*' && i + 1 < s.len() && s[i + 1] == '/' {
                    col = col + 2;
                    i = i + 2;
                    mode = TriviaModeX::Code;
                } else {
                    if ch == '\n' {
                        line = line + 1;
                        col = 1;
                    } else {
                        col = col + 1;
                    }
                    i = i + 1;
                }
            },
        }
    }
}

fn scan_ident_x(s: &Vec<char>, i0: usize) -> (r: (Vec<char>, usize))
    requires
        i0 <= s@.len(),
    ensures
        r.0@ == scan_ident(s@, i0 as int).0,
        r.1 as int == scan_ident(s@, i0 as int).1,
        i0 <= r.1 <= s@.len(),
{
    let mut i: usize = i0;
    let mut text: Vec<char> = Vec::new();
    loop
        invariant
            i0 <= i <= s@.len(),
            scan_ident(s@, i0 as int).0 =~= text@ + scan_ident(s@, i as int).0,
            scan_ident(s@, i0 as int).1 == scan_ident(s@, i as int).1,
        decreases s@.len() - i,
    {
        if i < s.len() && is_ident_char_x(s[i]) {
            text.push(s[i]);
            i = i + 1;
            proof {
                assert(scan_ident(s@, i0 as int).0 =~= text@ + scan_ident(s@, i as int).0);
            }
        } else {
            proof {
                assert(scan_ident(s@, i as int).0 =~= Seq::<char>::empty());
                assert(scan_ident(s@, i0 as int).0 =~= text@);
            }
            return (text, i);
        }
    }
}

fn ident_kind_x(text: String) -> (k: TokKind)
    ensures
        kind_model(k) == ident_kind(text@),
{
    if streq(&text, "var") {
        TokKind::KwVar
    } else if streq(&text, "const") {
        TokKind::KwConst
    } else if streq(&text, "print") {
        TokKind::KwPrint
    } else if streq(&text, "if") {
        TokKind::KwIf
    } else if streq(&text, "else") {
        TokKind::KwElse
    } else if streq(&text, "while") {
        TokKind::KwWhile
    } else if streq(&text, "function") {
        TokKind::KwFunction
    } else if streq(&text, "return") {
        TokKind::KwReturn
    } else if streq(&text, "true") {
        TokKind::KwTrue
    } else if streq(&text, "false") {
        TokKind::KwFalse
    } else if streq(&text, "undefined") {
        TokKind::KwUndefined
    } else if streq(&text, "not") {
        TokKind::KwNot
    } else {
        TokKind::Ident(text)
    }
}

fn scan_digits_x(s: &Vec<char>, i0: usize, acc0: u128) -> (r: (u128, usize))
    requires
        i0 <= s@.len(),
        acc0 <= 0x8000000000000000,
    ensures
        r.0 as int == scan_digits(s@, i0 as int, acc0 as int).0,
        r.1 as int == scan_digits(s@, i0 as int, acc0 as int).1,
        i0 <= r.1 <= s@.len(),
        r.0 <= 0x8000000000000000,
{
    let mut i: usize = i0;
    let mut acc: u128 = acc0;
    loop
        invariant
            i0 <= i <= s@.len(),
            acc <= 0x8000000000000000,
            scan_digits(s@, i0 as int, acc0 as int) == scan_digits(s@, i as int, acc as int),
        decreases s@.len() - i,
    {
        if i < s.len() && is_digit_x(s[i]) {
            let d = (s[i] as u32 - 48) as u128;
            let t = acc * 10 + d;
            if t >= 0x8000000000000000 {
                acc = 0x8000000000000000;
            } else {
                acc = t;
            }
            i = i + 1;
        } else {
            return (acc, i);
        }
    }
}

fn scan_number_x(s: &Vec<char>, i0: usize, l0: u64, c0: u64) -> (r: Result<
    (Token, usize, u64, u64),
    Diagnostic,
>)
    requires
        i0 < s@.len(),
        is_digit(s@[i0 as int]),
        1 <= l0,
        1 <= c0,
        c0 as int <= i0 as int + 1,
        s@.len() < 0x8000000000000000,
    ensures
        match scan_number(s@, i0 as int, pos_at(l0, c0, i0 as int)) {
            Ok(t) => r matches Ok(x) && x.0@ == t.0 && x.1 as int == t.1 && x.2 as int == t.2.line
                && x.3 as int == t.2.col,
            Err(e) => r matches Err(d) && d.phase == Phase::Lex && d.kind == ErrKind::LexError
                && d.line as int == e.line && d.column as int == e.col && d.message@ == e.msg,
        },
{
    let n = s.len();
    let (iv, j) = scan_digits_x(s, i0, 0);
    proof {
        lemma_scan_digits_bounds(s@, i0 as int, 0);
    }
    if j < n && j + 1 < n && s[j] == '.' && is_digit_x(s[j + 1]) {
        let (_fv, j2) = scan_digits_x(s, j + 1, 0);
        proof {
            lemma_scan_digits_bounds(s@, j as int + 1, 0);
        }
        let fcount = j2 - (j + 1);
        if fcount > 4 {
            return Err(
                Diagnostic::new(
                    Phase::Lex,
                    ErrKind::LexError,
                    "too many fractional digits".to_owned(),
                    l0,
                    c0,
                ),
            );
        }
        let d1 = (s[j + 1] as u32 - 48) as u128;
        let frac: u128 = if fcount == 1 {
            d1 * 1000
        } else if fcount == 2 {
            d1 * 1000 + (s[j + 2] as u32 - 48) as u128 * 100
        } else if fcount == 3 {
            d1 * 1000 + (s[j + 2] as u32 - 48) as u128 * 100 + (s[j + 3] as u32 - 48) as u128 * 10
        } else {
            d1 * 1000 + (s[j + 2] as u32 - 48) as u128 * 100 + (s[j + 3] as u32 - 48) as u128 * 10
                + (s[j + 4] as u32 - 48) as u128
        };
        proof {
            assert(frac as int == frac_scaled(s@, j as int + 1, fcount as int));
        }
        let total: u128 = iv * 10000 + frac;
        if total > 0x7fffffffffffffff {
            return Err(
                Diagnostic::new(
                    Phase::Lex,
                    ErrKind::LexError,
                    "numeric literal out of range".to_owned(),
                    l0,
                    c0,
                ),
            );
        }
        let tok = Token { kind: TokKind::Num(total as i64), line: l0, col: c0, off: i0 as u64 };
        let ncol = c0 + (j2 - i0) as u64;
        Ok((tok, j2, l0, ncol))
    } else {
        let total: u128 = iv * 10000;
        if total > 0x7fffffffffffffff {
            return Err(
                Diagnostic::new(
                    Phase::Lex,
                    ErrKind::LexError,
                    "numeric literal out of range".to_owned(),
                    l0,
                    c0,
                ),
            );
        }
        let tok = Token { kind: TokKind::Num(total as i64), line: l0, col: c0, off: i0 as u64 };
        let ncol = c0 + (j - i0) as u64;
        Ok((tok, j, l0, ncol))
    }
}

fn escape_char_x(e: char) -> (r: Option<char>)
    ensures
        r == escape_char(e),
{
    if e == 'n' {
        Some('\n')
    } else if e == 't' {
        Some('\t')
    } else if e == '\\' {
        Some('\\')
    } else if e == '\'' {
        Some('\'')
    } else if e == '"' {
        Some('"')
    } else {
        None
    }
}

fn scan_string_x(
    s: &Vec<char>,
    i0: usize,
    l0: u64,
    c0: u64,
    quote: char,
    ql: u64,
    qc: u64,
    qoff: u64,
) -> (r: Result<(String, usize, u64, u64), Diagnostic>)
    requires
        i0 <= s@.len() < 0x8000000000000000,
        quote != '\n',
        1 <= l0,
        1 <= c0,
        l0 as int <= i0 as int + 1,
        c0 as int <= i0 as int + 1,
    ensures
        match scan_string(
            s@,
            i0 as int,
            pos_at(l0, c0, i0 as int),
            quote,
            Seq::empty(),
            LexPos { line: ql as int, col: qc as int, off: qoff as int },
        ) {
            Ok(t) => r matches Ok(x) && x.0@ == t.0 && x.1 as int == t.1 && x.2 as int == t.2.line
                && x.3 as int == t.2.col && i0 < x.1 <= s@.len() && 1 <= x.2 && 1 <= x.3 && x.2
                as int <= x.1 as int + 1 && x.3 as int <= x.1 as int + 1 && t.2.off == t.1,
            Err(e) => r matches Err(d) && d.phase == Phase::Lex && d.kind == ErrKind::LexError
                && d.line as int == e.line && d.column as int == e.col && d.message@ == e.msg,
        },
{
    let ghost qpos = LexPos { line: ql as int, col: qc as int, off: qoff as int };
    let mut i: usize = i0;
    let mut line: u64 = l0;
    let mut col: u64 = c0;
    let mut acc: Vec<char> = Vec::new();
    loop
        invariant
            i0 <= i <= s@.len(),
            s@.len() < 0x8000000000000000,
            1 <= line,
            1 <= col,
            line as int <= i as int + 1,
            col as int <= i as int + 1,
            quote != '\n',
            qpos == (LexPos { line: ql as int, col: qc as int, off: qoff as int }),
            scan_string(s@, i0 as int, pos_at(l0, c0, i0 as int), quote, Seq::empty(), qpos)
                == scan_string(s@, i as int, pos_at(line, col, i as int), quote, acc@, qpos),
        decreases s@.len() - i,
    {
        if i >= s.len() {
            return Err(
                Diagnostic::new(
                    Phase::Lex,
                    ErrKind::LexError,
                    "unterminated string literal".to_owned(),
                    ql,
                    qc,
                ),
            );
        }
        let ch = s[i];
        if ch == quote {
            let text = chars_to_string(&acc);
            return Ok((text, i + 1, line, col + 1));
        } else if ch == '\\' {
            if i + 1 >= s.len() {
                return Err(
                    Diagnostic::new(
                        Phase::Lex,
                        ErrKind::LexError,
                        "unterminated string literal".to_owned(),
                        ql,
                        qc,
                    ),
                );
            }
            match escape_char_x(s[i + 1]) {
                Some(c) => {
                    acc.push(c);
                    col = col + 2;
                    i = i + 2;
                },
                None => {
                    return Err(
                        Diagnostic::new(
                            Phase::Lex,
                            ErrKind::LexError,
                            "invalid escape sequence".to_owned(),
                            line,
                            col,
                        ),
                    );
                },
            }
        } else {
            acc.push(ch);
            if ch == '\n' {
                line = line + 1;
                col = 1;
            } else {
                col = col + 1;
            }
            i = i + 1;
        }
    }
}

fn scan_tok_x(s: &Vec<char>, i0: usize, l0: u64, c0: u64) -> (r: Result<
    (Token, usize, u64, u64),
    Diagnostic,
>)
    requires
        i0 < s@.len() < 0x8000000000000000,
        1 <= l0,
        1 <= c0,
        l0 as int <= i0 as int + 1,
        c0 as int <= i0 as int + 1,
    ensures
        match scan_tok(s@, i0 as int, pos_at(l0, c0, i0 as int)) {
            Ok(t) => r matches Ok(x) && x.0@ == t.0 && x.1 as int == t.1 && x.2 as int == t.2.line
                && x.3 as int == t.2.col && i0 < x.1 <= s@.len() && 1 <= x.2 && 1 <= x.3 && x.2
                as int <= x.1 as int + 1 && x.3 as int <= x.1 as int + 1 && t.2.off == t.1,
            Err(e) => r matches Err(d) && d.phase == Phase::Lex && d.kind == ErrKind::LexError
                && d.line as int == e.line && d.column as int == e.col && d.message@ == e.msg,
        },
{
    let n = s.len();
    let c = s[i0];
    if is_alpha_x(c) {
        let (text, j) = scan_ident_x(s, i0);
        proof {
            lemma_scan_ident_bounds(s@, i0 as int + 1);
            assert(scan_ident(s@, i0 as int).1 == scan_ident(s@, i0 as int + 1).1);
        }
        let kind = ident_kind_x(chars_to_string(&text));
        let tok = Token { kind, line: l0, col: c0, off: i0 as u64 };
        let ncol = c0 + (j - i0) as u64;
        Ok((tok, j, l0, ncol))
    } else if is_digit_x(c) {
        let res = scan_number_x(s, i0, l0, c0);
        proof {
            lemma_scan_tok_bounds(s@, i0 as int, pos_at(l0, c0, i0 as int));
        }
        match res {
            Ok(x) => {
                proof {
                    lemma_scan_digits_bounds(s@, i0 as int, 0);
                }
                Ok(x)
            },
            Err(d) => Err(d),
        }
    } else if c == '\'' || c == '"' {
        match scan_string_x(s, i0 + 1, l0, c0 + 1, c, l0, c0, i0 as u64) {
            Ok((text, j, nl, nc)) => {
                let tok = Token { kind: TokKind::Str(text), line: l0, col: c0, off: i0 as u64 };
                Ok((tok, j, nl, nc))
            },
            Err(d) => Err(d),
        }
    } else {
        let two = i0 + 1 < n;
        if c == '=' && two && s[i0 + 1] == '=' {
            Ok((Token { kind: TokKind::EqEq, line: l0, col: c0, off: i0 as u64 }, i0 + 2, l0, c0 + 2))
        } else if c == '!' && two && s[i0 + 1] == '=' {
            Ok((Token { kind: TokKind::NotEq, line: l0, col: c0, off: i0 as u64 }, i0 + 2, l0, c0 + 2))
        } else if c == '<' && two && s[i0 + 1] == '=' {
            Ok((Token { kind: TokKind::Le, line: l0, col: c0, off: i0 as u64 }, i0 + 2, l0, c0 + 2))
        } else if c == '>' && two && s[i0 + 1] == '=' {
            Ok((Token { kind: TokKind::Ge, line: l0, col: c0, off: i0 as u64 }, i0 + 2, l0, c0 + 2))
        } else if c == '=' {
            Ok((Token { kind: TokKind::Assign, line: l0, col: c0, off: i0 as u64 }, i0 + 1, l0, c0 + 1))
        } else if c == '!' {
            Ok((Token { kind: TokKind::Bang, line: l0, col: c0, off: i0 as u64 }, i0 + 1, l0, c0 + 1))
        } else if c == '<' {
            Ok((Token { kind: TokKind::Lt, line: l0, col: c0, off: i0 as u64 }, i0 + 1, l0, c0 + 1))
        } else if c == '>' {
            Ok((Token { kind: TokKind::Gt, line: l0, col: c0, off: i0 as u64 }, i0 + 1, l0, c0 + 1))
        } else if c == '+' {
            Ok((Token { kind: TokKind::Plus, line: l0, col: c0, off: i0 as u64 }, i0 + 1, l0, c0 + 1))
        } else if c == '-' {
            Ok((Token { kind: TokKind::Minus, line: l0, col: c0, off: i0 as u64 }, i0 + 1, l0, c0 + 1))
        } else if c == '*' {
            Ok((Token { kind: TokKind::Star, line: l0, col: c0, off: i0 as u64 }, i0 + 1, l0, c0 + 1))
        } else if c == '/' {
            Ok((Token { kind: TokKind::Slash, line: l0, col: c0, off: i0 as u64 }, i0 + 1, l0, c0 + 1))
        } else if c == '(' {
            Ok((Token { kind: TokKind::LParen, line: l0, col: c0, off: i0 as u64 }, i0 + 1, l0, c0 + 1))
        } else if c == ')' {
            Ok((Token { kind: TokKind::RParen, line: l0, col: c0, off: i0 as u64 }, i0 + 1, l0, c0 + 1))
        } else if c == '{' {
            Ok((Token { kind: TokKind::LBrace, line: l0, col: c0, off: i0 as u64 }, i0 + 1, l0, c0 + 1))
        } else if c == '}' {
            Ok((Token { kind: TokKind::RBrace, line: l0, col: c0, off: i0 as u64 }, i0 + 1, l0, c0 + 1))
        } else if c == '[' {
            Ok((Token { kind: TokKind::LBracket, line: l0, col: c0, off: i0 as u64 }, i0 + 1, l0, c0 + 1))
        } else if c == ']' {
            Ok((Token { kind: TokKind::RBracket, line: l0, col: c0, off: i0 as u64 }, i0 + 1, l0, c0 + 1))
        } else if c == ',' {
            Ok((Token { kind: TokKind::Comma, line: l0, col: c0, off: i0 as u64 }, i0 + 1, l0, c0 + 1))
        } else {
            Err(
                Diagnostic::new(
                    Phase::Lex,
                    ErrKind::LexError,
                    "unrecognized character".to_owned(),
                    l0,
                    c0,
                ),
            )
        }
    }
}

/// Appending one token's model commutes with `toks_model`.
proof fn lemma_toks_model_push(ts: Seq<Token>, t: Token)
    ensures
        toks_model(ts.push(t)) =~= toks_model(ts) + seq![t@],
{
}

/// Composes an already-emitted prefix with the model of the remainder.
pub open spec fn tok_compose(prefix: Seq<TokModel>, rest: Result<Seq<TokModel>, LexErr>) -> Result<
    Seq<TokModel>,
    LexErr,
> {
    match rest {
        Ok(ts) => Ok(prefix + ts),
        Err(e) => Err(e),
    }
}

/// Lexical analysis: scans `text` left to right in one pass into a token
/// sequence ending with an end-of-input token, or fails with a `LexError`
/// diagnostic at exactly the position the model `spec_tokenize` names.
/// The source name is carried for the caller's presentation only.
pub fn tokenize(_source_name: &str, text: &str) -> (r: Result<Vec<Token>, Diagnostic>)
    requires
        text@.len() < 0x8000000000000000,
    ensures
        tokenize_post(r, text@),
{
    let s = str_chars(text);
    let mut i: usize = 0;
    let mut line: u64 = 1;
    let mut col: u64 = 1;
    let mut out: Vec<Token> = Vec::new();
    loop
        invariant
            s@ == text@,
            i <= s@.len() < 0x8000000000000000,
            1 <= line,
            1 <= col,
            line as int <= i as int + 1,
            col as int <= i as int + 1,
            spec_tokenize(text@, 0, start_pos()) == tok_compose(
                toks_model(out@),
                spec_tokenize(text@, i as int, pos_at(line, col, i as int)),
            ),
        decreases s@.len() - i,
    {
        let ghost cur = pos_at(line, col, i as int);
        match skip_trivia_x(&s, i, line, col) {
            Err(d) => {
                return Err(d);
            },
            Ok((j, jl, jc)) => {
                proof {
                    lemma_skip_trivia_bounds(s@, i as int, cur, TriviaState::Code);
                }
                if j >= s.len() {
                    let eoi = Token { kind: TokKind::Eoi, line: jl, col: jc, off: j as u64 };
                    let ghost before = out@;
                    out.push(eoi);
                    proof {
                        lemma_toks_model_push(before, eoi);
                    }
                    return Ok(out);
                }
                match scan_tok_x(&s, j, jl, jc) {
                    Err(d) => {
                        return Err(d);
                    },
                    Ok((tok, j2, nl, nc)) => {
                        let ghost before = out@;
                        out.push(tok);
                        proof {
                            lemma_scan_tok_bounds(s@, j as int, pos_at(jl, jc, j as int));
                            lemma_toks_model_push(before, tok);
                            let q = pos_at(jl, jc, j as int);
                            let q2 = pos_at(nl, nc, j2 as int);
                            let rest = spec_tokenize(text@, j2 as int, q2);
                            assert(skip_trivia(text@, i as int, cur, TriviaState::Code)
                                == Ok::<(int, LexPos), LexErr>((j as int, q)));
                            assert(scan_tok(text@, j as int, q) matches Ok(t) && t.0 == tok@
                                && t.1 == j2 as int && t.2 == q2);
                            assert(spec_tokenize(text@, i as int, cur) == tok_compose(
                                seq![tok@],
                                rest,
                            ));
                            match rest {
                                Ok(ts) => {
                                    assert(toks_model(before) + (seq![tok@] + ts) =~= toks_model(
                                        out@,
                                    ) + ts);
                                },
                                Err(_) => {},
                            }
                        }
                        i = j2;
                        line = nl;
                        col = nc;
                    },
                }
            },
        }
    }
}

} // verus!
