//! The lexer: raw text to an ordered sequence of tokens.
//!
//! Whitespace is skipped; a digit or a decimal point opens a numeral scan;
//! each of the nine symbol characters becomes its token; any other
//! character fails the whole tokenization. A numeral must contain a digit,
//! at most one decimal point, and must denote a value small enough to
//! round to a finite binary64 number.
use vstd::prelude::*;
use vstd::string::*;
use crate::token::{Token, SpecToken, TokenError, SpecTokenError};

verus! {

/// True for the ten ASCII digit characters.
pub open spec fn spec_is_digit(c: char) -> bool {
    '0' <= c && c <= '9'
}

/// Decides whether a character is an ASCII digit.
pub fn is_digit(c: char) -> (r: bool)
    ensures
        r == spec_is_digit(c),
{
    '0' <= c && c <= '9'
}

/// The Unicode White_Space set: exactly the characters the standard
/// library's whitespace test accepts.
pub open spec fn spec_is_whitespace(c: char) -> bool {
    c == ' ' || c == '\t' || c == '\n' || c == '\u{b}' || c == '\u{c}' || c == '\r'
        || c == '\u{85}' || c == '\u{a0}' || c == '\u{1680}'
        || ('\u{2000}' <= c && c <= '\u{200a}')
        || c == '\u{2028}' || c == '\u{2029}' || c == '\u{202f}' || c == '\u{205f}'
        || c == '\u{3000}'
}

/// Decides whether a character is whitespace.
pub fn is_whitespace(c: char) -> (r: bool)
    ensures
        r == spec_is_whitespace(c),
{
    c == ' ' || c == '\t' || c == '\n' || c == '\u{b}' || c == '\u{c}' || c == '\r'
        || c == '\u{85}' || c == '\u{a0}' || c == '\u{1680}'
        || ('\u{2000}' <= c && c <= '\u{200a}')
        || c == '\u{2028}' || c == '\u{2029}' || c == '\u{202f}' || c == '\u{205f}'
        || c == '\u{3000}'
}

/// Where a numeral scan that starts inside the text comes to rest: either
/// at the first character that no longer belongs to the numeral (or the
/// end of the text), or at a second decimal point, which is an error.
pub enum SpecScan {
    Done { end: int },
    SecondDot { at: int },
}

/// Scans the maximal run of digits and at most one decimal point starting
/// at `i`; `seen_dot` records whether a decimal point was already taken.
pub open spec fn spec_scan_numeral(s: Seq<char>, i: int, seen_dot: bool) -> SpecScan
    decreases s.len() - i,
{
    if i < 0 || i >= s.len() {
        SpecScan::Done { end: i }
    } else if spec_is_digit(s[i]) {
        spec_scan_numeral(s, i + 1, seen_dot)
    } else if s[i] == '.' {
        if seen_dot {
            SpecScan::SecondDot { at: i }
        } else {
            spec_scan_numeral(s, i + 1, true)
        }
    } else {
        SpecScan::Done { end: i }
    }
}

/// The scan never moves backwards and never leaves the text.
pub proof fn lemma_scan_numeral_bounds(s: Seq<char>, i: int, seen_dot: bool)
    requires
        0 <= i <= s.len(),
    ensures
        match spec_scan_numeral(s, i, seen_dot) {
            SpecScan::Done { end } => i <= end <= s.len(),
            SpecScan::SecondDot { at } => i <= at < s.len(),
        },
    decreases s.len() - i,
{
    if i < s.len() {
        if spec_is_digit(s[i]) {
            lemma_scan_numeral_bounds(s, i + 1, seen_dot);
        } else if s[i] == '.' && !seen_dot {
            lemma_scan_numeral_bounds(s, i + 1, true);
        }
    }
}

/// The numeral text contains at least one digit. A lone decimal point is
/// not a number.
pub open spec fn spec_has_digit(t: Seq<char>) -> bool {
    exists|j: int| 0 <= j < t.len() && spec_is_digit(t[j])
}

/// The decimal digits of two to the 1024th power minus two to the 970th:
/// the smallest magnitude at which rounding a decimal numeral to the
/// nearest binary64 value, ties to even, yields infinity. Everything
/// strictly below it rounds to a finite number.
pub open spec fn spec_overflow_threshold() -> Seq<char> {
    "179769313486231580793728971405303415079934132710037826936173778980444968292764750946649017977587207096330286416692887910946555547851940402630657488671505820681908902000708383676273854845817711531764475730270069855571366959622842914819860834936475292719074168444365510704342711559699508093042880177904174497792"@
}

/// The overflow threshold, as text, together with its length.
pub fn overflow_threshold() -> (r: &'static str)
    ensures
        r@ == spec_overflow_threshold(),
        r@.len() == 309,
{
    let t =
        "179769313486231580793728971405303415079934132710037826936173778980444968292764750946649017977587207096330286416692887910946555547851940402630657488671505820681908902000708383676273854845817711531764475730270069855571366959622842914819860834936475292719074168444365510704342711559699508093042880177904174497792";
    proof {
        reveal_strlit(
            "179769313486231580793728971405303415079934132710037826936173778980444968292764750946649017977587207096330286416692887910946555547851940402630657488671505820681908902000708383676273854845817711531764475730270069855571366959622842914819860834936475292719074168444365510704342711559699508093042880177904174497792",
        );
    }
    t
}

/// The index of the first decimal point at or after `j`, or the length of
/// the text when there is none: the integer part of a numeral ends there.
pub open spec fn spec_int_len(t: Seq<char>, j: int) -> int
    decreases t.len() - j,
{
    if j < 0 || j >= t.len() {
        t.len() as int
    } else if t[j] == '.' {
        j
    } else {
        spec_int_len(t, j + 1)
    }
}

/// The first index in `[j, end)` holding a character other than zero, or
/// `end` when they are all zeros: leading zeros carry no magnitude.
pub open spec fn spec_skip_zeros(t: Seq<char>, j: int, end: int) -> int
    decreases end - j,
{
    if j < 0 || j >= end {
        end
    } else if t[j] == '0' {
        spec_skip_zeros(t, j + 1, end)
    } else {
        j
    }
}

/// Strict lexicographic order on two equally long digit strings, compared
/// from index `j` on. On digit strings of one length this is exactly the
/// order of the numbers they write.
pub open spec fn spec_lex_less(a: Seq<char>, b: Seq<char>, j: int) -> bool
    decreases a.len() - j,
{
    if j < 0 || j >= a.len() || j >= b.len() {
        false
    } else if a[j] != b[j] {
        a[j] < b[j]
    } else {
        spec_lex_less(a, b, j + 1)
    }
}

/// The numeral's value rounds to a finite binary64 number: its integer
/// part, leading zeros dropped, is shorter than the 309-digit overflow
/// threshold, or as long but lexicographically below it.
pub open spec fn spec_numeral_finite(t: Seq<char>) -> bool {
    let end = spec_int_len(t, 0);
    let z = spec_skip_zeros(t, 0, end);
    end - z < 309 || (end - z == 309 && spec_lex_less(t.subrange(z, end), spec_overflow_threshold(), 0))
}

/// A scanned numeral is accepted when it holds a digit and denotes a
/// finite value.
pub open spec fn spec_numeral_ok(t: Seq<char>) -> bool {
    spec_has_digit(t) && spec_numeral_finite(t)
}

/// What scanning one numeral at position `i` produces: the numeral text
/// and the position after it, or the error that abandons the whole
/// tokenization. A second decimal point reports the text up to and
/// including it; a numeral without digits or beyond the finite range
/// reports its full text.
pub open spec fn spec_lex_number(s: Seq<char>, i: int) -> Result<(Seq<char>, int), SpecTokenError> {
    match spec_scan_numeral(s, i, false) {
        SpecScan::SecondDot { at } => Err(SpecTokenError::InvalidNumber(s.subrange(i, at + 1))),
        SpecScan::Done { end } => {
            let text = s.subrange(i, end);
            if spec_numeral_ok(text) {
                Ok((text, end))
            } else {
                Err(SpecTokenError::InvalidNumber(text))
            }
        },
    }
}

/// The token sequence of the text from position `i` on, or the first
/// lexical error.
pub open spec fn spec_tokenize(s: Seq<char>, i: int) -> Result<Seq<SpecToken>, SpecTokenError>
    decreases s.len() - i,
        via spec_tokenize_decreases
{
    if i < 0 || i >= s.len() {
        Ok(Seq::empty())
    } else if spec_is_whitespace(s[i]) {
        spec_tokenize(s, i + 1)
    } else if spec_is_digit(s[i]) || s[i] == '.' {
        match spec_lex_number(s, i) {
            Err(e) => Err(e),
            Ok((text, end)) => match spec_tokenize(s, end) {
                Ok(rest) => Ok(seq![SpecToken::Number(text)] + rest),
                Err(e) => Err(e),
            },
        }
    } else {
        match Token::spec_from_char(s[i]) {
            Some(t) => match spec_tokenize(s, i + 1) {
                Ok(rest) => Ok(seq![t@] + rest),
                Err(e) => Err(e),
            },
            None => Err(SpecTokenError::InvalidOperator(s[i])),
        }
    }
}

#[via_fn]
proof fn spec_tokenize_decreases(s: Seq<char>, i: int) {
    if 0 <= i < s.len() && !spec_is_whitespace(s[i]) && (spec_is_digit(s[i]) || s[i] == '.') {
        // the scan takes the opening character first, so it ends past `i`
        if spec_is_digit(s[i]) {
            lemma_scan_numeral_bounds(s, i + 1, false);
        } else {
            lemma_scan_numeral_bounds(s, i + 1, true);
        }
    }
}

/// Prefixing an already produced run of tokens onto the outcome of the
/// remaining text.
pub open spec fn spec_prepend(ts: Seq<SpecToken>, r: Result<Seq<SpecToken>, SpecTokenError>) -> Result<
    Seq<SpecToken>,
    SpecTokenError,
> {
    match r {
        Ok(rest) => Ok(ts + rest),
        Err(e) => Err(e),
    }
}

/// Decides whether the text holds at least one digit.
#[verifier::loop_isolation(false)]
fn has_digit_str(t: &str) -> (r: bool)
    ensures
        r == spec_has_digit(t@),
{
    let n = t.unicode_len();
    let mut j: usize = 0;
    while j < n
        invariant
            n == t@.len(),
            0 <= j <= n,
            forall|k: int| 0 <= k < j ==> !spec_is_digit(t@[k]),
        decreases n - j,
    {
        if is_digit(t.get_char(j)) {
            return true;
        }
        j = j + 1;
    }
    false
}

/// The end of the integer part of the text: the position of its first
/// decimal point, or its length when there is none.
fn int_end_str(t: &str) -> (r: usize)
    ensures
        r as int == spec_int_len(t@, 0),
        r <= t@.len(),
{
    let n = t.unicode_len();
    let mut j: usize = 0;
    while j < n
        invariant
            n == t@.len(),
            0 <= j <= n,
            spec_int_len(t@, 0) == spec_int_len(t@, j as int),
        ensures
            n == t@.len(),
            0 <= j <= n,
            j < n ==> t@[j as int] == '.',
            spec_int_len(t@, 0) == spec_int_len(t@, j as int),
        decreases n - j,
    {
        if t.get_char(j) == '.' {
            break;
        }
        j = j + 1;
    }
    j
}

/// The first position in the integer part `[0, end)` of the text whose
/// character is not a zero, or `end` when they all are.
fn skip_zeros_str(t: &str, end: usize) -> (r: usize)
    requires
        end <= t@.len(),
    ensures
        r as int == spec_skip_zeros(t@, 0, end as int),
        r <= end,
{
    let mut z: usize = 0;
    while z < end
        invariant
            end <= t@.len(),
            0 <= z <= end,
            spec_skip_zeros(t@, 0, end as int) == spec_skip_zeros(t@, z as int, end as int),
        decreases end - z,
    {
        if t.get_char(z) != '0' {
            return z;
        }
        z = z + 1;
    }
    z
}

/// Decides whether the numeral text denotes a value that rounds to a
/// finite binary64 number.
#[verifier::loop_isolation(false)]
fn numeral_finite_str(t: &str) -> (r: bool)
    ensures
        r == spec_numeral_finite(t@),
{
    let n = t.unicode_len();
    // end of the integer part: the first decimal point, if any
    let end = int_end_str(t);
    // drop leading zeros
    let z = skip_zeros_str(t, end);
    let siglen = end - z;
    if siglen < 309 {
        true
    } else if siglen > 309 {
        false
    } else {
        let th = overflow_threshold();
        let ghost sig = t@.subrange(z as int, end as int);
        let mut k: usize = 0;
        while k < 309
            invariant
                n == t@.len(),
                end <= n,
                z + 309 == end,
                end as int == spec_int_len(t@, 0),
                z as int == spec_skip_zeros(t@, 0, end as int),
                sig == t@.subrange(z as int, end as int),
                0 <= k <= 309,
                th@ == spec_overflow_threshold(),
                th@.len() == 309,
                spec_lex_less(sig, th@, 0) == spec_lex_less(sig, th@, k as int),
            decreases 309 - k,
        {
            let a = t.get_char(z + k);
            let b = th.get_char(k);
            assert(a == sig[k as int]);
            if a != b {
                return a < b;
            }
            k = k + 1;
        }
        false
    }
}

/// How a numeral scan over borrowed text came to rest.
pub enum NumeralScan {
    Done(usize),
    SecondDot(usize),
}

/// Runs the numeral scan over the text, starting at `start`.
fn scan_numeral_str(t: &str, start: usize) -> (r: NumeralScan)
    requires
        start <= t@.len(),
    ensures
        match r {
            NumeralScan::Done(end) => start <= end <= t@.len() && spec_scan_numeral(
                t@,
                start as int,
                false,
            ) == (SpecScan::Done { end: end as int }),
            NumeralScan::SecondDot(at) => start <= at < t@.len() && spec_scan_numeral(
                t@,
                start as int,
                false,
            ) == (SpecScan::SecondDot { at: at as int }),
        },
{
    let n = t.unicode_len();
    let mut j: usize = start;
    let mut seen_dot = false;
    while j < n
        invariant
            n == t@.len(),
            start <= j <= n,
            spec_scan_numeral(t@, start as int, false) == spec_scan_numeral(
                t@,
                j as int,
                seen_dot,
            ),
        decreases n - j,
    {
        let c = t.get_char(j);
        if is_digit(c) {
            j = j + 1;
        } else if c == '.' {
            if seen_dot {
                return NumeralScan::SecondDot(j);
            }
            seen_dot = true;
            j = j + 1;
        } else {
            return NumeralScan::Done(j);
        }
    }
    NumeralScan::Done(j)
}

/// The lexer: the borrowed input text and a cursor that only moves
/// forward, counted in characters.
pub struct Tokenizer<'a> {
    pub input: &'a str,
    pub position: usize,
}

impl<'a> Tokenizer<'a> {
    /// A fresh lexer over `input`, its cursor at the start.
    pub fn new(input: &'a str) -> (r: Self)
        ensures
            r.input@ == input@,
            r.position == 0,
    {
        Tokenizer { input, position: 0 }
    }

    /// The character under the cursor.
    pub fn current_char(&self) -> (c: char)
        requires
            self.position < self.input@.len(),
        ensures
            c == self.input@[self.position as int],
    {
        self.input.get_char(self.position)
    }

    /// Moves the cursor one character forward.
    pub fn advance(&mut self)
        requires
            old(self).position < usize::MAX,
        ensures
            final(self).input == old(self).input,
            final(self).position == old(self).position + 1,
    {
        self.position = self.position + 1;
    }

    /// Scans one numeral starting at the cursor and returns its token, or
    /// the lexical error that rejects it. On success the cursor rests on
    /// the first character after the numeral; on an error it rests where
    /// the error was found.
    pub fn parse_number(&mut self) -> (r: Result<Token, TokenError>)
        requires
            old(self).position <= old(self).input@.len(),
        ensures
            final(self).input == old(self).input,
            old(self).position <= final(self).position <= final(self).input@.len(),
            match r {
                Ok(t) => match spec_lex_number(old(self).input@, old(self).position as int) {
                    Ok((text, end)) => t@ == SpecToken::Number(text) && final(self).position == end,
                    Err(_) => false,
                },
                Err(e) => match spec_lex_number(old(self).input@, old(self).position as int) {
                    Ok(_) => false,
                    Err(se) => e@ == se,
                },
            },
    {
        let start = self.position;
        let n = self.input.unicode_len();
        match scan_numeral_str(self.input, start) {
            NumeralScan::SecondDot(at) => {
                // a second decimal point inside one numeral
                self.position = at;
                let text = self.input.substring_char(start, at + 1);
                Err(TokenError::InvalidNumber(String::from_str(text)))
            },
            NumeralScan::Done(end) => {
                self.position = end;
                let text = self.input.substring_char(start, end);
                if !has_digit_str(text) {
                    return Err(TokenError::InvalidNumber(String::from_str(text)));
                }
                if !numeral_finite_str(text) {
                    return Err(TokenError::InvalidNumber(String::from_str(text)));
                }
                Ok(Token::Number(String::from_str(text)))
            },
        }
    }

    /// Turns the whole input, from the cursor on, into its token
    /// sequence, or reports the first lexical error.
    #[verifier::loop_isolation(false)]
    pub fn tokenize(&mut self) -> (r: Result<Vec<Token>, TokenError>)
        ensures
            final(self).input == old(self).input,
            match r {
                Ok(v) => spec_tokenize(old(self).input@, old(self).position as int) == Ok::<
                    Seq<SpecToken>,
                    SpecTokenError,
                >(v.deep_view()),
                Err(e) => spec_tokenize(old(self).input@, old(self).position as int) == Err::<
                    Seq<SpecToken>,
                    SpecTokenError,
                >(e@),
            },
    {
        let ghost inp = self.input;
        let ghost s = self.input@;
        let ghost p0 = self.position as int;
        let n = self.input.unicode_len();
        let mut tokens: Vec<Token> = Vec::new();
        if self.position >= n {
            proof {
                assert(tokens.deep_view() =~= Seq::<SpecToken>::empty());
            }
            return Ok(tokens);
        }
        while self.position < n
            invariant
                self.input == inp,
                self.input@ == s,
                n == s.len(),
                self.position <= n,
                p0 <= self.position,
                spec_tokenize(s, p0) == spec_prepend(
                    tokens.deep_view(),
                    spec_tokenize(s, self.position as int),
                ),
            decreases n - self.position,
        {
            let ghost pos = self.position as int;
            let ghost toks_before = tokens.deep_view();
            let c = self.current_char();
            if is_whitespace(c) {
                self.advance();
            } else if is_digit(c) || c == '.' {
                match self.parse_number() {
                    Ok(t) => {
                        proof {
                            lemma_scan_numeral_bounds(s, pos + 1, s[pos] == '.');
                        }
                        let ghost text = match spec_lex_number(s, pos) {
                            Ok((text, _)) => text,
                            Err(_) => Seq::empty(),
                        };
                        tokens.push(t);
                        proof {
                            assert(tokens.deep_view() =~= toks_before.push(
                                SpecToken::Number(text),
                            ));
                            match spec_tokenize(s, self.position as int) {
                                Ok(rest) => {
                                    assert(toks_before + (seq![SpecToken::Number(text)] + rest)
                                        =~= toks_before.push(SpecToken::Number(text)) + rest);
                                },
                                Err(_) => {},
                            }
                        }
                    },
                    Err(e) => {
                        return Err(e);
                    },
                }
            } else {
                match Token::from_char(c) {
                    Some(t) => {
                        let ghost tv = t@;
                        tokens.push(t);
                        self.advance();
                        proof {
                            assert(tokens.deep_view() =~= toks_before.push(tv));
                            match spec_tokenize(s, self.position as int) {
                                Ok(rest) => {
                                    assert(toks_before + (seq![tv] + rest) =~= toks_before.push(tv)
                                        + rest);
                                },
                                Err(_) => {},
                            }
                        }
                    },
                    None => {
                        return Err(TokenError::InvalidOperator(c));
                    },
                }
            }
        }
        proof {
            assert(tokens.deep_view() + Seq::<SpecToken>::empty() =~= tokens.deep_view());
        }
        Ok(tokens)
    }
}

} // verus!
