//! The expression grammar and its parser.
//!
//! ```text
//! expr    := term (("+" | "-") term)*
//! term    := factor (("*" | "/") factor)*
//! factor  := literal | axis_ref | "(" expr ")"
//! axis_ref:= device_name ":" axis_name
//! literal := "-"? digits
//! ```
//!
//! `*` and `/` bind tighter than `+` and `-`; all four operators are
//! left-associative; parentheses override precedence. Whitespace between
//! tokens is insignificant. A `device_name` is any run of characters
//! that holds no whitespace, operator, parenthesis or colon (device
//! names are opaque strings); an `axis_name` must exactly match one of
//! the eleven canonical axis names (case-sensitive), anything else is
//! an `UnknownAxisName` error at parse time.
//!
//! The grammar's meaning is pinned down by the spec-level functions
//! `spec_tokenize` and `parse_expr_s`; the executable parser is proved
//! to return exactly what they denote.

use vstd::prelude::*;

use crate::config::{spec_axis_from_name, Axis};
use crate::expr::{AxisExpression, ExprModel, Operator};

verus! {

/// Whitespace that may separate tokens.
pub open spec fn is_space_char(c: char) -> bool {
    c == ' ' || c == '\t' || c == '\n' || c == '\r'
}

/// An ASCII decimal digit.
pub open spec fn is_digit_char(c: char) -> bool {
    48 <= c as u32 <= 57
}

/// A character that may appear in a word (a device name, an axis name
/// or a number): anything but whitespace, the four operators, the
/// parentheses and the `:` separator.
pub open spec fn is_word_char(c: char) -> bool {
    !is_space_char(c) && c != '+' && c != '-' && c != '*' && c != '/' && c != '(' && c != ')'
        && c != ':'
}

/// Length of the longest whitespace prefix of `s`.
pub open spec fn space_len(s: Seq<char>) -> nat
    decreases s.len(),
{
    if s.len() > 0 && is_space_char(s[0]) {
        1 + space_len(s.skip(1))
    } else {
        0
    }
}

/// Length of the longest whitespace suffix of `s`.
pub open spec fn trailing_space_len(s: Seq<char>) -> nat
    decreases s.len(),
{
    if s.len() > 0 && is_space_char(s.last()) {
        1 + trailing_space_len(s.drop_last())
    } else {
        0
    }
}

/// `s` without its leading and trailing whitespace.
pub open spec fn spec_trim(s: Seq<char>) -> Seq<char> {
    let t = s.skip(clamp_high(space_len(s), s.len() as int));
    t.take(t.len() - clamp_high(trailing_space_len(t), t.len() as int))
}

/// The numeric value of a digit character.
pub open spec fn digit_of(c: char) -> int {
    c as u32 - 48
}

/// Length of the longest word-character prefix of `s`.
pub open spec fn word_len(s: Seq<char>) -> nat
    decreases s.len(),
{
    if s.len() > 0 && is_word_char(s[0]) {
        1 + word_len(s.skip(1))
    } else {
        0
    }
}

/// Whether every character of `s` is a digit.
pub open spec fn all_digits(s: Seq<char>) -> bool {
    forall|i: int| 0 <= i < s.len() ==> is_digit_char(#[trigger] s[i])
}

/// The value of a digit string, most significant digit first.
pub open spec fn digits_val(s: Seq<char>) -> int
    decreases s.len(),
{
    if s.len() == 0 {
        0
    } else {
        digits_val(s.drop_last()) * 10 + digit_of(s.last())
    }
}

/// One lexical token of the expression grammar.
#[derive(Debug, PartialEq, Eq)]
pub enum Token {
    Plus,
    Minus,
    Star,
    Slash,
    LParen,
    RParen,
    /// An unsigned number; the tokenizer admits values up to 2^31 so
    /// that the most negative literal can still be written.
    Number(u32),
    /// A reference `device:axis`.
    AxisRef(String, Axis),
}

/// Mathematical model of a `Token`.
pub enum TokenModel {
    Plus,
    Minus,
    Star,
    Slash,
    LParen,
    RParen,
    Number(int),
    AxisRef(Seq<char>, Axis),
}

impl View for Token {
    type V = TokenModel;

    open spec fn view(&self) -> TokenModel {
        match self {
            Token::Plus => TokenModel::Plus,
            Token::Minus => TokenModel::Minus,
            Token::Star => TokenModel::Star,
            Token::Slash => TokenModel::Slash,
            Token::LParen => TokenModel::LParen,
            Token::RParen => TokenModel::RParen,
            Token::Number(n) => TokenModel::Number(*n as int),
            Token::AxisRef(d, a) => TokenModel::AxisRef(d@, *a),
        }
    }
}

impl Clone for Token {
    fn clone(&self) -> (r: Self)
        ensures
            r@ == self@,
    {
        match self {
            Token::Plus => Token::Plus,
            Token::Minus => Token::Minus,
            Token::Star => Token::Star,
            Token::Slash => Token::Slash,
            Token::LParen => Token::LParen,
            Token::RParen => Token::RParen,
            Token::Number(n) => Token::Number(*n),
            Token::AxisRef(d, a) => Token::AxisRef(d.clone(), *a),
        }
    }
}

/// The models of a sequence of tokens.
pub open spec fn tokens_model(s: Seq<Token>) -> Seq<TokenModel> {
    s.map_values(|t: Token| t@)
}

/// A parse-time failure, carrying the offending fragment.
#[derive(Debug, PartialEq, Eq)]
pub enum ParseError {
    /// A character that cannot start any token.
    UnexpectedChar(char),
    /// A device name followed by `:` but no axis name.
    MissingAxisName(String),
    /// An axis name that is not one of the eleven canonical names.
    UnknownAxisName(String),
    /// A bare word that is neither a number nor an axis reference.
    InvalidToken(String),
    /// A digit string whose value exceeds 2^31.
    NumberTooLarge(String),
    /// A literal that does not fit in an `i32`.
    LiteralOutOfRange(u32),
    /// The input ended where a token was still required.
    UnexpectedEnd,
    /// A token that cannot appear at this point of the grammar.
    UnexpectedToken(Token),
    /// A complete expression followed by a leftover token.
    TrailingToken(Token),
}

/// Mathematical model of a `ParseError`.
pub enum ParseErrorModel {
    UnexpectedChar(char),
    MissingAxisName(Seq<char>),
    UnknownAxisName(Seq<char>),
    InvalidToken(Seq<char>),
    NumberTooLarge(Seq<char>),
    LiteralOutOfRange(int),
    UnexpectedEnd,
    UnexpectedToken(TokenModel),
    TrailingToken(TokenModel),
}

impl View for ParseError {
    type V = ParseErrorModel;

    open spec fn view(&self) -> ParseErrorModel {
        match self {
            ParseError::UnexpectedChar(c) => ParseErrorModel::UnexpectedChar(*c),
            ParseError::MissingAxisName(s) => ParseErrorModel::MissingAxisName(s@),
            ParseError::UnknownAxisName(s) => ParseErrorModel::UnknownAxisName(s@),
            ParseError::InvalidToken(s) => ParseErrorModel::InvalidToken(s@),
            ParseError::NumberTooLarge(s) => ParseErrorModel::NumberTooLarge(s@),
            ParseError::LiteralOutOfRange(n) => ParseErrorModel::LiteralOutOfRange(*n as int),
            ParseError::UnexpectedEnd => ParseErrorModel::UnexpectedEnd,
            ParseError::UnexpectedToken(t) => ParseErrorModel::UnexpectedToken(t@),
            ParseError::TrailingToken(t) => ParseErrorModel::TrailingToken(t@),
        }
    }
}

/// Prepends one token to a tokenization result.
pub open spec fn cons_token(
    t: TokenModel,
    r: Result<Seq<TokenModel>, ParseErrorModel>,
) -> Result<Seq<TokenModel>, ParseErrorModel> {
    match r {
        Ok(ts) => Ok(seq![t] + ts),
        Err(e) => Err(e),
    }
}

/// `n` clamped into `[1, len]`; equals `n` whenever `1 <= n <= len`,
/// which is the only way it is ever reached. Keeps the tokenizer's
/// recursion visibly terminating.
pub open spec fn clamp_low(n: nat, len: nat) -> int {
    if 1 <= n <= len {
        n as int
    } else {
        1
    }
}

/// `n` clamped to at most `m`; equals `n` whenever `n <= m`.
pub open spec fn clamp_high(n: nat, m: int) -> int {
    if n <= m {
        n as int
    } else {
        m
    }
}

/// The token sequence denoted by `s`, or the first lexical error,
/// scanning left to right.
pub open spec fn spec_tokenize(s: Seq<char>) -> Result<Seq<TokenModel>, ParseErrorModel>
    decreases s.len(),
{
    if s.len() == 0 {
        Ok(Seq::empty())
    } else {
        let c = s[0];
        if is_space_char(c) {
            spec_tokenize(s.skip(1))
        } else if c == '+' {
            cons_token(TokenModel::Plus, spec_tokenize(s.skip(1)))
        } else if c == '-' {
            cons_token(TokenModel::Minus, spec_tokenize(s.skip(1)))
        } else if c == '*' {
            cons_token(TokenModel::Star, spec_tokenize(s.skip(1)))
        } else if c == '/' {
            cons_token(TokenModel::Slash, spec_tokenize(s.skip(1)))
        } else if c == '(' {
            cons_token(TokenModel::LParen, spec_tokenize(s.skip(1)))
        } else if c == ')' {
            cons_token(TokenModel::RParen, spec_tokenize(s.skip(1)))
        } else if is_word_char(c) {
            let wl: int = clamp_low(word_len(s), s.len());
            let w = s.take(wl);
            let rest = s.skip(wl);
            if rest.len() > 0 && rest[0] == ':' {
                let al: int = clamp_high(word_len(rest.skip(1)), rest.len() - 1);
                if al == 0 {
                    Err(ParseErrorModel::MissingAxisName(w))
                } else {
                    let aw = rest.skip(1).take(al);
                    match spec_axis_from_name(aw) {
                        Some(ax) => cons_token(
                            TokenModel::AxisRef(w, ax),
                            spec_tokenize(rest.skip(1 + al)),
                        ),
                        None => Err(ParseErrorModel::UnknownAxisName(aw)),
                    }
                }
            } else if all_digits(w) {
                if digits_val(w) <= 0x8000_0000 {
                    cons_token(TokenModel::Number(digits_val(w)), spec_tokenize(rest))
                } else {
                    Err(ParseErrorModel::NumberTooLarge(w))
                }
            } else {
                Err(ParseErrorModel::InvalidToken(w))
            }
        } else {
            Err(ParseErrorModel::UnexpectedChar(c))
        }
    }
}

/// Prepending already-recognised tokens to the tokenization of the rest.
pub open spec fn prepend_tokens(
    ts: Seq<TokenModel>,
    r: Result<Seq<TokenModel>, ParseErrorModel>,
) -> Result<Seq<TokenModel>, ParseErrorModel> {
    match r {
        Ok(more) => Ok(ts + more),
        Err(e) => Err(e),
    }
}

proof fn lemma_prepend_token_step(
    ts: Seq<TokenModel>,
    t: TokenModel,
    r: Result<Seq<TokenModel>, ParseErrorModel>,
)
    ensures
        prepend_tokens(ts, cons_token(t, r)) == prepend_tokens(ts.push(t), r),
{
    match r {
        Ok(more) => {
            assert(ts + (seq![t] + more) =~= ts.push(t) + more);
        },
        Err(_) => {},
    }
}

/// A word-character scan pins down `word_len`.
proof fn lemma_word_len_from_chars(t: Seq<char>, k: int)
    requires
        0 <= k <= t.len(),
        forall|x: int| 0 <= x < k ==> is_word_char(#[trigger] t[x]),
        k < t.len() ==> !is_word_char(t[k]),
    ensures
        word_len(t) == k,
    decreases k,
{
    if k == 0 {
    } else {
        assert(is_word_char(t[0]));
        lemma_word_len_from_chars(t.skip(1), k - 1);
    }
}

/// A whitespace scan pins down `space_len`.
proof fn lemma_space_len_from_chars(t: Seq<char>, k: int)
    requires
        0 <= k <= t.len(),
        forall|x: int| 0 <= x < k ==> is_space_char(#[trigger] t[x]),
        k < t.len() ==> !is_space_char(t[k]),
    ensures
        space_len(t) == k,
    decreases k,
{
    if k == 0 {
    } else {
        assert(is_space_char(t[0]));
        lemma_space_len_from_chars(t.skip(1), k - 1);
    }
}

/// A backward whitespace scan pins down `trailing_space_len`.
proof fn lemma_trailing_space_len_from_chars(t: Seq<char>, k: int)
    requires
        0 <= k <= t.len(),
        forall|x: int| t.len() - k <= x < t.len() ==> is_space_char(#[trigger] t[x]),
        k < t.len() ==> !is_space_char(t[t.len() - 1 - k]),
    ensures
        trailing_space_len(t) == k,
    decreases k,
{
    if k == 0 {
    } else {
        assert(is_space_char(t.last()));
        let d = t.drop_last();
        assert forall|x: int| d.len() - (k - 1) <= x < d.len() implies is_space_char(
            #[trigger] d[x],
        ) by {
            assert(d[x] == t[x]);
        }
        lemma_trailing_space_len_from_chars(d, k - 1);
    }
}

/// Digit strings denote non-negative values.
proof fn lemma_digits_val_nonneg(s: Seq<char>)
    requires
        all_digits(s),
    ensures
        digits_val(s) >= 0,
    decreases s.len(),
{
    if s.len() > 0 {
        assert(all_digits(s.drop_last()));
        lemma_digits_val_nonneg(s.drop_last());
    }
}

/// A digit string's value is at least the value of any of its prefixes.
proof fn lemma_digits_val_monotone(s: Seq<char>, m: int)
    requires
        all_digits(s),
        0 <= m <= s.len(),
    ensures
        0 <= digits_val(s.take(m)) <= digits_val(s),
    decreases s.len(),
{
    if m == s.len() {
        assert(s.take(m) =~= s);
        lemma_digits_val_nonneg(s);
    } else {
        let t = s.drop_last();
        assert(all_digits(t));
        assert(s.take(m) =~= t.take(m));
        lemma_digits_val_monotone(t, m);
        lemma_digits_val_nonneg(t);
    }
}

/// Whether `c` is a word character.
fn word_char(c: char) -> (r: bool)
    ensures
        r == is_word_char(c),
{
    !space_char(c) && c != '+' && c != '-' && c != '*' && c != '/' && c != '(' && c != ')'
        && c != ':'
}

/// Whether `c` is a digit.
fn digit_char(c: char) -> (r: bool)
    ensures
        r == is_digit_char(c),
{
    let u = c as u32;
    48 <= u && u <= 57
}

/// Whether `c` is insignificant whitespace.
fn space_char(c: char) -> (r: bool)
    ensures
        r == is_space_char(c),
{
    c == ' ' || c == '\t' || c == '\n' || c == '\r'
}

/// Index of the first non-word character at or after `start`.
fn scan_word_end(input: &str, start: usize, n: usize) -> (j: usize)
    requires
        n == input@.len(),
        start <= n,
    ensures
        start <= j <= n,
        forall|x: int| start <= x < j ==> is_word_char(#[trigger] input@[x]),
        j < n ==> !is_word_char(input@[j as int]),
{
    let mut j: usize = start;
    loop
        invariant
            start <= j <= n,
            n == input@.len(),
            forall|x: int| start <= x < j ==> is_word_char(#[trigger] input@[x]),
        decreases n - j,
    {
        if j == n {
            return j;
        }
        if !word_char(input.get_char(j)) {
            return j;
        }
        j = j + 1;
    }
}

/// Index of the first non-whitespace character at or after `start`.
fn scan_space_end(input: &str, start: usize, n: usize) -> (j: usize)
    requires
        n == input@.len(),
        start <= n,
    ensures
        start <= j <= n,
        forall|x: int| start <= x < j ==> is_space_char(#[trigger] input@[x]),
        j < n ==> !is_space_char(input@[j as int]),
{
    let mut j: usize = start;
    loop
        invariant
            start <= j <= n,
            n == input@.len(),
            forall|x: int| start <= x < j ==> is_space_char(#[trigger] input@[x]),
        decreases n - j,
    {
        if j == n {
            return j;
        }
        if !space_char(input.get_char(j)) {
            return j;
        }
        j = j + 1;
    }
}

/// Start of the whitespace run that ends the input, scanning backward
/// but not past `start`.
fn scan_space_rbegin(input: &str, start: usize, n: usize) -> (j: usize)
    requires
        n == input@.len(),
        start <= n,
    ensures
        start <= j <= n,
        forall|x: int| j <= x < n ==> is_space_char(#[trigger] input@[x]),
        j > start ==> !is_space_char(input@[j - 1]),
{
    let mut j: usize = n;
    loop
        invariant
            start <= j <= n,
            n == input@.len(),
            forall|x: int| j <= x < n ==> is_space_char(#[trigger] input@[x]),
        decreases j,
    {
        if j == start {
            return j;
        }
        if !space_char(input.get_char(j - 1)) {
            return j;
        }
        j = j - 1;
    }
}

/// `input` without its leading and trailing whitespace.
pub fn trim_spaces(input: &str) -> (r: &str)
    ensures
        r@ == spec_trim(input@),
{
    let n = input.unicode_len();
    let i = scan_space_end(input, 0, n);
    let j = scan_space_rbegin(input, i, n);
    let r = input.substring_char(i, j);
    proof {
        lemma_space_len_from_chars(input@, i as int);
        let t = input@.skip(i as int);
        assert forall|x: int| t.len() - (n - j) <= x < t.len() implies is_space_char(
            #[trigger] t[x],
        ) by {
            assert(t[x] == input@[x + i]);
        }
        if n - j < t.len() {
            assert(t[t.len() - 1 - (n - j)] == input@[j - 1]);
        }
        lemma_trailing_space_len_from_chars(t, n - j);
        assert(r@ =~= t.take(t.len() - (n - j)));
    }
    r
}

/// Reads a bare word as a number: every character must be a digit and
/// the value must not exceed 2^31.
fn lex_number(w: &str) -> (r: Result<u32, ParseError>)
    ensures
        match r {
            Ok(v) => all_digits(w@) && v as int == digits_val(w@) && v <= 0x8000_0000,
            Err(e) => e@ == (if !all_digits(w@) {
                ParseErrorModel::InvalidToken(w@)
            } else {
                ParseErrorModel::NumberTooLarge(w@)
            }) && (all_digits(w@) ==> digits_val(w@) > 0x8000_0000),
        },
{
    let m = w.unicode_len();
    let mut k: usize = 0;
    while k < m
        invariant
            k <= m,
            m == w@.len(),
            forall|x: int| 0 <= x < k ==> is_digit_char(#[trigger] w@[x]),
        decreases m - k,
    {
        if !digit_char(w.get_char(k)) {
            return Err(ParseError::InvalidToken(w.to_owned()));
        }
        k = k + 1;
    }
    let mut acc: u64 = 0;
    let mut k2: usize = 0;
    proof {
        assert(w@.take(0) =~= Seq::<char>::empty());
    }
    while k2 < m
        invariant
            k2 <= m,
            m == w@.len(),
            all_digits(w@),
            acc == digits_val(w@.take(k2 as int)),
            acc <= 0x8000_0000,
        decreases m - k2,
    {
        let c2 = w.get_char(k2);
        let d = (c2 as u32) - 48;
        acc = acc * 10 + (d as u64);
        proof {
            assert(w@.take(k2 + 1).drop_last() =~= w@.take(k2 as int));
            assert(w@.take(k2 + 1).last() == w@[k2 as int]);
        }
        k2 = k2 + 1;
        if acc > 0x8000_0000 {
            proof {
                lemma_digits_val_monotone(w@, k2 as int);
            }
            return Err(ParseError::NumberTooLarge(w.to_owned()));
        }
    }
    proof {
        assert(w@.take(m as int) =~= w@);
    }
    Ok(acc as u32)
}

/// Splits `input` into tokens, or reports the first lexical error.
#[verifier::rlimit(60)]
pub fn tokenize(input: &str) -> (r: Result<Vec<Token>, ParseError>)
    ensures
        match r {
            Ok(v) => spec_tokenize(input@) == Ok::<_, ParseErrorModel>(tokens_model(v@)),
            Err(e) => spec_tokenize(input@) == Err::<Seq<TokenModel>, _>(e@),
        },
{
    let n = input.unicode_len();
    let mut tokens: Vec<Token> = Vec::new();
    let mut i: usize = 0;
    proof {
        assert(input@.skip(0) =~= input@);
        assert(tokens_model(tokens@) =~= Seq::<TokenModel>::empty());
        if spec_tokenize(input@) is Ok {
            assert(tokens_model(tokens@) + spec_tokenize(input@)->Ok_0 =~= spec_tokenize(
                input@,
            )->Ok_0);
        }
    }
    while i < n
        invariant
            i <= n,
            n == input@.len(),
            spec_tokenize(input@) == prepend_tokens(
                tokens_model(tokens@),
                spec_tokenize(input@.skip(i as int)),
            ),
        decreases n - i,
    {
        let ghost t = input@.skip(i as int);
        let c = input.get_char(i);
        proof {
            assert(t[0] == c);
        }
        if space_char(c) {
            proof {
                assert(t.skip(1) =~= input@.skip(i + 1));
            }
            i = i + 1;
        } else if c == '+' || c == '-' || c == '*' || c == '/' || c == '(' || c == ')' {
            let tok = if c == '+' {
                Token::Plus
            } else if c == '-' {
                Token::Minus
            } else if c == '*' {
                Token::Star
            } else if c == '/' {
                Token::Slash
            } else if c == '(' {
                Token::LParen
            } else {
                Token::RParen
            };
            let ghost before = tokens@;
            proof {
                assert(t.skip(1) =~= input@.skip(i + 1));
                assert(spec_tokenize(t) == cons_token(tok@, spec_tokenize(input@.skip(i + 1))));
                lemma_prepend_token_step(
                    tokens_model(before),
                    tok@,
                    spec_tokenize(input@.skip(i + 1)),
                );
            }
            tokens.push(tok);
            proof {
                assert(tokens_model(tokens@) =~= tokens_model(before).push(tokens@.last()@));
            }
            i = i + 1;
        } else if word_char(c) {
            let j = scan_word_end(input, i, n);
            proof {
                assert forall|x: int| 0 <= x < j - i implies is_word_char(#[trigger] t[x]) by {
                    assert(t[x] == input@[i + x]);
                }
                if j - i < t.len() {
                    assert(t[j - i] == input@[j as int]);
                }
                lemma_word_len_from_chars(t, j - i);
                assert(clamp_low(word_len(t), t.len()) == j - i);
            }
            let w = input.substring_char(i, j);
            let ghost rest = t.skip(j - i);
            proof {
                assert(w@ =~= t.take(j - i));
                assert(rest =~= input@.skip(j as int));
            }
            if j < n && input.get_char(j) == ':' {
                proof {
                    assert(rest[0] == input@[j as int]);
                }
                let j2 = scan_word_end(input, j + 1, n);
                let ghost t2 = rest.skip(1);
                proof {
                    assert(t2 =~= input@.skip(j + 1));
                    assert forall|x: int| 0 <= x < j2 - (j + 1) implies is_word_char(
                        #[trigger] t2[x],
                    ) by {
                        assert(t2[x] == input@[j + 1 + x]);
                    }
                    if j2 - (j + 1) < t2.len() {
                        assert(t2[j2 - (j + 1)] == input@[j2 as int]);
                    }
                    lemma_word_len_from_chars(t2, j2 - (j + 1));
                    assert(clamp_high(word_len(t2), rest.len() - 1) == j2 - (j + 1));
                }
                if j2 == j + 1 {
                    return Err(ParseError::MissingAxisName(w.to_owned()));
                }
                let aw = input.substring_char(j + 1, j2);
                proof {
                    assert(aw@ =~= t2.take(j2 - (j + 1)));
                }
                match Axis::from_str(aw) {
                    Some(ax) => {
                        let tok = Token::AxisRef(w.to_owned(), ax);
                        let ghost before = tokens@;
                        proof {
                            assert(rest.skip(1 + (j2 - (j + 1))) =~= input@.skip(j2 as int));
                            assert(spec_tokenize(t) == cons_token(
                                TokenModel::AxisRef(w@, ax),
                                spec_tokenize(input@.skip(j2 as int)),
                            ));
                            lemma_prepend_token_step(
                                tokens_model(before),
                                TokenModel::AxisRef(w@, ax),
                                spec_tokenize(input@.skip(j2 as int)),
                            );
                        }
                        tokens.push(tok);
                        proof {
                            assert(tokens_model(tokens@) =~= tokens_model(before).push(
                                TokenModel::AxisRef(w@, ax),
                            ));
                        }
                        i = j2;
                    },
                    None => {
                        return Err(ParseError::UnknownAxisName(aw.to_owned()));
                    },
                }
            } else {
                match lex_number(w) {
                    Ok(v) => {
                        let tok = Token::Number(v);
                        let ghost before = tokens@;
                        proof {
                            assert(spec_tokenize(t) == cons_token(
                                TokenModel::Number(digits_val(w@)),
                                spec_tokenize(input@.skip(j as int)),
                            ));
                            lemma_prepend_token_step(
                                tokens_model(before),
                                TokenModel::Number(digits_val(w@)),
                                spec_tokenize(input@.skip(j as int)),
                            );
                        }
                        tokens.push(tok);
                        proof {
                            assert(tokens_model(tokens@) =~= tokens_model(before).push(
                                TokenModel::Number(digits_val(w@)),
                            ));
                        }
                        i = j;
                    },
                    Err(e) => {
                        return Err(e);
                    },
                }
            }
        } else {
            return Err(ParseError::UnexpectedChar(c));
        }
    }
    proof {
        assert(input@.skip(n as int) =~= Seq::<char>::empty());
        if spec_tokenize(input@) is Ok {
            assert(tokens_model(tokens@) + Seq::<TokenModel>::empty() =~= tokens_model(tokens@));
        }
    }
    Ok(tokens)
}

/// Tokens not yet consumed; the measure of the parser's recursion.
pub open spec fn toks_left(ts: Seq<TokenModel>, pos: int) -> int {
    if pos <= ts.len() {
        ts.len() - pos
    } else {
        0
    }
}

/// The position after a sub-parse, clamped into `(lo, len]`; equals `p`
/// whenever `lo < p <= len`, which every sub-parse guarantees. Keeps the
/// grammar's recursion visibly terminating.
pub open spec fn bounded_next(lo: int, p: int, len: int) -> int {
    if lo < p && p <= len {
        p
    } else if lo + 1 <= len {
        lo + 1
    } else {
        len
    }
}

/// `factor := literal | axis_ref | "(" expr ")"`, with `literal`
/// optionally preceded by `-`.
pub open spec fn parse_factor_s(ts: Seq<TokenModel>, pos: int) -> Result<
    (ExprModel, int),
    ParseErrorModel,
>
    decreases toks_left(ts, pos), 0int,
{
    if pos < 0 || pos >= ts.len() {
        Err(ParseErrorModel::UnexpectedEnd)
    } else {
        match ts[pos] {
            TokenModel::Number(n) => if n <= 0x7fff_ffff {
                Ok((ExprModel::Literal(n), pos + 1))
            } else {
                Err(ParseErrorModel::LiteralOutOfRange(n))
            },
            TokenModel::Minus => if pos + 1 < ts.len() {
                match ts[pos + 1] {
                    TokenModel::Number(n) => if n <= 0x8000_0000 {
                        Ok((ExprModel::Literal(-n), pos + 2))
                    } else {
                        Err(ParseErrorModel::LiteralOutOfRange(n))
                    },
                    t => Err(ParseErrorModel::UnexpectedToken(t)),
                }
            } else {
                Err(ParseErrorModel::UnexpectedEnd)
            },
            TokenModel::AxisRef(d, a) => Ok((ExprModel::AxisReference(d, a), pos + 1)),
            TokenModel::LParen => match parse_expr_s(ts, pos + 1) {
                Err(e) => Err(e),
                Ok((e0, p)) => if 0 <= p < ts.len() && ts[p] is RParen {
                    Ok((e0, p + 1))
                } else if p >= ts.len() {
                    Err(ParseErrorModel::UnexpectedEnd)
                } else {
                    Err(ParseErrorModel::UnexpectedToken(ts[p]))
                },
            },
            t => Err(ParseErrorModel::UnexpectedToken(t)),
        }
    }
}

/// The `(("*" | "/") factor)*` tail of a term, folded left-associatively
/// onto `acc`.
pub open spec fn parse_term_rest_s(ts: Seq<TokenModel>, pos: int, acc: ExprModel) -> Result<
    (ExprModel, int),
    ParseErrorModel,
>
    decreases toks_left(ts, pos), 1int,
{
    if 0 <= pos < ts.len() && (ts[pos] is Star || ts[pos] is Slash) {
        let op = if ts[pos] is Star {
            Operator::Mul
        } else {
            Operator::Div
        };
        match parse_factor_s(ts, pos + 1) {
            Err(e) => Err(e),
            Ok((rhs, p)) => parse_term_rest_s(
                ts,
                bounded_next(pos + 1, p, ts.len() as int),
                ExprModel::BiOp(op, Box::new(acc), Box::new(rhs)),
            ),
        }
    } else {
        Ok((acc, pos))
    }
}

/// `term := factor (("*" | "/") factor)*`.
pub open spec fn parse_term_s(ts: Seq<TokenModel>, pos: int) -> Result<
    (ExprModel, int),
    ParseErrorModel,
>
    decreases toks_left(ts, pos), 2int,
{
    match parse_factor_s(ts, pos) {
        Err(e) => Err(e),
        Ok((e0, p)) => if pos < ts.len() {
            parse_term_rest_s(ts, bounded_next(pos, p, ts.len() as int), e0)
        } else {
            Err(ParseErrorModel::UnexpectedEnd)
        },
    }
}

/// The `(("+" | "-") term)*` tail of an expression, folded
/// left-associatively onto `acc`.
pub open spec fn parse_expr_rest_s(ts: Seq<TokenModel>, pos: int, acc: ExprModel) -> Result<
    (ExprModel, int),
    ParseErrorModel,
>
    decreases toks_left(ts, pos), 3int,
{
    if 0 <= pos < ts.len() && (ts[pos] is Plus || ts[pos] is Minus) {
        let op = if ts[pos] is Plus {
            Operator::Add
        } else {
            Operator::Sub
        };
        match parse_term_s(ts, pos + 1) {
            Err(e) => Err(e),
            Ok((rhs, p)) => parse_expr_rest_s(
                ts,
                bounded_next(pos + 1, p, ts.len() as int),
                ExprModel::BiOp(op, Box::new(acc), Box::new(rhs)),
            ),
        }
    } else {
        Ok((acc, pos))
    }
}

/// `expr := term (("+" | "-") term)*`.
pub open spec fn parse_expr_s(ts: Seq<TokenModel>, pos: int) -> Result<
    (ExprModel, int),
    ParseErrorModel,
>
    decreases toks_left(ts, pos), 4int,
{
    match parse_term_s(ts, pos) {
        Err(e) => Err(e),
        Ok((e0, p)) => if pos < ts.len() {
            parse_expr_rest_s(ts, bounded_next(pos, p, ts.len() as int), e0)
        } else {
            Err(ParseErrorModel::UnexpectedEnd)
        },
    }
}

/// The expression denoted by `s`: tokenize, parse one `expr`, and demand
/// that it consumes the whole input.
pub open spec fn spec_parse(s: Seq<char>) -> Result<ExprModel, ParseErrorModel> {
    match spec_tokenize(s) {
        Err(e) => Err(e),
        Ok(ts) => match parse_expr_s(ts, 0) {
            Err(e) => Err(e),
            Ok((e0, p)) => if 0 <= p < ts.len() {
                Err(ParseErrorModel::TrailingToken(ts[p]))
            } else {
                Ok(e0)
            },
        },
    }
}

fn parse_factor_toks(ts: &Vec<Token>, pos: usize) -> (r: Result<
    (AxisExpression, usize),
    ParseError,
>)
    requires
        pos <= ts@.len(),
    ensures
        match r {
            Ok(ep) => parse_factor_s(tokens_model(ts@), pos as int) == Ok::<
                (ExprModel, int),
                ParseErrorModel,
            >((ep.0@, ep.1 as int)) && pos < ep.1 <= ts@.len(),
            Err(pe) => parse_factor_s(tokens_model(ts@), pos as int) == Err::<
                (ExprModel, int),
                ParseErrorModel,
            >(pe@),
        },
    decreases toks_left(tokens_model(ts@), pos as int), 0int,
{
    if pos >= ts.len() {
        return Err(ParseError::UnexpectedEnd);
    }
    match &ts[pos] {
        Token::Number(n) => {
            if *n <= 0x7fff_ffff {
                Ok((AxisExpression::Literal(*n as i32), pos + 1))
            } else {
                Err(ParseError::LiteralOutOfRange(*n))
            }
        },
        Token::Minus => {
            if pos + 1 < ts.len() {
                match &ts[pos + 1] {
                    Token::Number(n) => {
                        if *n <= 0x8000_0000 {
                            let v: i32 = if *n == 0x8000_0000 {
                                i32::MIN
                            } else {
                                -(*n as i32)
                            };
                            Ok((AxisExpression::Literal(v), pos + 2))
                        } else {
                            Err(ParseError::LiteralOutOfRange(*n))
                        }
                    },
                    t => Err(ParseError::UnexpectedToken(t.clone())),
                }
            } else {
                Err(ParseError::UnexpectedEnd)
            }
        },
        Token::AxisRef(d, a) => Ok((AxisExpression::AxisReference(d.clone(), *a), pos + 1)),
        Token::LParen => {
            match parse_expr_toks(ts, pos + 1) {
                Err(e) => Err(e),
                Ok((e0, p)) => {
                    if p < ts.len() {
                        match &ts[p] {
                            Token::RParen => Ok((e0, p + 1)),
                            t => Err(ParseError::UnexpectedToken(t.clone())),
                        }
                    } else {
                        Err(ParseError::UnexpectedEnd)
                    }
                },
            }
        },
        t => Err(ParseError::UnexpectedToken(t.clone())),
    }
}

fn parse_term_rest_toks(ts: &Vec<Token>, pos: usize, acc: AxisExpression) -> (r: Result<
    (AxisExpression, usize),
    ParseError,
>)
    requires
        pos <= ts@.len(),
    ensures
        match r {
            Ok(ep) => parse_term_rest_s(tokens_model(ts@), pos as int, acc@) == Ok::<
                (ExprModel, int),
                ParseErrorModel,
            >((ep.0@, ep.1 as int)) && pos <= ep.1 <= ts@.len(),
            Err(pe) => parse_term_rest_s(tokens_model(ts@), pos as int, acc@) == Err::<
                (ExprModel, int),
                ParseErrorModel,
            >(pe@),
        },
    decreases toks_left(tokens_model(ts@), pos as int), 1int,
{
    if pos < ts.len() {
        let op_opt: Option<Operator> = match &ts[pos] {
            Token::Star => Some(Operator::Mul),
            Token::Slash => Some(Operator::Div),
            _ => None,
        };
        match op_opt {
            Some(op) => {
                match parse_factor_toks(ts, pos + 1) {
                    Err(e) => Err(e),
                    Ok((rhs, p)) => {
                        proof {
                            assert(bounded_next(pos + 1, p as int, ts@.len() as int) == p as int);
                        }
                        parse_term_rest_toks(
                            ts,
                            p,
                            AxisExpression::BiOp(op, Box::new(acc), Box::new(rhs)),
                        )
                    },
                }
            },
            None => Ok((acc, pos)),
        }
    } else {
        Ok((acc, pos))
    }
}

fn parse_term_toks(ts: &Vec<Token>, pos: usize) -> (r: Result<(AxisExpression, usize), ParseError>)
    requires
        pos <= ts@.len(),
    ensures
        match r {
            Ok(ep) => parse_term_s(tokens_model(ts@), pos as int) == Ok::<
                (ExprModel, int),
                ParseErrorModel,
            >((ep.0@, ep.1 as int)) && pos < ep.1 <= ts@.len(),
            Err(pe) => parse_term_s(tokens_model(ts@), pos as int) == Err::<
                (ExprModel, int),
                ParseErrorModel,
            >(pe@),
        },
    decreases toks_left(tokens_model(ts@), pos as int), 2int,
{
    match parse_factor_toks(ts, pos) {
        Err(e) => Err(e),
        Ok((e0, p)) => {
            proof {
                assert(bounded_next(pos as int, p as int, ts@.len() as int) == p as int);
            }
            parse_term_rest_toks(ts, p, e0)
        },
    }
}

fn parse_expr_rest_toks(ts: &Vec<Token>, pos: usize, acc: AxisExpression) -> (r: Result<
    (AxisExpression, usize),
    ParseError,
>)
    requires
        pos <= ts@.len(),
    ensures
        match r {
            Ok(ep) => parse_expr_rest_s(tokens_model(ts@), pos as int, acc@) == Ok::<
                (ExprModel, int),
                ParseErrorModel,
            >((ep.0@, ep.1 as int)) && pos <= ep.1 <= ts@.len(),
            Err(pe) => parse_expr_rest_s(tokens_model(ts@), pos as int, acc@) == Err::<
                (ExprModel, int),
                ParseErrorModel,
            >(pe@),
        },
    decreases toks_left(tokens_model(ts@), pos as int), 3int,
{
    if pos < ts.len() {
        let op_opt: Option<Operator> = match &ts[pos] {
            Token::Plus => Some(Operator::Add),
            Token::Minus => Some(Operator::Sub),
            _ => None,
        };
        match op_opt {
            Some(op) => {
                match parse_term_toks(ts, pos + 1) {
                    Err(e) => Err(e),
                    Ok((rhs, p)) => {
                        proof {
                            assert(bounded_next(pos + 1, p as int, ts@.len() as int) == p as int);
                        }
                        parse_expr_rest_toks(
                            ts,
                            p,
                            AxisExpression::BiOp(op, Box::new(acc), Box::new(rhs)),
                        )
                    },
                }
            },
            None => Ok((acc, pos)),
        }
    } else {
        Ok((acc, pos))
    }
}

fn parse_expr_toks(ts: &Vec<Token>, pos: usize) -> (r: Result<(AxisExpression, usize), ParseError>)
    requires
        pos <= ts@.len(),
    ensures
        match r {
            Ok(ep) => parse_expr_s(tokens_model(ts@), pos as int) == Ok::<
                (ExprModel, int),
                ParseErrorModel,
            >((ep.0@, ep.1 as int)) && pos < ep.1 <= ts@.len(),
            Err(pe) => parse_expr_s(tokens_model(ts@), pos as int) == Err::<
                (ExprModel, int),
                ParseErrorModel,
            >(pe@),
        },
    decreases toks_left(tokens_model(ts@), pos as int), 4int,
{
    match parse_term_toks(ts, pos) {
        Err(e) => Err(e),
        Ok((e0, p)) => {
            proof {
                assert(bounded_next(pos as int, p as int, ts@.len() as int) == p as int);
            }
            parse_expr_rest_toks(ts, p, e0)
        },
    }
}

/// Parses an expression string into its abstract syntax tree. The result
/// is exactly what `spec_parse` denotes: the grammar at the top of this
/// module, with `*`/`/` binding tighter than `+`/`-` and all four
/// operators left-associative.
pub fn parse_expr(input: &str) -> (r: Result<AxisExpression, ParseError>)
    ensures
        match r {
            Ok(e) => spec_parse(input@) == Ok::<ExprModel, ParseErrorModel>(e@),
            Err(pe) => spec_parse(input@) == Err::<ExprModel, ParseErrorModel>(pe@),
        },
{
    let tokens = match tokenize(input) {
        Ok(v) => v,
        Err(e) => {
            return Err(e);
        },
    };
    match parse_expr_toks(&tokens, 0) {
        Err(e) => Err(e),
        Ok((e0, p)) => {
            if p < tokens.len() {
                Err(ParseError::TrailingToken(tokens[p].clone()))
            } else {
                Ok(e0)
            }
        },
    }
}

} // verus!
