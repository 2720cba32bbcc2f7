//! The `rgb()` / `rgba()` functional notation: a tokenizer, the legacy and
//! the modern grammar, and the ranges of the components.
//!
//! A number is read as a decimal. Its magnitude is kept in millionths: of
//! the digits after the sixth fractional one a number keeps only whether
//! one of them is not zero. So the ranges are judged exactly, and a level
//! is rounded from the first six fractional digits.

use crate::arith::half_up;
use crate::color::model::Color;
use crate::color::parse::ColorParseError;
use vstd::prelude::*;

verus! {

/// One million: the number of millionths in one.
pub const MICRO: u64 = 1_000_000;

/// The largest whole part that is told apart; larger ones count as this one.
/// It is far above every range that a component may lie in.
pub const WHOLE_CAP: u64 = 1_000_000;

/// A number token.
#[derive(Clone, Copy, Debug, PartialEq, Eq, Hash)]
pub struct Number {
    /// Whether the text starts with `-`.
    pub negative: bool,
    /// The magnitude in millionths, the whole part capped at `WHOLE_CAP`.
    pub micros: u64,
    /// Whether a digit after the sixth fractional digit is not zero: the
    /// magnitude is then a little above `micros`.
    pub residue: bool,
    /// Whether the text has no decimal point.
    pub integral: bool,
    /// Whether the text ends in `%`.
    pub percent: bool,
}

/// A token between the parentheses.
#[derive(Clone, Copy, Debug, PartialEq, Eq, Hash)]
pub enum Token {
    Number(Number),
    Slash,
    Comma,
}

// ---------------------------------------------------------------------------
// Tokens
// ---------------------------------------------------------------------------

/// Whether a byte is an ASCII digit.
pub open spec fn is_digit(b: u8) -> bool {
    48 <= b <= 57
}

/// Whether a byte is ASCII white space: space, tab, line feed, form feed or
/// carriage return.
pub open spec fn is_ascii_space(b: u8) -> bool {
    b == 32 || b == 9 || b == 10 || b == 12 || b == 13
}

/// Whether a byte may start a number: a digit, a sign or a decimal point.
pub open spec fn starts_number(b: u8) -> bool {
    is_digit(b) || b == 43 || b == 45 || b == 46
}

/// The first position from `i` on that holds no digit.
pub open spec fn digits_end(s: Seq<u8>, i: int) -> int
    decreases s.len() - i,
{
    if 0 <= i < s.len() && is_digit(s[i]) {
        digits_end(s, i + 1)
    } else {
        i
    }
}

/// The value of the digits from `i` up to `e`, capped at `WHOLE_CAP`.
pub open spec fn whole_value(s: Seq<u8>, i: int, e: int) -> int
    decreases e - i,
{
    if e <= i {
        0
    } else {
        let v = whole_value(s, i, e - 1) * 10 + (s[e - 1] - 48);
        if v > WHOLE_CAP {
            WHOLE_CAP as int
        } else {
            v
        }
    }
}

/// The digit at `i + k` if that is before `e`, else 0.
pub open spec fn digit_at(s: Seq<u8>, i: int, e: int, k: int) -> int {
    if i + k < e {
        s[i + k] - 48
    } else {
        0
    }
}

/// The first six digits from `i` up to `e`, read as millionths.
pub open spec fn fraction_micros(s: Seq<u8>, i: int, e: int) -> int {
    digit_at(s, i, e, 0) * 100000 + digit_at(s, i, e, 1) * 10000 + digit_at(s, i, e, 2) * 1000
        + digit_at(s, i, e, 3) * 100 + digit_at(s, i, e, 4) * 10 + digit_at(s, i, e, 5)
}

/// Whether a digit from `i` up to `e`, after the first six, is not zero.
pub open spec fn has_residue(s: Seq<u8>, i: int, e: int) -> bool {
    exists|k: int| i + 6 <= k < e && #[trigger] s[k] != 48
}

/// Where the digits of the whole part start: behind the sign, if there is one.
pub open spec fn whole_start(s: Seq<u8>, i: int) -> int {
    if 0 <= i < s.len() && (s[i] == 43 || s[i] == 45) {
        i + 1
    } else {
        i
    }
}

/// Where the digits of the whole part end.
pub open spec fn whole_end(s: Seq<u8>, i: int) -> int {
    digits_end(s, whole_start(s, i))
}

/// Whether a decimal point follows the whole part.
pub open spec fn has_point(s: Seq<u8>, i: int) -> bool {
    0 <= whole_end(s, i) < s.len() && s[whole_end(s, i)] == 46
}

/// Where the digits of the fraction start.
pub open spec fn fraction_start(s: Seq<u8>, i: int) -> int {
    if has_point(s, i) {
        whole_end(s, i) + 1
    } else {
        whole_end(s, i)
    }
}

/// Where the digits of the fraction end.
pub open spec fn fraction_end(s: Seq<u8>, i: int) -> int {
    digits_end(s, fraction_start(s, i))
}

/// Whether a `%` follows the digits.
pub open spec fn has_percent(s: Seq<u8>, i: int) -> bool {
    0 <= fraction_end(s, i) < s.len() && s[fraction_end(s, i)] == 37
}

/// Where the number that starts at `i` ends: an optional sign, digits, an
/// optional point with digits, an optional `%`.
pub open spec fn number_end(s: Seq<u8>, i: int) -> int {
    if has_percent(s, i) {
        fraction_end(s, i) + 1
    } else {
        fraction_end(s, i)
    }
}

/// Whether the number that starts at `i` has a digit.
pub open spec fn number_has_digit(s: Seq<u8>, i: int) -> bool {
    whole_end(s, i) > whole_start(s, i) || fraction_end(s, i) > fraction_start(s, i)
}

/// The number that starts at `i`.
pub open spec fn number_at(s: Seq<u8>, i: int) -> Number {
    Number {
        negative: s[i] == 45,
        micros: (whole_value(s, whole_start(s, i), whole_end(s, i)) * MICRO + fraction_micros(
            s,
            fraction_start(s, i),
            fraction_end(s, i),
        )) as u64,
        residue: has_residue(s, fraction_start(s, i), fraction_end(s, i)),
        integral: !has_point(s, i),
        percent: has_percent(s, i),
    }
}

/// `t` put in front of the tokens `rest`, where there are any.
pub open spec fn with_first(t: Token, rest: Result<Seq<Token>, ColorParseError>) -> Result<
    Seq<Token>,
    ColorParseError,
> {
    match rest {
        Ok(ts) => Ok(seq![t] + ts),
        Err(e) => Err(e),
    }
}

/// The tokens of `s` from `i` on. ASCII white space separates tokens and is
/// dropped. A byte that starts no token, and a number without a digit, is
/// `InvalidToken`.
pub open spec fn tokenize(s: Seq<u8>, i: int) -> Result<Seq<Token>, ColorParseError>
    decreases s.len() - i,
    via tokenize_decreases
{
    if i < 0 || i >= s.len() {
        Ok(Seq::empty())
    } else if is_ascii_space(s[i]) {
        tokenize(s, i + 1)
    } else if s[i] == 44 {
        with_first(Token::Comma, tokenize(s, i + 1))
    } else if s[i] == 47 {
        with_first(Token::Slash, tokenize(s, i + 1))
    } else if starts_number(s[i]) && number_has_digit(s, i) {
        with_first(Token::Number(number_at(s, i)), tokenize(s, number_end(s, i)))
    } else {
        Err(ColorParseError::InvalidToken)
    }
}

#[via_fn]
proof fn tokenize_decreases(s: Seq<u8>, i: int) {
    if 0 <= i < s.len() && starts_number(s[i]) && number_has_digit(s, i) {
        lemma_number_span(s, i);
    }
}

/// The digits from `i` on end within the text, hold digits only, and are
/// followed by no digit.
pub proof fn lemma_digits_end(s: Seq<u8>, i: int)
    requires
        0 <= i <= s.len(),
    ensures
        i <= digits_end(s, i) <= s.len(),
        forall|k: int| i <= k < digits_end(s, i) ==> is_digit(#[trigger] s[k]),
        digits_end(s, i) < s.len() ==> !is_digit(s[digits_end(s, i)]),
    decreases s.len() - i,
{
    if i < s.len() && is_digit(s[i]) {
        lemma_digits_end(s, i + 1);
    }
}

/// The parts of a number follow each other within the text, and a number
/// with a digit is not empty.
pub proof fn lemma_number_span(s: Seq<u8>, i: int)
    requires
        0 <= i < s.len(),
    ensures
        i <= whole_start(s, i) <= whole_end(s, i) <= fraction_start(s, i) <= fraction_end(s, i)
            <= number_end(s, i) <= s.len(),
        number_has_digit(s, i) ==> i < number_end(s, i),
{
    lemma_digits_end(s, whole_start(s, i));
    lemma_digits_end(s, fraction_start(s, i));
}

/// The capped value of a run of digits is at most the cap.
pub proof fn lemma_whole_value_bound(s: Seq<u8>, i: int, e: int)
    requires
        forall|k: int| i <= k < e ==> is_digit(#[trigger] s[k]),
    ensures
        0 <= whole_value(s, i, e) <= WHOLE_CAP,
    decreases e - i,
{
    if e > i {
        lemma_whole_value_bound(s, i, e - 1);
    }
}

fn scan_digits(b: &[u8], i: usize) -> (e: usize)
    requires
        i <= b@.len(),
    ensures
        e == digits_end(b@, i as int),
        i <= e <= b@.len(),
{
    let mut j: usize = i;
    while j < b.len() && 48 <= b[j] && b[j] <= 57
        invariant
            i <= j <= b@.len(),
            digits_end(b@, i as int) == digits_end(b@, j as int),
        decreases b@.len() - j,
    {
        j = j + 1;
    }
    j
}

fn whole_of(b: &[u8], i: usize, e: usize) -> (v: u64)
    requires
        i <= e <= b@.len(),
        forall|k: int| i <= k < e ==> is_digit(#[trigger] b@[k]),
    ensures
        v == whole_value(b@, i as int, e as int),
        v <= WHOLE_CAP,
{
    let mut v: u64 = 0;
    let mut j: usize = i;
    while j < e
        invariant
            i <= j <= e <= b@.len(),
            forall|k: int| i <= k < e ==> is_digit(#[trigger] b@[k]),
            v == whole_value(b@, i as int, j as int),
            v <= WHOLE_CAP,
        decreases e - j,
    {
        assert(is_digit(b@[j as int]));
        let d: u64 = (b[j] - 48) as u64;
        let next: u64 = v * 10 + d;
        v = if next > WHOLE_CAP {
            WHOLE_CAP
        } else {
            next
        };
        j = j + 1;
    }
    v
}

fn digit_of(b: &[u8], i: usize, e: usize, k: usize) -> (d: u64)
    requires
        i <= e <= b@.len(),
        k < 6,
        forall|j: int| i <= j < e ==> is_digit(#[trigger] b@[j]),
    ensures
        d == digit_at(b@, i as int, e as int, k as int),
        d <= 9,
{
    if k < e - i {
        assert(is_digit(b@[i + k]));
        (b[i + k] - 48) as u64
    } else {
        0
    }
}

fn fraction_of(b: &[u8], i: usize, e: usize) -> (v: u64)
    requires
        i <= e <= b@.len(),
        forall|j: int| i <= j < e ==> is_digit(#[trigger] b@[j]),
    ensures
        v == fraction_micros(b@, i as int, e as int),
        v < MICRO,
{
    digit_of(b, i, e, 0) * 100000 + digit_of(b, i, e, 1) * 10000 + digit_of(b, i, e, 2) * 1000
        + digit_of(b, i, e, 3) * 100 + digit_of(b, i, e, 4) * 10 + digit_of(b, i, e, 5)
}

/// Whether a digit from `i` up to `e`, after the first six, is not zero.
fn residue_of(b: &[u8], i: usize, e: usize) -> (yes: bool)
    requires
        i <= e <= b@.len(),
    ensures
        yes == has_residue(b@, i as int, e as int),
{
    if e - i <= 6 {
        return false;
    }
    let mut j: usize = i + 6;
    while j < e
        invariant
            i + 6 <= j <= e <= b@.len(),
            forall|k: int| i + 6 <= k < j ==> #[trigger] b@[k] == 48,
        decreases e - j,
    {
        if b[j] != 48 {
            return true;
        }
        j = j + 1;
    }
    false
}

/// Reads the number that starts at `i`: where it ends, and the number if it
/// has a digit.
fn scan_number(b: &[u8], i: usize) -> (out: (usize, Option<Number>))
    requires
        i < b@.len(),
    ensures
        out.0 == number_end(b@, i as int),
        i <= out.0 <= b@.len(),
        out.1 is Some <==> number_has_digit(b@, i as int),
        out.1 is Some ==> out.1.unwrap() == number_at(b@, i as int) && i < out.0,
{
    proof {
        lemma_number_span(b@, i as int);
        lemma_digits_end(b@, whole_start(b@, i as int));
        lemma_digits_end(b@, fraction_start(b@, i as int));
    }
    let negative = b[i] == 45;
    let ws: usize = if b[i] == 43 || b[i] == 45 {
        i + 1
    } else {
        i
    };
    let we = scan_digits(b, ws);
    let point = we < b.len() && b[we] == 46;
    let fs: usize = if point {
        we + 1
    } else {
        we
    };
    let fe = scan_digits(b, fs);
    let percent = fe < b.len() && b[fe] == 37;
    let end: usize = if percent {
        fe + 1
    } else {
        fe
    };
    if we > ws || fe > fs {
        let whole = whole_of(b, ws, we);
        let fraction = fraction_of(b, fs, fe);
        let micros: u64 = whole * MICRO + fraction;
        let residue = residue_of(b, fs, fe);
        (end, Some(Number { negative, micros, residue, integral: !point, percent }))
    } else {
        (end, None)
    }
}

/// The tokens that `acc` and then `rest` make.
pub open spec fn tokens_then(acc: Seq<Token>, rest: Result<Seq<Token>, ColorParseError>) -> Result<
    Seq<Token>,
    ColorParseError,
> {
    match rest {
        Ok(ts) => Ok(acc + ts),
        Err(e) => Err(e),
    }
}

/// What a tokenizer run stands for in contracts: the tokens as a sequence.
pub open spec fn tokens_view(res: Result<Vec<Token>, ColorParseError>) -> Result<
    Seq<Token>,
    ColorParseError,
> {
    match res {
        Ok(v) => Ok(v@),
        Err(e) => Err(e),
    }
}

/// Splits the text between the parentheses into tokens.
pub fn tokens(b: &[u8]) -> (res: Result<Vec<Token>, ColorParseError>)
    ensures
        tokens_view(res) == tokenize(b@, 0),
{
    let mut acc: Vec<Token> = Vec::new();
    let mut i: usize = 0;
    assert(Seq::<Token>::empty() + tokenize(b@, 0).unwrap() =~= tokenize(b@, 0).unwrap());
    while i < b.len()
        invariant
            i <= b@.len(),
            tokenize(b@, 0) == tokens_then(acc@, tokenize(b@, i as int)),
        decreases b@.len() - i,
    {
        let c = b[i];
        let ghost before = acc@;
        if c == 32 || c == 9 || c == 10 || c == 12 || c == 13 {
            i = i + 1;
        } else if c == 44 || c == 47 {
            let t = if c == 44 {
                Token::Comma
            } else {
                Token::Slash
            };
            acc.push(t);
            proof {
                let rest = tokenize(b@, i + 1);
                if rest is Ok {
                    assert(before + (seq![t] + rest.unwrap()) =~= acc@ + rest.unwrap());
                }
            }
            i = i + 1;
        } else if (48 <= c && c <= 57) || c == 43 || c == 45 || c == 46 {
            let (end, number) = scan_number(b, i);
            match number {
                Some(n) => {
                    let t = Token::Number(n);
                    acc.push(t);
                    proof {
                        let rest = tokenize(b@, end as int);
                        if rest is Ok {
                            assert(before + (seq![t] + rest.unwrap()) =~= acc@ + rest.unwrap());
                        }
                    }
                    i = end;
                },
                None => {
                    return Err(ColorParseError::InvalidToken);
                },
            }
        } else {
            return Err(ColorParseError::InvalidToken);
        }
    }
    assert(acc@ + Seq::<Token>::empty() =~= acc@);
    Ok(acc)
}

// ---------------------------------------------------------------------------
// Grammar
// ---------------------------------------------------------------------------

/// Whether a comma is among the tokens.
pub open spec fn has_comma(t: Seq<Token>) -> bool {
    exists|i: int| 0 <= i < t.len() && (#[trigger] t[i]) is Comma
}

/// The legacy grammar: three numbers separated by commas, and then nothing,
/// or a comma and a number, or a slash and a number.
pub open spec fn legacy_shape(t: Seq<Token>) -> bool {
    &&& t.len() == 5 || t.len() == 7
    &&& t[0] is Number
    &&& t[1] is Comma
    &&& t[2] is Number
    &&& t[3] is Comma
    &&& t[4] is Number
    &&& t.len() == 7 ==> (t[5] is Comma || t[5] is Slash) && t[6] is Number
}

/// The modern grammar: three numbers, and then nothing, or a slash and a
/// number.
pub open spec fn modern_shape(t: Seq<Token>) -> bool {
    &&& t.len() == 3 || t.len() == 5
    &&& t[0] is Number
    &&& t[1] is Number
    &&& t[2] is Number
    &&& t.len() == 5 ==> t[3] is Slash && t[4] is Number
}

/// The numbers of a color function: red, green, blue, and alpha if given.
pub struct Components {
    pub red: Number,
    pub green: Number,
    pub blue: Number,
    pub alpha: Option<Number>,
}

/// The numbers that the tokens give. Where a comma is among the tokens the
/// legacy grammar holds, else the modern one.
pub open spec fn components(t: Seq<Token>) -> Option<Components> {
    if has_comma(t) {
        if legacy_shape(t) {
            Some(
                Components {
                    red: t[0]->0,
                    green: t[2]->0,
                    blue: t[4]->0,
                    alpha: if t.len() == 7 {
                        Some(t[6]->0)
                    } else {
                        None
                    },
                },
            )
        } else {
            None
        }
    } else if modern_shape(t) {
        Some(
            Components {
                red: t[0]->0,
                green: t[1]->0,
                blue: t[2]->0,
                alpha: if t.len() == 5 {
                    Some(t[4]->0)
                } else {
                    None
                },
            },
        )
    } else {
        None
    }
}

fn find_comma(t: &Vec<Token>) -> (found: bool)
    ensures
        found == has_comma(t@),
{
    let mut i: usize = 0;
    while i < t.len()
        invariant
            i <= t@.len(),
            forall|k: int| 0 <= k < i ==> !((#[trigger] t@[k]) is Comma),
        decreases t@.len() - i,
    {
        if let Token::Comma = t[i] {
            return true;
        }
        i = i + 1;
    }
    false
}

fn number_of(t: &Vec<Token>, i: usize) -> (n: Option<Number>)
    ensures
        n is Some <==> i < t@.len() && t@[i as int] is Number,
        n is Some ==> n.unwrap() == t@[i as int]->0,
{
    if i < t.len() {
        match t[i] {
            Token::Number(n) => Some(n),
            _ => None,
        }
    } else {
        None
    }
}

fn is_comma(t: &Vec<Token>, i: usize) -> (yes: bool)
    ensures
        yes <==> i < t@.len() && t@[i as int] is Comma,
{
    if i < t.len() {
        match t[i] {
            Token::Comma => true,
            _ => false,
        }
    } else {
        false
    }
}

fn is_slash(t: &Vec<Token>, i: usize) -> (yes: bool)
    ensures
        yes <==> i < t@.len() && t@[i as int] is Slash,
{
    if i < t.len() {
        match t[i] {
            Token::Slash => true,
            _ => false,
        }
    } else {
        false
    }
}

/// Sorts the tokens into red, green, blue and alpha.
pub fn parse_components(t: &Vec<Token>) -> (out: Option<Components>)
    ensures
        out == components(t@),
{
    let len = t.len();
    if find_comma(t) {
        if len != 5 && len != 7 {
            return None;
        }
        let (r, g, b) = match (number_of(t, 0), number_of(t, 2), number_of(t, 4)) {
            (Some(r), Some(g), Some(b)) => (r, g, b),
            _ => {
                return None;
            },
        };
        if !is_comma(t, 1) || !is_comma(t, 3) {
            return None;
        }
        if len == 5 {
            return Some(Components { red: r, green: g, blue: b, alpha: None });
        }
        if !is_comma(t, 5) && !is_slash(t, 5) {
            return None;
        }
        match number_of(t, 6) {
            Some(a) => Some(Components { red: r, green: g, blue: b, alpha: Some(a) }),
            None => None,
        }
    } else {
        if len != 3 && len != 5 {
            return None;
        }
        let (r, g, b) = match (number_of(t, 0), number_of(t, 1), number_of(t, 2)) {
            (Some(r), Some(g), Some(b)) => (r, g, b),
            _ => {
                return None;
            },
        };
        if len == 3 {
            return Some(Components { red: r, green: g, blue: b, alpha: None });
        }
        if !is_slash(t, 3) {
            return None;
        }
        match number_of(t, 4) {
            Some(a) => Some(Components { red: r, green: g, blue: b, alpha: Some(a) }),
            None => None,
        }
    }
}

// ---------------------------------------------------------------------------
// Ranges
// ---------------------------------------------------------------------------

/// Whether a number is below zero.
pub open spec fn below_zero(n: Number) -> bool {
    n.negative && (n.micros > 0 || n.residue)
}

/// Whether the magnitude of a number is above `limit` millionths.
pub open spec fn above(n: Number, limit: int) -> bool {
    n.micros > limit || (n.micros == limit && n.residue)
}

/// The level that a percentage stands for: `N%` with `0 <= N <= 100` is
/// `N / 100 * 255`, rounded to nearest.
pub open spec fn percent_level(n: Number) -> Option<u8> {
    if below_zero(n) || above(n, 100 * MICRO) {
        None
    } else {
        Some(half_up(n.micros * 255, 100 * MICRO) as u8)
    }
}

/// The level that a red, green or blue component stands for: a percentage,
/// or a number from 0 to 255, rounded to nearest.
pub open spec fn component_level(n: Number) -> Option<u8> {
    if n.percent {
        percent_level(n)
    } else if below_zero(n) || above(n, 255 * MICRO) {
        None
    } else {
        Some(half_up(n.micros as int, MICRO as int) as u8)
    }
}

/// The level that an alpha component stands for: a percentage; else a number
/// from 0 to 1, scaled by 255 and rounded to nearest; else a whole number
/// from 0 to 255.
pub open spec fn alpha_level(n: Number) -> Option<u8> {
    if n.percent {
        percent_level(n)
    } else if !below_zero(n) && !above(n, MICRO as int) {
        Some(half_up(n.micros * 255, MICRO as int) as u8)
    } else if n.integral && !n.negative && !above(n, 255 * MICRO) {
        Some((n.micros / MICRO) as u8)
    } else {
        None
    }
}

/// The color that the components stand for. Alpha is 255 where none is given.
pub open spec fn resolve(c: Components) -> Result<Color, ColorParseError> {
    let r = component_level(c.red);
    let g = component_level(c.green);
    let b = component_level(c.blue);
    let a = match c.alpha {
        Some(n) => alpha_level(n),
        None => Some(255u8),
    };
    if r is Some && g is Some && b is Some && a is Some {
        Ok(Color { r: r.unwrap(), g: g.unwrap(), b: b.unwrap(), a: a.unwrap() })
    } else {
        Err(ColorParseError::OutOfRange)
    }
}

/// `n / d` rounded to nearest, halves up, for small operands.
fn rounded(n: u64, d: u64) -> (q: u64)
    requires
        0 < d <= 100 * MICRO,
        n <= 255 * 255 * MICRO,
    ensures
        q == half_up(n as int, d as int),
{
    (2 * n + d) / (2 * d)
}

fn is_below_zero(n: &Number) -> (yes: bool)
    ensures
        yes == below_zero(*n),
{
    n.negative && (n.micros > 0 || n.residue)
}

fn is_above(n: &Number, limit: u64) -> (yes: bool)
    ensures
        yes == above(*n, limit as int),
{
    n.micros > limit || (n.micros == limit && n.residue)
}

fn percent_to_level(n: &Number) -> (out: Option<u8>)
    ensures
        out == percent_level(*n),
{
    if is_below_zero(n) || is_above(n, 100 * MICRO) {
        None
    } else {
        let q = rounded(n.micros * 255, 100 * MICRO);
        assert(q <= 255) by (nonlinear_arith)
            requires
                q == (2 * (n.micros * 255) + 100 * MICRO) / (2 * (100 * MICRO) as int),
                n.micros <= 100 * MICRO,
        ;
        Some(q as u8)
    }
}

/// The level of a red, green or blue component, if it is in range.
pub fn component_to_level(n: &Number) -> (out: Option<u8>)
    ensures
        out == component_level(*n),
{
    if n.percent {
        percent_to_level(n)
    } else if is_below_zero(n) || is_above(n, 255 * MICRO) {
        None
    } else {
        let q = rounded(n.micros, MICRO);
        assert(q <= 255) by (nonlinear_arith)
            requires
                q == (2 * n.micros + MICRO) / (2 * MICRO as int),
                n.micros <= 255 * MICRO,
        ;
        Some(q as u8)
    }
}

/// The level of an alpha component, if it is in range.
pub fn alpha_to_level(n: &Number) -> (out: Option<u8>)
    ensures
        out == alpha_level(*n),
{
    if n.percent {
        percent_to_level(n)
    } else if !is_below_zero(n) && !is_above(n, MICRO) {
        let q = rounded(n.micros * 255, MICRO);
        assert(q <= 255) by (nonlinear_arith)
            requires
                q == (2 * (n.micros * 255) + MICRO) / (2 * MICRO as int),
                n.micros <= MICRO,
        ;
        Some(q as u8)
    } else if n.integral && !n.negative && !is_above(n, 255 * MICRO) {
        Some((n.micros / MICRO) as u8)
    } else {
        None
    }
}

/// Checks the ranges of the components and makes the color.
pub fn resolve_components(c: &Components) -> (res: Result<Color, ColorParseError>)
    ensures
        res == resolve(*c),
{
    let r = component_to_level(&c.red);
    let g = component_to_level(&c.green);
    let b = component_to_level(&c.blue);
    let a = match &c.alpha {
        Some(n) => alpha_to_level(n),
        None => Some(255u8),
    };
    match (r, g, b, a) {
        (Some(r), Some(g), Some(b), Some(a)) => Ok(Color { r, g, b, a }),
        _ => Err(ColorParseError::OutOfRange),
    }
}

/// The color that the text between the parentheses of `rgb()` or `rgba()`
/// stands for. The text is split into tokens, then sorted by the grammar,
/// then the ranges are checked: the first of these to fail gives the error.
pub open spec fn parse_function_spec(s: Seq<u8>) -> Result<Color, ColorParseError> {
    match tokenize(s, 0) {
        Err(e) => Err(e),
        Ok(t) => match components(t) {
            None => Err(ColorParseError::InvalidFunc),
            Some(c) => resolve(c),
        },
    }
}

/// Parses the text between the parentheses of `rgb()` or `rgba()`.
pub fn parse_function_bytes(b: &[u8]) -> (res: Result<Color, ColorParseError>)
    ensures
        res == parse_function_spec(b@),
{
    match tokens(b) {
        Err(e) => Err(e),
        Ok(t) => match parse_components(&t) {
            None => Err(ColorParseError::InvalidFunc),
            Some(c) => resolve_components(&c),
        },
    }
}

} // verus!
