//! Parsing of CSS-style color text: hex notation and the `rgb()` / `rgba()`
//! functional notation.
//!
//! The grammar is stated over the bytes of the text. Text is UTF-8, so a
//! white-space character is recognised by the bytes that encode it.

use crate::color::model::canonical_bytes;
use crate::color::model::hex8_bytes;
use crate::color::model::hex_lower;
use crate::color::model::hex_upper;
use crate::color::model::Color;
use crate::color::rgb_function::parse_function_bytes;
use crate::color::rgb_function::parse_function_spec;
use vstd::prelude::*;
use vstd::slice::slice_subrange;
use vstd::string::StringSliceAdditionalSpecFns;

verus! {

/// Why a text is not a color.
#[derive(Clone, Copy, Debug, PartialEq, Eq, Hash, Structural)]
pub enum ColorParseError {
    /// The text is empty or all white space.
    Empty,
    /// The hex digits are not 3, 4, 6 or 8 in number.
    InvalidLength,
    /// A character that is no hex digit stands among the hex digits.
    InvalidHex,
    /// The text is neither hex notation nor a well-formed `rgb()` / `rgba()`.
    InvalidFunc,
    /// A component lies outside its range.
    OutOfRange,
    /// A character that starts no token stands between the parentheses.
    InvalidToken,
}

/// The text that explains an error.
pub open spec fn message_text(e: ColorParseError) -> Seq<char> {
    match e {
        ColorParseError::Empty => "empty color string"@,
        ColorParseError::InvalidLength => "invalid hex length"@,
        ColorParseError::InvalidHex => "invalid hex digits"@,
        ColorParseError::InvalidFunc => "invalid color function"@,
        ColorParseError::OutOfRange => "color component out of range"@,
        ColorParseError::InvalidToken => "invalid token in color function"@,
    }
}

impl ColorParseError {
    /// A short explanation of the error.
    pub fn message(&self) -> (s: &'static str)
        ensures
            s@ == message_text(*self),
    {
        match self {
            ColorParseError::Empty => "empty color string",
            ColorParseError::InvalidLength => "invalid hex length",
            ColorParseError::InvalidHex => "invalid hex digits",
            ColorParseError::InvalidFunc => "invalid color function",
            ColorParseError::OutOfRange => "color component out of range",
            ColorParseError::InvalidToken => "invalid token in color function",
        }
    }
}

// ---------------------------------------------------------------------------
// White space
// ---------------------------------------------------------------------------

/// Whether three bytes encode one of the white-space characters U+1680,
/// U+2000 to U+200A, U+2028, U+2029, U+202F, U+205F or U+3000.
pub open spec fn is_wide_space(a: u8, b: u8, c: u8) -> bool {
    ||| a == 0xE1 && b == 0x9A && c == 0x80
    ||| a == 0xE2 && b == 0x80 && (0x80 <= c <= 0x8A || c == 0xA8 || c == 0xA9 || c == 0xAF)
    ||| a == 0xE2 && b == 0x81 && c == 0x9F
    ||| a == 0xE3 && b == 0x80 && c == 0x80
}

/// Whether a byte is one of the white-space characters U+0009 to U+000D or
/// U+0020.
pub open spec fn is_narrow_space(a: u8) -> bool {
    9 <= a <= 13 || a == 32
}

/// Whether two bytes encode U+0085 or U+00A0.
pub open spec fn is_latin_space(a: u8, b: u8) -> bool {
    a == 0xC2 && (b == 0x85 || b == 0xA0)
}

/// The length in bytes of the white-space character that `s` starts with, or
/// 0 if it starts with none.
pub open spec fn space_prefix(s: Seq<u8>) -> int {
    if s.len() >= 1 && is_narrow_space(s[0]) {
        1
    } else if s.len() >= 2 && is_latin_space(s[0], s[1]) {
        2
    } else if s.len() >= 3 && is_wide_space(s[0], s[1], s[2]) {
        3
    } else {
        0
    }
}

/// The length in bytes of the white-space character that `s` ends with, or 0
/// if it ends with none.
pub open spec fn space_suffix(s: Seq<u8>) -> int {
    let n = s.len() as int;
    if n >= 1 && is_narrow_space(s[n - 1]) {
        1
    } else if n >= 2 && is_latin_space(s[n - 2], s[n - 1]) {
        2
    } else if n >= 3 && is_wide_space(s[n - 3], s[n - 2], s[n - 1]) {
        3
    } else {
        0
    }
}

/// `s` without the white space it starts with.
pub open spec fn trim_start(s: Seq<u8>) -> Seq<u8>
    decreases s.len(),
{
    let n = space_prefix(s);
    if n > 0 {
        trim_start(s.skip(n))
    } else {
        s
    }
}

/// `s` without the white space it ends with.
pub open spec fn trim_end(s: Seq<u8>) -> Seq<u8>
    decreases s.len(),
{
    let n = space_suffix(s);
    if n > 0 {
        trim_end(s.take(s.len() - n))
    } else {
        s
    }
}

/// `s` without the white space at both ends.
pub open spec fn trim(s: Seq<u8>) -> Seq<u8> {
    trim_end(trim_start(s))
}

fn space_prefix_at(b: &[u8], start: usize, end: usize) -> (n: usize)
    requires
        start <= end <= b@.len(),
    ensures
        n == space_prefix(b@.subrange(start as int, end as int)),
        start + n <= end,
{
    let len = end - start;
    let ghost s = b@.subrange(start as int, end as int);
    if len >= 1 && ((9 <= b[start] && b[start] <= 13) || b[start] == 32) {
        assert(s[0] == b@[start as int]);
        return 1;
    }
    if len >= 2 && b[start] == 0xC2 && (b[start + 1] == 0x85 || b[start + 1] == 0xA0) {
        assert(s[0] == b@[start as int] && s[1] == b@[start + 1]);
        return 2;
    }
    if len >= 3 {
        let x = b[start];
        let y = b[start + 1];
        let z = b[start + 2];
        assert(s[0] == x && s[1] == y && s[2] == z);
        if (x == 0xE1 && y == 0x9A && z == 0x80) || (x == 0xE2 && y == 0x80 && ((0x80 <= z
            && z <= 0x8A) || z == 0xA8 || z == 0xA9 || z == 0xAF)) || (x == 0xE2 && y == 0x81 && z
            == 0x9F) || (x == 0xE3 && y == 0x80 && z == 0x80) {
            return 3;
        }
    }
    proof {
        if len >= 1 {
            assert(s[0] == b@[start as int]);
        }
        if len >= 2 {
            assert(s[1] == b@[start + 1]);
        }
    }
    0
}

fn space_suffix_at(b: &[u8], start: usize, end: usize) -> (n: usize)
    requires
        start <= end <= b@.len(),
    ensures
        n == space_suffix(b@.subrange(start as int, end as int)),
        start + n <= end,
{
    let len = end - start;
    let ghost s = b@.subrange(start as int, end as int);
    proof {
        if len >= 1 {
            assert(s[len - 1] == b@[end - 1]);
        }
        if len >= 2 {
            assert(s[len - 2] == b@[end - 2]);
        }
        if len >= 3 {
            assert(s[len - 3] == b@[end - 3]);
        }
    }
    if len >= 1 && ((9 <= b[end - 1] && b[end - 1] <= 13) || b[end - 1] == 32) {
        return 1;
    }
    if len >= 2 && b[end - 2] == 0xC2 && (b[end - 1] == 0x85 || b[end - 1] == 0xA0) {
        return 2;
    }
    if len >= 3 {
        let x = b[end - 3];
        let y = b[end - 2];
        let z = b[end - 1];
        if (x == 0xE1 && y == 0x9A && z == 0x80) || (x == 0xE2 && y == 0x80 && ((0x80 <= z
            && z <= 0x8A) || z == 0xA8 || z == 0xA9 || z == 0xAF)) || (x == 0xE2 && y == 0x81 && z
            == 0x9F) || (x == 0xE3 && y == 0x80 && z == 0x80) {
            return 3;
        }
    }
    0
}

/// The part of `b` that is left when the white space at both ends is taken
/// away.
pub fn trim_bytes(b: &[u8]) -> (out: &[u8])
    ensures
        out@ == trim(b@),
{
    let len = b.len();
    let mut start: usize = 0;
    assert(b@.skip(0) =~= b@);
    loop
        invariant
            len == b@.len(),
            start <= len,
            trim_start(b@) == trim_start(b@.skip(start as int)),
        ensures
            trim_start(b@) == b@.skip(start as int),
        decreases len - start,
    {
        assert(b@.subrange(start as int, len as int) =~= b@.skip(start as int));
        let n = space_prefix_at(b, start, len);
        if n == 0 {
            break ;
        }
        assert(b@.skip(start as int).skip(n as int) =~= b@.skip(start + n));
        start = start + n;
    }
    let mut end: usize = len;
    assert(b@.subrange(start as int, len as int) =~= b@.skip(start as int));
    loop
        invariant
            len == b@.len(),
            start <= end <= len,
            trim(b@) == trim_end(b@.subrange(start as int, end as int)),
        ensures
            start <= end <= len,
            trim(b@) == b@.subrange(start as int, end as int),
        decreases end - start,
    {
        let n = space_suffix_at(b, start, end);
        if n == 0 {
            break ;
        }
        assert(b@.subrange(start as int, end as int).take(end - start - n) =~= b@.subrange(
            start as int,
            end - n,
        ));
        end = end - n;
    }
    slice_subrange(b, start, end)
}

// ---------------------------------------------------------------------------
// Hex notation
// ---------------------------------------------------------------------------

/// The value of a hex digit, upper or lower case.
pub open spec fn hex_value(b: u8) -> Option<u8> {
    if 48 <= b <= 57 {
        Some((b - 48) as u8)
    } else if 97 <= b <= 102 {
        Some((b - 87) as u8)
    } else if 65 <= b <= 70 {
        Some((b - 55) as u8)
    } else {
        None
    }
}

/// Whether every byte of `s` is a hex digit.
pub open spec fn all_hex(s: Seq<u8>) -> bool {
    forall|i: int| 0 <= i < s.len() ==> (#[trigger] hex_value(s[i])) is Some
}

/// The channel that the one hex digit at `i` stands for: the digit twice.
pub open spec fn short_channel(s: Seq<u8>, i: int) -> u8 {
    (hex_value(s[i]).unwrap() * 17) as u8
}

/// The channel that the two hex digits at `2 * i` stand for.
pub open spec fn long_channel(s: Seq<u8>, i: int) -> u8 {
    (hex_value(s[2 * i]).unwrap() * 16 + hex_value(s[2 * i + 1]).unwrap()) as u8
}

/// The color that the hex digits `s` stand for: `RGB`, `RGBA`, `RRGGBB` or
/// `RRGGBBAA`. The length is judged first, then the digits.
pub open spec fn parse_hex_spec(s: Seq<u8>) -> Result<Color, ColorParseError> {
    if s.len() != 3 && s.len() != 4 && s.len() != 6 && s.len() != 8 {
        Err(ColorParseError::InvalidLength)
    } else if !all_hex(s) {
        Err(ColorParseError::InvalidHex)
    } else if s.len() == 3 {
        Ok(
            Color {
                r: short_channel(s, 0),
                g: short_channel(s, 1),
                b: short_channel(s, 2),
                a: 255,
            },
        )
    } else if s.len() == 4 {
        Ok(
            Color {
                r: short_channel(s, 0),
                g: short_channel(s, 1),
                b: short_channel(s, 2),
                a: short_channel(s, 3),
            },
        )
    } else if s.len() == 6 {
        Ok(Color { r: long_channel(s, 0), g: long_channel(s, 1), b: long_channel(s, 2), a: 255 })
    } else {
        Ok(
            Color {
                r: long_channel(s, 0),
                g: long_channel(s, 1),
                b: long_channel(s, 2),
                a: long_channel(s, 3),
            },
        )
    }
}

fn nibble(c: u8) -> (v: Option<u8>)
    ensures
        v == hex_value(c),
        v is Some ==> v.unwrap() < 16,
{
    if 48 <= c && c <= 57 {
        Some(c - 48)
    } else if 97 <= c && c <= 102 {
        Some(c - 87)
    } else if 65 <= c && c <= 70 {
        Some(c - 55)
    } else {
        None
    }
}

/// The values of the hex digits of `b`, or `None` if one of them is no hex
/// digit.
fn nibbles(b: &[u8]) -> (out: Option<Vec<u8>>)
    ensures
        out is Some <==> all_hex(b@),
        out is Some ==> out.unwrap()@.len() == b@.len() && forall|i: int|
            0 <= i < b@.len() ==> hex_value(b@[i]) == Some(#[trigger] out.unwrap()@[i])
                && out.unwrap()@[i] < 16,
{
    let mut v: Vec<u8> = Vec::new();
    let mut i: usize = 0;
    while i < b.len()
        invariant
            i <= b@.len(),
            v@.len() == i,
            forall|k: int|
                0 <= k < i ==> hex_value(b@[k]) == Some(#[trigger] v@[k]) && v@[k] < 16,
        decreases b@.len() - i,
    {
        match nibble(b[i]) {
            Some(n) => {
                v.push(n);
            },
            None => {
                assert(!(hex_value(b@[i as int]) is Some));
                return None;
            },
        }
        i = i + 1;
    }
    assert forall|k: int| 0 <= k < b@.len() implies (#[trigger] hex_value(b@[k])) is Some by {
        assert(hex_value(b@[k]) == Some(v@[k]));
    }
    Some(v)
}

/// Parses the hex digits of a color, without the `#`.
///
/// Accepted are exactly 3, 4, 6 or 8 hex digits, upper or lower case. Any
/// other length is `InvalidLength`; a right length with a character that is
/// no hex digit is `InvalidHex`.
pub fn parse_hex_bytes(b: &[u8]) -> (res: Result<Color, ColorParseError>)
    ensures
        res == parse_hex_spec(b@),
{
    let len = b.len();
    if len != 3 && len != 4 && len != 6 && len != 8 {
        return Err(ColorParseError::InvalidLength);
    }
    match nibbles(b) {
        None => Err(ColorParseError::InvalidHex),
        Some(v) => {
            if len == 3 {
                Ok(Color { r: v[0] * 17, g: v[1] * 17, b: v[2] * 17, a: 255 })
            } else if len == 4 {
                Ok(Color { r: v[0] * 17, g: v[1] * 17, b: v[2] * 17, a: v[3] * 17 })
            } else if len == 6 {
                Ok(
                    Color {
                        r: v[0] * 16 + v[1],
                        g: v[2] * 16 + v[3],
                        b: v[4] * 16 + v[5],
                        a: 255,
                    },
                )
            } else {
                Ok(
                    Color {
                        r: v[0] * 16 + v[1],
                        g: v[2] * 16 + v[3],
                        b: v[4] * 16 + v[5],
                        a: v[6] * 16 + v[7],
                    },
                )
            }
        },
    }
}

/// Parses the hex digits of a color, without the `#`.
pub fn parse_hex(hex: &str) -> (res: Result<Color, ColorParseError>)
    ensures
        res == parse_hex_spec(hex.spec_bytes()),
{
    parse_hex_bytes(hex.as_bytes())
}

// ---------------------------------------------------------------------------
// Color text
// ---------------------------------------------------------------------------

/// An upper-case ASCII letter in lower case; any other byte as it is.
pub open spec fn lower(b: u8) -> u8 {
    if 65 <= b <= 90 {
        (b + 32) as u8
    } else {
        b
    }
}

/// Whether `s` starts with `prefix`, upper and lower case taken as one.
/// `prefix` is in lower case.
pub open spec fn starts_with_lower(s: Seq<u8>, prefix: Seq<u8>) -> bool {
    s.len() >= prefix.len() && forall|i: int|
        0 <= i < prefix.len() ==> lower(#[trigger] s[i]) == prefix[i]
}

/// The bytes of `rgb(`.
pub open spec fn rgb_prefix() -> Seq<u8> {
    seq![114u8, 103u8, 98u8, 40u8]
}

/// The bytes of `rgba(`.
pub open spec fn rgba_prefix() -> Seq<u8> {
    seq![114u8, 103u8, 98u8, 97u8, 40u8]
}

/// What stands between the parentheses, where `t` is `rgb(` or `rgba(`, in
/// any case, and then anything up to a closing `)`.
pub open spec fn function_body(t: Seq<u8>) -> Option<Seq<u8>> {
    if t.len() >= 6 && starts_with_lower(t, rgba_prefix()) && t.last() == 41 {
        Some(t.subrange(5, t.len() - 1))
    } else if t.len() >= 5 && starts_with_lower(t, rgb_prefix()) && t.last() == 41 {
        Some(t.subrange(4, t.len() - 1))
    } else {
        None
    }
}

/// The color that a text stands for.
///
/// White space at both ends is dropped. Nothing left is `Empty`. A text that
/// starts with `#` is hex notation: what follows the `#`, trimmed again, is
/// the hex digits. A text of the form `rgb(...)` or `rgba(...)` is the
/// functional notation. Anything else is `InvalidFunc`.
pub open spec fn parse_color_spec(s: Seq<u8>) -> Result<Color, ColorParseError> {
    let t = trim(s);
    if t.len() == 0 {
        Err(ColorParseError::Empty)
    } else if t[0] == 35 {
        parse_hex_spec(trim(t.skip(1)))
    } else {
        match function_body(t) {
            Some(body) => parse_function_spec(body),
            None => Err(ColorParseError::InvalidFunc),
        }
    }
}

fn to_lower(b: u8) -> (l: u8)
    ensures
        l == lower(b),
{
    if 65 <= b && b <= 90 {
        b + 32
    } else {
        b
    }
}

/// The text between the parentheses of `rgb(...)` or `rgba(...)`.
fn function_body_of(t: &[u8]) -> (out: Option<&[u8]>)
    ensures
        out is Some <==> function_body(t@) is Some,
        out is Some ==> out.unwrap()@ == function_body(t@).unwrap(),
{
    let len = t.len();
    if len < 5 || t[len - 1] != 41 {
        return None;
    }
    if to_lower(t[0]) != 114 || to_lower(t[1]) != 103 || to_lower(t[2]) != 98 {
        assert(!starts_with_lower(t@, rgba_prefix()));
        assert(!starts_with_lower(t@, rgb_prefix()));
        return None;
    }
    if len >= 6 && to_lower(t[3]) == 97 && to_lower(t[4]) == 40 {
        return Some(slice_subrange(t, 5, len - 1));
    }
    if to_lower(t[3]) == 40 {
        assert(!starts_with_lower(t@, rgba_prefix())) by {
            if starts_with_lower(t@, rgba_prefix()) {
                assert(lower(t@[3]) == rgba_prefix()[3]);
            }
        }
        return Some(slice_subrange(t, 4, len - 1));
    }
    assert(!starts_with_lower(t@, rgb_prefix())) by {
        if starts_with_lower(t@, rgb_prefix()) {
            assert(lower(t@[3]) == rgb_prefix()[3]);
        }
    }
    assert(!(len >= 6 && starts_with_lower(t@, rgba_prefix()))) by {
        if len >= 6 && starts_with_lower(t@, rgba_prefix()) {
            assert(lower(t@[3]) == rgba_prefix()[3]);
            assert(lower(t@[4]) == rgba_prefix()[4]);
        }
    }
    None
}

/// Parses the bytes of a color text.
pub fn parse_color_bytes(b: &[u8]) -> (res: Result<Color, ColorParseError>)
    ensures
        res == parse_color_spec(b@),
{
    let t = trim_bytes(b);
    if t.len() == 0 {
        return Err(ColorParseError::Empty);
    }
    if t[0] == 35 {
        let rest = slice_subrange(t, 1, t.len());
        assert(rest@ =~= t@.skip(1));
        return parse_hex_bytes(trim_bytes(rest));
    }
    match function_body_of(t) {
        Some(body) => parse_function_bytes(body),
        None => Err(ColorParseError::InvalidFunc),
    }
}

/// Parses a color text: `#RGB`, `#RGBA`, `#RRGGBB`, `#RRGGBBAA`, or
/// `rgb(...)` / `rgba(...)` in the legacy form with commas or the modern form
/// with spaces and a slash.
pub fn parse_color(s: &str) -> (res: Result<Color, ColorParseError>)
    ensures
        res == parse_color_spec(s.spec_bytes()),
{
    parse_color_bytes(s.as_bytes())
}

// ---------------------------------------------------------------------------
// Theorems
// ---------------------------------------------------------------------------

/// Whether a byte is a hex digit in lower case.
pub open spec fn is_lower_hex(b: u8) -> bool {
    48 <= b <= 57 || 97 <= b <= 102
}

/// Each digit of `s` twice: `abc` becomes `aabbcc`.
pub open spec fn doubled(s: Seq<u8>) -> Seq<u8> {
    Seq::new(2 * s.len(), |i: int| s[i / 2])
}

/// A text that neither starts nor ends with white space is its own trimmed
/// form.
pub proof fn lemma_trim_nothing(s: Seq<u8>)
    requires
        space_prefix(s) == 0,
        space_suffix(s) == 0,
    ensures
        trim(s) == s,
{
}

/// What is left of a text without the white space it started with starts
/// with no white space.
pub proof fn lemma_trim_start_done(s: Seq<u8>)
    ensures
        space_prefix(trim_start(s)) == 0,
    decreases s.len(),
{
    let n = space_prefix(s);
    if n > 0 {
        lemma_trim_start_done(s.skip(n));
    }
}

/// What is left of a text without the white space it ended with ends with
/// no white space; and if the text started with no white space, neither
/// does what is left.
pub proof fn lemma_trim_end_done(s: Seq<u8>)
    ensures
        space_suffix(trim_end(s)) == 0,
        space_prefix(s) == 0 ==> space_prefix(trim_end(s)) == 0,
    decreases s.len(),
{
    let n = space_suffix(s);
    if n > 0 {
        let t = s.take(s.len() - n);
        lemma_trim_end_done(t);
        if space_prefix(s) == 0 {
            if t.len() >= 1 {
                assert(t[0] == s[0]);
            }
            if t.len() >= 2 {
                assert(t[1] == s[1]);
            }
            if t.len() >= 3 {
                assert(t[2] == s[2]);
            }
            assert(space_prefix(t) == 0);
        }
    }
}

/// Trimming a trimmed text changes nothing.
pub proof fn lemma_trim_idempotent(s: Seq<u8>)
    ensures
        trim(trim(s)) == trim(s),
{
    lemma_trim_start_done(s);
    lemma_trim_end_done(trim_start(s));
    lemma_trim_nothing(trim(s));
}

/// White space around a color text does not matter: the text parses as its
/// trimmed form does.
pub proof fn lemma_parse_ignores_outer_space(s: Seq<u8>)
    ensures
        parse_color_spec(trim(s)) == parse_color_spec(s),
{
    lemma_trim_idempotent(s);
}

/// The text of a hex digit stands for that digit.
pub proof fn lemma_hex_digit_value(n: int)
    requires
        0 <= n < 16,
    ensures
        hex_value(hex_lower(n)) == Some(n as u8),
        hex_value(hex_upper(n)) == Some(n as u8),
        is_lower_hex(hex_lower(n)),
{
}

/// The eight lower-case hex digits of a color parse back to that color.
pub proof fn lemma_hex8_round_trip(c: Color)
    ensures
        parse_hex_spec(hex8_bytes(c)) == Ok::<Color, ColorParseError>(c),
{
    let s = hex8_bytes(c);
    assert(s =~= seq![
        hex_lower(c.r as int / 16),
        hex_lower(c.r as int % 16),
        hex_lower(c.g as int / 16),
        hex_lower(c.g as int % 16),
        hex_lower(c.b as int / 16),
        hex_lower(c.b as int % 16),
        hex_lower(c.a as int / 16),
        hex_lower(c.a as int % 16),
    ]);
    lemma_hex_digit_value(c.r as int / 16);
    lemma_hex_digit_value(c.r as int % 16);
    lemma_hex_digit_value(c.g as int / 16);
    lemma_hex_digit_value(c.g as int % 16);
    lemma_hex_digit_value(c.b as int / 16);
    lemma_hex_digit_value(c.b as int % 16);
    lemma_hex_digit_value(c.a as int / 16);
    lemma_hex_digit_value(c.a as int % 16);
    assert(all_hex(s));
}

/// Two lower-case hex digits stand for a byte whose two hex digits they are.
pub proof fn lemma_hex_pair_round_trip(s: Seq<u8>, i: int)
    requires
        0 <= i,
        2 * i + 1 < s.len(),
        is_lower_hex(s[2 * i]),
        is_lower_hex(s[2 * i + 1]),
    ensures
        crate::color::model::byte_hex_lower(long_channel(s, i)) == seq![s[2 * i], s[2 * i + 1]],
{
    let h = hex_value(s[2 * i]).unwrap() as int;
    let l = hex_value(s[2 * i + 1]).unwrap() as int;
    assert(0 <= h < 16 && 0 <= l < 16);
    assert((h * 16 + l) / 16 == h && (h * 16 + l) % 16 == l);
    assert(crate::color::model::byte_hex_lower(long_channel(s, i)) =~= seq![
        s[2 * i],
        s[2 * i + 1],
    ]);
}

/// Eight lower-case hex digits parse to a color whose eight hex digits are
/// the same text.
pub proof fn lemma_hex8_text_round_trip(s: Seq<u8>)
    requires
        s.len() == 8,
        forall|i: int| 0 <= i < 8 ==> is_lower_hex(#[trigger] s[i]),
    ensures
        parse_hex_spec(s) is Ok,
        hex8_bytes(parse_hex_spec(s).unwrap()) == s,
{
    assert(all_hex(s)) by {
        assert forall|i: int| 0 <= i < s.len() implies (#[trigger] hex_value(s[i])) is Some by {
            assert(is_lower_hex(s[i]));
        }
    }
    lemma_hex_pair_round_trip(s, 0);
    lemma_hex_pair_round_trip(s, 1);
    lemma_hex_pair_round_trip(s, 2);
    lemma_hex_pair_round_trip(s, 3);
    let c = parse_hex_spec(s).unwrap();
    assert(c.r == long_channel(s, 0) && c.g == long_channel(s, 1) && c.b == long_channel(s, 2)
        && c.a == long_channel(s, 3));
    assert(hex8_bytes(c) =~= seq![s[0], s[1]] + seq![s[2], s[3]] + seq![s[4], s[5]] + seq![
        s[6],
        s[7],
    ]);
    assert(hex8_bytes(c) =~= s);
}

/// The canonical text `#RRGGBBAA` of a color parses back to that color.
pub proof fn lemma_canonical_round_trip(c: Color)
    ensures
        parse_color_spec(canonical_bytes(c)) == Ok::<Color, ColorParseError>(c),
{
    let t = canonical_bytes(c);
    let u = seq![
        hex_upper(c.r as int / 16),
        hex_upper(c.r as int % 16),
        hex_upper(c.g as int / 16),
        hex_upper(c.g as int % 16),
        hex_upper(c.b as int / 16),
        hex_upper(c.b as int % 16),
        hex_upper(c.a as int / 16),
        hex_upper(c.a as int % 16),
    ];
    assert(t =~= seq![35u8] + u);
    assert(t.skip(1) =~= u);
    lemma_hex_digit_value(c.r as int / 16);
    lemma_hex_digit_value(c.r as int % 16);
    lemma_hex_digit_value(c.g as int / 16);
    lemma_hex_digit_value(c.g as int % 16);
    lemma_hex_digit_value(c.b as int / 16);
    lemma_hex_digit_value(c.b as int % 16);
    lemma_hex_digit_value(c.a as int / 16);
    lemma_hex_digit_value(c.a as int % 16);
    assert(all_hex(u));
    assert(t[0] == 35 && t[8] == u[7] && t[7] == u[6] && t[6] == u[5]);
    lemma_trim_nothing(t);
    lemma_trim_nothing(u);
}

/// The short notation stands for the long one with each digit twice: `abc`
/// is `aabbcc`, and `abcd` is `aabbccdd`.
pub proof fn lemma_short_hex_expands(s: Seq<u8>)
    requires
        s.len() == 3 || s.len() == 4,
    ensures
        parse_hex_spec(s) == parse_hex_spec(doubled(s)),
{
    let d = doubled(s);
    if all_hex(s) {
        assert forall|i: int| 0 <= i < d.len() implies (#[trigger] hex_value(d[i])) is Some by {
            assert(hex_value(s[i / 2]) is Some);
        }
        assert(d[0] == s[0] && d[1] == s[0] && d[2] == s[1] && d[3] == s[1] && d[4] == s[2] && d[5]
            == s[2]);
        if s.len() == 4 {
            assert(d[6] == s[3] && d[7] == s[3]);
        }
    } else {
        let i = choose|i: int| 0 <= i < s.len() && !((#[trigger] hex_value(s[i])) is Some);
        assert(d[2 * i] == s[i]);
        assert(!(hex_value(d[2 * i]) is Some));
    }
}

/// `#abc` parses to the same color as `#aabbcc`, and `#abcd` to the same as
/// `#aabbccdd`.
pub proof fn lemma_short_color_expands(s: Seq<u8>)
    requires
        s.len() == 3 || s.len() == 4,
        all_hex(s),
    ensures
        parse_color_spec(seq![35u8] + s) == parse_color_spec(seq![35u8] + doubled(s)),
{
    let d = doubled(s);
    let t = seq![35u8] + s;
    let u = seq![35u8] + d;
    assert(t.skip(1) =~= s);
    assert(u.skip(1) =~= d);
    assert(hex_value(s[0]) is Some);
    assert(hex_value(s[s.len() - 1]) is Some);
    assert(d[0] == s[0]);
    assert(d[d.len() - 1] == s[s.len() - 1]);
    assert(t[0] == 35 && t[t.len() - 1] == s[s.len() - 1]);
    assert(u[0] == 35 && u[u.len() - 1] == d[d.len() - 1]);
    lemma_trim_nothing(t);
    lemma_trim_nothing(u);
    lemma_trim_nothing(s);
    lemma_trim_nothing(d);
    lemma_short_hex_expands(s);
}

impl TryFrom<&str> for Color {
    type Error = ColorParseError;

    fn try_from(value: &str) -> (res: Result<Color, ColorParseError>) {
        parse_color(value)
    }
}

impl vstd::std_specs::convert::TryFromSpecImpl<&str> for Color {
    open spec fn obeys_try_from_spec() -> bool {
        true
    }

    open spec fn try_from_spec(value: &str) -> Result<Color, ColorParseError> {
        parse_color_spec(value.spec_bytes())
    }
}

impl core::str::FromStr for Color {
    type Err = ColorParseError;

    /// Parses a color text, as [`parse_color`] does.
    fn from_str(s: &str) -> (res: Result<Color, ColorParseError>)
        ensures
            res == parse_color_spec(s.spec_bytes()),
    {
        parse_color(s)
    }
}

} // verus!
