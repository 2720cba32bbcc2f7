//! The color value type, its byte interchange forms and its hex text.

use vstd::prelude::*;
use vstd::string::StringExecFns;
use vstd::string::StringSliceAdditionalSpecFns;

verus! {

/// The sixteen W3C blend modes: twelve separable ones, which treat each
/// channel alone, and four non-separable ones, which treat a color as a whole.
#[derive(Clone, Copy, Debug, PartialEq, Eq, Hash, Structural)]
pub enum BlendMode {
    Normal,
    Multiply,
    Screen,
    Overlay,
    Darken,
    Lighten,
    ColorDodge,
    ColorBurn,
    HardLight,
    SoftLight,
    Difference,
    Exclusion,
    Hue,
    Saturation,
    Color,
    Luminosity,
}

/// An sRGB color with straight alpha, eight bits per channel.
///
/// The channel values are always encoded (gamma-compressed) sRGB. Alpha 0 is
/// fully transparent.
#[derive(Clone, Copy, Debug, PartialEq, Eq, Hash, Structural)]
pub struct Color {
    pub r: u8,
    pub g: u8,
    pub b: u8,
    pub a: u8,
}

/// The ASCII code of hex digit `n`, lower case.
pub open spec fn hex_lower(n: int) -> u8 {
    if n < 10 {
        (48 + n) as u8
    } else {
        (87 + n) as u8
    }
}

/// The ASCII code of hex digit `n`, upper case.
pub open spec fn hex_upper(n: int) -> u8 {
    if n < 10 {
        (48 + n) as u8
    } else {
        (55 + n) as u8
    }
}

/// The two lower-case hex digits of a byte.
pub open spec fn byte_hex_lower(v: u8) -> Seq<u8> {
    seq![hex_lower(v as int / 16), hex_lower(v as int % 16)]
}

/// The two upper-case hex digits of a byte.
pub open spec fn byte_hex_upper(v: u8) -> Seq<u8> {
    seq![hex_upper(v as int / 16), hex_upper(v as int % 16)]
}

/// `rrggbb` in lower case.
pub open spec fn hex6_bytes(c: Color) -> Seq<u8> {
    byte_hex_lower(c.r) + byte_hex_lower(c.g) + byte_hex_lower(c.b)
}

/// `rrggbbaa` in lower case.
pub open spec fn hex8_bytes(c: Color) -> Seq<u8> {
    hex6_bytes(c) + byte_hex_lower(c.a)
}

/// `#RRGGBBAA` in upper case: the canonical text of a color.
pub open spec fn canonical_bytes(c: Color) -> Seq<u8> {
    seq![35u8] + byte_hex_upper(c.r) + byte_hex_upper(c.g) + byte_hex_upper(c.b) + byte_hex_upper(
        c.a,
    )
}

/// The text whose characters are the given ASCII codes.
pub open spec fn ascii_text(bytes: Seq<u8>) -> Seq<char> {
    Seq::new(bytes.len(), |i: int| bytes[i] as char)
}

/// A text of ASCII characters is encoded by their codes: the bytes of
/// `ascii_text(bytes)` are `bytes`.
pub proof fn lemma_ascii_text_bytes(s: &str, bytes: Seq<u8>)
    requires
        s@ == ascii_text(bytes),
        forall|i: int| 0 <= i < bytes.len() ==> (#[trigger] bytes[i]) < 128,
    ensures
        s.spec_bytes() == bytes,
{
    assert(vstd::string::is_ascii(s)) by {
        assert forall|i: int| 0 <= i < s@.len() implies '\0' <= #[trigger] s@[i] <= '\u{7f}' by {
            assert(s@[i] == bytes[i] as char);
        }
    }
    vstd::string::is_ascii_spec_bytes(s);
    assert(s.spec_bytes() =~= bytes);
}

/// The hex texts of a color consist of ASCII characters.
pub proof fn lemma_hex_bytes_ascii(c: Color)
    ensures
        forall|i: int| 0 <= i < hex6_bytes(c).len() ==> (#[trigger] hex6_bytes(c)[i]) < 128,
        forall|i: int| 0 <= i < hex8_bytes(c).len() ==> (#[trigger] hex8_bytes(c)[i]) < 128,
        forall|i: int|
            0 <= i < canonical_bytes(c).len() ==> (#[trigger] canonical_bytes(c)[i]) < 128,
{
}

/// One lower-case hex digit as text.
fn hex_lower_str(n: u8) -> (s: &'static str)
    requires
        n < 16,
    ensures
        s@ == seq![hex_lower(n as int) as char],
{
    proof {
        reveal_strlit("0");
        reveal_strlit("1");
        reveal_strlit("2");
        reveal_strlit("3");
        reveal_strlit("4");
        reveal_strlit("5");
        reveal_strlit("6");
        reveal_strlit("7");
        reveal_strlit("8");
        reveal_strlit("9");
        reveal_strlit("a");
        reveal_strlit("b");
        reveal_strlit("c");
        reveal_strlit("d");
        reveal_strlit("e");
        reveal_strlit("f");
    }
    let s = match n {
        0 => "0",
        1 => "1",
        2 => "2",
        3 => "3",
        4 => "4",
        5 => "5",
        6 => "6",
        7 => "7",
        8 => "8",
        9 => "9",
        10 => "a",
        11 => "b",
        12 => "c",
        13 => "d",
        14 => "e",
        _ => "f",
    };
    assert(s@ =~= seq![hex_lower(n as int) as char]);
    s
}

/// One upper-case hex digit as text.
fn hex_upper_str(n: u8) -> (s: &'static str)
    requires
        n < 16,
    ensures
        s@ == seq![hex_upper(n as int) as char],
{
    proof {
        reveal_strlit("0");
        reveal_strlit("1");
        reveal_strlit("2");
        reveal_strlit("3");
        reveal_strlit("4");
        reveal_strlit("5");
        reveal_strlit("6");
        reveal_strlit("7");
        reveal_strlit("8");
        reveal_strlit("9");
        reveal_strlit("A");
        reveal_strlit("B");
        reveal_strlit("C");
        reveal_strlit("D");
        reveal_strlit("E");
        reveal_strlit("F");
    }
    let s = match n {
        0 => "0",
        1 => "1",
        2 => "2",
        3 => "3",
        4 => "4",
        5 => "5",
        6 => "6",
        7 => "7",
        8 => "8",
        9 => "9",
        10 => "A",
        11 => "B",
        12 => "C",
        13 => "D",
        14 => "E",
        _ => "F",
    };
    assert(s@ =~= seq![hex_upper(n as int) as char]);
    s
}

/// Appends the two lower-case hex digits of `v` to `out`.
fn push_byte_lower(out: &mut String, v: u8)
    ensures
        final(out)@ == old(out)@ + ascii_text(byte_hex_lower(v)),
{
    let ghost before = out@;
    out.append(hex_lower_str(v / 16));
    out.append(hex_lower_str(v % 16));
    assert(out@ =~= before + ascii_text(byte_hex_lower(v)));
}

/// Appends the two upper-case hex digits of `v` to `out`.
fn push_byte_upper(out: &mut String, v: u8)
    ensures
        final(out)@ == old(out)@ + ascii_text(byte_hex_upper(v)),
{
    let ghost before = out@;
    out.append(hex_upper_str(v / 16));
    out.append(hex_upper_str(v % 16));
    assert(out@ =~= before + ascii_text(byte_hex_upper(v)));
}

impl Color {
    /// The color with the given channels.
    pub fn new(r: u8, g: u8, b: u8, a: u8) -> (c: Color)
        ensures
            c == (Color { r, g, b, a }),
    {
        Color { r, g, b, a }
    }

    /// Fully transparent black.
    pub fn transparent() -> (c: Color)
        ensures
            c == (Color { r: 0, g: 0, b: 0, a: 0 }),
    {
        Color { r: 0, g: 0, b: 0, a: 0 }
    }

    /// Opaque black.
    pub fn black() -> (c: Color)
        ensures
            c == (Color { r: 0, g: 0, b: 0, a: 255 }),
    {
        Color { r: 0, g: 0, b: 0, a: 255 }
    }

    /// Opaque red.
    pub fn red() -> (c: Color)
        ensures
            c == (Color { r: 255, g: 0, b: 0, a: 255 }),
    {
        Color { r: 255, g: 0, b: 0, a: 255 }
    }

    /// Opaque green.
    pub fn green() -> (c: Color)
        ensures
            c == (Color { r: 0, g: 255, b: 0, a: 255 }),
    {
        Color { r: 0, g: 255, b: 0, a: 255 }
    }

    /// Opaque blue.
    pub fn blue() -> (c: Color)
        ensures
            c == (Color { r: 0, g: 0, b: 255, a: 255 }),
    {
        Color { r: 0, g: 0, b: 255, a: 255 }
    }

    /// Opaque white.
    pub fn white() -> (c: Color)
        ensures
            c == (Color { r: 255, g: 255, b: 255, a: 255 }),
    {
        Color { r: 255, g: 255, b: 255, a: 255 }
    }

    /// The same color with alpha `a`.
    pub fn with_alpha(self, a: u8) -> (c: Color)
        ensures
            c == (Color { r: self.r, g: self.g, b: self.b, a }),
    {
        Color { r: self.r, g: self.g, b: self.b, a }
    }

    /// The opaque color with the given red, green and blue.
    pub fn from_rgb(rgb: [u8; 3]) -> (c: Color)
        ensures
            c == (Color { r: rgb[0], g: rgb[1], b: rgb[2], a: 255 }),
    {
        Color { r: rgb[0], g: rgb[1], b: rgb[2], a: 255 }
    }

    /// Red, green and blue, in this order.
    pub fn into_rgb(self) -> (rgb: [u8; 3])
        ensures
            rgb@ == seq![self.r, self.g, self.b],
    {
        let rgb = [self.r, self.g, self.b];
        assert(rgb@ =~= seq![self.r, self.g, self.b]);
        rgb
    }

    /// The color with the given red, green, blue and alpha.
    pub fn from_rgba(rgba: [u8; 4]) -> (c: Color)
        ensures
            c == (Color { r: rgba[0], g: rgba[1], b: rgba[2], a: rgba[3] }),
    {
        Color { r: rgba[0], g: rgba[1], b: rgba[2], a: rgba[3] }
    }

    /// Red, green, blue and alpha, in this order.
    pub fn into_rgba(self) -> (rgba: [u8; 4])
        ensures
            rgba@ == seq![self.r, self.g, self.b, self.a],
    {
        let rgba = [self.r, self.g, self.b, self.a];
        assert(rgba@ =~= seq![self.r, self.g, self.b, self.a]);
        rgba
    }

    /// The six hex digits `rrggbb`, lower case, without alpha.
    pub fn into_hex6(self) -> (s: String)
        ensures
            s@ == ascii_text(hex6_bytes(self)),
    {
        let mut s = String::new();
        push_byte_lower(&mut s, self.r);
        push_byte_lower(&mut s, self.g);
        push_byte_lower(&mut s, self.b);
        assert(s@ =~= ascii_text(hex6_bytes(self)));
        s
    }

    /// The eight hex digits `rrggbbaa`, lower case.
    pub fn into_hex8(self) -> (s: String)
        ensures
            s@ == ascii_text(hex8_bytes(self)),
    {
        let mut s = String::new();
        push_byte_lower(&mut s, self.r);
        push_byte_lower(&mut s, self.g);
        push_byte_lower(&mut s, self.b);
        push_byte_lower(&mut s, self.a);
        assert(s@ =~= ascii_text(hex8_bytes(self)));
        s
    }

    /// The canonical text `#RRGGBBAA`: upper case, alpha always included.
    pub fn to_string(&self) -> (s: String)
        ensures
            s@ == ascii_text(canonical_bytes(*self)),
    {
        proof {
            reveal_strlit("#");
        }
        let mut s = String::from_str("#");
        push_byte_upper(&mut s, self.r);
        push_byte_upper(&mut s, self.g);
        push_byte_upper(&mut s, self.b);
        push_byte_upper(&mut s, self.a);
        assert(s@ =~= ascii_text(canonical_bytes(*self)));
        s
    }
}

impl Default for Color {
    /// Opaque black.
    fn default() -> (c: Color)
        ensures
            c == (Color { r: 0, g: 0, b: 0, a: 255 }),
    {
        Color { r: 0, g: 0, b: 0, a: 255 }
    }
}

} // verus!
