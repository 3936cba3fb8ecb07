use vstd::prelude::*;

verus! {

/// The interpretation scheme of a swatch's components, with the numeric codes
/// used on the wire. Code 9 is not assigned.
#[allow(clippy::upper_case_acronyms)]
#[derive(Debug, Clone, Copy, PartialEq, Eq, Structural)]
pub enum ColorSpace {
    RGB,
    HSB,
    CMYK,
    PANTONE,
    FOCOLTONE,
    TRUMATCH,
    TOYO,
    LAB,
    GRAYSCALE,
    HKS,
}

/// Everything that can go wrong while decoding a palette or rendering it.
#[derive(Debug, Clone, Copy, PartialEq, Eq, Structural)]
pub enum AcoError {
    /// The byte stream ended before an expected field.
    TruncatedInput,
    /// A version tag differs from the literal expected at its place.
    UnsupportedVersion,
    /// A color-space code outside the closed enumeration.
    UnknownColorSpace,
    /// A known color space without a hexadecimal rendering rule.
    UnsupportedColorSpace,
    /// A name payload that is not valid UTF-8 once its NUL bytes are removed.
    InvalidTextEncoding,
}

/// The wire code of a color space.
pub open spec fn space_code(cs: ColorSpace) -> u16 {
    match cs {
        ColorSpace::RGB => 0,
        ColorSpace::HSB => 1,
        ColorSpace::CMYK => 2,
        ColorSpace::PANTONE => 3,
        ColorSpace::FOCOLTONE => 4,
        ColorSpace::TRUMATCH => 5,
        ColorSpace::TOYO => 6,
        ColorSpace::LAB => 7,
        ColorSpace::GRAYSCALE => 8,
        ColorSpace::HKS => 10,
    }
}

/// The color space that a wire code stands for, if any.
pub open spec fn space_of_code(code: u16) -> Option<ColorSpace> {
    if code == 0 {
        Some(ColorSpace::RGB)
    } else if code == 1 {
        Some(ColorSpace::HSB)
    } else if code == 2 {
        Some(ColorSpace::CMYK)
    } else if code == 3 {
        Some(ColorSpace::PANTONE)
    } else if code == 4 {
        Some(ColorSpace::FOCOLTONE)
    } else if code == 5 {
        Some(ColorSpace::TRUMATCH)
    } else if code == 6 {
        Some(ColorSpace::TOYO)
    } else if code == 7 {
        Some(ColorSpace::LAB)
    } else if code == 8 {
        Some(ColorSpace::GRAYSCALE)
    } else if code == 10 {
        Some(ColorSpace::HKS)
    } else {
        None
    }
}

impl ColorSpace {
    /// The color space with the given wire code; `None` for an unassigned code.
    pub fn from_u16(value: u16) -> (r: Option<ColorSpace>)
        ensures
            r == space_of_code(value),
    {
        match value {
            0 => Some(ColorSpace::RGB),
            1 => Some(ColorSpace::HSB),
            2 => Some(ColorSpace::CMYK),
            3 => Some(ColorSpace::PANTONE),
            4 => Some(ColorSpace::FOCOLTONE),
            5 => Some(ColorSpace::TRUMATCH),
            6 => Some(ColorSpace::TOYO),
            7 => Some(ColorSpace::LAB),
            8 => Some(ColorSpace::GRAYSCALE),
            10 => Some(ColorSpace::HKS),
            _ => None,
        }
    }

    /// The wire code of this color space.
    pub fn as_u16(&self) -> (r: u16)
        ensures
            r == space_code(*self),
    {
        match self {
            ColorSpace::RGB => 0,
            ColorSpace::HSB => 1,
            ColorSpace::CMYK => 2,
            ColorSpace::PANTONE => 3,
            ColorSpace::FOCOLTONE => 4,
            ColorSpace::TRUMATCH => 5,
            ColorSpace::TOYO => 6,
            ColorSpace::LAB => 7,
            ColorSpace::GRAYSCALE => 8,
            ColorSpace::HKS => 10,
        }
    }
}


/// The sixteen uppercase hexadecimal digits, in order of value.
pub open spec fn hex_alphabet() -> Seq<char> {
    seq!['0', '1', '2', '3', '4', '5', '6', '7', '8', '9', 'A', 'B', 'C', 'D', 'E', 'F']
}

/// A byte as two uppercase hexadecimal digits.
pub open spec fn hex2(b: int) -> Seq<char> {
    seq![hex_alphabet()[b / 16], hex_alphabet()[b % 16]]
}

/// A 16-bit value as four uppercase hexadecimal digits, zero-padded.
pub open spec fn hex4(v: u16) -> Seq<char> {
    hex2(v as int / 256) + hex2(v as int % 256)
}

/// The number of meaningful components of a color space that has a
/// hexadecimal rendering rule.
pub open spec fn component_count(cs: ColorSpace) -> Option<nat> {
    match cs {
        ColorSpace::RGB | ColorSpace::HSB => Some(3),
        ColorSpace::CMYK => Some(4),
        ColorSpace::GRAYSCALE => Some(1),
        _ => None,
    }
}

/// The canonical hexadecimal form of a color: each meaningful component as
/// four uppercase digits, in order; `None` where no rule is defined.
pub open spec fn color_hex(cs: ColorSpace, c1: u16, c2: u16, c3: u16, c4: u16) -> Option<Seq<char>> {
    match cs {
        ColorSpace::RGB | ColorSpace::HSB => Some(hex4(c1) + hex4(c2) + hex4(c3)),
        ColorSpace::CMYK => Some(hex4(c1) + hex4(c2) + hex4(c3) + hex4(c4)),
        ColorSpace::GRAYSCALE => Some(hex4(c1)),
        _ => None,
    }
}

/// The 8-bit web color of a 16-bit hexadecimal color: the leading two digits
/// of each complete four-digit group (a truncation, not a rounding).
pub open spec fn reduce_hex(h: Seq<char>) -> Seq<char> {
    Seq::new(((h.len() / 4) * 2) as nat, |i: int| h[(i / 2) * 4 + i % 2])
}

/// Appends one hexadecimal digit.
fn push_hex_digit(out: &mut String, d: u8)
    requires
        d < 16,
    ensures
        final(out)@ == old(out)@.push(hex_alphabet()[d as int]),
{
    let digits = "0123456789ABCDEF";
    proof {
        reveal_strlit("0123456789ABCDEF");
    }
    assert(digits@ =~= hex_alphabet());
    let one = digits.substring_char(d as usize, d as usize + 1);
    assert(one@ =~= seq![hex_alphabet()[d as int]]);
    out.append(one);
}

/// Appends a byte as two hexadecimal digits.
fn push_hex2(out: &mut String, b: u8)
    ensures
        final(out)@ == old(out)@ + hex2(b as int),
{
    push_hex_digit(out, b / 16);
    push_hex_digit(out, b % 16);
    assert(final(out)@ =~= old(out)@ + hex2(b as int));
}

/// Appends a 16-bit value as four hexadecimal digits.
fn push_hex4(out: &mut String, v: u16)
    ensures
        final(out)@ == old(out)@ + hex4(v),
{
    push_hex2(out, (v / 256) as u8);
    push_hex2(out, (v % 256) as u8);
    assert(final(out)@ =~= old(out)@ + hex4(v));
}

/// The canonical hexadecimal form of a color in the given space.
fn components_hex(cs: ColorSpace, c1: u16, c2: u16, c3: u16, c4: u16) -> (r: Result<String, AcoError>)
    ensures
        match color_hex(cs, c1, c2, c3, c4) {
            Some(h) => r is Ok && r->Ok_0@ == h,
            None => r == Err::<String, AcoError>(AcoError::UnsupportedColorSpace),
        },
{
    let mut out = String::new();
    match cs {
        ColorSpace::RGB | ColorSpace::HSB => {
            push_hex4(&mut out, c1);
            push_hex4(&mut out, c2);
            push_hex4(&mut out, c3);
        },
        ColorSpace::CMYK => {
            push_hex4(&mut out, c1);
            push_hex4(&mut out, c2);
            push_hex4(&mut out, c3);
            push_hex4(&mut out, c4);
        },
        ColorSpace::GRAYSCALE => {
            push_hex4(&mut out, c1);
        },
        _ => {
            return Err(AcoError::UnsupportedColorSpace);
        },
    }
    assert(out@ =~= color_hex(cs, c1, c2, c3, c4).unwrap());
    Ok(out)
}


/// `reduce_hex` takes the leading byte of the first four-digit group and goes
/// on with the rest.
pub proof fn lemma_reduce_hex_group(v: u16, rest: Seq<char>)
    ensures
        reduce_hex(hex4(v) + rest) == hex2(v as int / 256) + reduce_hex(rest),
{
    let h = hex4(v) + rest;
    let lhs = reduce_hex(h);
    let rhs = hex2(v as int / 256) + reduce_hex(rest);
    assert((h.len() / 4) * 2 == 2 + (rest.len() / 4) * 2);
    assert forall|i: int| 0 <= i < lhs.len() implies lhs[i] == rhs[i] by {
        if i >= 2 {
            let j = i - 2;
            assert((i / 2) * 4 + i % 2 == 4 + ((j / 2) * 4 + j % 2));
        }
    }
    assert(lhs =~= rhs);
}

/// The 8-bit web color of three 16-bit channels is the leading byte of each.
pub proof fn lemma_reduce_three_channels(a: u16, b: u16, c: u16)
    ensures
        reduce_hex(hex4(a) + hex4(b) + hex4(c)) == hex2(a as int / 256) + hex2(b as int / 256) + hex2(
            c as int / 256,
        ),
{
    let empty = Seq::<char>::empty();
    assert(hex4(a) + hex4(b) + hex4(c) =~= hex4(a) + (hex4(b) + (hex4(c) + empty)));
    lemma_reduce_hex_group(c, empty);
    lemma_reduce_hex_group(b, hex4(c) + empty);
    lemma_reduce_hex_group(a, hex4(b) + (hex4(c) + empty));
    assert(reduce_hex(empty) =~= empty);
    assert(hex2(a as int / 256) + (hex2(b as int / 256) + (hex2(c as int / 256) + empty)) =~= hex2(
        a as int / 256,
    ) + hex2(b as int / 256) + hex2(c as int / 256));
}

/// The 8-bit web color of three 16-bit channels.
pub open spec fn web_rgb(c1: u16, c2: u16, c3: u16) -> Seq<char> {
    reduce_hex(hex4(c1) + hex4(c2) + hex4(c3))
}

/// Appends the web color of three channels: the leading byte of each.
fn push_web_rgb(out: &mut String, c1: u16, c2: u16, c3: u16)
    ensures
        final(out)@ == old(out)@ + web_rgb(c1, c2, c3),
{
    push_hex2(out, (c1 / 256) as u8);
    push_hex2(out, (c2 / 256) as u8);
    push_hex2(out, (c3 / 256) as u8);
    proof {
        lemma_reduce_three_channels(c1, c2, c3);
    }
    assert(final(out)@ =~= old(out)@ + web_rgb(c1, c2, c3));
}

/// A legacy (version-1) swatch: a color without a name.
#[derive(Debug)]
pub struct RawColorV1 {
    pub color_space: ColorSpace,
    pub component_1: u16,
    pub component_2: u16,
    pub component_3: u16,
    pub component_4: u16,
}

impl RawColorV1 {
    /// The canonical hexadecimal form of this color.
    pub fn to_hex(&self) -> (r: Result<String, AcoError>)
        ensures
            match color_hex(
                self.color_space,
                self.component_1,
                self.component_2,
                self.component_3,
                self.component_4,
            ) {
                Some(h) => r is Ok && r->Ok_0@ == h,
                None => r == Err::<String, AcoError>(AcoError::UnsupportedColorSpace),
            },
    {
        components_hex(
            self.color_space,
            self.component_1,
            self.component_2,
            self.component_3,
            self.component_4,
        )
    }
}

/// The mathematical content of a named swatch.
pub struct SwatchView {
    pub color_space: ColorSpace,
    pub component_1: u16,
    pub component_2: u16,
    pub component_3: u16,
    pub component_4: u16,
    pub name: Seq<char>,
}

/// The canonical hexadecimal form of a swatch, if its color space has a rule.
pub open spec fn swatch_hex(w: SwatchView) -> Option<Seq<char>> {
    color_hex(w.color_space, w.component_1, w.component_2, w.component_3, w.component_4)
}

/// A version-2 swatch: a color with a name.
#[derive(Debug)]
pub struct RawColorV2 {
    pub name: String,
    pub color_space: ColorSpace,
    pub component_1: u16,
    pub component_2: u16,
    pub component_3: u16,
    pub component_4: u16,
}

impl View for RawColorV2 {
    type V = SwatchView;

    open spec fn view(&self) -> SwatchView {
        SwatchView {
            color_space: self.color_space,
            component_1: self.component_1,
            component_2: self.component_2,
            component_3: self.component_3,
            component_4: self.component_4,
            name: self.name@,
        }
    }
}

/// The views of a sequence of swatches.
pub open spec fn swatch_views(v: Seq<RawColorV2>) -> Seq<SwatchView> {
    v.map_values(|x: RawColorV2| x@)
}

impl RawColorV2 {
    /// The web color of the first three channels, whatever the color space.
    pub fn to_8bit_rgb(&self) -> (r: String)
        ensures
            r@ == web_rgb(self.component_1, self.component_2, self.component_3),
    {
        let mut out = String::new();
        push_web_rgb(&mut out, self.component_1, self.component_2, self.component_3);
        assert(out@ =~= web_rgb(self.component_1, self.component_2, self.component_3));
        out
    }

    /// The web color of an HSB swatch, which is stored as three channels
    /// laid out as RGB.
    pub fn to_8bit_hsb(&self) -> (r: String)
        ensures
            r@ == web_rgb(self.component_1, self.component_2, self.component_3),
    {
        self.to_8bit_rgb()
    }

    /// The canonical hexadecimal form of this color.
    pub fn to_hex(&self) -> (r: Result<String, AcoError>)
        ensures
            match swatch_hex(self@) {
                Some(h) => r is Ok && r->Ok_0@ == h,
                None => r == Err::<String, AcoError>(AcoError::UnsupportedColorSpace),
            },
    {
        components_hex(
            self.color_space,
            self.component_1,
            self.component_2,
            self.component_3,
            self.component_4,
        )
    }

    /// The named hexadecimal form of this swatch.
    pub fn to_hex_color(&self) -> (r: Result<HexColor, AcoError>)
        ensures
            match swatch_hex(self@) {
                Some(h) => r is Ok && r->Ok_0.name@ == self.name@ && r->Ok_0.color_space
                    == self.color_space && r->Ok_0.color_hex@ == h,
                None => r == Err::<HexColor, AcoError>(AcoError::UnsupportedColorSpace),
            },
    {
        match self.to_hex() {
            Ok(color_hex) => Ok(HexColor { name: self.name.clone(), color_space: self.color_space, color_hex }),
            Err(e) => Err(e),
        }
    }
}

/// A named color in its canonical hexadecimal form, as consumed by the
/// stylesheet templates.
#[derive(Debug)]
pub struct HexColor {
    pub name: String,
    pub color_space: ColorSpace,
    pub color_hex: String,
}

impl HexColor {
    /// The 8-bit web color: the leading two digits of each four-digit group.
    pub fn web_color(&self) -> (r: String)
        ensures
            r@ == reduce_hex(self.color_hex@),
    {
        let h = self.color_hex.as_str();
        let n = h.unicode_len();
        let groups = n / 4;
        let mut out = String::new();
        let mut k: usize = 0;
        while k < groups
            invariant
                n == h@.len(),
                h@ == self.color_hex@,
                groups == n / 4,
                k <= groups,
                out@ =~= Seq::new((k * 2) as nat, |i: int| h@[(i / 2) * 4 + i % 2]),
            decreases groups - k,
        {
            let pair = h.substring_char(4 * k, 4 * k + 2);
            out.append(pair);
            assert forall|i: int| 0 <= i < (k + 1) * 2 implies #[trigger] out@[i] == h@[(i / 2) * 4 + i % 2] by {
                if i >= k * 2 {
                    assert(i / 2 == k);
                }
            }
            k = k + 1;
        }
        out
    }
}

} // verus!
