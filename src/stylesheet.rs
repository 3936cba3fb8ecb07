use vstd::prelude::*;

use crate::colors::{reduce_hex, HexColor};

verus! {

/// The lowercase form of a text, as Unicode defines it.
pub uninterp spec fn lower_of(s: Seq<char>) -> Seq<char>;

/// Relies on `str::to_lowercase`: the lowercase equivalent of the text,
/// which depends on its characters alone.
#[verifier::external_body]
fn lowercase(s: &str) -> (r: String)
    ensures
        r@ == lower_of(s@),
{
    s.to_lowercase()
}

/// The text with every space replaced by `sep`.
pub open spec fn replace_spaces(s: Seq<char>, sep: Seq<char>) -> Seq<char>
    decreases s.len(),
{
    if s.len() == 0 {
        seq![]
    } else {
        replace_spaces(s.drop_last(), sep) + if s.last() == ' ' {
            sep
        } else {
            seq![s.last()]
        }
    }
}

/// The slug of a swatch name: lowercase, with spaces replaced by `sep`.
pub open spec fn slug_of(name: Seq<char>, sep: Seq<char>) -> Seq<char> {
    replace_spaces(lower_of(name), sep)
}

/// Replaces every space of an already lowercased name by `sep`.
pub fn slugify(lowered: &str, sep: &str) -> (r: String)
    ensures
        r@ == replace_spaces(lowered@, sep@),
{
    let n = lowered.unicode_len();
    let mut out = String::new();
    let mut i: usize = 0;
    while i < n
        invariant
            n == lowered@.len(),
            i <= n,
            out@ == replace_spaces(lowered@.subrange(0, i as int), sep@),
        decreases n - i,
    {
        let c = lowered.get_char(i);
        if c == ' ' {
            out.append(sep);
        } else {
            out.append(lowered.substring_char(i, i + 1));
        }
        assert(lowered@.subrange(0, i + 1).drop_last() =~= lowered@.subrange(0, i as int));
        assert(lowered@.subrange(i as int, i + 1) =~= seq![c]);
        i = i + 1;
    }
    assert(lowered@.subrange(0, n as int) =~= lowered@);
    out
}

/// The slug of a swatch name: lowercase, with spaces replaced by `sep`.
pub fn slug(name: &str, sep: &str) -> (r: String)
    ensures
        r@ == slug_of(name@, sep@),
{
    let lowered = lowercase(name);
    slugify(lowered.as_str(), sep)
}

/// `.{slug} {` / `    background: #{hex};` / `}`
pub open spec fn flat_rule_text(slug: Seq<char>, hex: Seq<char>) -> Seq<char> {
    "."@ + slug + " {\n    background: #"@ + hex + ";\n}"@
}

/// `${slug}:    #{hex};`
pub open spec fn variable_text(slug: Seq<char>, hex: Seq<char>) -> Seq<char> {
    "$"@ + slug + ":    #"@ + hex + ";"@
}

/// `    --{slug}:    #{hex};`
pub open spec fn custom_property_text(slug: Seq<char>, hex: Seq<char>) -> Seq<char> {
    "    --"@ + slug + ":    #"@ + hex + ";"@
}

/// A flat rule that sets the background of class `slug` to `#hex`.
pub fn flat_rule(slug: &str, hex: &str) -> (r: String)
    ensures
        r@ == flat_rule_text(slug@, hex@),
{
    let mut out = String::from_str(".");
    out.append(slug);
    out.append(" {\n    background: #");
    out.append(hex);
    out.append(";\n}");
    out
}

/// A preprocessor variable `slug` holding `#hex`.
pub fn variable(slug: &str, hex: &str) -> (r: String)
    ensures
        r@ == variable_text(slug@, hex@),
{
    let mut out = String::from_str("$");
    out.append(slug);
    out.append(":    #");
    out.append(hex);
    out.append(";");
    out
}

/// A custom property `--slug` holding `#hex`, indented for a `:root` block.
pub fn custom_property(slug: &str, hex: &str) -> (r: String)
    ensures
        r@ == custom_property_text(slug@, hex@),
{
    let mut out = String::from_str("    --");
    out.append(slug);
    out.append(":    #");
    out.append(hex);
    out.append(";");
    out
}

impl HexColor {
    /// This color as a flat rule.
    pub fn to_css(&self) -> (r: String)
        ensures
            r@ == flat_rule_text(slug_of(self.name@, "_"@), reduce_hex(self.color_hex@)),
    {
        let s = slug(self.name.as_str(), "_");
        let hex = self.web_color();
        flat_rule(s.as_str(), hex.as_str())
    }

    /// This color as a preprocessor variable.
    pub fn to_scss(&self) -> (r: String)
        ensures
            r@ == variable_text(slug_of(self.name@, "_"@), reduce_hex(self.color_hex@)),
    {
        let s = slug(self.name.as_str(), "_");
        let hex = self.web_color();
        variable(s.as_str(), hex.as_str())
    }

    /// This color as a custom property.
    pub fn to_css_variables(&self) -> (r: String)
        ensures
            r@ == custom_property_text(slug_of(self.name@, "-"@), reduce_hex(self.color_hex@)),
    {
        let s = slug(self.name.as_str(), "-");
        let hex = self.web_color();
        custom_property(s.as_str(), hex.as_str())
    }
}

} // verus!
