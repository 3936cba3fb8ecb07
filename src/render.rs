use vstd::prelude::*;

use crate::colors::{reduce_hex, swatch_hex, swatch_views, AcoError, RawColorV2, SwatchView};
use crate::stylesheet::{custom_property_text, flat_rule_text, slug_of, variable_text};

verus! {

/// The three stylesheets rendered from one palette.
#[derive(Debug)]
pub struct Stylesheets {
    /// One flat rule per swatch, each followed by a newline.
    pub flat: String,
    /// One preprocessor variable per swatch, each followed by a newline.
    pub variables: String,
    /// A `:root` block with one custom property per swatch.
    pub custom_properties: String,
}

/// Whether every swatch has a hexadecimal rendering rule.
pub open spec fn all_renderable(ws: Seq<SwatchView>) -> bool {
    forall|i: int| 0 <= i < ws.len() ==> (#[trigger] swatch_hex(ws[i])) is Some
}

/// The 8-bit web color of a renderable swatch.
pub open spec fn web_hex(w: SwatchView) -> Seq<char> {
    reduce_hex(swatch_hex(w).unwrap())
}

/// The flat-rule stylesheet of a palette.
pub open spec fn flat_sheet(ws: Seq<SwatchView>) -> Seq<char>
    decreases ws.len(),
{
    if ws.len() == 0 {
        seq![]
    } else {
        flat_sheet(ws.drop_last()) + flat_rule_text(slug_of(ws.last().name, "_"@), web_hex(ws.last()))
            + "\n"@
    }
}

/// The variable stylesheet of a palette.
pub open spec fn variables_sheet(ws: Seq<SwatchView>) -> Seq<char>
    decreases ws.len(),
{
    if ws.len() == 0 {
        seq![]
    } else {
        variables_sheet(ws.drop_last()) + variable_text(slug_of(ws.last().name, "_"@), web_hex(ws.last()))
            + "\n"@
    }
}

/// The custom properties of a palette, one line each.
pub open spec fn custom_properties_body(ws: Seq<SwatchView>) -> Seq<char>
    decreases ws.len(),
{
    if ws.len() == 0 {
        seq![]
    } else {
        custom_properties_body(ws.drop_last()) + custom_property_text(
            slug_of(ws.last().name, "-"@),
            web_hex(ws.last()),
        ) + "\n"@
    }
}

/// The custom-property stylesheet of a palette: its properties in a `:root` block.
pub open spec fn custom_properties_sheet(ws: Seq<SwatchView>) -> Seq<char> {
    ":root {\n"@ + custom_properties_body(ws) + "\n}"@
}

/// Renders a decoded palette as the three stylesheets. Rendering is all or
/// nothing: one swatch without a hexadecimal rule fails the whole palette.
pub fn render(records: &Vec<RawColorV2>) -> (r: Result<Stylesheets, AcoError>)
    ensures
        all_renderable(swatch_views(records@)) ==> {
            &&& r is Ok
            &&& r->Ok_0.flat@ == flat_sheet(swatch_views(records@))
            &&& r->Ok_0.variables@ == variables_sheet(swatch_views(records@))
            &&& r->Ok_0.custom_properties@ == custom_properties_sheet(swatch_views(records@))
        },
        !all_renderable(swatch_views(records@)) ==> r == Err::<Stylesheets, AcoError>(
            AcoError::UnsupportedColorSpace,
        ),
{
    let ghost ws = swatch_views(records@);
    let mut flat = String::new();
    let mut variables = String::new();
    let mut custom = String::new();
    let mut i: usize = 0;
    while i < records.len()
        invariant
            ws == swatch_views(records@),
            i <= records.len(),
            all_renderable(ws.subrange(0, i as int)),
            flat@ == flat_sheet(ws.subrange(0, i as int)),
            variables@ == variables_sheet(ws.subrange(0, i as int)),
            custom@ == custom_properties_body(ws.subrange(0, i as int)),
        decreases records.len() - i,
    {
        assert(ws[i as int] == records@[i as int]@);
        let hc = match records[i].to_hex_color() {
            Ok(h) => h,
            Err(e) => {
                assert(!(swatch_hex(ws[i as int]) is Some));
                return Err(e);
            },
        };
        let line = hc.to_css();
        flat.append(line.as_str());
        flat.append("\n");
        let line = hc.to_scss();
        variables.append(line.as_str());
        variables.append("\n");
        let line = hc.to_css_variables();
        custom.append(line.as_str());
        custom.append("\n");
        let ghost next = ws.subrange(0, i + 1);
        assert(next.drop_last() =~= ws.subrange(0, i as int));
        assert(next.last() == ws[i as int]);
        assert forall|j: int| 0 <= j < next.len() implies (#[trigger] swatch_hex(next[j])) is Some by {
            if j < i {
                assert(next[j] == ws.subrange(0, i as int)[j]);
            }
        }
        i = i + 1;
    }
    assert(ws.subrange(0, i as int) =~= ws);
    let mut custom_properties = String::from_str(":root {\n");
    custom_properties.append(custom.as_str());
    custom_properties.append("\n}");
    Ok(Stylesheets { flat, variables, custom_properties })
}

} // verus!
