use vstd::prelude::*;
use vstd::utf8::{
    encode_utf8, encode_utf8_decode_utf8, encode_utf8_valid_utf8, is_ascii_chars,
    is_ascii_chars_encode_utf8,
};

use crate::colors::{component_count, space_code, space_of_code, swatch_hex, AcoError, ColorSpace, SwatchView};
use crate::render::all_renderable;
use crate::decode::{be16, be32, parse_palette, parse_swatch, parse_swatches, strip_nul, v2_offset};

verus! {

/// A value below 2^16 as two big-endian bytes.
pub open spec fn be16_bytes(v: int) -> Seq<u8> {
    seq![(v / 256) as u8, (v % 256) as u8]
}

/// An ASCII name as double-byte units: a NUL byte before each character.
pub open spec fn wire_name(name: Seq<char>) -> Seq<u8> {
    Seq::new(2 * name.len(), |i: int| if i % 2 == 0 { 0u8 } else { name[i / 2] as u8 })
}

/// The fixed part of a swatch's record: color-space code, four components
/// and the name length in units, all big-endian.
#[verifier::opaque]
pub open spec fn swatch_header(w: SwatchView) -> Seq<u8> {
    let code = space_code(w.color_space) as int;
    let hi = w.name.len() / 65536;
    let lo = w.name.len() % 65536;
    seq![
        (code / 256) as u8,
        (code % 256) as u8,
        (w.component_1 / 256) as u8,
        (w.component_1 % 256) as u8,
        (w.component_2 / 256) as u8,
        (w.component_2 % 256) as u8,
        (w.component_3 / 256) as u8,
        (w.component_3 % 256) as u8,
        (w.component_4 / 256) as u8,
        (w.component_4 % 256) as u8,
        (hi / 256) as u8,
        (hi % 256) as u8,
        (lo / 256) as u8,
        (lo % 256) as u8,
    ]
}

/// A swatch as a version-2 record.
pub open spec fn encode_swatch(w: SwatchView) -> Seq<u8> {
    swatch_header(w) + wire_name(w.name)
}

/// Swatches as consecutive version-2 records.
pub open spec fn encode_swatches(ws: Seq<SwatchView>) -> Seq<u8>
    decreases ws.len(),
{
    if ws.len() == 0 {
        seq![]
    } else {
        encode_swatch(ws[0]) + encode_swatches(ws.drop_first())
    }
}

/// A palette file: the given legacy records (10 bytes each), then the swatches.
pub open spec fn encode_palette(legacy: Seq<u8>, ws: Seq<SwatchView>) -> Seq<u8> {
    seq![0u8, 1u8] + be16_bytes(legacy.len() as int / 10) + legacy + seq![0u8, 2u8] + be16_bytes(ws.len() as int)
        + encode_swatches(ws)
}

/// A name that the wire format carries without loss: printable through the
/// NUL-stripping decode (ASCII, no NUL) and of a length that fits its field.
pub open spec fn encodable_name(name: Seq<char>) -> bool {
    &&& name.len() < 0x1_0000_0000
    &&& forall|i: int| 0 <= i < name.len() ==> '\0' < #[trigger] name[i] <= '\u{7f}'
}

/// Swatches that fit one palette file and whose names are encodable.
pub open spec fn encodable_swatches(ws: Seq<SwatchView>) -> bool {
    &&& ws.len() < 0x1_0000
    &&& forall|i: int| 0 <= i < ws.len() ==> encodable_name(#[trigger] ws[i].name)
}

/// Legacy records that fit one palette file.
pub open spec fn valid_legacy(legacy: Seq<u8>) -> bool {
    legacy.len() % 10 == 0 && legacy.len() / 10 < 0x1_0000
}

/// Every color space has a code, and that code maps back to it; a code that
/// maps to a color space is that space's code.
pub proof fn law_space_code_round_trip(cs: ColorSpace, code: u16)
    ensures
        space_of_code(space_code(cs)) == Some(cs),
        space_of_code(code) == Some(cs) ==> space_code(cs) == code,
{
}

proof fn lemma_strip_nul_wire_name(name: Seq<char>)
    requires
        encodable_name(name),
    ensures
        strip_nul(wire_name(name)) == encode_utf8(name),
    decreases name.len(),
{
    assert(is_ascii_chars(name));
    is_ascii_chars_encode_utf8(name);
    if name.len() == 0 {
        assert(wire_name(name) =~= Seq::<u8>::empty());
        assert(encode_utf8(name) =~= Seq::<u8>::empty());
    } else {
        let init = name.drop_last();
        let c = name.last();
        assert(encodable_name(init));
        lemma_strip_nul_wire_name(init);
        assert(is_ascii_chars(init));
        is_ascii_chars_encode_utf8(init);
        let w = wire_name(name);
        assert(w.drop_last() =~= wire_name(init).push(0u8));
        assert(w.drop_last().drop_last() =~= wire_name(init));
        assert((c as u8) != 0u8);
        assert(strip_nul(w.drop_last()) =~= strip_nul(wire_name(init)));
        assert(strip_nul(w) =~= encode_utf8(init).push(c as u8));
        assert(encode_utf8(name) =~= encode_utf8(init).push(c as u8));
    }
}

proof fn lemma_parse_encoded_swatch(p: Seq<u8>, w: SwatchView, x: Seq<u8>)
    requires
        encodable_name(w.name),
    ensures
        parse_swatch(p + encode_swatch(w) + x, p.len() as int) == Ok::<(SwatchView, int), AcoError>(
            (w, p.len() as int + encode_swatch(w).len()),
        ),
{
    let s = p + encode_swatch(w) + x;
    let pos = p.len() as int;
    let n = w.name.len() as int;
    let h = swatch_header(w);
    reveal(swatch_header);
    assert(s.subrange(pos, pos + 14) =~= h);
    assert(s.subrange(pos + 14, pos + 14 + 2 * n) =~= wire_name(w.name));
    assert forall|k: int| 0 <= k < 14 implies #[trigger] s[pos + k] == h[k] by {
        assert(s.subrange(pos, pos + 14)[k] == s[pos + k]);
    }
    assert(be16(s, pos) == space_code(w.color_space));
    assert(be16(s, pos + 2) == w.component_1);
    assert(be16(s, pos + 4) == w.component_2);
    assert(be16(s, pos + 6) == w.component_3);
    assert(be16(s, pos + 8) == w.component_4);
    assert(be16(s, pos + 10) == n / 65536);
    assert(be16(s, pos + 12) == n % 65536);
    assert(be32(s, pos + 10) == n);
    lemma_strip_nul_wire_name(w.name);
    assert(is_ascii_chars(w.name));
    encode_utf8_valid_utf8(w.name);
    encode_utf8_decode_utf8(w.name);
    law_space_code_round_trip(w.color_space, 0);
}

proof fn lemma_parse_encoded_swatches(p: Seq<u8>, ws: Seq<SwatchView>, x: Seq<u8>)
    requires
        forall|i: int| 0 <= i < ws.len() ==> encodable_name(#[trigger] ws[i].name),
    ensures
        parse_swatches(p + encode_swatches(ws) + x, p.len() as int, ws.len()) == Ok::<
            Seq<SwatchView>,
            AcoError,
        >(ws),
    decreases ws.len(),
{
    if ws.len() == 0 {
        assert(ws =~= Seq::<SwatchView>::empty());
    } else {
        let rest = ws.drop_first();
        let tail = encode_swatches(rest) + x;
        let s = p + encode_swatches(ws) + x;
        assert(s =~= p + encode_swatch(ws[0]) + tail);
        assert(encodable_name(ws[0].name));
        lemma_parse_encoded_swatch(p, ws[0], tail);
        let q = p + encode_swatch(ws[0]);
        assert(s =~= q + encode_swatches(rest) + x);
        assert forall|i: int| 0 <= i < rest.len() implies encodable_name(#[trigger] rest[i].name) by {
            assert(rest[i] == ws[i + 1]);
        }
        lemma_parse_encoded_swatches(q, rest, x);
        assert(seq![ws[0]] + rest =~= ws);
    }
}

proof fn lemma_encoded_swatch_len(w: SwatchView)
    ensures
        encode_swatch(w).len() == 14 + 2 * w.name.len(),
{
    reveal(swatch_header);
}

proof fn lemma_parse_truncated_swatch(p: Seq<u8>, w: SwatchView)
    requires
        encodable_name(w.name),
    ensures
        parse_swatch(p + encode_swatch(w).drop_last(), p.len() as int) == Err::<(SwatchView, int), AcoError>(
            AcoError::TruncatedInput,
        ),
{
    let s = p + encode_swatch(w).drop_last();
    let pos = p.len() as int;
    lemma_encoded_swatch_len(w);
    if pos + 14 <= s.len() {
        let h = swatch_header(w);
        let n = w.name.len() as int;
        reveal(swatch_header);
        assert forall|k: int| 0 <= k < 14 implies #[trigger] s[pos + k] == h[k] by {
            assert(s[pos + k] == encode_swatch(w)[k]);
        }
        assert(be16(s, pos + 10) == n / 65536);
        assert(be16(s, pos + 12) == n % 65536);
        assert(be32(s, pos + 10) == n);
    }
}

proof fn lemma_parse_truncated_swatches(p: Seq<u8>, ws: Seq<SwatchView>)
    requires
        ws.len() >= 1,
        forall|i: int| 0 <= i < ws.len() ==> encodable_name(#[trigger] ws[i].name),
    ensures
        parse_swatches(p + encode_swatches(ws).drop_last(), p.len() as int, ws.len()) == Err::<
            Seq<SwatchView>,
            AcoError,
        >(AcoError::TruncatedInput),
    decreases ws.len(),
{
    let rest = ws.drop_first();
    let s = p + encode_swatches(ws).drop_last();
    let pos = p.len() as int;
    assert(encodable_name(ws[0].name));
    if ws.len() == 1 {
        assert(encode_swatches(rest) =~= Seq::<u8>::empty());
        assert(encode_swatches(ws) =~= encode_swatch(ws[0]));
        lemma_parse_truncated_swatch(p, ws[0]);
    } else {
        lemma_encoded_swatch_len(rest[0]);
        assert(encode_swatches(rest).len() >= 14);
        let cut = encode_swatches(rest).drop_last();
        assert(s =~= p + encode_swatch(ws[0]) + cut);
        lemma_parse_encoded_swatch(p, ws[0], cut);
        let q = p + encode_swatch(ws[0]);
        assert(s =~= q + cut);
        assert forall|i: int| 0 <= i < rest.len() implies encodable_name(#[trigger] rest[i].name) by {
            assert(rest[i] == ws[i + 1]);
        }
        lemma_parse_truncated_swatches(q, rest);
    }
}

proof fn lemma_palette_header(legacy: Seq<u8>, n: int, tail: Seq<u8>)
    requires
        valid_legacy(legacy),
        0 <= n < 0x1_0000,
    ensures
        ({
            let s = seq![0u8, 1u8] + be16_bytes(legacy.len() as int / 10) + legacy + seq![0u8, 2u8]
                + be16_bytes(n) + tail;
            &&& s.len() == legacy.len() + 8 + tail.len()
            &&& be16(s, 0) == 1
            &&& v2_offset(s) == legacy.len() + 4
            &&& be16(s, v2_offset(s)) == 2
            &&& be16(s, v2_offset(s) + 2) == n
            &&& s =~= s.subrange(0, v2_offset(s) + 4) + tail
        }),
{
    let s = seq![0u8, 1u8] + be16_bytes(legacy.len() as int / 10) + legacy + seq![0u8, 2u8] + be16_bytes(n)
        + tail;
    let l = legacy.len() as int;
    assert(s[0] == 0u8 && s[1] == 1u8);
    assert(be16(s, 2) == l / 10);
    assert(s[l + 4] == 0u8 && s[l + 5] == 2u8);
    assert(s[l + 6] == (n / 256) as u8 && s[l + 7] == (n % 256) as u8);
}

/// Encoding swatches, after any legacy records, into a palette file and
/// decoding that file gives back the same swatches, in the same order.
pub proof fn law_round_trip(legacy: Seq<u8>, ws: Seq<SwatchView>)
    requires
        valid_legacy(legacy),
        encodable_swatches(ws),
    ensures
        parse_palette(encode_palette(legacy, ws)) == Ok::<Seq<SwatchView>, AcoError>(ws),
{
    let s = encode_palette(legacy, ws);
    lemma_palette_header(legacy, ws.len() as int, encode_swatches(ws));
    let p = s.subrange(0, v2_offset(s) + 4);
    assert(s =~= p + encode_swatches(ws) + Seq::<u8>::empty());
    lemma_parse_encoded_swatches(p, ws, Seq::<u8>::empty());
}

/// A palette file with at least one swatch, cut one byte before its last
/// name payload completes, fails to decode as truncated.
pub proof fn law_truncated_input(legacy: Seq<u8>, ws: Seq<SwatchView>)
    requires
        valid_legacy(legacy),
        encodable_swatches(ws),
        ws.len() >= 1,
    ensures
        parse_palette(encode_palette(legacy, ws).drop_last()) == Err::<Seq<SwatchView>, AcoError>(
            AcoError::TruncatedInput,
        ),
{
    let cut = encode_swatches(ws).drop_last();
    lemma_encoded_swatch_len(ws[0]);
    assert(encode_swatches(ws).len() >= 14);
    let s = encode_palette(legacy, ws).drop_last();
    assert(s =~= seq![0u8, 1u8] + be16_bytes(legacy.len() as int / 10) + legacy + seq![0u8, 2u8]
        + be16_bytes(ws.len() as int) + cut);
    lemma_palette_header(legacy, ws.len() as int, cut);
    let p = s.subrange(0, v2_offset(s) + 4);
    lemma_parse_truncated_swatches(p, ws);
}

/// A palette holding a swatch in a color space without a hexadecimal rule
/// decodes, and then fails to render.
pub proof fn law_unsupported_space_decodes_then_fails(legacy: Seq<u8>, ws: Seq<SwatchView>, i: int)
    requires
        valid_legacy(legacy),
        encodable_swatches(ws),
        0 <= i < ws.len(),
        component_count(ws[i].color_space) is None,
    ensures
        parse_palette(encode_palette(legacy, ws)) == Ok::<Seq<SwatchView>, AcoError>(ws),
        !all_renderable(ws),
{
    law_round_trip(legacy, ws);
    assert(swatch_hex(ws[i]) is None);
}

proof fn lemma_swatch_count(s: Seq<u8>, pos: int, count: nat)
    ensures
        parse_swatches(s, pos, count) matches Ok(ws) ==> ws.len() == count,
    decreases count,
{
    if count > 0 {
        if let Ok((w, next)) = parse_swatch(s, pos) {
            lemma_swatch_count(s, next, (count - 1) as nat);
        }
    }
}

/// A palette decodes to exactly as many swatches as its version-2 count.
pub proof fn law_record_count(s: Seq<u8>)
    ensures
        parse_palette(s) matches Ok(ws) ==> ws.len() == be16(s, v2_offset(s) + 2),
{
    if s.len() >= 4 && v2_offset(s) + 4 <= s.len() {
        lemma_swatch_count(s, v2_offset(s) + 4, be16(s, v2_offset(s) + 2) as nat);
    }
}

proof fn lemma_swatches_read_forward(s1: Seq<u8>, s2: Seq<u8>, from: int, pos: int, count: nat)
    requires
        s1.len() == s2.len(),
        0 <= from <= pos,
        forall|i: int| from <= i < s1.len() ==> s1[i] == s2[i],
    ensures
        parse_swatches(s1, pos, count) == parse_swatches(s2, pos, count),
    decreases count,
{
    if count > 0 {
        if pos + 14 <= s1.len() {
            let end = pos + 14 + 2 * be32(s1, pos + 10);
            assert(be32(s1, pos + 10) == be32(s2, pos + 10));
            if end <= s1.len() {
                assert(s1.subrange(pos + 14, end) =~= s2.subrange(pos + 14, end));
            }
        }
        assert(parse_swatch(s1, pos) == parse_swatch(s2, pos));
        if let Ok((w, next)) = parse_swatch(s1, pos) {
            lemma_swatches_read_forward(s1, s2, from, next, (count - 1) as nat);
        }
    }
}

/// The bytes of the legacy records do not affect decoding: two files that
/// differ only there decode alike.
pub proof fn law_legacy_records_ignored(s1: Seq<u8>, s2: Seq<u8>)
    requires
        s1.len() == s2.len(),
        forall|i: int| 0 <= i < s1.len() && (i < 4 || i >= v2_offset(s1)) ==> s1[i] == s2[i],
    ensures
        parse_palette(s1) == parse_palette(s2),
{
    if s1.len() >= 4 {
        assert(s1[2] == s2[2] && s1[3] == s2[3]);
        assert(v2_offset(s1) == v2_offset(s2));
        lemma_swatches_read_forward(s1, s2, v2_offset(s1), v2_offset(s1) + 4, be16(s1, v2_offset(s1) + 2) as nat);
    } else {
        assert(s1 =~= s2);
    }
}

} // verus!
