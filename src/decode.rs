use vstd::prelude::*;
use vstd::utf8::{decode_utf8, valid_utf8};

use crate::colors::{space_of_code, swatch_views, AcoError, ColorSpace, RawColorV2, SwatchView};

verus! {

/// Width of a legacy (version-1) record: a color-space code and four components.
pub const V1_RECORD_LEN: usize = 10;

/// Width of the fixed part of a version-2 record: a color-space code, four
/// components and the name length.
pub const V2_FIXED_LEN: usize = 14;

/// The big-endian 16-bit value at `i`.
pub open spec fn be16(s: Seq<u8>, i: int) -> int {
    s[i] as int * 256 + s[i + 1] as int
}

/// The big-endian 32-bit value at `i`.
pub open spec fn be32(s: Seq<u8>, i: int) -> int {
    be16(s, i) * 65536 + be16(s, i + 2)
}

/// The bytes without their NUL bytes, in order.
pub open spec fn strip_nul(b: Seq<u8>) -> Seq<u8>
    decreases b.len(),
{
    if b.len() == 0 {
        seq![]
    } else {
        strip_nul(b.drop_last()) + if b.last() == 0 {
            Seq::<u8>::empty()
        } else {
            seq![b.last()]
        }
    }
}

/// The version-2 record that starts at `pos`, with the position that follows it.
pub open spec fn parse_swatch(s: Seq<u8>, pos: int) -> Result<(SwatchView, int), AcoError> {
    if pos + V2_FIXED_LEN > s.len() {
        Err(AcoError::TruncatedInput)
    } else {
        let end = pos + V2_FIXED_LEN + 2 * be32(s, pos + 10);
        if end > s.len() {
            Err(AcoError::TruncatedInput)
        } else {
            match space_of_code(be16(s, pos) as u16) {
                None => Err(AcoError::UnknownColorSpace),
                Some(cs) => {
                    let text = strip_nul(s.subrange(pos + V2_FIXED_LEN, end));
                    if valid_utf8(text) {
                        Ok(
                            (
                                SwatchView {
                                    color_space: cs,
                                    component_1: be16(s, pos + 2) as u16,
                                    component_2: be16(s, pos + 4) as u16,
                                    component_3: be16(s, pos + 6) as u16,
                                    component_4: be16(s, pos + 8) as u16,
                                    name: decode_utf8(text),
                                },
                                end,
                            ),
                        )
                    } else {
                        Err(AcoError::InvalidTextEncoding)
                    }
                },
            }
        }
    }
}

/// `count` consecutive version-2 records starting at `pos`; the first error
/// met, if any.
pub open spec fn parse_swatches(s: Seq<u8>, pos: int, count: nat) -> Result<Seq<SwatchView>, AcoError>
    decreases count,
{
    if count == 0 {
        Ok(seq![])
    } else {
        match parse_swatch(s, pos) {
            Err(e) => Err(e),
            Ok((w, next)) => match parse_swatches(s, next, (count - 1) as nat) {
                Err(e) => Err(e),
                Ok(rest) => Ok(seq![w] + rest),
            },
        }
    }
}

/// Where the version-2 section starts: after the version tag, the count and
/// the legacy records.
pub open spec fn v2_offset(s: Seq<u8>) -> int {
    4 + V1_RECORD_LEN * be16(s, 2)
}

/// The swatches of a palette file, or the error that decoding it meets first.
pub open spec fn parse_palette(s: Seq<u8>) -> Result<Seq<SwatchView>, AcoError> {
    if s.len() < 2 {
        Err(AcoError::TruncatedInput)
    } else if be16(s, 0) != 1 {
        Err(AcoError::UnsupportedVersion)
    } else if s.len() < 4 || v2_offset(s) + 2 > s.len() {
        Err(AcoError::TruncatedInput)
    } else if be16(s, v2_offset(s)) != 2 {
        Err(AcoError::UnsupportedVersion)
    } else if v2_offset(s) + 4 > s.len() {
        Err(AcoError::TruncatedInput)
    } else {
        parse_swatches(s, v2_offset(s) + 4, be16(s, v2_offset(s) + 2) as nat)
    }
}

/// Relies on `std::str::from_utf8`: it accepts exactly the valid UTF-8
/// sequences, and the text it returns holds the characters they encode.
#[verifier::external_body]
fn utf8_text(b: &[u8]) -> (r: Option<String>)
    ensures
        r is Some <==> valid_utf8(b@),
        r matches Some(t) ==> t@ == decode_utf8(b@),
{
    match std::str::from_utf8(b) {
        Ok(t) => Some(t.to_string()),
        Err(_) => None,
    }
}

/// A read position in a byte stream.
struct Cursor<'a> {
    bytes: &'a [u8],
    pos: usize,
}

impl<'a> Cursor<'a> {
    spec fn wf(&self) -> bool {
        self.pos <= self.bytes@.len()
    }

    /// Reads a big-endian 16-bit value.
    fn read_u16(&mut self) -> (r: Result<u16, AcoError>)
        requires
            old(self).wf(),
        ensures
            final(self).wf(),
            final(self).bytes == old(self).bytes,
            if old(self).pos + 2 <= old(self).bytes@.len() {
                &&& r == Ok::<u16, AcoError>(be16(old(self).bytes@, old(self).pos as int) as u16)
                &&& final(self).pos == old(self).pos + 2
            } else {
                r == Err::<u16, AcoError>(AcoError::TruncatedInput)
            },
    {
        if self.bytes.len() - self.pos < 2 {
            return Err(AcoError::TruncatedInput);
        }
        let hi = self.bytes[self.pos] as u16;
        let lo = self.bytes[self.pos + 1] as u16;
        self.pos = self.pos + 2;
        Ok(hi * 256 + lo)
    }

    /// Reads a big-endian 32-bit value.
    fn read_u32(&mut self) -> (r: Result<u32, AcoError>)
        requires
            old(self).wf(),
        ensures
            final(self).wf(),
            final(self).bytes == old(self).bytes,
            if old(self).pos + 4 <= old(self).bytes@.len() {
                &&& r == Ok::<u32, AcoError>(be32(old(self).bytes@, old(self).pos as int) as u32)
                &&& final(self).pos == old(self).pos + 4
            } else {
                r == Err::<u32, AcoError>(AcoError::TruncatedInput)
            },
    {
        let hi = match self.read_u16() {
            Ok(v) => v,
            Err(e) => return Err(e),
        };
        let lo = match self.read_u16() {
            Ok(v) => v,
            Err(e) => return Err(e),
        };
        Ok(hi as u32 * 65536 + lo as u32)
    }

    /// Moves past `n` bytes without reading them.
    fn skip(&mut self, n: usize) -> (r: Result<(), AcoError>)
        requires
            old(self).wf(),
        ensures
            final(self).wf(),
            final(self).bytes == old(self).bytes,
            if old(self).pos + n <= old(self).bytes@.len() {
                r is Ok && final(self).pos == old(self).pos + n
            } else {
                r == Err::<(), AcoError>(AcoError::TruncatedInput)
            },
    {
        if self.bytes.len() - self.pos < n {
            return Err(AcoError::TruncatedInput);
        }
        self.pos = self.pos + n;
        Ok(())
    }

    /// Reads a name payload of `units` double-byte units and keeps its
    /// non-NUL bytes.
    fn read_name_bytes(&mut self, units: u32) -> (r: Result<Vec<u8>, AcoError>)
        requires
            old(self).wf(),
        ensures
            final(self).wf(),
            final(self).bytes == old(self).bytes,
            if old(self).pos + 2 * units <= old(self).bytes@.len() {
                &&& r is Ok
                &&& r->Ok_0@ == strip_nul(
                    old(self).bytes@.subrange(old(self).pos as int, old(self).pos + 2 * units),
                )
                &&& final(self).pos == old(self).pos + 2 * units
            } else {
                r == Err::<Vec<u8>, AcoError>(AcoError::TruncatedInput)
            },
    {
        let avail = self.bytes.len() - self.pos;
        let need: u64 = 2 * (units as u64);
        if need > avail as u64 {
            return Err(AcoError::TruncatedInput);
        }
        let start = self.pos;
        let end = start + need as usize;
        let mut text: Vec<u8> = Vec::new();
        let mut j: usize = start;
        while j < end
            invariant
                self.wf(),
                start <= j <= end,
                end == start + 2 * units,
                end <= self.bytes@.len(),
                text@ == strip_nul(self.bytes@.subrange(start as int, j as int)),
            decreases end - j,
        {
            let b = self.bytes[j];
            if b != 0 {
                text.push(b);
            }
            assert(self.bytes@.subrange(start as int, j + 1).drop_last() =~= self.bytes@.subrange(
                start as int,
                j as int,
            ));
            j = j + 1;
        }
        self.pos = end;
        Ok(text)
    }

    /// Reads one version-2 record.
    fn read_swatch(&mut self) -> (r: Result<RawColorV2, AcoError>)
        requires
            old(self).wf(),
        ensures
            final(self).wf(),
            final(self).bytes == old(self).bytes,
            match parse_swatch(old(self).bytes@, old(self).pos as int) {
                Ok((w, next)) => r is Ok && r->Ok_0@ == w && final(self).pos == next,
                Err(e) => r == Err::<RawColorV2, AcoError>(e),
            },
    {
        if self.bytes.len() - self.pos < V2_FIXED_LEN {
            return Err(AcoError::TruncatedInput);
        }
        let code = match self.read_u16() {
            Ok(v) => v,
            Err(e) => return Err(e),
        };
        let component_1 = match self.read_u16() {
            Ok(v) => v,
            Err(e) => return Err(e),
        };
        let component_2 = match self.read_u16() {
            Ok(v) => v,
            Err(e) => return Err(e),
        };
        let component_3 = match self.read_u16() {
            Ok(v) => v,
            Err(e) => return Err(e),
        };
        let component_4 = match self.read_u16() {
            Ok(v) => v,
            Err(e) => return Err(e),
        };
        let units = match self.read_u32() {
            Ok(v) => v,
            Err(e) => return Err(e),
        };
        let text = match self.read_name_bytes(units) {
            Ok(v) => v,
            Err(e) => return Err(e),
        };
        let color_space = match ColorSpace::from_u16(code) {
            Some(cs) => cs,
            None => return Err(AcoError::UnknownColorSpace),
        };
        match utf8_text(text.as_slice()) {
            Some(name) => Ok(
                RawColorV2 { name, color_space, component_1, component_2, component_3, component_4 },
            ),
            None => Err(AcoError::InvalidTextEncoding),
        }
    }
}

/// Decodes a palette file: checks both version tags, passes over the legacy
/// records and returns the version-2 swatches in file order. Decoding is all
/// or nothing: the first error met is returned and no swatch with it.
pub fn parse_aco(bytes: &[u8]) -> (r: Result<Vec<RawColorV2>, AcoError>)
    ensures
        match parse_palette(bytes@) {
            Ok(ws) => r is Ok && swatch_views(r->Ok_0@) == ws,
            Err(e) => r == Err::<Vec<RawColorV2>, AcoError>(e),
        },
{
    let ghost s = bytes@;
    let mut cur = Cursor { bytes, pos: 0 };
    let v1_tag = match cur.read_u16() {
        Ok(v) => v,
        Err(e) => return Err(e),
    };
    if v1_tag != 1 {
        return Err(AcoError::UnsupportedVersion);
    }
    let v1_count = match cur.read_u16() {
        Ok(v) => v,
        Err(e) => return Err(e),
    };
    match cur.skip(V1_RECORD_LEN * v1_count as usize) {
        Ok(()) => {},
        Err(e) => return Err(e),
    }
    let v2_tag = match cur.read_u16() {
        Ok(v) => v,
        Err(e) => return Err(e),
    };
    if v2_tag != 2 {
        return Err(AcoError::UnsupportedVersion);
    }
    let count = match cur.read_u16() {
        Ok(v) => v,
        Err(e) => return Err(e),
    };
    let ghost start = cur.pos as int;
    assert(start == v2_offset(s) + 4);
    let mut out: Vec<RawColorV2> = Vec::new();
    let mut i: u16 = 0;
    while i < count
        invariant
            cur.wf(),
            cur.bytes@ == s,
            s == bytes@,
            i <= count,
            count == be16(s, v2_offset(s) + 2),
            parse_palette(s) == parse_swatches(s, start, count as nat),
            parse_swatches(s, start, count as nat) == match parse_swatches(
                s,
                cur.pos as int,
                (count - i) as nat,
            ) {
                Ok(rest) => Ok(swatch_views(out@) + rest),
                Err(e) => Err(e),
            },
        decreases count - i,
    {
        let ghost before = out@;
        let ghost pos = cur.pos as int;
        match cur.read_swatch() {
            Ok(w) => {
                out.push(w);
                proof {
                    assert(swatch_views(out@) =~= swatch_views(before).push(w@));
                    let rest = parse_swatches(s, cur.pos as int, (count - i - 1) as nat);
                    if rest is Ok {
                        assert(swatch_views(before) + (seq![w@] + rest->Ok_0) =~= swatch_views(out@)
                            + rest->Ok_0);
                    }
                }
            },
            Err(e) => {
                assert(parse_swatches(s, pos, (count - i) as nat) == Err::<Seq<SwatchView>, AcoError>(
                    e,
                ));
                return Err(e);
            },
        }
        i = i + 1;
    }
    assert(swatch_views(out@) + Seq::<SwatchView>::empty() =~= swatch_views(out@));
    Ok(out)
}

} // verus!
