//! Colours and their wire encoding.

use vstd::prelude::*;

verus! {

/// A colour with five bits of red, six of green and five of blue.
///
/// Channel values that do not fit their width lose their upper bits when the
/// colour is packed.
#[derive(Clone, Copy, Debug, PartialEq, Eq, Structural)]
pub struct Rgb565 {
    pub r: u8,
    pub g: u8,
    pub b: u8,
}

/// One pixel as it travels over the bus: two bytes, most significant first.
#[derive(Clone, Copy, Debug, PartialEq, Eq, Structural)]
pub struct WireWord {
    pub msb: u8,
    pub lsb: u8,
}

/// The 16-bit value that holds the three channels: red in the top five bits,
/// green in the middle six, blue in the low five.
pub open spec fn spec_pack(r: u8, g: u8, b: u8) -> u16 {
    ((r & 0x1f) as u16) << 11 | ((g & 0x3f) as u16) << 5 | ((b & 0x1f) as u16)
}

/// The two bytes of a 16-bit value, most significant first.
pub open spec fn spec_wire_word(raw: u16) -> WireWord {
    WireWord { msb: (raw >> 8) as u8, lsb: (raw & 0xff) as u8 }
}

/// The wire word of a colour.
pub open spec fn spec_encode(color: Rgb565) -> WireWord {
    spec_wire_word(color.spec_raw())
}

/// Packs three channels with `embedded_graphics_core`: builds its `Rgb565`
/// with `Rgb565::new` and reads the storage back through `RawU16::from` and
/// `RawData::into_inner`. Trusted: the result is the packing that
/// [`spec_pack`] states, with channels masked to their widths.
#[verifier::external_body]
fn packed_storage(r: u8, g: u8, b: u8) -> (raw: u16)
    ensures
        raw == spec_pack(r, g, b),
{
    let color = embedded_graphics_core::pixelcolor::Rgb565::new(r, g, b);
    let raw = embedded_graphics_core::pixelcolor::raw::RawU16::from(color);
    embedded_graphics_core::pixelcolor::raw::RawData::into_inner(raw)
}

impl Rgb565 {
    /// The colour's 16-bit numeric form.
    pub open spec fn spec_raw(self) -> u16 {
        spec_pack(self.r, self.g, self.b)
    }

    pub fn new(r: u8, g: u8, b: u8) -> (color: Rgb565)
        ensures
            color == (Rgb565 { r, g, b }),
    {
        Rgb565 { r, g, b }
    }

    /// The colour's 16-bit numeric form.
    pub fn raw(&self) -> (raw: u16)
        ensures
            raw == self.spec_raw(),
    {
        packed_storage(self.r, self.g, self.b)
    }
}

/// Reorders a 16-bit value into wire order, most significant byte first.
pub fn wire_word(raw: u16) -> (word: WireWord)
    ensures
        word == spec_wire_word(raw),
{
    let high: u16 = raw >> 8;
    let low: u16 = raw & 0xff;
    assert(high <= 0xff) by (bit_vector)
        requires
            high == raw >> 8,
    ;
    assert(low <= 0xff) by (bit_vector)
        requires
            low == raw & 0xff,
    ;
    WireWord { msb: high as u8, lsb: low as u8 }
}

/// Encodes a colour for the wire: its 16-bit numeric form, most significant
/// byte first. Total; never fails.
pub fn encode(color: Rgb565) -> (word: WireWord)
    ensures
        word == spec_encode(color),
{
    wire_word(color.raw())
}

} // verus!
