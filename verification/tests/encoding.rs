use ili9341::{encode, wire_word, Rgb565, WireWord};

#[test]
fn wire_word_puts_the_high_byte_first() {
    assert_eq!(wire_word(0xAB12), WireWord { msb: 0xAB, lsb: 0x12 });
    assert_eq!(wire_word(0x0001), WireWord { msb: 0x00, lsb: 0x01 });
    assert_eq!(wire_word(0xFF00), WireWord { msb: 0xFF, lsb: 0x00 });
    assert_eq!(wire_word(0), WireWord { msb: 0, lsb: 0 });
    assert_eq!(wire_word(0xFFFF), WireWord { msb: 0xFF, lsb: 0xFF });
}

#[test]
fn encode_of_the_colour_ab12_is_ab_then_12() {
    let color = Rgb565::new(0b10101, 0b011000, 0b10010);
    assert_eq!(color.raw(), 0xAB12);
    assert_eq!(encode(color), WireWord { msb: 0xAB, lsb: 0x12 });
}

#[test]
fn raw_packs_red_green_blue_from_the_top() {
    assert_eq!(Rgb565::new(31, 0, 0).raw(), 0xF800);
    assert_eq!(Rgb565::new(0, 63, 0).raw(), 0x07E0);
    assert_eq!(Rgb565::new(0, 0, 31).raw(), 0x001F);
    assert_eq!(Rgb565::new(31, 63, 31).raw(), 0xFFFF);
    assert_eq!(Rgb565::new(0, 0, 0).raw(), 0x0000);
    assert_eq!(Rgb565::new(1, 2, 3).raw(), 0x0843);
}

#[test]
fn raw_drops_the_bits_that_a_channel_cannot_hold() {
    assert_eq!(Rgb565::new(0xFF, 0, 0).raw(), 0xF800);
    assert_eq!(Rgb565::new(32, 64, 32).raw(), 0x0000);
    assert_eq!(Rgb565::new(33, 65, 34).raw(), 0x0822);
}

#[test]
fn encode_matches_the_packing_for_every_channel_value() {
    for r in 0..=255u8 {
        for g in [0u8, 1, 31, 32, 63, 64, 200, 255] {
            for b in [0u8, 1, 30, 31, 32, 255] {
                let raw = (((r & 0x1f) as u16) << 11) | (((g & 0x3f) as u16) << 5) | (b & 0x1f) as u16;
                let [msb, lsb] = raw.to_be_bytes();
                assert_eq!(encode(Rgb565::new(r, g, b)), WireWord { msb, lsb });
            }
        }
    }
}
