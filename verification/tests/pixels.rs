use ili9341::{encode, Ili9341, Pixel, PixelWrite, Point, Rectangle, Rgb565, Size, Window};

#[test]
fn size_and_bounding_box_are_those_of_the_screen() {
    let display = Ili9341::new(240, 320);
    assert_eq!(display.width(), 240);
    assert_eq!(display.height(), 320);
    assert_eq!(display.size(), Size::new(240, 320));
    assert_eq!(display.bounding_box(), Rectangle::new(Point::new(0, 0), Size::new(240, 320)));
}

#[test]
fn draw_pixel_off_screen_writes_nothing() {
    let display = Ili9341::new(240, 320);
    let color = Rgb565::new(31, 63, 31);
    assert_eq!(display.draw_pixel(Pixel(Point::new(300, 10), color)), None);
    assert_eq!(display.draw_pixel(Pixel(Point::new(240, 0), color)), None);
    assert_eq!(display.draw_pixel(Pixel(Point::new(0, 320), color)), None);
    assert_eq!(display.draw_pixel(Pixel(Point::new(-1, 0), color)), None);
    assert_eq!(display.draw_pixel(Pixel(Point::new(0, -1), color)), None);
    assert_eq!(display.draw_pixel(Pixel(Point::new(i32::MIN, i32::MAX), color)), None);
}

#[test]
fn draw_pixel_on_screen_writes_its_word_to_its_position() {
    let display = Ili9341::new(240, 320);
    let color = Rgb565::new(21, 24, 18);
    let write = display.draw_pixel(Pixel(Point::new(17, 300), color));
    assert_eq!(write, Some(PixelWrite { x: 17, y: 300, word: encode(color) }));
    let write = write.unwrap();
    assert_eq!(write.word.msb, 0xAB);
    assert_eq!(write.word.lsb, 0x12);
    assert_eq!(write.window(), Window { x0: 17, y0: 300, x1: 17, y1: 300 });
}

#[test]
fn draw_pixel_reaches_every_corner() {
    let display = Ili9341::new(240, 320);
    let color = Rgb565::new(1, 1, 1);
    for (x, y) in [(0, 0), (239, 0), (0, 319), (239, 319)] {
        let write = display.draw_pixel(Pixel(Point::new(x, y), color));
        assert_eq!(write, Some(PixelWrite { x: x as u16, y: y as u16, word: encode(color) }));
    }
}

#[test]
fn draw_pixel_on_a_screen_without_points_writes_nothing() {
    let display = Ili9341::new(0, 0);
    assert_eq!(display.draw_pixel(Pixel(Point::new(0, 0), Rgb565::new(1, 2, 3))), None);
}

#[test]
fn draw_iter_keeps_the_pixels_on_screen_in_order() {
    let display = Ili9341::new(240, 320);
    let red = Rgb565::new(31, 0, 0);
    let green = Rgb565::new(0, 63, 0);
    let blue = Rgb565::new(0, 0, 31);
    let pixels = vec![
        Pixel(Point::new(5, 6), red),
        Pixel(Point::new(300, 10), green),
        Pixel(Point::new(239, 319), blue),
        Pixel(Point::new(-1, -1), red),
        Pixel(Point::new(5, 6), green),
    ];
    assert_eq!(
        display.draw_iter(&pixels),
        vec![
            PixelWrite { x: 5, y: 6, word: encode(red) },
            PixelWrite { x: 239, y: 319, word: encode(blue) },
            PixelWrite { x: 5, y: 6, word: encode(green) },
        ]
    );
}

#[test]
fn draw_iter_of_nothing_writes_nothing() {
    let display = Ili9341::new(240, 320);
    assert_eq!(display.draw_iter(&Vec::new()), Vec::new());
}
