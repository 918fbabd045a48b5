use ili9341::{encode, Flush, Ili9341, Point, Rectangle, Rgb565, Size, Window, WireWord, ROW_CHUNK};

fn rect(x: i32, y: i32, width: u32, height: u32) -> Rectangle {
    Rectangle::new(Point::new(x, y), Size::new(width, height))
}

/// A colour that is different for each of the first 2048 positions.
fn numbered(i: usize) -> Rgb565 {
    Rgb565::new((i % 32) as u8, ((i / 32) % 64) as u8, 7)
}

fn numbered_colors(count: usize) -> Vec<Rgb565> {
    (0..count).map(numbered).collect()
}

fn all_words(flushes: &[Flush]) -> Vec<WireWord> {
    flushes.iter().flat_map(|flush| flush.words.iter().copied()).collect()
}

#[test]
fn row_chunk_is_sixteen_rows() {
    assert_eq!(ROW_CHUNK, 16);
}

#[test]
fn fill_of_ten_full_rows_is_one_write() {
    let display = Ili9341::new(240, 320);
    let color = Rgb565::new(3, 40, 9);
    let colors = vec![color; 240 * 10];
    let flushes = display.fill_contiguous(&rect(0, 0, 240, 10), &colors);
    assert_eq!(flushes.len(), 1);
    assert_eq!(flushes.len(), (10 + ROW_CHUNK as usize - 1) / ROW_CHUNK as usize);
    assert_eq!(flushes[0].window, Window { x0: 0, y0: 0, x1: 239, y1: 9 });
    assert_eq!(flushes[0].words.len(), 240 * 10);
    assert!(flushes[0].words.iter().all(|word| *word == encode(color)));
}

#[test]
fn fill_of_forty_rows_is_cut_after_every_sixteen() {
    let display = Ili9341::new(240, 320);
    let colors = numbered_colors(2048);
    let area = rect(10, 100, 50, 40);
    let flushes = display.fill_contiguous(&area, &colors);
    assert_eq!(flushes.len(), 3);
    assert_eq!(flushes[0].window, Window { x0: 10, y0: 100, x1: 59, y1: 115 });
    assert_eq!(flushes[1].window, Window { x0: 10, y0: 116, x1: 59, y1: 131 });
    assert_eq!(flushes[2].window, Window { x0: 10, y0: 132, x1: 59, y1: 139 });
    assert_eq!(flushes[0].words.len(), 50 * 16);
    assert_eq!(flushes[1].words.len(), 50 * 16);
    assert_eq!(flushes[2].words.len(), 50 * 8);
    let expected: Vec<WireWord> = (0..50 * 40).map(|i| encode(numbered(i))).collect();
    assert_eq!(all_words(&flushes), expected);
}

#[test]
fn fill_of_exactly_sixteen_rows_is_one_full_write() {
    let display = Ili9341::new(240, 320);
    let colors = numbered_colors(3 * 16);
    let flushes = display.fill_contiguous(&rect(0, 0, 3, 16), &colors);
    assert_eq!(flushes.len(), 1);
    assert_eq!(flushes[0].window, Window { x0: 0, y0: 0, x1: 2, y1: 15 });
    assert_eq!(flushes[0].words.len(), 48);
}

#[test]
fn fill_of_seventeen_rows_leaves_one_row_for_the_second_write() {
    let display = Ili9341::new(240, 320);
    let colors = numbered_colors(3 * 17);
    let flushes = display.fill_contiguous(&rect(0, 0, 3, 17), &colors);
    assert_eq!(flushes.len(), 2);
    assert_eq!(flushes[0].window, Window { x0: 0, y0: 0, x1: 2, y1: 15 });
    assert_eq!(flushes[1].window, Window { x0: 0, y0: 16, x1: 2, y1: 16 });
    assert_eq!(flushes[1].words, vec![encode(numbered(48)), encode(numbered(49)), encode(numbered(50))]);
}

#[test]
fn fill_partly_off_screen_writes_only_the_colours_of_points_on_screen() {
    let display = Ili9341::new(240, 320);
    let colors = numbered_colors(100);
    let flushes = display.fill_contiguous(&rect(-5, -5, 10, 10), &colors);
    assert_eq!(flushes.len(), 1);
    assert_eq!(flushes[0].window, Window { x0: 0, y0: 0, x1: 4, y1: 4 });
    let mut expected = Vec::new();
    for y in 0..5 {
        for x in 0..5 {
            expected.push(encode(numbered((5 + y) * 10 + 5 + x)));
        }
    }
    assert_eq!(expected.len(), 25);
    assert_eq!(flushes[0].words, expected);
}

#[test]
fn fill_hanging_over_the_right_edge_skips_the_colours_past_it() {
    let display = Ili9341::new(240, 320);
    let colors = numbered_colors(4 * 3);
    let flushes = display.fill_contiguous(&rect(238, 10, 4, 3), &colors);
    assert_eq!(flushes.len(), 1);
    assert_eq!(flushes[0].window, Window { x0: 238, y0: 10, x1: 239, y1: 12 });
    let expected: Vec<WireWord> = [0, 1, 4, 5, 8, 9].iter().map(|i| encode(numbered(*i))).collect();
    assert_eq!(flushes[0].words, expected);
}

#[test]
fn fill_hanging_over_the_bottom_edge_stops_at_the_last_row() {
    let display = Ili9341::new(240, 320);
    let colors = numbered_colors(2 * 40);
    let flushes = display.fill_contiguous(&rect(0, 300, 2, 40), &colors);
    assert_eq!(flushes.len(), 2);
    assert_eq!(flushes[0].window, Window { x0: 0, y0: 300, x1: 1, y1: 315 });
    assert_eq!(flushes[1].window, Window { x0: 0, y0: 316, x1: 1, y1: 319 });
    let expected: Vec<WireWord> = (0..40).map(|i| encode(numbered(i))).collect();
    assert_eq!(all_words(&flushes), expected);
}

#[test]
fn fill_off_screen_writes_nothing() {
    let display = Ili9341::new(240, 320);
    let colors = numbered_colors(100);
    assert_eq!(display.fill_contiguous(&rect(300, 10, 10, 10), &colors), Vec::new());
    assert_eq!(display.fill_contiguous(&rect(0, 320, 10, 10), &colors), Vec::new());
    assert_eq!(display.fill_contiguous(&rect(-10, -10, 10, 10), &colors), Vec::new());
}

#[test]
fn fill_of_a_region_without_points_writes_nothing() {
    let display = Ili9341::new(240, 320);
    let colors = numbered_colors(100);
    assert_eq!(display.fill_contiguous(&rect(10, 10, 0, 0), &colors), Vec::new());
    assert_eq!(display.fill_contiguous(&rect(10, 10, 0, 7), &colors), Vec::new());
    assert_eq!(display.fill_contiguous(&rect(10, 10, 7, 0), &colors), Vec::new());
}

#[test]
fn fill_without_colours_writes_nothing() {
    let display = Ili9341::new(240, 320);
    assert_eq!(display.fill_contiguous(&rect(0, 0, 10, 10), &Vec::new()), Vec::new());
}

#[test]
fn fill_with_too_few_colours_writes_those_it_has() {
    let display = Ili9341::new(240, 320);
    let colors = numbered_colors(25);
    let flushes = display.fill_contiguous(&rect(0, 0, 10, 10), &colors);
    assert_eq!(flushes.len(), 1);
    assert_eq!(flushes[0].window, Window { x0: 0, y0: 0, x1: 9, y1: 9 });
    let expected: Vec<WireWord> = (0..25).map(|i| encode(numbered(i))).collect();
    assert_eq!(flushes[0].words, expected);
}

#[test]
fn fill_with_too_few_colours_still_cuts_full_batches() {
    let display = Ili9341::new(240, 320);
    let colors = numbered_colors(2 * 16 + 3);
    let flushes = display.fill_contiguous(&rect(0, 0, 2, 100), &colors);
    assert_eq!(flushes.len(), 2);
    assert_eq!(flushes[0].window, Window { x0: 0, y0: 0, x1: 1, y1: 15 });
    assert_eq!(flushes[0].words.len(), 32);
    assert_eq!(flushes[1].window, Window { x0: 0, y0: 16, x1: 1, y1: 31 });
    assert_eq!(flushes[1].words, vec![encode(numbered(32)), encode(numbered(33)), encode(numbered(34))]);
}

#[test]
fn fill_with_too_many_colours_leaves_the_rest() {
    let display = Ili9341::new(240, 320);
    let colors = numbered_colors(1000);
    let flushes = display.fill_contiguous(&rect(7, 9, 4, 4), &colors);
    assert_eq!(flushes.len(), 1);
    let expected: Vec<WireWord> = (0..16).map(|i| encode(numbered(i))).collect();
    assert_eq!(flushes[0].words, expected);
}

#[test]
fn fill_on_screen_writes_as_many_words_as_colours_or_points() {
    let display = Ili9341::new(240, 320);
    let area = rect(20, 30, 13, 37);
    for supplied in [0usize, 1, 12, 13, 14, 13 * 16 - 1, 13 * 16, 13 * 16 + 1, 13 * 37 - 1, 13 * 37, 13 * 37 + 1, 2000] {
        let flushes = display.fill_contiguous(&area, &numbered_colors(supplied));
        assert_eq!(all_words(&flushes).len(), supplied.min(13 * 37));
    }
}

#[test]
fn fill_windows_never_leave_the_drawable_rows() {
    let display = Ili9341::new(240, 320);
    let area = rect(-3, 290, 20, 100);
    let flushes = display.fill_contiguous(&area, &numbered_colors(2000));
    assert_eq!(flushes.len(), 2);
    let mut next_row = 290;
    for flush in flushes.iter() {
        assert_eq!(flush.window.x0, 0);
        assert_eq!(flush.window.x1, 16);
        assert_eq!(flush.window.y0, next_row);
        assert!(flush.window.y1 >= flush.window.y0);
        assert!(flush.window.y1 <= 319);
        assert!(flush.window.y1 - flush.window.y0 < ROW_CHUNK as u16);
        let rows = (flush.window.y1 - flush.window.y0 + 1) as usize;
        assert_eq!(flush.words.len(), 17 * rows);
        next_row = flush.window.y1 + 1;
    }
    assert_eq!(next_row, 320);
}

#[test]
fn fill_of_one_pixel_is_one_word() {
    let display = Ili9341::new(240, 320);
    let flushes = display.fill_contiguous(&rect(239, 319, 1, 1), &numbered_colors(5));
    assert_eq!(
        flushes,
        vec![Flush { window: Window { x0: 239, y0: 319, x1: 239, y1: 319 }, words: vec![encode(numbered(0))] }]
    );
}

#[test]
fn clear_fills_the_whole_screen_with_one_colour() {
    let display = Ili9341::new(240, 320);
    let color = Rgb565::new(31, 0, 31);
    let flushes = display.clear(color);
    assert_eq!(flushes.len(), 20);
    for (k, flush) in flushes.iter().enumerate() {
        let first = (k * 16) as u16;
        assert_eq!(flush.window, Window { x0: 0, y0: first, x1: 239, y1: first + 15 });
        assert_eq!(flush.words.len(), 240 * 16);
        assert!(flush.words.iter().all(|word| *word == encode(color)));
    }
}

#[test]
fn clear_is_a_fill_of_the_bounding_box() {
    let display = Ili9341::new(30, 50);
    let color = Rgb565::new(9, 9, 9);
    let colors = vec![color; 30 * 50];
    assert_eq!(display.clear(color), display.fill_contiguous(&display.bounding_box(), &colors));
    assert_eq!(display.clear(color).len(), 4);
}

#[test]
fn clear_of_a_screen_without_points_writes_nothing() {
    assert_eq!(Ili9341::new(0, 0).clear(Rgb565::new(1, 1, 1)), Vec::new());
    assert_eq!(Ili9341::new(240, 0).clear(Rgb565::new(1, 1, 1)), Vec::new());
}
