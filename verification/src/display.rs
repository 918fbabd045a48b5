//! The display: its size, and what drawing on it sends to the transport.

use vstd::prelude::*;
use crate::color::{encode, spec_encode, Rgb565, WireWord};
use crate::geometry::{Point, Rectangle, Size};
use crate::transport::{flush_views, Action, Flush, PixelWrite};
use crate::fill::{
    lemma_chunks, lemma_full_batch_stays, lemma_surviving_none, lemma_surviving_push,
    lemma_surviving_settled, spec_capacity, spec_chunks, spec_flush, spec_flushes, spec_surviving,
};
use crate::writer::{lemma_drawable_on_screen, ChunkedWriter, FillView};

verus! {

/// A pixel: a position and the colour to give it.
#[derive(Clone, Copy, Debug, PartialEq, Eq, Structural)]
pub struct Pixel(pub Point, pub Rgb565);

/// The geometry of an ILI9341 display as it is currently oriented.
#[derive(Clone, Copy, Debug, PartialEq, Eq, Structural)]
pub struct Ili9341 {
    width: u16,
    height: u16,
}

impl Ili9341 {
    /// The width of the screen, in pixels.
    pub closed spec fn spec_width(self) -> u16 {
        self.width
    }

    /// The height of the screen, in pixels.
    pub closed spec fn spec_height(self) -> u16 {
        self.height
    }

    /// The size of the screen.
    pub open spec fn spec_size(self) -> Size {
        Size { width: self.spec_width() as u32, height: self.spec_height() as u32 }
    }

    /// The rectangle of all pixels of the screen: it starts at the origin and
    /// has the size of the screen.
    pub open spec fn spec_bounding_box(self) -> Rectangle {
        Rectangle { top_left: Point { x: 0, y: 0 }, size: self.spec_size() }
    }

    /// What drawing one pixel sends: nothing for a position off screen, else
    /// the colour's word to that position.
    pub open spec fn spec_draw_pixel(self, pixel: Pixel) -> Option<PixelWrite> {
        if self.spec_bounding_box().spec_contains(pixel.0) {
            Some(PixelWrite { x: pixel.0.x as u16, y: pixel.0.y as u16, word: spec_encode(pixel.1) })
        } else {
            None
        }
    }

    /// The test and conversion that [`Ili9341::spec_draw_pixel`] applies to
    /// each pixel.
    pub open spec fn spec_pixel_write(self) -> spec_fn(Pixel) -> Option<PixelWrite> {
        |pixel: Pixel| self.spec_draw_pixel(pixel)
    }

    /// What drawing a sequence of pixels sends: the writes of the pixels that
    /// are on screen, in the order of the pixels.
    pub open spec fn spec_draw_iter(self, pixels: Seq<Pixel>) -> Seq<PixelWrite> {
        pixels.filter_map(self.spec_pixel_write())
    }

    /// A display of the given size.
    pub fn new(width: u16, height: u16) -> (display: Ili9341)
        ensures
            display.spec_width() == width,
            display.spec_height() == height,
    {
        Ili9341 { width, height }
    }

    /// The width of the screen, in pixels.
    pub fn width(&self) -> (w: u16)
        ensures
            w == self.spec_width(),
    {
        self.width
    }

    /// The height of the screen, in pixels.
    pub fn height(&self) -> (h: u16)
        ensures
            h == self.spec_height(),
    {
        self.height
    }

    /// The size of the screen.
    pub fn size(&self) -> (s: Size)
        ensures
            s == self.spec_size(),
    {
        Size::new(self.width as u32, self.height as u32)
    }

    /// The rectangle of all pixels of the screen.
    pub fn bounding_box(&self) -> (bounds: Rectangle)
        ensures
            bounds == self.spec_bounding_box(),
            bounds.corners_fit(),
    {
        Rectangle::new(Point::new(0, 0), self.size())
    }

    /// Draws one pixel: returns the write to perform, or `None` for a
    /// position off screen, which is left out without an error.
    pub fn draw_pixel(&self, pixel: Pixel) -> (write: Option<PixelWrite>)
        ensures
            write == self.spec_draw_pixel(pixel),
    {
        let bounds = self.bounding_box();
        if bounds.contains(pixel.0) {
            Some(PixelWrite { x: pixel.0.x as u16, y: pixel.0.y as u16, word: encode(pixel.1) })
        } else {
            None
        }
    }

    /// Draws pixels one by one: returns the writes to perform, in order. Each
    /// pixel on screen gives one write; the others give none.
    pub fn draw_iter(&self, pixels: &[Pixel]) -> (writes: Vec<PixelWrite>)
        ensures
            writes@ == self.spec_draw_iter(pixels@),
    {
        let mut writes: Vec<PixelWrite> = Vec::new();
        let mut i: usize = 0;
        assert(pixels@.take(0).filter_map(self.spec_pixel_write()) =~= Seq::empty());
        while i < pixels.len()
            invariant
                i <= pixels.len(),
                writes@ == pixels@.take(i as int).filter_map(self.spec_pixel_write()),
            decreases pixels.len() - i,
        {
            proof {
                pixels@.lemma_filter_map_take_succ(self.spec_pixel_write(), i as int);
            }
            if let Some(write) = self.draw_pixel(pixels[i]) {
                writes.push(write);
            }
            i = i + 1;
        }
        assert(pixels@.take(pixels.len() as int) =~= pixels@);
        writes
    }

    /// Starts a fill of `area`. The writer that is returned says, step by
    /// step, what the fill needs.
    pub fn begin_fill(&self, area: &Rectangle) -> (writer: ChunkedWriter)
        requires
            area.corners_fit(),
        ensures
            writer.wf(),
            writer@ == FillView::start(*area, self.spec_bounding_box()),
    {
        ChunkedWriter::new(area, self.size())
    }

    /// Fills `area` with `colors`: returns the writes to perform, in order.
    ///
    /// The points of `area` are paired with the colours in row-major order.
    /// Points off screen take their colour with them; the others are written
    /// in batches of [`crate::fill::ROW_CHUNK`] rows. Colours that find no
    /// point are left over, points that find no colour stay as they are, and
    /// an area without a point on screen gives no write.
    pub fn fill_contiguous(&self, area: &Rectangle, colors: &[Rgb565]) -> (flushes: Vec<Flush>)
        requires
            area.corners_fit(),
        ensures
            flush_views(flushes@) == spec_flushes(*area, self.spec_bounding_box(), colors@),
    {
        let mut writer = self.begin_fill(area);
        let mut flushes: Vec<Flush> = Vec::new();
        let mut taken: usize = 0;
        let ghost bounds = self.spec_bounding_box();
        let ghost drawable = area.spec_intersection(bounds);
        proof {
            assert(colors@.take(0) =~= Seq::empty());
            writer.lemma_valid();
        }
        loop
            invariant
                writer.wf(),
                writer@.valid(),
                writer@.requested == *area,
                writer@.bounds == bounds,
                writer@.drawable() == drawable,
                !writer@.failed,
                taken <= colors.len(),
                writer@.colors == colors@.take(taken as int),
                writer@.exhausted ==> taken == colors.len(),
                flushes.len() == writer@.flushed,
                writer@.flushed <= drawable.size.height,
                forall|k: int|
                    0 <= k < flushes.len() ==> (#[trigger] flushes[k])@ == spec_flush(
                        drawable,
                        writer@.words(),
                        k as nat,
                    ),
            ensures
                writer@.action() == Action::Finished,
            decreases
                colors.len() - taken,
                (if writer@.exhausted { 0int } else { 1int }),
                drawable.size.height - writer@.flushed,
        {
            let ghost before = writer@;
            match writer.action() {
                Action::Pull => {
                    if taken < colors.len() {
                        proof {
                            before.lemma_pull_has_point();
                            assert(colors@.take(taken as int).push(colors@[taken as int])
                                =~= colors@.take(taken as int + 1));
                            lemma_surviving_push(
                                *area,
                                drawable,
                                before.colors,
                                colors@[taken as int],
                            );
                        }
                        writer.push(colors[taken]);
                        taken = taken + 1;
                        proof {
                            writer.lemma_valid();
                            assert(writer@.words().take(before.words().len() as int)
                                =~= before.words());
                            assert forall|k: int| 0 <= k < flushes.len() implies (#[trigger] flushes[k])@
                                == spec_flush(drawable, writer@.words(), k as nat) by {
                                lemma_full_batch_stays(
                                    drawable,
                                    before.words(),
                                    writer@.words(),
                                    before.flushed,
                                    k as nat,
                                );
                            }
                        }
                    } else {
                        writer.end_of_colors();
                        proof {
                            writer.lemma_valid();
                        }
                    }
                },
                Action::Write(window) => {
                    proof {
                        before.lemma_rows_left();
                    }
                    let words = copy_words(writer.buffer());
                    flushes.push(Flush { window, words });
                    let _ = writer.written(Ok(()));
                    proof {
                        writer.lemma_valid();
                        before.lemma_pending_is_batch();
                    }
                },
                Action::Finished => {
                    break ;
                },
            }
        }
        proof {
            let v = writer@;
            lemma_drawable_on_screen(*area, bounds);
            if v.complete() {
                lemma_surviving_settled(*area, drawable, colors@, taken as int);
            } else {
                assert(colors@.take(taken as int) =~= colors@);
            }
            let words = spec_surviving(*area, drawable, colors@);
            assert(v.words() == words);
            assert(v.pending().len() == 0);
            assert(v.flushed * v.capacity() >= words.len());
            if v.capacity() > 0 {
                lemma_chunks(words.len(), v.capacity(), v.flushed);
            } else {
                lemma_surviving_none(*area, drawable, colors@);
                assert((v.flushed - 1) * 0 == 0) by (nonlinear_arith);
            }
            assert(flushes.len() == spec_chunks(words.len(), spec_capacity(drawable)));
            assert(flush_views(flushes@).len() == spec_flushes(*area, bounds, colors@).len());
            assert forall|k: int| 0 <= k < flushes.len() implies flush_views(flushes@)[k] == spec_flushes(*area, bounds, colors@)[k] by {
                assert(flushes[k]@ == spec_flush(drawable, words, k as nat));
            }
            assert(flush_views(flushes@) =~= spec_flushes(*area, bounds, colors@));
        }
        flushes
    }

    /// Clears the screen: fills the whole bounding box with one colour.
    /// Returns the writes to perform, in order.
    pub fn clear(&self, color: Rgb565) -> (flushes: Vec<Flush>)
        ensures
            flush_views(flushes@) == spec_flushes(
                self.spec_bounding_box(),
                self.spec_bounding_box(),
                Seq::new(self.spec_bounding_box().spec_area(), |i: int| color),
            ),
    {
        let bounds = self.bounding_box();
        let count: u64 = bounds.area();
        let mut colors: Vec<Rgb565> = Vec::new();
        let mut i: u64 = 0;
        while i < count
            invariant
                i <= count,
                colors@ == Seq::new(i as nat, |k: int| color),
            decreases count - i,
        {
            colors.push(color);
            i = i + 1;
            assert(colors@ =~= Seq::new(i as nat, |k: int| color));
        }
        self.fill_contiguous(&bounds, colors.as_slice())
    }
}

/// A copy of the words.
fn copy_words(words: &Vec<WireWord>) -> (copy: Vec<WireWord>)
    ensures
        copy@ == words@,
{
    let mut copy: Vec<WireWord> = Vec::with_capacity(words.len());
    let mut i: usize = 0;
    while i < words.len()
        invariant
            i <= words.len(),
            copy@ == words@.take(i as int),
        decreases words.len() - i,
    {
        copy.push(words[i]);
        i = i + 1;
        assert(copy@ =~= words@.take(i as int));
    }
    assert(words@.take(words.len() as int) =~= words@);
    copy
}

} // verus!
