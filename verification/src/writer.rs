//! The chunked writer: a fill as a sequence of decisions.
//!
//! The writer never touches the bus. It says what it needs next (a colour,
//! or a write of its buffer to a window), and whoever drives it supplies the
//! colour or performs the write and reports how it went. A failed write ends
//! the fill.

use vstd::prelude::*;
use crate::color::{Rgb565, WireWord, encode};
use crate::geometry::{
    lemma_clip_idempotent, next_point, points_left, points_of, Point, Rectangle, Size,
};
use crate::transport::{Action, FlushView, Window};
use crate::fill::{
    lemma_chunks_cover, lemma_drawn_all, lemma_surviving, lemma_surviving_empty,
    lemma_surviving_none, lemma_surviving_push, spec_capacity, spec_chunks, spec_flush,
    spec_flushes, spec_surviving, spec_well_clipped, spec_window, ROW_CHUNK,
};
use embedded_graphics_core::primitives::rectangle::Points;
use display_interface::DisplayError;

verus! {

/// Whether `bounds` is the bounding box of a screen: it starts at the origin
/// and is at most `u16::MAX` pixels wide and high.
pub open spec fn spec_is_screen(bounds: Rectangle) -> bool {
    &&& bounds.top_left == Point { x: 0, y: 0 }
    &&& bounds.size.width <= u16::MAX
    &&& bounds.size.height <= u16::MAX
}

/// The bounding box of a screen of the given size: it starts at the origin.
pub open spec fn spec_screen(size: Size) -> Rectangle {
    Rectangle { top_left: Point { x: 0, y: 0 }, size }
}

/// A fill in progress, as the record of what has happened to it.
pub struct FillView {
    /// The rectangle that the caller asked to fill.
    pub requested: Rectangle,
    /// The bounding box of the screen.
    pub bounds: Rectangle,
    /// The colours taken so far, in order.
    pub colors: Seq<Rgb565>,
    /// The number of batches that the transport has accepted.
    pub flushed: nat,
    /// Whether the source of colours has run dry.
    pub exhausted: bool,
    /// Whether the transport has failed.
    pub failed: bool,
}

impl FillView {
    /// The part of the requested rectangle that is on screen.
    pub open spec fn drawable(self) -> Rectangle {
        self.requested.spec_intersection(self.bounds)
    }

    /// All words appended so far, written or not.
    pub open spec fn words(self) -> Seq<WireWord> {
        spec_surviving(self.requested, self.drawable(), self.colors)
    }

    /// The number of words that the buffer holds at most.
    pub open spec fn capacity(self) -> nat {
        spec_capacity(self.drawable())
    }

    /// The words that wait in the buffer: those after the batches that the
    /// transport has accepted.
    pub open spec fn pending(self) -> Seq<WireWord> {
        let start = self.flushed * self.capacity();
        if start <= self.words().len() {
            self.words().skip(start as int)
        } else {
            Seq::empty()
        }
    }

    /// Whether every point of the drawable rectangle has its word.
    pub open spec fn complete(self) -> bool {
        self.words().len() == self.drawable().spec_area()
    }

    /// What the fill needs next.
    ///
    /// After a failure nothing. Else a write, when the buffer holds words and
    /// is full, or holds the last words there will be. Else nothing, when no
    /// more words will come. Else the next colour.
    pub open spec fn action(self) -> Action {
        if self.failed {
            Action::Finished
        } else if self.pending().len() > 0 && (self.pending().len() == self.capacity()
            || self.complete() || self.exhausted) {
            Action::Write(spec_window(self.drawable(), self.flushed))
        } else if self.complete() || self.exhausted {
            Action::Finished
        } else {
            Action::Pull
        }
    }

    /// What holds of every fill that was started by [`FillView::start`] and
    /// went on by the steps below, each taken when the fill asked for it.
    pub open spec fn valid(self) -> bool {
        &&& self.requested.corners_fit()
        &&& spec_is_screen(self.bounds)
        &&& self.colors.len() <= self.requested.spec_area()
        &&& self.pending().len() <= self.capacity()
        &&& self.flushed > 0 ==> (self.flushed - 1) * self.capacity() < self.words().len()
        &&& self.flushed * self.capacity() > self.words().len() ==> self.complete()
            || self.exhausted
    }

    /// A fill of `requested` on a screen with the bounding box `bounds`,
    /// before anything has happened.
    pub open spec fn start(requested: Rectangle, bounds: Rectangle) -> FillView {
        FillView { requested, bounds, colors: Seq::empty(), flushed: 0, exhausted: false, failed: false }
    }

    /// The fill after it has taken `color`.
    pub open spec fn pushed(self, color: Rgb565) -> FillView {
        FillView { colors: self.colors.push(color), ..self }
    }

    /// The fill after it has learned that no colour is left.
    pub open spec fn ran_dry(self) -> FillView {
        FillView { exhausted: true, ..self }
    }

    /// The fill after the transport has accepted the batch it was handed.
    pub open spec fn accepted(self) -> FillView {
        FillView { flushed: self.flushed + 1, ..self }
    }

    /// The fill after the transport has failed.
    pub open spec fn broken(self) -> FillView {
        FillView { failed: true, ..self }
    }
}

/// A fill in progress.
pub struct ChunkedWriter {
    requested: Rectangle,
    bounds: Rectangle,
    drawable: Rectangle,
    corner: Point,
    walk: Points,
    buffer: Vec<WireWord>,
    capacity: usize,
    drawn: u64,
    total: u64,
    chunk: u32,
    exhausted: bool,
    failed: bool,
    colors: Ghost<Seq<Rgb565>>,
}

impl View for ChunkedWriter {
    type V = FillView;

    closed spec fn view(&self) -> FillView {
        FillView {
            requested: self.requested,
            bounds: self.bounds,
            colors: self.colors@,
            flushed: self.chunk as nat,
            exhausted: self.exhausted,
            failed: self.failed,
        }
    }
}

/// What clipping against a screen gives: a drawable rectangle whose
/// coordinates fit in `u16`.
pub proof fn lemma_drawable_on_screen(requested: Rectangle, bounds: Rectangle)
    requires
        requested.corners_fit(),
        spec_is_screen(bounds),
    ensures
        requested.spec_intersection(bounds).corners_fit(),
        !requested.spec_intersection(bounds).spec_is_zero_sized() ==> {
            let drawable = requested.spec_intersection(bounds);
            &&& spec_well_clipped(requested, drawable)
            &&& 0 <= drawable.left()
            &&& 0 <= drawable.top()
            &&& drawable.right() <= u16::MAX
            &&& drawable.bottom() <= u16::MAX
        },
{
    lemma_clip_idempotent(requested, bounds);
}

impl ChunkedWriter {
    /// Whether the writer's fields agree with each other and with its record.
    pub closed spec fn wf(&self) -> bool {
        let v = self@;
        let drawable = v.drawable();
        &&& v.valid()
        &&& self.drawable == drawable
        &&& !drawable.spec_is_zero_sized() ==> self.corner == (Point {
            x: (drawable.right() - 1) as i32,
            y: (drawable.bottom() - 1) as i32,
        })
        &&& self.capacity == v.capacity()
        &&& self.total == drawable.spec_area()
        &&& self.drawn == v.words().len()
        &&& self.buffer@ == v.pending()
        &&& points_left(self.walk) == self.requested.spec_points().skip(v.colors.len() as int)
    }

    /// Starts a fill of `requested` on a screen of the given size.
    ///
    /// Nothing has been taken or written yet. Where no point of `requested`
    /// is on screen, the fill is finished from the start.
    pub fn new(requested: &Rectangle, screen: Size) -> (writer: ChunkedWriter)
        requires
            requested.corners_fit(),
            screen.width <= u16::MAX,
            screen.height <= u16::MAX,
        ensures
            writer.wf(),
            writer@ == FillView::start(*requested, spec_screen(screen)),
    {
        let bounds = Rectangle { top_left: Point { x: 0, y: 0 }, size: screen };
        let drawable = requested.intersection(&bounds);
        proof {
            lemma_drawable_on_screen(*requested, bounds);
            lemma_surviving_empty(*requested, drawable);
        }
        let mut corner = Point { x: 0, y: 0 };
        let mut capacity: usize = 0;
        if let Some(p) = drawable.bottom_right() {
            let width: usize = drawable.size.width as usize;
            let rows: usize = ROW_CHUNK as usize;
            assert(width * rows <= 0xffff * 16) by (nonlinear_arith)
                requires
                    width <= 0xffff,
                    rows == 16,
            ;
            corner = p;
            capacity = width * rows;
        }
        let total: u64 = drawable.area();
        let walk = points_of(requested);
        let writer = ChunkedWriter {
            requested: *requested,
            bounds,
            drawable,
            corner,
            walk,
            buffer: Vec::with_capacity(capacity),
            capacity,
            drawn: 0,
            total,
            chunk: 0,
            exhausted: false,
            failed: false,
            colors: Ghost(Seq::empty()),
        };
        proof {
            assert(writer@.words() =~= Seq::empty());
            assert(0 * writer@.capacity() == 0) by (nonlinear_arith);
            assert(writer@.pending() =~= Seq::empty());
            assert(requested.spec_points().skip(0) =~= requested.spec_points());
        }
        writer
    }

    /// A well-formed writer has a valid record.
    pub proof fn lemma_valid(&self)
        requires
            self.wf(),
        ensures
            self@.valid(),
    {
    }

    /// What the fill needs next.
    pub fn action(&self) -> (next: Action)
        requires
            self.wf(),
        ensures
            next == self@.action(),
    {
        if self.failed {
            return Action::Finished;
        }
        let pending: usize = self.buffer.len();
        let settled: bool = self.drawn == self.total || self.exhausted;
        if pending > 0 && (pending == self.capacity || settled) {
            Action::Write(self.window())
        } else if settled {
            Action::Finished
        } else {
            Action::Pull
        }
    }

    /// The words to write when the fill asks for a write. There are never
    /// more of them than the buffer was made for.
    pub fn buffer(&self) -> (words: &Vec<WireWord>)
        requires
            self.wf(),
        ensures
            words@ == self@.pending(),
            words@.len() <= self@.capacity(),
    {
        &self.buffer
    }

    /// The number of words that the buffer holds at most: those of
    /// `ROW_CHUNK` rows of the drawable rectangle.
    pub fn capacity(&self) -> (words: usize)
        requires
            self.wf(),
        ensures
            words == self@.capacity(),
    {
        self.capacity
    }

    /// The window of the batch that is in the buffer.
    fn window(&self) -> (w: Window)
        requires
            self.wf(),
            self@.pending().len() > 0,
        ensures
            w == spec_window(self@.drawable(), self@.flushed),
    {
        proof {
            self@.lemma_rows_left();
        }
        let top: u32 = self.drawable.top_left.y as u32;
        let bottom: u32 = self.corner.y as u32;
        let first: u32 = top + self.chunk * ROW_CHUNK;
        let last: u32 = first + (ROW_CHUNK - 1);
        let end: u32 = if last <= bottom { last } else { bottom };
        Window {
            x0: self.drawable.top_left.x as u16,
            y0: first as u16,
            x1: self.corner.x as u16,
            y1: end as u16,
        }
    }

    /// Takes the next colour. It is paired with the next point of the
    /// requested rectangle; where that point is on screen, the colour's word
    /// joins the buffer.
    pub fn push(&mut self, color: Rgb565)
        requires
            old(self).wf(),
            old(self)@.action() == Action::Pull,
        ensures
            final(self).wf(),
            final(self)@ == old(self)@.pushed(color),
    {
        proof {
            self@.lemma_pull_has_point();
            lemma_surviving_push(self.requested, self.drawable, self.colors@, color);
            lemma_drawable_on_screen(self.requested, self.bounds);
            lemma_surviving(self.requested, self.drawable, self.colors@.push(color));
        }
        let ghost before = self@;
        let ghost left = points_left(self.walk);
        let next = next_point(&mut self.walk);
        assert(next == Some(self.requested.spec_point(before.colors.len() as int)));
        if let Some(point) = next {
            if self.drawable.contains(point) {
                self.buffer.push(encode(color));
                self.drawn = self.drawn + 1;
            }
        }
        self.colors = Ghost(self.colors@.push(color));
        proof {
            let after = self@;
            let start = (before.flushed * before.capacity()) as int;
            assert(after == before.pushed(color));
            assert(start <= before.words().len());
            assert(after.pending() =~= self.buffer@);
            assert(left.drop_first() =~= self.requested.spec_points().skip(
                after.colors.len() as int,
            ));
            assert(before.flushed > 0 ==> (before.flushed - 1) * before.capacity() < after.words().len());
        }
    }

    /// Learns that no colour is left. Words that wait in the buffer are the
    /// last batch.
    pub fn end_of_colors(&mut self)
        requires
            old(self).wf(),
            old(self)@.action() == Action::Pull,
        ensures
            final(self).wf(),
            final(self)@ == old(self)@.ran_dry(),
    {
        self.exhausted = true;
    }

    /// Learns how the write that the fill asked for went, and hands the
    /// outcome back as it came. After a success the buffer is empty and the
    /// next batch starts `ROW_CHUNK` rows further down; a failure ends the
    /// fill.
    pub fn written(&mut self, outcome: Result<(), DisplayError>) -> (result: Result<(), DisplayError>)
        requires
            old(self).wf(),
            old(self)@.action() is Write,
        ensures
            final(self).wf(),
            result == outcome,
            outcome is Ok ==> final(self)@ == old(self)@.accepted(),
            outcome is Err ==> final(self)@ == old(self)@.broken(),
    {
        let ghost before = self@;
        match outcome {
            Ok(done) => {
                proof {
                    before.lemma_rows_left();
                }
                self.buffer.clear();
                self.chunk = self.chunk + 1;
                proof {
                    let after = self@;
                    assert(after == before.accepted());
                    assert((before.flushed + 1) * before.capacity() == before.flushed
                        * before.capacity() + before.capacity()) by (nonlinear_arith);
                    assert(after.pending() =~= Seq::empty());
                }
                Ok(done)
            },
            Err(e) => {
                self.failed = true;
                Err(e)
            },
        }
    }
}

impl FillView {
    /// A fill is valid when it starts.
    pub proof fn lemma_start_is_valid(requested: Rectangle, bounds: Rectangle)
        requires
            requested.corners_fit(),
            spec_is_screen(bounds),
        ensures
            FillView::start(requested, bounds).valid(),
    {
        let fill = FillView::start(requested, bounds);
        lemma_surviving_empty(requested, fill.drawable());
        assert(0 * fill.capacity() == 0) by (nonlinear_arith);
    }

    /// A valid fill stays valid through every step that it asks for: taking
    /// a colour or learning that none is left while it asks for one, and
    /// learning how a write went while it asks for that write.
    pub proof fn lemma_steps_keep_valid(self, color: Rgb565)
        requires
            self.valid(),
        ensures
            self.action() == Action::Pull ==> self.pushed(color).valid() && self.ran_dry().valid(),
            self.action() is Write ==> self.accepted().valid() && self.broken().valid(),
            self.action() is Write ==> self.accepted().pending().len() == 0,
    {
        let c = self.capacity() as int;
        let f = self.flushed as int;
        assert(f * c + c == (f + 1) * c) by (nonlinear_arith);
        if self.action() == Action::Pull {
            self.lemma_pull_has_point();
            lemma_surviving_push(self.requested, self.drawable(), self.colors, color);
            let next = self.pushed(color);
            assert(next.pending().len() <= self.pending().len() + 1);
        }
    }

    /// While words wait in the buffer, the drawable rectangle holds points,
    /// its coordinates fit in `u16`, and the rows of the batches accepted so
    /// far do not reach its bottom.
    pub proof fn lemma_rows_left(self)
        requires
            self.valid(),
            self.pending().len() > 0,
        ensures
            spec_well_clipped(self.requested, self.drawable()),
            self.drawable().corners_fit(),
            0 <= self.drawable().left(),
            0 <= self.drawable().top(),
            self.drawable().right() <= u16::MAX,
            self.drawable().bottom() <= u16::MAX,
            self.flushed * ROW_CHUNK < self.drawable().size.height,
            self.flushed * self.capacity() < self.words().len(),
            self.words().len() <= self.drawable().spec_area(),
    {
        let drawable = self.drawable();
        lemma_drawable_on_screen(self.requested, self.bounds);
        if drawable.spec_is_zero_sized() {
            lemma_surviving_none(self.requested, drawable, self.colors);
        } else {
            lemma_surviving(self.requested, drawable, self.colors);
            let f = self.flushed as int;
            let dw = drawable.size.width as int;
            let dh = drawable.size.height as int;
            let n = self.words().len() as int;
            assert(f * 16 < dh) by (nonlinear_arith)
                requires
                    f * (dw * 16) < n,
                    n <= dw * dh,
                    dw > 0,
                    f >= 0,
            ;
        }
    }

    /// What a fill hands out when it asks for a write is the next batch of
    /// its words: the words that wait in the buffer are batch number
    /// `flushed` of all words so far, and the window is that batch's window.
    pub proof fn lemma_pending_is_batch(self)
        requires
            self.valid(),
            self.action() is Write,
        ensures
            self.action() == Action::Write(
                spec_flush(self.drawable(), self.words(), self.flushed).window,
            ),
            self.pending() == spec_flush(self.drawable(), self.words(), self.flushed).words,
    {
        let c = self.capacity() as int;
        let f = self.flushed as int;
        assert(f * c + c == (f + 1) * c) by (nonlinear_arith);
        assert(self.pending() =~= spec_flush(self.drawable(), self.words(), self.flushed).words);
    }

    /// What a fill hands out when it asks for a write is a write of the whole
    /// fill: it is write number `flushed` of the fill of the colours taken so
    /// far.
    pub proof fn lemma_write_is_flush_of_fill(self)
        requires
            self.valid(),
            self.action() is Write,
        ensures
            self.flushed < spec_flushes(self.requested, self.bounds, self.colors).len(),
            spec_flushes(self.requested, self.bounds, self.colors)[self.flushed as int] == (FlushView {
                window: self.action()->0,
                words: self.pending(),
            }),
    {
        self.lemma_rows_left();
        self.lemma_pending_is_batch();
        let c = self.capacity() as int;
        let f = self.flushed as int;
        let n = self.words().len();
        lemma_chunks_cover(n, c as nat, f);
        let count = spec_chunks(n, c as nat) as int;
        assert(f < count) by (nonlinear_arith)
            requires
                f * c < n,
                count * c >= n,
                c > 0,
        ;
    }

    /// A fill that asks for a colour has a point left to pair it with, and
    /// its buffer has room.
    pub proof fn lemma_pull_has_point(self)
        requires
            self.valid(),
            self.action() == Action::Pull,
        ensures
            spec_well_clipped(self.requested, self.drawable()),
            self.colors.len() < self.requested.spec_area(),
            self.words().len() < self.drawable().spec_area(),
            self.flushed * self.capacity() <= self.words().len(),
            self.pending().len() < self.capacity(),
    {
        let drawable = self.drawable();
        lemma_drawable_on_screen(self.requested, self.bounds);
        if drawable.spec_is_zero_sized() {
            lemma_surviving_none(self.requested, drawable, self.colors);
            assert(drawable.size.width * drawable.size.height == 0) by (nonlinear_arith)
                requires
                    drawable.size.width == 0 || drawable.size.height == 0,
            ;
        } else {
            lemma_surviving(self.requested, drawable, self.colors);
            lemma_drawn_all(self.requested, drawable);
        }
    }
}

} // verus!
