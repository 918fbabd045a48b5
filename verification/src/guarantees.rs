//! What a fill guarantees, proved of the model in [`crate::fill`].

use vstd::prelude::*;
use vstd::arithmetic::div_mod::*;
use crate::color::{Rgb565, WireWord};
use crate::geometry::{lemma_clip_idempotent, spec_clip, Rectangle};
use crate::transport::{Action, FlushView};
use crate::fill::{
    lemma_chunks_cover, lemma_surviving, lemma_surviving_none, spec_capacity, spec_chunks,
    spec_drawn, spec_drawn_from, spec_flush, spec_flushes, spec_paired, spec_surviving, ROW_CHUNK,
};
use crate::writer::{lemma_drawable_on_screen, spec_is_screen, FillView};

verus! {

/// All words of a sequence of writes, in the order in which they are sent.
pub open spec fn spec_written(flushes: Seq<FlushView>) -> Seq<WireWord>
    decreases flushes.len(),
{
    if flushes.len() == 0 {
        Seq::empty()
    } else {
        spec_written(flushes.drop_last()) + flushes.last().words
    }
}

/// Filling a rectangle that shares no point with the screen writes nothing,
/// and the fill is finished before it takes a colour.
pub proof fn lemma_off_screen_writes_nothing(requested: Rectangle, bounds: Rectangle, colors: Seq<Rgb565>)
    requires
        spec_clip(requested, bounds) is None,
    ensures
        spec_flushes(requested, bounds, colors).len() == 0,
        FillView::start(requested, bounds).action() == Action::Finished,
{
    let drawable = requested.spec_intersection(bounds);
    lemma_surviving_none(requested, drawable, colors);
    lemma_surviving_none(requested, drawable, Seq::empty());
    assert(drawable.size.width * drawable.size.height == 0) by (nonlinear_arith)
        requires
            drawable.size.width == 0 || drawable.size.height == 0,
    ;
}

/// The writes of a fill, put end to end, are the surviving words: no word is
/// lost, none is sent twice, and the order is kept.
pub proof fn lemma_flushes_carry_all_words(requested: Rectangle, bounds: Rectangle, colors: Seq<Rgb565>)
    ensures
        spec_written(spec_flushes(requested, bounds, colors)) == spec_surviving(
            requested,
            requested.spec_intersection(bounds),
            colors,
        ),
{
    let drawable = requested.spec_intersection(bounds);
    let words = spec_surviving(requested, drawable, colors);
    let capacity = spec_capacity(drawable);
    let count = spec_chunks(words.len(), capacity);
    if capacity == 0 {
        lemma_surviving_none(requested, drawable, colors);
        assert(words =~= Seq::empty());
    } else {
        lemma_chunks_cover(words.len(), capacity, 0);
        lemma_first_flushes(drawable, words, count);
        assert(spec_flushes(requested, bounds, colors) =~= Seq::new(
            count,
            |k: int| spec_flush(drawable, words, k as nat),
        ));
        assert(words.take(words.len() as int) =~= words);
    }
}

/// The first `m` batches of `words`, put end to end, are the first
/// `m * capacity` words, or all words where there are fewer.
proof fn lemma_first_flushes(drawable: Rectangle, words: Seq<WireWord>, m: nat)
    requires
        spec_capacity(drawable) > 0,
        m <= spec_chunks(words.len(), spec_capacity(drawable)),
    ensures
        spec_written(Seq::new(m, |k: int| spec_flush(drawable, words, k as nat))) == words.take(
            if m * spec_capacity(drawable) <= words.len() {
                (m * spec_capacity(drawable)) as int
            } else {
                words.len() as int
            },
        ),
    decreases m,
{
    let c = spec_capacity(drawable) as int;
    let first = Seq::new(m, |k: int| spec_flush(drawable, words, k as nat));
    if m == 0 {
        assert(0 * c == 0) by (nonlinear_arith);
        assert(words.take(0) =~= Seq::empty());
    } else {
        let fewer = Seq::new((m - 1) as nat, |k: int| spec_flush(drawable, words, k as nat));
        lemma_first_flushes(drawable, words, (m - 1) as nat);
        lemma_chunks_cover(words.len(), c as nat, m - 1);
        assert(first.drop_last() =~= fewer);
        assert(first.last() == spec_flush(drawable, words, (m - 1) as nat));
        assert((m - 1) * c + c == m * c) by (nonlinear_arith);
        let end = if m * c <= words.len() { m * c } else { words.len() as int };
        assert(words.take((m - 1) * c) + words.subrange((m - 1) * c, end) =~= words.take(end));
    }
}

/// A fill of a rectangle that lies on screen writes as many words as there
/// are colours, or as there are points where the colours outnumber them.
pub proof fn lemma_on_screen_word_count(requested: Rectangle, bounds: Rectangle, colors: Seq<Rgb565>)
    requires
        requested.corners_fit(),
        spec_clip(requested, bounds) == Some(requested),
    ensures
        spec_written(spec_flushes(requested, bounds, colors)).len() == spec_paired(
            requested,
            colors.len(),
        ),
        spec_surviving(requested, requested, colors).len() == spec_paired(requested, colors.len()),
{
    lemma_flushes_carry_all_words(requested, bounds, colors);
    lemma_surviving(requested, requested, colors);
    let n = spec_paired(requested, colors.len()) as int;
    let rw = requested.size.width as int;
    let rh = requested.size.height as int;
    lemma_fundamental_div_mod(n, rw);
    lemma_mod_bound(n, rw);
    lemma_div_pos_is_pos(n, rw);
    let row = n / rw;
    let col = n % rw;
    assert(rw * row == row * rw) by (nonlinear_arith);
    if row >= rh {
        assert(row * rw >= rh * rw) by (nonlinear_arith)
            requires
                row >= rh,
                rw > 0,
        ;
        assert(rh * rw == rw * rh) by (nonlinear_arith);
    }
}

/// Points off screen do not shift the colours: word `j` of a fill encodes the
/// colour whose position in the colour sequence is the position, in the
/// row-major order of `requested`, of point `j` of the drawable rectangle.
pub proof fn lemma_colors_keep_their_points(requested: Rectangle, bounds: Rectangle, colors: Seq<Rgb565>, j: int)
    requires
        requested.corners_fit(),
        bounds.corners_fit(),
        0 <= j < spec_surviving(requested, requested.spec_intersection(bounds), colors).len(),
    ensures
        spec_drawn_from(requested, requested.spec_intersection(bounds), colors, j),
        spec_surviving(requested, requested.spec_intersection(bounds), colors).len() == spec_drawn(
            requested,
            requested.spec_intersection(bounds),
            spec_paired(requested, colors.len()) as int,
        ),
{
    let drawable = requested.spec_intersection(bounds);
    lemma_clip_idempotent(requested, bounds);
    if drawable.spec_is_zero_sized() {
        lemma_surviving_none(requested, drawable, colors);
    } else {
        lemma_surviving(requested, drawable, colors);
    }
}

/// Every write of a fill stays inside the drawable rectangle. Its window
/// spans the columns of the drawable rectangle and at most `ROW_CHUNK` of its
/// rows, starting `ROW_CHUNK` rows below the window before; its words fit
/// the window. Every write but the last fills its window; and once every
/// point has its word, the last window ends at the bottom row of the
/// drawable rectangle.
pub proof fn lemma_windows_stay_in_drawable(requested: Rectangle, bounds: Rectangle, colors: Seq<Rgb565>, k: int)
    requires
        requested.corners_fit(),
        spec_is_screen(bounds),
        0 <= k < spec_flushes(requested, bounds, colors).len(),
    ensures
        ({
            let drawable = requested.spec_intersection(bounds);
            let words = spec_surviving(requested, drawable, colors);
            let flushes = spec_flushes(requested, bounds, colors);
            let window = flushes[k].window;
            let rows = window.y1 - window.y0 + 1;
            &&& bounds.spec_encloses(drawable)
            &&& window.x0 == drawable.left()
            &&& window.x1 == drawable.right() - 1
            &&& window.y0 == drawable.top() + k * ROW_CHUNK
            &&& window.y0 <= window.y1 < drawable.bottom()
            &&& rows <= ROW_CHUNK
            &&& 0 < flushes[k].words.len() <= drawable.size.width * rows
            &&& k + 1 < flushes.len() ==> {
                &&& rows == ROW_CHUNK
                &&& flushes[k].words.len() == drawable.size.width * ROW_CHUNK
            }
            &&& k + 1 == flushes.len() && words.len() == drawable.spec_area() ==> {
                &&& window.y1 == drawable.bottom() - 1
                &&& flushes[k].words.len() == drawable.size.width * rows
            }
        }),
{
    let drawable = requested.spec_intersection(bounds);
    let words = spec_surviving(requested, drawable, colors);
    let flushes = spec_flushes(requested, bounds, colors);
    let c = spec_capacity(drawable) as int;
    let n = words.len() as int;
    let dw = drawable.size.width as int;
    let dh = drawable.size.height as int;
    let count = spec_chunks(words.len(), c as nat) as int;
    lemma_drawable_on_screen(requested, bounds);
    lemma_clip_idempotent(requested, bounds);
    lemma_surviving(requested, drawable, colors);
    lemma_chunks_cover(words.len(), c as nat, k);
    lemma_chunks_cover(words.len(), c as nat, k + 1);
    assert(k * 16 < dh && k * c == dw * (k * 16) && (k + 1) * c == dw * (k * 16 + 16)) by (nonlinear_arith)
        requires
            k * c < n,
            n <= dw * dh,
            c == dw * 16,
            dw > 0,
            k >= 0,
    ;
    assert(k * c + c == (k + 1) * c) by (nonlinear_arith);
    let rows = if k * 16 + 16 <= dh { 16 } else { dh - k * 16 };
    assert(dw * rows == dw * (k * 16 + rows) - dw * (k * 16)) by (nonlinear_arith);
    if k * 16 + 16 > dh {
        assert(dw * (k * 16 + rows) == dw * dh);
    }
    if k + 1 == count && n == dw * dh {
        assert(k * 16 + 16 >= dh) by (nonlinear_arith)
            requires
                (k + 1) * c >= n,
                n == dw * dh,
                (k + 1) * c == dw * (k * 16 + 16),
                dw > 0,
        ;
    }
    if k + 1 < count {
        assert(k * 16 + 16 < dh) by (nonlinear_arith)
            requires
                (k + 1) * c < n,
                n <= dw * dh,
                (k + 1) * c == dw * (k * 16 + 16),
                dw > 0,
        ;
    }
}

/// A fill with points on screen that gives every one of them its word sends
/// one write for every `ROW_CHUNK` rows of the drawable rectangle, and one
/// more for the rows that are left over.
pub proof fn lemma_full_fill_batches(requested: Rectangle, bounds: Rectangle, colors: Seq<Rgb565>)
    requires
        requested.corners_fit(),
        bounds.corners_fit(),
        spec_clip(requested, bounds) is Some,
        spec_surviving(requested, requested.spec_intersection(bounds), colors).len()
            == requested.spec_intersection(bounds).spec_area(),
    ensures
        spec_flushes(requested, bounds, colors).len() == (requested.spec_intersection(
            bounds,
        ).size.height + ROW_CHUNK - 1) / (ROW_CHUNK as int),
{
    let drawable = requested.spec_intersection(bounds);
    let dw = drawable.size.width as int;
    let dh = drawable.size.height as int;
    let c = spec_capacity(drawable) as int;
    let n = dw * dh;
    let count = spec_chunks(n as nat, c as nat) as int;
    lemma_chunks_cover(n as nat, c as nat, count - 1);
    assert(dw * dh > 0) by (nonlinear_arith)
        requires
            dw > 0,
            dh > 0,
    ;
    assert(count * 16 >= dh && (count - 1) * 16 < dh) by (nonlinear_arith)
        requires
            count * c >= dw * dh,
            (count - 1) * c < dw * dh,
            c == dw * 16,
            dw > 0,
    ;
    lemma_fundamental_div_mod_converse(dh + 15, 16, count, dh + 15 - count * 16);
}

} // verus!
