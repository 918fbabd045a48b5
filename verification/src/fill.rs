//! What a fill writes: the model of the chunked writer.
//!
//! A fill pairs the points of the requested rectangle, in row-major order,
//! with the colours it is given. Pairs whose point is off screen are dropped;
//! the colours of the others are encoded and sent in batches of
//! [`ROW_CHUNK`] rows of the drawable rectangle.

use vstd::prelude::*;
use vstd::arithmetic::div_mod::*;
use crate::color::{Rgb565, WireWord, spec_encode};
use crate::geometry::{Point, Rectangle};
use crate::transport::{Window, FlushView};

verus! {

/// The number of rows of the drawable rectangle that one batch covers.
pub const ROW_CHUNK: u32 = 16;

/// How many of `supplied` colours find a point of `requested` to pair with.
pub open spec fn spec_paired(requested: Rectangle, supplied: nat) -> nat {
    if supplied <= requested.spec_area() {
        supplied
    } else {
        requested.spec_area()
    }
}

/// The points of `requested` in row-major order, each with the colour at the
/// same position of `colors`, as far as both reach.
pub open spec fn spec_pairs(requested: Rectangle, colors: Seq<Rgb565>) -> Seq<(Point, Rgb565)> {
    Seq::new(
        spec_paired(requested, colors.len()),
        |i: int| (requested.spec_point(i), colors[i]),
    )
}

/// The test that keeps the pairs whose point lies in `drawable`.
pub open spec fn spec_on_screen(drawable: Rectangle) -> spec_fn((Point, Rgb565)) -> bool {
    |pair: (Point, Rgb565)| drawable.spec_contains(pair.0)
}

/// The wire word of a pair's colour.
pub open spec fn spec_word_of() -> spec_fn((Point, Rgb565)) -> WireWord {
    |pair: (Point, Rgb565)| spec_encode(pair.1)
}

/// The words that a fill of `requested` with `colors` writes when
/// `drawable` is the part of it on screen, in the order in which they are
/// written.
pub open spec fn spec_surviving(requested: Rectangle, drawable: Rectangle, colors: Seq<Rgb565>) -> Seq<WireWord> {
    spec_pairs(requested, colors).filter(spec_on_screen(drawable)).map_values(spec_word_of())
}

/// The number of words that the buffer of a fill holds at most: those of
/// `ROW_CHUNK` rows of the drawable rectangle. Without a point to draw there
/// is no buffer.
pub open spec fn spec_capacity(drawable: Rectangle) -> nat {
    if drawable.spec_is_zero_sized() {
        0
    } else {
        (drawable.size.width * ROW_CHUNK) as nat
    }
}

/// The number of batches that `words` words make.
pub open spec fn spec_chunks(words: nat, capacity: nat) -> nat {
    if capacity == 0 {
        0
    } else {
        ((words + capacity - 1) / (capacity as int)) as nat
    }
}

/// The window of batch `k`: the columns of `drawable` and its rows from
/// `k * ROW_CHUNK` on, `ROW_CHUNK` of them or as many as are left.
pub open spec fn spec_window(drawable: Rectangle, k: nat) -> Window {
    let first = drawable.top() + k * ROW_CHUNK;
    let last = first + ROW_CHUNK - 1;
    let bottom = drawable.bottom() - 1;
    Window {
        x0: drawable.left() as u16,
        y0: first as u16,
        x1: (drawable.right() - 1) as u16,
        y1: (if last <= bottom { last } else { bottom }) as u16,
    }
}

/// Batch `k` of `words`.
pub open spec fn spec_flush(drawable: Rectangle, words: Seq<WireWord>, k: nat) -> FlushView {
    let capacity = spec_capacity(drawable) as int;
    let start = k * capacity;
    let end = if start + capacity <= words.len() { start + capacity } else { words.len() as int };
    FlushView { window: spec_window(drawable, k), words: words.subrange(start, end) }
}

/// The writes of a whole fill of `requested` with `colors` on a screen with
/// the bounding box `bounds`, in order.
pub open spec fn spec_flushes(requested: Rectangle, bounds: Rectangle, colors: Seq<Rgb565>) -> Seq<FlushView> {
    let drawable = requested.spec_intersection(bounds);
    let words = spec_surviving(requested, drawable, colors);
    Seq::new(
        spec_chunks(words.len(), spec_capacity(drawable)),
        |k: int| spec_flush(drawable, words, k as nat),
    )
}

/// The position in the colour sequence of the colour that is drawn at point
/// `j` of `drawable`, counted in row-major order: the position of that point
/// in the row-major order of `requested`.
pub open spec fn spec_source_index(requested: Rectangle, drawable: Rectangle, j: int) -> int {
    let dw = drawable.size.width as int;
    (drawable.top() - requested.top() + j / dw) * requested.size.width + (drawable.left()
        - requested.left()) + j % dw
}

/// How many of the first `n` points of `requested` lie in `drawable`.
pub open spec fn spec_drawn(requested: Rectangle, drawable: Rectangle, n: int) -> int {
    spec_block_count(
        requested.size.width as int,
        drawable.left() - requested.left(),
        drawable.top() - requested.top(),
        drawable.size.width as int,
        drawable.size.height as int,
        n,
    )
}

/// In a grid `rw` cells wide, walked row by row: how many of the first `n`
/// cells lie in the block that starts at column `ox` and row `oy` and is `dw`
/// cells wide and `dh` cells high.
pub open spec fn spec_block_count(rw: int, ox: int, oy: int, dw: int, dh: int, n: int) -> int {
    let row = n / rw;
    let col = n % rw;
    let rows_done = if row <= oy { 0 } else if row - oy >= dh { dh } else { row - oy };
    let in_row = if oy <= row < oy + dh {
        if col <= ox { 0 } else if col - ox >= dw { dw } else { col - ox }
    } else {
        0
    };
    rows_done * dw + in_row
}

/// Whether cell `n` of the walk lies in the block.
pub open spec fn spec_in_block(rw: int, ox: int, oy: int, dw: int, dh: int, n: int) -> bool {
    ox <= n % rw < ox + dw && oy <= n / rw < oy + dh
}

/// One more cell of the walk adds one to the count exactly when the cell lies
/// in the block, and then the count before it is the cell's position within
/// the block.
pub proof fn lemma_block_step(rw: int, ox: int, oy: int, dw: int, dh: int, n: int)
    requires
        0 <= ox,
        0 <= oy,
        0 < dw,
        0 < dh,
        ox + dw <= rw,
        0 <= n,
    ensures
        spec_block_count(rw, ox, oy, dw, dh, n + 1) == spec_block_count(rw, ox, oy, dw, dh, n) + (if spec_in_block(rw, ox, oy, dw, dh, n) { 1int } else { 0int }),
        0 <= spec_block_count(rw, ox, oy, dw, dh, n) <= dw * dh,
        spec_in_block(rw, ox, oy, dw, dh, n) ==> {
            let j = spec_block_count(rw, ox, oy, dw, dh, n);
            &&& j < dw * dh
            &&& j / dw == n / rw - oy
            &&& j % dw == n % rw - ox
        },
{
    let row = n / rw;
    let col = n % rw;
    lemma_fundamental_div_mod(n, rw);
    lemma_mod_bound(n, rw);
    lemma_div_pos_is_pos(n, rw);
    assert(n == rw * row + col);
    assert(rw * row == row * rw) by (nonlinear_arith);
    if col + 1 < rw {
        lemma_fundamental_div_mod_converse(n + 1, rw, row, col + 1);
    } else {
        assert((row + 1) * rw + 0 == n + 1) by (nonlinear_arith)
            requires
                n == row * rw + col,
                col + 1 == rw,
        ;
        lemma_fundamental_div_mod_converse(n + 1, rw, row + 1, 0);
    }
    let rows_done = if row <= oy { 0 } else if row - oy >= dh { dh } else { row - oy };
    assert(0 <= rows_done * dw <= dh * dw) by (nonlinear_arith)
        requires
            0 <= rows_done <= dh,
            0 < dw,
    ;
    assert(dh * dw == dw * dh) by (nonlinear_arith);
    assert((rows_done + 1) * dw == rows_done * dw + dw) by (nonlinear_arith);
    if oy <= row < oy + dh {
        assert(rows_done * dw + dw <= dh * dw) by (nonlinear_arith)
            requires
                0 <= rows_done < dh,
                0 < dw,
        ;
    }
    if spec_in_block(rw, ox, oy, dw, dh, n) {
        let j = spec_block_count(rw, ox, oy, dw, dh, n);
        assert(j == (row - oy) * dw + (col - ox));
        lemma_fundamental_div_mod_converse(j, dw, row - oy, col - ox);
    }
}

/// Whether `drawable` holds points and is a part of `requested`, a rectangle
/// whose corners fit.
pub open spec fn spec_well_clipped(requested: Rectangle, drawable: Rectangle) -> bool {
    &&& requested.corners_fit()
    &&& !drawable.spec_is_zero_sized()
    &&& requested.spec_encloses(drawable)
}

/// A point of the walk over `requested` lies in `drawable` exactly when its
/// cell lies in the block that `drawable` cuts out of `requested`.
pub proof fn lemma_point_in_block(requested: Rectangle, drawable: Rectangle, i: int)
    requires
        spec_well_clipped(requested, drawable),
        0 <= i < requested.spec_area(),
    ensures
        drawable.spec_contains(requested.spec_point(i)) == spec_in_block(
            requested.size.width as int,
            drawable.left() - requested.left(),
            drawable.top() - requested.top(),
            drawable.size.width as int,
            drawable.size.height as int,
            i,
        ),
        requested.spec_point(i).x == requested.left() + i % (requested.size.width as int),
        requested.spec_point(i).y == requested.top() + i / (requested.size.width as int),
        0 <= i % (requested.size.width as int) < requested.size.width,
        0 <= i / (requested.size.width as int) < requested.size.height,
{
    let rw = requested.size.width as int;
    let rh = requested.size.height as int;
    assert(rw > 0 && rh > 0) by (nonlinear_arith)
        requires
            0 <= i < rw * rh,
            rw >= 0,
            rh >= 0,
    ;
    lemma_mod_bound(i, rw);
    lemma_div_pos_is_pos(i, rw);
    lemma_multiply_divide_lt(i, rw, rh);
}

/// One more colour adds its word to the surviving words exactly when a point
/// of `requested` is left to pair it with and that point lies in `drawable`.
pub proof fn lemma_surviving_push(requested: Rectangle, drawable: Rectangle, colors: Seq<Rgb565>, color: Rgb565)
    ensures
        spec_surviving(requested, drawable, colors.push(color)) == if colors.len()
            < requested.spec_area() && drawable.spec_contains(
            requested.spec_point(colors.len() as int),
        ) {
            spec_surviving(requested, drawable, colors).push(spec_encode(color))
        } else {
            spec_surviving(requested, drawable, colors)
        },
{
    let n = colors.len() as int;
    let before = spec_pairs(requested, colors);
    let after = spec_pairs(requested, colors.push(color));
    if n < requested.spec_area() {
        let pair = (requested.spec_point(n), color);
        assert(after =~= before.push(pair));
        before.lemma_filter_push(pair, spec_on_screen(drawable));
        let kept = before.filter(spec_on_screen(drawable));
        assert(kept.push(pair).map_values(spec_word_of()) =~= kept.map_values(spec_word_of()).push(
            spec_encode(color),
        ));
    } else {
        assert(after =~= before);
    }
}

/// Whether word `j` of the surviving words encodes the colour that was
/// paired with point `j` of `drawable`: the colour at the position that this
/// point has in the row-major order of `requested`.
pub open spec fn spec_drawn_from(requested: Rectangle, drawable: Rectangle, colors: Seq<Rgb565>, j: int) -> bool {
    let i = spec_source_index(requested, drawable, j);
    &&& 0 <= i < spec_paired(requested, colors.len())
    &&& requested.spec_point(i) == drawable.spec_point(j)
    &&& spec_surviving(requested, drawable, colors)[j] == spec_encode(colors[i])
}

/// The surviving words, one by one: there are as many as points of
/// `drawable` among the points that were paired, and word `j` encodes the
/// colour that was paired with point `j` of `drawable`.
pub proof fn lemma_surviving(requested: Rectangle, drawable: Rectangle, colors: Seq<Rgb565>)
    requires
        spec_well_clipped(requested, drawable),
    ensures
        spec_surviving(requested, drawable, colors).len() == spec_drawn(
            requested,
            drawable,
            spec_paired(requested, colors.len()) as int,
        ),
        spec_surviving(requested, drawable, colors).len() <= drawable.spec_area(),
        forall|j: int|
            0 <= j < spec_surviving(requested, drawable, colors).len() ==> #[trigger] spec_drawn_from(
                requested,
                drawable,
                colors,
                j,
            ),
    decreases colors.len(),
{
    let rw = requested.size.width as int;
    let ox = drawable.left() - requested.left();
    let oy = drawable.top() - requested.top();
    let dw = drawable.size.width as int;
    let dh = drawable.size.height as int;
    if colors.len() == 0 {
        assert(colors =~= Seq::empty());
        lemma_surviving_empty(requested, drawable);
        assert(0int / rw == 0 && 0int % rw == 0) by (nonlinear_arith)
            requires
                rw > 0,
        ;
        assert(0int * dw == 0) by (nonlinear_arith);
        assert(dw * dh >= 0) by (nonlinear_arith)
            requires
                dw >= 0,
                dh >= 0,
        ;
    } else {
        let prev = colors.drop_last();
        let last = colors.last();
        let n = prev.len() as int;
        assert(colors =~= prev.push(last));
        lemma_surviving(requested, drawable, prev);
        lemma_surviving_push(requested, drawable, prev, last);
        let before = spec_surviving(requested, drawable, prev);
        let after = spec_surviving(requested, drawable, colors);
        let j = before.len() as int;
        let grows = n < requested.spec_area() && drawable.spec_contains(requested.spec_point(n));
        if n < requested.spec_area() {
            lemma_point_in_block(requested, drawable, n);
            lemma_block_step(rw, ox, oy, dw, dh, n);
            lemma_fundamental_div_mod(n, rw);
        }
        if grows {
            assert(after == before.push(spec_encode(last)));
            assert(spec_source_index(requested, drawable, j) == n) by (nonlinear_arith)
                requires
                    spec_source_index(requested, drawable, j) == (oy + j / dw) * rw + ox + j % dw,
                    j / dw == n / rw - oy,
                    j % dw == n % rw - ox,
                    n == rw * (n / rw) + n % rw,
            {
            }
            assert(drawable.spec_point(j) == requested.spec_point(n));
        } else {
            assert(after == before);
        }
        assert forall|k: int| 0 <= k < after.len() implies #[trigger] spec_drawn_from(
            requested,
            drawable,
            colors,
            k,
        ) by {
            if k < j {
                assert(spec_drawn_from(requested, drawable, prev, k));
                assert(before[k] == after[k]);
            }
        }
    }
}

/// Once every point of `requested` has been paired, every point of
/// `drawable` has been drawn.
pub proof fn lemma_drawn_all(requested: Rectangle, drawable: Rectangle)
    requires
        spec_well_clipped(requested, drawable),
    ensures
        spec_drawn(requested, drawable, requested.spec_area() as int) == drawable.spec_area(),
{
    let rw = requested.size.width as int;
    let rh = requested.size.height as int;
    let dw = drawable.size.width as int;
    let dh = drawable.size.height as int;
    assert(rw * rh == rh * rw + 0) by (nonlinear_arith);
    lemma_fundamental_div_mod_converse(rw * rh, rw, rh, 0);
    assert(dh * dw == dw * dh) by (nonlinear_arith);
}

/// Before any colour has been taken, no word survives.
pub proof fn lemma_surviving_empty(requested: Rectangle, drawable: Rectangle)
    ensures
        spec_surviving(requested, drawable, Seq::empty()) == Seq::<WireWord>::empty(),
{
    reveal(Seq::filter);
    assert(spec_pairs(requested, Seq::empty()) =~= Seq::empty());
    assert(spec_surviving(requested, drawable, Seq::empty()) =~= Seq::<WireWord>::empty());
}

/// No word survives where the drawable rectangle holds no point.
pub proof fn lemma_surviving_none(requested: Rectangle, drawable: Rectangle, colors: Seq<Rgb565>)
    requires
        drawable.spec_is_zero_sized(),
    ensures
        spec_surviving(requested, drawable, colors).len() == 0,
    decreases colors.len(),
{
    if colors.len() == 0 {
        assert(colors =~= Seq::empty());
        lemma_surviving_empty(requested, drawable);
    } else {
        assert(colors =~= colors.drop_last().push(colors.last()));
        lemma_surviving_none(requested, drawable, colors.drop_last());
        lemma_surviving_push(requested, drawable, colors.drop_last(), colors.last());
    }
}

/// The surviving words never outnumber the points of the drawable rectangle.
pub proof fn lemma_surviving_bound(requested: Rectangle, drawable: Rectangle, colors: Seq<Rgb565>)
    requires
        drawable.spec_is_zero_sized() || spec_well_clipped(requested, drawable),
    ensures
        spec_surviving(requested, drawable, colors).len() <= drawable.spec_area(),
{
    if drawable.spec_is_zero_sized() {
        lemma_surviving_none(requested, drawable, colors);
    } else {
        lemma_surviving(requested, drawable, colors);
    }
}

/// Once every point of the drawable rectangle has its word, further colours
/// change nothing: the words of the first `n` colours are the words of all.
pub proof fn lemma_surviving_settled(requested: Rectangle, drawable: Rectangle, colors: Seq<Rgb565>, n: int)
    requires
        drawable.spec_is_zero_sized() || spec_well_clipped(requested, drawable),
        0 <= n <= colors.len(),
        spec_surviving(requested, drawable, colors.take(n)).len() == drawable.spec_area(),
    ensures
        spec_surviving(requested, drawable, colors) == spec_surviving(requested, drawable, colors.take(n)),
    decreases colors.len() - n,
{
    if n == colors.len() {
        assert(colors.take(n) =~= colors);
    } else {
        let shorter = colors.drop_last();
        assert(shorter.take(n) =~= colors.take(n));
        lemma_surviving_settled(requested, drawable, shorter, n);
        assert(colors =~= shorter.push(colors.last()));
        lemma_surviving_push(requested, drawable, shorter, colors.last());
        lemma_surviving_bound(requested, drawable, colors);
    }
}

/// The number of batches is the one number `k` for which `k - 1` full
/// batches hold fewer than all words and `k` full batches hold them all.
pub proof fn lemma_chunks(words: nat, capacity: nat, k: nat)
    requires
        capacity > 0,
        k * capacity >= words,
        k > 0 ==> (k - 1) * capacity < words,
    ensures
        spec_chunks(words, capacity) == k,
{
    let c = capacity as int;
    let w = words as int;
    if k == 0 {
        assert(0 * c == 0) by (nonlinear_arith);
        lemma_fundamental_div_mod_converse(w + c - 1, c, 0, c - 1);
    } else {
        let r = w + c - 1 - k * c;
        assert((k - 1) * c == k * c - c) by (nonlinear_arith);
        lemma_fundamental_div_mod_converse(w + c - 1, c, k as int, r);
    }
}

/// Fewer than `spec_chunks(words, capacity)` full batches hold fewer than
/// `words` words, and that many hold them all.
pub proof fn lemma_chunks_cover(words: nat, capacity: nat, k: int)
    requires
        capacity > 0,
    ensures
        0 <= k < spec_chunks(words, capacity) ==> k * capacity < words,
        spec_chunks(words, capacity) * capacity >= words,
        words > 0 ==> spec_chunks(words, capacity) > 0,
{
    let c = capacity as int;
    let w = words as int;
    let q = (w + c - 1) / c;
    lemma_fundamental_div_mod(w + c - 1, c);
    lemma_mod_bound(w + c - 1, c);
    assert(c * q == q * c) by (nonlinear_arith);
    if 0 <= k < q {
        assert(k * c <= q * c - c) by (nonlinear_arith)
            requires
                k <= q - 1,
                c > 0,
        ;
    }
    if w > 0 && q <= 0 {
        assert(q * c <= 0) by (nonlinear_arith)
            requires
                q <= 0,
                c > 0,
        ;
    }
}

/// A batch that was full stays the same batch when more words follow.
pub proof fn lemma_full_batch_stays(drawable: Rectangle, before: Seq<WireWord>, after: Seq<WireWord>, flushed: nat, k: nat)
    requires
        k < flushed,
        flushed * spec_capacity(drawable) <= before.len(),
        before.len() <= after.len(),
        after.take(before.len() as int) == before,
    ensures
        spec_flush(drawable, after, k) == spec_flush(drawable, before, k),
{
    let c = spec_capacity(drawable) as int;
    assert((k + 1) * c <= flushed * c) by (nonlinear_arith)
        requires
            k + 1 <= flushed,
            c >= 0,
    ;
    assert(k * c + c == (k + 1) * c) by (nonlinear_arith);
    assert(k * c >= 0) by (nonlinear_arith)
        requires
            c >= 0,
    ;
    assert forall|j: int| 0 <= j < before.len() implies #[trigger] after[j] == before[j] by {
        assert(after.take(before.len() as int)[j] == after[j]);
    }
    assert(spec_flush(drawable, after, k).words =~= spec_flush(drawable, before, k).words);
}

} // verus!
