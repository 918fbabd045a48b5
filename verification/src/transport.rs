//! What the bus is asked to do: the values that pass between this crate and
//! the code that owns the transport.

use vstd::prelude::*;
use crate::color::WireWord;

verus! {

/// The failure that a transport reports.
#[verifier::external_type_specification]
#[verifier::external_body]
pub struct ExDisplayError(display_interface::DisplayError);

/// The part of the screen that one write is addressed to, in device pixel
/// coordinates. Both corners belong to the window.
#[derive(Clone, Copy, Debug, PartialEq, Eq, Structural)]
pub struct Window {
    pub x0: u16,
    pub y0: u16,
    pub x1: u16,
    pub y1: u16,
}

/// A write of one word to one pixel.
#[derive(Clone, Copy, Debug, PartialEq, Eq, Structural)]
pub struct PixelWrite {
    pub x: u16,
    pub y: u16,
    pub word: WireWord,
}

/// A write of a batch of words to a window. The words fill the window in
/// row-major order, starting at its top left corner.
#[derive(Clone, Debug, PartialEq, Eq)]
pub struct Flush {
    pub window: Window,
    pub words: Vec<WireWord>,
}

/// A [`Flush`] as a mathematical value.
pub struct FlushView {
    pub window: Window,
    pub words: Seq<WireWord>,
}

impl View for Flush {
    type V = FlushView;

    open spec fn view(&self) -> FlushView {
        FlushView { window: self.window, words: self.words@ }
    }
}

/// The views of a sequence of flushes.
pub open spec fn flush_views(flushes: Seq<Flush>) -> Seq<FlushView> {
    Seq::new(flushes.len(), |k: int| flushes[k]@)
}

/// What a fill in progress asks of its driver next.
#[derive(Clone, Copy, Debug, PartialEq, Eq, Structural)]
pub enum Action {
    /// Hand over the next colour, or say that there is none.
    Pull,
    /// Write the buffered words to this window and report the outcome.
    Write(Window),
    /// Nothing is left to do.
    Finished,
}

impl PixelWrite {
    /// The window of one pixel that the write is addressed to.
    pub open spec fn spec_window(self) -> Window {
        Window { x0: self.x, y0: self.y, x1: self.x, y1: self.y }
    }

    /// The window of one pixel that the write is addressed to.
    pub fn window(&self) -> (w: Window)
        ensures
            w == self.spec_window(),
    {
        Window { x0: self.x, y0: self.y, x1: self.x, y1: self.y }
    }
}

} // verus!
