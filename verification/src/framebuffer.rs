//! A rectangle of packed-RGB pixels, kept in one flat row-major buffer.

use vstd::prelude::*;
use crate::layout::{cell_index, dimensions_ok, row_major};

verus! {

/// The bits of a `u32` that carry a packed colour: `0x00RRGGBB`.
pub const RGB_MASK: u32 = 0x00FF_FFFF;

/// The colour of every pixel of a new framebuffer, and its first background.
pub const BLACK: u32 = 0x0000_0000;

/// The first drawing colour of a new framebuffer.
pub const WHITE: u32 = 0x00FF_FFFF;

/// A packed-RGB value has nothing above its 24 colour bits.
pub open spec fn is_rgb(color: u32) -> bool {
    color <= RGB_MASK
}

/// The packed-RGB value a `u32` stands for: the value itself when it is one,
/// otherwise its low 24 bits.
pub open spec fn rgb_of(color: u32) -> u32 {
    color & RGB_MASK
}

/// `rgb_of` always yields a packed-RGB value, and changes none.
pub proof fn lemma_rgb_of(color: u32)
    ensures
        is_rgb(rgb_of(color)),
        is_rgb(color) ==> rgb_of(color) == color,
{
    assert(color & 0x00FF_FFFFu32 <= 0x00FF_FFFFu32) by (bit_vector);
    assert(color <= 0x00FF_FFFFu32 ==> color & 0x00FF_FFFFu32 == color) by (bit_vector);
}

/// What a framebuffer holds, as mathematics: its size, its pixels row by row,
/// and the two colours it remembers.
pub struct Canvas {
    pub width: int,
    pub height: int,
    pub pixels: Seq<u32>,
    pub background: u32,
    pub current: u32,
}

impl Canvas {
    /// There is one packed-RGB pixel for each cell of the rectangle, and both
    /// remembered colours are packed RGB.
    pub open spec fn wf(self) -> bool {
        &&& dimensions_ok(self.width, self.height)
        &&& self.pixels.len() == self.width * self.height
        &&& forall|i: int| 0 <= i < self.pixels.len() ==> is_rgb(#[trigger] self.pixels[i])
        &&& is_rgb(self.background)
        &&& is_rgb(self.current)
    }

    /// Whether `(x, y)` names a pixel of the rectangle.
    pub open spec fn contains(self, x: int, y: int) -> bool {
        0 <= x < self.width && 0 <= y < self.height
    }

    /// The colour of pixel `(x, y)`.
    pub open spec fn pixel(self, x: int, y: int) -> u32
        recommends
            self.contains(x, y),
    {
        self.pixels[row_major(self.width, x, y)]
    }

    /// The canvas with every pixel set to the background colour.
    pub open spec fn cleared(self) -> Canvas {
        Canvas { pixels: Seq::new(self.pixels.len(), |i: int| self.background), ..self }
    }

    /// The canvas after a point write at `(x, y)`: that pixel takes the
    /// current colour; a write outside the rectangle changes nothing.
    pub open spec fn plotted(self, x: int, y: int) -> Canvas {
        if self.contains(x, y) {
            Canvas { pixels: self.pixels.update(row_major(self.width, x, y), self.current), ..self }
        } else {
            self
        }
    }

    /// A point write colours its own pixel and leaves every other pixel as it
    /// was.
    pub proof fn lemma_plotted_pixel(self, x: int, y: int, px: int, py: int)
        requires
            self.wf(),
            self.contains(x, y),
            self.contains(px, py),
        ensures
            self.plotted(x, y).pixel(px, py) == (if px == x && py == y {
                self.current
            } else {
                self.pixel(px, py)
            }),
    {
        crate::layout::lemma_row_major_bounds(self.width, self.height, x, y);
        crate::layout::lemma_row_major_bounds(self.width, self.height, px, py);
        if row_major(self.width, px, py) == row_major(self.width, x, y) {
            crate::layout::lemma_row_major_injective(self.width, px, py, x, y);
        }
    }
}

/// A pixel buffer of fixed size with a background colour, used by `clear`,
/// and a current colour, used by `point`.
pub struct Framebuffer {
    width: usize,
    height: usize,
    buffer: Vec<u32>,
    background_color: u32,
    current_color: u32,
}

impl View for Framebuffer {
    type V = Canvas;

    closed spec fn view(&self) -> Canvas {
        Canvas {
            width: self.width as int,
            height: self.height as int,
            pixels: self.buffer@,
            background: self.background_color,
            current: self.current_color,
        }
    }
}

impl Framebuffer {
    /// The invariant of a framebuffer: its canvas is well formed.
    pub open spec fn wf(&self) -> bool {
        self@.wf()
    }

    /// A `width` by `height` framebuffer, all black, that clears to black and
    /// draws in white.
    pub fn new(width: usize, height: usize) -> (fb: Self)
        requires
            dimensions_ok(width as int, height as int),
        ensures
            fb.wf(),
            fb@ == (Canvas {
                width: width as int,
                height: height as int,
                pixels: Seq::new((width * height) as nat, |i: int| BLACK),
                background: BLACK,
                current: WHITE,
            }),
    {
        let buffer: Vec<u32> = vec![BLACK; width * height];
        let fb = Framebuffer {
            width,
            height,
            buffer,
            background_color: BLACK,
            current_color: WHITE,
        };
        assert(fb@.pixels =~= Seq::new((width * height) as nat, |i: int| BLACK));
        fb
    }

    /// Number of pixels in a row.
    pub fn width(&self) -> (w: usize)
        ensures
            w == self@.width,
    {
        self.width
    }

    /// Number of rows.
    pub fn height(&self) -> (h: usize)
        ensures
            h == self@.height,
    {
        self.height
    }

    /// The pixels, row by row, as the display takes them.
    pub fn buffer(&self) -> (pixels: &Vec<u32>)
        ensures
            pixels@ == self@.pixels,
    {
        &self.buffer
    }

    /// The colour that `clear` fills with.
    pub fn background_color(&self) -> (color: u32)
        ensures
            color == self@.background,
    {
        self.background_color
    }

    /// The colour that `point` writes.
    pub fn current_color(&self) -> (color: u32)
        ensures
            color == self@.current,
    {
        self.current_color
    }

    /// Remembers `color` as the background for later clears. No pixel
    /// changes. Bits above the 24 colour bits are dropped.
    pub fn set_background_color(&mut self, color: u32)
        requires
            old(self).wf(),
        ensures
            final(self).wf(),
            final(self)@ == (Canvas { background: rgb_of(color), ..old(self)@ }),
            is_rgb(color) ==> final(self)@.background == color,
    {
        proof {
            lemma_rgb_of(color);
        }
        self.background_color = color & RGB_MASK;
    }

    /// Remembers `color` as the colour of later point writes. No pixel
    /// changes. Bits above the 24 colour bits are dropped.
    pub fn set_current_color(&mut self, color: u32)
        requires
            old(self).wf(),
        ensures
            final(self).wf(),
            final(self)@ == (Canvas { current: rgb_of(color), ..old(self)@ }),
            is_rgb(color) ==> final(self)@.current == color,
    {
        proof {
            lemma_rgb_of(color);
        }
        self.current_color = color & RGB_MASK;
    }

    /// Sets every pixel to the background colour.
    pub fn clear(&mut self)
        requires
            old(self).wf(),
        ensures
            final(self).wf(),
            final(self)@ == old(self)@.cleared(),
            forall|i: int|
                0 <= i < final(self)@.pixels.len() ==> #[trigger] final(self)@.pixels[i]
                    == old(self)@.background,
    {
        let n: usize = self.buffer.len();
        let mut i: usize = 0;
        while i < n
            invariant
                i <= n,
                n == self.buffer.len(),
                self.width == old(self).width,
                self.height == old(self).height,
                self.background_color == old(self).background_color,
                self.current_color == old(self).current_color,
                forall|j: int| 0 <= j < i ==> #[trigger] self.buffer@[j] == self.background_color,
            decreases n - i,
        {
            self.buffer[i] = self.background_color;
            i = i + 1;
        }
        assert(self@.pixels =~= old(self)@.cleared().pixels);
    }

    /// Writes the current colour at `(x, y)`. A coordinate outside the
    /// framebuffer is ignored: nothing changes.
    pub fn point(&mut self, x: usize, y: usize)
        requires
            old(self).wf(),
        ensures
            final(self).wf(),
            final(self)@ == old(self)@.plotted(x as int, y as int),
    {
        if x < self.width && y < self.height {
            let index: usize = cell_index(self.width, self.height, x, y);
            self.buffer[index] = self.current_color;
        }
    }
}

} // verus!
