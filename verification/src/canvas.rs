//! The pixel grid of a render.

use vstd::prelude::*;

verus! {

/// The place of column `x` of row `y` in a buffer that stores rows of `width`
/// pixels one after the other.
pub open spec fn row_major(width: int, x: int, y: int) -> int {
    y * width + x
}

/// Every pixel inside a `width` by `height` grid has a place inside a buffer
/// of `width * height` pixels.
pub proof fn lemma_row_major_in_range(width: int, height: int, x: int, y: int)
    requires
        0 <= x < width,
        0 <= y < height,
    ensures
        0 <= row_major(width, x, y) < width * height,
{
    assert(y * width + x < width * height) by (nonlinear_arith)
        requires
            0 <= x < width,
            0 <= y < height,
    ;
    assert(0 <= y * width + x) by (nonlinear_arith)
        requires
            0 <= x < width,
            0 <= y,
    ;
}

/// No two pixels of a grid share a place: the place of a pixel gives back its
/// column and its row.
pub proof fn lemma_row_major_injective(width: int, x1: int, y1: int, x2: int, y2: int)
    requires
        0 <= x1 < width,
        0 <= x2 < width,
        0 <= y1,
        0 <= y2,
        row_major(width, x1, y1) == row_major(width, x2, y2),
    ensures
        x1 == x2,
        y1 == y2,
{
    assert(y1 == y2) by (nonlinear_arith)
        requires
            0 <= x1 < width,
            0 <= x2 < width,
            0 <= y1,
            0 <= y2,
            y1 * width + x1 == y2 * width + x2,
    ;
}

/// A `width` by `height` grid of pixel values, stored row by row from the top.
///
/// The grid is at least one row high and never changes shape: every value of
/// this type holds exactly `width * height` pixels, whatever has been done to
/// it.
pub struct Canvas<P: Copy> {
    width: u32,
    height: u32,
    pixels: Vec<P>,
}

impl<P: Copy> View for Canvas<P> {
    type V = Seq<P>;

    /// The pixels in row-major order.
    closed spec fn view(&self) -> Seq<P> {
        self.pixels@
    }
}

impl<P: Copy> Canvas<P> {
    #[verifier::type_invariant]
    spec fn well_formed(&self) -> bool {
        &&& self.height >= 1
        &&& self.pixels@.len() == self.width * self.height
    }

    /// The number of columns as a specification value.
    pub closed spec fn spec_width(&self) -> u32 {
        self.width
    }

    /// The number of rows as a specification value.
    pub closed spec fn spec_height(&self) -> u32 {
        self.height
    }

    /// The position of pixel `(x, y)` in row-major order.
    pub open spec fn index_of(&self, x: u32, y: u32) -> int {
        row_major(self.width() as int, x as int, y as int)
    }

    /// The number of rows of a grid that is asked to be `height` rows high:
    /// `height` itself, but one where no row was asked for.
    pub open spec fn rows_for(height: u32) -> u32 {
        if height < 1 {
            1
        } else {
            height
        }
    }

    /// A grid with every pixel set to `fill`. A height of zero is raised to
    /// one.
    pub fn new(width: u32, height: u32, fill: P) -> (canvas: Self)
        requires
            width * Self::rows_for(height) <= usize::MAX,
        ensures
            canvas.width() == width,
            canvas.height() == Self::rows_for(height),
            canvas@.len() == width * Self::rows_for(height),
            forall|i: int| 0 <= i < canvas@.len() ==> canvas@[i] == fill,
    {
        let height: u32 = if height < 1 {
            1
        } else {
            height
        };
        let count: usize = (width as usize) * (height as usize);
        let mut pixels: Vec<P> = Vec::new();
        while pixels.len() < count
            invariant
                pixels@.len() <= count,
                forall|i: int| 0 <= i < pixels@.len() ==> pixels@[i] == fill,
            decreases count - pixels@.len(),
        {
            pixels.push(fill);
        }
        Canvas { width, height, pixels }
    }

    /// A grid over pixels that are already laid out row by row.
    ///
    /// The pixels are taken as they are when the grid has a row and there
    /// are exactly `width * height` of them, and refused otherwise.
    pub fn from_pixels(width: u32, height: u32, pixels: Vec<P>) -> (canvas: Option<Self>)
        ensures
            canvas.is_some() <==> height >= 1 && pixels@.len() == width * height,
            canvas matches Some(c) ==> c.width() == width && c.height() == height && c@
                == pixels@,
    {
        let expected: u64 = Self::pixel_count(width, height);
        if height >= 1 && pixels.len() as u64 == expected {
            Some(Canvas { width, height, pixels })
        } else {
            None
        }
    }

    /// The number of pixels in a `width` by `height` grid.
    fn pixel_count(width: u32, height: u32) -> (count: u64)
        ensures
            count == width * height,
            count <= 0xFFFF_FFFE_0000_0001,
    {
        assert(width * height <= u32::MAX * u32::MAX) by (nonlinear_arith)
            requires
                0 <= width <= u32::MAX,
                0 <= height <= u32::MAX,
        ;
        (width as u64) * (height as u64)
    }

    /// The number of columns.
    #[verifier::when_used_as_spec(spec_width)]
    pub fn width(&self) -> (w: u32)
        ensures
            w == self.width(),
    {
        self.width
    }

    /// The number of rows, which is at least one.
    #[verifier::when_used_as_spec(spec_height)]
    pub fn height(&self) -> (h: u32)
        ensures
            h == self.height(),
            h >= 1,
    {
        proof {
            use_type_invariant(self);
        }
        self.height
    }

    /// Stores `color` at column `x` of row `y`.
    ///
    /// The pixel is addressed by its row-major position `y * width + x`; a
    /// position past the last pixel leaves the grid as it was.
    pub fn set_pixel(&mut self, x: u32, y: u32, color: P)
        ensures
            final(self).width() == old(self).width(),
            final(self).height() == old(self).height(),
            old(self).index_of(x, y) < old(self)@.len() ==> final(self)@ == old(self)@.update(
                old(self).index_of(x, y),
                color,
            ),
            old(self).index_of(x, y) >= old(self)@.len() ==> final(self)@ == old(self)@,
    {
        proof {
            use_type_invariant(&*self);
        }
        let row_start: u64 = Self::pixel_count(y, self.width);
        let index: u64 = row_start + (x as u64);
        if index < self.pixels.len() as u64 {
            self.pixels[index as usize] = color;
        }
    }

    /// The pixels in row-major order.
    pub fn pixels(&self) -> (pixels: &[P])
        ensures
            pixels@ == self@,
            pixels@.len() == self.width() * self.height(),
    {
        proof {
            use_type_invariant(self);
        }
        self.pixels.as_slice()
    }
}

} // verus!
