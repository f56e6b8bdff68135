//! A width and a height of one scalar type.

use vstd::prelude::*;

verus! {

/// The extent of a rectangle: an image in pixels, a viewport in world units.
#[derive(Debug)]
pub struct Dimensions<T: Copy + Clone + PartialEq> {
    width: T,
    height: T,
}

impl<T: Copy + Clone + PartialEq> Clone for Dimensions<T> {
    fn clone(&self) -> (copy: Self)
        ensures
            copy == *self,
    {
        *self
    }
}

impl<T: Copy + Clone + PartialEq> Copy for Dimensions<T> {

}

impl<T: Copy + Clone + PartialEq> Dimensions<T> {
    /// The width as a specification value.
    pub closed spec fn spec_width(&self) -> T {
        self.width
    }

    /// The height as a specification value.
    pub closed spec fn spec_height(&self) -> T {
        self.height
    }

    /// Pairs a width with a height.
    pub fn new(width: T, height: T) -> (dims: Self)
        ensures
            dims.width() == width,
            dims.height() == height,
    {
        Dimensions { width, height }
    }

    /// The horizontal extent.
    #[verifier::when_used_as_spec(spec_width)]
    pub fn width(&self) -> (w: T)
        ensures
            w == self.width(),
    {
        self.width
    }

    /// The vertical extent.
    #[verifier::when_used_as_spec(spec_height)]
    pub fn height(&self) -> (h: T)
        ensures
            h == self.height(),
    {
        self.height
    }
}

/// Two extents with equal widths and equal heights are the same extent.
pub proof fn lemma_dimensions_extensional<T: Copy + Clone + PartialEq>(
    a: Dimensions<T>,
    b: Dimensions<T>,
)
    requires
        a.width() == b.width(),
        a.height() == b.height(),
    ensures
        a == b,
{
}

} // verus!
