//! Shared data types: colours, the generic pixel container and the error
//! reported for unusable input.

use vstd::prelude::*;

verus! {

/// Reported when a component is handed input it cannot work on: an image
/// without area, a kernel of even length, a grid that does not match its
/// stated size, or a table that is too short.
#[derive(Clone, Copy, Debug, PartialEq, Eq, Structural)]
pub struct InvalidInput;

/// Marker for types that describe the colour of one pixel.
pub trait Color {

}

/// A colour with red, green and blue channels in fixed point: a channel value
/// `v` stands for the level `v / ONE` on the 8-bit scale `0..=255`.
#[derive(Clone, Copy, Debug, PartialEq, Eq, Structural)]
pub struct RGB {
    pub r: i32,
    pub g: i32,
    pub b: i32,
}

impl Color for RGB {

}

/// Largest channel value of a colour in range: level 255.
pub const CHANNEL_MAX: i32 = 4177920;

impl RGB {
    /// Every channel lies between level 0 and level 255.
    pub open spec fn in_range(self) -> bool {
        &&& 0 <= self.r <= CHANNEL_MAX
        &&& 0 <= self.g <= CHANNEL_MAX
        &&& 0 <= self.b <= CHANNEL_MAX
    }

    /// The colour of an 8-bit pixel; the alpha byte is dropped.
    pub open spec fn of_pixel(p: (u8, u8, u8, u8)) -> RGB {
        RGB { r: (p.0 * 16384) as i32, g: (p.1 * 16384) as i32, b: (p.2 * 16384) as i32 }
    }

    /// Converts an 8-bit pixel to a fixed-point colour, dropping alpha.
    pub fn from_pixel(p: (u8, u8, u8, u8)) -> (c: RGB)
        ensures
            c == RGB::of_pixel(p),
            c.in_range(),
    {
        let r: i32 = p.0 as i32;
        let g: i32 = p.1 as i32;
        let b: i32 = p.2 as i32;
        RGB { r: r * 16384, g: g * 16384, b: b * 16384 }
    }
}

/// A rectangular pixel buffer that is filled in row-major order.
pub struct Image<T> where T: Color + Copy {
    data: Vec<T>,
    width: usize,
    height: usize,
}

impl<T> Image<T> where T: Color + Copy {
    /// The pixels stored so far, in row-major order.
    pub closed spec fn pixels(&self) -> Seq<T> {
        self.data@
    }

    pub closed spec fn spec_width(&self) -> nat {
        self.width as nat
    }

    pub closed spec fn spec_height(&self) -> nat {
        self.height as nat
    }

    /// No more pixels are stored than the image has room for.
    pub open spec fn wf(&self) -> bool {
        self.pixels().len() <= self.spec_width() * self.spec_height()
    }

    /// Whether every pixel of the image has been stored.
    pub open spec fn complete(&self) -> bool {
        self.pixels().len() == self.spec_width() * self.spec_height()
    }

    /// An image of the given size with no pixel stored yet.
    pub fn new(width: usize, height: usize) -> (img: Self)
        ensures
            img.spec_width() == width,
            img.spec_height() == height,
            img.pixels() == Seq::<T>::empty(),
            img.wf(),
    {
        let data: Vec<T> = match width.checked_mul(height) {
            Some(area) => Vec::with_capacity(area),
            None => Vec::new(),
        };
        assert(0 <= (width as nat) * (height as nat)) by (nonlinear_arith);
        Self { data, width, height }
    }

    pub fn width(&self) -> (w: usize)
        ensures
            w == self.spec_width(),
    {
        self.width
    }

    pub fn height(&self) -> (h: usize)
        ensures
            h == self.spec_height(),
    {
        self.height
    }

    /// Number of pixels stored so far.
    pub fn len(&self) -> (n: usize)
        ensures
            n == self.pixels().len(),
    {
        self.data.len()
    }

    /// Stores the next pixel in row-major order.
    pub fn push(&mut self, pixel: T)
        requires
            old(self).pixels().len() < old(self).spec_width() * old(self).spec_height(),
        ensures
            final(self).pixels() == old(self).pixels().push(pixel),
            final(self).spec_width() == old(self).spec_width(),
            final(self).spec_height() == old(self).spec_height(),
            final(self).wf(),
    {
        self.data.push(pixel);
    }

    /// The pixel at column `x`, row `y`, which has to be stored already.
    pub fn get_pixel(&self, x: usize, y: usize) -> (p: T)
        requires
            x + y * self.spec_width() < self.pixels().len(),
        ensures
            p == self.pixels()[x + y * self.spec_width()],
    {
        let n: usize = self.data.len();
        assert(0 <= y * self.width <= x + y * self.width < n) by (nonlinear_arith)
            requires
                x + y * self.width < n,
        ;
        self.data[x + y * self.width]
    }
}

} // verus!
