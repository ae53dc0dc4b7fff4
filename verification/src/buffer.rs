//! The pixel buffer: RGBA samples in rows from the top left.
use vstd::prelude::*;
use crate::binary32::ZERO;
use crate::error::EngineError;

verus! {

/// How many samples a pixel has: red, green, blue and alpha, in that order.
pub const CHANNELS: usize = 4;

/// The place of the alpha sample within a pixel.
pub const ALPHA: usize = 3;

/// Whether the samples of a buffer of this size can be stored: each sample
/// takes four bytes, and an allocation is at most `isize::MAX` bytes.
pub open spec fn storage_fits(width: u32, height: u32) -> bool {
    16 * (width * height) <= isize::MAX
}

/// Whether a position in the storage holds an alpha sample.
pub open spec fn is_alpha(i: int) -> bool {
    i % 4 == 3
}

/// An image of `width` by `height` pixels. Samples are linear light and may
/// lie outside the range from zero to one.
pub struct ImageBuffer {
    width: u32,
    height: u32,
    pixels: Vec<u32>,
}

impl View for ImageBuffer {
    type V = Seq<u32>;

    /// The samples, four to a pixel, row after row.
    closed spec fn view(&self) -> Seq<u32> {
        self.pixels@
    }
}

impl ImageBuffer {
    #[verifier::type_invariant]
    spec fn sized(&self) -> bool {
        &&& self.width > 0
        &&& self.height > 0
        &&& storage_fits(self.width, self.height)
        &&& self.pixels@.len() == 4 * (self.width * self.height)
    }

    /// The number of pixels in a row.
    pub closed spec fn width_spec(&self) -> u32 {
        self.width
    }

    /// The number of rows.
    pub closed spec fn height_spec(&self) -> u32 {
        self.height
    }

    /// Where the red sample of the pixel at (`x`, `y`) stands in the storage.
    pub open spec fn offset(&self, x: u32, y: u32) -> int {
        4 * (y * self.width() + x)
    }

    /// A buffer of the given size with every sample zero.
    ///
    /// Fails with `InvalidDimension` when a side is zero or the samples
    /// cannot be stored.
    pub fn new(width: u32, height: u32) -> (r: Result<ImageBuffer, EngineError>)
        ensures
            r is Ok <==> width > 0 && height > 0 && storage_fits(width, height),
            r is Err ==> r == Err::<ImageBuffer, EngineError>(EngineError::InvalidDimension),
            r is Ok ==> {
                &&& r.unwrap().width() == width
                &&& r.unwrap().height() == height
                &&& r.unwrap()@ == Seq::new((4 * (width * height)) as nat, |i: int| ZERO)
            },
    {
        if width == 0 || height == 0 {
            return Err(EngineError::InvalidDimension);
        }
        assert(width * height <= u64::MAX) by (nonlinear_arith)
            requires
                width <= u32::MAX,
                height <= u32::MAX,
        ;
        let area: u64 = (width as u64) * (height as u64);
        if area > (isize::MAX as u64) / 16 {
            return Err(EngineError::InvalidDimension);
        }
        let size: usize = (area * 4) as usize;
        let pixels: Vec<u32> = vec![ZERO; size];
        assert(pixels@ =~= Seq::new((4 * (width * height)) as nat, |i: int| ZERO));
        Ok(ImageBuffer { width, height, pixels })
    }

    /// The number of pixels in a row.
    #[verifier::when_used_as_spec(width_spec)]
    pub fn width(&self) -> (r: u32)
        ensures
            r == self.width(),
            r > 0,
    {
        proof {
            use_type_invariant(self);
        }
        self.width
    }

    /// The number of rows.
    #[verifier::when_used_as_spec(height_spec)]
    pub fn height(&self) -> (r: u32)
        ensures
            r == self.height(),
            r > 0,
    {
        proof {
            use_type_invariant(self);
        }
        self.height
    }

    /// The number of samples: four for each pixel.
    pub fn sample_count(&self) -> (r: usize)
        ensures
            r == self@.len(),
            r == 4 * (self.width() * self.height()),
            storage_fits(self.width(), self.height()),
    {
        proof {
            use_type_invariant(self);
        }
        self.pixels.len()
    }

    /// The four samples of the pixel at (`x`, `y`).
    ///
    /// Fails with `OutOfBounds` when the buffer has no such pixel.
    pub fn read_pixel(&self, x: u32, y: u32) -> (r: Result<[u32; 4], EngineError>)
        ensures
            r is Ok <==> x < self.width() && y < self.height(),
            r is Err ==> r == Err::<[u32; 4], EngineError>(EngineError::OutOfBounds),
            r is Ok ==> 0 <= self.offset(x, y) <= self@.len() - 4
                && r.unwrap()@ == self@.subrange(self.offset(x, y), self.offset(x, y) + 4),
    {
        proof {
            use_type_invariant(self);
        }
        if x >= self.width || y >= self.height {
            return Err(EngineError::OutOfBounds);
        }
        let o = self.index_of(x, y);
        let px = [self.pixels[o], self.pixels[o + 1], self.pixels[o + 2], self.pixels[o + 3]];
        assert(px@ =~= self@.subrange(o as int, o + 4));
        Ok(px)
    }

    /// Replaces the four samples of the pixel at (`x`, `y`).
    ///
    /// Fails with `OutOfBounds` when the buffer has no such pixel, and then
    /// changes nothing.
    pub fn write_pixel(&mut self, x: u32, y: u32, rgba: [u32; 4]) -> (r: Result<(), EngineError>)
        ensures
            final(self).width() == old(self).width(),
            final(self).height() == old(self).height(),
            r is Ok <==> x < old(self).width() && y < old(self).height(),
            r is Err ==> r == Err::<(), EngineError>(EngineError::OutOfBounds) && final(self)@ == old(
                self,
            )@,
            r is Ok ==> {
                let o = old(self).offset(x, y);
                &&& 0 <= o <= old(self)@.len() - 4
                &&& final(self)@ == old(self)@.subrange(0, o) + rgba@ + old(self)@.subrange(
                    o + 4,
                    old(self)@.len() as int,
                )
            },
    {
        proof {
            use_type_invariant(&*self);
        }
        if x >= self.width || y >= self.height {
            return Err(EngineError::OutOfBounds);
        }
        let o = self.index_of(x, y);
        self.pixels[o] = rgba[0];
        self.pixels[o + 1] = rgba[1];
        self.pixels[o + 2] = rgba[2];
        self.pixels[o + 3] = rgba[3];
        assert(self@ =~= old(self)@.subrange(0, o as int) + rgba@ + old(self)@.subrange(
            o + 4,
            old(self)@.len() as int,
        ));
        Ok(())
    }

    /// The storage, for reading.
    pub fn pixels(&self) -> (r: &[u32])
        ensures
            r@ == self@,
    {
        self.pixels.as_slice()
    }

    /// The sample at a position of the storage.
    pub(crate) fn sample(&self, i: usize) -> (r: u32)
        requires
            i < self@.len(),
        ensures
            r == self@[i as int],
    {
        self.pixels[i]
    }

    /// Replaces the sample at a position of the storage.
    pub(crate) fn set_sample(&mut self, i: usize, value: u32)
        requires
            i < old(self)@.len(),
        ensures
            final(self)@ == old(self)@.update(i as int, value),
            final(self).width() == old(self).width(),
            final(self).height() == old(self).height(),
    {
        proof {
            use_type_invariant(&*self);
        }
        self.pixels[i] = value;
    }

    fn index_of(&self, x: u32, y: u32) -> (o: usize)
        requires
            x < self.width(),
            y < self.height(),
        ensures
            o == self.offset(x, y),
            o + 4 <= self@.len(),
    {
        proof {
            use_type_invariant(self);
            assert(0 <= y * self.width <= y * self.width + x < self.width * self.height)
                by (nonlinear_arith)
                requires
                    0 <= x < self.width,
                    0 <= y < self.height,
            ;
        }
        let row: usize = (y as usize) * (self.width as usize);
        (row + x as usize) * 4
    }
}

} // verus!
