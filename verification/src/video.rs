//! The display buffer: a 64x32 grid of one-bit pixels with XOR write
//! semantics and a dirty flag that records whether any pixel changed since
//! the last present.

use vstd::prelude::*;

verus! {

use crate::DISPLAY_HEIGHT;
use crate::DISPLAY_SIZE;
use crate::DISPLAY_WIDTH;
use crate::bits::lemma_and1;
use crate::bits::lemma_xor_bit;

/// Mathematical view of the display: the pixel grid in row-major order and
/// the dirty flag.
#[verifier::ext_equal]
pub ghost struct DisplayView {
    pub pixels: Seq<u8>,
    pub dirty: bool,
}

/// The all-black pixel grid.
pub open spec fn blank_display() -> Seq<u8> {
    Seq::new(DISPLAY_SIZE as nat, |k: int| 0u8)
}

/// Well-formedness: the grid has exactly one cell per pixel and every cell
/// holds strictly 0 or 1.
pub open spec fn display_wf(d: DisplayView) -> bool {
    &&& d.pixels.len() == DISPLAY_SIZE
    &&& forall|k: int| 0 <= k < DISPLAY_SIZE ==> d.pixels[k] <= 1
}

/// The display buffer.
pub struct VideoDevice {
    pixelmap: Vec<u8>,
    dirty: bool,
}

impl View for VideoDevice {
    type V = DisplayView;

    closed spec fn view(&self) -> DisplayView {
        DisplayView { pixels: self.pixelmap@, dirty: self.dirty }
    }
}

impl VideoDevice {
    /// A fresh display: all pixels off, marked dirty so that the first
    /// present draws it.
    pub fn new() -> (r: VideoDevice)
        ensures
            r@.pixels == blank_display(),
            r@.dirty == true,
            display_wf(r@),
    {
        let pixelmap: Vec<u8> = vec![0u8; DISPLAY_SIZE];
        proof {
            assert(pixelmap@ =~= blank_display());
        }
        VideoDevice { pixelmap, dirty: true }
    }

    /// Set every pixel to 0 and mark the display dirty.
    pub fn clear(&mut self)
        ensures
            final(self)@.pixels == blank_display(),
            final(self)@.dirty == true,
            display_wf(final(self)@),
    {
        let pixelmap: Vec<u8> = vec![0u8; DISPLAY_SIZE];
        proof {
            assert(pixelmap@ =~= blank_display());
        }
        self.pixelmap = pixelmap;
        self.dirty = true;
    }

    /// Row-major index of the cell for pixel (x, y).
    pub fn get_pixel_byte_addr(&self, x: u8, y: u8) -> (r: usize)
        requires
            x < DISPLAY_WIDTH,
            y < DISPLAY_HEIGHT,
        ensures
            r == x + y * DISPLAY_WIDTH,
            r < DISPLAY_SIZE,
    {
        (x as usize) + (y as usize) * DISPLAY_WIDTH
    }

    /// Read the pixel at (x, y).
    pub fn get_pixel(&self, x: u8, y: u8) -> (r: u8)
        requires
            display_wf(self@),
            x < DISPLAY_WIDTH,
            y < DISPLAY_HEIGHT,
        ensures
            r == self@.pixels[x + y * DISPLAY_WIDTH],
            r <= 1,
    {
        let addr = self.get_pixel_byte_addr(x, y);
        self.pixelmap[addr]
    }

    /// XOR the low bit of `val` into the pixel at (x, y). The dirty flag is
    /// raised exactly when the pixel changes, which is when that bit is 1.
    pub fn set_pixel(&mut self, x: u8, y: u8, val: u8)
        requires
            display_wf(old(self)@),
            x < DISPLAY_WIDTH,
            y < DISPLAY_HEIGHT,
        ensures
            ({
                let addr = x + y * DISPLAY_WIDTH;
                &&& final(self)@.pixels == old(self)@.pixels.update(
                    addr,
                    old(self)@.pixels[addr] ^ (val & 1),
                )
                &&& final(self)@.dirty == (old(self)@.dirty || val & 1 == 1)
                &&& display_wf(final(self)@)
            }),
    {
        let bit = val & 1;
        proof {
            lemma_and1(val);
        }
        let addr = self.get_pixel_byte_addr(x, y);
        let cur = self.pixelmap[addr];
        proof {
            lemma_xor_bit(cur, bit);
        }
        self.pixelmap[addr] = cur ^ bit;
        if bit == 1 {
            self.dirty = true;
        }
    }

    /// Display width in pixels.
    pub fn get_width(&self) -> (r: usize)
        ensures
            r == DISPLAY_WIDTH,
    {
        DISPLAY_WIDTH
    }

    /// Display height in pixels.
    pub fn get_height(&self) -> (r: usize)
        ensures
            r == DISPLAY_HEIGHT,
    {
        DISPLAY_HEIGHT
    }

    /// Whether any pixel changed since the last present.
    pub fn is_dirty(&self) -> (r: bool)
        ensures
            r == self@.dirty,
    {
        self.dirty
    }

    /// Record that the current contents have been presented: the pixels are
    /// unchanged and the dirty flag is lowered.
    pub fn present(&mut self)
        ensures
            final(self)@.pixels == old(self)@.pixels,
            final(self)@.dirty == false,
    {
        self.dirty = false;
    }
}

} // verus!
