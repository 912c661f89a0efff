use vstd::prelude::*;

use crate::error::MosaicError;

verus! {

/// Row-major flattening of a pixel coordinate stays inside the buffer.
pub proof fn lemma_grid_index(w: int, h: int, x: int, y: int)
    requires
        0 <= x < w,
        0 <= y < h,
    ensures
        0 <= y * w + x < w * h,
{
    assert(0 <= y * w + x < w * h) by (nonlinear_arith)
        requires
            0 <= x < w,
            0 <= y < h,
    ;
}

/// Row-major flattening is injective: two in-bounds coordinates that land on
/// the same buffer index are the same coordinate.
pub proof fn lemma_grid_index_injective(w: int, x1: int, y1: int, x2: int, y2: int)
    requires
        0 <= x1 < w,
        0 <= x2 < w,
        y1 * w + x1 == y2 * w + x2,
    ensures
        x1 == x2,
        y1 == y2,
{
    assert(x1 == x2 && y1 == y2) by (nonlinear_arith)
        requires
            0 <= x1 < w,
            0 <= x2 < w,
            y1 * w + x1 == y2 * w + x2,
    ;
}

/// The immutable grayscale source image: a `width x height` grid of
/// intensities in `[0, 255]`, stored row-major.
///
/// Well-formedness caps the pixel count at `u32::MAX`, which keeps every
/// index and intensity sum comfortably inside the machine integers the
/// sampler uses.
pub struct PixelGrid {
    width: u32,
    height: u32,
    data: Vec<u8>,
}

impl PixelGrid {
    /// Width in pixels.
    pub closed spec fn spec_width(&self) -> int {
        self.width as int
    }

    /// Height in pixels.
    pub closed spec fn spec_height(&self) -> int {
        self.height as int
    }

    /// The row-major pixel buffer.
    pub closed spec fn pixels(&self) -> Seq<u8> {
        self.data@
    }

    pub open spec fn wf(&self) -> bool {
        &&& self.pixels().len() == self.spec_width() * self.spec_height()
        &&& self.spec_width() * self.spec_height() <= u32::MAX
        &&& 0 <= self.spec_width() <= u32::MAX
        &&& 0 <= self.spec_height() <= u32::MAX
    }

    /// The intensity at column `x`, row `y`.
    pub open spec fn pix(&self, x: int, y: int) -> u8 {
        self.pixels()[y * self.spec_width() + x]
    }

    /// Wrap a row-major intensity buffer as a grid.
    pub fn new(width: u32, height: u32, data: Vec<u8>) -> (g: PixelGrid)
        requires
            data@.len() == width * height,
            width * height <= u32::MAX,
        ensures
            g.wf(),
            g.spec_width() == width,
            g.spec_height() == height,
            g.pixels() == data@,
    {
        PixelGrid { width, height, data }
    }

    /// A grid whose every pixel holds the same intensity.
    pub fn uniform(width: u32, height: u32, value: u8) -> (g: PixelGrid)
        requires
            width * height <= u32::MAX,
        ensures
            g.wf(),
            g.spec_width() == width,
            g.spec_height() == height,
            forall|x: int, y: int|
                0 <= x < width && 0 <= y < height ==> g.pix(x, y) == value,
    {
        let total: u64 = (width as u64) * (height as u64);
        let mut data: Vec<u8> = Vec::new();
        while (data.len() as u64) < total
            invariant
                total == width * height,
                total <= u32::MAX,
                data@.len() <= total,
                forall|i: int| 0 <= i < data@.len() ==> data@[i] == value,
            decreases total - data@.len(),
        {
            data.push(value);
        }
        let g = PixelGrid { width, height, data };
        proof {
            assert forall|x: int, y: int|
                0 <= x < width && 0 <= y < height implies g.pix(x, y) == value by {
                lemma_grid_index(width as int, height as int, x, y);
            }
        }
        g
    }

    pub fn width(&self) -> (w: u32)
        ensures
            w == self.spec_width(),
    {
        self.width
    }

    pub fn height(&self) -> (h: u32)
        ensures
            h == self.spec_height(),
    {
        self.height
    }

    /// Read one intensity.
    pub fn pixel(&self, x: u32, y: u32) -> (v: u8)
        requires
            self.wf(),
            x < self.spec_width(),
            y < self.spec_height(),
        ensures
            v == self.pix(x as int, y as int),
    {
        proof {
            lemma_grid_index(self.spec_width(), self.spec_height(), x as int, y as int);
        }
        let idx: usize = (y as usize) * (self.width as usize) + (x as usize);
        self.data[idx]
    }
}

/// One square tile image of the palette: `side x side` packed color pixels,
/// stored row-major.
pub struct Tile {
    side: u32,
    data: Vec<u32>,
}

impl Tile {
    /// Edge length in pixels.
    pub closed spec fn spec_side(&self) -> int {
        self.side as int
    }

    /// The row-major pixel buffer.
    pub closed spec fn pixels(&self) -> Seq<u32> {
        self.data@
    }

    pub open spec fn wf(&self) -> bool {
        &&& self.pixels().len() == self.spec_side() * self.spec_side()
        &&& self.spec_side() * self.spec_side() <= u32::MAX
        &&& 0 <= self.spec_side() <= u32::MAX
    }

    /// The pixel at column `x`, row `y`.
    pub open spec fn pix(&self, x: int, y: int) -> u32 {
        self.pixels()[y * self.spec_side() + x]
    }

    /// Wrap a row-major pixel buffer as a square tile.
    pub fn new(side: u32, data: Vec<u32>) -> (t: Tile)
        requires
            data@.len() == side * side,
            side * side <= u32::MAX,
        ensures
            t.wf(),
            t.spec_side() == side,
            t.pixels() == data@,
    {
        Tile { side, data }
    }

    /// A tile whose every pixel holds the same color.
    pub fn uniform(side: u32, value: u32) -> (t: Tile)
        requires
            side * side <= u32::MAX,
        ensures
            t.wf(),
            t.spec_side() == side,
            forall|x: int, y: int| 0 <= x < side && 0 <= y < side ==> t.pix(x, y) == value,
    {
        let total: u64 = (side as u64) * (side as u64);
        let mut data: Vec<u32> = Vec::new();
        while (data.len() as u64) < total
            invariant
                total == side * side,
                total <= u32::MAX,
                data@.len() <= total,
                forall|i: int| 0 <= i < data@.len() ==> data@[i] == value,
            decreases total - data@.len(),
        {
            data.push(value);
        }
        let t = Tile { side, data };
        proof {
            assert forall|x: int, y: int|
                0 <= x < side && 0 <= y < side implies t.pix(x, y) == value by {
                lemma_grid_index(side as int, side as int, x, y);
            }
        }
        t
    }

    pub fn side(&self) -> (s: u32)
        ensures
            s == self.spec_side(),
    {
        self.side
    }

    /// Read one pixel.
    pub fn pixel(&self, x: u32, y: u32) -> (v: u32)
        requires
            self.wf(),
            x < self.spec_side(),
            y < self.spec_side(),
        ensures
            v == self.pix(x as int, y as int),
    {
        proof {
            lemma_grid_index(self.spec_side(), self.spec_side(), x as int, y as int);
        }
        let idx: usize = (y as usize) * (self.side as usize) + (x as usize);
        self.data[idx]
    }
}

/// The mutable output pixel buffer the mosaic is assembled on, stored
/// row-major. Every pixel starts in a placeholder state (zero) and each cell
/// rectangle is overwritten exactly once.
pub struct Canvas {
    width: u32,
    height: u32,
    data: Vec<u32>,
}

impl Canvas {
    /// Width in pixels.
    pub closed spec fn spec_width(&self) -> int {
        self.width as int
    }

    /// Height in pixels.
    pub closed spec fn spec_height(&self) -> int {
        self.height as int
    }

    /// The row-major pixel buffer.
    pub closed spec fn pixels(&self) -> Seq<u32> {
        self.data@
    }

    pub open spec fn wf(&self) -> bool {
        &&& self.pixels().len() == self.spec_width() * self.spec_height()
        &&& self.spec_width() * self.spec_height() <= u32::MAX
        &&& 0 <= self.spec_width() <= u32::MAX
        &&& 0 <= self.spec_height() <= u32::MAX
    }

    /// The pixel at column `x`, row `y`.
    pub open spec fn pix(&self, x: int, y: int) -> u32 {
        self.pixels()[y * self.spec_width() + x]
    }

    /// Allocate a canvas with every pixel in the zero placeholder state.
    pub fn new(width: u32, height: u32) -> (c: Canvas)
        requires
            width * height <= u32::MAX,
        ensures
            c.wf(),
            c.spec_width() == width,
            c.spec_height() == height,
            forall|x: int, y: int| 0 <= x < width && 0 <= y < height ==> c.pix(x, y) == 0,
    {
        let total: u64 = (width as u64) * (height as u64);
        let mut data: Vec<u32> = Vec::new();
        while (data.len() as u64) < total
            invariant
                total == width * height,
                total <= u32::MAX,
                data@.len() <= total,
                forall|i: int| 0 <= i < data@.len() ==> data@[i] == 0,
            decreases total - data@.len(),
        {
            data.push(0);
        }
        let c = Canvas { width, height, data };
        proof {
            assert forall|x: int, y: int|
                0 <= x < width && 0 <= y < height implies c.pix(x, y) == 0 by {
                lemma_grid_index(width as int, height as int, x, y);
            }
        }
        c
    }

    pub fn width(&self) -> (w: u32)
        ensures
            w == self.spec_width(),
    {
        self.width
    }

    pub fn height(&self) -> (h: u32)
        ensures
            h == self.spec_height(),
    {
        self.height
    }

    /// Read one pixel.
    pub fn pixel(&self, x: u32, y: u32) -> (v: u32)
        requires
            self.wf(),
            x < self.spec_width(),
            y < self.spec_height(),
        ensures
            v == self.pix(x as int, y as int),
    {
        proof {
            lemma_grid_index(self.spec_width(), self.spec_height(), x as int, y as int);
        }
        let idx: usize = (y as usize) * (self.width as usize) + (x as usize);
        self.data[idx]
    }

    /// Borrow the whole row-major buffer, for encoding by the caller.
    pub fn data(&self) -> (d: &Vec<u32>)
        ensures
            d@ == self.pixels(),
    {
        &self.data
    }

    /// Overwrite one pixel; every other pixel keeps its value.
    fn set_pixel(&mut self, x: u32, y: u32, v: u32)
        requires
            old(self).wf(),
            x < old(self).spec_width(),
            y < old(self).spec_height(),
        ensures
            final(self).wf(),
            final(self).spec_width() == old(self).spec_width(),
            final(self).spec_height() == old(self).spec_height(),
            final(self).pix(x as int, y as int) == v,
            forall|a: int, b: int|
                0 <= a < old(self).spec_width() && 0 <= b < old(self).spec_height()
                    && !(a == x && b == y) ==> final(self).pix(a, b) == old(self).pix(a, b),
    {
        proof {
            lemma_grid_index(self.spec_width(), self.spec_height(), x as int, y as int);
        }
        let idx: usize = (y as usize) * (self.width as usize) + (x as usize);
        self.data[idx] = v;
        proof {
            assert forall|a: int, b: int|
                0 <= a < self.spec_width() && 0 <= b < self.spec_height()
                    && !(a == x && b == y) implies self.pix(a, b) == old(self).pix(a, b) by {
                lemma_grid_index(self.spec_width(), self.spec_height(), a, b);
                if b * self.spec_width() + a == y * self.spec_width() + x {
                    lemma_grid_index_injective(self.spec_width(), a, b, x as int, y as int);
                }
            }
        }
    }

    /// Copy `tile` into this canvas with its top-left corner at `(x0, y0)`,
    /// overwriting that square entirely and leaving every pixel outside it
    /// untouched. The caller has already made sure the tile fits.
    pub fn copy_tile(&mut self, tile: &Tile, x0: u32, y0: u32)
        requires
            old(self).wf(),
            tile.wf(),
            x0 + tile.spec_side() <= old(self).spec_width(),
            y0 + tile.spec_side() <= old(self).spec_height(),
        ensures
            final(self).wf(),
            final(self).spec_width() == old(self).spec_width(),
            final(self).spec_height() == old(self).spec_height(),
            forall|dx: int, dy: int|
                0 <= dx < tile.spec_side() && 0 <= dy < tile.spec_side()
                    ==> final(self).pix(x0 + dx, y0 + dy) == tile.pix(dx, dy),
            forall|x: int, y: int|
                0 <= x < old(self).spec_width() && 0 <= y < old(self).spec_height()
                    && !(x0 <= x < x0 + tile.spec_side() && y0 <= y < y0 + tile.spec_side())
                    ==> final(self).pix(x, y) == old(self).pix(x, y),
    {
        let side = tile.side();
        let ghost orig = *self;
        let mut dy: u32 = 0;
        while dy < side
            invariant
                self.wf(),
                tile.wf(),
                side == tile.spec_side(),
                self.spec_width() == orig.spec_width(),
                self.spec_height() == orig.spec_height(),
                x0 + side <= orig.spec_width(),
                y0 + side <= orig.spec_height(),
                0 <= dy <= side,
                forall|ax: int, ay: int|
                    0 <= ax < side && 0 <= ay < dy
                        ==> self.pix(x0 + ax, y0 + ay) == tile.pix(ax, ay),
                forall|x: int, y: int|
                    0 <= x < orig.spec_width() && 0 <= y < orig.spec_height()
                        && !(x0 <= x < x0 + side && y0 <= y < y0 + dy)
                        ==> self.pix(x, y) == orig.pix(x, y),
            decreases side - dy,
        {
            let mut dx: u32 = 0;
            while dx < side
                invariant
                    self.wf(),
                    tile.wf(),
                    side == tile.spec_side(),
                    self.spec_width() == orig.spec_width(),
                    self.spec_height() == orig.spec_height(),
                    x0 + side <= orig.spec_width(),
                    y0 + side <= orig.spec_height(),
                    0 <= dy < side,
                    0 <= dx <= side,
                    forall|ax: int, ay: int|
                        0 <= ax < side && 0 <= ay < dy
                            ==> self.pix(x0 + ax, y0 + ay) == tile.pix(ax, ay),
                    forall|ax: int|
                        0 <= ax < dx ==> self.pix(x0 + ax, y0 + dy) == tile.pix(ax, dy as int),
                    forall|x: int, y: int|
                        0 <= x < orig.spec_width() && 0 <= y < orig.spec_height()
                            && !(x0 <= x < x0 + side && y0 <= y < y0 + dy)
                            && !(x0 <= x < x0 + dx && y == y0 + dy)
                            ==> self.pix(x, y) == orig.pix(x, y),
                decreases side - dx,
            {
                let v = tile.pixel(dx, dy);
                self.set_pixel(x0 + dx, y0 + dy, v);
                dx = dx + 1;
            }
            dy = dy + 1;
        }
    }

    /// The Compositor: copy `tile` into this canvas with its top-left corner
    /// at `(x0, y0)`, overwriting that `tile_px x tile_px` rectangle entirely
    /// and leaving every pixel outside it untouched.
    ///
    /// A tile whose edge is not exactly `tile_px` is refused with
    /// `CompositeError` and the canvas is left unchanged.
    pub fn blit(&mut self, tile: &Tile, tile_px: u32, x0: u32, y0: u32) -> (r: Result<
        (),
        MosaicError,
    >)
        requires
            old(self).wf(),
            tile.wf(),
            x0 + tile_px <= old(self).spec_width(),
            y0 + tile_px <= old(self).spec_height(),
        ensures
            final(self).wf(),
            final(self).spec_width() == old(self).spec_width(),
            final(self).spec_height() == old(self).spec_height(),
            r is Ok <==> tile.spec_side() == tile_px,
            r is Err ==> r == Err::<(), MosaicError>(MosaicError::CompositeError)
                && *final(self) == *old(self),
            r is Ok ==> forall|dx: int, dy: int|
                0 <= dx < tile_px && 0 <= dy < tile_px
                    ==> final(self).pix(x0 + dx, y0 + dy) == tile.pix(dx, dy),
            forall|x: int, y: int|
                0 <= x < old(self).spec_width() && 0 <= y < old(self).spec_height()
                    && !(x0 <= x < x0 + tile_px && y0 <= y < y0 + tile_px)
                    ==> final(self).pix(x, y) == old(self).pix(x, y),
    {
        if tile.side() != tile_px {
            return Err(MosaicError::CompositeError);
        }
        self.copy_tile(tile, x0, y0);
        Ok(())
    }
}

} // verus!
