use vstd::prelude::*;

use vstd::arithmetic::div_mod::{
    lemma_div_multiples_vanish, lemma_div_nonincreasing, lemma_fundamental_div_mod,
    lemma_mod_decreases, lemma_mod_division_less_than_divisor, lemma_mod_multiples_basic,
};
use vstd::arithmetic::mul::{lemma_mul_inequality, lemma_mul_upper_bound};
use crate::error::MosaicError;
use crate::face::{dice_face, face_spec, DICE_NUM};
use crate::grid::{Canvas, PixelGrid, Tile};
use crate::sample::{avg_value, lemma_rect_avg_uniform, rect_avg};

verus! {

/// One of the three fixed scale factors the notional output size is inflated
/// by before trimming to a tile multiple.
#[derive(Clone, Copy, Debug, PartialEq, Eq, Structural)]
pub enum Resolution {
    Low,
    Medium,
    High,
}

impl Resolution {
    /// The scale factor this resolution stands for.
    pub open spec fn factor_spec(&self) -> int {
        match self {
            Resolution::Low => 3,
            Resolution::Medium => 4,
            Resolution::High => 5,
        }
    }

    pub fn factor(&self) -> (f: u32)
        ensures
            f == self.factor_spec(),
    {
        match self {
            Resolution::Low => 3,
            Resolution::Medium => 4,
            Resolution::High => 5,
        }
    }
}

/// Sum of a sequence of counters.
pub open spec fn seq_sum(s: Seq<u32>) -> int
    decreases s.len(),
{
    if s.len() == 0 {
        0
    } else {
        seq_sum(s.drop_last()) + s.last()
    }
}

/// Overwriting one entry moves the sum by the difference at that entry.
pub proof fn lemma_seq_sum_update(s: Seq<u32>, i: int, v: u32)
    requires
        0 <= i < s.len(),
    ensures
        seq_sum(s.update(i, v)) == seq_sum(s) - s[i] + v,
    decreases s.len(),
{
    let t = s.update(i, v);
    if i == s.len() - 1 {
        assert(t.drop_last() =~= s.drop_last());
    } else {
        assert(t.drop_last() =~= s.drop_last().update(i, v));
        lemma_seq_sum_update(s.drop_last(), i, v);
    }
}

/// A sequence of zero counters sums to zero.
pub proof fn lemma_seq_sum_zero(s: Seq<u32>)
    requires
        forall|i: int| 0 <= i < s.len() ==> s[i] == 0,
    ensures
        seq_sum(s) == 0,
    decreases s.len(),
{
    if s.len() > 0 {
        lemma_seq_sum_zero(s.drop_last());
    }
}

/// The Tally Aggregator: one usage counter per palette index, grown only by
/// increments, read in full once the run is complete.
pub struct Tally {
    counts: Vec<u32>,
}

impl View for Tally {
    type V = Seq<u32>;

    closed spec fn view(&self) -> Seq<u32> {
        self.counts@
    }
}

impl Tally {
    pub open spec fn wf(&self) -> bool {
        self@.len() == DICE_NUM
    }

    /// An empty tally: every face count starts at zero.
    pub fn new() -> (t: Tally)
        ensures
            t.wf(),
            forall|f: int| 0 <= f < DICE_NUM ==> t@[f] == 0,
            seq_sum(t@) == 0,
    {
        let counts: Vec<u32> = vec![0, 0, 0, 0, 0, 0];
        let t = Tally { counts };
        proof {
            assert(t@ =~= seq![0u32, 0u32, 0u32, 0u32, 0u32, 0u32]);
            lemma_seq_sum_zero(t@);
        }
        t
    }

    /// Record one more use of `face`.
    pub fn increment(&mut self, face: u8)
        requires
            old(self).wf(),
            face < DICE_NUM,
            old(self)@[face as int] < u32::MAX,
        ensures
            final(self).wf(),
            final(self)@ == old(self)@.update(
                face as int,
                (old(self)@[face as int] + 1) as u32,
            ),
            seq_sum(final(self)@) == seq_sum(old(self)@) + 1,
    {
        let idx: usize = face as usize;
        let c: u32 = self.counts[idx];
        self.counts[idx] = c + 1;
        proof {
            lemma_seq_sum_update(old(self)@, face as int, (c + 1) as u32);
        }
    }

    /// Read one face's count.
    pub fn count(&self, face: u8) -> (n: u32)
        requires
            self.wf(),
            face < DICE_NUM,
        ensures
            n == self@[face as int],
    {
        self.counts[face as usize]
    }

    /// The total number of recorded uses across all faces.
    pub fn total(&self) -> (t: u64)
        requires
            self.wf(),
        ensures
            t == seq_sum(self@),
    {
        let mut t: u64 = 0;
        let mut i: usize = 0;
        while i < self.counts.len()
            invariant
                self.wf(),
                0 <= i <= self@.len(),
                t == seq_sum(self@.subrange(0, i as int)),
                t <= i * (u32::MAX as int),
            decreases self@.len() - i,
        {
            proof {
                let pre = self@.subrange(0, i as int);
                let post = self@.subrange(0, i + 1);
                assert(post.drop_last() =~= pre);
                assert((i + 1) * (u32::MAX as int) == i * (u32::MAX as int) + u32::MAX)
                    by (nonlinear_arith);
            }
            t = t + (self.counts[i] as u64);
            i = i + 1;
        }
        proof {
            assert(self@.subrange(0, self@.len() as int) =~= self@);
        }
        t
    }
}

/// The ordered, fixed-size palette of square tile images, one per face,
/// loaded once and read-only for the whole run.
pub struct TilePalette {
    side: u32,
    tiles: Vec<Tile>,
}

impl TilePalette {
    /// Edge length every tile of this palette has.
    pub closed spec fn spec_side(&self) -> int {
        self.side as int
    }

    /// The tiles, ordered by palette index.
    pub closed spec fn spec_tiles(&self) -> Seq<Tile> {
        self.tiles@
    }

    /// The tile for palette index `i`.
    pub open spec fn tile(&self, i: int) -> Tile {
        self.spec_tiles()[i]
    }

    pub open spec fn wf(&self) -> bool {
        &&& self.spec_tiles().len() == DICE_NUM
        &&& forall|i: int| 0 <= i < DICE_NUM ==> (#[trigger] self.spec_tiles()[i]).wf()
        &&& forall|i: int|
            0 <= i < DICE_NUM ==> (#[trigger] self.spec_tiles()[i]).spec_side()
                == self.spec_side()
    }

    /// Validate and seal a palette: exactly `DICE_NUM` tiles, each exactly
    /// `side x side`. A mis-sized tile is refused with `AssetError` naming
    /// the first offending palette index, before any cell is processed.
    pub fn new(tiles: Vec<Tile>, side: u32) -> (r: Result<TilePalette, MosaicError>)
        requires
            tiles@.len() == DICE_NUM,
            forall|i: int| 0 <= i < DICE_NUM ==> (#[trigger] tiles@[i]).wf(),
        ensures
            r is Ok <==> (forall|i: int|
                0 <= i < DICE_NUM ==> (#[trigger] tiles@[i]).spec_side() == side),
            r matches Ok(p) ==> p.wf() && p.spec_side() == side && p.spec_tiles() == tiles@,
            r matches Err(e) ==> exists|i: int|
                {
                    &&& 0 <= i < DICE_NUM
                    &&& e == (MosaicError::AssetError { index: i as usize })
                    &&& (#[trigger] tiles@[i]).spec_side() != side
                    &&& forall|j: int| 0 <= j < i ==> tiles@[j].spec_side() == side
                },
    {
        let mut i: usize = 0;
        while i < tiles.len()
            invariant
                tiles@.len() == DICE_NUM,
                0 <= i <= DICE_NUM,
                forall|j: int| 0 <= j < i ==> (#[trigger] tiles@[j]).spec_side() == side,
            decreases tiles@.len() - i,
        {
            if tiles[i].side() != side {
                return Err(MosaicError::AssetError { index: i });
            }
            i = i + 1;
        }
        Ok(TilePalette { side, tiles })
    }

    /// Borrow the tile for palette index `face`.
    pub fn get(&self, face: u8) -> (t: &Tile)
        requires
            self.wf(),
            face < DICE_NUM,
        ensures
            *t == self.tile(face as int),
    {
        &self.tiles[face as usize]
    }
}

/// The planned canvas extent along one axis: the source extent inflated by
/// the scale factor, trimmed down to the nearest multiple of the tile size so
/// that no partial tile remains at the edge.
pub open spec fn planned_canvas_dim(src: int, factor: int, tile_px: int) -> int {
    (src * factor) - (src * factor) % tile_px
}

/// The planned canvas dimension is always an exact multiple of the tile
/// size: trimming leaves no partial tile at the canvas edge, whatever the
/// source size and scale factor.
pub proof fn lemma_canvas_dim_tile_multiple(src: int, factor: int, tile_px: int)
    requires
        tile_px >= 1,
    ensures
        planned_canvas_dim(src, factor, tile_px) % tile_px == 0,
{
    let a = src * factor;
    lemma_fundamental_div_mod(a, tile_px);
    assert(planned_canvas_dim(src, factor, tile_px) == tile_px * (a / tile_px));
    assert(tile_px * (a / tile_px) == (a / tile_px) * tile_px) by (nonlinear_arith);
    lemma_mod_multiples_basic(a / tile_px, tile_px);
}

/// Whether a source of size `src_w x src_h`, inflated by `factor` and tiled
/// with `tile_px`-sized cells, yields a non-degenerate grid: at least one
/// whole tile on each axis, and source cells of at least one pixel.
pub open spec fn plan_ok(src_w: int, src_h: int, factor: int, tile_px: int) -> bool {
    let cw = planned_canvas_dim(src_w, factor, tile_px);
    let ch = planned_canvas_dim(src_h, factor, tile_px);
    &&& cw >= 1
    &&& ch >= 1
    &&& src_w / (cw / tile_px) >= 1
    &&& src_h / (ch / tile_px) >= 1
}

/// One mosaic run: the grayscale source, the planned output geometry, and
/// the per-face usage tally.
pub struct DiceMosaic {
    img: PixelGrid,
    dimensions: (u32, u32),
    cell_width: u32,
    cell_height: u32,
    dice_pixels: u32,
    dice_counter: Tally,
}

impl DiceMosaic {
    /// The grayscale source image.
    pub closed spec fn spec_img(&self) -> PixelGrid {
        self.img
    }

    /// The planned canvas size in pixels.
    pub closed spec fn spec_dimensions(&self) -> (int, int) {
        (self.dimensions.0 as int, self.dimensions.1 as int)
    }

    /// Width in source pixels of one cell's sampling rectangle.
    pub closed spec fn spec_cell_width(&self) -> int {
        self.cell_width as int
    }

    /// Height in source pixels of one cell's sampling rectangle.
    pub closed spec fn spec_cell_height(&self) -> int {
        self.cell_height as int
    }

    /// Edge length in pixels of one (square) tile.
    pub closed spec fn spec_dice_pixels(&self) -> int {
        self.dice_pixels as int
    }

    /// The per-face usage counters.
    pub closed spec fn spec_counter(&self) -> Seq<u32> {
        self.dice_counter@
    }

    /// Number of grid columns.
    pub open spec fn grid_w(&self) -> int {
        self.spec_dimensions().0 / self.spec_dice_pixels()
    }

    /// Number of grid rows.
    pub open spec fn grid_h(&self) -> int {
        self.spec_dimensions().1 / self.spec_dice_pixels()
    }

    pub open spec fn wf(&self) -> bool {
        &&& self.spec_img().wf()
        &&& 1 <= self.spec_dice_pixels() <= u32::MAX
        &&& 1 <= self.spec_dimensions().0 <= u32::MAX
        &&& 1 <= self.spec_dimensions().1 <= u32::MAX
        &&& self.spec_dimensions().0 % self.spec_dice_pixels() == 0
        &&& self.spec_dimensions().1 % self.spec_dice_pixels() == 0
        &&& self.grid_w() >= 1
        &&& self.grid_h() >= 1
        &&& self.grid_w() * self.spec_dice_pixels() == self.spec_dimensions().0
        &&& self.grid_h() * self.spec_dice_pixels() == self.spec_dimensions().1
        &&& self.spec_cell_width() == self.spec_img().spec_width() / self.grid_w()
        &&& self.spec_cell_height() == self.spec_img().spec_height() / self.grid_h()
        &&& self.spec_cell_width() >= 1
        &&& self.spec_cell_height() >= 1
        &&& self.grid_w() * self.spec_cell_width() <= self.spec_img().spec_width()
        &&& self.grid_h() * self.spec_cell_height() <= self.spec_img().spec_height()
        &&& self.spec_counter().len() == DICE_NUM
    }

    /// The truncated mean intensity of cell `(col, row)`'s source rectangle.
    pub open spec fn cell_avg(&self, col: int, row: int) -> int {
        rect_avg(
            self.spec_img(),
            col * self.spec_cell_width(),
            row * self.spec_cell_height(),
            self.spec_cell_width(),
            self.spec_cell_height(),
        )
    }

    /// The palette index cell `(col, row)` selects.
    pub open spec fn cell_face(&self, col: int, row: int) -> int {
        face_spec(self.cell_avg(col, row))
    }

    /// The Dimension Planner: derive the output geometry from the decoded
    /// source, the tile pixel size, and the resolution scale factor.
    ///
    /// Each source dimension is inflated by the scale factor and trimmed down
    /// to the nearest multiple of `dice_pixels`, so both canvas dimensions
    /// are exact tile multiples. A degenerate plan — a canvas axis smaller
    /// than one tile, or a grid axis with more cells than source pixels — is
    /// refused with `ConfigurationError` before anything is allocated.
    #[verifier::rlimit(50)]
    pub fn new(img: PixelGrid, dice_pixels: u32, resolution: Resolution) -> (r: Result<
        DiceMosaic,
        MosaicError,
    >)
        requires
            img.wf(),
            img.spec_width() >= 1,
            img.spec_height() >= 1,
            dice_pixels >= 1,
            img.spec_width() * resolution.factor_spec() <= u32::MAX,
            img.spec_height() * resolution.factor_spec() <= u32::MAX,
        ensures
            r is Ok <==> plan_ok(
                img.spec_width(),
                img.spec_height(),
                resolution.factor_spec(),
                dice_pixels as int,
            ),
            r is Err ==> r == Err::<DiceMosaic, MosaicError>(MosaicError::ConfigurationError),
            r matches Ok(m) ==> {
                &&& m.wf()
                &&& m.spec_img() == img
                &&& m.spec_dice_pixels() == dice_pixels
                &&& m.spec_dimensions().0 == planned_canvas_dim(
                    img.spec_width(),
                    resolution.factor_spec(),
                    dice_pixels as int,
                )
                &&& m.spec_dimensions().1 == planned_canvas_dim(
                    img.spec_height(),
                    resolution.factor_spec(),
                    dice_pixels as int,
                )
                &&& m.spec_dimensions().0 % (dice_pixels as int) == 0
                &&& m.spec_dimensions().1 % (dice_pixels as int) == 0
                &&& m.spec_cell_width() == img.spec_width() / m.grid_w()
                &&& m.spec_cell_height() == img.spec_height() / m.grid_h()
                &&& forall|f: int| 0 <= f < DICE_NUM ==> m.spec_counter()[f] == 0
                &&& seq_sum(m.spec_counter()) == 0
            },
    {
        let res = resolution.factor();
        let x = img.width();
        let y = img.height();
        let infl_x = x * res;
        let infl_y = y * res;
        proof {
            lemma_mod_decreases(infl_x as nat, dice_pixels as nat);
            lemma_mod_decreases(infl_y as nat, dice_pixels as nat);
        }
        let dim_x = infl_x - infl_x % dice_pixels;
        let dim_y = infl_y - infl_y % dice_pixels;
        proof {
            lemma_fundamental_div_mod(infl_x as int, dice_pixels as int);
            lemma_fundamental_div_mod(infl_y as int, dice_pixels as int);
            lemma_mod_division_less_than_divisor(infl_x as int, dice_pixels as int);
            lemma_mod_division_less_than_divisor(infl_y as int, dice_pixels as int);
            lemma_mod_multiples_basic(infl_x as int / dice_pixels as int, dice_pixels as int);
            lemma_mod_multiples_basic(infl_y as int / dice_pixels as int, dice_pixels as int);
            lemma_div_multiples_vanish(infl_x as int / dice_pixels as int, dice_pixels as int);
            lemma_div_multiples_vanish(infl_y as int / dice_pixels as int, dice_pixels as int);
        }
        if dim_x == 0 || dim_y == 0 {
            return Err(MosaicError::ConfigurationError);
        }
        let cnt_x = dim_x / dice_pixels;
        let cnt_y = dim_y / dice_pixels;
        proof {
            let dp = dice_pixels as int;
            let qx = infl_x as int / dp;
            let qy = infl_y as int / dp;
            assert(dim_x == dp * qx && dim_y == dp * qy);
            assert(cnt_x == qx && cnt_y == qy);
            assert(qx >= 1) by (nonlinear_arith)
                requires
                    dp >= 1,
                    dp * qx >= 1,
            ;
            assert(qy >= 1) by (nonlinear_arith)
                requires
                    dp >= 1,
                    dp * qy >= 1,
            ;
        }
        let cell_w = x / cnt_x;
        let cell_h = y / cnt_y;
        if cell_w == 0 || cell_h == 0 {
            return Err(MosaicError::ConfigurationError);
        }
        proof {
            lemma_fundamental_div_mod(x as int, cnt_x as int);
            lemma_fundamental_div_mod(y as int, cnt_y as int);
            lemma_mod_division_less_than_divisor(x as int, cnt_x as int);
            lemma_mod_division_less_than_divisor(y as int, cnt_y as int);
        }
        let m = DiceMosaic {
            img,
            dimensions: (dim_x, dim_y),
            cell_width: cell_w,
            cell_height: cell_h,
            dice_pixels,
            dice_counter: Tally::new(),
        };
        proof {
            let dp = dice_pixels as int;
            let qx = infl_x as int / dp;
            let qy = infl_y as int / dp;
            assert(dp * qx == qx * dp) by (nonlinear_arith);
            assert(dp * qy == qy * dp) by (nonlinear_arith);
            assert(m.wf());
        }
        Ok(m)
    }

    /// The Parallel Orchestrator's work, cell by cell: for every grid cell,
    /// sample the cell's source rectangle, map its mean intensity to a face,
    /// composite that face's tile onto the canvas at the cell's offset, and
    /// tally the face. Cells are mutually independent — each reads only the
    /// shared source and palette and writes its own disjoint canvas
    /// rectangle — so the order in which they land never shows in the
    /// result; only the tally's total does, and it counts every cell exactly
    /// once.
    ///
    /// The palette has already been validated against this run's tile size
    /// (`TilePalette::new`), so no cell can fail. Returns the finished
    /// canvas; the tally stays on `self` for `stats`.
    pub fn process(&mut self, dice: &TilePalette) -> (canvas: Canvas)
        requires
            old(self).wf(),
            dice.wf(),
            dice.spec_side() == old(self).spec_dice_pixels(),
            forall|f: int| 0 <= f < DICE_NUM ==> old(self).spec_counter()[f] == 0,
            old(self).spec_dimensions().0 * old(self).spec_dimensions().1 <= u32::MAX,
        ensures
            final(self).wf(),
            final(self).spec_img() == old(self).spec_img(),
            final(self).spec_dimensions() == old(self).spec_dimensions(),
            final(self).spec_cell_width() == old(self).spec_cell_width(),
            final(self).spec_cell_height() == old(self).spec_cell_height(),
            final(self).spec_dice_pixels() == old(self).spec_dice_pixels(),
            canvas.wf(),
            canvas.spec_width() == old(self).spec_dimensions().0,
            canvas.spec_height() == old(self).spec_dimensions().1,
            forall|col: int, row: int, dx: int, dy: int|
                0 <= col < old(self).grid_w() && 0 <= row < old(self).grid_h() && 0 <= dx
                    < old(self).spec_dice_pixels() && 0 <= dy < old(self).spec_dice_pixels()
                    ==> #[trigger] cell_pixel_placed(*old(self), *dice, canvas, col, row, dx, dy),
            forall|f: int|
                0 <= f < DICE_NUM ==> final(self).spec_counter()[f] == face_count(*old(self), f),
            seq_sum(final(self).spec_counter()) == old(self).grid_w() * old(self).grid_h(),
    {
        let ghost orig = *old(self);
        let dp = self.dice_pixels;
        let gw = self.dimensions.0 / dp;
        let gh = self.dimensions.1 / dp;
        proof {
            lemma_div_nonincreasing(orig.spec_dimensions().0, orig.spec_dice_pixels());
            lemma_div_nonincreasing(orig.spec_dimensions().1, orig.spec_dice_pixels());
            lemma_mul_upper_bound(
                orig.grid_w(),
                orig.spec_dimensions().0,
                orig.grid_h(),
                orig.spec_dimensions().1,
            );
            lemma_seq_sum_zero(orig.spec_counter());
        }
        let mut canvas = Canvas::new(self.dimensions.0, self.dimensions.1);
        let mut w: u32 = 0;
        while w < gw
            invariant
                orig.wf(),
                self.spec_img() == orig.spec_img(),
                self.spec_dimensions() == orig.spec_dimensions(),
                self.spec_cell_width() == orig.spec_cell_width(),
                self.spec_cell_height() == orig.spec_cell_height(),
                self.spec_dice_pixels() == orig.spec_dice_pixels(),
                self.spec_counter().len() == DICE_NUM,
                dice.wf(),
                dice.spec_side() == orig.spec_dice_pixels(),
                dp == orig.spec_dice_pixels(),
                gw == orig.grid_w(),
                gh == orig.grid_h(),
                orig.grid_w() * orig.grid_h() <= u32::MAX,
                0 <= w <= gw,
                canvas.wf(),
                canvas.spec_width() == orig.spec_dimensions().0,
                canvas.spec_height() == orig.spec_dimensions().1,
                forall|c: int, r: int, dx: int, dy: int|
                    0 <= c < w && 0 <= r < gh && 0 <= dx < dp && 0 <= dy < dp
                        ==> #[trigger] cell_pixel_placed(orig, *dice, canvas, c, r, dx, dy),
                forall|f: int|
                    0 <= f < DICE_NUM ==> self.spec_counter()[f] == face_count_upto(
                        orig,
                        w as int,
                        f,
                    ),
                seq_sum(self.spec_counter()) == w * gh,
            decreases gw - w,
        {
            let mut h: u32 = 0;
            while h < gh
                invariant
                    orig.wf(),
                    self.spec_img() == orig.spec_img(),
                    self.spec_dimensions() == orig.spec_dimensions(),
                    self.spec_cell_width() == orig.spec_cell_width(),
                    self.spec_cell_height() == orig.spec_cell_height(),
                    self.spec_dice_pixels() == orig.spec_dice_pixels(),
                    self.spec_counter().len() == DICE_NUM,
                    dice.wf(),
                    dice.spec_side() == orig.spec_dice_pixels(),
                    dp == orig.spec_dice_pixels(),
                    gw == orig.grid_w(),
                    gh == orig.grid_h(),
                    orig.grid_w() * orig.grid_h() <= u32::MAX,
                    0 <= w < gw,
                    0 <= h <= gh,
                    canvas.wf(),
                    canvas.spec_width() == orig.spec_dimensions().0,
                    canvas.spec_height() == orig.spec_dimensions().1,
                    forall|c: int, r: int, dx: int, dy: int|
                        0 <= c < w && 0 <= r < gh && 0 <= dx < dp && 0 <= dy < dp
                            ==> #[trigger] cell_pixel_placed(orig, *dice, canvas, c, r, dx, dy),
                    forall|r: int, dx: int, dy: int|
                        0 <= r < h && 0 <= dx < dp && 0 <= dy < dp
                            ==> #[trigger] cell_pixel_placed(
                            orig,
                            *dice,
                            canvas,
                            w as int,
                            r,
                            dx,
                            dy,
                        ),
                    forall|f: int|
                        0 <= f < DICE_NUM ==> self.spec_counter()[f] == face_count_upto(
                            orig,
                            w as int,
                            f,
                        ) + col_face_count(orig, w as int, h as int, f),
                    seq_sum(self.spec_counter()) == w * gh + h,
                decreases gh - h,
            {
                proof {
                    lemma_mul_inequality(w as int + 1, gw as int, orig.spec_cell_width());
                    lemma_mul_inequality(h as int + 1, gh as int, orig.spec_cell_height());
                    assert((w as int) * orig.spec_cell_width() + orig.spec_cell_width() == (
                    w as int + 1) * orig.spec_cell_width()) by (nonlinear_arith);
                    assert((h as int) * orig.spec_cell_height() + orig.spec_cell_height() == (
                    h as int + 1) * orig.spec_cell_height()) by (nonlinear_arith);
                    lemma_mul_inequality(w as int + 1, gw as int, dp as int);
                    lemma_mul_inequality(h as int + 1, gh as int, dp as int);
                    assert((w as int) * (dp as int) + dp == (w as int + 1) * (dp as int))
                        by (nonlinear_arith);
                    assert((h as int) * (dp as int) + dp == (h as int + 1) * (dp as int))
                        by (nonlinear_arith);
                }
                let value = avg_value(
                    &self.img,
                    (w * self.cell_width, h * self.cell_height),
                    (self.cell_width, self.cell_height),
                );
                let num = dice_face(value);
                proof {
                    assert(num == orig.cell_face(w as int, h as int));
                    lemma_face_count_upto_bound(orig, w as int, num as int);
                    lemma_col_face_count_bound(orig, w as int, h as int, num as int);
                    assert((w as int) * (gh as int) + h < (gw as int) * (gh as int))
                        by (nonlinear_arith)
                        requires
                            0 <= w < gw,
                            0 <= h < gh,
                    ;
                }
                self.dice_counter.increment(num);
                let ghost canvas_before = canvas;
                canvas.copy_tile(dice.get(num), w * dp, h * dp);
                proof {
                    let dpi = dp as int;
                    let x0 = (w as int) * dpi;
                    let y0 = (h as int) * dpi;
                    assert forall|c: int, r: int, dx: int, dy: int|
                        0 <= c < w && 0 <= r < gh && 0 <= dx < dp && 0 <= dy < dp
                            implies #[trigger] cell_pixel_placed(
                        orig,
                        *dice,
                        canvas,
                        c,
                        r,
                        dx,
                        dy,
                    ) by {
                        lemma_mul_inequality(c + 1, w as int, dpi);
                        assert(c * dpi + dpi == (c + 1) * dpi) by (nonlinear_arith);
                        lemma_mul_inequality(r + 1, gh as int, dpi);
                        assert(r * dpi + dpi == (r + 1) * dpi) by (nonlinear_arith);
                        assert(c * dpi >= 0 && r * dpi >= 0) by (nonlinear_arith)
                            requires
                                c >= 0,
                                r >= 0,
                                dpi >= 0,
                        ;
                        assert(cell_pixel_placed(orig, *dice, canvas_before, c, r, dx, dy));
                    }
                    assert forall|r: int, dx: int, dy: int|
                        0 <= r < h && 0 <= dx < dp && 0 <= dy < dp
                            implies #[trigger] cell_pixel_placed(
                        orig,
                        *dice,
                        canvas,
                        w as int,
                        r,
                        dx,
                        dy,
                    ) by {
                        lemma_mul_inequality(r + 1, h as int, dpi);
                        assert(r * dpi + dpi == (r + 1) * dpi) by (nonlinear_arith);
                        assert(r * dpi >= 0) by (nonlinear_arith)
                            requires
                                r >= 0,
                                dpi >= 0,
                        ;
                        assert(cell_pixel_placed(orig, *dice, canvas_before, w as int, r, dx, dy));
                    }
                    assert forall|dx: int, dy: int|
                        0 <= dx < dp && 0 <= dy < dp implies #[trigger] cell_pixel_placed(
                        orig,
                        *dice,
                        canvas,
                        w as int,
                        h as int,
                        dx,
                        dy,
                    ) by {
                        assert(canvas.pix(x0 + dx, y0 + dy) == dice.tile(num as int).pix(dx, dy));
                    }
                    assert forall|f: int|
                        0 <= f < DICE_NUM implies self.spec_counter()[f] == face_count_upto(
                        orig,
                        w as int,
                        f,
                    ) + col_face_count(orig, w as int, h as int + 1, f) by {
                        assert(col_face_count(orig, w as int, h as int + 1, f) == col_face_count(
                            orig,
                            w as int,
                            h as int,
                            f,
                        ) + if orig.cell_face(w as int, h as int) == f {
                            1int
                        } else {
                            0int
                        });
                    }
                }
                h = h + 1;
            }
            proof {
                assert forall|f: int|
                    0 <= f < DICE_NUM implies self.spec_counter()[f] == face_count_upto(
                    orig,
                    w as int + 1,
                    f,
                ) by {
                    assert(face_count_upto(orig, w as int + 1, f) == face_count_upto(
                        orig,
                        w as int,
                        f,
                    ) + col_face_count(orig, w as int, gh as int, f));
                }
                assert((w as int) * (gh as int) + gh == (w as int + 1) * (gh as int))
                    by (nonlinear_arith);
            }
            w = w + 1;
        }
        canvas
    }

    /// The planned canvas size in pixels, `(width, height)`.
    pub fn dimensions(&self) -> (d: (u32, u32))
        ensures
            d.0 == self.spec_dimensions().0,
            d.1 == self.spec_dimensions().1,
    {
        self.dimensions
    }

    /// The grid size in cells, `(columns, rows)`.
    pub fn grid_size(&self) -> (g: (u32, u32))
        requires
            self.wf(),
        ensures
            g.0 == self.grid_w(),
            g.1 == self.grid_h(),
    {
        (self.dimensions.0 / self.dice_pixels, self.dimensions.1 / self.dice_pixels)
    }

    /// The source-space size in pixels of one cell's sampling rectangle.
    pub fn cell_size(&self) -> (c: (u32, u32))
        ensures
            c.0 == self.spec_cell_width(),
            c.1 == self.spec_cell_height(),
    {
        (self.cell_width, self.cell_height)
    }

    /// The per-face usage counts as `(face index, count)` pairs, in
    /// ascending face order, for reporting after a run.
    pub fn stats(&self) -> (pairs: Vec<(u8, u32)>)
        requires
            self.wf(),
        ensures
            pairs@.len() == DICE_NUM,
            forall|i: int|
                0 <= i < DICE_NUM ==> #[trigger] pairs@[i] == (i as u8, self.spec_counter()[i]),
    {
        let mut pairs: Vec<(u8, u32)> = Vec::new();
        let mut i: u8 = 0;
        while i < DICE_NUM
            invariant
                self.wf(),
                0 <= i <= DICE_NUM,
                pairs@.len() == i,
                forall|j: int|
                    0 <= j < i ==> #[trigger] pairs@[j] == (j as u8, self.spec_counter()[j]),
            decreases DICE_NUM - i,
        {
            pairs.push((i, self.dice_counter.count(i)));
            i = i + 1;
        }
        pairs
    }

    /// The total number of cells tallied: after `process`, the number of
    /// dice the mosaic needs.
    pub fn total_dice(&self) -> (t: u64)
        requires
            self.wf(),
        ensures
            t == seq_sum(self.spec_counter()),
    {
        self.dice_counter.total()
    }
}


/// Cell `(col, row)`'s canvas rectangle holds, at offset `(dx, dy)`, the
/// matching pixel of the tile that cell selects.
pub open spec fn cell_pixel_placed(
    m: DiceMosaic,
    dice: TilePalette,
    canvas: Canvas,
    col: int,
    row: int,
    dx: int,
    dy: int,
) -> bool {
    canvas.pix(col * m.spec_dice_pixels() + dx, row * m.spec_dice_pixels() + dy) == dice.tile(
        m.cell_face(col, row),
    ).pix(dx, dy)
}

/// How many of the first `nrows` cells of grid column `col` select face `f`.
pub open spec fn col_face_count(m: DiceMosaic, col: int, nrows: int, f: int) -> int
    decreases nrows,
{
    if nrows <= 0 {
        0
    } else {
        col_face_count(m, col, nrows - 1, f) + if m.cell_face(col, nrows - 1) == f {
            1int
        } else {
            0int
        }
    }
}

/// How many cells of the first `ncols` whole grid columns select face `f`.
pub open spec fn face_count_upto(m: DiceMosaic, ncols: int, f: int) -> int
    decreases ncols,
{
    if ncols <= 0 {
        0
    } else {
        face_count_upto(m, ncols - 1, f) + col_face_count(m, ncols - 1, m.grid_h(), f)
    }
}

/// How many cells of the whole grid select face `f`.
pub open spec fn face_count(m: DiceMosaic, f: int) -> int {
    face_count_upto(m, m.grid_w(), f)
}

pub proof fn lemma_col_face_count_bound(m: DiceMosaic, col: int, nrows: int, f: int)
    requires
        nrows >= 0,
    ensures
        0 <= col_face_count(m, col, nrows, f) <= nrows,
    decreases nrows,
{
    if nrows > 0 {
        lemma_col_face_count_bound(m, col, nrows - 1, f);
    }
}

pub proof fn lemma_face_count_upto_bound(m: DiceMosaic, ncols: int, f: int)
    requires
        ncols >= 0,
        m.grid_h() >= 0,
    ensures
        0 <= face_count_upto(m, ncols, f) <= ncols * m.grid_h(),
    decreases ncols,
{
    if ncols > 0 {
        lemma_face_count_upto_bound(m, ncols - 1, f);
        lemma_col_face_count_bound(m, ncols - 1, m.grid_h(), f);
        assert((ncols - 1) * m.grid_h() + m.grid_h() == ncols * m.grid_h()) by (nonlinear_arith);
    } else {
        assert(ncols * m.grid_h() == 0) by (nonlinear_arith)
            requires
                ncols == 0,
        ;
    }
}

/// Determinism on a uniform source: every cell of a well-formed mosaic over
/// an image whose every pixel holds the same intensity selects the same
/// palette index — the one that intensity maps to.
pub proof fn lemma_uniform_source_same_face(m: DiceMosaic, v: u8, col: int, row: int)
    requires
        m.wf(),
        forall|x: int, y: int|
            0 <= x < m.spec_img().spec_width() && 0 <= y < m.spec_img().spec_height()
                ==> m.spec_img().pix(x, y) == v,
        0 <= col < m.grid_w(),
        0 <= row < m.grid_h(),
    ensures
        m.cell_face(col, row) == face_spec(v as int),
{
    let cw = m.spec_cell_width();
    let ch = m.spec_cell_height();
    lemma_mul_inequality(col + 1, m.grid_w(), cw);
    lemma_mul_inequality(row + 1, m.grid_h(), ch);
    assert(col * cw + cw == (col + 1) * cw) by (nonlinear_arith);
    assert(row * ch + ch == (row + 1) * ch) by (nonlinear_arith);
    assert(col * cw >= 0 && row * ch >= 0) by (nonlinear_arith)
        requires
            col >= 0,
            cw >= 0,
            row >= 0,
            ch >= 0,
    ;
    lemma_rect_avg_uniform(m.spec_img(), col * cw, row * ch, cw, ch, v);
}

} // verus!
