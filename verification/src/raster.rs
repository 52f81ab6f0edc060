//! Coverage by supersampling, and compositing a triangle into a buffer.
use vstd::prelude::*;
use crate::buffer::{precedes, FrameBuffer};
use crate::color::{lemma_add_zero_multiple, lemma_multiply_one, lemma_multiply_zero, Color};
use crate::fixed::{lemma_plus_zero, quotient_raw, Fixed, ONE_RAW};
use crate::geometry::{inside, is_inside, Point2D, Triangle};

verus! {

/// The size of the buffer and the number of sample points along each axis
/// of a pixel.
#[derive(Clone, Copy, Debug, PartialEq, Eq, Structural)]
pub struct Config {
    pub width: usize,
    pub height: usize,
    pub samples: u16,
}

/// The coordinate of sample `sub` of pixel `index`, on an axis of `extent`
/// pixels with `samples` samples each: `index / extent + sub / (extent *
/// samples)`, rounded down to the grid.
pub open spec fn sample_coord(index: int, sub: int, extent: int, samples: int) -> int {
    quotient_raw(index * samples + sub, extent * samples)
}

/// The point at which sample `(mx, my)` of the pixel in row `row` and column
/// `col` is taken. Sample `(0, 0)` is the pixel's top left corner.
pub open spec fn sample_point(cfg: Config, row: int, col: int, mx: int, my: int) -> Point2D {
    Point2D {
        x: Fixed { raw: sample_coord(col, mx, cfg.width as int, cfg.samples as int) as i32 },
        y: Fixed { raw: sample_coord(row, my, cfg.height as int, cfg.samples as int) as i32 },
    }
}

/// How many of the samples `(mx, 0)` to `(mx, n - 1)` of a pixel lie inside
/// the triangle.
pub open spec fn column_hits(tri: Triangle, cfg: Config, row: int, col: int, mx: int, n: nat) -> nat
    decreases n,
{
    if n == 0 {
        0
    } else {
        let rest = column_hits(tri, cfg, row, col, mx, (n - 1) as nat);
        if inside(tri, sample_point(cfg, row, col, mx, n - 1)) {
            rest + 1
        } else {
            rest
        }
    }
}

/// How many samples of the first `m` sample columns of a pixel lie inside
/// the triangle.
pub open spec fn grid_hits(tri: Triangle, cfg: Config, row: int, col: int, m: nat) -> nat
    decreases m,
{
    if m == 0 {
        0
    } else {
        grid_hits(tri, cfg, row, col, (m - 1) as nat) + column_hits(
            tri,
            cfg,
            row,
            col,
            m - 1,
            cfg.samples as nat,
        )
    }
}

/// The number of a pixel's samples that lie inside the triangle.
pub open spec fn hits(tri: Triangle, cfg: Config, row: int, col: int) -> nat {
    grid_hits(tri, cfg, row, col, cfg.samples as nat)
}

/// The share of a pixel's samples that lie inside the triangle, rounded
/// down to the grid. Without samples nothing is covered.
pub open spec fn pixel_coverage(tri: Triangle, cfg: Config, row: int, col: int) -> Fixed {
    if cfg.samples == 0 {
        Fixed::zero()
    } else {
        Fixed { raw: quotient_raw(hits(tri, cfg, row, col) as int, cfg.samples * cfg.samples) as i32 }
    }
}

/// Every sample of the pixel lies inside the triangle.
pub open spec fn covers_all(tri: Triangle, cfg: Config, row: int, col: int) -> bool {
    forall|mx: int, my: int|
        0 <= mx < cfg.samples && 0 <= my < cfg.samples ==> inside(
            tri,
            #[trigger] sample_point(cfg, row, col, mx, my),
        )
}

/// No sample of the pixel lies inside the triangle.
pub open spec fn covers_none(tri: Triangle, cfg: Config, row: int, col: int) -> bool {
    forall|mx: int, my: int|
        0 <= mx < cfg.samples && 0 <= my < cfg.samples ==> !inside(
            tri,
            #[trigger] sample_point(cfg, row, col, mx, my),
        )
}

/// `color` laid over `under` with weight `coverage`.
pub open spec fn blended(color: Color, under: Color, coverage: Fixed) -> Color {
    color.multiply(coverage).add(under.multiply(Fixed::one().minus(coverage)))
}

/// A column of `n` samples holds between zero and `n` hits.
pub proof fn lemma_column_hits_bound(tri: Triangle, cfg: Config, row: int, col: int, mx: int, n: nat)
    ensures
        column_hits(tri, cfg, row, col, mx, n) <= n,
    decreases n,
{
    if n > 0 {
        lemma_column_hits_bound(tri, cfg, row, col, mx, (n - 1) as nat);
    }
}

/// The first `m` sample columns hold at most `m * samples` hits.
pub proof fn lemma_grid_hits_bound(tri: Triangle, cfg: Config, row: int, col: int, m: nat)
    ensures
        grid_hits(tri, cfg, row, col, m) <= m * cfg.samples,
    decreases m,
{
    if m > 0 {
        lemma_grid_hits_bound(tri, cfg, row, col, (m - 1) as nat);
        lemma_column_hits_bound(tri, cfg, row, col, m - 1, cfg.samples as nat);
        assert((m - 1) * cfg.samples + cfg.samples == m * cfg.samples) by (nonlinear_arith);
    }
}

/// Accumulated coverage lies between zero and one, whatever the triangle
/// and the pixel.
pub proof fn lemma_coverage_bounds(tri: Triangle, cfg: Config, row: int, col: int)
    ensures
        0 <= pixel_coverage(tri, cfg, row, col)@ <= ONE_RAW,
{
    if cfg.samples > 0 {
        let total: int = cfg.samples * cfg.samples;
        let h: int = hits(tri, cfg, row, col) as int;
        lemma_grid_hits_bound(tri, cfg, row, col, cfg.samples as nat);
        assert(0 < total) by (nonlinear_arith)
            requires
                total == cfg.samples * cfg.samples,
                cfg.samples > 0,
        ;
        lemma_share_bounds(h, total);
    }
}

/// A share of a whole, as a fixed-point number, lies between zero and one
/// and is one exactly for the whole.
proof fn lemma_share_bounds(part: int, whole: int)
    requires
        0 <= part <= whole,
        0 < whole,
    ensures
        0 <= quotient_raw(part, whole) <= ONE_RAW,
        part == whole ==> quotient_raw(part, whole) == ONE_RAW,
        part == 0 ==> quotient_raw(part, whole) == 0,
{
    let n: int = part * ONE_RAW;
    assert(0 <= n <= ONE_RAW * whole) by (nonlinear_arith)
        requires
            0 <= part <= whole,
            n == part * ONE_RAW,
    ;
    vstd::arithmetic::div_mod::lemma_fundamental_div_mod(n, whole);
    vstd::arithmetic::div_mod::lemma_mod_bound(n, whole);
    let q: int = n / whole;
    assert(0 <= q <= ONE_RAW) by (nonlinear_arith)
        requires
            n == whole * q + n % whole,
            0 <= n % whole < whole,
            0 <= n <= ONE_RAW * whole,
    ;
    if part == whole {
        vstd::arithmetic::div_mod::lemma_fundamental_div_mod_converse(n, whole, ONE_RAW as int, 0);
    }
    if part == 0 {
        vstd::arithmetic::div_mod::lemma_fundamental_div_mod_converse(n, whole, 0, 0);
    }
}

/// `part / whole` as a fixed-point number.
fn share(part: u32, whole: u32) -> (s: Fixed)
    requires
        part <= whole,
        0 < whole,
    ensures
        s@ == quotient_raw(part as int, whole as int),
{
    proof {
        lemma_share_bounds(part as int, whole as int);
    }
    let n: u64 = (part as u64) * 65536;
    Fixed { raw: (n / (whole as u64)) as i32 }
}

/// One sample coordinate; see `sample_coord`.
fn coord(index: usize, sub: u16, extent: usize, samples: u16) -> (c: Fixed)
    requires
        index < extent,
        sub < samples,
    ensures
        c@ == sample_coord(index as int, sub as int, extent as int, samples as int),
        0 <= c@ < ONE_RAW,
{
    let s: u128 = samples as u128;
    let e: u128 = extent as u128;
    let i: u128 = index as u128;
    assert(i * s + s <= e * s && e * s <= 0x1_0000_0000_0000_0000_0000 && 0 < e * s) by (nonlinear_arith)
        requires
            0 <= i < e,
            e <= 0xffff_ffff_ffff_ffff,
            0 < s <= 0xffff,
    ;
    let part: u128 = i * s + sub as u128;
    let whole: u128 = e * s;
    let q: u128 = (part * 65536) / whole;
    proof {
        let n: int = part * 65536;
        vstd::arithmetic::div_mod::lemma_fundamental_div_mod(n, whole as int);
        vstd::arithmetic::div_mod::lemma_mod_bound(n, whole as int);
        assert(q < 65536) by (nonlinear_arith)
            requires
                n == whole * q + n % (whole as int),
                0 <= n % (whole as int),
                n < 65536 * whole,
                0 < whole,
        ;
    }
    Fixed { raw: q as i32 }
}

impl Config {
    /// The point at which one sample of one pixel is taken.
    pub fn sample_point(&self, row: usize, col: usize, mx: u16, my: u16) -> (p: Point2D)
        requires
            row < self.height,
            col < self.width,
            mx < self.samples,
            my < self.samples,
        ensures
            p == sample_point(*self, row as int, col as int, mx as int, my as int),
    {
        Point2D {
            x: coord(col, mx, self.width, self.samples),
            y: coord(row, my, self.height, self.samples),
        }
    }
}

/// The share of the pixel's samples that the triangle holds: each sample
/// inside adds one part in `samples * samples`.
pub fn coverage(tri: &Triangle, cfg: &Config, row: usize, col: usize) -> (c: Fixed)
    requires
        row < cfg.height,
        col < cfg.width,
    ensures
        c == pixel_coverage(*tri, *cfg, row as int, col as int),
        0 <= c@ <= ONE_RAW,
{
    proof {
        lemma_coverage_bounds(*tri, *cfg, row as int, col as int);
    }
    let s: u16 = cfg.samples;
    if s == 0 {
        return Fixed::zero();
    }
    let mut count: u32 = 0;
    let mut mx: u16 = 0;
    while mx < s
        invariant
            s == cfg.samples,
            row < cfg.height,
            col < cfg.width,
            mx <= s,
            count == grid_hits(*tri, *cfg, row as int, col as int, mx as nat),
        decreases s - mx,
    {
        let ghost before: nat = count as nat;
        let mut my: u16 = 0;
        while my < s
            invariant
                s == cfg.samples,
                row < cfg.height,
                col < cfg.width,
                mx < s,
                my <= s,
                count == before + column_hits(*tri, *cfg, row as int, col as int, mx as int, my as nat),
                before == grid_hits(*tri, *cfg, row as int, col as int, mx as nat),
            decreases s - my,
        {
            let p: Point2D = cfg.sample_point(row, col, mx, my);
            proof {
                lemma_grid_hits_bound(*tri, *cfg, row as int, col as int, mx as nat);
                lemma_column_hits_bound(*tri, *cfg, row as int, col as int, mx as int, (my + 1) as nat);
                assert(mx * s + (my + 1) <= 0xffff * 0xffff) by (nonlinear_arith)
                    requires
                        0 <= mx < s,
                        0 <= my < s,
                        s <= 0xffff,
                ;
            }
            if is_inside(tri, p) {
                count = count + 1;
            }
            my = my + 1;
        }
        mx = mx + 1;
    }
    proof {
        lemma_grid_hits_bound(*tri, *cfg, row as int, col as int, s as nat);
        assert(0 < s * s <= 0xffff * 0xffff) by (nonlinear_arith)
            requires
                0 < s <= 0xffff,
        ;
    }
    share(count, (s as u32) * (s as u32))
}

/// `color` laid over `under` with weight `coverage`: the one shows in that
/// proportion, the other in what is left of one.
pub fn blend(color: Color, under: Color, coverage: Fixed) -> (c: Color)
    ensures
        c == blended(color, under, coverage),
{
    color.multiply(coverage).add(under.multiply(Fixed::one().minus(coverage)))
}

/// Where every sample of a column is inside, the column holds `n` hits.
proof fn lemma_column_all(tri: Triangle, cfg: Config, row: int, col: int, mx: int, n: nat)
    requires
        covers_all(tri, cfg, row, col),
        0 <= mx < cfg.samples,
        n <= cfg.samples,
    ensures
        column_hits(tri, cfg, row, col, mx, n) == n,
    decreases n,
{
    if n > 0 {
        lemma_column_all(tri, cfg, row, col, mx, (n - 1) as nat);
        assert(inside(tri, sample_point(cfg, row, col, mx, n - 1)));
    }
}

/// Where no sample of a column is inside, the column holds no hit.
proof fn lemma_column_none(tri: Triangle, cfg: Config, row: int, col: int, mx: int, n: nat)
    requires
        covers_none(tri, cfg, row, col),
        0 <= mx < cfg.samples,
        n <= cfg.samples,
    ensures
        column_hits(tri, cfg, row, col, mx, n) == 0,
    decreases n,
{
    if n > 0 {
        lemma_column_none(tri, cfg, row, col, mx, (n - 1) as nat);
        assert(!inside(tri, sample_point(cfg, row, col, mx, n - 1)));
    }
}

proof fn lemma_grid_all(tri: Triangle, cfg: Config, row: int, col: int, m: nat)
    requires
        covers_all(tri, cfg, row, col),
        m <= cfg.samples,
    ensures
        grid_hits(tri, cfg, row, col, m) == m * cfg.samples,
    decreases m,
{
    if m > 0 {
        lemma_grid_all(tri, cfg, row, col, (m - 1) as nat);
        lemma_column_all(tri, cfg, row, col, m - 1, cfg.samples as nat);
        assert((m - 1) * cfg.samples + cfg.samples == m * cfg.samples) by (nonlinear_arith);
    } else {
        assert(0 * cfg.samples == 0);
    }
}

proof fn lemma_grid_none(tri: Triangle, cfg: Config, row: int, col: int, m: nat)
    requires
        covers_none(tri, cfg, row, col),
        m <= cfg.samples,
    ensures
        grid_hits(tri, cfg, row, col, m) == 0,
    decreases m,
{
    if m > 0 {
        lemma_grid_none(tri, cfg, row, col, (m - 1) as nat);
        lemma_column_none(tri, cfg, row, col, m - 1, cfg.samples as nat);
    }
}

/// A triangle that holds every sample of a pixel covers it with weight one.
pub proof fn lemma_full_coverage(tri: Triangle, cfg: Config, row: int, col: int)
    requires
        cfg.samples > 0,
        covers_all(tri, cfg, row, col),
    ensures
        pixel_coverage(tri, cfg, row, col) == Fixed::one(),
{
    lemma_grid_all(tri, cfg, row, col, cfg.samples as nat);
    let total: int = cfg.samples * cfg.samples;
    assert(0 < total) by (nonlinear_arith)
        requires
            total == cfg.samples * cfg.samples,
            cfg.samples > 0,
    ;
    lemma_share_bounds(total, total);
}

/// A triangle that holds no sample of a pixel covers it with weight zero.
pub proof fn lemma_no_coverage(tri: Triangle, cfg: Config, row: int, col: int)
    requires
        covers_none(tri, cfg, row, col),
    ensures
        pixel_coverage(tri, cfg, row, col) == Fixed::zero(),
{
    if cfg.samples > 0 {
        lemma_grid_none(tri, cfg, row, col, cfg.samples as nat);
        let total: int = cfg.samples * cfg.samples;
        assert(0 < total) by (nonlinear_arith)
            requires
                total == cfg.samples * cfg.samples,
                cfg.samples > 0,
        ;
        lemma_share_bounds(0, total);
    }
}

/// With weight one the blend is the colour laid on top, exactly.
pub proof fn lemma_blend_full(color: Color, under: Color)
    ensures
        blended(color, under, Fixed::one()) == color,
{
    lemma_multiply_one(color);
    lemma_add_zero_multiple(color, under);
}

/// With weight zero the blend is the colour underneath, exactly.
pub proof fn lemma_blend_none(color: Color, under: Color)
    ensures
        blended(color, under, Fixed::zero()) == under,
{
    lemma_multiply_zero(color);
    lemma_multiply_one(under);
    lemma_plus_zero(under.r);
    lemma_plus_zero(under.g);
    lemma_plus_zero(under.b);
}

/// Whether `fb` has the size that `cfg` names.
pub open spec fn sized_for(cfg: Config, fb: FrameBuffer) -> bool {
    &&& fb.width() == cfg.width
    &&& fb.height() == cfg.height
}

/// Composites triangles into buffers of one size with one sampling factor.
#[derive(Clone, Copy, Debug)]
pub struct Rasterizer {
    pub config: Config,
}

impl Rasterizer {
    pub fn new(config: Config) -> (r: Rasterizer)
        ensures
            r.config == config,
    {
        Rasterizer { config }
    }

    /// Blends the triangle's colour into every pixel in proportion to the
    /// share of the pixel's samples that the triangle holds. What was drawn
    /// before shows through the rest.
    pub fn composite(&self, tri: &Triangle, fb: &mut FrameBuffer)
        requires
            sized_for(self.config, *old(fb)),
        ensures
            sized_for(self.config, *final(fb)),
            forall|row: int, col: int|
                0 <= row < self.config.height && 0 <= col < self.config.width
                    ==> #[trigger] final(fb).at(row, col) == blended(
                    tri.color,
                    old(fb).at(row, col),
                    pixel_coverage(*tri, self.config, row, col),
                ),
            forall|row: int, col: int|
                0 <= row < self.config.height && 0 <= col < self.config.width
                    && self.config.samples > 0 && covers_all(*tri, self.config, row, col)
                    ==> #[trigger] final(fb).at(row, col) == tri.color,
            forall|row: int, col: int|
                0 <= row < self.config.height && 0 <= col < self.config.width
                    && covers_none(*tri, self.config, row, col)
                    ==> #[trigger] final(fb).at(row, col) == old(fb).at(row, col),
    {
        let cfg: Config = self.config;
        let ghost before: FrameBuffer = *fb;
        let mut row: usize = 0;
        while row < cfg.height
            invariant
                cfg == self.config,
                sized_for(cfg, *fb),
                sized_for(cfg, before),
                row <= cfg.height,
                forall|r: int, c: int|
                    0 <= r < cfg.height && 0 <= c < cfg.width ==> #[trigger] fb.at(r, c) == if precedes(
                        r,
                        c,
                        row as int,
                        0,
                    ) {
                        blended(tri.color, before.at(r, c), pixel_coverage(*tri, cfg, r, c))
                    } else {
                        before.at(r, c)
                    },
            decreases cfg.height - row,
        {
            let mut col: usize = 0;
            while col < cfg.width
                invariant
                    cfg == self.config,
                    sized_for(cfg, *fb),
                    sized_for(cfg, before),
                    row < cfg.height,
                    col <= cfg.width,
                    forall|r: int, c: int|
                        0 <= r < cfg.height && 0 <= c < cfg.width ==> #[trigger] fb.at(r, c)
                            == if precedes(r, c, row as int, col as int) {
                            blended(tri.color, before.at(r, c), pixel_coverage(*tri, cfg, r, c))
                        } else {
                            before.at(r, c)
                        },
                decreases cfg.width - col,
            {
                let weight: Fixed = coverage(tri, &cfg, row, col);
                let under: Color = fb.get(row, col);
                fb.set(row, col, blend(tri.color, under, weight));
                col = col + 1;
            }
            row = row + 1;
        }
        proof {
            assert forall|row: int, col: int|
                0 <= row < cfg.height && 0 <= col < cfg.width && cfg.samples > 0 && covers_all(
                    *tri,
                    cfg,
                    row,
                    col,
                ) implies #[trigger] fb.at(row, col) == tri.color by {
                lemma_full_coverage(*tri, cfg, row, col);
                lemma_blend_full(tri.color, before.at(row, col));
            }
            assert forall|row: int, col: int|
                0 <= row < cfg.height && 0 <= col < cfg.width && covers_none(*tri, cfg, row, col)
                implies #[trigger] fb.at(row, col) == before.at(row, col) by {
                lemma_no_coverage(*tri, cfg, row, col);
                lemma_blend_none(tri.color, before.at(row, col));
            }
        }
    }
}

} // verus!
