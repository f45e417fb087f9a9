//! The 64x32 monochrome framebuffer. Sprites are composed onto it by XOR
//! with wrap-around addressing, and a draw reports a collision when it turns
//! any lit pixel off.

use vstd::prelude::*;

verus! {

/// Screen width in pixels.
pub const WIDTH: usize = 64;

/// Screen height in pixels.
pub const HEIGHT: usize = 32;

/// The x coordinate hit by sprite column `col` drawn at `x0`: `(x0 + col)`
/// wrapped at the right edge. Meaningful for `0 <= x0 < 64` and
/// `0 <= col < 8`.
pub open spec fn wrap_x(x0: int, col: int) -> int {
    if x0 + col < 64 {
        x0 + col
    } else {
        x0 + col - 64
    }
}

/// The y coordinate hit by sprite row `row` drawn at `y0`: `(y0 + row)`
/// wrapped at the bottom edge. Meaningful for `0 <= y0 < 32` and
/// `0 <= row < 32`.
pub open spec fn wrap_y(y0: int, row: int) -> int {
    if y0 + row < 32 {
        y0 + row
    } else {
        y0 + row - 32
    }
}

/// Bit `col` of a sprite row byte, most significant first: bit 0 is the
/// leftmost pixel of the row.
pub open spec fn row_bit(b: u8, col: int) -> u8 {
    (b >> ((7 - col) as u8)) & 1
}

/// Whether drawing `sprite` at `(x0, y0)` puts a 1 bit on pixel `(px, py)`.
pub open spec fn hits(sprite: Seq<u8>, x0: int, y0: int, px: int, py: int) -> bool {
    exists|row: int, col: int|
        0 <= row < sprite.len() && 0 <= col < 8 && #[trigger] row_bit(sprite[row], col) == 1
            && wrap_x(x0, col) == px && wrap_y(y0, row) == py
}

/// A pixel value XOR-composed with a sprite bit.
pub open spec fn flip(b: u8) -> u8 {
    if b == 0 {
        1u8
    } else {
        0u8
    }
}

/// The framebuffer after drawing `sprite` at `(x0, y0)`: each pixel a 1 bit
/// lands on is flipped, every other pixel keeps its value.
pub open spec fn spec_draw(disp: Seq<Seq<u8>>, x0: int, y0: int, sprite: Seq<u8>) -> Seq<
    Seq<u8>,
> {
    Seq::new(
        64,
        |px: int|
            Seq::new(
                32,
                |py: int|
                    if hits(sprite, x0, y0, px, py) {
                        flip(disp[px][py])
                    } else {
                        disp[px][py]
                    },
            ),
    )
}

/// Whether drawing `sprite` at `(x0, y0)` on `disp` collides: some 1 bit of
/// the sprite lands on a pixel that is already lit.
pub open spec fn spec_collision(
    disp: Seq<Seq<u8>>,
    x0: int,
    y0: int,
    sprite: Seq<u8>,
) -> bool {
    exists|row: int, col: int|
        0 <= row < sprite.len() && 0 <= col < 8 && #[trigger] row_bit(sprite[row], col) == 1
            && disp[wrap_x(x0, col)][wrap_y(y0, row)] == 1
}

/// The all-dark framebuffer.
pub open spec fn blank_disp() -> Seq<Seq<u8>> {
    Seq::new(64, |px: int| Seq::new(32, |py: int| 0u8))
}

/// Like `hits`, but counting only the sprite cells already processed by the
/// drawing loop: all of rows `0..row`, plus columns `0..col` of `row`.
pub open spec fn hits_before(
    sprite: Seq<u8>,
    x0: int,
    y0: int,
    px: int,
    py: int,
    row: int,
    col: int,
) -> bool {
    exists|r: int, c: int|
        0 <= r < sprite.len() && 0 <= c < 8 && (r < row || (r == row && c < col))
            && #[trigger] row_bit(sprite[r], c) == 1 && wrap_x(x0, c) == px && wrap_y(y0, r) == py
}

/// Like `spec_collision`, but counting only the sprite cells already
/// processed by the drawing loop.
pub open spec fn collision_before(
    disp: Seq<Seq<u8>>,
    x0: int,
    y0: int,
    sprite: Seq<u8>,
    row: int,
    col: int,
) -> bool {
    exists|r: int, c: int|
        0 <= r < sprite.len() && 0 <= c < 8 && (r < row || (r == row && c < col))
            && #[trigger] row_bit(sprite[r], c) == 1 && disp[wrap_x(x0, c)][wrap_y(y0, r)] == 1
}

/// A sprite row bit is 0 or 1.
pub proof fn lemma_row_bit_le_1(b: u8, col: int)
    requires
        0 <= col < 8,
    ensures
        row_bit(b, col) <= 1,
{
    let sh = (7 - col) as u8;
    assert((b >> sh) & 1 <= 1) by (bit_vector);
}

/// The 64x32 grid of pixels, addressed `[x][y]`, each byte 0 or 1. The view
/// is the grid as a sequence of columns, each a sequence of 32 pixel values.
pub struct Display {
    pub pixels: Vec<Vec<u8>>,
}

impl View for Display {
    type V = Seq<Seq<u8>>;

    open spec fn view(&self) -> Seq<Seq<u8>> {
        self.pixels@.map_values(|column: Vec<u8>| column@)
    }
}

impl Display {
    /// True when the grid is 64 columns of 32 pixels, each 0 or 1.
    pub open spec fn wf(&self) -> bool {
        wf_disp(self@)
    }

    /// An all-dark display.
    pub fn new() -> (d: Display)
        ensures
            d.wf(),
            d@ == blank_disp(),
    {
        let mut pixels: Vec<Vec<u8>> = Vec::new();
        let mut x: usize = 0;
        while x < WIDTH
            invariant
                x <= WIDTH,
                pixels@.len() == x,
                forall|i: int| 0 <= i < x ==> (#[trigger] pixels@[i])@ =~= Seq::new(32, |py: int| 0u8),
            decreases WIDTH - x,
        {
            let mut column: Vec<u8> = Vec::new();
            let mut y: usize = 0;
            while y < HEIGHT
                invariant
                    y <= HEIGHT,
                    column@.len() == y,
                    forall|j: int| 0 <= j < y ==> column@[j] == 0u8,
                decreases HEIGHT - y,
            {
                column.push(0);
                y += 1;
            }
            proof {
                assert(column@ =~= Seq::new(32, |py: int| 0u8));
            }
            pixels.push(column);
            x += 1;
        }
        let d = Display { pixels };
        proof {
            assert(d@ =~~= blank_disp());
        }
        d
    }

    /// Draw `sprite` at `(x0, y0)`: one byte per row, bits most significant
    /// first, each 1 bit XOR-composed onto the pixel it lands on, with
    /// wrap-around addressing at both edges. Returns true exactly when some
    /// lit pixel was turned off.
    pub fn draw_sprite(&mut self, x0: u8, y0: u8, sprite: &Vec<u8>) -> (collision: bool)
        requires
            old(self).wf(),
            x0 < 64,
            y0 < 32,
            sprite@.len() <= 15,
        ensures
            final(self).wf(),
            final(self)@ == spec_draw(old(self)@, x0 as int, y0 as int, sprite@),
            collision == spec_collision(old(self)@, x0 as int, y0 as int, sprite@),
    {
        let ghost orig: Seq<Seq<u8>> = self@;
        let ghost spr: Seq<u8> = sprite@;
        let ghost gx: int = x0 as int;
        let ghost gy: int = y0 as int;
        let mut collision = false;
        let n = sprite.len();
        let mut row: usize = 0;
        while row < n
            invariant
                n == spr.len(),
                n <= 15,
                row <= n,
                x0 < 64,
                y0 < 32,
                gx == x0 as int,
                gy == y0 as int,
                sprite@ == spr,
                wf_disp(orig),
                wf_disp(self@),
                collision == collision_before(orig, gx, gy, spr, row as int, 0),
                forall|px: int, py: int|
                    0 <= px < 64 && 0 <= py < 32 && hits_before(spr, gx, gy, px, py, row as int, 0)
                        ==> self@[px][py] == flip(orig[px][py]),
                forall|px: int, py: int|
                    0 <= px < 64 && 0 <= py < 32 && !hits_before(
                        spr,
                        gx,
                        gy,
                        px,
                        py,
                        row as int,
                        0,
                    ) ==> self@[px][py] == orig[px][py],
            decreases n - row,
        {
            let byte = sprite[row];
            let mut col: usize = 0;
            while col < 8
                invariant
                    n == spr.len(),
                    n <= 15,
                    row < n,
                    col <= 8,
                    x0 < 64,
                    y0 < 32,
                    gx == x0 as int,
                    gy == y0 as int,
                    sprite@ == spr,
                    byte == spr[row as int],
                    wf_disp(orig),
                    wf_disp(self@),
                    collision == collision_before(orig, gx, gy, spr, row as int, col as int),
                    forall|px: int, py: int|
                        0 <= px < 64 && 0 <= py < 32 && hits_before(
                            spr,
                            gx,
                            gy,
                            px,
                            py,
                            row as int,
                            col as int,
                        ) ==> self@[px][py] == flip(orig[px][py]),
                    forall|px: int, py: int|
                        0 <= px < 64 && 0 <= py < 32 && !hits_before(
                            spr,
                            gx,
                            gy,
                            px,
                            py,
                            row as int,
                            col as int,
                        ) ==> self@[px][py] == orig[px][py],
                decreases 8 - col,
            {
                let xx = x0 as usize + col;
                let px = if xx < 64 {
                    xx
                } else {
                    xx - 64
                };
                let yy = y0 as usize + row;
                let py = if yy < 32 {
                    yy
                } else {
                    yy - 32
                };
                let shift: u8 = (7 - col) as u8;
                let bit: u8 = (byte >> shift) & 1;
                let ghost pxi: int = px as int;
                let ghost pyi: int = py as int;
                let ghost rowi: int = row as int;
                let ghost coli: int = col as int;
                proof {
                    lemma_row_bit_le_1(byte, coli);
                    assert(bit == row_bit(spr[rowi], coli));
                    assert(pxi == wrap_x(gx, coli));
                    assert(pyi == wrap_y(gy, rowi));
                    // No earlier sprite cell lands on this pixel: rows and
                    // columns map to distinct coordinates under wrapping.
                    assert(!hits_before(spr, gx, gy, pxi, pyi, rowi, coli)) by {
                        if hits_before(spr, gx, gy, pxi, pyi, rowi, coli) {
                            let (r, c) = choose|r: int, c: int|
                                0 <= r < spr.len() && 0 <= c < 8 && (r < rowi || (r == rowi && c
                                    < coli)) && #[trigger] row_bit(spr[r], c) == 1 && wrap_x(gx, c)
                                    == pxi && wrap_y(gy, r) == pyi;
                            assert(wrap_y(gy, r) == wrap_y(gy, rowi));
                            assert(r == rowi);
                            assert(wrap_x(gx, c) == wrap_x(gx, coli));
                            assert(c == coli);
                            assert(false);
                        }
                    }
                    assert(self@[pxi][pyi] == orig[pxi][pyi]);
                }
                let ghost before: Seq<Seq<u8>> = self@;
                if bit == 1 {
                    let cur = self.pixels[px][py];
                    proof {
                        assert(cur == orig[pxi][pyi]);
                    }
                    if cur == 1 {
                        collision = true;
                        self.pixels[px][py] = 0;
                    } else {
                        self.pixels[px][py] = 1;
                    }
                    proof {
                        assert(self@ =~~= before.update(
                            pxi,
                            before[pxi].update(pyi, flip(orig[pxi][pyi])),
                        ));
                    }
                }
                proof {
                    lemma_cell_step(orig, before, self@, spr, gx, gy, rowi, coli);
                    assert(collision == collision_before(orig, gx, gy, spr, rowi, coli + 1));
                }
                col += 1;
            }
            proof {
                lemma_row_advance(orig, spr, gx, gy, row as int);
                let rowi: int = row as int;
                assert forall|px: int, py: int|
                    0 <= px < 64 && 0 <= py < 32 && hits_before(
                        spr,
                        gx,
                        gy,
                        px,
                        py,
                        rowi + 1,
                        0,
                    ) implies self@[px][py] == flip(orig[px][py]) by {
                    assert(hits_before(spr, gx, gy, px, py, rowi, 8));
                }
                assert forall|px: int, py: int|
                    0 <= px < 64 && 0 <= py < 32 && !hits_before(
                        spr,
                        gx,
                        gy,
                        px,
                        py,
                        rowi + 1,
                        0,
                    ) implies self@[px][py] == orig[px][py] by {
                    assert(!hits_before(spr, gx, gy, px, py, rowi, 8));
                }
            }
            row += 1;
        }
        proof {
            lemma_draw_complete(orig, spr, gx, gy);
            let d = spec_draw(orig, gx, gy, spr);
            assert forall|px: int| 0 <= px < 64 implies self@[px] =~= d[px] by {
                assert forall|py: int| 0 <= py < 32 implies self@[px][py] == d[px][py] by {
                    if hits(spr, gx, gy, px, py) {
                        assert(hits_before(spr, gx, gy, px, py, n as int, 0));
                        assert(self@[px][py] == flip(orig[px][py]));
                    } else {
                        assert(!hits_before(spr, gx, gy, px, py, n as int, 0));
                        assert(self@[px][py] == orig[px][py]);
                    }
                }
                assert(self@[px].len() == 32);
            }
            assert(self@ =~~= d);
        }
        collision
    }

    /// Turn every pixel off.
    pub fn clear(&mut self)
        requires
            old(self).wf(),
        ensures
            final(self).wf(),
            final(self)@ == blank_disp(),
    {
        let fresh = Display::new();
        self.pixels = fresh.pixels;
        proof {
            assert(self@ =~~= blank_disp());
        }
    }
}

/// True of a 64x32 grid whose pixels are all 0 or 1.
pub open spec fn wf_disp(disp: Seq<Seq<u8>>) -> bool {
    disp.len() == 64 && forall|x: int|
        0 <= x < 64 ==> (#[trigger] disp[x]).len() == 32 && forall|y: int|
            0 <= y < 32 ==> #[trigger] disp[x][y] <= 1
}

/// No sprite cell processed before `(rowi, coli)` lands on the pixel that
/// `(rowi, coli)` itself lands on: within one sprite, distinct rows and
/// columns wrap to distinct coordinates.
proof fn lemma_unhit(spr: Seq<u8>, gx: int, gy: int, rowi: int, coli: int)
    requires
        spr.len() <= 15,
        0 <= gx < 64,
        0 <= gy < 32,
        0 <= rowi < spr.len(),
        0 <= coli < 8,
    ensures
        !hits_before(spr, gx, gy, wrap_x(gx, coli), wrap_y(gy, rowi), rowi, coli),
{
    let pxi = wrap_x(gx, coli);
    let pyi = wrap_y(gy, rowi);
    if hits_before(spr, gx, gy, pxi, pyi, rowi, coli) {
        let (r, c) = choose|r: int, c: int|
            0 <= r < spr.len() && 0 <= c < 8 && (r < rowi || (r == rowi && c < coli))
                && #[trigger] row_bit(spr[r], c) == 1 && wrap_x(gx, c) == pxi && wrap_y(gy, r)
                == pyi;
        assert(wrap_y(gy, r) == wrap_y(gy, rowi));
        assert(r == rowi);
        assert(wrap_x(gx, c) == wrap_x(gx, coli));
        assert(c == coli);
        assert(false);
    }
}

/// How one step of the drawing loop carries its bookkeeping from sprite cell
/// `(rowi, coli)` to the next cell of the same row: the processed 1 bits are
/// exactly the old ones plus, if it is 1, the bit at `(rowi, coli)`.
proof fn lemma_cell_step(
    orig: Seq<Seq<u8>>,
    before: Seq<Seq<u8>>,
    after: Seq<Seq<u8>>,
    spr: Seq<u8>,
    gx: int,
    gy: int,
    rowi: int,
    coli: int,
)
    requires
        wf_disp(orig),
        wf_disp(before),
        spr.len() <= 15,
        0 <= gx < 64,
        0 <= gy < 32,
        0 <= rowi < spr.len(),
        0 <= coli < 8,
        forall|px: int, py: int|
            0 <= px < 64 && 0 <= py < 32 && hits_before(spr, gx, gy, px, py, rowi, coli)
                ==> before[px][py] == flip(orig[px][py]),
        forall|px: int, py: int|
            0 <= px < 64 && 0 <= py < 32 && !hits_before(spr, gx, gy, px, py, rowi, coli)
                ==> before[px][py] == orig[px][py],
        ({
            let pxi = wrap_x(gx, coli);
            let pyi = wrap_y(gy, rowi);
            if row_bit(spr[rowi], coli) == 1 {
                after == before.update(pxi, before[pxi].update(pyi, flip(orig[pxi][pyi])))
            } else {
                after == before
            }
        }),
    ensures
        wf_disp(after),
        forall|px: int, py: int|
            0 <= px < 64 && 0 <= py < 32 && hits_before(spr, gx, gy, px, py, rowi, coli + 1)
                ==> after[px][py] == flip(orig[px][py]),
        forall|px: int, py: int|
            0 <= px < 64 && 0 <= py < 32 && !hits_before(spr, gx, gy, px, py, rowi, coli + 1)
                ==> after[px][py] == orig[px][py],
        collision_before(orig, gx, gy, spr, rowi, coli + 1) == (collision_before(
            orig,
            gx,
            gy,
            spr,
            rowi,
            coli,
        ) || (row_bit(spr[rowi], coli) == 1 && orig[wrap_x(gx, coli)][wrap_y(gy, rowi)] == 1)),
{
    let pxi = wrap_x(gx, coli);
    let pyi = wrap_y(gy, rowi);
    let b = row_bit(spr[rowi], coli);
    lemma_unhit(spr, gx, gy, rowi, coli);
    assert(0 <= pxi < 64 && 0 <= pyi < 32);
    assert(before[pxi][pyi] == orig[pxi][pyi]);

    assert forall|px2: int, py2: int|
        0 <= px2 < 64 && 0 <= py2 < 32 && hits_before(
            spr,
            gx,
            gy,
            px2,
            py2,
            rowi,
            coli + 1,
        ) implies after[px2][py2] == flip(orig[px2][py2]) by {
        let (r, c) = choose|r: int, c: int|
            0 <= r < spr.len() && 0 <= c < 8 && (r < rowi || (r == rowi && c < coli + 1))
                && #[trigger] row_bit(spr[r], c) == 1 && wrap_x(gx, c) == px2 && wrap_y(gy, r)
                == py2;
        if r < rowi || (r == rowi && c < coli) {
            assert(hits_before(spr, gx, gy, px2, py2, rowi, coli));
            if px2 == pxi && py2 == pyi {
                assert(false);
            }
            assert(after[px2][py2] == before[px2][py2]);
        } else {
            assert(r == rowi && c == coli);
            assert(px2 == pxi && py2 == pyi && b == 1);
            assert(after[px2][py2] == flip(orig[pxi][pyi]));
        }
    }

    assert forall|px2: int, py2: int|
        0 <= px2 < 64 && 0 <= py2 < 32 && !hits_before(
            spr,
            gx,
            gy,
            px2,
            py2,
            rowi,
            coli + 1,
        ) implies after[px2][py2] == orig[px2][py2] by {
        assert(!hits_before(spr, gx, gy, px2, py2, rowi, coli)) by {
            if hits_before(spr, gx, gy, px2, py2, rowi, coli) {
                let (r, c) = choose|r: int, c: int|
                    0 <= r < spr.len() && 0 <= c < 8 && (r < rowi || (r == rowi && c < coli))
                        && #[trigger] row_bit(spr[r], c) == 1 && wrap_x(gx, c) == px2 && wrap_y(
                        gy,
                        r,
                    ) == py2;
                assert(hits_before(spr, gx, gy, px2, py2, rowi, coli + 1));
                assert(false);
            }
        }
        if b == 1 {
            if px2 == pxi && py2 == pyi {
                assert(hits_before(spr, gx, gy, pxi, pyi, rowi, coli + 1));
                assert(false);
            }
            assert(after[px2][py2] == before[px2][py2]);
        }
    }

    assert(collision_before(orig, gx, gy, spr, rowi, coli + 1) == (collision_before(
        orig,
        gx,
        gy,
        spr,
        rowi,
        coli,
    ) || (b == 1 && orig[pxi][pyi] == 1))) by {
        if collision_before(orig, gx, gy, spr, rowi, coli + 1) {
            let (r, c) = choose|r: int, c: int|
                0 <= r < spr.len() && 0 <= c < 8 && (r < rowi || (r == rowi && c < coli + 1))
                    && #[trigger] row_bit(spr[r], c) == 1 && orig[wrap_x(gx, c)][wrap_y(gy, r)]
                    == 1;
            if r < rowi || (r == rowi && c < coli) {
                assert(collision_before(orig, gx, gy, spr, rowi, coli));
            } else {
                assert(r == rowi && c == coli);
            }
        }
        if collision_before(orig, gx, gy, spr, rowi, coli) {
            let (r, c) = choose|r: int, c: int|
                0 <= r < spr.len() && 0 <= c < 8 && (r < rowi || (r == rowi && c < coli))
                    && #[trigger] row_bit(spr[r], c) == 1 && orig[wrap_x(gx, c)][wrap_y(gy, r)]
                    == 1;
            assert(collision_before(orig, gx, gy, spr, rowi, coli + 1));
        }
        if b == 1 && orig[pxi][pyi] == 1 {
            assert(collision_before(orig, gx, gy, spr, rowi, coli + 1));
        }
    }

    assert forall|x: int| 0 <= x < 64 implies (#[trigger] after[x]).len() == 32 && forall|y: int|
        0 <= y < 32 ==> #[trigger] after[x][y] <= 1 by {
        assert(before[x].len() == 32);
        if b == 1 && x == pxi {
            assert forall|y: int| 0 <= y < 32 implies #[trigger] after[x][y] <= 1 by {
                if y != pyi {
                    assert(after[x][y] == before[x][y]);
                }
            }
        }
    }
}

/// Finishing one sprite row is the same as standing at the start of the
/// next: the sets of processed cells coincide.
proof fn lemma_row_advance(orig: Seq<Seq<u8>>, spr: Seq<u8>, gx: int, gy: int, rowi: int)
    ensures
        forall|px: int, py: int|
            #[trigger] hits_before(spr, gx, gy, px, py, rowi, 8) == hits_before(
                spr,
                gx,
                gy,
                px,
                py,
                rowi + 1,
                0,
            ),
        collision_before(orig, gx, gy, spr, rowi, 8) == collision_before(
            orig,
            gx,
            gy,
            spr,
            rowi + 1,
            0,
        ),
{
    assert forall|px: int, py: int|
        #[trigger] hits_before(spr, gx, gy, px, py, rowi, 8) == hits_before(
            spr,
            gx,
            gy,
            px,
            py,
            rowi + 1,
            0,
        ) by {
        if hits_before(spr, gx, gy, px, py, rowi, 8) {
            let (r, c) = choose|r: int, c: int|
                0 <= r < spr.len() && 0 <= c < 8 && (r < rowi || (r == rowi && c < 8))
                    && #[trigger] row_bit(spr[r], c) == 1 && wrap_x(gx, c) == px && wrap_y(gy, r)
                    == py;
            assert(hits_before(spr, gx, gy, px, py, rowi + 1, 0));
        }
        if hits_before(spr, gx, gy, px, py, rowi + 1, 0) {
            let (r, c) = choose|r: int, c: int|
                0 <= r < spr.len() && 0 <= c < 8 && (r < rowi + 1 || (r == rowi + 1 && c < 0))
                    && #[trigger] row_bit(spr[r], c) == 1 && wrap_x(gx, c) == px && wrap_y(gy, r)
                    == py;
            assert(hits_before(spr, gx, gy, px, py, rowi, 8));
        }
    }
    if collision_before(orig, gx, gy, spr, rowi, 8) {
        let (r, c) = choose|r: int, c: int|
            0 <= r < spr.len() && 0 <= c < 8 && (r < rowi || (r == rowi && c < 8))
                && #[trigger] row_bit(spr[r], c) == 1 && orig[wrap_x(gx, c)][wrap_y(gy, r)] == 1;
        assert(collision_before(orig, gx, gy, spr, rowi + 1, 0));
    }
    if collision_before(orig, gx, gy, spr, rowi + 1, 0) {
        let (r, c) = choose|r: int, c: int|
            0 <= r < spr.len() && 0 <= c < 8 && (r < rowi + 1 || (r == rowi + 1 && c < 0))
                && #[trigger] row_bit(spr[r], c) == 1 && orig[wrap_x(gx, c)][wrap_y(gy, r)] == 1;
        assert(collision_before(orig, gx, gy, spr, rowi, 8));
    }
}

/// Once every sprite row is processed, the loop's bookkeeping says exactly
/// what `hits` and `spec_collision` say.
proof fn lemma_draw_complete(orig: Seq<Seq<u8>>, spr: Seq<u8>, gx: int, gy: int)
    ensures
        forall|px: int, py: int|
            #[trigger] hits_before(spr, gx, gy, px, py, spr.len() as int, 0) == hits(
                spr,
                gx,
                gy,
                px,
                py,
            ),
        collision_before(orig, gx, gy, spr, spr.len() as int, 0) == spec_collision(
            orig,
            gx,
            gy,
            spr,
        ),
{
    let n = spr.len() as int;
    assert forall|px: int, py: int|
        #[trigger] hits_before(spr, gx, gy, px, py, n, 0) == hits(spr, gx, gy, px, py) by {
        if hits_before(spr, gx, gy, px, py, n, 0) {
            let (r, c) = choose|r: int, c: int|
                0 <= r < spr.len() && 0 <= c < 8 && (r < n || (r == n && c < 0))
                    && #[trigger] row_bit(spr[r], c) == 1 && wrap_x(gx, c) == px && wrap_y(gy, r)
                    == py;
            assert(hits(spr, gx, gy, px, py));
        }
        if hits(spr, gx, gy, px, py) {
            let (r, c) = choose|r: int, c: int|
                0 <= r < spr.len() && 0 <= c < 8 && #[trigger] row_bit(spr[r], c) == 1 && wrap_x(
                    gx,
                    c,
                ) == px && wrap_y(gy, r) == py;
            assert(hits_before(spr, gx, gy, px, py, n, 0));
        }
    }
    if collision_before(orig, gx, gy, spr, n, 0) {
        let (r, c) = choose|r: int, c: int|
            0 <= r < spr.len() && 0 <= c < 8 && (r < n || (r == n && c < 0))
                && #[trigger] row_bit(spr[r], c) == 1 && orig[wrap_x(gx, c)][wrap_y(gy, r)] == 1;
        assert(spec_collision(orig, gx, gy, spr));
    }
    if spec_collision(orig, gx, gy, spr) {
        let (r, c) = choose|r: int, c: int|
            0 <= r < spr.len() && 0 <= c < 8 && #[trigger] row_bit(spr[r], c) == 1 && orig[wrap_x(
                gx,
                c,
            )][wrap_y(gy, r)] == 1;
        assert(collision_before(orig, gx, gy, spr, n, 0));
    }
}

} // verus!
