use vstd::prelude::*;
use crate::image::{is_grid, Image};

verus! {

/// The ASCII decimal digits of `n`, most significant first, without leading zeros.
pub open spec fn decimal(n: nat) -> Seq<u8>
    decreases n,
{
    if n < 10 {
        seq![(48 + n) as u8]
    } else {
        decimal(n / 10) + seq![(48 + n % 10) as u8]
    }
}

/// The header `"P6\n<w> <h> 255\n"`.
pub open spec fn ppm_header(w: nat, h: nat) -> Seq<u8> {
    seq![80u8, 54u8, 10u8] + decimal(w) + seq![32u8] + decimal(h) + seq![32u8, 50u8, 53u8, 53u8, 10u8]
}

/// The red channel: the lowest byte of a packed color.
pub open spec fn red(c: u32) -> u8 {
    (c & 0xFF) as u8
}

/// The green channel: the second byte of a packed color.
pub open spec fn green(c: u32) -> u8 {
    ((c >> 8) & 0xFF) as u8
}

/// The blue channel: the third byte of a packed color.
pub open spec fn blue(c: u32) -> u8 {
    ((c >> 16) & 0xFF) as u8
}

/// The three bytes written for one cell.
pub open spec fn rgb_bytes(c: u32) -> Seq<u8> {
    seq![red(c), green(c), blue(c)]
}

/// The bytes of one row, cell by cell from the left.
pub open spec fn row_bytes(row: Seq<u32>) -> Seq<u8>
    decreases row.len(),
{
    if row.len() == 0 {
        Seq::empty()
    } else {
        row_bytes(row.drop_last()) + rgb_bytes(row.last())
    }
}

/// The bytes of a grid, row by row from the top.
pub open spec fn grid_bytes(grid: Seq<Seq<u32>>) -> Seq<u8>
    decreases grid.len(),
{
    if grid.len() == 0 {
        Seq::empty()
    } else {
        grid_bytes(grid.drop_last()) + row_bytes(grid.last())
    }
}

/// The whole file for a grid of `w` by `h` cells: header, then the cells.
pub open spec fn ppm_bytes(grid: Seq<Seq<u32>>, w: nat, h: nat) -> Seq<u8> {
    ppm_header(w, h) + grid_bytes(grid)
}

fn push_decimal(out: &mut Vec<u8>, n: usize)
    ensures
        final(out)@ == old(out)@ + decimal(n as nat),
    decreases n,
{
    if n >= 10 {
        push_decimal(out, n / 10);
    }
    out.push((48 + n % 10) as u8);
    assert(out@ =~= old(out)@ + decimal(n as nat));
}

/// The image as a binary pixel map: the header `"P6\n<width> <height> 255\n"`,
/// then for each cell, row by row, its red, green and blue bytes (the lowest
/// three bytes of the color, lowest first).
pub fn encode_ppm(image: &Image) -> (bytes: Vec<u8>)
    requires
        image.wf(),
    ensures
        bytes@ == ppm_bytes(image@, image.spec_width(), image.spec_height()),
{
    let ghost grid = image@;
    let width: usize = image.width();
    let height: usize = image.height();
    let mut out: Vec<u8> = Vec::new();
    out.push(80u8);
    out.push(54u8);
    out.push(10u8);
    push_decimal(&mut out, width);
    out.push(32u8);
    push_decimal(&mut out, height);
    out.push(32u8);
    out.push(50u8);
    out.push(53u8);
    out.push(53u8);
    out.push(10u8);
    let ghost header = out@;
    assert(header =~= ppm_header(width as nat, height as nat));
    let mut y: usize = 0;
    while y < height
        invariant
            image.wf(),
            grid == image@,
            width == image.spec_width(),
            height == image.spec_height(),
            y <= height,
            out@ == header + grid_bytes(grid.take(y as int)),
        decreases height - y,
    {
        let ghost row = grid[y as int];
        let mut x: usize = 0;
        while x < width
            invariant
                image.wf(),
                grid == image@,
                width == image.spec_width(),
                height == image.spec_height(),
                y < height,
                x <= width,
                row == grid[y as int],
                out@ == header + grid_bytes(grid.take(y as int)) + row_bytes(row.take(x as int)),
            decreases width - x,
        {
            let c: u32 = image.pixel(x, y);
            out.push((c & 0xFF) as u8);
            out.push(((c >> 8) & 0xFF) as u8);
            out.push(((c >> 16) & 0xFF) as u8);
            proof {
                assert(row.take(x + 1).drop_last() =~= row.take(x as int));
                assert(row_bytes(row.take(x + 1)) == row_bytes(row.take(x as int)) + rgb_bytes(c));
                assert(out@ =~= header + grid_bytes(grid.take(y as int)) + row_bytes(row.take(x + 1)));
            }
            x = x + 1;
        }
        proof {
            assert(row.take(width as int) =~= row);
            assert(grid.take(y + 1).drop_last() =~= grid.take(y as int));
            assert(grid_bytes(grid.take(y + 1)) == grid_bytes(grid.take(y as int)) + row_bytes(row));
            assert(out@ =~= header + grid_bytes(grid.take(y + 1)));
        }
        y = y + 1;
    }
    assert(grid.take(height as int) =~= grid);
    out
}

proof fn lemma_row_bytes(row: Seq<u32>)
    ensures
        row_bytes(row).len() == 3 * row.len(),
        forall|x: int, k: int| 0 <= x < row.len() && 0 <= k < 3
            ==> #[trigger] row_bytes(row)[3 * x + k] == rgb_bytes(row[x])[k],
    decreases row.len(),
{
    if row.len() > 0 {
        let init = row.drop_last();
        lemma_row_bytes(init);
        assert forall|x: int, k: int| 0 <= x < row.len() && 0 <= k < 3
            implies #[trigger] row_bytes(row)[3 * x + k] == rgb_bytes(row[x])[k] by {
            if x < init.len() {
                assert(row[x] == init[x]);
            }
        }
    }
}

proof fn lemma_grid_bytes(grid: Seq<Seq<u32>>, w: nat)
    requires
        forall|y: int| 0 <= y < grid.len() ==> (#[trigger] grid[y]).len() == w,
    ensures
        grid_bytes(grid).len() == 3 * w * grid.len(),
        forall|y: int, k: int| 0 <= y < grid.len() && 0 <= k < 3 * w
            ==> #[trigger] grid_bytes(grid)[3 * w * y + k] == row_bytes(grid[y])[k],
    decreases grid.len(),
{
    if grid.len() > 0 {
        let init = grid.drop_last();
        let n = init.len();
        assert forall|y: int| 0 <= y < init.len() implies (#[trigger] init[y]).len() == w by {
            assert(init[y] == grid[y]);
        }
        lemma_grid_bytes(init, w);
        lemma_row_bytes(grid.last());
        assert(3 * w * grid.len() == 3 * w * n + 3 * w) by (nonlinear_arith)
            requires
                grid.len() == n + 1,
        ;
        assert forall|y: int, k: int| 0 <= y < grid.len() && 0 <= k < 3 * w
            implies #[trigger] grid_bytes(grid)[3 * w * y + k] == row_bytes(grid[y])[k] by {
            if y < n {
                assert(3 * w * y + k < 3 * w * n) by (nonlinear_arith)
                    requires
                        0 <= y < n,
                        0 <= k < 3 * w,
                ;
                assert(init[y] == grid[y]);
            } else {
                assert(3 * w * y == 3 * w * n);
            }
        }
    }
}

/// Reading the encoding back gives every cell's color, less its highest
/// byte: after the header, the three bytes at `3 * (y * w + x)` are the red,
/// green and blue channels of the cell in column `x` of row `y`, and nothing
/// else follows the last cell.
pub proof fn lemma_ppm_round_trip(grid: Seq<Seq<u32>>, w: nat, h: nat, x: int, y: int)
    requires
        is_grid(grid, w, h),
        0 <= x < w,
        0 <= y < h,
    ensures
        ({
            let bytes = ppm_bytes(grid, w, h);
            let start = ppm_header(w, h).len() + 3 * (y * w + x);
            &&& bytes.len() == ppm_header(w, h).len() + 3 * w * h
            &&& bytes.subrange(0, ppm_header(w, h).len() as int) == ppm_header(w, h)
            &&& bytes[start] == red(grid[y][x])
            &&& bytes[start + 1] == green(grid[y][x])
            &&& bytes[start + 2] == blue(grid[y][x])
        }),
{
    let bytes = ppm_bytes(grid, w, h);
    let hl = ppm_header(w, h).len();
    lemma_grid_bytes(grid, w);
    lemma_row_bytes(grid[y]);
    assert(3 * (y * w + x) == 3 * w * y + 3 * x) by (nonlinear_arith);
    assert(3 * x + 2 < 3 * w);
    assert(grid_bytes(grid)[3 * w * y + 3 * x] == row_bytes(grid[y])[3 * x + 0]);
    assert(grid_bytes(grid)[3 * w * y + (3 * x + 1)] == row_bytes(grid[y])[3 * x + 1]);
    assert(grid_bytes(grid)[3 * w * y + (3 * x + 2)] == row_bytes(grid[y])[3 * x + 2]);
    assert(bytes.subrange(0, hl as int) =~= ppm_header(w, h));
    let start = hl + 3 * (y * w + x);
    assert(3 * w * y + 3 * x + 2 < 3 * w * h) by (nonlinear_arith)
        requires
            0 <= x < w,
            0 <= y < h,
    ;
    let c = grid[y][x];
    assert(rgb_bytes(c)[0] == red(c));
    assert(rgb_bytes(c)[1] == green(c));
    assert(rgb_bytes(c)[2] == blue(c));
    assert(bytes[start] == grid_bytes(grid)[3 * w * y + 3 * x]);
    assert(bytes[start + 1] == grid_bytes(grid)[3 * w * y + (3 * x + 1)]);
    assert(bytes[start + 2] == grid_bytes(grid)[3 * w * y + (3 * x + 2)]);
}

} // verus!
