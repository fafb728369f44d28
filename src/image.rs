use vstd::prelude::*;
use crate::geometry::COORD_LIMIT;

verus! {

/// A grid of packed 32-bit colors, `height` rows of `width` cells, indexed
/// by row first.
pub struct Image {
    width: usize,
    height: usize,
    rows: Vec<Vec<u32>>,
}

/// Whether `grid` has exactly `h` rows of `w` cells each.
pub open spec fn is_grid(grid: Seq<Seq<u32>>, w: nat, h: nat) -> bool {
    &&& grid.len() == h
    &&& forall|y: int| 0 <= y < h ==> (#[trigger] grid[y]).len() == w
}

/// The grid of `w` by `h` cells all holding `color`.
pub open spec fn uniform_grid(w: nat, h: nat, color: u32) -> Seq<Seq<u32>> {
    Seq::new(h, |y: int| Seq::new(w, |x: int| color))
}

/// Whether cell `(x, y)` lies on the closed disk of radius `r` around
/// `(cx, cy)`; a negative radius gives the empty disk.
pub open spec fn in_disk(x: int, y: int, cx: int, cy: int, r: int) -> bool {
    0 <= r && (x - cx) * (x - cx) + (y - cy) * (y - cy) <= r * r
}

/// `grid` with every cell on the disk around `(cx, cy)` set to `color`.
pub open spec fn disk_over(grid: Seq<Seq<u32>>, cx: int, cy: int, r: int, color: u32) -> Seq<Seq<u32>> {
    Seq::new(grid.len(), |y: int| Seq::new(grid[y].len(), |x: int|
        if in_disk(x, y, cx, cy, r) { color } else { grid[y][x] }))
}

impl View for Image {
    type V = Seq<Seq<u32>>;

    closed spec fn view(&self) -> Seq<Seq<u32>> {
        self.rows@.map_values(|row: Vec<u32>| row@)
    }
}

impl Image {
    /// The number of columns.
    pub closed spec fn spec_width(&self) -> nat {
        self.width as nat
    }

    /// The number of rows.
    pub closed spec fn spec_height(&self) -> nat {
        self.height as nat
    }

    /// The grid has the recorded dimensions, each at most `COORD_LIMIT`.
    pub open spec fn wf(&self) -> bool {
        &&& is_grid(self@, self.spec_width(), self.spec_height())
        &&& self.spec_width() <= COORD_LIMIT
        &&& self.spec_height() <= COORD_LIMIT
    }

    /// A zero-filled image of `width` columns and `height` rows.
    pub fn new(width: usize, height: usize) -> (img: Image)
        requires
            width <= COORD_LIMIT,
            height <= COORD_LIMIT,
        ensures
            img.wf(),
            img.spec_width() == width,
            img.spec_height() == height,
            img@ == uniform_grid(width as nat, height as nat, 0),
    {
        let mut img = Image { width, height, rows: Vec::new() };
        img.rows = uniform_rows(width, height, 0);
        proof {
            assert(img@ =~= uniform_grid(width as nat, height as nat, 0));
        }
        img
    }

    /// The number of columns.
    pub fn width(&self) -> (r: usize)
        ensures
            r == self.spec_width(),
    {
        self.width
    }

    /// The number of rows.
    pub fn height(&self) -> (r: usize)
        ensures
            r == self.spec_height(),
    {
        self.height
    }

    /// The color of the cell in column `x` of row `y`.
    pub fn pixel(&self, x: usize, y: usize) -> (c: u32)
        requires
            self.wf(),
            x < self.spec_width(),
            y < self.spec_height(),
        ensures
            c == self@[y as int][x as int],
    {
        assert(self@[y as int] == self.rows@[y as int]@);
        self.rows[y][x]
    }

    /// Sets the cell in column `x` of row `y` to `c`.
    pub fn set_pixel(&mut self, x: usize, y: usize, c: u32)
        requires
            old(self).wf(),
            x < old(self).spec_width(),
            y < old(self).spec_height(),
        ensures
            final(self).wf(),
            final(self).spec_width() == old(self).spec_width(),
            final(self).spec_height() == old(self).spec_height(),
            final(self)@ == old(self)@.update(y as int, old(self)@[y as int].update(x as int, c)),
    {
        let ghost before = self@;
        assert(before[y as int] == self.rows@[y as int]@);
        self.rows[y][x] = c;
        assert(self@ =~= before.update(y as int, before[y as int].update(x as int, c)));
    }
}

fn uniform_rows(width: usize, height: usize, color: u32) -> (rows: Vec<Vec<u32>>)
    ensures
        rows@.map_values(|row: Vec<u32>| row@) == uniform_grid(width as nat, height as nat, color),
{
    let mut rows: Vec<Vec<u32>> = Vec::new();
    let mut y: usize = 0;
    while y < height
        invariant
            y <= height,
            rows@.len() == y,
            forall|j: int| 0 <= j < y ==> (#[trigger] rows@[j])@ == Seq::new(width as nat, |x: int| color),
        decreases height - y,
    {
        let mut row: Vec<u32> = Vec::new();
        let mut x: usize = 0;
        while x < width
            invariant
                x <= width,
                row@ == Seq::new(x as nat, |i: int| color),
            decreases width - x,
        {
            row.push(color);
            x = x + 1;
            proof {
                assert(row@ =~= Seq::new(x as nat, |i: int| color));
            }
        }
        rows.push(row);
        y = y + 1;
    }
    assert(rows@.map_values(|row: Vec<u32>| row@) =~= uniform_grid(width as nat, height as nat, color));
    rows
}

/// Sets every cell of the image to `color`.
pub fn fill_image(image: &mut Image, color: u32)
    requires
        old(image).wf(),
    ensures
        final(image).wf(),
        final(image).spec_width() == old(image).spec_width(),
        final(image).spec_height() == old(image).spec_height(),
        final(image)@ == uniform_grid(old(image).spec_width(), old(image).spec_height(), color),
{
    image.rows = uniform_rows(image.width, image.height, color);
}

/// Drawing a disk keeps the grid's shape, whatever part of the disk lies
/// beyond its edges: only cells of the grid are written, and every cell off
/// the disk keeps its color.
pub proof fn lemma_disk_stays_in_bounds(grid: Seq<Seq<u32>>, w: nat, h: nat, cx: int, cy: int, r: int, color: u32)
    requires
        is_grid(grid, w, h),
    ensures
        is_grid(disk_over(grid, cx, cy, r, color), w, h),
        forall|x: int, y: int| 0 <= x < w && 0 <= y < h && !in_disk(x, y, cx, cy, r)
            ==> #[trigger] disk_over(grid, cx, cy, r, color)[y][x] == grid[y][x],
{
}

/// For a radius `r` of at least zero, a cell of the grid takes `color`
/// exactly when its squared distance to the center is at most `r * r`,
/// boundary included; any other cell keeps its color.
pub proof fn lemma_disk_membership(
    grid: Seq<Seq<u32>>,
    w: nat,
    h: nat,
    cx: int,
    cy: int,
    r: int,
    color: u32,
    x: int,
    y: int,
)
    requires
        is_grid(grid, w, h),
        0 <= r,
        0 <= x < w,
        0 <= y < h,
    ensures
        disk_over(grid, cx, cy, r, color)[y][x] == if (x - cx) * (x - cx) + (y - cy) * (y - cy) <= r * r {
            color
        } else {
            grid[y][x]
        },
{
}

proof fn lemma_disk_in_box(x: int, y: int, cx: int, cy: int, r: int)
    requires
        in_disk(x, y, cx, cy, r),
    ensures
        cx - r <= x <= cx + r,
        cy - r <= y <= cy + r,
{
    assert(cx - r <= x <= cx + r) by (nonlinear_arith)
        requires
            0 <= r,
            (x - cx) * (x - cx) + (y - cy) * (y - cy) <= r * r,
    ;
    assert(cy - r <= y <= cy + r) by (nonlinear_arith)
        requires
            0 <= r,
            (x - cx) * (x - cx) + (y - cy) * (y - cy) <= r * r,
    ;
}

proof fn lemma_square_le(d: int, r: int)
    requires
        -r <= d <= r,
    ensures
        0 <= d * d <= r * r,
{
    assert(0 <= d * d <= r * r) by (nonlinear_arith)
        requires
            -r <= d <= r,
    ;
}

/// Sets to `color` every cell of the image on the closed disk of radius
/// `radius` around `(cx, cy)`; cells of the disk outside the image are skipped.
pub fn fill_circle(image: &mut Image, cx: i64, cy: i64, radius: i64, color: u32)
    requires
        old(image).wf(),
    ensures
        final(image).wf(),
        final(image).spec_width() == old(image).spec_width(),
        final(image).spec_height() == old(image).spec_height(),
        final(image)@ == disk_over(old(image)@, cx as int, cy as int, radius as int, color),
{
    let ghost before = image@;
    let ghost w = image.spec_width();
    let ghost h = image.spec_height();
    if radius < 0 {
        assert(image@ =~~= disk_over(before, cx as int, cy as int, radius as int, color));
        return;
    }
    let r: i128 = radius as i128;
    let ccx: i128 = cx as i128;
    let ccy: i128 = cy as i128;
    let wi: i128 = image.width as i128;
    let hi: i128 = image.height as i128;
    let x_lo: i128 = if ccx - r < 0 { 0 } else { ccx - r };
    let x_hi: i128 = if ccx + r + 1 > wi { wi } else { ccx + r + 1 };
    let y_lo: i128 = if ccy - r < 0 { 0 } else { ccy - r };
    let y_hi: i128 = if ccy + r + 1 > hi { hi } else { ccy + r + 1 };
    if x_lo >= x_hi || y_lo >= y_hi {
        assert forall|j: int, i: int| 0 <= j < h && 0 <= i < w implies !in_disk(i, j, cx as int, cy as int, radius as int) by {
            if in_disk(i, j, cx as int, cy as int, radius as int) {
                lemma_disk_in_box(i, j, cx as int, cy as int, radius as int);
            }
        }
        assert(image@ =~~= disk_over(before, cx as int, cy as int, radius as int, color));
        return;
    }
    let xs: usize = x_lo as usize;
    let xe: usize = x_hi as usize;
    let ys: usize = y_lo as usize;
    let ye: usize = y_hi as usize;
    let mut y: usize = ys;
    while y < ye
        invariant
            image.wf(),
            image.spec_width() == w,
            image.spec_height() == h,
            before.len() == h,
            is_grid(before, w, h),
            xs < xe <= w,
            ys <= y <= ye <= h,
            xs == x_lo, xe == x_hi, ys == y_lo, ye == y_hi,
            r == radius, ccx == cx, ccy == cy, 0 <= r,
            x_lo >= ccx - r, x_hi <= ccx + r + 1,
            y_lo >= ccy - r, y_hi <= ccy + r + 1,
            forall|j: int, i: int| 0 <= j < h && 0 <= i < w ==> #[trigger] image@[j][i] == (
                if ys <= j < y && xs <= i < xe && in_disk(i, j, cx as int, cy as int, radius as int) {
                    color
                } else {
                    before[j][i]
                }),
        decreases ye - y,
    {
        let mut x: usize = xs;
        while x < xe
            invariant
                image.wf(),
                image.spec_width() == w,
                image.spec_height() == h,
                is_grid(before, w, h),
                xs <= x <= xe <= w,
                ys <= y < ye <= h,
                r == radius, ccx == cx, ccy == cy, 0 <= r,
                x_lo >= ccx - r, x_hi <= ccx + r + 1,
                y_lo >= ccy - r, y_hi <= ccy + r + 1,
                xs == x_lo, xe == x_hi, ys == y_lo, ye == y_hi,
                forall|j: int, i: int| 0 <= j < h && 0 <= i < w ==> #[trigger] image@[j][i] == (
                    if ((ys <= j < y && xs <= i < xe) || (j == y && xs <= i < x)) && in_disk(i, j, cx as int, cy as int, radius as int) {
                        color
                    } else {
                        before[j][i]
                    }),
            decreases xe - x,
        {
            let dx: i128 = ccx - x as i128;
            let dy: i128 = ccy - y as i128;
            proof {
                lemma_square_le(dx as int, r as int);
                lemma_square_le(dy as int, r as int);
                lemma_square_le(r as int, r as int);
                assert(r * r <= 0x3fff_ffff_ffff_ffff_0000_0000_0000_0001) by (nonlinear_arith)
                    requires
                        0 <= r <= 0x7fff_ffff_ffff_ffff,
                ;
                assert((x - cx) * (x - cx) == dx * dx) by (nonlinear_arith)
                    requires
                        dx == cx - x,
                ;
                assert((y - cy) * (y - cy) == dy * dy) by (nonlinear_arith)
                    requires
                        dy == cy - y,
                ;
            }
            if dx * dx + dy * dy <= r * r {
                image.set_pixel(x, y, color);
            }
            x = x + 1;
        }
        y = y + 1;
    }
    assert forall|j: int, i: int| 0 <= j < h && 0 <= i < w implies #[trigger] image@[j][i] == disk_over(before, cx as int, cy as int, radius as int, color)[j][i] by {
        if in_disk(i, j, cx as int, cy as int, radius as int) {
            lemma_disk_in_box(i, j, cx as int, cy as int, radius as int);
        }
    }
    assert(image@ =~~= disk_over(before, cx as int, cy as int, radius as int, color));
}

} // verus!
