use vstd::prelude::*;
use crate::geometry::{distance_squared, lemma_cell_distance_fits, point_ok, sq_dist, COORD_LIMIT, Point};
use crate::image::{fill_circle, in_disk, disk_over, is_grid, Image};

verus! {

/// Squared distance from seed `i` to the cell `(x, y)`.
pub open spec fn seed_dist(seeds: Seq<Point>, i: int, x: int, y: int) -> int {
    sq_dist(seeds[i].x as int, seeds[i].y as int, x, y)
}

/// Among the first `n` seeds, `j` is at least as close to `(x, y)` as any
/// other, and strictly closer than every seed before it.
pub open spec fn nearest_among(seeds: Seq<Point>, n: int, x: int, y: int, j: int) -> bool {
    &&& 0 <= j < n
    &&& forall|i: int| 0 <= i < n ==> seed_dist(seeds, j, x, y) <= #[trigger] seed_dist(seeds, i, x, y)
    &&& forall|i: int| 0 <= i < j ==> seed_dist(seeds, j, x, y) < #[trigger] seed_dist(seeds, i, x, y)
}

/// The index of the seed that owns the cell `(x, y)`: the lowest index among
/// the seeds at the least squared distance.
pub open spec fn nearest_seed(seeds: Seq<Point>, x: int, y: int) -> int {
    choose|j: int| #[trigger] nearest_among(seeds, seeds.len() as int, x, y, j)
}

/// Every seed lies in the range the distance arithmetic supports.
pub open spec fn seeds_ok(seeds: Seq<Point>) -> bool {
    forall|i: int| 0 <= i < seeds.len() ==> point_ok(#[trigger] seeds[i])
}

/// The color of the cell `(x, y)` once classified: the palette entry of its
/// owning seed, the palette taken cyclically.
pub open spec fn region_color(seeds: Seq<Point>, palette: Seq<u32>, x: int, y: int) -> u32 {
    palette[nearest_seed(seeds, x, y) % (palette.len() as int)]
}

/// The classified grid of `w` by `h` cells.
pub open spec fn voronoi_grid(w: nat, h: nat, seeds: Seq<Point>, palette: Seq<u32>) -> Seq<Seq<u32>> {
    Seq::new(h, |y: int| Seq::new(w, |x: int| region_color(seeds, palette, x, y)))
}

/// Whether the cell `(x, y)` lies on the marker disk of some seed.
pub open spec fn marked(seeds: Seq<Point>, r: int, x: int, y: int) -> bool {
    exists|i: int| 0 <= i < seeds.len() && #[trigger] in_disk(x, y, seeds[i].x as int, seeds[i].y as int, r)
}

/// `grid` with every cell on a seed's marker disk set to `color`.
pub open spec fn markers_over(grid: Seq<Seq<u32>>, seeds: Seq<Point>, r: int, color: u32) -> Seq<Seq<u32>> {
    Seq::new(grid.len(), |y: int| Seq::new(grid[y].len(), |x: int|
        if marked(seeds, r, x, y) { color } else { grid[y][x] }))
}

proof fn lemma_nearest_step(seeds: Seq<Point>, n: int, x: int, y: int, j: int)
    requires
        nearest_among(seeds, n, x, y, j),
    ensures
        nearest_among(seeds, n + 1, x, y,
            if seed_dist(seeds, n, x, y) < seed_dist(seeds, j, x, y) { n } else { j }),
{
}

proof fn lemma_nearest_unique(seeds: Seq<Point>, n: int, x: int, y: int, j1: int, j2: int)
    requires
        nearest_among(seeds, n, x, y, j1),
        nearest_among(seeds, n, x, y, j2),
    ensures
        j1 == j2,
{
    if j1 < j2 {
        assert(seed_dist(seeds, j2, x, y) < seed_dist(seeds, j1, x, y));
    } else if j2 < j1 {
        assert(seed_dist(seeds, j1, x, y) < seed_dist(seeds, j2, x, y));
    }
}

proof fn lemma_nearest_prefix_exists(seeds: Seq<Point>, n: int, x: int, y: int)
    requires
        1 <= n,
    ensures
        exists|j: int| #[trigger] nearest_among(seeds, n, x, y, j),
    decreases n,
{
    if n == 1 {
        assert(nearest_among(seeds, 1, x, y, 0));
    } else {
        lemma_nearest_prefix_exists(seeds, n - 1, x, y);
        let j = choose|j: int| #[trigger] nearest_among(seeds, n - 1, x, y, j);
        lemma_nearest_step(seeds, n - 1, x, y, j);
    }
}

/// The owning seed of a cell exists, once there is a seed, and is the only
/// index with the nearest-seed property.
pub proof fn lemma_nearest_seed(seeds: Seq<Point>, x: int, y: int)
    requires
        seeds.len() > 0,
    ensures
        nearest_among(seeds, seeds.len() as int, x, y, nearest_seed(seeds, x, y)),
        forall|j: int| #[trigger] nearest_among(seeds, seeds.len() as int, x, y, j) ==> j == nearest_seed(seeds, x, y),
{
    lemma_nearest_prefix_exists(seeds, seeds.len() as int, x, y);
    assert forall|j: int| nearest_among(seeds, seeds.len() as int, x, y, j) implies j == nearest_seed(seeds, x, y) by {
        lemma_nearest_unique(seeds, seeds.len() as int, x, y, j, nearest_seed(seeds, x, y));
    }
}

/// The index of the seed nearest to `(x, y)`, ties going to the lowest index.
fn nearest_index(seeds: &Vec<Point>, x: i64, y: i64) -> (j: usize)
    requires
        seeds@.len() > 0,
        seeds_ok(seeds@),
        0 <= x < COORD_LIMIT,
        0 <= y < COORD_LIMIT,
    ensures
        j as int == nearest_seed(seeds@, x as int, y as int),
{
    let mut j: usize = 0;
    let mut idx: usize = 1;
    while idx < seeds.len()
        invariant
            1 <= idx <= seeds@.len(),
            seeds_ok(seeds@),
            0 <= x < COORD_LIMIT,
            0 <= y < COORD_LIMIT,
            nearest_among(seeds@, idx as int, x as int, y as int, j as int),
        decreases seeds@.len() - idx,
    {
        proof {
            lemma_nearest_step(seeds@, idx as int, x as int, y as int, j as int);
            assert(point_ok(seeds@[idx as int]));
            assert(point_ok(seeds@[j as int]));
            lemma_cell_distance_fits(seeds@[idx as int].x as int, seeds@[idx as int].y as int, x as int, y as int);
            lemma_cell_distance_fits(seeds@[j as int].x as int, seeds@[j as int].y as int, x as int, y as int);
        }
        let seed = seeds[idx];
        let best = seeds[j];
        if distance_squared(seed.x, seed.y, x, y) < distance_squared(best.x, best.y, x, y) {
            j = idx;
        }
        idx = idx + 1;
    }
    proof {
        lemma_nearest_seed(seeds@, x as int, y as int);
    }
    j
}

/// Colors every cell of the image with the palette entry of the seed nearest
/// to it (by squared distance, ties to the lowest index), the palette taken
/// cyclically by seed index.
pub fn render_voronoi(image: &mut Image, seeds: &Vec<Point>, palette: &Vec<u32>)
    requires
        old(image).wf(),
        seeds@.len() > 0,
        palette@.len() > 0,
        seeds_ok(seeds@),
    ensures
        final(image).wf(),
        final(image).spec_width() == old(image).spec_width(),
        final(image).spec_height() == old(image).spec_height(),
        final(image)@ == voronoi_grid(old(image).spec_width(), old(image).spec_height(), seeds@, palette@),
        forall|x: int, y: int| 0 <= x < final(image).spec_width() && 0 <= y < final(image).spec_height()
            ==> palette@.contains(#[trigger] final(image)@[y][x]),
{
    let ghost before = image@;
    let ghost w = image.spec_width();
    let ghost h = image.spec_height();
    let width: usize = image.width();
    let height: usize = image.height();
    let mut y: usize = 0;
    while y < height
        invariant
            image.wf(),
            image.spec_width() == w == width,
            image.spec_height() == h == height,
            y <= height,
            seeds@.len() > 0,
            palette@.len() > 0,
            seeds_ok(seeds@),
            forall|j: int, i: int| 0 <= j < h && 0 <= i < w ==> #[trigger] image@[j][i] == (
                if j < y { region_color(seeds@, palette@, i, j) } else { before[j][i] }),
        decreases height - y,
    {
        let mut x: usize = 0;
        while x < width
            invariant
                image.wf(),
                image.spec_width() == w == width,
                image.spec_height() == h == height,
                y < height,
                x <= width,
                seeds@.len() > 0,
                palette@.len() > 0,
                seeds_ok(seeds@),
                forall|j: int, i: int| 0 <= j < h && 0 <= i < w ==> #[trigger] image@[j][i] == (
                    if j < y || (j == y && i < x) { region_color(seeds@, palette@, i, j) } else { before[j][i] }),
            decreases width - x,
        {
            let j: usize = nearest_index(seeds, x as i64, y as i64);
            let color: u32 = palette[j % palette.len()];
            image.set_pixel(x, y, color);
            x = x + 1;
        }
        y = y + 1;
    }
    assert(image@ =~~= voronoi_grid(w, h, seeds@, palette@));
    assert forall|x: int, y: int| 0 <= x < w && 0 <= y < h
        implies palette@.contains(#[trigger] image@[y][x]) by {
        let k = nearest_seed(seeds@, x, y) % (palette@.len() as int);
        assert(image@[y][x] == palette@[k]);
    }
}

proof fn lemma_markers_step(grid: Seq<Seq<u32>>, seeds: Seq<Point>, k: int, r: int, color: u32)
    requires
        0 <= k < seeds.len(),
    ensures
        disk_over(markers_over(grid, seeds.take(k), r, color), seeds[k].x as int, seeds[k].y as int, r, color)
            =~~= markers_over(grid, seeds.take(k + 1), r, color),
{
    let a = seeds.take(k);
    let b = seeds.take(k + 1);
    assert forall|y: int, x: int| 0 <= y < grid.len() && 0 <= x < grid[y].len()
        implies marked(b, r, x, y) == (marked(a, r, x, y) || in_disk(x, y, seeds[k].x as int, seeds[k].y as int, r)) by {
        if marked(a, r, x, y) {
            let i = choose|i: int| 0 <= i < a.len() && #[trigger] in_disk(x, y, a[i].x as int, a[i].y as int, r);
            assert(b[i] == a[i]);
        }
        if marked(b, r, x, y) {
            let i = choose|i: int| 0 <= i < b.len() && #[trigger] in_disk(x, y, b[i].x as int, b[i].y as int, r);
            if i < k {
                assert(a[i] == b[i]);
            }
        }
        if in_disk(x, y, seeds[k].x as int, seeds[k].y as int, r) {
            assert(b[k] == seeds[k]);
        }
    }
}

/// Draws on the image, seed by seed, a disk of radius `radius` in `color`
/// around each seed.
pub fn render_seed_markers(image: &mut Image, seeds: &Vec<Point>, radius: i64, color: u32)
    requires
        old(image).wf(),
    ensures
        final(image).wf(),
        final(image).spec_width() == old(image).spec_width(),
        final(image).spec_height() == old(image).spec_height(),
        final(image)@ == markers_over(old(image)@, seeds@, radius as int, color),
{
    let ghost before = image@;
    let mut k: usize = 0;
    assert(markers_over(before, seeds@.take(0), radius as int, color) =~~= before);
    while k < seeds.len()
        invariant
            image.wf(),
            image.spec_width() == old(image).spec_width(),
            image.spec_height() == old(image).spec_height(),
            k <= seeds@.len(),
            image@ == markers_over(before, seeds@.take(k as int), radius as int, color),
        decreases seeds@.len() - k,
    {
        let seed = seeds[k];
        fill_circle(image, seed.x, seed.y, radius, color);
        proof {
            lemma_markers_step(before, seeds@, k as int, radius as int, color);
        }
        k = k + 1;
    }
    assert(seeds@.take(k as int) =~= seeds@);
}

/// Classification depends on nothing but the grid's dimensions, the seeds and
/// the palette: two images classified from the same seeds and palette, with
/// the same dimensions, are equal cell for cell.
pub proof fn lemma_classification_deterministic(
    w: nat,
    h: nat,
    seeds: Seq<Point>,
    palette: Seq<u32>,
    first: Seq<Seq<u32>>,
    second: Seq<Seq<u32>>,
)
    requires
        first == voronoi_grid(w, h, seeds, palette),
        second == voronoi_grid(w, h, seeds, palette),
    ensures
        first == second,
        forall|x: int, y: int| 0 <= x < w && 0 <= y < h ==> #[trigger] first[y][x] == second[y][x],
{
}

/// With at least one seed, every cell of a classified grid holds a palette
/// color, so none keeps a background color that the palette lacks.
pub proof fn lemma_full_coverage(w: nat, h: nat, seeds: Seq<Point>, palette: Seq<u32>, background: u32)
    requires
        seeds.len() > 0,
        palette.len() > 0,
        !palette.contains(background),
    ensures
        is_grid(voronoi_grid(w, h, seeds, palette), w, h),
        forall|x: int, y: int| 0 <= x < w && 0 <= y < h ==> {
            &&& palette.contains(#[trigger] voronoi_grid(w, h, seeds, palette)[y][x])
            &&& voronoi_grid(w, h, seeds, palette)[y][x] != background
        },
{
    assert forall|x: int, y: int| 0 <= x < w && 0 <= y < h implies {
        &&& palette.contains(#[trigger] voronoi_grid(w, h, seeds, palette)[y][x])
        &&& voronoi_grid(w, h, seeds, palette)[y][x] != background
    } by {
        lemma_nearest_seed(seeds, x, y);
        let k = nearest_seed(seeds, x, y) % (palette.len() as int);
        assert(voronoi_grid(w, h, seeds, palette)[y][x] == palette[k]);
    }
}

/// A cell equidistant from seeds `i < j` never goes to seed `j`; it goes to
/// seed `i` when no seed is nearer.
pub proof fn lemma_tie_break(seeds: Seq<Point>, x: int, y: int, i: int, j: int)
    requires
        0 <= i < j < seeds.len(),
        seed_dist(seeds, i, x, y) == seed_dist(seeds, j, x, y),
    ensures
        nearest_seed(seeds, x, y) != j,
        (forall|k: int| 0 <= k < seeds.len() ==> seed_dist(seeds, i, x, y) <= #[trigger] seed_dist(seeds, k, x, y))
            ==> nearest_seed(seeds, x, y) <= i,
{
    lemma_nearest_seed(seeds, x, y);
    let n = nearest_seed(seeds, x, y);
    if n > i && (forall|k: int| 0 <= k < seeds.len() ==> seed_dist(seeds, i, x, y) <= #[trigger] seed_dist(seeds, k, x, y)) {
        assert(seed_dist(seeds, n, x, y) < seed_dist(seeds, i, x, y));
    }
    if n == j {
        assert(seed_dist(seeds, n, x, y) < seed_dist(seeds, i, x, y));
    }
}

} // verus!
