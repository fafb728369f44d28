use vstd::prelude::*;
use crate::geometry::{COORD_LIMIT, Point};

verus! {

/// Each coordinate is reduced from a draw of `0..DRAW_BOUND`.
pub const DRAW_BOUND: i64 = 10000000;

#[verifier::external_type_specification]
#[verifier::external_body]
pub struct ExThreadRng(rand::rngs::ThreadRng);

/// Relies on rand::thread_rng: a handle to the thread-local generator, seeded
/// by the system (it panics only where the system gives no entropy).
#[verifier::external_body]
fn system_rng() -> rand::rngs::ThreadRng {
    rand::thread_rng()
}

/// Relies on rand::Rng::gen_range: a value of `low..high`, which must not be
/// empty (it panics on an empty range).
#[verifier::external_body]
fn draw_in_range(rng: &mut rand::rngs::ThreadRng, low: i64, high: i64) -> (r: i64)
    requires
        low < high,
    ensures
        low <= r < high,
{
    rand::Rng::gen_range(rng, low..high)
}

proof fn lemma_mod_bound(a: int, m: int)
    requires
        0 <= a,
        0 < m,
    ensures
        a % m <= a,
{
    assert(a % m <= a) by (nonlinear_arith)
        requires
            0 <= a,
            0 < m,
    ;
}

/// Whether a point lies on the grid of `width` columns and `height` rows.
pub open spec fn on_grid(p: Point, width: nat, height: nat) -> bool {
    0 <= p.x < width && 0 <= p.y < height
}

/// The seed placed from two non-negative draws: each reduced modulo the
/// matching image dimension.
pub fn seed_from_draws(draw_x: i64, draw_y: i64, width: usize, height: usize) -> (p: Point)
    requires
        0 <= draw_x,
        0 <= draw_y,
        0 < width <= COORD_LIMIT,
        0 < height <= COORD_LIMIT,
    ensures
        p.x == draw_x % (width as i64),
        p.y == draw_y % (height as i64),
        on_grid(p, width as nat, height as nat),
{
    Point { x: draw_x % (width as i64), y: draw_y % (height as i64) }
}

/// Places every seed at random on the grid of `width` columns and `height`
/// rows, keeping the number of seeds.
pub fn generate_random_seeds(seeds: &mut Vec<Point>, width: usize, height: usize)
    requires
        0 < width <= COORD_LIMIT,
        0 < height <= COORD_LIMIT,
    ensures
        final(seeds)@.len() == old(seeds)@.len(),
        forall|i: int| 0 <= i < final(seeds)@.len() ==> on_grid(#[trigger] final(seeds)@[i], width as nat, height as nat),
        forall|i: int| 0 <= i < final(seeds)@.len() ==> (#[trigger] final(seeds)@[i]).x < DRAW_BOUND
            && final(seeds)@[i].y < DRAW_BOUND,
{
    let mut rng = system_rng();
    let mut i: usize = 0;
    while i < seeds.len()
        invariant
            0 < width <= COORD_LIMIT,
            0 < height <= COORD_LIMIT,
            i <= seeds@.len(),
            seeds@.len() == old(seeds)@.len(),
            forall|k: int| 0 <= k < i ==> on_grid(#[trigger] seeds@[k], width as nat, height as nat),
            forall|k: int| 0 <= k < i ==> (#[trigger] seeds@[k]).x < DRAW_BOUND && seeds@[k].y < DRAW_BOUND,
        decreases seeds@.len() - i,
    {
        let draw_x: i64 = draw_in_range(&mut rng, 0, DRAW_BOUND);
        let draw_y: i64 = draw_in_range(&mut rng, 0, DRAW_BOUND);
        let seed = seed_from_draws(draw_x, draw_y, width, height);
        proof {
            lemma_mod_bound(draw_x as int, width as int);
            lemma_mod_bound(draw_y as int, height as int);
        }
        seeds[i] = seed;
        i = i + 1;
    }
}

} // verus!
