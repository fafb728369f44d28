use vstd::prelude::*;
use crate::geometry::{COORD_LIMIT, Point};
use crate::image::{fill_image, Image};
use crate::voronoi::{markers_over, render_seed_markers, render_voronoi, seeds_ok, voronoi_grid};

verus! {

pub const BRIGHT_RED: u32 = 0xFF3449FB;
pub const BRIGHT_GREEN: u32 = 0xFF26BBB8;
pub const BRIGHT_YELLOW: u32 = 0xFF2FBDFA;
pub const BRIGHT_BLUE: u32 = 0xFF98A583;
pub const BRIGHT_PURPLE: u32 = 0xFF9B86D3;
pub const BRIGHT_AQUA: u32 = 0xFF7CC08E;
pub const BRIGHT_ORANGE: u32 = 0xFF1980FE;

pub const COLOR_BACKGROUND: u32 = 0xFF181818;
pub const SEED_MARKER_COLOR: u32 = 0xFF181818;
pub const SEED_MARKER_RADIUS: i64 = 5;
pub const SEEDS_COUNT: usize = 10;
pub const WIDTH: usize = 800;
pub const HEIGHT: usize = 600;

/// The parameters of one diagram.
pub struct Config {
    pub width: usize,
    pub height: usize,
    pub seeds_count: usize,
    pub marker_radius: i64,
    pub marker_color: u32,
    pub background: u32,
    pub palette: Vec<u32>,
}

impl Config {
    /// The dimensions fit the image's limits, there is at least one seed and
    /// the palette is not empty.
    pub open spec fn wf(&self) -> bool {
        &&& self.width <= COORD_LIMIT
        &&& self.height <= COORD_LIMIT
        &&& self.seeds_count > 0
        &&& self.palette@.len() > 0
    }
}

/// The seven palette colors, in the order seeds take them.
pub open spec fn default_palette() -> Seq<u32> {
    seq![BRIGHT_RED, BRIGHT_GREEN, BRIGHT_YELLOW, BRIGHT_BLUE, BRIGHT_PURPLE, BRIGHT_AQUA, BRIGHT_ORANGE]
}

impl Default for Config {
    /// An 800 by 600 image with ten seeds, markers of radius 5 and the
    /// seven-color palette.
    fn default() -> (c: Config)
        ensures
            c.wf(),
            c.width == WIDTH,
            c.height == HEIGHT,
            c.seeds_count == SEEDS_COUNT,
            c.marker_radius == SEED_MARKER_RADIUS,
            c.marker_color == SEED_MARKER_COLOR,
            c.background == COLOR_BACKGROUND,
            c.palette@ == default_palette(),
    {
        let palette: Vec<u32> = vec![
            BRIGHT_RED,
            BRIGHT_GREEN,
            BRIGHT_YELLOW,
            BRIGHT_BLUE,
            BRIGHT_PURPLE,
            BRIGHT_AQUA,
            BRIGHT_ORANGE,
        ];
        assert(palette@ =~= default_palette());
        Config {
            width: WIDTH,
            height: HEIGHT,
            seeds_count: SEEDS_COUNT,
            marker_radius: SEED_MARKER_RADIUS,
            marker_color: SEED_MARKER_COLOR,
            background: COLOR_BACKGROUND,
            palette,
        }
    }
}

/// The diagram of the given seeds: the background fill, then every cell
/// colored by its nearest seed, then a marker disk drawn around each seed.
pub fn render_diagram(config: &Config, seeds: &Vec<Point>) -> (image: Image)
    requires
        config.wf(),
        seeds@.len() > 0,
        seeds_ok(seeds@),
    ensures
        image.wf(),
        image.spec_width() == config.width,
        image.spec_height() == config.height,
        image@ == markers_over(
            voronoi_grid(config.width as nat, config.height as nat, seeds@, config.palette@),
            seeds@,
            config.marker_radius as int,
            config.marker_color,
        ),
{
    let mut image = Image::new(config.width, config.height);
    fill_image(&mut image, config.background);
    render_voronoi(&mut image, seeds, &config.palette);
    render_seed_markers(&mut image, seeds, config.marker_radius, config.marker_color);
    image
}

} // verus!
