use voronoi::config::{render_diagram, Config, BRIGHT_GREEN, BRIGHT_RED, COLOR_BACKGROUND, SEED_MARKER_COLOR};
use voronoi::geometry::{distance_squared, Point};
use voronoi::image::{fill_circle, fill_image, Image};
use voronoi::ppm::encode_ppm;
use voronoi::seeds::{generate_random_seeds, seed_from_draws};
use voronoi::voronoi::{render_seed_markers, render_voronoi};

const A: u32 = 0xFF0000AA;
const B: u32 = 0xFF00BB00;
const C: u32 = 0xFFCC0000;

fn pt(x: i64, y: i64) -> Point {
    Point { x, y }
}

fn all_cells(image: &Image) -> Vec<u32> {
    let mut out = Vec::new();
    for y in 0..image.height() {
        for x in 0..image.width() {
            out.push(image.pixel(x, y));
        }
    }
    out
}

#[test]
fn point_new_is_origin() {
    let p = Point::new();
    assert_eq!(p, pt(0, 0));
}

#[test]
fn distance_squared_is_exact() {
    assert_eq!(distance_squared(1, 2, 4, 6), 25);
    assert_eq!(distance_squared(4, 6, 1, 2), 25);
    assert_eq!(distance_squared(-3, 0, 0, 4), 25);
    assert_eq!(distance_squared(7, 7, 7, 7), 0);
}

#[test]
fn new_image_is_zero_filled() {
    let image = Image::new(3, 2);
    assert_eq!(image.width(), 3);
    assert_eq!(image.height(), 2);
    assert_eq!(all_cells(&image), vec![0u32; 6]);
}

#[test]
fn fill_image_sets_every_cell() {
    let mut image = Image::new(5, 4);
    image.set_pixel(2, 1, A);
    fill_image(&mut image, COLOR_BACKGROUND);
    assert_eq!(all_cells(&image), vec![COLOR_BACKGROUND; 20]);
}

#[test]
fn fill_circle_clips_at_corner() {
    let mut image = Image::new(10, 10);
    fill_circle(&mut image, 0, 0, 5, C);
    assert_eq!(image.pixel(0, 0), C);
    assert_eq!(image.pixel(5, 0), C);
    assert_eq!(image.pixel(0, 5), C);
    assert_eq!(image.pixel(3, 4), C);
    assert_eq!(image.pixel(4, 3), C);
    assert_eq!(image.pixel(4, 4), 0);
    assert_eq!(image.pixel(6, 0), 0);
    assert_eq!(image.pixel(0, 6), 0);
    let colored = all_cells(&image).iter().filter(|c| **c == C).count();
    // Cells of the quarter disk x, y >= 0 with x*x + y*y <= 25.
    assert_eq!(colored, 26);
}

#[test]
fn fill_circle_includes_boundary() {
    let mut image = Image::new(11, 11);
    fill_circle(&mut image, 5, 5, 2, C);
    assert_eq!(image.pixel(7, 5), C);
    assert_eq!(image.pixel(5, 3), C);
    assert_eq!(image.pixel(6, 6), C);
    assert_eq!(image.pixel(7, 6), 0);
    assert_eq!(image.pixel(8, 5), 0);
    let colored = all_cells(&image).iter().filter(|c| **c == C).count();
    assert_eq!(colored, 13);
}

#[test]
fn fill_circle_radius_zero_is_one_cell() {
    let mut image = Image::new(4, 4);
    fill_circle(&mut image, 2, 1, 0, C);
    assert_eq!(image.pixel(2, 1), C);
    assert_eq!(all_cells(&image).iter().filter(|c| **c == C).count(), 1);
}

#[test]
fn fill_circle_negative_radius_draws_nothing() {
    let mut image = Image::new(4, 4);
    fill_circle(&mut image, 2, 2, -1, C);
    assert_eq!(all_cells(&image), vec![0u32; 16]);
}

#[test]
fn fill_circle_off_the_image_draws_nothing() {
    let mut image = Image::new(6, 6);
    fill_circle(&mut image, -100, -100, 5, C);
    fill_circle(&mut image, 100, 3, 5, C);
    fill_circle(&mut image, i64::MIN, i64::MAX, i64::MAX, C);
    assert_eq!(image.pixel(0, 0), 0);
    assert_eq!(all_cells(&image).iter().filter(|c| **c == C).count(), 0);
}

#[test]
fn fill_circle_huge_radius_covers_image() {
    let mut image = Image::new(3, 3);
    fill_circle(&mut image, 1, 1, i64::MAX, C);
    assert_eq!(all_cells(&image), vec![C; 9]);
}

#[test]
fn voronoi_tie_goes_to_lower_index() {
    let mut image = Image::new(30, 20);
    let seeds = vec![pt(10, 10), pt(20, 10)];
    render_voronoi(&mut image, &seeds, &vec![A, B]);
    assert_eq!(image.pixel(15, 10), A);
    assert_eq!(image.pixel(14, 10), A);
    assert_eq!(image.pixel(16, 10), B);
    assert_eq!(image.pixel(15, 0), A);
}

#[test]
fn voronoi_tie_with_swapped_seeds() {
    let mut image = Image::new(30, 20);
    let seeds = vec![pt(20, 10), pt(10, 10)];
    render_voronoi(&mut image, &seeds, &vec![A, B]);
    assert_eq!(image.pixel(15, 10), A);
    assert_eq!(image.pixel(14, 10), B);
}

#[test]
fn voronoi_is_deterministic() {
    let seeds = vec![pt(1, 1), pt(7, 2), pt(3, 6), pt(5, 5)];
    let palette = vec![A, B, C];
    let mut first = Image::new(9, 8);
    let mut second = Image::new(9, 8);
    fill_image(&mut second, 0xDEADBEEF);
    render_voronoi(&mut first, &seeds, &palette);
    render_voronoi(&mut second, &seeds, &palette);
    assert_eq!(all_cells(&first), all_cells(&second));
}

#[test]
fn voronoi_palette_is_cyclic() {
    let mut image = Image::new(30, 1);
    let seeds = vec![pt(0, 0), pt(10, 0), pt(20, 0)];
    render_voronoi(&mut image, &seeds, &vec![A, B]);
    assert_eq!(image.pixel(0, 0), A);
    assert_eq!(image.pixel(10, 0), B);
    assert_eq!(image.pixel(29, 0), A);
}

#[test]
fn voronoi_covers_every_cell() {
    let mut image = Image::new(12, 9);
    fill_image(&mut image, COLOR_BACKGROUND);
    let seeds = vec![pt(2, 2), pt(9, 1), pt(5, 7)];
    let palette = vec![A, B, C];
    render_voronoi(&mut image, &seeds, &palette);
    for c in all_cells(&image) {
        assert!(palette.contains(&c));
        assert_ne!(c, COLOR_BACKGROUND);
    }
}

#[test]
fn voronoi_seed_outside_image() {
    let mut image = Image::new(4, 4);
    let seeds = vec![pt(-50, -50), pt(53, 53)];
    render_voronoi(&mut image, &seeds, &vec![A, B]);
    assert_eq!(image.pixel(0, 0), A);
    assert_eq!(image.pixel(3, 3), B);
}

#[test]
fn seed_markers_overlay_disks() {
    let mut image = Image::new(10, 10);
    fill_image(&mut image, A);
    render_seed_markers(&mut image, &vec![pt(1, 1), pt(8, 8)], 1, C);
    assert_eq!(image.pixel(1, 1), C);
    assert_eq!(image.pixel(2, 1), C);
    assert_eq!(image.pixel(2, 2), A);
    assert_eq!(image.pixel(8, 7), C);
    assert_eq!(image.pixel(5, 5), A);
    assert_eq!(all_cells(&image).iter().filter(|c| **c == C).count(), 10);
}

#[test]
fn single_seed_end_to_end() {
    let mut image = Image::new(4, 4);
    fill_image(&mut image, COLOR_BACKGROUND);
    render_voronoi(&mut image, &vec![pt(1, 1)], &vec![0xFF0000AA]);
    assert_eq!(all_cells(&image), vec![0xFF0000AAu32; 16]);
    let bytes = encode_ppm(&image);
    let mut expected: Vec<u8> = b"P6\n4 4 255\n".to_vec();
    for _ in 0..16 {
        expected.extend_from_slice(&[0xAA, 0x00, 0x00]);
    }
    assert_eq!(bytes.len(), 11 + 48);
    assert_eq!(bytes, expected);
}

#[test]
fn encode_round_trip() {
    let mut image = Image::new(3, 2);
    let colors: [u32; 6] = [0x00000000, 0x12345678, 0xFFFFFFFF, 0xAB010203, 0x00FF0000, 0x0000FF00];
    for y in 0..2 {
        for x in 0..3 {
            image.set_pixel(x, y, colors[y * 3 + x]);
        }
    }
    let bytes = encode_ppm(&image);
    let header = b"P6\n3 2 255\n";
    assert_eq!(&bytes[..header.len()], &header[..]);
    let body = &bytes[header.len()..];
    assert_eq!(body.len(), 18);
    for (i, c) in colors.iter().enumerate() {
        assert_eq!(body[3 * i], (c & 0xFF) as u8);
        assert_eq!(body[3 * i + 1], ((c >> 8) & 0xFF) as u8);
        assert_eq!(body[3 * i + 2], ((c >> 16) & 0xFF) as u8);
    }
    assert_eq!(&body[3..6], &[0x78, 0x56, 0x34]);
}

#[test]
fn encode_header_of_default_size() {
    let image = Image::new(800, 600);
    let bytes = encode_ppm(&image);
    assert_eq!(&bytes[..15], b"P6\n800 600 255\n");
    assert_eq!(bytes.len(), 15 + 800 * 600 * 3);
}

#[test]
fn encode_empty_image() {
    let image = Image::new(0, 0);
    assert_eq!(encode_ppm(&image), b"P6\n0 0 255\n".to_vec());
}

#[test]
fn seed_from_draws_reduces_modulo() {
    assert_eq!(seed_from_draws(1234567, 7654321, 800, 600), pt(167, 121));
    assert_eq!(seed_from_draws(0, 0, 800, 600), pt(0, 0));
    assert_eq!(seed_from_draws(9999999, 9999999, 800, 600), pt(799, 399));
}

#[test]
fn random_seeds_land_on_grid() {
    let mut seeds = vec![Point::new(); 10];
    generate_random_seeds(&mut seeds, 800, 600);
    assert_eq!(seeds.len(), 10);
    for s in &seeds {
        assert!(0 <= s.x && s.x < 800);
        assert!(0 <= s.y && s.y < 600);
    }
    let first = seeds[0];
    assert!(seeds.iter().any(|s| *s != first));
}

#[test]
fn default_config_values() {
    let config = Config::default();
    assert_eq!(config.width, 800);
    assert_eq!(config.height, 600);
    assert_eq!(config.seeds_count, 10);
    assert_eq!(config.marker_radius, 5);
    assert_eq!(config.marker_color, 0xFF181818);
    assert_eq!(config.background, 0xFF181818);
    assert_eq!(config.palette.len(), 7);
    assert_eq!(config.palette[0], BRIGHT_RED);
    assert_eq!(config.palette[6], 0xFF1980FE);
}

#[test]
fn render_diagram_draws_regions_and_markers() {
    let config = Config::default();
    let seeds = vec![pt(100, 100), pt(700, 500)];
    let image = render_diagram(&config, &seeds);
    assert_eq!(image.width(), 800);
    assert_eq!(image.height(), 600);
    assert_eq!(image.pixel(100, 100), SEED_MARKER_COLOR);
    assert_eq!(image.pixel(105, 100), SEED_MARKER_COLOR);
    assert_eq!(image.pixel(106, 100), BRIGHT_RED);
    assert_eq!(image.pixel(0, 0), BRIGHT_RED);
    assert_eq!(image.pixel(799, 599), BRIGHT_GREEN);
}

#[test]
fn distance_squared_far_from_origin() {
    assert_eq!(distance_squared(1 << 40, 0, 1 << 40, 0), 0);
    assert_eq!(distance_squared(1 << 30, 0, 0, 0), 1 << 60);
    assert_eq!(distance_squared(1 << 40, 3, (1 << 40) + 4, 0), 25);
}

#[test]
fn voronoi_seeds_on_the_coordinate_limit() {
    let mut image = Image::new(8, 6);
    let seeds = vec![pt(1 << 30, -(1 << 30)), pt(-(1 << 30), 1 << 30), pt(2, 3)];
    render_voronoi(&mut image, &seeds, &vec![A, B, C]);
    assert_eq!(all_cells(&image), vec![C; 48]);
    let mut far = Image::new(2, 2);
    render_voronoi(&mut far, &vec![pt(1 << 30, 0), pt(-(1 << 30), 0)], &vec![A, B]);
    assert_eq!(all_cells(&far), vec![A; 4]);
}
