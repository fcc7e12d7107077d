use std::cell::Cell;

use voronoi_image::color::Color;
use voronoi_image::engine::{Geometry, ImageError, VoronoiImage};
use voronoice::{BoundingBox, ClipBehavior, Point, Voronoi, VoronoiBuilder};

fn diagram(sites: &[(f64, f64)], width: f64, height: f64) -> Option<Voronoi> {
    VoronoiBuilder::default()
        .set_sites(sites.iter().map(|&(x, y)| Point { x, y }).collect())
        .set_clip_behavior(ClipBehavior::None)
        .set_bounding_box(BoundingBox::new(
            Point { x: width / 2.0, y: height / 2.0 },
            width,
            height,
        ))
        .build()
}

fn geometry(d: &Voronoi) -> Geometry {
    Geometry {
        site_count: d.sites().len(),
        width: d.bounding_box().width().round() as u32,
        height: d.bounding_box().height().round() as u32,
    }
}

fn classify(d: &Voronoi, x: f64, y: f64) -> usize {
    d.cell(0).iter_path(Point { x, y }).last().unwrap()
}

fn four_colors() -> Vec<Color> {
    vec![
        Color::opaque(255, 0, 0),
        Color::opaque(0, 255, 0),
        Color::opaque(0, 0, 255),
        Color::opaque(255, 255, 0),
    ]
}

const CORNERS: [(f64, f64); 4] = [(1.0, 1.0), (8.0, 1.0), (1.0, 8.0), (8.0, 8.0)];

#[test]
fn corner_sites_render_nearest_and_recolor_one_cell() {
    let d = diagram(&CORNERS, 10.0, 10.0).unwrap();
    let colors = four_colors();
    let mut img = VoronoiImage::new(Some(geometry(&d)), colors.clone()).unwrap();
    assert_eq!((img.width(), img.height(), img.site_count()), (10, 10, 4));
    let first = img.draw(|x, y| classify(&d, x as f64, y as f64)).unwrap();
    assert_eq!(first.len(), 100);
    for y in 0..10u32 {
        for x in 0..10u32 {
            let dist = |s: (f64, f64)| (s.0 - x as f64).powi(2) + (s.1 - y as f64).powi(2);
            let best = CORNERS.iter().map(|&s| dist(s)).fold(f64::INFINITY, f64::min);
            let cell = img.cached_cell(x, y).unwrap();
            assert_eq!(dist(CORNERS[cell]), best);
            assert_eq!(first[(y * 10 + x) as usize], colors[cell]);
        }
    }
    let fresh = Color::opaque(7, 7, 7);
    img.set_color(2, fresh);
    let second = img.draw(|_, _| panic!("the classification is kept")).unwrap();
    let mut changed = 0;
    for y in 0..10u32 {
        for x in 0..10u32 {
            let p = (y * 10 + x) as usize;
            if img.cached_cell(x, y) == Some(2) {
                assert_eq!(second[p], fresh);
                changed += 1;
            } else {
                assert_eq!(second[p], first[p]);
            }
        }
    }
    assert_eq!(changed, 25);
}

#[test]
fn five_sites_four_colors_is_cardinality_mismatch() {
    let sites = [(1.0, 1.0), (8.0, 1.0), (1.0, 8.0), (8.0, 8.0), (4.0, 5.0)];
    let d = diagram(&sites, 10.0, 10.0).unwrap();
    let r = VoronoiImage::new(Some(geometry(&d)), four_colors());
    assert_eq!(r.err(), Some(ImageError::CardinalityMismatch));
}

#[test]
fn build_succeeds_only_on_equal_counts() {
    for n in 0..6usize {
        for m in 0..6usize {
            let g = Geometry { site_count: n, width: 3, height: 2 };
            let colors = vec![Color::opaque(1, 2, 3); m];
            let r = VoronoiImage::new(Some(g), colors);
            if n == m {
                let img = r.unwrap();
                assert!(!img.is_cached());
                assert_eq!(img.site_count(), n);
            } else {
                assert_eq!(r.err(), Some(ImageError::CardinalityMismatch));
            }
        }
    }
}

#[test]
fn missing_diagram_is_geometry_failure() {
    let r = VoronoiImage::new(None, four_colors());
    assert_eq!(r.err(), Some(ImageError::GeometryBuildFailure));
}

#[test]
fn repeated_draws_agree_and_locate_once_per_pixel() {
    let g = Geometry { site_count: 3, width: 4, height: 3 };
    let colors = vec![Color::opaque(1, 0, 0), Color::opaque(0, 1, 0), Color::opaque(0, 0, 1)];
    let mut img = VoronoiImage::new(Some(g), colors.clone()).unwrap();
    let calls = Cell::new(0usize);
    let locate = |x: u32, y: u32| {
        calls.set(calls.get() + 1);
        ((x + y) % 3) as usize
    };
    let a = img.draw(locate).unwrap();
    assert_eq!(calls.get(), 12);
    let b = img.draw(locate).unwrap();
    let c = img.draw(locate).unwrap();
    assert_eq!(calls.get(), 12);
    assert_eq!(a, b);
    assert_eq!(b, c);
    assert_eq!(a[4 * 2 + 3], colors[(3 + 2) % 3]);
    assert_eq!(img.cached_cell(3, 2), Some(2));
    assert_eq!(img.cached_cell(4, 0), None);
}

#[test]
fn out_of_range_cell_fails_without_caching() {
    let g = Geometry { site_count: 2, width: 2, height: 2 };
    let mut img = VoronoiImage::new(Some(g), vec![Color::opaque(1, 1, 1); 2]).unwrap();
    let r = img.draw(|x, y| if x == 1 && y == 1 { 2 } else { 0 });
    assert_eq!(r.err(), Some(ImageError::IndexOutOfRange));
    assert!(!img.is_cached());
    assert_eq!(img.cached_cell(0, 0), None);
    let ok = img.draw(|_, _| 1).unwrap();
    assert_eq!(ok, vec![Color::opaque(1, 1, 1); 4]);
    assert!(img.is_cached());
}

#[test]
fn empty_image_draws_empty_buffer() {
    let g = Geometry { site_count: 1, width: 0, height: 5 };
    let mut img = VoronoiImage::new(Some(g), vec![Color::opaque(1, 1, 1)]).unwrap();
    assert_eq!(img.draw(|_, _| 0).unwrap(), Vec::<Color>::new());
    assert!(img.is_cached());
}

#[test]
fn set_color_changes_only_that_cell() {
    let g = Geometry { site_count: 2, width: 2, height: 1 };
    let mut img = VoronoiImage::new(Some(g), vec![Color::opaque(1, 1, 1); 2]).unwrap();
    img.draw(|x, _| x as usize).unwrap();
    img.set_color(1, Color::opaque(9, 9, 9));
    assert_eq!(img.color(0), Color::opaque(1, 1, 1));
    assert_eq!(img.color(1), Color::opaque(9, 9, 9));
    assert_eq!(
        img.draw(|_, _| 0).unwrap(),
        vec![Color::opaque(1, 1, 1), Color::opaque(9, 9, 9)]
    );
}

#[test]
fn toggle_switches_between_idle_and_marked() {
    let g = Geometry { site_count: 2, width: 1, height: 1 };
    let mut img = VoronoiImage::new(Some(g), vec![voronoi_image::color::idle(), Color::opaque(0, 0, 0)]).unwrap();
    img.toggle_color(0);
    assert_eq!(img.color(0), voronoi_image::color::marked());
    img.toggle_color(0);
    assert_eq!(img.color(0), voronoi_image::color::idle());
    img.toggle_color(1);
    assert_eq!(img.color(1), voronoi_image::color::idle());
}

#[test]
fn classification_is_total_on_the_grid() {
    let sites = [(1.0, 2.0), (7.0, 1.0), (3.0, 8.0), (8.0, 7.0), (5.0, 5.0)];
    let d = diagram(&sites, 10.0, 10.0).unwrap();
    for y in 0..10u32 {
        for x in 0..10u32 {
            assert!(classify(&d, x as f64, y as f64) < 5);
        }
    }
}

#[test]
fn classification_is_deterministic() {
    let sites = [(1.0, 2.0), (7.0, 1.0), (3.0, 8.0), (8.0, 7.0), (5.0, 5.0)];
    let d = diagram(&sites, 10.0, 10.0).unwrap();
    for &(x, y) in &[(0.0, 0.0), (4.5, 6.25), (9.0, 9.0), (5.0, 5.0)] {
        assert_eq!(classify(&d, x, y), classify(&d, x, y));
    }
}
