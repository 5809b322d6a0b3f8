use heatmap::composite::Canvas;
use heatmap::composite::Color;
use heatmap::composite::overlay_image;
use heatmap::geo::min_max;
use heatmap::geo::push_track;
use heatmap::model::MapInfo;
use heatmap::model::Point;
use heatmap::model::TrkPt;
use heatmap::render::build_intensity;

fn pt(lat: i64, lng: i64, time: Option<i64>) -> TrkPt {
    TrkPt { center: Point { lat, lng }, time }
}

/// A projection under which a whole nanodegree-millionth is one pixel:
/// pixel x = lng / 1_000_000, pixel y = lat / 1_000_000.
fn unit_info() -> MapInfo {
    MapInfo {
        center: Point { lat: 0, lng: 0 },
        min: Point { lat: 0, lng: 0 },
        scale: Point { lat: 1_000_000_000, lng: 1_000_000_000 },
    }
}

/// A lat/lng that lands on pixel `(x, y)` under `unit_info`.
fn at(x: i64, y: i64, time: Option<i64>) -> TrkPt {
    pt(y * 1_000_000, x * 1_000_000, time)
}

#[test]
fn min_max_test() {
    let (min, max) = min_max(&vec![vec![
        pt(30_243_014_0 * 100, -97_810_027_0 * 100, None),
        pt(30_242_995_0 * 100, -97_810_016_0 * 100, None),
        pt(30_242_863_0 * 100, -97_810_155_0 * 100, None),
        pt(30_242_847_0 * 100, -97_810_219_0 * 100, None),
        pt(30_242_831_0 * 100, -97_810_283_0 * 100, None),
        pt(30_242_767_0 * 100, -97_810_524_0 * 100, None),
        pt(30_242_750_0 * 100, -97_810_573_0 * 100, None),
        pt(30_242_733_0 * 100, -97_810_613_0 * 100, None),
    ]]);
    assert_eq!(min.lat, 30_242_733_000);
    assert_eq!(min.lng, -97_810_613_000);
    assert_eq!(max.lat, 30_243_014_000);
    assert_eq!(max.lng, -97_810_016_000);
}

#[test]
fn min_max_independent_axes() {
    // The two corners need not be positions that occur in the input.
    let (min, max) = min_max(&vec![vec![
        pt(35_000_000_000, 77_000_000_000, None),
        pt(33_000_000_000, 78_000_000_000, None),
    ]]);
    assert_eq!((min.lat, min.lng), (33_000_000_000, 77_000_000_000));
    assert_eq!((max.lat, max.lng), (35_000_000_000, 78_000_000_000));
}

#[test]
fn min_max_single_point_box() {
    // The bounding box of a single-point set is that point, twice.
    let p = pt(12_345_000_000, -6_789_000_000, None);
    let (min, max) = min_max(&vec![vec![p]]);
    assert_eq!(min, p.center);
    assert_eq!(max, p.center);
}

#[test]
fn push_track_skips_empty() {
    let mut set: Vec<Vec<TrkPt>> = Vec::new();
    push_track(&mut set, vec![]);
    assert_eq!(set.len(), 0);
    push_track(&mut set, vec![at(3, 3, None)]);
    assert_eq!(set.len(), 1);
    push_track(&mut set, vec![]);
    assert_eq!(set.len(), 1);
}

#[test]
fn isolated_point_marks_only_its_pixel() {
    let info = unit_info();
    let tracks = vec![vec![at(5, 3, None)]];
    let field = build_intensity(&info, &tracks, 20, 20);
    let mut total: u64 = 0;
    for y in 0..20usize {
        for x in 0..20usize {
            total += field.count_at(x, y);
        }
    }
    assert_eq!(field.count_at(5, 3), 1);
    assert_eq!(total, 1);
}

#[test]
fn close_samples_draw_a_contiguous_line() {
    // Two samples one second apart, five pixels apart on x: the run of
    // incremented pixels connecting them is contiguous and at least five
    // pixels long.
    let info = unit_info();
    let tracks = vec![vec![at(2, 4, Some(100)), at(7, 4, Some(101))]];
    let field = build_intensity(&info, &tracks, 20, 20);
    let mut run: u64 = 0;
    for x in 2..8usize {
        assert_eq!(field.count_at(x, 4), 1);
        run += 1;
    }
    assert!(run >= 5);
    let mut total: u64 = 0;
    for y in 0..20usize {
        for x in 0..20usize {
            total += field.count_at(x, y);
        }
    }
    assert_eq!(total, 6);
}

#[test]
fn distant_samples_draw_no_line() {
    // One hour apart: only the two endpoint pixels are incremented.
    let info = unit_info();
    let tracks = vec![vec![at(2, 4, Some(1000)), at(7, 4, Some(4600))]];
    let field = build_intensity(&info, &tracks, 20, 20);
    assert_eq!(field.count_at(2, 4), 1);
    assert_eq!(field.count_at(7, 4), 1);
    let mut total: u64 = 0;
    for y in 0..20usize {
        for x in 0..20usize {
            total += field.count_at(x, y);
        }
    }
    assert_eq!(total, 2);
}

#[test]
fn untimed_samples_draw_no_line() {
    let info = unit_info();
    let tracks = vec![vec![at(2, 4, None), at(7, 4, None)]];
    let field = build_intensity(&info, &tracks, 20, 20);
    let mut total: u64 = 0;
    for y in 0..20usize {
        for x in 0..20usize {
            total += field.count_at(x, y);
        }
    }
    assert_eq!(total, 2);
}

#[test]
fn repeated_pixel_counts_once_per_sample() {
    // A stationary stretch increments its pixel once per sample and never
    // redraws a line onto it.
    let info = unit_info();
    let tracks = vec![vec![
        at(5, 5, Some(10)),
        at(5, 5, Some(11)),
        at(5, 5, Some(12)),
    ]];
    let field = build_intensity(&info, &tracks, 20, 20);
    assert_eq!(field.count_at(5, 5), 3);
}

#[test]
fn steep_line_steps_along_y() {
    let info = unit_info();
    let tracks = vec![vec![at(4, 2, Some(0)), at(5, 8, Some(2))]];
    let field = build_intensity(&info, &tracks, 20, 20);
    // One increment per traversed row between the endpoints.
    let mut total: u64 = 0;
    for y in 0..20usize {
        for x in 0..20usize {
            total += field.count_at(x, y);
        }
    }
    assert_eq!(total, 7);
    for y in 2..9usize {
        let hits = field.count_at(4, y) + field.count_at(5, y);
        assert_eq!(hits, 1);
    }
}

#[test]
fn border_samples_are_discarded() {
    let info = unit_info();
    // Pixels 0 and 19 lie on the border of a 20x20 canvas; both are dropped.
    let tracks = vec![vec![at(0, 5, None), at(19, 5, None), at(25, 5, None)]];
    let field = build_intensity(&info, &tracks, 20, 20);
    let mut total: u64 = 0;
    for y in 0..20usize {
        for x in 0..20usize {
            total += field.count_at(x, y);
        }
    }
    assert_eq!(total, 0);
}

fn gray_canvas(w: usize, h: usize) -> Canvas {
    Canvas::new(w, h, vec![100u8; 3 * w * h]).unwrap()
}

#[test]
fn sparse_overlay_renders_at_the_floor_opacity() {
    // No pixel is visited twice, so every visited pixel gets the minimum
    // opacity: 250 thousandths of green over gray.
    let info = unit_info();
    let tracks = vec![vec![at(5, 3, None)]];
    let canvas = gray_canvas(20, 20);
    let color = Color { r: 0, g: 255, b: 0 };
    let out = overlay_image(canvas, &info, &tracks, color, 1000, 250);
    assert_eq!(out.get_pixel(5, 3), (75, 139, 75));
    assert_eq!(out.get_pixel(6, 3), (100, 100, 100));
}

#[test]
fn dense_pixel_saturates_to_full_color() {
    // The pixel visited three times is itself the 75th-percentile value, so
    // with factor 1000 its opacity saturates at one.
    let info = unit_info();
    let tracks = vec![vec![
        at(5, 5, Some(10)),
        at(5, 5, Some(11)),
        at(5, 5, Some(12)),
    ]];
    let canvas = gray_canvas(20, 20);
    let color = Color { r: 10, g: 20, b: 30 };
    let out = overlay_image(canvas, &info, &tracks, color, 1000, 250);
    assert_eq!(out.get_pixel(5, 5), (10, 20, 30));
}

#[test]
fn rendering_twice_is_byte_identical() {
    let info = unit_info();
    let tracks = vec![
        vec![at(2, 4, Some(100)), at(7, 4, Some(101))],
        vec![at(3, 9, None)],
        vec![at(5, 5, Some(10)), at(5, 5, Some(11)), at(5, 5, Some(12))],
    ];
    let color = Color { r: 200, g: 16, b: 32 };
    let out1 = overlay_image(gray_canvas(24, 16), &info, &tracks, color, 1500, 300);
    let out2 = overlay_image(gray_canvas(24, 16), &info, &tracks, color, 1500, 300);
    assert_eq!(out1.data, out2.data);
}

#[test]
fn canvas_new_checks_dimensions() {
    assert!(Canvas::new(4, 4, vec![0u8; 48]).is_some());
    assert!(Canvas::new(4, 4, vec![0u8; 47]).is_none());
    assert!(Canvas::new(0x8000_0000, 1, vec![]).is_none());
}

#[test]
fn tiny_canvas_is_left_unchanged() {
    // A canvas too small for the one-pixel safety border takes no marks at
    // all, and rendering it is still well defined.
    let info = unit_info();
    let tracks = vec![vec![at(0, 0, None), at(1, 1, None)]];
    let canvas = gray_canvas(2, 2);
    let out = overlay_image(canvas, &info, &tracks, Color { r: 1, g: 2, b: 3 }, 1000, 250);
    assert_eq!(out.data, vec![100u8; 12]);
    let empty = Canvas::new(0, 0, vec![]).unwrap();
    let out0 = overlay_image(empty, &info, &tracks, Color { r: 1, g: 2, b: 3 }, 1000, 250);
    assert_eq!(out0.data.len(), 0);
}
