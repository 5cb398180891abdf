use strip_chart::render::{begin_frame, draw_segments, finish_frame, BACKGROUND, INSET};
use strip_chart::{
    map_point, plan_frame, plot_area, PixelSurface, PlotArea, Point, Sample, SampleWindow, Segment,
    HEIGHT, VALUE_SCALE, WIDTH,
};

fn chart_area() -> PlotArea {
    PlotArea { left: 40, top: 40, right: 760, bottom: 560 }
}

#[test]
fn plot_area_insets_margin_and_labels() {
    assert_eq!(INSET, 40);
    assert_eq!(plot_area(WIDTH as u32, HEIGHT as u32), Some(chart_area()));
}

#[test]
fn plot_area_of_too_small_image() {
    assert_eq!(plot_area(79, 600), None);
    assert_eq!(plot_area(800, 79), None);
    assert_eq!(plot_area(80, 80), Some(PlotArea { left: 40, top: 40, right: 40, bottom: 40 }));
}

#[test]
fn empty_window_gives_axes_only() {
    let w = SampleWindow::new(10);
    let plan = plan_frame(&w, 800, 600).unwrap();
    assert_eq!(plan.area, chart_area());
    assert_eq!(plan.x_max, 0);
    assert!(plan.segments.is_empty());
}

#[test]
fn single_sample_gives_no_segment() {
    let mut w = SampleWindow::new(10);
    w.push(0, 500_000);
    let plan = plan_frame(&w, 800, 600).unwrap();
    assert_eq!(plan.x_max, 0);
    assert!(plan.segments.is_empty());
    assert_eq!(map_point(plan.area, 0, w.get(0)), Point { x: 40, y: 300 });
}

#[test]
fn two_samples_map_by_the_linear_transform() {
    let mut w = SampleWindow::new(10);
    w.push(0, 200_000);
    w.push(1, 800_000);
    let plan = plan_frame(&w, 800, 600).unwrap();
    assert_eq!(plan.x_max, 1);
    // x = 40 + (e - 0) / (1 - 0) * 720; y = 560 - (v - 0) / (1 - 0) * 520
    assert_eq!(
        plan.segments,
        vec![Segment { from: Point { x: 40, y: 456 }, to: Point { x: 760, y: 144 } }]
    );
}

#[test]
fn segments_follow_the_window() {
    let mut w = SampleWindow::new(3);
    for e in 0..5u64 {
        w.push(e, (e as u32) * 250_000 % VALUE_SCALE);
    }
    let plan = plan_frame(&w, 800, 600).unwrap();
    assert_eq!(plan.x_max, 4);
    assert_eq!(plan.segments.len(), 2);
    assert_eq!(plan.segments[0].from, Point { x: 400, y: 300 });
    assert_eq!(plan.segments[0].to, Point { x: 580, y: 170 });
    assert_eq!(plan.segments[1].from, plan.segments[0].to);
    assert_eq!(plan.segments[1].to, Point { x: 760, y: 560 });
}

#[test]
fn map_point_edges() {
    let a = chart_area();
    assert_eq!(map_point(a, 10, Sample { epoch: 0, value: 0 }), Point { x: 40, y: 560 });
    assert_eq!(map_point(a, 10, Sample { epoch: 10, value: VALUE_SCALE - 1 }), Point { x: 760, y: 41 });
    assert_eq!(map_point(a, 4, Sample { epoch: 1, value: 500_000 }), Point { x: 220, y: 300 });
    assert_eq!(
        map_point(a, u64::MAX, Sample { epoch: u64::MAX, value: 0 }),
        Point { x: 760, y: 560 }
    );
}

#[test]
fn frame_of_too_small_image() {
    let w = SampleWindow::new(10);
    assert!(plan_frame(&w, 10, 10).is_none());
}

#[test]
fn draw_segments_writes_green_pixels() {
    let mut s = PixelSurface::new(5, 3);
    let segs = vec![Segment { from: Point { x: 1, y: 1 }, to: Point { x: 3, y: 1 } }];
    assert!(draw_segments(&mut s, &segs, 0, 255, 0));
    for x in 1..4usize {
        assert_eq!(s.pixel(5 + x) & 0x00FF_FFFF, 0x0000_FF00);
    }
    assert_eq!(s.pixel(5), 0);
    assert_eq!(s.pixel(9), 0);
    assert_eq!(s.pixel(0), 0);
    assert_eq!(s.pixel(11), 0);
}

#[test]
fn draw_segments_diagonal_stops_short_of_last_column() {
    let mut s = PixelSurface::new(4, 4);
    let segs = vec![Segment { from: Point { x: 0, y: 0 }, to: Point { x: 3, y: 3 } }];
    assert!(draw_segments(&mut s, &segs, 0, 255, 0));
    // a 45-degree line covers whole pixels; the backend stops short of the
    // image's last column
    assert_eq!(s.pixel(0) & 0x00FF_FFFF, 0x0000_FF00);
    assert_eq!(s.pixel(5) & 0x00FF_FFFF, 0x0000_FF00);
    assert_eq!(s.pixel(10) & 0x00FF_FFFF, 0x0000_FF00);
    assert_eq!(s.pixel(15), 0);
    assert_eq!(s.pixel(3), 0);
    assert_eq!(s.pixel(12), 0);
}

#[test]
fn draw_segments_refuses_segment_outside() {
    let mut s = PixelSurface::new(5, 3);
    s.set_pixel(2, 7);
    let segs = vec![
        Segment { from: Point { x: 0, y: 0 }, to: Point { x: 1, y: 1 } },
        Segment { from: Point { x: 1, y: 1 }, to: Point { x: 5, y: 1 } },
    ];
    assert!(!draw_segments(&mut s, &segs, 0, 255, 0));
    let mut expected = vec![0u32; 15];
    expected[2] = 7;
    assert_eq!(s.pixels(), &expected[..]);
}

#[test]
fn empty_window_frame_draws_no_line() {
    let w = SampleWindow::new(10);
    let plan = plan_frame(&w, 800, 600).unwrap();
    let mut s = PixelSurface::new(800, 600);
    s.fill(0x00FF_FFFF);
    begin_frame(&mut s);
    assert!(s.pixels().iter().all(|&p| p == BACKGROUND));
    // stand-in for the mesh: a line through the plotting region
    for x in 0..800usize {
        s.set_pixel(300 * 800 + x, 0x0000_FF00);
    }
    assert!(finish_frame(&mut s, &plan));
    for y in 40..560usize {
        for x in 40..760usize {
            assert_eq!(s.pixel(y * 800 + x), BACKGROUND);
        }
    }
    assert_eq!(s.pixel(300 * 800 + 20), 0x0000_FF00);
    assert_eq!(s.pixel(300 * 800 + 770), 0x0000_FF00);
}

#[test]
fn two_sample_frame_draws_its_segment() {
    let mut w = SampleWindow::new(10);
    w.push(0, 200_000);
    w.push(1, 800_000);
    let plan = plan_frame(&w, 800, 600).unwrap();
    let mut s = PixelSurface::new(800, 600);
    begin_frame(&mut s);
    assert!(finish_frame(&mut s, &plan));
    // the line passes (400, 300), halfway between its ends; it is
    // anti-aliased, so only green shows, in some pixel of that column
    let column: Vec<u32> = (296..305usize).map(|y| s.pixel(y * 800 + 400)).collect();
    assert!(column.iter().any(|&p| (p >> 8) & 0xFF > 0));
    assert!(column.iter().all(|&p| p & 0x00FF_00FF == 0));
    assert_eq!(s.pixel(144 * 800 + 40), 0);
    assert_eq!(s.pixel(456 * 800 + 760), 0);
}
