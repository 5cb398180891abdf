//! Frame rendering: where the plotting region lies inside the image, where
//! each sample and each line segment between neighbours falls in it, and
//! the steps of a frame that clear the image and the region and draw the
//! polyline through plotters' bitmap backend.
use plotters::backend::DrawingBackend;
use plotters::style::RGBColor;
use plotters_bitmap::bitmap_pixel::BGRXPixel;
use plotters_bitmap::BitMapBackend;
use vstd::prelude::*;
use crate::surface::{bytes_of, in_rect, lemma_views_round_trip, PixelSurface};
use crate::window::{pairs_of, Sample, SampleWindow, VALUE_SCALE};

verus! {

/// Blank space kept on every side of the chart, in pixels.
pub const MARGIN: u32 = 10;

/// Room for tick labels on every side of the plotting region, in pixels.
pub const LABEL_AREA: u32 = 30;

/// Distance from each image edge to the plotting region.
pub const INSET: u32 = MARGIN + LABEL_AREA;

/// A pixel position, origin at the top left, `y` growing downwards.
#[derive(Clone, Copy, Debug, PartialEq, Eq, Structural)]
pub struct Point {
    pub x: u32,
    pub y: u32,
}

/// A straight line between two pixel positions.
#[derive(Clone, Copy, Debug, PartialEq, Eq, Structural)]
pub struct Segment {
    pub from: Point,
    pub to: Point,
}

/// The plotting region: columns `left..right`, rows `top..bottom`. The X
/// domain's ends map to `left` and `right`, the Y domain's to `bottom` and
/// `top`.
#[derive(Clone, Copy, Debug, PartialEq, Eq, Structural)]
pub struct PlotArea {
    pub left: u32,
    pub top: u32,
    pub right: u32,
    pub bottom: u32,
}

impl PlotArea {
    pub open spec fn wf(&self) -> bool {
        self.left <= self.right && self.top <= self.bottom
    }
}

/// Whether an image of this size leaves room for the plotting region.
pub open spec fn fits(width: u32, height: u32) -> bool {
    width >= 2 * INSET && height >= 2 * INSET
}

pub open spec fn area_spec(width: u32, height: u32) -> PlotArea {
    PlotArea {
        left: INSET,
        top: INSET,
        right: (width - INSET) as u32,
        bottom: (height - INSET) as u32,
    }
}

/// The column of epoch `e` on an X domain `0..x_max`: the left edge plus
/// the region's width scaled by `e / x_max`; the left edge when the domain
/// is empty.
pub open spec fn map_x(a: PlotArea, x_max: u64, e: u64) -> int {
    if x_max == 0 {
        a.left as int
    } else {
        a.left + (a.right - a.left) * e / x_max as int
    }
}

/// The row of value `v` (in millionths) on the Y domain `0..1`: the bottom
/// edge minus the region's height scaled by `v / VALUE_SCALE`.
pub open spec fn map_y(a: PlotArea, v: u32) -> int {
    a.bottom - (a.bottom - a.top) * v / VALUE_SCALE as int
}

pub open spec fn point_spec(a: PlotArea, x_max: u64, s: Sample) -> Point {
    Point { x: map_x(a, x_max, s.epoch) as u32, y: map_y(a, s.value) as u32 }
}

pub open spec fn segment_spec(a: PlotArea, x_max: u64, p: (Sample, Sample)) -> Segment {
    Segment { from: point_spec(a, x_max, p.0), to: point_spec(a, x_max, p.1) }
}

/// One segment per adjacent pair of `s`, in order.
pub open spec fn segments_spec(a: PlotArea, x_max: u64, s: Seq<Sample>) -> Seq<Segment> {
    pairs_of(s).map_values(|p: (Sample, Sample)| segment_spec(a, x_max, p))
}

/// A window of fewer than two samples gives no segment to draw, whatever
/// the X domain, an empty one included: the frame shows axes only.
pub proof fn lemma_short_window_draws_no_segment(a: PlotArea, x_max: u64, s: Seq<Sample>)
    requires
        s.len() <= 1,
    ensures
        segments_spec(a, x_max, s).len() == 0,
{
}

/// The plotting region of a `width` by `height` image, or `None` when the
/// image is too small to hold the margins and label areas.
pub fn plot_area(width: u32, height: u32) -> (r: Option<PlotArea>)
    ensures
        r is Some <==> fits(width, height),
        r matches Some(a) ==> a == area_spec(width, height) && a.wf(),
{
    if width >= 2 * INSET && height >= 2 * INSET {
        Some(PlotArea { left: INSET, top: INSET, right: width - INSET, bottom: height - INSET })
    } else {
        None
    }
}

/// The pixel position of a sample on X domain `0..x_max` and Y domain `0..1`.
pub fn map_point(a: PlotArea, x_max: u64, s: Sample) -> (r: Point)
    requires
        a.wf(),
        s.epoch <= x_max,
        s.value < VALUE_SCALE,
    ensures
        r == point_spec(a, x_max, s),
        a.left <= r.x <= a.right,
        a.top <= r.y <= a.bottom,
{
    let w = (a.right - a.left) as u128;
    let x: u32 = if x_max == 0 {
        a.left
    } else {
        proof {
            assert(w * s.epoch <= 0x1_0000_0000 * 0x1_0000_0000_0000_0000) by (nonlinear_arith)
                requires w < 0x1_0000_0000, s.epoch < 0x1_0000_0000_0000_0000, w >= 0, s.epoch >= 0;
            assert(w * s.epoch <= w * x_max) by (nonlinear_arith)
                requires s.epoch <= x_max, w >= 0;
            assert(w * s.epoch / x_max as int <= w) by (nonlinear_arith)
                requires w * s.epoch <= w * x_max, x_max > 0, w >= 0, s.epoch >= 0;
        }
        let dx = w * (s.epoch as u128) / (x_max as u128);
        a.left + dx as u32
    };
    let h = (a.bottom - a.top) as u64;
    proof {
        assert(h * s.value <= 0x1_0000_0000 * 0x1_0000_0000) by (nonlinear_arith)
            requires h < 0x1_0000_0000, s.value < 0x1_0000_0000, h >= 0, s.value >= 0;
        assert(h * s.value <= h * VALUE_SCALE) by (nonlinear_arith)
            requires s.value < VALUE_SCALE, h >= 0;
        assert(h * s.value / VALUE_SCALE as int <= h) by (nonlinear_arith)
            requires h * s.value <= h * VALUE_SCALE, h >= 0, s.value >= 0;
    }
    let dy = h * (s.value as u64) / (VALUE_SCALE as u64);
    Point { x, y: a.bottom - dy as u32 }
}

/// What one frame draws: the plotting region, the X domain `0..x_max`
/// (the Y domain is always `0..1`), and the line segments between
/// neighbouring samples.
pub struct FramePlan {
    pub area: PlotArea,
    pub x_max: u64,
    pub segments: Vec<Segment>,
}

/// Lays out a frame of a `width` by `height` image for the samples in
/// `window`: the X domain runs to the newest epoch, and each adjacent pair
/// of samples gives one segment. `None` when the image is too small.
pub fn plan_frame(window: &SampleWindow, width: u32, height: u32) -> (r: Option<FramePlan>)
    requires
        window.wf(),
    ensures
        r is Some <==> fits(width, height),
        r matches Some(p) ==> {
            &&& p.area == area_spec(width, height)
            &&& p.x_max == window.spec_latest_epoch()
            &&& p.segments@ == segments_spec(p.area, p.x_max, window@)
            &&& forall|i: int| 0 <= i < p.segments@.len() ==> segment_inside(
                #[trigger] p.segments@[i],
                width as int,
                height as int,
            )
        },
{
    let area = match plot_area(width, height) {
        Some(a) => a,
        None => {
            return None;
        },
    };
    let x_max = window.latest_epoch();
    proof {
        window.lemma_bounds();
    }
    let pairs = window.pairs();
    let mut segments: Vec<Segment> = Vec::new();
    let mut i: usize = 0;
    while i < pairs.len()
        invariant
            i <= pairs@.len(),
            area.wf(),
            pairs@ == pairs_of(window@),
            x_max == window.spec_latest_epoch(),
            crate::window::values_in_range(window@),
            forall|k: int| 0 <= k < window@.len() ==> #[trigger] window@[k].epoch <= x_max,
            segments@ =~= pairs@.subrange(0, i as int).map_values(
                |p: (Sample, Sample)| segment_spec(area, x_max, p),
            ),
            area == area_spec(width, height),
            fits(width, height),
            forall|k: int| 0 <= k < segments@.len() ==> segment_inside(
                #[trigger] segments@[k],
                width as int,
                height as int,
            ),
        decreases pairs@.len() - i,
    {
        let (s0, s1) = pairs[i];
        assert(s0 == window@[i as int] && s1 == window@[i + 1]);
        let seg = Segment { from: map_point(area, x_max, s0), to: map_point(area, x_max, s1) };
        segments.push(seg);
        i = i + 1;
    }
    assert(pairs@.subrange(0, pairs@.len() as int) =~= pairs@);
    Some(FramePlan { area, x_max, segments })
}

/// The colour of the cleared image and of the plotting region: black.
pub const BACKGROUND: u32 = 0;

/// The plotting region of `area` as pixels of a row-by-row image:
/// columns `left..right`, rows `top..bottom`.
pub open spec fn in_plot(i: int, width: nat, area: PlotArea) -> bool {
    in_rect(i, width, area.left as int, area.top as int, area.right as int, area.bottom as int)
}

/// `p` with the plotting region of `area` set to the background.
pub open spec fn region_cleared(p: Seq<u32>, width: nat, area: PlotArea) -> Seq<u32> {
    Seq::new(p.len(), |i: int| if in_plot(i, width, area) { BACKGROUND } else { p[i] })
}

/// First step of a frame: the whole image takes the background colour.
/// Axes, grid and labels are drawn next, before `finish_frame`.
pub fn begin_frame(surface: &mut PixelSurface)
    requires
        old(surface).wf(),
    ensures
        final(surface).wf(),
        final(surface).spec_width() == old(surface).spec_width(),
        final(surface).spec_height() == old(surface).spec_height(),
        final(surface)@ == Seq::new(old(surface)@.len(), |i: int| BACKGROUND),
{
    surface.fill(BACKGROUND);
}

/// Last step of a frame: the plotting region is cleared to the background,
/// then the segments are drawn over it, one pixel wide in green. The
/// result is `true` when they could be drawn (see `draw_segments`); on
/// `false` only the region has been cleared. With no segments, nothing but
/// the background shows inside the region.
pub fn finish_frame(surface: &mut PixelSurface, plan: &FramePlan) -> (ok: bool)
    requires
        old(surface).wf(),
    ensures
        final(surface).wf(),
        final(surface).spec_width() == old(surface).spec_width(),
        final(surface).spec_height() == old(surface).spec_height(),
        ok == (drawable(old(surface).spec_width(), old(surface).spec_height()) && forall|i: int|
            0 <= i < plan.segments@.len() ==> segment_inside(
                #[trigger] plan.segments@[i],
                old(surface).spec_width() as int,
                old(surface).spec_height() as int,
            )),
        ok ==> final(surface).byte_view() == stroke_all(
            bytes_of(region_cleared(old(surface)@, old(surface).spec_width(), plan.area)),
            old(surface).spec_width() as u32,
            old(surface).spec_height() as u32,
            plan.segments@,
            0,
            255,
            0,
        ),
        !ok ==> final(surface)@ == region_cleared(old(surface)@, old(surface).spec_width(), plan.area),
        plan.segments@.len() == 0 ==> forall|i: int|
            0 <= i < final(surface)@.len() && in_plot(i, old(surface).spec_width(), plan.area)
                ==> #[trigger] final(surface)@[i] == BACKGROUND,
{
    let a = plan.area;
    surface.fill_rect(a.left as usize, a.top as usize, a.right as usize, a.bottom as usize, BACKGROUND);
    assert(surface@ =~= region_cleared(old(surface)@, old(surface).spec_width(), plan.area));
    let ghost cleared = surface@;
    let ok = draw_segments(surface, &plan.segments, 0, 255, 0);
    proof {
        if ok && plan.segments@.len() == 0 {
            lemma_views_round_trip(surface@);
            lemma_views_round_trip(cleared);
        }
    }
    ok
}

/// The largest image side that the line drawing accepts.
pub const MAX_SIDE: u32 = 0x3fff_ffff;

/// The largest pixel count that the line drawing accepts: the backend
/// computes pixel offsets in `i32`.
pub const MAX_PIXELS: u32 = 0x7fff_ffff;

/// The bytes of a `width` by `height` blue-green-red-unused image after
/// plotters' bitmap backend has drawn the one-pixel segment `seg` on them
/// in the opaque colour `(r, g, b)`.
pub uninterp spec fn stroked(
    bytes: Seq<u8>,
    width: u32,
    height: u32,
    seg: Segment,
    r: u8,
    g: u8,
    b: u8,
) -> Seq<u8>;

/// Whether a segment lies inside a `width` by `height` image.
pub open spec fn segment_inside(seg: Segment, width: int, height: int) -> bool {
    &&& seg.from.x < width
    &&& seg.to.x < width
    &&& seg.from.y < height
    &&& seg.to.y < height
}

/// Relies on plotters-bitmap's `BitMapBackend::with_buffer_and_format` (it
/// fails only when the bytes are too few for the image, and computes
/// `width * height` in `u32`) and on its `DrawingBackend::draw_line`, which
/// with a one-pixel opaque colour only writes pixels and never fails. The
/// pixel writers behind it compute row offsets `y * width` in `i32`, so the
/// pixel count is kept within `i32`; coordinate differences are kept within
/// `i32` by the side bound.
#[verifier::external_body]
fn stroke_segment(bytes: &mut Vec<u8>, width: u32, height: u32, seg: Segment, r: u8, g: u8, b: u8)
    -> (ok: bool)
    requires
        width * height <= MAX_PIXELS,
        width <= MAX_SIDE,
        height <= MAX_SIDE,
        segment_inside(seg, width as int, height as int),
    ensures
        final(bytes)@.len() == old(bytes)@.len(),
        ok == (4 * (width * height) <= old(bytes)@.len()),
        ok ==> final(bytes)@ == stroked(old(bytes)@, width, height, seg, r, g, b),
        !ok ==> final(bytes)@ == old(bytes)@,
{
    match BitMapBackend::<BGRXPixel>::with_buffer_and_format(bytes.as_mut_slice(), (width, height)) {
        Ok(mut backend) => backend.draw_line(
            (seg.from.x as i32, seg.from.y as i32),
            (seg.to.x as i32, seg.to.y as i32),
            &RGBColor(r, g, b),
        ).is_ok(),
        Err(_) => false,
    }
}

/// The bytes after drawing each of `segs` in order.
pub open spec fn stroke_all(
    bytes: Seq<u8>,
    width: u32,
    height: u32,
    segs: Seq<Segment>,
    r: u8,
    g: u8,
    b: u8,
) -> Seq<u8>
    decreases segs.len(),
{
    if segs.len() == 0 {
        bytes
    } else {
        stroked(stroke_all(bytes, width, height, segs.drop_last(), r, g, b), width, height, segs.last(), r, g, b)
    }
}

/// Whether the line drawing accepts a surface of these dimensions.
pub open spec fn drawable(width: nat, height: nat) -> bool {
    width * height <= MAX_PIXELS && width <= MAX_SIDE && height <= MAX_SIDE
}

/// Whether every segment lies inside a `width` by `height` image.
fn all_inside(segments: &Vec<Segment>, width: u32, height: u32) -> (r: bool)
    ensures
        r == forall|i: int|
            0 <= i < segments@.len() ==> segment_inside(#[trigger] segments@[i], width as int, height as int),
{
    let mut i: usize = 0;
    while i < segments.len()
        invariant
            i <= segments@.len(),
            forall|k: int| 0 <= k < i ==> segment_inside(#[trigger] segments@[k], width as int, height as int),
        decreases segments@.len() - i,
    {
        let seg = segments[i];
        if !(seg.from.x < width && seg.to.x < width && seg.from.y < height && seg.to.y < height) {
            return false;
        }
        i = i + 1;
    }
    true
}

/// Draws the polyline: each segment, in order, one pixel wide in the colour
/// `(r, g, b)`. It draws only when the surface's sides are drawable and
/// every segment lies inside it, and then returns `true`; else it returns
/// `false` and leaves the surface as it was.
pub fn draw_segments(surface: &mut PixelSurface, segments: &Vec<Segment>, r: u8, g: u8, b: u8) -> (ok: bool)
    requires
        old(surface).wf(),
    ensures
        final(surface).wf(),
        final(surface).spec_width() == old(surface).spec_width(),
        final(surface).spec_height() == old(surface).spec_height(),
        ok == (drawable(old(surface).spec_width(), old(surface).spec_height()) && forall|i: int|
            0 <= i < segments@.len() ==> segment_inside(
                #[trigger] segments@[i],
                old(surface).spec_width() as int,
                old(surface).spec_height() as int,
            )),
        ok ==> final(surface).byte_view() == stroke_all(
            old(surface).byte_view(),
            old(surface).spec_width() as u32,
            old(surface).spec_height() as u32,
            segments@,
            r,
            g,
            b,
        ),
        !ok ==> final(surface)@ == old(surface)@,
{
    let width = surface.width();
    let height = surface.height();
    if width > MAX_SIDE as usize || height > MAX_SIDE as usize {
        return false;
    }
    let n = surface.len();
    if n > MAX_PIXELS as usize {
        return false;
    }
    let w = width as u32;
    let h = height as u32;
    if !all_inside(segments, w, h) {
        return false;
    }
    let mut bytes = surface.to_bytes();
    let ghost start = bytes@;
    let mut i: usize = 0;
    while i < segments.len()
        invariant
            i <= segments@.len(),
            w * h <= MAX_PIXELS,
            w <= MAX_SIDE,
            h <= MAX_SIDE,
            bytes@.len() == 4 * (w * h),
            w == old(surface).spec_width(),
            h == old(surface).spec_height(),
            forall|k: int| 0 <= k < segments@.len() ==> segment_inside(#[trigger] segments@[k], w as int, h as int),
            bytes@ == stroke_all(start, w, h, segments@.subrange(0, i as int), r, g, b),
        decreases segments@.len() - i,
    {
        let ok = stroke_segment(&mut bytes, w, h, segments[i], r, g, b);
        assert(ok);
        assert(segments@.subrange(0, i + 1).drop_last() =~= segments@.subrange(0, i as int));
        i = i + 1;
    }
    assert(segments@.subrange(0, segments@.len() as int) =~= segments@);
    surface.load_bytes(&bytes);
    true
}

} // verus!
