//! The frame rasterizer: one particle snapshot to one encoded PNG frame.
//!
//! A frame is a canvas of the viewport's pixel dimensions, cleared to
//! opaque black, onto which each particle's marker — a filled circle in a
//! fixed translucent white — is drawn centered at the particle's anchor,
//! the plain translation of its position by the viewport's top-left
//! corner. The anchor may lie off the canvas: marker pixels outside the
//! canvas are silently clipped, never an error and never re-anchored.
//! Markers are drawn in input order; later particles draw on top of
//! earlier ones. The caller persists the returned bytes.
use vstd::prelude::*;

use crate::errors::RenderError;
use crate::geometry::EnvironmentBounds;
use crate::geometry::PhysicsParticle;
use crate::geometry::MAX_VIEWPORT_DIM;
use crate::geometry::anchor_of;
use crate::geometry::bounds_valid;
use crate::imaging::Canvas;
use crate::imaging::encode_png;
use crate::imaging::image_dims;
use crate::imaging::image_pixels;
use crate::imaging::new_canvas;
use crate::imaging::plot_pixel;
use crate::imaging::png_encoding;
use crate::imaging::rect_dom;
use crate::imaging::solid_canvas;

verus! {

/// The fixed marker fill: translucent white.
pub open spec fn marker_color() -> (u8, u8, u8, u8) {
    (255u8, 255u8, 255u8, 185u8)
}

/// The fixed background: opaque black.
pub open spec fn background_color() -> (u8, u8, u8, u8) {
    (0u8, 0u8, 0u8, 255u8)
}

/// The pixel `(px, py)` lies in the filled circle of the given center and
/// radius.
pub open spec fn in_disk(px: int, py: int, ax: int, ay: int, radius: int) -> bool {
    (px - ax) * (px - ax) + (py - ay) * (py - ay) <= radius * radius
}

/// A canvas with a filled circle of the given center, radius and color
/// drawn over it: every canvas pixel inside the circle takes the color,
/// every other pixel keeps its value. The center may lie anywhere,
/// including off the canvas; only canvas pixels are touched.
pub open spec fn disk_overlay(
    canvas: Map<(int, int), (u8, u8, u8, u8)>,
    ax: int,
    ay: int,
    radius: int,
    color: (u8, u8, u8, u8),
) -> Map<(int, int), (u8, u8, u8, u8)> {
    Map::new(
        |p: (int, int)| canvas.dom().contains(p),
        |p: (int, int)|
            if in_disk(p.0, p.1, ax, ay, radius) {
                color
            } else {
                canvas[p]
            },
    )
}

/// The canvas a snapshot renders to: a black background of the viewport's
/// dimensions, overlaid with one marker circle per particle at its anchor,
/// in input order — the last particle's marker is the outermost overlay.
pub open spec fn rendered_pixels(
    ps: Seq<PhysicsParticle>,
    b: EnvironmentBounds,
    radius: u32,
) -> Map<(int, int), (u8, u8, u8, u8)>
    decreases ps.len(),
{
    if ps.len() == 0 {
        solid_canvas(b.size.x as int, b.size.y as int, background_color())
    } else {
        let a = anchor_of(ps.last(), b);
        disk_overlay(rendered_pixels(ps.drop_last(), b, radius), a.0, a.1, radius as int,
            marker_color())
    }
}

/// A pixel of the disk lies within `radius` of the center on each axis.
proof fn lemma_disk_in_box(px: int, py: int, ax: int, ay: int, radius: int)
    requires
        radius >= 0,
        in_disk(px, py, ax, ay, radius),
    ensures
        ax - radius <= px <= ax + radius,
        ay - radius <= py <= ay + radius,
{
    assert((px - ax) * (px - ax) >= 0 && (py - ay) * (py - ay) >= 0) by (nonlinear_arith);
    if px - ax > radius || ax - px > radius || py - ay > radius || ay - py > radius {
        assert((px - ax) * (px - ax) + (py - ay) * (py - ay) > radius * radius)
            by (nonlinear_arith)
            requires
                radius >= 0,
                px - ax > radius || ax - px > radius || py - ay > radius || ay - py > radius,
        ;
    }
}

/// A circle whose center is farther than its radius from the canvas
/// rectangle leaves the canvas unchanged.
proof fn lemma_disk_overlay_off_canvas(
    canvas: Map<(int, int), (u8, u8, u8, u8)>,
    w: int,
    h: int,
    ax: int,
    ay: int,
    radius: int,
    color: (u8, u8, u8, u8),
)
    requires
        radius >= 0,
        canvas.dom() == rect_dom(w, h),
        ax < -radius || ax > w - 1 + radius || ay < -radius || ay > h - 1 + radius,
    ensures
        disk_overlay(canvas, ax, ay, radius, color) == canvas,
{
    assert forall|p: (int, int)| canvas.dom().contains(p) implies !in_disk(
        p.0,
        p.1,
        ax,
        ay,
        radius,
    ) by {
        if in_disk(p.0, p.1, ax, ay, radius) {
            lemma_disk_in_box(p.0, p.1, ax, ay, radius);
        }
    }
    assert(disk_overlay(canvas, ax, ay, radius, color) =~= canvas);
}

/// The canvas after the marker pixels up to scan position `(py, px)` (row
/// major, rows top to bottom) have been painted.
spec fn painted_upto(
    canvas: Map<(int, int), (u8, u8, u8, u8)>,
    ax: int,
    ay: int,
    radius: int,
    color: (u8, u8, u8, u8),
    py: int,
    px: int,
) -> Map<(int, int), (u8, u8, u8, u8)> {
    Map::new(
        |p: (int, int)| canvas.dom().contains(p),
        |p: (int, int)|
            if in_disk(p.0, p.1, ax, ay, radius) && (p.1 < py || (p.1 == py && p.0 < px)) {
                color
            } else {
                canvas[p]
            },
    )
}

/// Draws the marker circle centered at the (possibly off-canvas) anchor
/// `(ax, ay)` onto a `w` by `h` canvas: exactly the canvas pixels within
/// `radius` of the anchor take the marker color; pixels outside the canvas
/// are clipped.
#[verifier::loop_isolation(false)]
fn draw_marker(img: &mut Canvas, w: u32, h: u32, ax: i128, ay: i128, radius: u32)
    requires
        1 <= w <= MAX_VIEWPORT_DIM,
        1 <= h <= MAX_VIEWPORT_DIM,
        image_dims(*old(img)) == (w, h),
        image_pixels(*old(img)).dom() == rect_dom(w as int, h as int),
    ensures
        image_dims(*final(img)) == (w, h),
        image_pixels(*final(img)) == disk_overlay(
            image_pixels(*old(img)),
            ax as int,
            ay as int,
            radius as int,
            marker_color(),
        ),
        image_pixels(*final(img)).dom() == rect_dom(w as int, h as int),
{
    let ghost orig = image_pixels(*old(img));
    let ghost axi = ax as int;
    let ghost ayi = ay as int;
    let ghost rad = radius as int;
    let r = radius as i128;
    if ax < -r || ax > w as i128 - 1 + r || ay < -r || ay > h as i128 - 1 + r {
        proof {
            lemma_disk_overlay_off_canvas(orig, w as int, h as int, axi, ayi, rad,
                marker_color());
        }
        return ;
    }
    let x_lo: u32 = if ax - r >= 0 {
        (ax - r) as u32
    } else {
        0
    };
    let x_hi: u32 = if ax + r <= w as i128 - 1 {
        (ax + r) as u32
    } else {
        w - 1
    };
    let y_lo: u32 = if ay - r >= 0 {
        (ay - r) as u32
    } else {
        0
    };
    let y_hi: u32 = if ay + r <= h as i128 - 1 {
        (ay + r) as u32
    } else {
        h - 1
    };
    let mut y: u32 = y_lo;
    proof {
        assert(image_pixels(*img) =~= painted_upto(orig, axi, ayi, rad, marker_color(),
            y as int, x_lo as int)) by {
            assert forall|p: (int, int)| orig.dom().contains(p) implies !(in_disk(
                p.0,
                p.1,
                axi,
                ayi,
                rad,
            ) && (p.1 < y as int || (p.1 == y as int && p.0 < x_lo as int))) by {
                if in_disk(p.0, p.1, axi, ayi, rad) {
                    lemma_disk_in_box(p.0, p.1, axi, ayi, rad);
                }
            }
        }
    }
    while y <= y_hi
        invariant
            y_lo <= y <= y_hi + 1,
            y_lo <= y_hi < h <= MAX_VIEWPORT_DIM,
            x_lo <= x_hi < w <= MAX_VIEWPORT_DIM,
            1 <= w,
            1 <= h,
            -rad <= axi <= w - 1 + rad,
            -rad <= ayi <= h - 1 + rad,
            x_lo as int == if axi - rad >= 0 { axi - rad } else { 0 },
            x_hi as int == if axi + rad <= w - 1 { axi + rad } else { w as int - 1 },
            y_lo as int == if ayi - rad >= 0 { ayi - rad } else { 0 },
            y_hi as int == if ayi + rad <= h - 1 { ayi + rad } else { h as int - 1 },
            rad == radius as int,
            rad >= 0,
            orig == image_pixels(*old(img)),
            orig.dom() == rect_dom(w as int, h as int),
            image_dims(*img) == (w, h),
            image_pixels(*img) == painted_upto(orig, axi, ayi, rad, marker_color(), y as int,
                x_lo as int),
        decreases y_hi + 1 - y,
    {
        let mut x: u32 = x_lo;
        while x <= x_hi
            invariant
                x_lo <= x <= x_hi + 1,
                y_lo <= y <= y_hi,
                y_lo <= y_hi < h <= MAX_VIEWPORT_DIM,
                x_lo <= x_hi < w <= MAX_VIEWPORT_DIM,
                1 <= w,
                1 <= h,
                -rad <= axi <= w - 1 + rad,
                -rad <= ayi <= h - 1 + rad,
                x_lo as int == if axi - rad >= 0 { axi - rad } else { 0 },
                x_hi as int == if axi + rad <= w - 1 { axi + rad } else { w as int - 1 },
                rad == radius as int,
                rad >= 0,
                orig == image_pixels(*old(img)),
                orig.dom() == rect_dom(w as int, h as int),
                image_dims(*img) == (w, h),
                image_pixels(*img) == painted_upto(orig, axi, ayi, rad, marker_color(),
                    y as int, x as int),
            decreases x_hi + 1 - x,
        {
            let dx = x as i128 - ax;
            let dy = y as i128 - ay;
            proof {
                assert(dx * dx + dy * dy < 0x1_0000_0000_0000_0000_0000i128 && dx * dx >= 0
                    && dy * dy >= 0) by (nonlinear_arith)
                    requires
                        -0x8_0000_0000i128 <= dx <= 0x8_0000_0000i128,
                        -0x8_0000_0000i128 <= dy <= 0x8_0000_0000i128,
                ;
                assert(r * r >= 0 && r * r <= 0x1_0000_0000_0000_0000i128) by (nonlinear_arith)
                    requires
                        0 <= r <= 0x1_0000_0000i128,
                ;
            }
            let ghost before = image_pixels(*img);
            if dx * dx + dy * dy <= r * r {
                plot_pixel(img, x, y, 255, 255, 255, 185);
                proof {
                    assert(before.dom().contains((x as int, y as int)));
                    assert(in_disk(x as int, y as int, axi, ayi, rad));
                    assert(image_pixels(*img) =~= painted_upto(orig, axi, ayi, rad,
                        marker_color(), y as int, x as int + 1));
                }
            } else {
                proof {
                    assert(!in_disk(x as int, y as int, axi, ayi, rad));
                    assert(image_pixels(*img) =~= painted_upto(orig, axi, ayi, rad,
                        marker_color(), y as int, x as int + 1));
                }
            }
            x = x + 1;
        }
        proof {
            assert(painted_upto(orig, axi, ayi, rad, marker_color(), y as int, x_hi as int + 1)
                =~= painted_upto(orig, axi, ayi, rad, marker_color(), y as int + 1,
                x_lo as int)) by {
                assert forall|p: (int, int)| orig.dom().contains(p) && in_disk(
                    p.0,
                    p.1,
                    axi,
                    ayi,
                    rad,
                ) implies x_lo as int <= p.0 <= x_hi as int by {
                    lemma_disk_in_box(p.0, p.1, axi, ayi, rad);
                }
            }
        }
        y = y + 1;
    }
    proof {
        assert(painted_upto(orig, axi, ayi, rad, marker_color(), y_hi as int + 1, x_lo as int)
            =~= disk_overlay(orig, axi, ayi, rad, marker_color())) by {
            assert forall|p: (int, int)| orig.dom().contains(p) && in_disk(
                p.0,
                p.1,
                axi,
                ayi,
                rad,
            ) implies p.1 <= y_hi as int by {
                lemma_disk_in_box(p.0, p.1, axi, ayi, rad);
            }
        }
        assert(disk_overlay(orig, axi, ayi, rad, marker_color()).dom() =~= rect_dom(
            w as int,
            h as int,
        ));
    }
}

/// Rasterizes one snapshot of particle state into an encoded PNG frame.
///
/// Succeeds exactly when the viewport is well formed; a viewport whose
/// size is not positive (or exceeds the image-buffer limits) is a
/// configuration error, rejected before any work begins. On success the
/// bytes are the PNG encoding of an image of exactly the viewport's pixel
/// dimensions, whatever the particles: the black background overlaid with
/// each particle's marker at its anchor, in input order. Zero particles
/// give a pure background image; a radius of zero marks a single pixel.
pub fn render_frame(
    radius: u32,
    particles: &Vec<PhysicsParticle>,
    bounds: &EnvironmentBounds,
) -> (r: Result<Vec<u8>, RenderError>)
    ensures
        !bounds_valid(*bounds) <==> r == Err::<Vec<u8>, RenderError>(RenderError::InvalidBounds),
        bounds_valid(*bounds) <==> r is Ok,
        r matches Ok(bytes) ==> bytes@ == png_encoding(
            bounds.size.x as u32,
            bounds.size.y as u32,
            rendered_pixels(particles@, *bounds, radius),
        ),
        bounds_valid(*bounds) ==> rendered_pixels(particles@, *bounds, radius).dom() == rect_dom(
            bounds.size.x as int,
            bounds.size.y as int,
        ),
{
    if bounds.size.x < 1 || bounds.size.y < 1 || bounds.size.x > MAX_VIEWPORT_DIM as i64
        || bounds.size.y > MAX_VIEWPORT_DIM as i64 {
        return Err(RenderError::InvalidBounds);
    }
    proof {
        assert(0 <= bounds.size.x * bounds.size.y <= 0x1000_0000_0000_0000i64) by (nonlinear_arith)
            requires
                1 <= bounds.size.x <= 0x4000_0000,
                1 <= bounds.size.y <= 0x4000_0000,
        ;
    }
    if bounds.size.x * bounds.size.y > u32::MAX as i64 {
        return Err(RenderError::InvalidBounds);
    }
    let w = bounds.size.x as u32;
    let h = bounds.size.y as u32;
    let mut img = new_canvas(w, h, 0, 0, 0, 255);
    let mut i: usize = 0;
    while i < particles.len()
        invariant
            i <= particles@.len(),
            bounds_valid(*bounds),
            w == bounds.size.x as u32,
            h == bounds.size.y as u32,
            w == bounds.size.x,
            h == bounds.size.y,
            image_dims(img) == (w, h),
            image_pixels(img) == rendered_pixels(particles@.take(i as int), *bounds, radius),
            image_pixels(img).dom() == rect_dom(w as int, h as int),
        decreases particles@.len() - i,
    {
        let p = particles[i];
        let ax = p.position.x as i128 - bounds.top_left.x as i128;
        let ay = p.position.y as i128 - bounds.top_left.y as i128;
        draw_marker(&mut img, w, h, ax, ay, radius);
        proof {
            let taken = particles@.take(i as int + 1);
            assert(taken.drop_last() =~= particles@.take(i as int));
            assert(taken.last() == particles@[i as int]);
            assert(anchor_of(particles@[i as int], *bounds) == (ax as int, ay as int));
        }
        i = i + 1;
    }
    proof {
        assert(particles@.take(particles@.len() as int) =~= particles@);
        assert(solid_canvas(w as int, h as int, background_color()).dom() =~= rect_dom(
            w as int,
            h as int,
        ));
    }
    match encode_png(&img) {
        Ok(bytes) => Ok(bytes),
        Err(_) => {
            proof {
                assert(false);
            }
            Err(RenderError::EncodeFailed)
        },
    }
}

/// The rendered canvas covers exactly the viewport's pixel rectangle,
/// whatever the particles: markers never grow or shrink the image.
pub proof fn lemma_rendered_domain(ps: Seq<PhysicsParticle>, b: EnvironmentBounds, radius: u32)
    ensures
        rendered_pixels(ps, b, radius).dom() == rect_dom(b.size.x as int, b.size.y as int),
    decreases ps.len(),
{
    if ps.len() == 0 {
        assert(rendered_pixels(ps, b, radius).dom() =~= rect_dom(b.size.x as int,
            b.size.y as int));
    } else {
        lemma_rendered_domain(ps.drop_last(), b, radius);
        assert(rendered_pixels(ps, b, radius).dom() =~= rect_dom(b.size.x as int,
            b.size.y as int));
    }
}

/// An empty snapshot renders to the pure background: a canvas of the
/// viewport's dimensions with every pixel the background color.
pub proof fn lemma_empty_snapshot_is_background(b: EnvironmentBounds, radius: u32)
    ensures
        rendered_pixels(Seq::<PhysicsParticle>::empty(), b, radius) == solid_canvas(
            b.size.x as int,
            b.size.y as int,
            background_color(),
        ),
{
}

/// A particle standing on the viewport's top-left corner anchors its
/// marker at pixel `(0, 0)`: that pixel carries the marker color in the
/// rendered canvas (the rest of the circle is clipped at the corner).
pub proof fn lemma_corner_particle_marks_origin(
    p: PhysicsParticle,
    b: EnvironmentBounds,
    radius: u32,
)
    requires
        bounds_valid(b),
        p.position == b.top_left,
    ensures
        rendered_pixels(seq![p], b, radius)[(0int, 0int)] == marker_color(),
{
    let one = seq![p];
    let none = Seq::<PhysicsParticle>::empty();
    assert(one.drop_last() =~= none);
    assert(one.last() == p);
    assert(anchor_of(p, b) == (0int, 0int));
    let base = solid_canvas(b.size.x as int, b.size.y as int, background_color());
    assert(base.dom().contains((0int, 0int)));
    assert(radius as int * radius as int >= 0) by (nonlinear_arith);
    assert(in_disk(0, 0, 0, 0, radius as int));
    assert(rendered_pixels(none, b, radius) == base);
    assert(rendered_pixels(one, b, radius) == disk_overlay(rendered_pixels(none, b, radius), 0,
        0, radius as int, marker_color()));
    assert(disk_overlay(base, 0, 0, radius as int, marker_color())[(0int, 0int)]
        == marker_color());
    assert(rendered_pixels(one, b, radius) == rendered_pixels(seq![p], b, radius));
}

/// Draw order is stable: over two particles the rendered canvas is the
/// background overlaid with the first particle's marker and then,
/// outermost, with the marker of the particle that came later in the
/// input — every canvas pixel of the later marker shows the marker color,
/// whatever was drawn beneath it.
pub proof fn lemma_draw_order(
    p1: PhysicsParticle,
    p2: PhysicsParticle,
    b: EnvironmentBounds,
    radius: u32,
)
    ensures
        rendered_pixels(seq![p1, p2], b, radius) == disk_overlay(
            disk_overlay(
                solid_canvas(b.size.x as int, b.size.y as int, background_color()),
                anchor_of(p1, b).0,
                anchor_of(p1, b).1,
                radius as int,
                marker_color(),
            ),
            anchor_of(p2, b).0,
            anchor_of(p2, b).1,
            radius as int,
            marker_color(),
        ),
        forall|p: (int, int)|
            rendered_pixels(seq![p1, p2], b, radius).dom().contains(p) && in_disk(
                p.0,
                p.1,
                anchor_of(p2, b).0,
                anchor_of(p2, b).1,
                radius as int,
            ) ==> rendered_pixels(seq![p1, p2], b, radius)[p] == marker_color(),
{
    let two = seq![p1, p2];
    let one = seq![p1];
    let none = Seq::<PhysicsParticle>::empty();
    let a1 = anchor_of(p1, b);
    let a2 = anchor_of(p2, b);
    assert(two.drop_last() =~= one);
    assert(one.drop_last() =~= none);
    assert(two.last() == p2);
    assert(one.last() == p1);
    assert(rendered_pixels(none, b, radius) == solid_canvas(
        b.size.x as int,
        b.size.y as int,
        background_color(),
    ));
    assert(rendered_pixels(one, b, radius) == disk_overlay(
        rendered_pixels(none, b, radius),
        a1.0,
        a1.1,
        radius as int,
        marker_color(),
    ));
    assert(rendered_pixels(two, b, radius) == disk_overlay(
        rendered_pixels(one, b, radius),
        a2.0,
        a2.1,
        radius as int,
        marker_color(),
    ));
}

} // verus!
