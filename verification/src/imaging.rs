//! Trusted boundary to the `ril` imaging crate.
//!
//! The rendering core owes its pixels to `ril`: canvases, the filled-circle
//! marker, PNG encoding and decoding, and the animated GIF container. Verus
//! sees those values through two models — an image is its dimensions and a
//! map from pixel coordinates to RGBA values; an image sequence is the
//! sequence of its frames' models. What a `ril` call computes on those
//! models is stated here and believed, not proved; everything downstream is
//! verified against these contracts.
use vstd::prelude::*;

verus! {

#[verifier::external_type_specification]
#[verifier::external_body]
pub struct ExRilError(ril::Error);

/// An off-screen RGBA image, held for `ril`. Verus sees it only through
/// [`image_dims`] and [`image_pixels`].
#[verifier::external_body]
pub struct Canvas(ril::Image<ril::Rgba>);

/// An ordered multi-frame image, held for `ril`'s animation encoder. Verus
/// sees it only through [`sequence_frames`].
#[verifier::external_body]
pub struct FrameSequence(ril::ImageSequence<ril::Rgba>);

/// The width and height, in pixels, of an image held by `ril`.
pub uninterp spec fn image_dims(img: Canvas) -> (u32, u32);

/// The pixels an image holds: a map from `(x, y)` coordinates to RGBA
/// values whose domain is exactly the image's pixel rectangle.
pub uninterp spec fn image_pixels(img: Canvas) -> Map<(int, int), (u8, u8, u8, u8)>;

/// The PNG encoding of an image with the given dimensions and pixels. A
/// function of its arguments alone.
pub uninterp spec fn png_encoding(w: u32, h: u32, pixels: Map<(int, int), (u8, u8, u8, u8)>) -> Seq<
    u8,
>;

/// What a byte buffer decodes to: `Some` of the decoded image's dimensions
/// and pixels exactly when the bytes parse as a PNG image, `None`
/// otherwise. A function of the bytes alone.
pub uninterp spec fn decoded_frame(bytes: Seq<u8>) -> Option<
    ((u32, u32), Map<(int, int), (u8, u8, u8, u8)>),
>;

/// The frames an animation sequence holds, in order: each frame's
/// dimensions and pixels.
pub uninterp spec fn sequence_frames(s: FrameSequence) -> Seq<
    ((u32, u32), Map<(int, int), (u8, u8, u8, u8)>),
>;

/// The animated GIF encoding of a frame sequence (infinite loop, default
/// per-frame delay). A function of the frames alone.
pub uninterp spec fn gif_encoding(frames: Seq<((u32, u32), Map<(int, int), (u8, u8, u8, u8)>)>) -> Seq<
    u8,
>;

/// The coordinate domain of a `w` by `h` canvas.
pub open spec fn rect_dom(w: int, h: int) -> Set<(int, int)> {
    Set::new(|p: (int, int)| 0 <= p.0 < w && 0 <= p.1 < h)
}

/// A canvas of the given dimensions with every pixel set to `color`.
pub open spec fn solid_canvas(w: int, h: int, color: (u8, u8, u8, u8)) -> Map<
    (int, int),
    (u8, u8, u8, u8),
> {
    Map::new(|p: (int, int)| 0 <= p.0 < w && 0 <= p.1 < h, |p: (int, int)| color)
}

/// Relies on `ril::Image::new`: a `w` by `h` canvas with every pixel set to
/// the fill color. `ril` requires both dimensions non-zero and multiplies
/// them in 32 bits, hence the bounds.
#[verifier::external_body]
pub(crate) fn new_canvas(w: u32, h: u32, cr: u8, cg: u8, cb: u8, ca: u8) -> (img: Canvas)
    requires
        1 <= w,
        1 <= h,
        w * h <= u32::MAX,
    ensures
        image_dims(img) == (w, h),
        image_pixels(img) == solid_canvas(w as int, h as int, (cr, cg, cb, ca)),
{
    Canvas(ril::Image::new(w, h, ril::Rgba { r: cr, g: cg, b: cb, a: ca }))
}

/// Relies on `ril::Image::dimensions`: the image's width and height.
#[verifier::external_body]
pub(crate) fn image_size(img: &Canvas) -> (r: (u32, u32))
    ensures
        r == image_dims(*img),
{
    img.0.dimensions()
}

/// Relies on `ril::Image::overlay_pixel`: sets the pixel at `(x, y)` to
/// exactly the given color, or does nothing when the coordinate is outside
/// the canvas (the lookup is bounds-checked and fails silently). The call
/// overlays in the image's own overlay mode; both `Canvas` constructors
/// leave it at `ril`'s default, which replaces the pixel outright.
#[verifier::external_body]
pub(crate) fn plot_pixel(img: &mut Canvas, x: u32, y: u32, cr: u8, cg: u8, cb: u8, ca: u8)
    ensures
        image_dims(*final(img)) == image_dims(*old(img)),
        image_pixels(*old(img)).dom().contains((x as int, y as int)) ==> image_pixels(
            *final(img),
        ) == image_pixels(*old(img)).insert((x as int, y as int), (cr, cg, cb, ca)),
        !image_pixels(*old(img)).dom().contains((x as int, y as int)) ==> image_pixels(
            *final(img),
        ) == image_pixels(*old(img)),
{
    img.0.overlay_pixel(x, y, ril::Rgba { r: cr, g: cg, b: cb, a: ca });
}

/// Relies on `ril::Image::encode` with `ImageFormat::Png` writing to a
/// memory buffer: the produced bytes are a function of the image's
/// dimensions and pixels. The call succeeds: writing to a `Vec` cannot
/// fail, and the PNG encoder errors only on zero dimensions or a
/// mismatched pixel buffer, neither of which a `ril` image can present.
#[verifier::external_body]
pub(crate) fn encode_png(img: &Canvas) -> (r: Result<Vec<u8>, ril::Error>)
    ensures
        r is Ok,
        r matches Ok(bytes) ==> bytes@ == png_encoding(
            image_dims(*img).0,
            image_dims(*img).1,
            image_pixels(*img),
        ),
{
    let mut buf: Vec<u8> = Vec::new();
    match img.0.encode(ril::ImageFormat::Png, &mut buf) {
        Ok(()) => Ok(buf),
        Err(e) => Err(e),
    }
}

/// Relies on `ril::Image::from_bytes` with `ImageFormat::Png`: decoding is
/// a function of the bytes alone, succeeding exactly when they parse as a
/// PNG image.
#[verifier::external_body]
pub(crate) fn decode_frame(bytes: &[u8]) -> (r: Result<Canvas, ril::Error>)
    ensures
        r is Ok <==> decoded_frame(bytes@) is Some,
        r matches Ok(img) ==> decoded_frame(bytes@) == Some(
            (image_dims(img), image_pixels(img)),
        ),
{
    match ril::Image::from_bytes(ril::ImageFormat::Png, bytes) {
        Ok(img) => Ok(Canvas(img)),
        Err(e) => Err(e),
    }
}

/// Relies on `ril::ImageSequence::new`: an empty sequence.
#[verifier::external_body]
pub(crate) fn new_sequence() -> (s: FrameSequence)
    ensures
        sequence_frames(s) == Seq::<((u32, u32), Map<(int, int), (u8, u8, u8, u8)>)>::empty(),
{
    FrameSequence(ril::ImageSequence::new())
}

/// Relies on `ril::ImageSequence::push_frame`, the image converted to a
/// frame with the default delay and disposal: appends the image as the next
/// frame.
#[verifier::external_body]
pub(crate) fn push_frame(seq: &mut FrameSequence, img: Canvas)
    ensures
        sequence_frames(*final(seq)) == sequence_frames(*old(seq)).push(
            (image_dims(img), image_pixels(img)),
        ),
{
    seq.0.push_frame(img.0.into());
}

/// Relies on `ril::ImageSequence::encode` with `ImageFormat::Gif` writing
/// to a memory buffer: the produced bytes are a function of the frames
/// alone (palette reduction, speed, delay and loop count are all fixed).
/// The encoder reads the first frame's dimensions and holds every frame to
/// the GIF container's 16-bit dimensions, hence the bounds; under them the
/// call succeeds, since writing to a `Vec` cannot fail.
#[verifier::external_body]
pub(crate) fn encode_gif(seq: &FrameSequence) -> (r: Result<Vec<u8>, ril::Error>)
    requires
        sequence_frames(*seq).len() >= 1,
        forall|i: int|
            0 <= i < sequence_frames(*seq).len() ==> (#[trigger] sequence_frames(*seq)[i]).0.0
                <= 0xFFFF && sequence_frames(*seq)[i].0.1 <= 0xFFFF,
    ensures
        r is Ok,
        r matches Ok(bytes) ==> bytes@ == gif_encoding(sequence_frames(*seq)),
{
    let mut buf: Vec<u8> = Vec::new();
    match seq.0.encode(ril::ImageFormat::Gif, &mut buf) {
        Ok(()) => Ok(buf),
        Err(e) => Err(e),
    }
}

} // verus!
