//! The sequence assembler: ordered frame images to one animated GIF.
//!
//! The assembler receives the bytes of already-rasterized frames, in the
//! order resolved by the caller (a parsed directory listing or an explicit
//! count), decodes each in turn, and encodes the decoded frames into a
//! single looping animation. A frame that does not decode aborts the whole
//! call — partial output is never produced. The frame-rate hint is accepted
//! as advisory metadata only and does not alter the output.
use vstd::prelude::*;

use crate::errors::RenderError;
use crate::imaging::decode_frame;
use crate::imaging::decoded_frame;
use crate::imaging::encode_gif;
use crate::imaging::gif_encoding;
use crate::imaging::image_size;
use crate::imaging::new_sequence;
use crate::imaging::push_frame;
use crate::imaging::sequence_frames;

verus! {

/// Largest frame edge the animation container can carry (GIF dimensions
/// are 16-bit).
pub const MAX_FRAME_DIM: u32 = 0xFFFF;

/// The byte sequences a list of owned frame buffers holds.
pub open spec fn buffer_views(s: Seq<Vec<u8>>) -> Seq<Seq<u8>> {
    s.map_values(|b: Vec<u8>| b@)
}

/// A decoded frame fits the animation container.
pub open spec fn frame_fits(m: ((u32, u32), Map<(int, int), (u8, u8, u8, u8)>)) -> bool {
    m.0.0 <= MAX_FRAME_DIM && m.0.1 <= MAX_FRAME_DIM
}

/// Every frame before `i` decodes and fits the container.
pub open spec fn frames_ok_to(frames: Seq<Seq<u8>>, i: int) -> bool {
    forall|j: int|
        0 <= j < i ==> (decoded_frame(#[trigger] frames[j]) matches Some(m) && frame_fits(m))
}

/// The models of a run of decodable frames, in order.
pub open spec fn decoded_models(frames: Seq<Seq<u8>>) -> Seq<
    ((u32, u32), Map<(int, int), (u8, u8, u8, u8)>),
> {
    Seq::new(frames.len(), |i: int| decoded_frame(frames[i]).unwrap())
}

/// Decodes the given frames in order and encodes them into one looping
/// animated GIF, returned as bytes for the caller to persist.
///
/// Succeeds exactly when the frame list is non-empty and every frame
/// decodes as a PNG image and fits the container. An empty frame list, an
/// undecodable frame and an oversized frame are each rejected with their
/// own error, at the first frame at fault; frames after the fault are
/// never touched. `frame_rate_hint` is an advisory encoding hint and does
/// not affect the result.
pub fn assemble_animation(frames: &Vec<Vec<u8>>, frame_rate_hint: u32) -> (r: Result<
    Vec<u8>,
    RenderError,
>)
    ensures
        frames@.len() == 0 <==> r == Err::<Vec<u8>, RenderError>(RenderError::EmptySequence),
        r == Err::<Vec<u8>, RenderError>(RenderError::UndecodableFrame) <==> exists|i: int|
            0 <= i < frames@.len() && frames_ok_to(buffer_views(frames@), i) && decoded_frame(
                #[trigger] buffer_views(frames@)[i],
            ) is None,
        r == Err::<Vec<u8>, RenderError>(RenderError::FrameTooLarge) <==> exists|i: int|
            0 <= i < frames@.len() && frames_ok_to(buffer_views(frames@), i) && (decoded_frame(
                #[trigger] buffer_views(frames@)[i],
            ) matches Some(m) && !frame_fits(m)),
        frames@.len() > 0 && frames_ok_to(buffer_views(frames@), frames@.len() as int) <==> r
            is Ok,
        r matches Ok(bytes) ==> bytes@ == gif_encoding(decoded_models(buffer_views(frames@))),
{
    let _ = frame_rate_hint;
    if frames.len() == 0 {
        return Err(RenderError::EmptySequence);
    }
    let ghost views = buffer_views(frames@);
    let mut seq_img = new_sequence();
    let mut i: usize = 0;
    while i < frames.len()
        invariant
            i <= frames@.len(),
            frames@.len() > 0,
            views == buffer_views(frames@),
            frames_ok_to(views, i as int),
            sequence_frames(seq_img) == decoded_models(views).take(i as int),
        decreases frames@.len() - i,
    {
        let img = match decode_frame(frames[i].as_slice()) {
            Ok(im) => im,
            Err(_) => {
                return Err(RenderError::UndecodableFrame);
            },
        };
        let dims = image_size(&img);
        if dims.0 > MAX_FRAME_DIM || dims.1 > MAX_FRAME_DIM {
            return Err(RenderError::FrameTooLarge);
        }
        push_frame(&mut seq_img, img);
        proof {
            assert(decoded_models(views).take(i as int + 1) =~= decoded_models(views).take(
                i as int,
            ).push(decoded_frame(views[i as int]).unwrap()));
        }
        i = i + 1;
    }
    proof {
        assert(decoded_models(views).take(frames@.len() as int) =~= decoded_models(views));
        assert(forall|j: int|
            0 <= j < frames@.len() ==> !(decoded_frame(#[trigger] views[j]) is None));
        assert(forall|j: int|
            0 <= j < frames@.len() ==> !(decoded_frame(#[trigger] views[j]) matches Some(m)
                && !frame_fits(m)));
    }
    match encode_gif(&seq_img) {
        Ok(bytes) => Ok(bytes),
        Err(_) => {
            proof {
                assert(false);
            }
            Err(RenderError::EncodeFailed)
        },
    }
}

} // verus!
