//! Static-color assertion: config → full-device LED frame, expected effect
//! index, and drift comparison.

use vstd::prelude::*;
use crate::config::StaticColor;
use crate::frames::{
    effect_index_from_frames, effect_index_of_bytes, frame_bytes, frames_view,
    lemma_effect_index_nonzero, lemma_single_frame_index, pixel_bytes,
};
use crate::record::{total_leds_of, DeviceRecord};

verus! {

/// One channel scaled by brightness on the 0..=4 scale: c × min(b, 4) / 4,
/// rounded down.
pub open spec fn scaled_channel(c: u8, brightness: u8) -> u8 {
    if brightness >= 4 {
        c
    } else {
        (c as int * brightness as int / 4) as u8
    }
}

/// c × b / 4 rounded down, for b below 4.
fn scale_channel(c: u8, b: u8) -> (r: u8)
    requires
        b < 4,
    ensures
        r == scaled_channel(c, b),
{
    assert(c as int * b as int <= 255 * 3) by (nonlinear_arith)
        requires
            b < 4,
    ;
    assert(c as int * b as int / 4 <= 255 * 3 / 4) by (nonlinear_arith)
        requires
            c as int * b as int <= 255 * 3,
    ;
    ((c as u16 * b as u16) / 4) as u8
}

/// Brightness math: channel × (brightness / 4) clamped to [0, 1],
/// truncated. For brightness 0..=3 the factor is exact in binary (0, ¼, ½,
/// ¾), so this is c × b / 4 rounded down.
pub fn scaled_color(c: [u8; 3], brightness: u8) -> (r: [u8; 3])
    ensures
        r@ == seq![
            scaled_channel(c[0], brightness),
            scaled_channel(c[1], brightness),
            scaled_channel(c[2], brightness),
        ],
{
    if brightness >= 4 {
        assert(c@ =~= seq![c[0], c[1], c[2]]);
        return c;
    }
    let r = [
        scale_channel(c[0], brightness),
        scale_channel(c[1], brightness),
        scale_channel(c[2], brightness),
    ];
    assert(r@ =~= seq![
        scaled_channel(c[0], brightness),
        scaled_channel(c[1], brightness),
        scaled_channel(c[2], brightness),
    ]);
    r
}

/// The full-device single frame for a static color: every LED of the
/// record shows the scaled color.
pub fn static_frame(rec: &DeviceRecord, color: &StaticColor) -> (f: Vec<[u8; 3]>)
    ensures
        f@.len() == total_leds_of(rec.kind, rec.fan_count),
        forall|i: int|
            0 <= i < f@.len() ==> #[trigger] f@[i]@ == seq![
                scaled_channel(color.rgb[0], color.brightness),
                scaled_channel(color.rgb[1], color.brightness),
                scaled_channel(color.rgb[2], color.brightness),
            ],
{
    let px = scaled_color(color.rgb, color.brightness);
    let n = rec.total_leds();
    let mut f: Vec<[u8; 3]> = Vec::new();
    let mut i: u16 = 0;
    while i < n
        invariant
            i <= n,
            f@.len() == i,
            forall|k: int| 0 <= k < f@.len() ==> #[trigger] f@[k] == px,
        decreases n - i,
    {
        f.push(px);
        i += 1;
    }
    f
}

/// The effect index `Dongle::upload_rgb_compressed` will produce for this
/// single frame — compare against the device record's echoed index to
/// detect firmware drift.
pub fn expected_index(frame: &[[u8; 3]]) -> (r: [u8; 4])
    ensures
        r@ == effect_index_of_bytes(pixel_bytes(frame@)),
{
    let mut v: Vec<[u8; 3]> = Vec::new();
    let mut i: usize = 0;
    while i < frame.len()
        invariant
            i <= frame@.len(),
            v@ == frame@.take(i as int),
        decreases frame@.len() - i,
    {
        v.push(frame[i]);
        i += 1;
        assert(v@ =~= frame@.take(i as int));
    }
    assert(frame@.take(frame@.len() as int) =~= frame@);
    let frames = vec![v];
    let r = effect_index_from_frames(frames.as_slice());
    proof {
        let fv = crate::frames::frames_view(frames@);
        assert(fv.drop_last() =~= Seq::<Seq<[u8; 3]>>::empty());
        assert(fv.last() == frame@);
        assert(frame_bytes(fv.drop_last()) =~= Seq::<u8>::empty());
        assert(frame_bytes(fv) =~= pixel_bytes(frame@));
    }
    r
}

/// Whether the device reports an effect index other than the expected one.
pub fn drifted(expected: &[u8; 4], reported: &[u8; 4]) -> (b: bool)
    ensures
        b == (expected@ != reported@),
{
    let same = expected[0] == reported[0] && expected[1] == reported[1] && expected[2]
        == reported[2] && expected[3] == reported[3];
    if same {
        assert(expected@ =~= reported@);
    }
    !same
}

/// Law: the effect index an upload of a one-frame animation returns (the
/// index of its frames, as `Dongle::upload_rgb_compressed` states it) is
/// `expected_index` of that frame — the same as `effect_index_from_leds` —
/// and is never all zero, so a device that never got an upload cannot match it
/// by accident.
pub proof fn lemma_single_frame_upload_index(frames: Seq<Vec<[u8; 3]>>)
    requires
        frames.len() == 1,
    ensures
        effect_index_of_bytes(frame_bytes(frames_view(frames))) == effect_index_of_bytes(
            pixel_bytes(frames[0]@),
        ),
        effect_index_of_bytes(frame_bytes(frames_view(frames))) != seq![0u8, 0u8, 0u8, 0u8],
{
    assert(frames_view(frames) =~= seq![frames[0]@]);
    lemma_single_frame_index(frames[0]@);
    lemma_effect_index_nonzero(frame_bytes(frames_view(frames)));
}

} // verus!
