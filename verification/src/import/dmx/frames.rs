//! Times and frames: which frame a time falls into, how many frames a clip
//! has, and which keys of a layer belong to it.

use crate::ordered::{index_set_insert_full, index_set_items};
use indexmap::IndexSet;
use vstd::prelude::*;

verus! {

/// The number of time ticks in a second.
pub const TICKS_PER_SECOND: i64 = 10000;

/// The frame that a time falls into at a frame rate: the time in seconds
/// times the rate, rounded up; frame 0 for what comes before it.
pub open spec fn frame_of(ticks: int, rate: int) -> int {
    let product = ticks * rate;
    if product <= 0 {
        0
    } else {
        (product + TICKS_PER_SECOND - 1) / (TICKS_PER_SECOND as int)
    }
}

/// The number of frames of a clip that starts at `start` and lasts
/// `duration`: from the frame of its start to the frame of its end, both
/// counted; one where the end does not come after the start.
pub open spec fn clip_frame_count(start: int, duration: int, rate: int) -> int {
    let first = frame_of(start, rate);
    let last = frame_of(start + duration, rate);
    if last >= first {
        last - first + 1
    } else {
        1
    }
}

/// The frame that a time falls into at a frame rate.
pub fn time_frame(ticks: i64, rate: i32) -> (frame: u64)
    requires
        -0x1_0000_0000 <= ticks <= 0x1_0000_0000,
    ensures
        frame == frame_of(ticks as int, rate as int),
{
    assert(-0x1_0000_0000 * 0x8000_0000 <= (ticks as int) * (rate as int) <= 0x1_0000_0000
        * 0x8000_0000) by (nonlinear_arith)
        requires
            -0x1_0000_0000 <= ticks <= 0x1_0000_0000,
            -0x8000_0000 <= rate <= 0x7fff_ffff,
    ;
    let product: i128 = (ticks as i128) * (rate as i128);
    if product <= 0 {
        0
    } else {
        ((product + 9999) / 10000) as u64
    }
}

/// The number of frames of a clip.
pub fn frame_count_of(start: i32, duration: i32, rate: i32) -> (count: u64)
    ensures
        count == clip_frame_count(start as int, duration as int, rate as int),
        count >= 1,
{
    let first: u64 = time_frame(start as i64, rate);
    let last: u64 = time_frame(start as i64 + duration as i64, rate);
    proof {
        lemma_frame_bound((start + duration) as int, rate as int);
    }
    if last >= first {
        last - first + 1
    } else {
        1
    }
}

/// A frame number is never beyond what the largest time at the largest rate
/// comes to.
pub proof fn lemma_frame_bound(ticks: int, rate: int)
    requires
        -0x1_0000_0000 <= ticks <= 0x1_0000_0000,
        -0x8000_0000 <= rate <= 0x7fff_ffff,
    ensures
        0 <= frame_of(ticks, rate) <= 0x1_0000_0000 * 0x8000_0000,
{
    assert(ticks * rate <= 0x1_0000_0000 * 0x8000_0000) by (nonlinear_arith)
        requires
            -0x1_0000_0000 <= ticks <= 0x1_0000_0000,
            -0x8000_0000 <= rate <= 0x7fff_ffff,
    ;
}

/// For a clip that neither starts before time zero nor runs backwards, at a
/// rate that is not negative, the number of frames is the frame of the end
/// less the frame of the start plus one, where the frame of a time is the
/// time in seconds times the rate, rounded up.
pub proof fn lemma_frame_count(start: int, duration: int, rate: int)
    requires
        start >= 0,
        duration >= 0,
        rate >= 0,
    ensures
        clip_frame_count(start, duration, rate) == frame_of(start + duration, rate) - frame_of(
            start,
            rate,
        ) + 1,
        frame_of(start, rate) * TICKS_PER_SECOND >= start * rate,
        (frame_of(start, rate) - 1) * TICKS_PER_SECOND < start * rate || frame_of(start, rate)
            == 0,
{
    let low = start * rate;
    let high = (start + duration) * rate;
    assert(0 <= low <= high) by (nonlinear_arith)
        requires
            start >= 0,
            duration >= 0,
            rate >= 0,
            low == start * rate,
            high == (start + duration) * rate,
    ;
    if low > 0 {
        vstd::arithmetic::div_mod::lemma_fundamental_div_mod(low + 9999, 10000);
        vstd::arithmetic::div_mod::lemma_mod_bound(low + 9999, 10000);
    }
    if high > 0 && low > 0 {
        vstd::arithmetic::div_mod::lemma_div_is_ordered(low + 9999, high + 9999, 10000);
    }
    if high > 0 && low <= 0 {
        vstd::arithmetic::div_mod::lemma_div_pos_is_pos(high + 9999, 10000);
    }
}

/// A frame number as an index; what no index can say becomes the largest
/// index.
pub open spec fn frame_as_index(frame: int) -> usize {
    if frame > usize::MAX {
        usize::MAX
    } else {
        frame as usize
    }
}

/// A frame number as an index; what no index can say becomes the largest
/// index.
pub(crate) fn frame_index(frame: u64) -> (index: usize)
    ensures
        index == frame_as_index(frame as int),
        frame <= usize::MAX ==> index == frame,
        frame > usize::MAX ==> index == usize::MAX,
{
    if frame > usize::MAX as u64 {
        usize::MAX
    } else {
        frame as usize
    }
}

/// Whether a key at `frame` belongs to a clip: its frame lies from the
/// first frame of the clip up to the frame count.
pub open spec fn key_retained(frame: usize, start_frame: usize, frame_count: usize) -> bool {
    start_frame <= frame <= frame_count
}

/// The keyed frames of a channel, and where the value of each key is
/// found, after the first `count` keys of a layer have been entered. A key
/// for a frame that is keyed already replaces the value and keeps the place.
pub open spec fn keys_entered(
    frames: Seq<usize>,
    sources: Seq<(usize, usize)>,
    layer: usize,
    times: Seq<i32>,
    rate: int,
    start_frame: usize,
    frame_count: usize,
    count: int,
) -> (Seq<usize>, Seq<(usize, usize)>)
    decreases count,
{
    if count <= 0 {
        (frames, sources)
    } else {
        let before = keys_entered(
            frames,
            sources,
            layer,
            times,
            rate,
            start_frame,
            frame_count,
            count - 1,
        );
        let frame = frame_as_index(frame_of(times[count - 1] as int, rate));
        if !key_retained(frame, start_frame, frame_count) {
            before
        } else if before.0.contains(frame) {
            (before.0, before.1.update(before.0.index_of(frame), (layer, (count - 1) as usize)))
        } else {
            (before.0.push(frame), before.1.push((layer, (count - 1) as usize)))
        }
    }
}

/// Enters the keys of one layer into a channel: those whose frame lies from
/// the first frame of the clip up to its frame count.
pub fn load_keys(
    keys: &mut IndexSet<usize>,
    sources: &mut Vec<(usize, usize)>,
    layer: usize,
    times: &Vec<i32>,
    rate: i32,
    start_frame: usize,
    frame_count: usize,
)
    requires
        old(sources)@.len() == index_set_items(*old(keys)).len(),
    ensures
        final(sources)@.len() == index_set_items(*final(keys)).len(),
        (index_set_items(*final(keys)), final(sources)@) == keys_entered(
            index_set_items(*old(keys)),
            old(sources)@,
            layer,
            times@,
            rate as int,
            start_frame,
            frame_count,
            times@.len() as int,
        ),
{
    let ghost first_frames = index_set_items(*keys);
    let ghost first_sources = sources@;
    let mut k: usize = 0;
    while k < times.len()
        invariant
            k <= times@.len(),
            sources@.len() == index_set_items(*keys).len(),
            (index_set_items(*keys), sources@) == keys_entered(
                first_frames,
                first_sources,
                layer,
                times@,
                rate as int,
                start_frame,
                frame_count,
                k as int,
            ),
        decreases times@.len() - k,
    {
        let frame: usize = frame_index(time_frame(times[k] as i64, rate));
        if start_frame <= frame && frame <= frame_count {
            let ghost before = index_set_items(*keys);
            let placed = index_set_insert_full(keys, frame);
            if placed.1 {
                sources.push((layer, k));
            } else {
                proof {
                    let chosen = before.index_of(frame);
                    assert(before[chosen] == frame);
                    assert(chosen == placed.0);
                }
                sources[placed.0] = (layer, k);
            }
        }
        k += 1;
    }
}

} // verus!
