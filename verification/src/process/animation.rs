//! Animations: which frames go into which section, and where the pose of each
//! bone comes from in each frame.

use crate::import::manager::{FileManager, FileStatus};
use crate::import::{animation_sound, FileData};
use crate::input::{Sequence, SourceInput};
use crate::input;
use crate::import;
use crate::names::NameMap;
use crate::ordered::{
    index_map_entries, index_map_insert, index_map_new, index_set_get_index_of, index_set_items,
    index_set_new,
};
use crate::process::{
    AnimatedBoneData, Animation, AnimationData, Bone, ImportedTrack, TrackSource,
    FRAMES_PER_SECTION, MAX_ANIMATIONS, SECTION_SPLIT_THRESHOLD,
};
use indexmap::IndexSet;
use vstd::prelude::*;

verus! {

/// Why the animations could not be built.
#[derive(Clone, Copy, Debug, PartialEq, Eq, Structural)]
pub enum ProcessingAnimationError {
    /// An animation that a sequence uses names no file.
    NoFileSource,
    /// The file of an animation that a sequence uses is not loaded.
    FileSourceNotLoaded,
    /// More than 32768 animations are used.
    TooManyAnimations,
}

/// Whether a cell of a sequence names the animation.
pub open spec fn animation_used(sequences: Seq<Sequence>, identifier: usize) -> bool {
    exists|s: int, r: int, c: int|
        0 <= s < sequences.len() && 0 <= r < sequences[s].animations@.len() && 0 <= c
            < sequences[s].animations@[r]@.len() && #[trigger] sequences[s].animations@[r]@[c]
            == identifier
}

/// Whether a cell of a sequence names the animation.
pub fn is_animation_used(sequences: &Vec<Sequence>, identifier: usize) -> (used: bool)
    ensures
        used == animation_used(sequences@, identifier),
{
    let mut s: usize = 0;
    while s < sequences.len()
        invariant
            s <= sequences@.len(),
            forall|i: int, r: int, c: int|
                0 <= i < s && 0 <= r < sequences@[i].animations@.len() && 0 <= c
                    < sequences@[i].animations@[r]@.len() ==> #[trigger] sequences@[i].animations@[r]@[c]
                    != identifier,
        decreases sequences@.len() - s,
    {
        let grid = &sequences[s].animations;
        let mut r: usize = 0;
        while r < grid.len()
            invariant
                r <= grid@.len(),
                s < sequences@.len(),
                *grid == sequences@[s as int].animations,
                forall|i: int, c: int|
                    0 <= i < r && 0 <= c < grid@[i]@.len() ==> #[trigger] grid@[i]@[c] != identifier,
            decreases grid@.len() - r,
        {
            let row = &grid[r];
            let mut c: usize = 0;
            while c < row.len()
                invariant
                    c <= row@.len(),
                    r < grid@.len(),
                    s < sequences@.len(),
                    *grid == sequences@[s as int].animations,
                    *row == grid@[r as int],
                    forall|i: int| 0 <= i < c ==> #[trigger] row@[i] != identifier,
                decreases row@.len() - c,
            {
                if row[c] == identifier {
                    assert(sequences@[s as int].animations@[r as int]@[c as int] == identifier);
                    return true;
                }
                c += 1;
            }
            r += 1;
        }
        s += 1;
    }
    false
}

/// The key that frame `frame` of a channel takes its value from: the key at
/// the frame, else what the frame before takes; `None`, the rest pose, where
/// no frame up to this one is keyed.
pub open spec fn baked_key(frames: Seq<usize>, frame: int) -> Option<usize>
    decreases frame + 1,
{
    if frame < 0 {
        None
    } else if frames.contains(frame as usize) {
        Some(frames.index_of(frame as usize) as usize)
    } else {
        baked_key(frames, frame - 1)
    }
}

/// For each frame of an animation the key that it takes its value from.
pub fn bake_channel_keyframes(channel: &IndexSet<usize>, frame_count: usize) -> (baked: Vec<
    Option<usize>,
>)
    ensures
        baked@.len() == frame_count,
        forall|f: int|
            0 <= f < frame_count ==> (#[trigger] baked@[f]) == baked_key(
                index_set_items(*channel),
                f,
            ),
{
    let ghost frames = index_set_items(*channel);
    let mut baked: Vec<Option<usize>> = Vec::new();
    let mut last: Option<usize> = None;
    let mut frame: usize = 0;
    while frame < frame_count
        invariant
            frame <= frame_count,
            frames == index_set_items(*channel),
            baked@.len() == frame,
            last == baked_key(frames, frame - 1),
            forall|f: int| 0 <= f < frame ==> (#[trigger] baked@[f]) == baked_key(frames, f),
        decreases frame_count - frame,
    {
        match index_set_get_index_of(channel, frame) {
            Some(key) => {
                proof {
                    let chosen = frames.index_of(frame);
                    assert(frames[chosen] == frame);
                    assert(chosen == key);
                }
                last = Some(key);
            },
            None => {},
        }
        baked.push(last);
        frame += 1;
    }
    baked
}

/// The number of sections of an animation of `frame_count` frames.
pub open spec fn section_count(frame_count: int) -> int {
    if frame_count >= SECTION_SPLIT_THRESHOLD {
        frame_count / (FRAMES_PER_SECTION as int) + 2
    } else {
        1
    }
}

/// The number of frames that a section covers.
pub open spec fn section_length(frame_count: int) -> int {
    if frame_count >= SECTION_SPLIT_THRESHOLD {
        FRAMES_PER_SECTION as int
    } else {
        frame_count
    }
}

/// The smaller of two numbers.
pub open spec fn least(a: int, b: int) -> int {
    if a <= b {
        a
    } else {
        b
    }
}

/// The first frame of section `section`.
pub open spec fn section_first(frame_count: int, section: int) -> int {
    least(section * section_length(frame_count), frame_count - 1)
}

/// The last frame of section `section`.
pub open spec fn section_last(frame_count: int, section: int) -> int {
    least((section + 1) * section_length(frame_count), frame_count - 1)
}

/// The smaller of `factor` times a section length and the last frame.
fn section_bound(factor: usize, frame_count: usize) -> (frame: usize)
    requires
        frame_count >= 1,
        factor <= section_count(frame_count as int),
    ensures
        frame == least(factor * section_length(frame_count as int), frame_count - 1),
{
    if frame_count >= SECTION_SPLIT_THRESHOLD {
        let wide: u128 = (factor as u128) * 30;
        if wide >= (frame_count - 1) as u128 {
            frame_count - 1
        } else {
            wide as usize
        }
    } else {
        assert(factor == 0 || factor == 1);
        assert(0 * (frame_count as int) == 0);
        assert(1 * (frame_count as int) == frame_count);
        if factor == 0 {
            0
        } else {
            frame_count - 1
        }
    }
}

/// The first and the last frame of each section of an animation.
pub fn section_ranges(frame_count: usize) -> (ranges: Vec<(usize, usize)>)
    requires
        frame_count >= 1,
    ensures
        ranges@.len() == section_count(frame_count as int),
        forall|k: int|
            0 <= k < ranges@.len() ==> (#[trigger] ranges@[k]) == (
                section_first(frame_count as int, k) as usize,
                section_last(frame_count as int, k) as usize,
            ),
        forall|k: int|
            0 <= k < ranges@.len() ==> (#[trigger] ranges@[k]).0 <= ranges@[k].1 < frame_count,
{
    let count: usize = if frame_count >= SECTION_SPLIT_THRESHOLD {
        frame_count / FRAMES_PER_SECTION + 2
    } else {
        1
    };
    let mut ranges: Vec<(usize, usize)> = Vec::new();
    let mut k: usize = 0;
    while k < count
        invariant
            k <= count,
            frame_count >= 1,
            count == section_count(frame_count as int),
            ranges@.len() == k,
            forall|i: int|
                0 <= i < k ==> (#[trigger] ranges@[i]) == (
                    section_first(frame_count as int, i) as usize,
                    section_last(frame_count as int, i) as usize,
                ),
            forall|i: int| 0 <= i < k ==> (#[trigger] ranges@[i]).0 <= ranges@[i].1 < frame_count,
        decreases count - k,
    {
        let first: usize = section_bound(k, frame_count);
        let last: usize = section_bound(k + 1, frame_count);
        proof {
            let length = section_length(frame_count as int);
            assert(k * length <= (k + 1) * length) by (nonlinear_arith)
                requires
                    length >= 0,
                    k >= 0,
            ;
        }
        ranges.push((first, last));
        k += 1;
    }
    ranges
}

/// Where the pose of each processed bone comes from in an animation of a
/// file: from the bone of the file that has its name, else from its parent,
/// else from its own rest pose.
pub open spec fn track_source(file: FileData, names: Seq<Seq<char>>, bones: Seq<Bone>, p: int) -> TrackSource {
    if file.skeleton.names().contains(names[p]) {
        TrackSource::Imported(file.skeleton.names().index_of(names[p]) as usize)
    } else {
        match bones[p].parent {
            Some(parent) => TrackSource::Parent(parent),
            None => TrackSource::Rest,
        }
    }
}

/// Where the pose of each processed bone comes from in an animation of a
/// file.
pub fn track_sources(file: &FileData, processed_bones: &NameMap<Bone>) -> (sources: Vec<
    TrackSource,
>)
    ensures
        sources@.len() == processed_bones.names().len(),
        forall|p: int|
            0 <= p < sources@.len() ==> (#[trigger] sources@[p]) == track_source(
                *file,
                processed_bones.names(),
                processed_bones.values(),
                p,
            ),
{
    let count: usize = processed_bones.len();
    let mut sources: Vec<TrackSource> = Vec::new();
    let mut p: usize = 0;
    while p < count
        invariant
            p <= count,
            processed_bones.well_formed(),
            count == processed_bones.names().len(),
            sources@.len() == p,
            forall|i: int|
                0 <= i < p ==> (#[trigger] sources@[i]) == track_source(
                    *file,
                    processed_bones.names(),
                    processed_bones.values(),
                    i,
                ),
        decreases count - p,
    {
        let name = processed_bones.name_at(p);
        let source = match file.skeleton.get_index_of(name.as_str()) {
            Some(index) => {
                proof {
                    let chosen = file.skeleton.names().index_of(name@);
                    assert(file.skeleton.names()[chosen] == name@);
                    assert(chosen == index);
                }
                TrackSource::Imported(index)
            },
            None => match processed_bones.value_at(p).parent {
                Some(parent) => TrackSource::Parent(parent),
                None => TrackSource::Rest,
            },
        };
        sources.push(source);
        p += 1;
    }
    sources
}

/// The frames at which the location, or the rotation, of a bone is keyed in
/// an animation of a file; none where the bone has no channel.
pub open spec fn channel_frames(animation: import::Animation, bone: usize, rotation: bool) -> Seq<
    usize,
> {
    if index_set_items(animation.channel_bones).contains(bone) {
        let channel = animation.channels@[index_set_items(animation.channel_bones).index_of(bone)];
        if rotation {
            index_set_items(channel.rotation)
        } else {
            index_set_items(channel.location)
        }
    } else {
        Seq::empty()
    }
}

/// Whether a track says for each frame which key of the bone it takes.
pub open spec fn track_matches(
    track: ImportedTrack,
    animation: import::Animation,
    bone: usize,
) -> bool {
    &&& track.location@.len() == animation.frame_count
    &&& track.rotation@.len() == animation.frame_count
    &&& forall|f: int|
        0 <= f < animation.frame_count ==> (#[trigger] track.location@[f]) == baked_key(
            channel_frames(animation, bone, false),
            f,
        )
    &&& forall|f: int|
        0 <= f < animation.frame_count ==> (#[trigger] track.rotation@[f]) == baked_key(
            channel_frames(animation, bone, true),
            f,
        )
}

/// Whether the sections are those of an animation of `frame_count` frames
/// for `bones` bones: each section has an entry for each bone, with the
/// frames of the section.
pub open spec fn sections_match(sections: Seq<Vec<AnimatedBoneData>>, frame_count: int, bones: int) -> bool {
    &&& sections.len() == section_count(frame_count)
    &&& forall|k: int| 0 <= k < sections.len() ==> (#[trigger] sections[k])@.len() == bones
    &&& forall|k: int, p: int|
        0 <= k < sections.len() && 0 <= p < bones ==> (#[trigger] sections[k]@[p]) == (
        AnimatedBoneData {
            bone: p as u8,
            first_frame: section_first(frame_count, k) as usize,
            last_frame: section_last(frame_count, k) as usize,
        })
}

/// Whether a processed animation is what clip `clip` of a file gives for
/// the processed bones.
pub open spec fn animation_matches(
    processed: Animation,
    path: String,
    file: FileData,
    clip: int,
    names: Seq<Seq<char>>,
    bones: Seq<Bone>,
) -> bool {
    let source = file.animations.values()[clip];
    &&& processed.frame_count == source.frame_count
    &&& processed.source_file == path
    &&& processed.source_animation == clip
    &&& processed.imported_tracks@.len() == file.skeleton.values().len()
    &&& forall|b: int|
        0 <= b < processed.imported_tracks@.len() ==> track_matches(
            #[trigger] processed.imported_tracks@[b],
            source,
            b as usize,
        )
    &&& processed.sources@.len() == names.len()
    &&& forall|p: int|
        0 <= p < names.len() ==> (#[trigger] processed.sources@[p]) == track_source(
            file,
            names,
            bones,
            p,
        )
    &&& sections_match(processed.sections@, source.frame_count as int, names.len() as int)
}

/// The track of one bone of a file in one of its animations.
fn bake_track(animation: &import::Animation, bone: usize) -> (track: ImportedTrack)
    requires
        animation_sound(*animation),
    ensures
        track_matches(track, *animation, bone),
{
    match index_set_get_index_of(&animation.channel_bones, bone) {
        Some(slot) => {
            proof {
                let bones = index_set_items(animation.channel_bones);
                let chosen = bones.index_of(bone);
                assert(bones[chosen] == bone);
                assert(chosen == slot);
            }
            let channel = &animation.channels[slot];
            ImportedTrack {
                location: bake_channel_keyframes(&channel.location, animation.frame_count),
                rotation: bake_channel_keyframes(&channel.rotation, animation.frame_count),
            }
        },
        None => {
            let nothing = index_set_new();
            ImportedTrack {
                location: bake_channel_keyframes(&nothing, animation.frame_count),
                rotation: bake_channel_keyframes(&nothing, animation.frame_count),
            }
        },
    }
}

/// Builds one animation from a clip of a file.
pub fn process_animation(
    path: &String,
    file: &FileData,
    clip: usize,
    processed_bones: &NameMap<Bone>,
) -> (processed: Animation)
    requires
        file.well_formed(),
        clip < file.animations.values().len(),
        processed_bones.names().len() <= 256,
    ensures
        animation_matches(
            processed,
            *path,
            *file,
            clip as int,
            processed_bones.names(),
            processed_bones.values(),
        ),
{
    let source = file.animations.value_at(clip);
    let frame_count: usize = source.frame_count;
    let imported: usize = file.skeleton.len();
    let mut imported_tracks: Vec<ImportedTrack> = Vec::new();
    let mut b: usize = 0;
    while b < imported
        invariant
            b <= imported,
            animation_sound(*source),
            imported_tracks@.len() == b,
            forall|i: int|
                0 <= i < b ==> track_matches(#[trigger] imported_tracks@[i], *source, i as usize),
        decreases imported - b,
    {
        imported_tracks.push(bake_track(source, b));
        b += 1;
    }
    let sources = track_sources(file, processed_bones);
    let ranges = section_ranges(frame_count);
    let bones: usize = processed_bones.len();
    let mut sections: Vec<Vec<AnimatedBoneData>> = Vec::new();
    let mut k: usize = 0;
    while k < ranges.len()
        invariant
            k <= ranges@.len(),
            bones <= 256,
            ranges@.len() == section_count(frame_count as int),
            forall|i: int|
                0 <= i < ranges@.len() ==> (#[trigger] ranges@[i]) == (
                    section_first(frame_count as int, i) as usize,
                    section_last(frame_count as int, i) as usize,
                ),
            sections@.len() == k,
            forall|i: int| 0 <= i < k ==> (#[trigger] sections@[i])@.len() == bones,
            forall|i: int, p: int|
                0 <= i < k && 0 <= p < bones ==> (#[trigger] sections@[i]@[p]) == (
                AnimatedBoneData {
                    bone: p as u8,
                    first_frame: section_first(frame_count as int, i) as usize,
                    last_frame: section_last(frame_count as int, i) as usize,
                }),
        decreases ranges@.len() - k,
    {
        let range = ranges[k];
        let mut section: Vec<AnimatedBoneData> = Vec::new();
        let mut p: usize = 0;
        while p < bones
            invariant
                p <= bones <= 256,
                section@.len() == p,
                forall|i: int|
                    0 <= i < p ==> (#[trigger] section@[i]) == (AnimatedBoneData {
                        bone: i as u8,
                        first_frame: range.0,
                        last_frame: range.1,
                    }),
            decreases bones - p,
        {
            section.push(AnimatedBoneData { bone: p as u8, first_frame: range.0, last_frame: range.1 });
            p += 1;
        }
        sections.push(section);
        k += 1;
    }
    Animation {
        frame_count,
        sections,
        source_file: path.clone(),
        source_animation: clip,
        imported_tracks,
        sources,
    }
}

/// An animation that is to be processed.
pub struct AnimationJob {
    /// What sequences refer to the animation by.
    pub identifier: usize,
    pub name: String,
    /// The path of the file.
    pub path: String,
    pub data: FileData,
    /// The position of the animation in the file.
    pub clip: usize,
}

/// What is to be done for an animation of the input: nothing where no
/// sequence uses it, a job where its file is loaded, and an error otherwise.
pub open spec fn animation_job(
    input: SourceInput,
    manager: FileManager,
    animation: input::Animation,
) -> Result<Option<AnimationJob>, ProcessingAnimationError> {
    if !animation_used(input.sequences@, animation.animation_identifier) {
        Ok(None)
    } else {
        match animation.source_file_path {
            None => Err(ProcessingAnimationError::NoFileSource),
            Some(path) => match manager.status(path@) {
                Some(FileStatus::Loaded(data)) => Ok(
                    Some(
                        AnimationJob {
                            identifier: animation.animation_identifier,
                            name: animation.name,
                            path,
                            data: *data,
                            clip: animation.source_animation,
                        },
                    ),
                ),
                _ => Err(ProcessingAnimationError::FileSourceNotLoaded),
            },
        }
    }
}

/// The jobs for the first `count` animations of the input; the first error
/// stays.
pub open spec fn animation_jobs(input: SourceInput, manager: FileManager, count: int) -> Result<
    Seq<AnimationJob>,
    ProcessingAnimationError,
>
    decreases count,
{
    if count <= 0 {
        Ok(Seq::empty())
    } else {
        match animation_jobs(input, manager, count - 1) {
            Err(error) => Err(error),
            Ok(jobs) => match animation_job(input, manager, input.animations@[count - 1]) {
                Err(error) => Err(error),
                Ok(None) => Ok(jobs),
                Ok(Some(job)) => Ok(jobs.push(job)),
            },
        }
    }
}

/// For the identifier of each of the first `count` jobs its position.
pub open spec fn remap_of(jobs: Seq<AnimationJob>, count: int) -> Map<usize, usize>
    decreases count,
{
    if count <= 0 {
        Map::empty()
    } else {
        remap_of(jobs, count - 1).insert(jobs[count - 1].identifier, (count - 1) as usize)
    }
}

/// Whether no two animations of the input have the same name.
pub open spec fn animation_names_distinct(input: SourceInput) -> bool {
    forall|a: int, b: int|
        0 <= a < b < input.animations@.len() ==> (#[trigger] input.animations@[a]).name@ != (
        #[trigger] input.animations@[b]).name@
}

/// Whether every animation of the input whose file is loaded names an
/// animation of that file.
pub open spec fn clips_in_range(input: SourceInput, manager: FileManager) -> bool {
    forall|a: int|
        0 <= a < input.animations@.len() ==> ((#[trigger] input.animations@[a]).source_file_path matches Some(
            path,
        ) ==> (manager.status(path@) matches Some(FileStatus::Loaded(data))
            ==> input.animations@[a].source_animation < data.animations.values().len()))
}

/// Once an animation has failed, the error stays whatever animations follow.
pub proof fn lemma_animation_jobs_failed(
    input: SourceInput,
    manager: FileManager,
    failed: int,
    count: int,
)
    requires
        failed <= count,
        animation_jobs(input, manager, failed) is Err,
    ensures
        animation_jobs(input, manager, count) == animation_jobs(input, manager, failed),
    decreases count - failed,
{
    if failed < count {
        lemma_animation_jobs_failed(input, manager, failed, count - 1);
    }
}

/// The jobs of the first animations are names of earlier animations of the
/// input, in their order.
pub proof fn lemma_job_names(input: SourceInput, manager: FileManager, count: int, j: int)
    requires
        0 <= count <= input.animations@.len(),
        animation_jobs(input, manager, count) matches Ok(jobs) && 0 <= j < jobs.len(),
    ensures
        exists|a: int|
            0 <= a < count && (#[trigger] input.animations@[a]).name == animation_jobs(
                input,
                manager,
                count,
            )->Ok_0[j].name,
    decreases count,
{
    if count > 0 {
        let before = animation_jobs(input, manager, count - 1)->Ok_0;
        if j < before.len() {
            lemma_job_names(input, manager, count - 1, j);
            let a = choose|a: int|
                0 <= a < count - 1 && (#[trigger] input.animations@[a]).name == before[j].name;
            assert(input.animations@[a].name == animation_jobs(input, manager, count)->Ok_0[j].name);
        } else {
            assert(input.animations@[count - 1].name == animation_jobs(
                input,
                manager,
                count,
            )->Ok_0[j].name);
        }
    }
}

/// Builds the animations of a model: those that a sequence uses, in the
/// order of the input, and for each of their identifiers its position.
pub fn process_animations(
    input_data: &SourceInput,
    source_files: &FileManager,
    processed_bones: &NameMap<Bone>,
) -> (processed: Result<AnimationData, ProcessingAnimationError>)
    requires
        animation_names_distinct(*input_data),
        clips_in_range(*input_data, *source_files),
        processed_bones.names().len() <= 256,
    ensures
        match animation_jobs(*input_data, *source_files, input_data.animations@.len() as int) {
            Err(error) => processed == Err::<AnimationData, _>(error),
            Ok(jobs) => if jobs.len() > MAX_ANIMATIONS {
                processed matches Err(ProcessingAnimationError::TooManyAnimations)
            } else {
                &&& processed matches Ok(data)
                &&& data.processed_animations.well_formed()
                &&& data.processed_animations.names().len() == jobs.len()
                &&& index_map_entries(data.remapped_animations) == remap_of(jobs, jobs.len() as int)
                &&& forall|j: int|
                    0 <= j < jobs.len() ==> (#[trigger] data.processed_animations.names()[j])
                        == jobs[j].name@ && animation_matches(
                        data.processed_animations.values()[j],
                        jobs[j].path,
                        jobs[j].data,
                        jobs[j].clip as int,
                        processed_bones.names(),
                        processed_bones.values(),
                    )
            },
        },
{
    let mut remapped_animations = index_map_new();
    let mut processed_animations: NameMap<Animation> = NameMap::new();
    let ghost names = processed_bones.names();
    let ghost bones = processed_bones.values();
    let mut a: usize = 0;
    assert(index_map_entries(remapped_animations) =~= remap_of(Seq::empty(), 0));
    while a < input_data.animations.len()
        invariant
            a <= input_data.animations@.len(),
            animation_names_distinct(*input_data),
            clips_in_range(*input_data, *source_files),
            names == processed_bones.names(),
            bones == processed_bones.values(),
            names.len() <= 256,
            processed_animations.well_formed(),
            animation_jobs(*input_data, *source_files, a as int) matches Ok(jobs)
                && processed_animations.names().len() == jobs.len() && index_map_entries(
                remapped_animations,
            ) == remap_of(jobs, jobs.len() as int) && forall|j: int|
                0 <= j < jobs.len() ==> (#[trigger] processed_animations.names()[j])
                    == jobs[j].name@ && animation_matches(
                    processed_animations.values()[j],
                    jobs[j].path,
                    jobs[j].data,
                    jobs[j].clip as int,
                    names,
                    bones,
                ),
        decreases input_data.animations@.len() - a,
    {
        let animation = &input_data.animations[a];
        let ghost jobs = animation_jobs(*input_data, *source_files, a as int)->Ok_0;
        let ghost total = input_data.animations@.len() as int;
        if is_animation_used(&input_data.sequences, animation.animation_identifier) {
            let place: usize = processed_animations.len();
            let _ = index_map_insert(&mut remapped_animations, animation.animation_identifier, place);
            let path = match &animation.source_file_path {
                Some(path) => path,
                None => {
                    proof {
                        lemma_animation_jobs_failed(*input_data, *source_files, a + 1, total);
                    }
                    return Err(ProcessingAnimationError::NoFileSource);
                },
            };
            let data = match source_files.get_file_data(path.as_str()) {
                Some(data) => data,
                None => {
                    proof {
                        lemma_animation_jobs_failed(*input_data, *source_files, a + 1, total);
                    }
                    return Err(ProcessingAnimationError::FileSourceNotLoaded);
                },
            };
            let built = process_animation(path, &data, animation.source_animation, processed_bones);
            proof {
                let known = processed_animations.names();
                if known.contains(animation.name@) {
                    let j = choose|j: int| 0 <= j < known.len() && known[j] == animation.name@;
                    lemma_job_names(*input_data, *source_files, a as int, j);
                    let earlier = choose|e: int|
                        0 <= e < a && (#[trigger] input_data.animations@[e]).name == jobs[j].name;
                    assert(input_data.animations@[earlier].name@ == input_data.animations@[a as int].name@);
                }
            }
            let ghost before_names = processed_animations.names();
            let ghost before_values = processed_animations.values();
            let _ = processed_animations.insert_full(animation.name.clone(), built);
            proof {
                let next = animation_jobs(*input_data, *source_files, a + 1)->Ok_0;
                assert(next == jobs.push(
                    AnimationJob {
                        identifier: animation.animation_identifier,
                        name: animation.name,
                        path: *path,
                        data: *data,
                        clip: animation.source_animation,
                    },
                ));
                assert(remap_of(next, next.len() as int) == remap_of(next, jobs.len() as int).insert(
                    animation.animation_identifier,
                    place,
                ));
                lemma_remap_prefix(jobs, next, jobs.len() as int);
                assert forall|j: int| 0 <= j < next.len() implies (
                #[trigger] processed_animations.names()[j]) == next[j].name@ && animation_matches(
                    processed_animations.values()[j],
                    next[j].path,
                    next[j].data,
                    next[j].clip as int,
                    names,
                    bones,
                ) by {
                    if j < jobs.len() {
                        assert(processed_animations.names()[j] == before_names[j]);
                        assert(processed_animations.values()[j] == before_values[j]);
                        assert(next[j] == jobs[j]);
                    }
                }
            }
        }
        a += 1;
    }
    if processed_animations.len() > MAX_ANIMATIONS {
        return Err(ProcessingAnimationError::TooManyAnimations);
    }
    Ok(AnimationData { processed_animations, remapped_animations })
}

/// Every animation of the input that a sequence uses has a job, and the
/// remap gives the position of a job for its identifier.
pub proof fn lemma_remap_covers(input: SourceInput, manager: FileManager, count: int, a: int)
    requires
        0 <= a < count <= input.animations@.len(),
        animation_used(input.sequences@, input.animations@[a].animation_identifier),
        animation_jobs(input, manager, count) is Ok,
    ensures
        remap_of(
            animation_jobs(input, manager, count)->Ok_0,
            animation_jobs(input, manager, count)->Ok_0.len() as int,
        ).contains_key(input.animations@[a].animation_identifier),
        remap_of(
            animation_jobs(input, manager, count)->Ok_0,
            animation_jobs(input, manager, count)->Ok_0.len() as int,
        )[input.animations@[a].animation_identifier] < animation_jobs(
            input,
            manager,
            count,
        )->Ok_0.len(),
    decreases count,
{
    let jobs = animation_jobs(input, manager, count)->Ok_0;
    let before = animation_jobs(input, manager, count - 1)->Ok_0;
    let identifier = input.animations@[a].animation_identifier;
    let last = animation_job(input, manager, input.animations@[count - 1]);
    match last {
        Ok(Some(job)) => {
            assert(jobs == before.push(job));
            lemma_remap_prefix(before, jobs, before.len() as int);
            assert(remap_of(jobs, jobs.len() as int) == remap_of(jobs, before.len() as int).insert(
                job.identifier,
                before.len() as usize,
            ));
            if a < count - 1 {
                lemma_remap_covers(input, manager, count - 1, a);
            }
        },
        Ok(None) => {
            assert(jobs == before);
            lemma_remap_covers(input, manager, count - 1, a);
        },
        Err(_) => {},
    }
}

/// The positions of the first jobs do not depend on what jobs follow.
pub proof fn lemma_remap_prefix(short: Seq<AnimationJob>, long: Seq<AnimationJob>, count: int)
    requires
        0 <= count <= short.len() <= long.len(),
        forall|j: int| 0 <= j < short.len() ==> short[j] == long[j],
    ensures
        remap_of(short, count) == remap_of(long, count),
    decreases count,
{
    if count > 0 {
        lemma_remap_prefix(short, long, count - 1);
    }
}

} // verus!
