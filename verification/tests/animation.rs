use indexmap::{IndexMap, IndexSet};
use source_wrench::import::manager::FileManager;
use source_wrench::import::{Animation as FileAnimation, Bone as FileBone, Channel, FileData};
use source_wrench::input::{Animation, Sequence, SourceInput};
use source_wrench::names::NameMap;
use source_wrench::process::animation::{
    bake_channel_keyframes, is_animation_used, process_animation, process_animations,
    section_ranges, track_sources, ProcessingAnimationError,
};
use source_wrench::process::sequences::{process_sequences, ProcessingSequenceError};
use source_wrench::process::{Bone, BoneFlags, TrackSource};
use source_wrench::utilities::mathematics::AxisDirection;

fn frames(keys: &[usize]) -> IndexSet<usize> {
    keys.iter().copied().collect()
}

fn processed(bones: &[(&str, Option<usize>)]) -> NameMap<Bone> {
    let mut list = NameMap::new();
    for (i, (name, parent)) in bones.iter().enumerate() {
        list.insert_full(
            name.to_string(),
            Bone { parent: *parent, flags: BoneFlags::used_by_vertex(), source: i },
        );
    }
    list
}

fn file(bones: &[(&str, Option<usize>)], clips: Vec<(&str, FileAnimation)>) -> FileData {
    let mut data = FileData::new(AxisDirection::PositiveZ, AxisDirection::NegativeY);
    for (name, parent) in bones {
        data.skeleton.insert_full(name.to_string(), FileBone { parent: *parent });
    }
    for (name, clip) in clips {
        data.animations.insert_full(name.to_string(), clip);
    }
    data
}

fn clip(frame_count: usize) -> FileAnimation {
    FileAnimation { frame_count, channel_bones: IndexSet::new(), channels: vec![] }
}

fn animation(name: &str, path: Option<&str>, clip: usize, identifier: usize) -> Animation {
    Animation {
        name: name.to_string(),
        source_file_path: path.map(|p| p.to_string()),
        source_animation: clip,
        animation_identifier: identifier,
    }
}

fn sequence(name: &str, grid: Vec<Vec<usize>>) -> Sequence {
    Sequence { name: name.to_string(), animations: grid }
}

fn loaded(files: Vec<(&str, FileData)>) -> FileManager {
    let mut manager = FileManager::new();
    for (path, data) in files {
        manager.load_file(path.to_string());
        manager.finish_load(path, Some(data));
    }
    manager
}

#[test]
fn clip_of_61_frames_is_one_section() {
    assert_eq!(section_ranges(61), vec![(0, 60)]);
}

#[test]
fn short_clips_have_one_section_over_all_frames() {
    assert_eq!(section_ranges(1), vec![(0, 0)]);
    assert_eq!(section_ranges(2), vec![(0, 1)]);
    assert_eq!(section_ranges(119), vec![(0, 118)]);
}

#[test]
fn long_clips_are_cut_every_thirty_frames() {
    assert_eq!(
        section_ranges(120),
        vec![(0, 30), (30, 60), (60, 90), (90, 119), (119, 119), (119, 119)]
    );
    assert_eq!(
        section_ranges(125),
        vec![(0, 30), (30, 60), (60, 90), (90, 120), (120, 124), (124, 124)]
    );
    let ranges = section_ranges(1000);
    assert_eq!(ranges.len(), 1000 / 30 + 2);
    assert_eq!(ranges[33], (990, 999));
    assert_eq!(ranges[34], (999, 999));
}

#[test]
fn frame_without_key_takes_the_key_before() {
    // Keys at frames 2 and 5, entered in the order 5, 2.
    let baked = bake_channel_keyframes(&frames(&[5, 2]), 8);
    assert_eq!(
        baked,
        vec![None, None, Some(1), Some(1), Some(1), Some(0), Some(0), Some(0)]
    );
}

#[test]
fn channel_without_keys_is_rest_pose() {
    assert_eq!(bake_channel_keyframes(&frames(&[]), 3), vec![None, None, None]);
    assert_eq!(bake_channel_keyframes(&frames(&[7, 9]), 3), vec![None, None, None]);
    assert!(bake_channel_keyframes(&frames(&[0]), 0).is_empty());
}

#[test]
fn key_at_frame_zero_covers_all_frames() {
    assert_eq!(bake_channel_keyframes(&frames(&[0]), 3), vec![Some(0), Some(0), Some(0)]);
}

#[test]
fn track_comes_from_the_file_the_parent_or_the_rest_pose() {
    let data = file(&[("spine", None), ("root", Some(0))], vec![("idle", clip(1))]);
    let bones = processed(&[("root", None), ("extra", Some(0)), ("lone", None), ("spine", Some(0))]);
    assert_eq!(
        track_sources(&data, &bones),
        vec![
            TrackSource::Imported(1),
            TrackSource::Parent(0),
            TrackSource::Rest,
            TrackSource::Imported(0)
        ]
    );
}

#[test]
fn animation_lists_frames_and_tracks() {
    let mut channel_bones = IndexSet::new();
    channel_bones.insert(1usize);
    let moving = FileAnimation {
        frame_count: 4,
        channel_bones,
        channels: vec![Channel { location: frames(&[1]), rotation: frames(&[0, 3]) }],
    };
    let data = file(&[("root", None), ("arm", Some(0))], vec![("idle", clip(1)), ("wave", moving)]);
    let bones = processed(&[("root", None), ("arm", Some(0))]);
    let built = process_animation(&"a.dmx".to_string(), &data, 1, &bones);
    assert_eq!(built.frame_count, 4);
    assert_eq!(built.source_file, "a.dmx");
    assert_eq!(built.source_animation, 1);
    assert_eq!(built.imported_tracks.len(), 2);
    assert_eq!(built.imported_tracks[0].location, vec![None; 4]);
    assert_eq!(built.imported_tracks[0].rotation, vec![None; 4]);
    assert_eq!(built.imported_tracks[1].location, vec![None, Some(0), Some(0), Some(0)]);
    assert_eq!(built.imported_tracks[1].rotation, vec![Some(0), Some(0), Some(0), Some(1)]);
    assert_eq!(built.sources, vec![TrackSource::Imported(0), TrackSource::Imported(1)]);
    assert_eq!(built.sections.len(), 1);
    assert_eq!(built.sections[0].len(), 2);
    assert_eq!(built.sections[0][1].bone, 1);
    assert_eq!(built.sections[0][1].first_frame, 0);
    assert_eq!(built.sections[0][1].last_frame, 3);
}

#[test]
fn animation_is_used_where_a_cell_names_it() {
    let sequences = vec![sequence("a", vec![vec![4, 5], vec![6, 4]]), sequence("b", vec![vec![]])];
    assert!(is_animation_used(&sequences, 4));
    assert!(is_animation_used(&sequences, 6));
    assert!(!is_animation_used(&sequences, 7));
    assert!(!is_animation_used(&vec![], 4));
}

#[test]
fn unused_animations_are_dropped_and_the_rest_renumbered() {
    let data = file(&[("root", None)], vec![("idle", clip(1)), ("run", clip(61))]);
    let manager = loaded(vec![("a.dmx", data)]);
    let mut input = SourceInput::default();
    input.animations = vec![
        animation("unused", None, 0, 10),
        animation("run", Some("a.dmx"), 1, 11),
        animation("also unused", Some("missing.dmx"), 0, 12),
        animation("idle", Some("a.dmx"), 0, 13),
    ];
    input.sequences = vec![sequence("s", vec![vec![13, 11]])];
    let bones = processed(&[("root", None)]);
    let data = process_animations(&input, &manager, &bones).ok().unwrap();
    assert_eq!(data.processed_animations.len(), 2);
    assert_eq!(data.processed_animations.name_at(0), "run");
    assert_eq!(data.processed_animations.name_at(1), "idle");
    assert_eq!(data.processed_animations.value_at(0).frame_count, 61);
    assert_eq!(data.processed_animations.value_at(0).sections.len(), 1);
    let mut expected = IndexMap::new();
    expected.insert(11usize, 0usize);
    expected.insert(13usize, 1usize);
    assert_eq!(data.remapped_animations, expected);

    let sequences = process_sequences(&input, &data.remapped_animations).ok().unwrap();
    assert_eq!(sequences.len(), 1);
    assert_eq!(sequences.name_at(0), "s");
    assert_eq!(sequences.value_at(0).animations, vec![vec![1i16, 0]]);
}

#[test]
fn used_animation_without_file_is_an_error() {
    let manager = FileManager::new();
    let mut input = SourceInput::default();
    input.animations = vec![animation("run", None, 0, 1)];
    input.sequences = vec![sequence("s", vec![vec![1]])];
    let bones = processed(&[("root", None)]);
    assert!(matches!(
        process_animations(&input, &manager, &bones),
        Err(ProcessingAnimationError::NoFileSource)
    ));
}

#[test]
fn used_animation_with_unloaded_file_is_an_error() {
    let mut manager = FileManager::new();
    manager.load_file("a.dmx".to_string());
    let mut input = SourceInput::default();
    input.animations = vec![animation("run", Some("a.dmx"), 0, 1)];
    input.sequences = vec![sequence("s", vec![vec![1]])];
    let bones = processed(&[("root", None)]);
    assert!(matches!(
        process_animations(&input, &manager, &bones),
        Err(ProcessingAnimationError::FileSourceNotLoaded)
    ));
}

#[test]
fn more_than_32768_animations_are_too_many() {
    let data = file(&[("root", None)], vec![("idle", clip(1))]);
    let manager = loaded(vec![("a.dmx", data)]);
    let bones = processed(&[("root", None)]);
    let mut input = SourceInput::default();
    let count = 32769;
    input.animations =
        (0..count).map(|i| animation(&format!("a{i}"), Some("a.dmx"), 0, i)).collect();
    input.sequences = vec![sequence("s", vec![(0..count).collect()])];
    assert!(matches!(
        process_animations(&input, &manager, &bones),
        Err(ProcessingAnimationError::TooManyAnimations)
    ));
    input.animations.pop();
    input.sequences = vec![sequence("s", vec![(0..count - 1).collect()])];
    let data = process_animations(&input, &manager, &bones).ok().unwrap();
    assert_eq!(data.processed_animations.len(), 32768);
    let sequences = process_sequences(&input, &data.remapped_animations).ok().unwrap();
    assert_eq!(sequences.value_at(0).animations[0][32767], 32767);
}

#[test]
fn sequence_grid_keeps_its_shape() {
    let mut remap = IndexMap::new();
    remap.insert(7usize, 0usize);
    remap.insert(3usize, 1usize);
    remap.insert(9usize, 2usize);
    let mut input = SourceInput::default();
    input.sequences = vec![
        sequence("walk", vec![vec![7, 3, 9], vec![9, 9, 7]]),
        sequence("empty", vec![]),
        sequence("ragged", vec![vec![3], vec![], vec![7, 7]]),
    ];
    let sequences = process_sequences(&input, &remap).ok().unwrap();
    assert_eq!(sequences.len(), 3);
    assert_eq!(sequences.value_at(0).animations, vec![vec![0i16, 1, 2], vec![2, 2, 0]]);
    assert!(sequences.value_at(1).animations.is_empty());
    assert_eq!(sequences.value_at(2).animations, vec![vec![1i16], vec![], vec![0, 0]]);
    assert_eq!(sequences.name_at(2), "ragged");
}

#[test]
fn no_sequences_give_no_sequences() {
    let input = SourceInput::default();
    let sequences = process_sequences(&input, &IndexMap::new()).ok().unwrap();
    assert_eq!(sequences.len(), 0);
    assert_eq!(ProcessingSequenceError::TooManySequences, ProcessingSequenceError::TooManySequences);
}
