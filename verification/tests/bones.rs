use indexmap::IndexSet;
use source_wrench::import::manager::FileManager;
use source_wrench::import::{Animation as FileAnimation, Bone as FileBone, FileData, Part, Vertex};
use source_wrench::input::{Animation, BodyGroup, Model, SourceInput};
use source_wrench::names::NameMap;
use source_wrench::process::bones::{
    collapse_unused_bones, gather_skeleton_uses, mark_used_bones, process_bones, unify_skeletons,
    ProcessingBoneError, SkeletonUse,
};
use source_wrench::process::{BoneFlags, SourceBone, USED_BY_VERTEX};
use source_wrench::utilities::mathematics::AxisDirection;
use std::sync::Arc;

/// A file with a chain or tree of bones and one part "body" whose vertices
/// are linked as given.
fn file(bones: &[(&str, Option<usize>)], links: &[&[usize]]) -> FileData {
    let mut data = FileData::new(AxisDirection::PositiveZ, AxisDirection::NegativeY);
    for (name, parent) in bones {
        data.skeleton.insert_full(name.to_string(), FileBone { parent: *parent });
    }
    data.animations.insert_full(
        "idle".to_string(),
        FileAnimation { frame_count: 1, channel_bones: IndexSet::new(), channels: vec![] },
    );
    if !links.is_empty() {
        let vertices: Vec<Vertex> = links
            .iter()
            .map(|bones| Vertex { links: bones.iter().copied().collect::<IndexSet<usize>>() })
            .collect();
        let mut faces = NameMap::new();
        faces.insert_full("skin".to_string(), Vec::new());
        data.parts.insert_full(
            "body".to_string(),
            Part { vertices, faces, flexes: NameMap::new() },
        );
    }
    data
}

fn model(name: &str, path: Option<&str>) -> Model {
    Model {
        name: name.to_string(),
        blank: false,
        source_file_path: path.map(|p| p.to_string()),
        disabled_parts: IndexSet::new(),
    }
}

fn input(models: Vec<Model>, animations: Vec<Animation>) -> SourceInput {
    let mut input = SourceInput::default();
    input.model_groups.push(BodyGroup { name: "group".to_string(), models });
    input.animations = animations;
    input
}

fn loaded(files: Vec<(&str, FileData)>) -> FileManager {
    let mut manager = FileManager::new();
    for (path, data) in files {
        manager.load_file(path.to_string());
        manager.finish_load(path, Some(data));
    }
    manager
}

fn names<V>(list: &NameMap<V>) -> Vec<String> {
    (0..list.len()).map(|i| list.name_at(i).clone()).collect()
}

fn source(list: &[(&str, Option<usize>, bool)]) -> NameMap<SourceBone> {
    let mut bones = NameMap::new();
    for (i, (name, parent, used)) in list.iter().enumerate() {
        bones.insert_full(
            name.to_string(),
            SourceBone {
                parent: *parent,
                flags: BoneFlags { bits: if *used { USED_BY_VERTEX } else { 0 } },
                file: 0,
                bone: i,
            },
        );
    }
    bones
}

#[test]
fn flags_hold_used_by_vertex() {
    let mut flags = BoneFlags::empty();
    assert!(flags.is_empty());
    assert!(!flags.contains(BoneFlags::used_by_vertex()));
    flags.insert(BoneFlags::default());
    assert!(flags.is_empty());
    flags.insert(BoneFlags::used_by_vertex());
    assert!(!flags.is_empty());
    assert_eq!(flags.bits, 0x400);
    assert!(flags.contains(BoneFlags::used_by_vertex()));
    flags.insert(BoneFlags::used_by_vertex());
    assert_eq!(flags.bits, 0x400);
}

#[test]
fn bones_are_marked_by_the_links_of_enabled_parts() {
    let data = file(&[("root", None), ("helper", Some(0)), ("limb", Some(1))], &[&[2], &[2, 0]]);
    assert_eq!(mark_used_bones(&data, &IndexSet::new()), vec![true, false, true]);
    let mut disabled = IndexSet::new();
    disabled.insert("body".to_string());
    assert_eq!(mark_used_bones(&data, &disabled), vec![false, false, false]);
    let mut other = IndexSet::new();
    other.insert("head".to_string());
    assert_eq!(mark_used_bones(&data, &other), vec![true, false, true]);
}

#[test]
fn collapse_keeps_used_bones_under_their_nearest_used_ancestor() {
    let bones = source(&[
        ("root", None, true),
        ("helper", Some(0), false),
        ("limb", Some(1), true),
        ("tip", Some(2), false),
        ("other", Some(1), true),
    ]);
    let kept = collapse_unused_bones(&bones);
    assert_eq!(names(&kept), vec!["root", "limb", "other"]);
    assert_eq!(kept.value_at(0).parent, None);
    assert_eq!(kept.value_at(1).parent, Some(0));
    assert_eq!(kept.value_at(2).parent, Some(0));
    assert_eq!(kept.value_at(0).source, 0);
    assert_eq!(kept.value_at(1).source, 2);
    assert_eq!(kept.value_at(2).source, 4);
    assert_eq!(kept.value_at(1).flags.bits, USED_BY_VERTEX);
}

#[test]
fn collapse_of_an_unused_root_makes_its_children_roots() {
    let bones = source(&[("root", None, false), ("helper", Some(0), false), ("limb", Some(1), true)]);
    let kept = collapse_unused_bones(&bones);
    assert_eq!(names(&kept), vec!["limb"]);
    assert_eq!(kept.value_at(0).parent, None);
    assert_eq!(kept.value_at(0).source, 2);
}

#[test]
fn collapse_of_nothing_used_leaves_nothing() {
    let bones = source(&[("root", None, false), ("limb", Some(0), false)]);
    assert_eq!(collapse_unused_bones(&bones).len(), 0);
    assert_eq!(collapse_unused_bones(&NameMap::new()).len(), 0);
}

#[test]
fn collapse_is_what_removing_one_by_one_gives() {
    // Left to right, every bone without a flag goes; the bones behind it
    // that it was the parent of go to its parent, and greater parents come
    // down by one.
    let list: Vec<(&str, Option<usize>, bool)> = vec![
        ("a", None, false),
        ("b", Some(0), true),
        ("c", Some(0), false),
        ("d", Some(2), false),
        ("e", Some(3), true),
        ("f", Some(1), false),
        ("g", Some(5), true),
        ("h", None, true),
        ("i", Some(7), false),
        ("j", Some(8), true),
    ];
    let mut stepwise: Vec<(String, Option<usize>, bool)> =
        list.iter().map(|(n, p, u)| (n.to_string(), *p, *u)).collect();
    let mut current = 0;
    while current < stepwise.len() {
        if stepwise[current].2 {
            current += 1;
            continue;
        }
        let parent = stepwise[current].1;
        stepwise.remove(current);
        for bone in stepwise.iter_mut().skip(current) {
            if let Some(above) = bone.1 {
                if above == current {
                    bone.1 = parent;
                } else if above >= current {
                    bone.1 = Some(above - 1);
                }
            }
        }
    }
    let kept = collapse_unused_bones(&source(&list));
    assert_eq!(kept.len(), stepwise.len());
    for (i, (name, parent, _)) in stepwise.iter().enumerate() {
        assert_eq!(kept.name_at(i), name);
        assert_eq!(kept.value_at(i).parent, *parent);
    }
    assert_eq!(names(&kept), vec!["b", "e", "g", "h", "j"]);
    assert_eq!(kept.value_at(1).parent, None);
    assert_eq!(kept.value_at(2).parent, Some(0));
    assert_eq!(kept.value_at(4).parent, Some(3));
}

#[test]
fn union_takes_the_first_definition_and_joins_the_flags() {
    let first = Arc::new(file(&[("root", None), ("spine", Some(0))], &[]));
    let second = Arc::new(file(&[("spine", None), ("root", Some(0)), ("arm", Some(1))], &[]));
    let uses = vec![
        SkeletonUse { path: "a".to_string(), data: first, used: vec![false, true] },
        SkeletonUse { path: "b".to_string(), data: second, used: vec![false, true, true] },
    ];
    let bones = unify_skeletons(&uses);
    assert_eq!(names(&bones), vec!["root", "spine", "arm"]);
    assert_eq!(bones.value_at(0).parent, None);
    assert_eq!(bones.value_at(1).parent, Some(0));
    assert_eq!(bones.value_at(2).parent, Some(0));
    assert_eq!(bones.value_at(0).flags.bits, USED_BY_VERTEX);
    assert_eq!(bones.value_at(1).flags.bits, USED_BY_VERTEX);
    assert_eq!(bones.value_at(2).flags.bits, USED_BY_VERTEX);
    assert_eq!((bones.value_at(0).file, bones.value_at(0).bone), (0, 0));
    assert_eq!((bones.value_at(2).file, bones.value_at(2).bone), (1, 2));
}

#[test]
fn unused_bone_between_used_ones_collapses() {
    // Root and limb carry vertices, the helper between them does not.
    let data = file(&[("root", None), ("helper", Some(0)), ("limb", Some(1))], &[&[2], &[0]]);
    let manager = loaded(vec![("m.dmx", data)]);
    let input = input(vec![model("body", Some("m.dmx"))], vec![]);
    let bones = process_bones(&input, &manager).ok().unwrap();
    assert_eq!(names(&bones.processed_bones), vec!["root", "limb"]);
    assert_eq!(bones.processed_bones.value_at(1).parent, bones.processed_bones.get_index_of("root"));
    assert_eq!(bones.processed_bones.value_at(1).source, 2);
    assert_eq!(names(&bones.source_bones), vec!["root", "helper", "limb"]);
    assert_eq!(bones.source_bones.value_at(2).parent, Some(1));
    assert_eq!(bones.source_files, vec!["m.dmx".to_string()]);
    assert_eq!(bones.sorted_bones_by_name, vec![1, 0]);
}

#[test]
fn vertex_on_the_limb_alone_keeps_the_limb_alone() {
    let data = file(&[("root", None), ("helper", Some(0)), ("limb", Some(1))], &[&[2]]);
    let manager = loaded(vec![("m.dmx", data)]);
    let input = input(vec![model("body", Some("m.dmx"))], vec![]);
    let bones = process_bones(&input, &manager).ok().unwrap();
    assert_eq!(names(&bones.processed_bones), vec!["limb"]);
    assert_eq!(bones.processed_bones.value_at(0).parent, None);
}

#[test]
fn animation_files_bring_bones_without_flags() {
    let mesh = file(&[("root", None)], &[&[0]]);
    let motion = file(&[("root", None), ("tail", Some(0))], &[&[1]]);
    let manager = loaded(vec![("m.dmx", mesh), ("a.dmx", motion)]);
    let animation = Animation {
        name: "wag".to_string(),
        source_file_path: Some("a.dmx".to_string()),
        source_animation: 0,
        animation_identifier: 0,
    };
    let input = input(vec![model("body", Some("m.dmx"))], vec![animation]);
    let bones = process_bones(&input, &manager).ok().unwrap();
    assert_eq!(names(&bones.source_bones), vec!["root", "tail"]);
    assert_eq!(bones.source_bones.value_at(1).flags.bits, 0);
    assert_eq!(names(&bones.processed_bones), vec!["root"]);
    assert_eq!(bones.source_files, vec!["m.dmx".to_string(), "a.dmx".to_string()]);
}

#[test]
fn blank_models_are_passed_over() {
    let manager = loaded(vec![("m.dmx", file(&[("root", None)], &[&[0]]))]);
    let mut blank = model("nothing", None);
    blank.blank = true;
    let input = input(vec![blank, model("body", Some("m.dmx"))], vec![]);
    let uses = gather_skeleton_uses(&input, &manager).ok().unwrap();
    assert_eq!(uses.len(), 1);
    assert_eq!(uses[0].path, "m.dmx");
    assert_eq!(uses[0].used, vec![true]);
}

#[test]
fn model_without_file_is_an_error() {
    let manager = FileManager::new();
    let input = input(vec![model("body", None)], vec![]);
    match process_bones(&input, &manager) {
        Err(ProcessingBoneError::NoModelFileSource(model, group)) => {
            assert_eq!(model, "body");
            assert_eq!(group, "group");
        }
        _ => panic!("expected NoModelFileSource"),
    }
}

#[test]
fn file_that_is_not_loaded_is_an_error() {
    let mut manager = FileManager::new();
    manager.load_file("m.dmx".to_string());
    let input = input(vec![model("body", Some("m.dmx"))], vec![]);
    match process_bones(&input, &manager) {
        Err(ProcessingBoneError::FileSourceNotLoaded(path)) => assert_eq!(path, "m.dmx"),
        _ => panic!("expected FileSourceNotLoaded"),
    }
    let input = self::input(vec![model("body", Some("other.dmx"))], vec![]);
    assert!(matches!(
        process_bones(&input, &manager),
        Err(ProcessingBoneError::FileSourceNotLoaded(_))
    ));
}

#[test]
fn animation_without_file_is_an_error() {
    let manager = loaded(vec![("m.dmx", file(&[("root", None)], &[&[0]]))]);
    let animation = Animation::default();
    let input = input(vec![model("body", Some("m.dmx"))], vec![animation]);
    match process_bones(&input, &manager) {
        Err(ProcessingBoneError::NoAnimationFileSource(name)) => assert_eq!(name, "New Animation"),
        _ => panic!("expected NoAnimationFileSource"),
    }
}

#[test]
fn first_error_in_input_order_wins() {
    let manager = FileManager::new();
    let input = input(vec![model("a", Some("x.dmx")), model("b", None)], vec![Animation::default()]);
    assert!(matches!(
        process_bones(&input, &manager),
        Err(ProcessingBoneError::FileSourceNotLoaded(_))
    ));
}

#[test]
fn more_than_128_bones_are_too_many() {
    let names: Vec<String> = (0..129).map(|i| format!("bone{i:03}")).collect();
    let bones: Vec<(&str, Option<usize>)> =
        names.iter().enumerate().map(|(i, n)| (n.as_str(), if i == 0 { None } else { Some(0) })).collect();
    let all: Vec<usize> = (0..129).collect();
    let links: Vec<&[usize]> = vec![&all];
    let manager = loaded(vec![("m.dmx", file(&bones, &links))]);
    let input = input(vec![model("body", Some("m.dmx"))], vec![]);
    assert!(matches!(process_bones(&input, &manager), Err(ProcessingBoneError::TooManyBones)));

    let fewer: Vec<usize> = (0..128).collect();
    let links: Vec<&[usize]> = vec![&fewer];
    let manager = loaded(vec![("m.dmx", file(&bones, &links))]);
    let bones = process_bones(&input, &manager).ok().unwrap();
    assert_eq!(bones.processed_bones.len(), 128);
    assert_eq!(bones.sorted_bones_by_name.len(), 128);
    assert_eq!(bones.sorted_bones_by_name[127], 127);
}

#[test]
fn input_defaults_have_their_names() {
    assert_eq!(BodyGroup::default().name, "New Body Group");
    assert_eq!(Model::default().name, "New Model");
    assert!(!Model::default().blank);
    assert_eq!(Animation::default().name, "New Animation");
    assert_eq!(source_wrench::input::Sequence::default().name, "New Sequence");
    assert_eq!(source_wrench::input::DefineBone::default().name, "New Bone");
    assert!(SourceInput::default().model_groups.is_empty());
}
