use indexmap::IndexSet;
use source_wrench::import::dmx::attributes::find_value;
use source_wrench::import::dmx::faces::{split_faces, FaceFault};
use source_wrench::import::dmx::frames::{frame_count_of, load_keys, time_frame};
use source_wrench::import::dmx::vertices::{deduplicate_vertices, skin_vertex, SkinFault};
use source_wrench::import::dmx::{
    check_header, load_dmx, DmxDocument, DmxElement, DmxValue, ParseDMXError,
};
use source_wrench::names::NameMap;
use source_wrench::utilities::mathematics::AxisDirection;

struct Builder {
    elements: Vec<DmxElement>,
}

impl Builder {
    fn new() -> Self {
        Builder { elements: Vec::new() }
    }

    fn add(&mut self, name: &str, attributes: Vec<(&str, DmxValue)>) -> usize {
        let mut list = NameMap::new();
        for (key, value) in attributes {
            list.insert_full(key.to_string(), value);
        }
        let id = 1000 + self.elements.len() as u128;
        self.elements.push(DmxElement { name: name.to_string(), id, attributes: list });
        self.elements.len() - 1
    }

    fn transform(&mut self) -> usize {
        self.add(
            "transform",
            vec![("position", DmxValue::Vector3), ("orientation", DmxValue::Quaternion)],
        )
    }

    fn joint(&mut self, name: &str, children: Vec<usize>) -> usize {
        let transform = self.transform();
        self.add(
            name,
            vec![
                ("transform", DmxValue::Element(Some(transform))),
                ("children", DmxValue::ElementArray(children.into_iter().map(Some).collect())),
            ],
        )
    }

    fn document(self, root: usize, version: i32) -> DmxDocument {
        DmxDocument {
            format: "model".to_string(),
            format_version: version,
            elements: self.elements,
            root,
        }
    }
}

fn elements(list: Vec<usize>) -> DmxValue {
    DmxValue::ElementArray(list.into_iter().map(Some).collect())
}

fn id_of(document: &DmxDocument, element: usize) -> u128 {
    document.elements[element].id
}

/// A cube: eight corners, six quads, one joint, no weights.
fn cube(joint_count: i32) -> (DmxDocument, usize) {
    let mut b = Builder::new();
    let root_joint = b.joint("root", vec![]);
    let skeleton = b.add("skeleton", vec![("children", elements(vec![root_joint]))]);
    let quads = [[0, 1, 2, 3], [4, 5, 6, 7], [0, 1, 5, 4], [2, 3, 7, 6], [1, 2, 6, 5], [0, 3, 7, 4]];
    let corners: Vec<i32> = quads.iter().flatten().copied().collect();
    let mut bind_attributes = vec![
        ("positionsIndices", DmxValue::IntegerArray(corners.clone())),
        ("positions", DmxValue::Vector3Array(8)),
        ("normalsIndices", DmxValue::IntegerArray(corners.clone())),
        ("normals", DmxValue::Vector3Array(8)),
        ("textureCoordinatesIndices", DmxValue::IntegerArray(corners.clone())),
        ("textureCoordinates", DmxValue::Vector2Array(8)),
        ("jointCount", DmxValue::Integer(joint_count)),
    ];
    if joint_count > 0 {
        bind_attributes.push(("jointIndices", DmxValue::IntegerArray(vec![0; 8 * joint_count as usize])));
        bind_attributes.push(("jointWeights", DmxValue::FloatArray(8 * joint_count as usize)));
    }
    let bind = b.add("bind", bind_attributes);
    let material = b.add("material", vec![("mtlName", DmxValue::Text("stone".to_string()))]);
    let mut faces = Vec::new();
    for q in 0..6 {
        for c in 0..4 {
            faces.push((4 * q + c) as i32);
        }
        faces.push(-1);
    }
    let face_set = b.add(
        "faces",
        vec![("faces", DmxValue::IntegerArray(faces)), ("material", DmxValue::Element(Some(material)))],
    );
    let shape = b.add(
        "cube",
        vec![("baseStates", elements(vec![bind])), ("faceSets", elements(vec![face_set]))],
    );
    let transform = b.transform();
    let node = b.add(
        "cube_node",
        vec![
            ("transform", DmxValue::Element(Some(transform))),
            ("shape", DmxValue::Element(Some(shape))),
        ],
    );
    let model = b.add(
        "model",
        vec![("jointList", elements(vec![root_joint])), ("children", elements(vec![node]))],
    );
    let root = b.add(
        "root",
        vec![
            ("skeleton", DmxValue::Element(Some(skeleton))),
            ("model", DmxValue::Element(Some(model))),
        ],
    );
    (b.document(root, 18), root)
}

/// A skeleton of one joint and one clip with one channel that targets the
/// element `target`.
fn clip_document(version: i32, rate: i32, start: i32, duration: i32, times: Vec<i32>, target_name: &str) -> (DmxDocument, usize, usize) {
    let mut b = Builder::new();
    let joint = b.joint("root", vec![]);
    let skeleton = b.add("skeleton", vec![("children", elements(vec![joint]))]);
    let count = times.len();
    let layer = b.add(
        "layer",
        vec![
            (
                "times",
                if version < 2 { DmxValue::IntegerArray(times) } else { DmxValue::TimeArray(times) },
            ),
            ("values", DmxValue::Vector3Array(count)),
        ],
    );
    let log = b.add("log", vec![("layers", elements(vec![layer]))]);
    let target = b.add(target_name, vec![]);
    let channel = b.add(
        "channel",
        vec![
            ("toElement", DmxValue::Element(Some(target))),
            ("toAttribute", DmxValue::Text("position".to_string())),
            ("log", DmxValue::Element(Some(log))),
        ],
    );
    let frame = if version < 2 {
        b.add(
            "timeFrame",
            vec![("startTime", DmxValue::Integer(start)), ("durationTime", DmxValue::Integer(duration))],
        )
    } else {
        b.add("timeFrame", vec![("start", DmxValue::Time(start)), ("duration", DmxValue::Time(duration))])
    };
    let clip = b.add(
        "walk",
        vec![
            ("frameRate", DmxValue::Integer(rate)),
            ("timeFrame", DmxValue::Element(Some(frame))),
            ("channels", elements(vec![channel])),
        ],
    );
    let list = b.add("animationList", vec![("animations", elements(vec![clip]))]);
    let root = b.add(
        "root",
        vec![
            ("skeleton", DmxValue::Element(Some(skeleton))),
            ("animationList", DmxValue::Element(Some(list))),
        ],
    );
    (b.document(root, version), channel, target)
}

#[test]
fn header_has_to_be_a_model_of_version_1_to_18() {
    assert!(check_header("model", 1).is_ok());
    assert!(check_header("model", 18).is_ok());
    assert!(matches!(check_header("model", 0), Err(ParseDMXError::UnsupportedFormatVersion)));
    assert!(matches!(check_header("model", 19), Err(ParseDMXError::UnsupportedFormatVersion)));
    assert!(matches!(check_header("model", -3), Err(ParseDMXError::UnsupportedFormatVersion)));
    assert!(matches!(check_header("sfm_session", 18), Err(ParseDMXError::FormatNotModel)));
    assert!(matches!(check_header("Model", 18), Err(ParseDMXError::FormatNotModel)));
    assert!(matches!(check_header("", 99), Err(ParseDMXError::FormatNotModel)));
}

#[test]
fn frame_is_time_times_rate_rounded_up() {
    assert_eq!(time_frame(0, 30), 0);
    assert_eq!(time_frame(20000, 30), 60);
    assert_eq!(time_frame(1, 30), 1);
    assert_eq!(time_frame(333, 30), 1);
    assert_eq!(time_frame(334, 30), 2);
    assert_eq!(time_frame(10000, 24), 24);
    assert_eq!(time_frame(10001, 24), 25);
    assert_eq!(time_frame(-5000, 30), 0);
    assert_eq!(time_frame(5000, -30), 0);
    assert_eq!(time_frame(1000, 30), 3);
}

#[test]
fn two_seconds_at_thirty_frames_are_61_frames() {
    assert_eq!(frame_count_of(0, 20000, 30), 61);
}

#[test]
fn frame_count_is_end_frame_less_start_frame_plus_one() {
    assert_eq!(frame_count_of(0, 0, 30), 1);
    assert_eq!(frame_count_of(5000, 10000, 24), 25);
    assert_eq!(frame_count_of(10000, 20000, 30), 61);
    assert_eq!(frame_count_of(1, 1, 30), 1);
    assert_eq!(frame_count_of(333, 1, 30), 2);
    for (start, duration, rate) in [(0, 12345, 30), (777, 4321, 24), (10000, 1, 60), (3, 99999, 7)] {
        let ceil = |ticks: i64| ((ticks * rate as i64) as f64 / 10000.0).ceil() as u64;
        assert_eq!(
            frame_count_of(start, duration, rate),
            ceil(start as i64 + duration as i64) - ceil(start as i64) + 1
        );
    }
}

#[test]
fn clip_that_runs_backwards_has_one_frame() {
    assert_eq!(frame_count_of(20000, -10000, 30), 1);
    assert_eq!(frame_count_of(0, 20000, 0), 1);
    assert_eq!(
        frame_count_of(i32::MAX, i32::MAX, i32::MAX),
        922337202826485 - 461168601413243 + 1
    );
}

#[test]
fn unique_vertices_come_in_order_of_first_use() {
    let unique = deduplicate_vertices(&vec![0, 1, 0, 2, 1], &vec![5, 5, 5, 5, 6], &vec![9, 9, 9, 9, 9]);
    assert_eq!(unique.vertices, vec![(0, 5, 9), (1, 5, 9), (2, 5, 9), (1, 6, 9)]);
    assert_eq!(unique.remap, vec![0, 1, 0, 2, 3]);
    let none = deduplicate_vertices(&vec![], &vec![], &vec![]);
    assert!(none.vertices.is_empty() && none.remap.is_empty());
}

#[test]
fn faces_are_closed_by_minus_one_and_reversed() {
    let remap = vec![10, 11, 12, 13, 14];
    assert_eq!(
        split_faces(&vec![0, 1, 2, -1, 2, 3, 4, 0, -1], &remap),
        Ok(vec![vec![12, 11, 10], vec![10, 14, 13, 12]])
    );
    assert_eq!(split_faces(&vec![], &remap), Ok(vec![]));
    assert_eq!(split_faces(&vec![0, 1, 2], &remap), Ok(vec![]));
    assert_eq!(split_faces(&vec![0, 1, 2, -1, 3, 4], &remap), Ok(vec![vec![12, 11, 10]]));
}

#[test]
fn face_with_fewer_than_three_vertices_is_incomplete() {
    let remap = vec![0, 1, 2];
    assert_eq!(split_faces(&vec![0, 1, -1], &remap), Err(FaceFault::Incomplete));
    assert_eq!(split_faces(&vec![-1], &remap), Err(FaceFault::Incomplete));
    assert_eq!(split_faces(&vec![0, 1, 2, -1, -1], &remap), Err(FaceFault::Incomplete));
}

#[test]
fn face_index_beyond_the_entries_is_out_of_range() {
    let remap = vec![0, 1, 2];
    assert_eq!(split_faces(&vec![0, 1, 3, -1], &remap), Err(FaceFault::OutOfRange));
    assert_eq!(split_faces(&vec![0, -2, 1, -1], &remap), Err(FaceFault::OutOfRange));
    assert_eq!(split_faces(&vec![0, 1, -1, 7], &remap), Err(FaceFault::Incomplete));
}

#[test]
fn value_is_found_by_its_name() {
    let mut b = Builder::new();
    let e = b.add("e", vec![("count", DmxValue::Integer(3))]);
    assert!(matches!(find_value(&b.elements[e], "count"), Some(DmxValue::Integer(3))));
    assert!(find_value(&b.elements[e], "Count").is_none());
}

#[test]
fn cube_document_gives_a_cube() {
    let (document, _) = cube(0);
    let import = load_dmx(&document, "cube".to_string()).ok().unwrap();
    let data = &import.data;
    assert_eq!(data.up, AxisDirection::PositiveZ);
    assert_eq!(data.forward, AxisDirection::NegativeY);
    assert_eq!(data.skeleton.len(), 1);
    assert_eq!(data.skeleton.name_at(0), "root");
    assert_eq!(data.skeleton.value_at(0).parent, None);
    assert_eq!(data.animations.len(), 1);
    assert_eq!(data.animations.name_at(0), "cube");
    assert_eq!(data.animations.value_at(0).frame_count, 1);
    assert_eq!(data.parts.len(), 1);
    assert_eq!(data.parts.name_at(0), "cube");
    let part = data.parts.value_at(0);
    assert_eq!(part.vertices.len(), 8);
    for vertex in &part.vertices {
        assert_eq!(vertex.links.iter().copied().collect::<Vec<_>>(), vec![0]);
    }
    assert_eq!(part.faces.len(), 1);
    assert_eq!(part.faces.name_at(0), "stone");
    let faces = part.faces.value_at(0);
    assert_eq!(faces.len(), 6);
    assert_eq!(faces[0], vec![3, 2, 1, 0]);
    assert_eq!(faces[2], vec![4, 5, 1, 0]);
    assert!(data.is_well_formed());
    assert_eq!(import.bone_transforms.len(), 1);
    assert_eq!(import.parts.len(), 1);
    assert_eq!(import.parts[0].vertices[5], (5, 5, 5));
    assert_eq!(import.parts[0].transforms.len(), 1);
    assert!(import.parts[0].weights.iter().all(|w| w.is_empty()));
}

#[test]
fn skinned_cube_links_vertices_to_listed_joints() {
    let (document, _) = cube(2);
    let import = load_dmx(&document, "cube".to_string()).ok().unwrap();
    let part = import.data.parts.value_at(0);
    assert_eq!(part.vertices[3].links.iter().copied().collect::<Vec<_>>(), vec![0]);
    // Both links of a vertex go to bone 0: the later weight entry stays.
    assert_eq!(import.parts[0].weights[3], vec![7]);
}

#[test]
fn joints_are_entered_depth_first() {
    let mut b = Builder::new();
    let hand = b.joint("hand", vec![]);
    let arm = b.joint("arm", vec![hand]);
    let leg = b.joint("leg", vec![]);
    let root_joint = b.joint("pelvis", vec![arm, leg]);
    let tail = b.joint("tail", vec![]);
    let skeleton = b.add("skeleton", vec![("children", elements(vec![root_joint, tail]))]);
    let root = b.add("root", vec![("skeleton", DmxValue::Element(Some(skeleton)))]);
    let import = load_dmx(&b.document(root, 18), "file".to_string()).ok().unwrap();
    let bones = &import.data.skeleton;
    let names: Vec<&str> = (0..bones.len()).map(|i| bones.name_at(i).as_str()).collect();
    assert_eq!(names, vec!["pelvis", "arm", "hand", "leg", "tail"]);
    let parents: Vec<Option<usize>> = (0..bones.len()).map(|i| bones.value_at(i).parent).collect();
    assert_eq!(parents, vec![None, Some(0), Some(1), Some(0), None]);
    assert_eq!(import.bone_transforms.len(), 5);
}

#[test]
fn document_of_another_format_is_refused() {
    let (mut document, _) = cube(0);
    document.format = "particle".to_string();
    assert!(matches!(load_dmx(&document, "x".to_string()), Err(ParseDMXError::FormatNotModel)));
    let (mut document, _) = cube(0);
    document.format_version = 22;
    assert!(matches!(
        load_dmx(&document, "x".to_string()),
        Err(ParseDMXError::UnsupportedFormatVersion)
    ));
}

#[test]
fn document_without_skeleton_is_refused() {
    let mut b = Builder::new();
    let root = b.add("root", vec![]);
    assert!(matches!(
        load_dmx(&b.document(root, 18), "x".to_string()),
        Err(ParseDMXError::MissingSkeleton)
    ));
}

#[test]
fn joint_without_transform_is_refused() {
    let mut b = Builder::new();
    let joint = b.add("root", vec![]);
    let skeleton = b.add("skeleton", vec![("children", elements(vec![joint]))]);
    let root = b.add("root", vec![("skeleton", DmxValue::Element(Some(skeleton)))]);
    let document = b.document(root, 18);
    match load_dmx(&document, "x".to_string()) {
        Err(ParseDMXError::MissingRequiredAttribute(name, kind, id)) => {
            assert_eq!(name, "transform");
            assert_eq!(kind, "Element");
            assert_eq!(id, id_of(&document, joint));
        }
        _ => panic!("expected MissingRequiredAttribute"),
    }
}

#[test]
fn index_arrays_have_to_be_of_one_length() {
    let (mut document, _) = cube(0);
    let bind = document.elements.iter().position(|e| e.name == "bind").unwrap();
    let slot = document.elements[bind].attributes.get_index_of("normalsIndices").unwrap();
    document.elements[bind].attributes.set_value(slot, DmxValue::IntegerArray(vec![0; 23]));
    match load_dmx(&document, "x".to_string()) {
        Err(ParseDMXError::ArrayLengthMismatch(a, b, _)) => {
            assert_eq!(a, "normalsIndices");
            assert_eq!(b, "positionsIndices");
        }
        _ => panic!("expected ArrayLengthMismatch"),
    }
}

#[test]
fn index_beyond_its_array_is_out_of_range() {
    let (mut document, _) = cube(0);
    let bind = document.elements.iter().position(|e| e.name == "bind").unwrap();
    let slot = document.elements[bind].attributes.get_index_of("positions").unwrap();
    document.elements[bind].attributes.set_value(slot, DmxValue::Vector3Array(7));
    match load_dmx(&document, "x".to_string()) {
        Err(ParseDMXError::IndexOutOfRange(name, _)) => assert_eq!(name, "positionsIndices"),
        _ => panic!("expected IndexOutOfRange"),
    }
}

#[test]
fn short_face_in_a_face_set_is_incomplete() {
    let (mut document, _) = cube(0);
    let set = document.elements.iter().position(|e| e.name == "faces").unwrap();
    let slot = document.elements[set].attributes.get_index_of("faces").unwrap();
    document.elements[set].attributes.set_value(slot, DmxValue::IntegerArray(vec![0, 1, -1]));
    let id = document.elements[set].id;
    assert!(matches!(
        load_dmx(&document, "x".to_string()),
        Err(ParseDMXError::IncompleteFace(found)) if found == id
    ));
}

#[test]
fn shape_with_base_states_needs_a_bind_state() {
    let (mut document, _) = cube(0);
    let bind = document.elements.iter().position(|e| e.name == "bind").unwrap();
    document.elements[bind].name = "rest".to_string();
    assert!(matches!(
        load_dmx(&document, "x".to_string()),
        Err(ParseDMXError::MeshMissingBindState(_))
    ));
}

#[test]
fn clip_has_frames_and_keys() {
    let (document, _, _) =
        clip_document(18, 30, 0, 20000, vec![0, 10000, 20000, 30000, 10000], "root");
    let import = load_dmx(&document, "x".to_string()).ok().unwrap();
    let animations = &import.data.animations;
    assert_eq!(animations.len(), 1);
    assert_eq!(animations.name_at(0), "walk");
    let clip = animations.value_at(0);
    assert_eq!(clip.frame_count, 61);
    assert_eq!(clip.channel_bones.iter().copied().collect::<Vec<_>>(), vec![0]);
    assert_eq!(clip.channels[0].location.iter().copied().collect::<Vec<_>>(), vec![0, 30, 60]);
    assert!(clip.channels[0].rotation.is_empty());
    // The key at frame 30 is given twice: the later value stays.
    let layer = document.elements.iter().position(|e| e.name == "layer").unwrap();
    assert_eq!(import.animations[0][0].location, vec![(layer, 0), (layer, 4), (layer, 2)]);
    assert!(import.data.is_well_formed());
}

#[test]
fn old_documents_hold_times_as_integers() {
    let (document, _, _) = clip_document(1, 24, 5000, 10000, vec![5000, 15000], "root");
    let import = load_dmx(&document, "x".to_string()).ok().unwrap();
    let clip = import.data.animations.value_at(0);
    assert_eq!(clip.frame_count, 25);
    assert_eq!(clip.channels[0].location.iter().copied().collect::<Vec<_>>(), vec![12]);
}

#[test]
fn channel_for_a_joint_that_is_missing_is_refused() {
    let (document, channel, target) = clip_document(18, 30, 0, 20000, vec![0], "ghost");
    match load_dmx(&document, "x".to_string()) {
        Err(ParseDMXError::InvalidAnimationJointTarget(found_channel, found_target)) => {
            assert_eq!(found_channel, id_of(&document, channel));
            assert_eq!(found_target, id_of(&document, target));
        }
        _ => panic!("expected InvalidAnimationJointTarget"),
    }
}

#[test]
fn two_clips_of_one_name_are_refused() {
    let (mut document, _, _) = clip_document(18, 30, 0, 20000, vec![0], "root");
    let list = document.elements.iter().position(|e| e.name == "animationList").unwrap();
    let clip = document.elements.iter().position(|e| e.name == "walk").unwrap();
    let slot = document.elements[list].attributes.get_index_of("animations").unwrap();
    document.elements[list]
        .attributes
        .set_value(slot, DmxValue::ElementArray(vec![Some(clip), None, Some(clip)]));
    assert!(matches!(
        load_dmx(&document, "x".to_string()),
        Err(ParseDMXError::DuplicateAnimationName(name, _)) if name == "walk"
    ));
}

#[test]
fn joint_that_is_its_own_child_is_refused() {
    let mut b = Builder::new();
    let joint = b.joint("loop", vec![]);
    let slot = b.elements[joint].attributes.get_index_of("children").unwrap();
    b.elements[joint].attributes.set_value(slot, DmxValue::ElementArray(vec![Some(joint)]));
    let skeleton = b.add("skeleton", vec![("children", elements(vec![joint]))]);
    let root = b.add("root", vec![("skeleton", DmxValue::Element(Some(skeleton)))]);
    assert!(matches!(
        load_dmx(&b.document(root, 18), "x".to_string()),
        Err(ParseDMXError::DuplicateJointName(name, _)) if name == "loop"
    ));
}

fn set(document: &mut DmxDocument, element: &str, attribute: &str, value: DmxValue) {
    let index = document.elements.iter().position(|e| e.name == element).unwrap();
    match document.elements[index].attributes.get_index_of(attribute) {
        Some(slot) => document.elements[index].attributes.set_value(slot, value),
        None => {
            document.elements[index].attributes.insert_full(attribute.to_string(), value);
        }
    }
}

fn add(document: &mut DmxDocument, name: &str, attributes: Vec<(&str, DmxValue)>) -> usize {
    let mut list = NameMap::new();
    for (key, value) in attributes {
        list.insert_full(key.to_string(), value);
    }
    let id = 5000 + document.elements.len() as u128;
    document.elements.push(DmxElement { name: name.to_string(), id, attributes: list });
    document.elements.len() - 1
}

#[test]
fn two_shapes_of_one_name_are_refused() {
    let (mut document, _) = cube(0);
    let shape = document.elements.iter().position(|e| e.name == "cube").unwrap();
    let transform = document.elements.iter().position(|e| e.name == "transform").unwrap();
    let second = add(
        &mut document,
        "second_node",
        vec![
            ("transform", DmxValue::Element(Some(transform))),
            ("shape", DmxValue::Element(Some(shape))),
        ],
    );
    let first = document.elements.iter().position(|e| e.name == "cube_node").unwrap();
    set(&mut document, "model", "children", DmxValue::ElementArray(vec![Some(first), Some(second)]));
    assert!(matches!(
        load_dmx(&document, "x".to_string()),
        Err(ParseDMXError::DuplicatePartName(name, _)) if name == "cube"
    ));
}

#[test]
fn skinning_to_a_joint_outside_the_skeleton_is_refused() {
    let (mut document, _) = cube(1);
    let stranger = add(&mut document, "stranger", vec![]);
    set(&mut document, "model", "jointList", DmxValue::ElementArray(vec![Some(stranger)]));
    assert!(matches!(
        load_dmx(&document, "x".to_string()),
        Err(ParseDMXError::JointNotInJointList(name, _)) if name == "stranger"
    ));
}

#[test]
fn skinning_index_beyond_the_joint_list_is_out_of_range() {
    let (mut document, _) = cube(1);
    set(&mut document, "bind", "jointIndices", DmxValue::IntegerArray(vec![3; 8]));
    assert!(matches!(
        load_dmx(&document, "x".to_string()),
        Err(ParseDMXError::IndexOutOfRange(name, _)) if name == "jointIndices"
    ));
    let (mut document, _) = cube(1);
    set(&mut document, "bind", "jointIndices", DmxValue::IntegerArray(vec![0; 7]));
    assert!(matches!(
        load_dmx(&document, "x".to_string()),
        Err(ParseDMXError::ArrayLengthMismatch(first, second, _)) if first == "jointIndices" && second == "positions"
    ));
}

#[test]
fn flexes_list_the_vertices_that_they_move() {
    let (mut document, _) = cube(0);
    let smile = add(
        &mut document,
        "smile",
        vec![
            ("positionsIndices", DmxValue::IntegerArray(vec![4, 0, 4])),
            ("positions", DmxValue::Vector3Array(3)),
            ("normalsIndices", DmxValue::IntegerArray(vec![7, 0])),
            ("normals", DmxValue::Vector3Array(2)),
        ],
    );
    let frown = add(&mut document, "frown", vec![("normalsIndices", DmxValue::IntegerArray(vec![])), ("normals", DmxValue::Vector3Array(0))]);
    set(&mut document, "cube", "deltaStates", DmxValue::ElementArray(vec![Some(smile), None, Some(frown)]));
    let import = load_dmx(&document, "x".to_string()).ok().unwrap();
    let flexes = &import.data.parts.value_at(0).flexes;
    assert_eq!(flexes.len(), 2);
    assert_eq!(flexes.name_at(0), "smile");
    // Entries 4 and 0 of the first quad are the corners 0 of the third quad
    // and 0 of the first: unique vertices 0 and, for entry 7, vertex 7.
    assert_eq!(flexes.value_at(0).iter().copied().collect::<Vec<_>>(), vec![4, 0, 7]);
    assert!(flexes.value_at(1).is_empty());
    assert_eq!(import.parts[0].flexes[0].state, smile);
    assert_eq!(import.parts[0].flexes[0].positions, vec![Some(2), Some(1), None]);
    assert_eq!(import.parts[0].flexes[0].normals, vec![None, Some(1), Some(0)]);
}

#[test]
fn two_flexes_of_one_name_are_refused() {
    let (mut document, _) = cube(0);
    let smile = add(&mut document, "smile", vec![]);
    let again = add(&mut document, "smile", vec![]);
    set(&mut document, "cube", "deltaStates", DmxValue::ElementArray(vec![Some(smile), Some(again)]));
    assert!(matches!(
        load_dmx(&document, "x".to_string()),
        Err(ParseDMXError::DuplicateFlexName(name, _)) if name == "smile"
    ));
}

#[test]
fn flex_offsets_have_to_match_their_indices() {
    let (mut document, _) = cube(0);
    let smile = add(
        &mut document,
        "smile",
        vec![("positionsIndices", DmxValue::IntegerArray(vec![1, 2])), ("positions", DmxValue::Vector3Array(3))],
    );
    set(&mut document, "cube", "deltaStates", DmxValue::ElementArray(vec![Some(smile)]));
    assert!(matches!(
        load_dmx(&document, "x".to_string()),
        Err(ParseDMXError::ArrayLengthMismatch(first, second, _)) if first == "positions" && second == "positionsIndices"
    ));
    let (mut document, _) = cube(0);
    let smile = add(
        &mut document,
        "smile",
        vec![("positionsIndices", DmxValue::IntegerArray(vec![24])), ("positions", DmxValue::Vector3Array(1))],
    );
    set(&mut document, "cube", "deltaStates", DmxValue::ElementArray(vec![Some(smile)]));
    assert!(matches!(
        load_dmx(&document, "x".to_string()),
        Err(ParseDMXError::IndexOutOfRange(name, _)) if name == "positionsIndices"
    ));
}

#[test]
fn old_documents_list_joint_transforms() {
    let (mut document, _) = cube(1);
    document.format_version = 7;
    assert!(matches!(
        load_dmx(&document, "x".to_string()),
        Err(ParseDMXError::MissingRequiredAttribute(name, _, _)) if name == "jointTransforms"
    ));
    let joint = document.elements.iter().position(|e| e.name == "root").unwrap();
    set(&mut document, "model", "jointTransforms", DmxValue::ElementArray(vec![Some(joint)]));
    assert!(load_dmx(&document, "x".to_string()).is_ok());
}

#[test]
fn keys_outside_the_clip_are_left_out() {
    // The clip starts at frame 30 and has 31 frames: keys before frame 30
    // and after frame 31 are dropped.
    let (document, _, _) =
        clip_document(18, 30, 10000, 10000, vec![0, 9999, 10000, 10300, 10400, 20000], "root");
    let import = load_dmx(&document, "x".to_string()).ok().unwrap();
    let clip = import.data.animations.value_at(0);
    assert_eq!(clip.frame_count, 31);
    assert_eq!(clip.channels[0].location.iter().copied().collect::<Vec<_>>(), vec![30, 31]);
}

#[test]
fn vertex_is_linked_to_the_bones_of_its_joints() {
    // Three joints for each position; the joint list has bones 5, 2, none, 5.
    let joint_bones = vec![Some(5), Some(2), None, Some(5)];
    let joint_indices = vec![0, 1, 0, 1, 1, 1, 3, 0, 1, 2, 0, 0, 7, 0, 0];
    let (vertex, weights) = skin_vertex(&joint_bones, &joint_indices, 3, 0).ok().unwrap();
    assert_eq!(vertex.links.iter().copied().collect::<Vec<_>>(), vec![5, 2]);
    assert_eq!(weights, vec![2, 1]);
    let (vertex, weights) = skin_vertex(&joint_bones, &joint_indices, 3, 1).ok().unwrap();
    assert_eq!(vertex.links.iter().copied().collect::<Vec<_>>(), vec![2]);
    assert_eq!(weights, vec![5]);
    let (vertex, weights) = skin_vertex(&joint_bones, &joint_indices, 3, 2).ok().unwrap();
    assert_eq!(vertex.links.iter().copied().collect::<Vec<_>>(), vec![5, 2]);
    assert_eq!(weights, vec![7, 8]);
    assert_eq!(skin_vertex(&joint_bones, &joint_indices, 3, 3).err(), Some(SkinFault::UnknownJoint(2)));
    assert_eq!(skin_vertex(&joint_bones, &joint_indices, 3, 4).err(), Some(SkinFault::OutOfRange));
    assert_eq!(skin_vertex(&joint_bones, &joint_indices, 3, 5).err(), Some(SkinFault::OutOfRange));
    // The first fault on the way is the one that is reported.
    assert_eq!(skin_vertex(&joint_bones, &joint_indices, 8, 1).err(), Some(SkinFault::UnknownJoint(2)));
    assert_eq!(skin_vertex(&joint_bones, &joint_indices, 8, 2).err(), Some(SkinFault::OutOfRange));
}

#[test]
fn keys_are_entered_by_frame() {
    let mut keys: IndexSet<usize> = IndexSet::new();
    let mut sources = Vec::new();
    load_keys(&mut keys, &mut sources, 4, &vec![0, 10000, 3334, 10000, 40000], 3, 0, 6);
    assert_eq!(keys.iter().copied().collect::<Vec<_>>(), vec![0, 3, 2]);
    assert_eq!(sources, vec![(4, 0), (4, 3), (4, 2)]);
    // A second layer adds to the keys and replaces those of frames that it
    // has itself.
    load_keys(&mut keys, &mut sources, 9, &vec![20000, 3334], 3, 0, 6);
    assert_eq!(keys.iter().copied().collect::<Vec<_>>(), vec![0, 3, 2, 6]);
    assert_eq!(sources, vec![(4, 0), (4, 3), (9, 1), (9, 0)]);
    load_keys(&mut keys, &mut sources, 1, &vec![0, 20000], 3, 1, 5);
    assert_eq!(sources, vec![(4, 0), (4, 3), (9, 1), (9, 0)]);
}
