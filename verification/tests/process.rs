use indexmap::IndexSet;
use source_wrench::import::manager::FileManager;
use source_wrench::import::{Animation as FileAnimation, Bone as FileBone, FileData, Part, Vertex};
use source_wrench::input::{Animation, BodyGroup, Model, Sequence, SourceInput};
use source_wrench::names::NameMap;
use source_wrench::process::mesh::lists::create_triangle_lists;
use source_wrench::process::mesh::merge::{
    apply_vertex_merge, find_vertex_merge, first_match, have_same_bones, optimize_merge_vertices,
    VertexMerge,
};
use source_wrench::process::mesh::remap::vertices_remap_links;
use source_wrench::process::mesh::{
    process_meshes, Measure, ProcessingMeshError, TriangleList, TriangleVertex, TriangleVertexLink,
};
use source_wrench::process::{
    process, Bone, BoneData, BoneFlags, ProcessingDataError, MAX_HARDWARE_BONES_PER_STRIP,
    VERTEX_CACHE_SIZE,
};
use source_wrench::utilities::mathematics::AxisDirection;

/// Takes two corners for the same where they were made from one vertex of
/// the file, and ranks links by the weights that it is given for the file's
/// link slots.
struct ByOrigin {
    weights: Vec<f64>,
    costs: Vec<u64>,
    models: Vec<(String, usize, usize)>,
}

impl ByOrigin {
    fn new() -> Self {
        ByOrigin { weights: Vec::new(), costs: Vec::new(), models: Vec::new() }
    }
}

impl Measure for ByOrigin {
    fn fan_costs(&self, _part: usize, face: &Vec<usize>) -> Vec<u64> {
        if self.costs.is_empty() {
            vec![0; face.len()]
        } else {
            self.costs.clone()
        }
    }

    fn rank_links(&self, _vertex: &TriangleVertex, links: &Vec<TriangleVertexLink>) -> Vec<usize> {
        let weight = |link: &TriangleVertexLink| -> f64 {
            link.sources.iter().map(|&s| self.weights.get(s).copied().unwrap_or(1.0)).sum()
        };
        let mut order: Vec<usize> = (0..links.len()).collect();
        order.sort_by(|&a, &b| weight(&links[b]).partial_cmp(&weight(&links[a])).unwrap());
        order
    }

    fn begin_model(&mut self, path: &String, group: usize, model: usize) {
        self.models.push((path.clone(), group, model));
    }

    fn coinciding(&mut self, vertices: &Vec<TriangleVertex>, candidate: usize, kept: &Vec<usize>) -> Vec<usize> {
        let wanted = &vertices[candidate];
        (0..kept.len())
            .filter(|&k| {
                let other = &vertices[kept[k]];
                other.part == wanted.part && other.vertex == wanted.vertex
            })
            .collect()
    }
}

/// Answers nonsense to every question.
struct Nonsense;

impl Measure for Nonsense {
    fn fan_costs(&self, _part: usize, _face: &Vec<usize>) -> Vec<u64> {
        vec![1, 2]
    }

    fn rank_links(&self, _vertex: &TriangleVertex, _links: &Vec<TriangleVertexLink>) -> Vec<usize> {
        vec![9, 9, 9, 9, 9]
    }

    fn begin_model(&mut self, _path: &String, _group: usize, _model: usize) {}

    fn coinciding(&mut self, _vertices: &Vec<TriangleVertex>, candidate: usize, _kept: &Vec<usize>) -> Vec<usize> {
        vec![candidate + 100, 0, 1, 2]
    }
}

fn vertex(bones: &[usize]) -> Vertex {
    Vertex { links: bones.iter().copied().collect::<IndexSet<usize>>() }
}

fn cube_file() -> FileData {
    let mut data = FileData::new(AxisDirection::PositiveZ, AxisDirection::NegativeY);
    data.skeleton.insert_full("root".to_string(), FileBone { parent: None });
    data.animations.insert_full(
        "idle".to_string(),
        FileAnimation { frame_count: 61, channel_bones: IndexSet::new(), channels: vec![] },
    );
    let quads: Vec<Vec<usize>> = vec![
        vec![0, 1, 2, 3],
        vec![4, 5, 6, 7],
        vec![0, 1, 5, 4],
        vec![2, 3, 7, 6],
        vec![1, 2, 6, 5],
        vec![0, 3, 7, 4],
    ];
    let mut faces = NameMap::new();
    faces.insert_full("stone".to_string(), quads);
    data.parts.insert_full(
        "cube".to_string(),
        Part { vertices: (0..8).map(|_| vertex(&[0])).collect(), faces, flexes: NameMap::new() },
    );
    data
}

fn cube_input() -> SourceInput {
    let mut input = SourceInput::default();
    input.model_name = "cube".to_string();
    input.model_groups.push(BodyGroup {
        name: "body".to_string(),
        models: vec![Model {
            name: "cube".to_string(),
            blank: false,
            source_file_path: Some("cube.dmx".to_string()),
            disabled_parts: IndexSet::new(),
        }],
    });
    input.animations.push(Animation {
        name: "idle".to_string(),
        source_file_path: Some("cube.dmx".to_string()),
        source_animation: 0,
        animation_identifier: 5,
    });
    input.sequences.push(Sequence { name: "idle".to_string(), animations: vec![vec![5]] });
    input
}

fn loaded(files: Vec<(&str, FileData)>) -> FileManager {
    let mut manager = FileManager::new();
    for (path, data) in files {
        manager.load_file(path.to_string());
        manager.finish_load(path, Some(data));
    }
    manager
}

fn bone_data(names: &[&str]) -> BoneData {
    let mut processed_bones = NameMap::new();
    for (i, name) in names.iter().enumerate() {
        processed_bones.insert_full(
            name.to_string(),
            Bone { parent: None, flags: BoneFlags::used_by_vertex(), source: i },
        );
    }
    BoneData {
        processed_bones,
        sorted_bones_by_name: vec![],
        source_bones: NameMap::new(),
        source_files: vec![],
    }
}

fn corner(part: usize, vertex: usize, bones: &[usize]) -> TriangleVertex {
    TriangleVertex {
        part,
        vertex,
        links: bones
            .iter()
            .enumerate()
            .map(|(slot, &bone)| TriangleVertexLink { bone, sources: vec![slot] })
            .collect(),
    }
}

#[test]
fn limits_are_those_of_the_format() {
    assert_eq!(MAX_HARDWARE_BONES_PER_STRIP, 53);
    assert_eq!(VERTEX_CACHE_SIZE, 16);
}

#[test]
fn identity_cube() {
    let manager = loaded(vec![("cube.dmx", cube_file())]);
    let mut measure = ByOrigin::new();
    let data = process(&cube_input(), &manager, &mut measure).ok().unwrap();

    assert_eq!(data.bone_data.processed_bones.len(), 1);
    assert_eq!(data.bone_data.processed_bones.name_at(0), "root");
    assert_eq!(data.bone_data.sorted_bones_by_name, vec![0]);

    assert_eq!(data.animation_data.processed_animations.len(), 1);
    let animation = data.animation_data.processed_animations.value_at(0);
    assert_eq!(animation.frame_count, 61);
    assert_eq!(animation.sections.len(), 1);
    assert_eq!((animation.sections[0][0].first_frame, animation.sections[0][0].last_frame), (0, 60));
    assert_eq!(data.sequence_data.value_at(0).animations, vec![vec![0i16]]);

    assert_eq!(data.model_data.materials.iter().cloned().collect::<Vec<_>>(), vec!["stone"]);
    assert_eq!(data.model_data.body_parts.len(), 1);
    let models = &data.model_data.body_parts.value_at(0).models;
    assert_eq!(models.len(), 1);
    assert_eq!(models[0].name, "cube");
    assert_eq!(models[0].meshes.len(), 1);
    let mesh = &models[0].meshes[0];
    assert_eq!(mesh.material, 0);
    assert_eq!(mesh.vertex_data.len(), 8);
    assert_eq!(mesh.strip_groups.len(), 1);
    let group = &mesh.strip_groups[0];
    assert_eq!(group.indices.len(), 36);
    assert_eq!(group.vertices.len(), 8);
    assert_eq!(group.strips.len(), 1);
    let strip = &group.strips[0];
    assert_eq!(strip.bone_count, 1);
    assert_eq!(strip.indices_count, 36);
    assert_eq!(strip.vertex_count, 8);
    let palette: Vec<(i32, i32)> =
        strip.hardware_bones.iter().map(|b| (b.hardware_bone, b.bone_table_bone)).collect();
    assert_eq!(palette, vec![(0, 0)]);
    assert!(mesh.vertex_data.iter().all(|v| v.bone_count == 1 && v.bones == [0, 0, 0]));
    assert_eq!(models[0].materials, vec![0]);
    assert_eq!(models[0].triangle_lists.len(), 1);
    assert_eq!(models[0].triangle_lists[0].triangles.len(), 12);
    assert_eq!(models[0].triangle_lists[0].vertices.len(), 8);
    let mut sources: Vec<usize> = mesh.vertex_data.iter().map(|v| v.source).collect();
    sources.sort();
    assert_eq!(sources, (0..8).collect::<Vec<_>>());
    assert_eq!(measure.models, vec![("cube.dmx".to_string(), 0, 0)]);
}

#[test]
fn cube_is_cut_into_twelve_triangles() {
    let file = cube_file();
    let mut materials = IndexSet::new();
    materials.insert("metal".to_string());
    let model = Model::default();
    let lists = create_triangle_lists(&file, &mut materials, &model, &ByOrigin::new());
    assert_eq!(materials.iter().cloned().collect::<Vec<_>>(), vec!["metal", "stone"]);
    assert_eq!(lists.materials, vec![1]);
    assert_eq!(lists.lists.len(), 1);
    let list = &lists.lists[0];
    assert_eq!(list.triangles.len(), 12);
    assert_eq!(list.vertices.len(), 36);
    assert_eq!(list.triangles[5], [15, 16, 17]);
    let sources: Vec<usize> = list.vertices[..6].iter().map(|v| v.vertex).collect();
    assert_eq!(sources, vec![0, 1, 2, 2, 3, 0]);
    assert_eq!(list.vertices[7].links[0].bone, 0);
    assert_eq!(list.vertices[7].links[0].sources, vec![0]);
}

#[test]
fn disabled_parts_give_no_triangles() {
    let file = cube_file();
    let mut materials = IndexSet::new();
    let mut model = Model::default();
    model.disabled_parts.insert("cube".to_string());
    let lists = create_triangle_lists(&file, &mut materials, &model, &ByOrigin::new());
    assert!(lists.lists.is_empty());
    assert!(materials.is_empty());
}

#[test]
fn large_face_becomes_a_fan_around_the_cheapest_corner() {
    let mut data = cube_file();
    let mut faces = NameMap::new();
    faces.insert_full("stone".to_string(), vec![vec![0, 1, 2, 3, 4]]);
    data.parts.set_value(
        0,
        Part { vertices: (0..8).map(|_| vertex(&[0])).collect(), faces, flexes: NameMap::new() },
    );
    let mut measure = ByOrigin::new();
    measure.costs = vec![9, 4, 2, 7, 2];
    let mut materials = IndexSet::new();
    let lists = create_triangle_lists(&data, &mut materials, &Model::default(), &measure);
    let sources: Vec<usize> = lists.lists[0].vertices.iter().map(|v| v.vertex).collect();
    assert_eq!(sources, vec![2, 3, 4, 2, 4, 0, 2, 0, 1]);

    let lists = create_triangle_lists(&data, &mut materials, &Model::default(), &Nonsense);
    let sources: Vec<usize> = lists.lists[0].vertices.iter().map(|v| v.vertex).collect();
    assert_eq!(sources, vec![0, 1, 2, 0, 2, 3, 0, 3, 4]);
}

#[test]
fn links_are_remapped_limited_and_ordered() {
    let mut file = FileData::new(AxisDirection::PositiveZ, AxisDirection::NegativeY);
    for (i, name) in ["a", "b", "c", "d", "e"].iter().enumerate() {
        file.skeleton
            .insert_full(name.to_string(), FileBone { parent: if i == 0 { None } else { Some(i - 1) } });
    }
    let bones = bone_data(&["e", "c", "a", "d"]);
    let mut list = TriangleList {
        vertices: vec![corner(0, 0, &[0, 1, 2, 3, 4]), corner(0, 1, &[4]), corner(0, 2, &[1, 0])],
        triangles: vec![[0, 1, 2]],
    };
    let mut measure = ByOrigin::new();
    // The weights of the five link slots of a vertex.
    measure.weights = vec![0.1, 0.15, 0.4, 0.3, 0.05];
    let culled = vertices_remap_links(&mut list, &file, &bones.processed_bones, &measure);
    assert_eq!(culled, 1);
    // a and b both go to bone 2 ("a"), c to 1, d to 3, e to 0; the lightest,
    // e, is left out.
    let links = |v: usize| -> Vec<(usize, Vec<usize>)> {
        list.vertices[v].links.iter().map(|l| (l.bone, l.sources.clone())).collect()
    };
    assert_eq!(links(0), vec![(1, vec![2]), (2, vec![0, 1]), (3, vec![3])]);
    assert_eq!(links(1), vec![(0, vec![0])]);
    assert_eq!(links(2), vec![(2, vec![0, 1])]);
    assert_eq!(list.triangles, vec![[0, 1, 2]]);
}

#[test]
fn remapped_vertices_have_one_to_three_ascending_bones() {
    let mut file = FileData::new(AxisDirection::PositiveZ, AxisDirection::NegativeY);
    for i in 0..9 {
        file.skeleton.insert_full(format!("b{i}"), FileBone { parent: None });
    }
    let names: Vec<String> = (0..9).rev().map(|i| format!("b{i}")).collect();
    let refs: Vec<&str> = names.iter().map(|n| n.as_str()).collect();
    let bones = bone_data(&refs);
    let mut list = TriangleList {
        vertices: (1..=9).map(|n| corner(0, n, &(0..n).collect::<Vec<_>>())).collect(),
        triangles: vec![],
    };
    for measure in [&ByOrigin::new() as &dyn MeasureRank, &Nonsense] {
        let mut copy = TriangleList {
            vertices: list.vertices.iter().map(|v| corner(v.part, v.vertex, &v.links.iter().map(|l| l.bone).collect::<Vec<_>>())).collect(),
            triangles: vec![],
        };
        measure.remap(&mut copy, &file, &bones);
        for vertex in &copy.vertices {
            assert!(1 <= vertex.links.len() && vertex.links.len() <= 3);
            assert!(vertex.links.windows(2).all(|w| w[0].bone < w[1].bone));
        }
    }
    list.vertices.clear();
}

trait MeasureRank {
    fn remap(&self, list: &mut TriangleList, file: &FileData, bones: &BoneData) -> usize;
}

impl MeasureRank for ByOrigin {
    fn remap(&self, list: &mut TriangleList, file: &FileData, bones: &BoneData) -> usize {
        vertices_remap_links(list, file, &bones.processed_bones, self)
    }
}

impl MeasureRank for Nonsense {
    fn remap(&self, list: &mut TriangleList, file: &FileData, bones: &BoneData) -> usize {
        vertices_remap_links(list, file, &bones.processed_bones, self)
    }
}

#[test]
fn coinciding_vertices_with_the_same_bones_are_merged() {
    let mut list = TriangleList {
        vertices: vec![
            corner(0, 0, &[1]),
            corner(0, 1, &[1]),
            corner(0, 0, &[1]),
            corner(0, 0, &[2]),
            corner(0, 1, &[1]),
            corner(0, 0, &[2]),
        ],
        triangles: vec![[0, 1, 2], [3, 4, 5], [5, 5, 0]],
    };
    let merge = optimize_merge_vertices(&mut list, &mut ByOrigin::new());
    assert_eq!(merge.kept, vec![0, 1, 3]);
    assert_eq!(merge.remap, vec![0, 1, 0, 2, 1, 2]);
    assert_eq!(list.vertices.len(), 3);
    assert_eq!((list.vertices[2].vertex, list.vertices[2].links[0].bone), (0, 2));
    assert_eq!(list.triangles, vec![[0, 1, 0], [2, 1, 2], [2, 2, 0]]);
}

#[test]
fn merging_again_changes_nothing() {
    let file = cube_file();
    let mut materials = IndexSet::new();
    let mut lists = create_triangle_lists(&file, &mut materials, &Model::default(), &ByOrigin::new());
    let mut list = lists.lists.remove(0);
    optimize_merge_vertices(&mut list, &mut ByOrigin::new());
    assert_eq!(list.vertices.len(), 8);
    let triangles = list.triangles.clone();
    let merge = optimize_merge_vertices(&mut list, &mut ByOrigin::new());
    assert_eq!(list.vertices.len(), 8);
    assert_eq!(list.triangles, triangles);
    assert_eq!(merge.kept, (0..8).collect::<Vec<_>>());
    assert_eq!(merge.remap, (0..8).collect::<Vec<_>>());
}

#[test]
fn match_has_to_be_a_kept_vertex_with_the_same_bones() {
    let vertices = vec![corner(0, 0, &[1]), corner(0, 0, &[2]), corner(0, 0, &[2, 3]), corner(0, 0, &[2])];
    let kept = vec![0, 1, 2];
    assert_eq!(first_match(&vertices, 3, &kept, &vec![0, 2, 1]), Some(1));
    assert_eq!(first_match(&vertices, 3, &kept, &vec![7, 0, 2]), None);
    assert_eq!(first_match(&vertices, 3, &kept, &vec![]), None);
    assert!(have_same_bones(&vertices[1], &vertices[3]));
    assert!(!have_same_bones(&vertices[1], &vertices[2]));
}

#[test]
fn nonsense_about_coincidence_merges_nothing_wrong() {
    let vertices = vec![corner(0, 0, &[1]), corner(0, 1, &[2]), corner(0, 2, &[1]), corner(0, 3, &[3])];
    let merge = find_vertex_merge(&vertices, &mut Nonsense);
    // Vertex 2 is said to coincide with vertex 0 and has its bones.
    assert_eq!(merge.kept, vec![0, 1, 3]);
    assert_eq!(merge.remap, vec![0, 1, 0, 2]);
}

#[test]
fn merge_is_carried_out_as_given() {
    let mut list = TriangleList {
        vertices: vec![corner(0, 4, &[1]), corner(0, 5, &[1]), corner(0, 6, &[1])],
        triangles: vec![[0, 1, 2], [2, 2, 1]],
    };
    let merge = VertexMerge { kept: vec![0, 2], remap: vec![0, 0, 1] };
    apply_vertex_merge(&mut list, &merge);
    assert_eq!(list.vertices.iter().map(|v| v.vertex).collect::<Vec<_>>(), vec![4, 6]);
    assert_eq!(list.triangles, vec![[0, 0, 1], [1, 1, 0]]);
}

#[test]
fn meshes_stay_within_the_caps_whatever_is_measured() {
    let mut data = cube_file();
    for i in 1..60 {
        data.skeleton.insert_full(format!("b{i}"), FileBone { parent: Some(0) });
    }
    let vertices: Vec<Vertex> = (0..180).map(|v| vertex(&[v % 60, (v + 7) % 60])).collect();
    let faces_list: Vec<Vec<usize>> = (0..60).map(|f| vec![3 * f, 3 * f + 1, 3 * f + 2]).collect();
    let mut faces = NameMap::new();
    faces.insert_full("stone".to_string(), faces_list);
    data.parts.set_value(0, Part { vertices, faces, flexes: NameMap::new() });
    let manager = loaded(vec![("cube.dmx", data)]);
    let names: Vec<String> =
        std::iter::once("root".to_string()).chain((1..60).map(|i| format!("b{i}"))).collect();
    let refs: Vec<&str> = names.iter().map(|n| n.as_str()).collect();
    let bones = bone_data(&refs);
    for nonsense in [false, true] {
        let result = if nonsense {
            process_meshes(&cube_input(), &manager, &bones, &mut Nonsense)
        } else {
            process_meshes(&cube_input(), &manager, &bones, &mut ByOrigin::new())
        };
        let data = result.ok().unwrap();
        let meshes = &data.body_parts.value_at(0).models[0].meshes;
        assert!(meshes.len() >= 2);
        let mut indices = 0;
        for mesh in meshes {
            assert_eq!(mesh.strip_groups.len(), 1);
            let group = &mesh.strip_groups[0];
            assert!(group.vertices.len() <= 65536);
            assert_eq!(group.strips.len(), 1);
            let strip = &group.strips[0];
            assert!(strip.hardware_bones.len() <= 53);
            let mut distinct: Vec<i32> = strip.hardware_bones.iter().map(|b| b.bone_table_bone).collect();
            distinct.sort();
            distinct.dedup();
            assert_eq!(distinct.len(), strip.hardware_bones.len());
            indices += group.indices.len();
        }
        assert_eq!(indices, 180);
    }
}

#[test]
fn blank_models_have_no_meshes() {
    let manager = loaded(vec![("cube.dmx", cube_file())]);
    let mut input = cube_input();
    input.model_groups[0].models.insert(0, Model { blank: true, ..Model::default() });
    let data = process_meshes(&input, &manager, &bone_data(&["root"]), &mut ByOrigin::new()).ok().unwrap();
    assert_eq!(data.body_parts.value_at(0).models.len(), 1);
    assert_eq!(data.body_parts.value_at(0).models[0].name, "cube");
}

#[test]
fn model_without_path_or_file_is_an_error() {
    let manager = loaded(vec![("cube.dmx", cube_file())]);
    let mut input = cube_input();
    input.model_groups[0].models[0].source_file_path = None;
    match process_meshes(&input, &manager, &bone_data(&["root"]), &mut ByOrigin::new()) {
        Err(ProcessingMeshError::MissingFilePath(model, group)) => {
            assert_eq!((model.as_str(), group.as_str()), ("cube", "body"));
        }
        _ => panic!("expected MissingFilePath"),
    }
    input.model_groups[0].models[0].source_file_path = Some("other.dmx".to_string());
    match process_meshes(&input, &manager, &bone_data(&["root"]), &mut ByOrigin::new()) {
        Err(ProcessingMeshError::FileNotLoaded(model, group)) => {
            assert_eq!((model.as_str(), group.as_str()), ("cube", "body"));
        }
        _ => panic!("expected FileNotLoaded"),
    }
}

#[test]
fn more_than_32768_materials_are_too_many() {
    let mut data = cube_file();
    let mut faces = NameMap::new();
    for m in 0..32769 {
        faces.insert_full(format!("m{m}"), vec![vec![0, 1, 2]]);
    }
    data.parts.set_value(
        0,
        Part { vertices: (0..3).map(|_| vertex(&[0])).collect(), faces, flexes: NameMap::new() },
    );
    let manager = loaded(vec![("cube.dmx", data)]);
    assert!(matches!(
        process_meshes(&cube_input(), &manager, &bone_data(&["root"]), &mut ByOrigin::new()),
        Err(ProcessingMeshError::TooManyMaterials)
    ));
}

#[test]
fn stages_fail_in_their_order() {
    let manager = loaded(vec![("cube.dmx", cube_file())]);

    let mut input = cube_input();
    input.model_groups[0].models[0].source_file_path = None;
    assert!(matches!(
        process(&input, &manager, &mut ByOrigin::new()),
        Err(ProcessingDataError::ProcessingBoneError(_))
    ));

    let mut input = cube_input();
    input.model_groups[0].models[0].disabled_parts.insert("cube".to_string());
    assert!(matches!(
        process(&input, &manager, &mut ByOrigin::new()),
        Err(ProcessingDataError::NoBones)
    ));

    let mut input = cube_input();
    input.sequences.clear();
    assert!(matches!(
        process(&input, &manager, &mut ByOrigin::new()),
        Err(ProcessingDataError::NoAnimations)
    ));

    let mut input = cube_input();
    input.animations[0].source_file_path = Some("gone.dmx".to_string());
    assert!(matches!(
        process(&input, &manager, &mut ByOrigin::new()),
        Err(ProcessingDataError::ProcessingBoneError(_))
    ));
}

fn file_with_materials(materials: &[(&str, Vec<Vec<usize>>)]) -> FileData {
    let mut data = cube_file();
    let mut faces = NameMap::new();
    for (name, of_material) in materials {
        faces.insert_full(name.to_string(), of_material.clone());
    }
    data.parts.set_value(
        0,
        Part { vertices: (0..8).map(|_| vertex(&[0])).collect(), faces, flexes: NameMap::new() },
    );
    data
}

fn model_of(name: &str, path: &str) -> Model {
    Model {
        name: name.to_string(),
        blank: false,
        source_file_path: Some(path.to_string()),
        disabled_parts: IndexSet::new(),
    }
}

#[test]
fn materials_keep_the_order_of_first_use_across_models() {
    let first = file_with_materials(&[
        ("stone", vec![vec![0, 1, 2, 3], vec![4, 5, 6]]),
        ("wood", vec![vec![0, 1, 5, 4, 7]]),
    ]);
    let second = file_with_materials(&[
        ("wood", vec![vec![0, 1, 2]]),
        ("iron", vec![vec![2, 3, 7, 6], vec![1, 2, 6, 5]]),
    ]);
    let manager = loaded(vec![("first.dmx", first), ("second.dmx", second)]);
    let mut input = cube_input();
    input.model_groups[0].models = vec![model_of("a", "first.dmx"), model_of("b", "second.dmx")];
    let data = process_meshes(&input, &manager, &bone_data(&["root"]), &mut ByOrigin::new()).ok().unwrap();
    assert_eq!(data.materials.iter().cloned().collect::<Vec<_>>(), vec!["stone", "wood", "iron"]);
    let models = &data.body_parts.value_at(0).models;
    assert_eq!(models[0].materials, vec![0, 1]);
    assert_eq!(models[1].materials, vec![1, 2]);
    let counts: Vec<Vec<usize>> =
        models.iter().map(|m| m.triangle_lists.iter().map(|l| l.triangles.len()).collect()).collect();
    assert_eq!(counts, vec![vec![3, 3], vec![1, 4]]);
    let mesh_materials: Vec<Vec<i32>> =
        models.iter().map(|m| m.meshes.iter().map(|mesh| mesh.material).collect()).collect();
    assert_eq!(mesh_materials, vec![vec![0, 1], vec![1, 2]]);
}

#[test]
fn material_of_two_parts_has_one_list() {
    let mut data = file_with_materials(&[("stone", vec![vec![0, 1, 2]]), ("wood", vec![vec![1, 2, 3]])]);
    let mut faces = NameMap::new();
    faces.insert_full("wood".to_string(), vec![vec![0, 1, 2, 3]]);
    faces.insert_full("stone".to_string(), vec![vec![0, 2, 3]]);
    data.parts.insert_full(
        "lid".to_string(),
        Part { vertices: (0..4).map(|_| vertex(&[0])).collect(), faces, flexes: NameMap::new() },
    );
    let mut materials = IndexSet::new();
    let lists = create_triangle_lists(&data, &mut materials, &Model::default(), &ByOrigin::new());
    assert_eq!(materials.iter().cloned().collect::<Vec<_>>(), vec!["stone", "wood"]);
    assert_eq!(lists.materials, vec![0, 1]);
    let counts: Vec<usize> = lists.lists.iter().map(|l| l.triangles.len()).collect();
    assert_eq!(counts, vec![2, 3]);
    let parts: Vec<usize> = lists.lists[0].vertices.iter().map(|v| v.part).collect();
    assert_eq!(parts, vec![0, 0, 0, 1, 1, 1]);
}

#[test]
fn later_group_of_the_same_name_stays() {
    let manager = loaded(vec![("cube.dmx", cube_file())]);
    let mut input = cube_input();
    input.model_groups.push(BodyGroup { name: "head".to_string(), models: vec![] });
    input.model_groups.push(BodyGroup {
        name: "body".to_string(),
        models: vec![model_of("one", "cube.dmx"), model_of("two", "cube.dmx")],
    });
    let data = process_meshes(&input, &manager, &bone_data(&["root"]), &mut ByOrigin::new()).ok().unwrap();
    assert_eq!(data.body_parts.len(), 2);
    assert_eq!(data.body_parts.name_at(0), "body");
    assert_eq!(data.body_parts.name_at(1), "head");
    let names: Vec<&str> = data.body_parts.value_at(0).models.iter().map(|m| m.name.as_str()).collect();
    assert_eq!(names, vec!["one", "two"]);
    assert!(data.body_parts.value_at(1).models.is_empty());
}

#[test]
fn exactly_32768_materials_are_accepted() {
    let mut data = cube_file();
    let mut faces = NameMap::new();
    for m in 0..32768 {
        faces.insert_full(format!("m{m}"), vec![vec![0, 1, 2]]);
    }
    data.parts.set_value(
        0,
        Part { vertices: (0..3).map(|_| vertex(&[0])).collect(), faces, flexes: NameMap::new() },
    );
    let manager = loaded(vec![("cube.dmx", data)]);
    let built = process_meshes(&cube_input(), &manager, &bone_data(&["root"]), &mut ByOrigin::new())
        .ok()
        .unwrap();
    assert_eq!(built.materials.len(), 32768);
    assert_eq!(built.body_parts.value_at(0).models[0].meshes.len(), 32768);
}

#[test]
fn first_failing_model_gives_the_error() {
    let manager = loaded(vec![("cube.dmx", cube_file())]);
    let mut input = cube_input();
    input.model_groups[0].models.push(model_of("late", "missing.dmx"));
    input.model_groups.push(BodyGroup {
        name: "head".to_string(),
        models: vec![Model { name: "bare".to_string(), ..Model::default() }],
    });
    match process_meshes(&input, &manager, &bone_data(&["root"]), &mut ByOrigin::new()) {
        Err(ProcessingMeshError::FileNotLoaded(model, group)) => {
            assert_eq!((model.as_str(), group.as_str()), ("late", "body"));
        }
        _ => panic!("expected FileNotLoaded"),
    }
}
