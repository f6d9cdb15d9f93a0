use indexmap::IndexSet;
use source_wrench::import::{
    select_importer, Animation, Bone, FileData, FileFormat, ParseFileError, Part, Vertex,
    SUPPORTED_FILES,
};
use source_wrench::names::NameMap;
use source_wrench::utilities::mathematics::AxisDirection;

fn vertex(bones: &[usize]) -> Vertex {
    Vertex { links: bones.iter().copied().collect::<IndexSet<usize>>() }
}

fn sound_file() -> FileData {
    let mut data = FileData::new(AxisDirection::PositiveZ, AxisDirection::NegativeY);
    data.skeleton.insert_full("root".to_string(), Bone { parent: None });
    data.skeleton.insert_full("arm".to_string(), Bone { parent: Some(0) });
    data.animations.insert_full(
        "idle".to_string(),
        Animation { frame_count: 3, channel_bones: IndexSet::new(), channels: vec![] },
    );
    let mut faces = NameMap::new();
    faces.insert_full("skin".to_string(), vec![vec![0, 1, 2], vec![2, 1, 0, 2]]);
    let part = Part {
        vertices: vec![vertex(&[0]), vertex(&[0, 1]), vertex(&[1])],
        faces,
        flexes: NameMap::new(),
    };
    data.parts.insert_full("body".to_string(), part);
    data
}

#[test]
fn supported_files_are_the_three_formats() {
    assert_eq!(SUPPORTED_FILES, ["smd", "obj", "dmx"]);
}

#[test]
fn importer_is_picked_by_extension() {
    assert!(matches!(select_importer(Some("smd")), Ok(FileFormat::Smd)));
    assert!(matches!(select_importer(Some("obj")), Ok(FileFormat::Obj)));
    assert!(matches!(select_importer(Some("dmx")), Ok(FileFormat::Dmx)));
}

#[test]
fn extension_case_does_not_matter() {
    assert!(matches!(select_importer(Some("DMX")), Ok(FileFormat::Dmx)));
    assert!(matches!(select_importer(Some("Smd")), Ok(FileFormat::Smd)));
    assert!(matches!(select_importer(Some("oBj")), Ok(FileFormat::Obj)));
}

#[test]
fn other_extensions_are_refused() {
    assert!(matches!(select_importer(Some("fbx")), Err(ParseFileError::UnsupportedFileFormat)));
    assert!(matches!(select_importer(Some("dm")), Err(ParseFileError::UnsupportedFileFormat)));
    assert!(matches!(select_importer(Some("dmxx")), Err(ParseFileError::UnsupportedFileFormat)));
    assert!(matches!(select_importer(Some("")), Err(ParseFileError::UnsupportedFileFormat)));
    assert!(matches!(select_importer(Some("smð")), Err(ParseFileError::UnsupportedFileFormat)));
}

#[test]
fn missing_extension_is_its_own_error() {
    assert!(matches!(select_importer(None), Err(ParseFileError::FileDoesNotHaveExtension)));
}

#[test]
fn sound_file_is_well_formed() {
    assert!(sound_file().is_well_formed());
}

#[test]
fn file_needs_a_bone_and_an_animation() {
    let mut data = FileData::new(AxisDirection::PositiveZ, AxisDirection::NegativeY);
    assert!(!data.is_well_formed());
    data.skeleton.insert_full("root".to_string(), Bone { parent: None });
    assert!(!data.is_well_formed());
    data.animations.insert_full(
        "idle".to_string(),
        Animation { frame_count: 1, channel_bones: IndexSet::new(), channels: vec![] },
    );
    assert!(data.is_well_formed());
}

#[test]
fn parallel_axes_are_not_well_formed() {
    let mut data = sound_file();
    data.up = AxisDirection::PositiveY;
    assert!(!data.is_well_formed());
    data.up = AxisDirection::PositiveX;
    assert!(data.is_well_formed());
}

#[test]
fn parent_has_to_come_first() {
    let mut data = sound_file();
    data.skeleton.set_value(1, Bone { parent: Some(1) });
    assert!(!data.is_well_formed());
    data.skeleton.set_value(1, Bone { parent: None });
    assert!(data.is_well_formed());
    data.skeleton.set_value(0, Bone { parent: Some(0) });
    assert!(!data.is_well_formed());
}

#[test]
fn animation_needs_a_frame_and_aligned_channels() {
    let mut data = sound_file();
    data.animations.set_value(
        0,
        Animation { frame_count: 0, channel_bones: IndexSet::new(), channels: vec![] },
    );
    assert!(!data.is_well_formed());
    let mut bones = IndexSet::new();
    bones.insert(1usize);
    data.animations.set_value(0, Animation { frame_count: 2, channel_bones: bones, channels: vec![] });
    assert!(!data.is_well_formed());
}

#[test]
fn links_have_to_name_bones_of_the_skeleton() {
    let mut data = sound_file();
    let mut faces = NameMap::new();
    faces.insert_full("skin".to_string(), vec![vec![0, 0, 0]]);
    data.parts.set_value(0, Part { vertices: vec![vertex(&[2])], faces, flexes: NameMap::new() });
    assert!(!data.is_well_formed());
}

#[test]
fn faces_need_three_vertices_of_the_part() {
    let mut data = sound_file();
    let mut faces = NameMap::new();
    faces.insert_full("skin".to_string(), vec![vec![0, 1]]);
    data.parts.set_value(
        0,
        Part { vertices: vec![vertex(&[0]), vertex(&[0])], faces, flexes: NameMap::new() },
    );
    assert!(!data.is_well_formed());
    let mut faces = NameMap::new();
    faces.insert_full("skin".to_string(), vec![vec![0, 1, 2]]);
    data.parts.set_value(
        0,
        Part { vertices: vec![vertex(&[0]), vertex(&[0])], faces, flexes: NameMap::new() },
    );
    assert!(!data.is_well_formed());
}
