use indexmap::IndexSet;
use source_wrench::import::{Animation, Bone as FileBone, FileData};
use source_wrench::names::NameMap;
use source_wrench::process::links::{
    check_permutation, limit_vertex_links, map_import_bones, remap_vertex_links, select_links,
};
use source_wrench::process::mesh::TriangleVertexLink;
use source_wrench::process::{Bone, BoneFlags};
use source_wrench::utilities::mathematics::AxisDirection;

fn link(bone: usize, sources: &[usize]) -> TriangleVertexLink {
    TriangleVertexLink { bone, sources: sources.to_vec() }
}

fn plain(links: &[TriangleVertexLink]) -> Vec<(usize, Vec<usize>)> {
    links.iter().map(|l| (l.bone, l.sources.clone())).collect()
}

fn file(bones: &[(&str, Option<usize>)]) -> FileData {
    let mut data = FileData::new(AxisDirection::PositiveZ, AxisDirection::NegativeY);
    for (name, parent) in bones {
        data.skeleton.insert_full(name.to_string(), FileBone { parent: *parent });
    }
    data.animations.insert_full(
        "idle".to_string(),
        Animation { frame_count: 1, channel_bones: IndexSet::new(), channels: vec![] },
    );
    data
}

fn processed(names: &[&str]) -> NameMap<Bone> {
    let mut list = NameMap::new();
    for (i, name) in names.iter().enumerate() {
        list.insert_full(
            name.to_string(),
            Bone { parent: None, flags: BoneFlags::used_by_vertex(), source: i },
        );
    }
    list
}

#[test]
fn bone_goes_to_its_name_or_up_to_a_named_ancestor() {
    let data = file(&[
        ("root", None),
        ("helper", Some(0)),
        ("limb", Some(1)),
        ("tip", Some(2)),
        ("stray", None),
        ("child", Some(4)),
    ]);
    let bones = processed(&["pelvis", "limb", "root"]);
    assert_eq!(map_import_bones(&data, &bones), vec![2, 2, 1, 1, 0, 0]);
}

#[test]
fn bones_without_match_go_to_bone_zero() {
    let data = file(&[("a", None), ("b", Some(0))]);
    assert_eq!(map_import_bones(&data, &processed(&["x", "y"])), vec![0, 0]);
    assert_eq!(map_import_bones(&data, &processed(&[])), vec![0, 0]);
}

#[test]
fn links_to_one_bone_are_merged_in_place() {
    let links = vec![link(0, &[0]), link(1, &[1]), link(2, &[2]), link(3, &[3])];
    let merged = remap_vertex_links(&links, &vec![5, 7, 5, 7]);
    assert_eq!(plain(&merged), vec![(5, vec![0, 2]), (7, vec![1, 3])]);
}

#[test]
fn links_keep_their_order_of_first_appearance() {
    let links = vec![link(2, &[0]), link(0, &[1]), link(1, &[2])];
    let merged = remap_vertex_links(&links, &vec![9, 4, 6]);
    assert_eq!(plain(&merged), vec![(6, vec![0]), (9, vec![1]), (4, vec![2])]);
}

#[test]
fn link_to_an_unknown_bone_goes_to_bone_zero() {
    let links = vec![link(8, &[0]), link(0, &[1])];
    let merged = remap_vertex_links(&links, &vec![0]);
    assert_eq!(plain(&merged), vec![(0, vec![0, 1])]);
    assert!(remap_vertex_links(&vec![], &vec![1]).is_empty());
}

#[test]
fn permutations_are_recognised() {
    assert!(check_permutation(&vec![], 0));
    assert!(check_permutation(&vec![2, 0, 1], 3));
    assert!(!check_permutation(&vec![2, 0, 2], 3));
    assert!(!check_permutation(&vec![0, 1], 3));
    assert!(!check_permutation(&vec![0, 1, 3], 3));
    assert!(!check_permutation(&vec![0, 1, 2, 0], 3));
}

#[test]
fn three_heaviest_links_are_kept_in_the_order_of_their_bones() {
    let bones = vec![40, 10, 30, 20, 50];
    // The order ranks the link to bone 50 first, then 10, then 20.
    assert_eq!(select_links(&bones, &vec![4, 1, 3, 0, 2]), vec![1, 3, 4]);
    assert_eq!(select_links(&bones, &vec![0, 2, 4, 1, 3]), vec![2, 0, 4]);
}

#[test]
fn up_to_three_links_are_all_kept() {
    assert_eq!(select_links(&vec![7, 3], &vec![0, 1]), vec![1, 0]);
    assert_eq!(select_links(&vec![7, 3], &vec![1, 0]), vec![1, 0]);
    assert_eq!(select_links(&vec![3], &vec![0]), vec![0]);
    assert!(select_links(&vec![], &vec![]).is_empty());
}

#[test]
fn senseless_order_is_not_followed() {
    let bones = vec![40, 10, 30, 20];
    assert_eq!(select_links(&bones, &vec![3, 3, 3, 3]), vec![1, 2, 0]);
    assert_eq!(select_links(&bones, &vec![]), vec![1, 2, 0]);
    assert_eq!(select_links(&bones, &vec![9, 1, 2, 3]), vec![1, 2, 0]);
}

#[test]
fn limit_reports_whether_a_link_was_left_out() {
    let merged = vec![link(40, &[0]), link(10, &[1, 4]), link(30, &[2]), link(20, &[3])];
    let (kept, culled) = limit_vertex_links(&merged, &vec![1, 3, 2, 0]);
    assert!(culled);
    assert_eq!(plain(&kept), vec![(10, vec![1, 4]), (20, vec![3]), (30, vec![2])]);

    let (kept, culled) = limit_vertex_links(&merged[..3].to_vec(), &vec![2, 1, 0]);
    assert!(!culled);
    assert_eq!(plain(&kept), vec![(10, vec![1, 4]), (30, vec![2]), (40, vec![0])]);

    let (kept, culled) = limit_vertex_links(&vec![], &vec![]);
    assert!(!culled);
    assert!(kept.is_empty());
}
