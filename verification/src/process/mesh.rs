//! Mesh processing: triangulation, link remapping, vertex merging, cache-aware
//! ordering and strip partitioning.

pub mod lists;
pub mod merge;
pub mod remap;
pub mod triangulate;

use crate::import::FileData;
use crate::import::manager::{FileManager, FileStatus};
use crate::input::{BodyGroup, Model, SourceInput};
use crate::names::{inserted_names, NameMap};
use crate::ordered::{index_set_items, name_set_items, name_set_len, name_set_new};
use crate::process::{BodyPart, Bone, BoneData, Mesh, ModelData, MAX_MATERIALS, MAX_MESHES};
use crate::process::links::{lemma_merged_links, link_views, links_kept, merged_links, LinkView};
use crate::process::mesh::lists::{
    create_triangle_lists, file_materials, file_triangles, import_links, lemma_lists_match_extended,
    list_fresh, listed_triangles, lists_match, model_materials, model_triangles, names_extended,
    vertex_from_file, TriangleLists,
};
use crate::process::mesh::merge::optimize_merge_vertices;
use crate::process::mesh::remap::{bone_remap, links_remapped, vertices_remap_links};
use crate::process::strips::{finalize_triangle_list, mesh_matches};
use crate::process::vertex_cache::optimize_vertex_cache;
use indexmap::IndexSet;
use vstd::prelude::*;

verus! {

/// Why the meshes could not be built.
pub enum ProcessingMeshError {
    /// The model (first) of the group (second) is not blank and names no file.
    MissingFilePath(String, String),
    /// The file of the model (first) of the group (second) is not loaded.
    FileNotLoaded(String, String),
    /// More than 32768 materials are in use.
    TooManyMaterials,
    /// The model (first) of the group (second) has more than 2147483648
    /// meshes.
    TooManyMeshes(String, String),
    /// There are more than 2147483648 groups.
    TooManyModelGroups,
}

/// One link of a vertex to a processed bone. Its weight is the sum of the
/// weights that the imported vertex has in the slots `sources` of its link
/// list, scaled so that the weights of the vertex add up to one.
#[derive(Clone, Debug)]
pub struct TriangleVertexLink {
    pub bone: usize,
    pub sources: Vec<usize>,
}

/// A corner of a triangle: the imported vertex that it was made from, and
/// its links.
#[derive(Clone, Debug)]
pub struct TriangleVertex {
    /// The position of the part in the imported file.
    pub part: usize,
    /// The position of the vertex in the part.
    pub vertex: usize,
    pub links: Vec<TriangleVertexLink>,
}

/// The triangles of one material, as indices into a list of vertices.
#[derive(Clone, Debug)]
pub struct TriangleList {
    pub vertices: Vec<TriangleVertex>,
    pub triangles: Vec<[usize; 3]>,
}

impl TriangleList {
    /// For each vertex, the bones of its links in order.
    pub open spec fn link_bones(&self) -> Seq<Seq<usize>> {
        Seq::new(
            self.vertices@.len(),
            |v: int|
                Seq::new(self.vertices@[v].links@.len(), |k: int| self.vertices@[v].links@[k].bone),
        )
    }

    /// The triangles as sequences of three vertex indices.
    pub open spec fn corners(&self) -> Seq<Seq<usize>> {
        Seq::new(self.triangles@.len(), |t: int| self.triangles@[t]@)
    }

    /// Whether every corner of every triangle is a vertex of the list.
    pub open spec fn indices_in_range(&self) -> bool {
        forall|t: int, c: int|
            0 <= t < self.triangles@.len() && 0 <= c < 3 ==> (#[trigger] self.triangles@[t]@[c])
                < self.vertices@.len()
    }
}

impl Default for TriangleList {
    fn default() -> (created: Self)
        ensures
            created.vertices@ == Seq::<TriangleVertex>::empty(),
            created.triangles@.len() == 0,
    {
        TriangleList { vertices: Vec::new(), triangles: Vec::new() }
    }
}

/// What measures: the part of mesh processing that reads coordinates and
/// weights. Whatever it answers, the processing stays within its bounds; an
/// answer that makes no sense is passed over.
pub trait Measure {
    /// One cost for each corner of a face of more than four corners, in
    /// the order of the corners: the lower the cost, the better the corner
    /// serves as the centre of a fan. The face is one of part `part`.
    fn fan_costs(&self, part: usize, face: &Vec<usize>) -> Vec<u64>;

    /// The positions of the links of a vertex, from the heaviest link down.
    fn rank_links(&self, vertex: &TriangleVertex, links: &Vec<TriangleVertexLink>) -> Vec<usize>;

    /// Takes note of the file whose vertices the following questions are
    /// about: that of model `model` of group `group` of the input.
    fn begin_model(&mut self, path: &String, group: usize, model: usize);

    /// The positions, in `kept`, of the vertices that lie where vertex
    /// `candidate` lies and have its normal, its texture coordinate and its
    /// weights; the nearest first.
    fn coinciding(&mut self, vertices: &Vec<TriangleVertex>, candidate: usize, kept: &Vec<usize>) -> Vec<usize>;
}

/// What a vertex is, as far as a copy has to agree with it.
pub struct VertexView {
    pub part: usize,
    pub vertex: usize,
    pub links: Seq<LinkView>,
}

impl TriangleVertex {
    /// The vertex as a copy has to agree with it.
    pub open spec fn view(&self) -> VertexView {
        VertexView { part: self.part, vertex: self.vertex, links: link_views(self.links@) }
    }
}

/// Whether a mesh has one strip group with one strip, within the limits of
/// both.
pub open spec fn mesh_within_caps(mesh: Mesh) -> bool {
    &&& mesh.strip_groups@.len() == 1
    &&& mesh.strip_groups@[0].strips@.len() == 1
    &&& mesh.strip_groups@[0].vertices@.len() <= crate::process::MAX_STRIP_GROUP_VERTICES
    &&& mesh.strip_groups@[0].strips@[0].hardware_bones@.len()
        <= crate::process::MAX_HARDWARE_BONES_PER_STRIP
}

/// Whether every model that is not blank names a file that is loaded.
pub open spec fn model_files_loaded(input: SourceInput, manager: FileManager) -> bool {
    forall|g: int, m: int|
        0 <= g < input.model_groups@.len() && 0 <= m < input.model_groups@[g].models@.len() && !(
        #[trigger] input.model_groups@[g].models@[m]).blank ==> (
        input.model_groups@[g].models@[m].source_file_path matches Some(path) && (manager.status(
            path@,
        ) matches Some(FileStatus::Loaded(_))))
}

/// Whether a vertex of a processed list is a vertex of an enabled part of
/// the file, with the links of that vertex moved to the bones of the
/// model, merged, and cut down to three with their bones ascending.
pub open spec fn vertex_settled(
    vertex: VertexView,
    file: FileData,
    disabled: Seq<Seq<char>>,
    remap: Seq<usize>,
) -> bool {
    &&& vertex.part < file.parts.values().len()
    &&& !disabled.contains(file.parts.names()[vertex.part as int])
    &&& vertex.vertex < file.parts.values()[vertex.part as int].vertices@.len()
    &&& links_kept(
        vertex.links,
        merged_links(
            import_links(file.parts.values()[vertex.part as int].vertices@[vertex.vertex as int]),
            remap,
            import_links(
                file.parts.values()[vertex.part as int].vertices@[vertex.vertex as int],
            ).len() as int,
        ),
    )
}

/// Whether a processed list is settled: its triangles refer to its
/// vertices, and each vertex is.
pub open spec fn list_settled(
    list: TriangleList,
    file: FileData,
    disabled: Seq<Seq<char>>,
    remap: Seq<usize>,
) -> bool {
    &&& list.indices_in_range()
    &&& forall|v: int|
        0 <= v < list.vertices@.len() ==> vertex_settled(
            (#[trigger] list.vertices@[v])@,
            file,
            disabled,
            remap,
        )
}

/// A settled vertex has at most three links, to bones that ascend; it has
/// a link where the vertex of the file has one.
pub proof fn lemma_settled_links(
    vertex: VertexView,
    file: FileData,
    disabled: Seq<Seq<char>>,
    remap: Seq<usize>,
)
    requires
        vertex_settled(vertex, file, disabled, remap),
    ensures
        vertex.links.len() <= 3,
        forall|k: int|
            0 <= k < vertex.links.len() - 1 ==> (#[trigger] vertex.links[k]).bone < vertex.links[k
                + 1].bone,
        index_set_items(
            file.parts.values()[vertex.part as int].vertices@[vertex.vertex as int].links,
        ).len() >= 1 ==> vertex.links.len() >= 1,
{
    let source = import_links(
        file.parts.values()[vertex.part as int].vertices@[vertex.vertex as int],
    );
    lemma_merged_links(source, remap, source.len() as int);
}

/// Whether the meshes are those of the first `count` triangle lists, list
/// by list: each list is cut into meshes of its material, as the limits of
/// a strip have it.
pub open spec fn meshes_match(
    meshes: Seq<Mesh>,
    materials: Seq<usize>,
    lists: Seq<TriangleList>,
    count: int,
) -> bool
    decreases count,
{
    if count <= 0 {
        meshes.len() == 0
    } else {
        let list = lists[count - 1];
        let own = crate::process::strips::mesh_models(list.link_bones(), list.corners());
        let before = meshes.len() - own.len();
        &&& before >= 0
        &&& meshes_match(meshes.take(before), materials, lists, count - 1)
        &&& forall|m: int|
            before <= m < meshes.len() ==> mesh_matches(
                #[trigger] meshes[m],
                own[m - before],
                materials[count - 1] as int,
                list.link_bones(),
            )
    }
}

/// Whether meshes are those of the first `count` lists rests on these
/// lists alone.
pub proof fn lemma_meshes_match_lists(
    meshes: Seq<Mesh>,
    materials: Seq<usize>,
    lists: Seq<TriangleList>,
    others: Seq<TriangleList>,
    count: int,
)
    requires
        meshes_match(meshes, materials, lists, count),
        forall|i: int| 0 <= i < count ==> #[trigger] lists[i] == others[i],
    ensures
        meshes_match(meshes, materials, others, count),
    decreases count,
{
    if count > 0 {
        let list = lists[count - 1];
        assert(list == others[count - 1]);
        let own = crate::process::strips::mesh_models(list.link_bones(), list.corners());
        lemma_meshes_match_lists(
            meshes.take(meshes.len() - own.len()),
            materials,
            lists,
            others,
            count - 1,
        );
    }
}

/// Builds the meshes of one model from its file.
fn process_model<M: Measure>(
    import_file: &FileData,
    materials: &mut IndexSet<String>,
    input_model: &Model,
    processed_bones: &NameMap<Bone>,
    measure: &mut M,
) -> (processed: Option<(Vec<Mesh>, TriangleLists)>)
    requires
        import_file.well_formed(),
        processed_bones.names().len() <= 256,
    ensures
        names_extended(name_set_items(*old(materials)), name_set_items(*final(materials))),
        name_set_items(*final(materials)) == file_materials(
            name_set_items(*old(materials)),
            *import_file,
            name_set_items(input_model.disabled_parts),
            import_file.parts.names().len() as int,
        ),
        match processed {
            Some(built) => {
                &&& name_set_items(*final(materials)).len() <= MAX_MATERIALS
                &&& lists_match(
                    built.1.materials@,
                    built.1.lists@,
                    *import_file,
                    name_set_items(input_model.disabled_parts),
                    name_set_items(*final(materials)),
                )
                &&& built.0@.len() <= model_triangles(
                    *import_file,
                    name_set_items(input_model.disabled_parts),
                ) + built.1.lists@.len()
                &&& meshes_match(
                    built.0@,
                    built.1.materials@,
                    built.1.lists@,
                    built.1.lists@.len() as int,
                )
                &&& forall|i: int|
                    0 <= i < built.1.lists@.len() ==> list_settled(
                        #[trigger] built.1.lists@[i],
                        *import_file,
                        name_set_items(input_model.disabled_parts),
                        bone_remap(*import_file, processed_bones.names()),
                    )
                &&& forall|i: int| 0 <= i < built.0@.len() ==> mesh_within_caps(#[trigger] built.0@[i])
            },
            None => name_set_items(*final(materials)).len() > MAX_MATERIALS,
        },
{
    let mut triangle_lists = create_triangle_lists(import_file, materials, input_model, measure);
    if name_set_len(materials) > MAX_MATERIALS {
        return None;
    }
    let mut meshes: Vec<Mesh> = Vec::new();
    let mut processed_lists: Vec<TriangleList> = Vec::new();
    let mut i: usize = 0;
    let ghost disabled = name_set_items(input_model.disabled_parts);
    let ghost fresh = triangle_lists.lists@;
    let ghost mine = model_materials(*import_file, disabled);
    while i < triangle_lists.lists.len()
        invariant
            i <= triangle_lists.lists@.len(),
            triangle_lists.materials@.len() == triangle_lists.lists@.len(),
            triangle_lists.lists@.len() == fresh.len(),
            processed_lists@.len() == i,
            import_file.well_formed(),
            processed_bones.names().len() <= 256,
            name_set_items(*materials).len() <= MAX_MATERIALS,
            mine == model_materials(*import_file, disabled),
            lists_match(
                triangle_lists.materials@,
                fresh,
                *import_file,
                disabled,
                name_set_items(*materials),
            ),
            forall|k: int|
                i <= k < triangle_lists.lists@.len() ==> (#[trigger] triangle_lists.lists@[k])
                    == fresh[k],
            forall|k: int|
                0 <= k < i ==> (#[trigger] processed_lists@[k]).triangles@.len()
                    == fresh[k].triangles@.len(),
            forall|k: int|
                0 <= k < fresh.len() ==> list_fresh(#[trigger] fresh[k], *import_file, disabled),
            meshes@.len() <= listed_triangles(*import_file, disabled, i as int) + i,
            meshes_match(meshes@, triangle_lists.materials@, processed_lists@, i as int),
            forall|k: int|
                0 <= k < i ==> list_settled(
                    #[trigger] processed_lists@[k],
                    *import_file,
                    disabled,
                    bone_remap(*import_file, processed_bones.names()),
                ),
            forall|k: int| 0 <= k < meshes@.len() ==> mesh_within_caps(#[trigger] meshes@[k]),
        decreases triangle_lists.lists@.len() - i,
    {
        let material: usize = triangle_lists.materials[i];
        let mut list = TriangleList { vertices: Vec::new(), triangles: Vec::new() };
        let ghost lists_before = triangle_lists.lists@;
        core::mem::swap(&mut list, &mut triangle_lists.lists[i]);
        proof {
            assert(list == lists_before[i as int]);
            assert(list == fresh[i as int]);
            assert forall|k: int| i + 1 <= k < triangle_lists.lists@.len() implies (
            #[trigger] triangle_lists.lists@[k]) == fresh[k] by {
                assert(triangle_lists.lists@[k] == lists_before[k]);
            }
        }
        let built = process_triangle_list(
            list,
            material,
            import_file,
            processed_bones,
            measure,
            Ghost(disabled),
        );
        let mut added_meshes = built.0;
        let ghost held = meshes@;
        let ghost added = added_meshes@;
        let ghost lists_held = processed_lists@;
        meshes.append(&mut added_meshes);
        processed_lists.push(built.1);
        proof {
            assert forall|k: int| 0 <= k < meshes@.len() implies mesh_within_caps(
                #[trigger] meshes@[k],
            ) by {
                if k < held.len() {
                    assert(meshes@[k] == held[k]);
                } else {
                    assert(meshes@[k] == added[k - held.len()]);
                }
            }
            assert forall|k: int| 0 <= k < i + 1 implies (
            #[trigger] processed_lists@[k]).triangles@.len() == fresh[k].triangles@.len() by {
                if k < i {
                    assert(processed_lists@[k] == lists_held[k]);
                }
            }
            assert(fresh[i as int].triangles@.len() == file_triangles(
                *import_file,
                disabled,
                mine[i as int],
                import_file.parts.names().len() as int,
            ));
            lemma_meshes_match_lists(
                held,
                triangle_lists.materials@,
                lists_held,
                processed_lists@,
                i as int,
            );
            assert(meshes@.take(held.len() as int) =~= held);
            assert forall|k: int| 0 <= k < i + 1 implies list_settled(
                #[trigger] processed_lists@[k],
                *import_file,
                disabled,
                bone_remap(*import_file, processed_bones.names()),
            ) by {
                if k < i {
                    assert(processed_lists@[k] == lists_held[k]);
                }
            }
        }
        i += 1;
    }
    Some((meshes, TriangleLists { materials: triangle_lists.materials, lists: processed_lists }))
}

/// Builds the meshes of one material of a model.
fn process_triangle_list<M: Measure>(
    list: TriangleList,
    material: usize,
    import_file: &FileData,
    processed_bones: &NameMap<Bone>,
    measure: &mut M,
    Ghost(disabled): Ghost<Seq<Seq<char>>>,
) -> (processed: (Vec<Mesh>, TriangleList))
    requires
        list_fresh(list, *import_file, disabled),
        material <= MAX_MATERIALS,
        processed_bones.names().len() <= 256,
    ensures
        processed.1.triangles@.len() == list.triangles@.len(),
        processed.0@.len() <= list.triangles@.len() + 1,
        processed.0@.len() == crate::process::strips::mesh_models(
            processed.1.link_bones(),
            processed.1.corners(),
        ).len(),
        list_settled(
            processed.1,
            *import_file,
            disabled,
            bone_remap(*import_file, processed_bones.names()),
        ),
        forall|i: int| 0 <= i < processed.0@.len() ==> mesh_within_caps(#[trigger] processed.0@[i]),
        forall|i: int|
            0 <= i < processed.0@.len() ==> mesh_matches(
                #[trigger] processed.0@[i],
                crate::process::strips::mesh_models(
                    processed.1.link_bones(),
                    processed.1.corners(),
                )[i],
                material as int,
                processed.1.link_bones(),
            ),
{
    let ghost count = list.triangles@.len();
    let mut list = list;
    proof {
        assert forall|t: int, c: int|
            0 <= t < list.triangles@.len() && 0 <= c < 3 implies (#[trigger] list.triangles@[t]@[c])
            < list.vertices@.len() by {
            assert(list.triangles@[t]@ == seq![
                (3 * t) as usize,
                (3 * t + 1) as usize,
                (3 * t + 2) as usize,
            ]);
        }
    }
    let ghost fresh = list.vertices@;
    let ghost remap = bone_remap(*import_file, processed_bones.names());
    let _ = vertices_remap_links(&mut list, import_file, processed_bones, &*measure);
    let ghost moved = list.vertices@;
    proof {
        assert forall|v: int| 0 <= v < moved.len() implies vertex_settled(
            (#[trigger] moved[v])@,
            *import_file,
            disabled,
            remap,
        ) by {
            assert(vertex_from_file(fresh[v], *import_file, disabled));
            assert(links_remapped(moved[v], fresh[v], remap));
        }
    }
    let merge = optimize_merge_vertices(&mut list, measure);
    proof {
        assert forall|v: int| 0 <= v < list.vertices@.len() implies vertex_settled(
            (#[trigger] list.vertices@[v])@,
            *import_file,
            disabled,
            remap,
        ) by {
            assert(list.vertices@[v]@ == moved[merge.kept@[v] as int]@);
            assert(vertex_settled(moved[merge.kept@[v] as int]@, *import_file, disabled, remap));
        }
    }
    optimize_vertex_cache(&mut list);
    let meshes = finalize_triangle_list(material, &list);
    proof {
        assert forall|i: int| 0 <= i < meshes@.len() implies mesh_within_caps(
            #[trigger] meshes@[i],
        ) by {
            let models = crate::process::strips::mesh_models(list.link_bones(), list.corners());
            assert(mesh_matches(meshes@[i], models[i], material as int, list.link_bones()));
        }
        crate::process::strips::lemma_ready(list);
        crate::process::strips::lemma_partition_within_limits(
            list.link_bones(),
            list.corners(),
            list.corners().len(),
        );
    }
    (meshes, list)
}

/// Whether every mesh of every model is within the limits of its strips.
pub open spec fn meshes_within_caps(data: ModelData) -> bool {
    forall|g: int, m: int, i: int|
        0 <= g < data.body_parts.values().len() && 0 <= m < data.body_parts.values()[g].models@.len()
            && 0 <= i < data.body_parts.values()[g].models@[m].meshes@.len() ==> mesh_within_caps(
            #[trigger] data.body_parts.values()[g].models@[m].meshes@[i],
        )
}

/// The names of the first `count` groups, each once, in the order of the
/// input.
pub open spec fn group_names(groups: Seq<BodyGroup>, count: int) -> Seq<Seq<char>>
    decreases count,
{
    if count <= 0 {
        Seq::empty()
    } else {
        inserted_names(group_names(groups, count - 1), groups[count - 1].name@)
    }
}

/// The positions of those of the first `count` models that are not blank.
pub open spec fn kept_models(models: Seq<Model>, count: int) -> Seq<int>
    decreases count,
{
    if count <= 0 {
        Seq::empty()
    } else if models[count - 1].blank {
        kept_models(models, count - 1)
    } else {
        kept_models(models, count - 1).push(count - 1)
    }
}

/// The materials once a model has put in its own, or why the model cannot be
/// built: it names no file, its file is not loaded, or the materials become
/// too many. An earlier error stays; a blank model changes nothing.
pub open spec fn model_outcome(
    manager: FileManager,
    known: Result<Seq<Seq<char>>, ProcessingMeshError>,
    model: Model,
    group: String,
) -> Result<Seq<Seq<char>>, ProcessingMeshError> {
    match known {
        Err(error) => Err(error),
        Ok(materials) => if model.blank {
            Ok(materials)
        } else {
            match model.source_file_path {
                None => Err(ProcessingMeshError::MissingFilePath(model.name, group)),
                Some(path) => match manager.status(path@) {
                    Some(FileStatus::Loaded(data)) => {
                        let after = file_materials(
                            materials,
                            *data,
                            name_set_items(model.disabled_parts),
                            data.parts.names().len() as int,
                        );
                        if after.len() > MAX_MATERIALS {
                            Err(ProcessingMeshError::TooManyMaterials)
                        } else {
                            Ok(after)
                        }
                    },
                    _ => Err(ProcessingMeshError::FileNotLoaded(model.name, group)),
                },
            }
        },
    }
}

/// The materials after the first `count` models of a group, or the first
/// error.
pub open spec fn models_outcome(
    manager: FileManager,
    known: Result<Seq<Seq<char>>, ProcessingMeshError>,
    group: BodyGroup,
    count: int,
) -> Result<Seq<Seq<char>>, ProcessingMeshError>
    decreases count,
{
    if count <= 0 {
        known
    } else {
        model_outcome(
            manager,
            models_outcome(manager, known, group, count - 1),
            group.models@[count - 1],
            group.name,
        )
    }
}

/// The materials after the first `count` groups, or the first error. A
/// group after which there are too many groups is an error as well.
pub open spec fn groups_outcome(manager: FileManager, groups: Seq<BodyGroup>, count: int) -> Result<
    Seq<Seq<char>>,
    ProcessingMeshError,
>
    decreases count,
{
    if count <= 0 {
        Ok(Seq::empty())
    } else {
        match models_outcome(
            manager,
            groups_outcome(manager, groups, count - 1),
            groups[count - 1],
            groups[count - 1].models@.len() as int,
        ) {
            Err(error) => Err(error),
            Ok(materials) => if group_names(groups, count).len() > MAX_MESHES {
                Err(ProcessingMeshError::TooManyModelGroups)
            } else {
                Ok(materials)
            },
        }
    }
}

/// What the input and the files decide of the meshes, whatever is measured:
/// the materials of the compilation in their order, or the first error.
pub open spec fn mesh_outcome(input: SourceInput, manager: FileManager) -> Result<
    Seq<Seq<char>>,
    ProcessingMeshError,
> {
    groups_outcome(manager, input.model_groups@, input.model_groups@.len() as int)
}

/// Once a model has failed, the error stays whatever models follow.
pub proof fn lemma_models_failed(
    manager: FileManager,
    known: Result<Seq<Seq<char>>, ProcessingMeshError>,
    group: BodyGroup,
    failed: int,
    count: int,
)
    requires
        failed <= count,
        models_outcome(manager, known, group, failed) is Err,
    ensures
        models_outcome(manager, known, group, count) == models_outcome(manager, known, group, failed),
    decreases count - failed,
{
    if failed < count {
        lemma_models_failed(manager, known, group, failed, count - 1);
    }
}

/// Once a group has failed, the error stays whatever groups follow.
pub proof fn lemma_groups_failed(manager: FileManager, groups: Seq<BodyGroup>, failed: int, count: int)
    requires
        failed <= count,
        groups_outcome(manager, groups, failed) is Err,
    ensures
        groups_outcome(manager, groups, count) == groups_outcome(manager, groups, failed),
    decreases count - failed,
{
    if failed < count {
        lemma_groups_failed(manager, groups, failed, count - 1);
        lemma_models_failed(
            manager,
            groups_outcome(manager, groups, count - 1),
            groups[count - 1],
            0,
            groups[count - 1].models@.len() as int,
        );
    }
}

/// Whether a model has more triangles than there can be meshes: only such a
/// model can have too many meshes.
pub open spec fn model_overfull(manager: FileManager, model: Model) -> bool {
    match model.source_file_path {
        Some(path) => match manager.status(path@) {
            Some(FileStatus::Loaded(data)) => !model.blank && model_triangles(
                *data,
                name_set_items(model.disabled_parts),
            ) + model_materials(*data, name_set_items(model.disabled_parts)).len() > MAX_MESHES,
            _ => false,
        },
        None => false,
    }
}

/// Whether a processed model is that of a model of the input: it has its
/// name, its triangle lists are those of the file of the model, with
/// vertices of that file linked to the bones of the model, and its meshes
/// are what these lists are cut into.
pub open spec fn model_built(
    model: crate::process::Model,
    source: Model,
    manager: FileManager,
    materials: Seq<Seq<char>>,
    bones: Seq<Seq<char>>,
) -> bool {
    &&& model.name == source.name
    &&& meshes_match(
        model.meshes@,
        model.materials@,
        model.triangle_lists@,
        model.triangle_lists@.len() as int,
    )
    &&& match source.source_file_path {
        Some(path) => match manager.status(path@) {
            Some(FileStatus::Loaded(data)) => lists_match(
                model.materials@,
                model.triangle_lists@,
                *data,
                name_set_items(source.disabled_parts),
                materials,
            ) && forall|i: int|
                0 <= i < model.triangle_lists@.len() ==> list_settled(
                    #[trigger] model.triangle_lists@[i],
                    *data,
                    name_set_items(source.disabled_parts),
                    bone_remap(*data, bones),
                ),
            _ => false,
        },
        None => false,
    }
}

/// Whether the models are those of the first `count` models of a group that
/// are not blank, in their order.
pub open spec fn models_built(
    models: Seq<crate::process::Model>,
    group: BodyGroup,
    count: int,
    manager: FileManager,
    materials: Seq<Seq<char>>,
    bones: Seq<Seq<char>>,
) -> bool {
    let kept = kept_models(group.models@, count);
    &&& models.len() == kept.len()
    &&& forall|j: int|
        0 <= j < kept.len() ==> model_built(
            #[trigger] models[j],
            group.models@[kept[j]],
            manager,
            materials,
            bones,
        )
}

/// Whether no group from `g + 1` to `count - 1` has the name of group `g`.
pub open spec fn last_among(groups: Seq<BodyGroup>, g: int, count: int) -> bool {
    forall|h: int| g < h < count ==> (#[trigger] groups[h]).name@ != groups[g].name@
}

/// Whether the models under the name of group `g` are those of group `g`.
pub open spec fn group_built(
    names: Seq<Seq<char>>,
    parts: Seq<BodyPart>,
    groups: Seq<BodyGroup>,
    g: int,
    manager: FileManager,
    materials: Seq<Seq<char>>,
    bones: Seq<Seq<char>>,
) -> bool {
    &&& names.contains(groups[g].name@)
    &&& models_built(
        parts[names.index_of(groups[g].name@)].models@,
        groups[g],
        groups[g].models@.len() as int,
        manager,
        materials,
        bones,
    )
}

/// Models that are built among some materials are built among more.
pub proof fn lemma_models_built_extended(
    models: Seq<crate::process::Model>,
    group: BodyGroup,
    count: int,
    manager: FileManager,
    materials: Seq<Seq<char>>,
    more: Seq<Seq<char>>,
    bones: Seq<Seq<char>>,
)
    requires
        models_built(models, group, count, manager, materials, bones),
        names_extended(materials, more),
    ensures
        models_built(models, group, count, manager, more, bones),
{
    let kept = kept_models(group.models@, count);
    assert forall|j: int| 0 <= j < kept.len() implies model_built(
        #[trigger] models[j],
        group.models@[kept[j]],
        manager,
        more,
        bones,
    ) by {
        let source = group.models@[kept[j]];
        assert(model_built(models[j], source, manager, materials, bones));
        let data = manager.status(source.source_file_path->Some_0@)->Some_0->Loaded_0;
        lemma_lists_match_extended(
            models[j].materials@,
            models[j].triangle_lists@,
            *data,
            name_set_items(source.disabled_parts),
            materials,
            more,
        );
    }
}

/// Builds the meshes of everything that is compiled. The models of a group
/// come in the order of the input, without the blank ones; each has one
/// triangle list for each material of its file, and its meshes material by
/// material. The groups stand under their names: of two groups with one
/// name the later one stays. What is measured decides where faces of five
/// or more corners are cut, which links and which vertices are kept, and so
/// which meshes come out; it decides neither the materials nor the errors,
/// but for the one of a model with too many meshes.
pub fn process_meshes<M: Measure>(
    input_data: &SourceInput,
    source_files: &FileManager,
    processed_bone_data: &BoneData,
    measure: &mut M,
) -> (processed: Result<ModelData, ProcessingMeshError>)
    requires
        processed_bone_data.processed_bones.names().len() <= 256,
    ensures
        match processed {
            Ok(data) => {
                &&& mesh_outcome(*input_data, *source_files) == Ok::<
                    Seq<Seq<char>>,
                    ProcessingMeshError,
                >(name_set_items(data.materials))
                &&& model_files_loaded(*input_data, *source_files)
                &&& name_set_items(data.materials).len() <= MAX_MATERIALS
                &&& data.body_parts.well_formed()
                &&& data.body_parts.names() == group_names(
                    input_data.model_groups@,
                    input_data.model_groups@.len() as int,
                )
                &&& data.body_parts.names().len() <= MAX_MESHES
                &&& meshes_within_caps(data)
                &&& forall|g: int|
                    0 <= g < input_data.model_groups@.len() && last_among(
                        input_data.model_groups@,
                        g,
                        input_data.model_groups@.len() as int,
                    ) ==> #[trigger] group_built(
                        data.body_parts.names(),
                        data.body_parts.values(),
                        input_data.model_groups@,
                        g,
                        *source_files,
                        name_set_items(data.materials),
                        processed_bone_data.processed_bones.names(),
                    )
            },
            Err(ProcessingMeshError::TooManyMeshes(model, group)) => exists|g: int, m: int|
                0 <= g < input_data.model_groups@.len() && 0 <= m
                    < input_data.model_groups@[g].models@.len() && #[trigger] model_overfull(
                    *source_files,
                    input_data.model_groups@[g].models@[m],
                ) && input_data.model_groups@[g].models@[m].name == model
                    && input_data.model_groups@[g].name == group,
            Err(error) => mesh_outcome(*input_data, *source_files) == Err::<
                Seq<Seq<char>>,
                ProcessingMeshError,
            >(error),
        },
{
    let ghost groups = input_data.model_groups@;
    let ghost total = input_data.model_groups@.len() as int;
    let mut body_parts: NameMap<BodyPart> = NameMap::new();
    let mut materials = name_set_new();
    let mut g: usize = 0;
    while g < input_data.model_groups.len()
        invariant
            g <= input_data.model_groups@.len(),
            groups == input_data.model_groups@,
            total == groups.len(),
            processed_bone_data.processed_bones.names().len() <= 256,
            body_parts.well_formed(),
            body_parts.names() == group_names(groups, g as int),
            body_parts.names().len() <= MAX_MESHES,
            name_set_items(materials).len() <= MAX_MATERIALS,
            groups_outcome(*source_files, groups, g as int) == Ok::<
                Seq<Seq<char>>,
                ProcessingMeshError,
            >(name_set_items(materials)),
            forall|i: int, m: int|
                0 <= i < g && 0 <= m < input_data.model_groups@[i].models@.len() && !(
                #[trigger] input_data.model_groups@[i].models@[m]).blank ==> (
                input_data.model_groups@[i].models@[m].source_file_path matches Some(path) && (
                source_files.status(path@) matches Some(FileStatus::Loaded(_)))),
            forall|i: int|
                0 <= i < g && last_among(groups, i, g as int) ==> #[trigger] group_built(
                    body_parts.names(),
                    body_parts.values(),
                    groups,
                    i,
                    *source_files,
                    name_set_items(materials),
                    processed_bone_data.processed_bones.names(),
                ),
            forall|i: int, m: int, k: int|
                0 <= i < body_parts.values().len() && 0 <= m < body_parts.values()[i].models@.len()
                    && 0 <= k < body_parts.values()[i].models@[m].meshes@.len()
                    ==> mesh_within_caps(#[trigger] body_parts.values()[i].models@[m].meshes@[k]),
        decreases input_data.model_groups@.len() - g,
    {
        let group = &input_data.model_groups[g];
        let ghost base = name_set_items(materials);
        let ghost start = Ok::<Seq<Seq<char>>, ProcessingMeshError>(base);
        let mut models: Vec<crate::process::Model> = Vec::new();
        let mut m: usize = 0;
        while m < group.models.len()
            invariant
                m <= group.models@.len(),
                g < input_data.model_groups@.len(),
                groups == input_data.model_groups@,
                total == groups.len(),
                *group == input_data.model_groups@[g as int],
                processed_bone_data.processed_bones.names().len() <= 256,
                name_set_items(materials).len() <= MAX_MATERIALS,
                start == Ok::<Seq<Seq<char>>, ProcessingMeshError>(base),
                groups_outcome(*source_files, groups, g as int) == start,
                names_extended(base, name_set_items(materials)),
                models_outcome(*source_files, start, *group, m as int) == Ok::<
                    Seq<Seq<char>>,
                    ProcessingMeshError,
                >(name_set_items(materials)),
                models_built(
                    models@,
                    *group,
                    m as int,
                    *source_files,
                    name_set_items(materials),
                    processed_bone_data.processed_bones.names(),
                ),
                forall|j: int|
                    0 <= j < m && !(#[trigger] group.models@[j]).blank ==> (
                    group.models@[j].source_file_path matches Some(path) && (source_files.status(
                        path@,
                    ) matches Some(FileStatus::Loaded(_)))),
                forall|j: int, k: int|
                    0 <= j < models@.len() && 0 <= k < models@[j].meshes@.len()
                        ==> mesh_within_caps(#[trigger] models@[j].meshes@[k]),
            decreases group.models@.len() - m,
        {
            let input_model = &group.models[m];
            let ghost before = Ok::<Seq<Seq<char>>, ProcessingMeshError>(name_set_items(materials));
            let ghost after = model_outcome(*source_files, before, *input_model, group.name);
            assert(models_outcome(*source_files, start, *group, m + 1) == after);
            if !input_model.blank {
                let path = match &input_model.source_file_path {
                    Some(path) => path,
                    None => {
                        proof {
                            lemma_models_failed(
                                *source_files,
                                start,
                                *group,
                                m + 1,
                                group.models@.len() as int,
                            );
                            lemma_groups_failed(*source_files, groups, g + 1, total);
                        }
                        return Err(
                            ProcessingMeshError::MissingFilePath(
                                input_model.name.clone(),
                                group.name.clone(),
                            ),
                        );
                    },
                };
                let import_file = match source_files.get_file_data(path.as_str()) {
                    Some(data) => data,
                    None => {
                        proof {
                            lemma_models_failed(
                                *source_files,
                                start,
                                *group,
                                m + 1,
                                group.models@.len() as int,
                            );
                            lemma_groups_failed(*source_files, groups, g + 1, total);
                        }
                        return Err(
                            ProcessingMeshError::FileNotLoaded(
                                input_model.name.clone(),
                                group.name.clone(),
                            ),
                        );
                    },
                };
                measure.begin_model(path, g, m);
                let ghost known = name_set_items(materials);
                let built = match process_model(
                    &import_file,
                    &mut materials,
                    input_model,
                    &processed_bone_data.processed_bones,
                    measure,
                ) {
                    Some(built) => built,
                    None => {
                        proof {
                            lemma_models_failed(
                                *source_files,
                                start,
                                *group,
                                m + 1,
                                group.models@.len() as int,
                            );
                            lemma_groups_failed(*source_files, groups, g + 1, total);
                        }
                        return Err(ProcessingMeshError::TooManyMaterials);
                    },
                };
                let meshes = built.0;
                if meshes.len() > MAX_MESHES {
                    proof {
                        assert(model_overfull(
                            *source_files,
                            input_data.model_groups@[g as int].models@[m as int],
                        ));
                    }
                    return Err(
                        ProcessingMeshError::TooManyMeshes(
                            input_model.name.clone(),
                            group.name.clone(),
                        ),
                    );
                }
                let ghost held = models@;
                proof {
                    lemma_models_built_extended(
                        held,
                        *group,
                        m as int,
                        *source_files,
                        known,
                        name_set_items(materials),
                        processed_bone_data.processed_bones.names(),
                    );
                }
                models.push(
                    crate::process::Model {
                        name: input_model.name.clone(),
                        meshes,
                        materials: built.1.materials,
                        triangle_lists: built.1.lists,
                    },
                );
                proof {
                    assert forall|j: int, k: int|
                        0 <= j < models@.len() && 0 <= k < models@[j].meshes@.len()
                        implies mesh_within_caps(#[trigger] models@[j].meshes@[k]) by {
                        if j < held.len() {
                            assert(models@[j] == held[j]);
                        }
                    }
                    let kept = kept_models(group.models@, m + 1);
                    assert forall|j: int| 0 <= j < kept.len() implies model_built(
                        #[trigger] models@[j],
                        group.models@[kept[j]],
                        *source_files,
                        name_set_items(materials),
                        processed_bone_data.processed_bones.names(),
                    ) by {
                        if j < held.len() {
                            assert(models@[j] == held[j]);
                        }
                    }
                }
            }
            m += 1;
        }
        let ghost names_before = body_parts.names();
        let ghost values_before = body_parts.values();
        let ghost items = name_set_items(materials);
        let _ = body_parts.insert(group.name.clone(), BodyPart { models });
        proof {
            let names = body_parts.names();
            let values = body_parts.values();
            let name = group.name@;
            assert forall|i: int, j: int, k: int|
                0 <= i < values.len() && 0 <= j < values[i].models@.len() && 0 <= k
                    < values[i].models@[j].meshes@.len() implies mesh_within_caps(
                #[trigger] values[i].models@[j].meshes@[k],
            ) by {
                if names_before.contains(name) {
                    if i != names_before.index_of(name) {
                        assert(values[i] == values_before[i]);
                    }
                } else if i < values_before.len() {
                    assert(values[i] == values_before[i]);
                }
            }
            assert forall|i: int, j: int|
                0 <= i < g + 1 && 0 <= j < input_data.model_groups@[i].models@.len() && !(
                #[trigger] input_data.model_groups@[i].models@[j]).blank implies (
            input_data.model_groups@[i].models@[j].source_file_path matches Some(path) && (
            source_files.status(path@) matches Some(FileStatus::Loaded(_)))) by {
                if i == g {
                    assert(!group.models@[j].blank);
                }
            }
            assert forall|i: int| 0 <= i < g + 1 && last_among(groups, i, g + 1) implies #[trigger] group_built(
                names,
                values,
                groups,
                i,
                *source_files,
                items,
                processed_bone_data.processed_bones.names(),
            ) by {
                let wanted = groups[i].name@;
                if i < g as int {
                    assert(last_among(groups, i, g as int));
                    assert(group_built(
                        names_before,
                        values_before,
                        groups,
                        i,
                        *source_files,
                        base,
                        processed_bone_data.processed_bones.names(),
                    ));
                    assert(groups[g as int].name@ != wanted);
                    let at = names_before.index_of(wanted);
                    assert(names[at] == wanted);
                    assert(names.index_of(wanted) == at);
                    assert(values[at] == values_before[at]);
                    lemma_models_built_extended(
                        values_before[at].models@,
                        groups[i],
                        groups[i].models@.len() as int,
                        *source_files,
                        base,
                        items,
                        processed_bone_data.processed_bones.names(),
                    );
                } else {
                    if names_before.contains(wanted) {
                        let at = names_before.index_of(wanted);
                        assert(names[at] == wanted);
                        assert(names.index_of(wanted) == at);
                    } else {
                        let at = names_before.len() as int;
                        assert(names[at] == wanted);
                        assert(names.index_of(wanted) == at);
                    }
                }
            }
        }
        g += 1;
        if body_parts.len() > MAX_MESHES {
            proof {
                lemma_groups_failed(*source_files, groups, g as int, total);
            }
            return Err(ProcessingMeshError::TooManyModelGroups);
        }
    }
    Ok(ModelData { body_parts, materials })
}

} // verus!
