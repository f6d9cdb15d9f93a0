//! The processed model and the stages that build it.

use crate::import::manager::FileManager;
use crate::input::SourceInput;
use crate::names::NameMap;
use crate::process::animation::{
    animation_jobs, animation_names_distinct, animation_used, clips_in_range,
    lemma_remap_covers, process_animations, remap_of, ProcessingAnimationError,
};
use crate::process::bones::{collapsed, process_bones, processed_skeleton, ProcessingBoneError};
use crate::process::mesh::{process_meshes, Measure, ProcessingMeshError};
use crate::process::sequences::{
    process_sequences, sequence_names_distinct, ProcessingSequenceError, MAX_SEQUENCES,
};
use crate::ordered::{index_map_entries, name_set_items};
use indexmap::IndexMap;
use indexmap::IndexSet;
use vstd::prelude::*;

pub mod animation;
pub mod bones;
pub mod links;
pub mod mesh;
pub mod sequences;
pub mod strips;
pub mod vertex_cache;

verus! {

/// The number of bones that one strip may address.
pub const MAX_HARDWARE_BONES_PER_STRIP: usize = 53;

/// The number of vertices that the simulated post-transform cache holds.
pub const VERTEX_CACHE_SIZE: usize = 16;

/// The number of vertices that one strip group may hold: what a 16-bit index
/// can address.
pub const MAX_STRIP_GROUP_VERTICES: usize = 65536;

/// The flag of a bone that a vertex of an enabled part is linked to.
pub const USED_BY_VERTEX: i32 = 0x0000_0400;

/// What a bone is used by, as a set of flags.
#[derive(Clone, Copy, Debug, PartialEq, Eq, Structural)]
pub struct BoneFlags {
    pub bits: i32,
}

impl BoneFlags {
    /// No flag.
    pub fn empty() -> (flags: Self)
        ensures
            flags.bits == 0,
    {
        BoneFlags { bits: 0 }
    }

    /// The flag `USED_BY_VERTEX` alone.
    pub fn used_by_vertex() -> (flags: Self)
        ensures
            flags.bits == USED_BY_VERTEX,
    {
        BoneFlags { bits: USED_BY_VERTEX }
    }

    /// Whether no flag is set.
    pub fn is_empty(self) -> (empty: bool)
        ensures
            empty == (self.bits == 0),
    {
        self.bits == 0
    }

    /// Whether every flag of `other` is set.
    pub fn contains(self, other: BoneFlags) -> (all: bool)
        ensures
            all == (self.bits & other.bits == other.bits),
    {
        self.bits & other.bits == other.bits
    }

    /// Sets the flags of `other` as well.
    pub fn insert(&mut self, other: BoneFlags)
        ensures
            final(self).bits == old(self).bits | other.bits,
    {
        self.bits = self.bits | other.bits;
    }
}

impl Default for BoneFlags {
    fn default() -> (flags: Self)
        ensures
            flags.bits == 0,
    {
        BoneFlags { bits: 0 }
    }
}

/// The flags of a bone that is used by a vertex or not.
pub open spec fn vertex_flags(used: bool) -> BoneFlags {
    BoneFlags { bits: if used { USED_BY_VERTEX } else { 0 } }
}

/// The largest number of bones that a model may have.
pub const MAX_BONES: usize = 128;

/// A bone as the files define it, before unused bones are collapsed.
#[derive(Clone, Copy, Debug)]
pub struct SourceBone {
    /// The position of the parent among the source bones; `None` for a root.
    pub parent: Option<usize>,
    pub flags: BoneFlags,
    /// The file that defines the bone: a position in `BoneData::source_files`.
    pub file: usize,
    /// The position of the bone in the skeleton of that file.
    pub bone: usize,
}

/// A bone of the processed skeleton.
#[derive(Clone, Copy, Debug)]
pub struct Bone {
    /// The position of the parent in the processed skeleton; `None` for a
    /// root.
    pub parent: Option<usize>,
    pub flags: BoneFlags,
    /// The source bone that this one is: a position in
    /// `BoneData::source_bones`.
    pub source: usize,
}

/// The skeleton of a model.
pub struct BoneData {
    /// The bones that are left after the collapse, by name.
    pub processed_bones: NameMap<Bone>,
    /// The positions of the processed bones, in the order of their names.
    pub sorted_bones_by_name: Vec<u8>,
    /// The bones of all files, by name, as they were before the collapse.
    pub source_bones: NameMap<SourceBone>,
    /// The paths of the files that the source bones refer to.
    pub source_files: Vec<String>,
}

/// The largest number of animations that a model may have.
pub const MAX_ANIMATIONS: usize = 32768;

/// The number of frames of a section of a long animation.
pub const FRAMES_PER_SECTION: usize = 30;

/// The number of frames from which on an animation is cut into sections.
pub const SECTION_SPLIT_THRESHOLD: usize = 120;

/// Where the pose of a processed bone comes from in an animation.
#[derive(Clone, Copy, Debug, PartialEq, Eq, Structural)]
pub enum TrackSource {
    /// From the bone of this position in the file of the animation, which
    /// has the same name.
    Imported(usize),
    /// From the pose of the processed bone of this position, its parent,
    /// with the bone's own rest pose on top.
    Parent(usize),
    /// From the rest pose of the bone in the model.
    Rest,
}

/// For each frame of an animation, where the location and the rotation of an
/// imported bone come from: the key of this position in the channel of the
/// bone, or, for `None`, the rest pose of the bone.
pub struct ImportedTrack {
    pub location: Vec<Option<usize>>,
    pub rotation: Vec<Option<usize>>,
}

/// The frames of one bone in one section: `first_frame` up to and including
/// `last_frame`.
#[derive(Clone, Copy, Debug)]
pub struct AnimatedBoneData {
    pub bone: u8,
    pub first_frame: usize,
    pub last_frame: usize,
}

/// A processed animation: which frames of which bone each section holds, and
/// where the poses are taken from.
pub struct Animation {
    pub frame_count: usize,
    /// For each section, one entry for each processed bone.
    pub sections: Vec<Vec<AnimatedBoneData>>,
    /// The path of the file of the animation.
    pub source_file: String,
    /// The position of the animation in that file.
    pub source_animation: usize,
    /// One track for each bone of the file.
    pub imported_tracks: Vec<ImportedTrack>,
    /// One source for each processed bone.
    pub sources: Vec<TrackSource>,
}

/// The animations of a model.
pub struct AnimationData {
    /// The animations that a sequence uses, by name.
    pub processed_animations: NameMap<Animation>,
    /// For the identifier of each of these animations, its position.
    pub remapped_animations: IndexMap<usize, usize>,
}

/// A processed sequence: a grid of positions of processed animations.
pub struct Sequence {
    pub animations: Vec<Vec<i16>>,
}

/// One slot of a strip's bone palette.
#[derive(Clone, Copy, Debug)]
pub struct HardwareBone {
    /// The slot.
    pub hardware_bone: i32,
    /// The processed bone that the slot stands for.
    pub bone_table_bone: i32,
}

/// A run of indices of a strip group that shares one bone palette.
#[derive(Clone, Debug)]
pub struct Strip {
    pub indices_count: i32,
    pub indices_offset: i32,
    pub vertex_count: i32,
    pub vertex_offset: i32,
    /// The largest number of links of any vertex of the strip.
    pub bone_count: i16,
    pub hardware_bones: Vec<HardwareBone>,
}

/// A vertex of a strip group.
#[derive(Clone, Copy, Debug)]
pub struct MeshVertex {
    /// The number of bones that the vertex is linked to.
    pub bone_count: u8,
    /// The position of the vertex in the mesh's vertex data.
    pub vertex_index: u16,
    /// For each link, the palette slot of its bone.
    pub bones: [u8; 3],
}

/// Vertices, indices into them, and the strips that the indices form.
#[derive(Clone, Debug)]
pub struct StripGroup {
    pub vertices: Vec<MeshVertex>,
    pub indices: Vec<u16>,
    pub strips: Vec<Strip>,
}

/// A vertex of a mesh. Its coordinates, tangent and weights are those of the
/// triangle-list vertex `source`; only the bones are held here.
#[derive(Clone, Copy, Debug)]
pub struct Vertex {
    /// For each link, its processed bone.
    pub bones: [u8; 3],
    /// The number of bones that the vertex is linked to.
    pub bone_count: u8,
    /// The vertex of the triangle list that this one was made from.
    pub source: usize,
}

/// The triangles of one material that fit into one index space and one bone
/// palette.
#[derive(Clone, Debug)]
pub struct Mesh {
    pub material: i32,
    pub vertex_data: Vec<Vertex>,
    pub strip_groups: Vec<StripGroup>,
}

/// A processed model: its meshes, material by material, and the triangle
/// lists that they were cut from.
pub struct Model {
    pub name: String,
    pub meshes: Vec<Mesh>,
    /// The materials of the model, as positions in the list of all
    /// materials, in the order in which the model first uses them.
    pub materials: Vec<usize>,
    /// For each of `materials` its triangle list, as it was cut into
    /// meshes. The vertices of a mesh refer to the list of its material.
    pub triangle_lists: Vec<crate::process::mesh::TriangleList>,
}

/// The models of one group of the input, without the blank ones.
pub struct BodyPart {
    pub models: Vec<Model>,
}

/// The meshes of everything that is compiled.
pub struct ModelData {
    /// The groups of the input, by name.
    pub body_parts: NameMap<BodyPart>,
    /// The materials that the meshes refer to by their position.
    pub materials: IndexSet<String>,
}

/// The largest number of materials that a model may have.
pub const MAX_MATERIALS: usize = 32768;

/// The largest number of meshes of a model, and of groups of models.
pub const MAX_MESHES: usize = 0x8000_0000;

impl Default for HardwareBone {
    fn default() -> (created: Self)
        ensures
            created == (HardwareBone { hardware_bone: 0, bone_table_bone: 0 }),
    {
        HardwareBone { hardware_bone: 0, bone_table_bone: 0 }
    }
}

impl Default for Strip {
    fn default() -> (created: Self)
        ensures
            created.indices_count == 0,
            created.indices_offset == 0,
            created.vertex_count == 0,
            created.vertex_offset == 0,
            created.bone_count == 0,
            created.hardware_bones@ == Seq::<HardwareBone>::empty(),
    {
        Strip {
            indices_count: 0,
            indices_offset: 0,
            vertex_count: 0,
            vertex_offset: 0,
            bone_count: 0,
            hardware_bones: Vec::new(),
        }
    }
}

impl Default for MeshVertex {
    fn default() -> (created: Self)
        ensures
            created.bone_count == 0,
            created.vertex_index == 0,
            created.bones@ == seq![0u8, 0u8, 0u8],
    {
        MeshVertex { bone_count: 0, vertex_index: 0, bones: [0, 0, 0] }
    }
}

impl Default for StripGroup {
    fn default() -> (created: Self)
        ensures
            created.vertices@ == Seq::<MeshVertex>::empty(),
            created.indices@ == Seq::<u16>::empty(),
            created.strips@ == Seq::<Strip>::empty(),
    {
        StripGroup { vertices: Vec::new(), indices: Vec::new(), strips: Vec::new() }
    }
}

impl Default for Vertex {
    fn default() -> (created: Self)
        ensures
            created.bone_count == 0,
            created.source == 0,
            created.bones@ == seq![0u8, 0u8, 0u8],
    {
        Vertex { bones: [0, 0, 0], bone_count: 0, source: 0 }
    }
}

impl Default for Mesh {
    fn default() -> (created: Self)
        ensures
            created.material == 0,
            created.vertex_data@ == Seq::<Vertex>::empty(),
            created.strip_groups@ == Seq::<StripGroup>::empty(),
    {
        Mesh { material: 0, vertex_data: Vec::new(), strip_groups: Vec::new() }
    }
}

/// Everything that a model is written from.
pub struct ProcessedData {
    pub bone_data: BoneData,
    pub animation_data: AnimationData,
    pub sequence_data: NameMap<Sequence>,
    pub model_data: ModelData,
}

/// Why a model could not be processed.
pub enum ProcessingDataError {
    /// No bone is left after the collapse.
    NoBones,
    /// The model has no sequence.
    NoSequences,
    /// No animation is used by a sequence.
    NoAnimations,
    ProcessingBoneError(ProcessingBoneError),
    ProcessingAnimationError(ProcessingAnimationError),
    ProcessingSequenceError(ProcessingSequenceError),
    ProcessingMeshError(ProcessingMeshError),
}

/// Whether every cell of every sequence names an animation of the input.
pub open spec fn cells_name_animations(input: SourceInput) -> bool {
    forall|s: int, r: int, c: int|
        0 <= s < input.sequences@.len() && 0 <= r < input.sequences@[s].animations@.len() && 0 <= c
            < input.sequences@[s].animations@[r]@.len() ==> exists|a: int|
            0 <= a < input.animations@.len() && (#[trigger] input.animations@[a]).animation_identifier
                == #[trigger] input.sequences@[s].animations@[r]@[c]
}

/// What the stages before the meshes come to: the error of the first stage
/// that fails, or nothing where they all succeed.
pub open spec fn early_failure(input: SourceInput, manager: FileManager) -> Option<
    ProcessingDataError,
> {
    match processed_skeleton(input, manager) {
        Err(error) => Some(ProcessingDataError::ProcessingBoneError(error)),
        Ok((uses, names, bones)) => if collapsed(bones, bones.len() as int).len() == 0 {
            Some(ProcessingDataError::NoBones)
        } else {
            match animation_jobs(input, manager, input.animations@.len() as int) {
                Err(error) => Some(ProcessingDataError::ProcessingAnimationError(error)),
                Ok(jobs) => if jobs.len() > MAX_ANIMATIONS {
                    Some(
                        ProcessingDataError::ProcessingAnimationError(
                            ProcessingAnimationError::TooManyAnimations,
                        ),
                    )
                } else if jobs.len() == 0 {
                    Some(ProcessingDataError::NoAnimations)
                } else if input.sequences@.len() > MAX_SEQUENCES {
                    Some(
                        ProcessingDataError::ProcessingSequenceError(
                            ProcessingSequenceError::TooManySequences,
                        ),
                    )
                } else if input.sequences@.len() == 0 {
                    Some(ProcessingDataError::NoSequences)
                } else {
                    None
                },
            }
        },
    }
}

/// Whether an error of the mesh stage is one of a file: a model that names
/// none, or a file that is not loaded.
pub open spec fn is_file_error(error: ProcessingMeshError) -> bool {
    error is MissingFilePath || error is FileNotLoaded
}

/// Where the uses of the models of a group are gathered, each model that
/// is not blank names a file that is loaded.
pub proof fn lemma_model_uses_loaded(
    manager: FileManager,
    so_far: Result<Seq<crate::process::bones::UseView>, ProcessingBoneError>,
    group: crate::input::BodyGroup,
    count: int,
)
    requires
        crate::process::bones::model_uses(manager, so_far, group, count) is Ok,
    ensures
        so_far is Ok,
        forall|m: int|
            0 <= m < count ==> crate::process::bones::model_use(
                manager,
                #[trigger] group.models@[m],
                group.name,
            ) is Ok,
    decreases count,
{
    if count > 0 {
        lemma_model_uses_loaded(manager, so_far, group, count - 1);
    }
}

/// Where the uses of the groups are gathered, each model that is not blank
/// names a file that is loaded.
pub proof fn lemma_group_uses_loaded(
    manager: FileManager,
    groups: Seq<crate::input::BodyGroup>,
    count: int,
)
    requires
        crate::process::bones::group_uses(manager, groups, count) is Ok,
    ensures
        forall|g: int, m: int|
            0 <= g < count && 0 <= m < groups[g].models@.len()
                ==> crate::process::bones::model_use(
                manager,
                #[trigger] groups[g].models@[m],
                groups[g].name,
            ) is Ok,
    decreases count,
{
    if count > 0 {
        lemma_model_uses_loaded(
            manager,
            crate::process::bones::group_uses(manager, groups, count - 1),
            groups[count - 1],
            groups[count - 1].models@.len() as int,
        );
        lemma_group_uses_loaded(manager, groups, count - 1);
    }
}

/// Where the uses of the animations are gathered, those before them were.
pub proof fn lemma_animation_uses_started(
    manager: FileManager,
    so_far: Result<Seq<crate::process::bones::UseView>, ProcessingBoneError>,
    animations: Seq<crate::input::Animation>,
    count: int,
)
    requires
        crate::process::bones::animation_uses(manager, so_far, animations, count) is Ok,
    ensures
        so_far is Ok,
    decreases count,
{
    if count > 0 {
        lemma_animation_uses_started(manager, so_far, animations, count - 1);
    }
}

/// Where the files are loaded, the models of a group meet no error of a
/// file.
pub proof fn lemma_models_outcome_loaded(
    manager: FileManager,
    known: Result<Seq<Seq<char>>, ProcessingMeshError>,
    group: crate::input::BodyGroup,
    count: int,
)
    requires
        0 <= count <= group.models@.len(),
        known matches Err(error) ==> !is_file_error(error),
        forall|m: int|
            0 <= m < group.models@.len() ==> crate::process::bones::model_use(
                manager,
                #[trigger] group.models@[m],
                group.name,
            ) is Ok,
    ensures
        crate::process::mesh::models_outcome(manager, known, group, count) matches Err(error)
            ==> !is_file_error(error),
    decreases count,
{
    if count > 0 {
        lemma_models_outcome_loaded(manager, known, group, count - 1);
        assert(crate::process::bones::model_use(manager, group.models@[count - 1], group.name) is Ok);
    }
}

/// Where the files are loaded, the groups meet no error of a file.
pub proof fn lemma_groups_outcome_loaded(
    manager: FileManager,
    groups: Seq<crate::input::BodyGroup>,
    count: int,
)
    requires
        0 <= count <= groups.len(),
        forall|g: int, m: int|
            0 <= g < groups.len() && 0 <= m < groups[g].models@.len()
                ==> crate::process::bones::model_use(
                manager,
                #[trigger] groups[g].models@[m],
                groups[g].name,
            ) is Ok,
    ensures
        crate::process::mesh::groups_outcome(manager, groups, count) matches Err(error)
            ==> !is_file_error(error),
    decreases count,
{
    if count > 0 {
        lemma_groups_outcome_loaded(manager, groups, count - 1);
        let group = groups[count - 1];
        assert forall|m: int| 0 <= m < group.models@.len() implies crate::process::bones::model_use(
            manager,
            #[trigger] group.models@[m],
            group.name,
        ) is Ok by {
            assert(crate::process::bones::model_use(
                manager,
                groups[count - 1].models@[m],
                groups[count - 1].name,
            ) is Ok);
        }
        lemma_models_outcome_loaded(
            manager,
            crate::process::mesh::groups_outcome(manager, groups, count - 1),
            group,
            group.models@.len() as int,
        );
    }
}

/// The stages fail in their order: where a skeleton can be made, every
/// model that is not blank names a file that is loaded, so the meshes meet
/// no error of a file.
pub proof fn lemma_files_fail_early(input: SourceInput, manager: FileManager)
    requires
        processed_skeleton(input, manager) is Ok,
    ensures
        crate::process::mesh::mesh_outcome(input, manager) matches Err(error) ==> !is_file_error(
            error,
        ),
{
    let groups = input.model_groups@;
    lemma_animation_uses_started(
        manager,
        crate::process::bones::group_uses(manager, groups, groups.len() as int),
        input.animations@,
        input.animations@.len() as int,
    );
    lemma_group_uses_loaded(manager, groups, groups.len() as int);
    lemma_groups_outcome_loaded(manager, groups, groups.len() as int);
}

/// Where the uses of the animations are gathered, each animation names a
/// file that is loaded.
pub proof fn lemma_animation_uses_loaded(
    manager: FileManager,
    so_far: Result<Seq<crate::process::bones::UseView>, ProcessingBoneError>,
    animations: Seq<crate::input::Animation>,
    count: int,
)
    requires
        crate::process::bones::animation_uses(manager, so_far, animations, count) is Ok,
    ensures
        forall|a: int|
            0 <= a < count ==> crate::process::bones::animation_use(
                manager,
                #[trigger] animations[a],
            ) is Ok,
    decreases count,
{
    if count > 0 {
        lemma_animation_uses_started(manager, so_far, animations, count);
        lemma_animation_uses_loaded(manager, so_far, animations, count - 1);
    }
}

/// Where every animation names a file that is loaded, the jobs for the
/// animations meet no error.
pub proof fn lemma_animation_jobs_loaded(input: SourceInput, manager: FileManager, count: int)
    requires
        0 <= count <= input.animations@.len(),
        forall|a: int|
            0 <= a < input.animations@.len() ==> crate::process::bones::animation_use(
                manager,
                #[trigger] input.animations@[a],
            ) is Ok,
    ensures
        animation_jobs(input, manager, count) is Ok,
    decreases count,
{
    if count > 0 {
        lemma_animation_jobs_loaded(input, manager, count - 1);
        assert(crate::process::bones::animation_use(manager, input.animations@[count - 1]) is Ok);
    }
}

/// Without a sequence no animation is used, so there is no job.
pub proof fn lemma_animation_jobs_unused(input: SourceInput, manager: FileManager, count: int)
    requires
        input.sequences@.len() == 0,
    ensures
        animation_jobs(input, manager, count) == Ok::<
            Seq<crate::process::animation::AnimationJob>,
            ProcessingAnimationError,
        >(Seq::empty()),
    decreases count,
{
    if count > 0 {
        lemma_animation_jobs_unused(input, manager, count - 1);
        assert(!animation_used(input.sequences@, input.animations@[count - 1].animation_identifier));
    }
}

/// The stages fail in their order. A file that an animation lacks stops
/// the bones, never the animations; and a model without a sequence is
/// refused for its want of animations, never for its want of sequences.
pub proof fn lemma_stages_fail_early(input: SourceInput, manager: FileManager)
    ensures
        match early_failure(input, manager) {
            Some(ProcessingDataError::ProcessingAnimationError(error)) => error is TooManyAnimations,
            Some(ProcessingDataError::NoSequences) => false,
            _ => true,
        },
{
    if processed_skeleton(input, manager) is Ok {
        let groups = input.model_groups@;
        lemma_animation_uses_loaded(
            manager,
            crate::process::bones::group_uses(manager, groups, groups.len() as int),
            input.animations@,
            input.animations@.len() as int,
        );
        lemma_animation_jobs_loaded(input, manager, input.animations@.len() as int);
        if input.sequences@.len() == 0 {
            lemma_animation_jobs_unused(input, manager, input.animations@.len() as int);
        }
    }
}

/// Processes a model: bones, then animations, then sequences, then meshes.
/// The first stage that fails gives the error.
pub fn process<M: Measure>(input: &SourceInput, file_manager: &FileManager, measure: &mut M) -> (processed:
    Result<ProcessedData, ProcessingDataError>)
    requires
        animation_names_distinct(*input),
        sequence_names_distinct(*input),
        clips_in_range(*input, *file_manager),
        cells_name_animations(*input),
    ensures
        match early_failure(*input, *file_manager) {
            Some(error) => processed matches Err(found) && found == error,
            None => match processed {
                Ok(data) => {
                    let skeleton = processed_skeleton(*input, *file_manager)->Ok_0;
                    let jobs = animation_jobs(
                        *input,
                        *file_manager,
                        input.animations@.len() as int,
                    )->Ok_0;
                    &&& data.bone_data.source_bones.names() == skeleton.1
                    &&& data.bone_data.source_bones.values() == skeleton.2
                    &&& data.bone_data.processed_bones.values() == collapsed(
                        skeleton.2,
                        skeleton.2.len() as int,
                    )
                    &&& data.bone_data.processed_bones.names() == crate::process::bones::collapsed_names(
                        skeleton.1,
                        skeleton.2,
                        skeleton.2.len() as int,
                    )
                    &&& 1 <= data.bone_data.processed_bones.names().len() <= MAX_BONES
                    &&& crate::names::is_name_order(
                        data.bone_data.processed_bones.names(),
                        data.bone_data.sorted_bones_by_name@,
                    )
                    &&& data.animation_data.processed_animations.names().len() == jobs.len()
                    &&& 1 <= jobs.len() <= MAX_ANIMATIONS
                    &&& index_map_entries(data.animation_data.remapped_animations) == remap_of(
                        jobs,
                        jobs.len() as int,
                    )
                    &&& forall|j: int|
                        0 <= j < jobs.len() ==> (
                        #[trigger] data.animation_data.processed_animations.names()[j])
                            == jobs[j].name@ && crate::process::animation::animation_matches(
                            data.animation_data.processed_animations.values()[j],
                            jobs[j].path,
                            jobs[j].data,
                            jobs[j].clip as int,
                            data.bone_data.processed_bones.names(),
                            data.bone_data.processed_bones.values(),
                        )
                    &&& data.sequence_data.names().len() == input.sequences@.len()
                    &&& forall|s: int|
                        0 <= s < input.sequences@.len() ==> (#[trigger] data.sequence_data.names()[s])
                            == input.sequences@[s].name@ && crate::process::sequences::grid_remapped(
                            data.sequence_data.values()[s].animations@,
                            input.sequences@[s].animations@,
                            index_map_entries(data.animation_data.remapped_animations),
                        )
                    &&& crate::process::mesh::meshes_within_caps(data.model_data)
                    &&& crate::process::mesh::model_files_loaded(*input, *file_manager)
                    &&& crate::process::mesh::mesh_outcome(*input, *file_manager) == Ok::<
                        Seq<Seq<char>>,
                        ProcessingMeshError,
                    >(name_set_items(data.model_data.materials))
                    &&& data.model_data.body_parts.names() == crate::process::mesh::group_names(
                        input.model_groups@,
                        input.model_groups@.len() as int,
                    )
                    &&& forall|g: int|
                        0 <= g < input.model_groups@.len() && crate::process::mesh::last_among(
                            input.model_groups@,
                            g,
                            input.model_groups@.len() as int,
                        ) ==> #[trigger] crate::process::mesh::group_built(
                            data.model_data.body_parts.names(),
                            data.model_data.body_parts.values(),
                            input.model_groups@,
                            g,
                            *file_manager,
                            name_set_items(data.model_data.materials),
                            data.bone_data.processed_bones.names(),
                        )
                },
                Err(
                    ProcessingDataError::ProcessingMeshError(
                        ProcessingMeshError::TooManyMeshes(model, group),
                    ),
                ) => exists|g: int, m: int|
                    0 <= g < input.model_groups@.len() && 0 <= m
                        < input.model_groups@[g].models@.len()
                        && #[trigger] crate::process::mesh::model_overfull(
                        *file_manager,
                        input.model_groups@[g].models@[m],
                    ) && input.model_groups@[g].models@[m].name == model
                        && input.model_groups@[g].name == group,
                Err(ProcessingDataError::ProcessingMeshError(error)) => crate::process::mesh::mesh_outcome(
                    *input,
                    *file_manager,
                ) == Err::<Seq<Seq<char>>, ProcessingMeshError>(error) && (
                error is TooManyMaterials || error is TooManyModelGroups),
                Err(_) => false,
            },
        },
{
    let processed_bone_data = match process_bones(input, file_manager) {
        Ok(data) => data,
        Err(error) => {
            return Err(ProcessingDataError::ProcessingBoneError(error));
        },
    };
    if processed_bone_data.processed_bones.len() == 0 {
        return Err(ProcessingDataError::NoBones);
    }
    let processed_animation_data = match process_animations(
        input,
        file_manager,
        &processed_bone_data.processed_bones,
    ) {
        Ok(data) => data,
        Err(error) => {
            return Err(ProcessingDataError::ProcessingAnimationError(error));
        },
    };
    if processed_animation_data.processed_animations.len() == 0 {
        return Err(ProcessingDataError::NoAnimations);
    }
    proof {
        let total = input.animations@.len() as int;
        let jobs = animation_jobs(*input, *file_manager, total)->Ok_0;
        let remap = index_map_entries(processed_animation_data.remapped_animations);
        assert forall|s: int, r: int, c: int|
            0 <= s < input.sequences@.len() && 0 <= r < input.sequences@[s].animations@.len() && 0
                <= c < input.sequences@[s].animations@[r]@.len() implies remap.contains_key(
            #[trigger] input.sequences@[s].animations@[r]@[c],
        ) && remap[input.sequences@[s].animations@[r]@[c]] <= i16::MAX by {
            let cell = input.sequences@[s].animations@[r]@[c];
            let a = choose|a: int|
                0 <= a < input.animations@.len() && (
                #[trigger] input.animations@[a]).animation_identifier == cell;
            assert(animation_used(input.sequences@, cell));
            lemma_remap_covers(*input, *file_manager, total, a);
        }
    }
    let processed_sequences = match process_sequences(
        input,
        &processed_animation_data.remapped_animations,
    ) {
        Ok(sequences) => sequences,
        Err(error) => {
            return Err(ProcessingDataError::ProcessingSequenceError(error));
        },
    };
    if processed_sequences.len() == 0 {
        return Err(ProcessingDataError::NoSequences);
    }
    proof {
        lemma_files_fail_early(*input, *file_manager);
    }
    let processed_mesh = match process_meshes(input, file_manager, &processed_bone_data, measure) {
        Ok(data) => data,
        Err(error) => {
            return Err(ProcessingDataError::ProcessingMeshError(error));
        },
    };
    Ok(
        ProcessedData {
            bone_data: processed_bone_data,
            animation_data: processed_animation_data,
            sequence_data: processed_sequences,
            model_data: processed_mesh,
        },
    )
}

} // verus!
