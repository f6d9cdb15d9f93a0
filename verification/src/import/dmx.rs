//! The interpreter of DMX model graphs.
//!
//! A DMX file is a graph of elements with typed attributes. What is read
//! here is the structure: which element refers to which, names, integers,
//! and how many numbers an array holds. The numbers themselves stay with
//! the reader of the file; the result says for each bone, vertex and key
//! where its numbers are found.

pub mod animations;
pub mod attributes;
pub mod faces;
pub mod flexes;
pub mod frames;
pub mod parts;
pub mod skeleton;
pub mod vertices;

use crate::import::{Bone, FileData, Part};
use crate::import::dmx::animations::{
    channels_aligned, clip_models, document_animations, load_animations, ClipModel,
};
use crate::import::dmx::attributes::{
    element_of, elements_of, missing_fault, optional_element, optional_elements, require_elements,
    text_equals,
};
use crate::import::dmx::parts::{
    load_meshes, mesh_walk_start, part_models, parts_sound, walk_meshes, with_nodes, PartModel,
};
use crate::import::dmx::skeleton::{load_joints, walk_joints, walk_start, with_joints, JointWalk};
use crate::names::NameMap;
use crate::utilities::mathematics::AxisDirection;
use vstd::prelude::*;

verus! {

/// The value of an attribute.
pub enum DmxValue {
    /// A reference to an element of the document, or null.
    Element(Option<usize>),
    ElementArray(Vec<Option<usize>>),
    Integer(i32),
    IntegerArray(Vec<i32>),
    /// A time in ten-thousandths of a second.
    Time(i32),
    TimeArray(Vec<i32>),
    Text(String),
    Vector3,
    Quaternion,
    /// An array of this many numbers.
    FloatArray(usize),
    /// An array of this many vectors.
    Vector2Array(usize),
    Vector3Array(usize),
    QuaternionArray(usize),
    /// A value of a type that the interpreter does not read.
    Other,
}

/// An element of a document.
pub struct DmxElement {
    pub name: String,
    pub id: u128,
    pub attributes: NameMap<DmxValue>,
}

/// A document: its header, its elements, and which of them is the root.
pub struct DmxDocument {
    pub format: String,
    pub format_version: i32,
    pub elements: Vec<DmxElement>,
    pub root: usize,
}

/// Why a document could not be interpreted.
pub enum ParseDMXError {
    FormatNotModel,
    UnsupportedFormatVersion,
    MissingSkeleton,
    /// The attribute (first) of the type (second) is missing on the element.
    MissingRequiredAttribute(String, String, u128),
    DuplicateJointName(String, u128),
    /// The array (first) is not as long as the array (second) asks for.
    ArrayLengthMismatch(String, String, u128),
    DuplicatePartName(String, u128),
    DuplicateFlexName(String, u128),
    DuplicateAnimationName(String, u128),
    /// An index of the array (first) is out of range on the element.
    IndexOutOfRange(String, u128),
    /// A face of the face set has fewer than three vertices.
    IncompleteFace(u128),
    /// Skinning refers to a joint that the skeleton does not have.
    JointNotInJointList(String, u128),
    /// The shape has base states, and none of them is named "bind".
    MeshMissingBindState(u128),
    /// The channel (first) targets the joint (second), which the skeleton
    /// does not have.
    InvalidAnimationJointTarget(u128, u128),
}

/// The lowest format version that is read.
pub const MIN_FORMAT_VERSION: i32 = 1;

/// The highest format version that is read.
pub const MAX_FORMAT_VERSION: i32 = 18;

/// Whether the header is that of a model of a version that is read.
pub fn check_header(format: &str, format_version: i32) -> (checked: Result<(), ParseDMXError>)
    ensures
        match checked {
            Ok(_) => format@ == "model"@ && MIN_FORMAT_VERSION <= format_version
                <= MAX_FORMAT_VERSION,
            Err(ParseDMXError::FormatNotModel) => format@ != "model"@,
            Err(ParseDMXError::UnsupportedFormatVersion) => format@ == "model"@ && !(
            MIN_FORMAT_VERSION <= format_version <= MAX_FORMAT_VERSION),
            Err(_) => false,
        },
{
    if !text_equals(format, "model") {
        return Err(ParseDMXError::FormatNotModel);
    }
    if format_version < MIN_FORMAT_VERSION || format_version > MAX_FORMAT_VERSION {
        return Err(ParseDMXError::UnsupportedFormatVersion);
    }
    Ok(())
}

/// Where the numbers of a part are found.
pub struct DmxPart {
    /// The element of the bind state.
    pub bind_state: usize,
    /// The elements that hold the transforms of the nodes from the outermost
    /// down to the node of the part.
    pub transforms: Vec<usize>,
    /// For each vertex the entries of its position, its normal and its
    /// texture coordinate in the bind state.
    pub vertices: Vec<(i32, i32, i32)>,
    /// For each vertex and each of its links the entry of the weight in the
    /// bind state; a vertex without entries has the weight one.
    pub weights: Vec<Vec<usize>>,
    pub flexes: Vec<DmxFlex>,
}

/// Where the numbers of a flex are found.
pub struct DmxFlex {
    /// The element of the delta state.
    pub state: usize,
    /// For each vertex of the flex the entry of its position offset in the
    /// delta state, if it has one.
    pub positions: Vec<Option<usize>>,
    /// For each vertex of the flex the entry of its normal offset.
    pub normals: Vec<Option<usize>>,
}

/// Where the numbers of the keys of one channel are found.
pub struct DmxChannel {
    /// For each location key the layer element and the entry of its value.
    pub location: Vec<(usize, usize)>,
    /// For each rotation key the layer element and the entry of its value.
    pub rotation: Vec<(usize, usize)>,
}

/// What a document gives: the data of a file, and where its numbers are
/// found.
pub struct DmxImport {
    pub data: FileData,
    /// For each bone the element that holds its position and orientation.
    pub bone_transforms: Vec<usize>,
    /// For each part where its numbers are found.
    pub parts: Vec<DmxPart>,
    /// For each animation and each of its channels where the keys are found.
    pub animations: Vec<Vec<DmxChannel>>,
}

/// What an error says, with its texts as sequences of characters.
pub enum DmxFault {
    FormatNotModel,
    UnsupportedFormatVersion,
    MissingSkeleton,
    MissingRequiredAttribute(Seq<char>, Seq<char>, u128),
    DuplicateJointName(Seq<char>, u128),
    ArrayLengthMismatch(Seq<char>, Seq<char>, u128),
    DuplicatePartName(Seq<char>, u128),
    DuplicateFlexName(Seq<char>, u128),
    DuplicateAnimationName(Seq<char>, u128),
    IndexOutOfRange(Seq<char>, u128),
    IncompleteFace(u128),
    JointNotInJointList(Seq<char>, u128),
    MeshMissingBindState(u128),
    InvalidAnimationJointTarget(u128, u128),
}

impl ParseDMXError {
    /// What the error says.
    pub open spec fn view(&self) -> DmxFault {
        match *self {
            ParseDMXError::FormatNotModel => DmxFault::FormatNotModel,
            ParseDMXError::UnsupportedFormatVersion => DmxFault::UnsupportedFormatVersion,
            ParseDMXError::MissingSkeleton => DmxFault::MissingSkeleton,
            ParseDMXError::MissingRequiredAttribute(name, kind, id) => DmxFault::MissingRequiredAttribute(
                name@,
                kind@,
                id,
            ),
            ParseDMXError::DuplicateJointName(name, id) => DmxFault::DuplicateJointName(name@, id),
            ParseDMXError::ArrayLengthMismatch(array, other, id) => DmxFault::ArrayLengthMismatch(
                array@,
                other@,
                id,
            ),
            ParseDMXError::DuplicatePartName(name, id) => DmxFault::DuplicatePartName(name@, id),
            ParseDMXError::DuplicateFlexName(name, id) => DmxFault::DuplicateFlexName(name@, id),
            ParseDMXError::DuplicateAnimationName(name, id) => DmxFault::DuplicateAnimationName(
                name@,
                id,
            ),
            ParseDMXError::IndexOutOfRange(array, id) => DmxFault::IndexOutOfRange(array@, id),
            ParseDMXError::IncompleteFace(id) => DmxFault::IncompleteFace(id),
            ParseDMXError::JointNotInJointList(name, id) => DmxFault::JointNotInJointList(name@, id),
            ParseDMXError::MeshMissingBindState(id) => DmxFault::MeshMissingBindState(id),
            ParseDMXError::InvalidAnimationJointTarget(channel, joint) => DmxFault::InvalidAnimationJointTarget(
                channel,
                joint,
            ),
        }
    }
}

/// The skeleton of a document: the joints below `skeleton`, walked depth
/// first.
pub open spec fn document_skeleton(document: DmxDocument, root: DmxElement) -> Result<
    JointWalk,
    DmxFault,
> {
    match element_of(document, root, "skeleton"@) {
        None => Err(DmxFault::MissingSkeleton),
        Some(skeleton) => match elements_of(document.elements@[skeleton as int], "children"@) {
            None => Err(
                missing_fault(document.elements@[skeleton as int], "children"@, "ElementArray"@),
            ),
            Some(joints) => walk_joints(
                document,
                Seq::empty(),
                with_joints(Seq::empty(), joints, None, 0),
                walk_start(document),
            ),
        },
    }
}

/// The name of the list of joints of a model: `jointTransforms` before
/// format version 8, `jointList` from then on.
pub open spec fn joint_list_name(version: i32) -> Seq<char> {
    if version < 8 {
        "jointTransforms"@
    } else {
        "jointList"@
    }
}

/// The parts of a document: the shapes of the nodes below `model`, walked
/// depth first. A document without a model has no parts, and so has a
/// model without nodes.
pub open spec fn document_parts(document: DmxDocument, root: DmxElement, bones: Seq<Seq<char>>) -> Result<
    (Seq<Seq<char>>, Seq<PartModel>),
    DmxFault,
> {
    match element_of(document, root, "model"@) {
        None => Ok((Seq::empty(), Seq::empty())),
        Some(model) => {
            let element = document.elements@[model as int];
            match elements_of(element, joint_list_name(document.format_version)) {
                None => Err(
                    missing_fault(
                        element,
                        joint_list_name(document.format_version),
                        "ElementArray"@,
                    ),
                ),
                Some(joints) => match elements_of(element, "children"@) {
                    None => Ok((Seq::empty(), Seq::empty())),
                    Some(nodes) => match walk_meshes(
                        document,
                        joints,
                        bones,
                        with_nodes(Seq::empty(), nodes, Seq::empty(), 0),
                        mesh_walk_start(document),
                    ) {
                        Err(fault) => Err(fault),
                        Ok(walk) => Ok((walk.names, walk.parts)),
                    },
                },
            }
        },
    }
}

/// What a document comes to.
pub struct DmxModel {
    pub bone_names: Seq<Seq<char>>,
    pub bones: Seq<Bone>,
    /// For each bone the element that holds its position and orientation.
    pub bone_transforms: Seq<usize>,
    pub part_names: Seq<Seq<char>>,
    pub parts: Seq<PartModel>,
    pub animation_names: Seq<Seq<char>>,
    pub animations: Seq<ClipModel>,
}

/// What a document comes to, or the first fault that is met: in the
/// header, then in the skeleton, then in the parts, then in the
/// animations.
pub open spec fn dmx_model(document: DmxDocument, file_name: Seq<char>) -> Result<DmxModel, DmxFault> {
    if document.format@ != "model"@ {
        Err(DmxFault::FormatNotModel)
    } else if !(MIN_FORMAT_VERSION <= document.format_version <= MAX_FORMAT_VERSION) {
        Err(DmxFault::UnsupportedFormatVersion)
    } else if document.root >= document.elements@.len() {
        Err(DmxFault::MissingSkeleton)
    } else {
        let root = document.elements@[document.root as int];
        match document_skeleton(document, root) {
            Err(fault) => Err(fault),
            Ok(skeleton) => match document_parts(document, root, skeleton.names) {
                Err(fault) => Err(fault),
                Ok((part_names, parts)) => match document_animations(
                    document,
                    root,
                    skeleton.names,
                    file_name,
                ) {
                    Err(fault) => Err(fault),
                    Ok((animation_names, animations)) => Ok(
                        DmxModel {
                            bone_names: skeleton.names,
                            bones: skeleton.bones,
                            bone_transforms: skeleton.transforms,
                            part_names,
                            parts,
                            animation_names,
                            animations,
                        },
                    ),
                },
            },
        }
    }
}

/// What was read from a document, as it is held.
pub open spec fn import_model(import: DmxImport) -> DmxModel {
    DmxModel {
        bone_names: import.data.skeleton.names(),
        bones: import.data.skeleton.values(),
        bone_transforms: import.bone_transforms@,
        part_names: import.data.parts.names(),
        parts: part_models(import.data.parts.values(), import.parts@),
        animation_names: import.data.animations.names(),
        animations: clip_models(import.data.animations.values(), import.animations@),
    }
}

/// Interprets a document as a model. The skeleton comes from the joints
/// below `skeleton`, depth first; the parts from the shapes below `model`
/// that have a bind state; the animations from `animationList`. The data
/// has Z for up and -Y for forward.
pub fn load_dmx(document: &DmxDocument, file_name: String) -> (loaded: Result<
    DmxImport,
    ParseDMXError,
>)
    ensures
        match loaded {
            Ok(import) => dmx_model(*document, file_name@) == Ok::<DmxModel, DmxFault>(
                import_model(import),
            ),
            Err(error) => dmx_model(*document, file_name@) == Err::<DmxModel, DmxFault>(error@),
        },
        loaded matches Ok(import) ==> {
            &&& import.data.up == AxisDirection::PositiveZ
            &&& import.data.forward == AxisDirection::NegativeY
            &&& import.data.skeleton.well_formed()
            &&& import.bone_transforms@.len() == import.data.skeleton.names().len()
            &&& parts_sound(import.data.parts, import.data.skeleton.names().len() as int)
            &&& import.parts@.len() == import.data.parts.values().len()
            &&& import.data.animations.well_formed()
            &&& import.animations@.len() == import.data.animations.values().len()
            &&& forall|a: int|
                0 <= a < import.data.animations.values().len() ==> crate::import::animation_sound(
                    #[trigger] import.data.animations.values()[a],
                ) && channels_aligned(
                    import.data.animations.values()[a].channels@,
                    import.animations@[a]@,
                )
        },
{
    check_header(document.format.as_str(), document.format_version)?;
    if document.root >= document.elements.len() {
        return Err(ParseDMXError::MissingSkeleton);
    }
    let root = &document.elements[document.root];
    let skeleton = match optional_element(document, root, "skeleton") {
        Some(skeleton) => skeleton,
        None => {
            return Err(ParseDMXError::MissingSkeleton);
        },
    };
    let joints = require_elements(&document.elements[skeleton], "children")?;
    let mut parts: NameMap<Part> = NameMap::new();
    let walked = load_joints(document, joints, &parts)?;
    let skeleton_bones = walked.0;
    let bone_transforms = walked.1;
    let mut part_sources: Vec<DmxPart> = Vec::new();
    assert(part_models(parts.values(), part_sources@) =~= Seq::<PartModel>::empty());
    match optional_element(document, root, "model") {
        Some(model) => {
            let model_element = &document.elements[model];
            let joint_list = if document.format_version < 8 {
                require_elements(model_element, "jointTransforms")?
            } else {
                require_elements(model_element, "jointList")?
            };
            match optional_elements(model_element, "children") {
                Some(nodes) => {
                    let loaded = load_meshes(document, nodes, joint_list, &skeleton_bones)?;
                    parts = loaded.0;
                    part_sources = loaded.1;
                },
                None => {
                    let _ = parts.len();
                },
            }
        },
        None => {
            let _ = parts.len();
        },
    }
    let animations = load_animations(document, root, &skeleton_bones, file_name)?;
    Ok(
        DmxImport {
            data: FileData {
                up: AxisDirection::PositiveZ,
                forward: AxisDirection::NegativeY,
                skeleton: skeleton_bones,
                animations: animations.0,
                parts,
            },
            bone_transforms,
            parts: part_sources,
            animations: animations.1,
        },
    )
}

} // verus!
