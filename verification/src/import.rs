//! Imported files: what an importer hands over, and the cache of loaded files.
//!
//! The data held here is the structure of a file: names, parents, which bone
//! a vertex is linked to, which vertices a face has, which frames are keyed.
//! Locations, rotations, normals, texture coordinates and weights are kept
//! by the importer under the same positions.

use crate::names::NameMap;
use crate::ordered::{index_set_get_index, index_set_items, index_set_len};
use crate::utilities::mathematics::{same_axis, AxisDirection};
use indexmap::IndexSet;
use crate::import::dmx::ParseDMXError;
use vstd::prelude::*;
use vstd::string::*;

pub mod dmx;
pub mod manager;

verus! {

/// The file extensions that an importer exists for.
pub const SUPPORTED_FILES: [&'static str; 3] = ["smd", "obj", "dmx"];

/// The formats that an importer exists for.
#[derive(Clone, Copy, Debug, PartialEq, Eq, Structural)]
pub enum FileFormat {
    Smd,
    Obj,
    Dmx,
}

/// Why a file could not be loaded.
pub enum ParseFileError {
    FailedFileOpen,
    FileDoesNotExist,
    FileDoesNotHaveExtension,
    FileDoesNotHaveName,
    UnsupportedFileFormat,
    /// The importer gave up in a way that it has no error for.
    UnhandledReadError(String),
    FailedDMXFileParse(ParseDMXError),
}

/// Whether `text` is the extension `lower`, written in small or in capital
/// letters or in both; `upper` is `lower` in capital letters.
pub open spec fn is_extension(text: Seq<char>, lower: Seq<char>, upper: Seq<char>) -> bool {
    &&& text.len() == lower.len()
    &&& forall|i: int| 0 <= i < text.len() ==> text[i] == lower[i] || text[i] == upper[i]
}

/// The format that an extension stands for, if it is one of the supported
/// ones.
pub open spec fn format_of(extension: Seq<char>) -> Option<FileFormat> {
    if is_extension(extension, "smd"@, "SMD"@) {
        Some(FileFormat::Smd)
    } else if is_extension(extension, "obj"@, "OBJ"@) {
        Some(FileFormat::Obj)
    } else if is_extension(extension, "dmx"@, "DMX"@) {
        Some(FileFormat::Dmx)
    } else {
        None
    }
}

/// Whether `text` is the extension `lower`, whatever the case of its
/// letters.
fn matches_extension(text: &str, lower: &str, upper: &str) -> (matches: bool)
    requires
        lower@.len() == upper@.len(),
    ensures
        matches == is_extension(text@, lower@, upper@),
{
    let count: usize = text.unicode_len();
    if count != lower.unicode_len() {
        return false;
    }
    let mut i: usize = 0;
    while i < count
        invariant
            i <= count,
            count == text@.len(),
            count == lower@.len(),
            count == upper@.len(),
            forall|k: int| 0 <= k < i ==> text@[k] == lower@[k] || text@[k] == upper@[k],
        decreases count - i,
    {
        let c: char = text.get_char(i);
        if c != lower.get_char(i) && c != upper.get_char(i) {
            return false;
        }
        i += 1;
    }
    true
}

/// Picks the importer for a file by its extension, whatever the case of its
/// letters. A file without an extension, or with another one, is refused
/// before it is opened.
pub fn select_importer(extension: Option<&str>) -> (selected: Result<FileFormat, ParseFileError>)
    ensures
        match extension {
            None => selected matches Err(ParseFileError::FileDoesNotHaveExtension),
            Some(text) => match format_of(text@) {
                Some(format) => selected matches Ok(found) && found == format,
                None => selected matches Err(ParseFileError::UnsupportedFileFormat),
            },
        },
{
    let text = match extension {
        Some(text) => text,
        None => {
            return Err(ParseFileError::FileDoesNotHaveExtension);
        },
    };
    proof {
        reveal_strlit("smd");
        reveal_strlit("SMD");
        reveal_strlit("obj");
        reveal_strlit("OBJ");
        reveal_strlit("dmx");
        reveal_strlit("DMX");
    }
    if matches_extension(text, "smd", "SMD") {
        Ok(FileFormat::Smd)
    } else if matches_extension(text, "obj", "OBJ") {
        Ok(FileFormat::Obj)
    } else if matches_extension(text, "dmx", "DMX") {
        Ok(FileFormat::Dmx)
    } else {
        Err(ParseFileError::UnsupportedFileFormat)
    }
}

/// Everything that is taken from one file.
pub struct FileData {
    /// The direction that the file takes for up.
    pub up: AxisDirection,
    /// The direction that the file takes for forward.
    pub forward: AxisDirection,
    /// The bones by name. A file has at least one.
    pub skeleton: NameMap<Bone>,
    /// The animations by name. A file has at least one.
    pub animations: NameMap<Animation>,
    /// The parts by name.
    pub parts: NameMap<Part>,
}

/// A bone of a file.
#[derive(Clone, Copy, Debug)]
pub struct Bone {
    /// The position of the parent in the skeleton; `None` for a root.
    pub parent: Option<usize>,
}

/// An animation of a file.
pub struct Animation {
    /// The number of frames, at least one.
    pub frame_count: usize,
    /// The bones that have a channel, in the order of `channels`.
    pub channel_bones: IndexSet<usize>,
    /// The channels, one for each of `channel_bones`.
    pub channels: Vec<Channel>,
}

/// The keys of one bone in one animation. A key is referred to by the
/// position that its frame has in the set.
pub struct Channel {
    /// The frames at which the location is keyed.
    pub location: IndexSet<usize>,
    /// The frames at which the rotation is keyed.
    pub rotation: IndexSet<usize>,
}

/// A part of a file: vertices, and faces by material.
pub struct Part {
    pub vertices: Vec<Vertex>,
    /// For each material its faces. A face lists its vertices clockwise.
    pub faces: NameMap<Vec<Vec<usize>>>,
    /// For each flex the vertices that it moves.
    pub flexes: NameMap<IndexSet<usize>>,
}

/// A vertex of a part.
pub struct Vertex {
    /// The bones that the vertex is linked to. A weight is referred to by the
    /// position that its bone has in the set.
    pub links: IndexSet<usize>,
}

/// Whether a bone at position `index` has no parent, or one before it.
pub open spec fn parent_precedes(bone: Bone, index: int) -> bool {
    bone.parent matches Some(parent) ==> parent < index
}

/// Whether an animation has a frame and one channel for each channel bone.
pub open spec fn animation_sound(animation: Animation) -> bool {
    &&& animation.frame_count >= 1
    &&& index_set_items(animation.channel_bones).len() == animation.channels@.len()
}

/// Whether a vertex is linked to bones of a skeleton of `bones` bones only.
pub open spec fn vertex_sound(vertex: Vertex, bones: int) -> bool {
    forall|k: int|
        0 <= k < index_set_items(vertex.links).len() ==> (#[trigger] index_set_items(
            vertex.links,
        )[k]) < bones
}

/// Whether a face has three corners or more, each out of `vertices` vertices.
pub open spec fn face_sound(face: Seq<usize>, vertices: int) -> bool {
    &&& face.len() >= 3
    &&& forall|c: int| 0 <= c < face.len() ==> (#[trigger] face[c]) < vertices
}

/// Whether the faces of one material are sound.
pub open spec fn faces_sound(faces: Seq<Vec<usize>>, vertices: int) -> bool {
    forall|f: int| 0 <= f < faces.len() ==> face_sound((#[trigger] faces[f])@, vertices)
}

/// Whether a part is sound: its vertices and the faces of each material are.
pub open spec fn part_sound(part: Part, bones: int) -> bool {
    &&& forall|v: int|
        0 <= v < part.vertices@.len() ==> vertex_sound(#[trigger] part.vertices@[v], bones)
    &&& part.faces.well_formed()
    &&& forall|m: int|
        0 <= m < part.faces.values().len() ==> faces_sound(
            (#[trigger] part.faces.values()[m])@,
            part.vertices@.len() as int,
        )
}

impl FileData {
    /// What every importer owes: up and forward along different axes, a
    /// bone, parents before their children, an animation, every animation
    /// with a frame, links to bones of the skeleton, and faces of three or
    /// more vertices of their part.
    pub open spec fn well_formed(&self) -> bool {
        &&& !same_axis(self.forward, self.up)
        &&& self.skeleton.well_formed()
        &&& self.animations.well_formed()
        &&& self.parts.well_formed()
        &&& self.skeleton.values().len() >= 1
        &&& forall|b: int|
            0 <= b < self.skeleton.values().len() ==> parent_precedes(
                #[trigger] self.skeleton.values()[b],
                b,
            )
        &&& self.animations.values().len() >= 1
        &&& forall|a: int|
            0 <= a < self.animations.values().len() ==> animation_sound(
                #[trigger] self.animations.values()[a],
            )
        &&& forall|p: int|
            0 <= p < self.parts.values().len() ==> part_sound(
                #[trigger] self.parts.values()[p],
                self.skeleton.values().len() as int,
            )
    }

    /// A file without data, with the axes of the importer.
    pub fn new(up: AxisDirection, forward: AxisDirection) -> (created: Self)
        ensures
            created.up == up,
            created.forward == forward,
            created.skeleton.names().len() == 0,
            created.animations.names().len() == 0,
            created.parts.names().len() == 0,
    {
        FileData {
            up,
            forward,
            skeleton: NameMap::new(),
            animations: NameMap::new(),
            parts: NameMap::new(),
        }
    }

    /// Whether the file is well formed.
    pub fn is_well_formed(&self) -> (sound: bool)
        ensures
            sound == self.well_formed(),
    {
        if self.forward.is_parallel(self.up) {
            return false;
        }
        let bones: usize = self.skeleton.len();
        let animations: usize = self.animations.len();
        let parts: usize = self.parts.len();
        if bones == 0 || animations == 0 {
            return false;
        }
        let mut b: usize = 0;
        while b < bones
            invariant
                b <= bones,
                self.skeleton.well_formed(),
                bones == self.skeleton.names().len(),
                forall|i: int|
                    0 <= i < b ==> parent_precedes(#[trigger] self.skeleton.values()[i], i),
            decreases bones - b,
        {
            match self.skeleton.value_at(b).parent {
                Some(parent) => {
                    if parent >= b {
                        assert(!parent_precedes(self.skeleton.values()[b as int], b as int));
                        return false;
                    }
                },
                None => {},
            }
            b += 1;
        }
        let mut a: usize = 0;
        while a < animations
            invariant
                a <= animations,
                self.animations.well_formed(),
                animations == self.animations.names().len(),
                forall|i: int|
                    0 <= i < a ==> animation_sound(#[trigger] self.animations.values()[i]),
            decreases animations - a,
        {
            let animation = self.animations.value_at(a);
            if animation.frame_count == 0 || index_set_len(&animation.channel_bones)
                != animation.channels.len() {
                assert(!animation_sound(self.animations.values()[a as int]));
                return false;
            }
            a += 1;
        }
        let mut p: usize = 0;
        while p < parts
            invariant
                p <= parts,
                self.parts.well_formed(),
                parts == self.parts.names().len(),
                bones == self.skeleton.values().len(),
                forall|i: int|
                    0 <= i < p ==> part_sound(#[trigger] self.parts.values()[i], bones as int),
            decreases parts - p,
        {
            if !is_part_sound(self.parts.value_at(p), bones) {
                assert(!part_sound(self.parts.values()[p as int], bones as int));
                return false;
            }
            p += 1;
        }
        true
    }
}

/// Whether a vertex is linked to bones of a skeleton of `bones` bones only.
fn is_vertex_sound(vertex: &Vertex, bones: usize) -> (sound: bool)
    ensures
        sound == vertex_sound(*vertex, bones as int),
{
    let count: usize = index_set_len(&vertex.links);
    let mut k: usize = 0;
    while k < count
        invariant
            k <= count,
            count == index_set_items(vertex.links).len(),
            forall|i: int| 0 <= i < k ==> (#[trigger] index_set_items(vertex.links)[i]) < bones,
        decreases count - k,
    {
        match index_set_get_index(&vertex.links, k) {
            Some(bone) => {
                if bone >= bones {
                    assert(index_set_items(vertex.links)[k as int] >= bones);
                    return false;
                }
            },
            None => {},
        }
        k += 1;
    }
    true
}

/// Whether a face has three corners or more, each out of `vertices` vertices.
fn is_face_sound(face: &Vec<usize>, vertices: usize) -> (sound: bool)
    ensures
        sound == face_sound(face@, vertices as int),
{
    if face.len() < 3 {
        return false;
    }
    let mut c: usize = 0;
    while c < face.len()
        invariant
            c <= face.len(),
            forall|i: int| 0 <= i < c ==> (#[trigger] face[i]) < vertices,
        decreases face.len() - c,
    {
        if face[c] >= vertices {
            return false;
        }
        c += 1;
    }
    true
}

/// Whether a part is sound.
fn is_part_sound(part: &Part, bones: usize) -> (sound: bool)
    ensures
        sound == part_sound(*part, bones as int),
{
    let mut v: usize = 0;
    while v < part.vertices.len()
        invariant
            v <= part.vertices@.len(),
            forall|i: int|
                0 <= i < v ==> vertex_sound(#[trigger] part.vertices@[i], bones as int),
        decreases part.vertices@.len() - v,
    {
        if !is_vertex_sound(&part.vertices[v], bones) {
            return false;
        }
        v += 1;
    }
    let materials: usize = part.faces.len();
    let mut m: usize = 0;
    while m < materials
        invariant
            m <= materials,
            materials == part.faces.names().len(),
            part.faces.well_formed(),
            forall|i: int|
                0 <= i < m ==> faces_sound(
                    (#[trigger] part.faces.values()[i])@,
                    part.vertices@.len() as int,
                ),
        decreases materials - m,
    {
        let faces = part.faces.value_at(m);
        let mut f: usize = 0;
        while f < faces.len()
            invariant
                f <= faces@.len(),
                m < part.faces.values().len(),
                *faces == part.faces.values()[m as int],
                forall|i: int|
                    0 <= i < f ==> face_sound((#[trigger] faces@[i])@, part.vertices@.len() as int),
            decreases faces@.len() - f,
        {
            if !is_face_sound(&faces[f], part.vertices.len()) {
                assert(!face_sound(faces@[f as int]@, part.vertices@.len() as int));
                assert(!faces_sound(part.faces.values()[m as int]@, part.vertices@.len() as int));
                return false;
            }
            f += 1;
        }
        m += 1;
    }
    true
}

} // verus!
