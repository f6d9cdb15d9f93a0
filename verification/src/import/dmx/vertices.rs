//! The vertices of a bind state: which entries are one vertex, and to which
//! bones a vertex is linked.

use crate::import::{Bone, Vertex};
use crate::import::dmx::{DmxDocument, DmxElement, DmxFault, ParseDMXError};
use crate::import::dmx::attributes::{
    integers_of, missing_fault, numbers_of, require_integers, require_numbers, NumberKind,
};
use crate::names::NameMap;
use crate::ordered::{
    index_set_insert_full, index_set_items, index_set_new, triple_set_insert_full, triple_set_items,
    triple_set_new,
};
use vstd::prelude::*;

verus! {

/// The index triple of entry `i` of three arrays of equal length.
pub open spec fn triple_at(
    positions: Seq<i32>,
    normals: Seq<i32>,
    coordinates: Seq<i32>,
    i: int,
) -> (i32, i32, i32) {
    (positions[i], normals[i], coordinates[i])
}

/// The different index triples among the first `count` entries, in the
/// order in which they first occur.
pub open spec fn unique_triples(
    positions: Seq<i32>,
    normals: Seq<i32>,
    coordinates: Seq<i32>,
    count: int,
) -> Seq<(i32, i32, i32)>
    decreases count,
{
    if count <= 0 {
        Seq::empty()
    } else {
        let before = unique_triples(positions, normals, coordinates, count - 1);
        let triple = triple_at(positions, normals, coordinates, count - 1);
        if before.contains(triple) {
            before
        } else {
            before.push(triple)
        }
    }
}

/// The unique vertices of a bind state, and which of them each entry is.
pub struct UniqueVertices {
    /// For each unique vertex the indices of its position, its normal and
    /// its texture coordinate.
    pub vertices: Vec<(i32, i32, i32)>,
    /// For each entry of the index arrays the unique vertex that it is.
    pub remap: Vec<usize>,
}

/// What grows and what stays as more entries are looked at: the unique
/// triples keep their places, none occurs twice, and each entry so far is
/// among them.
pub proof fn lemma_unique_triples(
    positions: Seq<i32>,
    normals: Seq<i32>,
    coordinates: Seq<i32>,
    count: int,
)
    requires
        0 <= count <= positions.len(),
    ensures
        unique_triples(positions, normals, coordinates, count).no_duplicates(),
        unique_triples(positions, normals, coordinates, count).len() <= count,
        forall|i: int|
            0 <= i < count ==> unique_triples(positions, normals, coordinates, count).contains(
                #[trigger] triple_at(positions, normals, coordinates, i),
            ),
        count > 0 ==> forall|k: int|
            0 <= k < unique_triples(positions, normals, coordinates, count - 1).len()
                ==> #[trigger] unique_triples(positions, normals, coordinates, count)[k]
                == unique_triples(positions, normals, coordinates, count - 1)[k],
    decreases count,
{
    if count > 0 {
        lemma_unique_triples(positions, normals, coordinates, count - 1);
        let before = unique_triples(positions, normals, coordinates, count - 1);
        let after = unique_triples(positions, normals, coordinates, count);
        let triple = triple_at(positions, normals, coordinates, count - 1);
        assert forall|i: int| 0 <= i < count implies after.contains(
            #[trigger] triple_at(positions, normals, coordinates, i),
        ) by {
            let wanted = triple_at(positions, normals, coordinates, i);
            if i < count - 1 {
                let k = choose|k: int| 0 <= k < before.len() && before[k] == wanted;
                assert(after[k] == wanted);
            } else if before.contains(triple) {
            } else {
                assert(after[before.len() as int] == wanted);
            }
        }
        if !before.contains(triple) {
            assert forall|i: int, j: int|
                0 <= i < after.len() && 0 <= j < after.len() && i != j implies after[i]
                != after[j] by {
                if i < before.len() {
                    assert(before.contains(before[i]));
                }
                if j < before.len() {
                    assert(before.contains(before[j]));
                }
            }
        }
    }
}

/// Finds the unique vertices of a bind state: the different triples of a
/// position, a normal and a texture coordinate, in the order in which they
/// first occur.
pub fn deduplicate_vertices(positions: &Vec<i32>, normals: &Vec<i32>, coordinates: &Vec<i32>) -> (unique:
    UniqueVertices)
    requires
        normals@.len() == positions@.len(),
        coordinates@.len() == positions@.len(),
    ensures
        unique.vertices@ == unique_triples(
            positions@,
            normals@,
            coordinates@,
            positions@.len() as int,
        ),
        unique.vertices@.no_duplicates(),
        unique.remap@.len() == positions@.len(),
        forall|i: int|
            0 <= i < positions@.len() ==> (#[trigger] unique.remap@[i]) < unique.vertices@.len()
                && unique.vertices@[unique.remap@[i] as int] == triple_at(
                positions@,
                normals@,
                coordinates@,
                i,
            ),
{
    let mut set = triple_set_new();
    let mut vertices: Vec<(i32, i32, i32)> = Vec::new();
    let mut remap: Vec<usize> = Vec::new();
    let mut i: usize = 0;
    assert(triple_set_items(set) =~= Seq::<(i32, i32, i32)>::empty());
    while i < positions.len()
        invariant
            i <= positions@.len(),
            normals@.len() == positions@.len(),
            coordinates@.len() == positions@.len(),
            triple_set_items(set) == unique_triples(positions@, normals@, coordinates@, i as int),
            vertices@ == triple_set_items(set),
            remap@.len() == i,
            forall|k: int|
                0 <= k < i ==> (#[trigger] remap@[k]) < vertices@.len()
                    && vertices@[remap@[k] as int] == triple_at(
                    positions@,
                    normals@,
                    coordinates@,
                    k,
                ),
        decreases positions@.len() - i,
    {
        let triple: (i32, i32, i32) = (positions[i], normals[i], coordinates[i]);
        let ghost before = vertices@;
        let ghost remap_before = remap@;
        let placed = triple_set_insert_full(&mut set, triple);
        if placed.1 {
            vertices.push(triple);
        }
        remap.push(placed.0);
        proof {
            assert forall|k: int| 0 <= k < i + 1 implies (#[trigger] remap@[k]) < vertices@.len()
                && vertices@[remap@[k] as int] == triple_at(
                positions@,
                normals@,
                coordinates@,
                k,
            ) by {
                if k < i {
                    assert(remap@[k] == remap_before[k]);
                    assert(vertices@[remap@[k] as int] == before[remap_before[k] as int]);
                }
            }
        }
        i += 1;
    }
    proof {
        lemma_unique_triples(positions@, normals@, coordinates@, positions@.len() as int);
    }
    UniqueVertices { vertices, remap }
}

/// Whether every index is an entry of an array of `count` entries.
pub(crate) fn indices_in_range(indices: &Vec<i32>, count: usize) -> (within: bool)
    ensures
        within == forall|i: int| 0 <= i < indices@.len() ==> 0 <= (#[trigger] indices@[i]) < count,
{
    let mut i: usize = 0;
    while i < indices.len()
        invariant
            i <= indices@.len(),
            forall|k: int| 0 <= k < i ==> 0 <= (#[trigger] indices@[k]) < count,
        decreases indices@.len() - i,
    {
        if indices[i] < 0 || indices[i] as usize >= count {
            return false;
        }
        i += 1;
    }
    true
}

/// What can be wrong with the skinning of a vertex.
#[derive(Clone, Copy, Debug, PartialEq, Eq, Structural)]
pub enum SkinFault {
    /// An entry lies beyond the joint indices, or a joint index beyond the
    /// joint list.
    OutOfRange,
    /// The entry of this position of the joint list is no bone of the
    /// skeleton.
    UnknownJoint(usize),
}

/// The links of a vertex after the first `count` of its joints: the bones,
/// and for each bone the entry of its weight. The vertex comes from the
/// position `position`, and its joint number `k` stands at entry
/// `position * joint_count + k` of the joint indices. A bone that is linked
/// already keeps its place and takes the later weight.
pub open spec fn skin_links(
    joint_bones: Seq<Option<usize>>,
    joint_indices: Seq<i32>,
    joint_count: int,
    position: int,
    count: int,
) -> Result<(Seq<usize>, Seq<usize>), SkinFault>
    decreases count,
{
    if count <= 0 {
        Ok((Seq::empty(), Seq::empty()))
    } else {
        match skin_links(joint_bones, joint_indices, joint_count, position, count - 1) {
            Err(fault) => Err(fault),
            Ok((bones, weights)) => {
                let entry = position * joint_count + count - 1;
                if entry >= joint_indices.len() {
                    Err(SkinFault::OutOfRange)
                } else {
                    let joint = joint_indices[entry];
                    if joint < 0 || joint >= joint_bones.len() {
                        Err(SkinFault::OutOfRange)
                    } else {
                        match joint_bones[joint as int] {
                            None => Err(SkinFault::UnknownJoint(joint as usize)),
                            Some(bone) => if bones.contains(bone) {
                                Ok((bones, weights.update(bones.index_of(bone), entry as usize)))
                            } else {
                                Ok((bones.push(bone), weights.push(entry as usize)))
                            },
                        }
                    }
                }
            },
        }
    }
}

/// Once a joint is at fault, the fault stays whatever joints follow.
pub proof fn lemma_skin_failed(
    joint_bones: Seq<Option<usize>>,
    joint_indices: Seq<i32>,
    joint_count: int,
    position: int,
    failed: int,
    count: int,
)
    requires
        failed <= count,
        skin_links(joint_bones, joint_indices, joint_count, position, failed) is Err,
    ensures
        skin_links(joint_bones, joint_indices, joint_count, position, count) == skin_links(
            joint_bones,
            joint_indices,
            joint_count,
            position,
            failed,
        ),
    decreases count - failed,
{
    if failed < count {
        lemma_skin_failed(joint_bones, joint_indices, joint_count, position, failed, count - 1);
    }
}

/// Links a vertex to the bones of its joints.
pub fn skin_vertex(
    joint_bones: &Vec<Option<usize>>,
    joint_indices: &Vec<i32>,
    joint_count: i32,
    position: i32,
) -> (skinned: Result<(Vertex, Vec<usize>), SkinFault>)
    requires
        joint_count > 0,
        position >= 0,
    ensures
        match skin_links(
            joint_bones@,
            joint_indices@,
            joint_count as int,
            position as int,
            joint_count as int,
        ) {
            Ok(links) => skinned matches Ok(found) && index_set_items(found.0.links) == links.0
                && found.1@ == links.1,
            Err(fault) => skinned matches Err(found) && found == fault,
        },
        skinned matches Ok(found) ==> forall|i: int|
            0 <= i < index_set_items(found.0.links).len() ==> joint_bones@.contains(
                Some(#[trigger] index_set_items(found.0.links)[i]),
            ),
{
    let mut links = index_set_new();
    let mut weights: Vec<usize> = Vec::new();
    assert((position as int) * (joint_count as int) <= 0x7fff_ffff * 0x7fff_ffff) by (nonlinear_arith)
        requires
            0 <= position <= 0x7fff_ffff,
            0 <= joint_count <= 0x7fff_ffff,
    ;
    assert((position as int) * (joint_count as int) >= 0) by (nonlinear_arith)
        requires
            0 <= position,
            0 <= joint_count,
    ;
    let first: u128 = (position as u128) * (joint_count as u128);
    let total: u128 = joint_count as u128;
    let mut k: u128 = 0;
    while k < total
        invariant
            k <= total,
            total == joint_count,
            joint_count > 0,
            position >= 0,
            first == (position as int) * (joint_count as int),
            first <= 0x7fff_ffff * 0x7fff_ffff,
            weights@.len() == index_set_items(links).len(),
            skin_links(
                joint_bones@,
                joint_indices@,
                joint_count as int,
                position as int,
                k as int,
            ) == Ok::<_, SkinFault>((index_set_items(links), weights@)),
            forall|i: int|
                0 <= i < index_set_items(links).len() ==> joint_bones@.contains(
                    Some(#[trigger] index_set_items(links)[i]),
                ),
        decreases total - k,
    {
        let entry: u128 = first + k;
        if entry >= joint_indices.len() as u128 {
            proof {
                lemma_skin_failed(
                    joint_bones@,
                    joint_indices@,
                    joint_count as int,
                    position as int,
                    k + 1,
                    joint_count as int,
                );
            }
            return Err(SkinFault::OutOfRange);
        }
        let slot: usize = entry as usize;
        let joint: i32 = joint_indices[slot];
        if joint < 0 || joint as usize >= joint_bones.len() {
            proof {
                lemma_skin_failed(
                    joint_bones@,
                    joint_indices@,
                    joint_count as int,
                    position as int,
                    k + 1,
                    joint_count as int,
                );
            }
            return Err(SkinFault::OutOfRange);
        }
        let bone: usize = match joint_bones[joint as usize] {
            Some(bone) => bone,
            None => {
                proof {
                    lemma_skin_failed(
                        joint_bones@,
                        joint_indices@,
                        joint_count as int,
                        position as int,
                        k + 1,
                        joint_count as int,
                    );
                }
                return Err(SkinFault::UnknownJoint(joint as usize));
            },
        };
        let ghost before = index_set_items(links);
        let placed = index_set_insert_full(&mut links, bone);
        if placed.1 {
            weights.push(slot);
        } else {
            proof {
                let chosen = before.index_of(bone);
                assert(before[chosen] == bone);
                assert(chosen == placed.0);
            }
            weights[placed.0] = slot;
        }
        proof {
            assert(joint_bones@[joint as int] == Some(bone));
            assert forall|i: int| 0 <= i < index_set_items(links).len() implies joint_bones@.contains(
                Some(#[trigger] index_set_items(links)[i]),
            ) by {
                if i < before.len() {
                    assert(index_set_items(links)[i] == before[i]);
                }
            }
        }
        k += 1;
    }
    Ok((Vertex { links }, weights))
}

/// For each entry of a joint list the bone of the skeleton that has the name
/// of the entry, if there is one.
pub open spec fn joint_bones_of(
    document: DmxDocument,
    joints: Seq<Option<usize>>,
    names: Seq<Seq<char>>,
) -> Seq<Option<usize>> {
    Seq::new(
        joints.len(),
        |j: int|
            match joints[j] {
                Some(target) => if target < document.elements@.len() && names.contains(
                    document.elements@[target as int].name@,
                ) {
                    Some(names.index_of(document.elements@[target as int].name@) as usize)
                } else {
                    None
                },
                None => None,
            },
    )
}

/// For each entry of a joint list the bone of the skeleton that has the name
/// of the entry, if there is one.
pub(crate) fn joint_table(document: &DmxDocument, joints: &Vec<Option<usize>>, skeleton: &NameMap<Bone>) -> (table:
    Vec<Option<usize>>)
    ensures
        table@ == joint_bones_of(*document, joints@, skeleton.names()),
        forall|j: int|
            0 <= j < table@.len() ==> ((#[trigger] table@[j]) matches Some(bone) ==> bone
                < skeleton.names().len()),
{
    let ghost wanted = joint_bones_of(*document, joints@, skeleton.names());
    let mut table: Vec<Option<usize>> = Vec::new();
    let mut j: usize = 0;
    while j < joints.len()
        invariant
            j <= joints@.len(),
            table@.len() == j,
            wanted == joint_bones_of(*document, joints@, skeleton.names()),
            forall|i: int| 0 <= i < j ==> (#[trigger] table@[i]) == wanted[i],
            forall|i: int|
                0 <= i < j ==> ((#[trigger] table@[i]) matches Some(bone) ==> bone
                    < skeleton.names().len()),
        decreases joints@.len() - j,
    {
        let bone: Option<usize> = match joints[j] {
            Some(target) => if target < document.elements.len() {
                let found = skeleton.get_index_of(document.elements[target].name.as_str());
                proof {
                    if found.is_some() {
                        let name = document.elements@[target as int].name@;
                        let chosen = skeleton.names().index_of(name);
                        assert(skeleton.names()[chosen] == name);
                    }
                }
                found
            } else {
                None
            },
            None => None,
        };
        table.push(bone);
        j += 1;
    }
    assert(table@ =~= wanted);
    table
}

/// The fault of a joint index that names a joint which is no bone: the
/// joint, where the joint list has it.
pub open spec fn unknown_joint_fault(
    document: DmxDocument,
    bind: DmxElement,
    joints: Seq<Option<usize>>,
    joint: int,
) -> DmxFault {
    if 0 <= joint < joints.len() {
        match joints[joint] {
            Some(target) => if target < document.elements@.len() {
                DmxFault::JointNotInJointList(
                    document.elements@[target as int].name@,
                    document.elements@[target as int].id,
                )
            } else {
                DmxFault::IndexOutOfRange("jointIndices"@, bind.id)
            },
            None => DmxFault::IndexOutOfRange("jointIndices"@, bind.id),
        }
    } else {
        DmxFault::IndexOutOfRange("jointIndices"@, bind.id)
    }
}

/// The links of the vertex of a bind state that comes from the position
/// `position`: its bones, and for each bone the entry of its weight.
/// Without joints the vertex goes to the last bone of the skeleton, with
/// the weight one. With joints there are `jointCount` joint indices and as
/// many weights for each position.
pub open spec fn vertex_links(
    document: DmxDocument,
    bind: DmxElement,
    joints: Seq<Option<usize>>,
    names: Seq<Seq<char>>,
    joint_count: i32,
    position: i32,
) -> Result<(Seq<usize>, Seq<usize>), DmxFault> {
    if joint_count == 0 {
        if names.len() == 0 {
            Err(DmxFault::IndexOutOfRange("jointCount"@, bind.id))
        } else {
            Ok((seq![(names.len() - 1) as usize], Seq::empty()))
        }
    } else if joint_count < 0 || position < 0 {
        Err(DmxFault::IndexOutOfRange("jointCount"@, bind.id))
    } else {
        match integers_of(bind, "jointIndices"@) {
            None => Err(missing_fault(bind, "jointIndices"@, "IntegerArray"@)),
            Some(joint_indices) => match numbers_of(bind, "positions"@, NumberKind::Vector3Array) {
                None => Err(missing_fault(bind, "positions"@, "Vector3Array"@)),
                Some(positions) => if joint_indices.len() != (positions as int) * (
                joint_count as int) {
                    Err(DmxFault::ArrayLengthMismatch("jointIndices"@, "positions"@, bind.id))
                } else {
                    match numbers_of(bind, "jointWeights"@, NumberKind::FloatArray) {
                        None => Err(missing_fault(bind, "jointWeights"@, "FloatArray"@)),
                        Some(weights) => if weights != joint_indices.len() {
                            Err(
                                DmxFault::ArrayLengthMismatch(
                                    "jointWeights"@,
                                    "jointIndices"@,
                                    bind.id,
                                ),
                            )
                        } else {
                            match skin_links(
                                joint_bones_of(document, joints, names),
                                joint_indices,
                                joint_count as int,
                                position as int,
                                joint_count as int,
                            ) {
                                Ok(links) => Ok(links),
                                Err(SkinFault::OutOfRange) => Err(
                                    DmxFault::IndexOutOfRange("jointIndices"@, bind.id),
                                ),
                                Err(SkinFault::UnknownJoint(joint)) => Err(
                                    unknown_joint_fault(document, bind, joints, joint as int),
                                ),
                            }
                        },
                    }
                },
            },
        }
    }
}

/// The links of one vertex of a bind state: its bones, and for each bone the
/// entry of its weight. Without joints the vertex goes to the last bone of
/// the skeleton, with the weight one.
pub(crate) fn load_links(
    document: &DmxDocument,
    bind: &DmxElement,
    joints: &Vec<Option<usize>>,
    joint_bones: &Vec<Option<usize>>,
    skeleton: &NameMap<Bone>,
    joint_count: i32,
    position: i32,
) -> (loaded: Result<(Vertex, Vec<usize>), ParseDMXError>)
    requires
        joint_bones@ == joint_bones_of(*document, joints@, skeleton.names()),
        forall|j: int|
            0 <= j < joint_bones@.len() ==> ((#[trigger] joint_bones@[j]) matches Some(bone)
                ==> bone < skeleton.names().len()),
    ensures
        match loaded {
            Ok(links) => vertex_links(
                *document,
                *bind,
                joints@,
                skeleton.names(),
                joint_count,
                position,
            ) == Ok::<(Seq<usize>, Seq<usize>), DmxFault>(
                (index_set_items(links.0.links), links.1@),
            ),
            Err(error) => vertex_links(
                *document,
                *bind,
                joints@,
                skeleton.names(),
                joint_count,
                position,
            ) == Err::<(Seq<usize>, Seq<usize>), DmxFault>(error@),
        },
        loaded matches Ok(links) ==> forall|k: int|
            0 <= k < index_set_items(links.0.links).len() ==> (#[trigger] index_set_items(
                links.0.links,
            )[k]) < skeleton.names().len(),
{
    let bones: usize = skeleton.len();
    if joint_count == 0 {
        if bones == 0 {
            return Err(ParseDMXError::IndexOutOfRange("jointCount".to_owned(), bind.id));
        }
        let mut links = index_set_new();
        let _ = index_set_insert_full(&mut links, bones - 1);
        let weights: Vec<usize> = Vec::new();
        assert(index_set_items(links) =~= seq![(bones - 1) as usize]);
        return Ok((Vertex { links }, weights));
    }
    if joint_count < 0 || position < 0 {
        return Err(ParseDMXError::IndexOutOfRange("jointCount".to_owned(), bind.id));
    }
    let joint_indices = require_integers(bind, "jointIndices")?;
    let positions = require_numbers(bind, "positions", NumberKind::Vector3Array)?;
    assert((positions as int) * (joint_count as int) <= 0xffff_ffff_ffff_ffff * 0x7fff_ffff) by (nonlinear_arith)
        requires
            0 <= positions <= 0xffff_ffff_ffff_ffff,
            0 <= joint_count <= 0x7fff_ffff,
    ;
    assert((positions as int) * (joint_count as int) >= 0) by (nonlinear_arith)
        requires
            0 <= positions,
            0 <= joint_count,
    ;
    let wanted: u128 = (positions as u128) * (joint_count as u128);
    if joint_indices.len() as u128 != wanted {
        return Err(
            ParseDMXError::ArrayLengthMismatch(
                "jointIndices".to_owned(),
                "positions".to_owned(),
                bind.id,
            ),
        );
    }
    let joint_weights = require_numbers(bind, "jointWeights", NumberKind::FloatArray)?;
    if joint_weights != joint_indices.len() {
        return Err(
            ParseDMXError::ArrayLengthMismatch(
                "jointWeights".to_owned(),
                "jointIndices".to_owned(),
                bind.id,
            ),
        );
    }
    match skin_vertex(joint_bones, joint_indices, joint_count, position) {
        Ok(skinned) => {
            proof {
                assert forall|k: int|
                    0 <= k < index_set_items(skinned.0.links).len() implies (
                #[trigger] index_set_items(skinned.0.links)[k]) < skeleton.names().len() by {
                    let bone = index_set_items(skinned.0.links)[k];
                    assert(joint_bones@.contains(Some(bone)));
                    let j = choose|j: int| 0 <= j < joint_bones@.len() && joint_bones@[j] == Some(bone);
                    assert(joint_bones@[j] matches Some(b) ==> b < skeleton.names().len());
                }
            }
            Ok(skinned)
        },
        Err(SkinFault::OutOfRange) => Err(
            ParseDMXError::IndexOutOfRange("jointIndices".to_owned(), bind.id),
        ),
        Err(SkinFault::UnknownJoint(joint)) => {
            if joint < joints.len() {
                match joints[joint] {
                    Some(target) => {
                        if target < document.elements.len() {
                            return Err(
                                ParseDMXError::JointNotInJointList(
                                    document.elements[target].name.clone(),
                                    document.elements[target].id,
                                ),
                            );
                        }
                    },
                    None => {},
                }
            }
            Err(ParseDMXError::IndexOutOfRange("jointIndices".to_owned(), bind.id))
        },
    }
}

/// Whether every index is an entry of an array of `count` entries.
pub open spec fn in_range(indices: Seq<i32>, count: int) -> bool {
    forall|i: int| 0 <= i < indices.len() ==> 0 <= (#[trigger] indices[i]) < count
}

/// For each entry of the index arrays the unique vertex that it is.
pub open spec fn vertex_remap(positions: Seq<i32>, normals: Seq<i32>, coordinates: Seq<i32>) -> Seq<
    usize,
> {
    Seq::new(
        positions.len(),
        |i: int|
            unique_triples(positions, normals, coordinates, positions.len() as int).index_of(
                triple_at(positions, normals, coordinates, i),
            ) as usize,
    )
}

/// The links of the first `count` vertices of a bind state: for each vertex
/// its bones and the entries of their weights.
pub open spec fn links_loaded(
    document: DmxDocument,
    bind: DmxElement,
    joints: Seq<Option<usize>>,
    names: Seq<Seq<char>>,
    joint_count: i32,
    vertices: Seq<(i32, i32, i32)>,
    count: int,
) -> Result<(Seq<Seq<usize>>, Seq<Seq<usize>>), DmxFault>
    decreases count,
{
    if count <= 0 {
        Ok((Seq::empty(), Seq::empty()))
    } else {
        match links_loaded(document, bind, joints, names, joint_count, vertices, count - 1) {
            Err(fault) => Err(fault),
            Ok((links, weights)) => match vertex_links(
                document,
                bind,
                joints,
                names,
                joint_count,
                vertices[count - 1].0,
            ) {
                Err(fault) => Err(fault),
                Ok(found) => Ok((links.push(found.0), weights.push(found.1))),
            },
        }
    }
}

/// Once a vertex is at fault, the fault stays whatever follows.
pub proof fn lemma_links_failed(
    document: DmxDocument,
    bind: DmxElement,
    joints: Seq<Option<usize>>,
    names: Seq<Seq<char>>,
    joint_count: i32,
    vertices: Seq<(i32, i32, i32)>,
    failed: int,
    count: int,
)
    requires
        failed <= count,
        links_loaded(document, bind, joints, names, joint_count, vertices, failed) is Err,
    ensures
        links_loaded(document, bind, joints, names, joint_count, vertices, count) == links_loaded(
            document,
            bind,
            joints,
            names,
            joint_count,
            vertices,
            failed,
        ),
    decreases count - failed,
{
    if failed < count {
        lemma_links_failed(document, bind, joints, names, joint_count, vertices, failed, count - 1);
    }
}

} // verus!
