//! The parts of a document: what a shape comes to, and the walk of the
//! nodes that have the shapes.

use crate::import::{Bone, Part, Vertex};
use crate::import::dmx::{DmxDocument, DmxElement, DmxFault, DmxPart, ParseDMXError};
use crate::import::dmx::attributes::{
    children_of, element_of, elements_of, integer_of, integers_of, missing_fault, no_element_seen,
    numbers_of, optional_element, optional_elements, require_integer, require_integers,
    require_numbers, require_transform, text_equals, transform_of, NumberKind,
};
use crate::import::dmx::faces::{faces_view, load_faces, shape_faces};
use crate::import::dmx::flexes::{flex_models, load_flexes, shape_flexes, FlexModel};
use crate::import::dmx::vertices::{
    deduplicate_vertices, in_range, indices_in_range, joint_bones_of, joint_table,
    lemma_links_failed, links_loaded, load_links, triple_at, unique_triples, vertex_remap,
};
use crate::names::NameMap;
use crate::ordered::index_set_items;
use crate::utilities::flags::{lemma_pending_update, pending};
use vstd::prelude::*;

verus! {

/// What is wrong with the arrays of a bind state, if anything: an array is
/// missing, the index arrays differ in length, an index is out of range,
/// or the number of joints is missing.
pub open spec fn bind_fault(bind: DmxElement) -> Option<DmxFault> {
    let positions = integers_of(bind, "positionsIndices"@);
    let normals = integers_of(bind, "normalsIndices"@);
    let coordinates = integers_of(bind, "textureCoordinatesIndices"@);
    if positions is None {
        Some(missing_fault(bind, "positionsIndices"@, "IntegerArray"@))
    } else if numbers_of(bind, "positions"@, NumberKind::Vector3Array) is None {
        Some(missing_fault(bind, "positions"@, "Vector3Array"@))
    } else if normals is None {
        Some(missing_fault(bind, "normalsIndices"@, "IntegerArray"@))
    } else if numbers_of(bind, "normals"@, NumberKind::Vector3Array) is None {
        Some(missing_fault(bind, "normals"@, "Vector3Array"@))
    } else if normals->Some_0.len() != positions->Some_0.len() {
        Some(DmxFault::ArrayLengthMismatch("normalsIndices"@, "positionsIndices"@, bind.id))
    } else if coordinates is None {
        Some(missing_fault(bind, "textureCoordinatesIndices"@, "IntegerArray"@))
    } else if numbers_of(bind, "textureCoordinates"@, NumberKind::Vector2Array) is None {
        Some(missing_fault(bind, "textureCoordinates"@, "Vector2Array"@))
    } else if coordinates->Some_0.len() != positions->Some_0.len() {
        Some(
            DmxFault::ArrayLengthMismatch(
                "textureCoordinatesIndices"@,
                "positionsIndices"@,
                bind.id,
            ),
        )
    } else if !in_range(
        positions->Some_0,
        numbers_of(bind, "positions"@, NumberKind::Vector3Array)->Some_0 as int,
    ) {
        Some(DmxFault::IndexOutOfRange("positionsIndices"@, bind.id))
    } else if !in_range(
        normals->Some_0,
        numbers_of(bind, "normals"@, NumberKind::Vector3Array)->Some_0 as int,
    ) {
        Some(DmxFault::IndexOutOfRange("normalsIndices"@, bind.id))
    } else if !in_range(
        coordinates->Some_0,
        numbers_of(bind, "textureCoordinates"@, NumberKind::Vector2Array)->Some_0 as int,
    ) {
        Some(DmxFault::IndexOutOfRange("textureCoordinatesIndices"@, bind.id))
    } else if integer_of(bind, "jointCount"@) is None {
        Some(missing_fault(bind, "jointCount"@, "Integer"@))
    } else {
        None
    }
}

/// What a shape comes to.
pub struct PartModel {
    /// The element of the bind state.
    pub bind_state: usize,
    /// The elements that hold the transforms of the nodes from the
    /// outermost down to the node of the part.
    pub transforms: Seq<usize>,
    /// For each vertex the entries of its position, its normal and its
    /// texture coordinate.
    pub vertices: Seq<(i32, i32, i32)>,
    /// For each vertex its bones.
    pub links: Seq<Seq<usize>>,
    /// For each vertex and each of its bones the entry of the weight.
    pub weights: Seq<Seq<usize>>,
    pub materials: Seq<Seq<char>>,
    /// For each material its faces.
    pub faces: Seq<Seq<Seq<usize>>>,
    pub flex_names: Seq<Seq<char>>,
    pub flexes: Seq<FlexModel>,
}

/// The part that a shape with a bind state makes: the unique vertices of
/// the bind state with their links, the faces of the shape material by
/// material, and its flexes.
pub open spec fn shape_part(
    document: DmxDocument,
    shape: DmxElement,
    bind_state: usize,
    joints: Seq<Option<usize>>,
    names: Seq<Seq<char>>,
    transforms: Seq<usize>,
) -> Result<PartModel, DmxFault> {
    let bind = document.elements@[bind_state as int];
    match bind_fault(bind) {
        Some(fault) => Err(fault),
        None => {
            let positions = integers_of(bind, "positionsIndices"@)->Some_0;
            let normals = integers_of(bind, "normalsIndices"@)->Some_0;
            let coordinates = integers_of(bind, "textureCoordinatesIndices"@)->Some_0;
            let joint_count = integer_of(bind, "jointCount"@)->Some_0;
            let vertices = unique_triples(positions, normals, coordinates, positions.len() as int);
            let remap = vertex_remap(positions, normals, coordinates);
            match links_loaded(
                document,
                bind,
                joints,
                names,
                joint_count,
                vertices,
                vertices.len() as int,
            ) {
                Err(fault) => Err(fault),
                Ok((links, weights)) => match shape_faces(document, shape, remap) {
                    Err(fault) => Err(fault),
                    Ok((materials, faces)) => match shape_flexes(document, shape, remap) {
                        Err(fault) => Err(fault),
                        Ok((flex_names, flexes)) => Ok(
                            PartModel {
                                bind_state,
                                transforms,
                                vertices,
                                links,
                                weights,
                                materials,
                                faces,
                                flex_names,
                                flexes,
                            },
                        ),
                    },
                },
            }
        },
    }
}

/// For each vertex its bones.
pub open spec fn vertex_bones(vertices: Seq<Vertex>) -> Seq<Seq<usize>> {
    Seq::new(vertices.len(), |v: int| index_set_items(vertices[v].links))
}

/// For each vertex the entries of its weights.
pub open spec fn weight_entries(weights: Seq<Vec<usize>>) -> Seq<Seq<usize>> {
    Seq::new(weights.len(), |v: int| weights[v]@)
}

/// A part as it is held, with where its numbers are found.
pub open spec fn part_model(part: Part, source: DmxPart) -> PartModel {
    PartModel {
        bind_state: source.bind_state,
        transforms: source.transforms@,
        vertices: source.vertices@,
        links: vertex_bones(part.vertices@),
        weights: weight_entries(source.weights@),
        materials: part.faces.names(),
        faces: faces_view(part.faces.values()),
        flex_names: part.flexes.names(),
        flexes: flex_models(part.flexes.values(), source.flexes@),
    }
}

/// The part that a shape with a bind state makes.
fn load_part(
    document: &DmxDocument,
    shape: &DmxElement,
    bind_state: usize,
    joints: &Vec<Option<usize>>,
    skeleton: &NameMap<Bone>,
    transforms: &Vec<usize>,
) -> (loaded: Result<(Part, DmxPart), ParseDMXError>)
    requires
        bind_state < document.elements@.len(),
    ensures
        match loaded {
            Ok(part) => shape_part(
                *document,
                *shape,
                bind_state,
                joints@,
                skeleton.names(),
                transforms@,
            ) == Ok::<PartModel, DmxFault>(part_model(part.0, part.1)),
            Err(error) => shape_part(
                *document,
                *shape,
                bind_state,
                joints@,
                skeleton.names(),
                transforms@,
            ) == Err::<PartModel, DmxFault>(error@),
        },
        loaded matches Ok(part) ==> crate::import::part_sound(
            part.0,
            skeleton.names().len() as int,
        ),
{
    let bind = &document.elements[bind_state];
    let positions_indices = require_integers(bind, "positionsIndices")?;
    let positions = require_numbers(bind, "positions", NumberKind::Vector3Array)?;
    let normals_indices = require_integers(bind, "normalsIndices")?;
    let normals = require_numbers(bind, "normals", NumberKind::Vector3Array)?;
    if normals_indices.len() != positions_indices.len() {
        return Err(
            ParseDMXError::ArrayLengthMismatch(
                "normalsIndices".to_owned(),
                "positionsIndices".to_owned(),
                bind.id,
            ),
        );
    }
    let coordinate_indices = require_integers(bind, "textureCoordinatesIndices")?;
    let coordinates = require_numbers(bind, "textureCoordinates", NumberKind::Vector2Array)?;
    if coordinate_indices.len() != positions_indices.len() {
        return Err(
            ParseDMXError::ArrayLengthMismatch(
                "textureCoordinatesIndices".to_owned(),
                "positionsIndices".to_owned(),
                bind.id,
            ),
        );
    }
    if !indices_in_range(positions_indices, positions) {
        return Err(ParseDMXError::IndexOutOfRange("positionsIndices".to_owned(), bind.id));
    }
    if !indices_in_range(normals_indices, normals) {
        return Err(ParseDMXError::IndexOutOfRange("normalsIndices".to_owned(), bind.id));
    }
    if !indices_in_range(coordinate_indices, coordinates) {
        return Err(
            ParseDMXError::IndexOutOfRange("textureCoordinatesIndices".to_owned(), bind.id),
        );
    }
    let joint_count = require_integer(bind, "jointCount")?;
    assert(bind_fault(*bind) is None);
    let unique = deduplicate_vertices(positions_indices, normals_indices, coordinate_indices);
    proof {
        let wanted = vertex_remap(positions_indices@, normals_indices@, coordinate_indices@);
        assert forall|i: int| 0 <= i < positions_indices@.len() implies unique.remap@[i]
            == wanted[i] by {
            let triple = triple_at(positions_indices@, normals_indices@, coordinate_indices@, i);
            assert(unique.vertices@[unique.remap@[i] as int] == triple);
            let chosen = unique.vertices@.index_of(triple);
            assert(unique.vertices@[chosen] == triple);
        }
        assert(unique.remap@ =~= wanted);
    }
    let count: usize = unique.vertices.len();
    let bones: usize = skeleton.len();
    let joint_bones = joint_table(document, joints, skeleton);
    let mut vertices: Vec<Vertex> = Vec::new();
    let mut weights: Vec<Vec<usize>> = Vec::new();
    assert(vertex_bones(vertices@) =~= Seq::<Seq<usize>>::empty());
    assert(weight_entries(weights@) =~= Seq::<Seq<usize>>::empty());
    let mut v: usize = 0;
    while v < count
        invariant
            v <= count,
            count == unique.vertices@.len(),
            bones == skeleton.names().len(),
            joint_bones@ == joint_bones_of(*document, joints@, skeleton.names()),
            forall|j: int|
                0 <= j < joint_bones@.len() ==> ((#[trigger] joint_bones@[j]) matches Some(bone)
                    ==> bone < skeleton.names().len()),
            vertices@.len() == v,
            weights@.len() == v,
            bind_state < document.elements@.len(),
            *bind == document.elements@[bind_state as int],
            bind_fault(*bind) is None,
            integers_of(*bind, "positionsIndices"@) == Some(positions_indices@),
            integers_of(*bind, "normalsIndices"@) == Some(normals_indices@),
            integers_of(*bind, "textureCoordinatesIndices"@) == Some(coordinate_indices@),
            integer_of(*bind, "jointCount"@) == Some(joint_count),
            unique.vertices@ == unique_triples(
                positions_indices@,
                normals_indices@,
                coordinate_indices@,
                positions_indices@.len() as int,
            ),
            links_loaded(
                *document,
                *bind,
                joints@,
                skeleton.names(),
                joint_count,
                unique.vertices@,
                v as int,
            ) == Ok::<(Seq<Seq<usize>>, Seq<Seq<usize>>), DmxFault>(
                (vertex_bones(vertices@), weight_entries(weights@)),
            ),
            forall|i: int|
                0 <= i < v ==> crate::import::vertex_sound(#[trigger] vertices@[i], bones as int),
        decreases count - v,
    {
        let links = match load_links(
            document,
            bind,
            joints,
            &joint_bones,
            skeleton,
            joint_count,
            unique.vertices[v].0,
        ) {
            Ok(links) => links,
            Err(error) => {
                proof {
                    lemma_links_failed(
                        *document,
                        *bind,
                        joints@,
                        skeleton.names(),
                        joint_count,
                        unique.vertices@,
                        v + 1,
                        count as int,
                    );
                }
                return Err(error);
            },
        };
        let ghost bones_before = vertex_bones(vertices@);
        let ghost entries_before = weight_entries(weights@);
        let ghost found_bones = index_set_items(links.0.links);
        let ghost found_entries = links.1@;
        vertices.push(links.0);
        weights.push(links.1);
        proof {
            assert(vertex_bones(vertices@) =~= bones_before.push(found_bones));
            assert(weight_entries(weights@) =~= entries_before.push(found_entries));
        }
        v += 1;
    }
    let faces = load_faces(document, shape, &unique.remap, count)?;
    let flexes = load_flexes(document, shape, &unique.remap)?;
    let mut chain: Vec<usize> = Vec::new();
    let mut t: usize = 0;
    while t < transforms.len()
        invariant
            t <= transforms@.len(),
            chain@ == transforms@.take(t as int),
        decreases transforms@.len() - t,
    {
        chain.push(transforms[t]);
        proof {
            assert(transforms@.take(t + 1) =~= transforms@.take(t as int).push(transforms@[t as int]));
        }
        t += 1;
    }
    proof {
        assert(transforms@.take(transforms@.len() as int) =~= transforms@);
    }
    Ok(
        (
            Part { vertices, faces, flexes: flexes.0 },
            DmxPart {
                bind_state,
                transforms: chain,
                vertices: unique.vertices,
                weights,
                flexes: flexes.1,
            },
        ),
    )
}

/// Whether every part is sound for a skeleton of `bones` bones.
pub open spec fn parts_sound(parts: NameMap<Part>, bones: int) -> bool {
    &&& parts.well_formed()
    &&& forall|p: int|
        0 <= p < parts.values().len() ==> crate::import::part_sound(
            #[trigger] parts.values()[p],
            bones,
        )
}

/// The first of the base states from position `from` on that is named
/// "bind". Null references and references out of the document are passed
/// over.
pub open spec fn first_bind(document: DmxDocument, states: Seq<Option<usize>>, from: int) -> Option<
    usize,
>
    decreases states.len() - from,
{
    if from < 0 || from >= states.len() {
        None
    } else {
        match states[from] {
            Some(index) => if index < document.elements@.len() && document.elements@[index as int].name@
                == "bind"@ {
                Some(index)
            } else {
                first_bind(document, states, from + 1)
            },
            None => first_bind(document, states, from + 1),
        }
    }
}

/// The base state of a shape that is named "bind", if the shape has base
/// states; a fault where it has base states and none of that name.
pub open spec fn bind_state_of(document: DmxDocument, shape: DmxElement) -> Result<
    Option<usize>,
    DmxFault,
> {
    match elements_of(shape, "baseStates"@) {
        None => Ok(None),
        Some(states) => match first_bind(document, states, 0) {
            Some(index) => Ok(Some(index)),
            None => Err(DmxFault::MeshMissingBindState(shape.id)),
        },
    }
}

/// The base state of a shape that is named "bind", if the shape has base
/// states; an error where it has base states and none of that name.
fn find_bind_state(document: &DmxDocument, shape: &DmxElement) -> (found: Result<
    Option<usize>,
    ParseDMXError,
>)
    ensures
        match found {
            Ok(state) => bind_state_of(*document, *shape) == Ok::<Option<usize>, DmxFault>(state),
            Err(error) => bind_state_of(*document, *shape) == Err::<Option<usize>, DmxFault>(
                error@,
            ),
        },
        found matches Ok(Some(index)) ==> index < document.elements@.len(),
{
    let states = match optional_elements(shape, "baseStates") {
        Some(states) => states,
        None => {
            return Ok(None);
        },
    };
    let mut s: usize = 0;
    while s < states.len()
        invariant
            s <= states@.len(),
            elements_of(*shape, "baseStates"@) == Some(states@),
            first_bind(*document, states@, 0) == first_bind(*document, states@, s as int),
        decreases states@.len() - s,
    {
        match states[s] {
            Some(index) => {
                if index < document.elements.len() {
                    if text_equals(document.elements[index].name.as_str(), "bind") {
                        return Ok(Some(index));
                    }
                }
            },
            None => {},
        }
        s += 1;
    }
    Err(ParseDMXError::MeshMissingBindState(shape.id))
}

/// A copy of a chain of transforms with one more at its end.
fn extend_chain(chain: &Vec<usize>, transform: usize) -> (extended: Vec<usize>)
    ensures
        extended@ == chain@.push(transform),
{
    let mut extended: Vec<usize> = Vec::new();
    let mut i: usize = 0;
    while i < chain.len()
        invariant
            i <= chain@.len(),
            extended@ == chain@.take(i as int),
        decreases chain@.len() - i,
    {
        extended.push(chain[i]);
        proof {
            assert(chain@.take(i + 1) =~= chain@.take(i as int).push(chain@[i as int]));
        }
        i += 1;
    }
    proof {
        assert(chain@.take(chain@.len() as int) =~= chain@);
    }
    extended.push(transform);
    extended
}

/// The stack with the nodes from position `from` on put on top, the first
/// of them topmost, each below the transforms `chain`. Null references
/// are passed over.
pub open spec fn with_nodes(
    stack: Seq<(usize, Seq<usize>)>,
    nodes: Seq<Option<usize>>,
    chain: Seq<usize>,
    from: int,
) -> Seq<(usize, Seq<usize>)>
    decreases nodes.len() - from,
{
    if from < 0 || from >= nodes.len() {
        stack
    } else {
        let below = with_nodes(stack, nodes, chain, from + 1);
        match nodes[from] {
            Some(node) => below.push((node, chain)),
            None => below,
        }
    }
}

/// The part that a node adds, with its name: that of its shape, where the
/// node has a shape with a bind state. A shape whose name is one of
/// `taken` is a fault.
pub open spec fn node_part(
    document: DmxDocument,
    node: DmxElement,
    joints: Seq<Option<usize>>,
    bones: Seq<Seq<char>>,
    transforms: Seq<usize>,
    taken: Seq<Seq<char>>,
) -> Result<Option<(Seq<char>, PartModel)>, DmxFault> {
    match element_of(document, node, "shape"@) {
        None => Ok(None),
        Some(index) => {
            let shape = document.elements@[index as int];
            match bind_state_of(document, shape) {
                Err(fault) => Err(fault),
                Ok(None) => Ok(None),
                Ok(Some(bind_state)) => if taken.contains(shape.name@) {
                    Err(DmxFault::DuplicatePartName(shape.name@, shape.id))
                } else {
                    match shape_part(document, shape, bind_state, joints, bones, transforms) {
                        Err(fault) => Err(fault),
                        Ok(part) => Ok(Some((shape.name@, part))),
                    }
                },
            }
        },
    }
}

/// The parts while the nodes are walked.
pub struct MeshWalk {
    /// Which elements have been entered as nodes.
    pub seen: Seq<bool>,
    /// The names of the parts so far.
    pub names: Seq<Seq<char>>,
    /// The parts so far.
    pub parts: Seq<PartModel>,
}

/// The walk once a node has been entered.
pub open spec fn node_entered(walk: MeshWalk, node: int, added: Option<(Seq<char>, PartModel)>) -> MeshWalk {
    match added {
        Some((name, part)) => MeshWalk {
            seen: walk.seen.update(node, true),
            names: walk.names.push(name),
            parts: walk.parts.push(part),
        },
        None => MeshWalk { seen: walk.seen.update(node, true), names: walk.names, parts: walk.parts },
    }
}

/// The parts that the nodes on a stack come to, depth first: the topmost
/// node adds its transform to those above it and enters the part of its
/// shape, and the nodes below it go on top of the stack, the first of them
/// topmost. A reference out of the document is passed over. A node that
/// was entered before is a fault, and so is a node without a transform.
pub open spec fn walk_meshes(
    document: DmxDocument,
    joints: Seq<Option<usize>>,
    bones: Seq<Seq<char>>,
    stack: Seq<(usize, Seq<usize>)>,
    walk: MeshWalk,
) -> Result<MeshWalk, DmxFault>
    decreases pending(walk.seen, walk.seen.len() as int), stack.len(),
        via walk_meshes_decreases
{
    if stack.len() == 0 {
        Ok(walk)
    } else {
        let node = stack.last().0;
        let chain = stack.last().1;
        let rest = stack.drop_last();
        if node >= document.elements@.len() || node >= walk.seen.len() {
            walk_meshes(document, joints, bones, rest, walk)
        } else {
            let element = document.elements@[node as int];
            if walk.seen[node as int] {
                Err(DmxFault::DuplicatePartName(element.name@, element.id))
            } else {
                match transform_of(document, element) {
                    Err(fault) => Err(fault),
                    Ok(transform) => match node_part(
                        document,
                        element,
                        joints,
                        bones,
                        chain.push(transform),
                        walk.names,
                    ) {
                        Err(fault) => Err(fault),
                        Ok(added) => walk_meshes(
                            document,
                            joints,
                            bones,
                            with_nodes(rest, children_of(element), chain.push(transform), 0),
                            node_entered(walk, node as int, added),
                        ),
                    },
                }
            }
        }
    }
}

#[via_fn]
proof fn walk_meshes_decreases(
    document: DmxDocument,
    joints: Seq<Option<usize>>,
    bones: Seq<Seq<char>>,
    stack: Seq<(usize, Seq<usize>)>,
    walk: MeshWalk,
) {
    if stack.len() != 0 {
        let node = stack.last().0;
        if !(node >= document.elements@.len() || node >= walk.seen.len()) {
            if !walk.seen[node as int] {
                lemma_pending_update(walk.seen, node as int, walk.seen.len() as int);
            }
        }
    }
}

/// The walk of the nodes before the first node.
pub open spec fn mesh_walk_start(document: DmxDocument) -> MeshWalk {
    MeshWalk {
        seen: Seq::new(document.elements@.len(), |i: int| false),
        names: Seq::empty(),
        parts: Seq::empty(),
    }
}

/// The parts as they are held, with where their numbers are found.
pub open spec fn part_models(parts: Seq<Part>, sources: Seq<DmxPart>) -> Seq<PartModel> {
    Seq::new(parts.len(), |i: int| part_model(parts[i], sources[i]))
}

/// The nodes that are waiting, each with the transforms above it.
pub open spec fn waiting_nodes(stack: Seq<(usize, Vec<usize>)>) -> Seq<(usize, Seq<usize>)> {
    Seq::new(stack.len(), |i: int| (stack[i].0, stack[i].1@))
}

/// The part that a node adds, with its name.
fn load_node_part(
    document: &DmxDocument,
    element: &DmxElement,
    joints: &Vec<Option<usize>>,
    skeleton: &NameMap<Bone>,
    transforms: &Vec<usize>,
    parts: &NameMap<Part>,
) -> (loaded: Result<Option<(String, Part, DmxPart)>, ParseDMXError>)
    ensures
        match loaded {
            Ok(Some(added)) => node_part(
                *document,
                *element,
                joints@,
                skeleton.names(),
                transforms@,
                parts.names(),
            ) == Ok::<Option<(Seq<char>, PartModel)>, DmxFault>(
                Some((added.0@, part_model(added.1, added.2))),
            ) && !parts.names().contains(added.0@) && crate::import::part_sound(
                added.1,
                skeleton.names().len() as int,
            ),
            Ok(None) => node_part(
                *document,
                *element,
                joints@,
                skeleton.names(),
                transforms@,
                parts.names(),
            ) == Ok::<Option<(Seq<char>, PartModel)>, DmxFault>(None),
            Err(error) => node_part(
                *document,
                *element,
                joints@,
                skeleton.names(),
                transforms@,
                parts.names(),
            ) == Err::<Option<(Seq<char>, PartModel)>, DmxFault>(error@),
        },
{
    match optional_element(document, element, "shape") {
        Some(shape_index) => {
            let shape = &document.elements[shape_index];
            match find_bind_state(document, shape)? {
                Some(bind_state) => {
                    if parts.get_index_of(shape.name.as_str()).is_some() {
                        return Err(ParseDMXError::DuplicatePartName(shape.name.clone(), shape.id));
                    }
                    let part = load_part(document, shape, bind_state, joints, skeleton, transforms)?;
                    Ok(Some((shape.name.clone(), part.0, part.1)))
                },
                None => Ok(None),
            }
        },
        None => Ok(None),
    }
}

/// Walks the nodes below the model, depth first, and enters the shape of
/// each node that has a bind state as a part.
pub(crate) fn load_meshes(
    document: &DmxDocument,
    roots: &Vec<Option<usize>>,
    joints: &Vec<Option<usize>>,
    skeleton: &NameMap<Bone>,
) -> (loaded: Result<(NameMap<Part>, Vec<DmxPart>), ParseDMXError>)
    ensures
        match loaded {
            Ok(parts) => walk_meshes(
                *document,
                joints@,
                skeleton.names(),
                with_nodes(Seq::empty(), roots@, Seq::empty(), 0),
                mesh_walk_start(*document),
            ) matches Ok(walk) && walk.names == parts.0.names() && walk.parts == part_models(
                parts.0.values(),
                parts.1@,
            ) && parts.1@.len() == parts.0.values().len(),
            Err(error) => walk_meshes(
                *document,
                joints@,
                skeleton.names(),
                with_nodes(Seq::empty(), roots@, Seq::empty(), 0),
                mesh_walk_start(*document),
            ) == Err::<MeshWalk, DmxFault>(error@),
        },
        loaded matches Ok(parts) ==> parts_sound(parts.0, skeleton.names().len() as int),
{
    let mut parts: NameMap<Part> = NameMap::new();
    let mut sources: Vec<DmxPart> = Vec::new();
    let mut seen = no_element_seen(document);
    let mut stack: Vec<(usize, Vec<usize>)> = Vec::new();
    assert(waiting_nodes(stack@) =~= Seq::<(usize, Seq<usize>)>::empty());
    let mut r: usize = roots.len();
    while r > 0
        invariant
            r <= roots@.len(),
            waiting_nodes(stack@) == with_nodes(Seq::empty(), roots@, Seq::empty(), r as int),
        decreases r,
    {
        r -= 1;
        match roots[r] {
            Some(node) => {
                let ghost held = waiting_nodes(stack@);
                stack.push((node, Vec::new()));
                assert(waiting_nodes(stack@) =~= held.push((node, Seq::<usize>::empty())));
            },
            None => {},
        }
    }
    let ghost whole = walk_meshes(
        *document,
        joints@,
        skeleton.names(),
        waiting_nodes(stack@),
        mesh_walk_start(*document),
    );
    assert(seen@ =~= mesh_walk_start(*document).seen);
    assert(part_models(parts.values(), sources@) =~= Seq::<PartModel>::empty());
    while stack.len() > 0
        invariant
            seen@.len() == document.elements@.len(),
            parts_sound(parts, skeleton.names().len() as int),
            sources@.len() == parts.values().len(),
            whole == walk_meshes(
                *document,
                joints@,
                skeleton.names(),
                with_nodes(Seq::empty(), roots@, Seq::empty(), 0),
                mesh_walk_start(*document),
            ),
            whole == walk_meshes(
                *document,
                joints@,
                skeleton.names(),
                waiting_nodes(stack@),
                MeshWalk {
                    seen: seen@,
                    names: parts.names(),
                    parts: part_models(parts.values(), sources@),
                },
            ),
        decreases pending(seen@, seen@.len() as int), stack@.len(),
    {
        let ghost walk = MeshWalk {
            seen: seen@,
            names: parts.names(),
            parts: part_models(parts.values(), sources@),
        };
        let ghost held = waiting_nodes(stack@);
        let (node, chain) = match stack.pop() {
            Some(entry) => entry,
            None => vstd::pervasive::unreached(),
        };
        assert(waiting_nodes(stack@) =~= held.drop_last());
        assert(held.last() == (node, chain@));
        if node < document.elements.len() {
            let element = &document.elements[node];
            if seen[node] {
                return Err(ParseDMXError::DuplicatePartName(element.name.clone(), element.id));
            }
            proof {
                lemma_pending_update(seen@, node as int, seen@.len() as int);
            }
            seen[node] = true;
            let transform = require_transform(document, element)?;
            let transforms = extend_chain(&chain, transform);
            match load_node_part(document, element, joints, skeleton, &transforms, &parts)? {
                Some(added) => {
                    let ghost before = parts.values();
                    let ghost sources_before = sources@;
                    let ghost model = part_model(added.1, added.2);
                    let _ = parts.insert_full(added.0, added.1);
                    sources.push(added.2);
                    proof {
                        assert forall|p: int|
                            0 <= p < parts.values().len() implies crate::import::part_sound(
                            #[trigger] parts.values()[p],
                            skeleton.names().len() as int,
                        ) by {
                            if p < before.len() {
                                assert(parts.values()[p] == before[p]);
                            }
                        }
                        assert(part_models(parts.values(), sources@) =~= part_models(
                            before,
                            sources_before,
                        ).push(model));
                    }
                },
                None => {},
            }
            let ghost rest = waiting_nodes(stack@);
            match optional_elements(element, "children") {
                Some(children) => {
                    let mut c: usize = children.len();
                    while c > 0
                        invariant
                            c <= children@.len(),
                            transforms@ == chain@.push(transform),
                            waiting_nodes(stack@) == with_nodes(
                                rest,
                                children@,
                                transforms@,
                                c as int,
                            ),
                        decreases c,
                    {
                        c -= 1;
                        match children[c] {
                            Some(child) => {
                                let below = extend_chain(&chain, transform);
                                let ghost waiting = waiting_nodes(stack@);
                                stack.push((child, below));
                                assert(waiting_nodes(stack@) =~= waiting.push((child, transforms@)));
                            },
                            None => {},
                        }
                    }
                },
                None => {},
            }
            assert(waiting_nodes(stack@) == with_nodes(rest, children_of(*element), transforms@, 0));
        }
    }
    Ok((parts, sources))
}

} // verus!
