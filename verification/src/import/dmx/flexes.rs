//! The flexes of a shape: which vertices a delta state moves.

use crate::import::dmx::{DmxDocument, DmxElement, DmxFault, DmxFlex, DmxValue, ParseDMXError};
use crate::import::dmx::attributes::{
    elements_of, find_value, integers_of, missing_fault, numbers_of, optional_elements,
    require_numbers, NumberKind,
};
use crate::names::NameMap;
use crate::ordered::{index_set_insert_full, index_set_items, index_set_new};
use indexmap::IndexSet;
use vstd::prelude::*;

verus! {

/// The vertices that offsets move, and for each of them the entry of its
/// offset of the kind that is read and of the other kind.
pub struct OffsetWalk {
    pub targets: Seq<usize>,
    pub own: Seq<Option<usize>>,
    pub other: Seq<Option<usize>>,
}

/// The offsets after the first `count` entries of an index array: each
/// entry moves the vertex that its index stands for; a vertex that is
/// moved for the first time is added at the end; a later entry for a
/// vertex takes the place of an earlier one. `None` where an index is out
/// of range.
pub open spec fn offsets_entered(
    indices: Seq<i32>,
    remap: Seq<usize>,
    start: OffsetWalk,
    count: int,
) -> Option<OffsetWalk>
    decreases count,
{
    if count <= 0 {
        Some(start)
    } else {
        match offsets_entered(indices, remap, start, count - 1) {
            None => None,
            Some(walk) => {
                let index = indices[count - 1];
                if index < 0 || index >= remap.len() {
                    None
                } else {
                    let target = remap[index as int];
                    if walk.targets.contains(target) {
                        Some(
                            OffsetWalk {
                                targets: walk.targets,
                                own: walk.own.update(
                                    walk.targets.index_of(target),
                                    Some((count - 1) as usize),
                                ),
                                other: walk.other,
                            },
                        )
                    } else {
                        Some(
                            OffsetWalk {
                                targets: walk.targets.push(target),
                                own: walk.own.push(Some((count - 1) as usize)),
                                other: walk.other.push(None),
                            },
                        )
                    }
                }
            },
        }
    }
}

/// Once an index is out of range, it stays so whatever follows.
pub proof fn lemma_offsets_failed(
    indices: Seq<i32>,
    remap: Seq<usize>,
    start: OffsetWalk,
    failed: int,
    count: int,
)
    requires
        failed <= count,
        offsets_entered(indices, remap, start, failed) is None,
    ensures
        offsets_entered(indices, remap, start, count) is None,
    decreases count - failed,
{
    if failed < count {
        lemma_offsets_failed(indices, remap, start, failed, count - 1);
    }
}

/// The offsets of one kind of a delta state, added to those in `start`. A
/// state without the index array has no offsets of the kind; with it, the
/// value array has to be as long.
pub open spec fn offsets_of(
    state: DmxElement,
    indices_name: Seq<char>,
    values_name: Seq<char>,
    remap: Seq<usize>,
    start: OffsetWalk,
) -> Result<OffsetWalk, DmxFault> {
    match integers_of(state, indices_name) {
        None => Ok(start),
        Some(indices) => match numbers_of(state, values_name, NumberKind::Vector3Array) {
            None => Err(missing_fault(state, values_name, "Vector3Array"@)),
            Some(values) => if values != indices.len() {
                Err(DmxFault::ArrayLengthMismatch(values_name, indices_name, state.id))
            } else {
                match offsets_entered(indices, remap, start, indices.len() as int) {
                    None => Err(DmxFault::IndexOutOfRange(indices_name, state.id)),
                    Some(end) => Ok(end),
                }
            },
        },
    }
}

/// The offsets of one kind (positions or normals) of a delta state, entered
/// under the vertices that they move.
fn load_offsets(
    state: &DmxElement,
    indices_name: &str,
    values_name: &str,
    remap: &Vec<usize>,
    targets: &mut IndexSet<usize>,
    own: &mut Vec<Option<usize>>,
    other: &mut Vec<Option<usize>>,
) -> (loaded: Result<(), ParseDMXError>)
    requires
        old(own)@.len() == index_set_items(*old(targets)).len(),
        old(other)@.len() == index_set_items(*old(targets)).len(),
    ensures
        match loaded {
            Ok(_) => offsets_of(
                *state,
                indices_name@,
                values_name@,
                remap@,
                OffsetWalk {
                    targets: index_set_items(*old(targets)),
                    own: old(own)@,
                    other: old(other)@,
                },
            ) == Ok::<OffsetWalk, DmxFault>(
                OffsetWalk {
                    targets: index_set_items(*final(targets)),
                    own: final(own)@,
                    other: final(other)@,
                },
            ) && final(own)@.len() == index_set_items(*final(targets)).len() && final(other)@.len()
                == index_set_items(*final(targets)).len(),
            Err(error) => offsets_of(
                *state,
                indices_name@,
                values_name@,
                remap@,
                OffsetWalk {
                    targets: index_set_items(*old(targets)),
                    own: old(own)@,
                    other: old(other)@,
                },
            ) == Err::<OffsetWalk, DmxFault>(error@),
        },
{
    let ghost start = OffsetWalk {
        targets: index_set_items(*targets),
        own: own@,
        other: other@,
    };
    let indices = match find_value(state, indices_name) {
        Some(DmxValue::IntegerArray(indices)) => indices,
        _ => {
            return Ok(());
        },
    };
    let values = require_numbers(state, values_name, NumberKind::Vector3Array)?;
    if values != indices.len() {
        return Err(
            ParseDMXError::ArrayLengthMismatch(
                values_name.to_owned(),
                indices_name.to_owned(),
                state.id,
            ),
        );
    }
    let mut entry: usize = 0;
    let mut failed = false;
    while entry < indices.len() && !failed
        invariant
            entry <= indices@.len(),
            own@.len() == index_set_items(*targets).len(),
            other@.len() == index_set_items(*targets).len(),
            !failed ==> offsets_entered(indices@, remap@, start, entry as int) == Some(
                OffsetWalk { targets: index_set_items(*targets), own: own@, other: other@ },
            ),
            failed ==> offsets_entered(indices@, remap@, start, indices@.len() as int) is None,
        decreases indices@.len() - entry + if failed { 0int } else { 1int },
    {
        let index: i32 = indices[entry];
        if index < 0 || index as usize >= remap.len() {
            proof {
                lemma_offsets_failed(indices@, remap@, start, entry + 1, indices@.len() as int);
            }
            failed = true;
        } else {
            let ghost before = index_set_items(*targets);
            let placed = index_set_insert_full(targets, remap[index as usize]);
            if placed.1 {
                own.push(Some(entry));
                other.push(None);
            } else if placed.0 < own.len() {
                proof {
                    let chosen = before.index_of(remap@[index as int]);
                    assert(before[chosen] == remap@[index as int]);
                }
                own[placed.0] = Some(entry);
            }
            entry += 1;
        }
    }
    if failed {
        return Err(ParseDMXError::IndexOutOfRange(indices_name.to_owned(), state.id));
    }
    Ok(())
}

/// What a delta state comes to: the vertices that it moves, and for each of
/// them the entries of its position offset and of its normal offset.
pub struct FlexModel {
    /// The element of the delta state.
    pub state: usize,
    pub targets: Seq<usize>,
    pub positions: Seq<Option<usize>>,
    pub normals: Seq<Option<usize>>,
}

/// The flex of a delta state: the position offsets are entered first, then
/// the normal offsets.
pub open spec fn flex_of(document: DmxDocument, state: usize, remap: Seq<usize>) -> Result<
    FlexModel,
    DmxFault,
> {
    let element = document.elements@[state as int];
    match offsets_of(
        element,
        "positionsIndices"@,
        "positions"@,
        remap,
        OffsetWalk { targets: Seq::empty(), own: Seq::empty(), other: Seq::empty() },
    ) {
        Err(fault) => Err(fault),
        Ok(moved) => match offsets_of(
            element,
            "normalsIndices"@,
            "normals"@,
            remap,
            OffsetWalk { targets: moved.targets, own: moved.other, other: moved.own },
        ) {
            Err(fault) => Err(fault),
            Ok(turned) => Ok(
                FlexModel {
                    state,
                    targets: turned.targets,
                    positions: turned.other,
                    normals: turned.own,
                },
            ),
        },
    }
}

/// The names of the flexes and the flexes after the first `count` delta
/// states of a shape. Two delta states of one name are a fault. Null
/// references and references out of the document are passed over.
pub open spec fn flexes_loaded(
    document: DmxDocument,
    shape: DmxElement,
    states: Seq<Option<usize>>,
    remap: Seq<usize>,
    count: int,
) -> Result<(Seq<Seq<char>>, Seq<FlexModel>), DmxFault>
    decreases count,
{
    if count <= 0 {
        Ok((Seq::empty(), Seq::empty()))
    } else {
        match flexes_loaded(document, shape, states, remap, count - 1) {
            Err(fault) => Err(fault),
            Ok((names, flexes)) => match states[count - 1] {
                Some(index) => if index < document.elements@.len() {
                    let name = document.elements@[index as int].name@;
                    if names.contains(name) {
                        Err(DmxFault::DuplicateFlexName(name, shape.id))
                    } else {
                        match flex_of(document, index, remap) {
                            Err(fault) => Err(fault),
                            Ok(flex) => Ok((names.push(name), flexes.push(flex))),
                        }
                    }
                } else {
                    Ok((names, flexes))
                },
                None => Ok((names, flexes)),
            },
        }
    }
}

/// Once a delta state is at fault, the fault stays whatever follows.
pub proof fn lemma_flexes_failed(
    document: DmxDocument,
    shape: DmxElement,
    states: Seq<Option<usize>>,
    remap: Seq<usize>,
    failed: int,
    count: int,
)
    requires
        failed <= count,
        flexes_loaded(document, shape, states, remap, failed) is Err,
    ensures
        flexes_loaded(document, shape, states, remap, count) == flexes_loaded(
            document,
            shape,
            states,
            remap,
            failed,
        ),
    decreases count - failed,
{
    if failed < count {
        lemma_flexes_failed(document, shape, states, remap, failed, count - 1);
    }
}

/// The flexes of a shape; none where it has no delta states.
pub open spec fn shape_flexes(document: DmxDocument, shape: DmxElement, remap: Seq<usize>) -> Result<
    (Seq<Seq<char>>, Seq<FlexModel>),
    DmxFault,
> {
    match elements_of(shape, "deltaStates"@) {
        None => Ok((Seq::empty(), Seq::empty())),
        Some(states) => flexes_loaded(document, shape, states, remap, states.len() as int),
    }
}

/// The flexes as they are held, with where their numbers are found.
pub open spec fn flex_models(targets: Seq<IndexSet<usize>>, sources: Seq<DmxFlex>) -> Seq<FlexModel> {
    Seq::new(
        targets.len(),
        |i: int|
            FlexModel {
                state: sources[i].state,
                targets: index_set_items(targets[i]),
                positions: sources[i].positions@,
                normals: sources[i].normals@,
            },
    )
}

/// The flex of one delta state.
fn load_flex(document: &DmxDocument, index: usize, remap: &Vec<usize>) -> (loaded: Result<
    (IndexSet<usize>, DmxFlex),
    ParseDMXError,
>)
    requires
        index < document.elements@.len(),
    ensures
        match loaded {
            Ok(flex) => flex_of(*document, index, remap@) == Ok::<FlexModel, DmxFault>(
                FlexModel {
                    state: flex.1.state,
                    targets: index_set_items(flex.0),
                    positions: flex.1.positions@,
                    normals: flex.1.normals@,
                },
            ),
            Err(error) => flex_of(*document, index, remap@) == Err::<FlexModel, DmxFault>(error@),
        },
{
    let state = &document.elements[index];
    let mut targets = index_set_new();
    let mut positions: Vec<Option<usize>> = Vec::new();
    let mut normals: Vec<Option<usize>> = Vec::new();
    assert(index_set_items(targets) =~= Seq::<usize>::empty());
    load_offsets(
        state,
        "positionsIndices",
        "positions",
        remap,
        &mut targets,
        &mut positions,
        &mut normals,
    )?;
    load_offsets(
        state,
        "normalsIndices",
        "normals",
        remap,
        &mut targets,
        &mut normals,
        &mut positions,
    )?;
    Ok((targets, DmxFlex { state: index, positions, normals }))
}

/// The flexes of a shape: for each delta state the vertices that it moves.
pub(crate) fn load_flexes(document: &DmxDocument, shape: &DmxElement, remap: &Vec<usize>) -> (loaded: Result<
    (NameMap<IndexSet<usize>>, Vec<DmxFlex>),
    ParseDMXError,
>)
    ensures
        match loaded {
            Ok(flexes) => shape_flexes(*document, *shape, remap@) == Ok::<
                (Seq<Seq<char>>, Seq<FlexModel>),
                DmxFault,
            >((flexes.0.names(), flex_models(flexes.0.values(), flexes.1@)))
                && flexes.0.well_formed() && flexes.1@.len() == flexes.0.values().len(),
            Err(error) => shape_flexes(*document, *shape, remap@) == Err::<
                (Seq<Seq<char>>, Seq<FlexModel>),
                DmxFault,
            >(error@),
        },
{
    let mut flexes: NameMap<IndexSet<usize>> = NameMap::new();
    let mut sources: Vec<DmxFlex> = Vec::new();
    assert(flex_models(flexes.values(), sources@) =~= Seq::<FlexModel>::empty());
    let states = match optional_elements(shape, "deltaStates") {
        Some(states) => states,
        None => {
            return Ok((flexes, sources));
        },
    };
    let mut s: usize = 0;
    while s < states.len()
        invariant
            s <= states@.len(),
            elements_of(*shape, "deltaStates"@) == Some(states@),
            flexes.well_formed(),
            sources@.len() == flexes.values().len(),
            flexes_loaded(*document, *shape, states@, remap@, s as int) == Ok::<
                (Seq<Seq<char>>, Seq<FlexModel>),
                DmxFault,
            >((flexes.names(), flex_models(flexes.values(), sources@))),
        decreases states@.len() - s,
    {
        match states[s] {
            Some(index) => {
                if index < document.elements.len() {
                    let state = &document.elements[index];
                    if flexes.get_index_of(state.name.as_str()).is_some() {
                        proof {
                            lemma_flexes_failed(
                                *document,
                                *shape,
                                states@,
                                remap@,
                                s + 1,
                                states@.len() as int,
                            );
                        }
                        return Err(
                            ParseDMXError::DuplicateFlexName(state.name.clone(), shape.id),
                        );
                    }
                    let flex = match load_flex(document, index, remap) {
                        Ok(flex) => flex,
                        Err(error) => {
                            proof {
                                lemma_flexes_failed(
                                    *document,
                                    *shape,
                                    states@,
                                    remap@,
                                    s + 1,
                                    states@.len() as int,
                                );
                            }
                            return Err(error);
                        },
                    };
                    let ghost values_before = flexes.values();
                    let ghost sources_before = sources@;
                    let ghost model = FlexModel {
                        state: flex.1.state,
                        targets: index_set_items(flex.0),
                        positions: flex.1.positions@,
                        normals: flex.1.normals@,
                    };
                    let _ = flexes.insert_full(state.name.clone(), flex.0);
                    sources.push(flex.1);
                    assert(flex_models(flexes.values(), sources@) =~= flex_models(
                        values_before,
                        sources_before,
                    ).push(model));
                }
            },
            None => {},
        }
        s += 1;
    }
    Ok((flexes, sources))
}

} // verus!
