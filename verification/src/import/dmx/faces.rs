//! The faces of a shape, material by material.

use crate::import::dmx::{DmxDocument, DmxElement, DmxFault, ParseDMXError};
use crate::import::dmx::attributes::{
    element_of, elements_of, integers_of, missing_fault, require_element, require_elements,
    require_integers, require_text, text_of,
};
use crate::names::{inserted_names, inserted_values, NameMap};
use vstd::prelude::*;

verus! {

/// What can be wrong with the indices of a face set.
#[derive(Clone, Copy, Debug, PartialEq, Eq, Structural)]
pub enum FaceFault {
    /// A face has fewer than three vertices.
    Incomplete,
    /// An index is not one of the entries of the bind state.
    OutOfRange,
}

/// The faces that the first `count` indices of a face set give, and the
/// vertices of the face that is not closed yet. The index -1 closes a face;
/// a face is listed with its vertices in reverse.
pub open spec fn faces_of(indexes: Seq<i32>, remap: Seq<usize>, count: int) -> Result<
    (Seq<Seq<usize>>, Seq<usize>),
    FaceFault,
>
    decreases count,
{
    if count <= 0 {
        Ok((Seq::empty(), Seq::empty()))
    } else {
        match faces_of(indexes, remap, count - 1) {
            Err(fault) => Err(fault),
            Ok((faces, open)) => {
                let index = indexes[count - 1];
                if index == -1 {
                    if open.len() < 3 {
                        Err(FaceFault::Incomplete)
                    } else {
                        Ok((faces.push(open.reverse()), Seq::empty()))
                    }
                } else if 0 <= index < remap.len() {
                    Ok((faces, open.push(remap[index as int])))
                } else {
                    Err(FaceFault::OutOfRange)
                }
            },
        }
    }
}

/// Once an index is at fault, the fault stays whatever follows.
pub proof fn lemma_faces_failed(indexes: Seq<i32>, remap: Seq<usize>, failed: int, count: int)
    requires
        failed <= count,
        faces_of(indexes, remap, failed) is Err,
    ensures
        faces_of(indexes, remap, count) == faces_of(indexes, remap, failed),
    decreases count - failed,
{
    if failed < count {
        lemma_faces_failed(indexes, remap, failed, count - 1);
    }
}

/// The views of faces.
pub open spec fn face_views(faces: Seq<Vec<usize>>) -> Seq<Seq<usize>> {
    Seq::new(faces.len(), |f: int| faces[f]@)
}

/// Cuts the indices of a face set into faces. The index -1 closes a face;
/// the other indices are entries of the bind state and stand for their
/// unique vertices. The vertices of a face come out in reverse. Indices
/// behind the last -1 are left out.
pub fn split_faces(indexes: &Vec<i32>, remap: &Vec<usize>) -> (split: Result<
    Vec<Vec<usize>>,
    FaceFault,
>)
    ensures
        match split {
            Ok(faces) => faces_of(indexes@, remap@, indexes@.len() as int) matches Ok(found)
                && found.0 == face_views(faces@),
            Err(fault) => faces_of(indexes@, remap@, indexes@.len() as int) == Err::<
                (Seq<Seq<usize>>, Seq<usize>),
                _,
            >(fault),
        },
{
    let mut faces: Vec<Vec<usize>> = Vec::new();
    let mut open: Vec<usize> = Vec::new();
    let mut i: usize = 0;
    assert(face_views(faces@) =~= Seq::<Seq<usize>>::empty());
    while i < indexes.len()
        invariant
            i <= indexes@.len(),
            faces_of(indexes@, remap@, i as int) == Ok::<_, FaceFault>((face_views(faces@), open@)),
        decreases indexes@.len() - i,
    {
        let index: i32 = indexes[i];
        if index == -1 {
            if open.len() < 3 {
                proof {
                    lemma_faces_failed(indexes@, remap@, i + 1, indexes@.len() as int);
                }
                return Err(FaceFault::Incomplete);
            }
            let mut face: Vec<usize> = Vec::new();
            let mut k: usize = open.len();
            while k > 0
                invariant
                    k <= open@.len(),
                    face@.len() == open@.len() - k,
                    forall|j: int|
                        0 <= j < face@.len() ==> (#[trigger] face@[j]) == open@[open@.len() - 1 - j],
                decreases k,
            {
                k -= 1;
                face.push(open[k]);
            }
            proof {
                assert(face@ =~= open@.reverse());
            }
            let ghost before = face_views(faces@);
            faces.push(face);
            open = Vec::new();
            proof {
                assert(face_views(faces@) =~= before.push(faces@[faces@.len() - 1]@));
            }
        } else if index >= 0 && (index as usize) < remap.len() {
            open.push(remap[index as usize]);
        } else {
            proof {
                lemma_faces_failed(indexes@, remap@, i + 1, indexes@.len() as int);
            }
            return Err(FaceFault::OutOfRange);
        }
        i += 1;
    }
    Ok(faces)
}

/// Every face that comes out of a face set has three vertices or more, each
/// one of the unique vertices.
pub proof fn lemma_faces_sound(indexes: Seq<i32>, remap: Seq<usize>, count: int, vertices: int)
    requires
        0 <= count <= indexes.len(),
        forall|i: int| 0 <= i < remap.len() ==> (#[trigger] remap[i]) < vertices,
        faces_of(indexes, remap, count) is Ok,
    ensures
        forall|f: int|
            0 <= f < faces_of(indexes, remap, count)->Ok_0.0.len()
                ==> crate::import::face_sound(
                #[trigger] faces_of(indexes, remap, count)->Ok_0.0[f],
                vertices,
            ),
        forall|c: int|
            0 <= c < faces_of(indexes, remap, count)->Ok_0.1.len() ==> (#[trigger] faces_of(
                indexes,
                remap,
                count,
            )->Ok_0.1[c]) < vertices,
    decreases count,
{
    if count > 0 {
        lemma_faces_sound(indexes, remap, count - 1, vertices);
        let before = faces_of(indexes, remap, count - 1)->Ok_0;
        let after = faces_of(indexes, remap, count)->Ok_0;
        assert forall|f: int| 0 <= f < after.0.len() implies crate::import::face_sound(
            #[trigger] after.0[f],
            vertices,
        ) by {
            if f < before.0.len() {
                assert(after.0[f] == before.0[f]);
            } else {
                let face = before.1.reverse();
                assert(after.0[f] == face);
                assert forall|c: int| 0 <= c < face.len() implies (#[trigger] face[c])
                    < vertices by {
                    assert(face[c] == before.1[before.1.len() - 1 - c]);
                }
            }
        }
        assert forall|c: int| 0 <= c < after.1.len() implies (#[trigger] after.1[c])
            < vertices by {
            if c < before.1.len() {
                assert(after.1[c] == before.1[c]);
            }
        }
    }
}

/// The faces of each material, as sequences.
pub open spec fn faces_view(values: Seq<Vec<Vec<usize>>>) -> Seq<Seq<Seq<usize>>> {
    Seq::new(values.len(), |m: int| face_views(values[m]@))
}

/// The material of a face set and its faces.
pub open spec fn face_set_of(document: DmxDocument, set: DmxElement, remap: Seq<usize>) -> Result<
    (Seq<char>, Seq<Seq<usize>>),
    DmxFault,
> {
    match integers_of(set, "faces"@) {
        None => Err(missing_fault(set, "faces"@, "IntegerArray"@)),
        Some(indexes) => match element_of(document, set, "material"@) {
            None => Err(missing_fault(set, "material"@, "Element"@)),
            Some(material) => match text_of(document.elements@[material as int], "mtlName"@) {
                None => Err(
                    missing_fault(document.elements@[material as int], "mtlName"@, "String"@),
                ),
                Some(name) => match faces_of(indexes, remap, indexes.len() as int) {
                    Ok(found) => Ok((name, found.0)),
                    Err(FaceFault::Incomplete) => Err(DmxFault::IncompleteFace(set.id)),
                    Err(FaceFault::OutOfRange) => Err(
                        DmxFault::IndexOutOfRange("faces"@, set.id),
                    ),
                },
            },
        },
    }
}

/// The materials and their faces after the first `count` face sets. A
/// later face set of a material takes the place of an earlier one. Null
/// references and references out of the document are passed over.
pub open spec fn faces_loaded(
    document: DmxDocument,
    sets: Seq<Option<usize>>,
    remap: Seq<usize>,
    count: int,
) -> Result<(Seq<Seq<char>>, Seq<Seq<Seq<usize>>>), DmxFault>
    decreases count,
{
    if count <= 0 {
        Ok((Seq::empty(), Seq::empty()))
    } else {
        match faces_loaded(document, sets, remap, count - 1) {
            Err(fault) => Err(fault),
            Ok((names, values)) => match sets[count - 1] {
                Some(index) => if index < document.elements@.len() {
                    match face_set_of(document, document.elements@[index as int], remap) {
                        Err(fault) => Err(fault),
                        Ok((name, faces)) => Ok(
                            (
                                inserted_names(names, name),
                                inserted_values(names, values, name, faces),
                            ),
                        ),
                    }
                } else {
                    Ok((names, values))
                },
                None => Ok((names, values)),
            },
        }
    }
}

/// Once a face set is at fault, the fault stays whatever follows.
pub proof fn lemma_faces_loaded_failed(
    document: DmxDocument,
    sets: Seq<Option<usize>>,
    remap: Seq<usize>,
    failed: int,
    count: int,
)
    requires
        failed <= count,
        faces_loaded(document, sets, remap, failed) is Err,
    ensures
        faces_loaded(document, sets, remap, count) == faces_loaded(document, sets, remap, failed),
    decreases count - failed,
{
    if failed < count {
        lemma_faces_loaded_failed(document, sets, remap, failed, count - 1);
    }
}

/// The faces of a shape, material by material.
pub open spec fn shape_faces(document: DmxDocument, shape: DmxElement, remap: Seq<usize>) -> Result<
    (Seq<Seq<char>>, Seq<Seq<Seq<usize>>>),
    DmxFault,
> {
    match elements_of(shape, "faceSets"@) {
        None => Err(missing_fault(shape, "faceSets"@, "ElementArray"@)),
        Some(sets) => faces_loaded(document, sets, remap, sets.len() as int),
    }
}

/// The material of a face set and its faces.
fn load_face_set<'a>(
    document: &'a DmxDocument,
    face_set: &DmxElement,
    remap: &Vec<usize>,
    vertices: usize,
) -> (loaded: Result<(&'a String, Vec<Vec<usize>>), ParseDMXError>)
    requires
        forall|i: int| 0 <= i < remap@.len() ==> (#[trigger] remap@[i]) < vertices,
    ensures
        match loaded {
            Ok(found) => face_set_of(*document, *face_set, remap@) == Ok::<
                (Seq<char>, Seq<Seq<usize>>),
                DmxFault,
            >((found.0@, face_views(found.1@))) && crate::import::faces_sound(
                found.1@,
                vertices as int,
            ),
            Err(error) => face_set_of(*document, *face_set, remap@) == Err::<
                (Seq<char>, Seq<Seq<usize>>),
                DmxFault,
            >(error@),
        },
{
    let indexes = require_integers(face_set, "faces")?;
    let material = require_element(document, face_set, "material")?;
    let material_name = require_text(&document.elements[material], "mtlName")?;
    let split = match split_faces(indexes, remap) {
        Ok(split) => split,
        Err(FaceFault::Incomplete) => {
            return Err(ParseDMXError::IncompleteFace(face_set.id));
        },
        Err(FaceFault::OutOfRange) => {
            return Err(ParseDMXError::IndexOutOfRange("faces".to_owned(), face_set.id));
        },
    };
    proof {
        lemma_faces_sound(indexes@, remap@, indexes@.len() as int, vertices as int);
        assert forall|f: int| 0 <= f < split@.len() implies crate::import::face_sound(
            (#[trigger] split@[f])@,
            vertices as int,
        ) by {
            assert(face_views(split@)[f] == split@[f]@);
        }
    }
    Ok((material_name, split))
}

/// The faces of a shape, material by material.
pub(crate) fn load_faces(
    document: &DmxDocument,
    shape: &DmxElement,
    remap: &Vec<usize>,
    vertices: usize,
) -> (loaded: Result<NameMap<Vec<Vec<usize>>>, ParseDMXError>)
    requires
        forall|i: int| 0 <= i < remap@.len() ==> (#[trigger] remap@[i]) < vertices,
    ensures
        match loaded {
            Ok(faces) => shape_faces(*document, *shape, remap@) == Ok::<
                (Seq<Seq<char>>, Seq<Seq<Seq<usize>>>),
                DmxFault,
            >((faces.names(), faces_view(faces.values()))),
            Err(error) => shape_faces(*document, *shape, remap@) == Err::<
                (Seq<Seq<char>>, Seq<Seq<Seq<usize>>>),
                DmxFault,
            >(error@),
        },
        loaded matches Ok(faces) ==> faces.well_formed() && forall|m: int|
            0 <= m < faces.values().len() ==> crate::import::faces_sound(
                (#[trigger] faces.values()[m])@,
                vertices as int,
            ),
{
    let mut faces: NameMap<Vec<Vec<usize>>> = NameMap::new();
    let face_sets = require_elements(shape, "faceSets")?;
    assert(faces_view(faces.values()) =~= Seq::<Seq<Seq<usize>>>::empty());
    let mut s: usize = 0;
    while s < face_sets.len()
        invariant
            s <= face_sets@.len(),
            elements_of(*shape, "faceSets"@) == Some(face_sets@),
            forall|i: int| 0 <= i < remap@.len() ==> (#[trigger] remap@[i]) < vertices,
            faces.well_formed(),
            faces_loaded(*document, face_sets@, remap@, s as int) == Ok::<
                (Seq<Seq<char>>, Seq<Seq<Seq<usize>>>),
                DmxFault,
            >((faces.names(), faces_view(faces.values()))),
            forall|m: int|
                0 <= m < faces.values().len() ==> crate::import::faces_sound(
                    (#[trigger] faces.values()[m])@,
                    vertices as int,
                ),
        decreases face_sets@.len() - s,
    {
        match face_sets[s] {
            Some(index) => {
                if index < document.elements.len() {
                    let face_set = &document.elements[index];
                    let found = match load_face_set(document, face_set, remap, vertices) {
                        Ok(found) => found,
                        Err(error) => {
                            proof {
                                lemma_faces_loaded_failed(
                                    *document,
                                    face_sets@,
                                    remap@,
                                    s + 1,
                                    face_sets@.len() as int,
                                );
                            }
                            return Err(error);
                        },
                    };
                    let ghost names_before = faces.names();
                    let ghost values_before = faces.values();
                    let ghost added = face_views(found.1@);
                    let _ = faces.insert(found.0.clone(), found.1);
                    proof {
                        let name = found.0@;
                        assert forall|m: int| 0 <= m < faces.values().len() implies crate::import::faces_sound(
                            (#[trigger] faces.values()[m])@,
                            vertices as int,
                        ) by {
                            if names_before.contains(name) {
                                if m != names_before.index_of(name) {
                                    assert(faces.values()[m] == values_before[m]);
                                }
                            } else if m < values_before.len() {
                                assert(faces.values()[m] == values_before[m]);
                            }
                        }
                        assert(faces_view(faces.values()) =~= inserted_values(
                            names_before,
                            faces_view(values_before),
                            name,
                            added,
                        ));
                    }
                }
            },
            None => {},
        }
        s += 1;
    }
    Ok(faces)
}

} // verus!
