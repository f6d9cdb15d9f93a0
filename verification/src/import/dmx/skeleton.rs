//! The skeleton of a document: the walk of its joints.

use crate::import::{Bone, Part};
use crate::import::dmx::{DmxDocument, DmxFault, ParseDMXError};
use crate::import::dmx::attributes::{
    children_of, no_element_seen, optional_elements, require_transform, transform_of,
};
use crate::names::{inserted_names, inserted_values, NameMap};
use crate::utilities::flags::{lemma_pending_update, pending};
use vstd::prelude::*;

verus! {

/// The stack with the joints from position `from` on put on top, the first
/// of them topmost, each to go under the bone `parent`. Null references
/// are passed over.
pub open spec fn with_joints(
    stack: Seq<(usize, Option<usize>)>,
    joints: Seq<Option<usize>>,
    parent: Option<usize>,
    from: int,
) -> Seq<(usize, Option<usize>)>
    decreases joints.len() - from,
{
    if from < 0 || from >= joints.len() {
        stack
    } else {
        let below = with_joints(stack, joints, parent, from + 1);
        match joints[from] {
            Some(joint) => below.push((joint, parent)),
            None => below,
        }
    }
}

/// A skeleton while it is walked.
pub struct JointWalk {
    /// Which elements have been entered as joints.
    pub seen: Seq<bool>,
    /// The names of the bones so far.
    pub names: Seq<Seq<char>>,
    /// The bones so far.
    pub bones: Seq<Bone>,
    /// For each bone the element that holds its position and orientation.
    pub transforms: Seq<usize>,
}

/// The walk before the first joint.
pub open spec fn walk_start(document: DmxDocument) -> JointWalk {
    JointWalk {
        seen: Seq::new(document.elements@.len(), |i: int| false),
        names: Seq::empty(),
        bones: Seq::empty(),
        transforms: Seq::empty(),
    }
}

/// The walk once a joint has been entered under its name: as a new bone at
/// the end, or in place of the bone that has the name.
pub open spec fn joint_entered(
    walk: JointWalk,
    joint: int,
    name: Seq<char>,
    parent: Option<usize>,
    transform: usize,
) -> JointWalk {
    JointWalk {
        seen: walk.seen.update(joint, true),
        names: inserted_names(walk.names, name),
        bones: inserted_values(walk.names, walk.bones, name, Bone { parent }),
        transforms: inserted_values(walk.names, walk.transforms, name, transform),
    }
}

/// The skeleton that the joints on a stack come to, depth first: the
/// topmost joint is entered under its parent, and the joints below it go
/// on top of the stack, the first of them topmost, with the place of the
/// joint as their parent. A reference out of the document is passed over.
/// A joint that was entered before, or whose name is one of `taken`, is a
/// fault, and so is a joint without a transform.
pub open spec fn walk_joints(
    document: DmxDocument,
    taken: Seq<Seq<char>>,
    stack: Seq<(usize, Option<usize>)>,
    walk: JointWalk,
) -> Result<JointWalk, DmxFault>
    decreases pending(walk.seen, walk.seen.len() as int), stack.len(),
        via walk_joints_decreases
{
    if stack.len() == 0 {
        Ok(walk)
    } else {
        let joint = stack.last().0;
        let parent = stack.last().1;
        let rest = stack.drop_last();
        if joint >= document.elements@.len() || joint >= walk.seen.len() {
            walk_joints(document, taken, rest, walk)
        } else {
            let element = document.elements@[joint as int];
            if walk.seen[joint as int] || taken.contains(element.name@) {
                Err(DmxFault::DuplicateJointName(element.name@, element.id))
            } else {
                match transform_of(document, element) {
                    Err(fault) => Err(fault),
                    Ok(transform) => walk_joints(
                        document,
                        taken,
                        with_joints(rest, children_of(element), Some(walk.names.len() as usize), 0),
                        joint_entered(walk, joint as int, element.name@, parent, transform),
                    ),
                }
            }
        }
    }
}

#[via_fn]
proof fn walk_joints_decreases(
    document: DmxDocument,
    taken: Seq<Seq<char>>,
    stack: Seq<(usize, Option<usize>)>,
    walk: JointWalk,
) {
    if stack.len() != 0 {
        let joint = stack.last().0;
        if !(joint >= document.elements@.len() || joint >= walk.seen.len()) {
            if !walk.seen[joint as int] {
                lemma_pending_update(walk.seen, joint as int, walk.seen.len() as int);
            }
        }
    }
}

/// Walks the joints below the skeleton, depth first, and enters each as a
/// bone under the bone of the joint above it.
pub(crate) fn load_joints(document: &DmxDocument, roots: &Vec<Option<usize>>, taken: &NameMap<Part>) -> (loaded:
    Result<(NameMap<Bone>, Vec<usize>), ParseDMXError>)
    ensures
        match loaded {
            Ok(skeleton) => walk_joints(
                *document,
                taken.names(),
                with_joints(Seq::empty(), roots@, None, 0),
                walk_start(*document),
            ) matches Ok(walk) && walk.names == skeleton.0.names() && walk.bones
                == skeleton.0.values() && walk.transforms == skeleton.1@,
            Err(error) => walk_joints(
                *document,
                taken.names(),
                with_joints(Seq::empty(), roots@, None, 0),
                walk_start(*document),
            ) == Err::<JointWalk, DmxFault>(error@),
        },
        loaded matches Ok(skeleton) ==> skeleton.0.well_formed() && skeleton.1@.len()
            == skeleton.0.names().len(),
{
    let mut skeleton: NameMap<Bone> = NameMap::new();
    let mut bone_transforms: Vec<usize> = Vec::new();
    let mut seen = no_element_seen(document);
    let mut stack: Vec<(usize, Option<usize>)> = Vec::new();
    let mut r: usize = roots.len();
    while r > 0
        invariant
            r <= roots@.len(),
            stack@ == with_joints(Seq::empty(), roots@, None, r as int),
        decreases r,
    {
        r -= 1;
        match roots[r] {
            Some(joint) => {
                stack.push((joint, None));
            },
            None => {},
        }
    }
    let ghost whole = walk_joints(*document, taken.names(), stack@, walk_start(*document));
    assert(seen@ =~= walk_start(*document).seen);
    while stack.len() > 0
        invariant
            seen@.len() == document.elements@.len(),
            skeleton.well_formed(),
            bone_transforms@.len() == skeleton.names().len(),
            whole == walk_joints(
                *document,
                taken.names(),
                with_joints(Seq::empty(), roots@, None, 0),
                walk_start(*document),
            ),
            whole == walk_joints(
                *document,
                taken.names(),
                stack@,
                JointWalk {
                    seen: seen@,
                    names: skeleton.names(),
                    bones: skeleton.values(),
                    transforms: bone_transforms@,
                },
            ),
        decreases pending(seen@, seen@.len() as int), stack@.len(),
    {
        let ghost walk = JointWalk {
            seen: seen@,
            names: skeleton.names(),
            bones: skeleton.values(),
            transforms: bone_transforms@,
        };
        let ghost held = stack@;
        let (joint, parent) = match stack.pop() {
            Some(entry) => entry,
            None => vstd::pervasive::unreached(),
        };
        assert(stack@ == held.drop_last());
        if joint < document.elements.len() {
            let element = &document.elements[joint];
            if seen[joint] || taken.get_index_of(element.name.as_str()).is_some() {
                return Err(ParseDMXError::DuplicateJointName(element.name.clone(), element.id));
            }
            proof {
                lemma_pending_update(seen@, joint as int, seen@.len() as int);
            }
            seen[joint] = true;
            let transform = require_transform(document, element)?;
            let joint_index: usize = skeleton.len();
            match skeleton.insert(element.name.clone(), Bone { parent }) {
                Some(_) => {
                    match skeleton.get_index_of(element.name.as_str()) {
                        Some(known) => {
                            proof {
                                let chosen = walk.names.index_of(element.name@);
                                assert(walk.names[chosen] == element.name@);
                            }
                            bone_transforms[known] = transform;
                        },
                        None => {},
                    }
                },
                None => {
                    bone_transforms.push(transform);
                },
            }
            assert(bone_transforms@ == inserted_values(
                walk.names,
                walk.transforms,
                element.name@,
                transform,
            ));
            let ghost rest = stack@;
            match optional_elements(element, "children") {
                Some(children) => {
                    let mut c: usize = children.len();
                    while c > 0
                        invariant
                            c <= children@.len(),
                            stack@ == with_joints(rest, children@, Some(joint_index), c as int),
                        decreases c,
                    {
                        c -= 1;
                        match children[c] {
                            Some(child) => {
                                stack.push((child, Some(joint_index)));
                            },
                            None => {},
                        }
                    }
                },
                None => {},
            }
            assert(stack@ == with_joints(rest, children_of(*element), Some(joint_index), 0));
        }
    }
    Ok((skeleton, bone_transforms))
}

} // verus!
