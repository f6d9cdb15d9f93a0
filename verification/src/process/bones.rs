//! The skeleton of a model: the union of the skeletons of its files, without
//! the bones that nothing uses.

use crate::import::manager::{FileManager, FileStatus};
use crate::import::{parent_precedes, FileData, Part};
use crate::input::{Animation, BodyGroup, Model, SourceInput};
use crate::names::{is_name_order, sort_by_name, NameMap};
use crate::ordered::{index_set_get_index_of, index_set_items, name_set_get_index_of, name_set_items};
use crate::process::{vertex_flags, Bone, BoneData, BoneFlags, SourceBone, MAX_BONES};
use indexmap::IndexSet;
use std::sync::Arc;
use vstd::prelude::*;

verus! {

/// Why a skeleton could not be built.
pub enum ProcessingBoneError {
    /// The model (first) of the group (second) is not blank and names no file.
    NoModelFileSource(String, String),
    /// The animation names no file.
    NoAnimationFileSource(String),
    /// The file at this path is not loaded.
    FileSourceNotLoaded(String),
    /// More than 128 bones are left after the collapse.
    TooManyBones,
}

/// Whether every bone has no parent, or one that comes before it.
pub open spec fn parents_precede(bones: Seq<SourceBone>) -> bool {
    forall|i: int|
        0 <= i < bones.len() ==> ((#[trigger] bones[i]).parent matches Some(parent) ==> parent < i)
}

/// Whether a bone is used, and so survives the collapse.
pub open spec fn is_used(bone: SourceBone) -> bool {
    bone.flags.bits != 0
}

/// How many of the bones before position `index` are used.
pub open spec fn used_before(bones: Seq<SourceBone>, index: int) -> nat
    decreases index,
{
    if index <= 0 {
        0
    } else {
        used_before(bones, index - 1) + if is_used(bones[index - 1]) {
            1nat
        } else {
            0nat
        }
    }
}

/// The nearest used bone on the way from bone `index` to its root, the bone
/// itself included, as the position that it has after the collapse; `None`
/// where no bone on that way is used.
pub open spec fn stand_in(bones: Seq<SourceBone>, index: int) -> Option<usize>
    decreases index,
{
    if index < 0 || index >= bones.len() {
        None
    } else if is_used(bones[index]) {
        Some(used_before(bones, index) as usize)
    } else {
        match bones[index].parent {
            Some(parent) => if parent < index {
                stand_in(bones, parent as int)
            } else {
                None
            },
            None => None,
        }
    }
}

/// The parent that bone `index` has after the collapse: the nearest used
/// bone above it.
pub open spec fn surviving_parent(bones: Seq<SourceBone>, index: int) -> Option<usize> {
    match bones[index].parent {
        Some(parent) => if parent < index {
            stand_in(bones, parent as int)
        } else {
            None
        },
        None => None,
    }
}

/// What the collapse leaves of the first `count` bones: the used ones, in
/// order, each under its nearest used ancestor.
pub open spec fn collapsed(bones: Seq<SourceBone>, count: int) -> Seq<Bone>
    decreases count,
{
    if count <= 0 {
        Seq::empty()
    } else if is_used(bones[count - 1]) {
        collapsed(bones, count - 1).push(
            Bone {
                parent: surviving_parent(bones, count - 1),
                flags: bones[count - 1].flags,
                source: (count - 1) as usize,
            },
        )
    } else {
        collapsed(bones, count - 1)
    }
}

/// The names of the bones that the collapse leaves of the first `count`.
pub open spec fn collapsed_names(names: Seq<Seq<char>>, bones: Seq<SourceBone>, count: int) -> Seq<
    Seq<char>,
>
    decreases count,
{
    if count <= 0 {
        Seq::empty()
    } else if is_used(bones[count - 1]) {
        collapsed_names(names, bones, count - 1).push(names[count - 1])
    } else {
        collapsed_names(names, bones, count - 1)
    }
}

/// The nearest used bone strictly above bone `index`, as a position before
/// the collapse; `None` where there is none.
pub open spec fn used_ancestor(bones: Seq<SourceBone>, index: int) -> Option<int>
    decreases index,
{
    if index < 0 || index >= bones.len() {
        None
    } else {
        match bones[index].parent {
            Some(parent) => if parent < index {
                if is_used(bones[parent as int]) {
                    Some(parent as int)
                } else {
                    used_ancestor(bones, parent as int)
                }
            } else {
                None
            },
            None => None,
        }
    }
}

/// The count of used bones grows with the position, by one at a used bone.
pub proof fn lemma_used_before_grows(bones: Seq<SourceBone>, low: int, high: int)
    requires
        0 <= low <= high,
    ensures
        used_before(bones, low) <= used_before(bones, high),
        used_before(bones, high) <= used_before(bones, low) + (high - low),
        low < high && is_used(bones[low]) ==> used_before(bones, low) < used_before(bones, high),
    decreases high - low,
{
    if low < high {
        lemma_used_before_grows(bones, low, high - 1);
    }
}

/// Whether the used bone `i` stands where it should after the collapse of
/// the first `count` bones: at the position that counts the used bones before
/// it, with its name, its flags, and its nearest used ancestor for a parent.
pub open spec fn survives(names: Seq<Seq<char>>, bones: Seq<SourceBone>, count: int, i: int) -> bool {
    let k = used_before(bones, i) as int;
    &&& k < collapsed(bones, count).len()
    &&& collapsed(bones, count)[k].source == i
    &&& collapsed(bones, count)[k].flags == bones[i].flags
    &&& collapsed(bones, count)[k].parent == surviving_parent(bones, i)
    &&& collapsed_names(names, bones, count)[k] == names[i]
}

/// Whether the bone at position `k` after the collapse of the first `count`
/// bones is a used bone, at the position that counts the used bones before
/// it.
pub open spec fn was_used(bones: Seq<SourceBone>, count: int, k: int) -> bool {
    let i = collapsed(bones, count)[k].source as int;
    &&& 0 <= i < count
    &&& is_used(bones[i])
    &&& used_before(bones, i) == k
}

/// The collapse keeps exactly the used bones: every used bone survives, and
/// every bone that is left was a used one.
pub proof fn lemma_collapse_keeps_used(names: Seq<Seq<char>>, bones: Seq<SourceBone>, count: int)
    requires
        0 <= count <= bones.len() <= usize::MAX,
        names.len() == bones.len(),
    ensures
        collapsed(bones, count).len() == used_before(bones, count),
        collapsed_names(names, bones, count).len() == used_before(bones, count),
        forall|i: int|
            0 <= i < count && is_used(bones[i]) ==> #[trigger] survives(names, bones, count, i),
        forall|k: int|
            0 <= k < collapsed(bones, count).len() ==> #[trigger] was_used(bones, count, k),
    decreases count,
{
    if count > 0 {
        lemma_collapse_keeps_used(names, bones, count - 1);
        let before = collapsed(bones, count - 1);
        let after = collapsed(bones, count);
        assert forall|i: int| 0 <= i < count && is_used(bones[i]) implies #[trigger] survives(
            names,
            bones,
            count,
            i,
        ) by {
            let k = used_before(bones, i) as int;
            let names_before = collapsed_names(names, bones, count - 1);
            let names_after = collapsed_names(names, bones, count);
            if i < count - 1 {
                assert(survives(names, bones, count - 1, i));
                assert(k < before.len());
                assert(after[k] == before[k]);
                assert(names_after[k] == names_before[k]);
            } else {
                assert(k == before.len());
                assert(after == before.push(
                    Bone {
                        parent: surviving_parent(bones, count - 1),
                        flags: bones[count - 1].flags,
                        source: (count - 1) as usize,
                    },
                ));
                assert(names_after == names_before.push(names[count - 1]));
            }
        }
        assert forall|k: int| 0 <= k < after.len() implies #[trigger] was_used(bones, count, k) by {
            if k < before.len() {
                assert(was_used(bones, count - 1, k));
                assert(after[k] == before[k]);
            } else {
                assert(is_used(bones[count - 1]));
                assert(k == before.len());
                assert(after[k].source == count - 1);
            }
        }
    }
}

/// The bone that stands in for a used bone is the bone itself. The one that
/// stands in for an unused bone is its nearest used ancestor; where it has
/// none, nothing stands in for it.
pub proof fn lemma_stand_in(bones: Seq<SourceBone>, index: int)
    requires
        0 <= index < bones.len(),
    ensures
        is_used(bones[index]) ==> stand_in(bones, index) == Some(
            used_before(bones, index) as usize,
        ),
        !is_used(bones[index]) ==> match used_ancestor(bones, index) {
            Some(a) => 0 <= a < index && is_used(bones[a]) && stand_in(bones, index) == Some(
                used_before(bones, a) as usize,
            ),
            None => stand_in(bones, index).is_none(),
        },
    decreases index,
{
    if !is_used(bones[index]) {
        match bones[index].parent {
            Some(parent) => {
                if parent < index {
                    lemma_stand_in(bones, parent as int);
                }
            },
            None => {},
        }
    }
}

/// The collapse preserves reachability. Every used bone survives under its
/// name, and its parent after the collapse is its nearest used ancestor from
/// before, or none where it has no used ancestor: so the used bones on its
/// way to the root stay on that way, in their order, and the parent still
/// comes before the child.
pub proof fn lemma_collapse_preserves_reachability(
    names: Seq<Seq<char>>,
    bones: Seq<SourceBone>,
    index: int,
)
    requires
        names.len() == bones.len(),
        0 <= index < bones.len() <= usize::MAX,
        is_used(bones[index]),
    ensures
        used_before(bones, index) < collapsed(bones, bones.len() as int).len(),
        collapsed_names(names, bones, bones.len() as int)[used_before(bones, index) as int]
            == names[index],
        match used_ancestor(bones, index) {
            Some(a) => 0 <= a < index && is_used(bones[a]) && collapsed(
                bones,
                bones.len() as int,
            )[used_before(bones, index) as int].parent == Some(used_before(bones, a) as usize)
                && used_before(bones, a) < used_before(bones, index)
                && collapsed_names(names, bones, bones.len() as int)[used_before(bones, a) as int]
                == names[a],
            None => collapsed(bones, bones.len() as int)[used_before(bones, index) as int].parent
                is None,
        },
{
    let count = bones.len() as int;
    lemma_collapse_keeps_used(names, bones, count);
    assert(survives(names, bones, count, index));
    match bones[index].parent {
        Some(parent) => {
            if parent < index {
                lemma_stand_in(bones, parent as int);
                match used_ancestor(bones, index) {
                    Some(a) => {
                        lemma_used_before_grows(bones, a, index);
                        assert(survives(names, bones, count, a));
                    },
                    None => {},
                }
            }
        },
        None => {},
    }
}

/// After the collapse a parent still comes before its child.
pub proof fn lemma_collapsed_parents_precede(bones: Seq<SourceBone>, k: int)
    requires
        bones.len() <= usize::MAX,
        0 <= k < collapsed(bones, bones.len() as int).len(),
    ensures
        collapsed(bones, bones.len() as int)[k].parent matches Some(parent) ==> parent < k,
{
    let names = Seq::new(bones.len(), |i: int| Seq::<char>::empty());
    let count = bones.len() as int;
    lemma_collapse_keeps_used(names, bones, count);
    assert(was_used(bones, count, k));
    let index = collapsed(bones, count)[k].source as int;
    assert(survives(names, bones, count, index));
    match bones[index].parent {
        Some(parent) => {
            if parent < index {
                lemma_stand_in(bones, parent as int);
                lemma_used_before_grows(bones, parent as int, index);
                if !is_used(bones[parent as int]) {
                    match used_ancestor(bones, parent as int) {
                        Some(a) => {
                            lemma_used_before_grows(bones, a, parent as int);
                        },
                        None => {},
                    }
                }
            }
        },
        None => {},
    }
}

/// Nothing but used bones is left after the collapse: an unused bone is
/// absent.
pub proof fn lemma_collapse_drops_unused(bones: Seq<SourceBone>, k: int)
    requires
        0 <= k < collapsed(bones, bones.len() as int).len(),
        bones.len() <= usize::MAX,
    ensures
        0 <= collapsed(bones, bones.len() as int)[k].source < bones.len(),
        is_used(bones[collapsed(bones, bones.len() as int)[k].source as int]),
{
    let names = Seq::new(bones.len(), |i: int| Seq::<char>::empty());
    lemma_collapse_keeps_used(names, bones, bones.len() as int);
    assert(was_used(bones, bones.len() as int, k));
}

/// Leaves out the bones that nothing uses. A bone that is left takes its
/// nearest used ancestor for a parent.
pub fn collapse_unused_bones(source: &NameMap<SourceBone>) -> (processed: NameMap<Bone>)
    ensures
        processed.well_formed(),
        processed.values() == collapsed(source.values(), source.values().len() as int),
        processed.names() == collapsed_names(
            source.names(),
            source.values(),
            source.values().len() as int,
        ),
{
    let count: usize = source.len();
    let ghost names = source.names();
    let ghost bones = source.values();
    let mut processed: NameMap<Bone> = NameMap::new();
    // For each bone so far, the position after the collapse of the bone that
    // stands in for it.
    let mut targets: Vec<Option<usize>> = Vec::new();
    let mut i: usize = 0;
    while i < count
        invariant
            i <= count,
            source.well_formed(),
            names == source.names(),
            bones == source.values(),
            count == bones.len(),
            processed.well_formed(),
            processed.values() == collapsed(bones, i as int),
            processed.names() == collapsed_names(names, bones, i as int),
            targets@.len() == i,
            forall|j: int| 0 <= j < i ==> (#[trigger] targets@[j]) == stand_in(bones, j),
        decreases count - i,
    {
        let bone = *source.value_at(i);
        let parent: Option<usize> = match bone.parent {
            Some(above) => if above < i {
                targets[above]
            } else {
                None
            },
            None => None,
        };
        proof {
            lemma_collapse_keeps_used(names, bones, i as int);
            lemma_used_before_grows(bones, 0, i as int);
        }
        if bone.flags.is_empty() {
            targets.push(parent);
        } else {
            let place: usize = processed.len();
            proof {
                // The names that are left are names of earlier bones, so the
                // name of this bone is not among them.
                let kept = collapsed_names(names, bones, i as int);
                if kept.contains(names[i as int]) {
                    let k = choose|k: int| 0 <= k < kept.len() && kept[k] == names[i as int];
                    assert(was_used(bones, i as int, k));
                    let earlier = collapsed(bones, i as int)[k].source as int;
                    assert(survives(names, bones, i as int, earlier));
                    assert(names[earlier] == names[i as int]);
                }
            }
            let name: String = source.name_at(i).clone();
            let _ = processed.insert_full(name, Bone { parent, flags: bone.flags, source: i });
            targets.push(Some(place));
        }
        i += 1;
    }
    processed
}

/// The skeleton without the bone at `index`: the bones that it was the
/// parent of go to its parent, and the parents behind it come down by one.
pub open spec fn without_bone(bones: Seq<SourceBone>, index: int) -> Seq<SourceBone> {
    Seq::new(
        (bones.len() - 1) as nat,
        |j: int|
            {
                let bone = if j < index {
                    bones[j]
                } else {
                    bones[j + 1]
                };
                SourceBone {
                    parent: match bone.parent {
                        Some(parent) => if parent == index {
                            bones[index].parent
                        } else if parent > index {
                            Some((parent - 1) as usize)
                        } else {
                            Some(parent)
                        },
                        None => None,
                    },
                    ..bone
                }
            },
    )
}

/// What is left when the bones from `cursor` on are gone through from left
/// to right and every bone that nothing uses is taken out on the way.
pub open spec fn removed_one_by_one(bones: Seq<SourceBone>, cursor: int) -> Seq<SourceBone>
    decreases bones.len() - cursor,
{
    if cursor < 0 || cursor >= bones.len() {
        bones
    } else if is_used(bones[cursor]) {
        removed_one_by_one(bones, cursor + 1)
    } else {
        removed_one_by_one(without_bone(bones, cursor), cursor)
    }
}

/// The bones that the collapse leaves, each as it was defined, under the
/// parent that the collapse gives it.
pub open spec fn survivors(bones: Seq<SourceBone>) -> Seq<SourceBone> {
    Seq::new(
        collapsed(bones, bones.len() as int).len(),
        |k: int|
            SourceBone {
                parent: collapsed(bones, bones.len() as int)[k].parent,
                ..bones[collapsed(bones, bones.len() as int)[k].source as int]
            },
    )
}

/// Two used bones with the same number of used bones before them are one
/// bone.
pub proof fn lemma_used_position_unique(bones: Seq<SourceBone>, i: int, j: int)
    requires
        0 <= i < bones.len(),
        0 <= j < bones.len(),
        is_used(bones[i]),
        is_used(bones[j]),
        used_before(bones, i) == used_before(bones, j),
    ensures
        i == j,
{
    if i < j {
        lemma_used_before_grows(bones, i, j);
    } else if j < i {
        lemma_used_before_grows(bones, j, i);
    }
}

/// The bone at position `k` after the collapse is the used bone that has `k`
/// used bones before it.
pub proof fn lemma_survivor(bones: Seq<SourceBone>, i: int)
    requires
        0 <= i < bones.len() <= usize::MAX,
        is_used(bones[i]),
    ensures
        used_before(bones, i) < survivors(bones).len(),
        survivors(bones).len() == used_before(bones, bones.len() as int),
        survivors(bones)[used_before(bones, i) as int] == (SourceBone {
            parent: surviving_parent(bones, i),
            ..bones[i]
        }),
{
    let names = Seq::new(bones.len(), |n: int| Seq::<char>::empty());
    lemma_collapse_keeps_used(names, bones, bones.len() as int);
    assert(survives(names, bones, bones.len() as int, i));
}

/// Where every bone is used and parents come first, the collapse changes
/// nothing.
pub proof fn lemma_all_used(bones: Seq<SourceBone>)
    requires
        bones.len() <= usize::MAX,
        parents_precede(bones),
        forall|i: int| 0 <= i < bones.len() ==> is_used(#[trigger] bones[i]),
    ensures
        survivors(bones) == bones,
{
    assert forall|i: int| 0 <= i <= bones.len() implies #[trigger] used_before(bones, i) == i by {
        lemma_all_used_before(bones, i);
    }
    assert(survivors(bones).len() == bones.len()) by {
        if bones.len() > 0 {
            lemma_survivor(bones, 0);
        } else {
            let names = Seq::new(bones.len(), |n: int| Seq::<char>::empty());
            lemma_collapse_keeps_used(names, bones, 0);
        }
    }
    assert forall|k: int| 0 <= k < bones.len() implies survivors(bones)[k] == bones[k] by {
        lemma_survivor(bones, k);
        assert(used_before(bones, k) == k);
        match bones[k].parent {
            Some(parent) => {
                assert(parent < k);
                assert(is_used(bones[parent as int]));
                assert(used_before(bones, parent as int) == parent);
            },
            None => {},
        }
    }
    assert(survivors(bones) =~= bones);
}

/// Where every bone before `i` is used, there are `i` used bones before it.
pub proof fn lemma_all_used_before(bones: Seq<SourceBone>, i: int)
    requires
        0 <= i <= bones.len(),
        forall|j: int| 0 <= j < i ==> is_used(#[trigger] bones[j]),
    ensures
        used_before(bones, i) == i,
    decreases i,
{
    if i > 0 {
        lemma_all_used_before(bones, i - 1);
    }
}

/// Taking out a bone that nothing uses keeps the parents first and leaves
/// the used bones before each position what they were.
pub proof fn lemma_without_bone(bones: Seq<SourceBone>, index: int, j: int)
    requires
        parents_precede(bones),
        0 <= index < bones.len(),
        !is_used(bones[index]),
        0 <= j < bones.len(),
    ensures
        parents_precede(without_bone(bones, index)),
        used_before(without_bone(bones, index), if j <= index {
            j
        } else {
            j - 1
        }) == used_before(bones, j),
    decreases j,
{
    let cut = without_bone(bones, index);
    assert forall|i: int| 0 <= i < cut.len() implies ((#[trigger] cut[i]).parent matches Some(parent)
        ==> parent < i) by {
        let bone = if i < index { bones[i] } else { bones[i + 1] };
        match bone.parent {
            Some(parent) => {
                if parent == index {
                    match bones[index].parent {
                        Some(above) => {
                            assert(above < index);
                        },
                        None => {},
                    }
                }
            },
            None => {},
        }
    }
    if j > 0 {
        lemma_without_bone(bones, index, j - 1);
        if j - 1 < index {
            assert(cut[j - 1].flags == bones[j - 1].flags);
        } else if j - 1 > index {
            assert(cut[j - 2].flags == bones[j - 1].flags);
        }
    }
}

/// The position that a bone has after the bone at `index` was taken out.
pub open spec fn moved(index: int, j: int) -> int {
    if j < index {
        j
    } else {
        j - 1
    }
}

/// Taking out a bone that nothing uses leaves to every other bone the bone
/// that stands in for it.
pub proof fn lemma_stand_in_without(bones: Seq<SourceBone>, index: int, j: int)
    requires
        parents_precede(bones),
        0 <= index < bones.len() <= usize::MAX,
        !is_used(bones[index]),
        0 <= j < bones.len(),
    ensures
        j != index ==> stand_in(without_bone(bones, index), moved(index, j)) == stand_in(bones, j),
        j != index ==> surviving_parent(without_bone(bones, index), moved(index, j))
            == surviving_parent(bones, j),
    decreases j,
{
    let cut = without_bone(bones, index);
    if j != index {
        let m = moved(index, j);
        assert(cut[m].flags == bones[j].flags);
        lemma_without_bone(bones, index, j);
        assert(used_before(cut, m) == used_before(bones, j)) by {
            if j < index {
            } else {
                assert(m == j - 1);
            }
        }
        match bones[j].parent {
            Some(parent) => {
                assert(parent < j);
                if parent == index {
                    // The parent is gone; its own parent takes its place, and
                    // stood in for it before.
                    match bones[index].parent {
                        Some(above) => {
                            assert(above < index);
                            lemma_stand_in_without(bones, index, above as int);
                            assert(cut[m].parent == Some(above));
                            assert(stand_in(bones, index) == stand_in(bones, above as int));
                        },
                        None => {
                            assert(cut[m].parent.is_none());
                        },
                    }
                } else {
                    lemma_stand_in_without(bones, index, parent as int);
                    assert(cut[m].parent == Some(moved(index, parent as int) as usize));
                    assert(moved(index, parent as int) < m);
                }
            },
            None => {
                assert(cut[m].parent.is_none());
            },
        }
    }
}

/// Taking out a bone that nothing uses does not change what the collapse
/// leaves.
pub proof fn lemma_collapse_without(bones: Seq<SourceBone>, index: int)
    requires
        parents_precede(bones),
        0 <= index < bones.len() <= usize::MAX,
        !is_used(bones[index]),
    ensures
        parents_precede(without_bone(bones, index)),
        survivors(without_bone(bones, index)) == survivors(bones),
{
    let cut = without_bone(bones, index);
    let names = Seq::new(bones.len(), |n: int| Seq::<char>::empty());
    let cut_names = Seq::new(cut.len(), |n: int| Seq::<char>::empty());
    lemma_without_bone(bones, index, 0);
    lemma_collapse_keeps_used(names, bones, bones.len() as int);
    lemma_collapse_keeps_used(cut_names, cut, cut.len() as int);
    // As many bones are used as before.
    assert(used_before(cut, cut.len() as int) == used_before(bones, bones.len() as int)) by {
        lemma_without_bone(bones, index, bones.len() - 1);
        if index == bones.len() - 1 {
        } else {
            assert(cut[cut.len() - 1].flags == bones[bones.len() - 1].flags);
        }
    }
    assert forall|k: int| 0 <= k < survivors(bones).len() implies survivors(cut)[k] == survivors(
        bones,
    )[k] by {
        assert(was_used(bones, bones.len() as int, k));
        let i = collapsed(bones, bones.len() as int)[k].source as int;
        assert(i != index);
        let m = moved(index, i);
        assert(cut[m].flags == bones[i].flags);
        lemma_without_bone(bones, index, i);
        lemma_stand_in_without(bones, index, i);
        lemma_survivor(bones, i);
        lemma_survivor(cut, m);
    }
    assert(survivors(cut) =~= survivors(bones));
}

/// The collapse is what taking out the unused bones one by one comes to:
/// going through the bones from left to right and taking out each bone that
/// nothing uses, with the bones that it was the parent of going to its
/// parent, leaves the used bones, each under its nearest used ancestor.
pub proof fn lemma_collapse_is_stepwise(bones: Seq<SourceBone>, cursor: int)
    requires
        bones.len() <= usize::MAX,
        parents_precede(bones),
        0 <= cursor <= bones.len(),
        forall|i: int| 0 <= i < cursor ==> is_used(#[trigger] bones[i]),
    ensures
        removed_one_by_one(bones, cursor) == survivors(bones),
    decreases bones.len() - cursor,
{
    if cursor >= bones.len() {
        lemma_all_used(bones);
    } else if is_used(bones[cursor]) {
        lemma_collapse_is_stepwise(bones, cursor + 1);
    } else {
        let cut = without_bone(bones, cursor);
        lemma_collapse_without(bones, cursor);
        assert forall|i: int| 0 <= i < cursor implies is_used(#[trigger] cut[i]) by {
            assert(cut[i].flags == bones[i].flags);
            assert(is_used(bones[i]));
        }
        lemma_collapse_is_stepwise(cut, cursor);
    }
}

/// One use of the skeleton of a file: by a model, whose enabled parts mark
/// the bones that their vertices are linked to, or by an animation, which
/// marks none.
pub struct SkeletonUse {
    /// The path of the file.
    pub path: String,
    pub data: Arc<FileData>,
    /// For each bone of the file, whether this use marks it as used by a
    /// vertex.
    pub used: Vec<bool>,
}

/// What a use of a skeleton is, as far as the union reads it.
pub struct UseView {
    pub path: String,
    pub data: FileData,
    pub used: Seq<bool>,
}

impl SkeletonUse {
    /// The use as the union reads it.
    pub open spec fn view(&self) -> UseView {
        UseView { path: self.path, data: *self.data, used: self.used@ }
    }
}

/// The uses as the union reads them.
pub open spec fn use_views(uses: Seq<SkeletonUse>) -> Seq<UseView> {
    Seq::new(uses.len(), |u: int| uses[u]@)
}

/// Whether a vertex of the part is linked to the bone.
pub open spec fn part_uses_bone(part: Part, bone: usize) -> bool {
    exists|v: int|
        0 <= v < part.vertices@.len() && index_set_items(
            (#[trigger] part.vertices@[v]).links,
        ).contains(bone)
}

/// Whether a vertex of a part that is not disabled is linked to the bone.
pub open spec fn file_uses_bone(file: FileData, disabled: Seq<Seq<char>>, bone: usize) -> bool {
    exists|p: int|
        0 <= p < file.parts.values().len() && !disabled.contains(file.parts.names()[p])
            && part_uses_bone(#[trigger] file.parts.values()[p], bone)
}

/// Whether a use fits its file: the file is well formed, and there is one
/// mark for each bone.
pub open spec fn use_sound(one: UseView) -> bool {
    &&& one.data.well_formed()
    &&& one.used.len() == one.data.skeleton.values().len()
}

/// The skeleton after bone `b` of a use has been taken in. A bone whose name
/// is known gets the marks of this use on top of its own; a new name is
/// appended, under the bone that has the name of its parent in the file.
pub open spec fn unify_bone(
    so_far: (Seq<Seq<char>>, Seq<SourceBone>),
    one: UseView,
    file: int,
    b: int,
) -> (Seq<Seq<char>>, Seq<SourceBone>) {
    let name = one.data.skeleton.names()[b];
    let flags = vertex_flags(one.used[b]);
    if so_far.0.contains(name) {
        let i = so_far.0.index_of(name);
        (
            so_far.0,
            so_far.1.update(
                i,
                SourceBone {
                    flags: BoneFlags { bits: so_far.1[i].flags.bits | flags.bits },
                    ..so_far.1[i]
                },
            ),
        )
    } else {
        let parent = match one.data.skeleton.values()[b].parent {
            Some(p) => Some(so_far.0.index_of(one.data.skeleton.names()[p as int]) as usize),
            None => None,
        };
        (
            so_far.0.push(name),
            so_far.1.push(SourceBone { parent, flags, file: file as usize, bone: b as usize }),
        )
    }
}

/// The skeleton after the first `count` bones of a use have been taken in.
pub open spec fn unify_file(
    so_far: (Seq<Seq<char>>, Seq<SourceBone>),
    one: UseView,
    file: int,
    count: int,
) -> (Seq<Seq<char>>, Seq<SourceBone>)
    decreases count,
{
    if count <= 0 {
        so_far
    } else {
        unify_bone(unify_file(so_far, one, file, count - 1), one, file, count - 1)
    }
}

/// The union of the skeletons of the first `count` uses: names and bones.
/// The first use that brings a name defines the bone.
pub open spec fn unified(uses: Seq<UseView>, count: int) -> (Seq<Seq<char>>, Seq<SourceBone>)
    decreases count,
{
    if count <= 0 {
        (Seq::empty(), Seq::empty())
    } else {
        unify_file(
            unified(uses, count - 1),
            uses[count - 1],
            count - 1,
            uses[count - 1].data.skeleton.values().len() as int,
        )
    }
}

/// Whether a vertex of the part is linked to the bone.
fn is_bone_used_by_part(part: &Part, bone: usize) -> (used: bool)
    ensures
        used == part_uses_bone(*part, bone),
{
    let mut v: usize = 0;
    while v < part.vertices.len()
        invariant
            v <= part.vertices@.len(),
            forall|i: int|
                0 <= i < v ==> !index_set_items((#[trigger] part.vertices@[i]).links).contains(bone),
        decreases part.vertices@.len() - v,
    {
        if index_set_get_index_of(&part.vertices[v].links, bone).is_some() {
            return true;
        }
        v += 1;
    }
    false
}

/// For each bone of a file, whether a vertex of a part that is not disabled
/// is linked to it.
pub fn mark_used_bones(file: &FileData, disabled: &IndexSet<String>) -> (used: Vec<bool>)
    ensures
        used@.len() == file.skeleton.values().len(),
        forall|b: int|
            0 <= b < used@.len() ==> (#[trigger] used@[b]) == file_uses_bone(
                *file,
                name_set_items(*disabled),
                b as usize,
            ),
{
    let bones: usize = file.skeleton.len();
    let parts: usize = file.parts.len();
    let mut used: Vec<bool> = Vec::new();
    let mut b: usize = 0;
    while b < bones
        invariant
            b <= bones,
            file.skeleton.well_formed(),
            file.parts.well_formed(),
            bones == file.skeleton.names().len(),
            parts == file.parts.names().len(),
            used@.len() == b,
            forall|i: int|
                0 <= i < b ==> (#[trigger] used@[i]) == file_uses_bone(
                    *file,
                    name_set_items(*disabled),
                    i as usize,
                ),
        decreases bones - b,
    {
        let mut found: bool = false;
        let mut p: usize = 0;
        while p < parts && !found
            invariant
                p <= parts,
                file.parts.well_formed(),
                parts == file.parts.names().len(),
                !found ==> forall|i: int|
                    0 <= i < p ==> name_set_items(*disabled).contains(file.parts.names()[i])
                        || !part_uses_bone(#[trigger] file.parts.values()[i], b),
                found ==> file_uses_bone(*file, name_set_items(*disabled), b),
            decreases parts - p + if found { 0int } else { 1int },
        {
            if name_set_get_index_of(disabled, file.parts.name_at(p).as_str()).is_none() {
                if is_bone_used_by_part(file.parts.value_at(p), b) {
                    found = true;
                }
            }
            if !found {
                p += 1;
            }
        }
        used.push(found);
        b += 1;
    }
    used
}

/// Takes the skeletons of the uses together, in order.
pub fn unify_skeletons(uses: &Vec<SkeletonUse>) -> (source: NameMap<SourceBone>)
    requires
        forall|u: int| 0 <= u < uses@.len() ==> use_sound((#[trigger] uses@[u])@),
    ensures
        source.well_formed(),
        source.names() == unified(use_views(uses@), uses@.len() as int).0,
        source.values() == unified(use_views(uses@), uses@.len() as int).1,
        parents_precede(source.values()),
{
    let ghost views = use_views(uses@);
    let mut source: NameMap<SourceBone> = NameMap::new();
    let mut u: usize = 0;
    while u < uses.len()
        invariant
            u <= uses@.len(),
            views == use_views(uses@),
            forall|i: int| 0 <= i < uses@.len() ==> use_sound((#[trigger] uses@[i])@),
            source.well_formed(),
            source.names() == unified(views, u as int).0,
            source.values() == unified(views, u as int).1,
            parents_precede(source.values()),
        decreases uses@.len() - u,
    {
        let one = &uses[u];
        assert(views[u as int] == one@);
        let ghost start = (source.names(), source.values());
        let bones: usize = one.data.skeleton.len();
        let mut b: usize = 0;
        while b < bones
            invariant
                b <= bones,
                u < uses@.len(),
                *one == uses@[u as int],
                use_sound(one@),
                bones == one.data.skeleton.names().len(),
                source.well_formed(),
                source.names() == unify_file(start, one@, u as int, b as int).0,
                source.values() == unify_file(start, one@, u as int, b as int).1,
                parents_precede(source.values()),
                forall|j: int|
                    0 <= j < b ==> source.names().contains(
                        #[trigger] one.data.skeleton.names()[j],
                    ),
            decreases bones - b,
        {
            let ghost before = (source.names(), source.values());
            let name = one.data.skeleton.name_at(b);
            let flags = if one.used[b] {
                BoneFlags::used_by_vertex()
            } else {
                BoneFlags::empty()
            };
            match source.get_index_of(name.as_str()) {
                Some(index) => {
                    proof {
                        let chosen = before.0.index_of(name@);
                        assert(before.0[chosen] == name@);
                        assert(chosen == index);
                    }
                    let mut bone = *source.value_at(index);
                    bone.flags.insert(flags);
                    source.set_value(index, bone);
                    proof {
                        assert forall|i: int| 0 <= i < source.values().len() implies ((
                        #[trigger] source.values()[i]).parent matches Some(parent) ==> parent
                            < i) by {
                            assert(before.1[i].parent == source.values()[i].parent);
                        }
                    }
                },
                None => {
                    let parent: Option<usize> = match one.data.skeleton.value_at(b).parent {
                        Some(above) => {
                            proof {
                                assert(parent_precedes(
                                    one.data.skeleton.values()[b as int],
                                    b as int,
                                ));
                                assert(source.names().contains(
                                    one.data.skeleton.names()[above as int],
                                ));
                            }
                            let parent_name = one.data.skeleton.name_at(above);
                            match source.get_index_of(parent_name.as_str()) {
                                Some(index) => {
                                    proof {
                                        let chosen = before.0.index_of(parent_name@);
                                        assert(before.0[chosen] == parent_name@);
                                        assert(chosen == index);
                                    }
                                    Some(index)
                                },
                                None => vstd::pervasive::unreached(),
                            }
                        },
                        None => None,
                    };
                    let _ = source.insert_full(
                        name.clone(),
                        SourceBone { parent, flags, file: u, bone: b },
                    );
                    proof {
                        assert forall|i: int| 0 <= i < source.values().len() implies ((
                        #[trigger] source.values()[i]).parent matches Some(parent) ==> parent
                            < i) by {
                            if i < before.1.len() {
                                assert(before.1[i].parent == source.values()[i].parent);
                            }
                        }
                    }
                },
            }
            proof {
                assert forall|j: int| 0 <= j < b + 1 implies source.names().contains(
                    #[trigger] one.data.skeleton.names()[j],
                ) by {
                    let wanted = one.data.skeleton.names()[j];
                    if j < b {
                        let k = choose|k: int| 0 <= k < before.0.len() && before.0[k] == wanted;
                        assert(source.names()[k] == wanted);
                    } else {
                        if before.0.contains(wanted) {
                            let k = choose|k: int| 0 <= k < before.0.len() && before.0[k] == wanted;
                            assert(source.names()[k] == wanted);
                        } else {
                            assert(source.names()[before.0.len() as int] == wanted);
                        }
                    }
                }
            }
            b += 1;
        }
        u += 1;
    }
    source
}

/// The marks of a model on the bones of a file: a bone is marked where a
/// vertex of a part that the model has not disabled is linked to it.
pub open spec fn used_marks(file: FileData, disabled: Seq<Seq<char>>) -> Seq<bool> {
    Seq::new(file.skeleton.values().len(), |b: int| file_uses_bone(file, disabled, b as usize))
}

/// The marks of an animation: none.
pub open spec fn no_marks(file: FileData) -> Seq<bool> {
    Seq::new(file.skeleton.values().len(), |b: int| false)
}

/// The use that a model makes of a skeleton: none where it is blank, that of
/// its file where the file is loaded, and an error otherwise.
pub open spec fn model_use(manager: FileManager, model: Model, group: String) -> Result<
    Option<UseView>,
    ProcessingBoneError,
> {
    if model.blank {
        Ok(None)
    } else {
        match model.source_file_path {
            None => Err(ProcessingBoneError::NoModelFileSource(model.name, group)),
            Some(path) => match manager.status(path@) {
                Some(FileStatus::Loaded(data)) => Ok(
                    Some(
                        UseView {
                            path,
                            data: *data,
                            used: used_marks(*data, name_set_items(model.disabled_parts)),
                        },
                    ),
                ),
                _ => Err(ProcessingBoneError::FileSourceNotLoaded(path)),
            },
        }
    }
}

/// The use that an animation makes of a skeleton.
pub open spec fn animation_use(manager: FileManager, animation: Animation) -> Result<
    Option<UseView>,
    ProcessingBoneError,
> {
    match animation.source_file_path {
        None => Err(ProcessingBoneError::NoAnimationFileSource(animation.name)),
        Some(path) => match manager.status(path@) {
            Some(FileStatus::Loaded(data)) => Ok(
                Some(UseView { path, data: *data, used: no_marks(*data) }),
            ),
            _ => Err(ProcessingBoneError::FileSourceNotLoaded(path)),
        },
    }
}

/// The uses so far with one more: the first error stays.
pub open spec fn append_use(
    so_far: Result<Seq<UseView>, ProcessingBoneError>,
    next: Result<Option<UseView>, ProcessingBoneError>,
) -> Result<Seq<UseView>, ProcessingBoneError> {
    match so_far {
        Err(error) => Err(error),
        Ok(uses) => match next {
            Err(error) => Err(error),
            Ok(None) => Ok(uses),
            Ok(Some(one)) => Ok(uses.push(one)),
        },
    }
}

/// The uses after the first `count` models of a group.
pub open spec fn model_uses(
    manager: FileManager,
    so_far: Result<Seq<UseView>, ProcessingBoneError>,
    group: BodyGroup,
    count: int,
) -> Result<Seq<UseView>, ProcessingBoneError>
    decreases count,
{
    if count <= 0 {
        so_far
    } else {
        append_use(
            model_uses(manager, so_far, group, count - 1),
            model_use(manager, group.models@[count - 1], group.name),
        )
    }
}

/// The uses after the first `count` groups.
pub open spec fn group_uses(manager: FileManager, groups: Seq<BodyGroup>, count: int) -> Result<
    Seq<UseView>,
    ProcessingBoneError,
>
    decreases count,
{
    if count <= 0 {
        Ok(Seq::empty())
    } else {
        model_uses(
            manager,
            group_uses(manager, groups, count - 1),
            groups[count - 1],
            groups[count - 1].models@.len() as int,
        )
    }
}

/// The uses after the first `count` animations.
pub open spec fn animation_uses(
    manager: FileManager,
    so_far: Result<Seq<UseView>, ProcessingBoneError>,
    animations: Seq<Animation>,
    count: int,
) -> Result<Seq<UseView>, ProcessingBoneError>
    decreases count,
{
    if count <= 0 {
        so_far
    } else {
        append_use(
            animation_uses(manager, so_far, animations, count - 1),
            animation_use(manager, animations[count - 1]),
        )
    }
}

/// The skeletons that a model is built from: those of its models that are
/// not blank, group by group, and then those of its animations. The first
/// model or animation without a file, or with a file that is not loaded, is
/// the error.
pub open spec fn skeleton_uses(input: SourceInput, manager: FileManager) -> Result<
    Seq<UseView>,
    ProcessingBoneError,
> {
    animation_uses(
        manager,
        group_uses(manager, input.model_groups@, input.model_groups@.len() as int),
        input.animations@,
        input.animations@.len() as int,
    )
}

/// What the skeleton of a model is, or why there is none.
pub open spec fn processed_skeleton(input: SourceInput, manager: FileManager) -> Result<
    (Seq<UseView>, Seq<Seq<char>>, Seq<SourceBone>),
    ProcessingBoneError,
> {
    match skeleton_uses(input, manager) {
        Err(error) => Err(error),
        Ok(uses) => {
            let (names, bones) = unified(uses, uses.len() as int);
            if collapsed(bones, bones.len() as int).len() > MAX_BONES {
                Err(ProcessingBoneError::TooManyBones)
            } else {
                Ok((uses, names, bones))
            }
        },
    }
}

/// Once a model has failed, the error stays whatever models follow.
pub proof fn lemma_model_uses_failed(
    manager: FileManager,
    so_far: Result<Seq<UseView>, ProcessingBoneError>,
    group: BodyGroup,
    failed: int,
    count: int,
)
    requires
        failed <= count,
        model_uses(manager, so_far, group, failed) is Err,
    ensures
        model_uses(manager, so_far, group, count) == model_uses(manager, so_far, group, failed),
    decreases count - failed,
{
    if failed < count {
        lemma_model_uses_failed(manager, so_far, group, failed, count - 1);
    }
}

/// Once a group has failed, the error stays whatever groups follow.
pub proof fn lemma_group_uses_failed(
    manager: FileManager,
    groups: Seq<BodyGroup>,
    failed: int,
    count: int,
)
    requires
        failed <= count,
        group_uses(manager, groups, failed) is Err,
    ensures
        group_uses(manager, groups, count) == group_uses(manager, groups, failed),
    decreases count - failed,
{
    if failed < count {
        lemma_group_uses_failed(manager, groups, failed, count - 1);
        lemma_model_uses_failed(
            manager,
            group_uses(manager, groups, count - 1),
            groups[count - 1],
            0,
            groups[count - 1].models@.len() as int,
        );
    }
}

/// Once an animation has failed, the error stays whatever animations follow.
pub proof fn lemma_animation_uses_failed(
    manager: FileManager,
    so_far: Result<Seq<UseView>, ProcessingBoneError>,
    animations: Seq<Animation>,
    failed: int,
    count: int,
)
    requires
        failed <= count,
        animation_uses(manager, so_far, animations, failed) is Err,
    ensures
        animation_uses(manager, so_far, animations, count) == animation_uses(
            manager,
            so_far,
            animations,
            failed,
        ),
    decreases count - failed,
{
    if failed < count {
        lemma_animation_uses_failed(manager, so_far, animations, failed, count - 1);
    }
}

/// Where model `m` of group `g` fails, the whole gathering fails with its
/// error.
pub proof fn lemma_gathering_fails_in_group(
    input: SourceInput,
    manager: FileManager,
    g: int,
    m: int,
)
    requires
        0 <= g < input.model_groups@.len(),
        0 <= m < input.model_groups@[g].models@.len(),
        model_uses(
            manager,
            group_uses(manager, input.model_groups@, g),
            input.model_groups@[g],
            m + 1,
        ) is Err,
    ensures
        skeleton_uses(input, manager) == model_uses(
            manager,
            group_uses(manager, input.model_groups@, g),
            input.model_groups@[g],
            m + 1,
        ),
{
    let groups = input.model_groups@;
    lemma_model_uses_failed(
        manager,
        group_uses(manager, groups, g),
        groups[g],
        m + 1,
        groups[g].models@.len() as int,
    );
    lemma_group_uses_failed(manager, groups, g + 1, groups.len() as int);
    lemma_animation_uses_failed(
        manager,
        group_uses(manager, groups, groups.len() as int),
        input.animations@,
        0,
        input.animations@.len() as int,
    );
}

/// Finds the file of a model or an animation.
fn find_file(manager: &FileManager, path: &String) -> (found: Result<
    Arc<FileData>,
    ProcessingBoneError,
>)
    ensures
        match found {
            Ok(data) => manager.status(path@) == Some(FileStatus::Loaded(data))
                && data.well_formed(),
            Err(error) => !(manager.status(path@) matches Some(FileStatus::Loaded(_))) && error
                == ProcessingBoneError::FileSourceNotLoaded(*path),
        },
{
    match manager.get_file_data(path.as_str()) {
        Some(data) => Ok(data),
        None => Err(ProcessingBoneError::FileSourceNotLoaded(path.clone())),
    }
}

/// The skeletons that a model is built from.
pub fn gather_skeleton_uses(input: &SourceInput, manager: &FileManager) -> (gathered: Result<
    Vec<SkeletonUse>,
    ProcessingBoneError,
>)
    ensures
        match gathered {
            Ok(uses) => skeleton_uses(*input, *manager) == Ok::<_, ProcessingBoneError>(
                use_views(uses@),
            ) && forall|u: int| 0 <= u < uses@.len() ==> use_sound((#[trigger] uses@[u])@),
            Err(error) => skeleton_uses(*input, *manager) == Err::<Seq<UseView>, _>(error),
        },
{
    let mut uses: Vec<SkeletonUse> = Vec::new();
    let ghost groups = input.model_groups@;
    let mut g: usize = 0;
    assert(use_views(uses@) =~= Seq::<UseView>::empty());
    while g < input.model_groups.len()
        invariant
            g <= groups.len(),
            groups == input.model_groups@,
            group_uses(*manager, groups, g as int) == Ok::<_, ProcessingBoneError>(
                use_views(uses@),
            ),
            forall|u: int| 0 <= u < uses@.len() ==> use_sound((#[trigger] uses@[u])@),
        decreases groups.len() - g,
    {
        let group = &input.model_groups[g];
        let ghost start = group_uses(*manager, groups, g as int);
        let mut m: usize = 0;
        while m < group.models.len()
            invariant
                m <= group.models@.len(),
                g < groups.len(),
                groups == input.model_groups@,
                *group == groups[g as int],
                start == group_uses(*manager, groups, g as int),
                model_uses(*manager, start, *group, m as int) == Ok::<_, ProcessingBoneError>(
                    use_views(uses@),
                ),
                forall|u: int| 0 <= u < uses@.len() ==> use_sound((#[trigger] uses@[u])@),
            decreases group.models@.len() - m,
        {
            let model = &group.models[m];
            let ghost before = use_views(uses@);
            if !model.blank {
                match &model.source_file_path {
                    None => {
                        proof {
                            assert(group.models@[m as int] == *model);
                            assert(model_use(*manager, *model, group.name) is Err);
                            assert(model_uses(*manager, start, *group, m + 1) == append_use(
                                model_uses(*manager, start, *group, m as int),
                                model_use(*manager, group.models@[m as int], group.name),
                            ));
                            lemma_gathering_fails_in_group(*input, *manager, g as int, m as int);
                        }
                        return Err(
                            ProcessingBoneError::NoModelFileSource(
                                model.name.clone(),
                                group.name.clone(),
                            ),
                        );
                    },
                    Some(path) => {
                        match find_file(manager, path) {
                            Err(error) => {
                                proof {
                                    assert(group.models@[m as int] == *model);
                                    assert(model_use(*manager, *model, group.name) is Err);
                                    assert(model_uses(*manager, start, *group, m + 1)
                                        == append_use(
                                        model_uses(*manager, start, *group, m as int),
                                        model_use(*manager, group.models@[m as int], group.name),
                                    ));
                                    lemma_gathering_fails_in_group(
                                        *input,
                                        *manager,
                                        g as int,
                                        m as int,
                                    );
                                }
                                return Err(error);
                            },
                            Ok(data) => {
                                let used = mark_used_bones(&data, &model.disabled_parts);
                                proof {
                                    assert(used@ =~= used_marks(
                                        *data,
                                        name_set_items(model.disabled_parts),
                                    ));
                                }
                                uses.push(SkeletonUse { path: path.clone(), data, used });
                                proof {
                                    assert(use_views(uses@) =~= before.push(
                                        uses@[uses@.len() - 1]@,
                                    ));
                                }
                            },
                        }
                    },
                }
            }
            m += 1;
        }
        g += 1;
    }
    let ghost animations = input.animations@;
    let ghost start = group_uses(*manager, groups, groups.len() as int);
    let mut a: usize = 0;
    while a < input.animations.len()
        invariant
            a <= animations.len(),
            animations == input.animations@,
            groups == input.model_groups@,
            start == group_uses(*manager, groups, groups.len() as int),
            animation_uses(*manager, start, animations, a as int) == Ok::<_, ProcessingBoneError>(
                use_views(uses@),
            ),
            forall|u: int| 0 <= u < uses@.len() ==> use_sound((#[trigger] uses@[u])@),
        decreases animations.len() - a,
    {
        let animation = &input.animations[a];
        let ghost before = use_views(uses@);
        match &animation.source_file_path {
            None => {
                proof {
                    lemma_animation_uses_failed(
                        *manager,
                        start,
                        animations,
                        a + 1,
                        animations.len() as int,
                    );
                }
                return Err(ProcessingBoneError::NoAnimationFileSource(animation.name.clone()));
            },
            Some(path) => {
                match find_file(manager, path) {
                    Err(error) => {
                        proof {
                            lemma_animation_uses_failed(
                                *manager,
                                start,
                                animations,
                                a + 1,
                                animations.len() as int,
                            );
                        }
                        return Err(error);
                    },
                    Ok(data) => {
                        let bones: usize = data.skeleton.len();
                        let mut used: Vec<bool> = Vec::new();
                        let mut b: usize = 0;
                        while b < bones
                            invariant
                                b <= bones,
                                used@.len() == b,
                                forall|i: int| 0 <= i < b ==> !(#[trigger] used@[i]),
                            decreases bones - b,
                        {
                            used.push(false);
                            b += 1;
                        }
                        proof {
                            assert(used@ =~= no_marks(*data));
                        }
                        uses.push(SkeletonUse { path: path.clone(), data, used });
                        proof {
                            assert(use_views(uses@) =~= before.push(uses@[uses@.len() - 1]@));
                        }
                    },
                }
            },
        }
        a += 1;
    }
    Ok(uses)
}

/// Builds the skeleton of a model: the union of the skeletons of its files,
/// without the bones that no vertex uses, and the order of its bones by
/// name.
pub fn process_bones(input: &SourceInput, import: &FileManager) -> (processed: Result<
    BoneData,
    ProcessingBoneError,
>)
    ensures
        match processed {
            Ok(data) => match processed_skeleton(*input, *import) {
                Ok((uses, names, bones)) => {
                    &&& data.source_bones.names() == names
                    &&& data.source_bones.values() == bones
                    &&& parents_precede(bones)
                    &&& data.processed_bones.values() == collapsed(bones, bones.len() as int)
                    &&& data.processed_bones.names() == collapsed_names(
                        names,
                        bones,
                        bones.len() as int,
                    )
                    &&& data.processed_bones.names().len() <= MAX_BONES
                    &&& forall|k: int|
                        0 <= k < data.processed_bones.values().len() ==> ((
                        #[trigger] data.processed_bones.values()[k]).parent matches Some(parent)
                            ==> parent < k)
                    &&& is_name_order(data.processed_bones.names(), data.sorted_bones_by_name@)
                    &&& data.source_files@.len() == uses.len()
                    &&& forall|u: int|
                        0 <= u < uses.len() ==> (#[trigger] data.source_files@[u]) == uses[u].path
                },
                Err(_) => false,
            },
            Err(error) => processed_skeleton(*input, *import) == Err::<
                (Seq<UseView>, Seq<Seq<char>>, Seq<SourceBone>),
                _,
            >(error),
        },
{
    let uses = match gather_skeleton_uses(input, import) {
        Ok(uses) => uses,
        Err(error) => {
            return Err(error);
        },
    };
    let source_bones = unify_skeletons(&uses);
    let processed_bones = collapse_unused_bones(&source_bones);
    if processed_bones.len() > MAX_BONES {
        return Err(ProcessingBoneError::TooManyBones);
    }
    let sorted_bones_by_name = sort_by_name(&processed_bones);
    let total: usize = source_bones.len();
    proof {
        let bones = source_bones.values();
        assert forall|k: int| 0 <= k < processed_bones.values().len() implies ((
        #[trigger] processed_bones.values()[k]).parent matches Some(parent) ==> parent < k) by {
            lemma_collapsed_parents_precede(bones, k);
        }
    }
    let mut source_files: Vec<String> = Vec::new();
    let mut u: usize = 0;
    while u < uses.len()
        invariant
            u <= uses@.len(),
            source_files@.len() == u,
            forall|i: int| 0 <= i < u ==> (#[trigger] source_files@[i]) == uses@[i].path,
        decreases uses@.len() - u,
    {
        source_files.push(uses[u].path.clone());
        u += 1;
    }
    Ok(BoneData { processed_bones, sorted_bones_by_name, source_bones, source_files })
}

} // verus!
