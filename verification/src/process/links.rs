//! Vertex links: from the bones of a file to the bones of the model, merged,
//! cut down to three and put in order.

use crate::import::FileData;
use crate::names::NameMap;
use crate::ordered::{index_set_insert_full, index_set_items, index_set_new};
use crate::process::mesh::TriangleVertexLink;
use crate::process::Bone;
use vstd::prelude::*;

verus! {

/// The number of links that a vertex keeps.
pub const MAX_LINKS_PER_VERTEX: usize = 3;

/// The processed bone that stands for bone `b` of a file: the one of its
/// name, else what stands for its parent, else bone 0.
pub open spec fn mapped_bone(file: FileData, processed: Seq<Seq<char>>, b: int) -> usize
    decreases b,
{
    if b < 0 || b >= file.skeleton.names().len() {
        0
    } else if processed.contains(file.skeleton.names()[b]) {
        processed.index_of(file.skeleton.names()[b]) as usize
    } else {
        match file.skeleton.values()[b].parent {
            Some(parent) => if parent < b {
                mapped_bone(file, processed, parent as int)
            } else {
                0
            },
            None => 0,
        }
    }
}

/// For each bone of a file the processed bone that stands for it.
pub fn map_import_bones(file: &FileData, processed_bones: &NameMap<Bone>) -> (remap: Vec<usize>)
    ensures
        remap@.len() == file.skeleton.names().len(),
        forall|b: int|
            0 <= b < remap@.len() ==> (#[trigger] remap@[b]) == mapped_bone(
                *file,
                processed_bones.names(),
                b,
            ),
        forall|b: int|
            0 <= b < remap@.len() ==> (#[trigger] remap@[b]) < processed_bones.names().len()
                || remap@[b] == 0,
{
    let count: usize = file.skeleton.len();
    let targets: usize = processed_bones.len();
    let mut remap: Vec<usize> = Vec::new();
    let mut b: usize = 0;
    while b < count
        invariant
            b <= count,
            file.skeleton.well_formed(),
            processed_bones.well_formed(),
            count == file.skeleton.names().len(),
            remap@.len() == b,
            forall|i: int|
                0 <= i < b ==> (#[trigger] remap@[i]) == mapped_bone(
                    *file,
                    processed_bones.names(),
                    i,
                ),
            forall|i: int|
                0 <= i < b ==> (#[trigger] remap@[i]) < processed_bones.names().len() || remap@[i]
                    == 0,
        decreases count - b,
    {
        let name = file.skeleton.name_at(b);
        let target: usize = match processed_bones.get_index_of(name.as_str()) {
            Some(index) => {
                proof {
                    let chosen = processed_bones.names().index_of(name@);
                    assert(processed_bones.names()[chosen] == name@);
                    assert(chosen == index);
                }
                index
            },
            None => match file.skeleton.value_at(b).parent {
                Some(parent) => if parent < b {
                    remap[parent]
                } else {
                    0
                },
                None => 0,
            },
        };
        remap.push(target);
        b += 1;
    }
    remap
}

/// A link as the merge reads it: its bone, and the slots whose weights it
/// adds up.
pub struct LinkView {
    pub bone: usize,
    pub sources: Seq<usize>,
}

/// The links as the merge reads them.
pub open spec fn link_views(links: Seq<TriangleVertexLink>) -> Seq<LinkView> {
    Seq::new(links.len(), |k: int| LinkView { bone: links[k].bone, sources: links[k].sources@ })
}

/// The bones of links, in order.
pub open spec fn bones_of(links: Seq<LinkView>) -> Seq<usize> {
    Seq::new(links.len(), |k: int| links[k].bone)
}

/// The links after one more has been taken in under the bone `bone`: where
/// a link to that bone exists it takes the slots on top of its own, else a
/// new link is appended.
pub open spec fn merge_link(merged: Seq<LinkView>, bone: usize, sources: Seq<usize>) -> Seq<LinkView> {
    if bones_of(merged).contains(bone) {
        let k = bones_of(merged).index_of(bone);
        merged.update(k, LinkView { bone, sources: merged[k].sources + sources })
    } else {
        merged.push(LinkView { bone, sources })
    }
}

/// The bone that a link goes to after the remap; a bone that the file does
/// not have goes to bone 0.
pub open spec fn remapped(remap: Seq<usize>, bone: usize) -> usize {
    if bone < remap.len() {
        remap[bone as int]
    } else {
        0
    }
}

/// The first `count` links, each moved to the bone that the remap gives and
/// merged with the links that went to the same bone before.
pub open spec fn merged_links(links: Seq<LinkView>, remap: Seq<usize>, count: int) -> Seq<LinkView>
    decreases count,
{
    if count <= 0 {
        Seq::empty()
    } else {
        merge_link(
            merged_links(links, remap, count - 1),
            remapped(remap, links[count - 1].bone),
            links[count - 1].sources,
        )
    }
}

/// Merging keeps the bones distinct, and there are never more links after
/// it than before.
pub proof fn lemma_merged_links(links: Seq<LinkView>, remap: Seq<usize>, count: int)
    requires
        0 <= count <= links.len(),
    ensures
        bones_of(merged_links(links, remap, count)).no_duplicates(),
        merged_links(links, remap, count).len() <= count,
        count > 0 ==> merged_links(links, remap, count).len() >= 1,
        (forall|b: int| 0 <= b < remap.len() ==> (#[trigger] remap[b]) <= u8::MAX) ==> forall|
            k: int,
        |
            0 <= k < merged_links(links, remap, count).len() ==> (#[trigger] merged_links(
                links,
                remap,
                count,
            )[k]).bone <= u8::MAX,
    decreases count,
{
    if count > 0 {
        lemma_merged_links(links, remap, count - 1);
        let before = merged_links(links, remap, count - 1);
        let after = merged_links(links, remap, count);
        let bone = remapped(remap, links[count - 1].bone);
        let old_bones = bones_of(before);
        let new_bones = bones_of(after);
        if old_bones.contains(bone) {
            let k = old_bones.index_of(bone);
            assert(new_bones =~= old_bones);
        } else {
            assert(new_bones =~= old_bones.push(bone));
            assert forall|i: int, j: int|
                0 <= i < new_bones.len() && 0 <= j < new_bones.len() && i != j implies new_bones[i]
                != new_bones[j] by {
                if i < old_bones.len() {
                    assert(old_bones.contains(old_bones[i]));
                }
                if j < old_bones.len() {
                    assert(old_bones.contains(old_bones[j]));
                }
            }
        }
        if forall|b: int| 0 <= b < remap.len() ==> (#[trigger] remap[b]) <= u8::MAX {
            assert forall|k: int| 0 <= k < after.len() implies (#[trigger] after[k]).bone
                <= u8::MAX by {
                if k < before.len() {
                    assert(after[k].bone == before[k].bone);
                }
            }
        }
    }
}

/// Moves the links of a vertex to the bones of the model and merges those
/// that come to the same bone: the first keeps its place and takes the slots
/// of the others.
pub fn remap_vertex_links(links: &Vec<TriangleVertexLink>, remap: &Vec<usize>) -> (merged: Vec<
    TriangleVertexLink,
>)
    ensures
        link_views(merged@) == merged_links(link_views(links@), remap@, links@.len() as int),
{
    let ghost views = link_views(links@);
    let mut merged: Vec<TriangleVertexLink> = Vec::new();
    let mut bones = index_set_new();
    let mut k: usize = 0;
    assert(link_views(merged@) =~= Seq::<LinkView>::empty());
    assert(bones_of(link_views(merged@)) =~= Seq::<usize>::empty());
    while k < links.len()
        invariant
            k <= links@.len(),
            views == link_views(links@),
            link_views(merged@) == merged_links(views, remap@, k as int),
            index_set_items(bones) == bones_of(link_views(merged@)),
        decreases links@.len() - k,
    {
        let link = &links[k];
        let bone: usize = if link.bone < remap.len() {
            remap[link.bone]
        } else {
            0
        };
        let ghost before = link_views(merged@);
        let ghost before_bones = bones_of(before);
        proof {
            assert(views[k as int].bone == link.bone);
            assert(views[k as int].sources == link.sources@);
            assert(bone == remapped(remap@, views[k as int].bone));
        }
        let placed = index_set_insert_full(&mut bones, bone);
        if placed.1 {
            merged.push(TriangleVertexLink { bone, sources: link.sources.clone() });
            proof {
                assert(link_views(merged@) =~= before.push(
                    LinkView { bone, sources: link.sources@ },
                ));
                assert(bones_of(link_views(merged@)) =~= before_bones.push(bone));
            }
        } else {
            let position: usize = placed.0;
            proof {
                lemma_merged_links(views, remap@, k as int);
                let chosen = before_bones.index_of(bone);
                assert(before_bones[chosen] == bone);
                assert(before_bones[position as int] == bone);
                assert(chosen == position);
            }
            let mut sources: Vec<usize> = merged[position].sources.clone();
            let mut s: usize = 0;
            while s < link.sources.len()
                invariant
                    s <= link.sources@.len(),
                    position < merged@.len(),
                    sources@ == merged@[position as int].sources@ + link.sources@.take(s as int),
                decreases link.sources@.len() - s,
            {
                sources.push(link.sources[s]);
                proof {
                    assert(link.sources@.take(s + 1) =~= link.sources@.take(s as int).push(
                        link.sources@[s as int],
                    ));
                }
                s += 1;
            }
            proof {
                assert(link.sources@.take(link.sources@.len() as int) =~= link.sources@);
            }
            merged.set(position, TriangleVertexLink { bone, sources });
            proof {
                assert(link_views(merged@) =~= before.update(
                    position as int,
                    LinkView { bone, sources: before[position as int].sources + link.sources@ },
                ));
                assert(bones_of(link_views(merged@)) =~= before_bones);
            }
        }
        k += 1;
    }
    merged
}

/// Whether `order` lists each of the positions below `count` once.
pub open spec fn is_permutation(order: Seq<usize>, count: int) -> bool {
    &&& order.len() == count
    &&& order.no_duplicates()
    &&& forall|i: int| 0 <= i < order.len() ==> (#[trigger] order[i]) < count
}

/// The order in which links are kept: `order`, where it lists each link
/// once, and the order in which the links stand otherwise.
pub open spec fn followed_order(order: Seq<usize>, count: int) -> Seq<usize> {
    if is_permutation(order, count) {
        order
    } else {
        Seq::new(count as nat, |i: int| i as usize)
    }
}

/// The number of links that are kept of `count`.
pub open spec fn kept_count(count: int) -> int {
    if count > MAX_LINKS_PER_VERTEX {
        MAX_LINKS_PER_VERTEX as int
    } else {
        count
    }
}

/// Whether `kept` is what is left of the links `merged`: the first three in
/// the order that is followed, with their bones ascending.
pub open spec fn links_limited(kept: Seq<LinkView>, merged: Seq<LinkView>, order: Seq<usize>) -> bool {
    let followed = followed_order(order, merged.len() as int);
    &&& kept.len() == kept_count(merged.len() as int)
    &&& forall|k: int| 0 <= k < kept.len() - 1 ==> (#[trigger] kept[k]).bone < kept[k + 1].bone
    &&& forall|i: int| 0 <= i < kept.len() ==> kept.contains(merged[#[trigger] followed[i] as int])
}

/// Whether `kept` is what some order leaves of the links `merged`: three of
/// them, or all where there are fewer, with their bones ascending.
pub open spec fn links_kept(kept: Seq<LinkView>, merged: Seq<LinkView>) -> bool {
    &&& kept.len() == kept_count(merged.len() as int)
    &&& forall|k: int| 0 <= k < kept.len() - 1 ==> (#[trigger] kept[k]).bone < kept[k + 1].bone
    &&& forall|k: int| 0 <= k < kept.len() ==> merged.contains(#[trigger] kept[k])
}

/// Whether `order` lists each of the positions below `count` once.
pub fn check_permutation(order: &Vec<usize>, count: usize) -> (valid: bool)
    ensures
        valid == is_permutation(order@, count as int),
{
    if order.len() != count {
        return false;
    }
    let mut seen: Vec<bool> = Vec::new();
    let mut n: usize = 0;
    while n < count
        invariant
            n <= count,
            seen@.len() == n,
            forall|x: int| 0 <= x < n ==> !(#[trigger] seen@[x]),
        decreases count - n,
    {
        seen.push(false);
        n += 1;
    }
    let mut i: usize = 0;
    while i < count
        invariant
            i <= count,
            order@.len() == count,
            seen@.len() == count,
            forall|j: int| 0 <= j < i ==> (#[trigger] order@[j]) < count,
            forall|a: int, b: int| 0 <= a < i && 0 <= b < i && a != b ==> order@[a] != order@[b],
            forall|x: int|
                0 <= x < count ==> ((#[trigger] seen@[x]) <==> exists|j: int|
                    0 <= j < i && order@[j] == x),
        decreases count - i,
    {
        let position: usize = order[i];
        if position >= count {
            return false;
        }
        if seen[position] {
            proof {
                let j = choose|j: int| 0 <= j < i && order@[j] == position;
                assert(order@[j] == order@[i as int]);
            }
            return false;
        }
        let ghost before = seen@;
        seen.set(position, true);
        proof {
            assert forall|x: int| 0 <= x < count implies ((#[trigger] seen@[x]) <==> exists|j: int|
                0 <= j < i + 1 && order@[j] == x) by {
                if x == position {
                    assert(order@[i as int] == x);
                } else {
                    assert(seen@[x] == before[x]);
                    if before[x] {
                        let j = choose|j: int| 0 <= j < i && order@[j] == x;
                        assert(0 <= j < i + 1 && order@[j] == x);
                    }
                    if exists|j: int| 0 <= j < i + 1 && order@[j] == x {
                        let j = choose|j: int| 0 <= j < i + 1 && order@[j] == x;
                        assert(j < i);
                    }
                }
            }
            assert forall|a: int, b: int| 0 <= a < i + 1 && 0 <= b < i + 1 && a != b implies order@[a]
                != order@[b] by {
                if a == i && order@[b] == position {
                    assert(before[position as int]);
                }
                if b == i && order@[a] == position {
                    assert(before[position as int]);
                }
            }
        }
        i += 1;
    }
    true
}

/// Whether `positions` are the links that are kept, out of links to the
/// bones `bones`: the first three of the order that is followed, put in the
/// order of their bones.
pub open spec fn positions_selected(positions: Seq<usize>, bones: Seq<usize>, order: Seq<usize>) -> bool {
    let followed = followed_order(order, bones.len() as int);
    &&& positions.len() == kept_count(bones.len() as int)
    &&& forall|k: int| 0 <= k < positions.len() ==> (#[trigger] positions[k]) < bones.len()
    &&& forall|k: int|
        0 <= k < positions.len() - 1 ==> bones[(#[trigger] positions[k]) as int]
            < bones[positions[k + 1] as int]
    &&& forall|i: int| 0 <= i < positions.len() ==> positions.contains(#[trigger] followed[i])
}

/// Putting one more link in place, before the first link to a greater bone,
/// keeps the bones of the links ascending.
proof fn lemma_insert_keeps_order(
    before: Seq<usize>,
    after: Seq<usize>,
    place: int,
    position: usize,
    bones: Seq<usize>,
)
    requires
        0 <= place <= before.len(),
        after == before.insert(place, position),
        position < bones.len(),
        forall|k: int| 0 <= k < before.len() ==> (#[trigger] before[k]) < bones.len(),
        forall|k: int|
            0 <= k < before.len() - 1 ==> bones[(#[trigger] before[k]) as int]
                < bones[before[k + 1] as int],
        forall|k: int| 0 <= k < place ==> bones[(#[trigger] before[k]) as int] < bones[position as int],
        place < before.len() ==> bones[before[place] as int] > bones[position as int],
    ensures
        forall|k: int| 0 <= k < after.len() ==> (#[trigger] after[k]) < bones.len(),
        forall|k: int|
            0 <= k < after.len() - 1 ==> bones[(#[trigger] after[k]) as int]
                < bones[after[k + 1] as int],
{
    assert forall|k: int| 0 <= k < after.len() implies (#[trigger] after[k]) < bones.len() by {
        if k < place {
            assert(after[k] == before[k]);
        } else if k > place {
            assert(after[k] == before[k - 1]);
        }
    }
    assert forall|k: int| 0 <= k < after.len() - 1 implies bones[(#[trigger] after[k]) as int]
        < bones[after[k + 1] as int] by {
        if k + 1 < place {
            assert(after[k] == before[k] && after[k + 1] == before[k + 1]);
        } else if k + 1 == place {
            assert(after[k] == before[k]);
            assert(after[k + 1] == position);
        } else if k == place {
            assert(after[k] == position);
            assert(after[k + 1] == before[k]);
        } else {
            assert(after[k] == before[k - 1] && after[k + 1] == before[k]);
        }
    }
}

/// Whether each of `positions` is one of the first `count` of `followed`,
/// and each of these is among `positions`.
pub open spec fn holds_first(positions: Seq<usize>, followed: Seq<usize>, count: int) -> bool {
    &&& forall|j: int| 0 <= j < count ==> positions.contains(#[trigger] followed[j])
    &&& forall|k: int|
        0 <= k < positions.len() ==> followed.take(count).contains(#[trigger] positions[k])
}

/// Putting the next link of the order in place keeps the links that are
/// picked the first links of the order.
proof fn lemma_insert_keeps_first(
    before: Seq<usize>,
    after: Seq<usize>,
    place: int,
    followed: Seq<usize>,
    i: int,
)
    requires
        0 <= place <= before.len(),
        0 <= i < followed.len(),
        after == before.insert(place, followed[i]),
        holds_first(before, followed, i),
    ensures
        holds_first(after, followed, i + 1),
{
    let position = followed[i];
    assert forall|j: int| 0 <= j < i + 1 implies after.contains(#[trigger] followed[j]) by {
        if j < i {
            let k = choose|k: int| 0 <= k < before.len() && before[k] == followed[j];
            if k < place {
                assert(after[k] == followed[j]);
            } else {
                assert(after[k + 1] == followed[j]);
            }
        } else {
            assert(after[place] == followed[j]);
        }
    }
    assert forall|k: int| 0 <= k < after.len() implies followed.take(i + 1).contains(
        #[trigger] after[k],
    ) by {
        if k == place {
            assert(followed.take(i + 1)[i] == after[k]);
        } else {
            let old = if k < place { k } else { k - 1 };
            assert(after[k] == before[old]);
            assert(followed.take(i).contains(before[old]));
            let j = choose|j: int| 0 <= j < i && followed.take(i)[j] == before[old];
            assert(followed.take(i + 1)[j] == after[k]);
        }
    }
}

/// Picks the links that are kept, out of links to the bones `bones`: the
/// first three in `order`, which ranks the links from the heaviest down, put
/// in the order of their bones. An order that does not list each link once
/// is not followed: the links are then taken as they stand.
pub fn select_links(bones: &Vec<usize>, order: &Vec<usize>) -> (positions: Vec<usize>)
    requires
        bones@.no_duplicates(),
    ensures
        positions_selected(positions@, bones@, order@),
{
    let count: usize = bones.len();
    let valid: bool = check_permutation(order, count);
    let keep: usize = if count > MAX_LINKS_PER_VERTEX {
        MAX_LINKS_PER_VERTEX
    } else {
        count
    };
    let ghost followed = followed_order(order@, count as int);
    let mut positions: Vec<usize> = Vec::new();
    let mut i: usize = 0;
    while i < keep
        invariant
            i <= keep <= count,
            count == bones@.len(),
            bones@.no_duplicates(),
            valid == is_permutation(order@, count as int),
            followed == followed_order(order@, count as int),
            positions@.len() == i,
            forall|k: int| 0 <= k < i ==> (#[trigger] positions@[k]) < count,
            forall|k: int|
                0 <= k < i - 1 ==> bones@[(#[trigger] positions@[k]) as int]
                    < bones@[positions@[k + 1] as int],
            followed.len() == count,
            holds_first(positions@, followed, i as int),
        decreases keep - i,
    {
        let position: usize = if valid {
            order[i]
        } else {
            i
        };
        assert(position == followed[i as int]);
        let bone: usize = bones[position];
        let ghost before = positions@;
        let mut place: usize = 0;
        while place < positions.len() && bones[positions[place]] < bone
            invariant
                place <= positions@.len(),
                position < count,
                count == bones@.len(),
                forall|k: int| 0 <= k < positions@.len() ==> (#[trigger] positions@[k]) < count,
                forall|k: int| 0 <= k < place ==> bones@[(#[trigger] positions@[k]) as int] < bone,
            decreases positions@.len() - place,
        {
            place += 1;
        }
        proof {
            assert forall|k: int| 0 <= k < before.len() implies bones@[(#[trigger] before[k]) as int]
                != bone by {
                assert(followed.take(i as int).contains(before[k]));
                let j = choose|j: int| 0 <= j < i && followed.take(i as int)[j] == before[k];
                assert(followed[j] == before[k]);
                if valid {
                    assert(order@[j] != order@[i as int]);
                }
                assert(before[k] != position);
            }
        }
        positions.insert(place, position);
        proof {
            lemma_insert_keeps_order(before, positions@, place as int, position, bones@);
            lemma_insert_keeps_first(before, positions@, place as int, followed, i as int);
        }
        i += 1;
    }
    positions
}

/// Keeps at most three links of a vertex: the first three in `order`, which
/// ranks the links from the heaviest down. They come back with their bones
/// ascending, together with whether a link was left out.
pub fn limit_vertex_links(merged: &Vec<TriangleVertexLink>, order: &Vec<usize>) -> (limited: (
    Vec<TriangleVertexLink>,
    bool,
))
    requires
        bones_of(link_views(merged@)).no_duplicates(),
    ensures
        links_limited(link_views(limited.0@), link_views(merged@), order@),
        limited.1 == (merged@.len() > MAX_LINKS_PER_VERTEX),
        limited.0@.len() <= MAX_LINKS_PER_VERTEX,
        merged@.len() >= 1 ==> limited.0@.len() >= 1,
        forall|k: int|
            0 <= k < limited.0@.len() ==> bones_of(link_views(merged@)).contains(
                (#[trigger] limited.0@[k]).bone,
            ),
        links_kept(link_views(limited.0@), link_views(merged@)),
{
    let count: usize = merged.len();
    let ghost views = link_views(merged@);
    let mut bones: Vec<usize> = Vec::new();
    let mut b: usize = 0;
    while b < count
        invariant
            b <= count,
            count == merged@.len(),
            bones@.len() == b,
            forall|i: int| 0 <= i < b ==> (#[trigger] bones@[i]) == merged@[i].bone,
        decreases count - b,
    {
        bones.push(merged[b].bone);
        b += 1;
    }
    assert(bones@ =~= bones_of(views));
    let positions = select_links(&bones, order);
    let mut kept: Vec<TriangleVertexLink> = Vec::new();
    let mut k: usize = 0;
    while k < positions.len()
        invariant
            k <= positions@.len(),
            count == merged@.len(),
            forall|i: int| 0 <= i < positions@.len() ==> (#[trigger] positions@[i]) < count,
            kept@.len() == k,
            forall|i: int|
                0 <= i < k ==> (#[trigger] kept@[i]).bone == merged@[positions@[i] as int].bone
                    && kept@[i].sources@ == merged@[positions@[i] as int].sources@,
        decreases positions@.len() - k,
    {
        let link = &merged[positions[k]];
        kept.push(TriangleVertexLink { bone: link.bone, sources: link.sources.clone() });
        k += 1;
    }
    proof {
        let limited = link_views(kept@);
        let followed = followed_order(order@, count as int);
        assert forall|i: int| 0 <= i < limited.len() implies (#[trigger] limited[i])
            == views[positions@[i] as int] by {
            assert(kept@[i].bone == merged@[positions@[i] as int].bone);
        }
        assert forall|i: int| 0 <= i < limited.len() - 1 implies (#[trigger] limited[i]).bone
            < limited[i + 1].bone by {
            assert(limited[i + 1] == views[positions@[i + 1] as int]);
            assert(bones@[positions@[i] as int] < bones@[positions@[i + 1] as int]);
        }
        assert forall|i: int| 0 <= i < limited.len() implies limited.contains(
            views[#[trigger] followed[i] as int],
        ) by {
            assert(positions@.contains(followed[i]));
            let x = choose|x: int| 0 <= x < positions@.len() && positions@[x] == followed[i];
            assert(limited[x] == views[followed[i] as int]);
        }
        assert forall|x: int| 0 <= x < limited.len() implies views.contains(
            #[trigger] limited[x],
        ) by {
            assert(views[positions@[x] as int] == limited[x]);
        }
        assert forall|x: int| 0 <= x < kept@.len() implies bones_of(views).contains(
            (#[trigger] kept@[x]).bone,
        ) by {
            let m = positions@[x] as int;
            assert(bones_of(views)[m] == kept@[x].bone);
        }
    }
    (kept, count > MAX_LINKS_PER_VERTEX)
}

} // verus!
