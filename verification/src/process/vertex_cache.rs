//! Cache-aware ordering of triangles.
//!
//! The triangles are emitted one by one. A table says for each vertex which
//! triangles with that vertex are still to come; a simulated cache holds the
//! vertices of the triangles that were emitted last. A vertex scores by its
//! place in the cache and by the number of its triangles that are still to
//! come, a triangle by its vertices, and the triangle that scores best among
//! those of the cached vertices comes next. Scores are held in thousandths,
//! as integers, so that they add up exactly.

use crate::process::links::is_permutation;
use crate::process::mesh::TriangleList;
use crate::process::VERTEX_CACHE_SIZE;
use crate::utilities::flags::{
    lemma_pending, lemma_pending_prefix, lemma_pending_update, pending,
};
use vstd::prelude::*;

verus! {

/// The largest number of triangles to come that makes a difference to the
/// score of a vertex.
pub const VALENCE_SIZE: usize = 8;

/// The score of a place in the cache, in thousandths. Place 0 stands for
/// "not in the cache"; the places of the cache are 1 to 16.
pub open spec fn cache_score(position: int) -> int {
    if position == 1 {
        779
    } else if position == 2 {
        791
    } else if position == 3 {
        789
    } else if position == 4 {
        981
    } else if position == 5 {
        843
    } else if position == 6 {
        726
    } else if position == 7 {
        847
    } else if position == 8 {
        882
    } else if position == 9 {
        867
    } else if position == 10 {
        799
    } else if position == 11 {
        642
    } else if position == 12 {
        613
    } else if position == 13 {
        600
    } else if position == 14 {
        568
    } else if position == 15 {
        372
    } else if position == 16 {
        234
    } else {
        0
    }
}

/// The score of a vertex with `valence` triangles to come, in thousandths.
/// More than eight count as eight.
pub open spec fn valence_score(valence: int) -> int {
    if valence <= 0 {
        0
    } else if valence == 1 {
        995
    } else if valence == 2 {
        713
    } else if valence == 3 {
        450
    } else if valence == 4 {
        404
    } else if valence == 5 {
        59
    } else if valence == 6 {
        5
    } else if valence == 7 {
        147
    } else {
        6
    }
}

/// The score of a place in the cache.
fn score_of_position(position: usize) -> (score: i64)
    ensures
        score == cache_score(position as int),
        0 <= score <= 981,
{
    if position == 1 {
        779
    } else if position == 2 {
        791
    } else if position == 3 {
        789
    } else if position == 4 {
        981
    } else if position == 5 {
        843
    } else if position == 6 {
        726
    } else if position == 7 {
        847
    } else if position == 8 {
        882
    } else if position == 9 {
        867
    } else if position == 10 {
        799
    } else if position == 11 {
        642
    } else if position == 12 {
        613
    } else if position == 13 {
        600
    } else if position == 14 {
        568
    } else if position == 15 {
        372
    } else if position == 16 {
        234
    } else {
        0
    }
}

/// The score of a vertex with `valence` triangles to come.
fn score_of_valence(valence: usize) -> (score: i64)
    ensures
        score == valence_score(valence as int),
        0 <= score <= 995,
{
    if valence == 0 {
        0
    } else if valence == 1 {
        995
    } else if valence == 2 {
        713
    } else if valence == 3 {
        450
    } else if valence == 4 {
        404
    } else if valence == 5 {
        59
    } else if valence == 6 {
        5
    } else if valence == 7 {
        147
    } else {
        6
    }
}

/// How often `item` occurs in `items`.
pub open spec fn count_of(items: Seq<usize>, item: usize) -> nat
    decreases items.len(),
{
    if items.len() == 0 {
        0
    } else {
        count_of(items.drop_last(), item) + if items.last() == item {
            1nat
        } else {
            0nat
        }
    }
}

/// How many of the first `upto` corners of a triangle are the vertex.
pub open spec fn corner_count(triangle: Seq<usize>, vertex: usize, upto: int) -> nat
    decreases upto,
{
    if upto <= 0 {
        0
    } else {
        corner_count(triangle, vertex, upto - 1) + if triangle[upto - 1] == vertex {
            1nat
        } else {
            0nat
        }
    }
}

/// The table of a vertex with triangle `t` listed once for each of its first
/// `upto` corners that is the vertex.
pub open spec fn with_triangle(
    table: Seq<usize>,
    triangle: Seq<usize>,
    t: usize,
    vertex: usize,
    upto: int,
) -> Seq<usize>
    decreases upto,
{
    if upto <= 0 {
        table
    } else if triangle[upto - 1] == vertex {
        with_triangle(table, triangle, t, vertex, upto - 1).push(t)
    } else {
        with_triangle(table, triangle, t, vertex, upto - 1)
    }
}

/// The first `count` triangles that have the vertex for a corner, in order;
/// a triangle is listed once for each corner that is the vertex.
pub open spec fn incident(corners: Seq<Seq<usize>>, count: int, vertex: usize) -> Seq<usize>
    decreases count,
{
    if count <= 0 {
        Seq::empty()
    } else {
        with_triangle(
            incident(corners, count - 1, vertex),
            corners[count - 1],
            (count - 1) as usize,
            vertex,
            3,
        )
    }
}

/// Whether every triangle has three corners, each below `vertex_count`.
pub open spec fn corners_in_range(corners: Seq<Seq<usize>>, vertex_count: int) -> bool {
    &&& corners.len() <= usize::MAX
    &&& forall|t: int|
        0 <= t < corners.len() ==> (#[trigger] corners[t]).len() == 3 && corners[t][0]
            < vertex_count && corners[t][1] < vertex_count && corners[t][2] < vertex_count
}

/// An item that occurs is counted, and an item that is counted occurs.
pub proof fn lemma_count_of(items: Seq<usize>, item: usize)
    ensures
        items.contains(item) <==> count_of(items, item) > 0,
        count_of(items, item) <= items.len(),
    decreases items.len(),
{
    if items.len() > 0 {
        lemma_count_of(items.drop_last(), item);
        if items.contains(item) {
            let i = choose|i: int| 0 <= i < items.len() && items[i] == item;
            if i < items.len() - 1 {
                assert(items.drop_last()[i] == item);
            }
        }
        if items.drop_last().contains(item) {
            let i = choose|i: int| 0 <= i < items.len() - 1 && items.drop_last()[i] == item;
            assert(items[i] == item);
        }
        if items.last() == item {
            assert(items[items.len() - 1] == item);
        }
    }
}

/// Taking one occurrence out, by putting the last item in its place, takes
/// one off the count of what was there and leaves the other counts alone.
pub proof fn lemma_count_of_swap_remove(items: Seq<usize>, index: int, item: usize)
    requires
        0 <= index < items.len(),
    ensures
        count_of(items.update(index, items.last()).drop_last(), item) == count_of(items, item)
            - if items[index] == item {
            1int
        } else {
            0int
        },
    decreases items.len(),
{
    let cut = items.update(index, items.last()).drop_last();
    if index == items.len() - 1 {
        assert(cut =~= items.drop_last());
    } else {
        lemma_count_of_update(items.drop_last(), index, items.last(), item);
        assert(cut =~= items.drop_last().update(index, items.last()));
    }
}

/// Replacing one item changes the counts of the old and the new item by one.
pub proof fn lemma_count_of_update(items: Seq<usize>, index: int, value: usize, item: usize)
    requires
        0 <= index < items.len(),
    ensures
        count_of(items.update(index, value), item) == count_of(items, item) - (if items[index]
            == item {
            1int
        } else {
            0int
        }) + (if value == item {
            1int
        } else {
            0int
        }),
    decreases items.len(),
{
    let changed = items.update(index, value);
    if index == items.len() - 1 {
        assert(changed.drop_last() =~= items.drop_last());
    } else {
        lemma_count_of_update(items.drop_last(), index, value, item);
        assert(changed.drop_last() =~= items.drop_last().update(index, value));
    }
}

/// Listing a triangle adds to its count the number of its corners that are
/// the vertex, and leaves the other counts alone.
pub proof fn lemma_with_triangle(
    table: Seq<usize>,
    triangle: Seq<usize>,
    t: usize,
    vertex: usize,
    upto: int,
    other: usize,
)
    requires
        upto >= 0,
    ensures
        count_of(with_triangle(table, triangle, t, vertex, upto), other) == count_of(table, other)
            + if other == t {
            corner_count(triangle, vertex, upto)
        } else {
            0
        },
        forall|i: int|
            0 <= i < with_triangle(table, triangle, t, vertex, upto).len() ==> (
            #[trigger] with_triangle(table, triangle, t, vertex, upto)[i]) == t || table.contains(
                with_triangle(table, triangle, t, vertex, upto)[i],
            ),
    decreases upto,
{
    if upto > 0 {
        lemma_with_triangle(table, triangle, t, vertex, upto - 1, other);
        let before = with_triangle(table, triangle, t, vertex, upto - 1);
        let after = with_triangle(table, triangle, t, vertex, upto);
        if triangle[upto - 1] == vertex {
            assert(after.drop_last() =~= before);
        }
        assert forall|i: int| 0 <= i < after.len() implies (#[trigger] after[i]) == t
            || table.contains(after[i]) by {
            if i < before.len() {
                assert(after[i] == before[i]);
            }
        }
    } else {
        assert forall|i: int| 0 <= i < table.len() implies table.contains(#[trigger] table[i]) by {}
    }
}

/// The table of a vertex lists each of the first `count` triangles once for
/// each corner that is the vertex, and nothing else.
pub proof fn lemma_incident(corners: Seq<Seq<usize>>, count: int, vertex: usize, triangle: usize)
    requires
        0 <= count <= corners.len() <= usize::MAX,
    ensures
        count_of(incident(corners, count, vertex), triangle) == if triangle < count {
            corner_count(corners[triangle as int], vertex, 3)
        } else {
            0
        },
        forall|i: int|
            0 <= i < incident(corners, count, vertex).len() ==> (#[trigger] incident(
                corners,
                count,
                vertex,
            )[i]) < count,
    decreases count,
{
    if count > 0 {
        lemma_incident(corners, count - 1, vertex, triangle);
        let before = incident(corners, count - 1, vertex);
        let after = incident(corners, count, vertex);
        lemma_with_triangle(before, corners[count - 1], (count - 1) as usize, vertex, 3, triangle);
        assert forall|i: int| 0 <= i < after.len() implies (#[trigger] after[i]) < count by {
            if after[i] != (count - 1) as usize {
                let k = choose|k: int| 0 <= k < before.len() && before[k] == after[i];
                assert(before[k] < count - 1);
            }
        }
    }
}

/// For each vertex the triangles that have it for a corner.
pub fn build_adjacency(triangles: &Vec<[usize; 3]>, vertex_count: usize) -> (adjacency: Vec<
    Vec<usize>,
>)
    requires
        forall|t: int, c: int|
            0 <= t < triangles@.len() && 0 <= c < 3 ==> (#[trigger] triangles@[t]@[c])
                < vertex_count,
    ensures
        adjacency@.len() == vertex_count,
        forall|v: int|
            0 <= v < vertex_count ==> (#[trigger] adjacency@[v])@ == incident(
                Seq::new(triangles@.len(), |t: int| triangles@[t]@),
                triangles@.len() as int,
                v as usize,
            ),
{
    let ghost corners = Seq::new(triangles@.len(), |t: int| triangles@[t]@);
    let mut adjacency: Vec<Vec<usize>> = Vec::new();
    let mut v: usize = 0;
    while v < vertex_count
        invariant
            v <= vertex_count,
            adjacency@.len() == v,
            forall|i: int| 0 <= i < v ==> (#[trigger] adjacency@[i])@ == incident(corners, 0, i as usize),
        decreases vertex_count - v,
    {
        adjacency.push(Vec::new());
        v += 1;
    }
    let mut t: usize = 0;
    while t < triangles.len()
        invariant
            t <= triangles@.len(),
            corners == Seq::new(triangles@.len(), |t: int| triangles@[t]@),
            forall|i: int, c: int|
                0 <= i < triangles@.len() && 0 <= c < 3 ==> (#[trigger] triangles@[i]@[c])
                    < vertex_count,
            adjacency@.len() == vertex_count,
            forall|i: int|
                0 <= i < vertex_count ==> (#[trigger] adjacency@[i])@ == incident(
                    corners,
                    t as int,
                    i as usize,
                ),
        decreases triangles@.len() - t,
    {
        let triangle: [usize; 3] = triangles[t];
        let ghost start = adjacency@;
        let mut c: usize = 0;
        while c < 3
            invariant
                c <= 3,
                t < triangles@.len(),
                triangle == triangles@[t as int],
                forall|k: int| 0 <= k < 3 ==> (#[trigger] triangle@[k]) < vertex_count,
                adjacency@.len() == vertex_count,
                start.len() == vertex_count,
                forall|i: int|
                    0 <= i < vertex_count ==> (#[trigger] adjacency@[i])@ == with_triangle(
                        start[i]@,
                        triangle@,
                        t,
                        i as usize,
                        c as int,
                    ),
            decreases 3 - c,
        {
            let vertex: usize = triangle[c];
            let ghost before = adjacency@;
            adjacency[vertex].push(t);
            proof {
                assert forall|i: int| 0 <= i < vertex_count implies (#[trigger] adjacency@[i])@
                    == with_triangle(start[i]@, triangle@, t, i as usize, c + 1) by {
                    if i != vertex {
                        assert(adjacency@[i] == before[i]);
                    }
                }
            }
            c += 1;
        }
        proof {
            assert(corners[t as int] == triangle@);
        }
        t += 1;
    }
    adjacency
}

/// Whether a vertex is none of the corners of a triangle.
pub open spec fn is_no_corner(triangle: Seq<usize>, vertex: usize) -> bool {
    vertex != triangle[0] && vertex != triangle[1] && vertex != triangle[2]
}

/// Those of the first `count` vertices of the cache that are no corners of
/// the triangle, in order.
pub open spec fn kept_entries(cache: Seq<usize>, triangle: Seq<usize>, count: int) -> Seq<usize>
    decreases count,
{
    if count <= 0 {
        Seq::empty()
    } else if is_no_corner(triangle, cache[count - 1]) {
        kept_entries(cache, triangle, count - 1).push(cache[count - 1])
    } else {
        kept_entries(cache, triangle, count - 1)
    }
}

/// The cache after a triangle, before it is cut to its size: the corners of
/// the triangle, and behind them what was in the cache and is no corner.
pub open spec fn cache_after(cache: Seq<usize>, triangle: Seq<usize>) -> Seq<usize> {
    seq![triangle[0], triangle[1], triangle[2]] + kept_entries(
        cache,
        triangle,
        cache.len() as int,
    )
}

/// No more entries are kept than there were.
pub proof fn lemma_kept_entries(cache: Seq<usize>, triangle: Seq<usize>, count: int)
    requires
        0 <= count <= cache.len(),
    ensures
        kept_entries(cache, triangle, count).len() <= count,
        forall|i: int|
            0 <= i < kept_entries(cache, triangle, count).len() ==> cache.contains(
                #[trigger] kept_entries(cache, triangle, count)[i],
            ),
    decreases count,
{
    if count > 0 {
        lemma_kept_entries(cache, triangle, count - 1);
        let before = kept_entries(cache, triangle, count - 1);
        let after = kept_entries(cache, triangle, count);
        assert forall|i: int| 0 <= i < after.len() implies cache.contains(#[trigger] after[i]) by {
            if i < before.len() {
                assert(after[i] == before[i]);
            } else {
                assert(cache[count - 1] == after[i]);
            }
        }
    }
}

/// The cache after a triangle, before it is cut to its size.
fn update_cache(cache: &Vec<usize>, triangle: &[usize; 3]) -> (full: Vec<usize>)
    requires
        cache@.len() <= VERTEX_CACHE_SIZE,
    ensures
        full@ == cache_after(cache@, triangle@),
        3 <= full@.len() <= VERTEX_CACHE_SIZE + 3,
{
    let mut full: Vec<usize> = Vec::new();
    full.push(triangle[0]);
    full.push(triangle[1]);
    full.push(triangle[2]);
    let ghost corners = seq![triangle@[0], triangle@[1], triangle@[2]];
    assert(full@ =~= corners);
    let mut i: usize = 0;
    while i < cache.len()
        invariant
            i <= cache@.len(),
            corners == seq![triangle@[0], triangle@[1], triangle@[2]],
            full@ == corners + kept_entries(cache@, triangle@, i as int),
        decreases cache@.len() - i,
    {
        let vertex: usize = cache[i];
        if vertex != triangle[0] && vertex != triangle[1] && vertex != triangle[2] {
            full.push(vertex);
            proof {
                assert(full@ =~= corners + kept_entries(cache@, triangle@, i + 1));
            }
        }
        i += 1;
    }
    proof {
        lemma_kept_entries(cache@, triangle@, cache@.len() as int);
    }
    full
}

/// Whether `index` is the first place of `items` that holds `item`.
pub open spec fn is_first_of(items: Seq<usize>, item: usize, index: int) -> bool {
    &&& 0 <= index < items.len()
    &&& items[index] == item
    &&& forall|j: int| 0 <= j < index ==> items[j] != item
}

/// `items` without the first occurrence of `item`: the last item takes its
/// place. Where `item` does not occur, nothing changes.
pub open spec fn without_first(items: Seq<usize>, item: usize) -> Seq<usize> {
    if items.contains(item) {
        let index = choose|index: int| is_first_of(items, item, index);
        items.update(index, items.last()).drop_last()
    } else {
        items
    }
}

/// The tables after a triangle has been taken out of the tables of its first
/// `count` corners.
pub open spec fn remove_corners(
    adjacency: Seq<Seq<usize>>,
    triangle: Seq<usize>,
    t: usize,
    count: int,
) -> Seq<Seq<usize>>
    decreases count,
{
    if count <= 0 {
        adjacency
    } else {
        let before = remove_corners(adjacency, triangle, t, count - 1);
        let vertex = triangle[count - 1] as int;
        before.update(vertex, without_first(before[vertex], t))
    }
}

/// How often the table of a vertex lists a triangle.
pub open spec fn table_count(adjacency: Seq<Seq<usize>>, vertex: usize, triangle: usize) -> nat {
    count_of(adjacency[vertex as int], triangle)
}

/// Whether the tables are right: the table of each vertex lists each
/// triangle that is still to come once for each corner that is the vertex,
/// and no triangle that was emitted.
pub open spec fn tables_sound(
    corners: Seq<Seq<usize>>,
    adjacency: Seq<Seq<usize>>,
    emitted: Seq<bool>,
) -> bool {
    &&& emitted.len() == corners.len()
    &&& forall|v: usize, t: usize|
        v < adjacency.len() && t < corners.len() ==> #[trigger] table_count(adjacency, v, t)
            == if emitted[t as int] {
            0
        } else {
            corner_count(corners[t as int], v, 3)
        }
    &&& forall|v: int, i: int|
        0 <= v < adjacency.len() && 0 <= i < adjacency[v].len() ==> (#[trigger] adjacency[v][i])
            < corners.len()
}

/// How often the table of `vertex` lists the triangle `other` while the
/// triangle `t` is taken out and its first `done` corners are dealt with.
pub open spec fn expected_count(
    corners: Seq<Seq<usize>>,
    emitted: Seq<bool>,
    t: usize,
    done: int,
    vertex: usize,
    other: usize,
) -> int {
    if other == t {
        corner_count(corners[t as int], vertex, 3) - corner_count(corners[t as int], vertex, done)
    } else if emitted[other as int] {
        0
    } else {
        corner_count(corners[other as int], vertex, 3) as int
    }
}

/// Takes a triangle out of the table of a vertex.
fn remove_from_table(table: &mut Vec<usize>, t: usize)
    ensures
        final(table)@ == without_first(old(table)@, t),
{
    let ghost items = table@;
    let mut i: usize = 0;
    while i < table.len() && table[i] != t
        invariant
            i <= table@.len(),
            table@ == items,
            forall|j: int| 0 <= j < i ==> items[j] != t,
        decreases table@.len() - i,
    {
        i += 1;
    }
    if i < table.len() {
        proof {
            assert(items[i as int] == t);
            assert(items.contains(t));
            assert(is_first_of(items, t, i as int));
            let chosen = choose|index: int| is_first_of(items, t, index);
            assert(chosen == i);
        }
        let _ = table.swap_remove(i);
    }
}

/// What taking out the first occurrence does to the counts: one less of the
/// item where it occurs, and nothing else.
pub proof fn lemma_without_first(items: Seq<usize>, item: usize, other: usize)
    ensures
        count_of(without_first(items, item), other) == count_of(items, other) - if other == item
            && items.contains(item) {
            1int
        } else {
            0int
        },
        forall|i: int|
            0 <= i < without_first(items, item).len() ==> items.contains(
                #[trigger] without_first(items, item)[i],
            ),
{
    if items.contains(item) {
        let witness = choose|i: int| 0 <= i < items.len() && items[i] == item;
        lemma_first_exists(items, item, witness);
        let index = choose|index: int| is_first_of(items, item, index);
        lemma_count_of_swap_remove(items, index, other);
        let cut = without_first(items, item);
        assert forall|i: int| 0 <= i < cut.len() implies items.contains(#[trigger] cut[i]) by {
            if i == index {
                assert(items[items.len() - 1] == cut[i]);
            } else {
                assert(items[i] == cut[i]);
            }
        }
    }
}

/// An item that occurs has a first occurrence.
pub proof fn lemma_first_exists(items: Seq<usize>, item: usize, upto: int)
    requires
        0 <= upto < items.len(),
        items[upto] == item,
    ensures
        exists|index: int| is_first_of(items, item, index),
    decreases upto,
{
    if exists|j: int| 0 <= j < upto && items[j] == item {
        let j = choose|j: int| 0 <= j < upto && items[j] == item;
        lemma_first_exists(items, item, j);
    } else {
        assert(is_first_of(items, item, upto));
    }
}

/// Takes a triangle that is emitted out of the tables of its corners.
fn remove_triangle(
    adjacency: &mut Vec<Vec<usize>>,
    triangle: &[usize; 3],
    t: usize,
    Ghost(corners): Ghost<Seq<Seq<usize>>>,
    Ghost(emitted): Ghost<Seq<bool>>,
)
    requires
        tables_sound(corners, tables(old(adjacency)@), emitted),
        corners_in_range(corners, old(adjacency)@.len() as int),
        t < corners.len(),
        corners[t as int] == triangle@,
        !emitted[t as int],
    ensures
        final(adjacency)@.len() == old(adjacency)@.len(),
        tables(final(adjacency)@) == remove_corners(tables(old(adjacency)@), triangle@, t, 3),
        tables_sound(corners, tables(final(adjacency)@), emitted.update(t as int, true)),
{
    let ghost start = tables(adjacency@);
    let ghost count = adjacency@.len();
    let mut c: usize = 0;
    while c < 3
        invariant
            c <= 3,
            t < corners.len(),
            corners[t as int] == triangle@,
            !emitted[t as int],
            emitted.len() == corners.len(),
            corners_in_range(corners, count as int),
            adjacency@.len() == count,
            start.len() == count,
            tables(adjacency@) == remove_corners(start, triangle@, t, c as int),
            forall|v: usize, other: usize|
                v < count && other < corners.len() ==> #[trigger] table_count(
                    tables(adjacency@),
                    v,
                    other,
                ) == expected_count(corners, emitted, t, c as int, v, other),
            forall|v: int, i: int|
                0 <= v < count && 0 <= i < tables(adjacency@)[v].len() ==> (#[trigger] tables(
                    adjacency@,
                )[v][i]) < corners.len(),
        decreases 3 - c,
    {
        let vertex: usize = triangle[c];
        let ghost before = tables(adjacency@);
        proof {
            assert(corners[t as int][c as int] < count);
        }
        remove_from_table(&mut adjacency[vertex], t);
        proof {
            let after = tables(adjacency@);
            assert(after =~= before.update(vertex as int, without_first(before[vertex as int], t)));
            // The triangle is still in the table of this corner: the corner
            // itself has not been taken off the count.
            assert(corner_count(triangle@, vertex, c + 1) == corner_count(
                triangle@,
                vertex,
                c as int,
            ) + 1);
            lemma_corner_count_grows(triangle@, vertex, c + 1, 3);
            assert(table_count(before, vertex, t) == expected_count(
                corners,
                emitted,
                t,
                c as int,
                vertex,
                t,
            ));
            assert(count_of(before[vertex as int], t) > 0);
            lemma_count_of(before[vertex as int], t);
            assert forall|v: usize, other: usize|
                v < count && other < corners.len() implies #[trigger] table_count(after, v, other)
                == expected_count(corners, emitted, t, c + 1, v, other) by {
                assert(table_count(before, v, other) == expected_count(
                    corners,
                    emitted,
                    t,
                    c as int,
                    v,
                    other,
                ));
                if v == vertex {
                    lemma_without_first(before[v as int], t, other);
                } else {
                    assert(after[v as int] == before[v as int]);
                }
            }
            assert forall|v: int, i: int| 0 <= v < count && 0 <= i < after[v].len() implies (
            #[trigger] after[v][i]) < corners.len() by {
                if v == vertex {
                    lemma_without_first(before[v], t, 0);
                    let k = choose|k: int| 0 <= k < before[v].len() && before[v][k] == after[v][i];
                    assert(before[v][k] < corners.len());
                } else {
                    assert(after[v] == before[v]);
                    assert(before[v][i] < corners.len());
                }
            }
        }
        c += 1;
    }
}

/// The tables as sequences.
pub open spec fn tables(adjacency: Seq<Vec<usize>>) -> Seq<Seq<usize>> {
    Seq::new(adjacency.len(), |v: int| adjacency[v]@)
}

/// The count of corners grows with the number of corners that are looked at,
/// and never beyond that number.
pub proof fn lemma_corner_count_grows(triangle: Seq<usize>, vertex: usize, low: int, high: int)
    requires
        0 <= low <= high,
    ensures
        corner_count(triangle, vertex, low) <= corner_count(triangle, vertex, high),
        corner_count(triangle, vertex, high) <= high,
    decreases high,
{
    if low < high {
        lemma_corner_count_grows(triangle, vertex, low, high - 1);
    } else if high > 0 {
        lemma_corner_count_grows(triangle, vertex, low - 1, high - 1);
    }
}

/// The first triangle from `cursor` on that was not emitted, or the number
/// of triangles where there is none.
pub open spec fn next_unemitted(emitted: Seq<bool>, cursor: int) -> int
    decreases emitted.len() - cursor,
{
    if cursor < 0 || cursor >= emitted.len() {
        emitted.len() as int
    } else if !emitted[cursor] {
        cursor
    } else {
        next_unemitted(emitted, cursor + 1)
    }
}

/// The first triangle from `cursor` on that was not emitted.
fn advance_cursor(emitted: &Vec<bool>, cursor: usize) -> (next: usize)
    ensures
        next == next_unemitted(emitted@, cursor as int),
        cursor <= next || next == emitted@.len(),
        next <= emitted@.len(),
        next < emitted@.len() ==> !emitted@[next as int],
        forall|i: int| cursor <= i < next ==> emitted@[i],
{
    let mut next: usize = cursor;
    while next < emitted.len() && emitted[next]
        invariant
            cursor <= next,
            next_unemitted(emitted@, next as int) == next_unemitted(emitted@, cursor as int),
            forall|i: int| cursor <= i < next && i < emitted@.len() ==> emitted@[i],
        decreases emitted@.len() - next,
    {
        next += 1;
    }
    if next >= emitted.len() {
        emitted.len()
    } else {
        next
    }
}

/// The scores, and the best triangle that was seen while they were brought
/// up to date.
pub struct Scoring {
    pub vertex_scores: Seq<int>,
    pub triangle_scores: Seq<int>,
    pub best: Option<usize>,
    pub best_score: int,
}

/// The scoring after the score of a vertex has changed by `difference` and
/// the first `count` triangles of its table have taken the change. A
/// triangle whose score comes to lie above the best so far is the best from
/// then on.
pub open spec fn rescore_neighbors(
    scoring: Scoring,
    neighbors: Seq<usize>,
    difference: int,
    count: int,
) -> Scoring
    decreases count,
{
    if count <= 0 {
        scoring
    } else {
        let before = rescore_neighbors(scoring, neighbors, difference, count - 1);
        let neighbor = neighbors[count - 1];
        let score = before.triangle_scores[neighbor as int] + difference;
        Scoring {
            vertex_scores: before.vertex_scores,
            triangle_scores: before.triangle_scores.update(neighbor as int, score),
            best: if before.best_score < score {
                Some(neighbor)
            } else {
                before.best
            },
            best_score: if before.best_score < score {
                score
            } else {
                before.best_score
            },
        }
    }
}

/// The place in the cache that an entry at `index` of the uncut cache
/// stands for: what is beyond the size of the cache counts as outside.
pub open spec fn place_of(index: int) -> int {
    if index < VERTEX_CACHE_SIZE {
        index + 1
    } else {
        0
    }
}

/// The scoring after the first `count` entries of the uncut cache have been
/// rescored. An entry without triangles to come is passed over.
pub open spec fn rescore_cache(
    scoring: Scoring,
    adjacency: Seq<Seq<usize>>,
    full: Seq<usize>,
    count: int,
) -> Scoring
    decreases count,
{
    if count <= 0 {
        scoring
    } else {
        let before = rescore_cache(scoring, adjacency, full, count - 1);
        let vertex = full[count - 1] as int;
        let live = adjacency[vertex].len() as int;
        if live == 0 {
            before
        } else {
            let score = cache_score(place_of(count - 1)) + valence_score(live);
            let difference = score - before.vertex_scores[vertex];
            rescore_neighbors(
                Scoring { vertex_scores: before.vertex_scores.update(vertex, score), ..before },
                adjacency[vertex],
                difference,
                live,
            )
        }
    }
}

/// `difference` added up `times` times.
pub open spec fn repeated(difference: int, times: int) -> int
    decreases times,
{
    if times <= 0 {
        0
    } else {
        difference + repeated(difference, times - 1)
    }
}

/// The largest score of a vertex.
pub const MAX_VERTEX_SCORE: i64 = 1976;

/// Whether the scores fit together: the score of a vertex is within its
/// range, and the score of a triangle that is still to come is the sum of
/// the scores of its corners.
pub open spec fn scores_consistent(
    corners: Seq<Seq<usize>>,
    emitted: Seq<bool>,
    scoring: Scoring,
    vertex_count: int,
) -> bool {
    &&& scoring.vertex_scores.len() == vertex_count
    &&& scoring.triangle_scores.len() == corners.len()
    &&& forall|v: int|
        0 <= v < vertex_count ==> 0 <= (#[trigger] scoring.vertex_scores[v]) <= MAX_VERTEX_SCORE
    &&& forall|t: int|
        0 <= t < corners.len() && !emitted[t] ==> (#[trigger] scoring.triangle_scores[t])
            == scoring.vertex_scores[corners[t][0] as int]
            + scoring.vertex_scores[corners[t][1] as int]
            + scoring.vertex_scores[corners[t][2] as int]
}

/// Adding up a bounded difference stays within the bound times the number.
pub proof fn lemma_repeated(difference: int, times: int)
    requires
        -1976 <= difference <= 1976,
        times >= 0,
    ensures
        -1976 * times <= repeated(difference, times) <= 1976 * times,
    decreases times,
{
    if times > 0 {
        lemma_repeated(difference, times - 1);
    }
}

/// A beginning of a list holds an item no more often than the list.
pub proof fn lemma_count_of_take(items: Seq<usize>, count: int, item: usize)
    requires
        0 <= count <= items.len(),
    ensures
        count_of(items.take(count), item) <= count_of(items, item),
    decreases items.len() - count,
{
    if count < items.len() {
        lemma_count_of_take(items, count + 1, item);
        assert(items.take(count + 1).drop_last() =~= items.take(count));
    } else {
        assert(items.take(count) =~= items);
    }
}

/// The scores as they are held while the order is computed.
struct Scores {
    vertex_scores: Vec<i64>,
    triangle_scores: Vec<i64>,
    best: Option<usize>,
    best_score: i64,
}

impl Scores {
    spec fn view(&self) -> Scoring {
        Scoring {
            vertex_scores: Seq::new(self.vertex_scores@.len(), |v: int| self.vertex_scores@[v] as int),
            triangle_scores: Seq::new(
                self.triangle_scores@.len(),
                |t: int| self.triangle_scores@[t] as int,
            ),
            best: self.best,
            best_score: self.best_score as int,
        }
    }
}

/// Passes a change of the score of a vertex on to the triangles of its table.
fn rescore_table(
    scores: &mut Scores,
    neighbors: &Vec<usize>,
    difference: i64,
    Ghost(corners): Ghost<Seq<Seq<usize>>>,
)
    requires
        -MAX_VERTEX_SCORE <= difference <= MAX_VERTEX_SCORE,
        old(scores).triangle_scores@.len() == corners.len(),
        forall|i: int| 0 <= i < neighbors@.len() ==> (#[trigger] neighbors@[i]) < corners.len(),
        forall|t: usize| t < corners.len() ==> #[trigger] count_of(neighbors@, t) <= 3,
        forall|i: int|
            0 <= i < neighbors@.len() ==> 0 <= old(scores).triangle_scores@[(
            #[trigger] neighbors@[i]) as int] <= 3 * MAX_VERTEX_SCORE,
        -8 * MAX_VERTEX_SCORE <= old(scores).best_score <= 8 * MAX_VERTEX_SCORE,
    ensures
        final(scores)@ == rescore_neighbors(
            old(scores)@,
            neighbors@,
            difference as int,
            neighbors@.len() as int,
        ),
        final(scores).vertex_scores@ == old(scores).vertex_scores@,
        final(scores).triangle_scores@.len() == corners.len(),
        forall|t: usize|
            t < corners.len() ==> (#[trigger] final(scores).triangle_scores@[t as int]) == old(
                scores,
            ).triangle_scores@[t as int] + repeated(difference as int, count_of(neighbors@, t) as int),
        -8 * MAX_VERTEX_SCORE <= final(scores).best_score <= 8 * MAX_VERTEX_SCORE,
        final(scores).best == old(scores).best || (final(scores).best matches Some(b)
            && neighbors@.contains(b)),
{
    let ghost start = scores@;
    let ghost first = scores.triangle_scores@;
    let mut i: usize = 0;
    assert(neighbors@.take(0) =~= Seq::<usize>::empty());
    while i < neighbors.len()
        invariant
            i <= neighbors@.len(),
            -MAX_VERTEX_SCORE <= difference <= MAX_VERTEX_SCORE,
            first.len() == corners.len(),
            scores.triangle_scores@.len() == corners.len(),
            scores.vertex_scores@ == old(scores).vertex_scores@,
            forall|k: int| 0 <= k < neighbors@.len() ==> (#[trigger] neighbors@[k]) < corners.len(),
            forall|t: usize| t < corners.len() ==> #[trigger] count_of(neighbors@, t) <= 3,
            forall|k: int|
                0 <= k < neighbors@.len() ==> 0 <= first[(#[trigger] neighbors@[k]) as int] <= 3
                    * MAX_VERTEX_SCORE,
            scores@ == rescore_neighbors(start, neighbors@, difference as int, i as int),
            forall|t: usize|
                t < corners.len() ==> (#[trigger] scores.triangle_scores@[t as int]) == first[t as int]
                    + repeated(difference as int, count_of(neighbors@.take(i as int), t) as int),
            -8 * MAX_VERTEX_SCORE <= scores.best_score <= 8 * MAX_VERTEX_SCORE,
            scores.best == old(scores).best || (scores.best matches Some(b) && neighbors@.contains(
                b,
            )),
        decreases neighbors@.len() - i,
    {
        let neighbor: usize = neighbors[i];
        let ghost before = scores@;
        let ghost held = scores.triangle_scores@;
        proof {
            lemma_count_of_take(neighbors@, i as int, neighbor);
            lemma_repeated(difference as int, count_of(neighbors@.take(i as int), neighbor) as int);
            assert(count_of(neighbors@, neighbor) <= 3);
            assert(held[neighbor as int] == first[neighbor as int] + repeated(
                difference as int,
                count_of(neighbors@.take(i as int), neighbor) as int,
            ));
            assert(0 <= first[neighbor as int] <= 3 * MAX_VERTEX_SCORE);
            let times = count_of(neighbors@.take(i as int), neighbor) as int;
            assert(0 <= times <= 3);
            assert(MAX_VERTEX_SCORE == 1976);
            assert(-1976 * times <= repeated(difference as int, times) <= 1976 * times);
            assert(-3 * 1976 <= repeated(difference as int, times) <= 3 * 1976);
            assert(neighbors@.take(i + 1).drop_last() =~= neighbors@.take(i as int));
            assert(neighbors@.take(i + 1).last() == neighbor);
        }
        let score: i64 = scores.triangle_scores[neighbor] + difference;
        if scores.best_score < score {
            scores.best = Some(neighbor);
            scores.best_score = score;
        }
        scores.triangle_scores[neighbor] = score;
        proof {
            assert(scores@.triangle_scores =~= before.triangle_scores.update(
                neighbor as int,
                score as int,
            ));
            assert(scores@.vertex_scores =~= before.vertex_scores);
            assert forall|t: usize| t < corners.len() implies (
            #[trigger] scores.triangle_scores@[t as int]) == first[t as int] + repeated(
                difference as int,
                count_of(neighbors@.take(i + 1), t) as int,
            ) by {
                assert(held[t as int] == first[t as int] + repeated(
                    difference as int,
                    count_of(neighbors@.take(i as int), t) as int,
                ));
            }
        }
        i += 1;
    }
    proof {
        assert(neighbors@.take(neighbors@.len() as int) =~= neighbors@);
    }
}

/// Adding up a difference once for each corner of a triangle that is the
/// vertex is adding it for each such corner.
pub proof fn lemma_repeated_corners(triangle: Seq<usize>, vertex: usize, difference: int)
    ensures
        repeated(difference, corner_count(triangle, vertex, 3) as int) == (if triangle[0]
            == vertex {
            difference
        } else {
            0
        }) + (if triangle[1] == vertex {
            difference
        } else {
            0
        }) + (if triangle[2] == vertex {
            difference
        } else {
            0
        }),
{
    reveal_with_fuel(corner_count, 4);
    reveal_with_fuel(repeated, 4);
}

/// A triangle that a table lists is still to come.
pub proof fn lemma_listed_is_live(
    corners: Seq<Seq<usize>>,
    adjacency: Seq<Seq<usize>>,
    emitted: Seq<bool>,
    vertex: usize,
    triangle: usize,
)
    requires
        tables_sound(corners, adjacency, emitted),
        vertex < adjacency.len(),
        adjacency[vertex as int].contains(triangle),
    ensures
        triangle < corners.len(),
        !emitted[triangle as int],
        count_of(adjacency[vertex as int], triangle) <= 3,
{
    let i = choose|i: int|
        0 <= i < adjacency[vertex as int].len() && adjacency[vertex as int][i] == triangle;
    assert(adjacency[vertex as int][i] < corners.len());
    lemma_count_of(adjacency[vertex as int], triangle);
    assert(table_count(adjacency, vertex, triangle) > 0);
    lemma_corner_count_grows(corners[triangle as int], vertex, 3, 3);
}

/// Brings the scores of the vertices of the uncut cache up to date, and
/// with them the scores of their triangles; finds the best of these.
fn rescore_all(
    scores: &mut Scores,
    adjacency: &Vec<Vec<usize>>,
    full: &Vec<usize>,
    Ghost(corners): Ghost<Seq<Seq<usize>>>,
    Ghost(emitted): Ghost<Seq<bool>>,
)
    requires
        tables_sound(corners, tables(adjacency@), emitted),
        corners_in_range(corners, adjacency@.len() as int),
        scores_consistent(corners, emitted, old(scores)@, adjacency@.len() as int),
        forall|i: int| 0 <= i < full@.len() ==> (#[trigger] full@[i]) < adjacency@.len(),
        old(scores).best is None,
        old(scores).best_score == 0,
    ensures
        final(scores)@ == rescore_cache(
            old(scores)@,
            tables(adjacency@),
            full@,
            full@.len() as int,
        ),
        scores_consistent(corners, emitted, final(scores)@, adjacency@.len() as int),
        final(scores).best matches Some(b) ==> b < corners.len() && !emitted[b as int],
{
    let ghost start = scores@;
    let ghost lists = tables(adjacency@);
    let ghost vertex_count = adjacency@.len() as int;
    let mut index: usize = 0;
    while index < full.len()
        invariant
            index <= full@.len(),
            lists == tables(adjacency@),
            vertex_count == adjacency@.len(),
            tables_sound(corners, lists, emitted),
            corners_in_range(corners, vertex_count),
            forall|i: int| 0 <= i < full@.len() ==> (#[trigger] full@[i]) < adjacency@.len(),
            scores@ == rescore_cache(start, lists, full@, index as int),
            scores_consistent(corners, emitted, scores@, vertex_count),
            scores.best matches Some(b) ==> b < corners.len() && !emitted[b as int],
            -8 * MAX_VERTEX_SCORE <= scores.best_score <= 8 * MAX_VERTEX_SCORE,
        decreases full@.len() - index,
    {
        let vertex: usize = full[index];
        let live: usize = adjacency[vertex].len();
        assert(lists[vertex as int] == adjacency@[vertex as int]@);
        if live > 0 {
            let position: usize = if index < VERTEX_CACHE_SIZE {
                index + 1
            } else {
                0
            };
            let ghost before = scores@;
            assert(before.vertex_scores[vertex as int] == scores.vertex_scores@[vertex as int]);
            let score: i64 = score_of_position(position) + score_of_valence(live);
            let difference: i64 = score - scores.vertex_scores[vertex];
            scores.vertex_scores[vertex] = score;
            let ghost middle = scores@;
            proof {
                assert(middle.vertex_scores =~= before.vertex_scores.update(
                    vertex as int,
                    score as int,
                ));
                assert(middle.triangle_scores =~= before.triangle_scores);
                assert(middle == Scoring {
                    vertex_scores: before.vertex_scores.update(vertex as int, score as int),
                    ..before
                });
                let neighbors = lists[vertex as int];
                assert forall|t: usize| t < corners.len() implies #[trigger] count_of(neighbors, t)
                    <= 3 by {
                    assert(table_count(lists, vertex, t) == count_of(neighbors, t));
                    lemma_corner_count_grows(corners[t as int], vertex, 3, 3);
                }
                assert forall|i: int| 0 <= i < neighbors.len() implies 0
                    <= scores.triangle_scores@[(#[trigger] neighbors[i]) as int] <= 3
                    * MAX_VERTEX_SCORE by {
                    let t = neighbors[i];
                    assert(neighbors.contains(t));
                    lemma_listed_is_live(corners, lists, emitted, vertex, t);
                    assert(before.triangle_scores[t as int] == scores.triangle_scores@[t as int]);
                    assert(corners[t as int].len() == 3);
                }
            }
            rescore_table(scores, &adjacency[vertex], difference, Ghost(corners));
            proof {
                let after = scores@;
                let neighbors = lists[vertex as int];
                assert(after.vertex_scores =~= middle.vertex_scores);
                assert forall|t: int| 0 <= t < corners.len() && !emitted[t] implies (
                #[trigger] after.triangle_scores[t]) == after.vertex_scores[corners[t][0] as int]
                    + after.vertex_scores[corners[t][1] as int]
                    + after.vertex_scores[corners[t][2] as int] by {
                    let tt = t as usize;
                    assert(scores.triangle_scores@[tt as int] == middle.triangle_scores[t]
                        + repeated(difference as int, count_of(neighbors, tt) as int));
                    assert(table_count(lists, vertex, tt) == corner_count(corners[t], vertex, 3));
                    lemma_repeated_corners(corners[t], vertex, difference as int);
                    assert(before.triangle_scores[t] == before.vertex_scores[corners[t][0] as int]
                        + before.vertex_scores[corners[t][1] as int]
                        + before.vertex_scores[corners[t][2] as int]);
                    assert(corners[t].len() == 3);
                }
                match scores.best {
                    Some(b) => {
                        if neighbors.contains(b) {
                            lemma_listed_is_live(corners, lists, emitted, vertex, b);
                        }
                    },
                    None => {},
                }
            }
        }
        index += 1;
    }
}

/// What the ordering holds while it runs.
pub struct CacheState {
    /// For each vertex the triangles with it that are still to come.
    pub adjacency: Seq<Seq<usize>>,
    pub vertex_scores: Seq<int>,
    pub triangle_scores: Seq<int>,
    /// For each triangle whether it was emitted.
    pub emitted: Seq<bool>,
    /// The vertices of the triangles that were emitted last, newest first.
    pub cache: Seq<usize>,
    /// Below this no triangle is still to come, but the one that is next.
    pub cursor: int,
}

/// The state after triangle `t` has been emitted, and the triangle that
/// comes next: the best of the triangles of the cached vertices, else the
/// first that is still to come, else none.
pub open spec fn emit(state: CacheState, corners: Seq<Seq<usize>>, t: usize) -> (
    CacheState,
    Option<usize>,
) {
    let triangle = corners[t as int];
    let emitted = state.emitted.update(t as int, true);
    let full = cache_after(state.cache, triangle);
    let adjacency = remove_corners(state.adjacency, triangle, t, 3);
    let scored = rescore_cache(
        Scoring {
            vertex_scores: state.vertex_scores,
            triangle_scores: state.triangle_scores.update(t as int, 0),
            best: None,
            best_score: 0,
        },
        adjacency,
        full,
        full.len() as int,
    );
    let cursor = if scored.best is Some {
        state.cursor
    } else {
        next_unemitted(emitted, state.cursor)
    };
    let next = if scored.best is Some {
        scored.best
    } else if cursor < emitted.len() {
        Some(cursor as usize)
    } else {
        None
    };
    (
        CacheState {
            adjacency,
            vertex_scores: scored.vertex_scores,
            triangle_scores: scored.triangle_scores,
            emitted,
            cache: full.take(least_of(full.len() as int, VERTEX_CACHE_SIZE as int)),
            cursor,
        },
        next,
    )
}

/// The smaller of two numbers.
pub open spec fn least_of(a: int, b: int) -> int {
    if a <= b {
        a
    } else {
        b
    }
}

/// The order in which the triangles are emitted from triangle `t` on, as
/// long as `remaining` triangles are still to come.
pub open spec fn run(state: CacheState, corners: Seq<Seq<usize>>, t: usize, remaining: nat) -> Seq<
    usize,
>
    decreases remaining,
{
    if remaining == 0 {
        Seq::empty()
    } else {
        let (after, next) = emit(state, corners, t);
        seq![t] + match next {
            Some(following) => run(after, corners, following, (remaining - 1) as nat),
            None => Seq::empty(),
        }
    }
}

/// The state before the first triangle: every triangle in the tables of its
/// corners, every vertex scored by the number of its triangles, every
/// triangle by its corners, and nothing in the cache.
pub open spec fn initial_state(corners: Seq<Seq<usize>>, vertex_count: int) -> CacheState {
    let adjacency = Seq::new(
        vertex_count as nat,
        |v: int| incident(corners, corners.len() as int, v as usize),
    );
    let vertex_scores = Seq::new(
        vertex_count as nat,
        |v: int| valence_score(adjacency[v].len() as int),
    );
    CacheState {
        adjacency,
        vertex_scores,
        triangle_scores: Seq::new(
            corners.len(),
            |t: int|
                vertex_scores[corners[t][0] as int] + vertex_scores[corners[t][1] as int]
                    + vertex_scores[corners[t][2] as int],
        ),
        emitted: Seq::new(corners.len(), |t: int| false),
        cache: Seq::empty(),
        cursor: 1,
    }
}

/// The order in which the triangles are emitted: the first triangle first,
/// and then always the one that `emit` names.
pub open spec fn cache_order(corners: Seq<Seq<usize>>, vertex_count: int) -> Seq<usize> {
    if corners.len() == 0 {
        Seq::empty()
    } else {
        run(initial_state(corners, vertex_count), corners, 0, corners.len())
    }
}

/// The state that the ordering holds, with its tables and scores as
/// sequences.
spec fn state_of(
    adjacency: Seq<Vec<usize>>,
    scores: Scores,
    emitted: Seq<bool>,
    cache: Seq<usize>,
    cursor: int,
) -> CacheState {
    CacheState {
        adjacency: tables(adjacency),
        vertex_scores: scores@.vertex_scores,
        triangle_scores: scores@.triangle_scores,
        emitted,
        cache,
        cursor,
    }
}

/// The scores before the first triangle.
fn initial_scores(
    triangles: &Vec<[usize; 3]>,
    adjacency: &Vec<Vec<usize>>,
    Ghost(corners): Ghost<Seq<Seq<usize>>>,
) -> (scores: Scores)
    requires
        corners == Seq::new(triangles@.len(), |t: int| triangles@[t]@),
        corners_in_range(corners, adjacency@.len() as int),
        tables(adjacency@) == initial_state(corners, adjacency@.len() as int).adjacency,
    ensures
        scores@.vertex_scores == initial_state(corners, adjacency@.len() as int).vertex_scores,
        scores@.triangle_scores == initial_state(corners, adjacency@.len() as int).triangle_scores,
        scores.best is None,
        scores.best_score == 0,
        scores_consistent(
            corners,
            initial_state(corners, adjacency@.len() as int).emitted,
            scores@,
            adjacency@.len() as int,
        ),
{
    let ghost first = initial_state(corners, adjacency@.len() as int);
    let mut vertex_scores: Vec<i64> = Vec::new();
    let mut v: usize = 0;
    while v < adjacency.len()
        invariant
            v <= adjacency@.len(),
            first == initial_state(corners, adjacency@.len() as int),
            tables(adjacency@) == first.adjacency,
            vertex_scores@.len() == v,
            forall|i: int|
                0 <= i < v ==> (#[trigger] vertex_scores@[i]) == first.vertex_scores[i] && 0
                    <= vertex_scores@[i] <= 995,
        decreases adjacency@.len() - v,
    {
        assert(tables(adjacency@)[v as int] == adjacency@[v as int]@);
        vertex_scores.push(score_of_valence(adjacency[v].len()));
        v += 1;
    }
    let mut triangle_scores: Vec<i64> = Vec::new();
    let mut t: usize = 0;
    while t < triangles.len()
        invariant
            t <= triangles@.len(),
            corners == Seq::new(triangles@.len(), |t: int| triangles@[t]@),
            corners_in_range(corners, adjacency@.len() as int),
            first == initial_state(corners, adjacency@.len() as int),
            vertex_scores@.len() == adjacency@.len(),
            forall|i: int|
                0 <= i < vertex_scores@.len() ==> (#[trigger] vertex_scores@[i])
                    == first.vertex_scores[i] && 0 <= vertex_scores@[i] <= 995,
            triangle_scores@.len() == t,
            forall|i: int|
                0 <= i < t ==> (#[trigger] triangle_scores@[i]) == first.triangle_scores[i],
        decreases triangles@.len() - t,
    {
        let triangle: [usize; 3] = triangles[t];
        proof {
            assert(corners[t as int] == triangle@);
            assert(corners[t as int].len() == 3);
        }
        triangle_scores.push(
            vertex_scores[triangle[0]] + vertex_scores[triangle[1]] + vertex_scores[triangle[2]],
        );
        t += 1;
    }
    let scores = Scores { vertex_scores, triangle_scores, best: None, best_score: 0 };
    proof {
        assert(scores@.vertex_scores =~= first.vertex_scores);
        assert(scores@.triangle_scores =~= first.triangle_scores);
    }
    scores
}

/// The order in which the triangles are emitted.
pub fn vertex_cache_order(triangles: &Vec<[usize; 3]>, vertex_count: usize) -> (order: Vec<usize>)
    requires
        forall|t: int, c: int|
            0 <= t < triangles@.len() && 0 <= c < 3 ==> (#[trigger] triangles@[t]@[c])
                < vertex_count,
    ensures
        order@ == cache_order(
            Seq::new(triangles@.len(), |t: int| triangles@[t]@),
            vertex_count as int,
        ),
        is_permutation(order@, triangles@.len() as int),
{
    let ghost corners = Seq::new(triangles@.len(), |t: int| triangles@[t]@);
    let total: usize = triangles.len();
    let mut order: Vec<usize> = Vec::new();
    if total == 0 {
        return order;
    }
    proof {
        assert forall|t: int| 0 <= t < corners.len() implies (#[trigger] corners[t]).len() == 3
            && corners[t][0] < vertex_count && corners[t][1] < vertex_count && corners[t][2]
            < vertex_count by {
            assert(triangles@[t]@[0] < vertex_count);
            assert(triangles@[t]@[1] < vertex_count);
            assert(triangles@[t]@[2] < vertex_count);
        }
    }
    let mut adjacency = build_adjacency(triangles, vertex_count);
    let ghost first = initial_state(corners, vertex_count as int);
    proof {
        assert(tables(adjacency@) =~= first.adjacency);
    }
    let mut scores = initial_scores(triangles, &adjacency, Ghost(corners));
    let mut emitted: Vec<bool> = Vec::new();
    let mut n: usize = 0;
    while n < total
        invariant
            n <= total,
            emitted@.len() == n,
            forall|i: int| 0 <= i < n ==> !(#[trigger] emitted@[i]),
            pending(emitted@, n as int) == n,
        decreases total - n,
    {
        let ghost flags = emitted@;
        emitted.push(false);
        proof {
            lemma_pending_prefix(flags, emitted@, n as int);
        }
        n += 1;
    }
    let mut cache: Vec<usize> = Vec::new();
    let mut cursor: usize = 1;
    let mut current: usize = 0;
    let mut more: bool = true;
    proof {
        assert(emitted@ =~= first.emitted);
        assert forall|v: usize, t: usize|
            v < tables(adjacency@).len() && t < corners.len() implies #[trigger] table_count(
            tables(adjacency@),
            v,
            t,
        ) == if emitted@[t as int] {
            0
        } else {
            corner_count(corners[t as int], v, 3)
        } by {
            lemma_incident(corners, corners.len() as int, v, t);
        }
        assert forall|v: int, i: int|
            0 <= v < tables(adjacency@).len() && 0 <= i < tables(adjacency@)[v].len() implies (
        #[trigger] tables(adjacency@)[v][i]) < corners.len() by {
            lemma_incident(corners, corners.len() as int, v as usize, 0);
        }
        assert(state_of(adjacency@, scores, emitted@, cache@, cursor as int) == first);
    }
    while more
        invariant
            total == triangles@.len(),
            total >= 1,
            corners == Seq::new(triangles@.len(), |t: int| triangles@[t]@),
            corners_in_range(corners, vertex_count as int),
            adjacency@.len() == vertex_count,
            emitted@.len() == total,
            tables_sound(corners, tables(adjacency@), emitted@),
            scores_consistent(corners, emitted@, scores@, vertex_count as int),
            cache@.len() <= VERTEX_CACHE_SIZE,
            forall|i: int| 0 <= i < cache@.len() ==> (#[trigger] cache@[i]) < vertex_count,
            order@.no_duplicates(),
            forall|i: int|
                0 <= i < order@.len() ==> (#[trigger] order@[i]) < total && emitted@[order@[i] as int],
            order@.len() + pending(emitted@, total as int) == total,
            1 <= cursor,
            more ==> current < total && !emitted@[current as int],
            forall|i: int| 0 <= i < cursor && i < total ==> emitted@[i] || (more && i == current),
            more ==> cache_order(corners, vertex_count as int) == order@ + run(
                state_of(adjacency@, scores, emitted@, cache@, cursor as int),
                corners,
                current,
                (total - order@.len()) as nat,
            ),
            !more ==> cache_order(corners, vertex_count as int) == order@ && pending(
                emitted@,
                total as int,
            ) == 0,
        decreases pending(emitted@, total as int), if more { 1int } else { 0int },
    {
        let ghost before = state_of(adjacency@, scores, emitted@, cache@, cursor as int);
        let ghost order_before = order@;
        let ghost remaining = (total - order@.len()) as nat;
        let ghost emitted_before = emitted@;
        let triangle: [usize; 3] = triangles[current];
        proof {
            assert(corners[current as int] == triangle@);
            assert(corners[current as int].len() == 3);
            lemma_pending(emitted@, total as int);
            assert(remaining >= 1);
        }
        order.push(current);
        emitted[current] = true;
        let ghost score_before = scores@;
        scores.triangle_scores[current] = 0;
        scores.best = None;
        scores.best_score = 0;
        proof {
            assert(scores@.triangle_scores =~= score_before.triangle_scores.update(
                current as int,
                0,
            ));
            assert(scores@.vertex_scores =~= score_before.vertex_scores);
            assert(emitted@ =~= emitted_before.update(current as int, true));
            lemma_pending_update(emitted_before, current as int, total as int);
        }
        let mut full = update_cache(&cache, &triangle);
        proof {
            lemma_kept_entries(cache@, triangle@, cache@.len() as int);
            assert forall|i: int| 0 <= i < full@.len() implies (#[trigger] full@[i])
                < vertex_count by {
                if i >= 3 {
                    let kept = kept_entries(cache@, triangle@, cache@.len() as int);
                    assert(full@[i] == kept[i - 3]);
                    assert(cache@.contains(kept[i - 3]));
                    let k = choose|k: int| 0 <= k < cache@.len() && cache@[k] == kept[i - 3];
                    assert(cache@[k] < vertex_count);
                }
            }
        }
        remove_triangle(&mut adjacency, &triangle, current, Ghost(corners), Ghost(emitted_before));
        let ghost start_scoring = scores@;
        rescore_all(&mut scores, &adjacency, &full, Ghost(corners), Ghost(emitted@));
        let ghost full_view = full@;
        full.truncate(VERTEX_CACHE_SIZE);
        cache = full;
        proof {
            assert(cache@ =~= full_view.take(
                least_of(full_view.len() as int, VERTEX_CACHE_SIZE as int),
            ));
        }
        let ghost step = emit(before, corners, current);
        match scores.best {
            Some(best) => {
                current = best;
            },
            None => {
                cursor = advance_cursor(&emitted, cursor);
                if cursor < total {
                    current = cursor;
                } else {
                    more = false;
                }
            },
        }
        proof {
            assert(state_of(adjacency@, scores, emitted@, cache@, cursor as int) == step.0);
            assert(more ==> step.1 == Some(current));
            assert(!more ==> step.1.is_none());
            assert(run(before, corners, order@[order@.len() - 1], remaining) == seq![
                order@[order@.len() - 1],
            ] + match step.1 {
                Some(following) => run(step.0, corners, following, (remaining - 1) as nat),
                None => Seq::empty(),
            });
            assert(order@ =~= order_before + seq![order@[order@.len() - 1]]);
            assert forall|i: int, j: int|
                0 <= i < order@.len() && 0 <= j < order@.len() && i != j implies order@[i]
                != order@[j] by {
                if i < order_before.len() && j < order_before.len() {
                } else if i < order_before.len() {
                    assert(emitted_before[order_before[i] as int]);
                } else if j < order_before.len() {
                    assert(emitted_before[order_before[j] as int]);
                }
            }
            if !more {
                lemma_pending(emitted@, total as int);
                assert(cache_order(corners, vertex_count as int) =~= order@);
            } else {
                assert(cache_order(corners, vertex_count as int) =~= order@ + run(
                    step.0,
                    corners,
                    current,
                    (remaining - 1) as nat,
                ));
            }
        }
    }
    order
}

/// Puts the triangles of a list into the order that suits the vertex cache.
/// The vertices stay as they are.
pub fn optimize_vertex_cache(triangle_list: &mut TriangleList)
    requires
        old(triangle_list).indices_in_range(),
    ensures
        final(triangle_list).vertices == old(triangle_list).vertices,
        final(triangle_list).triangles@.len() == old(triangle_list).triangles@.len(),
        is_permutation(
            cache_order(old(triangle_list).corners(), old(triangle_list).vertices@.len() as int),
            old(triangle_list).triangles@.len() as int,
        ),
        forall|i: int|
            0 <= i < final(triangle_list).triangles@.len() ==> (#[trigger] final(triangle_list).triangles@[i]) == old(triangle_list).triangles@[cache_order(
                old(triangle_list).corners(),
                old(triangle_list).vertices@.len() as int,
            )[i] as int],
        final(triangle_list).indices_in_range(),
{
    let order = vertex_cache_order(&triangle_list.triangles, triangle_list.vertices.len());
    let ghost before = triangle_list.triangles@;
    let mut triangles: Vec<[usize; 3]> = Vec::new();
    let mut i: usize = 0;
    while i < order.len()
        invariant
            i <= order@.len(),
            before == triangle_list.triangles@,
            is_permutation(order@, before.len() as int),
            triangles@.len() == i,
            forall|k: int| 0 <= k < i ==> (#[trigger] triangles@[k]) == before[order@[k] as int],
        decreases order@.len() - i,
    {
        triangles.push(triangle_list.triangles[order[i]]);
        i += 1;
    }
    triangle_list.triangles = triangles;
    proof {
        assert forall|t: int, c: int|
            0 <= t < triangle_list.triangles@.len() && 0 <= c < 3 implies (
        #[trigger] triangle_list.triangles@[t]@[c]) < triangle_list.vertices@.len() by {
            assert(before[order@[t] as int]@[c] < triangle_list.vertices@.len());
        }
    }
}

} // verus!
