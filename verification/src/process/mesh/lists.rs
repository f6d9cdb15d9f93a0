//! The triangle lists of a model: one for each material of its file.

use crate::import::{face_sound, FileData, Part, Vertex};
use crate::input::Model;
use crate::names::{inserted_names, lemma_push_unique};
use crate::ordered::{
    holds_once, index_set_get_index, index_set_insert_full, index_set_items, index_set_len,
    index_set_new, name_set_get_index_of, name_set_insert_full, name_set_items,
};
use crate::process::links::{link_views, LinkView};
use crate::process::mesh::{Measure, TriangleList, TriangleVertex, TriangleVertexLink};
use crate::process::mesh::triangulate::{select_fan_pivot, triangulate_face, triangulation};
use indexmap::IndexSet;
use vstd::prelude::*;

verus! {

/// The triangle lists of a model, one for each material that its faces
/// use.
pub struct TriangleLists {
    /// The materials, as positions in the list of all materials, in the
    /// order in which the model first uses them.
    pub materials: Vec<usize>,
    /// For each of `materials` its triangles.
    pub lists: Vec<TriangleList>,
}

/// The links of an imported vertex: one for each of its bones, with the slot
/// of the bone as its only source.
pub open spec fn import_links(vertex: Vertex) -> Seq<LinkView> {
    Seq::new(
        index_set_items(vertex.links).len(),
        |k: int| LinkView { bone: index_set_items(vertex.links)[k], sources: seq![k as usize] },
    )
}

/// Whether a vertex of a triangle list is a vertex of an enabled part of
/// the file, with the links of that vertex.
pub open spec fn vertex_from_file(vertex: TriangleVertex, file: FileData, disabled: Seq<Seq<char>>) -> bool {
    &&& vertex.part < file.parts.values().len()
    &&& !disabled.contains(file.parts.names()[vertex.part as int])
    &&& vertex.vertex < file.parts.values()[vertex.part as int].vertices@.len()
    &&& link_views(vertex.links@) == import_links(
        file.parts.values()[vertex.part as int].vertices@[vertex.vertex as int],
    )
}

/// Whether a list is as it is first made: every triangle has three vertices
/// of its own, in order, and every vertex is one of the file.
pub open spec fn list_fresh(list: TriangleList, file: FileData, disabled: Seq<Seq<char>>) -> bool {
    &&& list.vertices@.len() == 3 * list.triangles@.len()
    &&& forall|t: int|
        0 <= t < list.triangles@.len() ==> (#[trigger] list.triangles@[t])@ == seq![
            (3 * t) as usize,
            (3 * t + 1) as usize,
            (3 * t + 2) as usize,
        ]
    &&& forall|v: int|
        0 <= v < list.vertices@.len() ==> vertex_from_file(
            #[trigger] list.vertices@[v],
            file,
            disabled,
        )
}

/// The links of an imported vertex, as links of a corner of a triangle.
fn copy_import_links(vertex: &Vertex) -> (links: Vec<TriangleVertexLink>)
    ensures
        link_views(links@) == import_links(*vertex),
{
    let count: usize = index_set_len(&vertex.links);
    let mut links: Vec<TriangleVertexLink> = Vec::new();
    let mut k: usize = 0;
    while k < count
        invariant
            k <= count,
            count == index_set_items(vertex.links).len(),
            links@.len() == k,
            forall|i: int|
                0 <= i < k ==> (#[trigger] links@[i]).bone == index_set_items(vertex.links)[i]
                    && links@[i].sources@ == seq![i as usize],
        decreases count - k,
    {
        let bone: usize = match index_set_get_index(&vertex.links, k) {
            Some(bone) => bone,
            None => vstd::pervasive::unreached(),
        };
        let mut sources: Vec<usize> = Vec::new();
        sources.push(k);
        assert(sources@ =~= seq![k]);
        links.push(TriangleVertexLink { bone, sources });
        k += 1;
    }
    assert(link_views(links@) =~= import_links(*vertex));
    links
}

/// The corners of the first `count` of some triangles, triangle by
/// triangle.
pub open spec fn corners_of(triangles: Seq<Seq<usize>>, count: int) -> Seq<usize>
    decreases count,
{
    if count <= 0 {
        Seq::empty()
    } else {
        corners_of(triangles, count - 1) + triangles[count - 1]
    }
}

/// The corners of the triangles that a face is cut into around `pivot`.
pub open spec fn face_corners(face: Seq<usize>, pivot: int) -> Seq<usize> {
    corners_of(triangulation(face, pivot), face.len() - 2)
}

/// Vertices of one part, each with the part.
pub open spec fn of_part(part: usize, vertices: Seq<usize>) -> Seq<(usize, usize)> {
    Seq::new(vertices.len(), |i: int| (part, vertices[i]))
}

/// For each vertex of a list the part and the vertex of the file that it
/// was made from.
pub open spec fn vertex_sources(vertices: Seq<TriangleVertex>) -> Seq<(usize, usize)> {
    Seq::new(vertices.len(), |v: int| (vertices[v].part, vertices[v].vertex))
}

/// The corners of the triangles that the first `count` faces of material
/// `m` of part `p` are cut into, where `pivots` says for each face around
/// which corner.
pub open spec fn faces_corners(
    faces: Seq<Vec<usize>>,
    p: int,
    m: int,
    pivots: spec_fn(int, int, int) -> int,
    count: int,
) -> Seq<usize>
    decreases count,
{
    if count <= 0 {
        Seq::empty()
    } else {
        faces_corners(faces, p, m, pivots, count - 1) + face_corners(
            faces[count - 1]@,
            pivots(p, m, count - 1),
        )
    }
}

/// The corners of the triangles of one material among the first `count`
/// materials of part `p`.
pub open spec fn part_corners(
    part: Part,
    p: int,
    material: Seq<char>,
    pivots: spec_fn(int, int, int) -> int,
    count: int,
) -> Seq<usize>
    decreases count,
{
    if count <= 0 {
        Seq::empty()
    } else if part.faces.names()[count - 1] == material {
        part_corners(part, p, material, pivots, count - 1) + faces_corners(
            part.faces.values()[count - 1]@,
            p,
            count - 1,
            pivots,
            part.faces.values()[count - 1]@.len() as int,
        )
    } else {
        part_corners(part, p, material, pivots, count - 1)
    }
}

/// The corners of the triangles of one material among the first `count`
/// parts of a file, the disabled parts passed over: for each corner its
/// part and its vertex.
pub open spec fn file_corners(
    file: FileData,
    disabled: Seq<Seq<char>>,
    material: Seq<char>,
    pivots: spec_fn(int, int, int) -> int,
    count: int,
) -> Seq<(usize, usize)>
    decreases count,
{
    if count <= 0 {
        Seq::empty()
    } else if disabled.contains(file.parts.names()[count - 1]) {
        file_corners(file, disabled, material, pivots, count - 1)
    } else {
        file_corners(file, disabled, material, pivots, count - 1) + of_part(
            (count - 1) as usize,
            part_corners(
                file.parts.values()[count - 1],
                count - 1,
                material,
                pivots,
                file.parts.values()[count - 1].faces.names().len() as int,
            ),
        )
    }
}

/// Whether each face of the first `count` materials of part `p` is cut
/// around one of its corners.
pub open spec fn pivots_fit_part(part: Part, p: int, pivots: spec_fn(int, int, int) -> int, count: int) -> bool {
    forall|m: int, f: int|
        0 <= m < count && 0 <= f < part.faces.values()[m]@.len() ==> 0 <= #[trigger] pivots(p, m, f)
            < part.faces.values()[m]@[f]@.len()
}

/// Whether each face of the enabled parts among the first `count` parts is
/// cut around one of its corners.
pub open spec fn pivots_fit(
    file: FileData,
    disabled: Seq<Seq<char>>,
    pivots: spec_fn(int, int, int) -> int,
    count: int,
) -> bool {
    forall|p: int|
        0 <= p < count && !disabled.contains(#[trigger] file.parts.names()[p]) ==> pivots_fit_part(
            file.parts.values()[p],
            p,
            pivots,
            file.parts.values()[p].faces.values().len() as int,
        )
}

/// The corners of faces rest on the pivots of these faces alone.
pub proof fn lemma_faces_corners_agree(
    faces: Seq<Vec<usize>>,
    p: int,
    m: int,
    a: spec_fn(int, int, int) -> int,
    b: spec_fn(int, int, int) -> int,
    count: int,
)
    requires
        forall|x: int, y: int, z: int|
            x == p && y == m && z < count ==> #[trigger] a(x, y, z) == b(x, y, z),
    ensures
        faces_corners(faces, p, m, a, count) == faces_corners(faces, p, m, b, count),
    decreases count,
{
    if count > 0 {
        lemma_faces_corners_agree(faces, p, m, a, b, count - 1);
        assert(a(p, m, count - 1) == b(p, m, count - 1));
    }
}

/// The corners of the materials of a part rest on the pivots of these
/// materials alone.
pub proof fn lemma_part_corners_agree(
    part: Part,
    p: int,
    material: Seq<char>,
    a: spec_fn(int, int, int) -> int,
    b: spec_fn(int, int, int) -> int,
    count: int,
)
    requires
        forall|x: int, y: int, z: int| x == p && y < count ==> #[trigger] a(x, y, z) == b(x, y, z),
    ensures
        part_corners(part, p, material, a, count) == part_corners(part, p, material, b, count),
    decreases count,
{
    if count > 0 {
        lemma_part_corners_agree(part, p, material, a, b, count - 1);
        lemma_faces_corners_agree(
            part.faces.values()[count - 1]@,
            p,
            count - 1,
            a,
            b,
            part.faces.values()[count - 1]@.len() as int,
        );
    }
}

/// The corners of the parts of a file rest on the pivots of these parts
/// alone.
pub proof fn lemma_file_corners_agree(
    file: FileData,
    disabled: Seq<Seq<char>>,
    material: Seq<char>,
    a: spec_fn(int, int, int) -> int,
    b: spec_fn(int, int, int) -> int,
    count: int,
)
    requires
        forall|x: int, y: int, z: int| x < count ==> #[trigger] a(x, y, z) == b(x, y, z),
    ensures
        file_corners(file, disabled, material, a, count) == file_corners(
            file,
            disabled,
            material,
            b,
            count,
        ),
    decreases count,
{
    if count > 0 {
        lemma_file_corners_agree(file, disabled, material, a, b, count - 1);
        lemma_part_corners_agree(
            file.parts.values()[count - 1],
            count - 1,
            material,
            a,
            b,
            file.parts.values()[count - 1].faces.names().len() as int,
        );
    }
}

/// Adds the triangles of one face to a list, each with three vertices of
/// its own.
fn add_face<M: Measure>(
    list: &mut TriangleList,
    import_file: &FileData,
    part_index: usize,
    face: &Vec<usize>,
    measure: &M,
    Ghost(disabled): Ghost<Seq<Seq<char>>>,
) -> (around: Ghost<int>)
    requires
        import_file.parts.well_formed(),
        part_index < import_file.parts.values().len(),
        !disabled.contains(import_file.parts.names()[part_index as int]),
        face_sound(face@, import_file.parts.values()[part_index as int].vertices@.len() as int),
        list_fresh(*old(list), *import_file, disabled),
    ensures
        list_fresh(*final(list), *import_file, disabled),
        final(list).triangles@.len() == old(list).triangles@.len() + face@.len() - 2,
        0 <= around@ < face@.len(),
        vertex_sources(final(list).vertices@) == vertex_sources(old(list).vertices@) + of_part(
            part_index,
            face_corners(face@, around@),
        ),
{
    let part = import_file.parts.value_at(part_index);
    let mut pivot: usize = 0;
    if face.len() > 4 {
        let costs = measure.fan_costs(part_index, face);
        if costs.len() == face.len() {
            pivot = select_fan_pivot(&costs);
        }
    }
    let triangles = triangulate_face(face, pivot);
    let ghost start = old(list).triangles@.len();
    let ghost first_sources = vertex_sources(old(list).vertices@);
    let ghost cut = triangulation(face@, pivot as int);
    assert(vertex_sources(list.vertices@) =~= first_sources + of_part(
        part_index,
        corners_of(cut, 0),
    ));
    let mut t: usize = 0;
    while t < triangles.len()
        invariant
            t <= triangles@.len(),
            triangles@.len() == face@.len() - 2,
            cut == triangulation(face@, pivot as int),
            forall|i: int| 0 <= i < triangles@.len() ==> (#[trigger] triangles@[i])@ == cut[i],
            vertex_sources(list.vertices@) == first_sources + of_part(
                part_index,
                corners_of(cut, t as int),
            ),
            import_file.parts.well_formed(),
            part_index < import_file.parts.values().len(),
            *part == import_file.parts.values()[part_index as int],
            !disabled.contains(import_file.parts.names()[part_index as int]),
            face_sound(face@, part.vertices@.len() as int),
            forall|corner: usize|
                face@.contains(corner) <==> exists|i: int, c: int|
                    0 <= i < triangles@.len() && 0 <= c < 3 && #[trigger] triangles@[i]@[c]
                        == corner,
            list_fresh(*list, *import_file, disabled),
            list.triangles@.len() == start + t,
        decreases triangles@.len() - t,
    {
        let triangle: [usize; 3] = triangles[t];
        let ghost first = list.vertices@.len() as int;
        let ghost entered = vertex_sources(list.vertices@);
        let mut corners: [usize; 3] = [0, 0, 0];
        let mut c: usize = 0;
        assert(vertex_sources(list.vertices@) =~= entered + of_part(
            part_index,
            triangle@.take(0),
        ));
        while c < 3
            invariant
                c <= 3,
                t < triangles@.len(),
                triangle == triangles@[t as int],
                vertex_sources(list.vertices@) == entered + of_part(
                    part_index,
                    triangle@.take(c as int),
                ),
                import_file.parts.well_formed(),
                part_index < import_file.parts.values().len(),
                *part == import_file.parts.values()[part_index as int],
                !disabled.contains(import_file.parts.names()[part_index as int]),
                face_sound(face@, part.vertices@.len() as int),
                forall|corner: usize|
                    face@.contains(corner) <==> exists|i: int, k: int|
                        0 <= i < triangles@.len() && 0 <= k < 3 && #[trigger] triangles@[i]@[k]
                            == corner,
                list.vertices@.len() == first + c,
                first == 3 * list.triangles@.len(),
                list.triangles@.len() == start + t,
                forall|k: int| 0 <= k < c ==> (#[trigger] corners@[k]) == first + k,
                forall|i: int|
                    0 <= i < list.triangles@.len() ==> (#[trigger] list.triangles@[i])@ == seq![
                        (3 * i) as usize,
                        (3 * i + 1) as usize,
                        (3 * i + 2) as usize,
                    ],
                forall|v: int|
                    0 <= v < list.vertices@.len() ==> vertex_from_file(
                        #[trigger] list.vertices@[v],
                        *import_file,
                        disabled,
                    ),
            decreases 3 - c,
        {
            let source: usize = triangle[c];
            proof {
                assert(triangles@[t as int]@[c as int] == source);
                assert(face@.contains(source));
                let i = choose|i: int| 0 <= i < face@.len() && face@[i] == source;
                assert(face@[i] < part.vertices@.len());
            }
            let links = copy_import_links(&part.vertices[source]);
            let ghost before = list.vertices@;
            let ghost filled = corners@;
            corners[c] = list.vertices.len();
            list.vertices.push(TriangleVertex { part: part_index, vertex: source, links });
            proof {
                assert(vertex_sources(list.vertices@) =~= vertex_sources(before).push(
                    (part_index, source),
                ));
                assert(of_part(part_index, triangle@.take(c + 1)) =~= of_part(
                    part_index,
                    triangle@.take(c as int),
                ).push((part_index, source)));
                assert forall|k: int| 0 <= k < c + 1 implies (#[trigger] corners@[k]) == first
                    + k by {
                    if k < c {
                        assert(corners@[k] == filled[k]);
                    }
                }
                assert forall|v: int| 0 <= v < list.vertices@.len() implies vertex_from_file(
                    #[trigger] list.vertices@[v],
                    *import_file,
                    disabled,
                ) by {
                    if v < before.len() {
                        assert(list.vertices@[v] == before[v]);
                    }
                }
            }
            c += 1;
        }
        let ghost held = list.triangles@;
        list.triangles.push(corners);
        proof {
            assert(triangle@.take(3) =~= triangle@);
            assert(triangle@ == cut[t as int]);
            assert(of_part(part_index, corners_of(cut, t + 1)) =~= of_part(
                part_index,
                corners_of(cut, t as int),
            ) + of_part(part_index, triangle@));
            assert forall|i: int| 0 <= i < list.triangles@.len() implies (
            #[trigger] list.triangles@[i])@ == seq![
                (3 * i) as usize,
                (3 * i + 1) as usize,
                (3 * i + 2) as usize,
            ] by {
                if i < held.len() {
                    assert(list.triangles@[i] == held[i]);
                } else {
                    assert(list.triangles@[i] == corners);
                    assert(corners@ =~= seq![
                        first as usize,
                        (first + 1) as usize,
                        (first + 2) as usize,
                    ]);
                }
            }
        }
        t += 1;
    }
    Ghost(pivot as int)
}

/// Whether `long` begins with the names `short`.
pub open spec fn names_extended(short: Seq<Seq<char>>, long: Seq<Seq<char>>) -> bool {
    &&& short.len() <= long.len()
    &&& forall|i: int| 0 <= i < short.len() ==> short[i] == long[i]
}

/// The number of triangles that the first `count` of some faces are cut
/// into: for each face two fewer than it has corners.
pub open spec fn face_triangles(faces: Seq<Vec<usize>>, count: int) -> int
    decreases count,
{
    if count <= 0 {
        0
    } else {
        face_triangles(faces, count - 1) + faces[count - 1]@.len() - 2
    }
}

/// The materials that are known once the first `count` materials of a part
/// have been put in: each goes to the end unless it was known.
pub open spec fn part_materials(known: Seq<Seq<char>>, part: Part, count: int) -> Seq<Seq<char>>
    decreases count,
{
    if count <= 0 {
        known
    } else {
        inserted_names(part_materials(known, part, count - 1), part.faces.names()[count - 1])
    }
}

/// The materials that are known once those of the first `count` parts of a
/// file have been put in, the disabled parts passed over.
pub open spec fn file_materials(
    known: Seq<Seq<char>>,
    file: FileData,
    disabled: Seq<Seq<char>>,
    count: int,
) -> Seq<Seq<char>>
    decreases count,
{
    if count <= 0 {
        known
    } else {
        let before = file_materials(known, file, disabled, count - 1);
        if disabled.contains(file.parts.names()[count - 1]) {
            before
        } else {
            part_materials(
                before,
                file.parts.values()[count - 1],
                file.parts.values()[count - 1].faces.names().len() as int,
            )
        }
    }
}

/// The number of triangles that the faces of one material come to, among
/// the first `count` materials of a part.
pub open spec fn part_triangles(part: Part, material: Seq<char>, count: int) -> int
    decreases count,
{
    if count <= 0 {
        0
    } else if part.faces.names()[count - 1] == material {
        part_triangles(part, material, count - 1) + face_triangles(
            part.faces.values()[count - 1]@,
            part.faces.values()[count - 1]@.len() as int,
        )
    } else {
        part_triangles(part, material, count - 1)
    }
}

/// The number of triangles that the faces of one material come to, among
/// the first `count` parts of a file, the disabled parts passed over.
pub open spec fn file_triangles(
    file: FileData,
    disabled: Seq<Seq<char>>,
    material: Seq<char>,
    count: int,
) -> int
    decreases count,
{
    if count <= 0 {
        0
    } else if disabled.contains(file.parts.names()[count - 1]) {
        file_triangles(file, disabled, material, count - 1)
    } else {
        file_triangles(file, disabled, material, count - 1) + part_triangles(
            file.parts.values()[count - 1],
            material,
            file.parts.values()[count - 1].faces.names().len() as int,
        )
    }
}

/// The materials of the enabled parts of a file, each once, in the order in
/// which the parts first use them.
pub open spec fn model_materials(file: FileData, disabled: Seq<Seq<char>>) -> Seq<Seq<char>> {
    file_materials(Seq::<Seq<char>>::empty(), file, disabled, file.parts.names().len() as int)
}

/// The number of triangles of the first `count` materials of a model.
pub open spec fn listed_triangles(file: FileData, disabled: Seq<Seq<char>>, count: int) -> int
    decreases count,
{
    if count <= 0 {
        0
    } else {
        listed_triangles(file, disabled, count - 1) + file_triangles(
            file,
            disabled,
            model_materials(file, disabled)[count - 1],
            file.parts.names().len() as int,
        )
    }
}

/// The number of triangles that the faces of the enabled parts of a file
/// are cut into.
pub open spec fn model_triangles(file: FileData, disabled: Seq<Seq<char>>) -> int {
    listed_triangles(file, disabled, model_materials(file, disabled).len() as int)
}

/// Whether the lists are those of the enabled parts of a file: one for each
/// material that these use, in the order of first use, placed among
/// `materials` where that material stands, with as many triangles as the
/// faces of the material are cut into.
pub open spec fn lists_match(
    places: Seq<usize>,
    lists: Seq<TriangleList>,
    file: FileData,
    disabled: Seq<Seq<char>>,
    materials: Seq<Seq<char>>,
) -> bool {
    let mine = model_materials(file, disabled);
    &&& places.len() == mine.len()
    &&& lists.len() == mine.len()
    &&& forall|i: int|
        0 <= i < mine.len() ==> (#[trigger] places[i]) < materials.len()
            && materials[places[i] as int] == mine[i]
    &&& forall|i: int|
        0 <= i < mine.len() ==> (#[trigger] lists[i]).triangles@.len() == file_triangles(
            file,
            disabled,
            mine[i],
            file.parts.names().len() as int,
        )
}

/// Lists that match among some materials match among more.
pub proof fn lemma_lists_match_extended(
    places: Seq<usize>,
    lists: Seq<TriangleList>,
    file: FileData,
    disabled: Seq<Seq<char>>,
    materials: Seq<Seq<char>>,
    more: Seq<Seq<char>>,
)
    requires
        lists_match(places, lists, file, disabled, materials),
        names_extended(materials, more),
    ensures
        lists_match(places, lists, file, disabled, more),
{
    let mine = model_materials(file, disabled);
    assert forall|i: int| 0 <= i < mine.len() implies (#[trigger] places[i]) < more.len()
        && more[places[i] as int] == mine[i] by {
        assert(materials[places[i] as int] == more[places[i] as int]);
    }
}

/// A material that is unknown after some materials of a part was unknown
/// before, and none of these has faces of it.
pub proof fn lemma_part_absent(known: Seq<Seq<char>>, part: Part, material: Seq<char>, count: int)
    requires
        !part_materials(known, part, count).contains(material),
    ensures
        part_triangles(part, material, count) == 0,
        !known.contains(material),
    decreases count,
{
    if count > 0 {
        let before = part_materials(known, part, count - 1);
        let name = part.faces.names()[count - 1];
        let after = inserted_names(before, name);
        if before.contains(material) {
            let i = choose|i: int| 0 <= i < before.len() && before[i] == material;
            assert(after[i] == material);
        }
        if name == material {
            if !before.contains(name) {
                assert(after[before.len() as int] == material);
            }
        }
        lemma_part_absent(known, part, material, count - 1);
    }
}

/// A material that is unknown after some parts of a file was unknown
/// before, and none of these has faces of it.
pub proof fn lemma_file_absent(
    known: Seq<Seq<char>>,
    file: FileData,
    disabled: Seq<Seq<char>>,
    material: Seq<char>,
    count: int,
)
    requires
        !file_materials(known, file, disabled, count).contains(material),
    ensures
        file_triangles(file, disabled, material, count) == 0,
        !known.contains(material),
    decreases count,
{
    if count > 0 {
        let before = file_materials(known, file, disabled, count - 1);
        if !disabled.contains(file.parts.names()[count - 1]) {
            let part = file.parts.values()[count - 1];
            lemma_part_absent(before, part, material, part.faces.names().len() as int);
        }
        lemma_file_absent(known, file, disabled, material, count - 1);
    }
}

/// A material that is unknown after some materials of a part has no
/// corner among them.
pub proof fn lemma_part_corners_absent(
    known: Seq<Seq<char>>,
    part: Part,
    p: int,
    material: Seq<char>,
    pivots: spec_fn(int, int, int) -> int,
    count: int,
)
    requires
        !part_materials(known, part, count).contains(material),
    ensures
        part_corners(part, p, material, pivots, count) == Seq::<usize>::empty(),
        !known.contains(material),
    decreases count,
{
    if count > 0 {
        let before = part_materials(known, part, count - 1);
        let name = part.faces.names()[count - 1];
        let after = inserted_names(before, name);
        if before.contains(material) {
            let i = choose|i: int| 0 <= i < before.len() && before[i] == material;
            assert(after[i] == material);
        }
        if name == material {
            if !before.contains(name) {
                assert(after[before.len() as int] == material);
            }
        }
        lemma_part_corners_absent(known, part, p, material, pivots, count - 1);
    }
}

/// A material that is unknown after some parts of a file has no corner
/// among them.
pub proof fn lemma_file_corners_absent(
    known: Seq<Seq<char>>,
    file: FileData,
    disabled: Seq<Seq<char>>,
    material: Seq<char>,
    pivots: spec_fn(int, int, int) -> int,
    count: int,
)
    requires
        !file_materials(known, file, disabled, count).contains(material),
    ensures
        file_corners(file, disabled, material, pivots, count) == Seq::<(usize, usize)>::empty(),
        !known.contains(material),
    decreases count,
{
    if count > 0 {
        let before = file_materials(known, file, disabled, count - 1);
        if !disabled.contains(file.parts.names()[count - 1]) {
            let part = file.parts.values()[count - 1];
            lemma_part_corners_absent(
                before,
                part,
                count - 1,
                material,
                pivots,
                part.faces.names().len() as int,
            );
            assert(of_part((count - 1) as usize, Seq::<usize>::empty()) =~= Seq::<
                (usize, usize),
            >::empty());
        }
        lemma_file_corners_absent(known, file, disabled, material, pivots, count - 1);
    }
}

/// Whether the vertices of the lists are the corners of the faces of the
/// enabled parts of a file, material by material, each face cut into
/// triangles around the corner that `pivots` names.
pub open spec fn lists_cut(
    lists: Seq<TriangleList>,
    file: FileData,
    disabled: Seq<Seq<char>>,
    pivots: spec_fn(int, int, int) -> int,
) -> bool {
    let mine = model_materials(file, disabled);
    &&& pivots_fit(file, disabled, pivots, file.parts.names().len() as int)
    &&& lists.len() == mine.len()
    &&& forall|i: int|
        0 <= i < mine.len() ==> vertex_sources((#[trigger] lists[i]).vertices@) == file_corners(
            file,
            disabled,
            mine[i],
            pivots,
            file.parts.names().len() as int,
        )
}

/// Whether list `i` stands for material `mine[i]`, at the place that the
/// material has among `items`.
pub open spec fn lists_placed(keys: Seq<usize>, items: Seq<Seq<char>>, mine: Seq<Seq<char>>) -> bool {
    &&& keys.len() == mine.len()
    &&& keys.no_duplicates()
    &&& mine.no_duplicates()
    &&& forall|i: int|
        0 <= i < keys.len() ==> (#[trigger] keys[i]) < items.len() && items[keys[i] as int]
            == mine[i]
}

/// Putting a material in keeps the lists in place and gives the material a
/// list where it had none.
proof fn lemma_place_material(
    keys: Seq<usize>,
    items: Seq<Seq<char>>,
    mine: Seq<Seq<char>>,
    name: Seq<char>,
    placed: (usize, bool),
    slot: (usize, bool),
)
    requires
        lists_placed(keys, items, mine),
        placed.1 == !items.contains(name),
        placed.1 ==> placed.0 == items.len(),
        !placed.1 ==> holds_once(items, name, placed.0 as int),
        slot.1 == !keys.contains(placed.0),
        slot.1 ==> slot.0 == keys.len(),
        !slot.1 ==> holds_once(keys, placed.0, slot.0 as int),
    ensures
        slot.1 == !mine.contains(name),
        lists_placed(
            if slot.1 {
                keys.push(placed.0)
            } else {
                keys
            },
            inserted_names(items, name),
            inserted_names(mine, name),
        ),
        slot.0 < inserted_names(mine, name).len(),
        inserted_names(mine, name)[slot.0 as int] == name,
{
    let keys_after = if slot.1 {
        keys.push(placed.0)
    } else {
        keys
    };
    let items_after = inserted_names(items, name);
    let mine_after = inserted_names(mine, name);
    if slot.1 {
        if mine.contains(name) {
            let i = choose|i: int| 0 <= i < mine.len() && mine[i] == name;
            assert(items[keys[i] as int] == name);
            assert(items.contains(name));
            assert(keys[i] == placed.0);
            assert(keys.contains(placed.0));
        }
        lemma_push_unique(mine, name);
        assert forall|i: int, j: int|
            0 <= i < keys_after.len() && 0 <= j < keys_after.len() && i != j implies keys_after[i]
            != keys_after[j] by {
            if i < keys.len() {
                assert(keys.contains(keys[i]));
            }
            if j < keys.len() {
                assert(keys.contains(keys[j]));
            }
        }
    } else {
        assert(keys[slot.0 as int] == placed.0);
        assert(!placed.1);
        assert(mine[slot.0 as int] == name);
    }
    assert forall|i: int| 0 <= i < keys_after.len() implies (#[trigger] keys_after[i])
        < items_after.len() && items_after[keys_after[i] as int] == mine_after[i] by {
        if i < keys.len() {
            assert(keys_after[i] == keys[i]);
            assert(items_after[keys[i] as int] == items[keys[i] as int]);
        }
    }
}

/// Makes the triangle lists of a model from the faces of the parts of its
/// file that are not disabled: one list for each material, every face cut
/// into triangles, every triangle with three vertices of its own. A
/// material that is new is appended to the materials of the compilation.
/// The vertices of a list are the corners of the triangles of its
/// material, in the order of the parts, the faces and the triangles.
/// Around which corner a face of five or more is cut is measured; the
/// number of triangles is not.
pub fn create_triangle_lists<M: Measure>(
    import_file: &FileData,
    materials: &mut IndexSet<String>,
    processed_model: &Model,
    measure: &M,
) -> (lists: TriangleLists)
    requires
        import_file.well_formed(),
    ensures
        name_set_items(*final(materials)) == file_materials(
            name_set_items(*old(materials)),
            *import_file,
            name_set_items(processed_model.disabled_parts),
            import_file.parts.names().len() as int,
        ),
        lists_match(
            lists.materials@,
            lists.lists@,
            *import_file,
            name_set_items(processed_model.disabled_parts),
            name_set_items(*final(materials)),
        ),
        lists.materials@.no_duplicates(),
        exists|pivots: spec_fn(int, int, int) -> int| #[trigger]
            lists_cut(
                lists.lists@,
                *import_file,
                name_set_items(processed_model.disabled_parts),
                pivots,
            ),
        names_extended(name_set_items(*old(materials)), name_set_items(*final(materials))),
        forall|i: int|
            0 <= i < lists.lists@.len() ==> list_fresh(
                #[trigger] lists.lists@[i],
                *import_file,
                name_set_items(processed_model.disabled_parts),
            ),
{
    let ghost disabled = name_set_items(processed_model.disabled_parts);
    let ghost first_materials = name_set_items(*materials);
    let ghost mut mine: Seq<Seq<char>> = Seq::empty();
    let ghost mut pivots: spec_fn(int, int, int) -> int = |x: int, y: int, z: int| 0int;
    let mut keys = index_set_new();
    let mut lists: Vec<TriangleList> = Vec::new();
    let parts: usize = import_file.parts.len();
    let mut p: usize = 0;
    while p < parts
        invariant
            p <= parts,
            import_file.well_formed(),
            parts == import_file.parts.names().len(),
            disabled == name_set_items(processed_model.disabled_parts),
            names_extended(first_materials, name_set_items(*materials)),
            name_set_items(*materials) == file_materials(
                first_materials,
                *import_file,
                disabled,
                p as int,
            ),
            mine == file_materials(Seq::<Seq<char>>::empty(), *import_file, disabled, p as int),
            lists_placed(index_set_items(keys), name_set_items(*materials), mine),
            index_set_items(keys).len() == lists@.len(),
            forall|i: int|
                0 <= i < lists@.len() ==> (#[trigger] lists@[i]).triangles@.len() == file_triangles(
                    *import_file,
                    disabled,
                    mine[i],
                    p as int,
                ),
            pivots_fit(*import_file, disabled, pivots, p as int),
            forall|i: int|
                0 <= i < lists@.len() ==> vertex_sources((#[trigger] lists@[i]).vertices@)
                    == file_corners(*import_file, disabled, mine[i], pivots, p as int),
            forall|i: int|
                0 <= i < lists@.len() ==> list_fresh(#[trigger] lists@[i], *import_file, disabled),
        decreases parts - p,
    {
        let part_name = import_file.parts.name_at(p);
        if name_set_get_index_of(&processed_model.disabled_parts, part_name.as_str()).is_none() {
            let part = import_file.parts.value_at(p);
            let material_count: usize = part.faces.len();
            let ghost base_items = name_set_items(*materials);
            let ghost base = mine;
            let ghost part_pivots = pivots;
            let mut m: usize = 0;
            proof {
                assert forall|i: int| 0 <= i < lists@.len() implies vertex_sources(
                    (#[trigger] lists@[i]).vertices@,
                ) == file_corners(*import_file, disabled, mine[i], pivots, p as int) + of_part(
                    p,
                    part_corners(*part, p as int, mine[i], pivots, 0),
                ) by {
                    assert(of_part(p, Seq::<usize>::empty()) =~= Seq::<(usize, usize)>::empty());
                    assert(file_corners(*import_file, disabled, mine[i], pivots, p as int)
                        + Seq::<(usize, usize)>::empty() =~= file_corners(
                        *import_file,
                        disabled,
                        mine[i],
                        pivots,
                        p as int,
                    ));
                }
            }
            while m < material_count
                invariant
                    m <= material_count,
                    p < parts,
                    import_file.well_formed(),
                    parts == import_file.parts.names().len(),
                    *part == import_file.parts.values()[p as int],
                    material_count == part.faces.names().len(),
                    part.faces.well_formed(),
                    disabled == name_set_items(processed_model.disabled_parts),
                    !disabled.contains(import_file.parts.names()[p as int]),
                    names_extended(first_materials, name_set_items(*materials)),
                    base == file_materials(
                        Seq::<Seq<char>>::empty(),
                        *import_file,
                        disabled,
                        p as int,
                    ),
                    name_set_items(*materials) == part_materials(base_items, *part, m as int),
                    mine == part_materials(base, *part, m as int),
                    lists_placed(index_set_items(keys), name_set_items(*materials), mine),
                    index_set_items(keys).len() == lists@.len(),
                    forall|i: int|
                        0 <= i < lists@.len() ==> (#[trigger] lists@[i]).triangles@.len()
                            == file_triangles(*import_file, disabled, mine[i], p as int)
                            + part_triangles(*part, mine[i], m as int),
                    forall|x: int, y: int, z: int|
                        x != p ==> #[trigger] pivots(x, y, z) == part_pivots(x, y, z),
                    pivots_fit(*import_file, disabled, part_pivots, p as int),
                    pivots_fit_part(*part, p as int, pivots, m as int),
                    forall|i: int|
                        0 <= i < lists@.len() ==> vertex_sources((#[trigger] lists@[i]).vertices@)
                            == file_corners(*import_file, disabled, mine[i], pivots, p as int)
                            + of_part(p, part_corners(*part, p as int, mine[i], pivots, m as int)),
                    forall|i: int|
                        0 <= i < lists@.len() ==> list_fresh(
                            #[trigger] lists@[i],
                            *import_file,
                            disabled,
                        ),
                decreases material_count - m,
            {
                let material = part.faces.name_at(m);
                let faces = part.faces.value_at(m);
                let ghost known = name_set_items(*materials);
                let ghost key_items = index_set_items(keys);
                let ghost mine_before = mine;
                let placed = name_set_insert_full(materials, material.clone());
                let slot = index_set_insert_full(&mut keys, placed.0);
                proof {
                    lemma_place_material(key_items, known, mine_before, material@, placed, slot);
                    mine = inserted_names(mine_before, material@);
                    assert(name_set_items(*materials) == inserted_names(known, material@));
                    assert(index_set_items(keys) == if slot.1 {
                        key_items.push(placed.0)
                    } else {
                        key_items
                    });
                    if slot.1 {
                        lemma_part_absent(base, *part, material@, m as int);
                        lemma_file_absent(
                            Seq::<Seq<char>>::empty(),
                            *import_file,
                            disabled,
                            material@,
                            p as int,
                        );
                        lemma_part_corners_absent(
                            base,
                            *part,
                            p as int,
                            material@,
                            pivots,
                            m as int,
                        );
                        lemma_file_corners_absent(
                            Seq::<Seq<char>>::empty(),
                            *import_file,
                            disabled,
                            material@,
                            pivots,
                            p as int,
                        );
                        assert(of_part(p, Seq::<usize>::empty()) =~= Seq::<(usize, usize)>::empty());
                    }
                }
                if slot.1 {
                    lists.push(TriangleList { vertices: Vec::new(), triangles: Vec::new() });
                }
                let position: usize = slot.0;
                proof {
                    assert(crate::import::part_sound(
                        import_file.parts.values()[p as int],
                        import_file.skeleton.values().len() as int,
                    ));
                    assert(crate::import::faces_sound(
                        part.faces.values()[m as int]@,
                        part.vertices@.len() as int,
                    ));
                    assert forall|i: int| 0 <= i < lists@.len() implies (
                    #[trigger] lists@[i]).triangles@.len() == file_triangles(
                        *import_file,
                        disabled,
                        mine[i],
                        p as int,
                    ) + part_triangles(*part, mine[i], m as int) by {
                        if i < mine_before.len() {
                            assert(mine[i] == mine_before[i]);
                        }
                    }
                    assert forall|i: int| 0 <= i < lists@.len() implies vertex_sources(
                        (#[trigger] lists@[i]).vertices@,
                    ) == file_corners(*import_file, disabled, mine[i], pivots, p as int) + of_part(
                        p,
                        part_corners(*part, p as int, mine[i], pivots, m as int),
                    ) by {
                        if i < mine_before.len() {
                            assert(mine[i] == mine_before[i]);
                        } else {
                            assert(vertex_sources(lists@[i].vertices@) =~= Seq::<
                                (usize, usize),
                            >::empty());
                            assert(Seq::<(usize, usize)>::empty() + Seq::<
                                (usize, usize),
                            >::empty() =~= Seq::<(usize, usize)>::empty());
                        }
                    }
                }
                let ghost start = lists@;
                let ghost face_pivots = pivots;
                proof {
                    assert(vertex_sources(lists@[position as int].vertices@) =~= vertex_sources(
                        start[position as int].vertices@,
                    ) + of_part(p, faces_corners(faces@, p as int, m as int, pivots, 0)));
                }
                let mut f: usize = 0;
                while f < faces.len()
                    invariant
                        f <= faces@.len(),
                        p < parts,
                        import_file.well_formed(),
                        parts == import_file.parts.names().len(),
                        *part == import_file.parts.values()[p as int],
                        crate::import::faces_sound(faces@, part.vertices@.len() as int),
                        !disabled.contains(import_file.parts.names()[p as int]),
                        position < lists@.len(),
                        lists@.len() == start.len(),
                        index_set_items(keys).len() == lists@.len(),
                        forall|i: int|
                            0 <= i < lists@.len() && i != position ==> (#[trigger] lists@[i])
                                == start[i],
                        lists@[position as int].triangles@.len() == start[position as int].triangles@.len()
                            + face_triangles(faces@, f as int),
                        forall|x: int, y: int, z: int|
                            !(x == p && y == m) ==> #[trigger] pivots(x, y, z) == face_pivots(
                                x,
                                y,
                                z,
                            ),
                        forall|g: int|
                            0 <= g < f ==> 0 <= #[trigger] pivots(p as int, m as int, g)
                                < faces@[g]@.len(),
                        vertex_sources(lists@[position as int].vertices@) == vertex_sources(
                            start[position as int].vertices@,
                        ) + of_part(
                            p,
                            faces_corners(faces@, p as int, m as int, pivots, f as int),
                        ),
                        forall|i: int|
                            0 <= i < lists@.len() ==> list_fresh(
                                #[trigger] lists@[i],
                                *import_file,
                                disabled,
                            ),
                    decreases faces@.len() - f,
                {
                    let ghost before = lists@;
                    let ghost held = pivots;
                    let around = add_face(
                        &mut lists[position],
                        import_file,
                        p,
                        &faces[f],
                        measure,
                        Ghost(disabled),
                    );
                    proof {
                        assert forall|i: int| 0 <= i < lists@.len() implies list_fresh(
                            #[trigger] lists@[i],
                            *import_file,
                            disabled,
                        ) by {
                            if i != position {
                                assert(lists@[i] == before[i]);
                            }
                        }
                        assert forall|i: int| 0 <= i < lists@.len() && i != position implies (
                        #[trigger] lists@[i]) == start[i] by {
                            assert(lists@[i] == before[i]);
                        }
                        pivots = |x: int, y: int, z: int|
                            if x == p && y == m && z == f {
                                around@
                            } else {
                                held(x, y, z)
                            };
                        lemma_faces_corners_agree(
                            faces@,
                            p as int,
                            m as int,
                            held,
                            pivots,
                            f as int,
                        );
                        assert(vertex_sources(before[position as int].vertices@) + of_part(
                            p,
                            face_corners(faces@[f as int]@, around@),
                        ) =~= vertex_sources(start[position as int].vertices@) + of_part(
                            p,
                            faces_corners(faces@, p as int, m as int, pivots, f + 1),
                        ));
                    }
                    f += 1;
                }
                proof {
                    assert forall|i: int| 0 <= i < lists@.len() implies (
                    #[trigger] lists@[i]).triangles@.len() == file_triangles(
                        *import_file,
                        disabled,
                        mine[i],
                        p as int,
                    ) + part_triangles(*part, mine[i], m + 1) by {
                        if i != position {
                            assert(mine[i] != mine[position as int]);
                        }
                    }
                    assert forall|i: int| 0 <= i < lists@.len() implies vertex_sources(
                        (#[trigger] lists@[i]).vertices@,
                    ) == file_corners(*import_file, disabled, mine[i], pivots, p as int) + of_part(
                        p,
                        part_corners(*part, p as int, mine[i], pivots, m + 1),
                    ) by {
                        lemma_file_corners_agree(
                            *import_file,
                            disabled,
                            mine[i],
                            face_pivots,
                            pivots,
                            p as int,
                        );
                        lemma_part_corners_agree(
                            *part,
                            p as int,
                            mine[i],
                            face_pivots,
                            pivots,
                            m as int,
                        );
                        let whole = file_corners(*import_file, disabled, mine[i], pivots, p as int);
                        let so_far = part_corners(*part, p as int, mine[i], pivots, m as int);
                        if i != position {
                            assert(mine[i] != mine[position as int]);
                            assert(lists@[i] == start[i]);
                        } else {
                            let added = faces_corners(
                                faces@,
                                p as int,
                                m as int,
                                pivots,
                                faces@.len() as int,
                            );
                            assert(of_part(p, so_far + added) =~= of_part(p, so_far) + of_part(
                                p,
                                added,
                            ));
                            assert((whole + of_part(p, so_far)) + of_part(p, added) =~= whole + (
                            of_part(p, so_far) + of_part(p, added)));
                        }
                    }
                    assert(pivots_fit_part(*part, p as int, pivots, m + 1)) by {
                        assert forall|n: int, g: int|
                            0 <= n < m + 1 && 0 <= g < part.faces.values()[n]@.len() implies 0
                            <= #[trigger] pivots(p as int, n, g) < part.faces.values()[n]@[g]@.len() by {
                            if n < m {
                                assert(pivots(p as int, n, g) == face_pivots(p as int, n, g));
                            }
                        }
                    }
                }
                m += 1;
            }
            proof {
                assert(pivots_fit(*import_file, disabled, pivots, p + 1)) by {
                    assert forall|q: int|
                        0 <= q < p + 1 && !disabled.contains(
                            #[trigger] import_file.parts.names()[q],
                        ) implies pivots_fit_part(
                        import_file.parts.values()[q],
                        q,
                        pivots,
                        import_file.parts.values()[q].faces.values().len() as int,
                    ) by {
                        if q < p {
                            assert(pivots_fit_part(
                                import_file.parts.values()[q],
                                q,
                                part_pivots,
                                import_file.parts.values()[q].faces.values().len() as int,
                            ));
                            assert forall|n: int, g: int|
                                0 <= n < import_file.parts.values()[q].faces.values().len() && 0
                                    <= g < import_file.parts.values()[q].faces.values()[n]@.len()
                                implies 0 <= #[trigger] pivots(q, n, g)
                                < import_file.parts.values()[q].faces.values()[n]@[g]@.len() by {
                                assert(pivots(q, n, g) == part_pivots(q, n, g));
                            }
                        }
                    }
                }
            }
        }
        p += 1;
    }
    let mut material_positions: Vec<usize> = Vec::new();
    let count: usize = index_set_len(&keys);
    let mut i: usize = 0;
    while i < count
        invariant
            i <= count,
            count == index_set_items(keys).len(),
            material_positions@.len() == i,
            forall|k: int|
                0 <= k < i ==> (#[trigger] material_positions@[k]) == index_set_items(keys)[k],
        decreases count - i,
    {
        let key: usize = match index_set_get_index(&keys, i) {
            Some(key) => key,
            None => vstd::pervasive::unreached(),
        };
        material_positions.push(key);
        i += 1;
    }
    assert(material_positions@ =~= index_set_items(keys));
    assert(lists_cut(lists@, *import_file, disabled, pivots));
    TriangleLists { materials: material_positions, lists }
}

} // verus!
