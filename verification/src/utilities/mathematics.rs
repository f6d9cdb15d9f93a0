//! Axis directions and the rotations between axis conventions.
//!
//! A file states which of the six axis directions it takes for "up" and for
//! "forward". The rotation that carries such a convention into the engine's is
//! a signed permutation matrix, so it is held and proved here in integers.

use vstd::prelude::*;

verus! {

/// One of the six directions along a coordinate axis.
#[derive(Clone, Copy, Debug, PartialEq, Eq, Structural)]
pub enum AxisDirection {
    PositiveX,
    NegativeX,
    PositiveY,
    NegativeY,
    PositiveZ,
    NegativeZ,
}

/// A vector with integer components.
#[derive(Clone, Copy, Debug, PartialEq, Eq, Structural)]
pub struct AxisVector {
    pub x: i8,
    pub y: i8,
    pub z: i8,
}

/// A rotation given by its three columns: where the x, y and z unit vectors go.
#[derive(Clone, Copy, Debug, PartialEq, Eq, Structural)]
pub struct SpaceTransform {
    pub x_axis: AxisVector,
    pub y_axis: AxisVector,
    pub z_axis: AxisVector,
}

/// The unit vector of a direction.
pub open spec fn direction_vector(direction: AxisDirection) -> AxisVector {
    match direction {
        AxisDirection::PositiveX => AxisVector { x: 1, y: 0, z: 0 },
        AxisDirection::NegativeX => AxisVector { x: -1i8, y: 0, z: 0 },
        AxisDirection::PositiveY => AxisVector { x: 0, y: 1, z: 0 },
        AxisDirection::NegativeY => AxisVector { x: 0, y: -1i8, z: 0 },
        AxisDirection::PositiveZ => AxisVector { x: 0, y: 0, z: 1 },
        AxisDirection::NegativeZ => AxisVector { x: 0, y: 0, z: -1i8 },
    }
}

/// The product of two components, each of them -1, 0 or 1.
pub open spec fn unit_mul(a: int, b: int) -> int {
    if a == 0 || b == 0 {
        0
    } else if a == b {
        1
    } else {
        -1
    }
}

/// The components of the cross product `a × b` of two vectors with components
/// out of -1, 0 and 1.
pub open spec fn cross_product(a: AxisVector, b: AxisVector) -> (int, int, int) {
    (
        unit_mul(a.y as int, b.z as int) - unit_mul(a.z as int, b.y as int),
        unit_mul(a.z as int, b.x as int) - unit_mul(a.x as int, b.z as int),
        unit_mul(a.x as int, b.y as int) - unit_mul(a.y as int, b.x as int),
    )
}

/// The dot product `a · b` of two vectors with components out of -1, 0 and 1.
pub open spec fn dot_product(a: AxisVector, b: AxisVector) -> int {
    unit_mul(a.x as int, b.x as int) + unit_mul(a.y as int, b.y as int) + unit_mul(
        a.z as int,
        b.z as int,
    )
}

/// Whether two directions lie along the same axis.
pub open spec fn same_axis(a: AxisDirection, b: AxisDirection) -> bool {
    match a {
        AxisDirection::PositiveX | AxisDirection::NegativeX => b == AxisDirection::PositiveX || b
            == AxisDirection::NegativeX,
        AxisDirection::PositiveY | AxisDirection::NegativeY => b == AxisDirection::PositiveY || b
            == AxisDirection::NegativeY,
        AxisDirection::PositiveZ | AxisDirection::NegativeZ => b == AxisDirection::PositiveZ || b
            == AxisDirection::NegativeZ,
    }
}

/// The rotation whose columns are `forward`, `up × forward` and `up`.
pub open spec fn space_transform(up: AxisDirection, forward: AxisDirection) -> SpaceTransform {
    let f = direction_vector(forward);
    let u = direction_vector(up);
    let left = cross_product(u, f);
    SpaceTransform {
        x_axis: f,
        y_axis: AxisVector { x: left.0 as i8, y: left.1 as i8, z: left.2 as i8 },
        z_axis: u,
    }
}

/// The transpose of `m`.
pub open spec fn transpose(m: SpaceTransform) -> SpaceTransform {
    SpaceTransform {
        x_axis: AxisVector { x: m.x_axis.x, y: m.y_axis.x, z: m.z_axis.x },
        y_axis: AxisVector { x: m.x_axis.y, y: m.y_axis.y, z: m.z_axis.y },
        z_axis: AxisVector { x: m.x_axis.z, y: m.y_axis.z, z: m.z_axis.z },
    }
}

/// The image of `v` under `m`: each component is the dot product of a row of
/// `m` with `v`.
pub open spec fn apply(m: SpaceTransform, v: AxisVector) -> (int, int, int) {
    (
        dot_product(transpose(m).x_axis, v),
        dot_product(transpose(m).y_axis, v),
        dot_product(transpose(m).z_axis, v),
    )
}

/// Whether the columns of `m` are unit vectors at right angles that form a
/// right-handed frame.
pub open spec fn is_rotation(m: SpaceTransform) -> bool {
    &&& dot_product(m.x_axis, m.x_axis) == 1
    &&& dot_product(m.y_axis, m.y_axis) == 1
    &&& dot_product(m.z_axis, m.z_axis) == 1
    &&& dot_product(m.x_axis, m.y_axis) == 0
    &&& dot_product(m.x_axis, m.z_axis) == 0
    &&& dot_product(m.y_axis, m.z_axis) == 0
    &&& cross_product(m.x_axis, m.y_axis) == (m.z_axis.x as int, m.z_axis.y as int, m.z_axis.z as int)
}

impl Default for AxisDirection {
    fn default() -> (direction: Self)
        ensures
            direction == AxisDirection::PositiveX,
    {
        AxisDirection::PositiveX
    }
}

impl AxisDirection {
    /// The unit vector of this direction.
    pub fn as_vector(self) -> (vector: AxisVector)
        ensures
            vector == direction_vector(self),
    {
        match self {
            AxisDirection::PositiveX => AxisVector { x: 1, y: 0, z: 0 },
            AxisDirection::NegativeX => AxisVector { x: -1, y: 0, z: 0 },
            AxisDirection::PositiveY => AxisVector { x: 0, y: 1, z: 0 },
            AxisDirection::NegativeY => AxisVector { x: 0, y: -1, z: 0 },
            AxisDirection::PositiveZ => AxisVector { x: 0, y: 0, z: 1 },
            AxisDirection::NegativeZ => AxisVector { x: 0, y: 0, z: -1 },
        }
    }

    /// Whether the cross product of the two directions vanishes, which is the
    /// case exactly when both lie along one axis.
    pub fn is_parallel(self, other: Self) -> (parallel: bool)
        ensures
            parallel == (cross_product(direction_vector(self), direction_vector(other)) == (
                0int,
                0int,
                0int,
            )),
            parallel == same_axis(self, other),
    {
        proof {
            lemma_parallel_same_axis(self, other);
        }
        let a = self.as_vector();
        let b = other.as_vector();
        let cx: i8 = unit_product(a.y, b.z) - unit_product(a.z, b.y);
        let cy: i8 = unit_product(a.z, b.x) - unit_product(a.x, b.z);
        let cz: i8 = unit_product(a.x, b.y) - unit_product(a.y, b.x);
        cx == 0 && cy == 0 && cz == 0
    }
}

/// The product of two numbers out of -1, 0 and 1.
fn unit_product(a: i8, b: i8) -> (product: i8)
    requires
        -1 <= a <= 1,
        -1 <= b <= 1,
    ensures
        product == unit_mul(a as int, b as int),
{
    if a == 0 || b == 0 {
        0
    } else if a == b {
        1
    } else {
        -1
    }
}

impl SpaceTransform {
    /// The inverse rotation. For a rotation it is the transpose.
    pub fn inverse(self) -> (inverted: SpaceTransform)
        ensures
            inverted == transpose(self),
    {
        SpaceTransform {
            x_axis: AxisVector { x: self.x_axis.x, y: self.y_axis.x, z: self.z_axis.x },
            y_axis: AxisVector { x: self.x_axis.y, y: self.y_axis.y, z: self.z_axis.y },
            z_axis: AxisVector { x: self.x_axis.z, y: self.y_axis.z, z: self.z_axis.z },
        }
    }
}

/// The rotation from a file's axis convention: its columns are `forward`,
/// `up × forward` and `up`.
pub fn create_space_transform(up: AxisDirection, forward: AxisDirection) -> (transform:
    SpaceTransform)
    requires
        !same_axis(forward, up),
    ensures
        transform == space_transform(up, forward),
        is_rotation(transform),
{
    proof {
        lemma_space_transform_rotation(up, forward);
    }
    let f = forward.as_vector();
    let u = up.as_vector();
    let left = AxisVector {
        x: unit_product(u.y, f.z) - unit_product(u.z, f.y),
        y: unit_product(u.z, f.x) - unit_product(u.x, f.z),
        z: unit_product(u.x, f.y) - unit_product(u.y, f.x),
    };
    SpaceTransform { x_axis: f, y_axis: left, z_axis: u }
}

/// On components out of -1, 0 and 1, `unit_mul` is multiplication.
pub proof fn lemma_unit_mul(a: int, b: int)
    by (nonlinear_arith)
    requires
        -1 <= a <= 1,
        -1 <= b <= 1,
    ensures
        unit_mul(a, b) == a * b,
{
}

/// The cross product of two directions vanishes exactly when they lie along
/// one axis.
pub proof fn lemma_parallel_same_axis(a: AxisDirection, b: AxisDirection)
    ensures
        same_axis(a, b) == (cross_product(direction_vector(a), direction_vector(b)) == (
            0int,
            0int,
            0int,
        )),
{
    match a {
        AxisDirection::PositiveX => {},
        AxisDirection::NegativeX => {},
        AxisDirection::PositiveY => {},
        AxisDirection::NegativeY => {},
        AxisDirection::PositiveZ => {},
        AxisDirection::NegativeZ => {},
    }
}

/// Being parallel is symmetric, and every direction is parallel to itself.
pub proof fn lemma_parallel_symmetric(a: AxisDirection, b: AxisDirection)
    ensures
        same_axis(a, b) == same_axis(b, a),
        same_axis(a, a),
{
}

/// For directions that are not parallel the space transform is a rotation,
/// and its transpose undoes it: applying the transpose to a column gives the
/// unit vector that the column is the image of.
pub proof fn lemma_space_transform_rotation(up: AxisDirection, forward: AxisDirection)
    requires
        !same_axis(forward, up),
    ensures
        is_rotation(space_transform(up, forward)),
        is_rotation(transpose(space_transform(up, forward))),
        apply(transpose(space_transform(up, forward)), space_transform(up, forward).x_axis) == (
            1int,
            0int,
            0int,
        ),
        apply(transpose(space_transform(up, forward)), space_transform(up, forward).y_axis) == (
            0int,
            1int,
            0int,
        ),
        apply(transpose(space_transform(up, forward)), space_transform(up, forward).z_axis) == (
            0int,
            0int,
            1int,
        ),
{
}

} // verus!
