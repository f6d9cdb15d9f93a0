use source_wrench::utilities::mathematics::{
    create_space_transform, AxisDirection, AxisVector, SpaceTransform,
};

const ALL: [AxisDirection; 6] = [
    AxisDirection::PositiveX,
    AxisDirection::NegativeX,
    AxisDirection::PositiveY,
    AxisDirection::NegativeY,
    AxisDirection::PositiveZ,
    AxisDirection::NegativeZ,
];

#[test]
fn default_direction_is_positive_x() {
    assert_eq!(AxisDirection::default(), AxisDirection::PositiveX);
}

#[test]
fn directions_have_unit_vectors() {
    assert_eq!(AxisDirection::PositiveX.as_vector(), AxisVector { x: 1, y: 0, z: 0 });
    assert_eq!(AxisDirection::NegativeX.as_vector(), AxisVector { x: -1, y: 0, z: 0 });
    assert_eq!(AxisDirection::PositiveY.as_vector(), AxisVector { x: 0, y: 1, z: 0 });
    assert_eq!(AxisDirection::NegativeY.as_vector(), AxisVector { x: 0, y: -1, z: 0 });
    assert_eq!(AxisDirection::PositiveZ.as_vector(), AxisVector { x: 0, y: 0, z: 1 });
    assert_eq!(AxisDirection::NegativeZ.as_vector(), AxisVector { x: 0, y: 0, z: -1 });
}

#[test]
fn parallel_means_same_axis() {
    for (i, a) in ALL.iter().enumerate() {
        for (j, b) in ALL.iter().enumerate() {
            assert_eq!(a.is_parallel(*b), i / 2 == j / 2);
            assert_eq!(a.is_parallel(*b), b.is_parallel(*a));
        }
    }
}

#[test]
fn space_transform_of_z_up_negative_y_forward() {
    let transform = create_space_transform(AxisDirection::PositiveZ, AxisDirection::NegativeY);
    assert_eq!(
        transform,
        SpaceTransform {
            x_axis: AxisVector { x: 0, y: -1, z: 0 },
            y_axis: AxisVector { x: 1, y: 0, z: 0 },
            z_axis: AxisVector { x: 0, y: 0, z: 1 },
        }
    );
}

#[test]
fn space_transform_of_z_up_x_forward_is_identity() {
    let transform = create_space_transform(AxisDirection::PositiveZ, AxisDirection::PositiveX);
    assert_eq!(
        transform,
        SpaceTransform {
            x_axis: AxisVector { x: 1, y: 0, z: 0 },
            y_axis: AxisVector { x: 0, y: 1, z: 0 },
            z_axis: AxisVector { x: 0, y: 0, z: 1 },
        }
    );
    assert_eq!(transform.inverse(), transform);
}

fn multiply(a: SpaceTransform, b: SpaceTransform) -> [[i32; 3]; 3] {
    let columns = |m: SpaceTransform| {
        [
            [m.x_axis.x as i32, m.x_axis.y as i32, m.x_axis.z as i32],
            [m.y_axis.x as i32, m.y_axis.y as i32, m.y_axis.z as i32],
            [m.z_axis.x as i32, m.z_axis.y as i32, m.z_axis.z as i32],
        ]
    };
    let (a, b) = (columns(a), columns(b));
    let mut product = [[0; 3]; 3];
    for column in 0..3 {
        for row in 0..3 {
            for k in 0..3 {
                product[column][row] += a[k][row] * b[column][k];
            }
        }
    }
    product
}

#[test]
fn inverse_undoes_every_space_transform() {
    for up in ALL {
        for forward in ALL {
            if forward.is_parallel(up) {
                continue;
            }
            let transform = create_space_transform(up, forward);
            let identity = [[1, 0, 0], [0, 1, 0], [0, 0, 1]];
            assert_eq!(multiply(transform.inverse(), transform), identity);
            assert_eq!(multiply(transform, transform.inverse()), identity);
        }
    }
}
