use ray_trace::transform::{Transform, Transformation};

#[test]
fn test_transformation_transpose() {
    let a = [[0., 1., 0., 0.],
             [0., 0., 0., 0.],
             [0., 0., 0., 0.],
             [0., 0., 0., 0.]];

    let a_inv = [[0., 0., 0., 0.],
                 [1., 0., 0., 0.],
                 [0., 0., 0., 0.],
                 [0., 0., 0., 0.]];

    assert_eq!(
        a_inv,
        Transformation::new(a).transpose().matrix
    );
}

#[test]
fn transpose_moves_every_entry() {
    let mut m = [[0i64; 4]; 4];
    for i in 0..4 {
        for j in 0..4 {
            m[i][j] = (10 * i + j) as i64;
        }
    }
    let t = Transformation::new(m).transpose().matrix;
    for i in 0..4 {
        for j in 0..4 {
            assert_eq!(t[i][j], (10 * j + i) as i64);
        }
    }
}

#[test]
fn transform_inverse_swaps_matrices() {
    let t = Transformation::new([[2.0, 0.0, 0.0, 0.0],
                                 [0.0, 3.0, 0.0, 0.0],
                                 [0.0, 0.0, 4.0, 0.0],
                                 [0.0, 0.0, 0.0, 1.0]]);
    let t_inv = Transformation::new([[0.5, 0.0, 0.0, 0.0],
                                     [0.0, 1.0 / 3.0, 0.0, 0.0],
                                     [0.0, 0.0, 0.25, 0.0],
                                     [0.0, 0.0, 0.0, 1.0]]);
    let inv = Transform::new(t, t_inv).inverse();
    assert_eq!(inv.transform.matrix, t_inv.matrix);
    assert_eq!(inv.inverse.matrix, t.matrix);
}

#[test]
fn transform_transpose_transposes_both() {
    let t = Transformation::new([[1, 2, 3, 4], [5, 6, 7, 8], [9, 10, 11, 12], [13, 14, 15, 16]]);
    let u = Transformation::new([[0, 0, 0, 1], [0, 0, 0, 0], [0, 0, 0, 0], [0, 0, 0, 0]]);
    let tr = Transform::new(t, u).transpose();
    assert_eq!(tr.transform.matrix, [[1, 5, 9, 13], [2, 6, 10, 14], [3, 7, 11, 15], [4, 8, 12, 16]]);
    assert_eq!(tr.inverse.matrix[3][0], 1);
    assert_eq!(tr.inverse.matrix[0][3], 0);
}

#[test]
fn filled_matrix_repeats_value() {
    let z = Transformation::filled(0.0);
    assert_eq!(z.matrix, [[0.0; 4]; 4]);
    let m = Transformation::filled(7u8);
    assert_eq!(m.matrix, [[7u8; 4]; 4]);
}
