use vstd::prelude::*;

verus! {

/// A 4x4 homogeneous transformation matrix, stored row by row.
#[derive(Clone, Copy, Debug)]
pub struct Transformation<T> {
    pub matrix: [[T; 4]; 4],
}

/// Entry `(i, j)` of a matrix.
pub open spec fn entry<T>(m: [[T; 4]; 4], i: int, j: int) -> T {
    m@[i]@[j]
}

/// `t` is the transpose of `m`.
pub open spec fn is_transpose<T>(t: [[T; 4]; 4], m: [[T; 4]; 4]) -> bool {
    forall|i: int, j: int| 0 <= i < 4 && 0 <= j < 4 ==> #[trigger] entry(t, i, j) == entry(m, j, i)
}

impl<T: Copy> Transformation<T> {
    pub fn new(matrix: [[T; 4]; 4]) -> (r: Self)
        ensures
            r.matrix == matrix,
    {
        Transformation { matrix }
    }

    /// The matrix with every entry equal to `value`.
    pub fn filled(value: T) -> (r: Self)
        ensures
            forall|i: int, j: int| 0 <= i < 4 && 0 <= j < 4 ==> #[trigger] entry(r.matrix, i, j) == value,
    {
        let row = [value, value, value, value];
        let r = Transformation::new([row, row, row, row]);
        assert forall|i: int, j: int| 0 <= i < 4 && 0 <= j < 4 implies #[trigger] entry(r.matrix, i, j) == value by {
            assert(r.matrix@[i] == row);
        }
        r
    }

    /// The matrix with rows and columns exchanged.
    pub fn transpose(self) -> (r: Self)
        ensures
            is_transpose(r.matrix, self.matrix),
    {
        let m = self.matrix;
        let r = Transformation::new(
            [
                [m[0][0], m[1][0], m[2][0], m[3][0]],
                [m[0][1], m[1][1], m[2][1], m[3][1]],
                [m[0][2], m[1][2], m[2][2], m[3][2]],
                [m[0][3], m[1][3], m[2][3], m[3][3]],
            ],
        );
        assert(is_transpose(r.matrix, m));
        r
    }
}

/// A transformation together with its inverse. The pair is taken as given:
/// nothing checks that the two matrices are inverse to each other.
#[derive(Clone, Copy, Debug)]
pub struct Transform<T> {
    pub transform: Transformation<T>,
    pub inverse: Transformation<T>,
}

impl<T: Copy> Transform<T> {
    pub fn new(t: Transformation<T>, t_inv: Transformation<T>) -> (r: Self)
        ensures
            r.transform == t,
            r.inverse == t_inv,
    {
        Transform { transform: t, inverse: t_inv }
    }

    /// The inverse transform: the two matrices change places.
    pub fn inverse(self) -> (r: Self)
        ensures
            r.transform == self.inverse,
            r.inverse == self.transform,
    {
        Transform::new(self.inverse, self.transform)
    }

    /// Transposes both matrices.
    pub fn transpose(self) -> (r: Self)
        ensures
            is_transpose(r.transform.matrix, self.transform.matrix),
            is_transpose(r.inverse.matrix, self.inverse.matrix),
    {
        Transform::new(self.transform.transpose(), self.inverse.transpose())
    }
}

} // verus!
