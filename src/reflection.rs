use vstd::prelude::*;

verus! {

/// The sign of a real number, such as the determinant of an orthogonal factor
/// of a singular value decomposition.
#[derive(Debug, Clone, Copy, PartialEq, Eq, Structural)]
pub enum Sign {
    Negative,
    Zero,
    Positive,
}

/// The sign as an integer: -1, 0 or +1.
pub open spec fn sign_value(s: Sign) -> int {
    match s {
        Sign::Negative => -1,
        Sign::Zero => 0,
        Sign::Positive => 1,
    }
}

/// The factor that makes `U * diag(1, 1, d) * V^T` a proper rotation: -1 when
/// `det(U) * det(V)` is negative, +1 otherwise (a zero product shows no
/// reflection to undo).
pub open spec fn correction_value(det_u: Sign, det_v: Sign) -> int {
    if sign_value(det_u) * sign_value(det_v) < 0 {
        -1
    } else {
        1
    }
}

/// The diagonal correction matrix `diag(1, 1, d)`, row by row.
pub open spec fn diag_correction(d: int) -> Seq<Seq<int>> {
    seq![seq![1, 0, 0], seq![0, 1, 0], seq![0, 0, d]]
}

/// Determinant of a 3x3 matrix given row by row.
pub open spec fn det3(m: Seq<Seq<int>>) -> int {
    m[0][0] * (m[1][1] * m[2][2] - m[1][2] * m[2][1])
        - m[0][1] * (m[1][0] * m[2][2] - m[1][2] * m[2][0])
        + m[0][2] * (m[1][0] * m[2][1] - m[1][1] * m[2][0])
}

/// Entry (i, j) of `m * m^T` for a 3x3 matrix given row by row.
pub open spec fn gram3(m: Seq<Seq<int>>, i: int, j: int) -> int {
    m[i][0] * m[j][0] + m[i][1] * m[j][1] + m[i][2] * m[j][2]
}

/// A 3x3 matrix whose rows are orthonormal.
pub open spec fn is_orthogonal3(m: Seq<Seq<int>>) -> bool {
    forall|i: int, j: int|
        0 <= i < 3 && 0 <= j < 3 ==> #[trigger] gram3(m, i, j) == if i == j { 1int } else { 0int }
}

/// A 3x3 array of integers read as a matrix, row by row.
pub open spec fn matrix_of(m: [[i8; 3]; 3]) -> Seq<Seq<int>> {
    Seq::new(3, |i: int| Seq::new(3, |j: int| m@[i]@[j] as int))
}

/// Sign of the product of two signs.
pub fn sign_product(a: Sign, b: Sign) -> (r: Sign)
    ensures
        sign_value(r) == sign_value(a) * sign_value(b),
{
    match (a, b) {
        (Sign::Zero, _) | (_, Sign::Zero) => Sign::Zero,
        (Sign::Positive, Sign::Positive) | (Sign::Negative, Sign::Negative) => Sign::Positive,
        _ => Sign::Negative,
    }
}

/// Chooses the reflection correction `d` from the signs of `det(U)` and `det(V)`.
pub fn correction_sign(det_u: Sign, det_v: Sign) -> (d: i8)
    ensures
        d as int == correction_value(det_u, det_v),
        d == 1 || d == -1,
{
    if sign_product(det_u, det_v) == Sign::Negative {
        -1
    } else {
        1
    }
}

/// Builds the correction matrix `diag(1, 1, d)`.
pub fn correction_matrix(d: i8) -> (m: [[i8; 3]; 3])
    requires
        d == 1 || d == -1,
    ensures
        matrix_of(m) == diag_correction(d as int),
{
    let m: [[i8; 3]; 3] = [[1, 0, 0], [0, 1, 0], [0, 0, d]];
    assert(matrix_of(m) =~~= diag_correction(d as int));
    m
}

/// The correction matrix is orthogonal, and its determinant is `d`.
pub proof fn lemma_correction_orthogonal(d: int)
    requires
        d == 1 || d == -1,
    ensures
        is_orthogonal3(diag_correction(d)),
        det3(diag_correction(d)) == d,
{
    let m = diag_correction(d);
    assert(m[0] == seq![1int, 0, 0] && m[1] == seq![0int, 1, 0] && m[2] == seq![0int, 0, d]);
    assert(m[0][0] == 1 && m[0][1] == 0 && m[0][2] == 0);
    assert(m[1][0] == 0 && m[1][1] == 1 && m[1][2] == 0);
    assert(m[2][0] == 0 && m[2][1] == 0 && m[2][2] == d);
    assert forall|i: int, j: int| 0 <= i < 3 && 0 <= j < 3 implies #[trigger] gram3(m, i, j) == if i == j {
        1int
    } else {
        0int
    } by {
        assert(i == 0 || i == 1 || i == 2);
        assert(j == 0 || j == 1 || j == 2);
        assert(d * d == 1) by (nonlinear_arith)
            requires
                d == 1 || d == -1,
        ;
    }
}

/// Whenever neither factor of the decomposition is singular, the corrected
/// rotation `U * diag(1, 1, d) * V^T` has determinant
/// `det(U) * d * det(V) = +1`: it is a proper rotation, never a reflection.
pub proof fn lemma_correction_gives_proper_rotation(det_u: Sign, det_v: Sign)
    requires
        det_u != Sign::Zero,
        det_v != Sign::Zero,
    ensures
        sign_value(det_u) * det3(diag_correction(correction_value(det_u, det_v))) * sign_value(det_v)
            == 1,
{
    lemma_correction_orthogonal(correction_value(det_u, det_v));
}

} // verus!
