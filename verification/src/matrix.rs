//! Layout operations on 4x4 matrices that do not depend on the entries'
//! arithmetic.
use vstd::prelude::*;

verus! {

pub open spec fn is_transpose<T>(m: [[T; 4]; 4], t: [[T; 4]; 4]) -> bool {
    forall|i: int, j: int| 0 <= i < 4 && 0 <= j < 4 ==> #[trigger] t[i][j] == m[j][i]
}

/// The transpose of a 4x4 matrix: entry `(i, j)` of the result is entry
/// `(j, i)` of `m`.
pub fn transposed<T: Copy>(m: &[[T; 4]; 4]) -> (t: [[T; 4]; 4])
    ensures
        is_transpose(*m, t),
{
    let r0 = [m[0][0], m[1][0], m[2][0], m[3][0]];
    let r1 = [m[0][1], m[1][1], m[2][1], m[3][1]];
    let r2 = [m[0][2], m[1][2], m[2][2], m[3][2]];
    let r3 = [m[0][3], m[1][3], m[2][3], m[3][3]];
    let t = [r0, r1, r2, r3];
    assert(t[0] == r0 && t[1] == r1 && t[2] == r2 && t[3] == r3);
    t
}

/// Transposing twice gives the matrix back.
pub proof fn law_transpose_twice<T>(m: [[T; 4]; 4], t: [[T; 4]; 4], u: [[T; 4]; 4])
    requires
        is_transpose(m, t),
        is_transpose(t, u),
    ensures
        forall|i: int, j: int| 0 <= i < 4 && 0 <= j < 4 ==> #[trigger] u[i][j] == m[i][j],
{
    assert forall|i: int, j: int| 0 <= i < 4 && 0 <= j < 4 implies #[trigger] u[i][j] == m[i][j] by {
        assert(u[i][j] == t[j][i]);
        assert(t[j][i] == m[i][j]);
    }
}

} // verus!
