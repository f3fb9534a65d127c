//! MixLanes_C: column and row mixing by matrices over GF(p).
//!
//! The 128 field elements form a 16 x 8 grid (element `row * 8 + col`).
use crate::constants::{M_COL_P, M_ROW_P};
use crate::field_p;
use crate::field_p::{modulus, P};
use vstd::arithmetic::div_mod::*;
use vstd::prelude::*;

verus! {

/// `f(0) + ... + f(n - 1)`.
pub open spec fn int_sum(f: spec_fn(int) -> int, n: int) -> int
    decreases n,
{
    if n <= 0 {
        0
    } else {
        int_sum(f, n - 1) + f(n - 1)
    }
}

/// The 16 elements of column `col`, top row first.
pub open spec fn column_p(s: Seq<u128>, col: int) -> Seq<u128> {
    Seq::new(16, |j: int| s[j * 8 + col])
}

/// The 8 elements of row `row`, left column first.
pub open spec fn row_p(s: Seq<u128>, row: int) -> Seq<u128> {
    Seq::new(8, |j: int| s[row * 8 + j])
}

/// Entry `i` of `M_COL_P` times the column vector `v`, in GF(p).
pub open spec fn col_entry_p(v: Seq<u128>, i: int) -> u128 {
    (int_sum(|j: int| M_COL_P[i][j] as int * v[j] as int, 16) % modulus()) as u128
}

/// Entry `i` of `M_ROW_P` times the row vector `v`, in GF(p).
pub open spec fn row_entry_p(v: Seq<u128>, i: int) -> u128 {
    (int_sum(|j: int| M_ROW_P[i][j] as int * v[j] as int, 8) % modulus()) as u128
}

/// Column mixing of the whole grid.
pub open spec fn spec_mix_cols_p(s: Seq<u128>) -> Seq<u128> {
    Seq::new(128, |k: int| col_entry_p(column_p(s, k % 8), k / 8))
}

/// Row mixing of the whole grid.
pub open spec fn spec_mix_rows_p(s: Seq<u128>) -> Seq<u128> {
    Seq::new(128, |k: int| row_entry_p(row_p(s, k / 8), k % 8))
}

/// MixLanes_C: column mixing, then row mixing.
pub open spec fn spec_mix_lanes_c(s: Seq<u128>) -> Seq<u128> {
    spec_mix_rows_p(spec_mix_cols_p(s))
}

/// Every entry of the mixing matrices is a canonical field element.
proof fn lemma_matrices_canonical()
    ensures
        forall|i: int, j: int| 0 <= i < 16 && 0 <= j < 16 ==> #[trigger] M_COL_P[i][j] < P,
        forall|i: int, j: int| 0 <= i < 8 && 0 <= j < 8 ==> #[trigger] M_ROW_P[i][j] < P,
{
    assert forall|i: int, j: int| 0 <= i < 16 && 0 <= j < 16 implies #[trigger] M_COL_P[i][j] < P by {
        assert(0 <= i < 16);
    }
    assert forall|i: int, j: int| 0 <= i < 8 && 0 <= j < 8 implies #[trigger] M_ROW_P[i][j] < P by {
        assert(0 <= i < 8);
    }
}

/// Adding a reduced product to a reduced partial sum reduces the full sum.
proof fn lemma_sum_step(s: int, x: int)
    ensures
        ((s % modulus()) + (x % modulus())) % modulus() == (s + x) % modulus(),
{
    lemma_add_mod_noop(s, x, modulus());
}

/// Entry `i` of `M_COL_P` times a vector of canonical elements.
fn col_dot_p(i: usize, vec: &[u128; 16]) -> (r: u128)
    requires
        i < 16,
        forall|j: int| 0 <= j < 16 ==> vec@[j] <= P,
    ensures
        r == col_entry_p(vec@, i as int),
        r < P,
{
    proof {
        lemma_matrices_canonical();
    }
    let ghost f = |j: int| M_COL_P[i as int][j] as int * vec@[j] as int;
    let mut sum = 0u128;
    let mut j: usize = 0;
    while j < 16
        invariant
            j <= 16,
            i < 16,
            forall|j: int| 0 <= j < 16 ==> vec@[j] <= P,
            forall|a: int, b: int| 0 <= a < 16 && 0 <= b < 16 ==> #[trigger] M_COL_P[a][b] < P,
            f == (|j: int| M_COL_P[i as int][j] as int * vec@[j] as int),
            sum < P,
            sum as int == int_sum(f, j as int) % modulus(),
        decreases 16 - j,
    {
        let mat_val = M_COL_P[i][j];
        let prod = field_p::mul(mat_val, vec[j]);
        proof {
            lemma_sum_step(int_sum(f, j as int), f(j as int));
        }
        sum = field_p::add(sum, prod);
        j = j + 1;
    }
    sum
}

/// Entry `i` of `M_ROW_P` times a vector of elements in `[0, p]`.
fn row_dot_p(i: usize, vec: &[u128; 8]) -> (r: u128)
    requires
        i < 8,
        forall|j: int| 0 <= j < 8 ==> vec@[j] <= P,
    ensures
        r == row_entry_p(vec@, i as int),
        r < P,
{
    proof {
        lemma_matrices_canonical();
    }
    let ghost f = |j: int| M_ROW_P[i as int][j] as int * vec@[j] as int;
    let mut sum = 0u128;
    let mut j: usize = 0;
    while j < 8
        invariant
            j <= 8,
            i < 8,
            forall|j: int| 0 <= j < 8 ==> vec@[j] <= P,
            forall|a: int, b: int| 0 <= a < 8 && 0 <= b < 8 ==> #[trigger] M_ROW_P[a][b] < P,
            f == (|j: int| M_ROW_P[i as int][j] as int * vec@[j] as int),
            sum < P,
            sum as int == int_sum(f, j as int) % modulus(),
        decreases 8 - j,
    {
        let mat_val = M_ROW_P[i][j];
        let prod = field_p::mul(mat_val, vec[j]);
        proof {
            lemma_sum_step(int_sum(f, j as int), f(j as int));
        }
        sum = field_p::add(sum, prod);
        j = j + 1;
    }
    sum
}

/// MixLanes_C on the whole grid of elements in `[0, p]` (`p` itself stands for zero).
pub fn mix_lanes(f: &mut [u128; 128])
    requires
        forall|k: int| 0 <= k < 128 ==> old(f)@[k] <= P,
    ensures
        final(f)@ == spec_mix_lanes_c(old(f)@),
        forall|k: int| 0 <= k < 128 ==> final(f)@[k] < P,
{
    let ghost s0 = f@;
    let mut col: usize = 0;
    while col < 8
        invariant
            col <= 8,
            f@.len() == 128,
            forall|k: int| 0 <= k < 128 ==> f@[k] <= P,
            forall|k: int| 0 <= k < 128 && k % 8 < col ==> f@[k] == #[trigger] spec_mix_cols_p(s0)[k],
            forall|k: int| 0 <= k < 128 && k % 8 >= col ==> f@[k] == #[trigger] s0[k],
        decreases 8 - col,
    {
        let mut vec = [0u128; 16];
        let mut row: usize = 0;
        while row < 16
            invariant
                row <= 16,
                col < 8,
                f@.len() == 128,
                forall|k: int| 0 <= k < 128 ==> f@[k] <= P,
                vec@.len() == 16,
                forall|j: int| 0 <= j < row ==> vec@[j] == f@[j * 8 + col],
                forall|j: int| row <= j < 16 ==> vec@[j] == 0,
            decreases 16 - row,
        {
            vec[row] = f[row * 8 + col];
            row = row + 1;
        }
        assert(vec@ =~= column_p(s0, col as int));
        let mut out_vec = [0u128; 16];
        let mut i: usize = 0;
        while i < 16
            invariant
                i <= 16,
                vec@ == column_p(s0, col as int),
                forall|j: int| 0 <= j < 16 ==> vec@[j] <= P,
                out_vec@.len() == 16,
                forall|j: int| 0 <= j < i ==> out_vec@[j] == col_entry_p(vec@, j) && out_vec@[j] < P,
            decreases 16 - i,
        {
            out_vec[i] = col_dot_p(i, &vec);
            i = i + 1;
        }
        let ghost before = f@;
        let mut row: usize = 0;
        while row < 16
            invariant
                row <= 16,
                col < 8,
                f@.len() == 128,
                forall|j: int| 0 <= j < 16 ==> out_vec@[j] == col_entry_p(column_p(s0, col as int), j) && out_vec@[j] < P,
                forall|k: int| 0 <= k < 128 ==> before[k] <= P,
                forall|k: int| 0 <= k < 128 ==> f@[k] <= P,
                forall|k: int| 0 <= k < 128 && (k % 8 != col || k / 8 >= row) ==> f@[k] == before[k],
                forall|k: int| 0 <= k < 128 && k % 8 == col && k / 8 < row ==> f@[k] == out_vec@[k / 8],
            decreases 16 - row,
        {
            f[row * 8 + col] = out_vec[row];
            row = row + 1;
        }
        col = col + 1;
    }
    let ghost s1 = f@;
    assert(s1 =~= spec_mix_cols_p(s0));
    assert forall|k: int| 0 <= k < 128 implies f@[k] < P by {
        assert(f@[k] == col_entry_p(column_p(s0, k % 8), k / 8));
    }

    let mut row: usize = 0;
    while row < 16
        invariant
            row <= 16,
            f@.len() == 128,
            forall|k: int| 0 <= k < 128 ==> f@[k] < P,
            forall|k: int| 0 <= k < 128 && k / 8 < row ==> f@[k] == #[trigger] spec_mix_rows_p(s1)[k],
            forall|k: int| 0 <= k < 128 && k / 8 >= row ==> f@[k] == #[trigger] s1[k],
        decreases 16 - row,
    {
        let mut vec = [0u128; 8];
        let mut col: usize = 0;
        while col < 8
            invariant
                col <= 8,
                row < 16,
                f@.len() == 128,
                forall|k: int| 0 <= k < 128 ==> f@[k] < P,
                vec@.len() == 8,
                forall|j: int| 0 <= j < col ==> vec@[j] == f@[row * 8 + j],
                forall|j: int| col <= j < 8 ==> vec@[j] == 0,
            decreases 8 - col,
        {
            vec[col] = f[row * 8 + col];
            col = col + 1;
        }
        assert(vec@ =~= row_p(s1, row as int));
        let mut out_vec = [0u128; 8];
        let mut i: usize = 0;
        while i < 8
            invariant
                i <= 8,
                vec@ == row_p(s1, row as int),
                forall|j: int| 0 <= j < 8 ==> vec@[j] <= P,
                out_vec@.len() == 8,
                forall|j: int| 0 <= j < i ==> out_vec@[j] == row_entry_p(vec@, j) && out_vec@[j] < P,
            decreases 8 - i,
        {
            out_vec[i] = row_dot_p(i, &vec);
            i = i + 1;
        }
        let ghost before = f@;
        let mut col: usize = 0;
        while col < 8
            invariant
                col <= 8,
                row < 16,
                f@.len() == 128,
                forall|j: int| 0 <= j < 8 ==> out_vec@[j] == row_entry_p(row_p(s1, row as int), j) && out_vec@[j] < P,
                forall|k: int| 0 <= k < 128 ==> before[k] < P,
                forall|k: int| 0 <= k < 128 ==> f@[k] < P,
                forall|k: int| 0 <= k < 128 && (k / 8 != row || k % 8 >= col) ==> f@[k] == before[k],
                forall|k: int| 0 <= k < 128 && k / 8 == row && k % 8 < col ==> f@[k] == out_vec@[k % 8],
            decreases 8 - col,
        {
            f[row * 8 + col] = out_vec[col];
            col = col + 1;
        }
        row = row + 1;
    }
    assert(f@ =~= spec_mix_rows_p(s1));
}

} // verus!
