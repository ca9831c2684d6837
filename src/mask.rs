use nalgebra::DMatrix;
use vstd::prelude::*;

verus! {

/// A boolean matrix, held in nalgebra's `DMatrix`.
#[verifier::external_body]
pub struct BoolMatrix {
    cells: DMatrix<bool>,
}

/// The cells of a boolean matrix, row by row.
pub uninterp spec fn mask_cells(m: BoolMatrix) -> Seq<Seq<bool>>;

/// The number of columns of a boolean matrix.
pub uninterp spec fn mask_ncols(m: BoolMatrix) -> nat;

/// Every row of `m` has its number of columns.
pub open spec fn well_shaped(m: BoolMatrix) -> bool {
    forall|i: int| 0 <= i < mask_cells(m).len() ==> (#[trigger] mask_cells(m)[i]).len() == mask_ncols(m)
}

/// `m` is an `n` by `n` matrix whose cell `(i, j)` is `cell(i, j)`.
pub open spec fn square_with(m: BoolMatrix, n: nat, cell: spec_fn(int, int) -> bool) -> bool {
    &&& well_shaped(m)
    &&& mask_cells(m).len() == n
    &&& mask_ncols(m) == n
    &&& forall|i: int, j: int| 0 <= i < n && 0 <= j < n ==> #[trigger] mask_cells(m)[i][j] == cell(i, j)
}

/// Relies on nalgebra's `DMatrix::from_element`: an `nrows` by `ncols`
/// matrix with every cell set to `value`.
#[verifier::external_body]
fn filled(nrows: usize, ncols: usize, value: bool) -> (m: BoolMatrix)
    requires
        nrows * ncols <= isize::MAX,
    ensures
        well_shaped(m),
        mask_cells(m).len() == nrows,
        mask_ncols(m) == ncols,
        forall|i: int, j: int| 0 <= i < nrows && 0 <= j < ncols ==> #[trigger] mask_cells(m)[i][j] == value,
{
    BoolMatrix { cells: DMatrix::from_element(nrows, ncols, value) }
}

/// Relies on nalgebra's `IndexMut<(usize, usize)>`: writes cell `(i, j)` and
/// nothing else.
#[verifier::external_body]
fn set_cell(m: &mut BoolMatrix, i: usize, j: usize, value: bool)
    requires
        well_shaped(*old(m)),
        i < mask_cells(*old(m)).len(),
        j < mask_ncols(*old(m)),
    ensures
        mask_ncols(*final(m)) == mask_ncols(*old(m)),
        mask_cells(*final(m)) == mask_cells(*old(m)).update(
            i as int,
            mask_cells(*old(m))[i as int].update(j as int, value),
        ),
{
    m.cells[(i, j)] = value;
}

/// Relies on nalgebra's `Matrix::shape`: the numbers of rows and columns.
#[verifier::external_body]
fn shape_of(m: &BoolMatrix) -> (r: (usize, usize))
    ensures
        r.0 == mask_cells(*m).len(),
        r.1 == mask_ncols(*m),
{
    m.cells.shape()
}

/// Either of two mask cells suppresses.
pub fn either(a: bool, b: bool) -> (r: bool)
    ensures
        r == (a || b),
{
    a || b
}

/// Relies on nalgebra's `Matrix::zip_map`: a matrix of the common shape whose
/// cells are `either` of the two cells at the same place.
#[verifier::external_body]
fn zip_either(a: &BoolMatrix, b: &BoolMatrix) -> (r: BoolMatrix)
    requires
        mask_cells(*a).len() == mask_cells(*b).len(),
        mask_ncols(*a) == mask_ncols(*b),
    ensures
        well_shaped(r),
        mask_cells(r).len() == mask_cells(*a).len(),
        mask_ncols(r) == mask_ncols(*a),
        forall|i: int, j: int| 0 <= i < mask_cells(*a).len() && 0 <= j < mask_ncols(*a)
            ==> #[trigger] mask_cells(r)[i][j] == (mask_cells(*a)[i][j] || mask_cells(*b)[i][j]),
{
    BoolMatrix { cells: a.cells.zip_map(&b.cells, |x, y| either(x, y)) }
}

/// Relies on nalgebra's `Index<(usize, usize)>`: the value of cell `(i, j)`.
#[verifier::external_body]
fn cell_at(m: &BoolMatrix, i: usize, j: usize) -> (r: bool)
    requires
        well_shaped(*m),
        i < mask_cells(*m).len(),
        j < mask_ncols(*m),
    ensures
        r == mask_cells(*m)[i as int][j as int],
{
    m.cells[(i, j)]
}

impl BoolMatrix {
    /// An `nrows` by `ncols` matrix with every cell set to `value`.
    pub fn new_filled(nrows: usize, ncols: usize, value: bool) -> (m: BoolMatrix)
        requires
            nrows * ncols <= isize::MAX,
        ensures
            well_shaped(m),
            mask_cells(m).len() == nrows,
            mask_ncols(m) == ncols,
            forall|i: int, j: int| 0 <= i < nrows && 0 <= j < ncols ==> #[trigger] mask_cells(m)[i][j] == value,
    {
        filled(nrows, ncols, value)
    }

    /// The numbers of rows and columns.
    pub fn shape(&self) -> (r: (usize, usize))
        ensures
            r.0 == mask_cells(*self).len(),
            r.1 == mask_ncols(*self),
    {
        shape_of(self)
    }

    /// The value of cell `(i, j)`.
    pub fn get(&self, i: usize, j: usize) -> (r: bool)
        requires
            well_shaped(*self),
            i < mask_cells(*self).len(),
            j < mask_ncols(*self),
        ensures
            r == mask_cells(*self)[i as int][j as int],
    {
        cell_at(self, i, j)
    }

    /// Sets cell `(i, j)` to `value`, leaving the others.
    pub fn set(&mut self, i: usize, j: usize, value: bool)
        requires
            well_shaped(*old(self)),
            i < mask_cells(*old(self)).len(),
            j < mask_ncols(*old(self)),
        ensures
            well_shaped(*final(self)),
            mask_ncols(*final(self)) == mask_ncols(*old(self)),
            mask_cells(*final(self)) == mask_cells(*old(self)).update(
                i as int,
                mask_cells(*old(self))[i as int].update(j as int, value),
            ),
    {
        set_cell(self, i, j, value);
    }
}

/// Two masks of different shapes cannot be combined.
#[derive(Clone, Copy, Debug, PartialEq, Eq, Structural)]
pub struct MaskShapeMismatch {
    pub first_rows: usize,
    pub first_cols: usize,
    pub second_rows: usize,
    pub second_cols: usize,
}

/// A square mask over `sequence` that suppresses every row and every column
/// of a position holding `pad_token`.
pub fn create_padding_mask(sequence: &Vec<usize>, pad_token: usize) -> (m: BoolMatrix)
    requires
        sequence@.len() * sequence@.len() <= isize::MAX,
    ensures
        square_with(
            m,
            sequence@.len(),
            |i: int, j: int| sequence@[i] == pad_token || sequence@[j] == pad_token,
        ),
{
    let n = sequence.len();
    let mut mask = filled(n, n, false);
    let mut i: usize = 0;
    while i < n
        invariant
            n == sequence@.len(),
            0 <= i <= n,
            well_shaped(mask),
            mask_cells(mask).len() == n,
            mask_ncols(mask) == n,
            forall|r: int, c: int| 0 <= r < n && 0 <= c < n ==> #[trigger] mask_cells(mask)[r][c] == (
                (r < i && sequence@[r] == pad_token) || (c < i && sequence@[c] == pad_token)),
        decreases n - i,
    {
        if sequence[i] == pad_token {
            let mut j: usize = 0;
            while j < n
                invariant
                    n == sequence@.len(),
                    0 <= i < n,
                    0 <= j <= n,
                    sequence@[i as int] == pad_token,
                    well_shaped(mask),
                    mask_cells(mask).len() == n,
                    mask_ncols(mask) == n,
                    forall|r: int, c: int| 0 <= r < n && 0 <= c < n ==> #[trigger] mask_cells(mask)[r][c] == (
                        (r < i && sequence@[r] == pad_token) || (c < i && sequence@[c] == pad_token)
                        || (r == i && c < j) || (c == i && r < j)),
                decreases n - j,
            {
                set_cell(&mut mask, i, j, true);
                set_cell(&mut mask, j, i, true);
                j = j + 1;
            }
        }
        i = i + 1;
    }
    mask
}

/// A square mask that suppresses every position after the current one.
pub fn create_causal_mask(seq_len: usize) -> (m: BoolMatrix)
    requires
        seq_len * seq_len <= isize::MAX,
    ensures
        square_with(m, seq_len as nat, |i: int, j: int| j > i),
{
    let mut mask = filled(seq_len, seq_len, false);
    let mut i: usize = 0;
    while i < seq_len
        invariant
            0 <= i <= seq_len,
            well_shaped(mask),
            mask_cells(mask).len() == seq_len,
            mask_ncols(mask) == seq_len,
            forall|r: int, c: int| 0 <= r < seq_len && 0 <= c < seq_len
                ==> #[trigger] mask_cells(mask)[r][c] == (r < i && c > r),
        decreases seq_len - i,
    {
        let mut j: usize = i + 1;
        while j < seq_len
            invariant
                0 <= i < seq_len,
                i + 1 <= j <= seq_len || (j == i + 1),
                well_shaped(mask),
                mask_cells(mask).len() == seq_len,
                mask_ncols(mask) == seq_len,
                forall|r: int, c: int| 0 <= r < seq_len && 0 <= c < seq_len
                    ==> #[trigger] mask_cells(mask)[r][c] == ((r < i && c > r) || (r == i && i < c < j)),
            decreases seq_len - j,
        {
            set_cell(&mut mask, i, j, true);
            j = j + 1;
        }
        i = i + 1;
    }
    mask
}

/// The cell-wise union of two masks of the same shape.
pub fn combine_masks(mask1: &BoolMatrix, mask2: &BoolMatrix) -> (r: Result<BoolMatrix, MaskShapeMismatch>)
    ensures
        r is Err <==> (mask_cells(*mask1).len() != mask_cells(*mask2).len() || mask_ncols(*mask1)
            != mask_ncols(*mask2)),
        r matches Err(e) ==> e.first_rows == mask_cells(*mask1).len() && e.first_cols == mask_ncols(*mask1)
            && e.second_rows == mask_cells(*mask2).len() && e.second_cols == mask_ncols(*mask2),
        r matches Ok(m) ==> {
            &&& well_shaped(m)
            &&& mask_cells(m).len() == mask_cells(*mask1).len()
            &&& mask_ncols(m) == mask_ncols(*mask1)
            &&& forall|i: int, j: int| 0 <= i < mask_cells(*mask1).len() && 0 <= j < mask_ncols(*mask1)
                ==> #[trigger] mask_cells(m)[i][j] == (mask_cells(*mask1)[i][j] || mask_cells(*mask2)[i][j])
        },
{
    let first = shape_of(mask1);
    let second = shape_of(mask2);
    if first.0 != second.0 || first.1 != second.1 {
        return Err(
            MaskShapeMismatch {
                first_rows: first.0,
                first_cols: first.1,
                second_rows: second.0,
                second_cols: second.1,
            },
        );
    }
    Ok(zip_either(mask1, mask2))
}

} // verus!
