use rust_transformer::{combine_masks, create_causal_mask, create_padding_mask, BoolMatrix, MaskShapeMismatch};

fn cells(m: &BoolMatrix) -> Vec<Vec<bool>> {
    let (r, c) = m.shape();
    (0..r).map(|i| (0..c).map(|j| m.get(i, j)).collect()).collect()
}

#[test]
fn causal_mask_hides_the_future() {
    let m = create_causal_mask(3);
    assert_eq!(m.shape(), (3, 3));
    assert_eq!(
        cells(&m),
        vec![vec![false, true, true], vec![false, false, true], vec![false, false, false]]
    );
    assert_eq!(create_causal_mask(0).shape(), (0, 0));
}

#[test]
fn padding_mask_hides_pad_rows_and_columns() {
    let m = create_padding_mask(&vec![5, 0, 7], 0);
    assert_eq!(
        cells(&m),
        vec![vec![false, true, false], vec![true, true, true], vec![false, true, false]]
    );
    let none = create_padding_mask(&vec![1, 2], 0);
    assert_eq!(cells(&none), vec![vec![false, false], vec![false, false]]);
}

#[test]
fn combined_mask_is_cellwise_union() {
    let a = create_causal_mask(3);
    let b = create_padding_mask(&vec![0, 4, 4], 0);
    let c = combine_masks(&a, &b).unwrap();
    assert_eq!(
        cells(&c),
        vec![vec![true, true, true], vec![true, false, true], vec![true, false, false]]
    );
}

#[test]
fn masks_of_different_shapes_do_not_combine() {
    let a = create_causal_mask(2);
    let b = BoolMatrix::new_filled(2, 3, true);
    assert_eq!(
        combine_masks(&a, &b).err(),
        Some(MaskShapeMismatch { first_rows: 2, first_cols: 2, second_rows: 2, second_cols: 3 })
    );
}

#[test]
fn matrix_cells_can_be_set_one_by_one() {
    let mut m = BoolMatrix::new_filled(2, 3, false);
    assert_eq!(m.shape(), (2, 3));
    m.set(1, 2, true);
    assert_eq!(cells(&m), vec![vec![false, false, false], vec![false, false, true]]);
}
