use neoronet::tensor::{Tensor2D, TensorError};

fn grid(rows: &[&[f32]]) -> Vec<Vec<f32>> {
    rows.iter().map(|r| r.to_vec()).collect()
}

fn matrix(rows: &[&[f32]]) -> Tensor2D<f32> {
    Tensor2D::from(grid(rows)).unwrap()
}

fn plus(x: f32, y: f32) -> f32 {
    x + y
}

fn minus(x: f32, y: f32) -> f32 {
    x - y
}

fn times(x: f32, y: f32) -> f32 {
    x * y
}

#[test]
fn zeros_has_shape_and_zero_entries() {
    let z = Tensor2D::zeros(2, 3, 0.0f32);
    assert_eq!(z.rows, 2);
    assert_eq!(z.cols, 3);
    assert_eq!(z.data, vec![vec![0.0; 3]; 2]);
}

#[test]
fn from_takes_shape_of_grid() {
    let m = matrix(&[&[1.0, 2.0, 3.0], &[4.0, 5.0, 6.0]]);
    assert_eq!((m.rows, m.cols), (2, 3));
    assert_eq!(m.data, grid(&[&[1.0, 2.0, 3.0], &[4.0, 5.0, 6.0]]));
}

#[test]
fn from_empty_grid_is_empty_matrix() {
    let m = Tensor2D::<f32>::from(vec![]).unwrap();
    assert_eq!((m.rows, m.cols), (0, 0));
}

#[test]
fn from_ragged_grid_fails() {
    let r = Tensor2D::from(grid(&[&[1.0, 2.0], &[3.0]]));
    assert_eq!(r.err(), Some(TensorError::RaggedRows));
}

#[test]
fn multiply_sums_products() {
    let a = matrix(&[&[1.0, 2.0, 3.0], &[4.0, 5.0, 6.0]]);
    let b = matrix(&[&[7.0, 8.0], &[9.0, 10.0], &[11.0, 12.0]]);
    let c = a.multiply(&b, 0.0, &plus, &times).unwrap();
    assert_eq!((c.rows, c.cols), (2, 2));
    assert_eq!(c.data, grid(&[&[58.0, 64.0], &[139.0, 154.0]]));
}

#[test]
fn multiply_with_mismatched_shapes_fails() {
    let a = matrix(&[&[1.0, 2.0, 3.0], &[4.0, 5.0, 6.0]]);
    let b = matrix(&[&[1.0, 2.0], &[3.0, 4.0]]);
    let r = a.multiply(&b, 0.0, &plus, &times);
    assert_eq!(r.err(), Some(TensorError::DimensionMismatch));
}

#[test]
fn add_subtract_and_hadamard_work_cell_by_cell() {
    let a = matrix(&[&[1.0, 2.0], &[3.0, 4.0]]);
    let b = matrix(&[&[5.0, 6.0], &[7.0, 9.0]]);
    assert_eq!(a.add(&b, &plus).unwrap().data, grid(&[&[6.0, 8.0], &[10.0, 13.0]]));
    assert_eq!(b.subtract(&a, &minus).unwrap().data, grid(&[&[4.0, 4.0], &[4.0, 5.0]]));
    assert_eq!(a.dot_multiply(&b, &times).unwrap().data, grid(&[&[5.0, 12.0], &[21.0, 36.0]]));
}

#[test]
fn elementwise_operations_reject_other_shapes() {
    let a = matrix(&[&[1.0, 2.0], &[3.0, 4.0]]);
    let b = matrix(&[&[1.0, 2.0]]);
    assert_eq!(a.add(&b, &plus).err(), Some(TensorError::DimensionMismatch));
    assert_eq!(a.subtract(&b, &minus).err(), Some(TensorError::DimensionMismatch));
    assert_eq!(a.dot_multiply(&b, &times).err(), Some(TensorError::DimensionMismatch));
}

#[test]
fn add_commutes() {
    let a = matrix(&[&[0.5, -1.25], &[3.0, 7.5]]);
    let b = matrix(&[&[2.0, 4.5], &[-6.0, 0.125]]);
    assert_eq!(a.add(&b, &plus).unwrap().data, b.add(&a, &plus).unwrap().data);
}

#[test]
fn transpose_swaps_rows_and_columns() {
    let a = matrix(&[&[1.0, 2.0, 3.0], &[4.0, 5.0, 6.0]]);
    let t = a.transpose();
    assert_eq!((t.rows, t.cols), (3, 2));
    assert_eq!(t.data, grid(&[&[1.0, 4.0], &[2.0, 5.0], &[3.0, 6.0]]));
}

#[test]
fn transpose_twice_gives_back_the_matrix() {
    let a = matrix(&[&[1.0, 2.0, 3.0], &[4.0, 5.0, 6.0]]);
    let tt = a.transpose().transpose();
    assert_eq!((tt.rows, tt.cols), (2, 3));
    assert_eq!(tt.data, a.data);
}

#[test]
fn map_applies_function_to_each_entry() {
    let a = matrix(&[&[1.0, -2.0], &[3.0, 0.5]]);
    let m = a.map(&|x: f32| x * 2.0);
    assert_eq!(m.data, grid(&[&[2.0, -4.0], &[6.0, 1.0]]));
}

#[test]
fn map_identity_gives_back_the_matrix() {
    let a = matrix(&[&[1.0, -2.0], &[3.0, 0.5]]);
    assert_eq!(a.map(&|x: f32| x).data, a.data);
}

#[test]
fn scale_multiplies_every_entry() {
    let a = matrix(&[&[1.0, -2.0], &[3.0, 0.5]]);
    assert_eq!(a.scale(0.5, &times).data, grid(&[&[0.5, -1.0], &[1.5, 0.25]]));
}

#[test]
fn duplicate_is_an_equal_copy() {
    let a = matrix(&[&[1.0, 2.0], &[3.0, 4.0]]);
    let d = a.duplicate();
    assert_eq!((d.rows, d.cols), (2, 2));
    assert_eq!(d.data, a.data);
}

#[test]
fn well_formedness_is_checked() {
    let good = matrix(&[&[1.0, 2.0]]);
    assert!(good.is_well_formed());
    let bad = Tensor2D { rows: 2, cols: 2, data: grid(&[&[1.0, 2.0], &[3.0]]) };
    assert!(!bad.is_well_formed());
}
