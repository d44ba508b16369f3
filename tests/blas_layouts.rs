use neoronet::blas::{flatten, reorg_cpu};

#[test]
fn flatten_forward_interleaves_channels() {
    let mut x: Vec<f32> = vec![0.0, 1.0, 2.0, 3.0, 4.0, 5.0];
    flatten(&mut x, 2, 3, 1, true);
    assert_eq!(x, vec![0.0, 2.0, 4.0, 1.0, 3.0, 5.0]);
}

#[test]
fn flatten_backward_undoes_forward() {
    let planar: Vec<f32> = (0..12).map(|v| v as f32).collect();
    let mut x = planar.clone();
    flatten(&mut x, 3, 2, 2, true);
    assert_ne!(x, planar);
    flatten(&mut x, 3, 2, 2, false);
    assert_eq!(x, planar);
}

#[test]
fn flatten_of_empty_buffer_is_empty() {
    let mut x: Vec<f32> = vec![];
    flatten(&mut x, 0, 3, 2, true);
    assert!(x.is_empty());
}

#[test]
fn reorg_forward_spreads_channels_over_blocks() {
    let x: Vec<f32> = (0..8).map(|v| v as f32).collect();
    let mut out = vec![-1.0f32; 9];
    reorg_cpu(&x, 2, 1, 4, 1, 2, true, &mut out);
    assert_eq!(out, vec![0.0, 2.0, 1.0, 3.0, 4.0, 6.0, 5.0, 7.0, -1.0]);
}

#[test]
fn reorg_backward_gathers_blocks_into_channels() {
    let x: Vec<f32> = vec![0.0, 2.0, 1.0, 3.0, 4.0, 6.0, 5.0, 7.0];
    let mut out = vec![0.0f32; 8];
    reorg_cpu(&x, 2, 1, 4, 1, 2, false, &mut out);
    assert_eq!(out, (0..8).map(|v| v as f32).collect::<Vec<f32>>());
}

#[test]
fn reorg_with_unit_stride_copies() {
    let x: Vec<f32> = (0..6).map(|v| v as f32).collect();
    let mut out = vec![0.0f32; 6];
    reorg_cpu(&x, 3, 2, 1, 1, 1, true, &mut out);
    assert_eq!(out, x);
}
