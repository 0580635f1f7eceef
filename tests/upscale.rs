use dfdx::tape::NoTape;
use dfdx::tensor::{Tensor, TensorIds};
use dfdx::upscale::{Upscale2D, Upscale2DBy, UpscaleError};

fn zeros(shape: Vec<usize>, ids: &mut TensorIds) -> Tensor<NoTape> {
    let n: usize = shape.iter().product();
    Tensor::new(shape, vec![0; n], ids).unwrap()
}

fn copy(t: &Tensor<NoTape>, ids: &mut TensorIds) -> Tensor<NoTape> {
    Tensor::new(t.shape().clone(), t.data().clone(), ids).unwrap()
}

#[test]
fn test_upscale2d() {
    let mut ids = TensorIds::new();
    let x = zeros(vec![3, 4, 4], &mut ids);
    let a = Upscale2D::new(8).try_forward(copy(&x, &mut ids), &mut ids).unwrap();
    assert_eq!(a.shape(), &vec![3, 8, 8]);
    let b = Upscale2D::rect(8, 12).try_forward(copy(&x, &mut ids), &mut ids).unwrap();
    assert_eq!(b.shape(), &vec![3, 8, 12]);
    let c = Upscale2D::rect(9, 9).try_forward(x, &mut ids).unwrap();
    assert_eq!(c.shape(), &vec![3, 9, 9]);
}

#[test]
fn test_upscale2dby() {
    let mut ids = TensorIds::new();
    let x = zeros(vec![3, 4, 4], &mut ids);
    let a = Upscale2DBy::new(2).try_forward(copy(&x, &mut ids), &mut ids).unwrap();
    assert_eq!(a.shape(), &vec![3, 8, 8]);
    let b = Upscale2DBy::rect(2, 3).try_forward(copy(&x, &mut ids), &mut ids).unwrap();
    assert_eq!(b.shape(), &vec![3, 8, 12]);
    let c = Upscale2DBy::rect(3, 3).try_forward(copy(&x, &mut ids), &mut ids).unwrap();
    assert_eq!(c.shape(), &vec![3, 12, 12]);
}

#[test]
fn upscale_batched_keeps_leading_dims() {
    let mut ids = TensorIds::new();
    let x = zeros(vec![2, 3, 4, 5], &mut ids);
    let y = Upscale2D::rect(6, 7).try_forward(x, &mut ids).unwrap();
    assert_eq!(y.shape(), &vec![2, 3, 6, 7]);
    assert_eq!(y.data().len(), 2 * 3 * 6 * 7);
}

#[test]
fn upscale_nearest_values() {
    let mut ids = TensorIds::new();
    let x = Tensor::new(vec![1, 2, 2], vec![1, 2, 3, 4], &mut ids).unwrap();
    let y = Upscale2DBy::rect(1, 2).try_forward(x, &mut ids).unwrap();
    assert_eq!(y.shape(), &vec![1, 2, 4]);
    assert_eq!(y.data(), &vec![1, 1, 2, 2, 3, 3, 4, 4]);
}

#[test]
fn upscale_nearest_uneven_target() {
    let mut ids = TensorIds::new();
    let x = Tensor::new(vec![1, 1, 2], vec![5, 9], &mut ids).unwrap();
    let y = Upscale2D::rect(2, 3).try_forward(x, &mut ids).unwrap();
    // column sources: 0*2/3 = 0, 1*2/3 = 0, 2*2/3 = 1
    assert_eq!(y.data(), &vec![5, 5, 9, 5, 5, 9]);
}

#[test]
fn upscale_wrong_rank() {
    let mut ids = TensorIds::new();
    let x = zeros(vec![4, 4], &mut ids);
    let r = Upscale2D::new(8).try_forward(x, &mut ids);
    assert!(matches!(r, Err(UpscaleError::Rank)));
}

#[test]
fn upscale_empty_image() {
    let mut ids = TensorIds::new();
    let x = zeros(vec![1, 0, 2], &mut ids);
    let r = Upscale2D::new(2).try_forward(x, &mut ids);
    assert!(matches!(r, Err(UpscaleError::EmptyImage)));
}

#[test]
fn upscale_factor_too_large() {
    let mut ids = TensorIds::new();
    let x = zeros(vec![1, 2, 2], &mut ids);
    let r = Upscale2DBy::rect(usize::MAX, 1).try_forward(x, &mut ids);
    assert!(matches!(r, Err(UpscaleError::TooLarge)));
}

#[test]
fn upscale_backward_scatters() {
    let mut ids = TensorIds::new();
    let x = Tensor::new(vec![1, 2, 2], vec![1, 2, 3, 4], &mut ids).unwrap();
    let y = Upscale2DBy::new(2).try_forward(x.trace(), &mut ids).unwrap();
    assert_eq!(y.tape_len(), 1);
    let s = y.sum_last_dim(&mut ids).sum_last_dim(&mut ids).sum_last_dim(&mut ids);
    assert_eq!(s.data(), &vec![40]);
    let grads = s.backward().unwrap();
    assert_eq!(grads.ref_gradient(x.id()), Some(&vec![4, 4, 4, 4]));
}
