use dfdx::tensor::{Tensor, TensorIds};

#[test]
fn test_sum_last_0d() {
    let mut ids = TensorIds::new();
    let t = Tensor::new(vec![], vec![2], &mut ids).unwrap();
    let r = t.trace().sum_last_dim(&mut ids);
    assert_eq!(r.data(), &vec![2]);
    let gradients = r.backward().unwrap();
    assert_eq!(gradients.ref_gradient(t.id()), Some(&vec![1]));
}

#[test]
fn test_sum_last_1d() {
    let mut ids = TensorIds::new();
    let t = Tensor::new(vec![3], vec![1, 2, 3], &mut ids).unwrap();
    let r = t.trace().sum_last_dim(&mut ids);
    assert_eq!(r.shape(), &Vec::<usize>::new());
    assert_eq!(r.data(), &vec![6]);
    let gradients = r.backward().unwrap();
    assert_eq!(gradients.ref_gradient(t.id()), Some(&vec![1; 3]));
}

#[test]
fn test_sum_last_2d() {
    let mut ids = TensorIds::new();
    let t = Tensor::new(vec![2, 3], vec![1, 2, 3, 4, 5, 6], &mut ids).unwrap();
    let r = t.trace().sum_last_dim(&mut ids);
    assert_eq!(r.shape(), &vec![2]);
    assert_eq!(r.data(), &vec![6, 15]);
    let total = r.sum_last_dim(&mut ids);
    assert_eq!(total.data(), &vec![21]);
    let gradients = total.backward().unwrap();
    assert_eq!(gradients.ref_gradient(t.id()), Some(&vec![1; 6]));
}

#[test]
fn test_sum_last_3d() {
    let mut ids = TensorIds::new();
    let t = Tensor::new(
        vec![4, 2, 3],
        vec![
            1, 2, 3, 4, 5, 6, -1, -2, -3, -4, -5, -6, -3, 2, -1, -6, 5, -4, 1, -2, 3, 4, -5, 6,
        ],
        &mut ids,
    )
    .unwrap();
    let r = t.trace().sum_last_dim(&mut ids);
    assert_eq!(r.shape(), &vec![4, 2]);
    assert_eq!(r.data(), &vec![6, 15, -6, -15, -2, -5, 2, 5]);
    let total = r.sum_last_dim(&mut ids).sum_last_dim(&mut ids);
    let gradients = total.backward().unwrap();
    assert_eq!(gradients.ref_gradient(t.id()), Some(&vec![1; 24]));
}

#[test]
fn sum_last_zero_width() {
    let mut ids = TensorIds::new();
    let t = Tensor::new(vec![3, 0], vec![], &mut ids).unwrap();
    let r = t.sum_last_dim(&mut ids);
    assert_eq!(r.shape(), &vec![3]);
    assert_eq!(r.data(), &vec![0, 0, 0]);
}

#[test]
fn sum_last_wraps() {
    let mut ids = TensorIds::new();
    let t = Tensor::new(vec![2], vec![i64::MAX, 1], &mut ids).unwrap();
    let r = t.sum_last_dim(&mut ids);
    assert_eq!(r.data(), &vec![i64::MIN]);
}

#[test]
fn new_rejects_wrong_length() {
    let mut ids = TensorIds::new();
    assert!(Tensor::new(vec![2, 3], vec![1, 2, 3], &mut ids).is_none());
    assert!(Tensor::new(vec![usize::MAX, 2], vec![], &mut ids).is_none());
}
