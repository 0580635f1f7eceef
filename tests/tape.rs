use dfdx::gradients::{Gradients, ShapeMismatch};
use dfdx::tape::{BackwardOp, GradientTape};
use dfdx::tensor::{Tensor, TensorIds};

#[test]
fn shared_operand_gradients_add_up() {
    let mut ids = TensorIds::new();
    let x = Tensor::new(vec![3], vec![1, 2, 3], &mut ids).unwrap();
    let y = x.trace().add(&x, &mut ids);
    assert_eq!(y.data(), &vec![2, 4, 6]);
    let s = y.sum_last_dim(&mut ids);
    assert_eq!(s.data(), &vec![12]);
    let grads = s.backward().unwrap();
    assert_eq!(grads.ref_gradient(x.id()), Some(&vec![2, 2, 2]));
}

#[test]
fn two_reductions_of_one_tensor_add_up() {
    let mut grads = Gradients::new();
    grads.insert(10, vec![3]);
    grads.insert(11, vec![5]);
    let mut tape = GradientTape::new();
    tape.add_operation(BackwardOp::SumLastDim { input: 1, result: 10, width: 2, in_len: 2, out_len: 1 });
    tape.add_operation(BackwardOp::SumLastDim { input: 1, result: 11, width: 2, in_len: 2, out_len: 1 });
    tape.execute(&mut grads).unwrap();
    assert_eq!(grads.ref_gradient(1), Some(&vec![8, 8]));
}

#[test]
fn no_tape_records_nothing() {
    let mut ids = TensorIds::new();
    let x = Tensor::new(vec![2, 2], vec![1, 2, 3, 4], &mut ids).unwrap();
    let y = x.add(&Tensor::new(vec![2, 2], vec![1, 1, 1, 1], &mut ids).unwrap(), &mut ids);
    let z = y.sum_last_dim(&mut ids);
    assert_eq!(z.tape_len(), 0);
    assert_eq!(z.data(), &vec![5, 9]);
    let grads = Gradients::new();
    assert_eq!(grads.ref_gradient(z.id()), None);
}

#[test]
fn trace_twice_gives_independent_tapes() {
    let mut ids = TensorIds::new();
    let x = Tensor::new(vec![3], vec![1, 2, 3], &mut ids).unwrap();
    let a = x.trace();
    let b = x.trace();
    assert_eq!(a.id(), x.id());
    assert_eq!(b.id(), x.id());
    assert_eq!(a.data(), b.data());
    let a2 = a.sum_last_dim(&mut ids);
    assert_eq!(a2.tape_len(), 1);
    assert_eq!(b.tape_len(), 0);
}

#[test]
fn traced_keeps_id_and_data() {
    let mut ids = TensorIds::new();
    let x = Tensor::new(vec![2], vec![7, 8], &mut ids).unwrap();
    let id = x.id();
    let t = x.traced();
    assert_eq!(t.id(), id);
    assert_eq!(t.data(), &vec![7, 8]);
    assert_eq!(t.tape_len(), 0);
}

#[test]
fn replay_runs_last_step_first() {
    // 2 is made from 1 by a sum; 3 is 2 + 2. The seed on 3 must reach 1 through 2.
    let mut grads = Gradients::new();
    grads.insert(3, vec![1]);
    let mut tape = GradientTape::new();
    tape.add_operation(BackwardOp::SumLastDim { input: 1, result: 2, width: 2, in_len: 2, out_len: 1 });
    tape.add_operation(BackwardOp::Add { lhs: 2, rhs: 2, result: 3, len: 1 });
    assert_eq!(tape.len(), 2);
    tape.execute(&mut grads).unwrap();
    assert_eq!(grads.ref_gradient(2), Some(&vec![2]));
    assert_eq!(grads.ref_gradient(1), Some(&vec![2, 2]));
}

#[test]
fn accumulate_rejects_length_mismatch() {
    let mut grads = Gradients::new();
    grads.insert(4, vec![1, 2]);
    assert_eq!(grads.accumulate(4, &vec![1, 1, 1]), Err(ShapeMismatch { id: 4 }));
    assert_eq!(grads.ref_gradient(4), Some(&vec![1, 2]));
    assert_eq!(grads.accumulate(4, &vec![10, 20]), Ok(()));
    assert_eq!(grads.ref_gradient(4), Some(&vec![11, 22]));
}

#[test]
fn execute_reports_mismatch() {
    let mut grads = Gradients::new();
    grads.insert(2, vec![1, 1, 1]);
    let mut tape = GradientTape::new();
    tape.add_operation(BackwardOp::Add { lhs: 1, rhs: 1, result: 2, len: 2 });
    assert!(tape.execute(&mut grads).is_err());
}

#[test]
fn missing_gradient_is_absent() {
    let mut ids = TensorIds::new();
    let x = Tensor::new(vec![2], vec![1, 2], &mut ids).unwrap();
    let unused = Tensor::new(vec![2], vec![3, 4], &mut ids).unwrap();
    let grads = x.trace().sum_last_dim(&mut ids).backward().unwrap();
    assert_eq!(grads.ref_gradient(unused.id()), None);
    assert_eq!(grads.buffer(unused.id(), 2), Ok(vec![0, 0]));
}
