use vstd::prelude::*;
use crate::gradients::{acc, accumulate, add_seqs, buffer_for, zeros};
use crate::tape::{apply, broadcast, replay, BackwardOp};
use crate::upscale::{lemma_flat_bound, lemma_src_bound, nearest_src, scatter, src_of};
use vstd::arithmetic::div_mod::lemma_multiply_divide_lt;

verus! {

/// Adding zero changes nothing, and the order of two addends does not matter.
pub proof fn lemma_acc_zero_comm(a: i64, b: i64)
    ensures
        acc(0, a) == a,
        acc(a, b) == acc(b, a),
{
}

/// The element addition is associative.
pub proof fn lemma_acc_assoc(a: i64, b: i64, c: i64)
    ensures
        acc(acc(a, b), c) == acc(a, acc(b, c)),
{
}

/// Every output position of an upscale reads an input position inside the input.
pub proof fn lemma_src_in_range(o: int, planes: int, ih: int, iw: int, oh: int, ow: int)
    requires
        0 <= o < planes * oh * ow,
        0 <= planes,
        0 <= oh,
        0 <= ow,
        ih > 0,
        iw > 0,
    ensures
        0 <= src_of(o, ih, iw, oh, ow) < planes * ih * iw,
{
    assert(ow > 0 && oh > 0 && planes > 0) by (nonlinear_arith)
        requires
            0 <= o < planes * oh * ow,
            planes >= 0,
            oh >= 0,
            ow >= 0,
    ;
    assert(o < ow * (planes * oh)) by (nonlinear_arith)
        requires
            o < planes * oh * ow,
    ;
    lemma_multiply_divide_lt(o, ow, planes * oh);
    let row = o / ow;
    assert(row < oh * planes) by (nonlinear_arith)
        requires
            row < planes * oh,
    ;
    lemma_multiply_divide_lt(row, oh, planes);
    lemma_src_bound(row % oh, ih, oh);
    lemma_src_bound(o % ow, iw, ow);
    lemma_flat_bound(row / oh, nearest_src(row % oh, ih, oh), nearest_src(o % ow, iw, ow), planes, ih, iw);
}

/// Scattering into a buffer adds to it what scattering into zeros gives.
pub proof fn lemma_scatter_linear(
    b: Seq<i64>,
    rg: Seq<i64>,
    planes: int,
    ih: int,
    iw: int,
    oh: int,
    ow: int,
    k: nat,
)
    requires
        b.len() == planes * ih * iw,
        k <= planes * oh * ow,
        0 <= planes,
        0 <= oh,
        0 <= ow,
        planes * oh * ow == 0 || (ih > 0 && iw > 0),
    ensures
        scatter(b, rg, ih, iw, oh, ow, k) == add_seqs(b, scatter(zeros(b.len()), rg, ih, iw, oh, ow, k)),
        scatter(zeros(b.len()), rg, ih, iw, oh, ow, k).len() == b.len(),
    decreases k,
{
    if k == 0 {
        assert forall|i: int| 0 <= i < b.len() implies #[trigger] add_seqs(b, zeros(b.len()))[i] == b[i] by {
            lemma_acc_zero_comm(b[i], b[i]);
            lemma_acc_zero_comm(0, b[i]);
        }
        assert(add_seqs(b, zeros(b.len())) =~= b);
    } else {
        lemma_scatter_linear(b, rg, planes, ih, iw, oh, ow, (k - 1) as nat);
        lemma_src_in_range(k - 1, planes, ih, iw, oh, ow);
        let j = src_of(k - 1, ih, iw, oh, ow);
        let pb = scatter(b, rg, ih, iw, oh, ow, (k - 1) as nat);
        let pz = scatter(zeros(b.len()), rg, ih, iw, oh, ow, (k - 1) as nat);
        lemma_acc_assoc(b[j], pz[j], rg[k - 1]);
        assert(scatter(b, rg, ih, iw, oh, ow, k) =~= add_seqs(b, scatter(zeros(b.len()), rg, ih, iw, oh, ow, k)));
    }
}

/// The id whose gradient a step reads.
pub open spec fn result_of(op: BackwardOp) -> u64 {
    match op {
        BackwardOp::SumLastDim { result, .. } => result,
        BackwardOp::Add { result, .. } => result,
        BackwardOp::Upscale { result, .. } => result,
    }
}

/// Whether a step adds into the gradient of `id`.
pub open spec fn feeds(op: BackwardOp, id: u64) -> bool {
    match op {
        BackwardOp::SumLastDim { input, .. } => input == id,
        BackwardOp::Add { lhs, rhs, .. } => lhs == id || rhs == id,
        BackwardOp::Upscale { input, .. } => input == id,
    }
}

/// A step changes the gradients it feeds and no others, and leaves each one it feeds present.
pub proof fn lemma_frame(g: Map<u64, Seq<i64>>, op: BackwardOp, k: u64)
    requires
        apply(g, op) is Some,
    ensures
        feeds(op, k) ==> apply(g, op)->Some_0.contains_key(k),
        !feeds(op, k) ==> (apply(g, op)->Some_0.contains_key(k) == g.contains_key(k) && (
        g.contains_key(k) ==> apply(g, op)->Some_0[k] == g[k])),
{
}

/// What a step adds into a gradient `x` that is already there is what it leaves in `x` when
/// `x` starts absent, as long as the gradient it reads is the same.
pub proof fn lemma_step_adds(g: Map<u64, Seq<i64>>, h: Map<u64, Seq<i64>>, op: BackwardOp, x: u64)
    requires
        feeds(op, x),
        result_of(op) != x,
        !g.contains_key(x),
        h.contains_key(x),
        g.contains_key(result_of(op)) == h.contains_key(result_of(op)),
        g.contains_key(result_of(op)) ==> g[result_of(op)] == h[result_of(op)],
        apply(g, op) is Some,
        apply(h, op) is Some,
    ensures
        apply(g, op)->Some_0.contains_key(x),
        apply(g, op)->Some_0[x].len() == h[x].len(),
        apply(h, op)->Some_0[x] == add_seqs(h[x], apply(g, op)->Some_0[x]),
{
    let hx = h[x];
    match op {
        BackwardOp::SumLastDim { input, result, width, in_len, out_len } => {
            let rg = buffer_for(g, result, out_len as nat)->Some_0;
            let bc = broadcast(rg, width as nat, in_len as nat);
            assert forall|i: int| 0 <= i < hx.len() implies #[trigger] add_seqs(
                zeros(in_len as nat),
                bc,
            )[i] == bc[i] by {
                lemma_acc_zero_comm(bc[i], bc[i]);
            }
            assert(add_seqs(hx, bc) =~= add_seqs(hx, add_seqs(zeros(in_len as nat), bc)));
        },
        BackwardOp::Add { lhs, rhs, result, len } => {
            let rg = buffer_for(g, result, len as nat)->Some_0;
            let z = zeros(len as nat);
            if lhs == x && rhs == x {
                assert forall|i: int| 0 <= i < hx.len() implies #[trigger] add_seqs(
                    add_seqs(hx, rg),
                    rg,
                )[i] == add_seqs(hx, add_seqs(add_seqs(z, rg), rg))[i] by {
                    lemma_acc_zero_comm(rg[i], rg[i]);
                    lemma_acc_assoc(hx[i], rg[i], rg[i]);
                }
                assert(add_seqs(add_seqs(hx, rg), rg) =~= add_seqs(hx, add_seqs(add_seqs(z, rg), rg)));
            } else {
                assert forall|i: int| 0 <= i < hx.len() implies #[trigger] add_seqs(z, rg)[i]
                    == rg[i] by {
                    lemma_acc_zero_comm(rg[i], rg[i]);
                }
                assert(add_seqs(hx, rg) =~= add_seqs(hx, add_seqs(z, rg)));
                if lhs == x {
                    let g1 = g.insert(x, add_seqs(z, rg));
                    assert(buffer_for(g, x, len as nat) == Some(z));
                    assert(accumulate(g, lhs, rg) == Some(g1));
                } else {
                    assert(accumulate(g, lhs, rg) is Some);
                    let g1 = accumulate(g, lhs, rg)->Some_0;
                    assert(!g1.contains_key(x));
                    let h1 = accumulate(h, lhs, rg)->Some_0;
                    assert(h1[x] == hx);
                }
            }
        },
        BackwardOp::Upscale { input, result, planes, ih, iw, oh, ow } => {
            let out_len = (planes * oh * ow) as nat;
            let rg = buffer_for(g, result, out_len)->Some_0;
            lemma_scatter_linear(hx, rg, planes as int, ih as int, iw as int, oh as int, ow as int, out_len);
        },
    }
}

/// Gradient contributions add up: when a tensor `x` with no gradient yet is fed by two recorded
/// steps, and the step replayed first leaves alone the gradient that the other one reads,
/// replaying both leaves in `x` the element-wise sum of what each step alone leaves there.
pub proof fn lemma_contributions_add(g: Map<u64, Seq<i64>>, x: u64, op1: BackwardOp, op2: BackwardOp)
    requires
        !g.contains_key(x),
        feeds(op1, x),
        feeds(op2, x),
        result_of(op1) != x,
        result_of(op2) != x,
        !feeds(op2, result_of(op1)),
        replay(g, seq![op1]) is Some,
        replay(g, seq![op2]) is Some,
        replay(g, seq![op1, op2]) is Some,
    ensures
        replay(g, seq![op1, op2])->Some_0[x] == add_seqs(
            replay(g, seq![op1])->Some_0[x],
            replay(g, seq![op2])->Some_0[x],
        ),
{
    let s1 = seq![op1];
    let s2 = seq![op2];
    let s12 = seq![op1, op2];
    assert(s1.drop_last() =~= Seq::<BackwardOp>::empty());
    assert(s2.drop_last() =~= Seq::<BackwardOp>::empty());
    assert(s12.drop_last() =~= s1);
    assert(s12.last() == op2);
    assert(s1.last() == op1);
    assert(s2.last() == op2);
    assert(replay(g, s1) == match apply(g, op1) {
        Some(h) => replay(h, Seq::<BackwardOp>::empty()),
        None => None,
    });
    assert(replay(g, s2) == match apply(g, op2) {
        Some(h) => replay(h, Seq::<BackwardOp>::empty()),
        None => None,
    });
    assert(apply(g, op1) is Some);
    assert(apply(g, op2) is Some);
    let one = apply(g, op1)->Some_0;
    let two = apply(g, op2)->Some_0;
    assert(replay(g, s1) == Some(one));
    assert(replay(g, s2) == Some(two));
    assert(replay(g, s12) == replay(two, s1));
    assert(replay(two, s1) == match apply(two, op1) {
        Some(h) => replay(h, Seq::<BackwardOp>::empty()),
        None => None,
    });
    assert(apply(two, op1) is Some);
    let both = apply(two, op1)->Some_0;
    assert(replay(two, s1) == Some(both));
    lemma_frame(g, op2, x);
    lemma_frame(g, op2, result_of(op1));
    lemma_step_adds(g, two, op1, x);
    assert forall|i: int| 0 <= i < two[x].len() implies #[trigger] add_seqs(two[x], one[x])[i]
        == add_seqs(one[x], two[x])[i] by {
        lemma_acc_zero_comm(two[x][i], one[x][i]);
    }
    assert(add_seqs(two[x], one[x]) =~= add_seqs(one[x], two[x]));
}

/// A tensor used as both operands of one addition receives the result's gradient twice.
pub proof fn lemma_shared_operand(g: Map<u64, Seq<i64>>, x: u64, r: u64, len: usize)
    requires
        !g.contains_key(x),
        r != x,
        buffer_for(g, r, len as nat) is Some,
    ensures
        ({
            let rg = buffer_for(g, r, len as nat)->Some_0;
            let after = replay(g, seq![BackwardOp::Add { lhs: x, rhs: x, result: r, len }]);
            &&& after is Some
            &&& after->Some_0[x] == add_seqs(rg, rg)
        }),
{
    let op = BackwardOp::Add { lhs: x, rhs: x, result: r, len };
    let s = seq![op];
    assert(s.drop_last() =~= Seq::<BackwardOp>::empty());
    let rg = buffer_for(g, r, len as nat)->Some_0;
    let once = add_seqs(zeros(len as nat), rg);
    assert forall|i: int| 0 <= i < len implies #[trigger] once[i] == rg[i] by {
        lemma_acc_zero_comm(rg[i], rg[i]);
    }
    assert(once =~= rg);
    let g1 = g.insert(x, once);
    assert(apply(g, op) == Some(g1.insert(x, add_seqs(once, rg))));
    assert(replay(g, s) == match apply(g, op) {
        Some(h) => replay(h, Seq::<BackwardOp>::empty()),
        None => None,
    });
}

} // verus!
