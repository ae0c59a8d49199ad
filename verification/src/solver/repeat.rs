//! What the outcome of a solve does not depend on: what its workspace held before, and whether its
//! sums are taken inside an iteration or on their own.
use super::encode::{PairsView, Recording};
use super::laws::laid_out;
use super::meaning::{
    carried_out, cells, concluded, corrected, ended, initialised, iterated, multiplied,
    preconditioned, prepared_sums, recorded, residual_words, searched, shaped, started, stepped,
    stored, sum_groups, sum_words, summed, vector_groups, with_new_residual, Cells,
};
use super::session::SolveView;
use super::{ContextView, PreparedView};
use crate::command::{CommandView, Kernel};
use crate::device::{
    overwritten, partial_sum, row_sum, staged, strided, updated, whole_sum, Arithmetic, Device,
    Sextet,
};
use crate::runtime::RuntimeView;
use vstd::prelude::*;

verus! {

/// What is asked of the arithmetic of a device: it knows the words that the host writes, and it
/// tells the few small numbers apart by which the solver state is read.
pub open spec fn reads_words<T>(a: Arithmetic<T>) -> bool {
    &&& forall|word: u32| (a.count)(#[trigger] (a.word)(word)) == word
    &&& (a.less)(a.half(), a.one())
    &&& !(a.less)(a.one(), a.half())
    &&& (a.less)(a.zero(), a.half())
    &&& !(a.less)(a.half(), a.zero())
    &&& (a.less)((a.plus)(a.zero(), a.one()), a.one_and_half())
    &&& !(a.at_most)(a.one_and_half(), (a.plus)(a.zero(), a.one()))
}

/// Whether the first `n` words of two buffers are the same.
pub open spec fn same<T>(u: Seq<T>, v: Seq<T>, n: nat) -> bool {
    forall|i: int| 0 <= i < n ==> #[trigger] u[i] == v[i]
}

/// Whether two solves are of the same system: the same matrix, right-hand side and solution so
/// far, and the same preconditioning.
pub open spec fn same_system<T>(
    a: Arithmetic<T>,
    n: usize,
    one: ContextView,
    c: Cells<T>,
    two: ContextView,
    e: Cells<T>,
) -> bool {
    &&& shaped(a, n, c)
    &&& shaped(a, n, e)
    &&& c.rows == e.rows
    &&& c.columns == e.columns
    &&& c.values == e.values
    &&& same(c.x, e.x, n as nat)
    &&& same(c.b, e.b, n as nat)
    &&& one.custom is Some == two.custom is Some
    &&& one.custom is None ==> match (one.preconditioner, two.preconditioner) {
        (Some(PreparedView::Identity), Some(PreparedView::Identity)) => true,
        (Some(PreparedView::Jacobi(_)), Some(PreparedView::Jacobi(_))) => same(
            c.inverse,
            e.inverse,
            n as nat,
        ),
        _ => false,
    }
    &&& c.partials.len() >= 4 * sum_groups(n)
    &&& e.partials.len() >= 4 * sum_groups(n)
    &&& c.result.len() >= 4
    &&& e.result.len() >= 4
    &&& c.vector_params.len() >= 4
    &&& e.vector_params.len() >= 4
    &&& c.reduction_params.len() >= 4
    &&& e.reduction_params.len() >= 4
}

/// Whether two solves have the same residuals and search direction.
pub open spec fn same_vectors<T>(n: usize, c: Cells<T>, e: Cells<T>) -> bool {
    &&& same(c.r, e.r, n as nat)
    &&& same(c.r_hat, e.r_hat, n as nat)
    &&& same(c.p, e.p, n as nat)
}

/// Whether two solves stand at the same point of the same iteration: their vectors and their
/// states are the same, and so is the product `v`, unless no iteration has begun.
pub open spec fn same_course<T>(
    a: Arithmetic<T>,
    n: usize,
    one: ContextView,
    c: Cells<T>,
    two: ContextView,
    e: Cells<T>,
) -> bool {
    &&& same_system(a, n, one, c, two, e)
    &&& same_vectors(n, c, e)
    &&& prepared_sums(a, n, c)
    &&& prepared_sums(a, n, e)
    &&& c.state == e.state
    &&& c.state[12] == a.one() || c.state[12] == a.zero()
    &&& same(c.v, e.v, n as nat) || c.state[13] == a.zero()
}

pub(super) proof fn lemma_row_same<T>(
    a: Arithmetic<T>,
    columns: Seq<T>,
    values: Seq<T>,
    x: Seq<T>,
    y: Seq<T>,
    e: nat,
    end: nat,
    sum: T,
)
    requires
        forall|i: int|
            e <= i < end ==> x[(a.count)(#[trigger] columns[i]) as int] == y[(a.count)(
                columns[i],
            ) as int],
    ensures
        row_sum(a, columns, values, x, e, end, sum) == row_sum(a, columns, values, y, e, end, sum),
    decreases end - e,
{
    if e < end {
        let next = (a.fused)(values[e as int], x[(a.count)(columns[e as int]) as int], sum);
        lemma_row_same(a, columns, values, x, y, e + 1, end, next);
    }
}

/// Products of the same matrix with the same vector are the same, whatever the outputs held.
proof fn lemma_multiplied_same<T>(
    a: Arithmetic<T>,
    n: usize,
    c: Cells<T>,
    e: Cells<T>,
    x: Seq<T>,
    y: Seq<T>,
    cx: Seq<T>,
    ey: Seq<T>,
)
    requires
        n <= u32::MAX,
        shaped(a, n, c),
        c.rows == e.rows,
        c.columns == e.columns,
        c.values == e.values,
        same(x, y, n as nat),
        cx.len() >= n,
        ey.len() >= n,
    ensures
        same(multiplied(a, n, c, x, cx), multiplied(a, n, e, y, ey), n as nat),
        multiplied(a, n, c, x, cx).len() == cx.len(),
        multiplied(a, n, e, y, ey).len() == ey.len(),
{
    super::meaning::lemma_covered(n);
    assert forall|row: int| 0 <= row < n implies #[trigger] multiplied(a, n, c, x, cx)[row]
        == multiplied(a, n, e, y, ey)[row] by {
        let start = (a.count)(c.rows[row]);
        let end = (a.count)(c.rows[row + 1]);
        assert forall|i: int| start <= i < end implies x[(a.count)(
            #[trigger] c.columns[i],
        ) as int] == y[(a.count)(c.columns[i]) as int] by {
            assert((a.count)(c.columns[i]) < n);
        }
        lemma_row_same(a, c.columns, c.values, x, y, start, end, a.zero());
    }
}

/// One lane of a partial sum.
spec fn lane_of<T>(partials: Seq<T>, lane: int, k: int) -> T {
    partials[4 * k + lane]
}

/// Whether a lane of some partial sums is the same as a lane of others.
spec fn same_lane<T>(u: Seq<T>, i: int, v: Seq<T>, j: int, count: nat) -> bool {
    forall|k: int| 0 <= k < count ==> #[trigger] lane_of(u, i, k) == lane_of(v, j, k)
}

proof fn lemma_strided_same<T>(
    a: Arithmetic<T>,
    u: Seq<T>,
    i: int,
    v: Seq<T>,
    j: int,
    index: nat,
    count: nat,
    sum: T,
)
    requires
        same_lane(u, i, v, j, count),
    ensures
        strided(a, u, i, index, count, sum) == strided(a, v, j, index, count, sum),
    decreases
            (if index < count {
                count - index
            } else {
                0
            }),
{
    if index < count {
        assert(lane_of(u, i, index as int) == lane_of(v, j, index as int));
        let next = (a.plus)(sum, u[4 * index + i]);
        lemma_strided_same(a, u, i, v, j, index + 256, count, next);
    }
}

proof fn lemma_whole_same<T>(a: Arithmetic<T>, u: Seq<T>, i: int, v: Seq<T>, j: int, count: nat)
    requires
        same_lane(u, i, v, j, count),
    ensures
        whole_sum(a, u, i, count) == whole_sum(a, v, j, count),
{
    let left = Seq::new(256, |index: int| strided(a, u, i, index as nat, count, a.zero()));
    let right = Seq::new(256, |index: int| strided(a, v, j, index as nat, count, a.zero()));
    assert forall|index: int| 0 <= index < 256 implies left[index] == right[index] by {
        lemma_strided_same(a, u, i, v, j, index as nat, count, a.zero());
    }
    assert(left =~= right);
}

proof fn lemma_partial_same<T>(
    a: Arithmetic<T>,
    x: Seq<T>,
    y: Seq<T>,
    u: Seq<T>,
    v: Seq<T>,
    n: nat,
    group: nat,
)
    requires
        same(x, u, n),
        same(y, v, n),
    ensures
        partial_sum(a, x, y, n, group) == partial_sum(a, u, v, n, group),
{
    let left = Seq::new(
        256,
        |lane: int|
            if group * 256 + lane < n {
                (a.times)(x[group * 256 + lane], y[group * 256 + lane])
            } else {
                a.zero()
            },
    );
    let right = Seq::new(
        256,
        |lane: int|
            if group * 256 + lane < n {
                (a.times)(u[group * 256 + lane], v[group * 256 + lane])
            } else {
                a.zero()
            },
    );
    assert(left =~= right);
}

/// Whether six vectors are the same as six others.
spec fn same_sextet<T>(v: Sextet<T>, w: Sextet<T>, n: nat) -> bool {
    &&& same(v.x0, w.x0, n)
    &&& same(v.y0, w.y0, n)
    &&& same(v.x1, w.x1, n)
    &&& same(v.y1, w.y1, n)
    &&& same(v.x2, w.x2, n)
    &&& same(v.y2, w.y2, n)
}

/// Sums of the same vectors are the same, whatever the buffers of the sums held.
#[verifier::spinoff_prover]
proof fn lemma_summed_same<T>(
    a: Arithmetic<T>,
    n: usize,
    c: Cells<T>,
    v: Sextet<T>,
    e: Cells<T>,
    w: Sextet<T>,
)
    requires
        prepared_sums(a, n, c),
        prepared_sums(a, n, e),
        same_sextet(v, w, n as nat),
        c.partials.len() >= 4 * sum_groups(n),
        e.partials.len() >= 4 * sum_groups(n),
        c.result.len() >= 4,
        e.result.len() >= 4,
    ensures
        same(summed(a, n, c, v).result, summed(a, n, e, w).result, 4),
        summed(a, n, c, v).result.len() == c.result.len(),
        summed(a, n, e, w).result.len() == e.result.len(),
        summed(a, n, c, v).partials.len() == c.partials.len(),
        summed(a, n, e, w).partials.len() == e.partials.len(),
{
    let g = sum_groups(n);
    let left = staged(a, g, v, c.reduction_params, c.partials);
    let right = staged(a, g, w, e.reduction_params, e.partials);
    assert forall|lane: int| 0 <= lane < 4 implies summed(a, n, c, v).result[lane] == summed(
        a,
        n,
        e,
        w,
    ).result[lane] by {
        assert forall|k: int| 0 <= k < g implies #[trigger] lane_of(left, lane, k) == lane_of(
            right,
            lane,
            k,
        ) by {
            lemma_partial_same(a, v.x0, v.y0, w.x0, w.y0, n as nat, k as nat);
            lemma_partial_same(a, v.x1, v.y1, w.x1, w.y1, n as nat, k as nat);
            lemma_partial_same(a, v.x2, v.y2, w.x2, w.y2, n as nat, k as nat);
            assert((4 * k + lane) / 4 == k && (4 * k + lane) % 4 == lane);
        }
        lemma_whole_same(a, left, lane, right, lane, g);
    }
}

/// What a preconditioner makes of the same vector is the same, whatever the output held.
proof fn lemma_preconditioned_same<T>(
    d: Device<T>,
    n: usize,
    one: ContextView,
    c: Cells<T>,
    two: ContextView,
    e: Cells<T>,
    x: Seq<T>,
    y: Seq<T>,
    cx: Seq<T>,
    ey: Seq<T>,
)
    requires
        n <= u32::MAX,
        4 * n <= usize::MAX,
        same_system(d.arithmetic, n, one, c, two, e),
        x.len() >= n,
        y.len() >= n,
        cx.len() >= n,
        ey.len() >= n,
        same(x, y, n as nat),
    ensures
        ({
            let left = preconditioned(d, one, n, c.inverse, x, cx);
            let right = preconditioned(d, two, n, e.inverse, y, ey);
            &&& same(left, right, n as nat)
            &&& left.len() == cx.len()
            &&& right.len() == ey.len()
        }),
{
    super::meaning::lemma_covered(n);
    assert(x.take(n as int) =~= y.take(n as int));
    assert(crate::runtime::single_bytes(n) / 4 == n);
}

/// The scalar kernels make the same of the same state, where the sums that a running state looks
/// at are the same.
proof fn lemma_stepped_same<T>(a: Arithmetic<T>, kernel: Kernel, c: Cells<T>, e: Cells<T>)
    requires
        reads_words(a),
        crate::command::kernel_module(kernel) is ResidentScalar,
        c.state.len() == 16,
        c.state == e.state,
        c.state[12] == a.one() || c.state[12] == a.zero(),
        a.running(c.state) ==> same(c.result, e.result, 4),
    ensures
        ({
            let after = stepped(a, kernel, c).state;
            &&& after == stepped(a, kernel, e).state
            &&& after.len() == 16
            &&& after[12] == a.one() || after[12] == a.zero()
            &&& a.running(after) ==> a.running(c.state) && after[13] == if kernel is
                BeginIteration {
                (a.plus)(c.state[13], a.one())
            } else {
                c.state[13]
            }
        }),
{
    if a.running(c.state) {
        assert(c.result[0] == e.result[0]);
        assert(c.result[1] == e.result[1]);
        assert(c.result[2] == e.result[2]);
    }
}

#[verifier::spinoff_prover]
#[verifier::rlimit(60)]
proof fn lemma_searched_same<T>(
    d: Device<T>,
    n: usize,
    one: ContextView,
    c: Cells<T>,
    two: ContextView,
    e: Cells<T>,
)
    requires
        n <= u32::MAX,
        4 * n <= usize::MAX,
        reads_words(d.arithmetic),
        same_course(d.arithmetic, n, one, c, two, e),
    ensures
        ({
            let after = searched(d, one, n, c);
            let other = searched(d, two, n, e);
            &&& same_course(d.arithmetic, n, one, after, two, other)
            &&& same(after.v, other.v, n as nat)
            &&& same(after.z_p, other.z_p, n as nat)
        }),
{
    let a = d.arithmetic;
    let g = vector_groups(n);
    super::meaning::lemma_covered(n);
    let v1 = Sextet { x0: c.r_hat, y0: c.r, x1: c.r, y1: c.r, x2: c.r, y2: c.r };
    let w1 = Sextet { x0: e.r_hat, y0: e.r, x1: e.r, y1: e.r, x2: e.r, y2: e.r };
    lemma_summed_same(a, n, c, v1, e, w1);
    let c1 = summed(a, n, c, v1);
    let e1 = summed(a, n, e, w1);
    lemma_stepped_same(a, Kernel::BeginIteration, c1, e1);
    let c2 = stepped(a, Kernel::BeginIteration, c1);
    let e2 = stepped(a, Kernel::BeginIteration, e1);
    let cp = updated(a, Kernel::UpdatePOmega, g, c2.state, c2.r, c2.p, c2.v);
    let ep = updated(a, Kernel::UpdatePOmega, g, e2.state, e2.r, e2.p, e2.v);
    assert forall|i: int| 0 <= i < n implies #[trigger] cp[i] == ep[i] by {
        assert(c2.p[i] == e2.p[i]);
        if a.running(c2.state) && (a.at_most)(a.one_and_half(), c2.state[13]) {
            assert(c2.v[i] == e2.v[i]);
        }
    }
    let c3 = Cells { p: cp, ..c2 };
    let e3 = Cells { p: ep, ..e2 };
    let cq = updated(a, Kernel::PrepareP, g, c3.state, c3.r, c3.p, c3.v);
    let eq = updated(a, Kernel::PrepareP, g, e3.state, e3.r, e3.p, e3.v);
    assert forall|i: int| 0 <= i < n implies #[trigger] cq[i] == eq[i] by {
        assert(c3.p[i] == e3.p[i]);
        assert(c3.r[i] == e3.r[i]);
    }
    let c4 = Cells { p: cq, ..c3 };
    let e4 = Cells { p: eq, ..e3 };
    lemma_preconditioned_same(d, n, one, c, two, e, c4.p, e4.p, c4.z_p, e4.z_p);
    let c5 = Cells { z_p: preconditioned(d, one, n, c4.inverse, c4.p, c4.z_p), ..c4 };
    let e5 = Cells { z_p: preconditioned(d, two, n, e4.inverse, e4.p, e4.z_p), ..e4 };
    lemma_multiplied_same(a, n, c5, e5, c5.z_p, e5.z_p, c5.v, e5.v);
    let c6 = Cells { v: multiplied(a, n, c5, c5.z_p, c5.v), ..c5 };
    let e6 = Cells { v: multiplied(a, n, e5, e5.z_p, e5.v), ..e5 };
    let v7 = Sextet {
        x0: c6.r_hat,
        y0: c6.v,
        x1: c6.r_hat,
        y1: c6.v,
        x2: c6.r_hat,
        y2: c6.v,
    };
    let w7 = Sextet {
        x0: e6.r_hat,
        y0: e6.v,
        x1: e6.r_hat,
        y1: e6.v,
        x2: e6.r_hat,
        y2: e6.v,
    };
    lemma_summed_same(a, n, c6, v7, e6, w7);
    let c7 = summed(a, n, c6, v7);
    let e7 = summed(a, n, e6, w7);
    lemma_stepped_same(a, Kernel::FinishAlpha, c7, e7);
}

#[verifier::spinoff_prover]
#[verifier::rlimit(60)]
proof fn lemma_corrected_same<T>(
    d: Device<T>,
    n: usize,
    one: ContextView,
    c: Cells<T>,
    two: ContextView,
    e: Cells<T>,
)
    requires
        n <= u32::MAX,
        4 * n <= usize::MAX,
        reads_words(d.arithmetic),
        same_course(d.arithmetic, n, one, c, two, e),
        same(c.v, e.v, n as nat),
        same(c.z_p, e.z_p, n as nat),
    ensures
        ({
            let after = corrected(d, one, n, c);
            let other = corrected(d, two, n, e);
            &&& same_course(d.arithmetic, n, one, after, two, other)
            &&& same(after.v, other.v, n as nat)
            &&& d.arithmetic.running(after.state) ==> same(after.s, other.s, n as nat) && same(
                after.t,
                other.t,
                n as nat,
            ) && same(after.z_s, other.z_s, n as nat)
        }),
{
    let a = d.arithmetic;
    let g = vector_groups(n);
    super::meaning::lemma_covered(n);
    let running = a.running(c.state);
    let c1 = Cells { s: updated(a, Kernel::MakeS, g, c.state, c.r, c.s, c.v), ..c };
    let e1 = Cells { s: updated(a, Kernel::MakeS, g, e.state, e.r, e.s, e.v), ..e };
    assert forall|i: int| running && 0 <= i < n implies #[trigger] c1.s[i] == e1.s[i] by {
        assert(c.r[i] == e.r[i] && c.v[i] == e.v[i]);
    }
    let c2 = Cells { x: updated(a, Kernel::UpdateXAlpha, g, c1.state, c1.z_p, c1.x, c1.t), ..c1 };
    let e2 = Cells { x: updated(a, Kernel::UpdateXAlpha, g, e1.state, e1.z_p, e1.x, e1.t), ..e1 };
    assert forall|i: int| 0 <= i < n implies #[trigger] c2.x[i] == e2.x[i] by {
        assert(c.x[i] == e.x[i] && c.z_p[i] == e.z_p[i]);
    }
    let c3 = Cells { z_s: preconditioned(d, one, n, c2.inverse, c2.s, c2.z_s), ..c2 };
    let e3 = Cells { z_s: preconditioned(d, two, n, e2.inverse, e2.s, e2.z_s), ..e2 };
    let c4 = Cells { t: multiplied(a, n, c3, c3.z_s, c3.t), ..c3 };
    let e4 = Cells { t: multiplied(a, n, e3, e3.z_s, e3.t), ..e3 };
    let v5 = Sextet { x0: c4.s, y0: c4.s, x1: c4.t, y1: c4.t, x2: c4.t, y2: c4.s };
    let w5 = Sextet { x0: e4.s, y0: e4.s, x1: e4.t, y1: e4.t, x2: e4.t, y2: e4.s };
    let c5 = summed(a, n, c4, v5);
    let e5 = summed(a, n, e4, w5);
    if running {
        lemma_preconditioned_same(d, n, one, c, two, e, c2.s, e2.s, c2.z_s, e2.z_s);
        lemma_multiplied_same(a, n, c3, e3, c3.z_s, e3.z_s, c3.t, e3.t);
        lemma_summed_same(a, n, c4, v5, e4, w5);
    }
    lemma_stepped_same(a, Kernel::CheckS, c5, e5);
    let c6 = stepped(a, Kernel::CheckS, c5);
    let e6 = stepped(a, Kernel::CheckS, e5);
    lemma_stepped_same(a, Kernel::FinishOmega, c6, e6);
    assert(c3.z_s.len() == c.z_s.len() && e3.z_s.len() == e.z_s.len());
    assert(c4.t.len() == c.t.len() && e4.t.len() == e.t.len());
}

#[verifier::spinoff_prover]
#[verifier::rlimit(60)]
proof fn lemma_concluded_same<T>(
    d: Device<T>,
    n: usize,
    one: ContextView,
    c: Cells<T>,
    two: ContextView,
    e: Cells<T>,
)
    requires
        n <= u32::MAX,
        reads_words(d.arithmetic),
        same_course(d.arithmetic, n, one, c, two, e),
        same(c.v, e.v, n as nat),
        d.arithmetic.running(c.state) ==> same(c.s, e.s, n as nat) && same(c.t, e.t, n as nat)
            && same(c.z_s, e.z_s, n as nat),
    ensures
        same_course(d.arithmetic, n, one, concluded(d, n, c), two, concluded(d, n, e)),
        same(concluded(d, n, c).v, concluded(d, n, e).v, n as nat),
{
    let a = d.arithmetic;
    let g = vector_groups(n);
    let c1 = Cells { x: updated(a, Kernel::UpdateXOmega, g, c.state, c.z_s, c.x, c.t), ..c };
    let e1 = Cells { x: updated(a, Kernel::UpdateXOmega, g, e.state, e.z_s, e.x, e.t), ..e };
    assert forall|i: int| 0 <= i < n implies #[trigger] c1.x[i] == e1.x[i] by {
        assert(c.x[i] == e.x[i]);
        if a.running(c.state) {
            assert(c.z_s[i] == e.z_s[i]);
        }
    }
    let c2 = Cells { r: updated(a, Kernel::MakeR, g, c1.state, c1.s, c1.r, c1.t), ..c1 };
    let e2 = Cells { r: updated(a, Kernel::MakeR, g, e1.state, e1.s, e1.r, e1.t), ..e1 };
    assert forall|i: int| 0 <= i < n implies #[trigger] c2.r[i] == e2.r[i] by {
        assert(c.r[i] == e.r[i]);
        if a.running(c.state) {
            assert(c.s[i] == e.s[i] && c.t[i] == e.t[i]);
        }
    }
    let v3 = Sextet { x0: c2.r_hat, y0: c2.r, x1: c2.r, y1: c2.r, x2: c2.r, y2: c2.r };
    let w3 = Sextet { x0: e2.r_hat, y0: e2.r, x1: e2.r, y1: e2.r, x2: e2.r, y2: e2.r };
    lemma_summed_same(a, n, c2, v3, e2, w3);
    lemma_stepped_same(a, Kernel::CheckR, summed(a, n, c2, v3), summed(a, n, e2, w3));
}

/// An iteration makes the same of two solves that stand at the same point, whatever else their
/// workspaces hold.
pub proof fn law_iterated_same<T>(
    d: Device<T>,
    n: usize,
    one: ContextView,
    c: Cells<T>,
    two: ContextView,
    e: Cells<T>,
)
    requires
        n <= u32::MAX,
        4 * n <= usize::MAX,
        reads_words(d.arithmetic),
        same_course(d.arithmetic, n, one, c, two, e),
    ensures
        same_course(d.arithmetic, n, one, iterated(d, one, n, c), two, iterated(d, two, n, e)),
{
    let c1 = searched(d, one, n, c);
    let e1 = searched(d, two, n, e);
    lemma_searched_same(d, n, one, c, two, e);
    lemma_corrected_same(d, n, one, c1, two, e1);
    lemma_concluded_same(d, n, one, corrected(d, one, n, c1), two, corrected(d, two, n, e1));
}

/// The residual of the same system is the same, whatever the workspace held.
#[verifier::spinoff_prover]
proof fn lemma_residual_same<T>(
    a: Arithmetic<T>,
    n: usize,
    one: ContextView,
    c: Cells<T>,
    two: ContextView,
    e: Cells<T>,
)
    requires
        n <= u32::MAX,
        4 * n <= usize::MAX,
        reads_words(a),
        same_system(a, n, one, c, two, e),
    ensures
        ({
            let after = with_new_residual(a, n, c);
            let other = with_new_residual(a, n, e);
            &&& same_system(a, n, one, after, two, other)
            &&& same(after.r, other.r, n as nat)
        }),
{
    super::meaning::lemma_covered(n);
    assert(crate::runtime::single_bytes(n) / 4 == n);
    lemma_multiplied_same(a, n, c, e, c.x, e.x, c.ax, e.ax);
    let after = with_new_residual(a, n, c);
    let other = with_new_residual(a, n, e);
    assert(residual_words(n).len() == 4);
    assert forall|i: int| 0 <= i < 4 implies after.vector_params[i]
        == other.vector_params[i] by {}
    assert((a.count)(after.vector_params[2]) == n);
    assert forall|i: int| 0 <= i < n implies #[trigger] after.r[i] == other.r[i] by {
        assert(after.ax[i] == other.ax[i]);
        assert(c.b[i] == e.b[i]);
        assert(after.vector_params[0] == other.vector_params[0]);
        assert(after.vector_params[1] == other.vector_params[1]);
        assert(after.vector_params[2] == other.vector_params[2]);
    }
}

/// The parameters of a reduction are in place after they have been written.
pub(super) proof fn lemma_sums_prepared<T>(a: Arithmetic<T>, n: usize, c: Cells<T>)
    requires
        n <= u32::MAX,
        forall|word: u32| (a.count)(#[trigger] (a.word)(word)) == word,
        c.reduction_params.len() >= 4,
    ensures
        prepared_sums(
            a,
            n,
            Cells { reduction_params: stored(a, c.reduction_params, sum_words(n)), ..c },
        ),
        stored(a, c.reduction_params, sum_words(n)).len() == c.reduction_params.len(),
{
    let params = stored(a, c.reduction_params, sum_words(n));
    assert(params[0] == (a.word)(n as u32));
    assert(params[1] == (a.word)(super::partial_sums(n as nat) as usize as u32));
}

/// The first commands of a solve make the same of two solves of the same system.
#[verifier::spinoff_prover]
proof fn lemma_started_same<T>(
    a: Arithmetic<T>,
    n: usize,
    one: ContextView,
    c: Cells<T>,
    two: ContextView,
    e: Cells<T>,
)
    requires
        n <= u32::MAX,
        4 * n <= usize::MAX,
        reads_words(a),
        same_system(a, n, one, c, two, e),
    ensures
        same_system(a, n, one, started(a, n, c), two, started(a, n, e)),
        same_vectors(n, started(a, n, c), started(a, n, e)),
        same(started(a, n, c).result, started(a, n, e).result, 4),
{
    lemma_residual_same(a, n, one, c, two, e);
    assert(crate::runtime::single_bytes(n) / 4 == n);
    let whole = n as nat;
    let c1 = with_new_residual(a, n, c);
    let e1 = with_new_residual(a, n, e);
    let c2 = Cells { r_hat: overwritten(c1.r_hat, c1.r, whole), ..c1 };
    let e2 = Cells { r_hat: overwritten(e1.r_hat, e1.r, whole), ..e1 };
    let c3 = Cells { p: overwritten(c2.p, c2.r, whole), ..c2 };
    let e3 = Cells { p: overwritten(e2.p, e2.r, whole), ..e2 };
    assert forall|i: int| 0 <= i < n implies #[trigger] c3.r_hat[i] == e3.r_hat[i] by {
        assert(c1.r[i] == e1.r[i]);
    }
    assert forall|i: int| 0 <= i < n implies #[trigger] c3.p[i] == e3.p[i] by {
        assert(c1.r[i] == e1.r[i]);
    }
    lemma_sums_prepared(a, n, c3);
    lemma_sums_prepared(a, n, e3);
    let c4 = Cells { reduction_params: stored(a, c3.reduction_params, sum_words(n)), ..c3 };
    let e4 = Cells { reduction_params: stored(a, e3.reduction_params, sum_words(n)), ..e3 };
    let v = Sextet { x0: c3.b, y0: c3.b, x1: c3.r, y1: c3.r, x2: c3.r, y2: c3.r };
    let w = Sextet { x0: e3.b, y0: e3.b, x1: e3.r, y1: e3.r, x2: e3.r, y2: e3.r };
    lemma_summed_same(a, n, c4, v, e4, w);
}

/// The last commands of a solve make the same of two solves of the same system.
proof fn lemma_ended_same<T>(
    a: Arithmetic<T>,
    n: usize,
    one: ContextView,
    c: Cells<T>,
    two: ContextView,
    e: Cells<T>,
)
    requires
        n <= u32::MAX,
        4 * n <= usize::MAX,
        reads_words(a),
        same_system(a, n, one, c, two, e),
    ensures
        same_system(a, n, one, ended(a, n, c), two, ended(a, n, e)),
        same(ended(a, n, c).result, ended(a, n, e).result, 4),
{
    lemma_residual_same(a, n, one, c, two, e);
    let c1 = with_new_residual(a, n, c);
    let e1 = with_new_residual(a, n, e);
    lemma_sums_prepared(a, n, c1);
    lemma_sums_prepared(a, n, e1);
    let c2 = Cells { reduction_params: stored(a, c1.reduction_params, sum_words(n)), ..c1 };
    let e2 = Cells { reduction_params: stored(a, e1.reduction_params, sum_words(n)), ..e1 };
    let v = Sextet { x0: c1.r, y0: c1.r, x1: c1.r, y1: c1.r, x2: c1.r, y2: c1.r };
    let w = Sextet { x0: e1.r, y0: e1.r, x1: e1.r, y1: e1.r, x2: e1.r, y2: e1.r };
    lemma_summed_same(a, n, c2, v, e2, w);
}

/// The single `1` is the word that the state starts running with.
proof fn lemma_one()
    ensures
        crate::portable::count_single(1) == 0x3f80_0000u32,
{
    vstd::arithmetic::power2::lemma2_to64();
    crate::rounding::lemma_units_of_parts(23, 126, 0x80_0000);
    vstd::arithmetic::power2::lemma_pow2_adds(23, 126);
    let half = vstd::arithmetic::power2::pow2(149);
    assert(crate::portable::units32(0x3f80_0000) == 1 * half);
    crate::portable::lemma_count_single(1, 0x3f80_0000);
}

/// The same state is written over whatever the buffer of the state held, and the iteration begins
/// at the same point.
proof fn lemma_initialised_same<T>(
    a: Arithmetic<T>,
    convergence: crate::convergence::Convergence,
    rhs_squared: u64,
    residual_squared: u64,
    n: usize,
    one: ContextView,
    c: Cells<T>,
    two: ContextView,
    e: Cells<T>,
)
    requires
        n <= u32::MAX,
        reads_words(a),
        same_system(a, n, one, c, two, e),
        same_vectors(n, c, e),
    ensures
        same_course(
            a,
            n,
            one,
            initialised(a, convergence, rhs_squared, residual_squared, n, c),
            two,
            initialised(a, convergence, rhs_squared, residual_squared, n, e),
        ),
{
    lemma_one();
    lemma_sums_prepared(a, n, c);
    lemma_sums_prepared(a, n, e);
    let words = super::encode::resident_state(convergence, rhs_squared, residual_squared);
    let left = stored(a, c.state, words);
    let right = stored(a, e.state, words);
    assert(words.len() == 16);
    assert(left =~= right);
    assert(left[12] == (a.word)(words[12]));
    assert(left[13] == (a.word)(words[13]));
}

/// Two solves on one device, each with its own context, workspace and memory.
pub ghost struct Twins<T> {
    pub m: Map<usize, Seq<T>>,
    pub before: RuntimeView,
    pub context: ContextView,
    pub solve: SolveView,
    pub sizes: Seq<u64>,
    pub other_m: Map<usize, Seq<T>>,
    pub other_before: RuntimeView,
    pub other_context: ContextView,
    pub other_solve: SolveView,
    pub other_sizes: Seq<u64>,
}

impl<T> Twins<T> {
    /// Whether both solves can run, are laid out and have the same length and tolerances.
    pub open spec fn ready(self, d: Device<T>) -> bool {
        &&& self.solve.active(self.context)
        &&& laid_out(self.context, self.solve, self.sizes)
        &&& self.other_solve.active(self.other_context)
        &&& laid_out(self.other_context, self.other_solve, self.other_sizes)
        &&& self.solve.workspace.n == self.other_solve.workspace.n
        &&& self.context.convergence == self.other_context.convergence
        &&& self.before.order == d.order
        &&& self.other_before.order == d.order
        &&& 4 * self.solve.workspace.n <= usize::MAX
        &&& reads_words(d.arithmetic)
    }

    /// What the buffers of the first solve hold.
    pub open spec fn cells(self) -> Cells<T> {
        cells(self.m, self.context, self.solve)
    }

    /// What the buffers of the second solve hold.
    pub open spec fn other_cells(self) -> Cells<T> {
        cells(self.other_m, self.other_context, self.other_solve)
    }

    /// What the buffers of the first solve hold after commands have been carried out.
    pub open spec fn after(self, d: Device<T>, then: RuntimeView) -> Cells<T> {
        cells(carried_out(d, self.m, self.before, then), self.context, self.solve)
    }

    /// What the buffers of the second solve hold after commands have been carried out.
    pub open spec fn other_after(self, d: Device<T>, then: RuntimeView) -> Cells<T> {
        cells(
            carried_out(d, self.other_m, self.other_before, then),
            self.other_context,
            self.other_solve,
        )
    }

    /// Whether two cells are those of the same system.
    pub open spec fn same_system(self, d: Device<T>, c: Cells<T>, e: Cells<T>) -> bool {
        same_system(d.arithmetic, self.solve.workspace.n, self.context, c, self.other_context, e)
    }

    /// Whether two cells stand at the same point of an iteration.
    pub open spec fn same_course(self, d: Device<T>, c: Cells<T>, e: Cells<T>) -> bool {
        same_course(d.arithmetic, self.solve.workspace.n, self.context, c, self.other_context, e)
    }
}

/// The start of a solve does not depend on what its workspace held: two solves of the same system
/// are told the same sums, and go on with the same vectors.
pub proof fn law_startup_forgets<T>(d: Device<T>, twins: Twins<T>)
    requires
        twins.ready(d),
        twins.same_system(d, twins.cells(), twins.other_cells()),
    ensures
        ({
            let c = twins.after(
                d,
                super::session::with_startup(twins.before, twins.context, twins.solve),
            );
            let e = twins.other_after(
                d,
                super::session::with_startup(
                    twins.other_before,
                    twins.other_context,
                    twins.other_solve,
                ),
            );
            &&& twins.same_system(d, c, e)
            &&& same_vectors(twins.solve.workspace.n, c, e)
            &&& same(c.result, e.result, 4)
        }),
{
    let n = twins.solve.workspace.n;
    super::meaning::law_steps_meaning(
        d,
        twins.m,
        twins.before,
        twins.context,
        twins.solve,
        twins.sizes,
        0,
        0,
    );
    super::meaning::law_steps_meaning(
        d,
        twins.other_m,
        twins.other_before,
        twins.other_context,
        twins.other_solve,
        twins.other_sizes,
        0,
        0,
    );
    lemma_started_same(
        d.arithmetic,
        n,
        twins.context,
        twins.cells(),
        twins.other_context,
        twins.other_cells(),
    );
}

/// Nor does the point at which its iteration begins.
pub proof fn law_state_forgets<T>(
    d: Device<T>,
    twins: Twins<T>,
    rhs_squared: u64,
    residual_squared: u64,
)
    requires
        twins.ready(d),
        twins.same_system(d, twins.cells(), twins.other_cells()),
        same_vectors(twins.solve.workspace.n, twins.cells(), twins.other_cells()),
    ensures
        twins.same_course(
            d,
            twins.after(
                d,
                super::session::with_state(
                    twins.before,
                    twins.context,
                    twins.solve,
                    rhs_squared,
                    residual_squared,
                ),
            ),
            twins.other_after(
                d,
                super::session::with_state(
                    twins.other_before,
                    twins.other_context,
                    twins.other_solve,
                    rhs_squared,
                    residual_squared,
                ),
            ),
        ),
{
    super::meaning::law_steps_meaning(
        d,
        twins.m,
        twins.before,
        twins.context,
        twins.solve,
        twins.sizes,
        rhs_squared,
        residual_squared,
    );
    super::meaning::law_steps_meaning(
        d,
        twins.other_m,
        twins.other_before,
        twins.other_context,
        twins.other_solve,
        twins.other_sizes,
        rhs_squared,
        residual_squared,
    );
    lemma_initialised_same(
        d.arithmetic,
        twins.context.convergence,
        rhs_squared,
        residual_squared,
        twins.solve.workspace.n,
        twins.context,
        twins.cells(),
        twins.other_context,
        twins.other_cells(),
    );
}

proof fn lemma_iterations_same<T>(d: Device<T>, twins: Twins<T>, label: Seq<char>, count: nat)
    requires
        twins.ready(d),
        twins.same_course(d, twins.cells(), twins.other_cells()),
    ensures
        ({
            let start = Recording {
                runtime: twins.before,
                encoder: crate::command::EncoderView::empty(label),
            };
            let other_start = Recording {
                runtime: twins.other_before,
                encoder: crate::command::EncoderView::empty(label),
            };
            let end = super::session::iterations(start, twins.context, twins.solve, count);
            let other_end = super::session::iterations(
                other_start,
                twins.other_context,
                twins.other_solve,
                count,
            );
            &&& twins.before.commands.len() <= end.runtime.commands.len()
            &&& twins.other_before.commands.len() <= other_end.runtime.commands.len()
            &&& twins.same_course(
                d,
                cells(
                    recorded(d, twins.m, twins.before, end),
                    twins.context,
                    twins.solve,
                ),
                cells(
                    recorded(d, twins.other_m, twins.other_before, other_end),
                    twins.other_context,
                    twins.other_solve,
                ),
            )
        }),
    decreases count,
{
    let start = Recording {
        runtime: twins.before,
        encoder: crate::command::EncoderView::empty(label),
    };
    let other_start = Recording {
        runtime: twins.other_before,
        encoder: crate::command::EncoderView::empty(label),
    };
    if count == 0 {
        assert(super::laws::appended(twins.before, twins.before) =~= seq![]);
        assert(super::laws::appended(twins.other_before, twins.other_before) =~= seq![]);
        assert(start.encoder.encoded =~= seq![]);
        assert(recorded(d, twins.m, twins.before, start) == twins.m);
        assert(recorded(d, twins.other_m, twins.other_before, other_start) == twins.other_m);
    } else {
        lemma_iterations_same(d, twins, label, (count - 1) as nat);
        let done = super::session::iterations(
            start,
            twins.context,
            twins.solve,
            (count - 1) as nat,
        );
        let other_done = super::session::iterations(
            other_start,
            twins.other_context,
            twins.other_solve,
            (count - 1) as nat,
        );
        super::meaning::law_iteration_meaning(
            d,
            twins.m,
            twins.before,
            done,
            twins.context,
            twins.solve,
            twins.sizes,
        );
        super::meaning::law_iteration_meaning(
            d,
            twins.other_m,
            twins.other_before,
            other_done,
            twins.other_context,
            twins.other_solve,
            twins.other_sizes,
        );
        law_iterated_same(
            d,
            twins.solve.workspace.n,
            twins.context,
            cells(recorded(d, twins.m, twins.before, done), twins.context, twins.solve),
            twins.other_context,
            cells(
                recorded(d, twins.other_m, twins.other_before, other_done),
                twins.other_context,
                twins.other_solve,
            ),
        );
    }
}

/// A batch of iterations makes the same of two solves that stand at the same point: the same
/// solution, and the same state for the host to read.
pub proof fn law_batch_forgets<T>(d: Device<T>, twins: Twins<T>, count: nat)
    requires
        twins.ready(d),
        twins.same_course(d, twins.cells(), twins.other_cells()),
    ensures
        ({
            let c = twins.after(
                d,
                super::session::with_batch(twins.before, twins.context, twins.solve, count),
            );
            let e = twins.other_after(
                d,
                super::session::with_batch(
                    twins.other_before,
                    twins.other_context,
                    twins.other_solve,
                    count,
                ),
            );
            &&& twins.same_course(d, c, e)
            &&& same(c.x, e.x, twins.solve.workspace.n as nat)
            &&& c.state == e.state
        }),
{
    let label = "kryst resident BiCGSTAB batch"@;
    let encoder = crate::command::EncoderView::empty(label);
    lemma_iterations_same(d, twins, label, count);
    let end = super::session::iterations(
        Recording { runtime: twins.before, encoder },
        twins.context,
        twins.solve,
        count,
    );
    let other_end = super::session::iterations(
        Recording { runtime: twins.other_before, encoder },
        twins.other_context,
        twins.other_solve,
        count,
    );
    super::meaning::lemma_run_more(
        d,
        twins.m,
        twins.before,
        end.runtime,
        CommandView::Submit { label: end.encoder.label, encoded: end.encoder.encoded },
    );
    super::meaning::lemma_run_more(
        d,
        twins.other_m,
        twins.other_before,
        other_end.runtime,
        CommandView::Submit { label: other_end.encoder.label, encoded: other_end.encoder.encoded },
    );
}

/// The end of a solve does not depend on what else its workspace held: two solves of the same
/// system with the same solution are told the same sums, and the solution stays as it is.
pub proof fn law_tail_forgets<T>(d: Device<T>, twins: Twins<T>)
    requires
        twins.ready(d),
        twins.same_system(d, twins.cells(), twins.other_cells()),
    ensures
        ({
            let c = twins.after(
                d,
                super::session::with_tail(twins.before, twins.context, twins.solve),
            );
            let e = twins.other_after(
                d,
                super::session::with_tail(
                    twins.other_before,
                    twins.other_context,
                    twins.other_solve,
                ),
            );
            &&& twins.same_system(d, c, e)
            &&& same(c.result, e.result, 4)
            &&& c.x == twins.cells().x
            &&& e.x == twins.other_cells().x
        }),
{
    super::meaning::law_steps_meaning(
        d,
        twins.m,
        twins.before,
        twins.context,
        twins.solve,
        twins.sizes,
        0,
        0,
    );
    super::meaning::law_steps_meaning(
        d,
        twins.other_m,
        twins.other_before,
        twins.other_context,
        twins.other_solve,
        twins.other_sizes,
        0,
        0,
    );
    lemma_ended_same(
        d.arithmetic,
        twins.solve.workspace.n,
        twins.context,
        twins.cells(),
        twins.other_context,
        twins.other_cells(),
    );
}

/// The sum of the squares of one residual is the same in whichever place of the reduction it is
/// formed.
proof fn lemma_squares_same<T>(
    a: Arithmetic<T>,
    n: usize,
    r: Seq<T>,
    other_r: Seq<T>,
    b: Seq<T>,
    params: Seq<T>,
    other_params: Seq<T>,
    before: Seq<T>,
    other_before: Seq<T>,
)
    requires
        same(r, other_r, n as nat),
        (a.count)(params[0]) == n,
        (a.count)(params[1]) == sum_groups(n),
        (a.count)(other_params[0]) == n,
        (a.count)(other_params[1]) == sum_groups(n),
        4 * sum_groups(n) <= before.len(),
        4 * sum_groups(n) <= other_before.len(),
    ensures
        ({
            let v = Sextet { x0: r, y0: r, x1: r, y1: r, x2: r, y2: r };
            let w = Sextet { x0: b, y0: b, x1: other_r, y1: other_r, x2: other_r, y2: other_r };
            let left = staged(a, sum_groups(n), v, params, before);
            let right = staged(a, sum_groups(n), w, other_params, other_before);
            whole_sum(a, left, 0, sum_groups(n)) == whole_sum(a, right, 1, sum_groups(n))
        }),
{
    let g = sum_groups(n);
    let v = Sextet { x0: r, y0: r, x1: r, y1: r, x2: r, y2: r };
    let w = Sextet { x0: b, y0: b, x1: other_r, y1: other_r, x2: other_r, y2: other_r };
    let left = staged(a, g, v, params, before);
    let right = staged(a, g, w, other_params, other_before);
    assert forall|k: int| 0 <= k < g implies #[trigger] lane_of(left, 0, k) == lane_of(
        right,
        1,
        k,
    ) by {
        lemma_partial_same(a, r, r, other_r, other_r, n as nat, k as nat);
        assert((4 * k) / 4 == k && (4 * k) % 4 == 0);
        assert((4 * k + 1) / 4 == k && (4 * k + 1) % 4 == 1);
    }
    lemma_whole_same(a, left, 0, right, 1, g);
}

/// The end of a solve and the start of the next one sum up the same residual.
#[verifier::spinoff_prover]
proof fn lemma_residual_repeats<T>(
    a: Arithmetic<T>,
    n: usize,
    one: ContextView,
    c: Cells<T>,
    two: ContextView,
    e: Cells<T>,
)
    requires
        n <= u32::MAX,
        4 * n <= usize::MAX,
        reads_words(a),
        same_system(a, n, one, c, two, e),
    ensures
        started(a, n, e).result[1] == ended(a, n, c).result[0],
{
    lemma_residual_same(a, n, one, c, two, e);
    let c1 = with_new_residual(a, n, c);
    let e1 = with_new_residual(a, n, e);
    lemma_sums_prepared(a, n, c1);
    lemma_sums_prepared(a, n, e1);
    let cp = stored(a, c1.reduction_params, sum_words(n));
    let ep = stored(a, e1.reduction_params, sum_words(n));
    lemma_squares_same(a, n, c1.r, e1.r, e1.b, cp, ep, c1.partials, e1.partials);
}

/// The end of a solve and the start of the next one, from the solution that it left, sum up the
/// same residual: what the first reads of its true residual the second reads of its first one.
/// Neither changes the solution.
pub proof fn law_residual_repeats<T>(d: Device<T>, twins: Twins<T>)
    requires
        twins.ready(d),
        twins.same_system(d, twins.cells(), twins.other_cells()),
    ensures
        ({
            let last = twins.after(
                d,
                super::session::with_tail(twins.before, twins.context, twins.solve),
            );
            let next = twins.other_after(
                d,
                super::session::with_startup(
                    twins.other_before,
                    twins.other_context,
                    twins.other_solve,
                ),
            );
            &&& next.result[1] == last.result[0]
            &&& last.x == twins.cells().x
            &&& next.x == twins.other_cells().x
        }),
{
    super::meaning::law_steps_meaning(
        d,
        twins.m,
        twins.before,
        twins.context,
        twins.solve,
        twins.sizes,
        0,
        0,
    );
    super::meaning::law_steps_meaning(
        d,
        twins.other_m,
        twins.other_before,
        twins.other_context,
        twins.other_solve,
        twins.other_sizes,
        0,
        0,
    );
    lemma_residual_repeats(
        d.arithmetic,
        twins.solve.workspace.n,
        twins.context,
        twins.cells(),
        twins.other_context,
        twins.other_cells(),
    );
}

/// A solve from the solution that an earlier solve of the system left, once that solution is judged
/// to be there, ends before an iteration. It reports the residual that the earlier solve reported,
/// is not refused on its account, and leaves the solution as it is.
pub proof fn law_solved_system_ends_at_once(
    d: Device<u32>,
    twins: Twins<u32>,
    outcome: super::session::Outcome,
    first: crate::convergence::ConvergedReason,
    second: crate::convergence::ConvergedReason,
)
    requires
        twins.ready(d),
        twins.same_system(d, twins.cells(), twins.other_cells()),
        ({
            let last = twins.after(
                d,
                super::session::with_tail(twins.before, twins.context, twins.solve),
            );
            super::session::tail_error(last.result.take(4)) is None
        }),
    ensures
        ({
            let last = twins.after(
                d,
                super::session::with_tail(twins.before, twins.context, twins.solve),
            );
            let next = twins.other_after(
                d,
                super::session::with_startup(
                    twins.other_before,
                    twins.other_context,
                    twins.other_solve,
                ),
            );
            let (tail, startup) = (last.result.take(4), next.result.take(4));
            let norm = |word: u32| crate::portable::rooted(crate::portable::widened(word));
            let before = super::session::final_stats(outcome, norm(tail[0]), first);
            let after = super::session::early_stats(norm(startup[1]), second);
            &&& after.iterations == 0
            &&& after.reason == second
            &&& after.final_true_residual == before.final_true_residual
            &&& after.final_residual == before.final_residual
            &&& crate::convergence::norm_error(
                crate::portable::widened(startup[1]),
                "WebGPU BiCGStab residual norm"@,
            ) is None
            &&& last.x == twins.cells().x
            &&& next.x == twins.other_cells().x
        }),
{
    law_residual_repeats(d, twins);
    law_tail_forgets(d, twins);
    law_startup_forgets(d, twins);
}

/// The memory after batches of iterations.
pub open spec fn after_batches<T>(
    d: Device<T>,
    m: Map<usize, Seq<T>>,
    before: RuntimeView,
    context: ContextView,
    solve: SolveView,
    batches: Seq<nat>,
) -> Map<usize, Seq<T>>
    decreases batches.len(),
{
    if batches.len() == 0 {
        m
    } else {
        let earlier = after_batches(d, m, before, context, solve, batches.drop_last());
        let batch = super::session::with_batch(before, context, solve, batches.last());
        carried_out(d, earlier, before, batch)
    }
}

/// The memory after the start of a solve, the initialisation of its state and batches of
/// iterations.
pub open spec fn after_course<T>(
    d: Device<T>,
    m: Map<usize, Seq<T>>,
    before: RuntimeView,
    context: ContextView,
    solve: SolveView,
    rhs_squared: u64,
    residual_squared: u64,
    batches: Seq<nat>,
) -> Map<usize, Seq<T>> {
    let startup = super::session::with_startup(before, context, solve);
    let state = super::session::with_state(
        before,
        context,
        solve,
        rhs_squared,
        residual_squared,
    );
    let begun = carried_out(d, carried_out(d, m, before, startup), before, state);
    after_batches(d, begun, before, context, solve, batches)
}

proof fn lemma_batches_same<T>(d: Device<T>, twins: Twins<T>, batches: Seq<nat>)
    requires
        twins.ready(d),
        twins.same_course(d, twins.cells(), twins.other_cells()),
    ensures
        twins.same_course(
            d,
            cells(
                after_batches(d, twins.m, twins.before, twins.context, twins.solve, batches),
                twins.context,
                twins.solve,
            ),
            cells(
                after_batches(
                    d,
                    twins.other_m,
                    twins.other_before,
                    twins.other_context,
                    twins.other_solve,
                    batches,
                ),
                twins.other_context,
                twins.other_solve,
            ),
        ),
    decreases batches.len(),
{
    if batches.len() > 0 {
        let earlier = batches.drop_last();
        lemma_batches_same(d, twins, earlier);
        let now = Twins {
            m: after_batches(d, twins.m, twins.before, twins.context, twins.solve, earlier),
            other_m: after_batches(
                d,
                twins.other_m,
                twins.other_before,
                twins.other_context,
                twins.other_solve,
                earlier,
            ),
            ..twins
        };
        law_batch_forgets(d, now, batches.last());
    }
}

/// A solve does not depend on what its context did before, nor on which buffers it works in: two
/// solves of the same system, a used context and a fresh one, say, read the same sums at the
/// start, the same state after however many batches, and the same sums at the end, and they leave
/// the same solution. What the host decides, it decides on these words alone.
pub proof fn law_solve_forgets_workspace<T>(
    d: Device<T>,
    twins: Twins<T>,
    rhs_squared: u64,
    residual_squared: u64,
    batches: Seq<nat>,
)
    requires
        twins.ready(d),
        twins.same_system(d, twins.cells(), twins.other_cells()),
    ensures
        ({
            let n = twins.solve.workspace.n as nat;
            let first = twins.after(
                d,
                super::session::with_startup(twins.before, twins.context, twins.solve),
            );
            let other_first = twins.other_after(
                d,
                super::session::with_startup(
                    twins.other_before,
                    twins.other_context,
                    twins.other_solve,
                ),
            );
            let m = after_course(
                d,
                twins.m,
                twins.before,
                twins.context,
                twins.solve,
                rhs_squared,
                residual_squared,
                batches,
            );
            let other_m = after_course(
                d,
                twins.other_m,
                twins.other_before,
                twins.other_context,
                twins.other_solve,
                rhs_squared,
                residual_squared,
                batches,
            );
            let now = Twins { m, other_m, ..twins };
            let last = now.after(
                d,
                super::session::with_tail(twins.before, twins.context, twins.solve),
            );
            let other_last = now.other_after(
                d,
                super::session::with_tail(
                    twins.other_before,
                    twins.other_context,
                    twins.other_solve,
                ),
            );
            &&& same(first.result, other_first.result, 4)
            &&& now.cells().state == now.other_cells().state
            &&& same(last.result, other_last.result, 4)
            &&& same(last.x, other_last.x, n)
        }),
{
    law_startup_forgets(d, twins);
    let started_twins = Twins {
        m: carried_out(
            d,
            twins.m,
            twins.before,
            super::session::with_startup(twins.before, twins.context, twins.solve),
        ),
        other_m: carried_out(
            d,
            twins.other_m,
            twins.other_before,
            super::session::with_startup(
                twins.other_before,
                twins.other_context,
                twins.other_solve,
            ),
        ),
        ..twins
    };
    law_state_forgets(d, started_twins, rhs_squared, residual_squared);
    let begun_twins = Twins {
        m: carried_out(
            d,
            started_twins.m,
            twins.before,
            super::session::with_state(
                twins.before,
                twins.context,
                twins.solve,
                rhs_squared,
                residual_squared,
            ),
        ),
        other_m: carried_out(
            d,
            started_twins.other_m,
            twins.other_before,
            super::session::with_state(
                twins.other_before,
                twins.other_context,
                twins.other_solve,
                rhs_squared,
                residual_squared,
            ),
        ),
        ..twins
    };
    lemma_batches_same(d, begun_twins, batches);
    let now = Twins {
        m: after_batches(
            d,
            begun_twins.m,
            twins.before,
            twins.context,
            twins.solve,
            batches,
        ),
        other_m: after_batches(
            d,
            begun_twins.other_m,
            twins.other_before,
            twins.other_context,
            twins.other_solve,
            batches,
        ),
        ..twins
    };
    law_tail_forgets(d, now);
}

/// Three dot products that an iteration encodes leave the device as a submission of their own
/// does, once both have been submitted after the same parameters; only the parameters and the
/// buffers of the sums have changed.
pub proof fn law_dots_compute_alike<T>(
    d: Device<T>,
    m: Map<usize, Seq<T>>,
    before: RuntimeView,
    label: Seq<char>,
    params: usize,
    pairs: PairsView,
    reduction: super::ReductionView,
)
    ensures
        ({
            let prepared = super::encode::with_reduction_params(
                before,
                params,
                pairs.x0.len,
                reduction,
            );
            let inside = super::encode::dots_pass(
                "kryst resident WebGPU dot2"@,
                pairs,
                reduction,
                params,
            );
            let submitted = prepared.submit(
                crate::command::EncoderView::empty(label).with(inside),
            );
            let alone = super::encode::with_dot3(before, params, pairs, reduction);
            &&& carried_out(d, m, before, submitted) == carried_out(d, m, before, alone)
            &&& forall|buffer: usize|
                buffer != params && buffer != reduction.partials && buffer != reduction.result
                    ==> #[trigger] carried_out(d, m, before, alone)[buffer] == m[buffer]
        }),
{
    let contents = crate::bytes::words_bytes(
        before.order,
        seq![pairs.x0.len as u32, reduction.partial_count as u32, 0, 0],
    );
    let prepared = super::encode::with_reduction_params(before, params, pairs.x0.len, reduction);
    super::meaning::lemma_run_more(
        d,
        m,
        before,
        before,
        CommandView::WriteBuffer { buffer: params, contents },
    );
    assert(super::laws::appended(before, before) =~= seq![]);
    assert(carried_out(d, m, before, before) == m);
    let inside = super::encode::dots_pass(
        "kryst resident WebGPU dot2"@,
        pairs,
        reduction,
        params,
    );
    let alone = super::encode::dots_pass("kryst WebGPU dot3"@, pairs, reduction, params);
    super::meaning::lemma_submitted_one(d, m, before, prepared, label, inside);
    super::meaning::lemma_submitted_one(d, m, before, prepared, "kryst WebGPU dot3"@, alone);
    let now = carried_out(d, m, before, prepared);
    let buffers = seq![
        pairs.x0.buffer,
        pairs.y0.buffer,
        pairs.x1.buffer,
        pairs.y1.buffer,
        reduction.partials,
        reduction.result,
        params,
        pairs.x2.buffer,
        pairs.y2.buffer,
    ];
    super::meaning::lemma_two_kernels(
        d.arithmetic,
        "kryst WebGPU dot3"@,
        buffers,
        crate::command::Dispatch {
            kernel: Kernel::ReduceStage,
            groups: reduction.partial_count as u32,
        },
        crate::command::Dispatch { kernel: Kernel::ReduceFinal, groups: 1 },
        now,
    );
}

} // verus!
