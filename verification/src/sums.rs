//! What a reduction sums up in exact arithmetic: the dot products of its vectors.
use crate::command::{Dispatch, Kernel};
use crate::device::{
    exact, finished, partial_sum, run_kernels, staged, strided, tree, whole_sum, Arithmetic, Sextet,
};
use vstd::prelude::*;

verus! {

/// The sum of the first `count` numbers.
pub open spec fn total(s: Seq<real>, count: nat) -> real
    decreases count,
{
    if count == 0 {
        0real
    } else {
        total(s, (count - 1) as nat) + s[count - 1]
    }
}

/// The dot product of the first `n` entries of two vectors.
pub open spec fn dot(x: Seq<real>, y: Seq<real>, n: nat) -> real
    decreases n,
{
    if n == 0 {
        0real
    } else {
        dot(x, y, (n - 1) as nat) + x[n - 1] * y[n - 1]
    }
}

/// Whether a number can be halved until it is one.
spec fn halves(stride: nat) -> bool
    decreases stride,
{
    stride == 1 || stride > 0 && stride % 2 == 0 && halves(stride / 2)
}

proof fn lemma_folded(s: Seq<real>, folded: Seq<real>, stride: nat, count: nat)
    requires
        count <= stride,
        forall|i: int| 0 <= i < stride ==> #[trigger] folded[i] == s[i] + s[i + stride],
    ensures
        total(folded, count) == total(s, count) + total(s, stride + count) - total(s, stride),
    decreases count,
{
    if count > 0 {
        lemma_folded(s, folded, stride, (count - 1) as nat);
        assert(folded[count - 1] == s[count - 1] + s[count - 1 + stride]);
    }
}

/// The sum that a workgroup makes of its scratch space is the sum of its numbers.
proof fn lemma_tree(a: Arithmetic<real>, s: Seq<real>, stride: nat)
    requires
        exact(a),
        halves(stride),
    ensures
        tree(a, s, stride) == total(s, 2 * stride),
    decreases stride,
{
    let folded = Seq::new(stride, |i: int| (a.plus)(s[i], s[i + stride]));
    lemma_folded(s, folded, stride, stride);
    if stride == 1 {
        assert(tree(a, folded, 0) == folded[0]);
        assert(total(folded, 0) == 0real);
        assert(total(folded, 1) == folded[0]);
    } else {
        lemma_tree(a, folded, stride / 2);
    }
}

proof fn lemma_scratch_halves()
    ensures
        halves(128),
{
    reveal_with_fuel(halves, 8);
}

spec fn least(x: nat, y: nat) -> nat {
    if x <= y {
        x
    } else {
        y
    }
}

proof fn lemma_lanes(x: Seq<real>, y: Seq<real>, n: nat, group: nat, lanes: Seq<real>, count: nat)
    requires
        forall|lane: int|
            0 <= lane < 256 ==> #[trigger] lanes[lane] == if group * 256 + lane < n {
                x[group * 256 + lane] * y[group * 256 + lane]
            } else {
                0real
            },
        count <= 256,
    ensures
        total(lanes, count) == dot(x, y, least(n, group * 256 + count)) - dot(
            x,
            y,
            least(n, group * 256),
        ),
    decreases count,
{
    if count > 0 {
        lemma_lanes(x, y, n, group, lanes, (count - 1) as nat);
        assert(lanes[count - 1] == if group * 256 + (count - 1) < n {
            x[group * 256 + (count - 1)] * y[group * 256 + (count - 1)]
        } else {
            0real
        });
    }
}

/// The partial sum of a workgroup is the dot product of its entries.
proof fn lemma_partial(a: Arithmetic<real>, x: Seq<real>, y: Seq<real>, n: nat, group: nat)
    requires
        exact(a),
    ensures
        partial_sum(a, x, y, n, group) == dot(x, y, least(n, group * 256 + 256)) - dot(
            x,
            y,
            least(n, group * 256),
        ),
{
    let lanes = Seq::new(
        256,
        |lane: int|
            if group * 256 + lane < n {
                (a.times)(x[group * 256 + lane], y[group * 256 + lane])
            } else {
                a.zero()
            },
    );
    lemma_scratch_halves();
    lemma_tree(a, lanes, 128);
    lemma_lanes(x, y, n, group, lanes, 256);
}

/// One more partial sum is added by the one thread whose turn it is.
proof fn lemma_strided_more(
    a: Arithmetic<real>,
    partials: Seq<real>,
    lane: int,
    index: nat,
    count: nat,
    sum: real,
)
    requires
        exact(a),
    ensures
        strided(a, partials, lane, index, count + 1, sum) == strided(
            a,
            partials,
            lane,
            index,
            count,
            sum,
        ) + if index <= count && index % 256 == count % 256 {
            partials[4 * count + lane]
        } else {
            0real
        },
    decreases
            (if index <= count {
                count + 1 - index
            } else {
                0
            }),
{
    if index <= count {
        let next = sum + partials[4 * index + lane];
        lemma_strided_more(a, partials, lane, index + 256, count, next);
        if index == count {
            assert(strided(a, partials, lane, index + 256, count + 1, next) == next);
        } else if index % 256 == count % 256 {
            assert(index + 256 <= count);
        }
    }
}

proof fn lemma_total_same(u: Seq<real>, v: Seq<real>, count: nat)
    requires
        forall|i: int| 0 <= i < count ==> #[trigger] u[i] == v[i],
    ensures
        total(u, count) == total(v, count),
    decreases count,
{
    if count > 0 {
        lemma_total_same(u, v, (count - 1) as nat);
        assert(u[count - 1] == v[count - 1]);
    }
}

proof fn lemma_total_differs(u: Seq<real>, v: Seq<real>, place: int, by: real, count: nat)
    requires
        0 <= place < count,
        forall|i: int| 0 <= i < count && i != place ==> #[trigger] u[i] == v[i],
        u[place] == v[place] + by,
    ensures
        total(u, count) == total(v, count) + by,
    decreases count,
{
    if place == count - 1 {
        lemma_total_same(u, v, (count - 1) as nat);
    } else {
        lemma_total_differs(u, v, place, by, (count - 1) as nat);
        assert(u[count - 1] == v[count - 1]);
    }
}

spec fn threads(a: Arithmetic<real>, partials: Seq<real>, lane: int, count: nat) -> Seq<real> {
    Seq::new(256, |index: int| strided(a, partials, lane, index as nat, count, a.zero()))
}

/// The last stage of a reduction adds up the partial sums of a lane.
proof fn lemma_whole(
    a: Arithmetic<real>,
    partials: Seq<real>,
    lane: int,
    lanes: Seq<real>,
    count: nat,
)
    requires
        exact(a),
        forall|k: int| 0 <= k < count ==> #[trigger] lanes[k] == partials[4 * k + lane],
    ensures
        total(threads(a, partials, lane, count), 256) == total(lanes, count),
    decreases count,
{
    let now = threads(a, partials, lane, count);
    if count == 0 {
        let nothing = Seq::new(256, |i: int| 0real);
        lemma_total_same(now, nothing, 256);
        lemma_nothing(nothing, 256);
    } else {
        let before = (count - 1) as nat;
        let earlier = threads(a, partials, lane, before);
        lemma_whole(a, partials, lane, lanes, before);
        let turn = (before % 256) as int;
        assert forall|i: int| 0 <= i < 256 implies #[trigger] now[i] == earlier[i] + if i == turn {
            partials[4 * before + lane]
        } else {
            0real
        } by {
            lemma_strided_more(a, partials, lane, i as nat, before, a.zero());
        }
        assert(now[turn] == earlier[turn] + partials[4 * before + lane]);
        lemma_total_differs(now, earlier, turn, partials[4 * before + lane], 256);
        assert(lanes[before as int] == partials[4 * before + lane]);
    }
}

proof fn lemma_nothing(s: Seq<real>, count: nat)
    requires
        forall|i: int| 0 <= i < count ==> #[trigger] s[i] == 0real,
    ensures
        total(s, count) == 0real,
    decreases count,
{
    if count > 0 {
        lemma_nothing(s, (count - 1) as nat);
        assert(s[count - 1] == 0real);
    }
}

proof fn lemma_groups(
    a: Arithmetic<real>,
    x: Seq<real>,
    y: Seq<real>,
    n: nat,
    lanes: Seq<real>,
    count: nat,
)
    requires
        exact(a),
        forall|k: int| 0 <= k < count ==> #[trigger] lanes[k] == partial_sum(a, x, y, n, k as nat),
    ensures
        total(lanes, count) == dot(x, y, least(n, 256 * count)),
    decreases count,
{
    if count > 0 {
        lemma_groups(a, x, y, n, lanes, (count - 1) as nat);
        lemma_partial(a, x, y, n, (count - 1) as nat);
        assert(lanes[count - 1] == partial_sum(a, x, y, n, (count - 1) as nat));
    }
}

/// A lane of the last stage is the dot product whose partial sums it adds up.
proof fn lemma_lane(
    a: Arithmetic<real>,
    x: Seq<real>,
    y: Seq<real>,
    n: nat,
    partials: Seq<real>,
    lane: int,
    count: nat,
)
    requires
        exact(a),
        n <= 256 * count,
        forall|k: int|
            0 <= k < count ==> partials[4 * k + lane] == #[trigger] partial_sum(
                a,
                x,
                y,
                n,
                k as nat,
            ),
    ensures
        whole_sum(a, partials, lane, count) == dot(x, y, n),
{
    let lanes = Seq::new(count, |k: int| partials[4 * k + lane]);
    assert forall|k: int| 0 <= k < count implies #[trigger] lanes[k] == partial_sum(
        a,
        x,
        y,
        n,
        k as nat,
    ) by {}
    lemma_scratch_halves();
    lemma_tree(a, threads(a, partials, lane, count), 128);
    lemma_whole(a, partials, lane, lanes, count);
    lemma_groups(a, x, y, n, lanes, count);
}

/// Both stages of a reduction leave the dot products of the three pairs of vectors, in exact
/// arithmetic, where the workgroups cover the vectors.
pub proof fn law_reduction_exact(
    a: Arithmetic<real>,
    groups: nat,
    v: Sextet<real>,
    params: Seq<real>,
    partials: Seq<real>,
    result: Seq<real>,
)
    requires
        exact(a),
        (a.count)(params[1]) == groups,
        (a.count)(params[0]) <= 256 * groups,
        4 * groups <= partials.len(),
        3 <= result.len(),
    ensures
        ({
            let n = (a.count)(params[0]);
            let sums = finished(a, params, staged(a, groups, v, params, partials), result);
            &&& sums[0] == dot(v.x0, v.y0, n)
            &&& sums[1] == dot(v.x1, v.y1, n)
            &&& sums[2] == dot(v.x2, v.y2, n)
        }),
{
    let n = (a.count)(params[0]);
    let stage = staged(a, groups, v, params, partials);
    assert forall|k: int| 0 <= k < groups implies stage[4 * k] == #[trigger] partial_sum(
        a,
        v.x0,
        v.y0,
        n,
        k as nat,
    ) by {
        assert((4 * k) / 4 == k && (4 * k) % 4 == 0);
    }
    assert forall|k: int| 0 <= k < groups implies stage[4 * k + 1] == #[trigger] partial_sum(
        a,
        v.x1,
        v.y1,
        n,
        k as nat,
    ) by {
        assert((4 * k + 1) / 4 == k && (4 * k + 1) % 4 == 1);
    }
    assert forall|k: int| 0 <= k < groups implies stage[4 * k + 2] == #[trigger] partial_sum(
        a,
        v.x2,
        v.y2,
        n,
        k as nat,
    ) by {
        assert((4 * k + 2) / 4 == k && (4 * k + 2) % 4 == 2);
    }
    lemma_lane(a, v.x0, v.y0, n, stage, 0, groups);
    lemma_lane(a, v.x1, v.y1, n, stage, 1, groups);
    lemma_lane(a, v.x2, v.y2, n, stage, 2, groups);
}

/// A dot product starts at zero and grows by the product of the next entries.
pub proof fn law_dot_grows(x: Seq<real>, y: Seq<real>, n: nat)
    ensures
        dot(x, y, 0) == 0real,
        dot(x, y, n + 1) == dot(x, y, n) + x[n as int] * y[n as int],
{
}

/// A reduction pass takes the dot products of the buffers bound at zero and one, two and three, and
/// seven and eight, over as many entries as its parameters say, and leaves them in the buffer bound
/// at five.
pub proof fn law_reduction_pass(
    a: Arithmetic<real>,
    groups: u32,
    at: Seq<usize>,
    m: Map<usize, Seq<real>>,
)
    requires
        exact(a),
        at.len() == 9,
        at.no_duplicates(),
        (a.count)(m[at[6]][1]) == groups,
        (a.count)(m[at[6]][0]) <= 256 * groups,
        4 * groups <= m[at[4]].len(),
        3 <= m[at[5]].len(),
    ensures
        ({
            let stages = seq![
                Dispatch { kernel: Kernel::ReduceStage, groups },
                Dispatch { kernel: Kernel::ReduceFinal, groups: 1 },
            ];
            let sums = run_kernels(a, stages, at, m)[at[5]];
            let n = (a.count)(m[at[6]][0]);
            &&& sums[0] == dot(m[at[0]], m[at[1]], n)
            &&& sums[1] == dot(m[at[2]], m[at[3]], n)
            &&& sums[2] == dot(m[at[7]], m[at[8]], n)
        }),
{
    let first = Dispatch { kernel: Kernel::ReduceStage, groups };
    let second = Dispatch { kernel: Kernel::ReduceFinal, groups: 1 };
    let stages = seq![first, second];
    assert(stages.drop_last() =~= seq![first]);
    assert(seq![first].drop_last() =~= Seq::<Dispatch>::empty());
    reveal_with_fuel(run_kernels, 3);
    let v = Sextet {
        x0: m[at[0]],
        y0: m[at[1]],
        x1: m[at[2]],
        y1: m[at[3]],
        x2: m[at[7]],
        y2: m[at[8]],
    };
    law_reduction_exact(a, groups as nat, v, m[at[6]], m[at[4]], m[at[5]]);
}

} // verus!
