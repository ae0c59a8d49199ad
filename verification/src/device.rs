//! What the kernels of the shaders compute and what a device does with recorded commands, over
//! numbers of any kind.
//!
//! A device holds words. What it computes with them is left open here, so that what is shown of it
//! holds of rounded numbers and of exact ones alike.
use crate::command::{CommandView, Dispatch, EncodedView, Kernel};
use vstd::prelude::*;

verus! {

/// The arithmetic of a device.
#[verifier::reject_recursive_types(T)]
pub ghost struct Arithmetic<T> {
    /// What a word that the host writes stands for.
    pub word: spec_fn(u32) -> T,
    /// The unsigned integer that a word is.
    pub count: spec_fn(T) -> nat,
    pub plus: spec_fn(T, T) -> T,
    pub minus: spec_fn(T, T) -> T,
    pub times: spec_fn(T, T) -> T,
    pub over: spec_fn(T, T) -> T,
    /// The product of the first two with the third added.
    pub fused: spec_fn(T, T, T) -> T,
    pub negated: spec_fn(T) -> T,
    /// The number without its sign.
    pub size: spec_fn(T) -> T,
    pub less: spec_fn(T, T) -> bool,
    pub at_most: spec_fn(T, T) -> bool,
    pub nan: spec_fn(T) -> bool,
    pub infinite: spec_fn(T) -> bool,
}

/// A device: its arithmetic, the order of the bytes in its words, and what the caller's
/// preconditioner makes of a vector.
#[verifier::reject_recursive_types(T)]
pub ghost struct Device<T> {
    pub arithmetic: Arithmetic<T>,
    pub order: crate::bytes::ByteOrder,
    pub precondition: spec_fn(Seq<T>) -> Seq<T>,
}

impl<T> Arithmetic<T> {
    /// The single `0`.
    pub open spec fn zero(self) -> T {
        (self.word)(0)
    }

    /// The single `1`.
    pub open spec fn one(self) -> T {
        (self.word)(0x3f80_0000)
    }

    /// The single `1/2`.
    pub open spec fn half(self) -> T {
        (self.word)(0x3f00_0000)
    }

    /// The single `3/2`.
    pub open spec fn one_and_half(self) -> T {
        (self.word)(0x3fc0_0000)
    }

    /// The smallest normal single.
    pub open spec fn smallest_normal(self) -> T {
        (self.word)(0x0080_0000)
    }

    /// Whether a solver state is running.
    pub open spec fn running(self, state: Seq<T>) -> bool {
        (self.less)(self.half(), state[12])
    }

    /// Whether a number is no larger than the smallest normal one.
    pub open spec fn vanishes(self, x: T) -> bool {
        (self.at_most)((self.size)(x), self.smallest_normal())
    }
}

/// Whether an arithmetic on the real numbers is exact.
pub open spec fn exact(a: Arithmetic<real>) -> bool {
    &&& forall|x: real, y: real| #[trigger] (a.plus)(x, y) == x + y
    &&& forall|x: real, y: real| #[trigger] (a.minus)(x, y) == x - y
    &&& forall|x: real, y: real| #[trigger] (a.times)(x, y) == x * y
    &&& forall|x: real, y: real| y != 0real ==> #[trigger] (a.over)(x, y) * y == x
    &&& forall|x: real, y: real, z: real| #[trigger] (a.fused)(x, y, z) == x * y + z
    &&& forall|x: real| #[trigger] (a.negated)(x) == -x
    &&& forall|x: real| #[trigger]
        (a.size)(x) == if x < 0real {
            -x
        } else {
            x
        }
    &&& forall|x: real, y: real| #[trigger] (a.less)(x, y) == (x < y)
    &&& forall|x: real, y: real| #[trigger] (a.at_most)(x, y) == (x <= y)
    &&& a.zero() == 0real
    &&& a.one() == 1real
    &&& a.half() + a.half() == 1real
    &&& a.one_and_half() == 1real + a.half()
    &&& (a.word)(0xbf80_0000) == -1real
    &&& a.smallest_normal() > 0real
}

/// A number in two parts.
pub ghost struct DoubleSingle<T> {
    pub hi: T,
    pub lo: T,
}

pub open spec fn ds_from<T>(a: Arithmetic<T>, value: T) -> DoubleSingle<T> {
    DoubleSingle { hi: value, lo: a.zero() }
}

pub open spec fn ds_value<T>(a: Arithmetic<T>, value: DoubleSingle<T>) -> T {
    (a.plus)(value.hi, value.lo)
}

pub open spec fn ds_quick_sum<T>(a: Arithmetic<T>, x: T, y: T) -> DoubleSingle<T> {
    let sum = (a.plus)(x, y);
    DoubleSingle { hi: sum, lo: (a.minus)(y, (a.minus)(sum, x)) }
}

pub open spec fn ds_add<T>(a: Arithmetic<T>, x: DoubleSingle<T>, y: DoubleSingle<T>) ->
    DoubleSingle<T> {
    let sum = (a.plus)(x.hi, y.hi);
    let virtual_y = (a.minus)(sum, x.hi);
    let first = (a.minus)(y.hi, virtual_y);
    let second = (a.minus)(x.hi, (a.minus)(sum, virtual_y));
    let error = (a.plus)((a.plus)((a.plus)(first, second), x.lo), y.lo);
    ds_quick_sum(a, sum, error)
}

pub open spec fn ds_negate<T>(a: Arithmetic<T>, x: DoubleSingle<T>) -> DoubleSingle<T> {
    DoubleSingle { hi: (a.negated)(x.hi), lo: (a.negated)(x.lo) }
}

pub open spec fn ds_multiply<T>(a: Arithmetic<T>, x: DoubleSingle<T>, y: DoubleSingle<T>) ->
    DoubleSingle<T> {
    let product = (a.times)(x.hi, y.hi);
    let first = (a.fused)(x.hi, y.hi, (a.negated)(product));
    let error = (a.plus)((a.plus)(first, (a.times)(x.hi, y.lo)), (a.times)(x.lo, y.hi));
    ds_quick_sum(a, product, error)
}

pub open spec fn ds_divide<T>(a: Arithmetic<T>, x: DoubleSingle<T>, y: DoubleSingle<T>) ->
    DoubleSingle<T> {
    let estimate = (a.over)(x.hi, y.hi);
    let product = ds_multiply(a, y, ds_from(a, estimate));
    let remainder = ds_add(a, x, ds_negate(a, product));
    let correction = (a.over)(ds_value(a, remainder), y.hi);
    ds_quick_sum(a, estimate, correction)
}

/// The code with which a number that is not finite stops the iteration.
pub open spec fn invalid_reason<T>(a: Arithmetic<T>, value: T) -> Option<T> {
    if (a.nan)(value) {
        Some((a.word)(0x40c0_0000))
    } else if (a.infinite)(value) {
        Some((a.word)(0x40e0_0000))
    } else {
        None
    }
}

/// The code of a breakdown.
pub open spec fn breakdown<T>(a: Arithmetic<T>) -> T {
    (a.word)(0x40a0_0000)
}

/// The code with which a squared norm stops the iteration, if it does.
pub open spec fn norm_reason<T>(a: Arithmetic<T>, state: Seq<T>, squared: T) -> Option<T> {
    if invalid_reason(a, squared) is Some {
        invalid_reason(a, squared)
    } else if (a.less)(squared, a.zero()) {
        Some(breakdown(a))
    } else if (a.at_most)(squared, state[10]) {
        Some((a.word)(0x4000_0000))
    } else if (a.at_most)(squared, (a.times)(state[9], state[7])) {
        Some(a.one())
    } else if (a.at_most)((a.times)(state[11], state[7]), squared) {
        Some((a.word)(0x4040_0000))
    } else {
        None
    }
}

/// The state, stopped with a code.
pub open spec fn stop<T>(a: Arithmetic<T>, state: Seq<T>, reason: T) -> Seq<T> {
    state.update(14, reason).update(12, a.zero())
}

/// The kernel `begin_iteration`.
pub open spec fn begin_iteration<T>(a: Arithmetic<T>, state: Seq<T>, sums: Seq<T>) -> Seq<T> {
    let rho = sums[0];
    let counted = state.update(13, (a.plus)(state[13], a.one())).update(1, rho);
    let omega = DoubleSingle { hi: state[4], lo: state[5] };
    let alpha = DoubleSingle { hi: state[2], lo: state[3] };
    let rho_ratio = ds_divide(a, ds_from(a, rho), ds_from(a, state[0]));
    let beta = ds_value(a, ds_multiply(a, rho_ratio, ds_divide(a, alpha, omega)));
    if invalid_reason(a, rho) is Some {
        stop(a, state, invalid_reason(a, rho)->0)
    } else if a.vanishes(rho) {
        stop(a, state, breakdown(a))
    } else if (a.less)(counted[13], a.one_and_half()) {
        counted.update(6, a.zero())
    } else if a.vanishes(state[0]) || a.vanishes(ds_value(a, omega)) {
        stop(a, counted, breakdown(a))
    } else if invalid_reason(a, beta) is Some {
        stop(a, counted, invalid_reason(a, beta)->0)
    } else {
        counted.update(6, beta)
    }
}

/// The quotient of two sums in two parts, and the code with which it stops the iteration, if it
/// does.
pub open spec fn quotient<T>(a: Arithmetic<T>, x: T, y: T) -> (DoubleSingle<T>, Option<T>) {
    let q = ds_divide(a, ds_from(a, x), ds_from(a, y));
    let rounded = ds_value(a, q);
    let reason = if invalid_reason(a, rounded) is Some {
        invalid_reason(a, rounded)
    } else if a.vanishes(rounded) {
        Some(breakdown(a))
    } else {
        None
    };
    (q, reason)
}

/// The kernel `finish_alpha`.
pub open spec fn finish_alpha<T>(a: Arithmetic<T>, state: Seq<T>, sums: Seq<T>) -> Seq<T> {
    let denominator = sums[0];
    let (alpha, refused) = quotient(a, state[1], denominator);
    if invalid_reason(a, denominator) is Some {
        stop(a, state, invalid_reason(a, denominator)->0)
    } else if a.vanishes(denominator) {
        stop(a, state, breakdown(a))
    } else if refused is Some {
        stop(a, state, refused->0)
    } else {
        state.update(2, alpha.hi).update(3, alpha.lo)
    }
}

/// The kernel `check_s`.
pub open spec fn check_s<T>(a: Arithmetic<T>, state: Seq<T>, sums: Seq<T>) -> Seq<T> {
    let held = state.update(8, sums[0]);
    match norm_reason(a, held, held[8]) {
        Some(reason) => stop(a, held, reason),
        None => held,
    }
}

/// The kernel `finish_omega`.
pub open spec fn finish_omega<T>(a: Arithmetic<T>, state: Seq<T>, sums: Seq<T>) -> Seq<T> {
    let (tt, ts) = (sums[1], sums[2]);
    let (omega, refused) = quotient(a, ts, tt);
    if invalid_reason(a, ts) is Some {
        stop(a, state, invalid_reason(a, ts)->0)
    } else if invalid_reason(a, tt) is Some {
        stop(a, state, invalid_reason(a, tt)->0)
    } else if (a.at_most)(tt, a.smallest_normal()) {
        stop(a, state, breakdown(a))
    } else if refused is Some {
        stop(a, state, refused->0)
    } else {
        state.update(4, omega.hi).update(5, omega.lo)
    }
}

/// The kernel `check_r`.
pub open spec fn check_r<T>(a: Arithmetic<T>, state: Seq<T>, sums: Seq<T>) -> Seq<T> {
    let held = state.update(8, sums[1]).update(0, state[1]);
    match norm_reason(a, held, held[8]) {
        Some(reason) => stop(a, held, reason),
        None => if (a.at_most)(held[15], held[13]) {
            stop(a, held, (a.word)(0x4080_0000))
        } else {
            held
        },
    }
}

/// What a scalar kernel makes of the solver state. A state that has stopped stays as it is.
pub open spec fn recurrence<T>(a: Arithmetic<T>, kernel: Kernel, state: Seq<T>, sums: Seq<T>) ->
    Seq<T> {
    if (a.less)(state[12], a.half()) {
        state
    } else {
        match kernel {
            Kernel::BeginIteration => begin_iteration(a, state, sums),
            Kernel::FinishAlpha => finish_alpha(a, state, sums),
            Kernel::CheckS => check_s(a, state, sums),
            Kernel::FinishOmega => finish_omega(a, state, sums),
            _ => check_r(a, state, sums),
        }
    }
}

/// What a vector kernel makes of one entry while the state is running.
pub open spec fn entry<T>(a: Arithmetic<T>, kernel: Kernel, state: Seq<T>, x: T, y: T, z: T) -> T {
    let alpha = (a.plus)(state[2], state[3]);
    let omega = (a.plus)(state[4], state[5]);
    match kernel {
        Kernel::UpdatePOmega => if (a.at_most)(a.one_and_half(), state[13]) {
            (a.fused)((a.negated)(omega), z, y)
        } else {
            y
        },
        Kernel::PrepareP => if (a.less)(state[13], a.one_and_half()) {
            x
        } else {
            (a.fused)(state[6], y, x)
        },
        Kernel::MakeS => (a.fused)((a.negated)(alpha), z, x),
        Kernel::UpdateXAlpha => (a.fused)(alpha, x, y),
        Kernel::UpdateXOmega => (a.fused)(omega, x, y),
        _ => (a.fused)((a.negated)(omega), z, x),
    }
}

/// What a vector kernel makes of its output. A state that is not running leaves it as it is.
pub open spec fn updated<T>(
    a: Arithmetic<T>,
    kernel: Kernel,
    groups: nat,
    state: Seq<T>,
    x: Seq<T>,
    y: Seq<T>,
    z: Seq<T>,
) -> Seq<T> {
    Seq::new(
        y.len(),
        |i: int|
            if i < 128 * groups && a.running(state) {
                entry(a, kernel, state, x[i], y[i], z[i])
            } else {
                y[i]
            },
    )
}

/// The kernel `axpby`.
pub open spec fn combined<T>(
    a: Arithmetic<T>,
    groups: nat,
    params: Seq<T>,
    x: Seq<T>,
    y: Seq<T>,
) -> Seq<T> {
    Seq::new(
        y.len(),
        |i: int|
            if i < 128 * groups && i < (a.count)(params[2]) {
                (a.fused)(params[0], x[i], (a.times)(params[1], y[i]))
            } else {
                y[i]
            },
    )
}

/// The sum of the products of the entries from `e` up to `end`, added to `sum`.
pub open spec fn row_sum<T>(
    a: Arithmetic<T>,
    columns: Seq<T>,
    values: Seq<T>,
    x: Seq<T>,
    e: nat,
    end: nat,
    sum: T,
) -> T
    decreases end - e,
{
    if e >= end {
        sum
    } else {
        let next = (a.fused)(values[e as int], x[(a.count)(columns[e as int]) as int], sum);
        row_sum(a, columns, values, x, e + 1, end, next)
    }
}

/// One entry of a matrix-vector product.
pub open spec fn product_entry<T>(
    a: Arithmetic<T>,
    rows: Seq<T>,
    columns: Seq<T>,
    values: Seq<T>,
    x: Seq<T>,
    row: int,
) -> T {
    row_sum(
        a,
        columns,
        values,
        x,
        (a.count)(rows[row]),
        (a.count)(rows[row + 1]),
        a.zero(),
    )
}

/// The kernel `spmv`.
pub open spec fn product<T>(
    a: Arithmetic<T>,
    groups: nat,
    rows: Seq<T>,
    columns: Seq<T>,
    values: Seq<T>,
    x: Seq<T>,
    y: Seq<T>,
) -> Seq<T> {
    Seq::new(
        y.len(),
        |row: int|
            if row < 128 * groups && row + 1 < rows.len() {
                product_entry(a, rows, columns, values, x, row)
            } else {
                y[row]
            },
    )
}

/// The kernel `apply` of the diagonal scaling.
pub open spec fn scaled<T>(
    a: Arithmetic<T>,
    groups: nat,
    inverse: Seq<T>,
    x: Seq<T>,
    y: Seq<T>,
) -> Seq<T> {
    Seq::new(
        y.len(),
        |i: int|
            if i < 128 * groups && i < x.len() {
                (a.times)(inverse[i], x[i])
            } else {
                y[i]
            },
    )
}

/// The sum that a workgroup makes of its scratch space: halves are added until one entry is left.
pub open spec fn tree<T>(a: Arithmetic<T>, scratch: Seq<T>, stride: nat) -> T
    decreases stride,
{
    if stride == 0 {
        scratch[0]
    } else {
        let folded = Seq::new(stride, |i: int| (a.plus)(scratch[i], scratch[i + stride]));
        tree(a, folded, stride / 2)
    }
}

/// One lane of the partial sum of a workgroup, the sum of the products of two vectors.
pub open spec fn partial_sum<T>(
    a: Arithmetic<T>,
    x: Seq<T>,
    y: Seq<T>,
    n: nat,
    group: nat,
) -> T {
    tree(
        a,
        Seq::new(
            256,
            |lane: int|
                if group * 256 + lane < n {
                    (a.times)(x[group * 256 + lane], y[group * 256 + lane])
                } else {
                    a.zero()
                },
        ),
        128,
    )
}

/// Three pairs of vectors that are summed together.
pub ghost struct Sextet<T> {
    pub x0: Seq<T>,
    pub y0: Seq<T>,
    pub x1: Seq<T>,
    pub y1: Seq<T>,
    pub x2: Seq<T>,
    pub y2: Seq<T>,
}

/// The kernel `reduce_stage`.
pub open spec fn staged<T>(
    a: Arithmetic<T>,
    groups: nat,
    v: Sextet<T>,
    params: Seq<T>,
    partials: Seq<T>,
) -> Seq<T> {
    let n = (a.count)(params[0]);
    Seq::new(
        partials.len(),
        |cell: int|
            if cell >= 4 * groups {
                partials[cell]
            } else if cell % 4 == 0 {
                partial_sum(a, v.x0, v.y0, n, (cell / 4) as nat)
            } else if cell % 4 == 1 {
                partial_sum(a, v.x1, v.y1, n, (cell / 4) as nat)
            } else if cell % 4 == 2 {
                partial_sum(a, v.x2, v.y2, n, (cell / 4) as nat)
            } else {
                tree(a, Seq::new(256, |lane: int| a.zero()), 128)
            },
    )
}

/// Every 256th partial sum of a lane from `index` on, added to `sum`.
pub open spec fn strided<T>(
    a: Arithmetic<T>,
    partials: Seq<T>,
    lane: int,
    index: nat,
    count: nat,
    sum: T,
) -> T
    decreases
            (if index < count {
                count - index
            } else {
                0
            }),
{
    if index >= count {
        sum
    } else {
        let next = (a.plus)(sum, partials[4 * index + lane]);
        strided(a, partials, lane, index + 256, count, next)
    }
}

/// One lane of the sum of the partial sums.
pub open spec fn whole_sum<T>(a: Arithmetic<T>, partials: Seq<T>, lane: int, count: nat) -> T {
    tree(
        a,
        Seq::new(256, |index: int| strided(a, partials, lane, index as nat, count, a.zero())),
        128,
    )
}

/// The kernel `reduce_final`.
pub open spec fn finished<T>(
    a: Arithmetic<T>,
    params: Seq<T>,
    partials: Seq<T>,
    result: Seq<T>,
) -> Seq<T> {
    let count = (a.count)(params[1]);
    Seq::new(
        result.len(),
        |lane: int|
            if lane < 4 {
                whole_sum(a, partials, lane, count)
            } else {
                result[lane]
            },
    )
}

/// What a kernel makes of the memory, with the buffers `at` bound to it.
pub open spec fn run_kernel<T>(
    a: Arithmetic<T>,
    dispatch: Dispatch,
    at: Seq<usize>,
    m: Map<usize, Seq<T>>,
) -> Map<usize, Seq<T>> {
    let groups = dispatch.groups as nat;
    match dispatch.kernel {
        Kernel::Axpby => m.insert(at[1], combined(a, groups, m[at[2]], m[at[0]], m[at[1]])),
        Kernel::ReduceStage => {
            let v = Sextet {
                x0: m[at[0]],
                y0: m[at[1]],
                x1: m[at[2]],
                y1: m[at[3]],
                x2: m[at[7]],
                y2: m[at[8]],
            };
            m.insert(at[4], staged(a, groups, v, m[at[6]], m[at[4]]))
        },
        Kernel::ReduceFinal => m.insert(at[5], finished(a, m[at[6]], m[at[4]], m[at[5]])),
        Kernel::Spmv => m.insert(
            at[4],
            product(a, groups, m[at[0]], m[at[1]], m[at[2]], m[at[3]], m[at[4]]),
        ),
        Kernel::JacobiApply => m.insert(at[2], scaled(a, groups, m[at[0]], m[at[1]], m[at[2]])),
        Kernel::UpdatePOmega
        | Kernel::PrepareP
        | Kernel::MakeS
        | Kernel::UpdateXAlpha
        | Kernel::UpdateXOmega
        | Kernel::MakeR => m.insert(
            at[2],
            updated(a, dispatch.kernel, groups, m[at[0]], m[at[1]], m[at[2]], m[at[3]]),
        ),
        _ => m.insert(at[0], recurrence(a, dispatch.kernel, m[at[0]], m[at[1]])),
    }
}

/// What the kernels of a pass make of the memory, one after the other.
pub open spec fn run_kernels<T>(
    a: Arithmetic<T>,
    dispatches: Seq<Dispatch>,
    at: Seq<usize>,
    m: Map<usize, Seq<T>>,
) -> Map<usize, Seq<T>>
    decreases dispatches.len(),
{
    if dispatches.len() == 0 {
        m
    } else {
        run_kernel(a, dispatches.last(), at, run_kernels(a, dispatches.drop_last(), at, m))
    }
}

/// The first `count` words of one buffer in the place of those of another.
pub open spec fn overwritten<T>(old_words: Seq<T>, new_words: Seq<T>, count: nat) -> Seq<T> {
    Seq::new(
        old_words.len(),
        |i: int|
            if i < count {
                new_words[i]
            } else {
                old_words[i]
            },
    )
}

/// What a piece of encoded work makes of the memory.
pub open spec fn run_work<T>(a: Arithmetic<T>, work: EncodedView, m: Map<usize, Seq<T>>) -> Map<
    usize,
    Seq<T>,
> {
    match work {
        EncodedView::ClearBuffer { buffer } => m.insert(
            buffer,
            Seq::new(m[buffer].len(), |i: int| a.zero()),
        ),
        EncodedView::CopyBuffer { source, destination, bytes } => m.insert(
            destination,
            overwritten(m[destination], m[source], (bytes / 4) as nat),
        ),
        EncodedView::ComputePass { label, bindings, dispatches } => run_kernels(
            a,
            dispatches,
            Seq::new(bindings.len(), |i: int| bindings[i].buffer),
            m,
        ),
    }
}

/// What pieces of encoded work make of the memory, one after the other.
pub open spec fn run_encoded<T>(
    a: Arithmetic<T>,
    encoded: Seq<EncodedView>,
    m: Map<usize, Seq<T>>,
) -> Map<usize, Seq<T>>
    decreases encoded.len(),
{
    if encoded.len() == 0 {
        m
    } else {
        run_work(a, encoded.last(), run_encoded(a, encoded.drop_last(), m))
    }
}

/// What a command makes of the memory of buffers that exist.
pub open spec fn run_command<T>(d: Device<T>, command: CommandView, m: Map<usize, Seq<T>>) -> Map<
    usize,
    Seq<T>,
> {
    match command {
        CommandView::WriteBuffer { buffer, contents } => {
            let words = crate::bytes::bytes_words(d.order, contents);
            let values = Seq::new(words.len(), |i: int| (d.arithmetic.word)(words[i]));
            m.insert(buffer, overwritten(m[buffer], values, words.len()))
        },
        CommandView::Submit { label, encoded } => run_encoded(d.arithmetic, encoded, m),
        CommandView::Precondition { input, output } => {
            let given = m[input.buffer].take(input.len as int);
            m.insert(
                output.buffer,
                overwritten(m[output.buffer], (d.precondition)(given), output.len as nat),
            )
        },
        _ => m,
    }
}

/// What commands make of the memory, one after the other.
pub open spec fn run_commands<T>(
    d: Device<T>,
    commands: Seq<CommandView>,
    m: Map<usize, Seq<T>>,
) -> Map<usize, Seq<T>>
    decreases commands.len(),
{
    if commands.len() == 0 {
        m
    } else {
        run_command(d, commands.last(), run_commands(d, commands.drop_last(), m))
    }
}

/// A kernel writes no buffer but those that its shader binds for writing.
pub proof fn law_kernels_write_their_slots<T>(
    a: Arithmetic<T>,
    dispatch: Dispatch,
    at: Seq<usize>,
    m: Map<usize, Seq<T>>,
    buffer: usize,
)
    requires
        ({
            let slots = crate::command::module_slots(
                crate::command::kernel_module(dispatch.kernel),
            );
            &&& at.len() == slots.len()
            &&& forall|i: int|
                0 <= i < slots.len() && (#[trigger] slots[i]).kind is ReadWrite ==> at[i] != buffer
        }),
    ensures
        run_kernel(a, dispatch, at, m)[buffer] == m[buffer],
{
    let slots = crate::command::module_slots(crate::command::kernel_module(dispatch.kernel));
    assert forall|i: int| 0 <= i < slots.len() && slots[i].kind is ReadWrite implies at[i]
        != buffer by {
        assert(slots[i].kind is ReadWrite);
    }
    match dispatch.kernel {
        Kernel::Axpby => {
            assert(slots[1].kind is ReadWrite);
        },
        Kernel::ReduceStage => {
            assert(slots[4].kind is ReadWrite);
        },
        Kernel::ReduceFinal => {
            assert(slots[5].kind is ReadWrite);
        },
        Kernel::Spmv => {
            assert(slots[4].kind is ReadWrite);
        },
        Kernel::BeginIteration
        | Kernel::FinishAlpha
        | Kernel::CheckS
        | Kernel::FinishOmega
        | Kernel::CheckR => {
            assert(slots[0].kind is ReadWrite);
        },
        _ => {
            assert(slots[2].kind is ReadWrite);
        },
    }
}

/// The sum of a row starts from what it is given and grows by the product of the next stored value
/// with the entry of the vector in its column.
pub proof fn law_row_sum_grows(
    a: Arithmetic<real>,
    columns: Seq<real>,
    values: Seq<real>,
    x: Seq<real>,
    e: nat,
    end: nat,
    sum: real,
)
    requires
        exact(a),
        e <= end,
    ensures
        row_sum(a, columns, values, x, e, e, sum) == sum,
        row_sum(a, columns, values, x, e, end + 1, sum) == row_sum(
            a,
            columns,
            values,
            x,
            e,
            end,
            sum,
        ) + values[end as int] * x[(a.count)(columns[end as int]) as int],
    decreases end - e,
{
    reveal_with_fuel(row_sum, 2);
    if e < end {
        let next = (a.fused)(values[e as int], x[(a.count)(columns[e as int]) as int], sum);
        law_row_sum_grows(a, columns, values, x, e + 1, end, next);
    }
}

/// What the product kernel computes of its bindings: the row offsets are bound first, then the
/// columns, the values and the vector, and the sum of each row goes to the buffer bound last.
pub proof fn law_product_kernel(
    a: Arithmetic<real>,
    groups: u32,
    at: Seq<usize>,
    m: Map<usize, Seq<real>>,
    row: int,
)
    requires
        exact(a),
        at.len() == 5,
        0 <= row < 128 * groups,
        row < m[at[4]].len(),
        row + 1 < m[at[0]].len(),
    ensures
        run_kernel(a, Dispatch { kernel: Kernel::Spmv, groups }, at, m)[at[4]][row] == row_sum(
            a,
            m[at[1]],
            m[at[2]],
            m[at[3]],
            (a.count)(m[at[0]][row]),
            (a.count)(m[at[0]][row + 1]),
            0real,
        ),
{
}

/// What the other vector kernels compute of their bindings, entry by entry: `axpby` has the
/// coefficients and the length bound last, diagonal scaling the inverse diagonal first, and the
/// updates of an iteration the state first and their output third.
pub proof fn law_vector_kernels(
    a: Arithmetic<real>,
    groups: u32,
    at: Seq<usize>,
    m: Map<usize, Seq<real>>,
    i: int,
)
    requires
        exact(a),
        at.len() >= 4,
        0 <= i < 128 * groups,
    ensures
        i < m[at[1]].len() && i < (a.count)(m[at[2]][2]) ==> run_kernel(
            a,
            Dispatch { kernel: Kernel::Axpby, groups },
            at,
            m,
        )[at[1]][i] == m[at[2]][0] * m[at[0]][i] + m[at[2]][1] * m[at[1]][i],
        i < m[at[1]].len() && i < m[at[2]].len() ==> run_kernel(
            a,
            Dispatch { kernel: Kernel::JacobiApply, groups },
            at,
            m,
        )[at[2]][i] == m[at[0]][i] * m[at[1]][i],
        i < m[at[2]].len() && m[at[0]][12] > a.half() ==> {
            let state = m[at[0]];
            let after = |kernel: Kernel|
                run_kernel(a, Dispatch { kernel, groups }, at, m)[at[2]][i];
            let (x, y, z) = (m[at[1]][i], m[at[2]][i], m[at[3]][i]);
            let (alpha, omega) = (state[2] + state[3], state[4] + state[5]);
            let first = state[13] < a.one_and_half();
            &&& after(Kernel::UpdatePOmega) == if first {
                y
            } else {
                y - omega * z
            }
            &&& after(Kernel::PrepareP) == if first {
                x
            } else {
                x + state[6] * y
            }
            &&& after(Kernel::MakeS) == x - alpha * z
            &&& after(Kernel::UpdateXAlpha) == y + alpha * x
            &&& after(Kernel::UpdateXOmega) == y + omega * x
            &&& after(Kernel::MakeR) == x - omega * z
        },
{
    let state = m[at[0]];
    let (alpha, omega) = (state[2] + state[3], state[4] + state[5]);
    let z = m[at[3]][i];
    assert((-omega) * z == -(omega * z)) by (nonlinear_arith);
    assert((-alpha) * z == -(alpha * z)) by (nonlinear_arith);
}

} // verus!
