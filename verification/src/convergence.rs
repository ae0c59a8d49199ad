//! Choices for a solve and what is reported of it.
use crate::error::{KError, NonFiniteKind, SolveFailure};
use crate::portable::{count_from_single, is_finite32, is_finite64, is_nan64, square_root, SIGN64};
use vstd::prelude::*;

verus! {

/// Krylov methods that can be asked for.
#[derive(Clone, Copy, Debug, PartialEq, Eq, Structural)]
pub enum SolverType {
    Cg,
    Gmres,
    BiCgStab,
}

/// Preconditioners that can be asked for.
#[derive(Clone, Copy, Debug, PartialEq, Eq, Structural)]
pub enum PcType {
    /// No preconditioning.
    Identity,
    Jacobi,
    Ilu0,
}

/// Why an iteration stopped, if it did.
#[derive(Clone, Copy, Debug, PartialEq, Eq, Structural)]
pub enum ConvergedReason {
    Continued,
    ConvergedRtol,
    ConvergedAtol,
    DivergedDtol,
    DivergedMaxIts,
    DivergedBreakdownBiCG,
    DivergedNan,
    DivergedInf,
}

impl ConvergedReason {
    /// Whether the iteration reached its tolerance.
    pub fn is_converged(&self) -> (r: bool)
        ensures
            r == self.converged(),
    {
        match self {
            ConvergedReason::ConvergedRtol | ConvergedReason::ConvergedAtol => true,
            _ => false,
        }
    }

    /// Whether the iteration reached its tolerance.
    pub open spec fn converged(self) -> bool {
        self is ConvergedRtol || self is ConvergedAtol
    }
}

/// Tolerances, as bit patterns of doubles, and the bound on the iterations.
#[derive(Clone, Copy, Debug, PartialEq, Eq, Structural)]
pub struct Convergence {
    pub rtol: u64,
    pub atol: u64,
    pub dtol: u64,
    pub max_iters: usize,
}

/// Whether a double is smaller than zero.
pub open spec fn below_zero(bits: u64) -> bool {
    SIGN64 < bits <= SIGN64 + crate::portable::INF64
}

/// Whether tolerances are finite and not negative, the divergence tolerance positive, and at
/// least one iteration allowed.
pub open spec fn usable_tolerances(c: Convergence) -> bool {
    &&& crate::portable::finite64(c.rtol)
    &&& crate::portable::finite64(c.atol)
    &&& crate::portable::finite64(c.dtol)
    &&& !below_zero(c.rtol)
    &&& !below_zero(c.atol)
    &&& c.dtol < SIGN64
    &&& c.dtol > 0
    &&& c.max_iters > 0
}

impl Convergence {
    /// These tolerances.
    pub fn new(rtol: u64, atol: u64, dtol: u64, max_iters: usize) -> (r: Convergence)
        ensures
            r == (Convergence { rtol, atol, dtol, max_iters }),
    {
        Convergence { rtol, atol, dtol, max_iters }
    }

    /// Whether these tolerances can be used.
    pub fn is_usable(&self) -> (r: bool)
        ensures
            r == usable_tolerances(*self),
    {
        is_finite64(self.rtol) && is_finite64(self.atol) && is_finite64(self.dtol)
            && self.rtol <= SIGN64 && self.atol <= SIGN64 && self.dtol < SIGN64 && self.dtol > 0
            && self.max_iters > 0
    }
}

/// Work that a solve counted.
#[derive(Clone, Copy, Debug, PartialEq, Eq, Structural)]
pub struct SolverCounters {
    pub num_global_reductions: usize,
}

/// How many reductions a method needs at the start, in each iteration and at the end.
#[derive(Clone, Copy, Debug)]
pub struct ReductionModel {
    pub variant: &'static str,
    pub startup: usize,
    pub per_iteration: usize,
    pub tail: usize,
}

/// What is reported of a solve; the residuals are bit patterns of doubles.
#[derive(Debug)]
pub struct SolveStats {
    pub iterations: usize,
    pub final_residual: u64,
    pub reason: ConvergedReason,
    pub final_recurrence_residual: Option<u64>,
    pub final_true_residual: Option<u64>,
    pub counters: SolverCounters,
    pub reduction_model: Option<ReductionModel>,
    pub effective_variant: Option<String>,
}

/// A reduction model with its text as characters.
pub ghost struct ModelView {
    pub variant: Seq<char>,
    pub startup: usize,
    pub per_iteration: usize,
    pub tail: usize,
}

/// A report with its text as characters.
pub ghost struct StatsView {
    pub iterations: usize,
    pub final_residual: u64,
    pub reason: ConvergedReason,
    pub final_recurrence_residual: Option<u64>,
    pub final_true_residual: Option<u64>,
    pub num_global_reductions: usize,
    pub reduction_model: Option<ModelView>,
    pub effective_variant: Option<Seq<char>>,
}

impl View for SolveStats {
    type V = StatsView;

    open spec fn view(&self) -> StatsView {
        StatsView {
            iterations: self.iterations,
            final_residual: self.final_residual,
            reason: self.reason,
            final_recurrence_residual: self.final_recurrence_residual,
            final_true_residual: self.final_true_residual,
            num_global_reductions: self.counters.num_global_reductions,
            reduction_model: match self.reduction_model {
                Some(model) => Some(
                    ModelView {
                        variant: model.variant@,
                        startup: model.startup,
                        per_iteration: model.per_iteration,
                        tail: model.tail,
                    },
                ),
                None => None,
            },
            effective_variant: match self.effective_variant {
                Some(text) => Some(text@),
                None => None,
            },
        }
    }
}

/// The reason that the device reports with a code; none where the code is not a finite number.
pub open spec fn reason_of(code: u32) -> ConvergedReason {
    let n = crate::portable::nearest_count(code);
    if !crate::portable::finite32(code) {
        ConvergedReason::Continued
    } else if n == 1 {
        ConvergedReason::ConvergedRtol
    } else if n == 2 {
        ConvergedReason::ConvergedAtol
    } else if n == 3 {
        ConvergedReason::DivergedDtol
    } else if n == 4 {
        ConvergedReason::DivergedMaxIts
    } else if n == 5 {
        ConvergedReason::DivergedBreakdownBiCG
    } else if n == 6 {
        ConvergedReason::DivergedNan
    } else if n == 7 {
        ConvergedReason::DivergedInf
    } else {
        ConvergedReason::Continued
    }
}

/// The reason that the device reports with a code, a single precision number.
pub fn resident_reason(code: u32) -> (r: ConvergedReason)
    ensures
        r == reason_of(code),
{
    if !is_finite32(code) {
        return ConvergedReason::Continued;
    }
    match count_from_single(code) {
        1 => ConvergedReason::ConvergedRtol,
        2 => ConvergedReason::ConvergedAtol,
        3 => ConvergedReason::DivergedDtol,
        4 => ConvergedReason::DivergedMaxIts,
        5 => ConvergedReason::DivergedBreakdownBiCG,
        6 => ConvergedReason::DivergedNan,
        7 => ConvergedReason::DivergedInf,
        _ => ConvergedReason::Continued,
    }
}

/// The error with which a squared norm is refused, if it is.
pub open spec fn norm_error(square: u64, context: Seq<char>) -> Option<crate::error::ErrorView> {
    if !crate::portable::finite64(square) {
        Some(
            crate::error::ErrorView::NonFiniteReduction {
                kind: if crate::portable::nan64(square) {
                    NonFiniteKind::Nan
                } else {
                    NonFiniteKind::Inf
                },
                context,
            },
        )
    } else if below_zero(square) {
        Some(
            crate::error::ErrorView::SolveError(
                crate::error::FailureView::NegativeNorm { context, square },
            ),
        )
    } else {
        None
    }
}

/// The norm of a squared norm.
pub fn checked_norm(square: u64, context: &'static str) -> (r: Result<u64, KError>)
    ensures
        match r {
            Ok(norm) => {
                &&& norm_error(square, context@) is None
                &&& norm == crate::portable::rooted(square)
                &&& crate::portable::root_of(square, norm)
            },
            Err(e) => norm_error(square, context@) == Some(e@),
        },
{
    if !is_finite64(square) {
        let kind = if is_nan64(square) {
            NonFiniteKind::Nan
        } else {
            NonFiniteKind::Inf
        };
        return Err(KError::NonFiniteReduction { kind, context });
    }
    if square > SIGN64 {
        return Err(KError::SolveError(SolveFailure::NegativeNorm { context, square }));
    }
    Ok(square_root(square))
}

/// Tolerances are accepted exactly where each of them is a number of its kind, whatever the others
/// are: the relative and the absolute tolerance are finite and not below zero, the divergence
/// tolerance is finite and above zero, and at least one iteration is allowed.
pub proof fn law_tolerances_accepted(c: Convergence)
    ensures
        usable_tolerances(c) <==> {
            &&& c.rtol < 0x7ff0_0000_0000_0000 || c.rtol == 0x8000_0000_0000_0000
            &&& c.atol < 0x7ff0_0000_0000_0000 || c.atol == 0x8000_0000_0000_0000
            &&& 0 < c.dtol < 0x7ff0_0000_0000_0000
            &&& c.max_iters >= 1
        },
{
}

/// Each tolerance is judged on its own: tolerances that are accepted can be combined.
pub proof fn law_tolerances_judged_apart(
    one: Convergence,
    two: Convergence,
    three: Convergence,
    four: Convergence,
)
    requires
        usable_tolerances(one),
        usable_tolerances(two),
        usable_tolerances(three),
        usable_tolerances(four),
    ensures
        usable_tolerances(
            Convergence {
                rtol: one.rtol,
                atol: two.atol,
                dtol: three.dtol,
                max_iters: four.max_iters,
            },
        ),
{
}

/// Which reason a code stands for: the one of the nearest of the numbers from one to seven, halves
/// going up, and none for a code that is nearest to no such number or is not a number.
pub proof fn law_reason_codes(code: u32)
    ensures
        reason_of(code) is ConvergedRtol <==> 0x3f00_0000 <= code < 0x3fc0_0000,
        reason_of(code) is ConvergedAtol <==> 0x3fc0_0000 <= code < 0x4020_0000,
        reason_of(code) is DivergedDtol <==> 0x4020_0000 <= code < 0x4060_0000,
        reason_of(code) is DivergedMaxIts <==> 0x4060_0000 <= code < 0x4090_0000,
        reason_of(code) is DivergedBreakdownBiCG <==> 0x4090_0000 <= code < 0x40b0_0000,
        reason_of(code) is DivergedNan <==> 0x40b0_0000 <= code < 0x40d0_0000,
        reason_of(code) is DivergedInf <==> 0x40d0_0000 <= code < 0x40f0_0000,
        reason_of(code) is Continued <==> code < 0x3f00_0000 || 0x40f0_0000 <= code,
{
    if code < 0x8000_0000 {
        crate::portable::law_small_counts(code);
    }
}

/// A squared norm is accepted exactly where it is finite and not below zero; what is not a number,
/// infinite or negative is refused as such, with the place where it was met.
pub proof fn law_norms_accepted(square: u64, context: Seq<char>)
    ensures
        norm_error(square, context) is None <==> square < 0x7ff0_0000_0000_0000 || square
            == 0x8000_0000_0000_0000,
        square == 0x7ff0_0000_0000_0000 || square == 0xfff0_0000_0000_0000 ==> norm_error(
            square,
            context,
        ) == Some(
            crate::error::ErrorView::NonFiniteReduction { kind: NonFiniteKind::Inf, context },
        ),
        0x7ff0_0000_0000_0000 < square < 0x8000_0000_0000_0000 || 0xfff0_0000_0000_0000 < square
            ==> norm_error(square, context) == Some(
            crate::error::ErrorView::NonFiniteReduction { kind: NonFiniteKind::Nan, context },
        ),
        0x8000_0000_0000_0000 < square < 0xfff0_0000_0000_0000 ==> norm_error(square, context)
            == Some(
            crate::error::ErrorView::SolveError(
                crate::error::FailureView::NegativeNorm { context, square },
            ),
        ),
{
}

/// A solve has converged exactly where it reached its relative or its absolute tolerance.
pub proof fn law_converged(reason: ConvergedReason)
    ensures
        reason.converged() == match reason {
            ConvergedReason::ConvergedRtol | ConvergedReason::ConvergedAtol => true,
            ConvergedReason::Continued
            | ConvergedReason::DivergedDtol
            | ConvergedReason::DivergedMaxIts
            | ConvergedReason::DivergedBreakdownBiCG
            | ConvergedReason::DivergedNan
            | ConvergedReason::DivergedInf => false,
        },
{
}

/// A report is what its fields say.
pub proof fn law_report_is_its_fields(stats: SolveStats)
    ensures
        stats@.iterations == stats.iterations,
        stats@.final_residual == stats.final_residual,
        stats@.reason == stats.reason,
        stats@.final_recurrence_residual == stats.final_recurrence_residual,
        stats@.final_true_residual == stats.final_true_residual,
        stats@.num_global_reductions == stats.counters.num_global_reductions,
        match (stats@.reduction_model, stats.reduction_model) {
            (Some(seen), Some(model)) => {
                &&& seen.variant == model.variant@
                &&& seen.startup == model.startup
                &&& seen.per_iteration == model.per_iteration
                &&& seen.tail == model.tail
            },
            (None, None) => true,
            _ => false,
        },
        match (stats@.effective_variant, stats.effective_variant) {
            (Some(seen), Some(text)) => seen == text@,
            (None, None) => true,
            _ => false,
        },
{
}

} // verus!
