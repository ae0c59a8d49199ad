//! Errors of the solver.
use vstd::prelude::*;

verus! {

/// What the graphics layer failed at.
#[derive(Clone, Copy, Debug, PartialEq, Eq, Structural)]
pub enum WgpuErrorKind {
    /// No adapter or device could be had.
    Unavailable,
    /// Objects of different runtimes were combined.
    DeviceMismatch,
    /// A readback did not complete.
    Synchronization,
}

/// How a number failed to be finite.
#[derive(Clone, Copy, Debug, PartialEq, Eq, Structural)]
pub enum NonFiniteKind {
    Nan,
    Inf,
}

/// Why a solve could not go on.
#[derive(Debug)]
pub enum SolveFailure {
    /// What went wrong, in words.
    Text(String),
    /// A squared norm came out negative; `square` is the bit pattern of the double.
    NegativeNorm { context: &'static str, square: u64 },
}

/// Error of a solver operation.
#[derive(Debug)]
#[allow(inconsistent_fields)]
pub enum KError {
    /// An argument does not fit.
    InvalidInput(String),
    /// A request that this solver does not serve.
    Unsupported(&'static str),
    /// A solve that could not go on.
    SolveError(SolveFailure),
    /// The diagonal entry of this row cannot be inverted.
    ZeroPivot(usize),
    /// A reduction gave something that is not a finite number.
    NonFiniteReduction { kind: NonFiniteKind, context: &'static str },
    /// A failure of the graphics layer.
    Wgpu { kind: WgpuErrorKind, operation: &'static str, message: String },
}

/// Why a solve could not go on, with its text as characters.
pub ghost enum FailureView {
    Text(Seq<char>),
    NegativeNorm { context: Seq<char>, square: u64 },
}

impl View for SolveFailure {
    type V = FailureView;

    open spec fn view(&self) -> FailureView {
        match self {
            SolveFailure::Text(text) => FailureView::Text(text@),
            SolveFailure::NegativeNorm { context, square } => FailureView::NegativeNorm {
                context: context@,
                square: *square,
            },
        }
    }
}

/// An error, with its text as characters.
#[allow(inconsistent_fields)]
pub ghost enum ErrorView {
    InvalidInput(Seq<char>),
    Unsupported(Seq<char>),
    SolveError(FailureView),
    ZeroPivot(usize),
    NonFiniteReduction { kind: NonFiniteKind, context: Seq<char> },
    Wgpu { kind: WgpuErrorKind, operation: Seq<char>, message: Seq<char> },
}

impl View for KError {
    type V = ErrorView;

    open spec fn view(&self) -> ErrorView {
        match self {
            KError::InvalidInput(text) => ErrorView::InvalidInput(text@),
            KError::Unsupported(text) => ErrorView::Unsupported(text@),
            KError::SolveError(failure) => ErrorView::SolveError(failure@),
            KError::ZeroPivot(row) => ErrorView::ZeroPivot(*row),
            KError::NonFiniteReduction { kind, context } => ErrorView::NonFiniteReduction {
                kind: *kind,
                context: context@,
            },
            KError::Wgpu { kind, operation, message } => ErrorView::Wgpu {
                kind: *kind,
                operation: operation@,
                message: message@,
            },
        }
    }
}

/// The error of a result that failed.
pub open spec fn failure<T>(r: Result<T, KError>) -> Option<ErrorView> {
    match r {
        Ok(_) => None,
        Err(e) => Some(e@),
    }
}

/// An `InvalidInput` error with a fixed text.
pub(crate) fn invalid_input(text: &'static str) -> (r: KError)
    ensures
        r@ == ErrorView::InvalidInput(text@),
{
    KError::InvalidInput(text.to_owned())
}

/// Wraps a failure that the graphics layer reported.
pub fn wgpu_error(
    kind: WgpuErrorKind,
    operation: &'static str,
    error: impl std::fmt::Display,
) -> (r: KError)
    ensures
        match r {
            KError::Wgpu { kind: k, operation: o, message: m } => {
                &&& k == kind
                &&& o@ == operation@
                &&& vstd::string::to_string_from_display_ensures(&error, m)
            },
            _ => false,
        },
{
    wgpu_error_message(kind, operation, error.to_string())
}

/// A failure of the graphics layer, with its message.
pub fn wgpu_error_message(
    kind: WgpuErrorKind,
    operation: &'static str,
    message: String,
) -> (r: KError)
    ensures
        r@ == (ErrorView::Wgpu { kind, operation: operation@, message: message@ }),
        r matches KError::Wgpu { message: m, .. } && m == message,
{
    KError::Wgpu { kind, operation, message }
}

/// An error is what its parts say: errors that look alike are of one kind, with the same parts.
pub proof fn law_error_is_its_parts(a: KError, b: KError)
    requires
        a@ == b@,
    ensures
        match (a, b) {
            (KError::InvalidInput(s), KError::InvalidInput(t)) => s@ == t@,
            (KError::Unsupported(s), KError::Unsupported(t)) => s@ == t@,
            (
                KError::SolveError(SolveFailure::Text(s)),
                KError::SolveError(SolveFailure::Text(t)),
            ) => s@ == t@,
            (
                KError::SolveError(SolveFailure::NegativeNorm { context: s, square: p }),
                KError::SolveError(SolveFailure::NegativeNorm { context: t, square: q }),
            ) => s@ == t@ && p == q,
            (KError::ZeroPivot(p), KError::ZeroPivot(q)) => p == q,
            (
                KError::NonFiniteReduction { kind: p, context: s },
                KError::NonFiniteReduction { kind: q, context: t },
            ) => p == q && s@ == t@,
            (
                KError::Wgpu { kind: p, operation: s, message: u },
                KError::Wgpu { kind: q, operation: t, message: v },
            ) => p == q && s@ == t@ && u@ == v@,
            _ => false,
        },
{
}

} // verus!
