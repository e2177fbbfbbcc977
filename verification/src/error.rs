//! The conditions that abort a pass.

use vstd::prelude::*;

verus! {

/// Why a pass gave up. A pass that fails yields nothing else.
#[derive(Debug, PartialEq, Eq)]
pub enum CompileError {
    /// A reference to a name that no enclosing binding makes visible.
    UnresolvedReference(String),
    /// A `Body` without elements, which has no value.
    EmptyBody,
    /// A counter of identifiers, value names or block labels left the range
    /// of `u32`.
    CounterOverflow,
}

/// The mathematical value of a [`CompileError`].
pub ghost enum CompileErrorView {
    UnresolvedReference(Seq<char>),
    EmptyBody,
    CounterOverflow,
}

impl View for CompileError {
    type V = CompileErrorView;

    open spec fn view(&self) -> CompileErrorView {
        match self {
            CompileError::UnresolvedReference(name) => CompileErrorView::UnresolvedReference(
                name@,
            ),
            CompileError::EmptyBody => CompileErrorView::EmptyBody,
            CompileError::CounterOverflow => CompileErrorView::CounterOverflow,
        }
    }
}

/// The largest value that a counter of either pass may reach.
pub const COUNTER_MAX: u32 = 0xFFFF_FFFF;

} // verus!
