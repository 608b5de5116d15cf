//! The failures that a transformation of an operation can report.

use vstd::prelude::*;

verus! {

/// Why a transformation returned no new value.
#[derive(Clone, Debug, PartialEq, Eq)]
pub enum OperationError {
    /// The qubit mapping has no entry for an involved qubit; the qubit is cited.
    Remapping { qubit: usize },
    /// A symbolic expression could not be resolved. `expression` is the
    /// parameter that failed; `symbol` is the unset variable, where the
    /// evaluator reported one.
    Substitution { expression: String, symbol: Option<String> },
    /// The operation has no decomposition for its number of qubits.
    Decomposition { qubit_count: usize },
    /// A matrix was requested of an operation that is still symbolic or that
    /// denotes no unitary action.
    MatrixEvaluation,
}

} // verus!
