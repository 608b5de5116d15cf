//! An intermediate representation for quantum computations: operations,
//! circuits and measurement overlays, with the passes that rewrite them.
//!
//! Every transformation returns a new value; nothing is changed in place.
//! Concrete numeric parameters are held as IEEE 754 binary64 bit patterns, so
//! that operations can be copied and compared exactly.

pub mod binding;
pub mod circuit;
pub mod decomposition;
pub mod equality;
pub mod error;
pub mod laws;
pub mod matrix;
pub mod measurement;
pub mod operation;
pub mod parameter;
pub mod record;
pub mod substitution;

pub use circuit::Circuit;
pub use error::OperationError;
pub use matrix::MatrixEntry;
pub use measurement::{ClassicalRegister, RegisterError, RegisterPart};
pub use operation::{InvolvedQubits, Operation, OperationKind};
pub use parameter::Parameter;
pub use record::OperationRecord;
