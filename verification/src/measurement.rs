//! Measurement overlays: circuits grouped for statistical evaluation.

use crate::circuit::{
    all_concrete, has_missing_symbol, has_only_known_symbols, has_symbols_replaced_in,
    is_sequence_resolution_of, is_symbolic_parameter_in, Circuit,
};
use crate::substitution::calculator_variables;
use crate::error::OperationError;
use crate::operation::OperationView;
use qoqo_calculator::Calculator;
use vstd::prelude::*;

verus! {

/// An optional constant circuit, run once for each sampling, and the
/// measurement circuits, run once for each shot, in their order.
#[derive(Clone, Debug, PartialEq, Eq)]
pub struct ClassicalRegister {
    pub constant_circuit: Option<Circuit>,
    pub circuits: Vec<Circuit>,
}

/// The mathematical value of a [`ClassicalRegister`].
pub struct ClassicalRegisterView {
    pub constant_circuit: Option<Seq<OperationView>>,
    pub circuits: Seq<Seq<OperationView>>,
}

impl View for ClassicalRegister {
    type V = ClassicalRegisterView;

    open spec fn view(&self) -> ClassicalRegisterView {
        ClassicalRegisterView {
            constant_circuit: match self.constant_circuit {
                Some(circuit) => Some(circuit@),
                None => None,
            },
            circuits: self.circuits@.map_values(|circuit: Circuit| circuit@),
        }
    }
}

/// The circuit of a register in which a rewrite failed.
#[derive(Clone, Copy, Debug, PartialEq, Eq, Structural)]
pub enum RegisterPart {
    /// The constant circuit.
    Constant,
    /// The measurement circuit at the given position.
    Measurement(usize),
}

/// A failed rewrite of a register: the circuit that failed, and why.
#[derive(Clone, Debug, PartialEq, Eq)]
pub struct RegisterError {
    pub part: RegisterPart,
    pub cause: OperationError,
}

impl ClassicalRegisterView {
    /// No circuit of the register has a symbolic parameter.
    pub open spec fn is_concrete(self) -> bool {
        &&& self.constant_circuit matches Some(circuit) ==> all_concrete(circuit)
        &&& forall|k: int| 0 <= k < self.circuits.len() ==> all_concrete(#[trigger] self.circuits[k])
    }

    /// `self` is `before` with every circuit resolved; a constant circuit is
    /// present in both or in neither.
    pub open spec fn is_resolution_of(self, before: ClassicalRegisterView) -> bool {
        &&& match (self.constant_circuit, before.constant_circuit) {
            (Some(after), Some(circuit)) => is_sequence_resolution_of(after, circuit),
            (None, None) => true,
            _ => false,
        }
        &&& self.circuits.len() == before.circuits.len()
        &&& forall|k: int|
            0 <= k < self.circuits.len() ==> is_sequence_resolution_of(
                #[trigger] self.circuits[k],
                before.circuits[k],
            )
    }

    /// Every symbolic parameter of every circuit is a single symbol among the
    /// variables.
    pub open spec fn has_only_known_symbols(self, variables: Map<Seq<char>, u64>) -> bool {
        &&& self.constant_circuit matches Some(circuit) ==> has_only_known_symbols(
            circuit,
            variables,
        )
        &&& forall|k: int|
            0 <= k < self.circuits.len() ==> has_only_known_symbols(
                #[trigger] self.circuits[k],
                variables,
            )
    }

    /// Some parameter of some circuit is a single symbol that is not among
    /// the variables.
    pub open spec fn has_missing_symbol(self, variables: Map<Seq<char>, u64>) -> bool {
        ||| self.constant_circuit matches Some(circuit) && has_missing_symbol(circuit, variables)
        ||| exists|k: int|
            0 <= k < self.circuits.len() && has_missing_symbol(#[trigger] self.circuits[k], variables)
    }

    /// Each parameter of `self` that is a single known symbol has become its
    /// number in `after`.
    pub open spec fn has_symbols_replaced_in(
        self,
        variables: Map<Seq<char>, u64>,
        after: ClassicalRegisterView,
    ) -> bool {
        &&& match (self.constant_circuit, after.constant_circuit) {
            (Some(circuit), Some(resolved)) => has_symbols_replaced_in(circuit, variables, resolved),
            (None, None) => true,
            _ => false,
        }
        &&& after.circuits.len() == self.circuits.len()
        &&& forall|k: int|
            0 <= k < self.circuits.len() ==> has_symbols_replaced_in(
                #[trigger] self.circuits[k],
                variables,
                after.circuits[k],
            )
    }

    /// The expression is a symbolic parameter of the named circuit.
    pub open spec fn has_symbolic_parameter(self, part: RegisterPart, expression: Seq<char>) -> bool {
        match part {
            RegisterPart::Constant => self.constant_circuit matches Some(circuit)
                && is_symbolic_parameter_in(expression, circuit),
            RegisterPart::Measurement(k) => k < self.circuits.len() && is_symbolic_parameter_in(
                expression,
                self.circuits[k as int],
            ),
        }
    }
}

impl ClassicalRegister {
    /// A register of the given circuits.
    pub fn new(constant_circuit: Option<Circuit>, circuits: Vec<Circuit>) -> (r: ClassicalRegister)
        ensures
            r.constant_circuit == constant_circuit,
            r.circuits == circuits,
    {
        ClassicalRegister { constant_circuit, circuits }
    }

    /// The constant circuit, if there is one.
    pub fn constant_circuit(&self) -> (r: &Option<Circuit>)
        ensures
            *r == self.constant_circuit,
    {
        &self.constant_circuit
    }

    /// The measurement circuits, in their order.
    pub fn circuits(&self) -> (r: &Vec<Circuit>)
        ensures
            *r == self.circuits,
    {
        &self.circuits
    }

    /// Resolves the symbolic parameters of the constant circuit and of every
    /// measurement circuit with the evaluator.
    ///
    /// The constant circuit is resolved first, then the measurement circuits
    /// in their order. The first circuit that cannot be resolved fails the
    /// whole rewrite and is named in the error. A register without symbolic
    /// parameters comes back equal. The rewrite succeeds when every symbolic
    /// parameter is a single symbol whose variable is set, and fails when the
    /// variable of a single symbol is not set.
    pub fn substitute_parameters(&self, calculator: &Calculator) -> (r: Result<
        ClassicalRegister,
        RegisterError,
    >)
        ensures
            match r {
                Ok(register) => register@.is_resolution_of(self@),
                Err(error) => error.cause matches OperationError::Substitution { expression, symbol }
                    && self@.has_symbolic_parameter(error.part, expression@),
            },
            self@.is_concrete() ==> (r matches Ok(register) && register@ == self@),
            self@.has_missing_symbol(calculator_variables(*calculator)) ==> r is Err,
            self@.has_only_known_symbols(calculator_variables(*calculator)) ==> r is Ok,
            r matches Ok(register) ==> self@.has_symbols_replaced_in(
                calculator_variables(*calculator),
                register@,
            ),
    {
        let ghost variables = calculator_variables(*calculator);
        let constant_circuit: Option<Circuit> = match &self.constant_circuit {
            Some(circuit) => {
                match circuit.substitute_parameters(calculator) {
                    Ok(resolved) => Some(resolved),
                    Err(cause) => {
                        return Err(RegisterError { part: RegisterPart::Constant, cause });
                    },
                }
            },
            None => None,
        };
        let mut circuits: Vec<Circuit> = Vec::new();
        let mut k: usize = 0;
        while k < self.circuits.len()
            invariant
                k <= self.circuits.len(),
                circuits.len() == k,
                forall|j: int|
                    0 <= j < k ==> is_sequence_resolution_of(
                        (#[trigger] circuits@[j])@,
                        self@.circuits[j],
                    ),
                self@.is_concrete() ==> forall|j: int|
                    0 <= j < k ==> (#[trigger] circuits@[j])@ == self@.circuits[j],
                variables == calculator_variables(*calculator),
                forall|j: int|
                    0 <= j < k ==> !has_missing_symbol(#[trigger] self@.circuits[j], variables),
                forall|j: int|
                    0 <= j < k ==> has_symbols_replaced_in(
                        self@.circuits[j],
                        variables,
                        (#[trigger] circuits@[j])@,
                    ),
            decreases self.circuits.len() - k,
        {
            assert(self@.circuits[k as int] == self.circuits@[k as int]@);
            match self.circuits[k].substitute_parameters(calculator) {
                Ok(resolved) => {
                    circuits.push(resolved);
                },
                Err(cause) => {
                    assert(!has_only_known_symbols(self@.circuits[k as int], variables));
                    return Err(RegisterError { part: RegisterPart::Measurement(k), cause });
                },
            }
            k += 1;
        }
        let register = ClassicalRegister { constant_circuit, circuits };
        assert(register@.circuits.len() == self@.circuits.len());
        assert(self@.is_concrete() ==> register@.circuits =~= self@.circuits);
        Ok(register)
    }
}

} // verus!
