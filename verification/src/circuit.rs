//! Circuits: ordered sequences of operations.

use crate::error::OperationError;
use crate::operation::{
    insert_qubits, first_missing_at, Involvement, InvolvedQubits, InvolvedQubitsView, Operation,
    OperationView,
};
use crate::substitution::{calculator_variables, is_resolution_of, is_symbolic_parameter_of};
use qoqo_calculator::Calculator;
use std::collections::{HashMap, HashSet};
use vstd::prelude::*;

verus! {

/// An ordered sequence of operations; the order is the order of execution.
#[derive(Clone, Debug, PartialEq, Eq)]
pub struct Circuit {
    pub operations: Vec<Operation>,
}

impl View for Circuit {
    type V = Seq<OperationView>;

    open spec fn view(&self) -> Seq<OperationView> {
        self.operations@.map_values(|op: Operation| op@)
    }
}

/// Some operation of the sequence involves all qubits.
pub open spec fn has_global(ops: Seq<OperationView>) -> bool {
    exists|k: int| 0 <= k < ops.len() && (#[trigger] ops[k]).kind.involvement() == Involvement::All
}

/// The qubits of the role fields of all operations that act on listed qubits.
pub open spec fn listed_qubits(ops: Seq<OperationView>) -> Set<usize>
    decreases ops.len(),
{
    if ops.len() == 0 {
        Set::empty()
    } else if ops.last().kind.involvement() == Involvement::Listed {
        listed_qubits(ops.drop_last()).union(ops.last().qubits.to_set())
    } else {
        listed_qubits(ops.drop_last())
    }
}

/// The qubits a sequence of operations touches: all as soon as one operation
/// involves all, else the union of the listed qubits, or none if that is empty.
pub open spec fn sequence_involved_qubits(ops: Seq<OperationView>) -> InvolvedQubitsView {
    if has_global(ops) {
        InvolvedQubitsView::All
    } else if listed_qubits(ops).is_empty() {
        InvolvedQubitsView::Nothing
    } else {
        InvolvedQubitsView::Qubits(listed_qubits(ops))
    }
}

/// The mapping has an entry for every qubit of every operation.
pub open spec fn all_covered(ops: Seq<OperationView>, mapping: Map<usize, usize>) -> bool {
    forall|k: int| 0 <= k < ops.len() ==> (#[trigger] ops[k]).is_covered_by(mapping)
}

/// Every operation sent through the mapping, in the same order.
pub open spec fn remapped_sequence(ops: Seq<OperationView>, mapping: Map<usize, usize>) -> Seq<
    OperationView,
> {
    Seq::new(ops.len(), |k: int| ops[k].remapped(mapping))
}

/// Position `index` holds the first operation with a qubit that the mapping lacks.
pub open spec fn first_uncovered_at(
    ops: Seq<OperationView>,
    mapping: Map<usize, usize>,
    index: int,
) -> bool {
    &&& 0 <= index < ops.len()
    &&& !ops[index].is_covered_by(mapping)
    &&& all_covered(ops.take(index), mapping)
}

/// No operation of the sequence has a symbolic parameter.
pub open spec fn all_concrete(ops: Seq<OperationView>) -> bool {
    forall|k: int| 0 <= k < ops.len() ==> !(#[trigger] ops[k]).is_parametrized()
}

/// `after` is `before` with every operation resolved, in the same order.
pub open spec fn is_sequence_resolution_of(
    after: Seq<OperationView>,
    before: Seq<OperationView>,
) -> bool {
    &&& after.len() == before.len()
    &&& forall|k: int| 0 <= k < after.len() ==> is_resolution_of(#[trigger] after[k], before[k])
}

/// The expression is a symbolic parameter of some operation of the sequence.
pub open spec fn is_symbolic_parameter_in(expression: Seq<char>, ops: Seq<OperationView>) -> bool {
    exists|k: int| 0 <= k < ops.len() && is_symbolic_parameter_of(expression, #[trigger] ops[k])
}

/// Every symbolic parameter of every operation is a single symbol among the
/// variables.
pub open spec fn has_only_known_symbols(
    ops: Seq<OperationView>,
    variables: Map<Seq<char>, u64>,
) -> bool {
    forall|k: int| 0 <= k < ops.len() ==> (#[trigger] ops[k]).has_only_known_symbols(variables)
}

/// Some parameter of some operation is a single symbol that is not among the
/// variables.
pub open spec fn has_missing_symbol(ops: Seq<OperationView>, variables: Map<Seq<char>, u64>) -> bool {
    exists|k: int| 0 <= k < ops.len() && (#[trigger] ops[k]).has_missing_symbol(variables)
}

/// Each parameter of `before` that is a single known symbol has become its
/// number in `after`.
pub open spec fn has_symbols_replaced_in(
    before: Seq<OperationView>,
    variables: Map<Seq<char>, u64>,
    after: Seq<OperationView>,
) -> bool {
    &&& after.len() == before.len()
    &&& forall|k: int|
        0 <= k < before.len() ==> (#[trigger] before[k]).has_symbols_replaced_in(
            variables,
            after[k],
        )
}

impl Circuit {
    /// The empty circuit.
    pub fn new() -> (r: Circuit)
        ensures
            r@ == Seq::<OperationView>::empty(),
    {
        let r = Circuit { operations: Vec::new() };
        assert(r@ =~= Seq::<OperationView>::empty());
        r
    }

    /// The number of operations.
    pub fn len(&self) -> (r: usize)
        ensures
            r == self@.len(),
    {
        self.operations.len()
    }

    /// Whether the circuit holds no operation.
    pub fn is_empty(&self) -> (r: bool)
        ensures
            r == (self@.len() == 0),
    {
        self.operations.len() == 0
    }

    /// The operations, in insertion order.
    pub fn operations(&self) -> (r: &Vec<Operation>)
        ensures
            *r == self.operations,
    {
        &self.operations
    }

    /// The operation at a position, in insertion order.
    pub fn get(&self, index: usize) -> (r: Option<&Operation>)
        ensures
            match r {
                Some(op) => index < self@.len() && op@ == self@[index as int],
                None => index >= self@.len(),
            },
    {
        if index < self.operations.len() {
            Some(&self.operations[index])
        } else {
            None
        }
    }

    /// Appends one operation at the end.
    pub fn push(&mut self, op: Operation)
        ensures
            final(self)@ == old(self)@.push(op@),
    {
        self.operations.push(op);
        assert(self@ =~= old(self)@.push(op@));
    }

    /// Appends copies of all operations of another circuit, in their order.
    pub fn append(&mut self, other: &Circuit)
        ensures
            final(self)@ == old(self)@ + other@,
    {
        let mut k: usize = 0;
        while k < other.operations.len()
            invariant
                k <= other.operations.len(),
                self@ == old(self)@ + other@.take(k as int),
            decreases other.operations.len() - k,
        {
            self.push(other.operations[k].duplicate());
            assert(self@ =~= old(self)@ + other@.take(k + 1));
            k += 1;
        }
        assert(other@.take(other@.len() as int) =~= other@);
    }

    /// A deep copy of the circuit.
    pub fn duplicate(&self) -> (r: Circuit)
        ensures
            r@ == self@,
    {
        let mut copy = Circuit::new();
        copy.append(self);
        assert(copy@ =~= self@);
        copy
    }

    /// Whether any operation still has a symbolic parameter.
    pub fn is_parametrized(&self) -> (r: bool)
        ensures
            r == !all_concrete(self@),
    {
        let mut k: usize = 0;
        while k < self.operations.len()
            invariant
                k <= self.operations.len(),
                forall|j: int| 0 <= j < k ==> !(#[trigger] self@[j]).is_parametrized(),
            decreases self.operations.len() - k,
        {
            if self.operations[k].is_parametrized() {
                assert(self@[k as int].is_parametrized());
                return true;
            }
            k += 1;
        }
        false
    }

    /// The qubits the circuit touches, folded over its operations.
    pub fn involved_qubits(&self) -> (r: InvolvedQubits)
        ensures
            r@ == sequence_involved_qubits(self@),
    {
        let mut set: HashSet<usize> = HashSet::new();
        let mut k: usize = 0;
        while k < self.operations.len()
            invariant
                k <= self.operations.len(),
                !has_global(self@.take(k as int)),
                set@ == listed_qubits(self@.take(k as int)),
            decreases self.operations.len() - k,
        {
            let ghost next = self@.take(k + 1);
            assert(next.drop_last() =~= self@.take(k as int));
            assert(next.last() == self@[k as int]);
            match self.operations[k].involved_qubits() {
                InvolvedQubits::All => {
                    assert(has_global(self@));
                    return InvolvedQubits::All;
                },
                InvolvedQubits::Nothing => {},
                InvolvedQubits::Qubits(_) => {
                    let qubits = self.operations[k].qubits();
                    insert_qubits(&mut set, &qubits);
                },
            }
            assert(!has_global(next)) by {
                if has_global(next) {
                    let j = choose|j: int|
                        0 <= j < next.len() && (#[trigger] next[j]).kind.involvement()
                            == Involvement::All;
                    if j < k {
                        assert(self@.take(k as int)[j] == next[j]);
                    }
                }
            }
            k += 1;
        }
        assert(self@.take(self@.len() as int) =~= self@);
        if set.is_empty() {
            InvolvedQubits::Nothing
        } else {
            InvolvedQubits::Qubits(set)
        }
    }

    /// Sends the qubits of every operation through the mapping.
    ///
    /// Succeeds exactly when the mapping covers every operation; the order of
    /// the operations is kept. Otherwise the failure of the first operation
    /// that is not covered is reported, and no circuit is returned.
    pub fn remap_qubits(&self, mapping: &HashMap<usize, usize>) -> (r: Result<
        Circuit,
        OperationError,
    >)
        ensures
            match r {
                Ok(circuit) => all_covered(self@, mapping@) && circuit@ == remapped_sequence(
                    self@,
                    mapping@,
                ) && sequence_involved_qubits(circuit@) == sequence_involved_qubits(self@).image(
                    mapping@,
                ),
                Err(OperationError::Remapping { qubit }) => exists|k: int, i: int|
                    first_uncovered_at(self@, mapping@, k) && first_missing_at(
                        mapping@,
                        self@[k].qubits,
                        i,
                    ) && qubit == self@[k].qubits[i],
                Err(_) => false,
            },
    {
        let mut remapped = Circuit::new();
        let mut k: usize = 0;
        while k < self.operations.len()
            invariant
                k <= self.operations.len(),
                all_covered(self@.take(k as int), mapping@),
                remapped@ == remapped_sequence(self@.take(k as int), mapping@),
            decreases self.operations.len() - k,
        {
            match self.operations[k].remap_qubits(mapping) {
                Ok(op) => {
                    remapped.push(op);
                    assert(remapped@ =~= remapped_sequence(self@.take(k + 1), mapping@));
                    assert forall|j: int| 0 <= j < k + 1 implies (#[trigger] self@.take(
                        k + 1,
                    )[j]).is_covered_by(mapping@) by {
                        if j < k {
                            assert(self@.take(k as int)[j] == self@[j]);
                        }
                    }
                },
                Err(error) => {
                    assert(first_uncovered_at(self@, mapping@, k as int)) by {
                        let i = choose|i: int| first_missing_at(mapping@, self@[k as int].qubits, i);
                        assert(!mapping@.contains_key(self@[k as int].qubits[i]));
                    }
                    return Err(error);
                },
            }
            k += 1;
        }
        assert(self@.take(self@.len() as int) =~= self@);
        proof {
            crate::laws::lemma_remapped_sequence_involves_image(self@, mapping@);
        }
        Ok(remapped)
    }

    /// Resolves the symbolic parameters of every operation with the evaluator.
    ///
    /// A circuit without symbolic parameters comes back equal. A result has
    /// the same operations in the same order, each with its symbolic
    /// parameters replaced by numbers. The first operation that cannot be
    /// resolved ends the rewrite, and no circuit is returned. The rewrite
    /// succeeds when every symbolic parameter is a single symbol whose
    /// variable is set, and fails when the variable of a single symbol is not
    /// set.
    pub fn substitute_parameters(&self, calculator: &Calculator) -> (r: Result<
        Circuit,
        OperationError,
    >)
        ensures
            match r {
                Ok(circuit) => is_sequence_resolution_of(circuit@, self@),
                Err(OperationError::Substitution { expression, symbol }) => is_symbolic_parameter_in(
                    expression@,
                    self@,
                ),
                Err(_) => false,
            },
            all_concrete(self@) ==> (r matches Ok(circuit) && circuit@ == self@),
            has_missing_symbol(self@, calculator_variables(*calculator)) ==> r is Err,
            has_only_known_symbols(self@, calculator_variables(*calculator)) ==> r is Ok,
            r matches Ok(circuit) ==> has_symbols_replaced_in(
                self@,
                calculator_variables(*calculator),
                circuit@,
            ),
    {
        let ghost variables = calculator_variables(*calculator);
        let mut resolved = Circuit::new();
        let mut k: usize = 0;
        while k < self.operations.len()
            invariant
                k <= self.operations.len(),
                is_sequence_resolution_of(resolved@, self@.take(k as int)),
                all_concrete(self@) ==> resolved@ == self@.take(k as int),
                variables == calculator_variables(*calculator),
                !has_missing_symbol(self@.take(k as int), variables),
                has_symbols_replaced_in(self@.take(k as int), variables, resolved@),
            decreases self.operations.len() - k,
        {
            match self.operations[k].substitute_parameters(calculator) {
                Ok(op) => {
                    let ghost before = resolved@;
                    resolved.push(op);
                    assert(!has_missing_symbol(self@.take(k + 1), variables)) by {
                        if has_missing_symbol(self@.take(k + 1), variables) {
                            let j = choose|j: int|
                                0 <= j < k + 1 && (#[trigger] self@.take(
                                    k + 1,
                                )[j]).has_missing_symbol(variables);
                            if j < k {
                                assert(self@.take(k as int)[j] == self@.take(k + 1)[j]);
                            }
                        }
                    }
                    assert forall|j: int| 0 <= j < k + 1 implies (#[trigger] self@.take(
                        k + 1,
                    )[j]).has_symbols_replaced_in(variables, resolved@[j]) by {
                        if j < k {
                            assert(self@.take(k as int)[j] == self@.take(k + 1)[j]);
                            assert(resolved@[j] == before[j]);
                        }
                    }
                    assert forall|j: int| 0 <= j < k + 1 implies is_resolution_of(
                        #[trigger] resolved@[j],
                        self@.take(k + 1)[j],
                    ) by {
                        if j < k {
                            assert(resolved@[j] == before[j]);
                            assert(is_resolution_of(before[j], self@.take(k as int)[j]));
                        }
                    }
                    assert(all_concrete(self@) ==> resolved@ == self@.take(k + 1)) by {
                        if all_concrete(self@) {
                            assert(!self@[k as int].is_parametrized());
                            assert(resolved@ =~= self@.take(k + 1));
                        }
                    }
                },
                Err(error) => {
                    assert(!all_concrete(self@)) by {
                        if all_concrete(self@) {
                            assert(!self@[k as int].is_parametrized());
                        }
                    }
                    match &error {
                        OperationError::Substitution { expression, .. } => {
                            assert(is_symbolic_parameter_of(expression@, self@[k as int]));
                        },
                        _ => {},
                    }
                    assert(!has_only_known_symbols(self@, variables)) by {
                        if has_only_known_symbols(self@, variables) {
                            assert(self@[k as int].has_only_known_symbols(variables));
                        }
                    }
                    return Err(error);
                },
            }
            k += 1;
        }
        assert(self@.take(self@.len() as int) =~= self@);
        Ok(resolved)
    }
}

} // verus!
