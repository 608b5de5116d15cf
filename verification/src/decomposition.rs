//! Decomposition of composite multi-qubit gates into circuits of elementary
//! one- and two-qubit gates.
//!
//! Every rule is a fixed function of the qubit roles, the flags and the
//! parameters of the operation. Parameters are placed into the emitted gates as
//! they are and never evaluated, so a rule applies to symbolic and concrete
//! gates alike.

use crate::circuit::Circuit;
use crate::error::OperationError;
use crate::operation::{plain_view, Operation, OperationKind, OperationView};
use crate::parameter::{
    negated_bits, parameter_views, pi_fraction_bits, Parameter, ParameterView, SIGN_BIT,
};
use vstd::prelude::*;

verus! {

/// The largest number of qubits of a gate whose rule uses the angles pi / 2^k.
pub const MAX_PHASE_QUBITS: usize = 1024;

/// A Hadamard gate.
pub open spec fn hadamard(qubit: usize) -> OperationView {
    plain_view(OperationKind::Hadamard, seq![qubit], seq![])
}

/// A NOT gate.
pub open spec fn pauli_x(qubit: usize) -> OperationView {
    plain_view(OperationKind::PauliX, seq![qubit], seq![])
}

/// A T gate: the phase pi / 4 on the set state.
pub open spec fn t_gate(qubit: usize) -> OperationView {
    plain_view(OperationKind::TGate, seq![qubit], seq![])
}

/// A rotation about the Z axis.
pub open spec fn rotate_z(qubit: usize, theta: ParameterView) -> OperationView {
    plain_view(OperationKind::RotateZ, seq![qubit], seq![theta])
}

/// A phase on the set state of a qubit.
pub open spec fn phase_shift(qubit: usize, theta: ParameterView) -> OperationView {
    plain_view(OperationKind::PhaseShiftState1, seq![qubit], seq![theta])
}

/// A controlled NOT.
pub open spec fn cnot(control: usize, target: usize) -> OperationView {
    plain_view(OperationKind::CNOT, seq![control, target], seq![])
}

/// A swap of two qubits.
pub open spec fn swap(control: usize, target: usize) -> OperationView {
    plain_view(OperationKind::SWAP, seq![control, target], seq![])
}

/// A phase on the state in which control and target are set.
pub open spec fn controlled_phase(control: usize, target: usize, theta: ParameterView) -> OperationView {
    plain_view(OperationKind::ControlledPhaseShift, seq![control, target], seq![theta])
}

/// The angle pi / 2^halvings.
pub open spec fn pi_fraction(halvings: nat) -> ParameterView {
    ParameterView::Number(pi_fraction_bits(halvings))
}

/// The angle -pi / 2^halvings.
pub open spec fn negative_pi_fraction(halvings: nat) -> ParameterView {
    ParameterView::Number(negated_bits(pi_fraction_bits(halvings)))
}

/// One Hadamard gate on each qubit, in role order.
pub open spec fn hadamard_layer(qubits: Seq<usize>) -> Seq<OperationView> {
    Seq::new(qubits.len(), |i: int| hadamard(qubits[i]))
}

/// The entangling ladder: a CNOT from each qubit to its successor, first pair first.
pub open spec fn ladder(qubits: Seq<usize>) -> Seq<OperationView> {
    Seq::new((qubits.len() - 1) as nat, |i: int| cnot(qubits[i], qubits[i + 1]))
}

/// The entangling ladder in reverse order, last pair first.
pub open spec fn mirrored_ladder(qubits: Seq<usize>) -> Seq<OperationView> {
    Seq::new(
        (qubits.len() - 1) as nat,
        |i: int| cnot(qubits[qubits.len() - 2 - i], qubits[qubits.len() - 1 - i]),
    )
}

/// The ZZ-like interaction: the ladder, one rotation about Z on the last
/// qubit, and the ladder mirrored.
pub open spec fn zz_circuit(qubits: Seq<usize>, theta: ParameterView) -> Seq<OperationView>
    recommends
        qubits.len() >= 1,
{
    ladder(qubits) + seq![rotate_z(qubits.last(), theta)] + mirrored_ladder(qubits)
}

/// The Molmer-Sorensen-like interaction: the ZZ-like circuit between two
/// layers of Hadamard gates on every qubit.
pub open spec fn ms_circuit(qubits: Seq<usize>, theta: ParameterView) -> Seq<OperationView>
    recommends
        qubits.len() >= 1,
{
    hadamard_layer(qubits) + zz_circuit(qubits, theta) + hadamard_layer(qubits)
}

/// The Fourier row of qubit `index`: its Hadamard gate, then a phase shift
/// controlled by each later qubit, by pi / 2^distance.
pub open spec fn fourier_row(qubits: Seq<usize>, index: int) -> Seq<OperationView> {
    seq![hadamard(qubits[index])] + Seq::new(
        (qubits.len() - 1 - index) as nat,
        |k: int| controlled_phase(qubits[index + 1 + k], qubits[index], pi_fraction((k + 1) as nat)),
    )
}

/// The Fourier rows of the first `count` qubits, one after the other.
pub open spec fn fourier_rows(qubits: Seq<usize>, count: nat) -> Seq<OperationView>
    decreases count,
{
    if count == 0 {
        Seq::empty()
    } else {
        fourier_rows(qubits, (count - 1) as nat) + fourier_row(qubits, count - 1)
    }
}

/// The qubit reversal: a swap of each qubit of the first half with its mirror.
pub open spec fn swap_layer(qubits: Seq<usize>) -> Seq<OperationView> {
    Seq::new(qubits.len() / 2, |i: int| swap(qubits[i], qubits[qubits.len() - 1 - i]))
}

/// The forward Fourier transform: all rows, then the qubit reversal if asked for.
pub open spec fn forward_fourier_circuit(qubits: Seq<usize>, swaps: bool) -> Seq<OperationView> {
    if swaps {
        fourier_rows(qubits, qubits.len()) + swap_layer(qubits)
    } else {
        fourier_rows(qubits, qubits.len())
    }
}

/// The number negated; a symbolic expression is kept.
pub open spec fn negated_number(parameter: ParameterView) -> ParameterView {
    match parameter {
        ParameterView::Number(bits) => ParameterView::Number(negated_bits(bits)),
        ParameterView::Symbolic(_) => parameter,
    }
}

impl OperationView {
    /// The operation with every concrete parameter negated.
    pub open spec fn with_negated_numbers(self) -> OperationView {
        OperationView {
            parameters: Seq::new(self.parameters.len(), |i: int| negated_number(self.parameters[i])),
            ..self
        }
    }
}

/// The sequence in reverse order, every concrete parameter negated.
pub open spec fn reversed_and_negated(ops: Seq<OperationView>) -> Seq<OperationView> {
    Seq::new(ops.len(), |i: int| ops[ops.len() - 1 - i].with_negated_numbers())
}

/// The Fourier transform. The inverse transform is the forward one with
/// the order of the gates reversed and the phase angles negated, so that a
/// qubit reversal comes first in it.
pub open spec fn fourier_circuit(qubits: Seq<usize>, swaps: bool, inverse: bool) -> Seq<
    OperationView,
> {
    if inverse {
        reversed_and_negated(forward_fourier_circuit(qubits, swaps))
    } else {
        forward_fourier_circuit(qubits, swaps)
    }
}

/// The doubly controlled NOT in one- and two-qubit gates.
pub open spec fn toffoli_circuit(first: usize, second: usize, target: usize) -> Seq<OperationView> {
    seq![
        hadamard(target),
        cnot(second, target),
        phase_shift(target, negative_pi_fraction(2)),
        cnot(first, target),
        t_gate(target),
        cnot(second, target),
        phase_shift(target, negative_pi_fraction(2)),
        cnot(first, target),
        t_gate(second),
        t_gate(target),
        hadamard(target),
        cnot(first, second),
        t_gate(first),
        phase_shift(second, negative_pi_fraction(2)),
        cnot(first, second),
    ]
}

/// The fully controlled NOT: the last qubit is flipped when all others are set.
///
/// One qubit gives a plain NOT, two a CNOT, three the doubly controlled NOT.
/// From four qubits on, the NOT is a phase flip between two Hadamard gates
/// on the target, and the phase flip is built without further qubits from
/// controlled NOTs on one qubit less.
pub open spec fn multi_cnot_circuit(qubits: Seq<usize>) -> Seq<OperationView>
    recommends
        qubits.len() >= 1,
    decreases qubits.len(), 0nat,
{
    if qubits.len() <= 1 {
        seq![pauli_x(qubits[0])]
    } else if qubits.len() == 2 {
        seq![cnot(qubits[0], qubits[1])]
    } else if qubits.len() == 3 {
        toffoli_circuit(qubits[0], qubits[1], qubits[2])
    } else {
        seq![hadamard(qubits.last())] + multi_phase_circuit(qubits.drop_last(), qubits.last(), 0)
            + seq![hadamard(qubits.last())]
    }
}

/// The phase pi / 2^halvings on the state in which all controls and the
/// target are set.
///
/// With one control this is a controlled phase shift. With more, the last
/// control shifts the target by half the angle, is flipped by the others,
/// shifts the target back by half the angle, is flipped again, and the
/// remaining controls shift the target by half the angle.
pub open spec fn multi_phase_circuit(controls: Seq<usize>, target: usize, halvings: nat) -> Seq<
    OperationView,
>
    recommends
        controls.len() >= 1,
    decreases controls.len(), 1nat,
{
    if controls.len() <= 1 {
        seq![controlled_phase(controls[0], target, pi_fraction(halvings))]
    } else {
        seq![controlled_phase(controls.last(), target, pi_fraction(halvings + 1))]
            + multi_cnot_circuit(controls) + seq![
            controlled_phase(controls.last(), target, negative_pi_fraction(halvings + 1)),
        ] + multi_cnot_circuit(controls) + multi_phase_circuit(
            controls.drop_last(),
            target,
            halvings + 1,
        )
    }
}

impl OperationView {
    /// Whether the operation is a composite gate over a number of qubits
    /// that its rule supports.
    pub open spec fn is_decomposable(self) -> bool {
        match self.kind {
            OperationKind::MultiQubitMS | OperationKind::MultiQubitZZ => self.qubits.len() >= 1
                && self.parameters.len() == 1,
            OperationKind::MultiQubitCNOT => 1 <= self.qubits.len() <= MAX_PHASE_QUBITS
                && self.parameters.len() == 0,
            OperationKind::QFT => 1 <= self.qubits.len() <= MAX_PHASE_QUBITS
                && self.parameters.len() == 0 && self.flags.len() == 2,
            _ => false,
        }
    }

    /// The circuit of elementary gates that a composite gate stands for.
    pub open spec fn decomposition(self) -> Seq<OperationView>
        recommends
            self.is_decomposable(),
    {
        match self.kind {
            OperationKind::MultiQubitMS => ms_circuit(self.qubits, self.parameters[0]),
            OperationKind::MultiQubitZZ => zz_circuit(self.qubits, self.parameters[0]),
            OperationKind::MultiQubitCNOT => multi_cnot_circuit(self.qubits),
            _ => fourier_circuit(self.qubits, self.flags[0], self.flags[1]),
        }
    }
}

/// Appends a Hadamard gate on each qubit.
fn push_hadamard_layer(circuit: &mut Circuit, qubits: &Vec<usize>)
    ensures
        final(circuit)@ == old(circuit)@ + hadamard_layer(qubits@),
{
    let mut i: usize = 0;
    while i < qubits.len()
        invariant
            i <= qubits.len(),
            circuit@ == old(circuit)@ + hadamard_layer(qubits@).take(i as int),
        decreases qubits.len() - i,
    {
        circuit.push(Operation::Hadamard { qubit: qubits[i] });
        assert(circuit@ =~= old(circuit)@ + hadamard_layer(qubits@).take(i + 1));
        i += 1;
    }
    assert(hadamard_layer(qubits@).take(qubits@.len() as int) =~= hadamard_layer(qubits@));
}

/// Appends the ZZ-like circuit.
fn push_zz(circuit: &mut Circuit, qubits: &Vec<usize>, theta: &Parameter)
    requires
        qubits@.len() >= 1,
    ensures
        final(circuit)@ == old(circuit)@ + zz_circuit(qubits@, theta@),
{
    let pairs: usize = qubits.len() - 1;
    let mut i: usize = 0;
    while i < pairs
        invariant
            i <= pairs,
            pairs == qubits@.len() - 1,
            circuit@ == old(circuit)@ + ladder(qubits@).take(i as int),
        decreases pairs - i,
    {
        circuit.push(Operation::CNOT { control: qubits[i], target: qubits[i + 1] });
        assert(circuit@ =~= old(circuit)@ + ladder(qubits@).take(i + 1));
        i += 1;
    }
    assert(ladder(qubits@).take(pairs as int) =~= ladder(qubits@));
    circuit.push(Operation::RotateZ { qubit: qubits[pairs], theta: theta.duplicate() });
    let ghost middle = old(circuit)@ + ladder(qubits@) + seq![rotate_z(qubits@.last(), theta@)];
    assert(circuit@ =~= middle);
    let mut j: usize = 0;
    while j < pairs
        invariant
            j <= pairs,
            pairs == qubits@.len() - 1,
            circuit@ == middle + mirrored_ladder(qubits@).take(j as int),
        decreases pairs - j,
    {
        circuit.push(
            Operation::CNOT { control: qubits[pairs - 1 - j], target: qubits[pairs - j] },
        );
        assert(circuit@ =~= middle + mirrored_ladder(qubits@).take(j + 1));
        j += 1;
    }
    assert(mirrored_ladder(qubits@).take(pairs as int) =~= mirrored_ladder(qubits@));
    assert(circuit@ =~= old(circuit)@ + zz_circuit(qubits@, theta@));
}

/// Appends the Fourier rows of all qubits.
fn push_fourier_rows(circuit: &mut Circuit, qubits: &Vec<usize>)
    requires
        qubits@.len() <= MAX_PHASE_QUBITS,
    ensures
        final(circuit)@ == old(circuit)@ + fourier_rows(qubits@, qubits@.len()),
{
    let n: usize = qubits.len();
    let mut i: usize = 0;
    assert(fourier_rows(qubits@, 0) =~= Seq::empty());
    assert(circuit@ =~= old(circuit)@ + fourier_rows(qubits@, 0));
    while i < n
        invariant
            i <= n,
            n == qubits@.len(),
            n <= MAX_PHASE_QUBITS,
            circuit@ == old(circuit)@ + fourier_rows(qubits@, i as nat),
        decreases n - i,
    {
        let ghost done = circuit@;
        let ghost row = fourier_row(qubits@, i as int);
        circuit.push(Operation::Hadamard { qubit: qubits[i] });
        assert(circuit@ =~= done + row.take(1));
        let count: usize = n - 1 - i;
        let mut k: usize = 0;
        while k < count
            invariant
                k <= count,
                count == n - 1 - i,
                n == qubits@.len(),
                n <= MAX_PHASE_QUBITS,
                row == fourier_row(qubits@, i as int),
                circuit@ == done + row.take(1 + k),
            decreases count - k,
        {
            circuit.push(
                Operation::ControlledPhaseShift {
                    control: qubits[i + 1 + k],
                    target: qubits[i],
                    theta: Parameter::pi_fraction(k + 1),
                },
            );
            assert(circuit@ =~= done + row.take(2 + k));
            k += 1;
        }
        assert(row.take(1 + count) =~= row);
        assert(fourier_rows(qubits@, (i + 1) as nat) == fourier_rows(qubits@, i as nat) + row);
        assert(circuit@ =~= old(circuit)@ + fourier_rows(qubits@, (i + 1) as nat));
        i += 1;
    }
}

/// Appends the qubit reversal.
fn push_swap_layer(circuit: &mut Circuit, qubits: &Vec<usize>)
    ensures
        final(circuit)@ == old(circuit)@ + swap_layer(qubits@),
{
    let n: usize = qubits.len();
    let half: usize = n / 2;
    let mut i: usize = 0;
    while i < half
        invariant
            i <= half,
            half == n / 2,
            n == qubits@.len(),
            circuit@ == old(circuit)@ + swap_layer(qubits@).take(i as int),
        decreases half - i,
    {
        circuit.push(Operation::SWAP { control: qubits[i], target: qubits[n - 1 - i] });
        assert(circuit@ =~= old(circuit)@ + swap_layer(qubits@).take(i + 1));
        i += 1;
    }
    assert(swap_layer(qubits@).take(half as int) =~= swap_layer(qubits@));
}

/// The operation with every concrete parameter negated.
fn negate_numbers(op: &Operation) -> (r: Operation)
    ensures
        r@ == op@.with_negated_numbers(),
{
    let parameters = op.parameters();
    let mut negated: Vec<Parameter> = Vec::new();
    let mut i: usize = 0;
    while i < parameters.len()
        invariant
            i <= parameters.len(),
            negated.len() == i,
            parameter_views(parameters@) == op@.parameters,
            forall|j: int|
                0 <= j < i ==> (#[trigger] negated@[j])@ == negated_number(op@.parameters[j]),
        decreases parameters.len() - i,
    {
        assert(op@.parameters[i as int] == parameters@[i as int]@);
        match &parameters[i] {
            Parameter::Number(bits) => {
                negated.push(Parameter::Number(*bits ^ SIGN_BIT));
            },
            Parameter::Symbolic(expression) => {
                negated.push(Parameter::Symbolic(expression.clone()));
            },
        }
        i += 1;
    }
    let r = op.with_parameters(&negated);
    assert(r@.parameters =~= op@.with_negated_numbers().parameters);
    r
}

/// The circuit in reverse order, every concrete parameter negated.
fn reverse_and_negate(forward: &Circuit) -> (r: Circuit)
    ensures
        r@ == reversed_and_negated(forward@),
{
    let n: usize = forward.len();
    let mut circuit = Circuit::new();
    let mut i: usize = 0;
    while i < n
        invariant
            i <= n,
            n == forward@.len(),
            circuit@ == reversed_and_negated(forward@).take(i as int),
        decreases n - i,
    {
        circuit.push(negate_numbers(&forward.operations[n - 1 - i]));
        assert(circuit@ =~= reversed_and_negated(forward@).take(i + 1));
        i += 1;
    }
    assert(reversed_and_negated(forward@).take(n as int) =~= reversed_and_negated(forward@));
    circuit
}

/// Appends the doubly controlled NOT.
fn push_toffoli(circuit: &mut Circuit, first: usize, second: usize, target: usize)
    ensures
        final(circuit)@ == old(circuit)@ + toffoli_circuit(first, second, target),
{
    circuit.push(Operation::Hadamard { qubit: target });
    circuit.push(Operation::CNOT { control: second, target });
    circuit.push(
        Operation::PhaseShiftState1 { qubit: target, theta: Parameter::negative_pi_fraction(2) },
    );
    circuit.push(Operation::CNOT { control: first, target });
    circuit.push(Operation::TGate { qubit: target });
    circuit.push(Operation::CNOT { control: second, target });
    circuit.push(
        Operation::PhaseShiftState1 { qubit: target, theta: Parameter::negative_pi_fraction(2) },
    );
    circuit.push(Operation::CNOT { control: first, target });
    circuit.push(Operation::TGate { qubit: second });
    circuit.push(Operation::TGate { qubit: target });
    circuit.push(Operation::Hadamard { qubit: target });
    circuit.push(Operation::CNOT { control: first, target: second });
    circuit.push(Operation::TGate { qubit: first });
    circuit.push(
        Operation::PhaseShiftState1 { qubit: second, theta: Parameter::negative_pi_fraction(2) },
    );
    circuit.push(Operation::CNOT { control: first, target: second });
    assert(circuit@ =~= old(circuit)@ + toffoli_circuit(first, second, target));
}

/// Appends the fully controlled NOT over the first `count` qubits.
fn push_multi_cnot(circuit: &mut Circuit, qubits: &Vec<usize>, count: usize)
    requires
        1 <= count <= qubits@.len(),
        count <= MAX_PHASE_QUBITS,
    ensures
        final(circuit)@ == old(circuit)@ + multi_cnot_circuit(qubits@.take(count as int)),
    decreases count, 0nat,
{
    let ghost prefix = qubits@.take(count as int);
    if count == 1 {
        circuit.push(Operation::PauliX { qubit: qubits[0] });
        assert(circuit@ =~= old(circuit)@ + multi_cnot_circuit(prefix));
    } else if count == 2 {
        circuit.push(Operation::CNOT { control: qubits[0], target: qubits[1] });
        assert(circuit@ =~= old(circuit)@ + multi_cnot_circuit(prefix));
    } else if count == 3 {
        push_toffoli(circuit, qubits[0], qubits[1], qubits[2]);
    } else {
        let target: usize = qubits[count - 1];
        assert(prefix.drop_last() =~= qubits@.take(count - 1));
        circuit.push(Operation::Hadamard { qubit: target });
        push_multi_phase(circuit, qubits, count - 1, target, 0);
        circuit.push(Operation::Hadamard { qubit: target });
        assert(circuit@ =~= old(circuit)@ + multi_cnot_circuit(prefix));
    }
}

/// Appends the phase pi / 2^halvings controlled by the first `count` qubits.
fn push_multi_phase(
    circuit: &mut Circuit,
    qubits: &Vec<usize>,
    count: usize,
    target: usize,
    halvings: usize,
)
    requires
        1 <= count <= qubits@.len(),
        halvings + count <= MAX_PHASE_QUBITS,
    ensures
        final(circuit)@ == old(circuit)@ + multi_phase_circuit(
            qubits@.take(count as int),
            target,
            halvings as nat,
        ),
    decreases count, 1nat,
{
    let ghost controls = qubits@.take(count as int);
    if count == 1 {
        circuit.push(
            Operation::ControlledPhaseShift {
                control: qubits[0],
                target,
                theta: Parameter::pi_fraction(halvings),
            },
        );
        assert(circuit@ =~= old(circuit)@ + multi_phase_circuit(controls, target, halvings as nat));
    } else {
        let control: usize = qubits[count - 1];
        assert(controls.drop_last() =~= qubits@.take(count - 1));
        circuit.push(
            Operation::ControlledPhaseShift {
                control,
                target,
                theta: Parameter::pi_fraction(halvings + 1),
            },
        );
        push_multi_cnot(circuit, qubits, count);
        circuit.push(
            Operation::ControlledPhaseShift {
                control,
                target,
                theta: Parameter::negative_pi_fraction(halvings + 1),
            },
        );
        push_multi_cnot(circuit, qubits, count);
        push_multi_phase(circuit, qubits, count - 1, target, halvings + 1);
        assert(circuit@ =~= old(circuit)@ + multi_phase_circuit(controls, target, halvings as nat));
    }
}

/// The circuit of the ZZ-like interaction.
///
/// Fails exactly when there is no qubit.
pub fn decompose_zz(qubits: &Vec<usize>, theta: &Parameter) -> (r: Result<Circuit, OperationError>)
    ensures
        match r {
            Ok(circuit) => qubits@.len() >= 1 && circuit@ == zz_circuit(qubits@, theta@),
            Err(OperationError::Decomposition { qubit_count }) => qubits@.len() == 0
                && qubit_count == 0,
            Err(_) => false,
        },
{
    if qubits.len() == 0 {
        return Err(OperationError::Decomposition { qubit_count: 0 });
    }
    let mut circuit = Circuit::new();
    push_zz(&mut circuit, qubits, theta);
    assert(circuit@ =~= zz_circuit(qubits@, theta@));
    Ok(circuit)
}

/// The circuit of the Molmer-Sorensen-like interaction.
///
/// Fails exactly when there is no qubit.
pub fn decompose_ms(qubits: &Vec<usize>, theta: &Parameter) -> (r: Result<Circuit, OperationError>)
    ensures
        match r {
            Ok(circuit) => qubits@.len() >= 1 && circuit@ == ms_circuit(qubits@, theta@),
            Err(OperationError::Decomposition { qubit_count }) => qubits@.len() == 0
                && qubit_count == 0,
            Err(_) => false,
        },
{
    if qubits.len() == 0 {
        return Err(OperationError::Decomposition { qubit_count: 0 });
    }
    let mut circuit = Circuit::new();
    push_hadamard_layer(&mut circuit, qubits);
    push_zz(&mut circuit, qubits, theta);
    push_hadamard_layer(&mut circuit, qubits);
    assert(circuit@ =~= ms_circuit(qubits@, theta@));
    Ok(circuit)
}

/// The circuit of the fully controlled NOT, whose target is the last qubit.
///
/// Fails exactly when there is no qubit or more than
/// [`MAX_PHASE_QUBITS`].
pub fn decompose_multi_cnot(qubits: &Vec<usize>) -> (r: Result<Circuit, OperationError>)
    ensures
        match r {
            Ok(circuit) => 1 <= qubits@.len() <= MAX_PHASE_QUBITS && circuit@ == multi_cnot_circuit(
                qubits@,
            ),
            Err(OperationError::Decomposition { qubit_count }) => !(1 <= qubits@.len()
                <= MAX_PHASE_QUBITS) && qubit_count == qubits@.len(),
            Err(_) => false,
        },
{
    let n: usize = qubits.len();
    if n == 0 || n > MAX_PHASE_QUBITS {
        return Err(OperationError::Decomposition { qubit_count: n });
    }
    let mut circuit = Circuit::new();
    push_multi_cnot(&mut circuit, qubits, n);
    assert(qubits@.take(n as int) =~= qubits@);
    assert(circuit@ =~= multi_cnot_circuit(qubits@));
    Ok(circuit)
}

/// The circuit of the Fourier transform.
///
/// Fails exactly when there is no qubit or more than
/// [`MAX_PHASE_QUBITS`].
pub fn decompose_qft(qubits: &Vec<usize>, swaps: bool, inverse: bool) -> (r: Result<
    Circuit,
    OperationError,
>)
    ensures
        match r {
            Ok(circuit) => 1 <= qubits@.len() <= MAX_PHASE_QUBITS && circuit@ == fourier_circuit(
                qubits@,
                swaps,
                inverse,
            ),
            Err(OperationError::Decomposition { qubit_count }) => !(1 <= qubits@.len()
                <= MAX_PHASE_QUBITS) && qubit_count == qubits@.len(),
            Err(_) => false,
        },
{
    let n: usize = qubits.len();
    if n == 0 || n > MAX_PHASE_QUBITS {
        return Err(OperationError::Decomposition { qubit_count: n });
    }
    let mut forward = Circuit::new();
    push_fourier_rows(&mut forward, qubits);
    if swaps {
        push_swap_layer(&mut forward, qubits);
    }
    assert(forward@ =~= forward_fourier_circuit(qubits@, swaps));
    if inverse {
        Ok(reverse_and_negate(&forward))
    } else {
        Ok(forward)
    }
}

impl Operation {
    /// The circuit of elementary gates that the operation stands for.
    ///
    /// Succeeds exactly for a composite gate over a number of qubits that its
    /// rule supports. The same operation always gives the same circuit. The
    /// circuit acts on the qubits of the operation only, has a symbolic
    /// parameter exactly when the operation has one, and names no qubit
    /// twice in an elementary gate if the operation names none twice.
    pub fn circuit(&self) -> (r: Result<Circuit, OperationError>)
        ensures
            match r {
                Ok(circuit) => self@.is_decomposable() && circuit@ == self@.decomposition()
                    && crate::laws::uses_only(circuit@, self@.qubits) && (crate::circuit::all_concrete(
                    circuit@,
                ) <==> !self@.is_parametrized()) && (self@.qubits.no_duplicates()
                    ==> crate::laws::all_distinct(circuit@)),
                Err(OperationError::Decomposition { qubit_count }) => !self@.is_decomposable()
                    && qubit_count == self@.qubits.len(),
                Err(_) => false,
            },
    {
        proof {
            if self@.is_decomposable() {
                crate::laws::lemma_decomposition_uses_only_its_qubits(self@);
                crate::laws::lemma_decomposition_keeps_concreteness(self@);
                if self@.qubits.no_duplicates() {
                    crate::laws::lemma_decomposition_keeps_distinct(self@);
                }
            }
        }
        match self {
            Operation::MultiQubitMS { qubits, theta } => decompose_ms(qubits, theta),
            Operation::MultiQubitZZ { qubits, theta } => decompose_zz(qubits, theta),
            Operation::MultiQubitCNOT { qubits } => decompose_multi_cnot(qubits),
            Operation::QFT { qubits, swaps, inverse } => decompose_qft(qubits, *swaps, *inverse),
            _ => {
                let qubits = self.qubits();
                Err(OperationError::Decomposition { qubit_count: qubits.len() })
            },
        }
    }
}

} // verus!
