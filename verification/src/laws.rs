//! Properties of remapping and of the decomposition rules that hold for
//! every operation.

use crate::circuit::{
    all_concrete, has_global, listed_qubits, remapped_sequence, sequence_involved_qubits,
};
use crate::decomposition::{
    cnot, controlled_phase, forward_fourier_circuit, fourier_circuit, fourier_row, fourier_rows,
    hadamard, hadamard_layer, ladder, mirrored_ladder, ms_circuit, multi_cnot_circuit,
    multi_phase_circuit, negated_number, negative_pi_fraction, pauli_x, phase_shift, pi_fraction,
    reversed_and_negated, rotate_z, swap, swap_layer, t_gate, toffoli_circuit, zz_circuit,
};
use crate::operation::{
    lemma_remapped_involves_image, mapped_qubits, Involvement, OperationKind, OperationView,
};
use crate::parameter::{lemma_negation_is_involution, ParameterView};
use crate::substitution::{lemma_concrete_is_fixed, resolved_parameter};
use vstd::prelude::*;

verus! {

/// Every qubit role of every operation of the sequence is one of the given qubits.
pub open spec fn uses_only(ops: Seq<OperationView>, qubits: Seq<usize>) -> bool {
    forall|k: int, j: int|
        0 <= k < ops.len() && 0 <= j < ops[k].qubits.len() ==> qubits.contains(
            #[trigger] ops[k].qubits[j],
        )
}

/// Two sequences that use only the given qubits do so when joined.
pub proof fn lemma_uses_only_joined(
    first: Seq<OperationView>,
    second: Seq<OperationView>,
    qubits: Seq<usize>,
)
    requires
        uses_only(first, qubits),
        uses_only(second, qubits),
    ensures
        uses_only(first + second, qubits),
{
    let joined = first + second;
    assert forall|k: int, j: int|
        0 <= k < joined.len() && 0 <= j < joined[k].qubits.len() implies qubits.contains(
        #[trigger] joined[k].qubits[j],
    ) by {
        if k < first.len() {
            assert(joined[k] == first[k]);
            assert(qubits.contains(first[k].qubits[j]));
        } else {
            assert(joined[k] == second[k - first.len()]);
            assert(qubits.contains(second[k - first.len()].qubits[j]));
        }
    }
}

/// A sequence that uses only the first qubits of a list uses only qubits of the list.
pub proof fn lemma_uses_only_prefix(ops: Seq<OperationView>, qubits: Seq<usize>, count: int)
    requires
        0 <= count <= qubits.len(),
        uses_only(ops, qubits.take(count)),
    ensures
        uses_only(ops, qubits),
{
    assert forall|k: int, j: int|
        0 <= k < ops.len() && 0 <= j < ops[k].qubits.len() implies qubits.contains(
        #[trigger] ops[k].qubits[j],
    ) by {
        let q = ops[k].qubits[j];
        assert(qubits.take(count).contains(q));
        let i = choose|i: int| 0 <= i < count && qubits.take(count)[i] == q;
        assert(qubits[i] == q);
    }
}

/// The mirrored ladder is the ladder read backwards.
pub proof fn lemma_mirrored_ladder_is_reversed_ladder(qubits: Seq<usize>)
    requires
        qubits.len() >= 1,
    ensures
        mirrored_ladder(qubits) == ladder(qubits).reverse(),
{
    let forward = ladder(qubits);
    let mirrored = mirrored_ladder(qubits);
    assert(forward.len() == qubits.len() - 1);
    assert(mirrored.len() == forward.len());
    if forward.len() > 0 {
        assert forall|i: int| 0 <= i < mirrored.len() implies mirrored[i] == forward[forward.len()
            - 1 - i] by {}
    }
    assert(mirrored =~= forward.reverse());
}

/// The ZZ-like circuit acts on the qubits of its gate only.
pub proof fn lemma_zz_uses_only_its_qubits(qubits: Seq<usize>, theta: ParameterView)
    requires
        qubits.len() >= 1,
    ensures
        uses_only(zz_circuit(qubits, theta), qubits),
{
    let ops = zz_circuit(qubits, theta);
    let n = qubits.len() as int;
    assert forall|k: int, j: int|
        0 <= k < ops.len() && 0 <= j < ops[k].qubits.len() implies qubits.contains(
        #[trigger] ops[k].qubits[j],
    ) by {
        if k < n - 1 {
            assert(ops[k] == ladder(qubits)[k]);
            assert(qubits.contains(qubits[k]) && qubits.contains(qubits[k + 1]));
        } else if k == n - 1 {
            assert(qubits[n - 1] == qubits.last());
        } else {
            assert(ops[k] == mirrored_ladder(qubits)[k - n]);
            let i = k - n;
            assert(qubits.contains(qubits[n - 2 - i]) && qubits.contains(qubits[n - 1 - i]));
        }
    }
}

/// A layer of Hadamard gates acts on its qubits only.
pub proof fn lemma_hadamard_layer_uses_only_its_qubits(qubits: Seq<usize>)
    ensures
        uses_only(hadamard_layer(qubits), qubits),
{
    let ops = hadamard_layer(qubits);
    assert forall|k: int, j: int|
        0 <= k < ops.len() && 0 <= j < ops[k].qubits.len() implies qubits.contains(
        #[trigger] ops[k].qubits[j],
    ) by {
        assert(qubits[k] == ops[k].qubits[j]);
    }
}

/// The Molmer-Sorensen-like circuit acts on the qubits of its gate only.
pub proof fn lemma_ms_uses_only_its_qubits(qubits: Seq<usize>, theta: ParameterView)
    requires
        qubits.len() >= 1,
    ensures
        uses_only(ms_circuit(qubits, theta), qubits),
{
    lemma_hadamard_layer_uses_only_its_qubits(qubits);
    lemma_zz_uses_only_its_qubits(qubits, theta);
    lemma_uses_only_joined(hadamard_layer(qubits), zz_circuit(qubits, theta), qubits);
    lemma_uses_only_joined(
        hadamard_layer(qubits) + zz_circuit(qubits, theta),
        hadamard_layer(qubits),
        qubits,
    );
}

/// The Fourier rows act on the qubits of their gate only.
pub proof fn lemma_fourier_rows_use_only_their_qubits(qubits: Seq<usize>, count: nat)
    requires
        count <= qubits.len(),
    ensures
        uses_only(fourier_rows(qubits, count), qubits),
    decreases count,
{
    if count > 0 {
        lemma_fourier_rows_use_only_their_qubits(qubits, (count - 1) as nat);
        let row = fourier_row(qubits, count - 1);
        assert forall|k: int, j: int|
            0 <= k < row.len() && 0 <= j < row[k].qubits.len() implies qubits.contains(
            #[trigger] row[k].qubits[j],
        ) by {
            assert(qubits.contains(qubits[count - 1]));
            if k > 0 {
                assert(qubits.contains(qubits[count - 1 + k]));
            }
        }
        lemma_uses_only_joined(fourier_rows(qubits, (count - 1) as nat), row, qubits);
    }
}

/// Reversing a sequence and negating its numbers changes no qubit role.
pub proof fn lemma_reversal_keeps_qubits(ops: Seq<OperationView>, qubits: Seq<usize>)
    requires
        uses_only(ops, qubits),
    ensures
        uses_only(reversed_and_negated(ops), qubits),
{
    let reversed = reversed_and_negated(ops);
    assert forall|k: int, j: int|
        0 <= k < reversed.len() && 0 <= j < reversed[k].qubits.len() implies qubits.contains(
        #[trigger] reversed[k].qubits[j],
    ) by {
        assert(reversed[k].qubits == ops[ops.len() - 1 - k].qubits);
        assert(qubits.contains(ops[ops.len() - 1 - k].qubits[j]));
    }
}

/// The Fourier circuit acts on the qubits of its gate only.
pub proof fn lemma_fourier_uses_only_its_qubits(qubits: Seq<usize>, swaps: bool, inverse: bool)
    ensures
        uses_only(fourier_circuit(qubits, swaps, inverse), qubits),
{
    lemma_fourier_rows_use_only_their_qubits(qubits, qubits.len());
    let layer = swap_layer(qubits);
    assert forall|k: int, j: int|
        0 <= k < layer.len() && 0 <= j < layer[k].qubits.len() implies qubits.contains(
        #[trigger] layer[k].qubits[j],
    ) by {
        assert(qubits.contains(qubits[k]));
        assert(qubits.contains(qubits[qubits.len() - 1 - k]));
    }
    lemma_uses_only_joined(fourier_rows(qubits, qubits.len()), layer, qubits);
    lemma_reversal_keeps_qubits(forward_fourier_circuit(qubits, swaps), qubits);
}

/// The doubly controlled NOT acts on its three qubits only.
pub proof fn lemma_toffoli_uses_only_its_qubits(qubits: Seq<usize>)
    requires
        qubits.len() == 3,
    ensures
        uses_only(toffoli_circuit(qubits[0], qubits[1], qubits[2]), qubits),
{
    let ops = toffoli_circuit(qubits[0], qubits[1], qubits[2]);
    assert(qubits.contains(qubits[0]) && qubits.contains(qubits[1]) && qubits.contains(qubits[2]));
    assert forall|k: int, j: int|
        0 <= k < ops.len() && 0 <= j < ops[k].qubits.len() implies qubits.contains(
        #[trigger] ops[k].qubits[j],
    ) by {
        let q = ops[k].qubits[j];
        assert(q == qubits[0] || q == qubits[1] || q == qubits[2]);
    }
}

/// The fully controlled NOT acts on the qubits of its gate only: no
/// auxiliary qubit is introduced.
pub proof fn lemma_multi_cnot_uses_only_its_qubits(qubits: Seq<usize>)
    requires
        qubits.len() >= 1,
    ensures
        uses_only(multi_cnot_circuit(qubits), qubits),
    decreases qubits.len(), 0nat,
{
    let ops = multi_cnot_circuit(qubits);
    let n = qubits.len() as int;
    if n <= 2 {
        assert forall|k: int, j: int|
            0 <= k < ops.len() && 0 <= j < ops[k].qubits.len() implies qubits.contains(
            #[trigger] ops[k].qubits[j],
        ) by {
            assert(qubits[j] == ops[k].qubits[j]);
        }
    } else if n == 3 {
        lemma_toffoli_uses_only_its_qubits(qubits);
    } else {
        let target = qubits.last();
        let controls = qubits.drop_last();
        assert(controls =~= qubits.take(n - 1));
        assert(qubits[n - 1] == target);
        lemma_multi_phase_uses_only_its_qubits(controls, target, 0, qubits);
        let cap = seq![hadamard(target)];
        assert forall|k: int, j: int|
            0 <= k < cap.len() && 0 <= j < cap[k].qubits.len() implies qubits.contains(
            #[trigger] cap[k].qubits[j],
        ) by {
            assert(cap[k].qubits[j] == target);
        }
        lemma_uses_only_joined(cap, multi_phase_circuit(controls, target, 0), qubits);
        lemma_uses_only_joined(cap + multi_phase_circuit(controls, target, 0), cap, qubits);
    }
}

/// The controlled phase acts on its controls and its target only.
pub proof fn lemma_multi_phase_uses_only_its_qubits(
    controls: Seq<usize>,
    target: usize,
    halvings: nat,
    qubits: Seq<usize>,
)
    requires
        1 <= controls.len() <= qubits.len(),
        controls == qubits.take(controls.len() as int),
        qubits.contains(target),
    ensures
        uses_only(multi_phase_circuit(controls, target, halvings), qubits),
    decreases controls.len(), 1nat,
{
    let n = controls.len() as int;
    let last = controls.last();
    assert(qubits[n - 1] == last);
    if n <= 1 {
        let ops = multi_phase_circuit(controls, target, halvings);
        assert forall|k: int, j: int|
            0 <= k < ops.len() && 0 <= j < ops[k].qubits.len() implies qubits.contains(
            #[trigger] ops[k].qubits[j],
        ) by {
            let q = ops[k].qubits[j];
            assert(q == qubits[0] || q == target);
        }
    } else {
        let up = seq![controlled_phase(
            last,
            target,
            pi_fraction(halvings + 1),
        )];
        let down = seq![controlled_phase(
            last,
            target,
            negative_pi_fraction(halvings + 1),
        )];
        assert forall|k: int, j: int|
            0 <= k < up.len() && 0 <= j < up[k].qubits.len() implies qubits.contains(
            #[trigger] up[k].qubits[j],
        ) by {
            let q = up[k].qubits[j];
            assert(q == last || q == target);
        }
        assert forall|k: int, j: int|
            0 <= k < down.len() && 0 <= j < down[k].qubits.len() implies qubits.contains(
            #[trigger] down[k].qubits[j],
        ) by {
            let q = down[k].qubits[j];
            assert(q == last || q == target);
        }
        lemma_multi_cnot_uses_only_its_qubits(controls);
        lemma_uses_only_prefix(multi_cnot_circuit(controls), qubits, n);
        assert(controls.drop_last() =~= qubits.take(n - 1));
        lemma_multi_phase_uses_only_its_qubits(controls.drop_last(), target, halvings + 1, qubits);
        let flip = multi_cnot_circuit(controls);
        let rest = multi_phase_circuit(controls.drop_last(), target, halvings + 1);
        lemma_uses_only_joined(up, flip, qubits);
        lemma_uses_only_joined(up + flip, down, qubits);
        lemma_uses_only_joined(up + flip + down, flip, qubits);
        lemma_uses_only_joined(up + flip + down + flip, rest, qubits);
    }
}

/// A decomposition acts on the qubits of the composite gate only.
pub proof fn lemma_decomposition_uses_only_its_qubits(op: OperationView)
    requires
        op.is_decomposable(),
    ensures
        uses_only(op.decomposition(), op.qubits),
{
    match op.kind {
        OperationKind::MultiQubitMS => lemma_ms_uses_only_its_qubits(op.qubits, op.parameters[0]),
        OperationKind::MultiQubitZZ => lemma_zz_uses_only_its_qubits(op.qubits, op.parameters[0]),
        OperationKind::MultiQubitCNOT => lemma_multi_cnot_uses_only_its_qubits(op.qubits),
        _ => lemma_fourier_uses_only_its_qubits(op.qubits, op.flags[0], op.flags[1]),
    }
}

/// Negating the numbers of an operation twice gives the operation back.
pub proof fn lemma_double_negation(op: OperationView)
    ensures
        op.with_negated_numbers().with_negated_numbers() == op,
{
    let twice = op.with_negated_numbers().with_negated_numbers();
    assert forall|i: int| 0 <= i < op.parameters.len() implies twice.parameters[i]
        == op.parameters[i] by {
        match op.parameters[i] {
            ParameterView::Number(bits) => lemma_negation_is_involution(bits),
            ParameterView::Symbolic(_) => {},
        }
        assert(twice.parameters[i] == negated_number(negated_number(op.parameters[i])));
    }
    assert(twice.parameters =~= op.parameters);
}

/// Reversing and negating a sequence twice gives the sequence back.
pub proof fn lemma_double_reversal(ops: Seq<OperationView>)
    ensures
        reversed_and_negated(reversed_and_negated(ops)) == ops,
{
    let twice = reversed_and_negated(reversed_and_negated(ops));
    assert forall|k: int| 0 <= k < ops.len() implies twice[k] == ops[k] by {
        lemma_double_negation(ops[k]);
    }
    assert(twice =~= ops);
}

/// The inverse Fourier circuit, reversed and with its angles negated, is
/// the forward Fourier circuit, and the other way round.
pub proof fn lemma_fourier_inverse_is_mirror(qubits: Seq<usize>, swaps: bool, inverse: bool)
    ensures
        reversed_and_negated(fourier_circuit(qubits, swaps, inverse)) == fourier_circuit(
            qubits,
            swaps,
            !inverse,
        ),
        fourier_circuit(qubits, swaps, inverse).len() == fourier_circuit(qubits, swaps, !inverse).len(),
{
    lemma_double_reversal(forward_fourier_circuit(qubits, swaps));
}

/// Remapping a gate on one qubit remaps its qubit.
pub proof fn lemma_remapped_roles(mapping: Map<usize, usize>, first: usize, second: usize)
    ensures
        mapped_qubits(mapping, seq![first]) == seq![mapping[first]],
        mapped_qubits(mapping, seq![first, second]) == seq![mapping[first], mapping[second]],
{
    assert(mapped_qubits(mapping, seq![first]) =~= seq![mapping[first]]);
    assert(mapped_qubits(mapping, seq![first, second]) =~= seq![mapping[first], mapping[second]]);
}

/// Remapping every elementary gate remaps its qubit roles and nothing else.
pub proof fn lemma_remapped_gates(
    mapping: Map<usize, usize>,
    first: usize,
    second: usize,
    theta: ParameterView,
)
    ensures
        hadamard(first).remapped(mapping) == hadamard(mapping[first]),
        pauli_x(first).remapped(mapping) == pauli_x(mapping[first]),
        t_gate(first).remapped(mapping) == t_gate(mapping[first]),
        rotate_z(first, theta).remapped(mapping) == rotate_z(mapping[first], theta),
        phase_shift(first, theta).remapped(mapping) == phase_shift(mapping[first], theta),
        cnot(first, second).remapped(mapping) == cnot(mapping[first], mapping[second]),
        swap(first, second).remapped(mapping) == swap(mapping[first], mapping[second]),
        controlled_phase(first, second, theta).remapped(mapping) == controlled_phase(
            mapping[first],
            mapping[second],
            theta,
        ),
{
    lemma_remapped_roles(mapping, first, second);
}

/// Remapping a joined sequence remaps its two parts.
pub proof fn lemma_remapped_joined(
    first: Seq<OperationView>,
    second: Seq<OperationView>,
    mapping: Map<usize, usize>,
)
    ensures
        remapped_sequence(first + second, mapping) == remapped_sequence(first, mapping)
            + remapped_sequence(second, mapping),
{
    assert(remapped_sequence(first + second, mapping) =~= remapped_sequence(first, mapping)
        + remapped_sequence(second, mapping));
}

/// The ZZ-like circuit of the remapped qubits is the remapped ZZ-like circuit.
pub proof fn lemma_zz_commutes_with_remapping(
    qubits: Seq<usize>,
    theta: ParameterView,
    mapping: Map<usize, usize>,
)
    requires
        qubits.len() >= 1,
    ensures
        zz_circuit(mapped_qubits(mapping, qubits), theta) == remapped_sequence(
            zz_circuit(qubits, theta),
            mapping,
        ),
{
    let images = mapped_qubits(mapping, qubits);
    let before = zz_circuit(qubits, theta);
    let after = zz_circuit(images, theta);
    let n = qubits.len() as int;
    assert(after.len() == before.len());
    assert forall|k: int| 0 <= k < before.len() implies after[k] == before[k].remapped(mapping) by {
        if k < n - 1 {
            assert(before[k] == ladder(qubits)[k]);
            assert(after[k] == ladder(images)[k]);
            lemma_remapped_gates(mapping, qubits[k], qubits[k + 1], theta);
        } else if k == n - 1 {
            lemma_remapped_gates(mapping, qubits.last(), qubits.last(), theta);
        } else {
            let i = k - n;
            assert(before[k] == mirrored_ladder(qubits)[i]);
            assert(after[k] == mirrored_ladder(images)[i]);
            lemma_remapped_gates(mapping, qubits[n - 2 - i], qubits[n - 1 - i], theta);
        }
    }
    assert(after =~= remapped_sequence(before, mapping));
}

/// The Hadamard layer of the remapped qubits is the remapped Hadamard layer.
pub proof fn lemma_hadamard_layer_commutes_with_remapping(
    qubits: Seq<usize>,
    mapping: Map<usize, usize>,
)
    ensures
        hadamard_layer(mapped_qubits(mapping, qubits)) == remapped_sequence(
            hadamard_layer(qubits),
            mapping,
        ),
{
    let images = mapped_qubits(mapping, qubits);
    assert forall|k: int| 0 <= k < qubits.len() implies hadamard_layer(images)[k]
        == hadamard_layer(qubits)[k].remapped(mapping) by {
        lemma_remapped_gates(mapping, qubits[k], qubits[k], ParameterView::Number(0));
    }
    assert(hadamard_layer(images) =~= remapped_sequence(hadamard_layer(qubits), mapping));
}

/// The Fourier rows of the remapped qubits are the remapped Fourier rows.
pub proof fn lemma_fourier_rows_commute_with_remapping(
    qubits: Seq<usize>,
    count: nat,
    mapping: Map<usize, usize>,
)
    requires
        count <= qubits.len(),
    ensures
        fourier_rows(mapped_qubits(mapping, qubits), count) == remapped_sequence(
            fourier_rows(qubits, count),
            mapping,
        ),
    decreases count,
{
    let images = mapped_qubits(mapping, qubits);
    if count == 0 {
        assert(fourier_rows(images, count) =~= remapped_sequence(
            fourier_rows(qubits, count),
            mapping,
        ));
    } else {
        let index = count - 1;
        lemma_fourier_rows_commute_with_remapping(qubits, index as nat, mapping);
        let before = fourier_row(qubits, index);
        let after = fourier_row(images, index);
        assert(after.len() == before.len());
        assert forall|k: int| 0 <= k < before.len() implies after[k] == before[k].remapped(
            mapping,
        ) by {
            if k == 0 {
                lemma_remapped_gates(
                    mapping,
                    qubits[index],
                    qubits[index],
                    ParameterView::Number(0),
                );
            } else {
                lemma_remapped_gates(
                    mapping,
                    qubits[index + k],
                    qubits[index],
                    pi_fraction(k as nat),
                );
            }
        }
        assert(after =~= remapped_sequence(before, mapping));
        lemma_remapped_joined(fourier_rows(qubits, index as nat), before, mapping);
    }
}

/// Reversal with negation and remapping can be done in either order.
pub proof fn lemma_reversal_commutes_with_remapping(
    ops: Seq<OperationView>,
    mapping: Map<usize, usize>,
)
    ensures
        reversed_and_negated(remapped_sequence(ops, mapping)) == remapped_sequence(
            reversed_and_negated(ops),
            mapping,
        ),
{
    assert(reversed_and_negated(remapped_sequence(ops, mapping)) =~= remapped_sequence(
        reversed_and_negated(ops),
        mapping,
    ));
}

/// The Fourier circuit of the remapped qubits is the remapped Fourier circuit.
pub proof fn lemma_fourier_commutes_with_remapping(
    qubits: Seq<usize>,
    swaps: bool,
    inverse: bool,
    mapping: Map<usize, usize>,
)
    ensures
        fourier_circuit(mapped_qubits(mapping, qubits), swaps, inverse) == remapped_sequence(
            fourier_circuit(qubits, swaps, inverse),
            mapping,
        ),
{
    let images = mapped_qubits(mapping, qubits);
    lemma_fourier_rows_commute_with_remapping(qubits, qubits.len(), mapping);
    let n = qubits.len() as int;
    assert forall|k: int| 0 <= k < n / 2 implies swap_layer(images)[k] == swap_layer(
        qubits,
    )[k].remapped(mapping) by {
        lemma_remapped_gates(mapping, qubits[k], qubits[n - 1 - k], ParameterView::Number(0));
    }
    assert(swap_layer(images) =~= remapped_sequence(swap_layer(qubits), mapping));
    lemma_remapped_joined(fourier_rows(qubits, qubits.len()), swap_layer(qubits), mapping);
    lemma_reversal_commutes_with_remapping(forward_fourier_circuit(qubits, swaps), mapping);
}

/// The doubly controlled NOT of the remapped qubits is the remapped circuit.
pub proof fn lemma_toffoli_commutes_with_remapping(
    first: usize,
    second: usize,
    target: usize,
    mapping: Map<usize, usize>,
)
    ensures
        toffoli_circuit(mapping[first], mapping[second], mapping[target]) == remapped_sequence(
            toffoli_circuit(first, second, target),
            mapping,
        ),
{
    let theta = negative_pi_fraction(2);
    lemma_remapped_gates(mapping, target, target, theta);
    lemma_remapped_gates(mapping, second, target, theta);
    lemma_remapped_gates(mapping, first, target, theta);
    lemma_remapped_gates(mapping, first, second, theta);
    lemma_remapped_gates(mapping, second, second, theta);
    lemma_remapped_gates(mapping, first, first, theta);
    assert(toffoli_circuit(mapping[first], mapping[second], mapping[target])
        =~= remapped_sequence(toffoli_circuit(first, second, target), mapping));
}

/// The fully controlled NOT of the remapped qubits is the remapped circuit.
pub proof fn lemma_multi_cnot_commutes_with_remapping(
    qubits: Seq<usize>,
    mapping: Map<usize, usize>,
)
    requires
        qubits.len() >= 1,
    ensures
        multi_cnot_circuit(mapped_qubits(mapping, qubits)) == remapped_sequence(
            multi_cnot_circuit(qubits),
            mapping,
        ),
    decreases qubits.len(), 0nat,
{
    let images = mapped_qubits(mapping, qubits);
    let n = qubits.len() as int;
    let theta = ParameterView::Number(0);
    if n == 1 {
        lemma_remapped_gates(mapping, qubits[0], qubits[0], theta);
        assert(multi_cnot_circuit(images) =~= remapped_sequence(
            multi_cnot_circuit(qubits),
            mapping,
        ));
    } else if n == 2 {
        lemma_remapped_gates(mapping, qubits[0], qubits[1], theta);
        assert(multi_cnot_circuit(images) =~= remapped_sequence(
            multi_cnot_circuit(qubits),
            mapping,
        ));
    } else if n == 3 {
        lemma_toffoli_commutes_with_remapping(qubits[0], qubits[1], qubits[2], mapping);
    } else {
        let target = qubits.last();
        let controls = qubits.drop_last();
        assert(images.drop_last() =~= mapped_qubits(mapping, controls));
        assert(images.last() == mapping[target]);
        lemma_multi_phase_commutes_with_remapping(controls, target, 0, mapping);
        lemma_remapped_gates(mapping, target, target, theta);
        let cap = seq![hadamard(target)];
        assert(remapped_sequence(cap, mapping) =~= seq![hadamard(mapping[target])]);
        lemma_remapped_joined(cap, multi_phase_circuit(controls, target, 0), mapping);
        lemma_remapped_joined(cap + multi_phase_circuit(controls, target, 0), cap, mapping);
    }
}

/// The controlled phase of the remapped qubits is the remapped circuit.
pub proof fn lemma_multi_phase_commutes_with_remapping(
    controls: Seq<usize>,
    target: usize,
    halvings: nat,
    mapping: Map<usize, usize>,
)
    requires
        controls.len() >= 1,
    ensures
        multi_phase_circuit(mapped_qubits(mapping, controls), mapping[target], halvings)
            == remapped_sequence(multi_phase_circuit(controls, target, halvings), mapping),
    decreases controls.len(), 1nat,
{
    let images = mapped_qubits(mapping, controls);
    let n = controls.len() as int;
    if n == 1 {
        lemma_remapped_gates(mapping, controls[0], target, pi_fraction(halvings));
        assert(multi_phase_circuit(images, mapping[target], halvings) =~= remapped_sequence(
            multi_phase_circuit(controls, target, halvings),
            mapping,
        ));
    } else {
        let last = controls.last();
        assert(images.last() == mapping[last]);
        assert(images.drop_last() =~= mapped_qubits(mapping, controls.drop_last()));
        let up = seq![controlled_phase(last, target, pi_fraction(halvings + 1))];
        let down = seq![controlled_phase(last, target, negative_pi_fraction(halvings + 1))];
        let flip = multi_cnot_circuit(controls);
        let rest = multi_phase_circuit(controls.drop_last(), target, halvings + 1);
        lemma_remapped_gates(mapping, last, target, pi_fraction(halvings + 1));
        lemma_remapped_gates(mapping, last, target, negative_pi_fraction(halvings + 1));
        assert(remapped_sequence(up, mapping) =~= seq![
            controlled_phase(mapping[last], mapping[target], pi_fraction(halvings + 1)),
        ]);
        assert(remapped_sequence(down, mapping) =~= seq![
            controlled_phase(mapping[last], mapping[target], negative_pi_fraction(halvings + 1)),
        ]);
        lemma_multi_cnot_commutes_with_remapping(controls, mapping);
        lemma_multi_phase_commutes_with_remapping(
            controls.drop_last(),
            target,
            halvings + 1,
            mapping,
        );
        lemma_remapped_joined(up, flip, mapping);
        lemma_remapped_joined(up + flip, down, mapping);
        lemma_remapped_joined(up + flip + down, flip, mapping);
        lemma_remapped_joined(up + flip + down + flip, rest, mapping);
    }
}

/// Decomposing a remapped gate gives the remapped decomposition: a rule
/// depends on the qubit roles through their positions only.
pub proof fn lemma_decomposition_commutes_with_remapping(
    op: OperationView,
    mapping: Map<usize, usize>,
)
    requires
        op.is_decomposable(),
    ensures
        op.remapped(mapping).is_decomposable(),
        op.remapped(mapping).decomposition() == remapped_sequence(op.decomposition(), mapping),
{
    match op.kind {
        OperationKind::MultiQubitMS => {
            let theta = op.parameters[0];
            lemma_hadamard_layer_commutes_with_remapping(op.qubits, mapping);
            lemma_zz_commutes_with_remapping(op.qubits, theta, mapping);
            lemma_remapped_joined(hadamard_layer(op.qubits), zz_circuit(op.qubits, theta), mapping);
            lemma_remapped_joined(
                hadamard_layer(op.qubits) + zz_circuit(op.qubits, theta),
                hadamard_layer(op.qubits),
                mapping,
            );
        },
        OperationKind::MultiQubitZZ => {
            lemma_zz_commutes_with_remapping(op.qubits, op.parameters[0], mapping);
        },
        OperationKind::MultiQubitCNOT => {
            lemma_multi_cnot_commutes_with_remapping(op.qubits, mapping);
        },
        _ => {
            lemma_fourier_commutes_with_remapping(op.qubits, op.flags[0], op.flags[1], mapping);
        },
    }
}

/// Two sequences without symbolic parameters have none when joined.
pub proof fn lemma_concrete_joined(first: Seq<OperationView>, second: Seq<OperationView>)
    requires
        all_concrete(first),
        all_concrete(second),
    ensures
        all_concrete(first + second),
{
    let joined = first + second;
    assert forall|k: int| 0 <= k < joined.len() implies !(#[trigger] joined[k]).is_parametrized() by {
        if k < first.len() {
            assert(!first[k].is_parametrized());
        } else {
            assert(!second[k - first.len()].is_parametrized());
        }
    }
}

/// A sequence of gates with at most one parameter each, all of them concrete,
/// has no symbolic parameter.
pub proof fn lemma_numbers_are_concrete(ops: Seq<OperationView>)
    requires
        forall|k: int, i: int|
            0 <= k < ops.len() && 0 <= i < ops[k].parameters.len()
                ==> #[trigger] ops[k].parameters[i] is Number,
    ensures
        all_concrete(ops),
{
}

/// The fully controlled NOT has no symbolic parameter.
pub proof fn lemma_multi_cnot_is_concrete(qubits: Seq<usize>)
    requires
        qubits.len() >= 1,
    ensures
        all_concrete(multi_cnot_circuit(qubits)),
    decreases qubits.len(), 0nat,
{
    if qubits.len() <= 3 {
        lemma_numbers_are_concrete(multi_cnot_circuit(qubits));
    } else {
        let cap = seq![hadamard(qubits.last())];
        lemma_numbers_are_concrete(cap);
        lemma_multi_phase_is_concrete(qubits.drop_last(), qubits.last(), 0);
        lemma_concrete_joined(cap, multi_phase_circuit(qubits.drop_last(), qubits.last(), 0));
        lemma_concrete_joined(cap + multi_phase_circuit(qubits.drop_last(), qubits.last(), 0), cap);
    }
}

/// The controlled phase has no symbolic parameter.
pub proof fn lemma_multi_phase_is_concrete(controls: Seq<usize>, target: usize, halvings: nat)
    requires
        controls.len() >= 1,
    ensures
        all_concrete(multi_phase_circuit(controls, target, halvings)),
    decreases controls.len(), 1nat,
{
    if controls.len() <= 1 {
        lemma_numbers_are_concrete(multi_phase_circuit(controls, target, halvings));
    } else {
        let last = controls.last();
        let up = seq![controlled_phase(last, target, pi_fraction(halvings + 1))];
        let down = seq![controlled_phase(last, target, negative_pi_fraction(halvings + 1))];
        let flip = multi_cnot_circuit(controls);
        let rest = multi_phase_circuit(controls.drop_last(), target, halvings + 1);
        lemma_numbers_are_concrete(up);
        lemma_numbers_are_concrete(down);
        lemma_multi_cnot_is_concrete(controls);
        lemma_multi_phase_is_concrete(controls.drop_last(), target, halvings + 1);
        lemma_concrete_joined(up, flip);
        lemma_concrete_joined(up + flip, down);
        lemma_concrete_joined(up + flip + down, flip);
        lemma_concrete_joined(up + flip + down + flip, rest);
    }
}

/// The Fourier rows have no symbolic parameter.
pub proof fn lemma_fourier_rows_are_concrete(qubits: Seq<usize>, count: nat)
    requires
        count <= qubits.len(),
    ensures
        all_concrete(fourier_rows(qubits, count)),
    decreases count,
{
    if count > 0 {
        lemma_fourier_rows_are_concrete(qubits, (count - 1) as nat);
        lemma_numbers_are_concrete(fourier_row(qubits, count - 1));
        lemma_concrete_joined(
            fourier_rows(qubits, (count - 1) as nat),
            fourier_row(qubits, count - 1),
        );
    }
}

/// The Fourier circuit has no symbolic parameter.
pub proof fn lemma_fourier_is_concrete(qubits: Seq<usize>, swaps: bool, inverse: bool)
    ensures
        all_concrete(fourier_circuit(qubits, swaps, inverse)),
{
    lemma_fourier_rows_are_concrete(qubits, qubits.len());
    lemma_numbers_are_concrete(swap_layer(qubits));
    lemma_concrete_joined(fourier_rows(qubits, qubits.len()), swap_layer(qubits));
    let forward = forward_fourier_circuit(qubits, swaps);
    let mirrored = reversed_and_negated(forward);
    assert forall|k: int| 0 <= k < mirrored.len() implies !(
    #[trigger] mirrored[k]).is_parametrized() by {
        let source = forward[forward.len() - 1 - k];
        assert(!source.is_parametrized());
        assert forall|i: int| 0 <= i < mirrored[k].parameters.len() implies !(
        #[trigger] mirrored[k].parameters[i]).is_parametrized() by {
            assert(!source.parameters[i].is_parametrized());
        }
    }
}

/// Every parameter of every operation of the sequence is the given one.
pub open spec fn has_only_parameter(ops: Seq<OperationView>, theta: ParameterView) -> bool {
    forall|k: int, i: int|
        0 <= k < ops.len() && 0 <= i < ops[k].parameters.len() ==> #[trigger] ops[k].parameters[i]
            == theta
}

/// The ZZ-like circuit holds the angle of its gate in its middle rotation,
/// and no other parameter.
pub proof fn lemma_zz_holds_its_angle(qubits: Seq<usize>, theta: ParameterView)
    requires
        qubits.len() >= 1,
    ensures
        zz_circuit(qubits, theta).len() == 2 * qubits.len() - 1,
        zz_circuit(qubits, theta)[qubits.len() - 1] == rotate_z(qubits.last(), theta),
        has_only_parameter(zz_circuit(qubits, theta), theta),
{
    let ops = zz_circuit(qubits, theta);
    let n = qubits.len() as int;
    assert(ladder(qubits).len() == n - 1);
    assert(mirrored_ladder(qubits).len() == n - 1);
    assert forall|k: int, i: int|
        0 <= k < ops.len() && 0 <= i < ops[k].parameters.len() implies #[trigger] ops[k].parameters[i]
        == theta by {
        if k < n - 1 {
            assert(ops[k] == ladder(qubits)[k]);
        } else if k > n - 1 {
            assert(ops[k] == mirrored_ladder(qubits)[k - n]);
        }
    }
}

/// The Molmer-Sorensen-like circuit holds the angle of its gate in its
/// middle rotation, and no other parameter.
pub proof fn lemma_ms_holds_its_angle(qubits: Seq<usize>, theta: ParameterView)
    requires
        qubits.len() >= 1,
    ensures
        ms_circuit(qubits, theta).len() == 4 * qubits.len() - 1,
        ms_circuit(qubits, theta)[2 * qubits.len() - 1] == rotate_z(qubits.last(), theta),
        has_only_parameter(ms_circuit(qubits, theta), theta),
{
    let ops = ms_circuit(qubits, theta);
    let core = zz_circuit(qubits, theta);
    let n = qubits.len() as int;
    lemma_zz_holds_its_angle(qubits, theta);
    assert(hadamard_layer(qubits).len() == n);
    assert(ops[2 * n - 1] == core[n - 1]);
    assert forall|k: int, i: int|
        0 <= k < ops.len() && 0 <= i < ops[k].parameters.len() implies #[trigger] ops[k].parameters[i]
        == theta by {
        if k < n {
            assert(ops[k] == hadamard_layer(qubits)[k]);
        } else if k < 3 * n - 1 {
            assert(ops[k] == core[k - n]);
            assert(core[k - n].parameters[i] == theta);
        } else {
            assert(ops[k] == hadamard_layer(qubits)[k - (3 * n - 1)]);
        }
    }
}

/// A sequence that holds one parameter, and holds it somewhere, has a
/// symbolic parameter exactly when that parameter is symbolic.
pub proof fn lemma_only_parameter_decides(ops: Seq<OperationView>, theta: ParameterView, at: int)
    requires
        has_only_parameter(ops, theta),
        0 <= at < ops.len(),
        ops[at].parameters.len() >= 1,
    ensures
        all_concrete(ops) <==> !theta.is_parametrized(),
{
    assert(ops[at].parameters[0] == theta);
    if theta.is_parametrized() {
        assert(ops[at].is_parametrized());
    } else {
        assert forall|k: int| 0 <= k < ops.len() implies !(#[trigger] ops[k]).is_parametrized() by {
            assert forall|i: int| 0 <= i < ops[k].parameters.len() implies !(
            #[trigger] ops[k].parameters[i]).is_parametrized() by {
                assert(ops[k].parameters[i] == theta);
            }
        }
    }
}

/// An operation with one parameter is symbolic exactly when that parameter is.
pub proof fn lemma_single_parameter_decides(op: OperationView)
    requires
        op.parameters.len() == 1,
    ensures
        op.is_parametrized() <==> op.parameters[0].is_parametrized(),
{
    if op.parameters[0].is_parametrized() {
        assert(op.is_parametrized());
    }
}

/// A decomposition has a symbolic parameter exactly when the composite gate
/// has one: parameters are placed into the elementary gates, never evaluated.
pub proof fn lemma_decomposition_keeps_concreteness(op: OperationView)
    requires
        op.is_decomposable(),
    ensures
        all_concrete(op.decomposition()) <==> !op.is_parametrized(),
{
    let n = op.qubits.len() as int;
    match op.kind {
        OperationKind::MultiQubitMS => {
            let theta = op.parameters[0];
            lemma_ms_holds_its_angle(op.qubits, theta);
            lemma_only_parameter_decides(ms_circuit(op.qubits, theta), theta, 2 * n - 1);
            lemma_single_parameter_decides(op);
        },
        OperationKind::MultiQubitZZ => {
            let theta = op.parameters[0];
            lemma_zz_holds_its_angle(op.qubits, theta);
            lemma_only_parameter_decides(zz_circuit(op.qubits, theta), theta, n - 1);
            lemma_single_parameter_decides(op);
        },
        OperationKind::MultiQubitCNOT => {
            lemma_multi_cnot_is_concrete(op.qubits);
        },
        _ => {
            lemma_fourier_is_concrete(op.qubits, op.flags[0], op.flags[1]);
        },
    }
}

/// The listed qubits of a remapped sequence are the images of the listed qubits.
pub proof fn lemma_remapped_sequence_lists_images(
    ops: Seq<OperationView>,
    mapping: Map<usize, usize>,
)
    ensures
        listed_qubits(remapped_sequence(ops, mapping)) == listed_qubits(ops).map(
            |q: usize| mapping[q],
        ),
    decreases ops.len(),
{
    let image = |q: usize| mapping[q];
    let after = remapped_sequence(ops, mapping);
    if ops.len() == 0 {
        assert(listed_qubits(after) =~= listed_qubits(ops).map(image));
    } else {
        let rest = ops.drop_last();
        let last = ops.last();
        lemma_remapped_sequence_lists_images(rest, mapping);
        assert(after.drop_last() =~= remapped_sequence(rest, mapping));
        assert(after.last() == last.remapped(mapping));
        lemma_remapped_involves_image(last, mapping);
        if last.kind.involvement() == Involvement::Listed {
            let a = listed_qubits(rest);
            let b = last.qubits.to_set();
            assert(last.remapped(mapping).qubits.to_set() == b.map(image));
            assert forall|q: usize| a.union(b).map(image).contains(q) <==> a.map(image).union(
                b.map(image),
            ).contains(q) by {
                if a.union(b).map(image).contains(q) {
                    let p = choose|p: usize| a.union(b).contains(p) && q == image(p);
                    if a.contains(p) {
                        assert(a.map(image).contains(q));
                    } else {
                        assert(b.map(image).contains(q));
                    }
                }
                if a.map(image).contains(q) {
                    let p = choose|p: usize| a.contains(p) && q == image(p);
                    assert(a.union(b).contains(p));
                }
                if b.map(image).contains(q) {
                    let p = choose|p: usize| b.contains(p) && q == image(p);
                    assert(a.union(b).contains(p));
                }
            }
            assert(a.union(b).map(image) =~= a.map(image).union(b.map(image)));
        }
    }
}

/// The qubits that a remapped sequence involves are the images of the qubits
/// that the sequence involves.
pub proof fn lemma_remapped_sequence_involves_image(
    ops: Seq<OperationView>,
    mapping: Map<usize, usize>,
)
    ensures
        sequence_involved_qubits(remapped_sequence(ops, mapping)) == sequence_involved_qubits(
            ops,
        ).image(mapping),
{
    let after = remapped_sequence(ops, mapping);
    let image = |q: usize| mapping[q];
    if has_global(ops) {
        let k = choose|k: int|
            0 <= k < ops.len() && (#[trigger] ops[k]).kind.involvement() == Involvement::All;
        assert(after[k].kind.involvement() == Involvement::All);
    }
    if has_global(after) {
        let k = choose|k: int|
            0 <= k < after.len() && (#[trigger] after[k]).kind.involvement() == Involvement::All;
        assert(ops[k].kind.involvement() == Involvement::All);
    }
    lemma_remapped_sequence_lists_images(ops, mapping);
    let before = listed_qubits(ops);
    if before.is_empty() {
        assert(before.map(image) =~= Set::<usize>::empty());
    } else {
        let p = choose|p: usize| before.contains(p);
        assert(before.map(image).contains(image(p)));
    }
}

/// No operation of the sequence names a qubit in two roles.
pub open spec fn all_distinct(ops: Seq<OperationView>) -> bool {
    forall|k: int| 0 <= k < ops.len() ==> (#[trigger] ops[k]).qubits.no_duplicates()
}

/// The mapping sends different qubits of the list to different qubits.
pub open spec fn is_injective_on(mapping: Map<usize, usize>, qubits: Seq<usize>) -> bool {
    forall|i: int, j: int|
        0 <= i < qubits.len() && 0 <= j < qubits.len() && qubits[i] != qubits[j]
            ==> mapping[#[trigger] qubits[i]] != mapping[#[trigger] qubits[j]]
}

/// Remapping with a mapping that is injective on the qubits of an operation
/// keeps its qubit roles distinct.
pub proof fn lemma_injective_remapping_keeps_distinct(op: OperationView, mapping: Map<usize, usize>)
    requires
        op.qubits.no_duplicates(),
        is_injective_on(mapping, op.qubits),
    ensures
        op.remapped(mapping).qubits.no_duplicates(),
{
    let after = op.remapped(mapping).qubits;
    assert forall|i: int, j: int| 0 <= i < after.len() && 0 <= j < after.len() && i != j implies after[i]
        != after[j] by {
        assert(op.qubits[i] != op.qubits[j]);
    }
}

/// Two sequences of gates on distinct qubits are one when joined.
pub proof fn lemma_distinct_joined(first: Seq<OperationView>, second: Seq<OperationView>)
    requires
        all_distinct(first),
        all_distinct(second),
    ensures
        all_distinct(first + second),
{
    let joined = first + second;
    assert forall|k: int| 0 <= k < joined.len() implies (#[trigger] joined[k]).qubits.no_duplicates() by {
        if k < first.len() {
            assert(first[k].qubits.no_duplicates());
        } else {
            assert(second[k - first.len()].qubits.no_duplicates());
        }
    }
}

/// A sequence of gates on one qubit or on two different qubits names no
/// qubit twice in a gate.
pub proof fn lemma_small_gates_are_distinct(ops: Seq<OperationView>)
    requires
        forall|k: int|
            0 <= k < ops.len() ==> (#[trigger] ops[k]).qubits.len() == 1 || (ops[k].qubits.len()
                == 2 && ops[k].qubits[0] != ops[k].qubits[1]),
    ensures
        all_distinct(ops),
{
}

/// The fully controlled NOT on distinct qubits consists of gates on distinct qubits.
pub proof fn lemma_multi_cnot_keeps_distinct(qubits: Seq<usize>)
    requires
        qubits.len() >= 1,
        qubits.no_duplicates(),
    ensures
        all_distinct(multi_cnot_circuit(qubits)),
    decreases qubits.len(), 0nat,
{
    let n = qubits.len() as int;
    if n <= 3 {
        if n == 2 {
            assert(qubits[0] != qubits[1]);
        }
        if n == 3 {
            assert(qubits[0] != qubits[1] && qubits[0] != qubits[2] && qubits[1] != qubits[2]);
        }
        lemma_small_gates_are_distinct(multi_cnot_circuit(qubits));
    } else {
        let target = qubits.last();
        let controls = qubits.drop_last();
        assert forall|i: int| 0 <= i < controls.len() implies controls[i] != target by {
            assert(qubits[i] != qubits[n - 1]);
        }
        assert forall|i: int, j: int|
            0 <= i < controls.len() && 0 <= j < controls.len() && i != j implies controls[i]
            != controls[j] by {
            assert(qubits[i] != qubits[j]);
        }
        let cap = seq![hadamard(target)];
        lemma_small_gates_are_distinct(cap);
        lemma_multi_phase_keeps_distinct(controls, target, 0);
        lemma_distinct_joined(cap, multi_phase_circuit(controls, target, 0));
        lemma_distinct_joined(cap + multi_phase_circuit(controls, target, 0), cap);
    }
}

/// The controlled phase on distinct qubits consists of gates on distinct qubits.
pub proof fn lemma_multi_phase_keeps_distinct(controls: Seq<usize>, target: usize, halvings: nat)
    requires
        controls.len() >= 1,
        controls.no_duplicates(),
        forall|i: int| 0 <= i < controls.len() ==> controls[i] != target,
    ensures
        all_distinct(multi_phase_circuit(controls, target, halvings)),
    decreases controls.len(), 1nat,
{
    let n = controls.len() as int;
    if n <= 1 {
        assert(controls[0] != target);
        lemma_small_gates_are_distinct(multi_phase_circuit(controls, target, halvings));
    } else {
        let last = controls.last();
        assert(controls[n - 1] != target);
        let up = seq![controlled_phase(last, target, pi_fraction(halvings + 1))];
        let down = seq![controlled_phase(last, target, negative_pi_fraction(halvings + 1))];
        let flip = multi_cnot_circuit(controls);
        let rest = multi_phase_circuit(controls.drop_last(), target, halvings + 1);
        lemma_small_gates_are_distinct(up);
        lemma_small_gates_are_distinct(down);
        lemma_multi_cnot_keeps_distinct(controls);
        let shorter = controls.drop_last();
        assert forall|i: int| 0 <= i < shorter.len() implies shorter[i] != target by {
            assert(controls[i] != target);
        }
        assert forall|i: int, j: int|
            0 <= i < shorter.len() && 0 <= j < shorter.len() && i != j implies shorter[i]
            != shorter[j] by {
            assert(controls[i] != controls[j]);
        }
        lemma_multi_phase_keeps_distinct(shorter, target, halvings + 1);
        lemma_distinct_joined(up, flip);
        lemma_distinct_joined(up + flip, down);
        lemma_distinct_joined(up + flip + down, flip);
        lemma_distinct_joined(up + flip + down + flip, rest);
    }
}

/// The Fourier rows on distinct qubits consist of gates on distinct qubits.
pub proof fn lemma_fourier_rows_keep_distinct(qubits: Seq<usize>, count: nat)
    requires
        count <= qubits.len(),
        qubits.no_duplicates(),
    ensures
        all_distinct(fourier_rows(qubits, count)),
    decreases count,
{
    if count > 0 {
        lemma_fourier_rows_keep_distinct(qubits, (count - 1) as nat);
        let row = fourier_row(qubits, count - 1);
        assert forall|k: int| 0 <= k < row.len() implies (#[trigger] row[k]).qubits.len() == 1 || (
        row[k].qubits.len() == 2 && row[k].qubits[0] != row[k].qubits[1]) by {
            if k > 0 {
                assert(qubits[count - 1 + k] != qubits[count - 1]);
            }
        }
        lemma_small_gates_are_distinct(row);
        lemma_distinct_joined(fourier_rows(qubits, (count - 1) as nat), row);
    }
}

/// The decomposition of a composite gate on distinct qubits consists of
/// gates on distinct qubits.
pub proof fn lemma_decomposition_keeps_distinct(op: OperationView)
    requires
        op.is_decomposable(),
        op.qubits.no_duplicates(),
    ensures
        all_distinct(op.decomposition()),
{
    let qubits = op.qubits;
    let n = qubits.len() as int;
    match op.kind {
        OperationKind::MultiQubitMS | OperationKind::MultiQubitZZ => {
            let theta = op.parameters[0];
            let core = zz_circuit(qubits, theta);
            assert forall|k: int| 0 <= k < core.len() implies (#[trigger] core[k]).qubits.len() == 1
                || (core[k].qubits.len() == 2 && core[k].qubits[0] != core[k].qubits[1]) by {
                if k < n - 1 {
                    assert(core[k] == ladder(qubits)[k]);
                    assert(qubits[k] != qubits[k + 1]);
                } else if k > n - 1 {
                    let i = k - n;
                    assert(core[k] == mirrored_ladder(qubits)[i]);
                    assert(qubits[n - 2 - i] != qubits[n - 1 - i]);
                }
            }
            lemma_small_gates_are_distinct(core);
            lemma_small_gates_are_distinct(hadamard_layer(qubits));
            lemma_distinct_joined(hadamard_layer(qubits), core);
            lemma_distinct_joined(hadamard_layer(qubits) + core, hadamard_layer(qubits));
        },
        OperationKind::MultiQubitCNOT => {
            lemma_multi_cnot_keeps_distinct(qubits);
        },
        _ => {
            lemma_fourier_rows_keep_distinct(qubits, qubits.len());
            let layer = swap_layer(qubits);
            assert forall|k: int| 0 <= k < layer.len() implies (#[trigger] layer[k]).qubits.len()
                == 1 || (layer[k].qubits.len() == 2 && layer[k].qubits[0]
                != layer[k].qubits[1]) by {
                assert(qubits[k] != qubits[n - 1 - k]);
            }
            lemma_small_gates_are_distinct(layer);
            lemma_distinct_joined(fourier_rows(qubits, qubits.len()), layer);
            let forward = forward_fourier_circuit(qubits, op.flags[0]);
            let mirrored = reversed_and_negated(forward);
            assert forall|k: int| 0 <= k < mirrored.len() implies (
            #[trigger] mirrored[k]).qubits.no_duplicates() by {
                assert(forward[forward.len() - 1 - k].qubits.no_duplicates());
            }
        },
    }
}

/// The same value at every position of an operation with that many parameters.
pub open spec fn value_for_all(op: OperationView, value: Option<u64>) -> Seq<Option<u64>> {
    Seq::new(op.parameters.len(), |i: int| value)
}

/// Every operation of the sequence with each symbolic parameter replaced by
/// the given value.
pub open spec fn resolved_everywhere(ops: Seq<OperationView>, value: Option<u64>) -> Seq<
    OperationView,
> {
    Seq::new(ops.len(), |k: int| ops[k].resolved_with(value_for_all(ops[k], value)))
}

/// Resolving the angle of a gate and placing it into a sequence that holds
/// only that angle is the same as resolving the sequence.
pub proof fn lemma_resolving_the_only_parameter(
    before: Seq<OperationView>,
    after: Seq<OperationView>,
    theta: ParameterView,
    value: Option<u64>,
)
    requires
        has_only_parameter(before, theta),
        after.len() == before.len(),
        forall|k: int|
            0 <= k < before.len() ==> (#[trigger] after[k]).parameters.len()
                == before[k].parameters.len() && after[k] == (OperationView {
                parameters: after[k].parameters,
                ..before[k]
            }),
        has_only_parameter(after, resolved_parameter(theta, value)),
    ensures
        after == resolved_everywhere(before, value),
{
    let resolved = resolved_everywhere(before, value);
    assert forall|k: int| 0 <= k < before.len() implies after[k] == resolved[k] by {
        assert forall|i: int| 0 <= i < before[k].parameters.len() implies after[k].parameters[i]
            == resolved[k].parameters[i] by {
            assert(before[k].parameters[i] == theta);
            assert(after[k].parameters[i] == resolved_parameter(theta, value));
        }
        assert(after[k].parameters =~= resolved[k].parameters);
    }
    assert(after =~= resolved);
}

/// A sequence without symbolic parameters is left as it is by resolving.
pub proof fn lemma_resolving_a_concrete_sequence(ops: Seq<OperationView>, value: Option<u64>)
    requires
        all_concrete(ops),
    ensures
        resolved_everywhere(ops, value) == ops,
{
    assert forall|k: int| 0 <= k < ops.len() implies resolved_everywhere(ops, value)[k]
        == ops[k] by {
        assert(!ops[k].is_parametrized());
        lemma_concrete_is_fixed(ops[k], value_for_all(ops[k], value));
    }
    assert(resolved_everywhere(ops, value) =~= ops);
}

/// The gates of a ZZ-like circuit are those of the same circuit with another
/// angle, but for the angle.
pub proof fn lemma_zz_depends_on_angle_by_placement(
    qubits: Seq<usize>,
    first: ParameterView,
    second: ParameterView,
)
    requires
        qubits.len() >= 1,
    ensures
        zz_circuit(qubits, first).len() == zz_circuit(qubits, second).len(),
        forall|k: int|
            0 <= k < zz_circuit(qubits, first).len() ==> (#[trigger] zz_circuit(
                qubits,
                second,
            )[k]).parameters.len() == zz_circuit(qubits, first)[k].parameters.len() && zz_circuit(
                qubits,
                second,
            )[k] == (OperationView {
                parameters: zz_circuit(qubits, second)[k].parameters,
                ..zz_circuit(qubits, first)[k]
            }),
{
    let a = zz_circuit(qubits, first);
    let b = zz_circuit(qubits, second);
    let n = qubits.len() as int;
    assert(ladder(qubits).len() == n - 1);
    assert(mirrored_ladder(qubits).len() == n - 1);
    assert forall|k: int| 0 <= k < a.len() implies (#[trigger] b[k]).parameters.len()
        == a[k].parameters.len() && b[k] == (OperationView {
        parameters: b[k].parameters,
        ..a[k]
    }) by {
        if k < n - 1 {
            assert(a[k] == ladder(qubits)[k] && b[k] == ladder(qubits)[k]);
        } else if k > n - 1 {
            assert(a[k] == mirrored_ladder(qubits)[k - n] && b[k] == mirrored_ladder(qubits)[k
                - n]);
        }
    }
}

/// Decomposing a gate whose parameters were resolved gives the resolved
/// decomposition: a rule places the parameters and never evaluates them.
pub proof fn lemma_decomposition_commutes_with_resolving(op: OperationView, value: Option<u64>)
    requires
        op.is_decomposable(),
    ensures
        op.resolved_with(value_for_all(op, value)).is_decomposable(),
        op.resolved_with(value_for_all(op, value)).decomposition() == resolved_everywhere(
            op.decomposition(),
            value,
        ),
{
    let resolved = op.resolved_with(value_for_all(op, value));
    match op.kind {
        OperationKind::MultiQubitZZ => {
            let theta = op.parameters[0];
            let after = resolved_parameter(theta, value);
            assert(resolved.parameters[0] == after);
            lemma_zz_holds_its_angle(op.qubits, theta);
            lemma_zz_holds_its_angle(op.qubits, after);
            lemma_zz_depends_on_angle_by_placement(op.qubits, theta, after);
            lemma_resolving_the_only_parameter(
                zz_circuit(op.qubits, theta),
                zz_circuit(op.qubits, after),
                theta,
                value,
            );
        },
        OperationKind::MultiQubitMS => {
            let theta = op.parameters[0];
            let after = resolved_parameter(theta, value);
            assert(resolved.parameters[0] == after);
            lemma_ms_holds_its_angle(op.qubits, theta);
            lemma_ms_holds_its_angle(op.qubits, after);
            lemma_zz_depends_on_angle_by_placement(op.qubits, theta, after);
            lemma_zz_holds_its_angle(op.qubits, theta);
            lemma_zz_holds_its_angle(op.qubits, after);
            let a = ms_circuit(op.qubits, theta);
            let b = ms_circuit(op.qubits, after);
            let n = op.qubits.len() as int;
            assert(hadamard_layer(op.qubits).len() == n);
            assert forall|k: int| 0 <= k < a.len() implies (#[trigger] b[k]).parameters.len()
                == a[k].parameters.len() && b[k] == (OperationView {
                parameters: b[k].parameters,
                ..a[k]
            }) by {
                if k < n {
                    assert(a[k] == hadamard_layer(op.qubits)[k] && b[k] == hadamard_layer(
                        op.qubits,
                    )[k]);
                } else if k < 3 * n - 1 {
                    assert(a[k] == zz_circuit(op.qubits, theta)[k - n]);
                    assert(b[k] == zz_circuit(op.qubits, after)[k - n]);
                } else {
                    assert(a[k] == hadamard_layer(op.qubits)[k - (3 * n - 1)]);
                    assert(b[k] == hadamard_layer(op.qubits)[k - (3 * n - 1)]);
                }
            }
            lemma_resolving_the_only_parameter(a, b, theta, value);
        },
        _ => {
            lemma_concrete_is_fixed(op, value_for_all(op, value));
            lemma_decomposition_keeps_concreteness(op);
            lemma_resolving_a_concrete_sequence(op.decomposition(), value);
        },
    }
}

} // verus!
