//! The closed set of operations, their structural view, and the analyses and
//! rewrites that every operation supports.

use crate::error::OperationError;
use crate::parameter::{Parameter, ParameterView};
use std::collections::{HashMap, HashSet};
use vstd::prelude::*;

verus! {

/// The variant of an operation, without its fields.
#[derive(Clone, Copy, Debug, PartialEq, Eq, Structural)]
pub enum OperationKind {
    Hadamard,
    PauliX,
    TGate,
    RotateX,
    RotateZ,
    PhaseShiftState1,
    CNOT,
    SWAP,
    ControlledPhaseShift,
    MultiQubitMS,
    MultiQubitZZ,
    MultiQubitCNOT,
    QFT,
    CallDefinedGate,
    PragmaGlobalPhase,
    PragmaRepeatedMeasurement,
    DefinitionBit,
    MeasureQubit,
}

/// A gate, measurement, pragma or definition.
///
/// Qubit roles are listed in their declared order (a control before its
/// target). An operation is never changed in place: each rewrite gives a new
/// value.
#[derive(Clone, Debug, PartialEq, Eq)]
pub enum Operation {
    /// The Hadamard gate.
    Hadamard { qubit: usize },
    /// The NOT gate.
    PauliX { qubit: usize },
    /// The T gate: the phase pi / 4 on the set state.
    TGate { qubit: usize },
    /// A rotation about the X axis by the angle `theta`.
    RotateX { qubit: usize, theta: Parameter },
    /// A rotation about the Z axis by the angle `theta`.
    RotateZ { qubit: usize, theta: Parameter },
    /// The phase `theta` on the set state.
    PhaseShiftState1 { qubit: usize, theta: Parameter },
    /// The controlled NOT.
    CNOT { control: usize, target: usize },
    /// The swap of two qubits.
    SWAP { control: usize, target: usize },
    /// The phase `theta` on the state in which control and target are set.
    ControlledPhaseShift { control: usize, target: usize, theta: Parameter },
    /// The Molmer-Sorensen-like interaction of all qubits, about their joint X axis.
    MultiQubitMS { qubits: Vec<usize>, theta: Parameter },
    /// The ZZ-like interaction of all qubits, about their joint Z axis.
    MultiQubitZZ { qubits: Vec<usize>, theta: Parameter },
    /// The NOT on the last qubit, controlled by all others.
    MultiQubitCNOT { qubits: Vec<usize> },
    /// The quantum Fourier transform, or its inverse, with or without the final
    /// reversal of the qubits.
    QFT { qubits: Vec<usize>, swaps: bool, inverse: bool },
    /// The call of a gate that is defined elsewhere under a name.
    CallDefinedGate { gate_name: String, qubits: Vec<usize>, free_parameters: Vec<Parameter> },
    /// A global phase, which touches no qubit.
    PragmaGlobalPhase { phase: Parameter },
    /// The repeated measurement of all qubits into a register.
    PragmaRepeatedMeasurement { readout: String, number_measurements: usize },
    /// The definition of a classical bit register.
    DefinitionBit { name: String, length: usize, is_output: bool },
    /// The measurement of one qubit into one place of a register.
    MeasureQubit { qubit: usize, readout: String, readout_index: usize },
}

/// The structural record of an operation: its variant and, in declared
/// order, its qubit roles, parameters, flags, names and sizes.
pub struct OperationView {
    pub kind: OperationKind,
    pub qubits: Seq<usize>,
    pub parameters: Seq<ParameterView>,
    pub flags: Seq<bool>,
    pub names: Seq<Seq<char>>,
    pub sizes: Seq<usize>,
}

/// How an operation relates to the qubits of a circuit.
#[derive(Clone, Copy, Debug, PartialEq, Eq, Structural)]
pub enum Involvement {
    /// It acts on every qubit the circuit may ever use.
    All,
    /// It has no qubit semantics.
    Nothing,
    /// It acts on the qubits of its role fields.
    Listed,
}

/// The qubits an operation touches.
#[derive(Debug, PartialEq, Eq)]
pub enum InvolvedQubits {
    /// Every qubit of the containing circuit.
    All,
    /// No qubit at all.
    Nothing,
    /// Exactly the qubits of the set.
    Qubits(HashSet<usize>),
}

/// The mathematical value of an [`InvolvedQubits`].
pub enum InvolvedQubitsView {
    All,
    Nothing,
    Qubits(Set<usize>),
}

impl View for InvolvedQubits {
    type V = InvolvedQubitsView;

    open spec fn view(&self) -> InvolvedQubitsView {
        match self {
            InvolvedQubits::All => InvolvedQubitsView::All,
            InvolvedQubits::Nothing => InvolvedQubitsView::Nothing,
            InvolvedQubits::Qubits(set) => InvolvedQubitsView::Qubits(set@),
        }
    }
}

impl OperationKind {
    /// Global pragmas involve all qubits, annotations and definitions none,
    /// every other variant the qubits of its roles.
    pub open spec fn involvement(self) -> Involvement {
        match self {
            OperationKind::PragmaRepeatedMeasurement => Involvement::All,
            OperationKind::PragmaGlobalPhase | OperationKind::DefinitionBit => Involvement::Nothing,
            _ => Involvement::Listed,
        }
    }
}

impl OperationKind {
    /// The name of the variant.
    pub open spec fn name(self) -> Seq<char> {
        match self {
            OperationKind::Hadamard => "Hadamard"@,
            OperationKind::PauliX => "PauliX"@,
            OperationKind::TGate => "TGate"@,
            OperationKind::RotateX => "RotateX"@,
            OperationKind::RotateZ => "RotateZ"@,
            OperationKind::PhaseShiftState1 => "PhaseShiftState1"@,
            OperationKind::CNOT => "CNOT"@,
            OperationKind::SWAP => "SWAP"@,
            OperationKind::ControlledPhaseShift => "ControlledPhaseShift"@,
            OperationKind::MultiQubitMS => "MultiQubitMS"@,
            OperationKind::MultiQubitZZ => "MultiQubitZZ"@,
            OperationKind::MultiQubitCNOT => "MultiQubitCNOT"@,
            OperationKind::QFT => "QFT"@,
            OperationKind::CallDefinedGate => "CallDefinedGate"@,
            OperationKind::PragmaGlobalPhase => "PragmaGlobalPhase"@,
            OperationKind::PragmaRepeatedMeasurement => "PragmaRepeatedMeasurement"@,
            OperationKind::DefinitionBit => "DefinitionBit"@,
            OperationKind::MeasureQubit => "MeasureQubit"@,
        }
    }

    /// The name of the family of the variant.
    pub open spec fn family(self) -> Seq<char> {
        match self {
            OperationKind::Hadamard
            | OperationKind::PauliX
            | OperationKind::TGate
            | OperationKind::RotateX
            | OperationKind::RotateZ
            | OperationKind::PhaseShiftState1 => "SingleQubitGateOperation"@,
            OperationKind::CNOT | OperationKind::SWAP | OperationKind::ControlledPhaseShift => {
                "TwoQubitGateOperation"@
            },
            OperationKind::MultiQubitMS
            | OperationKind::MultiQubitZZ
            | OperationKind::MultiQubitCNOT
            | OperationKind::QFT
            | OperationKind::CallDefinedGate => "MultiQubitGateOperation"@,
            OperationKind::PragmaGlobalPhase | OperationKind::PragmaRepeatedMeasurement => {
                "PragmaOperation"@
            },
            OperationKind::DefinitionBit => "Definition"@,
            OperationKind::MeasureQubit => "Measurement"@,
        }
    }

    /// The name of the variant.
    pub fn hqslang(self) -> (r: &'static str)
        ensures
            r@ == self.name(),
    {
        match self {
            OperationKind::Hadamard => "Hadamard",
            OperationKind::PauliX => "PauliX",
            OperationKind::TGate => "TGate",
            OperationKind::RotateX => "RotateX",
            OperationKind::RotateZ => "RotateZ",
            OperationKind::PhaseShiftState1 => "PhaseShiftState1",
            OperationKind::CNOT => "CNOT",
            OperationKind::SWAP => "SWAP",
            OperationKind::ControlledPhaseShift => "ControlledPhaseShift",
            OperationKind::MultiQubitMS => "MultiQubitMS",
            OperationKind::MultiQubitZZ => "MultiQubitZZ",
            OperationKind::MultiQubitCNOT => "MultiQubitCNOT",
            OperationKind::QFT => "QFT",
            OperationKind::CallDefinedGate => "CallDefinedGate",
            OperationKind::PragmaGlobalPhase => "PragmaGlobalPhase",
            OperationKind::PragmaRepeatedMeasurement => "PragmaRepeatedMeasurement",
            OperationKind::DefinitionBit => "DefinitionBit",
            OperationKind::MeasureQubit => "MeasureQubit",
        }
    }

    /// The name of the family of the variant.
    pub fn family_tag(self) -> (r: &'static str)
        ensures
            r@ == self.family(),
    {
        match self {
            OperationKind::Hadamard
            | OperationKind::PauliX
            | OperationKind::TGate
            | OperationKind::RotateX
            | OperationKind::RotateZ
            | OperationKind::PhaseShiftState1 => "SingleQubitGateOperation",
            OperationKind::CNOT | OperationKind::SWAP | OperationKind::ControlledPhaseShift => {
                "TwoQubitGateOperation"
            },
            OperationKind::MultiQubitMS
            | OperationKind::MultiQubitZZ
            | OperationKind::MultiQubitCNOT
            | OperationKind::QFT
            | OperationKind::CallDefinedGate => "MultiQubitGateOperation",
            OperationKind::PragmaGlobalPhase | OperationKind::PragmaRepeatedMeasurement => {
                "PragmaOperation"
            },
            OperationKind::DefinitionBit => "Definition",
            OperationKind::MeasureQubit => "Measurement",
        }
    }
}

impl View for Operation {
    type V = OperationView;

    open spec fn view(&self) -> OperationView {
        match self {
            Operation::Hadamard { qubit } => plain_view(OperationKind::Hadamard, seq![*qubit], seq![]),
            Operation::PauliX { qubit } => plain_view(OperationKind::PauliX, seq![*qubit], seq![]),
            Operation::TGate { qubit } => plain_view(OperationKind::TGate, seq![*qubit], seq![]),
            Operation::RotateX { qubit, theta } => plain_view(
                OperationKind::RotateX,
                seq![*qubit],
                seq![theta@],
            ),
            Operation::RotateZ { qubit, theta } => plain_view(
                OperationKind::RotateZ,
                seq![*qubit],
                seq![theta@],
            ),
            Operation::PhaseShiftState1 { qubit, theta } => plain_view(
                OperationKind::PhaseShiftState1,
                seq![*qubit],
                seq![theta@],
            ),
            Operation::CNOT { control, target } => plain_view(
                OperationKind::CNOT,
                seq![*control, *target],
                seq![],
            ),
            Operation::SWAP { control, target } => plain_view(
                OperationKind::SWAP,
                seq![*control, *target],
                seq![],
            ),
            Operation::ControlledPhaseShift { control, target, theta } => plain_view(
                OperationKind::ControlledPhaseShift,
                seq![*control, *target],
                seq![theta@],
            ),
            Operation::MultiQubitMS { qubits, theta } => plain_view(
                OperationKind::MultiQubitMS,
                qubits@,
                seq![theta@],
            ),
            Operation::MultiQubitZZ { qubits, theta } => plain_view(
                OperationKind::MultiQubitZZ,
                qubits@,
                seq![theta@],
            ),
            Operation::MultiQubitCNOT { qubits } => plain_view(
                OperationKind::MultiQubitCNOT,
                qubits@,
                seq![],
            ),
            Operation::QFT { qubits, swaps, inverse } => OperationView {
                kind: OperationKind::QFT,
                qubits: qubits@,
                parameters: seq![],
                flags: seq![*swaps, *inverse],
                names: seq![],
                sizes: seq![],
            },
            Operation::CallDefinedGate { gate_name, qubits, free_parameters } => OperationView {
                kind: OperationKind::CallDefinedGate,
                qubits: qubits@,
                parameters: crate::parameter::parameter_views(free_parameters@),
                flags: seq![],
                names: seq![gate_name@],
                sizes: seq![],
            },
            Operation::PragmaGlobalPhase { phase } => plain_view(
                OperationKind::PragmaGlobalPhase,
                seq![],
                seq![phase@],
            ),
            Operation::PragmaRepeatedMeasurement { readout, number_measurements } => OperationView {
                kind: OperationKind::PragmaRepeatedMeasurement,
                qubits: seq![],
                parameters: seq![],
                flags: seq![],
                names: seq![readout@],
                sizes: seq![*number_measurements],
            },
            Operation::DefinitionBit { name, length, is_output } => OperationView {
                kind: OperationKind::DefinitionBit,
                qubits: seq![],
                parameters: seq![],
                flags: seq![*is_output],
                names: seq![name@],
                sizes: seq![*length],
            },
            Operation::MeasureQubit { qubit, readout, readout_index } => OperationView {
                kind: OperationKind::MeasureQubit,
                qubits: seq![*qubit],
                parameters: seq![],
                flags: seq![],
                names: seq![readout@],
                sizes: seq![*readout_index],
            },
        }
    }
}

/// The record of a gate that has only qubit roles and parameters.
pub open spec fn plain_view(
    kind: OperationKind,
    qubits: Seq<usize>,
    parameters: Seq<ParameterView>,
) -> OperationView {
    OperationView { kind, qubits, parameters, flags: seq![], names: seq![], sizes: seq![] }
}

/// The mapping has an entry for every qubit of the sequence.
pub open spec fn covers(mapping: Map<usize, usize>, qubits: Seq<usize>) -> bool {
    forall|i: int| 0 <= i < qubits.len() ==> mapping.contains_key(#[trigger] qubits[i])
}

/// Position `index` holds the first qubit of the sequence that the mapping lacks.
pub open spec fn first_missing_at(mapping: Map<usize, usize>, qubits: Seq<usize>, index: int) -> bool {
    &&& 0 <= index < qubits.len()
    &&& !mapping.contains_key(qubits[index])
    &&& covers(mapping, qubits.take(index))
}

/// Each qubit of the sequence replaced by its image under the mapping.
pub open spec fn mapped_qubits(mapping: Map<usize, usize>, qubits: Seq<usize>) -> Seq<usize> {
    Seq::new(qubits.len(), |i: int| mapping[qubits[i]])
}

impl OperationView {
    /// The qubits the operation touches.
    pub open spec fn involved_qubits(self) -> InvolvedQubitsView {
        match self.kind.involvement() {
            Involvement::All => InvolvedQubitsView::All,
            Involvement::Nothing => InvolvedQubitsView::Nothing,
            Involvement::Listed => InvolvedQubitsView::Qubits(self.qubits.to_set()),
        }
    }

    /// The mapping has an entry for every involved qubit.
    pub open spec fn is_covered_by(self, mapping: Map<usize, usize>) -> bool {
        covers(mapping, self.qubits)
    }

    /// The operation with every qubit role sent through the mapping; roles
    /// keep their order, all other fields are unchanged.
    pub open spec fn remapped(self, mapping: Map<usize, usize>) -> OperationView {
        OperationView { qubits: mapped_qubits(mapping, self.qubits), ..self }
    }

    /// Whether any parameter still holds a symbolic expression.
    pub open spec fn is_parametrized(self) -> bool {
        exists|i: int| 0 <= i < self.parameters.len() && (#[trigger] self.parameters[i]).is_parametrized()
    }

    /// Only variants that act on listed qubits carry qubit roles.
    pub open spec fn well_formed(self) -> bool {
        self.kind.involvement() != Involvement::Listed ==> self.qubits.len() == 0
    }
}

/// A copy of a list of qubits.
pub fn copy_qubits(qubits: &Vec<usize>) -> (r: Vec<usize>)
    ensures
        r@ == qubits@,
{
    let mut copy: Vec<usize> = Vec::new();
    let mut i: usize = 0;
    while i < qubits.len()
        invariant
            i <= qubits.len(),
            copy@ == qubits@.take(i as int),
        decreases qubits.len() - i,
    {
        copy.push(qubits[i]);
        assert(copy@ =~= qubits@.take(i + 1));
        i += 1;
    }
    assert(qubits@.take(qubits.len() as int) =~= qubits@);
    copy
}

/// A copy of a list of parameters.
pub fn copy_parameters(parameters: &Vec<Parameter>) -> (r: Vec<Parameter>)
    ensures
        crate::parameter::parameter_views(r@) == crate::parameter::parameter_views(parameters@),
{
    let mut copy: Vec<Parameter> = Vec::new();
    let mut i: usize = 0;
    while i < parameters.len()
        invariant
            i <= parameters.len(),
            copy.len() == i,
            forall|j: int| 0 <= j < i ==> (#[trigger] copy@[j])@ == parameters@[j]@,
        decreases parameters.len() - i,
    {
        copy.push(parameters[i].duplicate());
        i += 1;
    }
    assert(crate::parameter::parameter_views(copy@) =~= crate::parameter::parameter_views(
        parameters@,
    ));
    copy
}

/// Sends every qubit of the list through the mapping.
///
/// Succeeds exactly when the mapping has an entry for each of them; else the
/// first qubit without an entry is cited.
pub fn remap_qubit_list(qubits: &Vec<usize>, mapping: &HashMap<usize, usize>) -> (r: Result<
    Vec<usize>,
    OperationError,
>)
    ensures
        match r {
            Ok(mapped) => covers(mapping@, qubits@) && mapped@ == mapped_qubits(mapping@, qubits@),
            Err(OperationError::Remapping { qubit }) => exists|i: int|
                first_missing_at(mapping@, qubits@, i) && qubit == qubits@[i],
            Err(_) => false,
        },
{
    broadcast use vstd::std_specs::hash::group_hash_axioms;

    let mut mapped: Vec<usize> = Vec::new();
    let mut i: usize = 0;
    while i < qubits.len()
        invariant
            i <= qubits.len(),
            covers(mapping@, qubits@.take(i as int)),
            mapped@ == mapped_qubits(mapping@, qubits@.take(i as int)),
        decreases qubits.len() - i,
    {
        let qubit: usize = qubits[i];
        match mapping.get(&qubit) {
            Some(image) => {
                mapped.push(*image);
                assert(mapped@ =~= mapped_qubits(mapping@, qubits@.take(i + 1)));
                assert forall|j: int| 0 <= j < i + 1 implies mapping@.contains_key(
                    #[trigger] qubits@.take(i + 1)[j],
                ) by {
                    if j < i {
                        assert(qubits@.take(i as int)[j] == qubits@[j]);
                    }
                }
            },
            None => {
                assert(first_missing_at(mapping@, qubits@, i as int));
                return Err(OperationError::Remapping { qubit });
            },
        }
        i += 1;
    }
    assert(qubits@.take(qubits.len() as int) =~= qubits@);
    Ok(mapped)
}

/// Adds the qubits of a list to a set.
pub fn insert_qubits(set: &mut HashSet<usize>, qubits: &Vec<usize>)
    ensures
        final(set)@ == old(set)@.union(qubits@.to_set()),
{
    broadcast use vstd::std_specs::hash::group_hash_axioms;

    let mut i: usize = 0;
    while i < qubits.len()
        invariant
            i <= qubits.len(),
            set@ == old(set)@.union(qubits@.take(i as int).to_set()),
        decreases qubits.len() - i,
    {
        set.insert(qubits[i]);
        proof {
            let before = qubits@.take(i as int);
            let after = qubits@.take(i + 1);
            assert(after =~= before.push(qubits@[i as int]));
            assert forall|q: usize| after.to_set().contains(q) <==> before.to_set().insert(
                qubits@[i as int],
            ).contains(q) by {
                if after.contains(q) {
                    let k = choose|k: int| 0 <= k < after.len() && after[k] == q;
                    if k < i {
                        assert(before[k] == q);
                    }
                }
                if before.contains(q) {
                    let k = choose|k: int| 0 <= k < before.len() && before[k] == q;
                    assert(after[k] == q);
                }
                assert(after[i as int] == qubits@[i as int]);
            }
            assert(after.to_set() =~= before.to_set().insert(qubits@[i as int]));
            assert(set@ =~= old(set)@.union(after.to_set()));
        }
        i += 1;
    }
    assert(qubits@.take(qubits.len() as int) =~= qubits@);
}

/// The set of the qubits of a list.
pub fn qubit_set(qubits: &Vec<usize>) -> (r: HashSet<usize>)
    ensures
        r@ == qubits@.to_set(),
{
    let mut set: HashSet<usize> = HashSet::new();
    insert_qubits(&mut set, qubits);
    assert(set@ =~= qubits@.to_set());
    set
}

impl InvolvedQubitsView {
    /// The mapping has an entry for every qubit of the set; of all qubits or
    /// of none, nothing is asked.
    pub open spec fn is_within(self, mapping: Map<usize, usize>) -> bool {
        match self {
            InvolvedQubitsView::Qubits(set) => set.subset_of(mapping.dom()),
            _ => true,
        }
    }

    /// The image of the qubits under the mapping.
    pub open spec fn image(self, mapping: Map<usize, usize>) -> InvolvedQubitsView {
        match self {
            InvolvedQubitsView::Qubits(set) => InvolvedQubitsView::Qubits(
                set.map(|q: usize| mapping[q]),
            ),
            _ => self,
        }
    }
}

/// The record of every operation is well-formed.
pub proof fn lemma_view_is_well_formed(op: Operation)
    ensures
        op@.well_formed(),
{
}

/// A mapping covers the qubit roles of an operation exactly when it is total
/// over the involved qubits of the operation.
pub proof fn lemma_covered_iff_total(op: OperationView, mapping: Map<usize, usize>)
    requires
        op.well_formed(),
    ensures
        op.is_covered_by(mapping) <==> op.involved_qubits().is_within(mapping),
{
    if op.kind.involvement() == Involvement::Listed {
        let set = op.qubits.to_set();
        if op.is_covered_by(mapping) {
            assert forall|q: usize| set.contains(q) implies mapping.dom().contains(q) by {
                let i = choose|i: int| 0 <= i < op.qubits.len() && op.qubits[i] == q;
                assert(mapping.contains_key(op.qubits[i]));
            }
        }
        if set.subset_of(mapping.dom()) {
            assert forall|i: int| 0 <= i < op.qubits.len() implies mapping.contains_key(
                #[trigger] op.qubits[i],
            ) by {
                assert(set.contains(op.qubits[i]));
            }
        }
    }
}

/// The qubits that a remapped operation involves are the images of the
/// qubits that the operation involves.
pub proof fn lemma_remapped_involves_image(op: OperationView, mapping: Map<usize, usize>)
    ensures
        op.remapped(mapping).involved_qubits() == op.involved_qubits().image(mapping),
{
    if op.kind.involvement() == Involvement::Listed {
        let before = op.qubits.to_set();
        let after = mapped_qubits(mapping, op.qubits).to_set();
        let image = before.map(|q: usize| mapping[q]);
        assert forall|q: usize| after.contains(q) <==> image.contains(q) by {
            if after.contains(q) {
                let i = choose|i: int|
                    0 <= i < op.qubits.len() && mapped_qubits(mapping, op.qubits)[i] == q;
                assert(before.contains(op.qubits[i]));
            }
            if image.contains(q) {
                let p = choose|p: usize| before.contains(p) && q == mapping[p];
                let i = choose|i: int| 0 <= i < op.qubits.len() && op.qubits[i] == p;
                assert(mapped_qubits(mapping, op.qubits)[i] == q);
            }
        }
        assert(after =~= image);
    }
}

impl Operation {
    /// The variant of the operation.
    pub fn kind(&self) -> (r: OperationKind)
        ensures
            r == self@.kind,
    {
        match self {
            Operation::Hadamard { .. } => OperationKind::Hadamard,
            Operation::PauliX { .. } => OperationKind::PauliX,
            Operation::TGate { .. } => OperationKind::TGate,
            Operation::RotateX { .. } => OperationKind::RotateX,
            Operation::RotateZ { .. } => OperationKind::RotateZ,
            Operation::PhaseShiftState1 { .. } => OperationKind::PhaseShiftState1,
            Operation::CNOT { .. } => OperationKind::CNOT,
            Operation::SWAP { .. } => OperationKind::SWAP,
            Operation::ControlledPhaseShift { .. } => OperationKind::ControlledPhaseShift,
            Operation::MultiQubitMS { .. } => OperationKind::MultiQubitMS,
            Operation::MultiQubitZZ { .. } => OperationKind::MultiQubitZZ,
            Operation::MultiQubitCNOT { .. } => OperationKind::MultiQubitCNOT,
            Operation::QFT { .. } => OperationKind::QFT,
            Operation::CallDefinedGate { .. } => OperationKind::CallDefinedGate,
            Operation::PragmaGlobalPhase { .. } => OperationKind::PragmaGlobalPhase,
            Operation::PragmaRepeatedMeasurement { .. } => OperationKind::PragmaRepeatedMeasurement,
            Operation::DefinitionBit { .. } => OperationKind::DefinitionBit,
            Operation::MeasureQubit { .. } => OperationKind::MeasureQubit,
        }
    }

    /// The name of the variant of the operation.
    pub fn hqslang(&self) -> (r: &'static str)
        ensures
            r@ == self@.kind.name(),
    {
        self.kind().hqslang()
    }

    /// The tags of the operation: the common tag, the family of its
    /// variant, and the name of its variant.
    pub fn tags(&self) -> (r: Vec<&'static str>)
        ensures
            r@.len() == 3,
            r@[0]@ == "Operation"@,
            r@[1]@ == self@.kind.family(),
            r@[2]@ == self@.kind.name(),
    {
        let kind = self.kind();
        vec!["Operation", kind.family_tag(), kind.hqslang()]
    }

    /// Whether no qubit occurs in two roles of the operation.
    pub fn has_distinct_qubits(&self) -> (r: bool)
        ensures
            r == self@.qubits.no_duplicates(),
    {
        broadcast use vstd::std_specs::hash::group_hash_axioms;

        let qubits = self.qubits();
        let mut seen: HashSet<usize> = HashSet::new();
        let mut i: usize = 0;
        while i < qubits.len()
            invariant
                i <= qubits.len(),
                qubits@ == self@.qubits,
                qubits@.take(i as int).no_duplicates(),
                seen@ == qubits@.take(i as int).to_set(),
            decreases qubits.len() - i,
        {
            let ghost before = qubits@.take(i as int);
            let ghost after = qubits@.take(i + 1);
            assert(after =~= before.push(qubits@[i as int]));
            if seen.contains(&qubits[i]) {
                proof {
                    let k = choose|k: int| 0 <= k < before.len() && before[k] == qubits@[i as int];
                    assert(qubits@[k] == qubits@[i as int] && k != i);
                }
                return false;
            }
            seen.insert(qubits[i]);
            proof {
                assert forall|a: int, b: int| 0 <= a < after.len() && 0 <= b < after.len() && a
                    != b implies after[a] != after[b] by {
                    if a < i && b < i {
                        assert(before[a] != before[b]);
                    } else if a < i {
                        assert(before.contains(before[a]));
                    } else if b < i {
                        assert(before.contains(before[b]));
                    }
                }
                assert forall|q: usize| after.to_set().contains(q) <==> seen@.contains(q) by {
                    if after.contains(q) {
                        let k = choose|k: int| 0 <= k < after.len() && after[k] == q;
                        if k < i {
                            assert(before[k] == q);
                            assert(before.contains(q));
                        }
                    }
                    if before.contains(q) {
                        let k = choose|k: int| 0 <= k < before.len() && before[k] == q;
                        assert(after[k] == q);
                    }
                    assert(after[i as int] == qubits@[i as int]);
                }
                assert(seen@ =~= after.to_set());
            }
            i += 1;
        }
        assert(qubits@.take(qubits.len() as int) =~= qubits@);
        true
    }

    /// The qubit roles of the operation, in declared order.
    pub fn qubits(&self) -> (r: Vec<usize>)
        ensures
            r@ == self@.qubits,
    {
        let r = match self {
            Operation::Hadamard { qubit }
            | Operation::PauliX { qubit }
            | Operation::TGate { qubit }
            | Operation::RotateX { qubit, .. }
            | Operation::RotateZ { qubit, .. }
            | Operation::PhaseShiftState1 { qubit, .. }
            | Operation::MeasureQubit { qubit, .. } => vec![*qubit],
            Operation::CNOT { control, target }
            | Operation::SWAP { control, target }
            | Operation::ControlledPhaseShift { control, target, .. } => vec![*control, *target],
            Operation::MultiQubitMS { qubits, .. }
            | Operation::MultiQubitZZ { qubits, .. }
            | Operation::MultiQubitCNOT { qubits }
            | Operation::QFT { qubits, .. }
            | Operation::CallDefinedGate { qubits, .. } => copy_qubits(qubits),
            Operation::PragmaGlobalPhase { .. }
            | Operation::PragmaRepeatedMeasurement { .. }
            | Operation::DefinitionBit { .. } => Vec::new(),
        };
        assert(r@ =~= self@.qubits);
        r
    }

    /// The parameters of the operation, in declared order.
    pub fn parameters(&self) -> (r: Vec<Parameter>)
        ensures
            crate::parameter::parameter_views(r@) == self@.parameters,
    {
        let r = match self {
            Operation::RotateX { theta, .. }
            | Operation::RotateZ { theta, .. }
            | Operation::PhaseShiftState1 { theta, .. }
            | Operation::ControlledPhaseShift { theta, .. }
            | Operation::MultiQubitMS { theta, .. }
            | Operation::MultiQubitZZ { theta, .. } => vec![theta.duplicate()],
            Operation::PragmaGlobalPhase { phase } => vec![phase.duplicate()],
            Operation::CallDefinedGate { free_parameters, .. } => copy_parameters(free_parameters),
            _ => Vec::new(),
        };
        assert(crate::parameter::parameter_views(r@) =~= self@.parameters);
        r
    }

    /// The operation with its qubit roles replaced, in declared order.
    pub(crate) fn with_qubits(&self, qubits: &Vec<usize>) -> (r: Operation)
        requires
            qubits@.len() == self@.qubits.len(),
        ensures
            r@ == (OperationView { qubits: qubits@, ..self@ }),
    {
        let r = match self {
            Operation::Hadamard { .. } => Operation::Hadamard { qubit: qubits[0] },
            Operation::PauliX { .. } => Operation::PauliX { qubit: qubits[0] },
            Operation::TGate { .. } => Operation::TGate { qubit: qubits[0] },
            Operation::RotateX { theta, .. } => Operation::RotateX {
                qubit: qubits[0],
                theta: theta.duplicate(),
            },
            Operation::RotateZ { theta, .. } => Operation::RotateZ {
                qubit: qubits[0],
                theta: theta.duplicate(),
            },
            Operation::PhaseShiftState1 { theta, .. } => Operation::PhaseShiftState1 {
                qubit: qubits[0],
                theta: theta.duplicate(),
            },
            Operation::CNOT { .. } => Operation::CNOT { control: qubits[0], target: qubits[1] },
            Operation::SWAP { .. } => Operation::SWAP { control: qubits[0], target: qubits[1] },
            Operation::ControlledPhaseShift { theta, .. } => Operation::ControlledPhaseShift {
                control: qubits[0],
                target: qubits[1],
                theta: theta.duplicate(),
            },
            Operation::MultiQubitMS { theta, .. } => Operation::MultiQubitMS {
                qubits: copy_qubits(qubits),
                theta: theta.duplicate(),
            },
            Operation::MultiQubitZZ { theta, .. } => Operation::MultiQubitZZ {
                qubits: copy_qubits(qubits),
                theta: theta.duplicate(),
            },
            Operation::MultiQubitCNOT { .. } => Operation::MultiQubitCNOT {
                qubits: copy_qubits(qubits),
            },
            Operation::QFT { swaps, inverse, .. } => Operation::QFT {
                qubits: copy_qubits(qubits),
                swaps: *swaps,
                inverse: *inverse,
            },
            Operation::CallDefinedGate { gate_name, free_parameters, .. } => {
                Operation::CallDefinedGate {
                    gate_name: gate_name.clone(),
                    qubits: copy_qubits(qubits),
                    free_parameters: copy_parameters(free_parameters),
                }
            },
            Operation::PragmaGlobalPhase { phase } => Operation::PragmaGlobalPhase {
                phase: phase.duplicate(),
            },
            Operation::PragmaRepeatedMeasurement { readout, number_measurements } => {
                Operation::PragmaRepeatedMeasurement {
                    readout: readout.clone(),
                    number_measurements: *number_measurements,
                }
            },
            Operation::DefinitionBit { name, length, is_output } => Operation::DefinitionBit {
                name: name.clone(),
                length: *length,
                is_output: *is_output,
            },
            Operation::MeasureQubit { readout, readout_index, .. } => Operation::MeasureQubit {
                qubit: qubits[0],
                readout: readout.clone(),
                readout_index: *readout_index,
            },
        };
        assert(r@.qubits =~= qubits@);
        r
    }

    /// The operation with its parameters replaced, in declared order.
    pub(crate) fn with_parameters(&self, parameters: &Vec<Parameter>) -> (r: Operation)
        requires
            parameters@.len() == self@.parameters.len(),
        ensures
            r@ == (OperationView {
                parameters: crate::parameter::parameter_views(parameters@),
                ..self@
            }),
    {
        let r = match self {
            Operation::Hadamard { qubit } => Operation::Hadamard { qubit: *qubit },
            Operation::PauliX { qubit } => Operation::PauliX { qubit: *qubit },
            Operation::TGate { qubit } => Operation::TGate { qubit: *qubit },
            Operation::RotateX { qubit, .. } => Operation::RotateX {
                qubit: *qubit,
                theta: parameters[0].duplicate(),
            },
            Operation::RotateZ { qubit, .. } => Operation::RotateZ {
                qubit: *qubit,
                theta: parameters[0].duplicate(),
            },
            Operation::PhaseShiftState1 { qubit, .. } => Operation::PhaseShiftState1 {
                qubit: *qubit,
                theta: parameters[0].duplicate(),
            },
            Operation::CNOT { control, target } => Operation::CNOT {
                control: *control,
                target: *target,
            },
            Operation::SWAP { control, target } => Operation::SWAP {
                control: *control,
                target: *target,
            },
            Operation::ControlledPhaseShift { control, target, .. } => {
                Operation::ControlledPhaseShift {
                    control: *control,
                    target: *target,
                    theta: parameters[0].duplicate(),
                }
            },
            Operation::MultiQubitMS { qubits, .. } => Operation::MultiQubitMS {
                qubits: copy_qubits(qubits),
                theta: parameters[0].duplicate(),
            },
            Operation::MultiQubitZZ { qubits, .. } => Operation::MultiQubitZZ {
                qubits: copy_qubits(qubits),
                theta: parameters[0].duplicate(),
            },
            Operation::MultiQubitCNOT { qubits } => Operation::MultiQubitCNOT {
                qubits: copy_qubits(qubits),
            },
            Operation::QFT { qubits, swaps, inverse } => Operation::QFT {
                qubits: copy_qubits(qubits),
                swaps: *swaps,
                inverse: *inverse,
            },
            Operation::CallDefinedGate { gate_name, qubits, .. } => Operation::CallDefinedGate {
                gate_name: gate_name.clone(),
                qubits: copy_qubits(qubits),
                free_parameters: copy_parameters(parameters),
            },
            Operation::PragmaGlobalPhase { .. } => Operation::PragmaGlobalPhase {
                phase: parameters[0].duplicate(),
            },
            Operation::PragmaRepeatedMeasurement { readout, number_measurements } => {
                Operation::PragmaRepeatedMeasurement {
                    readout: readout.clone(),
                    number_measurements: *number_measurements,
                }
            },
            Operation::DefinitionBit { name, length, is_output } => Operation::DefinitionBit {
                name: name.clone(),
                length: *length,
                is_output: *is_output,
            },
            Operation::MeasureQubit { qubit, readout, readout_index } => Operation::MeasureQubit {
                qubit: *qubit,
                readout: readout.clone(),
                readout_index: *readout_index,
            },
        };
        assert(r@.parameters =~= crate::parameter::parameter_views(parameters@));
        r
    }

    /// A deep copy of the operation.
    pub fn duplicate(&self) -> (r: Operation)
        ensures
            r@ == self@,
    {
        let qubits = self.qubits();
        self.with_qubits(&qubits)
    }

    /// Whether any parameter of the operation is still symbolic.
    pub fn is_parametrized(&self) -> (r: bool)
        ensures
            r == self@.is_parametrized(),
    {
        let parameters = self.parameters();
        let mut i: usize = 0;
        while i < parameters.len()
            invariant
                i <= parameters.len(),
                crate::parameter::parameter_views(parameters@) == self@.parameters,
                forall|j: int| 0 <= j < i ==> !(#[trigger] self@.parameters[j]).is_parametrized(),
            decreases parameters.len() - i,
        {
            assert(self@.parameters[i as int] == parameters@[i as int]@);
            if parameters[i].is_parametrized() {
                return true;
            }
            i += 1;
        }
        false
    }

    /// The qubits the operation touches: all, none, or the set of the
    /// distinct indices of its role fields.
    pub fn involved_qubits(&self) -> (r: InvolvedQubits)
        ensures
            r@ == self@.involved_qubits(),
    {
        match self {
            Operation::PragmaRepeatedMeasurement { .. } => InvolvedQubits::All,
            Operation::PragmaGlobalPhase { .. } | Operation::DefinitionBit { .. } => {
                InvolvedQubits::Nothing
            },
            _ => {
                let qubits = self.qubits();
                InvolvedQubits::Qubits(qubit_set(&qubits))
            },
        }
    }

    /// Sends every qubit role through the mapping.
    ///
    /// Succeeds exactly when the mapping has an entry for every involved
    /// qubit; roles keep their order, parameters and flags are untouched.
    /// Otherwise the first role without an entry is cited.
    pub fn remap_qubits(&self, mapping: &HashMap<usize, usize>) -> (r: Result<
        Operation,
        OperationError,
    >)
        ensures
            r is Ok <==> self@.involved_qubits().is_within(mapping@),
            match r {
                Ok(op) => self@.is_covered_by(mapping@) && op@ == self@.remapped(mapping@)
                    && op@.involved_qubits() == self@.involved_qubits().image(mapping@),
                Err(OperationError::Remapping { qubit }) => exists|i: int|
                    first_missing_at(mapping@, self@.qubits, i) && qubit == self@.qubits[i],
                Err(_) => false,
            },
    {
        proof {
            lemma_covered_iff_total(self@, mapping@);
            lemma_remapped_involves_image(self@, mapping@);
        }
        let qubits = self.qubits();
        match remap_qubit_list(&qubits, mapping) {
            Ok(mapped) => Ok(self.with_qubits(&mapped)),
            Err(error) => Err(error),
        }
    }
}

} // verus!
