//! Structural equality of parameters, operations, circuits and registers:
//! two values are equal when their fields are, in order.

use crate::binding::same_text;
use crate::circuit::Circuit;
use crate::measurement::ClassicalRegister;
use crate::operation::Operation;
use crate::parameter::{parameter_views, Parameter};
use crate::record::name_views;
use vstd::prelude::*;

verus! {

/// Whether two lists of numbers hold the same numbers in the same order.
pub fn same_numbers(left: &Vec<usize>, right: &Vec<usize>) -> (r: bool)
    ensures
        r == (left@ == right@),
{
    if left.len() != right.len() {
        return false;
    }
    let mut i: usize = 0;
    while i < left.len()
        invariant
            i <= left.len(),
            left.len() == right.len(),
            left@.take(i as int) == right@.take(i as int),
        decreases left.len() - i,
    {
        if left[i] != right[i] {
            return false;
        }
        assert(left@.take(i + 1) =~= left@.take(i as int).push(left@[i as int]));
        assert(right@.take(i + 1) =~= right@.take(i as int).push(right@[i as int]));
        i += 1;
    }
    assert(left@.take(left@.len() as int) =~= left@);
    assert(right@.take(right@.len() as int) =~= right@);
    true
}

/// Whether two lists of flags hold the same flags in the same order.
pub fn same_flags(left: &Vec<bool>, right: &Vec<bool>) -> (r: bool)
    ensures
        r == (left@ == right@),
{
    if left.len() != right.len() {
        return false;
    }
    let mut i: usize = 0;
    while i < left.len()
        invariant
            i <= left.len(),
            left.len() == right.len(),
            left@.take(i as int) == right@.take(i as int),
        decreases left.len() - i,
    {
        if left[i] != right[i] {
            return false;
        }
        assert(left@.take(i + 1) =~= left@.take(i as int).push(left@[i as int]));
        assert(right@.take(i + 1) =~= right@.take(i as int).push(right@[i as int]));
        i += 1;
    }
    assert(left@.take(left@.len() as int) =~= left@);
    assert(right@.take(right@.len() as int) =~= right@);
    true
}

/// Whether two lists of names hold the same names in the same order.
pub fn same_names(left: &Vec<String>, right: &Vec<String>) -> (r: bool)
    ensures
        r == (name_views(left@) == name_views(right@)),
{
    if left.len() != right.len() {
        assert(name_views(left@).len() != name_views(right@).len());
        return false;
    }
    let mut i: usize = 0;
    while i < left.len()
        invariant
            i <= left.len(),
            left.len() == right.len(),
            forall|j: int| 0 <= j < i ==> (#[trigger] left@[j])@ == right@[j]@,
        decreases left.len() - i,
    {
        if !same_text(left[i].as_str(), right[i].as_str()) {
            assert(name_views(left@)[i as int] != name_views(right@)[i as int]);
            return false;
        }
        i += 1;
    }
    assert(name_views(left@) =~= name_views(right@));
    true
}

impl Parameter {
    /// Whether two parameters are the same number, by its bit pattern, or the
    /// same symbolic expression.
    pub fn equals(&self, other: &Parameter) -> (r: bool)
        ensures
            r == (self@ == other@),
    {
        match (self, other) {
            (Parameter::Number(left), Parameter::Number(right)) => *left == *right,
            (Parameter::Symbolic(left), Parameter::Symbolic(right)) => same_text(
                left.as_str(),
                right.as_str(),
            ),
            _ => false,
        }
    }
}

/// Whether two lists of parameters hold equal parameters in the same order.
pub fn same_parameters(left: &Vec<Parameter>, right: &Vec<Parameter>) -> (r: bool)
    ensures
        r == (parameter_views(left@) == parameter_views(right@)),
{
    if left.len() != right.len() {
        assert(parameter_views(left@).len() != parameter_views(right@).len());
        return false;
    }
    let mut i: usize = 0;
    while i < left.len()
        invariant
            i <= left.len(),
            left.len() == right.len(),
            forall|j: int| 0 <= j < i ==> (#[trigger] left@[j])@ == right@[j]@,
        decreases left.len() - i,
    {
        if !left[i].equals(&right[i]) {
            assert(parameter_views(left@)[i as int] != parameter_views(right@)[i as int]);
            return false;
        }
        i += 1;
    }
    assert(parameter_views(left@) =~= parameter_views(right@));
    true
}

impl Operation {
    /// Whether two operations are the same variant with equal fields.
    pub fn equals(&self, other: &Operation) -> (r: bool)
        ensures
            r == (self@ == other@),
    {
        let left = self.to_record();
        let right = other.to_record();
        left.kind == right.kind && same_numbers(&left.qubits, &right.qubits) && same_parameters(
            &left.parameters,
            &right.parameters,
        ) && same_flags(&left.flags, &right.flags) && same_names(&left.names, &right.names)
            && same_numbers(&left.sizes, &right.sizes)
    }
}

impl Circuit {
    /// Whether two circuits hold equal operations in the same order.
    pub fn equals(&self, other: &Circuit) -> (r: bool)
        ensures
            r == (self@ == other@),
    {
        if self.operations.len() != other.operations.len() {
            assert(self@.len() != other@.len());
            return false;
        }
        let mut k: usize = 0;
        while k < self.operations.len()
            invariant
                k <= self.operations.len(),
                self.operations.len() == other.operations.len(),
                forall|j: int| 0 <= j < k ==> #[trigger] self@[j] == other@[j],
            decreases self.operations.len() - k,
        {
            if !self.operations[k].equals(&other.operations[k]) {
                assert(self@[k as int] != other@[k as int]);
                return false;
            }
            k += 1;
        }
        assert(self@ =~= other@);
        true
    }
}

impl ClassicalRegister {
    /// Whether two registers hold equal constant circuits, or none, and
    /// equal measurement circuits in the same order.
    pub fn equals(&self, other: &ClassicalRegister) -> (r: bool)
        ensures
            r == (self@ == other@),
    {
        let same_constant = match (&self.constant_circuit, &other.constant_circuit) {
            (Some(left), Some(right)) => left.equals(right),
            (None, None) => true,
            _ => false,
        };
        if !same_constant {
            assert(self@.constant_circuit != other@.constant_circuit);
            return false;
        }
        if self.circuits.len() != other.circuits.len() {
            assert(self@.circuits.len() != other@.circuits.len());
            return false;
        }
        let mut k: usize = 0;
        while k < self.circuits.len()
            invariant
                k <= self.circuits.len(),
                self.circuits.len() == other.circuits.len(),
                forall|j: int| 0 <= j < k ==> #[trigger] self@.circuits[j] == other@.circuits[j],
            decreases self.circuits.len() - k,
        {
            if !self.circuits[k].equals(&other.circuits[k]) {
                assert(self@.circuits[k as int] != other@.circuits[k as int]);
                return false;
            }
            k += 1;
        }
        assert(self@.circuits =~= other@.circuits);
        true
    }
}

} // verus!
