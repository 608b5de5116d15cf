//! The rules by which the fields of an operation are exposed to a host
//! language: how a constructor takes a field, which arguments default to
//! none, and which fields get a getter.

use vstd::prelude::*;
use vstd::string::StrSliceExecFns;

verus! {

/// How the constructor of a binding takes a field, by the name of its type.
#[derive(Clone, Copy, Debug, PartialEq, Eq, Structural)]
pub enum FieldClass {
    /// A symbolic-or-numeric parameter, converted from a host object.
    CalculatorFloat,
    /// A circuit, converted from a host object.
    Circuit,
    /// An optional circuit, converted from a host object that may be none.
    OptionalCircuit,
    /// A spin Hamiltonian, converted from a host object.
    PauliHamiltonian,
    /// Any other field, taken with its own type.
    Plain,
}

/// The needle stands in the haystack at the given offset.
pub open spec fn occurs_at(needle: Seq<char>, haystack: Seq<char>, offset: int) -> bool {
    &&& 0 <= offset
    &&& offset + needle.len() <= haystack.len()
    &&& haystack.subrange(offset, offset + needle.len()) == needle
}

/// The needle stands somewhere in the haystack.
pub open spec fn occurs_in(needle: Seq<char>, haystack: Seq<char>) -> bool {
    exists|offset: int| occurs_at(needle, haystack, offset)
}

/// The class of a field whose type is written as the given text.
pub open spec fn field_class(written_type: Option<Seq<char>>) -> FieldClass {
    match written_type {
        Some(name) => if name == "CalculatorFloat"@ {
            FieldClass::CalculatorFloat
        } else if name == "Circuit"@ {
            FieldClass::Circuit
        } else if name == "Option<Circuit>"@ {
            FieldClass::OptionalCircuit
        } else if name == "PauliHamiltonian"@ {
            FieldClass::PauliHamiltonian
        } else {
            FieldClass::Plain
        },
        None => FieldClass::Plain,
    }
}

/// An optional argument that is no circuit defaults to none.
pub open spec fn has_none_default(written_type: Option<Seq<char>>) -> bool {
    match written_type {
        Some(name) => occurs_in("Option"@, name) && !occurs_in("Circuit"@, name),
        None => false,
    }
}

/// The name is one of the listed names.
pub open spec fn is_listed(name: Seq<char>, names: Seq<&str>) -> bool {
    exists|i: int| 0 <= i < names.len() && (#[trigger] names[i])@ == name
}

/// The text of an optional type name.
pub open spec fn text_of(written_type: Option<&str>) -> Option<Seq<char>> {
    match written_type {
        Some(name) => Some(name@),
        None => None,
    }
}

impl FieldClass {
    /// Whether the constructor takes the field as a host object and converts it.
    pub fn is_converted(self) -> (r: bool)
        ensures
            r == (self != FieldClass::Plain),
    {
        match self {
            FieldClass::Plain => false,
            _ => true,
        }
    }
}

/// Whether two texts are the same.
pub fn same_text(left: &str, right: &str) -> (r: bool)
    ensures
        r == (left@ == right@),
{
    let length: usize = left.unicode_len();
    if right.unicode_len() != length {
        return false;
    }
    let mut i: usize = 0;
    while i < length
        invariant
            i <= length,
            length == left@.len(),
            length == right@.len(),
            left@.take(i as int) == right@.take(i as int),
        decreases length - i,
    {
        if left.get_char(i) != right.get_char(i) {
            return false;
        }
        assert(left@.take(i + 1) =~= left@.take(i as int).push(left@[i as int]));
        assert(right@.take(i + 1) =~= right@.take(i as int).push(right@[i as int]));
        i += 1;
    }
    assert(left@.take(length as int) =~= left@);
    assert(right@.take(length as int) =~= right@);
    true
}

/// Whether the needle stands in the haystack at the given offset.
fn stands_at(haystack: &str, needle: &str, offset: usize, total: usize) -> (r: bool)
    requires
        total == haystack@.len(),
        offset + needle@.len() <= total,
    ensures
        r == occurs_at(needle@, haystack@, offset as int),
{
    let length: usize = needle.unicode_len();
    let ghost window = haystack@.subrange(offset as int, offset + length);
    let mut i: usize = 0;
    while i < length
        invariant
            i <= length,
            length == needle@.len(),
            offset + length <= total,
            total == haystack@.len(),
            window == haystack@.subrange(offset as int, offset + length),
            window.take(i as int) == needle@.take(i as int),
        decreases length - i,
    {
        if haystack.get_char(offset + i) != needle.get_char(i) {
            assert(window[i as int] != needle@[i as int]);
            return false;
        }
        assert(window.take(i + 1) =~= window.take(i as int).push(window[i as int]));
        assert(needle@.take(i + 1) =~= needle@.take(i as int).push(needle@[i as int]));
        i += 1;
    }
    assert(window.take(length as int) =~= window);
    assert(needle@.take(length as int) =~= needle@);
    true
}

/// Whether the needle stands somewhere in the haystack.
pub fn contains_text(haystack: &str, needle: &str) -> (r: bool)
    ensures
        r == occurs_in(needle@, haystack@),
{
    let length: usize = haystack.unicode_len();
    let width: usize = needle.unicode_len();
    if width > length {
        return false;
    }
    let last: usize = length - width;
    let mut offset: usize = 0;
    while offset < last
        invariant
            offset <= last,
            length == haystack@.len(),
            last == haystack@.len() - needle@.len(),
            forall|k: int| 0 <= k < offset ==> !occurs_at(needle@, haystack@, k),
        decreases last - offset,
    {
        if stands_at(haystack, needle, offset, length) {
            return true;
        }
        offset += 1;
    }
    stands_at(haystack, needle, last, length)
}

/// The class of a field whose type is written as the given text.
pub fn classify_field(written_type: Option<&str>) -> (r: FieldClass)
    ensures
        r == field_class(text_of(written_type)),
{
    match written_type {
        Some(name) => {
            if same_text(name, "CalculatorFloat") {
                FieldClass::CalculatorFloat
            } else if same_text(name, "Circuit") {
                FieldClass::Circuit
            } else if same_text(name, "Option<Circuit>") {
                FieldClass::OptionalCircuit
            } else if same_text(name, "PauliHamiltonian") {
                FieldClass::PauliHamiltonian
            } else {
                FieldClass::Plain
            }
        },
        None => FieldClass::Plain,
    }
}

/// Whether the constructor gives the argument of a field the default none.
pub fn defaults_to_none(written_type: Option<&str>) -> (r: bool)
    ensures
        r == has_none_default(text_of(written_type)),
{
    match written_type {
        Some(name) => contains_text(name, "Option") && !contains_text(name, "Circuit"),
        None => false,
    }
}

/// Whether a field is one of the reserved fields, which get no getter here.
pub fn is_reserved(name: &str, reserved: &[&str]) -> (r: bool)
    ensures
        r == is_listed(name@, reserved@),
{
    let mut i: usize = 0;
    while i < reserved.len()
        invariant
            i <= reserved.len(),
            forall|j: int| 0 <= j < i ==> (#[trigger] reserved@[j])@ != name@,
        decreases reserved.len() - i,
    {
        if same_text(reserved[i], name) {
            return true;
        }
        i += 1;
    }
    false
}

/// A field that is converted from a host object never defaults to none.
pub proof fn lemma_converted_fields_have_no_default(written_type: Seq<char>)
    requires
        field_class(Some(written_type)) != FieldClass::Plain,
    ensures
        !has_none_default(Some(written_type)),
{
    reveal_strlit("CalculatorFloat");
    reveal_strlit("Circuit");
    reveal_strlit("Option<Circuit>");
    reveal_strlit("PauliHamiltonian");
    reveal_strlit("Option");
    let option = "Option"@;
    let circuit = "Circuit"@;
    if written_type == "Circuit"@ {
        assert(written_type.subrange(0, 7) =~= circuit);
        assert(occurs_at(circuit, written_type, 0));
    } else if written_type == "Option<Circuit>"@ {
        assert(written_type.subrange(7, 14) =~= circuit);
        assert(occurs_at(circuit, written_type, 7));
    } else if written_type == "CalculatorFloat"@ {
        assert forall|k: int| !occurs_at(option, written_type, k) by {
            if occurs_at(option, written_type, k) {
                assert(written_type.subrange(k, k + 6)[0] == 'O');
                assert(written_type[k] == 'O');
            }
        }
    } else {
        assert forall|k: int| !occurs_at(option, written_type, k) by {
            if occurs_at(option, written_type, k) {
                assert(written_type.subrange(k, k + 6)[0] == 'O');
                assert(written_type[k] == 'O');
            }
        }
    }
}

} // verus!
