//! Symbolic-or-numeric parameters of operations.

use vstd::prelude::*;

verus! {

/// Bit pattern of the binary64 number nearest to pi.
pub const PI_BITS: u64 = 0x4009_21FB_5444_2D18;

/// The sign bit of a binary64 number.
pub const SIGN_BIT: u64 = 0x8000_0000_0000_0000;

/// One step of the binary64 exponent field: subtracting it halves a normal number.
pub const EXPONENT_STEP: u64 = 0x0010_0000_0000_0000;

/// The largest number of halvings of pi that still yields a normal binary64 number.
pub const MAX_HALVINGS: usize = 1023;

/// A parameter of an operation: a concrete number or a symbolic expression.
///
/// A concrete number is stored as its IEEE 754 binary64 bit pattern. Two
/// numbers are the same parameter exactly when their bit patterns agree.
#[derive(Clone, Debug, PartialEq, Eq)]
pub enum Parameter {
    /// A concrete number, as the bit pattern of a binary64 value.
    Number(u64),
    /// An expression over named free symbols, still to be resolved.
    Symbolic(String),
}

/// The mathematical value of a [`Parameter`].
pub enum ParameterView {
    Number(u64),
    Symbolic(Seq<char>),
}

impl View for Parameter {
    type V = ParameterView;

    open spec fn view(&self) -> ParameterView {
        match self {
            Parameter::Number(bits) => ParameterView::Number(*bits),
            Parameter::Symbolic(expression) => ParameterView::Symbolic(expression@),
        }
    }
}

impl ParameterView {
    /// A parameter is parametrized exactly when it holds a symbolic expression.
    pub open spec fn is_parametrized(self) -> bool {
        self is Symbolic
    }
}

/// Views of a sequence of parameters.
pub open spec fn parameter_views(parameters: Seq<Parameter>) -> Seq<ParameterView> {
    parameters.map_values(|p: Parameter| p@)
}

/// The bit pattern of the negated number: the sign bit is flipped.
pub open spec fn negated_bits(bits: u64) -> u64 {
    bits ^ SIGN_BIT
}

/// The bit pattern of pi divided by two to the power `halvings`.
pub open spec fn pi_fraction_bits(halvings: nat) -> u64
    recommends
        halvings <= MAX_HALVINGS,
{
    (PI_BITS - halvings * EXPONENT_STEP) as u64
}

impl Parameter {
    /// Whether the parameter still holds a symbolic expression.
    pub fn is_parametrized(&self) -> (r: bool)
        ensures
            r == self@.is_parametrized(),
    {
        match self {
            Parameter::Number(_) => false,
            Parameter::Symbolic(_) => true,
        }
    }

    /// A copy of the parameter.
    pub fn duplicate(&self) -> (r: Parameter)
        ensures
            r@ == self@,
    {
        match self {
            Parameter::Number(bits) => Parameter::Number(*bits),
            Parameter::Symbolic(expression) => Parameter::Symbolic(expression.clone()),
        }
    }

    /// The angle pi / 2^halvings as a concrete parameter.
    pub fn pi_fraction(halvings: usize) -> (r: Parameter)
        requires
            halvings <= MAX_HALVINGS,
        ensures
            r@ == ParameterView::Number(pi_fraction_bits(halvings as nat)),
    {
        let steps: u64 = halvings as u64;
        assert(steps * EXPONENT_STEP <= 1023 * 0x0010_0000_0000_0000) by (nonlinear_arith)
            requires
                steps <= 1023,
                EXPONENT_STEP == 0x0010_0000_0000_0000,
        ;
        Parameter::Number(PI_BITS - steps * EXPONENT_STEP)
    }

    /// The angle -pi / 2^halvings as a concrete parameter.
    pub fn negative_pi_fraction(halvings: usize) -> (r: Parameter)
        requires
            halvings <= MAX_HALVINGS,
        ensures
            r@ == ParameterView::Number(negated_bits(pi_fraction_bits(halvings as nat))),
    {
        match Parameter::pi_fraction(halvings) {
            Parameter::Number(bits) => Parameter::Number(bits ^ SIGN_BIT),
            Parameter::Symbolic(expression) => Parameter::Symbolic(expression),
        }
    }
}

/// Negating a number twice gives the number back.
pub proof fn lemma_negation_is_involution(bits: u64)
    ensures
        negated_bits(negated_bits(bits)) == bits,
{
    assert((bits ^ 0x8000_0000_0000_0000u64) ^ 0x8000_0000_0000_0000u64 == bits) by (bit_vector);
}

} // verus!
