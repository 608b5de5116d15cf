//! Substitution of symbolic parameters by the numbers they evaluate to.

use crate::error::OperationError;
use crate::operation::{Operation, OperationView};
use crate::parameter::{Parameter, ParameterView};
use qoqo_calculator::{Calculator, CalculatorError};
use vstd::prelude::*;
use vstd::string::StringSliceAdditionalSpecFns;

verus! {

/// `qoqo_calculator::Calculator`, the evaluator of symbolic expressions. It
/// is carried through as it is; of what it holds, only its variables are
/// spoken of.
#[verifier::external_type_specification]
#[verifier::external_body]
pub struct ExCalculator(Calculator);

/// The longest expression, in characters, that is handed to the evaluator.
pub const MAX_EXPRESSION_LENGTH: usize = 256;

/// Whether an expression can be handed to the evaluator: it is not empty,
/// not longer than [`MAX_EXPRESSION_LENGTH`], and ASCII text.
pub open spec fn is_evaluable(expression: Seq<char>) -> bool {
    &&& 0 < expression.len() <= MAX_EXPRESSION_LENGTH
    &&& vstd::utf8::is_ascii_chars(expression)
}

/// What `Calculator::variables` holds: each name that was set, with the bit
/// pattern of its number.
pub uninterp spec fn calculator_variables(calculator: Calculator) -> Map<Seq<char>, u64>;

/// A letter of the ASCII alphabet.
pub open spec fn is_letter(c: char) -> bool {
    ('a' <= c && c <= 'z') || ('A' <= c && c <= 'Z')
}

/// A letter, a digit or an underscore.
pub open spec fn is_name_character(c: char) -> bool {
    is_letter(c) || ('0' <= c && c <= '9') || c == '_'
}

/// An expression that is a single symbol: a letter followed by letters,
/// digits and underscores.
pub open spec fn is_symbol_name(expression: Seq<char>) -> bool {
    &&& is_evaluable(expression)
    &&& is_letter(expression[0])
    &&& forall|i: int| 0 <= i < expression.len() ==> is_name_character(#[trigger] expression[i])
}

/// The bit pattern of a value that is not a number.
pub open spec fn is_nan(bits: u64) -> bool {
    bits & 0x7FFF_FFFF_FFFF_FFFF > 0x7FF0_0000_0000_0000
}

/// Two bit patterns of the same number, or of two values that are not numbers.
pub open spec fn same_number(left: u64, right: u64) -> bool {
    left == right || (is_nan(left) && is_nan(right))
}

/// Calls `Calculator::parse_str` and hands back the bit pattern of the number
/// it computed; of its errors, the variable that was not set, where that is
/// the error.
///
/// Of an expression that is a single symbol the evaluator looks up the
/// variable of that name: it returns its number, multiplied by one, or fails
/// with that name when no such variable is set. Nothing is claimed of any
/// other expression: the evaluator computes with the floating-point
/// functions of the platform, whose results are not fixed.
/// The expression must be non-empty ASCII text, because the lexer of the
/// evaluator takes its first token unchecked and cuts operator symbols off
/// one byte at a time, and of bounded length, because lexer and parser
/// recurse once per name or bracket.
#[verifier::external_body]
fn evaluate_expression(calculator: &Calculator, expression: &str) -> (r: Result<
    u64,
    Option<String>,
>)
    requires
        is_evaluable(expression@),
    ensures
        is_symbol_name(expression@) ==> match r {
            Ok(bits) => calculator_variables(*calculator).contains_key(expression@) && same_number(
                bits,
                calculator_variables(*calculator)[expression@],
            ),
            Err(Some(name)) => !calculator_variables(*calculator).contains_key(expression@)
                && name@ == expression@,
            Err(None) => false,
        },
{
    match calculator.parse_str(expression) {
        Ok(value) => Ok(value.to_bits()),
        Err(CalculatorError::VariableNotSet { name }) => Err(Some(name)),
        Err(_) => Err(None),
    }
}

/// Whether an expression can be handed to the evaluator.
pub fn can_evaluate(expression: &str) -> (r: bool)
    ensures
        r == is_evaluable(expression@),
{
    broadcast use vstd::string::is_ascii_spec_bytes;

    if expression.is_empty() || !expression.is_ascii() {
        return false;
    }
    assert(vstd::string::is_ascii(expression));
    assert(expression.spec_bytes().len() == expression@.len());
    expression.as_bytes().len() <= MAX_EXPRESSION_LENGTH
}

/// The value handed in for the parameter at a position; none beyond the end.
pub open spec fn value_at(values: Seq<Option<u64>>, index: int) -> Option<u64> {
    if 0 <= index < values.len() {
        values[index]
    } else {
        None
    }
}

/// A symbolic parameter for which no value is at hand.
pub open spec fn is_unresolved(parameter: ParameterView, value: Option<u64>) -> bool {
    parameter is Symbolic && value is None
}

/// A concrete parameter stays; a symbolic one becomes the value at hand.
pub open spec fn resolved_parameter(parameter: ParameterView, value: Option<u64>) -> ParameterView {
    match (parameter, value) {
        (ParameterView::Symbolic(_), Some(bits)) => ParameterView::Number(bits),
        _ => parameter,
    }
}

impl OperationView {
    /// Every symbolic parameter has a value at its position.
    pub open spec fn resolvable_with(self, values: Seq<Option<u64>>) -> bool {
        forall|i: int|
            0 <= i < self.parameters.len() ==> !is_unresolved(
                #[trigger] self.parameters[i],
                value_at(values, i),
            )
    }

    /// Position `index` holds the first symbolic parameter without a value.
    pub open spec fn first_unresolved_at(self, values: Seq<Option<u64>>, index: int) -> bool {
        &&& 0 <= index < self.parameters.len()
        &&& is_unresolved(self.parameters[index], value_at(values, index))
        &&& forall|j: int|
            0 <= j < index ==> !is_unresolved(#[trigger] self.parameters[j], value_at(values, j))
    }

    /// The operation with each symbolic parameter replaced by its value;
    /// qubit roles, flags and all other fields are unchanged.
    pub open spec fn resolved_with(self, values: Seq<Option<u64>>) -> OperationView {
        OperationView {
            parameters: Seq::new(
                self.parameters.len(),
                |i: int| resolved_parameter(self.parameters[i], value_at(values, i)),
            ),
            ..self
        }
    }
}

/// `after` is `before` with every symbolic parameter replaced by a number,
/// and nothing else changed.
pub open spec fn is_resolution_of(after: OperationView, before: OperationView) -> bool {
    &&& !after.is_parametrized()
    &&& exists|values: Seq<Option<u64>>|
        before.resolvable_with(values) && after == #[trigger] before.resolved_with(values)
}

/// The expression is one of the symbolic parameters of the operation.
pub open spec fn is_symbolic_parameter_of(expression: Seq<char>, op: OperationView) -> bool {
    exists|i: int|
        0 <= i < op.parameters.len() && #[trigger] op.parameters[i] == ParameterView::Symbolic(
            expression,
        )
}

/// The error names the symbol, and the symbol is not among the variables.
pub open spec fn names_missing_symbol(
    symbol: Option<String>,
    expression: Seq<char>,
    variables: Map<Seq<char>, u64>,
) -> bool {
    symbol matches Some(name) && name@ == expression && !variables.contains_key(expression)
}

/// The parameter is a single symbol that is among the variables.
pub open spec fn is_known_symbol(variables: Map<Seq<char>, u64>, parameter: ParameterView) -> bool {
    parameter matches ParameterView::Symbolic(expression) && is_symbol_name(expression)
        && variables.contains_key(expression)
}

/// The parameter is a single symbol that is not among the variables.
pub open spec fn is_missing_symbol(variables: Map<Seq<char>, u64>, parameter: ParameterView) -> bool {
    parameter matches ParameterView::Symbolic(expression) && is_symbol_name(expression)
        && !variables.contains_key(expression)
}

/// The parameter `after` is the number of the variable that the single
/// symbol `before` names.
pub open spec fn is_value_of_symbol(
    variables: Map<Seq<char>, u64>,
    before: ParameterView,
    after: ParameterView,
) -> bool {
    before matches ParameterView::Symbolic(expression) && after matches ParameterView::Number(bits)
        && same_number(bits, variables[expression])
}

impl OperationView {
    /// Every symbolic parameter is a single symbol among the variables.
    pub open spec fn has_only_known_symbols(self, variables: Map<Seq<char>, u64>) -> bool {
        forall|i: int|
            0 <= i < self.parameters.len() && (#[trigger] self.parameters[i]).is_parametrized()
                ==> is_known_symbol(variables, self.parameters[i])
    }

    /// Some parameter is a single symbol that is not among the variables.
    pub open spec fn has_missing_symbol(self, variables: Map<Seq<char>, u64>) -> bool {
        exists|i: int|
            0 <= i < self.parameters.len() && is_missing_symbol(
                variables,
                #[trigger] self.parameters[i],
            )
    }

    /// Each parameter of `self` that is a single known symbol has become its
    /// number in `after`.
    pub open spec fn has_symbols_replaced_in(
        self,
        variables: Map<Seq<char>, u64>,
        after: OperationView,
    ) -> bool {
        &&& after.parameters.len() == self.parameters.len()
        &&& forall|i: int|
            0 <= i < self.parameters.len() && is_known_symbol(
                variables,
                #[trigger] self.parameters[i],
            ) ==> is_value_of_symbol(variables, self.parameters[i], after.parameters[i])
    }
}

/// Some symbolic parameter of the operation cannot be handed to the evaluator.
pub open spec fn has_unevaluable_parameter(op: OperationView) -> bool {
    exists|i: int|
        0 <= i < op.parameters.len() && (#[trigger] op.parameters[i] matches ParameterView::Symbolic(
            expression,
        ) && !is_evaluable(expression))
}

impl Operation {
    /// Replaces every symbolic parameter by the value at its position.
    ///
    /// `values` runs parallel to the parameters of the operation; entries of
    /// concrete parameters are ignored, and a missing entry counts as no
    /// value. The rewrite is all-or-nothing: it succeeds exactly when every
    /// symbolic parameter has a value, and otherwise reports the expression
    /// of the first one that has none.
    pub fn substitute_values(&self, values: &Vec<Option<u64>>) -> (r: Result<
        Operation,
        OperationError,
    >)
        ensures
            match r {
                Ok(op) => self@.resolvable_with(values@) && op@ == self@.resolved_with(values@),
                Err(OperationError::Substitution { expression, symbol }) => symbol is None
                    && exists|i: int|
                    self@.first_unresolved_at(values@, i) && self@.parameters[i]
                        == ParameterView::Symbolic(expression@),
                Err(_) => false,
            },
    {
        let parameters = self.parameters();
        let mut resolved: Vec<Parameter> = Vec::new();
        let mut i: usize = 0;
        while i < parameters.len()
            invariant
                i <= parameters.len(),
                resolved.len() == i,
                crate::parameter::parameter_views(parameters@) == self@.parameters,
                forall|j: int|
                    0 <= j < i ==> !is_unresolved(
                        #[trigger] self@.parameters[j],
                        value_at(values@, j),
                    ),
                forall|j: int|
                    0 <= j < i ==> (#[trigger] resolved@[j])@ == resolved_parameter(
                        self@.parameters[j],
                        value_at(values@, j),
                    ),
            decreases parameters.len() - i,
        {
            assert(self@.parameters[i as int] == parameters@[i as int]@);
            let value: Option<u64> = if i < values.len() {
                values[i]
            } else {
                None
            };
            match &parameters[i] {
                Parameter::Number(bits) => {
                    resolved.push(Parameter::Number(*bits));
                },
                Parameter::Symbolic(expression) => {
                    match value {
                        Some(bits) => {
                            resolved.push(Parameter::Number(bits));
                        },
                        None => {
                            assert(self@.first_unresolved_at(values@, i as int));
                            return Err(
                                OperationError::Substitution {
                                    expression: expression.clone(),
                                    symbol: None,
                                },
                            );
                        },
                    }
                },
            }
            i += 1;
        }
        let op = self.with_parameters(&resolved);
        assert(op@.parameters =~= self@.resolved_with(values@).parameters);
        Ok(op)
    }

    /// Resolves every symbolic parameter with the evaluator and replaces it
    /// by the number it evaluates to.
    ///
    /// Each symbolic expression is evaluated as a whole; one that is empty,
    /// longer than [`MAX_EXPRESSION_LENGTH`] or not ASCII text counts as
    /// unresolvable. An operation without symbolic parameters comes back equal.
    /// A parameter that is a single symbol becomes the number of the variable
    /// of that name: the rewrite succeeds when every symbolic parameter is
    /// such a symbol and its variable is set, and fails when the variable of
    /// one such symbol is not set. Otherwise the rewrite is
    /// all-or-nothing: a result has no symbolic parameter left, and differs
    /// from the operation in its symbolic parameters only; a failure cites
    /// the expression of a symbolic parameter of the operation, and the
    /// variable that the evaluator found unset, where it reported one. Where
    /// the cited expression is a single symbol, that symbol is the variable
    /// named, and it is not set.
    pub fn substitute_parameters(&self, calculator: &Calculator) -> (r: Result<
        Operation,
        OperationError,
    >)
        ensures
            match r {
                Ok(op) => is_resolution_of(op@, self@),
                Err(OperationError::Substitution { expression, symbol }) => is_symbolic_parameter_of(
                    expression@,
                    self@,
                ) && (is_symbol_name(expression@) ==> names_missing_symbol(
                    symbol,
                    expression@,
                    calculator_variables(*calculator),
                )),
                Err(_) => false,
            },
            !self@.is_parametrized() ==> (r matches Ok(op) && op@ == self@),
            has_unevaluable_parameter(self@) ==> r is Err,
            self@.has_missing_symbol(calculator_variables(*calculator)) ==> r is Err,
            self@.has_only_known_symbols(calculator_variables(*calculator)) ==> r is Ok,
            r matches Ok(op) ==> self@.has_symbols_replaced_in(
                calculator_variables(*calculator),
                op@,
            ),
    {
        let ghost variables = calculator_variables(*calculator);
        let parameters = self.parameters();
        let mut values: Vec<Option<u64>> = Vec::new();
        let mut i: usize = 0;
        while i < parameters.len()
            invariant
                i <= parameters.len(),
                values.len() == i,
                crate::parameter::parameter_views(parameters@) == self@.parameters,
                forall|j: int|
                    0 <= j < i ==> !is_unresolved(
                        #[trigger] self@.parameters[j],
                        value_at(values@, j),
                    ),
                forall|j: int|
                    0 <= j < i ==> (#[trigger] self@.parameters[j] matches ParameterView::Symbolic(
                        expression,
                    ) ==> is_evaluable(expression)),
                variables == calculator_variables(*calculator),
                forall|j: int|
                    0 <= j < i ==> !is_missing_symbol(variables, #[trigger] self@.parameters[j]),
                forall|j: int|
                    0 <= j < i && is_known_symbol(variables, #[trigger] self@.parameters[j])
                        ==> is_value_of_symbol(
                        variables,
                        self@.parameters[j],
                        resolved_parameter(self@.parameters[j], value_at(values@, j)),
                    ),
            decreases parameters.len() - i,
        {
            assert(self@.parameters[i as int] == parameters@[i as int]@);
            match &parameters[i] {
                Parameter::Number(_) => {
                    values.push(None);
                },
                Parameter::Symbolic(expression) => {
                    assert(self@.parameters[i as int].is_parametrized());
                    let text: &str = expression.as_str();
                    if !can_evaluate(text) {
                        return Err(
                            OperationError::Substitution {
                                expression: expression.clone(),
                                symbol: None,
                            },
                        );
                    }
                    match evaluate_expression(calculator, text) {
                        Ok(bits) => {
                            values.push(Some(bits));
                        },
                        Err(symbol) => {
                            return Err(
                                OperationError::Substitution {
                                    expression: expression.clone(),
                                    symbol,
                                },
                            );
                        },
                    }
                },
            }
            i += 1;
        }
        let r = self.substitute_values(&values);
        proof {
            assert(self@.resolvable_with(values@));
            assert(r is Ok);
            lemma_resolved_is_concrete(self@, values@);
            if !self@.is_parametrized() {
                lemma_concrete_is_fixed(self@, values@);
            }
        }
        r
    }
}

/// Once every symbolic parameter has a value, none is left after the rewrite.
pub proof fn lemma_resolved_is_concrete(op: OperationView, values: Seq<Option<u64>>)
    requires
        op.resolvable_with(values),
    ensures
        !op.resolved_with(values).is_parametrized(),
{
    let after = op.resolved_with(values);
    assert forall|i: int| 0 <= i < after.parameters.len() implies !(
    #[trigger] after.parameters[i]).is_parametrized() by {
        assert(!is_unresolved(op.parameters[i], value_at(values, i)));
    }
}

/// An operation without symbolic parameters is left as it is, whatever the
/// values are.
pub proof fn lemma_concrete_is_fixed(op: OperationView, values: Seq<Option<u64>>)
    requires
        !op.is_parametrized(),
    ensures
        op.resolvable_with(values),
        op.resolved_with(values) == op,
{
    assert forall|i: int| 0 <= i < op.parameters.len() implies !is_unresolved(
        #[trigger] op.parameters[i],
        value_at(values, i),
    ) by {
        assert(!op.parameters[i].is_parametrized());
    }
    assert(op.resolved_with(values).parameters =~= op.parameters) by {
        assert forall|i: int| 0 <= i < op.parameters.len() implies resolved_parameter(
            op.parameters[i],
            value_at(values, i),
        ) == op.parameters[i] by {
            assert(!(#[trigger] op.parameters[i]).is_parametrized());
        }
    }
}

} // verus!
