//! Builders for the dialect's operations: constants, transpose, generic
//! calls, returns, add, mul, print and reshape.  Each builder assembles one
//! [`Operation`] with the dialect's operation name and exactly the
//! operands, result types and attributes its methods were given.

use vstd::prelude::*;
use crate::ast::Location;
use crate::ir::Attribute;
use crate::ir::NamedAttribute;
use crate::ir::Operation;
use crate::ir::OperationState;
use crate::ir::Type;
use crate::ir::Value;

verus! {

/// Builds a `toy.constant`: no operands, one result type, and a `value`
/// attribute holding the dense element data.
#[derive(Debug)]
pub struct ConstantOpBuilder {
    pub state: OperationState,
}

impl ConstantOpBuilder {
    pub fn new(location: Location) -> (r: Self)
        ensures
            r.state.name@ == "toy.constant"@,
            r.state.operands@ == Seq::<Value>::empty(),
            r.state.result_types@ == Seq::<Type>::empty(),
            r.state.attributes@ == Seq::<NamedAttribute>::empty(),
    {
        Self { state: OperationState::new("toy.constant", location) }
    }

    pub fn result(self, result_type: Type) -> (r: Self)
        ensures
            r.state.name == self.state.name,
            r.state.operands == self.state.operands,
            r.state.result_types@ == self.state.result_types@.push(result_type),
            r.state.attributes == self.state.attributes,
    {
        let mut state = self.state;
        let mut results: Vec<Type> = Vec::new();
        results.push(result_type);
        state.add_results(results);
        proof {
            assert(state.result_types@ =~= self.state.result_types@.push(result_type));
        }
        Self { state }
    }

    pub fn attribute(self, attr: Attribute) -> (r: Self)
        ensures
            r.state.name == self.state.name,
            r.state.operands == self.state.operands,
            r.state.result_types == self.state.result_types,
            (r.state.attributes@.len() == self.state.attributes@.len() + 1
                && r.state.attributes@.last().name@ == "value"@
                && r.state.attributes@.last().attr == attr && self.state.attributes@.is_prefix_of(
                r.state.attributes@,
            )),
    {
        let mut state = self.state;
        let named_attr = NamedAttribute::new("value", attr);
        let mut attrs: Vec<NamedAttribute> = Vec::new();
        attrs.push(named_attr);
        state.add_attributes(attrs);
        Self { state }
    }

    pub fn build(self) -> (r: Operation)
        ensures
            r.name == self.state.name,
            r.operands == self.state.operands,
            r.result_types == self.state.result_types,
            r.attributes == self.state.attributes,
    {
        Operation::new(self.state)
    }
}

/// Builds a `toy.transpose`: one operand, one result type.
#[derive(Debug)]
pub struct TransposeOpBuilder {
    pub state: OperationState,
}

impl TransposeOpBuilder {
    pub fn new(location: Location) -> (r: Self)
        ensures
            r.state.name@ == "toy.transpose"@,
            r.state.operands@ == Seq::<Value>::empty(),
            r.state.result_types@ == Seq::<Type>::empty(),
            r.state.attributes@ == Seq::<NamedAttribute>::empty(),
    {
        Self { state: OperationState::new("toy.transpose", location) }
    }

    pub fn result(self, result_type: Type) -> (r: Self)
        ensures
            r.state.name == self.state.name,
            r.state.operands == self.state.operands,
            r.state.result_types@ == self.state.result_types@.push(result_type),
            r.state.attributes == self.state.attributes,
    {
        let mut state = self.state;
        let mut results: Vec<Type> = Vec::new();
        results.push(result_type);
        state.add_results(results);
        proof {
            assert(state.result_types@ =~= self.state.result_types@.push(result_type));
        }
        Self { state }
    }

    pub fn input(self, input: Value) -> (r: Self)
        ensures
            r.state.name == self.state.name,
            r.state.operands@ == self.state.operands@.push(input),
            r.state.result_types == self.state.result_types,
            r.state.attributes == self.state.attributes,
    {
        let mut state = self.state;
        let mut operands: Vec<Value> = Vec::new();
        operands.push(input);
        state.add_operands(operands);
        proof {
            assert(state.operands@ =~= self.state.operands@.push(input));
        }
        Self { state }
    }

    pub fn build(self) -> (r: Operation)
        ensures
            r.name == self.state.name,
            r.operands == self.state.operands,
            r.result_types == self.state.result_types,
            r.attributes == self.state.attributes,
    {
        Operation::new(self.state)
    }
}

/// Builds a `toy.generic_call`: the argument values as operands, one
/// result type, and a `callee` symbol-reference attribute.
#[derive(Debug)]
pub struct GenericCallOpBuilder {
    pub state: OperationState,
}

impl GenericCallOpBuilder {
    pub fn new(location: Location) -> (r: Self)
        ensures
            r.state.name@ == "toy.generic_call"@,
            r.state.operands@ == Seq::<Value>::empty(),
            r.state.result_types@ == Seq::<Type>::empty(),
            r.state.attributes@ == Seq::<NamedAttribute>::empty(),
    {
        Self { state: OperationState::new("toy.generic_call", location) }
    }

    pub fn operands(self, operands: Vec<Value>) -> (r: Self)
        ensures
            r.state.name == self.state.name,
            r.state.operands@ == self.state.operands@ + operands@,
            r.state.result_types == self.state.result_types,
            r.state.attributes == self.state.attributes,
    {
        let mut state = self.state;
        state.add_operands(operands);
        Self { state }
    }

    pub fn result(self, result_type: Type) -> (r: Self)
        ensures
            r.state.name == self.state.name,
            r.state.operands == self.state.operands,
            r.state.result_types@ == self.state.result_types@.push(result_type),
            r.state.attributes == self.state.attributes,
    {
        let mut state = self.state;
        let mut results: Vec<Type> = Vec::new();
        results.push(result_type);
        state.add_results(results);
        proof {
            assert(state.result_types@ =~= self.state.result_types@.push(result_type));
        }
        Self { state }
    }

    pub fn callee(self, callee: &str) -> (r: Self)
        ensures
            r.state.name == self.state.name,
            r.state.operands == self.state.operands,
            r.state.result_types == self.state.result_types,
            (r.state.attributes@.len() == self.state.attributes@.len() + 1
                && r.state.attributes@.last().name@ == "callee"@
                && (r.state.attributes@.last().attr matches Attribute::FlatSymbolRef { symbol }
                && symbol@ == callee@) && self.state.attributes@.is_prefix_of(
                r.state.attributes@,
            )),
    {
        let mut state = self.state;
        let attr = Attribute::new_flat_symbol_ref(callee);
        let named_attr = NamedAttribute::new("callee", attr);
        let mut attrs: Vec<NamedAttribute> = Vec::new();
        attrs.push(named_attr);
        state.add_attributes(attrs);
        Self { state }
    }

    pub fn build(self) -> (r: Operation)
        ensures
            r.name == self.state.name,
            r.operands == self.state.operands,
            r.result_types == self.state.result_types,
            r.attributes == self.state.attributes,
    {
        Operation::new(self.state)
    }
}

/// Builds a `toy.return`: zero or one operand, no results.
#[derive(Debug)]
pub struct ReturnOpBuilder {
    pub state: OperationState,
}

impl ReturnOpBuilder {
    pub fn new(location: Location) -> (r: Self)
        ensures
            r.state.name@ == "toy.return"@,
            r.state.operands@ == Seq::<Value>::empty(),
            r.state.result_types@ == Seq::<Type>::empty(),
            r.state.attributes@ == Seq::<NamedAttribute>::empty(),
    {
        Self { state: OperationState::new("toy.return", location) }
    }

    pub fn input(self, input: Value) -> (r: Self)
        ensures
            r.state.name == self.state.name,
            r.state.operands@ == self.state.operands@.push(input),
            r.state.result_types == self.state.result_types,
            r.state.attributes == self.state.attributes,
    {
        let mut state = self.state;
        let mut operands: Vec<Value> = Vec::new();
        operands.push(input);
        state.add_operands(operands);
        proof {
            assert(state.operands@ =~= self.state.operands@.push(input));
        }
        Self { state }
    }

    pub fn build(self) -> (r: Operation)
        ensures
            r.name == self.state.name,
            r.operands == self.state.operands,
            r.result_types == self.state.result_types,
            r.attributes == self.state.attributes,
    {
        Operation::new(self.state)
    }
}

/// Builds a `toy.add`: two operands, one result type.
#[derive(Debug)]
pub struct AddOpBuilder {
    pub state: OperationState,
}

impl AddOpBuilder {
    pub fn new(location: Location) -> (r: Self)
        ensures
            r.state.name@ == "toy.add"@,
            r.state.operands@ == Seq::<Value>::empty(),
            r.state.result_types@ == Seq::<Type>::empty(),
            r.state.attributes@ == Seq::<NamedAttribute>::empty(),
    {
        Self { state: OperationState::new("toy.add", location) }
    }

    pub fn operands(self, lhs: Value, rhs: Value) -> (r: Self)
        ensures
            r.state.name == self.state.name,
            r.state.operands@ == self.state.operands@.push(lhs).push(rhs),
            r.state.result_types == self.state.result_types,
            r.state.attributes == self.state.attributes,
    {
        let mut state = self.state;
        let mut operands: Vec<Value> = Vec::new();
        operands.push(lhs);
        operands.push(rhs);
        state.add_operands(operands);
        proof {
            assert(state.operands@ =~= self.state.operands@.push(lhs).push(rhs));
        }
        Self { state }
    }

    pub fn result(self, result_type: Type) -> (r: Self)
        ensures
            r.state.name == self.state.name,
            r.state.operands == self.state.operands,
            r.state.result_types@ == self.state.result_types@.push(result_type),
            r.state.attributes == self.state.attributes,
    {
        let mut state = self.state;
        let mut results: Vec<Type> = Vec::new();
        results.push(result_type);
        state.add_results(results);
        proof {
            assert(state.result_types@ =~= self.state.result_types@.push(result_type));
        }
        Self { state }
    }

    pub fn build(self) -> (r: Operation)
        ensures
            r.name == self.state.name,
            r.operands == self.state.operands,
            r.result_types == self.state.result_types,
            r.attributes == self.state.attributes,
    {
        Operation::new(self.state)
    }
}

/// Builds a `toy.mul`: two operands, one result type.
#[derive(Debug)]
pub struct MulOpBuilder {
    pub state: OperationState,
}

impl MulOpBuilder {
    pub fn new(location: Location) -> (r: Self)
        ensures
            r.state.name@ == "toy.mul"@,
            r.state.operands@ == Seq::<Value>::empty(),
            r.state.result_types@ == Seq::<Type>::empty(),
            r.state.attributes@ == Seq::<NamedAttribute>::empty(),
    {
        Self { state: OperationState::new("toy.mul", location) }
    }

    pub fn operands(self, lhs: Value, rhs: Value) -> (r: Self)
        ensures
            r.state.name == self.state.name,
            r.state.operands@ == self.state.operands@.push(lhs).push(rhs),
            r.state.result_types == self.state.result_types,
            r.state.attributes == self.state.attributes,
    {
        let mut state = self.state;
        let mut operands: Vec<Value> = Vec::new();
        operands.push(lhs);
        operands.push(rhs);
        state.add_operands(operands);
        proof {
            assert(state.operands@ =~= self.state.operands@.push(lhs).push(rhs));
        }
        Self { state }
    }

    pub fn result(self, result_type: Type) -> (r: Self)
        ensures
            r.state.name == self.state.name,
            r.state.operands == self.state.operands,
            r.state.result_types@ == self.state.result_types@.push(result_type),
            r.state.attributes == self.state.attributes,
    {
        let mut state = self.state;
        let mut results: Vec<Type> = Vec::new();
        results.push(result_type);
        state.add_results(results);
        proof {
            assert(state.result_types@ =~= self.state.result_types@.push(result_type));
        }
        Self { state }
    }

    pub fn build(self) -> (r: Operation)
        ensures
            r.name == self.state.name,
            r.operands == self.state.operands,
            r.result_types == self.state.result_types,
            r.attributes == self.state.attributes,
    {
        Operation::new(self.state)
    }
}

/// Builds a `toy.print`: one operand, no results.
#[derive(Debug)]
pub struct PrintOpBuilder {
    pub state: OperationState,
}

impl PrintOpBuilder {
    pub fn new(location: Location) -> (r: Self)
        ensures
            r.state.name@ == "toy.print"@,
            r.state.operands@ == Seq::<Value>::empty(),
            r.state.result_types@ == Seq::<Type>::empty(),
            r.state.attributes@ == Seq::<NamedAttribute>::empty(),
    {
        Self { state: OperationState::new("toy.print", location) }
    }

    pub fn input(self, input: Value) -> (r: Self)
        ensures
            r.state.name == self.state.name,
            r.state.operands@ == self.state.operands@.push(input),
            r.state.result_types == self.state.result_types,
            r.state.attributes == self.state.attributes,
    {
        let mut state = self.state;
        let mut operands: Vec<Value> = Vec::new();
        operands.push(input);
        state.add_operands(operands);
        proof {
            assert(state.operands@ =~= self.state.operands@.push(input));
        }
        Self { state }
    }

    pub fn build(self) -> (r: Operation)
        ensures
            r.name == self.state.name,
            r.operands == self.state.operands,
            r.result_types == self.state.result_types,
            r.attributes == self.state.attributes,
    {
        Operation::new(self.state)
    }
}

/// Builds a `toy.reshape`: one operand, one result type.
#[derive(Debug)]
pub struct ReshapeOpBuilder {
    pub state: OperationState,
}

impl ReshapeOpBuilder {
    pub fn new(location: Location) -> (r: Self)
        ensures
            r.state.name@ == "toy.reshape"@,
            r.state.operands@ == Seq::<Value>::empty(),
            r.state.result_types@ == Seq::<Type>::empty(),
            r.state.attributes@ == Seq::<NamedAttribute>::empty(),
    {
        Self { state: OperationState::new("toy.reshape", location) }
    }

    pub fn input(self, input: Value) -> (r: Self)
        ensures
            r.state.name == self.state.name,
            r.state.operands@ == self.state.operands@.push(input),
            r.state.result_types == self.state.result_types,
            r.state.attributes == self.state.attributes,
    {
        let mut state = self.state;
        let mut operands: Vec<Value> = Vec::new();
        operands.push(input);
        state.add_operands(operands);
        proof {
            assert(state.operands@ =~= self.state.operands@.push(input));
        }
        Self { state }
    }

    pub fn result(self, result_type: Type) -> (r: Self)
        ensures
            r.state.name == self.state.name,
            r.state.operands == self.state.operands,
            r.state.result_types@ == self.state.result_types@.push(result_type),
            r.state.attributes == self.state.attributes,
    {
        let mut state = self.state;
        let mut results: Vec<Type> = Vec::new();
        results.push(result_type);
        state.add_results(results);
        proof {
            assert(state.result_types@ =~= self.state.result_types@.push(result_type));
        }
        Self { state }
    }

    pub fn build(self) -> (r: Operation)
        ensures
            r.name == self.state.name,
            r.operands == self.state.operands,
            r.result_types == self.state.result_types,
            r.attributes == self.state.attributes,
    {
        Operation::new(self.state)
    }
}

} // verus!
