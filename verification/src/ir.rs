//! The in-memory model of the generated code.
//!
//! The generator lowers the syntax tree into this form: a module holding
//! function operations, each with one entry block holding a straight-line
//! sequence of operations.  An SSA value is identified by its number within
//! its function: the entry block's arguments take the numbers `0..arg_count`,
//! and the operation at index `i` of the block owns the number
//! `arg_count + i`.  Well-formedness ([`wf_block`]) says that every operand
//! refers to an already defined number whose operation actually produces a
//! result — exactly what a downstream optimizer assumes of its input.

use vstd::prelude::*;
use crate::ast::Location;
use crate::numeric::NumLit;

verus! {

/// A type in the generated code's type lattice.
#[derive(Debug)]
pub enum Type {
    /// The 64-bit float scalar type.
    F64,
    /// A tensor of a known shape.
    RankedTensor { shape: Vec<usize>, element: Box<Type> },
    /// A tensor whose shape is left to later shape inference.
    UnrankedTensor { element: Box<Type> },
    /// A function type.
    Function { inputs: Vec<Type>, results: Vec<Type> },
}

/// An SSA value reference: a block argument or an operation's result,
/// identified by its number within the enclosing function.
#[derive(Debug, Clone, Copy, PartialEq, Eq, Structural)]
pub struct Value {
    pub id: u128,
}

impl Value {
    pub fn new(id: u128) -> (r: Value)
        ensures
            r.id == id,
    {
        Value { id }
    }
}

/// An attribute value.
#[derive(Debug)]
pub enum Attribute {
    /// Dense element data for a constant, typed by a tensor type.
    DenseElements { ty: Type, data: Vec<NumLit> },
    /// A reference to a function by symbol name.
    FlatSymbolRef { symbol: String },
    /// A unit marker.
    Unit,
}

impl Attribute {
    /// A reference to `symbol` as a flat symbol attribute.
    pub fn new_flat_symbol_ref(symbol: &str) -> (r: Attribute)
        ensures
            (r matches Attribute::FlatSymbolRef { symbol: s2 } && s2@ == symbol@),
    {
        Attribute::FlatSymbolRef { symbol: symbol.to_owned() }
    }

    /// The unit marker attribute.
    pub fn new_unit() -> (r: Attribute)
        ensures
            r is Unit,
    {
        Attribute::Unit
    }
}

/// An attribute together with its name on the operation.
#[derive(Debug)]
pub struct NamedAttribute {
    pub name: String,
    pub attr: Attribute,
}

impl NamedAttribute {
    pub fn new(name: &str, attr: Attribute) -> (r: NamedAttribute)
        ensures
            r.name@ == name@,
            r.attr == attr,
    {
        NamedAttribute { name: name.to_owned(), attr }
    }
}

/// One instruction: a name, operand values, result types, and attributes.
#[derive(Debug)]
pub struct Operation {
    pub name: String,
    pub operands: Vec<Value>,
    pub result_types: Vec<Type>,
    pub attributes: Vec<NamedAttribute>,
    pub location: Location,
}

/// The mutable scratch state an operation is assembled from.
#[derive(Debug)]
pub struct OperationState {
    pub name: String,
    pub location: Location,
    pub operands: Vec<Value>,
    pub result_types: Vec<Type>,
    pub attributes: Vec<NamedAttribute>,
}

impl OperationState {
    pub fn new(name: &str, location: Location) -> (r: OperationState)
        ensures
            r.name@ == name@,
            r.operands@ == Seq::<Value>::empty(),
            r.result_types@ == Seq::<Type>::empty(),
            r.attributes@ == Seq::<NamedAttribute>::empty(),
    {
        OperationState {
            name: name.to_owned(),
            location,
            operands: Vec::new(),
            result_types: Vec::new(),
            attributes: Vec::new(),
        }
    }

    pub fn add_results(&mut self, mut results: Vec<Type>)
        ensures
            final(self).result_types@ == old(self).result_types@ + results@,
            final(self).name == old(self).name,
            final(self).operands == old(self).operands,
            final(self).attributes == old(self).attributes,
            final(self).location == old(self).location,
    {
        self.result_types.append(&mut results);
    }

    pub fn add_attributes(&mut self, mut attrs: Vec<NamedAttribute>)
        ensures
            final(self).attributes@ == old(self).attributes@ + attrs@,
            final(self).name == old(self).name,
            final(self).operands == old(self).operands,
            final(self).result_types == old(self).result_types,
            final(self).location == old(self).location,
    {
        self.attributes.append(&mut attrs);
    }

    pub fn add_operands(&mut self, mut operands: Vec<Value>)
        ensures
            final(self).operands@ == old(self).operands@ + operands@,
            final(self).name == old(self).name,
            final(self).result_types == old(self).result_types,
            final(self).attributes == old(self).attributes,
            final(self).location == old(self).location,
    {
        self.operands.append(&mut operands);
    }
}

impl Operation {
    /// Assembles the operation from its builder state.
    pub fn new(state: OperationState) -> (r: Operation)
        ensures
            r.name == state.name,
            r.operands == state.operands,
            r.result_types == state.result_types,
            r.attributes == state.attributes,
            r.location == state.location,
    {
        Operation {
            name: state.name,
            operands: state.operands,
            result_types: state.result_types,
            attributes: state.attributes,
            location: state.location,
        }
    }

    /// The operation's name.
    pub fn name(&self) -> (r: &str)
        ensures
            r@ == self.name@,
    {
        self.name.as_str()
    }

    /// How many operands the operation has.
    pub fn num_operands(&self) -> (r: usize)
        ensures
            r == self.operands@.len(),
    {
        self.operands.len()
    }
}

/// A basic block: the count of its arguments, and its operations in order.
#[derive(Debug)]
pub struct Block {
    pub arg_count: usize,
    pub operations: Vec<Operation>,
}

impl Block {
    /// An empty block with `arg_count` block arguments.
    pub fn new(arg_count: usize) -> (r: Block)
        ensures
            r.arg_count == arg_count,
            r.operations@ == Seq::<Operation>::empty(),
    {
        Block { arg_count, operations: Vec::new() }
    }

    /// The value of the block argument at `index`.
    pub fn argument(&self, index: usize) -> (r: Value)
        requires
            index < self.arg_count,
        ensures
            r.id == index,
    {
        Value::new(index as u128)
    }
}

/// The product of a shape's dimensions: how many elements a tensor of that
/// shape holds.
pub open spec fn shape_product(s: Seq<usize>) -> nat
    decreases s.len(),
{
    if s.len() == 0 {
        1
    } else {
        (s[0] as nat) * shape_product(s.drop_first())
    }
}

/// A dense-elements attribute carries a ranked tensor type whose shape
/// agrees with the amount of data; other attributes carry no obligation.
pub open spec fn wf_attribute(a: Attribute) -> bool {
    match a {
        Attribute::DenseElements { ty, data } => ty matches Type::RankedTensor { shape, element }
            && data@.len() == shape_product(shape@),
        _ => true,
    }
}

/// `v` is usable as an operand of the next operation: it is a block
/// argument, or the result of one of the operations already emitted — and
/// that operation does produce a result.
pub open spec fn wf_operand(v: Value, args: nat, ops: Seq<Operation>) -> bool {
    &&& (v.id as nat) < args + ops.len()
    &&& v.id >= args ==> ops[v.id - args].result_types@.len() > 0
}

/// The operation's operands all refer to earlier definitions (`prior` are
/// the operations before it), and its attributes are well formed.
pub open spec fn wf_operation(op: Operation, args: nat, prior: Seq<Operation>) -> bool {
    &&& forall|i: int| 0 <= i < op.operands@.len() ==> wf_operand(#[trigger] op.operands@[i], args, prior)
    &&& forall|i: int| 0 <= i < op.attributes@.len() ==> wf_attribute((#[trigger] op.attributes@[i]).attr)
}

/// Every operation of the block is well formed with respect to what stands
/// before it: the block is valid straight-line SSA.
pub open spec fn wf_block(b: Block) -> bool {
    forall|i: int|
        0 <= i < b.operations@.len() ==> wf_operation(
            #[trigger] b.operations@[i],
            b.arg_count as nat,
            b.operations@.take(i),
        )
}

/// A well-formed operand stays well formed when more operations follow.
pub proof fn lemma_wf_operand_extend(v: Value, args: nat, ops: Seq<Operation>, ops2: Seq<Operation>)
    requires
        wf_operand(v, args, ops),
        ops.is_prefix_of(ops2),
    ensures
        wf_operand(v, args, ops2),
{
    if v.id >= args {
        assert(ops2[v.id - args] == ops[v.id - args]);
    }
}

/// Appending a well-formed operation keeps the block well formed.
pub proof fn lemma_wf_block_push(b: Block, b2: Block, op: Operation)
    requires
        wf_block(b),
        wf_operation(op, b.arg_count as nat, b.operations@),
        b2.arg_count == b.arg_count,
        b2.operations@ == b.operations@.push(op),
    ensures
        wf_block(b2),
{
    assert forall|i: int| 0 <= i < b2.operations@.len() implies wf_operation(
        #[trigger] b2.operations@[i],
        b2.arg_count as nat,
        b2.operations@.take(i),
    ) by {
        if i < b.operations@.len() {
            assert(b2.operations@.take(i) =~= b.operations@.take(i));
            assert(b2.operations@[i] == b.operations@[i]);
        } else {
            assert(b2.operations@.take(i) =~= b.operations@);
            assert(b2.operations@[i] == op);
        }
    }
}

/// A function operation: its symbol name, type, visibility, and its one
/// entry block.
#[derive(Debug)]
pub struct FuncOp {
    pub name: String,
    pub func_type: Type,
    /// Marked for export to the embedding program.
    pub exported: bool,
    /// Hidden from other modules by symbol visibility.
    pub private_vis: bool,
    pub block: Block,
    pub location: Location,
}

impl FuncOp {
    /// A function with an empty entry block whose argument count matches
    /// the function type's input count.
    pub fn new(location: Location, name: &str, func_type: Type, exported: bool) -> (r: FuncOp)
        requires
            func_type is Function,
        ensures
            r.name@ == name@,
            r.func_type == func_type,
            r.exported == exported,
            !r.private_vis,
            r.block.arg_count == func_type->Function_inputs@.len(),
            r.block.operations@ == Seq::<Operation>::empty(),
    {
        let arg_count = match &func_type {
            Type::Function { inputs, results } => inputs.len(),
            _ => 0,
        };
        FuncOp {
            name: name.to_owned(),
            func_type,
            exported,
            private_vis: false,
            block: Block::new(arg_count),
            location,
        }
    }

    /// Marks the function's symbol as private to the module.
    pub fn set_private(&mut self)
        ensures
            final(self).private_vis,
            final(self).name == old(self).name,
            final(self).func_type == old(self).func_type,
            final(self).exported == old(self).exported,
            final(self).block == old(self).block,
            final(self).location == old(self).location,
    {
        self.private_vis = true;
    }
}

/// The function's entry block is valid SSA and its argument count matches
/// its declared type.
pub open spec fn wf_func(f: FuncOp) -> bool {
    &&& wf_block(f.block)
    &&& f.func_type matches Type::Function { inputs, results } && inputs@.len()
        == f.block.arg_count
}

/// The sole symbol-visibility policy: exactly the function named `main` is
/// exported, and every other function is private.
pub open spec fn visibility_ok(f: FuncOp) -> bool {
    &&& f.exported <==> f.name@ == "main"@
    &&& f.private_vis <==> f.name@ != "main"@
}

/// The block ends with a return operation.
pub open spec fn func_terminated(f: FuncOp) -> bool {
    &&& f.block.operations@.len() > 0
    &&& f.block.operations@.last().name@ == "toy.return"@
}

/// The top-level container: the functions of one compilation unit, in the
/// order the source declared them.
#[derive(Debug)]
pub struct ModuleOp {
    pub functions: Vec<FuncOp>,
    pub location: Location,
}

impl ModuleOp {
    /// An empty module.
    pub fn new(location: Location) -> (r: ModuleOp)
        ensures
            r.functions@ == Seq::<FuncOp>::empty(),
    {
        ModuleOp { functions: Vec::new(), location }
    }

    /// Appends a function to the module.
    pub fn push_back(&mut self, function: FuncOp)
        ensures
            final(self).functions@ == old(self).functions@.push(function),
            final(self).location == old(self).location,
    {
        self.functions.push(function);
    }
}

/// Every function of the module is well formed.
pub open spec fn wf_module(m: ModuleOp) -> bool {
    forall|i: int| 0 <= i < m.functions@.len() ==> wf_func(#[trigger] m.functions@[i])
}

/// Every function of the module obeys the visibility policy.
pub open spec fn module_visibility_ok(m: ModuleOp) -> bool {
    forall|i: int| 0 <= i < m.functions@.len() ==> visibility_ok(#[trigger] m.functions@[i])
}

} // verus!
