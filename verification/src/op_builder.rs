//! The operation builder: tracks the current insertion point inside a
//! block and inserts operations there, one after another, and offers the
//! type and attribute factories the generator needs.

use vstd::prelude::*;
use crate::ir::Attribute;
use crate::ir::Block;
use crate::ir::Operation;
use crate::ir::Type;
use crate::numeric::NumLit;

verus! {

/// A `(block, position)` insertion cursor.  The builder owns the block it
/// builds into; the generator hands the block over, emits, and takes the
/// block back.
#[derive(Debug)]
pub struct OpBuilder {
    pub block: Option<Block>,
    pub pos: usize,
}

impl OpBuilder {
    pub fn new(block: Option<Block>, pos: usize) -> (r: OpBuilder)
        ensures
            r.block == block,
            r.pos == pos,
    {
        OpBuilder { block, pos }
    }

    /// Points the builder at position `pos` of `block`, taking the block
    /// over.
    pub fn set_insertion_point(&mut self, block: Block, pos: usize)
        ensures
            final(self).block == Some(block),
            final(self).pos == pos,
    {
        self.block = Some(block);
        self.pos = pos;
    }

    /// Hands the block being built back to the caller.
    pub fn take_block(&mut self) -> (r: Option<Block>)
        ensures
            r == old(self).block,
            final(self).block is None,
            final(self).pos == old(self).pos,
    {
        let mut taken: Option<Block> = None;
        core::mem::swap(&mut taken, &mut self.block);
        taken
    }

    /// Inserts `operation` at the current position and advances the
    /// position past it: emission is strictly sequential.
    pub fn insert(&mut self, operation: Operation)
        requires
            old(self).block matches Some(b) && old(self).pos <= b.operations@.len(),
        ensures
            final(self).block matches Some(b2) && (old(self).block matches Some(b)
                && b2.operations@ == b.operations@.insert(old(self).pos as int, operation)
                && b2.arg_count == b.arg_count),
            final(self).pos == old(self).pos + 1,
    {
        let mut taken: Option<Block> = None;
        core::mem::swap(&mut taken, &mut self.block);
        let mut new_pos = self.pos;
        match taken {
            Some(mut b) => {
                b.operations.insert(self.pos, operation);
                let n = b.operations.len();
                self.block = Some(b);
                new_pos = self.pos + 1;
            },
            None => {
                proof {
                    assert(false);
                }
            },
        }
        self.pos = new_pos;
    }

    /// The 64-bit float scalar type.
    pub fn get_f64_type(&self) -> (r: Type)
        ensures
            r == Type::F64,
    {
        Type::F64
    }

    /// The tensor type of shape `dims` over `elem_ty`.
    pub fn get_ranked_tensor_type(&self, dims: Vec<usize>, elem_ty: Type) -> (r: Type)
        ensures
            (r matches Type::RankedTensor { shape, element } && shape == dims && *element
                == elem_ty),
    {
        Type::RankedTensor { shape: dims, element: Box::new(elem_ty) }
    }

    /// The tensor type of unknown shape over `elem_type`.
    pub fn get_unranked_tensor_type(&self, elem_type: Type) -> (r: Type)
        ensures
            (r matches Type::UnrankedTensor { element } && *element == elem_type),
    {
        Type::UnrankedTensor { element: Box::new(elem_type) }
    }

    /// The function type with the given inputs and results.
    pub fn get_function_type(&self, arg_types: Vec<Type>, result_types: Vec<Type>) -> (r: Type)
        ensures
            (r matches Type::Function { inputs, results } && inputs == arg_types && results
                == result_types),
    {
        Type::Function { inputs: arg_types, results: result_types }
    }

    /// The dense-elements attribute holding `data`, typed by `data_ty`.
    pub fn get_dense_elements_attr(&self, data_ty: Type, data: Vec<NumLit>) -> (r: Attribute)
        ensures
            (r matches Attribute::DenseElements { ty, data: d } && ty == data_ty && d == data),
    {
        Attribute::DenseElements { ty: data_ty, data }
    }
}

} // verus!
