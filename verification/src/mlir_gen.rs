//! The generator: lowers a parsed [`Module`](crate::ast::Module) into an
//! IR [`ModuleOp`](crate::ir::ModuleOp).
//!
//! Generation walks each function's body once, depth first and left to
//! right, emitting operations through the [`OpBuilder`] and threading SSA
//! values through a per-function [`SymbolTable`].  Every failure — an
//! unresolved variable, an operator other than `+` or `*`, a call of
//! `transpose` or `print` with the wrong number of arguments, a ragged
//! tensor literal — aborts the compilation unit with a typed
//! [`GenerationError`]; no partial module is handed out.  [`gen_ok`] and
//! its companions say exactly which syntax trees generate successfully.

use vstd::prelude::*;
use crate::ast::Expr;
use crate::ast::Function;
use crate::ast::Location;
use crate::ast::Module;
use crate::ast::Prototype;
use crate::ir::Block;
use crate::ir::FuncOp;
use crate::ir::ModuleOp;
use crate::ir::Operation;
use crate::ir::Type;
use crate::ir::Value;
use crate::ir::shape_product;
use crate::ir::wf_block;
use crate::ir::wf_func;
use crate::ir::wf_module;
use crate::ir::wf_operand;
use crate::ir::wf_operation;
use crate::ir::func_terminated;
use crate::ir::module_visibility_ok;
use crate::ir::visibility_ok;
use crate::ir::lemma_wf_block_push;
use crate::ir::lemma_wf_operand_extend;
use crate::numeric::NumLit;
use crate::op_builder::OpBuilder;
use crate::toy_dialect::AddOpBuilder;
use crate::toy_dialect::ConstantOpBuilder;
use crate::toy_dialect::GenericCallOpBuilder;
use crate::toy_dialect::MulOpBuilder;
use crate::toy_dialect::PrintOpBuilder;
use crate::toy_dialect::ReshapeOpBuilder;
use crate::toy_dialect::ReturnOpBuilder;
use crate::toy_dialect::TransposeOpBuilder;

verus! {

use crate::grammar::witness;
use crate::text::str_eq;

/// Why generation failed, as a simple taxonomy.
///
/// The grammar leaves ragged tensor literals unchecked; generation
/// validates them eagerly and reports them as
/// [`GenerationError::MalformedTensorLiteral`].
#[derive(Debug)]
pub enum GenerationError {
    /// A variable was read that no declaration or parameter binds.
    UndefinedVariable(String),
    /// A binary operator other than `+` or `*` reached generation.
    InvalidOperator(char),
    /// `transpose` or `print` was called with the wrong argument count.
    ArityMismatch { callee: String, expected: usize, actual: usize },
    /// A syntax-tree shape that has no place at this position.
    UnsupportedExpressionKind,
    /// A tensor literal whose rows disagree about their shape.
    MalformedTensorLiteral,
}

/// The value of a symbol-table entry list: a later entry for the same name
/// wins.
pub open spec fn sym_map(entries: Seq<(String, Value)>) -> Map<Seq<char>, Value>
    decreases entries.len(),
{
    if entries.len() == 0 {
        Map::empty()
    } else {
        sym_map(entries.drop_last()).insert(entries.last().0@, entries.last().1)
    }
}

/// The generation-time symbol table: maps in-scope variable names to SSA
/// values.  Function wide and flat: a later declaration of the same name
/// simply overwrites the earlier one.
#[derive(Debug)]
pub struct SymbolTable {
    pub entries: Vec<(String, Value)>,
}

impl View for SymbolTable {
    type V = Map<Seq<char>, Value>;

    open spec fn view(&self) -> Map<Seq<char>, Value> {
        sym_map(self.entries@)
    }
}

proof fn lemma_sym_map_last_match(s: Seq<(String, Value)>, k: Seq<char>, i: int)
    requires
        0 <= i < s.len(),
        s[i].0@ == k,
        forall|j: int| i < j < s.len() ==> (#[trigger] s[j]).0@ != k,
    ensures
        sym_map(s).contains_key(k),
        sym_map(s)[k] == s[i].1,
    decreases s.len(),
{
    if i == s.len() - 1 {
    } else {
        let s0 = s.drop_last();
        assert(forall|j: int| i < j < s0.len() ==> (#[trigger] s0[j]).0@ != k);
        lemma_sym_map_last_match(s0, k, i);
    }
}

proof fn lemma_sym_map_no_match(s: Seq<(String, Value)>, k: Seq<char>)
    requires
        forall|j: int| 0 <= j < s.len() ==> (#[trigger] s[j]).0@ != k,
    ensures
        !sym_map(s).contains_key(k),
    decreases s.len(),
{
    if s.len() > 0 {
        lemma_sym_map_no_match(s.drop_last(), k);
    }
}

impl SymbolTable {
    /// An empty table.
    pub fn new() -> (r: SymbolTable)
        ensures
            r@ == Map::<Seq<char>, Value>::empty(),
    {
        SymbolTable { entries: Vec::new() }
    }

    /// Binds `name` to `value`: a new binding, or an overwrite of the
    /// earlier one — last write wins, with no shadow stack.
    pub fn declare(&mut self, name: String, value: Value)
        ensures
            final(self)@ == old(self)@.insert(name@, value),
    {
        self.entries.push((name, value));
        proof {
            assert(self.entries@.drop_last() =~= old(self).entries@);
        }
    }

    /// The value bound to `name`, if any.
    pub fn lookup(&self, name: &str) -> (r: Option<Value>)
        ensures
            match r {
                Some(v) => self@.contains_key(name@) && self@[name@] == v,
                None => !self@.contains_key(name@),
            },
    {
        let n = self.entries.len();
        let mut i: usize = n;
        loop
            invariant
                0 <= i <= n == self.entries@.len(),
                forall|j: int| i <= j < n ==> (#[trigger] self.entries@[j]).0@ != name@,
            ensures
                forall|j: int| 0 <= j < n ==> (#[trigger] self.entries@[j]).0@ != name@,
            decreases i,
        {
            if i == 0 {
                break ;
            }
            let hit = str_eq(self.entries[i - 1].0.as_str(), name);
            if hit {
                let v = self.entries[i - 1].1;
                proof {
                    lemma_sym_map_last_match(self.entries@, name@, i - 1);
                }
                return Some(v);
            }
            i = i - 1;
        }
        proof {
            lemma_sym_map_no_match(self.entries@, name@);
        }
        None
    }
}

// ---------------------------------------------------------------------
// What generates successfully: the specification of the walk.
// ---------------------------------------------------------------------

/// The names bound after the first `i` expressions of `es` have been
/// generated, in order, starting from `vars`.
pub open spec fn seq_vars_upto(es: Seq<Expr>, i: int, vars: Set<Seq<char>>) -> Set<Seq<char>>
    decreases es, i,
{
    if i <= 0 || i > es.len() {
        vars
    } else {
        vars_after(es[i - 1], seq_vars_upto(es, i - 1, vars))
    }
}

/// The first `i` expressions of `es` generate successfully, in order,
/// starting from `vars`.
pub open spec fn seq_gen_ok_upto(es: Seq<Expr>, i: int, vars: Set<Seq<char>>) -> bool
    decreases es, i,
{
    if i <= 0 || i > es.len() {
        true
    } else {
        seq_gen_ok_upto(es, i - 1, vars) && gen_ok(es[i - 1], seq_vars_upto(es, i - 1, vars))
    }
}

/// `e` generates successfully as a value expression when the names in
/// `vars` are bound.
pub open spec fn gen_ok(e: Expr, vars: Set<Seq<char>>) -> bool
    decreases e, 0int,
{
    match e {
        Expr::Number(_) => true,
        Expr::Variable(name) => vars.contains(name@),
        Expr::VarDecl { name, var_type, value } => gen_ok(*value, vars),
        Expr::Tensor { location, values, dims } => is_lit_tree(e) && well_shaped(e),
        Expr::Binary { op, left, right } => gen_ok(*left, vars) && gen_ok(
            *right,
            vars_after(*left, vars),
        ) && (op == '+' || op == '*'),
        Expr::Call { fn_name, args } => {
            &&& seq_gen_ok_upto(args@, args@.len() as int, vars)
            &&& (fn_name@ == "transpose"@ ==> args@.len() == 1)
            &&& (fn_name@ == "print"@ ==> args@.len() == 1)
        },
        Expr::Return { location, expression } => false,
        Expr::ExprList { expressions } => false,
    }
}

/// The names bound after `e` has been generated: a `var` declaration binds
/// its name, anywhere it stands.
pub open spec fn vars_after(e: Expr, vars: Set<Seq<char>>) -> Set<Seq<char>>
    decreases e, 0int,
{
    match e {
        Expr::VarDecl { name, var_type, value } => vars_after(*value, vars).insert(name@),
        Expr::Binary { op, left, right } => vars_after(*right, vars_after(*left, vars)),
        Expr::Call { fn_name, args } => seq_vars_upto(args@, args@.len() as int, vars),
        _ => vars,
    }
}

/// Inside `seq_gen_ok_upto`, every single step holds.
proof fn lemma_seq_gen_ok_at(es: Seq<Expr>, i: int, j: int, vars: Set<Seq<char>>)
    requires
        seq_gen_ok_upto(es, i, vars),
        0 <= j < i <= es.len(),
    ensures
        gen_ok(es[j], seq_vars_upto(es, j, vars)),
    decreases i,
{
    if j < i - 1 {
        lemma_seq_gen_ok_at(es, i - 1, j, vars);
    }
}

/// `e` generates successfully as a statement: `return` statements take
/// their expression, everything else is a value expression.
pub open spec fn stmt_ok(e: Expr, vars: Set<Seq<char>>) -> bool {
    match e {
        Expr::Return { location, expression } => match expression {
            Some(inner) => gen_ok(*inner, vars),
            None => true,
        },
        _ => gen_ok(e, vars),
    }
}

/// The names bound after statement `e`: even inside a `return`'s
/// expression, a `var` declaration binds its name.
pub open spec fn vars_after_stmt(e: Expr, vars: Set<Seq<char>>) -> Set<Seq<char>> {
    match e {
        Expr::Return { location, expression } => match expression {
            Some(inner) => vars_after(*inner, vars),
            None => vars,
        },
        _ => vars_after(e, vars),
    }
}

/// The names bound after the first `i` statements of `es`.
pub open spec fn stmts_vars_upto(es: Seq<Expr>, i: int, vars: Set<Seq<char>>) -> Set<Seq<char>>
    decreases i,
{
    if i <= 0 {
        vars
    } else {
        vars_after_stmt(es[i - 1], stmts_vars_upto(es, i - 1, vars))
    }
}

/// The first `i` statements of `es` generate successfully, in order.
pub open spec fn stmts_ok_upto(es: Seq<Expr>, i: int, vars: Set<Seq<char>>) -> bool
    decreases i,
{
    if i <= 0 {
        true
    } else {
        stmts_ok_upto(es, i - 1, vars) && stmt_ok(es[i - 1], stmts_vars_upto(es, i - 1, vars))
    }
}

/// Inside `stmts_ok_upto`, every single step holds.
proof fn lemma_stmts_ok_at(es: Seq<Expr>, i: int, j: int, vars: Set<Seq<char>>)
    requires
        stmts_ok_upto(es, i, vars),
        0 <= j < i,
    ensures
        stmt_ok(es[j], stmts_vars_upto(es, j, vars)),
    decreases i,
{
    if j < i - 1 {
        lemma_stmts_ok_at(es, i - 1, j, vars);
    }
}

/// A function body generates successfully: an expression list is walked
/// statement by statement, any other body is one statement.
pub open spec fn body_ok(body: Expr, vars: Set<Seq<char>>) -> bool {
    match body {
        Expr::ExprList { expressions } => stmts_ok_upto(
            expressions@,
            expressions@.len() as int,
            vars,
        ),
        _ => stmt_ok(body, vars),
    }
}

/// The values the function's parameters are bound to: the i-th parameter
/// name to the i-th entry-block argument; a repeated name keeps the later
/// binding.
pub open spec fn param_map(args: Seq<String>) -> Map<Seq<char>, Value>
    decreases args.len(),
{
    if args.len() == 0 {
        Map::empty()
    } else {
        param_map(args.drop_last()).insert(
            args.last()@,
            Value { id: (args.len() - 1) as u128 },
        )
    }
}

/// The names the function's parameters bind.
pub open spec fn param_set(args: Seq<String>) -> Set<Seq<char>>
    decreases args.len(),
{
    if args.len() == 0 {
        Set::empty()
    } else {
        param_set(args.drop_last()).insert(args.last()@)
    }
}

/// The whole function generates successfully: it has a body, and the body
/// generates under its parameter names.
pub open spec fn func_gen_ok(f: Function) -> bool {
    match f.body {
        Some(b) => body_ok(b, param_set(f.prototype.args@)),
        None => false,
    }
}

// ---------------------------------------------------------------------
// Tensor literals: flattening and shapes.
// ---------------------------------------------------------------------

/// The first `i` children are all literal trees.
pub open spec fn lit_tree_upto(es: Seq<Expr>, i: int) -> bool
    decreases es, i,
{
    if i <= 0 || i > es.len() {
        true
    } else {
        lit_tree_upto(es, i - 1) && is_lit_tree(es[i - 1])
    }
}

/// `e` is a pure literal tree: numbers and nested tensor literals only.
pub open spec fn is_lit_tree(e: Expr) -> bool
    decreases e, 0int,
{
    match e {
        Expr::Number(_) => true,
        Expr::Tensor { location, values, dims } => lit_tree_upto(values@, values@.len() as int),
        _ => false,
    }
}

/// The flat element data of the first `i` children, in order.
pub open spec fn flat_upto(es: Seq<Expr>, i: int) -> Seq<NumLit>
    decreases es, i,
{
    if i <= 0 || i > es.len() {
        Seq::empty()
    } else {
        flat_upto(es, i - 1) + flatten(es[i - 1])
    }
}

/// The flat element data of a literal tree, depth first and left to right.
pub open spec fn flatten(e: Expr) -> Seq<NumLit>
    decreases e, 0int,
{
    match e {
        Expr::Number(n) => seq![n],
        Expr::Tensor { location, values, dims } => flat_upto(values@, values@.len() as int),
        _ => Seq::empty(),
    }
}

/// The full shape of a literal tree: each nesting level contributes its
/// element count.  A number is a scalar with the empty shape.
pub open spec fn lit_shape(e: Expr) -> Seq<usize>
    decreases e, 0int,
{
    match e {
        Expr::Tensor { location, values, dims } => seq![values@.len() as usize] + (if values@.len()
            > 0 {
            lit_shape(values@[0])
        } else {
            Seq::empty()
        }),
        _ => Seq::empty(),
    }
}

/// The first `i` children are well shaped and share the first child's
/// shape.
pub open spec fn shaped_upto(es: Seq<Expr>, i: int) -> bool
    decreases es, i,
{
    if i <= 0 || i > es.len() {
        true
    } else {
        shaped_upto(es, i - 1) && well_shaped(es[i - 1]) && lit_shape(es[i - 1]) == lit_shape(
            es[0],
        )
    }
}

/// A literal tree is well shaped: every level's recorded dimension is its
/// element count, and all siblings share one shape.  Exactly then does the
/// flat data fill a tensor of shape [`lit_shape`].
pub open spec fn well_shaped(e: Expr) -> bool
    decreases e, 0int,
{
    match e {
        Expr::Number(_) => true,
        Expr::Tensor { location, values, dims } => dims@ == seq![values@.len() as usize]
            && values@.len() <= usize::MAX && shaped_upto(values@, values@.len() as int),
        _ => false,
    }
}

/// Inside `shaped_upto`, every child is well shaped with the shared shape.
proof fn lemma_shaped_at(es: Seq<Expr>, i: int, j: int)
    requires
        shaped_upto(es, i),
        0 <= j < i <= es.len(),
    ensures
        well_shaped(es[j]),
        lit_shape(es[j]) == lit_shape(es[0]),
    decreases i,
{
    if j < i - 1 {
        lemma_shaped_at(es, i - 1, j);
    }
}

/// Inside `lit_tree_upto`, every child is a literal tree.
proof fn lemma_lit_tree_at(es: Seq<Expr>, i: int, j: int)
    requires
        lit_tree_upto(es, i),
        0 <= j < i <= es.len(),
    ensures
        is_lit_tree(es[j]),
    decreases i,
{
    if j < i - 1 {
        lemma_lit_tree_at(es, i - 1, j);
    }
}

/// A well shaped literal tree's flat data has exactly as many elements as
/// its shape's product: the dense constant it becomes is well formed.
pub proof fn lemma_flatten_len(e: Expr)
    requires
        well_shaped(e),
    ensures
        flatten(e).len() == shape_product(lit_shape(e)),
    decreases e, 1int,
{
    match e {
        Expr::Number(_) => {
        },
        Expr::Tensor { location, values, dims } => {
            let es = values@;
            let n = es.len() as int;
            let child = if n > 0 {
                lit_shape(es[0])
            } else {
                Seq::<usize>::empty()
            };
            lemma_flat_upto_len(es, n, child);
            assert(flatten(e) == flat_upto(es, n));
            assert(lit_shape(e) =~= seq![es.len() as usize] + child);
            assert((seq![es.len() as usize] + child).drop_first() =~= child);
            assert(lit_shape(e)[0] == es.len() as usize);
            assert(shape_product(lit_shape(e)) == (es.len() as usize as nat) * shape_product(
                child,
            ));
        },
        _ => {
        },
    }
}

/// Element-wise equality of two shapes.
fn shapes_eq(a: &Vec<usize>, b: &Vec<usize>) -> (r: bool)
    ensures
        r == (a@ == b@),
{
    if a.len() != b.len() {
        return false;
    }
    let n = a.len();
    let mut i: usize = 0;
    while i < n
        invariant
            0 <= i <= n == a@.len() == b@.len(),
            forall|j: int| 0 <= j < i ==> a@[j] == b@[j],
        decreases n - i,
    {
        if a[i] != b[i] {
            return false;
        }
        i = i + 1;
    }
    proof {
        assert(a@ =~= b@);
    }
    true
}

/// The generator.  It owns the builder whose block the current function's
/// operations are emitted into, and the symbol table of the function being
/// generated.
#[derive(Debug)]
pub struct MLIRGen {
    pub symbol_table: SymbolTable,
    pub builder: OpBuilder,
}

impl MLIRGen {
    /// A fresh generator with no insertion point and an empty scope.
    pub fn new() -> (r: MLIRGen)
        ensures
            r.symbol_table@ == Map::<Seq<char>, Value>::empty(),
            r.builder.block is None,
    {
        MLIRGen { symbol_table: SymbolTable::new(), builder: OpBuilder::new(None, 0) }
    }

    /// The block currently being built.
    pub open spec fn cur_block(&self) -> Block {
        self.builder.block->0
    }

    /// The generator's invariant while a function body is being walked:
    /// the builder appends to the end of a well-formed block, and every
    /// symbol is bound to a usable operand of that block.
    pub open spec fn gen_inv(&self) -> bool {
        &&& self.builder.block is Some
        &&& self.builder.pos == self.cur_block().operations@.len()
        &&& wf_block(self.cur_block())
        &&& forall|k: Seq<char>|
            #[trigger] self.symbol_table@.contains_key(k) ==> wf_operand(
                self.symbol_table@[k],
                self.cur_block().arg_count as nat,
                self.cur_block().operations@,
            )
    }

    /// The state change every emission step makes: the block is only
    /// extended, and its argument count stands.
    pub open spec fn extends(pre: &MLIRGen, post: &MLIRGen) -> bool {
        &&& post.cur_block().arg_count == pre.cur_block().arg_count
        &&& pre.cur_block().operations@.is_prefix_of(post.cur_block().operations@)
    }

    /// Appends one well-formed operation at the insertion point and
    /// returns the value of its result (meaningful only when the
    /// operation has one).
    fn emit_op(&mut self, op: Operation) -> (v: Value)
        requires
            old(self).gen_inv(),
            wf_operation(
                op,
                old(self).cur_block().arg_count as nat,
                old(self).cur_block().operations@,
            ),
        ensures
            final(self).gen_inv(),
            final(self).symbol_table == old(self).symbol_table,
            Self::extends(old(self), final(self)),
            final(self).cur_block().operations@ == old(self).cur_block().operations@.push(op),
            v.id == old(self).cur_block().arg_count + old(self).cur_block().operations@.len(),
            op.result_types@.len() > 0 ==> wf_operand(
                v,
                final(self).cur_block().arg_count as nat,
                final(self).cur_block().operations@,
            ),
    {
        let ghost b0 = self.cur_block();
        let arg_count = match &self.builder.block {
            Some(b) => b.arg_count,
            None => 0,
        };
        let idx = self.builder.pos;
        self.builder.insert(op);
        proof {
            assert(b0.operations@.insert(idx as int, op) =~= b0.operations@.push(op));
            lemma_wf_block_push(b0, self.cur_block(), op);
            assert(b0.operations@.is_prefix_of(self.cur_block().operations@)) by {
                assert(self.cur_block().operations@.take(b0.operations@.len() as int)
                    =~= b0.operations@);
            }
            assert forall|k: Seq<char>| #[trigger]
                self.symbol_table@.contains_key(k) implies wf_operand(
                self.symbol_table@[k],
                self.cur_block().arg_count as nat,
                self.cur_block().operations@,
            ) by {
                lemma_wf_operand_extend(
                    self.symbol_table@[k],
                    b0.arg_count as nat,
                    b0.operations@,
                    self.cur_block().operations@,
                );
            }
        }
        Value::new(arg_count as u128 + idx as u128)
    }

    /// Flattens a literal tree's values into `data`, depth first and left
    /// to right.  Succeeds exactly on pure literal trees; anything else is
    /// an unsupported expression here.
    pub fn collect_data(&self, expr: &Expr, data: &mut Vec<NumLit>) -> (r: Result<
        (),
        GenerationError,
    >)
        ensures
            r is Ok <==> is_lit_tree(*expr),
            r is Ok ==> final(data)@ == old(data)@ + flatten(*expr),
            old(data)@.is_prefix_of(final(data)@),
            r matches Err(e) ==> e is UnsupportedExpressionKind,
        decreases *expr, 0int,
    {
        match expr {
            Expr::Number(n) => {
                data.push(NumLit { text: n.text.clone() });
                proof {
                    assert(data@ =~= old(data)@ + flatten(*expr));
                    assert(old(data)@.is_prefix_of(data@)) by {
                        assert(data@.take(old(data)@.len() as int) =~= old(data)@);
                    }
                }
                Ok(())
            },
            Expr::Tensor { location, values, dims } => {
                let ghost es = values@;
                let n = values.len();
                let mut i: usize = 0;
                while i < n
                    invariant
                        0 <= i <= n == es.len(),
                        es == values@,
                        *expr matches Expr::Tensor { location: l2, values: v2, dims: d2 } && v2@
                            == es,
                        lit_tree_upto(es, i as int),
                        data@ == old(data)@ + flat_upto(es, i as int),
                        old(data)@.is_prefix_of(data@),
                    decreases n - i,
                {
                    let r = self.collect_data(&values[i], data);
                    match r {
                        Ok(()) => {
                            proof {
                                assert(lit_tree_upto(es, i + 1 as int));
                                assert(data@ =~= old(data)@ + flat_upto(es, i + 1 as int));
                            }
                        },
                        Err(e) => {
                            proof {
                                if is_lit_tree(*expr) {
                                    lemma_lit_tree_at(es, es.len() as int, i as int);
                                }
                            }
                            return Err(e);
                        },
                    }
                    i = i + 1;
                }
                Ok(())
            },
            _ => Err(GenerationError::UnsupportedExpressionKind),
        }
    }

    /// The validated full shape of a literal tree: every level's recorded
    /// dimension is its element count and all sibling rows share one
    /// shape; a ragged literal is rejected.
    fn literal_shape(expr: &Expr) -> (r: Result<Vec<usize>, GenerationError>)
        requires
            is_lit_tree(*expr),
        ensures
            r matches Ok(s) ==> well_shaped(*expr) && s@ == lit_shape(*expr),
            r is Err <==> !well_shaped(*expr),
            r matches Err(e) ==> e is MalformedTensorLiteral,
        decreases *expr, 0int,
    {
        match expr {
            Expr::Number(_) => Ok(Vec::new()),
            Expr::Tensor { location, values, dims } => {
                let ghost es = values@;
                let n = values.len();
                let dims_ok = if dims.len() == 1 {
                    dims[0] == n
                } else {
                    false
                };
                proof {
                    if dims_ok {
                        assert(dims@ =~= seq![es.len() as usize]);
                    } else {
                        if dims@ == seq![es.len() as usize] {
                            assert(dims@.len() == 1);
                            assert(dims@[0] == es.len() as usize);
                        }
                    }
                }
                if !dims_ok {
                    return Err(GenerationError::MalformedTensorLiteral);
                }
                if n == 0 {
                    let mut out: Vec<usize> = Vec::new();
                    out.push(0);
                    proof {
                        assert(lit_shape(*expr) =~= seq![0usize]);
                        assert(out@ =~= seq![0usize]);
                    }
                    return Ok(out);
                }
                proof {
                    lemma_lit_tree_at(es, es.len() as int, 0);
                }
                let first_shape = match Self::literal_shape(&values[0]) {
                    Ok(s) => s,
                    Err(e) => {
                        proof {
                            if well_shaped(*expr) {
                                lemma_shaped_at(es, es.len() as int, 0);
                            }
                        }
                        return Err(e);
                    },
                };
                proof {
                    assert(shaped_upto(es, 0));
                    assert(shaped_upto(es, 1int));
                }
                let mut i: usize = 1;
                while i < n
                    invariant
                        1 <= i <= n == es.len(),
                        es == values@,
                        *expr matches Expr::Tensor { location: l2, values: v2, dims: d2 } && v2@
                            == es && d2@ == seq![es.len() as usize],
                        lit_tree_upto(es, es.len() as int),
                        shaped_upto(es, i as int),
                        first_shape@ == lit_shape(es[0]),
                    decreases n - i,
                {
                    proof {
                        lemma_lit_tree_at(es, es.len() as int, i as int);
                    }
                    let s_i = match Self::literal_shape(&values[i]) {
                        Ok(s) => s,
                        Err(e) => {
                            proof {
                                if well_shaped(*expr) {
                                    lemma_shaped_at(es, es.len() as int, i as int);
                                }
                            }
                            return Err(e);
                        },
                    };
                    if !shapes_eq(&s_i, &first_shape) {
                        proof {
                            if well_shaped(*expr) {
                                lemma_shaped_at(es, es.len() as int, i as int);
                            }
                        }
                        return Err(GenerationError::MalformedTensorLiteral);
                    }
                    i = i + 1;
                }
                let mut out: Vec<usize> = Vec::new();
                out.push(n);
                let m = first_shape.len();
                let mut j: usize = 0;
                while j < m
                    invariant
                        0 <= j <= m == first_shape@.len(),
                        out@ == seq![es.len() as usize] + first_shape@.take(j as int),
                        es.len() == n,
                    decreases m - j,
                {
                    out.push(first_shape[j]);
                    proof {
                        assert(out@ =~= seq![es.len() as usize] + first_shape@.take(j + 1 as int));
                    }
                    j = j + 1;
                }
                proof {
                    assert(first_shape@.take(m as int) =~= first_shape@);
                    assert(lit_shape(*expr) =~= seq![es.len() as usize] + lit_shape(es[0]));
                    assert(well_shaped(*expr));
                }
                Ok(out)
            },
            _ => {
                proof {
                    assert(false);
                }
                Err(GenerationError::UnsupportedExpressionKind)
            },
        }
    }
}

/// `op` is the constant a number literal becomes: no operands, one result
/// typed as the singleton-shaped ranked f64 tensor, and a `value`
/// attribute holding exactly that literal.
pub open spec fn is_scalar_constant_op(op: Operation, lit: NumLit) -> bool {
    &&& op.name@ == "toy.constant"@
    &&& op.operands@.len() == 0
    &&& op.result_types@.len() == 1
    &&& (op.result_types@[0] matches Type::RankedTensor { shape, element } && shape@ == seq![
        1usize,
    ] && *element == Type::F64)
    &&& op.attributes@.len() == 1
    &&& op.attributes@[0].name@ == "value"@
    &&& (op.attributes@[0].attr matches crate::ir::Attribute::DenseElements { ty, data } && data@.len()
        == 1 && data@[0].text@ == lit.text@)
}

/// `op` is the constant a tensor literal becomes: no operands, one result
/// typed as the ranked f64 tensor of the literal's full validated shape,
/// and a `value` attribute holding the flattened element data.
pub open spec fn is_tensor_constant_op(op: Operation, e: Expr) -> bool {
    &&& op.name@ == "toy.constant"@
    &&& op.operands@.len() == 0
    &&& op.result_types@.len() == 1
    &&& (op.result_types@[0] matches Type::RankedTensor { shape, element } && shape@ == lit_shape(
        e,
    ) && *element == Type::F64)
    &&& op.attributes@.len() == 1
    &&& op.attributes@[0].name@ == "value"@
    &&& (op.attributes@[0].attr matches crate::ir::Attribute::DenseElements { ty, data } && data@
        == flatten(e))
}

/// `op` has exactly one result, typed as the unranked f64 tensor.
pub open spec fn has_unranked_result(op: Operation) -> bool {
    &&& op.result_types@.len() == 1
    &&& (op.result_types@[0] matches Type::UnrankedTensor { element } && *element == Type::F64)
}

/// `op` is the transpose of exactly the operand `input`, typed unranked.
pub open spec fn is_transpose_op(op: Operation, input: Value) -> bool {
    &&& op.name@ == "toy.transpose"@
    &&& op.operands@ == seq![input]
    &&& has_unranked_result(op)
}

/// `op` is a print of exactly the operand `input`, producing no result.
pub open spec fn is_print_op(op: Operation, input: Value) -> bool {
    &&& op.name@ == "toy.print"@
    &&& op.operands@ == seq![input]
    &&& op.result_types@.len() == 0
}

/// `op` is a generic call of exactly the operand values `vals`, in order,
/// to the symbol `callee`, typed unranked.
pub open spec fn is_generic_call_op(op: Operation, callee: Seq<char>, vals: Seq<Value>) -> bool {
    &&& op.name@ == "toy.generic_call"@
    &&& op.operands@ == vals
    &&& has_unranked_result(op)
    &&& op.attributes@.len() == 1
    &&& op.attributes@[0].name@ == "callee"@
    &&& (op.attributes@[0].attr matches crate::ir::Attribute::FlatSymbolRef { symbol } && symbol@
        == callee)
}

/// `op` is the add or mul written with `c`, over exactly the operands
/// `vl` then `vr`, typed unranked.
pub open spec fn is_binary_op(op: Operation, c: char, vl: Value, vr: Value) -> bool {
    &&& (if c == '+' {
        op.name@ == "toy.add"@
    } else {
        op.name@ == "toy.mul"@
    })
    &&& op.operands@ == seq![vl, vr]
    &&& has_unranked_result(op)
}

/// `op` reshapes exactly the operand `input` to the ranked f64 tensor of
/// shape `shape`.
pub open spec fn is_reshape_op(op: Operation, shape: Seq<usize>, input: Value) -> bool {
    &&& op.name@ == "toy.reshape"@
    &&& op.operands@ == seq![input]
    &&& op.result_types@.len() == 1
    &&& (op.result_types@[0] matches Type::RankedTensor { shape: s2, element } && s2@ == shape
        && *element == Type::F64)
}

/// `op` is a return of exactly the operand values `vals` (none for a bare
/// return), producing no result.
pub open spec fn is_return_op(op: Operation, vals: Seq<Value>) -> bool {
    &&& op.name@ == "toy.return"@
    &&& op.operands@ == vals
    &&& op.result_types@.len() == 0
}

/// The value of the next operation's result: operation `i` of a block
/// with `args` arguments owns the value numbered `args + i`.
pub open spec fn result_of(args: nat, ops: Seq<Operation>) -> Value {
    Value { id: (args + ops.len()) as u128 }
}

/// What generating the value expression `e` does, exactly: starting with
/// the bound names `stab` and the operations `ops0` in a block of `args`
/// arguments, it yields the value `v`, leaves the names `stab1`, and
/// leaves the operations `ops1` — each emitted operation wired to the
/// values of its sub-expressions.
pub open spec fn gen_rel(
    e: Expr,
    stab: Map<Seq<char>, Value>,
    args: nat,
    ops0: Seq<Operation>,
    v: Value,
    stab1: Map<Seq<char>, Value>,
    ops1: Seq<Operation>,
) -> bool
    decreases e, 0int,
{
    match e {
        Expr::Number(num) => {
            &&& ops1.len() == ops0.len() + 1
            &&& ops0.is_prefix_of(ops1)
            &&& is_scalar_constant_op(ops1.last(), num)
            &&& v == result_of(args, ops0)
            &&& stab1 == stab
        },
        Expr::Variable(name) => {
            &&& stab.contains_key(name@)
            &&& v == stab[name@]
            &&& ops1 == ops0
            &&& stab1 == stab
        },
        Expr::VarDecl { name, var_type, value } => exists|
            v0: Value,
            stabm: Map<Seq<char>, Value>,
            opsm: Seq<Operation>,
        |
            #![trigger witness(v0), witness(stabm), witness(opsm)]
            gen_rel(*value, stab, args, ops0, v0, stabm, opsm) && (if var_type.shape@.len() > 0 {
                ops1.len() == opsm.len() + 1 && opsm.is_prefix_of(ops1) && is_reshape_op(
                    ops1.last(),
                    var_type.shape@,
                    v0,
                ) && v == result_of(args, opsm)
            } else {
                ops1 == opsm && v == v0
            }) && stab1 == stabm.insert(name@, v),
        Expr::Tensor { location, values, dims } => {
            &&& ops1.len() == ops0.len() + 1
            &&& ops0.is_prefix_of(ops1)
            &&& is_tensor_constant_op(ops1.last(), e)
            &&& v == result_of(args, ops0)
            &&& stab1 == stab
        },
        Expr::Binary { op, left, right } => (op == '+' || op == '*') && (exists|
            vl: Value,
            stabl: Map<Seq<char>, Value>,
            opsl: Seq<Operation>,
            vr: Value,
            stabr: Map<Seq<char>, Value>,
            opsr: Seq<Operation>,
        |
            #![trigger witness(vl), witness(stabl), witness(opsl), witness(vr), witness(stabr), witness(opsr)]
            gen_rel(*left, stab, args, ops0, vl, stabl, opsl) && gen_rel(
                *right,
                stabl,
                args,
                opsl,
                vr,
                stabr,
                opsr,
            ) && ops1.len() == opsr.len() + 1 && opsr.is_prefix_of(ops1) && is_binary_op(
                ops1.last(),
                op,
                vl,
                vr,
            ) && v == result_of(args, opsr) && stab1 == stabr),
        Expr::Call { fn_name, args: cargs } => exists|
            vals: Seq<Value>,
            stabm: Map<Seq<char>, Value>,
            opsm: Seq<Operation>,
        |
            #![trigger witness(vals), witness(stabm), witness(opsm)]
            gen_args_rel(cargs@, cargs@.len() as int, stab, args, ops0, vals, stabm, opsm) && (
            if fn_name@ == "transpose"@ {
                cargs@.len() == 1 && ops1.len() == opsm.len() + 1 && opsm.is_prefix_of(ops1)
                    && is_transpose_op(ops1.last(), vals[0]) && v == result_of(args, opsm)
            } else if fn_name@ == "print"@ {
                cargs@.len() == 1 && ops1.len() == opsm.len() + 1 && opsm.is_prefix_of(ops1)
                    && is_print_op(ops1.last(), vals[0]) && v == vals[0]
            } else {
                ops1.len() == opsm.len() + 1 && opsm.is_prefix_of(ops1) && is_generic_call_op(
                    ops1.last(),
                    fn_name@,
                    vals,
                ) && v == result_of(args, opsm)
            }) && stab1 == stabm,
        Expr::Return { location, expression } => false,
        Expr::ExprList { expressions } => false,
    }
}

/// What generating the first `i` of the call arguments `es` does: the
/// values `vals`, in order, with the names and operations threaded
/// through.
pub open spec fn gen_args_rel(
    es: Seq<Expr>,
    i: int,
    stab: Map<Seq<char>, Value>,
    args: nat,
    ops0: Seq<Operation>,
    vals: Seq<Value>,
    stab1: Map<Seq<char>, Value>,
    ops1: Seq<Operation>,
) -> bool
    decreases es, i,
{
    if i < 0 || i > es.len() || vals.len() != i {
        false
    } else if i == 0 {
        &&& stab1 == stab
        &&& ops1 == ops0
    } else {
        exists|stabm: Map<Seq<char>, Value>, opsm: Seq<Operation>|
            #![trigger witness(stabm), witness(opsm)]
            gen_args_rel(es, i - 1, stab, args, ops0, vals.drop_last(), stabm, opsm) && gen_rel(
                es[i - 1],
                stabm,
                args,
                opsm,
                vals.last(),
                stab1,
                ops1,
            )
    }
}

/// What generating the statement `e` does: a `return` statement emits a
/// return operation wired to its expression's value (or to nothing, when
/// bare); any other statement is a value expression whose result is
/// dropped.
pub open spec fn stmt_rel(
    e: Expr,
    stab: Map<Seq<char>, Value>,
    args: nat,
    ops0: Seq<Operation>,
    stab1: Map<Seq<char>, Value>,
    ops1: Seq<Operation>,
) -> bool {
    match e {
        Expr::Return { location, expression } => match expression {
            Some(inner) => exists|v: Value, stabm: Map<Seq<char>, Value>, opsm: Seq<Operation>|
                #![trigger witness(v), witness(stabm), witness(opsm)]
                gen_rel(*inner, stab, args, ops0, v, stabm, opsm) && ops1.len() == opsm.len() + 1
                    && opsm.is_prefix_of(ops1) && is_return_op(ops1.last(), seq![v]) && stab1
                    == stabm,
            None => {
                &&& ops1.len() == ops0.len() + 1
                &&& ops0.is_prefix_of(ops1)
                &&& is_return_op(ops1.last(), Seq::<Value>::empty())
                &&& stab1 == stab
            },
        },
        _ => exists|v: Value|
            #![trigger witness(v)]
            gen_rel(e, stab, args, ops0, v, stab1, ops1),
    }
}

/// What generating the first `i` statements of `es` does, in order.
pub open spec fn stmts_rel(
    es: Seq<Expr>,
    i: int,
    stab: Map<Seq<char>, Value>,
    args: nat,
    ops0: Seq<Operation>,
    stab1: Map<Seq<char>, Value>,
    ops1: Seq<Operation>,
) -> bool
    decreases i,
{
    if i <= 0 {
        &&& stab1 == stab
        &&& ops1 == ops0
    } else {
        exists|stabm: Map<Seq<char>, Value>, opsm: Seq<Operation>|
            #![trigger witness(stabm), witness(opsm)]
            stmts_rel(es, i - 1, stab, args, ops0, stabm, opsm) && stmt_rel(
                es[i - 1],
                stabm,
                args,
                opsm,
                stab1,
                ops1,
            )
    }
}

/// What generating a whole function body does: an expression list is
/// walked statement by statement, any other body is one statement.
pub open spec fn body_rel(
    body: Expr,
    stab: Map<Seq<char>, Value>,
    args: nat,
    ops0: Seq<Operation>,
    stab1: Map<Seq<char>, Value>,
    ops1: Seq<Operation>,
) -> bool {
    match body {
        Expr::ExprList { expressions } => stmts_rel(
            expressions@,
            expressions@.len() as int,
            stab,
            args,
            ops0,
            stab1,
            ops1,
        ),
        _ => stmt_rel(body, stab, args, ops0, stab1, ops1),
    }
}

/// What generating the whole function `fa` emits into the result `f`'s
/// entry block: the body, generated from an empty block with the
/// parameters bound to the block arguments, and then a bare return where
/// the body did not already end in a return operation.
pub open spec fn gen_func_rel(fa: Function, f: FuncOp) -> bool {
    &&& fa.body matches Some(b) && (exists|stab1: Map<Seq<char>, Value>, ops1: Seq<Operation>|
        #![trigger witness(stab1), witness(ops1)]
        body_rel(
            b,
            param_map(fa.prototype.args@),
            fa.prototype.args@.len() as nat,
            Seq::<Operation>::empty(),
            stab1,
            ops1,
        ) && (if ops1.len() > 0 && ops1.last().name@ == "toy.return"@ {
            f.block.operations@ == ops1
        } else {
            f.block.operations@.len() == ops1.len() + 1 && ops1.is_prefix_of(f.block.operations@)
                && is_return_op(f.block.operations@.last(), Seq::<Value>::empty())
        }))
}

/// Prefixes chain: a prefix of a prefix is a prefix.
proof fn lemma_prefix_trans(a: Seq<Operation>, b: Seq<Operation>, c: Seq<Operation>)
    requires
        a.is_prefix_of(b),
        b.is_prefix_of(c),
    ensures
        a.is_prefix_of(c),
{
    assert(a =~= c.subrange(0, a.len() as int));
}

/// The product of the one-dimension shape `[d]` is `d`.
proof fn lemma_shape_product_single(d: usize)
    ensures
        shape_product(seq![d]) == d,
{
    let s = seq![d];
    assert(s.drop_first() =~= Seq::<usize>::empty());
    assert(shape_product(s.drop_first()) == 1);
    assert(shape_product(s) == (s[0] as nat) * shape_product(s.drop_first()));
    assert((d as nat) * 1 == d as nat) by (nonlinear_arith);
}

/// Leaving the generator untouched trivially extends it.
proof fn lemma_extends_refl(g: &MLIRGen)
    ensures
        MLIRGen::extends(g, g),
{
    assert(g.cur_block().operations@ =~= g.cur_block().operations@.subrange(
        0,
        g.cur_block().operations@.len() as int,
    ));
}

/// A copy of a shape vector.
fn copy_shape(v: &Vec<usize>) -> (r: Vec<usize>)
    ensures
        r@ == v@,
{
    let mut r: Vec<usize> = Vec::new();
    let n = v.len();
    let mut i: usize = 0;
    while i < n
        invariant
            0 <= i <= n == v@.len(),
            r@ == v@.take(i as int),
        decreases n - i,
    {
        r.push(v[i]);
        proof {
            assert(v@.take(i + 1 as int) =~= v@.take(i as int).push(v@[i as int]));
        }
        i = i + 1;
    }
    proof {
        assert(v@.take(n as int) =~= v@);
    }
    r
}

impl MLIRGen {
    /// The placeholder source position generated operations carry.
    fn gen_loc(&self) -> (r: Location)
        ensures
            true,
    {
        Location::new("filename", 0, 0)
    }

    /// The tensor type for a declared shape: unranked when no shape was
    /// annotated, ranked otherwise.
    fn get_type(&self, shape: Vec<usize>) -> (r: Type)
        ensures
            shape@.len() == 0 ==> (r matches Type::UnrankedTensor { element } && *element
                == Type::F64),
            shape@.len() > 0 ==> (r matches Type::RankedTensor { shape: s2, element } && s2@
                == shape@ && *element == Type::F64),
    {
        if shape.len() == 0 {
            self.builder.get_unranked_tensor_type(self.builder.get_f64_type())
        } else {
            self.builder.get_ranked_tensor_type(shape, self.builder.get_f64_type())
        }
    }

    /// Lowers one value expression, emitting its operations at the
    /// insertion point and returning the SSA value that holds its result.
    ///
    /// Succeeds exactly on the expressions [`gen_ok`] allows under the
    /// names currently in scope, and binds names exactly as
    /// [`vars_after`] says.
    fn mlir_gen_expression(&mut self, expr: &Expr) -> (r: Result<Value, GenerationError>)
        requires
            old(self).gen_inv(),
        ensures
            final(self).gen_inv(),
            Self::extends(old(self), final(self)),
            r is Ok <==> gen_ok(*expr, old(self).symbol_table@.dom()),
            r matches Ok(v) ==> wf_operand(
                v,
                final(self).cur_block().arg_count as nat,
                final(self).cur_block().operations@,
            ),
            r is Ok ==> final(self).symbol_table@.dom() == vars_after(
                *expr,
                old(self).symbol_table@.dom(),
            ),
            expr matches Expr::Variable(name) ==> ({
                &&& final(self).cur_block() == old(self).cur_block()
                &&& (r matches Ok(v) ==> old(self).symbol_table@.contains_key(name@) && v
                    == old(self).symbol_table@[name@])
                &&& (r matches Err(e2) ==> (e2 matches GenerationError::UndefinedVariable(n2)
                    && n2@ == name@))
            }),
            r matches Ok(v) ==> gen_rel(
                *expr,
                old(self).symbol_table@,
                old(self).cur_block().arg_count as nat,
                old(self).cur_block().operations@,
                v,
                final(self).symbol_table@,
                final(self).cur_block().operations@,
            ),
            expr matches Expr::Call { fn_name, args } ==> (r matches Err(e2) ==> ((fn_name@
                == "transpose"@ || fn_name@ == "print"@) && args@.len() != 1 && seq_gen_ok_upto(
                args@,
                args@.len() as int,
                old(self).symbol_table@.dom(),
            ) ==> (e2 matches GenerationError::ArityMismatch { callee, expected, actual }
                && callee@ == fn_name@ && expected == 1 && actual == args@.len()))),
        decreases *expr, 1int,
    {
        match expr {
            Expr::Number(num) => {
                let location = self.gen_loc();
                let mut dims: Vec<usize> = Vec::new();
                dims.push(1);
                let result_ty = self.builder.get_ranked_tensor_type(
                    dims,
                    self.builder.get_f64_type(),
                );
                let mut dims2: Vec<usize> = Vec::new();
                dims2.push(1);
                let attr_ty = self.builder.get_ranked_tensor_type(
                    dims2,
                    self.builder.get_f64_type(),
                );
                let mut data: Vec<NumLit> = Vec::new();
                data.push(NumLit { text: num.text.clone() });
                let elem_attr = self.builder.get_dense_elements_attr(attr_ty, data);
                let op = ConstantOpBuilder::new(location).result(result_ty).attribute(
                    elem_attr,
                ).build();
                proof {
                    lemma_shape_product_single(1);
                    assert(wf_operation(
                        op,
                        old(self).cur_block().arg_count as nat,
                        old(self).cur_block().operations@,
                    ));
                }
                let v = self.emit_op(op);
                proof {
                    assert(gen_rel(
                        *expr,
                        old(self).symbol_table@,
                        old(self).cur_block().arg_count as nat,
                        old(self).cur_block().operations@,
                        v,
                        self.symbol_table@,
                        self.cur_block().operations@,
                    )) by {
                        assert(self.cur_block().operations@.drop_last() =~= old(
                            self,
                        ).cur_block().operations@);
                        assert(old(self).cur_block().operations@.is_prefix_of(
                            self.cur_block().operations@,
                        ));
                        assert(v == result_of(
                            old(self).cur_block().arg_count as nat,
                            old(self).cur_block().operations@,
                        ));
                    }
                }
                Ok(v)
            },
            Expr::Variable(name) => {
                proof {
                    lemma_extends_refl(self);
                }
                match self.symbol_table.lookup(name.as_str()) {
                    Some(v) => Ok(v),
                    None => Err(GenerationError::UndefinedVariable(name.clone())),
                }
            },
            Expr::VarDecl { name, var_type, value } => {
                let v0 = self.mlir_gen_expression(value)?;
                let ghost mid = *self;
                let bound = if var_type.shape.len() > 0 {
                    let location = self.gen_loc();
                    let shape_copy = copy_shape(&var_type.shape);
                    let ty = self.get_type(shape_copy);
                    let op = ReshapeOpBuilder::new(location).result(ty).input(v0).build();
                    let ghost opsnap = op;
                    let v1 = self.emit_op(op);
                    proof {
                        lemma_prefix_trans(
                            old(self).cur_block().operations@,
                            mid.cur_block().operations@,
                            self.cur_block().operations@,
                        );
                        assert(self.cur_block().operations@.last() == opsnap);
                        assert(is_reshape_op(opsnap, var_type.shape@, v0));
                    }
                    v1
                } else {
                    v0
                };
                self.symbol_table.declare(name.clone(), bound);
                proof {
                    assert(final(self).symbol_table@.dom() =~= vars_after(
                        *expr,
                        old(self).symbol_table@.dom(),
                    ));
                    assert(gen_rel(
                        *expr,
                        old(self).symbol_table@,
                        old(self).cur_block().arg_count as nat,
                        old(self).cur_block().operations@,
                        bound,
                        self.symbol_table@,
                        self.cur_block().operations@,
                    )) by {
                        assert(witness(v0) && witness(mid.symbol_table@) && witness(
                            mid.cur_block().operations@,
                        ));
                        assert(gen_rel(
                            *(expr->VarDecl_value),
                            old(self).symbol_table@,
                            old(self).cur_block().arg_count as nat,
                            old(self).cur_block().operations@,
                            v0,
                            mid.symbol_table@,
                            mid.cur_block().operations@,
                        ));
                        if var_type.shape@.len() > 0 {
                            assert(self.cur_block().operations@.drop_last()
                                =~= mid.cur_block().operations@);
                            assert(mid.cur_block().operations@.is_prefix_of(
                                self.cur_block().operations@,
                            ));
                            assert(is_reshape_op(
                                self.cur_block().operations@.last(),
                                var_type.shape@,
                                v0,
                            ));
                            assert(bound == result_of(
                                old(self).cur_block().arg_count as nat,
                                mid.cur_block().operations@,
                            ));
                        }
                    }
                }
                Ok(bound)
            },
            Expr::Tensor { location: _loc, values, dims } => {
                let mut data: Vec<NumLit> = Vec::new();
                match self.collect_data(expr, &mut data) {
                    Ok(()) => (),
                    Err(e) => {
                        proof {
                            lemma_extends_refl(self);
                        }
                        return Err(e);
                    },
                }
                let shape = match Self::literal_shape(expr) {
                    Ok(s) => s,
                    Err(e) => {
                        proof {
                            lemma_extends_refl(self);
                        }
                        return Err(e);
                    },
                };
                proof {
                    lemma_flatten_len(*expr);
                }
                let location = self.gen_loc();
                let shape2 = copy_shape(&shape);
                let result_ty = self.builder.get_ranked_tensor_type(
                    shape,
                    self.builder.get_f64_type(),
                );
                let attr_ty = self.builder.get_ranked_tensor_type(
                    shape2,
                    self.builder.get_f64_type(),
                );
                let data_attr = self.builder.get_dense_elements_attr(attr_ty, data);
                let op = ConstantOpBuilder::new(location).result(result_ty).attribute(
                    data_attr,
                ).build();
                proof {
                    assert(wf_operation(
                        op,
                        old(self).cur_block().arg_count as nat,
                        old(self).cur_block().operations@,
                    ));
                }
                let v = self.emit_op(op);
                proof {
                    assert(gen_rel(
                        *expr,
                        old(self).symbol_table@,
                        old(self).cur_block().arg_count as nat,
                        old(self).cur_block().operations@,
                        v,
                        self.symbol_table@,
                        self.cur_block().operations@,
                    )) by {
                        assert(self.cur_block().operations@.drop_last() =~= old(
                            self,
                        ).cur_block().operations@);
                        assert(old(self).cur_block().operations@.is_prefix_of(
                            self.cur_block().operations@,
                        ));
                        assert(is_tensor_constant_op(self.cur_block().operations@.last(), *expr));
                        assert(v == result_of(
                            old(self).cur_block().arg_count as nat,
                            old(self).cur_block().operations@,
                        ));
                    }
                }
                Ok(v)
            },
            Expr::Binary { op, left, right } => {
                let ghost vars0 = self.symbol_table@.dom();
                let ghost mid0 = *old(self);
                let lhs = self.mlir_gen_expression(left)?;
                let ghost mid1 = *self;
                let rhs = self.mlir_gen_expression(right)?;
                proof {
                    lemma_prefix_trans(
                        mid0.cur_block().operations@,
                        mid1.cur_block().operations@,
                        self.cur_block().operations@,
                    );
                    lemma_wf_operand_extend(
                        lhs,
                        self.cur_block().arg_count as nat,
                        mid1.cur_block().operations@,
                        self.cur_block().operations@,
                    );
                }
                let op_char = *op;
                if !(op_char == '+' || op_char == '*') {
                    proof {
                        lemma_prefix_trans(
                            mid0.cur_block().operations@,
                            mid1.cur_block().operations@,
                            self.cur_block().operations@,
                        );
                    }
                    return Err(GenerationError::InvalidOperator(op_char));
                }
                let location = self.gen_loc();
                let result_ty = self.builder.get_unranked_tensor_type(
                    self.builder.get_f64_type(),
                );
                let the_op = if op_char == '+' {
                    AddOpBuilder::new(location).operands(lhs, rhs).result(result_ty).build()
                } else {
                    MulOpBuilder::new(location).operands(lhs, rhs).result(result_ty).build()
                };
                proof {
                    assert(wf_operation(
                        the_op,
                        self.cur_block().arg_count as nat,
                        self.cur_block().operations@,
                    ));
                }
                let ghost mid2 = *self;
                let ghost opsnap = the_op;
                let v = self.emit_op(the_op);
                proof {
                    lemma_prefix_trans(
                        mid0.cur_block().operations@,
                        mid2.cur_block().operations@,
                        self.cur_block().operations@,
                    );
                    assert(self.cur_block().operations@.last() == opsnap);
                    assert(opsnap.operands@ =~= seq![lhs, rhs]);
                    assert(is_binary_op(opsnap, op_char, lhs, rhs));
                    assert(gen_rel(
                        *expr,
                        old(self).symbol_table@,
                        old(self).cur_block().arg_count as nat,
                        old(self).cur_block().operations@,
                        v,
                        self.symbol_table@,
                        self.cur_block().operations@,
                    )) by {
                        assert(witness(lhs) && witness(mid1.symbol_table@) && witness(
                            mid1.cur_block().operations@,
                        ) && witness(rhs) && witness(mid2.symbol_table@) && witness(
                            mid2.cur_block().operations@,
                        ));
                        assert(gen_rel(
                            *(expr->Binary_left),
                            old(self).symbol_table@,
                            old(self).cur_block().arg_count as nat,
                            old(self).cur_block().operations@,
                            lhs,
                            mid1.symbol_table@,
                            mid1.cur_block().operations@,
                        ));
                        assert(gen_rel(
                            *(expr->Binary_right),
                            mid1.symbol_table@,
                            old(self).cur_block().arg_count as nat,
                            mid1.cur_block().operations@,
                            rhs,
                            mid2.symbol_table@,
                            mid2.cur_block().operations@,
                        ));
                        assert(self.cur_block().operations@.drop_last()
                            =~= mid2.cur_block().operations@);
                        assert(mid2.cur_block().operations@.is_prefix_of(
                            self.cur_block().operations@,
                        ));
                        assert(is_binary_op(
                            self.cur_block().operations@.last(),
                            op_char,
                            lhs,
                            rhs,
                        ));
                        assert(v == result_of(
                            old(self).cur_block().arg_count as nat,
                            mid2.cur_block().operations@,
                        ));
                    }
                }
                Ok(v)
            },
            Expr::Call { fn_name, args } => {
                let ghost vars0 = self.symbol_table@.dom();
                let mut operands: Vec<Value> = Vec::new();
                let n = args.len();
                let ghost es = args@;
                let mut i: usize = 0;
                while i < n
                    invariant
                        0 <= i <= n == es.len(),
                        es == args@,
                        *expr matches Expr::Call { fn_name: f2, args: a2 } && a2@ == es && f2@
                            == fn_name@,
                        self.gen_inv(),
                        Self::extends(old(self), self),
                        vars0 == old(self).symbol_table@.dom(),
                        seq_gen_ok_upto(es, i as int, vars0),
                        self.symbol_table@.dom() == seq_vars_upto(es, i as int, vars0),
                        operands@.len() == i,
                        forall|j: int|
                            0 <= j < i ==> wf_operand(
                                #[trigger] operands@[j],
                                self.cur_block().arg_count as nat,
                                self.cur_block().operations@,
                            ),
                        gen_args_rel(
                            es,
                            i as int,
                            old(self).symbol_table@,
                            old(self).cur_block().arg_count as nat,
                            old(self).cur_block().operations@,
                            operands@,
                            self.symbol_table@,
                            self.cur_block().operations@,
                        ),
                    decreases n - i,
                {
                    let ghost pre = *self;
                    let v = match self.mlir_gen_expression(&args[i]) {
                        Ok(v) => v,
                        Err(e) => {
                            proof {
                                lemma_prefix_trans(
                                    old(self).cur_block().operations@,
                                    pre.cur_block().operations@,
                                    self.cur_block().operations@,
                                );
                                if seq_gen_ok_upto(es, es.len() as int, vars0) {
                                    lemma_seq_gen_ok_at(es, es.len() as int, i as int, vars0);
                                }
                            }
                            return Err(e);
                        },
                    };
                    let ghost operands_pre = operands@;
                    operands.push(v);
                    proof {
                        lemma_prefix_trans(
                            old(self).cur_block().operations@,
                            pre.cur_block().operations@,
                            self.cur_block().operations@,
                        );
                        assert forall|j: int| 0 <= j < i + 1 implies wf_operand(
                            #[trigger] operands@[j],
                            self.cur_block().arg_count as nat,
                            self.cur_block().operations@,
                        ) by {
                            if j < i {
                                lemma_wf_operand_extend(
                                    operands@[j],
                                    pre.cur_block().arg_count as nat,
                                    pre.cur_block().operations@,
                                    self.cur_block().operations@,
                                );
                            }
                        }
                        assert(seq_gen_ok_upto(es, i + 1 as int, vars0));
                        assert(seq_vars_upto(es, i + 1 as int, vars0) == self.symbol_table@.dom());
                        assert(gen_args_rel(
                            es,
                            i + 1 as int,
                            old(self).symbol_table@,
                            old(self).cur_block().arg_count as nat,
                            old(self).cur_block().operations@,
                            operands@,
                            self.symbol_table@,
                            self.cur_block().operations@,
                        )) by {
                            assert(witness(pre.symbol_table@) && witness(
                                pre.cur_block().operations@,
                            ));
                            assert(operands@.drop_last() =~= operands_pre);
                            assert(operands@.last() == v);
                            assert(gen_args_rel(
                                es,
                                i as int,
                                old(self).symbol_table@,
                                old(self).cur_block().arg_count as nat,
                                old(self).cur_block().operations@,
                                operands@.drop_last(),
                                pre.symbol_table@,
                                pre.cur_block().operations@,
                            ));
                            assert(gen_rel(
                                es[i as int],
                                pre.symbol_table@,
                                old(self).cur_block().arg_count as nat,
                                pre.cur_block().operations@,
                                v,
                                self.symbol_table@,
                                self.cur_block().operations@,
                            ));
                        }
                    }
                    i = i + 1;
                }
                proof {
                    reveal_strlit("transpose");
                    reveal_strlit("print");
                }
                let location = self.gen_loc();
                if str_eq(fn_name.as_str(), "transpose") {
                    if n != 1 {
                        return Err(
                            GenerationError::ArityMismatch {
                                callee: fn_name.clone(),
                                expected: 1,
                                actual: n,
                            },
                        );
                    }
                    let result_ty = self.builder.get_unranked_tensor_type(
                        self.builder.get_f64_type(),
                    );
                    let op = TransposeOpBuilder::new(location).input(operands[0]).result(
                        result_ty,
                    ).build();
                    proof {
                        assert(wf_operation(
                            op,
                            self.cur_block().arg_count as nat,
                            self.cur_block().operations@,
                        ));
                    }
                    let ghost pre = *self;
                    let ghost opsnap = op;
                    let v = self.emit_op(op);
                    proof {
                        lemma_prefix_trans(
                            old(self).cur_block().operations@,
                            pre.cur_block().operations@,
                            self.cur_block().operations@,
                        );
                        assert(self.cur_block().operations@.last() == opsnap);
                        assert(is_transpose_op(opsnap, operands@[0]));
                        assert(gen_rel(
                            *expr,
                            old(self).symbol_table@,
                            old(self).cur_block().arg_count as nat,
                            old(self).cur_block().operations@,
                            v,
                            self.symbol_table@,
                            self.cur_block().operations@,
                        )) by {
                            assert(witness(operands@) && witness(pre.symbol_table@) && witness(
                                pre.cur_block().operations@,
                            ));
                            assert(gen_args_rel(
                                es,
                                es.len() as int,
                                old(self).symbol_table@,
                                old(self).cur_block().arg_count as nat,
                                old(self).cur_block().operations@,
                                operands@,
                                pre.symbol_table@,
                                pre.cur_block().operations@,
                            ));
                            assert(self.cur_block().operations@.drop_last()
                                =~= pre.cur_block().operations@);
                            assert(pre.cur_block().operations@.is_prefix_of(
                                self.cur_block().operations@,
                            ));
                            assert(v == result_of(
                                old(self).cur_block().arg_count as nat,
                                pre.cur_block().operations@,
                            ));
                        }
                    }
                    Ok(v)
                } else if str_eq(fn_name.as_str(), "print") {
                    if n != 1 {
                        return Err(
                            GenerationError::ArityMismatch {
                                callee: fn_name.clone(),
                                expected: 1,
                                actual: n,
                            },
                        );
                    }
                    let input = operands[0];
                    let op = PrintOpBuilder::new(location).input(input).build();
                    proof {
                        assert(wf_operation(
                            op,
                            self.cur_block().arg_count as nat,
                            self.cur_block().operations@,
                        ));
                    }
                    let ghost pre = *self;
                    let ghost opsnap = op;
                    // the print operation produces no result; the call's own
                    // value is its operand, which nothing downstream consumes
                    let _ = self.emit_op(op);
                    proof {
                        assert(self.cur_block().operations@.last() == opsnap);
                        assert(is_print_op(opsnap, input));
                        assert(gen_rel(
                            *expr,
                            old(self).symbol_table@,
                            old(self).cur_block().arg_count as nat,
                            old(self).cur_block().operations@,
                            input,
                            self.symbol_table@,
                            self.cur_block().operations@,
                        )) by {
                            assert(witness(operands@) && witness(pre.symbol_table@) && witness(
                                pre.cur_block().operations@,
                            ));
                            assert(gen_args_rel(
                                es,
                                es.len() as int,
                                old(self).symbol_table@,
                                old(self).cur_block().arg_count as nat,
                                old(self).cur_block().operations@,
                                operands@,
                                pre.symbol_table@,
                                pre.cur_block().operations@,
                            ));
                            assert(self.cur_block().operations@.drop_last()
                                =~= pre.cur_block().operations@);
                            assert(pre.cur_block().operations@.is_prefix_of(
                                self.cur_block().operations@,
                            ));
                            assert(input == operands@[0]);
                        }
                    }
                    proof {
                        lemma_prefix_trans(
                            old(self).cur_block().operations@,
                            pre.cur_block().operations@,
                            self.cur_block().operations@,
                        );
                        lemma_wf_operand_extend(
                            input,
                            pre.cur_block().arg_count as nat,
                            pre.cur_block().operations@,
                            self.cur_block().operations@,
                        );
                    }
                    Ok(input)
                } else {
                    let result_ty = self.builder.get_unranked_tensor_type(
                        self.builder.get_f64_type(),
                    );
                    let ghost opvals = operands@;
                    let op = GenericCallOpBuilder::new(location).operands(operands).result(
                        result_ty,
                    ).callee(fn_name.as_str()).build();
                    proof {
                        assert(op.operands@ =~= Seq::<Value>::empty() + op.operands@);
                        assert(wf_operation(
                            op,
                            self.cur_block().arg_count as nat,
                            self.cur_block().operations@,
                        ));
                    }
                    let ghost pre = *self;
                    let ghost opsnap = op;
                    let v = self.emit_op(op);
                    proof {
                        lemma_prefix_trans(
                            old(self).cur_block().operations@,
                            pre.cur_block().operations@,
                            self.cur_block().operations@,
                        );
                        assert(self.cur_block().operations@.last() == opsnap);
                        assert(opsnap.operands@ =~= opvals);
                        assert(is_generic_call_op(opsnap, fn_name@, opvals));
                        assert(gen_rel(
                            *expr,
                            old(self).symbol_table@,
                            old(self).cur_block().arg_count as nat,
                            old(self).cur_block().operations@,
                            v,
                            self.symbol_table@,
                            self.cur_block().operations@,
                        )) by {
                            assert(witness(opvals) && witness(pre.symbol_table@) && witness(
                                pre.cur_block().operations@,
                            ));
                            assert(gen_args_rel(
                                es,
                                es.len() as int,
                                old(self).symbol_table@,
                                old(self).cur_block().arg_count as nat,
                                old(self).cur_block().operations@,
                                opvals,
                                pre.symbol_table@,
                                pre.cur_block().operations@,
                            ));
                            assert(self.cur_block().operations@.drop_last()
                                =~= pre.cur_block().operations@);
                            assert(pre.cur_block().operations@.is_prefix_of(
                                self.cur_block().operations@,
                            ));
                            assert(v == result_of(
                                old(self).cur_block().arg_count as nat,
                                pre.cur_block().operations@,
                            ));
                        }
                    }
                    Ok(v)
                }
            },
            Expr::Return { location, expression } => {
                proof {
                    lemma_extends_refl(self);
                }
                Err(GenerationError::UnsupportedExpressionKind)
            },
            Expr::ExprList { expressions } => {
                proof {
                    lemma_extends_refl(self);
                }
                Err(GenerationError::UnsupportedExpressionKind)
            },
        }
    }
}

impl MLIRGen {
    /// Lowers one statement: a `return` emits a return operation; any
    /// other expression is generated for its side effects and its value
    /// is dropped.
    fn mlir_gen_statement(&mut self, expr: &Expr) -> (r: Result<(), GenerationError>)
        requires
            old(self).gen_inv(),
        ensures
            final(self).gen_inv(),
            Self::extends(old(self), final(self)),
            r is Ok <==> stmt_ok(*expr, old(self).symbol_table@.dom()),
            r is Ok ==> final(self).symbol_table@.dom() == vars_after_stmt(
                *expr,
                old(self).symbol_table@.dom(),
            ),
            r is Ok ==> stmt_rel(
                *expr,
                old(self).symbol_table@,
                old(self).cur_block().arg_count as nat,
                old(self).cur_block().operations@,
                final(self).symbol_table@,
                final(self).cur_block().operations@,
            ),
    {
        match expr {
            Expr::Return { location: _loc, expression } => {
                match expression {
                    Some(inner) => {
                        let v = self.mlir_gen_expression(inner)?;
                        let location = self.gen_loc();
                        let op = ReturnOpBuilder::new(location).input(v).build();
                        proof {
                            assert(wf_operation(
                                op,
                                self.cur_block().arg_count as nat,
                                self.cur_block().operations@,
                            ));
                        }
                        let ghost mid = *self;
                        let ghost opsnap = op;
                        let _ = self.emit_op(op);
                        proof {
                            lemma_prefix_trans(
                                old(self).cur_block().operations@,
                                mid.cur_block().operations@,
                                self.cur_block().operations@,
                            );
                            assert(stmt_rel(
                                *expr,
                                old(self).symbol_table@,
                                old(self).cur_block().arg_count as nat,
                                old(self).cur_block().operations@,
                                self.symbol_table@,
                                self.cur_block().operations@,
                            )) by {
                                assert(witness(v) && witness(mid.symbol_table@) && witness(
                                    mid.cur_block().operations@,
                                ));
                                assert(self.cur_block().operations@.last() == opsnap);
                                assert(opsnap.operands@ =~= seq![v]);
                                assert(is_return_op(opsnap, seq![v]));
                                assert(self.cur_block().operations@.drop_last()
                                    =~= mid.cur_block().operations@);
                                assert(mid.cur_block().operations@.is_prefix_of(
                                    self.cur_block().operations@,
                                ));
                            }
                        }
                        Ok(())
                    },
                    None => {
                        let location = self.gen_loc();
                        let op = ReturnOpBuilder::new(location).build();
                        proof {
                            assert(wf_operation(
                                op,
                                self.cur_block().arg_count as nat,
                                self.cur_block().operations@,
                            ));
                        }
                        let ghost opsnap = op;
                        let _ = self.emit_op(op);
                        proof {
                            assert(stmt_rel(
                                *expr,
                                old(self).symbol_table@,
                                old(self).cur_block().arg_count as nat,
                                old(self).cur_block().operations@,
                                self.symbol_table@,
                                self.cur_block().operations@,
                            )) by {
                                assert(self.cur_block().operations@.last() == opsnap);
                                assert(opsnap.operands@ =~= Seq::<Value>::empty());
                                assert(is_return_op(opsnap, Seq::<Value>::empty()));
                                assert(self.cur_block().operations@.drop_last() =~= old(
                                    self,
                                ).cur_block().operations@);
                                assert(old(self).cur_block().operations@.is_prefix_of(
                                    self.cur_block().operations@,
                                ));
                            }
                        }
                        Ok(())
                    },
                }
            },
            _ => {
                let v = self.mlir_gen_expression(expr)?;
                proof {
                    assert(stmt_rel(
                        *expr,
                        old(self).symbol_table@,
                        old(self).cur_block().arg_count as nat,
                        old(self).cur_block().operations@,
                        self.symbol_table@,
                        self.cur_block().operations@,
                    )) by {
                        assert(witness(v));
                    }
                }
                Ok(())
            },
        }
    }

    /// Lowers a function body: an expression list statement by statement,
    /// any other body as a single statement.
    fn mlir_gen_body(&mut self, body: &Expr) -> (r: Result<(), GenerationError>)
        requires
            old(self).gen_inv(),
        ensures
            final(self).gen_inv(),
            Self::extends(old(self), final(self)),
            r is Ok <==> body_ok(*body, old(self).symbol_table@.dom()),
            r is Ok ==> body_rel(
                *body,
                old(self).symbol_table@,
                old(self).cur_block().arg_count as nat,
                old(self).cur_block().operations@,
                final(self).symbol_table@,
                final(self).cur_block().operations@,
            ),
    {
        match body {
            Expr::ExprList { expressions } => {
                let ghost vars0 = self.symbol_table@.dom();
                let ghost es = expressions@;
                let n = expressions.len();
                let mut i: usize = 0;
                while i < n
                    invariant
                        0 <= i <= n == es.len(),
                        es == expressions@,
                        *body matches Expr::ExprList { expressions: e2 } && e2@ == es,
                        self.gen_inv(),
                        Self::extends(old(self), self),
                        vars0 == old(self).symbol_table@.dom(),
                        stmts_ok_upto(es, i as int, vars0),
                        self.symbol_table@.dom() == stmts_vars_upto(es, i as int, vars0),
                        stmts_rel(
                            es,
                            i as int,
                            old(self).symbol_table@,
                            old(self).cur_block().arg_count as nat,
                            old(self).cur_block().operations@,
                            self.symbol_table@,
                            self.cur_block().operations@,
                        ),
                    decreases n - i,
                {
                    let ghost pre = *self;
                    match self.mlir_gen_statement(&expressions[i]) {
                        Ok(()) => {
                            proof {
                                lemma_prefix_trans(
                                    old(self).cur_block().operations@,
                                    pre.cur_block().operations@,
                                    self.cur_block().operations@,
                                );
                                assert(stmts_ok_upto(es, i + 1 as int, vars0));
                                assert(stmts_rel(
                                    es,
                                    i + 1 as int,
                                    old(self).symbol_table@,
                                    old(self).cur_block().arg_count as nat,
                                    old(self).cur_block().operations@,
                                    self.symbol_table@,
                                    self.cur_block().operations@,
                                )) by {
                                    assert(witness(pre.symbol_table@) && witness(
                                        pre.cur_block().operations@,
                                    ));
                                    assert(stmt_rel(
                                        es[i as int],
                                        pre.symbol_table@,
                                        old(self).cur_block().arg_count as nat,
                                        pre.cur_block().operations@,
                                        self.symbol_table@,
                                        self.cur_block().operations@,
                                    ));
                                }
                            }
                        },
                        Err(e) => {
                            proof {
                                lemma_prefix_trans(
                                    old(self).cur_block().operations@,
                                    pre.cur_block().operations@,
                                    self.cur_block().operations@,
                                );
                                if stmts_ok_upto(es, es.len() as int, vars0) {
                                    lemma_stmts_ok_at(es, es.len() as int, i as int, vars0);
                                }
                            }
                            return Err(e);
                        },
                    }
                    i = i + 1;
                }
                Ok(())
            },
            _ => self.mlir_gen_statement(body),
        }
    }

    /// Builds the function container for a prototype: every parameter gets
    /// a placeholder unranked-tensor type (argument shapes are refined by
    /// later shape inference), and exactly `main` is marked exported.
    fn mlir_gen_prototype(&self, prototype_ast: &Prototype) -> (r: FuncOp)
        ensures
            r.name@ == prototype_ast.name@,
            r.block.arg_count == prototype_ast.args@.len(),
            r.block.operations@ == Seq::<Operation>::empty(),
            (r.func_type matches Type::Function { inputs, results } && inputs@.len()
                == prototype_ast.args@.len() && results@.len() == 0 && (forall|i: int|
                0 <= i < inputs@.len() ==> (#[trigger] inputs@[i] matches Type::UnrankedTensor {
                    element,
                } && *element == Type::F64))),
            r.exported <==> prototype_ast.name@ == "main"@,
            !r.private_vis,
    {
        let location = self.gen_loc();
        let n = prototype_ast.args.len();
        let mut arg_types: Vec<Type> = Vec::new();
        let mut i: usize = 0;
        while i < n
            invariant
                0 <= i <= n,
                arg_types@.len() == i,
                forall|j: int|
                    0 <= j < i ==> (#[trigger] arg_types@[j] matches Type::UnrankedTensor {
                        element,
                    } && *element == Type::F64),
            decreases n - i,
        {
            let ty = self.builder.get_unranked_tensor_type(self.builder.get_f64_type());
            arg_types.push(ty);
            i = i + 1;
        }
        let func_type = self.builder.get_function_type(arg_types, Vec::new());
        let exported = str_eq(prototype_ast.name.as_str(), "main");
        FuncOp::new(location, prototype_ast.name.as_str(), func_type, exported)
    }

    /// Lowers one function: binds each parameter name to its entry-block
    /// argument, walks the body, adds the implicit return where the body
    /// did not end in one, and marks every function but `main` private.
    fn mlir_gen_function(&mut self, function_ast: &Function) -> (r: Result<FuncOp, GenerationError>)
        ensures
            r is Ok <==> func_gen_ok(*function_ast),
            r matches Ok(f) ==> wf_func(f) && visibility_ok(f) && func_terminated(f) && f.name@
                == function_ast.prototype.name@ && f.block.arg_count
                == function_ast.prototype.args@.len(),
            r matches Ok(f) ==> gen_func_rel(*function_ast, f),
    {
        let func = self.mlir_gen_prototype(&function_ast.prototype);
        let FuncOp { name, func_type, exported, private_vis, block, location } = func;
        // the scope is rebuilt for each function
        self.symbol_table = SymbolTable::new();
        self.builder.set_insertion_point(block, 0);
        let proto = &function_ast.prototype;
        let n = proto.args.len();
        let mut pos: usize = 0;
        while pos < n
            invariant
                0 <= pos <= n == proto.args@.len(),
                proto == &function_ast.prototype,
                self.gen_inv(),
                self.cur_block().arg_count == n,
                self.cur_block().operations@ == Seq::<Operation>::empty(),
                self.symbol_table@.dom() == param_set(proto.args@.take(pos as int)),
                self.symbol_table@ == param_map(proto.args@.take(pos as int)),
            decreases n - pos,
        {
            let value = Value::new(pos as u128);
            self.symbol_table.declare(proto.args[pos].clone(), value);
            proof {
                assert(proto.args@.take(pos + 1 as int).drop_last() =~= proto.args@.take(
                    pos as int,
                ));
                assert(proto.args@.take(pos + 1 as int).last() == proto.args@[pos as int]);
                assert(self.symbol_table@.dom() =~= param_set(proto.args@.take(pos + 1 as int)));
                assert(self.symbol_table@ =~= param_map(proto.args@.take(pos + 1 as int)));
            }
            pos = pos + 1;
        }
        proof {
            assert(proto.args@.take(n as int) =~= proto.args@);
        }
        let body = match &function_ast.body {
            Some(b) => b,
            None => {
                return Err(GenerationError::UnsupportedExpressionKind);
            },
        };
        match self.mlir_gen_body(body) {
            Ok(()) => (),
            Err(e) => {
                return Err(e);
            },
        }
        let ghost stab_b = self.symbol_table@;
        let ghost ops_b = self.cur_block().operations@;
        // the implicit return, where the body did not end in one
        let needs_return = match &self.builder.block {
            Some(b) => {
                let m = b.operations.len();
                if m == 0 {
                    true
                } else {
                    !str_eq(b.operations[m - 1].name.as_str(), "toy.return")
                }
            },
            None => false,
        };
        if needs_return {
            let ret_loc = self.gen_loc();
            let op = ReturnOpBuilder::new(ret_loc).build();
            proof {
                assert(wf_operation(
                    op,
                    self.cur_block().arg_count as nat,
                    self.cur_block().operations@,
                ));
            }
            let _ = self.emit_op(op);
        }
        let block_back = match self.builder.take_block() {
            Some(b) => b,
            None => {
                proof {
                    assert(false);
                }
                Block::new(0)
            },
        };
        let mut generated = FuncOp {
            name,
            func_type,
            exported,
            private_vis,
            block: block_back,
            location,
        };
        if !str_eq(generated.name.as_str(), "main") {
            generated.set_private();
        }
        proof {
            assert(gen_func_rel(*function_ast, generated)) by {
                assert(witness(stab_b) && witness(ops_b));
                assert(body_rel(
                    *body,
                    param_map(function_ast.prototype.args@),
                    function_ast.prototype.args@.len() as nat,
                    Seq::<Operation>::empty(),
                    stab_b,
                    ops_b,
                ));
                if needs_return {
                    assert(generated.block.operations@.drop_last() =~= ops_b);
                    assert(ops_b.is_prefix_of(generated.block.operations@));
                    assert(is_return_op(
                        generated.block.operations@.last(),
                        Seq::<Value>::empty(),
                    )) by {
                        assert(generated.block.operations@.last().operands@ =~= Seq::<
                            Value,
                        >::empty());
                    }
                } else {
                    assert(generated.block.operations@ == ops_b);
                }
            }
        }
        Ok(generated)
    }

    /// Lowers a whole compilation unit: its functions in declaration
    /// order.  On success the module is well formed — every operand
    /// refers to an already defined value, every constant's data fills
    /// its declared shape, every block ends in a return — and exactly the
    /// function named `main` is exported; every other one is private.
    pub fn mlir_gen(&mut self, module_ast: Module) -> (r: Result<ModuleOp, GenerationError>)
        ensures
            r is Ok <==> (forall|i: int|
                0 <= i < module_ast.functions@.len() ==> func_gen_ok(
                    #[trigger] module_ast.functions@[i],
                )),
            r matches Ok(m) ==> {
                &&& wf_module(m)
                &&& module_visibility_ok(m)
                &&& m.functions@.len() == module_ast.functions@.len()
                &&& (forall|i: int|
                    0 <= i < m.functions@.len() ==> gen_func_rel(
                        module_ast.functions@[i],
                        #[trigger] m.functions@[i],
                    ))
                &&& forall|i: int|
                    0 <= i < m.functions@.len() ==> (#[trigger] m.functions@[i]).name@
                        == module_ast.functions@[i].prototype.name@ && m.functions@[i].block.arg_count
                        == module_ast.functions@[i].prototype.args@.len() && func_terminated(
                        m.functions@[i],
                    )
            },
    {
        let location = self.gen_loc();
        let mut module = ModuleOp::new(location);
        let n = module_ast.functions.len();
        let ghost fs = module_ast.functions@;
        let mut i: usize = 0;
        while i < n
            invariant
                0 <= i <= n == fs.len(),
                fs == module_ast.functions@,
                module.functions@.len() == i,
                forall|j: int| 0 <= j < i ==> func_gen_ok(#[trigger] fs[j]),
                forall|j: int|
                    0 <= j < i ==> wf_func(#[trigger] module.functions@[j]) && visibility_ok(
                        module.functions@[j],
                    ) && func_terminated(module.functions@[j]) && module.functions@[j].name@
                        == fs[j].prototype.name@ && module.functions@[j].block.arg_count
                        == fs[j].prototype.args@.len(),
                forall|j: int|
                    0 <= j < i ==> gen_func_rel(fs[j], #[trigger] module.functions@[j]),
            decreases n - i,
        {
            let f = match self.mlir_gen_function(&module_ast.functions[i]) {
                Ok(f) => f,
                Err(e) => {
                    return Err(e);
                },
            };
            module.push_back(f);
            i = i + 1;
        }
        Ok(module)
    }
}

/// Call arity law: a call of `transpose` with any number of arguments but
/// one never generates, whatever names are in scope.  (The same holds of
/// `print`, by the same clause of [`gen_ok`].)
pub proof fn lemma_transpose_arity(e: Expr, vars: Set<Seq<char>>)
    requires
        e matches Expr::Call { fn_name, args } && fn_name@ == "transpose"@ && args@.len() != 1,
    ensures
        !gen_ok(e, vars),
{
}

/// Scope shadowing law: declaring a name twice binds it to the second
/// value — last write wins, with no shadow stack.  [`SymbolTable::declare`]
/// realizes the inserts this speaks of.
pub proof fn lemma_shadowing(m: Map<Seq<char>, Value>, name: Seq<char>, v1: Value, v2: Value)
    ensures
        m.insert(name, v1).insert(name, v2)[name] == v2,
{
}

/// The flat data of `i` equally shaped children has `i` times the product
/// of the shared shape.
proof fn lemma_flat_upto_len(es: Seq<Expr>, i: int, child: Seq<usize>)
    requires
        shaped_upto(es, i),
        i > 0 ==> child == lit_shape(es[0]),
        0 <= i <= es.len(),
    ensures
        flat_upto(es, i).len() == i * shape_product(child),
    decreases es, i,
{
    if i <= 0 {
        assert(flat_upto(es, i).len() == 0);
    } else {
        lemma_flat_upto_len(es, i - 1, child);
        lemma_shaped_at(es, i, i - 1);
        lemma_flatten_len(es[i - 1]);
        assert(flat_upto(es, i) == flat_upto(es, i - 1) + flatten(es[i - 1]));
        assert((i - 1) * shape_product(child) + shape_product(child) == i * shape_product(child))
            by (nonlinear_arith);
    }
}

} // verus!
