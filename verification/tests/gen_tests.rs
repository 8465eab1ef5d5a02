//! Tests of the generator: lowering parsed modules into the IR model.

use rsml::ast::Expr;
use rsml::ast::Location;
use rsml::ir::Attribute;
use rsml::ir::ModuleOp;
use rsml::ir::Type;
use rsml::mlir_gen::GenerationError;
use rsml::mlir_gen::MLIRGen;
use rsml::numeric::NumLit;
use rsml::op_builder::OpBuilder;
use rsml::toy_dialect::ConstantOpBuilder;
use rsml::parser::Parser;
use rsml::parser::PrecedenceTable;

fn std_prec() -> PrecedenceTable {
    let mut prec = PrecedenceTable::new();
    prec.insert('=', 2);
    prec.insert('<', 10);
    prec.insert('+', 20);
    prec.insert('-', 20);
    prec.insert('*', 40);
    prec.insert('/', 40);
    prec
}

fn generate(source: &str) -> Result<ModuleOp, GenerationError> {
    let mut parser = Parser::new(source.to_string(), std_prec());
    let module_ast = parser.parse_module().ok().unwrap();
    MLIRGen::new().mlir_gen(module_ast)
}

#[test]
fn create_constant() {
    let location = Location::new("filename.toy", 0, 0);
    let op_builder = OpBuilder::new(None, 0);
    let result_type = op_builder.get_f64_type();
    let ty = op_builder.get_f64_type();
    let ty = op_builder.get_ranked_tensor_type(vec![3, 1], ty);
    let attr = op_builder.get_dense_elements_attr(
        ty,
        vec![
            NumLit::new("1.0".to_string()),
            NumLit::new("1.0".to_string()),
            NumLit::new("1.0".to_string()),
        ],
    );
    let constant = ConstantOpBuilder::new(location).result(result_type).attribute(attr).build();
    assert_eq!(constant.name(), "toy.constant");
    assert_eq!(constant.num_operands(), 0);
    assert_eq!(constant.attributes.len(), 1);
}

#[test]
fn collect_data_flattens_depth_first() {
    let input = "def main() { var a = [[1,2],[3,4]]; }".to_string();
    let mut parser = Parser::new(input, std_prec());
    let module = parser.parse_module().ok().unwrap();
    let tensor = match module.functions[0].body.as_ref().unwrap() {
        Expr::ExprList { expressions } => match &expressions[0] {
            Expr::VarDecl { value, .. } => &**value,
            other => panic!("expected a declaration, got {:?}", other),
        },
        other => panic!("expected an expression list, got {:?}", other),
    };
    let gen = MLIRGen::new();
    let mut data = Vec::new();
    gen.collect_data(tensor, &mut data).ok().unwrap();
    let texts: Vec<&str> = data.iter().map(|lit| lit.text()).collect();
    assert_eq!(texts, vec!["1", "2", "3", "4"]);
}

#[test]
fn collect_data_rejects_non_literals() {
    // the parser never builds such a tree; hand the walker one directly
    let tensor = Expr::Tensor {
        location: Location::new("filename", 0, 0),
        values: vec![Expr::Variable("x".to_string())],
        dims: vec![1],
    };
    let gen = MLIRGen::new();
    let mut data = Vec::new();
    let err = gen.collect_data(&tensor, &mut data).err().unwrap();
    assert!(matches!(err, GenerationError::UnsupportedExpressionKind));
}

#[test]
fn shadowing_binds_second_declaration() {
    let module = generate("def main() { var a = 1; var a = 2; return a; }").ok().unwrap();
    let block = &module.functions[0].block;
    // two constants, then the return of the *second* one
    assert_eq!(block.operations.len(), 3);
    assert_eq!(block.operations[0].name(), "toy.constant");
    assert_eq!(block.operations[1].name(), "toy.constant");
    assert_eq!(block.operations[2].name(), "toy.return");
    assert_eq!(block.operations[2].num_operands(), 1);
    // values are numbered from the argument count (0 here): the second
    // constant's result is value 1
    assert_eq!(block.operations[2].operands[0].id, 1);
}

#[test]
fn transpose_arity_two_fails() {
    let err = generate("def main(a, b) { return transpose(a, b); }").err().unwrap();
    match err {
        GenerationError::ArityMismatch { callee, expected, actual } => {
            assert_eq!(callee, "transpose");
            assert_eq!(expected, 1);
            assert_eq!(actual, 2);
        }
        other => panic!("expected an arity mismatch, got {:?}", other),
    }
}

#[test]
fn transpose_arity_one_succeeds() {
    let module = generate("def main(a) { return transpose(a); }").ok().unwrap();
    let block = &module.functions[0].block;
    assert_eq!(block.arg_count, 1);
    let transposes: Vec<usize> = (0..block.operations.len())
        .filter(|i| block.operations[*i].name() == "toy.transpose")
        .collect();
    assert_eq!(transposes.len(), 1);
    let t = &block.operations[transposes[0]];
    assert_eq!(t.num_operands(), 1);
    // its operand is the block argument
    assert_eq!(t.operands[0].id, 0);
}

#[test]
fn only_main_is_exported() {
    let module = generate("def main() { return; } def helper() { return; }").ok().unwrap();
    assert_eq!(module.functions.len(), 2);
    let main = &module.functions[0];
    let helper = &module.functions[1];
    assert_eq!(main.name, "main");
    assert!(main.exported);
    assert!(!main.private_vis);
    assert_eq!(helper.name, "helper");
    assert!(!helper.exported);
    assert!(helper.private_vis);
}

#[test]
fn end_to_end_tensor_print() {
    let module = generate("def main() { var a = [[1,2],[3,4]]; print(a); }").ok().unwrap();
    assert_eq!(module.functions.len(), 1);
    let f = &module.functions[0];
    assert_eq!(f.name, "main");
    let ops = &f.block.operations;
    // in order: the constant, the print of its result, the implicit return
    assert_eq!(ops.len(), 3);
    assert_eq!(ops[0].name(), "toy.constant");
    match &ops[0].result_types[0] {
        Type::RankedTensor { shape, .. } => assert_eq!(shape, &vec![2, 2]),
        other => panic!("expected a ranked tensor, got {:?}", other),
    }
    assert_eq!(ops[0].attributes.len(), 1);
    assert_eq!(ops[0].attributes[0].name, "value");
    match &ops[0].attributes[0].attr {
        Attribute::DenseElements { data, .. } => {
            let texts: Vec<&str> = data.iter().map(|lit| lit.text()).collect();
            assert_eq!(texts, vec!["1", "2", "3", "4"]);
        }
        other => panic!("expected dense elements, got {:?}", other),
    }
    assert_eq!(ops[1].name(), "toy.print");
    assert_eq!(ops[1].num_operands(), 1);
    assert_eq!(ops[1].operands[0].id, 0);
    assert_eq!(ops[1].result_types.len(), 0);
    assert_eq!(ops[2].name(), "toy.return");
    assert_eq!(ops[2].num_operands(), 0);
}

#[test]
fn scalar_constant_is_a_one_element_tensor() {
    let module = generate("def main() { return 7; }").ok().unwrap();
    let ops = &module.functions[0].block.operations;
    assert_eq!(ops[0].name(), "toy.constant");
    match &ops[0].result_types[0] {
        Type::RankedTensor { shape, .. } => assert_eq!(shape, &vec![1]),
        other => panic!("expected a ranked tensor, got {:?}", other),
    }
    assert_eq!(ops[1].name(), "toy.return");
}

#[test]
fn reshape_on_annotated_declaration() {
    let module = generate("def main() { var a<2,2> = [1,2,3,4]; print(a); }").ok().unwrap();
    let ops = &module.functions[0].block.operations;
    assert_eq!(ops.len(), 4);
    assert_eq!(ops[0].name(), "toy.constant");
    match &ops[0].result_types[0] {
        Type::RankedTensor { shape, .. } => assert_eq!(shape, &vec![4]),
        other => panic!("expected a ranked tensor, got {:?}", other),
    }
    assert_eq!(ops[1].name(), "toy.reshape");
    match &ops[1].result_types[0] {
        Type::RankedTensor { shape, .. } => assert_eq!(shape, &vec![2, 2]),
        other => panic!("expected a ranked tensor, got {:?}", other),
    }
    // the reshaped value, not the raw initializer, is what `a` means
    assert_eq!(ops[2].name(), "toy.print");
    assert_eq!(ops[2].operands[0].id, 1);
    assert_eq!(ops[3].name(), "toy.return");
}

#[test]
fn add_and_mul_operations() {
    let module = generate("def main(a, b) { return a + b * a; }").ok().unwrap();
    let block = &module.functions[0].block;
    assert_eq!(block.arg_count, 2);
    let ops = &block.operations;
    assert_eq!(ops.len(), 3);
    assert_eq!(ops[0].name(), "toy.mul");
    assert_eq!(ops[0].operands[0].id, 1);
    assert_eq!(ops[0].operands[1].id, 0);
    assert_eq!(ops[1].name(), "toy.add");
    assert_eq!(ops[1].operands[0].id, 0);
    // the add's right operand is the mul's result (value 2 after two args)
    assert_eq!(ops[1].operands[1].id, 2);
    assert_eq!(ops[2].name(), "toy.return");
}

#[test]
fn generic_call_carries_callee_symbol() {
    let module =
        generate("def helper(x) { return x; } def main() { print(helper(1)); }").ok().unwrap();
    let ops = &module.functions[1].block.operations;
    assert_eq!(ops[0].name(), "toy.constant");
    assert_eq!(ops[1].name(), "toy.generic_call");
    assert_eq!(ops[1].num_operands(), 1);
    assert_eq!(ops[1].attributes.len(), 1);
    assert_eq!(ops[1].attributes[0].name, "callee");
    match &ops[1].attributes[0].attr {
        Attribute::FlatSymbolRef { symbol } => assert_eq!(symbol, "helper"),
        other => panic!("expected a symbol reference, got {:?}", other),
    }
}

#[test]
fn undefined_variable_fails() {
    let err = generate("def main() { return x; }").err().unwrap();
    match err {
        GenerationError::UndefinedVariable(name) => assert_eq!(name, "x"),
        other => panic!("expected an undefined variable, got {:?}", other),
    }
}

#[test]
fn subtraction_is_not_generated() {
    let err = generate("def main() { return 1 - 2; }").err().unwrap();
    match err {
        GenerationError::InvalidOperator(op) => assert_eq!(op, '-'),
        other => panic!("expected an invalid operator, got {:?}", other),
    }
}

#[test]
fn ragged_tensor_fails() {
    let err = generate("def main() { var a = [[1,2],[3]]; }").err().unwrap();
    assert!(matches!(err, GenerationError::MalformedTensorLiteral));
}

#[test]
fn print_arity_two_fails() {
    let err = generate("def main(a, b) { print(a, b); }").err().unwrap();
    match err {
        GenerationError::ArityMismatch { callee, expected, actual } => {
            assert_eq!(callee, "print");
            assert_eq!(expected, 1);
            assert_eq!(actual, 2);
        }
        other => panic!("expected an arity mismatch, got {:?}", other),
    }
}

#[test]
fn body_ending_in_return_gets_no_second_return() {
    let module = generate("def main() { return 1; }").ok().unwrap();
    let ops = &module.functions[0].block.operations;
    assert_eq!(ops.len(), 2);
    assert_eq!(ops[1].name(), "toy.return");
}

#[test]
fn parameters_bind_block_arguments_in_order() {
    let module = generate("def main(a, b, c) { return c; }").ok().unwrap();
    let block = &module.functions[0].block;
    assert_eq!(block.arg_count, 3);
    let ops = &block.operations;
    assert_eq!(ops[0].name(), "toy.return");
    assert_eq!(ops[0].operands[0].id, 2);
}
