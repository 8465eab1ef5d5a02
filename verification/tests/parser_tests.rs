//! Tests of the lexer, the numeric literals, and the parser.

use rsml::ast::Expr;
use rsml::lexer::Lexer;
use rsml::lexer::Token;
use rsml::numeric::NumLit;
use rsml::parser::ParseErrorKind;
use rsml::parser::Parser;
use rsml::parser::PrecedenceTable;

/// The driver's standard operator precedences.
fn std_prec() -> PrecedenceTable {
    let mut prec = PrecedenceTable::new();
    prec.insert('=', 2);
    prec.insert('<', 10);
    prec.insert('+', 20);
    prec.insert('-', 20);
    prec.insert('*', 40);
    prec.insert('/', 40);
    prec
}

#[test]
fn lex_keywords_idents_and_punctuation() {
    let mut lexer = Lexer::new("def foo(a, b) { return a; }");
    let expect_idents = ["foo", "a", "b", "a"];
    let mut idents: Vec<String> = Vec::new();
    let mut kinds: Vec<&'static str> = Vec::new();
    loop {
        match lexer.lex().ok().unwrap() {
            Token::EOF => break,
            Token::Def => kinds.push("def"),
            Token::Return => kinds.push("return"),
            Token::Ident(s) => {
                kinds.push("ident");
                idents.push(s);
            }
            Token::ParenLeft => kinds.push("("),
            Token::ParenRight => kinds.push(")"),
            Token::Comma => kinds.push(","),
            Token::BlockLeft => kinds.push("{"),
            Token::BlockRight => kinds.push("}"),
            Token::Semicolon => kinds.push(";"),
            _ => kinds.push("?"),
        }
    }
    assert_eq!(
        kinds,
        vec!["def", "ident", "(", "ident", ",", "ident", ")", "{", "return", "ident", ";", "}"]
    );
    assert_eq!(idents, expect_idents);
}

#[test]
fn lex_comment_runs_to_newline() {
    let mut lexer = Lexer::new("# a comment\ndef");
    assert!(matches!(lexer.lex().ok().unwrap(), Token::Comment));
    assert!(matches!(lexer.lex().ok().unwrap(), Token::Def));
    assert!(matches!(lexer.lex().ok().unwrap(), Token::EOF));
    // after the end, the lexer keeps yielding EOF
    assert!(matches!(lexer.lex().ok().unwrap(), Token::EOF));
}

#[test]
fn lex_number_superset_and_operators() {
    let mut lexer = Lexer::new("1.5 + 2abc");
    match lexer.lex().ok().unwrap() {
        Token::Number(lit) => assert_eq!(lit.text(), "1.5"),
        other => panic!("expected a number, got {:?}", other),
    }
    assert!(matches!(lexer.lex().ok().unwrap(), Token::Op('+')));
    // hex letters are consumed into the numeric run: "2abc" is one token
    match lexer.lex().ok().unwrap() {
        Token::Number(lit) => {
            assert_eq!(lit.text(), "2abc");
            assert!(!lit.is_valid());
        }
        other => panic!("expected a number, got {:?}", other),
    }
}

#[test]
fn numeric_floor_values() {
    assert_eq!(NumLit::new("5".to_string()).value_as_usize(), 5);
    assert_eq!(NumLit::new("2.5".to_string()).value_as_usize(), 2);
    assert_eq!(NumLit::new(".75".to_string()).value_as_usize(), 0);
    assert_eq!(NumLit::new("12.".to_string()).value_as_usize(), 12);
    assert_eq!(NumLit::new("1e3".to_string()).value_as_usize(), 1000);
    assert_eq!(NumLit::new("25E1".to_string()).value_as_usize(), 250);
    assert_eq!(NumLit::new("3.25e2".to_string()).value_as_usize(), 325);
    assert_eq!(NumLit::new("1e999999999999999999999".to_string()).value_as_usize(), usize::MAX);
    assert_eq!(NumLit::new("0.0e999".to_string()).value_as_usize(), 0);
}

#[test]
fn numeric_validity() {
    assert!(NumLit::new("0".to_string()).is_valid());
    assert!(NumLit::new("1.5".to_string()).is_valid());
    assert!(NumLit::new(".5".to_string()).is_valid());
    assert!(NumLit::new("1.".to_string()).is_valid());
    assert!(NumLit::new("1e5".to_string()).is_valid());
    assert!(!NumLit::new(".".to_string()).is_valid());
    assert!(!NumLit::new("1.2.3".to_string()).is_valid());
    assert!(!NumLit::new("1a".to_string()).is_valid());
    assert!(!NumLit::new("1e".to_string()).is_valid());
    assert!(!NumLit::new("".to_string()).is_valid());
}

#[test]
fn parse_empty_main_ast_shape() {
    // AST shape equality for the fixed input: one function `main`, no
    // parameters, whose body is exactly one bare return
    let mut parser = Parser::new("def main() { return; }".to_string(), std_prec());
    let module = parser.parse_module().ok().unwrap();
    assert_eq!(module.functions.len(), 1);
    let f = &module.functions[0];
    assert_eq!(f.prototype.name, "main");
    assert_eq!(f.prototype.args.len(), 0);
    assert!(!f.prototype.is_op);
    match f.body.as_ref().unwrap() {
        Expr::ExprList { expressions } => {
            assert_eq!(expressions.len(), 1);
            match &expressions[0] {
                Expr::Return { expression, .. } => assert!(expression.is_none()),
                other => panic!("expected a return, got {:?}", other),
            }
        }
        other => panic!("expected an expression list, got {:?}", other),
    }
}

#[test]
fn parse_tensor_literal_dims_per_level() {
    let input = "def main() { var a = [[1,2],[3,4]]; }".to_string();
    let mut parser = Parser::new(input, std_prec());
    let module = parser.parse_module().ok().unwrap();
    let body = module.functions[0].body.as_ref().unwrap();
    let tensor = match body {
        Expr::ExprList { expressions } => match &expressions[0] {
            Expr::VarDecl { value, .. } => &**value,
            other => panic!("expected a declaration, got {:?}", other),
        },
        other => panic!("expected an expression list, got {:?}", other),
    };
    // the outer literal records its own element count; each inner level
    // records its own
    match tensor {
        Expr::Tensor { values, dims, .. } => {
            assert_eq!(dims, &vec![2]);
            assert_eq!(values.len(), 2);
            for inner in values {
                match inner {
                    Expr::Tensor { values, dims, .. } => {
                        assert_eq!(dims, &vec![2]);
                        assert_eq!(values.len(), 2);
                    }
                    other => panic!("expected a nested literal, got {:?}", other),
                }
            }
        }
        other => panic!("expected a tensor literal, got {:?}", other),
    }
}

#[test]
fn parse_binary_prototype_registers_precedence() {
    // parsing the prototype binds `|` at precedence 5 in the session table
    let input = "def binary| 5 (a b) { return a; }".to_string();
    let mut parser = Parser::new(input, std_prec());
    let module = parser.parse_module().ok().unwrap();
    assert_eq!(module.functions[0].prototype.name, "binary|");
    assert!(module.functions[0].prototype.is_op);
    assert_eq!(module.functions[0].prototype.prec, 5);
    assert_eq!(module.functions[0].prototype.args, vec!["a", "b"]);
    let table = parser.into_precedence();
    assert_eq!(table.get('|'), Some(5));
    assert_eq!(table.get('*'), Some(40));

    // the same table reference threads into the next parse: `|` at 5
    // binds weaker than `*` at 40
    let mut parser2 = Parser::new("def main() { return 1 | 2 * 3; }".to_string(), table);
    let module2 = parser2.parse_module().ok().unwrap();
    let body2 = module2.functions[0].body.as_ref().unwrap();
    let ret = match body2 {
        Expr::ExprList { expressions } => &expressions[0],
        other => panic!("expected an expression list, got {:?}", other),
    };
    match ret {
        Expr::Return { expression, .. } => match &**expression.as_ref().unwrap() {
            Expr::Binary { op, right, .. } => {
                assert_eq!(*op, '|');
                assert!(matches!(&**right, Expr::Binary { op: '*', .. }));
            }
            other => panic!("expected `|` at the top, got {:?}", other),
        },
        other => panic!("expected a return, got {:?}", other),
    }

    // a fresh parser with a fresh table does not retain the binding:
    // an unknown operator defaults to precedence 100 and binds tighter
    let mut parser3 = Parser::new("def main() { return 1 | 2 * 3; }".to_string(), std_prec());
    let module3 = parser3.parse_module().ok().unwrap();
    let body3 = module3.functions[0].body.as_ref().unwrap();
    let ret3 = match body3 {
        Expr::ExprList { expressions } => &expressions[0],
        other => panic!("expected an expression list, got {:?}", other),
    };
    match ret3 {
        Expr::Return { expression, .. } => match &**expression.as_ref().unwrap() {
            Expr::Binary { op, left, .. } => {
                assert_eq!(*op, '*');
                assert!(matches!(&**left, Expr::Binary { op: '|', .. }));
            }
            other => panic!("expected `*` at the top, got {:?}", other),
        },
        other => panic!("expected a return, got {:?}", other),
    }
}

#[test]
fn parse_unary_operator_becomes_call() {
    let mut parser = Parser::new("def main() { return !1; }".to_string(), std_prec());
    let module = parser.parse_module().ok().unwrap();
    let body = module.functions[0].body.as_ref().unwrap();
    match body {
        Expr::ExprList { expressions } => match &expressions[0] {
            Expr::Return { expression, .. } => match &**expression.as_ref().unwrap() {
                Expr::Call { fn_name, args } => {
                    assert_eq!(fn_name, "unary!");
                    assert_eq!(args.len(), 1);
                }
                other => panic!("expected a unary call, got {:?}", other),
            },
            other => panic!("expected a return, got {:?}", other),
        },
        other => panic!("expected an expression list, got {:?}", other),
    }
}

#[test]
fn parse_empty_call_and_shape_annotation() {
    let input = "def main() { var a<2,2> = [1,2,3,4]; foo(); }".to_string();
    let mut parser = Parser::new(input, std_prec());
    let module = parser.parse_module().ok().unwrap();
    let body = module.functions[0].body.as_ref().unwrap();
    match body {
        Expr::ExprList { expressions } => {
            assert_eq!(expressions.len(), 2);
            match &expressions[0] {
                Expr::VarDecl { name, var_type, .. } => {
                    assert_eq!(name, "a");
                    assert_eq!(var_type.shape, vec![2, 2]);
                }
                other => panic!("expected a declaration, got {:?}", other),
            }
            match &expressions[1] {
                Expr::Call { fn_name, args } => {
                    assert_eq!(fn_name, "foo");
                    assert_eq!(args.len(), 0);
                }
                other => panic!("expected a call, got {:?}", other),
            }
        }
        other => panic!("expected an expression list, got {:?}", other),
    }
}

#[test]
fn parse_error_malformed_number() {
    let mut parser = Parser::new("def main() { return 1.2.3; }".to_string(), std_prec());
    let err = parser.parse_module().err().unwrap();
    assert_eq!(err.kind, ParseErrorKind::UnexpectedToken);
    assert_eq!(err.message(), "Malformed number literal.");
}

#[test]
fn parse_error_unexpected_end() {
    let mut parser = Parser::new("def main() {".to_string(), std_prec());
    let err = parser.parse_module().err().unwrap();
    assert_eq!(err.kind, ParseErrorKind::UnexpectedEndOfInput);
}

#[test]
fn parse_error_missing_initializer() {
    let mut parser = Parser::new("def main() { var a; }".to_string(), std_prec());
    let err = parser.parse_module().err().unwrap();
    assert_eq!(err.kind, ParseErrorKind::MalformedVariableDeclaration);
}

#[test]
fn parse_error_bad_tensor() {
    let mut parser = Parser::new("def main() { var a = [1; }".to_string(), std_prec());
    let err = parser.parse_module().err().unwrap();
    assert_eq!(err.kind, ParseErrorKind::MalformedTensorLiteral);
}

#[test]
fn parse_error_top_level_junk() {
    let mut parser = Parser::new("zzz".to_string(), std_prec());
    let err = parser.parse_module().err().unwrap();
    assert_eq!(err.kind, ParseErrorKind::UnexpectedToken);
}

#[test]
fn parse_error_bad_prototype() {
    let mut parser = Parser::new("def 1() { return; }".to_string(), std_prec());
    let err = parser.parse_module().err().unwrap();
    assert_eq!(err.kind, ParseErrorKind::MalformedPrototype);
}

#[test]
fn parse_skips_comments() {
    let input = "# leading\ndef main() { # inner\n return; }".to_string();
    let mut parser = Parser::new(input, std_prec());
    let module = parser.parse_module().ok().unwrap();
    assert_eq!(module.functions.len(), 1);
}
