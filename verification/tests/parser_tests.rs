use minilang::{parse, to_source, Block, Expr, Opcode, Stmt, VarVal};

fn lit(v: i32) -> Box<Expr> {
    Box::new(Expr::Value(VarVal::I32(Some(v))))
}

#[test]
fn parse_one_function() {
    let program = parse("fn main() { 1 + 2 }").unwrap();
    assert_eq!(program.functions.len(), 1);
    let main = &program.functions[0];
    assert_eq!(main.name, "main");
    assert_eq!(main.arguments.len(), 0);
    assert_eq!(main.block.statements.len(), 0);
    assert_eq!(
        *main.block.expr,
        Expr::Op(lit(1), Opcode::Add, lit(2))
    );
}

#[test]
fn parse_empty_source() {
    let program = parse("").unwrap();
    assert_eq!(program.functions.len(), 0);
}

#[test]
fn parse_parameters() {
    let program = parse("fn f(a: i32, b: bool, c: String) { a }").unwrap();
    let f = &program.functions[0];
    assert_eq!(f.arguments.len(), 3);
    assert_eq!(f.arguments[0].ident, "a");
    assert_eq!(f.arguments[0].value, VarVal::I32(None));
    assert_eq!(f.arguments[1].ident, "b");
    assert_eq!(f.arguments[1].value, VarVal::BOOL(None));
    assert_eq!(f.arguments[2].ident, "c");
    assert_eq!(f.arguments[2].value, VarVal::STRING(None));
}

#[test]
fn precedence_binds_multiplication_tighter() {
    let program = parse("fn main() { 1 + 2 * 3 }").unwrap();
    assert_eq!(
        *program.functions[0].block.expr,
        Expr::Op(
            lit(1),
            Opcode::Add,
            Box::new(Expr::Op(lit(2), Opcode::Mul, lit(3))),
        )
    );
}

#[test]
fn operators_are_left_associative() {
    let program = parse("fn main() { 7 - 2 - 1 }").unwrap();
    assert_eq!(
        *program.functions[0].block.expr,
        Expr::Op(
            Box::new(Expr::Op(lit(7), Opcode::Sub, lit(2))),
            Opcode::Sub,
            lit(1),
        )
    );
}

#[test]
fn parentheses_group() {
    let program = parse("fn main() { (1 + 2) * 3 }").unwrap();
    assert_eq!(
        *program.functions[0].block.expr,
        Expr::Op(
            Box::new(Expr::Op(lit(1), Opcode::Add, lit(2))),
            Opcode::Mul,
            lit(3),
        )
    );
}

#[test]
fn statements_then_trailing_expression() {
    let program = parse("fn main() { x = 5; f(); x }").unwrap();
    let block = &program.functions[0].block;
    assert_eq!(block.statements.len(), 2);
    assert_eq!(block.statements[0], Stmt::Asgn("x".to_string(), lit(5)));
    assert_eq!(
        block.statements[1],
        Stmt::Expr(Box::new(Expr::Function("f".to_string(), vec![])))
    );
    assert_eq!(*block.expr, Expr::Var("x".to_string()));
}

#[test]
fn else_if_nests_as_trailing_if() {
    let program = parse("fn main() { if false { 1 } else if true { 2 } else { 3 } }").unwrap();
    let expr = &*program.functions[0].block.expr;
    match expr {
        Expr::If(outer) => {
            let else_block: &Block = outer.else_block.as_ref().unwrap();
            assert_eq!(else_block.statements.len(), 0);
            assert!(matches!(*else_block.expr, Expr::If(_)));
        },
        other => panic!("not an if-expression: {:?}", other),
    }
}

#[test]
fn call_arguments_in_order() {
    let program = parse("fn main() { f(1, 2 + 3, g()) }").unwrap();
    assert_eq!(
        *program.functions[0].block.expr,
        Expr::Function(
            "f".to_string(),
            vec![
                lit(1),
                Box::new(Expr::Op(lit(2), Opcode::Add, lit(3))),
                Box::new(Expr::Function("g".to_string(), vec![])),
            ],
        )
    );
}

#[test]
fn later_definition_replaces_earlier() {
    let program = parse("fn f() { 1 } fn f() { 2 }").unwrap();
    assert_eq!(program.functions.len(), 1);
    assert_eq!(*program.functions[0].block.expr, Expr::Value(VarVal::I32(Some(2))));
}

#[test]
fn missing_fn_keyword_is_an_error() {
    let err = parse("1 + 2").unwrap_err();
    assert_eq!(err.from, 0);
    assert_eq!(err.to, 1);
    assert_eq!(err.description, "expected `fn`");
}

#[test]
fn unexpected_end_of_input_is_an_error() {
    let err = parse("fn main() { 1 +").unwrap_err();
    assert_eq!(err.from, 15);
    assert_eq!(err.to, 15);
    assert_eq!(err.description, "expected an expression");
}

#[test]
fn block_needs_a_trailing_expression() {
    let err = parse("fn main() { x = 1; }").unwrap_err();
    assert_eq!(err.description, "expected an expression");
}

#[test]
fn lexical_error_surfaces_as_parsing_error() {
    let err = parse("fn main() { 1 $ 2 }").unwrap_err();
    assert_eq!(err.from, 14);
    assert_eq!(err.to, 15);
    assert_eq!(err.description, "unexpected character");
}

#[test]
fn round_trip_through_source() {
    let src = "fn add(a: i32, b: i32) { a + b } \
               fn main() { x = add(2, 3); if x > 4 { print(\"big\"); x } else if x == 5 { 5 } else { 0 } }";
    let first = parse(src).unwrap();
    let text = to_source(&first);
    let again = parse(&text).unwrap();
    assert_eq!(first, again);
}

#[test]
fn to_source_writes_canonical_text() {
    let program = parse("fn main(){1+2*3}").unwrap();
    assert_eq!(to_source(&program), "fn main ( ) { ( 1 + ( 2 * 3 ) ) }");
}
