use minilang::{
    execute, parse, ArgList, Builtins, Env, NoNatives, RuntimeErrorType, VarVal,
};

fn run(src: &str) -> Result<VarVal, RuntimeErrorType> {
    let program = parse(src).unwrap();
    let globals = Env::new();
    let mut natives = NoNatives;
    execute(&program, &globals, &mut natives).map_err(|e| e.error_type)
}

#[test]
fn addition_evaluates() {
    assert_eq!(run("fn main() { 1 + 2 }"), Ok(VarVal::I32(Some(3))));
}

#[test]
fn undefined_function_fails() {
    assert_eq!(
        run("fn main() { foo() }"),
        Err(RuntimeErrorType::UndefinedFunction("foo".to_string()))
    );
}

#[test]
fn assignment_rebinds() {
    assert_eq!(
        run("fn main() { x = 5; x = x + 1; x }"),
        Ok(VarVal::I32(Some(6)))
    );
}

#[test]
fn if_true_takes_then_branch() {
    assert_eq!(
        run("fn main() { if true { 1 } else { 2 } }"),
        Ok(VarVal::I32(Some(1)))
    );
}

#[test]
fn else_if_chain_takes_second_branch() {
    assert_eq!(
        run("fn main() { if false { 1 } else if true { 2 } else { 3 } }"),
        Ok(VarVal::I32(Some(2)))
    );
}

#[test]
fn absent_else_yields_unit() {
    assert_eq!(run("fn main() { if false { 1 } }"), Ok(VarVal::UNIT));
}

#[test]
fn wrong_number_of_arguments_fails() {
    assert_eq!(
        run("fn add(a: i32, b: i32) { a + b } fn main() { add(1) }"),
        Err(RuntimeErrorType::WrongNumberOfArguments("add".to_string()))
    );
}

#[test]
fn int_and_string_do_not_compare() {
    assert_eq!(
        run("fn main() { 1 == \"1\" }"),
        Err(RuntimeErrorType::InvalidOperands)
    );
}

#[test]
fn booleans_conjoin() {
    assert_eq!(
        run("fn main() { true && false }"),
        Ok(VarVal::BOOL(Some(false)))
    );
}

#[test]
fn global_shadows_local() {
    let program = parse("fn main() { x = 5; x }").unwrap();
    let mut globals = Env::new();
    globals.insert("x".to_string(), VarVal::I32(Some(42)));
    let mut natives = NoNatives;
    let result = execute(&program, &globals, &mut natives).unwrap();
    assert_eq!(result, VarVal::I32(Some(42)));
}

#[test]
fn division_truncates() {
    assert_eq!(run("fn main() { 7 / 2 }"), Ok(VarVal::I32(Some(3))));
}

#[test]
fn modulo_of_seven_by_two() {
    assert_eq!(run("fn main() { 7 % 2 }"), Ok(VarVal::I32(Some(1))));
}

#[test]
fn division_by_zero_fails() {
    assert_eq!(
        run("fn main() { 1 / 0 }"),
        Err(RuntimeErrorType::DivisionByZero)
    );
    assert_eq!(
        run("fn main() { 1 % 0 }"),
        Err(RuntimeErrorType::DivisionByZero)
    );
}

#[test]
fn addition_wraps() {
    assert_eq!(
        run("fn main() { 2147483647 + 1 }"),
        Ok(VarVal::I32(Some(i32::MIN)))
    );
}

#[test]
fn condition_must_be_boolean() {
    assert_eq!(
        run("fn main() { if 1 { 2 } else { 3 } }"),
        Err(RuntimeErrorType::BooleanExpected)
    );
}

#[test]
fn undefined_variable_fails() {
    assert_eq!(
        run("fn main() { y }"),
        Err(RuntimeErrorType::UndefinedVariable("y".to_string()))
    );
}

#[test]
fn invalid_opcode_on_booleans() {
    assert_eq!(
        run("fn main() { true + false }"),
        Err(RuntimeErrorType::InvalidOpcode)
    );
}

#[test]
fn invalid_opcode_on_strings() {
    assert_eq!(
        run("fn main() { \"a\" < \"b\" }"),
        Err(RuntimeErrorType::InvalidOpcode)
    );
}

#[test]
fn strings_compare_for_equality() {
    assert_eq!(
        run("fn main() { \"ab\" == \"ab\" }"),
        Ok(VarVal::BOOL(Some(true)))
    );
    assert_eq!(
        run("fn main() { \"ab\" != \"ba\" }"),
        Ok(VarVal::BOOL(Some(true)))
    );
}

#[test]
fn missing_main_fails() {
    assert_eq!(run("fn foo() { 1 }"), Err(RuntimeErrorType::NoMain));
}

#[test]
fn main_with_parameters_fails() {
    assert_eq!(
        run("fn main(x: i32) { x }"),
        Err(RuntimeErrorType::WrongNumberOfArguments("main".to_string()))
    );
}

#[test]
fn unbounded_recursion_hits_the_limit() {
    assert_eq!(
        run("fn loopy() { loopy() } fn main() { loopy() }"),
        Err(RuntimeErrorType::RecursionLimitExceeded)
    );
}

#[test]
fn user_functions_call_each_other() {
    assert_eq!(
        run("fn twice(n: i32) { n * 2 } fn main() { twice(4) + twice(5) }"),
        Ok(VarVal::I32(Some(18)))
    );
}

#[test]
fn recursion_computes() {
    let src = "fn fac(n: i32) { if n <= 1 { 1 } else { n * fac(n - 1) } } fn main() { fac(5) }";
    assert_eq!(run(src), Ok(VarVal::I32(Some(120))));
}

#[test]
fn locals_do_not_leak_between_calls() {
    assert_eq!(
        run("fn f() { y } fn main() { y = 1; f() }"),
        Err(RuntimeErrorType::UndefinedVariable("y".to_string()))
    );
}

#[test]
fn print_builtin_records_arguments() {
    let program = parse("fn main() { print(\"hi\", 1); 0 }").unwrap();
    let globals = Env::new();
    let mut natives = Builtins::new();
    let result = execute(&program, &globals, &mut natives).unwrap();
    assert_eq!(result, VarVal::I32(Some(0)));
    assert_eq!(
        natives.printed,
        vec![ArgList {
            args: vec![
                VarVal::STRING(Some("hi".to_string())),
                VarVal::I32(Some(1)),
            ],
        }]
    );
}

#[test]
fn natives_win_over_user_functions() {
    // A user-defined `print` never runs while the native table answers to the
    // name: the call returns the native's unit, not the user body's value.
    let program = parse("fn print() { 7 } fn main() { print() }").unwrap();
    let globals = Env::new();
    let mut natives = Builtins::new();
    let result = execute(&program, &globals, &mut natives).unwrap();
    assert_eq!(result, VarVal::UNIT);
    // Without the native table, the user function runs.
    let mut none = NoNatives;
    let result = execute(&program, &globals, &mut none).unwrap();
    assert_eq!(result, VarVal::I32(Some(7)));
}

#[test]
fn arguments_evaluate_left_to_right_before_dispatch() {
    // Both argument expressions run before the arity check fails.
    assert_eq!(
        run("fn f(a: i32) { a } fn main() { f(1 / 0, 2) }"),
        Err(RuntimeErrorType::DivisionByZero)
    );
}

#[test]
fn environment_reads_back_what_was_bound() {
    let mut env = Env::new();
    assert_eq!(env.get(&"a".to_string()), None);
    env.insert("a".to_string(), VarVal::I32(Some(1)));
    env.insert("b".to_string(), VarVal::BOOL(Some(true)));
    env.insert("a".to_string(), VarVal::I32(Some(2)));
    assert_eq!(env.get(&"a".to_string()), Some(&VarVal::I32(Some(2))));
    assert_eq!(env.get(&"b".to_string()), Some(&VarVal::BOOL(Some(true))));
}
