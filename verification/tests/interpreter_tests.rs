use nlang::exec::RuntimeFault;
use nlang::exec::interpret;
use nlang::parser::parse;
use nlang::tokenizer::tokenize;

fn run(source: &str) -> (Vec<String>, Option<RuntimeFault>) {
    let tree = parse(tokenize(source)).unwrap();
    interpret(&tree)
}

fn run_ok(source: &str) -> Vec<String> {
    let (output, fault) = run(source);
    assert!(fault.is_none(), "unexpected fault: {:?}", fault);
    output
}

#[test]
fn declared_variable_prints_its_value() {
    assert_eq!(run_ok("let x = 5; print x;"), vec!["5"]);
}

#[test]
fn arithmetic_is_left_to_right_with_equal_precedence() {
    // (2 + 3) * 2 = 10, not 2 + (3 * 2) = 8.
    assert_eq!(run_ok("let a = 2; let b = 3; print a + b * 2;"), vec!["10"]);
}

#[test]
fn adding_strings_is_a_type_mismatch() {
    let (output, fault) = run("print \"hi\" + \"there\";");
    assert!(output.is_empty());
    assert!(matches!(fault, Some(RuntimeFault::TypeMismatch)));
}

#[test]
fn nonzero_numeric_condition_is_truthy() {
    assert_eq!(
        run_ok("let x = 1; if x { print \"yes\"; } else { print \"no\"; }"),
        vec!["yes"]
    );
}

#[test]
fn zero_condition_takes_the_else_branch() {
    assert_eq!(
        run_ok("let x = 0; if x { print \"yes\"; } else { print \"no\"; }"),
        vec!["no"]
    );
}

#[test]
fn zero_condition_without_else_does_nothing() {
    assert_eq!(run_ok("let x = 0; if x { print \"yes\"; }"), Vec::<String>::new());
}

#[test]
fn division_by_zero_faults_without_output() {
    let (output, fault) = run("let x = 10; let y = 0; print x / y;");
    assert!(output.is_empty());
    assert!(matches!(fault, Some(RuntimeFault::DivisionByZero)));
}

#[test]
fn modulo_by_zero_faults() {
    let (_, fault) = run("print 1 % 0;");
    assert!(matches!(fault, Some(RuntimeFault::DivisionByZero)));
}

#[test]
fn undefined_variable_faults_with_its_name() {
    let (output, fault) = run("print z;");
    assert!(output.is_empty());
    match fault {
        Some(RuntimeFault::UndefinedVariable(name)) => assert_eq!(name, "z"),
        other => panic!("unexpected fault: {:?}", other),
    }
}

#[test]
fn redeclaring_a_name_overwrites_the_binding() {
    assert_eq!(run_ok("let x = 1; let x = 2; print x;"), vec!["2"]);
}

#[test]
fn assignment_overwrites_a_declared_binding() {
    assert_eq!(run_ok("let x = 1; x = 5; print x;"), vec!["5"]);
}

#[test]
fn output_before_a_fault_is_kept() {
    let (output, fault) = run("print 1; print 2 / 0; print 3;");
    assert_eq!(output, vec!["1"]);
    assert!(matches!(fault, Some(RuntimeFault::DivisionByZero)));
}

#[test]
fn comparisons_produce_one_and_zero() {
    assert_eq!(run_ok("print 2 < 3;"), vec!["1"]);
    assert_eq!(run_ok("print 2 > 3;"), vec!["0"]);
    assert_eq!(run_ok("print 2 == 2;"), vec!["1"]);
    assert_eq!(run_ok("print 2 != 2;"), vec!["0"]);
}

#[test]
fn equality_chains_through_the_term_level() {
    // 10 - 2 == 8 evaluates as 10 - (2 == 8) = 10 - 0 = 10.
    assert_eq!(run_ok("let a = 10; print a - 2 == 8;"), vec!["10"]);
}

#[test]
fn string_equality_is_a_type_mismatch() {
    let (_, fault) = run("print \"a\" == \"a\";");
    assert!(matches!(fault, Some(RuntimeFault::TypeMismatch)));
}

#[test]
fn string_condition_faults() {
    let (_, fault) = run("if \"s\" { print 1; }");
    assert!(matches!(fault, Some(RuntimeFault::NonNumericCondition)));
}

#[test]
fn addition_overflow_faults() {
    let (_, fault) = run("print 2000000000 + 2000000000;");
    assert!(matches!(fault, Some(RuntimeFault::ArithmeticOverflow)));
}

#[test]
fn multiplication_overflow_faults() {
    let (_, fault) = run("print 65536 * 65536;");
    assert!(matches!(fault, Some(RuntimeFault::ArithmeticOverflow)));
}

#[test]
fn subtraction_overflow_faults() {
    let (_, fault) = run("let a = 0 - 2147483647; print a - 2;");
    assert!(matches!(fault, Some(RuntimeFault::ArithmeticOverflow)));
}

#[test]
fn negative_numbers_render_with_a_minus_sign() {
    assert_eq!(run_ok("print 0 - 7;"), vec!["-7"]);
    assert_eq!(run_ok("print 0 - 2147483647 - 1;"), vec!["-2147483648"]);
}

#[test]
fn division_truncates_towards_zero() {
    assert_eq!(run_ok("let a = 0 - 7; print a / 2;"), vec!["-3"]);
    assert_eq!(run_ok("print 7 / 2;"), vec!["3"]);
}

#[test]
fn remainder_takes_the_sign_of_the_dividend() {
    assert_eq!(run_ok("let a = 0 - 7; print a % 2;"), vec!["-1"]);
    assert_eq!(run_ok("print 7 % 2;"), vec!["1"]);
}

#[test]
fn dividing_the_smallest_number_by_minus_one_overflows() {
    let (_, fault) = run("let a = 0 - 2147483647 - 1; let b = 0 - 1; print a / b;");
    assert!(matches!(fault, Some(RuntimeFault::ArithmeticOverflow)));
}

#[test]
fn remainder_of_the_smallest_number_by_minus_one_is_zero() {
    assert_eq!(
        run_ok("let a = 0 - 2147483647 - 1; let b = 0 - 1; print a % b;"),
        vec!["0"]
    );
}

#[test]
fn each_arithmetic_operator_computes_its_exact_value() {
    assert_eq!(run_ok("print 19 + 23;"), vec!["42"]);
    assert_eq!(run_ok("print 19 - 23;"), vec!["-4"]);
    assert_eq!(run_ok("print 6 * 7;"), vec!["42"]);
    assert_eq!(run_ok("print 42 / 5;"), vec!["8"]);
    assert_eq!(run_ok("print 42 % 5;"), vec!["2"]);
}

#[test]
fn parenthesized_expressions_evaluate_inside_out() {
    assert_eq!(run_ok("print 2 * (3 + 4);"), vec!["14"]);
    assert_eq!(run_ok("print (2 * 3) + 4;"), vec!["10"]);
}

#[test]
fn strings_print_their_raw_content() {
    assert_eq!(run_ok("print \"hi there\";"), vec!["hi there"]);
}

#[test]
fn statements_run_in_program_order() {
    assert_eq!(
        run_ok("let x = 1; print x; let x = x + 1; print x; print \"done\";"),
        vec!["1", "2", "done"]
    );
}

#[test]
fn nested_conditionals_run() {
    assert_eq!(
        run_ok("let x = 1; if x { if x > 0 { print \"inner\"; } print \"outer\"; }"),
        vec!["inner", "outer"]
    );
}

#[test]
fn runs_do_not_share_bindings() {
    let tree = parse(tokenize("let x = 1; print x;")).unwrap();
    let (first, _) = interpret(&tree);
    let (second, _) = interpret(&tree);
    assert_eq!(first, vec!["1"]);
    assert_eq!(second, vec!["1"]);
    let (_, fault) = run("print x;");
    assert!(matches!(fault, Some(RuntimeFault::UndefinedVariable(_))));
}
