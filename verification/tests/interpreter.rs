use scriptlet::ast::Node;
use scriptlet::ast::Type;
use scriptlet::ast::clone_nodes;
use scriptlet::eval::Interpreter;
use scriptlet::eval::Outcome;
use scriptlet::parser::ProgramParser;
use scriptlet::semantics::ErrKind;
use scriptlet::table::ArithOp;
use scriptlet::table::NumTable;

const FUEL: u64 = 1000;

fn compute(op: ArithOp, lhs: &str, rhs: &str) -> String {
    let a: f64 = lhs.parse().unwrap();
    let b: f64 = rhs.parse().unwrap();
    match op {
        ArithOp::Add => format!("{}", a + b),
        ArithOp::Sub => format!("{}", a - b),
        ArithOp::Mul => format!("{}", a * b),
        ArithOp::Div => format!("{}", a / b),
        ArithOp::Gt => String::from(if a > b { "1" } else { "0" }),
        ArithOp::Lt => String::from(if a < b { "1" } else { "0" }),
    }
}

fn run_code(src: &str, code: Vec<Node>) -> Outcome {
    let lines: Vec<String> = src.lines().map(String::from).collect();
    let mut table = NumTable::new();
    loop {
        match Interpreter::interpret(lines.clone(), clone_nodes(&code), &table, FUEL) {
            Outcome::NeedNum { op, lhs, rhs } => {
                let result = compute(op, &lhs, &rhs);
                table.insert(op, lhs, rhs, result);
            }
            other => return other,
        }
    }
}

fn run(src: &str) -> Outcome {
    let code = ProgramParser::new().parse(src).expect("program should parse");
    run_code(src, code)
}

fn output_of(src: &str) -> String {
    match run(src) {
        Outcome::Done { output, .. } => output,
        other => panic!("expected a completed run, got {:?}", describe(&other)),
    }
}

fn failure_of(src: &str) -> (usize, ErrKind) {
    match run(src) {
        Outcome::Fail { line_number, kind, .. } => (line_number, kind),
        _ => panic!("expected a failing run"),
    }
}

fn describe(o: &Outcome) -> String {
    match o {
        Outcome::Done { output, .. } => format!("Done({:?})", output),
        Outcome::NeedNum { .. } => String::from("NeedNum"),
        Outcome::Fail { kind, problem, .. } => format!("Fail({:?}, {:?})", kind, problem),
        Outcome::OutOfFuel => String::from("OutOfFuel"),
    }
}

#[test]
fn add_numbers_is_double_sum() {
    assert_eq!(output_of("print 1.5 + 2.25;"), "3.75");
    assert_eq!(output_of("print 0.1 + 0.2;"), "0.30000000000000004");
}

#[test]
fn add_texts_joins_without_separator() {
    assert_eq!(output_of("print \"a\" + \"b\";"), "ab");
}

#[test]
fn add_number_and_text_is_type_mismatch() {
    let (line, kind) = failure_of("print 1 + \"x\";");
    assert_eq!(kind, ErrKind::TypeMismatch);
    assert_eq!(line, 0);
}

#[test]
fn eq_compares_by_textual_value() {
    assert_eq!(output_of("print \"x\" == \"x\";"), "1");
    assert_eq!(output_of("print 3 == 3;"), "1");
    assert_eq!(output_of("print 3 == 4;"), "0");
}

#[test]
fn eq_ignores_type_tags() {
    assert_eq!(output_of("print 1 == \"1\";"), "1");
}

#[test]
fn eq_is_textual_not_numeric() {
    assert_eq!(output_of("print 1.0 == 1;"), "0");
}

#[test]
fn raw_newline_in_string_keeps_the_quotes() {
    assert_eq!(output_of("print \"a\nb\";"), "\"a\nb\"");
}

#[test]
fn not_eq_is_the_negation() {
    assert_eq!(output_of("print 3 != 4;"), "1");
    assert_eq!(output_of("print \"a\" != \"a\";"), "0");
}

#[test]
fn assignment_is_copy_not_alias() {
    assert_eq!(output_of("a = 5;\nb = a;\na = 6;\nprint b;"), "5");
}

#[test]
fn identifier_chains_resolve_transitively() {
    assert_eq!(output_of("a = 5;\nb = a;\nc = b;\nprint c;"), "5");
}

#[test]
fn if_zero_skips_block() {
    assert_eq!(output_of("if (0) { print \"no\"; }"), "");
}

#[test]
fn if_nonzero_runs_block() {
    assert_eq!(output_of("if (1) { print \"t\"; }"), "t");
    assert_eq!(output_of("a = 0 - 5;\nif (a) { print \"neg\"; }"), "neg");
}

#[test]
fn division_by_zero_is_infinity() {
    assert_eq!(output_of("print 1 / 0;"), "inf");
}

#[test]
fn arithmetic_chains_associate_to_the_right() {
    assert_eq!(output_of("print 8 - 2 - 1;"), "7");
    assert_eq!(output_of("print 2 * 3 + 1;"), "8");
}

#[test]
fn comparisons_are_numeric() {
    assert_eq!(output_of("print 3 > 2;"), "1");
    assert_eq!(output_of("print 1 < 0.5;"), "0");
}

#[test]
fn comparison_of_text_is_type_mismatch() {
    let (_, kind) = failure_of("print \"a\" > \"b\";");
    assert_eq!(kind, ErrKind::TypeMismatch);
}

#[test]
fn procedure_redefinition_replaces_body() {
    assert_eq!(
        output_of("proc p { print \"a\"; }\nproc p { print \"b\"; }\ncall p;"),
        "b"
    );
}

#[test]
fn procedures_share_the_callers_bindings() {
    assert_eq!(output_of("a = 1;\nproc p { print a; }\ncall p;"), "1");
    assert_eq!(output_of("a = 1;\nproc p { a = 2; }\ncall p;\nprint a;"), "2");
}

#[test]
fn undefined_variable_read_fails() {
    let (line, kind) = failure_of("a = 1;\nprint x;");
    assert_eq!(kind, ErrKind::UndefinedIdentifier);
    assert_eq!(line, 1);
}

#[test]
fn undefined_procedure_call_fails() {
    let (_, kind) = failure_of("call nope;");
    assert_eq!(kind, ErrKind::UndefinedProcedure);
}

#[test]
fn non_identifier_assignment_target_fails() {
    let code = vec![Node::Assign(
        Box::new(Node::Num(String::from("1"))),
        Box::new(Node::Num(String::from("2"))),
    )];
    match run_code("1 = 2;", code) {
        Outcome::Fail { kind, .. } => assert_eq!(kind, ErrKind::InvalidAssignTarget),
        _ => panic!("expected a failing run"),
    }
}

#[test]
fn block_assignment_value_fails() {
    let code = vec![Node::Assign(
        Box::new(Node::Identifier(String::from("a"))),
        Box::new(Node::Block(vec![])),
    )];
    match run_code("a = {};", code) {
        Outcome::Fail { kind, .. } => assert_eq!(kind, ErrKind::InvalidAssignValue),
        _ => panic!("expected a failing run"),
    }
}

#[test]
fn printing_a_statement_form_fails() {
    let code = vec![Node::Print(Box::new(Node::Call(Box::new(Node::Identifier(
        String::from("p"),
    )))))];
    match run_code("print call p;", code) {
        Outcome::Fail { kind, .. } => assert_eq!(kind, ErrKind::InvalidPrintValue),
        _ => panic!("expected a failing run"),
    }
}

#[test]
fn procedure_name_must_be_identifier() {
    let code = vec![Node::Proc(
        Box::new(Node::Num(String::from("1"))),
        Box::new(Node::Block(vec![])),
    )];
    match run_code("proc 1 {}", code) {
        Outcome::Fail { kind, .. } => assert_eq!(kind, ErrKind::InvalidProcName),
        _ => panic!("expected a failing run"),
    }
}

#[test]
fn procedure_body_must_be_block() {
    let code = vec![Node::Proc(
        Box::new(Node::Identifier(String::from("p"))),
        Box::new(Node::Num(String::from("5"))),
    )];
    match run_code("proc p 5", code) {
        Outcome::Fail { kind, .. } => assert_eq!(kind, ErrKind::InvalidProcBody),
        _ => panic!("expected a failing run"),
    }
}

#[test]
fn non_numeric_condition_fails() {
    let (_, kind) = failure_of("if (\"a\") { print \"x\"; }");
    assert_eq!(kind, ErrKind::InvalidCondition);
}

#[test]
fn failure_stops_later_statements() {
    match run("print nope;\na = 1;") {
        Outcome::Fail { line_number, .. } => assert_eq!(line_number, 0),
        _ => panic!("expected a failing run"),
    }
}

#[test]
fn failure_reports_the_source_line() {
    match run("a = 1;\nprint nope;") {
        Outcome::Fail { line_number, line_text, .. } => {
            assert_eq!(line_number, 1);
            assert_eq!(line_text, "print nope;");
        }
        _ => panic!("expected a failing run"),
    }
}

#[test]
fn unbounded_recursion_exhausts_the_budget() {
    match run("proc p { call p; }\ncall p;") {
        Outcome::OutOfFuel => {}
        _ => panic!("expected the budget to run out"),
    }
}

#[test]
fn top_level_block_is_inert() {
    assert_eq!(output_of("{ print \"x\"; }"), "");
}

#[test]
fn comments_have_no_effect() {
    assert_eq!(output_of("// nothing here\nprint \"k\";"), "k");
}

#[test]
fn string_escapes_become_newlines() {
    assert_eq!(output_of("print \"a\\nb\";"), "a\nb");
}

#[test]
fn escaped_quotes_keep_their_backslash() {
    assert_eq!(output_of("print \"a\\\"b\";"), "a\\\"b");
}

#[test]
fn end_to_end_sum_prints_seven() {
    assert_eq!(output_of("a = 3;\nb = 4;\nprint a + b;"), "7");
}

#[test]
fn end_to_end_procedure_runs_twice() {
    assert_eq!(output_of("proc greet { print \"hi\"; }\ncall greet;\ncall greet;"), "hihi");
}

#[test]
fn end_to_end_else_branch_runs() {
    assert_eq!(
        output_of("if (1 == 2) { print \"no\"; } else { print \"yes\"; }"),
        "yes"
    );
}

#[test]
fn final_state_reports_bindings_and_procedures() {
    match run("a = 5;\nproc p { print a; }") {
        Outcome::Done { variables, procedures, .. } => {
            assert_eq!(variables.len(), 1);
            assert_eq!(variables[0].0, "a");
            assert!(matches!(variables[0].1, Type::Num));
            assert_eq!(variables[0].2, "5");
            assert_eq!(procedures.len(), 1);
            assert_eq!(procedures[0].0, "p");
            assert!(matches!(procedures[0].1, Node::Block(_)));
        }
        _ => panic!("expected a completed run"),
    }
}

#[test]
fn identifier_values_are_stored_resolved() {
    match run("a = 5;\nb = a;") {
        Outcome::Done { variables, .. } => {
            let b = variables.iter().find(|e| e.0 == "b").unwrap();
            assert!(matches!(b.1, Type::Num));
            assert_eq!(b.2, "5");
        }
        _ => panic!("expected a completed run"),
    }
}

#[test]
fn nested_conditionals_run_in_order() {
    let src = "a = 1;\nif (a) { b = 2; if (b > 1) { print \"deep\"; } }\nprint \"end\";";
    assert_eq!(output_of(src), "deepend");
}
