use lmc_compiler::compile;

fn ok(src: &str) -> String {
    match compile(src) {
        Ok(s) => s,
        Err(e) => panic!("unexpected error: {}", e),
    }
}

fn err(src: &str) -> String {
    match compile(src) {
        Ok(s) => panic!("unexpected success: {}", s),
        Err(e) => e,
    }
}

#[test]
fn assign_then_output() {
    assert_eq!(
        ok("x = 5\noutput x\n"),
        "LDA var_x\nOUT\nHLT\n\nvar_x DAT 5\n\nconst_0 DAT 0\n"
    );
}

#[test]
fn input_add_output() {
    assert_eq!(
        ok("input x\ny = x + 3\noutput y"),
        "INP\nSTA var_x\nLDA var_x\nADD const_3\nSTA var_y\nLDA var_y\nOUT\nHLT\n\n\
         var_x DAT 0\nvar_y DAT 0\n\nconst_0 DAT 0\nconst_3 DAT 3\n"
    );
}

#[test]
fn while_loop_counts() {
    assert_eq!(
        ok("x = 0\nwhile x < 10\nx = x + 1\nendwhile\noutput x"),
        "while_1 LDA var_x\nSUB const_10\nBRP while_1_end\nBRA while_1_body\n\
         while_1_body LDA var_x\nADD const_1\nSTA var_x\nBRA while_1\n\
         while_1_end LDA var_x\nOUT\nHLT\n\nvar_x DAT 0\n\n\
         const_0 DAT 0\nconst_10 DAT 10\nconst_1 DAT 1\n"
    );
}

#[test]
fn if_else_equality() {
    assert_eq!(
        ok("input a\ninput b\nif a == b\noutput 1\nelse\noutput 2\nendif"),
        "INP\nSTA var_a\nINP\nSTA var_b\n\
         LDA var_a\nSUB var_b\nBRZ if_2_body\nBRA if_2_else\nif_2_body LDA const_1\nOUT\n\
         BRA if_2_end\nif_2_else LDA const_2\nOUT\nif_2_end ADD const_0\nHLT\n\n\
         var_a DAT 0\nvar_b DAT 0\n\nconst_0 DAT 0\nconst_1 DAT 1\nconst_2 DAT 2\n"
    );
}

#[test]
fn else_if_chain() {
    assert_eq!(
        ok("input a\nif a > 0\noutput 1\nelse if a == 0\noutput 2\nelse\noutput 3\nendif"),
        "INP\nSTA var_a\n\
         LDA const_0\nSUB var_a\nBRP if_1_else\nBRA if_1_body\nif_1_body LDA const_1\nOUT\n\
         BRA if_1_end\nif_1_else LDA var_a\nSUB const_0\nBRZ if_3_body\nBRA if_3_else\n\
         if_3_body LDA const_2\nOUT\n\
         BRA if_1_end\nif_3_else LDA const_3\nOUT\n\
         if_1_end ADD const_0\nHLT\n\nvar_a DAT 0\n\n\
         const_0 DAT 0\nconst_1 DAT 1\nconst_2 DAT 2\nconst_3 DAT 3\n"
    );
}

#[test]
fn while_true_with_break() {
    assert_eq!(
        ok("while true\noutput 7\nbreak\nendwhile"),
        "while_0 LDA const_7\nOUT\nBRA while_0_end\nBRA while_0\nwhile_0_end HLT\n\n\n\
         const_0 DAT 0\nconst_7 DAT 7\n"
    );
}

#[test]
fn if_without_else_ends_at_else_label() {
    assert_eq!(
        ok("input a\nif a >= 5\noutput a\nendif"),
        "INP\nSTA var_a\nLDA var_a\nSUB const_5\nBRP if_1_body\nBRA if_1_else\n\
         if_1_body LDA var_a\nOUT\nif_1_else ADD const_0\nHLT\n\nvar_a DAT 0\n\n\
         const_0 DAT 0\nconst_5 DAT 5\n"
    );
}

#[test]
fn comparison_schemas() {
    let body = |op: &str| ok(&format!("input a\nif a {} 4\nendif", op));
    assert!(body("!=").contains("LDA var_a\nSUB const_4\nBRZ if_1_else\nBRA if_1_body\n"));
    assert!(body("<").contains("LDA var_a\nSUB const_4\nBRP if_1_else\nBRA if_1_body\n"));
    assert!(body("<=").contains("LDA const_4\nSUB var_a\nBRP if_1_body\nBRA if_1_else\n"));
    assert!(body(">").contains("LDA const_4\nSUB var_a\nBRP if_1_else\nBRA if_1_body\n"));
}

#[test]
fn comments_are_ignored() {
    assert_eq!(
        ok("x = 5 // y = 3\noutput x // output y\n// output z"),
        ok("x = 5\noutput x\n")
    );
}

#[test]
fn whitespace_runs_and_crlf() {
    assert_eq!(ok("  x   =\t5\r\n\n\noutput    x\r\n"), ok("x = 5\noutput x"));
}

#[test]
fn empty_program() {
    assert_eq!(ok(""), "HLT\n\n\nconst_0 DAT 0\n");
}

#[test]
fn fold_only_for_new_names() {
    assert_eq!(
        ok("x = 1\nx = 2"),
        "LDA const_2\nSTA var_x\nHLT\n\nvar_x DAT 1\n\nconst_0 DAT 0\nconst_2 DAT 2\n"
    );
}

#[test]
fn reassignment_keeps_initial_value() {
    assert_eq!(
        ok("x = 5\ny = 1\nx = y"),
        "LDA var_y\nSTA var_x\nHLT\n\nvar_x DAT 5\nvar_y DAT 1\n\nconst_0 DAT 0\n"
    );
}

#[test]
fn negative_and_large_literals() {
    assert_eq!(
        ok("print -5 + 5000"),
        "LDA const_-5\nADD const_5000\nOUT\nHLT\n\n\n\
         const_0 DAT 0\nconst_-5 DAT -5\nconst_5000 DAT 5000\n"
    );
}

#[test]
fn subtraction_assignment() {
    assert_eq!(
        ok("a = 9\nb = a - 4"),
        "LDA var_a\nSUB const_4\nSTA var_b\nHLT\n\nvar_a DAT 9\nvar_b DAT 0\n\n\
         const_0 DAT 0\nconst_4 DAT 4\n"
    );
}

#[test]
fn literal_out_of_i32_is_an_identifier() {
    assert_eq!(
        err("output 99999999999"),
        "Error on line 0 token 2: Variable unknown identifier '99999999999'"
    );
}

#[test]
fn nested_loops_break_inner() {
    let s = ok("while true\nwhile true\nbreak\nendwhile\nendwhile");
    assert_eq!(
        s,
        "while_0 while_1 BRA while_1_end\nBRA while_1\nwhile_1_end BRA while_0\n\
         while_0_end HLT\n\n\nconst_0 DAT 0\n"
    );
}

#[test]
fn break_inside_if_finds_loop() {
    let s = ok("x = 1\nwhile true\nif x == 1\nbreak\nendif\nendwhile");
    assert!(s.contains("if_2_body BRA while_1_end\nif_2_else ADD const_0\n"));
}

#[test]
fn error_undeclared_output() {
    assert_eq!(err("output y"), "Error on line 0 token 2: Variable unknown identifier 'y'");
}

#[test]
fn error_undeclared_right_operand() {
    assert_eq!(err("x = 1\ny = x + z"), "Error on line 1 token 2: Unknown identifier 'z'");
}

#[test]
fn error_self_reference_before_declaration() {
    assert_eq!(err("x = x + 1"), "Error on line 0 token 2: Variable unknown identifier 'x'");
}

#[test]
fn error_undeclared_in_condition() {
    assert_eq!(
        err("x = 1\n\nwhile x < n\nendwhile"),
        "Error on line 2 token 2: Variable unknown identifier 'n'"
    );
}

#[test]
fn error_missing_assignment_operator() {
    assert_eq!(
        err("x 5"),
        "Error on line 0: Identifer at the beginning of a line must be followed by '='"
    );
    assert_eq!(err("x = "), "Error on line 0: Expected identifier or number");
    assert_eq!(err("x = if"), "Error on line 0 token 2: Expected identifier or number");
}

#[test]
fn error_bad_arithmetic_operator() {
    assert_eq!(err("x = 1 * 2"), "Error on line 0 token 3: Expected '+' or '-'");
    assert_eq!(err("x = 1 +"), "Error on line 0: Expected identifer or number");
    assert_eq!(err("x = 1 + if"), "Error on line 0 token 4: Expected identifer or number");
    assert_eq!(err("x = 1 + 2 3"), "Error on line 0 token 5: Unexpected token");
}

#[test]
fn error_input_shape() {
    assert_eq!(err("input"), "Error on line 0: Expected identifier");
    assert_eq!(err("input 3"), "Error on line 0 token 1: Expected identifier");
    assert_eq!(err("input a b"), "Error on line 0 token 2: Unexpected token");
}

#[test]
fn error_output_shape() {
    assert_eq!(err("output"), "Error on line 0: Expected identifier or number");
    assert_eq!(err("output 1 2"), "Error on line 0 token 3: Expected '+' or '-'");
    assert_eq!(err("output 1 -"), "Error on line 0: Expected identifer or number");
}

#[test]
fn error_condition_shape() {
    assert_eq!(
        err("x = 1\nif x"),
        "Error on line 1: Expected condition formed of two arguments and a comparison operator"
    );
    assert_eq!(err("x = 1\nif x + 1"), "Error on line 1 token 2: Expected comparison operator");
    assert_eq!(err("if + == 1"), "Error on line 0 token 1: Expected identifier or number");
    assert_eq!(err("if 1 == +"), "Error on line 0 token 3: Expected identifier or number");
}

#[test]
fn error_structure() {
    assert_eq!(err("break"), "Error on line 0: 'break' while not in loop");
    assert_eq!(
        err("endif"),
        "Error on line 0: 'endif' found while 'if' statement was not inner most control flow construct"
    );
    assert_eq!(
        err("endwhile"),
        "Error on line 0: 'endwhile' found while 'while' loop was not inner most control flow construct"
    );
    assert_eq!(
        err("else"),
        "Error on line 0: 'else' found while 'if' statement was not inner most control flow construct"
    );
    assert_eq!(err("while true\nelse"), "Error on line 1: expected 'else if' or just 'else'");
    assert_eq!(
        err("if 1 == 1\nendwhile"),
        "Error on line 1: 'endwhile' found while 'while' loop was not inner most control flow construct"
    );
    assert_eq!(
        err("if 1 == 1\nelse while"),
        "Error on line 1: 'else' found while 'if' statement was not inner most control flow construct"
    );
}

#[test]
fn error_unknown_line_start() {
    assert_eq!(
        err("\n+ 1"),
        "Error on line 1: Expected assignment, input, output, or start or end of if statement or while loop"
    );
}

#[test]
fn error_unclosed_construct() {
    assert_eq!(
        err("while true\nif 1 == 1"),
        "Error on line 1: control flow construct opened on this line is never closed"
    );
}

#[test]
fn first_error_wins() {
    assert_eq!(err("output a\noutput b"), "Error on line 0 token 2: Variable unknown identifier 'a'");
}

const SAMPLES: [&str; 5] = [
    "x = 5\noutput x",
    "input x\ny = x + 3\noutput y",
    "x = 0\nwhile x < 10\nx = x + 1\nendwhile\noutput x",
    "input a\nif a > 0\noutput 1\nelse if a == 0\noutput 2 - a\nelse\noutput 3\nendif",
    "n = 3\nwhile true\nif n <= 0\nbreak\nendif\nn = n - 1\nendwhile\nprint n + 100",
];

#[test]
fn every_referenced_cell_is_defined() {
    for src in SAMPLES {
        let listing = ok(src);
        let defined: Vec<&str> = listing
            .lines()
            .filter(|l| l.contains(" DAT "))
            .map(|l| l.split(' ').next().unwrap())
            .collect();
        for line in listing.lines().filter(|l| !l.contains(" DAT ")) {
            for word in line.split(' ') {
                if word.starts_with("var_") || word.starts_with("const_") {
                    assert!(defined.contains(&word), "{} has no cell in\n{}", word, listing);
                }
            }
        }
    }
}

#[test]
fn zero_constant_always_present() {
    for src in SAMPLES {
        assert!(ok(src).contains("\nconst_0 DAT 0\n"));
    }
}

#[test]
fn nested_constructs_close() {
    let s = ok("i = 0\nwhile i < 3\nif i == 1\noutput i\nendif\ni = i + 1\nendwhile");
    assert!(s.ends_with("while_1_end HLT\n\nvar_i DAT 0\n\nconst_0 DAT 0\nconst_3 DAT 3\nconst_1 DAT 1\n"));
}
