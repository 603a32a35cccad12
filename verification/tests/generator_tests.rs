use yasld::generator::generate_code;
use yasld::lexer;
use yasld::parser;

fn transpile(header: &str, source: &str) -> String {
    let tokens = lexer::parse(source).unwrap();
    let ast = parser::parse(&tokens).unwrap();
    generate_code(header, &ast)
}

#[test]
fn generate_var_definition() {
    assert_eq!(transpile("", "var x 5"), "let x = 5;\n");
}

#[test]
fn generate_set_definition() {
    assert_eq!(transpile("", "var x 5 set x 6"), "let x = 5;\nx = 6;\n");
}

#[test]
fn generate_for_loop() {
    assert_eq!(
        transpile("", "for i range 0 3 i"),
        "for (i of range(0, 3)) {\n  i}\n"
    );
}

#[test]
fn generate_if_else() {
    assert_eq!(
        transpile("", "if (> 3 2) 1 0"),
        "if ((3 > 2)) {\n  1} else {\n  0}\n"
    );
}

#[test]
fn generate_arithmetic_operators() {
    assert_eq!(transpile("", "+ 1 2"), "(1 + 2)");
    assert_eq!(transpile("", "- 1 2"), "(1 - 2)");
    assert_eq!(transpile("", "* 1 2"), "(1 * 2)");
    assert_eq!(transpile("", "/ 1 2"), "(1 / 2)");
}

#[test]
fn generate_comparison_operators() {
    assert_eq!(transpile("", "== 1 2"), "(1 == 2)");
    assert_eq!(transpile("", "> 1 2"), "(1 > 2)");
    assert_eq!(transpile("", "< 1 2"), "(1 < 2)");
}

#[test]
fn generate_boolean_operators() {
    assert_eq!(transpile("", "&& true false "), "(true && false)");
    assert_eq!(transpile("", "|| true false "), "(true || false)");
    assert_eq!(transpile("", "(!true)"), "(!true)");
}

#[test]
fn generate_keeps_number_text_verbatim() {
    // the parser never evaluates numeric literals
    assert_eq!(transpile("", "var x -1.50e+3"), "let x = -1.50e+3;\n");
}

#[test]
fn generate_starts_with_the_preamble() {
    let preamble = "function* range(start, end) {}\n";
    let code = transpile(preamble, "var x 1");
    assert_eq!(code, "function* range(start, end) {}\nlet x = 1;\n");
}

#[test]
fn generate_nested_statements() {
    assert_eq!(
        transpile("", "var x 5 for i range 0 x set x (+ x i)"),
        "let x = 5;\nfor (i of range(0, x)) {\n  x = (x + i);\n}\n"
    );
}
