use expression_parser::ast::{ASTNode, UnaryFn};
use expression_parser::lexer::Lexer;
use expression_parser::number::{
    bits_are_negative, bits_are_one, bits_are_zero, bits_have_fraction, NumOp,
};
use expression_parser::parser::{ParseResult, Parser};
use expression_parser::error::ParseError;
use expression_parser::token::Token;

fn read_literal(s: String) -> u64 {
    s.parse::<f64>().unwrap().to_bits()
}

fn show(b: u64) -> String {
    format!("{}", f64::from_bits(b))
}

fn arith(op: NumOp, x: u64, y: u64) -> u64 {
    let a = f64::from_bits(x);
    let b = f64::from_bits(y);
    let r = match op {
        NumOp::Add => a + b,
        NumOp::Sub => a - b,
        NumOp::Mul => a * b,
        NumOp::Div => a / b,
        NumOp::Pow => a.powf(b),
        NumOp::Sqrt => a.sqrt(),
    };
    r.to_bits()
}

fn compile(input: &str) -> Result<ParseResult, ParseError> {
    ParseResult::from_input(input, &read_literal, &show, &arith)
}

fn compiled(input: &str) -> ParseResult {
    match compile(input) {
        Ok(r) => r,
        Err(e) => panic!("{} failed: {}", input, e.message()),
    }
}

fn token_texts(tokens: &[Token]) -> Vec<String> {
    tokens.iter().map(|t| t.to_text(&show)).collect()
}

fn value(e: &ASTNode) -> f64 {
    f64::from_bits(e.evaluate(&arith))
}

fn num(v: f64) -> ASTNode {
    ASTNode::Number(v.to_bits())
}

fn bin(op: char, l: ASTNode, r: ASTNode) -> ASTNode {
    ASTNode::BinaryOp { op, left: Box::new(l), right: Box::new(r) }
}

fn strings(v: &[&str]) -> Vec<String> {
    v.iter().map(|s| s.to_string()).collect()
}

#[test]
fn assignment_end_to_end() {
    let r = compiled("A = B + C");
    assert_eq!(token_texts(&r.tokens), strings(&["id1", "ASSIGN", "id2", "PLUS", "id3"]));
    assert_eq!(r.ast.to_text(&show), "(id1 = (id2 + id3))");
    assert!(r.semantic_warnings.is_empty());
    assert_eq!(r.three_address_code, strings(&["t1 = id2 + id3", "id1 = t1"]));
    assert_eq!(r.optimized_three_address_code, strings(&["id1 = id2 + id3"]));
    assert_eq!(
        r.identifier_table,
        vec![("A".to_string(), 1), ("B".to_string(), 2), ("C".to_string(), 3)]
    );
}

#[test]
fn multiplication_by_zero_folds_away() {
    let r = compiled("5 + 3 * 0");
    assert_eq!(r.optimized_ast.to_text(&show), "5");
    assert_eq!(r.three_address_code, strings(&["t1 = 3 * 0", "t2 = 5 + t1"]));
    // a lone number needs no instruction: its value is the operand itself
    assert!(r.optimized_three_address_code.is_empty());
}

#[test]
fn parenthesized_division_folds() {
    let r = compiled("(10 - 4) / 2");
    assert_eq!(r.optimized_ast.to_text(&show), "3");
}

#[test]
fn sqrt_folds_then_sum_folds() {
    let r = compiled("sqrt(16) + 2 * 3");
    assert_eq!(r.ast.to_text(&show), "(sqrt(16) + (2 * 3))");
    assert_eq!(r.optimized_ast.to_text(&show), "10");
}

#[test]
fn empty_input_is_end_of_input() {
    assert!(matches!(compile(""), Err(ParseError::UnexpectedEndOfInput)));
    assert!(matches!(compile("   "), Err(ParseError::UnexpectedEndOfInput)));
}

#[test]
fn division_by_zero() {
    let r = compiled("1/0");
    assert_eq!(value(&r.ast), f64::INFINITY);
    assert_eq!(r.semantic_warnings, strings(&["Warning: Division by zero detected"]));
    assert_eq!(r.optimized_ast.to_text(&show), "(1 / 0)");
    assert_eq!(r.optimized_three_address_code, strings(&["t1 = 1 / 0"]));
}

#[test]
fn evaluation_matches_float_arithmetic() {
    let r = compiled("2+3*4");
    assert_eq!(value(&r.ast), 14.0);
    assert_eq!(value(&r.ast), value(&r.ast));
    let r = compiled("8 - 3 - 2");
    assert_eq!(r.ast.to_text(&show), "((8 - 3) - 2)");
    assert_eq!(value(&r.ast), 3.0);
    let r = compiled("2 ^ 3 ^ 2");
    assert_eq!(r.ast.to_text(&show), "(2 ^ (3 ^ 2))");
    assert_eq!(value(&r.ast), 512.0);
    let r = compiled("x = 7 / 2");
    assert_eq!(value(&r.ast), 3.5);
    let r = compiled("x + 1");
    assert_eq!(value(&r.ast), 1.0);
}

#[test]
fn retokenizing_gives_the_same_table() {
    let input = "alpha + beta * alpha - gamma";
    let mut first = Lexer::new(input);
    let t1 = first.tokenize(&read_literal).ok().unwrap();
    let mut second = Lexer::new(input);
    let t2 = second.tokenize(&read_literal).ok().unwrap();
    assert_eq!(token_texts(&t1), token_texts(&t2));
    assert_eq!(token_texts(&t1), strings(&["id1", "PLUS", "id2", "MUL", "id1", "MINUS", "id3"]));
    let a = first.into_identifier_table();
    let b = second.into_identifier_table();
    assert_eq!(a, b);
    assert_eq!(
        a,
        vec![("alpha".to_string(), 1), ("beta".to_string(), 2), ("gamma".to_string(), 3)]
    );
}

#[test]
fn optimizing_constants_keeps_the_value() {
    for input in ["(2+3)*4^2", "sqrt(2) * 3 - 1 / 4", "10 / 4 + 0.5 ^ 2"] {
        let r = compiled(input);
        assert_eq!(value(&r.optimized_ast), value(&r.ast), "{}", input);
        assert!(matches!(r.optimized_ast, ASTNode::Number(_)), "{}", input);
    }
}

#[test]
fn optimizing_twice_changes_nothing() {
    for input in ["x*1 + 0*y + (2+3)", "a = b ^ 1 - 0", "1/0 + z * 1", "sqrt(q) / 1"] {
        let once = compiled(input).optimized_ast;
        let twice = once.optimize(&arith);
        assert_eq!(twice.to_text(&show), once.to_text(&show), "{}", input);
    }
}

#[test]
fn algebraic_identities() {
    assert_eq!(compiled("x*1").optimized_ast.to_text(&show), "id1");
    assert_eq!(compiled("1*x").optimized_ast.to_text(&show), "id1");
    assert_eq!(compiled("x*0").optimized_ast.to_text(&show), "0");
    assert_eq!(compiled("0*x").optimized_ast.to_text(&show), "0");
    assert_eq!(compiled("x^0").optimized_ast.to_text(&show), "1");
    assert_eq!(compiled("x^1").optimized_ast.to_text(&show), "id1");
    assert_eq!(compiled("x+0").optimized_ast.to_text(&show), "id1");
    assert_eq!(compiled("0+x").optimized_ast.to_text(&show), "id1");
    assert_eq!(compiled("x-0").optimized_ast.to_text(&show), "id1");
    assert_eq!(compiled("x/1").optimized_ast.to_text(&show), "id1");
    assert_eq!(compiled("0-x").optimized_ast.to_text(&show), "(0 - id1)");
}

#[test]
fn peephole_substitutes_a_single_use_temporary() {
    let out = ParseResult::peephole_optimize(strings(&["t1 = a - 10", "id1 = t1"]));
    assert_eq!(out, strings(&["id1 = a - 10"]));
}

#[test]
fn peephole_keeps_a_temporary_used_twice() {
    let code = strings(&["t1 = a - 10", "id1 = t1", "id2 = t1 + 1"]);
    let out = ParseResult::peephole_optimize(code.clone());
    assert_eq!(out, code);
}

#[test]
fn peephole_leaves_other_lines_alone() {
    let code = strings(&["t1 = 2 * 3", "t2 = t1 + 4", "id1 = t2"]);
    let out = ParseResult::peephole_optimize(code);
    assert_eq!(out, strings(&["t1 = 2 * 3", "id1 = t1 + 4"]));
    assert!(ParseResult::peephole_optimize(Vec::new()).is_empty());
}

#[test]
fn invalid_character() {
    match compile("2 $ 3") {
        Err(ParseError::InvalidToken(m)) => assert_eq!(m, "$"),
        _ => panic!("expected an invalid token"),
    }
    assert_eq!(ParseError::InvalidToken("$".to_string()).message(), "Invalid token: $");
}

#[test]
fn malformed_number() {
    match compile("1.2.3 + 4") {
        Err(ParseError::InvalidNumber(m)) => assert_eq!(m, "1.2.3"),
        _ => panic!("expected an invalid number"),
    }
    assert_eq!(ParseError::InvalidNumber("1.2.3".to_string()).message(), "Invalid number: 1.2.3");
}

#[test]
fn unexpected_token_and_end() {
    match compile("2 + )") {
        Err(ParseError::UnexpectedToken(m)) => assert_eq!(m, "RPAREN"),
        _ => panic!("expected an unexpected token"),
    }
    assert!(matches!(compile("2 +"), Err(ParseError::UnexpectedEndOfInput)));
    assert!(matches!(compile("sqrt"), Err(ParseError::UnexpectedEndOfInput)));
    assert_eq!(ParseError::UnexpectedEndOfInput.message(), "Unexpected end of input");
    assert_eq!(ParseError::UnexpectedToken("POW".to_string()).message(), "Unexpected token: POW");
}

#[test]
fn missing_close_paren_is_tolerated() {
    let r = compiled("(1 + 2");
    assert_eq!(r.ast.to_text(&show), "(1 + 2)");
    assert_eq!(r.optimized_ast.to_text(&show), "3");
}

#[test]
fn sqrt_binds_to_one_primary_in_any_case() {
    let r = compiled("sqrt 4 + 5");
    assert_eq!(r.ast.to_text(&show), "(sqrt(4) + 5)");
    let r = compiled("SQRT 9");
    assert_eq!(r.optimized_ast.to_text(&show), "3");
    assert!(r.identifier_table.is_empty());
    let r = compiled("sqrt(x)");
    assert_eq!(r.three_address_code, strings(&["t1 = sqrt(id1)"]));
}

#[test]
fn three_address_code_numbering() {
    let r = compiled("1 + 2 * 3");
    assert_eq!(r.three_address_code, strings(&["t1 = 2 * 3", "t2 = 1 + t1"]));
    let r = compiled("a = b * (c + 2)");
    assert_eq!(r.three_address_code, strings(&["t1 = id3 + 2", "t2 = id2 * t1", "id1 = t2"]));
    assert_eq!(r.optimized_three_address_code, strings(&["t1 = id3 + 2", "id1 = id2 * t1"]));
    let mut counter: usize = 5;
    let (code, result) = r.ast.to_three_address_code(&mut counter, &show);
    assert_eq!(code, strings(&["t5 = id3 + 2", "t6 = id2 * t5", "id1 = t6"]));
    assert_eq!(result, "id1");
    assert_eq!(counter, 8);
}

#[test]
fn complex_result_warning() {
    let e = bin('^', num(-2.0), num(0.5));
    assert_eq!(
        e.semantic_check(),
        strings(&["Warning: Negative base with fractional exponent may produce complex numbers"])
    );
    assert!(bin('^', num(-2.0), num(2.0)).semantic_check().is_empty());
    assert!(bin('^', num(2.0), num(0.5)).semantic_check().is_empty());
    let both = bin('/', bin('^', num(-8.0), num(1.5)), num(0.0));
    assert_eq!(
        both.semantic_check(),
        strings(&[
            "Warning: Division by zero detected",
            "Warning: Negative base with fractional exponent may produce complex numbers",
        ])
    );
}

#[test]
fn literal_zero_divisor_stays_unfolded() {
    let r = compiled("x + 6 / (3 - 3)");
    assert_eq!(r.optimized_ast.to_text(&show), "(id1 + (6 / 0))");
    assert!(r.semantic_warnings.is_empty());
}

#[test]
fn number_encoding_tests() {
    assert!(bits_are_zero(0.0f64.to_bits()));
    assert!(bits_are_zero((-0.0f64).to_bits()));
    assert!(!bits_are_zero(1e-300f64.to_bits()));
    assert!(bits_are_one(1.0f64.to_bits()));
    assert!(!bits_are_one(1.0000001f64.to_bits()));
    assert!(bits_are_negative((-3.0f64).to_bits()));
    assert!(bits_are_negative(f64::NEG_INFINITY.to_bits()));
    assert!(!bits_are_negative((-0.0f64).to_bits()));
    assert!(!bits_are_negative(f64::NAN.to_bits()));
    assert!(!bits_are_negative((-f64::NAN).to_bits()));
    for v in [0.5, 1.25, -2.75, 1e-310, 3.000001, f64::INFINITY, f64::NAN] {
        assert!(bits_have_fraction(f64::to_bits(v)), "{}", v);
    }
    for v in [0.0, 2.0, -8.0, 1e20, 4503599627370496.0] {
        assert!(!bits_have_fraction(f64::to_bits(v)), "{}", v);
    }
}

#[test]
fn lexer_tokens_and_whitespace() {
    let mut l = Lexer::new("  x1_y\t=(2.5)^ sqrt\n_z ");
    let t = l.tokenize(&read_literal).ok().unwrap();
    assert_eq!(
        token_texts(&t),
        strings(&["id1", "ASSIGN", "LPAREN", "NUMBER(2.5)", "RPAREN", "POW", "SQRT", "id2"])
    );
    assert_eq!(
        l.into_identifier_table(),
        vec![("x1_y".to_string(), 1), ("_z".to_string(), 2)]
    );
    assert_eq!(Token::Divide.label(), "DIV");
}

#[test]
fn parser_reads_only_one_expression() {
    let mut l = Lexer::new("1 2");
    let t = l.tokenize(&read_literal).ok().unwrap();
    let mut p = Parser::new(t);
    let e = p.parse().ok().unwrap();
    assert_eq!(e.to_text(&show), "1");
}

#[test]
fn tree_helpers() {
    let e = ASTNode::UnaryOp { op: UnaryFn::Sqrt, operand: Box::new(num(81.0)) };
    assert!(!e.has_variables());
    assert_eq!(value(&e), 9.0);
    assert_eq!(e.optimize(&arith).to_text(&show), "9");
    assert_eq!(UnaryFn::Sqrt.name(), "sqrt");
    let v = bin('+', num(1.0), ASTNode::Identifier("v".to_string(), 1));
    assert!(v.has_variables());
    assert_eq!(v.copy().to_text(&show), "(1 + id1)");
}
