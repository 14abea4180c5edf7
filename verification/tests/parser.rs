use vical::app::App;
use vical::expr::{BinOp, Expr, Parser};

fn show(e: &Expr) -> String {
    match e {
        Expr::Number(t) => t.clone(),
        Expr::Neg(a) => format!("neg({})", show(a)),
        Expr::Binary(op, a, b) => {
            let name = match op {
                BinOp::Add => "add",
                BinOp::Sub => "sub",
                BinOp::Mul => "mul",
                BinOp::Div => "div",
                BinOp::Rem => "rem",
                BinOp::Pow => "pow",
            };
            format!("{}({}, {})", name, show(a), show(b))
        }
    }
}

fn parsed(input: &str) -> String {
    match App::parse_value(input) {
        Ok(e) => show(&e),
        Err(err) => {
            let done: Vec<String> = err.evaluated.iter().map(show).collect();
            format!("error [{}] {}", done.join("; "), err.message)
        }
    }
}

#[test]
fn multiplication_binds_tighter_than_addition() {
    assert_eq!(parsed("1+2*3"), "add(1, mul(2, 3))");
    assert_eq!(parsed("1*2+3"), "add(mul(1, 2), 3)");
}

#[test]
fn operators_of_one_level_group_to_the_left() {
    assert_eq!(parsed("8-3-2"), "sub(sub(8, 3), 2)");
    assert_eq!(parsed("8/4%3"), "rem(div(8, 4), 3)");
}

#[test]
fn power_groups_to_the_right() {
    assert_eq!(parsed("2^3^2"), "pow(2, pow(3, 2))");
}

#[test]
fn unary_minus_binds_tighter_than_power() {
    assert_eq!(parsed("-2^2"), "pow(neg(2), 2)");
    assert_eq!(parsed("+-+3"), "neg(3)");
}

#[test]
fn parentheses_and_blanks() {
    assert_eq!(parsed(" ( 1 +\t2 ) * 3 "), "mul(add(1, 2), 3)");
}

#[test]
fn number_literals() {
    assert_eq!(parsed("1."), "1.");
    assert_eq!(parsed(".5"), ".5");
    assert_eq!(parsed("12.25"), "12.25");
}

#[test]
fn invalid_numbers() {
    assert_eq!(parsed("1.2.3"), "error [] Invalid number: '1.2.3'");
    assert_eq!(parsed("."), "error [] Invalid number: '.'");
}

#[test]
fn unexpected_end() {
    assert_eq!(parsed(""), "error [] Expression ended unexpectedly");
    assert_eq!(parsed("1+"), "error [1] Expression ended unexpectedly");
    assert_eq!(parsed("2^"), "error [2] Expression ended unexpectedly");
}

#[test]
fn missing_parenthesis() {
    assert_eq!(parsed("(1+2"), "error [add(1, 2)] ')' not found");
    assert_eq!(parsed("3*(1"), "error [3; 1] ')' not found");
}

#[test]
fn unexpected_characters() {
    assert_eq!(parsed("a"), "error [] Unexpected character: 'a'");
    assert_eq!(parsed("1 2"), "error [1] Unexpected character: '2'");
    assert_eq!(parsed("1/0)"), "error [div(1, 0)] Unexpected character: ')'");
}

#[test]
fn finished_subtrees_come_in_evaluation_order() {
    assert_eq!(parsed("1/0 + 2*("), "error [div(1, 0); 2] Expression ended unexpectedly");
}

#[test]
fn parser_skips_whitespace_from_its_position() {
    let mut p = Parser::new("  \t 7");
    p.skip_whitespace();
    assert_eq!(p.pos, 4);
    assert_eq!(p.chars.len(), 5);
    match p.parse() {
        Ok(e) => assert_eq!(show(&e), "7"),
        Err(_) => panic!("expected a number"),
    }
}

#[test]
fn fully_parenthesised_text_reads_back() {
    assert_eq!(parsed("((1)+(2))*(-(3))"), "mul(add(1, 2), neg(3))");
}

#[test]
fn a_successful_parse_consumes_the_whole_input() {
    let mut p = Parser::new("1 + 2 \t");
    assert!(p.parse().is_ok());
    assert_eq!(p.pos, p.chars.len());
}

#[test]
fn an_invalid_number_is_read_to_the_end_of_its_run() {
    assert_eq!(parsed("1.2.3+4"), "error [] Invalid number: '1.2.3'");
}
