use rew::lexer::{Lexer, Token, TokenType};

fn raw_tok(text: &str, position: usize) -> Option<Token> {
    Some(Token { typ: TokenType::Raw(text.to_string()), position })
}

fn expr_start(position: usize) -> Option<Token> {
    Some(Token { typ: TokenType::ExprStart, position })
}

fn expr_end(position: usize) -> Option<Token> {
    Some(Token { typ: TokenType::ExprEnd, position })
}

fn pipe(position: usize) -> Option<Token> {
    Some(Token { typ: TokenType::Pipe, position })
}

#[test]
fn empty_input() {
    let mut lexer = Lexer::new("");
    assert_eq!(lexer.next(), None);
}

#[test]
fn raw() {
    let mut lexer = Lexer::new("a");
    assert_eq!(lexer.next(), raw_tok("a", 0));
    assert_eq!(lexer.next(), None);
}

#[test]
fn long_raw() {
    let mut lexer = Lexer::new("abc");
    assert_eq!(lexer.next(), raw_tok("abc", 0));
    assert_eq!(lexer.next(), None);
}

#[test]
fn expression_start() {
    let mut lexer = Lexer::new("{");
    assert_eq!(lexer.next(), expr_start(0));
    assert_eq!(lexer.next(), None);
}

#[test]
fn expression_end() {
    let mut lexer = Lexer::new("}");
    assert_eq!(lexer.next(), expr_end(0));
    assert_eq!(lexer.next(), None);
}

#[test]
fn escaped_expression_start() {
    let mut lexer = Lexer::new("{{");
    assert_eq!(lexer.next(), raw_tok("{", 0));
    assert_eq!(lexer.next(), None);
}

#[test]
fn escaped_expression_end() {
    let mut lexer = Lexer::new("}}");
    assert_eq!(lexer.next(), raw_tok("}", 0));
    assert_eq!(lexer.next(), None);
}

#[test]
fn pipe_outside_expression() {
    let mut lexer = Lexer::new("|");
    assert_eq!(lexer.next(), raw_tok("|", 0));
    assert_eq!(lexer.next(), None);
}

#[test]
fn pipe_inside_expression() {
    let mut lexer = Lexer::new("{|");
    assert_eq!(lexer.next(), expr_start(0));
    assert_eq!(lexer.next(), pipe(1));
    assert_eq!(lexer.next(), None);
}

#[test]
fn escaped_pipe_inside_expression() {
    let mut lexer = Lexer::new("{||");
    assert_eq!(lexer.next(), expr_start(0));
    assert_eq!(lexer.next(), raw_tok("|", 1));
    assert_eq!(lexer.next(), None);
}

#[test]
fn raw_inside_expression() {
    let mut lexer = Lexer::new("{a");
    assert_eq!(lexer.next(), expr_start(0));
    assert_eq!(lexer.next(), raw_tok("a", 1));
    assert_eq!(lexer.next(), None);
}

#[test]
fn long_raw_inside_expression() {
    let mut lexer = Lexer::new("{abc");
    assert_eq!(lexer.next(), expr_start(0));
    assert_eq!(lexer.next(), raw_tok("abc", 1));
    assert_eq!(lexer.next(), None);
}

#[test]
fn expression_start_inside_expression() {
    let mut lexer = Lexer::new("{ {");
    assert_eq!(lexer.next(), expr_start(0));
    assert_eq!(lexer.next(), raw_tok(" ", 1));
    assert_eq!(lexer.next(), expr_start(2));
    assert_eq!(lexer.next(), None);
}

#[test]
fn escaped_expression_start_inside_expression() {
    let mut lexer = Lexer::new("{|{");
    assert_eq!(lexer.next(), expr_start(0));
    assert_eq!(lexer.next(), raw_tok("{", 1));
    assert_eq!(lexer.next(), None);
}

#[test]
fn lexer_empty_expression() {
    let mut lexer = Lexer::new("{}");
    assert_eq!(lexer.next(), expr_start(0));
    assert_eq!(lexer.next(), expr_end(1));
    assert_eq!(lexer.next(), None);
}

#[test]
fn escaped_expression_end_inside_expression() {
    let mut lexer = Lexer::new("{|}");
    assert_eq!(lexer.next(), expr_start(0));
    assert_eq!(lexer.next(), raw_tok("}", 1));
    assert_eq!(lexer.next(), None);
}

#[test]
fn expression_with_pipe() {
    let mut lexer = Lexer::new("{| }");
    assert_eq!(lexer.next(), expr_start(0));
    assert_eq!(lexer.next(), pipe(1));
    assert_eq!(lexer.next(), raw_tok(" ", 2));
    assert_eq!(lexer.next(), expr_end(3));
    assert_eq!(lexer.next(), None);
}

#[test]
fn expression_with_raw() {
    let mut lexer = Lexer::new("{a}");
    assert_eq!(lexer.next(), expr_start(0));
    assert_eq!(lexer.next(), raw_tok("a", 1));
    assert_eq!(lexer.next(), expr_end(2));
    assert_eq!(lexer.next(), None);
}

#[test]
fn expression_with_long_raw() {
    let mut lexer = Lexer::new("{abc}");
    assert_eq!(lexer.next(), expr_start(0));
    assert_eq!(lexer.next(), raw_tok("abc", 1));
    assert_eq!(lexer.next(), expr_end(4));
    assert_eq!(lexer.next(), None);
}

#[test]
fn complex_expression() {
    let mut lexer = Lexer::new("{a|bc|||def|{|}}");
    assert_eq!(lexer.next(), expr_start(0));
    assert_eq!(lexer.next(), raw_tok("a", 1));
    assert_eq!(lexer.next(), pipe(2));
    assert_eq!(lexer.next(), raw_tok("bc|", 3));
    assert_eq!(lexer.next(), pipe(7));
    assert_eq!(lexer.next(), raw_tok("def{}", 8));
    assert_eq!(lexer.next(), expr_end(15));
    assert_eq!(lexer.next(), None);
}

#[test]
fn complex_escaped_raw() {
    let mut lexer = Lexer::new("{{}}{{{{}}}}a{{b}}c{{{{d}}}}e{{f{{g}}h}}i}}");
    assert_eq!(lexer.next(), raw_tok("{}{{}}a{b}c{{d}}e{f{g}h}i}", 0));
    assert_eq!(lexer.next(), None);
}

#[test]
fn multiple_expressions() {
    let mut lexer = Lexer::new("{}{a}{bc}");
    assert_eq!(lexer.next(), expr_start(0));
    assert_eq!(lexer.next(), expr_end(1));
    assert_eq!(lexer.next(), expr_start(2));
    assert_eq!(lexer.next(), raw_tok("a", 3));
    assert_eq!(lexer.next(), expr_end(4));
    assert_eq!(lexer.next(), expr_start(5));
    assert_eq!(lexer.next(), raw_tok("bc", 6));
    assert_eq!(lexer.next(), expr_end(8));
    assert_eq!(lexer.next(), None);
}

#[test]
fn multiple_raws_and_expressions() {
    let mut lexer = Lexer::new("a{}bc{de}ghi");
    assert_eq!(lexer.next(), raw_tok("a", 0));
    assert_eq!(lexer.next(), expr_start(1));
    assert_eq!(lexer.next(), expr_end(2));
    assert_eq!(lexer.next(), raw_tok("bc", 3));
    assert_eq!(lexer.next(), expr_start(5));
    assert_eq!(lexer.next(), raw_tok("de", 6));
    assert_eq!(lexer.next(), expr_end(8));
    assert_eq!(lexer.next(), raw_tok("ghi", 9));
    assert_eq!(lexer.next(), None);
}

#[test]
fn multiple_escaped_raws_and_expressions() {
    let mut lexer = Lexer::new("{{}}{{{}}}");
    assert_eq!(lexer.next(), raw_tok("{}{", 0));
    assert_eq!(lexer.next(), expr_start(6));
    assert_eq!(lexer.next(), expr_end(7));
    assert_eq!(lexer.next(), raw_tok("}", 8));
    assert_eq!(lexer.next(), None);
}

#[test]
fn complex_input() {
    let mut lexer = Lexer::new("name_{{{c}}}.{e|s1-3}");
    assert_eq!(lexer.next(), raw_tok("name_{", 0));
    assert_eq!(lexer.next(), expr_start(7));
    assert_eq!(lexer.next(), raw_tok("c", 8));
    assert_eq!(lexer.next(), expr_end(9));
    assert_eq!(lexer.next(), raw_tok("}.", 10));
    assert_eq!(lexer.next(), expr_start(13));
    assert_eq!(lexer.next(), raw_tok("e", 14));
    assert_eq!(lexer.next(), pipe(15));
    assert_eq!(lexer.next(), raw_tok("s1-3", 16));
    assert_eq!(lexer.next(), expr_end(20));
    assert_eq!(lexer.next(), None);
}
