use lox::ast::{AstNode, BinaryOp, UnaryOp};
use lox::evaluating::{evaluate_program, EvalError, EvaluateResult};
use lox::lexing::{lexing, LexError};
use lox::parsing::{parse_tokens, ParseError, Parser, Rule};
use lox::scope::Scope;
use lox::token::{strip_whitespace, KeyWord, Number, TokenType};

fn read_float(text: String) -> u64 {
    text.parse::<f64>().unwrap().to_bits()
}

fn float_arith(op: BinaryOp, x: u64, y: u64) -> u64 {
    let a = f64::from_bits(x);
    let b = f64::from_bits(y);
    let r = match op {
        BinaryOp::Add => a + b,
        BinaryOp::Sub => a - b,
        BinaryOp::Mul => a * b,
        BinaryOp::Div => a / b,
        _ => f64::NAN,
    };
    r.to_bits()
}

fn float(x: f64) -> Number {
    Number::Float(x.to_bits())
}

fn lex(src: &str) -> Result<Vec<TokenType>, LexError> {
    lexing(src, &read_float)
}

fn parse(src: &str) -> Result<Vec<AstNode>, ParseError> {
    let tokens = lex(src).unwrap();
    parse_tokens(strip_whitespace(&tokens))
}

fn parse_error(src: &str) -> Option<ParseError> {
    parse(src).err()
}

fn run(src: &str) -> (Result<Vec<EvaluateResult>, EvalError>, Vec<EvaluateResult>) {
    let nodes = parse(src).unwrap();
    let mut printed = Vec::new();
    let r = evaluate_program(&nodes, &float_arith, &mut printed);
    (r, printed)
}

fn eval_node(node: &AstNode) -> Result<EvaluateResult, EvalError> {
    let mut printed = Vec::new();
    node.evaluate(&float_arith, &mut printed)
}

fn integer(i: i64) -> EvaluateResult {
    EvaluateResult::Number(Number::Integer(i))
}

fn lit(i: i64) -> Box<AstNode> {
    Box::new(AstNode::Number(Number::Integer(i)))
}

fn binary(left: AstNode, operator: BinaryOp, right: AstNode) -> AstNode {
    AstNode::Binary { left: Box::new(left), operator, right: Box::new(right) }
}

#[test]
fn ast_display() {
    // 42.42 + 80 - 94
    let ast = binary(
        binary(AstNode::Number(float(42.42)), BinaryOp::Add, AstNode::Number(Number::Integer(80))),
        BinaryOp::Sub,
        AstNode::Number(Number::Integer(94)),
    );
    assert_eq!(ast.to_text(&float_text), "(- (+ 42.42 80) 94)");
    let copy = ast.copy();
    assert_eq!(copy.to_text(&float_text), "(- (+ 42.42 80) 94)");
}

#[test]
fn tree_text_forms() {
    let nodes = parse("var a = 1; { print !true and a; } if a or nil print \"s\"; else (a);").unwrap();
    let texts: Vec<String> = nodes.iter().map(|n| n.to_text(&float_text)).collect();
    assert_eq!(texts, vec![
        "Variable a = 1".to_string(),
        "Block [Print (and (! true) Variable a = 1), ]".to_string(),
        "If (condition: (or Variable a = 1 nil), then: Print s, else: (group Variable a = 1))".to_string(),
    ]);
}

#[test]
fn number() {
    let r1 = eval_node(&AstNode::Binary { left: lit(1), operator: BinaryOp::Add, right: lit(2) });
    assert_eq!(r1, Ok(integer(3)));
    let r2 = eval_node(&binary(AstNode::Number(float(1.1)), BinaryOp::Add, AstNode::Number(float(2.2))));
    assert_eq!(r2, Ok(EvaluateResult::Number(float(1.1 + 2.2))));
}

#[test]
fn arithmetic() {
    let node = AstNode::Binary { operator: BinaryOp::Add, left: lit(1), right: lit(2) };
    assert_eq!(eval_node(&node), Ok(integer(3)));
}

#[test]
fn test_scanning() {
    let tokens = lex("var x = 10;\nprint x >= 2.5; // done\n\"hi\"").unwrap();
    let expected = vec![
        TokenType::KeyWord(KeyWord::Var),
        TokenType::Space,
        TokenType::Identifier("x".to_string()),
        TokenType::Space,
        TokenType::Equal,
        TokenType::Space,
        TokenType::Number(Number::Integer(10)),
        TokenType::Semicolon,
        TokenType::NewLine,
        TokenType::KeyWord(KeyWord::Print),
        TokenType::Space,
        TokenType::Identifier("x".to_string()),
        TokenType::Space,
        TokenType::GreaterEqual,
        TokenType::Space,
        TokenType::Number(float(2.5)),
        TokenType::Semicolon,
        TokenType::Space,
        TokenType::NewLine,
        TokenType::String("hi".to_string()),
    ];
    assert_eq!(tokens, expected);
}

#[test]
fn parsing_test_parse() {
    let nodes = parse("1 + 2 * 3;").unwrap();
    assert_eq!(nodes.len(), 1);
    let expected = binary(
        AstNode::Number(Number::Integer(1)),
        BinaryOp::Add,
        binary(AstNode::Number(Number::Integer(2)), BinaryOp::Mul, AstNode::Number(Number::Integer(3))),
    );
    assert_eq!(format!("{:?}", nodes[0]), format!("{:?}", expected));
}

#[test]
fn mod_test_parse() {
    let nodes = parse("(1 + 2) * -3 == -9;").unwrap();
    assert_eq!(nodes.len(), 1);
    let expected = binary(
        binary(
            AstNode::Group(Box::new(binary(
                AstNode::Number(Number::Integer(1)),
                BinaryOp::Add,
                AstNode::Number(Number::Integer(2)),
            ))),
            BinaryOp::Mul,
            AstNode::Unary { operator: UnaryOp::Negate, operand: lit(3) },
        ),
        BinaryOp::EqualEqual,
        AstNode::Unary { operator: UnaryOp::Negate, operand: lit(9) },
    );
    assert_eq!(format!("{:?}", nodes[0]), format!("{:?}", expected));
    assert_eq!(run("(1 + 2) * -3 == -9;").0, Ok(vec![EvaluateResult::Boolean(true)]));
}

#[test]
fn statement() {
    let (r, printed) = run("var a = 1; var b = \"two\"; print a + 2; print b; a = 5; print a;");
    assert_eq!(r.unwrap().len(), 6);
    assert_eq!(printed, vec![integer(3), EvaluateResult::String("two".to_string()), integer(5)]);
}

#[test]
fn if_stmt() {
    let (r, printed) = run("var x = 3; if x > 2 { print 1; } else { print 2; } if x < 2 print 3; else print 4;");
    assert!(r.is_ok());
    assert_eq!(printed, vec![integer(1), integer(4)]);
    let (r, printed) = run("if false { print 1; }");
    assert_eq!(r, Ok(vec![EvaluateResult::Nil]));
    assert!(printed.is_empty());
}

#[test]
fn logic() {
    let (r, _) = run("true and false; true or false; false or false; nil == nil or true;");
    assert_eq!(r, Err(EvalError::MismatchedOperands));
    let (r, _) = run("true and false; true or false; false or false; 1 < 2 and 2 < 3;");
    assert_eq!(
        r,
        Ok(vec![
            EvaluateResult::Boolean(false),
            EvaluateResult::Boolean(true),
            EvaluateResult::Boolean(false),
            EvaluateResult::Boolean(true),
        ])
    );
}

#[test]
fn evaluate() {
    let (r, _) = run("1 + 2; 10 / 3; 7 - 10; 2 * 3 * 4; -7 / 2; \"a\" + \"b\"; 1.5 * 2.0;");
    assert_eq!(
        r,
        Ok(vec![
            integer(3),
            integer(3),
            integer(-3),
            integer(24),
            integer(-3),
            EvaluateResult::String("ab".to_string()),
            EvaluateResult::Number(float(3.0)),
        ])
    );
}

#[test]
fn precedence_of_factor_over_term() {
    let (r, _) = run("1 + 2 * 3;");
    assert_eq!(r, Ok(vec![integer(7)]));
    let (r, _) = run("1 + 1 == 2; 2 * 3 > 5;");
    assert_eq!(r, Ok(vec![EvaluateResult::Boolean(true), EvaluateResult::Boolean(true)]));
    assert_eq!(run("1 < 2 == true;").0, Err(EvalError::MismatchedOperands));
}

#[test]
fn subtraction_is_left_associative() {
    let nodes = parse("8 - 4 - 2;").unwrap();
    let expected = binary(
        binary(AstNode::Number(Number::Integer(8)), BinaryOp::Sub, AstNode::Number(Number::Integer(4))),
        BinaryOp::Sub,
        AstNode::Number(Number::Integer(2)),
    );
    assert_eq!(format!("{:?}", nodes[0]), format!("{:?}", expected));
    assert_eq!(run("8 - 4 - 2;").0, Ok(vec![integer(2)]));
}

#[test]
fn mixed_number_kinds_fail() {
    let node = binary(AstNode::Number(Number::Integer(1)), BinaryOp::Add, AstNode::Number(float(2.0)));
    assert_eq!(eval_node(&node), Err(EvalError::MixedNumberKinds));
    let node = binary(AstNode::Number(float(2.0)), BinaryOp::Less, AstNode::Number(Number::Integer(1)));
    assert_eq!(eval_node(&node), Err(EvalError::MixedNumberKinds));
}

#[test]
fn or_and_short_circuit() {
    let failing = binary(AstNode::String("a".to_string()), BinaryOp::Add, AstNode::Number(Number::Integer(1)));
    assert_eq!(eval_node(&failing), Err(EvalError::MismatchedOperands));
    let or = AstNode::Or {
        left: Box::new(AstNode::Boolean(true)),
        right: Box::new(AstNode::Print(Box::new(failing.copy()))),
    };
    let mut printed = Vec::new();
    assert_eq!(or.evaluate(&float_arith, &mut printed), Ok(EvaluateResult::Boolean(true)));
    assert!(printed.is_empty());
    let and = AstNode::And { left: Box::new(AstNode::Boolean(false)), right: Box::new(failing) };
    assert_eq!(eval_node(&and), Ok(EvaluateResult::Boolean(false)));
    let or = AstNode::Or { left: Box::new(AstNode::Boolean(false)), right: lit(1) };
    assert_eq!(eval_node(&or), Err(EvalError::NotBoolean));
}

#[test]
fn inner_declaration_shadows_outer() {
    let (r, printed) = run("var x = 1; { var x = 2; print x; } print x;");
    assert!(r.is_ok());
    assert_eq!(printed, vec![integer(2), integer(1)]);
}

#[test]
fn assignment_reaches_outer_scope() {
    let (r, printed) = run("var x = 1; { x = 2; } print x;");
    assert!(r.is_ok());
    assert_eq!(printed, vec![integer(2)]);
}

#[test]
fn strings_and_numbers_do_not_mix() {
    assert_eq!(run("\"a\" + \"b\";").0, Ok(vec![EvaluateResult::String("ab".to_string())]));
    assert_eq!(run("\"a\" + 1;").0, Err(EvalError::MismatchedOperands));
    assert_eq!(run("\"a\" == \"a\";").0, Ok(vec![EvaluateResult::Boolean(true)]));
    assert_eq!(run("\"a\" - \"a\";").0, Err(EvalError::UndefinedOperator));
}

#[test]
fn undeclared_reference_fails_even_if_declared_later() {
    assert_eq!(parse_error("print y; var y = 1;"), Some(ParseError::UndeclaredVariable("y".to_string())));
    assert_eq!(parse_error("y = 1;"), Some(ParseError::UndeclaredVariable("y".to_string())));
    assert_eq!(parse_error("{ var z = 1; } print z;"), Some(ParseError::UndeclaredVariable("z".to_string())));
}

#[test]
fn lex_errors() {
    assert_eq!(lex("\"open"), Err(LexError::UnterminatedString));
    assert_eq!(lex("1.2.3"), Err(LexError::DoubleDot));
    assert_eq!(lex("99999999999999999999"), Err(LexError::NumberTooLarge));
    assert_eq!(lex("a @ b"), Err(LexError::UnexpectedChar('@')));
    assert_eq!(lex("9223372036854775807"), Ok(vec![TokenType::Number(Number::Integer(i64::MAX))]));
    assert_eq!(lex(""), Ok(vec![]));
}

#[test]
fn lex_operators_and_comments() {
    let tokens = lex("!= ! == = <= < >= > / // note\n").unwrap();
    let expected = vec![
        TokenType::BangEqual,
        TokenType::Space,
        TokenType::Bang,
        TokenType::Space,
        TokenType::EqualEqual,
        TokenType::Space,
        TokenType::Equal,
        TokenType::Space,
        TokenType::LessEqual,
        TokenType::Space,
        TokenType::Less,
        TokenType::Space,
        TokenType::GreaterEqual,
        TokenType::Space,
        TokenType::Greater,
        TokenType::Space,
        TokenType::Slash,
        TokenType::Space,
        TokenType::NewLine,
    ];
    assert_eq!(tokens, expected);
    assert_eq!(lex("\t_a1 while").unwrap(), vec![
        TokenType::Tab,
        TokenType::Identifier("_a1".to_string()),
        TokenType::Space,
        TokenType::KeyWord(KeyWord::While),
    ]);
}

#[test]
fn float_literal_uses_reader() {
    assert_eq!(lex("3.25").unwrap(), vec![TokenType::Number(float(3.25))]);
    assert_eq!(lex("7.").unwrap(), vec![TokenType::Number(float(7.0))]);
}

#[test]
fn parse_errors() {
    assert_eq!(
        parse_error("var 1;"),
        Some(ParseError::Unexpected { found: Some(TokenType::Number(Number::Integer(1))), rule: Rule::VarDeclaration })
    );
    assert_eq!(
        parse_error("print 1 2;"),
        Some(ParseError::Unexpected { found: Some(TokenType::Number(Number::Integer(2))), rule: Rule::PrintStatement })
    );
    assert_eq!(parse_error("{ print 1;"), Some(ParseError::Unexpected { found: None, rule: Rule::Block }));
    assert_eq!(parse_error("(1 + 2;"), Some(ParseError::Unexpected { found: Some(TokenType::Semicolon), rule: Rule::Group }));
    assert_eq!(parse_error("1 + ;"), Some(ParseError::Unexpected { found: Some(TokenType::Semicolon), rule: Rule::Primary }));
    assert_eq!(parse_error("1 = 2;"), Some(ParseError::InvalidAssignmentTarget));
    assert_eq!(
        parse_error("1 2"),
        Some(ParseError::Unexpected { found: Some(TokenType::Number(Number::Integer(2))), rule: Rule::ExpressionStatement })
    );
}

#[test]
fn end_of_input_ends_a_statement() {
    assert_eq!(run("print 1").1, vec![integer(1)]);
    assert_eq!(parse("var x = 1").unwrap().len(), 1);
    assert_eq!(parse("").unwrap().len(), 0);
}

#[test]
fn eval_errors() {
    assert_eq!(run("9223372036854775807 + 1;").0, Err(EvalError::IntegerOverflow));
    assert_eq!(run("1 / 0;").0, Err(EvalError::DivisionByZero));
    assert_eq!(run("-true;").0, Err(EvalError::UndefinedOperator));
    assert_eq!(run("!1;").0, Err(EvalError::UndefinedOperator));
    assert_eq!(run("if 1 print 2;").0, Err(EvalError::NotBoolean));
    assert_eq!(run("nil + 1;").0, Err(EvalError::MismatchedOperands));
}

#[test]
fn float_comparison_and_negation() {
    assert_eq!(run("1.5 < 2.5; 2.5 <= 2.5; 0.0 == -0.0; -1.5;").0, Ok(vec![
        EvaluateResult::Boolean(true),
        EvaluateResult::Boolean(true),
        EvaluateResult::Boolean(true),
        EvaluateResult::Number(float(-1.5)),
    ]));
    let nan = AstNode::Number(Number::Float(f64::NAN.to_bits()));
    let node = binary(nan.copy(), BinaryOp::EqualEqual, nan.copy());
    assert_eq!(eval_node(&node), Ok(EvaluateResult::Boolean(false)));
    let node = binary(nan.copy(), BinaryOp::BangEqual, nan);
    assert_eq!(eval_node(&node), Ok(EvaluateResult::Boolean(true)));
}

#[test]
fn block_value_is_last_statement() {
    assert_eq!(run("{ 1; 2; }").0, Ok(vec![integer(2)]));
    assert_eq!(run("{ }").0, Ok(vec![EvaluateResult::Nil]));
    assert_eq!(run("var u; u;").0, Ok(vec![EvaluateResult::Nil, EvaluateResult::Nil]));
}

#[test]
fn print_before_failure_is_kept() {
    let (r, printed) = run("print 1; print \"a\" + 1; print 2;");
    assert_eq!(r, Err(EvalError::MismatchedOperands));
    assert_eq!(printed, vec![integer(1)]);
}

#[test]
fn scope_chain_methods() {
    let mut scope = Scope::new();
    let name = "v".to_string();
    scope.add_var(name.clone(), AstNode::Number(Number::Integer(1)));
    scope.forward();
    assert_eq!(scope.depth(), 1);
    scope.add_var(name.clone(), AstNode::Number(Number::Integer(2)));
    assert_eq!(format!("{:?}", scope.get_var(&name)), format!("{:?}", Some(AstNode::Number(Number::Integer(2)))));
    scope.expire();
    assert_eq!(format!("{:?}", scope.get_var(&name)), format!("{:?}", Some(AstNode::Number(Number::Integer(1)))));
    assert!(scope.set_var(name.clone(), AstNode::Nil));
    assert!(!scope.set_var("w".to_string(), AstNode::Nil));
    assert_eq!(format!("{:?}", scope.get_var(&name)), format!("{:?}", Some(AstNode::Nil)));
}

#[test]
fn parser_parse_and_scopes() {
    let tokens = strip_whitespace(&lex("var a = 1; a;").unwrap());
    let mut parser = Parser::new(tokens);
    let nodes = parser.parse().unwrap();
    assert_eq!(nodes.len(), 2);
    assert!(TokenType::Space.is_skippable());
    assert!(TokenType::NewLine.is_skippable());
    assert!(!TokenType::Plus.is_skippable());
    assert_eq!(TokenType::from_char('+'), Some(TokenType::Plus));
    assert_eq!(TokenType::from_char('#'), None);
    assert_eq!(KeyWord::Print.text(), "print");
}

fn float_text(bits: u64) -> String {
    f64::from_bits(bits).to_string()
}

#[test]
fn lexing_is_lossless() {
    let src = "var answer = 42;\n{\tprint \"hi\" + answer >= 7 != !false; }\nif x <= 0 or y == 1 and z < 2 x = (a - b) / c * d;";
    let tokens = lex(src).unwrap();
    let joined: String = tokens.iter().map(|t| t.text(&float_text)).collect();
    assert_eq!(joined, src);
}

#[test]
fn token_text_forms() {
    assert_eq!(TokenType::Number(Number::Integer(-120)).text(&float_text), "-120");
    assert_eq!(TokenType::Number(Number::Integer(0)).text(&float_text), "0");
    assert_eq!(TokenType::Number(Number::Integer(i64::MIN)).text(&float_text), "-9223372036854775808");
    assert_eq!(TokenType::String("a b".to_string()).text(&float_text), "\"a b\"");
    assert_eq!(TokenType::KeyWord(KeyWord::Class).text(&float_text), "class");
    assert_eq!(TokenType::LessEqual.text(&float_text), "<=");
    assert_eq!(TokenType::Number(float(2.5)).text(&float_text), "2.5");
    assert_eq!(lox::token::integer_text(907), "907");
}

#[test]
fn printed_value_forms() {
    let (_, printed) = run("print 1 + 1; print 0.5 + 0.25; print true; print nil; print \"raw text\"; print -3;");
    let texts: Vec<String> = printed.iter().map(|v| v.to_text(&float_text)).collect();
    assert_eq!(texts, vec!["2", "0.75", "true", "nil", "raw text", "-3"]);
}
