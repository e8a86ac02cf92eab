use compiler::ast::prelude::{
    Boolean, Expression, IdentifierToken, IntegerLiteral, Node, Program, Statement,
};
use compiler::ast::{ExpressionStatement, FunctionLiteral, IfExpression, InfixExpression};
use compiler::lexer::Lexer;
use compiler::parser::{InfixParseFn, Parser, Precedence, PrefixParseFn};
use compiler::token::{Keyword, Token};

fn init_program_parsing(input: &str) -> Program {
    let mut lexer = Lexer::new(input);
    let mut parser = Parser::new(&mut lexer);
    Parser::parse_program(&mut parser)
}

fn check_let_statement(statement: &Statement, name: &str) -> bool {
    if statement.token_literal() != "LET" {
        panic!("s.TokenLiteral not 'let'. got={}", statement.token_literal());
    }

    let let_statement = match statement {
        Statement::Let(let_statement) => let_statement,
        _ => {
            panic!("statement is not a LetStatement. got={:?}", statement);
        }
    };

    if let_statement.name.0 != name {
        panic!("let_statement not {}. got={}", name, let_statement.name.0);
    }

    true
}

fn check_statement_expression(statement: &Statement) -> &ExpressionStatement {
    let Statement::Expression(expression_statement) = statement else {
        panic!("statement is not Statement::Expression. got={:?}", statement)
    };
    expression_statement
}

fn check_integer_literal(expression: &Expression, value: i64) -> &IntegerLiteral {
    let Expression::IntegerLiteral(integer_literal) = expression else {
        panic!("expression is not Expression::IntegerLiteral. got={:?}", expression);
    };
    assert_eq!(integer_literal.0, value);
    integer_literal
}

fn check_boolean_literal(expression: &Expression, value: bool) -> &Boolean {
    let Expression::Boolean(boolean) = expression else {
        panic!("expression is not Expression::Boolean. got={:?}", expression);
    };
    assert_eq!(boolean.0, value);
    boolean
}

fn check_if_expression(expression: &Expression) -> &IfExpression {
    let Expression::IfExpression(if_expression) = expression else {
        panic!("expression is not Expression::IfExpression. got={:?}", expression);
    };
    if_expression
}

fn check_identifier<'a>(expression: &'a Expression, value: &str) -> &'a IdentifierToken {
    let Expression::Identifier(identifier) = expression else {
        panic!("expression is not Expression::Identifier. got={:?}", expression);
    };
    assert_eq!(identifier.0, value);
    identifier
}

fn check_function_literal(expression: &Expression) -> &FunctionLiteral {
    let Expression::FunctionLiteral(function_literal) = expression else {
        panic!("expression is not Expression::FunctionLiteral. got={:?}", expression);
    };
    function_literal
}

enum LiteralExpression {
    Integer(i64),
    Str(&'static str),
    Bool(bool),
}

fn check_literal_expression(expression: &Expression, expected: LiteralExpression) {
    match expected {
        LiteralExpression::Integer(i) => _ = check_integer_literal(expression, i),
        LiteralExpression::Str(s) => _ = check_identifier(expression, s),
        LiteralExpression::Bool(b) => _ = check_boolean_literal(expression, b),
    }
}

fn check_infix_expression<'a>(
    expression: &'a Expression,
    left: LiteralExpression,
    operator: &str,
    right: LiteralExpression,
) -> &'a InfixExpression {
    let Expression::InfixExpression(infix_expression) = expression else {
        panic!("expression not Expression::InfixExpression. got={:?}", expression);
    };
    check_literal_expression(&infix_expression.left, left);
    assert_eq!(
        infix_expression.operator, operator,
        "infix_expression.operator is not {}. got={}",
        operator, infix_expression.operator
    );
    check_literal_expression(&infix_expression.right, right);
    infix_expression
}

#[test]
fn test_let_statements() {
    let expected = vec!["x", "y"];
    let program = init_program_parsing(
        "let x = 5;
        let y = 5;",
    );

    if program.statements.len() != expected.len() {
        panic!(
            "program statements does not contain {} statements. got={}",
            expected.len(),
            program.statements.len()
        )
    }

    for (i, tt) in expected.iter().enumerate() {
        let statement = &program.statements[i];
        if !check_let_statement(statement, tt) {
            return;
        }
    }
}

#[test]
#[should_panic]
fn test_let_statement_invalid() {
    let input = "let x 5;";
    init_program_parsing(input);
}

#[test]
fn test_return_statements() {
    let program = init_program_parsing("return 1;");
    assert_eq!(program.statements.len(), 1);
    let Statement::Return(return_statement) = &program.statements[0] else {
        panic!("statement is not a ReturnStatement");
    };
    assert_eq!(return_statement.token, Token::KEYWORD(Keyword::RETURN));
    check_integer_literal(&return_statement.return_value, 1);
    assert_eq!(program.to_string(), "return 1;");
}

#[test]
fn test_identifier_expression() {
    let program = init_program_parsing("foobar;");
    assert_eq!(
        program.statements.len(),
        1,
        "program has not enough statements. got={}",
        program.statements.len()
    );
    let statement = &program.statements[0];
    let expression_statement = check_statement_expression(statement);
    check_identifier(&expression_statement.expression, "foobar");
    assert_eq!(expression_statement.token.to_string(), "foobar");
}

#[test]
fn test_integer_expression() {
    let program = init_program_parsing("5;");
    assert_eq!(
        program.statements.len(),
        1,
        "program has not enough statements. got={}",
        program.statements.len()
    );
    let statement = &program.statements[0];
    let expression_statement = check_statement_expression(statement);
    check_integer_literal(&expression_statement.expression, 5);
    assert_eq!(expression_statement.token.to_string(), "5");
}

#[test]
fn test_parsing_prefix_bang() {
    let program = init_program_parsing("!5;");
    assert_eq!(program.statements.len(), 1);
    let expression_statement = check_statement_expression(&program.statements[0]);
    let Expression::PrefixExpression(prefix) = &expression_statement.expression else {
        panic!("expression is not a PrefixExpression");
    };
    assert_eq!(prefix.operator, "!");
    check_integer_literal(&prefix.right, 5);
}

#[test]
fn test_parsing_prefix_minus() {
    let program = init_program_parsing("-15;");
    assert_eq!(program.statements.len(), 1);
    let expression_statement = check_statement_expression(&program.statements[0]);
    let Expression::PrefixExpression(prefix) = &expression_statement.expression else {
        panic!("expression is not a PrefixExpression");
    };
    assert_eq!(prefix.operator, "-");
    check_integer_literal(&prefix.right, 15);
}

#[test]
fn test_parsing_infix_expression_add() {
    let program = init_program_parsing("5 + 5;");
    assert_eq!(program.statements.len(), 1);
    let expression_statement = check_statement_expression(&program.statements[0]);
    check_infix_expression(
        &expression_statement.expression,
        LiteralExpression::Integer(5),
        "+",
        LiteralExpression::Integer(5),
    );
}

#[test]
fn test_parsing_infix_expression_subtract() {
    let program = init_program_parsing("5 - 5;");
    assert_eq!(program.statements.len(), 1);
    let expression_statement = check_statement_expression(&program.statements[0]);
    check_infix_expression(
        &expression_statement.expression,
        LiteralExpression::Integer(5),
        "-",
        LiteralExpression::Integer(5),
    );
}

#[test]
fn test_parsing_infix_expression_multiply() {
    let program = init_program_parsing("5 * 5;");
    assert_eq!(program.statements.len(), 1);
    let expression_statement = check_statement_expression(&program.statements[0]);
    check_infix_expression(
        &expression_statement.expression,
        LiteralExpression::Integer(5),
        "*",
        LiteralExpression::Integer(5),
    );
}

#[test]
fn test_parsing_infix_expression_divide() {
    let program = init_program_parsing("5 / 5;");
    assert_eq!(program.statements.len(), 1);
    let expression_statement = check_statement_expression(&program.statements[0]);
    check_infix_expression(
        &expression_statement.expression,
        LiteralExpression::Integer(5),
        "/",
        LiteralExpression::Integer(5),
    );
}

#[test]
fn test_parsing_infix_expression_greater_than() {
    let program = init_program_parsing("5 > 5;");
    assert_eq!(program.statements.len(), 1);
    let expression_statement = check_statement_expression(&program.statements[0]);
    check_infix_expression(
        &expression_statement.expression,
        LiteralExpression::Integer(5),
        ">",
        LiteralExpression::Integer(5),
    );
}

#[test]
fn test_parsing_infix_expression_less_than() {
    let program = init_program_parsing("5 < 5;");
    assert_eq!(program.statements.len(), 1);
    let expression_statement = check_statement_expression(&program.statements[0]);
    check_infix_expression(
        &expression_statement.expression,
        LiteralExpression::Integer(5),
        "<",
        LiteralExpression::Integer(5),
    );
}

#[test]
fn test_parsing_infix_expression_equal() {
    let program = init_program_parsing("5 == 5;");
    assert_eq!(program.statements.len(), 1);
    let expression_statement = check_statement_expression(&program.statements[0]);
    check_infix_expression(
        &expression_statement.expression,
        LiteralExpression::Integer(5),
        "==",
        LiteralExpression::Integer(5),
    );
}

#[test]
fn test_parsing_infix_expression_not_equal() {
    let program = init_program_parsing("5 != 5;");
    assert_eq!(program.statements.len(), 1);
    let expression_statement = check_statement_expression(&program.statements[0]);
    check_infix_expression(
        &expression_statement.expression,
        LiteralExpression::Integer(5),
        "!=",
        LiteralExpression::Integer(5),
    );
}

#[test]
fn test_operator_precedence_parsing_neg_a_times_b() {
    let input = "-a * b";
    let program = init_program_parsing(input);
    assert_eq!(program.to_string(), "((-a) * b)", "input: {}", input);
}

#[test]
fn test_operator_precedence_parsing_bang_neg_a() {
    let input = "!-a";
    let program = init_program_parsing(input);
    assert_eq!(program.to_string(), "(!(-a))", "input: {}", input);
}

#[test]
fn test_operator_precedence_parsing_a_plus_b_plus_c() {
    let input = "a + b + c";
    let program = init_program_parsing(input);
    assert_eq!(program.to_string(), "((a + b) + c)", "input: {}", input);
}

#[test]
fn test_operator_precedence_parsing_a_plus_b_minus_c() {
    let input = "a + b - c";
    let program = init_program_parsing(input);
    assert_eq!(program.to_string(), "((a + b) - c)", "input: {}", input);
}

#[test]
fn test_operator_precedence_parsing_a_times_b_times_c() {
    let input = "a * b * c";
    let program = init_program_parsing(input);
    assert_eq!(program.to_string(), "((a * b) * c)", "input: {}", input);
}

#[test]
fn test_operator_precedence_parsing_a_times_b_div_c() {
    let input = "a * b / c";
    let program = init_program_parsing(input);
    assert_eq!(program.to_string(), "((a * b) / c)", "input: {}", input);
}

#[test]
fn test_operator_precedence_parsing_a_plus_b_div_c() {
    let input = "a + b / c";
    let program = init_program_parsing(input);
    assert_eq!(program.to_string(), "(a + (b / c))", "input: {}", input);
}

#[test]
fn test_operator_precedence_parsing_complex() {
    let input = "a + b * c + d / e - f";
    let program = init_program_parsing(input);
    assert_eq!(program.to_string(), "(((a + (b * c)) + (d / e)) - f)", "input: {}", input);
}

#[test]
fn test_operator_precedence_parsing_two_statements() {
    let input = "3 + 4; -5 * 5";
    let program = init_program_parsing(input);
    assert_eq!(program.to_string(), "(3 + 4)((-5) * 5)", "input: {}", input);
}

#[test]
fn test_operator_precedence_parsing_gt_eq_lt() {
    let input = "5 > 4 == 3 < 4";
    let program = init_program_parsing(input);
    assert_eq!(program.to_string(), "((5 > 4) == (3 < 4))", "input: {}", input);
}

#[test]
fn test_operator_precedence_parsing_lt_neq_gt() {
    let input = "5 < 4 != 3 > 4";
    let program = init_program_parsing(input);
    assert_eq!(program.to_string(), "((5 < 4) != (3 > 4))", "input: {}", input);
}

#[test]
fn test_operator_precedence_parsing_complex_eq() {
    let input = "3 + 4 * 5 == 3 * 1 + 4 * 5";
    let program = init_program_parsing(input);
    assert_eq!(program.to_string(), "((3 + (4 * 5)) == ((3 * 1) + (4 * 5)))", "input: {}", input);
}

#[test]
fn test_operator_precedence_parsing_grouped_add() {
    let input = "1 + (2 + 3) + 4";
    let program = init_program_parsing(input);
    assert_eq!(program.to_string(), "((1 + (2 + 3)) + 4)", "input: {}", input);
}

#[test]
fn test_operator_precedence_parsing_grouped_mul() {
    let input = "(5 + 5) * 2";
    let program = init_program_parsing(input);
    assert_eq!(program.to_string(), "((5 + 5) * 2)", "input: {}", input);
}

#[test]
fn test_operator_precedence_parsing_grouped_div() {
    let input = "2 / (5 + 5)";
    let program = init_program_parsing(input);
    assert_eq!(program.to_string(), "(2 / (5 + 5))", "input: {}", input);
}

#[test]
fn test_operator_precedence_parsing_grouped_neg() {
    let input = "-(5 + 5)";
    let program = init_program_parsing(input);
    assert_eq!(program.to_string(), "(-(5 + 5))", "input: {}", input);
}

#[test]
fn test_operator_precedence_parsing_grouped_bool() {
    let input = "!(true == true)";
    let program = init_program_parsing(input);
    assert_eq!(program.to_string(), "(!(true == true))", "input: {}", input);
}

#[test]
fn test_operator_precedence_parsing_call_in_add() {
    let input = "a + add(b * c) + d";
    let program = init_program_parsing(input);
    assert_eq!(program.to_string(), "((a + add((b * c))) + d)", "input: {}", input);
}

#[test]
fn test_operator_precedence_parsing_call_multi_args() {
    let input = "add(a, b, 1, 2 * 3, 4 + 5, add(6, 7 * 8))";
    let program = init_program_parsing(input);
    assert_eq!(program.to_string(), "add(a, b, 1, (2 * 3), (4 + 5), add(6, (7 * 8)))", "input: {}", input);
}

#[test]
fn test_operator_precedence_parsing_call_complex_expr() {
    let input = "add(a + b + c * d / f + g)";
    let program = init_program_parsing(input);
    assert_eq!(program.to_string(), "add((((a + b) + ((c * d) / f)) + g))", "input: {}", input);
}

fn check_if(input: &str) -> usize {
    let program = init_program_parsing(input);
    assert_eq!(program.statements.len(), 1);

    let statement = &program.statements[0];
    let expression_statement = check_statement_expression(statement);
    let if_expression = check_if_expression(&expression_statement.expression);

    check_infix_expression(
        &if_expression.condition,
        LiteralExpression::Str("x"),
        "<",
        LiteralExpression::Str("y"),
    );
    assert_eq!(if_expression.consequence.statements.len(), 1);

    let statement = &if_expression.consequence.statements[0];
    let statement_expression = check_statement_expression(statement);
    check_identifier(&statement_expression.expression, "x");

    match &if_expression.alternative {
        Some(alternative) => {
            assert_eq!(alternative.statements.len(), 1);
            let statement_expression = check_statement_expression(&alternative.statements[0]);
            check_identifier(&statement_expression.expression, "y");
            2
        }
        None => 1,
    }
}

#[test]
fn test_if_without_else() {
    assert_eq!(check_if("if (x < y) { x }"), 1);
}

#[test]
fn test_if_with_else() {
    assert_eq!(check_if("if (x < y) { x } else { y }"), 2);
}

#[test]
fn test_function_literal_parsing() {
    let program = init_program_parsing("fn(x, y) { x + y; }");
    assert_eq!(program.statements.len(), 1);

    let statement = &program.statements[0];
    let expression_statement = check_statement_expression(statement);

    let Expression::FunctionLiteral(function_literal) = &expression_statement.expression else {
        panic!(
            "expression is not Expression::FunctionLiteral. got={:?}",
            expression_statement.expression
        );
    };

    assert_eq!(function_literal.parameters.len(), 2);
    assert_eq!(function_literal.parameters[0].0.to_string(), "x");
    assert_eq!(function_literal.parameters[1].0.to_string(), "y");

    let statement = &function_literal.body.statements[0];
    let body_statement = check_statement_expression(statement);
    check_infix_expression(
        &body_statement.expression,
        LiteralExpression::Str("x"),
        "+",
        LiteralExpression::Str("y"),
    );
}

fn check_function_parameters(input: &str, expected: Vec<&str>) {
    let program = init_program_parsing(input);

    let statement = &program.statements[0];
    let expression_statement = check_statement_expression(statement);
    let function = check_function_literal(&expression_statement.expression);

    assert_eq!(function.parameters.len(), expected.len());

    for (i, ident) in expected.iter().enumerate() {
        assert_eq!(function.parameters[i].0.to_string(), *ident);
    }
}

#[test]
fn test_function_paramater_parsing_none() {
    check_function_parameters("fn() {};", vec![]);
}

#[test]
fn test_function_paramater_parsing_one() {
    check_function_parameters("fn(x) {};", vec!["x"]);
}

#[test]
fn test_function_paramater_parsing_three() {
    check_function_parameters("fn(x, y, z) {};", vec!["x", "y", "z"]);
}

#[test]
fn test_call_expression() {
    let program = init_program_parsing("add(1, 2 * 3, 4 + 5);");
    assert_eq!(program.statements.len(), 1);

    let statement = &program.statements[0];
    let expression_statement = check_statement_expression(statement);

    let Expression::CallExpression(call_expression) = &expression_statement.expression else {
        panic!(
            "expression is not Expression::CallExpression. got={:?}",
            expression_statement.expression
        );
    };

    check_identifier(&call_expression.function, "add");
    assert_eq!(call_expression.arguments.len(), 3);

    check_literal_expression(&call_expression.arguments[0], LiteralExpression::Integer(1));
    check_infix_expression(
        &call_expression.arguments[1],
        LiteralExpression::Integer(2),
        "*",
        LiteralExpression::Integer(3),
    );
    check_infix_expression(
        &call_expression.arguments[2],
        LiteralExpression::Integer(4),
        "+",
        LiteralExpression::Integer(5),
    );
}

#[test]
fn test_empty_program() {
    let program = init_program_parsing("");
    assert_eq!(program.statements.len(), 0);
    assert_eq!(program.to_string(), "");
    assert_eq!(program.token_literal(), "");
}

#[test]
fn test_program_token_literal() {
    let program = init_program_parsing("let a = 1; a;");
    assert_eq!(program.statements.len(), 2);
    assert_eq!(program.token_literal(), "LET");
    assert_eq!(program.to_string(), "let a = 1;a");
}

#[test]
fn test_integer_literal_too_large_is_dropped() {
    let mut lexer = Lexer::new("99999999999999999999");
    let mut parser = Parser::new(&mut lexer);
    assert!(Parser::parse_integer_literal(&mut parser).is_none());
}

#[test]
fn test_integer_literal_largest() {
    let mut lexer = Lexer::new("9223372036854775807");
    let mut parser = Parser::new(&mut lexer);
    let e = Parser::parse_integer_literal(&mut parser).unwrap();
    check_integer_literal(&e, i64::MAX);
}

#[test]
fn test_parse_boolean() {
    let mut lexer = Lexer::new("x");
    let mut parser = Parser::new(&mut lexer);
    let e = Parser::parse_boolean(&mut parser).unwrap();
    check_boolean_literal(&e, false);
    assert_eq!(e.to_string(), "false");
}

#[test]
fn test_precedences() {
    assert!(Precedence::Lowest.rank() < Precedence::Equals.rank());
    assert!(Precedence::Equals.rank() < Precedence::LessGreater.rank());
    assert!(Precedence::LessGreater.rank() < Precedence::Sum.rank());
    assert!(Precedence::Sum.rank() < Precedence::Product.rank());
    assert!(Precedence::Product.rank() < Precedence::Prefix.rank());
    assert!(Precedence::Prefix.rank() < Precedence::Call.rank());
    assert_eq!(Precedence::try_from(Token::ASTERISK), Ok(Precedence::Product));
    assert_eq!(Precedence::try_from(Token::LPAREN), Ok(Precedence::Call));
    assert_eq!(Precedence::try_from(Token::NOTEQ), Ok(Precedence::Equals));
    assert_eq!(Precedence::try_from(Token::BANG), Err(()));
}

#[test]
fn test_parser_token_queries() {
    let mut lexer = Lexer::new("a + b * c");
    let mut parser = Parser::new(&mut lexer);
    assert!(parser.current_token_is(&Token::IDENTIFIER(String::new())));
    assert!(parser.peek_token_is(&Token::PLUS));
    assert_eq!(parser.peek_precedence(), Precedence::Sum);
    assert_eq!(parser.current_precedence(), Precedence::Lowest);
    parser.next_token();
    assert!(parser.current_token_is(&Token::PLUS));
    assert_eq!(parser.current_precedence(), Precedence::Sum);
}

#[test]
fn test_expect_peek() {
    let mut lexer = Lexer::new("let x = 1;");
    let mut parser = Parser::new(&mut lexer);
    assert_eq!(parser.expect_peek(&Token::IDENTIFIER(String::new())), Ok(true));
    assert!(parser.current_token_is(&Token::IDENTIFIER(String::new())));
    let r = parser.expect_peek(&Token::SEMICOLON);
    assert!(r.is_err());
    assert!(parser.current_token_is(&Token::IDENTIFIER(String::new())));
    assert!(parser.peek_token_is(&Token::ASSIGN));
}

#[test]
fn test_register_prefix_replaces_parse_function() {
    let mut lexer = Lexer::new("foo;");
    let mut parser = Parser::new(&mut lexer);
    parser.register_prefix(Token::IDENTIFIER(String::new()), PrefixParseFn::Boolean);
    let program = Parser::parse_program(&mut parser);
    assert_eq!(program.statements.len(), 1);
    let expression_statement = check_statement_expression(&program.statements[0]);
    check_boolean_literal(&expression_statement.expression, false);
}

#[test]
fn test_register_infix_adds_operator() {
    let mut lexer = Lexer::new("a < b");
    let mut parser = Parser::new(&mut lexer);
    parser.register_infix(Token::LT, InfixParseFn::InfixExpression);
    let program = Parser::parse_program(&mut parser);
    assert_eq!(program.to_string(), "(a < b)");
}

#[test]
fn test_block_statement_parsing() {
    let mut lexer = Lexer::new("{ a; b }");
    let mut parser = Parser::new(&mut lexer);
    let block = Parser::parse_block_statement(&mut parser);
    assert_eq!(block.statements.len(), 2);
    assert!(parser.current_token_is(&Token::RBRACE));
    assert_eq!(block.to_string(), "ab");
}

#[test]
fn test_function_literal_printing() {
    let program = init_program_parsing("fn(x, y) { return x; }");
    assert_eq!(program.to_string(), "FUNCTION(x, y)return x;");
}

#[test]
fn test_if_printing() {
    let program = init_program_parsing("if (a) { b } else { c }");
    assert_eq!(program.to_string(), "ifa belse c");
}

#[test]
fn test_new_parser_reads_two_tokens() {
    let mut l = Lexer::new("a b c d");
    drop(Parser::new(&mut l));
    assert_eq!(l.next_token(), Token::IDENTIFIER("c".to_owned()));
}

#[test]
fn test_expect_peek_error_text() {
    let mut l = Lexer::new("let x 5");
    let mut p = Parser::new(&mut l);
    p.next_token();
    assert_eq!(
        p.expect_peek(&Token::ASSIGN),
        Err("expected next token to be ASSIGN, got INT(\"5\") instead".to_owned())
    );
    assert!(p.current_token_is(&Token::IDENTIFIER(String::new())));
    assert!(p.peek_token_is(&Token::INT(String::new())));
}

#[test]
fn test_expect_peek_error_text_matches_debug_forms() {
    let mut l = Lexer::new("a \u{e9} \"q\"");
    let mut p = Parser::new(&mut l);
    let found = Token::ILLEGAL("\u{e9}".to_owned());
    assert_eq!(
        p.expect_peek(&Token::KEYWORD(Keyword::LET)),
        Err(format!(
            "expected next token to be {:?}, got {:?} instead",
            Token::KEYWORD(Keyword::LET),
            found
        ))
    );
    let quoted = Token::IDENTIFIER("say \"hi\"\n".to_owned());
    let mut l2 = Lexer::new("x ?");
    let mut p2 = Parser::new(&mut l2);
    assert_eq!(
        p2.expect_peek(&quoted),
        Err(format!(
            "expected next token to be {:?}, got {:?} instead",
            quoted,
            Token::ILLEGAL("?".to_owned())
        ))
    );
}

#[test]
fn test_expect_peek_match_reads_one_token() {
    let mut l = Lexer::new("a = b c");
    let mut p = Parser::new(&mut l);
    assert_eq!(p.expect_peek(&Token::ASSIGN), Ok(true));
    assert!(p.current_token_is(&Token::ASSIGN));
    assert!(p.peek_token_is(&Token::IDENTIFIER(String::new())));
    drop(p);
    assert_eq!(l.next_token(), Token::IDENTIFIER("c".to_owned()));
}
