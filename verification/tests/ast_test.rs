use compiler::ast::{
    BlockStatement, Boolean, CallExpression, Expression, ExpressionStatement, FunctionLiteral,
    IdentifierToken, IfExpression, InfixExpression, IntegerLiteral, LetStatement, Node,
    PrefixExpression, Program, ReturnStatement, Statement,
};
use compiler::token::{Keyword, Token};

fn ident(name: &str) -> Expression {
    Expression::Identifier(IdentifierToken(name.to_owned()))
}

#[test]
fn test_string() {
    let program = Program {
        statements: vec![Statement::Let(LetStatement {
            token: Token::KEYWORD(Keyword::LET),
            name: IdentifierToken("myVar".to_owned()),
            value: Expression::Identifier(IdentifierToken("anotherVar".to_owned())),
        })],
    };

    assert_eq!(program.to_string(), "let myVar = anotherVar;");
}

#[test]
fn test_return_statement_string() {
    let statement = ReturnStatement {
        token: Token::KEYWORD(Keyword::RETURN),
        return_value: Expression::IntegerLiteral(IntegerLiteral(-42)),
    };
    assert_eq!(statement.to_string(), "return -42;");
}

#[test]
fn test_let_statement_lowers_any_token_literal() {
    let statement = LetStatement {
        token: Token::IDENTIFIER("VaR".to_owned()),
        name: IdentifierToken("x".to_owned()),
        value: Expression::Boolean(Boolean(true)),
    };
    assert_eq!(statement.to_string(), "var x = true;");
}

#[test]
fn test_expression_strings() {
    let prefix = Expression::PrefixExpression(Box::new(PrefixExpression {
        token: Token::MINUS,
        operator: "-".to_owned(),
        right: ident("a"),
    }));
    assert_eq!(prefix.to_string(), "(-a)");

    let infix = Expression::InfixExpression(Box::new(InfixExpression {
        token: Token::PLUS,
        left: prefix,
        operator: "+".to_owned(),
        right: Expression::IntegerLiteral(IntegerLiteral(0)),
    }));
    assert_eq!(infix.to_string(), "((-a) + 0)");

    let call = Expression::CallExpression(Box::new(CallExpression {
        token: Token::LPAREN,
        function: ident("f"),
        arguments: vec![ident("x"), Expression::IntegerLiteral(IntegerLiteral(7))],
    }));
    assert_eq!(call.to_string(), "f(x, 7)");
}

#[test]
fn test_if_and_function_strings() {
    let block = |name: &str| BlockStatement {
        token: Token::LBRACE,
        statements: vec![Statement::Expression(ExpressionStatement {
            token: Token::IDENTIFIER(name.to_owned()),
            expression: ident(name),
        })],
    };
    let if_expression = IfExpression {
        token: Token::IF,
        condition: ident("c"),
        consequence: block("a"),
        alternative: Some(block("b")),
    };
    assert_eq!(if_expression.to_string(), "ifc aelse b");
    assert_eq!(if_expression.token_literal(), "IF");

    let function = FunctionLiteral {
        token: Token::FUNCTION,
        parameters: vec![IdentifierToken("x".to_owned()), IdentifierToken("y".to_owned())],
        body: block("x"),
    };
    assert_eq!(function.to_string(), "FUNCTION(x, y)x");
    assert_eq!(function.token_literal(), "FUNCTION");
}

#[test]
fn test_token_literals_of_nodes() {
    let statement = Statement::Return(ReturnStatement {
        token: Token::KEYWORD(Keyword::RETURN),
        return_value: ident("x"),
    });
    assert_eq!(statement.token_literal(), "RETURN");
    assert_eq!(Boolean(true).token_literal(), "true");
    assert_eq!(Boolean(false).to_string(), "false");
    let program = Program { statements: vec![] };
    assert_eq!(program.token_literal(), "");
}

#[test]
fn test_clone_keeps_the_tree() {
    let statement = Statement::Let(LetStatement {
        token: Token::KEYWORD(Keyword::LET),
        name: IdentifierToken("f".to_owned()),
        value: Expression::CallExpression(Box::new(CallExpression {
            token: Token::LPAREN,
            function: ident("g"),
            arguments: vec![ident("a"), Expression::IntegerLiteral(IntegerLiteral(3))],
        })),
    });
    let copy = statement.clone();
    assert_eq!(copy.to_string(), "let f = g(a, 3);");
    assert_eq!(copy.to_string(), statement.to_string());
}
