use vstd::prelude::*;

use crate::text::{bool_text, bool_to_string, int_text, int_to_string, lowercase, string_new, to_lowercase};
use crate::token::{token_text, Keyword, SpecToken, Token};

pub mod prelude;

verus! {

/// A node of the syntax tree: it can tell the literal of the token it starts with.
pub trait Node {
    /// The literal of the token the node starts with.
    spec fn literal(&self) -> Seq<char>;

    /// The literal of the token the node starts with.
    fn token_literal(&self) -> (s: String)
        ensures
            s@ == self.literal(),
    ;
}

/// A statement.
#[derive(Debug)]
pub enum Statement {
    Let(LetStatement),
    Return(ReturnStatement),
    Expression(ExpressionStatement),
}

/// A program: the statements in the order they were read.
pub struct Program {
    pub statements: Vec<Statement>,
}

/// An expression.
#[derive(Debug)]
pub enum Expression {
    Identifier(IdentifierToken),
    IntegerLiteral(IntegerLiteral),
    PrefixExpression(Box<PrefixExpression>),
    InfixExpression(Box<InfixExpression>),
    Boolean(Boolean),
    IfExpression(Box<IfExpression>),
    FunctionLiteral(FunctionLiteral),
    CallExpression(Box<CallExpression>),
}

/// The name of an identifier.
#[derive(Debug, Clone)]
pub struct IdentifierToken(pub String);

/// An integer literal.
#[derive(Debug, Clone)]
pub struct IntegerLiteral(pub i64);

/// A boolean literal.
#[derive(Debug, Clone)]
pub struct Boolean(pub bool);

/// `let <name> = <value>;`
#[derive(Debug)]
pub struct LetStatement {
    pub token: Token,
    pub name: IdentifierToken,
    pub value: Expression,
}

/// `return <value>;`
#[derive(Debug)]
pub struct ReturnStatement {
    pub token: Token,
    pub return_value: Expression,
}

/// An expression standing as a statement.
#[derive(Debug)]
pub struct ExpressionStatement {
    pub token: Token,
    pub expression: Expression,
}

/// `<operator><right>`
#[derive(Debug)]
pub struct PrefixExpression {
    pub token: Token,
    pub operator: String,
    pub right: Expression,
}

/// `<left> <operator> <right>`
#[derive(Debug)]
pub struct InfixExpression {
    pub token: Token,
    pub left: Expression,
    pub operator: String,
    pub right: Expression,
}

/// `if (<condition>) { ... } else { ... }`
#[derive(Debug)]
pub struct IfExpression {
    pub token: Token,
    pub condition: Expression,
    pub consequence: BlockStatement,
    pub alternative: Option<BlockStatement>,
}

/// `{ <statements> }`
#[derive(Debug)]
pub struct BlockStatement {
    pub token: Token,
    pub statements: Vec<Statement>,
}

/// `fn(<parameters>) { ... }`
#[derive(Debug)]
pub struct FunctionLiteral {
    pub token: Token,
    pub parameters: Vec<IdentifierToken>,
    pub body: BlockStatement,
}

/// `<function>(<arguments>)`
#[derive(Debug)]
pub struct CallExpression {
    pub token: Token,
    pub function: Expression,
    pub arguments: Vec<Expression>,
}

// ---------------------------------------------------------------------------
// The mathematical syntax tree.

/// The value of an expression, with texts as sequences of characters.
pub enum SpecExpression {
    Identifier(Seq<char>),
    IntegerLiteral(i64),
    Prefix { token: SpecToken, operator: Seq<char>, right: Box<SpecExpression> },
    Infix {
        token: SpecToken,
        left: Box<SpecExpression>,
        operator: Seq<char>,
        right: Box<SpecExpression>,
    },
    Boolean(bool),
    If {
        token: SpecToken,
        condition: Box<SpecExpression>,
        consequence: SpecBlock,
        alternative: Option<SpecBlock>,
    },
    Function { token: SpecToken, parameters: Seq<Seq<char>>, body: SpecBlock },
    Call { token: SpecToken, function: Box<SpecExpression>, arguments: Seq<SpecExpression> },
}

/// The value of a block statement.
pub struct SpecBlock {
    pub token: SpecToken,
    pub statements: Seq<SpecStatement>,
}

/// The value of a statement.
pub enum SpecStatement {
    Let { token: SpecToken, name: Seq<char>, value: SpecExpression },
    Return { token: SpecToken, value: SpecExpression },
    Expression { token: SpecToken, expression: SpecExpression },
}

/// The mathematical value of an expression.
pub open spec fn expr_view(e: Expression) -> SpecExpression
    decreases e,
{
    match e {
        Expression::Identifier(i) => SpecExpression::Identifier(i.0@),
        Expression::IntegerLiteral(l) => SpecExpression::IntegerLiteral(l.0),
        Expression::PrefixExpression(p) => SpecExpression::Prefix {
            token: p.token@,
            operator: p.operator@,
            right: Box::new(expr_view(p.right)),
        },
        Expression::InfixExpression(p) => SpecExpression::Infix {
            token: p.token@,
            left: Box::new(expr_view(p.left)),
            operator: p.operator@,
            right: Box::new(expr_view(p.right)),
        },
        Expression::Boolean(b) => SpecExpression::Boolean(b.0),
        Expression::IfExpression(p) => SpecExpression::If {
            token: p.token@,
            condition: Box::new(expr_view(p.condition)),
            consequence: block_view(p.consequence),
            alternative: match p.alternative {
                Some(b) => Some(block_view(b)),
                None => None,
            },
        },
        Expression::FunctionLiteral(f) => SpecExpression::Function {
            token: f.token@,
            parameters: names_view(f.parameters@),
            body: block_view(f.body),
        },
        Expression::CallExpression(c) => SpecExpression::Call {
            token: c.token@,
            function: Box::new(expr_view(c.function)),
            arguments: exprs_view(c.arguments@),
        },
    }
}

/// The values of a sequence of expressions, in order.
pub open spec fn exprs_view(s: Seq<Expression>) -> Seq<SpecExpression>
    decreases s,
{
    if s.len() == 0 {
        Seq::empty()
    } else {
        exprs_view(s.subrange(0, s.len() - 1)).push(expr_view(s[s.len() - 1]))
    }
}

/// The names of a sequence of identifiers, in order.
pub open spec fn names_view(s: Seq<IdentifierToken>) -> Seq<Seq<char>> {
    s.map_values(|i: IdentifierToken| i.0@)
}

/// The mathematical value of a block.
pub open spec fn block_view(b: BlockStatement) -> SpecBlock
    decreases b,
{
    SpecBlock { token: b.token@, statements: stmts_view(b.statements@) }
}

/// The mathematical value of a statement.
pub open spec fn stmt_view(s: Statement) -> SpecStatement
    decreases s,
{
    match s {
        Statement::Let(l) => SpecStatement::Let {
            token: l.token@,
            name: l.name.0@,
            value: expr_view(l.value),
        },
        Statement::Return(r) => SpecStatement::Return {
            token: r.token@,
            value: expr_view(r.return_value),
        },
        Statement::Expression(e) => SpecStatement::Expression {
            token: e.token@,
            expression: expr_view(e.expression),
        },
    }
}

/// The values of a sequence of statements, in order.
pub open spec fn stmts_view(s: Seq<Statement>) -> Seq<SpecStatement>
    decreases s,
{
    if s.len() == 0 {
        Seq::empty()
    } else {
        stmts_view(s.subrange(0, s.len() - 1)).push(stmt_view(s[s.len() - 1]))
    }
}


impl View for Expression {
    type V = SpecExpression;

    open spec fn view(&self) -> SpecExpression {
        expr_view(*self)
    }
}

impl View for Statement {
    type V = SpecStatement;

    open spec fn view(&self) -> SpecStatement {
        stmt_view(*self)
    }
}

impl View for BlockStatement {
    type V = SpecBlock;

    open spec fn view(&self) -> SpecBlock {
        block_view(*self)
    }
}

impl View for Program {
    type V = Seq<SpecStatement>;

    open spec fn view(&self) -> Seq<SpecStatement> {
        stmts_view(self.statements@)
    }
}

/// The values of expressions are taken one by one.
pub proof fn lemma_exprs_view(s: Seq<Expression>)
    ensures
        exprs_view(s).len() == s.len(),
        forall|i: int| 0 <= i < s.len() ==> #[trigger] exprs_view(s)[i] == expr_view(s[i]),
    decreases s.len(),
{
    if s.len() > 0 {
        let t = s.subrange(0, s.len() - 1);
        lemma_exprs_view(t);
        assert forall|i: int| 0 <= i < s.len() implies #[trigger] exprs_view(s)[i] == expr_view(s[i]) by {
            if i < s.len() - 1 {
                assert(s[i] == t[i]);
            }
        }
    }
}

/// The values of statements are taken one by one.
pub proof fn lemma_stmts_view(s: Seq<Statement>)
    ensures
        stmts_view(s).len() == s.len(),
        forall|i: int| 0 <= i < s.len() ==> #[trigger] stmts_view(s)[i] == stmt_view(s[i]),
    decreases s.len(),
{
    if s.len() > 0 {
        let t = s.subrange(0, s.len() - 1);
        lemma_stmts_view(t);
        assert forall|i: int| 0 <= i < s.len() implies #[trigger] stmts_view(s)[i] == stmt_view(s[i]) by {
            if i < s.len() - 1 {
                assert(s[i] == t[i]);
            }
        }
    }
}

/// A statement pushed on the sequence adds its value at the end.
pub proof fn lemma_stmts_view_push(s: Seq<Statement>, x: Statement)
    ensures
        stmts_view(s.push(x)) == stmts_view(s).push(stmt_view(x)),
{
    assert(s.push(x).subrange(0, s.len() as int) =~= s);
}

/// An expression pushed on the sequence adds its value at the end.
pub proof fn lemma_exprs_view_push(s: Seq<Expression>, x: Expression)
    ensures
        exprs_view(s.push(x)) == exprs_view(s).push(expr_view(x)),
{
    assert(s.push(x).subrange(0, s.len() as int) =~= s);
}

/// An identifier pushed on the sequence adds its name at the end.
pub proof fn lemma_names_view_push(s: Seq<IdentifierToken>, x: IdentifierToken)
    ensures
        names_view(s.push(x)) == names_view(s).push(x.0@),
{
    assert(names_view(s.push(x)) =~= names_view(s).push(x.0@));
}

// ---------------------------------------------------------------------------
// How the syntax tree prints.

/// The printed form of an expression: fully parenthesised operators.
pub open spec fn expr_text(e: SpecExpression) -> Seq<char>
    decreases e,
{
    match e {
        SpecExpression::Identifier(name) => name,
        SpecExpression::IntegerLiteral(v) => int_text(v as int),
        SpecExpression::Prefix { operator, right, .. } => "("@ + operator + expr_text(*right) + ")"@,
        SpecExpression::Infix { left, operator, right, .. } => "("@ + expr_text(*left) + " "@
            + operator + " "@ + expr_text(*right) + ")"@,
        SpecExpression::Boolean(b) => bool_text(b),
        SpecExpression::If { condition, consequence, alternative, .. } => "if"@ + expr_text(
            *condition,
        ) + " "@ + block_text(consequence) + match alternative {
            Some(a) => "else "@ + block_text(a),
            None => Seq::empty(),
        },
        SpecExpression::Function { token, parameters, body } => token_text(token) + "("@
            + names_joined(parameters) + ")"@ + block_text(body),
        SpecExpression::Call { function, arguments, .. } => expr_text(*function) + "("@
            + exprs_joined(arguments) + ")"@,
    }
}

/// The printed forms of expressions, separated by `", "`.
pub open spec fn exprs_joined(s: Seq<SpecExpression>) -> Seq<char>
    decreases s,
{
    if s.len() == 0 {
        Seq::empty()
    } else if s.len() == 1 {
        expr_text(s[0])
    } else {
        exprs_joined(s.subrange(0, s.len() - 1)) + ", "@ + expr_text(s[s.len() - 1])
    }
}

/// Names separated by `", "`.
pub open spec fn names_joined(s: Seq<Seq<char>>) -> Seq<char>
    decreases s.len(),
{
    if s.len() == 0 {
        Seq::empty()
    } else if s.len() == 1 {
        s[0]
    } else {
        names_joined(s.subrange(0, s.len() - 1)) + ", "@ + s[s.len() - 1]
    }
}

/// The printed form of a block: its statements one after the other.
pub open spec fn block_text(b: SpecBlock) -> Seq<char>
    decreases b,
{
    stmts_text(b.statements)
}

/// The printed forms of statements, one after the other.
pub open spec fn stmts_text(s: Seq<SpecStatement>) -> Seq<char>
    decreases s,
{
    if s.len() == 0 {
        Seq::empty()
    } else {
        stmts_text(s.subrange(0, s.len() - 1)) + stmt_text(s[s.len() - 1])
    }
}

/// The printed form of a statement.
pub open spec fn stmt_text(s: SpecStatement) -> Seq<char>
    decreases s,
{
    match s {
        SpecStatement::Let { token, name, value } => lowercase(token_text(token)) + " "@ + name
            + " = "@ + expr_text(value) + ";"@,
        SpecStatement::Return { token, value } => lowercase(token_text(token)) + " "@ + expr_text(
            value,
        ) + ";"@,
        SpecStatement::Expression { expression, .. } => expr_text(expression),
    }
}

/// The literal of the token a statement starts with.
pub open spec fn stmt_literal(s: SpecStatement) -> Seq<char> {
    match s {
        SpecStatement::Let { token, .. } => token_text(token),
        SpecStatement::Return { token, .. } => token_text(token),
        SpecStatement::Expression { token, .. } => token_text(token),
    }
}

impl Expression {
    /// The printed form of the expression.
    pub fn to_string(&self) -> (s: String)
        ensures
            s@ == expr_text(self@),
        decreases self,
    {
        match self {
            Expression::Identifier(identifier) => identifier.0.clone(),
            Expression::IntegerLiteral(ilit) => int_to_string(ilit.0),
            Expression::PrefixExpression(prefix_expression) => prefix_expression.to_string(),
            Expression::InfixExpression(infix_expression) => infix_expression.to_string(),
            Expression::Boolean(boolean) => boolean.to_string(),
            Expression::IfExpression(if_expression) => if_expression.to_string(),
            Expression::FunctionLiteral(function_literal) => function_literal.to_string(),
            Expression::CallExpression(call_expression) => call_expression.to_string(),
        }
    }
}

impl Statement {
    /// The printed form of the statement.
    pub fn to_string(&self) -> (s: String)
        ensures
            s@ == stmt_text(self@),
        decreases self,
    {
        match self {
            Statement::Let(s) => s.to_string(),
            Statement::Return(s) => s.to_string(),
            Statement::Expression(s) => s.to_string(),
        }
    }
}

impl Node for Statement {
    open spec fn literal(&self) -> Seq<char> {
        stmt_literal(self@)
    }

    fn token_literal(&self) -> (s: String) {
        match self {
            Statement::Let(let_statement) => let_statement.token.to_string(),
            Statement::Return(return_statement) => return_statement.token.to_string(),
            Statement::Expression(expression_statement) => expression_statement.token.to_string(),
        }
    }
}

/// The printed forms of a sequence of statements, one after the other.
fn statements_to_string(statements: &Vec<Statement>) -> (s: String)
    ensures
        s@ == stmts_text(stmts_view(statements@)),
    decreases statements@,
{
    let mut buffer = string_new();
    let mut i: usize = 0;
    proof {
        lemma_stmts_view(statements@);
    }
    while i < statements.len()
        invariant
            i <= statements@.len(),
            stmts_view(statements@).len() == statements@.len(),
            forall|j: int| 0 <= j < statements@.len() ==> #[trigger] stmts_view(statements@)[j] == stmt_view(statements@[j]),
            buffer@ == stmts_text(stmts_view(statements@).subrange(0, i as int)),
        decreases statements@.len() - i,
    {
        let s = statements[i].to_string();
        buffer.append(s.as_str());
        proof {
            let v = stmts_view(statements@);
            assert(v.subrange(0, i + 1).subrange(0, i as int) =~= v.subrange(0, i as int));
        }
        i = i + 1;
    }
    assert(stmts_view(statements@).subrange(0, i as int) =~= stmts_view(statements@));
    buffer
}

impl Program {
    /// The printed forms of the statements, one after the other.
    pub fn to_string(&self) -> (s: String)
        ensures
            s@ == stmts_text(self@),
    {
        statements_to_string(&self.statements)
    }
}

impl Node for Program {
    open spec fn literal(&self) -> Seq<char> {
        if self@.len() > 0 {
            stmt_literal(self@[0])
        } else {
            Seq::empty()
        }
    }

    fn token_literal(&self) -> (s: String) {
        proof {
            lemma_stmts_view(self.statements@);
        }
        if self.statements.len() > 0 {
            self.statements[0].token_literal()
        } else {
            string_new()
        }
    }
}

impl Boolean {
    /// `true` or `false`.
    pub fn to_string(&self) -> (s: String)
        ensures
            s@ == bool_text(self.0),
    {
        bool_to_string(self.0)
    }
}

impl Node for Boolean {
    open spec fn literal(&self) -> Seq<char> {
        bool_text(self.0)
    }

    fn token_literal(&self) -> (s: String) {
        bool_to_string(self.0)
    }
}

impl LetStatement {
    /// `let <name> = <value>;`, with the token's literal in lowercase.
    pub fn to_string(&self) -> (s: String)
        ensures
            s@ == stmt_text(stmt_view(Statement::Let(*self))),
            self.token@ == SpecToken::KEYWORD(Keyword::LET) ==> s@ == "let "@ + self.name.0@
                + " = "@ + expr_text(self.value@) + ";"@,
        decreases self,
    {
        let mut buffer = string_new();
        let token = self.token.to_string();
        let lower = to_lowercase(token.as_str());
        proof {
            if self.token@ == SpecToken::KEYWORD(Keyword::LET) {
                reveal_strlit("LET");
                reveal_strlit("let");
                reveal_strlit("let ");
                reveal_strlit(" ");
                assert(lower@ =~= "let"@);
                assert("let"@ + " "@ =~= "let "@);
            }
        }
        buffer.append(lower.as_str());
        buffer.append(" ");
        buffer.append(self.name.0.as_str());
        buffer.append(" = ");
        let value = self.value.to_string();
        buffer.append(value.as_str());
        buffer.append(";");
        buffer
    }
}

impl ReturnStatement {
    /// `return <value>;`, with the token's literal in lowercase.
    pub fn to_string(&self) -> (s: String)
        ensures
            s@ == stmt_text(stmt_view(Statement::Return(*self))),
            self.token@ == SpecToken::KEYWORD(Keyword::RETURN) ==> s@ == "return "@ + expr_text(
                self.return_value@,
            ) + ";"@,
        decreases self,
    {
        let mut buffer = string_new();
        let token = self.token.to_string();
        let lower = to_lowercase(token.as_str());
        proof {
            if self.token@ == SpecToken::KEYWORD(Keyword::RETURN) {
                reveal_strlit("RETURN");
                reveal_strlit("return");
                reveal_strlit("return ");
                reveal_strlit(" ");
                assert(lower@ =~= "return"@);
                assert("return"@ + " "@ =~= "return "@);
            }
        }
        buffer.append(lower.as_str());
        buffer.append(" ");
        let value = self.return_value.to_string();
        buffer.append(value.as_str());
        buffer.append(";");
        buffer
    }
}

impl ExpressionStatement {
    /// The printed form of the expression.
    pub fn to_string(&self) -> (s: String)
        ensures
            s@ == stmt_text(stmt_view(Statement::Expression(*self))),
        decreases self,
    {
        self.expression.to_string()
    }
}

impl PrefixExpression {
    /// `(<operator><right>)`
    pub fn to_string(&self) -> (s: String)
        ensures
            s@ == expr_text(expr_view(Expression::PrefixExpression(Box::new(*self)))),
        decreases self,
    {
        let mut buffer = string_new();
        buffer.append("(");
        buffer.append(self.operator.as_str());
        let right = self.right.to_string();
        buffer.append(right.as_str());
        buffer.append(")");
        buffer
    }
}

impl Node for PrefixExpression {
    open spec fn literal(&self) -> Seq<char> {
        token_text(self.token@)
    }

    fn token_literal(&self) -> (s: String) {
        self.token.to_string()
    }
}

impl InfixExpression {
    /// `(<left> <operator> <right>)`
    pub fn to_string(&self) -> (s: String)
        ensures
            s@ == expr_text(expr_view(Expression::InfixExpression(Box::new(*self)))),
        decreases self,
    {
        let mut buffer = string_new();
        buffer.append("(");
        let left = self.left.to_string();
        buffer.append(left.as_str());
        buffer.append(" ");
        buffer.append(self.operator.as_str());
        buffer.append(" ");
        let right = self.right.to_string();
        buffer.append(right.as_str());
        buffer.append(")");
        buffer
    }
}

impl Node for InfixExpression {
    open spec fn literal(&self) -> Seq<char> {
        token_text(self.token@)
    }

    fn token_literal(&self) -> (s: String) {
        self.token.to_string()
    }
}

impl IfExpression {
    /// `if<condition> <consequence>`, followed by `else <alternative>` when
    /// there is one.
    pub fn to_string(&self) -> (s: String)
        ensures
            s@ == expr_text(expr_view(Expression::IfExpression(Box::new(*self)))),
        decreases self,
    {
        let mut buffer = string_new();
        buffer.append("if");
        let condition = self.condition.to_string();
        buffer.append(condition.as_str());
        buffer.append(" ");
        let consequence = self.consequence.to_string();
        buffer.append(consequence.as_str());
        if let Some(alternative) = &self.alternative {
            buffer.append("else ");
            let alternative = alternative.to_string();
            buffer.append(alternative.as_str());
        }
        buffer
    }
}

impl Node for IfExpression {
    open spec fn literal(&self) -> Seq<char> {
        token_text(self.token@)
    }

    fn token_literal(&self) -> (s: String) {
        self.token.to_string()
    }
}

impl BlockStatement {
    /// The printed forms of the statements, one after the other.
    pub fn to_string(&self) -> (s: String)
        ensures
            s@ == block_text(self@),
        decreases self,
    {
        statements_to_string(&self.statements)
    }
}

impl Node for BlockStatement {
    open spec fn literal(&self) -> Seq<char> {
        token_text(self.token@)
    }

    fn token_literal(&self) -> (s: String) {
        self.token.to_string()
    }
}

impl FunctionLiteral {
    /// `<literal>(<parameters>)<body>`
    pub fn to_string(&self) -> (s: String)
        ensures
            s@ == expr_text(expr_view(Expression::FunctionLiteral(*self))),
        decreases self,
    {
        let mut buffer = string_new();
        let literal = self.token_literal();
        buffer.append(literal.as_str());
        buffer.append("(");
        let ghost names = names_view(self.parameters@);
        let mut i: usize = 0;
        while i < self.parameters.len()
            invariant
                i <= self.parameters@.len(),
                names == names_view(self.parameters@),
                names.len() == self.parameters@.len(),
                buffer@ == token_text(self.token@) + "("@ + names_joined(names.subrange(0, i as int)),
            decreases self.parameters@.len() - i,
        {
            if i > 0 {
                buffer.append(", ");
            }
            buffer.append(self.parameters[i].0.as_str());
            proof {
                assert(names.subrange(0, i + 1).subrange(0, i as int) =~= names.subrange(0, i as int));
                if i == 0 {
                    assert(names_joined(names.subrange(0, 1)) == names[0]);
                }
            }
            i = i + 1;
        }
        assert(names.subrange(0, i as int) =~= names);
        buffer.append(")");
        let body = self.body.to_string();
        buffer.append(body.as_str());
        buffer
    }
}

impl Node for FunctionLiteral {
    open spec fn literal(&self) -> Seq<char> {
        token_text(self.token@)
    }

    fn token_literal(&self) -> (s: String) {
        self.token.to_string()
    }
}

impl CallExpression {
    /// `<function>(<arguments>)`
    pub fn to_string(&self) -> (s: String)
        ensures
            s@ == expr_text(expr_view(Expression::CallExpression(Box::new(*self)))),
        decreases self,
    {
        let mut buffer = string_new();
        let function = self.function.to_string();
        buffer.append(function.as_str());
        buffer.append("(");
        let ghost args = exprs_view(self.arguments@);
        proof {
            lemma_exprs_view(self.arguments@);
        }
        let mut i: usize = 0;
        while i < self.arguments.len()
            invariant
                i <= self.arguments@.len(),
                args == exprs_view(self.arguments@),
                args.len() == self.arguments@.len(),
                forall|j: int| 0 <= j < self.arguments@.len() ==> #[trigger] args[j] == expr_view(self.arguments@[j]),
                buffer@ == expr_text(expr_view(self.function)) + "("@ + exprs_joined(args.subrange(0, i as int)),
            decreases self.arguments@.len() - i,
        {
            if i > 0 {
                buffer.append(", ");
            }
            let a = self.arguments[i].to_string();
            buffer.append(a.as_str());
            proof {
                assert(args.subrange(0, i + 1).subrange(0, i as int) =~= args.subrange(0, i as int));
                if i == 0 {
                    assert(exprs_joined(args.subrange(0, 1)) == expr_text(args[0]));
                }
            }
            i = i + 1;
        }
        assert(args.subrange(0, i as int) =~= args);
        buffer.append(")");
        buffer
    }
}

impl Node for CallExpression {
    open spec fn literal(&self) -> Seq<char> {
        token_text(self.token@)
    }

    fn token_literal(&self) -> (s: String) {
        self.token.to_string()
    }
}

// ---------------------------------------------------------------------------
// Laws of printing.

/// A list of names prints as the first name, then each further name preceded
/// by `", "`.
pub proof fn lemma_names_joined(s: Seq<Seq<char>>)
    requires
        s.len() > 0,
    ensures
        names_joined(s) == s[0] + s.drop_first().map_values(|x: Seq<char>| ", "@ + x).flatten(),
    decreases s.len(),
{
    let m = s.drop_first().map_values(|x: Seq<char>| ", "@ + x);
    m.lemma_flatten_and_flatten_alt_are_equivalent();
    if s.len() == 1 {
        assert(m =~= Seq::<Seq<char>>::empty());
        assert(s[0] + m.flatten_alt() =~= s[0]);
    } else {
        let t = s.subrange(0, s.len() - 1);
        lemma_names_joined(t);
        let mt = t.drop_first().map_values(|x: Seq<char>| ", "@ + x);
        mt.lemma_flatten_and_flatten_alt_are_equivalent();
        assert(m.drop_last() =~= mt);
        assert(m.last() == ", "@ + s[s.len() - 1]);
        assert(m.flatten_alt() == mt.flatten_alt() + (", "@ + s[s.len() - 1]));
        assert(t[0] == s[0]);
        assert(names_joined(s) == names_joined(t) + ", "@ + s[s.len() - 1]);
        assert(s[0] + mt.flatten_alt() + ", "@ + s[s.len() - 1] =~= s[0] + (mt.flatten_alt() + (
        ", "@ + s[s.len() - 1])));
    }
}

/// An `if` without an alternative prints as `if`, the condition, a space and
/// the consequence, and nothing more; with an alternative, `else ` and the
/// alternative follow.
pub proof fn lemma_if_text(
    token: SpecToken,
    condition: SpecExpression,
    consequence: SpecBlock,
    alternative: Option<SpecBlock>,
)
    ensures
        alternative is None ==> expr_text(
            SpecExpression::If {
                token,
                condition: Box::new(condition),
                consequence,
                alternative,
            },
        ) == "if"@ + expr_text(condition) + " "@ + stmts_text(consequence.statements),
        alternative matches Some(a) ==> expr_text(
            SpecExpression::If {
                token,
                condition: Box::new(condition),
                consequence,
                alternative,
            },
        ) == "if"@ + expr_text(condition) + " "@ + stmts_text(consequence.statements) + "else "@
            + stmts_text(a.statements),
{
    let e = SpecExpression::If { token, condition: Box::new(condition), consequence, alternative };
    let head = "if"@ + expr_text(condition) + " "@ + block_text(consequence);
    assert(block_text(consequence) == stmts_text(consequence.statements));
    match alternative {
        None => {
            assert(expr_text(e) == head + Seq::<char>::empty());
            assert(head + Seq::<char>::empty() =~= head);
        },
        Some(a) => {
            assert(block_text(a) == stmts_text(a.statements));
            assert(expr_text(e) == head + ("else "@ + block_text(a)));
            assert(head + ("else "@ + block_text(a)) =~= head + "else "@ + block_text(a));
        },
    }
}

/// A list of arguments prints as the first one, then each further one
/// preceded by `", "`.
pub proof fn lemma_exprs_joined(s: Seq<SpecExpression>)
    requires
        s.len() > 0,
    ensures
        exprs_joined(s) == expr_text(s[0]) + s.drop_first().map_values(
            |e: SpecExpression| ", "@ + expr_text(e),
        ).flatten(),
    decreases s.len(),
{
    let m = s.drop_first().map_values(|e: SpecExpression| ", "@ + expr_text(e));
    m.lemma_flatten_and_flatten_alt_are_equivalent();
    if s.len() == 1 {
        assert(m =~= Seq::<Seq<char>>::empty());
        assert(expr_text(s[0]) + m.flatten_alt() =~= expr_text(s[0]));
    } else {
        let t = s.subrange(0, s.len() - 1);
        lemma_exprs_joined(t);
        let mt = t.drop_first().map_values(|e: SpecExpression| ", "@ + expr_text(e));
        mt.lemma_flatten_and_flatten_alt_are_equivalent();
        assert(m.drop_last() =~= mt);
        assert(m.last() == ", "@ + expr_text(s[s.len() - 1]));
        assert(m.flatten_alt() == mt.flatten_alt() + (", "@ + expr_text(s[s.len() - 1])));
        assert(t[0] == s[0]);
        assert(exprs_joined(s) == exprs_joined(t) + ", "@ + expr_text(s[s.len() - 1]));
        assert(expr_text(s[0]) + mt.flatten_alt() + ", "@ + expr_text(s[s.len() - 1]) =~= expr_text(
            s[0],
        ) + (mt.flatten_alt() + (", "@ + expr_text(s[s.len() - 1]))));
    }
}

/// Statements print one after the other, with nothing between them.
pub proof fn lemma_stmts_text(s: Seq<SpecStatement>)
    ensures
        stmts_text(s) == s.map_values(|x: SpecStatement| stmt_text(x)).flatten(),
    decreases s.len(),
{
    let m = s.map_values(|x: SpecStatement| stmt_text(x));
    m.lemma_flatten_and_flatten_alt_are_equivalent();
    if s.len() > 0 {
        let t = s.subrange(0, s.len() - 1);
        lemma_stmts_text(t);
        let mt = t.map_values(|x: SpecStatement| stmt_text(x));
        mt.lemma_flatten_and_flatten_alt_are_equivalent();
        assert(m.drop_last() =~= mt);
    } else {
        assert(m =~= Seq::<Seq<char>>::empty());
    }
}

/// Operators print fully parenthesised: a prefix expression as `(`, the
/// operator and its operand, `)`; an infix one as `(`, the left operand, a
/// space, the operator, a space, the right operand, `)`; a call as the
/// function followed by its arguments in brackets.
pub proof fn lemma_operator_text(
    token: SpecToken,
    operator: Seq<char>,
    left: SpecExpression,
    right: SpecExpression,
    arguments: Seq<SpecExpression>,
)
    ensures
        expr_text(SpecExpression::Prefix { token, operator, right: Box::new(right) }) == "("@
            + operator + expr_text(right) + ")"@,
        expr_text(
            SpecExpression::Infix {
                token,
                left: Box::new(left),
                operator,
                right: Box::new(right),
            },
        ) == "("@ + expr_text(left) + " "@ + operator + " "@ + expr_text(right) + ")"@,
        expr_text(SpecExpression::Call { token, function: Box::new(left), arguments }) == expr_text(
            left,
        ) + "("@ + exprs_joined(arguments) + ")"@,
{
}

// ---------------------------------------------------------------------------
// Copies of syntax trees.

fn clone_identifier(i: &IdentifierToken) -> (r: IdentifierToken)
    ensures
        r.0@ == i.0@,
{
    IdentifierToken(i.0.clone())
}

fn clone_expression(e: &Expression) -> (r: Expression)
    ensures
        r@ == e@,
    decreases e,
{
    match e {
        Expression::Identifier(i) => Expression::Identifier(clone_identifier(i)),
        Expression::IntegerLiteral(l) => Expression::IntegerLiteral(IntegerLiteral(l.0)),
        Expression::PrefixExpression(p) => Expression::PrefixExpression(
            Box::new(
                PrefixExpression {
                    token: p.token.clone(),
                    operator: p.operator.clone(),
                    right: clone_expression(&p.right),
                },
            ),
        ),
        Expression::InfixExpression(p) => Expression::InfixExpression(
            Box::new(
                InfixExpression {
                    token: p.token.clone(),
                    left: clone_expression(&p.left),
                    operator: p.operator.clone(),
                    right: clone_expression(&p.right),
                },
            ),
        ),
        Expression::Boolean(b) => Expression::Boolean(Boolean(b.0)),
        Expression::IfExpression(p) => {
            let alternative = match &p.alternative {
                Some(b) => Some(clone_block(b)),
                None => None,
            };
            Expression::IfExpression(
                Box::new(
                    IfExpression {
                        token: p.token.clone(),
                        condition: clone_expression(&p.condition),
                        consequence: clone_block(&p.consequence),
                        alternative,
                    },
                ),
            )
        },
        Expression::FunctionLiteral(f) => Expression::FunctionLiteral(
            FunctionLiteral {
                token: f.token.clone(),
                parameters: clone_identifiers(&f.parameters),
                body: clone_block(&f.body),
            },
        ),
        Expression::CallExpression(c) => Expression::CallExpression(
            Box::new(
                CallExpression {
                    token: c.token.clone(),
                    function: clone_expression(&c.function),
                    arguments: clone_expressions(&c.arguments),
                },
            ),
        ),
    }
}

fn clone_identifiers(v: &Vec<IdentifierToken>) -> (r: Vec<IdentifierToken>)
    ensures
        names_view(r@) == names_view(v@),
{
    let mut r: Vec<IdentifierToken> = Vec::new();
    let mut i: usize = 0;
    while i < v.len()
        invariant
            i <= v@.len(),
            r@.len() == i,
            forall|j: int| 0 <= j < i ==> #[trigger] r@[j].0@ == v@[j].0@,
        decreases v@.len() - i,
    {
        r.push(clone_identifier(&v[i]));
        i = i + 1;
    }
    assert(names_view(r@) =~= names_view(v@));
    r
}

fn clone_expressions(v: &Vec<Expression>) -> (r: Vec<Expression>)
    ensures
        exprs_view(r@) == exprs_view(v@),
    decreases v,
{
    let mut r: Vec<Expression> = Vec::new();
    let mut i: usize = 0;
    while i < v.len()
        invariant
            i <= v@.len(),
            r@.len() == i,
            forall|j: int| 0 <= j < i ==> #[trigger] expr_view(r@[j]) == expr_view(v@[j]),
        decreases v@.len() - i,
    {
        r.push(clone_expression(&v[i]));
        i = i + 1;
    }
    proof {
        lemma_exprs_view(r@);
        lemma_exprs_view(v@);
    }
    assert(exprs_view(r@) =~= exprs_view(v@));
    r
}

fn clone_statement(s: &Statement) -> (r: Statement)
    ensures
        r@ == s@,
    decreases s,
{
    match s {
        Statement::Let(l) => Statement::Let(
            LetStatement {
                token: l.token.clone(),
                name: clone_identifier(&l.name),
                value: clone_expression(&l.value),
            },
        ),
        Statement::Return(r) => Statement::Return(
            ReturnStatement {
                token: r.token.clone(),
                return_value: clone_expression(&r.return_value),
            },
        ),
        Statement::Expression(e) => Statement::Expression(
            ExpressionStatement {
                token: e.token.clone(),
                expression: clone_expression(&e.expression),
            },
        ),
    }
}

fn clone_statements(v: &Vec<Statement>) -> (r: Vec<Statement>)
    ensures
        stmts_view(r@) == stmts_view(v@),
    decreases v,
{
    let mut r: Vec<Statement> = Vec::new();
    let mut i: usize = 0;
    while i < v.len()
        invariant
            i <= v@.len(),
            r@.len() == i,
            forall|j: int| 0 <= j < i ==> #[trigger] stmt_view(r@[j]) == stmt_view(v@[j]),
        decreases v@.len() - i,
    {
        r.push(clone_statement(&v[i]));
        i = i + 1;
    }
    proof {
        lemma_stmts_view(r@);
        lemma_stmts_view(v@);
    }
    assert(stmts_view(r@) =~= stmts_view(v@));
    r
}

fn clone_block(b: &BlockStatement) -> (r: BlockStatement)
    ensures
        r@ == b@,
    decreases b,
{
    BlockStatement { token: b.token.clone(), statements: clone_statements(&b.statements) }
}

impl Clone for Expression {
    fn clone(&self) -> (r: Self)
        ensures
            r@ == self@,
    {
        clone_expression(self)
    }
}

impl Clone for Statement {
    fn clone(&self) -> (r: Self)
        ensures
            r@ == self@,
    {
        clone_statement(self)
    }
}

impl Clone for BlockStatement {
    fn clone(&self) -> (r: Self)
        ensures
            r@ == self@,
    {
        clone_block(self)
    }
}

impl Clone for LetStatement {
    fn clone(&self) -> (r: Self)
        ensures
            r.token == self.token,
            r.name.0@ == self.name.0@,
            r.value@ == self.value@,
    {
        LetStatement {
            token: self.token.clone(),
            name: clone_identifier(&self.name),
            value: clone_expression(&self.value),
        }
    }
}

impl Clone for ReturnStatement {
    fn clone(&self) -> (r: Self)
        ensures
            r.token == self.token,
            r.return_value@ == self.return_value@,
    {
        ReturnStatement {
            token: self.token.clone(),
            return_value: clone_expression(&self.return_value),
        }
    }
}

impl Clone for ExpressionStatement {
    fn clone(&self) -> (r: Self)
        ensures
            r.token == self.token,
            r.expression@ == self.expression@,
    {
        ExpressionStatement {
            token: self.token.clone(),
            expression: clone_expression(&self.expression),
        }
    }
}

impl Clone for PrefixExpression {
    fn clone(&self) -> (r: Self)
        ensures
            r.token == self.token,
            r.operator@ == self.operator@,
            r.right@ == self.right@,
    {
        PrefixExpression {
            token: self.token.clone(),
            operator: self.operator.clone(),
            right: clone_expression(&self.right),
        }
    }
}

impl Clone for InfixExpression {
    fn clone(&self) -> (r: Self)
        ensures
            r.token == self.token,
            r.left@ == self.left@,
            r.operator@ == self.operator@,
            r.right@ == self.right@,
    {
        InfixExpression {
            token: self.token.clone(),
            left: clone_expression(&self.left),
            operator: self.operator.clone(),
            right: clone_expression(&self.right),
        }
    }
}

impl Clone for IfExpression {
    fn clone(&self) -> (r: Self)
        ensures
            r.token == self.token,
            r.condition@ == self.condition@,
            r.consequence@ == self.consequence@,
            r.alternative is Some <==> self.alternative is Some,
            r.alternative is Some ==> r.alternative->0@ == self.alternative->0@,
    {
        let alternative = match &self.alternative {
            Some(b) => Some(clone_block(b)),
            None => None,
        };
        IfExpression {
            token: self.token.clone(),
            condition: clone_expression(&self.condition),
            consequence: clone_block(&self.consequence),
            alternative,
        }
    }
}

impl Clone for FunctionLiteral {
    fn clone(&self) -> (r: Self)
        ensures
            r.token == self.token,
            names_view(r.parameters@) == names_view(self.parameters@),
            r.body@ == self.body@,
    {
        FunctionLiteral {
            token: self.token.clone(),
            parameters: clone_identifiers(&self.parameters),
            body: clone_block(&self.body),
        }
    }
}

impl Clone for CallExpression {
    fn clone(&self) -> (r: Self)
        ensures
            r.token == self.token,
            r.function@ == self.function@,
            exprs_view(r.arguments@) == exprs_view(self.arguments@),
    {
        CallExpression {
            token: self.token.clone(),
            function: clone_expression(&self.function),
            arguments: clone_expressions(&self.arguments),
        }
    }
}

} // verus!
