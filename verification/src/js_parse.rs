//! Parsing a script with oxc into the syntax model of `js_ast`.
//!
//! The parse is oxc's; what it yields is named (`parsed_script`), not
//! restated. The conversion of oxc's tree into the model tells oxc's node
//! kinds apart, one arm each, and moves into the model the children and
//! attributes that `js_ast` documents; every other node kind becomes `Other`.
use vstd::prelude::*;
use oxc_allocator::Allocator;
use oxc_ast::ast as oxc;
use oxc_parser::Parser;
use oxc_span::SourceType;
use crate::js_ast as ir;

verus! {

/// oxc's statement node.
#[verifier::external_type_specification]
#[verifier::external_body]
pub struct ExStatement<'a>(oxc_ast::ast::Statement<'a>);

/// oxc's expression node.
#[verifier::external_type_specification]
#[verifier::external_body]
pub struct ExExpression<'a>(oxc_ast::ast::Expression<'a>);

/// oxc's function node.
#[verifier::external_type_specification]
#[verifier::external_body]
pub struct ExFunction<'a>(oxc_ast::ast::Function<'a>);

/// oxc's `case` node.
#[verifier::external_type_specification]
#[verifier::external_body]
pub struct ExSwitchCase<'a>(oxc_ast::ast::SwitchCase<'a>);

/// oxc's call-argument node.
#[verifier::external_type_specification]
#[verifier::external_body]
pub struct ExArgument<'a>(oxc_ast::ast::Argument<'a>);

/// oxc's assignment expression node.
#[verifier::external_type_specification]
#[verifier::external_body]
pub struct ExAssignmentExpression<'a>(oxc_ast::ast::AssignmentExpression<'a>);

/// oxc's binary expression node.
#[verifier::external_type_specification]
#[verifier::external_body]
pub struct ExBinaryExpression<'a>(oxc_ast::ast::BinaryExpression<'a>);

/// oxc's unary expression node.
#[verifier::external_type_specification]
#[verifier::external_body]
pub struct ExUnaryExpression<'a>(oxc_ast::ast::UnaryExpression<'a>);

/// The model of what `oxc_parser::Parser::parse` makes of a script (as a
/// non-module script), converted as this module describes; none when the
/// parser reports an error.
pub uninterp spec fn parsed_script(source: Seq<char>) -> Option<ir::Program>;

/// Parses the script with `oxc_parser::Parser::parse` (script, not module)
/// and converts the tree; on parse errors, the parser's diagnostics as text.
#[verifier::external_body]
pub fn parse_script(source: &str) -> (r: Result<ir::Program, String>)
    ensures
        r is Err <==> parsed_script(source@) is None,
        r matches Ok(p) ==> parsed_script(source@) == Some(p),
{
    let allocator = Allocator::default();
    let parsed = Parser::new(&allocator, source, SourceType::default().with_module(false)).parse();
    if parsed.diagnostics.has_errors() {
        return Err(format!("{:?}", parsed.diagnostics));
    }
    Ok(ir::Program { body: statements(&parsed.program.body) })
}

/// Converts a statement list, in order.
#[verifier::external_body]
fn statements(stmts: &[oxc::Statement]) -> Vec<ir::JsStatement> {
    stmts.iter().map(|s| statement(s)).collect()
}

/// Converts an expression list, in order.
#[verifier::external_body]
fn expressions(exprs: &[oxc::Expression]) -> Vec<ir::JsExpression> {
    exprs.iter().map(|e| expression(e)).collect()
}

/// The statements of a function's body; none when it has no body.
#[verifier::external_body]
fn function_body(func: &oxc::Function) -> Vec<ir::JsStatement> {
    match &func.body {
        Some(body) => statements(&body.statements),
        None => Vec::new(),
    }
}

/// A `case` with its test and statements.
#[verifier::external_body]
fn switch_case(case: &oxc::SwitchCase) -> ir::JsSwitchCase {
    ir::JsSwitchCase {
        test: match &case.test {
            Some(t) => Some(expression(t)),
            None => None,
        },
        consequent: statements(&case.consequent),
    }
}

/// Switches, function declarations, blocks, expression statements and jumps.
#[verifier::external_body]
fn statement(stmt: &oxc::Statement) -> ir::JsStatement {
    match stmt {
        oxc::Statement::SwitchStatement(s) => ir::JsStatement::Switch(
            ir::SwitchStatement { cases: s.cases.iter().map(|c| switch_case(c)).collect() },
        ),
        oxc::Statement::FunctionDeclaration(f) => ir::JsStatement::FunctionDeclaration(function_body(f)),
        oxc::Statement::BlockStatement(b) => ir::JsStatement::Block(statements(&b.body)),
        oxc::Statement::ExpressionStatement(e) => ir::JsStatement::Expression(expression(&e.expression)),
        oxc::Statement::ReturnStatement(_) => ir::JsStatement::Return,
        oxc::Statement::BreakStatement(_) => ir::JsStatement::Break,
        oxc::Statement::ContinueStatement(_) => ir::JsStatement::Continue,
        _ => compound_statement(stmt),
    }
}

/// `if` and variable declarations (a missing initializer is `Other`).
#[verifier::external_body]
fn compound_statement(stmt: &oxc::Statement) -> ir::JsStatement {
    match stmt {
        oxc::Statement::IfStatement(i) => ir::JsStatement::If(
            expression(&i.test),
            Box::new(statement(&i.consequent)),
            i.alternate.as_ref().map(|a| Box::new(statement(a))),
        ),
        oxc::Statement::VariableDeclaration(v) => ir::JsStatement::VariableDeclaration(
            v.declarations.iter().map(|d| d.init.as_ref().map(|e| expression(e)).unwrap_or(ir::JsExpression::Other)).collect(),
        ),
        _ => loop_statement(stmt),
    }
}

/// Loops, by their bodies.
#[verifier::external_body]
fn loop_statement(stmt: &oxc::Statement) -> ir::JsStatement {
    match stmt {
        oxc::Statement::WhileStatement(w) => ir::JsStatement::While(Box::new(statement(&w.body))),
        oxc::Statement::DoWhileStatement(d) => ir::JsStatement::DoWhile(Box::new(statement(&d.body))),
        oxc::Statement::ForStatement(f) => ir::JsStatement::For(Box::new(statement(&f.body))),
        oxc::Statement::ForInStatement(f) => ir::JsStatement::ForIn(Box::new(statement(&f.body))),
        _ => other_statement(stmt),
    }
}

/// `for .. of`, `with` and labels by their bodies, and `try` (a missing
/// handler or finalizer is an empty list); any other statement is `Other`.
#[verifier::external_body]
fn other_statement(stmt: &oxc::Statement) -> ir::JsStatement {
    match stmt {
        oxc::Statement::ForOfStatement(f) => ir::JsStatement::ForOf(Box::new(statement(&f.body))),
        oxc::Statement::WithStatement(w) => ir::JsStatement::With(Box::new(statement(&w.body))),
        oxc::Statement::LabeledStatement(l) => ir::JsStatement::Labeled(Box::new(statement(&l.body))),
        oxc::Statement::TryStatement(t) => ir::JsStatement::Try(
            statements(&t.block.body),
            t.handler.as_ref().map(|h| statements(&h.body.body)).unwrap_or_default(),
            t.finalizer.as_ref().map(|f| statements(&f.body)).unwrap_or_default(),
        ),
        _ => ir::JsStatement::Other,
    }
}

/// Call and `new` arguments; a spread is `Other`.
#[verifier::external_body]
fn arguments(args: &[oxc::Argument]) -> Vec<ir::JsExpression> {
    args.iter().map(|a| a.as_expression().map(|e| expression(e)).unwrap_or(ir::JsExpression::Other)).collect()
}

/// An assignment: `^=`, `+=`, `-=` told apart, any other operator `Other`,
/// with its right-hand side.
#[verifier::external_body]
fn assignment_expression(a: &oxc::AssignmentExpression) -> ir::JsExpression {
    let op = match a.operator {
        oxc::AssignmentOperator::BitwiseXOR => ir::AssignmentOperator::BitwiseXOR,
        oxc::AssignmentOperator::Addition => ir::AssignmentOperator::Addition,
        oxc::AssignmentOperator::Subtraction => ir::AssignmentOperator::Subtraction,
        _ => ir::AssignmentOperator::Other,
    };
    ir::JsExpression::Assignment(op, boxed(&a.right))
}

/// A binary expression: the arithmetic and comparison operators the
/// classification tells apart, any other `Other`, with both operands.
#[verifier::external_body]
fn binary_expression(b: &oxc::BinaryExpression) -> ir::JsExpression {
    let op = match b.operator {
        oxc::BinaryOperator::BitwiseXOR => ir::JsBinaryOperator::BitwiseXOR,
        oxc::BinaryOperator::Addition => ir::JsBinaryOperator::Addition,
        oxc::BinaryOperator::Subtraction => ir::JsBinaryOperator::Subtraction,
        oxc::BinaryOperator::StrictEquality => ir::JsBinaryOperator::StrictEquality,
        oxc::BinaryOperator::StrictInequality => ir::JsBinaryOperator::StrictInequality,
        oxc::BinaryOperator::Equality => ir::JsBinaryOperator::Equality,
        oxc::BinaryOperator::Inequality => ir::JsBinaryOperator::Inequality,
        oxc::BinaryOperator::LessThan => ir::JsBinaryOperator::LessThan,
        oxc::BinaryOperator::LessEqualThan => ir::JsBinaryOperator::LessEqualThan,
        _ => ir::JsBinaryOperator::Other,
    };
    ir::JsExpression::Binary(op, boxed(&b.left), boxed(&b.right))
}

/// A unary expression: negation told apart, any other operator `Other`.
#[verifier::external_body]
fn unary_expression(u: &oxc::UnaryExpression) -> ir::JsExpression {
    let op = match u.operator {
        oxc::UnaryOperator::UnaryNegation => ir::UnaryOperator::Negation,
        _ => ir::UnaryOperator::Other,
    };
    ir::JsExpression::Unary(op, boxed(&u.argument))
}

/// An expression, boxed.
#[verifier::external_body]
fn boxed(expr: &oxc::Expression) -> Box<ir::JsExpression> {
    Box::new(expression(expr))
}

/// Function expressions, calls, `new` and the leaves the analysis reads (a
/// numeric literal with its value converted by `as i64`).
#[verifier::external_body]
fn expression(expr: &oxc::Expression) -> ir::JsExpression {
    match expr {
        oxc::Expression::FunctionExpression(f) => ir::JsExpression::Function(function_body(f)),
        oxc::Expression::CallExpression(c) => ir::JsExpression::Call(boxed(&c.callee), arguments(&c.arguments)),
        oxc::Expression::NewExpression(n) => ir::JsExpression::New(boxed(&n.callee), arguments(&n.arguments)),
        oxc::Expression::ThisExpression(_) => ir::JsExpression::This,
        oxc::Expression::UpdateExpression(_) => ir::JsExpression::Update,
        oxc::Expression::NumericLiteral(n) => ir::JsExpression::NumericLiteral(n.value as i64),
        _ => member_expression(expr),
    }
}

/// Member accesses: static (with the property's name) and computed.
#[verifier::external_body]
fn member_expression(expr: &oxc::Expression) -> ir::JsExpression {
    match expr {
        oxc::Expression::StaticMemberExpression(m) => ir::JsExpression::StaticMember(boxed(&m.object), m.property.name.to_string()),
        oxc::Expression::ComputedMemberExpression(m) => ir::JsExpression::ComputedMember(boxed(&m.object), boxed(&m.expression)),
        _ => operator_expression(expr),
    }
}

/// Assignments, binary, logical, unary and conditional expressions,
/// sequences and parentheses.
#[verifier::external_body]
fn operator_expression(expr: &oxc::Expression) -> ir::JsExpression {
    match expr {
        oxc::Expression::AssignmentExpression(a) => assignment_expression(a),
        oxc::Expression::BinaryExpression(b) => binary_expression(b),
        oxc::Expression::LogicalExpression(l) => ir::JsExpression::Logical(boxed(&l.left), boxed(&l.right)),
        oxc::Expression::UnaryExpression(u) => unary_expression(u),
        oxc::Expression::ConditionalExpression(c) => ir::JsExpression::Conditional(boxed(&c.test), boxed(&c.consequent), boxed(&c.alternate)),
        oxc::Expression::SequenceExpression(s) => ir::JsExpression::Sequence(expressions(&s.expressions)),
        oxc::Expression::ParenthesizedExpression(p) => ir::JsExpression::Parenthesized(boxed(&p.expression)),
        _ => container_expression(expr),
    }
}

/// Object literals (property values and spread arguments) and array
/// literals (a hole or spread is `Other`).
#[verifier::external_body]
fn container_expression(expr: &oxc::Expression) -> ir::JsExpression {
    match expr {
        oxc::Expression::ObjectExpression(o) => ir::JsExpression::Object(o.properties.iter().map(|p| match p {
            oxc::ObjectPropertyKind::ObjectProperty(p) => expression(&p.value),
            oxc::ObjectPropertyKind::SpreadProperty(s) => expression(&s.argument),
        }).collect()),
        oxc::Expression::ArrayExpression(a) => ir::JsExpression::Array(a.elements.iter().map(|e| e.as_expression().map(|x| expression(x)).unwrap_or(ir::JsExpression::Other)).collect()),
        _ => function_like_expression(expr),
    }
}

/// Classes by their members (a method with its body, any other member
/// `Other`), and arrow functions (an expression
/// body becomes one expression statement).
#[verifier::external_body]
fn function_like_expression(expr: &oxc::Expression) -> ir::JsExpression {
    match expr {
        oxc::Expression::ClassExpression(c) => ir::JsExpression::Class(c.body.body.iter().map(|e| match e {
            oxc::ClassElement::MethodDefinition(m) => ir::ClassMember::Method(function_body(&m.value)),
            _ => ir::ClassMember::Other,
        }).collect()),
        oxc::Expression::ArrowFunctionExpression(a) => ir::JsExpression::Arrow(match &a.body {
            oxc::ArrowFunctionBody::FunctionBody(b) => statements(&b.statements),
            other => other.as_expression().map(|e| vec![ir::JsStatement::Expression(expression(e))]).unwrap_or_default(),
        }),
        _ => wrapper_expression(expr),
    }
}

/// Optional chains (a call element converted, any other `Other`), tagged
/// templates by their tag, `yield` (no argument is `Other`) and `await`.
#[verifier::external_body]
fn wrapper_expression(expr: &oxc::Expression) -> ir::JsExpression {
    match expr {
        oxc::Expression::ChainExpression(c) => ir::JsExpression::Chain(Box::new(match &c.expression {
            oxc::ChainElement::CallExpression(call) => ir::JsExpression::Call(boxed(&call.callee), arguments(&call.arguments)),
            _ => ir::JsExpression::Other,
        })),
        oxc::Expression::TaggedTemplateExpression(t) => ir::JsExpression::TaggedTemplate(boxed(&t.tag)),
        oxc::Expression::YieldExpression(y) => ir::JsExpression::Yield(Box::new(y.argument.as_ref().map(|e| expression(e)).unwrap_or(ir::JsExpression::Other))),
        oxc::Expression::AwaitExpression(a) => ir::JsExpression::Await(boxed(&a.argument)),
        _ => ir::JsExpression::Other,
    }
}

} // verus!
