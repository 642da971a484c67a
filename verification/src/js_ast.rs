//! A plain-value model of the parts of a JavaScript syntax tree that the
//! opcode analysis reads. A parser front end builds it from a real tree:
//! each node keeps exactly the children and attributes the analysis looks at.
use vstd::prelude::*;

verus! {

/// A whole script: its top-level statements.
pub struct Program {
    pub body: Vec<JsStatement>,
}

/// `switch (..) { case ..: .. }`.
pub struct SwitchStatement {
    pub cases: Vec<JsSwitchCase>,
}

/// One `case` (or `default`, whose `test` is `None`) with its statements.
pub struct JsSwitchCase {
    pub test: Option<JsExpression>,
    pub consequent: Vec<JsStatement>,
}

/// Statements. A function declaration or method without a body, a catch
/// clause or `finally` that is absent, is an empty statement list; a
/// declarator without an initializer is `JsExpression::Other`.
pub enum JsStatement {
    Switch(SwitchStatement),
    /// A function declaration: the statements of its body.
    FunctionDeclaration(Vec<JsStatement>),
    Block(Vec<JsStatement>),
    Expression(JsExpression),
    /// test, consequent, alternate.
    If(JsExpression, Box<JsStatement>, Option<Box<JsStatement>>),
    While(Box<JsStatement>),
    DoWhile(Box<JsStatement>),
    For(Box<JsStatement>),
    ForIn(Box<JsStatement>),
    ForOf(Box<JsStatement>),
    With(Box<JsStatement>),
    Labeled(Box<JsStatement>),
    /// The initializers of a variable declaration.
    VariableDeclaration(Vec<JsExpression>),
    /// try block, catch body, finally body.
    Try(Vec<JsStatement>, Vec<JsStatement>, Vec<JsStatement>),
    Return,
    Break,
    Continue,
    Other,
}

/// A member of a class body: a method, with the statements of its body
/// (none when it has no body), or any other member.
pub enum ClassMember {
    Method(Vec<JsStatement>),
    Other,
}

/// Unary operators: only negation is told apart.
#[derive(Clone, Copy, PartialEq, Eq, Structural)]
pub enum UnaryOperator {
    Negation,
    Other,
}

/// Assignment operators: `^=`, `+=`, `-=` are told apart from all others.
#[derive(Clone, Copy, PartialEq, Eq, Structural)]
pub enum AssignmentOperator {
    BitwiseXOR,
    Addition,
    Subtraction,
    Other,
}

/// Binary (non-logical) operators as far as the classification tells them apart.
#[derive(Clone, Copy, PartialEq, Eq, Structural)]
pub enum JsBinaryOperator {
    BitwiseXOR,
    Addition,
    Subtraction,
    StrictEquality,
    StrictInequality,
    Equality,
    Inequality,
    LessThan,
    LessEqualThan,
    Other,
}

/// Expressions. A call or `new` argument, or an array element, that is not an
/// expression (a spread or a hole) is `Other`; so is a `yield` without an
/// argument and an optional chain whose element is not a call.
pub enum JsExpression {
    /// A function expression: the statements of its body.
    Function(Vec<JsStatement>),
    /// An arrow function: the statements of its body.
    Arrow(Vec<JsStatement>),
    /// callee, arguments.
    Call(Box<JsExpression>, Vec<JsExpression>),
    Sequence(Vec<JsExpression>),
    /// test, consequent, alternate.
    Conditional(Box<JsExpression>, Box<JsExpression>, Box<JsExpression>),
    /// operator, right-hand side.
    Assignment(AssignmentOperator, Box<JsExpression>),
    /// The value of each property and the argument of each spread, in order.
    Object(Vec<JsExpression>),
    Array(Vec<JsExpression>),
    /// The members of a class expression, in order.
    Class(Vec<ClassMember>),
    /// An optional chain; its element is a `Call` when it is a call.
    Chain(Box<JsExpression>),
    /// The tag of a tagged template.
    TaggedTemplate(Box<JsExpression>),
    Logical(Box<JsExpression>, Box<JsExpression>),
    /// callee, arguments.
    New(Box<JsExpression>, Vec<JsExpression>),
    Yield(Box<JsExpression>),
    Await(Box<JsExpression>),
    Unary(UnaryOperator, Box<JsExpression>),
    Parenthesized(Box<JsExpression>),
    /// object, property name.
    StaticMember(Box<JsExpression>, String),
    /// object, computed property.
    ComputedMember(Box<JsExpression>, Box<JsExpression>),
    Binary(JsBinaryOperator, Box<JsExpression>, Box<JsExpression>),
    This,
    Update,
    /// A numeric literal, as its value converted to `i64` (saturating, NaN to 0).
    NumericLiteral(i64),
    Other,
}

} // verus!
