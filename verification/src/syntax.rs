use crate::extract::texts;
use vstd::prelude::*;

verus! {

/// Who may name an item.
#[derive(Debug)]
pub enum Access {
    /// `pub`
    Public,
    /// `pub(crate)`
    Crate,
    /// Any other `pub(..)`, with the text that is shown between the parentheses.
    Restricted(String),
    /// No modifier.
    Inherited,
}

/// An expression, as far as calls are looked for in it.
#[derive(Debug)]
pub enum Expression {
    /// A call. `callee` is the function's name where the function is named
    /// by a single identifier, and `None` otherwise.
    Call { callee: Option<String>, args: Vec<Expression> },
    /// A method call.
    MethodCall { method: String, receiver: Box<Expression>, args: Vec<Expression> },
    /// A block.
    Block(Vec<Statement>),
    /// A conditional.
    If { cond: Box<Expression>, then_branch: Vec<Statement>, else_branch: Option<Box<Expression>> },
    /// A match, with the value matched on and the body of each arm.
    Match { scrutinee: Box<Expression>, arms: Vec<Expression> },
    /// A binary operation.
    Binary { left: Box<Expression>, right: Box<Expression> },
    /// Any other expression.
    Other,
}

/// A statement of a block.
#[derive(Debug)]
pub enum Statement {
    /// A `let`, with the value that the variable is given, if any.
    Local(Option<Expression>),
    /// An item declared in the block.
    Declaration,
    /// An expression.
    Expression(Expression),
    /// A macro call.
    Macro,
}

/// A function declared at the top level of a file.
#[derive(Debug)]
pub struct FunctionDecl {
    pub name: String,
    pub is_async: bool,
    /// Each parameter as text.
    pub params: Vec<String>,
    /// The return type as text, where one is written.
    pub output: Option<String>,
    pub vis: Access,
    /// Each generic parameter as text.
    pub generics: Vec<String>,
    pub body: Vec<Statement>,
}

/// A struct, an enum or a trait declared at the top level of a file.
#[derive(Debug)]
pub struct TypeDecl {
    pub name: String,
    pub vis: Access,
    /// Each generic parameter as text.
    pub generics: Vec<String>,
}

/// An item at the top level of a file.
#[derive(Debug)]
pub enum Declaration {
    Function(FunctionDecl),
    Struct(TypeDecl),
    Enum(TypeDecl),
    Trait(TypeDecl),
    /// Any other item.
    Other,
}

/// The view of a text that may be missing.
pub open spec fn opt_view(s: Option<String>) -> Option<Seq<char>> {
    match s {
        Some(t) => Some(t@),
        None => None,
    }
}

/// What an `Access` holds.
pub enum AccessView {
    Public,
    Crate,
    Restricted(Seq<char>),
    Inherited,
}

impl View for Access {
    type V = AccessView;

    open spec fn view(&self) -> AccessView {
        match *self {
            Access::Public => AccessView::Public,
            Access::Crate => AccessView::Crate,
            Access::Restricted(shown) => AccessView::Restricted(shown@),
            Access::Inherited => AccessView::Inherited,
        }
    }
}

/// What an `Expression` holds.
pub enum ExpressionView {
    Call { callee: Option<Seq<char>>, args: Seq<ExpressionView> },
    MethodCall { method: Seq<char>, receiver: Box<ExpressionView>, args: Seq<ExpressionView> },
    Block(Seq<StatementView>),
    If {
        cond: Box<ExpressionView>,
        then_branch: Seq<StatementView>,
        else_branch: Option<Box<ExpressionView>>,
    },
    Match { scrutinee: Box<ExpressionView>, arms: Seq<ExpressionView> },
    Binary { left: Box<ExpressionView>, right: Box<ExpressionView> },
    Other,
}

/// What a `Statement` holds.
pub enum StatementView {
    Local(Option<ExpressionView>),
    Declaration,
    Expression(ExpressionView),
    Macro,
}

/// What `e` holds.
pub open spec fn expression_view(e: Expression) -> ExpressionView
    decreases e, 0nat,
{
    match e {
        Expression::Call { callee, args } => ExpressionView::Call {
            callee: opt_view(callee),
            args: expression_views(args@),
        },
        Expression::MethodCall { method, receiver, args } => ExpressionView::MethodCall {
            method: method@,
            receiver: Box::new(expression_view(*receiver)),
            args: expression_views(args@),
        },
        Expression::Block(stmts) => ExpressionView::Block(statement_views(stmts@)),
        Expression::If { cond, then_branch, else_branch } => ExpressionView::If {
            cond: Box::new(expression_view(*cond)),
            then_branch: statement_views(then_branch@),
            else_branch: match else_branch {
                Some(other) => Some(Box::new(expression_view(*other))),
                None => None,
            },
        },
        Expression::Match { scrutinee, arms } => ExpressionView::Match {
            scrutinee: Box::new(expression_view(*scrutinee)),
            arms: expression_views(arms@),
        },
        Expression::Binary { left, right } => ExpressionView::Binary {
            left: Box::new(expression_view(*left)),
            right: Box::new(expression_view(*right)),
        },
        Expression::Other => ExpressionView::Other,
    }
}

/// What each of `es` holds.
pub open spec fn expression_views(es: Seq<Expression>) -> Seq<ExpressionView>
    decreases es, 1nat,
{
    Seq::new(
        es.len(),
        |i: int|
            if 0 <= i < es.len() {
                expression_view(es[i])
            } else {
                ExpressionView::Other
            },
    )
}

/// What `s` holds.
pub open spec fn statement_view(s: Statement) -> StatementView
    decreases s, 0nat,
{
    match s {
        Statement::Local(Some(e)) => StatementView::Local(Some(expression_view(e))),
        Statement::Local(None) => StatementView::Local(None),
        Statement::Declaration => StatementView::Declaration,
        Statement::Expression(e) => StatementView::Expression(expression_view(e)),
        Statement::Macro => StatementView::Macro,
    }
}

/// What each of `ss` holds.
pub open spec fn statement_views(ss: Seq<Statement>) -> Seq<StatementView>
    decreases ss, 1nat,
{
    Seq::new(
        ss.len(),
        |i: int|
            if 0 <= i < ss.len() {
                statement_view(ss[i])
            } else {
                StatementView::Macro
            },
    )
}

impl View for Expression {
    type V = ExpressionView;

    open spec fn view(&self) -> ExpressionView {
        expression_view(*self)
    }
}

impl View for Statement {
    type V = StatementView;

    open spec fn view(&self) -> StatementView {
        statement_view(*self)
    }
}

/// What a `FunctionDecl` holds.
pub struct FunctionView {
    pub name: Seq<char>,
    pub is_async: bool,
    pub params: Seq<Seq<char>>,
    pub output: Option<Seq<char>>,
    pub vis: AccessView,
    pub generics: Seq<Seq<char>>,
    pub body: Seq<StatementView>,
}

impl View for FunctionDecl {
    type V = FunctionView;

    open spec fn view(&self) -> FunctionView {
        FunctionView {
            name: self.name@,
            is_async: self.is_async,
            params: texts(self.params@),
            output: opt_view(self.output),
            vis: self.vis@,
            generics: texts(self.generics@),
            body: statement_views(self.body@),
        }
    }
}

/// What a `TypeDecl` holds.
pub struct TypeView {
    pub name: Seq<char>,
    pub vis: AccessView,
    pub generics: Seq<Seq<char>>,
}

impl View for TypeDecl {
    type V = TypeView;

    open spec fn view(&self) -> TypeView {
        TypeView { name: self.name@, vis: self.vis@, generics: texts(self.generics@) }
    }
}

/// What a `Declaration` holds.
pub enum DeclarationView {
    Function(FunctionView),
    Struct(TypeView),
    Enum(TypeView),
    Trait(TypeView),
    Other,
}

impl View for Declaration {
    type V = DeclarationView;

    open spec fn view(&self) -> DeclarationView {
        match *self {
            Declaration::Function(f) => DeclarationView::Function(f@),
            Declaration::Struct(t) => DeclarationView::Struct(t@),
            Declaration::Enum(t) => DeclarationView::Enum(t@),
            Declaration::Trait(t) => DeclarationView::Trait(t@),
            Declaration::Other => DeclarationView::Other,
        }
    }
}

/// What each of `ds` holds.
pub open spec fn declaration_views(ds: Seq<Declaration>) -> Seq<DeclarationView> {
    Seq::new(ds.len(), |i: int| ds[i]@)
}

} // verus!
