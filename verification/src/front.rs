use crate::extract::texts;
use crate::syntax::{
    declaration_views, expression_views, opt_view, statement_views, Access, AccessView, Declaration,
    DeclarationView, Expression, ExpressionView, FunctionDecl, FunctionView, Statement,
    StatementView, TypeDecl, TypeView,
};
use quote::ToTokens;
use vstd::prelude::*;
use vstd::string::StringExecFns;

verus! {

/// `syn::Error`: why a text could not be parsed.
#[verifier::external_type_specification]
#[verifier::external_body]
pub struct ExError(syn::Error);

/// Which of the kinds of item that are looked at an item is.
#[derive(Debug, Clone, Copy, PartialEq, Eq, Structural)]
pub enum ItemKind {
    Function,
    Struct,
    Enum,
    Trait,
    Other,
}

/// Which form a visibility has.
#[derive(Debug, Clone, Copy, PartialEq, Eq, Structural)]
pub enum VisibilityForm {
    Public,
    Restricted,
    Inherited,
}

/// Which form a statement has.
#[derive(Debug, Clone, Copy, PartialEq, Eq, Structural)]
pub enum StatementForm {
    Local,
    Declaration,
    Expression,
    Macro,
}

/// Which of the kinds of expression that are looked into an expression is.
#[derive(Debug, Clone, Copy, PartialEq, Eq, Structural)]
pub enum ExpressionKind {
    Call,
    MethodCall,
    Block,
    If,
    Match,
    Binary,
    Other,
}

/// Why a text could not be parsed.
#[derive(Debug)]
pub struct ParseError {
    pub message: String,
}

/// The items that `syn::parse_file` reads at the top level of `text`, each
/// as the text of its tokens; nothing where it gives no tree.
pub uninterp spec fn source_items(text: Seq<char>) -> Option<Seq<Seq<char>>>;

/// The kind of the item that `syn` reads from the tokens `item`; nothing
/// where it reads no item.
pub uninterp spec fn item_kind_of(item: Seq<char>) -> Option<ItemKind>;

/// The identifier of the function, struct, enum or trait that `syn` reads
/// from the tokens `item`.
pub uninterp spec fn item_name_of(item: Seq<char>) -> Option<Seq<char>>;

/// The generic parameters of the function, struct, enum or trait that `syn`
/// reads from the tokens `item`, each as the text of its tokens.
pub uninterp spec fn item_generics_of(item: Seq<char>) -> Option<Seq<Seq<char>>>;

/// The visibility of the function, struct, enum or trait that `syn` reads
/// from the tokens `item`, as the text of its tokens.
pub uninterp spec fn item_visibility_of(item: Seq<char>) -> Option<Seq<char>>;

/// The form of the visibility that `syn` reads from the tokens `vis`;
/// nothing where it reads no visibility.
pub uninterp spec fn visibility_form_of(vis: Seq<char>) -> Option<VisibilityForm>;

/// The single identifier that the path of the restricted visibility
/// consists of that `syn` reads from the tokens `vis`.
pub uninterp spec fn restricted_ident_of(vis: Seq<char>) -> Option<Seq<char>>;

/// Of the function that `syn` reads from the tokens `item`: whether it is
/// asynchronous, and its parameters and its return type as the texts of
/// their tokens.
pub uninterp spec fn fn_signature_of(item: Seq<char>) -> Option<
    (bool, Seq<Seq<char>>, Option<Seq<char>>),
>;

/// The statements of the body of the function that `syn` reads from the
/// tokens `item`, each as the text of its tokens.
pub uninterp spec fn fn_body_of(item: Seq<char>) -> Option<Seq<Seq<char>>>;

/// The form of the statement that `syn` reads from the tokens `stmt`, and
/// the value of a `let` or the expression of an expression statement as the
/// text of its tokens.
pub uninterp spec fn statement_of(stmt: Seq<char>) -> Option<(StatementForm, Option<Seq<char>>)>;

/// The kind of the expression that `syn` reads from the tokens `expr`;
/// nothing where it reads no expression.
pub uninterp spec fn expression_kind_of(expr: Seq<char>) -> Option<ExpressionKind>;

/// The function and the arguments of the call that `syn` reads from the
/// tokens `expr`, as the texts of their tokens.
pub uninterp spec fn call_of(expr: Seq<char>) -> Option<(Seq<char>, Seq<Seq<char>>)>;

/// The single identifier that the path consists of that `syn` reads from
/// the tokens `expr`.
pub uninterp spec fn single_ident_of(expr: Seq<char>) -> Option<Seq<char>>;

/// The name of the method, and the receiver and the arguments as the texts
/// of their tokens, of the method call that `syn` reads from the tokens `expr`.
pub uninterp spec fn method_call_of(expr: Seq<char>) -> Option<
    (Seq<char>, Seq<char>, Seq<Seq<char>>),
>;

/// The statements of the block that `syn` reads from the tokens `expr`.
pub uninterp spec fn block_of(expr: Seq<char>) -> Option<Seq<Seq<char>>>;

/// The condition, the statements of the first branch and the other branch
/// of the conditional that `syn` reads from the tokens `expr`.
pub uninterp spec fn if_of(expr: Seq<char>) -> Option<
    (Seq<char>, Seq<Seq<char>>, Option<Seq<char>>),
>;

/// The value matched on and the body of each arm of the match that `syn`
/// reads from the tokens `expr`.
pub uninterp spec fn match_of(expr: Seq<char>) -> Option<(Seq<char>, Seq<Seq<char>>)>;

/// The two operands of the binary operation that `syn` reads from the
/// tokens `expr`.
pub uninterp spec fn binary_of(expr: Seq<char>) -> Option<(Seq<char>, Seq<char>)>;

/// Calls `syn::parse_file` on `text` and gives each item of the tree as the
/// text of its tokens (`ToTokens::to_token_stream`, then `to_string`), or
/// the error as it is.
#[verifier::external_body]
fn read_items(text: &str) -> (r: Result<Vec<String>, syn::Error>)
    ensures
        match r {
            Ok(items) => source_items(text@) == Some(texts(items@)),
            Err(_) => source_items(text@) is None,
        },
{
    let file = syn::parse_file(text)?;
    Ok(file.items.iter().map(|item| item.to_token_stream().to_string()).collect())
}

/// The message of a `syn::Error`, by its `to_string`.
#[verifier::external_body]
fn error_message(error: &syn::Error) -> (r: String) {
    error.to_string()
}

/// Reads an item from its tokens by `syn::parse_str` and tells the
/// variants of `syn::Item` apart.
#[verifier::external_body]
fn read_item_kind(item: &str) -> (r: Option<ItemKind>)
    ensures
        r == item_kind_of(item@),
{
    match syn::parse_str::<syn::Item>(item) {
        Ok(syn::Item::Fn(_)) => Some(ItemKind::Function),
        Ok(syn::Item::Struct(_)) => Some(ItemKind::Struct),
        Ok(syn::Item::Enum(_)) => Some(ItemKind::Enum),
        Ok(syn::Item::Trait(_)) => Some(ItemKind::Trait),
        Ok(_) => Some(ItemKind::Other),
        Err(_) => None,
    }
}

/// Reads an item from its tokens and gives the identifier of a function,
/// struct, enum or trait, by its `to_string`.
#[verifier::external_body]
fn read_item_name(item: &str) -> (r: Option<String>)
    ensures
        opt_view(r) == item_name_of(item@),
{
    match syn::parse_str::<syn::Item>(item) {
        Ok(syn::Item::Fn(f)) => Some(f.sig.ident.to_string()),
        Ok(syn::Item::Struct(s)) => Some(s.ident.to_string()),
        Ok(syn::Item::Enum(e)) => Some(e.ident.to_string()),
        Ok(syn::Item::Trait(t)) => Some(t.ident.to_string()),
        _ => None,
    }
}

/// Reads an item from its tokens and gives the generic parameters of a
/// function, struct, enum or trait, each as the text of its tokens.
#[verifier::external_body]
fn read_item_generics(item: &str) -> (r: Option<Vec<String>>)
    ensures
        match r {
            Some(params) => item_generics_of(item@) == Some(texts(params@)),
            None => item_generics_of(item@) is None,
        },
{
    let generics = match syn::parse_str::<syn::Item>(item) {
        Ok(syn::Item::Fn(f)) => f.sig.generics,
        Ok(syn::Item::Struct(s)) => s.generics,
        Ok(syn::Item::Enum(e)) => e.generics,
        Ok(syn::Item::Trait(t)) => t.generics,
        _ => return None,
    };
    Some(generics.params.iter().map(|p| p.to_token_stream().to_string()).collect())
}

/// Reads an item from its tokens and gives the field `vis` of a function,
/// struct, enum or trait as the text of its tokens.
#[verifier::external_body]
fn read_item_visibility(item: &str) -> (r: Option<String>)
    ensures
        opt_view(r) == item_visibility_of(item@),
{
    match syn::parse_str::<syn::Item>(item) {
        Ok(syn::Item::Fn(f)) => Some(f.vis.to_token_stream().to_string()),
        Ok(syn::Item::Struct(s)) => Some(s.vis.to_token_stream().to_string()),
        Ok(syn::Item::Enum(e)) => Some(e.vis.to_token_stream().to_string()),
        Ok(syn::Item::Trait(t)) => Some(t.vis.to_token_stream().to_string()),
        _ => None,
    }
}

/// Reads a visibility from its tokens and tells the variants of
/// `syn::Visibility` apart.
#[verifier::external_body]
fn read_visibility_form(vis: &str) -> (r: Option<VisibilityForm>)
    ensures
        r == visibility_form_of(vis@),
{
    match syn::parse_str::<syn::Visibility>(vis) {
        Ok(syn::Visibility::Public(_)) => Some(VisibilityForm::Public),
        Ok(syn::Visibility::Restricted(_)) => Some(VisibilityForm::Restricted),
        Ok(syn::Visibility::Inherited) => Some(VisibilityForm::Inherited),
        Err(_) => None,
    }
}

/// Reads a visibility from its tokens and gives the identifier that the
/// path of a restricted one consists of, by `syn::Path::get_ident`.
#[verifier::external_body]
fn read_restricted_ident(vis: &str) -> (r: Option<String>)
    ensures
        opt_view(r) == restricted_ident_of(vis@),
{
    match syn::parse_str::<syn::Visibility>(vis) {
        Ok(syn::Visibility::Restricted(r)) => r.path.get_ident().map(|ident| ident.to_string()),
        _ => None,
    }
}

/// Reads a function from its tokens and gives whether its signature holds
/// `async`, and its parameters and its return type as texts.
#[verifier::external_body]
fn read_fn_signature(item: &str) -> (r: Option<(bool, Vec<String>, Option<String>)>)
    ensures
        match r {
            Some(sig) => fn_signature_of(item@) == Some((sig.0, texts(sig.1@), opt_view(sig.2))),
            None => fn_signature_of(item@) is None,
        },
{
    let f = syn::parse_str::<syn::ItemFn>(item).ok()?;
    let params = f.sig.inputs.iter().map(|p| p.to_token_stream().to_string()).collect();
    let output = match &f.sig.output {
        syn::ReturnType::Type(_, ty) => Some(ty.to_token_stream().to_string()),
        syn::ReturnType::Default => None,
    };
    Some((f.sig.asyncness.is_some(), params, output))
}

/// Reads a function from its tokens and gives the statements of its body,
/// each as the text of its tokens.
#[verifier::external_body]
fn read_fn_body(item: &str) -> (r: Option<Vec<String>>)
    ensures
        match r {
            Some(body) => fn_body_of(item@) == Some(texts(body@)),
            None => fn_body_of(item@) is None,
        },
{
    let f = syn::parse_str::<syn::ItemFn>(item).ok()?;
    Some(f.block.stmts.iter().map(|s| s.to_token_stream().to_string()).collect())
}

/// Reads a statement from its tokens, as the one statement of a block, and
/// tells the variants of `syn::Stmt` apart, with the value of a `let` and
/// the expression of an expression statement as texts.
#[verifier::external_body]
fn read_statement(stmt: &str) -> (r: Option<(StatementForm, Option<String>)>)
    ensures
        match r {
            Some(parts) => statement_of(stmt@) == Some((parts.0, opt_view(parts.1))),
            None => statement_of(stmt@) is None,
        },
{
    let block = syn::parse_str::<syn::Block>(&format!("{{ {} }}", stmt)).ok()?;
    Some(match block.stmts.first()? {
        syn::Stmt::Local(local) => (
            StatementForm::Local,
            local.init.as_ref().map(|init| init.expr.to_token_stream().to_string()),
        ),
        syn::Stmt::Item(_) => (StatementForm::Declaration, None),
        syn::Stmt::Expr(expr, _) => (
            StatementForm::Expression,
            Some(expr.to_token_stream().to_string()),
        ),
        syn::Stmt::Macro(_) => (StatementForm::Macro, None),
    })
}

/// Reads an expression from its tokens and tells the variants of
/// `syn::Expr` apart.
#[verifier::external_body]
fn read_expression_kind(expr: &str) -> (r: Option<ExpressionKind>)
    ensures
        r == expression_kind_of(expr@),
{
    match syn::parse_str::<syn::Expr>(expr) {
        Ok(syn::Expr::Call(_)) => Some(ExpressionKind::Call),
        Ok(syn::Expr::MethodCall(_)) => Some(ExpressionKind::MethodCall),
        Ok(syn::Expr::Block(_)) => Some(ExpressionKind::Block),
        Ok(syn::Expr::If(_)) => Some(ExpressionKind::If),
        Ok(syn::Expr::Match(_)) => Some(ExpressionKind::Match),
        Ok(syn::Expr::Binary(_)) => Some(ExpressionKind::Binary),
        Ok(_) => Some(ExpressionKind::Other),
        Err(_) => None,
    }
}

/// Reads a call from its tokens and gives its function and its arguments
/// as texts.
#[verifier::external_body]
fn read_call(expr: &str) -> (r: Option<(String, Vec<String>)>)
    ensures
        match r {
            Some(parts) => call_of(expr@) == Some((parts.0@, texts(parts.1@))),
            None => call_of(expr@) is None,
        },
{
    match syn::parse_str::<syn::Expr>(expr) {
        Ok(syn::Expr::Call(call)) => Some(
            (
                call.func.to_token_stream().to_string(),
                call.args.iter().map(|a| a.to_token_stream().to_string()).collect(),
            ),
        ),
        _ => None,
    }
}

/// Reads an expression from its tokens and gives the identifier that a
/// path consists of, by `syn::Path::get_ident` and `to_string`.
#[verifier::external_body]
fn read_single_ident(expr: &str) -> (r: Option<String>)
    ensures
        opt_view(r) == single_ident_of(expr@),
{
    match syn::parse_str::<syn::Expr>(expr) {
        Ok(syn::Expr::Path(path)) => path.path.get_ident().map(|ident| ident.to_string()),
        _ => None,
    }
}

/// Reads a method call from its tokens and gives the method's name, and
/// the receiver and the arguments as texts.
#[verifier::external_body]
fn read_method_call(expr: &str) -> (r: Option<(String, String, Vec<String>)>)
    ensures
        match r {
            Some(parts) => method_call_of(expr@) == Some((parts.0@, parts.1@, texts(parts.2@))),
            None => method_call_of(expr@) is None,
        },
{
    match syn::parse_str::<syn::Expr>(expr) {
        Ok(syn::Expr::MethodCall(call)) => Some(
            (
                call.method.to_string(),
                call.receiver.to_token_stream().to_string(),
                call.args.iter().map(|a| a.to_token_stream().to_string()).collect(),
            ),
        ),
        _ => None,
    }
}

/// Reads a block expression from its tokens and gives its statements as texts.
#[verifier::external_body]
fn read_block(expr: &str) -> (r: Option<Vec<String>>)
    ensures
        match r {
            Some(stmts) => block_of(expr@) == Some(texts(stmts@)),
            None => block_of(expr@) is None,
        },
{
    match syn::parse_str::<syn::Expr>(expr) {
        Ok(syn::Expr::Block(b)) => Some(
            b.block.stmts.iter().map(|s| s.to_token_stream().to_string()).collect(),
        ),
        _ => None,
    }
}

/// Reads a conditional from its tokens and gives the condition, the
/// statements of the first branch and the other branch as texts.
#[verifier::external_body]
fn read_if(expr: &str) -> (r: Option<(String, Vec<String>, Option<String>)>)
    ensures
        match r {
            Some(parts) => if_of(expr@) == Some((parts.0@, texts(parts.1@), opt_view(parts.2))),
            None => if_of(expr@) is None,
        },
{
    match syn::parse_str::<syn::Expr>(expr) {
        Ok(syn::Expr::If(e)) => Some(
            (
                e.cond.to_token_stream().to_string(),
                e.then_branch.stmts.iter().map(|s| s.to_token_stream().to_string()).collect(),
                e.else_branch.as_ref().map(|(_, other)| other.to_token_stream().to_string()),
            ),
        ),
        _ => None,
    }
}

/// Reads a match from its tokens and gives the value matched on and the
/// body of each arm as texts.
#[verifier::external_body]
fn read_match(expr: &str) -> (r: Option<(String, Vec<String>)>)
    ensures
        match r {
            Some(parts) => match_of(expr@) == Some((parts.0@, texts(parts.1@))),
            None => match_of(expr@) is None,
        },
{
    match syn::parse_str::<syn::Expr>(expr) {
        Ok(syn::Expr::Match(e)) => Some(
            (
                e.expr.to_token_stream().to_string(),
                e.arms.iter().map(|arm| arm.body.to_token_stream().to_string()).collect(),
            ),
        ),
        _ => None,
    }
}

/// Reads a binary operation from its tokens and gives its two operands as
/// texts.
#[verifier::external_body]
fn read_binary(expr: &str) -> (r: Option<(String, String)>)
    ensures
        match r {
            Some(parts) => binary_of(expr@) == Some((parts.0@, parts.1@)),
            None => binary_of(expr@) is None,
        },
{
    match syn::parse_str::<syn::Expr>(expr) {
        Ok(syn::Expr::Binary(e)) => Some(
            (e.left.to_token_stream().to_string(), e.right.to_token_stream().to_string()),
        ),
        _ => None,
    }
}

/// How deep expressions are followed into one another. No text that can be
/// parsed nests as deep.
pub const NESTING_LIMIT: usize = usize::MAX;

/// The expression that the tokens `text` are read as, followed `depth`
/// levels deep: a call with the single identifier of its function and its
/// arguments, a method call, a block, a conditional, a match or a binary
/// operation with its parts, each followed one level less deep. Anything
/// else, what cannot be read, and whatever stands deeper, is `Other`.
pub open spec fn lowered_expression(text: Seq<char>, depth: nat) -> ExpressionView
    decreases depth, 0nat,
{
    if depth == 0 {
        ExpressionView::Other
    } else {
        let below = (depth - 1) as nat;
        match expression_kind(text) {
            ExpressionKind::Call => match call_of(text) {
                Some(parts) => ExpressionView::Call {
                    callee: single_ident_of(parts.0),
                    args: lowered_expressions(parts.1, below),
                },
                None => ExpressionView::Other,
            },
            ExpressionKind::MethodCall => match method_call_of(text) {
                Some(parts) => ExpressionView::MethodCall {
                    method: parts.0,
                    receiver: Box::new(lowered_expression(parts.1, below)),
                    args: lowered_expressions(parts.2, below),
                },
                None => ExpressionView::Other,
            },
            ExpressionKind::Block => match block_of(text) {
                Some(stmts) => ExpressionView::Block(lowered_statements(stmts, below)),
                None => ExpressionView::Other,
            },
            ExpressionKind::If => match if_of(text) {
                Some(parts) => ExpressionView::If {
                    cond: Box::new(lowered_expression(parts.0, below)),
                    then_branch: lowered_statements(parts.1, below),
                    else_branch: match parts.2 {
                        Some(other) => Some(Box::new(lowered_expression(other, below))),
                        None => None,
                    },
                },
                None => ExpressionView::Other,
            },
            ExpressionKind::Match => match match_of(text) {
                Some(parts) => ExpressionView::Match {
                    scrutinee: Box::new(lowered_expression(parts.0, below)),
                    arms: lowered_expressions(parts.1, below),
                },
                None => ExpressionView::Other,
            },
            ExpressionKind::Binary => match binary_of(text) {
                Some(parts) => ExpressionView::Binary {
                    left: Box::new(lowered_expression(parts.0, below)),
                    right: Box::new(lowered_expression(parts.1, below)),
                },
                None => ExpressionView::Other,
            },
            ExpressionKind::Other => ExpressionView::Other,
        }
    }
}

/// The kind of the expression that the tokens `text` are read as; what
/// cannot be read is of the kind `Other`.
pub open spec fn expression_kind(text: Seq<char>) -> ExpressionKind {
    match expression_kind_of(text) {
        Some(kind) => kind,
        None => ExpressionKind::Other,
    }
}

/// The expressions that the tokens of `parts` are read as.
pub open spec fn lowered_expressions(parts: Seq<Seq<char>>, depth: nat) -> Seq<ExpressionView>
    decreases depth, 1nat,
{
    Seq::new(parts.len(), |i: int| lowered_expression(parts[i], depth))
}

/// The statement that the tokens `text` are read as: a `let` with its
/// value, an item, an expression or a macro call. What cannot be read is
/// passed over like a macro call.
pub open spec fn lowered_statement(text: Seq<char>, depth: nat) -> StatementView
    decreases depth, 1nat,
{
    match statement_of(text) {
        Some(parts) => match parts.0 {
            StatementForm::Local => StatementView::Local(
                match parts.1 {
                    Some(value) => Some(lowered_expression(value, depth)),
                    None => None,
                },
            ),
            StatementForm::Declaration => StatementView::Declaration,
            StatementForm::Expression => match parts.1 {
                Some(expr) => StatementView::Expression(lowered_expression(expr, depth)),
                None => StatementView::Macro,
            },
            StatementForm::Macro => StatementView::Macro,
        },
        None => StatementView::Macro,
    }
}

/// The statements that the tokens of `parts` are read as.
pub open spec fn lowered_statements(parts: Seq<Seq<char>>, depth: nat) -> Seq<StatementView>
    decreases depth, 2nat,
{
    Seq::new(parts.len(), |i: int| lowered_statement(parts[i], depth))
}

/// What is shown for a visibility of the form `form`: `Public` and
/// `Inherited` for these forms; for a restricted one, `Crate` where its
/// path is the single identifier `crate`, and otherwise `Restricted` with
/// the tokens of the modifier, a dot and `path`.
pub open spec fn shown_access(
    form: VisibilityForm,
    ident: Option<Seq<char>>,
    tokens: Seq<char>,
) -> AccessView {
    match form {
        VisibilityForm::Public => AccessView::Public,
        VisibilityForm::Inherited => AccessView::Inherited,
        VisibilityForm::Restricted => if ident == Some("crate"@) {
            AccessView::Crate
        } else {
            AccessView::Restricted(tokens + " . path"@)
        },
    }
}

/// What is read of a function besides its name, its visibility and its
/// generic parameters: whether it is asynchronous, each parameter and the
/// return type as the text of their tokens, and the statements of its body.
#[derive(Debug)]
pub struct FunctionParts {
    pub is_async: bool,
    pub params: Vec<String>,
    pub output: Option<String>,
    pub body: Vec<Statement>,
}

/// What a `FunctionParts` holds.
pub struct FunctionPartsView {
    pub is_async: bool,
    pub params: Seq<Seq<char>>,
    pub output: Option<Seq<char>>,
    pub body: Seq<StatementView>,
}

impl View for FunctionParts {
    type V = FunctionPartsView;

    open spec fn view(&self) -> FunctionPartsView {
        FunctionPartsView {
            is_async: self.is_async,
            params: texts(self.params@),
            output: opt_view(self.output),
            body: statement_views(self.body@),
        }
    }
}

/// The view of parts that may be missing.
pub open spec fn opt_parts(parts: Option<FunctionParts>) -> Option<FunctionPartsView> {
    match parts {
        Some(p) => Some(p@),
        None => None,
    }
}

/// The declaration that is made of what was read of an item: `Other` for
/// an item without a name or of another kind, and for a function of which
/// no parts were read; else the function, struct, enum or trait with the
/// name, the visibility, the generic parameters and the parts of a function.
pub open spec fn declared(
    kind: ItemKind,
    name: Option<Seq<char>>,
    vis: AccessView,
    generics: Seq<Seq<char>>,
    function: Option<FunctionPartsView>,
) -> DeclarationView {
    match name {
        None => DeclarationView::Other,
        Some(name) => match kind {
            ItemKind::Function => match function {
                Some(f) => DeclarationView::Function(
                    FunctionView {
                        name,
                        is_async: f.is_async,
                        params: f.params,
                        output: f.output,
                        vis,
                        generics,
                        body: f.body,
                    },
                ),
                None => DeclarationView::Other,
            },
            ItemKind::Struct => DeclarationView::Struct(TypeView { name, vis, generics }),
            ItemKind::Enum => DeclarationView::Enum(TypeView { name, vis, generics }),
            ItemKind::Trait => DeclarationView::Trait(TypeView { name, vis, generics }),
            ItemKind::Other => DeclarationView::Other,
        },
    }
}

/// The visibility that the item of the tokens `item` is shown with; an
/// item that has no visibility of its own, or one that cannot be read, is
/// shown as one with an inherited visibility.
pub open spec fn lowered_visibility(item: Seq<char>) -> AccessView {
    match item_visibility_of(item) {
        Some(vis) => match visibility_form_of(vis) {
            Some(form) => shown_access(form, restricted_ident_of(vis), vis),
            None => AccessView::Inherited,
        },
        None => AccessView::Inherited,
    }
}

/// The parts of the function that the tokens `item` are read as, with the
/// body followed `NESTING_LIMIT` levels deep.
pub open spec fn lowered_function(item: Seq<char>) -> Option<FunctionPartsView> {
    match fn_signature_of(item) {
        Some(sig) => match fn_body_of(item) {
            Some(body) => Some(
                FunctionPartsView {
                    is_async: sig.0,
                    params: sig.1,
                    output: sig.2,
                    body: lowered_statements(body, NESTING_LIMIT as nat),
                },
            ),
            None => None,
        },
        None => None,
    }
}

/// The declaration that the tokens `item` are read as. What cannot be
/// read is of the kind `Other` and has no generic parameters.
pub open spec fn lowered_item(item: Seq<char>) -> DeclarationView {
    declared(
        match item_kind_of(item) {
            Some(kind) => kind,
            None => ItemKind::Other,
        },
        item_name_of(item),
        lowered_visibility(item),
        match item_generics_of(item) {
            Some(generics) => generics,
            None => Seq::empty(),
        },
        lowered_function(item),
    )
}

/// The declarations that `text` is read as, in the order of its items;
/// nothing where `syn` gives no tree for the text.
pub open spec fn lowered(text: Seq<char>) -> Option<Seq<DeclarationView>> {
    match source_items(text) {
        Some(items) => Some(Seq::new(items.len(), |i: int| lowered_item(items[i]))),
        None => None,
    }
}

/// Whether `syn::parse_file` gives a tree for `text`.
pub open spec fn parses(text: Seq<char>) -> bool {
    source_items(text) is Some
}

/// See `lowered_expression`.
fn lower_expr(text: &str, depth: usize) -> (r: Expression)
    ensures
        r@ == lowered_expression(text@, depth as nat),
    decreases depth, 0nat,
{
    if depth == 0 {
        return Expression::Other;
    }
    let kind = match read_expression_kind(text) {
        Some(kind) => kind,
        None => ExpressionKind::Other,
    };
    match kind {
        ExpressionKind::Call => match read_call(text) {
            Some((func, args)) => Expression::Call {
                callee: read_single_ident(func.as_str()),
                args: lower_exprs(&args, depth - 1),
            },
            None => Expression::Other,
        },
        ExpressionKind::MethodCall => match read_method_call(text) {
            Some((method, receiver, args)) => Expression::MethodCall {
                method,
                receiver: Box::new(lower_expr(receiver.as_str(), depth - 1)),
                args: lower_exprs(&args, depth - 1),
            },
            None => Expression::Other,
        },
        ExpressionKind::Block => match read_block(text) {
            Some(stmts) => Expression::Block(lower_stmts(&stmts, depth - 1)),
            None => Expression::Other,
        },
        ExpressionKind::If => match read_if(text) {
            Some((cond, then_branch, else_branch)) => Expression::If {
                cond: Box::new(lower_expr(cond.as_str(), depth - 1)),
                then_branch: lower_stmts(&then_branch, depth - 1),
                else_branch: match else_branch {
                    Some(other) => Some(Box::new(lower_expr(other.as_str(), depth - 1))),
                    None => None,
                },
            },
            None => Expression::Other,
        },
        ExpressionKind::Match => match read_match(text) {
            Some((scrutinee, arms)) => Expression::Match {
                scrutinee: Box::new(lower_expr(scrutinee.as_str(), depth - 1)),
                arms: lower_exprs(&arms, depth - 1),
            },
            None => Expression::Other,
        },
        ExpressionKind::Binary => match read_binary(text) {
            Some((left, right)) => Expression::Binary {
                left: Box::new(lower_expr(left.as_str(), depth - 1)),
                right: Box::new(lower_expr(right.as_str(), depth - 1)),
            },
            None => Expression::Other,
        },
        ExpressionKind::Other => Expression::Other,
    }
}

/// See `lowered_expressions`.
fn lower_exprs(parts: &Vec<String>, depth: usize) -> (r: Vec<Expression>)
    ensures
        expression_views(r@) == lowered_expressions(texts(parts@), depth as nat),
    decreases depth, 1nat,
{
    let ghost all = lowered_expressions(texts(parts@), depth as nat);
    let mut out: Vec<Expression> = Vec::new();
    let mut i: usize = 0;
    assert(expression_views(out@) =~= all.take(0));
    while i < parts.len()
        invariant
            i <= parts@.len(),
            all == lowered_expressions(texts(parts@), depth as nat),
            expression_views(out@) == all.take(i as int),
        decreases parts.len() - i,
    {
        let ghost before = expression_views(out@);
        let e = lower_expr(parts[i].as_str(), depth);
        out.push(e);
        i += 1;
        assert(expression_views(out@) =~= before.push(e@));
        assert(all.take(i as int) =~= all.take(i as int - 1).push(all[i as int - 1]));
    }
    assert(all.take(all.len() as int) =~= all);
    out
}

/// See `lowered_statement`.
fn lower_stmt(text: &str, depth: usize) -> (r: Statement)
    ensures
        r@ == lowered_statement(text@, depth as nat),
    decreases depth, 1nat,
{
    match read_statement(text) {
        Some((form, part)) => match form {
            StatementForm::Local => match part {
                Some(value) => Statement::Local(Some(lower_expr(value.as_str(), depth))),
                None => Statement::Local(None),
            },
            StatementForm::Declaration => Statement::Declaration,
            StatementForm::Expression => match part {
                Some(expr) => Statement::Expression(lower_expr(expr.as_str(), depth)),
                None => Statement::Macro,
            },
            StatementForm::Macro => Statement::Macro,
        },
        None => Statement::Macro,
    }
}

/// See `lowered_statements`.
fn lower_stmts(parts: &Vec<String>, depth: usize) -> (r: Vec<Statement>)
    ensures
        statement_views(r@) == lowered_statements(texts(parts@), depth as nat),
    decreases depth, 2nat,
{
    let ghost all = lowered_statements(texts(parts@), depth as nat);
    let mut out: Vec<Statement> = Vec::new();
    let mut i: usize = 0;
    assert(statement_views(out@) =~= all.take(0));
    while i < parts.len()
        invariant
            i <= parts@.len(),
            all == lowered_statements(texts(parts@), depth as nat),
            statement_views(out@) == all.take(i as int),
        decreases parts.len() - i,
    {
        let ghost before = statement_views(out@);
        let s = lower_stmt(parts[i].as_str(), depth);
        out.push(s);
        i += 1;
        assert(statement_views(out@) =~= before.push(s@));
        assert(all.take(i as int) =~= all.take(i as int - 1).push(all[i as int - 1]));
    }
    assert(all.take(all.len() as int) =~= all);
    out
}

/// See `shown_access`.
pub fn access_for(form: VisibilityForm, ident: Option<String>, tokens: String) -> (r: Access)
    ensures
        r@ == shown_access(form, opt_view(ident), tokens@),
{
    match form {
        VisibilityForm::Public => Access::Public,
        VisibilityForm::Inherited => Access::Inherited,
        VisibilityForm::Restricted => {
            let to_crate = match ident {
                Some(name) => name == "crate".to_string(),
                None => false,
            };
            if to_crate {
                Access::Crate
            } else {
                let mut shown = tokens;
                shown.append(" . path");
                Access::Restricted(shown)
            }
        },
    }
}

/// See `lowered_visibility`.
fn lower_visibility(item: &str) -> (r: Access)
    ensures
        r@ == lowered_visibility(item@),
{
    match read_item_visibility(item) {
        Some(vis) => match read_visibility_form(vis.as_str()) {
            Some(form) => access_for(form, read_restricted_ident(vis.as_str()), vis),
            None => Access::Inherited,
        },
        None => Access::Inherited,
    }
}

/// See `declared`.
pub fn declare(
    kind: ItemKind,
    name: Option<String>,
    vis: Access,
    generics: Vec<String>,
    function: Option<FunctionParts>,
) -> (r: Declaration)
    ensures
        r@ == declared(kind, opt_view(name), vis@, texts(generics@), opt_parts(function)),
{
    match name {
        None => Declaration::Other,
        Some(name) => match kind {
            ItemKind::Function => match function {
                Some(f) => Declaration::Function(
                    FunctionDecl {
                        name,
                        is_async: f.is_async,
                        params: f.params,
                        output: f.output,
                        vis,
                        generics,
                        body: f.body,
                    },
                ),
                None => Declaration::Other,
            },
            ItemKind::Struct => Declaration::Struct(TypeDecl { name, vis, generics }),
            ItemKind::Enum => Declaration::Enum(TypeDecl { name, vis, generics }),
            ItemKind::Trait => Declaration::Trait(TypeDecl { name, vis, generics }),
            ItemKind::Other => Declaration::Other,
        },
    }
}

/// See `lowered_function`.
fn lower_function(item: &str) -> (r: Option<FunctionParts>)
    ensures
        opt_parts(r) == lowered_function(item@),
{
    match read_fn_signature(item) {
        Some((is_async, params, output)) => match read_fn_body(item) {
            Some(body) => Some(
                FunctionParts {
                    is_async,
                    params,
                    output,
                    body: lower_stmts(&body, NESTING_LIMIT),
                },
            ),
            None => None,
        },
        None => None,
    }
}

/// See `lowered_item`.
fn lower_item(item: &str) -> (r: Declaration)
    ensures
        r@ == lowered_item(item@),
{
    let kind = match read_item_kind(item) {
        Some(kind) => kind,
        None => ItemKind::Other,
    };
    let generics = match read_item_generics(item) {
        Some(generics) => generics,
        None => Vec::new(),
    };
    proof {
        if item_generics_of(item@) is None {
            assert(texts(generics@) =~= Seq::<Seq<char>>::empty());
        }
    }
    declare(kind, read_item_name(item), lower_visibility(item), generics, lower_function(item))
}

/// The items at the top level of `text`, or why it could not be parsed.
/// See `lowered`.
pub(crate) fn parse_items(text: &str) -> (r: Result<Vec<Declaration>, ParseError>)
    ensures
        match r {
            Ok(items) => lowered(text@) == Some(declaration_views(items@)),
            Err(_) => lowered(text@) is None,
        },
{
    match read_items(text) {
        Err(error) => Err(ParseError { message: error_message(&error) }),
        Ok(items) => {
            let ghost all = lowered(text@)->0;
            let mut out: Vec<Declaration> = Vec::new();
            let mut i: usize = 0;
            assert(declaration_views(out@) =~= all.take(0));
            while i < items.len()
                invariant
                    i <= items@.len(),
                    source_items(text@) == Some(texts(items@)),
                    all == lowered(text@)->0,
                    declaration_views(out@) == all.take(i as int),
                decreases items.len() - i,
            {
                let ghost before = declaration_views(out@);
                let d = lower_item(items[i].as_str());
                out.push(d);
                i += 1;
                assert(declaration_views(out@) =~= before.push(d@));
                assert(all.take(i as int) =~= all.take(i as int - 1).push(all[i as int - 1]));
            }
            assert(all.take(all.len() as int) =~= all);
            Ok(out)
        },
    }
}

} // verus!
