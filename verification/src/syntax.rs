use vstd::prelude::*;
use crate::diagnostics::Span;
use crate::units::Unit;

verus! {

/// A dot-separated name as written in the source.
pub struct QualifiedNameNode {
    pub members: Vec<String>,
    pub span: Span,
}

/// A type as written in the source: a qualified name, an inline object type,
/// or an array of a type.
pub enum TypeNodeKind {
    Qualified(QualifiedNameNode),
    Object(ObjectTypeNode),
    Array(Box<TypeNode>),
}

pub struct TypeNode {
    pub kind: TypeNodeKind,
    pub span: Span,
}

/// An inline object type: named members with their types.
pub struct ObjectTypeNode {
    pub members: Vec<ObjectTypeMemberNode>,
}

pub struct ObjectTypeMemberNode {
    pub name: String,
    pub ty: TypeNode,
}

/// The target of a two-way binding: a property, optionally on a named
/// element, and an optional initialization expression.
pub struct TwoWayBindingNode {
    pub elem_id: Option<String>,
    pub prop_name: String,
    pub init: Option<Box<ExprNode>>,
    pub span: Span,
}

/// An expression as written in the source, before resolution.
pub enum ExprNode {
    /// A number in fixed-point millionths with its written unit.
    Number(i128, Unit, Span),
    Str(String, Span),
    Bool(bool, Span),
    Binary { op: char, lhs: Box<ExprNode>, rhs: Box<ExprNode>, op_span: Span },
    TwoWay(TwoWayBindingNode),
}

/// `name: expr;` on an element.
pub struct BindingNode {
    pub name: String,
    pub name_span: Span,
    pub expr: ExprNode,
}

/// `name <=> target;` on an element.
pub struct TwoWayBindingNamedNode {
    pub name: String,
    pub name_span: Span,
    pub target: TwoWayBindingNode,
}

/// `property<T> name;`, with optional initial binding or two-way target; the
/// type is absent for two-way bindings whose type is inferred.
pub struct PropertyDeclNode {
    pub type_node: Option<TypeNode>,
    pub name: String,
    pub name_span: Span,
    pub binding: Option<ExprNode>,
    pub two_way: Option<TwoWayBindingNode>,
}

/// `callback name(args) -> ret;`, or a two-way-bound callback.
pub struct CallbackDeclNode {
    pub name: String,
    pub name_span: Span,
    pub args: Vec<TypeNode>,
    pub return_type: Option<Box<TypeNode>>,
    pub two_way: Option<TwoWayBindingNode>,
}

/// `name(args) => { handler }` on an element.
pub struct CallbackConnectionNode {
    pub name: String,
    pub name_span: Span,
    pub arg_names: Vec<String>,
    pub handler: ExprNode,
}

/// `animate prop { bindings }`.
pub struct PropertyAnimationNode {
    pub targets: Vec<QualifiedNameNode>,
    pub bindings: Vec<BindingNode>,
    /// True when written with a star, animating every property.
    pub catch_all: bool,
    pub span: Span,
}

/// One property change inside a state.
pub struct StatePropertyChangeNode {
    pub target: QualifiedNameNode,
    pub expr: ExprNode,
    pub span: Span,
}

/// `state id when condition: { changes }`.
pub struct StateNode {
    pub id: String,
    pub condition: Option<ExprNode>,
    pub changes: Vec<StatePropertyChangeNode>,
    pub span: Span,
}

/// `transition in/out id: { animations }`.
pub struct TransitionNode {
    pub is_out: bool,
    pub state_id: String,
    pub animations: Vec<PropertyAnimationNode>,
    /// True when written with a star.
    pub catch_all: bool,
    pub span: Span,
}

/// `id := Element { ... }` as a child.
pub struct SubElementNode {
    pub id: String,
    pub id_span: Span,
    pub element: ElementNode,
}

/// `for data[index] in model: sub`.
pub struct RepeatedElementNode {
    pub model: ExprNode,
    pub model_data_id: Option<String>,
    pub index_id: Option<String>,
    pub sub: SubElementNode,
}

/// `if condition: sub`.
pub struct ConditionalElementNode {
    pub condition: ExprNode,
    pub sub: SubElementNode,
}

/// One entry in an element's body.
pub enum ChildNode {
    Sub(SubElementNode),
    Repeated(RepeatedElementNode),
    Conditional(ConditionalElementNode),
    Placeholder(Span),
}

/// One element of the source tree.
pub struct ElementNode {
    /// The base type name; absent for a global component's body.
    pub base: Option<QualifiedNameNode>,
    pub span: Span,
    pub property_declarations: Vec<PropertyDeclNode>,
    pub bindings: Vec<BindingNode>,
    pub two_way_bindings: Vec<TwoWayBindingNamedNode>,
    pub callback_declarations: Vec<CallbackDeclNode>,
    pub callback_connections: Vec<CallbackConnectionNode>,
    pub property_animations: Vec<PropertyAnimationNode>,
    pub children: Vec<ChildNode>,
    pub states: Vec<StateNode>,
    pub transitions: Vec<TransitionNode>,
}

/// `Name := Element { ... }` at document level.
pub struct ComponentNode {
    pub id: String,
    pub id_span: Span,
    pub element: ElementNode,
}

/// `struct Name := { members }` at document level.
pub struct StructDeclNode {
    pub name: String,
    pub name_span: Span,
    pub object: ObjectTypeNode,
    pub object_span: Span,
}

/// `export Name;` or `export Name as Other;`.
pub struct ExportSpecifierNode {
    pub internal_name: String,
    pub exported_name: Option<String>,
    pub span: Span,
}

pub enum ExportItemNode {
    Specifier(ExportSpecifierNode),
    Component(ComponentNode),
    StructDecl(StructDeclNode),
}

pub enum DocumentItemNode {
    Component(ComponentNode),
    StructDecl(StructDeclNode),
    ExportsList(Vec<ExportItemNode>),
}

/// A whole parsed source file.
pub struct DocumentNode {
    pub items: Vec<DocumentItemNode>,
    pub span: Span,
}

/// A file pulled in by an import statement, to be registered as a custom
/// font when it is a font file.
pub struct ImportedTypes {
    pub file: String,
    pub import_span: Span,
}

/// The payload an uncompiled expression carries until the resolution passes
/// run.
pub enum SyntaxNode {
    BindingExpression(Box<ExprNode>),
    TwoWayBinding(TwoWayBindingNode),
    CallbackConnection(Box<CallbackConnectionNode>),
}

} // verus!
