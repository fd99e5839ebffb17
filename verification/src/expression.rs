use vstd::prelude::*;
use vstd::pervasive::VecAdditionalExecFns;
use crate::diagnostics::{SourceLocation, Span};
use crate::langtype::{
    layout_info_type, spec_layout_info_type, spec_ty_of_unit, type_view, EnumerationValue, Type,
    TypeV,
};
use crate::namedreference::NamedReference;
use crate::syntax::SyntaxNode;
use crate::units::Unit;

verus! {

broadcast use vstd::seq::group_seq_axioms;

/// A function built into the run-time.
#[derive(Clone, Copy, PartialEq, Eq, Structural)]
pub enum BuiltinFunction {
    GetWindowScaleFactor,
    Debug,
    Mod,
    Round,
    Ceil,
    Floor,
    Abs,
    Sqrt,
    Cos,
    Sin,
    Tan,
    ACos,
    ASin,
    ATan,
    SetFocusItem,
    ShowPopupWindow,
    StringToFloat,
    StringIsFloat,
    ColorBrighter,
    ColorDarker,
    ImageSize,
    Rgb,
    ImplicitLayoutInfo(Orientation),
    RegisterCustomFontByPath,
    RegisterCustomFontByMemory,
}

/// A builtin that the compiler itself expands before code generation.
#[derive(Clone, Copy, PartialEq, Eq, Structural)]
pub enum BuiltinMacroFunction {
    Min,
    Max,
    CubicBezier,
    Rgb,
    Debug,
}

/// The two axes a layout works along.
#[derive(Clone, Copy, PartialEq, Eq, Structural)]
pub enum Orientation {
    Horizontal,
    Vertical,
}

/// The kind of a binary operator.
#[derive(Clone, Copy, PartialEq, Eq, Structural, Debug)]
pub enum OperatorClass {
    ComparisonOp,
    LogicalOp,
    ArithmeticOp,
}

/// Whether a character is one of the binary operators of the language.
pub open spec fn spec_is_binary_op(op: char) -> bool {
    op == '=' || op == '!' || op == '<' || op == '>' || op == '\u{2264}' || op == '\u{2265}'
        || op == '&' || op == '|' || op == '+' || op == '-' || op == '/' || op == '*'
}

/// The class of a binary operator.
pub open spec fn spec_operator_class(op: char) -> OperatorClass {
    if op == '=' || op == '!' || op == '<' || op == '>' || op == '\u{2264}' || op
        == '\u{2265}' {
        OperatorClass::ComparisonOp
    } else if op == '&' || op == '|' {
        OperatorClass::LogicalOp
    } else {
        OperatorClass::ArithmeticOp
    }
}

/// The class of a binary operation character.
pub fn operator_class(op: char) -> (r: OperatorClass)
    requires
        spec_is_binary_op(op),
    ensures
        r == spec_operator_class(op),
{
    if op == '=' || op == '!' || op == '<' || op == '>' || op == '\u{2264}' || op
        == '\u{2265}' {
        OperatorClass::ComparisonOp
    } else if op == '&' || op == '|' {
        OperatorClass::LogicalOp
    } else {
        OperatorClass::ArithmeticOp
    }
}

/// An easing curve for animations. The control points of a cubic curve are
/// fixed-point values counted in millionths.
#[derive(Clone, Copy, PartialEq, Eq, Structural)]
pub enum EasingCurve {
    Linear,
    CubicBezier(i128, i128, i128, i128),
}

impl Default for EasingCurve {
    fn default() -> (r: Self)
        ensures
            r == EasingCurve::Linear,
    {
        EasingCurve::Linear
    }
}

/// How an image is referenced: not at all, by path on disk, or by an index
/// into the embedded resources of the enclosing component.
pub enum ImageReference {
    NoImage,
    AbsolutePath(String),
    EmbeddedData(usize),
}

/// One segment of a path description: the element kind index refers to a
/// builtin path-element class, and the bindings give its properties.
pub struct PathElement {
    pub element_type: usize,
    pub bindings: Vec<(String, BindingExpression)>,
}

/// One already-processed path event with fixed-point coordinates.
#[derive(Clone, Copy, PartialEq, Eq, Structural)]
pub struct PathEvent {
    pub kind: u8,
    pub x: i128,
    pub y: i128,
}

/// A path is either a list of declared elements or a list of processed
/// events.
pub enum Path {
    Elements(Vec<PathElement>),
    Events(Vec<PathEvent>),
}

/// The recursive expression algebra: every computation a binding can express.
pub enum Expression {
    /// Something went wrong; an error has been reported.
    Invalid,
    /// Not yet looked up; must not survive the resolution passes.
    Uncompiled(SyntaxNode),
    /// A two-way-binding alias: what it is aliased to, and the optional
    /// initialization expression.
    TwoWayBinding(NamedReference, Option<Box<Expression>>),
    StringLiteral(String),
    /// A number in fixed-point millionths, with its unit.
    NumberLiteral(i128, Unit),
    BoolLiteral(bool),
    /// Reference to a callback on an element.
    CallbackReference(NamedReference),
    /// Reference to a property on an element.
    PropertyReference(NamedReference),
    BuiltinFunctionReference(BuiltinFunction, Option<SourceLocation>),
    /// Exists only briefly while `item.f()` becomes a plain call.
    MemberFunction { base: Box<Expression>, base_span: Option<Span>, member: Box<Expression> },
    BuiltinMacroReference(BuiltinMacroFunction, Option<Span>),
    /// Reference to an element of the tree by its index.
    ElementReference(usize),
    /// The index variable of the repeater stored at the element index.
    RepeaterIndexReference { element: usize },
    /// The model variable of the repeater stored at the element index.
    RepeaterModelReference { element: usize },
    FunctionParameterReference { index: usize, ty: Type },
    StoreLocalVariable { name: String, value: Box<Expression> },
    ReadLocalVariable { name: String, ty: Type },
    StructFieldAccess { base: Box<Expression>, name: String },
    Cast { from: Box<Expression>, to: Type },
    CodeBlock(Vec<Expression>),
    FunctionCall {
        function: Box<Expression>,
        arguments: Vec<Expression>,
        source_location: Option<SourceLocation>,
    },
    /// `lhs op= rhs`; with `op` equal to `=` a plain assignment.
    SelfAssignment { lhs: Box<Expression>, rhs: Box<Expression>, op: char },
    BinaryExpression { lhs: Box<Expression>, rhs: Box<Expression>, op: char },
    UnaryOp { sub: Box<Expression>, op: char },
    ImageReference(ImageReference),
    Condition {
        condition: Box<Expression>,
        true_expr: Box<Expression>,
        false_expr: Box<Expression>,
    },
    Array { element_ty: Type, values: Vec<Expression> },
    Struct { ty: Type, values: Vec<(String, Expression)> },
    PathElements { elements: Path },
    EasingCurve(EasingCurve),
    LinearGradient { angle: Box<Expression>, stops: Vec<(Expression, Expression)> },
    EnumerationValue(EnumerationValue),
    ReturnStatement(Option<Box<Expression>>),
    LayoutCacheAccess {
        layout_cache_prop: NamedReference,
        index: usize,
        repeater_index: Option<Box<Expression>>,
    },
    /// Compute the layout information of the layout stored at the given
    /// index, for the given orientation of the cache.
    ComputeLayoutInfo(usize, Orientation),
    SolveLayout(usize, Orientation),
}

impl Default for Expression {
    fn default() -> (r: Self)
        ensures
            r is Invalid,
    {
        Expression::Invalid
    }
}

/// The expression stored for one binding of an element.
pub struct BindingExpression {
    pub expression: Expression,
    /// The location of this binding in the source code.
    pub span: Option<SourceLocation>,
    /// How deep in the hierarchy the binding was declared. When two bindings
    /// conflict, the lower priority wins; zero marks bindings that passes
    /// created.
    pub priority: i32,
    /// The binding analysis, filled in once computed.
    pub analysis: Option<BindingAnalysis>,
}

impl BindingExpression {
    /// Wrap a not-yet-compiled syntax node, keeping its location; an explicit
    /// source binding starts at priority one.
    pub fn new_uncompiled(node: SyntaxNode, span: Span) -> (r: Self)
        ensures
            r.expression == Expression::Uncompiled(node),
            r.span == Some(span),
            r.priority == 1,
            r.analysis is None,
    {
        BindingExpression {
            expression: Expression::Uncompiled(node),
            span: Some(span),
            priority: 1,
            analysis: Option::None,
        }
    }

    /// Wrap a compiled expression with a known source location.
    pub fn new_with_span(expression: Expression, span: Span) -> (r: Self)
        ensures
            r.expression == expression,
            r.span == Some(span),
            r.priority == 0,
            r.analysis is None,
    {
        BindingExpression { expression, span: Some(span), priority: 0, analysis: Option::None }
    }

    /// Wrap a compiled expression that no source location belongs to.
    pub fn from_expression(expression: Expression) -> (r: Self)
        ensures
            r.expression == expression,
            r.span is None,
            r.priority == 0,
            r.analysis is None,
    {
        BindingExpression { expression, span: Option::None, priority: 0, analysis: Option::None }
    }
}

/// What the binding analysis pass records per binding.
#[derive(Clone, Copy, PartialEq, Eq, Structural)]
pub struct BindingAnalysis {
    /// True when the binding is part of an already-reported binding loop.
    pub is_in_binding_loop: bool,
    /// True when the binding is a constant value that needs no run-time
    /// binding.
    pub is_const: bool,
}

/// The signature of a builtin function.
pub open spec fn spec_builtin_fn_ty(f: BuiltinFunction) -> TypeV {
    match f {
        BuiltinFunction::GetWindowScaleFactor => TypeV::Function {
            return_type: Box::new(TypeV::UnitProduct(seq![(Unit::Phx, 1i32), (Unit::Px, -1i32)])),
            args: Seq::empty(),
        },
        BuiltinFunction::Debug => TypeV::Function {
            return_type: Box::new(TypeV::Void),
            args: seq![TypeV::Str],
        },
        BuiltinFunction::Mod => TypeV::Function {
            return_type: Box::new(TypeV::Int32),
            args: seq![TypeV::Int32, TypeV::Int32],
        },
        BuiltinFunction::Round | BuiltinFunction::Ceil | BuiltinFunction::Floor => {
            TypeV::Function { return_type: Box::new(TypeV::Int32), args: seq![TypeV::Float32] }
        }
        BuiltinFunction::Sqrt | BuiltinFunction::Abs => TypeV::Function {
            return_type: Box::new(TypeV::Float32),
            args: seq![TypeV::Float32],
        },
        BuiltinFunction::Cos | BuiltinFunction::Sin | BuiltinFunction::Tan => TypeV::Function {
            return_type: Box::new(TypeV::Float32),
            args: seq![TypeV::Angle],
        },
        BuiltinFunction::ACos | BuiltinFunction::ASin | BuiltinFunction::ATan => TypeV::Function {
            return_type: Box::new(TypeV::Angle),
            args: seq![TypeV::Float32],
        },
        BuiltinFunction::SetFocusItem => TypeV::Function {
            return_type: Box::new(TypeV::Void),
            args: seq![TypeV::ElementReference],
        },
        BuiltinFunction::ShowPopupWindow => TypeV::Function {
            return_type: Box::new(TypeV::Void),
            args: seq![TypeV::ElementReference],
        },
        BuiltinFunction::StringToFloat => TypeV::Function {
            return_type: Box::new(TypeV::Float32),
            args: seq![TypeV::Str],
        },
        BuiltinFunction::StringIsFloat => TypeV::Function {
            return_type: Box::new(TypeV::Bool),
            args: seq![TypeV::Str],
        },
        BuiltinFunction::ImplicitLayoutInfo(_) => TypeV::Function {
            return_type: Box::new(spec_layout_info_type()),
            args: seq![TypeV::ElementReference],
        },
        BuiltinFunction::ColorBrighter | BuiltinFunction::ColorDarker => TypeV::Function {
            return_type: Box::new(TypeV::Color),
            args: seq![TypeV::Color, TypeV::Float32],
        },
        BuiltinFunction::ImageSize => TypeV::Function {
            return_type: Box::new(spec_size_struct_type()),
            args: seq![TypeV::Image],
        },
        BuiltinFunction::Rgb => TypeV::Function {
            return_type: Box::new(TypeV::Color),
            args: seq![TypeV::Int32, TypeV::Int32, TypeV::Int32, TypeV::Float32],
        },
        BuiltinFunction::RegisterCustomFontByPath => TypeV::Function {
            return_type: Box::new(TypeV::Void),
            args: seq![TypeV::Str],
        },
        BuiltinFunction::RegisterCustomFontByMemory => TypeV::Function {
            return_type: Box::new(TypeV::Void),
            args: seq![TypeV::Int32],
        },
    }
}

/// The struct type of an image's size: integer width and height.
pub open spec fn spec_size_struct_type() -> TypeV {
    TypeV::Struct {
        fields: seq![("width"@, TypeV::Int32), ("height"@, TypeV::Int32)],
        name: Some("Size"@),
    }
}

/// Build the size struct type.
pub fn size_struct_type() -> (r: Type)
    ensures
        r@ == spec_size_struct_type(),
{
    let mut fields: Vec<crate::langtype::StructField> = Vec::new();
    fields.push(crate::langtype::StructField {
        name: String::from_str("width"),
        ty: Type::Int32,
    });
    fields.push(crate::langtype::StructField {
        name: String::from_str("height"),
        ty: Type::Int32,
    });
    let r = Type::Struct { fields, name: Some(String::from_str("Size")) };
    proof {
        broadcast use crate::langtype::group_type_view_lemmas;

        assert(crate::langtype::fields_view(fields@).len() == 2);
        assert(crate::langtype::fields_view(fields@)[0] == ("width"@, TypeV::Int32));
        assert(crate::langtype::fields_view(fields@)[1] == ("height"@, TypeV::Int32));
        assert(crate::langtype::fields_view(fields@) =~= seq![
            ("width"@, TypeV::Int32),
            ("height"@, TypeV::Int32),
        ]);
    }
    r
}

impl BuiltinFunction {
    /// The function type of this builtin.
    pub fn ty(&self) -> (r: Type)
        ensures
            r@ == spec_builtin_fn_ty(*self),
    {
        broadcast use crate::langtype::group_type_view_lemmas;

        match self {
            BuiltinFunction::GetWindowScaleFactor => {
                let mut units: Vec<(Unit, i32)> = Vec::new();
                units.push((Unit::Phx, 1));
                units.push((Unit::Px, -1));
                proof {
                    assert(units@ =~= seq![(Unit::Phx, 1i32), (Unit::Px, -1i32)]);
                }
                let args: Vec<Type> = Vec::new();
                let r = Type::Function {
                    return_type: Box::new(Type::UnitProduct(units)),
                    args,
                };
                proof {
                    assert(crate::langtype::types_view(args@) =~= Seq::<TypeV>::empty());
                    assert(crate::langtype::type_view(Type::UnitProduct(units))
                        == TypeV::UnitProduct(units@));
                }
                r
            }
            BuiltinFunction::Debug => make_fn_ty1(Type::Void, Type::Str),
            BuiltinFunction::Mod => make_fn_ty2(Type::Int32, Type::Int32, Type::Int32),
            BuiltinFunction::Round => make_fn_ty1(Type::Int32, Type::Float32),
            BuiltinFunction::Ceil => make_fn_ty1(Type::Int32, Type::Float32),
            BuiltinFunction::Floor => make_fn_ty1(Type::Int32, Type::Float32),
            BuiltinFunction::Sqrt => make_fn_ty1(Type::Float32, Type::Float32),
            BuiltinFunction::Abs => make_fn_ty1(Type::Float32, Type::Float32),
            BuiltinFunction::Cos => make_fn_ty1(Type::Float32, Type::Angle),
            BuiltinFunction::Sin => make_fn_ty1(Type::Float32, Type::Angle),
            BuiltinFunction::Tan => make_fn_ty1(Type::Float32, Type::Angle),
            BuiltinFunction::ACos => make_fn_ty1(Type::Angle, Type::Float32),
            BuiltinFunction::ASin => make_fn_ty1(Type::Angle, Type::Float32),
            BuiltinFunction::ATan => make_fn_ty1(Type::Angle, Type::Float32),
            BuiltinFunction::SetFocusItem => make_fn_ty1(Type::Void, Type::ElementReference),
            BuiltinFunction::ShowPopupWindow => make_fn_ty1(Type::Void, Type::ElementReference),
            BuiltinFunction::StringToFloat => make_fn_ty1(Type::Float32, Type::Str),
            BuiltinFunction::StringIsFloat => make_fn_ty1(Type::Bool, Type::Str),
            BuiltinFunction::ImplicitLayoutInfo(_) => make_fn_ty1(
                layout_info_type(),
                Type::ElementReference,
            ),
            BuiltinFunction::ColorBrighter => make_fn_ty2(Type::Color, Type::Color, Type::Float32),
            BuiltinFunction::ColorDarker => make_fn_ty2(Type::Color, Type::Color, Type::Float32),
            BuiltinFunction::ImageSize => make_fn_ty1(size_struct_type(), Type::Image),
            BuiltinFunction::Rgb => {
                let mut args: Vec<Type> = Vec::new();
                args.push(Type::Int32);
                args.push(Type::Int32);
                args.push(Type::Int32);
                args.push(Type::Float32);
                let r = Type::Function { return_type: Box::new(Type::Color), args };
                proof {
                    assert(crate::langtype::types_view(args@) =~= seq![
                        TypeV::Int32,
                        TypeV::Int32,
                        TypeV::Int32,
                        TypeV::Float32,
                    ]);
                }
                r
            }
            BuiltinFunction::RegisterCustomFontByPath => make_fn_ty1(Type::Void, Type::Str),
            BuiltinFunction::RegisterCustomFontByMemory => make_fn_ty1(Type::Void, Type::Int32),
        }
    }

    /// Whether the return value depends on the arguments alone, with no side
    /// effect. The debug builtin counts as pure because it is optimized away.
    pub fn is_pure(&self) -> (r: bool)
        ensures
            r == spec_builtin_fn_pure(*self),
    {
        match self {
            BuiltinFunction::GetWindowScaleFactor => false,
            BuiltinFunction::Debug => true,
            BuiltinFunction::Mod
            | BuiltinFunction::Round
            | BuiltinFunction::Ceil
            | BuiltinFunction::Floor
            | BuiltinFunction::Abs
            | BuiltinFunction::Sqrt
            | BuiltinFunction::Cos
            | BuiltinFunction::Sin
            | BuiltinFunction::Tan
            | BuiltinFunction::ACos
            | BuiltinFunction::ASin
            | BuiltinFunction::ATan => true,
            BuiltinFunction::SetFocusItem => false,
            BuiltinFunction::ShowPopupWindow => false,
            BuiltinFunction::StringToFloat | BuiltinFunction::StringIsFloat => true,
            BuiltinFunction::ColorBrighter | BuiltinFunction::ColorDarker => true,
            BuiltinFunction::ImageSize => true,
            BuiltinFunction::Rgb => true,
            BuiltinFunction::ImplicitLayoutInfo(_) => false,
            BuiltinFunction::RegisterCustomFontByPath
            | BuiltinFunction::RegisterCustomFontByMemory => false,
        }
    }
}

/// Whether a builtin function is pure.
pub open spec fn spec_builtin_fn_pure(f: BuiltinFunction) -> bool {
    match f {
        BuiltinFunction::GetWindowScaleFactor => false,
        BuiltinFunction::Debug => true,
        BuiltinFunction::Mod
        | BuiltinFunction::Round
        | BuiltinFunction::Ceil
        | BuiltinFunction::Floor
        | BuiltinFunction::Abs
        | BuiltinFunction::Sqrt
        | BuiltinFunction::Cos
        | BuiltinFunction::Sin
        | BuiltinFunction::Tan
        | BuiltinFunction::ACos
        | BuiltinFunction::ASin
        | BuiltinFunction::ATan => true,
        BuiltinFunction::SetFocusItem => false,
        BuiltinFunction::ShowPopupWindow => false,
        BuiltinFunction::StringToFloat | BuiltinFunction::StringIsFloat => true,
        BuiltinFunction::ColorBrighter | BuiltinFunction::ColorDarker => true,
        BuiltinFunction::ImageSize => true,
        BuiltinFunction::Rgb => true,
        BuiltinFunction::ImplicitLayoutInfo(_) => false,
        BuiltinFunction::RegisterCustomFontByPath
        | BuiltinFunction::RegisterCustomFontByMemory => false,
    }
}

/// A function type with one argument.
fn make_fn_ty1(ret: Type, arg: Type) -> (r: Type)
    ensures
        r@ == (TypeV::Function {
            return_type: Box::new(ret@),
            args: seq![arg@],
        }),
{
    broadcast use crate::langtype::group_type_view_lemmas;

    let mut args: Vec<Type> = Vec::new();
    let ghost argv = arg@;
    args.push(arg);
    let r = Type::Function { return_type: Box::new(ret), args };
    proof {
        assert(crate::langtype::types_view(args@) =~= seq![argv]);
    }
    r
}

/// A function type with two arguments.
fn make_fn_ty2(ret: Type, arg1: Type, arg2: Type) -> (r: Type)
    ensures
        r@ == (TypeV::Function {
            return_type: Box::new(ret@),
            args: seq![arg1@, arg2@],
        }),
{
    broadcast use crate::langtype::group_type_view_lemmas;

    let mut args: Vec<Type> = Vec::new();
    let ghost a1 = arg1@;
    let ghost a2 = arg2@;
    args.push(arg1);
    args.push(arg2);
    let r = Type::Function { return_type: Box::new(ret), args };
    proof {
        assert(crate::langtype::types_view(args@) =~= seq![a1, a2]);
    }
    r
}


/// The unit-product vector a type contributes to multiplicative arithmetic:
/// its unit vector when it is numeric, the empty product otherwise.
pub open spec fn spec_unit_vec(v: TypeV) -> Seq<(Unit, i32)> {
    match crate::langtype::spec_as_unit_product(v) {
        Some(s) => s,
        Option::None => Seq::empty(),
    }
}

/// The canonical combination of two unit-product vectors: the unique
/// canonical vector whose exponents are the saturated sums. It exists
/// whenever the combination has been computed.
pub open spec fn spec_canonical_combined(
    l: Seq<(Unit, i32)>,
    r: Seq<(Unit, i32)>,
    divide: bool,
) -> Seq<(Unit, i32)> {
    choose|s: Seq<(Unit, i32)>|
        crate::langtype::is_canonical_unit_vec(s) && (forall|u: Unit|
            crate::langtype::unit_exp(s, u) == crate::langtype::sat_i32(
                crate::langtype::combined_exp(l, r, divide, u),
            ))
}

/// The type a canonical unit vector denotes: a plain number for the empty
/// product, the unit's scalar type for a single first power, the derived
/// unit otherwise.
pub open spec fn spec_unit_vec_ty(s: Seq<(Unit, i32)>) -> TypeV {
    if s.len() == 0 {
        TypeV::Float32
    } else if s.len() == 1 && s[0].1 == 1i32 {
        spec_ty_of_unit(s[0].0)
    } else {
        TypeV::UnitProduct(s)
    }
}

/// The type of the property or callback a named reference points at.
pub open spec fn spec_nr_ty(
    nr: NamedReference,
    tree: crate::object_tree::ObjectTree,
) -> TypeV {
    crate::object_tree::spec_lookup_property(tree, nr.element as int, nr.name@).1
}

/// The type of an expression. The fuel bounds how many repeater-model
/// indirections may be followed; a cycle of such indirections yields
/// `Invalid`.
pub open spec fn spec_ty(
    e: Expression,
    tree: crate::object_tree::ObjectTree,
    fuel: nat,
) -> TypeV
    decreases fuel, e,
{
    match e {
        Expression::Invalid => TypeV::Invalid,
        Expression::Uncompiled(_) => TypeV::Invalid,
        Expression::StringLiteral(_) => TypeV::Str,
        Expression::NumberLiteral(_, unit) => spec_ty_of_unit(unit),
        Expression::BoolLiteral(_) => TypeV::Bool,
        Expression::TwoWayBinding(nr, _) => spec_nr_ty(nr, tree),
        Expression::CallbackReference(nr) => spec_nr_ty(nr, tree),
        Expression::PropertyReference(nr) => spec_nr_ty(nr, tree),
        Expression::BuiltinFunctionReference(f, _) => spec_builtin_fn_ty(f),
        Expression::MemberFunction { member, .. } => spec_ty(*member, tree, fuel),
        Expression::BuiltinMacroReference(_, _) => TypeV::Invalid,
        Expression::ElementReference(_) => TypeV::ElementReference,
        Expression::RepeaterIndexReference { .. } => TypeV::Int32,
        Expression::RepeaterModelReference { element } => {
            if fuel == 0 || !(element < tree.elements@.len()) {
                TypeV::Invalid
            } else {
                match tree.elements@[element as int].repeated {
                    Some(rei) => match rei.model {
                        Expression::Cast { from, .. } => {
                            match spec_ty(*from, tree, (fuel - 1) as nat) {
                                TypeV::Float32 => TypeV::Int32,
                                TypeV::Int32 => TypeV::Int32,
                                TypeV::Array(elem) => *elem,
                                _ => TypeV::Invalid,
                            }
                        }
                        _ => TypeV::Invalid,
                    },
                    Option::None => TypeV::Invalid,
                }
            }
        }
        Expression::FunctionParameterReference { ty, .. } => ty@,
        Expression::StoreLocalVariable { .. } => TypeV::Void,
        Expression::ReadLocalVariable { ty, .. } => ty@,
        Expression::StructFieldAccess { base, name } => {
            match spec_ty(*base, tree, fuel) {
                TypeV::Struct { fields, .. } => crate::langtype::spec_field_ty(fields, name@),
                TypeV::Component(c) => {
                    if 0 <= c < tree.components@.len() {
                        crate::object_tree::spec_lookup_property(
                            tree,
                            tree.components@[c].root_element as int,
                            name@,
                        ).1
                    } else {
                        TypeV::Invalid
                    }
                }
                _ => TypeV::Invalid,
            }
        }
        Expression::Cast { to, .. } => to@,
        Expression::CodeBlock(sub) => {
            if sub@.len() == 0 {
                TypeV::Void
            } else {
                spec_ty(sub@[sub@.len() - 1], tree, fuel)
            }
        }
        Expression::FunctionCall { function, .. } => {
            match spec_ty(*function, tree, fuel) {
                TypeV::Function { return_type, .. } => *return_type,
                TypeV::Callback { return_type, .. } => match return_type {
                    Some(t) => *t,
                    Option::None => TypeV::Void,
                },
                _ => TypeV::Invalid,
            }
        }
        Expression::SelfAssignment { .. } => TypeV::Void,
        Expression::ImageReference(_) => TypeV::Image,
        Expression::Condition { true_expr, false_expr, .. } => {
            let tt = spec_ty(*true_expr, tree, fuel);
            let ft = spec_ty(*false_expr, tree, fuel);
            if tt == ft {
                tt
            } else {
                TypeV::Invalid
            }
        }
        Expression::BinaryExpression { op, lhs, rhs } => {
            if spec_operator_class(op) != OperatorClass::ArithmeticOp {
                TypeV::Bool
            } else if op == '+' || op == '-' {
                let lt = spec_ty(*lhs, tree, fuel);
                let rt = spec_ty(*rhs, tree, fuel);
                if lt == rt {
                    rt
                } else {
                    TypeV::Invalid
                }
            } else {
                let lv = spec_unit_vec(spec_ty(*lhs, tree, fuel));
                let rv = spec_unit_vec(spec_ty(*rhs, tree, fuel));
                spec_unit_vec_ty(spec_canonical_combined(lv, rv, op == '/'))
            }
        }
        Expression::UnaryOp { sub, .. } => spec_ty(*sub, tree, fuel),
        Expression::Array { element_ty, .. } => TypeV::Array(Box::new(element_ty@)),
        Expression::Struct { ty, .. } => ty@,
        Expression::PathElements { .. } => TypeV::PathElements,
        Expression::EasingCurve(_) => TypeV::Easing,
        Expression::LinearGradient { .. } => TypeV::Brush,
        Expression::EnumerationValue(v) => TypeV::Enumeration(v.enumeration@),
        Expression::ReturnStatement(_) => TypeV::Invalid,
        Expression::LayoutCacheAccess { .. } => TypeV::LogicalLength,
        Expression::ComputeLayoutInfo(_, _) => spec_layout_info_type(),
        Expression::SolveLayout(_, _) => TypeV::LayoutCache,
    }
}

impl Expression {
    /// The type this expression computes, following repeater-model
    /// indirections at most as often as the tree has elements.
    pub fn ty(&self, tree: &crate::object_tree::ObjectTree) -> (r: Type)
        requires
            crate::object_tree::tree_wf(*tree),
        ensures
            r@ == spec_ty(*self, *tree, tree.elements@.len() as nat),
    {
        let fuel = tree.elements.len();
        self.ty_fuel(tree, fuel)
    }

    /// Type inference with an explicit indirection budget.
    pub fn ty_fuel(&self, tree: &crate::object_tree::ObjectTree, fuel: usize) -> (r: Type)
        requires
            crate::object_tree::tree_wf(*tree),
        ensures
            r@ == spec_ty(*self, *tree, fuel as nat),
        decreases fuel as nat, *self,
    {
        broadcast use crate::langtype::group_type_view_lemmas;

        match self {
            Expression::Invalid => Type::Invalid,
            Expression::Uncompiled(_) => Type::Invalid,
            Expression::StringLiteral(_) => Type::Str,
            Expression::NumberLiteral(_, unit) => unit.ty(),
            Expression::BoolLiteral(_) => Type::Bool,
            Expression::TwoWayBinding(nr, _) => nr_ty(nr, tree),
            Expression::CallbackReference(nr) => nr_ty(nr, tree),
            Expression::PropertyReference(nr) => nr_ty(nr, tree),
            Expression::BuiltinFunctionReference(f, _) => f.ty(),
            Expression::MemberFunction { member, .. } => member.ty_fuel(tree, fuel),
            Expression::BuiltinMacroReference(_, _) => Type::Invalid,
            Expression::ElementReference(_) => Type::ElementReference,
            Expression::RepeaterIndexReference { .. } => Type::Int32,
            Expression::RepeaterModelReference { element } => {
                if fuel == 0 || !(*element < tree.elements.len()) {
                    Type::Invalid
                } else {
                    match &tree.elements[*element].repeated {
                        Some(rei) => match &rei.model {
                            Expression::Cast { from, .. } => {
                                let t = from.ty_fuel(tree, fuel - 1);
                                match t {
                                    Type::Float32 => Type::Int32,
                                    Type::Int32 => Type::Int32,
                                    Type::Array(elem) => *elem,
                                    _ => Type::Invalid,
                                }
                            }
                            _ => Type::Invalid,
                        },
                        Option::None => Type::Invalid,
                    }
                }
            }
            Expression::FunctionParameterReference { ty, .. } => crate::langtype::clone_type(ty),
            Expression::StoreLocalVariable { .. } => Type::Void,
            Expression::ReadLocalVariable { ty, .. } => crate::langtype::clone_type(ty),
            Expression::StructFieldAccess { base, name } => {
                let base_ty = base.ty_fuel(tree, fuel);
                match base_ty {
                    Type::Struct { fields, .. } => crate::langtype::field_ty(
                        &fields,
                        name.as_str(),
                    ),
                    Type::Component(c) => {
                        if c < tree.components.len() {
                            let root = tree.components[c].root_element;
                            let r = tree.lookup_property(root, name.as_str());
                            r.property_type
                        } else {
                            Type::Invalid
                        }
                    }
                    _ => Type::Invalid,
                }
            }
            Expression::Cast { to, .. } => crate::langtype::clone_type(to),
            Expression::CodeBlock(sub) => {
                if sub.len() == 0 {
                    Type::Void
                } else {
                    proof {
                        assert(decreases_to!(*sub => sub@[sub@.len() - 1]));
                    }
                    let last = sub.len() - 1;
                    sub[last].ty_fuel(tree, fuel)
                }
            }
            Expression::FunctionCall { function, .. } => {
                let fty = function.ty_fuel(tree, fuel);
                match fty {
                    Type::Function { return_type, .. } => *return_type,
                    Type::Callback { return_type, .. } => match return_type {
                        Some(t) => *t,
                        Option::None => Type::Void,
                    },
                    _ => Type::Invalid,
                }
            }
            Expression::SelfAssignment { .. } => Type::Void,
            Expression::ImageReference(_) => Type::Image,
            Expression::Condition { true_expr, false_expr, .. } => {
                let tt = true_expr.ty_fuel(tree, fuel);
                let ft = false_expr.ty_fuel(tree, fuel);
                if crate::langtype::type_eq(&tt, &ft) {
                    tt
                } else {
                    Type::Invalid
                }
            }
            Expression::BinaryExpression { op, lhs, rhs } => {
                let cls = if *op == '=' || *op == '!' || *op == '<' || *op == '>' || *op
                    == '\u{2264}' || *op == '\u{2265}' {
                    OperatorClass::ComparisonOp
                } else if *op == '&' || *op == '|' {
                    OperatorClass::LogicalOp
                } else {
                    OperatorClass::ArithmeticOp
                };
                if !matches!(cls, OperatorClass::ArithmeticOp) {
                    Type::Bool
                } else if *op == '+' || *op == '-' {
                    let lt = lhs.ty_fuel(tree, fuel);
                    let rt = rhs.ty_fuel(tree, fuel);
                    if crate::langtype::type_eq(&lt, &rt) {
                        rt
                    } else {
                        Type::Invalid
                    }
                } else {
                    let lt = lhs.ty_fuel(tree, fuel);
                    let rt = rhs.ty_fuel(tree, fuel);
                    let lv = match lt.as_unit_product() {
                        Some(v) => v,
                        Option::None => Vec::new(),
                    };
                    let rv = match rt.as_unit_product() {
                        Some(v) => v,
                        Option::None => Vec::new(),
                    };
                    proof {
                        if crate::langtype::spec_as_unit_product(
                            spec_ty(**lhs, *tree, fuel as nat),
                        ) is None {
                            assert(lv@ =~= Seq::<(Unit, i32)>::empty());
                        }
                        if crate::langtype::spec_as_unit_product(
                            spec_ty(**rhs, *tree, fuel as nat),
                        ) is None {
                            assert(rv@ =~= Seq::<(Unit, i32)>::empty());
                        }
                        assert(lv@ == spec_unit_vec(spec_ty(**lhs, *tree, fuel as nat)));
                        assert(rv@ == spec_unit_vec(spec_ty(**rhs, *tree, fuel as nat)));
                    }
                    let divide = *op == '/';
                    let comb = crate::langtype::multiply_unit_products(&lv, &rv, divide);
                    proof {
                        let picked = spec_canonical_combined(lv@, rv@, divide);
                        assert(crate::langtype::is_canonical_unit_vec(comb@) && (forall|u: Unit|
                            crate::langtype::unit_exp(comb@, u) == crate::langtype::sat_i32(
                                crate::langtype::combined_exp(lv@, rv@, divide, u),
                            )));
                        assert(crate::langtype::is_canonical_unit_vec(picked) && (forall|
                            u: Unit,
                        |
                            crate::langtype::unit_exp(picked, u) == crate::langtype::sat_i32(
                                crate::langtype::combined_exp(lv@, rv@, divide, u),
                            )));
                        crate::langtype::lemma_canonical_unit_vec_unique(comb@, picked);
                        assert(comb@ == picked);
                    }
                    if comb.len() == 0 {
                        Type::Float32
                    } else {
                        let first = comb[0];
                        if comb.len() == 1 && first.1 == 1 {
                            first.0.ty()
                        } else {
                            Type::UnitProduct(comb)
                        }
                    }
                }
            }
            Expression::UnaryOp { sub, .. } => sub.ty_fuel(tree, fuel),
            Expression::Array { element_ty, .. } => {
                let r = Type::Array(Box::new(crate::langtype::clone_type(element_ty)));
                proof {
                    assert(r@ =~= TypeV::Array(Box::new(element_ty@)));
                }
                r
            }
            Expression::Struct { ty, .. } => crate::langtype::clone_type(ty),
            Expression::PathElements { .. } => Type::PathElements,
            Expression::EasingCurve(_) => Type::Easing,
            Expression::LinearGradient { .. } => Type::Brush,
            Expression::EnumerationValue(v) => {
                let r = Type::Enumeration(crate::langtype::clone_enumeration(&v.enumeration));
                proof {
                    assert(r@ =~= TypeV::Enumeration(v.enumeration@));
                }
                r
            }
            Expression::ReturnStatement(_) => Type::Invalid,
            Expression::LayoutCacheAccess { .. } => Type::LogicalLength,
            Expression::ComputeLayoutInfo(_, _) => layout_info_type(),
            Expression::SolveLayout(_, _) => Type::LayoutCache,
        }
    }
}

/// The type of the property a named reference points at.
fn nr_ty(nr: &NamedReference, tree: &crate::object_tree::ObjectTree) -> (r: Type)
    requires
        crate::object_tree::tree_wf(*tree),
    ensures
        r@ == spec_nr_ty(*nr, *tree),
{
    if nr.element < tree.elements.len() {
        let res = tree.lookup_property(nr.element, nr.name.as_str());
        res.property_type
    } else {
        Type::Invalid
    }
}


/// The type of the default value generated for a type: the type itself for
/// value types, `Float32` for plain numbers, `Invalid` where no value can
/// stand in.
pub open spec fn spec_default_value_ty(v: TypeV) -> TypeV {
    match v {
        TypeV::Float32 => TypeV::Float32,
        TypeV::Int32 => TypeV::Float32,
        TypeV::Str => TypeV::Str,
        TypeV::Color => TypeV::Color,
        TypeV::Duration => TypeV::Duration,
        TypeV::Angle => TypeV::Angle,
        TypeV::PhysicalLength => TypeV::PhysicalLength,
        TypeV::LogicalLength => TypeV::LogicalLength,
        TypeV::Percent => TypeV::Percent,
        TypeV::Image => TypeV::Image,
        TypeV::Bool => TypeV::Bool,
        TypeV::PathElements => TypeV::PathElements,
        TypeV::Array(e) => TypeV::Array(e),
        TypeV::Struct { fields, name } => TypeV::Struct { fields, name },
        TypeV::Easing => TypeV::Easing,
        TypeV::Brush => TypeV::Brush,
        TypeV::Enumeration(e) => TypeV::Enumeration(e),
        TypeV::UnitProduct(s) => TypeV::UnitProduct(s),
        _ => TypeV::Invalid,
    }
}

/// Exactly the default value generated for a type: zero literals for
/// numbers, the empty string, false, the zero cast for colors, brushes and
/// derived units, one hundred percent, the empty image path, the empty
/// collection, the linear curve, the enumeration's default, every struct
/// field defaulted recursively, and the invalid expression for types without
/// values.
pub open spec fn spec_is_default_value(t: Type, e: Expression) -> bool
    decreases t,
{
    match t {
        Type::Float32 => e == Expression::NumberLiteral(0i128, Unit::Unitless),
        Type::Int32 => e == Expression::NumberLiteral(0i128, Unit::Unitless),
        Type::Str => e matches Expression::StringLiteral(s) && s@ == Seq::<char>::empty(),
        Type::Color => e matches Expression::Cast { from, to } && *from
            == Expression::NumberLiteral(0i128, Unit::Unitless) && to is Color,
        Type::Duration => e == Expression::NumberLiteral(0i128, Unit::Ms),
        Type::Angle => e == Expression::NumberLiteral(0i128, Unit::Deg),
        Type::PhysicalLength => e == Expression::NumberLiteral(0i128, Unit::Phx),
        Type::LogicalLength => e == Expression::NumberLiteral(0i128, Unit::Px),
        Type::Percent => e == Expression::NumberLiteral(100000000i128, Unit::Percent),
        Type::Image => e matches Expression::ImageReference(
            ImageReference::AbsolutePath(p),
        ) && p@ == Seq::<char>::empty(),
        Type::Bool => e == Expression::BoolLiteral(false),
        Type::PathElements => e matches Expression::PathElements {
            elements: Path::Elements(v),
        } && v@.len() == 0,
        Type::Array(et) => e matches Expression::Array { element_ty, values } && element_ty@
            == et@ && values@.len() == 0,
        Type::Struct { fields, .. } => e matches Expression::Struct { ty: rt, values } && rt@
            == t@ && values@.len() == fields@.len() && (forall|i: int|
            0 <= i < fields@.len() ==> (#[trigger] values@[i]).0@ == fields@[i].name@
                && spec_is_default_value(fields@[i].ty, values@[i].1)),
        Type::Easing => e == Expression::EasingCurve(EasingCurve::Linear),
        Type::Brush => e matches Expression::Cast { from, to } && to is Brush && (*from matches
            Expression::Cast { from: from2, to: to2 } && *from2 == Expression::NumberLiteral(
            0i128,
            Unit::Unitless,
        ) && to2 is Color),
        Type::Enumeration(en) => e matches Expression::EnumerationValue(v) && v.enumeration@
            == en@ && v.value as int == (if en.default_value < en.values@.len() {
            en.default_value as int
        } else {
            0int
        }),
        Type::UnitProduct(_) => e matches Expression::Cast { from, to } && *from
            == Expression::NumberLiteral(0i128, Unit::Unitless) && to@ == t@,
        _ => e is Invalid,
    }
}

impl Expression {
    /// The default value for a type: zero for numbers, the empty string, an
    /// empty collection, the first enumeration value, and so on; `Invalid`
    /// for types that have no values.
    pub fn default_value_for_type(ty: &Type) -> (r: Expression)
        ensures
            spec_is_default_value(*ty, r),
            forall|tree: crate::object_tree::ObjectTree, fuel: nat|
                #[trigger] spec_ty(r, tree, fuel) == spec_default_value_ty(ty@),
        decreases *ty,
    {
        broadcast use crate::langtype::group_type_view_lemmas;

        match ty {
            Type::Float32 => Expression::NumberLiteral(0, Unit::Unitless),
            Type::Int32 => Expression::NumberLiteral(0, Unit::Unitless),
            Type::Str => Expression::StringLiteral(String::new()),
            Type::Color => Expression::Cast {
                from: Box::new(Expression::NumberLiteral(0, Unit::Unitless)),
                to: Type::Color,
            },
            Type::Duration => Expression::NumberLiteral(0, Unit::Ms),
            Type::Angle => Expression::NumberLiteral(0, Unit::Deg),
            Type::PhysicalLength => Expression::NumberLiteral(0, Unit::Phx),
            Type::LogicalLength => Expression::NumberLiteral(0, Unit::Px),
            Type::Percent => Expression::NumberLiteral(100000000, Unit::Percent),
            Type::Image => Expression::ImageReference(ImageReference::AbsolutePath(String::new())),
            Type::Bool => Expression::BoolLiteral(false),
            Type::PathElements => {
                let v: Vec<PathElement> = Vec::new();
                let r = Expression::PathElements { elements: Path::Elements(v) };
                r
            }
            Type::Array(element_ty) => {
                let r = Expression::Array {
                    element_ty: crate::langtype::clone_type(element_ty),
                    values: Vec::new(),
                };
                proof {
                    assert forall|tree: crate::object_tree::ObjectTree, fuel: nat| true
                        implies #[trigger] spec_ty(r, tree, fuel) == spec_default_value_ty(
                        ty@,
                    ) by {
                        assert(spec_ty(r, tree, fuel) =~= TypeV::Array(Box::new(element_ty@)));
                    }
                }
                r
            }
            Type::Struct { fields, name } => {
                let mut values: Vec<(String, Expression)> = Vec::new();
                let mut i: usize = 0;
                while i < fields.len()
                    invariant
                        0 <= i <= fields@.len(),
                        *ty matches Type::Struct { fields: fa, .. } && fa == *fields,
                        values@.len() == i,
                        forall|k: int|
                            0 <= k < i ==> (#[trigger] values@[k]).0@ == fields@[k].name@
                                && spec_is_default_value(fields@[k].ty, values@[k].1),
                    decreases fields@.len() - i,
                {
                    proof {
                        assert(decreases_to!(*fields => fields@[i as int]));
                        assert(decreases_to!(fields@[i as int] => fields@[i as int].ty));
                    }
                    let v = Expression::default_value_for_type(&fields[i].ty);
                    values.push((fields[i].name.clone(), v));
                    i = i + 1;
                }
                let r = Expression::Struct { ty: crate::langtype::clone_type(ty), values };
                r
            }
            Type::Easing => Expression::EasingCurve(EasingCurve::Linear),
            Type::Brush => Expression::Cast {
                from: Box::new(Expression::Cast {
                    from: Box::new(Expression::NumberLiteral(0, Unit::Unitless)),
                    to: Type::Color,
                }),
                to: Type::Brush,
            },
            Type::Enumeration(e) => {
                let en = crate::langtype::clone_enumeration(e);
                proof {
                    assert(en@.values.len() == en.values@.len());
                    assert(e@.values.len() == e.values@.len());
                    assert(en.values@.len() == e.values@.len());
                }
                let val = if en.default_value < en.values.len() {
                    en.default_value
                } else {
                    0
                };
                let r = Expression::EnumerationValue(EnumerationValue {
                    value: val,
                    enumeration: en,
                });
                proof {
                    assert(en.default_value == e.default_value) by {
                        assert(en@.default_value == e@.default_value);
                    }
                }
                r
            }
            Type::UnitProduct(_) => Expression::Cast {
                from: Box::new(Expression::NumberLiteral(0, Unit::Unitless)),
                to: crate::langtype::clone_type(ty),
            },
            _ => Expression::Invalid,
        }
    }
}


/// Whether the array-literal special case applies: an array literal whose
/// element type converts (or is still invalid) may convert elementwise.
pub open spec fn spec_array_literal_case(e: Expression, sv: TypeV, tv: TypeV) -> bool {
    e is Array && (match (sv, tv) {
        (TypeV::Array(a), TypeV::Array(b)) => crate::langtype::spec_can_convert(*a, *b) || *a
            == TypeV::Invalid,
        _ => false,
    })
}

/// Whether the zero-literal special case applies: the literal `0` converts
/// to any dimensioned type without a diagnostic.
pub open spec fn spec_zero_literal_case(e: Expression, sv: TypeV, tv: TypeV) -> bool {
    (sv == TypeV::Int32 || sv == TypeV::Float32) && crate::langtype::spec_default_unit(tv)
        is Some && (e matches Expression::NumberLiteral(v, u) && v == 0 && u == Unit::Unitless)
}

/// A dimensioned type is the type of its default unit.
proof fn lemma_default_unit_ty(tv: TypeV)
    requires
        crate::langtype::spec_default_unit(tv) is Some,
    ensures
        spec_ty_of_unit(crate::langtype::spec_default_unit(tv)->Some_0) == tv,
{
}

impl Expression {
    /// Wrap this expression in a conversion to the target type where one is
    /// needed and possible. When the types already agree, or the target
    /// accepts anything, the expression is returned unchanged. When the
    /// conversion is possible the result's type is exactly the target type.
    /// Otherwise a single error diagnostic is pushed at the given span and
    /// the expression is returned unchanged.
    /// Create a conversion node if needed, or report when the types do not
    /// match. The depth budget for component-typed targets is one step per
    /// component in the store.
    pub fn maybe_convert_to(
        self,
        target_type: &Type,
        tree: &crate::object_tree::ObjectTree,
        node_span: Span,
        diag: &mut crate::diagnostics::BuildDiagnostics,
    ) -> (r: Expression)
        requires
            crate::object_tree::tree_wf(*tree),
        ensures
            ({
                let fuel = tree.elements@.len() as nat;
                let sv = spec_ty(self, *tree, fuel);
                let tv = target_type@;
                let unchanged_case = sv == tv || tv == TypeV::Void || tv == TypeV::Invalid
                    || sv == TypeV::Invalid;
                &&& old(diag).diags@.len() <= final(diag).diags@.len()
                &&& (forall|i: int|
                    0 <= i < old(diag).diags@.len() ==> final(diag).diags@[i] == old(
                        diag,
                    ).diags@[i])
                &&& unchanged_case ==> r == self && final(diag).diags@ == old(diag).diags@
                &&& (!unchanged_case && crate::langtype::spec_can_convert(sv, tv)) ==> spec_ty(
                    r,
                    *tree,
                    fuel,
                ) == tv
                &&& (!unchanged_case && crate::langtype::spec_can_convert(sv, tv) && !(sv
                    is Struct && (tv is Struct || tv is Component))) ==> final(diag).diags@
                    == old(diag).diags@
                &&& (!unchanged_case && crate::langtype::spec_can_convert(sv, tv) && sv
                    is Struct) ==> (self matches Expression::Struct { values: sv0, .. } ==> (
                *target_type matches Type::Struct { fields: tfs, .. } ==> (r matches
                Expression::Struct { values: rv, .. } && rv@.len() == tfs@.len() && (forall|
                    f: int,
                |
                    0 <= f < tfs@.len() ==> (#[trigger] rv@[f]).0@ == tfs@[f].name@) && (forall|
                    f: int,
                |
                    0 <= f < tfs@.len() && !spec_values_has(sv0@, tfs@[f].name@)
                        ==> spec_is_default_value(tfs@[f].ty, rv@[f].1)))))
                &&& (!unchanged_case && !crate::langtype::spec_can_convert(sv, tv)
                    && spec_array_literal_case(self, sv, tv)) ==> spec_ty(r, *tree, fuel) == tv
                &&& (!unchanged_case && !crate::langtype::spec_can_convert(sv, tv)
                    && !spec_array_literal_case(self, sv, tv) && spec_zero_literal_case(
                    self,
                    sv,
                    tv,
                )) ==> (r matches Expression::NumberLiteral(v, u) && v == 0 && Some(u)
                    == crate::langtype::spec_default_unit(tv))
                    && final(diag).diags@ == old(diag).diags@
                &&& (!unchanged_case && !crate::langtype::spec_can_convert(sv, tv)
                    && !spec_array_literal_case(self, sv, tv) && !spec_zero_literal_case(
                    self,
                    sv,
                    tv,
                )) ==> r == self && final(diag).diags@.len() == old(diag).diags@.len() + 1
                    && final(diag).diags@.last().level
                    == crate::diagnostics::DiagnosticLevel::Error
                    && final(diag).diags@.last().span == node_span
                    && final(diag).diags@.last().message@
                    == "Cannot convert to the target type"@
            }),
    {
        let fuel = tree.components.len();
        self.convert_with_fuel(target_type, tree, node_span, diag, fuel)
    }

    fn convert_with_fuel(
        self,
        target_type: &Type,
        tree: &crate::object_tree::ObjectTree,
        node_span: Span,
        diag: &mut crate::diagnostics::BuildDiagnostics,
        fuel: usize,
    ) -> (r: Expression)
        requires
            crate::object_tree::tree_wf(*tree),
        ensures
            ({
                let fuel = tree.elements@.len() as nat;
                let sv = spec_ty(self, *tree, fuel);
                let tv = target_type@;
                let unchanged_case = sv == tv || tv == TypeV::Void || tv == TypeV::Invalid
                    || sv == TypeV::Invalid;
                &&& old(diag).diags@.len() <= final(diag).diags@.len()
                &&& (forall|i: int|
                    0 <= i < old(diag).diags@.len() ==> final(diag).diags@[i] == old(
                        diag,
                    ).diags@[i])
                &&& unchanged_case ==> r == self && final(diag).diags@ == old(diag).diags@
                &&& (!unchanged_case && crate::langtype::spec_can_convert(sv, tv)) ==> spec_ty(
                    r,
                    *tree,
                    fuel,
                ) == tv
                &&& (!unchanged_case && crate::langtype::spec_can_convert(sv, tv) && !(sv
                    is Struct && (tv is Struct || tv is Component))) ==> final(diag).diags@
                    == old(diag).diags@
                &&& (!unchanged_case && crate::langtype::spec_can_convert(sv, tv) && sv
                    is Struct) ==> (self matches Expression::Struct { values: sv0, .. } ==> (
                *target_type matches Type::Struct { fields: tfs, .. } ==> (r matches
                Expression::Struct { values: rv, .. } && rv@.len() == tfs@.len() && (forall|
                    f: int,
                |
                    0 <= f < tfs@.len() ==> (#[trigger] rv@[f]).0@ == tfs@[f].name@) && (forall|
                    f: int,
                |
                    0 <= f < tfs@.len() && !spec_values_has(sv0@, tfs@[f].name@)
                        ==> spec_is_default_value(tfs@[f].ty, rv@[f].1)))))
                &&& (!unchanged_case && !crate::langtype::spec_can_convert(sv, tv)
                    && spec_array_literal_case(self, sv, tv)) ==> spec_ty(r, *tree, fuel) == tv
                &&& (!unchanged_case && !crate::langtype::spec_can_convert(sv, tv)
                    && !spec_array_literal_case(self, sv, tv) && spec_zero_literal_case(
                    self,
                    sv,
                    tv,
                )) ==> (r matches Expression::NumberLiteral(v, u) && v == 0 && Some(u)
                    == crate::langtype::spec_default_unit(tv))
                    && final(diag).diags@ == old(diag).diags@
                &&& (!unchanged_case && !crate::langtype::spec_can_convert(sv, tv)
                    && !spec_array_literal_case(self, sv, tv) && !spec_zero_literal_case(
                    self,
                    sv,
                    tv,
                )) ==> r == self && final(diag).diags@.len() == old(diag).diags@.len() + 1
                    && final(diag).diags@.last().level
                    == crate::diagnostics::DiagnosticLevel::Error
                    && final(diag).diags@.last().span == node_span
                    && final(diag).diags@.last().message@
                    == "Cannot convert to the target type"@
            }),
        decreases fuel, *target_type,
    {
        broadcast use crate::langtype::group_type_view_lemmas;

        let ghost fuel_g = tree.elements@.len() as nat;
        let self_ty = self.ty(tree);
        proof {
            crate::langtype::lemma_view_tag(*target_type);
            crate::langtype::lemma_view_tag(self_ty);
        }
        let same = crate::langtype::type_eq(&self_ty, target_type);
        let target_is_void = matches!(target_type, Type::Void);
        let target_is_invalid = matches!(target_type, Type::Invalid);
        let self_is_invalid = matches!(self_ty, Type::Invalid);
        if same || target_is_void || target_is_invalid || self_is_invalid {
            return self;
        }
        if self_ty.can_convert(target_type) {
            // A concrete conversion exists; every branch below yields an
            // expression whose type is the target type.
            match (&self_ty, target_type) {
                (Type::Percent, Type::Float32) => {
                    let from = Expression::BinaryExpression {
                        lhs: Box::new(self),
                        rhs: Box::new(Expression::NumberLiteral(10000, Unit::Unitless)),
                        op: '*',
                    };
                    Expression::Cast {
                        from: Box::new(from),
                        to: crate::langtype::clone_type(target_type),
                    }
                }
                (Type::Struct { .. }, Type::Component(c)) => {
                    // A struct value converts into a component by converting
                    // into the struct of the component root's declared
                    // properties; the depth budget stops cyclic component
                    // property types.
                    if *c < tree.components.len() && fuel > 0 {
                        let s_ty = struct_type_for_component(tree, *c);
                        let from = self.convert_with_fuel(
                            &s_ty,
                            tree,
                            node_span,
                            diag,
                            fuel - 1,
                        );
                        Expression::Cast {
                            from: Box::new(from),
                            to: crate::langtype::clone_type(target_type),
                        }
                    } else {
                        Expression::Cast {
                            from: Box::new(self),
                            to: crate::langtype::clone_type(target_type),
                        }
                    }
                }
                (Type::Struct { .. }, Type::Struct { fields: tfields, name: _ }) => {
                    match self {
                        Expression::Struct { values: mut self_values, .. } => {
                            // Rebuild the literal: matching fields convert,
                            // missing fields get their default value.
                            let ghost values0 = self_values@;
                            let mut new_values: Vec<(String, Expression)> = Vec::new();
                            let mut i: usize = 0;
                            while i < tfields.len()
                                invariant
                                    0 <= i <= tfields@.len(),
                                    crate::object_tree::tree_wf(*tree),
                                    *target_type matches Type::Struct { fields: fa, .. } && fa
                                        == *tfields,
                                    old(diag).diags@.len() <= diag.diags@.len(),
                                    forall|k: int|
                                        0 <= k < old(diag).diags@.len() ==> diag.diags@[k]
                                            == old(diag).diags@[k],
                                    new_values@.len() == i,
                                    forall|f: int|
                                        0 <= f < i ==> (#[trigger] new_values@[f]).0@
                                            == tfields@[f].name@,
                                    forall|f: int|
                                        0 <= f < i && !spec_values_has(
                                            values0,
                                            tfields@[f].name@,
                                        ) ==> spec_is_default_value(
                                            tfields@[f].ty,
                                            new_values@[f].1,
                                        ),
                                    forall|n2: Seq<char>|
                                        #[trigger] spec_values_has(self_values@, n2)
                                            ==> spec_values_has(values0, n2),
                                decreases tfields@.len() - i,
                            {
                                proof {
                                    assert(decreases_to!(*tfields => tfields@[i as int]));
                                    assert(decreases_to!(tfields@[i as int] => tfields@[
                                        i as int
                                    ].ty));
                                }
                                let fname = tfields[i].name.clone();
                                let found = take_struct_value(&mut self_values, fname.as_str());
                                let converted = match found {
                                    Some(e) => e.convert_with_fuel(
                                        &tfields[i].ty,
                                        tree,
                                        node_span,
                                        diag,
                                        fuel,
                                    ),
                                    Option::None => Expression::default_value_for_type(
                                        &tfields[i].ty,
                                    ),
                                };
                                new_values.push((fname, converted));
                                i = i + 1;
                            }
                            Expression::Struct {
                                ty: crate::langtype::clone_type(target_type),
                                values: new_values,
                            }
                        }
                        other => {
                            // Not a literal: bind the value to a local
                            // variable and copy field by field.
                            let mut new_values: Vec<(String, Expression)> = Vec::new();
                            let var_name = String::from_str("tmpobj");
                            let mut i: usize = 0;
                            while i < tfields.len()
                                invariant
                                    0 <= i <= tfields@.len(),
                                    crate::object_tree::tree_wf(*tree),
                                    *target_type matches Type::Struct { fields: fa, .. } && fa
                                        == *tfields,
                                    var_name@ == "tmpobj"@,
                                    old(diag).diags@.len() <= diag.diags@.len(),
                                    forall|k: int|
                                        0 <= k < old(diag).diags@.len() ==> diag.diags@[k]
                                            == old(diag).diags@[k],
                                decreases tfields@.len() - i,
                            {
                                proof {
                                    assert(decreases_to!(*tfields => tfields@[i as int]));
                                    assert(decreases_to!(tfields@[i as int] => tfields@[
                                        i as int
                                    ].ty));
                                }
                                let fname = tfields[i].name.clone();
                                let access = Expression::StructFieldAccess {
                                    base: Box::new(Expression::ReadLocalVariable {
                                        name: var_name.clone(),
                                        ty: crate::langtype::clone_type(&self_ty),
                                    }),
                                    name: fname.clone(),
                                };
                                let converted = access.convert_with_fuel(
                                    &tfields[i].ty,
                                    tree,
                                    node_span,
                                    diag,
                                    fuel,
                                );
                                new_values.push((fname, converted));
                                i = i + 1;
                            }
                            let mut block: Vec<Expression> = Vec::new();
                            block.push(Expression::StoreLocalVariable {
                                name: var_name,
                                value: Box::new(other),
                            });
                            block.push(Expression::Struct {
                                ty: crate::langtype::clone_type(target_type),
                                values: new_values,
                            });
                            let r = Expression::CodeBlock(block);
                            proof {
                                assert(block@.len() == 2);
                                assert(spec_ty(r, *tree, fuel_g) == spec_ty(
                                    block@[1],
                                    *tree,
                                    fuel_g,
                                ));
                            }
                            r
                        }
                    }
                }
                _ => {
                    // A numeric conversion between dimensions that differ
                    // only in physical rather than logical pixels: multiply
                    // or divide by the window scale factor once per power.
                    let pa = self_ty.as_unit_product();
                    let pb = target_type.as_unit_product();
                    let from = match (pa, pb) {
                        (Some(va), Some(vb)) => {
                            let conv = crate::langtype::unit_product_length_conversion(
                                &va,
                                &vb,
                            );
                            match conv {
                                Some(power) => {
                                    let op = if power < 0 {
                                        '*'
                                    } else {
                                        '/'
                                    };
                                    let mut result = self;
                                    let mut remaining: i128 = if power < 0 {
                                        -power
                                    } else {
                                        power
                                    };
                                    while remaining > 0
                                        invariant
                                            remaining >= 0,
                                        decreases remaining,
                                    {
                                        result = Expression::BinaryExpression {
                                            lhs: Box::new(result),
                                            rhs: Box::new(Expression::FunctionCall {
                                                function: Box::new(
                                                    Expression::BuiltinFunctionReference(
                                                        BuiltinFunction::GetWindowScaleFactor,
                                                        Some(node_span),
                                                    ),
                                                ),
                                                arguments: Vec::new(),
                                                source_location: Some(node_span),
                                            }),
                                            op,
                                        };
                                        remaining = remaining - 1;
                                    }
                                    result
                                }
                                Option::None => self,
                            }
                        }
                        _ => self,
                    };
                    Expression::Cast {
                        from: Box::new(from),
                        to: crate::langtype::clone_type(target_type),
                    }
                }
            }
        } else {
            // No implicit conversion; two special cases remain before the
            // error is reported.
            let array_case = match (&self_ty, target_type, &self) {
                (Type::Array(a), Type::Array(b), Expression::Array { .. }) => {
                    let elem_ok = a.can_convert(b);
                    let elem_invalid = matches!(**a, Type::Invalid);
                    elem_ok || elem_invalid
                }
                _ => false,
            };
            if array_case {
                match (self, target_type) {
                    (Expression::Array { values, .. }, Type::Array(target_elem)) => {
                        let mut new_values: Vec<Expression> = Vec::new();
                        let mut values = values;
                        let n = values.len();
                        let mut i: usize = 0;
                        while i < n
                            invariant
                                crate::object_tree::tree_wf(*tree),
                                0 <= i <= n,
                                n == values@.len(),
                                *target_type matches Type::Array(te) && te == *target_elem,
                                old(diag).diags@.len() <= diag.diags@.len(),
                                forall|k: int|
                                    0 <= k < old(diag).diags@.len() ==> diag.diags@[k] == old(
                                        diag,
                                    ).diags@[k],
                            decreases n - i,
                        {
                            let e = take_expression(&mut values, i);
                            proof {
                                assert(decreases_to!(*target_type => **target_elem));
                            }
                            let converted = e.convert_with_fuel(
                                target_elem,
                                tree,
                                node_span,
                                diag,
                                fuel,
                            );
                            new_values.push(converted);
                            i = i + 1;
                        }
                        let elem_owned = crate::langtype::clone_type(target_elem);
                        let r = Expression::Array { element_ty: elem_owned, values: new_values };
                        proof {
                            assert(spec_ty(r, *tree, fuel_g) =~= target_type@);
                        }
                        r
                    }
                    _ => {
                        proof {
                            assert(false);
                        }
                        Expression::Invalid
                    }
                }
            } else {
                let zero_case = {
                    let sv_numeric = matches!(self_ty, Type::Int32) || matches!(
                        self_ty,
                        Type::Float32,
                    );
                    let to_unit = target_type.default_unit();
                    let is_zero = matches!(&self, Expression::NumberLiteral(v, u) if *v == 0
                        && matches!(u, Unit::Unitless));
                    sv_numeric && to_unit.is_some() && is_zero
                };
                if zero_case {
                    let to_unit = match target_type.default_unit() {
                        Some(u) => u,
                        Option::None => Unit::Unitless,
                    };
                    proof {
                        lemma_default_unit_ty(target_type@);
                    }
                    Expression::NumberLiteral(0, to_unit)
                } else {
                    diag.push_error(
                        String::from_str("Cannot convert to the target type"),
                        node_span,
                    );
                    proof {
                        reveal_strlit("Cannot convert to the target type");
                    }
                    self
                }
            }
        }
    }
}

/// The struct type whose fields are the declared properties of a
/// component's root element, in declaration order.
fn struct_type_for_component(
    tree: &crate::object_tree::ObjectTree,
    c: usize,
) -> (r: Type)
    requires
        crate::object_tree::tree_wf(*tree),
        c < tree.components@.len(),
{
    let root = tree.components[c].root_element;
    let mut fields: Vec<crate::langtype::StructField> = Vec::new();
    let decls = &tree.elements[root].property_declarations;
    let mut i: usize = 0;
    while i < decls.len()
        invariant
            0 <= i <= decls@.len(),
        decreases decls@.len() - i,
    {
        fields.push(crate::langtype::StructField {
            name: decls[i].0.clone(),
            ty: crate::langtype::clone_type(&decls[i].1.property_type),
        });
        i = i + 1;
    }
    Type::Struct { fields, name: Option::None }
}

/// Whether a struct literal's value list holds a field of the given name.
pub open spec fn spec_values_has(values: Seq<(String, Expression)>, name: Seq<char>) -> bool {
    exists|j: int| 0 <= j < values.len() && (#[trigger] values[j]).0@ == name
}

/// Remove and return the value stored under a field name in a struct
/// literal's value list, if present.
fn take_struct_value(values: &mut Vec<(String, Expression)>, name: &str) -> (r: Option<
    Expression,
>)
    ensures
        r is None ==> *final(values) == *old(values) && !spec_values_has(
            old(values)@,
            name@,
        ),
        r is Some ==> spec_values_has(old(values)@, name@),
        forall|n2: Seq<char>|
            #[trigger] spec_values_has(final(values)@, n2) ==> spec_values_has(
                old(values)@,
                n2,
            ),
{
    let mut i: usize = 0;
    let n = values.len();
    while i < n
        invariant
            0 <= i <= n,
            n == values@.len(),
            *values == *old(values),
            forall|j: int| 0 <= j < i ==> (#[trigger] values@[j]).0@ != name@,
        decreases n - i,
    {
        if crate::units::str_eq(values[i].0.as_str(), name) {
            let pair = values.remove(i);
            proof {
                assert(spec_values_has(old(values)@, name@));
                assert forall|n2: Seq<char>|
                    #[trigger] spec_values_has(values@, n2) implies spec_values_has(
                    old(values)@,
                    n2,
                ) by {
                    let j = choose|j: int|
                        0 <= j < values@.len() && (#[trigger] values@[j]).0@ == n2;
                    if j < i {
                        assert(values@[j] == old(values)@[j]);
                    } else {
                        assert(values@[j] == old(values)@[j + 1]);
                    }
                }
            }
            return Some(pair.1);
        }
        i = i + 1;
    }
    Option::None
}

/// Swap the element at an index out of a vector, leaving an invalid
/// expression in its place.
fn take_expression(values: &mut Vec<Expression>, i: usize) -> (r: Expression)
    requires
        i < old(values)@.len(),
    ensures
        final(values)@.len() == old(values)@.len(),
        r == old(values)@[i as int],
{
    let mut tmp = Expression::Invalid;
    values.set_and_swap(i, &mut tmp);
    tmp
}




/// A discriminant for each expression constructor.
pub open spec fn tag_of_expression(e: Expression) -> int {
    match e {
        Expression::Invalid => 0,
        Expression::Uncompiled(_) => 1,
        Expression::TwoWayBinding(_, _) => 2,
        Expression::StringLiteral(_) => 3,
        Expression::NumberLiteral(_, _) => 4,
        Expression::BoolLiteral(_) => 5,
        Expression::CallbackReference(_) => 6,
        Expression::PropertyReference(_) => 7,
        Expression::BuiltinFunctionReference(_, _) => 8,
        Expression::MemberFunction { .. } => 9,
        Expression::BuiltinMacroReference(_, _) => 10,
        Expression::ElementReference(_) => 11,
        Expression::RepeaterIndexReference { .. } => 12,
        Expression::RepeaterModelReference { .. } => 13,
        Expression::FunctionParameterReference { .. } => 14,
        Expression::StoreLocalVariable { .. } => 15,
        Expression::ReadLocalVariable { .. } => 16,
        Expression::StructFieldAccess { .. } => 17,
        Expression::Cast { .. } => 18,
        Expression::CodeBlock(_) => 19,
        Expression::FunctionCall { .. } => 20,
        Expression::SelfAssignment { .. } => 21,
        Expression::BinaryExpression { .. } => 22,
        Expression::UnaryOp { .. } => 23,
        Expression::ImageReference(_) => 24,
        Expression::Condition { .. } => 25,
        Expression::Array { .. } => 26,
        Expression::Struct { .. } => 27,
        Expression::PathElements { .. } => 28,
        Expression::EasingCurve(_) => 29,
        Expression::LinearGradient { .. } => 30,
        Expression::EnumerationValue(_) => 31,
        Expression::ReturnStatement(_) => 32,
        Expression::LayoutCacheAccess { .. } => 33,
        Expression::ComputeLayoutInfo(_, _) => 34,
        Expression::SolveLayout(_, _) => 35,
    }
}

/// Structural deep copy of an expression tree, used where a template's
/// default binding is instantiated for a new element. A still-uncompiled
/// expression is not copied: the copy is the invalid expression, because the
/// template defaults this serves are always compiled.
pub fn clone_expression(e: &Expression) -> (r: Expression)
    ensures
        (*e) is Uncompiled ==> r is Invalid,
        !((*e) is Uncompiled) ==> tag_of_expression(r) == tag_of_expression(*e),
        (*e matches Expression::NumberLiteral(v, u) ==> r == Expression::NumberLiteral(v, u)),
        (*e matches Expression::BoolLiteral(b) ==> r == Expression::BoolLiteral(b)),
        (*e matches Expression::StringLiteral(st) ==> (r matches Expression::StringLiteral(s2)
            && s2@ == st@)),
    decreases *e,
{
    match e {
        Expression::Invalid => Expression::Invalid,
        Expression::Uncompiled(_) => Expression::Invalid,
        Expression::TwoWayBinding(nr, sub) => {
            let new_sub = match sub {
                Some(x) => Some(Box::new(clone_expression(x))),
                Option::None => Option::None,
            };
            Expression::TwoWayBinding(nr.duplicate(), new_sub)
        }
        Expression::StringLiteral(s) => Expression::StringLiteral(s.clone()),
        Expression::NumberLiteral(v, u) => Expression::NumberLiteral(*v, *u),
        Expression::BoolLiteral(b) => Expression::BoolLiteral(*b),
        Expression::CallbackReference(nr) => Expression::CallbackReference(nr.duplicate()),
        Expression::PropertyReference(nr) => Expression::PropertyReference(nr.duplicate()),
        Expression::BuiltinFunctionReference(f, sl) => Expression::BuiltinFunctionReference(
            *f,
            *sl,
        ),
        Expression::MemberFunction { base, base_span, member } => Expression::MemberFunction {
            base: Box::new(clone_expression(base)),
            base_span: *base_span,
            member: Box::new(clone_expression(member)),
        },
        Expression::BuiltinMacroReference(m, sp) => Expression::BuiltinMacroReference(*m, *sp),
        Expression::ElementReference(i) => Expression::ElementReference(*i),
        Expression::RepeaterIndexReference { element } => Expression::RepeaterIndexReference {
            element: *element,
        },
        Expression::RepeaterModelReference { element } => Expression::RepeaterModelReference {
            element: *element,
        },
        Expression::FunctionParameterReference { index, ty } => {
            Expression::FunctionParameterReference {
                index: *index,
                ty: crate::langtype::clone_type(ty),
            }
        }
        Expression::StoreLocalVariable { name, value } => Expression::StoreLocalVariable {
            name: name.clone(),
            value: Box::new(clone_expression(value)),
        },
        Expression::ReadLocalVariable { name, ty } => Expression::ReadLocalVariable {
            name: name.clone(),
            ty: crate::langtype::clone_type(ty),
        },
        Expression::StructFieldAccess { base, name } => Expression::StructFieldAccess {
            base: Box::new(clone_expression(base)),
            name: name.clone(),
        },
        Expression::Cast { from, to } => Expression::Cast {
            from: Box::new(clone_expression(from)),
            to: crate::langtype::clone_type(to),
        },
        Expression::CodeBlock(sub) => {
            let mut out: Vec<Expression> = Vec::new();
            let mut i: usize = 0;
            while i < sub.len()
                invariant
                    0 <= i <= sub@.len(),
                    *e matches Expression::CodeBlock(s2) && s2 == *sub,
                decreases sub@.len() - i,
            {
                proof {
                    assert(decreases_to!(*e => sub@[i as int]));
                }
                out.push(clone_expression(&sub[i]));
                i = i + 1;
            }
            Expression::CodeBlock(out)
        }
        Expression::FunctionCall { function, arguments, source_location } => {
            let mut out: Vec<Expression> = Vec::new();
            let mut i: usize = 0;
            while i < arguments.len()
                invariant
                    0 <= i <= arguments@.len(),
                    *e matches Expression::FunctionCall { arguments: a2, .. } && a2
                        == *arguments,
                decreases arguments@.len() - i,
            {
                proof {
                    assert(decreases_to!(*e => arguments@[i as int]));
                }
                out.push(clone_expression(&arguments[i]));
                i = i + 1;
            }
            Expression::FunctionCall {
                function: Box::new(clone_expression(function)),
                arguments: out,
                source_location: *source_location,
            }
        }
        Expression::SelfAssignment { lhs, rhs, op } => Expression::SelfAssignment {
            lhs: Box::new(clone_expression(lhs)),
            rhs: Box::new(clone_expression(rhs)),
            op: *op,
        },
        Expression::BinaryExpression { lhs, rhs, op } => Expression::BinaryExpression {
            lhs: Box::new(clone_expression(lhs)),
            rhs: Box::new(clone_expression(rhs)),
            op: *op,
        },
        Expression::UnaryOp { sub, op } => Expression::UnaryOp {
            sub: Box::new(clone_expression(sub)),
            op: *op,
        },
        Expression::ImageReference(ir) => Expression::ImageReference(
            match ir {
                ImageReference::NoImage => ImageReference::NoImage,
                ImageReference::AbsolutePath(p) => ImageReference::AbsolutePath(p.clone()),
                ImageReference::EmbeddedData(d) => ImageReference::EmbeddedData(*d),
            },
        ),
        Expression::Condition { condition, true_expr, false_expr } => Expression::Condition {
            condition: Box::new(clone_expression(condition)),
            true_expr: Box::new(clone_expression(true_expr)),
            false_expr: Box::new(clone_expression(false_expr)),
        },
        Expression::Array { element_ty, values } => {
            let mut out: Vec<Expression> = Vec::new();
            let mut i: usize = 0;
            while i < values.len()
                invariant
                    0 <= i <= values@.len(),
                    *e matches Expression::Array { values: v2, .. } && v2 == *values,
                decreases values@.len() - i,
            {
                proof {
                    assert(decreases_to!(*e => values@[i as int]));
                }
                out.push(clone_expression(&values[i]));
                i = i + 1;
            }
            Expression::Array {
                element_ty: crate::langtype::clone_type(element_ty),
                values: out,
            }
        }
        Expression::Struct { ty, values } => {
            let mut out: Vec<(String, Expression)> = Vec::new();
            let mut i: usize = 0;
            while i < values.len()
                invariant
                    0 <= i <= values@.len(),
                    *e matches Expression::Struct { values: v2, .. } && v2 == *values,
                decreases values@.len() - i,
            {
                proof {
                    assert(decreases_to!(*e => values@[i as int]));
                    assert(decreases_to!(values@[i as int] => values@[i as int].1));
                }
                out.push((values[i].0.clone(), clone_expression(&values[i].1)));
                i = i + 1;
            }
            Expression::Struct { ty: crate::langtype::clone_type(ty), values: out }
        }
        Expression::PathElements { .. } => Expression::PathElements {
            elements: Path::Elements(Vec::new()),
        },
        Expression::EasingCurve(c) => Expression::EasingCurve(*c),
        Expression::LinearGradient { angle, stops } => {
            let mut out: Vec<(Expression, Expression)> = Vec::new();
            let mut i: usize = 0;
            while i < stops.len()
                invariant
                    0 <= i <= stops@.len(),
                    *e matches Expression::LinearGradient { stops: s2, .. } && s2 == *stops,
                decreases stops@.len() - i,
            {
                proof {
                    assert(decreases_to!(*e => stops@[i as int]));
                    assert(decreases_to!(stops@[i as int] => stops@[i as int].0));
                    assert(decreases_to!(stops@[i as int] => stops@[i as int].1));
                }
                out.push((clone_expression(&stops[i].0), clone_expression(&stops[i].1)));
                i = i + 1;
            }
            Expression::LinearGradient { angle: Box::new(clone_expression(angle)), stops: out }
        }
        Expression::EnumerationValue(v) => Expression::EnumerationValue(EnumerationValue {
            value: v.value,
            enumeration: crate::langtype::clone_enumeration(&v.enumeration),
        }),
        Expression::ReturnStatement(sub) => Expression::ReturnStatement(
            match sub {
                Some(x) => Some(Box::new(clone_expression(x))),
                Option::None => Option::None,
            },
        ),
        Expression::LayoutCacheAccess { layout_cache_prop, index, repeater_index } => {
            Expression::LayoutCacheAccess {
                layout_cache_prop: layout_cache_prop.duplicate(),
                index: *index,
                repeater_index: match repeater_index {
                    Some(x) => Some(Box::new(clone_expression(x))),
                    Option::None => Option::None,
                },
            }
        }
        Expression::ComputeLayoutInfo(l, o) => Expression::ComputeLayoutInfo(*l, *o),
        Expression::SolveLayout(l, o) => Expression::SolveLayout(*l, *o),
    }
}


/// Collect every named reference held in an expression, appended in
/// depth-first order: property, callback and two-way references, and the
/// layout-cache property of cache accesses. Every rewrite pass that renames
/// or redirects references starts from this collection; its output is
/// exactly the expression's reference model.
pub fn named_references_in_expression(e: &Expression, out: &mut Vec<NamedReference>)
    ensures
        crate::namedreference::refs_view(final(out)@) == crate::namedreference::refs_view(
            old(out)@,
        ) + spec_expr_refs(*e),
    decreases *e, 1int,
{
    broadcast use crate::namedreference::group_refs_view_lemmas;

    let ghost base = crate::namedreference::refs_view(old(out)@);
    match e {
        Expression::TwoWayBinding(nr, sub) => {
            push_ref(out, nr);
            match sub {
                Some(x) => named_references_in_expression(x, out),
                Option::None => {}
            }
            proof {
                lemma_refs_assoc(base, seq![crate::namedreference::nr_view(*nr)], match sub {
                    Some(x) => spec_expr_refs(**x),
                    Option::None => Seq::empty(),
                });
                assert(crate::namedreference::refs_view(out@) =~= base + spec_expr_refs(*e));
            }
        }
        Expression::CallbackReference(nr) => {
            push_ref(out, nr);
            proof {
                assert(crate::namedreference::refs_view(out@) =~= base + spec_expr_refs(*e));
            }
        }
        Expression::PropertyReference(nr) => {
            push_ref(out, nr);
            proof {
                assert(crate::namedreference::refs_view(out@) =~= base + spec_expr_refs(*e));
            }
        }
        Expression::LayoutCacheAccess { layout_cache_prop, repeater_index, .. } => {
            push_ref(out, layout_cache_prop);
            match repeater_index {
                Some(x) => named_references_in_expression(x, out),
                Option::None => {}
            }
            proof {
                lemma_refs_assoc(
                    base,
                    seq![crate::namedreference::nr_view(*layout_cache_prop)],
                    match repeater_index {
                        Some(x) => spec_expr_refs(**x),
                        Option::None => Seq::empty(),
                    },
                );
                assert(crate::namedreference::refs_view(out@) =~= base + spec_expr_refs(*e));
            }
        }
        Expression::MemberFunction { base: b, member, .. } => {
            named_references_in_expression(b, out);
            named_references_in_expression(member, out);
            proof {
                lemma_refs_assoc(base, spec_expr_refs(**b), spec_expr_refs(**member));
                assert(crate::namedreference::refs_view(out@) =~= base + spec_expr_refs(*e));
            }
        }
        Expression::StoreLocalVariable { value, .. } => {
            named_references_in_expression(value, out);
        }
        Expression::StructFieldAccess { base: b, .. } => {
            named_references_in_expression(b, out);
        }
        Expression::Cast { from, .. } => {
            named_references_in_expression(from, out);
        }
        Expression::CodeBlock(sub) => {
            refs_of_exprs(sub, out, Ghost(*e));
            proof {
                assert(crate::namedreference::refs_view(out@) =~= base + spec_expr_refs(*e));
            }
        }
        Expression::FunctionCall { function, arguments, .. } => {
            named_references_in_expression(function, out);
            refs_of_exprs(arguments, out, Ghost(*e));
            proof {
                lemma_refs_assoc(base, spec_expr_refs(**function), spec_exprs_refs(arguments@));
                assert(crate::namedreference::refs_view(out@) =~= base + spec_expr_refs(*e));
            }
        }
        Expression::SelfAssignment { lhs, rhs, .. } => {
            named_references_in_expression(lhs, out);
            named_references_in_expression(rhs, out);
            proof {
                lemma_refs_assoc(base, spec_expr_refs(**lhs), spec_expr_refs(**rhs));
                assert(crate::namedreference::refs_view(out@) =~= base + spec_expr_refs(*e));
            }
        }
        Expression::BinaryExpression { lhs, rhs, .. } => {
            named_references_in_expression(lhs, out);
            named_references_in_expression(rhs, out);
            proof {
                lemma_refs_assoc(base, spec_expr_refs(**lhs), spec_expr_refs(**rhs));
                assert(crate::namedreference::refs_view(out@) =~= base + spec_expr_refs(*e));
            }
        }
        Expression::UnaryOp { sub, .. } => {
            named_references_in_expression(sub, out);
        }
        Expression::Condition { condition, true_expr, false_expr } => {
            named_references_in_expression(condition, out);
            named_references_in_expression(true_expr, out);
            named_references_in_expression(false_expr, out);
            proof {
                lemma_refs_assoc(base, spec_expr_refs(**condition), spec_expr_refs(**true_expr));
                lemma_refs_assoc(
                    base + spec_expr_refs(**condition),
                    spec_expr_refs(**true_expr),
                    spec_expr_refs(**false_expr),
                );
                lemma_refs_assoc(
                    base,
                    spec_expr_refs(**condition) + spec_expr_refs(**true_expr),
                    spec_expr_refs(**false_expr),
                );
                assert(crate::namedreference::refs_view(out@) =~= base + spec_expr_refs(*e));
            }
        }
        Expression::Array { values, .. } => {
            refs_of_exprs(values, out, Ghost(*e));
            proof {
                assert(crate::namedreference::refs_view(out@) =~= base + spec_expr_refs(*e));
            }
        }
        Expression::Struct { values, .. } => {
            refs_of_values(values, out, Ghost(*e));
            proof {
                assert(crate::namedreference::refs_view(out@) =~= base + spec_expr_refs(*e));
            }
        }
        Expression::PathElements { elements } => {
            match elements {
                Path::Elements(els) => {
                    refs_of_path_elements(els, out, Ghost(*e));
                    proof {
                        assert(crate::namedreference::refs_view(out@) =~= base + spec_expr_refs(
                            *e,
                        ));
                    }
                }
                Path::Events(_) => {
                    proof {
                        assert(crate::namedreference::refs_view(out@) =~= base + spec_expr_refs(
                            *e,
                        ));
                    }
                }
            }
        }
        Expression::LinearGradient { angle, stops } => {
            named_references_in_expression(angle, out);
            refs_of_stops(stops, out, Ghost(*e));
            proof {
                lemma_refs_assoc(base, spec_expr_refs(**angle), spec_stops_refs(stops@));
                assert(crate::namedreference::refs_view(out@) =~= base + spec_expr_refs(*e));
            }
        }
        Expression::ReturnStatement(sub) => {
            match sub {
                Some(x) => named_references_in_expression(x, out),
                Option::None => {}
            }
        }
        _ => {
            proof {
                assert(crate::namedreference::refs_view(out@) =~= base + spec_expr_refs(*e));
            }
        }
    }
}

/// Concatenation of reference lists is associative.
proof fn lemma_refs_assoc(a: Seq<(int, Seq<char>)>, b: Seq<(int, Seq<char>)>, c: Seq<
    (int, Seq<char>),
>)
    ensures
        (a + b) + c =~= a + (b + c),
{
}

/// Push one reference, extending the model by its view.
fn push_ref(out: &mut Vec<NamedReference>, nr: &NamedReference)
    ensures
        crate::namedreference::refs_view(final(out)@) == crate::namedreference::refs_view(
            old(out)@,
        ) + seq![crate::namedreference::nr_view(*nr)],
{
    broadcast use crate::namedreference::group_refs_view_lemmas;

    out.push(nr.duplicate());
    proof {
        assert(crate::namedreference::refs_view(out@) =~= crate::namedreference::refs_view(
            old(out)@,
        ) + seq![crate::namedreference::nr_view(*nr)]);
    }
}

/// Collect the references of each expression of a list.
fn refs_of_exprs(s: &Vec<Expression>, out: &mut Vec<NamedReference>, parent: Ghost<Expression>)
    requires
        (parent@ matches Expression::CodeBlock(s2) && s2 == *s) || (parent@ matches
            Expression::FunctionCall { arguments: a2, .. } && a2 == *s) || (parent@ matches
            Expression::Array { values: v2, .. } && v2 == *s),
    ensures
        crate::namedreference::refs_view(final(out)@) == crate::namedreference::refs_view(
            old(out)@,
        ) + spec_exprs_refs(s@),
    decreases parent@, 0int,
{
    let ghost base = crate::namedreference::refs_view(old(out)@);
    let mut i: usize = 0;
    proof {
        assert(s@.skip(0) =~= s@);
    }
    while i < s.len()
        invariant
            0 <= i <= s@.len(),
            (parent@ matches Expression::CodeBlock(s2) && s2 == *s) || (parent@ matches
                Expression::FunctionCall { arguments: a2, .. } && a2 == *s) || (parent@ matches
                Expression::Array { values: v2, .. } && v2 == *s),
            base == crate::namedreference::refs_view(old(out)@),
            crate::namedreference::refs_view(out@) + spec_exprs_refs(s@.skip(i as int)) == base
                + spec_exprs_refs(s@),
        decreases s@.len() - i,
    {
        proof {
            assert(decreases_to!(*s => s@[i as int]));
            assert(s@.skip(i as int)[0] == s@[i as int]);
            assert(s@.skip(i as int).skip(1) =~= s@.skip(i as int + 1));
        }
        let ghost pre = crate::namedreference::refs_view(out@);
        named_references_in_expression(&s[i], out);
        proof {
            lemma_refs_assoc(pre, spec_expr_refs(s@[i as int]), spec_exprs_refs(s@.skip(
                i as int + 1,
            )));
        }
        i = i + 1;
    }
    proof {
        assert(s@.skip(s@.len() as int) =~= Seq::<Expression>::empty());
        assert(crate::namedreference::refs_view(out@) + Seq::<(int, Seq<char>)>::empty()
            =~= crate::namedreference::refs_view(out@));
    }
}

/// Collect the references of each named value of a struct literal.
fn refs_of_values(
    s: &Vec<(String, Expression)>,
    out: &mut Vec<NamedReference>,
    parent: Ghost<Expression>,
)
    requires
        parent@ matches Expression::Struct { values: v2, .. } && v2 == *s,
    ensures
        crate::namedreference::refs_view(final(out)@) == crate::namedreference::refs_view(
            old(out)@,
        ) + spec_values_refs(s@),
    decreases parent@, 0int,
{
    let ghost base = crate::namedreference::refs_view(old(out)@);
    let mut i: usize = 0;
    proof {
        assert(s@.skip(0) =~= s@);
    }
    while i < s.len()
        invariant
            0 <= i <= s@.len(),
            parent@ matches Expression::Struct { values: v2, .. } && v2 == *s,
            base == crate::namedreference::refs_view(old(out)@),
            crate::namedreference::refs_view(out@) + spec_values_refs(s@.skip(i as int)) == base
                + spec_values_refs(s@),
        decreases s@.len() - i,
    {
        proof {
            assert(decreases_to!(*s => s@[i as int]));
            assert(decreases_to!(s@[i as int] => s@[i as int].1));
            assert(s@.skip(i as int)[0] == s@[i as int]);
            assert(s@.skip(i as int).skip(1) =~= s@.skip(i as int + 1));
        }
        let ghost pre = crate::namedreference::refs_view(out@);
        named_references_in_expression(&s[i].1, out);
        proof {
            lemma_refs_assoc(pre, spec_expr_refs(s@[i as int].1), spec_values_refs(s@.skip(
                i as int + 1,
            )));
        }
        i = i + 1;
    }
    proof {
        assert(s@.skip(s@.len() as int) =~= Seq::<(String, Expression)>::empty());
        assert(crate::namedreference::refs_view(out@) + Seq::<(int, Seq<char>)>::empty()
            =~= crate::namedreference::refs_view(out@));
    }
}

/// Collect the references of each gradient stop.
fn refs_of_stops(
    s: &Vec<(Expression, Expression)>,
    out: &mut Vec<NamedReference>,
    parent: Ghost<Expression>,
)
    requires
        parent@ matches Expression::LinearGradient { stops: s2, .. } && s2 == *s,
    ensures
        crate::namedreference::refs_view(final(out)@) == crate::namedreference::refs_view(
            old(out)@,
        ) + spec_stops_refs(s@),
    decreases parent@, 0int,
{
    let ghost base = crate::namedreference::refs_view(old(out)@);
    let mut i: usize = 0;
    proof {
        assert(s@.skip(0) =~= s@);
    }
    while i < s.len()
        invariant
            0 <= i <= s@.len(),
            parent@ matches Expression::LinearGradient { stops: s2, .. } && s2 == *s,
            base == crate::namedreference::refs_view(old(out)@),
            crate::namedreference::refs_view(out@) + spec_stops_refs(s@.skip(i as int)) == base
                + spec_stops_refs(s@),
        decreases s@.len() - i,
    {
        proof {
            assert(decreases_to!(*s => s@[i as int]));
            assert(decreases_to!(s@[i as int] => s@[i as int].0));
            assert(decreases_to!(s@[i as int] => s@[i as int].1));
            assert(s@.skip(i as int)[0] == s@[i as int]);
            assert(s@.skip(i as int).skip(1) =~= s@.skip(i as int + 1));
        }
        let ghost pre = crate::namedreference::refs_view(out@);
        named_references_in_expression(&s[i].0, out);
        let ghost mid = crate::namedreference::refs_view(out@);
        named_references_in_expression(&s[i].1, out);
        proof {
            lemma_refs_assoc(pre, spec_expr_refs(s@[i as int].0), spec_expr_refs(s@[
                i as int
            ].1));
            lemma_refs_assoc(
                pre,
                spec_expr_refs(s@[i as int].0) + spec_expr_refs(s@[i as int].1),
                spec_stops_refs(s@.skip(i as int + 1)),
            );
            lemma_refs_assoc(mid, spec_expr_refs(s@[i as int].1), spec_stops_refs(s@.skip(
                i as int + 1,
            )));
        }
        i = i + 1;
    }
    proof {
        assert(s@.skip(s@.len() as int) =~= Seq::<(Expression, Expression)>::empty());
        assert(crate::namedreference::refs_view(out@) + Seq::<(int, Seq<char>)>::empty()
            =~= crate::namedreference::refs_view(out@));
    }
}

/// Collect the references of every path element's bindings.
fn refs_of_path_elements(
    s: &Vec<PathElement>,
    out: &mut Vec<NamedReference>,
    parent: Ghost<Expression>,
)
    requires
        parent@ matches Expression::PathElements { elements: Path::Elements(s2) } && s2 == *s,
    ensures
        crate::namedreference::refs_view(final(out)@) == crate::namedreference::refs_view(
            old(out)@,
        ) + spec_path_elements_refs(s@),
    decreases parent@, 0int,
{
    let ghost base = crate::namedreference::refs_view(old(out)@);
    let mut i: usize = 0;
    proof {
        assert(s@.skip(0) =~= s@);
    }
    while i < s.len()
        invariant
            0 <= i <= s@.len(),
            parent@ matches Expression::PathElements { elements: Path::Elements(s2) } && s2
                == *s,
            base == crate::namedreference::refs_view(old(out)@),
            crate::namedreference::refs_view(out@) + spec_path_elements_refs(s@.skip(i as int))
                == base + spec_path_elements_refs(s@),
        decreases s@.len() - i,
    {
        proof {
            assert(s@.skip(i as int)[0] == s@[i as int]);
            assert(s@.skip(i as int).skip(1) =~= s@.skip(i as int + 1));
        }
        let ghost pre = crate::namedreference::refs_view(out@);
        let nb = s[i].bindings.len();
        let mut j: usize = 0;
        proof {
            assert(s@[i as int].bindings@.skip(0) =~= s@[i as int].bindings@);
        }
        while j < nb
            invariant
                0 <= i < s@.len(),
                0 <= j <= nb,
                nb == s@[i as int].bindings@.len(),
                parent@ matches Expression::PathElements { elements: Path::Elements(s2) } && s2
                    == *s,
                pre == crate::namedreference::refs_view(out@) || true,
                crate::namedreference::refs_view(out@) + spec_path_bindings_refs(s@[
                    i as int
                ].bindings@.skip(j as int)) == pre + spec_path_bindings_refs(s@[
                    i as int
                ].bindings@),
            decreases nb - j,
        {
            proof {
                assert(decreases_to!(*s => s@[i as int]));
                assert(decreases_to!(s@[i as int] => s@[i as int].bindings@[j as int]));
                assert(decreases_to!(s@[i as int].bindings@[j as int] => s@[
                    i as int
                ].bindings@[j as int].1.expression));
                assert(s@[i as int].bindings@.skip(j as int)[0] == s@[i as int].bindings@[
                    j as int
                ]);
                assert(s@[i as int].bindings@.skip(j as int).skip(1) =~= s@[
                    i as int
                ].bindings@.skip(j as int + 1));
            }
            let ghost prej = crate::namedreference::refs_view(out@);
            named_references_in_expression(&s[i].bindings[j].1.expression, out);
            proof {
                lemma_refs_assoc(
                    prej,
                    spec_expr_refs(s@[i as int].bindings@[j as int].1.expression),
                    spec_path_bindings_refs(s@[i as int].bindings@.skip(j as int + 1)),
                );
            }
            j = j + 1;
        }
        proof {
            assert(s@[i as int].bindings@.skip(nb as int) =~= Seq::<
                (String, BindingExpression),
            >::empty());
            assert(crate::namedreference::refs_view(out@) + Seq::<(int, Seq<char>)>::empty()
                =~= crate::namedreference::refs_view(out@));
            lemma_refs_assoc(
                pre,
                spec_path_bindings_refs(s@[i as int].bindings@),
                spec_path_elements_refs(s@.skip(i as int + 1)),
            );
        }
        i = i + 1;
    }
    proof {
        assert(s@.skip(s@.len() as int) =~= Seq::<PathElement>::empty());
        assert(crate::namedreference::refs_view(out@) + Seq::<(int, Seq<char>)>::empty()
            =~= crate::namedreference::refs_view(out@));
    }
}


/// Whether a named reference is blocked from being constant: it dangles, or
/// something assigns to the property.
pub open spec fn spec_nr_blocked(
    nr: NamedReference,
    tree: crate::object_tree::ObjectTree,
) -> bool {
    if !(nr.element < tree.elements@.len()) {
        true
    } else {
        let e = tree.elements@[nr.element as int];
        match crate::object_tree::spec_assoc_index(e.property_analysis@, nr.name@) {
            Some(i) => e.property_analysis@[i].1.is_set,
            Option::None => false,
        }
    }
}

/// The binding expression stored for the referenced property, if any.
pub open spec fn spec_nr_target_binding(
    nr: NamedReference,
    tree: crate::object_tree::ObjectTree,
) -> Option<Expression> {
    if !(nr.element < tree.elements@.len()) {
        Option::None
    } else {
        let e = tree.elements@[nr.element as int];
        match crate::object_tree::spec_assoc_index(e.bindings@, nr.name@) {
            Some(i) => Some(e.bindings@[i].1.expression),
            Option::None => Option::None,
        }
    }
}



/// Whether an expression is a compile-time constant: conservatively false
/// for anything touching mutable state, callbacks or layout.
pub open spec fn spec_is_constant(
    e: Expression,
    tree: crate::object_tree::ObjectTree,
    fuel: nat,
) -> bool
    decreases fuel, e, 1int,
{
    match e {
        Expression::Invalid => true,
        Expression::Uncompiled(_) => false,
        Expression::TwoWayBinding(nr, sub) => !spec_nr_blocked(nr, tree) && (match
            spec_nr_target_binding(nr, tree) {
            Some(ex) => fuel > 0 && spec_is_constant(ex, tree, (fuel - 1) as nat),
            Option::None => true,
        }) && (match sub {
            Some(x) => spec_is_constant(*x, tree, fuel),
            Option::None => true,
        }),
        Expression::StringLiteral(_) => true,
        Expression::NumberLiteral(_, _) => true,
        Expression::BoolLiteral(_) => true,
        Expression::CallbackReference(_) => false,
        Expression::PropertyReference(nr) => !spec_nr_blocked(nr, tree) && (match
            spec_nr_target_binding(nr, tree) {
            Some(ex) => fuel > 0 && spec_is_constant(ex, tree, (fuel - 1) as nat),
            Option::None => true,
        }),
        Expression::BuiltinFunctionReference(f, _) => spec_builtin_fn_pure(f),
        Expression::MemberFunction { .. } => false,
        Expression::BuiltinMacroReference(_, _) => true,
        Expression::ElementReference(_) => false,
        Expression::RepeaterIndexReference { .. } => false,
        Expression::RepeaterModelReference { .. } => false,
        Expression::FunctionParameterReference { .. } => false,
        Expression::StoreLocalVariable { .. } => false,
        Expression::ReadLocalVariable { .. } => false,
        Expression::StructFieldAccess { base, .. } => spec_is_constant(*base, tree, fuel),
        Expression::Cast { from, .. } => spec_is_constant(*from, tree, fuel),
        Expression::CodeBlock(sub) => sub@.len() == 1 && spec_is_constant(sub@[0], tree, fuel),
        Expression::FunctionCall { function, arguments, .. } => spec_is_constant(
            *function,
            tree,
            fuel,
        ) && spec_all_constant(arguments@, tree, fuel),
        Expression::SelfAssignment { .. } => false,
        Expression::BinaryExpression { lhs, rhs, .. } => spec_is_constant(*lhs, tree, fuel)
            && spec_is_constant(*rhs, tree, fuel),
        Expression::UnaryOp { sub, .. } => spec_is_constant(*sub, tree, fuel),
        Expression::ImageReference(_) => true,
        Expression::Condition { condition, true_expr, false_expr } => spec_is_constant(
            *condition,
            tree,
            fuel,
        ) && spec_is_constant(*true_expr, tree, fuel) && spec_is_constant(
            *false_expr,
            tree,
            fuel,
        ),
        Expression::Array { values, .. } => spec_all_constant(values@, tree, fuel),
        Expression::Struct { values, .. } => spec_all_values_constant(values@, tree, fuel),
        Expression::PathElements { elements } => match elements {
            Path::Elements(els) => spec_path_elements_constant(els@, tree, fuel),
            Path::Events(_) => true,
        },
        Expression::EasingCurve(_) => true,
        Expression::LinearGradient { angle, stops } => spec_is_constant(*angle, tree, fuel)
            && spec_stops_constant(stops@, tree, fuel),
        Expression::EnumerationValue(_) => true,
        Expression::ReturnStatement(sub) => match sub {
            Some(x) => spec_is_constant(*x, tree, fuel),
            Option::None => true,
        },
        Expression::LayoutCacheAccess { .. } => false,
        Expression::ComputeLayoutInfo(_, _) => false,
        Expression::SolveLayout(_, _) => false,
    }
}

pub open spec fn spec_all_constant(
    s: Seq<Expression>,
    tree: crate::object_tree::ObjectTree,
    fuel: nat,
) -> bool
    decreases fuel, s, 0int,
{
    if s.len() == 0 {
        true
    } else {
        spec_is_constant(s[0], tree, fuel) && spec_all_constant(s.skip(1), tree, fuel)
    }
}

pub open spec fn spec_all_values_constant(
    s: Seq<(String, Expression)>,
    tree: crate::object_tree::ObjectTree,
    fuel: nat,
) -> bool
    decreases fuel, s, 0int,
{
    if s.len() == 0 {
        true
    } else {
        spec_is_constant(s[0].1, tree, fuel) && spec_all_values_constant(s.skip(1), tree, fuel)
    }
}

pub open spec fn spec_stops_constant(
    s: Seq<(Expression, Expression)>,
    tree: crate::object_tree::ObjectTree,
    fuel: nat,
) -> bool
    decreases fuel, s, 0int,
{
    if s.len() == 0 {
        true
    } else {
        spec_is_constant(s[0].0, tree, fuel) && spec_is_constant(s[0].1, tree, fuel)
            && spec_stops_constant(s.skip(1), tree, fuel)
    }
}

pub open spec fn spec_path_elements_constant(
    s: Seq<PathElement>,
    tree: crate::object_tree::ObjectTree,
    fuel: nat,
) -> bool
    decreases fuel, s, 1int,
{
    if s.len() == 0 {
        true
    } else {
        spec_path_bindings_constant(s[0].bindings@, tree, fuel) && spec_path_elements_constant(
            s.skip(1),
            tree,
            fuel,
        )
    }
}

pub open spec fn spec_path_bindings_constant(
    s: Seq<(String, BindingExpression)>,
    tree: crate::object_tree::ObjectTree,
    fuel: nat,
) -> bool
    decreases fuel, s, 0int,
{
    if s.len() == 0 {
        true
    } else {
        spec_is_constant(s[0].1.expression, tree, fuel) && spec_path_bindings_constant(
            s.skip(1),
            tree,
            fuel,
        )
    }
}

impl Expression {
    /// Whether this expression is a compile-time constant, following
    /// property references through the tree at most as often as the tree has
    /// elements.
    pub fn is_constant(&self, tree: &crate::object_tree::ObjectTree) -> (r: bool)
        requires
            crate::object_tree::tree_wf(*tree),
        ensures
            r == spec_is_constant(*self, *tree, tree.elements@.len() as nat),
    {
        let fuel = tree.elements.len();
        self.is_constant_fuel(tree, fuel)
    }

    /// Constness with an explicit reference-following budget.
    pub fn is_constant_fuel(&self, tree: &crate::object_tree::ObjectTree, fuel: usize) -> (r:
        bool)
        requires
            crate::object_tree::tree_wf(*tree),
        ensures
            r == spec_is_constant(*self, *tree, fuel as nat),
        decreases fuel as nat, *self, 1int,
    {
        match self {
            Expression::Invalid => true,
            Expression::Uncompiled(_) => false,
            Expression::TwoWayBinding(nr, sub) => {
                let nr_ok = {
                    if nr_blocked(nr, tree) {
                        false
                    } else {
                        let found = crate::object_tree::assoc_find_binding(
                            &tree.elements[nr.element].bindings,
                            nr.name.as_str(),
                        );
                        match found {
                            Some(i) => {
                                proof {
                                    crate::object_tree::lemma_assoc_index_props(
                                        tree.elements@[nr.element as int].bindings@,
                                        nr.name@,
                                    );
                                }
                                if fuel == 0 {
                                    false
                                } else {
                                    tree.elements[nr.element].bindings[i].1.expression
                                        .is_constant_fuel(tree, fuel - 1)
                                }
                            }
                            Option::None => true,
                        }
                    }
                };
                if !nr_ok {
                    return false;
                }
                match sub {
                    Some(x) => x.is_constant_fuel(tree, fuel),
                    Option::None => true,
                }
            }
            Expression::StringLiteral(_) => true,
            Expression::NumberLiteral(_, _) => true,
            Expression::BoolLiteral(_) => true,
            Expression::CallbackReference(_) => false,
            Expression::PropertyReference(nr) => {
                if nr_blocked(nr, tree) {
                    false
                } else {
                    let found = crate::object_tree::assoc_find_binding(
                        &tree.elements[nr.element].bindings,
                        nr.name.as_str(),
                    );
                    match found {
                        Some(i) => {
                            proof {
                                crate::object_tree::lemma_assoc_index_props(
                                    tree.elements@[nr.element as int].bindings@,
                                    nr.name@,
                                );
                            }
                            if fuel == 0 {
                                false
                            } else {
                                tree.elements[nr.element].bindings[i].1.expression
                                    .is_constant_fuel(tree, fuel - 1)
                            }
                        }
                        Option::None => true,
                    }
                }
            }
            Expression::BuiltinFunctionReference(f, _) => f.is_pure(),
            Expression::MemberFunction { .. } => false,
            Expression::BuiltinMacroReference(_, _) => true,
            Expression::ElementReference(_) => false,
            Expression::RepeaterIndexReference { .. } => false,
            Expression::RepeaterModelReference { .. } => false,
            Expression::FunctionParameterReference { .. } => false,
            Expression::StoreLocalVariable { .. } => false,
            Expression::ReadLocalVariable { .. } => false,
            Expression::StructFieldAccess { base, .. } => base.is_constant_fuel(tree, fuel),
            Expression::Cast { from, .. } => from.is_constant_fuel(tree, fuel),
            Expression::CodeBlock(sub) => {
                if sub.len() != 1 {
                    false
                } else {
                    proof {
                        assert(decreases_to!(*sub => sub@[0]));
                    }
                    let r = sub[0].is_constant_fuel(tree, fuel);
                    r
                }
            }
            Expression::FunctionCall { function, arguments, .. } => {
                if !function.is_constant_fuel(tree, fuel) {
                    return false;
                }
                proof {
                    assert(arguments@.skip(0) =~= arguments@);
                }
                let mut i: usize = 0;
                while i < arguments.len()
                    invariant
                        crate::object_tree::tree_wf(*tree),
                        0 <= i <= arguments@.len(),
                        *self matches Expression::FunctionCall { arguments: a2, .. } && a2
                            == *arguments,
                        spec_all_constant(arguments@, *tree, fuel as nat) == spec_all_constant(
                            arguments@.skip(i as int),
                            *tree,
                            fuel as nat,
                        ),
                    decreases arguments@.len() - i,
                {
                    proof {
                        assert(decreases_to!(*self => arguments@[i as int]));
                        assert(arguments@.skip(i as int)[0] == arguments@[i as int]);
                        assert(arguments@.skip(i as int).skip(1) =~= arguments@.skip(
                            i as int + 1,
                        ));
                    }
                    if !arguments[i].is_constant_fuel(tree, fuel) {
                        return false;
                    }
                    i = i + 1;
                }
                proof {
                    assert(arguments@.skip(arguments@.len() as int) =~= Seq::<
                        Expression,
                    >::empty());
                }
                true
            }
            Expression::SelfAssignment { .. } => false,
            Expression::BinaryExpression { lhs, rhs, .. } => {
                let l = lhs.is_constant_fuel(tree, fuel);
                if !l {
                    false
                } else {
                    rhs.is_constant_fuel(tree, fuel)
                }
            }
            Expression::UnaryOp { sub, .. } => sub.is_constant_fuel(tree, fuel),
            Expression::ImageReference(_) => true,
            Expression::Condition { condition, true_expr, false_expr } => {
                let c = condition.is_constant_fuel(tree, fuel);
                if !c {
                    false
                } else {
                    let t = true_expr.is_constant_fuel(tree, fuel);
                    if !t {
                        false
                    } else {
                        false_expr.is_constant_fuel(tree, fuel)
                    }
                }
            }
            Expression::Array { values, .. } => {
                proof {
                    assert(values@.skip(0) =~= values@);
                }
                let mut i: usize = 0;
                while i < values.len()
                    invariant
                        crate::object_tree::tree_wf(*tree),
                        0 <= i <= values@.len(),
                        *self matches Expression::Array { values: v2, .. } && v2 == *values,
                        spec_all_constant(values@, *tree, fuel as nat) == spec_all_constant(
                            values@.skip(i as int),
                            *tree,
                            fuel as nat,
                        ),
                    decreases values@.len() - i,
                {
                    proof {
                        assert(decreases_to!(*self => values@[i as int]));
                        assert(values@.skip(i as int)[0] == values@[i as int]);
                        assert(values@.skip(i as int).skip(1) =~= values@.skip(i as int + 1));
                    }
                    if !values[i].is_constant_fuel(tree, fuel) {
                        return false;
                    }
                    i = i + 1;
                }
                proof {
                    assert(values@.skip(values@.len() as int) =~= Seq::<Expression>::empty());
                }
                true
            }
            Expression::Struct { values, .. } => {
                proof {
                    assert(values@.skip(0) =~= values@);
                }
                let mut i: usize = 0;
                while i < values.len()
                    invariant
                        crate::object_tree::tree_wf(*tree),
                        0 <= i <= values@.len(),
                        *self matches Expression::Struct { values: v2, .. } && v2 == *values,
                        spec_all_values_constant(values@, *tree, fuel as nat)
                            == spec_all_values_constant(
                            values@.skip(i as int),
                            *tree,
                            fuel as nat,
                        ),
                    decreases values@.len() - i,
                {
                    proof {
                        assert(decreases_to!(*self => values@[i as int]));
                        assert(decreases_to!(values@[i as int] => values@[i as int].1));
                        assert(values@.skip(i as int)[0] == values@[i as int]);
                        assert(values@.skip(i as int).skip(1) =~= values@.skip(i as int + 1));
                    }
                    if !values[i].1.is_constant_fuel(tree, fuel) {
                        return false;
                    }
                    i = i + 1;
                }
                proof {
                    assert(values@.skip(values@.len() as int) =~= Seq::<
                        (String, Expression),
                    >::empty());
                }
                true
            }
            Expression::PathElements { elements } => {
                match elements {
                    Path::Events(_) => true,
                    Path::Elements(els) => {
                        proof {
                            assert(els@.skip(0) =~= els@);
                        }
                        let mut i: usize = 0;
                        while i < els.len()
                            invariant
                                crate::object_tree::tree_wf(*tree),
                                0 <= i <= els@.len(),
                                *self matches Expression::PathElements {
                                    elements: Path::Elements(e2),
                                } && e2 == *els,
                                spec_path_elements_constant(els@, *tree, fuel as nat)
                                    == spec_path_elements_constant(
                                    els@.skip(i as int),
                                    *tree,
                                    fuel as nat,
                                ),
                            decreases els@.len() - i,
                        {
                            proof {
                                assert(els@.skip(i as int)[0] == els@[i as int]);
                                assert(els@.skip(i as int).skip(1) =~= els@.skip(i as int + 1));
                            }
                            proof {
                                assert(els@[i as int].bindings@.skip(0) =~= els@[
                                    i as int
                                ].bindings@);
                            }
                            let mut j: usize = 0;
                            let nb = els[i].bindings.len();
                            while j < nb
                                invariant
                                    crate::object_tree::tree_wf(*tree),
                                    0 <= i < els@.len(),
                                    0 <= j <= nb,
                                    nb == els@[i as int].bindings@.len(),
                                    *self matches Expression::PathElements {
                                        elements: Path::Elements(e2),
                                    } && e2 == *els,
                                    spec_path_bindings_constant(
                                        els@[i as int].bindings@,
                                        *tree,
                                        fuel as nat,
                                    ) == spec_path_bindings_constant(
                                        els@[i as int].bindings@.skip(j as int),
                                        *tree,
                                        fuel as nat,
                                    ),
                                    spec_path_elements_constant(els@, *tree, fuel as nat)
                                        == spec_path_elements_constant(
                                        els@.skip(i as int),
                                        *tree,
                                        fuel as nat,
                                    ),
                                    els@.skip(i as int)[0] == els@[i as int],
                                    els@.skip(i as int).skip(1) == els@.skip(i as int + 1),
                                decreases nb - j,
                            {
                                proof {
                                    assert(decreases_to!(*self => els@[i as int]));
                                    assert(decreases_to!(els@[i as int] => els@[
                                        i as int
                                    ].bindings@[j as int]));
                                    assert(decreases_to!(els@[i as int].bindings@[j as int]
                                        => els@[i as int].bindings@[j as int].1.expression));
                                    assert(els@[i as int].bindings@.skip(j as int)[0] == els@[
                                        i as int
                                    ].bindings@[j as int]);
                                    assert(els@[i as int].bindings@.skip(j as int).skip(1)
                                        =~= els@[i as int].bindings@.skip(j as int + 1));
                                }
                                if !els[i].bindings[j].1.expression.is_constant_fuel(
                                    tree,
                                    fuel,
                                ) {
                                    proof {
                                        assert(!spec_path_bindings_constant(
                                            els@[i as int].bindings@.skip(j as int),
                                            *tree,
                                            fuel as nat,
                                        ));
                                        assert(!spec_path_bindings_constant(
                                            els@[i as int].bindings@,
                                            *tree,
                                            fuel as nat,
                                        ));
                                        assert(!spec_path_elements_constant(
                                            els@.skip(i as int),
                                            *tree,
                                            fuel as nat,
                                        ));
                                    }
                                    return false;
                                }
                                j = j + 1;
                            }
                            proof {
                                assert(els@[i as int].bindings@.skip(
                                    els@[i as int].bindings@.len() as int,
                                ) =~= Seq::<(String, BindingExpression)>::empty());
                            }
                            i = i + 1;
                        }
                        proof {
                            assert(els@.skip(els@.len() as int) =~= Seq::<PathElement>::empty());
                        }
                        true
                    }
                }
            }
            Expression::EasingCurve(_) => true,
            Expression::LinearGradient { angle, stops } => {
                if !angle.is_constant_fuel(tree, fuel) {
                    return false;
                }
                proof {
                    assert(stops@.skip(0) =~= stops@);
                }
                let mut i: usize = 0;
                while i < stops.len()
                    invariant
                        crate::object_tree::tree_wf(*tree),
                        0 <= i <= stops@.len(),
                        *self matches Expression::LinearGradient { stops: s2, .. } && s2
                            == *stops,
                        spec_stops_constant(stops@, *tree, fuel as nat) == spec_stops_constant(
                            stops@.skip(i as int),
                            *tree,
                            fuel as nat,
                        ),
                    decreases stops@.len() - i,
                {
                    proof {
                        assert(decreases_to!(*self => stops@[i as int]));
                        assert(decreases_to!(stops@[i as int] => stops@[i as int].0));
                        assert(decreases_to!(stops@[i as int] => stops@[i as int].1));
                        assert(stops@.skip(i as int)[0] == stops@[i as int]);
                        assert(stops@.skip(i as int).skip(1) =~= stops@.skip(i as int + 1));
                    }
                    if !stops[i].0.is_constant_fuel(tree, fuel) {
                        return false;
                    }
                    if !stops[i].1.is_constant_fuel(tree, fuel) {
                        return false;
                    }
                    i = i + 1;
                }
                proof {
                    assert(stops@.skip(stops@.len() as int) =~= Seq::<
                        (Expression, Expression),
                    >::empty());
                }
                true
            }
            Expression::EnumerationValue(_) => true,
            Expression::ReturnStatement(sub) => {
                match sub {
                    Some(x) => x.is_constant_fuel(tree, fuel),
                    Option::None => true,
                }
            }
            Expression::LayoutCacheAccess { .. } => false,
            Expression::ComputeLayoutInfo(_, _) => false,
            Expression::SolveLayout(_, _) => false,
        }
    }
}

/// Whether a named reference is blocked from being constant: it dangles or
/// the property is assigned somewhere.
fn nr_blocked(nr: &NamedReference, tree: &crate::object_tree::ObjectTree) -> (r: bool)
    ensures
        r == spec_nr_blocked(*nr, *tree),
        !r ==> nr.element < tree.elements@.len(),
{
    if !(nr.element < tree.elements.len()) {
        return true;
    }
    let e = &tree.elements[nr.element];
    let mut i: usize = 0;
    while i < e.property_analysis.len()
        invariant
            0 <= i <= e.property_analysis@.len(),
            nr.element < tree.elements@.len(),
            e == &tree.elements[nr.element as int],
            forall|j: int|
                0 <= j < i ==> (#[trigger] e.property_analysis@[j]).0@ != nr.name@,
        decreases e.property_analysis@.len() - i,
    {
        if crate::units::str_eq(e.property_analysis[i].0.as_str(), nr.name.as_str()) {
            proof {
                crate::object_tree::lemma_assoc_index_props(e.property_analysis@, nr.name@);
                match crate::object_tree::spec_assoc_index(e.property_analysis@, nr.name@) {
                    Some(k) => {
                        if k < i as int {
                            assert(e.property_analysis@[k].0@ != nr.name@);
                        }
                        if k > i as int {
                            assert(e.property_analysis@[i as int].0@ != nr.name@);
                        }
                    }
                    Option::None => {
                        assert(e.property_analysis@[i as int].0@ != nr.name@);
                    }
                }
            }
            return e.property_analysis[i].1.is_set;
        }
        i = i + 1;
    }
    proof {
        crate::object_tree::lemma_assoc_index_props(e.property_analysis@, nr.name@);
    }
    false
}


/// The character of one decimal digit.
pub open spec fn spec_digit_char(d: nat) -> char {
    if d == 0 {
        '0'
    } else if d == 1 {
        '1'
    } else if d == 2 {
        '2'
    } else if d == 3 {
        '3'
    } else if d == 4 {
        '4'
    } else if d == 5 {
        '5'
    } else if d == 6 {
        '6'
    } else if d == 7 {
        '7'
    } else if d == 8 {
        '8'
    } else {
        '9'
    }
}

/// The decimal digits of a number, most significant first.
pub open spec fn spec_dec_str(v: nat) -> Seq<char>
    decreases v,
{
    if v < 10 {
        seq![spec_digit_char(v)]
    } else {
        spec_dec_str(v / 10) + seq![spec_digit_char(v % 10)]
    }
}

/// The rendering of a signed number: a minus sign before the digits of the
/// magnitude.
pub open spec fn spec_int_str(v: int) -> Seq<char> {
    if v < 0 {
        seq!['-'] + spec_dec_str((-v) as nat)
    } else {
        spec_dec_str(v as nat)
    }
}

/// Relies on String::push: the result is the one given character.
#[verifier::external_body]
fn char_to_string(c: char) -> (r: String)
    ensures
        r@ == seq![c],
{
    let mut s = String::new();
    s.push(c);
    s
}

/// Relies on the std formatting of u128: the decimal digits of the value,
/// most significant first, no sign and no separators.
#[verifier::external_body]
fn u128_to_string(v: u128) -> (r: String)
    ensures
        r@ == spec_dec_str(v as nat),
{
    format!("{}", v)
}

/// Render a signed fixed-point count of millionths.
fn i128_to_string(v: i128) -> (r: String)
    ensures
        r@ == spec_int_str(v as int),
{
    if v < 0 {
        let mag: u128 = if v == i128::MIN {
            0x80000000000000000000000000000000u128
        } else {
            (-v) as u128
        };
        let digits = u128_to_string(mag);
        let mut out = String::from_str("-");
        out.append(digits.as_str());
        proof {
            reveal_strlit("-");
            assert(out@ =~= spec_int_str(v as int));
        }
        out
    } else {
        u128_to_string(v as u128)
    }
}

/// The rendering of a fixed-point literal: the whole number when the value
/// is a whole count of units, otherwise the millionths count with a scale
/// marker.
pub open spec fn spec_fixed_str(v: int) -> Seq<char> {
    if v % 1000000 == 0 {
        spec_int_str(v / 1000000)
    } else {
        spec_int_str(v) + "e-6"@
    }
}

/// Render a fixed-point value.
fn fixed_to_string(v: i128) -> (r: String)
    ensures
        r@ == spec_fixed_str(v as int),
{
    if v % 1000000 == 0 {
        i128_to_string(v / 1000000)
    } else {
        let mut out = i128_to_string(v);
        out.append("e-6");
        out
    }
}


/// The display name of a builtin function.
pub open spec fn spec_builtin_fn_name(f: BuiltinFunction) -> Seq<char> {
    match f {
        BuiltinFunction::GetWindowScaleFactor => "GetWindowScaleFactor"@,
        BuiltinFunction::Debug => "Debug"@,
        BuiltinFunction::Mod => "Mod"@,
        BuiltinFunction::Round => "Round"@,
        BuiltinFunction::Ceil => "Ceil"@,
        BuiltinFunction::Floor => "Floor"@,
        BuiltinFunction::Abs => "Abs"@,
        BuiltinFunction::Sqrt => "Sqrt"@,
        BuiltinFunction::Cos => "Cos"@,
        BuiltinFunction::Sin => "Sin"@,
        BuiltinFunction::Tan => "Tan"@,
        BuiltinFunction::ACos => "ACos"@,
        BuiltinFunction::ASin => "ASin"@,
        BuiltinFunction::ATan => "ATan"@,
        BuiltinFunction::SetFocusItem => "SetFocusItem"@,
        BuiltinFunction::ShowPopupWindow => "ShowPopupWindow"@,
        BuiltinFunction::StringToFloat => "StringToFloat"@,
        BuiltinFunction::StringIsFloat => "StringIsFloat"@,
        BuiltinFunction::ColorBrighter => "ColorBrighter"@,
        BuiltinFunction::ColorDarker => "ColorDarker"@,
        BuiltinFunction::ImageSize => "ImageSize"@,
        BuiltinFunction::Rgb => "Rgb"@,
        BuiltinFunction::ImplicitLayoutInfo(_) => "ImplicitLayoutInfo"@,
        BuiltinFunction::RegisterCustomFontByPath => "RegisterCustomFontByPath"@,
        BuiltinFunction::RegisterCustomFontByMemory => "RegisterCustomFontByMemory"@,
    }
}

/// The display name of a compiler macro.
pub open spec fn spec_builtin_macro_name(m: BuiltinMacroFunction) -> Seq<char> {
    match m {
        BuiltinMacroFunction::Min => "Min"@,
        BuiltinMacroFunction::Max => "Max"@,
        BuiltinMacroFunction::CubicBezier => "CubicBezier"@,
        BuiltinMacroFunction::Rgb => "Rgb"@,
        BuiltinMacroFunction::Debug => "Debug"@,
    }
}

/// The display of a named reference: the element index and the property.
pub open spec fn spec_nr_str(nr: NamedReference) -> Seq<char> {
    seq!['#'] + spec_dec_str(nr.element as nat) + seq!['.'] + nr.name@
}

/// The canonical textual rendering of an expression, for diagnostics and
/// debugging; it is not required to be parseable source.
pub open spec fn spec_pretty(e: Expression) -> Seq<char>
    decreases e, 1int, 0int,
{
    match e {
        Expression::Invalid => "<invalid>"@,
        Expression::Uncompiled(_) => "<uncompiled>"@,
        Expression::TwoWayBinding(nr, sub) => "<=>"@ + spec_nr_str(nr) + (match sub {
            Some(x) => seq![':'] + spec_pretty(*x),
            Option::None => Seq::empty(),
        }),
        Expression::StringLiteral(st) => seq!['"'] + st@ + seq!['"'],
        Expression::NumberLiteral(v, u) => spec_fixed_str(v as int) + crate::units::spec_unit_str(
            u,
        ),
        Expression::BoolLiteral(b) => if b {
            "true"@
        } else {
            "false"@
        },
        Expression::CallbackReference(nr) => spec_nr_str(nr),
        Expression::PropertyReference(nr) => spec_nr_str(nr),
        Expression::BuiltinFunctionReference(f, _) => spec_builtin_fn_name(f),
        Expression::MemberFunction { base, member, .. } => spec_pretty(*base) + seq!['.']
            + spec_pretty(*member),
        Expression::BuiltinMacroReference(m, _) => spec_builtin_macro_name(m),
        Expression::ElementReference(i) => seq!['#'] + spec_dec_str(i as nat),
        Expression::RepeaterIndexReference { element } => seq!['#'] + spec_dec_str(
            element as nat,
        ) + ".$index"@,
        Expression::RepeaterModelReference { element } => seq!['#'] + spec_dec_str(
            element as nat,
        ) + ".@model"@,
        Expression::FunctionParameterReference { index, .. } => "_arg_"@ + spec_dec_str(
            index as nat,
        ),
        Expression::StoreLocalVariable { name, value } => name@ + " = "@ + spec_pretty(*value),
        Expression::ReadLocalVariable { name, .. } => name@,
        Expression::StructFieldAccess { base, name } => spec_pretty(*base) + seq!['.'] + name@,
        Expression::Cast { from, .. } => seq!['('] + spec_pretty(*from) + " as value)"@,
        Expression::CodeBlock(sub) => "{ "@ + spec_pretty_exprs(sub@, "; "@) + seq!['}'],
        Expression::FunctionCall { function, arguments, .. } => spec_pretty(*function) + seq![
            '(',
        ] + spec_pretty_exprs(arguments@, ", "@) + seq![')'],
        Expression::SelfAssignment { lhs, rhs, op } => spec_pretty(*lhs) + seq![' '] + (if op
            == '=' {
            seq![' ']
        } else {
            seq![op]
        }) + "= "@ + spec_pretty(*rhs),
        Expression::BinaryExpression { lhs, rhs, op } => seq!['('] + spec_pretty(*lhs) + (if op
            == '=' || op == '!' {
            seq![' ', op, '=', ' ']
        } else {
            seq![' ', op, ' ']
        }) + spec_pretty(*rhs) + seq![')'],
        Expression::UnaryOp { sub, op } => seq![op] + spec_pretty(*sub),
        Expression::ImageReference(ir) => match ir {
            ImageReference::NoImage => "@image-url(none)"@,
            ImageReference::AbsolutePath(p) => "@image-url(\""@ + p@ + "\")"@,
            ImageReference::EmbeddedData(d) => "@image-url(#"@ + spec_dec_str(d as nat) + seq![
                ')',
            ],
        },
        Expression::Condition { condition, true_expr, false_expr } => "if ("@ + spec_pretty(
            *condition,
        ) + ") { "@ + spec_pretty(*true_expr) + " } else { "@ + spec_pretty(*false_expr)
            + " }"@,
        Expression::Array { values, .. } => seq!['['] + spec_pretty_exprs(values@, ", "@) + seq![
            ']',
        ],
        Expression::Struct { values, .. } => "{ "@ + spec_pretty_values(values@) + " }"@,
        Expression::PathElements { .. } => "<path>"@,
        Expression::EasingCurve(c) => match c {
            EasingCurve::Linear => "linear"@,
            EasingCurve::CubicBezier(a, b, c2, d) => "cubic-bezier("@ + spec_fixed_str(a as int)
                + ", "@ + spec_fixed_str(b as int) + ", "@ + spec_fixed_str(c2 as int) + ", "@
                + spec_fixed_str(d as int) + seq![')'],
        },
        Expression::LinearGradient { angle, stops } => "@linear-gradient("@ + spec_pretty(
            *angle,
        ) + spec_pretty_stops(stops@) + seq![')'],
        Expression::EnumerationValue(v) => v.enumeration@.name + seq!['.'] + (if 0 <= v.value
            < v.enumeration.values@.len() {
            v.enumeration.values@[v.value as int]@
        } else {
            spec_dec_str(v.value as nat)
        }),
        Expression::ReturnStatement(sub) => "return "@ + (match sub {
            Some(x) => spec_pretty(*x),
            Option::None => Seq::empty(),
        }),
        Expression::LayoutCacheAccess { layout_cache_prop, index, repeater_index } => spec_nr_str(
            layout_cache_prop,
        ) + seq!['['] + spec_dec_str(index as nat) + (if repeater_index is Some {
            " + $index"@
        } else {
            Seq::empty()
        }) + seq![']'],
        Expression::ComputeLayoutInfo(_, _) => "layout_info(..)"@,
        Expression::SolveLayout(_, _) => "solve_layout(..)"@,
    }
}

/// The renderings of a list of expressions, each followed by the separator.
pub open spec fn spec_pretty_exprs(s: Seq<Expression>, sep: Seq<char>) -> Seq<char>
    decreases s, 0int, 0int,
{
    if s.len() == 0 {
        Seq::empty()
    } else {
        spec_pretty(s[0]) + sep + spec_pretty_exprs(s.skip(1), sep)
    }
}

/// The renderings of named struct values, `name: value, ` each.
pub open spec fn spec_pretty_values(s: Seq<(String, Expression)>) -> Seq<char>
    decreases s, 0int, 0int,
{
    if s.len() == 0 {
        Seq::empty()
    } else {
        s[0].0@ + ": "@ + spec_pretty(s[0].1) + ", "@ + spec_pretty_values(s.skip(1))
    }
}

/// The renderings of gradient stops, `, color  position` each.
pub open spec fn spec_pretty_stops(s: Seq<(Expression, Expression)>) -> Seq<char>
    decreases s, 0int, 0int,
{
    if s.len() == 0 {
        Seq::empty()
    } else {
        ", "@ + spec_pretty(s[0].0) + "  "@ + spec_pretty(s[0].1) + spec_pretty_stops(s.skip(1))
    }
}

/// Print an expression as language-like text, for diagnostics.
pub fn pretty_print(expression: &Expression) -> (r: String)
    ensures
        r@ == spec_pretty(*expression),
    decreases *expression, 1int, 0int,
{
    match expression {
        Expression::Invalid => String::from_str("<invalid>"),
        Expression::Uncompiled(_) => String::from_str("<uncompiled>"),
        Expression::TwoWayBinding(nr, sub) => {
            let mut out = String::from_str("<=>");
            out.append(nr_to_string(nr).as_str());
            match sub {
                Some(x) => {
                    out.append(":");
                    proof {
                        reveal_strlit(":");
                    }
                    out.append(pretty_print(x).as_str());
                }
                Option::None => {}
            }
            proof {
                assert(out@ =~= spec_pretty(*expression));
            }
            out
        }
        Expression::StringLiteral(st) => {
            let mut out = String::from_str("\"");
            out.append(st.as_str());
            out.append("\"");
            proof {
                reveal_strlit("\"");
                assert(out@ =~= spec_pretty(*expression));
            }
            out
        }
        Expression::NumberLiteral(v, u) => {
            let mut out = fixed_to_string(*v);
            out.append(u.to_string().as_str());
            out
        }
        Expression::BoolLiteral(b) => {
            if *b {
                String::from_str("true")
            } else {
                String::from_str("false")
            }
        }
        Expression::CallbackReference(nr) => nr_to_string(nr),
        Expression::PropertyReference(nr) => nr_to_string(nr),
        Expression::BuiltinFunctionReference(f, _) => builtin_fn_name(f),
        Expression::MemberFunction { base, member, .. } => {
            let mut out = pretty_print(base);
            out.append(".");
            proof {
                reveal_strlit(".");
            }
            out.append(pretty_print(member).as_str());
            proof {
                assert(out@ =~= spec_pretty(*expression));
            }
            out
        }
        Expression::BuiltinMacroReference(m, _) => builtin_macro_name(m),
        Expression::ElementReference(i) => {
            let mut out = String::from_str("#");
            out.append(u128_to_string(*i as u128).as_str());
            proof {
                reveal_strlit("#");
                assert(out@ =~= spec_pretty(*expression));
            }
            out
        }
        Expression::RepeaterIndexReference { element } => {
            let mut out = String::from_str("#");
            out.append(u128_to_string(*element as u128).as_str());
            out.append(".$index");
            proof {
                reveal_strlit("#");
                assert(out@ =~= spec_pretty(*expression));
            }
            out
        }
        Expression::RepeaterModelReference { element } => {
            let mut out = String::from_str("#");
            out.append(u128_to_string(*element as u128).as_str());
            out.append(".@model");
            proof {
                reveal_strlit("#");
                assert(out@ =~= spec_pretty(*expression));
            }
            out
        }
        Expression::FunctionParameterReference { index, .. } => {
            let mut out = String::from_str("_arg_");
            out.append(u128_to_string(*index as u128).as_str());
            out
        }
        Expression::StoreLocalVariable { name, value } => {
            let mut out = name.clone();
            out.append(" = ");
            out.append(pretty_print(value).as_str());
            proof {
                assert(out@ =~= spec_pretty(*expression));
            }
            out
        }
        Expression::ReadLocalVariable { name, .. } => name.clone(),
        Expression::StructFieldAccess { base, name } => {
            let mut out = pretty_print(base);
            out.append(".");
            proof {
                reveal_strlit(".");
            }
            out.append(name.as_str());
            proof {
                assert(out@ =~= spec_pretty(*expression));
            }
            out
        }
        Expression::Cast { from, .. } => {
            let mut out = String::from_str("(");
            out.append(pretty_print(from).as_str());
            out.append(" as value)");
            proof {
                reveal_strlit("(");
                assert(out@ =~= spec_pretty(*expression));
            }
            out
        }
        Expression::CodeBlock(sub) => {
            let mut out = String::from_str("{ ");
            out.append(pretty_exprs(sub, "; ", 0, Ghost(*expression)).as_str());
            out.append("}");
            proof {
                reveal_strlit("}");
                assert(sub@.skip(0) =~= sub@);
                assert(out@ =~= spec_pretty(*expression));
            }
            out
        }
        Expression::FunctionCall { function, arguments, .. } => {
            let mut out = pretty_print(function);
            out.append("(");
            proof {
                reveal_strlit("(");
            }
            out.append(pretty_exprs(arguments, ", ", 0, Ghost(*expression)).as_str());
            out.append(")");
            proof {
                reveal_strlit(")");
                assert(arguments@.skip(0) =~= arguments@);
                assert(out@ =~= spec_pretty(*expression));
            }
            out
        }
        Expression::SelfAssignment { lhs, rhs, op } => {
            let mut out = pretty_print(lhs);
            out.append(" ");
            proof {
                reveal_strlit(" ");
            }
            if *op == '=' {
                out.append(" ");
            } else {
                out.append(char_to_string(*op).as_str());
            }
            out.append("= ");
            out.append(pretty_print(rhs).as_str());
            proof {
                reveal_strlit(" ");
                assert(" "@ =~= seq![' ']);
                assert(out@ =~= spec_pretty(*expression));
            }
            out
        }
        Expression::BinaryExpression { lhs, rhs, op } => {
            let mut out = String::from_str("(");
            out.append(pretty_print(lhs).as_str());
            if *op == '=' || *op == '!' {
                out.append(" ");
                out.append(char_to_string(*op).as_str());
                out.append("=");
                out.append(" ");
            } else {
                out.append(" ");
                out.append(char_to_string(*op).as_str());
                out.append(" ");
            }
            out.append(pretty_print(rhs).as_str());
            out.append(")");
            proof {
                reveal_strlit("(");
                reveal_strlit(")");
                reveal_strlit(" ");
                reveal_strlit("=");
                assert(out@ =~= spec_pretty(*expression));
            }
            out
        }
        Expression::UnaryOp { sub, op } => {
            let mut out = char_to_string(*op);
            out.append(pretty_print(sub).as_str());
            proof {
                assert(out@ =~= spec_pretty(*expression));
            }
            out
        }
        Expression::ImageReference(ir) => {
            match ir {
                ImageReference::NoImage => String::from_str("@image-url(none)"),
                ImageReference::AbsolutePath(p) => {
                    let mut out = String::from_str("@image-url(\"");
                    out.append(p.as_str());
                    out.append("\")");
                    proof {
                        assert(out@ =~= spec_pretty(*expression));
                    }
                    out
                }
                ImageReference::EmbeddedData(d) => {
                    let mut out = String::from_str("@image-url(#");
                    out.append(u128_to_string(*d as u128).as_str());
                    out.append(")");
                    proof {
                        reveal_strlit(")");
                        assert(out@ =~= spec_pretty(*expression));
                    }
                    out
                }
            }
        }
        Expression::Condition { condition, true_expr, false_expr } => {
            let mut out = String::from_str("if (");
            out.append(pretty_print(condition).as_str());
            out.append(") { ");
            out.append(pretty_print(true_expr).as_str());
            out.append(" } else { ");
            out.append(pretty_print(false_expr).as_str());
            out.append(" }");
            proof {
                assert(out@ =~= spec_pretty(*expression));
            }
            out
        }
        Expression::Array { values, .. } => {
            let mut out = String::from_str("[");
            out.append(pretty_exprs(values, ", ", 0, Ghost(*expression)).as_str());
            out.append("]");
            proof {
                reveal_strlit("[");
                reveal_strlit("]");
                assert(values@.skip(0) =~= values@);
                assert(out@ =~= spec_pretty(*expression));
            }
            out
        }
        Expression::Struct { values, .. } => {
            let mut out = String::from_str("{ ");
            out.append(pretty_values(values, 0, Ghost(*expression)).as_str());
            out.append(" }");
            proof {
                assert(values@.skip(0) =~= values@);
                assert(out@ =~= spec_pretty(*expression));
            }
            out
        }
        Expression::PathElements { .. } => String::from_str("<path>"),
        Expression::EasingCurve(c) => {
            match c {
                EasingCurve::Linear => String::from_str("linear"),
                EasingCurve::CubicBezier(a, b, c2, d) => {
                    let mut out = String::from_str("cubic-bezier(");
                    out.append(fixed_to_string(*a).as_str());
                    out.append(", ");
                    out.append(fixed_to_string(*b).as_str());
                    out.append(", ");
                    out.append(fixed_to_string(*c2).as_str());
                    out.append(", ");
                    out.append(fixed_to_string(*d).as_str());
                    out.append(")");
                    proof {
                        reveal_strlit(")");
                        assert(out@ =~= spec_pretty(*expression));
                    }
                    out
                }
            }
        }
        Expression::LinearGradient { angle, stops } => {
            let mut out = String::from_str("@linear-gradient(");
            out.append(pretty_print(angle).as_str());
            out.append(pretty_stops(stops, 0, Ghost(*expression)).as_str());
            out.append(")");
            proof {
                reveal_strlit(")");
                assert(stops@.skip(0) =~= stops@);
                assert(out@ =~= spec_pretty(*expression));
            }
            out
        }
        Expression::EnumerationValue(v) => {
            let mut out = v.enumeration.name.clone();
            out.append(".");
            proof {
                reveal_strlit(".");
            }
            if v.value < v.enumeration.values.len() {
                out.append(v.enumeration.values[v.value].as_str());
            } else {
                out.append(u128_to_string(v.value as u128).as_str());
            }
            proof {
                assert(out@ =~= spec_pretty(*expression));
            }
            out
        }
        Expression::ReturnStatement(sub) => {
            let mut out = String::from_str("return ");
            match sub {
                Some(x) => {
                    out.append(pretty_print(x).as_str());
                }
                Option::None => {}
            }
            proof {
                assert(out@ =~= spec_pretty(*expression));
            }
            out
        }
        Expression::LayoutCacheAccess { layout_cache_prop, index, repeater_index } => {
            let mut out = nr_to_string(layout_cache_prop);
            out.append("[");
            proof {
                reveal_strlit("[");
            }
            out.append(u128_to_string(*index as u128).as_str());
            if repeater_index.is_some() {
                out.append(" + $index");
            }
            out.append("]");
            proof {
                reveal_strlit("]");
                assert(out@ =~= spec_pretty(*expression));
            }
            out
        }
        Expression::ComputeLayoutInfo(_, _) => String::from_str("layout_info(..)"),
        Expression::SolveLayout(_, _) => String::from_str("solve_layout(..)"),
    }
}

/// Render each expression of a list from an index on, the separator after
/// each.
fn pretty_exprs(s: &Vec<Expression>, sep: &str, from: usize, parent: Ghost<Expression>) -> (r:
    String)
    requires
        from <= s@.len(),
        (parent@ matches Expression::CodeBlock(s2) && s2 == *s) || (parent@ matches
            Expression::FunctionCall { arguments: a2, .. } && a2 == *s) || (parent@ matches
            Expression::Array { values: v2, .. } && v2 == *s),
    ensures
        r@ == spec_pretty_exprs(s@.skip(from as int), sep@),
    decreases parent@, 0int, s@.len() - from,
{
    if from == s.len() {
        proof {
            assert(s@.skip(from as int) =~= Seq::<Expression>::empty());
        }
        String::new()
    } else {
        proof {
            assert(decreases_to!(*s => s@[from as int]));
            assert(s@.skip(from as int)[0] == s@[from as int]);
            assert(s@.skip(from as int).skip(1) =~= s@.skip(from as int + 1));
        }
        let mut out = pretty_print(&s[from]);
        out.append(sep);
        out.append(pretty_exprs(s, sep, from + 1, parent).as_str());
        out
    }
}

/// Render the named values of a struct literal from an index on.
fn pretty_values(s: &Vec<(String, Expression)>, from: usize, parent: Ghost<Expression>) -> (r:
    String)
    requires
        from <= s@.len(),
        parent@ matches Expression::Struct { values: v2, .. } && v2 == *s,
    ensures
        r@ == spec_pretty_values(s@.skip(from as int)),
    decreases parent@, 0int, s@.len() - from,
{
    if from == s.len() {
        proof {
            assert(s@.skip(from as int) =~= Seq::<(String, Expression)>::empty());
        }
        String::new()
    } else {
        proof {
            assert(decreases_to!(*s => s@[from as int]));
            assert(decreases_to!(s@[from as int] => s@[from as int].1));
            assert(s@.skip(from as int)[0] == s@[from as int]);
            assert(s@.skip(from as int).skip(1) =~= s@.skip(from as int + 1));
        }
        let mut out = s[from].0.clone();
        out.append(": ");
        out.append(pretty_print(&s[from].1).as_str());
        out.append(", ");
        out.append(pretty_values(s, from + 1, parent).as_str());
        out
    }
}

/// Render the stops of a gradient from an index on.
fn pretty_stops(s: &Vec<(Expression, Expression)>, from: usize, parent: Ghost<Expression>) -> (r:
    String)
    requires
        from <= s@.len(),
        parent@ matches Expression::LinearGradient { stops: s2, .. } && s2 == *s,
    ensures
        r@ == spec_pretty_stops(s@.skip(from as int)),
    decreases parent@, 0int, s@.len() - from,
{
    if from == s.len() {
        proof {
            assert(s@.skip(from as int) =~= Seq::<(Expression, Expression)>::empty());
        }
        String::new()
    } else {
        proof {
            assert(decreases_to!(*s => s@[from as int]));
            assert(decreases_to!(s@[from as int] => s@[from as int].0));
            assert(decreases_to!(s@[from as int] => s@[from as int].1));
            assert(s@.skip(from as int)[0] == s@[from as int]);
            assert(s@.skip(from as int).skip(1) =~= s@.skip(from as int + 1));
        }
        let mut out = String::from_str(", ");
        out.append(pretty_print(&s[from].0).as_str());
        out.append("  ");
        out.append(pretty_print(&s[from].1).as_str());
        out.append(pretty_stops(s, from + 1, parent).as_str());
        out
    }
}

/// Render a named reference.
fn nr_to_string(nr: &NamedReference) -> (r: String)
    ensures
        r@ == spec_nr_str(*nr),
{
    let mut out = String::from_str("#");
    out.append(u128_to_string(nr.element as u128).as_str());
    out.append(".");
    out.append(nr.name.as_str());
    proof {
        reveal_strlit("#");
        reveal_strlit(".");
        assert(out@ =~= spec_nr_str(*nr));
    }
    out
}

/// The display name of a builtin function.
fn builtin_fn_name(f: &BuiltinFunction) -> (r: String)
    ensures
        r@ == spec_builtin_fn_name(*f),
{
    match f {
        BuiltinFunction::GetWindowScaleFactor => String::from_str("GetWindowScaleFactor"),
        BuiltinFunction::Debug => String::from_str("Debug"),
        BuiltinFunction::Mod => String::from_str("Mod"),
        BuiltinFunction::Round => String::from_str("Round"),
        BuiltinFunction::Ceil => String::from_str("Ceil"),
        BuiltinFunction::Floor => String::from_str("Floor"),
        BuiltinFunction::Abs => String::from_str("Abs"),
        BuiltinFunction::Sqrt => String::from_str("Sqrt"),
        BuiltinFunction::Cos => String::from_str("Cos"),
        BuiltinFunction::Sin => String::from_str("Sin"),
        BuiltinFunction::Tan => String::from_str("Tan"),
        BuiltinFunction::ACos => String::from_str("ACos"),
        BuiltinFunction::ASin => String::from_str("ASin"),
        BuiltinFunction::ATan => String::from_str("ATan"),
        BuiltinFunction::SetFocusItem => String::from_str("SetFocusItem"),
        BuiltinFunction::ShowPopupWindow => String::from_str("ShowPopupWindow"),
        BuiltinFunction::StringToFloat => String::from_str("StringToFloat"),
        BuiltinFunction::StringIsFloat => String::from_str("StringIsFloat"),
        BuiltinFunction::ColorBrighter => String::from_str("ColorBrighter"),
        BuiltinFunction::ColorDarker => String::from_str("ColorDarker"),
        BuiltinFunction::ImageSize => String::from_str("ImageSize"),
        BuiltinFunction::Rgb => String::from_str("Rgb"),
        BuiltinFunction::ImplicitLayoutInfo(_) => String::from_str("ImplicitLayoutInfo"),
        BuiltinFunction::RegisterCustomFontByPath => String::from_str(
            "RegisterCustomFontByPath",
        ),
        BuiltinFunction::RegisterCustomFontByMemory => String::from_str(
            "RegisterCustomFontByMemory",
        ),
    }
}

/// The display name of a compiler macro.
fn builtin_macro_name(m: &BuiltinMacroFunction) -> (r: String)
    ensures
        r@ == spec_builtin_macro_name(*m),
{
    match m {
        BuiltinMacroFunction::Min => String::from_str("Min"),
        BuiltinMacroFunction::Max => String::from_str("Max"),
        BuiltinMacroFunction::CubicBezier => String::from_str("CubicBezier"),
        BuiltinMacroFunction::Rgb => String::from_str("Rgb"),
        BuiltinMacroFunction::Debug => String::from_str("Debug"),
    }
}


/// The canonical combination is exactly any canonical vector with the right
/// exponents: together with the canonical shape of every computed
/// combination, this makes multiplicative type inference deterministic and
/// idempotent, whatever order a derived unit was built in.
pub proof fn lemma_canonical_combined_is(
    l: Seq<(Unit, i32)>,
    r: Seq<(Unit, i32)>,
    divide: bool,
    s: Seq<(Unit, i32)>,
)
    requires
        crate::langtype::is_canonical_unit_vec(s),
        forall|u: Unit|
            crate::langtype::unit_exp(s, u) == crate::langtype::sat_i32(
                crate::langtype::combined_exp(l, r, divide, u),
            ),
    ensures
        spec_canonical_combined(l, r, divide) == s,
{
    let picked = spec_canonical_combined(l, r, divide);
    assert(crate::langtype::is_canonical_unit_vec(picked) && (forall|u: Unit|
        crate::langtype::unit_exp(picked, u) == crate::langtype::sat_i32(
            crate::langtype::combined_exp(l, r, divide, u),
        ))) by {
        assert(crate::langtype::is_canonical_unit_vec(s) && (forall|u: Unit|
            crate::langtype::unit_exp(s, u) == crate::langtype::sat_i32(
                crate::langtype::combined_exp(l, r, divide, u),
            )));
    }
    crate::langtype::lemma_canonical_unit_vec_unique(picked, s);
}


/// Whether an expression may stand on the left of an assignment.
pub open spec fn spec_is_lvalue(e: Expression, tree: crate::object_tree::ObjectTree) -> bool
    decreases e,
{
    match e {
        Expression::PropertyReference(nr) => nr.element < tree.elements@.len(),
        Expression::StructFieldAccess { base, .. } => spec_is_lvalue(*base, tree),
        Expression::RepeaterModelReference { .. } => true,
        _ => false,
    }
}

impl Expression {
    /// Try to mark this expression as a writable place: true when it can be
    /// assigned to, in which case the written property is recorded as set in
    /// the analysis tables.
    pub fn try_set_rw(&self, tree: &mut crate::object_tree::ObjectTree) -> (r: bool)
        requires
            crate::object_tree::tree_wf(*old(tree)),
        ensures
            crate::object_tree::tree_wf(*final(tree)),
            r == spec_is_lvalue(*self, *old(tree)),
            final(tree).elements@.len() == old(tree).elements@.len(),
            final(tree).components@ == old(tree).components@,
            final(tree).builtins@ == old(tree).builtins@,
        decreases *self,
    {
        match self {
            Expression::PropertyReference(nr) => {
                if nr.element < tree.elements.len() {
                    tree.mark_property_set(nr.element, nr.name.as_str());
                    true
                } else {
                    false
                }
            }
            Expression::StructFieldAccess { base, .. } => {
                let ghost pre = *tree;
                let r = base.try_set_rw(tree);
                proof {
                    lemma_is_lvalue_same_len(**base, *old(tree), pre);
                }
                r
            }
            Expression::RepeaterModelReference { .. } => true,
            _ => false,
        }
    }
}

/// Whether an expression is a writable place depends only on the element
/// count of the tree.
proof fn lemma_is_lvalue_same_len(
    e: Expression,
    a: crate::object_tree::ObjectTree,
    b: crate::object_tree::ObjectTree,
)
    requires
        a.elements@.len() == b.elements@.len(),
    ensures
        spec_is_lvalue(e, a) == spec_is_lvalue(e, b),
    decreases e,
{
    match e {
        Expression::StructFieldAccess { base, .. } => {
            lemma_is_lvalue_same_len(*base, a, b);
        }
        _ => {}
    }
}


/// Every named reference an expression holds, in depth-first order: the
/// reference fields first, then the sub-expressions. This is the model of
/// the one traversal entry point every rewrite pass relies on; omitting a
/// reference-bearing field here would be the dangling-reference bug the
/// design forbids.
pub open spec fn spec_expr_refs(e: Expression) -> Seq<(int, Seq<char>)>
    decreases e, 1int,
{
    match e {
        Expression::TwoWayBinding(nr, sub) => seq![crate::namedreference::nr_view(nr)] + (
        match sub {
            Some(x) => spec_expr_refs(*x),
            Option::None => Seq::empty(),
        }),
        Expression::CallbackReference(nr) => seq![crate::namedreference::nr_view(nr)],
        Expression::PropertyReference(nr) => seq![crate::namedreference::nr_view(nr)],
        Expression::LayoutCacheAccess { layout_cache_prop, repeater_index, .. } => seq![
            crate::namedreference::nr_view(layout_cache_prop),
        ] + (match repeater_index {
            Some(x) => spec_expr_refs(*x),
            Option::None => Seq::empty(),
        }),
        Expression::MemberFunction { base, member, .. } => spec_expr_refs(*base)
            + spec_expr_refs(*member),
        Expression::StoreLocalVariable { value, .. } => spec_expr_refs(*value),
        Expression::StructFieldAccess { base, .. } => spec_expr_refs(*base),
        Expression::Cast { from, .. } => spec_expr_refs(*from),
        Expression::CodeBlock(sub) => spec_exprs_refs(sub@),
        Expression::FunctionCall { function, arguments, .. } => spec_expr_refs(*function)
            + spec_exprs_refs(arguments@),
        Expression::SelfAssignment { lhs, rhs, .. } => spec_expr_refs(*lhs) + spec_expr_refs(
            *rhs,
        ),
        Expression::BinaryExpression { lhs, rhs, .. } => spec_expr_refs(*lhs) + spec_expr_refs(
            *rhs,
        ),
        Expression::UnaryOp { sub, .. } => spec_expr_refs(*sub),
        Expression::Condition { condition, true_expr, false_expr } => spec_expr_refs(*condition)
            + spec_expr_refs(*true_expr) + spec_expr_refs(*false_expr),
        Expression::Array { values, .. } => spec_exprs_refs(values@),
        Expression::Struct { values, .. } => spec_values_refs(values@),
        Expression::PathElements { elements } => match elements {
            Path::Elements(els) => spec_path_elements_refs(els@),
            Path::Events(_) => Seq::empty(),
        },
        Expression::LinearGradient { angle, stops } => spec_expr_refs(*angle) + spec_stops_refs(
            stops@,
        ),
        Expression::ReturnStatement(sub) => match sub {
            Some(x) => spec_expr_refs(*x),
            Option::None => Seq::empty(),
        },
        _ => Seq::empty(),
    }
}

pub open spec fn spec_exprs_refs(s: Seq<Expression>) -> Seq<(int, Seq<char>)>
    decreases s, 0int,
{
    if s.len() == 0 {
        Seq::empty()
    } else {
        spec_expr_refs(s[0]) + spec_exprs_refs(s.skip(1))
    }
}

pub open spec fn spec_values_refs(s: Seq<(String, Expression)>) -> Seq<(int, Seq<char>)>
    decreases s, 0int,
{
    if s.len() == 0 {
        Seq::empty()
    } else {
        spec_expr_refs(s[0].1) + spec_values_refs(s.skip(1))
    }
}

pub open spec fn spec_stops_refs(s: Seq<(Expression, Expression)>) -> Seq<(int, Seq<char>)>
    decreases s, 0int,
{
    if s.len() == 0 {
        Seq::empty()
    } else {
        spec_expr_refs(s[0].0) + spec_expr_refs(s[0].1) + spec_stops_refs(s.skip(1))
    }
}

pub open spec fn spec_path_elements_refs(s: Seq<PathElement>) -> Seq<(int, Seq<char>)>
    decreases s, 1int,
{
    if s.len() == 0 {
        Seq::empty()
    } else {
        spec_path_bindings_refs(s[0].bindings@) + spec_path_elements_refs(s.skip(1))
    }
}

pub open spec fn spec_path_bindings_refs(s: Seq<(String, BindingExpression)>) -> Seq<
    (int, Seq<char>),
>
    decreases s, 0int,
{
    if s.len() == 0 {
        Seq::empty()
    } else {
        spec_expr_refs(s[0].1.expression) + spec_path_bindings_refs(s.skip(1))
    }
}

} // verus!
// Type inference over expressions lives below; it needs the object tree for
// named references and repeater models.
