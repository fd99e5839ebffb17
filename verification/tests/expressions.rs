use uitree::diagnostics::{BuildDiagnostics, Span};
use uitree::expression::{operator_class, Expression, OperatorClass};
use uitree::langtype::{type_eq, Type};
use uitree::object_tree::ObjectTree;
use uitree::units::{Unit, FIXED_ONE};

fn px(v: i128) -> Expression {
    Expression::NumberLiteral(v * FIXED_ONE, Unit::Px)
}

fn phx(v: i128) -> Expression {
    Expression::NumberLiteral(v * FIXED_ONE, Unit::Phx)
}

fn seconds(v: i128) -> Expression {
    Expression::NumberLiteral(v * FIXED_ONE, Unit::S)
}

fn plain(v: i128) -> Expression {
    Expression::NumberLiteral(v * FIXED_ONE, Unit::Unitless)
}

fn binop(lhs: Expression, op: char, rhs: Expression) -> Expression {
    Expression::BinaryExpression { lhs: Box::new(lhs), rhs: Box::new(rhs), op }
}

#[test]
fn operator_classes() {
    assert_eq!(operator_class('='), OperatorClass::ComparisonOp);
    assert_eq!(operator_class('<'), OperatorClass::ComparisonOp);
    assert_eq!(operator_class('&'), OperatorClass::LogicalOp);
    assert_eq!(operator_class('+'), OperatorClass::ArithmeticOp);
    assert_eq!(operator_class('/'), OperatorClass::ArithmeticOp);
}

#[test]
fn multiplication_builds_canonical_unit_products() {
    let tree = ObjectTree::new();
    // px * px gives the squared length dimension.
    let squared = binop(px(2), '*', px(3)).ty(&tree);
    match &squared {
        Type::UnitProduct(v) => {
            assert_eq!(v.len(), 1);
            assert_eq!(v[0], (Unit::Px, 2));
        }
        other => panic!("expected a unit product, got {:?}", describe(other)),
    }
    // px * s sorts by descending exponent, then unit order.
    let mixed = binop(px(2), '*', seconds(3)).ty(&tree);
    match &mixed {
        Type::UnitProduct(v) => {
            assert_eq!(v.len(), 2);
            assert_eq!(v[0], (Unit::Px, 1));
            assert_eq!(v[1], (Unit::Ms, 1));
        }
        other => panic!("expected a unit product, got {:?}", describe(other)),
    }
    // px / phx keeps the positive exponent first.
    let ratio = binop(px(2), '/', phx(3)).ty(&tree);
    match &ratio {
        Type::UnitProduct(v) => {
            assert_eq!(v.len(), 2);
            assert_eq!(v[0], (Unit::Px, 1));
            assert_eq!(v[1], (Unit::Phx, -1));
        }
        other => panic!("expected a unit product, got {:?}", describe(other)),
    }
}

#[test]
fn division_cancels_to_dimensionless_and_single_units_collapse() {
    let tree = ObjectTree::new();
    // px / px cancels to a plain number.
    let cancelled = binop(px(4), '/', px(2)).ty(&tree);
    assert!(matches!(cancelled, Type::Float32));
    // (px * s) / s collapses back to the length type.
    let collapsed = binop(binop(px(2), '*', seconds(3)), '/', seconds(3)).ty(&tree);
    assert!(matches!(collapsed, Type::LogicalLength));
}

#[test]
fn repeated_inference_is_idempotent() {
    let tree = ObjectTree::new();
    let product = binop(px(2), '*', seconds(3));
    let t1 = product.ty(&tree);
    let t2 = product.ty(&tree);
    assert!(type_eq(&t1, &t2));
    // Wrapping the inferred type in a cast and multiplying by a plain one
    // keeps the canonical vector unchanged.
    let cast = Expression::Cast { from: Box::new(product), to: uitree::langtype::clone_type(&t1) };
    let again = binop(cast, '*', plain(1)).ty(&tree);
    assert!(type_eq(&t1, &again));
}

#[test]
fn comparison_yields_bool_and_mismatched_addition_is_invalid() {
    let tree = ObjectTree::new();
    let cmp = binop(px(1), '<', px(2)).ty(&tree);
    assert!(matches!(cmp, Type::Bool));
    // length + plain number has no type.
    let bad = binop(px(2), '+', plain(3)).ty(&tree);
    assert!(matches!(bad, Type::Invalid));
    // length + length is fine.
    let good = binop(px(2), '+', px(3)).ty(&tree);
    assert!(matches!(good, Type::LogicalLength));
}

#[test]
fn incompatible_addition_reports_at_the_operator() {
    // Scenario: the source wrote `2px + 3`.
    let tree = ObjectTree::new();
    let mut diag = BuildDiagnostics::new();
    let node = uitree::syntax::ExprNode::Binary {
        op: '+',
        lhs: Box::new(uitree::syntax::ExprNode::Number(
            2 * FIXED_ONE,
            Unit::Px,
            Span::new(0, 3),
        )),
        rhs: Box::new(uitree::syntax::ExprNode::Number(
            3 * FIXED_ONE,
            Unit::Unitless,
            Span::new(6, 7),
        )),
        op_span: Span::new(4, 5),
    };
    let expr = uitree::passes::resolve_exprs::resolve_expression(&node, &tree, &mut diag);
    assert!(matches!(expr.ty(&tree), Type::Invalid));
    assert!(diag.has_error());
    assert_eq!(diag.diags.len(), 1);
    assert_eq!(diag.diags[0].span.start, 4);
    assert_eq!(diag.diags[0].span.end, 5);
}

#[test]
fn percent_converts_to_float_via_scaling() {
    let tree = ObjectTree::new();
    let mut diag = BuildDiagnostics::new();
    let pct = Expression::NumberLiteral(50 * FIXED_ONE, Unit::Percent);
    let converted = pct.maybe_convert_to(&Type::Float32, &tree, Span::new(0, 0), &mut diag);
    assert!(matches!(converted.ty(&tree), Type::Float32));
    assert_eq!(diag.diags.len(), 0);
    match converted {
        Expression::Cast { from, .. } => match *from {
            Expression::BinaryExpression { op, .. } => assert_eq!(op, '*'),
            _ => panic!("expected the percent scaling"),
        },
        _ => panic!("expected a cast"),
    }
}

#[test]
fn struct_conversion_fills_missing_fields_with_defaults() {
    let tree = ObjectTree::new();
    let mut diag = BuildDiagnostics::new();
    let narrow = Type::Struct {
        fields: vec![uitree::langtype::StructField {
            name: String::from("x"),
            ty: Type::Float32,
        }],
        name: None,
    };
    let wide = Type::Struct {
        fields: vec![
            uitree::langtype::StructField { name: String::from("x"), ty: Type::Float32 },
            uitree::langtype::StructField { name: String::from("y"), ty: Type::Bool },
        ],
        name: None,
    };
    assert!(narrow.can_convert(&wide));
    let value = Expression::Struct {
        ty: narrow,
        values: vec![(String::from("x"), plain(1))],
    };
    let converted = value.maybe_convert_to(&wide, &tree, Span::new(0, 0), &mut diag);
    // The conversion never yields an invalid type when it is allowed.
    let ty = converted.ty(&tree);
    assert!(!matches!(ty, Type::Invalid));
    assert!(type_eq(&ty, &wide));
    match converted {
        Expression::Struct { values, .. } => {
            assert_eq!(values.len(), 2);
            assert_eq!(values[1].0, String::from("y"));
            assert!(matches!(values[1].1, Expression::BoolLiteral(false)));
        }
        _ => panic!("expected a struct literal"),
    }
    assert_eq!(diag.diags.len(), 0);
}

#[test]
fn struct_values_convert_into_components_through_their_property_struct() {
    let mut tree = ObjectTree::new();
    let mut diag = BuildDiagnostics::new();
    // A component whose root declares one integer property.
    let mut root = uitree::object_tree::Element::new(String::from("root"), Type::Void, None);
    root.property_declarations.push((
        String::from("x"),
        uitree::object_tree::PropertyDeclaration {
            property_type: Type::Int32,
            node_span: None,
            expose_in_public_api: false,
            is_alias: None,
        },
    ));
    let r = tree.push_element(root);
    let c = tree.push_component(uitree::object_tree::Component::new(String::from("Box"), r));
    let source = Type::Struct {
        fields: vec![uitree::langtype::StructField { name: String::from("x"), ty: Type::Int32 }],
        name: None,
    };
    assert!(source.can_convert(&Type::Component(c)));
    let value = Expression::Struct { ty: source, values: vec![(String::from("x"), plain(4))] };
    let converted = value.maybe_convert_to(&Type::Component(c), &tree, Span::new(0, 0), &mut diag);
    assert!(type_eq(&converted.ty(&tree), &Type::Component(c)));
    match converted {
        Expression::Cast { from, to } => {
            assert!(matches!(to, Type::Component(_)));
            // The cast converts through the component's property struct.
            match *from {
                Expression::Struct { values, .. } => {
                    assert_eq!(values.len(), 1);
                    assert_eq!(values[0].0, String::from("x"));
                }
                _ => panic!("expected a struct literal under the cast"),
            }
        }
        _ => panic!("expected a cast"),
    }
    assert_eq!(diag.diags.len(), 0);
}

#[test]
fn zero_literal_converts_to_any_unit_and_failures_report_once() {
    let tree = ObjectTree::new();
    let mut diag = BuildDiagnostics::new();
    let zero = Expression::NumberLiteral(0, Unit::Unitless);
    let converted = zero.maybe_convert_to(&Type::Duration, &tree, Span::new(0, 0), &mut diag);
    assert!(matches!(converted, Expression::NumberLiteral(0, Unit::Ms)));
    assert_eq!(diag.diags.len(), 0);
    // A nonzero plain number does not convert to a duration.
    let bad = plain(3).maybe_convert_to(&Type::Duration, &tree, Span::new(1, 2), &mut diag);
    assert!(matches!(bad, Expression::NumberLiteral(_, Unit::Unitless)));
    assert_eq!(diag.diags.len(), 1);
    assert!(diag.has_error());
}

fn describe(t: &Type) -> &'static str {
    match t {
        Type::Invalid => "invalid",
        Type::Float32 => "float",
        Type::UnitProduct(_) => "unit product",
        _ => "other",
    }
}

#[test]
fn pretty_printing_renders_canonically() {
    let print = |e: &Expression| uitree::expression::pretty_print(e);
    assert_eq!(print(&Expression::Invalid), String::from("<invalid>"));
    assert_eq!(print(&px(2)), String::from("2px"));
    assert_eq!(
        print(&Expression::NumberLiteral(-3 * FIXED_ONE, Unit::Cm)),
        String::from("-3cm")
    );
    assert_eq!(
        print(&Expression::NumberLiteral(FIXED_ONE / 2, Unit::S)),
        String::from("500000e-6s")
    );
    assert_eq!(
        print(&binop(px(1), '+', px(2))),
        String::from("(1px + 2px)")
    );
    assert_eq!(
        print(&binop(plain(1), '=', plain(2))),
        String::from("(1 == 2)")
    );
    assert_eq!(
        print(&Expression::Condition {
            condition: Box::new(Expression::BoolLiteral(true)),
            true_expr: Box::new(plain(1)),
            false_expr: Box::new(plain(2)),
        }),
        String::from("if (true) { 1 } else { 2 }")
    );
    assert_eq!(
        print(&Expression::StringLiteral(String::from("hi"))),
        String::from("\"hi\"")
    );
    assert_eq!(
        print(&Expression::Array { element_ty: Type::Float32, values: vec![plain(1), plain(2)] }),
        String::from("[1, 2, ]")
    );
    assert_eq!(
        print(&Expression::PropertyReference(uitree::namedreference::NamedReference::new(
            3,
            String::from("width"),
        ))),
        String::from("#3.width")
    );
    assert_eq!(
        print(&Expression::UnaryOp { sub: Box::new(plain(7)), op: '-' }),
        String::from("-7")
    );
}

#[test]
fn constant_expressions_are_recognized() {
    let tree = ObjectTree::new();
    assert!(plain(1).is_constant(&tree));
    assert!(Expression::StringLiteral(String::from("x")).is_constant(&tree));
    assert!(binop(plain(1), '+', plain(2)).is_constant(&tree));
    assert!(!Expression::CallbackReference(uitree::namedreference::NamedReference::new(
        0,
        String::from("clicked"),
    ))
    .is_constant(&tree));
    // A reference to a missing element is never constant.
    assert!(!Expression::PropertyReference(uitree::namedreference::NamedReference::new(
        9,
        String::from("width"),
    ))
    .is_constant(&tree));
    // A code block is constant only when it is a single constant expression.
    assert!(Expression::CodeBlock(vec![plain(1)]).is_constant(&tree));
    assert!(!Expression::CodeBlock(vec![plain(1), plain(2)]).is_constant(&tree));
}

#[test]
fn default_values_follow_the_type() {
    let tree = ObjectTree::new();
    let d = Expression::default_value_for_type(&Type::Bool);
    assert!(matches!(d, Expression::BoolLiteral(false)));
    let d = Expression::default_value_for_type(&Type::Percent);
    match d {
        Expression::NumberLiteral(v, Unit::Percent) => assert_eq!(v, 100 * FIXED_ONE),
        _ => panic!("expected a percent literal"),
    }
    let d = Expression::default_value_for_type(&Type::Duration);
    assert!(matches!(d.ty(&tree), Type::Duration));
    let d = Expression::default_value_for_type(&Type::Str);
    assert!(matches!(d, Expression::StringLiteral(_)));
}
