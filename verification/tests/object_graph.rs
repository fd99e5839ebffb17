use uitree::builder::{component_from_node, element_from_node, Document};
use uitree::diagnostics::{BuildDiagnostics, Span};
use uitree::expression::Expression;
use uitree::langtype::{Type, StructField};
use uitree::object_tree::{BuiltinElement, BuiltinPropertyInfo, ObjectTree};
use uitree::syntax::{
    BindingNode, ComponentNode, ElementNode, ExprNode, PropertyDeclNode, QualifiedNameNode,
    TwoWayBindingNode,
};
use uitree::typeregister::TypeRegister;
use uitree::units::{Unit, FIXED_ONE};

fn sp() -> Span {
    Span::new(0, 0)
}

/// A tree with one builtin rectangle class, and a register exposing it and
/// the plain type names.
fn setup() -> (ObjectTree, TypeRegister) {
    let mut tree = ObjectTree::new();
    tree.builtins.push(BuiltinElement {
        name: String::from("Rect"),
        native_class: 0,
        properties: vec![
            (
                String::from("width"),
                BuiltinPropertyInfo { ty: Type::LogicalLength, default_value: None },
            ),
            (
                String::from("height"),
                BuiltinPropertyInfo {
                    ty: Type::LogicalLength,
                    default_value: Some(Expression::NumberLiteral(7 * FIXED_ONE, Unit::Px)),
                },
            ),
        ],
        deprecated_aliases: vec![(String::from("breadth"), String::from("width"))],
        is_global: false,
    });
    let mut reg = TypeRegister::new(None);
    reg.insert_type_with_name(String::from("Rect"), Type::Builtin(0));
    reg.insert_type_with_name(String::from("length"), Type::LogicalLength);
    reg.insert_type_with_name(String::from("int"), Type::Int32);
    (tree, reg)
}

fn empty_element(base: &str) -> ElementNode {
    ElementNode {
        base: Some(QualifiedNameNode { members: vec![String::from(base)], span: sp() }),
        span: sp(),
        property_declarations: vec![],
        bindings: vec![],
        two_way_bindings: vec![],
        callback_declarations: vec![],
        callback_connections: vec![],
        property_animations: vec![],
        children: vec![],
        states: vec![],
        transitions: vec![],
    }
}

fn two_way(prop: &str) -> TwoWayBindingNode {
    TwoWayBindingNode {
        elem_id: None,
        prop_name: String::from(prop),
        init: None,
        span: sp(),
    }
}

#[test]
fn length_property_binding_normalizes_centimeters() {
    // Scenario: the source declares `property<length> x: 5cm;`.
    let (mut tree, reg) = setup();
    let mut diag = BuildDiagnostics::new();
    let mut node = empty_element("Rect");
    node.property_declarations.push(PropertyDeclNode {
        type_node: Some(uitree::syntax::TypeNode {
            kind: uitree::syntax::TypeNodeKind::Qualified(QualifiedNameNode {
                members: vec![String::from("length")],
                span: sp(),
            }),
            span: sp(),
        }),
        name: String::from("x"),
        name_span: sp(),
        binding: Some(ExprNode::Number(5 * FIXED_ONE, Unit::Cm, sp())),
        two_way: None,
    });
    let component = component_from_node(
        &mut tree,
        &ComponentNode { id: String::from("App"), id_span: sp(), element: node },
        &mut diag,
        &reg,
    );
    uitree::passes::resolve_exprs::resolve_binding_expressions(&mut tree, &mut diag);
    assert!(!diag.has_error());
    let root = tree.components[component].root_element;
    // The declared type is the logical length type.
    let looked_up = tree.lookup_property(root, "x");
    assert!(matches!(looked_up.property_type, Type::LogicalLength));
    // The literal was normalized: five centimeters are 5 * 37.8 logical
    // pixels, stored in fixed-point millionths.
    let idx = uitree::object_tree::assoc_find_binding(&tree.elements[root].bindings, "x")
        .expect("binding");
    match &tree.elements[root].bindings[idx].1.expression {
        Expression::NumberLiteral(v, u) => {
            assert_eq!(*v, 189 * FIXED_ONE);
            assert_eq!(*u, Unit::Cm);
        }
        _ => panic!("expected a number literal"),
    }
    let ty = tree.elements[root].bindings[idx].1.expression.ty(&tree);
    assert!(matches!(ty, Type::LogicalLength));
}

#[test]
fn alias_takes_the_type_of_its_target() {
    // Scenario: `foo <=> bar` where bar is declared `property<int> bar: 3;`
    // and foo has no declared type.
    let (mut tree, reg) = setup();
    let mut diag = BuildDiagnostics::new();
    let mut node = empty_element("Rect");
    node.property_declarations.push(PropertyDeclNode {
        type_node: Some(uitree::syntax::TypeNode {
            kind: uitree::syntax::TypeNodeKind::Qualified(QualifiedNameNode {
                members: vec![String::from("int")],
                span: sp(),
            }),
            span: sp(),
        }),
        name: String::from("bar"),
        name_span: sp(),
        binding: Some(ExprNode::Number(3 * FIXED_ONE, Unit::Unitless, sp())),
        two_way: None,
    });
    node.property_declarations.push(PropertyDeclNode {
        type_node: None,
        name: String::from("foo"),
        name_span: sp(),
        binding: None,
        two_way: Some(two_way("bar")),
    });
    let component = component_from_node(
        &mut tree,
        &ComponentNode { id: String::from("App"), id_span: sp(), element: node },
        &mut diag,
        &reg,
    );
    let doc = Document {
        node_span: sp(),
        inner_components: vec![component],
        inner_structs: vec![],
        root_component: Some(component),
        local_registry: reg,
        custom_fonts: vec![],
        exports: uitree::builder::Exports { entries: vec![] },
    };
    uitree::passes::infer_aliases::resolve_aliases(&mut tree, &doc, &mut diag);
    assert!(!diag.has_error());
    let root = tree.components[component].root_element;
    let foo = tree.lookup_property(root, "foo");
    assert!(matches!(foo.property_type, Type::Int32));
}

#[test]
fn cyclic_aliases_terminate_with_a_diagnostic() {
    // Scenario: `a <=> b` and `b <=> a`, both without a declared type.
    let (mut tree, reg) = setup();
    let mut diag = BuildDiagnostics::new();
    let mut node = empty_element("Rect");
    node.property_declarations.push(PropertyDeclNode {
        type_node: None,
        name: String::from("a"),
        name_span: sp(),
        binding: None,
        two_way: Some(two_way("b")),
    });
    node.property_declarations.push(PropertyDeclNode {
        type_node: None,
        name: String::from("b"),
        name_span: sp(),
        binding: None,
        two_way: Some(two_way("a")),
    });
    let component = component_from_node(
        &mut tree,
        &ComponentNode { id: String::from("App"), id_span: sp(), element: node },
        &mut diag,
        &reg,
    );
    let doc = Document {
        node_span: sp(),
        inner_components: vec![component],
        inner_structs: vec![],
        root_component: Some(component),
        local_registry: reg,
        custom_fonts: vec![],
        exports: uitree::builder::Exports { entries: vec![] },
    };
    uitree::passes::infer_aliases::resolve_aliases(&mut tree, &doc, &mut diag);
    // Resolution terminated (or this test would hang), a diagnostic was
    // pushed, and at least one of the two properties is invalid.
    assert!(diag.has_error());
    let root = tree.components[component].root_element;
    let a = tree.lookup_property(root, "a");
    let b = tree.lookup_property(root, "b");
    let a_invalid = matches!(a.property_type, Type::Invalid);
    let b_invalid = matches!(b.property_type, Type::Invalid);
    assert!(a_invalid || b_invalid);
    // Neither keeps the void placeholder.
    assert!(!matches!(a.property_type, Type::Void));
    assert!(!matches!(b.property_type, Type::Void));
}

#[test]
fn duplicate_bindings_report_exactly_one_error() {
    let (mut tree, reg) = setup();
    let mut diag = BuildDiagnostics::new();
    let mut node = empty_element("Rect");
    node.bindings.push(BindingNode {
        name: String::from("width"),
        name_span: Span::new(10, 15),
        expr: ExprNode::Number(1 * FIXED_ONE, Unit::Px, sp()),
    });
    node.bindings.push(BindingNode {
        name: String::from("width"),
        name_span: Span::new(20, 25),
        expr: ExprNode::Number(2 * FIXED_ONE, Unit::Px, sp()),
    });
    let mut cip = None;
    let elem = element_from_node(
        &mut tree,
        &node,
        String::from("r"),
        &Type::Invalid,
        &mut cip,
        &mut diag,
        &reg,
    );
    // Exactly one error, and it points at the second binding, so the first
    // binding's place in the report is not silently overwritten.
    let errors: Vec<_> = tree_errors(&diag);
    assert_eq!(errors.len(), 1);
    assert_eq!(errors[0].0, 20);
    assert_eq!(errors[0].1, 25);
    // The map still has a single entry for the property.
    let count = tree.elements[elem]
        .bindings
        .iter()
        .filter(|(n, _)| n == "width")
        .count();
    assert_eq!(count, 1);
}

fn tree_errors(diag: &BuildDiagnostics) -> Vec<(usize, usize)> {
    diag.diags
        .iter()
        .filter(|d| matches!(d.level, uitree::diagnostics::DiagnosticLevel::Error))
        .map(|d| (d.span.start, d.span.end))
        .collect()
}

#[test]
fn deprecated_property_names_bind_with_a_warning() {
    let (mut tree, reg) = setup();
    let mut diag = BuildDiagnostics::new();
    let mut node = empty_element("Rect");
    node.bindings.push(BindingNode {
        name: String::from("breadth"),
        name_span: sp(),
        expr: ExprNode::Number(1 * FIXED_ONE, Unit::Px, sp()),
    });
    let mut cip = None;
    let elem = element_from_node(
        &mut tree,
        &node,
        String::from("r"),
        &Type::Invalid,
        &mut cip,
        &mut diag,
        &reg,
    );
    // The binding landed under the canonical name, with a warning but no
    // error.
    assert!(!diag.has_error());
    assert_eq!(diag.diags.len(), 1);
    assert!(
        uitree::object_tree::assoc_find_binding(&tree.elements[elem].bindings, "width").is_some()
    );
}

#[test]
fn globals_cannot_be_instantiated() {
    let (mut tree, mut reg) = setup();
    // Register a global component.
    let mut diag = BuildDiagnostics::new();
    let global_root = tree.push_element(uitree::object_tree::Element::new(
        String::from("root"),
        Type::Void,
        None,
    ));
    let g = tree.push_component(uitree::object_tree::Component::new(
        String::from("Settings"),
        global_root,
    ));
    reg.insert_type_with_name(String::from("Settings"), Type::Component(g));
    let node = empty_element("Settings");
    let mut cip = None;
    let elem = element_from_node(
        &mut tree,
        &node,
        String::from("r"),
        &Type::Invalid,
        &mut cip,
        &mut diag,
        &reg,
    );
    assert!(diag.has_error());
    assert!(matches!(tree.elements[elem].base_type, Type::Invalid));
}

#[test]
fn builtin_default_bindings_fill_unbound_properties() {
    let (mut tree, reg) = setup();
    let mut diag = BuildDiagnostics::new();
    let node = empty_element("Rect");
    let mut cip = None;
    let elem = element_from_node(
        &mut tree,
        &node,
        String::from("r"),
        &Type::Invalid,
        &mut cip,
        &mut diag,
        &reg,
    );
    // The height property got the builtin default, width has none.
    assert!(
        uitree::object_tree::assoc_find_binding(&tree.elements[elem].bindings, "height").is_some()
    );
    assert!(
        uitree::object_tree::assoc_find_binding(&tree.elements[elem].bindings, "width").is_none()
    );
}

#[test]
fn shadow_element_injection_moves_the_root_down() {
    let (mut tree, reg) = setup();
    let mut diag = BuildDiagnostics::new();
    // A template component whose root is a rectangle.
    let template = component_from_node(
        &mut tree,
        &ComponentNode {
            id: String::from("Tmpl"),
            id_span: sp(),
            element: empty_element("Rect"),
        },
        &mut diag,
        &reg,
    );
    // The repeated element holds the template as its base.
    let repeated = tree.push_element(uitree::object_tree::Element::new(
        String::from("rep"),
        Type::Component(template),
        None,
    ));
    let old_root = tree.components[template].root_element;
    // The synthetic new root, created after everything else.
    let new_root = tree.push_element(uitree::object_tree::Element::new(
        String::from("shadow"),
        Type::Builtin(0),
        None,
    ));
    let ok = tree.inject_element_as_repeated_element(repeated, new_root);
    assert!(ok);
    // The new root has exactly one child: the old root.
    assert_eq!(tree.components[template].root_element, new_root);
    assert_eq!(tree.elements[new_root].children, vec![old_root]);
    // The new root belongs to the template component now.
    assert_eq!(tree.elements[new_root].enclosing_component, Some(template));
}

#[test]
fn shadow_element_injection_refuses_a_second_holder() {
    let (mut tree, reg) = setup();
    let mut diag = BuildDiagnostics::new();
    let template = component_from_node(
        &mut tree,
        &ComponentNode {
            id: String::from("Tmpl"),
            id_span: sp(),
            element: empty_element("Rect"),
        },
        &mut diag,
        &reg,
    );
    let repeated = tree.push_element(uitree::object_tree::Element::new(
        String::from("rep"),
        Type::Component(template),
        None,
    ));
    // A second element also holds the component: the precondition fails.
    let _other = tree.push_element(uitree::object_tree::Element::new(
        String::from("other"),
        Type::Component(template),
        None,
    ));
    let new_root = tree.push_element(uitree::object_tree::Element::new(
        String::from("shadow"),
        Type::Builtin(0),
        None,
    ));
    let before_roots = tree.components[template].root_element;
    let before_children = tree.elements[new_root].children.clone();
    let ok = tree.inject_element_as_repeated_element(repeated, new_root);
    // The operation refuses and mutated nothing.
    assert!(!ok);
    assert_eq!(tree.components[template].root_element, before_roots);
    assert_eq!(tree.elements[new_root].children, before_children);
    assert_eq!(tree.elements[new_root].enclosing_component, None);
}

#[test]
fn struct_types_compare_structurally() {
    let a = Type::Struct {
        fields: vec![StructField { name: String::from("x"), ty: Type::Float32 }],
        name: None,
    };
    let b = Type::Struct {
        fields: vec![StructField { name: String::from("x"), ty: Type::Float32 }],
        name: None,
    };
    let c = Type::Struct {
        fields: vec![StructField { name: String::from("x"), ty: Type::Bool }],
        name: None,
    };
    assert!(uitree::langtype::type_eq(&a, &b));
    assert!(!uitree::langtype::type_eq(&a, &c));
}

#[test]
fn collected_globals_are_sorted_and_deduplicated() {
    let (mut tree, mut reg) = setup();
    let mut diag = BuildDiagnostics::new();
    // Two globals, named so their sorted order differs from creation order.
    let zr = tree.push_element(uitree::object_tree::Element::new(
        String::from("root"),
        Type::Void,
        None,
    ));
    let z = tree.push_component(uitree::object_tree::Component::new(String::from("Zeta"), zr));
    tree.set_enclosing_component(zr, z);
    let ar = tree.push_element(uitree::object_tree::Element::new(
        String::from("root"),
        Type::Void,
        None,
    ));
    let a = tree.push_component(uitree::object_tree::Component::new(String::from("Alpha"), ar));
    tree.set_enclosing_component(ar, a);
    reg.insert_type_with_name(String::from("Zeta"), Type::Component(z));
    reg.insert_type_with_name(String::from("Alpha"), Type::Component(a));
    // A component whose root binds to properties of both globals, the
    // later-sorted one twice.
    let mut node = empty_element("Rect");
    node.bindings.push(BindingNode {
        name: String::from("width"),
        name_span: sp(),
        expr: ExprNode::Number(FIXED_ONE, Unit::Px, sp()),
    });
    let c = component_from_node(
        &mut tree,
        &ComponentNode { id: String::from("App"), id_span: sp(), element: node },
        &mut diag,
        &reg,
    );
    let root = tree.components[c].root_element;
    // Wire three references by hand: two into Zeta, one into Alpha.
    let mut e = tree.take_element(root);
    e.layout_info_prop = Some((
        uitree::namedreference::NamedReference::new(zr, String::from("w")),
        uitree::namedreference::NamedReference::new(ar, String::from("h")),
    ));
    tree.put_element(root, e);
    uitree::passes::collect_globals::collect_globals(&mut tree, c);
    let globals = &tree.components[c].used_types.globals;
    assert_eq!(globals.len(), 2);
    // Sorted by component name: Alpha before Zeta, each exactly once.
    assert_eq!(globals[0], a);
    assert_eq!(globals[1], z);
}

#[test]
fn elements_are_found_by_id_and_parents_recovered() {
    let (mut tree, reg) = setup();
    let mut diag = BuildDiagnostics::new();
    let mut parent = empty_element("Rect");
    parent.children.push(uitree::syntax::ChildNode::Sub(uitree::syntax::SubElementNode {
        id: String::from("inner"),
        id_span: sp(),
        element: empty_element("Rect"),
    }));
    let c = component_from_node(
        &mut tree,
        &ComponentNode { id: String::from("App"), id_span: sp(), element: parent },
        &mut diag,
        &reg,
    );
    let root = tree.components[c].root_element;
    let inner = tree.find_element_by_id(root, "inner").expect("inner exists");
    assert_eq!(tree.elements[inner].id, String::from("inner"));
    assert_eq!(tree.find_element_by_id(root, "nothing"), None);
    assert_eq!(tree.find_parent_element_in(root, inner), Some(root));
    let all = tree.collect_subtree(root);
    assert_eq!(all.len(), 2);
    assert_eq!(all[0], root);
    assert_eq!(all[1], inner);
}

#[test]
fn alias_chains_resolve_through_intermediate_aliases() {
    // `a <=> b`, `b <=> c`, and c is declared with a concrete type.
    let (mut tree, reg) = setup();
    let mut diag = BuildDiagnostics::new();
    let mut node = empty_element("Rect");
    node.property_declarations.push(PropertyDeclNode {
        type_node: None,
        name: String::from("a"),
        name_span: sp(),
        binding: None,
        two_way: Some(two_way("b")),
    });
    node.property_declarations.push(PropertyDeclNode {
        type_node: None,
        name: String::from("b"),
        name_span: sp(),
        binding: None,
        two_way: Some(two_way("c")),
    });
    node.property_declarations.push(PropertyDeclNode {
        type_node: Some(uitree::syntax::TypeNode {
            kind: uitree::syntax::TypeNodeKind::Qualified(QualifiedNameNode {
                members: vec![String::from("int")],
                span: sp(),
            }),
            span: sp(),
        }),
        name: String::from("c"),
        name_span: sp(),
        binding: None,
        two_way: None,
    });
    let component = component_from_node(
        &mut tree,
        &ComponentNode { id: String::from("App"), id_span: sp(), element: node },
        &mut diag,
        &reg,
    );
    let doc = Document {
        node_span: sp(),
        inner_components: vec![component],
        inner_structs: vec![],
        root_component: Some(component),
        local_registry: reg,
        custom_fonts: vec![],
        exports: uitree::builder::Exports { entries: vec![] },
    };
    uitree::passes::infer_aliases::resolve_aliases(&mut tree, &doc, &mut diag);
    assert!(!diag.has_error());
    let root = tree.components[component].root_element;
    assert!(matches!(tree.lookup_property(root, "a").property_type, Type::Int32));
    assert!(matches!(tree.lookup_property(root, "b").property_type, Type::Int32));
}

#[test]
fn documents_register_their_components_and_reject_non_font_imports() {
    let (mut tree, reg) = setup();
    let mut diag = BuildDiagnostics::new();
    let doc_node = uitree::syntax::DocumentNode {
        items: vec![
            uitree::syntax::DocumentItemNode::Component(ComponentNode {
                id: String::from("First"),
                id_span: sp(),
                element: empty_element("Rect"),
            }),
            uitree::syntax::DocumentItemNode::Component(ComponentNode {
                id: String::from("Second"),
                id_span: sp(),
                element: empty_element("Rect"),
            }),
        ],
        span: sp(),
    };
    let imports = vec![
        uitree::syntax::ImportedTypes { file: String::from("face.ttf"), import_span: sp() },
        uitree::syntax::ImportedTypes { file: String::from("logo.png"), import_span: sp() },
    ];
    let doc = Document::from_node(&mut tree, &doc_node, &imports, &mut diag, Box::new(reg));
    // Two components, the last one is the root; the png import is an error.
    assert_eq!(doc.inner_components.len(), 2);
    let root = doc.root_component.expect("has a root component");
    assert_eq!(tree.components[root].id, String::from("Second"));
    assert_eq!(doc.custom_fonts, vec![String::from("face.ttf")]);
    assert!(diag.has_error());
    // The register resolves both names, and the implicit export is the last
    // component.
    assert!(matches!(
        doc.local_registry.lookup("First"),
        Type::Component(_)
    ));
    assert_eq!(doc.exports.entries.len(), 1);
    assert_eq!(doc.exports.entries[0].0, String::from("Second"));
}

#[test]
fn deprecated_binding_names_resolve_to_the_canonical_key_with_a_warning() {
    let (mut tree, reg) = setup();
    let mut diag = BuildDiagnostics::new();
    let mut node = empty_element("Rect");
    node.bindings.push(BindingNode {
        name: String::from("breadth"),
        name_span: sp(),
        expr: ExprNode::Number(FIXED_ONE, uitree::units::Unit::Px, sp()),
    });
    let mut cip = None;
    let elem = element_from_node(
        &mut tree,
        &node,
        String::from("r"),
        &Type::Invalid,
        &mut cip,
        &mut diag,
        &reg,
    );
    // The binding is stored under the canonical name, and the old spelling
    // drew a warning but no error.
    assert!(
        uitree::object_tree::assoc_find_binding(&tree.elements[elem].bindings, "width").is_some()
    );
    assert!(
        uitree::object_tree::assoc_find_binding(&tree.elements[elem].bindings, "breadth")
            .is_none()
    );
    assert!(!diag.has_error());
    assert!(diag.diags.iter().any(|d| d.message.contains("deprecated")));
}

#[test]
fn overriding_an_inherited_property_is_reported_but_still_declared() {
    let (mut tree, reg) = setup();
    let mut diag = BuildDiagnostics::new();
    let mut node = empty_element("Rect");
    node.property_declarations.push(uitree::syntax::PropertyDeclNode {
        name: String::from("width"),
        name_span: sp(),
        type_node: Some(uitree::syntax::TypeNode {
            kind: uitree::syntax::TypeNodeKind::Qualified(QualifiedNameNode {
                members: vec![String::from("int")],
                span: sp(),
            }),
            span: sp(),
        }),
        binding: None,
        two_way: None,
    });
    let mut cip = None;
    let elem = element_from_node(
        &mut tree,
        &node,
        String::from("r"),
        &Type::Invalid,
        &mut cip,
        &mut diag,
        &reg,
    );
    assert!(diag.has_error());
    assert!(diag.diags.iter().any(|d| d.message.contains("override")));
    // The declaration went in regardless.
    assert!(tree.elements[elem]
        .property_declarations
        .iter()
        .any(|(n, d)| n == "width" && matches!(d.property_type, Type::Int32)));
}

#[test]
fn a_second_placeholder_in_one_element_is_reported() {
    let (mut tree, reg) = setup();
    let mut diag = BuildDiagnostics::new();
    let mut node = empty_element("Rect");
    node.children.push(uitree::syntax::ChildNode::Placeholder(sp()));
    node.children.push(uitree::syntax::ChildNode::Placeholder(sp()));
    let mut cip = None;
    let _ = element_from_node(
        &mut tree,
        &node,
        String::from("r"),
        &Type::Invalid,
        &mut cip,
        &mut diag,
        &reg,
    );
    assert!(diag.has_error());
    assert!(diag.diags.iter().any(|d| d.message.contains("once in an element")));
    // A placeholder was still recorded for the component.
    assert!(cip.is_some());
}

#[test]
fn export_rename_keys_the_table_by_the_exported_name() {
    let (mut tree, reg) = setup();
    let mut diag = BuildDiagnostics::new();
    let doc_node = uitree::syntax::DocumentNode {
        items: vec![
            uitree::syntax::DocumentItemNode::Component(ComponentNode {
                id: String::from("First"),
                id_span: sp(),
                element: empty_element("Rect"),
            }),
            uitree::syntax::DocumentItemNode::ExportsList(vec![
                uitree::syntax::ExportItemNode::Specifier(uitree::syntax::ExportSpecifierNode {
                    internal_name: String::from("First"),
                    exported_name: Some(String::from("Renamed")),
                    span: sp(),
                }),
                uitree::syntax::ExportItemNode::Specifier(uitree::syntax::ExportSpecifierNode {
                    internal_name: String::from("Missing"),
                    exported_name: None,
                    span: sp(),
                }),
            ]),
        ],
        span: sp(),
    };
    let doc = Document::from_node(&mut tree, &doc_node, &vec![], &mut diag, Box::new(reg));
    // The renamed export is keyed by the exported name but resolves the
    // internal one; the unknown name is reported.
    assert_eq!(doc.exports.entries.len(), 1);
    assert_eq!(doc.exports.entries[0].0, String::from("Renamed"));
    assert!(matches!(doc.exports.entries[0].1, Type::Component(_)));
    assert!(diag.has_error());
}

#[test]
fn globals_reached_through_repeated_templates_are_collected() {
    let (mut tree, mut reg) = setup();
    let mut diag = BuildDiagnostics::new();
    // A global whose root element carries the enclosing mark.
    let zr = tree.push_element(uitree::object_tree::Element::new(
        String::from("root"),
        Type::Void,
        None,
    ));
    let z = tree.push_component(uitree::object_tree::Component::new(String::from("Zeta"), zr));
    tree.set_enclosing_component(zr, z);
    reg.insert_type_with_name(String::from("Zeta"), Type::Component(z));
    // An inner component whose root references the global.
    let inner = component_from_node(
        &mut tree,
        &ComponentNode {
            id: String::from("Inner"),
            id_span: sp(),
            element: empty_element("Rect"),
        },
        &mut diag,
        &reg,
    );
    let inner_root = tree.components[inner].root_element;
    let mut e = tree.take_element(inner_root);
    e.layout_info_prop = Some((
        uitree::namedreference::NamedReference::new(zr, String::from("w")),
        uitree::namedreference::NamedReference::new(zr, String::from("h")),
    ));
    tree.put_element(inner_root, e);
    // A repeated element instantiating the inner component, below the outer
    // component's root.
    let rep = tree.push_element(uitree::object_tree::Element::new(
        String::from("rep"),
        Type::Component(inner),
        None,
    ));
    tree.set_repeated(
        rep,
        uitree::object_tree::RepeatedElementInfo {
            model: uitree::expression::Expression::NumberLiteral(
                3 * FIXED_ONE,
                uitree::units::Unit::Unitless,
            ),
            model_data_id: String::from("item"),
            index_id: String::from("i"),
            is_conditional_element: false,
            is_listview: None,
        },
    );
    let app = component_from_node(
        &mut tree,
        &ComponentNode { id: String::from("App"), id_span: sp(), element: empty_element("Rect") },
        &mut diag,
        &reg,
    );
    let app_root = tree.components[app].root_element;
    let mut e = tree.take_element(app_root);
    e.children.push(rep);
    tree.put_element(app_root, e);
    // The outer component itself holds no reference into the global; only
    // the repeated template's component does.
    uitree::passes::collect_globals::collect_globals(&mut tree, app);
    let globals = &tree.components[app].used_types.globals;
    assert_eq!(globals.len(), 1);
    assert_eq!(globals[0], z);
}

#[test]
fn enum_values_resolve_as_qualified_names() {
    let (_tree, mut reg) = setup();
    let en = uitree::langtype::Enumeration {
        name: String::from("Align"),
        values: vec![String::from("left"), String::from("right")],
        default_value: 0,
    };
    reg.insert_type_with_name(String::from("Align"), Type::Enumeration(en));
    let good = reg.lookup_qualified(&vec![String::from("Align"), String::from("left")]);
    assert!(matches!(good, Type::Enumeration(_)));
    let bad = reg.lookup_qualified(&vec![String::from("Align"), String::from("center")]);
    assert!(matches!(bad, Type::Invalid));
}

#[test]
fn repeated_and_conditional_children_carry_their_models() {
    let (mut tree, reg) = setup();
    let mut diag = BuildDiagnostics::new();
    let mut node = empty_element("Rect");
    node.children.push(uitree::syntax::ChildNode::Repeated(
        uitree::syntax::RepeatedElementNode {
            model: ExprNode::Number(3 * FIXED_ONE, uitree::units::Unit::Unitless, sp()),
            model_data_id: Some(String::from("item")),
            index_id: Some(String::from("i")),
            sub: uitree::syntax::SubElementNode {
                id: String::from("row"),
                id_span: sp(),
                element: empty_element("Rect"),
            },
        },
    ));
    node.children.push(uitree::syntax::ChildNode::Conditional(
        uitree::syntax::ConditionalElementNode {
            condition: ExprNode::Bool(true, sp()),
            sub: uitree::syntax::SubElementNode {
                id: String::from("maybe"),
                id_span: sp(),
                element: empty_element("Rect"),
            },
        },
    ));
    let c = component_from_node(
        &mut tree,
        &ComponentNode { id: String::from("App"), id_span: sp(), element: node },
        &mut diag,
        &reg,
    );
    assert!(!diag.has_error());
    let root = tree.components[c].root_element;
    assert_eq!(tree.elements[root].children.len(), 2);
    let rep = tree.elements[root].children[0];
    let cond = tree.elements[root].children[1];
    let rep_info = tree.elements[rep].repeated.as_ref().expect("repeated");
    assert!(!rep_info.is_conditional_element);
    assert_eq!(rep_info.model_data_id, String::from("item"));
    assert_eq!(rep_info.index_id, String::from("i"));
    let cond_info = tree.elements[cond].repeated.as_ref().expect("conditional");
    assert!(cond_info.is_conditional_element);
}

#[test]
fn children_placeholder_is_tracked_once_per_hierarchy() {
    let (mut tree, reg) = setup();
    let mut diag = BuildDiagnostics::new();
    let mut node = empty_element("Rect");
    node.children.push(uitree::syntax::ChildNode::Placeholder(Span::new(1, 2)));
    let mut cip = None;
    let elem = element_from_node(
        &mut tree,
        &node,
        String::from("r"),
        &Type::Invalid,
        &mut cip,
        &mut diag,
        &reg,
    );
    assert!(!diag.has_error());
    assert_eq!(cip, Some((elem, Span::new(1, 2))));
    // A second placeholder in the same hierarchy is an error.
    let node2 = {
        let mut n = empty_element("Rect");
        n.children.push(uitree::syntax::ChildNode::Placeholder(Span::new(5, 6)));
        n
    };
    let _ = element_from_node(
        &mut tree,
        &node2,
        String::from("s"),
        &Type::Invalid,
        &mut cip,
        &mut diag,
        &reg,
    );
    assert!(diag.has_error());
}

#[test]
fn the_pass_pipeline_resolves_a_whole_document() {
    let (mut tree, reg) = setup();
    let mut diag = BuildDiagnostics::new();
    let mut node = empty_element("Rect");
    node.property_declarations.push(PropertyDeclNode {
        type_node: Some(uitree::syntax::TypeNode {
            kind: uitree::syntax::TypeNodeKind::Qualified(QualifiedNameNode {
                members: vec![String::from("length")],
                span: sp(),
            }),
            span: sp(),
        }),
        name: String::from("x"),
        name_span: sp(),
        binding: Some(ExprNode::Number(2 * FIXED_ONE, Unit::Mm, sp())),
        two_way: None,
    });
    node.property_declarations.push(PropertyDeclNode {
        type_node: None,
        name: String::from("y"),
        name_span: sp(),
        binding: None,
        two_way: Some(two_way("x")),
    });
    let doc_node = uitree::syntax::DocumentNode {
        items: vec![uitree::syntax::DocumentItemNode::Component(ComponentNode {
            id: String::from("App"),
            id_span: sp(),
            element: node,
        })],
        span: sp(),
    };
    let doc = Document::from_node(&mut tree, &doc_node, &vec![], &mut diag, Box::new(reg));
    uitree::builder::run_passes(&mut tree, &doc, &mut diag);
    assert!(!diag.has_error());
    let root = tree.components[doc.root_component.unwrap()].root_element;
    // The alias took the declared type, and the literal was normalized: two
    // millimeters are 2 * 3.78 logical pixels.
    assert!(matches!(tree.lookup_property(root, "y").property_type, Type::LogicalLength));
    let idx = uitree::object_tree::assoc_find_binding(&tree.elements[root].bindings, "x")
        .expect("binding");
    match &tree.elements[root].bindings[idx].1.expression {
        Expression::NumberLiteral(v, _) => assert_eq!(*v, 756 * FIXED_ONE / 100),
        _ => panic!("expected a number literal"),
    }
}

#[test]
fn compiler_configuration_respects_overrides() {
    let c = uitree::builder::CompilerConfiguration::new(true, None);
    assert!(c.embed_resources);
    let c = uitree::builder::CompilerConfiguration::new(true, Some(false));
    assert!(!c.embed_resources);
    let c = uitree::builder::CompilerConfiguration::new(false, None);
    assert!(!c.embed_resources);
}

#[test]
fn constness_follows_bindings_and_assignments() {
    let (mut tree, reg) = setup();
    let mut diag = BuildDiagnostics::new();
    let mut node = empty_element("Rect");
    node.bindings.push(BindingNode {
        name: String::from("width"),
        name_span: sp(),
        expr: ExprNode::Number(FIXED_ONE, Unit::Px, sp()),
    });
    let c = component_from_node(
        &mut tree,
        &ComponentNode { id: String::from("App"), id_span: sp(), element: node },
        &mut diag,
        &reg,
    );
    uitree::passes::resolve_exprs::resolve_binding_expressions(&mut tree, &mut diag);
    let root = tree.components[c].root_element;
    let width_ref = Expression::PropertyReference(uitree::namedreference::NamedReference::new(
        root,
        String::from("width"),
    ));
    // A property with a constant binding is constant.
    assert!(width_ref.is_constant(&tree));
    // Marking it writable ends that.
    assert!(width_ref.try_set_rw(&mut tree));
    assert!(!width_ref.is_constant(&tree));
    // A property without any binding stays constant; a callback never is.
    let height_ref = Expression::PropertyReference(uitree::namedreference::NamedReference::new(
        root,
        String::from("height"),
    ));
    let _ = height_ref;
    assert!(!Expression::RepeaterIndexReference { element: root }.is_constant(&tree));
}
