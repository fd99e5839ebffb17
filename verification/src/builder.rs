use vstd::prelude::*;
use crate::diagnostics::{BuildDiagnostics, Span};
use crate::expression::{clone_expression, BindingExpression, Expression};
use crate::langtype::{clone_type, type_view, Type, TypeV};
use crate::namedreference::NamedReference;
use crate::object_tree::{
    insert_binding_with_duplicate_check, tree_wf, Component, Element, ListViewInfo, ObjectTree,
    PropertyAnimation, PropertyDeclaration, PropertyLookupResult, RepeatedElementInfo, State,
    Transition,
};
use crate::syntax::{
    BindingNode, ChildNode, ConditionalElementNode, ElementNode, ExprNode, ObjectTypeNode,
    PropertyAnimationNode, QualifiedNameNode, RepeatedElementNode, SubElementNode, SyntaxNode,
    TwoWayBindingNamedNode, TypeNode, TypeNodeKind,
};
use crate::typeregister::{spec_registry_lookup, TypeRegister};
use crate::units::str_eq;

verus! {

broadcast use vstd::seq::group_seq_axioms;

/// The tree `b` extends the tree `a`: nothing that existed has changed, new
/// elements and components may have been appended, and the builtin and
/// native stores are the same.
pub open spec fn tree_extended(a: ObjectTree, b: ObjectTree) -> bool {
    &&& a.elements@.len() <= b.elements@.len()
    &&& (forall|i: int| 0 <= i < a.elements@.len() ==> b.elements@[i] == a.elements@[i])
    &&& a.components@.len() <= b.components@.len()
    &&& (forall|i: int| 0 <= i < a.components@.len() ==> b.components@[i] == a.components@[i])
    &&& b.builtins@ == a.builtins@
    &&& b.natives@ == a.natives@
}

/// The diagnostics `b` extend the diagnostics `a`: reports only accumulate.
pub open spec fn diags_extended(a: BuildDiagnostics, b: BuildDiagnostics) -> bool {
    a.diags@.len() <= b.diags@.len() && (forall|i: int|
        0 <= i < a.diags@.len() ==> b.diags@[i] == a.diags@[i])
}

/// A dot-separated type name, kept as its parts.
pub struct QualifiedTypeName {
    pub members: Vec<String>,
}

impl QualifiedTypeName {
    /// Read the members out of a qualified-name node.
    pub fn from_node(node: &QualifiedNameNode) -> (r: QualifiedTypeName)
        ensures
            r.members@.len() == node.members@.len(),
            forall|i: int|
                0 <= i < node.members@.len() ==> r.members@[i]@ == node.members@[i]@,
    {
        let mut members: Vec<String> = Vec::new();
        let mut i: usize = 0;
        while i < node.members.len()
            invariant
                0 <= i <= node.members@.len(),
                members@.len() == i,
                forall|j: int| 0 <= j < i ==> members@[j]@ == node.members@[j]@,
            decreases node.members@.len() - i,
        {
            members.push(node.members[i].clone());
            i = i + 1;
        }
        QualifiedTypeName { members }
    }
}

/// The type a written type node denotes under a register: qualified names
/// resolve through the register, inline object types become structs, array
/// types nest.
pub open spec fn spec_type_from_node(node: TypeNode, tr: TypeRegister) -> TypeV
    decreases node,
{
    match node.kind {
        TypeNodeKind::Qualified(qn) => crate::typeregister::spec_lookup_qualified(
            tr,
            qn.members@,
        ),
        TypeNodeKind::Object(o) => spec_type_struct_from_node(o, tr),
        TypeNodeKind::Array(inner) => TypeV::Array(Box::new(spec_type_from_node(*inner, tr))),
    }
}

/// The struct type an inline object type denotes.
pub open spec fn spec_type_struct_from_node(o: ObjectTypeNode, tr: TypeRegister) -> TypeV
    decreases o,
{
    TypeV::Struct { fields: spec_member_fields(o.members@, tr), name: Option::None }
}

pub open spec fn spec_member_fields(
    members: Seq<crate::syntax::ObjectTypeMemberNode>,
    tr: TypeRegister,
) -> Seq<(Seq<char>, TypeV)>
    decreases members,
{
    Seq::new(
        members.len(),
        |i: int|
            if 0 <= i < members.len() {
                (members[i].name@, spec_type_from_node(members[i].ty, tr))
            } else {
                (Seq::empty(), TypeV::Invalid)
            },
    )
}

/// Create a type for a written type node; unknown names are reported and
/// yield `Invalid`.
pub fn type_from_node(node: &TypeNode, diag: &mut BuildDiagnostics, tr: &TypeRegister) -> (r:
    Type)
    ensures
        r@ == spec_type_from_node(*node, *tr),
        diags_extended(*old(diag), *final(diag)),
        // An unknown written name is reported exactly once, at the node.
        (node.kind matches TypeNodeKind::Qualified(qn) ==> (if spec_type_from_node(*node, *tr)
            == TypeV::Invalid {
            final(diag).diags@.len() == old(diag).diags@.len() + 1
                && final(diag).diags@.last().span == node.span
                && final(diag).diags@.last().level
                == crate::diagnostics::DiagnosticLevel::Error
        } else {
            final(diag).diags@ == old(diag).diags@
        })),
    decreases *node, 1int,
{
    broadcast use crate::langtype::group_type_view_lemmas;

    match &node.kind {
        TypeNodeKind::Qualified(qn) => {
            let qualified = QualifiedTypeName::from_node(qn);
            let prop_type = tr.lookup_qualified(&qualified.members);
            proof {
                if qn.members@.len() == 1 {
                    assert(qualified.members@[0]@ == qn.members@[0]@);
                }
                if qn.members@.len() == 2 {
                    assert(qualified.members@[0]@ == qn.members@[0]@);
                    assert(qualified.members@[1]@ == qn.members@[1]@);
                }
                assert(crate::typeregister::spec_lookup_qualified(*tr, qualified.members@)
                    == crate::typeregister::spec_lookup_qualified(*tr, qn.members@));
                crate::langtype::lemma_view_tag(prop_type);
            }
            let is_invalid = matches!(prop_type, Type::Invalid);
            if is_invalid {
                diag.push_error(String::from_str("Unknown type"), node.span);
            }
            prop_type
        }
        TypeNodeKind::Object(o) => type_struct_from_node(o, diag, tr, Ghost(*node)),
        TypeNodeKind::Array(inner) => {
            proof {
                assert(decreases_to!(*node => **inner));
            }
            let t = type_from_node(inner, diag, tr);
            let r = Type::Array(Box::new(t));
            proof {
                assert(r@ =~= spec_type_from_node(*node, *tr));
            }
            r
        }
    }
}

/// Create a struct type from an inline object type node.
pub fn type_struct_from_node(
    o: &ObjectTypeNode,
    diag: &mut BuildDiagnostics,
    tr: &TypeRegister,
    parent: Ghost<TypeNode>,
) -> (r: Type)
    requires
        parent@.kind matches TypeNodeKind::Object(o2) && o2 == *o,
    ensures
        r@ == spec_type_struct_from_node(*o, *tr),
        diags_extended(*old(diag), *final(diag)),
    decreases parent@, 0int,
{
    broadcast use crate::langtype::group_type_view_lemmas;

    let mut fields: Vec<crate::langtype::StructField> = Vec::new();
    let mut i: usize = 0;
    while i < o.members.len()
        invariant
            0 <= i <= o.members@.len(),
            fields@.len() == i,
            parent@.kind matches TypeNodeKind::Object(o2) && o2 == *o,
            forall|j: int|
                0 <= j < i ==> (#[trigger] fields@[j]).name@ == o.members@[j].name@
                    && type_view(fields@[j].ty) == spec_type_from_node(o.members@[j].ty, *tr),
            diags_extended(*old(diag), *diag),
        decreases o.members@.len() - i,
    {
        proof {
            assert(decreases_to!(parent@ => o.members@[i as int]));
            assert(decreases_to!(o.members@[i as int] => o.members@[i as int].ty));
        }
        let t = type_from_node(&o.members[i].ty, diag, tr);
        fields.push(crate::langtype::StructField { name: o.members[i].name.clone(), ty: t });
        i = i + 1;
    }
    let r = Type::Struct { fields, name: Option::None };
    proof {
        assert(crate::langtype::fields_view(fields@) =~= spec_member_fields(o.members@, *tr));
    }
    r
}

/// Look a property up on an element that is still being built: its own
/// declarations first, then its base chain through the tree.
/// What looking a name up on an element under construction yields: its own
/// declarations first, then its base chain.
pub open spec fn spec_local_lookup(tree: ObjectTree, e: Element, name: Seq<char>) -> (
    Seq<char>,
    TypeV,
) {
    match crate::object_tree::spec_decl_ty(e.property_declarations@, name) {
        Some(t) => (name, t),
        Option::None => match e.base_type {
            Type::Component(c) => crate::object_tree::spec_lookup_property(
                tree,
                tree.components@[c as int].root_element as int,
                name,
            ),
            Type::Builtin(b) => crate::object_tree::spec_builtin_prop_ty(
                tree.builtins@[b as int],
                name,
            ),
            _ => (name, TypeV::Invalid),
        },
    }
}

fn lookup_property_local(tree: &ObjectTree, e: &Element, name: &str) -> (r:
    PropertyLookupResult)
    requires
        tree_wf(*tree),
        (match e.base_type {
            Type::Component(c) => c < tree.components@.len(),
            Type::Builtin(b) => b < tree.builtins@.len(),
            _ => true,
        }),
    ensures
        (r.resolved_name@, r.property_type@) == spec_local_lookup(*tree, *e, name@),
{
    let found = crate::object_tree::decl_ty_pub(&e.property_declarations, name);
    match found {
        Some(t) => PropertyLookupResult {
            resolved_name: String::from_str(name),
            property_type: t,
        },
        Option::None => {
            match &e.base_type {
                Type::Component(c) => {
                    let root = tree.components[*c].root_element;
                    tree.lookup_property(root, name)
                }
                Type::Builtin(b) => crate::object_tree::builtin_prop_lookup_pub(
                    &tree.builtins[*b],
                    name,
                ),
                _ => PropertyLookupResult {
                    resolved_name: String::from_str(name),
                    property_type: Type::Invalid,
                },
            }
        }
    }
}


/// Whether a type's cross-indices fit a tree's stores.
pub open spec fn valid_base_v(v: TypeV, tree: ObjectTree) -> bool {
    match v {
        TypeV::Component(c) => 0 <= c < tree.components@.len(),
        TypeV::Builtin(b) => 0 <= b < tree.builtins@.len(),
        _ => true,
    }
}

/// Every type a register can hand out fits the tree's stores, and the
/// animation builtin exists when set.
pub open spec fn registry_valid(tr: TypeRegister, tree: ObjectTree) -> bool
    decreases tr,
{
    (forall|i: int|
        0 <= i < tr.entries@.len() ==> valid_base_v(
            type_view((#[trigger] tr.entries@[i]).1),
            tree,
        )) && (match tr.parent {
        Some(p) => registry_valid(*p, tree),
        Option::None => true,
    }) && (match tr.property_animation_builtin {
        Some(b) => b < tree.builtins@.len(),
        Option::None => true,
    })
}

/// An entry-list lookup yields a valid type.
proof fn lemma_entries_lookup_valid(
    entries: Seq<(String, Type)>,
    name: Seq<char>,
    tree: ObjectTree,
)
    requires
        forall|i: int|
            0 <= i < entries.len() ==> valid_base_v(type_view((#[trigger] entries[i]).1), tree),
    ensures
        (match crate::typeregister::spec_entries_lookup(entries, name) {
            Some(t) => valid_base_v(t, tree),
            Option::None => true,
        }),
    decreases entries,
{
    if entries.len() > 0 {
        if entries[0].0@ == name {
        } else {
            assert(forall|i: int|
                0 <= i < entries.skip(1).len() ==> entries.skip(1)[i] == entries[i + 1]);
            lemma_entries_lookup_valid(entries.skip(1), name, tree);
        }
    }
}

/// A register lookup yields a valid type.
pub proof fn lemma_registry_lookup_valid(tr: TypeRegister, name: Seq<char>, tree: ObjectTree)
    requires
        registry_valid(tr, tree),
    ensures
        valid_base_v(spec_registry_lookup(tr, name), tree),
    decreases tr,
{
    lemma_entries_lookup_valid(tr.entries@, name, tree);
    match crate::typeregister::spec_entries_lookup(tr.entries@, name) {
        Some(_) => {}
        Option::None => {
            match tr.parent {
                Some(p) => {
                    lemma_registry_lookup_valid(*p, name, tree);
                }
                Option::None => {}
            }
        }
    }
}

/// Growing a tree's stores keeps every register valid.
pub proof fn lemma_registry_valid_extended(tr: TypeRegister, a: ObjectTree, b: ObjectTree)
    requires
        registry_valid(tr, a),
        a.components@.len() <= b.components@.len(),
        b.builtins@ == a.builtins@,
    ensures
        registry_valid(tr, b),
    decreases tr,
{
    assert forall|i: int| 0 <= i < tr.entries@.len() implies valid_base_v(
        type_view((#[trigger] tr.entries@[i]).1),
        b,
    ) by {
        assert(valid_base_v(type_view(tr.entries@[i].1), a));
    }
    match tr.parent {
        Some(p) => {
            lemma_registry_valid_extended(*p, a, b);
        }
        Option::None => {}
    }
}

/// Structural copy of a source expression node.
pub fn clone_expr_node(e: &ExprNode) -> (r: ExprNode)
    decreases *e, 1int,
{
    match e {
        ExprNode::Number(v, u, sp) => ExprNode::Number(*v, *u, *sp),
        ExprNode::Str(s, sp) => ExprNode::Str(s.clone(), *sp),
        ExprNode::Bool(b, sp) => ExprNode::Bool(*b, *sp),
        ExprNode::Binary { op, lhs, rhs, op_span } => ExprNode::Binary {
            op: *op,
            lhs: Box::new(clone_expr_node(lhs)),
            rhs: Box::new(clone_expr_node(rhs)),
            op_span: *op_span,
        },
        ExprNode::TwoWay(t) => ExprNode::TwoWay(clone_two_way_node(t, Ghost(*e))),
    }
}

/// Structural copy of a two-way-binding target node.
pub fn clone_two_way_node(t: &crate::syntax::TwoWayBindingNode, parent: Ghost<ExprNode>) -> (r:
    crate::syntax::TwoWayBindingNode)
    requires
        parent@ matches ExprNode::TwoWay(t2) && t2 == *t,
    decreases parent@, 0int,
{
    let elem_id = match &t.elem_id {
        Some(x) => Some(x.clone()),
        Option::None => Option::None,
    };
    let init = match &t.init {
        Some(x) => {
            proof {
                assert(decreases_to!(parent@ => *t.init->Some_0));
            }
            Some(Box::new(clone_expr_node(x)))
        }
        Option::None => Option::None,
    };
    crate::syntax::TwoWayBindingNode {
        elem_id,
        prop_name: t.prop_name.clone(),
        init,
        span: t.span,
    }
}

/// Add or replace a property declaration under a name. Every other name's
/// lookup is untouched; the name itself afterwards resolves to the new
/// declaration.
fn upsert_decl(
    decls: &mut Vec<(String, PropertyDeclaration)>,
    name: String,
    d: PropertyDeclaration,
)
    ensures
        crate::object_tree::spec_assoc_has(final(decls)@, name@),
        crate::object_tree::spec_decl_ty(final(decls)@, name@) == Some(
            type_view(d.property_type),
        ),
        forall|n2: Seq<char>|
            crate::object_tree::spec_assoc_has(old(decls)@, n2)
                ==> #[trigger] crate::object_tree::spec_assoc_has(final(decls)@, n2),
        forall|n2: Seq<char>|
            n2 != name@ ==> #[trigger] crate::object_tree::spec_decl_ty(final(decls)@, n2)
                == crate::object_tree::spec_decl_ty(old(decls)@, n2),
{
    let mut i: usize = 0;
    let n = decls.len();
    while i < n
        invariant
            0 <= i <= n,
            n == decls@.len(),
            *decls == *old(decls),
            forall|j: int| 0 <= j < i ==> (#[trigger] decls@[j]).0@ != name@,
        decreases n - i,
    {
        if str_eq(decls[i].0.as_str(), name.as_str()) {
            proof {
                crate::object_tree::lemma_assoc_index_props(decls@, name@);
                crate::passes::infer_aliases::lemma_decl_ty_update(
                    decls@,
                    name@,
                    i as int,
                    (name, d),
                );
                assert forall|n2: Seq<char>| n2 != name@ implies
                    #[trigger] crate::object_tree::spec_decl_ty(
                    decls@.update(i as int, (name, d)),
                    n2,
                ) == crate::object_tree::spec_decl_ty(decls@, n2) by {
                    crate::passes::infer_aliases::lemma_decl_ty_update_other(
                        decls@,
                        i as int,
                        (name, d),
                        n2,
                    );
                }
                assert forall|n2: Seq<char>|
                    crate::object_tree::spec_assoc_has(decls@, n2) implies
                    crate::object_tree::spec_assoc_has(
                    decls@.update(i as int, (name, d)),
                    n2,
                ) by {
                    crate::object_tree::lemma_assoc_index_props(decls@, n2);
                    let ji = crate::object_tree::spec_assoc_index(decls@, n2)->Some_0;
                    if ji != i as int {
                        assert(decls@.update(i as int, (name, d))[ji] == decls@[ji]);
                    } else {
                        assert(decls@.update(i as int, (name, d))[ji].0@ == name@);
                    }
                    crate::object_tree::lemma_assoc_index_props(
                        decls@.update(i as int, (name, d)),
                        n2,
                    );
                }
                assert(decls@.update(i as int, (name, d))[i as int] == (name, d));
                crate::object_tree::lemma_assoc_index_props(
                    decls@.update(i as int, (name, d)),
                    name@,
                );
            }
            decls.set(i, (name, d));
            return ;
        }
        i = i + 1;
    }
    proof {
        crate::object_tree::lemma_assoc_index_props(decls@, name@);
        crate::object_tree::lemma_decl_ty_index(decls@, name@);
        crate::object_tree::lemma_decl_ty_push(decls@, (name, d), name@);
        assert forall|n2: Seq<char>| n2 != name@ implies
            #[trigger] crate::object_tree::spec_decl_ty(decls@.push((name, d)), n2)
            == crate::object_tree::spec_decl_ty(decls@, n2) by {
            crate::object_tree::lemma_decl_ty_push(decls@, (name, d), n2);
            crate::object_tree::lemma_decl_ty_index(decls@, n2);
        }
        assert forall|n2: Seq<char>|
            crate::object_tree::spec_assoc_has(decls@, n2) implies
            crate::object_tree::spec_assoc_has(decls@.push((name, d)), n2) by {
            crate::object_tree::lemma_assoc_index_props(decls@, n2);
            let ji = crate::object_tree::spec_assoc_index(decls@, n2)->Some_0;
            assert(decls@.push((name, d))[ji] == decls@[ji]);
            crate::object_tree::lemma_assoc_index_props(decls@.push((name, d)), n2);
        }
        assert(decls@.push((name, d))[decls@.len() as int] == (name, d));
        crate::object_tree::lemma_assoc_index_props(decls@.push((name, d)), name@);
    }
    decls.push((name, d));
}

/// Read the property declarations of a source element into the element under
/// construction: resolve each declared type, reject non-property types,
/// reject overriding an inherited property, and record the initial bindings
/// with duplicate detection.
fn process_property_declarations(
    tree: &ObjectTree,
    e: &mut Element,
    node: &ElementNode,
    diag: &mut BuildDiagnostics,
    tr: &TypeRegister,
)
    requires
        tree_wf(*tree),
        (match old(e).base_type {
            Type::Component(c) => c < tree.components@.len(),
            Type::Builtin(b) => b < tree.builtins@.len(),
            _ => true,
        }),
    ensures
        diags_extended(*old(diag), *final(diag)),
        final(e).base_type == old(e).base_type,
        final(e).children@ == old(e).children@,
        final(e).enclosing_component == old(e).enclosing_component,
        final(e).id@ == old(e).id@,
        // Every declared name ends in the element's declaration table, even
        // one that overrides.
        forall|k: int|
            0 <= k < node.property_declarations@.len()
                ==> crate::object_tree::spec_assoc_has(
                final(e).property_declarations@,
                (#[trigger] node.property_declarations@[k]).name@,
            ),
        // The first declaration of a name the element could already resolve
        // is reported as an override at the declaration's name span.
        forall|k: int|
            0 <= k < node.property_declarations@.len() && (spec_local_lookup(
                *tree,
                *old(e),
                (#[trigger] node.property_declarations@[k]).name@,
            ).1 !is Invalid) && (forall|m: int|
                0 <= m < k ==> node.property_declarations@[m].name@
                    != node.property_declarations@[k].name@) ==> exists|t: int|
                0 <= t < final(diag).diags@.len() && (#[trigger] final(diag).diags@[t]).span
                    == node.property_declarations@[k].name_span && final(diag).diags@[t].message@
                    == "Cannot override property"@ && final(diag).diags@[t].level
                    == crate::diagnostics::DiagnosticLevel::Error,
{
    let mut i: usize = 0;
    while i < node.property_declarations.len()
        invariant
            tree_wf(*tree),
            (match e.base_type {
                Type::Component(c) => c < tree.components@.len(),
                Type::Builtin(b) => b < tree.builtins@.len(),
                _ => true,
            }),
            0 <= i <= node.property_declarations@.len(),
            diags_extended(*old(diag), *diag),
            e.base_type == old(e).base_type,
            e.children@ == old(e).children@,
            e.enclosing_component == old(e).enclosing_component,
            e.id@ == old(e).id@,
            forall|k: int|
                0 <= k < i ==> crate::object_tree::spec_assoc_has(
                    e.property_declarations@,
                    (#[trigger] node.property_declarations@[k]).name@,
                ),
            forall|n2: Seq<char>|
                crate::object_tree::spec_assoc_has(old(e).property_declarations@, n2)
                    ==> #[trigger] crate::object_tree::spec_assoc_has(
                    e.property_declarations@,
                    n2,
                ),
            forall|n2: Seq<char>|
                (forall|m: int|
                    0 <= m < i ==> (#[trigger] node.property_declarations@[m]).name@ != n2)
                    ==> #[trigger] crate::object_tree::spec_decl_ty(e.property_declarations@, n2)
                    == crate::object_tree::spec_decl_ty(old(e).property_declarations@, n2),
            forall|k: int|
                0 <= k < i && (spec_local_lookup(
                    *tree,
                    *old(e),
                    (#[trigger] node.property_declarations@[k]).name@,
                ).1 !is Invalid) && (forall|m: int|
                    0 <= m < k ==> node.property_declarations@[m].name@
                        != node.property_declarations@[k].name@) ==> exists|t: int|
                    0 <= t < diag.diags@.len() && (#[trigger] diag.diags@[t]).span
                        == node.property_declarations@[k].name_span && diag.diags@[t].message@
                        == "Cannot override property"@ && diag.diags@[t].level
                        == crate::diagnostics::DiagnosticLevel::Error,
        decreases node.property_declarations@.len() - i,
    {
        let ghost pre_diags = diag.diags@;
        let ghost pre_e = *e;
        let decl = &node.property_declarations[i];
        let prop_type = match &decl.type_node {
            Some(tn) => {
                let t = type_from_node(tn, diag, tr);
                let ok = t.is_property_type();
                let invalid = matches!(t, Type::Invalid);
                if !invalid && !ok {
                    diag.push_error(
                        String::from_str("This is not a valid property type"),
                        tn.span,
                    );
                }
                t
            }
            // A two-way binding without a written type: the void placeholder
            // that alias resolution later replaces.
            Option::None => Type::Void,
        };
        let existing = lookup_property_local(tree, e, decl.name.as_str());
        proof {
            crate::langtype::lemma_view_tag(existing.property_type);
        }
        let already = !matches!(existing.property_type, Type::Invalid);
        let ghost err_idx: int = diag.diags@.len() as int;
        if already {
            diag.push_error(String::from_str("Cannot override property"), decl.name_span);
        }
        let ghost diags_after_check = diag.diags@;
        upsert_decl(
            &mut e.property_declarations,
            decl.name.clone(),
            PropertyDeclaration {
                property_type: prop_type,
                node_span: Some(decl.name_span),
                expose_in_public_api: false,
                is_alias: Option::None,
            },
        );
        match &decl.binding {
            Some(b) => {
                let expr_node = clone_expr_node(b);
                let binding = BindingExpression::new_uncompiled(
                    SyntaxNode::BindingExpression(Box::new(expr_node)),
                    decl.name_span,
                );
                let _ = insert_binding_with_duplicate_check(
                    &mut e.bindings,
                    decl.name.clone(),
                    binding,
                    decl.name_span,
                    String::from_str("Duplicated property binding"),
                    diag,
                );
            }
            Option::None => {}
        }
        match &decl.two_way {
            Some(t) => {
                let ghost parent = ExprNode::TwoWay(*t);
                let tw = clone_two_way_node(t, Ghost(parent));
                let binding = BindingExpression::new_uncompiled(
                    SyntaxNode::TwoWayBinding(tw),
                    decl.name_span,
                );
                let _ = insert_binding_with_duplicate_check(
                    &mut e.bindings,
                    decl.name.clone(),
                    binding,
                    decl.name_span,
                    String::from_str("Duplicated property binding"),
                    diag,
                );
            }
            Option::None => {}
        }
        proof {
            assert forall|k: int|
                0 <= k < i + 1 && (spec_local_lookup(
                    *tree,
                    *old(e),
                    (#[trigger] node.property_declarations@[k]).name@,
                ).1 !is Invalid) && (forall|m: int|
                    0 <= m < k ==> node.property_declarations@[m].name@
                        != node.property_declarations@[k].name@) implies exists|t: int|
                0 <= t < diag.diags@.len() && (#[trigger] diag.diags@[t]).span
                    == node.property_declarations@[k].name_span && diag.diags@[t].message@
                    == "Cannot override property"@ && diag.diags@[t].level
                    == crate::diagnostics::DiagnosticLevel::Error by {
                if k < i {
                    let t = choose|t: int|
                        0 <= t < pre_diags.len() && (#[trigger] pre_diags[t]).span
                            == node.property_declarations@[k].name_span && pre_diags[t].message@
                            == "Cannot override property"@ && pre_diags[t].level
                            == crate::diagnostics::DiagnosticLevel::Error;
                    assert(diag.diags@[t] == pre_diags[t]);
                } else {
                    assert(spec_local_lookup(*tree, pre_e, node.property_declarations@[k].name@)
                        == spec_local_lookup(*tree, *old(e), node.property_declarations@[k].name@));
                    assert(already);
                    assert(diags_after_check[err_idx].span
                        == node.property_declarations@[k].name_span);
                    assert(diag.diags@[err_idx] == diags_after_check[err_idx]);
                }
            }
        }
        i = i + 1;
    }
}

/// Bind `name: expr;` entries on the element, resolving deprecated
/// spellings, reporting what cannot be assigned, and detecting duplicates.
fn parse_bindings_into(
    tree: &ObjectTree,
    e: &mut Element,
    bindings: &Vec<BindingNode>,
    diag: &mut BuildDiagnostics,
)
    requires
        tree_wf(*tree),
        (match old(e).base_type {
            Type::Component(c) => c < tree.components@.len(),
            Type::Builtin(b) => b < tree.builtins@.len(),
            _ => true,
        }),
    ensures
        diags_extended(*old(diag), *final(diag)),
        final(e).base_type == old(e).base_type,
        final(e).children@ == old(e).children@,
        final(e).enclosing_component == old(e).enclosing_component,
        final(e).id@ == old(e).id@,
        final(e).property_declarations@ == old(e).property_declarations@,
        // Each binding is stored under its canonical name, deprecated
        // spellings resolved, unless the whole element's base already
        // failed.
        forall|k: int|
            0 <= k < bindings@.len() && !(spec_local_lookup(
                *tree,
                *old(e),
                (#[trigger] bindings@[k]).name@,
            ).1 is Invalid && old(e).base_type is Invalid)
                ==> crate::object_tree::spec_assoc_has(
                final(e).bindings@,
                spec_local_lookup(*tree, *old(e), bindings@[k].name@).0,
            ),
        // A written name that differs from its canonical spelling draws a
        // deprecation warning at the binding's name span.
        forall|k: int|
            0 <= k < bindings@.len() && spec_local_lookup(
                *tree,
                *old(e),
                (#[trigger] bindings@[k]).name@,
            ).0 != bindings@[k].name@ ==> exists|t: int|
                0 <= t < final(diag).diags@.len() && (#[trigger] final(diag).diags@[t]).span
                    == bindings@[k].name_span && final(diag).diags@[t].level
                    == crate::diagnostics::DiagnosticLevel::Warning,
{
    let mut i: usize = 0;
    while i < bindings.len()
        invariant
            tree_wf(*tree),
            (match e.base_type {
                Type::Component(c) => c < tree.components@.len(),
                Type::Builtin(b) => b < tree.builtins@.len(),
                _ => true,
            }),
            0 <= i <= bindings@.len(),
            diags_extended(*old(diag), *diag),
            e.base_type == old(e).base_type,
            e.children@ == old(e).children@,
            e.enclosing_component == old(e).enclosing_component,
            e.id@ == old(e).id@,
            e.property_declarations@ == old(e).property_declarations@,
            forall|k: int|
                0 <= k < i && !(spec_local_lookup(
                    *tree,
                    *old(e),
                    (#[trigger] bindings@[k]).name@,
                ).1 is Invalid && old(e).base_type is Invalid)
                    ==> crate::object_tree::spec_assoc_has(
                    e.bindings@,
                    spec_local_lookup(*tree, *old(e), bindings@[k].name@).0,
                ),
            forall|k: int|
                0 <= k < i && spec_local_lookup(
                    *tree,
                    *old(e),
                    (#[trigger] bindings@[k]).name@,
                ).0 != bindings@[k].name@ ==> exists|t: int|
                    0 <= t < diag.diags@.len() && (#[trigger] diag.diags@[t]).span
                        == bindings@[k].name_span && diag.diags@[t].level
                        == crate::diagnostics::DiagnosticLevel::Warning,
        decreases bindings@.len() - i,
    {
        let ghost pre_diags = diag.diags@;
        let b = &bindings[i];
        let looked_up = lookup_property_local(tree, e, b.name.as_str());
        proof {
            crate::langtype::lemma_view_tag(e.base_type);
        }
        let ghost lk = spec_local_lookup(*tree, *old(e), b.name@);
        let prop_ok = looked_up.property_type.is_property_type();
        if !prop_ok {
            let base_invalid = matches!(e.base_type, Type::Invalid);
            let prop_invalid = matches!(looked_up.property_type, Type::Invalid);
            let is_callback = matches!(looked_up.property_type, Type::Callback { .. });
            if prop_invalid && base_invalid {
                // The base type itself already failed; stay silent.
                proof {
                    crate::langtype::lemma_view_tag(looked_up.property_type);
                    assert(lk.1 is Invalid && old(e).base_type is Invalid);
                }
                i = i + 1;
                continue ;
            }
            if is_callback {
                diag.push_error(
                    String::from_str("This is a callback; use the callback arrow to connect"),
                    b.name_span,
                );
            } else if prop_invalid {
                diag.push_error(String::from_str("Unknown property"), b.name_span);
            } else {
                diag.push_error(
                    String::from_str("Cannot assign to this property"),
                    b.name_span,
                );
            }
        }
        let ghost warn_idx: int = diag.diags@.len() as int;
        if !str_eq(looked_up.resolved_name.as_str(), b.name.as_str()) {
            diag.push_property_deprecation_warning(
                String::from_str("The property was renamed; the old name is deprecated"),
                b.name_span,
            );
        }
        let ghost diags_after_warn = diag.diags@;
        let expr_node = clone_expr_node(&b.expr);
        let binding = BindingExpression::new_uncompiled(
            SyntaxNode::BindingExpression(Box::new(expr_node)),
            b.name_span,
        );
        let ghost pre_b = e.bindings@;
        let ghost rname = looked_up.resolved_name@;
        let _ = insert_binding_with_duplicate_check(
            &mut e.bindings,
            looked_up.resolved_name,
            binding,
            b.name_span,
            String::from_str("Duplicated property binding"),
            diag,
        );
        proof {
            assert(rname == lk.0);
            assert forall|n2: Seq<char>|
                crate::object_tree::spec_assoc_has(pre_b, n2) implies
                crate::object_tree::spec_assoc_has(e.bindings@, n2) by {
                crate::object_tree::lemma_assoc_index_props(pre_b, n2);
                let ji = crate::object_tree::spec_assoc_index(pre_b, n2)->Some_0;
                crate::object_tree::lemma_assoc_index_props(pre_b, rname);
                if crate::object_tree::spec_assoc_has(pre_b, rname) {
                    let jj = crate::object_tree::spec_assoc_index(pre_b, rname)->Some_0;
                    if ji != jj {
                        assert(e.bindings@[ji] == pre_b[ji]);
                    } else {
                        assert(e.bindings@[ji].0@ == rname);
                    }
                } else {
                    assert(e.bindings@[ji] == pre_b[ji]);
                }
                crate::object_tree::lemma_assoc_index_props(e.bindings@, n2);
            }
            crate::object_tree::lemma_assoc_index_props(pre_b, rname);
            if crate::object_tree::spec_assoc_has(pre_b, rname) {
                let jj = crate::object_tree::spec_assoc_index(pre_b, rname)->Some_0;
                assert(e.bindings@[jj].0@ == rname);
            } else {
                assert(e.bindings@[pre_b.len() as int].0@ == rname);
            }
            crate::object_tree::lemma_assoc_index_props(e.bindings@, rname);
            assert forall|k: int|
                0 <= k < i + 1 && spec_local_lookup(
                    *tree,
                    *old(e),
                    (#[trigger] bindings@[k]).name@,
                ).0 != bindings@[k].name@ implies exists|t: int|
                0 <= t < diag.diags@.len() && (#[trigger] diag.diags@[t]).span
                    == bindings@[k].name_span && diag.diags@[t].level
                    == crate::diagnostics::DiagnosticLevel::Warning by {
                if k < i {
                    let t = choose|t: int|
                        0 <= t < pre_diags.len() && (#[trigger] pre_diags[t]).span
                            == bindings@[k].name_span && pre_diags[t].level
                            == crate::diagnostics::DiagnosticLevel::Warning;
                    assert(diag.diags@[t] == pre_diags[t]);
                } else {
                    assert(diags_after_warn[warn_idx].span == bindings@[k].name_span);
                    assert(diag.diags@[warn_idx] == diags_after_warn[warn_idx]);
                }
            }
        }
        i = i + 1;
    }
}

/// Bind `name <=> target;` entries on the element with duplicate detection.
fn parse_two_way_bindings_into(
    tree: &ObjectTree,
    e: &mut Element,
    bindings: &Vec<TwoWayBindingNamedNode>,
    diag: &mut BuildDiagnostics,
)
    requires
        tree_wf(*tree),
        (match old(e).base_type {
            Type::Component(c) => c < tree.components@.len(),
            Type::Builtin(b) => b < tree.builtins@.len(),
            _ => true,
        }),
    ensures
        diags_extended(*old(diag), *final(diag)),
        final(e).base_type == old(e).base_type,
        final(e).children@ == old(e).children@,
        final(e).enclosing_component == old(e).enclosing_component,
        final(e).id@ == old(e).id@,
        final(e).property_declarations@ == old(e).property_declarations@,
{
    let mut i: usize = 0;
    while i < bindings.len()
        invariant
            tree_wf(*tree),
            (match e.base_type {
                Type::Component(c) => c < tree.components@.len(),
                Type::Builtin(b) => b < tree.builtins@.len(),
                _ => true,
            }),
            0 <= i <= bindings@.len(),
            diags_extended(*old(diag), *diag),
            e.base_type == old(e).base_type,
            e.children@ == old(e).children@,
            e.enclosing_component == old(e).enclosing_component,
            e.id@ == old(e).id@,
            e.property_declarations@ == old(e).property_declarations@,
        decreases bindings@.len() - i,
    {
        let b = &bindings[i];
        let looked_up = lookup_property_local(tree, e, b.name.as_str());
        if !str_eq(looked_up.resolved_name.as_str(), b.name.as_str()) {
            diag.push_property_deprecation_warning(
                String::from_str("The property was renamed; the old name is deprecated"),
                b.name_span,
            );
        }
        let ghost parent = ExprNode::TwoWay(b.target);
        let tw = clone_two_way_node(&b.target, Ghost(parent));
        let binding = BindingExpression::new_uncompiled(
            SyntaxNode::TwoWayBinding(tw),
            b.name_span,
        );
        let _ = insert_binding_with_duplicate_check(
            &mut e.bindings,
            looked_up.resolved_name,
            binding,
            b.name_span,
            String::from_str("Duplicated property binding"),
            diag,
        );
        i = i + 1;
    }
}

/// Give every builtin property with a default value an initial binding,
/// unless the source already bound it.
fn apply_builtin_default_bindings(tree: &ObjectTree, e: &mut Element)
    requires
        tree_wf(*tree),
        (match old(e).base_type {
            Type::Builtin(b) => b < tree.builtins@.len(),
            _ => true,
        }),
    ensures
        final(e).base_type == old(e).base_type,
        final(e).children@ == old(e).children@,
        final(e).enclosing_component == old(e).enclosing_component,
        final(e).id@ == old(e).id@,
        final(e).property_declarations@ == old(e).property_declarations@,
{
    let b = match &e.base_type {
        Type::Builtin(b) => *b,
        _ => {
            return ;
        }
    };
    let n = tree.builtins[b].properties.len();
    let mut i: usize = 0;
    while i < n
        invariant
            tree_wf(*tree),
            e.base_type == old(e).base_type,
            e.children@ == old(e).children@,
            e.enclosing_component == old(e).enclosing_component,
            e.id@ == old(e).id@,
            e.property_declarations@ == old(e).property_declarations@,
            b < tree.builtins@.len(),
            n == tree.builtins@[b as int].properties@.len(),
            0 <= i <= n,
        decreases n - i,
    {
        let prop = &tree.builtins[b].properties[i];
        match &prop.1.default_value {
            Some(expr) => {
                let existing = crate::object_tree::assoc_find_binding(
                    &e.bindings,
                    prop.0.as_str(),
                );
                if existing.is_none() {
                    e.bindings.push(
                        (prop.0.clone(), BindingExpression::from_expression(
                            clone_expression(expr),
                        )),
                    );
                }
            }
            Option::None => {}
        }
        i = i + 1;
    }
}


/// Declare the callbacks of a source element.
fn process_callback_declarations(
    e: &mut Element,
    node: &ElementNode,
    diag: &mut BuildDiagnostics,
    tr: &TypeRegister,
)
    ensures
        diags_extended(*old(diag), *final(diag)),
        final(e).base_type == old(e).base_type,
        final(e).children@ == old(e).children@,
        final(e).enclosing_component == old(e).enclosing_component,
        final(e).id@ == old(e).id@,
        forall|n2: Seq<char>|
            crate::object_tree::spec_assoc_has(old(e).property_declarations@, n2)
                ==> #[trigger] crate::object_tree::spec_assoc_has(
                final(e).property_declarations@,
                n2,
            ),
        forall|k: int|
            0 <= k < node.callback_declarations@.len()
                ==> crate::object_tree::spec_assoc_has(
                final(e).property_declarations@,
                (#[trigger] node.callback_declarations@[k]).name@,
            ),
{
    let mut i: usize = 0;
    while i < node.callback_declarations.len()
        invariant
            0 <= i <= node.callback_declarations@.len(),
            diags_extended(*old(diag), *diag),
            e.base_type == old(e).base_type,
            e.children@ == old(e).children@,
            e.enclosing_component == old(e).enclosing_component,
            e.id@ == old(e).id@,
            forall|n2: Seq<char>|
                crate::object_tree::spec_assoc_has(old(e).property_declarations@, n2)
                    ==> #[trigger] crate::object_tree::spec_assoc_has(
                    e.property_declarations@,
                    n2,
                ),
            forall|k: int|
                0 <= k < i ==> crate::object_tree::spec_assoc_has(
                    e.property_declarations@,
                    (#[trigger] node.callback_declarations@[k]).name@,
                ),
        decreases node.callback_declarations@.len() - i,
    {
        let decl = &node.callback_declarations[i];
        match &decl.two_way {
            Some(t) => {
                // A two-way-bound callback gets an inferred-callback
                // placeholder and the binding.
                let ghost parent = ExprNode::TwoWay(*t);
                let tw = clone_two_way_node(t, Ghost(parent));
                let binding = BindingExpression::new_uncompiled(
                    SyntaxNode::TwoWayBinding(tw),
                    decl.name_span,
                );
                let _ = insert_binding_with_duplicate_check(
                    &mut e.bindings,
                    decl.name.clone(),
                    binding,
                    decl.name_span,
                    String::from_str("Duplicated callback"),
                    diag,
                );
                upsert_decl(
                    &mut e.property_declarations,
                    decl.name.clone(),
                    PropertyDeclaration {
                        property_type: Type::InferredCallback,
                        node_span: Some(decl.name_span),
                        expose_in_public_api: false,
                        is_alias: Option::None,
                    },
                );
            }
            Option::None => {
                let mut args: Vec<Type> = Vec::new();
                let mut j: usize = 0;
                while j < decl.args.len()
                    invariant
                        0 <= j <= decl.args@.len(),
                        diags_extended(*old(diag), *diag),
                    decreases decl.args@.len() - j,
                {
                    let t = type_from_node(&decl.args[j], diag, tr);
                    args.push(t);
                    j = j + 1;
                }
                let return_type = match &decl.return_type {
                    Some(rt) => Some(Box::new(type_from_node(rt, diag, tr))),
                    Option::None => Option::None,
                };
                upsert_decl(
                    &mut e.property_declarations,
                    decl.name.clone(),
                    PropertyDeclaration {
                        property_type: Type::Callback { return_type, args },
                        node_span: Some(decl.name_span),
                        expose_in_public_api: false,
                        is_alias: Option::None,
                    },
                );
            }
        }
        i = i + 1;
    }
}

/// Connect the callback handlers of a source element, checking the arity and
/// detecting duplicate connections.
fn process_callback_connections(
    tree: &ObjectTree,
    e: &mut Element,
    node: &ElementNode,
    diag: &mut BuildDiagnostics,
)
    requires
        tree_wf(*tree),
        (match old(e).base_type {
            Type::Component(c) => c < tree.components@.len(),
            Type::Builtin(b) => b < tree.builtins@.len(),
            _ => true,
        }),
    ensures
        diags_extended(*old(diag), *final(diag)),
        final(e).base_type == old(e).base_type,
        final(e).children@ == old(e).children@,
        final(e).enclosing_component == old(e).enclosing_component,
        final(e).id@ == old(e).id@,
        final(e).property_declarations@ == old(e).property_declarations@,
{
    let mut i: usize = 0;
    while i < node.callback_connections.len()
        invariant
            tree_wf(*tree),
            (match e.base_type {
                Type::Component(c) => c < tree.components@.len(),
                Type::Builtin(b) => b < tree.builtins@.len(),
                _ => true,
            }),
            0 <= i <= node.callback_connections@.len(),
            diags_extended(*old(diag), *diag),
            e.base_type == old(e).base_type,
            e.children@ == old(e).children@,
            e.enclosing_component == old(e).enclosing_component,
            e.id@ == old(e).id@,
            e.property_declarations@ == old(e).property_declarations@,
        decreases node.callback_connections@.len() - i,
    {
        let con = &node.callback_connections[i];
        let looked_up = lookup_property_local(tree, e, con.name.as_str());
        let mut connectable = false;
        match &looked_up.property_type {
            Type::Callback { args, .. } => {
                connectable = true;
                if con.arg_names.len() > args.len() {
                    diag.push_error(
                        String::from_str("Too many arguments for this callback"),
                        con.name_span,
                    );
                }
            }
            Type::InferredCallback => {
                // Argument matching happens after alias resolution.
                connectable = true;
            }
            _ => {
                diag.push_error(String::from_str("This is not a callback"), con.name_span);
            }
        }
        if connectable {
            let handler = clone_expr_node(&con.handler);
            let mut arg_names: Vec<String> = Vec::new();
            let mut j: usize = 0;
            while j < con.arg_names.len()
                invariant
                    0 <= j <= con.arg_names@.len(),
                decreases con.arg_names@.len() - j,
            {
                arg_names.push(con.arg_names[j].clone());
                j = j + 1;
            }
            let binding = BindingExpression::new_uncompiled(
                SyntaxNode::CallbackConnection(
                    Box::new(crate::syntax::CallbackConnectionNode {
                        name: con.name.clone(),
                        name_span: con.name_span,
                        arg_names,
                        handler,
                    }),
                ),
                con.name_span,
            );
            let _ = insert_binding_with_duplicate_check(
                &mut e.bindings,
                looked_up.resolved_name,
                binding,
                con.name_span,
                String::from_str("Duplicated callback"),
                diag,
            );
        }
        i = i + 1;
    }
}

/// Create the element holding an animation's bindings; `None`, with a
/// diagnostic, when the property cannot be animated.
fn animation_element_from_node(
    tree: &mut ObjectTree,
    anim: &PropertyAnimationNode,
    target_span: Span,
    prop_type: &Type,
    diag: &mut BuildDiagnostics,
    tr: &TypeRegister,
) -> (r: Option<usize>)
    requires
        tree_wf(*old(tree)),
        registry_valid(*tr, *old(tree)),
    ensures
        tree_wf(*final(tree)),
        tree_extended(*old(tree), *final(tree)),
        final(tree).components@ == old(tree).components@,
        diags_extended(*old(diag), *final(diag)),
        (match r {
            Some(i) => i < final(tree).elements@.len(),
            Option::None => true,
        }),
{
    let anim_type = tr.property_animation_type_for_property(prop_type);
    let is_builtin = matches!(anim_type, Type::Builtin(_));
    if !is_builtin {
        diag.push_error(
            String::from_str("This is not a property that can be animated"),
            target_span,
        );
        Option::None
    } else {
        proof {
            match anim_type {
                Type::Builtin(b) => {
                    assert(anim_type@ == crate::typeregister::spec_property_animation_type(
                        *tr,
                        prop_type@,
                    ));
                    assert(b < tree.builtins@.len());
                }
                _ => {}
            }
        }
        let mut anim_element = Element::new(String::new(), anim_type, Option::None);
        parse_bindings_into(tree, &mut anim_element, &anim.bindings, diag);
        let idx = tree.push_element(anim_element);
        Some(idx)
    }
}

/// Attach `animate` blocks to the element's properties, one animation per
/// property, with duplicate detection.
fn process_animations(
    tree: &mut ObjectTree,
    e: &mut Element,
    node: &ElementNode,
    diag: &mut BuildDiagnostics,
    tr: &TypeRegister,
)
    requires
        tree_wf(*old(tree)),
        registry_valid(*tr, *old(tree)),
        (match old(e).base_type {
            Type::Component(c) => c < old(tree).components@.len(),
            Type::Builtin(b) => b < old(tree).builtins@.len(),
            _ => true,
        }),
    ensures
        tree_wf(*final(tree)),
        tree_extended(*old(tree), *final(tree)),
        final(tree).components@ == old(tree).components@,
        diags_extended(*old(diag), *final(diag)),
        final(e).base_type == old(e).base_type,
        final(e).children@ == old(e).children@,
        final(e).enclosing_component == old(e).enclosing_component,
        final(e).id@ == old(e).id@,
        final(e).property_declarations@ == old(e).property_declarations@,
{
    let mut i: usize = 0;
    while i < node.property_animations.len()
        invariant
            tree_wf(*tree),
            tree_extended(*old(tree), *tree),
            tree.components@ == old(tree).components@,
            registry_valid(*tr, *tree),
            (match e.base_type {
                Type::Component(c) => c < tree.components@.len(),
                Type::Builtin(b) => b < tree.builtins@.len(),
                _ => true,
            }),
            0 <= i <= node.property_animations@.len(),
            diags_extended(*old(diag), *diag),
            e.base_type == old(e).base_type,
            e.children@ == old(e).children@,
            e.enclosing_component == old(e).enclosing_component,
            e.id@ == old(e).id@,
            e.property_declarations@ == old(e).property_declarations@,
        decreases node.property_animations@.len() - i,
    {
        let anim = &node.property_animations[i];
        if anim.catch_all {
            diag.push_error(
                String::from_str("A catch-all animation is only allowed within transitions"),
                anim.span,
            );
        }
        let mut j: usize = 0;
        while j < anim.targets.len()
            invariant
                tree_wf(*tree),
                tree_extended(*old(tree), *tree),
                tree.components@ == old(tree).components@,
                registry_valid(*tr, *tree),
                (match e.base_type {
                    Type::Component(c) => c < tree.components@.len(),
                    Type::Builtin(b) => b < tree.builtins@.len(),
                    _ => true,
                }),
                0 <= j <= anim.targets@.len(),
                diags_extended(*old(diag), *diag),
                e.base_type == old(e).base_type,
                e.children@ == old(e).children@,
                e.enclosing_component == old(e).enclosing_component,
                e.id@ == old(e).id@,
                e.property_declarations@ == old(e).property_declarations@,
            decreases anim.targets@.len() - j,
        {
            let target = &anim.targets[j];
            let ghost pre_tree = *tree;
            if target.members.len() == 1 {
                let looked_up = lookup_property_local(tree, e, target.members[0].as_str());
                let anim_elem = animation_element_from_node(
                    tree,
                    anim,
                    target.span,
                    &looked_up.property_type,
                    diag,
                    tr,
                );
                match anim_elem {
                    Some(ae) => {
                        if !str_eq(
                            looked_up.resolved_name.as_str(),
                            target.members[0].as_str(),
                        ) {
                            diag.push_property_deprecation_warning(
                                String::from_str(
                                    "The property was renamed; the old name is deprecated",
                                ),
                                target.span,
                            );
                        }
                        let existed = assoc_has_animation(
                            &e.property_animations,
                            looked_up.resolved_name.as_str(),
                        );
                        if existed {
                            diag.push_error(
                                String::from_str("Duplicated animation"),
                                target.span,
                            );
                        } else {
                            e.property_animations.push(
                                (looked_up.resolved_name, PropertyAnimation::Static(ae)),
                            );
                        }
                    }
                    Option::None => {}
                }
            } else {
                diag.push_error(
                    String::from_str("Can only refer to a property in the current element"),
                    target.span,
                );
            }
            proof {
                lemma_registry_valid_extended(*tr, pre_tree, *tree);
            }
            j = j + 1;
        }
        i = i + 1;
    }
}

/// Whether a property already has an animation entry.
fn assoc_has_animation(entries: &Vec<(String, PropertyAnimation)>, name: &str) -> (r: bool) {
    let mut i: usize = 0;
    while i < entries.len()
        invariant
            0 <= i <= entries@.len(),
        decreases entries@.len() - i,
    {
        if str_eq(entries[i].0.as_str(), name) {
            return true;
        }
        i = i + 1;
    }
    false
}


/// The base type an element node resolves to: the registry's answer for its
/// written name, demoted to `Invalid` for globals, non-element types and
/// unknown names; `Void` for a global component body, `Invalid` for a
/// missing base anywhere else.
pub open spec fn spec_resolved_base(
    node: ElementNode,
    tr: TypeRegister,
    tree: ObjectTree,
    parent_type: Type,
) -> TypeV {
    match node.base {
        Some(qn) => {
            let looked_up = crate::typeregister::spec_lookup_qualified(tr, qn.members@);
            match looked_up {
                TypeV::Component(c) => {
                    if 0 <= c < tree.components@.len()
                        && crate::object_tree::spec_is_global_component(tree, c) {
                        TypeV::Invalid
                    } else {
                        TypeV::Component(c)
                    }
                }
                TypeV::Builtin(b) => TypeV::Builtin(b),
                _ => TypeV::Invalid,
            }
        }
        Option::None => {
            if crate::langtype::type_view(parent_type) != TypeV::Invalid {
                TypeV::Invalid
            } else {
                TypeV::Void
            }
        }
    }
}

/// Whether an element node itself holds a children placeholder.
pub open spec fn spec_has_direct_placeholder(node: ElementNode) -> bool {
    exists|i: int|
        0 <= i < node.children@.len() && (#[trigger] node.children@[i]) is Placeholder
}

/// How many constructs a global component body is not allowed to hold.
pub open spec fn spec_global_violations(node: ElementNode) -> int {
    node.children@.len() as int + node.callback_connections@.len() as int
        + node.property_animations@.len() as int + node.states@.len() as int
        + node.transitions@.len() as int
}

/// Resolve a property reference `prop` or `elem.prop` within the subtree of
/// an element; reports invalid references.
pub fn lookup_property_from_qualified_name(
    tree: &ObjectTree,
    qn: &QualifiedNameNode,
    relative_to: usize,
    diag: &mut BuildDiagnostics,
) -> (r: Option<(NamedReference, Type)>)
    requires
        tree_wf(*tree),
        relative_to < tree.elements@.len(),
    ensures
        diags_extended(*old(diag), *final(diag)),
        (match r {
            Some(p) => p.0.element < tree.elements@.len(),
            Option::None => true,
        }),
        // A plain name resolves on the element itself to the canonical name
        // and type the lookup gives.
        (qn.members@.len() == 1 ==> (r matches Some(p) && p.0.element == relative_to && (
        p.0.name@,
        p.1@,
        ) == crate::object_tree::spec_lookup_property(
            *tree,
            relative_to as int,
            qn.members@[0]@,
        ))),
        // A two-part name resolves on the element found by id, when one is.
        (qn.members@.len() == 2 ==> (match crate::object_tree::spec_find_by_id(
            *tree,
            relative_to as int,
            qn.members@[0]@,
        ) {
            Some(ei) => r matches Some(p) && p.0.element == ei && (p.0.name@, p.1@)
                == crate::object_tree::spec_lookup_property(*tree, ei as int, qn.members@[1]@),
            Option::None => r is None && final(diag).diags@.len() == old(diag).diags@.len()
                + 1,
        })),
        (qn.members@.len() > 2 ==> r is None && final(diag).diags@.len() == old(
            diag,
        ).diags@.len() + 1),
{
    if qn.members.len() == 1 {
        let looked_up = tree.lookup_property(relative_to, qn.members[0].as_str());
        if !looked_up.property_type.is_property_type() {
            diag.push_error(String::from_str("This is not a valid property"), qn.span);
        }
        Some(
            (NamedReference::new(relative_to, looked_up.resolved_name),
            looked_up.property_type),
        )
    } else if qn.members.len() == 2 {
        let elem = tree.find_element_by_id(relative_to, qn.members[0].as_str());
        match elem {
            Some(ei) => {
                let looked_up = tree.lookup_property(ei, qn.members[1].as_str());
                if !looked_up.property_type.is_property_type() {
                    diag.push_error(
                        String::from_str("The property was not found on the element"),
                        qn.span,
                    );
                }
                Some(
                    (NamedReference::new(ei, looked_up.resolved_name),
                    looked_up.property_type),
                )
            }
            Option::None => {
                diag.push_error(String::from_str("This is not a valid element id"), qn.span);
                Option::None
            }
        }
    } else {
        diag.push_error(String::from_str("This is not a valid property"), qn.span);
        Option::None
    }
}

/// Build one element of the object tree from its source node: resolve the
/// base type, read declarations and bindings with duplicate detection,
/// default-fill builtin properties, attach animations, build the children
/// (tracking the single allowed children placeholder through the out
/// parameter), then compile states and transitions against the finished
/// subtree. Returns the new element's index.
pub fn element_from_node(
    tree: &mut ObjectTree,
    node: &ElementNode,
    id: String,
    parent_type: &Type,
    component_child_insertion_point: &mut Option<(usize, Span)>,
    diag: &mut BuildDiagnostics,
    tr: &TypeRegister,
) -> (r: usize)
    requires
        tree_wf(*old(tree)),
        registry_valid(*tr, *old(tree)),
    ensures
        tree_wf(*final(tree)),
        tree_extended(*old(tree), *final(tree)),
        diags_extended(*old(diag), *final(diag)),
        r < final(tree).elements@.len(),
        r >= old(tree).elements@.len(),
        final(tree).elements@.len() > old(tree).elements@.len(),
        final(tree).components@ == old(tree).components@,
        final(tree).elements@[r as int].id@ == id@,
        // The element's base is the registry resolution of the written base.
        final(tree).elements@[r as int].base_type@ == spec_resolved_base(
            *node,
            *tr,
            *old(tree),
            *parent_type,
        ),
        // The children placeholder is threaded through the out parameter:
        // a recorded point is never cleared or overwritten, and a subtree
        // with a direct placeholder records one.
        (*old(component_child_insertion_point)) is Some
            ==> *final(component_child_insertion_point) == *old(
            component_child_insertion_point,
        ),
        (*final(component_child_insertion_point)) is None ==> (*old(
            component_child_insertion_point,
        )) is None,
        ((*old(component_child_insertion_point)) is None && spec_has_direct_placeholder(*node)
            && node.base is Some) ==> (*final(component_child_insertion_point)) is Some,
        // A placeholder in a subtree that already recorded one is reported.
        ((*old(component_child_insertion_point)) is Some && spec_has_direct_placeholder(*node)
            && node.base is Some) ==> exists|t: int|
            0 <= t < final(diag).diags@.len() && (#[trigger] final(diag).diags@[t]).message@
                == "The children placeholder can only appear once in an element hierarchy"@
                && final(diag).diags@[t].level == crate::diagnostics::DiagnosticLevel::Error,
        // A second direct placeholder in one element is reported.
        ((exists|k1: int, k2: int|
            0 <= k1 < k2 < node.children@.len() && (#[trigger] node.children@[k1]) is Placeholder
                && (#[trigger] node.children@[k2]) is Placeholder) && node.base is Some)
            ==> exists|t: int|
            0 <= t < final(diag).diags@.len() && (#[trigger] final(diag).diags@[t]).message@
                == "The children placeholder can only appear once in an element"@
                && final(diag).diags@[t].level == crate::diagnostics::DiagnosticLevel::Error,
        // Every declared property and callback name ends in the element's
        // declaration table.
        (node.base is Some || crate::langtype::type_view(*parent_type) == TypeV::Invalid) ==> (
        forall|k: int|
            0 <= k < node.property_declarations@.len()
                ==> crate::object_tree::spec_assoc_has(
                final(tree).elements@[r as int].property_declarations@,
                (#[trigger] node.property_declarations@[k]).name@,
            )) && (forall|k: int|
            0 <= k < node.callback_declarations@.len()
                ==> crate::object_tree::spec_assoc_has(
                final(tree).elements@[r as int].property_declarations@,
                (#[trigger] node.callback_declarations@[k]).name@,
            )),
        // Instantiating a global component is an error, reported first.
        (node.base matches Some(qn) && (crate::typeregister::spec_lookup_qualified(
            *tr,
            qn.members@,
        ) matches TypeV::Component(c) && 0 <= c < old(tree).components@.len()
            && crate::object_tree::spec_is_global_component(*old(tree), c)))
            ==> final(diag).diags@.len() > old(diag).diags@.len()
            && final(diag).diags@[old(diag).diags@.len() as int].level
            == crate::diagnostics::DiagnosticLevel::Error,
        // A global component body may hold only properties and callbacks:
        // each forbidden construct is reported, before anything else.
        (node.base is None && crate::langtype::type_view(*parent_type) == TypeV::Invalid)
            ==> final(diag).diags@.len() >= old(diag).diags@.len() + spec_global_violations(
            *node,
        ) && (forall|m: int|
            old(diag).diags@.len() <= m < old(diag).diags@.len() + spec_global_violations(
                *node,
            ) ==> (#[trigger] final(diag).diags@[m]).level
                == crate::diagnostics::DiagnosticLevel::Error),
    decreases *node, 1int,
{
    let entry_len = tree.elements.len();
    // Resolve the base type through the enclosing register. An element with
    // no written base can only be a global component's body.
    let base_type: Type = match &node.base {
        Some(base_node) => {
            let qualified = QualifiedTypeName::from_node(base_node);
            let looked_up = tr.lookup_qualified(&qualified.members);
            proof {
                if qualified.members@.len() == 1 {
                    lemma_registry_lookup_valid(*tr, qualified.members@[0]@, *tree);
                }
            }
            match looked_up {
                Type::Component(c) => {
                    if tree.is_global_component(c) {
                        diag.push_error(
                            String::from_str(
                                "Cannot create an instance of a global component",
                            ),
                            base_node.span,
                        );
                        Type::Invalid
                    } else {
                        Type::Component(c)
                    }
                }
                Type::Builtin(b) => Type::Builtin(b),
                Type::Invalid => {
                    diag.push_error(String::from_str("Unknown element type"), base_node.span);
                    Type::Invalid
                }
                _ => {
                    diag.push_error(
                        String::from_str("This type cannot be used as an element"),
                        base_node.span,
                    );
                    Type::Invalid
                }
            }
        }
        Option::None => {
            let parent_invalid = matches!(parent_type, Type::Invalid);
            if !parent_invalid {
                // The grammar does not produce this; recover with a stub.
                diag.push_error(
                    String::from_str("An element inside another element needs a base type"),
                    node.span,
                );
                let stub = Element::new(id, Type::Invalid, Some(node.span));
                let r = tree.push_element(stub);
                return r;
            }
            // A global component body: only properties and callbacks; each
            // forbidden construct is reported.
            let ghost base_len = diag.diags@.len();
            let mut k: usize = 0;
            while k < node.children.len()
                invariant
                    0 <= k <= node.children@.len(),
                    diags_extended(*old(diag), *diag),
                    diag.diags@.len() == base_len + k,
                    forall|m: int|
                        base_len <= m < diag.diags@.len() ==> (#[trigger] diag.diags@[m]).level
                            == crate::diagnostics::DiagnosticLevel::Error,
                decreases node.children@.len() - k,
            {
                diag.push_error(
                    String::from_str("A global component cannot have sub elements"),
                    node.span,
                );
                k = k + 1;
            }
            let mut k: usize = 0;
            while k < node.callback_connections.len()
                invariant
                    0 <= k <= node.callback_connections@.len(),
                    diags_extended(*old(diag), *diag),
                    diag.diags@.len() == base_len + node.children@.len() + k,
                    forall|m: int|
                        base_len <= m < diag.diags@.len() ==> (#[trigger] diag.diags@[m]).level
                            == crate::diagnostics::DiagnosticLevel::Error,
                decreases node.callback_connections@.len() - k,
            {
                diag.push_error(
                    String::from_str("A global component cannot have callback connections"),
                    node.callback_connections[k].name_span,
                );
                k = k + 1;
            }
            let mut k: usize = 0;
            while k < node.property_animations.len()
                invariant
                    0 <= k <= node.property_animations@.len(),
                    diags_extended(*old(diag), *diag),
                    diag.diags@.len() == base_len + node.children@.len()
                        + node.callback_connections@.len() + k,
                    forall|m: int|
                        base_len <= m < diag.diags@.len() ==> (#[trigger] diag.diags@[m]).level
                            == crate::diagnostics::DiagnosticLevel::Error,
                decreases node.property_animations@.len() - k,
            {
                diag.push_error(
                    String::from_str("A global component cannot have animations"),
                    node.property_animations[k].span,
                );
                k = k + 1;
            }
            let mut k: usize = 0;
            while k < node.states.len()
                invariant
                    0 <= k <= node.states@.len(),
                    diags_extended(*old(diag), *diag),
                    diag.diags@.len() == base_len + node.children@.len()
                        + node.callback_connections@.len() + node.property_animations@.len()
                        + k,
                    forall|m: int|
                        base_len <= m < diag.diags@.len() ==> (#[trigger] diag.diags@[m]).level
                            == crate::diagnostics::DiagnosticLevel::Error,
                decreases node.states@.len() - k,
            {
                diag.push_error(
                    String::from_str("A global component cannot have states"),
                    node.states[k].span,
                );
                k = k + 1;
            }
            let mut k: usize = 0;
            while k < node.transitions.len()
                invariant
                    0 <= k <= node.transitions@.len(),
                    diags_extended(*old(diag), *diag),
                    diag.diags@.len() == base_len + node.children@.len()
                        + node.callback_connections@.len() + node.property_animations@.len()
                        + node.states@.len() + k,
                    forall|m: int|
                        base_len <= m < diag.diags@.len() ==> (#[trigger] diag.diags@[m]).level
                            == crate::diagnostics::DiagnosticLevel::Error,
                decreases node.transitions@.len() - k,
            {
                diag.push_error(
                    String::from_str("A global component cannot have transitions"),
                    node.transitions[k].span,
                );
                k = k + 1;
            }
            Type::Void
        }
    };
    proof {
        match &node.base {
            Some(qn) => {
                crate::langtype::lemma_view_tag(base_type);
            }
            Option::None => {}
        }
    }
    let ghost base_g = base_type;
    let ghost base_view = base_type@;
    let ghost diag_after_base = *diag;
    proof {
        assert(base_view == spec_resolved_base(*node, *tr, *old(tree), *parent_type));
    }
    let mut e = Element::new(id, base_type, Some(node.span));
    process_property_declarations(tree, &mut e, node, diag, tr);
    parse_bindings_into(tree, &mut e, &node.bindings, diag);
    parse_two_way_bindings_into(tree, &mut e, &node.two_way_bindings, diag);
    apply_builtin_default_bindings(tree, &mut e);
    process_callback_declarations(&mut e, node, diag, tr);
    process_callback_connections(tree, &mut e, node, diag);
    process_animations(tree, &mut e, node, diag, tr);
    let ghost decls_g = e.property_declarations@;
    proof {
        lemma_registry_valid_extended(*tr, *old(tree), *tree);
        assert(forall|k: int|
            0 <= k < node.property_declarations@.len()
                ==> crate::object_tree::spec_assoc_has(
                decls_g,
                (#[trigger] node.property_declarations@[k]).name@,
            ));
        assert(forall|k: int|
            0 <= k < node.callback_declarations@.len()
                ==> crate::object_tree::spec_assoc_has(
                decls_g,
                (#[trigger] node.callback_declarations@[k]).name@,
            ));
    }

    // Children: sub elements, repeated and conditional elements, and at most
    // one children placeholder in the whole component.
    let mut repeated_children: Vec<(usize, bool)> = Vec::new();
    let mut placeholder: Option<Span> = Option::None;
    let mut ci: usize = 0;
    while ci < node.children.len()
        invariant
            tree_wf(*tree),
            tree_extended(*old(tree), *tree),
            tree.components@ == old(tree).components@,
            registry_valid(*tr, *tree),
            0 <= ci <= node.children@.len(),
            diags_extended(*old(diag), *diag),
            diags_extended(diag_after_base, *diag),
            (match e.base_type {
                Type::Component(c) => c < tree.components@.len(),
                Type::Builtin(b) => b < tree.builtins@.len(),
                _ => true,
            }),
            e.enclosing_component is None,
            e.base_type == base_g,
            e.id@ == id@,
            e.property_declarations@ == decls_g,
            forall|k: int|
                0 <= k < e.children@.len() ==> (#[trigger] e.children@[k])
                    < tree.elements@.len(),
            forall|k: int|
                0 <= k < repeated_children@.len() ==> (#[trigger] repeated_children@[k]).0
                    < tree.elements@.len(),
            (*old(component_child_insertion_point)) is Some
                ==> *component_child_insertion_point == *old(
                component_child_insertion_point,
            ),
            (*component_child_insertion_point) is None ==> (*old(
                component_child_insertion_point,
            )) is None,
            placeholder is None ==> forall|k: int|
                0 <= k < ci ==> !((#[trigger] node.children@[k]) is Placeholder),
            placeholder is Some ==> exists|k: int|
                0 <= k < ci && (#[trigger] node.children@[k]) is Placeholder,
            (*old(component_child_insertion_point)) is Some
                ==> *component_child_insertion_point == *old(component_child_insertion_point),
            (exists|k1: int, k2: int|
                0 <= k1 < k2 < ci && (#[trigger] node.children@[k1]) is Placeholder && (
                #[trigger] node.children@[k2]) is Placeholder) ==> exists|t: int|
                0 <= t < diag.diags@.len() && (#[trigger] diag.diags@[t]).message@
                    == "The children placeholder can only appear once in an element"@
                    && diag.diags@[t].level == crate::diagnostics::DiagnosticLevel::Error,
        decreases node.children@.len() - ci,
    {
        let ghost pre_diags_ci = diag.diags@;
        let ghost pre_tree = *tree;
        proof {
            assert(decreases_to!(*node => node.children@[ci as int]));
        }
        match &node.children[ci] {
            ChildNode::Sub(sub) => {
                let child = sub_element_from_node(
                    tree,
                    sub,
                    &e.base_type,
                    component_child_insertion_point,
                    diag,
                    tr,
                    Ghost(node.children@[ci as int]),
                );
                e.children.push(child);
            }
            ChildNode::Repeated(rep) => {
                let child = repeated_element_from_node(
                    tree,
                    rep,
                    &e.base_type,
                    component_child_insertion_point,
                    diag,
                    tr,
                    Ghost(node.children@[ci as int]),
                );
                e.children.push(child);
                repeated_children.push((child, true));
            }
            ChildNode::Conditional(cond) => {
                let child = conditional_element_from_node(
                    tree,
                    cond,
                    &e.base_type,
                    component_child_insertion_point,
                    diag,
                    tr,
                    Ghost(node.children@[ci as int]),
                );
                e.children.push(child);
            }
            ChildNode::Placeholder(span) => {
                if placeholder.is_some() {
                    diag.push_error(
                        String::from_str(
                            "The children placeholder can only appear once in an element",
                        ),
                        *span,
                    );
                } else {
                    placeholder = Some(*span);
                }
            }
        }
        proof {
            lemma_registry_valid_extended(*tr, pre_tree, *tree);
            assert forall|k1: int, k2: int|
                0 <= k1 < k2 < ci + 1 && (#[trigger] node.children@[k1]) is Placeholder && (
            #[trigger] node.children@[k2]) is Placeholder implies exists|t: int|
                0 <= t < diag.diags@.len() && (#[trigger] diag.diags@[t]).message@
                    == "The children placeholder can only appear once in an element"@
                    && diag.diags@[t].level == crate::diagnostics::DiagnosticLevel::Error by {
                if k2 < ci {
                    let t = choose|t: int|
                        0 <= t < pre_diags_ci.len() && (#[trigger] pre_diags_ci[t]).message@
                            == "The children placeholder can only appear once in an element"@
                            && pre_diags_ci[t].level
                            == crate::diagnostics::DiagnosticLevel::Error;
                    assert(diag.diags@[t] == pre_diags_ci[t]);
                } else {
                    assert(diag.diags@[diag.diags@.len() - 1].message@
                        == "The children placeholder can only appear once in an element"@);
                }
            }
        }
        ci = ci + 1;
    }

    let r = tree.push_element(e);

    // A list view hands its repeated children the viewport and geometry
    // properties to bind against.
    let is_listview = tree.base_is_builtin_named(r, "ListView");
    if is_listview {
        let mut k: usize = 0;
        while k < repeated_children.len()
            invariant
                tree_wf(*tree),
                r < tree.elements@.len(),
                tree.elements@[r as int].base_type == base_g,
                tree.elements@[r as int].id@ == id@,
                tree.elements@[r as int].property_declarations@ == decls_g,
                entry_len == old(tree).elements@.len(),
                0 <= k <= repeated_children@.len(),
                forall|k2: int|
                    0 <= k2 < repeated_children@.len() ==> (#[trigger] repeated_children@[
                        k2
                    ]).0 < r,
                tree.elements@.len() > old(tree).elements@.len(),
                tree.elements@.len() >= old(tree).elements@.len(),
                tree.components@ == old(tree).components@,
                tree.builtins@ == old(tree).builtins@,
                tree.natives@ == old(tree).natives@,
                forall|i: int|
                    0 <= i < old(tree).elements@.len() ==> tree.elements@[i] == old(
                        tree,
                    ).elements@[i],
            decreases repeated_children@.len() - k,
        {
            let child = repeated_children[k].0;
            let lv = ListViewInfo {
                viewport_y: NamedReference::new(r, String::from_str("viewport_y")),
                viewport_height: NamedReference::new(r, String::from_str("viewport_height")),
                viewport_width: NamedReference::new(r, String::from_str("viewport_width")),
                listview_height: NamedReference::new(r, String::from_str("visible_height")),
                listview_width: NamedReference::new(r, String::from_str("visible_width")),
            };
            if child >= entry_len {
                tree.set_listview(child, lv);
            }
            k = k + 1;
        }
    }

    let ghost post_loop_diags = diag.diags@;
    match placeholder {
        Some(span) => {
            if component_child_insertion_point.is_some() {
                diag.push_error(
                    String::from_str(
                        "The children placeholder can only appear once in an element hierarchy",
                    ),
                    span,
                );
                proof {
                    assert(diag.diags@[diag.diags@.len() - 1].message@
                        == "The children placeholder can only appear once in an element hierarchy"@);
                }
            } else {
                *component_child_insertion_point = Some((r, span));
            }
        }
        Option::None => {}
    }

    proof {
        lemma_registry_valid_extended(*tr, *old(tree), *tree);
        assert(tree.elements@[r as int].base_type == base_g);
    }
    let ghost pre_states = *tree;
    proof {
        assert(pre_states.elements@[r as int].base_type == base_g);
        assert(pre_states.elements@[r as int].id@ == id@);
        assert(pre_states.elements@[r as int].property_declarations@ == decls_g);
    }
    process_states_and_transitions(tree, r, node, diag, tr);
    proof {
        assert forall|k1: int, k2: int|
            0 <= k1 < k2 < node.children@.len() && (#[trigger] node.children@[k1]) is Placeholder
                && (#[trigger] node.children@[k2]) is Placeholder implies exists|t: int|
            0 <= t < diag.diags@.len() && (#[trigger] diag.diags@[t]).message@
                == "The children placeholder can only appear once in an element"@
                && diag.diags@[t].level == crate::diagnostics::DiagnosticLevel::Error by {
            let t = choose|t: int|
                0 <= t < post_loop_diags.len() && (#[trigger] post_loop_diags[t]).message@
                    == "The children placeholder can only appear once in an element"@
                    && post_loop_diags[t].level == crate::diagnostics::DiagnosticLevel::Error;
            assert(diag.diags@[t] == post_loop_diags[t]);
        }
        assert(tree_extended(*old(tree), *tree));
        assert(tree.elements@[r as int] == (Element {
            states: tree.elements@[r as int].states,
            transitions: tree.elements@[r as int].transitions,
            ..pre_states.elements@[r as int]
        }));
        assert(tree.elements@[r as int].base_type == pre_states.elements@[
            r as int
        ].base_type);
        assert(diags_extended(diag_after_base, *diag));
    }
    r
}

/// Build the child of a sub-element node, rejecting reserved identifiers.
fn sub_element_from_node(
    tree: &mut ObjectTree,
    sub: &SubElementNode,
    parent_type: &Type,
    component_child_insertion_point: &mut Option<(usize, Span)>,
    diag: &mut BuildDiagnostics,
    tr: &TypeRegister,
    parent: Ghost<ChildNode>,
) -> (r: usize)
    requires
        tree_wf(*old(tree)),
        registry_valid(*tr, *old(tree)),
        (parent@ matches ChildNode::Sub(s) && s == *sub) || (exists|rn: RepeatedElementNode|
            (parent@ == ChildNode::Repeated(rn) && rn.sub == *sub)) || (exists|
            cn: ConditionalElementNode,
        |
            (parent@ == ChildNode::Conditional(cn) && cn.sub == *sub)),
    ensures
        tree_wf(*final(tree)),
        tree_extended(*old(tree), *final(tree)),
        diags_extended(*old(diag), *final(diag)),
        r < final(tree).elements@.len(),
        r >= old(tree).elements@.len(),
        final(tree).components@ == old(tree).components@,
        (*old(component_child_insertion_point)) is Some
            ==> *final(component_child_insertion_point) == *old(
            component_child_insertion_point,
        ),
        (*final(component_child_insertion_point)) is None ==> (*old(
            component_child_insertion_point,
        )) is None,
    decreases parent@, 0int,
{
    let reserved = str_eq(sub.id.as_str(), "parent") || str_eq(sub.id.as_str(), "self")
        || str_eq(sub.id.as_str(), "root");
    if reserved {
        diag.push_error(String::from_str("This is a reserved id"), sub.id_span);
    }
    proof {
        match parent@ {
            ChildNode::Sub(sx) => {
                assert(sx == *sub);
                assert(decreases_to!(parent@ => sx));
            }
            ChildNode::Repeated(rn) => {
                assert(rn.sub == *sub);
                assert(decreases_to!(parent@ => rn));
                assert(decreases_to!(rn => rn.sub));
            }
            ChildNode::Conditional(cn) => {
                assert(cn.sub == *sub);
                assert(decreases_to!(parent@ => cn));
                assert(decreases_to!(cn => cn.sub));
            }
            ChildNode::Placeholder(_) => {
                assert(false);
            }
        }
        assert(decreases_to!(*sub => sub.element));
    }
    element_from_node(
        tree,
        &sub.element,
        sub.id.clone(),
        parent_type,
        component_child_insertion_point,
        diag,
        tr,
    )
}

/// Build a repeated element: its template child plus the repeater model.
fn repeated_element_from_node(
    tree: &mut ObjectTree,
    rep: &RepeatedElementNode,
    parent_type: &Type,
    component_child_insertion_point: &mut Option<(usize, Span)>,
    diag: &mut BuildDiagnostics,
    tr: &TypeRegister,
    parent: Ghost<ChildNode>,
) -> (r: usize)
    requires
        tree_wf(*old(tree)),
        registry_valid(*tr, *old(tree)),
        parent@ matches ChildNode::Repeated(rn) && rn == *rep,
    ensures
        tree_wf(*final(tree)),
        tree_extended(*old(tree), *final(tree)),
        diags_extended(*old(diag), *final(diag)),
        r < final(tree).elements@.len(),
        r >= old(tree).elements@.len(),
        final(tree).components@ == old(tree).components@,
        (*old(component_child_insertion_point)) is Some
            ==> *final(component_child_insertion_point) == *old(
            component_child_insertion_point,
        ),
        (*final(component_child_insertion_point)) is None ==> (*old(
            component_child_insertion_point,
        )) is None,
    decreases parent@, 1int,
{
    let child = sub_element_from_node(
        tree,
        &rep.sub,
        parent_type,
        component_child_insertion_point,
        diag,
        tr,
        Ghost(parent@),
    );
    let model_data_id = match &rep.model_data_id {
        Some(s) => s.clone(),
        Option::None => String::new(),
    };
    let index_id = match &rep.index_id {
        Some(s) => s.clone(),
        Option::None => String::new(),
    };
    let rei = RepeatedElementInfo {
        model: Expression::Uncompiled(
            SyntaxNode::BindingExpression(Box::new(clone_expr_node(&rep.model))),
        ),
        model_data_id,
        index_id,
        is_conditional_element: false,
        is_listview: Option::None,
    };
    tree.set_repeated(child, rei);
    proof {
        assert(tree_extended(*old(tree), *tree));
    }
    child
}

/// Build a conditional element: a repeater whose model is the condition.
fn conditional_element_from_node(
    tree: &mut ObjectTree,
    cond: &ConditionalElementNode,
    parent_type: &Type,
    component_child_insertion_point: &mut Option<(usize, Span)>,
    diag: &mut BuildDiagnostics,
    tr: &TypeRegister,
    parent: Ghost<ChildNode>,
) -> (r: usize)
    requires
        tree_wf(*old(tree)),
        registry_valid(*tr, *old(tree)),
        parent@ matches ChildNode::Conditional(cn) && cn == *cond,
    ensures
        tree_wf(*final(tree)),
        tree_extended(*old(tree), *final(tree)),
        diags_extended(*old(diag), *final(diag)),
        r < final(tree).elements@.len(),
        r >= old(tree).elements@.len(),
        final(tree).components@ == old(tree).components@,
        (*old(component_child_insertion_point)) is Some
            ==> *final(component_child_insertion_point) == *old(
            component_child_insertion_point,
        ),
        (*final(component_child_insertion_point)) is None ==> (*old(
            component_child_insertion_point,
        )) is None,
    decreases parent@, 1int,
{
    let child = sub_element_from_node(
        tree,
        &cond.sub,
        parent_type,
        component_child_insertion_point,
        diag,
        tr,
        Ghost(parent@),
    );
    let rei = RepeatedElementInfo {
        model: Expression::Uncompiled(
            SyntaxNode::BindingExpression(Box::new(clone_expr_node(&cond.condition))),
        ),
        model_data_id: String::new(),
        index_id: String::new(),
        is_conditional_element: true,
        is_listview: Option::None,
    };
    tree.set_repeated(child, rei);
    proof {
        assert(tree_extended(*old(tree), *tree));
    }
    child
}

/// Compile the states and transitions of a finished element against the
/// tree: property changes become named references, transition animations get
/// their own elements.
fn process_states_and_transitions(
    tree: &mut ObjectTree,
    elem: usize,
    node: &ElementNode,
    diag: &mut BuildDiagnostics,
    tr: &TypeRegister,
)
    requires
        tree_wf(*old(tree)),
        registry_valid(*tr, *old(tree)),
        elem < old(tree).elements@.len(),
    ensures
        tree_wf(*final(tree)),
        diags_extended(*old(diag), *final(diag)),
        final(tree).elements@.len() >= old(tree).elements@.len(),
        forall|i: int|
            0 <= i < old(tree).elements@.len() && i != elem ==> final(tree).elements@[i] == old(
                tree,
            ).elements@[i],
        final(tree).elements@[elem as int] == (Element {
            states: final(tree).elements@[elem as int].states,
            transitions: final(tree).elements@[elem as int].transitions,
            ..old(tree).elements@[elem as int]
        }),
        final(tree).builtins@ == old(tree).builtins@,
        final(tree).natives@ == old(tree).natives@,
        final(tree).components@ == old(tree).components@,
{
    let mut states: Vec<State> = Vec::new();
    let mut i: usize = 0;
    while i < node.states.len()
        invariant
            tree_wf(*tree),
            elem < tree.elements@.len(),
            0 <= i <= node.states@.len(),
            diags_extended(*old(diag), *diag),
            tree_extended(*old(tree), *tree),
            tree.builtins@ == old(tree).builtins@,
            tree.natives@ == old(tree).natives@,
            tree.components@ == old(tree).components@,
        decreases node.states@.len() - i,
    {
        let sn = &node.states[i];
        let condition = match &sn.condition {
            Some(c) => Some(
                Expression::Uncompiled(
                    SyntaxNode::BindingExpression(Box::new(clone_expr_node(c))),
                ),
            ),
            Option::None => Option::None,
        };
        let mut property_changes: Vec<(NamedReference, Expression)> = Vec::new();
        let mut j: usize = 0;
        while j < sn.changes.len()
            invariant
                tree_wf(*tree),
                elem < tree.elements@.len(),
                0 <= j <= sn.changes@.len(),
                diags_extended(*old(diag), *diag),
            decreases sn.changes@.len() - j,
        {
            let change = &sn.changes[j];
            let looked_up = lookup_property_from_qualified_name(tree, &change.target, elem, diag);
            match looked_up {
                Some((nr, _)) => {
                    property_changes.push(
                        (nr, Expression::Uncompiled(
                            SyntaxNode::BindingExpression(
                                Box::new(clone_expr_node(&change.expr)),
                            ),
                        )),
                    );
                }
                Option::None => {}
            }
            j = j + 1;
        }
        states.push(State { id: sn.id.clone(), condition, property_changes });
        i = i + 1;
    }

    let mut transitions: Vec<Transition> = Vec::new();
    let mut i: usize = 0;
    while i < node.transitions.len()
        invariant
            tree_wf(*tree),
            registry_valid(*tr, *tree),
            elem < tree.elements@.len(),
            0 <= i <= node.transitions@.len(),
            diags_extended(*old(diag), *diag),
            tree_extended(*old(tree), *tree),
            tree.builtins@ == old(tree).builtins@,
            tree.natives@ == old(tree).natives@,
            tree.components@ == old(tree).components@,
        decreases node.transitions@.len() - i,
    {
        let tn = &node.transitions[i];
        if tn.catch_all {
            diag.push_error(
                String::from_str("A catch-all transition is not supported"),
                tn.span,
            );
        }
        let mut property_animations: Vec<(NamedReference, Span, usize)> = Vec::new();
        let mut j: usize = 0;
        while j < tn.animations.len()
            invariant
                tree_wf(*tree),
                registry_valid(*tr, *tree),
                elem < tree.elements@.len(),
                0 <= j <= tn.animations@.len(),
                diags_extended(*old(diag), *diag),
                tree_extended(*old(tree), *tree),
                tree.builtins@ == old(tree).builtins@,
                tree.natives@ == old(tree).natives@,
                tree.components@ == old(tree).components@,
            decreases tn.animations@.len() - j,
        {
            let pa = &tn.animations[j];
            let mut k: usize = 0;
            while k < pa.targets.len()
                invariant
                    tree_wf(*tree),
                    registry_valid(*tr, *tree),
                    elem < tree.elements@.len(),
                    0 <= k <= pa.targets@.len(),
                    diags_extended(*old(diag), *diag),
                    tree_extended(*old(tree), *tree),
                    tree.builtins@ == old(tree).builtins@,
                    tree.natives@ == old(tree).natives@,
                    tree.components@ == old(tree).components@,
                decreases pa.targets@.len() - k,
            {
                let ghost pre_tree = *tree;
                let qn = &pa.targets[k];
                let looked_up = lookup_property_from_qualified_name(tree, qn, elem, diag);
                match looked_up {
                    Some((nr, prop_ty)) => {
                        let anim_elem = animation_element_from_node(
                            tree,
                            pa,
                            qn.span,
                            &prop_ty,
                            diag,
                            tr,
                        );
                        match anim_elem {
                            Some(ae) => {
                                property_animations.push((nr, qn.span, ae));
                            }
                            Option::None => {}
                        }
                    }
                    Option::None => {}
                }
                proof {
                    lemma_registry_valid_extended(*tr, pre_tree, *tree);
                }
                k = k + 1;
            }
            j = j + 1;
        }
        transitions.push(
            Transition {
                is_out: tn.is_out,
                state_id: tn.state_id.clone(),
                property_animations,
                node_span: tn.span,
            },
        );
        i = i + 1;
    }
    tree.set_states_transitions(elem, states, transitions);
}


/// Build a component from its source node: its root element tree, the
/// recorded children-placeholder position, and the enclosing-component links
/// of the whole subtree.
pub fn component_from_node(
    tree: &mut ObjectTree,
    node: &crate::syntax::ComponentNode,
    diag: &mut BuildDiagnostics,
    tr: &TypeRegister,
) -> (c: usize)
    requires
        tree_wf(*old(tree)),
        registry_valid(*tr, *old(tree)),
    ensures
        tree_wf(*final(tree)),
        diags_extended(*old(diag), *final(diag)),
        c < final(tree).components@.len(),
        c >= old(tree).components@.len(),
        final(tree).components@.len() == old(tree).components@.len() + 1,
        final(tree).elements@.len() >= old(tree).elements@.len(),
        final(tree).builtins@ == old(tree).builtins@,
        final(tree).natives@ == old(tree).natives@,
        forall|i: int|
            0 <= i < old(tree).components@.len() ==> final(tree).components@[i] == old(
                tree,
            ).components@[i],
        final(tree).components@[c as int].id@ == node.id@,
        final(tree).components@[c as int].root_element < final(tree).elements@.len(),
        // The root element belongs to the new component, and its base is the
        // resolution of the written base against the entry state.
        final(tree).elements@[final(tree).components@[c as int].root_element as int]
            .enclosing_component == Some(c as usize),
        final(tree).elements@[final(tree).components@[c as int].root_element as int]
            .base_type@ == spec_resolved_base(node.element, *tr, *old(tree), Type::Invalid),
        // The root element of a component carries the fixed name "root", and
        // every element of the new subtree belongs to the component.
        final(tree).elements@[final(tree).components@[c as int].root_element as int].id@
            == "root"@,
        forall|j: int|
            0 <= j < crate::object_tree::spec_preorder(
                *final(tree),
                final(tree).components@[c as int].root_element as int,
            ).len() ==> final(tree).elements@[(#[trigger] crate::object_tree::spec_preorder(
                *final(tree),
                final(tree).components@[c as int].root_element as int,
            )[j]) as int].enclosing_component == Some(c as usize),
{
    let mut cip: Option<(usize, Span)> = Option::None;
    let root = element_from_node(
        tree,
        &node.element,
        String::from_str("root"),
        &Type::Invalid,
        &mut cip,
        diag,
        tr,
    );
    let mut comp = Component::new(node.id.clone(), root);
    comp.child_insertion_point = cip;
    let c = tree.push_component(comp);
    let ghost t2 = *tree;
    tree.set_enclosing_subtree(root, c);
    proof {
        assert forall|k: int|
            0 <= k < t2.elements@.len() implies (#[trigger] tree.elements@[k]).children@
            == t2.elements@[k].children@ by {
            assert(tree.elements@[k] == (Element {
                enclosing_component: tree.elements@[k].enclosing_component,
                ..t2.elements@[k]
            }));
        }
        crate::object_tree::lemma_preorder_same_children(t2, *tree, root as int);
        assert(tree.elements@[root as int] == (Element {
            enclosing_component: tree.elements@[root as int].enclosing_component,
            ..t2.elements@[root as int]
        }));
    }
    c
}

/// The views of a list of font file names.
pub open spec fn fonts_view(s: Seq<String>) -> Seq<Seq<char>> {
    Seq::new(
        s.len(),
        |i: int|
            if 0 <= i < s.len() {
                s[i]@
            } else {
                Seq::empty()
            },
    )
}

/// Whether a file name carries a font suffix.
pub open spec fn spec_is_font_file(f: Seq<char>) -> bool {
    (f.len() >= 4 && f.subrange(f.len() - 4, f.len() as int) == ".ttc"@) || (f.len() >= 4
        && f.subrange(f.len() - 4, f.len() as int) == ".ttf"@) || (f.len() >= 4 && f.subrange(
        f.len() - 4,
        f.len() as int,
    ) == ".otf"@)
}

/// The font files among a list of imports, in order.
pub open spec fn spec_font_files(s: Seq<crate::syntax::ImportedTypes>) -> Seq<Seq<char>>
    decreases s,
{
    if s.len() == 0 {
        Seq::empty()
    } else {
        (if spec_is_font_file(s[0].file@) {
            seq![s[0].file@]
        } else {
            Seq::empty()
        }) + spec_font_files(s.skip(1))
    }
}

/// The export names a list of export items writes, as (internal name,
/// exported name, span) triples in source order. A specifier without a
/// rename exports under its internal name.
pub open spec fn spec_export_names_list(
    items: Seq<crate::syntax::ExportItemNode>,
) -> Seq<(Seq<char>, Seq<char>, Span)>
    decreases items,
{
    if items.len() == 0 {
        Seq::empty()
    } else {
        (match items[0] {
            crate::syntax::ExportItemNode::Specifier(sp) => seq![
                (
                    sp.internal_name@,
                    match sp.exported_name {
                        Some(x) => x@,
                        Option::None => sp.internal_name@,
                    },
                    sp.span,
                ),
            ],
            crate::syntax::ExportItemNode::Component(cn) => seq![(cn.id@, cn.id@, cn.id_span)],
            crate::syntax::ExportItemNode::StructDecl(sd) => seq![
                (sd.name@, sd.name@, sd.name_span),
            ],
        }) + spec_export_names_list(items.skip(1))
    }
}

/// Every export name a document writes, in source order.
pub open spec fn spec_export_names(
    items: Seq<crate::syntax::DocumentItemNode>,
) -> Seq<(Seq<char>, Seq<char>, Span)>
    decreases items,
{
    if items.len() == 0 {
        Seq::empty()
    } else {
        (match items[0] {
            crate::syntax::DocumentItemNode::ExportsList(list) => spec_export_names_list(list@),
            _ => Seq::empty(),
        }) + spec_export_names(items.skip(1))
    }
}

/// The component names a list of export items declares in place.
pub open spec fn spec_component_ids_list(
    items: Seq<crate::syntax::ExportItemNode>,
) -> Seq<Seq<char>>
    decreases items,
{
    if items.len() == 0 {
        Seq::empty()
    } else {
        (match items[0] {
            crate::syntax::ExportItemNode::Component(cn) => seq![cn.id@],
            _ => Seq::empty(),
        }) + spec_component_ids_list(items.skip(1))
    }
}

/// The component names a document declares, export lists included, in
/// source order.
pub open spec fn spec_component_ids(items: Seq<crate::syntax::DocumentItemNode>) -> Seq<Seq<char>>
    decreases items,
{
    if items.len() == 0 {
        Seq::empty()
    } else {
        (match items[0] {
            crate::syntax::DocumentItemNode::Component(cn) => seq![cn.id@],
            crate::syntax::DocumentItemNode::ExportsList(list) => spec_component_ids_list(list@),
            _ => Seq::empty(),
        }) + spec_component_ids(items.skip(1))
    }
}

/// The declared names of the components an index list picks out of a tree.
pub open spec fn spec_ids_of(s: Seq<usize>, tree: ObjectTree) -> Seq<Seq<char>> {
    Seq::new(s.len(), |k: int| tree.components@[s[k] as int].id@)
}

/// The effective export list of a document: the written names, or, when
/// none are written and the document declares components, the last
/// declared component under its own name.
pub open spec fn spec_effective_exports(
    node: crate::syntax::DocumentNode,
    inner_components: Seq<usize>,
    tree: ObjectTree,
) -> Seq<(Seq<char>, Seq<char>, Span)> {
    let names = spec_export_names(node.items@);
    if names.len() == 0 && inner_components.len() > 0 {
        let id = tree.components@[inner_components[inner_components.len() - 1] as int].id@;
        seq![(id, id, node.span)]
    } else {
        names
    }
}

/// What the export names resolve to: one table entry per name whose
/// internal name resolves to a component or a struct, keyed by the
/// exported name, in source order.
pub open spec fn spec_resolved_exports(
    names: Seq<(Seq<char>, Seq<char>, Span)>,
    reg: TypeRegister,
) -> Seq<(Seq<char>, crate::langtype::TypeV)>
    decreases names,
{
    if names.len() == 0 {
        Seq::empty()
    } else {
        let t = crate::typeregister::spec_registry_lookup(reg, names[0].0);
        (if t is Component || t is Struct {
            seq![(names[0].1, t)]
        } else {
            Seq::empty()
        }) + spec_resolved_exports(names.skip(1), reg)
    }
}

/// The reports owed for export names that resolve to nothing exportable:
/// one (message, span) pair per failing name, in source order.
pub open spec fn spec_export_errors(
    names: Seq<(Seq<char>, Seq<char>, Span)>,
    reg: TypeRegister,
) -> Seq<(Seq<char>, Span)>
    decreases names,
{
    if names.len() == 0 {
        Seq::empty()
    } else {
        let t = crate::typeregister::spec_registry_lookup(reg, names[0].0);
        (if t is Component || t is Struct {
            Seq::empty()
        } else if t is Invalid {
            seq![("The exported name was not found"@, names[0].2)]
        } else {
            seq![("Cannot export this; it is not a component"@, names[0].2)]
        }) + spec_export_errors(names.skip(1), reg)
    }
}

/// The export reports split at any point of the name list.
proof fn lemma_export_errors_split(
    names: Seq<(Seq<char>, Seq<char>, Span)>,
    i: int,
    reg: TypeRegister,
)
    requires
        0 <= i <= names.len(),
    ensures
        spec_export_errors(names, reg) =~= spec_export_errors(names.take(i), reg)
            + spec_export_errors(names.skip(i), reg),
    decreases i,
{
    if i == 0 {
        assert(names.take(0) =~= Seq::<(Seq<char>, Seq<char>, Span)>::empty());
        assert(names.skip(0) =~= names);
        assert(spec_export_errors(names.take(0), reg) + spec_export_errors(names, reg)
            =~= spec_export_errors(names, reg));
    } else {
        lemma_export_errors_split(names.skip(1), i - 1, reg);
        assert(names.take(i).skip(1) =~= names.skip(1).take(i - 1));
        assert(names.take(i)[0] == names[0]);
        assert(names.skip(1).skip(i - 1) =~= names.skip(i));
        assert(spec_export_errors(names, reg) =~= spec_export_errors(names.take(i), reg)
            + spec_export_errors(names.skip(i), reg));
    }
}

/// The view of an export table: the exported name and the resolved type of
/// each entry.
pub open spec fn spec_exports_view(s: Seq<(String, Type)>) -> Seq<
    (Seq<char>, crate::langtype::TypeV),
> {
    Seq::new(s.len(), |i: int| (s[i].0@, crate::langtype::type_view(s[i].1)))
}

/// The view of the gathered (internal, exported, span) name triples.
pub open spec fn spec_named_view(s: Seq<(String, String, Span)>) -> Seq<
    (Seq<char>, Seq<char>, Span),
> {
    Seq::new(s.len(), |i: int| (s[i].0@, s[i].1@, s[i].2))
}

/// The exported names of a document and what each resolves to.
pub struct Exports {
    pub entries: Vec<(String, Type)>,
}

impl Exports {
    /// The list of exported names and their types.
    pub fn exports(&self) -> (r: &Vec<(String, Type)>)
        ensures
            r == self.entries,
    {
        &self.entries
    }

    /// Collect a document's exports: explicit specifiers with their
    /// renames, exported components and structs, and, when nothing is
    /// exported, the last declared component. The table holds one entry per
    /// name whose internal name resolves to a component or a struct, keyed
    /// by the exported name, in source order; every other name is reported.
    #[verifier::rlimit(100)]
    pub fn from_node(
        node: &crate::syntax::DocumentNode,
        inner_components: &Vec<usize>,
        tree: &ObjectTree,
        registry: &TypeRegister,
        diag: &mut BuildDiagnostics,
    ) -> (r: Exports)
        requires
            tree_wf(*tree),
            forall|i: int|
                0 <= i < inner_components@.len() ==> (#[trigger] inner_components@[i])
                    < tree.components@.len(),
        ensures
            diags_extended(*old(diag), *final(diag)),
            spec_exports_view(r.entries@) == spec_resolved_exports(
                spec_effective_exports(*node, inner_components@, *tree),
                *registry,
            ),
            final(diag).diags@.len() == old(diag).diags@.len() + spec_export_errors(
                spec_effective_exports(*node, inner_components@, *tree),
                *registry,
            ).len(),
            forall|k: int|
                0 <= k < spec_export_errors(
                    spec_effective_exports(*node, inner_components@, *tree),
                    *registry,
                ).len() ==> ({
                    let d = #[trigger] final(diag).diags@[old(diag).diags@.len() + k];
                    let e = spec_export_errors(
                        spec_effective_exports(*node, inner_components@, *tree),
                        *registry,
                    )[k];
                    d.message@ == e.0 && d.span == e.1 && d.level
                        == crate::diagnostics::DiagnosticLevel::Error
                }),
    {
        // Gather the written export names first: internal name, exported
        // name, span.
        let mut named: Vec<(String, String, Span)> = Vec::new();
        let mut i: usize = 0;
        proof {
            assert(node.items@.skip(0) =~= node.items@);
            assert(spec_named_view(named@) =~= Seq::<(Seq<char>, Seq<char>, Span)>::empty());
        }
        while i < node.items.len()
            invariant
                0 <= i <= node.items@.len(),
                *diag == *old(diag),
                spec_named_view(named@) + spec_export_names(node.items@.skip(i as int))
                    =~= spec_export_names(node.items@),
            decreases node.items@.len() - i,
        {
            proof {
                assert(node.items@.skip(i as int)[0] == node.items@[i as int]);
                assert(node.items@.skip(i as int).skip(1) =~= node.items@.skip(i as int + 1));
            }
            match &node.items[i] {
                crate::syntax::DocumentItemNode::ExportsList(list) => {
                    let mut j: usize = 0;
                    proof {
                        assert(list@.skip(0) =~= list@);
                    }
                    while j < list.len()
                        invariant
                            0 <= j <= list@.len(),
                            *diag == *old(diag),
                            0 <= i < node.items@.len(),
                            node.items@[i as int] matches
                                crate::syntax::DocumentItemNode::ExportsList(l2) && l2 == *list,
                            spec_named_view(named@) + spec_export_names_list(
                                list@.skip(j as int),
                            ) + spec_export_names(node.items@.skip(i as int + 1))
                                =~= spec_export_names(node.items@),
                        decreases list@.len() - j,
                    {
                        proof {
                            assert(list@.skip(j as int)[0] == list@[j as int]);
                            assert(list@.skip(j as int).skip(1) =~= list@.skip(j as int + 1));
                        }
                        let ghost pre = spec_named_view(named@);
                        let ghost s = spec_export_names_list(list@.skip(j as int));
                        match &list[j] {
                            crate::syntax::ExportItemNode::Specifier(sp) => {
                                let exported = match &sp.exported_name {
                                    Some(x) => x.clone(),
                                    Option::None => sp.internal_name.clone(),
                                };
                                named.push((sp.internal_name.clone(), exported, sp.span));
                            }
                            crate::syntax::ExportItemNode::Component(cn) => {
                                named.push((cn.id.clone(), cn.id.clone(), cn.id_span));
                            }
                            crate::syntax::ExportItemNode::StructDecl(sd) => {
                                named.push((sd.name.clone(), sd.name.clone(), sd.name_span));
                            }
                        }
                        proof {
                            assert(s =~= seq![s[0]] + spec_export_names_list(
                                list@.skip(j as int + 1),
                            ));
                            assert(spec_named_view(named@) =~= pre + seq![s[0]]);
                            assert((pre + seq![s[0]]) + spec_export_names_list(
                                list@.skip(j as int + 1),
                            ) =~= pre + s);
                            assert(spec_named_view(named@) + spec_export_names_list(
                                list@.skip(j as int + 1),
                            ) + spec_export_names(node.items@.skip(i as int + 1))
                                =~= spec_export_names(node.items@));
                        }
                        j = j + 1;
                    }
                    proof {
                        assert(list@.skip(list@.len() as int) =~= Seq::<
                            crate::syntax::ExportItemNode,
                        >::empty());
                        assert(spec_named_view(named@) + Seq::<
                            (Seq<char>, Seq<char>, Span),
                        >::empty() =~= spec_named_view(named@));
                    }
                }
                _ => {}
            }
            i = i + 1;
        }
        proof {
            assert(node.items@.skip(node.items@.len() as int) =~= Seq::<
                crate::syntax::DocumentItemNode,
            >::empty());
            assert(spec_named_view(named@) + Seq::<(Seq<char>, Seq<char>, Span)>::empty()
                =~= spec_named_view(named@));
            assert(spec_named_view(named@) =~= spec_export_names(node.items@));
        }
        // When nothing is exported, the last declared component is.
        if named.len() == 0 && inner_components.len() > 0 {
            let last = inner_components[inner_components.len() - 1];
            let id = tree.components[last].id.clone();
            named.push((id.clone(), id, node.span));
        }
        let ghost eff = spec_effective_exports(*node, inner_components@, *tree);
        proof {
            assert(spec_named_view(named@) =~= eff);
        }
        // Resolve each internal name; only components and structs can be
        // exported, and the entry carries the exported name.
        let mut entries: Vec<(String, Type)> = Vec::new();
        let ghost base_len = diag.diags@.len();
        let mut i: usize = 0;
        proof {
            assert(eff.skip(0) =~= eff);
            assert(spec_exports_view(entries@) =~= Seq::<
                (Seq<char>, crate::langtype::TypeV),
            >::empty());
        }
        while i < named.len()
            invariant
                0 <= i <= named@.len(),
                spec_named_view(named@) == eff,
                eff == spec_effective_exports(*node, inner_components@, *tree),
                base_len == old(diag).diags@.len(),
                diags_extended(*old(diag), *diag),
                spec_exports_view(entries@) + spec_resolved_exports(eff.skip(i as int), *registry)
                    =~= spec_resolved_exports(eff, *registry),
                diag.diags@.len() - base_len + spec_export_errors(
                    eff.skip(i as int),
                    *registry,
                ).len() == spec_export_errors(eff, *registry).len(),
                diag.diags@.len() >= base_len,
                forall|k: int|
                    0 <= k < diag.diags@.len() - base_len ==> ({
                        let d = #[trigger] diag.diags@[base_len + k];
                        let e = spec_export_errors(eff, *registry)[k];
                        d.message@ == e.0 && d.span == e.1 && d.level
                            == crate::diagnostics::DiagnosticLevel::Error
                    }),
            decreases named@.len() - i,
        {
            proof {
                assert(spec_named_view(named@)[i as int] == eff[i as int]);
                assert(eff.skip(i as int)[0] == eff[i as int]);
                assert(eff.skip(i as int).skip(1) =~= eff.skip(i as int + 1));
            }
            let ty = registry.lookup(named[i].0.as_str());
            proof {
                crate::langtype::lemma_view_tag(ty);
            }
            let ghost pre_entries = spec_exports_view(entries@);
            let ghost done = diag.diags@.len() - base_len;
            let ghost t = crate::typeregister::spec_registry_lookup(*registry, eff[i as int].0);
            match &ty {
                Type::Component(_) => {
                    entries.push((named[i].1.clone(), ty));
                }
                Type::Struct { .. } => {
                    entries.push((named[i].1.clone(), ty));
                }
                Type::Invalid => {
                    diag.push_error(
                        String::from_str("The exported name was not found"),
                        named[i].2,
                    );
                }
                _ => {
                    diag.push_error(
                        String::from_str("Cannot export this; it is not a component"),
                        named[i].2,
                    );
                }
            }
            proof {
                lemma_export_errors_split(eff, i as int, *registry);
                assert(spec_export_errors(eff.take(i as int), *registry).len() == done);
                if t is Component || t is Struct {
                    assert(spec_exports_view(entries@) =~= pre_entries + seq![
                        (eff[i as int].1, t),
                    ]);
                    assert((pre_entries + seq![(eff[i as int].1, t)]) + spec_resolved_exports(
                        eff.skip(i as int + 1),
                        *registry,
                    ) =~= pre_entries + (seq![(eff[i as int].1, t)] + spec_resolved_exports(
                        eff.skip(i as int + 1),
                        *registry,
                    )));
                    assert(spec_exports_view(entries@) + spec_resolved_exports(
                        eff.skip(i as int + 1),
                        *registry,
                    ) =~= spec_resolved_exports(eff, *registry));
                } else {
                    assert(spec_exports_view(entries@) =~= pre_entries);
                    assert(spec_exports_view(entries@) + spec_resolved_exports(
                        eff.skip(i as int + 1),
                        *registry,
                    ) =~= spec_resolved_exports(eff, *registry));
                    assert(spec_export_errors(eff, *registry)[done] == spec_export_errors(
                        eff.skip(i as int),
                        *registry,
                    )[0]);
                }
            }
            i = i + 1;
        }
        proof {
            assert(eff.skip(eff.len() as int) =~= Seq::<(Seq<char>, Seq<char>, Span)>::empty());
            assert(spec_exports_view(entries@) + Seq::<
                (Seq<char>, crate::langtype::TypeV),
            >::empty() =~= spec_exports_view(entries@));
            assert(spec_exports_view(entries@) =~= spec_resolved_exports(eff, *registry));
        }
        Exports { entries }
    }
}

/// A fully built source file: its components, structs, exports, register and
/// collected custom fonts.
pub struct Document {
    pub node_span: Span,
    pub inner_components: Vec<usize>,
    pub inner_structs: Vec<Type>,
    /// The component a consumer instantiates: the last one declared, if any.
    pub root_component: Option<usize>,
    pub local_registry: TypeRegister,
    /// Font files named by imports, to be registered on startup.
    pub custom_fonts: Vec<String>,
    pub exports: Exports,
}

impl Document {
    /// The exported names of this document.
    pub fn exports(&self) -> (r: &Vec<(String, Type)>)
        ensures
            r == self.exports.entries,
    {
        &self.exports.entries
    }

    /// Build a whole document: every component and struct declaration in
    /// order, the export table, and the custom-font list from the foreign
    /// imports, which must name font files.
    pub fn from_node(
        tree: &mut ObjectTree,
        node: &crate::syntax::DocumentNode,
        foreign_imports: &Vec<crate::syntax::ImportedTypes>,
        diag: &mut BuildDiagnostics,
        parent_registry: Box<TypeRegister>,
    ) -> (r: Document)
        requires
            tree_wf(*old(tree)),
            registry_valid(*parent_registry, *old(tree)),
        ensures
            tree_wf(*final(tree)),
            diags_extended(*old(diag), *final(diag)),
            forall|i: int|
                0 <= i < r.inner_components@.len() ==> (#[trigger] r.inner_components@[i])
                    < final(tree).components@.len(),
            (match r.root_component {
                Some(c) => r.inner_components@.len() > 0 && c == r.inner_components@[
                    r.inner_components@.len() - 1
                ] && c < final(tree).components@.len(),
                Option::None => r.inner_components@.len() == 0,
            }),
            // Exactly the font files among the foreign imports are kept, in
            // order; every other import is reported.
            fonts_view(r.custom_fonts@) == spec_font_files(foreign_imports@),
            // One built component per declared component, export lists
            // included, in source order, each carrying its declared name
            // and registered in the local register.
            r.inner_components@.len() == spec_component_ids(node.items@).len(),
            forall|k: int|
                0 <= k < r.inner_components@.len() ==> final(tree).components@[(
                #[trigger] r.inner_components@[k]) as int].id@ == spec_component_ids(
                    node.items@,
                )[k] && crate::typeregister::spec_entries_lookup(
                    r.local_registry.entries@,
                    spec_component_ids(node.items@)[k],
                ) is Some,
            // Every foreign import that is not a font file is reported at
            // its own span.
            forall|k: int|
                0 <= k < foreign_imports@.len() && !spec_is_font_file(
                    (#[trigger] foreign_imports@[k]).file@,
                ) ==> exists|m: int|
                    0 <= m < final(diag).diags@.len() && (#[trigger] final(diag).diags@[m]).span
                        == foreign_imports@[k].import_span && final(diag).diags@[m].level
                        == crate::diagnostics::DiagnosticLevel::Error,
    {
        let ghost entry_tree = *tree;
        let mut local_registry = TypeRegister::new(Some(parent_registry));
        let mut inner_components: Vec<usize> = Vec::new();
        let mut inner_structs: Vec<Type> = Vec::new();
        let mut i: usize = 0;
        proof {
            assert(node.items@.skip(0) =~= node.items@);
            assert(spec_ids_of(inner_components@, *tree) =~= Seq::<Seq<char>>::empty());
            assert(Seq::<Seq<char>>::empty() + spec_component_ids(node.items@)
                =~= spec_component_ids(node.items@));
        }
        while i < node.items.len()
            invariant
                tree_wf(*tree),
                registry_valid(local_registry, *tree),
                0 <= i <= node.items@.len(),
                diags_extended(*old(diag), *diag),
                tree.components@.len() >= entry_tree.components@.len(),
                tree.builtins@ == entry_tree.builtins@,
                forall|k: int|
                    0 <= k < inner_components@.len() ==> (#[trigger] inner_components@[k])
                        < tree.components@.len(),
                spec_ids_of(inner_components@, *tree) + spec_component_ids(
                    node.items@.skip(i as int),
                ) =~= spec_component_ids(node.items@),
                forall|k: int|
                    0 <= k < inner_components@.len()
                        ==> crate::typeregister::spec_entries_lookup(
                        local_registry.entries@,
                        #[trigger] spec_ids_of(inner_components@, *tree)[k],
                    ) is Some,
            decreases node.items@.len() - i,
        {
            proof {
                assert(node.items@.skip(i as int)[0] == node.items@[i as int]);
                assert(node.items@.skip(i as int).skip(1) =~= node.items@.skip(i as int + 1));
            }
            let ghost pre_ids = spec_ids_of(inner_components@, *tree);
            match &node.items[i] {
                crate::syntax::DocumentItemNode::Component(cn) => {
                    process_document_component(
                        tree,
                        cn,
                        &mut local_registry,
                        &mut inner_components,
                        diag,
                    );
                    proof {
                        assert(spec_ids_of(inner_components@, *tree) =~= pre_ids + seq![cn.id@]);
                        assert((pre_ids + seq![cn.id@]) + spec_component_ids(
                            node.items@.skip(i as int + 1),
                        ) =~= pre_ids + (seq![cn.id@] + spec_component_ids(
                            node.items@.skip(i as int + 1),
                        )));
                    }
                }
                crate::syntax::DocumentItemNode::StructDecl(sd) => {
                    process_document_struct(
                        tree,
                        sd,
                        &mut local_registry,
                        &mut inner_structs,
                        diag,
                    );
                    proof {
                        assert(spec_ids_of(inner_components@, *tree) =~= pre_ids);
                        assert(spec_component_ids(node.items@.skip(i as int))
                            =~= spec_component_ids(node.items@.skip(i as int + 1)));
                    }
                }
                crate::syntax::DocumentItemNode::ExportsList(list) => {
                    let mut j: usize = 0;
                    proof {
                        assert(list@.skip(0) =~= list@);
                    }
                    while j < list.len()
                        invariant
                            tree_wf(*tree),
                            registry_valid(local_registry, *tree),
                            0 <= j <= list@.len(),
                            0 <= i < node.items@.len(),
                            diags_extended(*old(diag), *diag),
                            tree.components@.len() >= entry_tree.components@.len(),
                            tree.builtins@ == entry_tree.builtins@,
                            forall|k: int|
                                0 <= k < inner_components@.len()
                                    ==> (#[trigger] inner_components@[k])
                                    < tree.components@.len(),
                            spec_ids_of(inner_components@, *tree) + spec_component_ids_list(
                                list@.skip(j as int),
                            ) + spec_component_ids(node.items@.skip(i as int + 1))
                                =~= spec_component_ids(node.items@),
                            forall|k: int|
                                0 <= k < inner_components@.len()
                                    ==> crate::typeregister::spec_entries_lookup(
                                    local_registry.entries@,
                                    #[trigger] spec_ids_of(inner_components@, *tree)[k],
                                ) is Some,
                        decreases list@.len() - j,
                    {
                        proof {
                            assert(list@.skip(j as int)[0] == list@[j as int]);
                            assert(list@.skip(j as int).skip(1) =~= list@.skip(j as int + 1));
                        }
                        let ghost pre_ids2 = spec_ids_of(inner_components@, *tree);
                        match &list[j] {
                            crate::syntax::ExportItemNode::Component(cn) => {
                                process_document_component(
                                    tree,
                                    cn,
                                    &mut local_registry,
                                    &mut inner_components,
                                    diag,
                                );
                                proof {
                                    assert(spec_ids_of(inner_components@, *tree) =~= pre_ids2
                                        + seq![cn.id@]);
                                    assert((pre_ids2 + seq![cn.id@]) + spec_component_ids_list(
                                        list@.skip(j as int + 1),
                                    ) =~= pre_ids2 + (seq![cn.id@] + spec_component_ids_list(
                                        list@.skip(j as int + 1),
                                    )));
                                }
                            }
                            crate::syntax::ExportItemNode::StructDecl(sd) => {
                                process_document_struct(
                                    tree,
                                    sd,
                                    &mut local_registry,
                                    &mut inner_structs,
                                    diag,
                                );
                                proof {
                                    assert(spec_ids_of(inner_components@, *tree) =~= pre_ids2);
                                    assert(spec_component_ids_list(list@.skip(j as int))
                                        =~= spec_component_ids_list(list@.skip(j as int + 1)));
                                }
                            }
                            crate::syntax::ExportItemNode::Specifier(_) => {
                                proof {
                                    assert(spec_component_ids_list(list@.skip(j as int))
                                        =~= spec_component_ids_list(list@.skip(j as int + 1)));
                                }
                            }
                        }
                        j = j + 1;
                    }
                    proof {
                        assert(list@.skip(list@.len() as int) =~= Seq::<
                            crate::syntax::ExportItemNode,
                        >::empty());
                        assert(spec_ids_of(inner_components@, *tree) + Seq::<
                            Seq<char>,
                        >::empty() =~= spec_ids_of(inner_components@, *tree));
                    }
                }
            }
            i = i + 1;
        }
        proof {
            assert(node.items@.skip(node.items@.len() as int) =~= Seq::<
                crate::syntax::DocumentItemNode,
            >::empty());
            assert(spec_ids_of(inner_components@, *tree) + Seq::<Seq<char>>::empty()
                =~= spec_ids_of(inner_components@, *tree));
            assert(spec_ids_of(inner_components@, *tree) =~= spec_component_ids(node.items@));
        }
        let exports = Exports::from_node(node, &inner_components, tree, &local_registry, diag);
        let root_component = if inner_components.len() > 0 {
            Some(inner_components[inner_components.len() - 1])
        } else {
            Option::None
        };
        // Foreign imports may only bring font files.
        let mut custom_fonts: Vec<String> = Vec::new();
        let mut i: usize = 0;
        proof {
            assert(foreign_imports@.skip(0) =~= foreign_imports@);
        }
        while i < foreign_imports.len()
            invariant
                0 <= i <= foreign_imports@.len(),
                diags_extended(*old(diag), *diag),
                fonts_view(custom_fonts@) + spec_font_files(foreign_imports@.skip(i as int))
                    =~= spec_font_files(foreign_imports@),
                forall|k: int|
                    0 <= k < i && !spec_is_font_file((#[trigger] foreign_imports@[k]).file@)
                        ==> exists|m: int|
                        0 <= m < diag.diags@.len() && (#[trigger] diag.diags@[m]).span
                            == foreign_imports@[k].import_span && diag.diags@[m].level
                            == crate::diagnostics::DiagnosticLevel::Error,
            decreases foreign_imports@.len() - i,
        {
            let ghost pre_diags = diag.diags@;
            proof {
                assert(foreign_imports@.skip(i as int)[0] == foreign_imports@[i as int]);
                assert(foreign_imports@.skip(i as int).skip(1) =~= foreign_imports@.skip(
                    i as int + 1,
                ));
                reveal_strlit(".ttc");
                reveal_strlit(".ttf");
                reveal_strlit(".otf");
            }
            let file = &foreign_imports[i].file;
            let ghost pre_fonts = fonts_view(custom_fonts@);
            let is_font = str_ends_with(file.as_str(), ".ttc") || str_ends_with(
                file.as_str(),
                ".ttf",
            ) || str_ends_with(file.as_str(), ".otf");
            if is_font {
                custom_fonts.push(file.clone());
                proof {
                    assert(fonts_view(custom_fonts@) =~= pre_fonts + seq![
                        foreign_imports@[i as int].file@,
                    ]);
                    assert((pre_fonts + seq![foreign_imports@[i as int].file@])
                        + spec_font_files(foreign_imports@.skip(i as int + 1)) =~= pre_fonts + (
                    seq![foreign_imports@[i as int].file@] + spec_font_files(
                        foreign_imports@.skip(i as int + 1),
                    )));
                }
            } else {
                diag.push_error(
                    String::from_str("Unsupported foreign import"),
                    foreign_imports[i].import_span,
                );
            }
            proof {
                assert forall|k: int|
                    0 <= k < i + 1 && !spec_is_font_file(
                        (#[trigger] foreign_imports@[k]).file@,
                    ) implies exists|m: int|
                    0 <= m < diag.diags@.len() && (#[trigger] diag.diags@[m]).span
                        == foreign_imports@[k].import_span && diag.diags@[m].level
                        == crate::diagnostics::DiagnosticLevel::Error by {
                    if k < i {
                        let m = choose|m: int|
                            0 <= m < pre_diags.len() && (#[trigger] pre_diags[m]).span
                                == foreign_imports@[k].import_span && pre_diags[m].level
                                == crate::diagnostics::DiagnosticLevel::Error;
                        assert(diag.diags@[m].span == foreign_imports@[k].import_span);
                        assert(diag.diags@[m].level
                            == crate::diagnostics::DiagnosticLevel::Error);
                    } else {
                        assert(diag.diags@[diag.diags@.len() - 1].span == foreign_imports@[
                            i as int
                        ].import_span);
                    }
                }
            }
            i = i + 1;
        }
        proof {
            assert(foreign_imports@.skip(foreign_imports@.len() as int) =~= Seq::<
                crate::syntax::ImportedTypes,
            >::empty());
            assert(fonts_view(custom_fonts@) + Seq::<Seq<char>>::empty() =~= fonts_view(
                custom_fonts@,
            ));
            assert(spec_ids_of(inner_components@, *tree) == spec_component_ids(node.items@));
            assert forall|k: int| 0 <= k < inner_components@.len() implies tree.components@[(
            #[trigger] inner_components@[k]) as int].id@ == spec_component_ids(node.items@)[k]
                && crate::typeregister::spec_entries_lookup(
                local_registry.entries@,
                spec_component_ids(node.items@)[k],
            ) is Some by {
                assert(spec_ids_of(inner_components@, *tree)[k] == tree.components@[
                    inner_components@[k] as int
                ].id@);
            }
        }
        Document {
            node_span: node.span,
            inner_components,
            inner_structs,
            root_component,
            local_registry,
            custom_fonts,
            exports,
        }
    }
}

/// Build one document-level component and register it.
fn process_document_component(
    tree: &mut ObjectTree,
    cn: &crate::syntax::ComponentNode,
    local_registry: &mut TypeRegister,
    inner_components: &mut Vec<usize>,
    diag: &mut BuildDiagnostics,
)
    requires
        tree_wf(*old(tree)),
        registry_valid(*old(local_registry), *old(tree)),
    ensures
        tree_wf(*final(tree)),
        registry_valid(*final(local_registry), *final(tree)),
        diags_extended(*old(diag), *final(diag)),
        final(tree).components@.len() > old(tree).components@.len(),
        final(tree).builtins@ == old(tree).builtins@,
        forall|k: int|
            0 <= k < old(tree).components@.len() ==> final(tree).components@[k] == old(
                tree,
            ).components@[k],
        final(inner_components)@.len() == old(inner_components)@.len() + 1,
        forall|k: int|
            0 <= k < old(inner_components)@.len() ==> final(inner_components)@[k] == old(
                inner_components,
            )@[k],
        final(inner_components)@[final(inner_components)@.len() - 1]
            < final(tree).components@.len(),
        final(tree).components@[final(inner_components)@[final(inner_components)@.len() - 1] as int].id@ == cn.id@,
        crate::typeregister::spec_entries_lookup(final(local_registry).entries@, cn.id@) is Some,
        forall|n: Seq<char>|
            crate::typeregister::spec_entries_lookup(old(local_registry).entries@, n) is Some
                ==> #[trigger] crate::typeregister::spec_entries_lookup(
                final(local_registry).entries@,
                n,
            ) is Some,
{
    let c = component_from_node(tree, cn, diag, local_registry);
    proof {
        lemma_registry_valid_extended(*old(local_registry), *old(tree), *tree);
    }
    local_registry.insert_type_with_name(cn.id.clone(), Type::Component(c));
    inner_components.push(c);
    proof {
        assert forall|i: int| 0 <= i < local_registry.entries@.len() implies valid_base_v(
            type_view((#[trigger] local_registry.entries@[i]).1),
            *tree,
        ) by {
            if i == 0 {
                assert(local_registry.entries@[0].1 == Type::Component(c));
            } else {
                assert(local_registry.entries@[i] == old(local_registry).entries@[i - 1]);
            }
        }
        assert(local_registry.entries@[0].0@ == cn.id@);
        assert forall|n: Seq<char>|
            crate::typeregister::spec_entries_lookup(
                old(local_registry).entries@,
                n,
            ) is Some implies #[trigger] crate::typeregister::spec_entries_lookup(
            local_registry.entries@,
            n,
        ) is Some by {
            crate::typeregister::lemma_entries_lookup_after_insert(
                old(local_registry).entries@,
                local_registry.entries@[0],
                n,
            );
        }
    }
}

/// Build one document-level struct declaration and register it.
fn process_document_struct(
    tree: &ObjectTree,
    sd: &crate::syntax::StructDeclNode,
    local_registry: &mut TypeRegister,
    inner_structs: &mut Vec<Type>,
    diag: &mut BuildDiagnostics,
)
    requires
        registry_valid(*old(local_registry), *tree),
    ensures
        registry_valid(*final(local_registry), *tree),
        diags_extended(*old(diag), *final(diag)),
        forall|n: Seq<char>|
            crate::typeregister::spec_entries_lookup(old(local_registry).entries@, n) is Some
                ==> #[trigger] crate::typeregister::spec_entries_lookup(
                final(local_registry).entries@,
                n,
            ) is Some,
{
    let tn = TypeNode {
        kind: TypeNodeKind::Object(clone_object_type_node(&sd.object)),
        span: sd.object_span,
    };
    let ty = type_from_node(&tn, diag, local_registry);
    let fields2 = match ty {
        Type::Struct { fields, .. } => fields,
        _ => Vec::new(),
    };
    let named_ty = Type::Struct { fields: fields2, name: Some(sd.name.clone()) };
    let dup = crate::langtype::clone_type(&named_ty);
    local_registry.insert_type_with_name(sd.name.clone(), named_ty);
    inner_structs.push(dup);
    proof {
        assert forall|i: int| 0 <= i < local_registry.entries@.len() implies valid_base_v(
            type_view((#[trigger] local_registry.entries@[i]).1),
            *tree,
        ) by {
            if i > 0 {
                assert(local_registry.entries@[i] == old(local_registry).entries@[i - 1]);
            }
        }
        assert forall|n: Seq<char>|
            crate::typeregister::spec_entries_lookup(
                old(local_registry).entries@,
                n,
            ) is Some implies #[trigger] crate::typeregister::spec_entries_lookup(
            local_registry.entries@,
            n,
        ) is Some by {
            crate::typeregister::lemma_entries_lookup_after_insert(
                old(local_registry).entries@,
                local_registry.entries@[0],
                n,
            );
        }
    }
}

/// Structural copy of an inline object type node.
fn clone_object_type_node(o: &ObjectTypeNode) -> (r: ObjectTypeNode)
    decreases *o, 1int,
{
    let mut members: Vec<crate::syntax::ObjectTypeMemberNode> = Vec::new();
    let mut i: usize = 0;
    while i < o.members.len()
        invariant
            0 <= i <= o.members@.len(),
        decreases o.members@.len() - i,
    {
        proof {
            assert(decreases_to!(*o => o.members@[i as int]));
            assert(decreases_to!(o.members@[i as int] => o.members@[i as int].ty));
        }
        members.push(
            crate::syntax::ObjectTypeMemberNode {
                name: o.members[i].name.clone(),
                ty: clone_type_node(&o.members[i].ty),
            },
        );
        i = i + 1;
    }
    ObjectTypeNode { members }
}

/// Structural copy of a written type node.
fn clone_type_node(t: &TypeNode) -> (r: TypeNode)
    decreases *t, 1int,
{
    let kind = match &t.kind {
        TypeNodeKind::Qualified(qn) => {
            let q = QualifiedTypeName::from_node(qn);
            TypeNodeKind::Qualified(QualifiedNameNode { members: q.members, span: qn.span })
        }
        TypeNodeKind::Object(o) => {
            proof {
                assert(decreases_to!(*t => t.kind));
            }
            TypeNodeKind::Object(clone_object_type_node_inner(o, Ghost(*t)))
        }
        TypeNodeKind::Array(inner) => {
            proof {
                assert(decreases_to!(*t => **inner));
            }
            TypeNodeKind::Array(Box::new(clone_type_node(inner)))
        }
    };
    TypeNode { kind, span: t.span }
}

/// Structural copy of an inline object type inside a type node.
fn clone_object_type_node_inner(o: &ObjectTypeNode, parent: Ghost<TypeNode>) -> (r:
    ObjectTypeNode)
    requires
        parent@.kind matches TypeNodeKind::Object(o2) && o2 == *o,
    decreases parent@, 0int,
{
    let mut members: Vec<crate::syntax::ObjectTypeMemberNode> = Vec::new();
    let mut i: usize = 0;
    while i < o.members.len()
        invariant
            0 <= i <= o.members@.len(),
            parent@.kind matches TypeNodeKind::Object(o2) && o2 == *o,
        decreases o.members@.len() - i,
    {
        proof {
            assert(decreases_to!(parent@ => o.members@[i as int]));
            assert(decreases_to!(o.members@[i as int] => o.members@[i as int].ty));
        }
        members.push(
            crate::syntax::ObjectTypeMemberNode {
                name: o.members[i].name.clone(),
                ty: clone_type_node(&o.members[i].ty),
            },
        );
        i = i + 1;
    }
    ObjectTypeNode { members }
}

/// Whether a string ends with a suffix.
pub fn str_ends_with(s: &str, suffix: &str) -> (r: bool)
    ensures
        r == (s@.len() >= suffix@.len() && s@.subrange(
            s@.len() - suffix@.len(),
            s@.len() as int,
        ) == suffix@),
{
    let n = s.unicode_len();
    let m = suffix.unicode_len();
    if n < m {
        return false;
    }
    let tail = s.substring_char(n - m, n);
    crate::units::str_eq(tail, suffix)
}


/// What a compilation run can be configured with: whether resources are
/// embedded in the generated output, where imported components are searched,
/// and the widget style's name. Reading environment overrides and opening
/// import files stay with the caller, which passes the decisions in.
pub struct CompilerConfiguration {
    /// Embed images and fonts in the generated output rather than keeping
    /// file references.
    pub embed_resources: bool,
    /// The directories searched for components used in the compiled file.
    pub include_paths: Vec<String>,
    /// The widget style's name.
    pub style: Option<String>,
}

impl CompilerConfiguration {
    /// The configuration for an output format: generated code embeds its
    /// resources unless an explicit override says otherwise.
    pub fn new(output_embeds_resources: bool, embed_override: Option<bool>) -> (r:
        CompilerConfiguration)
        ensures
            r.embed_resources == (match embed_override {
                Some(v) => v,
                Option::None => output_embeds_resources,
            }),
            r.include_paths@.len() == 0,
            r.style is None,
    {
        let embed_resources = match embed_override {
            Some(v) => v,
            Option::None => output_embeds_resources,
        };
        CompilerConfiguration { embed_resources, include_paths: Vec::new(), style: Option::None }
    }
}

/// Run the semantic passes over a built document, in their fixed order:
/// alias types are inferred first, then the plain binding expressions are
/// compiled, then each component's used globals are collected.
pub fn run_passes(tree: &mut ObjectTree, doc: &Document, diag: &mut BuildDiagnostics)
    requires
        tree_wf(*old(tree)),
        forall|i: int|
            0 <= i < doc.inner_components@.len() ==> (#[trigger] doc.inner_components@[i])
                < old(tree).components@.len(),
    ensures
        tree_wf(*final(tree)),
        diags_extended(*old(diag), *final(diag)),
        final(tree).elements@.len() == old(tree).elements@.len(),
        // No declared type is left at the void placeholder.
        forall|el: int, name: Seq<char>|
            0 <= el < old(tree).elements@.len() && #[trigger] crate::object_tree::spec_decl_ty(
                old(tree).elements@[el].property_declarations@,
                name,
            ) == Some(TypeV::Void) ==> (match crate::object_tree::spec_decl_ty(
                final(tree).elements@[el].property_declarations@,
                name,
            ) {
                Some(t) => t != TypeV::Void,
                Option::None => false,
            }),
        // Every plain binding has been compiled by the stated relation; in
        // particular no binding still holds a plain uncompiled expression.
        forall|el: int, j: int|
            0 <= el < old(tree).elements@.len() && 0 <= j < old(tree).elements@[
                el
            ].bindings@.len() ==> crate::passes::resolve_exprs::binding_resolved(
                old(tree).elements@[el].bindings@[j].1,
                (#[trigger] final(tree).elements@[el].bindings@[j]).1,
            ),
{
    let ghost t0 = *tree;
    crate::passes::infer_aliases::resolve_aliases(tree, doc, diag);
    let ghost t1 = *tree;
    crate::passes::resolve_exprs::resolve_binding_expressions(tree, diag);
    let ghost t2 = *tree;
    proof {
        // Alias resolution keeps every binding; binding resolution keeps
        // every declaration; the global collection keeps the elements.
        assert(forall|el: int|
            0 <= el < t0.elements@.len() ==> (#[trigger] t1.elements@[el]).bindings
                == t0.elements@[el].bindings);
        assert(forall|el: int|
            0 <= el < t0.elements@.len() ==> (#[trigger] t2.elements@[el]).property_declarations
                == t1.elements@[el].property_declarations);
    }
    let mut i: usize = 0;
    while i < doc.inner_components.len()
        invariant
            tree_wf(*tree),
            diags_extended(*old(diag), *diag),
            0 <= i <= doc.inner_components@.len(),
            forall|k: int|
                0 <= k < doc.inner_components@.len() ==> (#[trigger] doc.inner_components@[k])
                    < tree.components@.len(),
            tree.elements@ == t2.elements@,
        decreases doc.inner_components@.len() - i,
    {
        crate::passes::collect_globals::collect_globals(tree, doc.inner_components[i]);
        i = i + 1;
    }
}

} // verus!
