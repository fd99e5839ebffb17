use vstd::prelude::*;
use crate::builder::{diags_extended, Document};
use crate::diagnostics::BuildDiagnostics;
use crate::expression::Expression;
use crate::langtype::{Type, TypeV};
use crate::namedreference::NamedReference;
use crate::object_tree::{
    spec_assoc_index, spec_decl_span, spec_decl_ty, tree_wf, ObjectTree, PropertyDeclaration,
};
use crate::syntax::{SyntaxNode, TwoWayBindingNode};
use crate::units::{str_eq, str_lt};

verus! {

broadcast use vstd::seq::group_seq_axioms;

/// The declared type of a property on an element, if the element and a
/// declaration exist.
pub open spec fn spec_declared_ty(tree: ObjectTree, elem: int, name: Seq<char>) -> Option<
    TypeV,
> {
    if 0 <= elem < tree.elements@.len() {
        spec_decl_ty(tree.elements@[elem].property_declarations@, name)
    } else {
        Option::None
    }
}


/// The element and property a two-way binding resolves to, at view level: an
/// explicit `root`/`self`/element id, or an unqualified name looked up on
/// the current element first and the scope root second.
pub open spec fn spec_two_way_target(
    tree: ObjectTree,
    elem: int,
    scope_root: int,
    tw: TwoWayBindingNode,
) -> Option<(int, Seq<char>)> {
    match tw.elem_id {
        Some(id) => {
            if id@ == "root"@ {
                Some((scope_root, tw.prop_name@))
            } else if id@ == "self"@ {
                Some((elem, tw.prop_name@))
            } else {
                match crate::object_tree::spec_find_by_id(tree, scope_root, id@) {
                    Some(t) => Some((t as int, tw.prop_name@)),
                    Option::None => Option::None,
                }
            }
        }
        Option::None => {
            let here = crate::object_tree::spec_lookup_property(tree, elem, tw.prop_name@);
            if here.1 != TypeV::Invalid {
                Some((elem, here.0))
            } else {
                let at_root = crate::object_tree::spec_lookup_property(
                    tree,
                    scope_root,
                    tw.prop_name@,
                );
                if at_root.1 != TypeV::Invalid {
                    Some((scope_root, at_root.0))
                } else {
                    Some((elem, tw.prop_name@))
                }
            }
        }
    }
}

/// The alias target behind a property's stored binding: the resolved
/// two-way target when the binding is an uncompiled two-way binding,
/// nothing otherwise.
pub open spec fn spec_alias_target(
    tree: ObjectTree,
    elem: int,
    prop: Seq<char>,
    scope_root: int,
) -> Option<(int, Seq<char>)> {
    if !(0 <= elem < tree.elements@.len()) {
        Option::None
    } else {
        match spec_assoc_index(tree.elements@[elem].bindings@, prop) {
            Some(bi) => match tree.elements@[elem].bindings@[bi].1.expression {
                Expression::Uncompiled(SyntaxNode::TwoWayBinding(tw)) => spec_two_way_target(
                    tree,
                    elem,
                    scope_root,
                    tw,
                ),
                _ => Option::None,
            },
            Option::None => Option::None,
        }
    }
}

/// The pass only retypes placeholder declarations: element counts and every
/// field but the property declarations are untouched, declaration keys stay
/// as they are, and a declaration whose type was not the void placeholder
/// keeps its exact entry.
pub open spec fn decls_frame(a: ObjectTree, b: ObjectTree) -> bool {
    &&& b.elements@.len() == a.elements@.len()
    &&& b.components@ == a.components@
    &&& b.builtins@ == a.builtins@
    &&& b.natives@ == a.natives@
    &&& (forall|i: int|
        0 <= i < a.elements@.len() ==> #[trigger] b.elements@[i] == (crate::object_tree::Element {
            property_declarations: b.elements@[i].property_declarations,
            ..a.elements@[i]
        }))
    &&& (forall|i: int|
        0 <= i < a.elements@.len()
            ==> (#[trigger] b.elements@[i]).property_declarations@.len() == a.elements@[
            i
        ].property_declarations@.len())
    &&& (forall|i: int, k: int|
        0 <= i < a.elements@.len() && 0 <= k < a.elements@[i].property_declarations@.len()
            ==> (#[trigger] b.elements@[i].property_declarations@[k]).0 == a.elements@[
            i
        ].property_declarations@[k].0)
    &&& (forall|i: int, k: int|
        0 <= i < a.elements@.len() && 0 <= k < a.elements@[i].property_declarations@.len()
            && crate::langtype::type_view(
            a.elements@[i].property_declarations@[k].1.property_type,
        ) != TypeV::Void ==> (#[trigger] b.elements@[i].property_declarations@[k]).1
            == a.elements@[i].property_declarations@[k].1)
    &&& (forall|i: int, k: int|
        0 <= i < a.elements@.len() && 0 <= k < a.elements@[i].property_declarations@.len()
            ==> (#[trigger] b.elements@[i].property_declarations@[k]).1.node_span
            == a.elements@[i].property_declarations@[k].1.node_span)
}

/// The frame is transitive.
pub proof fn lemma_decls_frame_trans(a: ObjectTree, b: ObjectTree, c: ObjectTree)
    requires
        decls_frame(a, b),
        decls_frame(b, c),
    ensures
        decls_frame(a, c),
{
    assert forall|i: int|
        0 <= i < a.elements@.len() implies #[trigger] c.elements@[i]
        == (crate::object_tree::Element {
        property_declarations: c.elements@[i].property_declarations,
        ..a.elements@[i]
    }) by {
        assert(b.elements@[i] == (crate::object_tree::Element {
            property_declarations: b.elements@[i].property_declarations,
            ..a.elements@[i]
        }));
        assert(c.elements@[i] == (crate::object_tree::Element {
            property_declarations: c.elements@[i].property_declarations,
            ..b.elements@[i]
        }));
    }
    assert forall|i: int, k: int|
        0 <= i < a.elements@.len() && 0 <= k < a.elements@[i].property_declarations@.len()
            && crate::langtype::type_view(
            a.elements@[i].property_declarations@[k].1.property_type,
        ) != TypeV::Void implies (#[trigger] c.elements@[i].property_declarations@[k]).1
        == a.elements@[i].property_declarations@[k].1 by {
        assert(b.elements@[i].property_declarations@[k].1 == a.elements@[
            i
        ].property_declarations@[k].1);
        assert(b.elements@[i].property_declarations@[k].0 == a.elements@[
            i
        ].property_declarations@[k].0);
    }
    assert forall|i: int, k: int|
        0 <= i < a.elements@.len() && 0 <= k < a.elements@[i].property_declarations@.len()
            implies (#[trigger] c.elements@[i].property_declarations@[k]).1.node_span
        == a.elements@[i].property_declarations@[k].1.node_span by {
        assert(b.elements@[i].property_declarations@[k].1.node_span == a.elements@[
            i
        ].property_declarations@[k].1.node_span);
    }
}

/// The frame keeps a name's concrete declared type.
proof fn lemma_frame_decl_ty_preserved(a: ObjectTree, b: ObjectTree, el: int, name: Seq<char>)
    requires
        decls_frame(a, b),
        0 <= el < a.elements@.len(),
        (match spec_decl_ty(a.elements@[el].property_declarations@, name) {
            Some(t) => t != TypeV::Void,
            Option::None => false,
        }),
    ensures
        spec_decl_ty(b.elements@[el].property_declarations@, name) == spec_decl_ty(
            a.elements@[el].property_declarations@,
            name,
        ),
{
    let da = a.elements@[el].property_declarations@;
    let db = b.elements@[el].property_declarations@;
    lemma_assoc_index_same_keys(db, da, name);
    lemma_decl_ty_is_at_index(da, name);
    lemma_decl_ty_is_at_index(db, name);
    crate::object_tree::lemma_decl_ty_index(da, name);
    crate::object_tree::lemma_assoc_index_props(da, name);
    let k = spec_assoc_index(da, name)->Some_0;
    assert(db[k].1 == da[k].1);
}

/// A name declared in a framed state is still declared, not as the
/// placeholder, once it was resolved.
proof fn lemma_frame_keeps_nonvoid(a: ObjectTree, b: ObjectTree, el: int, name: Seq<char>)
    requires
        decls_frame(a, b),
        0 <= el < a.elements@.len(),
        (match spec_decl_ty(a.elements@[el].property_declarations@, name) {
            Some(t) => t != TypeV::Void,
            Option::None => false,
        }),
    ensures
        (match spec_decl_ty(b.elements@[el].property_declarations@, name) {
            Some(t) => t != TypeV::Void,
            Option::None => false,
        }),
{
    lemma_frame_decl_ty_preserved(a, b, el, name);
}

/// Resolve the types of every two-way-binding alias: every element of the
/// tree is visited, and each property whose declared type is still the void
/// placeholder is resolved, in sorted property-name order within an element
/// so diagnostics are reproducible. Afterwards no declared type anywhere is
/// the placeholder; only placeholder declarations were changed.
pub fn resolve_aliases(tree: &mut ObjectTree, doc: &Document, diag: &mut BuildDiagnostics)
    requires
        tree_wf(*old(tree)),
    ensures
        tree_wf(*final(tree)),
        diags_extended(*old(diag), *final(diag)),
        decls_frame(*old(tree), *final(tree)),
        forall|el: int, name: Seq<char>|
            0 <= el < old(tree).elements@.len() && #[trigger] spec_decl_ty(
                old(tree).elements@[el].property_declarations@,
                name,
            ) == Some(TypeV::Void) ==> (match spec_decl_ty(
                final(tree).elements@[el].property_declarations@,
                name,
            ) {
                Some(t) => t != TypeV::Void,
                Option::None => false,
            }),
{
    let _ = doc;
    let n = tree.elements.len();
    let mut ei: usize = 0;
    proof {
        lemma_decls_frame_refl(*tree);
    }
    while ei < n
        invariant
            tree_wf(*tree),
            diags_extended(*old(diag), *diag),
            n == old(tree).elements@.len(),
            n == tree.elements@.len(),
            0 <= ei <= n,
            decls_frame(*old(tree), *tree),
            forall|el: int, name: Seq<char>|
                0 <= el < ei && #[trigger] spec_decl_ty(
                    old(tree).elements@[el].property_declarations@,
                    name,
                ) == Some(TypeV::Void) ==> (match spec_decl_ty(
                    tree.elements@[el].property_declarations@,
                    name,
                ) {
                    Some(t) => t != TypeV::Void,
                    Option::None => false,
                }),
        decreases n - ei,
    {
        let scope_root = match tree.elements[ei].enclosing_component {
            Some(c) => {
                proof {
                    assert(crate::object_tree::elem_wf(*tree, ei as int));
                }
                tree.components[c].root_element
            }
            Option::None => ei,
        };
        let ghost mid = *tree;
        resolve_element_aliases(tree, ei, scope_root, diag);
        proof {
            assert forall|el: int, name: Seq<char>|
                0 <= el < ei + 1 && #[trigger] spec_decl_ty(
                    old(tree).elements@[el].property_declarations@,
                    name,
                ) == Some(TypeV::Void) implies (match spec_decl_ty(
                tree.elements@[el].property_declarations@,
                name,
            ) {
                Some(t) => t != TypeV::Void,
                Option::None => false,
            }) by {
                if el == ei as int {
                    // Either the property was still the placeholder when the
                    // element's turn came, or an earlier alias chain already
                    // resolved it; then the frame keeps the concrete type.
                    lemma_assoc_index_same_keys(
                        mid.elements@[el].property_declarations@,
                        old(tree).elements@[el].property_declarations@,
                        name,
                    );
                    crate::object_tree::lemma_decl_ty_index(
                        old(tree).elements@[el].property_declarations@,
                        name,
                    );
                    crate::object_tree::lemma_decl_ty_index(
                        mid.elements@[el].property_declarations@,
                        name,
                    );
                    match spec_decl_ty(mid.elements@[el].property_declarations@, name) {
                        Some(t) => {
                            if t != TypeV::Void {
                                lemma_frame_keeps_nonvoid(mid, *tree, el, name);
                            }
                        }
                        Option::None => {}
                    }
                } else {
                    // Settled in an earlier iteration; the helper's frame
                    // keeps it settled.
                    match spec_decl_ty(mid.elements@[el].property_declarations@, name) {
                        Some(t) => {
                            if t != TypeV::Void {
                                lemma_frame_keeps_nonvoid(mid, *tree, el, name);
                            }
                        }
                        Option::None => {}
                    }
                }
            }
        }
        ei = ei + 1;
    }
}

/// The frame is reflexive.
proof fn lemma_decls_frame_refl(a: ObjectTree)
    ensures
        decls_frame(a, a),
{
    assert forall|i: int|
        0 <= i < a.elements@.len() implies #[trigger] a.elements@[i]
        == (crate::object_tree::Element {
        property_declarations: a.elements@[i].property_declarations,
        ..a.elements@[i]
    }) by {
    }
}

/// Resolve every placeholder-typed property of one element, in sorted name
/// order; afterwards the element has no placeholder-typed declared name.
fn resolve_element_aliases(
    tree: &mut ObjectTree,
    elem: usize,
    scope_root: usize,
    diag: &mut BuildDiagnostics,
)
    requires
        tree_wf(*old(tree)),
        elem < old(tree).elements@.len(),
        scope_root < old(tree).elements@.len(),
    ensures
        tree_wf(*final(tree)),
        diags_extended(*old(diag), *final(diag)),
        decls_frame(*old(tree), *final(tree)),
        final(tree).elements@.len() == old(tree).elements@.len(),
        forall|name: Seq<char>|
            #[trigger] spec_decl_ty(
                old(tree).elements@[elem as int].property_declarations@,
                name,
            ) == Some(TypeV::Void) ==> (match spec_decl_ty(
                final(tree).elements@[elem as int].property_declarations@,
                name,
            ) {
                Some(t) => t != TypeV::Void,
                Option::None => false,
            }),
{
    // Collect the properties that still carry the placeholder, sorted so
    // the resolution order is deterministic.
    let mut need_resolving: Vec<String> = Vec::new();
    let nd = tree.elements[elem].property_declarations.len();
    let mut di: usize = 0;
    while di < nd
        invariant
            tree_wf(*tree),
            elem < tree.elements@.len(),
            nd == tree.elements@[elem as int].property_declarations@.len(),
            0 <= di <= nd,
            forall|k: int|
                0 <= k < di && crate::langtype::type_view(
                    (#[trigger] tree.elements@[elem as int].property_declarations@[
                        k
                    ]).1.property_type,
                ) == TypeV::Void ==> exists|j: int|
                    0 <= j < need_resolving@.len() && (#[trigger] need_resolving@[j])@
                        == tree.elements@[elem as int].property_declarations@[k].0@,
        decreases nd - di,
    {
        let is_void = matches!(
            tree.elements[elem].property_declarations[di].1.property_type,
            Type::Void,
        );
        proof {
            crate::langtype::lemma_view_tag(
                tree.elements@[elem as int].property_declarations@[di as int].1.property_type,
            );
        }
        if is_void {
            let name = tree.elements[elem].property_declarations[di].0.clone();
            sorted_insert_string(&mut need_resolving, name);
        }
        di = di + 1;
    }
    let fuel = tree.elements.len();
    let ghost entry_tree = *tree;
    let ghost entry_decls = tree.elements@[elem as int].property_declarations@;
    let mut ni: usize = 0;
    proof {
        lemma_decls_frame_refl(*tree);
    }
    while ni < need_resolving.len()
        invariant
            tree_wf(*tree),
            diags_extended(*old(diag), *diag),
            elem < tree.elements@.len(),
            scope_root < tree.elements@.len(),
            entry_tree == *old(tree),
            entry_decls == old(tree).elements@[elem as int].property_declarations@,
            0 <= ni <= need_resolving@.len(),
            decls_frame(*old(tree), *tree),
            forall|j: int|
                0 <= j < ni ==> (match spec_decl_ty(
                    tree.elements@[elem as int].property_declarations@,
                    (#[trigger] need_resolving@[j])@,
                ) {
                    Some(t) => t != TypeV::Void,
                    Option::None => true,
                }),
        decreases need_resolving@.len() - ni,
    {
        let ghost pre = *tree;
        resolve_alias(tree, elem, need_resolving[ni].as_str(), scope_root, diag, fuel);
        proof {
            lemma_decls_frame_trans(*old(tree), pre, *tree);
            assert forall|j: int|
                0 <= j < ni + 1 implies (match spec_decl_ty(
                tree.elements@[elem as int].property_declarations@,
                (#[trigger] need_resolving@[j])@,
            ) {
                Some(t) => t != TypeV::Void,
                Option::None => true,
            }) by {
                if j < ni as int {
                    match spec_decl_ty(
                        pre.elements@[elem as int].property_declarations@,
                        need_resolving@[j]@,
                    ) {
                        Some(t) => {
                            if t != TypeV::Void {
                                lemma_frame_decl_ty_preserved(
                                    pre,
                                    *tree,
                                    elem as int,
                                    need_resolving@[j]@,
                                );
                            }
                        }
                        Option::None => {
                            lemma_assoc_index_same_keys(
                                tree.elements@[elem as int].property_declarations@,
                                pre.elements@[elem as int].property_declarations@,
                                need_resolving@[j]@,
                            );
                            crate::object_tree::lemma_decl_ty_index(
                                pre.elements@[elem as int].property_declarations@,
                                need_resolving@[j]@,
                            );
                            crate::object_tree::lemma_decl_ty_index(
                                tree.elements@[elem as int].property_declarations@,
                                need_resolving@[j]@,
                            );
                        }
                    }
                }
            }
        }
        ni = ni + 1;
    }
    proof {
        assert forall|name: Seq<char>|
            #[trigger] spec_decl_ty(entry_decls, name) == Some(TypeV::Void) implies (match
            spec_decl_ty(tree.elements@[elem as int].property_declarations@, name) {
            Some(t) => t != TypeV::Void,
            Option::None => false,
        }) by {
            crate::object_tree::lemma_decl_ty_index(entry_decls, name);
            crate::object_tree::lemma_assoc_index_props(entry_decls, name);
            lemma_decl_ty_is_at_index(entry_decls, name);
            let k = spec_assoc_index(entry_decls, name)->Some_0;
            // The collection loop saw this entry and recorded its name.
            assert(crate::langtype::type_view(entry_decls[k].1.property_type) == TypeV::Void);
            assert(exists|j: int|
                0 <= j < need_resolving@.len() && (#[trigger] need_resolving@[j])@
                    == entry_decls[k].0@);
            let j = choose|j: int|
                0 <= j < need_resolving@.len() && (#[trigger] need_resolving@[j])@
                    == entry_decls[k].0@;
            // After its turn the name is no longer the placeholder, and the
            // keys never change, so the name stays declared.
            lemma_assoc_index_same_keys(
                tree.elements@[elem as int].property_declarations@,
                entry_decls,
                name,
            );
            crate::object_tree::lemma_decl_ty_index(
                tree.elements@[elem as int].property_declarations@,
                name,
            );
        }
    }
}

/// Insert a string into a lexicographically sorted vector; every name that
/// was present stays present, and the new one is present.
fn sorted_insert_string(v: &mut Vec<String>, s: String)
    ensures
        final(v)@.len() == old(v)@.len() + 1,
        exists|j: int| 0 <= j < final(v)@.len() && (#[trigger] final(v)@[j])@ == s@,
        forall|j: int|
            0 <= j < old(v)@.len() ==> exists|j2: int|
                0 <= j2 < final(v)@.len() && (#[trigger] final(v)@[j2])@ == (#[trigger] old(
                    v,
                )@[j])@,
{
    let mut pos: usize = 0;
    let n = v.len();
    while pos < n
        invariant
            0 <= pos <= n,
            n == v@.len(),
        decreases n - pos,
    {
        if !str_lt(v[pos].as_str(), s.as_str()) {
            break;
        }
        pos = pos + 1;
    }
    let ghost oldv = v@;
    let ghost pos_g = pos as int;
    v.insert(pos, s);
    proof {
        assert(v@ == oldv.insert(pos_g, s));
        assert(v@[pos_g]@ == s@);
        assert forall|j: int| 0 <= j < oldv.len() implies exists|j2: int|
            0 <= j2 < v@.len() && (#[trigger] v@[j2])@ == (#[trigger] oldv[j])@ by {
            if j < pos_g {
                assert(v@[j]@ == oldv[j]@);
            } else {
                assert(v@[j + 1]@ == oldv[j]@);
            }
        }
    }
}

/// Whether the pass failed on a property: its declared type became the
/// invalid sentinel and exactly one could-not-infer error, anchored at the
/// property's declaration, was pushed after everything already reported.
pub open spec fn spec_alias_failed(
    tree_old: ObjectTree,
    tree_new: ObjectTree,
    elem: int,
    prop: Seq<char>,
    diag_old: BuildDiagnostics,
    diag_new: BuildDiagnostics,
) -> bool {
    &&& spec_decl_ty(tree_new.elements@[elem].property_declarations@, prop) == Some(
        TypeV::Invalid,
    )
    &&& diag_new.diags@.len() == diag_old.diags@.len() + 1
    &&& diag_new.diags@.last().level == crate::diagnostics::DiagnosticLevel::Error
    &&& diag_new.diags@.last().message@ == "Could not infer type of property"@
    &&& diag_new.diags@.last().span == (match spec_decl_span(
        tree_old.elements@[elem].property_declarations@,
        prop,
    ) {
        Some(sp) => sp,
        Option::None => crate::diagnostics::Span { start: 0, end: 0 },
    })
}

/// Updating one entry's type, keeping its name and span, changes no other
/// name's resolution or span, and keeps this name's span.
proof fn lemma_decl_span_update_same(
    decls: Seq<(String, PropertyDeclaration)>,
    i: int,
    pair: (String, PropertyDeclaration),
    name: Seq<char>,
)
    requires
        0 <= i < decls.len(),
        pair.0 == decls[i].0,
        pair.1.node_span == decls[i].1.node_span,
    ensures
        spec_decl_span(decls.update(i, pair), name) == spec_decl_span(decls, name),
    decreases decls,
{
    if decls.len() > 0 {
        if i == 0 {
            assert(decls.update(0, pair)[0] == pair);
            assert(decls.update(0, pair).skip(1) =~= decls.skip(1));
        } else {
            lemma_decl_span_update_same(decls.skip(1), i - 1, pair, name);
            assert(decls.update(i, pair)[0] == decls[0]);
            assert(decls.update(i, pair).skip(1) =~= decls.skip(1).update(i - 1, pair));
        }
    }
}


/// A name's declared type is the view of the entry its index names.
proof fn lemma_decl_ty_is_at_index(decls: Seq<(String, PropertyDeclaration)>, name: Seq<char>)
    ensures
        (match spec_assoc_index(decls, name) {
            Some(k) => spec_decl_ty(decls, name) == Some(
                crate::langtype::type_view(decls[k].1.property_type),
            ),
            Option::None => spec_decl_ty(decls, name) is None,
        }),
    decreases decls,
{
    if decls.len() > 0 {
        if decls[0].0@ == name {
        } else {
            lemma_decl_ty_is_at_index(decls.skip(1), name);
            crate::object_tree::lemma_assoc_index_props(decls, name);
            match spec_assoc_index(decls.skip(1), name) {
                Some(k) => {
                    assert(decls.skip(1)[k] == decls[k + 1]);
                }
                Option::None => {}
            }
        }
    }
}

/// Lists with pointwise equal keys index names alike.
proof fn lemma_assoc_index_same_keys(
    a: Seq<(String, PropertyDeclaration)>,
    b: Seq<(String, PropertyDeclaration)>,
    name: Seq<char>,
)
    requires
        a.len() == b.len(),
        forall|i: int| 0 <= i < a.len() ==> (#[trigger] a[i]).0 == b[i].0,
    ensures
        spec_assoc_index(a, name) == spec_assoc_index(b, name),
    decreases a,
{
    if a.len() > 0 {
        assert(a[0].0 == b[0].0);
        if a[0].0@ == name {
        } else {
            assert(forall|i: int|
                0 <= i < a.skip(1).len() ==> (#[trigger] a.skip(1)[i]) == a[i + 1] && b.skip(
                    1,
                )[i] == b[i + 1]);
            lemma_assoc_index_same_keys(a.skip(1), b.skip(1), name);
        }
    }
}

/// Retyping one placeholder entry keeps the declaration frame.
proof fn lemma_frame_after_set(a: ObjectTree, b: ObjectTree, elem: int, k: int)
    requires
        0 <= elem < a.elements@.len(),
        b.elements@.len() == a.elements@.len(),
        b.components@ == a.components@,
        b.builtins@ == a.builtins@,
        b.natives@ == a.natives@,
        forall|i: int|
            0 <= i < a.elements@.len() && i != elem ==> b.elements@[i] == a.elements@[i],
        b.elements@[elem] == (crate::object_tree::Element {
            property_declarations: b.elements@[elem].property_declarations,
            ..a.elements@[elem]
        }),
        0 <= k < a.elements@[elem].property_declarations@.len(),
        b.elements@[elem].property_declarations@ == a.elements@[
            elem
        ].property_declarations@.update(
            k,
            (a.elements@[elem].property_declarations@[k].0,
            b.elements@[elem].property_declarations@[k].1),
        ),
        crate::langtype::type_view(
            a.elements@[elem].property_declarations@[k].1.property_type,
        ) == TypeV::Void,
        b.elements@[elem].property_declarations@[k].1.node_span == a.elements@[
            elem
        ].property_declarations@[k].1.node_span,
    ensures
        decls_frame(a, b),
{
    assert forall|i: int|
        0 <= i < a.elements@.len() implies #[trigger] b.elements@[i]
        == (crate::object_tree::Element {
        property_declarations: b.elements@[i].property_declarations,
        ..a.elements@[i]
    }) by {
        if i != elem {
            assert(b.elements@[i] == a.elements@[i]);
        }
    }
}

/// Looking the target property up after the sentinel was planted still
/// yields its directly declared type: the sentinel touched a different
/// entry.
proof fn lemma_target_lookup(
    tree0: ObjectTree,
    tree1: ObjectTree,
    elem: int,
    k0: int,
    prop: Seq<char>,
    te: int,
    tn: Seq<char>,
    t: TypeV,
)
    requires
        tree_wf(tree0),
        0 <= elem < tree0.elements@.len(),
        tree1.elements@.len() == tree0.elements@.len(),
        forall|i: int|
            0 <= i < tree0.elements@.len() && i != elem ==> tree1.elements@[i]
                == tree0.elements@[i],
        0 <= k0 < tree0.elements@[elem].property_declarations@.len(),
        tree0.elements@[elem].property_declarations@[k0].0@ == prop,
        tree1.elements@[elem].property_declarations@ == tree0.elements@[
            elem
        ].property_declarations@.update(
            k0,
            (tree0.elements@[elem].property_declarations@[k0].0,
            tree1.elements@[elem].property_declarations@[k0].1),
        ),
        0 <= te < tree0.elements@.len(),
        !(te == elem && tn == prop),
        spec_decl_ty(tree0.elements@[te].property_declarations@, tn) == Some(t),
        tree_wf(tree1),
    ensures
        crate::object_tree::spec_lookup_property(tree1, te, tn) == (tn, t),
{
    if te != elem {
        assert(tree1.elements@[te] == tree0.elements@[te]);
    } else {
        lemma_decl_ty_update_other(
            tree0.elements@[elem].property_declarations@,
            k0,
            (tree0.elements@[elem].property_declarations@[k0].0,
            tree1.elements@[elem].property_declarations@[k0].1),
            tn,
        );
    }
}

/// Resolve one alias property: the representative pass's state machine. A
/// property that is not declared here, or whose declared type is no longer
/// the void placeholder, is left alone. A placeholder property first gets
/// the invalid sentinel, so a cyclic chain that reaches it again reads the
/// sentinel instead of re-entering; then its two-way target is resolved. On
/// success the declared type becomes the target property's concrete type
/// with no new diagnostic; on failure it stays at the sentinel and exactly
/// one could-not-infer error is pushed at the declaration. Only placeholder
/// declarations ever change, and the placeholder never survives.
pub fn resolve_alias(
    tree: &mut ObjectTree,
    elem: usize,
    prop: &str,
    scope_root: usize,
    diag: &mut BuildDiagnostics,
    fuel: usize,
)
    requires
        tree_wf(*old(tree)),
        elem < old(tree).elements@.len(),
        scope_root < old(tree).elements@.len(),
    ensures
        tree_wf(*final(tree)),
        diags_extended(*old(diag), *final(diag)),
        decls_frame(*old(tree), *final(tree)),
        (match spec_declared_ty(*final(tree), elem as int, prop@) {
            Some(t) => t != TypeV::Void,
            Option::None => true,
        }),
        (match spec_decl_ty(old(tree).elements@[elem as int].property_declarations@, prop@) {
            Some(t) => t != TypeV::Void ==> *final(tree) == *old(tree) && final(diag).diags@
                == old(diag).diags@,
            Option::None => *final(tree) == *old(tree) && final(diag).diags@ == old(
                diag,
            ).diags@,
        }),
        // The placeholder case: the resolved target decides the outcome.
        (spec_decl_ty(old(tree).elements@[elem as int].property_declarations@, prop@) == Some(
            TypeV::Void,
        ) ==> {
            let target = spec_alias_target(*old(tree), elem as int, prop@, scope_root as int);
            &&& (target is None ==> spec_alias_failed(
                *old(tree),
                *final(tree),
                elem as int,
                prop@,
                *old(diag),
                *final(diag),
            ))
            &&& (match target {
                Some((te, tn)) => 0 <= te < old(tree).elements@.len() && !(te == elem as int
                    && tn == prop@) ==> (match spec_decl_ty(
                    old(tree).elements@[te].property_declarations@,
                    tn,
                ) {
                    Some(t) => (t != TypeV::Void && t != TypeV::Invalid && t
                        != TypeV::InferredProperty && t != TypeV::InferredCallback)
                        ==> spec_decl_ty(
                        final(tree).elements@[elem as int].property_declarations@,
                        prop@,
                    ) == Some(t) && final(diag).diags@ == old(diag).diags@,
                    Option::None => true,
                }),
                Option::None => true,
            })
            &&& (spec_decl_ty(final(tree).elements@[elem as int].property_declarations@, prop@)
                == Some(TypeV::Invalid) ==> final(diag).has_error_spec())
        }),
    decreases fuel,
{
    // Already processed or not declared here: nothing to do.
    let decl_ty = crate::object_tree::decl_ty_pub(
        &tree.elements[elem].property_declarations,
        prop,
    );
    match &decl_ty {
        Some(t) => {
            if !matches!(t, Type::Void) {
                proof {
                    crate::langtype::lemma_view_tag(*t);
                }
                return ;
            }
        }
        Option::None => {
            return ;
        }
    }

    // Resolve the two-way binding's target first, against the unmodified
    // tree; a self-alias then resolves to itself and fails cleanly below.
    let target: Option<NamedReference> = {
        let found = crate::object_tree::assoc_find_binding(&tree.elements[elem].bindings, prop);
        match found {
            Some(bi) => {
                proof {
                    crate::object_tree::lemma_assoc_index_props(
                        tree.elements@[elem as int].bindings@,
                        prop@,
                    );
                }
                match &tree.elements[elem].bindings[bi].1.expression {
                    Expression::Uncompiled(SyntaxNode::TwoWayBinding(tw)) => {
                        resolve_two_way_target(tree, elem, scope_root, tw)
                    }
                    _ => Option::None,
                }
            }
            Option::None => Option::None,
        }
    };
    proof {
        match &target {
            Some(nr) => {
                assert(spec_alias_target(*tree, elem as int, prop@, scope_root as int) == Some(
                    crate::namedreference::nr_view(*nr),
                ));
            }
            Option::None => {
                assert(spec_alias_target(*tree, elem as int, prop@, scope_root as int)
                    is None);
            }
        }
    }

    // Mark the property with the invalid sentinel so that a cyclic alias
    // chain reaching it again does not re-enter.
    let ghost tree0 = *tree;
    let ghost decls0 = tree.elements@[elem as int].property_declarations@;
    let ghost k0 = spec_assoc_index(decls0, prop@)->Some_0;
    proof {
        crate::object_tree::lemma_decl_ty_index(decls0, prop@);
        crate::object_tree::lemma_assoc_index_props(decls0, prop@);
    }
    set_declared_type(tree, elem, prop, Type::Invalid);
    proof {
        lemma_decl_ty_update(
            decls0,
            prop@,
            k0,
            (decls0[k0].0, PropertyDeclaration { property_type: Type::Invalid, ..decls0[k0].1 }),
        );
        lemma_decl_ty_is_at_index(decls0, prop@);
        lemma_frame_after_set(tree0, *tree, elem as int, k0);
    }
    let ghost tree1 = *tree;
    let ghost diag1 = *diag;

    let ty: Type = match &target {
        Some(nr) => {
            let first = tree.lookup_property(nr.element(), nr.name());
            let first_is_void = matches!(first.property_type, Type::Void);
            proof {
                crate::langtype::lemma_view_tag(first.property_type);
            }
            if first_is_void && fuel > 0 {
                // The alias points at another unresolved alias: resolve that
                // one first, then read the type again. The scope is kept as
                // it is, even for a deeply nested chain.
                let target_elem = nr.element();
                if target_elem < tree.elements.len() {
                    resolve_alias(tree, target_elem, nr.name(), scope_root, diag, fuel - 1);
                }
                if nr.element() < tree.elements.len() {
                    let again = tree.lookup_property(nr.element(), nr.name());
                    again.property_type
                } else {
                    Type::Invalid
                }
            } else {
                first.property_type
            }
        }
        Option::None => Type::Invalid,
    };
    let ghost tree2 = *tree;

    let is_void = matches!(ty, Type::Void);
    let is_invalid = matches!(ty, Type::Invalid);
    let is_inferred = matches!(ty, Type::InferredProperty) || matches!(
        ty,
        Type::InferredCallback,
    );
    proof {
        crate::langtype::lemma_view_tag(ty);
        // The sentinel is still in place: the recursion's frame preserves
        // every entry that is no longer the placeholder.
        assert(spec_decl_ty(tree2.elements@[elem as int].property_declarations@, prop@) == Some(
            TypeV::Invalid,
        )) by {
            assert(decls_frame(tree1, tree2));
            let d1 = tree1.elements@[elem as int].property_declarations@;
            let d2 = tree2.elements@[elem as int].property_declarations@;
            lemma_assoc_index_same_keys(d1, decls0, prop@);
            lemma_assoc_index_same_keys(d2, d1, prop@);
            assert(d2[k0].1 == d1[k0].1);
            lemma_decl_ty_is_at_index(d2, prop@);
        }
    }
    if is_void || is_invalid || is_inferred {
        let span = match crate::object_tree::decl_ty_span(
            &tree.elements[elem].property_declarations,
            prop,
        ) {
            Some(sp) => sp,
            Option::None => crate::diagnostics::Span::none(),
        };
        proof {
            // The span read now equals the span of the original declaration.
            lemma_decl_span_update_same(
                decls0,
                k0,
                (decls0[k0].0, PropertyDeclaration {
                    property_type: Type::Invalid,
                    ..decls0[k0].1
                }),
                prop@,
            );
            lemma_decl_span_same_entries(
                tree2.elements@[elem as int].property_declarations@,
                tree1.elements@[elem as int].property_declarations@,
                prop@,
            );
        }
        diag.push_error(String::from_str("Could not infer type of property"), span);
        proof {
            reveal_strlit("Could not infer type of property");
            lemma_decls_frame_trans(tree0, tree1, tree2);
            // The success hypothesis cannot hold on this branch: a target
            // with a concrete direct declaration would have resolved.
            match &target {
                Some(nr) => {
                    let te = nr.element as int;
                    let tn = nr.name@;
                    if 0 <= te < tree0.elements@.len() && !(te == elem as int && tn == prop@) {
                        match spec_decl_ty(
                            tree0.elements@[te].property_declarations@,
                            tn,
                        ) {
                            Some(t) => {
                                if t != TypeV::Void && t != TypeV::Invalid && t
                                    != TypeV::InferredProperty && t != TypeV::InferredCallback {
                                    lemma_target_lookup(
                                        tree0,
                                        tree1,
                                        elem as int,
                                        k0,
                                        prop@,
                                        te,
                                        tn,
                                        t,
                                    );
                                    assert(false);
                                }
                            }
                            Option::None => {}
                        }
                    }
                }
                Option::None => {}
            }
        }
    } else {
        let ghost pre_decls = tree.elements@[elem as int].property_declarations@;
        proof {
            crate::object_tree::lemma_decl_ty_index(pre_decls, prop@);
            crate::object_tree::lemma_assoc_index_props(pre_decls, prop@);
        }
        set_declared_type(tree, elem, prop, ty);
        proof {
            lemma_decls_frame_trans(tree0, tree1, tree2);
            // A target with a concrete direct declaration resolved to it.
            match &target {
                Some(nr) => {
                    let te = nr.element as int;
                    let tn = nr.name@;
                    if 0 <= te < tree0.elements@.len() && !(te == elem as int && tn == prop@) {
                        match spec_decl_ty(
                            tree0.elements@[te].property_declarations@,
                            tn,
                        ) {
                            Some(t) => {
                                if t != TypeV::Void && t != TypeV::Invalid && t
                                    != TypeV::InferredProperty && t != TypeV::InferredCallback {
                                    lemma_target_lookup(
                                        tree0,
                                        tree1,
                                        elem as int,
                                        k0,
                                        prop@,
                                        te,
                                        tn,
                                        t,
                                    );
                                }
                            }
                            Option::None => {}
                        }
                    }
                }
                Option::None => {}
            }
            // The entry's index is unchanged through the frame, so the
            // second retype hits the original placeholder entry.
            lemma_assoc_index_same_keys(pre_decls, decls0, prop@);
            let k2 = spec_assoc_index(pre_decls, prop@)->Some_0;
            assert(k2 == k0);
            lemma_decl_ty_update(
                pre_decls,
                prop@,
                k2,
                (pre_decls[k2].0, PropertyDeclaration { property_type: ty, ..pre_decls[k2].1 }),
            );
            lemma_frame_after_set_composed(tree0, tree2, *tree, elem as int, k0);
        }
    }
}

/// Retyping the original placeholder entry after framed changes keeps the
/// frame to the final state.
proof fn lemma_frame_after_set_composed(
    a: ObjectTree,
    b: ObjectTree,
    c: ObjectTree,
    elem: int,
    k: int,
)
    requires
        decls_frame(a, b),
        0 <= elem < a.elements@.len(),
        c.elements@.len() == b.elements@.len(),
        c.components@ == b.components@,
        c.builtins@ == b.builtins@,
        c.natives@ == b.natives@,
        forall|i: int|
            0 <= i < b.elements@.len() && i != elem ==> c.elements@[i] == b.elements@[i],
        c.elements@[elem] == (crate::object_tree::Element {
            property_declarations: c.elements@[elem].property_declarations,
            ..b.elements@[elem]
        }),
        0 <= k < b.elements@[elem].property_declarations@.len(),
        c.elements@[elem].property_declarations@ == b.elements@[
            elem
        ].property_declarations@.update(
            k,
            (b.elements@[elem].property_declarations@[k].0,
            c.elements@[elem].property_declarations@[k].1),
        ),
        crate::langtype::type_view(
            a.elements@[elem].property_declarations@[k].1.property_type,
        ) == TypeV::Void,
        c.elements@[elem].property_declarations@[k].1.node_span == b.elements@[
            elem
        ].property_declarations@[k].1.node_span,
    ensures
        decls_frame(a, c),
{
    assert forall|i: int|
        0 <= i < a.elements@.len() implies #[trigger] c.elements@[i]
        == (crate::object_tree::Element {
        property_declarations: c.elements@[i].property_declarations,
        ..a.elements@[i]
    }) by {
        assert(b.elements@[i] == (crate::object_tree::Element {
            property_declarations: b.elements@[i].property_declarations,
            ..a.elements@[i]
        }));
        if i != elem {
            assert(c.elements@[i] == b.elements@[i]);
        }
    }
    assert forall|i: int, k2: int|
        0 <= i < a.elements@.len() && 0 <= k2 < a.elements@[i].property_declarations@.len()
            && crate::langtype::type_view(
            a.elements@[i].property_declarations@[k2].1.property_type,
        ) != TypeV::Void implies (#[trigger] c.elements@[i].property_declarations@[k2]).1
        == a.elements@[i].property_declarations@[k2].1 by {
        assert(b.elements@[i].property_declarations@[k2].1 == a.elements@[
            i
        ].property_declarations@[k2].1);
        if i != elem {
            assert(c.elements@[i] == b.elements@[i]);
        } else {
            assert(k2 != k);
        }
    }
    assert forall|i: int, k2: int|
        0 <= i < a.elements@.len() && 0 <= k2 < a.elements@[i].property_declarations@.len()
            implies (#[trigger] c.elements@[i].property_declarations@[k2]).0 == a.elements@[
            i
        ].property_declarations@[k2].0 by {
        assert(b.elements@[i].property_declarations@[k2].0 == a.elements@[
            i
        ].property_declarations@[k2].0);
        if i != elem {
            assert(c.elements@[i] == b.elements@[i]);
        }
    }
    assert forall|i: int, k2: int|
        0 <= i < a.elements@.len() && 0 <= k2 < a.elements@[i].property_declarations@.len()
            implies (#[trigger] c.elements@[i].property_declarations@[k2]).1.node_span
        == a.elements@[i].property_declarations@[k2].1.node_span by {
        assert(b.elements@[i].property_declarations@[k2].1.node_span == a.elements@[
            i
        ].property_declarations@[k2].1.node_span);
        if i != elem {
            assert(c.elements@[i] == b.elements@[i]);
        }
    }
}

/// Two declaration lists with the same entries for a name have the same
/// span for it.
proof fn lemma_decl_span_same_entries(
    a: Seq<(String, PropertyDeclaration)>,
    b: Seq<(String, PropertyDeclaration)>,
    name: Seq<char>,
)
    requires
        a.len() == b.len(),
        forall|i: int|
            0 <= i < a.len() ==> (#[trigger] a[i]).0 == b[i].0 && a[i].1.node_span == b[
                i
            ].1.node_span,
    ensures
        spec_decl_span(a, name) == spec_decl_span(b, name),
    decreases a,
{
    if a.len() > 0 {
        assert(forall|i: int|
            0 <= i < a.skip(1).len() ==> (#[trigger] a.skip(1)[i]) == a[i + 1] && b.skip(1)[i]
                == b[i + 1]);
        lemma_decl_span_same_entries(a.skip(1), b.skip(1), name);
    }
}

/// The element and property a two-way binding names, resolved against the
/// current element and the component scope.
fn resolve_two_way_target(
    tree: &ObjectTree,
    elem: usize,
    scope_root: usize,
    tw: &TwoWayBindingNode,
) -> (r: Option<NamedReference>)
    requires
        tree_wf(*tree),
        elem < tree.elements@.len(),
        scope_root < tree.elements@.len(),
    ensures
        (match r {
            Some(nr) => spec_two_way_target(*tree, elem as int, scope_root as int, *tw)
                == Some(crate::namedreference::nr_view(nr)) && nr.element
                < tree.elements@.len(),
            Option::None => spec_two_way_target(*tree, elem as int, scope_root as int, *tw)
                is None,
        }),
{
    match &tw.elem_id {
        Some(id) => {
            if str_eq(id.as_str(), "root") {
                Some(NamedReference::new(scope_root, tw.prop_name.clone()))
            } else if str_eq(id.as_str(), "self") {
                Some(NamedReference::new(elem, tw.prop_name.clone()))
            } else {
                let found = tree.find_element_by_id(scope_root, id.as_str());
                match found {
                    Some(target) => Some(NamedReference::new(target, tw.prop_name.clone())),
                    Option::None => Option::None,
                }
            }
        }
        Option::None => {
            // An unqualified name: the current element wins, then the root.
            let here = tree.lookup_property(elem, tw.prop_name.as_str());
            let here_missing = matches!(here.property_type, Type::Invalid);
            proof {
                crate::langtype::lemma_view_tag(here.property_type);
            }
            if !here_missing {
                Some(NamedReference::new(elem, here.resolved_name))
            } else {
                let at_root = tree.lookup_property(scope_root, tw.prop_name.as_str());
                let root_missing = matches!(at_root.property_type, Type::Invalid);
                proof {
                    crate::langtype::lemma_view_tag(at_root.property_type);
                }
                if !root_missing {
                    Some(NamedReference::new(scope_root, at_root.resolved_name))
                } else {
                    Some(NamedReference::new(elem, tw.prop_name.clone()))
                }
            }
        }
    }
}

/// Find a property declaration's index by name.
fn assoc_find_decl(decls: &Vec<(String, PropertyDeclaration)>, name: &str) -> (r: Option<usize>)
    ensures
        (match r {
            Some(i) => spec_assoc_index(decls@, name@) == Some(i as int),
            Option::None => spec_assoc_index(decls@, name@) is None,
        }),
{
    let mut i: usize = 0;
    while i < decls.len()
        invariant
            0 <= i <= decls@.len(),
            forall|j: int| 0 <= j < i ==> (#[trigger] decls@[j]).0@ != name@,
        decreases decls@.len() - i,
    {
        if str_eq(decls[i].0.as_str(), name) {
            proof {
                crate::object_tree::lemma_assoc_index_props(decls@, name@);
                match spec_assoc_index(decls@, name@) {
                    Some(k) => {
                        if k < i as int {
                            assert(decls@[k].0@ != name@);
                        }
                        if k > i as int {
                            assert(decls@[i as int].0@ != name@);
                        }
                    }
                    Option::None => {
                        assert(decls@[i as int].0@ != name@);
                    }
                }
            }
            return Some(i);
        }
        i = i + 1;
    }
    proof {
        crate::object_tree::lemma_assoc_index_props(decls@, name@);
    }
    Option::None
}

/// Updating the entry that a name resolves to makes the name resolve to the
/// new type.
pub proof fn lemma_decl_ty_update(
    decls: Seq<(String, PropertyDeclaration)>,
    name: Seq<char>,
    i: int,
    pair: (String, PropertyDeclaration),
)
    requires
        spec_assoc_index(decls, name) == Some(i),
        pair.0@ == name,
    ensures
        spec_decl_ty(decls.update(i, pair), name) == Some(
            crate::langtype::type_view(pair.1.property_type),
        ),
    decreases decls,
{
    crate::object_tree::lemma_assoc_index_props(decls, name);
    if decls.len() > 0 {
        if decls[0].0@ == name {
            assert(i == 0);
            assert(decls.update(0, pair)[0] == pair);
        } else {
            assert(i >= 1);
            lemma_decl_ty_update(decls.skip(1), name, i - 1, pair);
            assert(decls.update(i, pair)[0] == decls[0]);
            assert(decls.update(i, pair).skip(1) =~= decls.skip(1).update(i - 1, pair));
        }
    }
}

/// Updating an entry with one key leaves every other key's resolution alone.
pub proof fn lemma_decl_ty_update_other(
    decls: Seq<(String, PropertyDeclaration)>,
    i: int,
    pair: (String, PropertyDeclaration),
    other: Seq<char>,
)
    requires
        0 <= i < decls.len(),
        pair.0@ == decls[i].0@,
        pair.0@ != other,
    ensures
        spec_decl_ty(decls.update(i, pair), other) == spec_decl_ty(decls, other),
        spec_decl_span(decls.update(i, pair), other) == spec_decl_span(decls, other),
    decreases decls,
{
    if decls.len() > 0 {
        if i == 0 {
            assert(decls.update(0, pair)[0] == pair);
            assert(decls.update(0, pair).skip(1) =~= decls.skip(1));
        } else {
            lemma_decl_ty_update_other(decls.skip(1), i - 1, pair, other);
            assert(decls.update(i, pair)[0] == decls[0]);
            assert(decls.update(i, pair).skip(1) =~= decls.skip(1).update(i - 1, pair));
        }
    }
}

/// Overwrite the declared type of a property, leaving everything else alone:
/// the entry keeps its name and every other field, and every other entry and
/// element is untouched.
fn set_declared_type(tree: &mut ObjectTree, elem: usize, prop: &str, ty: Type)
    requires
        tree_wf(*old(tree)),
        elem < old(tree).elements@.len(),
    ensures
        tree_wf(*final(tree)),
        final(tree).elements@.len() == old(tree).elements@.len(),
        forall|i: int|
            0 <= i < old(tree).elements@.len() && i != elem ==> final(tree).elements@[i] == old(
                tree,
            ).elements@[i],
        final(tree).components@ == old(tree).components@,
        final(tree).builtins@ == old(tree).builtins@,
        final(tree).natives@ == old(tree).natives@,
        final(tree).elements@[elem as int] == (crate::object_tree::Element {
            property_declarations: final(tree).elements@[elem as int].property_declarations,
            ..old(tree).elements@[elem as int]
        }),
        (match spec_assoc_index(old(tree).elements@[elem as int].property_declarations@, prop@) {
            Some(i) => final(tree).elements@[elem as int].property_declarations@ == old(
                tree,
            ).elements@[elem as int].property_declarations@.update(
                i,
                (old(tree).elements@[elem as int].property_declarations@[i].0,
                PropertyDeclaration {
                    property_type: ty,
                    ..old(tree).elements@[elem as int].property_declarations@[i].1
                }),
            ),
            Option::None => *final(tree) == *old(tree),
        }),
{
    let ghost oldtree = *tree;
    let found = assoc_find_decl(&tree.elements[elem].property_declarations, prop);
    match found {
        Some(k) => {
            let mut e = tree.take_element(elem);
            proof {
                crate::object_tree::lemma_assoc_index_props(e.property_declarations@, prop@);
            }
            // Swap the pair out so its name and other fields keep their
            // exact values.
            let mut pair = (
                String::new(),
                PropertyDeclaration {
                    property_type: Type::Invalid,
                    node_span: Option::None,
                    expose_in_public_api: false,
                    is_alias: Option::None,
                },
            );
            e.property_declarations.set_and_swap(k, &mut pair);
            let (name, old_decl) = pair;
            let new_decl = PropertyDeclaration { property_type: ty, ..old_decl };
            let ghost decls_mid = e.property_declarations@;
            e.property_declarations.set(k, (name, new_decl));
            proof {
                assert(e.property_declarations@ =~= oldtree.elements@[
                    elem as int
                ].property_declarations@.update(
                    k as int,
                    (oldtree.elements@[elem as int].property_declarations@[k as int].0,
                    PropertyDeclaration {
                        property_type: ty,
                        ..oldtree.elements@[elem as int].property_declarations@[k as int].1
                    }),
                ));
            }
            tree.put_element(elem, e);
            proof {
                assert forall|i2: int|
                    0 <= i2 < tree.elements@.len() implies crate::object_tree::elem_wf(
                    *tree,
                    i2,
                ) by {
                    assert(crate::object_tree::elem_wf(oldtree, i2));
                    if i2 != elem as int {
                        assert(tree.elements@[i2] == oldtree.elements@[i2]);
                    } else {
                        assert(tree.elements@[i2].children@ == oldtree.elements@[
                            i2
                        ].children@);
                        assert(tree.elements@[i2].base_type == oldtree.elements@[
                            i2
                        ].base_type);
                        assert(tree.elements@[i2].enclosing_component == oldtree.elements@[
                            i2
                        ].enclosing_component);
                    }
                }
            }
        }
        Option::None => {}
    }
}

} // verus!
