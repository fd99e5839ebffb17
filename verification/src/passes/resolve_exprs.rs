use vstd::prelude::*;
use crate::builder::diags_extended;
use crate::diagnostics::BuildDiagnostics;
use crate::expression::{spec_ty, BindingExpression, Expression};
use crate::langtype::TypeV;
use crate::object_tree::tree_wf;
use crate::syntax::{ExprNode, SyntaxNode};
use crate::units::{spec_normalize, MAX_UNIT_VALUE};

verus! {

broadcast use vstd::seq::group_seq_axioms;

/// What compiling a written expression yields: literals are normalized into
/// their unit's base representation, binary nodes compile their operands in
/// place, an oversized number or a stray two-way binding yields the invalid
/// expression.
pub open spec fn expr_node_resolved(n: ExprNode, e: Expression) -> bool
    decreases n,
{
    match n {
        ExprNode::Number(v, u, _) => {
            if -MAX_UNIT_VALUE <= v <= MAX_UNIT_VALUE {
                e == Expression::NumberLiteral(spec_normalize(u, v as int) as i128, u)
            } else {
                e is Invalid
            }
        }
        ExprNode::Str(st, _) => e matches Expression::StringLiteral(s2) && s2@ == st@,
        ExprNode::Bool(b, _) => e == Expression::BoolLiteral(b),
        ExprNode::Binary { op, lhs, rhs, .. } => e matches Expression::BinaryExpression {
            lhs: l2,
            rhs: r2,
            op: op2,
        } && op2 == op && expr_node_resolved(*lhs, *l2) && expr_node_resolved(*rhs, *r2),
        ExprNode::TwoWay(_) => e is Invalid,
    }
}

/// What compiling one stored binding yields: a plain uncompiled expression
/// is compiled, everything else is kept; span, priority and analysis stay.
pub open spec fn binding_resolved(before: BindingExpression, after: BindingExpression) -> bool {
    &&& after.span == before.span
    &&& after.priority == before.priority
    &&& after.analysis == before.analysis
    &&& (match before.expression {
        Expression::Uncompiled(SyntaxNode::BindingExpression(en)) => expr_node_resolved(
            *en,
            after.expression,
        ),
        _ => after.expression == before.expression,
    })
}

/// Compile a written expression into the expression algebra: literals are
/// normalized into their unit's base representation, and the operands of an
/// additive operation must have the same type, else the error is reported at
/// the operator and the expression keeps its invalid type.
pub fn resolve_expression(
    node: &ExprNode,
    tree: &crate::object_tree::ObjectTree,
    diag: &mut BuildDiagnostics,
) -> (r: Expression)
    requires
        tree_wf(*tree),
    ensures
        diags_extended(*old(diag), *final(diag)),
        expr_node_resolved(*node, r),
        // An additive operation whose operands' types do not agree is
        // reported at the operator's span.
        (*node matches ExprNode::Binary { op, op_span, .. } ==> ((op == '+' || op == '-')
            && spec_ty(r, *tree, tree.elements@.len() as nat) == TypeV::Invalid
            ==> final(diag).diags@.len() > old(diag).diags@.len()
            && final(diag).diags@.last().level == crate::diagnostics::DiagnosticLevel::Error
            && final(diag).diags@.last().span == op_span
            && final(diag).diags@.last().message@
            == "The operands have incompatible units"@)),
    decreases *node,
{
    match node {
        ExprNode::Number(v, u, span) => {
            if -crate::units::MAX_UNIT_VALUE <= *v && *v <= crate::units::MAX_UNIT_VALUE {
                Expression::NumberLiteral(u.normalize(*v), *u)
            } else {
                diag.push_error(String::from_str("This number is too large"), *span);
                Expression::Invalid
            }
        }
        ExprNode::Str(s, _) => Expression::StringLiteral(s.clone()),
        ExprNode::Bool(b, _) => Expression::BoolLiteral(*b),
        ExprNode::Binary { op, lhs, rhs, op_span } => {
            let l = resolve_expression(lhs, tree, diag);
            let rr = resolve_expression(rhs, tree, diag);
            let result = Expression::BinaryExpression {
                lhs: Box::new(l),
                rhs: Box::new(rr),
                op: *op,
            };
            // An additive operation needs identical operand types; report a
            // mismatch at the operator's span.
            let is_additive = *op == '+' || *op == '-';
            if is_additive {
                let t = result.ty(tree);
                let t_invalid = matches!(t, crate::langtype::Type::Invalid);
                proof {
                    crate::langtype::lemma_view_tag(t);
                }
                if t_invalid {
                    diag.push_error(
                        String::from_str("The operands have incompatible units"),
                        *op_span,
                    );
                    proof {
                        reveal_strlit("The operands have incompatible units");
                    }
                }
            }
            result
        }
        // A two-way binding is not a value expression here; the alias pass
        // owns it.
        ExprNode::TwoWay(_) => Expression::Invalid,
    }
}

/// Compile every still-uncompiled plain binding expression of every element;
/// two-way bindings are left for alias resolution. Afterwards no binding
/// anywhere holds a plain uncompiled expression, and each compiled binding
/// relates to the stored node by the compilation relation.
pub fn resolve_binding_expressions(
    tree: &mut crate::object_tree::ObjectTree,
    diag: &mut BuildDiagnostics,
)
    requires
        tree_wf(*old(tree)),
    ensures
        tree_wf(*final(tree)),
        diags_extended(*old(diag), *final(diag)),
        final(tree).elements@.len() == old(tree).elements@.len(),
        final(tree).components@ == old(tree).components@,
        final(tree).builtins@ == old(tree).builtins@,
        final(tree).natives@ == old(tree).natives@,
        forall|el: int|
            0 <= el < old(tree).elements@.len() ==> #[trigger] final(tree).elements@[el]
                == (crate::object_tree::Element {
                bindings: final(tree).elements@[el].bindings,
                ..old(tree).elements@[el]
            }),
        forall|el: int|
            0 <= el < old(tree).elements@.len()
                ==> (#[trigger] final(tree).elements@[el]).bindings@.len()
                == old(tree).elements@[el].bindings@.len(),
        forall|el: int, j: int|
            0 <= el < old(tree).elements@.len()
                && 0 <= j < old(tree).elements@[el].bindings@.len()
                ==> (#[trigger] final(tree).elements@[el].bindings@[j]).0
                == old(tree).elements@[el].bindings@[j].0 && binding_resolved(
                old(tree).elements@[el].bindings@[j].1,
                final(tree).elements@[el].bindings@[j].1,
            ),
{
    let n = tree.elements.len();
    let mut e_i: usize = 0;
    while e_i < n
        invariant
            tree_wf(*tree),
            diags_extended(*old(diag), *diag),
            0 <= e_i <= n,
            n == tree.elements@.len(),
            n == old(tree).elements@.len(),
            tree.components@ == old(tree).components@,
            tree.builtins@ == old(tree).builtins@,
            tree.natives@ == old(tree).natives@,
            forall|el: int|
                0 <= el < n ==> #[trigger] tree.elements@[el] == (crate::object_tree::Element {
                    bindings: tree.elements@[el].bindings,
                    ..old(tree).elements@[el]
                }),
            forall|el: int|
                e_i <= el < n ==> (#[trigger] tree.elements@[el]).bindings
                    == old(tree).elements@[el].bindings,
            forall|el: int|
                0 <= el < e_i ==> (#[trigger] tree.elements@[el]).bindings@.len()
                    == old(tree).elements@[el].bindings@.len(),
            forall|el: int, j: int|
                0 <= el < e_i && 0 <= j < old(tree).elements@[el].bindings@.len()
                    ==> (#[trigger] tree.elements@[el].bindings@[j]).0
                    == old(tree).elements@[el].bindings@[j].0 && binding_resolved(
                    old(tree).elements@[el].bindings@[j].1,
                    tree.elements@[el].bindings@[j].1,
                ),
        decreases n - e_i,
    {
        resolve_bindings_of_element(tree, e_i, diag);
        e_i = e_i + 1;
    }
}

/// Compile the uncompiled plain bindings of one element.
fn resolve_bindings_of_element(
    tree: &mut crate::object_tree::ObjectTree,
    elem: usize,
    diag: &mut BuildDiagnostics,
)
    requires
        tree_wf(*old(tree)),
        elem < old(tree).elements@.len(),
    ensures
        tree_wf(*final(tree)),
        diags_extended(*old(diag), *final(diag)),
        final(tree).elements@.len() == old(tree).elements@.len(),
        final(tree).components@ == old(tree).components@,
        final(tree).builtins@ == old(tree).builtins@,
        final(tree).natives@ == old(tree).natives@,
        forall|i: int|
            0 <= i < old(tree).elements@.len() && i != elem
                ==> final(tree).elements@[i] == old(tree).elements@[i],
        final(tree).elements@[elem as int] == (crate::object_tree::Element {
            bindings: final(tree).elements@[elem as int].bindings,
            ..old(tree).elements@[elem as int]
        }),
        final(tree).elements@[elem as int].bindings@.len()
            == old(tree).elements@[elem as int].bindings@.len(),
        forall|j: int|
            0 <= j < old(tree).elements@[elem as int].bindings@.len()
                ==> (#[trigger] final(tree).elements@[elem as int].bindings@[j]).0
                == old(tree).elements@[elem as int].bindings@[j].0 && binding_resolved(
                old(tree).elements@[elem as int].bindings@[j].1,
                final(tree).elements@[elem as int].bindings@[j].1,
            ),
{
    let ghost oldtree = *tree;
    // Move the bindings out, compile them, and move them back, so the walk
    // does not hold a borrow of the store it rewrites.
    let mut e = tree.take_element(elem);
    let mut bindings = e.bindings;
    e.bindings = Vec::new();
    tree.put_element(elem, e);
    proof {
        assert forall|i2: int| 0 <= i2 < tree.elements@.len()
            implies crate::object_tree::elem_wf(*tree, i2) by {
            assert(crate::object_tree::elem_wf(oldtree, i2));
            if i2 != elem as int {
                assert(tree.elements@[i2] == oldtree.elements@[i2]);
            } else {
                assert(tree.elements@[i2].children@ == oldtree.elements@[i2].children@);
                assert(tree.elements@[i2].base_type == oldtree.elements@[i2].base_type);
                assert(tree.elements@[i2].enclosing_component == oldtree.elements@[
                    i2
                ].enclosing_component);
            }
        }
    }
    let ghost old_bindings = oldtree.elements@[elem as int].bindings@;
    let nb = bindings.len();
    let mut b_i: usize = 0;
    while b_i < nb
        invariant
            tree_wf(*tree),
            diags_extended(*old(diag), *diag),
            0 <= b_i <= nb,
            nb == bindings@.len(),
            nb == old_bindings.len(),
            tree.elements@.len() == oldtree.elements@.len(),
            tree.components@ == oldtree.components@,
            tree.builtins@ == oldtree.builtins@,
            tree.natives@ == oldtree.natives@,
            elem < tree.elements@.len(),
            forall|i: int|
                0 <= i < oldtree.elements@.len() && i != elem ==> tree.elements@[i]
                    == oldtree.elements@[i],
            forall|j: int| b_i <= j < nb ==> #[trigger] bindings@[j] == old_bindings[j],
            forall|j: int|
                0 <= j < b_i ==> (#[trigger] bindings@[j]).0 == old_bindings[j].0
                    && binding_resolved(old_bindings[j].1, bindings@[j].1),
        decreases nb - b_i,
    {
        let mut tmp = (
            String::new(),
            crate::expression::BindingExpression::from_expression(Expression::Invalid),
        );
        bindings.set_and_swap(b_i, &mut tmp);
        let (name, old_binding) = tmp;
        let new_expr = match old_binding.expression {
            Expression::Uncompiled(crate::syntax::SyntaxNode::BindingExpression(en)) => {
                resolve_expression(&en, tree, diag)
            }
            other => other,
        };
        let new_binding = crate::expression::BindingExpression {
            expression: new_expr,
            span: old_binding.span,
            priority: old_binding.priority,
            analysis: old_binding.analysis,
        };
        bindings.set(b_i, (name, new_binding));
        b_i = b_i + 1;
    }
    let mut e = tree.take_element(elem);
    e.bindings = bindings;
    tree.put_element(elem, e);
    proof {
        assert forall|i2: int| 0 <= i2 < tree.elements@.len()
            implies crate::object_tree::elem_wf(*tree, i2) by {
            assert(crate::object_tree::elem_wf(oldtree, i2));
            if i2 != elem as int {
                assert(tree.elements@[i2] == oldtree.elements@[i2]);
            } else {
                assert(tree.elements@[i2].children@ == oldtree.elements@[i2].children@);
                assert(tree.elements@[i2].base_type == oldtree.elements@[i2].base_type);
                assert(tree.elements@[i2].enclosing_component == oldtree.elements@[
                    i2
                ].enclosing_component);
            }
        }
    }
}

} // verus!
