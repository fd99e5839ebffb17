use vstd::prelude::*;
use crate::namedreference::nr_view;
use crate::object_tree::{
    spec_deep_refs, spec_is_global_component, tree_wf, ObjectTree,
};
use crate::units::{lemma_str_lt_asymmetric, spec_str_lt, str_lt};

verus! {

broadcast use vstd::seq::group_seq_axioms;

/// Whether a component index belongs in the used-globals table of a
/// component: it is a global component and encloses the element of some
/// named reference reachable from the root component or from any of its
/// repeated or popup sub-components, to the depth the component count
/// allows.
pub open spec fn spec_used_global(tree: ObjectTree, c: int, g: usize) -> bool {
    &&& g < tree.components@.len()
    &&& spec_is_global_component(tree, g as int)
    &&& exists|ri: int|
        0 <= ri < spec_deep_refs(tree, c, tree.components@.len() as nat).len() && {
            let el = (#[trigger] spec_deep_refs(tree, c, tree.components@.len() as nat)[ri]).0;
            0 <= el < tree.elements@.len() && tree.elements@[el].enclosing_component == Some(g)
        }
}

/// Fill a root component's used-globals table: the deduplicated set of
/// global components that enclose a named reference reachable from the
/// component or its repeated and popup sub-components, sorted by component
/// name for a stable order.
pub fn collect_globals(tree: &mut ObjectTree, root_component: usize)
    requires
        tree_wf(*old(tree)),
        root_component < old(tree).components@.len(),
    ensures
        tree_wf(*final(tree)),
        final(tree).elements@ == old(tree).elements@,
        final(tree).builtins@ == old(tree).builtins@,
        final(tree).natives@ == old(tree).natives@,
        final(tree).components@.len() == old(tree).components@.len(),
        forall|i: int|
            0 <= i < old(tree).components@.len() && i != root_component
                ==> final(tree).components@[i] == old(tree).components@[i],
        final(tree).components@[root_component as int] == (crate::object_tree::Component {
            used_types: crate::object_tree::UsedSubTypes {
                globals: final(tree).components@[root_component as int].used_types.globals,
                ..old(tree).components@[root_component as int].used_types
            },
            ..old(tree).components@[root_component as int]
        }),
        ({
            let globals = final(tree).components@[root_component as int].used_types.globals@;
            &&& (forall|k: int|
                0 <= k < globals.len() ==> spec_used_global(
                    *old(tree),
                    root_component as int,
                    #[trigger] globals[k],
                ))
            &&& (forall|g: usize|
                spec_used_global(*old(tree), root_component as int, g) ==> globals.contains(g))
            &&& (forall|i: int, j: int| 0 <= i < j < globals.len() ==> globals[i] != globals[j])
            &&& (forall|i: int, j: int|
                0 <= i < j < globals.len() ==> !spec_str_lt(
                    old(tree).components@[globals[j] as int].id@,
                    old(tree).components@[globals[i] as int].id@,
                ))
        }),
{
    broadcast use crate::namedreference::group_refs_view_lemmas;

    let mut refs: Vec<crate::namedreference::NamedReference> = Vec::new();
    let fuel = tree.components.len();
    tree.collect_named_references_deep(root_component, fuel, &mut refs);
    let ghost model = spec_deep_refs(*tree, root_component as int, tree.components@.len() as nat);
    let mut globals: Vec<usize> = Vec::new();
    let mut i: usize = 0;
    while i < refs.len()
        invariant
            tree_wf(*tree),
            root_component < tree.components@.len(),
            crate::namedreference::refs_view(refs@) == model,
            model == spec_deep_refs(*tree, root_component as int, tree.components@.len() as nat),
            0 <= i <= refs@.len(),
            forall|k: int|
                0 <= k < globals@.len() ==> spec_used_global(
                    *tree,
                    root_component as int,
                    #[trigger] globals@[k],
                ),
            forall|ri: int|
                0 <= ri < i && {
                    let el = model[ri].0;
                    0 <= el < tree.elements@.len() && tree.elements@[el].enclosing_component
                        is Some && spec_is_global_component(
                        *tree,
                        tree.elements@[el].enclosing_component->Some_0 as int,
                    )
                } ==> globals@.contains(
                    tree.elements@[#[trigger] model[ri].0].enclosing_component->Some_0,
                ),
            forall|i2: int, j2: int|
                0 <= i2 < j2 < globals@.len() ==> globals@[i2] != globals@[j2],
            forall|i2: int, j2: int|
                0 <= i2 < j2 < globals@.len() ==> !spec_str_lt(
                    tree.components@[globals@[j2] as int].id@,
                    tree.components@[globals@[i2] as int].id@,
                ),
        decreases refs@.len() - i,
    {
        proof {
            assert(crate::namedreference::refs_view(refs@)[i as int] == nr_view(
                refs@[i as int],
            ));
        }
        let nr_elem = refs[i].element();
        if nr_elem < tree.elements.len() {
            match tree.elements[nr_elem].enclosing_component {
                Some(g) => {
                    proof {
                        assert(crate::object_tree::elem_wf(*tree, nr_elem as int));
                    }
                    if tree.is_global_component(g) {
                        if !contains_usize(&globals, g) {
                            proof {
                                assert(model[i as int].0 == nr_elem as int);
                                assert(spec_used_global(*tree, root_component as int, g));
                            }
                            let ghost oldg = globals@;
                            insert_sorted_by_component_id(tree, &mut globals, g);
                            proof {
                                assert forall|k: int|
                                    0 <= k < globals@.len() implies spec_used_global(
                                    *tree,
                                    root_component as int,
                                    #[trigger] globals@[k],
                                ) by {
                                    assert(globals@.contains(globals@[k]));
                                    if globals@[k] != g {
                                        assert(oldg.contains(globals@[k]));
                                        let m = choose|m: int|
                                            0 <= m < oldg.len() && oldg[m] == globals@[k];
                                        assert(spec_used_global(
                                            *tree,
                                            root_component as int,
                                            oldg[m],
                                        ));
                                    }
                                }
                                assert forall|ri: int|
                                    0 <= ri < i + 1 && {
                                        let el = model[ri].0;
                                        0 <= el < tree.elements@.len() && tree.elements@[
                                            el
                                        ].enclosing_component is Some
                                            && spec_is_global_component(
                                            *tree,
                                            tree.elements@[
                                                el
                                            ].enclosing_component->Some_0 as int,
                                        )
                                    } implies globals@.contains(
                                    tree.elements@[
                                        #[trigger] model[ri].0
                                    ].enclosing_component->Some_0,
                                ) by {
                                    if ri < i as int {
                                        assert(oldg.contains(
                                            tree.elements@[
                                                model[ri].0
                                            ].enclosing_component->Some_0,
                                        ));
                                    }
                                }
                            }
                        }
                    }
                }
                Option::None => {}
            }
        }
        i = i + 1;
    }
    let ghost oldtree = *tree;
    let mut comp = tree.take_component(root_component);
    comp.used_types.globals = globals;
    tree.put_component(root_component, comp);
    proof {
        assert forall|i2: int| 0 <= i2 < tree.elements@.len()
            implies crate::object_tree::elem_wf(*tree, i2) by {
            assert(crate::object_tree::elem_wf(oldtree, i2));
            assert(tree.elements@[i2] == oldtree.elements@[i2]);
        }
        assert(tree.components@[root_component as int] == (crate::object_tree::Component {
            used_types: crate::object_tree::UsedSubTypes {
                globals: tree.components@[root_component as int].used_types.globals,
                ..oldtree.components@[root_component as int].used_types
            },
            ..oldtree.components@[root_component as int]
        }));
        assert forall|g: usize|
            spec_used_global(oldtree, root_component as int, g) implies tree.components@[
            root_component as int
        ].used_types.globals@.contains(g) by {
            let ri = choose|ri: int|
                0 <= ri < spec_deep_refs(
                    oldtree,
                    root_component as int,
                    oldtree.components@.len() as nat,
                ).len() && {
                    let el = (#[trigger] spec_deep_refs(
                        oldtree,
                        root_component as int,
                        oldtree.components@.len() as nat,
                    )[ri]).0;
                    0 <= el < oldtree.elements@.len() && oldtree.elements@[
                        el
                    ].enclosing_component == Some(g)
                };
            assert(0 <= ri < model.len());
        }
    }
}

/// Whether a vector holds a value.
fn contains_usize(v: &Vec<usize>, x: usize) -> (r: bool)
    ensures
        r == v@.contains(x),
{
    let mut i: usize = 0;
    while i < v.len()
        invariant
            0 <= i <= v@.len(),
            forall|j: int| 0 <= j < i ==> (#[trigger] v@[j]) != x,
        decreases v@.len() - i,
    {
        if v[i] == x {
            proof {
                assert(v@.contains(x));
            }
            return true;
        }
        i = i + 1;
    }
    proof {
        if v@.contains(x) {
            let j = choose|j: int| 0 <= j < v@.len() && v@[j] == x;
            assert(v@[j] != x);
        }
    }
    false
}

/// The sorted position for a component name: everything before is strictly
/// below it, the element at the position (if any) is not.
fn find_pos_by_id(tree: &ObjectTree, v: &Vec<usize>, g: usize) -> (pos: usize)
    requires
        g < tree.components@.len(),
        forall|k: int| 0 <= k < v@.len() ==> (#[trigger] v@[k]) < tree.components@.len(),
    ensures
        0 <= pos <= v@.len(),
        forall|k: int|
            0 <= k < pos ==> spec_str_lt(
                tree.components@[(#[trigger] v@[k]) as int].id@,
                tree.components@[g as int].id@,
            ),
        pos < v@.len() ==> !spec_str_lt(
            tree.components@[v@[pos as int] as int].id@,
            tree.components@[g as int].id@,
        ),
{
    let mut pos: usize = 0;
    while pos < v.len()
        invariant
            0 <= pos <= v@.len(),
            g < tree.components@.len(),
            forall|k: int| 0 <= k < v@.len() ==> (#[trigger] v@[k]) < tree.components@.len(),
            forall|k: int|
                0 <= k < pos ==> spec_str_lt(
                    tree.components@[(#[trigger] v@[k]) as int].id@,
                    tree.components@[g as int].id@,
                ),
        decreases v@.len() - pos,
    {
        let other = v[pos];
        if !str_lt(tree.components[other].id.as_str(), tree.components[g].id.as_str()) {
            return pos;
        }
        pos = pos + 1;
    }
    pos
}

/// Insert a component index into a list kept sorted by component name; the
/// list keeps its elements and gains the new one.
fn insert_sorted_by_component_id(tree: &ObjectTree, v: &mut Vec<usize>, g: usize)
    requires
        tree_wf(*tree),
        g < tree.components@.len(),
        !old(v)@.contains(g),
        forall|k: int|
            0 <= k < old(v)@.len() ==> (#[trigger] old(v)@[k]) < tree.components@.len(),
        forall|i: int, j: int|
            0 <= i < j < old(v)@.len() ==> old(v)@[i] != old(v)@[j],
        forall|i: int, j: int|
            0 <= i < j < old(v)@.len() ==> !spec_str_lt(
                tree.components@[old(v)@[j] as int].id@,
                tree.components@[old(v)@[i] as int].id@,
            ),
    ensures
        final(v)@.len() == old(v)@.len() + 1,
        forall|x: usize| final(v)@.contains(x) <==> old(v)@.contains(x) || x == g,
        forall|k: int|
            0 <= k < final(v)@.len() ==> (#[trigger] final(v)@[k]) < tree.components@.len(),
        forall|i: int, j: int|
            0 <= i < j < final(v)@.len() ==> final(v)@[i] != final(v)@[j],
        forall|i: int, j: int|
            0 <= i < j < final(v)@.len() ==> !spec_str_lt(
                tree.components@[final(v)@[j] as int].id@,
                tree.components@[final(v)@[i] as int].id@,
            ),
{
    let pos = find_pos_by_id(tree, v, g);
    let ghost oldv = v@;
    v.insert(pos, g);
    proof {
        assert(v@ == oldv.insert(pos as int, g));
        assert forall|x: usize| v@.contains(x) <==> oldv.contains(x) || x == g by {
            if v@.contains(x) {
                let k = choose|k: int| 0 <= k < v@.len() && v@[k] == x;
                if k < pos as int {
                    assert(oldv[k] == x);
                    assert(oldv.contains(x));
                } else if k == pos as int {
                } else {
                    assert(oldv[k - 1] == x);
                    assert(oldv.contains(x));
                }
            }
            if oldv.contains(x) {
                let k = choose|k: int| 0 <= k < oldv.len() && oldv[k] == x;
                if k < pos as int {
                    assert(v@[k] == x);
                } else {
                    assert(v@[k + 1] == x);
                }
                assert(v@.contains(x));
            }
            if x == g {
                assert(v@[pos as int] == x);
                assert(v@.contains(x));
            }
        }
        assert forall|i: int, j: int| 0 <= i < j < v@.len() implies v@[i] != v@[j] by {
            let oi = if i < pos as int {
                i
            } else {
                i - 1
            };
            let oj = if j < pos as int {
                j
            } else {
                j - 1
            };
            if i == pos as int {
                assert(v@[j] == oldv[oj]);
                assert(oldv.contains(oldv[oj]));
            } else if j == pos as int {
                assert(v@[i] == oldv[oi]);
                assert(oldv.contains(oldv[oi]));
            } else {
                assert(v@[i] == oldv[oi] && v@[j] == oldv[oj]);
            }
        }
        assert forall|i: int, j: int| 0 <= i < j < v@.len() implies !spec_str_lt(
            tree.components@[v@[j] as int].id@,
            tree.components@[v@[i] as int].id@,
        ) by {
            let oi = if i < pos as int {
                i
            } else {
                i - 1
            };
            let oj = if j < pos as int {
                j
            } else {
                j - 1
            };
            if i == pos as int {
                assert(v@[i] == g);
                assert(v@[j] == oldv[oj]);
                assert(oj >= pos as int);
                if oj == pos as int {
                    assert(!spec_str_lt(
                        tree.components@[oldv[pos as int] as int].id@,
                        tree.components@[g as int].id@,
                    ));
                } else {
                    assert(!spec_str_lt(
                        tree.components@[oldv[pos as int] as int].id@,
                        tree.components@[g as int].id@,
                    ));
                    assert(!spec_str_lt(
                        tree.components@[oldv[oj] as int].id@,
                        tree.components@[oldv[pos as int] as int].id@,
                    ));
                    lemma_str_lt_total(
                        tree.components@[oldv[oj] as int].id@,
                        tree.components@[oldv[pos as int] as int].id@,
                        tree.components@[g as int].id@,
                    );
                }
            } else if j == pos as int {
                assert(v@[i] == oldv[oi]);
                assert(v@[j] == g);
                assert(oi < pos as int);
                assert(spec_str_lt(
                    tree.components@[oldv[oi] as int].id@,
                    tree.components@[g as int].id@,
                ));
                lemma_str_lt_asymmetric(
                    tree.components@[oldv[oi] as int].id@,
                    tree.components@[g as int].id@,
                );
            } else {
                assert(v@[i] == oldv[oi] && v@[j] == oldv[oj]);
            }
        }
    }
}

/// When `a` is not below `b` and `b` is not below `c`, `a` is not below `c`:
/// the complement of the strict order is transitive.
proof fn lemma_str_lt_total(a: Seq<char>, b: Seq<char>, c: Seq<char>)
    requires
        !spec_str_lt(a, b),
        !spec_str_lt(b, c),
    ensures
        !spec_str_lt(a, c),
    decreases a,
{
    if c.len() == 0 {
    } else if a.len() == 0 {
        if b.len() == 0 {
        } else {
        }
    } else if b.len() == 0 {
    } else {
        if a[0] == b[0] && b[0] == c[0] {
            lemma_str_lt_total(a.skip(1), b.skip(1), c.skip(1));
        }
    }
}

} // verus!
