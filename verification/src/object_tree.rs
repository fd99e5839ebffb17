use vstd::prelude::*;
use vstd::pervasive::VecAdditionalExecFns;
use crate::diagnostics::Span;
use crate::expression::{BindingExpression, Expression};
use crate::langtype::{clone_type, type_view, Type, TypeV};
use crate::namedreference::NamedReference;
use crate::units::str_eq;

verus! {

broadcast use vstd::seq::group_seq_axioms;

/// A locally declared property: its type, where it was declared, and whether
/// it is exposed or forwards to an alias.
pub struct PropertyDeclaration {
    pub property_type: Type,
    pub node_span: Option<Span>,
    pub expose_in_public_api: bool,
    pub is_alias: Option<NamedReference>,
}

impl PropertyDeclaration {
    /// A declaration of the given type with no source node.
    pub fn from_type(ty: Type) -> (r: PropertyDeclaration)
        ensures
            r.property_type == ty,
            r.node_span is None,
            !r.expose_in_public_api,
            r.is_alias is None,
    {
        PropertyDeclaration {
            property_type: ty,
            node_span: Option::None,
            expose_in_public_api: false,
            is_alias: Option::None,
        }
    }

    /// The span diagnostics should point at: the declaration site.
    pub fn type_node(&self) -> (r: Option<Span>)
        ensures
            r == self.node_span,
    {
        self.node_span
    }
}

/// What the analysis passes record per property.
#[derive(Clone, Copy, PartialEq, Eq, Structural)]
pub struct PropertyAnalysis {
    /// True when some expression assigns to this property.
    pub is_set: bool,
    /// True when some expression reads this property.
    pub is_read: bool,
}

impl Default for PropertyAnalysis {
    fn default() -> (r: Self)
        ensures
            !r.is_set,
            !r.is_read,
    {
        PropertyAnalysis { is_set: false, is_read: false }
    }
}

impl PropertyAnalysis {
    /// Merge the analysis of a base element into this one, as inlining does:
    /// a property set anywhere counts as set.
    pub fn merge(&mut self, other: &PropertyAnalysis)
        ensures
            final(self).is_set == (old(self).is_set || other.is_set),
            final(self).is_read == old(self).is_read,
    {
        self.is_set = self.is_set || other.is_set;
    }
}

/// One property animation attached to a transition.
pub struct TransitionPropertyAnimation {
    /// The state index as the state-lowering pass numbers them.
    pub state_id: i32,
    /// False for entering the state, true for leaving it.
    pub is_out: bool,
    /// The element index holding the animation's bindings.
    pub animation: usize,
}

/// How a property is animated.
pub enum PropertyAnimation {
    Static(usize),
    Transition { state_ref: Expression, animations: Vec<TransitionPropertyAnimation> },
}

/// The references a list view's repeater needs.
pub struct ListViewInfo {
    pub viewport_y: NamedReference,
    pub viewport_height: NamedReference,
    pub viewport_width: NamedReference,
    pub listview_height: NamedReference,
    pub listview_width: NamedReference,
}

/// The model description of a repeated or conditional element.
pub struct RepeatedElementInfo {
    pub model: Expression,
    pub model_data_id: String,
    pub index_id: String,
    /// A conditional element is a repeater whose model is a boolean.
    pub is_conditional_element: bool,
    pub is_listview: Option<ListViewInfo>,
}

/// One state: its name, optional condition, and the property values it sets.
pub struct State {
    pub id: String,
    pub condition: Option<Expression>,
    pub property_changes: Vec<(NamedReference, Expression)>,
}

/// One transition: direction, target state, and the per-property animations.
pub struct Transition {
    /// False for `in`, true for `out`.
    pub is_out: bool,
    pub state_id: String,
    pub property_animations: Vec<(NamedReference, Span, usize)>,
    pub node_span: Span,
}

/// One node of the object tree. Elements own their children and all their
/// bindings; the enclosing component and all cross-links are indices into
/// the tree's stores.
pub struct Element {
    /// The identifier named in the source, unique only before inlining.
    pub id: String,
    pub base_type: Type,
    /// Bindings, callbacks included, keyed by resolved property name; the
    /// key order is insertion order and keys are unique.
    pub bindings: Vec<(String, BindingExpression)>,
    pub property_analysis: Vec<(String, PropertyAnalysis)>,
    /// Indices of the child elements; every child index is smaller than this
    /// element's own index, which makes the parent-child graph acyclic.
    pub children: Vec<usize>,
    /// The component this element belongs to.
    pub enclosing_component: Option<usize>,
    pub property_declarations: Vec<(String, PropertyDeclaration)>,
    pub property_animations: Vec<(String, PropertyAnimation)>,
    /// Set when the element is the template of a `for` or `if`.
    pub repeated: Option<RepeatedElementInfo>,
    pub states: Vec<State>,
    pub transitions: Vec<Transition>,
    /// True when a layout positions this element.
    pub child_of_layout: bool,
    /// The horizontal and vertical layout-info properties, once lowered.
    pub layout_info_prop: Option<(NamedReference, NamedReference)>,
    pub is_flickable_viewport: bool,
    /// The component-local index in the item tree, assigned after the last
    /// pass.
    pub item_index: Option<usize>,
    pub node_span: Option<Span>,
}

impl Element {
    /// An empty element with the given id and base type.
    pub fn new(id: String, base_type: Type, node_span: Option<Span>) -> (r: Element)
        ensures
            r.id@ == id@,
            r.base_type == base_type,
            r.bindings@.len() == 0,
            r.children@.len() == 0,
            r.property_declarations@.len() == 0,
            r.property_animations@.len() == 0,
            r.property_analysis@.len() == 0,
            r.states@.len() == 0,
            r.transitions@.len() == 0,
            r.repeated is None,
            r.enclosing_component is None,
            r.node_span == node_span,
            r.layout_info_prop is None,
            r.item_index is None,
            !r.child_of_layout,
            !r.is_flickable_viewport,
    {
        Element {
            id,
            base_type,
            bindings: Vec::new(),
            property_analysis: Vec::new(),
            children: Vec::new(),
            enclosing_component: Option::None,
            property_declarations: Vec::new(),
            property_animations: Vec::new(),
            repeated: Option::None,
            states: Vec::new(),
            transitions: Vec::new(),
            child_of_layout: false,
            layout_info_prop: Option::None,
            is_flickable_viewport: false,
            item_index: Option::None,
            node_span,
        }
    }
}

/// A popup window: its own component and the properties giving its position.
pub struct PopupWindow {
    pub component: usize,
    pub x: NamedReference,
    pub y: NamedReference,
}

/// The references constraining the root item's extent.
pub struct LayoutConstraints {
    pub min_width: Option<NamedReference>,
    pub max_width: Option<NamedReference>,
    pub min_height: Option<NamedReference>,
    pub max_height: Option<NamedReference>,
}

/// The deduplicated collections of types a root component uses.
pub struct UsedSubTypes {
    pub globals: Vec<usize>,
    pub structs: Vec<Type>,
    pub sub_components: Vec<usize>,
}

/// A component: a named instantiable type owning one root element.
pub struct Component {
    pub id: String,
    pub root_element: usize,
    /// The repeated element this component materializes, if any.
    pub parent_element: Option<usize>,
    /// Elements detached from the root whose properties are still referenced.
    pub optimized_elements: Vec<usize>,
    /// Resources to embed, keyed by absolute path, valued by a unique index.
    pub embedded_file_resources: Vec<(String, usize)>,
    pub root_constraints: LayoutConstraints,
    /// Where externally supplied children are spliced in: the element and
    /// the placeholder's span.
    pub child_insertion_point: Option<(usize, Span)>,
    pub setup_code: Vec<Expression>,
    /// Filled once by the type-collection pass over the whole tree.
    pub used_types: UsedSubTypes,
    pub popup_windows: Vec<PopupWindow>,
}

impl Component {
    /// An empty component around a root element.
    pub fn new(id: String, root_element: usize) -> (r: Component)
        ensures
            r.id@ == id@,
            r.root_element == root_element,
            r.parent_element is None,
            r.popup_windows@.len() == 0,
            r.optimized_elements@.len() == 0,
            r.used_types.globals@.len() == 0,
            r.child_insertion_point is None,
    {
        Component {
            id,
            root_element,
            parent_element: Option::None,
            optimized_elements: Vec::new(),
            embedded_file_resources: Vec::new(),
            root_constraints: LayoutConstraints {
                min_width: Option::None,
                max_width: Option::None,
                min_height: Option::None,
                max_height: Option::None,
            },
            child_insertion_point: Option::None,
            setup_code: Vec::new(),
            used_types: UsedSubTypes {
                globals: Vec::new(),
                structs: Vec::new(),
                sub_components: Vec::new(),
            },
            popup_windows: Vec::new(),
        }
    }
}

/// A property of a builtin element: its type and the default binding new
/// elements of that base start with.
pub struct BuiltinPropertyInfo {
    pub ty: Type,
    pub default_value: Option<Expression>,
}

/// One element class built into the run-time.
pub struct BuiltinElement {
    pub name: String,
    pub native_class: usize,
    pub properties: Vec<(String, BuiltinPropertyInfo)>,
    /// Deprecated property spellings and the canonical name each resolves
    /// to.
    pub deprecated_aliases: Vec<(String, String)>,
    pub is_global: bool,
}

/// The arena that owns every element, component and builtin class. All
/// cross-references are indices into these stores, so backward references
/// cannot keep anything alive and a dangling index fails lookups explicitly.
pub struct ObjectTree {
    pub elements: Vec<Element>,
    pub components: Vec<Component>,
    pub builtins: Vec<BuiltinElement>,
    pub natives: Vec<String>,
}

/// One element's index constraints: children strictly below the element, and
/// every cross-index within bounds. Children having smaller indices than
/// their parent makes every downward walk terminate.
pub open spec fn elem_wf(tree: ObjectTree, i: int) -> bool {
    let e = tree.elements@[i];
    (forall|j: int| 0 <= j < e.children@.len() ==> (#[trigger] e.children@[j]) < i) && (match e
        .base_type {
        Type::Component(c) => c < tree.components@.len(),
        Type::Builtin(b) => b < tree.builtins@.len(),
        _ => true,
    }) && (match e.enclosing_component {
        Some(c) => c < tree.components@.len(),
        Option::None => true,
    })
}

/// Well-formedness of the whole tree: every element satisfies its index
/// constraints and every component's root is a valid element.
pub open spec fn tree_wf(tree: ObjectTree) -> bool {
    (forall|i: int| 0 <= i < tree.elements@.len() ==> elem_wf(tree, i)) && (forall|c: int|
        0 <= c < tree.components@.len() ==> (#[trigger] tree.components@[c]).root_element
            < tree.elements@.len()) && (forall|c: int, p: int|
        0 <= c < tree.components@.len() && 0 <= p < tree.components@[c].popup_windows@.len()
            ==> (#[trigger] tree.components@[c].popup_windows@[p]).component
            < tree.components@.len())
}

impl ObjectTree {
    /// An empty tree.
    pub fn new() -> (r: ObjectTree)
        ensures
            r.elements@.len() == 0,
            r.components@.len() == 0,
            r.builtins@.len() == 0,
            tree_wf(r),
    {
        ObjectTree {
            elements: Vec::new(),
            components: Vec::new(),
            builtins: Vec::new(),
            natives: Vec::new(),
        }
    }
}

/// The value stored for a property name in an association list, if present:
/// the index of its first entry.
pub open spec fn spec_assoc_index<T>(entries: Seq<(String, T)>, name: Seq<char>) -> Option<int>
    decreases entries,
{
    if entries.len() == 0 {
        Option::None
    } else if entries[0].0@ == name {
        Some(0int)
    } else {
        match spec_assoc_index(entries.skip(1), name) {
            Some(i) => Some(i + 1),
            Option::None => Option::None,
        }
    }
}

/// Whether an association list holds a key.
pub open spec fn spec_assoc_has<T>(entries: Seq<(String, T)>, name: Seq<char>) -> bool {
    spec_assoc_index(entries, name) is Some
}

/// The first index of a key in an association list agrees with membership.
pub proof fn lemma_assoc_index_props<T>(entries: Seq<(String, T)>, name: Seq<char>)
    ensures
        (match spec_assoc_index(entries, name) {
            Some(i) => 0 <= i < entries.len() && entries[i].0@ == name && (forall|j: int|
                0 <= j < i ==> (#[trigger] entries[j]).0@ != name),
            Option::None => forall|j: int|
                0 <= j < entries.len() ==> (#[trigger] entries[j]).0@ != name,
        }),
    decreases entries,
{
    if entries.len() > 0 {
        if entries[0].0@ == name {
        } else {
            lemma_assoc_index_props(entries.skip(1), name);
            match spec_assoc_index(entries.skip(1), name) {
                Some(i) => {
                    assert(entries.skip(1)[i] == entries[i + 1]);
                    assert(spec_assoc_index(entries, name) == Some(i + 1));
                    assert forall|j: int| 0 <= j < i + 1 implies (#[trigger] entries[j]).0@
                        != name by {
                        if j > 0 {
                            assert(entries.skip(1)[j - 1] == entries[j]);
                            assert(entries.skip(1)[j - 1].0@ != name);
                        }
                    }
                }
                Option::None => {
                    assert forall|j: int| 0 <= j < entries.len() implies (#[trigger] entries[
                        j
                    ]).0@ != name by {
                        if j > 0 {
                            assert(entries.skip(1)[j - 1] == entries[j]);
                            assert(entries.skip(1)[j - 1].0@ != name);
                        }
                    }
                }
            }
        }
    }
}

/// Find a key's first entry in an association list of bindings.
pub fn assoc_find_binding(entries: &Vec<(String, BindingExpression)>, name: &str) -> (r: Option<
    usize,
>)
    ensures
        (match r {
            Some(i) => spec_assoc_index(entries@, name@) == Some(i as int),
            Option::None => spec_assoc_index(entries@, name@) is None,
        }),
{
    let mut i: usize = 0;
    while i < entries.len()
        invariant
            0 <= i <= entries@.len(),
            forall|j: int| 0 <= j < i ==> (#[trigger] entries@[j]).0@ != name@,
        decreases entries@.len() - i,
    {
        if str_eq(entries[i].0.as_str(), name) {
            proof {
                lemma_assoc_index_props(entries@, name@);
                match spec_assoc_index(entries@, name@) {
                    Some(k) => {
                        if k < i as int {
                            assert(entries@[k].0@ != name@);
                        }
                        if k > i as int {
                            assert(entries@[i as int].0@ != name@);
                        }
                    }
                    Option::None => {
                        assert(entries@[i as int].0@ != name@);
                    }
                }
            }
            return Some(i);
        }
        i = i + 1;
    }
    proof {
        lemma_assoc_index_props(entries@, name@);
    }
    Option::None
}

/// Insert a binding under a resolved name: when the name is new the pair is
/// appended and no diagnostic is produced; when a binding already exists it
/// is replaced, not silently, and exactly one duplicate-binding error is
/// pushed, pointing at the new binding's name.
pub fn insert_binding_with_duplicate_check(
    bindings: &mut Vec<(String, BindingExpression)>,
    name: String,
    binding: BindingExpression,
    name_span: Span,
    message: String,
    diag: &mut crate::diagnostics::BuildDiagnostics,
) -> (replaced: bool)
    ensures
        replaced == spec_assoc_has(old(bindings)@, name@),
        !replaced ==> final(bindings)@ == old(bindings)@.push((name, binding)),
        !replaced ==> final(diag).diags@ == old(diag).diags@,
        replaced ==> (match spec_assoc_index(old(bindings)@, name@) {
            Some(i) => final(bindings)@ == old(bindings)@.update(i, (name, binding)),
            Option::None => false,
        }),
        replaced ==> final(diag).diags@ == old(diag).diags@.push(
            crate::diagnostics::Diagnostic {
                message,
                span: name_span,
                level: crate::diagnostics::DiagnosticLevel::Error,
            },
        ),
{
    let found = assoc_find_binding(bindings, name.as_str());
    match found {
        Some(i) => {
            proof {
                lemma_assoc_index_props(bindings@, name@);
            }
            bindings.set(i, (name, binding));
            diag.push_error(message, name_span);
            true
        }
        Option::None => {
            bindings.push((name, binding));
            false
        }
    }
}

/// The result of looking a property up on an element: the canonical name and
/// the type, `Invalid` when the property does not exist.
pub struct PropertyLookupResult {
    pub resolved_name: String,
    pub property_type: Type,
}

/// The type stored in a property-declaration list for a name.
pub open spec fn spec_decl_ty(
    decls: Seq<(String, PropertyDeclaration)>,
    name: Seq<char>,
) -> Option<TypeV>
    decreases decls,
{
    if decls.len() == 0 {
        Option::None
    } else if decls[0].0@ == name {
        Some(type_view(decls[0].1.property_type))
    } else {
        spec_decl_ty(decls.skip(1), name)
    }
}

/// The type of a builtin element's property, following one deprecated-alias
/// step: the canonical name and the type.
pub open spec fn spec_builtin_prop_ty(b: BuiltinElement, name: Seq<char>) -> (Seq<char>, TypeV) {
    let canonical = match spec_assoc_index(b.deprecated_aliases@, name) {
        Some(i) => b.deprecated_aliases@[i].1@,
        Option::None => name,
    };
    match spec_assoc_index(b.properties@, canonical) {
        Some(i) => (canonical, type_view(b.properties@[i].1.ty)),
        Option::None => (canonical, TypeV::Invalid),
    }
}

/// What looking up `name` on element `elem` yields: a declared property's
/// type, or the base chain's answer; `Invalid` when nothing declares it.
pub open spec fn spec_lookup_property(tree: ObjectTree, elem: int, name: Seq<char>) -> (
    Seq<char>,
    TypeV,
)
    decreases elem,
{
    if !(0 <= elem < tree.elements@.len()) || !tree_wf(tree) {
        (name, TypeV::Invalid)
    } else {
        let e = tree.elements@[elem];
        match spec_decl_ty(e.property_declarations@, name) {
            Some(t) => (name, t),
            Option::None => match e.base_type {
                Type::Component(c) => {
                    let root = tree.components@[c as int].root_element as int;
                    if 0 <= root < elem {
                        spec_lookup_property(tree, root, name)
                    } else {
                        (name, TypeV::Invalid)
                    }
                }
                Type::Builtin(b) => {
                    if b < tree.builtins@.len() {
                        spec_builtin_prop_ty(tree.builtins@[b as int], name)
                    } else {
                        (name, TypeV::Invalid)
                    }
                }
                _ => (name, TypeV::Invalid),
            },
        }
    }
}

/// Appending a declaration leaves earlier names' lookups alone and gives
/// the new name its type when it was absent.
pub proof fn lemma_decl_ty_push(
    decls: Seq<(String, PropertyDeclaration)>,
    e: (String, PropertyDeclaration),
    n: Seq<char>,
)
    ensures
        spec_decl_ty(decls.push(e), n) == (if spec_decl_ty(decls, n) is Some {
            spec_decl_ty(decls, n)
        } else if e.0@ == n {
            Some(type_view(e.1.property_type))
        } else {
            Option::<TypeV>::None
        }),
    decreases decls,
{
    if decls.len() == 0 {
        assert(decls.push(e)[0] == e);
        assert(decls.push(e).skip(1) =~= Seq::<(String, PropertyDeclaration)>::empty());
        assert(spec_decl_ty(decls, n) is None);
        assert(spec_decl_ty(decls.push(e), n) == (if e.0@ == n {
            Some(type_view(e.1.property_type))
        } else {
            spec_decl_ty(decls.push(e).skip(1), n)
        }));
    } else {
        assert(decls.push(e)[0] == decls[0]);
        assert(decls.push(e).skip(1) =~= decls.skip(1).push(e));
        lemma_decl_ty_push(decls.skip(1), e, n);
        assert(spec_decl_ty(decls.push(e), n) == (if decls[0].0@ == n {
            Some(type_view(decls[0].1.property_type))
        } else {
            spec_decl_ty(decls.skip(1).push(e), n)
        }));
    }
}

/// A name has a declared type exactly when it has an entry, and the type is
/// the entry's.
pub proof fn lemma_decl_ty_index(decls: Seq<(String, PropertyDeclaration)>, name: Seq<char>)
    ensures
        (spec_decl_ty(decls, name) is Some) == (spec_assoc_index(decls, name) is Some),
    decreases decls,
{
    if decls.len() > 0 {
        if decls[0].0@ == name {
        } else {
            lemma_decl_ty_index(decls.skip(1), name);
        }
    }
}

/// Look up a property's declared type in a declaration list.
pub fn decl_ty_pub(decls: &Vec<(String, PropertyDeclaration)>, name: &str) -> (r: Option<Type>)
    ensures
        (match r {
            Some(t) => spec_decl_ty(decls@, name@) == Some(type_view(t)),
            Option::None => spec_decl_ty(decls@, name@) is None,
        }),
{
    decl_ty(decls, name)
}

/// Look a property up on a builtin element, resolving one deprecated alias.
pub fn builtin_prop_lookup_pub(b: &BuiltinElement, name: &str) -> (r: PropertyLookupResult)
    ensures
        (r.resolved_name@, r.property_type@) == spec_builtin_prop_ty(*b, name@),
{
    builtin_prop_lookup(b, name)
}

/// Look up a property's declared type in a declaration list.
fn decl_ty(decls: &Vec<(String, PropertyDeclaration)>, name: &str) -> (r: Option<Type>)
    ensures
        (match r {
            Some(t) => spec_decl_ty(decls@, name@) == Some(type_view(t)),
            Option::None => spec_decl_ty(decls@, name@) is None,
        }),
{
    let mut i: usize = 0;
    proof {
        assert(decls@.skip(0) =~= decls@);
    }
    while i < decls.len()
        invariant
            0 <= i <= decls@.len(),
            spec_decl_ty(decls@, name@) == spec_decl_ty(decls@.skip(i as int), name@),
        decreases decls@.len() - i,
    {
        proof {
            assert(decls@.skip(i as int)[0] == decls@[i as int]);
            assert(decls@.skip(i as int).skip(1) =~= decls@.skip(i as int + 1));
        }
        if str_eq(decls[i].0.as_str(), name) {
            return Some(clone_type(&decls[i].1.property_type));
        }
        i = i + 1;
    }
    proof {
        assert(decls@.skip(decls@.len() as int) =~= Seq::<(String, PropertyDeclaration)>::empty());
    }
    Option::None
}

/// The declaration span recorded for a property name, if any.
pub open spec fn spec_decl_span(
    decls: Seq<(String, PropertyDeclaration)>,
    name: Seq<char>,
) -> Option<Span>
    decreases decls,
{
    if decls.len() == 0 {
        Option::None
    } else if decls[0].0@ == name {
        decls[0].1.node_span
    } else {
        spec_decl_span(decls.skip(1), name)
    }
}

/// The declaration span recorded for a property name, if any.
pub fn decl_ty_span(decls: &Vec<(String, PropertyDeclaration)>, name: &str) -> (r: Option<Span>)
    ensures
        r == spec_decl_span(decls@, name@),
{
    let mut i: usize = 0;
    proof {
        assert(decls@.skip(0) =~= decls@);
    }
    while i < decls.len()
        invariant
            0 <= i <= decls@.len(),
            spec_decl_span(decls@, name@) == spec_decl_span(decls@.skip(i as int), name@),
        decreases decls@.len() - i,
    {
        proof {
            assert(decls@.skip(i as int)[0] == decls@[i as int]);
            assert(decls@.skip(i as int).skip(1) =~= decls@.skip(i as int + 1));
        }
        if str_eq(decls[i].0.as_str(), name) {
            return decls[i].1.node_span;
        }
        i = i + 1;
    }
    proof {
        assert(decls@.skip(decls@.len() as int) =~= Seq::<(String, PropertyDeclaration)>::empty());
    }
    Option::None
}

/// The canonical spelling of a possibly deprecated property name on a
/// builtin element.
fn resolve_deprecated_alias(b: &BuiltinElement, name: &str) -> (r: String)
    ensures
        r@ == (match spec_assoc_index(b.deprecated_aliases@, name@) {
            Some(i) => b.deprecated_aliases@[i].1@,
            Option::None => name@,
        }),
{
    let mut i: usize = 0;
    while i < b.deprecated_aliases.len()
        invariant
            0 <= i <= b.deprecated_aliases@.len(),
            forall|j: int| 0 <= j < i ==> (#[trigger] b.deprecated_aliases@[j]).0@ != name@,
        decreases b.deprecated_aliases@.len() - i,
    {
        if str_eq(b.deprecated_aliases[i].0.as_str(), name) {
            proof {
                lemma_assoc_index_props(b.deprecated_aliases@, name@);
                match spec_assoc_index(b.deprecated_aliases@, name@) {
                    Some(k) => {
                        if k < i as int {
                            assert(b.deprecated_aliases@[k].0@ != name@);
                        }
                        if k > i as int {
                            assert(b.deprecated_aliases@[i as int].0@ != name@);
                        }
                    }
                    Option::None => {
                        assert(b.deprecated_aliases@[i as int].0@ != name@);
                    }
                }
                assert(spec_assoc_index(b.deprecated_aliases@, name@) == Some(i as int));
            }
            return b.deprecated_aliases[i].1.clone();
        }
        i = i + 1;
    }
    proof {
        lemma_assoc_index_props(b.deprecated_aliases@, name@);
    }
    String::from_str(name)
}

/// Look a property up on a builtin element, resolving one deprecated alias.
fn builtin_prop_lookup(b: &BuiltinElement, name: &str) -> (r: PropertyLookupResult)
    ensures
        (r.resolved_name@, r.property_type@) == spec_builtin_prop_ty(*b, name@),
{
    let canonical = resolve_deprecated_alias(b, name);
    let mut i: usize = 0;
    while i < b.properties.len()
        invariant
            0 <= i <= b.properties@.len(),
            forall|j: int| 0 <= j < i ==> (#[trigger] b.properties@[j]).0@ != canonical@,
            canonical@ == (match spec_assoc_index(b.deprecated_aliases@, name@) {
                Some(k) => b.deprecated_aliases@[k].1@,
                Option::None => name@,
            }),
        decreases b.properties@.len() - i,
    {
        if str_eq(b.properties[i].0.as_str(), canonical.as_str()) {
            proof {
                lemma_assoc_index_props(b.properties@, canonical@);
                match spec_assoc_index(b.properties@, canonical@) {
                    Some(k) => {
                        if k < i as int {
                            assert(b.properties@[k].0@ != canonical@);
                        }
                        if k > i as int {
                            assert(b.properties@[i as int].0@ != canonical@);
                        }
                    }
                    Option::None => {
                        assert(b.properties@[i as int].0@ != canonical@);
                    }
                }
                assert(spec_assoc_index(b.properties@, canonical@) == Some(i as int));
            }
            let ty = clone_type(&b.properties[i].1.ty);
            return PropertyLookupResult { resolved_name: canonical, property_type: ty };
        }
        i = i + 1;
    }
    proof {
        lemma_assoc_index_props(b.properties@, canonical@);
    }
    PropertyLookupResult { resolved_name: canonical, property_type: Type::Invalid }
}

impl ObjectTree {
    /// Return the type of a property on an element or its base chain, along
    /// with the canonical name in case the written name is a deprecated
    /// spelling. `Invalid` when the property does not exist.
    pub fn lookup_property(&self, elem: usize, name: &str) -> (r: PropertyLookupResult)
        requires
            tree_wf(*self),
            elem < self.elements@.len(),
        ensures
            (r.resolved_name@, r.property_type@) == spec_lookup_property(
                *self,
                elem as int,
                name@,
            ),
        decreases elem,
    {
        let decls = &self.elements[elem].property_declarations;
        let found = decl_ty(decls, name);
        match found {
            Some(t) => PropertyLookupResult {
                resolved_name: String::from_str(name),
                property_type: t,
            },
            Option::None => {
                match &self.elements[elem].base_type {
                    Type::Component(c) => {
                        proof {
                            assert(elem_wf(*self, elem as int));
                        }
                        let root = self.components[*c].root_element;
                        // The walk only descends towards smaller indices; a
                        // base link pointing upward ends it.
                        if root < elem {
                            self.lookup_property(root, name)
                        } else {
                            PropertyLookupResult {
                                resolved_name: String::from_str(name),
                                property_type: Type::Invalid,
                            }
                        }
                    }
                    Type::Builtin(b) => {
                        proof {
                            assert(elem_wf(*self, elem as int));
                        }
                        builtin_prop_lookup(&self.builtins[*b], name)
                    }
                    _ => PropertyLookupResult {
                        resolved_name: String::from_str(name),
                        property_type: Type::Invalid,
                    },
                }
            }
        }
    }

    /// Whether the component is a global: its root element's base is void or
    /// a global builtin.
    pub fn is_global_component(&self, c: usize) -> (r: bool)
        requires
            tree_wf(*self),
            c < self.components@.len(),
        ensures
            r == spec_is_global_component(*self, c as int),
    {
        let root = self.components[c].root_element;
        match &self.elements[root].base_type {
            Type::Void => true,
            Type::Builtin(b) => {
                proof {
                    assert(elem_wf(*self, self.components@[c as int].root_element as int));
                }
                self.builtins[*b].is_global
            }
            _ => false,
        }
    }
}

/// Whether a component is a global namespace rather than an instantiable
/// element tree.
pub open spec fn spec_is_global_component(tree: ObjectTree, c: int) -> bool {
    let root = tree.components@[c].root_element as int;
    match tree.elements@[root].base_type {
        Type::Void => true,
        Type::Builtin(b) => tree.builtins@[b as int].is_global,
        _ => false,
    }
}


impl ObjectTree {
    /// Append an element whose cross-indices are all valid; the new index is
    /// larger than all its children's, keeping the tree well formed.
    pub fn push_element(&mut self, e: Element) -> (idx: usize)
        requires
            tree_wf(*old(self)),
            forall|j: int|
                0 <= j < e.children@.len() ==> (#[trigger] e.children@[j]) < old(
                    self,
                ).elements@.len(),
            (match e.base_type {
                Type::Component(c) => c < old(self).components@.len(),
                Type::Builtin(b) => b < old(self).builtins@.len(),
                _ => true,
            }),
            (match e.enclosing_component {
                Some(c) => c < old(self).components@.len(),
                Option::None => true,
            }),
        ensures
            idx == old(self).elements@.len(),
            final(self).elements@ == old(self).elements@.push(e),
            final(self).components@ == old(self).components@,
            final(self).builtins@ == old(self).builtins@,
            final(self).natives@ == old(self).natives@,
            tree_wf(*final(self)),
    {
        let idx = self.elements.len();
        let ghost oldtree = *self;
        self.elements.push(e);
        proof {
            assert forall|i: int| 0 <= i < self.elements@.len() implies elem_wf(*self, i) by {
                if i < oldtree.elements@.len() {
                    assert(elem_wf(oldtree, i));
                    assert(self.elements@[i] == oldtree.elements@[i]);
                } else {
                    assert(self.elements@[i] == e);
                }
            }
        }
        idx
    }

    /// Append a component whose root element exists.
    pub fn push_component(&mut self, c: Component) -> (idx: usize)
        requires
            tree_wf(*old(self)),
            c.root_element < old(self).elements@.len(),
            forall|p: int|
                0 <= p < c.popup_windows@.len() ==> (#[trigger] c.popup_windows@[p]).component
                    < old(self).components@.len(),
        ensures
            idx == old(self).components@.len(),
            final(self).components@ == old(self).components@.push(c),
            final(self).elements@ == old(self).elements@,
            final(self).builtins@ == old(self).builtins@,
            final(self).natives@ == old(self).natives@,
            tree_wf(*final(self)),
    {
        let idx = self.components.len();
        let ghost oldtree = *self;
        self.components.push(c);
        proof {
            assert forall|i: int| 0 <= i < self.elements@.len() implies elem_wf(*self, i) by {
                assert(elem_wf(oldtree, i));
                assert(self.elements@[i] == oldtree.elements@[i]);
                match self.elements@[i].base_type {
                    Type::Component(cc) => {
                        assert(self.components@[cc as int] == oldtree.components@[cc as int]);
                    }
                    _ => {}
                }
            }
        }
        idx
    }

    /// Point an element's enclosing-component reference at a component.
    pub fn set_enclosing_component(&mut self, elem: usize, c: usize)
        requires
            tree_wf(*old(self)),
            elem < old(self).elements@.len(),
            c < old(self).components@.len(),
        ensures
            final(self).elements@.len() == old(self).elements@.len(),
            final(self).elements@ == old(self).elements@.update(
                elem as int,
                Element {
                    enclosing_component: Some(c),
                    ..old(self).elements@[elem as int]
                },
            ),
            final(self).components@ == old(self).components@,
            final(self).builtins@ == old(self).builtins@,
            final(self).natives@ == old(self).natives@,
            tree_wf(*final(self)),
    {
        let ghost oldtree = *self;
        let mut e = self.take_element(elem);
        e.enclosing_component = Some(c);
        self.put_element(elem, e);
        proof {
            assert(self.elements@ =~= oldtree.elements@.update(
                elem as int,
                Element { enclosing_component: Some(c), ..oldtree.elements@[elem as int] },
            ));
            assert forall|i: int| 0 <= i < self.elements@.len() implies elem_wf(*self, i) by {
                assert(elem_wf(oldtree, i));
                if i != elem as int {
                    assert(self.elements@[i] == oldtree.elements@[i]);
                }
            }
        }
    }

    /// Move an element out of the tree, leaving an empty placeholder; used
    /// together with `put_element` to mutate an element without holding a
    /// borrow of the store.
    pub fn take_element(&mut self, elem: usize) -> (e: Element)
        requires
            elem < old(self).elements@.len(),
        ensures
            e == old(self).elements@[elem as int],
            final(self).elements@.len() == old(self).elements@.len(),
            forall|i: int|
                0 <= i < old(self).elements@.len() && i != elem ==> final(self).elements@[i]
                    == old(self).elements@[i],
            final(self).components@ == old(self).components@,
            final(self).builtins@ == old(self).builtins@,
            final(self).natives@ == old(self).natives@,
    {
        let mut tmp = Element::new(String::new(), Type::Invalid, Option::None);
        self.elements.set_and_swap(elem, &mut tmp);
        tmp
    }

    /// Put an element back at its index.
    pub fn put_element(&mut self, elem: usize, e: Element)
        requires
            elem < old(self).elements@.len(),
        ensures
            final(self).elements@ == old(self).elements@.update(elem as int, e),
            final(self).components@ == old(self).components@,
            final(self).builtins@ == old(self).builtins@,
            final(self).natives@ == old(self).natives@,
    {
        self.elements.set(elem, e);
    }
}


impl ObjectTree {
    /// Mark an element as the template of a repeated or conditional
    /// instantiation.
    pub fn set_repeated(&mut self, elem: usize, rei: RepeatedElementInfo)
        requires
            tree_wf(*old(self)),
            elem < old(self).elements@.len(),
        ensures
            final(self).elements@.len() == old(self).elements@.len(),
            forall|i: int|
                0 <= i < old(self).elements@.len() && i != elem ==> final(self).elements@[i]
                    == old(self).elements@[i],
            final(self).elements@[elem as int] == (Element {
                repeated: Some(rei),
                ..old(self).elements@[elem as int]
            }),
            final(self).components@ == old(self).components@,
            final(self).builtins@ == old(self).builtins@,
            final(self).natives@ == old(self).natives@,
            tree_wf(*final(self)),
    {
        let ghost oldtree = *self;
        let mut e = self.take_element(elem);
        e.repeated = Some(rei);
        self.put_element(elem, e);
        proof {
            assert forall|i: int| 0 <= i < self.elements@.len() implies elem_wf(*self, i) by {
                assert(elem_wf(oldtree, i));
                if i != elem as int {
                    assert(self.elements@[i] == oldtree.elements@[i]);
                }
            }
        }
    }

    /// Store the compiled states and transitions of an element.
    pub fn set_states_transitions(
        &mut self,
        elem: usize,
        states: Vec<State>,
        transitions: Vec<Transition>,
    )
        requires
            tree_wf(*old(self)),
            elem < old(self).elements@.len(),
        ensures
            final(self).elements@.len() == old(self).elements@.len(),
            forall|i: int|
                0 <= i < old(self).elements@.len() && i != elem ==> final(self).elements@[i]
                    == old(self).elements@[i],
            final(self).elements@[elem as int] == (Element {
                states,
                transitions,
                ..old(self).elements@[elem as int]
            }),
            final(self).components@ == old(self).components@,
            final(self).builtins@ == old(self).builtins@,
            final(self).natives@ == old(self).natives@,
            tree_wf(*final(self)),
    {
        let ghost oldtree = *self;
        let mut e = self.take_element(elem);
        e.states = states;
        e.transitions = transitions;
        self.put_element(elem, e);
        proof {
            assert forall|i: int| 0 <= i < self.elements@.len() implies elem_wf(*self, i) by {
                assert(elem_wf(oldtree, i));
                if i != elem as int {
                    assert(self.elements@[i] == oldtree.elements@[i]);
                }
            }
        }
    }

    /// Find an element by its source identifier, searching the subtree of
    /// the given element in preorder but not descending into repeated
    /// templates.
    pub fn find_element_by_id(&self, from: usize, name: &str) -> (r: Option<usize>)
        requires
            tree_wf(*self),
            from < self.elements@.len(),
        ensures
            r == spec_find_by_id(*self, from as int, name@),
            (match r {
                Some(i) => i < self.elements@.len(),
                Option::None => true,
            }),
        decreases from,
    {
        if str_eq(self.elements[from].id.as_str(), name) {
            return Some(from);
        }
        let n = self.elements[from].children.len();
        let ghost children = self.elements@[from as int].children@;
        let mut i: usize = 0;
        proof {
            assert(children.skip(0) =~= children);
        }
        while i < n
            invariant
                tree_wf(*self),
                from < self.elements@.len(),
                self.elements@[from as int].id@ != name@,
                children == self.elements@[from as int].children@,
                n == children.len(),
                0 <= i <= n,
                spec_find_by_id_children(*self, children, from as int, name@)
                    == spec_find_by_id_children(
                    *self,
                    children.skip(i as int),
                    from as int,
                    name@,
                ),
            decreases n - i,
        {
            proof {
                assert(children.skip(i as int)[0] == children[i as int]);
                assert(children.skip(i as int).skip(1) =~= children.skip(i as int + 1));
                assert(elem_wf(*self, from as int));
            }
            let child = self.elements[from].children[i];
            if self.elements[child].repeated.is_none() {
                let sub = self.find_element_by_id(child, name);
                if sub.is_some() {
                    return sub;
                }
            }
            i = i + 1;
        }
        proof {
            assert(children.skip(n as int) =~= Seq::<usize>::empty());
        }
        Option::None
    }

    /// Find the parent of an element inside the subtree of a root element;
    /// the search is exhaustive because the tree stores no parent pointers.
    pub fn find_parent_element_in(&self, base: usize, needle: usize) -> (r: Option<usize>)
        requires
            tree_wf(*self),
            base < self.elements@.len(),
        ensures
            r == spec_find_parent(*self, base as int, needle),
            (match r {
                Some(i) => i < self.elements@.len(),
                Option::None => true,
            }),
        decreases base,
    {
        let n = self.elements[base].children.len();
        let ghost children = self.elements@[base as int].children@;
        let mut i: usize = 0;
        proof {
            assert(children.skip(0) =~= children);
        }
        while i < n
            invariant
                tree_wf(*self),
                base < self.elements@.len(),
                children == self.elements@[base as int].children@,
                n == children.len(),
                0 <= i <= n,
                spec_find_parent_children(*self, children, base as int, needle)
                    == spec_find_parent_children(
                    *self,
                    children.skip(i as int),
                    base as int,
                    needle,
                ),
            decreases n - i,
        {
            proof {
                assert(children.skip(i as int)[0] == children[i as int]);
                assert(children.skip(i as int).skip(1) =~= children.skip(i as int + 1));
                assert(elem_wf(*self, base as int));
            }
            let child = self.elements[base].children[i];
            if child == needle {
                return Some(base);
            }
            let sub = self.find_parent_element_in(child, needle);
            if sub.is_some() {
                return sub;
            }
            i = i + 1;
        }
        proof {
            assert(children.skip(n as int) =~= Seq::<usize>::empty());
        }
        Option::None
    }

    /// Collect the element and all its descendants in depth-first preorder.
    pub fn collect_subtree(&self, from: usize) -> (r: Vec<usize>)
        requires
            tree_wf(*self),
            from < self.elements@.len(),
        ensures
            r@ == spec_preorder(*self, from as int),
            forall|i: int| 0 <= i < r@.len() ==> (#[trigger] r@[i]) < self.elements@.len(),
        decreases from,
    {
        let mut out: Vec<usize> = Vec::new();
        out.push(from);
        let n = self.elements[from].children.len();
        let ghost children = self.elements@[from as int].children@;
        let mut i: usize = 0;
        proof {
            assert(children.skip(0) =~= children);
            assert(out@ =~= seq![from]);
        }
        while i < n
            invariant
                tree_wf(*self),
                from < self.elements@.len(),
                children == self.elements@[from as int].children@,
                n == children.len(),
                0 <= i <= n,
                out@ + spec_preorder_children(*self, children.skip(i as int), from as int)
                    == spec_preorder(*self, from as int),
                forall|k: int| 0 <= k < out@.len() ==> (#[trigger] out@[k]) < self.elements@.len(),
            decreases n - i,
        {
            proof {
                assert(children.skip(i as int)[0] == children[i as int]);
                assert(children.skip(i as int).skip(1) =~= children.skip(i as int + 1));
                assert(elem_wf(*self, from as int));
            }
            let child = self.elements[from].children[i];
            let mut sub = self.collect_subtree(child);
            let ghost pre = out@;
            let ghost subview = sub@;
            out.append(&mut sub);
            proof {
                assert(out@ == pre + subview);
                assert((pre + subview) + spec_preorder_children(
                    *self,
                    children.skip(i as int + 1),
                    from as int,
                ) =~= pre + (subview + spec_preorder_children(
                    *self,
                    children.skip(i as int + 1),
                    from as int,
                )));
            }
            i = i + 1;
        }
        proof {
            assert(children.skip(n as int) =~= Seq::<usize>::empty());
            assert(out@ + Seq::<usize>::empty() =~= out@);
        }
        out
    }
}


impl ObjectTree {
    /// Record the list-view references of a repeated element's template.
    pub fn set_listview(&mut self, elem: usize, lv: ListViewInfo)
        requires
            tree_wf(*old(self)),
            elem < old(self).elements@.len(),
        ensures
            final(self).elements@.len() == old(self).elements@.len(),
            forall|i: int|
                0 <= i < old(self).elements@.len() && i != elem ==> final(self).elements@[i]
                    == old(self).elements@[i],
            final(self).components@ == old(self).components@,
            final(self).builtins@ == old(self).builtins@,
            final(self).natives@ == old(self).natives@,
            tree_wf(*final(self)),
    {
        let ghost oldtree = *self;
        let mut e = self.take_element(elem);
        let new_rep = match e.repeated {
            Some(rei) => Some(
                RepeatedElementInfo {
                    model: rei.model,
                    model_data_id: rei.model_data_id,
                    index_id: rei.index_id,
                    is_conditional_element: rei.is_conditional_element,
                    is_listview: Some(lv),
                },
            ),
            Option::None => Option::None,
        };
        e.repeated = new_rep;
        self.put_element(elem, e);
        proof {
            assert forall|i: int| 0 <= i < self.elements@.len() implies elem_wf(*self, i) by {
                assert(elem_wf(oldtree, i));
                if i != elem as int {
                    assert(self.elements@[i] == oldtree.elements@[i]);
                } else {
                    assert(self.elements@[i].children@ == oldtree.elements@[i].children@);
                    assert(self.elements@[i].base_type == oldtree.elements@[i].base_type);
                    assert(self.elements@[i].enclosing_component == oldtree.elements@[
                        i
                    ].enclosing_component);
                }
            }
        }
    }

    /// Whether an element's base is the builtin with the given name.
    pub fn base_is_builtin_named(&self, elem: usize, name: &str) -> (r: bool)
        requires
            tree_wf(*self),
            elem < self.elements@.len(),
    {
        match &self.elements[elem].base_type {
            Type::Builtin(b) => {
                proof {
                    assert(elem_wf(*self, elem as int));
                }
                str_eq(self.builtins[*b].name.as_str(), name)
            }
            _ => false,
        }
    }

    /// Point every element of a subtree at its enclosing component.
    pub fn set_enclosing_subtree(&mut self, from: usize, c: usize)
        requires
            tree_wf(*old(self)),
            from < old(self).elements@.len(),
            c < old(self).components@.len(),
        ensures
            tree_wf(*final(self)),
            final(self).elements@.len() == old(self).elements@.len(),
            final(self).components@ == old(self).components@,
            final(self).builtins@ == old(self).builtins@,
            final(self).natives@ == old(self).natives@,
            final(self).elements@[from as int].enclosing_component == Some(c),
            forall|i: int|
                from < i < old(self).elements@.len() ==> #[trigger] final(self).elements@[i]
                    == old(self).elements@[i],
            forall|i: int|
                0 <= i < old(self).elements@.len() ==> #[trigger] final(self).elements@[i]
                    == (Element {
                    enclosing_component: final(self).elements@[i].enclosing_component,
                    ..old(self).elements@[i]
                }),
            forall|i: int|
                0 <= i < old(self).elements@.len()
                    ==> (#[trigger] final(self).elements@[i]).enclosing_component
                    == old(self).elements@[i].enclosing_component
                    || final(self).elements@[i].enclosing_component == Some(c),
            // The whole subtree under `from` now belongs to the component.
            forall|j: int|
                0 <= j < spec_preorder(*old(self), from as int).len()
                    ==> final(self).elements@[(#[trigger] spec_preorder(
                    *old(self),
                    from as int,
                )[j]) as int].enclosing_component == Some(c),
        decreases from,
    {
        self.set_enclosing_component(from, c);
        // Copy the child list first so the walk does not depend on the store
        // while it mutates elements.
        let mut children: Vec<usize> = Vec::new();
        let n = self.elements[from].children.len();
        let mut i: usize = 0;
        while i < n
            invariant
                from < self.elements@.len(),
                n == self.elements@[from as int].children@.len(),
                tree_wf(*self),
                0 <= i <= n,
                children@.len() == i,
                forall|k: int|
                    0 <= k < i ==> (#[trigger] children@[k]) == self.elements@[
                        from as int
                    ].children@[k],
            decreases n - i,
        {
            children.push(self.elements[from].children[i]);
            i = i + 1;
        }
        proof {
            assert(elem_wf(*self, from as int));
        }
        let mut i: usize = 0;
        proof {
            assert(children@ =~= old(self).elements@[from as int].children@);
        }
        while i < children.len()
            invariant
                tree_wf(*self),
                c < self.components@.len(),
                self.elements@.len() == old(self).elements@.len(),
                self.components@ == old(self).components@,
                self.builtins@ == old(self).builtins@,
                self.natives@ == old(self).natives@,
                0 <= i <= children@.len(),
                forall|k: int| 0 <= k < children@.len() ==> (#[trigger] children@[k]) < from,
                from < self.elements@.len(),
                children@ == old(self).elements@[from as int].children@,
                self.elements@[from as int].enclosing_component == Some(c),
                forall|k: int|
                    0 <= k < old(self).elements@.len() ==> (#[trigger] self.elements@[k])
                        .enclosing_component == old(self).elements@[k].enclosing_component
                        || self.elements@[k].enclosing_component == Some(c),
                forall|t: int, j: int|
                    0 <= t < i && 0 <= j < spec_preorder(
                        *old(self),
                        children@[t] as int,
                    ).len() ==> self.elements@[(#[trigger] spec_preorder(
                        *old(self),
                        children@[t] as int,
                    )[j]) as int].enclosing_component == Some(c),
                forall|k: int|
                    from < k < old(self).elements@.len() ==> #[trigger] self.elements@[k]
                        == old(self).elements@[k],
                forall|k: int|
                    0 <= k < old(self).elements@.len() ==> #[trigger] self.elements@[k]
                        == (Element {
                        enclosing_component: self.elements@[k].enclosing_component,
                        ..old(self).elements@[k]
                    }),
            decreases children@.len() - i,
        {
            let child = children[i];
            let ghost pre = *self;
            self.set_enclosing_subtree(child, c);
            proof {
                assert forall|k: int|
                    0 <= k < old(self).elements@.len() implies #[trigger] self.elements@[k]
                    == (Element {
                    enclosing_component: self.elements@[k].enclosing_component,
                    ..old(self).elements@[k]
                }) by {
                    assert(self.elements@[k] == (Element {
                        enclosing_component: self.elements@[k].enclosing_component,
                        ..pre.elements@[k]
                    }));
                    assert(pre.elements@[k] == (Element {
                        enclosing_component: pre.elements@[k].enclosing_component,
                        ..old(self).elements@[k]
                    }));
                }
                assert forall|k: int|
                    0 <= k < old(self).elements@.len() implies (#[trigger] pre.elements@[k])
                    .children@ == old(self).elements@[k].children@ by {
                    assert(pre.elements@[k] == (Element {
                        enclosing_component: pre.elements@[k].enclosing_component,
                        ..old(self).elements@[k]
                    }));
                }
                lemma_preorder_same_children(*old(self), pre, child as int);
                assert forall|t: int, j: int|
                    0 <= t < i + 1 && 0 <= j < spec_preorder(
                        *old(self),
                        children@[t] as int,
                    ).len() implies self.elements@[(#[trigger] spec_preorder(
                    *old(self),
                    children@[t] as int,
                )[j]) as int].enclosing_component == Some(c) by {
                    lemma_preorder_in_range(*old(self), children@[t] as int);
                    let idx = (spec_preorder(*old(self), children@[t] as int)[j]) as int;
                    if t < i {
                        assert(pre.elements@[idx].enclosing_component == Some(c));
                    } else {
                        assert(spec_preorder(pre, child as int) == spec_preorder(
                            *old(self),
                            child as int,
                        ));
                    }
                }
            }
            i = i + 1;
        }
        proof {
            assert forall|j: int|
                0 <= j < spec_preorder(*old(self), from as int).len() implies self.elements@[(
            #[trigger] spec_preorder(*old(self), from as int)[j]) as int].enclosing_component
                == Some(c) by {
                let po = spec_preorder(*old(self), from as int);
                let ch = old(self).elements@[from as int].children@;
                assert(po == seq![from] + spec_preorder_children(*old(self), ch, from as int));
                if j == 0 {
                    assert(po[0] == from);
                } else {
                    assert(po[j] == spec_preorder_children(*old(self), ch, from as int)[j - 1]);
                    lemma_preorder_children_index(*old(self), ch, from as int, j - 1);
                }
            }
        }
    }
}


/// Only the given repeated element holds the component as its base, and no
/// popup window holds it either: the arena analogue of the component having
/// exactly one owner besides the caller's handle.
pub open spec fn spec_single_base_ref(tree: ObjectTree, c: int, repeated_element: int) -> bool {
    &&& tree.elements@[repeated_element].base_type == Type::Component(c as usize)
    &&& (forall|i: int|
        0 <= i < tree.elements@.len() && i != repeated_element
            ==> (#[trigger] tree.elements@[i]).base_type != Type::Component(c as usize))
    &&& (forall|k: int, p: int|
        0 <= k < tree.components@.len() && 0 <= p
            < tree.components@[k].popup_windows@.len() ==> (#[trigger] tree.components@[
            k
        ].popup_windows@[p]).component != c)
}

impl ObjectTree {
    /// Whether only the repeated element holds the component as a base.
    fn check_single_base_ref(&self, c: usize, repeated_element: usize) -> (r: bool)
        requires
            repeated_element < self.elements@.len(),
        ensures
            r == spec_single_base_ref(*self, c as int, repeated_element as int),
    {
        let is_base = match &self.elements[repeated_element].base_type {
            Type::Component(cc) => *cc == c,
            _ => false,
        };
        if !is_base {
            return false;
        }
        let mut i: usize = 0;
        while i < self.elements.len()
            invariant
                repeated_element < self.elements@.len(),
                0 <= i <= self.elements@.len(),
                forall|j: int|
                    0 <= j < i && j != repeated_element ==> (#[trigger] self.elements@[
                        j
                    ]).base_type != Type::Component(c),
            decreases self.elements@.len() - i,
        {
            if i != repeated_element {
                let other = match &self.elements[i].base_type {
                    Type::Component(cc) => *cc == c,
                    _ => false,
                };
                if other {
                    return false;
                }
            }
            i = i + 1;
        }
        let mut k: usize = 0;
        while k < self.components.len()
            invariant
                0 <= k <= self.components@.len(),
                forall|kk: int, p: int|
                    0 <= kk < k && 0 <= p < self.components@[kk].popup_windows@.len()
                        ==> (#[trigger] self.components@[kk].popup_windows@[p]).component != c,
            decreases self.components@.len() - k,
        {
            let mut p: usize = 0;
            let np = self.components[k].popup_windows.len();
            while p < np
                invariant
                    k < self.components@.len(),
                    np == self.components@[k as int].popup_windows@.len(),
                    0 <= p <= np,
                    forall|pp: int|
                        0 <= pp < p ==> (#[trigger] self.components@[
                            k as int
                        ].popup_windows@[pp]).component != c,
                decreases np - p,
            {
                if self.components[k].popup_windows[p].component == c {
                    return false;
                }
                p = p + 1;
            }
            k = k + 1;
        }
        true
    }

    /// Replace the root of a repeated element's template component with a new
    /// synthetic root; the previous root becomes the new root's only added
    /// child. The operation refuses to touch anything unless the repeated
    /// element is the single holder of the component and the new root can
    /// stand above the old one; on refusal the tree is unchanged.
    pub fn inject_element_as_repeated_element(
        &mut self,
        repeated_element: usize,
        new_root: usize,
    ) -> (ok: bool)
        requires
            tree_wf(*old(self)),
            repeated_element < old(self).elements@.len(),
            new_root < old(self).elements@.len(),
        ensures
            tree_wf(*final(self)),
            !ok ==> *final(self) == *old(self),
            ok == (match old(self).elements@[repeated_element as int].base_type {
                Type::Component(c) => {
                    let old_root = old(self).components@[c as int].root_element;
                    &&& spec_single_base_ref(*old(self), c as int, repeated_element as int)
                    &&& old_root < new_root
                    &&& new_root != repeated_element
                },
                _ => false,
            }),
            ok ==> (match old(self).elements@[repeated_element as int].base_type {
                Type::Component(c) => {
                    let old_root = old(self).components@[c as int].root_element;
                    &&& spec_single_base_ref(*old(self), c as int, repeated_element as int)
                    &&& final(self).components@[c as int].root_element == new_root
                    &&& final(self).elements@[new_root as int].children@
                        == old(self).elements@[new_root as int].children@.push(old_root)
                    &&& final(self).elements@[new_root as int].enclosing_component == Some(
                        c as usize,
                    )
                    &&& final(self).elements@[new_root as int].child_of_layout
                        == old(self).elements@[old_root as int].child_of_layout
                    &&& final(self).elements@[old_root as int] == (Element {
                        child_of_layout: false,
                        ..old(self).elements@[old_root as int]
                    })
                    &&& final(self).elements@.len() == old(self).elements@.len()
                    &&& final(self).components@.len() == old(self).components@.len()
                    &&& (forall|i: int|
                        0 <= i < old(self).elements@.len() && i != new_root && i != old_root
                            ==> final(self).elements@[i] == old(self).elements@[i])
                    &&& (forall|k: int|
                        0 <= k < old(self).components@.len() && k != c
                            ==> final(self).components@[k] == old(self).components@[k])
                }
                _ => false,
            }),
    {
        let c = match &self.elements[repeated_element].base_type {
            Type::Component(cc) => *cc,
            _ => {
                return false;
            }
        };
        proof {
            assert(elem_wf(*self, repeated_element as int));
        }
        if !self.check_single_base_ref(c, repeated_element) {
            return false;
        }
        let old_root = self.components[c].root_element;
        if !(old_root < new_root) || old_root == new_root || new_root == repeated_element {
            // The new root cannot stand above the old one; refuse rather
            // than break the downward ordering of the tree.
            return false;
        }
        let ghost oldtree = *self;
        // Transfer the layout ownership flag from the old root.
        let mut old_root_elem = self.take_element(old_root);
        let was_child_of_layout = old_root_elem.child_of_layout;
        old_root_elem.child_of_layout = false;
        self.put_element(old_root, old_root_elem);
        // Push the old root down under the new root.
        let mut new_root_elem = self.take_element(new_root);
        new_root_elem.child_of_layout = was_child_of_layout;
        new_root_elem.children.push(old_root);
        new_root_elem.enclosing_component = Some(c);
        self.put_element(new_root, new_root_elem);
        // Swap the component's root.
        let mut comp = self.take_component(c);
        comp.root_element = new_root;
        self.put_component(c, comp);
        proof {
            assert forall|i: int| 0 <= i < self.elements@.len() implies elem_wf(*self, i) by {
                assert(elem_wf(oldtree, i));
                if i == new_root as int {
                    assert(self.elements@[i].children@ == oldtree.elements@[
                        i
                    ].children@.push(old_root));
                    assert(forall|j: int|
                        0 <= j < self.elements@[i].children@.len() ==> (
                        #[trigger] self.elements@[i].children@[j]) < i);
                } else if i == old_root as int {
                    assert(self.elements@[i].children@ == oldtree.elements@[i].children@);
                    assert(self.elements@[i].base_type == oldtree.elements@[i].base_type);
                    assert(self.elements@[i].enclosing_component == oldtree.elements@[
                        i
                    ].enclosing_component);
                } else {
                    assert(self.elements@[i] == oldtree.elements@[i]);
                }
            }
        }
        true
    }

    /// Move a component out of the store for mutation.
    pub fn take_component(&mut self, c: usize) -> (r: Component)
        requires
            c < old(self).components@.len(),
        ensures
            r == old(self).components@[c as int],
            final(self).components@.len() == old(self).components@.len(),
            forall|i: int|
                0 <= i < old(self).components@.len() && i != c ==> final(self).components@[i]
                    == old(self).components@[i],
            final(self).elements@ == old(self).elements@,
            final(self).builtins@ == old(self).builtins@,
            final(self).natives@ == old(self).natives@,
    {
        let mut tmp = Component::new(String::new(), 0);
        self.components.set_and_swap(c, &mut tmp);
        tmp
    }

    /// Put a component back at its index.
    pub fn put_component(&mut self, c: usize, comp: Component)
        requires
            c < old(self).components@.len(),
        ensures
            final(self).components@ == old(self).components@.update(c as int, comp),
            final(self).elements@ == old(self).elements@,
            final(self).builtins@ == old(self).builtins@,
            final(self).natives@ == old(self).natives@,
    {
        self.components.set(c, comp);
    }
}


impl ObjectTree {
    /// Collect every named reference stored anywhere in one element, in the
    /// fixed field order of the element's reference model: binding
    /// expressions recursively, state conditions and property changes,
    /// transition animations, the repeater's model and list-view references,
    /// the layout-info properties, property-declaration aliases, and
    /// transition-animation state expressions. Every field holding a named
    /// reference is covered: the output is exactly the element's reference
    /// model, appended to the given vector.
    pub fn collect_named_references_in_element(&self, elem: usize, out: &mut Vec<NamedReference>)
        requires
            tree_wf(*self),
            elem < self.elements@.len(),
        ensures
            crate::namedreference::refs_view(final(out)@) == crate::namedreference::refs_view(
                old(out)@,
            ) + spec_element_refs(self.elements@[elem as int]),
    {
        let e = &self.elements[elem];
        let ghost base = crate::namedreference::refs_view(old(out)@);
        collect_binding_refs(e, out);
        collect_state_refs(e, out);
        collect_transition_refs(e, out);
        collect_repeated_refs(e, out);
        collect_layout_refs(e, out);
        collect_alias_refs(e, out);
        collect_animation_refs(e, out);
        proof {
            lemma_refs_assoc_ot(
                base,
                crate::expression::spec_path_bindings_refs(e.bindings@),
                spec_states_refs(e.states@),
            );
            lemma_refs_assoc_ot(
                base,
                crate::expression::spec_path_bindings_refs(e.bindings@) + spec_states_refs(
                    e.states@,
                ),
                spec_transitions_refs(e.transitions@),
            );
            lemma_refs_assoc_ot(
                base,
                crate::expression::spec_path_bindings_refs(e.bindings@) + spec_states_refs(
                    e.states@,
                ) + spec_transitions_refs(e.transitions@),
                spec_repeated_refs(e.repeated),
            );
            lemma_refs_assoc_ot(
                base,
                crate::expression::spec_path_bindings_refs(e.bindings@) + spec_states_refs(
                    e.states@,
                ) + spec_transitions_refs(e.transitions@) + spec_repeated_refs(e.repeated),
                spec_layout_prop_refs(e.layout_info_prop),
            );
            lemma_refs_assoc_ot(
                base,
                crate::expression::spec_path_bindings_refs(e.bindings@) + spec_states_refs(
                    e.states@,
                ) + spec_transitions_refs(e.transitions@) + spec_repeated_refs(e.repeated)
                    + spec_layout_prop_refs(e.layout_info_prop),
                spec_decl_alias_refs(e.property_declarations@),
            );
            lemma_refs_assoc_ot(
                base,
                crate::expression::spec_path_bindings_refs(e.bindings@) + spec_states_refs(
                    e.states@,
                ) + spec_transitions_refs(e.transitions@) + spec_repeated_refs(e.repeated)
                    + spec_layout_prop_refs(e.layout_info_prop) + spec_decl_alias_refs(
                    e.property_declarations@,
                ),
                spec_animations_refs(e.property_animations@),
            );
        }
    }


    /// Collect every named reference of a component: those of every element
    /// of its tree in preorder, then the root layout constraints, then the
    /// positions of its popup windows. The result is exactly the component's
    /// reference model.
    pub fn collect_named_references_in_component(&self, c: usize) -> (r: Vec<NamedReference>)
        requires
            tree_wf(*self),
            c < self.components@.len(),
        ensures
            crate::namedreference::refs_view(r@) == spec_component_refs(*self, c as int),
    {
        broadcast use crate::namedreference::group_refs_view_lemmas;

        let mut out: Vec<NamedReference> = Vec::new();
        let root = self.components[c].root_element;
        let elems = self.collect_subtree(root);
        let ghost ids = elems@;
        let mut i: usize = 0;
        proof {
            assert(ids.skip(0) =~= ids);
            lemma_refs_empty(Seq::<(int, Seq<char>)>::empty());
            assert(crate::namedreference::refs_view(out@) =~= Seq::<(int, Seq<char>)>::empty());
        }
        while i < elems.len()
            invariant
                tree_wf(*self),
                ids == elems@,
                0 <= i <= ids.len(),
                forall|k: int| 0 <= k < ids.len() ==> (#[trigger] ids[k]) < self.elements@.len(),
                crate::namedreference::refs_view(out@) + spec_elements_refs(
                    *self,
                    ids.skip(i as int),
                ) == spec_elements_refs(*self, ids),
            decreases ids.len() - i,
        {
            proof {
                assert(ids.skip(i as int)[0] == ids[i as int]);
                assert(ids.skip(i as int).skip(1) =~= ids.skip(i as int + 1));
            }
            let ghost pre = crate::namedreference::refs_view(out@);
            self.collect_named_references_in_element(elems[i], &mut out);
            proof {
                lemma_refs_assoc_ot(
                    pre,
                    spec_element_refs(self.elements@[ids[i as int] as int]),
                    spec_elements_refs(*self, ids.skip(i as int + 1)),
                );
            }
            i = i + 1;
        }
        proof {
            assert(ids.skip(ids.len() as int) =~= Seq::<usize>::empty());
            lemma_refs_empty(crate::namedreference::refs_view(out@));
        }
        let ghost after_elems = crate::namedreference::refs_view(out@);
        let comp = &self.components[c];
        match &comp.root_constraints.min_width {
            Some(nr) => push_ref_ot(&mut out, nr),
            Option::None => {}
        }
        match &comp.root_constraints.max_width {
            Some(nr) => push_ref_ot(&mut out, nr),
            Option::None => {}
        }
        match &comp.root_constraints.min_height {
            Some(nr) => push_ref_ot(&mut out, nr),
            Option::None => {}
        }
        match &comp.root_constraints.max_height {
            Some(nr) => push_ref_ot(&mut out, nr),
            Option::None => {}
        }
        proof {
            assert(crate::namedreference::refs_view(out@) =~= after_elems + spec_constraints_refs(
                comp.root_constraints,
            ));
        }
        let ghost after_constraints = crate::namedreference::refs_view(out@);
        let mut p: usize = 0;
        proof {
            assert(comp.popup_windows@.skip(0) =~= comp.popup_windows@);
        }
        while p < comp.popup_windows.len()
            invariant
                0 <= p <= comp.popup_windows@.len(),
                c < self.components@.len(),
                comp == &self.components[c as int],
                crate::namedreference::refs_view(out@) + spec_popups_refs(
                    comp.popup_windows@.skip(p as int),
                ) == after_constraints + spec_popups_refs(comp.popup_windows@),
            decreases comp.popup_windows@.len() - p,
        {
            proof {
                assert(comp.popup_windows@.skip(p as int)[0] == comp.popup_windows@[p as int]);
                assert(comp.popup_windows@.skip(p as int).skip(1) =~= comp.popup_windows@.skip(
                    p as int + 1,
                ));
            }
            let ghost pre = crate::namedreference::refs_view(out@);
            push_ref_ot(&mut out, &comp.popup_windows[p].x);
            push_ref_ot(&mut out, &comp.popup_windows[p].y);
            proof {
                lemma_refs_assoc_ot(
                    pre,
                    seq![crate::namedreference::nr_view(comp.popup_windows@[p as int].x)],
                    seq![crate::namedreference::nr_view(comp.popup_windows@[p as int].y)],
                );
                lemma_refs_assoc_ot(
                    pre,
                    seq![
                        crate::namedreference::nr_view(comp.popup_windows@[p as int].x),
                        crate::namedreference::nr_view(comp.popup_windows@[p as int].y),
                    ],
                    spec_popups_refs(comp.popup_windows@.skip(p as int + 1)),
                );
                assert(seq![crate::namedreference::nr_view(comp.popup_windows@[p as int].x)]
                    + seq![crate::namedreference::nr_view(comp.popup_windows@[p as int].y)]
                    =~= seq![
                    crate::namedreference::nr_view(comp.popup_windows@[p as int].x),
                    crate::namedreference::nr_view(comp.popup_windows@[p as int].y),
                ]);
            }
            p = p + 1;
        }
        proof {
            assert(comp.popup_windows@.skip(comp.popup_windows@.len() as int) =~= Seq::<
                PopupWindow,
            >::empty());
            lemma_refs_empty(crate::namedreference::refs_view(out@));
            lemma_refs_assoc_ot(
                after_elems,
                spec_constraints_refs(comp.root_constraints),
                spec_popups_refs(comp.popup_windows@),
            );
        }
        out
    }
}


/// Collect the references of every binding expression of an element.
fn collect_binding_refs(e: &Element, out: &mut Vec<NamedReference>)
    ensures
        crate::namedreference::refs_view(final(out)@) == crate::namedreference::refs_view(
            old(out)@,
        ) + crate::expression::spec_path_bindings_refs(e.bindings@),
{
    let ghost base = crate::namedreference::refs_view(old(out)@);
    let mut i: usize = 0;
    proof {
        assert(e.bindings@.skip(0) =~= e.bindings@);
        lemma_refs_empty(base);
    }
    while i < e.bindings.len()
        invariant
            0 <= i <= e.bindings@.len(),
            base == crate::namedreference::refs_view(old(out)@),
            crate::namedreference::refs_view(out@) + crate::expression::spec_path_bindings_refs(
                e.bindings@.skip(i as int),
            ) == base + crate::expression::spec_path_bindings_refs(e.bindings@),
        decreases e.bindings@.len() - i,
    {
        proof {
            assert(e.bindings@.skip(i as int)[0] == e.bindings@[i as int]);
            assert(e.bindings@.skip(i as int).skip(1) =~= e.bindings@.skip(i as int + 1));
        }
        let ghost pre = crate::namedreference::refs_view(out@);
        crate::expression::named_references_in_expression(&e.bindings[i].1.expression, out);
        proof {
            lemma_refs_assoc_ot(
                pre,
                crate::expression::spec_expr_refs(e.bindings@[i as int].1.expression),
                crate::expression::spec_path_bindings_refs(e.bindings@.skip(i as int + 1)),
            );
        }
        i = i + 1;
    }
    proof {
        assert(e.bindings@.skip(e.bindings@.len() as int) =~= Seq::<
            (String, BindingExpression),
        >::empty());
        lemma_refs_empty(crate::namedreference::refs_view(out@));
    }
}

/// Collect the references of every state: the condition and each property
/// change.
fn collect_state_refs(e: &Element, out: &mut Vec<NamedReference>)
    ensures
        crate::namedreference::refs_view(final(out)@) == crate::namedreference::refs_view(
            old(out)@,
        ) + spec_states_refs(e.states@),
{
    let ghost base = crate::namedreference::refs_view(old(out)@);
    let mut i: usize = 0;
    proof {
        assert(e.states@.skip(0) =~= e.states@);
        lemma_refs_empty(base);
    }
    while i < e.states.len()
        invariant
            0 <= i <= e.states@.len(),
            base == crate::namedreference::refs_view(old(out)@),
            crate::namedreference::refs_view(out@) + spec_states_refs(e.states@.skip(i as int))
                == base + spec_states_refs(e.states@),
        decreases e.states@.len() - i,
    {
        proof {
            assert(e.states@.skip(i as int)[0] == e.states@[i as int]);
            assert(e.states@.skip(i as int).skip(1) =~= e.states@.skip(i as int + 1));
        }
        let ghost pre = crate::namedreference::refs_view(out@);
        match &e.states[i].condition {
            Some(cnd) => crate::expression::named_references_in_expression(cnd, out),
            Option::None => {}
        }
        let ghost after_cond = crate::namedreference::refs_view(out@);
        proof {
            lemma_refs_empty(pre);
        }
        let changes = &e.states[i].property_changes;
        let mut j: usize = 0;
        proof {
            assert(changes@.skip(0) =~= changes@);
            lemma_refs_empty(after_cond);
        }
        while j < changes.len()
            invariant
                0 <= j <= changes@.len(),
                0 <= i < e.states@.len(),
                changes == &e.states[i as int].property_changes,
                after_cond == pre + (match e.states@[i as int].condition {
                    Some(cnd) => crate::expression::spec_expr_refs(cnd),
                    Option::None => Seq::empty(),
                }),
                crate::namedreference::refs_view(out@) + spec_changes_refs(changes@.skip(
                    j as int,
                )) == after_cond + spec_changes_refs(changes@),
            decreases changes@.len() - j,
        {
            proof {
                assert(changes@.skip(j as int)[0] == changes@[j as int]);
                assert(changes@.skip(j as int).skip(1) =~= changes@.skip(j as int + 1));
            }
            let ghost prej = crate::namedreference::refs_view(out@);
            push_ref_ot(out, &changes[j].0);
            crate::expression::named_references_in_expression(&changes[j].1, out);
            proof {
                lemma_refs_assoc_ot(
                    prej,
                    seq![crate::namedreference::nr_view(changes@[j as int].0)],
                    crate::expression::spec_expr_refs(changes@[j as int].1),
                );
                lemma_refs_assoc_ot(
                    prej,
                    seq![crate::namedreference::nr_view(changes@[j as int].0)]
                        + crate::expression::spec_expr_refs(changes@[j as int].1),
                    spec_changes_refs(changes@.skip(j as int + 1)),
                );
                lemma_refs_assoc_ot(
                    prej + seq![crate::namedreference::nr_view(changes@[j as int].0)],
                    crate::expression::spec_expr_refs(changes@[j as int].1),
                    spec_changes_refs(changes@.skip(j as int + 1)),
                );
            }
            j = j + 1;
        }
        proof {
            assert(changes@.skip(changes@.len() as int) =~= Seq::<
                (NamedReference, Expression),
            >::empty());
            lemma_refs_empty(crate::namedreference::refs_view(out@));
            lemma_refs_assoc_ot(
                pre,
                (match e.states@[i as int].condition {
                    Some(cnd) => crate::expression::spec_expr_refs(cnd),
                    Option::None => Seq::empty(),
                }),
                spec_changes_refs(changes@),
            );
            lemma_refs_assoc_ot(
                pre,
                (match e.states@[i as int].condition {
                    Some(cnd) => crate::expression::spec_expr_refs(cnd),
                    Option::None => Seq::empty(),
                }) + spec_changes_refs(changes@),
                spec_states_refs(e.states@.skip(i as int + 1)),
            );
        }
        i = i + 1;
    }
    proof {
        assert(e.states@.skip(e.states@.len() as int) =~= Seq::<State>::empty());
        lemma_refs_empty(crate::namedreference::refs_view(out@));
    }
}

/// Collect the animation target references of every transition.
fn collect_transition_refs(e: &Element, out: &mut Vec<NamedReference>)
    ensures
        crate::namedreference::refs_view(final(out)@) == crate::namedreference::refs_view(
            old(out)@,
        ) + spec_transitions_refs(e.transitions@),
{
    let ghost base = crate::namedreference::refs_view(old(out)@);
    let mut i: usize = 0;
    proof {
        assert(e.transitions@.skip(0) =~= e.transitions@);
        lemma_refs_empty(base);
    }
    while i < e.transitions.len()
        invariant
            0 <= i <= e.transitions@.len(),
            base == crate::namedreference::refs_view(old(out)@),
            crate::namedreference::refs_view(out@) + spec_transitions_refs(e.transitions@.skip(
                i as int,
            )) == base + spec_transitions_refs(e.transitions@),
        decreases e.transitions@.len() - i,
    {
        proof {
            assert(e.transitions@.skip(i as int)[0] == e.transitions@[i as int]);
            assert(e.transitions@.skip(i as int).skip(1) =~= e.transitions@.skip(i as int + 1));
        }
        let ghost pre = crate::namedreference::refs_view(out@);
        let anims = &e.transitions[i].property_animations;
        let mut j: usize = 0;
        proof {
            assert(anims@.skip(0) =~= anims@);
            lemma_refs_empty(pre);
        }
        while j < anims.len()
            invariant
                0 <= j <= anims@.len(),
                0 <= i < e.transitions@.len(),
                anims == &e.transitions[i as int].property_animations,
                crate::namedreference::refs_view(out@) + spec_transition_anim_refs(anims@.skip(
                    j as int,
                )) == pre + spec_transition_anim_refs(anims@),
            decreases anims@.len() - j,
        {
            proof {
                assert(anims@.skip(j as int)[0] == anims@[j as int]);
                assert(anims@.skip(j as int).skip(1) =~= anims@.skip(j as int + 1));
            }
            let ghost prej = crate::namedreference::refs_view(out@);
            push_ref_ot(out, &anims[j].0);
            proof {
                lemma_refs_assoc_ot(
                    prej,
                    seq![crate::namedreference::nr_view(anims@[j as int].0)],
                    spec_transition_anim_refs(anims@.skip(j as int + 1)),
                );
            }
            j = j + 1;
        }
        proof {
            assert(anims@.skip(anims@.len() as int) =~= Seq::<
                (NamedReference, crate::diagnostics::Span, usize),
            >::empty());
            lemma_refs_empty(crate::namedreference::refs_view(out@));
            lemma_refs_assoc_ot(
                pre,
                spec_transition_anim_refs(anims@),
                spec_transitions_refs(e.transitions@.skip(i as int + 1)),
            );
        }
        i = i + 1;
    }
    proof {
        assert(e.transitions@.skip(e.transitions@.len() as int) =~= Seq::<Transition>::empty());
        lemma_refs_empty(crate::namedreference::refs_view(out@));
    }
}

/// Collect the repeater's model and list-view references.
fn collect_repeated_refs(e: &Element, out: &mut Vec<NamedReference>)
    ensures
        crate::namedreference::refs_view(final(out)@) == crate::namedreference::refs_view(
            old(out)@,
        ) + spec_repeated_refs(e.repeated),
{
    let ghost base = crate::namedreference::refs_view(old(out)@);
    match &e.repeated {
        Some(rei) => {
            crate::expression::named_references_in_expression(&rei.model, out);
            match &rei.is_listview {
                Some(lv) => {
                    push_ref_ot(out, &lv.viewport_y);
                    push_ref_ot(out, &lv.viewport_height);
                    push_ref_ot(out, &lv.viewport_width);
                    push_ref_ot(out, &lv.listview_height);
                    push_ref_ot(out, &lv.listview_width);
                }
                Option::None => {}
            }
        }
        Option::None => {}
    }
    proof {
        assert(crate::namedreference::refs_view(out@) =~= base + spec_repeated_refs(e.repeated));
    }
}

/// Collect the layout-info property pair.
fn collect_layout_refs(e: &Element, out: &mut Vec<NamedReference>)
    ensures
        crate::namedreference::refs_view(final(out)@) == crate::namedreference::refs_view(
            old(out)@,
        ) + spec_layout_prop_refs(e.layout_info_prop),
{
    let ghost base = crate::namedreference::refs_view(old(out)@);
    match &e.layout_info_prop {
        Some((h, v)) => {
            push_ref_ot(out, h);
            push_ref_ot(out, v);
        }
        Option::None => {}
    }
    proof {
        assert(crate::namedreference::refs_view(out@) =~= base + spec_layout_prop_refs(
            e.layout_info_prop,
        ));
    }
}

/// Collect the alias targets of the property declarations.
fn collect_alias_refs(e: &Element, out: &mut Vec<NamedReference>)
    ensures
        crate::namedreference::refs_view(final(out)@) == crate::namedreference::refs_view(
            old(out)@,
        ) + spec_decl_alias_refs(e.property_declarations@),
{
    let ghost base = crate::namedreference::refs_view(old(out)@);
    let mut i: usize = 0;
    proof {
        assert(e.property_declarations@.skip(0) =~= e.property_declarations@);
        lemma_refs_empty(base);
    }
    while i < e.property_declarations.len()
        invariant
            0 <= i <= e.property_declarations@.len(),
            crate::namedreference::refs_view(out@) + spec_decl_alias_refs(
                e.property_declarations@.skip(i as int),
            ) == base + spec_decl_alias_refs(e.property_declarations@),
        decreases e.property_declarations@.len() - i,
    {
        proof {
            assert(e.property_declarations@.skip(i as int)[0] == e.property_declarations@[
                i as int
            ]);
            assert(e.property_declarations@.skip(i as int).skip(1)
                =~= e.property_declarations@.skip(i as int + 1));
        }
        let ghost pre = crate::namedreference::refs_view(out@);
        match &e.property_declarations[i].1.is_alias {
            Some(a) => {
                push_ref_ot(out, a);
            }
            Option::None => {}
        }
        proof {
            lemma_refs_assoc_ot(
                pre,
                (match e.property_declarations@[i as int].1.is_alias {
                    Some(a) => seq![crate::namedreference::nr_view(a)],
                    Option::None => Seq::empty(),
                }),
                spec_decl_alias_refs(e.property_declarations@.skip(i as int + 1)),
            );
            lemma_refs_empty(pre);
        }
        i = i + 1;
    }
    proof {
        assert(e.property_declarations@.skip(e.property_declarations@.len() as int) =~= Seq::<
            (String, PropertyDeclaration),
        >::empty());
        lemma_refs_empty(crate::namedreference::refs_view(out@));
    }
}

/// Collect the state expressions of transition animations.
fn collect_animation_refs(e: &Element, out: &mut Vec<NamedReference>)
    ensures
        crate::namedreference::refs_view(final(out)@) == crate::namedreference::refs_view(
            old(out)@,
        ) + spec_animations_refs(e.property_animations@),
{
    let ghost base = crate::namedreference::refs_view(old(out)@);
    let mut i: usize = 0;
    proof {
        assert(e.property_animations@.skip(0) =~= e.property_animations@);
        lemma_refs_empty(base);
    }
    while i < e.property_animations.len()
        invariant
            0 <= i <= e.property_animations@.len(),
            crate::namedreference::refs_view(out@) + spec_animations_refs(
                e.property_animations@.skip(i as int),
            ) == base + spec_animations_refs(e.property_animations@),
        decreases e.property_animations@.len() - i,
    {
        proof {
            assert(e.property_animations@.skip(i as int)[0] == e.property_animations@[
                i as int
            ]);
            assert(e.property_animations@.skip(i as int).skip(1)
                =~= e.property_animations@.skip(i as int + 1));
        }
        let ghost pre = crate::namedreference::refs_view(out@);
        match &e.property_animations[i].1 {
            PropertyAnimation::Transition { state_ref, .. } => {
                crate::expression::named_references_in_expression(state_ref, out);
            }
            PropertyAnimation::Static(_) => {}
        }
        proof {
            lemma_refs_assoc_ot(
                pre,
                (match e.property_animations@[i as int].1 {
                    PropertyAnimation::Transition { state_ref, .. } => {
                        crate::expression::spec_expr_refs(state_ref)
                    }
                    PropertyAnimation::Static(_) => Seq::empty(),
                }),
                spec_animations_refs(e.property_animations@.skip(i as int + 1)),
            );
            lemma_refs_empty(pre);
        }
        i = i + 1;
    }
    proof {
        assert(e.property_animations@.skip(e.property_animations@.len() as int) =~= Seq::<
            (String, PropertyAnimation),
        >::empty());
        lemma_refs_empty(crate::namedreference::refs_view(out@));
    }
}

/// Concatenation of reference models is associative.
proof fn lemma_refs_assoc_ot(
    a: Seq<(int, Seq<char>)>,
    b: Seq<(int, Seq<char>)>,
    c: Seq<(int, Seq<char>)>,
)
    ensures
        (a + b) + c =~= a + (b + c),
{
}

/// The empty reference model is a right identity.
proof fn lemma_refs_empty(a: Seq<(int, Seq<char>)>)
    ensures
        a + Seq::<(int, Seq<char>)>::empty() =~= a,
{
}

/// Push one reference, extending the model by its view.
fn push_ref_ot(out: &mut Vec<NamedReference>, nr: &NamedReference)
    ensures
        crate::namedreference::refs_view(final(out)@) == crate::namedreference::refs_view(
            old(out)@,
        ) + seq![crate::namedreference::nr_view(*nr)],
{
    broadcast use crate::namedreference::group_refs_view_lemmas;

    out.push(nr.duplicate());
    proof {
        assert(crate::namedreference::refs_view(out@) =~= crate::namedreference::refs_view(
            old(out)@,
        ) + seq![crate::namedreference::nr_view(*nr)]);
    }
}


impl ObjectTree {
    /// Record that an expression assigns to a property: the analysis entry is
    /// created if needed and marked as set.
    pub fn mark_property_set(&mut self, elem: usize, name: &str)
        requires
            tree_wf(*old(self)),
            elem < old(self).elements@.len(),
        ensures
            tree_wf(*final(self)),
            final(self).elements@.len() == old(self).elements@.len(),
            forall|i: int|
                0 <= i < old(self).elements@.len() && i != elem ==> final(self).elements@[i]
                    == old(self).elements@[i],
            final(self).components@ == old(self).components@,
            final(self).builtins@ == old(self).builtins@,
            final(self).natives@ == old(self).natives@,
    {
        let ghost oldtree = *self;
        let mut e = self.take_element(elem);
        let mut i: usize = 0;
        let n = e.property_analysis.len();
        let mut updated = false;
        while i < n
            invariant
                0 <= i <= n,
                n == e.property_analysis@.len(),
                updated ==> i == n,
                e.children@ == oldtree.elements@[elem as int].children@,
                e.base_type == oldtree.elements@[elem as int].base_type,
                e.enclosing_component == oldtree.elements@[elem as int].enclosing_component,
            decreases n - i,
        {
            if str_eq(e.property_analysis[i].0.as_str(), name) {
                let name_owned = e.property_analysis[i].0.clone();
                let prev = e.property_analysis[i].1;
                e.property_analysis.set(
                    i,
                    (name_owned, PropertyAnalysis { is_set: true, is_read: prev.is_read }),
                );
                updated = true;
                i = n;
            } else {
                i = i + 1;
            }
        }
        if !updated {
            e.property_analysis.push(
                (String::from_str(name), PropertyAnalysis { is_set: true, is_read: false }),
            );
        }
        self.put_element(elem, e);
        proof {
            assert forall|i2: int| 0 <= i2 < self.elements@.len() implies elem_wf(*self, i2) by {
                assert(elem_wf(oldtree, i2));
                if i2 != elem as int {
                    assert(self.elements@[i2] == oldtree.elements@[i2]);
                } else {
                    assert(self.elements@[i2].children@ == oldtree.elements@[i2].children@);
                    assert(self.elements@[i2].base_type == oldtree.elements@[i2].base_type);
                    assert(self.elements@[i2].enclosing_component == oldtree.elements@[
                        i2
                    ].enclosing_component);
                }
            }
        }
    }
}


impl TransitionPropertyAnimation {
    /// An expression that is true while the transition is active: it
    /// compares the relevant field of the state property against this
    /// transition's state index.
    pub fn condition(&self, state: Expression) -> (r: Expression)
        ensures
            r matches Expression::BinaryExpression { lhs, rhs, op } && op == '=' && (*rhs
                matches Expression::NumberLiteral(v, u) && v as int == self.state_id as int
                * 1000000 && u == crate::units::Unit::Unitless) && (*lhs matches
                Expression::StructFieldAccess { base, name } && *base == state && name@ == (
            if self.is_out {
                "previous_state"@
            } else {
                "current_state"@
            })),
    {
        let field = if self.is_out {
            String::from_str("previous_state")
        } else {
            String::from_str("current_state")
        };
        Expression::BinaryExpression {
            lhs: Box::new(Expression::StructFieldAccess { base: Box::new(state), name: field }),
            rhs: Box::new(Expression::NumberLiteral(
                (self.state_id as i128) * 1000000,
                crate::units::Unit::Unitless,
            )),
            op: '=',
        }
    }
}

impl ObjectTree {
    /// The builtin element class at the bottom of an element's base chain,
    /// if the chain ends in one.
    pub fn builtin_type_of(&self, elem: usize) -> (r: Option<usize>)
        requires
            tree_wf(*self),
            elem < self.elements@.len(),
        ensures
            (match r {
                Some(b) => b < self.builtins@.len(),
                Option::None => true,
            }),
        decreases elem,
    {
        proof {
            assert(elem_wf(*self, elem as int));
        }
        match &self.elements[elem].base_type {
            Type::Builtin(b) => Some(*b),
            Type::Component(c) => {
                let root = self.components[*c].root_element;
                // The walk only descends towards smaller indices.
                if root < elem {
                    self.builtin_type_of(root)
                } else {
                    Option::None
                }
            }
            _ => Option::None,
        }
    }

    /// The native class at the bottom of an element's base chain, if any:
    /// the one of the final builtin, or a native base itself.
    pub fn native_class_of(&self, elem: usize) -> (r: Option<usize>)
        requires
            tree_wf(*self),
            elem < self.elements@.len(),
        decreases elem,
    {
        proof {
            assert(elem_wf(*self, elem as int));
        }
        match &self.elements[elem].base_type {
            Type::Builtin(b) => Some(self.builtins[*b].native_class),
            Type::Native(n) => Some(*n),
            Type::Component(c) => {
                let root = self.components[*c].root_element;
                if root < elem {
                    self.native_class_of(root)
                } else {
                    Option::None
                }
            }
            _ => Option::None,
        }
    }

    /// The layout-info property of an element for one orientation.
    pub fn layout_info_prop_of(&self, elem: usize, horizontal: bool) -> (r: Option<
        NamedReference,
    >)
        requires
            elem < self.elements@.len(),
        ensures
            (match self.elements@[elem as int].layout_info_prop {
                Some((h, v)) => r matches Some(nr) && (horizontal ==> nr.element == h.element
                    && nr.name@ == h.name@) && (!horizontal ==> nr.element == v.element
                    && nr.name@ == v.name@),
                Option::None => r is None,
            }),
    {
        match &self.elements[elem].layout_info_prop {
            Some((h, v)) => {
                if horizontal {
                    Some(h.duplicate())
                } else {
                    Some(v.duplicate())
                }
            }
            Option::None => Option::None,
        }
    }
}


/// The depth-first preorder of a subtree: the element itself, then each
/// child's preorder in order. A child index that is not strictly below its
/// parent contributes nothing, which the well-formed tree rules out.
pub open spec fn spec_preorder(tree: ObjectTree, root: int) -> Seq<usize>
    decreases root, 1int,
{
    if !(0 <= root < tree.elements@.len()) {
        Seq::empty()
    } else {
        seq![root as usize] + spec_preorder_children(
            tree,
            tree.elements@[root].children@,
            root,
        )
    }
}

pub open spec fn spec_preorder_children(
    tree: ObjectTree,
    children: Seq<usize>,
    parent: int,
) -> Seq<usize>
    decreases parent, 0int, children,
{
    if children.len() == 0 {
        Seq::empty()
    } else {
        (if children[0] < parent {
            spec_preorder(tree, children[0] as int)
        } else {
            Seq::empty()
        }) + spec_preorder_children(tree, children.skip(1), parent)
    }
}

/// A preorder depends only on the child lists: two stores of equal length
/// whose elements have the same children walk the same subtrees.
pub proof fn lemma_preorder_same_children(a: ObjectTree, b: ObjectTree, root: int)
    requires
        a.elements@.len() == b.elements@.len(),
        forall|i: int|
            0 <= i < a.elements@.len() ==> (#[trigger] b.elements@[i]).children@
                == a.elements@[i].children@,
    ensures
        spec_preorder(a, root) == spec_preorder(b, root),
    decreases root, 1int,
{
    if 0 <= root < a.elements@.len() {
        lemma_preorder_children_same(a, b, a.elements@[root].children@, root);
    }
}

pub proof fn lemma_preorder_children_same(
    a: ObjectTree,
    b: ObjectTree,
    children: Seq<usize>,
    parent: int,
)
    requires
        a.elements@.len() == b.elements@.len(),
        forall|i: int|
            0 <= i < a.elements@.len() ==> (#[trigger] b.elements@[i]).children@
                == a.elements@[i].children@,
    ensures
        spec_preorder_children(a, children, parent) == spec_preorder_children(
            b,
            children,
            parent,
        ),
    decreases parent, 0int, children,
{
    if children.len() > 0 {
        if children[0] < parent {
            lemma_preorder_same_children(a, b, children[0] as int);
        }
        lemma_preorder_children_same(a, b, children.skip(1), parent);
    }
}

/// Every entry of a preorder walk is a valid element index at or below the
/// walk's root.
pub proof fn lemma_preorder_in_range(tree: ObjectTree, root: int)
    ensures
        forall|j: int|
            0 <= j < spec_preorder(tree, root).len() ==> ((#[trigger] spec_preorder(
                tree,
                root,
            )[j]) as int <= root && ((spec_preorder(tree, root)[j]) as int)
                < tree.elements@.len()),
    decreases root, 1int,
{
    if 0 <= root < tree.elements@.len() {
        lemma_preorder_children_in_range(tree, tree.elements@[root].children@, root);
        assert forall|j: int|
            0 <= j < spec_preorder(tree, root).len() implies ((#[trigger] spec_preorder(
            tree,
            root,
        )[j]) as int <= root && ((spec_preorder(tree, root)[j]) as int)
            < tree.elements@.len()) by {
            if j > 0 {
                assert(spec_preorder(tree, root)[j] == spec_preorder_children(
                    tree,
                    tree.elements@[root].children@,
                    root,
                )[j - 1]);
            }
        }
    }
}

pub proof fn lemma_preorder_children_in_range(
    tree: ObjectTree,
    children: Seq<usize>,
    parent: int,
)
    ensures
        forall|j: int|
            0 <= j < spec_preorder_children(tree, children, parent).len() ==> (((
            #[trigger] spec_preorder_children(tree, children, parent)[j]) as int) < parent && ((
            spec_preorder_children(tree, children, parent)[j]) as int)
                < tree.elements@.len()),
    decreases parent, 0int, children,
{
    if children.len() > 0 {
        let head = if children[0] < parent {
            spec_preorder(tree, children[0] as int)
        } else {
            Seq::<usize>::empty()
        };
        if children[0] < parent {
            lemma_preorder_in_range(tree, children[0] as int);
        }
        lemma_preorder_children_in_range(tree, children.skip(1), parent);
        assert forall|j: int|
            0 <= j < spec_preorder_children(tree, children, parent).len() implies (((
        #[trigger] spec_preorder_children(tree, children, parent)[j]) as int) < parent && ((
        spec_preorder_children(tree, children, parent)[j]) as int)
            < tree.elements@.len()) by {
            if j < head.len() {
                assert(spec_preorder_children(tree, children, parent)[j] == head[j]);
            } else {
                assert(spec_preorder_children(tree, children, parent)[j]
                    == spec_preorder_children(tree, children.skip(1), parent)[j - head.len()]);
            }
        }
    }
}

/// Every entry of a child-list walk lies in the walk of one of the
/// children.
pub proof fn lemma_preorder_children_index(
    tree: ObjectTree,
    children: Seq<usize>,
    parent: int,
    j: int,
)
    requires
        0 <= j < spec_preorder_children(tree, children, parent).len(),
    ensures
        exists|t: int, jj: int|
            0 <= t < children.len() && children[t] < parent && 0 <= jj < spec_preorder(
                tree,
                children[t] as int,
            ).len() && spec_preorder_children(tree, children, parent)[j] == spec_preorder(
                tree,
                children[t] as int,
            )[jj],
    decreases parent, 0int, children,
{
    let head = if children[0] < parent {
        spec_preorder(tree, children[0] as int)
    } else {
        Seq::<usize>::empty()
    };
    if j < head.len() {
        assert(spec_preorder_children(tree, children, parent)[j] == spec_preorder(
            tree,
            children[0] as int,
        )[j]);
    } else {
        lemma_preorder_children_index(tree, children.skip(1), parent, j - head.len());
        let (t0, jj0) = choose|t: int, jj: int|
            0 <= t < children.skip(1).len() && children.skip(1)[t] < parent && 0 <= jj
                < spec_preorder(tree, children.skip(1)[t] as int).len()
                && spec_preorder_children(tree, children.skip(1), parent)[j - head.len()]
                == spec_preorder(tree, children.skip(1)[t] as int)[jj];
        assert(children.skip(1)[t0] == children[t0 + 1]);
        assert(spec_preorder_children(tree, children, parent)[j] == spec_preorder_children(
            tree,
            children.skip(1),
            parent,
        )[j - head.len()]);
        assert(spec_preorder_children(tree, children, parent)[j] == spec_preorder(
            tree,
            children[t0 + 1] as int,
        )[jj0]);
    }
}

/// The first element of a subtree carrying the given id, in preorder,
/// without descending into repeated templates.
pub open spec fn spec_find_by_id(tree: ObjectTree, from: int, name: Seq<char>) -> Option<usize>
    decreases from, 1int,
{
    if !(0 <= from < tree.elements@.len()) {
        Option::None
    } else if tree.elements@[from].id@ == name {
        Some(from as usize)
    } else {
        spec_find_by_id_children(tree, tree.elements@[from].children@, from, name)
    }
}

pub open spec fn spec_find_by_id_children(
    tree: ObjectTree,
    children: Seq<usize>,
    parent: int,
    name: Seq<char>,
) -> Option<usize>
    decreases parent, 0int, children,
{
    if children.len() == 0 {
        Option::None
    } else {
        let head = if children[0] < parent && 0 <= children[0]
            < tree.elements@.len() && tree.elements@[children[0] as int].repeated is None {
            spec_find_by_id(tree, children[0] as int, name)
        } else {
            Option::None
        };
        match head {
            Some(i) => Some(i),
            Option::None => spec_find_by_id_children(tree, children.skip(1), parent, name),
        }
    }
}

/// The parent of an element within a subtree, found by exhaustive search.
pub open spec fn spec_find_parent(tree: ObjectTree, base: int, needle: usize) -> Option<usize>
    decreases base, 1int,
{
    if !(0 <= base < tree.elements@.len()) {
        Option::None
    } else {
        spec_find_parent_children(tree, tree.elements@[base].children@, base, needle)
    }
}

pub open spec fn spec_find_parent_children(
    tree: ObjectTree,
    children: Seq<usize>,
    parent: int,
    needle: usize,
) -> Option<usize>
    decreases parent, 0int, children,
{
    if children.len() == 0 {
        Option::None
    } else if children[0] == needle {
        Some(parent as usize)
    } else {
        let sub = if children[0] < parent {
            spec_find_parent(tree, children[0] as int, needle)
        } else {
            Option::None
        };
        match sub {
            Some(i) => Some(i),
            Option::None => spec_find_parent_children(
                tree,
                children.skip(1),
                parent,
                needle,
            ),
        }
    }
}


/// The reference model of one element: every named reference stored anywhere
/// in it, in the fixed field order the collector uses — binding expressions,
/// states, transitions, the repeater, the layout-info pair, declaration
/// aliases, and transition-animation state expressions.
pub open spec fn spec_element_refs(e: Element) -> Seq<(int, Seq<char>)> {
    crate::expression::spec_path_bindings_refs(e.bindings@) + spec_states_refs(e.states@)
        + spec_transitions_refs(e.transitions@) + spec_repeated_refs(e.repeated)
        + spec_layout_prop_refs(e.layout_info_prop) + spec_decl_alias_refs(
        e.property_declarations@,
    ) + spec_animations_refs(e.property_animations@)
}

pub open spec fn spec_states_refs(s: Seq<State>) -> Seq<(int, Seq<char>)>
    decreases s, 1int,
{
    if s.len() == 0 {
        Seq::empty()
    } else {
        (match s[0].condition {
            Some(c) => crate::expression::spec_expr_refs(c),
            Option::None => Seq::empty(),
        }) + spec_changes_refs(s[0].property_changes@) + spec_states_refs(s.skip(1))
    }
}

pub open spec fn spec_changes_refs(s: Seq<(NamedReference, Expression)>) -> Seq<
    (int, Seq<char>),
>
    decreases s, 0int,
{
    if s.len() == 0 {
        Seq::empty()
    } else {
        seq![crate::namedreference::nr_view(s[0].0)] + crate::expression::spec_expr_refs(
            s[0].1,
        ) + spec_changes_refs(s.skip(1))
    }
}

pub open spec fn spec_transitions_refs(s: Seq<Transition>) -> Seq<(int, Seq<char>)>
    decreases s, 1int,
{
    if s.len() == 0 {
        Seq::empty()
    } else {
        spec_transition_anim_refs(s[0].property_animations@) + spec_transitions_refs(s.skip(1))
    }
}

pub open spec fn spec_transition_anim_refs(s: Seq<(NamedReference, crate::diagnostics::Span, usize)>) -> Seq<
    (int, Seq<char>),
>
    decreases s, 0int,
{
    if s.len() == 0 {
        Seq::empty()
    } else {
        seq![crate::namedreference::nr_view(s[0].0)] + spec_transition_anim_refs(s.skip(1))
    }
}

pub open spec fn spec_repeated_refs(r: Option<RepeatedElementInfo>) -> Seq<(int, Seq<char>)> {
    match r {
        Some(rei) => crate::expression::spec_expr_refs(rei.model) + (match rei.is_listview {
            Some(lv) => seq![
                crate::namedreference::nr_view(lv.viewport_y),
                crate::namedreference::nr_view(lv.viewport_height),
                crate::namedreference::nr_view(lv.viewport_width),
                crate::namedreference::nr_view(lv.listview_height),
                crate::namedreference::nr_view(lv.listview_width),
            ],
            Option::None => Seq::empty(),
        }),
        Option::None => Seq::empty(),
    }
}

pub open spec fn spec_layout_prop_refs(r: Option<(NamedReference, NamedReference)>) -> Seq<
    (int, Seq<char>),
> {
    match r {
        Some((h, v)) => seq![
            crate::namedreference::nr_view(h),
            crate::namedreference::nr_view(v),
        ],
        Option::None => Seq::empty(),
    }
}

pub open spec fn spec_decl_alias_refs(s: Seq<(String, PropertyDeclaration)>) -> Seq<
    (int, Seq<char>),
>
    decreases s,
{
    if s.len() == 0 {
        Seq::empty()
    } else {
        (match s[0].1.is_alias {
            Some(a) => seq![crate::namedreference::nr_view(a)],
            Option::None => Seq::empty(),
        }) + spec_decl_alias_refs(s.skip(1))
    }
}

pub open spec fn spec_animations_refs(s: Seq<(String, PropertyAnimation)>) -> Seq<
    (int, Seq<char>),
>
    decreases s,
{
    if s.len() == 0 {
        Seq::empty()
    } else {
        (match s[0].1 {
            PropertyAnimation::Transition { state_ref, .. } => crate::expression::spec_expr_refs(
                state_ref,
            ),
            PropertyAnimation::Static(_) => Seq::empty(),
        }) + spec_animations_refs(s.skip(1))
    }
}

/// The reference model of a whole component: every element of its tree in
/// preorder, then the root layout constraints, then the popup positions.
pub open spec fn spec_component_refs(tree: ObjectTree, c: int) -> Seq<(int, Seq<char>)> {
    spec_elements_refs(tree, spec_preorder(tree, tree.components@[c].root_element as int))
        + spec_constraints_refs(tree.components@[c].root_constraints) + spec_popups_refs(
        tree.components@[c].popup_windows@,
    )
}

/// The base components of the repeated elements among the given element
/// indices, in order.
pub open spec fn spec_repeated_bases(tree: ObjectTree, ids: Seq<usize>) -> Seq<usize>
    decreases ids,
{
    if ids.len() == 0 {
        Seq::empty()
    } else {
        (if 0 <= ids[0] < tree.elements@.len() && tree.elements@[ids[0] as int].repeated
            is Some {
            match tree.elements@[ids[0] as int].base_type {
                Type::Component(cb) => seq![cb],
                _ => Seq::empty(),
            }
        } else {
            Seq::empty()
        }) + spec_repeated_bases(tree, ids.skip(1))
    }
}

/// The components a list of popup windows opens.
pub open spec fn spec_popup_component_ids(pws: Seq<PopupWindow>) -> Seq<usize>
    decreases pws,
{
    if pws.len() == 0 {
        Seq::empty()
    } else {
        seq![pws[0].component] + spec_popup_component_ids(pws.skip(1))
    }
}

/// The direct sub-components of a component: the base components of its
/// repeated elements and the components of its popup windows.
pub open spec fn spec_sub_components(tree: ObjectTree, c: int) -> Seq<usize> {
    spec_repeated_bases(tree, spec_preorder(tree, tree.components@[c].root_element as int))
        + spec_popup_component_ids(tree.components@[c].popup_windows@)
}

/// Every named reference a component can reach: its own reference model,
/// then, while the depth lasts, the references of its direct
/// sub-components. A depth of one step per component in the store covers
/// every simple chain of templates.
pub open spec fn spec_deep_refs(tree: ObjectTree, c: int, fuel: nat) -> Seq<(int, Seq<char>)>
    decreases fuel, 0int, 0int,
{
    spec_component_refs(tree, c) + (if fuel == 0 {
        Seq::<(int, Seq<char>)>::empty()
    } else {
        spec_deep_refs_list(tree, spec_sub_components(tree, c), (fuel - 1) as nat)
    })
}

pub open spec fn spec_deep_refs_list(tree: ObjectTree, subs: Seq<usize>, fuel: nat) -> Seq<
    (int, Seq<char>),
>
    decreases fuel, 1int, subs.len(),
{
    if subs.len() == 0 {
        Seq::empty()
    } else {
        spec_deep_refs(tree, subs[0] as int, fuel) + spec_deep_refs_list(
            tree,
            subs.skip(1),
            fuel,
        )
    }
}

/// In a well-formed tree every repeated-element base in the list is a valid
/// component index.
pub proof fn lemma_repeated_bases_in_range(tree: ObjectTree, ids: Seq<usize>)
    requires
        tree_wf(tree),
    ensures
        forall|k: int|
            0 <= k < spec_repeated_bases(tree, ids).len() ==> (#[trigger] spec_repeated_bases(
                tree,
                ids,
            )[k]) < tree.components@.len(),
    decreases ids,
{
    if ids.len() > 0 {
        lemma_repeated_bases_in_range(tree, ids.skip(1));
        if 0 <= ids[0] < tree.elements@.len() {
            assert(elem_wf(tree, ids[0] as int));
        }
        assert forall|k: int|
            0 <= k < spec_repeated_bases(tree, ids).len() implies (
        #[trigger] spec_repeated_bases(tree, ids)[k]) < tree.components@.len() by {
            let head = spec_repeated_bases(tree, ids).len() - spec_repeated_bases(
                tree,
                ids.skip(1),
            ).len();
            if k >= head {
                assert(spec_repeated_bases(tree, ids)[k] == spec_repeated_bases(
                    tree,
                    ids.skip(1),
                )[k - head]);
            }
        }
    }
}

/// In a well-formed tree every popup component in the list is a valid
/// component index.
pub proof fn lemma_popup_ids_in_range(tree: ObjectTree, pws: Seq<PopupWindow>)
    requires
        forall|p: int|
            0 <= p < pws.len() ==> (#[trigger] pws[p]).component < tree.components@.len(),
    ensures
        forall|k: int|
            0 <= k < spec_popup_component_ids(pws).len() ==> (
            #[trigger] spec_popup_component_ids(pws)[k]) < tree.components@.len(),
    decreases pws,
{
    if pws.len() > 0 {
        lemma_popup_ids_in_range(tree, pws.skip(1));
        assert forall|k: int|
            0 <= k < spec_popup_component_ids(pws).len() implies (
        #[trigger] spec_popup_component_ids(pws)[k]) < tree.components@.len() by {
            if k > 0 {
                assert(spec_popup_component_ids(pws)[k] == spec_popup_component_ids(
                    pws.skip(1),
                )[k - 1]);
            }
        }
    }
}

/// Every direct sub-component of a well-formed tree's component is a valid
/// component index.
pub proof fn lemma_sub_components_in_range(tree: ObjectTree, c: int)
    requires
        tree_wf(tree),
        0 <= c < tree.components@.len(),
    ensures
        forall|k: int|
            0 <= k < spec_sub_components(tree, c).len() ==> (#[trigger] spec_sub_components(
                tree,
                c,
            )[k]) < tree.components@.len(),
{
    let ids = spec_preorder(tree, tree.components@[c].root_element as int);
    let bases = spec_repeated_bases(tree, ids);
    let pops = spec_popup_component_ids(tree.components@[c].popup_windows@);
    lemma_repeated_bases_in_range(tree, ids);
    lemma_popup_ids_in_range(tree, tree.components@[c].popup_windows@);
    assert forall|k: int|
        0 <= k < spec_sub_components(tree, c).len() implies (#[trigger] spec_sub_components(
            tree,
            c,
        )[k]) < tree.components@.len() by {
        if k < bases.len() {
            assert(spec_sub_components(tree, c)[k] == bases[k]);
        } else {
            assert(spec_sub_components(tree, c)[k] == pops[k - bases.len()]);
        }
    }
}

pub open spec fn spec_elements_refs(tree: ObjectTree, ids: Seq<usize>) -> Seq<(int, Seq<char>)>
    decreases ids,
{
    if ids.len() == 0 {
        Seq::empty()
    } else {
        (if 0 <= ids[0] < tree.elements@.len() {
            spec_element_refs(tree.elements@[ids[0] as int])
        } else {
            Seq::empty()
        }) + spec_elements_refs(tree, ids.skip(1))
    }
}

pub open spec fn spec_constraints_refs(c: LayoutConstraints) -> Seq<(int, Seq<char>)> {
    (match c.min_width {
        Some(nr) => seq![crate::namedreference::nr_view(nr)],
        Option::None => Seq::empty(),
    }) + (match c.max_width {
        Some(nr) => seq![crate::namedreference::nr_view(nr)],
        Option::None => Seq::empty(),
    }) + (match c.min_height {
        Some(nr) => seq![crate::namedreference::nr_view(nr)],
        Option::None => Seq::empty(),
    }) + (match c.max_height {
        Some(nr) => seq![crate::namedreference::nr_view(nr)],
        Option::None => Seq::empty(),
    })
}

pub open spec fn spec_popups_refs(s: Seq<PopupWindow>) -> Seq<(int, Seq<char>)>
    decreases s,
{
    if s.len() == 0 {
        Seq::empty()
    } else {
        seq![
            crate::namedreference::nr_view(s[0].x),
            crate::namedreference::nr_view(s[0].y),
        ] + spec_popups_refs(s.skip(1))
    }
}


impl ObjectTree {
    /// The direct sub-components of a component, in the model's order:
    /// repeated-element bases over the subtree preorder, then the popup
    /// components.
    pub fn collect_sub_components(&self, c: usize) -> (r: Vec<usize>)
        requires
            tree_wf(*self),
            c < self.components@.len(),
        ensures
            r@ == spec_sub_components(*self, c as int),
    {
        let root = self.components[c].root_element;
        let elems = self.collect_subtree(root);
        let mut r: Vec<usize> = Vec::new();
        let mut i: usize = 0;
        proof {
            assert(elems@.skip(0) =~= elems@);
            assert(r@ + spec_repeated_bases(*self, elems@) =~= spec_repeated_bases(
                *self,
                elems@,
            ));
        }
        while i < elems.len()
            invariant
                tree_wf(*self),
                0 <= i <= elems@.len(),
                forall|k: int|
                    0 <= k < elems@.len() ==> (#[trigger] elems@[k]) < self.elements@.len(),
                r@ + spec_repeated_bases(*self, elems@.skip(i as int)) =~= spec_repeated_bases(
                    *self,
                    elems@,
                ),
            decreases elems@.len() - i,
        {
            proof {
                assert(elems@.skip(i as int)[0] == elems@[i as int]);
                assert(elems@.skip(i as int).skip(1) =~= elems@.skip(i as int + 1));
            }
            let e = elems[i];
            let ghost pre = r@;
            if self.elements[e].repeated.is_some() {
                match &self.elements[e].base_type {
                    Type::Component(cb) => {
                        r.push(*cb);
                        proof {
                            assert(r@ =~= pre + seq![*cb]);
                        }
                    }
                    _ => {}
                }
            }
            proof {
                assert(r@ + spec_repeated_bases(*self, elems@.skip(i as int + 1))
                    =~= spec_repeated_bases(*self, elems@));
            }
            i = i + 1;
        }
        proof {
            assert(elems@.skip(elems@.len() as int) =~= Seq::<usize>::empty());
            assert(r@ =~= spec_repeated_bases(*self, elems@));
        }
        let ghost bases = r@;
        let n = self.components[c].popup_windows.len();
        let mut j: usize = 0;
        proof {
            assert(self.components@[c as int].popup_windows@.skip(0) =~= self.components@[
                c as int
            ].popup_windows@);
        }
        while j < n
            invariant
                tree_wf(*self),
                c < self.components@.len(),
                n == self.components@[c as int].popup_windows@.len(),
                0 <= j <= n,
                r@ + spec_popup_component_ids(
                    self.components@[c as int].popup_windows@.skip(j as int),
                ) =~= bases + spec_popup_component_ids(
                    self.components@[c as int].popup_windows@,
                ),
            decreases n - j,
        {
            proof {
                assert(self.components@[c as int].popup_windows@.skip(j as int)[0]
                    == self.components@[c as int].popup_windows@[j as int]);
                assert(self.components@[c as int].popup_windows@.skip(j as int).skip(1)
                    =~= self.components@[c as int].popup_windows@.skip(j as int + 1));
            }
            let ghost pre = r@;
            r.push(self.components[c].popup_windows[j].component);
            proof {
                assert(r@ =~= pre + seq![
                    self.components@[c as int].popup_windows@[j as int].component,
                ]);
                assert(r@ + spec_popup_component_ids(
                    self.components@[c as int].popup_windows@.skip(j as int + 1),
                ) =~= bases + spec_popup_component_ids(
                    self.components@[c as int].popup_windows@,
                ));
            }
            j = j + 1;
        }
        proof {
            assert(self.components@[c as int].popup_windows@.skip(n as int) =~= Seq::<
                PopupWindow,
            >::empty());
            assert(r@ =~= spec_sub_components(*self, c as int));
        }
        r
    }

    /// Collect the named references of a component and, to the given depth,
    /// of its repeated and popup sub-components, appended to `out`.
    pub fn collect_named_references_deep(
        &self,
        c: usize,
        fuel: usize,
        out: &mut Vec<NamedReference>,
    )
        requires
            tree_wf(*self),
            c < self.components@.len(),
        ensures
            crate::namedreference::refs_view(final(out)@) == crate::namedreference::refs_view(
                old(out)@,
            ) + spec_deep_refs(*self, c as int, fuel as nat),
        decreases fuel,
    {
        broadcast use crate::namedreference::group_refs_view_lemmas;

        let ghost base = crate::namedreference::refs_view(out@);
        let mut own = self.collect_named_references_in_component(c);
        let ghost own_v = crate::namedreference::refs_view(own@);
        out.append(&mut own);
        proof {
            assert(crate::namedreference::refs_view(out@) =~= base + own_v);
        }
        if fuel == 0 {
            proof {
                assert(spec_deep_refs(*self, c as int, 0nat) =~= spec_component_refs(
                    *self,
                    c as int,
                ));
                assert(crate::namedreference::refs_view(out@) =~= base + spec_deep_refs(
                    *self,
                    c as int,
                    0nat,
                ));
            }
            return ;
        }
        let subs = self.collect_sub_components(c);
        proof {
            lemma_sub_components_in_range(*self, c as int);
            assert(subs@.skip(0) =~= subs@);
        }
        let ghost after_own = crate::namedreference::refs_view(out@);
        let mut k: usize = 0;
        while k < subs.len()
            invariant
                tree_wf(*self),
                fuel >= 1,
                subs@ == spec_sub_components(*self, c as int),
                forall|t: int|
                    0 <= t < subs@.len() ==> (#[trigger] subs@[t]) < self.components@.len(),
                0 <= k <= subs@.len(),
                crate::namedreference::refs_view(out@) + spec_deep_refs_list(
                    *self,
                    subs@.skip(k as int),
                    (fuel - 1) as nat,
                ) =~= after_own + spec_deep_refs_list(*self, subs@, (fuel - 1) as nat),
                after_own == base + spec_component_refs(*self, c as int),
            decreases subs@.len() - k,
        {
            proof {
                assert(subs@.skip(k as int)[0] == subs@[k as int]);
                assert(subs@.skip(k as int).skip(1) =~= subs@.skip(k as int + 1));
            }
            self.collect_named_references_deep(subs[k], fuel - 1, out);
            proof {
                assert(crate::namedreference::refs_view(out@) + spec_deep_refs_list(
                    *self,
                    subs@.skip(k as int + 1),
                    (fuel - 1) as nat,
                ) =~= after_own + spec_deep_refs_list(*self, subs@, (fuel - 1) as nat));
            }
            k = k + 1;
        }
        proof {
            assert(subs@.skip(subs@.len() as int) =~= Seq::<usize>::empty());
            assert(crate::namedreference::refs_view(out@) =~= base + spec_deep_refs(
                *self,
                c as int,
                fuel as nat,
            ));
        }
    }
}

} // verus!
