use vstd::prelude::*;

verus! {

/// The mathematical model of a named reference: the element index and the
/// property name.
pub open spec fn nr_view(nr: NamedReference) -> (int, Seq<char>) {
    (nr.element as int, nr.name@)
}

/// The models of a list of named references.
pub open spec fn refs_view(s: Seq<NamedReference>) -> Seq<(int, Seq<char>)> {
    Seq::new(
        s.len(),
        |i: int|
            if 0 <= i < s.len() {
                nr_view(s[i])
            } else {
                (0int, Seq::empty())
            },
    )
}

pub broadcast proof fn lemma_refs_view_len(s: Seq<NamedReference>)
    ensures
        #[trigger] refs_view(s).len() == s.len(),
{
}

pub broadcast proof fn lemma_refs_view_index(s: Seq<NamedReference>, i: int)
    requires
        0 <= i < s.len(),
    ensures
        #[trigger] refs_view(s)[i] == nr_view(s[i]),
{
}

pub broadcast group group_refs_view_lemmas {
    lemma_refs_view_len,
    lemma_refs_view_index,
}

/// A handle to "the property `name` on the element at index `element`",
/// used instead of embedding direct graph pointers inside expressions. The
/// element index refers into the object tree's element store and does not
/// keep anything alive; a stale index fails lookups explicitly.
pub struct NamedReference {
    pub element: usize,
    pub name: String,
}

impl NamedReference {
    pub fn new(element: usize, name: String) -> (r: NamedReference)
        ensures
            r.element == element,
            r.name@ == name@,
    {
        NamedReference { element, name }
    }

    /// The element index this reference points at.
    pub fn element(&self) -> (r: usize)
        ensures
            r == self.element,
    {
        self.element
    }

    /// The referenced property's name.
    pub fn name(&self) -> (r: &str)
        ensures
            r@ == self.name@,
    {
        self.name.as_str()
    }

    /// An identical reference.
    pub fn duplicate(&self) -> (r: NamedReference)
        ensures
            r.element == self.element,
            r.name@ == self.name@,
    {
        NamedReference { element: self.element, name: self.name.clone() }
    }

    /// Whether two references name the same property on the same element.
    pub fn same_as(&self, other: &NamedReference) -> (r: bool)
        ensures
            r == (self.element == other.element && self.name@ == other.name@),
    {
        self.element == other.element && crate::units::str_eq(
            self.name.as_str(),
            other.name.as_str(),
        )
    }
}

} // verus!
