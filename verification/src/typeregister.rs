use vstd::prelude::*;
use crate::langtype::{clone_type, type_view, Type, TypeV};
use crate::units::str_eq;

verus! {

broadcast use vstd::seq::group_seq_axioms;

/// A chainable namespace mapping type names to types. A document's local
/// register chains to the global builtin register through `parent`.
pub struct TypeRegister {
    pub entries: Vec<(String, Type)>,
    pub parent: Option<Box<TypeRegister>>,
    /// The builtin-element index that property animations instantiate, when
    /// the register provides one.
    pub property_animation_builtin: Option<usize>,
}

/// The type registered under a name, walking the parent chain; `Invalid`
/// when no register in the chain has the name.
pub open spec fn spec_registry_lookup(tr: TypeRegister, name: Seq<char>) -> TypeV
    decreases tr,
{
    match spec_entries_lookup(tr.entries@, name) {
        Some(t) => t,
        Option::None => match tr.parent {
            Some(p) => spec_registry_lookup(*p, name),
            Option::None => TypeV::Invalid,
        },
    }
}

/// The type stored in an entry list for a name.
pub open spec fn spec_entries_lookup(entries: Seq<(String, Type)>, name: Seq<char>) -> Option<
    TypeV,
>
    decreases entries,
{
    if entries.len() == 0 {
        Option::None
    } else if entries[0].0@ == name {
        Some(type_view(entries[0].1))
    } else {
        spec_entries_lookup(entries.skip(1), name)
    }
}

/// An entry list keeps every name it holds when a new entry is put in
/// front, and gains the new entry's name.
pub proof fn lemma_entries_lookup_after_insert(
    entries: Seq<(String, Type)>,
    e: (String, Type),
    name: Seq<char>,
)
    requires
        spec_entries_lookup(entries, name) is Some || e.0@ == name,
    ensures
        spec_entries_lookup(entries.insert(0, e), name) is Some,
{
    assert(entries.insert(0, e)[0] == e);
    if e.0@ != name {
        assert(entries.insert(0, e).skip(1) =~= entries);
    }
}

impl TypeRegister {
    /// An empty register chained to a parent.
    pub fn new(parent: Option<Box<TypeRegister>>) -> (r: TypeRegister)
        ensures
            r.entries@.len() == 0,
            r.parent == parent,
            r.property_animation_builtin is None,
    {
        TypeRegister { entries: Vec::new(), parent, property_animation_builtin: Option::None }
    }

    /// Register a type under a name; a later entry for the same name shadows
    /// an earlier one for new lookups.
    pub fn insert_type_with_name(&mut self, name: String, ty: Type)
        ensures
            final(self).entries@ == old(self).entries@.insert(0, (name, ty)),
            final(self).parent == old(self).parent,
            final(self).property_animation_builtin == old(self).property_animation_builtin,
    {
        self.entries.insert(0, (name, ty));
    }

    /// Look a name up through the register chain.
    pub fn lookup(&self, name: &str) -> (r: Type)
        ensures
            r@ == spec_registry_lookup(*self, name@),
        decreases *self,
    {
        let mut i: usize = 0;
        proof {
            assert(self.entries@.skip(0) =~= self.entries@);
        }
        while i < self.entries.len()
            invariant
                0 <= i <= self.entries@.len(),
                spec_entries_lookup(self.entries@, name@) == spec_entries_lookup(
                    self.entries@.skip(i as int),
                    name@,
                ),
            decreases self.entries@.len() - i,
        {
            proof {
                assert(self.entries@.skip(i as int)[0] == self.entries@[i as int]);
                assert(self.entries@.skip(i as int).skip(1) =~= self.entries@.skip(
                    i as int + 1,
                ));
            }
            if str_eq(self.entries[i].0.as_str(), name) {
                return clone_type(&self.entries[i].1);
            }
            i = i + 1;
        }
        proof {
            assert(self.entries@.skip(self.entries@.len() as int) =~= Seq::<
                (String, Type),
            >::empty());
        }
        match &self.parent {
            Some(p) => p.lookup(name),
            Option::None => Type::Invalid,
        }
    }

    /// Look up a dot-separated name: a plain name resolves through the
    /// chain; a two-part name resolves when the first part names an
    /// enumeration and the second one of its values.
    pub fn lookup_qualified(&self, members: &Vec<String>) -> (r: Type)
        ensures
            r@ == spec_lookup_qualified(*self, members@),
    {
        if members.len() == 1 {
            self.lookup(members[0].as_str())
        } else if members.len() == 2 {
            let t = self.lookup(members[0].as_str());
            proof {
                crate::langtype::lemma_view_tag(t);
            }
            match t {
                Type::Enumeration(en) => {
                    let mut i: usize = 0;
                    let mut found = false;
                    while i < en.values.len()
                        invariant
                            0 <= i <= en.values@.len(),
                            members@.len() == 2,
                            found == exists|j: int|
                                0 <= j < i && #[trigger] en@.values[j] == members@[1]@,
                        decreases en.values@.len() - i,
                    {
                        let ghost pre_found = found;
                        if str_eq(en.values[i].as_str(), members[1].as_str()) {
                            found = true;
                        }
                        proof {
                            assert(en@.values[i as int] == en.values@[i as int]@);
                            if found && !pre_found {
                                assert(en@.values[i as int] == members@[1]@);
                            }
                        }
                        i = i + 1;
                    }
                    proof {
                        assert(found == en@.values.contains(members@[1]@));
                    }
                    if found {
                        Type::Enumeration(en)
                    } else {
                        Type::Invalid
                    }
                }
                _ => Type::Invalid,
            }
        } else {
            Type::Invalid
        }
    }

    /// The element type that animates a property of the given type: the
    /// animation builtin for animatable value types, `Invalid` otherwise.
    pub fn property_animation_type_for_property(&self, ty: &Type) -> (r: Type)
        ensures
            r@ == spec_property_animation_type(*self, ty@),
    {
        let animatable = match ty {
            Type::Float32 => true,
            Type::Int32 => true,
            Type::Color => true,
            Type::Duration => true,
            Type::PhysicalLength => true,
            Type::LogicalLength => true,
            Type::Angle => true,
            Type::Percent => true,
            Type::Brush => true,
            _ => false,
        };
        if animatable {
            match self.property_animation_builtin {
                Some(b) => Type::Builtin(b),
                Option::None => Type::Invalid,
            }
        } else {
            Type::Invalid
        }
    }
}

pub open spec fn spec_lookup_qualified(tr: TypeRegister, members: Seq<String>) -> TypeV {
    if members.len() == 1 {
        spec_registry_lookup(tr, members[0]@)
    } else if members.len() == 2 {
        match spec_registry_lookup(tr, members[0]@) {
            TypeV::Enumeration(ev) => {
                if ev.values.contains(members[1]@) {
                    TypeV::Enumeration(ev)
                } else {
                    TypeV::Invalid
                }
            },
            _ => TypeV::Invalid,
        }
    } else {
        TypeV::Invalid
    }
}

/// Whether a property type can be animated.
pub open spec fn spec_animatable(v: TypeV) -> bool {
    match v {
        TypeV::Float32 => true,
        TypeV::Int32 => true,
        TypeV::Color => true,
        TypeV::Duration => true,
        TypeV::PhysicalLength => true,
        TypeV::LogicalLength => true,
        TypeV::Angle => true,
        TypeV::Percent => true,
        TypeV::Brush => true,
        _ => false,
    }
}

pub open spec fn spec_property_animation_type(tr: TypeRegister, v: TypeV) -> TypeV {
    if spec_animatable(v) {
        match tr.property_animation_builtin {
            Some(b) => TypeV::Builtin(b as int),
            Option::None => TypeV::Invalid,
        }
    } else {
        TypeV::Invalid
    }
}

} // verus!
