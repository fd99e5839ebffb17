use vstd::prelude::*;
use crate::units::{spec_unit_rank, Unit};

verus! {

broadcast use vstd::seq::group_seq_axioms;

/// One named field of a struct type; order in the list is declaration order.
pub struct StructField {
    pub name: String,
    pub ty: Type,
}

/// A named enumeration: its values and which of them is the default.
pub struct Enumeration {
    pub name: String,
    pub values: Vec<String>,
    pub default_value: usize,
}

/// A reference to one value of an enumeration.
pub struct EnumerationValue {
    pub value: usize,
    pub enumeration: Enumeration,
}

/// The closed set of value types of the language.
///
/// `Component`, `Builtin` and `Native` carry indices into the object tree's
/// component and builtin-element stores; they are reference-only markers.
pub enum Type {
    Invalid,
    Void,
    Int32,
    Float32,
    Str,
    Bool,
    Color,
    Duration,
    PhysicalLength,
    LogicalLength,
    Angle,
    Percent,
    Image,
    Brush,
    Easing,
    PathElements,
    Model,
    LayoutCache,
    ElementReference,
    /// A derived physical dimension: unit with integer exponent, canonically
    /// ordered by descending exponent, then unit rank.
    UnitProduct(Vec<(Unit, i32)>),
    Struct { fields: Vec<StructField>, name: Option<String> },
    Array(Box<Type>),
    Enumeration(Enumeration),
    Callback { return_type: Option<Box<Type>>, args: Vec<Type> },
    Function { return_type: Box<Type>, args: Vec<Type> },
    Component(usize),
    Builtin(usize),
    Native(usize),
    InferredProperty,
    InferredCallback,
}

/// The mathematical model of a `Type`; contracts compare these.
pub enum TypeV {
    Invalid,
    Void,
    Int32,
    Float32,
    Str,
    Bool,
    Color,
    Duration,
    PhysicalLength,
    LogicalLength,
    Angle,
    Percent,
    Image,
    Brush,
    Easing,
    PathElements,
    Model,
    LayoutCache,
    ElementReference,
    UnitProduct(Seq<(Unit, i32)>),
    Struct { fields: Seq<(Seq<char>, TypeV)>, name: Option<Seq<char>> },
    Array(Box<TypeV>),
    Enumeration(EnumerationV),
    Callback { return_type: Option<Box<TypeV>>, args: Seq<TypeV> },
    Function { return_type: Box<TypeV>, args: Seq<TypeV> },
    Component(int),
    Builtin(int),
    Native(int),
    InferredProperty,
    InferredCallback,
}

pub struct EnumerationV {
    pub name: Seq<char>,
    pub values: Seq<Seq<char>>,
    pub default_value: int,
}

impl View for Enumeration {
    type V = EnumerationV;

    open spec fn view(&self) -> EnumerationV {
        EnumerationV {
            name: self.name@,
            values: Seq::new(self.values@.len(), |i: int| self.values@[i]@),
            default_value: self.default_value as int,
        }
    }
}

/// The models of a list of types.
pub open spec fn types_view(s: Seq<Type>) -> Seq<TypeV>
    decreases s,
{
    Seq::new(
        s.len(),
        |i: int|
            if 0 <= i < s.len() {
                type_view(s[i])
            } else {
                TypeV::Invalid
            },
    )
}

/// The models of a struct's field list.
pub open spec fn fields_view(s: Seq<StructField>) -> Seq<(Seq<char>, TypeV)>
    decreases s,
{
    Seq::new(
        s.len(),
        |i: int|
            if 0 <= i < s.len() {
                (s[i].name@, type_view(s[i].ty))
            } else {
                (Seq::empty(), TypeV::Invalid)
            },
    )
}

pub broadcast group group_type_view_lemmas {
    lemma_types_view_len,
    lemma_types_view_index,
    lemma_fields_view_len,
    lemma_fields_view_index,
}

pub broadcast proof fn lemma_types_view_len(s: Seq<Type>)
    ensures
        #[trigger] types_view(s).len() == s.len(),
{
}

pub broadcast proof fn lemma_types_view_index(s: Seq<Type>, i: int)
    requires
        0 <= i < s.len(),
    ensures
        #[trigger] types_view(s)[i] == type_view(s[i]),
{
}

pub broadcast proof fn lemma_fields_view_len(s: Seq<StructField>)
    ensures
        #[trigger] fields_view(s).len() == s.len(),
{
}

pub broadcast proof fn lemma_fields_view_index(s: Seq<StructField>, i: int)
    requires
        0 <= i < s.len(),
    ensures
        #[trigger] fields_view(s)[i] == (s[i].name@, type_view(s[i].ty)),
{
}

/// The mathematical model of a type, defined recursively.
pub open spec fn type_view(t: Type) -> TypeV
    decreases t,
{
    match t {
        Type::Invalid => TypeV::Invalid,
        Type::Void => TypeV::Void,
        Type::Int32 => TypeV::Int32,
        Type::Float32 => TypeV::Float32,
        Type::Str => TypeV::Str,
        Type::Bool => TypeV::Bool,
        Type::Color => TypeV::Color,
        Type::Duration => TypeV::Duration,
        Type::PhysicalLength => TypeV::PhysicalLength,
        Type::LogicalLength => TypeV::LogicalLength,
        Type::Angle => TypeV::Angle,
        Type::Percent => TypeV::Percent,
        Type::Image => TypeV::Image,
        Type::Brush => TypeV::Brush,
        Type::Easing => TypeV::Easing,
        Type::PathElements => TypeV::PathElements,
        Type::Model => TypeV::Model,
        Type::LayoutCache => TypeV::LayoutCache,
        Type::ElementReference => TypeV::ElementReference,
        Type::UnitProduct(v) => TypeV::UnitProduct(v@),
        Type::Struct { fields, name } => TypeV::Struct {
            fields: fields_view(fields@),
            name: match name {
                Some(n) => Some(n@),
                None => None,
            },
        },
        Type::Array(t) => TypeV::Array(Box::new(type_view(*t))),
        Type::Enumeration(e) => TypeV::Enumeration(e@),
        Type::Callback { return_type, args } => TypeV::Callback {
            return_type: match return_type {
                Some(t) => Some(Box::new(type_view(*t))),
                None => None,
            },
            args: types_view(args@),
        },
        Type::Function { return_type, args } => TypeV::Function {
            return_type: Box::new(type_view(*return_type)),
            args: types_view(args@),
        },
        Type::Component(c) => TypeV::Component(c as int),
        Type::Builtin(b) => TypeV::Builtin(b as int),
        Type::Native(n) => TypeV::Native(n as int),
        Type::InferredProperty => TypeV::InferredProperty,
        Type::InferredCallback => TypeV::InferredCallback,
    }
}

impl View for Type {
    type V = TypeV;

    open spec fn view(&self) -> TypeV {
        type_view(*self)
    }
}

impl View for StructField {
    type V = (Seq<char>, TypeV);

    open spec fn view(&self) -> (Seq<char>, TypeV) {
        (self.name@, self.ty@)
    }
}


/// A discriminant for each type constructor, used to compare variants cheaply.
pub open spec fn spec_type_tag(t: Type) -> int {
    match t {
        Type::Invalid => 0,
        Type::Void => 1,
        Type::Int32 => 2,
        Type::Float32 => 3,
        Type::Str => 4,
        Type::Bool => 5,
        Type::Color => 6,
        Type::Duration => 7,
        Type::PhysicalLength => 8,
        Type::LogicalLength => 9,
        Type::Angle => 10,
        Type::Percent => 11,
        Type::Image => 12,
        Type::Brush => 13,
        Type::Easing => 14,
        Type::PathElements => 15,
        Type::Model => 16,
        Type::LayoutCache => 17,
        Type::ElementReference => 18,
        Type::UnitProduct(_) => 19,
        Type::Struct { .. } => 20,
        Type::Array(_) => 21,
        Type::Enumeration(_) => 22,
        Type::Callback { .. } => 23,
        Type::Function { .. } => 24,
        Type::Component(_) => 25,
        Type::Builtin(_) => 26,
        Type::Native(_) => 27,
        Type::InferredProperty => 28,
        Type::InferredCallback => 29,
    }
}

/// The same discriminant on the model side.
pub open spec fn spec_vtag(v: TypeV) -> int {
    match v {
        TypeV::Invalid => 0,
        TypeV::Void => 1,
        TypeV::Int32 => 2,
        TypeV::Float32 => 3,
        TypeV::Str => 4,
        TypeV::Bool => 5,
        TypeV::Color => 6,
        TypeV::Duration => 7,
        TypeV::PhysicalLength => 8,
        TypeV::LogicalLength => 9,
        TypeV::Angle => 10,
        TypeV::Percent => 11,
        TypeV::Image => 12,
        TypeV::Brush => 13,
        TypeV::Easing => 14,
        TypeV::PathElements => 15,
        TypeV::Model => 16,
        TypeV::LayoutCache => 17,
        TypeV::ElementReference => 18,
        TypeV::UnitProduct(_) => 19,
        TypeV::Struct { .. } => 20,
        TypeV::Array(_) => 21,
        TypeV::Enumeration(_) => 22,
        TypeV::Callback { .. } => 23,
        TypeV::Function { .. } => 24,
        TypeV::Component(_) => 25,
        TypeV::Builtin(_) => 26,
        TypeV::Native(_) => 27,
        TypeV::InferredProperty => 28,
        TypeV::InferredCallback => 29,
    }
}

/// A type's model keeps the constructor.
pub proof fn lemma_view_tag(t: Type)
    ensures
        spec_vtag(type_view(t)) == spec_type_tag(t),
{
}

impl Type {
    /// The runtime discriminant of this type's constructor.
    pub fn tag(&self) -> (r: u32)
        ensures
            r == spec_type_tag(*self),
            r == spec_vtag(self@),
    {
        proof {
            lemma_view_tag(*self);
        }
        match self {
            Type::Invalid => 0,
            Type::Void => 1,
            Type::Int32 => 2,
            Type::Float32 => 3,
            Type::Str => 4,
            Type::Bool => 5,
            Type::Color => 6,
            Type::Duration => 7,
            Type::PhysicalLength => 8,
            Type::LogicalLength => 9,
            Type::Angle => 10,
            Type::Percent => 11,
            Type::Image => 12,
            Type::Brush => 13,
            Type::Easing => 14,
            Type::PathElements => 15,
            Type::Model => 16,
            Type::LayoutCache => 17,
            Type::ElementReference => 18,
            Type::UnitProduct(_) => 19,
            Type::Struct { .. } => 20,
            Type::Array(_) => 21,
            Type::Enumeration(_) => 22,
            Type::Callback { .. } => 23,
            Type::Function { .. } => 24,
            Type::Component(_) => 25,
            Type::Builtin(_) => 26,
            Type::Native(_) => 27,
            Type::InferredProperty => 28,
            Type::InferredCallback => 29,
        }
    }
}

/// Compare two optional names.
fn opt_name_eq(a: &Option<String>, b: &Option<String>) -> (r: bool)
    ensures
        r == (match (a, b) {
            (Some(x), Some(y)) => Some(x@) == Some(y@),
            (Option::None, Option::None) => true,
            _ => false,
        }),
{
    match (a, b) {
        (Some(x), Some(y)) => crate::units::str_eq(x.as_str(), y.as_str()),
        (Option::None, Option::None) => true,
        _ => false,
    }
}

/// Structural equality of two types: their mathematical models are the same.
pub fn type_eq(a: &Type, b: &Type) -> (r: bool)
    ensures
        r == (a@ == b@),
    decreases *a,
{
    broadcast use group_type_view_lemmas;

    if a.tag() != b.tag() {
        return false;
    }
    match (a, b) {
        (Type::UnitProduct(u), Type::UnitProduct(v)) => {
            proof {
                assert(a@ == TypeV::UnitProduct(u@));
                assert(b@ == TypeV::UnitProduct(v@));
            }
            if u.len() != v.len() {
                return false;
            }
            let mut i: usize = 0;
            while i < u.len()
                invariant
                    0 <= i <= u@.len(),
                    u@.len() == v@.len(),
                    *a matches Type::UnitProduct(ua) && ua == *u,
                    *b matches Type::UnitProduct(vb) && vb == *v,
                    forall|j: int| 0 <= j < i ==> u@[j].0 == v@[j].0 && u@[j].1 == v@[j].1,
                decreases u@.len() - i,
            {
                broadcast use group_type_view_lemmas;

                let (ua, pa) = u[i];
                let (ub, pb) = v[i];
                if ua != ub || pa != pb {
                    proof {
                        assert(u@[i as int] != v@[i as int]);
                        assert(a@ != b@);
                    }
                    return false;
                }
                i = i + 1;
            }
            proof {
                assert(u@ =~= v@);
            }
            true
        }
        (Type::Struct { fields: f, name: n }, Type::Struct { fields: g, name: m }) => {
            proof {
                assert(a@ == (TypeV::Struct {
                    fields: fields_view(f@),
                    name: match n {
                        Some(x) => Some(x@),
                        Option::None => Option::None,
                    },
                }));
                assert(b@ == (TypeV::Struct {
                    fields: fields_view(g@),
                    name: match m {
                        Some(x) => Some(x@),
                        Option::None => Option::None,
                    },
                }));
            }
            if !opt_name_eq(n, m) {
                proof {
                    assert(a@ != b@);
                }
                return false;
            }
            if f.len() != g.len() {
                proof {
                    assert(fields_view(f@).len() == f@.len());
                    assert(fields_view(g@).len() == g@.len());
                }
                return false;
            }
            let mut i: usize = 0;
            while i < f.len()
                invariant
                    0 <= i <= f@.len(),
                    f@.len() == g@.len(),
                    *a matches Type::Struct { fields: fa, name: na } && fa == *f && na == *n,
                    *b matches Type::Struct { fields: gb, name: mb } && gb == *g && mb == *m,
                    (match (n, m) {
                        (Some(x), Some(y)) => x@ == y@,
                        (Option::None, Option::None) => true,
                        _ => false,
                    }),
                    forall|j: int|
                        0 <= j < i ==> f@[j].name@ == g@[j].name@ && type_view(f@[j].ty)
                            == type_view(g@[j].ty),
                decreases f@.len() - i,
            {
                broadcast use group_type_view_lemmas;

                proof {
                    assert(decreases_to!(*f => f@[i as int]));
                    assert(decreases_to!(f@[i as int] => f@[i as int].ty));
                }
                let names_ok = crate::units::str_eq(f[i].name.as_str(), g[i].name.as_str());
                let tys_ok = type_eq(&f[i].ty, &g[i].ty);
                if !names_ok || !tys_ok {
                    proof {
                        assert(fields_view(f@)[i as int] == (
                            f@[i as int].name@,
                            type_view(f@[i as int].ty),
                        ));
                        assert(fields_view(g@)[i as int] == (
                            g@[i as int].name@,
                            type_view(g@[i as int].ty),
                        ));
                        assert(fields_view(f@)[i as int] != fields_view(g@)[i as int]);
                        assert(a@ != b@);
                    }
                    return false;
                }
                i = i + 1;
            }
            proof {
                assert(fields_view(f@) =~= fields_view(g@));
            }
            true
        }
        (Type::Array(x), Type::Array(y)) => {
            proof {
                assert(a@ == TypeV::Array(Box::new(type_view(**x))));
                assert(b@ == TypeV::Array(Box::new(type_view(**y))));
            }
            type_eq(x, y)
        }
        (Type::Enumeration(e1), Type::Enumeration(e2)) => {
            proof {
                assert(a@ == TypeV::Enumeration(e1@));
                assert(b@ == TypeV::Enumeration(e2@));
            }
            enumeration_eq(e1, e2)
        }
        (
            Type::Callback { return_type: r1, args: a1 },
            Type::Callback { return_type: r2, args: a2 },
        ) => {
            proof {
                assert(a@ == (TypeV::Callback {
                    return_type: match r1 {
                        Some(t) => Some(Box::new(type_view(**t))),
                        Option::None => Option::None,
                    },
                    args: types_view(a1@),
                }));
                assert(b@ == (TypeV::Callback {
                    return_type: match r2 {
                        Some(t) => Some(Box::new(type_view(**t))),
                        Option::None => Option::None,
                    },
                    args: types_view(a2@),
                }));
            }
            let rt_ok = match (r1, r2) {
                (Some(x), Some(y)) => type_eq(x, y),
                (Option::None, Option::None) => true,
                _ => false,
            };
            if !rt_ok {
                proof {
                    assert(a@ != b@);
                }
                return false;
            }
            type_args_eq(a1, a2)
        }
        (
            Type::Function { return_type: r1, args: a1 },
            Type::Function { return_type: r2, args: a2 },
        ) => {
            proof {
                assert(a@ == (TypeV::Function {
                    return_type: Box::new(type_view(**r1)),
                    args: types_view(a1@),
                }));
                assert(b@ == (TypeV::Function {
                    return_type: Box::new(type_view(**r2)),
                    args: types_view(a2@),
                }));
            }
            if !type_eq(r1, r2) {
                proof {
                    assert(a@ != b@);
                }
                return false;
            }
            type_args_eq(a1, a2)
        }
        (Type::Component(i), Type::Component(j)) => *i == *j,
        (Type::Builtin(i), Type::Builtin(j)) => *i == *j,
        (Type::Native(i), Type::Native(j)) => *i == *j,
        _ => true,
    }
}

/// Compare two argument lists elementwise.
fn type_args_eq(a1: &Vec<Type>, a2: &Vec<Type>) -> (r: bool)
    ensures
        r == (types_view(a1@) == types_view(a2@)),
    decreases *a1,
{
    broadcast use group_type_view_lemmas;

    if a1.len() != a2.len() {
        proof {
            assert(types_view(a1@).len() != types_view(a2@).len());
        }
        return false;
    }
    let mut i: usize = 0;
    while i < a1.len()
        invariant
            0 <= i <= a1@.len(),
            a1@.len() == a2@.len(),
            forall|j: int| 0 <= j < i ==> type_view(a1@[j]) == type_view(a2@[j]),
        decreases a1@.len() - i,
    {
        proof {
            assert(decreases_to!(*a1 => a1@[i as int]));
        }
        if !type_eq(&a1[i], &a2[i]) {
            proof {
                assert(types_view(a1@)[i as int] != types_view(a2@)[i as int]);
            }
            return false;
        }
        i = i + 1;
    }
    proof {
        assert(types_view(a1@) =~= types_view(a2@));
    }
    true
}

/// Compare two enumeration definitions.
pub fn enumeration_eq(e1: &Enumeration, e2: &Enumeration) -> (r: bool)
    ensures
        r == (e1@ == e2@),
{
    if !crate::units::str_eq(e1.name.as_str(), e2.name.as_str()) {
        proof {
            assert(e1@ != e2@);
        }
        return false;
    }
    if e1.default_value != e2.default_value {
        proof {
            assert(e1@ != e2@);
        }
        return false;
    }
    if e1.values.len() != e2.values.len() {
        proof {
            assert(e1@.values.len() != e2@.values.len());
        }
        return false;
    }
    let mut i: usize = 0;
    while i < e1.values.len()
        invariant
            0 <= i <= e1.values@.len(),
            e1.values@.len() == e2.values@.len(),
            forall|j: int| 0 <= j < i ==> e1.values@[j]@ == e2.values@[j]@,
        decreases e1.values@.len() - i,
    {
        if !crate::units::str_eq(e1.values[i].as_str(), e2.values[i].as_str()) {
            proof {
                assert(e1@.values[i as int] != e2@.values[i as int]);
            }
            return false;
        }
        i = i + 1;
    }
    proof {
        assert(e1@.values =~= e2@.values);
        assert(e1@ =~= e2@);
    }
    true
}


impl Unit {
    /// The canonical scalar type that a literal in this unit has.
    pub fn ty(self) -> (r: Type)
        ensures
            r@ == spec_ty_of_unit(self),
    {
        match self {
            Unit::Unitless => Type::Float32,
            Unit::Percent => Type::Percent,
            Unit::Phx => Type::PhysicalLength,
            Unit::Px => Type::LogicalLength,
            Unit::Cm => Type::LogicalLength,
            Unit::Mm => Type::LogicalLength,
            Unit::In => Type::LogicalLength,
            Unit::Pt => Type::LogicalLength,
            Unit::S => Type::Duration,
            Unit::Ms => Type::Duration,
            Unit::Deg => Type::Angle,
            Unit::Grad => Type::Angle,
            Unit::Turn => Type::Angle,
            Unit::Rad => Type::Angle,
        }
    }
}

/// The model of the scalar type a unit normalizes to.
pub open spec fn spec_ty_of_unit(u: Unit) -> TypeV {
    match u {
        Unit::Unitless => TypeV::Float32,
        Unit::Percent => TypeV::Percent,
        Unit::Phx => TypeV::PhysicalLength,
        Unit::Px => TypeV::LogicalLength,
        Unit::Cm => TypeV::LogicalLength,
        Unit::Mm => TypeV::LogicalLength,
        Unit::In => TypeV::LogicalLength,
        Unit::Pt => TypeV::LogicalLength,
        Unit::S => TypeV::Duration,
        Unit::Ms => TypeV::Duration,
        Unit::Deg => TypeV::Angle,
        Unit::Grad => TypeV::Angle,
        Unit::Turn => TypeV::Angle,
        Unit::Rad => TypeV::Angle,
    }
}

/// The unit that a dimensioned scalar type counts in, if it has one.
pub open spec fn spec_default_unit(v: TypeV) -> Option<Unit> {
    match v {
        TypeV::Duration => Some(Unit::Ms),
        TypeV::PhysicalLength => Some(Unit::Phx),
        TypeV::LogicalLength => Some(Unit::Px),
        TypeV::Angle => Some(Unit::Deg),
        TypeV::Percent => Some(Unit::Percent),
        _ => Option::None,
    }
}

impl Type {
    /// The unit a value of this type counts in, if the type is a dimensioned
    /// scalar.
    pub fn default_unit(&self) -> (r: Option<Unit>)
        ensures
            r == spec_default_unit(self@),
    {
        match self {
            Type::Duration => Some(Unit::Ms),
            Type::PhysicalLength => Some(Unit::Phx),
            Type::LogicalLength => Some(Unit::Px),
            Type::Angle => Some(Unit::Deg),
            Type::Percent => Some(Unit::Percent),
            _ => Option::None,
        }
    }

    /// Whether a property may have this type.
    pub fn is_property_type(&self) -> (r: bool)
        ensures
            r == spec_is_property_type(self@),
    {
        match self {
            Type::Float32 => true,
            Type::Int32 => true,
            Type::Str => true,
            Type::Color => true,
            Type::Duration => true,
            Type::PhysicalLength => true,
            Type::LogicalLength => true,
            Type::Angle => true,
            Type::Percent => true,
            Type::Image => true,
            Type::Bool => true,
            Type::Easing => true,
            Type::Brush => true,
            Type::UnitProduct(_) => true,
            Type::Array(_) => true,
            Type::Struct { .. } => true,
            Type::Enumeration(_) => true,
            Type::LayoutCache => true,
            _ => false,
        }
    }
}

/// Whether a property may have this type: value types only, not references,
/// callables or markers.
pub open spec fn spec_is_property_type(v: TypeV) -> bool {
    match v {
        TypeV::Float32 => true,
        TypeV::Int32 => true,
        TypeV::Str => true,
        TypeV::Color => true,
        TypeV::Duration => true,
        TypeV::PhysicalLength => true,
        TypeV::LogicalLength => true,
        TypeV::Angle => true,
        TypeV::Percent => true,
        TypeV::Image => true,
        TypeV::Bool => true,
        TypeV::Easing => true,
        TypeV::Brush => true,
        TypeV::UnitProduct(_) => true,
        TypeV::Array(_) => true,
        TypeV::Struct { .. } => true,
        TypeV::Enumeration(_) => true,
        TypeV::LayoutCache => true,
        _ => false,
    }
}

/// Deep copy of an enumeration definition.
pub fn clone_enumeration(e: &Enumeration) -> (r: Enumeration)
    ensures
        r@ == e@,
{
    let mut values: Vec<String> = Vec::new();
    let mut i: usize = 0;
    while i < e.values.len()
        invariant
            0 <= i <= e.values@.len(),
            values@.len() == i,
            forall|j: int| 0 <= j < i ==> values@[j]@ == e.values@[j]@,
        decreases e.values@.len() - i,
    {
        values.push(e.values[i].clone());
        i = i + 1;
    }
    let r = Enumeration { name: e.name.clone(), values, default_value: e.default_value };
    proof {
        assert(r@.values =~= e@.values);
        assert(r@ =~= e@);
    }
    r
}

/// Deep copy of a type; the copy has the same mathematical model.
pub fn clone_type(t: &Type) -> (r: Type)
    ensures
        r@ == t@,
    decreases *t,
{
    broadcast use group_type_view_lemmas;

    match t {
        Type::Invalid => Type::Invalid,
        Type::Void => Type::Void,
        Type::Int32 => Type::Int32,
        Type::Float32 => Type::Float32,
        Type::Str => Type::Str,
        Type::Bool => Type::Bool,
        Type::Color => Type::Color,
        Type::Duration => Type::Duration,
        Type::PhysicalLength => Type::PhysicalLength,
        Type::LogicalLength => Type::LogicalLength,
        Type::Angle => Type::Angle,
        Type::Percent => Type::Percent,
        Type::Image => Type::Image,
        Type::Brush => Type::Brush,
        Type::Easing => Type::Easing,
        Type::PathElements => Type::PathElements,
        Type::Model => Type::Model,
        Type::LayoutCache => Type::LayoutCache,
        Type::ElementReference => Type::ElementReference,
        Type::UnitProduct(v) => {
            let mut out: Vec<(Unit, i32)> = Vec::new();
            let mut i: usize = 0;
            while i < v.len()
                invariant
                    0 <= i <= v@.len(),
                    out@.len() == i,
                    forall|j: int| 0 <= j < i ==> out@[j] == v@[j],
                decreases v@.len() - i,
            {
                out.push(v[i]);
                i = i + 1;
            }
            proof {
                assert(out@ =~= v@);
            }
            Type::UnitProduct(out)
        }
        Type::Struct { fields, name } => {
            let mut out: Vec<StructField> = Vec::new();
            let mut i: usize = 0;
            while i < fields.len()
                invariant
                    0 <= i <= fields@.len(),
                    out@.len() == i,
                    *t matches Type::Struct { fields: fa, .. } && fa == *fields,
                    forall|j: int|
                        0 <= j < i ==> out@[j].name@ == fields@[j].name@ && type_view(out@[j].ty)
                            == type_view(fields@[j].ty),
                decreases fields@.len() - i,
            {
                proof {
                    assert(decreases_to!(*fields => fields@[i as int]));
                    assert(decreases_to!(fields@[i as int] => fields@[i as int].ty));
                }
                let f = StructField {
                    name: fields[i].name.clone(),
                    ty: clone_type(&fields[i].ty),
                };
                out.push(f);
                i = i + 1;
            }
            let new_name = match name {
                Some(n) => Some(n.clone()),
                Option::None => Option::None,
            };
            let r = Type::Struct { fields: out, name: new_name };
            proof {
                assert(fields_view(out@) =~= fields_view(fields@));
                assert(r@ =~= t@);
            }
            r
        }
        Type::Array(inner) => {
            let r = Type::Array(Box::new(clone_type(inner)));
            proof {
                assert(r@ =~= t@);
            }
            r
        }
        Type::Enumeration(e) => {
            let r = Type::Enumeration(clone_enumeration(e));
            proof {
                assert(r@ =~= t@);
            }
            r
        }
        Type::Callback { return_type, args } => {
            let rt = match return_type {
                Some(x) => Some(Box::new(clone_type(x))),
                Option::None => Option::None,
            };
            let new_args = clone_type_vec(args);
            let r = Type::Callback { return_type: rt, args: new_args };
            proof {
                assert(r@ =~= t@);
            }
            r
        }
        Type::Function { return_type, args } => {
            let rt = Box::new(clone_type(return_type));
            let new_args = clone_type_vec(args);
            let r = Type::Function { return_type: rt, args: new_args };
            proof {
                assert(r@ =~= t@);
            }
            r
        }
        Type::Component(c) => Type::Component(*c),
        Type::Builtin(b) => Type::Builtin(*b),
        Type::Native(n) => Type::Native(*n),
        Type::InferredProperty => Type::InferredProperty,
        Type::InferredCallback => Type::InferredCallback,
    }
}

/// Deep copy of a list of types.
fn clone_type_vec(args: &Vec<Type>) -> (r: Vec<Type>)
    ensures
        types_view(r@) == types_view(args@),
        r@.len() == args@.len(),
    decreases *args,
{
    broadcast use group_type_view_lemmas;

    let mut out: Vec<Type> = Vec::new();
    let mut i: usize = 0;
    while i < args.len()
        invariant
            0 <= i <= args@.len(),
            out@.len() == i,
            forall|j: int| 0 <= j < i ==> type_view(out@[j]) == type_view(args@[j]),
        decreases args@.len() - i,
    {
        proof {
            assert(decreases_to!(*args => args@[i as int]));
        }
        out.push(clone_type(&args[i]));
        i = i + 1;
    }
    proof {
        assert(types_view(out@) =~= types_view(args@));
    }
    out
}


/// The exponent of a unit in a unit-product vector: the sum of the powers of
/// its entries for that unit.
pub open spec fn unit_exp(s: Seq<(Unit, i32)>, u: Unit) -> int
    decreases s,
{
    if s.len() == 0 {
        0
    } else {
        (if s[0].0 == u {
            s[0].1 as int
        } else {
            0
        }) + unit_exp(s.skip(1), u)
    }
}

/// Strict canonical order on unit-product entries: larger exponents first,
/// ties broken by the fixed unit order.
pub open spec fn unit_entry_lt(a: (Unit, i32), b: (Unit, i32)) -> bool {
    a.1 > b.1 || (a.1 == b.1 && spec_unit_rank(a.0) < spec_unit_rank(b.0))
}

/// The canonical form of a derived unit: no zero exponents, one entry per
/// unit, strictly ordered.
pub open spec fn is_canonical_unit_vec(s: Seq<(Unit, i32)>) -> bool {
    (forall|i: int| 0 <= i < s.len() ==> (#[trigger] s[i]).1 != 0) && (forall|i: int, j: int|
        0 <= i < j < s.len() ==> unit_entry_lt(s[i], s[j])) && (forall|i: int, j: int|
        0 <= i < j < s.len() ==> (#[trigger] s[i]).0 != (#[trigger] s[j]).0)
}

/// Clamp an exponent sum into the i32 range.
pub open spec fn sat_i32(x: int) -> int {
    if x > i32::MAX as int {
        i32::MAX as int
    } else if x < i32::MIN as int {
        i32::MIN as int
    } else {
        x
    }
}

proof fn lemma_unit_exp_take_snoc(s: Seq<(Unit, i32)>, i: int, u: Unit)
    requires
        0 < i <= s.len(),
    ensures
        unit_exp(s.take(i), u) == unit_exp(s.take(i - 1), u) + (if s[i - 1].0 == u {
            s[i - 1].1 as int
        } else {
            0
        }),
    decreases i,
{
    if i == 1 {
        assert(s.take(1).skip(1) =~= Seq::<(Unit, i32)>::empty());
        assert(s.take(0) =~= Seq::<(Unit, i32)>::empty());
        assert(s.take(1)[0] == s[0]);
    } else {
        lemma_unit_exp_take_snoc(s.skip(1), i - 1, u);
        assert(s.take(i).skip(1) =~= s.skip(1).take(i - 1));
        assert(s.take(i - 1).skip(1) =~= s.skip(1).take(i - 2));
        assert(s.take(i)[0] == s[0]);
        assert(s.take(i - 1)[0] == s[0]);
        assert(s.skip(1)[i - 2] == s[i - 1]);
    }
}

proof fn lemma_unit_exp_all(s: Seq<(Unit, i32)>, u: Unit)
    ensures
        unit_exp(s.take(s.len() as int), u) == unit_exp(s, u),
{
    assert(s.take(s.len() as int) =~= s);
}

/// Inserting an entry adds its power to the exponent of its unit and nothing
/// else.
proof fn lemma_unit_exp_insert(s: Seq<(Unit, i32)>, k: int, e: (Unit, i32), u: Unit)
    requires
        0 <= k <= s.len(),
    ensures
        unit_exp(s.insert(k, e), u) == unit_exp(s, u) + (if e.0 == u {
            e.1 as int
        } else {
            0
        }),
    decreases k,
{
    if k == 0 {
        assert(s.insert(0, e)[0] == e);
        assert(s.insert(0, e).skip(1) =~= s);
    } else {
        lemma_unit_exp_insert(s.skip(1), k - 1, e, u);
        assert(s.insert(k, e)[0] == s[0]);
        assert(s.insert(k, e).skip(1) =~= s.skip(1).insert(k - 1, e));
    }
}

/// The exponent of a unit in the sum of two vectors, the right one possibly
/// inverted for division.
pub open spec fn combined_exp(
    l: Seq<(Unit, i32)>,
    r: Seq<(Unit, i32)>,
    divide: bool,
    u: Unit,
) -> int {
    unit_exp(l, u) + (if divide {
        -unit_exp(r, u)
    } else {
        unit_exp(r, u)
    })
}

/// The exponent of a unit in a vector, computed exactly.
fn vec_exp(v: &Vec<(Unit, i32)>, u: Unit) -> (r: i128)
    ensures
        r == unit_exp(v@, u),
        -0x80000000000000000000000000i128 <= r <= 0x80000000000000000000000000i128,
{
    let mut acc: i128 = 0;
    let mut i: usize = 0;
    proof {
        assert(v@.take(0) =~= Seq::<(Unit, i32)>::empty());
    }
    while i < v.len()
        invariant
            0 <= i <= v@.len(),
            acc == unit_exp(v@.take(i as int), u),
            -0x100000000i128 * (i as i128) <= acc <= 0x100000000i128 * (i as i128),
            i as i128 <= 0xffffffffffffffffi128,
        decreases v@.len() - i,
    {
        let (eu, ep) = v[i];
        proof {
            lemma_unit_exp_take_snoc(v@, i as int + 1, u);
        }
        if eu == u {
            acc = acc + ep as i128;
        }
        i = i + 1;
    }
    proof {
        lemma_unit_exp_all(v@, u);
        assert(v@.len() as i128 <= 0xffffffffffffffffi128) by {
            assert(v@.len() <= usize::MAX);
        }
    }
    acc
}

/// Every unit, in canonical rank order.
fn all_units() -> (r: [Unit; 14])
    ensures
        forall|i: int| 0 <= i < 14 ==> spec_unit_rank(r@[i]) == i,
{
    [
        Unit::Unitless,
        Unit::Percent,
        Unit::Phx,
        Unit::Px,
        Unit::Cm,
        Unit::Mm,
        Unit::In,
        Unit::Pt,
        Unit::S,
        Unit::Ms,
        Unit::Deg,
        Unit::Grad,
        Unit::Turn,
        Unit::Rad,
    ]
}

/// The position in a strictly ordered vector where an entry belongs.
fn find_insert_pos(res: &Vec<(Unit, i32)>, sat: i32, u: Unit) -> (pos: usize)
    ensures
        0 <= pos <= res@.len(),
        forall|i: int| 0 <= i < pos ==> unit_entry_lt(#[trigger] res@[i], (u, sat)),
        pos < res@.len() ==> !unit_entry_lt(res@[pos as int], (u, sat)),
{
    let mut pos: usize = 0;
    while pos < res.len()
        invariant
            0 <= pos <= res@.len(),
            forall|i: int| 0 <= i < pos ==> unit_entry_lt(#[trigger] res@[i], (u, sat)),
        decreases res@.len() - pos,
    {
        let (cu, cp) = res[pos];
        if !(cp > sat || (cp == sat && cu.rank() < u.rank())) {
            return pos;
        }
        pos = pos + 1;
    }
    pos
}

/// Multiply, or with `divide` divide, two derived units: exponents add or
/// subtract per unit, saturating at the i32 range, and the result is the
/// canonical vector of the combined dimension.
pub fn multiply_unit_products(
    l: &Vec<(Unit, i32)>,
    r: &Vec<(Unit, i32)>,
    divide: bool,
) -> (res: Vec<(Unit, i32)>)
    ensures
        is_canonical_unit_vec(res@),
        forall|u: Unit| unit_exp(res@, u) == sat_i32(combined_exp(l@, r@, divide, u)),
{
    let units = all_units();
    let mut res: Vec<(Unit, i32)> = Vec::new();
    let mut k: usize = 0;
    while k < 14
        invariant
            0 <= k <= 14,
            is_canonical_unit_vec(res@),
            forall|u: Unit|
                spec_unit_rank(u) < k ==> unit_exp(res@, u) == sat_i32(
                    combined_exp(l@, r@, divide, u),
                ),
            forall|u: Unit| spec_unit_rank(u) >= k ==> unit_exp(res@, u) == 0,
            forall|i: int| 0 <= i < res@.len() ==> spec_unit_rank((#[trigger] res@[i]).0) < k,
            forall|i: int| 0 <= i < 14 ==> spec_unit_rank(units@[i]) == i,
        decreases 14 - k,
    {
        let u = units[k];
        let le = vec_exp(l, u);
        let re = vec_exp(r, u);
        let total: i128 = if divide {
            le - re
        } else {
            le + re
        };
        let sat: i32 = if total > i32::MAX as i128 {
            i32::MAX
        } else if total < i32::MIN as i128 {
            i32::MIN
        } else {
            total as i32
        };
        if sat != 0 {
            let e = (u, sat);
            let pos = find_insert_pos(&res, sat, u);
            proof {
                assert forall|i: int| pos <= i < res@.len() implies unit_entry_lt(
                    (u, sat),
                    #[trigger] res@[i],
                ) by {
                    assert(spec_unit_rank(res@[i].0) < k);
                    assert(spec_unit_rank(u) == k as int);
                    if i == pos {
                        assert(!unit_entry_lt(res@[i], (u, sat)));
                        if res@[i].1 == sat {
                            assert(spec_unit_rank(res@[i].0) != spec_unit_rank(u));
                            assert(spec_unit_rank(res@[i].0) > spec_unit_rank(u) || res@[
                                i
                            ].1 < sat);
                        }
                    } else {
                        assert(unit_entry_lt(res@[pos as int], res@[i]));
                        assert(!unit_entry_lt(res@[pos as int], (u, sat)));
                        if res@[pos as int].1 == sat {
                            assert(spec_unit_rank(res@[pos as int].0) != spec_unit_rank(u));
                        }
                    }
                }
            }
            let ghost old_res = res@;
            res.insert(pos, e);
            proof {
                assert(res@ == old_res.insert(pos as int, e));
                assert forall|uu: Unit| true implies unit_exp(res@, uu) == unit_exp(
                    old_res,
                    uu,
                ) + (if uu == u {
                    sat as int
                } else {
                    0
                }) by {
                    lemma_unit_exp_insert(old_res, pos as int, e, uu);
                }
                assert forall|i: int, j: int| 0 <= i < j < res@.len() implies unit_entry_lt(
                    res@[i],
                    res@[j],
                ) && res@[i].0 != res@[j].0 by {
                    let oi = if i < pos as int {
                        i
                    } else {
                        i - 1
                    };
                    let oj = if j < pos as int {
                        j
                    } else {
                        j - 1
                    };
                    if i == pos as int {
                        assert(res@[i] == e);
                        assert(res@[j] == old_res[oj]);
                        assert(spec_unit_rank(old_res[oj].0) < k);
                    } else if j == pos as int {
                        assert(res@[j] == e);
                        assert(res@[i] == old_res[oi]);
                        assert(spec_unit_rank(old_res[oi].0) < k);
                    } else {
                        assert(res@[i] == old_res[oi]);
                        assert(res@[j] == old_res[oj]);
                        if res@[i].0 == res@[j].0 {
                            assert(old_res[oi].0 == old_res[oj].0);
                            assert(false);
                        }
                    }
                }
            }
        }
        k = k + 1;
        proof {
            assert forall|u2: Unit| spec_unit_rank(u2) < k implies unit_exp(res@, u2)
                == sat_i32(combined_exp(l@, r@, divide, u2)) by {
                if spec_unit_rank(u2) == k - 1 {
                    assert(u2 == u) by {
                        lemma_rank_injective(u2, u);
                    }
                }
            }
        }
    }
    proof {
        assert forall|u: Unit| true implies unit_exp(res@, u) == sat_i32(
            combined_exp(l@, r@, divide, u),
        ) by {
            assert(spec_unit_rank(u) < 14);
        }
    }
    res
}

/// Every unit's rank lies in the table.
proof fn lemma_rank_range(u: Unit)
    ensures
        0 <= spec_unit_rank(u) < 14,
{
}

/// Two units with the same rank are the same unit.
proof fn lemma_rank_injective(a: Unit, b: Unit)
    requires
        spec_unit_rank(a) == spec_unit_rank(b),
    ensures
        a == b,
{
}


/// The unit-product vector a type stands for: its own vector for a derived
/// unit, a single first-power entry for a dimensioned scalar, the empty
/// product for a plain number, nothing otherwise.
pub open spec fn spec_as_unit_product(v: TypeV) -> Option<Seq<(Unit, i32)>> {
    match v {
        TypeV::UnitProduct(s) => Some(s),
        TypeV::Duration => Some(seq![(Unit::Ms, 1i32)]),
        TypeV::PhysicalLength => Some(seq![(Unit::Phx, 1i32)]),
        TypeV::LogicalLength => Some(seq![(Unit::Px, 1i32)]),
        TypeV::Angle => Some(seq![(Unit::Deg, 1i32)]),
        TypeV::Percent => Some(seq![(Unit::Percent, 1i32)]),
        TypeV::Float32 => Some(Seq::empty()),
        TypeV::Int32 => Some(Seq::empty()),
        _ => Option::None,
    }
}

impl Type {
    /// The unit-product vector this type stands for, if it is numeric.
    pub fn as_unit_product(&self) -> (r: Option<Vec<(Unit, i32)>>)
        ensures
            (match r {
                Some(v) => spec_as_unit_product(self@) == Some(v@),
                Option::None => spec_as_unit_product(self@) is None,
            }),
    {
        broadcast use group_type_view_lemmas;

        match self {
            Type::UnitProduct(v) => {
                let mut out: Vec<(Unit, i32)> = Vec::new();
                let mut i: usize = 0;
                while i < v.len()
                    invariant
                        0 <= i <= v@.len(),
                        out@.len() == i,
                        forall|j: int| 0 <= j < i ==> out@[j] == v@[j],
                    decreases v@.len() - i,
                {
                    out.push(v[i]);
                    i = i + 1;
                }
                proof {
                    assert(out@ =~= v@);
                }
                Some(out)
            }
            Type::Duration => {
                let out = make_single_unit(Unit::Ms);
                Some(out)
            }
            Type::PhysicalLength => {
                let out = make_single_unit(Unit::Phx);
                Some(out)
            }
            Type::LogicalLength => {
                let out = make_single_unit(Unit::Px);
                Some(out)
            }
            Type::Angle => {
                let out = make_single_unit(Unit::Deg);
                Some(out)
            }
            Type::Percent => {
                let out = make_single_unit(Unit::Percent);
                Some(out)
            }
            Type::Float32 => {
                let out: Vec<(Unit, i32)> = Vec::new();
                proof {
                    assert(out@ =~= Seq::<(Unit, i32)>::empty());
                }
                Some(out)
            }
            Type::Int32 => {
                let out: Vec<(Unit, i32)> = Vec::new();
                proof {
                    assert(out@ =~= Seq::<(Unit, i32)>::empty());
                }
                Some(out)
            }
            _ => Option::None,
        }
    }
}

/// A vector of one unit at the first power.
fn make_single_unit(u: Unit) -> (r: Vec<(Unit, i32)>)
    ensures
        r@ == seq![(u, 1i32)],
{
    let mut out: Vec<(Unit, i32)> = Vec::new();
    out.push((u, 1));
    proof {
        assert(out@ =~= seq![(u, 1i32)]);
    }
    out
}

/// When two dimensions differ only in how often physical rather than logical
/// pixels appear, the difference of the physical-pixel exponents; the scale
/// factor to that power converts between them.
pub open spec fn spec_length_conversion_power(
    a: Seq<(Unit, i32)>,
    b: Seq<(Unit, i32)>,
) -> Option<int> {
    let d = unit_exp(a, Unit::Phx) - unit_exp(b, Unit::Phx);
    if (forall|u: Unit|
        u != Unit::Phx && u != Unit::Px ==> unit_exp(a, u) == unit_exp(b, u)) && unit_exp(
        b,
        Unit::Px,
    ) - unit_exp(a, Unit::Px) == d {
        Some(d)
    } else {
        Option::None
    }
}

/// Compute the physical/logical length conversion power of two unit vectors.
pub fn unit_product_length_conversion(a: &Vec<(Unit, i32)>, b: &Vec<(Unit, i32)>) -> (r: Option<
    i128,
>)
    ensures
        (match r {
            Some(d) => spec_length_conversion_power(a@, b@) == Some(d as int)
                && -0x200000000000000000000000000i128 <= d
                <= 0x200000000000000000000000000i128,
            Option::None => spec_length_conversion_power(a@, b@) is None,
        }),
{
    let units = all_units();
    let mut k: usize = 0;
    let mut same = true;
    while k < 14
        invariant
            0 <= k <= 14,
            forall|i: int| 0 <= i < 14 ==> spec_unit_rank(units@[i]) == i,
            same ==> forall|u: Unit|
                spec_unit_rank(u) < k && u != Unit::Phx && u != Unit::Px ==> unit_exp(a@, u)
                    == unit_exp(b@, u),
            !same ==> exists|u: Unit|
                u != Unit::Phx && u != Unit::Px && unit_exp(a@, u) != unit_exp(b@, u),
        decreases 14 - k,
    {
        let u = units[k];
        if !matches!(u, Unit::Phx) && !matches!(u, Unit::Px) {
            let ea = vec_exp(a, u);
            let eb = vec_exp(b, u);
            if ea != eb {
                same = false;
            }
        }
        k = k + 1;
        proof {
            if same {
                assert forall|u2: Unit|
                    spec_unit_rank(u2) < k && u2 != Unit::Phx && u2 != Unit::Px implies unit_exp(
                    a@,
                    u2,
                ) == unit_exp(b@, u2) by {
                    if spec_unit_rank(u2) == k - 1 {
                        lemma_rank_injective(u2, u);
                    }
                }
            }
        }
    }
    if !same {
        return Option::None;
    }
    let pa = vec_exp(a, Unit::Phx);
    let pb = vec_exp(b, Unit::Phx);
    let xa = vec_exp(a, Unit::Px);
    let xb = vec_exp(b, Unit::Px);
    let d = pa - pb;
    if xb - xa == d {
        proof {
            assert forall|u: Unit|
                u != Unit::Phx && u != Unit::Px implies unit_exp(a@, u) == unit_exp(b@, u) by {
                lemma_rank_range(u);
            }
        }
        Some(d)
    } else {
        Option::None
    }
}

/// Whether a value of type `a` converts, implicitly or by a generated
/// rewrite, into type `b`.
pub open spec fn spec_can_convert(a: TypeV, b: TypeV) -> bool {
    a == b || (match (a, b) {
        (TypeV::Float32, TypeV::Int32) => true,
        (TypeV::Int32, TypeV::Float32) => true,
        (TypeV::Float32, TypeV::Str) => true,
        (TypeV::Int32, TypeV::Str) => true,
        (TypeV::Percent, TypeV::Float32) => true,
        (TypeV::Color, TypeV::Brush) => true,
        (TypeV::Brush, TypeV::Color) => true,
        (TypeV::Struct { .. }, TypeV::Struct { .. }) => true,
        (TypeV::Struct { .. }, TypeV::Component(_)) => true,
        _ => (match (spec_as_unit_product(a), spec_as_unit_product(b)) {
            (Some(va), Some(vb)) => spec_length_conversion_power(va, vb) is Some,
            _ => false,
        }),
    })
}

impl Type {
    /// Whether a value of this type converts into the other.
    pub fn can_convert(&self, other: &Type) -> (r: bool)
        ensures
            r == spec_can_convert(self@, other@),
    {
        if type_eq(self, other) {
            return true;
        }
        match (self, other) {
            (Type::Float32, Type::Int32) => true,
            (Type::Int32, Type::Float32) => true,
            (Type::Float32, Type::Str) => true,
            (Type::Int32, Type::Str) => true,
            (Type::Percent, Type::Float32) => true,
            (Type::Color, Type::Brush) => true,
            (Type::Brush, Type::Color) => true,
            (Type::Struct { .. }, Type::Struct { .. }) => true,
            (Type::Struct { .. }, Type::Component(_)) => true,
            _ => {
                let pa = self.as_unit_product();
                let pb = other.as_unit_product();
                match (pa, pb) {
                    (Some(va), Some(vb)) => {
                        let conv = unit_product_length_conversion(&va, &vb);
                        conv.is_some()
                    }
                    _ => false,
                }
            }
        }
    }
}

/// The struct type that layout computation yields: minimum, maximum and
/// preferred extent, and a stretch factor.
pub fn layout_info_type() -> (r: Type)
    ensures
        r@ == spec_layout_info_type(),
{
    let mut fields: Vec<StructField> = Vec::new();
    fields.push(StructField { name: String::from_str("min"), ty: Type::LogicalLength });
    fields.push(StructField { name: String::from_str("max"), ty: Type::LogicalLength });
    fields.push(StructField { name: String::from_str("preferred"), ty: Type::LogicalLength });
    fields.push(StructField { name: String::from_str("stretch"), ty: Type::Float32 });
    let r = Type::Struct { fields, name: Some(String::from_str("LayoutInfo")) };
    proof {
        broadcast use group_type_view_lemmas;

        assert(fields_view(fields@).len() == 4);
        assert(fields_view(fields@)[0] == ("min"@, TypeV::LogicalLength));
        assert(fields_view(fields@)[1] == ("max"@, TypeV::LogicalLength));
        assert(fields_view(fields@)[2] == ("preferred"@, TypeV::LogicalLength));
        assert(fields_view(fields@)[3] == ("stretch"@, TypeV::Float32));
        assert(fields_view(fields@) =~= spec_layout_fields());
        assert(r@ == spec_layout_info_type());
    }
    r
}

pub open spec fn spec_layout_fields() -> Seq<(Seq<char>, TypeV)> {
    seq![
        ("min"@, TypeV::LogicalLength),
        ("max"@, TypeV::LogicalLength),
        ("preferred"@, TypeV::LogicalLength),
        ("stretch"@, TypeV::Float32),
    ]
}

pub open spec fn spec_layout_info_type() -> TypeV {
    TypeV::Struct { fields: spec_layout_fields(), name: Some("LayoutInfo"@) }
}

/// The type of the named field in a struct's field list, or `Invalid` when no
/// field has the name; the first match counts.
pub open spec fn spec_field_ty(fields: Seq<(Seq<char>, TypeV)>, name: Seq<char>) -> TypeV
    decreases fields,
{
    if fields.len() == 0 {
        TypeV::Invalid
    } else if fields[0].0 == name {
        fields[0].1
    } else {
        spec_field_ty(fields.skip(1), name)
    }
}

/// Look up a field's type by name in a struct's field list.
pub fn field_ty(fields: &Vec<StructField>, name: &str) -> (r: Type)
    ensures
        r@ == spec_field_ty(fields_view(fields@), name@),
{
    broadcast use group_type_view_lemmas;

    proof {
        assert(fields_view(fields@).skip(0) =~= fields_view(fields@));
    }
    let mut i: usize = 0;
    while i < fields.len()
        invariant
            0 <= i <= fields@.len(),
            spec_field_ty(fields_view(fields@), name@) == spec_field_ty(
                fields_view(fields@).skip(i as int),
                name@,
            ),
            forall|j: int| 0 <= j < i ==> fields@[j].name@ != name@,
        decreases fields@.len() - i,
    {
        proof {
            assert(fields_view(fields@).skip(i as int)[0] == fields_view(fields@)[i as int]);
            assert(fields_view(fields@).skip(i as int).skip(1) =~= fields_view(fields@).skip(
                i as int + 1,
            ));
        }
        if crate::units::str_eq(fields[i].name.as_str(), name) {
            proof {
                assert(decreases_to!(*fields => fields@[i as int]));
            }
            return clone_type(&fields[i].ty);
        }
        i = i + 1;
    }
    proof {
        assert(fields_view(fields@).skip(fields@.len() as int) =~= Seq::<
            (Seq<char>, TypeV),
        >::empty());
    }
    Type::Invalid
}


/// A unit absent from a vector has exponent zero.
proof fn lemma_exp_zero_if_absent(s: Seq<(Unit, i32)>, u: Unit)
    requires
        forall|i: int| 0 <= i < s.len() ==> (#[trigger] s[i]).0 != u,
    ensures
        unit_exp(s, u) == 0,
    decreases s,
{
    if s.len() > 0 {
        assert(forall|i: int| 0 <= i < s.skip(1).len() ==> (#[trigger] s.skip(1)[i]).0 != u);
        lemma_exp_zero_if_absent(s.skip(1), u);
    }
}

/// In a canonical vector, an entry's power is exactly its unit's exponent.
proof fn lemma_exp_of_entry(s: Seq<(Unit, i32)>, i: int)
    requires
        is_canonical_unit_vec(s),
        0 <= i < s.len(),
    ensures
        unit_exp(s, s[i].0) == s[i].1 as int,
    decreases s,
{
    if i == 0 {
        assert(forall|j: int|
            0 <= j < s.skip(1).len() ==> (#[trigger] s.skip(1)[j]).0 != s[0].0) by {
            assert(forall|j: int| 0 <= j < s.skip(1).len() ==> s.skip(1)[j] == s[j + 1]);
        }
        lemma_exp_zero_if_absent(s.skip(1), s[0].0);
    } else {
        assert(is_canonical_unit_vec(s.skip(1))) by {
            assert(forall|j: int| 0 <= j < s.skip(1).len() ==> s.skip(1)[j] == s[j + 1]);
        }
        assert(s.skip(1)[i - 1] == s[i]);
        lemma_exp_of_entry(s.skip(1), i - 1);
        assert(s[0].0 != s[i].0);
    }
}

/// A nonzero exponent names an entry.
proof fn lemma_exp_nonzero_member(s: Seq<(Unit, i32)>, u: Unit)
    requires
        unit_exp(s, u) != 0,
    ensures
        exists|i: int| 0 <= i < s.len() && (#[trigger] s[i]).0 == u,
{
    if forall|i: int| 0 <= i < s.len() ==> (#[trigger] s[i]).0 != u {
        lemma_exp_zero_if_absent(s, u);
    }
}

/// The canonical form of a dimension is unique: two canonical vectors with
/// the same exponent for every unit are the same vector. In particular,
/// re-canonicalizing an already-canonical unit product leaves it unchanged,
/// so repeated type inference over unit arithmetic is idempotent.
pub proof fn lemma_canonical_unit_vec_unique(s1: Seq<(Unit, i32)>, s2: Seq<(Unit, i32)>)
    requires
        is_canonical_unit_vec(s1),
        is_canonical_unit_vec(s2),
        forall|u: Unit| unit_exp(s1, u) == unit_exp(s2, u),
    ensures
        s1 =~= s2,
    decreases s1.len() + s2.len(),
{
    if s1.len() == 0 {
        if s2.len() > 0 {
            lemma_exp_of_entry(s2, 0);
            assert(unit_exp(s1, s2[0].0) == 0);
        }
    } else if s2.len() == 0 {
        lemma_exp_of_entry(s1, 0);
        assert(unit_exp(s2, s1[0].0) == 0);
    } else {
        lemma_exp_of_entry(s1, 0);
        lemma_exp_of_entry(s2, 0);
        assert(unit_exp(s2, s1[0].0) == s1[0].1 as int);
        assert(s1[0].1 != 0);
        lemma_exp_nonzero_member(s2, s1[0].0);
        let j = choose|j: int| 0 <= j < s2.len() && (#[trigger] s2[j]).0 == s1[0].0;
        lemma_exp_of_entry(s2, j);
        assert(s2[j].1 as int == unit_exp(s2, s1[0].0));
        assert(s2[j] == s1[0]);
        lemma_exp_nonzero_member(s1, s2[0].0);
        let i = choose|i: int| 0 <= i < s1.len() && (#[trigger] s1[i]).0 == s2[0].0;
        lemma_exp_of_entry(s1, i);
        assert(s1[i] == s2[0]);
        if i > 0 && j > 0 {
            assert(unit_entry_lt(s1[0], s1[i]));
            assert(unit_entry_lt(s2[0], s2[j]));
            assert(false);
        }
        assert(s1[0] == s2[0]);
        let t1 = s1.skip(1);
        let t2 = s2.skip(1);
        assert(is_canonical_unit_vec(t1)) by {
            assert(forall|m: int| 0 <= m < t1.len() ==> t1[m] == s1[m + 1]);
        }
        assert(is_canonical_unit_vec(t2)) by {
            assert(forall|m: int| 0 <= m < t2.len() ==> t2[m] == s2[m + 1]);
        }
        assert forall|u: Unit| unit_exp(t1, u) == unit_exp(t2, u) by {
            assert(unit_exp(s1, u) == (if s1[0].0 == u {
                s1[0].1 as int
            } else {
                0
            }) + unit_exp(s1.skip(1), u));
            assert(unit_exp(s2, u) == (if s2[0].0 == u {
                s2[0].1 as int
            } else {
                0
            }) + unit_exp(s2.skip(1), u));
        }
        lemma_canonical_unit_vec_unique(t1, t2);
        assert(s1 =~= s2) by {
            assert(forall|m: int| 1 <= m < s1.len() ==> s1[m] == t1[m - 1] && s2[m] == t2[m
                - 1]);
        }
    }
}

} // verus!
