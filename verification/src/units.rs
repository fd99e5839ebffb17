use vstd::prelude::*;

verus! {

broadcast use vstd::string::group_string_axioms;

/// Numeric literals carry fixed-point values: an integer count of millionths.
/// One whole unit is `FIXED_ONE`.
pub const FIXED_ONE: i128 = 1000000;

/// The largest magnitude a literal value may have before unit normalization;
/// keeps every scaling product inside i128.
pub const MAX_UNIT_VALUE: i128 = 1000000000000000000000000000000;

/// The units that can be written after numbers in the language.
#[derive(Clone, Copy, PartialEq, Eq, Structural, Debug)]
pub enum Unit {
    /// No unit was given
    Unitless,
    /// Percent
    Percent,
    /// Physical pixels
    Phx,
    /// Logical pixels
    Px,
    /// Centimeters
    Cm,
    /// Millimeters
    Mm,
    /// Inches
    In,
    /// Points
    Pt,
    /// Seconds
    S,
    /// Milliseconds
    Ms,
    /// Degrees
    Deg,
    /// Gradians
    Grad,
    /// Turns
    Turn,
    /// Radians
    Rad,
}

/// The text a unit displays as, and parses from.
pub open spec fn spec_unit_str(u: Unit) -> Seq<char> {
    match u {
        Unit::Unitless => ""@,
        Unit::Percent => "%"@,
        Unit::Phx => "phx"@,
        Unit::Px => "px"@,
        Unit::Cm => "cm"@,
        Unit::Mm => "mm"@,
        Unit::In => "in"@,
        Unit::Pt => "pt"@,
        Unit::S => "s"@,
        Unit::Ms => "ms"@,
        Unit::Deg => "deg"@,
        Unit::Grad => "grad"@,
        Unit::Turn => "turn"@,
        Unit::Rad => "rad"@,
    }
}

pub open spec fn spec_unit_from_str(s: Seq<char>) -> Option<Unit> {
    if s == spec_unit_str(Unit::Unitless) {
        Some(Unit::Unitless)
    } else if s == spec_unit_str(Unit::Percent) {
        Some(Unit::Percent)
    } else if s == spec_unit_str(Unit::Phx) {
        Some(Unit::Phx)
    } else if s == spec_unit_str(Unit::Px) {
        Some(Unit::Px)
    } else if s == spec_unit_str(Unit::Cm) {
        Some(Unit::Cm)
    } else if s == spec_unit_str(Unit::Mm) {
        Some(Unit::Mm)
    } else if s == spec_unit_str(Unit::In) {
        Some(Unit::In)
    } else if s == spec_unit_str(Unit::Pt) {
        Some(Unit::Pt)
    } else if s == spec_unit_str(Unit::S) {
        Some(Unit::S)
    } else if s == spec_unit_str(Unit::Ms) {
        Some(Unit::Ms)
    } else if s == spec_unit_str(Unit::Deg) {
        Some(Unit::Deg)
    } else if s == spec_unit_str(Unit::Grad) {
        Some(Unit::Grad)
    } else if s == spec_unit_str(Unit::Turn) {
        Some(Unit::Turn)
    } else if s == spec_unit_str(Unit::Rad) {
        Some(Unit::Rad)
    } else {
        Option::None
    }
}

/// Compare two string slices character by character.
pub fn str_eq(a: &str, b: &str) -> (r: bool)
    ensures
        r == (a@ == b@),
{
    let la = a.unicode_len();
    let lb = b.unicode_len();
    if la != lb {
        proof {
            assert(a@ != b@);
        }
        return false;
    }
    let mut i: usize = 0;
    while i < la
        invariant
            0 <= i <= la,
            la == a@.len(),
            la == b@.len(),
            forall|j: int| 0 <= j < i ==> a@[j] == b@[j],
        decreases la - i,
    {
        let ca = a.get_char(i);
        let cb = b.get_char(i);
        if ca != cb {
            proof {
                assert(a@ != b@);
            }
            return false;
        }
        i = i + 1;
    }
    proof {
        assert(a@ =~= b@);
    }
    true
}

/// Strict lexicographic order on character sequences.
pub open spec fn spec_str_lt(a: Seq<char>, b: Seq<char>) -> bool
    decreases a,
{
    if b.len() == 0 {
        false
    } else if a.len() == 0 {
        true
    } else if a[0] != b[0] {
        a[0] < b[0]
    } else {
        spec_str_lt(a.skip(1), b.skip(1))
    }
}

/// The strict lexicographic order is asymmetric.
pub proof fn lemma_str_lt_asymmetric(a: Seq<char>, b: Seq<char>)
    requires
        spec_str_lt(a, b),
    ensures
        !spec_str_lt(b, a),
    decreases a,
{
    if b.len() == 0 {
    } else if a.len() == 0 {
    } else if a[0] != b[0] {
    } else {
        lemma_str_lt_asymmetric(a.skip(1), b.skip(1));
    }
}

/// Lexicographic order on string slices by character.
pub fn str_lt(a: &str, b: &str) -> (r: bool)
    ensures
        r == spec_str_lt(a@, b@),
{
    let la = a.unicode_len();
    let lb = b.unicode_len();
    let n = if la < lb {
        la
    } else {
        lb
    };
    let mut i: usize = 0;
    proof {
        assert(a@.skip(0) =~= a@);
        assert(b@.skip(0) =~= b@);
    }
    while i < n
        invariant
            0 <= i <= n,
            n <= a@.len(),
            n <= b@.len(),
            la == a@.len(),
            lb == b@.len(),
            n == (if la < lb {
                la
            } else {
                lb
            }),
            spec_str_lt(a@, b@) == spec_str_lt(a@.skip(i as int), b@.skip(i as int)),
        decreases n - i,
    {
        proof {
            assert(a@.skip(i as int)[0] == a@[i as int]);
            assert(b@.skip(i as int)[0] == b@[i as int]);
            assert(a@.skip(i as int).skip(1) =~= a@.skip(i as int + 1));
            assert(b@.skip(i as int).skip(1) =~= b@.skip(i as int + 1));
        }
        let ca = a.get_char(i);
        let cb = b.get_char(i);
        if ca != cb {
            return ca < cb;
        }
        i = i + 1;
    }
    proof {
        if la < lb {
            assert(a@.skip(n as int) =~= Seq::<char>::empty());
            assert(b@.skip(n as int).len() > 0);
        } else {
            assert(b@.skip(n as int) =~= Seq::<char>::empty());
        }
    }
    la < lb
}

/// The rational factor that converts a value in this unit to the unit's base
/// representation. Radians use a fixed rational approximation of the circle
/// constant over 360.
pub open spec fn spec_unit_factor(u: Unit) -> (int, int) {
    match u {
        Unit::Unitless => (1int, 1int),
        Unit::Percent => (1int, 1int),
        Unit::Phx => (1int, 1int),
        Unit::Px => (1int, 1int),
        Unit::Cm => (378int, 10int),
        Unit::Mm => (378int, 100int),
        Unit::In => (96int, 1int),
        Unit::Pt => (4int, 3int),
        Unit::S => (1000int, 1int),
        Unit::Ms => (1int, 1int),
        Unit::Deg => (1int, 1int),
        Unit::Grad => (10int, 9int),
        Unit::Turn => (1int, 360int),
        Unit::Rad => (17453293int, 1000000000int),
    }
}

/// A value scaled by the unit's factor, rounding the magnitude down.
pub open spec fn spec_normalize(u: Unit, x: int) -> int {
    let (num, den) = spec_unit_factor(u);
    if x >= 0 {
        (x * num) / den
    } else {
        -(((-x) * num) / den)
    }
}

impl Unit {
    /// The canonical display text of this unit.
    pub fn to_string(self) -> (r: String)
        ensures
            r@ == spec_unit_str(self),
    {
        match self {
            Unit::Unitless => String::from_str(""),
            Unit::Percent => String::from_str("%"),
            Unit::Phx => String::from_str("phx"),
            Unit::Px => String::from_str("px"),
            Unit::Cm => String::from_str("cm"),
            Unit::Mm => String::from_str("mm"),
            Unit::In => String::from_str("in"),
            Unit::Pt => String::from_str("pt"),
            Unit::S => String::from_str("s"),
            Unit::Ms => String::from_str("ms"),
            Unit::Deg => String::from_str("deg"),
            Unit::Grad => String::from_str("grad"),
            Unit::Turn => String::from_str("turn"),
            Unit::Rad => String::from_str("rad"),
        }
    }

    /// Parse a unit suffix; `Some` exactly for the fourteen unit spellings.
    pub fn from_str(s: &str) -> (r: Option<Unit>)
        ensures
            r == spec_unit_from_str(s@),
    {
        if str_eq(s, "") {
            Some(Unit::Unitless)
        } else if str_eq(s, "%") {
            Some(Unit::Percent)
        } else if str_eq(s, "phx") {
            Some(Unit::Phx)
        } else if str_eq(s, "px") {
            Some(Unit::Px)
        } else if str_eq(s, "cm") {
            Some(Unit::Cm)
        } else if str_eq(s, "mm") {
            Some(Unit::Mm)
        } else if str_eq(s, "in") {
            Some(Unit::In)
        } else if str_eq(s, "pt") {
            Some(Unit::Pt)
        } else if str_eq(s, "s") {
            Some(Unit::S)
        } else if str_eq(s, "ms") {
            Some(Unit::Ms)
        } else if str_eq(s, "deg") {
            Some(Unit::Deg)
        } else if str_eq(s, "grad") {
            Some(Unit::Grad)
        } else if str_eq(s, "turn") {
            Some(Unit::Turn)
        } else if str_eq(s, "rad") {
            Some(Unit::Rad)
        } else {
            None
        }
    }

    /// Scale a fixed-point literal value into the unit's base representation,
    /// done once when the literal enters the expression tree so that all later
    /// arithmetic works in one canonical unit per dimension.
    pub fn normalize(self, x: i128) -> (r: i128)
        requires
            -MAX_UNIT_VALUE <= x <= MAX_UNIT_VALUE,
        ensures
            r == spec_normalize(self, x as int),
    {
        let (num, den) = self.factor();
        if x >= 0 {
            (x * num) / den
        } else {
            -(((-x) * num) / den)
        }
    }

    /// The rational scale factor of this unit, numerator then denominator.
    pub fn factor(self) -> (r: (i128, i128))
        ensures
            (r.0 as int, r.1 as int) == spec_unit_factor(self),
            1 <= r.0 <= 17453293,
            1 <= r.1 <= 1000000000,
    {
        match self {
            Unit::Unitless => (1, 1),
            Unit::Percent => (1, 1),
            Unit::Phx => (1, 1),
            Unit::Px => (1, 1),
            Unit::Cm => (378, 10),
            Unit::Mm => (378, 100),
            Unit::In => (96, 1),
            Unit::Pt => (4, 3),
            Unit::S => (1000, 1),
            Unit::Ms => (1, 1),
            Unit::Deg => (1, 1),
            Unit::Grad => (10, 9),
            Unit::Turn => (1, 360),
            Unit::Rad => (17453293, 1000000000),
        }
    }

    /// A stable position for each unit, giving the tie-break order of the
    /// canonical unit-product sort.
    pub fn rank(self) -> (r: u8)
        ensures
            r == spec_unit_rank(self),
    {
        match self {
            Unit::Unitless => 0,
            Unit::Percent => 1,
            Unit::Phx => 2,
            Unit::Px => 3,
            Unit::Cm => 4,
            Unit::Mm => 5,
            Unit::In => 6,
            Unit::Pt => 7,
            Unit::S => 8,
            Unit::Ms => 9,
            Unit::Deg => 10,
            Unit::Grad => 11,
            Unit::Turn => 12,
            Unit::Rad => 13,
        }
    }
}

pub open spec fn spec_unit_rank(u: Unit) -> int {
    match u {
        Unit::Unitless => 0,
        Unit::Percent => 1,
        Unit::Phx => 2,
        Unit::Px => 3,
        Unit::Cm => 4,
        Unit::Mm => 5,
        Unit::In => 6,
        Unit::Pt => 7,
        Unit::S => 8,
        Unit::Ms => 9,
        Unit::Deg => 10,
        Unit::Grad => 11,
        Unit::Turn => 12,
        Unit::Rad => 13,
    }
}

impl Default for Unit {
    fn default() -> (r: Self)
        ensures
            r == Unit::Unitless,
    {
        Unit::Unitless
    }
}

/// Displaying a unit and parsing that text back yields the same unit.
#[verifier::rlimit(50)]
pub proof fn lemma_unit_display_parse_roundtrip(u: Unit)
    ensures
        spec_unit_from_str(spec_unit_str(u)) == Some(u),
{
    reveal_strlit("");
    reveal_strlit("%");
    reveal_strlit("phx");
    reveal_strlit("px");
    reveal_strlit("cm");
    reveal_strlit("mm");
    reveal_strlit("in");
    reveal_strlit("pt");
    reveal_strlit("s");
    reveal_strlit("ms");
    reveal_strlit("deg");
    reveal_strlit("grad");
    reveal_strlit("turn");
    reveal_strlit("rad");
    assert((""@).len() == 0);
    assert(("%"@).len() == 1);
    assert(("%"@)[0] == '%');
    assert(("phx"@).len() == 3);
    assert(("phx"@)[0] == 'p');
    assert(("phx"@)[1] == 'h');
    assert(("phx"@)[2] == 'x');
    assert(("px"@).len() == 2);
    assert(("px"@)[0] == 'p');
    assert(("px"@)[1] == 'x');
    assert(("cm"@).len() == 2);
    assert(("cm"@)[0] == 'c');
    assert(("cm"@)[1] == 'm');
    assert(("mm"@).len() == 2);
    assert(("mm"@)[0] == 'm');
    assert(("mm"@)[1] == 'm');
    assert(("in"@).len() == 2);
    assert(("in"@)[0] == 'i');
    assert(("in"@)[1] == 'n');
    assert(("pt"@).len() == 2);
    assert(("pt"@)[0] == 'p');
    assert(("pt"@)[1] == 't');
    assert(("s"@).len() == 1);
    assert(("s"@)[0] == 's');
    assert(("ms"@).len() == 2);
    assert(("ms"@)[0] == 'm');
    assert(("ms"@)[1] == 's');
    assert(("deg"@).len() == 3);
    assert(("deg"@)[0] == 'd');
    assert(("deg"@)[1] == 'e');
    assert(("deg"@)[2] == 'g');
    assert(("grad"@).len() == 4);
    assert(("grad"@)[0] == 'g');
    assert(("grad"@)[1] == 'r');
    assert(("grad"@)[2] == 'a');
    assert(("grad"@)[3] == 'd');
    assert(("turn"@).len() == 4);
    assert(("turn"@)[0] == 't');
    assert(("turn"@)[1] == 'u');
    assert(("turn"@)[2] == 'r');
    assert(("turn"@)[3] == 'n');
    assert(("rad"@).len() == 3);
    assert(("rad"@)[0] == 'r');
    assert(("rad"@)[1] == 'a');
    assert(("rad"@)[2] == 'd');
    match u {
        Unit::Unitless => {
            assert(spec_unit_str(u) == ""@);
            assert(spec_unit_from_str(spec_unit_str(u)) == Some(u));
        }
        Unit::Percent => {
            assert(spec_unit_str(u) == "%"@);
            assert(""@ != "%"@);
            assert(spec_unit_from_str(spec_unit_str(u)) == Some(u));
        }
        Unit::Phx => {
            assert(spec_unit_str(u) == "phx"@);
            assert(""@ != "phx"@);
            assert("%"@ != "phx"@);
            assert(spec_unit_from_str(spec_unit_str(u)) == Some(u));
        }
        Unit::Px => {
            assert(spec_unit_str(u) == "px"@);
            assert(""@ != "px"@);
            assert("%"@ != "px"@);
            assert("phx"@ != "px"@);
            assert(spec_unit_from_str(spec_unit_str(u)) == Some(u));
        }
        Unit::Cm => {
            assert(spec_unit_str(u) == "cm"@);
            assert(""@ != "cm"@);
            assert("%"@ != "cm"@);
            assert("phx"@ != "cm"@);
            assert("px"@ != "cm"@);
            assert(spec_unit_from_str(spec_unit_str(u)) == Some(u));
        }
        Unit::Mm => {
            assert(spec_unit_str(u) == "mm"@);
            assert(""@ != "mm"@);
            assert("%"@ != "mm"@);
            assert("phx"@ != "mm"@);
            assert("px"@ != "mm"@);
            assert("cm"@ != "mm"@);
            assert(spec_unit_from_str(spec_unit_str(u)) == Some(u));
        }
        Unit::In => {
            assert(spec_unit_str(u) == "in"@);
            assert(""@ != "in"@);
            assert("%"@ != "in"@);
            assert("phx"@ != "in"@);
            assert("px"@ != "in"@);
            assert("cm"@ != "in"@);
            assert("mm"@ != "in"@);
            assert(spec_unit_from_str(spec_unit_str(u)) == Some(u));
        }
        Unit::Pt => {
            assert(spec_unit_str(u) == "pt"@);
            assert(""@ != "pt"@);
            assert("%"@ != "pt"@);
            assert("phx"@ != "pt"@);
            assert("px"@ != "pt"@);
            assert("cm"@ != "pt"@);
            assert("mm"@ != "pt"@);
            assert("in"@ != "pt"@);
            assert(spec_unit_from_str(spec_unit_str(u)) == Some(u));
        }
        Unit::S => {
            assert(spec_unit_str(u) == "s"@);
            assert(""@ != "s"@);
            assert("%"@ != "s"@);
            assert("phx"@ != "s"@);
            assert("px"@ != "s"@);
            assert("cm"@ != "s"@);
            assert("mm"@ != "s"@);
            assert("in"@ != "s"@);
            assert("pt"@ != "s"@);
            assert(spec_unit_from_str(spec_unit_str(u)) == Some(u));
        }
        Unit::Ms => {
            assert(spec_unit_str(u) == "ms"@);
            assert(""@ != "ms"@);
            assert("%"@ != "ms"@);
            assert("phx"@ != "ms"@);
            assert("px"@ != "ms"@);
            assert("cm"@ != "ms"@);
            assert("mm"@ != "ms"@);
            assert("in"@ != "ms"@);
            assert("pt"@ != "ms"@);
            assert("s"@ != "ms"@);
            assert(spec_unit_from_str(spec_unit_str(u)) == Some(u));
        }
        Unit::Deg => {
            assert(spec_unit_str(u) == "deg"@);
            assert(""@ != "deg"@);
            assert("%"@ != "deg"@);
            assert("phx"@ != "deg"@);
            assert("px"@ != "deg"@);
            assert("cm"@ != "deg"@);
            assert("mm"@ != "deg"@);
            assert("in"@ != "deg"@);
            assert("pt"@ != "deg"@);
            assert("s"@ != "deg"@);
            assert("ms"@ != "deg"@);
            assert(spec_unit_from_str(spec_unit_str(u)) == Some(u));
        }
        Unit::Grad => {
            assert(spec_unit_str(u) == "grad"@);
            assert(""@ != "grad"@);
            assert("%"@ != "grad"@);
            assert("phx"@ != "grad"@);
            assert("px"@ != "grad"@);
            assert("cm"@ != "grad"@);
            assert("mm"@ != "grad"@);
            assert("in"@ != "grad"@);
            assert("pt"@ != "grad"@);
            assert("s"@ != "grad"@);
            assert("ms"@ != "grad"@);
            assert("deg"@ != "grad"@);
            assert(spec_unit_from_str(spec_unit_str(u)) == Some(u));
        }
        Unit::Turn => {
            assert(spec_unit_str(u) == "turn"@);
            assert(""@ != "turn"@);
            assert("%"@ != "turn"@);
            assert("phx"@ != "turn"@);
            assert("px"@ != "turn"@);
            assert("cm"@ != "turn"@);
            assert("mm"@ != "turn"@);
            assert("in"@ != "turn"@);
            assert("pt"@ != "turn"@);
            assert("s"@ != "turn"@);
            assert("ms"@ != "turn"@);
            assert("deg"@ != "turn"@);
            assert("grad"@ != "turn"@);
            assert(spec_unit_from_str(spec_unit_str(u)) == Some(u));
        }
        Unit::Rad => {
            assert(spec_unit_str(u) == "rad"@);
            assert(""@ != "rad"@);
            assert("%"@ != "rad"@);
            assert("phx"@ != "rad"@);
            assert("px"@ != "rad"@);
            assert("cm"@ != "rad"@);
            assert("mm"@ != "rad"@);
            assert("in"@ != "rad"@);
            assert("pt"@ != "rad"@);
            assert("s"@ != "rad"@);
            assert("ms"@ != "rad"@);
            assert("deg"@ != "rad"@);
            assert("grad"@ != "rad"@);
            assert("turn"@ != "rad"@);
            assert(spec_unit_from_str(spec_unit_str(u)) == Some(u));
        }
    }
}

} // verus!
