use uitree::units::{str_eq, Unit, FIXED_ONE};

const ALL_UNITS: [Unit; 14] = [
    Unit::Unitless,
    Unit::Percent,
    Unit::Phx,
    Unit::Px,
    Unit::Cm,
    Unit::Mm,
    Unit::In,
    Unit::Pt,
    Unit::S,
    Unit::Ms,
    Unit::Deg,
    Unit::Grad,
    Unit::Turn,
    Unit::Rad,
];

#[test]
fn unit_display_parse_round_trip() {
    for u in ALL_UNITS {
        let text = u.to_string();
        assert_eq!(Unit::from_str(&text), Some(u));
    }
}

#[test]
fn unit_parse_rejects_unknown_suffixes() {
    assert_eq!(Unit::from_str("xyz"), None);
    assert_eq!(Unit::from_str("pxx"), None);
    assert_eq!(Unit::from_str("PX"), None);
}

#[test]
fn centimeters_normalize_to_logical_pixels() {
    // Five centimeters are 5 * 37.8 logical pixels.
    assert_eq!(Unit::Cm.normalize(5 * FIXED_ONE), 189 * FIXED_ONE);
}

#[test]
fn points_seconds_and_turns_normalize() {
    // Three points are four logical pixels.
    assert_eq!(Unit::Pt.normalize(3 * FIXED_ONE), 4 * FIXED_ONE);
    // Two seconds are two thousand milliseconds.
    assert_eq!(Unit::S.normalize(2 * FIXED_ONE), 2000 * FIXED_ONE);
    // Half a turn scales by one over three hundred sixty.
    assert_eq!(Unit::Turn.normalize(720 * FIXED_ONE), 2 * FIXED_ONE);
    // Plain numbers and plain pixels stay as they are.
    assert_eq!(Unit::Unitless.normalize(7 * FIXED_ONE), 7 * FIXED_ONE);
    assert_eq!(Unit::Px.normalize(7 * FIXED_ONE), 7 * FIXED_ONE);
    // Negative values scale by magnitude.
    assert_eq!(Unit::S.normalize(-FIXED_ONE), -1000 * FIXED_ONE);
}

#[test]
fn string_equality_helper() {
    assert!(str_eq("abc", "abc"));
    assert!(!str_eq("abc", "abd"));
    assert!(!str_eq("abc", "abcd"));
    assert!(str_eq("", ""));
}
