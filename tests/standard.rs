use deez::standard::StandardNotation;
use deez::{Notation, RollError, RollModifier, RollRetention};

const LEGAL_ROLLS: &[&str] = &[
    "d20", "1d20", "3d10+3", "10d6 - 5", "d6x4", "8d8 / 2", "d%", "12d%",
];
const ILLEGAL_ROLLS: &[&str] = &[
    "d0", "0d6", "3d10 3+", "%d", "-2d6", "2/1d8", "d%20", "%d10",
];

#[test]
fn parses_all_examples() {
    for input in LEGAL_ROLLS {
        let res = StandardNotation::parse_from_str(input);
        assert!(res.is_ok(), "{}", input);
    }
}

#[test]
fn fails_all_bad_examples() {
    for input in ILLEGAL_ROLLS {
        let res = StandardNotation::parse_from_str(input);
        assert!(res.is_err(), "{}", input);
    }
}

#[test]
fn illegal_rolls_are_invalid_notation() {
    for input in ILLEGAL_ROLLS {
        assert_eq!(StandardNotation::parse_from_str(input).err(), Some(RollError::InvalidNotation));
    }
    for input in ["", "   ", "d", "3d", "d6h", "d6+", "d6+2h1", "d6h1h1", "d6!!x", "1d6 q"] {
        assert_eq!(StandardNotation::parse_from_str(input).err(), Some(RollError::InvalidNotation), "{}", input);
    }
}

#[test]
fn defaults_and_percentile() {
    let es = StandardNotation::parse_from_str("d%").unwrap();
    assert_eq!(es.len(), 1);
    assert_eq!(es[0].faces, 100);
    assert_eq!(es[0].count, 1);
    assert_eq!(es[0].retention, RollRetention::All);
    assert!(es[0].modifiers.is_empty());
    let es = StandardNotation::parse_from_str("12d%").unwrap();
    assert_eq!((es[0].count, es[0].faces), (12, 100));
}

#[test]
fn full_expression_is_built() {
    let es = StandardNotation::parse_from_str("4d8h2!+3x2").unwrap();
    assert_eq!(es.len(), 1);
    let e = &es[0];
    assert_eq!((e.count, e.faces), (4, 8));
    assert_eq!(e.retention, RollRetention::Highest(2));
    assert_eq!(
        e.modifiers,
        vec![RollModifier::Explode(8), RollModifier::Add(3), RollModifier::Multiply(2)]
    );
    let es = StandardNotation::parse_from_str("10d6 - 5").unwrap();
    assert_eq!(es[0].modifiers, vec![RollModifier::Subtract(5)]);
    let es = StandardNotation::parse_from_str("8d8 / 2").unwrap();
    assert_eq!(es[0].modifiers, vec![RollModifier::Divide(2)]);
    let es = StandardNotation::parse_from_str("3d6l1").unwrap();
    assert_eq!(es[0].retention, RollRetention::Lowest(1));
}

#[test]
fn several_expressions_in_one_text() {
    let es = StandardNotation::parse_from_str(" 2d6+1 d20 3d4!3 ").unwrap();
    assert_eq!(es.len(), 3);
    assert_eq!((es[0].count, es[0].faces), (2, 6));
    assert_eq!((es[1].count, es[1].faces), (1, 20));
    assert_eq!(es[2].modifiers, vec![RollModifier::Explode(3)]);
}

#[test]
fn explode_threshold_is_checked_when_built() {
    assert_eq!(StandardNotation::parse_from_str("d6!7").err(), Some(RollError::InvalidModifier));
    assert_eq!(StandardNotation::parse_from_str("d6!0").err(), Some(RollError::InvalidModifier));
    assert!(StandardNotation::parse_from_str("d6!6").is_ok());
    assert!(StandardNotation::parse_from_str("d6!1").is_ok());
}

#[test]
fn numbers_too_large_are_rejected() {
    assert_eq!(
        StandardNotation::parse_from_str("d99999999999999999999999").err(),
        Some(RollError::InvalidNotation)
    );
}

#[test]
fn explode_defaults_and_order() {
    let es = StandardNotation::parse_from_str("d%!").unwrap();
    assert_eq!((es[0].count, es[0].faces), (1, 100));
    assert_eq!(es[0].modifiers, vec![RollModifier::Explode(100)]);
    let es = StandardNotation::parse_from_str("2d6!").unwrap();
    assert_eq!(es[0].modifiers, vec![RollModifier::Explode(6)]);
    let es = StandardNotation::parse_from_str("d6+2x3-1").unwrap();
    assert_eq!(
        es[0].modifiers,
        vec![RollModifier::Add(2), RollModifier::Multiply(3), RollModifier::Subtract(1)]
    );
    let es = StandardNotation::parse_from_str("d20d6").unwrap();
    assert_eq!(es.len(), 2);
    assert_eq!((es[0].count, es[0].faces, es[1].count, es[1].faces), (1, 20, 1, 6));
    let es = StandardNotation::parse_from_str("4d8l1").unwrap();
    assert_eq!((es[0].count, es[0].faces, es[0].retention), (4, 8, RollRetention::Lowest(1)));
}

#[test]
fn more_rejected_texts() {
    for input in ["2d6h", "d6 foo", "00d6", "d00", "d%2d6"] {
        assert_eq!(StandardNotation::parse_from_str(input).err(), Some(RollError::InvalidNotation), "{}", input);
    }
}
