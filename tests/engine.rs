use deez::standard::StandardNotation;
use deez::{Notation, Roll, RollError, RollExpression, RollModifier, RollQuality, RollRetention};

fn one(text: &str) -> RollExpression {
    let mut es = StandardNotation::parse_from_str(text).unwrap();
    assert_eq!(es.len(), 1);
    es.remove(0)
}

fn values(e: &RollExpression, pool: &[usize]) -> (i64, Vec<(usize, bool)>) {
    let r = e.roll_from_pool(&pool.to_vec()).unwrap();
    (r.total, r.rolls.iter().map(|i| (i.value, i.retained)).collect())
}

#[test]
fn single_d20() {
    let r = one("1d20").roll_from_pool(&vec![15]).unwrap();
    assert_eq!(r.total, 15);
    assert_eq!(r.rolls.len(), 1);
    assert_eq!(r.rolls[0].value, 15);
    assert!(r.rolls[0].retained);
    assert_eq!(r.rolls[0].quality, RollQuality::Regular);
    assert_eq!(r.input, "1d20");
}

#[test]
fn keep_highest_two() {
    let (total, rolls) = values(&one("3d6h2"), &[2, 5, 4]);
    assert_eq!(total, 9);
    assert_eq!(rolls, vec![(2, false), (5, true), (4, true)]);
}

#[test]
fn keep_lowest_one() {
    let (total, rolls) = values(&one("3d6l1"), &[2, 5, 4]);
    assert_eq!(total, 2);
    assert_eq!(rolls, vec![(2, true), (5, false), (4, false)]);
}

#[test]
fn equal_values_drop_in_pool_order() {
    let (total, rolls) = values(&one("4d6h2"), &[3, 3, 5, 3]);
    assert_eq!(total, 8);
    assert_eq!(rolls, vec![(3, false), (3, false), (5, true), (3, true)]);
    let (total, rolls) = values(&one("3d6l1"), &[4, 4, 4]);
    assert_eq!(total, 4);
    assert_eq!(rolls, vec![(4, false), (4, false), (4, true)]);
}

#[test]
fn explosion_chain() {
    let r = one("2d6!6").roll_from_pool(&vec![6, 3, 2]).unwrap();
    assert_eq!(r.total, 11);
    assert_eq!(r.rolls.iter().map(|i| i.value).collect::<Vec<_>>(), vec![6, 3, 2]);
    assert!(r.rolls.iter().all(|i| i.retained));
    assert_eq!(r.rolls[0].quality, RollQuality::Good);
    assert_eq!(r.input, "2d6!");
}

#[test]
fn percentile() {
    let e = one("d%");
    assert_eq!((e.faces, e.count), (100, 1));
    let r = e.roll_from_pool(&vec![57]).unwrap();
    assert_eq!(r.total, 57);
    assert_eq!(r.input, "1d%");
}

#[test]
fn modifiers_apply_in_order() {
    assert_eq!(values(&one("2d6+3x2"), &[1, 4]).0, 16);
    assert_eq!(values(&one("2d6x2+3"), &[1, 4]).0, 13);
    assert_eq!(values(&one("2d6-20/3"), &[1, 4]).0, -5);
    assert_eq!(values(&one("3d10+3"), &[1, 10, 7]).0, 21);
    assert_eq!(values(&one("10d6 - 5"), &[1, 2, 3, 4, 5, 6, 1, 2, 3, 4]).0, 26);
    assert_eq!(values(&one("8d8 / 2"), &[8, 8, 8, 8, 8, 8, 8, 7]).0, 31);
}

#[test]
fn quality_of_values() {
    let r = one("3d6").roll_from_pool(&vec![6, 1, 3]).unwrap();
    let q: Vec<RollQuality> = r.rolls.iter().map(|i| i.quality).collect();
    assert_eq!(q, vec![RollQuality::Good, RollQuality::Bad, RollQuality::Regular]);
}

#[test]
fn canonical_notation() {
    let r = one("d20 h1 + 4").roll_from_pool(&vec![9]).unwrap();
    assert_eq!(r.input, "1d20h1+4");
    let r = one("3d8!5-1").roll_from_pool(&vec![2, 3, 4]).unwrap();
    assert_eq!(r.input, "3d8!5-1");
}

#[test]
fn divide_by_zero_is_an_error() {
    assert_eq!(one("d6/0").roll_from_pool(&vec![3]).err(), Some(RollError::ArithmeticError));
}

#[test]
fn overflow_is_an_error() {
    let e = RollExpression {
        faces: 6,
        count: 1,
        retention: RollRetention::All,
        modifiers: vec![RollModifier::Add(usize::MAX)],
    };
    assert_eq!(e.roll_from_pool(&vec![3]).err(), Some(RollError::ArithmeticError));
}

#[test]
fn too_many_kept_is_an_error() {
    assert_eq!(one("2d6h3").roll_from_pool(&vec![1, 2]).err(), Some(RollError::InvalidRetention));
    assert_eq!(one("2d6l3").roll().err(), Some(RollError::InvalidRetention));
}

#[test]
fn bad_threshold_is_an_error_when_rolled() {
    let e = RollExpression {
        faces: 6,
        count: 2,
        retention: RollRetention::All,
        modifiers: vec![RollModifier::Explode(7)],
    };
    assert_eq!(e.explodes_at(), Err(RollError::InvalidModifier));
    assert_eq!(e.roll().err(), Some(RollError::InvalidModifier));
    assert_eq!(one("d6!4").explodes_at(), Ok(Some(4)));
    assert_eq!(one("d6+1").explodes_at(), Ok(None));
}

#[test]
fn random_rolls_stay_in_range() {
    let e = one("20d6h15");
    for _ in 0..50 {
        let r = e.roll().unwrap();
        assert_eq!(r.rolls.len(), 20);
        assert!(r.rolls.iter().all(|i| (1..=6).contains(&i.value)));
        assert_eq!(r.rolls.iter().filter(|i| i.retained).count(), 15);
        let sum: usize = r.rolls.iter().filter(|i| i.retained).map(|i| i.value).sum();
        assert_eq!(r.total, sum as i64);
    }
}

#[test]
fn random_explosions_end_below_threshold() {
    let e = one("5d6!5");
    for _ in 0..50 {
        let r = e.roll().unwrap();
        assert!(r.rolls.len() >= 5);
        assert!(r.rolls.last().unwrap().value < 5);
        assert_eq!(r.rolls.iter().filter(|i| i.value < 5).count(), 5);
    }
}

#[test]
fn endless_explosion_is_given_up() {
    assert_eq!(one("2d6!1").roll().err(), Some(RollError::InvalidModifier));
}

#[test]
fn canonical_notation_parses_back() {
    for text in ["4d8h2!+3x2", "d%l1-2", "3d6!4/2", "10d6 - 5", " 2d20h1  d4+1 ", "1d100!50"] {
        let first = StandardNotation::parse_from_str(text).unwrap();
        let rendered: Vec<String> = first
            .iter()
            .map(|e| e.roll_from_pool(&vec![1; e.count]).unwrap().input)
            .collect();
        let again = StandardNotation::parse_from_str(&rendered.join(" ")).unwrap();
        assert_eq!(first.len(), again.len());
        for (a, b) in first.iter().zip(again.iter()) {
            assert_eq!((a.count, a.faces, a.retention), (b.count, b.faces, b.retention));
            assert_eq!(a.modifiers, b.modifiers);
        }
    }
}

#[test]
fn random_rolls_vary() {
    let r = one("60d6").roll().unwrap();
    assert!(r.rolls.iter().any(|i| i.value != 6));
    assert!(r.rolls.iter().any(|i| i.value != 1));
}

#[test]
fn roll_with_given_generator() {
    let mut rng = rand::thread_rng();
    let e = one("4d10l2+1");
    for _ in 0..20 {
        let r = e.roll_dice(&mut rng).unwrap();
        assert_eq!(r.rolls.len(), 4);
        assert!(r.rolls.iter().all(|i| (1..=10).contains(&i.value)));
        assert_eq!(r.rolls.iter().filter(|i| i.retained).count(), 2);
        assert_eq!(r.input, "4d10l2+1");
    }
}
