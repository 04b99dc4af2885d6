use dice_bot::dice::{dice, explode, explosion_of, face_from_draw};
use dice_bot::text::int_to_string;

const RUNAWAY: &str = "nan mais t'abuse là avec ton dé explosif";

#[test]
fn dice_stays_on_the_die() {
    for _ in 0..2000 {
        let d = dice(6);
        assert!((1..=6).contains(&d));
    }
    for _ in 0..100 {
        assert_eq!(dice(1), 1);
    }
}

#[test]
fn dice_reaches_every_face() {
    let mut seen = [false; 6];
    for _ in 0..5000 {
        seen[(dice(6) - 1) as usize] = true;
    }
    assert!(seen.iter().all(|s| *s));
}

#[test]
fn face_from_draw_reduces_then_adds_one() {
    assert_eq!(face_from_draw(0, 6), 1);
    assert_eq!(face_from_draw(5, 6), 6);
    assert_eq!(face_from_draw(13, 6), 2);
    assert_eq!(face_from_draw(u64::MAX, 100), 16);
}

#[test]
fn explode_without_explosion_rolls_once() {
    for _ in 0..200 {
        let rolls = explode(10, |x| x > 10, 0).unwrap();
        assert_eq!(rolls.len(), 1);
        assert!((1..=10).contains(&rolls[0]));
    }
}

#[test]
fn explode_stops_at_first_low_roll() {
    for _ in 0..200 {
        let rolls = explode(10, |x| x >= 6, 0).unwrap();
        let (last, before) = rolls.split_last().unwrap();
        assert!(*last < 6);
        assert!(before.iter().all(|r| *r >= 6 && *r <= 10));
    }
}

#[test]
fn explode_that_never_stops_runs_away() {
    assert_eq!(explode(10, |_| true, 0).unwrap_err(), RUNAWAY);
    assert_eq!(explode(10, |_| true, 1000).unwrap_err(), RUNAWAY);
}

#[test]
fn explode_past_the_depth_limit_fails_at_once() {
    assert_eq!(explode(10, |_| false, 1001).unwrap_err(), RUNAWAY);
}

#[test]
fn explode_at_the_depth_limit_rolls_once_more() {
    let rolls = explode(10, |_| false, 1000).unwrap();
    assert_eq!(rolls.len(), 1);
}

#[test]
fn decimal_text_of_integers() {
    assert_eq!(int_to_string(0), "0");
    assert_eq!(int_to_string(7), "7");
    assert_eq!(int_to_string(-5), "-5");
    assert_eq!(int_to_string(1234), "1234");
    assert_eq!(int_to_string(i64::MAX), i64::MAX.to_string());
    assert_eq!(int_to_string(i64::MIN), i64::MIN.to_string());
}

#[test]
fn explosion_keeps_faces_up_to_the_first_dud() {
    assert_eq!(explosion_of(&vec![10, 10, 3, 9], &vec![true, true, false, true], 0).unwrap(), vec![10, 10, 3]);
    assert_eq!(explosion_of(&vec![4], &vec![false], 0).unwrap(), vec![4]);
    assert_eq!(explosion_of(&vec![4], &vec![false], 1000).unwrap(), vec![4]);
}

#[test]
fn explosion_runs_away_past_the_limit() {
    assert_eq!(explosion_of(&vec![10, 10], &vec![true, true], 999).unwrap_err(), RUNAWAY);
    assert_eq!(explosion_of(&vec![10, 3], &vec![true, false], 999).unwrap(), vec![10, 3]);
    assert_eq!(explosion_of(&vec![3], &vec![false], 1001).unwrap_err(), RUNAWAY);
    assert_eq!(explosion_of(&vec![10], &vec![true], 0).unwrap_err(), RUNAWAY);
}
