//! Choosing the day's answer: the shuffle, the rotation from the previous
//! answer, and the decision to reuse or rotate.

use cosmeredle::answer::{
    cached_answer, plan_answer, rotate_answer, rotate_hashed, shuffle_prefix, stored_answer, AnswerPlan, Day,
};
use cosmeredle::Error;

use chrono::{Datelike, NaiveDate};

fn names(v: &[&str]) -> Vec<String> {
    v.iter().map(|s| s.to_string()).collect()
}

fn day(number: i32) -> Day {
    Day { number, year: 2026 }
}

const SECRET: &[u8] = b"r4nd0mbyt3s";

#[test]
fn an_empty_character_list_is_an_error() {
    let prefix = shuffle_prefix(SECRET, 2026);
    match rotate_answer(&prefix, &Vec::new(), None, 0) {
        Err(Error::String(m)) => assert_eq!(m, "No characters found"),
        _ => panic!("nothing to pick"),
    }
}

#[test]
fn a_fresh_rotation_picks_a_listed_character() {
    let keys = names(&["Fresh One", "Fresh Two", "Fresh Three"]);
    let prefix = shuffle_prefix(SECRET, 2026);
    let answer = rotate_answer(&prefix, &keys, None, 0).ok().expect("an answer");
    assert!(keys.contains(&answer), "picked {answer:?}");
    // The choice does not depend on the order the characters are listed in.
    let reordered = names(&["Fresh Three", "Fresh One", "Fresh Two"]);
    assert_eq!(rotate_answer(&prefix, &reordered, None, 0).ok(), Some(answer));
}

#[test]
fn one_day_on_from_one_of_two_characters_is_the_other() {
    let keys = names(&["Rotate A", "Rotate B"]);
    let prefix = shuffle_prefix(SECRET, 2026);
    let a = rotate_answer(&prefix, &keys, Some("Rotate A".into()), 1).ok().expect("answer");
    assert_eq!(a, "Rotate B", "with two characters, one day on from A must be B");
    let b = rotate_answer(&prefix, &keys, Some("Rotate B".into()), 1).ok().expect("answer");
    assert_eq!(b, "Rotate A");
}

#[test]
fn two_days_over_two_characters_repeats_the_previous_answer() {
    let keys = names(&["Gap A", "Gap B"]);
    let prefix = shuffle_prefix(SECRET, 2026);
    let a = rotate_answer(&prefix, &keys, Some("Gap A".into()), 2).ok().expect("answer");
    assert_eq!(a, "Gap A", "two steps through two characters wraps back to the start");
}

#[test]
fn a_full_cycle_returns_to_the_previous_answer() {
    let keys = names(&["C1", "C2", "C3", "C4", "C5"]);
    let prefix = shuffle_prefix(SECRET, 2024);
    for k in &keys {
        let a = rotate_answer(&prefix, &keys, Some(k.clone()), 5).ok().expect("answer");
        assert_eq!(&a, k);
        let b = rotate_answer(&prefix, &keys, Some(k.clone()), 10).ok().expect("answer");
        assert_eq!(&b, k);
    }
}

#[test]
fn successive_days_visit_every_character_once() {
    let keys = names(&["C1", "C2", "C3", "C4", "C5"]);
    let prefix = shuffle_prefix(SECRET, 2024);
    let mut seen = vec![keys[0].clone()];
    for _ in 1..keys.len() {
        let next = rotate_answer(&prefix, &keys, seen.last().cloned(), 1).ok().expect("answer");
        assert!(!seen.contains(&next), "{next:?} came round twice");
        seen.push(next);
    }
}

#[test]
fn an_unknown_previous_answer_still_yields_a_playable_character() {
    let keys = names(&["Missing A", "Missing B"]);
    let prefix = shuffle_prefix(SECRET, 2026);
    let a = rotate_answer(&prefix, &keys, Some("Retired Character".into()), 1)
        .ok()
        .expect("answer");
    assert!(keys.contains(&a), "picked {a:?}");
}

#[test]
fn todays_stored_answer_is_reused_verbatim() {
    match plan_answer(Some(("Stored Name".into(), day(739_000))), day(739_000)) {
        AnswerPlan::Reuse(s) => assert_eq!(s, "Stored Name"),
        _ => panic!("today's answer must be reused"),
    }
}

#[test]
fn an_older_answer_is_rotated_from_by_the_days_elapsed() {
    match plan_answer(Some(("Gap A".into(), day(739_000))), day(739_002)) {
        AnswerPlan::Rotate { previous, days_since } => {
            assert_eq!(previous.as_deref(), Some("Gap A"));
            assert_eq!(days_since, 2);
        },
        _ => panic!("must rotate"),
    }
}

#[test]
fn a_future_stored_date_rotates_forward_by_its_distance() {
    // The day count is an absolute difference, so "tomorrow" is treated
    // exactly like "yesterday" and the answer still steps forward.
    match plan_answer(Some(("Future A".into(), day(739_001))), day(739_000)) {
        AnswerPlan::Rotate { previous, days_since } => {
            assert_eq!(previous.as_deref(), Some("Future A"));
            assert_eq!(days_since, 1);
        },
        _ => panic!("must rotate"),
    }
}

#[test]
fn without_a_stored_answer_the_rotation_starts_afresh() {
    match plan_answer(None, day(739_000)) {
        AnswerPlan::Rotate { previous, days_since } => {
            assert!(previous.is_none());
            assert_eq!(days_since, 0);
        },
        _ => panic!("must rotate"),
    }
}

#[test]
fn the_prefix_is_the_secret_and_the_era() {
    assert_eq!(shuffle_prefix(b"abc", 2026), b"abc2024".to_vec());
    assert_eq!(shuffle_prefix(b"abc", 2024), b"abc2024".to_vec());
    assert_eq!(shuffle_prefix(b"abc", 2023), b"abc2020".to_vec());
    assert_eq!(shuffle_prefix(b"", 3), b"0".to_vec());
    assert_eq!(shuffle_prefix(b"", -5), b"-4".to_vec());
    assert_eq!(shuffle_prefix(b"", i32::MIN), i32::MIN.to_string().into_bytes());
}

#[test]
fn the_shuffle_changes_with_the_secret_or_the_era() {
    let keys: Vec<String> = (0..40).map(|i| format!("Character {i}")).collect();
    let pick = |secret: &[u8], year: i32| {
        rotate_answer(&shuffle_prefix(secret, year), &keys, None, 0).ok().expect("answer")
    };
    let base = pick(b"one", 2024);
    assert_eq!(pick(b"one", 2027), base, "the same era keeps the same order");
    let others = [pick(b"two", 2024), pick(b"three", 2024), pick(b"one", 2028), pick(b"one", 2032)];
    assert!(others.iter().any(|o| *o != base), "the seed has no effect");
}

fn hashed(v: &[(u8, &str)]) -> Vec<(Vec<u8>, String)> {
    v.iter().map(|(d, n)| (vec![*d], n.to_string())).collect()
}

fn rotate(previous: Option<Vec<u8>>, days: u64) -> String {
    // Listed out of order on purpose: the digests decide the order A, B, C.
    let entries = hashed(&[(3, "C"), (1, "A"), (2, "B")]);
    rotate_hashed(entries, previous, days).ok().expect("an answer")
}

#[test]
fn the_digest_order_decides_the_fresh_answer() {
    assert_eq!(rotate(None, 0), "A");
}

#[test]
fn rotation_steps_through_the_digest_order() {
    assert_eq!(rotate(Some(vec![1]), 1), "B");
    assert_eq!(rotate(Some(vec![1]), 2), "C");
    assert_eq!(rotate(Some(vec![1]), 3), "A");
    assert_eq!(rotate(Some(vec![2]), 2), "A");
    assert_eq!(rotate(Some(vec![3]), 1), "A");
}

#[test]
fn an_unlisted_previous_digest_counts_from_where_it_would_sort() {
    // [2, 5] sorts between B and C: one day on is C.
    assert_eq!(rotate(Some(vec![2, 5]), 1), "C");
    assert_eq!(rotate(Some(vec![2, 5]), 2), "A");
    // Below every digest: one day on is the first.
    assert_eq!(rotate(Some(vec![0]), 1), "A");
    // Above every digest: it wraps round to the first.
    assert_eq!(rotate(Some(vec![9]), 1), "A");
}

#[test]
fn no_hashed_characters_is_an_error() {
    match rotate_hashed(Vec::new(), Some(vec![1]), 1) {
        Err(Error::String(m)) => assert_eq!(m, "No characters found"),
        _ => panic!("nothing to pick"),
    }
}

#[test]
fn a_stored_row_is_read_with_its_date() {
    let row = Some(("Kaladin".to_string(), "2024-03-05".to_string()));
    let (answer, d) = stored_answer(row).ok().flatten().expect("a stored answer");
    let expected = NaiveDate::from_ymd_opt(2024, 3, 5).expect("a date");
    assert_eq!(answer, "Kaladin");
    assert_eq!(d.number, expected.num_days_from_ce());
    assert_eq!(d.year, 2024);
}

#[test]
fn no_stored_row_is_no_stored_answer() {
    assert!(matches!(stored_answer(None), Ok(None)));
}

#[test]
fn an_unreadable_stored_date_is_an_error() {
    for bad in ["05/03/2024", "", "2024-13-01"] {
        match stored_answer(Some(("Kaladin".to_string(), bad.to_string()))) {
            Err(Error::String(m)) => assert_eq!(m, "Failed to parse date from database"),
            _ => panic!("{bad:?} was read as a date"),
        }
    }
}

#[test]
fn the_answer_in_memory_is_used_only_on_its_own_day() {
    let cached = Some(("Cached Name".to_string(), day(739_000)));
    assert_eq!(cached_answer(&cached, day(739_000)).as_deref(), Some("Cached Name"));
    assert_eq!(cached_answer(&cached, day(739_001)), None);
    assert_eq!(cached_answer(&None, day(739_000)), None);
}
