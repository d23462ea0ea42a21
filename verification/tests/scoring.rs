//! Scoring a guess against the answer: the comparison logic that produces
//! the board's colours.

use cosmeredle::server::{
    compare_abilities, needs_books, score_guess, BinaryStatus, SetStatus, TernaryStatus,
};
use cosmeredle::{Book, Character};

const ANSWER: &str = "Answer Hero";

/// name, [world, species, nation, nationality, ethnicity, introduced], abilities
type Fixture = (&'static str, [&'static str; 6], &'static [&'static str]);

const FIXTURES: &[Fixture] = &[
    (
        ANSWER,
        ["Roshar", "Human", "Alethkar", "Alethi", "Alethi", "The Way of Kings"],
        &["Windrunner", "Surgebinding"],
    ),
    (
        "Twin Hero",
        ["Roshar", "Human", "Alethkar", "Alethi", "Alethi", "The Way of Kings"],
        &["Windrunner", "Surgebinding"],
    ),
    (
        "Veden Human",
        ["Roshar", "Human", "Jah Keved", "Veden", "Veden", "The Way of Kings"],
        &["Lightweaver", "Surgebinding"],
    ),
    (
        "Scadrian Human",
        ["Scadrial", "Human", "Central Dominance", "Scadrian", "Scadrian", "The Final Empire"],
        &["Allomancy"],
    ),
    (
        "Honorspren",
        ["Roshar", "Spren", "Alethkar", "Alethi", "Alethi", "The Way of Kings"],
        &[],
    ),
    (
        "Overpowered Hero",
        ["Roshar", "Human", "Alethkar", "Alethi", "Alethi", "The Way of Kings"],
        &["Windrunner", "Surgebinding", "Bondsmith"],
    ),
    (
        "Same Series Hero",
        ["Roshar", "Human", "Alethkar", "Alethi", "Alethi", "Words of Radiance"],
        &["Windrunner", "Surgebinding"],
    ),
    (
        "Unlisted Book Hero",
        ["Roshar", "Human", "Alethkar", "Alethi", "Alethi", "An Unlisted Book"],
        &["Windrunner", "Surgebinding"],
    ),
];

/// title, series
const BOOKS: &[(&str, Option<&str>)] = &[
    ("The Way of Kings", Some("The Stormlight Archive")),
    ("Words of Radiance", Some("The Stormlight Archive")),
    ("The Final Empire", Some("Mistborn")),
];

fn character(name: &str) -> Character {
    let (n, [world, species, nation, nationality, ethnicity, introduced], abilities) =
        FIXTURES.iter().find(|f| f.0 == name).expect("fixture");
    let mut c = Character::default();
    for (k, v) in [
        ("universe", "Cosmere"),
        ("world", world),
        ("species", species),
        ("nation", nation),
        ("nationality", nationality),
        ("ethnicity", ethnicity),
        ("introduced", introduced),
    ] {
        c.add(k, v.to_string());
    }
    c.abilities(abilities.iter().map(|s| s.to_string()).collect());
    c.name(n.to_string());
    c
}

fn book(title: &str) -> Option<Book> {
    BOOKS.iter().find(|b| b.0 == title).map(|(t, s)| Book {
        title: t.to_string(),
        series: s.map(str::to_string),
    })
}

/// Scores `name` against the answer the way `/guess` does: the books are
/// looked up only when the introducing books differ.
fn score(name: &str) -> cosmeredle::server::GuessResponse {
    let guess = character(name);
    let answer = character(ANSWER);
    let (ab, gb) = if needs_books(&guess, &answer) {
        (book(&answer.introduced), book(&guess.introduced))
    } else {
        (None, None)
    };
    score_guess(guess, &answer, ab, gb)
}

#[test]
fn scoring_the_answer_itself_is_all_correct() {
    let v = score(ANSWER);
    assert_eq!(v.name, BinaryStatus::Correct);
    assert_eq!(v.world, BinaryStatus::Correct);
    assert_eq!(v.book, TernaryStatus::Correct);
    assert_eq!(v.species, TernaryStatus::Correct);
    assert_eq!(v.abilities, SetStatus::Equal);
}

#[test]
fn identical_attributes_score_only_the_name_wrong() {
    let v = score("Twin Hero");
    assert_eq!(v.name, BinaryStatus::Incorrect);
    assert_eq!(v.world, BinaryStatus::Correct);
    assert_eq!(v.book, TernaryStatus::Correct);
    assert_eq!(v.species, TernaryStatus::Correct);
    assert_eq!(v.abilities, SetStatus::Equal);
}

#[test]
fn same_species_from_elsewhere_scores_adjacent() {
    let v = score("Veden Human");
    assert_eq!(v.species, TernaryStatus::Adjacent);
    assert_eq!(v.world, BinaryStatus::Correct);
    assert_eq!(v.book, TernaryStatus::Correct);
    assert_eq!(v.abilities, SetStatus::Overlap);
}

#[test]
fn another_world_and_series_score_incorrect() {
    let v = score("Scadrian Human");
    assert_eq!(v.world, BinaryStatus::Incorrect);
    assert_eq!(v.book, TernaryStatus::Incorrect, "Mistborn is not Stormlight");
    assert_eq!(v.species, TernaryStatus::Adjacent);
    assert_eq!(v.abilities, SetStatus::Disjoint);
}

#[test]
fn another_species_scores_incorrect_regardless_of_origin() {
    let v = score("Honorspren");
    assert_eq!(v.species, TernaryStatus::Incorrect);
    assert_eq!(v.world, BinaryStatus::Correct);
}

#[test]
fn no_abilities_make_the_answer_a_superset() {
    assert_eq!(score("Honorspren").abilities, SetStatus::Superset);
}

#[test]
fn more_abilities_than_the_answer_make_it_a_subset() {
    assert_eq!(score("Overpowered Hero").abilities, SetStatus::Subset);
}

#[test]
fn a_later_book_of_the_same_series_is_adjacent() {
    assert_eq!(score("Same Series Hero").book, TernaryStatus::Adjacent);
}

#[test]
fn an_unlisted_book_is_incorrect() {
    assert_eq!(score("Unlisted Book Hero").book, TernaryStatus::Incorrect);
}

#[test]
fn the_verdict_describes_the_guess_and_never_the_answer() {
    let v = score("Scadrian Human");
    assert_eq!(v.character.name, "Scadrian Human");
    assert_eq!(v.character.world, "Scadrial");
    assert_eq!(v.character.species, "Human");
    assert_eq!(v.character.introduced, "The Final Empire");
    assert_eq!(v.character.nation, "Central Dominance");
    assert_eq!(v.character.nationality, "Scadrian");
    assert_eq!(v.character.ethnicity, "Scadrian");
    assert_eq!(v.character.abilities, vec!["Allomancy".to_string()]);
}

#[test]
fn standalones_are_never_adjacent() {
    let mut a = character(ANSWER);
    a.add("introduced", "Warbreaker".into());
    let mut g = character("Twin Hero");
    g.add("introduced", "Elantris".into());
    let warbreaker = Some(Book { title: "Warbreaker".into(), series: None });
    let elantris = Some(Book { title: "Elantris".into(), series: None });
    assert_eq!(score_guess(g, &a, warbreaker, elantris).book, TernaryStatus::Incorrect);
}

#[test]
fn a_series_book_is_not_adjacent_to_a_standalone() {
    let mut a = character(ANSWER);
    a.add("introduced", "Warbreaker".into());
    let g = character("Twin Hero");
    let warbreaker = Some(Book { title: "Warbreaker".into(), series: None });
    assert_eq!(
        score_guess(g, &a, warbreaker, book("The Way of Kings")).book,
        TernaryStatus::Incorrect
    );
}

#[test]
fn ability_order_and_repeats_do_not_matter() {
    let g = vec!["B".to_string(), "A".to_string(), "A".to_string()];
    let a = vec!["A".to_string(), "B".to_string()];
    assert_eq!(compare_abilities(&g, &a), SetStatus::Equal);
}

#[test]
fn the_ability_verdict_swaps_subset_and_superset() {
    let small = vec!["A".to_string()];
    let big = vec!["A".to_string(), "B".to_string()];
    assert_eq!(compare_abilities(&small, &big), SetStatus::Superset);
    assert_eq!(compare_abilities(&big, &small), SetStatus::Subset);
    let other = vec!["C".to_string()];
    assert_eq!(compare_abilities(&small, &other), SetStatus::Disjoint);
    assert_eq!(compare_abilities(&other, &small), SetStatus::Disjoint);
}

#[test]
fn books_are_needed_only_when_the_introducing_books_differ() {
    assert!(!needs_books(&character("Twin Hero"), &character(ANSWER)));
    assert!(needs_books(&character("Same Series Hero"), &character(ANSWER)));
}
