//! Unit tests for `Character`, the wikitext -> struct mapping layer.
//!
//! Each test observes the character through `fields`, which lists every
//! field by name with its value rendered as text.

use cosmeredle::Character;

/// Every field of `c` by name: text fields verbatim, flags as `true` or
/// `false`, abilities as a bracketed list.
fn fields(c: &Character) -> Vec<(&'static str, String)> {
    vec![
        ("name", c.name.clone()),
        ("unnamed", c.unnamed.to_string()),
        ("parents", c.parents.clone()),
        ("spouse", c.spouse.clone()),
        ("siblings", c.siblings.clone()),
        ("children", c.children.clone()),
        ("ancestors", c.ancestors.clone()),
        ("relatives", c.relatives.clone()),
        ("descendants", c.descendants.clone()),
        ("born", c.born.clone()),
        ("died", c.died.clone()),
        ("abilities", format!("{:?}", c.abilities)),
        ("bonded", c.bonded.clone()),
        ("titles", c.titles.clone()),
        ("aliases", c.aliases.clone()),
        ("skills", c.skills.clone()),
        ("achievements", c.achievements.clone()),
        ("powers", c.powers.clone()),
        ("hash_profession", c.hash_profession.clone()),
        ("profession", c.profession.clone()),
        ("occupation", c.occupation.clone()),
        ("religion", c.religion.clone()),
        ("groups", c.groups.clone()),
        ("species", c.species.clone()),
        ("tick_species", c.tick_species.clone()),
        ("era", c.era.clone()),
        ("birthplace", c.birthplace.clone()),
        ("tick_birthplace", c.tick_birthplace.clone()),
        ("residence", c.residence.clone()),
        ("tick_residence", c.tick_residence.clone()),
        ("ethnicity", c.ethnicity.clone()),
        ("tick_ethnicity", c.tick_ethnicity.clone()),
        ("nation", c.nation.clone()),
        ("tick_nation", c.tick_nation.clone()),
        ("nationality", c.nationality.clone()),
        ("world", c.world.clone()),
        ("tick_world", c.tick_world.clone()),
        ("hide_world", c.hide_world.to_string()),
        ("universe", c.universe.clone()),
        ("introduced", c.introduced.clone()),
    ]
}

fn field(c: &Character, name: &str) -> String {
    fields(c)
        .into_iter()
        .find(|(k, _)| *k == name)
        .unwrap_or_else(|| panic!("no field {name}"))
        .1
}

fn with(key: &str, v: &str) -> Character {
    let mut c = Character::default();
    c.add(key, v.to_string());
    c
}

/// Every string-valued key `add` accepts, and the field it must land in.
const STRING_KEYS: &[(&str, &str)] = &[
    ("parents", "parents"),
    ("spouse", "spouse"),
    ("siblings", "siblings"),
    ("children", "children"),
    ("ancestors", "ancestors"),
    ("relatives", "relatives"),
    ("descendants", "descendants"),
    ("born", "born"),
    ("died", "died"),
    ("bonded", "bonded"),
    ("titles", "titles"),
    ("aliases", "aliases"),
    ("skills", "skills"),
    ("achievements", "achievements"),
    ("powers", "powers"),
    ("#profession", "hash_profession"),
    ("profession", "profession"),
    ("occupation", "occupation"),
    ("religion", "religion"),
    ("groups", "groups"),
    ("species", "species"),
    ("'species", "tick_species"),
    ("era", "era"),
    ("birthplace", "birthplace"),
    ("'birthplace", "tick_birthplace"),
    ("residence", "residence"),
    ("'residence", "tick_residence"),
    ("ethnicity", "ethnicity"),
    ("'ethnicity", "tick_ethnicity"),
    ("nation", "nation"),
    ("'nation", "tick_nation"),
    ("nationality", "nationality"),
    ("world", "world"),
    ("earth", "world"),
    ("'world", "tick_world"),
    ("universe", "universe"),
    ("introduced", "introduced"),
];

#[test]
fn default_is_entirely_empty() {
    for (k, val) in fields(&Character::default()) {
        match k {
            "unnamed" | "hide_world" => assert_eq!(val, "false", "{k} should default false"),
            "abilities" => assert_eq!(val, "[]", "abilities should default empty"),
            _ => assert_eq!(val, "", "{k} should default to the empty string"),
        }
    }
}

#[test]
fn every_key_lands_in_its_own_field() {
    for (key, expected_field) in STRING_KEYS {
        let c = with(key, "sentinel");
        assert_eq!(
            field(&c, expected_field),
            "sentinel",
            "add({key:?}) should set {expected_field}"
        );

        // and must not have touched anything else
        let baseline = fields(&Character::default());
        for ((name, val), (_, base)) in fields(&c).into_iter().zip(baseline) {
            if name == *expected_field {
                continue;
            }
            assert_eq!(val, base, "add({key:?}) unexpectedly changed {name}");
        }
    }
}

#[test]
fn world_and_earth_are_aliases() {
    let mut c = Character::default();
    c.add("world", "Roshar".into());
    assert_eq!(field(&c, "world"), "Roshar");

    c.add("earth", "Scadrial".into());
    assert_eq!(
        field(&c, "world"),
        "Scadrial",
        "`earth` should overwrite the same field as `world`"
    );
}

#[test]
fn later_adds_overwrite_earlier_ones() {
    let mut c = Character::default();
    c.add("species", "Human".into());
    c.add("species", "Singer".into());
    assert_eq!(field(&c, "species"), "Singer");
}

#[test]
fn boolean_keys_accept_exactly_y() {
    for key in ["unnamed", "hide_world"] {
        assert_eq!(field(&with(key, "y"), key), "true", "{key}=y");

        // Everything else is false, including spellings the wiki plausibly uses.
        for v in ["n", "no", "", "Y", "yes", "true", " y", "y "] {
            assert_eq!(
                field(&with(key, v), key),
                "false",
                "{key}={v:?} should be false"
            );
        }
    }
}

#[test]
fn unknown_keys_are_silently_dropped() {
    for key in ["", "  ", "nonsense", "WORLD", "Species", "abilities", "name"] {
        let c = with(key, "ignored");
        assert_eq!(
            fields(&c),
            fields(&Character::default()),
            "add({key:?}) should have been a no-op"
        );
    }
}

#[test]
fn add_does_not_handle_abilities_or_name() {
    // Callers must use the dedicated setters; `add` drops these on the floor.
    let mut c = Character::default();
    c.add("abilities", "Windrunner".into());
    c.add("name", "Kaladin".into());

    assert!(c.abilities.is_empty());
    assert_eq!(field(&c, "name"), "");
}

#[test]
fn abilities_and_name_setters() {
    let mut c = Character::default();
    c.name("Kaladin".into());
    c.abilities(vec!["Windrunner".into(), "Surgebinding".into()]);

    assert_eq!(field(&c, "name"), "Kaladin");
    assert_eq!(c.abilities, vec!["Windrunner".to_string(), "Surgebinding".to_string()]);

    // abilities() replaces rather than appends
    c.abilities(vec!["Bondsmith".into()]);
    assert_eq!(c.abilities, vec!["Bondsmith".to_string()]);

    c.abilities(vec![]);
    assert!(c.abilities.is_empty());
}

#[test]
fn values_are_stored_verbatim() {
    // `add` does no trimming, casing or validation of its own.
    let long = "very ".repeat(200);
    for v in ["  padded  ", "", "Ünïcödé", "a\nb", long.as_str()] {
        assert_eq!(field(&with("titles", v), "titles"), v);
    }
}

#[test]
fn duplicate_abilities_are_preserved_by_the_setter() {
    // Relevant because the `ability` table has a (character, ability) primary
    // key.
    let mut c = Character::default();
    c.abilities(vec!["Surgebinding".into(), "Surgebinding".into()]);
    assert_eq!(c.abilities, vec!["Surgebinding".to_string(), "Surgebinding".to_string()]);
}
