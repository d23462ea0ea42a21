//! From a parsed infobox to a `Character` or a `Book`, and the filtering of
//! page listings.

use cosmeredle::wiki::{
    article_titles, book_from_table, character_from_table, is_article_title, parse_table, sync_step,
    SyncAction,
};

const PAGE: &str = "\
{{character
|world=[[Roshar]]
|species=[[human|Human]]
|abilities=[[Surgebinding]], [[Windrunner]], others
|unnamed=y
|born={{date|1173}}
|nonsense=ignored
}}";

#[test]
fn a_character_is_built_from_its_infobox() {
    let table = parse_table(PAGE, "character").expect("table");
    let c = character_from_table("Kaladin".to_string(), &table);
    assert_eq!(c.name, "Kaladin");
    assert_eq!(c.world, "Roshar");
    assert_eq!(c.species, "Human");
    assert_eq!(c.abilities, vec!["Surgebinding".to_string(), "Windrunner".to_string()]);
    // The value is formatted before `add` sees it, and titlecasing turns `y`
    // into `Y`, so the flag is not set.
    assert!(!c.unnamed);
    assert_eq!(c.born, "1173");
    assert_eq!(c.universe, "");
}

#[test]
fn a_book_takes_its_series_from_the_infobox() {
    let table = parse_table("{{book\n|series=[[The Stormlight Archive]]\n|released=2010\n}}", "book")
        .expect("table");
    let b = book_from_table("The Way of Kings".to_string(), &table);
    assert_eq!(b.title, "The Way of Kings");
    assert_eq!(b.series.as_deref(), Some("The Stormlight Archive"));
}

#[test]
fn a_book_without_a_series_field_has_none() {
    let table = parse_table("{{book\n|released=2009\n}}", "book").expect("table");
    let b = book_from_table("Warbreaker".to_string(), &table);
    assert!(b.series.is_none());
}

#[test]
fn namespaced_pages_are_not_articles() {
    assert!(is_article_title("Kaladin"));
    assert!(!is_article_title("Template:Character"));
    assert!(!is_article_title("User:Someone"));
}

#[test]
fn article_titles_drop_namespaces_and_repeats() {
    let titles: Vec<String> = ["Vin", "Category:People", "Kelsier", "Vin", "Talk:Vin"]
        .iter()
        .map(|s| s.to_string())
        .collect();
    assert_eq!(article_titles(titles), vec!["Vin".to_string(), "Kelsier".to_string()]);
}

#[test]
fn article_titles_keep_the_order_of_first_appearance() {
    let titles: Vec<String> =
        ["Shallan", "Kaladin", "Category:Lists", "Shallan", "Adolin", "Kaladin"]
            .iter()
            .map(|s| s.to_string())
            .collect();
    assert_eq!(article_titles(titles), vec!["Shallan", "Kaladin", "Adolin"]);
}

#[test]
fn a_sync_stores_only_new_pages_it_could_fetch() {
    assert!(matches!(sync_step(true, Some("stored already")), SyncAction::Skip));
    assert!(matches!(sync_step::<&str>(false, None), SyncAction::Skip));
    assert!(matches!(sync_step::<&str>(true, None), SyncAction::Skip));
    match sync_step(false, Some("new page")) {
        SyncAction::Insert(p) => assert_eq!(p, "new page"),
        SyncAction::Skip => panic!("a new page that was fetched must be stored"),
    }
}
