use std::collections::HashMap;

use gc_core::builtin::build_taxonomy;
use gc_core::taxonomy::{CanonicalGenre, Classification, Taxonomy, TaxonomyError, TaxonomyFile};
use gc_core::text::normalize;

fn genre(name: &str, aliases: &[&str]) -> CanonicalGenre {
    CanonicalGenre {
        name: name.to_string(),
        aliases: aliases.iter().map(|a| a.to_string()).collect(),
    }
}

fn file(genres: Vec<CanonicalGenre>) -> TaxonomyFile {
    TaxonomyFile {
        version: 1,
        canonical_genres: genres,
        ignored: Vec::new(),
    }
}

#[test]
fn load_default_succeeds() {
    Taxonomy::load_default().expect("Default taxonomy should load without errors");
}

#[test]
fn taxonomy_has_all_canonicals() {
    let tax = Taxonomy::load_default().unwrap();
    let canonicals = [
        "Hip Hop",
        "Rock",
        "Electronic",
        "Jazz",
        "Classical",
        "R&B",
        "Pop",
        "Country",
        "Metal",
        "Folk",
        "Reggae",
        "Latin",
        "Blues",
        "Punk",
        "Soundtrack",
        "World",
    ];
    for name in canonicals {
        assert!(
            tax.lookup().contains_key(&normalize(name)),
            "Missing canonical: {name}"
        );
    }

    let table = build_taxonomy();
    let flat_canonicals = [
        "Hip Hop",
        "Rock",
        "Electronic",
        "Jazz",
        "Classical",
        "R&B",
        "Pop",
        "Country",
        "Metal",
        "Folk",
    ];
    for name in flat_canonicals {
        assert!(
            table.contains_key(&normalize(name)),
            "Missing canonical: {name}"
        );
    }
}

#[test]
fn taxonomy_canonical_maps_to_self() {
    let tax = Taxonomy::load_default().unwrap();
    let canonicals = [
        "Hip Hop",
        "Rock",
        "Electronic",
        "Jazz",
        "Classical",
        "Pop",
        "Country",
        "Metal",
        "Folk",
        "Reggae",
        "Latin",
        "Blues",
        "Punk",
        "Soundtrack",
        "World",
    ];
    for name in canonicals {
        assert_eq!(
            tax.lookup().get(&normalize(name)).unwrap(),
            name,
            "Canonical {name} should map to itself"
        );
    }

    let table = build_taxonomy();
    let flat_canonicals = [
        "Hip Hop",
        "Rock",
        "Electronic",
        "Jazz",
        "Classical",
        "Pop",
        "Country",
        "Metal",
        "Folk",
    ];
    for name in flat_canonicals {
        assert_eq!(
            table.get(&normalize(name)).unwrap(),
            name,
            "Canonical {name} should map to itself"
        );
    }
}

#[test]
fn suggest_matches_returns_close_canonicals() {
    let tax = Taxonomy::load_default().unwrap();
    let suggestions = tax.suggest_matches("Jaz", 3);
    assert!(
        suggestions.iter().any(|(name, _)| name == "Jazz"),
        "Should suggest Jazz for 'Jaz', got: {:?}",
        suggestions
    );
}

#[test]
fn suggest_matches_empty_for_distant_genre() {
    let tax = Taxonomy::load_default().unwrap();
    let suggestions = tax.suggest_matches("xyzzyplugh", 3);
    assert!(suggestions.is_empty(), "Should have no suggestions for gibberish");
}

#[test]
fn add_alias_works() {
    let mut tax = Taxonomy::load_default().unwrap();
    assert_eq!(tax.classify("Reggaeton"), Classification::Unknown);
    tax.add_alias("Reggaeton", "Latin").unwrap();
    assert_eq!(
        tax.classify("Reggaeton"),
        Classification::Mapped {
            canonical: "Latin".to_string()
        }
    );
}

#[test]
fn add_alias_rejects_nonexistent_canonical() {
    let mut tax = Taxonomy::load_default().unwrap();
    assert!(tax.add_alias("Foo", "NotAGenre").is_err());
}

#[test]
fn ambiguous_alias_rejected() {
    let doc = file(vec![genre("Rock", &["Punk"]), genre("Punk", &[])]);
    let result = Taxonomy::from_yaml(&doc);
    assert!(result.is_err(), "Should reject ambiguous alias");
}

#[test]
fn no_duplicate_normalized_keys() {
    let mappings: &[(&str, &str)] = &[
        ("Hip Hop", "Hip Hop"),
        ("Rock", "Rock"),
        ("Electronic", "Electronic"),
        ("Jazz", "Jazz"),
        ("Classical", "Classical"),
        ("R&B", "R&B"),
        ("Pop", "Pop"),
        ("Country", "Country"),
        ("Metal", "Metal"),
        ("Folk", "Folk"),
        ("Rap", "Hip Hop"),
        ("Cloud Rap", "Hip Hop"),
        ("Trap", "Hip Hop"),
        ("Drill", "Hip Hop"),
        ("Boom Bap", "Hip Hop"),
        ("Shoegaze", "Rock"),
        ("Indie Rock", "Rock"),
        ("Post-Rock", "Rock"),
        ("Alternative Rock", "Rock"),
        ("Punk", "Rock"),
        ("Grunge", "Rock"),
        ("House", "Electronic"),
        ("Tech House", "Electronic"),
        ("Techno", "Electronic"),
        ("Drum and Bass", "Electronic"),
        ("Dubstep", "Electronic"),
        ("Ambient", "Electronic"),
        ("IDM", "Electronic"),
        ("Trance", "Electronic"),
        ("Death Metal", "Metal"),
        ("Black Metal", "Metal"),
        ("Thrash Metal", "Metal"),
        ("Doom Metal", "Metal"),
    ];

    let mut seen = HashMap::new();
    for (alias, canonical) in mappings {
        let key = normalize(alias);
        if let Some(prev) = seen.insert(key.clone(), (*alias, *canonical)) {
            panic!(
                "Normalized key '{key}' is used by both '{}' -> '{}' and '{alias}' -> '{canonical}'",
                prev.0, prev.1
            );
        }
    }
}

#[test]
fn ambiguous_canonical_names_rejected() {
    let doc = file(vec![genre("Hip Hop", &[]), genre("Hip-Hop", &[])]);
    match Taxonomy::from_yaml(&doc) {
        Err(TaxonomyError::AmbiguousName {
            key,
            canonical,
            existing,
        }) => {
            assert_eq!(key, "hiphop");
            assert_eq!(canonical, "Hip-Hop");
            assert_eq!(existing, "Hip Hop");
        }
        other => panic!("expected an ambiguous name, got {:?}", other.map(|_| ())),
    }
}

#[test]
fn ambiguous_alias_reports_both_genres() {
    let doc = file(vec![genre("Rock", &["Punk"]), genre("Punk", &[])]);
    match Taxonomy::from_yaml(&doc) {
        Err(TaxonomyError::AmbiguousName {
            key,
            canonical,
            existing,
        }) => {
            assert_eq!(key, "punk");
            assert_eq!(canonical, "Punk");
            assert_eq!(existing, "Rock");
        }
        other => panic!("unexpected result {:?}", other.map(|_| ())),
    }
    let doc = file(vec![genre("Rock", &[]), genre("Punk", &["ROCK"])]);
    match Taxonomy::from_yaml(&doc) {
        Err(TaxonomyError::AmbiguousAlias {
            alias,
            key,
            existing,
            canonical,
        }) => {
            assert_eq!(alias, "ROCK");
            assert_eq!(key, "rock");
            assert_eq!(existing, "Rock");
            assert_eq!(canonical, "Punk");
        }
        other => panic!("unexpected result {:?}", other.map(|_| ())),
    }
}

#[test]
fn repeated_alias_of_same_genre_is_fine() {
    let doc = file(vec![genre("Rock", &["Grunge", "grunge", "Rock"])]);
    let tax = Taxonomy::from_yaml(&doc).unwrap();
    assert_eq!(tax.lookup().len(), 2);
    assert_eq!(tax.canonical_names(), &["Rock".to_string()][..]);
    assert!(tax.user_added_aliases().is_empty());
}

#[test]
fn every_file_entry_resolves_to_its_genre() {
    let doc = file(vec![
        genre("Hip Hop", &["Rap", "Trap"]),
        genre("Jazz", &["Bebop"]),
    ]);
    let tax = Taxonomy::from_yaml(&doc).unwrap();
    for (entry, target) in [
        ("Hip Hop", "Hip Hop"),
        ("Rap", "Hip Hop"),
        ("Trap", "Hip Hop"),
        ("Jazz", "Jazz"),
        ("Bebop", "Jazz"),
    ] {
        assert_eq!(tax.lookup().get(&normalize(entry)).unwrap(), target);
    }
}

#[test]
fn add_alias_conflict_leaves_taxonomy_unchanged() {
    let mut tax = Taxonomy::load_default().unwrap();
    let before = tax.lookup().len();
    match tax.add_alias("Trap", "Rock") {
        Err(TaxonomyError::AliasConflict {
            alias,
            existing,
            canonical,
        }) => {
            assert_eq!(alias, "Trap");
            assert_eq!(existing, "Hip Hop");
            assert_eq!(canonical, "Rock");
        }
        other => panic!("unexpected result {:?}", other),
    }
    assert_eq!(tax.lookup().len(), before);
    assert!(tax.user_added_aliases().is_empty());
    match tax.add_alias("Foo", "NotAGenre") {
        Err(TaxonomyError::NotCanonical { canonical }) => assert_eq!(canonical, "NotAGenre"),
        other => panic!("unexpected result {:?}", other),
    }
}

#[test]
fn add_alias_twice_is_once() {
    let mut tax = Taxonomy::load_default().unwrap();
    tax.add_alias("Reggaeton", "Latin").unwrap();
    tax.add_alias("reggaeton!", "Latin").unwrap();
    assert_eq!(
        tax.user_added_aliases(),
        &[("Reggaeton".to_string(), "Latin".to_string())][..]
    );
    assert_eq!(tax.classify("REGGAETON"), Classification::Mapped { canonical: "Latin".to_string() });
}

#[test]
fn added_alias_spelled_as_canonical_is_canonical() {
    let mut tax = Taxonomy::from_yaml(&file(vec![genre("Rock", &[])])).unwrap();
    tax.add_alias("Rock", "Rock").unwrap();
    assert_eq!(tax.classify("Rock"), Classification::AlreadyCanonical);
    assert!(tax.user_added_aliases().is_empty());
}

#[test]
fn merge_user_overrides_adds_aliases() {
    let mut tax = Taxonomy::load_default().unwrap();
    let user = file(vec![genre("Latin", &["Reggaeton", "Cumbia"])]);
    tax.merge_user_overrides(&user).unwrap();
    assert_eq!(tax.classify("Cumbia"), Classification::Mapped { canonical: "Latin".to_string() });
    assert_eq!(tax.classify("reggaeton"), Classification::Mapped { canonical: "Latin".to_string() });
    assert!(tax.user_added_aliases().is_empty());
}

#[test]
fn merge_user_overrides_conflict_keeps_earlier_merges() {
    let mut tax = Taxonomy::load_default().unwrap();
    let user = file(vec![genre("Latin", &["Cumbia", "Techno", "Salsa"])]);
    match tax.merge_user_overrides(&user) {
        Err(TaxonomyError::UserConflict {
            alias,
            existing,
            canonical,
        }) => {
            assert_eq!(alias, "Techno");
            assert_eq!(existing, "Electronic");
            assert_eq!(canonical, "Latin");
        }
        other => panic!("unexpected result {:?}", other),
    }
    assert_eq!(tax.classify("Cumbia"), Classification::Mapped { canonical: "Latin".to_string() });
    assert_eq!(tax.classify("Salsa"), Classification::Unknown);
    assert_eq!(tax.classify("Techno"), Classification::Mapped { canonical: "Electronic".to_string() });
}

#[test]
fn suggestions_are_ranked_and_limited() {
    let tax = Taxonomy::from_yaml(&file(vec![
        genre("Rock", &[]),
        genre("Punk", &[]),
        genre("Rap", &[]),
        genre("Pop", &[]),
    ]))
    .unwrap();
    let all = tax.suggest_matches("Pap", 10);
    assert_eq!(
        all,
        vec![
            ("Rap".to_string(), 1),
            ("Pop".to_string(), 1),
            ("Punk".to_string(), 3),
        ]
    );
    let two = tax.suggest_matches("Pap", 2);
    assert_eq!(two, vec![("Rap".to_string(), 1), ("Pop".to_string(), 1)]);
    assert!(tax.suggest_matches("Pap", 0).is_empty());
}

#[test]
fn rank_suggestions_is_stable_and_filters() {
    let scores = vec![
        ("A".to_string(), 2),
        ("B".to_string(), 0),
        ("C".to_string(), 4),
        ("D".to_string(), 2),
        ("E".to_string(), 3),
    ];
    assert_eq!(
        gc_core::suggest::rank_suggestions(scores, 3),
        vec![("B".to_string(), 0), ("A".to_string(), 2), ("D".to_string(), 2)]
    );
}

#[test]
fn suggest_uses_transposition_distance() {
    let tax = Taxonomy::from_yaml(&file(vec![genre("Jazz", &[])])).unwrap();
    assert_eq!(tax.suggest_matches("Jzaz", 3), vec![("Jazz".to_string(), 1)]);
}

#[test]
fn adding_alias_keeps_existing_entries() {
    let mut tax = Taxonomy::load_default().unwrap();
    let before = tax.lookup().len();
    tax.add_alias("Vaporwave", "Electronic").unwrap();
    assert_eq!(tax.lookup().len(), before + 1);
    for name in tax.canonical_names().to_vec() {
        assert_eq!(tax.classify(&name), Classification::AlreadyCanonical);
    }
    assert_eq!(tax.classify("Trap"), Classification::Mapped { canonical: "Hip Hop".to_string() });
    assert_eq!(tax.classify("vapor wave"), Classification::Mapped { canonical: "Electronic".to_string() });
}

#[test]
fn saved_user_aliases_reload_into_fresh_default() {
    let mut t1 = Taxonomy::load_default().unwrap();
    t1.add_alias("Reggaeton", "Latin").unwrap();
    t1.add_alias("Vaporwave", "Electronic").unwrap();
    t1.add_alias("Cumbia", "Latin").unwrap();
    assert!(t1.add_alias("Trap", "Rock").is_err());
    t1.add_alias("cloud rap", "Hip Hop").unwrap();
    let saved = gc_core::user::group_user_aliases(t1.user_added_aliases());
    let mut t2 = Taxonomy::load_default().unwrap();
    t2.merge_user_overrides(&saved).unwrap();
    assert_eq!(t2.lookup().len(), t1.lookup().len());
    for genre in ["Reggaeton", "vapor-wave", "CUMBIA", "Trap", "Rock", "Jazz", "Salsa"] {
        assert_eq!(t2.classify(genre), t1.classify(genre));
    }
}
