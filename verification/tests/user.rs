use gc_core::prompt::{interpret_choice, Choice};
use gc_core::taxonomy::{CanonicalGenre, Taxonomy, TaxonomyFile};
use gc_core::user::{group_user_aliases, merge_alias_lists, record_resolution, resolved_canonical};

fn pair(a: &str, c: &str) -> (String, String) {
    (a.to_string(), c.to_string())
}

#[test]
fn groups_aliases_by_canonical_in_first_seen_order() {
    let doc = group_user_aliases(&[
        pair("Reggaeton", "Latin"),
        pair("Vaporwave", "Electronic"),
        pair("Cumbia", "Latin"),
    ]);
    assert_eq!(doc.version, 1);
    assert!(doc.ignored.is_empty());
    assert_eq!(doc.canonical_genres.len(), 2);
    assert_eq!(doc.canonical_genres[0].name, "Latin");
    assert_eq!(doc.canonical_genres[0].aliases, vec!["Reggaeton".to_string(), "Cumbia".to_string()]);
    assert_eq!(doc.canonical_genres[1].name, "Electronic");
    assert_eq!(doc.canonical_genres[1].aliases, vec!["Vaporwave".to_string()]);
}

#[test]
fn merged_alias_list_keeps_new_pairs_first() {
    let earlier = TaxonomyFile {
        version: 1,
        canonical_genres: vec![CanonicalGenre {
            name: "Rock".to_string(),
            aliases: vec!["Reggaeton".to_string(), "Krautrock".to_string()],
        }],
        ignored: Vec::new(),
    };
    let merged = merge_alias_lists(&[pair("Reggaeton", "Latin")], &earlier);
    assert_eq!(merged, vec![pair("Reggaeton", "Latin"), pair("Krautrock", "Rock")]);
}

#[test]
fn resolved_canonical_takes_first_match() {
    let resolved = vec![pair("Vaporwave", "Electronic"), pair("Vaporwave", "Pop")];
    assert_eq!(
        resolved_canonical(&resolved, &"Vaporwave".to_string()),
        Some("Electronic".to_string())
    );
    assert_eq!(resolved_canonical(&resolved, &"Cumbia".to_string()), None);
}

#[test]
fn answers_are_interpreted() {
    let suggestions = vec![("Jazz".to_string(), 1), ("Blues".to_string(), 3)];
    assert_eq!(interpret_choice("  \n", &suggestions), Choice::Skip);
    assert_eq!(
        interpret_choice("2\n", &suggestions),
        Choice::MapTo { canonical: "Blues".to_string() }
    );
    assert_eq!(
        interpret_choice(" +1 ", &suggestions),
        Choice::MapTo { canonical: "Jazz".to_string() }
    );
    assert_eq!(interpret_choice("3", &suggestions), Choice::Invalid);
    assert_eq!(interpret_choice("0", &suggestions), Choice::Invalid);
    assert_eq!(
        interpret_choice(" Latin \n", &suggestions),
        Choice::MapTo { canonical: "Latin".to_string() }
    );
    assert_eq!(
        interpret_choice("-1", &suggestions),
        Choice::MapTo { canonical: "-1".to_string() }
    );
}

#[test]
fn answers_trim_unicode_white_space() {
    let suggestions = vec![("Jazz".to_string(), 1)];
    assert_eq!(interpret_choice("\u{3000}\u{a0}1\u{2028}", &suggestions), Choice::MapTo { canonical: "Jazz".to_string() });
    assert_eq!(interpret_choice("\u{85}\u{200a}", &suggestions), Choice::Skip);
}

#[test]
fn resolution_is_recorded_only_when_the_alias_was_added() {
    let mut tax = Taxonomy::load_default().unwrap();
    let mut resolved: Vec<(String, String)> = Vec::new();
    let ok = tax.add_alias("Reggaeton", "Latin");
    record_resolution(&mut resolved, "Reggaeton", "Latin", &ok);
    assert_eq!(resolved, vec![pair("Reggaeton", "Latin")]);
    let refused = tax.add_alias("Foo", "NotAGenre");
    record_resolution(&mut resolved, "Foo", "NotAGenre", &refused);
    let conflict = tax.add_alias("Rap", "Rock");
    record_resolution(&mut resolved, "Rap", "Rock", &conflict);
    assert_eq!(resolved, vec![pair("Reggaeton", "Latin")]);
}
