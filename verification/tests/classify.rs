use gc_core::builtin::build_taxonomy;
use gc_core::taxonomy::{classify, Classification, Taxonomy};

fn mapped(name: &str) -> Classification {
    Classification::Mapped {
        canonical: name.to_string(),
    }
}

#[test]
fn classify_empty_genre() {
    let tax = Taxonomy::load_default().unwrap();
    assert_eq!(tax.classify(""), Classification::Empty);

    let table = build_taxonomy();
    assert_eq!(classify("", &table), Classification::Empty);
}

#[test]
fn classify_already_canonical() {
    let tax = Taxonomy::load_default().unwrap();
    assert_eq!(tax.classify("Rock"), Classification::AlreadyCanonical);
    assert_eq!(tax.classify("Jazz"), Classification::AlreadyCanonical);
    assert_eq!(tax.classify("Pop"), Classification::AlreadyCanonical);

    let table = build_taxonomy();
    assert_eq!(classify("Rock", &table), Classification::AlreadyCanonical);
    assert_eq!(classify("Jazz", &table), Classification::AlreadyCanonical);
    assert_eq!(classify("Pop", &table), Classification::AlreadyCanonical);
}

#[test]
fn classify_known_alias() {
    let tax = Taxonomy::load_default().unwrap();
    assert_eq!(tax.classify("Cloud Rap"), mapped("Hip Hop"));
    assert_eq!(tax.classify("Shoegaze"), mapped("Rock"));
    assert_eq!(tax.classify("Techno"), mapped("Electronic"));

    let table = build_taxonomy();
    assert_eq!(classify("Cloud Rap", &table), mapped("Hip Hop"));
    assert_eq!(classify("Shoegaze", &table), mapped("Rock"));
    assert_eq!(classify("Techno", &table), mapped("Electronic"));
}

#[test]
fn classify_punctuation_and_case_variants() {
    let tax = Taxonomy::load_default().unwrap();
    let expected = mapped("Hip Hop");
    assert_eq!(tax.classify("Hip-Hop"), expected);
    assert_eq!(tax.classify("hip hop"), expected);
    assert_eq!(tax.classify("HIP HOP"), expected);
    assert_eq!(tax.classify("Hip_Hop"), expected);

    let table = build_taxonomy();
    assert_eq!(classify("Hip-Hop", &table), expected);
    assert_eq!(classify("hip hop", &table), expected);
    assert_eq!(classify("HIP HOP", &table), expected);
    assert_eq!(classify("Hip_Hop", &table), expected);
}

#[test]
fn classify_unknown_genre() {
    let tax = Taxonomy::load_default().unwrap();
    assert_eq!(tax.classify("Reggaeton"), Classification::Unknown);

    let table = build_taxonomy();
    assert_eq!(classify("Vaporwave", &table), Classification::Unknown);
    assert_eq!(classify("Reggaeton", &table), Classification::Unknown);
}

#[test]
fn classify_metal_subgenres() {
    let tax = Taxonomy::load_default().unwrap();
    let expected = mapped("Metal");
    assert_eq!(tax.classify("Death Metal"), expected);
    assert_eq!(tax.classify("death-metal"), expected);
    assert_eq!(tax.classify("DOOM METAL"), expected);

    let table = build_taxonomy();
    assert_eq!(classify("Death Metal", &table), expected);
    assert_eq!(classify("death-metal", &table), expected);
    assert_eq!(classify("DOOM METAL", &table), expected);
}

#[test]
fn punk_is_canonical_in_default_but_rock_alias_in_flat_table() {
    let tax = Taxonomy::load_default().unwrap();
    assert_eq!(tax.classify("Punk"), Classification::AlreadyCanonical);
    let table = build_taxonomy();
    assert_eq!(classify("Punk", &table), mapped("Rock"));
}

#[test]
fn separators_only_is_unknown_not_empty() {
    let tax = Taxonomy::load_default().unwrap();
    assert_eq!(tax.classify("---"), Classification::Unknown);
}

#[test]
fn same_normal_form_same_target() {
    let tax = Taxonomy::load_default().unwrap();
    assert_eq!(tax.classify("rock"), mapped("Rock"));
    assert_eq!(tax.classify("ROCK!"), mapped("Rock"));
    assert_eq!(tax.classify("Rock"), Classification::AlreadyCanonical);
}
