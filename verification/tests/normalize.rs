use gc_core::text::normalize;

#[test]
fn lowercases() {
    assert_eq!(normalize("Rock"), "rock");
    assert_eq!(normalize("JAZZ"), "jazz");
}

#[test]
fn strips_spaces() {
    assert_eq!(normalize("Hip Hop"), "hiphop");
    assert_eq!(normalize("Indie Rock"), "indierock");
}

#[test]
fn strips_punctuation() {
    assert_eq!(normalize("Hip-Hop"), "hiphop");
    assert_eq!(normalize("R&B"), "rb");
    assert_eq!(normalize("Drum & Bass"), "drumbass");
    assert_eq!(normalize("Rock!"), "rock");
}

#[test]
fn strips_underscores() {
    assert_eq!(normalize("Hip_Hop"), "hiphop");
    assert_eq!(normalize("death_metal"), "deathmetal");
}

#[test]
fn mixed_separators_converge() {
    assert_eq!(normalize("Hip-Hop"), normalize("Hip Hop"));
    assert_eq!(normalize("Hip_Hop"), normalize("HipHop"));
    assert_eq!(normalize("hip hop"), normalize("HIP-HOP"));
}

#[test]
fn empty_string() {
    assert_eq!(normalize(""), "");
}

#[test]
fn already_clean() {
    assert_eq!(normalize("rock"), "rock");
    assert_eq!(normalize("pop"), "pop");
}

#[test]
fn keeps_digits_and_unicode_letters() {
    assert_eq!(normalize("2-Step"), "2step");
    assert_eq!(normalize("Música Popular"), "músicapopular");
    assert_eq!(normalize("!!!"), "");
}

#[test]
fn separator_anywhere_is_ignored() {
    assert_eq!(normalize("Boom Bap"), normalize("BoomBap"));
    assert_eq!(normalize("-BoomBap"), normalize("BoomBap"));
    assert_eq!(normalize("BoomBap."), normalize("BoomBap"));
}

#[test]
fn ascii_case_and_separators_meet() {
    assert_eq!(normalize("HIP-HOP"), normalize("hip_hop"));
    assert_eq!(normalize("Drum 'n' Bass"), "drumnbass");
    assert_eq!(normalize("R.&.B."), normalize("rb"));
}
