//! The built-in taxonomy and the flat built-in alias table.

use vstd::prelude::*;
use vstd::hash_map::StringHashMap;
use crate::taxonomy::{
    ascii_entries, ascii_unambiguous, has_ascii_key, lookup_of, names_of, table_view, CanonicalGenre, CanonicalGenreView,
    Taxonomy, TaxonomyError, TaxonomyErrorView, TaxonomyFile,
};
use crate::text::{all_ascii, ascii_key, normalize, normalized};

verus! {

/// The views of a slice of string slices.
pub open spec fn views_of(items: Seq<&str>) -> Seq<Seq<char>> {
    items.map_values(|s: &str| s@)
}

/// Owned copies of a list of names.
fn owned_names(items: &[&str]) -> (r: Vec<String>)
    ensures
        r.deep_view() == views_of(items@),
{
    let mut out: Vec<String> = Vec::new();
    let mut i: usize = 0;
    while i < items.len()
        invariant
            i <= items@.len(),
            out.deep_view() == views_of(items@.take(i as int)),
        decreases items@.len() - i,
    {
        let ghost before = out.deep_view();
        out.push(items[i].to_owned());
        assert(out.deep_view() =~= views_of(items@.take(i + 1))) by {
            assert(out.deep_view() =~= before.push(items@[i as int]@));
        }
        i = i + 1;
    }
    assert(items@.take(items@.len() as int) =~= items@);
    out
}

fn genre_entry(name: &str, aliases: &[&str]) -> (r: CanonicalGenre)
    ensures
        r@ == (CanonicalGenreView { name: name@, aliases: views_of(aliases@) }),
{
    CanonicalGenre { name: name.to_owned(), aliases: owned_names(aliases) }
}

/// The genres of the built-in taxonomy: sixteen canonical genres, and the
/// aliases of Hip Hop, Rock, Electronic and Metal.
pub open spec fn default_genres() -> Seq<CanonicalGenreView> {
    seq![
        CanonicalGenreView {
            name: "Hip Hop"@,
            aliases: seq!["Rap"@, "Cloud Rap"@, "Trap"@, "Drill"@, "Boom Bap"@],
        },
        CanonicalGenreView {
            name: "Rock"@,
            aliases: seq!["Shoegaze"@, "Indie Rock"@, "Post-Rock"@, "Alternative Rock"@, "Grunge"@],
        },
        CanonicalGenreView {
            name: "Electronic"@,
            aliases: seq![
                "House"@,
                "Tech House"@,
                "Techno"@,
                "Drum and Bass"@,
                "Dubstep"@,
                "Ambient"@,
                "IDM"@,
                "Trance"@,
            ],
        },
        CanonicalGenreView { name: "Jazz"@, aliases: seq![] },
        CanonicalGenreView { name: "Classical"@, aliases: seq![] },
        CanonicalGenreView { name: "R&B"@, aliases: seq![] },
        CanonicalGenreView { name: "Pop"@, aliases: seq![] },
        CanonicalGenreView { name: "Country"@, aliases: seq![] },
        CanonicalGenreView {
            name: "Metal"@,
            aliases: seq!["Death Metal"@, "Black Metal"@, "Thrash Metal"@, "Doom Metal"@],
        },
        CanonicalGenreView { name: "Folk"@, aliases: seq![] },
        CanonicalGenreView { name: "Reggae"@, aliases: seq![] },
        CanonicalGenreView { name: "Latin"@, aliases: seq![] },
        CanonicalGenreView { name: "Blues"@, aliases: seq![] },
        CanonicalGenreView { name: "Punk"@, aliases: seq![] },
        CanonicalGenreView { name: "Soundtrack"@, aliases: seq![] },
        CanonicalGenreView { name: "World"@, aliases: seq![] },
    ]
}

/// The built-in taxonomy document.
pub fn default_taxonomy_file() -> (r: TaxonomyFile)
    ensures
        r@.version == 1,
        r@.canonical_genres == default_genres(),
        r@.ignored == Seq::<Seq<char>>::empty(),
{
    let mut genres: Vec<CanonicalGenre> = Vec::new();
    genres.push(genre_entry("Hip Hop", &["Rap", "Cloud Rap", "Trap", "Drill", "Boom Bap"]));
    genres.push(genre_entry("Rock", &["Shoegaze", "Indie Rock", "Post-Rock", "Alternative Rock", "Grunge"]));
    genres.push(
        genre_entry(
            "Electronic",
            &["House", "Tech House", "Techno", "Drum and Bass", "Dubstep", "Ambient", "IDM", "Trance"],
        ),
    );
    genres.push(genre_entry("Jazz", &[]));
    genres.push(genre_entry("Classical", &[]));
    genres.push(genre_entry("R&B", &[]));
    genres.push(genre_entry("Pop", &[]));
    genres.push(genre_entry("Country", &[]));
    genres.push(genre_entry("Metal", &["Death Metal", "Black Metal", "Thrash Metal", "Doom Metal"]));
    genres.push(genre_entry("Folk", &[]));
    genres.push(genre_entry("Reggae", &[]));
    genres.push(genre_entry("Latin", &[]));
    genres.push(genre_entry("Blues", &[]));
    genres.push(genre_entry("Punk", &[]));
    genres.push(genre_entry("Soundtrack", &[]));
    genres.push(genre_entry("World", &[]));
    let file = TaxonomyFile { version: 1, canonical_genres: genres, ignored: Vec::new() };
    assert(file@.canonical_genres =~~= default_genres());
    assert(file@.ignored =~= Seq::<Seq<char>>::empty());
    file
}

/// A number that tells the keys of the built-in genres apart: the key's
/// length and its first character.
spec fn key_code(k: Seq<char>) -> int {
    k.len() * 128 + (k[0] as int)
}

/// The key codes of the names and aliases of built-in genre `i`.
spec fn default_code(i: int, c: int) -> bool {
    if i == 0 {
        c == 498 || c == 628 || c == 740 || c == 872 || c == 994 || c == 1123
    } else if i == 1 {
        c == 626 || c == 871 || c == 1136 || c == 1139 || c == 1257 || c == 2017
    } else if i == 2 {
        c == 489 || c == 744 || c == 884 || c == 993 || c == 996 || c == 1268 || c == 1381 || c == 1508
    } else if i == 3 {
        c == 618
    } else if i == 4 {
        c == 1251
    } else if i == 5 {
        c == 370
    } else if i == 6 {
        c == 496
    } else if i == 7 {
        c == 995
    } else if i == 8 {
        c == 749 || c == 1252 || c == 1378 || c == 1380 || c == 1524
    } else if i == 9 {
        c == 614
    } else if i == 10 {
        c == 882
    } else if i == 11 {
        c == 748
    } else if i == 12 {
        c == 738
    } else if i == 13 {
        c == 624
    } else if i == 14 {
        c == 1395
    } else if i == 15 {
        c == 759
    } else {
        false
    }
}

/// The keys of the names and aliases of Hip Hop.
proof fn lemma_hip_hop_keys()
    ensures
        all_ascii("Hip Hop"@) && key_code(ascii_key("Hip Hop"@)) == 872,
        all_ascii("Rap"@) && key_code(ascii_key("Rap"@)) == 498,
        all_ascii("Cloud Rap"@) && key_code(ascii_key("Cloud Rap"@)) == 1123,
        all_ascii("Trap"@) && key_code(ascii_key("Trap"@)) == 628,
        all_ascii("Drill"@) && key_code(ascii_key("Drill"@)) == 740,
        all_ascii("Boom Bap"@) && key_code(ascii_key("Boom Bap"@)) == 994,
{
    reveal_strlit("Hip Hop");
    reveal_strlit("Rap");
    reveal_strlit("Cloud Rap");
    reveal_strlit("Trap");
    reveal_strlit("Drill");
    reveal_strlit("Boom Bap");
    reveal_with_fuel(Seq::filter, 10);
    assert(ascii_key("Hip Hop"@) =~= seq!['h', 'i', 'p', 'h', 'o', 'p']);
    assert(ascii_key("Rap"@) =~= seq!['r', 'a', 'p']);
    assert(ascii_key("Cloud Rap"@) =~= seq!['c', 'l', 'o', 'u', 'd', 'r', 'a', 'p']);
    assert(ascii_key("Trap"@) =~= seq!['t', 'r', 'a', 'p']);
    assert(ascii_key("Drill"@) =~= seq!['d', 'r', 'i', 'l', 'l']);
    assert(ascii_key("Boom Bap"@) =~= seq!['b', 'o', 'o', 'm', 'b', 'a', 'p']);
}

/// The keys of the names and aliases of Rock.
proof fn lemma_rock_keys()
    ensures
        all_ascii("Rock"@) && key_code(ascii_key("Rock"@)) == 626,
        all_ascii("Shoegaze"@) && key_code(ascii_key("Shoegaze"@)) == 1139,
        all_ascii("Indie Rock"@) && key_code(ascii_key("Indie Rock"@)) == 1257,
        all_ascii("Post-Rock"@) && key_code(ascii_key("Post-Rock"@)) == 1136,
        all_ascii("Alternative Rock"@) && key_code(ascii_key("Alternative Rock"@)) == 2017,
        all_ascii("Grunge"@) && key_code(ascii_key("Grunge"@)) == 871,
{
    reveal_strlit("Rock");
    reveal_strlit("Shoegaze");
    reveal_strlit("Indie Rock");
    reveal_strlit("Post-Rock");
    reveal_strlit("Alternative Rock");
    reveal_strlit("Grunge");
    reveal_with_fuel(Seq::filter, 17);
    assert(ascii_key("Rock"@) =~= seq!['r', 'o', 'c', 'k']);
    assert(ascii_key("Shoegaze"@) =~= seq!['s', 'h', 'o', 'e', 'g', 'a', 'z', 'e']);
    assert(ascii_key("Indie Rock"@) =~= seq!['i', 'n', 'd', 'i', 'e', 'r', 'o', 'c', 'k']);
    assert(ascii_key("Post-Rock"@) =~= seq!['p', 'o', 's', 't', 'r', 'o', 'c', 'k']);
    assert(ascii_key("Alternative Rock"@) =~= seq!['a', 'l', 't', 'e', 'r', 'n', 'a', 't', 'i', 'v', 'e', 'r', 'o', 'c', 'k']);
    assert(ascii_key("Grunge"@) =~= seq!['g', 'r', 'u', 'n', 'g', 'e']);
}

/// The keys of the names and aliases of Electronic.
proof fn lemma_electronic_keys()
    ensures
        all_ascii("Electronic"@) && key_code(ascii_key("Electronic"@)) == 1381,
        all_ascii("House"@) && key_code(ascii_key("House"@)) == 744,
        all_ascii("Tech House"@) && key_code(ascii_key("Tech House"@)) == 1268,
        all_ascii("Techno"@) && key_code(ascii_key("Techno"@)) == 884,
        all_ascii("Drum and Bass"@) && key_code(ascii_key("Drum and Bass"@)) == 1508,
        all_ascii("Dubstep"@) && key_code(ascii_key("Dubstep"@)) == 996,
        all_ascii("Ambient"@) && key_code(ascii_key("Ambient"@)) == 993,
        all_ascii("IDM"@) && key_code(ascii_key("IDM"@)) == 489,
        all_ascii("Trance"@) && key_code(ascii_key("Trance"@)) == 884,
{
    reveal_strlit("Electronic");
    reveal_strlit("House");
    reveal_strlit("Tech House");
    reveal_strlit("Techno");
    reveal_strlit("Drum and Bass");
    reveal_strlit("Dubstep");
    reveal_strlit("Ambient");
    reveal_strlit("IDM");
    reveal_strlit("Trance");
    reveal_with_fuel(Seq::filter, 14);
    assert(ascii_key("Electronic"@) =~= seq!['e', 'l', 'e', 'c', 't', 'r', 'o', 'n', 'i', 'c']);
    assert(ascii_key("House"@) =~= seq!['h', 'o', 'u', 's', 'e']);
    assert(ascii_key("Tech House"@) =~= seq!['t', 'e', 'c', 'h', 'h', 'o', 'u', 's', 'e']);
    assert(ascii_key("Techno"@) =~= seq!['t', 'e', 'c', 'h', 'n', 'o']);
    assert(ascii_key("Drum and Bass"@) =~= seq!['d', 'r', 'u', 'm', 'a', 'n', 'd', 'b', 'a', 's', 's']);
    assert(ascii_key("Dubstep"@) =~= seq!['d', 'u', 'b', 's', 't', 'e', 'p']);
    assert(ascii_key("Ambient"@) =~= seq!['a', 'm', 'b', 'i', 'e', 'n', 't']);
    assert(ascii_key("IDM"@) =~= seq!['i', 'd', 'm']);
    assert(ascii_key("Trance"@) =~= seq!['t', 'r', 'a', 'n', 'c', 'e']);
}

/// The keys of the names and aliases of Metal.
proof fn lemma_metal_keys()
    ensures
        all_ascii("Metal"@) && key_code(ascii_key("Metal"@)) == 749,
        all_ascii("Death Metal"@) && key_code(ascii_key("Death Metal"@)) == 1380,
        all_ascii("Black Metal"@) && key_code(ascii_key("Black Metal"@)) == 1378,
        all_ascii("Thrash Metal"@) && key_code(ascii_key("Thrash Metal"@)) == 1524,
        all_ascii("Doom Metal"@) && key_code(ascii_key("Doom Metal"@)) == 1252,
{
    reveal_strlit("Metal");
    reveal_strlit("Death Metal");
    reveal_strlit("Black Metal");
    reveal_strlit("Thrash Metal");
    reveal_strlit("Doom Metal");
    reveal_with_fuel(Seq::filter, 13);
    assert(ascii_key("Metal"@) =~= seq!['m', 'e', 't', 'a', 'l']);
    assert(ascii_key("Death Metal"@) =~= seq!['d', 'e', 'a', 't', 'h', 'm', 'e', 't', 'a', 'l']);
    assert(ascii_key("Black Metal"@) =~= seq!['b', 'l', 'a', 'c', 'k', 'm', 'e', 't', 'a', 'l']);
    assert(ascii_key("Thrash Metal"@) =~= seq!['t', 'h', 'r', 'a', 's', 'h', 'm', 'e', 't', 'a', 'l']);
    assert(ascii_key("Doom Metal"@) =~= seq!['d', 'o', 'o', 'm', 'm', 'e', 't', 'a', 'l']);
}

/// The keys of the names of the genres without aliases.
proof fn lemma_other_keys()
    ensures
        all_ascii("Jazz"@) && key_code(ascii_key("Jazz"@)) == 618,
        all_ascii("Classical"@) && key_code(ascii_key("Classical"@)) == 1251,
        all_ascii("R&B"@) && key_code(ascii_key("R&B"@)) == 370,
        all_ascii("Pop"@) && key_code(ascii_key("Pop"@)) == 496,
        all_ascii("Country"@) && key_code(ascii_key("Country"@)) == 995,
        all_ascii("Folk"@) && key_code(ascii_key("Folk"@)) == 614,
        all_ascii("Reggae"@) && key_code(ascii_key("Reggae"@)) == 882,
        all_ascii("Latin"@) && key_code(ascii_key("Latin"@)) == 748,
        all_ascii("Blues"@) && key_code(ascii_key("Blues"@)) == 738,
        all_ascii("Punk"@) && key_code(ascii_key("Punk"@)) == 624,
        all_ascii("Soundtrack"@) && key_code(ascii_key("Soundtrack"@)) == 1395,
        all_ascii("World"@) && key_code(ascii_key("World"@)) == 759,
{
    reveal_strlit("Jazz");
    reveal_strlit("Classical");
    reveal_strlit("R&B");
    reveal_strlit("Pop");
    reveal_strlit("Country");
    reveal_strlit("Folk");
    reveal_strlit("Reggae");
    reveal_strlit("Latin");
    reveal_strlit("Blues");
    reveal_strlit("Punk");
    reveal_strlit("Soundtrack");
    reveal_strlit("World");
    reveal_with_fuel(Seq::filter, 11);
    assert(ascii_key("Jazz"@) =~= seq!['j', 'a', 'z', 'z']);
    assert(ascii_key("Classical"@) =~= seq!['c', 'l', 'a', 's', 's', 'i', 'c', 'a', 'l']);
    assert(ascii_key("R&B"@) =~= seq!['r', 'b']);
    assert(ascii_key("Pop"@) =~= seq!['p', 'o', 'p']);
    assert(ascii_key("Country"@) =~= seq!['c', 'o', 'u', 'n', 't', 'r', 'y']);
    assert(ascii_key("Folk"@) =~= seq!['f', 'o', 'l', 'k']);
    assert(ascii_key("Reggae"@) =~= seq!['r', 'e', 'g', 'g', 'a', 'e']);
    assert(ascii_key("Latin"@) =~= seq!['l', 'a', 't', 'i', 'n']);
    assert(ascii_key("Blues"@) =~= seq!['b', 'l', 'u', 'e', 's']);
    assert(ascii_key("Punk"@) =~= seq!['p', 'u', 'n', 'k']);
    assert(ascii_key("Soundtrack"@) =~= seq!['s', 'o', 'u', 'n', 'd', 't', 'r', 'a', 'c', 'k']);
    assert(ascii_key("World"@) =~= seq!['w', 'o', 'r', 'l', 'd']);
}

/// The names and aliases of built-in genre `i` are ASCII, and their keys
/// have the codes of `default_code`.
proof fn lemma_default_genre_keys(i: int)
    requires
        0 <= i < default_genres().len(),
    ensures
        all_ascii(default_genres()[i].name),
        forall|j: int|
            0 <= j < default_genres()[i].aliases.len() ==> all_ascii(#[trigger] default_genres()[i].aliases[j]),
        forall|k: Seq<char>| #[trigger] has_ascii_key(default_genres()[i], k) ==> default_code(i, key_code(k)),
{
    lemma_hip_hop_keys();
    lemma_rock_keys();
    lemma_electronic_keys();
    lemma_metal_keys();
    lemma_other_keys();
    let g = default_genres()[i];
    if i == 0 {
        assert forall|j: int| 0 <= j < g.aliases.len() implies all_ascii(#[trigger] g.aliases[j]) && default_code(i, key_code(ascii_key(g.aliases[j]))) by {
            if j == 0 {
                assert(g.aliases[j] == "Rap"@);
            } else if j == 1 {
                assert(g.aliases[j] == "Cloud Rap"@);
            } else if j == 2 {
                assert(g.aliases[j] == "Trap"@);
            } else if j == 3 {
                assert(g.aliases[j] == "Drill"@);
            } else if j == 4 {
                assert(g.aliases[j] == "Boom Bap"@);
            }
        }
    }
    if i == 1 {
        assert forall|j: int| 0 <= j < g.aliases.len() implies all_ascii(#[trigger] g.aliases[j]) && default_code(i, key_code(ascii_key(g.aliases[j]))) by {
            if j == 0 {
                assert(g.aliases[j] == "Shoegaze"@);
            } else if j == 1 {
                assert(g.aliases[j] == "Indie Rock"@);
            } else if j == 2 {
                assert(g.aliases[j] == "Post-Rock"@);
            } else if j == 3 {
                assert(g.aliases[j] == "Alternative Rock"@);
            } else if j == 4 {
                assert(g.aliases[j] == "Grunge"@);
            }
        }
    }
    if i == 2 {
        assert forall|j: int| 0 <= j < g.aliases.len() implies all_ascii(#[trigger] g.aliases[j]) && default_code(i, key_code(ascii_key(g.aliases[j]))) by {
            if j == 0 {
                assert(g.aliases[j] == "House"@);
            } else if j == 1 {
                assert(g.aliases[j] == "Tech House"@);
            } else if j == 2 {
                assert(g.aliases[j] == "Techno"@);
            } else if j == 3 {
                assert(g.aliases[j] == "Drum and Bass"@);
            } else if j == 4 {
                assert(g.aliases[j] == "Dubstep"@);
            } else if j == 5 {
                assert(g.aliases[j] == "Ambient"@);
            } else if j == 6 {
                assert(g.aliases[j] == "IDM"@);
            } else if j == 7 {
                assert(g.aliases[j] == "Trance"@);
            }
        }
    }
    if i == 8 {
        assert forall|j: int| 0 <= j < g.aliases.len() implies all_ascii(#[trigger] g.aliases[j]) && default_code(i, key_code(ascii_key(g.aliases[j]))) by {
            if j == 0 {
                assert(g.aliases[j] == "Death Metal"@);
            } else if j == 1 {
                assert(g.aliases[j] == "Black Metal"@);
            } else if j == 2 {
                assert(g.aliases[j] == "Thrash Metal"@);
            } else if j == 3 {
                assert(g.aliases[j] == "Doom Metal"@);
            }
        }
    }
    assert forall|k: Seq<char>| #[trigger] has_ascii_key(g, k) implies default_code(i, key_code(k)) by {
        if ascii_key(g.name) != k {
            let j = choose|j: int| 0 <= j < g.aliases.len() && ascii_key(#[trigger] g.aliases[j]) == k;
            assert(default_code(i, key_code(ascii_key(g.aliases[j]))));
        }
    }
}

/// The built-in genres are ASCII, and no key is shared by two of them.
proof fn lemma_default_genres_load()
    ensures
        ascii_entries(default_genres()),
        ascii_unambiguous(default_genres()),
{
    let gs = default_genres();
    assert forall|i: int| 0 <= i < gs.len() implies {
        &&& all_ascii((#[trigger] gs[i]).name)
        &&& forall|j: int| 0 <= j < gs[i].aliases.len() ==> all_ascii(#[trigger] gs[i].aliases[j])
    } by {
        lemma_default_genre_keys(i);
    }
    assert forall|i1: int, i2: int, k: Seq<char>|
        0 <= i1 < gs.len() && 0 <= i2 < gs.len() && gs[i1].name != gs[i2].name
            && #[trigger] has_ascii_key(gs[i1], k) implies !#[trigger] has_ascii_key(gs[i2], k) by {
        lemma_default_genre_keys(i1);
        lemma_default_genre_keys(i2);
    }
}

impl Taxonomy {
    /// Loads the built-in taxonomy. It always loads: its names and aliases
    /// are ASCII and no two genres share a key.
    pub fn load_default() -> (r: Result<Taxonomy, TaxonomyError>)
        ensures
            r is Ok,
            match r {
                Ok(t) => {
                    &&& lookup_of(default_genres()) == Ok::<_, TaxonomyErrorView>(t@.lookup)
                    &&& t@.canonical_names == names_of(default_genres())
                    &&& t@.user_added == Seq::<(Seq<char>, Seq<char>)>::empty()
                    &&& t@.loaded == t@.lookup
                    &&& t@.only_aliases_added
                    &&& t@.wf()
                },
                Err(e) => lookup_of(default_genres()) == Err::<Map<Seq<char>, Seq<char>>, _>(e@),
            },
    {
        proof {
            lemma_default_genres_load();
        }
        Taxonomy::from_yaml(&default_taxonomy_file())
    }
}


/// The flat built-in alias table: (alias, canonical) pairs, the canonical
/// names mapping to themselves first.
pub open spec fn builtin_pairs() -> Seq<(Seq<char>, Seq<char>)> {
    seq![
        ("Hip Hop"@, "Hip Hop"@),
        ("Rock"@, "Rock"@),
        ("Electronic"@, "Electronic"@),
        ("Jazz"@, "Jazz"@),
        ("Classical"@, "Classical"@),
        ("R&B"@, "R&B"@),
        ("Pop"@, "Pop"@),
        ("Country"@, "Country"@),
        ("Metal"@, "Metal"@),
        ("Folk"@, "Folk"@),
        ("Rap"@, "Hip Hop"@),
        ("Cloud Rap"@, "Hip Hop"@),
        ("Trap"@, "Hip Hop"@),
        ("Drill"@, "Hip Hop"@),
        ("Boom Bap"@, "Hip Hop"@),
        ("Shoegaze"@, "Rock"@),
        ("Indie Rock"@, "Rock"@),
        ("Post-Rock"@, "Rock"@),
        ("Alternative Rock"@, "Rock"@),
        ("Punk"@, "Rock"@),
        ("Grunge"@, "Rock"@),
        ("House"@, "Electronic"@),
        ("Tech House"@, "Electronic"@),
        ("Techno"@, "Electronic"@),
        ("Drum and Bass"@, "Electronic"@),
        ("Dubstep"@, "Electronic"@),
        ("Ambient"@, "Electronic"@),
        ("IDM"@, "Electronic"@),
        ("Trance"@, "Electronic"@),
        ("Death Metal"@, "Metal"@),
        ("Black Metal"@, "Metal"@),
        ("Thrash Metal"@, "Metal"@),
        ("Doom Metal"@, "Metal"@),
    ]
}

/// The views of a list of (alias, canonical) pairs of string slices.
pub open spec fn pair_views(items: Seq<(&str, &str)>) -> Seq<(Seq<char>, Seq<char>)> {
    items.map_values(|p: (&str, &str)| (p.0@, p.1@))
}

/// The lookup that inserting the pairs in order gives: each alias is keyed by
/// its normalised form, and a later pair overrides an earlier one.
pub open spec fn table_of(pairs: Seq<(Seq<char>, Seq<char>)>) -> Map<Seq<char>, Seq<char>>
    decreases pairs.len(),
{
    if pairs.len() == 0 {
        Map::empty()
    } else {
        table_of(pairs.drop_last()).insert(normalized(pairs.last().0), pairs.last().1)
    }
}

/// Whether `m` maps the normal form of `alias` to `canonical`.
pub open spec fn maps_alias(m: Map<Seq<char>, Seq<char>>, alias: Seq<char>, canonical: Seq<char>) -> bool {
    m.contains_key(normalized(alias)) && m[normalized(alias)] == canonical
}

/// In the table of a list of pairs, the genre of a pair stands when no later
/// pair with the same key names another genre.
proof fn lemma_table_of_last_write(pairs: Seq<(Seq<char>, Seq<char>)>, x: int)
    requires
        0 <= x < pairs.len(),
        forall|y: int|
            x < y < pairs.len() && normalized((#[trigger] pairs[y]).0) == normalized(pairs[x].0) ==> pairs[y].1
                == pairs[x].1,
    ensures
        maps_alias(table_of(pairs), pairs[x].0, pairs[x].1),
    decreases pairs.len(),
{
    let prefix = pairs.drop_last();
    let last = pairs.len() - 1;
    assert(pairs.last() == pairs[last]);
    if x < last {
        assert(prefix[x] == pairs[x]);
        assert forall|y: int|
            x < y < prefix.len() && normalized((#[trigger] prefix[y]).0) == normalized(prefix[x].0) implies prefix[y].1
                == prefix[x].1 by {
            assert(prefix[y] == pairs[y]);
        }
        lemma_table_of_last_write(prefix, x);
    }
}

/// The key code of the alias of each pair of the flat table, by position.
spec fn flat_code(y: int) -> int {
    if y == 0 {
        872
    } else if y == 1 {
        626
    } else if y == 2 {
        1381
    } else if y == 3 {
        618
    } else if y == 4 {
        1251
    } else if y == 5 {
        370
    } else if y == 6 {
        496
    } else if y == 7 {
        995
    } else if y == 8 {
        749
    } else if y == 9 {
        614
    } else if y == 10 {
        498
    } else if y == 11 {
        1123
    } else if y == 12 {
        628
    } else if y == 13 {
        740
    } else if y == 14 {
        994
    } else if y == 15 {
        1139
    } else if y == 16 {
        1257
    } else if y == 17 {
        1136
    } else if y == 18 {
        2017
    } else if y == 19 {
        624
    } else if y == 20 {
        871
    } else if y == 21 {
        744
    } else if y == 22 {
        1268
    } else if y == 23 {
        884
    } else if y == 24 {
        1508
    } else if y == 25 {
        996
    } else if y == 26 {
        993
    } else if y == 27 {
        489
    } else if y == 28 {
        884
    } else if y == 29 {
        1380
    } else if y == 30 {
        1378
    } else if y == 31 {
        1524
    } else if y == 32 {
        1252
    } else {
        0
    }
}

/// The flat table maps each alias to its genre, given that the normal form
/// of each of its ASCII aliases is its ASCII key.
proof fn lemma_builtin_table_entries()
    requires
        forall|x: int|
            0 <= x < builtin_pairs().len() && all_ascii((#[trigger] builtin_pairs()[x]).0) ==> normalized(
                builtin_pairs()[x].0,
            ) == ascii_key(builtin_pairs()[x].0),
    ensures
        maps_alias(table_of(builtin_pairs()), "Hip Hop"@, "Hip Hop"@),
        maps_alias(table_of(builtin_pairs()), "Rock"@, "Rock"@),
        maps_alias(table_of(builtin_pairs()), "Electronic"@, "Electronic"@),
        maps_alias(table_of(builtin_pairs()), "Jazz"@, "Jazz"@),
        maps_alias(table_of(builtin_pairs()), "Classical"@, "Classical"@),
        maps_alias(table_of(builtin_pairs()), "R&B"@, "R&B"@),
        maps_alias(table_of(builtin_pairs()), "Pop"@, "Pop"@),
        maps_alias(table_of(builtin_pairs()), "Country"@, "Country"@),
        maps_alias(table_of(builtin_pairs()), "Metal"@, "Metal"@),
        maps_alias(table_of(builtin_pairs()), "Folk"@, "Folk"@),
        maps_alias(table_of(builtin_pairs()), "Rap"@, "Hip Hop"@),
        maps_alias(table_of(builtin_pairs()), "Cloud Rap"@, "Hip Hop"@),
        maps_alias(table_of(builtin_pairs()), "Trap"@, "Hip Hop"@),
        maps_alias(table_of(builtin_pairs()), "Drill"@, "Hip Hop"@),
        maps_alias(table_of(builtin_pairs()), "Boom Bap"@, "Hip Hop"@),
        maps_alias(table_of(builtin_pairs()), "Shoegaze"@, "Rock"@),
        maps_alias(table_of(builtin_pairs()), "Indie Rock"@, "Rock"@),
        maps_alias(table_of(builtin_pairs()), "Post-Rock"@, "Rock"@),
        maps_alias(table_of(builtin_pairs()), "Alternative Rock"@, "Rock"@),
        maps_alias(table_of(builtin_pairs()), "Punk"@, "Rock"@),
        maps_alias(table_of(builtin_pairs()), "Grunge"@, "Rock"@),
        maps_alias(table_of(builtin_pairs()), "House"@, "Electronic"@),
        maps_alias(table_of(builtin_pairs()), "Tech House"@, "Electronic"@),
        maps_alias(table_of(builtin_pairs()), "Techno"@, "Electronic"@),
        maps_alias(table_of(builtin_pairs()), "Drum and Bass"@, "Electronic"@),
        maps_alias(table_of(builtin_pairs()), "Dubstep"@, "Electronic"@),
        maps_alias(table_of(builtin_pairs()), "Ambient"@, "Electronic"@),
        maps_alias(table_of(builtin_pairs()), "IDM"@, "Electronic"@),
        maps_alias(table_of(builtin_pairs()), "Trance"@, "Electronic"@),
        maps_alias(table_of(builtin_pairs()), "Death Metal"@, "Metal"@),
        maps_alias(table_of(builtin_pairs()), "Black Metal"@, "Metal"@),
        maps_alias(table_of(builtin_pairs()), "Thrash Metal"@, "Metal"@),
        maps_alias(table_of(builtin_pairs()), "Doom Metal"@, "Metal"@),
{
    let bp = builtin_pairs();
    lemma_hip_hop_keys();
    lemma_rock_keys();
    lemma_electronic_keys();
    lemma_metal_keys();
    lemma_other_keys();
    assert forall|y: int| 0 <= y < bp.len() implies key_code(normalized((#[trigger] bp[y]).0)) == flat_code(y) by {
        if y == 0 {
            assert(bp[y].0 == "Hip Hop"@);
        } else if y == 1 {
            assert(bp[y].0 == "Rock"@);
        } else if y == 2 {
            assert(bp[y].0 == "Electronic"@);
        } else if y == 3 {
            assert(bp[y].0 == "Jazz"@);
        } else if y == 4 {
            assert(bp[y].0 == "Classical"@);
        } else if y == 5 {
            assert(bp[y].0 == "R&B"@);
        } else if y == 6 {
            assert(bp[y].0 == "Pop"@);
        } else if y == 7 {
            assert(bp[y].0 == "Country"@);
        } else if y == 8 {
            assert(bp[y].0 == "Metal"@);
        } else if y == 9 {
            assert(bp[y].0 == "Folk"@);
        } else if y == 10 {
            assert(bp[y].0 == "Rap"@);
        } else if y == 11 {
            assert(bp[y].0 == "Cloud Rap"@);
        } else if y == 12 {
            assert(bp[y].0 == "Trap"@);
        } else if y == 13 {
            assert(bp[y].0 == "Drill"@);
        } else if y == 14 {
            assert(bp[y].0 == "Boom Bap"@);
        } else if y == 15 {
            assert(bp[y].0 == "Shoegaze"@);
        } else if y == 16 {
            assert(bp[y].0 == "Indie Rock"@);
        } else if y == 17 {
            assert(bp[y].0 == "Post-Rock"@);
        } else if y == 18 {
            assert(bp[y].0 == "Alternative Rock"@);
        } else if y == 19 {
            assert(bp[y].0 == "Punk"@);
        } else if y == 20 {
            assert(bp[y].0 == "Grunge"@);
        } else if y == 21 {
            assert(bp[y].0 == "House"@);
        } else if y == 22 {
            assert(bp[y].0 == "Tech House"@);
        } else if y == 23 {
            assert(bp[y].0 == "Techno"@);
        } else if y == 24 {
            assert(bp[y].0 == "Drum and Bass"@);
        } else if y == 25 {
            assert(bp[y].0 == "Dubstep"@);
        } else if y == 26 {
            assert(bp[y].0 == "Ambient"@);
        } else if y == 27 {
            assert(bp[y].0 == "IDM"@);
        } else if y == 28 {
            assert(bp[y].0 == "Trance"@);
        } else if y == 29 {
            assert(bp[y].0 == "Death Metal"@);
        } else if y == 30 {
            assert(bp[y].0 == "Black Metal"@);
        } else if y == 31 {
            assert(bp[y].0 == "Thrash Metal"@);
        } else if y == 32 {
            assert(bp[y].0 == "Doom Metal"@);
        }
    }
    assert forall|x: int, y: int| 0 <= x < y < bp.len() && flat_code(x) == flat_code(y) implies x == 23 && y == 28 by {}
    assert(bp[23].1 == bp[28].1);
    assert forall|x: int| 0 <= x < bp.len() implies maps_alias(table_of(bp), (#[trigger] bp[x]).0, bp[x].1) by {
        assert forall|y: int|
            x < y < bp.len() && normalized((#[trigger] bp[y]).0) == normalized(bp[x].0) implies bp[y].1 == bp[x].1 by {
            assert(key_code(normalized(bp[y].0)) == flat_code(y));
            assert(key_code(normalized(bp[x].0)) == flat_code(x));
        }
        lemma_table_of_last_write(bp, x);
    }
    assert(bp[0] == ("Hip Hop"@, "Hip Hop"@));
    assert(bp[1] == ("Rock"@, "Rock"@));
    assert(bp[2] == ("Electronic"@, "Electronic"@));
    assert(bp[3] == ("Jazz"@, "Jazz"@));
    assert(bp[4] == ("Classical"@, "Classical"@));
    assert(bp[5] == ("R&B"@, "R&B"@));
    assert(bp[6] == ("Pop"@, "Pop"@));
    assert(bp[7] == ("Country"@, "Country"@));
    assert(bp[8] == ("Metal"@, "Metal"@));
    assert(bp[9] == ("Folk"@, "Folk"@));
    assert(bp[10] == ("Rap"@, "Hip Hop"@));
    assert(bp[11] == ("Cloud Rap"@, "Hip Hop"@));
    assert(bp[12] == ("Trap"@, "Hip Hop"@));
    assert(bp[13] == ("Drill"@, "Hip Hop"@));
    assert(bp[14] == ("Boom Bap"@, "Hip Hop"@));
    assert(bp[15] == ("Shoegaze"@, "Rock"@));
    assert(bp[16] == ("Indie Rock"@, "Rock"@));
    assert(bp[17] == ("Post-Rock"@, "Rock"@));
    assert(bp[18] == ("Alternative Rock"@, "Rock"@));
    assert(bp[19] == ("Punk"@, "Rock"@));
    assert(bp[20] == ("Grunge"@, "Rock"@));
    assert(bp[21] == ("House"@, "Electronic"@));
    assert(bp[22] == ("Tech House"@, "Electronic"@));
    assert(bp[23] == ("Techno"@, "Electronic"@));
    assert(bp[24] == ("Drum and Bass"@, "Electronic"@));
    assert(bp[25] == ("Dubstep"@, "Electronic"@));
    assert(bp[26] == ("Ambient"@, "Electronic"@));
    assert(bp[27] == ("IDM"@, "Electronic"@));
    assert(bp[28] == ("Trance"@, "Electronic"@));
    assert(bp[29] == ("Death Metal"@, "Metal"@));
    assert(bp[30] == ("Black Metal"@, "Metal"@));
    assert(bp[31] == ("Thrash Metal"@, "Metal"@));
    assert(bp[32] == ("Doom Metal"@, "Metal"@));
}

/// Whether `k` is the normal form of an alias of the flat built-in table.
pub open spec fn flat_key(k: Seq<char>) -> bool {
    ||| k == normalized("Hip Hop"@)
    ||| k == normalized("Rock"@)
    ||| k == normalized("Electronic"@)
    ||| k == normalized("Jazz"@)
    ||| k == normalized("Classical"@)
    ||| k == normalized("R&B"@)
    ||| k == normalized("Pop"@)
    ||| k == normalized("Country"@)
    ||| k == normalized("Metal"@)
    ||| k == normalized("Folk"@)
    ||| k == normalized("Rap"@)
    ||| k == normalized("Cloud Rap"@)
    ||| k == normalized("Trap"@)
    ||| k == normalized("Drill"@)
    ||| k == normalized("Boom Bap"@)
    ||| k == normalized("Shoegaze"@)
    ||| k == normalized("Indie Rock"@)
    ||| k == normalized("Post-Rock"@)
    ||| k == normalized("Alternative Rock"@)
    ||| k == normalized("Punk"@)
    ||| k == normalized("Grunge"@)
    ||| k == normalized("House"@)
    ||| k == normalized("Tech House"@)
    ||| k == normalized("Techno"@)
    ||| k == normalized("Drum and Bass"@)
    ||| k == normalized("Dubstep"@)
    ||| k == normalized("Ambient"@)
    ||| k == normalized("IDM"@)
    ||| k == normalized("Trance"@)
    ||| k == normalized("Death Metal"@)
    ||| k == normalized("Black Metal"@)
    ||| k == normalized("Thrash Metal"@)
    ||| k == normalized("Doom Metal"@)
}

/// Every key of the table of a list of pairs is the normal form of one of
/// its aliases.
proof fn lemma_table_of_keys(pairs: Seq<(Seq<char>, Seq<char>)>, k: Seq<char>)
    requires
        table_of(pairs).contains_key(k),
    ensures
        exists|x: int| 0 <= x < pairs.len() && normalized((#[trigger] pairs[x]).0) == k,
    decreases pairs.len(),
{
    let prefix = pairs.drop_last();
    let last = pairs.len() - 1;
    assert(pairs.last() == pairs[last]);
    if normalized(pairs[last].0) != k {
        lemma_table_of_keys(prefix, k);
        let x = choose|x: int| 0 <= x < prefix.len() && normalized((#[trigger] prefix[x]).0) == k;
        assert(prefix[x] == pairs[x]);
    }
}

/// The flat built-in table has no key but the normal forms of its aliases.
proof fn lemma_builtin_table_keys(k: Seq<char>)
    requires
        table_of(builtin_pairs()).contains_key(k),
    ensures
        flat_key(k),
{
    let bp = builtin_pairs();
    lemma_table_of_keys(bp, k);
    let x = choose|x: int| 0 <= x < bp.len() && normalized((#[trigger] bp[x]).0) == k;
    if x == 0 {
        assert(bp[x].0 == "Hip Hop"@);
    } else if x == 1 {
        assert(bp[x].0 == "Rock"@);
    } else if x == 2 {
        assert(bp[x].0 == "Electronic"@);
    } else if x == 3 {
        assert(bp[x].0 == "Jazz"@);
    } else if x == 4 {
        assert(bp[x].0 == "Classical"@);
    } else if x == 5 {
        assert(bp[x].0 == "R&B"@);
    } else if x == 6 {
        assert(bp[x].0 == "Pop"@);
    } else if x == 7 {
        assert(bp[x].0 == "Country"@);
    } else if x == 8 {
        assert(bp[x].0 == "Metal"@);
    } else if x == 9 {
        assert(bp[x].0 == "Folk"@);
    } else if x == 10 {
        assert(bp[x].0 == "Rap"@);
    } else if x == 11 {
        assert(bp[x].0 == "Cloud Rap"@);
    } else if x == 12 {
        assert(bp[x].0 == "Trap"@);
    } else if x == 13 {
        assert(bp[x].0 == "Drill"@);
    } else if x == 14 {
        assert(bp[x].0 == "Boom Bap"@);
    } else if x == 15 {
        assert(bp[x].0 == "Shoegaze"@);
    } else if x == 16 {
        assert(bp[x].0 == "Indie Rock"@);
    } else if x == 17 {
        assert(bp[x].0 == "Post-Rock"@);
    } else if x == 18 {
        assert(bp[x].0 == "Alternative Rock"@);
    } else if x == 19 {
        assert(bp[x].0 == "Punk"@);
    } else if x == 20 {
        assert(bp[x].0 == "Grunge"@);
    } else if x == 21 {
        assert(bp[x].0 == "House"@);
    } else if x == 22 {
        assert(bp[x].0 == "Tech House"@);
    } else if x == 23 {
        assert(bp[x].0 == "Techno"@);
    } else if x == 24 {
        assert(bp[x].0 == "Drum and Bass"@);
    } else if x == 25 {
        assert(bp[x].0 == "Dubstep"@);
    } else if x == 26 {
        assert(bp[x].0 == "Ambient"@);
    } else if x == 27 {
        assert(bp[x].0 == "IDM"@);
    } else if x == 28 {
        assert(bp[x].0 == "Trance"@);
    } else if x == 29 {
        assert(bp[x].0 == "Death Metal"@);
    } else if x == 30 {
        assert(bp[x].0 == "Black Metal"@);
    } else if x == 31 {
        assert(bp[x].0 == "Thrash Metal"@);
    } else if x == 32 {
        assert(bp[x].0 == "Doom Metal"@);
    }
}

/// Builds the flat built-in lookup from normalised alias to canonical genre.
pub fn build_taxonomy() -> (r: StringHashMap<String>)
    ensures
        table_view(&r) == table_of(builtin_pairs()),
        forall|k: Seq<char>| #[trigger] table_view(&r).contains_key(k) ==> flat_key(k),
        maps_alias(table_view(&r), "Hip Hop"@, "Hip Hop"@),
        maps_alias(table_view(&r), "Rock"@, "Rock"@),
        maps_alias(table_view(&r), "Electronic"@, "Electronic"@),
        maps_alias(table_view(&r), "Jazz"@, "Jazz"@),
        maps_alias(table_view(&r), "Classical"@, "Classical"@),
        maps_alias(table_view(&r), "R&B"@, "R&B"@),
        maps_alias(table_view(&r), "Pop"@, "Pop"@),
        maps_alias(table_view(&r), "Country"@, "Country"@),
        maps_alias(table_view(&r), "Metal"@, "Metal"@),
        maps_alias(table_view(&r), "Folk"@, "Folk"@),
        maps_alias(table_view(&r), "Rap"@, "Hip Hop"@),
        maps_alias(table_view(&r), "Cloud Rap"@, "Hip Hop"@),
        maps_alias(table_view(&r), "Trap"@, "Hip Hop"@),
        maps_alias(table_view(&r), "Drill"@, "Hip Hop"@),
        maps_alias(table_view(&r), "Boom Bap"@, "Hip Hop"@),
        maps_alias(table_view(&r), "Shoegaze"@, "Rock"@),
        maps_alias(table_view(&r), "Indie Rock"@, "Rock"@),
        maps_alias(table_view(&r), "Post-Rock"@, "Rock"@),
        maps_alias(table_view(&r), "Alternative Rock"@, "Rock"@),
        maps_alias(table_view(&r), "Punk"@, "Rock"@),
        maps_alias(table_view(&r), "Grunge"@, "Rock"@),
        maps_alias(table_view(&r), "House"@, "Electronic"@),
        maps_alias(table_view(&r), "Tech House"@, "Electronic"@),
        maps_alias(table_view(&r), "Techno"@, "Electronic"@),
        maps_alias(table_view(&r), "Drum and Bass"@, "Electronic"@),
        maps_alias(table_view(&r), "Dubstep"@, "Electronic"@),
        maps_alias(table_view(&r), "Ambient"@, "Electronic"@),
        maps_alias(table_view(&r), "IDM"@, "Electronic"@),
        maps_alias(table_view(&r), "Trance"@, "Electronic"@),
        maps_alias(table_view(&r), "Death Metal"@, "Metal"@),
        maps_alias(table_view(&r), "Black Metal"@, "Metal"@),
        maps_alias(table_view(&r), "Thrash Metal"@, "Metal"@),
        maps_alias(table_view(&r), "Doom Metal"@, "Metal"@),
{
    let mappings: &[(&str, &str)] = &[
        ("Hip Hop", "Hip Hop"),
        ("Rock", "Rock"),
        ("Electronic", "Electronic"),
        ("Jazz", "Jazz"),
        ("Classical", "Classical"),
        ("R&B", "R&B"),
        ("Pop", "Pop"),
        ("Country", "Country"),
        ("Metal", "Metal"),
        ("Folk", "Folk"),
        ("Rap", "Hip Hop"),
        ("Cloud Rap", "Hip Hop"),
        ("Trap", "Hip Hop"),
        ("Drill", "Hip Hop"),
        ("Boom Bap", "Hip Hop"),
        ("Shoegaze", "Rock"),
        ("Indie Rock", "Rock"),
        ("Post-Rock", "Rock"),
        ("Alternative Rock", "Rock"),
        ("Punk", "Rock"),
        ("Grunge", "Rock"),
        ("House", "Electronic"),
        ("Tech House", "Electronic"),
        ("Techno", "Electronic"),
        ("Drum and Bass", "Electronic"),
        ("Dubstep", "Electronic"),
        ("Ambient", "Electronic"),
        ("IDM", "Electronic"),
        ("Trance", "Electronic"),
        ("Death Metal", "Metal"),
        ("Black Metal", "Metal"),
        ("Thrash Metal", "Metal"),
        ("Doom Metal", "Metal"),
    ];
    let mut map: StringHashMap<String> = StringHashMap::with_capacity(mappings.len());
    let ghost items = mappings@;
    let mut i: usize = 0;
    assert(table_view(&map) =~= table_of(pair_views(items.take(0))));
    while i < mappings.len()
        invariant
            items == mappings@,
            i <= items.len(),
            table_view(&map) == table_of(pair_views(items.take(i as int))),
            forall|x: int|
                0 <= x < i && all_ascii((#[trigger] items[x]).0@) ==> normalized(items[x].0@) == ascii_key(items[x].0@),
        decreases items.len() - i,
    {
        let (alias, canonical) = mappings[i];
        let key = normalize(alias);
        assert(pair_views(items.take(i + 1)).drop_last() =~= pair_views(items.take(i as int)));
        assert(pair_views(items.take(i + 1)).last() == (alias@, canonical@));
        let ghost before = map@;
        map.insert(key, canonical.to_owned());
        assert(table_view(&map) =~= table_of(pair_views(items.take(i + 1)))) by {
            assert(map@ == before.insert(normalized(alias@), map@[normalized(alias@)]));
        }
        i = i + 1;
    }
    assert(items.take(items.len() as int) =~= items);
    assert(pair_views(items) =~= builtin_pairs());
    proof {
        assert forall|x: int|
            0 <= x < builtin_pairs().len() && all_ascii((#[trigger] builtin_pairs()[x]).0) implies normalized(
                builtin_pairs()[x].0,
            ) == ascii_key(builtin_pairs()[x].0) by {
            assert(builtin_pairs()[x] == pair_views(items)[x]);
            assert(pair_views(items)[x].0 == items[x].0@);
        }
        lemma_builtin_table_entries();
        assert forall|k: Seq<char>| #[trigger] table_view(&map).contains_key(k) implies flat_key(k) by {
            lemma_builtin_table_keys(k);
        }
    }
    map
}

} // verus!
