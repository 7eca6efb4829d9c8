//! The taxonomy: canonical genres, the aliases that map onto them, and the
//! classification of a genre tag against them.

use vstd::prelude::*;
use vstd::hash_map::StringHashMap;
use crate::laws::{lemma_alias_keeps_history, lemma_alias_preserves_wf, lemma_merge_keeps_history};
use crate::text::{all_ascii, ascii_key, normalize, normalized};

verus! {

/// How a genre tag relates to the taxonomy.
#[derive(Debug, PartialEq)]
pub enum Classification {
    /// The tag is spelled exactly as its canonical genre.
    AlreadyCanonical,
    /// The tag is an alias (or a variant spelling) of `canonical`.
    Mapped { canonical: String },
    /// The tag matches no entry of the taxonomy.
    Unknown,
    /// The tag is empty.
    Empty,
}

/// The mathematical value of a [`Classification`].
pub enum ClassificationView {
    AlreadyCanonical,
    Mapped(Seq<char>),
    Unknown,
    Empty,
}

impl View for Classification {
    type V = ClassificationView;

    open spec fn view(&self) -> ClassificationView {
        match self {
            Classification::AlreadyCanonical => ClassificationView::AlreadyCanonical,
            Classification::Mapped { canonical } => ClassificationView::Mapped(canonical@),
            Classification::Unknown => ClassificationView::Unknown,
            Classification::Empty => ClassificationView::Empty,
        }
    }
}

/// A lookup table from normalised keys to canonical names, as a map of
/// character sequences.
pub open spec fn table_view(m: &StringHashMap<String>) -> Map<Seq<char>, Seq<char>> {
    m@.map_values(|v: String| v@)
}

/// What classifying `genre` against `lookup` gives: empty tags are `Empty`;
/// otherwise the normalised tag is looked up, and a hit is `AlreadyCanonical`
/// when the tag is spelled exactly as the canonical name it maps to.
pub open spec fn classify_view(lookup: Map<Seq<char>, Seq<char>>, genre: Seq<char>) -> ClassificationView {
    if genre.len() == 0 {
        ClassificationView::Empty
    } else if lookup.contains_key(normalized(genre)) {
        if lookup[normalized(genre)] == genre {
            ClassificationView::AlreadyCanonical
        } else {
            ClassificationView::Mapped(lookup[normalized(genre)])
        }
    } else {
        ClassificationView::Unknown
    }
}

/// Classifies a genre tag against a lookup table of normalised keys.
pub fn classify(genre: &str, taxonomy: &StringHashMap<String>) -> (r: Classification)
    ensures
        r@ == classify_view(table_view(taxonomy), genre@),
        genre@.len() > 0 && all_ascii(genre@) ==> normalized(genre@) == ascii_key(genre@),
{
    if genre.is_empty() {
        return Classification::Empty;
    }
    let key = normalize(genre);
    match taxonomy.get(key.as_str()) {
        Some(canonical) => {
            let spelled = genre.to_owned();
            if *canonical == spelled {
                Classification::AlreadyCanonical
            } else {
                Classification::Mapped { canonical: canonical.clone() }
            }
        },
        None => Classification::Unknown,
    }
}


/// One canonical genre of a taxonomy file and its aliases.
#[derive(Debug)]
pub struct CanonicalGenre {
    pub name: String,
    pub aliases: Vec<String>,
}

/// The mathematical value of a [`CanonicalGenre`].
#[verifier::ext_equal]
pub struct CanonicalGenreView {
    pub name: Seq<char>,
    pub aliases: Seq<Seq<char>>,
}

impl View for CanonicalGenre {
    type V = CanonicalGenreView;

    open spec fn view(&self) -> CanonicalGenreView {
        CanonicalGenreView { name: self.name@, aliases: self.aliases.deep_view() }
    }
}

/// The contents of a taxonomy document: its version, the canonical genres
/// with their aliases, and the ignored tags.
#[derive(Debug)]
pub struct TaxonomyFile {
    pub version: u32,
    pub canonical_genres: Vec<CanonicalGenre>,
    pub ignored: Vec<String>,
}

/// The mathematical value of a [`TaxonomyFile`].
pub struct TaxonomyFileView {
    pub version: u32,
    pub canonical_genres: Seq<CanonicalGenreView>,
    pub ignored: Seq<Seq<char>>,
}

impl View for TaxonomyFile {
    type V = TaxonomyFileView;

    open spec fn view(&self) -> TaxonomyFileView {
        TaxonomyFileView {
            version: self.version,
            canonical_genres: self.canonical_genres@.map_values(|g: CanonicalGenre| g@),
            ignored: self.ignored.deep_view(),
        }
    }
}

/// Why a taxonomy was refused or an alias was not added.
#[derive(Debug)]
pub enum TaxonomyError {
    /// Two canonical names normalise to the same key.
    AmbiguousName { key: String, canonical: String, existing: String },
    /// An alias of the file normalises to a key that is taken by another genre.
    AmbiguousAlias { alias: String, key: String, existing: String, canonical: String },
    /// The target of a new alias is not a canonical genre.
    NotCanonical { canonical: String },
    /// The alias already maps to another canonical genre.
    AliasConflict { alias: String, existing: String, canonical: String },
    /// An alias of the user's file maps to another genre than the defaults.
    UserConflict { alias: String, existing: String, canonical: String },
}

/// The mathematical value of a [`TaxonomyError`].
pub enum TaxonomyErrorView {
    AmbiguousName { key: Seq<char>, canonical: Seq<char>, existing: Seq<char> },
    AmbiguousAlias { alias: Seq<char>, key: Seq<char>, existing: Seq<char>, canonical: Seq<char> },
    NotCanonical { canonical: Seq<char> },
    AliasConflict { alias: Seq<char>, existing: Seq<char>, canonical: Seq<char> },
    UserConflict { alias: Seq<char>, existing: Seq<char>, canonical: Seq<char> },
}

impl View for TaxonomyError {
    type V = TaxonomyErrorView;

    open spec fn view(&self) -> TaxonomyErrorView {
        match self {
            TaxonomyError::AmbiguousName { key, canonical, existing } =>
                TaxonomyErrorView::AmbiguousName { key: key@, canonical: canonical@, existing: existing@ },
            TaxonomyError::AmbiguousAlias { alias, key, existing, canonical } =>
                TaxonomyErrorView::AmbiguousAlias {
                    alias: alias@,
                    key: key@,
                    existing: existing@,
                    canonical: canonical@,
                },
            TaxonomyError::NotCanonical { canonical } =>
                TaxonomyErrorView::NotCanonical { canonical: canonical@ },
            TaxonomyError::AliasConflict { alias, existing, canonical } =>
                TaxonomyErrorView::AliasConflict { alias: alias@, existing: existing@, canonical: canonical@ },
            TaxonomyError::UserConflict { alias, existing, canonical } =>
                TaxonomyErrorView::UserConflict { alias: alias@, existing: existing@, canonical: canonical@ },
        }
    }
}

/// A loaded taxonomy: the lookup from normalised keys to canonical names,
/// the canonical names in file order, and the aliases the user added.
pub struct Taxonomy {
    lookup: StringHashMap<String>,
    canonical_names: Vec<String>,
    user_added: Vec<(String, String)>,
    /// The lookup as the taxonomy document gave it.
    loaded: Ghost<Map<Seq<char>, Seq<char>>>,
    /// Whether only aliases were added since loading (no user file merged).
    only_aliases_added: Ghost<bool>,
}

/// The mathematical value of a [`Taxonomy`].
pub struct TaxonomyView {
    pub lookup: Map<Seq<char>, Seq<char>>,
    pub canonical_names: Seq<Seq<char>>,
    pub user_added: Seq<(Seq<char>, Seq<char>)>,
    pub loaded: Map<Seq<char>, Seq<char>>,
    pub only_aliases_added: bool,
}

impl View for Taxonomy {
    type V = TaxonomyView;

    closed spec fn view(&self) -> TaxonomyView {
        TaxonomyView {
            lookup: table_view(&self.lookup),
            canonical_names: self.canonical_names.deep_view(),
            user_added: self.user_added.deep_view(),
            loaded: self.loaded@,
            only_aliases_added: self.only_aliases_added@,
        }
    }
}

impl TaxonomyView {
    /// Well-formedness: every canonical name maps to itself, and every alias
    /// the user added maps to its canonical name, which is canonical.
    pub open spec fn wf(self) -> bool {
        &&& forall|i: int|
            0 <= i < self.canonical_names.len() ==> {
                &&& self.lookup.contains_key(normalized(#[trigger] self.canonical_names[i]))
                &&& self.lookup[normalized(self.canonical_names[i])] == self.canonical_names[i]
            }
        &&& forall|i: int|
            0 <= i < self.user_added.len() ==> {
                &&& self.lookup.contains_key(normalized((#[trigger] self.user_added[i]).0))
                &&& self.lookup[normalized(self.user_added[i].0)] == self.user_added[i].1
                &&& self.canonical_names.contains(self.user_added[i].1)
            }
    }
}

/// The lookup `base` after the user's pairs are added in order: each alias
/// keyed by its normal form, pointing to its genre.
pub open spec fn with_pairs(base: Map<Seq<char>, Seq<char>>, pairs: Seq<(Seq<char>, Seq<char>)>) -> Map<
    Seq<char>,
    Seq<char>,
>
    decreases pairs.len(),
{
    if pairs.len() == 0 {
        base
    } else {
        with_pairs(base, pairs.drop_last()).insert(normalized(pairs.last().0), pairs.last().1)
    }
}

/// The user's pairs have pairwise different keys, none of them a key of
/// `base`.
pub open spec fn fresh_pairs(base: Map<Seq<char>, Seq<char>>, pairs: Seq<(Seq<char>, Seq<char>)>) -> bool {
    &&& forall|x: int, y: int|
        0 <= x < y < pairs.len() ==> normalized((#[trigger] pairs[x]).0) != normalized((#[trigger] pairs[y]).0)
    &&& forall|x: int| 0 <= x < pairs.len() ==> !base.contains_key(normalized((#[trigger] pairs[x]).0))
}

impl TaxonomyView {
    /// What the taxonomy's history keeps: the loaded lookup is still there;
    /// the user's aliases have pairwise different keys, none of them a key of
    /// the loaded lookup; and while no user file was merged, the lookup is
    /// the loaded one with the user's aliases added.
    pub open spec fn user_aliases_fresh(self) -> bool {
        &&& self.loaded.submap_of(self.lookup)
        &&& fresh_pairs(self.loaded, self.user_added)
        &&& self.only_aliases_added ==> self.lookup == with_pairs(self.loaded, self.user_added)
    }
}

/// Whether `key` is already taken by another name than `name`.
pub open spec fn key_conflict(m: Map<Seq<char>, Seq<char>>, key: Seq<char>, name: Seq<char>) -> bool {
    m.contains_key(key) && m[key] != name
}

/// Adds the aliases of the genre `name` to `m`, in order; the first alias
/// whose key is taken by another genre refuses the whole file.
pub open spec fn add_aliases(
    m: Map<Seq<char>, Seq<char>>,
    name: Seq<char>,
    aliases: Seq<Seq<char>>,
) -> Result<Map<Seq<char>, Seq<char>>, TaxonomyErrorView>
    decreases aliases.len(),
{
    if aliases.len() == 0 {
        Ok(m)
    } else {
        match add_aliases(m, name, aliases.drop_last()) {
            Err(e) => Err(e),
            Ok(m1) => {
                let alias = aliases.last();
                let key = normalized(alias);
                if key_conflict(m1, key, name) {
                    Err(TaxonomyErrorView::AmbiguousAlias { alias, key, existing: m1[key], canonical: name })
                } else {
                    Ok(m1.insert(key, name))
                }
            },
        }
    }
}

/// Adds one canonical genre to `m`: its own name first, then its aliases.
pub open spec fn add_genre(m: Map<Seq<char>, Seq<char>>, g: CanonicalGenreView) -> Result<
    Map<Seq<char>, Seq<char>>,
    TaxonomyErrorView,
> {
    let key = normalized(g.name);
    if key_conflict(m, key, g.name) {
        Err(TaxonomyErrorView::AmbiguousName { key, canonical: g.name, existing: m[key] })
    } else {
        add_aliases(m.insert(key, g.name), g.name, g.aliases)
    }
}

/// Whether the ASCII key of the name or of an alias of `g` is `k`.
pub open spec fn has_ascii_key(g: CanonicalGenreView, k: Seq<char>) -> bool {
    ||| ascii_key(g.name) == k
    ||| exists|j: int| 0 <= j < g.aliases.len() && ascii_key(#[trigger] g.aliases[j]) == k
}

/// Whether every name and alias of the genres is ASCII.
pub open spec fn ascii_entries(genres: Seq<CanonicalGenreView>) -> bool {
    forall|i: int|
        0 <= i < genres.len() ==> {
            &&& all_ascii((#[trigger] genres[i]).name)
            &&& forall|j: int| 0 <= j < genres[i].aliases.len() ==> all_ascii(#[trigger] genres[i].aliases[j])
        }
}

/// Whether no key is shared by two genres of different names.
pub open spec fn ascii_unambiguous(genres: Seq<CanonicalGenreView>) -> bool {
    forall|i1: int, i2: int, k: Seq<char>|
        0 <= i1 < genres.len() && 0 <= i2 < genres.len() && genres[i1].name != genres[i2].name
            && #[trigger] has_ascii_key(genres[i1], k) ==> !#[trigger] has_ascii_key(genres[i2], k)
}

/// Every key of `m` is the key of an entry of a genre of `genres` that has
/// the name `m` gives it.
pub open spec fn keys_from(genres: Seq<CanonicalGenreView>, m: Map<Seq<char>, Seq<char>>) -> bool {
    forall|k: Seq<char>|
        #[trigger] m.contains_key(k) ==> exists|gi: int|
            0 <= gi < genres.len() && genres[gi].name == m[k] && #[trigger] has_ascii_key(genres[gi], k)
}

/// The lookup that the genres of a file give, in file order, or the first
/// ambiguity found.
pub open spec fn lookup_of(genres: Seq<CanonicalGenreView>) -> Result<Map<Seq<char>, Seq<char>>, TaxonomyErrorView>
    decreases genres.len(),
{
    if genres.len() == 0 {
        Ok(Map::empty())
    } else {
        match lookup_of(genres.drop_last()) {
            Err(e) => Err(e),
            Ok(m) => add_genre(m, genres.last()),
        }
    }
}

/// The canonical names of a file, in order.
pub open spec fn names_of(genres: Seq<CanonicalGenreView>) -> Seq<Seq<char>> {
    genres.map_values(|g: CanonicalGenreView| g.name)
}


/// Once adding a prefix of the aliases fails, adding all of them fails the
/// same way.
proof fn lemma_aliases_error_persists(
    m: Map<Seq<char>, Seq<char>>,
    name: Seq<char>,
    aliases: Seq<Seq<char>>,
    j: int,
)
    requires
        0 <= j <= aliases.len(),
        add_aliases(m, name, aliases.take(j)) is Err,
    ensures
        add_aliases(m, name, aliases) == add_aliases(m, name, aliases.take(j)),
    decreases aliases.len(),
{
    if j == aliases.len() {
        assert(aliases.take(j) =~= aliases);
    } else {
        assert(aliases.drop_last().take(j) =~= aliases.take(j));
        lemma_aliases_error_persists(m, name, aliases.drop_last(), j);
    }
}

/// Once building the lookup of a prefix of the genres fails, building it for
/// all of them fails the same way.
proof fn lemma_genres_error_persists(genres: Seq<CanonicalGenreView>, i: int)
    requires
        0 <= i <= genres.len(),
        lookup_of(genres.take(i)) is Err,
    ensures
        lookup_of(genres) == lookup_of(genres.take(i)),
    decreases genres.len(),
{
    if i == genres.len() {
        assert(genres.take(i) =~= genres);
    } else {
        assert(genres.drop_last().take(i) =~= genres.take(i));
        lemma_genres_error_persists(genres.drop_last(), i);
    }
}

/// Adding aliases never changes an existing entry, and every alias ends up
/// mapped to the genre.
proof fn lemma_add_aliases_extends(m: Map<Seq<char>, Seq<char>>, name: Seq<char>, aliases: Seq<Seq<char>>)
    requires
        add_aliases(m, name, aliases) is Ok,
    ensures
        m.submap_of(add_aliases(m, name, aliases)->Ok_0),
        forall|j: int|
            0 <= j < aliases.len() ==> {
                &&& add_aliases(m, name, aliases)->Ok_0.contains_key(normalized(#[trigger] aliases[j]))
                &&& add_aliases(m, name, aliases)->Ok_0[normalized(aliases[j])] == name
            },
    decreases aliases.len(),
{
    if aliases.len() > 0 {
        let prefix = aliases.drop_last();
        lemma_add_aliases_extends(m, name, prefix);
        let m1 = add_aliases(m, name, prefix)->Ok_0;
        let m2 = add_aliases(m, name, aliases)->Ok_0;
        assert(m2 == m1.insert(normalized(aliases.last()), name));
        assert(m1.submap_of(m2)) by {
            assert forall|k: Seq<char>| #[trigger] m1.dom().contains(k) implies m2.dom().contains(k) && m1[k]
                == m2[k] by {}
        }
        vstd::map_lib::lemma_submap_of_trans(m, m1, m2);
        assert forall|j: int| 0 <= j < aliases.len() implies {
            &&& m2.contains_key(normalized(#[trigger] aliases[j]))
            &&& m2[normalized(aliases[j])] == name
        } by {
            if j < aliases.len() - 1 {
                assert(aliases[j] == prefix[j]);
            }
        }
    }
}

/// Adding a genre never changes an existing entry, and its name and every
/// alias end up mapped to it.
proof fn lemma_add_genre_extends(m: Map<Seq<char>, Seq<char>>, g: CanonicalGenreView)
    requires
        add_genre(m, g) is Ok,
    ensures
        m.submap_of(add_genre(m, g)->Ok_0),
        add_genre(m, g)->Ok_0.contains_key(normalized(g.name)),
        add_genre(m, g)->Ok_0[normalized(g.name)] == g.name,
        forall|j: int|
            0 <= j < g.aliases.len() ==> {
                &&& add_genre(m, g)->Ok_0.contains_key(normalized(#[trigger] g.aliases[j]))
                &&& add_genre(m, g)->Ok_0[normalized(g.aliases[j])] == g.name
            },
{
    let m1 = m.insert(normalized(g.name), g.name);
    lemma_add_aliases_extends(m1, g.name, g.aliases);
    let m2 = add_genre(m, g)->Ok_0;
    assert(m2 == add_aliases(m1, g.name, g.aliases)->Ok_0);
    assert(m.submap_of(m1)) by {
        assert forall|k: Seq<char>| #[trigger] m.dom().contains(k) implies m1.dom().contains(k) && m[k] == m1[k] by {}
    }
    vstd::map_lib::lemma_submap_of_trans(m, m1, m2);
    let key = normalized(g.name);
    assert(m1.dom().contains(key));
    assert(m2.dom().contains(key));
}

/// Law: a taxonomy file that loads resolves each of its canonical names to
/// itself and each alias to the genre that lists it.
pub proof fn lemma_file_entries_resolve(genres: Seq<CanonicalGenreView>)
    requires
        lookup_of(genres) is Ok,
    ensures
        forall|i: int|
            0 <= i < genres.len() ==> {
                &&& lookup_of(genres)->Ok_0.contains_key(normalized((#[trigger] genres[i]).name))
                &&& lookup_of(genres)->Ok_0[normalized(genres[i].name)] == genres[i].name
            },
        forall|i: int, j: int|
            0 <= i < genres.len() && 0 <= j < genres[i].aliases.len() ==> {
                &&& lookup_of(genres)->Ok_0.contains_key(normalized(#[trigger] genres[i].aliases[j]))
                &&& lookup_of(genres)->Ok_0[normalized(genres[i].aliases[j])] == genres[i].name
            },
    decreases genres.len(),
{
    if genres.len() > 0 {
        let prefix = genres.drop_last();
        lemma_file_entries_resolve(prefix);
        let m1 = lookup_of(prefix)->Ok_0;
        let g = genres.last();
        lemma_add_genre_extends(m1, g);
        let m = lookup_of(genres)->Ok_0;
        assert forall|i: int| 0 <= i < genres.len() implies {
            &&& m.contains_key(normalized((#[trigger] genres[i]).name))
            &&& m[normalized(genres[i].name)] == genres[i].name
        } by {
            if i < genres.len() - 1 {
                assert(genres[i] == prefix[i]);
            }
        }
        assert forall|i: int, j: int| 0 <= i < genres.len() && 0 <= j < genres[i].aliases.len() implies {
            &&& m.contains_key(normalized(#[trigger] genres[i].aliases[j]))
            &&& m[normalized(genres[i].aliases[j])] == genres[i].name
        } by {
            let key = normalized(genres[i].aliases[j]);
            if i < genres.len() - 1 {
                assert(genres[i] == prefix[i]);
                assert(prefix[i].aliases[j] == genres[i].aliases[j]);
                assert(m1.contains_key(key));
            } else {
                assert(genres[i] == g);
                assert(g.aliases[j] == genres[i].aliases[j]);
            }
        }
    }
}


/// A key taken from an entry of genre `i` keeps every key of the lookup
/// traced to an entry.
proof fn lemma_keys_from_insert(genres: Seq<CanonicalGenreView>, m: Map<Seq<char>, Seq<char>>, i: int, key: Seq<char>)
    requires
        0 <= i < genres.len(),
        keys_from(genres, m),
        has_ascii_key(genres[i], key),
    ensures
        keys_from(genres, m.insert(key, genres[i].name)),
{
    let m2 = m.insert(key, genres[i].name);
    assert forall|k: Seq<char>| #[trigger] m2.contains_key(k) implies exists|gi: int|
        0 <= gi < genres.len() && genres[gi].name == m2[k] && #[trigger] has_ascii_key(genres[gi], k) by {
        if k == key {
            assert(genres[i].name == m2[k] && has_ascii_key(genres[i], k));
        } else {
            assert(m.contains_key(k));
            let gi = choose|gi: int| 0 <= gi < genres.len() && genres[gi].name == m[k] && #[trigger] has_ascii_key(genres[gi], k);
            assert(genres[gi].name == m2[k] && has_ascii_key(genres[gi], k));
        }
    }
}

/// In an unambiguous document, the key of an entry of genre `i` is never
/// taken by another genre.
proof fn lemma_conflict_is_ambiguous(genres: Seq<CanonicalGenreView>, m: Map<Seq<char>, Seq<char>>, i: int, key: Seq<char>)
    requires
        0 <= i < genres.len(),
        keys_from(genres, m),
        has_ascii_key(genres[i], key),
        key_conflict(m, key, genres[i].name),
    ensures
        !ascii_unambiguous(genres),
{
    assert(m.contains_key(key));
    let gi = choose|gi: int| 0 <= gi < genres.len() && genres[gi].name == m[key] && #[trigger] has_ascii_key(genres[gi], key);
    assert(genres[gi].name != genres[i].name);
}

/// Inserting into a lookup table inserts the views.
proof fn lemma_table_insert(before: Map<Seq<char>, String>, k: Seq<char>, v: String)
    ensures
        before.insert(k, v).map_values(|s: String| s@) =~= before.map_values(|s: String| s@).insert(k, v@),
{
}

impl Taxonomy {
    /// Builds a taxonomy from the contents of a taxonomy document. Each
    /// canonical name and alias is keyed by its normalised form; a key that
    /// two different genres claim refuses the document.
    pub fn from_yaml(file: &TaxonomyFile) -> (r: Result<Taxonomy, TaxonomyError>)
        ensures
            match r {
                Ok(t) => {
                    &&& lookup_of(file@.canonical_genres) == Ok::<_, TaxonomyErrorView>(t@.lookup)
                    &&& t@.canonical_names == names_of(file@.canonical_genres)
                    &&& t@.user_added == Seq::<(Seq<char>, Seq<char>)>::empty()
                    &&& t@.loaded == t@.lookup
                    &&& t@.only_aliases_added
                    &&& t@.wf()
                    &&& t@.user_aliases_fresh()
                },
                Err(e) => lookup_of(file@.canonical_genres) == Err::<Map<Seq<char>, Seq<char>>, _>(e@),
            },
            ascii_entries(file@.canonical_genres) && ascii_unambiguous(file@.canonical_genres) ==> r is Ok,
    {
        let genres = &file.canonical_genres;
        let ghost gs = file@.canonical_genres;
        let mut lookup: StringHashMap<String> = StringHashMap::new();
        let mut names: Vec<String> = Vec::new();
        let mut i: usize = 0;
        assert(gs.take(0) =~= Seq::<CanonicalGenreView>::empty());
        assert(table_view(&lookup) =~= Map::<Seq<char>, Seq<char>>::empty());
        while i < genres.len()
            invariant
                gs == file@.canonical_genres,
                genres == &file.canonical_genres,
                genres@.len() == gs.len(),
                i <= gs.len(),
                lookup_of(gs.take(i as int)) == Ok::<_, TaxonomyErrorView>(table_view(&lookup)),
                names.deep_view() == names_of(gs.take(i as int)),
                ascii_entries(gs) ==> keys_from(gs, table_view(&lookup)),
            decreases gs.len() - i,
        {
            let genre = &genres[i];
            assert(gs[i as int] == genre@);
            assert(gs.take(i + 1).drop_last() =~= gs.take(i as int));
            assert(gs.take(i + 1).last() == genre@);
            let ghost m0 = table_view(&lookup);
            let ghost before = names.deep_view();
            names.push(genre.name.clone());
            assert(names.deep_view() =~= before.push(genre.name@));
            assert(names_of(gs.take(i + 1)) =~= names_of(gs.take(i as int)).push(genre@.name));
            let key = normalize(genre.name.as_str());
            match lookup.get(key.as_str()) {
                Some(existing) => {
                    if !(*existing == genre.name) {
                        let e = TaxonomyError::AmbiguousName {
                            key,
                            canonical: genre.name.clone(),
                            existing: existing.clone(),
                        };
                        proof {
                            lemma_genres_error_persists(gs, i + 1);
                            if ascii_entries(gs) {
                                assert(all_ascii(gs[i as int].name));
                                lemma_conflict_is_ambiguous(gs, table_view(&lookup), i as int, key@);
                            }
                        }
                        return Err(e);
                    }
                },
                None => {},
            }
            proof {
                lemma_table_insert(lookup@, key@, genre.name);
                if ascii_entries(gs) {
                    assert(all_ascii(gs[i as int].name));
                    lemma_keys_from_insert(gs, table_view(&lookup), i as int, key@);
                }
            }
            lookup.insert(key, genre.name.clone());
            let ghost m1 = table_view(&lookup);
            let aliases = &genre.aliases;
            let ghost als = genre@.aliases;
            let mut j: usize = 0;
            assert(als.take(0) =~= Seq::<Seq<char>>::empty());
            while j < aliases.len()
                invariant
                    gs == file@.canonical_genres,
                    genres == &file.canonical_genres,
                    genres@.len() == gs.len(),
                    i < gs.len(),
                    genre == &genres[i as int],
                    gs[i as int] == genre@,
                    aliases == &genre.aliases,
                    als == genre@.aliases,
                    aliases@.len() == als.len(),
                    j <= als.len(),
                    lookup_of(gs.take(i as int)) == Ok::<_, TaxonomyErrorView>(m0),
                    !key_conflict(m0, normalized(genre@.name), genre@.name),
                    m1 == m0.insert(normalized(genre@.name), genre@.name),
                    gs.take(i + 1).drop_last() == gs.take(i as int),
                    gs.take(i + 1).last() == genre@,
                    add_aliases(m1, genre@.name, als.take(j as int)) == Ok::<_, TaxonomyErrorView>(
                        table_view(&lookup),
                    ),
                    ascii_entries(gs) ==> keys_from(gs, table_view(&lookup)),
                decreases als.len() - j,
            {
                let alias = &aliases[j];
                assert(als[j as int] == alias@);
                assert(als.take(j + 1).drop_last() =~= als.take(j as int));
                assert(als.take(j + 1).last() == alias@);
                let akey = normalize(alias.as_str());
                match lookup.get(akey.as_str()) {
                    Some(existing) => {
                        if !(*existing == genre.name) {
                            let e = TaxonomyError::AmbiguousAlias {
                                alias: alias.clone(),
                                key: akey,
                                existing: existing.clone(),
                                canonical: genre.name.clone(),
                            };
                            proof {
                                lemma_aliases_error_persists(m1, genre@.name, als, j + 1);
                                lemma_genres_error_persists(gs, i + 1);
                                if ascii_entries(gs) {
                                    assert(all_ascii(gs[i as int].aliases[j as int]));
                                    assert(has_ascii_key(gs[i as int], akey@));
                                    lemma_conflict_is_ambiguous(gs, table_view(&lookup), i as int, akey@);
                                }
                            }
                            return Err(e);
                        }
                    },
                    None => {},
                }
                proof {
                    lemma_table_insert(lookup@, akey@, genre.name);
                    if ascii_entries(gs) {
                        assert(all_ascii(gs[i as int].aliases[j as int]));
                        assert(has_ascii_key(gs[i as int], akey@));
                        lemma_keys_from_insert(gs, table_view(&lookup), i as int, akey@);
                    }
                }
                lookup.insert(akey, genre.name.clone());
                j = j + 1;
            }
            assert(als.take(als.len() as int) =~= als);
            i = i + 1;
        }
        assert(gs.take(gs.len() as int) =~= gs);
        let user_added: Vec<(String, String)> = Vec::new();
        proof {
            lemma_file_entries_resolve(gs);
            assert(user_added.deep_view() =~= Seq::<(Seq<char>, Seq<char>)>::empty());
            let cn = names.deep_view();
            let lk = table_view(&lookup);
            assert forall|k: int| 0 <= k < cn.len() implies {
                &&& lk.contains_key(normalized(#[trigger] cn[k]))
                &&& lk[normalized(cn[k])] == cn[k]
            } by {
                assert(cn[k] == gs[k].name);
            }
        }
        let ghost loaded = table_view(&lookup);
        assert(loaded.submap_of(loaded));
        let t = Taxonomy {
            lookup,
            canonical_names: names,
            user_added,
            loaded: Ghost(loaded),
            only_aliases_added: Ghost(true),
        };
        Ok(t)
    }
}


/// What adding the alias `alias` for `canonical` makes of a taxonomy: the
/// target must be canonical; an alias whose key maps to another genre is
/// refused; one that maps to the same genre changes nothing; otherwise the
/// key is added and the pair is recorded as a user addition.
pub open spec fn with_alias(t: TaxonomyView, alias: Seq<char>, canonical: Seq<char>) -> Result<
    TaxonomyView,
    TaxonomyErrorView,
> {
    let key = normalized(alias);
    if !t.canonical_names.contains(canonical) {
        Err(TaxonomyErrorView::NotCanonical { canonical })
    } else if t.lookup.contains_key(key) {
        if t.lookup[key] != canonical {
            Err(TaxonomyErrorView::AliasConflict { alias, existing: t.lookup[key], canonical })
        } else {
            Ok(t)
        }
    } else {
        Ok(
            TaxonomyView {
                lookup: t.lookup.insert(key, canonical),
                canonical_names: t.canonical_names,
                user_added: t.user_added.push((alias, canonical)),
                loaded: t.loaded,
                only_aliases_added: t.only_aliases_added,
            },
        )
    }
}

/// Merges the aliases of the genre `name` from a user file into `m`, in
/// order. An alias whose key maps to another genre stops the merge; the
/// entries merged before it stay. The second component is that conflict.
pub open spec fn merge_aliases(
    m: Map<Seq<char>, Seq<char>>,
    name: Seq<char>,
    aliases: Seq<Seq<char>>,
) -> (Map<Seq<char>, Seq<char>>, Option<TaxonomyErrorView>)
    decreases aliases.len(),
{
    if aliases.len() == 0 {
        (m, None)
    } else {
        let before = merge_aliases(m, name, aliases.drop_last());
        if before.1 is Some {
            before
        } else {
            let alias = aliases.last();
            let key = normalized(alias);
            if key_conflict(before.0, key, name) {
                (
                    before.0,
                    Some(TaxonomyErrorView::UserConflict { alias, existing: before.0[key], canonical: name }),
                )
            } else {
                (before.0.insert(key, name), None)
            }
        }
    }
}

/// Merges the aliases of every genre of a user file into `m`, in file
/// order, up to the first conflict.
pub open spec fn merge_genres(m: Map<Seq<char>, Seq<char>>, genres: Seq<CanonicalGenreView>) -> (
    Map<Seq<char>, Seq<char>>,
    Option<TaxonomyErrorView>,
)
    decreases genres.len(),
{
    if genres.len() == 0 {
        (m, None)
    } else {
        let before = merge_genres(m, genres.drop_last());
        if before.1 is Some {
            before
        } else {
            merge_aliases(before.0, genres.last().name, genres.last().aliases)
        }
    }
}

proof fn lemma_merge_aliases_error_persists(
    m: Map<Seq<char>, Seq<char>>,
    name: Seq<char>,
    aliases: Seq<Seq<char>>,
    j: int,
)
    requires
        0 <= j <= aliases.len(),
        merge_aliases(m, name, aliases.take(j)).1 is Some,
    ensures
        merge_aliases(m, name, aliases) == merge_aliases(m, name, aliases.take(j)),
    decreases aliases.len(),
{
    if j == aliases.len() {
        assert(aliases.take(j) =~= aliases);
    } else {
        assert(aliases.drop_last().take(j) =~= aliases.take(j));
        lemma_merge_aliases_error_persists(m, name, aliases.drop_last(), j);
    }
}

proof fn lemma_merge_genres_error_persists(m: Map<Seq<char>, Seq<char>>, genres: Seq<CanonicalGenreView>, i: int)
    requires
        0 <= i <= genres.len(),
        merge_genres(m, genres.take(i)).1 is Some,
    ensures
        merge_genres(m, genres) == merge_genres(m, genres.take(i)),
    decreases genres.len(),
{
    if i == genres.len() {
        assert(genres.take(i) =~= genres);
    } else {
        assert(genres.drop_last().take(i) =~= genres.take(i));
        lemma_merge_genres_error_persists(m, genres.drop_last(), i);
    }
}

/// Merging never changes an entry that was there before.
pub proof fn lemma_merge_aliases_extends(m: Map<Seq<char>, Seq<char>>, name: Seq<char>, aliases: Seq<Seq<char>>)
    ensures
        m.submap_of(merge_aliases(m, name, aliases).0),
    decreases aliases.len(),
{
    if aliases.len() > 0 {
        lemma_merge_aliases_extends(m, name, aliases.drop_last());
        let before = merge_aliases(m, name, aliases.drop_last());
        let after = merge_aliases(m, name, aliases);
        if before.1 is None {
            let key = normalized(aliases.last());
            if !key_conflict(before.0, key, name) {
                assert(before.0.submap_of(after.0)) by {
                    assert forall|k: Seq<char>| #[trigger] before.0.dom().contains(k) implies after.0.dom().contains(k)
                        && before.0[k] == after.0[k] by {
                        assert(after.0 == before.0.insert(key, name));
                    }
                }
            }
        }
        vstd::map_lib::lemma_submap_of_trans(m, before.0, after.0);
    }
}

/// Law: merging a user file never changes an entry that was there before.
pub proof fn lemma_merge_genres_extends(m: Map<Seq<char>, Seq<char>>, genres: Seq<CanonicalGenreView>)
    ensures
        m.submap_of(merge_genres(m, genres).0),
    decreases genres.len(),
{
    if genres.len() > 0 {
        lemma_merge_genres_extends(m, genres.drop_last());
        let before = merge_genres(m, genres.drop_last());
        if before.1 is None {
            lemma_merge_aliases_extends(before.0, genres.last().name, genres.last().aliases);
            let after = merge_genres(m, genres);
            vstd::map_lib::lemma_submap_of_trans(m, before.0, after.0);
        }
    }
}

/// A well-formed taxonomy stays well formed when its lookup only gains
/// entries.
proof fn lemma_wf_extends(t: TaxonomyView, lookup: Map<Seq<char>, Seq<char>>)
    requires
        t.wf(),
        t.lookup.submap_of(lookup),
    ensures
        (TaxonomyView {
            lookup,
            canonical_names: t.canonical_names,
            user_added: t.user_added,
            loaded: t.loaded,
            only_aliases_added: false,
        }).wf(),
{
    let t2 = TaxonomyView {
        lookup,
        canonical_names: t.canonical_names,
        user_added: t.user_added,
        loaded: t.loaded,
        only_aliases_added: false,
    };
    assert forall|i: int| 0 <= i < t2.canonical_names.len() implies {
        &&& t2.lookup.contains_key(normalized(#[trigger] t2.canonical_names[i]))
        &&& t2.lookup[normalized(t2.canonical_names[i])] == t2.canonical_names[i]
    } by {
        let key = normalized(t.canonical_names[i]);
        assert(t.lookup.dom().contains(key));
        assert(lookup.dom().contains(key));
    }
    assert forall|i: int| 0 <= i < t2.user_added.len() implies {
        &&& t2.lookup.contains_key(normalized((#[trigger] t2.user_added[i]).0))
        &&& t2.lookup[normalized(t2.user_added[i].0)] == t2.user_added[i].1
        &&& t2.canonical_names.contains(t2.user_added[i].1)
    } by {
        let key = normalized(t.user_added[i].0);
        assert(t.lookup.dom().contains(key));
        assert(lookup.dom().contains(key));
    }
}

/// Whether `names` holds `name`.
fn contains_name(names: &Vec<String>, name: &String) -> (r: bool)
    ensures
        r == names.deep_view().contains(name@),
{
    let mut i: usize = 0;
    while i < names.len()
        invariant
            i <= names@.len(),
            forall|k: int| 0 <= k < i ==> names.deep_view()[k] != name@,
        decreases names@.len() - i,
    {
        if names[i] == *name {
            assert(names.deep_view()[i as int] == name@);
            return true;
        }
        i = i + 1;
    }
    proof {
        if names.deep_view().contains(name@) {
            let k = choose|k: int| 0 <= k < names.deep_view().len() && names.deep_view()[k] == name@;
            assert(names.deep_view()[k] != name@);
        }
    }
    false
}

impl Taxonomy {
    /// Well-formedness of the taxonomy (see [`TaxonomyView::wf`]).
    pub open spec fn wf(&self) -> bool {
        self@.wf()
    }

    /// Every taxonomy is well formed, and its user aliases are fresh.
    #[verifier::type_invariant]
    spec fn well_formed(self) -> bool {
        self@.wf() && self@.user_aliases_fresh()
    }

    /// Classifies a genre tag against this taxonomy.
    pub fn classify(&self, genre: &str) -> (r: Classification)
        ensures
            r@ == classify_view(self@.lookup, genre@),
            genre@.len() > 0 && all_ascii(genre@) ==> normalized(genre@) == ascii_key(genre@),
    {
        classify(genre, &self.lookup)
    }

    /// The lookup from normalised keys to canonical names.
    pub fn lookup(&self) -> (r: &StringHashMap<String>)
        ensures
            table_view(r) == self@.lookup,
    {
        &self.lookup
    }

    /// The canonical genre names, in the order of the taxonomy file.
    pub fn canonical_names(&self) -> (r: &[String])
        ensures
            r.deep_view() == self@.canonical_names,
    {
        self.canonical_names.as_slice()
    }

    /// The aliases added by the user, as (alias, canonical) pairs, oldest first.
    pub fn user_added_aliases(&self) -> (r: &[(String, String)])
        ensures
            r.deep_view() == self@.user_added,
    {
        self.user_added.as_slice()
    }

    /// A taxonomy with no genres.
    fn empty() -> (r: Taxonomy)
        ensures
            r@.lookup == Map::<Seq<char>, Seq<char>>::empty(),
            r@.canonical_names == Seq::<Seq<char>>::empty(),
            r@.user_added == Seq::<(Seq<char>, Seq<char>)>::empty(),
    {
        let lookup: StringHashMap<String> = StringHashMap::new();
        let canonical_names: Vec<String> = Vec::new();
        let user_added: Vec<(String, String)> = Vec::new();
        let ghost none = Map::<Seq<char>, Seq<char>>::empty();
        assert(table_view(&lookup) =~= none);
        assert(canonical_names.deep_view() =~= Seq::<Seq<char>>::empty());
        assert(user_added.deep_view() =~= Seq::<(Seq<char>, Seq<char>)>::empty());
        assert(none.submap_of(none));
        assert(with_pairs(none, user_added.deep_view()) == none);
        let r = Taxonomy { lookup, canonical_names, user_added, loaded: Ghost(none), only_aliases_added: Ghost(true) };
        r
    }

    /// Maps a new alias onto a canonical genre. The genre must be canonical;
    /// an alias that already maps to another genre is refused; one that
    /// already maps to this genre is accepted without change.
    pub fn add_alias(&mut self, alias: &str, canonical: &str) -> (r: Result<(), TaxonomyError>)
        ensures
            final(self)@.wf(),
            final(self)@.user_aliases_fresh(),
            match with_alias(old(self)@, alias@, canonical@) {
                Ok(t) => r is Ok && final(self)@ == t,
                Err(e) => r matches Err(x) && x@ == e && final(self)@ == old(self)@,
            },
    {
        proof {
            use_type_invariant(&*self);
        }
        let target = canonical.to_owned();
        if !contains_name(&self.canonical_names, &target) {
            return Err(TaxonomyError::NotCanonical { canonical: target });
        }
        let key = normalize(alias);
        match self.lookup.get(key.as_str()) {
            Some(existing) => {
                if !(*existing == target) {
                    return Err(
                        TaxonomyError::AliasConflict {
                            alias: alias.to_owned(),
                            existing: existing.clone(),
                            canonical: target,
                        },
                    );
                }
                return Ok(());
            },
            None => {},
        }
        let ghost before = self@;
        let mut taken = Taxonomy::empty();
        std::mem::swap(self, &mut taken);
        let Taxonomy { mut lookup, canonical_names, mut user_added, loaded, only_aliases_added } = taken;
        proof {
            lemma_table_insert(lookup@, key@, target);
        }
        lookup.insert(key, target.clone());
        let ghost user_before = user_added.deep_view();
        user_added.push((alias.to_owned(), target));
        proof {
            assert(user_added.deep_view() =~= user_before.push((alias@, canonical@)));
            lemma_alias_preserves_wf(before, alias@, canonical@);
            lemma_alias_keeps_history(before, alias@, canonical@);
        }
        let updated = Taxonomy { lookup, canonical_names, user_added, loaded, only_aliases_added };
        assert(updated@ == with_alias(before, alias@, canonical@)->Ok_0);
        *self = updated;
        Ok(())
    }

    /// Merges the aliases of a user's taxonomy document into the lookup, in
    /// document order. An alias that maps to another genre than the one the
    /// lookup already has stops the merge with an error; the aliases merged
    /// before it stay.
    pub fn merge_user_overrides(&mut self, file: &TaxonomyFile) -> (r: Result<(), TaxonomyError>)
        ensures
            final(self)@.wf(),
            final(self)@.user_aliases_fresh(),
            final(self)@.lookup == merge_genres(old(self)@.lookup, file@.canonical_genres).0,
            final(self)@.canonical_names == old(self)@.canonical_names,
            final(self)@.user_added == old(self)@.user_added,
            final(self)@.loaded == old(self)@.loaded,
            !final(self)@.only_aliases_added,
            match merge_genres(old(self)@.lookup, file@.canonical_genres).1 {
                None => r is Ok,
                Some(e) => r matches Err(x) && x@ == e,
            },
    {
        proof {
            use_type_invariant(&*self);
        }
        let ghost start = self@;
        let ghost m0 = self@.lookup;
        let genres = &file.canonical_genres;
        let ghost gs = file@.canonical_genres;
        proof {
            lemma_merge_genres_extends(m0, gs);
            lemma_wf_extends(start, merge_genres(m0, gs).0);
            lemma_merge_keeps_history(start, gs);
        }
        let mut taken = Taxonomy::empty();
        std::mem::swap(self, &mut taken);
        let Taxonomy { mut lookup, canonical_names, user_added, loaded, only_aliases_added: _ } = taken;
        let mut i: usize = 0;
        assert(gs.take(0) =~= Seq::<CanonicalGenreView>::empty());
        while i < genres.len()
            invariant
                gs == file@.canonical_genres,
                genres == &file.canonical_genres,
                genres@.len() == gs.len(),
                i <= gs.len(),
                m0 == start.lookup,
                start == old(self)@,
                start.wf(),
                start.user_aliases_fresh(),
                loaded@ == start.loaded,
                canonical_names.deep_view() == start.canonical_names,
                user_added.deep_view() == start.user_added,
                merge_genres(m0, gs.take(i as int)) == (table_view(&lookup), None::<TaxonomyErrorView>),
            decreases gs.len() - i,
        {
            let genre = &genres[i];
            assert(gs[i as int] == genre@);
            assert(gs.take(i + 1).drop_last() =~= gs.take(i as int));
            assert(gs.take(i + 1).last() == genre@);
            let ghost mi = table_view(&lookup);
            let aliases = &genre.aliases;
            let ghost als = genre@.aliases;
            let mut j: usize = 0;
            assert(als.take(0) =~= Seq::<Seq<char>>::empty());
            while j < aliases.len()
                invariant
                    gs == file@.canonical_genres,
                    genres == &file.canonical_genres,
                    genres@.len() == gs.len(),
                    i < gs.len(),
                    genre == &genres[i as int],
                    gs[i as int] == genre@,
                    aliases == &genre.aliases,
                    als == genre@.aliases,
                    aliases@.len() == als.len(),
                    j <= als.len(),
                    m0 == start.lookup,
                    start == old(self)@,
                    start.wf(),
                    start.user_aliases_fresh(),
                    loaded@ == start.loaded,
                    canonical_names.deep_view() == start.canonical_names,
                    user_added.deep_view() == start.user_added,
                    merge_genres(m0, gs.take(i as int)) == (mi, None::<TaxonomyErrorView>),
                    gs.take(i + 1).drop_last() == gs.take(i as int),
                    gs.take(i + 1).last() == genre@,
                    merge_aliases(mi, genre@.name, als.take(j as int)) == (table_view(&lookup), None::<TaxonomyErrorView>),
                decreases als.len() - j,
            {
                let alias = &aliases[j];
                assert(als[j as int] == alias@);
                assert(als.take(j + 1).drop_last() =~= als.take(j as int));
                assert(als.take(j + 1).last() == alias@);
                let key = normalize(alias.as_str());
                match lookup.get(key.as_str()) {
                    Some(existing) => {
                        if !(*existing == genre.name) {
                            let e = TaxonomyError::UserConflict {
                                alias: alias.clone(),
                                existing: existing.clone(),
                                canonical: genre.name.clone(),
                            };
                            proof {
                                assert(merge_aliases(mi, genre@.name, als.take(j + 1)) == (
                                    table_view(&lookup),
                                    Some(e@),
                                ));
                                lemma_merge_aliases_error_persists(mi, genre@.name, als, j + 1);
                                assert(merge_genres(m0, gs.take(i + 1)) == merge_aliases(mi, genre@.name, als));
                                lemma_merge_genres_error_persists(m0, gs, i + 1);
                                lemma_merge_genres_extends(m0, gs);
                                lemma_wf_extends(start, merge_genres(m0, gs).0);
                                lemma_merge_keeps_history(start, gs);
                            }
                            let restored = Taxonomy {
                                lookup,
                                canonical_names,
                                user_added,
                                loaded,
                                only_aliases_added: Ghost(false),
                            };
                            assert(restored@ == (TaxonomyView {
                                lookup: merge_genres(m0, gs).0,
                                canonical_names: start.canonical_names,
                                user_added: start.user_added,
                                loaded: start.loaded,
                                only_aliases_added: false,
                            }));
                            *self = restored;
                            return Err(e);
                        }
                    },
                    None => {},
                }
                proof {
                    lemma_table_insert(lookup@, key@, genre.name);
                }
                lookup.insert(key, genre.name.clone());
                j = j + 1;
            }
            assert(als.take(als.len() as int) =~= als);
            i = i + 1;
        }
        assert(gs.take(gs.len() as int) =~= gs);
        let merged = Taxonomy {
            lookup,
            canonical_names,
            user_added,
            loaded,
            only_aliases_added: Ghost(false),
        };
        assert(merged@ == (TaxonomyView {
            lookup: merge_genres(m0, gs).0,
            canonical_names: start.canonical_names,
            user_added: start.user_added,
            loaded: start.loaded,
            only_aliases_added: false,
        }));
        *self = merged;
        Ok(())
    }
}

} // verus!
