//! The user's own aliases: grouping them into a taxonomy document, merging
//! them with an earlier user document, and finding the one for a genre.

use vstd::prelude::*;
use crate::taxonomy::{CanonicalGenre, CanonicalGenreView, TaxonomyError, TaxonomyFile};

verus! {

/// An (alias, canonical) pair, as character sequences.
pub type PairView = (Seq<char>, Seq<char>);

/// Whether some genre of `genres` is called `name`.
pub open spec fn has_genre(genres: Seq<CanonicalGenreView>, name: Seq<char>) -> bool {
    exists|i: int| 0 <= i < genres.len() && genres[i].name == name
}

/// The genre of `genres` called `name`, where there is one.
pub open spec fn genre_index(genres: Seq<CanonicalGenreView>, name: Seq<char>) -> int {
    choose|i: int| 0 <= i < genres.len() && genres[i].name == name
}

/// The genres after `alias` is listed under `canonical`: appended to that
/// genre's aliases, or as a new genre at the end.
pub open spec fn list_alias(genres: Seq<CanonicalGenreView>, alias: Seq<char>, canonical: Seq<char>) -> Seq<
    CanonicalGenreView,
> {
    if has_genre(genres, canonical) {
        let i = genre_index(genres, canonical);
        genres.update(i, CanonicalGenreView { name: canonical, aliases: genres[i].aliases.push(alias) })
    } else {
        genres.push(CanonicalGenreView { name: canonical, aliases: seq![alias] })
    }
}

/// The pairs grouped by canonical genre: genres in order of first
/// appearance, each with its aliases in order.
pub open spec fn grouped(pairs: Seq<PairView>) -> Seq<CanonicalGenreView>
    decreases pairs.len(),
{
    if pairs.len() == 0 {
        Seq::empty()
    } else {
        list_alias(grouped(pairs.drop_last()), pairs.last().0, pairs.last().1)
    }
}

/// The position of the genre called `name`, if any.
fn find_genre(genres: &Vec<CanonicalGenre>, name: &String) -> (r: Option<usize>)
    ensures
        match r {
            Some(i) => i < genres@.len() && genres@[i as int].name@ == name@,
            None => forall|k: int| 0 <= k < genres@.len() ==> genres@[k].name@ != name@,
        },
{
    let mut i: usize = 0;
    while i < genres.len()
        invariant
            i <= genres@.len(),
            forall|k: int| 0 <= k < i ==> genres@[k].name@ != name@,
        decreases genres@.len() - i,
    {
        if genres[i].name == *name {
            return Some(i);
        }
        i = i + 1;
    }
    None
}

/// Groups the user's (alias, canonical) pairs into a taxonomy document of
/// version 1: one genre per canonical name, in order of first appearance,
/// each listing its aliases in order.
pub fn group_user_aliases(aliases: &[(String, String)]) -> (r: TaxonomyFile)
    ensures
        r@.version == 1,
        r@.canonical_genres == grouped(aliases.deep_view()),
        r@.ignored == Seq::<Seq<char>>::empty(),
{
    let ghost pairs = aliases.deep_view();
    let mut genres: Vec<CanonicalGenre> = Vec::new();
    let mut n: usize = 0;
    assert(pairs.take(0) =~= Seq::<PairView>::empty());
    while n < aliases.len()
        invariant
            pairs == aliases.deep_view(),
            n <= pairs.len(),
            genres@.map_values(|g: CanonicalGenre| g@) =~~= grouped(pairs.take(n as int)),
            forall|a: int, b: int|
                0 <= a < b < genres@.len() ==> #[trigger] genres@[a].name@ != #[trigger] genres@[b].name@,
        decreases pairs.len() - n,
    {
        let alias = &aliases[n].0;
        let canonical = &aliases[n].1;
        assert(pairs.take(n + 1).drop_last() =~= pairs.take(n as int));
        assert(pairs.take(n + 1).last() == (alias@, canonical@));
        let ghost gv = genres@.map_values(|g: CanonicalGenre| g@);
        match find_genre(&genres, canonical) {
            Some(i) => {
                assert(gv[i as int].name == canonical@);
                assert(has_genre(gv, canonical@));
                let ghost k = genre_index(gv, canonical@);
                assert(k == i) by {
                    if k != i {
                        if k < i {
                            assert(genres@[k].name@ != genres@[i as int].name@);
                        } else {
                            assert(genres@[i as int].name@ != genres@[k].name@);
                        }
                    }
                }
                let ghost aliases_before = genres@[i as int].aliases.deep_view();
                let mut entry = genres.remove(i);
                entry.aliases.push(alias.clone());
                assert(entry.aliases.deep_view() =~= aliases_before.push(alias@));
                genres.insert(i, entry);
                assert(genres@.map_values(|g: CanonicalGenre| g@) =~~= list_alias(gv, alias@, canonical@));
            },
            None => {
                assert(!has_genre(gv, canonical@));
                let mut listed: Vec<String> = Vec::new();
                listed.push(alias.clone());
                genres.push(CanonicalGenre { name: canonical.clone(), aliases: listed });
                assert(genres@.map_values(|g: CanonicalGenre| g@) =~~= list_alias(gv, alias@, canonical@));
            },
        }
        n = n + 1;
    }
    assert(pairs.take(pairs.len() as int) =~= pairs);
    let file = TaxonomyFile { version: 1, canonical_genres: genres, ignored: Vec::new() };
    assert(file@.ignored =~= Seq::<Seq<char>>::empty());
    file
}


/// Whether some pair lists `alias`.
pub open spec fn alias_listed(pairs: Seq<PairView>, alias: Seq<char>) -> bool {
    exists|i: int| 0 <= i < pairs.len() && pairs[i].0 == alias
}

/// Appends each alias of genre `name` that is not listed yet.
pub open spec fn keep_new_aliases(pairs: Seq<PairView>, name: Seq<char>, aliases: Seq<Seq<char>>) -> Seq<PairView>
    decreases aliases.len(),
{
    if aliases.len() == 0 {
        pairs
    } else {
        let before = keep_new_aliases(pairs, name, aliases.drop_last());
        if alias_listed(before, aliases.last()) {
            before
        } else {
            before.push((aliases.last(), name))
        }
    }
}

/// The pairs followed by the aliases of an earlier document that they do not
/// list yet, in document order.
pub open spec fn with_earlier(pairs: Seq<PairView>, genres: Seq<CanonicalGenreView>) -> Seq<PairView>
    decreases genres.len(),
{
    if genres.len() == 0 {
        pairs
    } else {
        keep_new_aliases(with_earlier(pairs, genres.drop_last()), genres.last().name, genres.last().aliases)
    }
}

/// Whether `pairs` lists `alias`.
fn lists_alias(pairs: &Vec<(String, String)>, alias: &String) -> (r: bool)
    ensures
        r == alias_listed(pairs.deep_view(), alias@),
{
    let mut i: usize = 0;
    while i < pairs.len()
        invariant
            i <= pairs@.len(),
            forall|k: int| 0 <= k < i ==> pairs.deep_view()[k].0 != alias@,
        decreases pairs@.len() - i,
    {
        if pairs[i].0 == *alias {
            assert(pairs.deep_view()[i as int].0 == alias@);
            return true;
        }
        i = i + 1;
    }
    false
}

/// Merges the newly added (alias, canonical) pairs with an earlier user
/// document: the new pairs first, then every alias of the earlier document
/// that is not listed yet, with its genre.
pub fn merge_alias_lists(added: &[(String, String)], earlier: &TaxonomyFile) -> (r: Vec<(String, String)>)
    ensures
        r.deep_view() == with_earlier(added.deep_view(), earlier@.canonical_genres),
{
    let mut merged: Vec<(String, String)> = Vec::new();
    let mut n: usize = 0;
    while n < added.len()
        invariant
            n <= added@.len(),
            merged.deep_view() == added.deep_view().take(n as int),
        decreases added@.len() - n,
    {
        let ghost before = merged.deep_view();
        merged.push((added[n].0.clone(), added[n].1.clone()));
        assert(merged.deep_view() =~= added.deep_view().take(n + 1)) by {
            assert(merged.deep_view() =~= before.push(added.deep_view()[n as int]));
        }
        n = n + 1;
    }
    assert(added.deep_view().take(added@.len() as int) =~= added.deep_view());
    let genres = &earlier.canonical_genres;
    let ghost gs = earlier@.canonical_genres;
    let ghost start = added.deep_view();
    let mut i: usize = 0;
    assert(gs.take(0) =~= Seq::<CanonicalGenreView>::empty());
    while i < genres.len()
        invariant
            gs == earlier@.canonical_genres,
            genres == &earlier.canonical_genres,
            genres@.len() == gs.len(),
            start == added.deep_view(),
            i <= gs.len(),
            merged.deep_view() == with_earlier(start, gs.take(i as int)),
        decreases gs.len() - i,
    {
        let genre = &genres[i];
        assert(gs[i as int] == genre@);
        assert(gs.take(i + 1).drop_last() =~= gs.take(i as int));
        let ghost base = merged.deep_view();
        let aliases = &genre.aliases;
        let ghost als = genre@.aliases;
        let mut j: usize = 0;
        assert(als.take(0) =~= Seq::<Seq<char>>::empty());
        while j < aliases.len()
            invariant
                aliases == &genre.aliases,
                als == genre@.aliases,
                aliases@.len() == als.len(),
                j <= als.len(),
                merged.deep_view() == keep_new_aliases(base, genre@.name, als.take(j as int)),
            decreases als.len() - j,
        {
            let alias = &aliases[j];
            assert(als[j as int] == alias@);
            assert(als.take(j + 1).drop_last() =~= als.take(j as int));
            if !lists_alias(&merged, alias) {
                let ghost before = merged.deep_view();
                merged.push((alias.clone(), genre.name.clone()));
                assert(merged.deep_view() =~= before.push((alias@, genre@.name)));
            }
            j = j + 1;
        }
        assert(als.take(als.len() as int) =~= als);
        i = i + 1;
    }
    assert(gs.take(gs.len() as int) =~= gs);
    merged
}

/// Keeping new aliases appends only pairs of a given alias with `name`.
proof fn lemma_keep_new_aliases_sound(pairs: Seq<PairView>, name: Seq<char>, aliases: Seq<Seq<char>>)
    ensures
        forall|x: int|
            pairs.len() <= x < keep_new_aliases(pairs, name, aliases).len() ==> exists|j: int|
                0 <= j < aliases.len() && #[trigger] keep_new_aliases(pairs, name, aliases)[x] == (
                #[trigger] aliases[j], name),
    decreases aliases.len(),
{
    lemma_keep_new_aliases_extends(pairs, name, aliases);
    if aliases.len() > 0 {
        let prefix = aliases.drop_last();
        lemma_keep_new_aliases_sound(pairs, name, prefix);
        lemma_keep_new_aliases_extends(pairs, name, prefix);
        let before = keep_new_aliases(pairs, name, prefix);
        let after = keep_new_aliases(pairs, name, aliases);
        assert forall|x: int| pairs.len() <= x < after.len() implies exists|j: int|
            0 <= j < aliases.len() && #[trigger] after[x] == (#[trigger] aliases[j], name) by {
            if x < before.len() {
                assert(after.subrange(0, before.len() as int) =~= before) by {
                    if alias_listed(before, aliases.last()) {
                    } else {
                        assert(after == before.push((aliases.last(), name)));
                    }
                }
                assert(after[x] == after.subrange(0, before.len() as int)[x]);
                let j = choose|j: int| 0 <= j < prefix.len() && #[trigger] before[x] == (#[trigger] prefix[j], name);
                assert(aliases[j] == prefix[j]);
            } else {
                assert(after[x] == (aliases[aliases.len() - 1], name));
            }
        }
    }
}

/// Keeping new aliases lists the first of equal aliases with `name` when no
/// pair lists it yet.
proof fn lemma_keep_new_aliases_first(pairs: Seq<PairView>, name: Seq<char>, aliases: Seq<Seq<char>>, j: int)
    requires
        0 <= j < aliases.len(),
        !alias_listed(pairs, aliases[j]),
        forall|j2: int| 0 <= j2 < j ==> #[trigger] aliases[j2] != aliases[j],
    ensures
        keep_new_aliases(pairs, name, aliases).contains((aliases[j], name)),
    decreases aliases.len(),
{
    let prefix = aliases.drop_last();
    let before = keep_new_aliases(pairs, name, prefix);
    let after = keep_new_aliases(pairs, name, aliases);
    lemma_keep_new_aliases_extends(pairs, name, prefix);
    if j < aliases.len() - 1 {
        assert(prefix[j] == aliases[j]);
        assert forall|j2: int| 0 <= j2 < j implies #[trigger] prefix[j2] != prefix[j] by {
            assert(prefix[j2] == aliases[j2]);
        }
        lemma_keep_new_aliases_first(pairs, name, prefix, j);
        let w = choose|w: int| 0 <= w < before.len() && before[w] == (aliases[j], name);
        if alias_listed(before, aliases.last()) {
            assert(after[w] == before[w]);
        } else {
            assert(after == before.push((aliases.last(), name)));
            assert(after[w] == before[w]);
        }
    } else {
        lemma_keep_new_aliases_sound(pairs, name, prefix);
        assert(!alias_listed(before, aliases[j])) by {
            if alias_listed(before, aliases[j]) {
                let w = choose|w: int| 0 <= w < before.len() && before[w].0 == aliases[j];
                if w < pairs.len() {
                    assert(before.subrange(0, pairs.len() as int)[w] == pairs[w]);
                } else {
                    let j2 = choose|j2: int| 0 <= j2 < prefix.len() && #[trigger] before[w] == (#[trigger] prefix[j2], name);
                    assert(prefix[j2] == aliases[j2]);
                }
            }
        }
        assert(aliases.last() == aliases[j]);
        assert(after == before.push((aliases[j], name)));
        assert(after[before.len() as int] == (aliases[j], name));
    }
}

/// Law: merging with an earlier document appends, after the new pairs, only
/// aliases of the earlier document, each with the genre that lists it there.
pub proof fn lemma_with_earlier_pairs_from_document(pairs: Seq<PairView>, genres: Seq<CanonicalGenreView>)
    ensures
        forall|x: int|
            pairs.len() <= x < with_earlier(pairs, genres).len() ==> exists|i: int, j: int|
                0 <= i < genres.len() && 0 <= j < genres[i].aliases.len() && #[trigger] with_earlier(pairs, genres)[x]
                    == (#[trigger] genres[i].aliases[j], genres[i].name),
    decreases genres.len(),
{
    if genres.len() > 0 {
        let prefix = genres.drop_last();
        lemma_with_earlier_pairs_from_document(pairs, prefix);
        lemma_with_earlier_keeps_and_lists(pairs, prefix);
        let base = with_earlier(pairs, prefix);
        let g = genres.last();
        let last = genres.len() - 1;
        lemma_keep_new_aliases_sound(base, g.name, g.aliases);
        lemma_keep_new_aliases_extends(base, g.name, g.aliases);
        let all = with_earlier(pairs, genres);
        assert forall|x: int| pairs.len() <= x < all.len() implies exists|i: int, j: int|
            0 <= i < genres.len() && 0 <= j < genres[i].aliases.len() && #[trigger] all[x] == (
            #[trigger] genres[i].aliases[j], genres[i].name) by {
            if x < base.len() {
                assert(all[x] == all.subrange(0, base.len() as int)[x]);
                let (i, j) = choose|i: int, j: int|
                    0 <= i < prefix.len() && 0 <= j < prefix[i].aliases.len() && #[trigger] base[x] == (
                    #[trigger] prefix[i].aliases[j], prefix[i].name);
                assert(prefix[i] == genres[i]);
                assert(all[x] == (genres[i].aliases[j], genres[i].name));
            } else {
                let j = choose|j: int| 0 <= j < g.aliases.len() && #[trigger] all[x] == (#[trigger] g.aliases[j], g.name);
                assert(genres[last] == g);
                assert(all[x] == (genres[last].aliases[j], genres[last].name));
            }
        }
    }
}

/// Law: an alias of the earlier document that the new pairs do not list is
/// kept with the genre that lists it first in the document.
pub proof fn lemma_with_earlier_keeps_first_genre(
    pairs: Seq<PairView>,
    genres: Seq<CanonicalGenreView>,
    i: int,
    j: int,
)
    requires
        0 <= i < genres.len(),
        0 <= j < genres[i].aliases.len(),
        !alias_listed(pairs, genres[i].aliases[j]),
        forall|i2: int, j2: int|
            0 <= i2 < i && 0 <= j2 < genres[i2].aliases.len() ==> #[trigger] genres[i2].aliases[j2]
                != genres[i].aliases[j],
        forall|j2: int| 0 <= j2 < j ==> #[trigger] genres[i].aliases[j2] != genres[i].aliases[j],
    ensures
        with_earlier(pairs, genres).contains((genres[i].aliases[j], genres[i].name)),
    decreases genres.len(),
{
    let prefix = genres.drop_last();
    let base = with_earlier(pairs, prefix);
    let g = genres.last();
    let a = genres[i].aliases[j];
    lemma_keep_new_aliases_extends(base, g.name, g.aliases);
    let all = with_earlier(pairs, genres);
    if i < genres.len() - 1 {
        assert(prefix[i] == genres[i]);
        assert forall|i2: int, j2: int| 0 <= i2 < i && 0 <= j2 < prefix[i2].aliases.len() implies #[trigger] prefix[i2].aliases[j2]
            != prefix[i].aliases[j] by {
            assert(prefix[i2] == genres[i2]);
        }
        lemma_with_earlier_keeps_first_genre(pairs, prefix, i, j);
        let w = choose|w: int| 0 <= w < base.len() && base[w] == (a, genres[i].name);
        assert(all[w] == all.subrange(0, base.len() as int)[w]);
    } else {
        assert(g == genres[i]);
        lemma_with_earlier_pairs_from_document(pairs, prefix);
        lemma_with_earlier_keeps_and_lists(pairs, prefix);
        assert(!alias_listed(base, a)) by {
            if alias_listed(base, a) {
                let w = choose|w: int| 0 <= w < base.len() && base[w].0 == a;
                if w < pairs.len() {
                    assert(base.subrange(0, pairs.len() as int)[w] == pairs[w]);
                } else {
                    let (i2, j2) = choose|i2: int, j2: int|
                        0 <= i2 < prefix.len() && 0 <= j2 < prefix[i2].aliases.len() && #[trigger] base[w] == (
                        #[trigger] prefix[i2].aliases[j2], prefix[i2].name);
                    assert(prefix[i2] == genres[i2]);
                    assert(genres[i2].aliases[j2] != a);
                }
            }
        }
        assert forall|j2: int| 0 <= j2 < j implies #[trigger] g.aliases[j2] != g.aliases[j] by {
            assert(genres[i].aliases[j2] != genres[i].aliases[j]);
        }
        lemma_keep_new_aliases_first(base, g.name, g.aliases, j);
    }
}

/// Keeping new aliases appends only aliases that nothing before lists.
proof fn lemma_keep_new_aliases_fresh(pairs: Seq<PairView>, name: Seq<char>, aliases: Seq<Seq<char>>)
    ensures
        forall|x: int, y: int|
            0 <= y < x && pairs.len() <= x < keep_new_aliases(pairs, name, aliases).len() ==> (
            #[trigger] keep_new_aliases(pairs, name, aliases)[y]).0 != (#[trigger] keep_new_aliases(
                pairs,
                name,
                aliases,
            )[x]).0,
    decreases aliases.len(),
{
    if aliases.len() > 0 {
        let prefix = aliases.drop_last();
        lemma_keep_new_aliases_fresh(pairs, name, prefix);
        let before = keep_new_aliases(pairs, name, prefix);
        let after = keep_new_aliases(pairs, name, aliases);
        if !alias_listed(before, aliases.last()) {
            assert(after == before.push((aliases.last(), name)));
            assert forall|x: int, y: int| 0 <= y < x && pairs.len() <= x < after.len() implies (
            #[trigger] after[y]).0 != (#[trigger] after[x]).0 by {
                assert(after[y] == before[y]);
                if x < before.len() {
                    assert(after[x] == before[x]);
                }
            }
        }
    }
}

/// Law: merging with an earlier document appends each alias at most once,
/// and only aliases that neither the new pairs nor an earlier appended pair
/// list.
pub proof fn lemma_with_earlier_appends_unlisted(pairs: Seq<PairView>, genres: Seq<CanonicalGenreView>)
    ensures
        forall|x: int, y: int|
            0 <= y < x && pairs.len() <= x < with_earlier(pairs, genres).len() ==> (
            #[trigger] with_earlier(pairs, genres)[y]).0 != (#[trigger] with_earlier(pairs, genres)[x]).0,
    decreases genres.len(),
{
    if genres.len() > 0 {
        let prefix = genres.drop_last();
        lemma_with_earlier_appends_unlisted(pairs, prefix);
        lemma_with_earlier_keeps_and_lists(pairs, prefix);
        let base = with_earlier(pairs, prefix);
        let g = genres.last();
        lemma_keep_new_aliases_fresh(base, g.name, g.aliases);
        lemma_keep_new_aliases_extends(base, g.name, g.aliases);
        let all = with_earlier(pairs, genres);
        assert forall|x: int, y: int| 0 <= y < x && pairs.len() <= x < all.len() implies (#[trigger] all[y]).0 != (
        #[trigger] all[x]).0 by {
            if x < base.len() {
                assert(all[x] == all.subrange(0, base.len() as int)[x]);
                assert(all[y] == all.subrange(0, base.len() as int)[y]);
                assert(base[y].0 != base[x].0);
            }
        }
    }
}

/// Records an answered prompt: the pair (`genre`, `canonical`) is appended
/// to `resolved` exactly when adding the alias succeeded.
pub fn record_resolution(
    resolved: &mut Vec<(String, String)>,
    genre: &str,
    canonical: &str,
    outcome: &Result<(), TaxonomyError>,
)
    ensures
        outcome is Ok ==> final(resolved).deep_view() == old(resolved).deep_view().push((genre@, canonical@)),
        outcome is Err ==> final(resolved).deep_view() == old(resolved).deep_view(),
{
    if outcome.is_ok() {
        let ghost before = resolved.deep_view();
        resolved.push((genre.to_owned(), canonical.to_owned()));
        assert(resolved.deep_view() =~= before.push((genre@, canonical@)));
    }
}

/// The canonical genre of the first pair that lists `alias`.
pub open spec fn first_target(pairs: Seq<PairView>, alias: Seq<char>) -> Option<Seq<char>>
    decreases pairs.len(),
{
    if pairs.len() == 0 {
        None
    } else if pairs[0].0 == alias {
        Some(pairs[0].1)
    } else {
        first_target(pairs.drop_first(), alias)
    }
}

/// The canonical genre that the first resolved pair for `genre` names.
pub fn resolved_canonical(resolved: &[(String, String)], genre: &String) -> (r: Option<String>)
    ensures
        match r {
            Some(c) => first_target(resolved.deep_view(), genre@) == Some(c@),
            None => first_target(resolved.deep_view(), genre@) is None,
        },
{
    let ghost pairs = resolved.deep_view();
    let mut i: usize = 0;
    assert(pairs.skip(0) =~= pairs);
    while i < resolved.len()
        invariant
            pairs == resolved.deep_view(),
            i <= pairs.len(),
            first_target(pairs, genre@) == first_target(pairs.skip(i as int), genre@),
        decreases pairs.len() - i,
    {
        assert(pairs.skip(i as int)[0] == pairs[i as int]);
        if resolved[i].0 == *genre {
            return Some(resolved[i].1.clone());
        }
        assert(pairs.skip(i as int).drop_first() =~= pairs.skip(i + 1));
        i = i + 1;
    }
    assert(pairs.skip(i as int) =~= Seq::<PairView>::empty());
    None
}


/// Whether the genres of `genres` have pairwise different names.
pub open spec fn distinct_names(genres: Seq<CanonicalGenreView>) -> bool {
    forall|a: int, b: int| 0 <= a < b < genres.len() ==> #[trigger] genres[a].name != #[trigger] genres[b].name
}

/// With distinct names, the genre found for a name is the one that has it.
proof fn lemma_genre_index_unique(genres: Seq<CanonicalGenreView>, i: int)
    requires
        distinct_names(genres),
        0 <= i < genres.len(),
    ensures
        has_genre(genres, genres[i].name),
        genre_index(genres, genres[i].name) == i,
{
    let name = genres[i].name;
    assert(has_genre(genres, name));
    let k = genre_index(genres, name);
    if k < i {
        assert(genres[k].name != genres[i].name);
    } else if k > i {
        assert(genres[i].name != genres[k].name);
    }
}

/// Law: the grouped document has one genre per canonical name, and lists
/// every alias under its canonical genre.
pub proof fn lemma_grouped_lists_every_pair(pairs: Seq<PairView>)
    ensures
        distinct_names(grouped(pairs)),
        forall|k: int|
            0 <= k < pairs.len() ==> {
                &&& has_genre(grouped(pairs), (#[trigger] pairs[k]).1)
                &&& grouped(pairs)[genre_index(grouped(pairs), pairs[k].1)].aliases.contains(pairs[k].0)
            },
    decreases pairs.len(),
{
    if pairs.len() > 0 {
        let prefix = pairs.drop_last();
        lemma_grouped_lists_every_pair(prefix);
        let g1 = grouped(prefix);
        let g2 = grouped(pairs);
        let (alias, canonical) = pairs.last();
        assert(g2 == list_alias(g1, alias, canonical));
        let at = if has_genre(g1, canonical) {
            genre_index(g1, canonical)
        } else {
            g1.len() as int
        };
        assert(g2.len() >= g1.len());
        assert forall|a: int| 0 <= a < g2.len() implies (#[trigger] g2[a]).name == if a < g1.len() {
            g1[a].name
        } else {
            canonical
        } by {}
        assert(distinct_names(g2)) by {
            assert forall|a: int, b: int| 0 <= a < b < g2.len() implies #[trigger] g2[a].name
                != #[trigger] g2[b].name by {
                if b >= g1.len() {
                    assert(!has_genre(g1, canonical));
                    assert(g1[a].name != canonical);
                } else {
                    assert(g1[a].name != g1[b].name);
                }
            }
        }
        assert forall|a: int| 0 <= a < g1.len() implies (#[trigger] g2[a]).aliases.subrange(
            0,
            g1[a].aliases.len() as int,
        ) == g1[a].aliases by {
            if a == at {
                assert(g2[a].aliases =~= g1[a].aliases.push(alias));
                assert(g2[a].aliases.subrange(0, g1[a].aliases.len() as int) =~= g1[a].aliases);
            } else {
                assert(g2[a] == g1[a]);
                assert(g2[a].aliases.subrange(0, g1[a].aliases.len() as int) =~= g1[a].aliases);
            }
        }
        assert forall|k: int| 0 <= k < pairs.len() implies {
            &&& has_genre(g2, (#[trigger] pairs[k]).1)
            &&& g2[genre_index(g2, pairs[k].1)].aliases.contains(pairs[k].0)
        } by {
            if k < pairs.len() - 1 {
                assert(pairs[k] == prefix[k]);
                let i1 = genre_index(g1, prefix[k].1);
                assert(g1[i1].name == prefix[k].1);
                lemma_genre_index_unique(g2, i1);
                let w = choose|w: int| 0 <= w < g1[i1].aliases.len() && g1[i1].aliases[w] == prefix[k].0;
                assert(g2[i1].aliases.subrange(0, g1[i1].aliases.len() as int) == g1[i1].aliases);
                assert(g2[i1].aliases[w] == g1[i1].aliases[w]);
            } else {
                assert(pairs[k] == (alias, canonical));
                if has_genre(g1, canonical) {
                    assert(g1[at].name == canonical);
                    lemma_genre_index_unique(g2, at);
                    assert(g2[at].aliases == g1[at].aliases.push(alias));
                    assert(g2[at].aliases[g1[at].aliases.len() as int] == alias);
                } else {
                    lemma_genre_index_unique(g2, g1.len() as int);
                    assert(g2[g1.len() as int].aliases[0] == alias);
                }
            }
        }
    }
}

/// Law: merging keeps the new pairs first, unchanged, and lists every alias
/// of the earlier document.
pub proof fn lemma_with_earlier_keeps_and_lists(pairs: Seq<PairView>, genres: Seq<CanonicalGenreView>)
    ensures
        with_earlier(pairs, genres).len() >= pairs.len(),
        with_earlier(pairs, genres).subrange(0, pairs.len() as int) == pairs,
        forall|i: int, j: int|
            0 <= i < genres.len() && 0 <= j < genres[i].aliases.len() ==> alias_listed(
                with_earlier(pairs, genres),
                #[trigger] genres[i].aliases[j],
            ),
    decreases genres.len(),
{
    if genres.len() > 0 {
        let prefix = genres.drop_last();
        lemma_with_earlier_keeps_and_lists(pairs, prefix);
        let base = with_earlier(pairs, prefix);
        let g = genres.last();
        lemma_keep_new_aliases_extends(base, g.name, g.aliases);
        let all = with_earlier(pairs, genres);
        assert(all.subrange(0, pairs.len() as int) =~= pairs) by {
            assert forall|x: int| 0 <= x < pairs.len() implies all[x] == pairs[x] by {
                assert(all.subrange(0, base.len() as int)[x] == base[x]);
                assert(base.subrange(0, pairs.len() as int)[x] == pairs[x]);
            }
        }
        assert forall|i: int, j: int| 0 <= i < genres.len() && 0 <= j < genres[i].aliases.len() implies alias_listed(
            all,
            #[trigger] genres[i].aliases[j],
        ) by {
            if i < genres.len() - 1 {
                assert(genres[i] == prefix[i]);
                assert(alias_listed(base, prefix[i].aliases[j]));
                let w = choose|w: int| 0 <= w < base.len() && base[w].0 == prefix[i].aliases[j];
                assert(all.subrange(0, base.len() as int)[w] == base[w]);
                assert(all[w] == base[w]);
            } else {
                assert(genres[i] == g);
                assert(g.aliases[j] == genres[i].aliases[j]);
            }
        }
    }
}

/// Keeping new aliases only appends, and lists every alias given.
proof fn lemma_keep_new_aliases_extends(pairs: Seq<PairView>, name: Seq<char>, aliases: Seq<Seq<char>>)
    ensures
        keep_new_aliases(pairs, name, aliases).len() >= pairs.len(),
        keep_new_aliases(pairs, name, aliases).subrange(0, pairs.len() as int) == pairs,
        forall|j: int| 0 <= j < aliases.len() ==> alias_listed(keep_new_aliases(pairs, name, aliases), #[trigger] aliases[j]),
    decreases aliases.len(),
{
    if aliases.len() > 0 {
        let prefix = aliases.drop_last();
        lemma_keep_new_aliases_extends(pairs, name, prefix);
        let before = keep_new_aliases(pairs, name, prefix);
        let after = keep_new_aliases(pairs, name, aliases);
        assert(after.subrange(0, before.len() as int) =~= before);
        assert(after.subrange(0, pairs.len() as int) =~= pairs) by {
            assert forall|x: int| 0 <= x < pairs.len() implies after[x] == pairs[x] by {
                assert(after.subrange(0, before.len() as int)[x] == before[x]);
                assert(before.subrange(0, pairs.len() as int)[x] == pairs[x]);
            }
        }
        assert forall|j: int| 0 <= j < aliases.len() implies alias_listed(after, #[trigger] aliases[j]) by {
            if j < aliases.len() - 1 {
                assert(aliases[j] == prefix[j]);
                assert(alias_listed(before, prefix[j]));
                let w = choose|w: int| 0 <= w < before.len() && before[w].0 == prefix[j];
                assert(after.subrange(0, before.len() as int)[w] == before[w]);
                assert(after[w] == before[w]);
            } else if !alias_listed(before, aliases.last()) {
                assert(after[before.len() as int].0 == aliases[j]);
            } else {
                let w = choose|w: int| 0 <= w < before.len() && before[w].0 == aliases.last();
                assert(after[w] == before[w]);
            }
        }
    }
}


/// Law: every alias that the grouped document lists under a genre comes
/// from a pair of that alias and genre.
pub proof fn lemma_grouped_lists_only_pairs(pairs: Seq<PairView>)
    ensures
        forall|i: int, j: int|
            0 <= i < grouped(pairs).len() && 0 <= j < grouped(pairs)[i].aliases.len() ==> exists|x: int|
                0 <= x < pairs.len() && #[trigger] pairs[x] == (#[trigger] grouped(pairs)[i].aliases[j], grouped(
                    pairs,
                )[i].name),
    decreases pairs.len(),
{
    if pairs.len() > 0 {
        let prefix = pairs.drop_last();
        lemma_grouped_lists_only_pairs(prefix);
        let g1 = grouped(prefix);
        let g2 = grouped(pairs);
        let (alias, canonical) = pairs.last();
        assert(g2 == list_alias(g1, alias, canonical));
        let last = pairs.len() - 1;
        assert(pairs[last] == (alias, canonical));
        assert forall|i: int, j: int| 0 <= i < g2.len() && 0 <= j < g2[i].aliases.len() implies exists|x: int|
            0 <= x < pairs.len() && #[trigger] pairs[x] == (#[trigger] g2[i].aliases[j], g2[i].name) by {
            if has_genre(g1, canonical) {
                let at = genre_index(g1, canonical);
                if i == at && j == g1[at].aliases.len() {
                    assert(g2[i].aliases[j] == alias);
                    assert(pairs[last] == (g2[i].aliases[j], g2[i].name));
                } else {
                    if i == at {
                        assert(g2[i].aliases[j] == g1[i].aliases[j]);
                        assert(g2[i].name == g1[i].name);
                    } else {
                        assert(g2[i] == g1[i]);
                    }
                    let x = choose|x: int| 0 <= x < prefix.len() && #[trigger] prefix[x] == (g1[i].aliases[j], g1[i].name);
                    assert(pairs[x] == prefix[x]);
                }
            } else {
                if i == g1.len() {
                    assert(g2[i].aliases[j] == alias);
                    assert(pairs[last] == (g2[i].aliases[j], g2[i].name));
                } else {
                    assert(g2[i] == g1[i]);
                    let x = choose|x: int| 0 <= x < prefix.len() && #[trigger] prefix[x] == (g1[i].aliases[j], g1[i].name);
                    assert(pairs[x] == prefix[x]);
                }
            }
        }
    }
}

} // verus!
