//! Laws of the taxonomy, stated over the models that the operations'
//! contracts use.

use vstd::prelude::*;
use crate::suggest::{at_distance, first_n, ranked, ranked_below, scores_for, suggestions, ScoreView};
use crate::taxonomy::{
    add_aliases, add_genre, classify_view, key_conflict, lemma_file_entries_resolve, lemma_merge_genres_extends,
    lookup_of, merge_aliases, merge_genres, names_of, with_alias, fresh_pairs, with_pairs, CanonicalGenreView,
    ClassificationView, TaxonomyErrorView, TaxonomyView,
};
use crate::user::{
    alias_listed, first_target, genre_index, grouped, keep_new_aliases, lemma_grouped_lists_every_pair,
    lemma_grouped_lists_only_pairs, with_earlier, PairView,
};
use crate::scan::{mp3_name, recorded, ScanResultView};
use crate::prompt::{choice_of, parsed_usize, trimmed, ChoiceView};
use crate::suggest::damerau_levenshtein_distance;
use crate::builtin::default_genres;
use crate::text::{ascii_alnum, ascii_key, ascii_lower, keeps_ascii, lower_all, normalized};

verus! {

/// The canonical genre that a classification points to, if any.
pub open spec fn target_of(c: ClassificationView, genre: Seq<char>) -> Option<Seq<char>> {
    match c {
        ClassificationView::AlreadyCanonical => Some(genre),
        ClassificationView::Mapped(canonical) => Some(canonical),
        _ => None,
    }
}

/// Law: in a well-formed taxonomy every (non-empty) canonical name
/// classifies as already canonical.
pub proof fn lemma_canonical_names_are_canonical(t: TaxonomyView)
    requires
        t.wf(),
    ensures
        forall|i: int|
            0 <= i < t.canonical_names.len() && t.canonical_names[i].len() > 0 ==> classify_view(
                t.lookup,
                #[trigger] t.canonical_names[i],
            ) == ClassificationView::AlreadyCanonical,
{
}

/// Law: two non-empty tags with the same normal form point to the same
/// canonical genre, or are both unknown.
pub proof fn lemma_same_normal_form_same_target(lookup: Map<Seq<char>, Seq<char>>, a: Seq<char>, b: Seq<char>)
    requires
        a.len() > 0,
        b.len() > 0,
        normalized(a) == normalized(b),
    ensures
        target_of(classify_view(lookup, a), a) == target_of(classify_view(lookup, b), b),
{
}

/// Lowercasing before or after keeping the letters and digits gives the
/// same ASCII key.
proof fn lemma_key_of_lowered(s: Seq<char>)
    ensures
        ascii_key(s) == lower_all(s).filter(keeps_ascii()),
    decreases s.len(),
{
    if s.len() > 0 {
        let rest = s.drop_last();
        let c = s.last();
        lemma_key_of_lowered(rest);
        assert(s =~= rest.push(c));
        rest.lemma_filter_push(c, keeps_ascii());
        assert(lower_all(s) =~= lower_all(rest).push(ascii_lower(c)));
        lower_all(rest).lemma_filter_push(ascii_lower(c), keeps_ascii());
        assert(ascii_alnum(ascii_lower(c)) == ascii_alnum(c));
        if ascii_alnum(c) {
            assert(lower_all(rest.filter(keeps_ascii()).push(c)) =~= lower_all(rest.filter(keeps_ascii())).push(
                ascii_lower(c),
            ));
        }
    } else {
        assert(s.filter(keeps_ascii()) =~= s) by {
            reveal(Seq::filter);
        }
        assert(lower_all(s).filter(keeps_ascii()) =~= lower_all(s)) by {
            reveal(Seq::filter);
        }
        assert(lower_all(s) =~= s);
    }
}

/// Law: tags that differ only in the case of ASCII letters have the same
/// key. (`normalize` returns this key for ASCII tags.)
pub proof fn lemma_case_ignored(a: Seq<char>, b: Seq<char>)
    requires
        lower_all(a) == lower_all(b),
    ensures
        ascii_key(a) == ascii_key(b),
{
    lemma_key_of_lowered(a);
    lemma_key_of_lowered(b);
}

/// Law: a character that is not an ASCII letter or digit does not change
/// the key, wherever it stands. (`normalize` returns this key for ASCII
/// tags.)
pub proof fn lemma_separator_ignored(a: Seq<char>, c: char, b: Seq<char>)
    requires
        !ascii_alnum(c),
    ensures
        ascii_key(a + seq![c] + b) == ascii_key(a + b),
{
    broadcast use Seq::filter_distributes_over_add;
    assert(seq![c].filter(keeps_ascii()) =~= Seq::<char>::empty()) by {
        reveal_with_fuel(Seq::filter, 2);
        assert(seq![c].drop_last() =~= Seq::<char>::empty());
        assert(Seq::<char>::empty().filter(keeps_ascii()) =~= Seq::<char>::empty());
        assert(!keeps_ascii()(seq![c].last()));
    }
    assert((a + seq![c] + b).filter(keeps_ascii()) =~= (a + b).filter(keeps_ascii())) by {
        assert((a + seq![c] + b).filter(keeps_ascii()) == (a + seq![c]).filter(keeps_ascii()) + b.filter(
            keeps_ascii(),
        ));
        assert((a + seq![c]).filter(keeps_ascii()) == a.filter(keeps_ascii()) + seq![c].filter(keeps_ascii()));
        assert((a + b).filter(keeps_ascii()) == a.filter(keeps_ascii()) + b.filter(keeps_ascii()));
    }
}

/// Law: ASCII tags whose letters and digits agree up to case have the same
/// key, which is what `normalize` returns for them.
pub proof fn lemma_spelling_variants_meet(a: Seq<char>, b: Seq<char>)
    requires
        a.filter(keeps_ascii()).len() == b.filter(keeps_ascii()).len(),
        forall|i: int|
            0 <= i < a.filter(keeps_ascii()).len() ==> ascii_lower(#[trigger] a.filter(keeps_ascii())[i])
                == ascii_lower(b.filter(keeps_ascii())[i]),
    ensures
        ascii_key(a) == ascii_key(b),
{
    assert(ascii_key(a) =~= ascii_key(b));
}

/// Law: adding an alias keeps every entry that was there and the canonical
/// names.
pub proof fn lemma_alias_keeps_entries(t: TaxonomyView, alias: Seq<char>, canonical: Seq<char>)
    requires
        with_alias(t, alias, canonical) is Ok,
    ensures
        t.lookup.submap_of(with_alias(t, alias, canonical)->Ok_0.lookup),
        with_alias(t, alias, canonical)->Ok_0.canonical_names == t.canonical_names,
{
}

/// Law: adding an alias keeps a taxonomy well formed.
pub proof fn lemma_alias_preserves_wf(t: TaxonomyView, alias: Seq<char>, canonical: Seq<char>)
    requires
        t.wf(),
        with_alias(t, alias, canonical) is Ok,
    ensures
        with_alias(t, alias, canonical)->Ok_0.wf(),
{
    let t2 = with_alias(t, alias, canonical)->Ok_0;
    if t2 != t {
        let key = normalized(alias);
        assert forall|i: int| 0 <= i < t2.canonical_names.len() implies {
            &&& t2.lookup.contains_key(normalized(#[trigger] t2.canonical_names[i]))
            &&& t2.lookup[normalized(t2.canonical_names[i])] == t2.canonical_names[i]
        } by {
            assert(t.lookup.contains_key(normalized(t.canonical_names[i])));
        }
        assert forall|i: int| 0 <= i < t2.user_added.len() implies {
            &&& t2.lookup.contains_key(normalized((#[trigger] t2.user_added[i]).0))
            &&& t2.lookup[normalized(t2.user_added[i].0)] == t2.user_added[i].1
            &&& t2.canonical_names.contains(t2.user_added[i].1)
        } by {
            if i < t.user_added.len() {
                assert(t2.user_added[i] == t.user_added[i]);
                assert(t.lookup.contains_key(normalized(t.user_added[i].0)));
            }
        }
    }
}

/// Law: once an alias is added, classifying it gives its canonical genre
/// (or "already canonical", when it is spelled as the genre).
pub proof fn lemma_added_alias_resolves(t: TaxonomyView, alias: Seq<char>, canonical: Seq<char>)
    requires
        alias.len() > 0,
        with_alias(t, alias, canonical) is Ok,
    ensures
        classify_view(with_alias(t, alias, canonical)->Ok_0.lookup, alias) == if alias == canonical {
            ClassificationView::AlreadyCanonical
        } else {
            ClassificationView::Mapped(canonical)
        },
{
}

/// Law: adding the same alias twice is the same as adding it once.
pub proof fn lemma_alias_idempotent(t: TaxonomyView, alias: Seq<char>, canonical: Seq<char>)
    requires
        with_alias(t, alias, canonical) is Ok,
    ensures
        with_alias(with_alias(t, alias, canonical)->Ok_0, alias, canonical) == with_alias(t, alias, canonical),
{
    let t2 = with_alias(t, alias, canonical)->Ok_0;
    if t2 != t {
        assert(t2.canonical_names.contains(canonical));
    }
}

/// Every candidate below distance `d` has distance below `d`, in
/// non-decreasing order, and comes from `scores`.
proof fn lemma_ranked_below_ordered(scores: Seq<ScoreView>, d: nat)
    ensures
        forall|i: int|
            0 <= i < ranked_below(scores, d).len() ==> (#[trigger] ranked_below(scores, d)[i]).1 < d
                && scores.contains(ranked_below(scores, d)[i]),
        forall|i: int, j: int|
            0 <= i <= j < ranked_below(scores, d).len() ==> (#[trigger] ranked_below(scores, d)[i]).1
                <= (#[trigger] ranked_below(scores, d)[j]).1,
    decreases d,
{
    broadcast use vstd::seq_lib::group_filter_ensures;
    if d > 0 {
        let d1 = (d - 1) as nat;
        lemma_ranked_below_ordered(scores, d1);
        let head = ranked_below(scores, d1);
        let tail = scores.filter(at_distance(d1 as int));
        let all = ranked_below(scores, d);
        assert(all == head + tail);
        assert forall|i: int| 0 <= i < all.len() implies (#[trigger] all[i]).1 < d && scores.contains(all[i]) by {
            if i < head.len() {
                assert(all[i] == head[i]);
            } else {
                assert(all[i] == tail[i - head.len()]);
                scores.lemma_filter_pred(at_distance(d1 as int), i - head.len());
                scores.lemma_filter_contains_rev(at_distance(d1 as int), all[i]);
            }
        }
        assert forall|i: int, j: int| 0 <= i <= j < all.len() implies (#[trigger] all[i]).1 <= (
        #[trigger] all[j]).1 by {
            if j >= head.len() {
                assert(all[j] == tail[j - head.len()]);
                scores.lemma_filter_pred(at_distance(d1 as int), j - head.len());
                if i >= head.len() {
                    assert(all[i] == tail[i - head.len()]);
                    scores.lemma_filter_pred(at_distance(d1 as int), i - head.len());
                } else {
                    assert(all[i] == head[i]);
                }
            } else {
                assert(all[i] == head[i]);
                assert(all[j] == head[j]);
            }
        }
    }
}

/// Law: suggestions are at most `max` canonical names, each within distance
/// 3, the closest first.
pub proof fn lemma_suggestions_ordered(names: Seq<Seq<char>>, genre: Seq<char>, max: usize)
    ensures
        suggestions(names, genre, max).len() <= max,
        forall|i: int|
            0 <= i < suggestions(names, genre, max).len() ==> (#[trigger] suggestions(names, genre, max)[i]).1
                <= 3 && names.contains(suggestions(names, genre, max)[i].0),
        forall|i: int, j: int|
            0 <= i <= j < suggestions(names, genre, max).len() ==> (#[trigger] suggestions(
                names,
                genre,
                max,
            )[i]).1 <= (#[trigger] suggestions(names, genre, max)[j]).1,
{
    let scores = scores_for(names, genre);
    let all = ranked(scores);
    lemma_ranked_below_ordered(scores, 4);
    let r = suggestions(names, genre, max);
    assert(r == first_n(all, max));
    assert forall|i: int| 0 <= i < r.len() implies (#[trigger] r[i]).1 <= 3 && names.contains(r[i].0) by {
        assert(r[i] == all[i]);
        assert(scores.contains(all[i]));
        let k = choose|k: int| 0 <= k < scores.len() && scores[k] == all[i];
        assert(names[k] == r[i].0);
    }
    assert forall|i: int, j: int| 0 <= i <= j < r.len() implies (#[trigger] r[i]).1 <= (#[trigger] r[j]).1 by {
        assert(r[i] == all[i]);
        assert(r[j] == all[j]);
    }
}


/// Whether the genre `g` lists `entry`, as its name or as an alias.
pub open spec fn lists_entry(g: CanonicalGenreView, entry: Seq<char>) -> bool {
    entry == g.name || g.aliases.contains(entry)
}

/// Law: in a taxonomy document that loads, two entries with the same normal
/// form belong to the same genre.
pub proof fn lemma_loaded_file_unambiguous(
    genres: Seq<CanonicalGenreView>,
    i: int,
    x: Seq<char>,
    j: int,
    y: Seq<char>,
)
    requires
        lookup_of(genres) is Ok,
        0 <= i < genres.len(),
        0 <= j < genres.len(),
        lists_entry(genres[i], x),
        lists_entry(genres[j], y),
        normalized(x) == normalized(y),
    ensures
        genres[i].name == genres[j].name,
{
    lemma_file_entries_resolve(genres);
    let m = lookup_of(genres)->Ok_0;
    assert(m[normalized(x)] == genres[i].name) by {
        if x != genres[i].name {
            let a = choose|a: int| 0 <= a < genres[i].aliases.len() && genres[i].aliases[a] == x;
            assert(m[normalized(genres[i].aliases[a])] == genres[i].name);
        }
    }
    assert(m[normalized(y)] == genres[j].name) by {
        if y != genres[j].name {
            let b = choose|b: int| 0 <= b < genres[j].aliases.len() && genres[j].aliases[b] == y;
            assert(m[normalized(genres[j].aliases[b])] == genres[j].name);
        }
    }
}


/// Whether every entry of the lookup points to one of the canonical names.
pub open spec fn targets_canonical(t: TaxonomyView) -> bool {
    forall|k: Seq<char>| #[trigger] t.lookup.contains_key(k) ==> t.canonical_names.contains(t.lookup[k])
}

/// Adding aliases of `name` only adds entries that point to `name`.
proof fn lemma_add_aliases_targets(m: Map<Seq<char>, Seq<char>>, name: Seq<char>, aliases: Seq<Seq<char>>)
    requires
        add_aliases(m, name, aliases) is Ok,
    ensures
        forall|k: Seq<char>| #[trigger]
            add_aliases(m, name, aliases)->Ok_0.contains_key(k) ==> add_aliases(m, name, aliases)->Ok_0[k]
                == name || (m.contains_key(k) && add_aliases(m, name, aliases)->Ok_0[k] == m[k]),
    decreases aliases.len(),
{
    if aliases.len() > 0 {
        lemma_add_aliases_targets(m, name, aliases.drop_last());
    }
}

/// Law: every entry of a lookup built from a taxonomy document points to
/// one of the document's canonical names.
pub proof fn lemma_loaded_targets_canonical(genres: Seq<CanonicalGenreView>)
    requires
        lookup_of(genres) is Ok,
    ensures
        forall|k: Seq<char>| #[trigger]
            lookup_of(genres)->Ok_0.contains_key(k) ==> names_of(genres).contains(lookup_of(genres)->Ok_0[k]),
    decreases genres.len(),
{
    if genres.len() > 0 {
        let prefix = genres.drop_last();
        lemma_loaded_targets_canonical(prefix);
        let m1 = lookup_of(prefix)->Ok_0;
        let g = genres.last();
        let m0 = m1.insert(crate::text::normalized(g.name), g.name);
        lemma_add_aliases_targets(m0, g.name, g.aliases);
        let m = lookup_of(genres)->Ok_0;
        assert(m == add_genre(m1, g)->Ok_0);
        assert(names_of(genres) =~= names_of(prefix).push(g.name));
        assert forall|k: Seq<char>| #[trigger] m.contains_key(k) implies names_of(genres).contains(m[k]) by {
            if m[k] == g.name {
                assert(names_of(genres)[prefix.len() as int] == g.name);
            } else {
                assert(m0.contains_key(k) && m[k] == m0[k]);
                assert(m1.contains_key(k) && m1[k] == m[k]);
                let w = choose|w: int| 0 <= w < names_of(prefix).len() && names_of(prefix)[w] == m1[k];
                assert(names_of(genres)[w] == names_of(prefix)[w]);
            }
        }
    }
}

/// Law: adding an alias keeps every entry pointing to a canonical name.
pub proof fn lemma_alias_keeps_targets_canonical(t: TaxonomyView, alias: Seq<char>, canonical: Seq<char>)
    requires
        targets_canonical(t),
        with_alias(t, alias, canonical) is Ok,
    ensures
        targets_canonical(with_alias(t, alias, canonical)->Ok_0),
{
}

/// Law: where every entry points to a canonical name, a mapped tag is mapped
/// to a canonical genre.
pub proof fn lemma_mapped_to_canonical(t: TaxonomyView, genre: Seq<char>)
    requires
        targets_canonical(t),
    ensures
        classify_view(t.lookup, genre) matches ClassificationView::Mapped(c) ==> t.canonical_names.contains(c),
{
    if classify_view(t.lookup, genre) is Mapped {
        assert(t.lookup.contains_key(normalized(genre)));
    }
}


/// Adding an alias keeps `base` in the lookup and the user's aliases fresh
/// against it.
proof fn lemma_alias_keeps_pairs_fresh(
    t: TaxonomyView,
    base: Map<Seq<char>, Seq<char>>,
    alias: Seq<char>,
    canonical: Seq<char>,
)
    requires
        t.wf(),
        base.submap_of(t.lookup),
        fresh_pairs(base, t.user_added),
        with_alias(t, alias, canonical) is Ok,
    ensures
        base.submap_of(with_alias(t, alias, canonical)->Ok_0.lookup),
        fresh_pairs(base, with_alias(t, alias, canonical)->Ok_0.user_added),
{
    let t2 = with_alias(t, alias, canonical)->Ok_0;
    lemma_alias_keeps_entries(t, alias, canonical);
    vstd::map_lib::lemma_submap_of_trans(base, t.lookup, t2.lookup);
    if t2 != t {
        let key = normalized(alias);
        let ps = t2.user_added;
        let n = t.user_added.len();
        assert(ps[n as int] == (alias, canonical));
        assert(!base.contains_key(key)) by {
            if base.contains_key(key) {
                assert(base.dom().contains(key));
                assert(t.lookup.dom().contains(key));
            }
        }
        assert forall|x: int, y: int| 0 <= x < y < ps.len() implies normalized((#[trigger] ps[x]).0) != normalized(
            (#[trigger] ps[y]).0,
        ) by {
            assert(ps[x] == t.user_added[x]);
            if y < n {
                assert(ps[y] == t.user_added[y]);
            } else {
                assert(t.lookup.contains_key(normalized(t.user_added[x].0)));
            }
        }
        assert forall|x: int| 0 <= x < ps.len() implies !base.contains_key(normalized((#[trigger] ps[x]).0)) by {
            if x < n {
                assert(ps[x] == t.user_added[x]);
            }
        }
    }
}

/// Adding an alias keeps the lookup equal to `base` with the user's aliases
/// added.
proof fn lemma_alias_keeps_lookup_from_pairs(
    t: TaxonomyView,
    base: Map<Seq<char>, Seq<char>>,
    alias: Seq<char>,
    canonical: Seq<char>,
)
    requires
        t.lookup == with_pairs(base, t.user_added),
        with_alias(t, alias, canonical) is Ok,
    ensures
        with_alias(t, alias, canonical)->Ok_0.lookup == with_pairs(
            base,
            with_alias(t, alias, canonical)->Ok_0.user_added,
        ),
{
    let t2 = with_alias(t, alias, canonical)->Ok_0;
    if t2 != t {
        assert(t2.user_added.drop_last() =~= t.user_added);
    }
}

/// Law: adding an alias keeps the taxonomy's history: the loaded lookup
/// stays, the user's aliases keep pairwise different keys that the loaded
/// lookup does not have, and while no user file was merged the lookup is the
/// loaded one with the user's aliases added.
pub proof fn lemma_alias_keeps_history(t: TaxonomyView, alias: Seq<char>, canonical: Seq<char>)
    requires
        t.wf(),
        t.user_aliases_fresh(),
        with_alias(t, alias, canonical) is Ok,
    ensures
        with_alias(t, alias, canonical)->Ok_0.user_aliases_fresh(),
{
    lemma_alias_keeps_pairs_fresh(t, t.loaded, alias, canonical);
    if t.only_aliases_added {
        lemma_alias_keeps_lookup_from_pairs(t, t.loaded, alias, canonical);
    }
}

/// Law: merging a user file keeps the taxonomy's history: the loaded lookup
/// stays and the user's aliases stay fresh against it. The result no longer
/// counts as built from aliases alone.
pub proof fn lemma_merge_keeps_history(t: TaxonomyView, genres: Seq<CanonicalGenreView>)
    requires
        t.user_aliases_fresh(),
    ensures
        (TaxonomyView {
            lookup: merge_genres(t.lookup, genres).0,
            canonical_names: t.canonical_names,
            user_added: t.user_added,
            loaded: t.loaded,
            only_aliases_added: false,
        }).user_aliases_fresh(),
{
    lemma_merge_genres_extends(t.lookup, genres);
    vstd::map_lib::lemma_submap_of_trans(t.loaded, t.lookup, merge_genres(t.lookup, genres).0);
}

/// What `with_pairs` holds, when the pairs are fresh.
proof fn lemma_with_pairs_entries(base: Map<Seq<char>, Seq<char>>, pairs: Seq<PairView>)
    requires
        fresh_pairs(base, pairs),
    ensures
        forall|k: Seq<char>| #[trigger]
            with_pairs(base, pairs).contains_key(k) <==> base.contains_key(k) || exists|x: int|
                0 <= x < pairs.len() && normalized((#[trigger] pairs[x]).0) == k,
        forall|k: Seq<char>| #[trigger] base.contains_key(k) ==> with_pairs(base, pairs)[k] == base[k],
        forall|x: int|
            0 <= x < pairs.len() ==> with_pairs(base, pairs)[normalized((#[trigger] pairs[x]).0)] == pairs[x].1,
    decreases pairs.len(),
{
    if pairs.len() > 0 {
        let prefix = pairs.drop_last();
        assert forall|x: int, y: int| 0 <= x < y < prefix.len() implies normalized((#[trigger] prefix[x]).0)
            != normalized((#[trigger] prefix[y]).0) by {
            assert(prefix[x] == pairs[x] && prefix[y] == pairs[y]);
        }
        assert forall|x: int| 0 <= x < prefix.len() implies !base.contains_key(
            normalized((#[trigger] prefix[x]).0),
        ) by {
            assert(prefix[x] == pairs[x]);
        }
        lemma_with_pairs_entries(base, prefix);
        let w1 = with_pairs(base, prefix);
        let w = with_pairs(base, pairs);
        let last = pairs.len() - 1;
        let lk = normalized(pairs[last].0);
        assert(pairs.last() == pairs[last]);
        assert(w == w1.insert(lk, pairs[last].1));
        assert forall|k: Seq<char>| #[trigger] w.contains_key(k) <==> base.contains_key(k) || exists|x: int|
            0 <= x < pairs.len() && normalized((#[trigger] pairs[x]).0) == k by {
            if exists|x: int| 0 <= x < pairs.len() && normalized((#[trigger] pairs[x]).0) == k {
                let x = choose|x: int| 0 <= x < pairs.len() && normalized((#[trigger] pairs[x]).0) == k;
                if x < last {
                    assert(prefix[x] == pairs[x]);
                }
            }
            if w1.contains_key(k) && !base.contains_key(k) {
                let x = choose|x: int| 0 <= x < prefix.len() && normalized((#[trigger] prefix[x]).0) == k;
                assert(prefix[x] == pairs[x]);
            }
        }
        assert forall|k: Seq<char>| #[trigger] base.contains_key(k) implies w[k] == base[k] by {
            assert(!base.contains_key(normalized(pairs[last].0)));
        }
        assert forall|x: int| 0 <= x < pairs.len() implies w[normalized((#[trigger] pairs[x]).0)]
            == pairs[x].1 by {
            if x < last {
                assert(prefix[x] == pairs[x]);
                assert(normalized(pairs[x].0) != normalized(pairs[last].0));
            }
        }
    }
}

/// The merge state while a grouped user file is merged into `base`: `base`
/// kept, and every other entry one of the user's pairs.
pub open spec fn merged_from_pairs(
    base: Map<Seq<char>, Seq<char>>,
    pairs: Seq<PairView>,
    m: Map<Seq<char>, Seq<char>>,
) -> bool {
    &&& base.submap_of(m)
    &&& forall|k: Seq<char>| #[trigger]
        m.contains_key(k) ==> base.contains_key(k) || exists|x: int|
            0 <= x < pairs.len() && normalized(pairs[x].0) == k && m[k] == pairs[x].1
}

proof fn lemma_merge_pair_aliases(
    base: Map<Seq<char>, Seq<char>>,
    pairs: Seq<PairView>,
    m: Map<Seq<char>, Seq<char>>,
    name: Seq<char>,
    aliases: Seq<Seq<char>>,
)
    requires
        fresh_pairs(base, pairs),
        merged_from_pairs(base, pairs, m),
        forall|j: int| 0 <= j < aliases.len() ==> exists|x: int| 0 <= x < pairs.len() && #[trigger] pairs[x] == (
            #[trigger] aliases[j], name),
    ensures
        merge_aliases(m, name, aliases).1 is None,
        merged_from_pairs(base, pairs, merge_aliases(m, name, aliases).0),
        m.submap_of(merge_aliases(m, name, aliases).0),
        forall|j: int|
            0 <= j < aliases.len() ==> merge_aliases(m, name, aliases).0.contains_key(
                normalized(#[trigger] aliases[j]),
            ) && merge_aliases(m, name, aliases).0[normalized(aliases[j])] == name,
    decreases aliases.len(),
{
    crate::taxonomy::lemma_merge_aliases_extends(m, name, aliases);
    if aliases.len() > 0 {
        let prefix = aliases.drop_last();
        assert forall|j: int| 0 <= j < prefix.len() implies exists|x: int|
            0 <= x < pairs.len() && #[trigger] pairs[x] == (#[trigger] prefix[j], name) by {
            assert(prefix[j] == aliases[j]);
        }
        lemma_merge_pair_aliases(base, pairs, m, name, prefix);
        let m1 = merge_aliases(m, name, prefix).0;
        let a = aliases.last();
        let key = normalized(a);
        let lastj = aliases.len() - 1;
        assert(aliases[lastj] == a);
        let xa = choose|x: int| 0 <= x < pairs.len() && #[trigger] pairs[x] == (aliases[lastj], name);
        assert(!key_conflict(m1, key, name)) by {
            if m1.contains_key(key) && m1[key] != name {
                assert(!base.contains_key(normalized(pairs[xa].0)));
                let y = choose|y: int| 0 <= y < pairs.len() && normalized(pairs[y].0) == key && m1[key] == pairs[y].1;
                if y < xa {
                    assert(normalized(pairs[y].0) != normalized(pairs[xa].0));
                } else if y > xa {
                    assert(normalized(pairs[xa].0) != normalized(pairs[y].0));
                }
            }
        }
        let m2 = merge_aliases(m, name, aliases).0;
        assert(m2 == m1.insert(key, name));
        assert forall|k: Seq<char>| #[trigger] m2.contains_key(k) implies base.contains_key(k) || exists|x: int|
            0 <= x < pairs.len() && normalized(pairs[x].0) == k && m2[k] == pairs[x].1 by {
            if k == key {
                assert(normalized(pairs[xa].0) == k && m2[k] == pairs[xa].1);
            } else {
                assert(m1.contains_key(k));
            }
        }
        assert(base.submap_of(m2)) by {
            assert forall|k: Seq<char>| #[trigger] base.dom().contains(k) implies m2.dom().contains(k) && base[k]
                == m2[k] by {
                assert(m1.dom().contains(k));
                if k == key {
                    assert(!base.contains_key(normalized(pairs[xa].0)));
                }
            }
        }
        assert forall|j: int| 0 <= j < aliases.len() implies m2.contains_key(normalized(#[trigger] aliases[j]))
            && m2[normalized(aliases[j])] == name by {
            if j < lastj {
                assert(aliases[j] == prefix[j]);
            }
        }
    }
}

proof fn lemma_merge_pair_genres(
    base: Map<Seq<char>, Seq<char>>,
    pairs: Seq<PairView>,
    genres: Seq<CanonicalGenreView>,
)
    requires
        fresh_pairs(base, pairs),
        forall|i: int, j: int|
            0 <= i < genres.len() && 0 <= j < genres[i].aliases.len() ==> exists|x: int|
                0 <= x < pairs.len() && #[trigger] pairs[x] == (#[trigger] genres[i].aliases[j], genres[i].name),
    ensures
        merge_genres(base, genres).1 is None,
        merged_from_pairs(base, pairs, merge_genres(base, genres).0),
        forall|i: int, j: int|
            0 <= i < genres.len() && 0 <= j < genres[i].aliases.len() ==> merge_genres(base, genres).0.contains_key(
                normalized(#[trigger] genres[i].aliases[j]),
            ) && merge_genres(base, genres).0[normalized(genres[i].aliases[j])] == genres[i].name,
    decreases genres.len(),
{
    if genres.len() == 0 {
        assert(base.submap_of(base));
    } else {
        let prefix = genres.drop_last();
        assert forall|i: int, j: int| 0 <= i < prefix.len() && 0 <= j < prefix[i].aliases.len() implies exists|x: int|
            0 <= x < pairs.len() && #[trigger] pairs[x] == (#[trigger] prefix[i].aliases[j], prefix[i].name) by {
            assert(prefix[i] == genres[i]);
        }
        lemma_merge_pair_genres(base, pairs, prefix);
        let m1 = merge_genres(base, prefix).0;
        let g = genres.last();
        let last = genres.len() - 1;
        assert(genres[last] == g);
        assert forall|j: int| 0 <= j < g.aliases.len() implies exists|x: int| 0 <= x < pairs.len() && #[trigger] pairs[x]
            == (#[trigger] g.aliases[j], g.name) by {
            assert(g.aliases[j] == genres[last].aliases[j]);
        }
        lemma_merge_pair_aliases(base, pairs, m1, g.name, g.aliases);
        let m = merge_genres(base, genres).0;
        assert forall|i: int, j: int| 0 <= i < genres.len() && 0 <= j < genres[i].aliases.len() implies m.contains_key(
            normalized(#[trigger] genres[i].aliases[j]),
        ) && m[normalized(genres[i].aliases[j])] == genres[i].name by {
            if i < last {
                assert(prefix[i] == genres[i]);
                assert(prefix[i].aliases[j] == genres[i].aliases[j]);
                let key = normalized(genres[i].aliases[j]);
                assert(m1.dom().contains(key));
                assert(m.dom().contains(key));
            } else {
                assert(g.aliases[j] == genres[i].aliases[j]);
            }
        }
    }
}

/// Law: for a taxonomy that was loaded and then only given aliases, saving
/// the user's aliases as a grouped document and merging it into the lookup
/// as loaded gives back the lookup the user had, without a conflict.
pub proof fn lemma_saved_aliases_reload(t: TaxonomyView)
    requires
        t.user_aliases_fresh(),
        t.only_aliases_added,
    ensures
        merge_genres(t.loaded, grouped(t.user_added)) == (t.lookup, None::<TaxonomyErrorView>),
{
    let base = t.loaded;
    let ps = t.user_added;
    let g = grouped(ps);
    lemma_grouped_lists_only_pairs(ps);
    lemma_grouped_lists_every_pair(ps);
    lemma_merge_pair_genres(base, ps, g);
    lemma_with_pairs_entries(base, ps);
    let m = merge_genres(base, g).0;
    let w = with_pairs(base, ps);
    assert forall|k: Seq<char>| #[trigger] m.contains_key(k) implies w.contains_key(k) && m[k] == w[k] by {
        if base.contains_key(k) {
            assert(base.dom().contains(k));
            assert(m.dom().contains(k));
        } else {
            let x = choose|x: int| 0 <= x < ps.len() && normalized(ps[x].0) == k && m[k] == ps[x].1;
            assert(normalized(ps[x].0) == k);
        }
    }
    assert forall|k: Seq<char>| #[trigger] w.contains_key(k) implies m.contains_key(k) by {
        if base.contains_key(k) {
            assert(base.dom().contains(k));
        } else {
            let x = choose|x: int| 0 <= x < ps.len() && normalized((#[trigger] ps[x]).0) == k;
            let i = genre_index(g, ps[x].1);
            assert(g[i].aliases.contains(ps[x].0));
            let j = choose|j: int| 0 <= j < g[i].aliases.len() && g[i].aliases[j] == ps[x].0;
            assert(m.contains_key(normalized(g[i].aliases[j])));
        }
    }
    assert(m =~= w);
}

/// Law: a taxonomy that `load_default` gave and that was then only given
/// aliases comes back from its saved aliases: merging the grouped document
/// into a freshly loaded built-in lookup succeeds and gives its lookup, so
/// every tag classifies as before.
pub proof fn lemma_default_reloads_saved_aliases(t: TaxonomyView)
    requires
        t.user_aliases_fresh(),
        t.only_aliases_added,
        lookup_of(default_genres()) == Ok::<_, TaxonomyErrorView>(t.loaded),
    ensures
        merge_genres(lookup_of(default_genres())->Ok_0, grouped(t.user_added)) == (t.lookup, None::<TaxonomyErrorView>),
        forall|g: Seq<char>|
            classify_view(merge_genres(lookup_of(default_genres())->Ok_0, grouped(t.user_added)).0, g)
                == #[trigger] classify_view(t.lookup, g),
{
    lemma_saved_aliases_reload(t);
}

/// Law: the canonical genre found for an alias is the one of the first pair
/// that lists it: when `pairs[k]` lists `alias` and no earlier pair does,
/// the answer is `pairs[k]`'s genre.
pub proof fn lemma_first_match_wins(pairs: Seq<PairView>, alias: Seq<char>, k: int)
    requires
        0 <= k < pairs.len(),
        pairs[k].0 == alias,
        forall|j: int| 0 <= j < k ==> (#[trigger] pairs[j]).0 != alias,
    ensures
        first_target(pairs, alias) == Some(pairs[k].1),
    decreases k,
{
    if k > 0 {
        let rest = pairs.drop_first();
        assert forall|j: int| 0 <= j < k - 1 implies (#[trigger] rest[j]).0 != alias by {
            assert(rest[j] == pairs[j + 1]);
        }
        assert(rest[k - 1] == pairs[k]);
        assert(pairs[0].0 != alias);
        lemma_first_match_wins(rest, alias, k - 1);
    }
}

/// Law: an alias that no pair lists has no canonical genre.
pub proof fn lemma_no_match_no_target(pairs: Seq<PairView>, alias: Seq<char>)
    requires
        forall|j: int| 0 <= j < pairs.len() ==> (#[trigger] pairs[j]).0 != alias,
    ensures
        first_target(pairs, alias) is None,
    decreases pairs.len(),
{
    if pairs.len() > 0 {
        let rest = pairs.drop_first();
        assert forall|j: int| 0 <= j < rest.len() implies (#[trigger] rest[j]).0 != alias by {
            assert(rest[j] == pairs[j + 1]);
        }
        assert(pairs[0].0 != alias);
        lemma_no_match_no_target(rest, alias);
    }
}

/// Law: whether a file name is an MP3 name depends on its extension alone:
/// any non-empty stem, whatever characters it holds, followed by `.mp3` in
/// any ASCII case of `m` and `p`, is an MP3 name.
pub proof fn lemma_mp3_extension_decides(stem: Seq<char>, m: char, p: char)
    requires
        stem.len() >= 1,
        m == 'm' || m == 'M',
        p == 'p' || p == 'P',
    ensures
        mp3_name(stem + seq!['.', m, p, '3']),
{
    let name = stem + seq!['.', m, p, '3'];
    assert(name[name.len() - 4] == '.');
    assert(name[name.len() - 3] == m);
    assert(name[name.len() - 2] == p);
    assert(name[name.len() - 1] == '3');
}

/// Law: an MP3 name is a non-empty stem followed by `.mp3`, in some ASCII
/// case of `m` and `p`.
pub proof fn lemma_mp3_name_has_extension(name: Seq<char>)
    requires
        mp3_name(name),
    ensures
        name == name.subrange(0, name.len() - 4) + seq!['.', name[name.len() - 3], name[name.len() - 2], '3'],
        name.len() - 4 >= 1,
{
    assert(name =~= name.subrange(0, name.len() - 4) + seq!['.', name[name.len() - 3], name[name.len() - 2], '3']);
}

/// Every candidate of distance below `d` is among the candidates ranked
/// below `d`.
proof fn lemma_ranked_below_complete(scores: Seq<ScoreView>, d: nat, k: int)
    requires
        0 <= k < scores.len(),
        scores[k].1 < d,
    ensures
        ranked_below(scores, d).contains(scores[k]),
    decreases d,
{
    let d1 = (d - 1) as nat;
    let head = ranked_below(scores, d1);
    let tail = scores.filter(at_distance(d1 as int));
    assert(ranked_below(scores, d) == head + tail);
    if scores[k].1 < d1 {
        lemma_ranked_below_complete(scores, d1, k);
        let w = choose|w: int| 0 <= w < head.len() && head[w] == scores[k];
        assert((head + tail)[w] == scores[k]);
    } else {
        scores.lemma_filter_contains(at_distance(d1 as int), k);
        let w = choose|w: int| 0 <= w < tail.len() && tail[w] == scores[k];
        assert((head + tail)[head.len() + w] == scores[k]);
    }
}

/// Law: each suggestion is a canonical name with its Damerau-Levenshtein
/// distance from the tag (both normalised), and every canonical name within
/// distance 3 is suggested, unless `max` suggestions are already there,
/// none of them farther away.
pub proof fn lemma_suggestions_sound_and_complete(names: Seq<Seq<char>>, genre: Seq<char>, max: usize)
    ensures
        forall|i: int|
            0 <= i < suggestions(names, genre, max).len() ==> {
                let s = #[trigger] suggestions(names, genre, max)[i];
                &&& names.contains(s.0)
                &&& s.1 == damerau_levenshtein_distance(normalized(genre), normalized(s.0))
                &&& s.1 <= 3
            },
        forall|k: int|
            0 <= k < names.len() && damerau_levenshtein_distance(normalized(genre), normalized(#[trigger] names[k]))
                <= 3 ==> {
                ||| suggestions(names, genre, max).contains(
                    (names[k], damerau_levenshtein_distance(normalized(genre), normalized(names[k]))),
                )
                ||| {
                    &&& suggestions(names, genre, max).len() == max
                    &&& forall|i: int|
                        0 <= i < max ==> (#[trigger] suggestions(names, genre, max)[i]).1
                            <= damerau_levenshtein_distance(normalized(genre), normalized(names[k]))
                }
            },
{
    let scores = scores_for(names, genre);
    let all = ranked(scores);
    let r = suggestions(names, genre, max);
    lemma_ranked_below_ordered(scores, 4);
    assert(r == first_n(all, max));
    assert forall|i: int| 0 <= i < r.len() implies {
        let s = #[trigger] r[i];
        &&& names.contains(s.0)
        &&& s.1 == damerau_levenshtein_distance(normalized(genre), normalized(s.0))
        &&& s.1 <= 3
    } by {
        assert(r[i] == all[i]);
        assert(scores.contains(all[i]));
        let k = choose|k: int| 0 <= k < scores.len() && scores[k] == all[i];
        assert(names[k] == r[i].0);
    }
    assert forall|k: int|
        0 <= k < names.len() && damerau_levenshtein_distance(normalized(genre), normalized(#[trigger] names[k]))
            <= 3 implies {
        ||| r.contains((names[k], damerau_levenshtein_distance(normalized(genre), normalized(names[k]))))
        ||| {
            &&& r.len() == max
            &&& forall|i: int|
                0 <= i < max ==> (#[trigger] r[i]).1 <= damerau_levenshtein_distance(
                    normalized(genre),
                    normalized(names[k]),
                )
        }
    } by {
        let e = scores[k];
        assert(e == (names[k], damerau_levenshtein_distance(normalized(genre), normalized(names[k]))));
        lemma_ranked_below_complete(scores, 4, k);
        let p = choose|p: int| 0 <= p < all.len() && all[p] == e;
        if p < max {
            if all.len() <= max {
                assert(r[p] == e);
            } else {
                assert(r[p] == all[p]);
            }
        } else {
            assert(all.len() > max);
            assert forall|i: int| 0 <= i < max implies (#[trigger] r[i]).1 <= e.1 by {
                assert(r[i] == all[i]);
                assert(all[i].1 <= all[p].1);
            }
        }
    }
}

/// Filtering keeps the order of what it keeps.
proof fn lemma_filter_keeps_order(s: Seq<ScoreView>, pred: spec_fn(ScoreView) -> bool, i: int, j: int)
    requires
        0 <= i < j < s.filter(pred).len(),
    ensures
        exists|p: int, q: int|
            0 <= p < q < s.len() && s[p] == s.filter(pred)[i] && s[q] == s.filter(pred)[j],
    decreases s.len(),
{
    reveal(Seq::filter);
    let prefix = s.drop_last();
    let fp = prefix.filter(pred);
    let f = s.filter(pred);
    let last = s.len() - 1;
    assert(s.last() == s[last]);
    if j < fp.len() {
        if pred(s[last]) {
            assert(f == fp.push(s[last]));
        }
        assert(f[i] == fp[i] && f[j] == fp[j]);
        lemma_filter_keeps_order(prefix, pred, i, j);
        let (p, q) = choose|p: int, q: int|
            0 <= p < q < prefix.len() && prefix[p] == fp[i] && prefix[q] == fp[j];
        assert(s[p] == prefix[p] && s[q] == prefix[q]);
    } else {
        assert(pred(s[last]));
        assert(f == fp.push(s[last]));
        assert(f[j] == s[last]);
        assert(f[i] == fp[i]);
        assert(fp.contains(fp[i]));
        prefix.lemma_filter_contains_rev(pred, fp[i]);
        let p = choose|p: int| 0 <= p < prefix.len() && prefix[p] == fp[i];
        assert(s[p] == prefix[p]);
    }
}

/// Candidates of equal distance keep the order they had among the scores.
proof fn lemma_ranked_below_ties(scores: Seq<ScoreView>, d: nat, i: int, j: int)
    requires
        0 <= i < j < ranked_below(scores, d).len(),
        ranked_below(scores, d)[i].1 == ranked_below(scores, d)[j].1,
    ensures
        exists|p: int, q: int|
            0 <= p < q < scores.len() && scores[p] == ranked_below(scores, d)[i] && scores[q] == ranked_below(
                scores,
                d,
            )[j],
    decreases d,
{
    broadcast use vstd::seq_lib::group_filter_ensures;
    let d1 = (d - 1) as nat;
    let head = ranked_below(scores, d1);
    let tail = scores.filter(at_distance(d1 as int));
    let all = ranked_below(scores, d);
    assert(all == head + tail);
    lemma_ranked_below_ordered(scores, d1);
    if j < head.len() {
        assert(all[i] == head[i] && all[j] == head[j]);
        lemma_ranked_below_ties(scores, d1, i, j);
    } else {
        assert(all[j] == tail[j - head.len()]);
        scores.lemma_filter_pred(at_distance(d1 as int), j - head.len());
        if i < head.len() {
            assert(all[i] == head[i]);
            assert(head[i].1 < d1);
        } else {
            assert(all[i] == tail[i - head.len()]);
            lemma_filter_keeps_order(scores, at_distance(d1 as int), i - head.len(), j - head.len());
        }
    }
}

/// Law: suggestions at equal distance come in the order of the canonical
/// names, and none is repeated beyond the names: for two of them at equal
/// distance, the first is a canonical name that stands before the second.
pub proof fn lemma_suggestion_ties_keep_name_order(names: Seq<Seq<char>>, genre: Seq<char>, max: usize, i: int, j: int)
    requires
        0 <= i < j < suggestions(names, genre, max).len(),
        suggestions(names, genre, max)[i].1 == suggestions(names, genre, max)[j].1,
    ensures
        exists|p: int, q: int|
            0 <= p < q < names.len() && names[p] == suggestions(names, genre, max)[i].0 && names[q] == suggestions(
                names,
                genre,
                max,
            )[j].0,
{
    let scores = scores_for(names, genre);
    let all = ranked(scores);
    let r = suggestions(names, genre, max);
    assert(r[i] == all[i] && r[j] == all[j]);
    lemma_ranked_below_ties(scores, 4, i, j);
    let (p, q) = choose|p: int, q: int| 0 <= p < q < scores.len() && scores[p] == all[i] && scores[q] == all[j];
    assert(names[p] == scores[p].0 && names[q] == scores[q].0);
}

/// Law: classification reads the lookup: an empty tag is `Empty`; a
/// non-empty one is `Unknown` exactly when its normal form is no key, and
/// otherwise points to the genre the lookup gives it, being
/// `AlreadyCanonical` exactly when that genre is spelled as the tag.
pub proof fn lemma_classification_reads_lookup(lookup: Map<Seq<char>, Seq<char>>, genre: Seq<char>)
    ensures
        (classify_view(lookup, genre) is Empty) <==> genre.len() == 0,
        genre.len() > 0 ==> ((classify_view(lookup, genre) is Unknown) <==> !lookup.contains_key(normalized(genre))),
        genre.len() > 0 && lookup.contains_key(normalized(genre)) ==> target_of(classify_view(lookup, genre), genre)
            == Some(lookup[normalized(genre)]),
        (classify_view(lookup, genre) is AlreadyCanonical) ==> lookup[normalized(genre)] == genre,
        classify_view(lookup, genre) matches ClassificationView::Mapped(c) ==> c != genre,
{
}

/// Law: adding an alias is refused exactly when the genre is not canonical
/// or the alias's normal form already maps to another genre; when it is
/// accepted, the alias's normal form maps to the genre and no other key
/// changes.
pub proof fn lemma_alias_refusals(t: TaxonomyView, alias: Seq<char>, canonical: Seq<char>)
    ensures
        (with_alias(t, alias, canonical) is Err) <==> (!t.canonical_names.contains(canonical) || (t.lookup.contains_key(
            normalized(alias),
        ) && t.lookup[normalized(alias)] != canonical)),
        with_alias(t, alias, canonical) matches Ok(t2) ==> {
            &&& t2.lookup.contains_key(normalized(alias))
            &&& t2.lookup[normalized(alias)] == canonical
            &&& t2.canonical_names == t.canonical_names
            &&& forall|k: Seq<char>|
                k != normalized(alias) ==> (#[trigger] t2.lookup.contains_key(k) <==> t.lookup.contains_key(k)) && (
                t.lookup.contains_key(k) ==> t2.lookup[k] == t.lookup[k])
        },
{
}

/// A merge of one genre's aliases that meets no conflict maps each of them
/// to the genre and adds no other key.
proof fn lemma_merge_aliases_success(m: Map<Seq<char>, Seq<char>>, name: Seq<char>, aliases: Seq<Seq<char>>)
    requires
        merge_aliases(m, name, aliases).1 is None,
    ensures
        forall|j: int|
            0 <= j < aliases.len() ==> merge_aliases(m, name, aliases).0.contains_key(normalized(#[trigger] aliases[j]))
                && merge_aliases(m, name, aliases).0[normalized(aliases[j])] == name,
        forall|k: Seq<char>|
            #[trigger] merge_aliases(m, name, aliases).0.contains_key(k) ==> m.contains_key(k) || exists|j: int|
                0 <= j < aliases.len() && normalized(#[trigger] aliases[j]) == k,
    decreases aliases.len(),
{
    if aliases.len() > 0 {
        let prefix = aliases.drop_last();
        lemma_merge_aliases_success(m, name, prefix);
        let m1 = merge_aliases(m, name, prefix).0;
        let key = normalized(aliases.last());
        let m2 = merge_aliases(m, name, aliases).0;
        assert(m2 == m1.insert(key, name));
        let last = aliases.len() - 1;
        assert(aliases.last() == aliases[last]);
        assert forall|j: int| 0 <= j < aliases.len() implies m2.contains_key(normalized(#[trigger] aliases[j]))
            && m2[normalized(aliases[j])] == name by {
            if j < last {
                assert(prefix[j] == aliases[j]);
            }
        }
        assert forall|k: Seq<char>| #[trigger] m2.contains_key(k) implies m.contains_key(k) || exists|j: int|
            0 <= j < aliases.len() && normalized(#[trigger] aliases[j]) == k by {
            if k != key && !m.contains_key(k) {
                assert(m1.contains_key(k));
                let j = choose|j: int| 0 <= j < prefix.len() && normalized(#[trigger] prefix[j]) == k;
                assert(prefix[j] == aliases[j]);
            } else if k == key {
                assert(normalized(aliases[last]) == k);
            }
        }
    }
}

/// Law: a user file that merges without conflict maps every one of its
/// aliases to the genre that lists it, and adds no key but theirs.
pub proof fn lemma_merged_file_aliases_resolve(m: Map<Seq<char>, Seq<char>>, genres: Seq<CanonicalGenreView>)
    requires
        merge_genres(m, genres).1 is None,
    ensures
        forall|i: int, j: int|
            0 <= i < genres.len() && 0 <= j < genres[i].aliases.len() ==> merge_genres(m, genres).0.contains_key(
                normalized(#[trigger] genres[i].aliases[j]),
            ) && merge_genres(m, genres).0[normalized(genres[i].aliases[j])] == genres[i].name,
        forall|k: Seq<char>|
            #[trigger] merge_genres(m, genres).0.contains_key(k) ==> m.contains_key(k) || exists|i: int, j: int|
                0 <= i < genres.len() && 0 <= j < genres[i].aliases.len() && normalized(#[trigger] genres[i].aliases[j])
                    == k,
    decreases genres.len(),
{
    if genres.len() > 0 {
        let prefix = genres.drop_last();
        let last = genres.len() - 1;
        let g = genres.last();
        assert(g == genres[last]);
        lemma_merged_file_aliases_resolve(m, prefix);
        let m1 = merge_genres(m, prefix).0;
        lemma_merge_aliases_success(m1, g.name, g.aliases);
        crate::taxonomy::lemma_merge_aliases_extends(m1, g.name, g.aliases);
        let m2 = merge_genres(m, genres).0;
        assert(m2 == merge_aliases(m1, g.name, g.aliases).0);
        assert forall|i: int, j: int| 0 <= i < genres.len() && 0 <= j < genres[i].aliases.len() implies m2.contains_key(
            normalized(#[trigger] genres[i].aliases[j]),
        ) && m2[normalized(genres[i].aliases[j])] == genres[i].name by {
            if i < last {
                assert(prefix[i] == genres[i]);
                assert(prefix[i].aliases[j] == genres[i].aliases[j]);
                let key = normalized(genres[i].aliases[j]);
                assert(m1.dom().contains(key));
                assert(m2.dom().contains(key));
            } else {
                assert(g.aliases[j] == genres[i].aliases[j]);
            }
        }
        assert forall|k: Seq<char>| #[trigger] m2.contains_key(k) implies m.contains_key(k) || exists|i: int, j: int|
            0 <= i < genres.len() && 0 <= j < genres[i].aliases.len() && normalized(#[trigger] genres[i].aliases[j]) == k by {
            if !m.contains_key(k) {
                if m1.contains_key(k) {
                    let (i, j) = choose|i: int, j: int|
                        0 <= i < prefix.len() && 0 <= j < prefix[i].aliases.len() && normalized(
                            #[trigger] prefix[i].aliases[j],
                        ) == k;
                    assert(prefix[i] == genres[i]);
                    assert(normalized(genres[i].aliases[j]) == k);
                } else {
                    let j = choose|j: int| 0 <= j < g.aliases.len() && normalized(#[trigger] g.aliases[j]) == k;
                    assert(genres[last].aliases[j] == g.aliases[j]);
                    assert(normalized(genres[last].aliases[j]) == k);
                }
            }
        }
    }
}

/// Whether a file's genre tag is non-empty and its normal form is a key of
/// the lookup.
pub open spec fn known_tag(lookup: Map<Seq<char>, Seq<char>>, genre: Option<Seq<char>>) -> bool {
    match genre {
        Some(g) => g.len() > 0 && lookup.contains_key(normalized(g)),
        None => false,
    }
}

/// Whether a file's genre tag is non-empty and its normal form is no key of
/// the lookup.
pub open spec fn unknown_tag(lookup: Map<Seq<char>, Seq<char>>, genre: Option<Seq<char>>) -> bool {
    match genre {
        Some(g) => g.len() > 0 && !lookup.contains_key(normalized(g)),
        None => false,
    }
}

/// The genre tag, or nothing for a file without one.
pub open spec fn tag_of(genre: Option<Seq<char>>) -> Seq<char> {
    match genre {
        Some(g) => g,
        None => Seq::empty(),
    }
}

/// Law: recording a file counts it as found; counts it as matched exactly
/// when it has a non-empty genre whose normal form the lookup knows; and
/// files it under its genre exactly when that genre is non-empty and
/// unknown: appended to the files of the genre's group, or as the only file
/// of a new group at the end when there was none. Nothing else changes.
pub proof fn lemma_record_counts_and_groups(
    s: ScanResultView,
    lookup: Map<Seq<char>, Seq<char>>,
    path: Seq<char>,
    genre: Option<Seq<char>>,
)
    requires
        s.wf(lookup),
    ensures
        recorded(s, lookup, path, genre).found == s.found + 1,
        recorded(s, lookup, path, genre).matched == s.matched + if known_tag(lookup, genre) {
            1int
        } else {
            0int
        },
        !unknown_tag(lookup, genre) ==> recorded(s, lookup, path, genre).unknown == s.unknown,
        unknown_tag(lookup, genre) ==> {
            let u = recorded(s, lookup, path, genre).unknown;
            let g = tag_of(genre);
            &&& u.len() == s.unknown.len() || u.len() == s.unknown.len() + 1
            &&& forall|k: int|
                0 <= k < s.unknown.len() ==> #[trigger] u[k] == if s.unknown[k].0 == g {
                    (g, s.unknown[k].1.push(path))
                } else {
                    s.unknown[k]
                }
            &&& u.len() == s.unknown.len() + 1 ==> u.last() == (g, seq![path]) && forall|k: int|
                0 <= k < s.unknown.len() ==> (#[trigger] s.unknown[k]).0 != g
            &&& u.len() == s.unknown.len() ==> exists|k: int| 0 <= k < s.unknown.len() && (#[trigger] s.unknown[k]).0 == g
        },
{
    if unknown_tag(lookup, genre) {
        let g = tag_of(genre);
        assert(classify_view(lookup, g) == ClassificationView::Unknown);
        let u = recorded(s, lookup, path, genre).unknown;
        if crate::scan::has_group(s.unknown, g) {
            let i = crate::scan::group_of(s.unknown, g);
            assert forall|k: int| 0 <= k < s.unknown.len() implies #[trigger] u[k] == if s.unknown[k].0 == g {
                (g, s.unknown[k].1.push(path))
            } else {
                s.unknown[k]
            } by {
                if k != i && s.unknown[k].0 == g {
                    if k < i {
                        assert(s.unknown[k].0 != s.unknown[i].0);
                    } else {
                        assert(s.unknown[i].0 != s.unknown[k].0);
                    }
                }
            }
        } else {
            assert forall|k: int| 0 <= k < s.unknown.len() implies (#[trigger] s.unknown[k]).0 != g by {
                if s.unknown[k].0 == g {
                    assert(crate::scan::has_group(s.unknown, g));
                }
            }
        }
    }
}

/// Law: what an answer picks. A blank answer skips; an answer that reads as
/// the number `k` picks the `k`-th suggestion (counting from 1) when there
/// is one and is invalid otherwise; any other answer is taken, without its
/// surrounding white space, as a genre name.
pub proof fn lemma_answer_picks(input: Seq<char>, suggestions: Seq<(Seq<char>, usize)>)
    ensures
        trimmed(input).len() == 0 ==> choice_of(input, suggestions) == ChoiceView::Skip,
        forall|k: usize|
            trimmed(input).len() > 0 && #[trigger] parsed_usize(trimmed(input)) == Some(k) ==> choice_of(
                input,
                suggestions,
            ) == if 1 <= k <= suggestions.len() {
                ChoiceView::MapTo(suggestions[k - 1].0)
            } else {
                ChoiceView::Invalid
            },
        trimmed(input).len() > 0 && parsed_usize(trimmed(input)) is None ==> choice_of(input, suggestions)
            == ChoiceView::MapTo(trimmed(input)),
{
}

} // verus!
