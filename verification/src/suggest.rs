//! Fuzzy suggestions of canonical genres for an unknown tag.

use vstd::prelude::*;
use crate::taxonomy::Taxonomy;
use crate::text::{normalize, normalized};

verus! {

/// The Damerau-Levenshtein distance that `strsim::damerau_levenshtein`
/// computes between two strings.
pub uninterp spec fn damerau_levenshtein_distance(a: Seq<char>, b: Seq<char>) -> usize;

/// Calls `strsim::damerau_levenshtein`. Its result depends on the two strings
/// alone; it is named, not spelled out.
#[verifier::external_body]
fn edit_distance(a: &str, b: &str) -> (d: usize)
    ensures
        d == damerau_levenshtein_distance(a@, b@),
{
    strsim::damerau_levenshtein(a, b)
}

/// A scored candidate: a canonical name and its distance from the tag.
pub type ScoreView = (Seq<char>, usize);

/// The candidates at exactly distance `d`.
pub open spec fn at_distance(d: int) -> spec_fn(ScoreView) -> bool {
    |p: ScoreView| p.1 == d
}

/// The candidates of distance below `d`, sorted by distance; candidates of
/// equal distance keep their order (a stable sort).
pub open spec fn ranked_below(scores: Seq<ScoreView>, d: nat) -> Seq<ScoreView>
    decreases d,
{
    if d == 0 {
        Seq::empty()
    } else {
        ranked_below(scores, (d - 1) as nat) + scores.filter(at_distance(d - 1))
    }
}

/// The candidates within distance 3, stably sorted by distance.
pub open spec fn ranked(scores: Seq<ScoreView>) -> Seq<ScoreView> {
    ranked_below(scores, 4)
}

/// The first `max` entries of `s`, or all of them when there are fewer.
pub open spec fn first_n(s: Seq<ScoreView>, max: usize) -> Seq<ScoreView> {
    if s.len() <= max {
        s
    } else {
        s.take(max as int)
    }
}

/// Each canonical name with its distance from the tag, both normalised.
pub open spec fn scores_for(names: Seq<Seq<char>>, genre: Seq<char>) -> Seq<ScoreView> {
    names.map_values(|n: Seq<char>| (n, damerau_levenshtein_distance(normalized(genre), normalized(n))))
}

/// The suggestions for `genre`: the canonical names within distance 3, the
/// closest first, at most `max` of them.
pub open spec fn suggestions(names: Seq<Seq<char>>, genre: Seq<char>, max: usize) -> Seq<ScoreView> {
    first_n(ranked(scores_for(names, genre)), max)
}

/// Keeps the candidates within distance 3, sorts them by distance keeping
/// the order of equal ones, and returns the first `max`.
pub fn rank_suggestions(scores: Vec<(String, usize)>, max: usize) -> (r: Vec<(String, usize)>)
    ensures
        r.deep_view() == first_n(ranked(scores.deep_view()), max),
{
    let ghost sv = scores.deep_view();
    let mut out: Vec<(String, usize)> = Vec::new();
    let mut d: usize = 0;
    assert(out.deep_view() =~= ranked_below(sv, 0));
    while d < 4
        invariant
            sv == scores.deep_view(),
            d <= 4,
            out.deep_view() == ranked_below(sv, d as nat),
        decreases 4 - d,
    {
        let mut i: usize = 0;
        assert(sv.take(0).filter(at_distance(d as int)) =~= Seq::<ScoreView>::empty());
        assert(ranked_below(sv, d as nat) + sv.take(0).filter(at_distance(d as int)) =~= ranked_below(sv, d as nat));
        while i < scores.len()
            invariant
                sv == scores.deep_view(),
                d < 4,
                i <= sv.len(),
                out.deep_view() == ranked_below(sv, d as nat) + sv.take(i as int).filter(at_distance(d as int)),
            decreases sv.len() - i,
        {
            let ghost before = out.deep_view();
            assert(sv.take(i + 1) =~= sv.take(i as int).push(sv[i as int]));
            proof {
                sv.take(i as int).lemma_filter_push(sv[i as int], at_distance(d as int));
            }
            if scores[i].1 == d {
                out.push((scores[i].0.clone(), d));
                assert(out.deep_view() =~= before.push(sv[i as int]));
            }
            i = i + 1;
        }
        assert(sv.take(sv.len() as int) =~= sv);
        d = d + 1;
    }
    if out.len() > max {
        let ghost whole = out.deep_view();
        out.truncate(max);
        assert(out.deep_view() =~= whole.take(max as int));
    }
    out
}

impl Taxonomy {
    /// Suggests canonical genres for a tag: every canonical name within
    /// Damerau-Levenshtein distance 3 of the tag (both normalised), the
    /// closest first, at most `max`, each with its distance.
    pub fn suggest_matches(&self, genre: &str, max: usize) -> (r: Vec<(String, usize)>)
        ensures
            r.deep_view() == suggestions(self@.canonical_names, genre@, max),
    {
        let names = self.canonical_names();
        let ghost nv = self@.canonical_names;
        let target = normalize(genre);
        let mut scores: Vec<(String, usize)> = Vec::new();
        let mut i: usize = 0;
        while i < names.len()
            invariant
                nv == self@.canonical_names,
                names.deep_view() == nv,
                target@ == normalized(genre@),
                i <= nv.len(),
                scores.deep_view() == scores_for(nv.take(i as int), genre@),
            decreases nv.len() - i,
        {
            let name = &names[i];
            assert(name@ == nv[i as int]);
            let key = normalize(name.as_str());
            let dist = edit_distance(target.as_str(), key.as_str());
            let ghost before = scores.deep_view();
            scores.push((name.clone(), dist));
            assert(scores.deep_view() =~= scores_for(nv.take(i + 1), genre@)) by {
                assert(nv.take(i + 1) =~= nv.take(i as int).push(nv[i as int]));
                assert(scores.deep_view() =~= before.push((name@, dist)));
            }
            i = i + 1;
        }
        assert(nv.take(nv.len() as int) =~= nv);
        rank_suggestions(scores, max)
    }
}

} // verus!
