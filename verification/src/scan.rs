//! Bookkeeping of a scan over a directory of MP3 files: which files count,
//! how many matched the taxonomy, and which genres were unknown.

use vstd::prelude::*;
use vstd::string::StrSliceExecFns;
use crate::taxonomy::{classify_view, Classification, ClassificationView, Taxonomy};

verus! {

/// Whether a file name has the extension `mp3`, in any ASCII case: the part
/// after the last dot, where something stands before that dot.
pub open spec fn mp3_name(name: Seq<char>) -> bool {
    &&& name.len() >= 5
    &&& name[name.len() - 4] == '.'
    &&& (name[name.len() - 3] == 'm' || name[name.len() - 3] == 'M')
    &&& (name[name.len() - 2] == 'p' || name[name.len() - 2] == 'P')
    &&& name[name.len() - 1] == '3'
}

/// Whether the file called `file_name` is an MP3 file by its extension.
pub fn is_mp3_file_name(file_name: &str) -> (r: bool)
    ensures
        r == mp3_name(file_name@),
{
    let n = file_name.unicode_len();
    if n < 5 {
        return false;
    }
    let dot = file_name.get_char(n - 4);
    let m = file_name.get_char(n - 3);
    let p = file_name.get_char(n - 2);
    let three = file_name.get_char(n - 1);
    dot == '.' && (m == 'm' || m == 'M') && (p == 'p' || p == 'P') && three == '3'
}

/// A genre that the taxonomy does not know, and the files that carry it.
pub struct UnknownGenre {
    pub genre: String,
    pub files: Vec<String>,
}

/// What a scan found: the MP3 files seen, those whose genre matched the
/// taxonomy, and the unknown genres with their files.
pub struct ScanResult {
    pub found: usize,
    pub matched: usize,
    pub unknown_genres: Vec<UnknownGenre>,
}

/// An unknown genre and its files, as character sequences.
pub type GroupView = (Seq<char>, Seq<Seq<char>>);

/// The mathematical value of a [`ScanResult`].
pub struct ScanResultView {
    pub found: nat,
    pub matched: nat,
    pub unknown: Seq<GroupView>,
}

impl View for ScanResult {
    type V = ScanResultView;

    open spec fn view(&self) -> ScanResultView {
        ScanResultView {
            found: self.found as nat,
            matched: self.matched as nat,
            unknown: self.unknown_genres@.map_values(|g: UnknownGenre| (g.genre@, g.files.deep_view())),
        }
    }
}

/// Whether some group is for `genre`.
pub open spec fn has_group(groups: Seq<GroupView>, genre: Seq<char>) -> bool {
    exists|i: int| 0 <= i < groups.len() && groups[i].0 == genre
}

/// The group for `genre`, where there is one.
pub open spec fn group_of(groups: Seq<GroupView>, genre: Seq<char>) -> int {
    choose|i: int| 0 <= i < groups.len() && groups[i].0 == genre
}

/// The groups after `path` is filed under `genre`: appended to its group, or
/// in a new group at the end.
pub open spec fn file_under(groups: Seq<GroupView>, genre: Seq<char>, path: Seq<char>) -> Seq<GroupView> {
    if has_group(groups, genre) {
        let i = group_of(groups, genre);
        groups.update(i, (genre, groups[i].1.push(path)))
    } else {
        groups.push((genre, seq![path]))
    }
}

/// What recording one MP3 file does. `genre` is `None` for a file without
/// tags. Every file counts as found; a canonical or mapped genre counts as
/// matched; an unknown genre files the path under that genre.
pub open spec fn recorded(
    s: ScanResultView,
    lookup: Map<Seq<char>, Seq<char>>,
    path: Seq<char>,
    genre: Option<Seq<char>>,
) -> ScanResultView {
    match genre {
        None => ScanResultView { found: s.found + 1, ..s },
        Some(g) => match classify_view(lookup, g) {
            ClassificationView::AlreadyCanonical | ClassificationView::Mapped(_) => ScanResultView {
                found: s.found + 1,
                matched: s.matched + 1,
                unknown: s.unknown,
            },
            ClassificationView::Unknown => ScanResultView {
                found: s.found + 1,
                matched: s.matched,
                unknown: file_under(s.unknown, g, path),
            },
            ClassificationView::Empty => ScanResultView { found: s.found + 1, ..s },
        },
    }
}

impl ScanResultView {
    /// Consistency of a scan against a lookup: no more matches than files,
    /// one group per genre, every group's genre unknown to the lookup, and
    /// every group holding at least one file.
    pub open spec fn wf(self, lookup: Map<Seq<char>, Seq<char>>) -> bool {
        &&& self.matched <= self.found
        &&& forall|i: int, j: int|
            0 <= i < j < self.unknown.len() ==> #[trigger] self.unknown[i].0 != #[trigger] self.unknown[j].0
        &&& forall|i: int|
            0 <= i < self.unknown.len() ==> classify_view(lookup, #[trigger] self.unknown[i].0)
                == ClassificationView::Unknown
        &&& forall|i: int| 0 <= i < self.unknown.len() ==> (#[trigger] self.unknown[i]).1.len() > 0
    }
}

impl ScanResult {
    /// An empty scan.
    pub fn new() -> (r: ScanResult)
        ensures
            r@.found == 0,
            r@.matched == 0,
            r@.unknown == Seq::<GroupView>::empty(),
    {
        let r = ScanResult { found: 0, matched: 0, unknown_genres: Vec::new() };
        assert(r@.unknown =~= Seq::<GroupView>::empty());
        r
    }

    /// The files that did not match: found minus matched.
    pub fn unmatched(&self) -> (r: usize)
        requires
            self.matched <= self.found,
        ensures
            r == self.found - self.matched,
    {
        self.found - self.matched
    }

    /// Records one MP3 file at `path` whose genre tag is `genre` (`None` for a
    /// file without tags) and returns its classification (`None` for a file
    /// without tags).
    pub fn record(&mut self, path: String, genre: Option<String>, taxonomy: &Taxonomy) -> (r: Option<
        Classification,
    >)
        requires
            old(self).found < usize::MAX,
            old(self)@.wf(taxonomy@.lookup),
        ensures
            final(self)@ == recorded(
                old(self)@,
                taxonomy@.lookup,
                path@,
                match genre {
                    Some(g) => Some(g@),
                    None => None,
                },
            ),
            final(self)@.wf(taxonomy@.lookup),
            match genre {
                None => r is None,
                Some(g) => r matches Some(c) && c@ == classify_view(taxonomy@.lookup, g@),
            },
    {
        self.found = self.found + 1;
        match genre {
            None => None,
            Some(g) => {
                let c = taxonomy.classify(g.as_str());
                match &c {
                    Classification::AlreadyCanonical => {
                        self.matched = self.matched + 1;
                    },
                    Classification::Mapped { .. } => {
                        self.matched = self.matched + 1;
                    },
                    Classification::Unknown => {
                        self.file_unknown(g, path);
                    },
                    Classification::Empty => {},
                }
                Some(c)
            },
        }
    }

    /// Files `path` under the unknown genre `genre`.
    fn file_unknown(&mut self, genre: String, path: String)
        requires
            forall|i: int, j: int|
                0 <= i < j < old(self)@.unknown.len() ==> #[trigger] old(self)@.unknown[i].0
                    != #[trigger] old(self)@.unknown[j].0,
        ensures
            final(self)@ == (ScanResultView {
                unknown: file_under(old(self)@.unknown, genre@, path@),
                ..old(self)@
            }),
    {
        let ghost groups = self@.unknown;
        let mut i: usize = 0;
        while i < self.unknown_genres.len()
            invariant
                groups == self@.unknown,
                i <= groups.len(),
                self@ == old(self)@,
                forall|k: int| 0 <= k < i ==> groups[k].0 != genre@,
                forall|a: int, b: int|
                    0 <= a < b < groups.len() ==> #[trigger] groups[a].0 != #[trigger] groups[b].0,
            decreases groups.len() - i,
        {
            if self.unknown_genres[i].genre == genre {
                assert(groups[i as int].0 == genre@);
                assert(has_group(groups, genre@));
                let ghost k = group_of(groups, genre@);
                assert(k == i) by {
                    if k != i {
                        if k < i {
                            assert(groups[k].0 != genre@);
                        } else {
                            assert(groups[i as int].0 != groups[k].0);
                        }
                    }
                }
                let ghost files_before = self.unknown_genres[i as int].files.deep_view();
                let mut group = self.unknown_genres.remove(i);
                group.files.push(path);
                assert(group.files.deep_view() =~= files_before.push(path@));
                self.unknown_genres.insert(i, group);
                assert(self@.unknown =~= file_under(groups, genre@, path@));
                return;
            }
            i = i + 1;
        }
        let mut files: Vec<String> = Vec::new();
        files.push(path);
        self.unknown_genres.push(UnknownGenre { genre, files });
        assert(!has_group(groups, genre@));
        assert(self@.unknown =~= file_under(groups, genre@, path@)) by {
            assert(self@.unknown[groups.len() as int].1 =~= seq![path@]);
        }
    }
}

} // verus!
