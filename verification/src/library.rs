//! The catalog of scanned tracks: an ordered sequence of `Song` records in
//! which a path occurs at most once. The sequence itself is the enumeration
//! order; the path-keyed mapping of the catalog is derived from it
//! (`catalog_map`), so the two views cannot drift apart.

use vstd::prelude::*;
use crate::sort::insert_by_key;
use crate::sort::insert_sorted;
use crate::sort::sort_spec;
use crate::text::contains_seq;
use crate::text::lower_of;
use crate::text::lowercase;
use crate::text::matches_at;
use crate::text::str_contains;
use crate::track::Song;

verus! {

/// Paths are unique across the catalog.
pub open spec fn wf_songs(songs: Seq<Song>) -> bool {
    forall|i: int, j: int|
        0 <= i < j < songs.len() ==> (#[trigger] songs[i]).file_path@ != (
        #[trigger] songs[j]).file_path@
}

/// Some entry holds the path `p`.
pub open spec fn has_path(songs: Seq<Song>, p: Seq<char>) -> bool {
    exists|i: int| 0 <= i < songs.len() && (#[trigger] songs[i]).file_path@ == p
}

/// The enumeration order of the catalog, as paths.
pub open spec fn path_seq(songs: Seq<Song>) -> Seq<Seq<char>> {
    songs.map_values(|s: Song| s.file_path@)
}

/// The first index holding path `p`, or -1 when no entry does.
pub open spec fn find_path(songs: Seq<Song>, p: Seq<char>) -> int
    decreases songs.len(),
{
    if songs.len() == 0 {
        -1
    } else if songs[0].file_path@ == p {
        0
    } else {
        let r = find_path(songs.drop_first(), p);
        if r == -1 {
            -1
        } else {
            r + 1
        }
    }
}

pub proof fn lemma_find_path(songs: Seq<Song>, p: Seq<char>)
    ensures
        find_path(songs, p) == -1 <==> !has_path(songs, p),
        find_path(songs, p) != -1 ==> {
            let r = find_path(songs, p);
            &&& 0 <= r < songs.len()
            &&& songs[r].file_path@ == p
            &&& forall|k: int| 0 <= k < r ==> (#[trigger] songs[k]).file_path@ != p
        },
    decreases songs.len(),
{
    if songs.len() == 0 {
    } else if songs[0].file_path@ == p {
    } else {
        let rest = songs.drop_first();
        lemma_find_path(rest, p);
        assert(forall|k: int| 0 <= k < rest.len() ==> rest[k] == songs[k + 1]);
        if find_path(songs, p) == -1 {
            assert forall|i: int|
                0 <= i < songs.len() implies (#[trigger] songs[i]).file_path@ != p by {
                if i > 0 {
                    assert(rest[i - 1] == songs[i]);
                }
            }
        } else {
            let r = find_path(songs, p);
            assert(rest[r - 1] == songs[r]);
            assert forall|k: int| 0 <= k < r implies (#[trigger] songs[k]).file_path@ != p by {
                if k > 0 {
                    assert(rest[k - 1] == songs[k]);
                }
            }
        }
    }
}

/// The catalog after an insertion: the first entry with the same path is
/// replaced in place, otherwise the track is appended at the end.
pub open spec fn spec_add(songs: Seq<Song>, song: Song) -> Seq<Song> {
    let i = find_path(songs, song.file_path@);
    if i == -1 {
        songs.push(song)
    } else {
        songs.update(i, song)
    }
}

/// The titles that match a query, given in its folded (lowercase) form.
pub open spec fn title_matches(folded_query: Seq<char>) -> spec_fn(Song) -> bool {
    |s: Song| contains_seq(lower_of(s.title@), folded_query)
}

/// The search result for a folded query: the matching tracks, in catalog
/// order.
pub open spec fn search_spec(songs: Seq<Song>, folded_query: Seq<char>) -> Seq<Song> {
    songs.filter(title_matches(folded_query))
}

/// The path-keyed mapping of the catalog, derived from the sequence.
pub open spec fn catalog_map(songs: Seq<Song>) -> Map<Seq<char>, Song> {
    Map::new(|p: Seq<char>| has_path(songs, p), |p: Seq<char>| songs[find_path(songs, p)])
}

proof fn lemma_filter_all(s: Seq<Song>, q: spec_fn(Song) -> bool)
    requires
        forall|k: int| 0 <= k < s.len() ==> q(#[trigger] s[k]),
    ensures
        s.filter(q) == s,
    decreases s.len(),
{
    reveal_with_fuel(Seq::filter, 2);
    if s.len() != 0 {
        assert(forall|k: int| 0 <= k < s.drop_last().len() ==> s.drop_last()[k] == s[k]);
        lemma_filter_all(s.drop_last(), q);
        assert(s.filter(q) =~= s);
    } else {
        assert(s.filter(q) =~= s);
    }
}

/// The catalog of discovered tracks, in enumeration order.
pub struct Library {
    songs: Vec<Song>,
}

impl View for Library {
    type V = Seq<Song>;

    closed spec fn view(&self) -> Seq<Song> {
        self.songs@
    }
}

impl Library {
    /// Paths are unique across the catalog.
    pub open spec fn wf(self) -> bool {
        wf_songs(self@)
    }

    /// An empty catalog, to be filled by a scan.
    pub fn new() -> (lib: Library)
        ensures
            lib@ == Seq::<Song>::empty(),
            lib.wf(),
    {
        Library { songs: Vec::new() }
    }

    /// Insert one track. A track whose path is already present replaces
    /// the prior entry in place, so the enumeration order never holds a
    /// path twice; a new path is appended at the end.
    pub fn add_song(&mut self, song: Song)
        ensures
            final(self)@ == spec_add(old(self)@, song),
            old(self).wf() ==> final(self).wf(),
    {
        let n = self.songs.len();
        let mut i: usize = 0;
        while i < n
            invariant
                i <= n,
                n == self@.len(),
                self@ == old(self)@,
                forall|k: int| 0 <= k < i ==> (#[trigger] self@[k]).file_path@ != song.file_path@,
            decreases n - i,
        {
            if self.songs[i].file_path == song.file_path {
                proof {
                    assert(self@[i as int].file_path@ == song.file_path@);
                    lemma_find_path(self@, song.file_path@);
                    let r = find_path(self@, song.file_path@);
                    assert(r != -1);
                    assert(r == i as int) by {
                        if r < i as int {
                            assert(self@[r].file_path@ != song.file_path@);
                        }
                        if r > i as int {
                            assert(self@[i as int].file_path@ != song.file_path@);
                        }
                    }
                    if old(self).wf() {
                        let out = self@.update(i as int, song);
                        assert forall|a: int, b: int|
                            0 <= a < b < out.len() implies (#[trigger] out[a]).file_path@ != (
                        #[trigger] out[b]).file_path@ by {
                            assert(self@[a].file_path@ != self@[b].file_path@);
                        }
                    }
                }
                self.songs.set(i, song);
                return;
            }
            i += 1;
        }
        proof {
            lemma_find_path(self@, song.file_path@);
            if has_path(self@, song.file_path@) {
                let j = choose|j: int|
                    0 <= j < self@.len() && (#[trigger] self@[j]).file_path@ == song.file_path@;
                assert(self@[j].file_path@ != song.file_path@);
            }
            assert(find_path(self@, song.file_path@) == -1);
            if old(self).wf() {
                let out = self@.push(song);
                assert forall|a: int, b: int|
                    0 <= a < b < out.len() implies (#[trigger] out[a]).file_path@ != (
                #[trigger] out[b]).file_path@ by {
                    if b == self@.len() {
                        assert(out[a] == self@[a]);
                        assert(self@[a].file_path@ != song.file_path@);
                    } else {
                        assert(out[a] == self@[a] && out[b] == self@[b]);
                    }
                }
            }
        }
        self.songs.push(song);
    }

    /// The tracks in the current enumeration order.
    pub fn get_sorted_songs(&self) -> (r: &Vec<Song>)
        ensures
            r@ == self@,
    {
        &self.songs
    }

    /// Case-insensitive substring search over titles, in catalog order.
    /// The empty query matches every track, so it returns the whole
    /// catalog, each track exactly once, in order.
    pub fn search_by_title(&self, query: &str) -> (r: Vec<Song>)
        ensures
            r@ == search_spec(self@, lower_of(query@)),
            query@.len() == 0 ==> r@ == self@,
    {
        let q = lowercase(query);
        let mut out: Vec<Song> = Vec::new();
        let n = self.songs.len();
        proof {
            reveal_with_fuel(Seq::filter, 2);
            assert(self@.take(0) =~= Seq::<Song>::empty());
            assert(out@ =~= search_spec(self@.take(0), q@));
        }
        let mut i: usize = 0;
        while i < n
            invariant
                i <= n,
                n == self@.len(),
                q@ == lower_of(query@),
                out@ == search_spec(self@.take(i as int), q@),
            decreases n - i,
        {
            let folded = lowercase(self.songs[i].title.as_str());
            if str_contains(folded.as_str(), q.as_str()) {
                out.push(self.songs[i].clone());
            }
            proof {
                reveal_with_fuel(Seq::filter, 2);
                assert(self@.take(i + 1).drop_last() =~= self@.take(i as int));
                assert(self@.take(i + 1).last() == self@[i as int]);
            }
            i += 1;
        }
        proof {
            assert(self@.take(n as int) =~= self@);
            if query@.len() == 0 {
                assert(q@ =~= Seq::<char>::empty());
                assert forall|k: int|
                    0 <= k < self@.len() implies title_matches(q@)(#[trigger] self@[k]) by {
                    assert(matches_at(lower_of(self@[k].title@), q@, 0));
                }
                lemma_filter_all(self@, title_matches(q@));
            }
        }
        out
    }

    /// Reorder the catalog by ascending album, ties by ascending track
    /// number with absent numbers last; tracks that compare equal keep
    /// their relative order (see `lemma_sort_stable`).
    pub fn sort_by_album(&mut self)
        ensures
            final(self)@ == sort_spec(old(self)@),
            old(self).wf() ==> final(self).wf(),
    {
        let n = self.songs.len();
        let mut out: Vec<Song> = Vec::new();
        proof {
            assert(self@.take(0) =~= Seq::<Song>::empty());
        }
        let mut i: usize = 0;
        while i < n
            invariant
                i <= n,
                n == self@.len(),
                self@ == old(self)@,
                out@ == sort_spec(self@.take(i as int)),
            decreases n - i,
        {
            let song = self.songs[i].clone();
            insert_by_key(&mut out, song);
            proof {
                assert(self@.take(i + 1).drop_last() =~= self@.take(i as int));
                assert(self@.take(i + 1).last() == self@[i as int]);
            }
            i += 1;
        }
        proof {
            assert(self@.take(n as int) =~= self@);
            if old(self).wf() {
                lemma_sort_preserves_wf(self@);
            }
        }
        self.songs = out;
    }
}

/// Inserting a track whose path is fresh keeps paths unique, and the
/// paths present afterwards are the run's plus the new one.
proof fn lemma_insert_sorted_wf(x: Song, s: Seq<Song>)
    requires
        wf_songs(s),
        !has_path(s, x.file_path@),
    ensures
        wf_songs(insert_sorted(x, s)),
        forall|p: Seq<char>|
            #[trigger] has_path(insert_sorted(x, s), p) <==> (p == x.file_path@ || has_path(s, p)),
    decreases s.len(),
{
    crate::sort::lemma_insert_sorted_len(x, s);
    let out = insert_sorted(x, s);
    if s.len() == 0 {
        assert forall|p: Seq<char>|
            #[trigger] has_path(out, p) <==> (p == x.file_path@ || has_path(s, p)) by {
            assert(out[0] == x);
        }
    } else if crate::order::song_lt(x, s[0]) {
        assert(out =~= seq![x] + s);
        assert forall|i: int, j: int|
            0 <= i < j < out.len() implies (#[trigger] out[i]).file_path@ != (
        #[trigger] out[j]).file_path@ by {
            if i == 0 {
                assert(out[j] == s[j - 1]);
            } else {
                assert(out[i] == s[i - 1] && out[j] == s[j - 1]);
            }
        }
        assert forall|p: Seq<char>|
            #[trigger] has_path(out, p) <==> (p == x.file_path@ || has_path(s, p)) by {
            if has_path(out, p) {
                let i = choose|i: int| 0 <= i < out.len() && out[i].file_path@ == p;
                if i > 0 {
                    assert(s[i - 1].file_path@ == p);
                }
            }
            if p == x.file_path@ {
                assert(out[0].file_path@ == p);
            }
            if has_path(s, p) {
                let i = choose|i: int| 0 <= i < s.len() && s[i].file_path@ == p;
                assert(out[i + 1].file_path@ == p);
            }
        }
    } else {
        let rest = s.drop_first();
        let t = insert_sorted(x, rest);
        crate::sort::lemma_insert_sorted_len(x, rest);
        assert(forall|k: int| 0 <= k < rest.len() ==> rest[k] == s[k + 1]);
        assert(wf_songs(rest));
        assert(!has_path(rest, x.file_path@)) by {
            if has_path(rest, x.file_path@) {
                let i = choose|i: int| 0 <= i < rest.len() && rest[i].file_path@ == x.file_path@;
                assert(s[i + 1].file_path@ == x.file_path@);
            }
        }
        lemma_insert_sorted_wf(x, rest);
        assert(out =~= seq![s[0]] + t);
        assert forall|i: int, j: int|
            0 <= i < j < out.len() implies (#[trigger] out[i]).file_path@ != (
        #[trigger] out[j]).file_path@ by {
            if i == 0 {
                assert(out[j] == t[j - 1]);
                assert(has_path(t, t[j - 1].file_path@));
                if t[j - 1].file_path@ == s[0].file_path@ {
                    assert(s[0].file_path@ != x.file_path@);
                    let m = choose|m: int|
                        0 <= m < rest.len() && rest[m].file_path@ == s[0].file_path@;
                    assert(s[m + 1].file_path@ == s[0].file_path@);
                }
            } else {
                assert(out[i] == t[i - 1] && out[j] == t[j - 1]);
            }
        }
        assert forall|p: Seq<char>|
            #[trigger] has_path(out, p) <==> (p == x.file_path@ || has_path(s, p)) by {
            if has_path(out, p) {
                let i = choose|i: int| 0 <= i < out.len() && out[i].file_path@ == p;
                if i == 0 {
                    assert(s[0].file_path@ == p);
                } else {
                    assert(t[i - 1].file_path@ == p);
                    assert(has_path(t, p));
                    if has_path(rest, p) {
                        let m = choose|m: int| 0 <= m < rest.len() && rest[m].file_path@ == p;
                        assert(s[m + 1].file_path@ == p);
                    }
                }
            }
            if p == x.file_path@ {
                assert(has_path(t, p));
                let m = choose|m: int| 0 <= m < t.len() && t[m].file_path@ == p;
                assert(out[m + 1].file_path@ == p);
            }
            if has_path(s, p) {
                let i = choose|i: int| 0 <= i < s.len() && s[i].file_path@ == p;
                if i == 0 {
                    assert(out[0].file_path@ == p);
                } else {
                    assert(rest[i - 1].file_path@ == p);
                    assert(has_path(rest, p));
                    assert(has_path(t, p));
                    let m = choose|m: int| 0 <= m < t.len() && t[m].file_path@ == p;
                    assert(out[m + 1].file_path@ == p);
                }
            }
        }
    }
}

/// Sorting neither loses, invents nor duplicates a path: the sorted
/// catalog holds exactly the paths of the unsorted one, each once.
pub proof fn lemma_sort_preserves_wf(s: Seq<Song>)
    requires
        wf_songs(s),
    ensures
        wf_songs(sort_spec(s)),
        forall|p: Seq<char>| #[trigger] has_path(sort_spec(s), p) <==> has_path(s, p),
    decreases s.len(),
{
    if s.len() != 0 {
        let front = s.drop_last();
        assert(forall|k: int| 0 <= k < front.len() ==> front[k] == s[k]);
        assert(wf_songs(front));
        lemma_sort_preserves_wf(front);
        assert(!has_path(sort_spec(front), s.last().file_path@)) by {
            if has_path(front, s.last().file_path@) {
                let i = choose|i: int|
                    0 <= i < front.len() && front[i].file_path@ == s.last().file_path@;
                assert(s[i].file_path@ == s[s.len() - 1].file_path@);
            }
        }
        lemma_insert_sorted_wf(s.last(), sort_spec(front));
        assert forall|p: Seq<char>|
            #[trigger] has_path(sort_spec(s), p) <==> has_path(s, p) by {
            if p == s.last().file_path@ {
                assert(s[s.len() - 1].file_path@ == p);
            }
            if has_path(front, p) {
                let i = choose|i: int| 0 <= i < front.len() && front[i].file_path@ == p;
                assert(s[i].file_path@ == p);
            }
            if has_path(s, p) {
                let i = choose|i: int| 0 <= i < s.len() && s[i].file_path@ == p;
                if i < s.len() - 1 {
                    assert(front[i].file_path@ == p);
                }
            }
        }
    }
}

/// The derived mapping and the ordered sequence agree: same cardinality,
/// same set of paths, and the mapping returns each entry of the sequence
/// under its own path.
pub proof fn lemma_catalog_consistent(songs: Seq<Song>)
    requires
        wf_songs(songs),
    ensures
        catalog_map(songs).dom() =~= path_seq(songs).to_set(),
        catalog_map(songs).dom().len() == songs.len(),
        forall|i: int|
            0 <= i < songs.len() ==> catalog_map(songs)[(#[trigger] songs[i]).file_path@] == songs[i],
{
    broadcast use vstd::seq_lib::group_seq_properties;

    let paths = path_seq(songs);
    assert(paths.len() == songs.len());
    assert forall|p: Seq<char>|
        #[trigger] catalog_map(songs).dom().contains(p) <==> paths.to_set().contains(p) by {
        if has_path(songs, p) {
            let i = choose|i: int| 0 <= i < songs.len() && songs[i].file_path@ == p;
            assert(paths[i] == p);
        }
        if paths.contains(p) {
            let i = choose|i: int| 0 <= i < paths.len() && paths[i] == p;
            assert(songs[i].file_path@ == p);
        }
    }
    assert(paths.no_duplicates()) by {
        assert(forall|i: int| 0 <= i < songs.len() ==> paths[i] == (#[trigger] songs[i]).file_path@);
    }
    paths.unique_seq_to_set();
    assert(catalog_map(songs).dom() =~= paths.to_set());
    assert forall|i: int|
        0 <= i < songs.len() implies catalog_map(songs)[(#[trigger] songs[i]).file_path@]
        == songs[i] by {
        let p = songs[i].file_path@;
        lemma_find_path(songs, p);
        let r = find_path(songs, p);
        assert(r != -1);
        assert(r == i) by {
            if r < i {
                assert(songs[r].file_path@ != songs[i].file_path@);
            }
            if r > i {
                assert(songs[i].file_path@ != p);
            }
        }
    }
}

/// Searching is insensitive to the case of the query: two queries with the
/// same folded form select exactly the same tracks, in the same order.
pub proof fn lemma_search_case_insensitive(songs: Seq<Song>, q1: Seq<char>, q2: Seq<char>)
    ensures
        lower_of(q1) == lower_of(q2) ==> search_spec(songs, lower_of(q1)) == search_spec(
            songs,
            lower_of(q2),
        ),
{
}

} // verus!
