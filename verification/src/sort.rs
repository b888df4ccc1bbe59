//! The stable sort of the catalog order: a track is inserted after every
//! track whose key is less than or equal to its own, so tracks with equal
//! keys keep their relative order. `sort_spec` is the mathematical form of
//! the sort; the exec code in `library` is proved equal to it.

use vstd::prelude::*;
use crate::order::lemma_song_cmp_antisym;
use crate::order::lemma_song_cmp_trans;
use crate::order::song_cmp;
use crate::order::song_cmp_exec;
use crate::order::song_le;
use crate::order::song_lt;
use crate::track::Song;

verus! {

/// `x` placed into the run `s`: before the first element strictly greater
/// under the album key, after every element less than or equal to it.
pub open spec fn insert_sorted(x: Song, s: Seq<Song>) -> Seq<Song>
    decreases s.len(),
{
    if s.len() == 0 {
        seq![x]
    } else if song_lt(x, s[0]) {
        seq![x] + s
    } else {
        seq![s[0]] + insert_sorted(x, s.drop_first())
    }
}

/// The stable sort of a catalog order under the album key.
pub open spec fn sort_spec(s: Seq<Song>) -> Seq<Song>
    decreases s.len(),
{
    if s.len() == 0 {
        Seq::empty()
    } else {
        insert_sorted(s.last(), sort_spec(s.drop_last()))
    }
}

/// Every pair of positions is ordered under the album key.
pub open spec fn sorted_le(s: Seq<Song>) -> bool {
    forall|i: int, j: int| 0 <= i < j < s.len() ==> song_le(s[i], s[j])
}

pub proof fn lemma_insert_sorted_len(x: Song, s: Seq<Song>)
    ensures
        insert_sorted(x, s).len() == s.len() + 1,
    decreases s.len(),
{
    if s.len() != 0 && !song_lt(x, s[0]) {
        lemma_insert_sorted_len(x, s.drop_first());
    }
}

/// Each element of the insertion's result is the inserted track or one of
/// the run's own.
pub proof fn lemma_insert_sorted_elems(x: Song, s: Seq<Song>)
    ensures
        forall|k: int|
            0 <= k < insert_sorted(x, s).len() ==> (insert_sorted(x, s)[k] == x || s.contains(
                insert_sorted(x, s)[k],
            )),
    decreases s.len(),
{
    if s.len() == 0 {
    } else if song_lt(x, s[0]) {
        assert forall|k: int| 0 <= k < insert_sorted(x, s).len() implies (insert_sorted(x, s)[k]
            == x || s.contains(insert_sorted(x, s)[k])) by {
            if k > 0 {
                assert(insert_sorted(x, s)[k] == s[k - 1]);
            }
        }
    } else {
        lemma_insert_sorted_elems(x, s.drop_first());
        let t = insert_sorted(x, s.drop_first());
        assert forall|k: int| 0 <= k < insert_sorted(x, s).len() implies (insert_sorted(x, s)[k]
            == x || s.contains(insert_sorted(x, s)[k])) by {
            if k == 0 {
                assert(s.contains(s[0]));
            } else {
                assert(insert_sorted(x, s)[k] == t[k - 1]);
                if t[k - 1] == x {
                } else {
                    let m = choose|m: int|
                        0 <= m < s.drop_first().len() && s.drop_first()[m] == t[k - 1];
                    assert(s[m + 1] == t[k - 1]);
                }
            }
        }
    }
}

/// If everything before position `j` lets `x` pass and position `j` (or the
/// run's end) stops it, the insertion lands exactly at `j`.
pub proof fn lemma_insert_sorted_at(x: Song, s: Seq<Song>, j: int)
    requires
        0 <= j <= s.len(),
        forall|k: int| 0 <= k < j ==> !song_lt(x, s[k]),
        j == s.len() || song_lt(x, s[j]),
    ensures
        insert_sorted(x, s) == s.insert(j, x),
    decreases s.len(),
{
    if s.len() == 0 {
        assert(insert_sorted(x, s) =~= s.insert(0, x));
    } else if song_lt(x, s[0]) {
        assert(j == 0);
        assert(insert_sorted(x, s) =~= s.insert(0, x));
    } else {
        assert(j >= 1);
        lemma_insert_sorted_at(x, s.drop_first(), j - 1);
        assert(insert_sorted(x, s) =~= s.insert(j, x)) by {
            assert(forall|k: int|
                0 <= k < s.drop_first().len() ==> s.drop_first()[k] == s[k + 1]);
        }
    }
}

/// Inserting into a sorted run keeps it sorted.
pub proof fn lemma_insert_sorted_sorted(x: Song, s: Seq<Song>)
    requires
        sorted_le(s),
    ensures
        sorted_le(insert_sorted(x, s)),
    decreases s.len(),
{
    if s.len() == 0 {
    } else if song_lt(x, s[0]) {
        let out = seq![x] + s;
        assert forall|i: int, j: int| 0 <= i < j < out.len() implies song_le(out[i], out[j]) by {
            if i == 0 {
                assert(out[j] == s[j - 1]);
                if j > 1 {
                    assert(song_le(s[0], s[j - 1]));
                    lemma_song_cmp_trans(x, s[0], s[j - 1]);
                }
            } else {
                assert(out[i] == s[i - 1] && out[j] == s[j - 1]);
            }
        }
    } else {
        let t = insert_sorted(x, s.drop_first());
        assert(sorted_le(s.drop_first())) by {
            assert(forall|k: int|
                0 <= k < s.drop_first().len() ==> s.drop_first()[k] == s[k + 1]);
        }
        lemma_insert_sorted_sorted(x, s.drop_first());
        lemma_insert_sorted_elems(x, s.drop_first());
        let out = seq![s[0]] + t;
        assert forall|i: int, j: int| 0 <= i < j < out.len() implies song_le(out[i], out[j]) by {
            if i == 0 {
                assert(out[j] == t[j - 1]);
                if t[j - 1] == x {
                    lemma_song_cmp_antisym(x, s[0]);
                } else {
                    let m = choose|m: int|
                        0 <= m < s.drop_first().len() && s.drop_first()[m] == t[j - 1];
                    assert(s[m + 1] == t[j - 1]);
                }
            } else {
                assert(out[i] == t[i - 1] && out[j] == t[j - 1]);
            }
        }
    }
}

/// The sorted form of a run has the run's length and is sorted.
pub proof fn lemma_sort_spec_sorted(s: Seq<Song>)
    ensures
        sorted_le(sort_spec(s)),
        sort_spec(s).len() == s.len(),
    decreases s.len(),
{
    if s.len() != 0 {
        lemma_sort_spec_sorted(s.drop_last());
        lemma_insert_sorted_sorted(s.last(), sort_spec(s.drop_last()));
        lemma_insert_sorted_len(s.last(), sort_spec(s.drop_last()));
    }
}

/// Inserting a track that nothing in the run exceeds appends it.
pub proof fn lemma_insert_sorted_append(x: Song, s: Seq<Song>)
    requires
        forall|k: int| 0 <= k < s.len() ==> song_le(#[trigger] s[k], x),
    ensures
        insert_sorted(x, s) == s.push(x),
    decreases s.len(),
{
    if s.len() == 0 {
        assert(insert_sorted(x, s) =~= s.push(x));
    } else {
        assert(!song_lt(x, s[0])) by {
            lemma_song_cmp_antisym(x, s[0]);
        }
        assert(forall|k: int| 0 <= k < s.drop_first().len() ==> s.drop_first()[k] == s[k + 1]);
        lemma_insert_sorted_append(x, s.drop_first());
        assert(insert_sorted(x, s) =~= s.push(x));
    }
}

/// Sorting an already sorted run changes nothing.
pub proof fn lemma_sort_spec_of_sorted(s: Seq<Song>)
    requires
        sorted_le(s),
    ensures
        sort_spec(s) == s,
    decreases s.len(),
{
    if s.len() == 0 {
        assert(sort_spec(s) =~= s);
    } else {
        assert(sorted_le(s.drop_last())) by {
            assert(forall|k: int| 0 <= k < s.drop_last().len() ==> s.drop_last()[k] == s[k]);
        }
        lemma_sort_spec_of_sorted(s.drop_last());
        lemma_insert_sorted_append(s.last(), s.drop_last());
        assert(sort_spec(s) =~= s);
    }
}

/// Sorting is idempotent: sorting twice yields the same order as sorting
/// once.
pub proof fn lemma_sort_idempotent(s: Seq<Song>)
    ensures
        sort_spec(sort_spec(s)) == sort_spec(s),
{
    lemma_sort_spec_sorted(s);
    lemma_sort_spec_of_sorted(sort_spec(s));
}

/// The tracks whose sort key equals `p`'s, in order.
pub open spec fn keyed(p: Song) -> spec_fn(Song) -> bool {
    |e: Song| song_cmp(e, p) == 0
}

/// A run with no track of the key has an empty key slice.
proof fn lemma_filter_empty(s: Seq<Song>, q: spec_fn(Song) -> bool)
    requires
        forall|k: int| 0 <= k < s.len() ==> !q(#[trigger] s[k]),
    ensures
        s.filter(q) == Seq::<Song>::empty(),
    decreases s.len(),
{
    reveal_with_fuel(Seq::filter, 2);
    if s.len() != 0 {
        assert(forall|k: int| 0 <= k < s.drop_last().len() ==> s.drop_last()[k] == s[k]);
        lemma_filter_empty(s.drop_last(), q);
    }
}

/// Inserting a track appends it to its own key's slice and leaves every
/// other key's slice alone.
proof fn lemma_insert_sorted_filter(x: Song, s: Seq<Song>, p: Song)
    requires
        sorted_le(s),
    ensures
        song_cmp(x, p) == 0 ==> insert_sorted(x, s).filter(keyed(p)) == s.filter(keyed(p)).push(x),
        song_cmp(x, p) != 0 ==> insert_sorted(x, s).filter(keyed(p)) == s.filter(keyed(p)),
    decreases s.len(),
{
    broadcast use vstd::prelude::Seq::filter_distributes_over_add;
    broadcast use vstd::prelude::Seq::push_distributes_over_add;

    reveal_with_fuel(Seq::filter, 2);
    let q = keyed(p);
    if s.len() == 0 {
        assert(seq![x].drop_last() =~= Seq::<Song>::empty());
        if song_cmp(x, p) == 0 {
            assert(insert_sorted(x, s).filter(q) =~= s.filter(q).push(x));
        } else {
            assert(insert_sorted(x, s).filter(q) =~= s.filter(q));
        }
    } else if song_lt(x, s[0]) {
        assert(seq![x].drop_last() =~= Seq::<Song>::empty());
        if song_cmp(x, p) == 0 {
            assert forall|k: int| 0 <= k < s.len() implies !q(#[trigger] s[k]) by {
                if song_cmp(s[k], p) == 0 {
                    // x and s[k] would share p's key, yet x sorts strictly
                    // before s[0] and s[0] no later than s[k].
                    lemma_song_cmp_antisym(s[k], p);
                    lemma_song_cmp_antisym(x, p);
                    lemma_song_cmp_trans(x, p, s[k]);
                    lemma_song_cmp_trans(s[k], p, x);
                    lemma_song_cmp_antisym(s[k], x);
                    if k > 0 {
                        assert(song_le(s[0], s[k]));
                        lemma_song_cmp_trans(x, s[0], s[k]);
                    }
                }
            }
            lemma_filter_empty(s, q);
            assert(seq![x].filter(q) =~= Seq::<Song>::empty().push(x));
            assert(insert_sorted(x, s).filter(q) == seq![x].filter(q) + s.filter(q));
            assert(insert_sorted(x, s).filter(q) =~= s.filter(q).push(x));
        } else {
            assert(seq![x].filter(q) =~= Seq::<Song>::empty());
            assert(insert_sorted(x, s).filter(q) == seq![x].filter(q) + s.filter(q));
            assert(insert_sorted(x, s).filter(q) =~= s.filter(q));
        }
    } else {
        let rest = s.drop_first();
        assert(sorted_le(rest)) by {
            assert(forall|k: int| 0 <= k < rest.len() ==> rest[k] == s[k + 1]);
        }
        lemma_insert_sorted_filter(x, rest, p);
        assert(seq![s[0]].drop_last() =~= Seq::<Song>::empty());
        assert(s =~= seq![s[0]] + rest);
        assert(s.filter(q) == seq![s[0]].filter(q) + rest.filter(q));
        assert(insert_sorted(x, s).filter(q) == seq![s[0]].filter(q) + insert_sorted(
            x,
            rest,
        ).filter(q));
        if song_cmp(x, p) == 0 {
            assert(insert_sorted(x, s).filter(q) == seq![s[0]].filter(q) + rest.filter(q).push(x));
            assert(seq![s[0]].filter(q) + rest.filter(q).push(x) == (seq![s[0]].filter(q)
                + rest.filter(q)).push(x));
        }
    }
}

/// Inserting a track adds exactly that track to the run's multiset.
proof fn lemma_insert_sorted_multiset(x: Song, s: Seq<Song>)
    ensures
        insert_sorted(x, s).to_multiset() == s.to_multiset().insert(x),
    decreases s.len(),
{
    broadcast use vstd::seq_lib::to_multiset_insert;
    broadcast use vstd::multiset::group_multiset_axioms;

    if s.len() == 0 {
        assert(insert_sorted(x, s) =~= s.insert(0, x));
        assert(s.insert(0, x).to_multiset() == s.to_multiset().insert(x));
    } else if song_lt(x, s[0]) {
        assert(seq![x] + s =~= s.insert(0, x));
        assert(s.insert(0, x).to_multiset() == s.to_multiset().insert(x));
    } else {
        let rest = s.drop_first();
        let t = insert_sorted(x, rest);
        lemma_insert_sorted_multiset(x, rest);
        assert(seq![s[0]] + t =~= t.insert(0, s[0]));
        assert(t.insert(0, s[0]).to_multiset() == t.to_multiset().insert(s[0]));
        assert(s =~= rest.insert(0, s[0]));
        assert(rest.insert(0, s[0]).to_multiset() == rest.to_multiset().insert(s[0]));
        assert(rest.to_multiset().insert(x).insert(s[0]) =~= rest.to_multiset().insert(
            s[0],
        ).insert(x));
    }
}

/// Sorting permutes the catalog: no track is lost, invented or duplicated.
pub proof fn lemma_sort_permutation(s: Seq<Song>)
    ensures
        sort_spec(s).to_multiset() == s.to_multiset(),
    decreases s.len(),
{
    broadcast use vstd::seq_lib::to_multiset_build;

    if s.len() == 0 {
        assert(sort_spec(s) =~= s);
    } else {
        lemma_sort_permutation(s.drop_last());
        lemma_insert_sorted_multiset(s.last(), sort_spec(s.drop_last()));
        assert(s =~= s.drop_last().push(s.last()));
        assert(s.drop_last().push(s.last()).to_multiset() =~= s.drop_last().to_multiset().insert(
            s.last(),
        ));
        assert(sort_spec(s) == insert_sorted(s.last(), sort_spec(s.drop_last())));
        assert(sort_spec(s).to_multiset() == sort_spec(s.drop_last()).to_multiset().insert(
            s.last(),
        ));
        assert(sort_spec(s).to_multiset() == s.drop_last().to_multiset().insert(s.last()));
    }
}

/// Stability: sorting keeps the tracks of every sort key in their original
/// relative order — the key's slice of the sorted order is exactly the
/// key's slice of the original order.
pub proof fn lemma_sort_stable(s: Seq<Song>, p: Song)
    ensures
        sort_spec(s).filter(keyed(p)) == s.filter(keyed(p)),
    decreases s.len(),
{
    reveal_with_fuel(Seq::filter, 2);
    let q = keyed(p);
    if s.len() == 0 {
        assert(sort_spec(s).filter(q) =~= s.filter(q));
    } else {
        lemma_sort_stable(s.drop_last(), p);
        lemma_sort_spec_sorted(s.drop_last());
        lemma_insert_sorted_filter(s.last(), sort_spec(s.drop_last()), p);
    }
}

/// Exec insertion of one track into a sorted run, at the position the
/// mathematical insertion gives it.
pub fn insert_by_key(v: &mut Vec<Song>, x: Song)
    ensures
        final(v)@ == insert_sorted(x, old(v)@),
{
    let j = find_insert_pos(v, &x);
    proof {
        lemma_insert_sorted_at(x, v@, j as int);
    }
    v.insert(j, x);
}

/// The first position whose track is strictly greater than `x` under the
/// album key, or the run's length if there is none.
fn find_insert_pos(v: &Vec<Song>, x: &Song) -> (j: usize)
    ensures
        j <= v@.len(),
        forall|k: int| 0 <= k < j ==> !song_lt(*x, v@[k]),
        j == v@.len() || song_lt(*x, v@[j as int]),
{
    let n = v.len();
    let mut j: usize = 0;
    while j < n
        invariant
            j <= n,
            n == v@.len(),
            forall|k: int| 0 <= k < j ==> !song_lt(*x, v@[k]),
        decreases n - j,
    {
        if song_cmp_exec(x, &v[j]) < 0 {
            return j;
        }
        j += 1;
    }
    j
}

} // verus!
