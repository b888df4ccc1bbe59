//! The sort key order for the catalog: ascending album (lexicographic by
//! character), ties broken by ascending track number, where a track
//! without a number sorts after every track with one.

use vstd::prelude::*;
use crate::track::Song;

verus! {

/// Three-way lexicographic comparison of character sequences: -1, 0 or 1.
pub open spec fn chars_cmp(a: Seq<char>, b: Seq<char>) -> int
    decreases a.len(),
{
    if a.len() == 0 && b.len() == 0 {
        0
    } else if a.len() == 0 {
        -1
    } else if b.len() == 0 {
        1
    } else if a[0] < b[0] {
        -1
    } else if b[0] < a[0] {
        1
    } else {
        chars_cmp(a.drop_first(), b.drop_first())
    }
}

/// Three-way comparison of optional track numbers: absence is greatest.
pub open spec fn track_cmp(a: Option<u32>, b: Option<u32>) -> int {
    match (a, b) {
        (None, None) => 0,
        (Some(_), None) => -1,
        (None, Some(_)) => 1,
        (Some(x), Some(y)) => if x < y {
            -1
        } else if y < x {
            1
        } else {
            0
        },
    }
}

/// Three-way comparison of two tracks under the album sort key.
pub open spec fn song_cmp(a: Song, b: Song) -> int {
    let c = chars_cmp(a.album@, b.album@);
    if c != 0 {
        c
    } else {
        track_cmp(a.track_number, b.track_number)
    }
}

/// `a` sorts strictly before `b`.
pub open spec fn song_lt(a: Song, b: Song) -> bool {
    song_cmp(a, b) < 0
}

/// `a` sorts no later than `b`.
pub open spec fn song_le(a: Song, b: Song) -> bool {
    song_cmp(a, b) <= 0
}

/// The comparison takes only the values -1, 0 and 1.
pub proof fn lemma_chars_cmp_range(a: Seq<char>, b: Seq<char>)
    ensures
        -1 <= chars_cmp(a, b) <= 1,
    decreases a.len(),
{
    if a.len() != 0 && b.len() != 0 && !(a[0] < b[0]) && !(b[0] < a[0]) {
        lemma_chars_cmp_range(a.drop_first(), b.drop_first());
    }
}

/// Comparing in the other direction flips the sign.
pub proof fn lemma_chars_cmp_antisym(a: Seq<char>, b: Seq<char>)
    ensures
        chars_cmp(a, b) == -chars_cmp(b, a),
    decreases a.len(),
{
    if a.len() != 0 && b.len() != 0 && !(a[0] < b[0]) && !(b[0] < a[0]) {
        lemma_chars_cmp_antisym(a.drop_first(), b.drop_first());
    }
}

/// The comparison is 0 exactly on equal sequences.
pub proof fn lemma_chars_cmp_eq(a: Seq<char>, b: Seq<char>)
    ensures
        chars_cmp(a, b) == 0 <==> a == b,
    decreases a.len(),
{
    if a.len() == 0 && b.len() == 0 {
        assert(a =~= b);
    } else if a.len() != 0 && b.len() != 0 && !(a[0] < b[0]) && !(b[0] < a[0]) {
        lemma_chars_cmp_eq(a.drop_first(), b.drop_first());
        if chars_cmp(a, b) == 0 {
            assert(a =~= b) by {
                assert(a.drop_first() == b.drop_first());
                assert(forall|i: int| 1 <= i < a.len() ==> a[i] == a.drop_first()[i - 1]);
            }
        }
        if a == b {
            assert(a.drop_first() =~= b.drop_first());
        }
    } else {
        if a == b {
            assert(a.len() == b.len());
        }
    }
}

/// Strict lexicographic order is transitive.
pub proof fn lemma_chars_cmp_lt_trans(a: Seq<char>, b: Seq<char>, c: Seq<char>)
    requires
        chars_cmp(a, b) < 0,
        chars_cmp(b, c) < 0,
    ensures
        chars_cmp(a, c) < 0,
    decreases a.len(),
{
    if a.len() == 0 {
        assert(b.len() != 0);
        assert(c.len() != 0);
    } else {
        assert(b.len() != 0);
        assert(c.len() != 0);
        if a[0] == b[0] && b[0] == c[0] {
            lemma_chars_cmp_lt_trans(a.drop_first(), b.drop_first(), c.drop_first());
        }
    }
}

/// The track order takes only the values -1, 0 and 1, flips with its
/// arguments, is 0 exactly on equal values, and is transitive.
pub proof fn lemma_track_cmp_props(a: Option<u32>, b: Option<u32>)
    ensures
        -1 <= track_cmp(a, b) <= 1,
        track_cmp(a, b) == -track_cmp(b, a),
        track_cmp(a, b) == 0 <==> a == b,
{
}

/// The song order flips with its arguments; so two tracks can always be
/// ordered one way or the other.
pub proof fn lemma_song_cmp_antisym(a: Song, b: Song)
    ensures
        song_cmp(a, b) == -song_cmp(b, a),
{
    lemma_chars_cmp_antisym(a.album@, b.album@);
    lemma_track_cmp_props(a.track_number, b.track_number);
}

/// Transitivity of the song order, in the forms the sort proofs need:
/// weak with weak, and strictness carried through either side.
pub proof fn lemma_song_cmp_trans(a: Song, b: Song, c: Song)
    requires
        song_cmp(a, b) <= 0,
        song_cmp(b, c) <= 0,
    ensures
        song_cmp(a, c) <= 0,
        song_cmp(a, b) < 0 || song_cmp(b, c) < 0 ==> song_cmp(a, c) < 0,
{
    lemma_chars_cmp_range(a.album@, b.album@);
    lemma_chars_cmp_range(b.album@, c.album@);
    lemma_chars_cmp_range(a.album@, c.album@);
    lemma_chars_cmp_eq(a.album@, b.album@);
    lemma_chars_cmp_eq(b.album@, c.album@);
    lemma_chars_cmp_eq(a.album@, c.album@);
    lemma_track_cmp_props(a.track_number, b.track_number);
    lemma_track_cmp_props(b.track_number, c.track_number);
    lemma_track_cmp_props(a.track_number, c.track_number);
    if chars_cmp(a.album@, b.album@) < 0 && chars_cmp(b.album@, c.album@) < 0 {
        lemma_chars_cmp_lt_trans(a.album@, b.album@, c.album@);
    }
}

/// Exec comparison of two strings under the lexicographic order.
pub fn str_cmp(a: &str, b: &str) -> (r: i32)
    ensures
        r as int == chars_cmp(a@, b@),
{
    let an = a.unicode_len();
    let bn = b.unicode_len();
    let mut i: usize = 0;
    proof {
        assert(a@.skip(0) =~= a@);
        assert(b@.skip(0) =~= b@);
    }
    loop
        invariant
            i <= an,
            i <= bn,
            an == a@.len(),
            bn == b@.len(),
            chars_cmp(a@, b@) == chars_cmp(a@.skip(i as int), b@.skip(i as int)),
        decreases an - i,
    {
        proof {
            if i < an {
                assert(a@.skip(i as int)[0] == a@[i as int]);
                assert(a@.skip(i as int).drop_first() =~= a@.skip(i as int + 1));
            }
            if i < bn {
                assert(b@.skip(i as int)[0] == b@[i as int]);
                assert(b@.skip(i as int).drop_first() =~= b@.skip(i as int + 1));
            }
        }
        if i == an && i == bn {
            return 0;
        }
        if i == an {
            return -1;
        }
        if i == bn {
            return 1;
        }
        let ca = a.get_char(i);
        let cb = b.get_char(i);
        if ca < cb {
            return -1;
        }
        if cb < ca {
            return 1;
        }
        i += 1;
    }
}

/// Exec comparison of two tracks under the album sort key.
pub fn song_cmp_exec(a: &Song, b: &Song) -> (r: i32)
    ensures
        r as int == song_cmp(*a, *b),
{
    let c = str_cmp(a.album.as_str(), b.album.as_str());
    if c != 0 {
        return c;
    }
    match (a.track_number, b.track_number) {
        (None, None) => 0,
        (Some(_), None) => -1,
        (None, Some(_)) => 1,
        (Some(x), Some(y)) => {
            if x < y {
                -1
            } else if y < x {
                1
            } else {
                0
            }
        },
    }
}

} // verus!
