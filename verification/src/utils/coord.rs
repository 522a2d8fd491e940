//! Grid geometry: rows, columns, 3×3 boxes and the peers of a square.
//!
//! A position is a pair `(row, column)`, both in `0..9`. The peers of a
//! square are the twenty other squares that share its row, its column or its
//! box; they are enumerated in a fixed order: the eight others of the row by
//! ascending column, the eight others of the column by ascending row, then the
//! four squares of the box that lie in neither, row by row.

use vstd::prelude::*;

verus! {

/// Whether `p` lies on the grid.
pub open spec fn valid_pos(p: (usize, usize)) -> bool {
    p.0 < 9 && p.1 < 9
}

/// First row (or column) of the box that holds row (or column) `i`.
pub open spec fn box_start(i: int) -> int {
    i / 3 * 3
}

/// Whether `p` and `q` lie in the same 3×3 box.
pub open spec fn same_box(p: (usize, usize), q: (usize, usize)) -> bool {
    p.0 / 3 == q.0 / 3 && p.1 / 3 == q.1 / 3
}

/// Whether `q` is a peer of `p`: another square of the grid in the row, the
/// column or the box of `p`.
pub open spec fn is_peer(p: (usize, usize), q: (usize, usize)) -> bool {
    &&& valid_pos(q)
    &&& q != p
    &&& (q.0 == p.0 || q.1 == p.1 || same_box(p, q))
}

/// The `k`-th value of an ascending run that leaves out `own`.
pub open spec fn skip_over(k: int, own: int) -> int {
    if k < own {
        k
    } else {
        k + 1
    }
}

/// Rank of `i` in an ascending run that leaves out `own`; inverse of
/// [`skip_over`].
pub open spec fn rank_without(i: int, own: int) -> int {
    if i < own {
        i
    } else {
        i - 1
    }
}

/// The `k`-th peer of the square `(r, c)`, for `k` in `0..20`.
pub open spec fn peer_at(r: usize, c: usize, k: int) -> (usize, usize) {
    if k < 8 {
        (r, skip_over(k, c as int) as usize)
    } else if k < 16 {
        (skip_over(k - 8, r as int) as usize, c)
    } else {
        let br = box_start(r as int);
        let bc = box_start(c as int);
        (
            (br + skip_over((k - 16) / 2, r - br)) as usize,
            (bc + skip_over((k - 16) % 2, c - bc)) as usize,
        )
    }
}

/// Where the peer `q` of `p` stands in the enumeration of the peers of `p`.
pub open spec fn peer_index(p: (usize, usize), q: (usize, usize)) -> int {
    if q.0 == p.0 {
        rank_without(q.1 as int, p.1 as int)
    } else if q.1 == p.1 {
        8 + rank_without(q.0 as int, p.0 as int)
    } else {
        let br = box_start(p.0 as int);
        let bc = box_start(p.1 as int);
        16 + 2 * rank_without(q.0 - br, p.0 - br) + rank_without(q.1 - bc, p.1 - bc)
    }
}

/// The nine squares of row `r`, by ascending column.
pub open spec fn row_seq(r: usize) -> Seq<(usize, usize)> {
    Seq::new(9, |j: int| (r, j as usize))
}

/// The nine squares of column `c`, by ascending row.
pub open spec fn col_seq(c: usize) -> Seq<(usize, usize)> {
    Seq::new(9, |i: int| (i as usize, c))
}

/// The nine squares of the box that holds `(r, c)`, row by row.
pub open spec fn box_seq(r: usize, c: usize) -> Seq<(usize, usize)> {
    Seq::new(
        9,
        |k: int| ((box_start(r as int) + k / 3) as usize, (box_start(c as int) + k % 3) as usize),
    )
}

/// The twenty peers of `(r, c)` in enumeration order.
pub open spec fn peer_seq(r: usize, c: usize) -> Seq<(usize, usize)> {
    Seq::new(20, |k: int| peer_at(r, c, k))
}

/// The `k`-th peer of a square is a peer of it, and stands at index `k`.
pub proof fn lemma_peer_at(r: usize, c: usize, k: int)
    requires
        valid_pos((r, c)),
        0 <= k < 20,
    ensures
        is_peer((r, c), peer_at(r, c, k)),
        peer_index((r, c), peer_at(r, c, k)) == k,
{
}

/// Every peer of a square stands at exactly one index of the enumeration.
pub proof fn lemma_peer_index(p: (usize, usize), q: (usize, usize))
    requires
        valid_pos(p),
        is_peer(p, q),
    ensures
        0 <= peer_index(p, q) < 20,
        peer_at(p.0, p.1, peer_index(p, q)) == q,
{
}

/// Every square of the grid has exactly twenty peers: the enumeration has
/// twenty entries, no entry twice, never the square itself, and a position is
/// an entry if and only if it is a peer. The first eight entries share the
/// row, the next eight the column, and the last four only the box.
pub proof fn lemma_peers(r: usize, c: usize)
    requires
        valid_pos((r, c)),
    ensures
        peer_seq(r, c).len() == 20,
        peer_seq(r, c).no_duplicates(),
        !peer_seq(r, c).contains((r, c)),
        forall|q: (usize, usize)| peer_seq(r, c).contains(q) <==> is_peer((r, c), q),
        forall|k: int| 0 <= k < 8 ==> (#[trigger] peer_seq(r, c)[k]).0 == r,
        forall|k: int| 8 <= k < 16 ==> (#[trigger] peer_seq(r, c)[k]).1 == c,
        forall|k: int|
            16 <= k < 20 ==> {
                let q = #[trigger] peer_seq(r, c)[k];
                q.0 != r && q.1 != c && same_box((r, c), q)
            },
{
    let s = peer_seq(r, c);
    assert forall|i: int, j: int| 0 <= i < s.len() && 0 <= j < s.len() && i != j implies s[i]
        != s[j] by {
        lemma_peer_at(r, c, i);
        lemma_peer_at(r, c, j);
    }
    assert forall|q: (usize, usize)| s.contains(q) <==> is_peer((r, c), q) by {
        if s.contains(q) {
            let k = choose|k: int| 0 <= k < s.len() && s[k] == q;
            lemma_peer_at(r, c, k);
        }
        if is_peer((r, c), q) {
            lemma_peer_index((r, c), q);
            assert(s[peer_index((r, c), q)] == q);
        }
    }
    assert forall|k: int| 0 <= k < 20 implies {
        let q = #[trigger] s[k];
        is_peer((r, c), q) && peer_index((r, c), q) == k
    } by {
        lemma_peer_at(r, c, k);
    }
}

/// Namespace of the geometry queries.
pub struct Coord;

impl Coord {
    /// The nine squares of row `r`.
    pub fn row(r: usize) -> (v: Vec<(usize, usize)>)
        requires
            r < 9,
        ensures
            v@ == row_seq(r),
    {
        let mut v: Vec<(usize, usize)> = Vec::new();
        let mut j: usize = 0;
        while j < 9
            invariant
                j <= 9,
                v@.len() == j,
                forall|m: int| 0 <= m < j ==> v@[m] == (r, m as usize),
            decreases 9 - j,
        {
            v.push((r, j));
            j = j + 1;
        }
        v
    }

    /// The nine squares of column `c`.
    pub fn col(c: usize) -> (v: Vec<(usize, usize)>)
        requires
            c < 9,
        ensures
            v@ == col_seq(c),
    {
        let mut v: Vec<(usize, usize)> = Vec::new();
        let mut i: usize = 0;
        while i < 9
            invariant
                i <= 9,
                v@.len() == i,
                forall|m: int| 0 <= m < i ==> v@[m] == (m as usize, c),
            decreases 9 - i,
        {
            v.push((i, c));
            i = i + 1;
        }
        v
    }

    /// The nine squares of the 3×3 box that holds `(r, c)`: the row and the
    /// column are rounded down to the corner of the box, and the box is walked
    /// row by row from there.
    pub fn box_of(r: usize, c: usize) -> (v: Vec<(usize, usize)>)
        requires
            r < 9,
            c < 9,
        ensures
            v@ == box_seq(r, c),
    {
        let br: usize = r / 3 * 3;
        let bc: usize = c / 3 * 3;
        let mut v: Vec<(usize, usize)> = Vec::new();
        let mut k: usize = 0;
        while k < 9
            invariant
                k <= 9,
                r < 9,
                c < 9,
                br == box_start(r as int),
                bc == box_start(c as int),
                v@.len() == k,
                forall|m: int| 0 <= m < k ==> v@[m] == box_seq(r, c)[m],
            decreases 9 - k,
        {
            v.push((br + k / 3, bc + k % 3));
            k = k + 1;
        }
        v
    }

    /// The `k`-th peer of `(r, c)` in enumeration order.
    pub fn peer(r: usize, c: usize, k: usize) -> (p: (usize, usize))
        requires
            r < 9,
            c < 9,
            k < 20,
        ensures
            p == peer_at(r, c, k as int),
            is_peer((r, c), p),
    {
        proof {
            lemma_peer_at(r, c, k as int);
        }
        if k < 8 {
            (r, Self::skip(k, c))
        } else if k < 16 {
            (Self::skip(k - 8, r), c)
        } else {
            let br: usize = r / 3 * 3;
            let bc: usize = c / 3 * 3;
            (br + Self::skip((k - 16) / 2, r - br), bc + Self::skip((k - 16) % 2, c - bc))
        }
    }

    /// The twenty peers of `(r, c)`: every other square of its row, its column
    /// and its box, each once.
    pub fn peers(r: usize, c: usize) -> (v: Vec<(usize, usize)>)
        requires
            r < 9,
            c < 9,
        ensures
            v@ == peer_seq(r, c),
            v@.len() == 20,
            v@.no_duplicates(),
            !v@.contains((r, c)),
            forall|q: (usize, usize)| v@.contains(q) <==> is_peer((r, c), q),
    {
        let mut v: Vec<(usize, usize)> = Vec::new();
        let mut k: usize = 0;
        while k < 20
            invariant
                k <= 20,
                r < 9,
                c < 9,
                v@.len() == k,
                forall|m: int| 0 <= m < k ==> v@[m] == peer_at(r, c, m),
            decreases 20 - k,
        {
            v.push(Self::peer(r, c, k));
            k = k + 1;
        }
        proof {
            lemma_peers(r, c);
        }
        v
    }

    fn skip(k: usize, own: usize) -> (i: usize)
        requires
            k < 9,
        ensures
            i == skip_over(k as int, own as int),
    {
        if k < own {
            k
        } else {
            k + 1
        }
    }
}

} // verus!
