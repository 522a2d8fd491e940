//! The mathematical model of the board.
//!
//! A board is a map from the 81 positions of the grid to squares, and every
//! operation of the board is a function from boards to boards, or from a
//! board to an answer. The contracts of the executable board are stated over
//! these functions.

use crate::game_board::blank_cell::BlankCellView;
use crate::utils::bit_map::is_digit;
use crate::utils::coord::{
    is_peer, lemma_peer_at, lemma_peers, peer_at, peer_index, peer_seq, valid_pos,
};
use vstd::prelude::*;

verus! {

/// What a square holds, as plain mathematical data.
#[verifier::ext_equal]
pub enum CellView {
    /// A clue that came with the puzzle.
    Printed(u8),
    /// A square the player fills in.
    Blank(BlankCellView),
}

impl CellView {
    /// A clue is a digit; a blank square is well-formed.
    pub open spec fn wf(self) -> bool {
        match self {
            CellView::Printed(v) => is_digit(v),
            CellView::Blank(c) => c.wf(),
        }
    }

    /// Whether the square shows `target`: as its clue, or in pen.
    pub open spec fn shows(self, target: u8) -> bool {
        match self {
            CellView::Printed(v) => v == target,
            CellView::Blank(c) => c.holds(target),
        }
    }

    /// Whether the square is blank and the puzzle expects `target` in it.
    pub open spec fn expects(self, target: u8) -> bool {
        self matches CellView::Blank(c) && c.matches_answer(target)
    }

    /// The pen mark of a blank square; a clue has none.
    pub open spec fn pen_mark(self) -> Option<u8> {
        match self {
            CellView::Printed(_) => None,
            CellView::Blank(c) => c.committed,
        }
    }

    /// The pencil marks of a blank square; a clue has none.
    pub open spec fn candidates(self) -> Set<u8> {
        match self {
            CellView::Printed(_) => Set::empty(),
            CellView::Blank(c) => c.candidates,
        }
    }

    /// The digits the player struck out in a blank square; a clue has none.
    pub open spec fn user_deleted(self) -> Set<u8> {
        match self {
            CellView::Printed(_) => Set::empty(),
            CellView::Blank(c) => c.user_deleted,
        }
    }

    /// Pencils `target` into a blank square; a clue stays as it is.
    pub open spec fn candidate_add(self, target: u8) -> Self {
        match self {
            CellView::Printed(_) => self,
            CellView::Blank(c) => CellView::Blank(c.candidate_add(target)),
        }
    }

    /// Rubs `target` out of a blank square; a clue stays as it is.
    pub open spec fn candidate_remove(self, target: u8, by_user: bool) -> Self {
        match self {
            CellView::Printed(_) => self,
            CellView::Blank(c) => CellView::Blank(c.candidate_remove(target, by_user)),
        }
    }

    /// Writes `target` in pen into a blank square; a clue stays as it is.
    pub open spec fn commit(self, target: u8) -> Self {
        match self {
            CellView::Printed(_) => self,
            CellView::Blank(c) => CellView::Blank(c.commit(target)),
        }
    }

    /// Takes the pen mark of a blank square away; a clue stays as it is.
    pub open spec fn uncommit(self) -> Self {
        match self {
            CellView::Printed(_) => self,
            CellView::Blank(c) => CellView::Blank(c.uncommit()),
        }
    }

    /// Narrows the candidates of a blank square to `allowed`; a clue stays as
    /// it is.
    pub open spec fn recompute_candidates_from(self, allowed: Set<u8>) -> Self {
        match self {
            CellView::Printed(_) => self,
            CellView::Blank(c) => CellView::Blank(c.recompute_candidates_from(allowed)),
        }
    }

    /// Whether the square is blank and `allowed` rules out the digit the
    /// puzzle expects in it.
    pub open spec fn answer_excluded(self, allowed: Set<u8>) -> bool {
        self matches CellView::Blank(c) && c.answer_excluded(allowed)
    }

    /// Starts the candidates of a blank square over from `allowed`; a clue
    /// stays as it is.
    pub open spec fn reset_candidates(self, allowed: Set<u8>) -> Self {
        match self {
            CellView::Printed(_) => self,
            CellView::Blank(c) => CellView::Blank(c.reset_candidates(allowed)),
        }
    }
}

/// A board as a map from positions to squares.
pub type BoardView = Map<(usize, usize), CellView>;

/// The board has a well-formed square at each of the 81 positions, and
/// nowhere else.
pub open spec fn board_wf(b: BoardView) -> bool {
    &&& forall|p: (usize, usize)| b.dom().contains(p) <==> valid_pos(p)
    &&& forall|p: (usize, usize)| valid_pos(p) ==> (#[trigger] b[p]).wf()
}

/// The position itself if the square at `p` shows `target`, else nothing.
pub open spec fn cell_collision(b: BoardView, p: (usize, usize), target: u8) -> Option<
    (usize, usize),
> {
    if b[p].shows(target) {
        Some(p)
    } else {
        None
    }
}

/// The test that picks the squares that show `target`.
pub open spec fn shows_at(b: BoardView, target: u8) -> spec_fn((usize, usize)) -> bool {
    |q: (usize, usize)| b[q].shows(target)
}

/// The peers of `p` that show `target`, in the order of the peers.
pub open spec fn clue_collisions(b: BoardView, p: (usize, usize), target: u8) -> Seq<
    (usize, usize),
> {
    peer_seq(p.0, p.1).filter(shows_at(b, target))
}

/// What the check before writing `target` in pen at `p` answers: nothing if
/// the square is a clue or `target` is the expected digit, else the peers
/// that show `target`.
pub open spec fn pen_mark_addition_error(b: BoardView, p: (usize, usize), target: u8) -> Option<
    Seq<(usize, usize)>,
> {
    if b[p] is Blank && !b[p].expects(target) {
        Some(clue_collisions(b, p, target))
    } else {
        None
    }
}

/// The board after `target` was rubbed out at `p`.
pub open spec fn after_delete_candidate(
    b: BoardView,
    p: (usize, usize),
    target: u8,
    by_user: bool,
) -> BoardView {
    b.insert(p, b[p].candidate_remove(target, by_user))
}

/// The board after the player pencilled `target` in at `p`.
pub open spec fn after_add_pencil_mark(b: BoardView, p: (usize, usize), target: u8) -> BoardView {
    b.insert(p, b[p].candidate_add(target))
}

/// The board after the player rubbed the pencil mark `target` out at `p`.
pub open spec fn after_erase_pencil_mark(b: BoardView, p: (usize, usize), target: u8) -> BoardView {
    after_delete_candidate(b, p, target, true)
}

/// The board after the player wrote `target` in pen at `p`: the square holds
/// the pen mark, and `target` is no candidate of any peer any more. Nothing
/// changes if the square at `p` is a clue.
pub open spec fn after_add_pen_mark(b: BoardView, p: (usize, usize), target: u8) -> BoardView {
    if b[p] is Blank {
        Map::new(
            |q: (usize, usize)| valid_pos(q),
            |q: (usize, usize)|
                if q == p {
                    b[q].commit(target)
                } else if is_peer(p, q) {
                    b[q].candidate_remove(target, false)
                } else {
                    b[q]
                },
        )
    } else {
        b
    }
}

/// Whether one of the first `k` peers of `p` is a clue with the digit `d`.
pub open spec fn printed_before(b: BoardView, p: (usize, usize), k: int, d: u8) -> bool {
    exists|m: int| 0 <= m < k && #[trigger] b[peer_at(p.0, p.1, m)] == CellView::Printed(d)
}

/// The digits still allowed when the scan of the peers of `p` reaches the
/// `k`-th peer: every digit that is not the clue of an earlier peer.
pub open spec fn universe_before(b: BoardView, p: (usize, usize), k: int) -> Set<u8> {
    Set::new(|d: u8| is_digit(d) && !printed_before(b, p, k, d))
}

/// The universe of the scan depends on the clues alone: two boards with the
/// same clues at the same positions give the same universe.
pub proof fn lemma_universe_depends_on_clues(b: BoardView, c: BoardView, p: (usize, usize), k: int)
    requires
        valid_pos(p),
        0 <= k <= 20,
        forall|q: (usize, usize)|
            valid_pos(q) ==> (b[q] is Printed || c[q] is Printed ==> b[q] == c[q]),
    ensures
        universe_before(b, p, k) == universe_before(c, p, k),
{
    assert forall|d: u8| printed_before(b, p, k, d) == printed_before(c, p, k, d) by {
        if printed_before(b, p, k, d) {
            let m = choose|m: int|
                0 <= m < k && #[trigger] b[peer_at(p.0, p.1, m)] == CellView::Printed(d);
            lemma_peer_at(p.0, p.1, m);
            assert(c[peer_at(p.0, p.1, m)] == CellView::Printed(d));
        }
        if printed_before(c, p, k, d) {
            let m = choose|m: int|
                0 <= m < k && #[trigger] c[peer_at(p.0, p.1, m)] == CellView::Printed(d);
            lemma_peer_at(p.0, p.1, m);
            assert(b[peer_at(p.0, p.1, m)] == CellView::Printed(d));
        }
    }
    assert(universe_before(b, p, k) =~= universe_before(c, p, k));
}

/// Whether erasing at `p` does anything: the square is blank and has a pen
/// mark.
pub open spec fn has_pen_mark(b: BoardView, p: (usize, usize)) -> bool {
    b[p].pen_mark() is Some
}

/// The board after the player erased the pen mark at `p`. The scan walks the
/// peers of `p` in order with a universe of allowed digits that starts full
/// and loses the digit of every clue it passes. A blank peer keeps only the
/// candidates that the universe admits when the scan reaches it. The square
/// at `p` loses its pen mark and starts its candidates over from the universe
/// left at the end. Nothing changes if the square at `p` has no pen mark.
pub open spec fn after_erase_pen_mark(b: BoardView, p: (usize, usize)) -> BoardView {
    if has_pen_mark(b, p) {
        Map::new(
            |q: (usize, usize)| valid_pos(q),
            |q: (usize, usize)|
                if q == p {
                    b[q].uncommit().reset_candidates(universe_before(b, p, 20))
                } else if is_peer(p, q) {
                    b[q].recompute_candidates_from(universe_before(b, p, peer_index(p, q)))
                } else {
                    b[q]
                },
        )
    } else {
        b
    }
}

/// The blank peers of `p` for which the erasure at `p` found that the
/// universe, when the scan reached them, ruled out the digit the puzzle
/// expects there; in the order of the peers. Empty if the square at `p` has
/// no pen mark.
pub open spec fn erase_pen_mark_collisions(b: BoardView, p: (usize, usize)) -> Seq<(usize, usize)> {
    if has_pen_mark(b, p) {
        peer_seq(p.0, p.1).filter(answer_excluded_at(b, p))
    } else {
        Seq::empty()
    }
}

/// The test that picks the blank peers of `p` whose expected digit the
/// universe rules out when the scan from `p` reaches them.
pub open spec fn answer_excluded_at(b: BoardView, p: (usize, usize)) -> spec_fn(
    (usize, usize),
) -> bool {
    |q: (usize, usize)| b[q].answer_excluded(universe_before(b, p, peer_index(p, q)))
}

/// Filtering keeps a sequence free of duplicates.
proof fn lemma_filter_no_duplicates<A>(s: Seq<A>, pred: spec_fn(A) -> bool)
    requires
        s.no_duplicates(),
    ensures
        s.filter(pred).no_duplicates(),
    decreases s.len(),
{
    reveal(Seq::filter);
    if s.len() > 0 {
        let rest = s.drop_last();
        lemma_filter_no_duplicates(rest, pred);
        if pred(s.last()) {
            if rest.filter(pred).contains(s.last()) {
                rest.lemma_filter_contains_rev(pred, s.last());
                let i = choose|i: int| 0 <= i < rest.len() && rest[i] == s.last();
                assert(s[i] == s[s.len() - 1]);
            }
        }
    }
}

/// What a filtered sequence holds: the entries of the sequence that pass the
/// test.
proof fn lemma_filter_members<A>(s: Seq<A>, pred: spec_fn(A) -> bool)
    ensures
        forall|a: A| s.filter(pred).contains(a) <==> s.contains(a) && pred(a),
{
    assert forall|a: A| s.filter(pred).contains(a) <==> s.contains(a) && pred(a) by {
        if s.filter(pred).contains(a) {
            s.lemma_filter_contains_rev(pred, a);
            let i = choose|i: int| 0 <= i < s.filter(pred).len() && s.filter(pred)[i] == a;
            s.lemma_filter_pred(pred, i);
        }
        if s.contains(a) && pred(a) {
            let i = choose|i: int| 0 <= i < s.len() && s[i] == a;
            s.lemma_filter_contains(pred, i);
        }
    }
}

/// The collisions of `target` around `p` are peers of `p`, each listed
/// once, and a peer is listed if and only if it shows `target`.
pub proof fn lemma_clue_collisions(b: BoardView, p: (usize, usize), target: u8)
    requires
        valid_pos(p),
    ensures
        clue_collisions(b, p, target).no_duplicates(),
        forall|q: (usize, usize)|
            clue_collisions(b, p, target).contains(q) <==> is_peer(p, q) && b[q].shows(target),
{
    lemma_peers(p.0, p.1);
    lemma_filter_no_duplicates(peer_seq(p.0, p.1), shows_at(b, target));
    lemma_filter_members(peer_seq(p.0, p.1), shows_at(b, target));
}

/// The peers that the erasure at `p` reports are peers of `p`, each listed
/// once, and a peer is listed if and only if it is blank and the universe
/// ruled out its expected digit when the scan reached it.
pub proof fn lemma_erase_pen_mark_collisions(b: BoardView, p: (usize, usize))
    requires
        valid_pos(p),
    ensures
        erase_pen_mark_collisions(b, p).no_duplicates(),
        forall|q: (usize, usize)|
            erase_pen_mark_collisions(b, p).contains(q) <==> has_pen_mark(b, p) && is_peer(p, q)
                && b[q].answer_excluded(universe_before(b, p, peer_index(p, q))),
{
    if has_pen_mark(b, p) {
        lemma_peers(p.0, p.1);
        lemma_filter_no_duplicates(peer_seq(p.0, p.1), answer_excluded_at(b, p));
        lemma_filter_members(peer_seq(p.0, p.1), answer_excluded_at(b, p));
    }
}

} // verus!
