//! Laws that relate the operations of the board to one another.
//!
//! Each law is stated over the model of the board and proved once and for
//! all; the executable operations are tied to the model by their contracts.

use crate::game_board::model::{
    after_add_pen_mark, after_add_pencil_mark, after_erase_pen_mark, after_erase_pencil_mark,
    board_wf, lemma_universe_depends_on_clues, pen_mark_addition_error, universe_before,
    BoardView, CellView,
};
use crate::utils::bit_map::is_digit;
use crate::utils::coord::{is_peer, lemma_peer_index, peer_index, valid_pos};
use vstd::prelude::*;

verus! {

/// Pencilling a digit into a blank square where it was no candidate, and
/// rubbing it out again, leaves the candidates of the square as they were and
/// the digit struck out by the player. No other square changes.
pub proof fn lemma_add_then_erase_pencil_mark(b: BoardView, p: (usize, usize), target: u8)
    requires
        board_wf(b),
        valid_pos(p),
        is_digit(target),
        b[p] is Blank,
        !b[p].candidates().contains(target),
    ensures
        ({
            let after = after_erase_pencil_mark(after_add_pencil_mark(b, p, target), p, target);
            &&& after[p].candidates() == b[p].candidates()
            &&& after[p].user_deleted() == b[p].user_deleted().insert(target)
            &&& after[p].pen_mark() == b[p].pen_mark()
            &&& forall|q: (usize, usize)| valid_pos(q) && q != p ==> after[q] == b[q]
        }),
{
    let after = after_erase_pencil_mark(after_add_pencil_mark(b, p, target), p, target);
    assert(after[p].candidates() =~= b[p].candidates());
    assert(after[p].user_deleted() =~= b[p].user_deleted().insert(target));
}

/// Rubbing a pencil mark out and pencilling it in again leaves the digit a
/// candidate that does not count as struck out by the player.
pub proof fn lemma_erase_then_add_pencil_mark(b: BoardView, p: (usize, usize), target: u8)
    requires
        board_wf(b),
        valid_pos(p),
        is_digit(target),
    ensures
        ({
            let after = after_add_pencil_mark(after_erase_pencil_mark(b, p, target), p, target);
            &&& !after[p].user_deleted().contains(target)
            &&& b[p] is Blank ==> after[p].candidates() == b[p].candidates().insert(target)
            &&& forall|q: (usize, usize)| valid_pos(q) && q != p ==> after[q] == b[q]
        }),
{
    let after = after_add_pencil_mark(after_erase_pencil_mark(b, p, target), p, target);
    if b[p] is Blank {
        assert(after[p].candidates() =~= b[p].candidates().insert(target));
    }
}

/// Writing a digit in pen into a blank square takes it out of the candidates
/// of every peer, and changes nothing else about the peers: the other
/// candidates, the digits struck out by the player and the pen marks stay.
pub proof fn lemma_add_pen_mark_prunes_peers(
    b: BoardView,
    p: (usize, usize),
    target: u8,
    q: (usize, usize),
)
    requires
        board_wf(b),
        valid_pos(p),
        is_digit(target),
        b[p] is Blank,
        is_peer(p, q),
    ensures
        ({
            let after = after_add_pen_mark(b, p, target);
            &&& !after[q].candidates().contains(target)
            &&& after[q].candidates() == b[q].candidates().remove(target)
            &&& after[q].user_deleted() == b[q].user_deleted()
            &&& after[q].pen_mark() == b[q].pen_mark()
        }),
{
    let after = after_add_pen_mark(b, p, target);
    assert(after[q].candidates() =~= b[q].candidates().remove(target));
}

/// Whether the round trip of a pen mark at `p` gives the peer `q` its old
/// candidates back: `q` is a clue, or `target` was no candidate of `q` and no
/// candidate of `q` is the clue of a peer of `p` that comes before `q`.
pub open spec fn survives_round_trip(
    b: BoardView,
    p: (usize, usize),
    target: u8,
    q: (usize, usize),
) -> bool {
    b[q] is Blank ==> {
        &&& !b[q].candidates().contains(target)
        &&& b[q].candidates().subset_of(universe_before(b, p, peer_index(p, q)))
    }
}

/// Round trip of a pen mark: writing `target` in pen at `p` and erasing it
/// right away gives every peer of `p` back exactly as it was. This holds
/// where `p` is a clue, for then neither step does anything, and else where
/// every peer survives the round trip: the erasure never puts a candidate
/// back that the pen mark pruned, and it prunes the candidates that are
/// clues of earlier peers.
pub proof fn lemma_pen_mark_round_trip(b: BoardView, p: (usize, usize), target: u8)
    requires
        board_wf(b),
        valid_pos(p),
        is_digit(target),
        b[p] is Blank ==> forall|q: (usize, usize)|
            is_peer(p, q) ==> survives_round_trip(b, p, target, q),
    ensures
        forall|q: (usize, usize)|
            is_peer(p, q) ==> #[trigger] after_erase_pen_mark(after_add_pen_mark(b, p, target), p)[q]
                == b[q],
{
    assert forall|q: (usize, usize)| is_peer(p, q) implies #[trigger] after_erase_pen_mark(
        after_add_pen_mark(b, p, target),
        p,
    )[q] == b[q] by {
        lemma_pen_mark_round_trip_exact(b, p, target, q);
    }
}

/// The round trip of a pen mark at a blank square `p`, peer by peer: the
/// peer `q` is the same after as before if and only if it survives the round
/// trip. Whatever the case, the round trip can only take candidates away from
/// a peer, and touches nothing else of it.
pub proof fn lemma_pen_mark_round_trip_exact(
    b: BoardView,
    p: (usize, usize),
    target: u8,
    q: (usize, usize),
)
    requires
        board_wf(b),
        valid_pos(p),
        is_digit(target),
        is_peer(p, q),
    ensures
        ({
            let after = after_erase_pen_mark(after_add_pen_mark(b, p, target), p);
            &&& b[p] is Printed ==> after[q] == b[q]
            &&& b[p] is Blank ==> (after[q] == b[q] <==> survives_round_trip(b, p, target, q))
            &&& b[p] is Blank ==> (after[q].candidates() == b[q].candidates()
                <==> survives_round_trip(b, p, target, q))
            &&& b[p] is Blank ==> after[q].candidates() == b[q].candidates().remove(
                target,
            ).intersect(universe_before(b, p, peer_index(p, q)))
            &&& after[q].user_deleted() == b[q].user_deleted()
            &&& after[q].pen_mark() == b[q].pen_mark()
        }),
{
    let mid = after_add_pen_mark(b, p, target);
    let after = after_erase_pen_mark(mid, p);
    if b[p] is Blank {
        let k = peer_index(p, q);
        lemma_peer_index(p, q);
        lemma_universe_depends_on_clues(b, mid, p, k);
        let u = universe_before(b, p, k);
        assert(after[q].candidates() =~= b[q].candidates().remove(target).intersect(u));
        if b[q] is Blank {
            if survives_round_trip(b, p, target, q) {
                assert(after[q].candidates() =~= b[q].candidates());
                assert(after[q] =~= b[q]);
            } else {
                if b[q].candidates().contains(target) {
                    assert(!after[q].candidates().contains(target));
                } else {
                    let d = choose|d: u8| b[q].candidates().contains(d) && !u.contains(d);
                    assert(!after[q].candidates().contains(d));
                }
            }
        }
    }
}

/// Writing the digit the puzzle expects is never reported as a mistake.
pub proof fn lemma_expected_digit_is_no_error(b: BoardView, p: (usize, usize), target: u8)
    requires
        b[p].expects(target),
    ensures
        pen_mark_addition_error(b, p, target) is None,
{
}

/// Whether two squares are of the same kind and stand for the same digit of
/// the puzzle: the same clue, or two blank squares that expect the same
/// digit.
pub open spec fn same_square(a: CellView, b: CellView) -> bool {
    match (a, b) {
        (CellView::Printed(v), CellView::Printed(w)) => v == w,
        (CellView::Blank(c), CellView::Blank(d)) => c.answer == d.answer,
        _ => false,
    }
}

/// Every operation takes a well-formed board to a well-formed board, and no
/// operation changes what a square is: a clue stays the clue it was, and a
/// blank square stays blank and expects the digit it expected.
pub proof fn lemma_operations_keep_the_board_well_formed(
    b: BoardView,
    p: (usize, usize),
    target: u8,
)
    requires
        board_wf(b),
        valid_pos(p),
        is_digit(target),
    ensures
        board_wf(after_add_pencil_mark(b, p, target)),
        board_wf(after_erase_pencil_mark(b, p, target)),
        board_wf(after_add_pen_mark(b, p, target)),
        board_wf(after_erase_pen_mark(b, p)),
        forall|q: (usize, usize)|
            valid_pos(q) ==> same_square(#[trigger] after_add_pencil_mark(b, p, target)[q], b[q]),
        forall|q: (usize, usize)|
            valid_pos(q) ==> same_square(#[trigger] after_erase_pencil_mark(b, p, target)[q], b[q]),
        forall|q: (usize, usize)|
            valid_pos(q) ==> same_square(#[trigger] after_add_pen_mark(b, p, target)[q], b[q]),
        forall|q: (usize, usize)|
            valid_pos(q) ==> same_square(#[trigger] after_erase_pen_mark(b, p)[q], b[q]),
{
}

} // verus!
