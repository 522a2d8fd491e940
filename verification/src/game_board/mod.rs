//! The board and its squares.

pub mod blank_cell;
pub mod laws;
pub mod model;

pub use blank_cell::BlankCell;

use crate::utils::bit_map::{is_digit, BitMap};
use crate::utils::coord::{
    is_peer, lemma_peer_at, lemma_peer_index, peer_at, peer_index, peer_seq, valid_pos, Coord,
};
use model::{
    after_add_pen_mark, after_add_pencil_mark, after_delete_candidate, after_erase_pen_mark,
    after_erase_pencil_mark, answer_excluded_at, board_wf, cell_collision, clue_collisions,
    erase_pen_mark_collisions, lemma_clue_collisions, lemma_erase_pen_mark_collisions,
    pen_mark_addition_error, shows_at,
    universe_before, BoardView, CellView,
};
use vstd::prelude::*;

verus! {

/// One square of the grid. A square is a clue or a blank for as long as the
/// board lives.
#[derive(Clone, Copy, Debug, PartialEq, Eq)]
pub enum Cell {
    /// A clue that came with the puzzle.
    Printed(u8),
    /// A square the player fills in.
    Blank(BlankCell),
}

impl View for Cell {
    type V = CellView;

    open spec fn view(&self) -> CellView {
        match *self {
            Cell::Printed(v) => CellView::Printed(v),
            Cell::Blank(c) => CellView::Blank(c@),
        }
    }
}

impl Cell {
    /// A clue is a digit; a blank square is well-formed.
    pub open spec fn wf(self) -> bool {
        match self {
            Cell::Printed(v) => is_digit(v),
            Cell::Blank(c) => c.wf(),
        }
    }

    /// A well-formed square has a well-formed view.
    pub proof fn lemma_view_wf(self)
        requires
            self.wf(),
        ensures
            self@.wf(),
    {
        match self {
            Cell::Printed(_) => {},
            Cell::Blank(c) => c.lemma_view_wf(),
        }
    }

    /// Whether the square shows `target`: as its clue, or in pen.
    pub fn shows(&self, target: u8) -> (r: bool)
        ensures
            r == self@.shows(target),
        no_unwind
    {
        match self {
            Cell::Printed(v) => *v == target,
            Cell::Blank(c) => c.check_collision(target),
        }
    }

    /// Pencils `target` into a blank square; a clue stays as it is.
    pub fn candidate_add(&mut self, target: u8)
        requires
            is_digit(target),
        ensures
            final(self)@ == old(self)@.candidate_add(target),
            old(self).wf() ==> final(self).wf(),
        no_unwind
    {
        match self {
            Cell::Blank(c) => {
                c.candidate_add(target);
                proof {
                    use_type_invariant(&*c);
                }
            },
            Cell::Printed(_) => {},
        }
    }

    /// Rubs `target` out of a blank square, recording it as struck out by the
    /// player if `by_user`; a clue stays as it is.
    pub fn candidate_remove(&mut self, target: u8, by_user: bool)
        ensures
            final(self)@ == old(self)@.candidate_remove(target, by_user),
            old(self).wf() ==> final(self).wf(),
        no_unwind
    {
        match self {
            Cell::Blank(c) => {
                c.candidate_remove(target, by_user);
                proof {
                    use_type_invariant(&*c);
                }
            },
            Cell::Printed(_) => {},
        }
    }

    /// Writes `target` in pen into a blank square; a clue stays as it is.
    pub fn commit(&mut self, target: u8)
        requires
            is_digit(target),
        ensures
            final(self)@ == old(self)@.commit(target),
            old(self).wf() ==> final(self).wf(),
        no_unwind
    {
        match self {
            Cell::Blank(c) => {
                c.commit(target);
                proof {
                    use_type_invariant(&*c);
                }
            },
            Cell::Printed(_) => {},
        }
    }

    /// Takes the pen mark of a blank square away and returns it; a clue
    /// stays as it is and gives `None`.
    pub fn uncommit(&mut self) -> (previous: Option<u8>)
        ensures
            previous == old(self)@.pen_mark(),
            final(self)@ == old(self)@.uncommit(),
            old(self).wf() ==> final(self).wf(),
        no_unwind
    {
        match self {
            Cell::Blank(c) => {
                let previous = c.uncommit();
                proof {
                    use_type_invariant(&*c);
                }
                previous
            },
            Cell::Printed(_) => None,
        }
    }

    /// Narrows the candidates of a blank square to `allowed`, and reports
    /// whether `allowed` rules out the digit the puzzle expects there; a clue
    /// stays as it is and reports nothing.
    pub fn recompute_candidates_from(&mut self, allowed: BitMap) -> (collision: bool)
        ensures
            final(self)@ == old(self)@.recompute_candidates_from(allowed@),
            collision == old(self)@.answer_excluded(allowed@),
            old(self).wf() ==> final(self).wf(),
        no_unwind
    {
        match self {
            Cell::Blank(c) => {
                let collision = c.recompute_candidates_from(allowed);
                proof {
                    use_type_invariant(&*c);
                }
                collision
            },
            Cell::Printed(_) => false,
        }
    }

    /// Starts the candidates of a blank square over from `allowed`; a clue
    /// stays as it is.
    pub fn reset_candidates(&mut self, allowed: BitMap)
        ensures
            final(self)@ == old(self)@.reset_candidates(allowed@),
            old(self).wf() ==> final(self).wf(),
        no_unwind
    {
        match self {
            Cell::Blank(c) => {
                c.reset_candidates(allowed);
                proof {
                    use_type_invariant(&*c);
                }
            },
            Cell::Printed(_) => {},
        }
    }
}

/// The 9×9 board.
pub struct GameBoard {
    grid: [[Cell; 9]; 9],
}

impl View for GameBoard {
    type V = BoardView;

    closed spec fn view(&self) -> BoardView {
        Map::new(
            |p: (usize, usize)| valid_pos(p),
            |p: (usize, usize)| self.grid[p.0 as int][p.1 as int]@,
        )
    }
}

impl GameBoard {
    /// Every square of the grid is well-formed.
    #[verifier::type_invariant]
    pub closed spec fn wf(self) -> bool {
        forall|i: int, j: int| 0 <= i < 9 && 0 <= j < 9 ==> (#[trigger] self.grid[i][j]).wf()
    }

    /// A well-formed board has a well-formed view.
    pub proof fn lemma_view_wf(self)
        requires
            self.wf(),
        ensures
            board_wf(self@),
    {
        assert forall|p: (usize, usize)| valid_pos(p) implies (#[trigger] self@[p]).wf() by {
            self.grid[p.0 as int][p.1 as int].lemma_view_wf();
        }
    }

    /// Sets up the board from a puzzle: a grid of clues and of blank squares
    /// with the digit expected in each. Gives `None` if a clue is no digit.
    pub fn new(grid: [[Cell; 9]; 9]) -> (r: Option<Self>)
        ensures
            r is Some <==> forall|p: (usize, usize)|
                valid_pos(p) ==> (#[trigger] grid[p.0 as int][p.1 as int] matches Cell::Printed(v)
                    ==> is_digit(v)),
            r matches Some(board) ==> board_wf(board@) && forall|p: (usize, usize)|
                valid_pos(p) ==> #[trigger] board@[p] == grid[p.0 as int][p.1 as int]@,
    {
        let mut i: usize = 0;
        while i < 9
            invariant
                i <= 9,
                forall|a: int, b: int| 0 <= a < i && 0 <= b < 9 ==> (#[trigger] grid[a][b]).wf(),
            decreases 9 - i,
        {
            let mut j: usize = 0;
            while j < 9
                invariant
                    i < 9,
                    j <= 9,
                    forall|a: int, b: int|
                        0 <= a < i && 0 <= b < 9 ==> (#[trigger] grid[a][b]).wf(),
                    forall|b: int| 0 <= b < j ==> (#[trigger] grid[i as int][b]).wf(),
                decreases 9 - j,
            {
                match &grid[i][j] {
                    Cell::Printed(v) => {
                        if *v < 1 || *v > 9 {
                            assert(valid_pos((i, j)));
                            return None;
                        }
                    },
                    Cell::Blank(c) => {
                        proof {
                            use_type_invariant(c);
                        }
                    },
                }
                j = j + 1;
            }
            i = i + 1;
        }
        let board = GameBoard { grid };
        proof {
            board.lemma_view_wf();
        }
        Some(board)
    }

    /// The square at `(x, y)`.
    pub fn get_cell(&self, x: usize, y: usize) -> (cell: &Cell)
        requires
            x < 9,
            y < 9,
        ensures
            cell@ == self@[(x, y)],
            cell.wf(),
    {
        proof {
            use_type_invariant(self);
        }
        &self.grid[x][y]
    }

    /// The position `(x, y)` itself if the square there shows `target`, as
    /// its clue or in pen; `None` otherwise.
    pub fn check_cell_collision(&self, x: usize, y: usize, target: u8) -> (r: Option<
        (usize, usize),
    >)
        requires
            x < 9,
            y < 9,
        ensures
            r == cell_collision(self@, (x, y), target),
    {
        if self.grid[x][y].shows(target) {
            Some((x, y))
        } else {
            None
        }
    }

    /// The peers of `(x, y)` that show `target`, as their clue or in pen, in
    /// the order of the peers: the row, then the column, then the rest of
    /// the box.
    pub fn check_clue_collision(&self, x: usize, y: usize, target: u8) -> (r: Vec<(usize, usize)>)
        requires
            x < 9,
            y < 9,
        ensures
            r@ == clue_collisions(self@, (x, y), target),
            r@.no_duplicates(),
            forall|q: (usize, usize)|
                r@.contains(q) <==> is_peer((x, y), q) && self@[q].shows(target),
    {
        let ghost peers = peer_seq(x, y);
        let ghost pred = shows_at(self@, target);
        let mut r: Vec<(usize, usize)> = Vec::new();
        let mut k: usize = 0;
        proof {
            reveal(Seq::filter);
            assert(peers.take(0).filter(pred) =~= Seq::empty());
        }
        while k < 20
            invariant
                k <= 20,
                x < 9,
                y < 9,
                peers == peer_seq(x, y),
                pred == shows_at(self@, target),
                r@ == peers.take(k as int).filter(pred),
            decreases 20 - k,
        {
            let (xi, yi) = Coord::peer(x, y, k);
            proof {
                assert(peers.take(k + 1) =~= peers.take(k as int).push((xi, yi)));
                peers.take(k as int).lemma_filter_push((xi, yi), pred);
            }
            if let Some(q) = self.check_cell_collision(xi, yi, target) {
                r.push(q);
            }
            k = k + 1;
        }
        proof {
            assert(peers.take(20) =~= peers);
            lemma_clue_collisions(self@, (x, y), target);
        }
        r
    }

    /// Whether rubbing the pencil mark `target` out at `(x, y)` is a
    /// mistake: the square is blank and `target` is the digit the puzzle
    /// expects there.
    pub fn check_pencil_mark_deletion_error(&self, x: usize, y: usize, target: u8) -> (r: bool)
        requires
            x < 9,
            y < 9,
        ensures
            r == self@[(x, y)].expects(target),
    {
        match &self.grid[x][y] {
            Cell::Blank(c) => c.matches_answer(target),
            Cell::Printed(_) => false,
        }
    }

    /// The peers of `(x, y)` that already show `target`: what stands against
    /// pencilling `target` in there.
    pub fn check_pencil_mark_addition_collision(&self, x: usize, y: usize, target: u8) -> (r: Vec<
        (usize, usize),
    >)
        requires
            x < 9,
            y < 9,
        ensures
            r@ == clue_collisions(self@, (x, y), target),
            r@.no_duplicates(),
            forall|q: (usize, usize)|
                r@.contains(q) <==> is_peer((x, y), q) && self@[q].shows(target),
    {
        self.check_clue_collision(x, y, target)
    }

    /// Whether writing `target` in pen at `(x, y)` is a mistake. `None` if
    /// the square is a clue or `target` is the digit the puzzle expects
    /// there. Otherwise the peers that show `target`; the list may be empty.
    pub fn check_pen_mark_addition_error(&self, x: usize, y: usize, target: u8) -> (r: Option<
        Vec<(usize, usize)>,
    >)
        requires
            x < 9,
            y < 9,
        ensures
            r is None <==> self@[(x, y)] is Printed || self@[(x, y)].expects(target),
            self@[(x, y)].expects(target) ==> r is None,
            match r {
                Some(v) => pen_mark_addition_error(self@, (x, y), target) == Some(v@),
                None => pen_mark_addition_error(self@, (x, y), target) is None,
            },
            r matches Some(v) ==> v@.no_duplicates() && forall|q: (usize, usize)|
                v@.contains(q) <==> is_peer((x, y), q) && self@[q].shows(target),
    {
        match &self.grid[x][y] {
            Cell::Blank(c) => {
                if !c.matches_answer(target) {
                    Some(self.check_clue_collision(x, y, target))
                } else {
                    None
                }
            },
            Cell::Printed(_) => None,
        }
    }

    /// Rubs the pencil mark `target` out at `(x, y)`, and records it as
    /// struck out by the player if `user_deleted_flag`. Nothing changes if the
    /// square is a clue or `target` is no candidate there.
    fn delete_candidate(&mut self, x: usize, y: usize, target: u8, user_deleted_flag: bool)
        requires
            x < 9,
            y < 9,
        ensures
            final(self)@ == after_delete_candidate(old(self)@, (x, y), target, user_deleted_flag),
    {
        proof {
            use_type_invariant(&*self);
        }
        self.grid[x][y].candidate_remove(target, user_deleted_flag);
        proof {
            assert(self@ =~= after_delete_candidate(old(self)@, (x, y), target, user_deleted_flag));
        }
    }

    /// The player rubs the pencil mark `target` out at `(x, y)`: it is no
    /// candidate any more and counts as struck out by the player. Nothing
    /// changes if the square is a clue or `target` is no candidate there.
    pub fn erase_pencil_mark(&mut self, x: usize, y: usize, target: u8)
        requires
            x < 9,
            y < 9,
        ensures
            final(self)@ == after_erase_pencil_mark(old(self)@, (x, y), target),
    {
        self.delete_candidate(x, y, target, true);
    }

    /// The player pencils `target` in at `(x, y)`: it becomes a candidate
    /// and no longer counts as struck out. Nothing changes if the square is a
    /// clue or `target` is a candidate there already.
    pub fn add_pencil_mark(&mut self, x: usize, y: usize, target: u8)
        requires
            x < 9,
            y < 9,
            is_digit(target),
        ensures
            final(self)@ == after_add_pencil_mark(old(self)@, (x, y), target),
    {
        proof {
            use_type_invariant(&*self);
        }
        self.grid[x][y].candidate_add(target);
        proof {
            assert(self@ =~= after_add_pencil_mark(old(self)@, (x, y), target));
        }
    }

    /// The player writes `target` in pen at `(x, y)`. The square holds the
    /// pen mark, and `target` is rubbed out of the candidates of every peer,
    /// without counting as struck out by the player; the pen marks of the
    /// peers stay. Nothing changes if the square is a clue.
    pub fn add_pen_mark(&mut self, x: usize, y: usize, target: u8)
        requires
            x < 9,
            y < 9,
            is_digit(target),
        ensures
            final(self)@ == after_add_pen_mark(old(self)@, (x, y), target),
            old(self)@[(x, y)] is Blank ==> final(self)@[(x, y)].pen_mark() == Some(target),
            old(self)@[(x, y)] is Blank ==> forall|q: (usize, usize)|
                is_peer((x, y), q) ==> !(#[trigger] final(self)@[q]).candidates().contains(target),
    {
        proof {
            use_type_invariant(&*self);
        }
        if let Cell::Blank(_) = &self.grid[x][y] {
            self.grid[x][y].commit(target);
            let mut k: usize = 0;
            while k < 20
                invariant
                    k <= 20,
                    x < 9,
                    y < 9,
                    old(self)@[(x, y)] is Blank,
                    forall|q: (usize, usize)| self@.dom().contains(q) <==> valid_pos(q),
                    forall|q: (usize, usize)|
                        valid_pos(q) ==> #[trigger] self@[q] == if q == (x, y) {
                            old(self)@[q].commit(target)
                        } else if is_peer((x, y), q) && peer_index((x, y), q) < k {
                            old(self)@[q].candidate_remove(target, false)
                        } else {
                            old(self)@[q]
                        },
                decreases 20 - k,
            {
                let (xi, yi) = Coord::peer(x, y, k);
                let ghost before = self@;
                self.delete_candidate(xi, yi, target, false);
                proof {
                    lemma_peer_at(x, y, k as int);
                    assert forall|q: (usize, usize)| valid_pos(q) implies #[trigger] self@[q] == if q
                        == (x, y) {
                        old(self)@[q].commit(target)
                    } else if is_peer((x, y), q) && peer_index((x, y), q) < k + 1 {
                        old(self)@[q].candidate_remove(target, false)
                    } else {
                        old(self)@[q]
                    } by {
                        assert(self@[q] == if q == (xi, yi) {
                            before[q].candidate_remove(target, false)
                        } else {
                            before[q]
                        });
                        if is_peer((x, y), q) {
                            lemma_peer_index((x, y), q);
                        }
                    }
                }
                k = k + 1;
            }
            proof {
                assert forall|q: (usize, usize)| is_peer((x, y), q) implies peer_index((x, y), q)
                    < 20 by {
                    lemma_peer_index((x, y), q);
                }
                assert(self@ =~= after_add_pen_mark(old(self)@, (x, y), target));
            }
        }
    }

    /// The player erases the pen mark at `(x, y)`. The peers are walked in
    /// order with a universe of allowed digits that starts full: a clue takes
    /// its digit out of the universe, and a blank peer keeps only the
    /// candidates that the universe still admits. The square itself loses its
    /// pen mark and starts its candidates over: they are what is left of the
    /// universe, and none of them counts as struck out by the player any
    /// more. The blank peers whose expected digit the universe had ruled out
    /// when the walk reached them are returned, in the order of the walk.
    /// Nothing changes, and nothing is returned, if the square is a clue or
    /// has no pen mark.
    pub fn erase_pen_mark(&mut self, x: usize, y: usize) -> (collisions: Vec<(usize, usize)>)
        requires
            x < 9,
            y < 9,
        ensures
            final(self)@ == after_erase_pen_mark(old(self)@, (x, y)),
            collisions@ == erase_pen_mark_collisions(old(self)@, (x, y)),
            collisions@.no_duplicates(),
            forall|q: (usize, usize)|
                collisions@.contains(q) <==> old(self)@[(x, y)].pen_mark() is Some && is_peer(
                    (x, y),
                    q,
                ) && old(self)@[q].answer_excluded(
                    universe_before(old(self)@, (x, y), peer_index((x, y), q)),
                ),
            final(self)@[(x, y)].pen_mark() is None,
    {
        proof {
            use_type_invariant(&*self);
        }
        let ghost start = self@;
        let ghost peers = peer_seq(x, y);
        let ghost pred = answer_excluded_at(start, (x, y));
        proof {
            lemma_erase_pen_mark_collisions(start, (x, y));
        }
        let mut collisions: Vec<(usize, usize)> = Vec::new();
        let previous = self.grid[x][y].uncommit();
        if previous.is_some() {
            let mut universe = BitMap::all();
            let mut k: usize = 0;
            proof {
                reveal(Seq::filter);
                assert(peers.take(0).filter(pred) =~= Seq::empty());
                assert(universe@ =~= universe_before(start, (x, y), 0));
            }
            while k < 20
                invariant
                    k <= 20,
                    x < 9,
                    y < 9,
                    peers == peer_seq(x, y),
                    pred == answer_excluded_at(start, (x, y)),
                    start == old(self)@,
                    universe@ == universe_before(start, (x, y), k as int),
                    collisions@ == peers.take(k as int).filter(pred),
                    forall|q: (usize, usize)| self@.dom().contains(q) <==> valid_pos(q),
                    forall|q: (usize, usize)|
                        valid_pos(q) ==> #[trigger] self@[q] == if q == (x, y) {
                            start[q].uncommit()
                        } else if is_peer((x, y), q) && peer_index((x, y), q) < k {
                            start[q].recompute_candidates_from(
                                universe_before(start, (x, y), peer_index((x, y), q)),
                            )
                        } else {
                            start[q]
                        },
                decreases 20 - k,
            {
                let (xi, yi) = Coord::peer(x, y, k);
                let ghost before = self@;
                let ghost allowed = universe@;
                proof {
                    use_type_invariant(&*self);
                    lemma_peer_at(x, y, k as int);
                    assert(before[(xi, yi)] == start[(xi, yi)]);
                    assert(peers.take(k + 1) =~= peers.take(k as int).push((xi, yi)));
                    peers.take(k as int).lemma_filter_push((xi, yi), pred);
                }
                match &self.grid[xi][yi] {
                    Cell::Printed(v) => {
                        universe.remove(*v);
                    },
                    Cell::Blank(_) => {
                        if self.grid[xi][yi].recompute_candidates_from(universe) {
                            collisions.push((xi, yi));
                        }
                    },
                }
                proof {
                    assert(universe@ =~= universe_before(start, (x, y), k + 1)) by {
                        assert forall|d: u8|
                            universe@.contains(d) <==> universe_before(
                                start,
                                (x, y),
                                k + 1,
                            ).contains(d) by {
                            if start[(xi, yi)] == CellView::Printed(d) {
                                assert(start[peer_at(x, y, k as int)] == CellView::Printed(d));
                            }
                        }
                    }
                    assert forall|q: (usize, usize)| valid_pos(q) implies #[trigger] self@[q] == if q
                        == (x, y) {
                        start[q].uncommit()
                    } else if is_peer((x, y), q) && peer_index((x, y), q) < k + 1 {
                        start[q].recompute_candidates_from(
                            universe_before(start, (x, y), peer_index((x, y), q)),
                        )
                    } else {
                        start[q]
                    } by {
                        assert(self@[q] == if q == (xi, yi) {
                            before[q].recompute_candidates_from(allowed)
                        } else {
                            before[q]
                        });
                        if is_peer((x, y), q) {
                            lemma_peer_index((x, y), q);
                        }
                    }
                }
                k = k + 1;
            }
            let ghost scanned = self@;
            proof {
                use_type_invariant(&*self);
            }
            self.grid[x][y].reset_candidates(universe);
            proof {
                assert(peers.take(20) =~= peers);
                assert forall|q: (usize, usize)| valid_pos(q) implies #[trigger] self@[q] == if q
                    == (x, y) {
                    scanned[q].reset_candidates(universe@)
                } else {
                    scanned[q]
                } by {}
                assert forall|q: (usize, usize)| is_peer((x, y), q) implies peer_index((x, y), q)
                    < 20 by {
                    lemma_peer_index((x, y), q);
                }
                assert(self@ =~= after_erase_pen_mark(start, (x, y)));
            }
        } else {
            proof {
                assert(self@ =~= start);
            }
        }
        collisions
    }
}

} // verus!
