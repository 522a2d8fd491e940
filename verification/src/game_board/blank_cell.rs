//! A blank square: one the player fills in.
//!
//! A blank square knows the digit the puzzle expects in it, the pencil marks
//! (candidates) the player currently keeps, which digits the player struck
//! out by hand, and the pen mark, if the player has committed to a digit.

use crate::utils::bit_map::{all_digits, is_digit, BitMap};
use vstd::prelude::*;

verus! {

/// What a blank square holds, as plain mathematical data.
#[verifier::ext_equal]
pub struct BlankCellView {
    /// The digit the puzzle expects here.
    pub answer: u8,
    /// The pencil marks the player has not ruled out.
    pub candidates: Set<u8>,
    /// The digits the player removed by hand.
    pub user_deleted: Set<u8>,
    /// The pen mark, if there is one.
    pub committed: Option<u8>,
}

impl BlankCellView {
    /// Every value is a digit, and no digit is at once a candidate and
    /// struck out by the player.
    pub open spec fn wf(self) -> bool {
        &&& is_digit(self.answer)
        &&& self.candidates.subset_of(all_digits())
        &&& self.user_deleted.subset_of(all_digits())
        &&& self.candidates.disjoint(self.user_deleted)
        &&& (self.committed matches Some(v) ==> is_digit(v))
    }

    /// A fresh square that expects `answer`: no marks of any kind.
    pub open spec fn fresh(answer: u8) -> Self {
        BlankCellView {
            answer,
            candidates: Set::empty(),
            user_deleted: Set::empty(),
            committed: None,
        }
    }

    /// Pencils `target` in. A digit that comes back is no longer struck out.
    /// Nothing changes if `target` is a candidate already.
    pub open spec fn candidate_add(self, target: u8) -> Self {
        if self.candidates.contains(target) {
            self
        } else {
            BlankCellView {
                candidates: self.candidates.insert(target),
                user_deleted: self.user_deleted.remove(target),
                ..self
            }
        }
    }

    /// Rubs the pencil mark `target` out, and records it as struck out by the
    /// player if `by_user`. Nothing changes if `target` is no candidate.
    pub open spec fn candidate_remove(self, target: u8, by_user: bool) -> Self {
        if !self.candidates.contains(target) {
            self
        } else {
            BlankCellView {
                candidates: self.candidates.remove(target),
                user_deleted: if by_user {
                    self.user_deleted.insert(target)
                } else {
                    self.user_deleted
                },
                ..self
            }
        }
    }

    /// Writes `target` in pen. The pencil marks stay as they are.
    pub open spec fn commit(self, target: u8) -> Self {
        BlankCellView { committed: Some(target), ..self }
    }

    /// Takes the pen mark away.
    pub open spec fn uncommit(self) -> Self {
        BlankCellView { committed: None, ..self }
    }

    /// Whether `target` is the digit the puzzle expects here.
    pub open spec fn matches_answer(self, target: u8) -> bool {
        target == self.answer
    }

    /// Whether the square holds `target` in pen.
    pub open spec fn holds(self, target: u8) -> bool {
        self.committed == Some(target)
    }

    /// Keeps only the candidates that `allowed` admits.
    pub open spec fn recompute_candidates_from(self, allowed: Set<u8>) -> Self {
        BlankCellView { candidates: self.candidates.intersect(allowed), ..self }
    }

    /// Whether narrowing to `allowed` rules the expected digit out.
    pub open spec fn answer_excluded(self, allowed: Set<u8>) -> bool {
        !allowed.contains(self.answer)
    }

    /// Starts the candidates over from `allowed`: they are exactly the digits
    /// of `allowed`, and none of those counts as struck out by the player any
    /// more.
    pub open spec fn reset_candidates(self, allowed: Set<u8>) -> Self {
        BlankCellView {
            candidates: allowed,
            user_deleted: self.user_deleted.difference(allowed),
            ..self
        }
    }
}

/// A blank square of the board.
#[derive(Clone, Copy, Debug, PartialEq, Eq)]
pub struct BlankCell {
    answer: u8,
    candidates: BitMap,
    user_deleted: BitMap,
    committed: Option<u8>,
}

impl View for BlankCell {
    type V = BlankCellView;

    closed spec fn view(&self) -> BlankCellView {
        BlankCellView {
            answer: self.answer,
            candidates: self.candidates@,
            user_deleted: self.user_deleted@,
            committed: self.committed,
        }
    }
}

impl BlankCell {
    /// The expected digit and the pen mark are digits, and no digit is at
    /// once a candidate and struck out by the player.
    #[verifier::type_invariant]
    pub closed spec fn wf(self) -> bool {
        &&& is_digit(self.answer)
        &&& self.candidates@.disjoint(self.user_deleted@)
        &&& (self.committed matches Some(v) ==> is_digit(v))
    }

    /// A well-formed square has a well-formed view.
    pub proof fn lemma_view_wf(self)
        requires
            self.wf(),
        ensures
            self@.wf(),
    {
        self.candidates.lemma_view_digits();
        self.user_deleted.lemma_view_digits();
    }

    /// A fresh square that expects `answer`, or `None` if `answer` is no
    /// digit.
    pub fn new(answer: u8) -> (r: Option<Self>)
        ensures
            r is Some <==> is_digit(answer),
            r matches Some(cell) ==> cell@ == BlankCellView::fresh(answer),
        no_unwind
    {
        if 1 <= answer && answer <= 9 {
            Some(
                BlankCell {
                    answer,
                    candidates: BitMap::empty(),
                    user_deleted: BitMap::empty(),
                    committed: None,
                },
            )
        } else {
            None
        }
    }

    /// The digit the puzzle expects here.
    pub fn answer(&self) -> (r: u8)
        ensures
            r == self@.answer,
            is_digit(r),
        no_unwind
    {
        proof {
            use_type_invariant(self);
        }
        self.answer
    }

    /// The current pencil marks.
    pub fn candidates(&self) -> (r: BitMap)
        ensures
            r@ == self@.candidates,
        no_unwind
    {
        self.candidates
    }

    /// The digits the player struck out by hand.
    pub fn user_deleted(&self) -> (r: BitMap)
        ensures
            r@ == self@.user_deleted,
            r@.disjoint(self@.candidates),
        no_unwind
    {
        proof {
            use_type_invariant(self);
        }
        self.user_deleted
    }

    /// The pen mark, if there is one.
    pub fn committed(&self) -> (r: Option<u8>)
        ensures
            r == self@.committed,
            r matches Some(v) ==> is_digit(v),
        no_unwind
    {
        proof {
            use_type_invariant(self);
        }
        self.committed
    }

    /// Whether `target` is the digit the puzzle expects here.
    pub fn matches_answer(&self, target: u8) -> (r: bool)
        ensures
            r == self@.matches_answer(target),
        no_unwind
    {
        target == self.answer
    }

    /// Whether the square holds `target` in pen.
    pub fn check_collision(&self, target: u8) -> (r: bool)
        ensures
            r == self@.holds(target),
        no_unwind
    {
        match self.committed {
            Some(v) => v == target,
            None => false,
        }
    }

    /// Pencils `target` in and forgets that the player once struck it out.
    /// Nothing changes if `target` is a candidate already.
    pub fn candidate_add(&mut self, target: u8)
        requires
            is_digit(target),
        ensures
            final(self)@ == old(self)@.candidate_add(target),
        no_unwind
    {
        proof {
            use_type_invariant(&*self);
        }
        if !self.candidates.contains(target) {
            self.user_deleted.remove(target);
            self.candidates.insert(target);
        }
    }

    /// Rubs the pencil mark `target` out; if `by_user`, also records that the
    /// player struck it out. Nothing changes if `target` is no candidate.
    pub fn candidate_remove(&mut self, target: u8, by_user: bool)
        ensures
            final(self)@ == old(self)@.candidate_remove(target, by_user),
        no_unwind
    {
        proof {
            use_type_invariant(&*self);
            self.candidates.lemma_view_digits();
        }
        if self.candidates.contains(target) {
            self.candidates.remove(target);
            if by_user {
                self.user_deleted.insert(target);
            }
        }
    }

    /// Writes `target` in pen. The pencil marks stay as they are.
    pub fn commit(&mut self, target: u8)
        requires
            is_digit(target),
        ensures
            final(self)@ == old(self)@.commit(target),
        no_unwind
    {
        proof {
            use_type_invariant(&*self);
        }
        self.committed = Some(target);
    }

    /// Takes the pen mark away and returns it; `None` if there was none.
    pub fn uncommit(&mut self) -> (previous: Option<u8>)
        ensures
            previous == old(self)@.committed,
            final(self)@ == old(self)@.uncommit(),
        no_unwind
    {
        proof {
            use_type_invariant(&*self);
        }
        let previous = self.committed;
        self.committed = None;
        previous
    }

    /// Keeps only the candidates that `allowed` admits, and reports whether
    /// `allowed` rules out the digit the puzzle expects here.
    pub fn recompute_candidates_from(&mut self, allowed: BitMap) -> (collision: bool)
        ensures
            final(self)@ == old(self)@.recompute_candidates_from(allowed@),
            collision == old(self)@.answer_excluded(allowed@),
        no_unwind
    {
        proof {
            use_type_invariant(&*self);
        }
        self.candidates = self.candidates.intersect(&allowed);
        !allowed.contains(self.answer)
    }

    /// Starts the candidates over from `allowed`: they become exactly the
    /// digits of `allowed`, and as with any digit that is pencilled in again,
    /// none of those counts as struck out by the player any more.
    pub fn reset_candidates(&mut self, allowed: BitMap)
        ensures
            final(self)@ == old(self)@.reset_candidates(allowed@),
        no_unwind
    {
        proof {
            use_type_invariant(&*self);
            allowed.lemma_view_digits();
            self.user_deleted.lemma_view_digits();
        }
        let others = allowed.complement();
        self.user_deleted = self.user_deleted.intersect(&others);
        self.candidates = allowed;
        proof {
            assert(self.user_deleted@ =~= old(self).user_deleted@.difference(allowed@));
        }
    }
}

} // verus!
