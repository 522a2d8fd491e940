//! Rule-enforcement core of a single-player sudoku editor.
//!
//! The crate tracks, for every square of a standard 9×9 grid, whether it is a
//! printed clue or a blank the player fills in, and keeps the two layers of
//! player annotation: pencil marks (candidates) and a pen mark (the committed
//! digit). It answers which peers stand against a digit and whether a move
//! departs from the solution, and it keeps the pencil marks in step with the
//! pen marks. No check ever refuses a move: the board does what it is asked
//! and reports what is in conflict.
//!
//! * [`utils`] holds the digit set and the geometry of the grid.
//! * [`game_board`] holds the squares and the board, the mathematical model
//!   that their contracts are stated over, and the laws that relate the
//!   operations of the board to one another.
//!
//! Every executable function carries a contract that Verus proves. The board
//! and its squares keep their invariants as type invariants, so that no
//! operation asks its caller for more than positions on the grid and, where a
//! digit is written, a digit from 1 to 9.

pub mod game_board;
pub mod utils;
