//! A column-oriented in-memory record store with a two-level locking
//! discipline: every column carries a structural (shared/exclusive) lock
//! around an ordered mapping from keys to cells, and every cell carries its
//! own value lock.  Composite views acquire a column lock and a cell lock
//! together and expose the cell's value for as long as both are held.
//!
//! Locks are modelled explicitly: acquisition is an operation on the column
//! that either succeeds and records the new guard, or leaves the column
//! untouched (the caller would have to wait).  The contracts state exactly
//! when an acquisition succeeds, what a held guard permits, and what it
//! forbids, so the classic reader/writer laws are theorems here.

mod key;
mod lock;
mod column;
mod column_view;
mod column_view_mut;
mod cell_view;
mod cell_view_mut;
mod row;
mod my_table;
mod int_char_text_row;
mod print_system;
mod fizz_buzz;
mod list_ops;
mod cons;
mod tup;
mod render_threading;
mod apply;

pub use key::{keys_contain, keys_sorted, Key};
pub use lock::LockState;
pub use column::{cell_guard_sum, BorrowColumn, BorrowColumnMut, Cell, Column, Entry};
pub use column_view::ColumnView;
pub use column_view_mut::ColumnViewMut;
pub use cell_view::CellView;
pub use cell_view_mut::CellViewMut;
pub use row::{intersect_keys, union_keys, Row};
pub use my_table::MyTable;
pub use int_char_text_row::{lemma_insert_then_new_round_trip, lemma_remove_then_keys_absent, IntCharTextRow};
pub use print_system::{glyph_for, relabel_rows};
pub use fizz_buzz::{answer, answer_alternate, decimal_string, spec_answer, spec_decimal};
pub use list_ops::{concat_decimals, concat_decimals_rev, fold_add, fold_add_first, join, prefixes, skip_front, spec_sum, suffixes, take_front};
pub use cons::{cons, Cons, HNil};
pub use tup::Tup;
pub use render_threading::{frame_due, GameState, Interpolate, SharedState};
pub use apply::Apply;
