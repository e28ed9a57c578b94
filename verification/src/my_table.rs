use vstd::prelude::*;

use crate::column::{BorrowColumn, BorrowColumnMut, Column};
use crate::int_char_text_row::IntCharTextRow;
use crate::key::Key;
use crate::row::Row;

verus! {

/// A sample aggregate: one independently lockable column per distinct
/// value type.  Nothing about it is special — any struct that can hand
/// out each of its columns satisfies the column capabilities, and the
/// row operations compose over those capabilities alone.
#[verifier::ext_equal]
pub struct MyTable {
    pub ints: Column<i32>,
    pub chars: Column<char>,
    pub texts: Column<String>,
}

impl MyTable {
    /// Every column is well formed.
    pub open spec fn wf(self) -> bool {
        &&& self.ints.wf()
        &&& self.chars.wf()
        &&& self.texts.wf()
    }

    /// No structural guard is outstanding on any column (and hence, by
    /// each column's invariant, no cell guard either).
    pub open spec fn quiescent(self) -> bool {
        &&& self.ints.lock_state().unlocked()
        &&& self.chars.lock_state().unlocked()
        &&& self.texts.lock_state().unlocked()
    }

    /// A table seeded with sample rows: rows are inserted under keys
    /// 0 to 3 and the row under key 1 is removed again, leaving keys
    /// 0, 2 and 3 in every column, all locks free.
    pub fn new() -> (r: MyTable)
        ensures
            r.wf(),
            r.quiescent(),
            forall|k: int| r.ints.has_key(k) == (k == 0 || k == 2 || k == 3),
            forall|k: int| r.chars.has_key(k) == (k == 0 || k == 2 || k == 3),
            forall|k: int| r.texts.has_key(k) == (k == 0 || k == 2 || k == 3),
            r.ints.value_at(0) == 1i32 && r.ints.value_at(2) == 2i32 && r.ints.value_at(3)
                == 3i32,
            r.chars.value_at(0) == '7' && r.chars.value_at(2) == '8' && r.chars.value_at(3)
                == '9',
            r.texts.value_at(0)@ == "four"@ && r.texts.value_at(2)@ == "five"@ && r.texts.value_at(
                3,
            )@ == "six"@,
    {
        let mut table = MyTable {
            ints: Column::new(),
            chars: Column::new(),
            texts: Column::new(),
        };
        IntCharTextRow::insert(&mut table, Key(0), (1, '7', String::from_str("four")));
        IntCharTextRow::insert(&mut table, Key(1), (2, '8', String::from_str("five")));
        IntCharTextRow::insert(&mut table, Key(2), (2, '8', String::from_str("five")));
        IntCharTextRow::insert(&mut table, Key(3), (3, '9', String::from_str("six")));
        IntCharTextRow::remove(&mut table, Key(1));
        table
    }
}

impl BorrowColumn<i32> for MyTable {
    open spec fn spec_column(&self) -> Column<i32> {
        self.ints
    }

    fn borrow_column(&self) -> (c: &Column<i32>) {
        &self.ints
    }
}

impl BorrowColumnMut<i32> for MyTable {
    open spec fn with_column(&self, c: Column<i32>) -> MyTable {
        MyTable { ints: c, chars: self.chars, texts: self.texts }
    }

    proof fn lemma_with_column(&self, c: Column<i32>) {
    }

    proof fn lemma_with_same_column(&self) {
    }

    proof fn lemma_with_column_twice(&self, c1: Column<i32>, c2: Column<i32>) {
    }

    fn borrow_column_mut(&mut self) -> (c: &mut Column<i32>) {
        &mut self.ints
    }
}

impl BorrowColumn<char> for MyTable {
    open spec fn spec_column(&self) -> Column<char> {
        self.chars
    }

    fn borrow_column(&self) -> (c: &Column<char>) {
        &self.chars
    }
}

impl BorrowColumnMut<char> for MyTable {
    open spec fn with_column(&self, c: Column<char>) -> MyTable {
        MyTable { ints: self.ints, chars: c, texts: self.texts }
    }

    proof fn lemma_with_column(&self, c: Column<char>) {
    }

    proof fn lemma_with_same_column(&self) {
    }

    proof fn lemma_with_column_twice(&self, c1: Column<char>, c2: Column<char>) {
    }

    fn borrow_column_mut(&mut self) -> (c: &mut Column<char>) {
        &mut self.chars
    }
}

impl BorrowColumn<String> for MyTable {
    open spec fn spec_column(&self) -> Column<String> {
        self.texts
    }

    fn borrow_column(&self) -> (c: &Column<String>) {
        &self.texts
    }
}

impl BorrowColumnMut<String> for MyTable {
    open spec fn with_column(&self, c: Column<String>) -> MyTable {
        MyTable { ints: self.ints, chars: self.chars, texts: c }
    }

    proof fn lemma_with_column(&self, c: Column<String>) {
    }

    proof fn lemma_with_same_column(&self) {
    }

    proof fn lemma_with_column_twice(&self, c1: Column<String>, c2: Column<String>) {
    }

    fn borrow_column_mut(&mut self) -> (c: &mut Column<String>) {
        &mut self.texts
    }
}

} // verus!
