use vstd::prelude::*;

use crate::int_char_text_row::IntCharTextRow;
use crate::key::{keys_contain, keys_sorted, Key};
use crate::my_table::MyTable;
use crate::row::Row;

verus! {

/// The character a row's glyph cell is restamped to: the low byte of the
/// row's integer field.
pub open spec fn glyph_for(v: i32) -> char {
    ((v & 0xff) as u8) as char
}

/// Walk every row present in all columns, in key order: compose the row,
/// overwrite its glyph cell with the character drawn from its integer
/// field, and record (key, integer, new glyph) for display.  Rows are
/// composed and released one by one — no lock is held across rows, so
/// the key list could go stale under concurrency; here each listed key
/// is still present when its row is composed, and that is proved.
pub fn relabel_rows(db: &mut MyTable) -> (out: Vec<(Key, i32, char)>)
    requires
        old(db).wf(),
        old(db).quiescent(),
    ensures
        final(db).wf(),
        final(db).quiescent(),
        forall|k: int| final(db).ints.has_key(k) == old(db).ints.has_key(k),
        forall|k: int| final(db).chars.has_key(k) == old(db).chars.has_key(k),
        forall|k: int| final(db).texts.has_key(k) == old(db).texts.has_key(k),
        forall|k: int|
            old(db).ints.has_key(k) ==> final(db).ints.value_at(k) == old(db).ints.value_at(k),
        forall|k: int|
            old(db).texts.has_key(k) ==> final(db).texts.value_at(k) == old(db).texts.value_at(k),
        forall|k: int|
            #[trigger] IntCharTextRow::present(*old(db), k) ==> final(db).chars.value_at(k)
                == glyph_for(old(db).ints.value_at(k)),
        forall|k: int|
            old(db).chars.has_key(k) && !IntCharTextRow::present(*old(db), k) ==> final(db).chars.value_at(k) == old(db).chars.value_at(k),
        forall|i: int, j: int|
            0 <= i < j < out@.len() ==> (#[trigger] out@[i]).0.0 < (#[trigger] out@[j]).0.0,
        forall|i: int|
            0 <= i < out@.len() ==> IntCharTextRow::present(*old(db), (#[trigger] out@[i]).0.0 as int)
                && out@[i].1 == old(db).ints.value_at(out@[i].0.0 as int) && out@[i].2
                == glyph_for(out@[i].1),
        forall|k: int|
            IntCharTextRow::present(*old(db), k) == exists|i: int|
                0 <= i < out@.len() && (#[trigger] out@[i]).0.0 == k,
{
    let common = IntCharTextRow::common_keys(db);
    let mut out: Vec<(Key, i32, char)> = Vec::new();
    let mut idx: usize = 0;
    while idx < common.len()
        invariant
            db.wf(),
            db.quiescent(),
            idx <= common@.len(),
            keys_sorted(common@),
            forall|k: int| keys_contain(common@, k) == IntCharTextRow::present(*old(db), k),
            forall|k: int| db.ints.has_key(k) == old(db).ints.has_key(k),
            forall|k: int| db.chars.has_key(k) == old(db).chars.has_key(k),
            forall|k: int| db.texts.has_key(k) == old(db).texts.has_key(k),
            forall|k: int|
                old(db).ints.has_key(k) ==> db.ints.value_at(k) == old(db).ints.value_at(k),
            forall|k: int|
                old(db).texts.has_key(k) ==> db.texts.value_at(k) == old(db).texts.value_at(k),
            forall|k: int|
                keys_contain(common@.take(idx as int), k) ==> db.chars.value_at(k) == glyph_for(
                    old(db).ints.value_at(k),
                ),
            forall|k: int|
                old(db).chars.has_key(k) && !keys_contain(common@.take(idx as int), k) ==> db.chars.value_at(k) == old(db).chars.value_at(k),
            out@.len() == idx,
            forall|i: int|
                0 <= i < idx ==> (#[trigger] out@[i]).0 == common@[i] && out@[i].1 == old(db).ints.value_at(common@[i].0 as int) && out@[i].2 == glyph_for(out@[i].1),
        decreases common@.len() - idx,
    {
        let ghost pre = *db;
        let key = common[idx];
        proof {
            assert(keys_contain(common@, key.0 as int));
            db.ints.lemma_unlocked_cells_unlocked();
            db.chars.lemma_unlocked_cells_unlocked();
            db.texts.lemma_unlocked_cells_unlocked();
        }
        let row = IntCharTextRow::new(db, key);
        let ghost db_viewed = *db;
        let v = row.int_value(db);
        proof {
            assert(0 <= (v & 0xff) < 256) by (bit_vector);
        }
        let b: u8 = (v & 0xff) as u8;
        let c: char = b as char;
        row.set_glyph(db, c);
        let ghost db_stamped = *db;
        row.release(db);
        out.push((key, v, c));
        idx = idx + 1;
        proof {
            assert(common@.take(idx as int) =~= common@.take(idx as int - 1).push(key));
            assert forall|k: int|
                keys_contain(common@.take(idx as int), k) implies db.chars.value_at(k)
                == glyph_for(old(db).ints.value_at(k)) by {
                let x = choose|x: int|
                    0 <= x < idx && (#[trigger] common@.take(idx as int)[x]).0 == k;
                if x < idx - 1 {
                    assert(keys_contain(common@.take(idx as int - 1), k));
                    assert(common@[x].0 == k);
                    assert(keys_contain(common@, k));
                    assert(k != key.0 as int);
                    assert(old(db).chars.has_key(k));
                    assert(pre.chars.has_key(k));
                    assert(db_viewed.chars.has_key(k));
                    assert(pre.chars.value_at(k) == glyph_for(old(db).ints.value_at(k)));
                    assert(db_viewed.chars.value_at(k) == pre.chars.value_at(k));
                    assert(db_stamped.chars.value_at(k) == db_viewed.chars.value_at(k));
                    assert(db.chars.value_at(k) == db_stamped.chars.value_at(k));
                } else {
                    assert(k == key.0 as int);
                    assert(db_stamped.chars.value_at(k) == c);
                    assert(db.chars.value_at(k) == db_stamped.chars.value_at(k));
                }
            }
            assert forall|k: int|
                old(db).chars.has_key(k) && !keys_contain(common@.take(idx as int), k) implies db.chars.value_at(k) == old(db).chars.value_at(k) by {
                assert(!keys_contain(common@.take(idx as int - 1), k));
                assert(common@.take(idx as int)[idx - 1].0 == key.0);
                assert(k != key.0 as int);
                assert(pre.chars.has_key(k));
                assert(db_viewed.chars.has_key(k));
                assert(pre.chars.value_at(k) == old(db).chars.value_at(k));
                assert(db_viewed.chars.value_at(k) == pre.chars.value_at(k));
                assert(db_stamped.chars.value_at(k) == db_viewed.chars.value_at(k));
                assert(db.chars.value_at(k) == db_stamped.chars.value_at(k));
            }
        }
    }
    proof {
        assert(common@.take(common@.len() as int) =~= common@);
        assert forall|k: int|
            IntCharTextRow::present(*old(db), k) == exists|i: int|
                0 <= i < out@.len() && (#[trigger] out@[i]).0.0 == k by {
            if IntCharTextRow::present(*old(db), k) {
                assert(keys_contain(common@, k));
                let x = choose|x: int| 0 <= x < common@.len() && (#[trigger] common@[x]).0 == k;
                assert(out@[x].0.0 == k);
            }
            if exists|i: int| 0 <= i < out@.len() && (#[trigger] out@[i]).0.0 == k {
                let x = choose|i: int| 0 <= i < out@.len() && (#[trigger] out@[i]).0.0 == k;
                assert(common@[x].0 == k);
                assert(keys_contain(common@, k));
            }
        }
    }
    out
}

} // verus!
