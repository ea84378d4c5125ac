//! The items table, modelled in memory: a sequence of item records in which
//! every barcode appears at most once, with the six storage operations the
//! service needs.

use vstd::prelude::*;
use crate::item::{Item, ItemModel};

verus! {

/// Why a storage operation failed.  `NotFound`: no row carries the barcode.
/// `Conflict`: a row already carries it.  `Storage`: any other backing-store
/// failure; the in-memory table never produces it, a persistent backing may.
#[derive(Debug, Clone, Copy, PartialEq, Eq, Structural)]
pub enum StoreError {
    NotFound,
    Conflict,
    Storage,
}

/// The models of a sequence of records.
pub open spec fn models_of(rows: Seq<Item>) -> Seq<ItemModel> {
    Seq::new(rows.len(), |i: int| rows[i]@)
}

/// No barcode appears twice.
pub open spec fn barcodes_unique(rows: Seq<ItemModel>) -> bool {
    forall|i: int, j: int| 0 <= i < j < rows.len() ==> rows[i].barcode != rows[j].barcode
}

/// Some row carries barcode `b`.
pub open spec fn has_barcode(rows: Seq<ItemModel>, b: u64) -> bool {
    exists|i: int| 0 <= i < rows.len() && rows[i].barcode == b
}

/// The index of the row carrying `b` (meaningful when `has_barcode`).
pub open spec fn idx_of(rows: Seq<ItemModel>, b: u64) -> int {
    choose|i: int| 0 <= i < rows.len() && rows[i].barcode == b
}

/// The row carrying `b` (meaningful when `has_barcode`).
pub open spec fn row_for(rows: Seq<ItemModel>, b: u64) -> ItemModel {
    rows[idx_of(rows, b)]
}

/// The table after deleting the row carrying `b`.
pub open spec fn removed(rows: Seq<ItemModel>, b: u64) -> Seq<ItemModel> {
    rows.remove(idx_of(rows, b))
}

/// The table after overwriting the row carrying `m.barcode` with `m`.
pub open spec fn replaced(rows: Seq<ItemModel>, m: ItemModel) -> Seq<ItemModel> {
    rows.update(idx_of(rows, m.barcode), m)
}

/// The table after stamping the row carrying `b` as last seen at `ts`;
/// its other fields keep their values.
pub open spec fn touched(rows: Seq<ItemModel>, b: u64, ts: u64) -> Seq<ItemModel> {
    rows.update(idx_of(rows, b), ItemModel { last_seen: Some(ts), ..row_for(rows, b) })
}

/// In a table without duplicate barcodes, any row carrying `b` stands at
/// `idx_of`.
pub proof fn lemma_idx_unique(rows: Seq<ItemModel>, b: u64, i: int)
    requires
        barcodes_unique(rows),
        0 <= i < rows.len(),
        rows[i].barcode == b,
    ensures
        idx_of(rows, b) == i,
        has_barcode(rows, b),
{
    assert(has_barcode(rows, b));
    let j = idx_of(rows, b);
    if j < i {
        assert(rows[j].barcode != rows[i].barcode);
    } else if j > i {
        assert(rows[i].barcode != rows[j].barcode);
    }
}

/// The items table.
pub struct ItemStore {
    rows: Vec<Item>,
}

impl View for ItemStore {
    type V = Seq<ItemModel>;

    closed spec fn view(&self) -> Seq<ItemModel> {
        models_of(self.rows@)
    }
}

impl ItemStore {
    /// The table is well formed: no barcode appears twice.
    pub open spec fn wf(&self) -> bool {
        barcodes_unique(self@)
    }

    /// An empty table.
    pub fn new() -> (r: Self)
        ensures
            r@ == Seq::<ItemModel>::empty(),
            r.wf(),
    {
        let r = ItemStore { rows: Vec::new() };
        proof {
            assert(r@ =~= Seq::<ItemModel>::empty());
        }
        r
    }

    /// How many rows the table holds.
    pub fn len(&self) -> (n: usize)
        ensures
            n == self@.len(),
    {
        self.rows.len()
    }

    /// The position of the row carrying `b`, if any.
    fn find(&self, b: u64) -> (r: Option<usize>)
        requires
            self.wf(),
        ensures
            match r {
                Some(i) => has_barcode(self@, b) && idx_of(self@, b) == i && i < self@.len(),
                None => !has_barcode(self@, b),
            },
    {
        let n = self.rows.len();
        let mut i: usize = 0;
        while i < n
            invariant
                self.wf(),
                n == self@.len(),
                0 <= i <= n,
                forall|k: int| 0 <= k < i ==> self@[k].barcode != b,
            decreases n - i,
        {
            if self.rows[i].barcode == b {
                proof {
                    lemma_idx_unique(self@, b, i as int);
                }
                return Some(i);
            }
            i = i + 1;
        }
        None
    }
}

impl Item {
    /// Insert this record as a new row; refused with `Conflict` when a row
    /// already carries its barcode.
    pub fn save(&self, store: &mut ItemStore) -> (r: Result<(), StoreError>)
        requires
            old(store).wf(),
        ensures
            final(store).wf(),
            has_barcode(old(store)@, self@.barcode) ==> r == Err::<(), StoreError>(
                StoreError::Conflict,
            ) && final(store)@ == old(store)@,
            !has_barcode(old(store)@, self@.barcode) ==> r == Ok::<(), StoreError>(())
                && final(store)@ == old(store)@.push(self@),
    {
        match store.find(self.barcode) {
            Some(_) => Err(StoreError::Conflict),
            None => {
                store.rows.push(self.duplicate());
                proof {
                    assert(store@ =~= old(store)@.push(self@));
                }
                Ok(())
            },
        }
    }
}

/// Every row, in table order.
pub fn load_items(store: &ItemStore) -> (r: Result<Vec<Item>, StoreError>)
    ensures
        r matches Ok(v) && models_of(v@) == store@,
{
    let n = store.rows.len();
    let mut out: Vec<Item> = Vec::new();
    let mut i: usize = 0;
    while i < n
        invariant
            n == store.rows@.len(),
            0 <= i <= n,
            models_of(out@) =~= store@.subrange(0, i as int),
        decreases n - i,
    {
        let ghost prev = out@;
        out.push(store.rows[i].duplicate());
        proof {
            assert(models_of(prev).len() == prev.len());
            assert(prev.len() == i);
            assert(out@ == prev.push(out@[i as int]));
            assert forall|k: int| 0 <= k < out@.len() implies models_of(out@)[k] == store@.subrange(
                0,
                i + 1,
            )[k] by {
                if k < i {
                    assert(out@[k] == prev[k]);
                    assert(models_of(prev)[k] == store@.subrange(0, i as int)[k]);
                } else {
                    assert(out@[k]@ == store.rows@[i as int]@);
                }
            }
            assert(models_of(out@) =~= store@.subrange(0, i + 1));
        }
        i = i + 1;
    }
    proof {
        assert(store@.subrange(0, n as int) =~= store@);
    }
    Ok(out)
}

/// The unique row carrying `barcode`; `NotFound` when there is none.
pub fn load_item(store: &ItemStore, barcode: u64) -> (r: Result<Item, StoreError>)
    requires
        store.wf(),
    ensures
        has_barcode(store@, barcode) ==> (r matches Ok(it) && it@ == row_for(store@, barcode)),
        !has_barcode(store@, barcode) ==> r == Err::<Item, StoreError>(StoreError::NotFound),
{
    match store.find(barcode) {
        Some(i) => Ok(store.rows[i].duplicate()),
        None => Err(StoreError::NotFound),
    }
}

/// Delete the row carrying `barcode`; `NotFound` when there is none.
pub fn delete_item(store: &mut ItemStore, barcode: u64) -> (r: Result<(), StoreError>)
    requires
        old(store).wf(),
    ensures
        final(store).wf(),
        has_barcode(old(store)@, barcode) ==> r == Ok::<(), StoreError>(()) && final(store)@
            == removed(old(store)@, barcode),
        !has_barcode(old(store)@, barcode) ==> r == Err::<(), StoreError>(StoreError::NotFound)
            && final(store)@ == old(store)@,
{
    match store.find(barcode) {
        Some(i) => {
            store.rows.remove(i);
            proof {
                assert(store@ =~= removed(old(store)@, barcode));
                lemma_unique_remove(old(store)@, idx_of(old(store)@, barcode));
            }
            Ok(())
        },
        None => Err(StoreError::NotFound),
    }
}

/// Overwrite the text fields and timestamp of the row carrying
/// `item.barcode`; `NotFound` when there is none.  Never inserts.
pub fn modify_item(store: &mut ItemStore, item: Item) -> (r: Result<(), StoreError>)
    requires
        old(store).wf(),
    ensures
        final(store).wf(),
        has_barcode(old(store)@, item@.barcode) ==> r == Ok::<(), StoreError>(()) && final(store)@
            == replaced(old(store)@, item@),
        !has_barcode(old(store)@, item@.barcode) ==> r == Err::<(), StoreError>(
            StoreError::NotFound,
        ) && final(store)@ == old(store)@,
{
    match store.find(item.barcode) {
        Some(i) => {
            let ghost m = item@;
            store.rows.set(i, item);
            proof {
                assert(store@ =~= replaced(old(store)@, m));
                lemma_unique_update_same(old(store)@, idx_of(old(store)@, m.barcode), m);
            }
            Ok(())
        },
        None => Err(StoreError::NotFound),
    }
}

/// Stamp the row carrying `barcode` as last seen at `ts`, leaving its other
/// fields unchanged; `NotFound` when there is none.
pub fn touch_last_seen(store: &mut ItemStore, barcode: u64, ts: u64) -> (r: Result<
    (),
    StoreError,
>)
    requires
        old(store).wf(),
    ensures
        final(store).wf(),
        has_barcode(old(store)@, barcode) ==> r == Ok::<(), StoreError>(()) && final(store)@
            == touched(old(store)@, barcode, ts),
        !has_barcode(old(store)@, barcode) ==> r == Err::<(), StoreError>(StoreError::NotFound)
            && final(store)@ == old(store)@,
{
    match store.find(barcode) {
        Some(i) => {
            let mut it = store.rows[i].duplicate();
            it.last_seen = Some(ts);
            store.rows.set(i, it);
            proof {
                assert(store@ =~= touched(old(store)@, barcode, ts));
                lemma_unique_update_same(
                    old(store)@,
                    idx_of(old(store)@, barcode),
                    store@[i as int],
                );
            }
            Ok(())
        },
        None => Err(StoreError::NotFound),
    }
}

/// Removing a row keeps barcodes unique.
pub(crate) proof fn lemma_unique_remove(rows: Seq<ItemModel>, i: int)
    requires
        barcodes_unique(rows),
        0 <= i < rows.len(),
    ensures
        barcodes_unique(rows.remove(i)),
{
    let out = rows.remove(i);
    assert forall|p: int, q: int| 0 <= p < q < out.len() implies out[p].barcode
        != out[q].barcode by {
        let p0 = if p < i {
            p
        } else {
            p + 1
        };
        let q0 = if q < i {
            q
        } else {
            q + 1
        };
        assert(out[p] == rows[p0]);
        assert(out[q] == rows[q0]);
    }
}

/// Overwriting a row with one carrying the same barcode keeps barcodes
/// unique.
pub(crate) proof fn lemma_unique_update_same(rows: Seq<ItemModel>, i: int, m: ItemModel)
    requires
        barcodes_unique(rows),
        0 <= i < rows.len(),
        m.barcode == rows[i].barcode,
    ensures
        barcodes_unique(rows.update(i, m)),
{
}

} // verus!
