//! Grouping a subscriber's rows into batches of bounded size.

use vstd::prelude::*;
use crate::event::{DataChange, Row, views};

verus! {

/// The bytes that the rows of a batch weigh together.
pub open spec fn total_size(batch: Seq<Row>) -> nat
    decreases batch.len(),
{
    if batch.len() == 0 {
        0
    } else {
        total_size(batch.drop_last()) + batch.last().size()
    }
}

/// The batches after one more row: the row joins the last batch if the two
/// together stay within `limit`, else it opens a batch of its own.
pub open spec fn place(batches: Seq<Seq<Row>>, row: Row, limit: nat) -> Seq<Seq<Row>> {
    if batches.len() > 0 && total_size(batches.last()) + row.size() <= limit {
        batches.drop_last().push(batches.last().push(row))
    } else {
        batches.push(seq![row])
    }
}

/// The batches that the rows are sent in, for a byte limit per batch.
pub open spec fn pack(rows: Seq<Row>, limit: nat) -> Seq<Seq<Row>>
    decreases rows.len(),
{
    if rows.len() == 0 {
        Seq::empty()
    } else {
        place(pack(rows.drop_last(), limit), rows.last(), limit)
    }
}

/// The rows of all batches, in order.
pub open spec fn unpack(batches: Seq<Seq<Row>>) -> Seq<Row>
    decreases batches.len(),
{
    if batches.len() == 0 {
        Seq::empty()
    } else {
        unpack(batches.drop_last()) + batches.last()
    }
}

/// Whether no batch is empty and every batch of more than one row stays
/// within the limit.
pub open spec fn well_packed(batches: Seq<Seq<Row>>, limit: nat) -> bool {
    forall|i: int|
        0 <= i < batches.len() ==> {
            &&& (#[trigger] batches[i]).len() >= 1
            &&& (batches[i].len() >= 2 ==> total_size(batches[i]) <= limit)
        }
}

/// A batch weighs at least as much as each of its rows.
pub proof fn lemma_total_size_covers(batch: Seq<Row>, j: int)
    requires
        0 <= j < batch.len(),
    ensures
        batch[j].size() <= total_size(batch),
    decreases batch.len(),
{
    if j < batch.len() - 1 {
        lemma_total_size_covers(batch.drop_last(), j);
    }
}

/// Packing loses no row, repeats none and keeps their order; no batch is
/// empty; and a batch of more than one row stays within the limit.
pub proof fn lemma_pack(rows: Seq<Row>, limit: nat)
    ensures
        unpack(pack(rows, limit)) == rows,
        well_packed(pack(rows, limit), limit),
        rows.len() > 0 ==> pack(rows, limit).len() > 0,
    decreases rows.len(),
{
    if rows.len() > 0 {
        let before = pack(rows.drop_last(), limit);
        let row = rows.last();
        lemma_pack(rows.drop_last(), limit);
        let after = pack(rows, limit);
        if before.len() > 0 && total_size(before.last()) + row.size() <= limit {
            let grown = before.last().push(row);
            assert(after.drop_last() =~= before.drop_last());
            assert(grown.drop_last() =~= before.last());
            assert(unpack(after) =~= unpack(before.drop_last()) + before.last() + seq![row]);
            assert(unpack(after) =~= rows.drop_last() + seq![row]);
            assert forall|i: int| 0 <= i < after.len() implies {
                &&& (#[trigger] after[i]).len() >= 1
                &&& (after[i].len() >= 2 ==> total_size(after[i]) <= limit)
            } by {
                if i < after.len() - 1 {
                    assert(after[i] == before[i]);
                }
            }
        } else {
            assert(after.drop_last() =~= before);
            assert(unpack(after) =~= rows.drop_last() + seq![row]);
            assert forall|i: int| 0 <= i < after.len() implies {
                &&& (#[trigger] after[i]).len() >= 1
                &&& (after[i].len() >= 2 ==> total_size(after[i]) <= limit)
            } by {
                if i < after.len() - 1 {
                    assert(after[i] == before[i]);
                }
            }
        }
        assert(rows.drop_last() + seq![row] =~= rows);
    }
}

/// A row that alone exceeds the limit shares its batch with no other row.
pub proof fn lemma_oversized_row_is_alone(rows: Seq<Row>, limit: nat, i: int, j: int)
    requires
        0 <= i < pack(rows, limit).len(),
        0 <= j < pack(rows, limit)[i].len(),
        pack(rows, limit)[i][j].size() > limit,
    ensures
        pack(rows, limit)[i].len() == 1,
{
    lemma_pack(rows, limit);
    lemma_total_size_covers(pack(rows, limit)[i], j);
}

/// The views of batches of rows.
pub open spec fn batch_views(batches: Seq<Vec<DataChange>>) -> Seq<Seq<Row>> {
    Seq::new(batches.len(), |i: int| views(batches[i]@))
}

/// The bytes a row weighs, where they can be counted.
fn row_size(row: &DataChange) -> (n: Option<usize>)
    ensures
        match n {
            Some(n) => n == row@.size(),
            None => row@.size() > usize::MAX,
        },
{
    match row.key.len().checked_add(row.value.len()) {
        Some(kv) => kv.checked_add(row.old_value.len()),
        None => None,
    }
}

/// Groups rows into batches for a byte limit per batch. Rows are taken in
/// order; a row joins the batch before it while the batch stays within the
/// limit, so a row that alone exceeds the limit travels alone.
pub fn pack_batches(rows: Vec<DataChange>, limit: usize) -> (batches: Vec<Vec<DataChange>>)
    ensures
        batch_views(batches@) == pack(views(rows@), limit as nat),
{
    let ghost all = views(rows@);
    let mut done: Vec<Vec<DataChange>> = Vec::new();
    let mut cur: Vec<DataChange> = Vec::new();
    // The weight of `cur`, where it is within the limit.
    let mut cur_size: usize = 0;
    let mut cur_fits: bool = false;
    let mut rows = rows;
    let mut rest: Vec<DataChange> = Vec::new();
    // Rows are moved out from the back, so turn them round first.
    while rows.len() > 0
        invariant
            views(rows@) + views(rest@).reverse() == all,
        decreases rows.len(),
    {
        let ghost before_rows = views(rows@);
        let ghost before_rest = views(rest@);
        let row = rows.pop().unwrap();
        proof {
            crate::event::lemma_views_push(rest@, row);
            assert(views(rows@) =~= before_rows.drop_last());
            assert(before_rest.push(row@).reverse() =~= seq![row@] + before_rest.reverse());
            assert(before_rows.drop_last() + (seq![row@] + before_rest.reverse()) =~= before_rows
                + before_rest.reverse());
        }
        rest.push(row);
    }
    proof {
        assert(views(rows@) =~= Seq::empty());
        assert(views(rows@) + views(rest@).reverse() =~= views(rest@).reverse());
        assert(all.skip(0) =~= all);
        assert(views(rest@).reverse().len() == rest.len());
        assert(all.take(0) =~= Seq::empty());
        assert(batch_views(done@) =~= Seq::empty());
    }
    let ghost n = all.len();
    let mut i: usize = 0;
    while rest.len() > 0
        invariant
            n == all.len(),
            n <= usize::MAX,
            i + rest.len() == n,
            views(rest@).reverse() == all.skip(i as int),
            cur.len() == 0 <==> i == 0,
            i == 0 ==> done.len() == 0,
            i > 0 ==> pack(all.take(i as int), limit as nat) == batch_views(done@).push(views(cur@)),
            i > 0 && cur_fits ==> cur_size == total_size(views(cur@)) && cur_size <= limit,
            i > 0 && !cur_fits ==> total_size(views(cur@)) > limit,
        decreases rest.len(),
    {
        let ghost before_rest = views(rest@);
        let row = rest.pop().unwrap();
        proof {
            assert(views(rest@) =~= before_rest.drop_last());
            assert(before_rest.reverse()[0] == row@);
            assert(all[i as int] == row@);
            assert(before_rest.drop_last().reverse() =~= before_rest.reverse().drop_first());
            assert(views(rest@).reverse() =~= all.skip(i + 1));
            assert(all.take(i + 1).drop_last() =~= all.take(i as int));
            assert(all.take(i + 1).last() == row@);
        }
        let size = row_size(&row);
        let joins = i > 0 && cur_fits && match size {
            Some(s) => s <= limit - cur_size,
            None => false,
        };
        if joins {
            proof {
                crate::event::lemma_views_push(cur@, row);
                assert(views(cur@).push(row@).drop_last() =~= views(cur@));
                assert(batch_views(done@).push(views(cur@)).drop_last() =~= batch_views(done@));
            }
            cur_size = cur_size + size.unwrap();
            cur.push(row);
        } else {
            let ghost closed = views(cur@);
            let ghost before_done = batch_views(done@);
            if i > 0 {
                done.push(cur);
                proof {
                    assert(batch_views(done@) =~= before_done.push(closed));
                }
            }
            cur = Vec::new();
            proof {
                crate::event::lemma_views_push(cur@, row);
                assert(views(cur@) =~= Seq::empty());
                assert(Seq::<Row>::empty().push(row@) =~= seq![row@]);
                assert(seq![row@].drop_last() =~= Seq::<Row>::empty());
                assert(total_size(seq![row@]) == row@.size()) by {
                    reveal_with_fuel(total_size, 2);
                }
                if i == 0 {
                    assert(pack(all.take(0), limit as nat) =~= Seq::empty());
                    assert(batch_views(done@) =~= Seq::empty());
                }
            }
            cur.push(row);
            match size {
                Some(s) => {
                    cur_fits = s <= limit;
                    cur_size = s;
                },
                None => {
                    cur_fits = false;
                },
            }
        }
        i = i + 1;
    }
    proof {
        assert(all.take(n as int) =~= all);
    }
    if i > 0 {
        let ghost closed = views(cur@);
        let ghost before_done = batch_views(done@);
        done.push(cur);
        proof {
            assert(batch_views(done@) =~= before_done.push(closed));
        }
    } else {
        proof {
            assert(all =~= Seq::empty());
            assert(batch_views(done@) =~= Seq::empty());
        }
    }
    done
}

} // verus!
