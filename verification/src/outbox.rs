//! What a step sends out, sorted for the sinks: to every subscriber its
//! events in order, the rows among them in batches.

use vstd::prelude::*;
use crate::Ts;
use crate::batch::{batch_views, pack, pack_batches};
use crate::event::{DataChange, Delivery, DeliveryView, ErrorKind, Event, EventView, Row, lemma_views_push, views};
use crate::vecs::reversed;

verus! {

/// What is handed to a sink in one piece.
#[derive(Debug)]
pub enum Batch {
    /// Rows, which together stay within the byte limit unless there is one only.
    Rows(Vec<DataChange>),
    ResolvedTs { region_ids: Vec<u64>, ts: Ts },
    Error(ErrorKind),
}

/// The mathematical value of a `Batch`.
pub enum BatchView {
    Rows(Seq<Row>),
    ResolvedTs { region_ids: Seq<u64>, ts: Ts },
    Error(ErrorKind),
}

impl View for Batch {
    type V = BatchView;

    open spec fn view(&self) -> BatchView {
        match self {
            Batch::Rows(rows) => BatchView::Rows(views(rows@)),
            Batch::ResolvedTs { region_ids, ts } => BatchView::ResolvedTs {
                region_ids: region_ids@,
                ts: *ts,
            },
            Batch::Error(kind) => BatchView::Error(*kind),
        }
    }
}

/// The subscribers that the deliveries are for, each once, in the order in
/// which they first occur.
pub open spec fn recipients_of(out: Seq<DeliveryView>) -> Seq<u64>
    decreases out.len(),
{
    if out.len() == 0 {
        Seq::empty()
    } else {
        let before = recipients_of(out.drop_last());
        if before.contains(out.last().downstream) {
            before
        } else {
            before.push(out.last().downstream)
        }
    }
}

/// The events for subscriber `id` among the deliveries, in order.
pub open spec fn events_for(out: Seq<DeliveryView>, id: u64) -> Seq<EventView>
    decreases out.len(),
{
    if out.len() == 0 {
        Seq::empty()
    } else if out.last().downstream == id {
        events_for(out.drop_last(), id).push(out.last().event)
    } else {
        events_for(out.drop_last(), id)
    }
}

/// The deliveries for subscribers other than `id`, in order.
pub open spec fn rest_without(out: Seq<DeliveryView>, id: u64) -> Seq<DeliveryView>
    decreases out.len(),
{
    if out.len() == 0 {
        out
    } else if out.last().downstream == id {
        rest_without(out.drop_last(), id)
    } else {
        rest_without(out.drop_last(), id).push(out.last())
    }
}

/// Batches of rows as what is handed to a sink.
pub open spec fn as_rows(batches: Seq<Seq<Row>>) -> Seq<BatchView> {
    Seq::new(batches.len(), |i: int| BatchView::Rows(batches[i]))
}

/// What has been made ready for the sink, and the rows that still wait
/// for the end of their run.
pub struct Sorting {
    pub done: Seq<BatchView>,
    pub run: Seq<Row>,
}

/// The events sorted so far: rows are collected; any other event closes
/// the run of rows before it, which is packed, and follows it.
pub open spec fn sorted(events: Seq<EventView>, limit: nat) -> Sorting
    decreases events.len(),
{
    if events.len() == 0 {
        Sorting { done: Seq::empty(), run: Seq::empty() }
    } else {
        let before = sorted(events.drop_last(), limit);
        match events.last() {
            EventView::Change(row) => Sorting { done: before.done, run: before.run.push(row) },
            EventView::ResolvedTs { region_ids, ts } => Sorting {
                done: (before.done + as_rows(pack(before.run, limit))).push(
                    BatchView::ResolvedTs { region_ids, ts },
                ),
                run: Seq::empty(),
            },
            EventView::Error(kind) => Sorting {
                done: (before.done + as_rows(pack(before.run, limit))).push(BatchView::Error(kind)),
                run: Seq::empty(),
            },
        }
    }
}

/// What is handed to a sink for a subscriber's events: the events in
/// order, each run of rows packed into batches for the byte limit.
pub open spec fn batches_of(events: Seq<EventView>, limit: nat) -> Seq<BatchView> {
    sorted(events, limit).done + as_rows(pack(sorted(events, limit).run, limit))
}

/// Rows as events.
pub open spec fn as_changes(rows: Seq<Row>) -> Seq<EventView> {
    Seq::new(rows.len(), |i: int| EventView::Change(rows[i]))
}

/// The events that batches hold, in order.
pub open spec fn events_in(batches: Seq<BatchView>) -> Seq<EventView>
    decreases batches.len(),
{
    if batches.len() == 0 {
        Seq::empty()
    } else {
        let before = events_in(batches.drop_last());
        match batches.last() {
            BatchView::Rows(rows) => before + as_changes(rows),
            BatchView::ResolvedTs { region_ids, ts } => before.push(
                EventView::ResolvedTs { region_ids, ts },
            ),
            BatchView::Error(kind) => before.push(EventView::Error(kind)),
        }
    }
}

/// The events of two lists of batches, one after the other.
proof fn lemma_events_in_add(a: Seq<BatchView>, b: Seq<BatchView>)
    ensures
        events_in(a + b) == events_in(a) + events_in(b),
    decreases b.len(),
{
    if b.len() == 0 {
        assert(a + b =~= a);
        assert(events_in(a) + events_in(b) =~= events_in(a));
    } else {
        assert((a + b).drop_last() =~= a + b.drop_last());
        lemma_events_in_add(a, b.drop_last());
        assert((a + b).last() == b.last());
        match b.last() {
            BatchView::Rows(rows) => {
                assert((events_in(a) + events_in(b.drop_last())) + as_changes(rows) =~= events_in(a) + (
                events_in(b.drop_last()) + as_changes(rows)));
            },
            BatchView::ResolvedTs { region_ids, ts } => {
                assert((events_in(a) + events_in(b.drop_last())).push(
                    EventView::ResolvedTs { region_ids, ts },
                ) =~= events_in(a) + events_in(b.drop_last()).push(
                    EventView::ResolvedTs { region_ids, ts },
                ));
            },
            BatchView::Error(kind) => {
                assert((events_in(a) + events_in(b.drop_last())).push(EventView::Error(kind))
                    =~= events_in(a) + events_in(b.drop_last()).push(EventView::Error(kind)));
            },
        }
    }
}

/// The events of batches of rows are the rows of the batches.
proof fn lemma_events_in_rows(batches: Seq<Seq<Row>>)
    ensures
        events_in(as_rows(batches)) == as_changes(crate::batch::unpack(batches)),
    decreases batches.len(),
{
    if batches.len() == 0 {
        assert(as_rows(batches) =~= Seq::empty());
        assert(as_changes(crate::batch::unpack(batches)) =~= Seq::empty());
    } else {
        lemma_events_in_rows(batches.drop_last());
        assert(as_rows(batches).drop_last() =~= as_rows(batches.drop_last()));
        assert(as_rows(batches).last() == BatchView::Rows(batches.last()));
        assert(as_changes(crate::batch::unpack(batches.drop_last())) + as_changes(batches.last())
            =~= as_changes(crate::batch::unpack(batches.drop_last()) + batches.last()));
    }
}

/// Sorting for the sink loses no event, repeats none and keeps their order.
pub proof fn lemma_batches_keep_order(events: Seq<EventView>, limit: nat)
    ensures
        events_in(batches_of(events, limit)) == events,
        events_in(sorted(events, limit).done) + as_changes(sorted(events, limit).run) == events,
    decreases events.len(),
{
    let now = sorted(events, limit);
    if events.len() == 0 {
        assert(as_changes(now.run) =~= Seq::empty());
        assert(events_in(now.done) + as_changes(now.run) =~= events);
    } else {
        let before = sorted(events.drop_last(), limit);
        lemma_batches_keep_order(events.drop_last(), limit);
        crate::batch::lemma_pack(before.run, limit);
        lemma_events_in_rows(pack(before.run, limit));
        lemma_events_in_add(before.done, as_rows(pack(before.run, limit)));
        let closed = before.done + as_rows(pack(before.run, limit));
        assert(events_in(closed) == events.drop_last());
        match events.last() {
            EventView::Change(row) => {
                assert(as_changes(before.run.push(row)) =~= as_changes(before.run).push(
                    EventView::Change(row),
                ));
                assert(events_in(before.done) + as_changes(before.run).push(EventView::Change(row))
                    =~= (events_in(before.done) + as_changes(before.run)).push(EventView::Change(row)));
            },
            EventView::ResolvedTs { region_ids, ts } => {
                assert(now.done.drop_last() =~= closed);
                assert(as_changes(now.run) =~= Seq::empty());
                assert(events_in(now.done) + as_changes(now.run) =~= events_in(now.done));
            },
            EventView::Error(kind) => {
                assert(now.done.drop_last() =~= closed);
                assert(as_changes(now.run) =~= Seq::empty());
                assert(events_in(now.done) + as_changes(now.run) =~= events_in(now.done));
            },
        }
        assert(events.drop_last().push(events.last()) =~= events);
    }
    crate::batch::lemma_pack(now.run, limit);
    lemma_events_in_rows(pack(now.run, limit));
    lemma_events_in_add(now.done, as_rows(pack(now.run, limit)));
}

/// The subscribers that the deliveries are for, each once, in the order in
/// which they first occur.
pub fn recipients(out: &Vec<Delivery>) -> (r: Vec<u64>)
    ensures
        r@ == recipients_of(views(out@)),
{
    let ghost all = views(out@);
    let mut r: Vec<u64> = Vec::new();
    let mut i: usize = 0;
    proof {
        assert(all.take(0) =~= Seq::empty());
    }
    while i < out.len()
        invariant
            i <= out.len(),
            all == views(out@),
            r@ == recipients_of(all.take(i as int)),
        decreases out.len() - i,
    {
        proof {
            assert(all.take(i + 1).drop_last() =~= all.take(i as int));
            assert(all.take(i + 1).last() == all[i as int]);
        }
        let id = out[i].downstream;
        let mut known = false;
        let mut k: usize = 0;
        while k < r.len()
            invariant
                k <= r.len(),
                known == exists|j: int| 0 <= j < k && r@[j] == id,
            decreases r.len() - k,
        {
            if r[k] == id {
                known = true;
            }
            k = k + 1;
        }
        if !known {
            r.push(id);
        }
        i = i + 1;
    }
    proof {
        assert(all.take(all.len() as int) =~= all);
    }
    r
}

/// Takes the events for subscriber `id` out of the deliveries, in order.
pub fn take_events(out: &mut Vec<Delivery>, id: u64) -> (events: Vec<Event>)
    ensures
        views(events@) == events_for(views(old(out)@), id),
        views(final(out)@) == rest_without(views(old(out)@), id),
{
    let ghost all = views(out@);
    let mut taken: Vec<Delivery> = Vec::new();
    std::mem::swap(out, &mut taken);
    let mut rest = reversed(taken);
    let mut events: Vec<Event> = Vec::new();
    let ghost n = all.len();
    let mut i: usize = 0;
    proof {
        assert(views(rest@).reverse() =~= all);
        assert(views(rest@).reverse().len() == rest.len());
        assert(all.skip(0) =~= all);
        assert(all.take(0) =~= Seq::empty());
        assert(views(out@) =~= Seq::empty());
        assert(views(events@) =~= Seq::empty());
    }
    while rest.len() > 0
        invariant
            n == all.len(),
            n <= usize::MAX,
            i + rest.len() == n,
            views(rest@).reverse() == all.skip(i as int),
            views(out@) == rest_without(all.take(i as int), id),
            views(events@) == events_for(all.take(i as int), id),
        decreases rest.len(),
    {
        let ghost before_rest = views(rest@);
        let item = rest.pop().unwrap();
        proof {
            assert(views(rest@) =~= before_rest.drop_last());
            assert(before_rest.reverse()[0] == item@);
            assert(all[i as int] == item@);
            assert(before_rest.drop_last().reverse() =~= before_rest.reverse().drop_first());
            assert(views(rest@).reverse() =~= all.skip(i + 1));
            assert(all.take(i + 1).drop_last() =~= all.take(i as int));
            assert(all.take(i + 1).last() == item@);
        }
        if item.downstream == id {
            proof {
                lemma_views_push(events@, item.event);
            }
            events.push(item.event);
        } else {
            proof {
                lemma_views_push(out@, item);
            }
            out.push(item);
        }
        i = i + 1;
    }
    proof {
        assert(all.take(n as int) =~= all);
    }
    events
}

/// Packs the rows that wait and appends the batches to what is ready.
fn close_run(done: &mut Vec<Batch>, run: Vec<DataChange>, limit: usize)
    ensures
        views(final(done)@) == views(old(done)@) + as_rows(pack(views(run@), limit as nat)),
{
    let ghost before = views(done@);
    let packed = pack_batches(run, limit);
    let ghost wanted = as_rows(batch_views(packed@));
    let mut rest = reversed(packed);
    let ghost all = batch_views(packed@);
    let ghost n = all.len();
    let mut i: usize = 0;
    proof {
        assert(batch_views(rest@).reverse() =~= all);
        assert(batch_views(rest@).reverse().len() == rest.len());
        assert(all.skip(0) =~= all);
        assert(before + wanted.take(0) =~= before);
    }
    while rest.len() > 0
        invariant
            n == all.len(),
            n <= usize::MAX,
            i + rest.len() == n,
            wanted == as_rows(all),
            batch_views(rest@).reverse() == all.skip(i as int),
            views(done@) == before + wanted.take(i as int),
        decreases rest.len(),
    {
        let ghost before_rest = batch_views(rest@);
        let rows = rest.pop().unwrap();
        let batch = Batch::Rows(rows);
        proof {
            assert(batch_views(rest@) =~= before_rest.drop_last());
            assert(before_rest.reverse()[0] == views(rows@));
            assert(all[i as int] == views(rows@));
            assert(before_rest.drop_last().reverse() =~= before_rest.reverse().drop_first());
            assert(batch_views(rest@).reverse() =~= all.skip(i + 1));
            lemma_views_push(done@, batch);
            assert(wanted.take(i + 1) =~= wanted.take(i as int).push(batch@));
            assert((before + wanted.take(i as int)).push(batch@) =~= before + wanted.take(i + 1));
        }
        done.push(batch);
        i = i + 1;
    }
    proof {
        assert(wanted.take(n as int) =~= wanted);
    }
}

/// Sorts a subscriber's events for its sink: the events in order, each
/// run of rows packed into batches for the byte limit.
pub fn batch_events(events: Vec<Event>, limit: usize) -> (batches: Vec<Batch>)
    ensures
        views(batches@) == batches_of(views(events@), limit as nat),
{
    let ghost all = views(events@);
    let mut rest = reversed(events);
    let mut done: Vec<Batch> = Vec::new();
    let mut run: Vec<DataChange> = Vec::new();
    let ghost n = all.len();
    let mut i: usize = 0;
    proof {
        assert(views(rest@).reverse() =~= all);
        assert(views(rest@).reverse().len() == rest.len());
        assert(all.skip(0) =~= all);
        assert(all.take(0) =~= Seq::empty());
        assert(views(done@) =~= Seq::empty());
        assert(views(run@) =~= Seq::empty());
    }
    while rest.len() > 0
        invariant
            n == all.len(),
            n <= usize::MAX,
            i + rest.len() == n,
            views(rest@).reverse() == all.skip(i as int),
            views(done@) == sorted(all.take(i as int), limit as nat).done,
            views(run@) == sorted(all.take(i as int), limit as nat).run,
        decreases rest.len(),
    {
        let ghost before_rest = views(rest@);
        let event = rest.pop().unwrap();
        proof {
            assert(views(rest@) =~= before_rest.drop_last());
            assert(before_rest.reverse()[0] == event@);
            assert(all[i as int] == event@);
            assert(before_rest.drop_last().reverse() =~= before_rest.reverse().drop_first());
            assert(views(rest@).reverse() =~= all.skip(i + 1));
            assert(all.take(i + 1).drop_last() =~= all.take(i as int));
            assert(all.take(i + 1).last() == event@);
        }
        match event {
            Event::Change(row) => {
                proof {
                    lemma_views_push(run@, row);
                }
                run.push(row);
            },
            Event::ResolvedTs { region_ids, ts } => {
                let mut closed: Vec<DataChange> = Vec::new();
                std::mem::swap(&mut run, &mut closed);
                close_run(&mut done, closed, limit);
                let batch = Batch::ResolvedTs { region_ids, ts };
                proof {
                    lemma_views_push(done@, batch);
                    assert(views(run@) =~= Seq::empty());
                }
                done.push(batch);
            },
            Event::Error(kind) => {
                let mut closed: Vec<DataChange> = Vec::new();
                std::mem::swap(&mut run, &mut closed);
                close_run(&mut done, closed, limit);
                let batch = Batch::Error(kind);
                proof {
                    lemma_views_push(done@, batch);
                    assert(views(run@) =~= Seq::empty());
                }
                done.push(batch);
            },
        }
        i = i + 1;
    }
    proof {
        assert(all.take(n as int) =~= all);
    }
    close_run(&mut done, run, limit);
    done
}

} // verus!
