use vstd::prelude::*;

verus! {

/// One entry of the dispatch queue: either a unit of work, identified by the
/// token its submitter chose, or the signal that tells one worker to stop.
#[derive(Clone, Copy, PartialEq, Eq, Structural, Debug)]
pub enum Message {
    Work { job: u64 },
    Stop,
}

/// The job tokens of the `Work` entries of `q`, in queue order.
pub open spec fn work_ids(q: Seq<Message>) -> Seq<u64>
    decreases q.len(),
{
    if q.len() == 0 {
        Seq::empty()
    } else {
        match q.first() {
            Message::Work { job } => seq![job] + work_ids(q.drop_first()),
            Message::Stop => work_ids(q.drop_first()),
        }
    }
}

/// How many `Stop` entries `q` holds.
pub open spec fn stop_count(q: Seq<Message>) -> nat
    decreases q.len(),
{
    if q.len() == 0 {
        0
    } else {
        (if q.first() is Stop {
            1nat
        } else {
            0nat
        }) + stop_count(q.drop_first())
    }
}

/// Every entry of `q` is a `Stop`.
pub open spec fn all_stops(q: Seq<Message>) -> bool
    decreases q.len(),
{
    q.len() == 0 || (q.first() is Stop && all_stops(q.drop_first()))
}

/// The `Work` entries of `q` all stand before its `Stop` entries, as they do
/// on a FIFO channel where no submission follows the stop signals.
pub open spec fn works_then_stops(q: Seq<Message>) -> bool
    decreases q.len(),
{
    if q.len() == 0 {
        true
    } else {
        match q.first() {
            Message::Work { .. } => works_then_stops(q.drop_first()),
            Message::Stop => all_stops(q.drop_first()),
        }
    }
}

/// Appending one `Work` entry appends its token to the work tokens, leaves
/// the stop count alone, and keeps the works-then-stops shape as long as no
/// stop signal has been enqueued yet.
pub proof fn lemma_push_work(q: Seq<Message>, job: u64)
    ensures
        work_ids(q.push(Message::Work { job })) == work_ids(q).push(job),
        stop_count(q.push(Message::Work { job })) == stop_count(q),
        stop_count(q) == 0 && works_then_stops(q) ==> works_then_stops(
            q.push(Message::Work { job }),
        ),
    decreases q.len(),
{
    let p = q.push(Message::Work { job });
    if q.len() == 0 {
        assert(p =~= seq![Message::Work { job }]);
        assert(p.first() == Message::Work { job });
        assert(p.drop_first() =~= Seq::<Message>::empty());
        assert(work_ids(Seq::<Message>::empty()) == Seq::<u64>::empty());
        assert(stop_count(Seq::<Message>::empty()) == 0);
        assert(works_then_stops(Seq::<Message>::empty()));
        assert(work_ids(p) =~= work_ids(q).push(job));
    } else {
        assert(p.first() == q.first());
        assert(p.drop_first() =~= q.drop_first().push(Message::Work { job }));
        lemma_push_work(q.drop_first(), job);
        assert(work_ids(p) =~= work_ids(q).push(job));
    }
}

/// Appending one `Stop` entry raises the stop count by one, leaves the work
/// tokens alone, and keeps the works-then-stops shape.
pub proof fn lemma_push_stop(q: Seq<Message>)
    ensures
        work_ids(q.push(Message::Stop)) == work_ids(q),
        stop_count(q.push(Message::Stop)) == stop_count(q) + 1,
        all_stops(q) ==> all_stops(q.push(Message::Stop)),
        works_then_stops(q) ==> works_then_stops(q.push(Message::Stop)),
    decreases q.len(),
{
    let p = q.push(Message::Stop);
    if q.len() == 0 {
        assert(p =~= seq![Message::Stop]);
        assert(p.first() == Message::Stop);
        assert(p.drop_first() =~= Seq::<Message>::empty());
        assert(work_ids(Seq::<Message>::empty()) == Seq::<u64>::empty());
        assert(stop_count(Seq::<Message>::empty()) == 0);
        assert(all_stops(Seq::<Message>::empty()));
        assert(work_ids(p) =~= work_ids(q));
    } else {
        assert(p.first() == q.first());
        assert(p.drop_first() =~= q.drop_first().push(Message::Stop));
        lemma_push_stop(q.drop_first());
        assert(work_ids(p) =~= work_ids(q));
    }
}

/// A queue of stop signals alone has as many stops as entries and no work
/// token at all.
pub proof fn lemma_all_stops_shape(q: Seq<Message>)
    requires
        all_stops(q),
    ensures
        stop_count(q) == q.len(),
        work_ids(q) == Seq::<u64>::empty(),
        works_then_stops(q),
    decreases q.len(),
{
    if q.len() == 0 {
        assert(work_ids(q) =~= Seq::<u64>::empty());
    } else {
        lemma_all_stops_shape(q.drop_first());
        assert(work_ids(q) =~= Seq::<u64>::empty());
    }
}

} // verus!
