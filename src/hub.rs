use vstd::prelude::*;
use crate::record::{records_model, Record, RecordModel};

verus! {

/// What the hub holds: one queue of records per consumer, and whether the
/// producer has gone.
pub struct HubModel {
    pub queues: Seq<Seq<RecordModel>>,
    pub closed: bool,
}

/// What a consumer receives, as values.
pub enum DeliveryModel {
    Record(RecordModel),
    Empty,
    Closed,
}

/// The hub after a send, and whether the send was taken.
///
/// A send is taken while the producer is open and a consumer is attached;
/// the record then goes to the end of every consumer's queue.
pub open spec fn send_spec(h: HubModel, r: RecordModel) -> (HubModel, bool) {
    if h.closed || h.queues.len() == 0 {
        (h, false)
    } else {
        (HubModel { queues: Seq::new(h.queues.len(), |i: int| h.queues[i].push(r)), closed: false }, true)
    }
}

/// The hub after consumer `i` asks for a record, and what it gets: the
/// oldest record of its queue; otherwise `Closed` once the producer is
/// gone, and `Empty` while it may still send.
pub open spec fn recv_spec(h: HubModel, i: int) -> (HubModel, DeliveryModel) {
    if h.queues[i].len() > 0 {
        (
            HubModel { queues: h.queues.update(i, h.queues[i].drop_first()), closed: h.closed },
            DeliveryModel::Record(h.queues[i][0]),
        )
    } else if h.closed {
        (h, DeliveryModel::Closed)
    } else {
        (h, DeliveryModel::Empty)
    }
}

/// The hub after the records `rs` are sent one after the other.
pub open spec fn send_all(h: HubModel, rs: Seq<RecordModel>) -> HubModel
    decreases rs.len(),
{
    if rs.len() == 0 {
        h
    } else {
        send_spec(send_all(h, rs.drop_last()), rs.last()).0
    }
}

/// Every record sent through an open hub with consumers arrives at every
/// consumer, once each, behind what it already had and in the order sent.
pub proof fn lemma_every_consumer_gets_every_record(h: HubModel, rs: Seq<RecordModel>)
    requires
        !h.closed,
        h.queues.len() > 0,
    ensures
        send_all(h, rs).queues.len() == h.queues.len(),
        !send_all(h, rs).closed,
        forall|i: int| 0 <= i < h.queues.len() ==> send_all(h, rs).queues[i] == h.queues[i] + rs,
    decreases rs.len(),
{
    if rs.len() > 0 {
        lemma_every_consumer_gets_every_record(h, rs.drop_last());
        assert forall|i: int| 0 <= i < h.queues.len() implies send_all(h, rs).queues[i] == h.queues[i]
            + rs by {
            assert(h.queues[i] + rs.drop_last() + seq![rs.last()] =~= h.queues[i] + rs);
        }
    } else {
        assert forall|i: int| 0 <= i < h.queues.len() implies send_all(h, rs).queues[i] == h.queues[i]
            + rs by {
            assert(h.queues[i] + rs =~= h.queues[i]);
        }
    }
}

/// Once the producer is gone and a consumer's queue is drained, every
/// further request of that consumer ends with `Closed` and changes nothing.
pub proof fn lemma_closed_and_drained_stays_closed(h: HubModel, i: int)
    requires
        h.closed,
        0 <= i < h.queues.len(),
        h.queues[i].len() == 0,
    ensures
        recv_spec(h, i) == (h, DeliveryModel::Closed),
{
}

/// What a consumer receives.
pub enum Delivery {
    /// The oldest record not yet received.
    Record(Record),
    /// Nothing yet: the producer may still send.
    Empty,
    /// Nothing more: the producer is gone and the queue is drained.
    Closed,
}

impl View for Delivery {
    type V = DeliveryModel;

    open spec fn view(&self) -> DeliveryModel {
        match self {
            Delivery::Record(r) => DeliveryModel::Record(r@),
            Delivery::Empty => DeliveryModel::Empty,
            Delivery::Closed => DeliveryModel::Closed,
        }
    }
}

pub open spec fn queue_model(q: Vec<Record>) -> Seq<RecordModel> {
    records_model(q@)
}

/// The distribution point between one producer and its consumers: each
/// consumer has a queue of its own, and each record sent goes to all.
pub struct Hub {
    queues: Vec<Vec<Record>>,
    closed: bool,
}

impl Hub {
    pub closed spec fn view(&self) -> HubModel {
        HubModel { queues: self.queues@.map_values(|q: Vec<Record>| queue_model(q)), closed: self.closed }
    }

    /// A hub with `consumers` empty queues and the producer open.
    pub fn new(consumers: usize) -> (h: Hub)
        ensures
            h@ == (HubModel { queues: Seq::new(consumers as nat, |i: int| Seq::empty()), closed: false }),
    {
        let mut queues: Vec<Vec<Record>> = Vec::new();
        let mut i: usize = 0;
        while i < consumers
            invariant
                i <= consumers,
                queues@.len() == i,
                forall|j: int| 0 <= j < i ==> queues@[j]@.len() == 0,
            decreases consumers - i,
        {
            queues.push(Vec::new());
            i = i + 1;
        }
        let h = Hub { queues, closed: false };
        assert forall|j: int| 0 <= j < consumers implies queue_model(h.queues@[j]) =~= Seq::<
            RecordModel,
        >::empty() by {}
        assert(h@.queues =~= Seq::new(consumers as nat, |i: int| Seq::<RecordModel>::empty()));
        h
    }

    /// How many consumers are attached.
    pub fn consumers(&self) -> (n: usize)
        ensures
            n == self@.queues.len(),
    {
        self.queues.len()
    }

    /// Whether the producer is gone.
    pub fn is_closed(&self) -> (c: bool)
        ensures
            c == self@.closed,
    {
        self.closed
    }

    /// Sends `r` to every consumer; hands it back when the producer is
    /// gone or no consumer is attached.
    pub fn send(&mut self, r: Record) -> (res: Result<(), Record>)
        ensures
            final(self)@ == send_spec(old(self)@, r@).0,
            res is Ok == send_spec(old(self)@, r@).1,
            match res {
                Ok(()) => true,
                Err(back) => back@ == r@,
            },
    {
        if self.closed || self.queues.len() == 0 {
            return Err(r);
        }
        let ghost prev = self@;
        let n = self.queues.len();
        let mut i: usize = 0;
        while i < n
            invariant
                n == self.queues@.len(),
                n == prev.queues.len(),
                i <= n,
                !self.closed,
                forall|j: int| 0 <= j < i ==> queue_model(self.queues@[j]) == prev.queues[j].push(r@),
                forall|j: int| i <= j < n ==> queue_model(self.queues@[j]) == prev.queues[j],
            decreases n - i,
        {
            let copy = r.duplicate();
            self.queues[i].push(copy);
            proof {
                assert(queue_model(self.queues@[i as int]) =~= prev.queues[i as int].push(r@));
            }
            i = i + 1;
        }
        assert(self@.queues =~= Seq::new(prev.queues.len(), |j: int| prev.queues[j].push(r@)));
        Ok(())
    }

    /// Consumer `i` takes the oldest record of its queue, if there is one.
    pub fn recv(&mut self, i: usize) -> (d: Delivery)
        requires
            i < old(self)@.queues.len(),
        ensures
            (final(self)@, d@) == recv_spec(old(self)@, i as int),
    {
        let ghost prev = self@;
        if self.queues[i].len() > 0 {
            let r = self.queues[i].remove(0);
            proof {
                assert(queue_model(self.queues@[i as int]) =~= prev.queues[i as int].drop_first());
                assert(self@.queues =~= prev.queues.update(i as int, prev.queues[i as int].drop_first()));
            }
            Delivery::Record(r)
        } else if self.closed {
            Delivery::Closed
        } else {
            Delivery::Empty
        }
    }

    /// The producer is gone: no record will be sent any more.
    pub fn close(&mut self)
        ensures
            final(self)@ == (HubModel { queues: old(self)@.queues, closed: true }),
    {
        self.closed = true;
    }
}

} // verus!
