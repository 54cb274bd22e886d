//! An in-memory message bus: durable queues bound to topics.

use vstd::prelude::*;
use crate::error::StoreError;
use crate::json::{Json, JsonV};

verus! {

/// A durable queue: its name, the topic it is bound to, and the messages not yet taken.
pub struct Queue {
    pub name: String,
    pub topic: String,
    pub messages: Vec<Json>,
}

pub struct QueueV {
    pub name: Seq<char>,
    pub topic: Seq<char>,
    pub messages: Seq<JsonV>,
}

pub open spec fn messages_view(v: Seq<Json>) -> Seq<JsonV> {
    v.map_values(|j: Json| j@)
}

pub open spec fn queue_view(q: Queue) -> QueueV {
    QueueV { name: q.name@, topic: q.topic@, messages: messages_view(q.messages@) }
}

/// Every queue bound to `topic` receives `msg`.
pub open spec fn published(qs: Seq<QueueV>, topic: Seq<char>, msg: JsonV) -> Seq<QueueV> {
    qs.map_values(
        |q: QueueV|
            if q.topic == topic {
                QueueV { name: q.name, topic: q.topic, messages: q.messages.push(msg) }
            } else {
                q
            },
    )
}

pub open spec fn has_queue(qs: Seq<QueueV>, name: Seq<char>) -> bool {
    exists|i: int| 0 <= i < qs.len() && #[trigger] qs[i].name == name
}

/// Position of the first queue named `name` at or after `i`.
pub open spec fn queue_from(qs: Seq<QueueV>, name: Seq<char>, i: int) -> Option<int>
    decreases qs.len() - i,
{
    if i < 0 || i >= qs.len() {
        None
    } else if qs[i].name == name {
        Some(i)
    } else {
        queue_from(qs, name, i + 1)
    }
}

/// The messages waiting in the first queue named `name`; none if there is no such queue.
pub open spec fn waiting(qs: Seq<QueueV>, name: Seq<char>) -> Seq<JsonV> {
    match queue_from(qs, name, 0) {
        Some(i) => qs[i].messages,
        None => Seq::empty(),
    }
}

/// The queues after taking the messages of the first queue named `name`.
pub open spec fn drained(qs: Seq<QueueV>, name: Seq<char>) -> Seq<QueueV> {
    match queue_from(qs, name, 0) {
        Some(i) => qs.update(i, QueueV { name: qs[i].name, topic: qs[i].topic, messages: Seq::empty() }),
        None => qs,
    }
}

/// The queues after declaring `name` bound to `topic`: unchanged if a queue of that name exists.
pub open spec fn declared(qs: Seq<QueueV>, name: Seq<char>, topic: Seq<char>) -> Seq<QueueV> {
    if has_queue(qs, name) {
        qs
    } else {
        qs.push(QueueV { name, topic, messages: Seq::empty() })
    }
}

/// Every queue bound to `topic` receives `msgs`, in order.
pub open spec fn published_all(qs: Seq<QueueV>, topic: Seq<char>, msgs: Seq<JsonV>) -> Seq<QueueV>
    decreases msgs.len(),
{
    if msgs.len() == 0 {
        qs
    } else {
        published(published_all(qs, topic, msgs.drop_last()), topic, msgs.last())
    }
}

/// The bus. While `available` is false every operation fails with `Io`.
pub struct MemoryBus {
    pub available: bool,
    pub queues: Vec<Queue>,
}

impl MemoryBus {
    pub open spec fn view(&self) -> Seq<QueueV> {
        self.queues@.map_values(|q: Queue| queue_view(q))
    }

    /// A bus with no queues.
    pub fn new() -> (r: Self)
        ensures
            r.available,
            r.view() == Seq::<QueueV>::empty(),
    {
        let r = MemoryBus { available: true, queues: Vec::new() };
        proof { assert(r.view() =~= Seq::<QueueV>::empty()); }
        r
    }

    /// Creates the durable queue `name` bound to `topic`, unless a queue of that name exists.
    pub fn declare_queue(&mut self, name: &String, topic: &String) -> (r: Result<(), StoreError>)
        ensures
            final(self).available == old(self).available,
            !old(self).available ==> r == Err::<(), StoreError>(StoreError::Io) && final(self).view()
                == old(self).view(),
            old(self).available && has_queue(old(self).view(), name@) ==> r is Ok && final(self).view() == old(self).view(),
            old(self).available && !has_queue(old(self).view(), name@) ==> r is Ok && final(self).view() == old(self).view().push(
                QueueV { name: name@, topic: topic@, messages: Seq::empty() },
            ),
    {
        if !self.available {
            return Err(StoreError::Io);
        }
        let mut i: usize = 0;
        while i < self.queues.len()
            invariant
                i <= self.queues@.len(),
                old(self).available,
                self.available == old(self).available,
                self.view() == old(self).view(),
                self.view().len() == self.queues@.len(),
                forall|j: int| 0 <= j < i ==> #[trigger] self.view()[j].name != name@,
            decreases self.queues@.len() - i,
        {
            if self.queues[i].name == *name {
                proof { assert(self.view()[i as int].name == name@); }
                return Ok(());
            }
            i = i + 1;
        }
        let ghost before = self.view();
        self.queues.push(Queue { name: name.clone(), topic: topic.clone(), messages: Vec::new() });
        proof {
            assert(messages_view(Seq::<Json>::empty()) =~= Seq::<JsonV>::empty());
            assert(self.view() =~= before.push(
                QueueV { name: name@, topic: topic@, messages: Seq::empty() },
            ));
        }
        Ok(())
    }

    /// Delivers `msg` to every queue bound to `topic`.
    pub fn publish(&mut self, topic: &String, msg: &Json) -> (r: Result<(), StoreError>)
        ensures
            final(self).available == old(self).available,
            old(self).available ==> r is Ok && final(self).view() == published(
                old(self).view(),
                topic@,
                msg@,
            ),
            !old(self).available ==> r == Err::<(), StoreError>(StoreError::Io) && final(self).view()
                == old(self).view(),
    {
        if !self.available {
            return Err(StoreError::Io);
        }
        let ghost start = self.view();
        let mut i: usize = 0;
        while i < self.queues.len()
            invariant
                i <= self.queues@.len(),
                self.queues@.len() == start.len(),
                self.available == old(self).available,
                forall|j: int|
                    0 <= j < i ==> #[trigger] self.view()[j] == published(start, topic@, msg@)[j],
                forall|j: int| i <= j < start.len() ==> #[trigger] self.view()[j] == start[j],
            decreases self.queues@.len() - i,
        {
            let ghost v0 = self.view();
            let ghost qs0 = self.queues@;
            proof { assert(v0[i as int] == start[i as int]); }
            if self.queues[i].topic == *topic {
                let m = msg.copy();
                let mut q = self.queues.remove(i);
                let ghost qv = queue_view(q);
                q.messages.push(m);
                proof {
                    assert(messages_view(q.messages@) =~= qv.messages.push(msg@));
                }
                let ghost q1 = q;
                self.queues.insert(i, q);
                proof {
                    assert(self.queues@ =~= qs0.update(i as int, q1));
                    assert(qv == start[i as int]);
                    assert(self.view()[i as int] == QueueV {
                        name: qv.name,
                        topic: qv.topic,
                        messages: qv.messages.push(msg@),
                    });
                }
            }
            proof {
                assert(self.view()[i as int] == published(start, topic@, msg@)[i as int]);
                assert forall|j: int| 0 <= j < self.view().len() && j != i implies #[trigger] self.view()[j] == v0[j] by {
                    assert(self.queues@[j] == qs0[j]);
                }
            }
            i = i + 1;
        }
        proof {
            assert(self.view() =~= published(start, topic@, msg@));
        }
        Ok(())
    }

    /// Takes every message waiting in the first queue named `name`, in delivery order.
    pub fn take(&mut self, name: &String) -> (r: Vec<Json>)
        ensures
            final(self).available == old(self).available,
            messages_view(r@) == waiting(old(self).view(), name@),
            final(self).view() == drained(old(self).view(), name@),
    {
        let mut i: usize = 0;
        while i < self.queues.len()
            invariant
                i <= self.queues@.len(),
                self.view() == old(self).view(),
                self.available == old(self).available,
                self.view().len() == self.queues@.len(),
                queue_from(self.view(), name@, 0) == queue_from(self.view(), name@, i as int),
            decreases self.queues@.len() - i,
        {
            if self.queues[i].name == *name {
                let ghost before = self.view();
                let ghost qs0 = self.queues@;
                proof {
                    assert(before[i as int].name == name@);
                }
                let mut q = self.queues.remove(i);
                let taken = q.messages;
                q.messages = Vec::new();
                let ghost q1 = q;
                self.queues.insert(i, q);
                proof {
                    assert(self.queues@ =~= qs0.update(i as int, q1));
                    assert(messages_view(Seq::<Json>::empty()) =~= Seq::<JsonV>::empty());
                    assert(self.view() =~= before.update(
                        i as int,
                        QueueV {
                            name: before[i as int].name,
                            topic: before[i as int].topic,
                            messages: Seq::empty(),
                        },
                    ));
                }
                return taken;
            }
            i = i + 1;
        }
        proof {
            assert(messages_view(Seq::<Json>::empty()) =~= Seq::<JsonV>::empty());
        }
        Vec::new()
    }
}

} // verus!
