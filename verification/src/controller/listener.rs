//! The listeners of the bus and the registry that holds them.

use crate::controller::compares_by_value;
use crate::controller::dispatch::{
    bucket_deliveries, bucket_for, bucket_of, deliveries_in_order, distinct_kinds,
    event_deliveries, events_of_kind, has_kind, lemma_listeners_of_absent_kind, lemma_listeners_of_bucket,
    listeners_of, with_listener, BucketView, Delivery,
};
use crate::controller::event::{EventQueue, QuEvent};
use vstd::prelude::*;

verus! {

/// What is registered with the bus to be called with the events of one kind.
///
/// A listener is called by the dispatcher alone, one call at a time, so it may
/// change its own state freely. It gets the temporary queue of the bus with
/// every event: that is its way to publish events of its own, which are
/// delivered in the next batch. A listener adds to the end of that queue and
/// does nothing else to it.
pub trait QuListener<EventType>: Send {
    /// Every event the listener was called with, oldest first.
    spec fn received(&self) -> Seq<QuEvent<EventType>>;

    /// What the listener published in each of its calls, oldest call first:
    /// the events it pushed into the temporary queue, in order.
    spec fn published(&self) -> Seq<Seq<QuEvent<EventType>>>;

    /// What the listener is: whether, called with `event`, it may publish
    /// the events `answer`, those and no other. A listener stays what it is,
    /// whatever it is called with.
    spec fn may_answer(&self, event: QuEvent<EventType>, answer: Seq<QuEvent<EventType>>) -> bool;

    /// Handles one event of the kind the listener was registered for.
    fn on_event(&mut self, event: &QuEvent<EventType>, tmp_event_queue: &mut EventQueue<EventType>)
        ensures
            final(self).received() == old(self).received().push(*event),
            old(tmp_event_queue)@.is_prefix_of(final(tmp_event_queue)@),
            final(self).published() == old(self).published().push(
                final(tmp_event_queue)@.skip(old(tmp_event_queue)@.len() as int),
            ),
            old(self).may_answer(
                *event,
                final(tmp_event_queue)@.skip(old(tmp_event_queue)@.len() as int),
            ),
            forall|other: QuEvent<EventType>, answer: Seq<QuEvent<EventType>>|
                #[trigger] final(self).may_answer(other, answer) == old(self).may_answer(
                    other,
                    answer,
                ),
    ;
}

/// What handles the events of one kind without keeping the books of a
/// listener: it is called with an event and gives back the events it wants
/// published, in order. `HandlerListener` makes a listener of it.
pub trait QuHandler<EventType>: Send {
    /// Handles one event and gives back what to publish.
    fn handle(&mut self, event: &QuEvent<EventType>) -> Vec<QuEvent<EventType>>;
}

/// The listener that hands every event to a handler, pushes what the handler
/// gives back into the temporary queue, and keeps the books.
pub struct HandlerListener<EventType, Handler> {
    /// The handler.
    pub m_handler: Handler,
    /// Every event the handler was called with.
    pub m_received: Ghost<Seq<QuEvent<EventType>>>,
    /// What the handler gave back in each call.
    pub m_published: Ghost<Seq<Seq<QuEvent<EventType>>>>,
}

impl<EventType, Handler> HandlerListener<EventType, Handler> {
    /// Takes what the handler gave back for `event`: it is pushed into the
    /// temporary queue, in order, and the call is written into the books.
    pub fn publish(
        &mut self,
        event: &QuEvent<EventType>,
        published: Vec<QuEvent<EventType>>,
        tmp_event_queue: &mut EventQueue<EventType>,
    )
        ensures
            final(self).m_handler == old(self).m_handler,
            final(self).m_received@ == old(self).m_received@.push(*event),
            final(self).m_published@ == old(self).m_published@.push(published@),
            final(tmp_event_queue)@ == old(tmp_event_queue)@ + published@,
    {
        let mut published = published;
        let ghost given = published@;
        tmp_event_queue.extend(&mut published);
        proof {
            self.m_received@ = self.m_received@.push(*event);
            self.m_published@ = self.m_published@.push(given);
        }
    }

    /// The listener of a handler that was not called yet.
    pub fn new(handler: Handler) -> (listener: Self)
        ensures
            listener.m_handler == handler,
            listener.m_received@ == Seq::<QuEvent<EventType>>::empty(),
            listener.m_published@ == Seq::<Seq<QuEvent<EventType>>>::empty(),
    {
        HandlerListener {
            m_handler: handler,
            m_received: Ghost(Seq::empty()),
            m_published: Ghost(Seq::empty()),
        }
    }
}

impl<EventType: Send, Handler: QuHandler<EventType>> QuListener<EventType> for HandlerListener<
    EventType,
    Handler,
> {
    open spec fn received(&self) -> Seq<QuEvent<EventType>> {
        self.m_received@
    }

    open spec fn published(&self) -> Seq<Seq<QuEvent<EventType>>> {
        self.m_published@
    }

    /// A handler may give back anything.
    open spec fn may_answer(&self, event: QuEvent<EventType>, answer: Seq<QuEvent<EventType>>) -> bool {
        true
    }

    /// Hands the event to the handler and publishes what it gives back.
    fn on_event(&mut self, event: &QuEvent<EventType>, tmp_event_queue: &mut EventQueue<EventType>) {
        let published = self.m_handler.handle(event);
        let ghost given = published@;
        self.publish(event, published, tmp_event_queue);
        assert(tmp_event_queue@.skip(old(tmp_event_queue)@.len() as int) =~= given);
    }
}

/// A listener as it is handed to the registry and kept by it: in a box,
/// which whoever knows the type of the listener puts it in.
#[verifier::reject_recursive_types(EventType)]
pub struct Callback<EventType> {
    /// The listener.
    pub listener: Box<dyn QuListener<EventType>>,
}

/// The listeners registered for one kind, in the order of their registration.
#[verifier::reject_recursive_types(EventType)]
struct ListenerBucket<EventType> {
    kind: EventType,
    callbacks: Vec<Callback<EventType>>,
}

impl<EventType> ListenerBucket<EventType> {
    spec fn view(&self) -> BucketView<EventType> {
        BucketView { kind: self.kind, listeners: self.callbacks@.len() }
    }

    fn new(kind: EventType, first: Callback<EventType>) -> (bucket: Self)
        ensures
            bucket.kind == kind,
            bucket.callbacks@ == seq![first],
    {
        let mut callbacks: Vec<Callback<EventType>> = Vec::new();
        callbacks.push(first);
        assert(callbacks@ =~= seq![first]);
        ListenerBucket { kind, callbacks }
    }
}

/// The listener registry: for each kind of event the ordered list of the
/// listeners registered for it. It only grows: nothing is ever removed from
/// it. It also keeps the journal of every delivery it has made.
#[verifier::reject_recursive_types(EventType)]
pub struct ListenerRegistry<EventType> {
    buckets: Vec<ListenerBucket<EventType>>,
    journal: Ghost<Seq<Delivery<EventType>>>,
}

impl<EventType> View for ListenerRegistry<EventType> {
    type V = Seq<BucketView<EventType>>;

    /// The buckets of the registry, in the order in which they were made:
    /// the kind of each and the number of its listeners. Of each listener,
    /// `may_answer_at` says what it is, `heard_by` what it has received and
    /// `answers_of` what it has published; `delivered` gives what was
    /// delivered, in which order.
    closed spec fn view(&self) -> Seq<BucketView<EventType>> {
        Seq::new(self.buckets@.len(), |i: int| self.buckets@[i].view())
    }
}

impl<EventType: PartialEq> ListenerRegistry<EventType> {
    /// Every delivery the registry has made since it was created, oldest
    /// first.
    pub closed spec fn delivered(&self) -> Seq<Delivery<EventType>> {
        self.journal@
    }

    /// Every event that the listener at `position` in the bucket `bucket`
    /// has received, by its own account, oldest first.
    pub closed spec fn heard_by(&self, bucket: int, position: int) -> Seq<QuEvent<EventType>> {
        self.buckets@[bucket].callbacks@[position].listener.received()
    }

    /// What the listener at `position` in the bucket `bucket` has published
    /// in each of its calls, by its own account, oldest call first.
    pub closed spec fn answers_of(&self, bucket: int, position: int) -> Seq<Seq<QuEvent<EventType>>> {
        self.buckets@[bucket].callbacks@[position].listener.published()
    }

    /// Whether the listener at `position` in the bucket `bucket`, called
    /// with `event`, may publish the events `answer`: what that listener is.
    pub closed spec fn may_answer_at(
        &self,
        bucket: int,
        position: int,
        event: QuEvent<EventType>,
        answer: Seq<QuEvent<EventType>>,
    ) -> bool {
        self.buckets@[bucket].callbacks@[position].listener.may_answer(event, answer)
    }

    /// The listeners of `self` are what they were in `before`.
    pub open spec fn same_listeners(&self, before: &Self) -> bool {
        forall|
            bucket: int,
            position: int,
            event: QuEvent<EventType>,
            answer: Seq<QuEvent<EventType>>,
        |
            0 <= bucket < before@.len() && 0 <= position < before@[bucket].listeners
                ==> #[trigger] self.may_answer_at(bucket, position, event, answer)
                == before.may_answer_at(bucket, position, event, answer)
    }

    /// Since `before`, the listeners were called with the events of `batch`
    /// that are of their kind, one after the other, and each answer they gave
    /// is one that the listener may give to the event it was called with.
    pub open spec fn answered_rightly(&self, before: &Self, batch: Seq<QuEvent<EventType>>) -> bool {
        forall|bucket: int, position: int, nth: int|
            0 <= bucket < before@.len() && 0 <= position < before@[bucket].listeners && 0 <= nth
                < events_of_kind(batch, before@[bucket].kind).len() ==> before.may_answer_at(
                bucket,
                position,
                events_of_kind(batch, before@[bucket].kind)[nth],
                #[trigger] self.answers_of(bucket, position)[before.answers_of(
                    bucket,
                    position,
                ).len() + nth],
            )
    }

    /// What the first `count` listeners of the bucket `bucket` published,
    /// one after the other, each in its call number `nth` since `before`.
    pub open spec fn bucket_answers(
        &self,
        before: &Self,
        bucket: int,
        count: nat,
        nth: int,
    ) -> Seq<QuEvent<EventType>>
        decreases count,
    {
        if count == 0 {
            Seq::empty()
        } else {
            self.bucket_answers(before, bucket, (count - 1) as nat, nth) + self.answers_of(
                bucket,
                count - 1,
            )[before.answers_of(bucket, count - 1).len() + nth]
        }
    }

    /// What the listeners of the first `buckets` buckets published when they
    /// were called with `event`, bucket after bucket and listener after
    /// listener. The event came after the events `earlier`, which were
    /// delivered since `before`.
    pub open spec fn event_answers(
        &self,
        before: &Self,
        buckets: nat,
        event: QuEvent<EventType>,
        earlier: Seq<QuEvent<EventType>>,
    ) -> Seq<QuEvent<EventType>>
        decreases buckets,
    {
        if buckets == 0 {
            Seq::empty()
        } else if before@[buckets - 1].kind == event.m_event_type {
            self.event_answers(before, (buckets - 1) as nat, event, earlier) + self.bucket_answers(
                before,
                buckets - 1,
                before@[buckets - 1].listeners,
                events_of_kind(earlier, event.m_event_type).len() as int,
            )
        } else {
            self.event_answers(before, (buckets - 1) as nat, event, earlier)
        }
    }

    /// What the listeners published when they were called with the events
    /// of `batch`, which were delivered since `before`: event after event,
    /// and for each event listener after listener.
    pub open spec fn batch_answers(
        &self,
        before: &Self,
        batch: Seq<QuEvent<EventType>>,
    ) -> Seq<QuEvent<EventType>>
        decreases batch.len(),
    {
        if batch.len() == 0 {
            Seq::empty()
        } else {
            self.batch_answers(before, batch.drop_last()) + self.event_answers(
                before,
                before@.len(),
                batch.last(),
                batch.drop_last(),
            )
        }
    }

    /// The listeners of `self` have made the calls they had made in `now`,
    /// with the same answers, and maybe more.
    pub open spec fn goes_on_from(&self, now: &Self) -> bool {
        forall|bucket: int, position: int|
            0 <= bucket < now@.len() && 0 <= position < now@[bucket].listeners ==> (
            #[trigger] now.answers_of(bucket, position)).is_prefix_of(
                self.answers_of(bucket, position),
            )
    }

    /// Since `before`, the listeners of the buckets before `buckets` whose
    /// kind is that of `event`, and in the bucket `buckets` the listeners before
    /// `position` if its kind is that of `event`, have made one call more, and
    /// the others none.
    pub open spec fn called_upto(
        &self,
        before: &Self,
        event: QuEvent<EventType>,
        buckets: int,
        listeners: int,
    ) -> bool {
        forall|bucket: int, position: int|
            0 <= bucket < before@.len() && 0 <= position < before@[bucket].listeners ==> (
            #[trigger] self.answers_of(bucket, position)).len() == before.answers_of(
                bucket,
                position,
            ).len() + if before@[bucket].kind == event.m_event_type && (bucket < buckets || (bucket
                == buckets && position < listeners)) {
                1int
            } else {
                0int
            }
    }

    /// The answer that each listener called with `event` since `before` gave
    /// is one that it may give to that event. The listeners called are those
    /// of `called_upto`.
    pub open spec fn answered_event(
        &self,
        before: &Self,
        event: QuEvent<EventType>,
        buckets: int,
        listeners: int,
    ) -> bool {
        forall|bucket: int, position: int|
            0 <= bucket < before@.len() && 0 <= position < before@[bucket].listeners
                && before@[bucket].kind == event.m_event_type && (bucket < buckets || (bucket
                == buckets && position < listeners)) ==> before.may_answer_at(
                bucket,
                position,
                event,
                #[trigger] self.answers_of(bucket, position)[before.answers_of(
                    bucket,
                    position,
                ).len() as int],
            )
    }

    /// The listener at `position` in the bucket `bucket` has made its call
    /// number `nth` since `before`.
    pub open spec fn has_answered(&self, before: &Self, bucket: int, position: int, nth: int) -> bool {
        0 <= before.answers_of(bucket, position).len() + nth < self.answers_of(bucket, position).len()
    }

    /// Answers that were given stay what they were.
    pub proof fn lemma_bucket_answers_kept(
        &self,
        now: &Self,
        before: &Self,
        bucket: int,
        count: nat,
        nth: int,
    )
        requires
            0 <= bucket < now@.len(),
            count <= now@[bucket].listeners,
            self.goes_on_from(now),
            forall|position: int|
                0 <= position < count ==> #[trigger] now.has_answered(before, bucket, position, nth),
        ensures
            self.bucket_answers(before, bucket, count, nth) == now.bucket_answers(
                before,
                bucket,
                count,
                nth,
            ),
        decreases count,
    {
        if count > 0 {
            self.lemma_bucket_answers_kept(now, before, bucket, (count - 1) as nat, nth);
            assert(now.has_answered(before, bucket, count - 1, nth));
            assert(now.answers_of(bucket, count - 1).is_prefix_of(
                self.answers_of(bucket, count - 1),
            ));
        }
    }

    /// Answers that were given stay what they were.
    pub proof fn lemma_event_answers_kept(
        &self,
        now: &Self,
        before: &Self,
        buckets: nat,
        event: QuEvent<EventType>,
        earlier: Seq<QuEvent<EventType>>,
    )
        requires
            now@ == before@,
            buckets <= before@.len(),
            self.goes_on_from(now),
            forall|bucket: int, position: int|
                0 <= bucket < buckets && before@[bucket].kind == event.m_event_type && 0 <= position
                    < before@[bucket].listeners ==> #[trigger] now.has_answered(
                    before,
                    bucket,
                    position,
                    events_of_kind(earlier, event.m_event_type).len() as int,
                ),
        ensures
            self.event_answers(before, buckets, event, earlier) == now.event_answers(
                before,
                buckets,
                event,
                earlier,
            ),
        decreases buckets,
    {
        if buckets > 0 {
            self.lemma_event_answers_kept(now, before, (buckets - 1) as nat, event, earlier);
            if before@[buckets - 1].kind == event.m_event_type {
                self.lemma_bucket_answers_kept(
                    now,
                    before,
                    buckets - 1,
                    before@[buckets - 1].listeners,
                    events_of_kind(earlier, event.m_event_type).len() as int,
                );
            }
        }
    }

    /// The listener at `position` in the bucket `bucket` has made, since
    /// `before`, a call for every event of `batch` that is of its kind.
    pub open spec fn has_reached(
        &self,
        before: &Self,
        bucket: int,
        position: int,
        batch: Seq<QuEvent<EventType>>,
    ) -> bool {
        self.answers_of(bucket, position).len() >= before.answers_of(bucket, position).len()
            + events_of_kind(batch, before@[bucket].kind).len()
    }

    /// Answers that were given stay what they were.
    pub proof fn lemma_batch_answers_kept(
        &self,
        now: &Self,
        before: &Self,
        batch: Seq<QuEvent<EventType>>,
    )
        requires
            now@ == before@,
            self.goes_on_from(now),
            forall|bucket: int, position: int|
                0 <= bucket < before@.len() && 0 <= position < before@[bucket].listeners
                    ==> #[trigger] now.has_reached(before, bucket, position, batch),
        ensures
            self.batch_answers(before, batch) == now.batch_answers(before, batch),
        decreases batch.len(),
    {
        if batch.len() > 0 {
            let event = batch.last();
            assert forall|bucket: int, position: int|
                0 <= bucket < before@.len() && 0 <= position
                    < before@[bucket].listeners implies #[trigger] now.has_reached(
                before,
                bucket,
                position,
                batch.drop_last(),
            ) by {
                assert(now.has_reached(before, bucket, position, batch));
            }
            self.lemma_batch_answers_kept(now, before, batch.drop_last());
            assert forall|bucket: int, position: int|
                0 <= bucket < before@.len() && before@[bucket].kind == event.m_event_type && 0
                    <= position < before@[bucket].listeners implies #[trigger] now.has_answered(
                before,
                bucket,
                position,
                events_of_kind(batch.drop_last(), event.m_event_type).len() as int,
            ) by {
                assert(now.has_reached(before, bucket, position, batch));
            }
            self.lemma_event_answers_kept(now, before, before@.len(), event, batch.drop_last());
        }
    }

    /// The call number `first` since `one` of the listener at `position` in
    /// the bucket `bucket` is its call number `second` since `other`.
    pub open spec fn same_call(
        one: &Self,
        other: &Self,
        bucket: int,
        position: int,
        first: int,
        second: int,
    ) -> bool {
        one.answers_of(bucket, position).len() + first == other.answers_of(bucket, position).len()
            + second
    }

    /// The same calls have the same answers, from wherever they are counted.
    pub proof fn lemma_bucket_answers_rebase(
        &self,
        one: &Self,
        other: &Self,
        bucket: int,
        count: nat,
        first: int,
        second: int,
    )
        requires
            forall|position: int|
                0 <= position < count ==> #[trigger] Self::same_call(
                    one,
                    other,
                    bucket,
                    position,
                    first,
                    second,
                ),
        ensures
            self.bucket_answers(one, bucket, count, first) == self.bucket_answers(
                other,
                bucket,
                count,
                second,
            ),
        decreases count,
    {
        if count > 0 {
            self.lemma_bucket_answers_rebase(one, other, bucket, (count - 1) as nat, first, second);
            assert(Self::same_call(one, other, bucket, count - 1, first, second));
        }
    }

    /// The same calls have the same answers, from wherever they are counted.
    pub proof fn lemma_event_answers_rebase(
        &self,
        one: &Self,
        other: &Self,
        buckets: nat,
        event: QuEvent<EventType>,
        first: Seq<QuEvent<EventType>>,
        second: Seq<QuEvent<EventType>>,
    )
        requires
            one@ == other@,
            buckets <= one@.len(),
            forall|bucket: int, position: int|
                0 <= bucket < buckets && one@[bucket].kind == event.m_event_type && 0 <= position
                    < one@[bucket].listeners ==> #[trigger] Self::same_call(
                    one,
                    other,
                    bucket,
                    position,
                    events_of_kind(first, event.m_event_type).len() as int,
                    events_of_kind(second, event.m_event_type).len() as int,
                ),
        ensures
            self.event_answers(one, buckets, event, first) == self.event_answers(
                other,
                buckets,
                event,
                second,
            ),
        decreases buckets,
    {
        if buckets > 0 {
            self.lemma_event_answers_rebase(one, other, (buckets - 1) as nat, event, first, second);
            if one@[buckets - 1].kind == event.m_event_type {
                self.lemma_bucket_answers_rebase(
                    one,
                    other,
                    buckets - 1,
                    one@[buckets - 1].listeners,
                    events_of_kind(first, event.m_event_type).len() as int,
                    events_of_kind(second, event.m_event_type).len() as int,
                );
            }
        }
    }

    /// The listener at `position` in the bucket `bucket` published `event`
    /// in its call number `nth` since `before`.
    pub open spec fn published_event(
        &self,
        before: &Self,
        bucket: int,
        position: int,
        nth: int,
        event: QuEvent<EventType>,
    ) -> bool {
        self.answers_of(bucket, position)[before.answers_of(bucket, position).len() + nth].contains(
            event,
        )
    }

    /// What a listener of a bucket published is among the answers of the
    /// bucket.
    pub proof fn lemma_bucket_answer_published(
        &self,
        before: &Self,
        bucket: int,
        count: nat,
        nth: int,
        position: int,
        published: QuEvent<EventType>,
    )
        requires
            0 <= position < count,
            self.published_event(before, bucket, position, nth, published),
        ensures
            self.bucket_answers(before, bucket, count, nth).contains(published),
        decreases count,
    {
        let rest = self.bucket_answers(before, bucket, (count - 1) as nat, nth);
        let last = self.answers_of(bucket, count - 1)[before.answers_of(bucket, count - 1).len()
            + nth];
        if position < count - 1 {
            self.lemma_bucket_answer_published(
                before,
                bucket,
                (count - 1) as nat,
                nth,
                position,
                published,
            );
        }
        lemma_contains_in_concat(rest, last, published);
    }

    /// What a listener published when it was called with an event is among
    /// the answers to the event.
    pub proof fn lemma_event_answer_published(
        &self,
        before: &Self,
        buckets: nat,
        event: QuEvent<EventType>,
        earlier: Seq<QuEvent<EventType>>,
        bucket: int,
        position: int,
        published: QuEvent<EventType>,
    )
        requires
            0 <= bucket < buckets,
            before@[bucket].kind == event.m_event_type,
            0 <= position < before@[bucket].listeners,
            self.published_event(
                before,
                bucket,
                position,
                events_of_kind(earlier, event.m_event_type).len() as int,
                published,
            ),
        ensures
            self.event_answers(before, buckets, event, earlier).contains(published),
        decreases buckets,
    {
        let rest = self.event_answers(before, (buckets - 1) as nat, event, earlier);
        if bucket < buckets - 1 {
            self.lemma_event_answer_published(
                before,
                (buckets - 1) as nat,
                event,
                earlier,
                bucket,
                position,
                published,
            );
            if before@[buckets - 1].kind == event.m_event_type {
                lemma_contains_in_concat(
                    rest,
                    self.bucket_answers(
                        before,
                        buckets - 1,
                        before@[buckets - 1].listeners,
                        events_of_kind(earlier, event.m_event_type).len() as int,
                    ),
                    published,
                );
            }
        } else {
            let nth = events_of_kind(earlier, event.m_event_type).len() as int;
            self.lemma_bucket_answer_published(
                before,
                bucket,
                before@[bucket].listeners,
                nth,
                position,
                published,
            );
            lemma_contains_in_concat(
                rest,
                self.bucket_answers(before, bucket, before@[bucket].listeners, nth),
                published,
            );
        }
    }

    /// What a listener published when it was called with an event of a
    /// batch is among the answers to the batch.
    pub proof fn lemma_batch_answer_published(
        &self,
        before: &Self,
        batch: Seq<QuEvent<EventType>>,
        index: int,
        bucket: int,
        position: int,
        published: QuEvent<EventType>,
    )
        requires
            0 <= index < batch.len(),
            0 <= bucket < before@.len(),
            before@[bucket].kind == batch[index].m_event_type,
            0 <= position < before@[bucket].listeners,
            self.published_event(
                before,
                bucket,
                position,
                events_of_kind(batch.take(index), batch[index].m_event_type).len() as int,
                published,
            ),
        ensures
            self.batch_answers(before, batch).contains(published),
        decreases batch.len(),
    {
        let rest = self.batch_answers(before, batch.drop_last());
        let last = self.event_answers(before, before@.len(), batch.last(), batch.drop_last());
        if index < batch.len() - 1 {
            assert(batch.drop_last().take(index) =~= batch.take(index));
            assert(batch.drop_last()[index] == batch[index]);
            self.lemma_batch_answer_published(
                before,
                batch.drop_last(),
                index,
                bucket,
                position,
                published,
            );
        } else {
            assert(batch.take(index) =~= batch.drop_last());
            self.lemma_event_answer_published(
                before,
                before@.len(),
                batch.last(),
                batch.drop_last(),
                bucket,
                position,
                published,
            );
        }
        lemma_contains_in_concat(rest, last, published);
    }

    /// The registry has at most one bucket for each kind, and kinds compare by
    /// value.
    pub open spec fn wf(&self) -> bool {
        &&& distinct_kinds(self@)
        &&& compares_by_value::<EventType>()
    }

    /// A registry without any listener, which has delivered nothing.
    pub fn new() -> (registry: Self)
        requires
            compares_by_value::<EventType>(),
        ensures
            registry.wf(),
            registry@ == Seq::<BucketView<EventType>>::empty(),
            registry.delivered() == Seq::<Delivery<EventType>>::empty(),
    {
        ListenerRegistry { buckets: Vec::new(), journal: Ghost(Seq::empty()) }
    }

    /// Finds the bucket of a kind.
    fn find(&self, event_type: &EventType) -> (found: Option<usize>)
        requires
            self.wf(),
        ensures
            match found {
                Some(bucket) => bucket < self@.len() && self@[bucket as int].kind == *event_type,
                None => !has_kind(self@, *event_type),
            },
    {
        let mut i: usize = 0;
        while i < self.buckets.len()
            invariant
                i <= self.buckets@.len(),
                compares_by_value::<EventType>(),
                forall|k: int| 0 <= k < i ==> (#[trigger] self@[k]).kind != *event_type,
            decreases self.buckets@.len() - i,
        {
            if self.buckets[i].kind == *event_type {
                return Some(i);
            }
            i += 1;
        }
        None
    }

    /// How many listeners are registered for the events of kind `event_type`.
    pub fn listener_count(&self, event_type: &EventType) -> (count: usize)
        requires
            self.wf(),
        ensures
            count == listeners_of(self@, *event_type),
    {
        match self.find(event_type) {
            Some(bucket) => {
                proof {
                    lemma_listeners_of_bucket(self@, bucket as int);
                }
                self.buckets[bucket].callbacks.len()
            },
            None => {
                proof {
                    lemma_listeners_of_absent_kind(self@, *event_type);
                }
                0
            },
        }
    }

    /// Registers a listener for the events of kind `event_type`. It comes
    /// after every listener already registered for that kind: the others
    /// stay where they are.
    pub fn register(&mut self, event_type: EventType, callback: Callback<EventType>)
        requires
            old(self).wf(),
        ensures
            final(self).wf(),
            final(self)@ == with_listener(old(self)@, event_type),
            final(self).delivered() == old(self).delivered(),
            forall|bucket: int, position: int|
                0 <= bucket < old(self)@.len() && 0 <= position < old(self)@[bucket].listeners
                    ==> #[trigger] final(self).heard_by(bucket, position) == old(self).heard_by(
                    bucket,
                    position,
                ),
            final(self).heard_by(
                bucket_for(old(self)@, event_type),
                listeners_of(old(self)@, event_type) as int,
            ) == callback.listener.received(),
            forall|bucket: int, position: int|
                0 <= bucket < old(self)@.len() && 0 <= position < old(self)@[bucket].listeners
                    ==> #[trigger] final(self).answers_of(bucket, position) == old(self).answers_of(
                    bucket,
                    position,
                ),
            final(self).answers_of(
                bucket_for(old(self)@, event_type),
                listeners_of(old(self)@, event_type) as int,
            ) == callback.listener.published(),
            final(self).same_listeners(old(self)),
            forall|event: QuEvent<EventType>, answer: Seq<QuEvent<EventType>>|
                #[trigger] final(self).may_answer_at(
                    bucket_for(old(self)@, event_type),
                    listeners_of(old(self)@, event_type) as int,
                    event,
                    answer,
                ) == callback.listener.may_answer(event, answer),
    {
        match self.find(&event_type) {
            Some(bucket) => {
                self.buckets[bucket].callbacks.push(callback);
                proof {
                    let i = bucket_of(old(self)@, event_type);
                    assert(old(self)@[bucket as int].kind == event_type);
                    assert(i == bucket);
                    assert(self@ =~= with_listener(old(self)@, event_type));
                    lemma_listeners_of_bucket(old(self)@, bucket as int);
                }
            },
            None => {
                let bucket = ListenerBucket::new(event_type, callback);
                self.buckets.push(bucket);
                proof {
                    assert(self@ =~= with_listener(old(self)@, event_type));
                    lemma_listeners_of_absent_kind(old(self)@, event_type);
                }
            },
        }
    }

    /// Delivers one event: calls every listener registered for the kind of
    /// the event, in the order of their registration, and no other listener.
    /// What the listeners publish meanwhile is added to `tmp_event_queue`.
    pub fn dispatch(&mut self, event: &QuEvent<EventType>, tmp_event_queue: &mut EventQueue<EventType>)
        requires
            old(self).wf(),
        ensures
            final(self).wf(),
            final(self)@ == old(self)@,
            final(self).delivered() == old(self).delivered() + event_deliveries(*event, old(self)@),
            forall|bucket: int, position: int|
                0 <= bucket < old(self)@.len() && 0 <= position < old(self)@[bucket].listeners
                    ==> #[trigger] final(self).heard_by(bucket, position) == if old(
                    self,
                )@[bucket].kind == event.m_event_type {
                    old(self).heard_by(bucket, position).push(*event)
                } else {
                    old(self).heard_by(bucket, position)
                },
            old(tmp_event_queue)@.is_prefix_of(final(tmp_event_queue)@),
            event_deliveries(*event, old(self)@).len() == 0 ==> final(tmp_event_queue)@ == old(
                tmp_event_queue,
            )@,
            final(self).goes_on_from(old(self)),
            final(self).called_upto(old(self), *event, old(self)@.len() as int, 0),
            final(self).same_listeners(old(self)),
            final(self).answered_event(old(self), *event, old(self)@.len() as int, 0),
            final(tmp_event_queue)@ == old(tmp_event_queue)@ + final(self).event_answers(
                old(self),
                old(self)@.len(),
                *event,
                Seq::empty(),
            ),
    {
        let ghost registry = self@;
        assert(events_of_kind(Seq::<QuEvent<EventType>>::empty(), event.m_event_type).len() == 0);
        let mut i: usize = 0;
        while i < self.buckets.len()
            invariant
                i <= self.buckets@.len(),
                self@ == registry,
                registry == old(self)@,
                compares_by_value::<EventType>(),
                self.delivered() == old(self).delivered() + event_deliveries(
                    *event,
                    registry.subrange(0, i as int),
                ),
                forall|bucket: int, position: int|
                    0 <= bucket < registry.len() && 0 <= position < registry[bucket].listeners
                        ==> #[trigger] self.heard_by(bucket, position) == if bucket < i
                        && registry[bucket].kind == event.m_event_type {
                        old(self).heard_by(bucket, position).push(*event)
                    } else {
                        old(self).heard_by(bucket, position)
                    },
                old(tmp_event_queue)@.is_prefix_of(tmp_event_queue@),
                self.delivered().len() == old(self).delivered().len() ==> tmp_event_queue@ == old(
                    tmp_event_queue,
                )@,
                self.goes_on_from(old(self)),
                self.called_upto(old(self), *event, i as int, 0),
                self.same_listeners(old(self)),
                self.answered_event(old(self), *event, i as int, 0),
                tmp_event_queue@ == old(tmp_event_queue)@ + self.event_answers(
                    old(self),
                    i as nat,
                    *event,
                    Seq::empty(),
                ),
                events_of_kind(Seq::<QuEvent<EventType>>::empty(), event.m_event_type).len() == 0,
            decreases self.buckets@.len() - i,
        {
            let ghost before = self.delivered();
            proof {
                assert(registry.subrange(0, i + 1).drop_last() =~= registry.subrange(0, i as int));
                assert(registry.subrange(0, i + 1).last() == registry[i as int]);
                assert(registry[i as int] == self.buckets@[i as int].view());
            }
            if self.buckets[i].kind == event.m_event_type {
                let ghost kind = self.buckets@[i as int].kind;
                let count = self.buckets[i].callbacks.len();
                let mut j: usize = 0;
                while j < count
                    invariant
                        i < self.buckets@.len(),
                        j <= count,
                        count == self.buckets@[i as int].callbacks@.len(),
                        kind == self.buckets@[i as int].kind,
                        kind == event.m_event_type,
                        self@ == registry,
                        registry == old(self)@,
                        self.delivered() == before + deliveries_in_order(*event, kind, j as nat),
                        forall|bucket: int, position: int|
                            0 <= bucket < registry.len() && 0 <= position
                                < registry[bucket].listeners ==> #[trigger] self.heard_by(
                                bucket,
                                position,
                            ) == if (bucket < i && registry[bucket].kind == event.m_event_type) || (
                            bucket == i && position < j) {
                                old(self).heard_by(bucket, position).push(*event)
                            } else {
                                old(self).heard_by(bucket, position)
                            },
                        old(tmp_event_queue)@.is_prefix_of(tmp_event_queue@),
                        before.len() >= old(self).delivered().len(),
                        self.delivered().len() == old(self).delivered().len() ==> tmp_event_queue@
                            == old(tmp_event_queue)@,
                        self.goes_on_from(old(self)),
                        self.called_upto(old(self), *event, i as int, j as int),
                        self.same_listeners(old(self)),
                        self.answered_event(old(self), *event, i as int, j as int),
                        tmp_event_queue@ == old(tmp_event_queue)@ + self.event_answers(
                            old(self),
                            i as nat,
                            *event,
                            Seq::empty(),
                        ) + self.bucket_answers(old(self), i as int, j as nat, 0),
                        events_of_kind(Seq::<QuEvent<EventType>>::empty(), event.m_event_type).len()
                            == 0,
                    decreases count - j,
                {
                    let ghost queued = tmp_event_queue@;
                    let ghost earlier = *self;
                    self.buckets[i].callbacks[j].listener.on_event(event, tmp_event_queue);
                    proof {
                        self.journal@ = self.journal@.push(
                            Delivery { event: *event, kind, position: j as nat },
                        );
                        assert(self@ =~= registry);
                        assert(deliveries_in_order(*event, kind, (j + 1) as nat) =~= deliveries_in_order(
                            *event,
                            kind,
                            j as nat,
                        ).push(Delivery { event: *event, kind, position: j as nat }));
                        lemma_prefix_transitive(old(tmp_event_queue)@, queued, tmp_event_queue@);
                        assert forall|bucket: int, position: int|
                            0 <= bucket < registry.len() && 0 <= position
                                < registry[bucket].listeners implies #[trigger] self.heard_by(
                            bucket,
                            position,
                        ) == if (bucket < i && registry[bucket].kind == event.m_event_type) || (bucket
                            == i && position < j + 1) {
                            old(self).heard_by(bucket, position).push(*event)
                        } else {
                            old(self).heard_by(bucket, position)
                        } by {
                            assert(registry[bucket] == earlier.buckets@[bucket].view());
                            if bucket == i && position == j {
                                assert(earlier.heard_by(bucket, position) == old(self).heard_by(
                                    bucket,
                                    position,
                                ));
                            } else {
                                assert(self.heard_by(bucket, position) == earlier.heard_by(
                                    bucket,
                                    position,
                                ));
                            }
                        }
                        let given = tmp_event_queue@.skip(queued.len() as int);
                        assert(self.answers_of(i as int, j as int) == earlier.answers_of(
                            i as int,
                            j as int,
                        ).push(given));
                        assert forall|bucket: int, position: int|
                            0 <= bucket < registry.len() && 0 <= position
                                < registry[bucket].listeners && !(bucket == i && position
                                == j) implies #[trigger] self.answers_of(bucket, position)
                            == earlier.answers_of(bucket, position) by {
                            assert(registry[bucket] == earlier.buckets@[bucket].view());
                        }
                        assert(self.same_listeners(old(self))) by {
                            assert forall|
                                bucket: int,
                                position: int,
                                other: QuEvent<EventType>,
                                answer: Seq<QuEvent<EventType>>,
                            |
                                0 <= bucket < old(self)@.len() && 0 <= position < old(
                                    self,
                                )@[bucket].listeners implies #[trigger] self.may_answer_at(
                                bucket,
                                position,
                                other,
                                answer,
                            ) == old(self).may_answer_at(bucket, position, other, answer) by {
                                assert(registry[bucket] == earlier.buckets@[bucket].view());
                                assert(earlier.may_answer_at(bucket, position, other, answer) == old(
                                    self,
                                ).may_answer_at(bucket, position, other, answer));
                                assert(self.may_answer_at(bucket, position, other, answer)
                                    == earlier.may_answer_at(bucket, position, other, answer));
                            }
                        }
                        assert(self.answered_event(old(self), *event, i as int, j + 1)) by {
                            assert forall|bucket: int, position: int|
                                0 <= bucket < old(self)@.len() && 0 <= position < old(
                                    self,
                                )@[bucket].listeners && old(self)@[bucket].kind
                                    == event.m_event_type && (bucket < i || (bucket == i && position
                                    < j + 1)) implies old(self).may_answer_at(
                                bucket,
                                position,
                                *event,
                                #[trigger] self.answers_of(bucket, position)[old(self).answers_of(
                                    bucket,
                                    position,
                                ).len() as int],
                            ) by {
                                if bucket == i && position == j {
                                    assert(earlier.may_answer_at(bucket, position, *event, given));
                                    assert(earlier.answers_of(bucket, position).len() == old(
                                        self,
                                    ).answers_of(bucket, position).len());
                                } else {
                                    assert(self.answers_of(bucket, position) == earlier.answers_of(
                                        bucket,
                                        position,
                                    ));
                                    assert(old(self).may_answer_at(
                                        bucket,
                                        position,
                                        *event,
                                        earlier.answers_of(bucket, position)[old(self).answers_of(
                                            bucket,
                                            position,
                                        ).len() as int],
                                    ));
                                }
                            }
                        }
                        assert(self.goes_on_from(&earlier)) by {
                            assert forall|bucket: int, position: int|
                                0 <= bucket < earlier@.len() && 0 <= position
                                    < earlier@[bucket].listeners implies (#[trigger] earlier.answers_of(
                                bucket,
                                position,
                            )).is_prefix_of(self.answers_of(bucket, position)) by {
                                if bucket == i && position == j {
                                } else {
                                    assert(self.answers_of(bucket, position) == earlier.answers_of(
                                        bucket,
                                        position,
                                    ));
                                }
                            }
                        }
                        assert(self.goes_on_from(old(self))) by {
                            assert forall|bucket: int, position: int|
                                0 <= bucket < old(self)@.len() && 0 <= position < old(
                                    self,
                                )@[bucket].listeners implies (#[trigger] old(self).answers_of(
                                bucket,
                                position,
                            )).is_prefix_of(self.answers_of(bucket, position)) by {
                                lemma_prefix_transitive(
                                    old(self).answers_of(bucket, position),
                                    earlier.answers_of(bucket, position),
                                    self.answers_of(bucket, position),
                                );
                            }
                        }
                        assert(self.called_upto(old(self), *event, i as int, j + 1)) by {
                            assert forall|bucket: int, position: int|
                                0 <= bucket < old(self)@.len() && 0 <= position < old(
                                    self,
                                )@[bucket].listeners implies (#[trigger] self.answers_of(
                                bucket,
                                position,
                            )).len() == old(self).answers_of(bucket, position).len()
                                + if old(self)@[bucket].kind == event.m_event_type && (bucket < i || (
                            bucket == i && position < j + 1)) {
                                1int
                            } else {
                                0int
                            } by {
                                assert(earlier.answers_of(bucket, position).len() == old(
                                    self,
                                ).answers_of(bucket, position).len() + if old(self)@[bucket].kind
                                    == event.m_event_type && (bucket < i || (bucket == i && position
                                    < j)) {
                                    1int
                                } else {
                                    0int
                                });
                                if !(bucket == i && position == j) {
                                    assert(self.answers_of(bucket, position) == earlier.answers_of(
                                        bucket,
                                        position,
                                    ));
                                }
                            }
                        }
                        assert forall|bucket: int, position: int|
                            0 <= bucket < i && old(self)@[bucket].kind == event.m_event_type && 0
                                <= position < old(self)@[bucket].listeners implies #[trigger] earlier.has_answered(
                            old(self),
                            bucket,
                            position,
                            events_of_kind(Seq::<QuEvent<EventType>>::empty(), event.m_event_type).len() as int,
                        ) by {
                            assert(earlier.answers_of(bucket, position).len() == old(self).answers_of(
                                bucket,
                                position,
                            ).len() + 1);
                        }
                        self.lemma_event_answers_kept(
                            &earlier,
                            old(self),
                            i as nat,
                            *event,
                            Seq::empty(),
                        );
                        assert forall|position: int| 0 <= position < j implies #[trigger] earlier.has_answered(
                            old(self),
                            i as int,
                            position,
                            0,
                        ) by {
                            assert(earlier.answers_of(i as int, position).len() == old(self).answers_of(
                                i as int,
                                position,
                            ).len() + 1);
                        }
                        self.lemma_bucket_answers_kept(&earlier, old(self), i as int, j as nat, 0);
                        assert(earlier.answers_of(i as int, j as int).len() == old(self).answers_of(
                            i as int,
                            j as int,
                        ).len());
                        assert(self.bucket_answers(old(self), i as int, (j + 1) as nat, 0)
                            == self.bucket_answers(old(self), i as int, j as nat, 0) + given);
                        assert(tmp_event_queue@ =~= queued + given);
                        assert(tmp_event_queue@ =~= old(tmp_event_queue)@ + self.event_answers(
                            old(self),
                            i as nat,
                            *event,
                            Seq::empty(),
                        ) + self.bucket_answers(old(self), i as int, (j + 1) as nat, 0));
                    }
                    j += 1;
                }
                proof {
                    assert(bucket_deliveries(*event, registry[i as int]) == deliveries_in_order(
                        *event,
                        kind,
                        count as nat,
                    ));
                    assert(self.event_answers(old(self), (i + 1) as nat, *event, Seq::empty())
                        == self.event_answers(old(self), i as nat, *event, Seq::empty())
                        + self.bucket_answers(old(self), i as int, count as nat, 0));
                }
            } else {
                proof {
                    assert(self.event_answers(old(self), (i + 1) as nat, *event, Seq::empty())
                        == self.event_answers(old(self), i as nat, *event, Seq::empty()));
                }
            }
            i += 1;
        }
        proof {
            assert(registry.subrange(0, i as int) =~= registry);
        }
    }
}

/// What is in a part is in the whole.
pub proof fn lemma_contains_in_concat<A>(first: Seq<A>, second: Seq<A>, element: A)
    requires
        first.contains(element) || second.contains(element),
    ensures
        (first + second).contains(element),
{
    if first.contains(element) {
        let i = choose|i: int| 0 <= i < first.len() && first[i] == element;
        assert((first + second)[i] == element);
    } else {
        let i = choose|i: int| 0 <= i < second.len() && second[i] == element;
        assert((first + second)[first.len() + i] == element);
    }
}

/// A prefix of a prefix is a prefix.
pub proof fn lemma_prefix_transitive<A>(a: Seq<A>, b: Seq<A>, c: Seq<A>)
    requires
        a.is_prefix_of(b),
        b.is_prefix_of(c),
    ensures
        a.is_prefix_of(c),
{
}

} // verus!
