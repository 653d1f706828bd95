//! The event manager: the bus through which the view and the model talk.
//!
//! Events are pushed into the manager, listeners are registered with it for
//! a kind of event, and `update` delivers every pending event to the
//! listeners of its kind. A listener that wants to send an event itself
//! pushes it into the temporary queue, which `update` hands to it: such an
//! event is kept aside until the batch has ended and is delivered by the next
//! one.
//!
//! The manager is meant to be driven by one dispatcher that sleeps while
//! there is nothing to do. `dispatch_cycle` is one turn of that dispatcher:
//! it says whether to stop, to sleep, or to go on.

use crate::controller::compares_by_value;
use crate::controller::dispatch::{
    batch_deliveries, bucket_for, deliveries_in_order, distinct_kinds, event_deliveries,
    events_of_kind,
    lemma_every_event_delivered, lemma_exact_once_delivery, lemma_kind_isolation,
    lemma_with_listener, listeners_of,
    with_listener, BucketView, Delivery,
};
use crate::controller::event::{EventQueue, QuEvent};
use crate::controller::listener::{lemma_contains_in_concat, Callback, ListenerRegistry};
use vstd::prelude::*;

verus! {

/// The states of the dispatcher.
#[derive(PartialEq, Eq, Structural, Clone, Copy, Debug)]
pub enum DispatcherState {
    /// Parked: nothing to do until it is woken.
    Idle,
    /// Taking the pending events as the batch to deliver.
    Draining,
    /// Calling the listeners, one after the other.
    Invoking,
    /// Folding the temporary queue into the pending events.
    Merging,
    /// Stopped for good.
    Stopped,
}

impl DispatcherState {
    /// The state that follows `self`. `wake` is the wake flag, `stop` the
    /// stop flag, both as the dispatcher finds them when it leaves `self`.
    ///
    /// A parked dispatcher stays parked until the wake flag is set. Once
    /// woken, and again after each batch, it is at the top of its loop: there
    /// it stops if it was asked to, and else starts a batch. A batch goes
    /// through its three phases in order, whatever the flags are.
    pub open spec fn spec_next(self, wake: bool, stop: bool) -> DispatcherState {
        match self {
            DispatcherState::Stopped => DispatcherState::Stopped,
            DispatcherState::Draining => DispatcherState::Invoking,
            DispatcherState::Invoking => DispatcherState::Merging,
            DispatcherState::Idle | DispatcherState::Merging => if !wake {
                DispatcherState::Idle
            } else if stop {
                DispatcherState::Stopped
            } else {
                DispatcherState::Draining
            },
        }
    }

    /// The state that follows `self` under the two flags.
    #[verifier::when_used_as_spec(spec_next)]
    pub fn next(self, wake: bool, stop: bool) -> (state: DispatcherState)
        ensures
            state == self.spec_next(wake, stop),
    {
        match self {
            DispatcherState::Stopped => DispatcherState::Stopped,
            DispatcherState::Draining => DispatcherState::Invoking,
            DispatcherState::Invoking => DispatcherState::Merging,
            DispatcherState::Idle | DispatcherState::Merging => if !wake {
                DispatcherState::Idle
            } else if stop {
                DispatcherState::Stopped
            } else {
                DispatcherState::Draining
            },
        }
    }
}

/// The event manager as the contracts see it.
pub struct EventManagerView<EventType> {
    /// The events that wait for the next batch, oldest first.
    pub pending: Seq<QuEvent<EventType>>,
    /// The buckets of the listener registry, in the order of their creation.
    pub registry: Seq<BucketView<EventType>>,
    /// The events kept aside in the temporary queue, oldest first.
    pub deferred: Seq<QuEvent<EventType>>,
    /// Every delivery made so far, oldest first.
    pub delivered: Seq<Delivery<EventType>>,
    /// The wake flag: the dispatcher has a reason to run.
    pub need_update: bool,
    /// The stop flag: the dispatcher was asked to stop.
    pub stop_update: bool,
}

/// What one batch does to the manager: it delivers the events that were
/// pending when it began, and those only; then the events of the temporary
/// queue, with all that the listeners added to it meanwhile, become the
/// pending events. Where the batch delivers nothing, no listener is called,
/// and what was kept aside is all that is pending afterwards.
pub open spec fn batch_step<EventType>(
    before: EventManagerView<EventType>,
    after: EventManagerView<EventType>,
) -> bool {
    &&& after.registry == before.registry
    &&& after.delivered == before.delivered + batch_deliveries(before.pending, before.registry)
    &&& before.deferred.is_prefix_of(after.pending)
    &&& batch_deliveries(before.pending, before.registry).len() == 0 ==> after.pending
        == before.deferred
    &&& after.deferred == Seq::<QuEvent<EventType>>::empty()
    &&& after.stop_update == before.stop_update
}

/// The event manager is designed to help interaction between the view and
/// the model. It accepts any kind of event: the kinds are compared with `==`
/// and nothing more is asked of them.
#[verifier::reject_recursive_types(EventType)]
pub struct EventManager<EventType> where EventType: PartialEq + Clone {
    /// The list of all event sent
    m_event_list: Vec<QuEvent<EventType>>,
    /// The list of all event listeners, by kind of event
    m_register_event_listeners: ListenerRegistry<EventType>,
    /// Whether the event manager needs to process events
    m_need_update: bool,
    /// Whether the processing of the events was asked to stop
    m_stop_update: bool,
    /// Temporary queue used to save the events pushed during the processing
    /// of the events
    m_tmp_event_queue: EventQueue<EventType>,
}

impl<EventType> View for EventManager<EventType> where EventType: PartialEq + Clone {
    type V = EventManagerView<EventType>;

    closed spec fn view(&self) -> EventManagerView<EventType> {
        EventManagerView {
            pending: self.m_event_list@,
            registry: self.m_register_event_listeners@,
            deferred: self.m_tmp_event_queue@,
            delivered: self.m_register_event_listeners.delivered(),
            need_update: self.m_need_update,
            stop_update: self.m_stop_update,
        }
    }
}

impl<EventType> EventManager<EventType> where EventType: PartialEq + Clone {
    /// The registry has at most one bucket for each kind of event, and the
    /// kinds compare by value.
    pub open spec fn wf(&self) -> bool {
        &&& distinct_kinds(self@.registry)
        &&& compares_by_value::<EventType>()
    }

    /// The listener registry of the manager.
    pub closed spec fn listeners(&self) -> ListenerRegistry<EventType> {
        self.m_register_event_listeners
    }

    /// The view of the manager shows the buckets of its registry and what
    /// the registry has delivered.
    pub proof fn lemma_listeners(&self)
        ensures
            self@.registry == self.listeners()@,
            self@.delivered == self.listeners().delivered(),
    {
    }

    /// Every event that the listener at `position` in the bucket `bucket`
    /// of the registry has received, by its own account, oldest first.
    pub open spec fn heard_by(&self, bucket: int, position: int) -> Seq<QuEvent<EventType>> {
        self.listeners().heard_by(bucket, position)
    }

    /// What the listener at `position` in the bucket `bucket` of the
    /// registry has published in each of its calls, by its own account,
    /// oldest call first.
    pub open spec fn answers_of(&self, bucket: int, position: int) -> Seq<Seq<QuEvent<EventType>>> {
        self.listeners().answers_of(bucket, position)
    }

    /// What the listeners published when they were called with the events
    /// of `batch`, which were delivered since `before`: event after event, in
    /// the order of the batch, and for each event listener after listener, in
    /// the order of their registration.
    pub open spec fn published_in(
        &self,
        before: &Self,
        batch: Seq<QuEvent<EventType>>,
    ) -> Seq<QuEvent<EventType>> {
        self.listeners().batch_answers(&before.listeners(), batch)
    }

    /// Whether the listener at `position` in the bucket `bucket` of the
    /// registry, called with `event`, may publish the events `answer`: what
    /// that listener is.
    pub open spec fn may_answer_at(
        &self,
        bucket: int,
        position: int,
        event: QuEvent<EventType>,
        answer: Seq<QuEvent<EventType>>,
    ) -> bool {
        self.listeners().may_answer_at(bucket, position, event, answer)
    }

    /// The listeners of `self` are what they were in `before`, and have made
    /// the calls they had made there and no other: they have received and
    /// published what they had there.
    pub open spec fn heard_as(&self, before: &Self) -> bool {
        &&& self.listeners().same_listeners(&before.listeners())
        &&& forall|bucket: int, position: int|
            0 <= bucket < before@.registry.len() && 0 <= position
                < before@.registry[bucket].listeners ==> {
                &&& #[trigger] self.heard_by(bucket, position) == before.heard_by(bucket, position)
                &&& self.answers_of(bucket, position) == before.answers_of(bucket, position)
            }
    }

    /// The listeners of `self` are what they were in `before`. Since then
    /// they were called with the events of `batch` that are of their kind, one
    /// after the other, and each answer they gave is one that the listener may
    /// give to the event it was called with.
    pub open spec fn answered_batch(&self, before: &Self, batch: Seq<QuEvent<EventType>>) -> bool {
        &&& self.listeners().same_listeners(&before.listeners())
        &&& self.listeners().answered_rightly(&before.listeners(), batch)
    }

    /// The listeners of `self` have received what they had in `before` and,
    /// after it, each the events of `batch` that are of its kind, in the order
    /// of the batch.
    pub open spec fn heard_batch(&self, before: &Self, batch: Seq<QuEvent<EventType>>) -> bool {
        forall|bucket: int, position: int|
            0 <= bucket < before@.registry.len() && 0 <= position
                < before@.registry[bucket].listeners ==> #[trigger] self.heard_by(bucket, position)
                == before.heard_by(bucket, position) + events_of_kind(
                batch,
                before@.registry[bucket].kind,
            )
    }

    /// The state the dispatcher is in between two batches.
    pub open spec fn spec_state(&self) -> DispatcherState {
        DispatcherState::Idle.spec_next(self@.need_update, self@.stop_update)
    }

    /// Push an event inside the event manager. The dispatcher is woken.
    ///
    /// # Parameters
    /// * self: a mutable references of the event manager
    /// * event: the event to push
    pub fn push_event(&mut self, event: QuEvent<EventType>)
        ensures
            final(self)@ == pushed(old(self)@, event),
            final(self).heard_as(old(self)),
    {
        self.m_event_list.push(event);
        self.m_need_update = true;
    }

    /// Register a listener to a specific event type. It will be called after
    /// the listeners already registered for that type, which stay where they
    /// are. The dispatcher is woken, so that the listener gets what is already
    /// pending.
    ///
    /// # Parameters
    /// * self: a mutable references of the event manager
    /// * event_type: the type of event to listen to
    /// * callback: the listener
    pub fn register_listener(&mut self, event_type: EventType, callback: Callback<EventType>)
        requires
            old(self).wf(),
        ensures
            final(self).wf(),
            final(self)@ == (EventManagerView {
                registry: with_listener(old(self)@.registry, event_type),
                need_update: true,
                ..old(self)@
            }),
            final(self).heard_as(old(self)),
            final(self).heard_by(
                bucket_for(old(self)@.registry, event_type),
                listeners_of(old(self)@.registry, event_type) as int,
            ) == callback.listener.received(),
            final(self).answers_of(
                bucket_for(old(self)@.registry, event_type),
                listeners_of(old(self)@.registry, event_type) as int,
            ) == callback.listener.published(),
            forall|event: QuEvent<EventType>, answer: Seq<QuEvent<EventType>>|
                #[trigger] final(self).may_answer_at(
                    bucket_for(old(self)@.registry, event_type),
                    listeners_of(old(self)@.registry, event_type) as int,
                    event,
                    answer,
                ) == callback.listener.may_answer(event, answer),
    {
        self.m_register_event_listeners.register(event_type, callback);
        self.m_need_update = true;
    }

    /// The temporary queue, to push an event that must wait for the batch
    /// that is running to end.
    pub fn get_temporary_queue(&mut self) -> (tmp_event_queue: &mut EventQueue<EventType>)
        ensures
            tmp_event_queue@ == old(self)@.deferred,
            final(self)@ == (EventManagerView { deferred: final(tmp_event_queue)@, ..old(self)@ }),
            final(self).heard_as(old(self)),
    {
        &mut self.m_tmp_event_queue
    }

    /// Invoking: calls the listeners for every event of `batch`, event after
    /// event.
    fn invoke_batch(&mut self, batch: &Vec<QuEvent<EventType>>)
        requires
            old(self).wf(),
        ensures
            final(self)@ == (EventManagerView {
                deferred: final(self)@.deferred,
                delivered: old(self)@.delivered + batch_deliveries(batch@, old(self)@.registry),
                ..old(self)@
            }),
            final(self).heard_batch(old(self), batch@),
            final(self).answered_batch(old(self), batch@),
            final(self)@.deferred == old(self)@.deferred + final(self).published_in(
                old(self),
                batch@,
            ),
            batch_deliveries(batch@, old(self)@.registry).len() == 0 ==> final(self)@.deferred
                == old(self)@.deferred,
    {
        let ghost first = old(self).m_register_event_listeners;
        let mut i: usize = 0;
        while i < batch.len()
            invariant
                i <= batch@.len(),
                self.wf(),
                first == old(self).m_register_event_listeners,
                self@ == (EventManagerView {
                    deferred: self@.deferred,
                    delivered: old(self)@.delivered + batch_deliveries(
                        batch@.subrange(0, i as int),
                        old(self)@.registry,
                    ),
                    ..old(self)@
                }),
                self.heard_batch(old(self), batch@.subrange(0, i as int)),
                self.m_register_event_listeners.same_listeners(&first),
                self.m_register_event_listeners.answered_rightly(
                    &first,
                    batch@.subrange(0, i as int),
                ),
                self@.deferred == old(self)@.deferred
                    + self.m_register_event_listeners.batch_answers(
                    &first,
                    batch@.subrange(0, i as int),
                ),
                forall|bucket: int, position: int|
                    0 <= bucket < first@.len() && 0 <= position < first@[bucket].listeners ==> (
                    #[trigger] self.m_register_event_listeners.answers_of(bucket, position)).len()
                        == first.answers_of(bucket, position).len() + events_of_kind(
                        batch@.subrange(0, i as int),
                        first@[bucket].kind,
                    ).len(),
                batch_deliveries(batch@.subrange(0, i as int), old(self)@.registry).len() == 0
                    ==> self@.deferred == old(self)@.deferred,
            decreases batch@.len() - i,
        {
            let ghost done = batch_deliveries(batch@.subrange(0, i as int), old(self)@.registry);
            let ghost earlier = *self;
            self.m_register_event_listeners.dispatch(&batch[i], &mut self.m_tmp_event_queue);
            proof {
                let event = batch@[i as int];
                let seen = batch@.subrange(0, i as int);
                let now = self.m_register_event_listeners;
                let was = earlier.m_register_event_listeners;
                let next = event_deliveries(event, old(self)@.registry);
                assert(batch@.subrange(0, i + 1).drop_last() =~= seen);
                assert(batch@.subrange(0, i + 1).last() == event);
                assert((old(self)@.delivered + done) + next =~= old(self)@.delivered + (done + next));
                assert forall|bucket: int, position: int|
                    0 <= bucket < old(self)@.registry.len() && 0 <= position < old(
                        self,
                    )@.registry[bucket].listeners implies #[trigger] self.heard_by(bucket, position)
                    == old(self).heard_by(bucket, position) + events_of_kind(
                    batch@.subrange(0, i + 1),
                    old(self)@.registry[bucket].kind,
                ) by {
                    let kind = old(self)@.registry[bucket].kind;
                    let before = events_of_kind(seen, kind);
                    assert(earlier.heard_by(bucket, position) == old(self).heard_by(bucket, position)
                        + before);
                    if kind == event.m_event_type {
                        assert((old(self).heard_by(bucket, position) + before).push(event)
                            =~= old(self).heard_by(bucket, position) + before.push(event));
                    }
                }
                // The listeners are what they were, and answered as they may.
                assert(now.same_listeners(&first)) by {
                    assert forall|
                        bucket: int,
                        position: int,
                        other: QuEvent<EventType>,
                        answer: Seq<QuEvent<EventType>>,
                    |
                        0 <= bucket < first@.len() && 0 <= position
                            < first@[bucket].listeners implies #[trigger] now.may_answer_at(
                        bucket,
                        position,
                        other,
                        answer,
                    ) == first.may_answer_at(bucket, position, other, answer) by {
                        assert(was.may_answer_at(bucket, position, other, answer)
                            == first.may_answer_at(bucket, position, other, answer));
                    }
                }
                assert(now.answered_rightly(&first, batch@.subrange(0, i + 1))) by {
                    assert forall|bucket: int, position: int, nth: int|
                        0 <= bucket < first@.len() && 0 <= position < first@[bucket].listeners && 0
                            <= nth < events_of_kind(
                            batch@.subrange(0, i + 1),
                            first@[bucket].kind,
                        ).len() implies first.may_answer_at(
                        bucket,
                        position,
                        events_of_kind(batch@.subrange(0, i + 1), first@[bucket].kind)[nth],
                        #[trigger] now.answers_of(bucket, position)[first.answers_of(
                            bucket,
                            position,
                        ).len() + nth],
                    ) by {
                        let kind = first@[bucket].kind;
                        let before = events_of_kind(seen, kind);
                        let place = first.answers_of(bucket, position).len() + nth;
                        assert(was.answers_of(bucket, position).len() == first.answers_of(
                            bucket,
                            position,
                        ).len() + before.len());
                        assert(was.answers_of(bucket, position).is_prefix_of(
                            now.answers_of(bucket, position),
                        ));
                        if nth < before.len() {
                            assert(first.may_answer_at(
                                bucket,
                                position,
                                before[nth],
                                was.answers_of(bucket, position)[place],
                            ));
                            assert(now.answers_of(bucket, position)[place] == was.answers_of(
                                bucket,
                                position,
                            )[place]);
                        } else {
                            assert(kind == event.m_event_type);
                            assert(was.may_answer_at(
                                bucket,
                                position,
                                event,
                                now.answers_of(bucket, position)[was.answers_of(
                                    bucket,
                                    position,
                                ).len() as int],
                            ));
                            assert(was.may_answer_at(
                                bucket,
                                position,
                                event,
                                now.answers_of(bucket, position)[place],
                            ) == first.may_answer_at(
                                bucket,
                                position,
                                event,
                                now.answers_of(bucket, position)[place],
                            ));
                        }
                    }
                }
                // What was published for the events before this one stays.
                assert forall|bucket: int, position: int|
                    0 <= bucket < first@.len() && 0 <= position
                        < first@[bucket].listeners implies #[trigger] was.has_reached(
                    &first,
                    bucket,
                    position,
                    seen,
                ) by {
                    assert(was.answers_of(bucket, position).len() == first.answers_of(
                        bucket,
                        position,
                    ).len() + events_of_kind(seen, first@[bucket].kind).len());
                }
                now.lemma_batch_answers_kept(&was, &first, seen);
                // What was published for this event is counted from the start
                // of the batch.
                assert forall|bucket: int, position: int|
                    0 <= bucket < was@.len() && was@[bucket].kind == event.m_event_type && 0
                        <= position < was@[bucket].listeners implies #[trigger] ListenerRegistry::same_call(
                    &was,
                    &first,
                    bucket,
                    position,
                    events_of_kind(Seq::<QuEvent<EventType>>::empty(), event.m_event_type).len() as int,
                    events_of_kind(seen, event.m_event_type).len() as int,
                ) by {
                    assert(was.answers_of(bucket, position).len() == first.answers_of(
                        bucket,
                        position,
                    ).len() + events_of_kind(seen, first@[bucket].kind).len());
                }
                now.lemma_event_answers_rebase(
                    &was,
                    &first,
                    was@.len(),
                    event,
                    Seq::empty(),
                    seen,
                );
                assert(self@.deferred =~= old(self)@.deferred + now.batch_answers(
                    &first,
                    batch@.subrange(0, i + 1),
                ));
                assert forall|bucket: int, position: int|
                    0 <= bucket < first@.len() && 0 <= position
                        < first@[bucket].listeners implies (#[trigger] now.answers_of(
                    bucket,
                    position,
                )).len() == first.answers_of(bucket, position).len() + events_of_kind(
                    batch@.subrange(0, i + 1),
                    first@[bucket].kind,
                ).len() by {
                    assert(was.answers_of(bucket, position).len() == first.answers_of(
                        bucket,
                        position,
                    ).len() + events_of_kind(seen, first@[bucket].kind).len());
                }
            }
            i += 1;
        }
        proof {
            assert(batch@.subrange(0, i as int) =~= batch@);
        }
    }

    /// Draining: takes the pending events as the batch to deliver, and leaves
    /// the pending queue empty.
    fn drain(&mut self) -> (batch: Vec<QuEvent<EventType>>)
        ensures
            batch@ == old(self)@.pending,
            final(self)@ == (EventManagerView {
                pending: Seq::<QuEvent<EventType>>::empty(),
                ..old(self)@
            }),
            final(self).m_register_event_listeners == old(self).m_register_event_listeners,
    {
        let mut batch: Vec<QuEvent<EventType>> = Vec::new();
        batch.append(&mut self.m_event_list);
        assert(batch@ =~= old(self)@.pending);
        batch
    }

    /// Merging: the events of the temporary queue become the pending events,
    /// in order, whatever was pending, and the temporary queue is left empty.
    fn merge(&mut self)
        ensures
            final(self)@ == (EventManagerView {
                pending: old(self)@.deferred,
                deferred: Seq::<QuEvent<EventType>>::empty(),
                ..old(self)@
            }),
            final(self).m_register_event_listeners == old(self).m_register_event_listeners,
    {
        self.m_event_list.clear();
        self.m_tmp_event_queue.drain_into(&mut self.m_event_list);
        assert(self@.pending =~= old(self)@.deferred);
    }

    /// Process all the events inside the event manager: one batch.
    ///
    /// The batch is made of the events that are pending when it begins. Each
    /// is delivered, in the order in which it was pushed, to the listeners
    /// registered for its kind, in the order of their registration. What a
    /// listener pushes into the temporary queue is not part of the batch.
    /// When every listener has returned, the events of the temporary queue
    /// become the pending events, in order, and the temporary queue is empty.
    /// The wake flag is left as it is.
    ///
    /// # Parameter
    /// * self : a mutable references of the event_manager
    pub fn update(&mut self)
        requires
            old(self).wf(),
        ensures
            final(self).wf(),
            batch_step(old(self)@, final(self)@),
            final(self).heard_batch(old(self), old(self)@.pending),
            final(self).answered_batch(old(self), old(self)@.pending),
            final(self)@.pending == old(self)@.deferred + final(self).published_in(
                old(self),
                old(self)@.pending,
            ),
            final(self)@.need_update == old(self)@.need_update,
    {
        let batch = self.drain();
        let ghost drained = *self;
        self.invoke_batch(&batch);
        let ghost invoked = *self;
        self.merge();
        proof {
            assert forall|bucket: int, position: int|
                0 <= bucket < old(self)@.registry.len() && 0 <= position < old(
                    self,
                )@.registry[bucket].listeners implies #[trigger] self.heard_by(bucket, position)
                == old(self).heard_by(bucket, position) + events_of_kind(
                old(self)@.pending,
                old(self)@.registry[bucket].kind,
            ) by {
                assert(self.heard_by(bucket, position) == invoked.heard_by(bucket, position));
                assert(drained.heard_by(bucket, position) == old(self).heard_by(bucket, position));
            }
        }
    }

    /// One turn of the dispatcher, from the top of its loop: nothing if the
    /// dispatcher is asleep or was stopped, else one batch, after which the
    /// wake flag says whether events are pending. Returns the state the
    /// dispatcher is in afterwards: `Stopped` to end, `Idle` to sleep until
    /// the manager is used again, `Draining` to take another turn at once.
    pub fn dispatch_cycle(&mut self) -> (state: DispatcherState)
        requires
            old(self).wf(),
        ensures
            final(self).wf(),
            state == final(self).spec_state(),
            old(self).spec_state() != DispatcherState::Draining ==> final(self)@ == old(self)@
                && final(self).heard_as(old(self)),
            old(self).spec_state() == DispatcherState::Draining ==> {
                &&& batch_step(old(self)@, final(self)@)
                &&& final(self).heard_batch(old(self), old(self)@.pending)
                &&& final(self).answered_batch(old(self), old(self)@.pending)
                &&& final(self)@.pending == old(self)@.deferred + final(self).published_in(
                    old(self),
                    old(self)@.pending,
                )
                &&& final(self)@.need_update == (final(self)@.pending.len() > 0)
                &&& state == DispatcherState::Merging.spec_next(
                    final(self)@.pending.len() > 0,
                    old(self)@.stop_update,
                )
            },
    {
        match self.state() {
            DispatcherState::Draining => {
                self.update();
                let ghost updated = *self;
                self.m_need_update = !self.m_event_list.is_empty();
                proof {
                    assert forall|bucket: int, position: int|
                        0 <= bucket < old(self)@.registry.len() && 0 <= position < old(
                            self,
                        )@.registry[bucket].listeners implies #[trigger] self.heard_by(
                        bucket,
                        position,
                    ) == old(self).heard_by(bucket, position) + events_of_kind(
                        old(self)@.pending,
                        old(self)@.registry[bucket].kind,
                    ) by {
                        assert(self.heard_by(bucket, position) == updated.heard_by(bucket, position));
                    }
                }
                DispatcherState::Merging.next(self.m_need_update, self.m_stop_update)
            },
            state => state,
        }
    }

    /// The state the dispatcher is in between two batches: `Idle` while the
    /// wake flag is down, and once it is up `Stopped` if the dispatcher was
    /// asked to stop and `Draining` if not.
    #[verifier::when_used_as_spec(spec_state)]
    pub fn state(&self) -> (state: DispatcherState)
        ensures
            state == self.spec_state(),
    {
        DispatcherState::Idle.next(self.m_need_update, self.m_stop_update)
    }

    /// How many events wait for the next batch.
    pub fn pending_count(&self) -> (count: usize)
        ensures
            count == self@.pending.len(),
    {
        self.m_event_list.len()
    }

    /// How many listeners are registered for the events of kind `event_type`.
    pub fn listener_count(&self, event_type: &EventType) -> (count: usize)
        requires
            self.wf(),
        ensures
            count == listeners_of(self@.registry, *event_type),
    {
        self.m_register_event_listeners.listener_count(event_type)
    }

    /// Lets the dispatcher run: a request to stop that was made before is
    /// forgotten.
    pub fn launch(&mut self)
        ensures
            final(self)@ == (EventManagerView { stop_update: false, ..old(self)@ }),
            final(self).heard_as(old(self)),
    {
        self.m_stop_update = false;
    }

    /// Asks the dispatcher to stop, and wakes it so that it takes notice.
    ///
    /// # Parameters
    /// self : a mutable event manager
    pub fn stop(&mut self)
        ensures
            final(self)@ == (EventManagerView {
                need_update: true,
                stop_update: true,
                ..old(self)@
            }),
            final(self).spec_state() == DispatcherState::Stopped,
            final(self).heard_as(old(self)),
    {
        self.m_stop_update = true;
        self.m_need_update = true;
    }
}

/// Create the event manager: no event, no listener, nothing to do.
///
/// # Return
/// Return the event manager
pub fn create_event_manager<EventType>() -> (event_manager: EventManager<EventType>) where
    EventType: PartialEq + Clone,

    requires
        compares_by_value::<EventType>(),
    ensures
        event_manager.wf(),
        event_manager@ == (EventManagerView {
            pending: Seq::<QuEvent<EventType>>::empty(),
            registry: Seq::<BucketView<EventType>>::empty(),
            deferred: Seq::<QuEvent<EventType>>::empty(),
            delivered: Seq::<Delivery<EventType>>::empty(),
            need_update: false,
            stop_update: false,
        }),
{
    EventManager {
        m_event_list: Vec::new(),
        m_register_event_listeners: ListenerRegistry::new(),
        m_need_update: false,
        m_stop_update: false,
        m_tmp_event_queue: EventQueue::new(),
    }
}

/// Exact-once delivery: a batch delivers each event that was pending when it
/// began to each of the listeners registered for the kind of the event,
/// exactly once, in the order of their registration, and to nobody else:
/// after the events pushed before it and before those pushed after it.
pub proof fn lemma_batch_delivers_exactly_once<EventType>(
    before: EventManagerView<EventType>,
    after: EventManagerView<EventType>,
    index: int,
)
    requires
        distinct_kinds(before.registry),
        batch_step(before, after),
        0 <= index < before.pending.len(),
    ensures
        after.delivered == before.delivered + batch_deliveries(
            before.pending.take(index),
            before.registry,
        ) + deliveries_in_order(
            before.pending[index],
            before.pending[index].m_event_type,
            listeners_of(before.registry, before.pending[index].m_event_type),
        ) + batch_deliveries(before.pending.skip(index + 1), before.registry),
{
    lemma_every_event_delivered(before.pending, before.registry, index);
    lemma_exact_once_delivery(before.pending[index], before.registry);
    let first = batch_deliveries(before.pending.take(index), before.registry);
    let one = event_deliveries(before.pending[index], before.registry);
    let last = batch_deliveries(before.pending.skip(index + 1), before.registry);
    assert(before.delivered + (first + one + last) =~= before.delivered + first + one + last);
}

/// The manager after `event` was pushed into it, as `push_event` does: the
/// event is the last of the pending events, and the wake flag is up.
pub open spec fn pushed<EventType>(
    view: EventManagerView<EventType>,
    event: QuEvent<EventType>,
) -> EventManagerView<EventType> {
    EventManagerView { pending: view.pending.push(event), need_update: true, ..view }
}

/// The manager after the events of `order` were pushed into it, one after
/// the other.
pub open spec fn pushed_all<EventType>(
    view: EventManagerView<EventType>,
    order: Seq<QuEvent<EventType>>,
) -> EventManagerView<EventType>
    decreases order.len(),
{
    if order.len() == 0 {
        view
    } else {
        pushed(pushed_all(view, order.drop_last()), order.last())
    }
}

/// No loss of what is pushed: when producers push the events `events`, one
/// each, in whatever order `order` they come to it, then the pending events
/// are those that were pending, followed by the pushed events in the order
/// in which they came: each of them once, none lost, none twice. The wake
/// flag is up as soon as one event was pushed, and nothing else has changed.
pub proof fn lemma_pushes_are_all_pending<EventType>(
    view: EventManagerView<EventType>,
    events: Seq<QuEvent<EventType>>,
    order: Seq<QuEvent<EventType>>,
)
    requires
        order.to_multiset() == events.to_multiset(),
    ensures
        pushed_all(view, order) == (EventManagerView {
            pending: view.pending + order,
            need_update: view.need_update || order.len() > 0,
            ..view
        }),
        pushed_all(view, order).pending.len() == view.pending.len() + events.len(),
        pushed_all(view, order).pending.to_multiset() == view.pending.to_multiset().add(
            events.to_multiset(),
        ),
{
    lemma_pushes_in_order(view, order);
    vstd::seq_lib::to_multiset_len(order);
    vstd::seq_lib::to_multiset_len(events);
    vstd::seq_lib::lemma_multiset_commutative(view.pending, order);
}

/// What is pushed is pending in the order in which it was pushed.
pub proof fn lemma_pushes_in_order<EventType>(
    view: EventManagerView<EventType>,
    order: Seq<QuEvent<EventType>>,
)
    ensures
        pushed_all(view, order) == (EventManagerView {
            pending: view.pending + order,
            need_update: view.need_update || order.len() > 0,
            ..view
        }),
    decreases order.len(),
{
    if order.len() == 0 {
        assert(view.pending + order =~= view.pending);
    } else {
        lemma_pushes_in_order(view, order.drop_last());
        assert((view.pending + order.drop_last()).push(order.last()) =~= view.pending + order);
    }
}

/// No loss: of the events that were pushed one after the other, in whatever
/// order their producers came, the next batch delivers every one to each
/// listener of its kind exactly once.
pub proof fn lemma_no_event_is_lost<EventType>(
    before: EventManagerView<EventType>,
    published: Seq<QuEvent<EventType>>,
    after: EventManagerView<EventType>,
    index: int,
)
    requires
        distinct_kinds(before.registry),
        batch_step(
            EventManagerView {
                pending: before.pending + published,
                need_update: true,
                ..before
            },
            after,
        ),
        0 <= index < published.len(),
    ensures
        after.delivered == before.delivered + batch_deliveries(
            before.pending + published.take(index),
            before.registry,
        ) + deliveries_in_order(
            published[index],
            published[index].m_event_type,
            listeners_of(before.registry, published[index].m_event_type),
        ) + batch_deliveries(published.skip(index + 1), before.registry),
{
    let pushed = EventManagerView {
        pending: before.pending + published,
        need_update: true,
        ..before
    };
    let place = before.pending.len() + index;
    lemma_batch_delivers_exactly_once(pushed, after, place);
    assert(pushed.pending.take(place) =~= before.pending + published.take(index));
    assert(pushed.pending.skip(place + 1) =~= published.skip(index + 1));
}

/// Kind isolation: whatever a batch delivers, it delivers to a listener
/// registered for the kind of the event it delivers.
pub proof fn lemma_batch_isolates_kinds<EventType>(
    before: EventManagerView<EventType>,
    after: EventManagerView<EventType>,
    index: int,
)
    requires
        batch_step(before, after),
        before.delivered.len() <= index < after.delivered.len(),
    ensures
        after.delivered[index].kind == after.delivered[index].event.m_event_type,
{
    lemma_kind_isolation(before.pending, before.registry);
    assert(after.delivered[index] == batch_deliveries(before.pending, before.registry)[index
        - before.delivered.len()]);
}

/// Deferred timing: an event that is in the temporary queue when a batch
/// ends, as is every event that a listener pushed there during the batch, is
/// not delivered by that batch, which delivers what was pending when it began
/// and nothing else. It is pending for the next batch, which delivers it to
/// the listeners of its kind, after the events that were kept aside before it
/// and before those that were kept aside after it.
pub proof fn lemma_deferred_timing<EventType>(
    before: EventManagerView<EventType>,
    between: EventManagerView<EventType>,
    after: EventManagerView<EventType>,
    index: int,
)
    requires
        batch_step(before, between),
        batch_step(between, after),
        0 <= index < between.pending.len(),
    ensures
        between.delivered == before.delivered + batch_deliveries(before.pending, before.registry),
        after.delivered == between.delivered + batch_deliveries(
            between.pending.take(index),
            before.registry,
        ) + event_deliveries(between.pending[index], before.registry) + batch_deliveries(
            between.pending.skip(index + 1),
            before.registry,
        ),
{
    lemma_every_event_delivered(between.pending, before.registry, index);
    let first = batch_deliveries(between.pending.take(index), before.registry);
    let one = event_deliveries(between.pending[index], before.registry);
    let last = batch_deliveries(between.pending.skip(index + 1), before.registry);
    assert(between.delivered + (first + one + last) =~= between.delivered + first + one + last);
}

/// Deferred timing, for what a listener publishes: an event that a listener
/// published when it was called with an event of a batch is pending when
/// the batch has ended, as `update` leaves the manager. The batch itself
/// delivers only what was pending when it began; the next batch delivers
/// what is pending then.
pub proof fn lemma_published_is_pending<EventType: PartialEq + Clone>(
    before: &EventManager<EventType>,
    after: &EventManager<EventType>,
    index: int,
    bucket: int,
    position: int,
    published: QuEvent<EventType>,
)
    requires
        after@.pending == before@.deferred + after.published_in(before, before@.pending),
        0 <= index < before@.pending.len(),
        0 <= bucket < before@.registry.len(),
        before@.registry[bucket].kind == before@.pending[index].m_event_type,
        0 <= position < before@.registry[bucket].listeners,
        after.listeners().published_event(
            &before.listeners(),
            bucket,
            position,
            events_of_kind(
                before@.pending.take(index),
                before@.pending[index].m_event_type,
            ).len() as int,
            published,
        ),
    ensures
        after@.pending.contains(published),
{
    before.lemma_listeners();
    after.listeners().lemma_batch_answer_published(
        &before.listeners(),
        before@.pending,
        index,
        bucket,
        position,
        published,
    );
    lemma_contains_in_concat(
        before@.deferred,
        after.published_in(before, before@.pending),
        published,
    );
}

/// Idle wake on registration: when a listener is registered with a manager
/// that was not asked to stop, the dispatcher leaves its sleep for a batch,
/// whether or not an event is pushed. In that batch every pending event of
/// the kind of the new listener is delivered to the listeners that were
/// registered for that kind before, and then to the new one.
pub proof fn lemma_registration_wakes<EventType>(
    before: EventManagerView<EventType>,
    after: EventManagerView<EventType>,
    kind: EventType,
    event: QuEvent<EventType>,
)
    requires
        distinct_kinds(before.registry),
        !before.stop_update,
        after == (EventManagerView {
            registry: with_listener(before.registry, kind),
            need_update: true,
            ..before
        }),
        event.m_event_type == kind,
    ensures
        DispatcherState::Idle.spec_next(after.need_update, after.stop_update)
            == DispatcherState::Draining,
        after.pending == before.pending,
        event_deliveries(event, after.registry) == event_deliveries(event, before.registry).push(
            Delivery { event, kind, position: listeners_of(before.registry, kind) },
        ),
{
    lemma_with_listener(before.registry, kind);
    lemma_exact_once_delivery(event, before.registry);
    lemma_exact_once_delivery(event, after.registry);
    assert(deliveries_in_order(event, kind, listeners_of(before.registry, kind) + 1)
        =~= deliveries_in_order(event, kind, listeners_of(before.registry, kind)).push(
        Delivery { event, kind, position: listeners_of(before.registry, kind) },
    ));
}

} // verus!
