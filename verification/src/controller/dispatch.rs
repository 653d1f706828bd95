//! What a dispatch batch delivers, stated mathematically, and what follows
//! from it.
//!
//! The registry is seen as its buckets in the order in which they were made:
//! each bucket has a kind and the number of listeners registered under it. A
//! listener is named by the kind it was registered for and by its position
//! among the listeners of that kind, which is its rank of registration.

use crate::controller::event::QuEvent;
use vstd::prelude::*;

verus! {

/// A bucket of the registry as the contracts see it.
pub struct BucketView<EventType> {
    /// The kind of event the listeners of the bucket wait for.
    pub kind: EventType,
    /// How many listeners are registered under that kind.
    pub listeners: nat,
}

/// One call of a listener with an event.
pub struct Delivery<EventType> {
    /// The event that was handed over.
    pub event: QuEvent<EventType>,
    /// The kind the listener was registered for.
    pub kind: EventType,
    /// The position of the listener among those registered for that kind.
    pub position: nat,
}

/// No two buckets of the registry have the same kind.
pub open spec fn distinct_kinds<EventType>(registry: Seq<BucketView<EventType>>) -> bool {
    forall|i: int, j: int|
        0 <= i < j < registry.len() ==> (#[trigger] registry[i]).kind != (#[trigger] registry[j]).kind
}

/// Some bucket of the registry has the kind `kind`.
pub open spec fn has_kind<EventType>(registry: Seq<BucketView<EventType>>, kind: EventType) -> bool {
    exists|i: int| 0 <= i < registry.len() && (#[trigger] registry[i]).kind == kind
}

/// The bucket of the kind `kind`, in a registry that has one.
pub open spec fn bucket_of<EventType>(registry: Seq<BucketView<EventType>>, kind: EventType) -> int {
    choose|i: int| 0 <= i < registry.len() && (#[trigger] registry[i]).kind == kind
}

/// The bucket in which a listener registered for `kind` comes to stand: the
/// bucket of that kind, and where there is none yet, a new one after all the
/// others.
pub open spec fn bucket_for<EventType>(registry: Seq<BucketView<EventType>>, kind: EventType) -> int {
    if has_kind(registry, kind) {
        bucket_of(registry, kind)
    } else {
        registry.len() as int
    }
}

/// The registry after one more listener was registered for `kind`: the
/// listener comes last in the bucket of its kind, and where there is no such
/// bucket yet, a new one is made for it after all the others.
pub open spec fn with_listener<EventType>(
    registry: Seq<BucketView<EventType>>,
    kind: EventType,
) -> Seq<BucketView<EventType>> {
    if has_kind(registry, kind) {
        let bucket = bucket_of(registry, kind);
        registry.update(bucket, BucketView { kind, listeners: registry[bucket].listeners + 1 })
    } else {
        registry.push(BucketView { kind, listeners: 1 })
    }
}

/// How many listeners are registered for `kind`.
pub open spec fn listeners_of<EventType>(
    registry: Seq<BucketView<EventType>>,
    kind: EventType,
) -> nat
    decreases registry.len(),
{
    if registry.len() == 0 {
        0
    } else if registry.last().kind == kind {
        listeners_of(registry.drop_last(), kind) + registry.last().listeners
    } else {
        listeners_of(registry.drop_last(), kind)
    }
}

/// The deliveries of `event` to the first `count` listeners registered for
/// `kind`, in the order of their registration.
pub open spec fn deliveries_in_order<EventType>(
    event: QuEvent<EventType>,
    kind: EventType,
    count: nat,
) -> Seq<Delivery<EventType>> {
    Seq::new(count, |position: int| Delivery { event, kind, position: position as nat })
}

/// The deliveries of `event` to the listeners of one bucket: all of them, in
/// the order of their registration, if the bucket's kind is the event's, and
/// none otherwise.
pub open spec fn bucket_deliveries<EventType>(
    event: QuEvent<EventType>,
    bucket: BucketView<EventType>,
) -> Seq<Delivery<EventType>> {
    if bucket.kind == event.m_event_type {
        deliveries_in_order(event, bucket.kind, bucket.listeners)
    } else {
        Seq::empty()
    }
}

/// The deliveries of `event`: bucket after bucket.
pub open spec fn event_deliveries<EventType>(
    event: QuEvent<EventType>,
    registry: Seq<BucketView<EventType>>,
) -> Seq<Delivery<EventType>>
    decreases registry.len(),
{
    if registry.len() == 0 {
        Seq::empty()
    } else {
        event_deliveries(event, registry.drop_last()) + bucket_deliveries(event, registry.last())
    }
}

/// The deliveries of a batch: event after event, in the order in which the
/// events were submitted.
pub open spec fn batch_deliveries<EventType>(
    batch: Seq<QuEvent<EventType>>,
    registry: Seq<BucketView<EventType>>,
) -> Seq<Delivery<EventType>>
    decreases batch.len(),
{
    if batch.len() == 0 {
        Seq::empty()
    } else {
        batch_deliveries(batch.drop_last(), registry) + event_deliveries(batch.last(), registry)
    }
}

/// The events of a batch that are of the kind `kind`, in the order of the
/// batch.
pub open spec fn events_of_kind<EventType>(
    batch: Seq<QuEvent<EventType>>,
    kind: EventType,
) -> Seq<QuEvent<EventType>>
    decreases batch.len(),
{
    if batch.len() == 0 {
        Seq::empty()
    } else if batch.last().m_event_type == kind {
        events_of_kind(batch.drop_last(), kind).push(batch.last())
    } else {
        events_of_kind(batch.drop_last(), kind)
    }
}

/// An event whose kind no bucket has is delivered to nobody.
pub proof fn lemma_event_without_listener<EventType>(
    event: QuEvent<EventType>,
    registry: Seq<BucketView<EventType>>,
)
    requires
        forall|i: int| 0 <= i < registry.len() ==> (#[trigger] registry[i]).kind != event.m_event_type,
    ensures
        event_deliveries(event, registry) == Seq::<Delivery<EventType>>::empty(),
    decreases registry.len(),
{
    if registry.len() > 0 {
        assert(registry.last() == registry[registry.len() - 1]);
        assert forall|i: int| 0 <= i < registry.drop_last().len() implies (#[trigger] registry.drop_last()[i]).kind
            != event.m_event_type by {
            assert(registry.drop_last()[i] == registry[i]);
        }
        lemma_event_without_listener(event, registry.drop_last());
    }
}

/// An event of the kind of a bucket is delivered to each listener of that
/// bucket exactly once, in the order of their registration, and to nobody
/// else.
pub proof fn lemma_deliveries_of_bucket<EventType>(
    event: QuEvent<EventType>,
    registry: Seq<BucketView<EventType>>,
    bucket: int,
)
    requires
        distinct_kinds(registry),
        0 <= bucket < registry.len(),
        registry[bucket].kind == event.m_event_type,
    ensures
        event_deliveries(event, registry) == deliveries_in_order(
            event,
            event.m_event_type,
            registry[bucket].listeners,
        ),
        listeners_of(registry, event.m_event_type) == registry[bucket].listeners,
    decreases registry.len(),
{
    let rest = registry.drop_last();
    assert(registry.last() == registry[registry.len() - 1]);
    assert forall|i: int| 0 <= i < rest.len() implies #[trigger] rest[i] == registry[i] by {}
    if bucket == registry.len() - 1 {
        assert forall|i: int| 0 <= i < rest.len() implies (#[trigger] rest[i]).kind
            != event.m_event_type by {
            assert(rest[i] == registry[i]);
        }
        lemma_event_without_listener(event, rest);
        lemma_listeners_of_absent_kind(rest, event.m_event_type);
    } else {
        assert(registry[bucket].kind != registry[registry.len() - 1].kind);
        assert(rest[bucket] == registry[bucket]);
        assert(distinct_kinds(rest)) by {
            assert forall|i: int, j: int| 0 <= i < j < rest.len() implies (#[trigger] rest[i]).kind != (
            #[trigger] rest[j]).kind by {
                assert(rest[i] == registry[i]);
                assert(rest[j] == registry[j]);
            }
        }
        lemma_deliveries_of_bucket(event, rest, bucket);
    }
}

/// Exact-once delivery: an event of a kind for which `n` listeners are
/// registered is delivered to each of the `n` exactly once, in the order of
/// their registration, and to nobody else.
pub proof fn lemma_exact_once_delivery<EventType>(
    event: QuEvent<EventType>,
    registry: Seq<BucketView<EventType>>,
)
    requires
        distinct_kinds(registry),
    ensures
        event_deliveries(event, registry) == deliveries_in_order(
            event,
            event.m_event_type,
            listeners_of(registry, event.m_event_type),
        ),
{
    if has_kind(registry, event.m_event_type) {
        lemma_deliveries_of_bucket(event, registry, bucket_of(registry, event.m_event_type));
    } else {
        lemma_event_without_listener(event, registry);
        lemma_listeners_of_absent_kind(registry, event.m_event_type);
        assert(deliveries_in_order(event, event.m_event_type, 0) =~= Seq::<
            Delivery<EventType>,
        >::empty());
    }
}

/// A kind that no bucket has has no listener.
pub proof fn lemma_listeners_of_absent_kind<EventType>(
    registry: Seq<BucketView<EventType>>,
    kind: EventType,
)
    requires
        forall|i: int| 0 <= i < registry.len() ==> (#[trigger] registry[i]).kind != kind,
    ensures
        listeners_of(registry, kind) == 0,
    decreases registry.len(),
{
    if registry.len() > 0 {
        assert(registry.last() == registry[registry.len() - 1]);
        assert forall|i: int| 0 <= i < registry.drop_last().len() implies (#[trigger] registry.drop_last()[i]).kind
            != kind by {
            assert(registry.drop_last()[i] == registry[i]);
        }
        lemma_listeners_of_absent_kind(registry.drop_last(), kind);
    }
}

/// Kind isolation, for one event: whoever receives the event was registered
/// for the kind of the event.
pub proof fn lemma_event_kind_isolation<EventType>(
    event: QuEvent<EventType>,
    registry: Seq<BucketView<EventType>>,
)
    ensures
        forall|i: int|
            0 <= i < event_deliveries(event, registry).len() ==> {
                &&& (#[trigger] event_deliveries(event, registry)[i]).kind == event.m_event_type
                &&& event_deliveries(event, registry)[i].event == event
            },
    decreases registry.len(),
{
    if registry.len() > 0 {
        lemma_event_kind_isolation(event, registry.drop_last());
        let before = event_deliveries(event, registry.drop_last());
        let last = bucket_deliveries(event, registry.last());
        assert forall|i: int| 0 <= i < event_deliveries(event, registry).len() implies {
            &&& (#[trigger] event_deliveries(event, registry)[i]).kind == event.m_event_type
            &&& event_deliveries(event, registry)[i].event == event
        } by {
            if i < before.len() {
                assert(event_deliveries(event, registry)[i] == before[i]);
            } else {
                assert(event_deliveries(event, registry)[i] == last[i - before.len()]);
            }
        }
    }
}

/// Kind isolation: in a batch, a listener registered for a kind is never
/// called with an event of another kind.
pub proof fn lemma_kind_isolation<EventType>(
    batch: Seq<QuEvent<EventType>>,
    registry: Seq<BucketView<EventType>>,
)
    ensures
        forall|i: int|
            0 <= i < batch_deliveries(batch, registry).len() ==> (#[trigger] batch_deliveries(
                batch,
                registry,
            )[i]).kind == batch_deliveries(batch, registry)[i].event.m_event_type,
    decreases batch.len(),
{
    if batch.len() > 0 {
        lemma_kind_isolation(batch.drop_last(), registry);
        lemma_event_kind_isolation(batch.last(), registry);
        let before = batch_deliveries(batch.drop_last(), registry);
        let last = event_deliveries(batch.last(), registry);
        assert forall|i: int| 0 <= i < batch_deliveries(batch, registry).len() implies (
        #[trigger] batch_deliveries(batch, registry)[i]).kind == batch_deliveries(
            batch,
            registry,
        )[i].event.m_event_type by {
            if i < before.len() {
                assert(batch_deliveries(batch, registry)[i] == before[i]);
            } else {
                assert(batch_deliveries(batch, registry)[i] == last[i - before.len()]);
            }
        }
    }
}

/// The deliveries of a batch made of two parts are those of the first part,
/// then those of the second.
pub proof fn lemma_batch_deliveries_concat<EventType>(
    first: Seq<QuEvent<EventType>>,
    second: Seq<QuEvent<EventType>>,
    registry: Seq<BucketView<EventType>>,
)
    ensures
        batch_deliveries(first + second, registry) == batch_deliveries(first, registry)
            + batch_deliveries(second, registry),
    decreases second.len(),
{
    if second.len() == 0 {
        assert(first + second =~= first);
        assert(batch_deliveries(first, registry) + batch_deliveries(second, registry)
            =~= batch_deliveries(first, registry));
    } else {
        assert((first + second).drop_last() =~= first + second.drop_last());
        assert((first + second).last() == second.last());
        lemma_batch_deliveries_concat(first, second.drop_last(), registry);
        assert((batch_deliveries(first, registry) + batch_deliveries(second.drop_last(), registry))
            + event_deliveries(second.last(), registry) =~= batch_deliveries(first, registry) + (
        batch_deliveries(second.drop_last(), registry) + event_deliveries(
            second.last(),
            registry,
        )));
    }
}

/// No loss, no duplicate: every event of a batch is delivered by the batch,
/// once, between the events pushed before it and those pushed after it.
pub proof fn lemma_every_event_delivered<EventType>(
    batch: Seq<QuEvent<EventType>>,
    registry: Seq<BucketView<EventType>>,
    index: int,
)
    requires
        0 <= index < batch.len(),
    ensures
        batch_deliveries(batch, registry) == batch_deliveries(batch.take(index), registry)
            + event_deliveries(batch[index], registry) + batch_deliveries(
            batch.skip(index + 1),
            registry,
        ),
{
    let before = batch.take(index);
    let one = seq![batch[index]];
    let after = batch.skip(index + 1);
    assert(batch =~= (before + one) + after);
    lemma_batch_deliveries_concat(before + one, after, registry);
    lemma_batch_deliveries_concat(before, one, registry);
    assert(one.drop_last() =~= Seq::<QuEvent<EventType>>::empty());
    assert(one.last() == batch[index]);
    assert(batch_deliveries(one.drop_last(), registry) =~= Seq::<Delivery<EventType>>::empty());
    assert(batch_deliveries(one, registry) =~= event_deliveries(batch[index], registry));
}

/// Registering a listener for a kind keeps the buckets apart, and adds one
/// listener to that kind: the new one, after those that were there.
pub proof fn lemma_with_listener<EventType>(registry: Seq<BucketView<EventType>>, kind: EventType)
    requires
        distinct_kinds(registry),
    ensures
        distinct_kinds(with_listener(registry, kind)),
        has_kind(with_listener(registry, kind), kind),
        listeners_of(with_listener(registry, kind), kind) == listeners_of(registry, kind) + 1,
{
    let after = with_listener(registry, kind);
    if has_kind(registry, kind) {
        let bucket = bucket_of(registry, kind);
        assert(after[bucket].kind == kind);
        lemma_listeners_of_bucket(registry, bucket);
        lemma_listeners_of_bucket(after, bucket);
    } else {
        assert(after[registry.len() as int].kind == kind);
        assert(after.drop_last() =~= registry);
        lemma_listeners_of_absent_kind(registry, kind);
    }
}

/// Where the buckets are apart, the listeners of a kind are those of its
/// bucket.
pub proof fn lemma_listeners_of_bucket<EventType>(registry: Seq<BucketView<EventType>>, bucket: int)
    requires
        distinct_kinds(registry),
        0 <= bucket < registry.len(),
    ensures
        listeners_of(registry, registry[bucket].kind) == registry[bucket].listeners,
    decreases registry.len(),
{
    let kind = registry[bucket].kind;
    let rest = registry.drop_last();
    if bucket == registry.len() - 1 {
        assert forall|i: int| 0 <= i < rest.len() implies (#[trigger] rest[i]).kind != kind by {
            assert(rest[i] == registry[i]);
        }
        lemma_listeners_of_absent_kind(rest, kind);
    } else {
        assert(registry.last() == registry[registry.len() - 1]);
        assert(rest[bucket] == registry[bucket]);
        assert(distinct_kinds(rest)) by {
            assert forall|i: int, j: int| 0 <= i < j < rest.len() implies (#[trigger] rest[i]).kind != (
            #[trigger] rest[j]).kind by {
                assert(rest[i] == registry[i]);
                assert(rest[j] == registry[j]);
            }
        }
        lemma_listeners_of_bucket(rest, bucket);
    }
}

} // verus!
