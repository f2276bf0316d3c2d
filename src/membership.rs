//! What a flush guarantees about system membership and destruction events.

use crate::system::{ComponentEventKind, EntityId, ECS_MAX_COMPONENTS};
use crate::world::{
    attached_entities, destruction_events, detach_all_event, detach_events,
    flush_post, removed_entities, World,
};
use vstd::prelude::*;

verus! {

/// After a flush, the members of a system are exactly the alive entities
/// that have every component it requires (for a system that requires at
/// least one component).
pub proof fn lemma_membership_after_flush(w0: World, w1: World, i: int, e: EntityId)
    requires
        w0.wf(),
        w1.wf(),
        flush_post(w0, w1),
        0 <= i < w1.systems().len(),
        w1.systems()[i].required() != Set::<usize>::empty(),
    ensures
        w1.systems()[i].is_member(e) <==> (w1.is_alive_spec(e) && w1.systems()[i].required().subset_of(
            w1.mask(e),
        )),
{
    assert(w1.attach_queue() == Seq::<crate::system::ComponentEvent>::empty());
    if w1.is_alive_spec(e) && w1.systems()[i].required().subset_of(w1.mask(e)) {
        if !w1.systems()[i].is_member(e) {
            assert(attached_entities(w1.attach_queue()).contains(e));
            let j = choose|j: int| 0 <= j < w1.attach_queue().len() && w1.attach_queue()[j].entity_id == e;
        }
    }
}

/// Destroying an entity removes it from every system by the next flush, and
/// that flush announces the destruction with exactly one detach-all event;
/// when no detachment was queued for the entity, it is the only detach event
/// that names it.
pub proof fn lemma_destruction_after_flush(w0: World, w1: World, e: EntityId)
    requires
        w0.wf(),
        w1.wf(),
        flush_post(w0, w1),
        w0.is_alive_spec(e),
        w0.removal_queue().contains(e),
    ensures
        !w1.is_alive_spec(e),
        forall|i: int| 0 <= i < w1.systems().len() ==> !(#[trigger] w1.systems()[i]).is_member(e),
        exists|j: int|
            0 <= j < w1.delivered().len() && w1.delivered()[j] == detach_all_event(e),
        forall|j: int, k: int|
            0 <= j < w1.delivered().len() && 0 <= k < w1.delivered().len() && w1.delivered()[j]
                == detach_all_event(e) && w1.delivered()[k] == detach_all_event(e) ==> j == k,
        (forall|c: usize| !(#[trigger] w0.detach_queue().contains((e, c)))) ==> forall|j: int|
            0 <= j < w1.delivered().len() && (#[trigger] w1.delivered()[j]).entity_id == e
                && w1.delivered()[j].kind == ComponentEventKind::Detached ==> w1.delivered()[j]
                == detach_all_event(e),
{
    assert(!w1.live().to_set().contains(e));
    assert forall|i: int| 0 <= i < w1.systems().len() implies !(
    #[trigger] w1.systems()[i]).is_member(e) by {
        assert(w1.systems()[i].members().to_set() == w0.flushed_members(i));
        assert(!w0.flushed_members(i).contains(e));
    }
    let de = detach_events(w0.detach_queue());
    let aq = w0.attach_queue();
    let removed = removed_entities(w0.removal_queue(), w0.live());
    let da = destruction_events(removed);
    let d = w1.delivered();
    assert(d == de + aq + da);
    // the destroyed entities are a suffix of the freed identifiers, which
    // hold no duplicates
    assert(w1.free() == w0.free() + removed);
    assert(removed.no_duplicates()) by {
        assert forall|a: int, b: int|
            0 <= a < removed.len() && 0 <= b < removed.len() && a != b implies removed[a]
            != removed[b] by {
            assert(w1.free()[w0.free().len() + a] == removed[a]);
            assert(w1.free()[w0.free().len() + b] == removed[b]);
        }
    }
    let pred = |x: EntityId| w0.live().contains(x);
    let idx = choose|k: int| 0 <= k < w0.removal_queue().len() && w0.removal_queue()[k] == e;
    w0.removal_queue().lemma_filter_contains(pred, idx);
    assert(removed.contains(e));
    let r = choose|r: int| 0 <= r < removed.len() && removed[r] == e;
    let base = de.len() + aq.len();
    assert(d[base + r] == da[r]);
    assert(da[r] == detach_all_event(e));
    // an event equal to the detach-all of e comes from the destruction part
    assert forall|j: int| 0 <= j < d.len() && d[j] == detach_all_event(e) implies base <= j
        && removed[j - base] == e by {
        if j < de.len() {
            let p = w0.detach_queue()[j];
            assert(w0.detach_queue().contains(p));
            assert(p.1 < ECS_MAX_COMPONENTS);
            assert(d[j] == de[j]);
        } else if j < base {
            assert(d[j] == aq[j - de.len()]);
            assert(aq[j - de.len()].kind == ComponentEventKind::Attached);
        } else {
            assert(d[j] == da[j - base]);
        }
    }
    if forall|c: usize| !(#[trigger] w0.detach_queue().contains((e, c))) {
        assert forall|j: int|
            0 <= j < d.len() && (#[trigger] d[j]).entity_id == e && d[j].kind
                == ComponentEventKind::Detached implies d[j] == detach_all_event(e) by {
            if j < de.len() {
                let p = w0.detach_queue()[j];
                assert(d[j] == de[j]);
                assert(w0.detach_queue().contains(p));
                assert(p.0 == e);
                assert(w0.detach_queue().contains((e, p.1)));
            } else if j < base {
                assert(d[j] == aq[j - de.len()]);
            } else {
                assert(d[j] == da[j - base]);
                assert(removed[j - base] == e);
            }
        }
    }
}

} // verus!
