use ecs_engine::components::DeathEvent;
use ecs_engine::events::{EventBusBase, EventDispatcher, EventObserver, Subscribers};

struct ScoreKeeper {
    score: u32,
}

impl EventObserver<DeathEvent> for ScoreKeeper {
    fn on_event_mut(&mut self, _data: &DeathEvent) {
        self.score += 5;
    }
}

struct Log {
    seen: Vec<usize>,
}

impl EventObserver<DeathEvent> for Log {
    fn on_event_mut(&mut self, data: &DeathEvent) {
        self.seen.push(data.entity);
    }
}

#[test]
fn expired_subscriber_is_skipped() {
    let mut table = Subscribers::new();
    let keeper = table.insert(ScoreKeeper { score: 0 });
    let gone = table.insert(ScoreKeeper { score: 0 });
    let mut bus: EventBusBase<DeathEvent> = EventBusBase::new();
    bus.register(keeper);
    bus.register(gone);
    table.release(gone);
    assert!(!table.is_alive(gone));
    let delivered = bus.notify(&mut table, &DeathEvent { entity: 3 });
    assert_eq!(delivered, vec![keeper]);
    assert_eq!(table.get(keeper).unwrap().score, 5);
    assert!(table.get(gone).is_none());
}

#[test]
fn delivery_follows_registration_order() {
    let mut table = Subscribers::new();
    let first = table.insert(Log { seen: Vec::new() });
    let second = table.insert(Log { seen: Vec::new() });
    let mut bus: EventBusBase<DeathEvent> = EventBusBase::new();
    bus.register(second);
    bus.register(first);
    let delivered = bus.notify(&mut table, &DeathEvent { entity: 8 });
    assert_eq!(delivered, vec![second, first]);
    assert_eq!(table.get(first).unwrap().seen, vec![8]);
    assert_eq!(table.get(second).unwrap().seen, vec![8]);
}

#[test]
fn unregister_removes_by_identity() {
    let mut table = Subscribers::new();
    let a = table.insert(ScoreKeeper { score: 0 });
    let b = table.insert(ScoreKeeper { score: 0 });
    let mut bus: EventBusBase<DeathEvent> = EventBusBase::new();
    bus.register(a);
    bus.register(b);
    bus.unregister(a);
    let delivered = bus.notify(&mut table, &DeathEvent { entity: 1 });
    assert_eq!(delivered, vec![b]);
    assert_eq!(table.get(a).unwrap().score, 0);
    assert_eq!(table.get(b).unwrap().score, 5);
}

#[test]
fn dispatcher_keeps_one_list_per_event_type() {
    let mut table = Subscribers::new();
    let keeper = table.insert(ScoreKeeper { score: 0 });
    let mut dispatcher = EventDispatcher::new();
    dispatcher.register(2, keeper);
    assert_eq!(dispatcher.notify(2, &mut table, &DeathEvent { entity: 1 }), vec![keeper]);
    assert_eq!(dispatcher.notify(2, &mut table, &DeathEvent { entity: 2 }), vec![keeper]);
    assert!(dispatcher.notify(9, &mut table, &DeathEvent { entity: 3 }).is_empty());
    assert_eq!(table.get(keeper).unwrap().score, 10);
    table.release(keeper);
    assert!(dispatcher.notify(2, &mut table, &DeathEvent { entity: 4 }).is_empty());
}
