use std::collections::HashMap;

use std::sync::{Arc, Mutex};

use naive::events::{EventBus, EventFieldSchema, EventSchema, GameEvent};
use naive::script_events::ScriptListeners;

type Data = HashMap<String, serde_json::Value>;
type Listener<P> = Box<dyn Fn(&GameEvent<P>)>;

#[test]
fn test_event_bus_emit_and_flush() {
    let mut bus: EventBus<Data, Listener<Data>> = EventBus::new(100);
    let received = Arc::new(Mutex::new(Vec::new()));

    let recv_clone = received.clone();
    bus.listen(
        "test.event",
        Box::new(move |event: &GameEvent<Data>| {
            recv_clone.lock().unwrap().push(event.clone());
        }),
    );

    let mut data = HashMap::new();
    data.insert("value".to_string(), serde_json::Value::from(42));
    bus.emit("test.event", data);
    bus.flush();

    let events = received.lock().unwrap();
    assert_eq!(events.len(), 1);
    assert_eq!(events[0].event_type, "test.event");
    assert_eq!(events[0].payload["value"], 42);
}

#[test]
fn test_ring_buffer_capacity() {
    let mut bus: EventBus<Data, Listener<Data>> = EventBus::new(3);
    for i in 0..5 {
        let mut data = HashMap::new();
        data.insert("i".to_string(), serde_json::Value::from(i));
        bus.emit("tick", data);
    }
    bus.flush();

    assert_eq!(bus.get_log().len(), 3);
    // Should have events 2, 3, 4 (oldest dropped)
    assert_eq!(bus.get_log()[0].payload["i"], 2);
}

#[test]
fn test_remove_listener() {
    let mut bus: EventBus<Data, Listener<Data>> = EventBus::new(100);
    let received = Arc::new(Mutex::new(0));

    let recv_clone = received.clone();
    let id = bus.listen(
        "test",
        Box::new(move |_: &GameEvent<Data>| {
            *recv_clone.lock().unwrap() += 1;
        }),
    );

    bus.emit_simple("test");
    bus.flush();
    assert_eq!(*received.lock().unwrap(), 1);

    bus.remove_listener(id);
    bus.emit_simple("test");
    bus.flush();
    assert_eq!(*received.lock().unwrap(), 1); // Still 1, listener was removed
}

#[test]
fn listeners_called_per_event_in_registration_order() {
    let mut bus: EventBus<u32, Listener<u32>> = EventBus::new(10);
    let calls = Arc::new(Mutex::new(Vec::new()));
    for name in ["first", "other", "second"] {
        let c = calls.clone();
        let t = if name == "other" { "y" } else { "x" };
        bus.listen(
            t,
            Box::new(move |e: &GameEvent<u32>| {
                c.lock().unwrap().push((name, e.payload));
            }),
        );
    }
    bus.emit("x", 1);
    bus.emit("y", 2);
    bus.emit("x", 3);
    bus.flush();
    assert_eq!(
        *calls.lock().unwrap(),
        vec![("first", 1), ("second", 1), ("other", 2), ("first", 3), ("second", 3)]
    );
    let events = vec![
        GameEvent { event_type: "x".to_string(), payload: 1u32 },
        GameEvent { event_type: "y".to_string(), payload: 2u32 },
    ];
    assert_eq!(bus.dispatch_plan(&events), vec![(0, 0), (0, 2), (1, 1)]);
}

#[test]
fn events_wait_for_flush_and_keep_order() {
    let mut bus: EventBus<u32, Listener<u32>> = EventBus::new(10);
    bus.emit("a", 1);
    bus.emit("b", 2);
    assert_eq!(bus.get_log().len(), 0);
    let out = bus.flush();
    assert_eq!(out.iter().map(|e| e.payload).collect::<Vec<_>>(), vec![1, 2]);
    assert_eq!(bus.flush().len(), 0);
    assert_eq!(bus.get_log().len(), 2);
}

#[test]
fn zero_capacity_log_keeps_latest_event() {
    let mut bus: EventBus<u32, Listener<u32>> = EventBus::new(0);
    bus.emit("a", 1);
    bus.emit("a", 2);
    bus.flush();
    assert_eq!(bus.get_log().len(), 1);
    assert_eq!(bus.get_log()[0].payload, 2);
}

#[test]
fn listener_ids_are_distinct_and_per_type() {
    let mut bus: EventBus<u32, Listener<u32>> = EventBus::new(10);
    let a = bus.listen("x", Box::new(|_: &GameEvent<u32>| {}));
    let b = bus.listen("y", Box::new(|_: &GameEvent<u32>| {}));
    let c = bus.listen("x", Box::new(|_: &GameEvent<u32>| {}));
    assert!(a != b && b != c && a != c);
    assert_eq!(bus.listeners_for("x"), vec![a, c]);
    assert_eq!(bus.listeners_for("y"), vec![b]);
    bus.remove_listener(a);
    assert_eq!(bus.listeners_for("x"), vec![c]);
}

#[test]
fn schema_reports_missing_fields() {
    let schema = EventSchema {
        events: vec![(
            "player.hit".to_string(),
            EventFieldSchema {
                fields: vec!["damage".to_string(), "source".to_string()],
                description: "the player was hit".to_string(),
            },
        )],
    };
    assert_eq!(schema.missing_fields("player.hit", &vec!["damage".to_string()]), vec!["source".to_string()]);
    assert!(schema.missing_fields("player.hit", &vec!["source".to_string(), "damage".to_string()]).is_empty());
    assert!(schema.missing_fields("other", &vec![]).is_empty());
}

#[test]
fn script_listeners_on_and_off() {
    let mut l: ScriptListeners<&str> = ScriptListeners::new();
    let a = l.on("hit", "first");
    let b = l.on("hit", "second");
    let c = l.on("hit", "third");
    let d = l.on("death", "other");
    assert_eq!((a, b, c, d), (0, 1, 2, 3));
    assert_eq!(l.callbacks_for("hit").unwrap(), &vec!["first", "second", "third"]);
    l.off(b);
    assert_eq!(l.callbacks_for("hit").unwrap(), &vec!["first", "third"]);
    // the later listener is still the one removed by its id
    l.off(c);
    assert_eq!(l.callbacks_for("hit").unwrap(), &vec!["first"]);
    l.off(c);
    assert_eq!(l.callbacks_for("hit").unwrap(), &vec!["first"]);
    assert_eq!(l.callbacks_for("death").unwrap(), &vec!["other"]);
    assert!(l.callbacks_for("spawn").is_none());
    let e = l.on("hit", "fourth");
    assert_eq!(e, 4);
    l.off(a);
    assert_eq!(l.callbacks_for("hit").unwrap(), &vec!["fourth"]);
}
