use relay_adapter::config::outbound_capacity;
use relay_adapter::envelope::Envelope;
use relay_adapter::registry::PeerRegistry;
use relay_adapter::router::route;
use relay_adapter::router::route_batch;

fn queue_of<'a>(reg: &'a PeerRegistry, id: &str) -> &'a Vec<String> {
    for p in reg.peers.iter() {
        if p.id == id {
            return &p.queue;
        }
    }
    panic!("peer {} not registered", id);
}

#[test]
fn scenario_connect_route_disconnect() {
    let mut reg = PeerRegistry::new();
    let cap = outbound_capacity(None);
    let a = String::from("peer-a");
    let b = String::from("peer-b");

    let count_a = reg.register(a.clone(), cap);
    assert_eq!(count_a, 1);
    let count_b = reg.register(b.clone(), cap);
    assert_eq!(count_b, 2);

    let ingested = route(&mut reg, &a, "{\"#\":\"1\",\"get\":\"x\"}");
    assert_eq!(ingested.len(), 1);
    assert_eq!(ingested[0], "{\"#\":\"1\",\"get\":\"x\"}");
    assert_eq!(queue_of(&reg, "peer-b").len(), 1);
    assert_eq!(queue_of(&reg, "peer-b")[0], "{\"#\":\"1\",\"get\":\"x\"}");
    assert_eq!(queue_of(&reg, "peer-a").len(), 0);

    let count_after = reg.unregister(&a);
    assert_eq!(count_after, 1);

    let ingested = route(&mut reg, &b, "{\"#\":\"2\"}");
    assert_eq!(ingested.len(), 0);
    assert_eq!(queue_of(&reg, "peer-b").len(), 1);
}

#[test]
fn valid_envelope_reaches_all_other_peers_once() {
    let mut reg = PeerRegistry::new();
    for id in ["p", "q", "r"] {
        reg.register(String::from(id), 10);
    }
    let origin = String::from("p");
    let ingested = route(&mut reg, &origin, "{\"#\":\"7\",\"put\":{\"a\":1}}");
    assert_eq!(ingested.len(), 1);
    assert_eq!(queue_of(&reg, "p").len(), 0);
    assert_eq!(queue_of(&reg, "q").len(), 1);
    assert_eq!(queue_of(&reg, "r").len(), 1);
    assert_eq!(queue_of(&reg, "q")[0], "{\"#\":\"7\",\"put\":{\"a\":1}}");
    assert_eq!(queue_of(&reg, "r")[0], "{\"#\":\"7\",\"put\":{\"a\":1}}");
}

#[test]
fn invalid_payloads_are_dropped() {
    let mut reg = PeerRegistry::new();
    reg.register(String::from("p"), 10);
    reg.register(String::from("q"), 10);
    let origin = String::from("p");

    // missing the correlation id
    assert_eq!(route(&mut reg, &origin, "{\"get\":\"x\"}").len(), 0);
    // missing both read and write fields
    assert_eq!(route(&mut reg, &origin, "{\"#\":\"1\"}").len(), 0);
    // a null field counts as absent
    assert_eq!(route(&mut reg, &origin, "{\"#\":null,\"get\":\"x\"}").len(), 0);
    assert_eq!(route(&mut reg, &origin, "{\"#\":\"1\",\"get\":null,\"put\":null}").len(), 0);
    // a non-object envelope has no fields at all
    assert_eq!(route(&mut reg, &origin, "[1,2]").len(), 0);

    assert_eq!(queue_of(&reg, "q").len(), 0);
}

#[test]
fn malformed_frame_is_dropped() {
    let mut reg = PeerRegistry::new();
    reg.register(String::from("p"), 10);
    reg.register(String::from("q"), 10);
    let origin = String::from("p");
    assert_eq!(route(&mut reg, &origin, "not json at all").len(), 0);
    assert_eq!(route(&mut reg, &origin, "{\"#\":\"1\",\"get\"").len(), 0);
    assert_eq!(queue_of(&reg, "q").len(), 0);
}

#[test]
fn batch_processes_valid_and_drops_invalid_in_order() {
    let mut reg = PeerRegistry::new();
    reg.register(String::from("p"), 10);
    reg.register(String::from("q"), 10);
    let origin = String::from("p");
    let ingested = route(
        &mut reg,
        &origin,
        "[{\"#\":\"1\",\"get\":\"x\"},{\"oops\":true},{\"#\":\"2\",\"put\":{}}]",
    );
    assert_eq!(ingested.len(), 2);
    assert_eq!(ingested[0], "{\"#\":\"1\",\"get\":\"x\"}");
    assert_eq!(ingested[1], "{\"#\":\"2\",\"put\":{}}");
    let q = queue_of(&reg, "q");
    assert_eq!(q.len(), 2);
    assert_eq!(q[0], "{\"#\":\"1\",\"get\":\"x\"}");
    assert_eq!(q[1], "{\"#\":\"2\",\"put\":{}}");
}

#[test]
fn reserialized_text_is_canonical_not_the_raw_frame() {
    let mut reg = PeerRegistry::new();
    reg.register(String::from("p"), 10);
    reg.register(String::from("q"), 10);
    let origin = String::from("p");
    let ingested = route(&mut reg, &origin, "{ \"#\" : \"1\" , \"get\" : 5 }");
    assert_eq!(ingested.len(), 1);
    assert_eq!(ingested[0], "{\"#\":\"1\",\"get\":5}");
    assert_eq!(queue_of(&reg, "q")[0], "{\"#\":\"1\",\"get\":5}");
}

#[test]
fn full_queue_drops_without_touching_other_peers() {
    let mut reg = PeerRegistry::new();
    reg.register(String::from("p"), 10);
    reg.register(String::from("small"), 1);
    reg.register(String::from("large"), 10);
    let origin = String::from("p");
    assert_eq!(route(&mut reg, &origin, "{\"#\":\"1\",\"get\":\"x\"}").len(), 1);
    assert_eq!(route(&mut reg, &origin, "{\"#\":\"2\",\"get\":\"y\"}").len(), 1);
    let small = queue_of(&reg, "small");
    assert_eq!(small.len(), 1);
    assert_eq!(small[0], "{\"#\":\"1\",\"get\":\"x\"}");
    let large = queue_of(&reg, "large");
    assert_eq!(large.len(), 2);
    assert_eq!(large[1], "{\"#\":\"2\",\"get\":\"y\"}");
}

#[test]
fn disconnected_peer_is_absent_and_untargeted() {
    let mut reg = PeerRegistry::new();
    reg.register(String::from("p"), 10);
    reg.register(String::from("q"), 10);
    assert_eq!(reg.count(), 2);
    let q = String::from("q");
    let count = reg.unregister(&q);
    assert_eq!(count, 1);
    // removing an absent peer is a no-op
    assert_eq!(reg.unregister(&q), 1);
    let origin = String::from("p");
    route(&mut reg, &origin, "{\"#\":\"1\",\"get\":\"x\"}");
    for p in reg.peers.iter() {
        assert_ne!(p.id, "q");
    }
}

#[test]
fn registering_twice_replaces_the_entry() {
    let mut reg = PeerRegistry::new();
    assert_eq!(reg.register(String::from("p"), 10), 1);
    assert_eq!(reg.register(String::from("q"), 10), 2);
    let origin = String::from("p");
    route(&mut reg, &origin, "{\"#\":\"1\",\"get\":\"x\"}");
    assert_eq!(queue_of(&reg, "q").len(), 1);
    // re-registering q starts it over with a fresh empty queue
    assert_eq!(reg.register(String::from("q"), 10), 2);
    assert_eq!(queue_of(&reg, "q").len(), 0);
}

#[test]
fn forwarder_takes_outbound_in_enqueue_order() {
    let mut reg = PeerRegistry::new();
    reg.register(String::from("p"), 10);
    reg.register(String::from("q"), 10);
    let origin = String::from("p");
    route(&mut reg, &origin, "{\"#\":\"1\",\"get\":\"a\"}");
    route(&mut reg, &origin, "{\"#\":\"2\",\"get\":\"b\"}");
    let q = String::from("q");
    assert_eq!(reg.take_outbound(&q).as_deref(), Some("{\"#\":\"1\",\"get\":\"a\"}"));
    assert_eq!(reg.take_outbound(&q).as_deref(), Some("{\"#\":\"2\",\"get\":\"b\"}"));
    assert_eq!(reg.take_outbound(&q), None);
    // an absent peer has nothing to take
    let missing = String::from("missing");
    assert_eq!(reg.take_outbound(&missing), None);
}

#[test]
fn capacity_setting_parses_positive_integers_only() {
    assert_eq!(outbound_capacity(None), 10);
    assert_eq!(outbound_capacity(Some("5")), 5);
    assert_eq!(outbound_capacity(Some("+5")), 5);
    assert_eq!(outbound_capacity(Some("+0")), 10);
    assert_eq!(outbound_capacity(Some("+")), 10);
    assert_eq!(outbound_capacity(Some("++5")), 10);
    assert_eq!(outbound_capacity(Some("007")), 7);
    assert_eq!(outbound_capacity(Some("65535")), 65535);
    assert_eq!(outbound_capacity(Some("0")), 10);
    assert_eq!(outbound_capacity(Some("")), 10);
    assert_eq!(outbound_capacity(Some("abc")), 10);
    assert_eq!(outbound_capacity(Some("12a")), 10);
    assert_eq!(outbound_capacity(Some("-3")), 10);
    assert_eq!(outbound_capacity(Some("65536")), 10);
    assert_eq!(outbound_capacity(Some("99999999999999999999")), 10);
}

#[test]
fn envelope_validity_flags() {
    let both = Envelope {
        has_correlation: true,
        has_read: true,
        has_write: true,
        text: String::from("{}"),
    };
    assert!(both.is_valid());
    let read_only = Envelope { has_write: false, ..both.clone() };
    assert!(read_only.is_valid());
    let write_only = Envelope { has_read: false, ..both.clone() };
    assert!(write_only.is_valid());
    let no_payload = Envelope { has_read: false, has_write: false, ..both.clone() };
    assert!(!no_payload.is_valid());
    let no_correlation = Envelope { has_correlation: false, ..both.clone() };
    assert!(!no_correlation.is_valid());
}

#[test]
fn route_batch_dispatches_decoded_envelopes() {
    let mut reg = PeerRegistry::new();
    reg.register(String::from("p"), 10);
    reg.register(String::from("q"), 10);
    let origin = String::from("p");
    let batch = vec![
        Envelope {
            has_correlation: true,
            has_read: true,
            has_write: false,
            text: String::from("first"),
        },
        Envelope {
            has_correlation: false,
            has_read: true,
            has_write: false,
            text: String::from("second"),
        },
    ];
    let ingested = route_batch(&mut reg, &origin, &batch);
    assert_eq!(ingested, vec![String::from("first")]);
    assert_eq!(queue_of(&reg, "q").as_slice(), &[String::from("first")]);
    assert_eq!(queue_of(&reg, "p").len(), 0);
}
