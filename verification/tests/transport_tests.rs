use node_agent::transport::{InventoryTransport, TransportError};

fn connected_transport(port: u16, clientid: &str) -> InventoryTransport {
    let mut t = InventoryTransport::new("localhost".to_string(), port, clientid.to_string());
    let outcomes = vec![true, true, true, true, true];
    t.connect(&outcomes).unwrap();
    t
}

#[test]
fn connect_to_server_succeeds() {
    // a reachable broker acknowledges the first handshake attempt
    let mut my_server = InventoryTransport::new("localhost".to_string(), 9001, "dummy1".to_string());
    let outcomes = vec![true, true, true, true, true];
    let result = my_server.connect(&outcomes);
    let _ = my_server.disconnect(true);
    assert!(result.is_ok());
}

#[test]
fn connect_to_server_fails() {
    // an unreachable broker fails every allowed handshake attempt
    let mut my_server = InventoryTransport::new("localhost".to_string(), 9901, "fail1".to_string());
    let outcomes = vec![false, false, false, false, false];
    let result = my_server.connect(&outcomes);
    let _ = my_server.disconnect(true);
    assert!(result.is_err());
}

#[test]
fn send_message_succeeds() {
    let mut my_server = connected_transport(9001, "dummy2");
    let result = my_server.send_message(
        &"dummy".to_string(),
        &"message{test:this is a test}".to_string(),
        true,
    );
    let _ = my_server.disconnect(true);
    assert!(result.is_ok());
}

#[test]
fn disconnect_succeeds() {
    let mut my_server = connected_transport(9001, "dummy3");
    let result = my_server.disconnect(true);
    assert!(result.is_ok());
}

#[test]
fn queue_message_succeeds() {
    let mut my_server = InventoryTransport::new("localhost".to_string(), 9001, "dummy1".to_string());
    let message = "A simple message".to_string();
    let topic = "testtopic".to_string();
    let qos = 0;
    let result = my_server.queue_message(message, topic, qos).unwrap();
    assert_eq!(result, 1);
}

#[test]
fn queue_many_messages_succeeds() {
    let mut my_server = InventoryTransport::new("localhost".to_string(), 9001, "dummy1".to_string());
    for _n in 1..101 {
        let message = "A simple message".to_string();
        let topic = "testtopic".to_string();
        let qos = 0;
        let _result = my_server.queue_message(message, topic, qos).unwrap();
    }
    assert_eq!(my_server.queue_length, 100);
}

#[test]
fn queue_too_many_messages_succeeds() {
    let mut my_server = InventoryTransport::new("localhost".to_string(), 9001, "dummy1".to_string());
    for _n in 1..101 {
        let topic = "testtopic".to_string();
        let qos = 0;
        let message = "A simple message".to_string();
        let _result = my_server.queue_message(message, topic, qos).unwrap();
    }
    let message = "A simple message".to_string();
    let topic = "testtopic".to_string();
    let qos = 0;
    let result = my_server.queue_message(message, topic, qos);
    assert!(result.is_err());
}

#[test]
fn queue_json_message_succeeds() {
    let mut my_server = InventoryTransport::new("localhost".to_string(), 9001, "dummy1".to_string());
    let topic = "testtopic".to_string();
    let qos = 0;
    let mut fields = serde_json::Map::new();
    fields.insert(
        "correlation_id".to_string(),
        serde_json::Value::String("sdfdfg343453456774564g!!$$$$FF@@".to_string()),
    );
    fields.insert(
        "agent_id".to_string(),
        serde_json::Value::String("123456567788990".to_string()),
    );
    let system_json = serde_json::Value::Object(fields);
    let system_json_string = serde_json::to_string(&system_json).unwrap();
    let message = system_json_string;
    let result = my_server.queue_message(message, topic, qos).unwrap();
    assert_eq!(result, 1);
}

#[test]
fn flush_queue() {
    let mut my_server = InventoryTransport::new("localhost".to_string(), 9001, "dummy1".to_string());
    for _n in 1..101 {
        let topic = "testtopic".to_string();
        let qos = 0;
        let message = "A simple message".to_string();
        let _result = my_server.queue_message(message, topic, qos).unwrap();
    }
    my_server.flush_queue();
    assert_eq!(my_server.queue_length, 0);
}

#[test]
fn process_queue_succeeds() {
    let mut my_server = connected_transport(9001, "dummy1");
    let topic = "testtopic".to_string();
    let qos = 0;
    let message = "A simple message".to_string();
    my_server.queue_message(message, topic, qos).unwrap();
    let result = my_server.process_message_queue(&vec![true]).unwrap();
    assert_eq!(result, 1);
}

#[test]
fn new_transport_builds_url_and_defaults() {
    let t = InventoryTransport::new("broker.example".to_string(), 80, "x".to_string());
    assert_eq!(t.url, "tcp://broker.example:80");
    let t = InventoryTransport::new("localhost".to_string(), 9001, "agent7".to_string());
    assert_eq!(t.url, "tcp://localhost:9001");
    assert_eq!(t.client_id, "agent7");
    assert!(!t.connected);
    assert_eq!(t.retry_delay_secs, 1);
    assert_eq!(t.max_retries, 5);
    assert_eq!(t.queue_length, 0);
    assert_eq!(t.max_queue_length, 100);
}

#[test]
fn connect_consumes_attempts_until_first_success() {
    let mut t = InventoryTransport::new("localhost".to_string(), 9001, "c1".to_string());
    let outcomes = vec![false, false, true, false, false];
    assert_eq!(t.connect(&outcomes), Ok(3));
    assert!(t.connected);
}

#[test]
fn connect_exhausts_all_attempts_then_fails() {
    let mut t = InventoryTransport::new("localhost".to_string(), 9901, "c2".to_string());
    let outcomes = vec![false, false, false, false, false];
    assert_eq!(t.connect(&outcomes), Err(TransportError::ConnectionFailed));
    assert!(!t.connected);
}

#[test]
fn connect_when_already_connected_short_circuits() {
    let mut t = connected_transport(9001, "c3");
    // no attempt outcome is consumed: a success is reported with zero attempts
    let outcomes = vec![false, false, false, false, false];
    assert_eq!(t.connect(&outcomes), Ok(0));
    assert!(t.connected);
}

#[test]
fn send_message_without_session_fails() {
    let mut t = InventoryTransport::new("localhost".to_string(), 9001, "s1".to_string());
    let r = t.send_message(&"topic".to_string(), &"payload".to_string(), true);
    assert_eq!(r, Err(TransportError::NotConnected));
}

#[test]
fn send_message_rejected_by_session_fails() {
    let mut t = connected_transport(9001, "s2");
    let r = t.send_message(&"topic".to_string(), &"payload".to_string(), false);
    assert_eq!(r, Err(TransportError::PublishFailed));
}

#[test]
fn disconnect_reports_session_failure() {
    let mut t = connected_transport(9001, "d1");
    assert_eq!(t.disconnect(false), Err(TransportError::DisconnectFailed));
    // the session never acknowledged: the transport still counts as connected
    assert!(t.connected);
}

#[test]
fn disconnect_is_idempotent() {
    let mut t = InventoryTransport::new("localhost".to_string(), 9001, "d2".to_string());
    assert_eq!(t.disconnect(true), Ok(()));
    assert_eq!(t.disconnect(false), Ok(()));
}

#[test]
fn enqueue_at_capacity_keeps_length_and_errors() {
    let mut t = InventoryTransport::new("localhost".to_string(), 9001, "q1".to_string());
    for _ in 0..100 {
        t.queue_message("m".to_string(), "t".to_string(), 0).unwrap();
    }
    let r = t.queue_message("one more".to_string(), "t".to_string(), 0);
    assert_eq!(r, Err(TransportError::QueueFull));
    assert_eq!(t.queue_length, 100);
}

#[test]
fn drain_stops_at_first_failed_publish() {
    let mut t = connected_transport(9001, "d3");
    t.queue_message("first".to_string(), "t".to_string(), 0).unwrap();
    t.queue_message("second".to_string(), "t".to_string(), 0).unwrap();
    t.queue_message("third".to_string(), "t".to_string(), 0).unwrap();
    let r = t.process_message_queue(&vec![true, false, true]);
    assert_eq!(r, Err(TransportError::PublishFailed));
    // message 1 left the queue; messages 2 and 3 are still queued, in order
    assert_eq!(t.queue_length, 2);
    let front = t.front_message().unwrap();
    assert_eq!(front.1, "second");
    assert_eq!(t.drain_step(true), Ok(true));
    let front = t.front_message().unwrap();
    assert_eq!(front.1, "third");
}

#[test]
fn drain_without_session_leaves_queue_untouched() {
    let mut t = InventoryTransport::new("localhost".to_string(), 9001, "d4".to_string());
    t.queue_message("first".to_string(), "t".to_string(), 0).unwrap();
    let r = t.process_message_queue(&vec![true]);
    assert_eq!(r, Err(TransportError::NotConnected));
    assert_eq!(t.queue_length, 1);
}

#[test]
fn drain_of_empty_queue_succeeds() {
    let mut t = InventoryTransport::new("localhost".to_string(), 9001, "d5".to_string());
    assert_eq!(t.process_message_queue(&vec![]), Ok(0));
}

#[test]
fn drain_publishes_all_messages_in_order() {
    let mut t = connected_transport(9001, "d6");
    t.queue_message("a".to_string(), "t".to_string(), 0).unwrap();
    t.queue_message("b".to_string(), "t".to_string(), 0).unwrap();
    assert_eq!(t.process_message_queue(&vec![true, true]), Ok(2));
    assert_eq!(t.queue_length, 0);
    assert!(t.front_message().is_none());
}
