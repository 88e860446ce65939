use std::sync::{Arc, Mutex};

use rs_p2_gateway::app::BrokerSender as ChannelSender;
use rs_p2_gateway::broker::BrokerSender;
use rs_p2_gateway::error::AppError;

// In-memory mock that records sent messages
struct MockBroker {
    received: Mutex<Vec<String>>,
}

impl MockBroker {
    fn new() -> Self {
        Self { received: Mutex::new(Vec::new()) }
    }
}

impl BrokerSender for MockBroker {
    fn send(&self, msg: &str) -> Result<(), AppError> {
        self.received.lock().unwrap().push(msg.to_string());
        Ok(())
    }
}

#[test]
fn test_mock_broker_records_messages() {
    let mock = Arc::new(MockBroker::new());
    mock.send(r#"{"type":"dm_received","content":"hello"}"#).unwrap();
    mock.send(r#"{"type":"dm_sent","ok":true}"#).unwrap();

    let received = mock.received.lock().unwrap();
    assert_eq!(received.len(), 2);
    assert!(received[0].contains("dm_received"));
    assert!(received[1].contains("dm_sent"));
}

#[test]
fn test_mock_broker_concurrent_sends() {
    let runtime = tokio::runtime::Builder::new_multi_thread().build().unwrap();
    let mock = Arc::new(MockBroker::new());
    let mut handles = vec![];
    for i in 0..10 {
        let m = mock.clone();
        handles.push(runtime.spawn_blocking(move || m.send(&format!(r#"{{"msg":{}}}"#, i))));
    }
    for h in handles {
        runtime.block_on(h).unwrap().unwrap();
    }
    assert_eq!(mock.received.lock().unwrap().len(), 10);
}

#[test]
fn a_message_reaches_every_connected_broker() {
    let sender = ChannelSender::new();
    let mut first = sender.subscribe();
    let mut second = sender.subscribe();
    sender.send("hello").unwrap();
    assert_eq!(first.try_recv().unwrap(), "hello");
    assert_eq!(second.try_recv().unwrap(), "hello");
    assert!(first.try_recv().is_err());
}

#[test]
fn a_message_without_a_broker_is_dropped_silently() {
    let sender = ChannelSender::default();
    assert!(sender.send("lost").is_ok());
    let mut late = sender.subscribe();
    assert!(late.try_recv().is_err());
    sender.send("found").unwrap();
    assert_eq!(late.try_recv().unwrap(), "found");
}

#[test]
fn the_channel_is_a_broker_sender() {
    let sender = ChannelSender::new();
    let mut broker = sender.subscribe();
    let shared: Arc<dyn BrokerSender> = Arc::new(sender);
    shared.send("through the trait").unwrap();
    assert_eq!(broker.try_recv().unwrap(), "through the trait");
}

#[test]
fn a_slow_broker_keeps_the_latest_hundred_messages() {
    let sender = ChannelSender::new();
    let mut broker = sender.subscribe();
    for i in 0..100 {
        sender.send(&format!("{}", i)).unwrap();
    }
    for i in 0..100 {
        assert_eq!(broker.try_recv().unwrap(), format!("{}", i));
    }
}
