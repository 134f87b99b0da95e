use std::collections::BTreeMap;
use std::sync::mpsc;
use std::time::Duration;

use pumpkindb::dispatcher::StandardDispatcher;
use pumpkindb::encoding::{Encodable, Instruction};
use pumpkindb::env::Env;
use pumpkindb::messaging::{Message, PublishedMessageCallback, Simple, SimpleControlMessage};
use pumpkindb::scheduler::{ResponseMessage, Scheduler};
use pumpkindb::script::Error;

type Callback = mpsc::Sender<(Vec<u8>, Vec<u8>)>;

/// Runs a program whose environment delivers subscribed messages to
/// `callback`, passing what it asks of the broker to a broker of its own.
fn eval_with(program: Vec<u8>, callback: Callback) -> (Result<(), Error>, Env) {
    let mut callbacks: BTreeMap<u64, Callback> = BTreeMap::new();
    callbacks.insert(7, callback);
    let mut broker = Simple::new();
    let mut scheduler = Scheduler::new(StandardDispatcher::new());
    scheduler.schedule_env(1, program, Some(7));
    for _ in 0..100_000 {
        let response = scheduler.step();
        for msg in scheduler.take_outbox() {
            if let Some(deliveries) = broker.handle(msg) {
                for d in deliveries {
                    callbacks[&d.callback].call(&d.topic, &d.body);
                }
            }
        }
        match response {
            Some(ResponseMessage::EnvTerminated(_, stack, _)) => {
                return (Ok(()), Env::new_with_stack(stack).unwrap());
            }
            Some(ResponseMessage::EnvFailed(_, err, stack, _)) => {
                return (Err(err), Env::new_with_stack(stack.unwrap()).unwrap());
            }
            None => (),
        }
    }
    panic!("program did not end");
}

#[test]
pub fn sender_published_message_callback_call() {
    let (sender, receiver) = mpsc::channel();
    sender.call("Hello".as_bytes(), "world".as_bytes());
    assert_eq!((Vec::from("Hello"), Vec::from("world")), receiver.recv().unwrap());
}

#[test]
pub fn sender_published_message_callback_cloned() {
    let (sender, receiver) = mpsc::channel();
    let sender1 = sender.cloned();
    sender1.call("Hello".as_bytes(), "world".as_bytes());
    assert_eq!((Vec::from("Hello"), Vec::from("world")), receiver.recv().unwrap());
}

#[test]
fn subscribe_publish() {
    let (sender0, receiver0) = mpsc::channel();
    // "Topic" SUBSCRIBE "Hello" "Topic" PUBLISH
    let program = ("Topic", Instruction("SUBSCRIBE"), ("Hello", "Topic"), Instruction("PUBLISH")).encode();
    let (result, _) = eval_with(program, sender0.clone());
    assert!(!result.is_err());
    let result = receiver0.recv_timeout(Duration::from_secs(1)).unwrap();
    assert_eq!(result, (Vec::from("Topic"), Vec::from("Hello")));

    // "Hello" "Topic1" PUBLISH
    let program = ("Hello", "Topic1", Instruction("PUBLISH")).encode();
    let (result, _) = eval_with(program, sender0.clone());
    assert!(!result.is_err());
    assert!(receiver0.recv_timeout(Duration::from_secs(1)).is_err());
}

#[test]
fn mod_msg_unsubscribe() {
    let (sender0, receiver0) = mpsc::channel();
    // "Topic" SUBSCRIBE UNSUBSCRIBE "Hello" "Topic" PUBLISH
    let program = (
        ("Topic", Instruction("SUBSCRIBE"), Instruction("UNSUBSCRIBE")),
        ("Hello", "Topic"),
        Instruction("PUBLISH"),
    )
        .encode();
    let (result, _) = eval_with(program, sender0.clone());
    assert!(!result.is_err());
    assert!(receiver0.recv_timeout(Duration::from_secs(1)).is_err());
}

#[test]
fn subscription_identifier_is_a_version_4_uuid() {
    let (sender0, _receiver0) = mpsc::channel();
    let program = ("Topic", Instruction("SUBSCRIBE")).encode();
    let (result, mut env) = eval_with(program, sender0);
    assert!(result.is_ok());
    let id = env.pop().unwrap();
    assert_eq!(id.len(), 16);
    assert_eq!(id[6] >> 4, 4);
    assert_eq!(id[8] >> 6, 2);
}

#[test]
fn broker_delivers_in_subscription_order_and_forgets_unsubscribed() {
    let mut broker = Simple::new();
    let sub = |topic: &str, callback: u64, id: u8| SimpleControlMessage::Subscribe {
        topic: topic.as_bytes().to_vec(),
        callback,
        identifier: vec![id],
    };
    assert_eq!(broker.handle(sub("t", 1, 10)).unwrap().len(), 0);
    assert_eq!(broker.handle(sub("t", 2, 20)).unwrap().len(), 0);
    assert_eq!(broker.handle(sub("u", 3, 30)).unwrap().len(), 0);
    let publish = || SimpleControlMessage::Publish(Message { topic: b"t".to_vec(), body: b"m".to_vec() });
    let ds = broker.handle(publish()).unwrap();
    assert_eq!(ds.iter().map(|d| d.callback).collect::<Vec<u64>>(), vec![1, 2]);
    assert_eq!(ds[0].topic, b"t".to_vec());
    assert_eq!(ds[0].body, b"m".to_vec());
    broker.handle(SimpleControlMessage::Unsubscribe { identifier: vec![10] }).unwrap();
    let ds = broker.handle(publish()).unwrap();
    assert_eq!(ds.iter().map(|d| d.callback).collect::<Vec<u64>>(), vec![2]);
    assert!(broker.handle(SimpleControlMessage::Shutdown).is_none());
}
