use crossbeam_utils::sync::Parker;
use inqjet::channel::{Channel, SharedChannel};
use inqjet::notifier::{
    settle_wait, wait_step, EventAwaiter, EventNotifier, SpinEventAwaiter, WaitStep,
};
use inqjet::pool::{Pool, SharedPool, STRING_CAPACITY};
use inqjet::rb::{received_after, Received, RingBuffer};
use std::sync::atomic::Ordering;
use std::time::Duration;

const NO_TIME: Duration = Duration::from_secs(0);

#[test]
fn channel_test_basic_publish_receive() {
    println!("\n=== Test 1: Basic Publish/Receive ===");

    let parker = Parker::new();
    let unparker = parker.unparker().clone();
    let mut chan = Channel::new(4, unparker);

    // Publish a message
    println!("Publishing message: 'hello'");
    chan.push("hello".to_string()).unwrap();

    // Receive it
    let received = chan.pop().expect("should have message");
    println!("Received message: '{}'", received);
    assert_eq!(received.as_str(), "hello");
    println!("✓ Test passed\n");
}

#[test]
fn full_channel_hands_the_message_back_and_wakes_the_consumer() {
    let parker = Parker::new();
    let mut chan = Channel::new(4, parker.unparker().clone());
    for log in ["first", "second", "third", "fourth"] {
        assert_eq!(chan.push(log.to_string()), Ok(()));
    }
    assert_eq!(chan.push("fifth".to_string()), Err("fifth".to_string()));
    // The consumer was woken: parking returns at once.
    parker.park();
    assert_eq!(chan.pop().as_deref(), Some("first"));
    assert_eq!(chan.push("fifth".to_string()), Ok(()));
    for log in ["second", "third", "fourth", "fifth"] {
        assert_eq!(chan.pop().as_deref(), Some(log));
    }
    assert_eq!(chan.pop(), None);
}

#[test]
fn rb_test_basic_publish_receive() {
    println!("\n=== Test: Basic Publish/Receive ===");
    let awaiter = SpinEventAwaiter::new();
    let (mut buffer, mut consumer) = RingBuffer::new(awaiter, 4).expect("failed to create buffer");

    // Publish a message
    let msg = "hello".to_string();
    println!("Publishing message: 'hello'");
    buffer.publish(msg).unwrap();

    // Receive it
    let received = match consumer.receive(None, NO_TIME).expect("receive failed") {
        Received::Message(m) => m,
        _ => panic!("should have message"),
    };
    println!("Received message: '{}'", received,);
    assert_eq!(received.as_str(), "hello");
    println!("✓ Test passed\n");
}

#[test]
fn full_buffer_hands_the_message_back() {
    let (mut buffer, mut consumer) = RingBuffer::new(SpinEventAwaiter::new(), 2).unwrap();
    let mut other = buffer.clone();
    buffer.publish("first".to_string()).unwrap();
    other.publish("second".to_string()).unwrap();
    assert_eq!(buffer.publish("third".to_string()), Err("third".to_string()));
    assert!(matches!(
        consumer.receive(None, NO_TIME),
        Ok(Received::Message(m)) if m == "first"
    ));
    assert_eq!(other.publish("third".to_string()), Ok(()));
    assert!(matches!(
        consumer.receive(None, NO_TIME),
        Ok(Received::Message(m)) if m == "second"
    ));
    assert!(matches!(
        consumer.receive(None, NO_TIME),
        Ok(Received::Message(m)) if m == "third"
    ));
}

#[test]
fn publishing_notifies_once_per_message() {
    let (mut buffer, mut consumer) = RingBuffer::new(SpinEventAwaiter::new(), 1).unwrap();
    let notifier = buffer.notifier();
    assert_eq!(notifier.load(Ordering::Relaxed), 0);
    buffer.publish("first".to_string()).unwrap();
    assert_eq!(notifier.load(Ordering::Relaxed), 1);
    // Nothing was published: nobody is woken.
    buffer.publish("second".to_string()).unwrap_err();
    assert_eq!(notifier.load(Ordering::Relaxed), 1);
    // A message that is there is received without a wait.
    assert!(matches!(
        consumer.receive(None, NO_TIME),
        Ok(Received::Message(m)) if m == "first"
    ));
    assert_eq!(notifier.load(Ordering::Relaxed), 1);
}

#[test]
fn new_awaiters_have_counters_of_their_own() {
    let mut a = SpinEventAwaiter::new();
    let b = SpinEventAwaiter::new();
    b.notifier().notify();
    assert_eq!(a.notifier().load(Ordering::Relaxed), 0);
    assert_eq!(b.notifier().load(Ordering::Relaxed), 1);
    assert_eq!(a.wait(None, NO_TIME).unwrap(), WaitStep::Snooze);
}

#[test]
fn empty_buffer_waits() {
    let (buffer, mut consumer) = RingBuffer::new(SpinEventAwaiter::new(), 2).unwrap();
    assert!(matches!(
        consumer.receive(None, NO_TIME),
        Ok(Received::Waiting(WaitStep::Snooze))
    ));
    let limit = Some(Duration::from_millis(100));
    assert!(matches!(
        consumer.receive(limit, Duration::from_millis(99)),
        Ok(Received::Waiting(WaitStep::Spin))
    ));
    assert!(matches!(
        consumer.receive(limit, Duration::from_millis(100)),
        Ok(Received::Nothing)
    ));
    // A notification without a message ends the wait, once.
    buffer.notifier().notify();
    assert!(matches!(
        consumer.receive(None, NO_TIME),
        Ok(Received::Nothing)
    ));
    assert!(matches!(
        consumer.receive(None, NO_TIME),
        Ok(Received::Waiting(WaitStep::Snooze))
    ));
}

#[test]
fn receipts() {
    assert!(matches!(
        received_after(WaitStep::Woken, Some("m".to_string())),
        Received::Message(m) if m == "m"
    ));
    assert!(matches!(
        received_after(WaitStep::TimedOut, None),
        Received::Nothing
    ));
    assert!(matches!(
        received_after(WaitStep::Spin, None),
        Received::Waiting(WaitStep::Spin)
    ));
}

#[test]
fn spin_awaiter_uses_up_one_notification_per_wait() {
    let mut awaiter = SpinEventAwaiter::new();
    let notifier = awaiter.notifier();
    notifier.notify();
    notifier.notify();
    assert_eq!(notifier.load(Ordering::Relaxed), 2);
    assert_eq!(awaiter.wait(None, NO_TIME).unwrap(), WaitStep::Woken);
    assert_eq!(notifier.load(Ordering::Relaxed), 1);
    assert_eq!(awaiter.wait(None, NO_TIME).unwrap(), WaitStep::Woken);
    assert_eq!(notifier.load(Ordering::Relaxed), 0);
    assert_eq!(awaiter.wait(None, NO_TIME).unwrap(), WaitStep::Snooze);
    assert_eq!(notifier.load(Ordering::Relaxed), 0);
}

#[test]
fn notifications_between_waits_are_kept() {
    let mut awaiter = SpinEventAwaiter::new();
    let notifier = awaiter.notifier();
    let limit = Some(NO_TIME);
    let mut woken = 0;
    for i in 0..10 {
        if i % 3 != 0 {
            notifier.notify();
        }
        if awaiter.wait(limit, NO_TIME).unwrap() == WaitStep::Woken {
            woken += 1;
        }
    }
    assert_eq!(woken + notifier.load(Ordering::Relaxed), 6);
}

#[test]
fn settled_waits() {
    let limit = Some(Duration::from_nanos(10));
    assert_eq!(settle_wait(3, None, NO_TIME), (WaitStep::Woken, 2));
    assert_eq!(settle_wait(0, None, NO_TIME), (WaitStep::Snooze, 0));
    assert_eq!(settle_wait(0, limit, NO_TIME), (WaitStep::Spin, 0));
    assert_eq!(
        settle_wait(0, limit, Duration::from_nanos(10)),
        (WaitStep::TimedOut, 0)
    );
}

#[test]
fn shared_channel_keeps_order_and_wakes_when_full() {
    let parker = Parker::new();
    let mut producer = SharedChannel::new(2, parker.unparker().clone());
    let mut other = producer.clone();
    let mut consumer = producer.clone();
    assert_eq!(producer.push("first".to_string()), Ok(()));
    assert_eq!(other.push("second".to_string()), Ok(()));
    assert_eq!(other.push("third".to_string()), Err("third".to_string()));
    // The consumer was woken: parking returns at once.
    parker.park();
    assert_eq!(consumer.pop().as_deref(), Some("first"));
    assert_eq!(other.push("third".to_string()), Ok(()));
    assert_eq!(consumer.pop().as_deref(), Some("second"));
    assert_eq!(consumer.pop().as_deref(), Some("third"));
    assert_eq!(consumer.pop(), None);
}

#[test]
fn shared_pool_reuses_strings_of_other_handles() {
    let mut pool = SharedPool::new();
    let mut other = pool.clone();
    let mut s = pool.get();
    assert!(s.capacity() >= 256);
    s.push_str("used");
    let at = s.as_ptr();
    other.put(s);
    let s = pool.get();
    assert_eq!(s.as_ptr(), at);
    assert_eq!(s, "");
    other.put("x".repeat(10_000));
    let s = pool.get();
    assert_eq!(s, "");
    assert!(s.capacity() >= 256 && s.capacity() < 10_000);
}

#[test]
fn wait_steps() {
    let limit = Some(Duration::from_nanos(10));
    assert_eq!(wait_step(1, None, NO_TIME), WaitStep::Woken);
    assert_eq!(
        wait_step(3, limit, Duration::from_nanos(11)),
        WaitStep::Woken
    );
    assert_eq!(
        wait_step(0, limit, Duration::from_nanos(10)),
        WaitStep::TimedOut
    );
    assert_eq!(wait_step(0, limit, Duration::from_nanos(9)), WaitStep::Spin);
    assert_eq!(wait_step(0, None, Duration::from_secs(9)), WaitStep::Snooze);
}

#[test]
fn pool_strings_start_empty_with_room() {
    let mut pool = Pool::new();
    let s = pool.get();
    assert!(s.capacity() >= 256);
    assert_eq!(s.len(), 0);
    assert_eq!(STRING_CAPACITY, 256);
}

#[test]
fn pool_reuses_strings() {
    let mut pool = Pool::new();
    let mut s = pool.get();
    s.push_str("some log message");
    let at = s.as_ptr();
    pool.put(s);
    let s = pool.get();
    assert_eq!(s.as_ptr(), at);
    assert_eq!(s, "");
}

#[test]
fn pool_shrinks_large_strings_and_grows_small_ones() {
    let mut pool = Pool::new();
    pool.put("x".repeat(10_000));
    let s = pool.get();
    assert_eq!(s, "");
    assert!(s.capacity() >= 256 && s.capacity() < 10_000);
    pool.put(String::from("y"));
    let s = pool.get();
    assert_eq!(s, "");
    assert!(s.capacity() >= 256);
}
