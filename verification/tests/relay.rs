//! Behavioural tests of the broadcast channel and the session policy,
//! driven through the public interface exactly as the relay's connection
//! tasks drive it.

use srt_relay::args::parse_args;
use srt_relay::channel::Channel;
use srt_relay::channel::Next;
use srt_relay::session::publisher_step;
use srt_relay::session::subscriber_step;
use srt_relay::session::PublisherEvent;
use srt_relay::session::PublisherOutcome;
use srt_relay::session::SubscriberAction;

fn frame(tag: u8, len: usize) -> Vec<u8> {
    let mut f = Vec::new();
    for _ in 0..len {
        f.push(tag);
    }
    f
}

fn expect_frame(c: &mut Channel, id: usize, want: &[u8]) {
    match c.next(id) {
        Next::Frame(f) => assert_eq!(f.as_slice(), want),
        Next::Lagged(n) => panic!("unexpected lag of {}", n),
        Next::Closed => panic!("unexpected closure"),
        Next::Pending => panic!("unexpectedly pending"),
    }
}

fn expect_pending(c: &mut Channel, id: usize) {
    assert!(matches!(c.next(id), Next::Pending));
}

#[test]
fn ordering_without_overflow() {
    // A subscription that joined before the first publish sees every frame
    // in exactly the published order while the buffer never overflows.
    let mut c = Channel::new(8);
    let id = c.subscribe();
    c.publish(vec![1]);
    c.publish(vec![2, 2]);
    c.publish(vec![3, 3, 3]);
    expect_frame(&mut c, id, &[1]);
    expect_frame(&mut c, id, &[2, 2]);
    expect_frame(&mut c, id, &[3, 3, 3]);
    expect_pending(&mut c, id);
}

#[test]
fn no_history_replay() {
    // A subscription created after five frames were published never sees
    // them: it starts at the tail and receives only what comes later.
    let mut c = Channel::new(64);
    for i in 1..=5u8 {
        c.publish(vec![i]);
    }
    let id = c.subscribe();
    expect_pending(&mut c, id);
    c.publish(vec![6]);
    expect_frame(&mut c, id, &[6]);
    expect_pending(&mut c, id);
}

#[test]
fn lag_reported_exactly_once() {
    // Capacity 2, 5 frames published unread: 3 are evicted. The reader gets
    // exactly one Lagged(3), then resumes at the oldest retained frame with
    // no duplicate and no further gap.
    let mut c = Channel::new(2);
    let id = c.subscribe();
    for i in 0..5u8 {
        c.publish(vec![i]);
    }
    match c.next(id) {
        Next::Lagged(n) => assert_eq!(n, 3),
        _ => panic!("expected a lag report"),
    }
    expect_frame(&mut c, id, &[3]);
    expect_frame(&mut c, id, &[4]);
    expect_pending(&mut c, id);
}

#[test]
fn slow_consumer_isolated() {
    // A subscriber that stops reading never blocks the publisher and never
    // delays the other subscriber: every publish succeeds immediately and
    // the fast reader sees each frame as soon as it is published.
    let mut c = Channel::new(2);
    let slow = c.subscribe();
    let fast = c.subscribe();
    for i in 0..100u8 {
        c.publish(vec![i]);
        expect_frame(&mut c, fast, &[i]);
    }
    // The slow reader pays the cost itself: one lag report, then the
    // retained tail.
    match c.next(slow) {
        Next::Lagged(n) => assert_eq!(n, 98),
        _ => panic!("expected a lag report"),
    }
    expect_frame(&mut c, slow, &[98]);
    expect_frame(&mut c, slow, &[99]);
    expect_pending(&mut c, slow);
}

#[test]
fn publish_counts_unlagged_subscribers() {
    let mut c = Channel::new(1);
    let a = c.subscribe();
    let b = c.subscribe();
    // Both cursors stand at the tail: both receive the frame without lag.
    assert_eq!(c.publish(vec![1]), 2);
    // Neither has read: the next publish evicts the frame both still point
    // at, so both lag.
    assert_eq!(c.publish(vec![2]), 0);
    // `a` catches up (one lag report, then the retained frame).
    assert!(matches!(c.next(a), Next::Lagged(1)));
    expect_frame(&mut c, a, &[2]);
    // Now only `a` is at the tail; `b` still points at the evicted frame.
    assert_eq!(c.publish(vec![3]), 1);
    // An unsubscribed cursor no longer counts.
    expect_frame(&mut c, a, &[3]);
    c.unsubscribe(b);
    assert_eq!(c.publish(vec![4]), 1);
    c.unsubscribe(a);
    assert_eq!(c.publish(vec![5]), 0);
}

#[test]
fn multi_publisher_interleave() {
    // Two publisher sessions feed the one channel; the subscriber sees a
    // single stream in arrival order, each publisher's relative order kept.
    let mut c = Channel::new(16);
    let id = c.subscribe();
    let a1 = vec![b'a', 1];
    let b1 = vec![b'b', 1];
    let a2 = vec![b'a', 2];
    let b2 = vec![b'b', 2];
    assert!(matches!(
        publisher_step(&mut c, PublisherEvent::Frame(a1.clone())),
        PublisherOutcome::Published(1)
    ));
    assert!(matches!(
        publisher_step(&mut c, PublisherEvent::Frame(b1.clone())),
        PublisherOutcome::Published(1)
    ));
    assert!(matches!(
        publisher_step(&mut c, PublisherEvent::Frame(a2.clone())),
        PublisherOutcome::Published(1)
    ));
    assert!(matches!(
        publisher_step(&mut c, PublisherEvent::Frame(b2.clone())),
        PublisherOutcome::Published(1)
    ));
    expect_frame(&mut c, id, &a1);
    expect_frame(&mut c, id, &b1);
    expect_frame(&mut c, id, &a2);
    expect_frame(&mut c, id, &b2);
    expect_pending(&mut c, id);
}

#[test]
fn fanout_three_frames_late_joiner() {
    // Two subscribers connected before anything was sent each receive the
    // three frames, of sizes 100, 200 and 50, in that order; a subscriber
    // connected only afterwards receives none of them, but does receive
    // what is published next.
    let mut c = Channel::new(1024);
    let s1 = c.subscribe();
    let s2 = c.subscribe();
    c.publish(frame(1, 100));
    c.publish(frame(2, 200));
    c.publish(frame(3, 50));
    for id in [s1, s2] {
        for (tag, len) in [(1u8, 100usize), (2, 200), (3, 50)] {
            match c.next(id) {
                Next::Frame(f) => {
                    assert_eq!(f.len(), len);
                    assert!(f.iter().all(|&x| x == tag));
                }
                _ => panic!("expected a frame"),
            }
        }
        expect_pending(&mut c, id);
    }
    let s3 = c.subscribe();
    expect_pending(&mut c, s3);
    c.publish(frame(4, 10));
    expect_frame(&mut c, s3, &frame(4, 10));
}

#[test]
fn publisher_disconnect_leaves_subscribers_alive() {
    // A publisher dropping mid-stream ends only its own session: existing
    // subscribers stay subscribed, see no error, and simply wait until a
    // new publisher appears.
    let mut c = Channel::new(16);
    let id = c.subscribe();
    assert!(matches!(
        publisher_step(&mut c, PublisherEvent::Frame(vec![1])),
        PublisherOutcome::Published(1)
    ));
    expect_frame(&mut c, id, &[1]);
    assert!(matches!(
        publisher_step(&mut c, PublisherEvent::ReadError),
        PublisherOutcome::Stopped
    ));
    assert!(!c.is_closed());
    expect_pending(&mut c, id);
    // A reconnecting publisher resumes delivery to the same subscription.
    assert!(matches!(
        publisher_step(&mut c, PublisherEvent::Frame(vec![2])),
        PublisherOutcome::Published(1)
    ));
    expect_frame(&mut c, id, &[2]);
}

#[test]
fn end_of_stream_stops_session() {
    let mut c = Channel::new(4);
    assert!(matches!(
        publisher_step(&mut c, PublisherEvent::EndOfStream),
        PublisherOutcome::Stopped
    ));
}

#[test]
fn close_resolves_every_pull() {
    let mut c = Channel::new(4);
    let a = c.subscribe();
    let b = c.subscribe();
    c.publish(vec![1]);
    c.close();
    assert!(c.is_closed());
    // Closure wins for every subscription and every later pull.
    assert!(matches!(c.next(a), Next::Closed));
    assert!(matches!(c.next(a), Next::Closed));
    assert!(matches!(c.next(b), Next::Closed));
}

#[test]
fn subscriber_session_actions() {
    let mut c = Channel::new(1);
    let id = c.subscribe();
    // Nothing yet: wait.
    assert!(matches!(subscriber_step(&mut c, id), SubscriberAction::Wait));
    // A frame: forward it.
    c.publish(vec![9]);
    match subscriber_step(&mut c, id) {
        SubscriberAction::Send(f) => assert_eq!(f, vec![9]),
        _ => panic!("expected a send"),
    }
    // Fall behind by two: log the skip, keep going.
    c.publish(vec![1]);
    c.publish(vec![2]);
    c.publish(vec![3]);
    match subscriber_step(&mut c, id) {
        SubscriberAction::Skip(n) => assert_eq!(n, 2),
        _ => panic!("expected a skip"),
    }
    match subscriber_step(&mut c, id) {
        SubscriberAction::Send(f) => assert_eq!(f, vec![3]),
        _ => panic!("expected a send"),
    }
    // Closure: stop cleanly.
    c.close();
    assert!(matches!(subscriber_step(&mut c, id), SubscriberAction::Stop));
}

#[test]
fn capacity_one_keeps_latest() {
    let mut c = Channel::new(1);
    assert_eq!(c.capacity(), 1);
    let id = c.subscribe();
    c.publish(vec![1]);
    c.publish(vec![2]);
    assert!(matches!(c.next(id), Next::Lagged(1)));
    expect_frame(&mut c, id, &[2]);
    expect_pending(&mut c, id);
}

#[test]
fn empty_frames_pass_through() {
    // Payloads are opaque: a zero-length frame is relayed like any other.
    let mut c = Channel::new(4);
    let id = c.subscribe();
    assert_eq!(c.publish(Vec::new()), 1);
    expect_frame(&mut c, id, &[]);
    expect_pending(&mut c, id);
}

#[test]
fn subscription_ids_count_up() {
    let mut c = Channel::new(4);
    assert_eq!(c.subscription_count(), 0);
    let a = c.subscribe();
    let b = c.subscribe();
    assert_eq!(a, 0);
    assert_eq!(b, 1);
    assert_eq!(c.subscription_count(), 2);
    c.unsubscribe(a);
    // Ids are never reused: the slot stays, only the active flag drops.
    assert_eq!(c.subscription_count(), 2);
    assert_eq!(c.subscribe(), 2);
}

#[test]
fn parse_args_accepts_exactly_two_addresses() {
    let argv = vec![
        String::from("relay"),
        String::from("0.0.0.0:10001"),
        String::from("0.0.0.0:11001"),
    ];
    let (input, output) = parse_args(&argv).expect("two addresses are accepted");
    assert_eq!(input, "0.0.0.0:10001");
    assert_eq!(output, "0.0.0.0:11001");
}

#[test]
fn parse_args_rejects_other_counts() {
    assert!(parse_args(&vec![String::from("relay")]).is_none());
    assert!(parse_args(&vec![String::from("relay"), String::from("a:1")]).is_none());
    assert!(parse_args(&vec![
        String::from("relay"),
        String::from("a:1"),
        String::from("b:2"),
        String::from("c:3"),
    ])
    .is_none());
}
