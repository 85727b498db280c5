use bytes::Bytes;
use std::time::Duration;
use tinyroute::address::Address;
use tinyroute::agent::Agent;
use tinyroute::bridge::{connect_to, Action, Bridge, Reconnect, Retry, Signal, Step};
use tinyroute::errors::Error;
use tinyroute::message::Message;
use tinyroute::router::{Dispatch, Router};

fn addr(name: &str) -> Address {
    Address::from_bytes(name.as_bytes())
}

fn drain(router: &mut Router) {
    while router.dispatch() == Dispatch::Done {}
}

fn waits(mut policy: Reconnect, n: usize) -> Vec<Duration> {
    (0..n).map(|_| policy.next_wait()).collect()
}

fn attempts(mut reconnect: Reconnect, mut retry: Retry, limit: usize) -> usize {
    let mut made = 0;
    while made < limit {
        made += 1;
        if connect_to(&mut reconnect, &mut retry).is_err() {
            break;
        }
    }
    made
}

#[test]
fn exponential_backoff_doubles_up_to_the_cap() {
    let policy = Reconnect::Exponential { seconds: 3, max: Some(20) };
    let secs: Vec<Duration> = [3u64, 6, 12, 20, 20].iter().map(|s| Duration::from_secs(*s)).collect();
    assert_eq!(waits(policy, 5), secs);
}

#[test]
fn exponential_backoff_without_a_cap_keeps_doubling() {
    let policy = Reconnect::Exponential { seconds: 1, max: None };
    let got = waits(policy, 12);
    for (i, wait) in got.iter().enumerate() {
        assert_eq!(*wait, Duration::from_secs(1u64 << i));
    }
}

#[test]
fn exponential_backoff_stops_at_the_largest_number() {
    let policy = Reconnect::Exponential { seconds: 1u64 << 62, max: None };
    assert_eq!(
        waits(policy, 4),
        vec![
            Duration::from_secs(1u64 << 62),
            Duration::from_secs(1u64 << 63),
            Duration::from_secs(u64::MAX),
            Duration::from_secs(u64::MAX),
        ]
    );
}

#[test]
fn cap_below_the_start_holds_from_the_first_wait() {
    let policy = Reconnect::Exponential { seconds: 30, max: Some(10) };
    assert_eq!(waits(policy, 3), vec![Duration::from_secs(10); 3]);
}

#[test]
fn constant_backoff_never_changes() {
    let policy = Reconnect::Constant(Duration::from_millis(100));
    assert_eq!(waits(policy, 4), vec![Duration::from_millis(100); 4]);
}

#[test]
fn count_three_makes_three_attempts() {
    let policy = Reconnect::Constant(Duration::from_millis(1));
    assert_eq!(attempts(policy, Retry::Count(3), 100), 3);
    assert_eq!(attempts(policy, Retry::Count(7), 100), 7);
}

#[test]
fn never_makes_one_attempt() {
    let policy = Reconnect::Constant(Duration::from_millis(1));
    assert_eq!(attempts(policy, Retry::Never, 100), 1);
}

#[test]
fn count_below_two_makes_one_attempt() {
    let policy = Reconnect::Constant(Duration::from_millis(1));
    assert_eq!(attempts(policy, Retry::Count(0), 100), 1);
    assert_eq!(attempts(policy, Retry::Count(1), 100), 1);
}

#[test]
fn forever_does_not_give_up() {
    let policy = Reconnect::Exponential { seconds: 1, max: Some(4) };
    assert_eq!(attempts(policy, Retry::Forever, 10_000), 10_000);
}

#[test]
fn budget_is_consumed_one_by_one() {
    assert!(matches!(Retry::Count(3).consume(), Some(Retry::Count(2))));
    assert!(matches!(Retry::Count(2).consume(), Some(Retry::Count(1))));
    assert!(Retry::Count(1).consume().is_none());
    assert!(Retry::Count(0).consume().is_none());
    assert!(Retry::Never.consume().is_none());
    assert!(matches!(Retry::Forever.consume(), Some(Retry::Forever)));
}

#[test]
fn giving_up_leaves_the_policy_alone() {
    let mut reconnect = Reconnect::Exponential { seconds: 5, max: None };
    let mut retry = Retry::Count(2);
    assert_eq!(connect_to(&mut reconnect, &mut retry), Ok(Duration::from_secs(5)));
    assert!(matches!(retry, Retry::Count(1)));
    assert!(matches!(reconnect, Reconnect::Exponential { seconds: 10, max: None }));
    assert_eq!(connect_to(&mut reconnect, &mut retry), Err(Error::ReconnectExhausted));
    assert!(matches!(retry, Retry::Count(1)));
    assert!(matches!(reconnect, Reconnect::Exponential { seconds: 10, max: None }));
}

#[test]
fn unreachable_peer_ends_in_shutdown_after_two_attempts() {
    let mut router = Router::new();
    let agent: Agent<String> = Agent::new(&mut router, addr("bridge"), 10).unwrap();
    let mut bridge = Bridge::new(
        agent,
        "unreachable:1",
        Reconnect::Constant(Duration::from_millis(100)),
        Retry::Count(2),
        None,
    );
    assert!(!bridge.is_connected());
    assert_eq!(bridge.reconnect(false), Ok(Some(Duration::from_millis(100))));
    assert_eq!(bridge.reconnect(false), Err(Error::ReconnectExhausted));
    assert!(!bridge.is_connected());
    assert!(matches!(
        bridge.run(&mut router, Signal::Unreachable),
        Ok(Step::Deliver(Message::Shutdown))
    ));
}

#[test]
fn every_connection_step_starts_with_the_whole_budget() {
    let mut router = Router::new();
    let agent: Agent<String> = Agent::new(&mut router, addr("bridge"), 10).unwrap();
    let mut bridge = Bridge::new(
        agent,
        "peer:1",
        Reconnect::Exponential { seconds: 1, max: Some(8) },
        Retry::Count(3),
        Some(Duration::from_secs(30)),
    );
    assert_eq!(bridge.addr(), "peer:1");
    assert_eq!(bridge.heartbeat(), Some(Duration::from_secs(30)));
    assert_eq!(bridge.reconnect(false), Ok(Some(Duration::from_secs(1))));
    assert_eq!(bridge.reconnect(true), Ok(None));
    assert!(bridge.is_connected());
    assert!(matches!(bridge.run(&mut router, Signal::Closed), Ok(Step::Nothing)));
    assert!(!bridge.is_connected());
    assert_eq!(bridge.reconnect(false), Ok(Some(Duration::from_secs(2))));
    assert_eq!(bridge.reconnect(false), Ok(Some(Duration::from_secs(4))));
    assert_eq!(bridge.reconnect(false), Err(Error::ReconnectExhausted));
    assert_eq!(bridge.reconnect(false), Ok(Some(Duration::from_secs(8))));
}

#[test]
fn connected_bridge_frames_remote_bytes() {
    let mut router = Router::new();
    let agent: Agent<String> = Agent::new(&mut router, addr("bridge"), 10).unwrap();
    let sender: Agent<String> = Agent::new(&mut router, addr("local"), 10).unwrap();
    let mut bridge =
        Bridge::new(agent, "peer:1", Reconnect::Constant(Duration::from_secs(1)), Retry::Never, None);
    bridge.reconnect(true).unwrap();
    sender.send_remote(&mut router, addr("bridge"), Bytes::from(b"ping".to_vec())).unwrap();
    drain(&mut router);
    match bridge.run(&mut router, Signal::Mailbox) {
        Ok(Step::Write(frame)) => assert_eq!(frame, vec![0, 0, 0, 4, b'p', b'i', b'n', b'g']),
        _ => panic!("the payload should be framed"),
    }
    assert!(matches!(bridge.run(&mut router, Signal::Mailbox), Ok(Step::Nothing)));
}

#[test]
fn connected_bridge_hands_other_messages_to_its_caller() {
    let mut router = Router::new();
    let agent: Agent<String> = Agent::new(&mut router, addr("bridge"), 10).unwrap();
    let sender: Agent<String> = Agent::new(&mut router, addr("local"), 10).unwrap();
    let mut bridge =
        Bridge::new(agent, "peer:1", Reconnect::Constant(Duration::from_secs(1)), Retry::Never, None);
    bridge.reconnect(true).unwrap();
    sender.reverse_track(&mut router, addr("bridge")).unwrap();
    sender.send(&mut router, addr("bridge"), "hello".to_string()).unwrap();
    sender.send(&mut router, addr("bridge"), 5u8).unwrap();
    router.submit(tinyroute::router::RouterMessage::Shutdown(addr("bridge"))).unwrap();
    sender.release(&mut router);
    drain(&mut router);
    match bridge.run(&mut router, Signal::Mailbox) {
        Ok(Step::Deliver(Message::Value(text, from))) => {
            assert_eq!(text, "hello");
            assert!(from == addr("local"));
        }
        _ => panic!("the value goes to the caller"),
    }
    assert!(matches!(bridge.run(&mut router, Signal::Mailbox), Ok(Step::Nothing)));
    assert!(matches!(
        bridge.run(&mut router, Signal::Mailbox),
        Ok(Step::Deliver(Message::Shutdown))
    ));
    match bridge.run(&mut router, Signal::Mailbox) {
        Ok(Step::Deliver(Message::AgentRemoved(gone))) => assert!(gone == addr("local")),
        _ => panic!("the notice goes to the caller"),
    }
    assert!(bridge.is_connected());
}

#[test]
fn bridge_without_a_connection_leaves_the_mailbox_alone() {
    let mut router = Router::new();
    let agent: Agent<String> = Agent::new(&mut router, addr("bridge"), 10).unwrap();
    let sender: Agent<String> = Agent::new(&mut router, addr("local"), 10).unwrap();
    let mut bridge =
        Bridge::new(agent, "peer:1", Reconnect::Constant(Duration::from_secs(1)), Retry::Never, None);
    sender.send_remote(&mut router, addr("bridge"), Bytes::from(vec![1])).unwrap();
    drain(&mut router);
    assert!(matches!(bridge.run(&mut router, Signal::Mailbox), Ok(Step::Nothing)));
    bridge.reconnect(true).unwrap();
    assert!(matches!(bridge.run(&mut router, Signal::Alive), Ok(Step::Nothing)));
    assert!(bridge.is_connected());
    assert!(matches!(bridge.run(&mut router, Signal::Mailbox), Ok(Step::Write(_))));
}

#[test]
fn actions_have_names() {
    assert_eq!(Action::Message(1u8).name(), "Message");
    assert_eq!(Action::<u8>::Reconnect.name(), "Reconnect");
    assert_eq!(Action::<u8>::Continue.name(), "Continue");
}

#[test]
fn releasing_a_bridge_frees_the_address_of_its_agent() {
    let mut router = Router::new();
    let agent: Agent<String> = Agent::new(&mut router, addr("bridge"), 10).unwrap();
    let bridge =
        Bridge::new(agent, "peer:1", Reconnect::Constant(Duration::from_secs(1)), Retry::Never, None);
    assert!(router.is_registered(&addr("bridge")));
    bridge.release(&mut router);
    drain(&mut router);
    assert!(!router.is_registered(&addr("bridge")));
    assert!(Agent::<String>::new(&mut router, addr("bridge"), 10).is_ok());
}
