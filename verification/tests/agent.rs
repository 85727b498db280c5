use bytes::Bytes;
use tinyroute::address::Address;
use tinyroute::agent::Agent;
use tinyroute::errors::Error;
use tinyroute::message::{AgentMsg, AnyMessage, Message};
use tinyroute::router::{Dispatch, Router};

fn addr(name: &str) -> Address {
    Address::from_bytes(name.as_bytes())
}

fn drain(router: &mut Router) {
    while router.dispatch() == Dispatch::Done {}
}

#[test]
fn ping_arrives_with_the_sender_and_in_order() {
    let mut router = Router::new();
    let a: Agent<String> = Agent::new(&mut router, addr("a"), 10).unwrap();
    let mut b: Agent<String> = Agent::new(&mut router, addr("b"), 10).unwrap();
    a.send(&mut router, addr("b"), "earlier".to_string()).unwrap();
    a.send(&mut router, addr("b"), "ping".to_string()).unwrap();
    assert!(matches!(b.recv(&mut router), Ok(None)));
    drain(&mut router);
    match b.recv(&mut router) {
        Ok(Some(Message::Value(text, from))) => {
            assert_eq!(text, "earlier");
            assert!(from == addr("a"));
        }
        _ => panic!("the first value should wait"),
    }
    match b.recv(&mut router) {
        Ok(Some(Message::Value(text, from))) => {
            assert_eq!(text, "ping");
            assert!(from == addr("a"));
        }
        _ => panic!("the second value should wait"),
    }
    assert!(matches!(b.recv(&mut router), Ok(None)));
}

#[test]
fn value_of_another_type_is_refused() {
    let mut router = Router::new();
    let a: Agent<String> = Agent::new(&mut router, addr("a"), 10).unwrap();
    let mut b: Agent<String> = Agent::new(&mut router, addr("b"), 10).unwrap();
    a.send(&mut router, addr("b"), 42u64).unwrap();
    a.send(&mut router, addr("b"), "ping".to_string()).unwrap();
    drain(&mut router);
    assert!(matches!(b.recv(&mut router), Err(Error::InvalidMessageType)));
    assert!(matches!(b.recv(&mut router), Ok(Some(Message::Value(_, _)))));
}

#[test]
fn any_message_opens_only_as_its_own_type() {
    let sender = addr("s");
    let right = AgentMsg::Message(AnyMessage::new(7u32), sender.clone());
    match right.to_local_message::<u32>() {
        Ok(Message::Value(n, from)) => {
            assert_eq!(n, 7);
            assert!(from == sender);
        }
        _ => panic!("a u32 was sent"),
    }
    let wrong = AgentMsg::Message(AnyMessage::new(7u32), sender.clone());
    assert!(matches!(wrong.to_local_message::<u64>(), Err(Error::InvalidMessageType)));
}

#[test]
fn the_rest_passes_through_decoding() {
    let sender = addr("s");
    let bytes = AgentMsg::RemoteMessage(Bytes::from(vec![1, 2, 3]), sender.clone());
    match bytes.to_local_message::<u32>() {
        Ok(Message::RemoteMessage(got, from)) => {
            assert_eq!(&got[..], &[1, 2, 3]);
            assert!(from == sender);
        }
        _ => panic!("bytes pass through"),
    }
    match AgentMsg::AgentRemoved(addr("x")).to_local_message::<u32>() {
        Ok(Message::AgentRemoved(gone)) => assert!(gone == addr("x")),
        _ => panic!("a notice passes through"),
    }
    assert!(matches!(AgentMsg::Shutdown.to_local_message::<u32>(), Ok(Message::Shutdown)));
}

#[test]
fn sending_to_an_absent_address_succeeds() {
    let mut router = Router::new();
    let a: Agent<u32> = Agent::new(&mut router, addr("a"), 1).unwrap();
    assert_eq!(a.send(&mut router, addr("never"), 1u32), Ok(()));
    let b: Agent<u32> = Agent::new(&mut router, addr("b"), 1).unwrap();
    b.release(&mut router);
    assert_eq!(a.send(&mut router, addr("b"), 2u32), Ok(()));
    assert_eq!(a.send_remote(&mut router, addr("b"), Bytes::from(vec![1])), Ok(()));
    drain(&mut router);
    assert_eq!(router.pending(), 0);
}

#[test]
fn sending_does_not_wait_for_a_full_mailbox() {
    let mut router = Router::new();
    let a: Agent<u32> = Agent::new(&mut router, addr("a"), 1).unwrap();
    let _b: Agent<u32> = Agent::new(&mut router, addr("b"), 1).unwrap();
    for n in 0..5u32 {
        assert_eq!(a.send(&mut router, addr("b"), n), Ok(()));
    }
    assert_eq!(router.pending(), 5);
}

#[test]
fn sending_on_a_closed_router_fails() {
    let mut router = Router::new();
    let mut a: Agent<u32> = Agent::new(&mut router, addr("a"), 1).unwrap();
    router.close();
    assert_eq!(a.send(&mut router, addr("b"), 1u32), Err(Error::RouterClosed));
    assert_eq!(a.send_remote(&mut router, addr("b"), Bytes::new()), Err(Error::RouterClosed));
    assert_eq!(a.track(&mut router, addr("b")), Err(Error::RouterClosed));
    assert_eq!(a.reverse_track(&mut router, addr("b")), Err(Error::RouterClosed));
    a.shutdown(&mut router);
    assert!(matches!(a.recv(&mut router), Err(Error::ChannelClosed)));
    a.release(&mut router);
    assert_eq!(router.pending(), 0);
}

#[test]
fn releasing_an_agent_frees_its_address() {
    let mut router = Router::new();
    let a: Agent<u32> = Agent::new(&mut router, addr("a"), 1).unwrap();
    assert!(matches!(Agent::<u32>::new(&mut router, addr("a"), 1), Err(Error::AddressInUse)));
    a.release(&mut router);
    drain(&mut router);
    assert!(!router.is_registered(&addr("a")));
    assert!(Agent::<u32>::new(&mut router, addr("a"), 1).is_ok());
}

#[test]
fn child_agent_is_registered_at_once() {
    let mut router = Router::new();
    let parent: Agent<u32> = Agent::new(&mut router, addr("parent"), 1).unwrap();
    let child: Agent<String> = parent.create_agent(&mut router, addr("child"), 2).unwrap();
    assert!(router.is_registered(&addr("child")));
    assert!(*child.address() == addr("child"));
    assert!(*parent.address() == addr("parent"));
    assert!(matches!(
        parent.create_agent::<String>(&mut router, addr("child"), 2),
        Err(Error::AddressInUse)
    ));
    router.close();
    assert!(matches!(
        parent.create_agent::<String>(&mut router, addr("other"), 2),
        Err(Error::RouterClosed)
    ));
}

#[test]
fn track_makes_self_the_watcher() {
    let mut router = Router::new();
    let mut w: Agent<u32> = Agent::new(&mut router, addr("w"), 4).unwrap();
    let x: Agent<u32> = Agent::new(&mut router, addr("x"), 4).unwrap();
    w.track(&mut router, addr("x")).unwrap();
    x.release(&mut router);
    drain(&mut router);
    match w.recv(&mut router) {
        Ok(Some(Message::AgentRemoved(gone))) => assert!(gone == addr("x")),
        _ => panic!("the watcher should have been told"),
    }
    assert!(matches!(w.recv(&mut router), Ok(None)));
}

#[test]
fn reverse_track_makes_self_the_watched() {
    let mut router = Router::new();
    let mut w: Agent<u32> = Agent::new(&mut router, addr("w"), 4).unwrap();
    let mut x: Agent<u32> = Agent::new(&mut router, addr("x"), 4).unwrap();
    x.reverse_track(&mut router, addr("w")).unwrap();
    drain(&mut router);
    assert!(matches!(x.recv(&mut router), Ok(None)));
    x.release(&mut router);
    drain(&mut router);
    assert!(matches!(w.recv(&mut router), Ok(Some(Message::AgentRemoved(_)))));
}

#[test]
fn shutdown_reaches_the_agent_itself() {
    let mut router = Router::new();
    let mut a: Agent<u32> = Agent::new(&mut router, addr("a"), 4).unwrap();
    a.shutdown(&mut router);
    drain(&mut router);
    assert!(matches!(a.recv(&mut router), Ok(Some(Message::Shutdown))));
    assert!(router.is_registered(&addr("a")));
}

#[test]
fn remote_bytes_arrive_unchanged() {
    let mut router = Router::new();
    let a: Agent<u32> = Agent::new(&mut router, addr("a"), 4).unwrap();
    let mut b: Agent<u32> = Agent::new(&mut router, addr("b"), 4).unwrap();
    a.send_remote(&mut router, addr("b"), Bytes::from(vec![9, 8, 7])).unwrap();
    drain(&mut router);
    match b.recv(&mut router) {
        Ok(Some(Message::RemoteMessage(bytes, from))) => {
            assert_eq!(&bytes[..], &[9, 8, 7]);
            assert!(from == addr("a"));
        }
        _ => panic!("bytes should wait"),
    }
}

#[test]
fn receiving_after_removal_is_channel_closed() {
    let mut router = Router::new();
    let mut a: Agent<u32> = Agent::new(&mut router, addr("a"), 4).unwrap();
    router.submit(tinyroute::router::RouterMessage::Unregister(addr("a"))).unwrap();
    drain(&mut router);
    assert!(matches!(a.recv(&mut router), Err(Error::ChannelClosed)));
}

#[test]
fn message_clone_keeps_everything() {
    let value: Message<String> = Message::Value("ping".to_string(), addr("a"));
    match value.clone() {
        Message::Value(text, from) => {
            assert_eq!(text, "ping");
            assert!(from == addr("a"));
        }
        _ => panic!("a value clones to a value"),
    }
    let remote: Message<String> = Message::RemoteMessage(Bytes::from(vec![1, 2]), addr("a"));
    match remote.clone() {
        Message::RemoteMessage(bytes, from) => {
            assert_eq!(&bytes[..], &[1, 2]);
            assert!(from == addr("a"));
        }
        _ => panic!("bytes clone to bytes"),
    }
    let removed: Message<String> = Message::AgentRemoved(addr("x"));
    assert!(matches!(removed.clone(), Message::AgentRemoved(gone) if gone == addr("x")));
    let shutdown: Message<String> = Message::Shutdown;
    assert!(matches!(shutdown.clone(), Message::Shutdown));
}

#[test]
fn message_describes_itself() {
    let value: Message<u32> = Message::Value(42, addr("alice"));
    assert_eq!(value.to_string(), "alice > Value<42>");
    let remote: Message<u32> = Message::RemoteMessage(Bytes::from(vec![0; 12]), addr("peer"));
    assert_eq!(remote.to_string(), "Remote(peer) > Bytes(12)");
    let removed: Message<u32> = Message::AgentRemoved(addr("bob"));
    assert_eq!(removed.to_string(), "AgentRemoved<bob>");
    let shutdown: Message<u32> = Message::Shutdown;
    assert_eq!(shutdown.to_string(), "Shutdown");
}
