use dbus_nonblock::channel::Channel;
use dbus_nonblock::message::{read_reply, Error, MatchRule, Message, MessageType};
use dbus_nonblock::nonblock::{
    Connection, Dispatch, MessageFilter, NonblockReply, Poll, Proxy, ReplySlot, ReplyState, Waker,
};
use std::cell::RefCell;
use std::rc::Rc;

/// Records which subscription saw which message, and answers with a fixed keep flag.
struct Recorder {
    tag: u32,
    keep: bool,
    seen: Rc<RefCell<Vec<(u32, Vec<i64>)>>>,
}

impl MessageFilter for Recorder {
    fn on_message(&mut self, msg: Message) -> bool {
        self.seen.borrow_mut().push((self.tag, msg.args.clone()));
        self.keep
    }
}

fn recorder(tag: u32, keep: bool, seen: &Rc<RefCell<Vec<(u32, Vec<i64>)>>>) -> Recorder {
    Recorder { tag, keep, seen: seen.clone() }
}

fn new_conn() -> Connection<Recorder> {
    Connection::new(Channel::new())
}

fn last_sent_serial(conn: &Connection<Recorder>) -> u32 {
    conn.channel().outgoing.last().unwrap().serial.unwrap()
}

#[test]
fn method_call_resolves_after_reply() {
    let mut proxy = Proxy::new("org.example.Calc", "/calc", new_conn());
    let mut reply = proxy.method_call::<i64>("org.example.Calc", "Add", vec![2, 3]);
    let sent = proxy.connection.channel().outgoing.last().unwrap().clone();
    assert_eq!(sent.msg_type, MessageType::MethodCall);
    assert_eq!(sent.interface, "org.example.Calc");
    assert_eq!(sent.member, "Add");
    assert_eq!(sent.destination, "org.example.Calc");
    assert_eq!(sent.path, "/calc");
    assert_eq!(sent.args, vec![2, 3]);
    let id = sent.serial.unwrap();

    assert!(matches!(reply.poll(&mut proxy.connection, Waker { task: 7 }), Poll::Pending));

    let seen = Rc::new(RefCell::new(Vec::new()));
    proxy.connection.start_receive(MatchRule::new(), recorder(1, true, &seen));
    proxy.connection.deliver(Message::method_return(id, vec![5]));
    assert!(proxy.connection.read_write().is_ok());
    assert_eq!(proxy.connection.channel().written.len(), 1);
    proxy.connection.process_all();
    assert!(seen.borrow().is_empty());
    assert!(proxy.connection.channel().outgoing.is_empty());
    assert_eq!(proxy.connection.take_woken(), vec![7]);
    match reply.poll(&mut proxy.connection, Waker { task: 7 }) {
        Poll::Ready(Ok(v)) => assert_eq!(v, 5),
        _ => panic!("expected Ok(5)"),
    }
    assert!(matches!(proxy.connection.cell_state(0), ReplyState::Neither));
}

#[test]
fn send_failure_resolves_immediately() {
    let mut conn = new_conn();
    conn.close();
    let mut proxy = Proxy::new("org.example.Calc", "/calc", conn);
    let mut reply = proxy.method_call::<i64>("org.example.Calc", "Add", vec![2, 3]);
    assert!(proxy.connection.channel().outgoing.is_empty());
    assert!(proxy.connection.cancel_reply(1).is_none());
    match reply.poll(&mut proxy.connection, Waker { task: 1 }) {
        Poll::Ready(Err(e)) => {
            assert_eq!(e.name, "org.freedesktop.DBus.Error.Failed");
            assert_eq!(e.message, "Failed to send message");
        }
        _ => panic!("expected an immediate error"),
    }
}

#[test]
fn send_with_reply_fails_on_closed_channel() {
    let mut conn = new_conn();
    conn.close();
    let msg = Message::method_call("a.b", "/", "a.b", "C");
    assert_eq!(conn.send_with_reply(msg, ReplySlot { cell: 0 }), Err(()));
}

#[test]
fn first_of_overlapping_filters_wins() {
    let seen = Rc::new(RefCell::new(Vec::new()));
    let mut conn = new_conn();
    let id1 = conn.start_receive(MatchRule::new_signal("org.example.Iface", "Tick"), recorder(1, true, &seen));
    let id2 = conn.start_receive(MatchRule::new(), recorder(2, true, &seen));
    assert_eq!((id1, id2), (0, 1));
    conn.deliver(Message::signal("/obj", "org.example.Iface", "Tick", vec![9]));
    conn.read_write().unwrap();
    conn.process_all();
    assert_eq!(*seen.borrow(), vec![(1, vec![9])]);
    assert!(conn.stop_receive(id2).is_some());
    assert!(conn.stop_receive(id1).is_some());
}

#[test]
fn filter_order_follows_ids() {
    let seen = Rc::new(RefCell::new(Vec::new()));
    let mut conn = new_conn();
    conn.start_receive(MatchRule::new_signal("x.Y", "Other"), recorder(1, true, &seen));
    conn.start_receive(MatchRule::new_signal("x.Y", "Z"), recorder(2, true, &seen));
    conn.start_receive(MatchRule::new(), recorder(3, true, &seen));
    let r = conn.process_one(Message::signal("/", "x.Y", "Z", vec![1]));
    assert_eq!(r, Dispatch::Filter { id: 1, kept: true });
    let r = conn.process_one(Message::signal("/", "x.Y", "W", vec![2]));
    assert_eq!(r, Dispatch::Filter { id: 2, kept: true });
    assert_eq!(*seen.borrow(), vec![(2, vec![1]), (3, vec![2])]);
}

#[test]
fn filter_that_declines_is_removed() {
    let seen = Rc::new(RefCell::new(Vec::new()));
    let mut conn = new_conn();
    let once = conn.start_receive(MatchRule::new(), recorder(1, false, &seen));
    let stay = conn.start_receive(MatchRule::new(), recorder(2, true, &seen));
    let m = Message::signal("/", "x.Y", "Z", vec![]);
    assert_eq!(conn.process_one(m.clone()), Dispatch::Filter { id: once, kept: false });
    assert_eq!(conn.process_one(m.clone()), Dispatch::Filter { id: stay, kept: true });
    assert_eq!(conn.process_one(m), Dispatch::Filter { id: stay, kept: true });
    assert!(conn.stop_receive(once).is_none());
    assert!(conn.stop_receive(stay).is_some());
    assert!(conn.stop_receive(stay).is_none());
}

#[test]
fn stop_receive_returns_rule() {
    let seen = Rc::new(RefCell::new(Vec::new()));
    let mut conn = new_conn();
    let id = conn.start_receive(MatchRule::new_signal("a.B", "C"), recorder(1, true, &seen));
    let (rule, _handler) = conn.stop_receive(id).unwrap();
    assert_eq!(rule.member, Some("C".to_string()));
    assert_eq!(conn.process_one(Message::signal("/", "a.B", "C", vec![])), Dispatch::Dropped);
    assert!(seen.borrow().is_empty());
}

#[test]
fn reply_fires_once_then_goes_to_filters() {
    let seen = Rc::new(RefCell::new(Vec::new()));
    let mut proxy = Proxy::new("a.B", "/", new_conn());
    let _reply = proxy.method_call::<()>("a.B", "Ping", vec![]);
    let id = last_sent_serial(&proxy.connection);
    proxy.connection.start_receive(MatchRule::new(), recorder(4, true, &seen));
    let first = proxy.connection.process_one(Message::method_return(id, vec![]));
    assert_eq!(first, Dispatch::Reply(id));
    let second = proxy.connection.process_one(Message::method_return(id, vec![1]));
    assert_eq!(second, Dispatch::Filter { id: 0, kept: true });
    assert_eq!(*seen.borrow(), vec![(4, vec![1])]);
}

#[test]
fn unknown_reply_serial_is_offered_to_filters() {
    let seen = Rc::new(RefCell::new(Vec::new()));
    let mut conn = new_conn();
    conn.start_receive(MatchRule::new(), recorder(1, true, &seen));
    assert_eq!(
        conn.process_one(Message::method_return(42, vec![3])),
        Dispatch::Filter { id: 0, kept: true }
    );
    assert_eq!(*seen.borrow(), vec![(1, vec![3])]);
}

#[test]
fn reply_without_filters_is_dropped() {
    let mut conn = new_conn();
    assert_eq!(conn.process_one(Message::method_return(42, vec![3])), Dispatch::Dropped);
    assert!(conn.channel().outgoing.is_empty());
}

#[test]
fn cancel_unknown_reply_is_nothing() {
    let mut proxy = Proxy::new("a.B", "/", new_conn());
    assert!(proxy.connection.cancel_reply(5).is_none());
    let _reply = proxy.method_call::<()>("a.B", "Ping", vec![]);
    let id = last_sent_serial(&proxy.connection);
    assert_eq!(proxy.connection.cancel_reply(id), Some(ReplySlot { cell: 0 }));
    assert!(proxy.connection.cancel_reply(id).is_none());
    assert_eq!(proxy.connection.process_one(Message::method_return(id, vec![])), Dispatch::Dropped);
}

#[test]
fn cancel_after_fire_is_nothing() {
    let mut proxy = Proxy::new("a.B", "/", new_conn());
    let _reply = proxy.method_call::<()>("a.B", "Ping", vec![]);
    let id = last_sent_serial(&proxy.connection);
    assert_eq!(proxy.connection.process_one(Message::method_return(id, vec![])), Dispatch::Reply(id));
    assert!(proxy.connection.cancel_reply(id).is_none());
}

#[test]
fn latest_waker_is_the_one_woken() {
    let mut proxy = Proxy::new("a.B", "/", new_conn());
    let mut reply = proxy.method_call::<i64>("a.B", "Get", vec![]);
    let id = last_sent_serial(&proxy.connection);
    assert!(matches!(reply.poll(&mut proxy.connection, Waker { task: 1 }), Poll::Pending));
    assert!(matches!(reply.poll(&mut proxy.connection, Waker { task: 2 }), Poll::Pending));
    assert!(matches!(proxy.connection.cell_state(0), ReplyState::Pending(Waker { task: 2 })));
    proxy.connection.process_one(Message::method_return(id, vec![8]));
    assert_eq!(proxy.connection.take_woken(), vec![2]);
    assert!(proxy.connection.take_woken().is_empty());
    assert!(matches!(reply.poll(&mut proxy.connection, Waker { task: 2 }), Poll::Ready(Ok(8))));
}

#[test]
fn reply_before_poll_wakes_nobody() {
    let mut proxy = Proxy::new("a.B", "/", new_conn());
    let mut reply = proxy.method_call::<(i64, i64)>("a.B", "Pair", vec![]);
    let id = last_sent_serial(&proxy.connection);
    proxy.connection.process_one(Message::method_return(id, vec![1, 2]));
    assert!(proxy.connection.take_woken().is_empty());
    assert!(matches!(reply.poll(&mut proxy.connection, Waker { task: 3 }), Poll::Ready(Ok((1, 2)))));
}

#[test]
fn and_then_post_processes_once() {
    let mut proxy = Proxy::new("a.B", "/", new_conn());
    let reply = proxy.method_call::<i64>("a.B", "Get", vec![]);
    let id = last_sent_serial(&proxy.connection);
    let mut doubled = reply.and_then(|v: i64| -> Result<i64, Error> { Ok(v * 2) });
    proxy.connection.process_one(Message::method_return(id, vec![21]));
    match doubled.poll(&mut proxy.connection, Waker { task: 0 }) {
        Poll::Ready(Ok(v)) => assert_eq!(v, 42),
        _ => panic!("expected Ok(42)"),
    }
}

#[test]
fn and_then_skipped_on_decode_failure() {
    let mut proxy = Proxy::new("a.B", "/", new_conn());
    let reply = proxy.method_call::<i64>("a.B", "Get", vec![]);
    let id = last_sent_serial(&proxy.connection);
    let mut chained = reply.and_then(|_v: i64| -> Result<i64, Error> { panic!("must not run") });
    proxy.connection.process_one(Message::method_return(id, vec![1, 2]));
    match chained.poll(&mut proxy.connection, Waker { task: 0 }) {
        Poll::Ready(Err(e)) => assert_eq!(e.name, "org.freedesktop.DBus.Error.InvalidArgs"),
        _ => panic!("expected a decode error"),
    }
}

#[test]
fn error_reply_becomes_error_result() {
    let mut m = Message::method_return(3, vec![]);
    m.msg_type = MessageType::Error;
    m.error_name = "org.example.Error.Nope".to_string();
    match read_reply::<()>(m) {
        Err(e) => assert_eq!(e.name, "org.example.Error.Nope"),
        Ok(()) => panic!("expected an error"),
    }
}

#[test]
fn unhandled_method_call_gets_unknown_method() {
    let mut conn = new_conn();
    let mut call = Message::method_call("me", "/", "a.B", "Nothing");
    call.serial = Some(77);
    call.sender = ":1.5".to_string();
    assert_eq!(conn.process_one(call), Dispatch::Answered);
    let sent = conn.channel().outgoing.last().unwrap().clone();
    assert_eq!(sent.msg_type, MessageType::Error);
    assert_eq!(sent.reply_serial, Some(77));
    assert_eq!(sent.destination, ":1.5");
    assert_eq!(sent.error_name, "org.freedesktop.DBus.Error.UnknownMethod");
    assert_eq!(sent.serial, Some(1));
}

#[test]
fn default_answer_on_closed_channel_is_dropped_silently() {
    let mut conn = new_conn();
    conn.close();
    let mut call = Message::method_call("me", "/", "a.B", "Nothing");
    call.serial = Some(4);
    assert_eq!(conn.process_one(call), Dispatch::Answered);
    assert!(conn.channel().outgoing.is_empty());
}

#[test]
fn read_write_fails_on_closed_channel() {
    let mut conn = new_conn();
    conn.deliver(Message::signal("/", "a.B", "C", vec![]));
    conn.close();
    let e = conn.read_write().unwrap_err();
    assert_eq!(e.name, "org.freedesktop.DBus.Error.Failed");
    assert_eq!(e.message, "Read/write failed");
    assert!(conn.channel().inbound.is_empty());
}

#[test]
fn read_write_moves_messages_both_ways() {
    let mut conn = new_conn();
    assert_eq!(conn.send(Message::signal("/", "a.B", "C", vec![])), Ok(1));
    conn.deliver(Message::signal("/", "a.B", "D", vec![]));
    conn.read_write().unwrap();
    assert_eq!(conn.channel().written.len(), 1);
    assert!(conn.channel().outgoing.is_empty());
    assert_eq!(conn.channel().inbound.len(), 1);
    conn.process_all();
    assert!(conn.channel().inbound.is_empty());
}

#[test]
fn process_all_drains_in_order() {
    let seen = Rc::new(RefCell::new(Vec::new()));
    let mut conn = new_conn();
    conn.start_receive(MatchRule::new(), recorder(1, true, &seen));
    for k in 0..3 {
        conn.deliver(Message::signal("/", "a.B", "C", vec![k]));
    }
    conn.read_write().unwrap();
    conn.process_all();
    assert_eq!(*seen.borrow(), vec![(1, vec![0]), (1, vec![1]), (1, vec![2])]);
}

#[test]
fn match_rule_checks_each_set_field() {
    let rule = MatchRule::new_signal("a.B", "C");
    assert!(rule.matches(&Message::signal("/", "a.B", "C", vec![])));
    assert!(!rule.matches(&Message::signal("/", "a.B", "D", vec![])));
    assert!(!rule.matches(&Message::method_call("x", "/", "a.B", "C")));
    assert!(MatchRule::new().matches(&Message::method_return(1, vec![])));
}
