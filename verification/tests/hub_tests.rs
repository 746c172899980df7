use room_hub::hub::Command;
use room_hub::hub::Reply;
use room_hub::hub::RoomServer;
use room_hub::session::SessionCtl;
use room_hub::session::SessionEvent;
use room_hub::session::SessionStep;
use room_hub::CLIENT_TIMEOUT_MS;
use room_hub::HEARTBEAT_INTERVAL_MS;
use tokio::sync::mpsc;

#[test]
fn connect_assigns_fresh_ids_and_notifies_previous_members() {
    let mut hub = RoomServer::new();
    let (tx_a, mut rx_a) = mpsc::unbounded_channel::<String>();
    let (tx_b, mut rx_b) = mpsc::unbounded_channel::<String>();

    let (id_a, deliveries_a) = hub.connect(tx_a, "r1".to_owned());
    assert_eq!(id_a, 0);
    assert!(deliveries_a.is_empty());

    let (id_b, deliveries_b) = hub.connect(tx_b, "r1".to_owned());
    assert_eq!(id_b, 1);
    assert_eq!(deliveries_b.len(), 1);
    assert_eq!(deliveries_b[0].conn, id_a);
    assert_eq!(deliveries_b[0].payload, "Someone joined");

    // the join notice really went through connection A's queue, and only A's
    assert_eq!(rx_a.try_recv().unwrap(), "Someone joined");
    assert!(rx_a.try_recv().is_err());
    assert!(rx_b.try_recv().is_err());
}

#[test]
fn join_notice_goes_to_each_previous_member() {
    let mut hub = RoomServer::new();
    let (tx_a, mut rx_a) = mpsc::unbounded_channel::<String>();
    let (tx_b, mut rx_b) = mpsc::unbounded_channel::<String>();
    let (tx_c, mut rx_c) = mpsc::unbounded_channel::<String>();

    let (id_a, _) = hub.connect(tx_a, "r1".to_owned());
    let (id_b, _) = hub.connect(tx_b, "r1".to_owned());
    let (_, deliveries) = hub.connect(tx_c, "r1".to_owned());

    assert_eq!(deliveries.len(), 2);
    assert_eq!(deliveries[0].conn, id_a);
    assert_eq!(deliveries[1].conn, id_b);
    let _ = rx_a.try_recv().unwrap();
    assert_eq!(rx_a.try_recv().unwrap(), "Someone joined");
    assert_eq!(rx_b.try_recv().unwrap(), "Someone joined");
    assert!(rx_c.try_recv().is_err());
}

#[test]
fn message_fans_out_to_every_member() {
    let mut hub = RoomServer::new();
    let (tx_a, mut rx_a) = mpsc::unbounded_channel::<String>();
    let (tx_b, mut rx_b) = mpsc::unbounded_channel::<String>();

    let (id_a, _) = hub.connect(tx_a, "r1".to_owned());
    let (id_b, _) = hub.connect(tx_b, "r1".to_owned());
    let _ = rx_a.try_recv();

    let deliveries = hub.send_message(&"r1".to_owned(), &"hello".to_owned());
    assert_eq!(deliveries.len(), 2);
    assert_eq!(deliveries[0].conn, id_a);
    assert_eq!(deliveries[0].payload, "hello");
    assert_eq!(deliveries[1].conn, id_b);
    assert_eq!(deliveries[1].payload, "hello");

    assert_eq!(rx_a.try_recv().unwrap(), "hello");
    assert_eq!(rx_b.try_recv().unwrap(), "hello");
}

#[test]
fn message_to_unknown_room_reaches_nobody_and_is_no_error() {
    let mut hub = RoomServer::new();
    let (tx_a, mut rx_a) = mpsc::unbounded_channel::<String>();
    let _ = hub.connect(tx_a, "r1".to_owned());

    let deliveries = hub.send_message(&"nowhere".to_owned(), &"hello".to_owned());
    assert!(deliveries.is_empty());
    assert!(rx_a.try_recv().is_err());
}

#[test]
fn message_to_other_room_is_not_delivered_here() {
    let mut hub = RoomServer::new();
    let (tx_a, mut rx_a) = mpsc::unbounded_channel::<String>();
    let (tx_b, mut rx_b) = mpsc::unbounded_channel::<String>();
    let (_, _) = hub.connect(tx_a, "r1".to_owned());
    let (id_b, _) = hub.connect(tx_b, "r2".to_owned());

    let deliveries = hub.send_message(&"r2".to_owned(), &"only r2".to_owned());
    assert_eq!(deliveries.len(), 1);
    assert_eq!(deliveries[0].conn, id_b);
    assert!(rx_a.try_recv().is_err());
    assert_eq!(rx_b.try_recv().unwrap(), "only r2");
}

#[test]
fn disconnect_notifies_remaining_members_with_leave_notice() {
    let mut hub = RoomServer::new();
    let (tx_a, mut rx_a) = mpsc::unbounded_channel::<String>();
    let (tx_b, _rx_b) = mpsc::unbounded_channel::<String>();
    let (id_a, _) = hub.connect(tx_a, "r1".to_owned());
    let (id_b, _) = hub.connect(tx_b, "r1".to_owned());
    let _ = rx_a.try_recv();

    let deliveries = hub.disconnect(id_b);
    assert_eq!(deliveries.len(), 1);
    assert_eq!(deliveries[0].conn, id_a);
    assert_eq!(deliveries[0].payload, "session {session_id} has disconnected.");
    assert_eq!(
        rx_a.try_recv().unwrap(),
        "session {session_id} has disconnected."
    );
}

#[test]
fn disconnect_twice_is_a_safe_no_op() {
    let mut hub = RoomServer::new();
    let (tx_a, mut rx_a) = mpsc::unbounded_channel::<String>();
    let (tx_b, _rx_b) = mpsc::unbounded_channel::<String>();
    let (id_a, _) = hub.connect(tx_a, "r1".to_owned());
    let (id_b, _) = hub.connect(tx_b, "r1".to_owned());
    let _ = rx_a.try_recv();

    let first = hub.disconnect(id_b);
    assert_eq!(first.len(), 1);
    let second = hub.disconnect(id_b);
    assert!(second.is_empty());
    let _ = rx_a.try_recv();

    // the hub still works and only A is a member
    let deliveries = hub.send_message(&"r1".to_owned(), &"still there".to_owned());
    assert_eq!(deliveries.len(), 1);
    assert_eq!(deliveries[0].conn, id_a);
    assert_eq!(rx_a.try_recv().unwrap(), "still there");
}

#[test]
fn disconnect_unknown_connection_is_a_no_op() {
    let mut hub = RoomServer::new();
    let deliveries = hub.disconnect(77);
    assert!(deliveries.is_empty());
}

#[test]
fn handle_command_replies_per_command() {
    let mut hub = RoomServer::new();
    let (tx_a, _rx_a) = mpsc::unbounded_channel::<String>();

    let (reply, deliveries) = hub.handle_command(Command::Connect {
        conn_tx: tx_a,
        room_id: "r1".to_owned(),
    });
    assert!(matches!(reply, Some(Reply::ConnId(0))));
    assert!(deliveries.is_empty());

    let (reply, deliveries) = hub.handle_command(Command::Message {
        room_id: "r1".to_owned(),
        msg: "payload".to_owned(),
    });
    assert!(matches!(reply, Some(Reply::Sent)));
    assert_eq!(deliveries.len(), 1);
    assert_eq!(deliveries[0].payload, "payload");

    let (reply, deliveries) = hub.handle_command(Command::Disconnect { conn: 0 });
    assert!(reply.is_none());
    assert!(deliveries.is_empty());
}

#[test]
fn delivery_to_a_closed_queue_is_silently_skipped() {
    let mut hub = RoomServer::new();
    let (tx_a, rx_a) = mpsc::unbounded_channel::<String>();
    let (tx_b, mut rx_b) = mpsc::unbounded_channel::<String>();
    let (id_a, _) = hub.connect(tx_a, "r1".to_owned());
    let (_, _) = hub.connect(tx_b, "r1".to_owned());
    let _ = rx_b.try_recv();

    // A's session drops its queue before the hub learns of the disconnect
    drop(rx_a);
    let deliveries = hub.send_message(&"r1".to_owned(), &"racing".to_owned());
    // the attempt towards A is still made and recorded; only B receives
    assert_eq!(deliveries.len(), 2);
    assert_eq!(deliveries[0].conn, id_a);
    assert_eq!(rx_b.try_recv().unwrap(), "racing");
}

#[test]
fn timeout_eviction_disconnects_from_the_hub_once() {
    let mut hub = RoomServer::new();
    let (tx_a, mut rx_a) = mpsc::unbounded_channel::<String>();
    let (tx_b, _rx_b) = mpsc::unbounded_channel::<String>();
    let (id_a, _) = hub.connect(tx_a, "r1".to_owned());
    let (id_b, _) = hub.connect(tx_b, "r1".to_owned());
    let _ = rx_a.try_recv();

    // B's loop sees only silence: heartbeat ticks, never a liveness signal
    let mut ctl = SessionCtl::new(0);
    let mut now = 0;
    let mut disconnects = 0;
    loop {
        now += HEARTBEAT_INTERVAL_MS;
        match ctl.on_event(SessionEvent::Heartbeat, now) {
            SessionStep::Continue(_) => {
                assert!(now <= CLIENT_TIMEOUT_MS);
            }
            SessionStep::Terminate(reason) => {
                // eviction carries no close reason, and teardown runs once
                assert!(reason.is_none());
                let _ = hub.disconnect(id_b);
                disconnects += 1;
                break;
            }
        }
    }
    assert_eq!(disconnects, 1);
    // the survivor was told, and later broadcasts reach only the survivor
    assert_eq!(
        rx_a.try_recv().unwrap(),
        "session {session_id} has disconnected."
    );
    let deliveries = hub.send_message(&"r1".to_owned(), &"after eviction".to_owned());
    assert_eq!(deliveries.len(), 1);
    assert_eq!(deliveries[0].conn, id_a);
}

#[test]
fn end_to_end_scenario() {
    let mut hub = RoomServer::new();
    let (tx_a, mut rx_a) = mpsc::unbounded_channel::<String>();
    let (tx_b, mut rx_b) = mpsc::unbounded_channel::<String>();

    // A joins r1, then B joins r1: A sees a join notice for B
    let (id_a, _) = hub.connect(tx_a, "r1".to_owned());
    let (id_b, _) = hub.connect(tx_b, "r1".to_owned());
    assert_eq!(rx_a.try_recv().unwrap(), "Someone joined");

    // a trigger broadcasts an update: both A and B receive the exact payload
    let payload = "{\"kind\":\"update\",\"data\":{\"answered\":true}}".to_owned();
    let deliveries = hub.send_message(&"r1".to_owned(), &payload);
    assert_eq!(deliveries.len(), 2);
    assert_eq!(rx_a.try_recv().unwrap(), payload);
    assert_eq!(rx_b.try_recv().unwrap(), payload);

    // B disconnects: A receives the leave notice
    let _ = hub.disconnect(id_b);
    assert_eq!(
        rx_a.try_recv().unwrap(),
        "session {session_id} has disconnected."
    );

    // a later broadcast is delivered only to A
    let deliveries = hub.send_message(&"r1".to_owned(), &"after".to_owned());
    assert_eq!(deliveries.len(), 1);
    assert_eq!(deliveries[0].conn, id_a);
    assert_eq!(rx_a.try_recv().unwrap(), "after");
    assert!(rx_b.try_recv().is_err());
}
