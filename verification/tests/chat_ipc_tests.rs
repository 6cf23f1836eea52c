use easytier_gui::chat::{chat_command_packet, chat_incoming, chat_message_packet, ChatState};
use easytier_gui::ipc::IpcState;
use easytier_gui::net::{Ip, SockAddr};

fn ip4(d: u8) -> Ip {
    Ip::V4(u32::from_be_bytes([10, 0, 0, d]))
}

#[test]
fn chat_message_is_trimmed() {
    let p = chat_message_packet("Bob", "  salut \n", 12, 4000).unwrap();
    assert_eq!(p.v, 1);
    assert_eq!(p.kind, "chat");
    assert_eq!(p.pseudo, "Bob");
    assert_eq!(p.text, "salut");
    assert_eq!(p.plugin, "");
    assert_eq!(p.action, "");
    assert_eq!(p.ts, 12);
    assert_eq!(p.reply_port, 4000);
}

#[test]
fn blank_chat_message_sends_nothing() {
    assert!(chat_message_packet("Bob", "", 0, 1).is_none());
    assert!(chat_message_packet("Bob", " \t\r\n\u{3000}", 0, 1).is_none());
}

#[test]
fn command_packet() {
    let p = chat_command_packet("Bob", "battle", "start", 5, 6);
    assert_eq!(p.kind, "cmd");
    assert_eq!(p.text, "");
    assert_eq!(p.plugin, "battle");
    assert_eq!(p.action, "start");
    assert_eq!(p.reply_port, 6);
}

#[test]
fn incoming_without_reply_port_uses_source_port() {
    let p = chat_command_packet("Bob", "a", "b", 5, 0);
    let q = chat_incoming(p, 4321);
    assert_eq!(q.reply_port, 4321);
    let p = chat_command_packet("Bob", "a", "b", 5, 7);
    let q = chat_incoming(p, 4321);
    assert_eq!(q.reply_port, 7);
    assert_eq!(q.pseudo, "Bob");
}

#[test]
fn chat_targets_known_peers_only() {
    let mut s = ChatState::new();
    s.set_port(3000);
    s.remember(Some(ip4(2)), 0);
    s.remember(None, 5000);
    s.remember(Some(ip4(2)), 5000);
    s.remember(Some(ip4(3)), 6000);
    s.remember(Some(ip4(3)), 6001);
    let t = s.targets(&vec![Some(ip4(3)), None, Some(ip4(9)), Some(ip4(2))]);
    assert_eq!(
        t,
        vec![SockAddr { ip: ip4(3), port: 6001 }, SockAddr { ip: ip4(2), port: 5000 }]
    );
    s.stop();
    assert_eq!(s.port(), 0);
    assert_eq!(s.targets(&vec![Some(ip4(2))]).len(), 1);
}

#[test]
fn ipc_port() {
    let mut s = IpcState::new();
    assert_eq!(s.get_port(), Err("ipc not started".to_string()));
    s.set_port(7000);
    assert_eq!(s.get_port(), Ok(7000));
    assert_eq!(s.port(), 7000);
}

#[test]
fn law_pending_lines_flush_in_order_once() {
    let mut s = IpcState::new();
    assert_eq!(s.deliver("a"), None);
    assert_eq!(s.deliver("b"), None);
    let game = SockAddr { ip: Ip::V4(0x7f00_0001), port: 9999 };
    assert_eq!(s.note_sender(game), vec!["a".to_string(), "b".to_string()]);
    assert!(s.note_sender(game).is_empty());
    assert_eq!(s.deliver("c"), Some(game));
    assert_eq!(s.poll_inbox(), vec!["c".to_string()]);
    assert!(s.poll_inbox().is_empty());
}

#[test]
fn law_pending_is_bounded() {
    let mut s = IpcState::new();
    for i in 0..300 {
        assert_eq!(s.deliver(&i.to_string()), None);
    }
    let game = SockAddr { ip: Ip::V4(0x7f00_0001), port: 1 };
    let flushed = s.note_sender(game);
    assert_eq!(flushed.len(), 256);
    assert_eq!(flushed[0], "0");
    assert_eq!(flushed[255], "255");
}

#[test]
fn law_poll_returns_oldest_batch() {
    let mut s = IpcState::new();
    for i in 0..70 {
        s.push_inbox(format!("l{}", i));
    }
    let first = s.poll_inbox();
    assert_eq!(first.len(), 64);
    assert_eq!(first[0], "l0");
    assert_eq!(first[63], "l63");
    let second = s.poll_inbox();
    assert_eq!(second.len(), 6);
    assert_eq!(second[5], "l69");
}

#[test]
fn note_game_port_and_deliver_to_port() {
    let mut s = IpcState::new();
    s.note_game_port(0);
    assert_eq!(s.deliver("x"), None);
    let r = s.deliver_to_port("y", Some(0));
    assert_eq!(r, None);
    let r = s.deliver_to_port("z", Some(4444));
    let game = SockAddr { ip: Ip::V4(0x7f00_0001), port: 4444 };
    assert_eq!(r, Some(game));
    assert_eq!(s.poll_inbox(), vec!["z".to_string()]);
    s.note_game_port(5555);
    assert_eq!(s.deliver_to_port("w", None), Some(SockAddr { ip: Ip::V4(0x7f00_0001), port: 5555 }));
    // lines kept while the game was unknown stay until an address arrives from the game
    assert_eq!(s.note_sender(game), Vec::<String>::new());
}

#[test]
fn law_remembered_chat_peer_is_reached() {
    let mut c = ChatState::new();
    c.set_port(3000);
    c.remember(Some(ip4(7)), 4100);
    assert_eq!(c.targets(&vec![Some(ip4(7))]), vec![SockAddr { ip: ip4(7), port: 4100 }]);
    c.remember(Some(ip4(7)), 4200);
    assert_eq!(c.targets(&vec![Some(ip4(7))]), vec![SockAddr { ip: ip4(7), port: 4200 }]);
    // Port 0 is not remembered.
    c.remember(Some(ip4(8)), 0);
    assert!(c.targets(&vec![Some(ip4(8))]).is_empty());
}
