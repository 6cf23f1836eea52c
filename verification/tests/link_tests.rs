use easytier_gui::link::{
    discovery_port, extract_seq, fangame_discovery_port, insert_port, parse_local_ports,
    player_line_of, render_local_ports, LinkPacket, LinkReceive, LinkState,
};
use easytier_gui::net::{clean_ip_text, dest_addrs, Ip, SockAddr};

const ME: u16 = 4000;

fn ip(a: u8, b: u8, c: u8, d: u8) -> Ip {
    Ip::V4(u32::from_be_bytes([a, b, c, d]))
}

fn lo() -> Ip {
    ip(127, 0, 0, 1)
}

fn packet(kind: &str, from: &str, payload: &str, reply_port: u16) -> LinkPacket {
    LinkPacket {
        v: 1,
        kind: kind.to_string(),
        from: from.to_string(),
        payload: payload.to_string(),
        reply_port,
        ts: 0,
    }
}

fn started() -> LinkState {
    let mut l = LinkState::new();
    l.set_port(ME);
    l.set_pseudo("  Alice ");
    l
}

fn endpoint(l: &LinkState, who: Ip) -> Option<u16> {
    l.endpoint_pairs().into_iter().find(|(i, _)| *i == who).map(|(_, p)| p)
}

#[test]
fn extract_seq_reads_last_field() {
    assert_eq!(extract_seq("PLAYER|map|12|34| 42 "), 42);
    assert_eq!(extract_seq("7"), 7);
    assert_eq!(extract_seq("PLAYER|x|+9"), 9);
    assert_eq!(extract_seq("PLAYER|x|abc"), 0);
    assert_eq!(extract_seq("PLAYER|x|"), 0);
    assert_eq!(extract_seq("PLAYER|x|18446744073709551616"), 0);
    assert_eq!(extract_seq("a|18446744073709551615"), u64::MAX);
}

#[test]
fn law_player_tag_does_not_change_seq() {
    for body in ["a|5", "5", "PLAYER|3", "", "x|y|z|77"] {
        let tagged = format!("PLAYER|{}", body);
        assert_eq!(extract_seq(&tagged), extract_seq(body));
    }
}

#[test]
fn discovery_port_of_fangame() {
    assert_eq!(discovery_port("fangame"), 53056);
    assert_eq!(fangame_discovery_port(), 53056);
    let p = discovery_port("");
    assert_eq!(p, 40000 + (2166136261u32 % 20000) as u16);
    for n in ["a", "other network", "éà"] {
        let p = discovery_port(n);
        assert!((40000..60000).contains(&p));
    }
}

#[test]
fn local_ports_file_parsing() {
    assert_eq!(parse_local_ports("5000\n 4000 \r\n0\nabc\n5000\n+7\n70000\n"), vec![7, 4000, 5000]);
    assert_eq!(parse_local_ports(""), Vec::<u16>::new());
    assert_eq!(parse_local_ports("12\r"), vec![12]);
    assert_eq!(parse_local_ports("12"), vec![12]);
}

#[test]
fn law_local_ports_round_trip() {
    let ports = vec![1u16, 80, 4000, 65535];
    let text = render_local_ports(&ports);
    assert_eq!(text, "1\n80\n4000\n65535");
    assert_eq!(parse_local_ports(&text), ports);
    let ports = insert_port(&insert_port(&vec![], 9), 3);
    assert_eq!(ports, vec![3, 9]);
    assert_eq!(insert_port(&ports, 9), vec![3, 9]);
    assert_eq!(render_local_ports(&Vec::new()), "");
}

#[test]
fn clean_ip_text_strips_brackets() {
    assert_eq!(clean_ip_text("  [fe80::1]  "), "fe80::1");
    assert_eq!(clean_ip_text("[[10.0.0.1]]"), "10.0.0.1");
    assert_eq!(clean_ip_text("10.0.0.1"), "10.0.0.1");
}

#[test]
fn dest_addrs_never_target_self() {
    let peer = ip(10, 0, 0, 2);
    assert_eq!(
        dest_addrs(peer, 5000, ME),
        vec![SockAddr { ip: peer, port: 5000 }, SockAddr { ip: lo(), port: 5000 }]
    );
    assert!(dest_addrs(peer, ME, ME).is_empty());
    assert!(dest_addrs(peer, 0, ME).is_empty());
    assert!(dest_addrs(lo(), 5000, ME).is_empty());
    assert!(dest_addrs(Ip::V6(1), 5000, ME).is_empty());
}

#[test]
fn get_port_and_pseudo() {
    let l = LinkState::new();
    assert_eq!(l.get_port(), Err("link not started".to_string()));
    let l = started();
    assert_eq!(l.get_port(), Ok(ME));
    assert_eq!(l.pseudo_string(), "Alice");
}

#[test]
fn learn_from_real_address() {
    let mut l = started();
    let peer = ip(10, 0, 0, 2);
    assert!(!l.learn_endpoint(peer, 0, ME));
    assert!(!l.learn_endpoint(peer, ME, ME));
    assert!(l.peer_list().is_empty());
    assert!(l.learn_endpoint(peer, 5000, ME));
    assert_eq!(endpoint(&l, peer), Some(5000));
    assert_eq!(l.peer_list(), vec![peer]);
    assert!(!l.learn_endpoint(peer, 5000, ME));
    assert!(l.learn_endpoint(peer, 5001, ME));
    assert_eq!(endpoint(&l, peer), Some(5001));
    assert_eq!(l.peer_list(), vec![peer]);
}

#[test]
fn law_loopback_learning_is_sticky() {
    let mut l = started();
    let a = ip(10, 0, 0, 2);
    let b = ip(10, 0, 0, 3);
    l.set_peers(&vec![Some(a), Some(b)]);
    assert!(l.learn_endpoint(a, 5000, ME));
    // a loopback packet only fills the peer without a port
    assert!(l.learn_endpoint(lo(), 6000, ME));
    assert_eq!(endpoint(&l, a), Some(5000));
    assert_eq!(endpoint(&l, b), Some(6000));
    assert!(!l.learn_endpoint(lo(), 7000, ME));
    assert_eq!(endpoint(&l, b), Some(6000));
    assert_eq!(endpoint(&l, lo()), None);
    assert_eq!(l.peer_list(), vec![a, b]);
}

#[test]
fn learning_before_start_is_cleaned_later() {
    let mut l = LinkState::new();
    let a = ip(10, 0, 0, 2);
    assert!(l.learn_endpoint(a, 4000, 0));
    assert_eq!(endpoint(&l, a), Some(4000));
    l.set_port(4000);
    let b = ip(10, 0, 0, 3);
    assert!(l.learn_endpoint(b, 5000, 4000));
    // the entry pointing at my own port is dropped
    assert_eq!(endpoint(&l, a), None);
    assert_eq!(endpoint(&l, b), Some(5000));
}

#[test]
fn set_peers_skips_loopback_and_repeats() {
    let mut l = started();
    let a = ip(10, 0, 0, 2);
    let b = ip(10, 0, 0, 3);
    l.set_peers(&vec![Some(a), None, Some(lo()), Some(a), Some(b), Some(Ip::V6(1))]);
    assert_eq!(l.peer_list(), vec![a, b]);
    l.set_peers(&vec![Some(b)]);
    assert_eq!(l.peer_list(), vec![a, b]);
}

#[test]
fn remember_rules() {
    let mut l = started();
    let a = ip(10, 0, 0, 2);
    l.remember(Some(a), 0);
    l.remember(Some(a), ME);
    l.remember(None, 5000);
    l.remember(Some(lo()), 5000);
    assert!(l.endpoint_pairs().is_empty());
    assert!(l.peer_list().is_empty());
    l.remember(Some(a), 5000);
    assert_eq!(endpoint(&l, a), Some(5000));
    assert_eq!(l.peer_list(), vec![a]);
}

#[test]
fn receive_drops_own_packets() {
    let mut l = started();
    let from = SockAddr { ip: ip(10, 0, 0, 2), port: 999 };
    let r = l.receive(&packet("player", "x", "p", ME), from);
    assert!(matches!(r, LinkReceive::SelfEcho));
    let r = l.receive(&packet("player", "aLiCe", "p", 5000), from);
    assert!(matches!(r, LinkReceive::SelfEcho));
    assert!(l.endpoint_pairs().is_empty());
    assert!(l.peer_list().is_empty());
}

#[test]
fn receive_learns_and_hands_player_lines() {
    let mut l = started();
    let peer = ip(10, 0, 0, 2);
    let from = SockAddr { ip: peer, port: 999 };
    match l.receive(&packet("player", "Bob", "1|2|3", 5000), from) {
        LinkReceive::Accepted { learned, to_game } => {
            assert!(learned);
            assert_eq!(to_game, Some("PLAYER|1|2|3".to_string()));
        }
        LinkReceive::SelfEcho => panic!("not my packet"),
    }
    assert_eq!(endpoint(&l, peer), Some(5000));
    match l.receive(&packet("announce", "Bob", "", 5000), from) {
        LinkReceive::Accepted { learned, to_game } => {
            assert!(!learned);
            assert_eq!(to_game, None);
        }
        LinkReceive::SelfEcho => panic!("not my packet"),
    }
    match l.receive(&packet("player", "", "PLAYER|9", 0), from) {
        LinkReceive::Accepted { learned, to_game } => {
            assert!(!learned);
            assert_eq!(to_game, Some("PLAYER|9".to_string()));
        }
        LinkReceive::SelfEcho => panic!("not my packet"),
    }
    match l.receive(&packet("player", "Bob", "", 5000), from) {
        LinkReceive::Accepted { to_game, .. } => assert_eq!(to_game, None),
        LinkReceive::SelfEcho => panic!("not my packet"),
    }
}

#[test]
fn law_relay_then_receive_gives_same_line() {
    let mut sender = started();
    let peer = ip(10, 0, 0, 2);
    sender.remember(Some(peer), 5000);
    let line = "PLAYER|map|3|4|17";
    let plan = sender.relay_plan(line, 11).unwrap();
    assert_eq!(plan.packet.payload, "map|3|4|17");
    let mut receiver = LinkState::new();
    receiver.set_port(5000);
    match receiver.receive(&plan.packet, SockAddr { ip: ip(10, 0, 0, 1), port: ME }) {
        LinkReceive::Accepted { to_game, .. } => assert_eq!(to_game, Some(line.to_string())),
        LinkReceive::SelfEcho => panic!("not an echo"),
    }
    assert_eq!(player_line_of("x"), "PLAYER|x");
    assert_eq!(player_line_of("PLAYER|x"), "PLAYER|x");
}

#[test]
fn relay_plan_destinations() {
    let l = LinkState::new();
    assert!(l.relay_plan("PLAYER|1", 0).is_none());
    let mut l = started();
    let a = ip(10, 0, 0, 2);
    let b = ip(10, 0, 0, 3);
    l.set_peers(&vec![Some(a), Some(b)]);
    l.remember(Some(a), 5000);
    let plan = l.relay_plan("PLAYER|x|5", 77).unwrap();
    assert_eq!(plan.packet.v, 1);
    assert_eq!(plan.packet.kind, "player");
    assert_eq!(plan.packet.from, "Alice");
    assert_eq!(plan.packet.reply_port, ME);
    assert_eq!(plan.packet.ts, 77);
    let d = 53056;
    assert_eq!(
        plan.dests,
        vec![
            SockAddr { ip: a, port: 5000 },
            SockAddr { ip: lo(), port: 5000 },
            SockAddr { ip: a, port: d },
            SockAddr { ip: lo(), port: d },
            SockAddr { ip: b, port: d },
            SockAddr { ip: lo(), port: d },
        ]
    );
}

#[test]
fn send_plan_destinations() {
    let l = LinkState::new();
    assert!(matches!(l.send_plan("k", "p", &vec![], 0), Err(e) if e == "link not started"));
    let mut l = started();
    let a = ip(10, 0, 0, 2);
    l.remember(Some(a), 5000);
    let plan = l.send_plan("trade", "hello", &vec![None, Some(lo()), Some(a)], 3).unwrap();
    assert_eq!(plan.packet.kind, "trade");
    assert_eq!(plan.packet.payload, "hello");
    assert_eq!(plan.dests.len(), 4);
    assert!(plan.dests.iter().all(|s| s.port != ME && s.port != 0));
}

#[test]
fn bootstrap_gate_debounces() {
    let mut l = started();
    assert!(l.bootstrap_gate(10));
    assert!(!l.bootstrap_gate(10 + 1_999_999_999));
    assert!(l.bootstrap_gate(10 + 2_000_000_000));
    assert!(!l.bootstrap_gate(5));
}

#[test]
fn bootstrap_targets_list() {
    let l = LinkState::new();
    assert!(l.bootstrap_targets(&vec![]).is_none());
    let mut l = started();
    let a = ip(10, 0, 0, 2);
    l.remember(Some(a), 5000);
    let d = 53056;
    let targets = l.bootstrap_targets(&vec![ME, 4100]).unwrap();
    assert_eq!(
        targets,
        vec![
            SockAddr { ip: a, port: d },
            SockAddr { ip: lo(), port: d },
            SockAddr { ip: a, port: 5000 },
            SockAddr { ip: lo(), port: 5000 },
            SockAddr { ip: lo(), port: 4100 },
            SockAddr { ip: a, port: 4100 },
        ]
    );
    let p = l.announce_packet(9);
    assert_eq!(p.kind, "announce");
    assert_eq!(p.payload, "");
    assert_eq!(p.reply_port, ME);
}

#[test]
fn law_own_packets_come_back_as_echo() {
    let mut l = started();
    let peer = ip(10, 0, 0, 2);
    l.remember(Some(peer), 5000);
    let plan = l.relay_plan("PLAYER|a|1", 5).unwrap();
    assert!(matches!(l.receive(&plan.packet, SockAddr { ip: peer, port: 5000 }), LinkReceive::SelfEcho));
    let sent = l.send_plan("trade", "x", &vec![Some(peer)], 6).unwrap();
    assert!(matches!(l.receive(&sent.packet, SockAddr { ip: lo(), port: 9 }), LinkReceive::SelfEcho));
    // Nothing was learned from the echoes.
    assert_eq!(endpoint(&l, peer), Some(5000));
    assert_eq!(endpoint(&l, lo()), None);
}

#[test]
fn law_real_source_is_learned() {
    let mut l = started();
    let a = ip(192, 168, 1, 9);
    l.remember(Some(a), 5000);
    let r = l.receive(&packet("announce", "Bob", "", 6000), SockAddr { ip: a, port: 1234 });
    assert!(matches!(r, LinkReceive::Accepted { learned: true, to_game: None }));
    assert_eq!(endpoint(&l, a), Some(6000));
    // My own port is never learned.
    assert!(!l.learn_endpoint(a, ME, ME));
    assert_eq!(endpoint(&l, a), Some(6000));
}

#[test]
fn law_known_peer_gets_data_first() {
    let mut l = started();
    let a = ip(10, 1, 2, 3);
    l.remember(Some(a), 7000);
    let plan = l.send_plan("k", "p", &vec![Some(a)], 0).unwrap();
    assert_eq!(plan.dests[0], SockAddr { ip: a, port: 7000 });
    assert_eq!(plan.dests[1], SockAddr { ip: lo(), port: 7000 });
}
